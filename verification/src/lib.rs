pub mod text;
pub mod picker_width;
pub mod toc;
pub mod app;
pub mod history_picker;
pub mod history;
pub mod paths;
pub mod images;
pub mod lines;
pub mod mermaid;
pub mod width;
pub mod wrap;
pub mod fit;
pub mod class_cards;
pub mod mermaid_render;
pub mod mermaid_pie;
pub mod keywords;
pub mod mermaid_tokens;
pub mod one_shot;
pub mod popup;
pub mod popup_lines;
pub mod completions;
pub mod cli;
pub mod laws;
