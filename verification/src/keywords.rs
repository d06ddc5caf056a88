use vstd::prelude::*;
use crate::lines::eq_chars;
use crate::text::chars_of;

verus! {

fn member_of(w: &Vec<char>, list: &Vec<Vec<char>>) -> (r: bool)
    ensures
        r == exists|i: int| 0 <= i < list@.len() && (#[trigger] list@[i])@ == w@,
{
    let mut i: usize = 0;
    while i < list.len()
        invariant
            i <= list.len(),
            forall|j: int| 0 <= j < i ==> (#[trigger] list@[j])@ != w@,
        decreases list.len() - i,
    {
        if eq_chars(&list[i], w) {
            return true;
        }
        i += 1;
    }
    false
}

/// The words that open a Mermaid diagram.
pub open spec fn spec_is_diagram_keyword(w: Seq<char>) -> bool {
    w == seq!['f', 'l', 'o', 'w', 'c', 'h', 'a', 'r', 't']
        || w == seq!['g', 'r', 'a', 'p', 'h']
        || w == seq!['s', 'e', 'q', 'u', 'e', 'n', 'c', 'e', 'D', 'i', 'a', 'g', 'r', 'a', 'm']
        || w == seq!['c', 'l', 'a', 's', 's', 'D', 'i', 'a', 'g', 'r', 'a', 'm']
        || w == seq!['s', 't', 'a', 't', 'e', 'D', 'i', 'a', 'g', 'r', 'a', 'm']
        || w == seq!['s', 't', 'a', 't', 'e', 'D', 'i', 'a', 'g', 'r', 'a', 'm', '-', 'v', '2']
        || w == seq!['e', 'r', 'D', 'i', 'a', 'g', 'r', 'a', 'm']
        || w == seq!['g', 'a', 'n', 't', 't']
        || w == seq!['p', 'i', 'e']
        || w == seq!['j', 'o', 'u', 'r', 'n', 'e', 'y']
        || w == seq!['g', 'i', 't', 'G', 'r', 'a', 'p', 'h']
        || w == seq!['m', 'i', 'n', 'd', 'm', 'a', 'p']
        || w == seq!['t', 'i', 'm', 'e', 'l', 'i', 'n', 'e']
        || w == seq!['s', 'a', 'n', 'k', 'e', 'y', '-', 'b', 'e', 't', 'a']
        || w == seq!['q', 'u', 'a', 'd', 'r', 'a', 'n', 't', 'C', 'h', 'a', 'r', 't']
        || w == seq!['r', 'e', 'q', 'u', 'i', 'r', 'e', 'm', 'e', 'n', 't', 'D', 'i', 'a', 'g', 'r', 'a', 'm']
        || w == seq!['C', '4', 'C', 'o', 'n', 't', 'e', 'x', 't']
        || w == seq!['b', 'l', 'o', 'c', 'k', '-', 'b', 'e', 't', 'a']
        || w == seq!['x', 'y', 'c', 'h', 'a', 'r', 't', '-', 'b', 'e', 't', 'a']
        || w == seq!['k', 'a', 'n', 'b', 'a', 'n']
        || w == seq!['a', 'r', 'c', 'h', 'i', 't', 'e', 'c', 't', 'u', 'r', 'e', '-', 'b', 'e', 't', 'a']
}

fn is_diagram_keyword_list() -> (r: Vec<Vec<char>>)
    ensures
        forall|w: Seq<char>| spec_is_diagram_keyword(w) <==> exists|i: int| 0 <= i < r@.len() && (#[trigger] r@[i])@ == w,
{
    let mut r: Vec<Vec<char>> = Vec::new();
    r.push(vec!['f', 'l', 'o', 'w', 'c', 'h', 'a', 'r', 't']);
    r.push(vec!['g', 'r', 'a', 'p', 'h']);
    r.push(vec!['s', 'e', 'q', 'u', 'e', 'n', 'c', 'e', 'D', 'i', 'a', 'g', 'r', 'a', 'm']);
    r.push(vec!['c', 'l', 'a', 's', 's', 'D', 'i', 'a', 'g', 'r', 'a', 'm']);
    r.push(vec!['s', 't', 'a', 't', 'e', 'D', 'i', 'a', 'g', 'r', 'a', 'm']);
    r.push(vec!['s', 't', 'a', 't', 'e', 'D', 'i', 'a', 'g', 'r', 'a', 'm', '-', 'v', '2']);
    r.push(vec!['e', 'r', 'D', 'i', 'a', 'g', 'r', 'a', 'm']);
    r.push(vec!['g', 'a', 'n', 't', 't']);
    r.push(vec!['p', 'i', 'e']);
    r.push(vec!['j', 'o', 'u', 'r', 'n', 'e', 'y']);
    r.push(vec!['g', 'i', 't', 'G', 'r', 'a', 'p', 'h']);
    r.push(vec!['m', 'i', 'n', 'd', 'm', 'a', 'p']);
    r.push(vec!['t', 'i', 'm', 'e', 'l', 'i', 'n', 'e']);
    r.push(vec!['s', 'a', 'n', 'k', 'e', 'y', '-', 'b', 'e', 't', 'a']);
    r.push(vec!['q', 'u', 'a', 'd', 'r', 'a', 'n', 't', 'C', 'h', 'a', 'r', 't']);
    r.push(vec!['r', 'e', 'q', 'u', 'i', 'r', 'e', 'm', 'e', 'n', 't', 'D', 'i', 'a', 'g', 'r', 'a', 'm']);
    r.push(vec!['C', '4', 'C', 'o', 'n', 't', 'e', 'x', 't']);
    r.push(vec!['b', 'l', 'o', 'c', 'k', '-', 'b', 'e', 't', 'a']);
    r.push(vec!['x', 'y', 'c', 'h', 'a', 'r', 't', '-', 'b', 'e', 't', 'a']);
    r.push(vec!['k', 'a', 'n', 'b', 'a', 'n']);
    r.push(vec!['a', 'r', 'c', 'h', 'i', 't', 'e', 'c', 't', 'u', 'r', 'e', '-', 'b', 'e', 't', 'a']);
    proof {
        assert(r@[0]@ == seq!['f', 'l', 'o', 'w', 'c', 'h', 'a', 'r', 't']);
        assert(r@[1]@ == seq!['g', 'r', 'a', 'p', 'h']);
        assert(r@[2]@ == seq!['s', 'e', 'q', 'u', 'e', 'n', 'c', 'e', 'D', 'i', 'a', 'g', 'r', 'a', 'm']);
        assert(r@[3]@ == seq!['c', 'l', 'a', 's', 's', 'D', 'i', 'a', 'g', 'r', 'a', 'm']);
        assert(r@[4]@ == seq!['s', 't', 'a', 't', 'e', 'D', 'i', 'a', 'g', 'r', 'a', 'm']);
        assert(r@[5]@ == seq!['s', 't', 'a', 't', 'e', 'D', 'i', 'a', 'g', 'r', 'a', 'm', '-', 'v', '2']);
        assert(r@[6]@ == seq!['e', 'r', 'D', 'i', 'a', 'g', 'r', 'a', 'm']);
        assert(r@[7]@ == seq!['g', 'a', 'n', 't', 't']);
        assert(r@[8]@ == seq!['p', 'i', 'e']);
        assert(r@[9]@ == seq!['j', 'o', 'u', 'r', 'n', 'e', 'y']);
        assert(r@[10]@ == seq!['g', 'i', 't', 'G', 'r', 'a', 'p', 'h']);
        assert(r@[11]@ == seq!['m', 'i', 'n', 'd', 'm', 'a', 'p']);
        assert(r@[12]@ == seq!['t', 'i', 'm', 'e', 'l', 'i', 'n', 'e']);
        assert(r@[13]@ == seq!['s', 'a', 'n', 'k', 'e', 'y', '-', 'b', 'e', 't', 'a']);
        assert(r@[14]@ == seq!['q', 'u', 'a', 'd', 'r', 'a', 'n', 't', 'C', 'h', 'a', 'r', 't']);
        assert(r@[15]@ == seq!['r', 'e', 'q', 'u', 'i', 'r', 'e', 'm', 'e', 'n', 't', 'D', 'i', 'a', 'g', 'r', 'a', 'm']);
        assert(r@[16]@ == seq!['C', '4', 'C', 'o', 'n', 't', 'e', 'x', 't']);
        assert(r@[17]@ == seq!['b', 'l', 'o', 'c', 'k', '-', 'b', 'e', 't', 'a']);
        assert(r@[18]@ == seq!['x', 'y', 'c', 'h', 'a', 'r', 't', '-', 'b', 'e', 't', 'a']);
        assert(r@[19]@ == seq!['k', 'a', 'n', 'b', 'a', 'n']);
        assert(r@[20]@ == seq!['a', 'r', 'c', 'h', 'i', 't', 'e', 'c', 't', 'u', 'r', 'e', '-', 'b', 'e', 't', 'a']);
    }
    r
}

pub fn is_diagram_keyword(word: &str) -> (r: bool)
    ensures
        r == spec_is_diagram_keyword(word@),
{
    let w = chars_of(word);
    let list = is_diagram_keyword_list();
    member_of(&w, &list)
}

/// The layout directions.
pub open spec fn spec_is_direction_keyword(w: Seq<char>) -> bool {
    w == seq!['T', 'B']
        || w == seq!['T', 'D']
        || w == seq!['B', 'T']
        || w == seq!['L', 'R']
        || w == seq!['R', 'L']
}

fn is_direction_keyword_list() -> (r: Vec<Vec<char>>)
    ensures
        forall|w: Seq<char>| spec_is_direction_keyword(w) <==> exists|i: int| 0 <= i < r@.len() && (#[trigger] r@[i])@ == w,
{
    let mut r: Vec<Vec<char>> = Vec::new();
    r.push(vec!['T', 'B']);
    r.push(vec!['T', 'D']);
    r.push(vec!['B', 'T']);
    r.push(vec!['L', 'R']);
    r.push(vec!['R', 'L']);
    proof {
        assert(r@[0]@ == seq!['T', 'B']);
        assert(r@[1]@ == seq!['T', 'D']);
        assert(r@[2]@ == seq!['B', 'T']);
        assert(r@[3]@ == seq!['L', 'R']);
        assert(r@[4]@ == seq!['R', 'L']);
    }
    r
}

pub fn is_direction_keyword(word: &str) -> (r: bool)
    ensures
        r == spec_is_direction_keyword(word@),
{
    let w = chars_of(word);
    let list = is_direction_keyword_list();
    member_of(&w, &list)
}

/// The words that structure a diagram's body.
pub open spec fn spec_is_structure_keyword(w: Seq<char>) -> bool {
    w == seq!['s', 'u', 'b', 'g', 'r', 'a', 'p', 'h']
        || w == seq!['e', 'n', 'd']
        || w == seq!['s', 'e', 'c', 't', 'i', 'o', 'n']
        || w == seq!['t', 'i', 't', 'l', 'e']
        || w == seq!['p', 'a', 'r', 't', 'i', 'c', 'i', 'p', 'a', 'n', 't']
        || w == seq!['a', 'c', 't', 'o', 'r']
        || w == seq!['l', 'o', 'o', 'p']
        || w == seq!['a', 'l', 't']
        || w == seq!['e', 'l', 's', 'e']
        || w == seq!['o', 'p', 't']
        || w == seq!['p', 'a', 'r']
        || w == seq!['c', 'r', 'i', 't', 'i', 'c', 'a', 'l']
        || w == seq!['b', 'r', 'e', 'a', 'k']
        || w == seq!['r', 'e', 'c', 't']
        || w == seq!['n', 'o', 't', 'e']
        || w == seq!['a', 'c', 't', 'i', 'v', 'a', 't', 'e']
        || w == seq!['d', 'e', 'a', 'c', 't', 'i', 'v', 'a', 't', 'e']
        || w == seq!['c', 'l', 'a', 's', 's']
        || w == seq!['s', 't', 'a', 't', 'e']
        || w == seq!['d', 'a', 't', 'e', 'F', 'o', 'r', 'm', 'a', 't']
        || w == seq!['a', 'x', 'i', 's', 'F', 'o', 'r', 'm', 'a', 't']
        || w == seq!['s', 't', 'y', 'l', 'e']
        || w == seq!['c', 'l', 'a', 's', 's', 'D', 'e', 'f']
        || w == seq!['c', 'l', 'i', 'c', 'k']
}

fn is_structure_keyword_list() -> (r: Vec<Vec<char>>)
    ensures
        forall|w: Seq<char>| spec_is_structure_keyword(w) <==> exists|i: int| 0 <= i < r@.len() && (#[trigger] r@[i])@ == w,
{
    let mut r: Vec<Vec<char>> = Vec::new();
    r.push(vec!['s', 'u', 'b', 'g', 'r', 'a', 'p', 'h']);
    r.push(vec!['e', 'n', 'd']);
    r.push(vec!['s', 'e', 'c', 't', 'i', 'o', 'n']);
    r.push(vec!['t', 'i', 't', 'l', 'e']);
    r.push(vec!['p', 'a', 'r', 't', 'i', 'c', 'i', 'p', 'a', 'n', 't']);
    r.push(vec!['a', 'c', 't', 'o', 'r']);
    r.push(vec!['l', 'o', 'o', 'p']);
    r.push(vec!['a', 'l', 't']);
    r.push(vec!['e', 'l', 's', 'e']);
    r.push(vec!['o', 'p', 't']);
    r.push(vec!['p', 'a', 'r']);
    r.push(vec!['c', 'r', 'i', 't', 'i', 'c', 'a', 'l']);
    r.push(vec!['b', 'r', 'e', 'a', 'k']);
    r.push(vec!['r', 'e', 'c', 't']);
    r.push(vec!['n', 'o', 't', 'e']);
    r.push(vec!['a', 'c', 't', 'i', 'v', 'a', 't', 'e']);
    r.push(vec!['d', 'e', 'a', 'c', 't', 'i', 'v', 'a', 't', 'e']);
    r.push(vec!['c', 'l', 'a', 's', 's']);
    r.push(vec!['s', 't', 'a', 't', 'e']);
    r.push(vec!['d', 'a', 't', 'e', 'F', 'o', 'r', 'm', 'a', 't']);
    r.push(vec!['a', 'x', 'i', 's', 'F', 'o', 'r', 'm', 'a', 't']);
    r.push(vec!['s', 't', 'y', 'l', 'e']);
    r.push(vec!['c', 'l', 'a', 's', 's', 'D', 'e', 'f']);
    r.push(vec!['c', 'l', 'i', 'c', 'k']);
    proof {
        assert(r@[0]@ == seq!['s', 'u', 'b', 'g', 'r', 'a', 'p', 'h']);
        assert(r@[1]@ == seq!['e', 'n', 'd']);
        assert(r@[2]@ == seq!['s', 'e', 'c', 't', 'i', 'o', 'n']);
        assert(r@[3]@ == seq!['t', 'i', 't', 'l', 'e']);
        assert(r@[4]@ == seq!['p', 'a', 'r', 't', 'i', 'c', 'i', 'p', 'a', 'n', 't']);
        assert(r@[5]@ == seq!['a', 'c', 't', 'o', 'r']);
        assert(r@[6]@ == seq!['l', 'o', 'o', 'p']);
        assert(r@[7]@ == seq!['a', 'l', 't']);
        assert(r@[8]@ == seq!['e', 'l', 's', 'e']);
        assert(r@[9]@ == seq!['o', 'p', 't']);
        assert(r@[10]@ == seq!['p', 'a', 'r']);
        assert(r@[11]@ == seq!['c', 'r', 'i', 't', 'i', 'c', 'a', 'l']);
        assert(r@[12]@ == seq!['b', 'r', 'e', 'a', 'k']);
        assert(r@[13]@ == seq!['r', 'e', 'c', 't']);
        assert(r@[14]@ == seq!['n', 'o', 't', 'e']);
        assert(r@[15]@ == seq!['a', 'c', 't', 'i', 'v', 'a', 't', 'e']);
        assert(r@[16]@ == seq!['d', 'e', 'a', 'c', 't', 'i', 'v', 'a', 't', 'e']);
        assert(r@[17]@ == seq!['c', 'l', 'a', 's', 's']);
        assert(r@[18]@ == seq!['s', 't', 'a', 't', 'e']);
        assert(r@[19]@ == seq!['d', 'a', 't', 'e', 'F', 'o', 'r', 'm', 'a', 't']);
        assert(r@[20]@ == seq!['a', 'x', 'i', 's', 'F', 'o', 'r', 'm', 'a', 't']);
        assert(r@[21]@ == seq!['s', 't', 'y', 'l', 'e']);
        assert(r@[22]@ == seq!['c', 'l', 'a', 's', 's', 'D', 'e', 'f']);
        assert(r@[23]@ == seq!['c', 'l', 'i', 'c', 'k']);
    }
    r
}

pub fn is_structure_keyword(word: &str) -> (r: bool)
    ensures
        r == spec_is_structure_keyword(word@),
{
    let w = chars_of(word);
    let list = is_structure_keyword_list();
    member_of(&w, &list)
}

} // verus!
