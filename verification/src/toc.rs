use vstd::prelude::*;

verus! {

/// One heading of the document's table of contents.
#[derive(Clone, Debug)]
pub struct TocEntry {
    pub level: u8,
    pub title: String,
    pub line: usize,
}

pub open spec fn levels_of(toc: Seq<TocEntry>) -> Seq<u8> {
    toc.map_values(|e: TocEntry| e.level)
}

/// Smallest element of a non-empty sequence.
pub open spec fn min_level(s: Seq<u8>) -> u8
    decreases s.len(),
{
    if s.len() <= 1 {
        s[0]
    } else {
        let m = min_level(s.drop_last());
        if s.last() < m {
            s.last()
        } else {
            m
        }
    }
}

/// Smallest element of `s` above `m`; 255 when there is none.
pub open spec fn min_level_above(s: Seq<u8>, m: u8) -> u8
    decreases s.len(),
{
    if s.len() == 0 {
        255
    } else {
        let r = min_level_above(s.drop_last(), m);
        if s.last() > m && s.last() < r {
            s.last()
        } else {
            r
        }
    }
}

pub open spec fn occurs_once(s: Seq<u8>, m: u8) -> bool {
    forall|i: int, j: int| 0 <= i < s.len() && 0 <= j < s.len() && s[i] == m && s[j] == m ==> i == j
}

pub open spec fn has_level_above(s: Seq<u8>, m: u8) -> bool {
    exists|i: int| 0 <= i < s.len() && s[i] > m
}

/// How many levels every heading moves up, and whether the single top-level
/// heading is hidden: a lone H1 above deeper headings is hidden and the next
/// level becomes the root; otherwise the smallest level becomes the root.
pub open spec fn spec_toc_promotion(levels: Seq<u8>) -> (u8, bool) {
    if levels.len() == 0 {
        (0, false)
    } else {
        let m = min_level(levels);
        if m == 1 && occurs_once(levels, m) && has_level_above(levels, m) {
            ((min_level_above(levels, m) - 1) as u8, true)
        } else {
            ((m - 1) as u8, false)
        }
    }
}

pub proof fn lemma_min_level(s: Seq<u8>)
    requires
        s.len() > 0,
    ensures
        exists|i: int| 0 <= i < s.len() && s[i] == min_level(s),
        forall|i: int| 0 <= i < s.len() ==> min_level(s) <= #[trigger] s[i],
    decreases s.len(),
{
    if s.len() > 1 {
        lemma_min_level(s.drop_last());
        let i = choose|i: int| 0 <= i < s.drop_last().len() && s.drop_last()[i] == min_level(s.drop_last());
        assert(s[i] == s.drop_last()[i]);
        assert forall|k: int| 0 <= k < s.len() implies min_level(s) <= #[trigger] s[k] by {
            if k < s.len() - 1 {
                assert(s[k] == s.drop_last()[k]);
            }
        }
    } else {
        assert(s[0] == min_level(s));
    }
}

pub open spec fn levels_at_least_one(toc: Seq<TocEntry>) -> bool {
    forall|i: int| 0 <= i < toc.len() ==> #[trigger] toc[i].level >= 1
}

/// Computes how many levels to shift headings so that the document's
/// top-level headings appear as root (display level 1), and whether the single
/// top-level heading is hidden.
pub fn toc_promotion(toc: &[TocEntry]) -> (r: (u8, bool))
    requires
        levels_at_least_one(toc@),
    ensures
        r == spec_toc_promotion(levels_of(toc@)),
{
    let ghost levels = levels_of(toc@);
    if toc.len() == 0 {
        return (0, false);
    }
    let mut m: u8 = toc[0].level;
    let mut i: usize = 1;
    assert(levels.take(1).drop_last() =~= Seq::<u8>::empty());
    assert(levels.take(1) =~= seq![levels[0]]);
    while i < toc.len()
        invariant
            1 <= i <= toc.len(),
            levels == levels_of(toc@),
            m == min_level(levels.take(i as int)),
        decreases toc.len() - i,
    {
        assert(levels.take(i + 1).drop_last() == levels.take(i as int));
        if toc[i].level < m {
            m = toc[i].level;
        }
        i += 1;
    }
    assert(levels.take(toc.len() as int) == levels);
    proof {
        lemma_min_level(levels);
    }
    let mut count: usize = 0;
    let mut deeper = false;
    let mut next: u8 = 255;
    let mut first_at_min: usize = 0;
    let mut k: usize = 0;
    assert(levels.take(0) =~= Seq::<u8>::empty());
    while k < toc.len()
        invariant
            k <= toc.len(),
            levels == levels_of(toc@),
            m == min_level(levels),
            count <= k,
            count == 0 ==> forall|j: int| 0 <= j < k ==> levels[j] != m,
            count >= 1 ==> first_at_min < k && levels[first_at_min as int] == m,
            count == 1 ==> forall|j: int| 0 <= j < k && levels[j] == m ==> j == first_at_min,
            count >= 2 ==> !occurs_once(levels, m),
            deeper == (exists|j: int| 0 <= j < k && levels[j] > m),
            next == min_level_above(levels.take(k as int), m),
        decreases toc.len() - k,
    {
        let l = toc[k].level;
        assert(levels[k as int] == l);
        assert(levels.take(k + 1).drop_last() == levels.take(k as int));
        if l == m {
            if count == 1 {
                assert(!occurs_once(levels, m));
            }
            if count == 0 {
                first_at_min = k;
            }
            if count < 2 {
                count += 1;
            }
        }
        if l > m {
            deeper = true;
            if l < next {
                next = l;
            }
        }
        k += 1;
    }
    assert(levels.take(toc.len() as int) == levels);
    assert(count == 1 <==> occurs_once(levels, m)) by {
        if count == 0 {
            let w = choose|w: int| 0 <= w < levels.len() && levels[w] == min_level(levels);
            assert(levels[w] == m);
        }
    }
    if m == 1 && count == 1 && deeper {
        assert(has_level_above(levels, m));
        assert(next > m) by {
            lemma_min_level_above_bounds(levels, m);
        }
        (next - 1, true)
    } else {
        (m - 1, false)
    }
}

proof fn lemma_min_level_above_bounds(s: Seq<u8>, m: u8)
    requires
        has_level_above(s, m),
    ensures
        min_level_above(s, m) > m,
    decreases s.len(),
{
    let w = choose|w: int| 0 <= w < s.len() && s[w] > m;
    if w < s.len() - 1 {
        assert(s.drop_last()[w] == s[w]);
        lemma_min_level_above_bounds(s.drop_last(), m);
    } else {
        lemma_min_level_above_at_least(s.drop_last(), m);
    }
}

proof fn lemma_min_level_above_at_least(s: Seq<u8>, m: u8)
    ensures
        min_level_above(s, m) > m || min_level_above(s, m) == 255,
    decreases s.len(),
{
    if s.len() > 0 {
        lemma_min_level_above_at_least(s.drop_last(), m);
    }
}

/// The level at which a heading is shown: its level less the shift, floored
/// at zero, and zero for the hidden root.
pub open spec fn spec_toc_display_level(level: u8, shift: u8, hide_root: bool) -> u8 {
    if hide_root && level <= shift {
        0
    } else if level >= shift {
        (level - shift) as u8
    } else {
        0
    }
}

pub fn toc_display_level(level: u8, shift: u8, hide_root: bool) -> (r: u8)
    ensures
        r == spec_toc_display_level(level, shift, hide_root),
{
    if hide_root && level <= shift {
        return 0;
    }
    level.saturating_sub(shift)
}

/// Keeps at most three heading levels, starting from the document's minimum.
pub open spec fn spec_normalize_toc(toc: Seq<TocEntry>) -> Seq<TocEntry> {
    if toc.len() == 0 {
        toc
    } else {
        let limit = min_level(levels_of(toc)) + 2;
        toc.filter(|e: TocEntry| e.level <= limit)
    }
}

pub fn normalize_toc(toc: Vec<TocEntry>) -> (r: Vec<TocEntry>)
    requires
        toc.len() > 0 ==> min_level(levels_of(toc@)) <= 253,
    ensures
        r@ == spec_normalize_toc(toc@),
{
    if toc.len() == 0 {
        return toc;
    }
    let ghost levels = levels_of(toc@);
    let mut m: u8 = toc[0].level;
    let mut i: usize = 1;
    assert(levels.take(1).drop_last() =~= Seq::<u8>::empty());
    assert(levels.take(1) =~= seq![levels[0]]);
    while i < toc.len()
        invariant
            1 <= i <= toc.len(),
            levels == levels_of(toc@),
            m == min_level(levels.take(i as int)),
        decreases toc.len() - i,
    {
        assert(levels.take(i + 1).drop_last() == levels.take(i as int));
        if toc[i].level < m {
            m = toc[i].level;
        }
        i += 1;
    }
    assert(levels.take(toc.len() as int) == levels);
    let max_raw: u8 = m + 2;
    let ghost pred = |e: TocEntry| e.level <= max_raw;
    let ghost orig = toc@;
    let mut kept: Vec<TocEntry> = Vec::new();
    assert(orig.take(0).filter(pred) =~= Seq::<TocEntry>::empty()) by {
        reveal_with_fuel(Seq::<_>::filter, 1);
    }
    for e in it: toc
        invariant
            it.seq() == orig,
            kept@ == orig.take(it.index() as int).filter(pred),
            pred == (|e: TocEntry| e.level <= max_raw),
    {
        let ghost k = it.index();
        let keep = e.level <= max_raw;
        assert(orig[k as int] == e);
        assert(orig.take(k + 1).drop_last() == orig.take(k as int));
        assert(orig.take(k + 1).last() == e);
        if keep {
            kept.push(e);
        }
        proof {
            reveal_with_fuel(Seq::<_>::filter, 1);
        }
    }
    assert(orig.take(orig.len() as int) == orig);
    kept
}

} // verus!
