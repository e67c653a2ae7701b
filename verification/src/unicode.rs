//! Unicode text segmentation and display width, from the `unicode-segmentation` and
//! `unicode-width` crates.
use vstd::prelude::*;

use unicode_segmentation::UnicodeSegmentation;
use unicode_width::{UnicodeWidthChar, UnicodeWidthStr};

verus! {

/// The extended grapheme clusters of `s` (Unicode Annex #29), in order.
pub uninterp spec fn extended_graphemes(s: Seq<char>) -> Seq<Seq<char>>;

/// The display width in columns of a character, `None` for a control character.
pub uninterp spec fn char_columns(c: char) -> Option<usize>;

/// The display width in columns of a string.
pub uninterp spec fn str_columns(s: Seq<char>) -> usize;

/// unicode-segmentation's `graphemes(true)`, each cluster as a `String`. The
/// iterator hands out consecutive, non-empty slices that together cover `s`.
#[verifier::external_body]
pub(crate) fn graphemes_of(s: &str) -> (gs: Vec<String>)
    ensures
        gs@.map_values(|g: String| g@) == extended_graphemes(s@),
        gs@.map_values(|g: String| g@).flatten() == s@,
        forall|i: int| 0 <= i < gs@.len() ==> (#[trigger] gs@[i])@.len() > 0,
{
    let mut out: Vec<String> = Vec::new();
    for g in s.graphemes(true) {
        out.push(g.to_string());
    }
    out
}

/// unicode-width's `UnicodeWidthChar::width` of a character.
#[verifier::external_body]
pub(crate) fn char_width(c: char) -> (w: Option<usize>)
    ensures
        w == char_columns(c),
{
    c.width()
}

/// unicode-width's `UnicodeWidthStr::width` of a string.
#[verifier::external_body]
pub(crate) fn str_width(s: &str) -> (w: usize)
    ensures
        w == str_columns(s@),
{
    s.width()
}

/// The columns taken by the first `k` clusters of `gs`, the running sum saturating at
/// `usize::MAX`.
pub open spec fn columns_upto(gs: Seq<Seq<char>>, k: int) -> usize
    decreases k,
{
    if k <= 0 {
        0
    } else {
        let before = columns_upto(gs, k - 1);
        let w = str_columns(gs[k - 1]);
        if before + w > usize::MAX {
            usize::MAX
        } else {
            (before + w) as usize
        }
    }
}

/// The display column at which the cluster `grapheme_col` of `line` starts: the
/// widths of the clusters before it (of them all where the line has fewer).
pub fn display_col(line: &str, grapheme_col: usize) -> (w: usize)
    ensures
        w == columns_upto(
            extended_graphemes(line@),
            if grapheme_col < extended_graphemes(line@).len() {
                grapheme_col as int
            } else {
                extended_graphemes(line@).len() as int
            },
        ),
{
    let gs = graphemes_of(line);
    let ghost gv = gs@.map_values(|g: String| g@);
    let n = if grapheme_col < gs.len() {
        grapheme_col
    } else {
        gs.len()
    };
    let mut total: usize = 0;
    let mut k: usize = 0;
    while k < n
        invariant
            n <= gs@.len(),
            gv == gs@.map_values(|g: String| g@),
            gv == extended_graphemes(line@),
            k <= n,
            total == columns_upto(gv, k as int),
        decreases n - k,
    {
        let w = str_width(gs[k].as_str());
        assert(gs@[k as int]@ == gv[k as int]);
        total = total.saturating_add(w);
        k = k + 1;
    }
    total
}

/// The total length of the first `k` clusters is at most the length of them all.
pub proof fn lemma_flatten_take_len(gs: Seq<Seq<char>>, k: int)
    requires
        0 <= k <= gs.len(),
    ensures
        gs.take(k).flatten().len() <= gs.flatten().len(),
    decreases gs.len() - k,
{
    if k < gs.len() {
        lemma_flatten_take_len(gs, k + 1);
        assert(gs.take(k + 1) == gs.take(k).push(gs[k]));
        gs.take(k).lemma_flatten_push(gs[k]);
    } else {
        assert(gs.take(k) == gs);
    }
}

/// Non-empty clusters: the first `k` of them hold at least `k` characters.
pub proof fn lemma_flatten_take_at_least(gs: Seq<Seq<char>>, k: int)
    requires
        0 <= k <= gs.len(),
        forall|i: int| 0 <= i < gs.len() ==> (#[trigger] gs[i]).len() > 0,
    ensures
        gs.take(k).flatten().len() >= k,
    decreases k,
{
    if k > 0 {
        lemma_flatten_take_at_least(gs, k - 1);
        assert(gs.take(k) == gs.take(k - 1).push(gs[k - 1]));
        gs.take(k - 1).lemma_flatten_push(gs[k - 1]);
    }
}

} // verus!
