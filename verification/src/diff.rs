//! The diff engine: a line-level diff between the previous baseline text and
//! the new content, computed by the `difference` crate. Only the added spans
//! are inspected downstream; they are the genuinely new log lines.
use vstd::prelude::*;

verus! {

/// One span of a line-level diff.
#[derive(Clone, Debug, PartialEq, Eq)]
pub enum DiffSpan {
    /// Lines present in both texts.
    Same(String),
    /// Lines only in the new text.
    Add(String),
    /// Lines only in the baseline.
    Rem(String),
}

/// Mathematical model of a [`DiffSpan`]: the same three cases over a
/// sequence of characters.
pub enum DiffSpanView {
    Same(Seq<char>),
    Add(Seq<char>),
    Rem(Seq<char>),
}

impl View for DiffSpan {
    type V = DiffSpanView;

    open spec fn view(&self) -> DiffSpanView {
        match self {
            DiffSpan::Same(s) => DiffSpanView::Same(s@),
            DiffSpan::Add(s) => DiffSpanView::Add(s@),
            DiffSpan::Rem(s) => DiffSpanView::Rem(s@),
        }
    }
}

/// The models of a sequence of diff spans.
pub open spec fn spans_view(s: Seq<DiffSpan>) -> Seq<DiffSpanView> {
    s.map_values(|d: DiffSpan| d@)
}

/// The line-level diff of `base` against `upd`, exactly as the `difference`
/// crate computes it with a newline separator. The crate's longest-common-
/// subsequence algorithm makes the result a function of the two texts alone.
pub uninterp spec fn line_diff(base: Seq<char>, upd: Seq<char>) -> Seq<DiffSpanView>;

/// Relies on difference::Changeset::new with the "\n" separator: a
/// deterministic line diff of the two texts, delivered in order of
/// appearance as same, added and removed spans.
#[verifier::external_body]
pub(crate) fn changeset_line_diff(baseline: &str, updated: &str) -> (r: Vec<DiffSpan>)
    ensures
        spans_view(r@) == line_diff(baseline@, updated@),
{
    let changeset = difference::Changeset::new(baseline, updated, "\n");
    let mut out = Vec::new();
    for d in changeset.diffs {
        match d {
            difference::Difference::Same(s) => out.push(DiffSpan::Same(s)),
            difference::Difference::Add(s) => out.push(DiffSpan::Add(s)),
            difference::Difference::Rem(s) => out.push(DiffSpan::Rem(s)),
        }
    }
    out
}

} // verus!
