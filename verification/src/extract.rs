//! Turning a line diff into the ordered event sequence: every added span is
//! scanned, removals before creations within each span, spans in diff order.
use vstd::prelude::*;
use crate::diff::{changeset_line_diff, line_diff, spans_view, DiffSpan, DiffSpanView};
use crate::event::{events_view, lemma_events_view_concat, Event, EventView};
use crate::scan::{scan_span, span_events};

verus! {

/// The events of a sequence of diff spans: each added span contributes its
/// events, in span order; same and removed spans contribute nothing.
pub open spec fn diff_events(spans: Seq<DiffSpanView>) -> Seq<EventView>
    decreases spans.len(),
{
    if spans.len() == 0 {
        Seq::empty()
    } else {
        (match spans[0] {
            DiffSpanView::Add(text) => span_events(text),
            _ => Seq::empty(),
        }) + diff_events(spans.drop_first())
    }
}

/// Extending a diff by one span appends that span's events, if any.
proof fn lemma_diff_events_push(spans: Seq<DiffSpanView>, s: DiffSpanView)
    ensures
        diff_events(spans.push(s)) == diff_events(spans) + (match s {
            DiffSpanView::Add(text) => span_events(text),
            _ => Seq::<EventView>::empty(),
        }),
    decreases spans.len(),
{
    reveal_with_fuel(diff_events, 3);
    let tail = (match s {
        DiffSpanView::Add(text) => span_events(text),
        _ => Seq::<EventView>::empty(),
    });
    if spans.len() == 0 {
        assert(spans.push(s)[0] == s);
        assert(spans.push(s).drop_first() =~= spans);
        assert(diff_events(spans.push(s)) =~= diff_events(spans) + tail);
    } else {
        assert(spans.push(s)[0] == spans[0]);
        assert(spans.push(s).drop_first() =~= spans.drop_first().push(s));
        lemma_diff_events_push(spans.drop_first(), s);
        assert(diff_events(spans.push(s)) =~= diff_events(spans) + tail);
    }
}

/// The ordered events of an already-computed line diff: the exact event
/// sequence that the diff's added spans contain.
pub fn extract_from_spans(spans: &Vec<DiffSpan>) -> (r: Vec<Event>)
    ensures
        events_view(r@) == diff_events(spans_view(spans@)),
{
    let ghost sv = spans_view(spans@);
    let mut out: Vec<Event> = Vec::new();
    proof {
        assert(events_view(out@) =~= Seq::<EventView>::empty());
        assert(sv.subrange(0, 0) =~= Seq::<DiffSpanView>::empty());
    }
    let mut i: usize = 0;
    while i < spans.len()
        invariant
            i <= spans.len(),
            sv == spans_view(spans@),
            sv.len() == spans@.len(),
            events_view(out@) == diff_events(sv.subrange(0, i as int)),
        decreases spans.len() - i,
    {
        let ghost prefix = sv.subrange(0, i as int);
        let ghost out_before = out@;
        match &spans[i] {
            DiffSpan::Add(text) => {
                let mut evs = scan_span(text.as_str());
                let ghost evs_view = evs@;
                out.append(&mut evs);
                proof {
                    lemma_events_view_concat(out_before, evs_view);
                }
            },
            DiffSpan::Same(_) => {
            },
            DiffSpan::Rem(_) => {
            },
        }
        proof {
            assert(sv[i as int] == spans@[i as int]@);
            assert(sv.subrange(0, i + 1) =~= prefix.push(sv[i as int]));
            lemma_diff_events_push(prefix, sv[i as int]);
            assert(events_view(out@) =~= diff_events(sv.subrange(0, i + 1)));
        }
        i = i + 1;
    }
    proof {
        assert(sv.subrange(0, spans@.len() as int) =~= sv);
    }
    out
}

/// The ordered event sequence of the line diff between `baseline` and
/// `updated`. The result is a function of the two texts alone, so running
/// the extraction twice on identical inputs yields identical events.
pub fn extract_events(baseline: &str, updated: &str) -> (r: Vec<Event>)
    ensures
        events_view(r@) == diff_events(line_diff(baseline@, updated@)),
{
    let spans = changeset_line_diff(baseline, updated);
    extract_from_spans(&spans)
}

} // verus!
