//! Properties that hold across the pipeline: what a batch of events leaves
//! in the registry, and why the exits-first order within a span keeps a
//! re-used name present.
use vstd::prelude::*;
use crate::event::{
    apply_event_set, apply_events_set, lemma_apply_events_push, EventView,
};
use crate::scan::{enter_part, enters_of, exit_part, exits_of, span_events, split_lines};

verus! {

/// The name an event speaks about.
pub open spec fn event_name(e: EventView) -> Seq<char> {
    match e {
        EventView::Enter(m) => m,
        EventView::Exit(m) => m,
    }
}

/// Whether any event in the batch speaks about `n`.
pub open spec fn mentions(evs: Seq<EventView>, n: Seq<char>) -> bool {
    exists|i: int| 0 <= i < evs.len() && event_name(evs[i]) == n
}

/// Whether the net effect of the batch on `n` is positive: the last event
/// that speaks about `n` is an enter.
pub open spec fn present_after(evs: Seq<EventView>, n: Seq<char>) -> bool
    decreases evs.len(),
{
    if evs.len() == 0 {
        false
    } else {
        match evs.last() {
            EventView::Enter(m) => if m == n {
                true
            } else {
                present_after(evs.drop_last(), n)
            },
            EventView::Exit(m) => if m == n {
                false
            } else {
                present_after(evs.drop_last(), n)
            },
        }
    }
}

/// A batch that does not speak about `n` does not end positive for `n`.
proof fn lemma_not_mentioned_not_present(evs: Seq<EventView>, n: Seq<char>)
    requires
        !mentions(evs, n),
    ensures
        !present_after(evs, n),
    decreases evs.len(),
{
    if evs.len() > 0 {
        let prefix = evs.drop_last();
        assert(event_name(evs[evs.len() - 1]) != n);
        assert forall|i: int| 0 <= i < prefix.len() implies event_name(prefix[i]) != n by {
            assert(prefix[i] == evs[i]);
        }
        lemma_not_mentioned_not_present(prefix, n);
    }
}

/// After applying a batch, `n` is present exactly when the batch's net
/// effect on `n` is positive, or when `n` was present before and the batch
/// never speaks about it.
pub proof fn lemma_apply_events_membership(s: Set<Seq<char>>, evs: Seq<EventView>, n: Seq<char>)
    ensures
        apply_events_set(s, evs).contains(n) == if mentions(evs, n) {
            present_after(evs, n)
        } else {
            s.contains(n)
        },
    decreases evs.len(),
{
    if evs.len() > 0 {
        let prefix = evs.drop_last();
        let last = evs.last();
        lemma_apply_events_membership(s, prefix, n);
        lemma_apply_events_push(s, prefix, last);
        assert(prefix.push(last) =~= evs);
        if event_name(last) == n {
            assert(mentions(evs, n)) by {
                assert(event_name(evs[evs.len() - 1]) == n);
            }
        } else {
            assert(mentions(evs, n) == mentions(prefix, n)) by {
                if mentions(evs, n) {
                    let i = choose|i: int|
                        0 <= i < evs.len() && event_name(evs[i]) == n;
                    assert(prefix[i] == evs[i]);
                }
                if mentions(prefix, n) {
                    let i = choose|i: int|
                        0 <= i < prefix.len() && event_name(prefix[i]) == n;
                    assert(evs[i] == prefix[i]);
                }
            }
        }
    }
}

/// Applying a batch to the empty registry leaves exactly the names whose
/// net effect is positive: an enter without a later exit for the same name.
pub proof fn lemma_registry_reflects_events(evs: Seq<EventView>, n: Seq<char>)
    ensures
        apply_events_set(Set::<Seq<char>>::empty(), evs).contains(n) == present_after(evs, n),
{
    lemma_apply_events_membership(Set::<Seq<char>>::empty(), evs, n);
    if !mentions(evs, n) {
        lemma_not_mentioned_not_present(evs, n);
    }
}

/// An exit for a name that is not present leaves the registry unchanged.
pub proof fn lemma_exit_absent_is_noop(s: Set<Seq<char>>, n: Seq<char>)
    requires
        !s.contains(n),
    ensures
        apply_event_set(s, EventView::Exit(n)) == s,
{
    assert(s.remove(n) =~= s);
}

/// No exit event follows an enter event in the batch.
pub open spec fn exits_before_enters(evs: Seq<EventView>) -> bool {
    forall|i: int, j: int|
        0 <= i < j < evs.len() && evs[i] is Enter ==> evs[j] is Enter
}

/// When a batch applies all exits before all enters, a name with an enter
/// event in the batch is present afterwards, whatever exits the batch also
/// holds for it.
pub proof fn lemma_tiebreak_enter_wins(s: Set<Seq<char>>, evs: Seq<EventView>, n: Seq<char>)
    requires
        exits_before_enters(evs),
        evs.contains(EventView::Enter(n)),
    ensures
        apply_events_set(s, evs).contains(n),
    decreases evs.len(),
{
    let i = evs.lemma_contains_to_index(EventView::Enter(n));
    let prefix = evs.drop_last();
    let last = evs.last();
    lemma_apply_events_push(s, prefix, last);
    assert(prefix.push(last) =~= evs);
    match last {
        EventView::Enter(m) => {
            if m != n {
                assert(i < evs.len() - 1);
                assert(prefix[i] == evs[i]);
                assert(prefix.contains(EventView::Enter(n)));
                assert forall|a: int, b: int|
                    0 <= a < b < prefix.len() && prefix[a] is Enter implies prefix[b]
                    is Enter by {
                    assert(prefix[a] == evs[a]);
                    assert(prefix[b] == evs[b]);
                }
                lemma_tiebreak_enter_wins(s, prefix, n);
            }
        },
        EventView::Exit(m) => {
            assert(i < evs.len() - 1);
            assert(evs[i] is Enter && !(evs[evs.len() - 1] is Enter));
            assert(false);
        },
    }
}

/// Every event the exit pass of a span emits is an exit.
proof fn lemma_exits_all_exits(lines: Seq<Seq<char>>)
    ensures
        forall|i: int| 0 <= i < exits_of(lines).len() ==> exits_of(lines)[i] is Exit,
    decreases lines.len(),
{
    if lines.len() > 0 {
        lemma_exits_all_exits(lines.drop_first());
        assert forall|i: int| 0 <= i < exits_of(lines).len() implies exits_of(lines)[i]
            is Exit by {
            if i >= exit_part(lines[0]).len() {
                assert(exits_of(lines)[i] == exits_of(lines.drop_first())[i - exit_part(
                    lines[0],
                ).len()]);
            }
        }
    }
}

/// Every event the enter pass of a span emits is an enter.
proof fn lemma_enters_all_enters(lines: Seq<Seq<char>>)
    ensures
        forall|i: int| 0 <= i < enters_of(lines).len() ==> enters_of(lines)[i] is Enter,
    decreases lines.len(),
{
    if lines.len() > 0 {
        lemma_enters_all_enters(lines.drop_first());
        assert forall|i: int| 0 <= i < enters_of(lines).len() implies enters_of(lines)[i]
            is Enter by {
            if i >= enter_part(lines[0]).len() {
                assert(enters_of(lines)[i] == enters_of(lines.drop_first())[i - enter_part(
                    lines[0],
                ).len()]);
            }
        }
    }
}

/// The events of one added span apply all exits before all enters.
pub proof fn lemma_span_events_shape(text: Seq<char>)
    ensures
        exits_before_enters(span_events(text)),
{
    let l = split_lines(text);
    lemma_exits_all_exits(l);
    lemma_enters_all_enters(l);
    let evs = span_events(text);
    assert forall|i: int, j: int|
        0 <= i < j < evs.len() && evs[i] is Enter implies evs[j] is Enter by {
        if i < exits_of(l).len() {
            assert(evs[i] == exits_of(l)[i]);
        } else {
            assert(evs[j] == enters_of(l)[j - exits_of(l).len()]);
        }
    }
}

/// An enter event anywhere in one processed span leaves its name present
/// after the span's events are applied, even when the same span also exits
/// that name: the exits go first.
pub proof fn lemma_span_enter_present(s: Set<Seq<char>>, text: Seq<char>, n: Seq<char>)
    requires
        span_events(text).contains(EventView::Enter(n)),
    ensures
        apply_events_set(s, span_events(text)).contains(n),
{
    lemma_span_events_shape(text);
    lemma_tiebreak_enter_wins(s, span_events(text), n);
}

} // verus!
