//! Lifecycle events extracted from the log, and their effect on the set of
//! present names.
use vstd::prelude::*;

verus! {

/// A typed lifecycle event: an entity entered or left.
#[derive(Clone, Debug, PartialEq, Eq)]
pub enum Event {
    /// An entity with the captured name entered.
    Enter(String),
    /// An entity with the captured name left.
    Exit(String),
}

/// Mathematical model of an [`Event`]: the same two cases over a sequence of
/// characters instead of a `String`.
pub enum EventView {
    Enter(Seq<char>),
    Exit(Seq<char>),
}

impl View for Event {
    type V = EventView;

    open spec fn view(&self) -> EventView {
        match self {
            Event::Enter(n) => EventView::Enter(n@),
            Event::Exit(n) => EventView::Exit(n@),
        }
    }
}

/// The models of a sequence of events.
pub open spec fn events_view(s: Seq<Event>) -> Seq<EventView> {
    s.map_values(|e: Event| e@)
}

/// The models of a sequence of names.
pub open spec fn string_views(v: Seq<String>) -> Seq<Seq<char>> {
    v.map_values(|n: String| n@)
}

/// Taking models commutes with pushing an event.
pub proof fn lemma_events_view_push(s: Seq<Event>, e: Event)
    ensures
        events_view(s.push(e)) == events_view(s).push(e@),
{
    assert(events_view(s.push(e)) =~= events_view(s).push(e@));
}

/// Taking models commutes with concatenating event batches.
pub proof fn lemma_events_view_concat(a: Seq<Event>, b: Seq<Event>)
    ensures
        events_view(a + b) == events_view(a) + events_view(b),
{
    assert(events_view(a + b) =~= events_view(a) + events_view(b));
}

/// Taking models commutes with pushing a name.
pub proof fn lemma_string_views_push(s: Seq<String>, x: String)
    ensures
        string_views(s.push(x)) == string_views(s).push(x@),
{
    assert(string_views(s.push(x)) =~= string_views(s).push(x@));
}

/// Effect of one event on the set of present names: enter inserts the name,
/// exit removes it. Both are idempotent on the set.
pub open spec fn apply_event_set(s: Set<Seq<char>>, e: EventView) -> Set<Seq<char>> {
    match e {
        EventView::Enter(n) => s.insert(n),
        EventView::Exit(n) => s.remove(n),
    }
}

/// Effect of a sequence of events applied in order, first event first.
pub open spec fn apply_events_set(s: Set<Seq<char>>, evs: Seq<EventView>) -> Set<Seq<char>>
    decreases evs.len(),
{
    if evs.len() == 0 {
        s
    } else {
        apply_events_set(apply_event_set(s, evs[0]), evs.drop_first())
    }
}

/// Appending one event to a batch has the same effect as applying the batch
/// and then the event.
pub proof fn lemma_apply_events_push(s: Set<Seq<char>>, evs: Seq<EventView>, e: EventView)
    ensures
        apply_events_set(s, evs.push(e)) == apply_event_set(apply_events_set(s, evs), e),
    decreases evs.len(),
{
    reveal_with_fuel(apply_events_set, 3);
    if evs.len() == 0 {
        assert(evs.push(e).drop_first() =~= Seq::<EventView>::empty());
        assert(evs.push(e)[0] == e);
    } else {
        assert(evs.push(e)[0] == evs[0]);
        assert(evs.push(e).drop_first() =~= evs.drop_first().push(e));
        lemma_apply_events_push(apply_event_set(s, evs[0]), evs.drop_first(), e);
    }
}

} // verus!
