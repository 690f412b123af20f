//! The presence registry: the set of names currently present, mutated only
//! by applying extracted events, and read through point-in-time snapshots.
use vstd::prelude::*;
use crate::event::{apply_event_set, apply_events_set, events_view, string_views, Event, EventView};

verus! {

broadcast use vstd::seq_lib::group_seq_properties;

/// An entity currently present, identified by its display name.
#[derive(Clone, Debug, PartialEq, Eq)]
pub struct Player {
    /// The display name captured from the log.
    pub name: String,
}

/// Maps each present name to its record. A name either is or is not present;
/// keys are unique and insertion order carries no meaning.
pub struct PresenceRegistry {
    players: Vec<Player>,
}

/// A point-in-time copy of the registry, safe to read after the registry
/// has moved on.
pub struct Snapshot {
    /// Number of names present when the snapshot was taken.
    pub count: usize,
    /// The names present when the snapshot was taken.
    pub names: Vec<String>,
}

impl PresenceRegistry {
    /// The present names, in insertion order.
    pub closed spec fn names(self) -> Seq<Seq<char>> {
        self.players@.map_values(|p: Player| p.name@)
    }

    /// The set of present names: the registry's abstract state.
    pub open spec fn present(self) -> Set<Seq<char>> {
        self.names().to_set()
    }

    /// Internal invariant: no name is recorded twice.
    pub closed spec fn wf(self) -> bool {
        self.names().no_duplicates()
    }

    /// Cardinality of the present-name set equals the length of the backing
    /// sequence, because names are unique.
    pub proof fn lemma_count_is_len(self)
        requires
            self.wf(),
        ensures
            self.present().len() == self.names().len(),
            self.present().finite(),
    {
        self.names().unique_seq_to_set();
    }

    /// The empty registry, as at process startup.
    pub fn new() -> (r: PresenceRegistry)
        ensures
            r.wf(),
            r.present() == Set::<Seq<char>>::empty(),
            r.names().len() == 0,
    {
        let r = PresenceRegistry { players: Vec::new() };
        proof {
            assert(r.names() =~= Seq::<Seq<char>>::empty());
            assert(r.present() =~= Set::<Seq<char>>::empty());
        }
        r
    }

    /// Index of the record for `name`, if one is present.
    fn find_index(&self, name: &String) -> (r: Option<usize>)
        ensures
            match r {
                Some(i) => i < self.names().len() && self.names()[i as int] == name@,
                None => !self.names().contains(name@),
            },
    {
        let mut i: usize = 0;
        while i < self.players.len()
            invariant
                i <= self.players.len(),
                forall|j: int| 0 <= j < i ==> self.names()[j] != name@,
            decreases self.players.len() - i,
        {
            if self.players[i].name == *name {
                return Some(i);
            }
            i = i + 1;
        }
        None
    }

    /// Insert or overwrite the record for `name`.
    fn enter(&mut self, name: &String)
        requires
            old(self).wf(),
        ensures
            final(self).wf(),
            final(self).present() == old(self).present().insert(name@),
    {
        match self.find_index(name) {
            Some(i) => {
                self.players.set(i, Player { name: name.clone() });
                proof {
                    assert(self.names() =~= old(self).names());
                    assert(old(self).present().contains(name@));
                    assert(self.present() =~= old(self).present().insert(name@));
                }
            },
            None => {
                self.players.push(Player { name: name.clone() });
                proof {
                    assert(self.names() =~= old(self).names().push(name@));
                    old(self).names().lemma_push_to_set_commute(name@);
                    assert(self.present() =~= old(self).present().insert(name@));
                    assert forall|i: int, j: int|
                        0 <= i < j < self.names().len() implies self.names()[i]
                        != self.names()[j] by {
                        if j == self.names().len() - 1 {
                            assert(old(self).names()[i] == self.names()[i]);
                        }
                    }
                }
            },
        }
    }

    /// Remove the record for `name`; a no-op when the name is not present.
    fn exit(&mut self, name: &String)
        requires
            old(self).wf(),
        ensures
            final(self).wf(),
            final(self).present() == old(self).present().remove(name@),
    {
        match self.find_index(name) {
            Some(i) => {
                self.players.remove(i);
                proof {
                    let before = old(self).names();
                    let after = self.names();
                    before.remove_ensures(i as int);
                    assert(after =~= before.remove(i as int));
                    assert forall|x: Seq<char>| after.contains(x) implies (before.contains(x)
                        && x != name@) by {
                        let k = choose|k: int| 0 <= k < after.len() && after[k] == x;
                        let k0: int = if k < i { k } else { k + 1 };
                        assert(before[k0] == x);
                        if x == name@ {
                            assert(before[k0] == before[i as int]);
                        }
                    }
                    assert forall|x: Seq<char>| before.contains(x) && x != name@
                        implies after.contains(x) by {
                        let k = before.lemma_contains_to_index(x);
                        if k < i {
                            assert(after[k] == x);
                        } else {
                            assert(after[k - 1] == x);
                        }
                    }
                    assert(self.present() =~= old(self).present().remove(name@));
                    assert forall|a: int, b: int|
                        0 <= a < b < after.len() implies after[a] != after[b] by {
                        let a0: int = if a < i { a } else { a + 1 };
                        let b0: int = if b < i { b } else { b + 1 };
                        assert(after[a] == before[a0]);
                        assert(after[b] == before[b0]);
                    }
                }
            },
            None => {
                proof {
                    assert(self.present() =~= old(self).present().remove(name@));
                }
            },
        }
    }

    /// Apply one extracted event: enter inserts or overwrites, exit removes
    /// if present.
    pub fn apply(&mut self, event: &Event)
        requires
            old(self).wf(),
        ensures
            final(self).wf(),
            final(self).present() == apply_event_set(old(self).present(), event@),
    {
        match event {
            Event::Enter(name) => self.enter(name),
            Event::Exit(name) => self.exit(name),
        }
    }

    /// Apply a batch of extracted events in order, first event first.
    pub fn apply_all(&mut self, events: &Vec<Event>)
        requires
            old(self).wf(),
        ensures
            final(self).wf(),
            final(self).present() == apply_events_set(old(self).present(), events_view(events@)),
    {
        let ghost evs = events_view(events@);
        let mut i: usize = 0;
        while i < events.len()
            invariant
                i <= events.len(),
                evs == events_view(events@),
                evs.len() == events@.len(),
                self.wf(),
                self.present() == apply_events_set(old(self).present(), evs.subrange(0, i as int)),
            decreases events.len() - i,
        {
            let ghost prefix = evs.subrange(0, i as int);
            self.apply(&events[i]);
            proof {
                assert(evs[i as int] == events@[i as int]@);
                assert(evs.subrange(0, i + 1) =~= prefix.push(evs[i as int]));
                crate::event::lemma_apply_events_push(
                    old(self).present(),
                    prefix,
                    evs[i as int],
                );
            }
            i = i + 1;
        }
        proof {
            assert(evs.subrange(0, events@.len() as int) =~= evs);
        }
    }

    /// Number of names currently present.
    pub fn count(&self) -> (r: usize)
        requires
            self.wf(),
        ensures
            r == self.present().len(),
    {
        proof {
            self.lemma_count_is_len();
        }
        self.players.len()
    }

    /// Whether `name` is currently present.
    pub fn contains(&self, name: &String) -> (r: bool)
        ensures
            r == self.present().contains(name@),
    {
        match self.find_index(name) {
            Some(i) => {
                proof {
                    assert(self.names().contains(name@));
                }
                true
            },
            None => false,
        }
    }

    /// A consistent point-in-time copy: the count and every present name,
    /// readable without holding on to the registry.
    pub fn snapshot(&self) -> (s: Snapshot)
        requires
            self.wf(),
        ensures
            s.count == self.present().len(),
            s.count == s.names@.len(),
            string_views(s.names@) == self.names(),
            string_views(s.names@).to_set() == self.present(),
            string_views(s.names@).no_duplicates(),
    {
        let mut names: Vec<String> = Vec::new();
        let mut i: usize = 0;
        while i < self.players.len()
            invariant
                i <= self.players.len(),
                names@.len() == i,
                string_views(names@) =~= self.names().subrange(0, i as int),
            decreases self.players.len() - i,
        {
            let p = self.players[i].name.clone();
            let ghost before = names@;
            names.push(p);
            proof {
                assert(p@ == self.names()[i as int]);
                assert forall|j: int| 0 <= j < i + 1 implies string_views(names@)[j]
                    == self.names().subrange(0, i + 1)[j] by {
                    if j < i {
                        assert(names@[j] == before[j]);
                        assert(string_views(before)[j] == self.names().subrange(0, i as int)[j]);
                    } else {
                        assert(names@[j] == p);
                    }
                }
                assert(string_views(names@) =~= self.names().subrange(0, i + 1));
            }
            i = i + 1;
        }
        proof {
            assert(self.names().subrange(0, self.players@.len() as int) =~= self.names());
            self.lemma_count_is_len();
        }
        let count = self.players.len();
        Snapshot { count, names }
    }
}

} // verus!
