//! The selection state machine: which entry is highlighted, and how it
//! reacts to query changes, navigation, commit and cancel.

use vstd::prelude::*;

use crate::store::{EntryStore, EntryV, precedes, rescore, is_best, lemma_best_unique, HIDE_BELOW};

verus! {

/// Entry `i` exists and is not hidden.
pub open spec fn visible(s: Seq<EntryV>, i: int) -> bool {
    0 <= i < s.len() && !s[i].hidden
}

/// Entry `i` is the visible entry at position zero: it is visible and
/// comes before every other visible entry in the reported order.
pub open spec fn is_first_visible(s: Seq<EntryV>, i: int) -> bool {
    visible(s, i) && forall|j: int| #[trigger] visible(s, j) && j != i ==> precedes(s, i, j)
}

/// Entry `j` is the visible entry at position one: it is visible, not
/// at position zero, and comes before every other such entry.
pub open spec fn is_second_visible(s: Seq<EntryV>, j: int) -> bool {
    &&& visible(s, j)
    &&& !is_first_visible(s, j)
    &&& forall|k: int| #[trigger] visible(s, k) && k != j && !is_first_visible(s, k)
        ==> precedes(s, j, k)
}

/// The positional navigation rule fires: the selection sits at visible
/// position zero and a visible entry exists at position one.
pub open spec fn nav_applies(s: Seq<EntryV>, sel: Option<usize>) -> bool {
    &&& sel matches Some(i) && is_first_visible(s, i as int)
    &&& exists|j: int| is_second_visible(s, j)
}

/// At most one entry sits at visible position zero.
pub proof fn lemma_first_visible_unique(s: Seq<EntryV>, a: int, b: int)
    requires
        is_first_visible(s, a),
        is_first_visible(s, b),
    ensures
        a == b,
{
    if a != b {
        assert(visible(s, a));
        assert(visible(s, b));
        assert(precedes(s, a, b));
        assert(precedes(s, b, a));
    }
}

/// At most one entry sits at visible position one.
pub proof fn lemma_second_visible_unique(s: Seq<EntryV>, a: int, b: int)
    requires
        is_second_visible(s, a),
        is_second_visible(s, b),
    ensures
        a == b,
{
    if a != b {
        assert(visible(s, a));
        assert(visible(s, b));
        assert(precedes(s, a, b));
        assert(precedes(s, b, a));
    }
}

/// In a listing of the visible entries, the entry at index zero is the
/// one at visible position zero.
proof fn lemma_listing_first(s: Seq<EntryV>, v: Seq<usize>)
    requires
        EntryStore::all_visible(s, v),
        EntryStore::well_ordered(s, v),
        forall|id: int| 0 <= id < s.len() && !s[id].hidden ==> #[trigger] v.contains(id as usize),
        s.len() <= usize::MAX,
        v.len() > 0,
    ensures
        is_first_visible(s, v[0] as int),
{
    assert forall|j: int| #[trigger] visible(s, j) && j != v[0] as int
        implies precedes(s, v[0] as int, j) by {
        assert(v.contains(j as usize));
        let k = choose|k: int| 0 <= k < v.len() && v[k] == j as usize;
        assert(k != 0);
        assert(precedes(s, v[0] as int, v[k] as int));
    }
}

/// In a listing of the visible entries, the entry at index one is the
/// one at visible position one.
proof fn lemma_listing_second(s: Seq<EntryV>, v: Seq<usize>)
    requires
        EntryStore::all_visible(s, v),
        EntryStore::well_ordered(s, v),
        forall|id: int| 0 <= id < s.len() && !s[id].hidden ==> #[trigger] v.contains(id as usize),
        s.len() <= usize::MAX,
        v.len() >= 2,
    ensures
        is_second_visible(s, v[1] as int),
{
    lemma_listing_first(s, v);
    assert(precedes(s, v[0] as int, v[1] as int));
    assert(v[0] != v[1]);
    if is_first_visible(s, v[1] as int) {
        lemma_first_visible_unique(s, v[0] as int, v[1] as int);
    }
    assert forall|k: int| #[trigger] visible(s, k) && k != v[1] as int
        && !is_first_visible(s, k) implies precedes(s, v[1] as int, k) by {
        assert(v.contains(k as usize));
        let m = choose|m: int| 0 <= m < v.len() && v[m] == k as usize;
        assert(m != 1);
        if m == 0 {
            assert(is_first_visible(s, k));
        } else {
            assert(precedes(s, v[1] as int, v[m] as int));
        }
    }
}

/// A listing of the visible entries with fewer than two elements means
/// no entry sits at visible position one.
proof fn lemma_listing_no_second(s: Seq<EntryV>, v: Seq<usize>)
    requires
        EntryStore::all_visible(s, v),
        EntryStore::well_ordered(s, v),
        forall|id: int| 0 <= id < s.len() && !s[id].hidden ==> #[trigger] v.contains(id as usize),
        s.len() <= usize::MAX,
        v.len() < 2,
    ensures
        forall|j: int| !(#[trigger] is_second_visible(s, j)),
{
    assert forall|j: int| !(#[trigger] is_second_visible(s, j)) by {
        if is_second_visible(s, j) {
            assert(visible(s, j));
            assert(v.contains(j as usize));
            let k = choose|k: int| 0 <= k < v.len() && v[k] == j as usize;
            assert(k == 0);
            lemma_listing_first(s, v);
            assert(is_first_visible(s, j));
        }
    }
}

/// One discrete event delivered by the presentation surface.
pub enum UiEvent {
    QueryChanged(String),
    NavigateDown,
    Commit,
    Cancel,
}

/// What the session does in reaction to an event: emit the chosen line
/// and end, end without output, or stay open.
#[derive(PartialEq, Eq, Debug)]
pub enum Reaction {
    Emit(String),
    Quit,
    Stay,
}

/// The state machine that tracks the highlighted entry. It holds a
/// lookup key into the store, never entry data of its own.
pub struct SelectionController {
    pub selection: Option<usize>,
    pub closed: bool,
}

impl SelectionController {
    /// The selection, if present, points at an entry of the store.
    pub open spec fn wf(&self, s: Seq<EntryV>) -> bool {
        self.selection matches Some(i) ==> (i as int) < s.len()
    }

    /// A fresh controller: nothing selected, session open.
    pub fn new() -> (c: Self)
        ensures
            c.selection is None,
            !c.closed,
    {
        SelectionController { selection: None, closed: false }
    }

    /// React to one event.
    ///
    /// A closed session ignores everything. `Cancel` closes the
    /// session without output. `Commit` with a selection emits that
    /// entry's original line and closes; without one it is a no-op.
    /// `QueryChanged` re-scores the store and selects the best match,
    /// or nothing when the store is empty or every entry is hidden.
    /// `NavigateDown` moves the selection from visible position zero
    /// to visible position one when both exist, and otherwise does
    /// nothing.
    pub fn handle_event(&mut self, store: &mut EntryStore, event: UiEvent) -> (r: Reaction)
        requires
            old(self).wf(old(store)@),
            old(store).wf(),
        ensures
            final(self).wf(final(store)@),
            final(store).wf(),
            (old(self).closed ==> *final(self) == *old(self) && final(store)@ == old(store)@
                && r == Reaction::Stay),
            (!old(self).closed && event is Cancel ==> final(store)@ == old(store)@
                && final(self).selection == old(self).selection && final(self).closed
                && r == Reaction::Quit),
            (!old(self).closed && event is Commit ==> final(store)@ == old(store)@
                && final(self).selection == old(self).selection && (match old(self).selection {
                    Some(i) => final(self).closed && (r matches Reaction::Emit(name)
                        && name@ == old(store)@[i as int].name),
                    None => !final(self).closed && r == Reaction::Stay,
                })),
            (event matches UiEvent::QueryChanged(q) ==> !old(self).closed ==> {
                &&& final(store)@ == rescore(old(store)@, q@)
                &&& !final(self).closed
                &&& r == Reaction::Stay
                &&& (old(store)@.len() == 0 ==> final(self).selection is None)
                &&& (forall|b: int| is_best(final(store)@, b) ==> final(self).selection == (
                    if final(store)@[b].hidden {
                        Option::<usize>::None
                    } else {
                        Option::Some(b as usize)
                    }))
                &&& (final(self).selection matches Some(i)
                    ==> !final(store)@[i as int].hidden)
                &&& ((exists|j: int| visible(final(store)@, j))
                    ==> final(self).selection is Some)
            }),
            (!old(self).closed && event is NavigateDown ==> {
                &&& final(store)@ == old(store)@
                &&& !final(self).closed
                &&& r == Reaction::Stay
                &&& (nav_applies(old(store)@, old(self).selection)
                    ==> forall|j: int| #[trigger] is_second_visible(old(store)@, j)
                        ==> final(self).selection == Some(j as usize))
                &&& (!nav_applies(old(store)@, old(self).selection)
                    ==> *final(self) == *old(self))
            }),
    {
        if self.closed {
            return Reaction::Stay;
        }
        match event {
            UiEvent::QueryChanged(q) => {
                let best = store.update_scores(q.as_str());
                match best {
                    None => {
                        self.selection = None;
                    },
                    Some(b) => {
                        if store.hidden(b) {
                            self.selection = None;
                            proof {
                                assert forall|j: int| !(#[trigger] visible(store@, j)) by {
                                    if visible(store@, j) {
                                        if q@.len() == 0 {
                                            assert(!store@[b as int].hidden);
                                        } else {
                                            assert(store@[b as int].rating < HIDE_BELOW as int);
                                            assert(store@[j].rating >= HIDE_BELOW as int);
                                            assert(store@[j].rating <= store@[b as int].rating);
                                        }
                                    }
                                }
                            }
                        } else {
                            self.selection = Some(b);
                        }
                        proof {
                            assert forall|b2: int| is_best(store@, b2)
                                implies self.selection == (if store@[b2].hidden {
                                Option::<usize>::None
                            } else {
                                Option::Some(b2 as usize)
                            }) by {
                                lemma_best_unique(store@, b2, b as int);
                            }
                        }
                    },
                }
                Reaction::Stay
            },
            UiEvent::NavigateDown => {
                let vis = store.visible_entries();
                if vis.len() >= 2 {
                    let first = vis[0];
                    let at_top = match self.selection {
                        Some(i) => i == first,
                        None => false,
                    };
                    if at_top {
                        let second = vis[1];
                        self.selection = Some(second);
                        proof {
                            lemma_listing_first(store@, vis@);
                            lemma_listing_second(store@, vis@);
                            assert(nav_applies(store@, old(self).selection));
                            assert forall|j: int| #[trigger] is_second_visible(store@, j)
                                implies self.selection == Some(j as usize) by {
                                lemma_second_visible_unique(store@, j, vis@[1] as int);
                            }
                        }
                    } else {
                        proof {
                            lemma_listing_first(store@, vis@);
                            match self.selection {
                                Option::Some(i) => {
                                    if is_first_visible(store@, i as int) {
                                        lemma_first_visible_unique(
                                            store@,
                                            i as int,
                                            vis@[0] as int,
                                        );
                                    }
                                },
                                Option::None => {},
                            }
                            assert(!nav_applies(store@, self.selection));
                        }
                    }
                } else {
                    proof {
                        lemma_listing_no_second(store@, vis@);
                        assert(!nav_applies(store@, self.selection));
                    }
                }
                Reaction::Stay
            },
            UiEvent::Commit => {
                match self.selection {
                    Some(i) => {
                        let name = store.name(i).clone();
                        self.closed = true;
                        Reaction::Emit(name)
                    },
                    None => Reaction::Stay,
                }
            },
            UiEvent::Cancel => {
                self.closed = true;
                Reaction::Quit
            },
        }
    }
}

} // verus!
