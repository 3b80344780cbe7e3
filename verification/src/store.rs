//! The candidate table: one entry per input line, re-scored against
//! the live query, with a derived visibility flag and a stable
//! insertion order that serves as the tie-break key.

use vstd::prelude::*;

use crate::matcher::{score, score_spec, RATING_ONE};

verus! {

/// An entry whose rating falls below this bound is hidden. The bound
/// is the encoding of a similarity of one tenth, so on ratings it cuts
/// exactly where one tenth cuts on similarities.
pub const HIDE_BELOW: u64 = 0x3FB999999999999A;

/// The mathematical content of one entry: its original line, its
/// current rating, and whether it is hidden from the visible list.
pub ghost struct EntryV {
    pub name: Seq<char>,
    pub rating: int,
    pub hidden: bool,
}

/// One candidate line together with its current rating and visibility.
pub struct Entry {
    pub name: String,
    pub rating: u64,
    pub hidden: bool,
}

impl View for Entry {
    type V = EntryV;

    open spec fn view(&self) -> EntryV {
        EntryV { name: self.name@, rating: self.rating as int, hidden: self.hidden }
    }
}

/// The rating an entry with the given name takes when the query
/// becomes `q`: the neutral full rating on an empty query, the
/// case-insensitive similarity otherwise.
pub open spec fn new_rating(q: Seq<char>, name: Seq<char>) -> int {
    if q.len() == 0 {
        RATING_ONE as int
    } else {
        score_spec(q, name)
    }
}

/// Whether an entry with the given name is hidden once the query
/// becomes `q`: only on a non-empty query, and exactly when its new
/// rating falls below the bound.
pub open spec fn new_hidden(q: Seq<char>, name: Seq<char>) -> bool {
    q.len() > 0 && new_rating(q, name) < HIDE_BELOW as int
}

/// One entry after the query becomes `q`: the name is kept, rating and
/// visibility are recomputed from it.
pub open spec fn rescored(e: EntryV, q: Seq<char>) -> EntryV {
    EntryV { name: e.name, rating: new_rating(q, e.name), hidden: new_hidden(q, e.name) }
}

/// The whole table after the query becomes `q`.
pub open spec fn rescore(s: Seq<EntryV>, q: Seq<char>) -> Seq<EntryV> {
    s.map_values(|e: EntryV| rescored(e, q))
}

/// Rescoring with the same query twice changes nothing beyond the
/// first time: the outcome depends only on the names, and rescoring
/// keeps every name.
pub proof fn lemma_rescore_idempotent(s: Seq<EntryV>, q: Seq<char>)
    ensures
        rescore(rescore(s, q), q) == rescore(s, q),
{
    assert(rescore(rescore(s, q), q) =~= rescore(s, q));
}

/// Entry `a` comes before entry `b` in the reported order: it is rated
/// strictly higher, or rated equally and inserted earlier.
pub open spec fn precedes(s: Seq<EntryV>, a: int, b: int) -> bool {
    s[a].rating > s[b].rating || (s[a].rating == s[b].rating && a < b)
}

/// Entry `b` is the best match: no entry is rated higher, and every
/// earlier entry is rated strictly lower, so on a tie the first entry
/// in insertion order wins.
pub open spec fn is_best(s: Seq<EntryV>, b: int) -> bool {
    &&& 0 <= b < s.len()
    &&& forall|j: int| 0 <= j < s.len() ==> (#[trigger] s[j]).rating <= s[b].rating
    &&& forall|j: int| 0 <= j < b ==> (#[trigger] s[j]).rating < s[b].rating
}

/// At most one entry is the best match.
pub proof fn lemma_best_unique(s: Seq<EntryV>, a: int, b: int)
    requires
        is_best(s, a),
        is_best(s, b),
    ensures
        a == b,
{
    if a < b {
        assert(s[a].rating < s[b].rating);
        assert(s[b].rating <= s[a].rating);
    }
    if b < a {
        assert(s[b].rating < s[a].rating);
        assert(s[a].rating <= s[b].rating);
    }
}

/// The owner of all entries, in insertion order.
pub struct EntryStore {
    entries: Vec<Entry>,
}

impl View for EntryStore {
    type V = Seq<EntryV>;

    closed spec fn view(&self) -> Seq<EntryV> {
        self.entries@.map_values(|e: Entry| e@)
    }
}

impl EntryStore {
    /// Every rating lies on the scale, between zero and the full
    /// rating.
    pub open spec fn wf(&self) -> bool {
        forall|i: int| 0 <= i < self@.len() ==> 0 <= (#[trigger] self@[i]).rating <= RATING_ONE
    }

    /// Build one entry per input line, in order, with the neutral full
    /// rating and nothing hidden. An empty input yields an empty
    /// store.
    pub fn load(lines: &Vec<String>) -> (s: Self)
        ensures
            s@.len() == lines@.len(),
            forall|i: int| 0 <= i < lines@.len() ==> #[trigger] s@[i] == (EntryV {
                name: lines@[i]@,
                rating: RATING_ONE as int,
                hidden: false,
            }),
            s.wf(),
    {
        let mut entries: Vec<Entry> = Vec::new();
        let mut i: usize = 0;
        while i < lines.len()
            invariant
                i <= lines@.len(),
                entries@.len() == i,
                forall|j: int| 0 <= j < i ==> #[trigger] entries@[j]@ == (EntryV {
                    name: lines@[j]@,
                    rating: RATING_ONE as int,
                    hidden: false,
                }),
            decreases lines@.len() - i,
        {
            let name = lines[i].clone();
            entries.push(Entry { name, rating: RATING_ONE, hidden: false });
            i += 1;
        }
        let s = EntryStore { entries };
        proof {
            assert(forall|j: int| 0 <= j < s@.len() ==> s@[j] == s.entries@[j]@);
        }
        s
    }

    /// How many entries the store holds.
    pub fn len(&self) -> (n: usize)
        ensures
            n == self@.len(),
    {
        self.entries.len()
    }

    /// The original line text of the entry with the given id.
    pub fn name(&self, i: usize) -> (r: &String)
        requires
            i < self@.len(),
        ensures
            r@ == self@[i as int].name,
    {
        &self.entries[i].name
    }

    /// The current rating of the entry with the given id.
    pub fn rating(&self, i: usize) -> (r: u64)
        requires
            i < self@.len(),
        ensures
            r == self@[i as int].rating,
    {
        self.entries[i].rating
    }

    /// Whether the entry with the given id is hidden.
    pub fn hidden(&self, i: usize) -> (h: bool)
        requires
            i < self@.len(),
        ensures
            h == self@[i as int].hidden,
    {
        self.entries[i].hidden
    }

    /// Re-score the whole table against `query` and report the best
    /// match.
    ///
    /// An empty query resets every entry to the full rating with
    /// nothing hidden, whatever was there before; a non-empty query
    /// gives every entry its case-insensitive similarity as rating and
    /// hides exactly those that fall below the bound. The best match
    /// is the first entry of maximal rating in insertion order, so on
    /// an empty query it is the first entry; it is absent exactly when
    /// the store is empty.
    #[verifier::loop_isolation(false)]
    pub fn update_scores(&mut self, query: &str) -> (best: Option<usize>)
        ensures
            final(self)@ == rescore(old(self)@, query@),
            final(self)@.len() == old(self)@.len(),
            forall|i: int| 0 <= i < old(self)@.len() ==> (#[trigger] final(self)@[i]).name
                == old(self)@[i].name,
            final(self).wf(),
            query@.len() == 0 ==> forall|i: int| 0 <= i < final(self)@.len()
                ==> (#[trigger] final(self)@[i]).rating == RATING_ONE
                    && !final(self)@[i].hidden,
            query@.len() > 0 ==> forall|i: int| 0 <= i < final(self)@.len()
                ==> (#[trigger] final(self)@[i]).hidden
                    == (final(self)@[i].rating < HIDE_BELOW as int),
            best is Some <==> old(self)@.len() > 0,
            best matches Some(b) ==> is_best(final(self)@, b as int),
            query@.len() == 0 && old(self)@.len() > 0 ==> best == Some(0usize),
    {
        let n = self.entries.len();
        let q_empty = query.is_empty();
        let mut updated: Vec<Entry> = Vec::new();
        let mut best_id: usize = 0;
        let mut best_rating: u64 = 0;
        let mut i: usize = 0;
        while i < n
            invariant
                i <= n,
                updated@.len() == i,
                forall|j: int| 0 <= j < i ==> #[trigger] updated@[j]@
                    == rescored(self@[j], query@),
                i > 0 ==> best_id < i,
                i > 0 ==> updated@[best_id as int]@.rating == best_rating as int,
                forall|j: int| 0 <= j < i ==> (#[trigger] updated@[j]).rating <= best_rating,
                forall|j: int| 0 <= j < best_id ==> (#[trigger] updated@[j]).rating < best_rating,
                forall|j: int| 0 <= j < i ==> (#[trigger] updated@[j]).rating <= RATING_ONE,
                i == 0 ==> best_id == 0,
                q_empty && i > 0 ==> best_id == 0 && best_rating == RATING_ONE,
            decreases n - i,
        {
            let name = self.entries[i].name.clone();
            let rating: u64;
            let hidden: bool;
            if q_empty {
                rating = RATING_ONE;
                hidden = false;
            } else {
                rating = score(query, name.as_str());
                hidden = rating < HIDE_BELOW;
            }
            proof {
                assert(self@[i as int].name == self.entries@[i as int].name@);
            }
            if i == 0 || rating > best_rating {
                best_id = i;
                best_rating = rating;
            }
            updated.push(Entry { name, rating, hidden });
            i += 1;
        }
        self.entries = updated;
        proof {
            assert forall|j: int| 0 <= j < self@.len() implies #[trigger] self@[j]
                == updated@[j]@ by {}
            assert(self@ =~= rescore(old(self)@, query@));
            if n > 0 {
                assert(is_best(self@, best_id as int));
            }
        }
        if n == 0 {
            None
        } else {
            Some(best_id)
        }
    }

    /// Every id in `v` points at a visible entry of `s`.
    pub open spec fn all_visible(s: Seq<EntryV>, v: Seq<usize>) -> bool {
        forall|k: int| 0 <= k < v.len() ==> (#[trigger] v[k]) < s.len() && !s[v[k] as int].hidden
    }

    /// The ids in `v` come in the reported order: descending by
    /// rating, ties by insertion order.
    pub open spec fn well_ordered(s: Seq<EntryV>, v: Seq<usize>) -> bool {
        forall|k1: int, k2: int| 0 <= k1 < k2 < v.len()
            ==> precedes(s, #[trigger] v[k1] as int, #[trigger] v[k2] as int)
    }

    /// All entries, ordered descending by rating with ties broken by
    /// insertion order; computed afresh from the current ratings.
    #[verifier::loop_isolation(false)]
    pub fn ordering(&self) -> (r: Vec<usize>)
        ensures
            self@.len() <= usize::MAX,
            r@.len() == self@.len(),
            forall|k: int| 0 <= k < r@.len() ==> (#[trigger] r@[k]) < self@.len(),
            Self::well_ordered(self@, r@),
            forall|id: int| 0 <= id < self@.len() ==> #[trigger] r@.contains(id as usize),
    {
        let n = self.entries.len();
        let mut r: Vec<usize> = Vec::new();
        let mut id: usize = 0;
        while id < n
            invariant
                id <= n,
                r@.len() == id,
                forall|k: int| 0 <= k < r@.len() ==> (#[trigger] r@[k]) < id,
                Self::well_ordered(self@, r@),
                forall|v: int| 0 <= v < id ==> #[trigger] r@.contains(v as usize),
            decreases n - id,
        {
            let rating = self.entries[id].rating;
            let mut pos: usize = 0;
            while pos < r.len() && self.entries[r[pos]].rating >= rating
                invariant
                    pos <= r@.len(),
                    forall|k: int| 0 <= k < pos ==> self@[(#[trigger] r@[k]) as int].rating
                        >= rating as int,
                decreases r@.len() - pos,
            {
                pos += 1;
            }
            let ghost old_r = r@;
            r.insert(pos, id);
            proof {
                old_r.insert_ensures(pos as int, id);
                assert forall|k1: int, k2: int| 0 <= k1 < k2 < r@.len()
                    implies precedes(self@, r@[k1] as int, r@[k2] as int) by {
                    if k2 < pos {
                        assert(precedes(self@, old_r[k1] as int, old_r[k2] as int));
                    } else if k1 < pos && k2 == pos {
                        assert(r@[k1] == old_r[k1]);
                        assert(self@[old_r[k1] as int].rating >= rating as int);
                        assert(old_r[k1] < id);
                    } else if k1 == pos && k2 > pos {
                        assert(r@[k2] == old_r[k2 - 1]);
                        assert(self@[old_r[pos as int] as int].rating < rating as int);
                        if k2 - 1 > pos {
                            assert(precedes(self@, old_r[pos as int] as int, old_r[k2 - 1] as int));
                        }
                    } else if k1 < pos && k2 > pos {
                        assert(r@[k1] == old_r[k1]);
                        assert(r@[k2] == old_r[k2 - 1]);
                        assert(precedes(self@, old_r[k1] as int, old_r[k2 - 1] as int));
                    } else {
                        assert(pos < k1 < k2);
                        assert(precedes(self@, old_r[k1 - 1] as int, old_r[k2 - 1] as int));
                    }
                }
                assert forall|v: int| 0 <= v < id + 1 implies #[trigger] r@.contains(v as usize) by {
                    if v < id {
                        assert(old_r.contains(v as usize));
                        let k = choose|k: int| 0 <= k < old_r.len() && old_r[k] == v as usize;
                        if k < pos {
                            assert(r@[k] == v as usize);
                        } else {
                            assert(r@[k + 1] == v as usize);
                        }
                    } else {
                        assert(r@[pos as int] == id);
                    }
                }
            }
            id += 1;
        }
        r
    }

    /// The ordered list of entries that are not hidden: `ordering`
    /// with every hidden entry left out. No hidden entry ever appears
    /// in it.
    #[verifier::loop_isolation(false)]
    pub fn visible_entries(&self) -> (v: Vec<usize>)
        ensures
            self@.len() <= usize::MAX,
            Self::all_visible(self@, v@),
            Self::well_ordered(self@, v@),
            forall|id: int| 0 <= id < self@.len() && !self@[id].hidden
                ==> #[trigger] v@.contains(id as usize),
    {
        let ord = self.ordering();
        let mut v: Vec<usize> = Vec::new();
        let mut k: usize = 0;
        while k < ord.len()
            invariant
                k <= ord@.len(),
                Self::all_visible(self@, v@),
                Self::well_ordered(self@, v@),
                forall|m: int| 0 <= m < k && !self@[(#[trigger] ord@[m]) as int].hidden
                    ==> v@.contains(ord@[m]),
                forall|j: int, m: int| 0 <= j < v@.len() && k <= m < ord@.len()
                    ==> precedes(self@, (#[trigger] v@[j]) as int, (#[trigger] ord@[m]) as int),
            decreases ord@.len() - k,
        {
            let id = ord[k];
            if !self.entries[id].hidden {
                let ghost old_v = v@;
                v.push(id);
                proof {
                    assert forall|m: int| 0 <= m < k + 1
                        && !self@[(#[trigger] ord@[m]) as int].hidden
                        implies v@.contains(ord@[m]) by {
                        if m < k {
                            assert(old_v.contains(ord@[m]));
                            let j = choose|j: int| 0 <= j < old_v.len() && old_v[j] == ord@[m];
                            assert(v@[j] == ord@[m]);
                        } else {
                            assert(v@[v@.len() - 1] == ord@[m]);
                        }
                    }
                }
            }
            k += 1;
        }
        proof {
            assert forall|id: int| 0 <= id < self@.len() && !self@[id].hidden
                implies v@.contains(id as usize) by {
                assert(ord@.contains(id as usize));
                let m = choose|m: int| 0 <= m < ord@.len() && ord@[m] == id as usize;
                assert(!self@[(ord@[m]) as int].hidden);
            }
        }
        v
    }
}

} // verus!

