//! The profile store: an ordered collection of `Profile` records with
//! unique identifiers, updated by upsert-by-id and delete-by-id.
//!
//! The store itself is pure in-memory state; the surrounding application
//! mirrors it to disk with `codec::render_profiles` / `codec::parse_profiles`
//! and serializes access behind its own lock.

use vstd::prelude::*;
use vstd::seq_lib::*;
use crate::model::{Profile, ProfileView};

verus! {

/// The view of a sequence of profiles.
pub open spec fn views_of(ps: Seq<Profile>) -> Seq<ProfileView> {
    ps.map_values(|p: Profile| p@)
}

/// The predicate that `remove_id` keeps: records whose id differs from `id`.
pub open spec fn keeps(id: Seq<char>) -> spec_fn(ProfileView) -> bool {
    |q: ProfileView| q.id != id
}

/// Index of the first record whose id is `id`, or -1 if there is none.
pub open spec fn first_match(ps: Seq<ProfileView>, id: Seq<char>) -> int
    decreases ps.len(),
{
    if ps.len() == 0 {
        -1
    } else if ps[0].id == id {
        0
    } else {
        let r = first_match(ps.subrange(1, ps.len() as int), id);
        if r < 0 {
            -1
        } else {
            1 + r
        }
    }
}

/// Whether some record in `ps` has id `id`.
pub open spec fn has_id(ps: Seq<ProfileView>, id: Seq<char>) -> bool {
    first_match(ps, id) >= 0
}

/// What upsert leaves behind: replace the first record with the same id in
/// place, or append the new record when no id matches.
pub open spec fn spec_upsert(ps: Seq<ProfileView>, p: ProfileView) -> Seq<ProfileView> {
    if has_id(ps, p.id) {
        ps.update(first_match(ps, p.id), p)
    } else {
        ps.push(p)
    }
}

/// What delete leaves behind: every record whose id differs from `id`,
/// in their original order.
pub open spec fn spec_remove(ps: Seq<ProfileView>, id: Seq<char>) -> Seq<ProfileView> {
    ps.filter(keeps(id))
}

/// `first_match` finds the least index whose record has the wanted id,
/// and -1 exactly when no record has it.
pub proof fn lemma_first_match(ps: Seq<ProfileView>, id: Seq<char>)
    ensures
        has_id(ps, id) ==> {
            let k = first_match(ps, id);
            &&& 0 <= k < ps.len()
            &&& ps[k].id == id
            &&& forall|j: int| 0 <= j < k ==> ps[j].id != id
        },
        !has_id(ps, id) ==> forall|j: int| 0 <= j < ps.len() ==> ps[j].id != id,
    decreases ps.len(),
{
    if ps.len() > 0 && ps[0].id != id {
        let tail = ps.subrange(1, ps.len() as int);
        lemma_first_match(tail, id);
        assert(forall|j: int| 1 <= j < ps.len() ==> ps[j] == tail[j - 1]);
    }
}

/// The in-memory profile collection.
pub struct ProfileStore {
    profiles: Vec<Profile>,
}

impl View for ProfileStore {
    type V = Seq<ProfileView>;

    closed spec fn view(&self) -> Seq<ProfileView> {
        views_of(self.profiles@)
    }
}

impl ProfileStore {
    /// An empty store.
    pub fn new() -> (s: ProfileStore)
        ensures
            s@ == Seq::<ProfileView>::empty(),
    {
        let s = ProfileStore { profiles: Vec::new() };
        proof {
            assert(s@ =~= Seq::<ProfileView>::empty());
        }
        s
    }

    /// A store holding exactly the given records, in the given order.
    pub fn from_profiles(profiles: Vec<Profile>) -> (s: ProfileStore)
        ensures
            s@ == views_of(profiles@),
    {
        ProfileStore { profiles }
    }

    /// Number of records.
    pub fn len(&self) -> (n: usize)
        ensures
            n == self@.len(),
    {
        self.profiles.len()
    }

    /// The records, in order.
    pub fn profiles(&self) -> (r: &Vec<Profile>)
        ensures
            views_of(r@) == self@,
    {
        &self.profiles
    }

    /// Index of the first record whose id equals `id`, if any.
    pub fn position_of(&self, id: &str) -> (r: Option<usize>)
        ensures
            match r {
                Some(i) => i == first_match(self@, id@) && i < self@.len(),
                None => !has_id(self@, id@),
            },
    {
        let ghost vs = self@;
        let mut i: usize = 0;
        while i < self.profiles.len()
            invariant
                0 <= i <= self.profiles.len(),
                vs == self@,
                vs.len() == self.profiles.len(),
                forall|j: int| 0 <= j < i ==> vs[j].id != id@,
            decreases self.profiles.len() - i,
        {
            if crate::text::str_eq(self.profiles[i].id.as_str(), id) {
                proof {
                    lemma_first_match_from_witness(vs, id@, i as int);
                }
                return Some(i);
            }
            i += 1;
        }
        proof {
            lemma_first_match(vs, id@);
            if has_id(vs, id@) {
                assert(vs[first_match(vs, id@)].id == id@);
            }
        }
        None
    }

    /// Insert or replace: if a record with `p`'s id exists, the first such
    /// record is replaced in place; otherwise `p` is appended.
    pub fn upsert(&mut self, p: Profile)
        ensures
            final(self)@ == spec_upsert(old(self)@, p@),
    {
        let ghost vs = self@;
        let pos = {
            let id: &str = p.id.as_str();
            self.position_of(id)
        };
        match pos {
            Some(i) => {
                self.profiles.remove(i);
                self.profiles.insert(i, p);
                proof {
                    assert(self@ =~= spec_upsert(vs, p@));
                }
            },
            None => {
                self.profiles.push(p);
                proof {
                    assert(self@ =~= spec_upsert(vs, p@));
                }
            },
        }
    }

    /// Remove every record whose id equals `id`; absent ids are a no-op.
    pub fn remove_id(&mut self, id: &str)
        ensures
            final(self)@ == spec_remove(old(self)@, id@),
    {
        let ghost orig = self@;
        let ghost pred = keeps(id@);
        let mut i: usize = 0;
        let ghost j: int = 0;
        proof {
            lemma_filter_empty(pred);
            assert(orig.subrange(0, 0) =~= Seq::<ProfileView>::empty());
            assert(orig.subrange(0, orig.len() as int) =~= orig);
        }
        while i < self.profiles.len()
            invariant
                pred == keeps(id@),
                0 <= i <= self.profiles.len(),
                0 <= j <= orig.len(),
                self.profiles.len() - i == orig.len() - j,
                self@ =~= orig.subrange(0, j).filter(pred) + orig.subrange(j, orig.len() as int),
                i == orig.subrange(0, j).filter(pred).len(),
            decreases self.profiles.len() - i,
        {
            let ghost pre = orig.subrange(0, j);
            let ghost before = self@;
            let keep = !crate::text::str_eq(self.profiles[i].id.as_str(), id);
            proof {
                assert(before[i as int] == self.profiles@[i as int]@);
                assert(before[i as int] == orig[j]);
                assert(orig[j].id == self.profiles@[i as int].id@);
                assert(pred(orig[j]) == (orig[j].id != id@));
                assert(keep == pred(orig[j]));
                assert(orig.subrange(0, j + 1) =~= pre + seq![orig[j]]);
                assert(orig.subrange(j, orig.len() as int) =~= seq![orig[j]] + orig.subrange(
                    j + 1,
                    orig.len() as int,
                ));
                lemma_filter_singleton(orig[j], pred);
                Seq::<ProfileView>::filter_distributes_over_add(pre, seq![orig[j]], pred);
            }
            if keep {
                proof {
                    assert(orig.subrange(0, j + 1).filter(pred) =~= pre.filter(pred).push(
                        orig[j],
                    ));
                    assert(self@ =~= orig.subrange(0, j + 1).filter(pred) + orig.subrange(
                        j + 1,
                        orig.len() as int,
                    ));
                }
                i += 1;
            } else {
                self.profiles.remove(i);
                proof {
                    assert(self@ =~= before.remove(i as int));
                    assert(orig.subrange(0, j + 1).filter(pred) =~= pre.filter(pred));
                    assert(before.remove(i as int) =~= pre.filter(pred) + orig.subrange(
                        j + 1,
                        orig.len() as int,
                    ));
                }
            }
            proof {
                j = j + 1;
            }
        }
        proof {
            assert(orig.subrange(0, j) =~= orig);
            assert(orig.subrange(j, orig.len() as int) =~= Seq::<ProfileView>::empty());
            assert(self@ =~= orig.filter(pred));
        }
    }

    /// The first record whose id equals `id`, if any.
    pub fn find(&self, id: &str) -> (r: Option<&Profile>)
        ensures
            match r {
                Some(p) => has_id(self@, id@) && p@ == self@[first_match(self@, id@)],
                None => !has_id(self@, id@),
            },
    {
        match self.position_of(id) {
            Some(i) => Some(&self.profiles[i]),
            None => None,
        }
    }
}

/// Pairwise-distinct identifiers: the well-formedness the write
/// operations maintain (nothing re-checks it on read).
pub open spec fn unique_ids(ps: Seq<ProfileView>) -> bool {
    forall|i: int, j: int| 0 <= i < j < ps.len() ==> ps[i].id != ps[j].id
}

/// Law: upsert keeps identifiers unique.  Replacement reuses an existing
/// id's slot; an append brings an id that no record had.
pub proof fn lemma_upsert_keeps_unique_ids(ps: Seq<ProfileView>, p: ProfileView)
    requires
        unique_ids(ps),
    ensures
        unique_ids(spec_upsert(ps, p)),
{
    lemma_first_match(ps, p.id);
    let out = spec_upsert(ps, p);
    if has_id(ps, p.id) {
        let k = first_match(ps, p.id);
        assert forall|i: int, j: int| 0 <= i < j < out.len() implies out[i].id != out[j].id by {
            if i == k {
                assert(out[j] == ps[j] && ps[j].id != ps[k].id);
            } else if j == k {
                assert(out[i] == ps[i] && ps[i].id != ps[k].id);
            } else {
                assert(out[i] == ps[i] && out[j] == ps[j]);
            }
        }
    } else {
        assert forall|i: int, j: int| 0 <= i < j < out.len() implies out[i].id != out[j].id by {
            if j == ps.len() {
                assert(out[i] == ps[i] && ps[i].id != p.id);
            } else {
                assert(out[i] == ps[i] && out[j] == ps[j]);
            }
        }
    }
}

/// Filtering keeps a subsequence: every kept element stands somewhere in
/// the original, no later than its place in the result.
proof fn lemma_filter_is_subsequence(ps: Seq<ProfileView>, pred: spec_fn(ProfileView) -> bool)
    ensures
        ps.filter(pred).len() <= ps.len(),
        forall|i: int|
            0 <= i < ps.filter(pred).len() ==> exists|j: int|
                i <= j < ps.len() && #[trigger] ps.filter(pred)[i] == #[trigger] ps[j],
    decreases ps.len(),
{
    reveal(Seq::filter);
    if ps.len() > 0 {
        let dl = ps.drop_last();
        lemma_filter_is_subsequence(dl, pred);
        let out = ps.filter(pred);
        assert forall|i: int| 0 <= i < out.len() implies exists|j: int|
            i <= j < ps.len() && #[trigger] out[i] == #[trigger] ps[j] by {
            if i < dl.filter(pred).len() {
                let j = choose|j: int| i <= j < dl.len() && dl.filter(pred)[i] == #[trigger] dl[j];
                assert(out[i] == dl.filter(pred)[i]);
                assert(ps[j] == dl[j]);
            } else {
                assert(pred(ps.last()));
                assert(out[i] == ps[ps.len() - 1]);
            }
        }
    }
}

/// Law: delete keeps identifiers unique (it only removes records).
pub proof fn lemma_remove_keeps_unique_ids(ps: Seq<ProfileView>, id: Seq<char>)
    requires
        unique_ids(ps),
    ensures
        unique_ids(spec_remove(ps, id)),
    decreases ps.len(),
{
    reveal(Seq::filter);
    let pred = keeps(id);
    if ps.len() > 0 {
        let dl = ps.drop_last();
        assert(unique_ids(dl)) by {
            assert(forall|i: int, j: int| 0 <= i < j < dl.len() ==> dl[i] == ps[i] && dl[j] == ps[j]);
        }
        lemma_remove_keeps_unique_ids(dl, id);
        if pred(ps.last()) {
            let kept = dl.filter(pred);
            let out = ps.filter(pred);
            assert(out == kept.push(ps.last()));
            lemma_filter_is_subsequence(dl, pred);
            assert forall|i: int, j: int| 0 <= i < j < out.len() implies out[i].id != out[j].id by {
                if j == out.len() - 1 {
                    let w = choose|w: int| i <= w < dl.len() && kept[i] == #[trigger] dl[w];
                    assert(ps[w] == dl[w]);
                    assert(ps[w].id != ps[ps.len() - 1].id);
                    assert(out[i] == kept[i]);
                } else {
                    assert(out[i] == kept[i] && out[j] == kept[j]);
                }
            }
        }
    }
}

/// Law: upsert is idempotent.  Upserting the same unchanged profile twice
/// leaves exactly the collection that one upsert leaves.
pub proof fn lemma_upsert_idempotent(ps: Seq<ProfileView>, p: ProfileView)
    ensures
        spec_upsert(spec_upsert(ps, p), p) == spec_upsert(ps, p),
{
    let q = spec_upsert(ps, p);
    lemma_first_match(ps, p.id);
    if has_id(ps, p.id) {
        let k = first_match(ps, p.id);
        lemma_first_match_from_witness(q, p.id, k);
        assert(q.update(k, p) =~= q);
    } else {
        let k = ps.len() as int;
        lemma_first_match_from_witness(q, p.id, k);
        assert(q.update(k, p) =~= q);
    }
}

/// Law: upsert by matching id replaces the first matching record in place
/// and does not grow the collection; every other record is untouched.
pub proof fn lemma_upsert_matching(ps: Seq<ProfileView>, p: ProfileView)
    requires
        has_id(ps, p.id),
    ensures
        spec_upsert(ps, p).len() == ps.len(),
        ({
            let k = first_match(ps, p.id);
            &&& 0 <= k < ps.len()
            &&& ps[k].id == p.id
            &&& spec_upsert(ps, p)[k] == p
            &&& forall|j: int| 0 <= j < ps.len() && j != k ==> spec_upsert(ps, p)[j] == ps[j]
        }),
{
    lemma_first_match(ps, p.id);
}

/// Law: upsert of an id that no record holds appends the new record.
pub proof fn lemma_upsert_absent(ps: Seq<ProfileView>, p: ProfileView)
    requires
        !has_id(ps, p.id),
    ensures
        spec_upsert(ps, p) == ps.push(p),
{
}

/// Filtering keeps every element when the predicate holds of all of them.
proof fn lemma_filter_all_true(ps: Seq<ProfileView>, pred: spec_fn(ProfileView) -> bool)
    requires
        forall|j: int| 0 <= j < ps.len() ==> pred(#[trigger] ps[j]),
    ensures
        ps.filter(pred) == ps,
    decreases ps.len(),
{
    reveal(Seq::filter);
    if ps.len() > 0 {
        assert(forall|j: int|
            0 <= j < ps.drop_last().len() ==> pred(#[trigger] ps.drop_last()[j]));
        lemma_filter_all_true(ps.drop_last(), pred);
        assert(pred(ps.last()));
        assert(ps.drop_last().push(ps.last()) =~= ps);
    }
}

/// Law: deleting an id that no record holds leaves the collection unchanged.
pub proof fn lemma_remove_absent(ps: Seq<ProfileView>, id: Seq<char>)
    requires
        !has_id(ps, id),
    ensures
        spec_remove(ps, id) == ps,
{
    lemma_first_match(ps, id);
    lemma_filter_all_true(ps, keeps(id));
}

/// After a delete no record with the deleted id remains, so a second
/// delete of the same id changes nothing.
pub proof fn lemma_remove_idempotent(ps: Seq<ProfileView>, id: Seq<char>)
    ensures
        !has_id(spec_remove(ps, id), id),
        spec_remove(spec_remove(ps, id), id) == spec_remove(ps, id),
{
    let out = spec_remove(ps, id);
    assert forall|j: int| 0 <= j < out.len() implies out[j].id != id by {
        ps.lemma_filter_pred(keeps(id), j);
    }
    lemma_first_match(out, id);
    if has_id(out, id) {
        assert(out[first_match(out, id)].id == id);
    }
    lemma_remove_absent(out, id);
}

/// Filtering the empty sequence yields the empty sequence.
pub proof fn lemma_filter_empty(pred: spec_fn(ProfileView) -> bool)
    ensures
        Seq::<ProfileView>::empty().filter(pred) == Seq::<ProfileView>::empty(),
{
    reveal(Seq::filter);
}

/// Filtering a one-element sequence keeps or drops that element.
pub proof fn lemma_filter_singleton(x: ProfileView, pred: spec_fn(ProfileView) -> bool)
    ensures
        pred(x) ==> seq![x].filter(pred) == seq![x],
        !pred(x) ==> seq![x].filter(pred) == Seq::<ProfileView>::empty(),
{
    reveal(Seq::filter);
    let s1 = seq![x];
    assert(s1.len() == 1);
    assert(s1.last() == x);
    assert(s1.drop_last() =~= Seq::<ProfileView>::empty());
    assert(s1.drop_last().filter(pred) =~= Seq::<ProfileView>::empty());
    if pred(x) {
        assert(s1.filter(pred) =~= seq![x]);
    } else {
        assert(s1.filter(pred) =~= Seq::<ProfileView>::empty());
    }
}

/// A witness at index `k` with no earlier match pins `first_match` to `k`.
pub proof fn lemma_first_match_from_witness(ps: Seq<ProfileView>, id: Seq<char>, k: int)
    requires
        0 <= k < ps.len(),
        ps[k].id == id,
        forall|j: int| 0 <= j < k ==> ps[j].id != id,
    ensures
        first_match(ps, id) == k,
    decreases ps.len(),
{
    if k > 0 {
        lemma_first_match_from_witness(ps.subrange(1, ps.len() as int), id, k - 1);
    }
}

} // verus!
