//! Token allocation records: per-tier lists of signed assignments, sorted by
//! time slot, with summarization, delta computation against a peer's summary,
//! membership testing and conflict-checked merging.

use vstd::prelude::*;
use vstd::multiset::Multiset;
use crate::datetime::DateTimeUtc;
use crate::tier::Tier;
use crate::assignment::AssignmentModel;
use crate::assignment::TokenAssignment;
use crate::assignment::AllocationError;
use crate::assignment::tier_eq;

verus! {

/// The models of a sequence of assignments.
pub open spec fn models_of(s: Seq<TokenAssignment>) -> Seq<AssignmentModel> {
    s.map_values(|a: TokenAssignment| a@)
}

/// Every assignment of the sequence is well formed.
pub open spec fn all_well_formed(s: Seq<AssignmentModel>) -> bool {
    forall|i: int| 0 <= i < s.len() ==> (#[trigger] s[i]).well_formed()
}

/// Time slots never decrease along the sequence.
pub open spec fn sorted_by_slot(s: Seq<AssignmentModel>) -> bool {
    forall|i: int, j: int|
        0 <= i < j < s.len() ==> !(#[trigger] s[j]).time_slot.spec_instant_lt(
            (#[trigger] s[i]).time_slot,
        )
}

/// Time slots strictly increase along the sequence.
pub open spec fn strictly_sorted_by_slot(s: Seq<AssignmentModel>) -> bool {
    forall|i: int, j: int|
        0 <= i < j < s.len() ==> (#[trigger] s[i]).time_slot.spec_instant_lt(
            (#[trigger] s[j]).time_slot,
        )
}

/// The instants of two sequences are pairwise distinct within each sequence
/// position pair, i.e. no two elements share a time slot instant.
pub open spec fn distinct_slots(s: Seq<AssignmentModel>) -> bool {
    forall|i: int, j: int|
        0 <= i < j < s.len() ==> ((#[trigger] s[i]).time_slot.spec_instant_lt(
            (#[trigger] s[j]).time_slot,
        ) || s[j].time_slot.spec_instant_lt(s[i].time_slot))
}

/// Every assignment belongs to `tier` and sits on one of its valid slots.
pub open spec fn slots_aligned(tier: Tier, s: Seq<AssignmentModel>) -> bool {
    forall|i: int|
        0 <= i < s.len() ==> (#[trigger] s[i]).tier == tier && tier.spec_is_valid_slot(
            s[i].time_slot,
        )
}

/// One tier's sorted list of assignments.
pub struct TierEntry {
    pub tier: Tier,
    pub assignments: Vec<TokenAssignment>,
}

/// One tier's list of slot timestamps in a summary.
pub struct SummaryEntry {
    pub tier: Tier,
    pub timestamps: Vec<i64>,
}

/// A record of issued tokens, categorized by tier and sorted by time slot.
pub struct TokenAllocationRecord {
    entries: Vec<TierEntry>,
}

/// A compact digest of a record: for each tier, the epoch-second timestamps
/// of its assignments, in the record's order.
pub struct TokenAllocationSummary {
    entries: Vec<SummaryEntry>,
}

/// The mapping a sequence of tier entries denotes. A later entry for the
/// same tier wins, matching map insertion order.
pub open spec fn entries_map(s: Seq<TierEntry>) -> Map<Tier, Seq<AssignmentModel>>
    decreases s.len(),
{
    if s.len() == 0 {
        Map::empty()
    } else {
        entries_map(s.drop_last()).insert(s.last().tier, models_of(s.last().assignments@))
    }
}

/// The mapping a sequence of summary entries denotes.
pub open spec fn summary_entries_map(s: Seq<SummaryEntry>) -> Map<Tier, Seq<int>>
    decreases s.len(),
{
    if s.len() == 0 {
        Map::empty()
    } else {
        summary_entries_map(s.drop_last()).insert(
            s.last().tier,
            s.last().timestamps@.map_values(|t: i64| t as int),
        )
    }
}

/// The domain of the denoted map is exactly the set of entry tiers, and with
/// pairwise distinct tiers each entry's list is the map's value at its tier.
pub proof fn lemma_entries_map(s: Seq<TierEntry>)
    ensures
        forall|t: Tier| #[trigger]
            entries_map(s).dom().contains(t) <==> exists|i: int|
                0 <= i < s.len() && (#[trigger] s[i]).tier == t,
        (forall|i: int, j: int| 0 <= i < j < s.len() ==> s[i].tier != s[j].tier) ==> forall|i: int|
            0 <= i < s.len() ==> entries_map(s)[(#[trigger] s[i]).tier] == models_of(
                s[i].assignments@,
            ),
    decreases s.len(),
{
    if s.len() > 0 {
        lemma_entries_map(s.drop_last());
        assert forall|t: Tier| #[trigger]
            entries_map(s).dom().contains(t) implies exists|i: int|
            0 <= i < s.len() && (#[trigger] s[i]).tier == t by {
            if t == s.last().tier {
                assert(s[s.len() - 1].tier == t);
            } else {
                assert(entries_map(s.drop_last()).dom().contains(t));
                let i = choose|i: int|
                    0 <= i < s.drop_last().len() && (#[trigger] s.drop_last()[i]).tier == t;
                assert(s.drop_last()[i] == s[i]);
                assert(s[i].tier == t);
            }
        }
        assert forall|i: int| 0 <= i < s.len() && (#[trigger] s[i]).tier == s[i].tier implies
            entries_map(s).dom().contains(s[i].tier) by {
            if i == s.len() - 1 {
            } else {
                assert(s.drop_last()[i].tier == s[i].tier);
            }
        }
        if forall|i: int, j: int| 0 <= i < j < s.len() ==> s[i].tier != s[j].tier {
            assert forall|i: int, j: int|
                0 <= i < j < s.drop_last().len() implies s.drop_last()[i].tier != s.drop_last()[
                j
            ].tier by {
                assert(s.drop_last()[i] == s[i] && s.drop_last()[j] == s[j]);
            }
            assert forall|i: int| 0 <= i < s.len() implies entries_map(s)[(#[trigger] s[i]).tier]
                == models_of(s[i].assignments@) by {
                if i == s.len() - 1 {
                } else {
                    assert(s[i].tier != s.last().tier);
                    assert(s.drop_last()[i] == s[i]);
                }
            }
        }
    }
}

/// The same facts for summary entries.
pub proof fn lemma_summary_entries_map(s: Seq<SummaryEntry>)
    ensures
        forall|t: Tier| #[trigger]
            summary_entries_map(s).dom().contains(t) <==> exists|i: int|
                0 <= i < s.len() && (#[trigger] s[i]).tier == t,
        (forall|i: int, j: int| 0 <= i < j < s.len() ==> s[i].tier != s[j].tier) ==> forall|i: int|
            0 <= i < s.len() ==> summary_entries_map(s)[(#[trigger] s[i]).tier] == s[i].timestamps@.map_values(
                |t: i64| t as int,
            ),
    decreases s.len(),
{
    if s.len() > 0 {
        lemma_summary_entries_map(s.drop_last());
        assert forall|t: Tier| #[trigger]
            summary_entries_map(s).dom().contains(t) implies exists|i: int|
            0 <= i < s.len() && (#[trigger] s[i]).tier == t by {
            if t == s.last().tier {
                assert(s[s.len() - 1].tier == t);
            } else {
                assert(summary_entries_map(s.drop_last()).dom().contains(t));
                let i = choose|i: int|
                    0 <= i < s.drop_last().len() && (#[trigger] s.drop_last()[i]).tier == t;
                assert(s.drop_last()[i] == s[i]);
                assert(s[i].tier == t);
            }
        }
        assert forall|i: int| 0 <= i < s.len() && (#[trigger] s[i]).tier == s[i].tier implies
            summary_entries_map(s).dom().contains(s[i].tier) by {
            if i == s.len() - 1 {
            } else {
                assert(s.drop_last()[i].tier == s[i].tier);
            }
        }
        if forall|i: int, j: int| 0 <= i < j < s.len() ==> s[i].tier != s[j].tier {
            assert forall|i: int, j: int|
                0 <= i < j < s.drop_last().len() implies s.drop_last()[i].tier != s.drop_last()[
                j
            ].tier by {
                assert(s.drop_last()[i] == s[i] && s.drop_last()[j] == s[j]);
            }
            assert forall|i: int| 0 <= i < s.len() implies summary_entries_map(s)[(
            #[trigger] s[i]).tier] == s[i].timestamps@.map_values(|t: i64| t as int) by {
                if i == s.len() - 1 {
                } else {
                    assert(s[i].tier != s.last().tier);
                    assert(s.drop_last()[i] == s[i]);
                }
            }
        }
    }
}

impl View for TokenAllocationRecord {
    type V = Map<Tier, Seq<AssignmentModel>>;

    closed spec fn view(&self) -> Map<Tier, Seq<AssignmentModel>> {
        entries_map(self.entries@)
    }
}

impl View for TokenAllocationSummary {
    type V = Map<Tier, Seq<int>>;

    closed spec fn view(&self) -> Map<Tier, Seq<int>> {
        summary_entries_map(self.entries@)
    }
}

impl TokenAllocationRecord {
    /// Tiers are pairwise distinct and every tier's list is well formed and
    /// strictly sorted by time slot.
    pub closed spec fn inv(self) -> bool {
        &&& forall|i: int, j: int|
            0 <= i < j < self.entries@.len() ==> (#[trigger] self.entries@[i]).tier != (
            #[trigger] self.entries@[j]).tier
        &&& forall|i: int|
            0 <= i < self.entries@.len() ==> all_well_formed(
                models_of((#[trigger] self.entries@[i]).assignments@),
            ) && strictly_sorted_by_slot(models_of(self.entries@[i].assignments@))
    }

    /// Every list the record's view holds is well formed and strictly sorted.
    pub proof fn lemma_inv_view(self)
        requires
            self.inv(),
        ensures
            forall|t: Tier| #[trigger]
                self@.dom().contains(t) ==> all_well_formed(self@[t]) && strictly_sorted_by_slot(
                    self@[t],
                ),
    {
        lemma_entries_map(self.entries@);
        assert forall|t: Tier| #[trigger] self@.dom().contains(t) implies all_well_formed(self@[t])
            && strictly_sorted_by_slot(self@[t]) by {
            let i = choose|i: int|
                0 <= i < self.entries@.len() && (#[trigger] self.entries@[i]).tier == t;
            assert(self@[t] == models_of(self.entries@[i].assignments@));
        }
    }
}

impl TokenAllocationSummary {
    /// Tiers are pairwise distinct and every timestamp list is sorted.
    pub closed spec fn inv(self) -> bool {
        &&& forall|i: int, j: int|
            0 <= i < j < self.entries@.len() ==> (#[trigger] self.entries@[i]).tier != (
            #[trigger] self.entries@[j]).tier
        &&& forall|i: int|
            0 <= i < self.entries@.len() ==> sorted_ints(
                (#[trigger] self.entries@[i]).timestamps@,
            )
    }

}

/// The integers never decrease along the sequence.
pub open spec fn sorted_ints(s: Seq<i64>) -> bool {
    forall|i: int, j: int| 0 <= i < j < s.len() ==> (#[trigger] s[i]) <= (#[trigger] s[j])
}

/// Sort assignments by time slot: the result is a reordering of the input
/// whose slots never decrease. Slot-distinct input comes out strictly sorted.
pub fn sort_assignments(v: Vec<TokenAssignment>) -> (r: Vec<TokenAssignment>)
    requires
        all_well_formed(models_of(v@)),
    ensures
        all_well_formed(models_of(r@)),
        sorted_by_slot(models_of(r@)),
        models_of(r@).to_multiset() == models_of(v@).to_multiset(),
        distinct_slots(models_of(v@)) ==> strictly_sorted_by_slot(models_of(r@)),
{
    broadcast use vstd::seq_lib::group_to_multiset_ensures;
    broadcast use vstd::multiset::group_multiset_axioms;

    let ghost dist = distinct_slots(models_of(v@));
    let ghost m0 = models_of(v@).to_multiset();
    let mut src = v;
    let mut out: Vec<TokenAssignment> = Vec::new();
    while src.len() > 0
        invariant
            all_well_formed(models_of(src@)),
            all_well_formed(models_of(out@)),
            sorted_by_slot(models_of(out@)),
            models_of(out@).to_multiset().add(models_of(src@).to_multiset()) =~= m0,
            forall|i: int, j: int|
                0 <= i < out@.len() && 0 <= j < src@.len() ==> !(#[trigger] models_of(
                    src@,
                )[j]).time_slot.spec_instant_lt((#[trigger] models_of(out@)[i]).time_slot),
            dist == distinct_slots(models_of(v@)),
            dist ==> distinct_slots(models_of(src@)),
            dist ==> distinct_instants_pair(models_of(out@), models_of(src@)),
            dist ==> strictly_sorted_by_slot(models_of(out@)),
        decreases src@.len(),
    {
        let n = src.len();
        let mut best: usize = 0;
        let mut k: usize = 1;
        while k < n
            invariant
                all_well_formed(models_of(src@)),
                n == src@.len(),
                0 < n,
                k <= n,
                best < k || (best == 0 && k <= 1),
                best < n,
                forall|j: int|
                    0 <= j < k ==> !(#[trigger] models_of(src@)[j]).time_slot.spec_instant_lt(
                        models_of(src@)[best as int].time_slot,
                    ),
            decreases n - k,
        {
            proof {
                assert(models_of(src@)[k as int] == src@[k as int]@ && models_of(src@)[
                    k as int
                ].well_formed());
                assert(models_of(src@)[best as int] == src@[best as int]@ && models_of(src@)[
                    best as int
                ].well_formed());
            }
            if src[k].time_slot.instant_lt(&src[best].time_slot) {
                best = k;
            }
            k = k + 1;
        }
        let ghost pre = src@;
        let ghost pre_out = models_of(out@);
        let picked = src.remove(best);
        out.push(picked);
        proof {
            let b = best as int;
            let pm = models_of(pre);
            assert(picked@ == pm[b]);
            assert forall|j: int| 0 <= j < models_of(src@).len() implies models_of(src@)[j] == (
            if j < b {
                pm[j]
            } else {
                pm[j + 1]
            }) by {
                assert(src@[j] == (if j < b {
                    pre[j]
                } else {
                    pre[j + 1]
                }));
            }
            assert(models_of(src@) =~= pm.remove(b));
            assert(models_of(out@) =~= pre_out.push(picked@));
            vstd::seq_lib::to_multiset_remove(pm, b);
            vstd::seq_lib::to_multiset_build(pre_out, picked@);
            vstd::seq_lib::to_multiset_contains(pm, pm[b]);
            assert(pm.to_multiset().count(pm[b]) > 0) by {
                assert(pm.contains(pm[b]));
            }
            assert(models_of(out@).to_multiset().add(models_of(src@).to_multiset()) =~= m0);
        }
    }
    proof {
        vstd::seq_lib::to_multiset_len(models_of(src@));
        vstd::multiset::lemma_multiset_empty_len(models_of(src@).to_multiset());
        assert(models_of(src@).to_multiset() =~= Multiset::empty());
        assert(models_of(out@).to_multiset() =~= m0);
    }
    out
}

impl TokenAllocationRecord {
    /// Index of this record's entry for `tier`, if any.
    fn find_tier(&self, tier: Tier) -> (r: Option<usize>)
        ensures
            match r {
                Some(i) => i < self.entries@.len() && self.entries@[i as int].tier == tier,
                None => forall|i: int|
                    0 <= i < self.entries@.len() ==> (#[trigger] self.entries@[i]).tier != tier,
            },
    {
        let n = self.entries.len();
        let mut i: usize = 0;
        while i < n
            invariant
                n == self.entries@.len(),
                i <= n,
                forall|k: int| 0 <= k < i ==> (#[trigger] self.entries@[k]).tier != tier,
            decreases n - i,
        {
            if tier_eq(self.entries[i].tier, tier) {
                return Some(i);
            }
            i = i + 1;
        }
        None
    }

    /// Build a record from per-tier assignment lists, sorting each list by
    /// time slot. Tiers must be pairwise distinct and each list must hold
    /// well-formed assignments of its own tier, on valid slots of that
    /// tier, with pairwise distinct slot instants.
    pub fn new(tokens: Vec<TierEntry>) -> (r: TokenAllocationRecord)
        requires
            forall|i: int, j: int|
                0 <= i < j < tokens@.len() ==> (#[trigger] tokens@[i]).tier != (
                #[trigger] tokens@[j]).tier,
            forall|i: int|
                0 <= i < tokens@.len() ==> all_well_formed(
                    models_of((#[trigger] tokens@[i]).assignments@),
                ) && distinct_slots(models_of(tokens@[i].assignments@)) && slots_aligned(
                    tokens@[i].tier,
                    models_of(tokens@[i].assignments@),
                ),
        ensures
            r.inv(),
            forall|t: Tier| #[trigger]
                r@.dom().contains(t) <==> exists|i: int|
                    0 <= i < tokens@.len() && (#[trigger] tokens@[i]).tier == t,
            forall|i: int|
                0 <= i < tokens@.len() ==> r@[(#[trigger] tokens@[i]).tier].to_multiset()
                    == models_of(tokens@[i].assignments@).to_multiset(),
    {
        let ghost orig = tokens@;
        let mut src = tokens;
        let mut done: Vec<TierEntry> = Vec::new();
        let n = src.len();
        let mut i: usize = 0;
        while i < n
            invariant
                n == orig.len(),
                i <= n,
                src@.len() == n - i,
                forall|k: int| 0 <= k < n - i ==> src@[k] == orig[k + i],
                done@.len() == i,
                forall|k: int| 0 <= k < i ==> (#[trigger] done@[k]).tier == orig[k].tier,
                forall|k: int|
                    0 <= k < i ==> models_of((#[trigger] done@[k]).assignments@).to_multiset()
                        == models_of(orig[k].assignments@).to_multiset(),
                forall|k: int|
                    0 <= k < i ==> all_well_formed(models_of((#[trigger] done@[k]).assignments@))
                        && strictly_sorted_by_slot(models_of(done@[k].assignments@)),
                forall|k: int, l: int| 0 <= k < l < orig.len() ==> orig[k].tier != orig[l].tier,
                forall|k: int|
                    0 <= k < orig.len() ==> all_well_formed(
                        models_of((#[trigger] orig[k]).assignments@),
                    ) && distinct_slots(models_of(orig[k].assignments@)),
            decreases n - i,
        {
            let e = src.remove(0);
            proof {
                assert(e == orig[i as int]);
            }
            let sorted = sort_assignments(e.assignments);
            done.push(TierEntry { tier: e.tier, assignments: sorted });
            i = i + 1;
        }
        let r = TokenAllocationRecord { entries: done };
        proof {
            lemma_entries_map(r.entries@);
            assert(forall|k: int|
                0 <= k < orig.len() ==> (#[trigger] orig[k]).tier == r.entries@[k].tier);
            assert forall|k: int, l: int|
                0 <= k < l < r.entries@.len() implies (#[trigger] r.entries@[k]).tier != (
            #[trigger] r.entries@[l]).tier by {
                assert(orig[k].tier != orig[l].tier);
            }
            assert forall|i: int| 0 <= i < orig.len() implies r@[(#[trigger] orig[i]).tier].to_multiset()
                == models_of(orig[i].assignments@).to_multiset() by {
                assert(entries_map(r.entries@)[r.entries@[i].tier] == models_of(
                    r.entries@[i].assignments@,
                ));
            }
            assert forall|t: Tier| #[trigger]
                r@.dom().contains(t) <==> exists|i: int|
                    0 <= i < orig.len() && (#[trigger] orig[i]).tier == t by {
                assert(forall|i: int|
                    0 <= i < orig.len() ==> (#[trigger] orig[i]).tier == r.entries@[i].tier);
                if exists|i: int| 0 <= i < orig.len() && (#[trigger] orig[i]).tier == t {
                    let i = choose|i: int| 0 <= i < orig.len() && (#[trigger] orig[i]).tier == t;
                    assert(r.entries@[i].tier == t);
                }
                if r@.dom().contains(t) {
                    let i = choose|i: int|
                        0 <= i < r.entries@.len() && (#[trigger] r.entries@[i]).tier == t;
                    assert(orig[i].tier == t);
                }
            }
        }
        r
    }

    /// The sorted assignment list of `tier`, if the record holds that tier.
    pub fn get_tier(&self, tier: Tier) -> (r: Option<&Vec<TokenAssignment>>)
        requires
            self.inv(),
        ensures
            match r {
                Some(v) => self@.dom().contains(tier) && models_of(v@) == self@[tier],
                None => !self@.dom().contains(tier),
            },
    {
        proof {
            lemma_entries_map(self.entries@);
        }
        match self.find_tier(tier) {
            Some(i) => {
                proof {
                    assert(entries_map(self.entries@).dom().contains(tier));
                    assert(entries_map(self.entries@)[self.entries@[i as int].tier] == models_of(
                        self.entries@[i as int].assignments@,
                    ));
                }
                Some(&self.entries[i].assignments)
            },
            None => {
                proof {
                    if self@.dom().contains(tier) {
                        let i = choose|i: int|
                            0 <= i < self.entries@.len() && (#[trigger] self.entries@[i]).tier
                                == tier;
                    }
                }
                None
            },
        }
    }

    /// Replace (or add) the assignment list of `tier`. The list must be
    /// well formed, strictly sorted by time slot, and aligned on `tier`'s
    /// valid slots.
    pub fn insert(&mut self, tier: Tier, assignments: Vec<TokenAssignment>)
        requires
            old(self).inv(),
            all_well_formed(models_of(assignments@)),
            strictly_sorted_by_slot(models_of(assignments@)),
            slots_aligned(tier, models_of(assignments@)),
        ensures
            final(self).inv(),
            final(self)@ == old(self)@.insert(tier, models_of(assignments@)),
    {
        let ghost pre = self.entries@;
        let found = self.find_tier(tier);
        match found {
            Some(i) => {
                self.entries.remove(i);
                proof {
                    assert(forall|k: int|
                        0 <= k < self.entries@.len() ==> #[trigger] self.entries@[k] == (if k < i {
                            pre[k]
                        } else {
                            pre[k + 1]
                        }));
                }
            },
            None => {},
        }
        let ghost mid = self.entries@;
        self.entries.push(TierEntry { tier, assignments });
        proof {
            lemma_entries_map(pre);
            lemma_entries_map(mid);
            assert(self.entries@.drop_last() =~= mid);
            assert(entries_map(self.entries@) == entries_map(mid).insert(
                tier,
                models_of(assignments@),
            ));
            assert forall|t: Tier| #[trigger]
                entries_map(mid).dom().contains(t) <==> (entries_map(pre).dom().contains(t) && t
                    != tier) by {
                if entries_map(mid).dom().contains(t) {
                    let k = choose|k: int| 0 <= k < mid.len() && (#[trigger] mid[k]).tier == t;
                    if found is Some {
                        let i = found.unwrap() as int;
                        if k < i {
                            assert(pre[k].tier == t);
                        } else {
                            assert(pre[k + 1].tier == t);
                        }
                        assert(t != tier);
                    } else {
                        assert(pre[k].tier == t);
                    }
                }
                if entries_map(pre).dom().contains(t) && t != tier {
                    let k = choose|k: int| 0 <= k < pre.len() && (#[trigger] pre[k]).tier == t;
                    if found is Some {
                        let i = found.unwrap() as int;
                        if k < i {
                            assert(mid[k].tier == t);
                        } else {
                            assert(k != i);
                            assert(mid[k - 1].tier == t);
                        }
                    } else {
                        assert(mid[k].tier == t);
                    }
                }
            }
            assert forall|t: Tier|
                entries_map(mid).dom().contains(t) implies #[trigger] entries_map(mid)[t]
                == entries_map(pre)[t] by {
                let k = choose|k: int| 0 <= k < mid.len() && (#[trigger] mid[k]).tier == t;
                assert(entries_map(mid)[t] == models_of(mid[k].assignments@));
                if found is Some {
                    let i = found.unwrap() as int;
                    if k < i {
                        assert(pre[k].tier == t && pre[k] == mid[k]);
                    } else {
                        assert(pre[k + 1].tier == t && pre[k + 1] == mid[k]);
                    }
                } else {
                    assert(pre[k].tier == t && pre[k] == mid[k]);
                }
            }
            assert(entries_map(self.entries@) =~= entries_map(pre).insert(
                tier,
                models_of(assignments@),
            ));
        }
    }
}

/// The timestamp projection of a sequence of assignment models.
pub open spec fn timestamps_of(s: Seq<AssignmentModel>) -> Seq<int> {
    s.map_values(|a: AssignmentModel| a.time_slot.spec_timestamp())
}

/// Whether a record holds an assignment structurally equal to `a`.
pub open spec fn spec_assignment_exists(m: Map<Tier, Seq<AssignmentModel>>, a: AssignmentModel) -> bool {
    m.dom().contains(a.tier) && m[a.tier].contains(a)
}

/// Whether `x` occurs in the sorted timestamp list `v`.
fn ts_contains(v: &Vec<i64>, x: i64) -> (r: bool)
    requires
        sorted_ints(v@),
    ensures
        r == v@.contains(x),
{
    let mut lo: usize = 0;
    let mut hi: usize = v.len();
    while lo < hi
        invariant
            sorted_ints(v@),
            lo <= hi <= v@.len(),
            forall|k: int| 0 <= k < lo ==> (#[trigger] v@[k]) < x,
            forall|k: int| hi <= k < v@.len() ==> (#[trigger] v@[k]) > x,
        decreases hi - lo,
    {
        let mid = lo + (hi - lo) / 2;
        if v[mid] < x {
            lo = mid + 1;
        } else if v[mid] > x {
            hi = mid;
        } else {
            assert(v@.contains(x)) by {
                assert(v@[mid as int] == x);
            }
            return true;
        }
    }
    proof {
        if v@.contains(x) {
            let k = choose|k: int| 0 <= k < v@.len() && v@[k] == x;
            assert(v@[k] == x);
        }
    }
    false
}

/// Index of the assignment whose slot is the same instant as `slot`, in a
/// strictly sorted list.
fn find_slot_index(asg: &Vec<TokenAssignment>, slot: &DateTimeUtc) -> (r: Option<usize>)
    requires
        all_well_formed(models_of(asg@)),
        strictly_sorted_by_slot(models_of(asg@)),
        slot.well_formed(),
    ensures
        match r {
            Some(k) => k < asg@.len() && models_of(asg@)[k as int].time_slot.spec_same_instant(
                *slot,
            ),
            None => forall|k: int|
                0 <= k < asg@.len() ==> !(#[trigger] models_of(asg@)[k]).time_slot.spec_same_instant(
                    *slot,
                ),
        },
{
    let mut lo: usize = 0;
    let mut hi: usize = asg.len();
    while lo < hi
        invariant
            all_well_formed(models_of(asg@)),
            strictly_sorted_by_slot(models_of(asg@)),
            slot.well_formed(),
            lo <= hi <= asg@.len(),
            forall|k: int|
                0 <= k < lo ==> (#[trigger] models_of(asg@)[k]).time_slot.spec_instant_lt(*slot),
            forall|k: int|
                hi <= k < asg@.len() ==> slot.spec_instant_lt(
                    (#[trigger] models_of(asg@)[k]).time_slot,
                ),
        decreases hi - lo,
    {
        let mid = lo + (hi - lo) / 2;
        proof {
            assert(models_of(asg@)[mid as int] == asg@[mid as int]@ && models_of(asg@)[
                mid as int
            ].well_formed());
        }
        if asg[mid].time_slot.instant_lt(slot) {
            lo = mid + 1;
        } else if slot.instant_lt(&asg[mid].time_slot) {
            hi = mid;
        } else {
            return Some(mid);
        }
    }
    None
}

impl TokenAllocationRecord {
    /// Project the record to its summary: for every tier, the epoch-second
    /// timestamps of its assignments, in order.
    pub fn summarize(&self) -> (r: TokenAllocationSummary)
        requires
            self.inv(),
        ensures
            r.inv(),
            r@.dom() == self@.dom(),
            forall|t: Tier| #[trigger]
                self@.dom().contains(t) ==> r@[t] == timestamps_of(self@[t]),
    {
        let n = self.entries.len();
        let mut done: Vec<SummaryEntry> = Vec::new();
        let mut i: usize = 0;
        while i < n
            invariant
                self.inv(),
                n == self.entries@.len(),
                i <= n,
                done@.len() == i,
                forall|k: int|
                    0 <= k < i ==> (#[trigger] done@[k]).tier == self.entries@[k].tier,
                forall|k: int|
                    0 <= k < i ==> (#[trigger] done@[k]).timestamps@.map_values(|t: i64| t as int)
                        == timestamps_of(models_of(self.entries@[k].assignments@)),
                forall|k: int| 0 <= k < i ==> sorted_ints((#[trigger] done@[k]).timestamps@),
            decreases n - i,
        {
            let asg = &self.entries[i].assignments;
            let ghost pm = models_of(asg@);
            let m = asg.len();
            let mut ts: Vec<i64> = Vec::new();
            let mut j: usize = 0;
            while j < m
                invariant
                    m == asg@.len(),
                    pm == models_of(asg@),
                    all_well_formed(pm),
                    strictly_sorted_by_slot(pm),
                    j <= m,
                    ts@.len() == j,
                    forall|k: int|
                        0 <= k < j ==> (#[trigger] ts@[k]) == pm[k].time_slot.spec_timestamp(),
                decreases m - j,
            {
                proof {
                    assert(pm[j as int] == asg@[j as int]@ && pm[j as int].well_formed());
                }
                ts.push(asg[j].time_slot.timestamp());
                j = j + 1;
            }
            proof {
                assert forall|a: int, b: int| 0 <= a < b < m implies (#[trigger] ts@[a])
                    <= (#[trigger] ts@[b]) by {
                    assert(pm[a].time_slot.spec_instant_lt(pm[b].time_slot));
                }
                assert(ts@.map_values(|t: i64| t as int) =~= timestamps_of(pm));
            }
            done.push(SummaryEntry { tier: self.entries[i].tier, timestamps: ts });
            i = i + 1;
        }
        let r = TokenAllocationSummary { entries: done };
        proof {
            lemma_entries_map(self.entries@);
            lemma_summary_entries_map(r.entries@);
            assert forall|a: int, b: int|
                0 <= a < b < r.entries@.len() implies (#[trigger] r.entries@[a]).tier != (
            #[trigger] r.entries@[b]).tier by {
                assert(self.entries@[a].tier != self.entries@[b].tier);
            }
            assert forall|t: Tier| #[trigger]
                r@.dom().contains(t) <==> self@.dom().contains(t) by {
                if r@.dom().contains(t) {
                    let k = choose|k: int|
                        0 <= k < r.entries@.len() && (#[trigger] r.entries@[k]).tier == t;
                    assert(self.entries@[k].tier == t);
                }
                if self@.dom().contains(t) {
                    let k = choose|k: int|
                        0 <= k < self.entries@.len() && (#[trigger] self.entries@[k]).tier == t;
                    assert(r.entries@[k].tier == t);
                }
            }
            assert(r@.dom() =~= self@.dom());
            assert forall|t: Tier| #[trigger] self@.dom().contains(t) implies r@[t]
                == timestamps_of(self@[t]) by {
                let k = choose|k: int|
                    0 <= k < self.entries@.len() && (#[trigger] self.entries@[k]).tier == t;
                assert(r.entries@[k].tier == t);
                assert(r@[t] == r.entries@[k].timestamps@.map_values(|x: i64| x as int));
                assert(self@[t] == models_of(self.entries@[k].assignments@));
            }
        }
        r
    }
}

impl TokenAllocationRecord {
    /// What this record holds that the peer behind `summary` lacks: for every
    /// tier the summary asks about and the record holds, the assignments
    /// whose timestamp is missing from the summary's list. Tiers absent from
    /// the summary are not reported.
    pub fn delta(&self, summary: &TokenAllocationSummary) -> (r: TokenAllocationRecord)
        requires
            self.inv(),
            summary.inv(),
        ensures
            r.inv(),
            forall|t: Tier| #[trigger]
                r@.dom().contains(t) <==> (summary@.dom().contains(t) && self@.dom().contains(t)),
            forall|t: Tier| #[trigger]
                r@.dom().contains(t) ==> r@[t] == self@[t].filter(
                    |a: AssignmentModel|
                        !summary@[t].contains(a.time_slot.spec_timestamp()),
                ),
            forall|t: Tier, a: AssignmentModel|
                #![trigger r@[t].contains(a)]
                r@.dom().contains(t) && r@[t].contains(a) ==> self@[t].contains(a)
                    && !summary@[t].contains(a.time_slot.spec_timestamp()),
            forall|t: Tier, i: int|
                #![trigger r@[t], self@[t][i]]
                r@.dom().contains(t) && 0 <= i < self@[t].len() && !summary@[t].contains(
                    self@[t][i].time_slot.spec_timestamp(),
                ) ==> r@[t].contains(self@[t][i]),
    {
        broadcast use vstd::seq_lib::group_filter_ensures;

        let n = summary.entries.len();
        let mut done: Vec<TierEntry> = Vec::new();
        let mut i: usize = 0;
        while i < n
            invariant
                self.inv(),
                summary.inv(),
                n == summary.entries@.len(),
                i <= n,
                forall|k: int|
                    0 <= k < done@.len() ==> exists|j: int|
                        0 <= j < i && (#[trigger] done@[k]).tier == summary.entries@[j].tier,
                forall|k: int, l: int|
                    0 <= k < l < done@.len() ==> (#[trigger] done@[k]).tier != (
                    #[trigger] done@[l]).tier,
                forall|t: Tier|
                    ((exists|j: int| 0 <= j < i && (#[trigger] summary.entries@[j]).tier == t)
                        && self@.dom().contains(t)) ==> exists|k: int|
                        0 <= k < done@.len() && (#[trigger] done@[k]).tier == t,
                forall|k: int|
                    0 <= k < done@.len() ==> self@.dom().contains((#[trigger] done@[k]).tier)
                        && summary@.dom().contains(done@[k].tier) && models_of(
                        done@[k].assignments@,
                    ) == self@[done@[k].tier].filter(
                        |a: AssignmentModel|
                            !summary@[done@[k].tier].contains(a.time_slot.spec_timestamp()),
                    ),
                forall|k: int|
                    0 <= k < done@.len() ==> all_well_formed(
                        models_of((#[trigger] done@[k]).assignments@),
                    ) && strictly_sorted_by_slot(models_of(done@[k].assignments@)),
            decreases n - i,
        {
            let tier = summary.entries[i].tier;
            proof {
                lemma_summary_entries_map(summary.entries@);
                lemma_entries_map(self.entries@);
                assert(summary@.dom().contains(tier));
            }
            let found = self.find_tier(tier);
            match found {
                Some(idx) => {
                    proof {
                        assert(self@.dom().contains(tier));
                        assert(self@[tier] == models_of(self.entries@[idx as int].assignments@));
                    }
                    let asg = &self.entries[idx].assignments;
                    let stamps = &summary.entries[i].timestamps;
                    let ghost pm = models_of(asg@);
                    let ghost sts = summary@[tier];
                    let ghost pred = |a: AssignmentModel|
                        !sts.contains(a.time_slot.spec_timestamp());
                    proof {
                        assert(sts == stamps@.map_values(|x: i64| x as int));
                    }
                    let m = asg.len();
                    let mut missing: Vec<TokenAssignment> = Vec::new();
                    proof {
                        reveal(Seq::filter);
                        assert(pm.take(0).filter(pred) =~= models_of(missing@));
                    }
                    let mut j: usize = 0;
                    while j < m
                        invariant
                            all_well_formed(models_of(missing@)),
                            m == asg@.len(),
                            pm == models_of(asg@),
                            all_well_formed(pm),
                            strictly_sorted_by_slot(pm),
                            sorted_ints(stamps@),
                            sts == stamps@.map_values(|x: i64| x as int),
                            pred == (|a: AssignmentModel|
                                !sts.contains(a.time_slot.spec_timestamp())),
                            j <= m,
                            models_of(missing@) == pm.take(j as int).filter(pred),
                        decreases m - j,
                    {
                        proof {
                            assert(pm[j as int] == asg@[j as int]@ && pm[j as int].well_formed());
                        }
                        let ts_val = asg[j].time_slot.timestamp();
                        let ghost pre_missing = missing@;
                        let keep = !ts_contains(stamps, ts_val);
                        proof {
                            assert(stamps@.contains(ts_val) <==> sts.contains(ts_val as int)) by {
                                if stamps@.contains(ts_val) {
                                    let k = choose|k: int|
                                        0 <= k < stamps@.len() && stamps@[k] == ts_val;
                                    assert(sts[k] == ts_val as int);
                                }
                                if sts.contains(ts_val as int) {
                                    let k = choose|k: int|
                                        0 <= k < sts.len() && sts[k] == ts_val as int;
                                    assert(stamps@[k] == ts_val);
                                }
                            }
                            assert(keep == pred(pm[j as int]));
                        }
                        if keep {
                            missing.push(asg[j].duplicate());
                        }
                        j = j + 1;
                        proof {
                            reveal(Seq::filter);
                            let tj = pm.take(j as int);
                            assert(tj.drop_last() =~= pm.take(j - 1));
                            assert(tj.last() == pm[j - 1]);
                            if keep {
                                assert(models_of(missing@) =~= models_of(pre_missing).push(
                                    pm[j - 1],
                                ));
                                assert(tj.filter(pred) == tj.drop_last().filter(pred).push(
                                    tj.last(),
                                ));
                            } else {
                                assert(models_of(missing@) =~= models_of(pre_missing));
                                assert(tj.filter(pred) == tj.drop_last().filter(pred));
                            }
                            assert(models_of(missing@) == pm.take(j as int).filter(pred));
                        }
                    }
                    proof {
                        assert(pm.take(m as int) =~= pm);
                        lemma_filter_keeps_sorted(pm, pred);
                    }
                    let ghost pre_done = done@;
                    done.push(TierEntry { tier, assignments: missing });
                    proof {
                        assert forall|t: Tier|
                            ((exists|jj: int|
                                0 <= jj < i + 1 && (#[trigger] summary.entries@[jj]).tier == t)
                                && self@.dom().contains(t)) implies exists|k: int|
                            0 <= k < done@.len() && (#[trigger] done@[k]).tier == t by {
                            let jj = choose|jj: int|
                                0 <= jj < i + 1 && (#[trigger] summary.entries@[jj]).tier == t;
                            if jj == i {
                                assert(done@[done@.len() - 1].tier == t);
                            } else {
                                let k = choose|k: int|
                                    0 <= k < pre_done.len() && (#[trigger] pre_done[k]).tier == t;
                                assert(done@[k].tier == t);
                            }
                        }
                    }
                },
                None => {
                    proof {
                        assert(!self@.dom().contains(tier)) by {
                            if self@.dom().contains(tier) {
                                let k = choose|k: int|
                                    0 <= k < self.entries@.len() && (
                                    #[trigger] self.entries@[k]).tier == tier;
                            }
                        }
                    }
                },
            }
            i = i + 1;
        }
        let r = TokenAllocationRecord { entries: done };
        proof {
            lemma_entries_map(r.entries@);
            lemma_summary_entries_map(summary.entries@);
            assert forall|t: Tier| #[trigger]
                r@.dom().contains(t) <==> (summary@.dom().contains(t) && self@.dom().contains(
                    t,
                )) by {
                if r@.dom().contains(t) {
                    let k = choose|k: int|
                        0 <= k < r.entries@.len() && (#[trigger] r.entries@[k]).tier == t;
                }
                if summary@.dom().contains(t) && self@.dom().contains(t) {
                    let j = choose|j: int|
                        0 <= j < summary.entries@.len() && (#[trigger] summary.entries@[j]).tier
                            == t;
                }
            }
            assert forall|t: Tier| #[trigger] r@.dom().contains(t) implies r@[t]
                == self@[t].filter(
                |a: AssignmentModel| !summary@[t].contains(a.time_slot.spec_timestamp()),
            ) by {
                let k = choose|k: int|
                    0 <= k < r.entries@.len() && (#[trigger] r.entries@[k]).tier == t;
                assert(r@[t] == models_of(r.entries@[k].assignments@));
            }
            assert forall|t: Tier, a: AssignmentModel|
                r@.dom().contains(t) && #[trigger] r@[t].contains(a) implies self@[t].contains(a)
                && !summary@[t].contains(a.time_slot.spec_timestamp()) by {
                let pred = |x: AssignmentModel|
                    !summary@[t].contains(x.time_slot.spec_timestamp());
                assert(r@[t] == self@[t].filter(pred));
                assert(self@.dom().contains(t));
                self.lemma_inv_view();
                lemma_filter_keeps_sorted(self@[t], pred);
                let i = choose|i: int| 0 <= i < r@[t].len() && r@[t][i] == a;
                assert(pred(self@[t].filter(pred)[i]));
            }
            assert forall|t: Tier, i: int|
                r@.dom().contains(t) && 0 <= i < (#[trigger] self@[t]).len() && !summary@[t].contains(
                    (#[trigger] self@[t][i]).time_slot.spec_timestamp(),
                ) implies r@[t].contains(self@[t][i]) by {
                let pred = |x: AssignmentModel|
                    !summary@[t].contains(x.time_slot.spec_timestamp());
                assert(r@[t] == self@[t].filter(pred));
                assert(pred(self@[t][i]));
                assert(self@[t].filter(pred).contains(self@[t][i]));
            }
        }
        r
    }

    /// Whether the record holds an assignment structurally equal to `record`:
    /// its tier's list is searched by time slot, and on a hit the stored
    /// assignment must agree in every field.
    pub fn assignment_exists(&self, record: &TokenAssignment) -> (r: bool)
        requires
            self.inv(),
            record.well_formed(),
        ensures
            r == spec_assignment_exists(self@, record@),
    {
        proof {
            lemma_entries_map(self.entries@);
        }
        let found = self.find_tier(record.tier);
        let idx = match found {
            Some(idx) => idx,
            None => {
                proof {
                    if self@.dom().contains(record@.tier) {
                        let k = choose|k: int|
                            0 <= k < self.entries@.len() && (#[trigger] self.entries@[k]).tier
                                == record@.tier;
                    }
                }
                return false;
            },
        };
        let asg = &self.entries[idx].assignments;
        let ghost pm = models_of(asg@);
        proof {
            assert(self@[record@.tier] == pm);
        }
        let hit = match find_slot_index(asg, &record.time_slot) {
            Some(k) => k,
            None => {
                proof {
                    if pm.contains(record@) {
                        let w = choose|w: int| 0 <= w < pm.len() && pm[w] == record@;
                    }
                }
                return false;
            },
        };
        let same = asg[hit].same_assignment(record);
        proof {
            assert(pm[hit as int] == asg@[hit as int]@);
            if same {
                assert(pm.contains(record@)) by {
                    assert(pm[hit as int] == record@);
                }
            } else {
                if pm.contains(record@) {
                    let w = choose|w: int| 0 <= w < pm.len() && pm[w] == record@;
                    assert(pm[w].time_slot.spec_same_instant(record@.time_slot));
                    if w < hit as int {
                        assert(pm[w].time_slot.spec_instant_lt(pm[hit as int].time_slot));
                    } else if w > hit as int {
                        assert(pm[hit as int].time_slot.spec_instant_lt(pm[w].time_slot));
                    }
                }
            }
        }
        same
    }
}

/// A filtered subsequence of a strictly slot-sorted sequence is strictly
/// slot-sorted.
pub proof fn lemma_filter_keeps_sorted(s: Seq<AssignmentModel>, pred: spec_fn(AssignmentModel) -> bool)
    requires
        strictly_sorted_by_slot(s),
    ensures
        strictly_sorted_by_slot(s.filter(pred)),
        forall|x: AssignmentModel| #[trigger]
            s.filter(pred).contains(x) ==> s.contains(x),
    decreases s.len(),
{
    reveal(Seq::filter);
    if s.len() > 0 {
        assert(strictly_sorted_by_slot(s.drop_last())) by {
            assert forall|i: int, j: int|
                0 <= i < j < s.drop_last().len() implies (#[trigger] s.drop_last()[i]).time_slot.spec_instant_lt(
                (#[trigger] s.drop_last()[j]).time_slot,
            ) by {
                assert(s[i].time_slot.spec_instant_lt(s[j].time_slot));
            }
        }
        lemma_filter_keeps_sorted(s.drop_last(), pred);
        let d = s.drop_last();
        let f = d.filter(pred);
        assert forall|x: AssignmentModel| #[trigger] s.filter(pred).contains(x) implies s.contains(
            x,
        ) by {
            if f.contains(x) {
                assert(d.contains(x));
                let w = choose|w: int| 0 <= w < d.len() && d[w] == x;
                assert(s[w] == x);
            } else {
                assert(pred(s.last()) && x == s.last());
                assert(s[s.len() - 1] == x);
            }
        }
        if pred(s.last()) {
            assert(s.filter(pred) == f.push(s.last()));
            assert forall|i: int, j: int|
                0 <= i < j < f.push(s.last()).len() implies (#[trigger] f.push(s.last())[
                i
            ]).time_slot.spec_instant_lt((#[trigger] f.push(s.last())[j]).time_slot) by {
                if j < f.len() {
                    assert(f[i].time_slot.spec_instant_lt(f[j].time_slot));
                } else {
                    assert(f.push(s.last())[j] == s.last());
                    assert(f.contains(f[i]));
                    let w = choose|w: int| 0 <= w < d.len() && d[w] == f[i];
                    assert(s[w] == f[i]);
                    assert(s[w].time_slot.spec_instant_lt(s.last().time_slot));
                }
            }
        }
    }
}

/// The slot key of an assignment: the instant of its time slot as a
/// timestamp-nanosecond pair. Within a tier, one key belongs to one
/// assignment.
pub open spec fn slot_key(a: AssignmentModel) -> (int, int) {
    (a.time_slot.spec_timestamp(), a.time_slot.nanosecond as int)
}

/// Strict order on slot keys.
pub open spec fn key_lt(a: (int, int), b: (int, int)) -> bool {
    a.0 < b.0 || (a.0 == b.0 && a.1 < b.1)
}

/// The finite map from slot keys to assignments that a sequence denotes.
pub open spec fn key_map(s: Seq<AssignmentModel>) -> Map<(int, int), AssignmentModel>
    decreases s.len(),
{
    if s.len() == 0 {
        Map::empty()
    } else {
        key_map(s.drop_last()).insert(slot_key(s.last()), s.last())
    }
}

/// Two lists agree wherever their slot keys coincide.
pub open spec fn lists_compatible(a: Seq<AssignmentModel>, b: Seq<AssignmentModel>) -> bool {
    forall|i: int, j: int|
        0 <= i < a.len() && 0 <= j < b.len() && slot_key(#[trigger] a[i]) == slot_key(
            #[trigger] b[j],
        ) ==> a[i] == b[j]
}

/// The key map's domain is the set of the elements' keys, and with pairwise
/// distinct keys each element is the map's value at its key.
pub proof fn lemma_key_map(s: Seq<AssignmentModel>)
    ensures
        forall|k: (int, int)| #[trigger]
            key_map(s).dom().contains(k) <==> exists|i: int|
                0 <= i < s.len() && slot_key(#[trigger] s[i]) == k,
        (forall|i: int, j: int|
            0 <= i < j < s.len() ==> slot_key(s[i]) != slot_key(s[j])) ==> forall|i: int|
            0 <= i < s.len() ==> key_map(s)[slot_key(#[trigger] s[i])] == s[i],
    decreases s.len(),
{
    if s.len() > 0 {
        lemma_key_map(s.drop_last());
        assert forall|k: (int, int)| #[trigger]
            key_map(s).dom().contains(k) implies exists|i: int|
            0 <= i < s.len() && slot_key(#[trigger] s[i]) == k by {
            if k == slot_key(s.last()) {
                assert(slot_key(s[s.len() - 1]) == k);
            } else {
                assert(key_map(s.drop_last()).dom().contains(k));
                let i = choose|i: int|
                    0 <= i < s.drop_last().len() && slot_key(#[trigger] s.drop_last()[i]) == k;
                assert(s.drop_last()[i] == s[i]);
                assert(slot_key(s[i]) == k);
            }
        }
        assert forall|i: int| 0 <= i < s.len() implies #[trigger] key_map(s).dom().contains(
            slot_key(s[i]),
        ) by {
            if i == s.len() - 1 {
            } else {
                assert(slot_key(s.drop_last()[i]) == slot_key(s[i]));
                assert(key_map(s.drop_last()).dom().contains(slot_key(s[i])));
            }
        }
        if forall|i: int, j: int| 0 <= i < j < s.len() ==> slot_key(s[i]) != slot_key(s[j]) {
            assert forall|i: int, j: int|
                0 <= i < j < s.drop_last().len() implies slot_key(s.drop_last()[i]) != slot_key(
                s.drop_last()[j],
            ) by {
                assert(s.drop_last()[i] == s[i] && s.drop_last()[j] == s[j]);
            }
            assert forall|i: int| 0 <= i < s.len() implies key_map(s)[slot_key(
                #[trigger] s[i],
            )] == s[i] by {
                if i == s.len() - 1 {
                } else {
                    assert(slot_key(s[i]) != slot_key(s[s.len() - 1]));
                    assert(s.drop_last()[i] == s[i]);
                }
            }
        }
    }
}

/// A strictly slot-sorted sequence has pairwise distinct slot keys, ordered
/// along the sequence.
pub proof fn lemma_sorted_keys(s: Seq<AssignmentModel>)
    requires
        strictly_sorted_by_slot(s),
    ensures
        forall|i: int, j: int|
            0 <= i < j < s.len() ==> key_lt(slot_key(#[trigger] s[i]), slot_key(#[trigger] s[j])),
{
    assert forall|i: int, j: int| 0 <= i < j < s.len() implies key_lt(
        slot_key(#[trigger] s[i]),
        slot_key(#[trigger] s[j]),
    ) by {
        assert(s[i].time_slot.spec_instant_lt(s[j].time_slot));
    }
}

/// The state of a sorted-merge pass: `om` is the merged output so far, `i`
/// and `j` count the consumed elements of the two inputs. The output holds
/// the slot-keyed union of the consumed prefixes, every consumed element
/// sits strictly below every unconsumed one, and consumed elements of the
/// two sides agree wherever their keys coincide.
pub open spec fn merge_state(
    xm: Seq<AssignmentModel>,
    ym: Seq<AssignmentModel>,
    om: Seq<AssignmentModel>,
    i: int,
    j: int,
) -> bool {
    &&& 0 <= i <= xm.len()
    &&& 0 <= j <= ym.len()
    &&& all_well_formed(om)
    &&& strictly_sorted_by_slot(om)
    &&& key_map(om) == key_map(xm.take(i)).union_prefer_right(key_map(ym.take(j)))
    &&& forall|a: int, b: int|
        0 <= a < i && j <= b < ym.len() ==> key_lt(
            slot_key(#[trigger] xm[a]),
            slot_key(#[trigger] ym[b]),
        )
    &&& forall|a: int, b: int|
        0 <= b < j && i <= a < xm.len() ==> key_lt(
            slot_key(#[trigger] ym[b]),
            slot_key(#[trigger] xm[a]),
        )
    &&& forall|a: int, b: int|
        0 <= a < i && 0 <= b < j && slot_key(#[trigger] xm[a]) == slot_key(#[trigger] ym[b])
            ==> xm[a] == ym[b]
    &&& forall|e: int, a: int|
        0 <= e < om.len() && i <= a < xm.len() ==> key_lt(
            slot_key(#[trigger] om[e]),
            slot_key(#[trigger] xm[a]),
        )
    &&& forall|e: int, b: int|
        0 <= e < om.len() && j <= b < ym.len() ==> key_lt(
            slot_key(#[trigger] om[e]),
            slot_key(#[trigger] ym[b]),
        )
}

/// Appending a well-formed assignment whose slot key lies strictly above
/// every key of a sorted sequence keeps the sequence well formed and
/// strictly sorted.
proof fn lemma_push_keeps_sorted(s: Seq<AssignmentModel>, a: AssignmentModel)
    requires
        all_well_formed(s),
        strictly_sorted_by_slot(s),
        a.well_formed(),
        forall|e: int| 0 <= e < s.len() ==> key_lt(slot_key(#[trigger] s[e]), slot_key(a)),
    ensures
        all_well_formed(s.push(a)),
        strictly_sorted_by_slot(s.push(a)),
{
    let t = s.push(a);
    assert forall|p: int| 0 <= p < t.len() implies (#[trigger] t[p]).well_formed() by {
        if p < s.len() {
            assert(t[p] == s[p]);
        } else {
            assert(t[p] == a);
        }
    }
    assert forall|p: int, q: int|
        0 <= p < q < t.len() implies (#[trigger] t[p]).time_slot.spec_instant_lt(
        (#[trigger] t[q]).time_slot,
    ) by {
        if q < s.len() {
            assert(t[p] == s[p] && t[q] == s[q]);
            assert(s[p].time_slot.spec_instant_lt(s[q].time_slot));
        } else {
            assert(t[p] == s[p] && t[q] == a);
            assert(key_lt(slot_key(s[p]), slot_key(a)));
        }
    }
}

/// Consuming the left head preserves the merge state when its key sits
/// strictly below the right head's.
#[verifier::spinoff_prover]
proof fn merge_advance_left(
    xm: Seq<AssignmentModel>,
    ym: Seq<AssignmentModel>,
    om: Seq<AssignmentModel>,
    om2: Seq<AssignmentModel>,
    i: int,
    j: int,
)
    requires
        all_well_formed(xm),
        strictly_sorted_by_slot(xm),
        all_well_formed(ym),
        strictly_sorted_by_slot(ym),
        merge_state(xm, ym, om, i, j),
        i < xm.len(),
        j < ym.len() ==> key_lt(slot_key(xm[i]), slot_key(ym[j])),
        om2 =~= om.push(xm[i]),
    ensures
        merge_state(xm, ym, om2, i + 1, j),
{
    lemma_sorted_keys(xm);
    lemma_sorted_keys(ym);
    assert forall|e: int| 0 <= e < om.len() implies key_lt(
        slot_key(#[trigger] om[e]),
        slot_key(xm[i]),
    ) by {}
    lemma_push_keeps_sorted(om, xm[i]);
    let k = slot_key(xm[i]);
    assert(om2.drop_last() =~= om && om2.last() == xm[i]);
    assert(key_map(om2) == key_map(om).insert(k, xm[i]));
    assert(xm.take(i + 1).drop_last() =~= xm.take(i) && xm.take(i + 1).last() == xm[i]);
    assert(key_map(xm.take(i + 1)) == key_map(xm.take(i)).insert(k, xm[i]));
    lemma_key_map(ym.take(j));
    assert(!key_map(ym.take(j)).dom().contains(k)) by {
        if key_map(ym.take(j)).dom().contains(k) {
            let b = choose|b: int|
                0 <= b < ym.take(j).len() && slot_key(#[trigger] ym.take(j)[b]) == k;
            assert(ym.take(j)[b] == ym[b]);
            assert(key_lt(slot_key(ym[b]), slot_key(xm[i])));
        }
    }
    assert(key_map(om2) =~= key_map(xm.take(i + 1)).union_prefer_right(key_map(ym.take(j))));
    assert forall|a: int, b: int|
        0 <= a < i + 1 && j <= b < ym.len() implies key_lt(
        slot_key(#[trigger] xm[a]),
        slot_key(#[trigger] ym[b]),
    ) by {
        if a == i {
            if b > j {
                assert(key_lt(slot_key(ym[j]), slot_key(ym[b])));
            }
        }
    }
    assert forall|a: int, b: int|
        0 <= a < i + 1 && 0 <= b < j && slot_key(#[trigger] xm[a]) == slot_key(
        #[trigger] ym[b],
    ) implies xm[a] == ym[b] by {
        if a == i {
            assert(key_lt(slot_key(ym[b]), slot_key(xm[i])));
        }
    }
}

/// Consuming the right head preserves the merge state when its key sits
/// strictly below the left head's.
#[verifier::spinoff_prover]
proof fn merge_advance_right(
    xm: Seq<AssignmentModel>,
    ym: Seq<AssignmentModel>,
    om: Seq<AssignmentModel>,
    om2: Seq<AssignmentModel>,
    i: int,
    j: int,
)
    requires
        all_well_formed(xm),
        strictly_sorted_by_slot(xm),
        all_well_formed(ym),
        strictly_sorted_by_slot(ym),
        merge_state(xm, ym, om, i, j),
        j < ym.len(),
        i < xm.len() ==> key_lt(slot_key(ym[j]), slot_key(xm[i])),
        om2 =~= om.push(ym[j]),
    ensures
        merge_state(xm, ym, om2, i, j + 1),
{
    lemma_sorted_keys(xm);
    lemma_sorted_keys(ym);
    assert forall|e: int| 0 <= e < om.len() implies key_lt(
        slot_key(#[trigger] om[e]),
        slot_key(ym[j]),
    ) by {}
    lemma_push_keeps_sorted(om, ym[j]);
    let k = slot_key(ym[j]);
    assert(om2.drop_last() =~= om && om2.last() == ym[j]);
    assert(key_map(om2) == key_map(om).insert(k, ym[j]));
    assert(ym.take(j + 1).drop_last() =~= ym.take(j) && ym.take(j + 1).last() == ym[j]);
    assert(key_map(ym.take(j + 1)) == key_map(ym.take(j)).insert(k, ym[j]));
    assert(key_map(om2) =~= key_map(xm.take(i)).union_prefer_right(key_map(ym.take(j + 1))));
    assert forall|a: int, b: int|
        0 <= b < j + 1 && i <= a < xm.len() implies key_lt(
        slot_key(#[trigger] ym[b]),
        slot_key(#[trigger] xm[a]),
    ) by {
        if b == j {
            if a > i {
                assert(key_lt(slot_key(xm[i]), slot_key(xm[a])));
            }
        }
    }
    assert forall|a: int, b: int|
        0 <= a < i && 0 <= b < j + 1 && slot_key(#[trigger] xm[a]) == slot_key(
        #[trigger] ym[b],
    ) implies xm[a] == ym[b] by {
        if b == j {
            assert(key_lt(slot_key(xm[a]), slot_key(ym[j])));
        }
    }
}

/// Consuming two equal heads at once preserves the merge state.
#[verifier::spinoff_prover]
proof fn merge_advance_both(
    xm: Seq<AssignmentModel>,
    ym: Seq<AssignmentModel>,
    om: Seq<AssignmentModel>,
    om2: Seq<AssignmentModel>,
    i: int,
    j: int,
)
    requires
        all_well_formed(xm),
        strictly_sorted_by_slot(xm),
        all_well_formed(ym),
        strictly_sorted_by_slot(ym),
        merge_state(xm, ym, om, i, j),
        i < xm.len(),
        j < ym.len(),
        xm[i] == ym[j],
        om2 =~= om.push(xm[i]),
    ensures
        merge_state(xm, ym, om2, i + 1, j + 1),
{
    lemma_sorted_keys(xm);
    lemma_sorted_keys(ym);
    assert forall|e: int| 0 <= e < om.len() implies key_lt(
        slot_key(#[trigger] om[e]),
        slot_key(xm[i]),
    ) by {}
    lemma_push_keeps_sorted(om, xm[i]);
    let k = slot_key(xm[i]);
    assert(om2.drop_last() =~= om && om2.last() == xm[i]);
    assert(key_map(om2) == key_map(om).insert(k, xm[i]));
    assert(xm.take(i + 1).drop_last() =~= xm.take(i) && xm.take(i + 1).last() == xm[i]);
    assert(key_map(xm.take(i + 1)) == key_map(xm.take(i)).insert(k, xm[i]));
    assert(ym.take(j + 1).drop_last() =~= ym.take(j) && ym.take(j + 1).last() == ym[j]);
    assert(key_map(ym.take(j + 1)) == key_map(ym.take(j)).insert(k, ym[j]));
    assert(key_map(om2) =~= key_map(xm.take(i + 1)).union_prefer_right(key_map(ym.take(j + 1))));
    assert forall|a: int, b: int|
        0 <= a < i + 1 && j + 1 <= b < ym.len() implies key_lt(
        slot_key(#[trigger] xm[a]),
        slot_key(#[trigger] ym[b]),
    ) by {
        if a == i {
            assert(key_lt(slot_key(ym[j]), slot_key(ym[b])));
        }
    }
    assert forall|a: int, b: int|
        0 <= b < j + 1 && i + 1 <= a < xm.len() implies key_lt(
        slot_key(#[trigger] ym[b]),
        slot_key(#[trigger] xm[a]),
    ) by {
        if b == j {
            assert(key_lt(slot_key(xm[i]), slot_key(xm[a])));
        }
    }
    assert forall|a: int, b: int|
        0 <= a < i + 1 && 0 <= b < j + 1 && slot_key(#[trigger] xm[a]) == slot_key(
        #[trigger] ym[b],
    ) implies xm[a] == ym[b] by {
        if a == i && b < j {
            assert(key_lt(slot_key(ym[b]), slot_key(xm[i])));
        }
        if a < i && b == j {
            assert(key_lt(slot_key(xm[a]), slot_key(ym[b])));
        }
    }
}

/// A finished merge pass has visited everything: the two inputs are
/// compatible and the output is their full slot-keyed union.
proof fn merge_complete(xm: Seq<AssignmentModel>, ym: Seq<AssignmentModel>, om: Seq<AssignmentModel>)
    requires
        merge_state(xm, ym, om, xm.len() as int, ym.len() as int),
    ensures
        lists_compatible(xm, ym),
        key_map(om) == key_map(xm).union_prefer_right(key_map(ym)),
{
    assert(xm.take(xm.len() as int) =~= xm);
    assert(ym.take(ym.len() as int) =~= ym);
}

/// Merge two strictly sorted assignment lists into the slot-keyed union of
/// their assignments. Two assignments claiming the same slot must agree in
/// every field; otherwise the slot has already been allocated and the merge
/// fails.
#[verifier::rlimit(30)]
#[verifier::spinoff_prover]
pub fn merge_assignments(x: &Vec<TokenAssignment>, y: &Vec<TokenAssignment>) -> (r: Result<
    Vec<TokenAssignment>,
    AllocationError,
>)
    requires
        all_well_formed(models_of(x@)),
        strictly_sorted_by_slot(models_of(x@)),
        all_well_formed(models_of(y@)),
        strictly_sorted_by_slot(models_of(y@)),
    ensures
        match r {
            Ok(v) => {
                &&& all_well_formed(models_of(v@))
                &&& strictly_sorted_by_slot(models_of(v@))
                &&& lists_compatible(models_of(x@), models_of(y@))
                &&& key_map(models_of(v@)) == key_map(models_of(x@)).union_prefer_right(
                    key_map(models_of(y@)),
                )
            },
            Err(e) => !lists_compatible(models_of(x@), models_of(y@)) && (e
                matches AllocationError::AllocatedSlot { .. }),
        },
{
    let ghost xm = models_of(x@);
    let ghost ym = models_of(y@);
    let n = x.len();
    let m = y.len();
    let mut i: usize = 0;
    let mut j: usize = 0;
    let mut out: Vec<TokenAssignment> = Vec::new();
    proof {
        assert(key_map(models_of(out@)) =~= key_map(xm.take(0)).union_prefer_right(
            key_map(ym.take(0)),
        ));
    }
    while i < n || j < m
        invariant
            n == x@.len(),
            m == y@.len(),
            xm == models_of(x@),
            ym == models_of(y@),
            all_well_formed(xm),
            strictly_sorted_by_slot(xm),
            all_well_formed(ym),
            strictly_sorted_by_slot(ym),
            i <= n,
            j <= m,
            merge_state(xm, ym, models_of(out@), i as int, j as int),
        decreases n - i + m - j,
    {
        let ghost om = models_of(out@);
        if i < n && j < m {
            proof {
                assert(xm[i as int] == x@[i as int]@ && xm[i as int].well_formed());
                assert(ym[j as int] == y@[j as int]@ && ym[j as int].well_formed());
            }
            let xi_first = x[i].time_slot.instant_lt(&y[j].time_slot);
            let yj_first = y[j].time_slot.instant_lt(&x[i].time_slot);
            if xi_first {
                out.push(x[i].duplicate());
                proof {
                    assert(models_of(out@) =~= om.push(xm[i as int]));
                    merge_advance_left(xm, ym, om, models_of(out@), i as int, j as int);
                }
                i = i + 1;
            } else if yj_first {
                out.push(y[j].duplicate());
                proof {
                    assert(models_of(out@) =~= om.push(ym[j as int]));
                    merge_advance_right(xm, ym, om, models_of(out@), i as int, j as int);
                }
                j = j + 1;
            } else {
                let same = x[i].same_assignment(&y[j]);
                if !same {
                    proof {
                        assert(slot_key(xm[i as int]) == slot_key(ym[j as int]));
                        assert(xm[i as int] != ym[j as int]);
                        assert(!lists_compatible(xm, ym));
                    }
                    return Err(AllocationError::AllocatedSlot {
                        tier: x[i].tier,
                        slot: x[i].time_slot,
                    });
                }
                out.push(x[i].duplicate());
                proof {
                    assert(models_of(out@) =~= om.push(xm[i as int]));
                    merge_advance_both(xm, ym, om, models_of(out@), i as int, j as int);
                }
                i = i + 1;
                j = j + 1;
            }
        } else if i < n {
            proof {
                assert(xm[i as int] == x@[i as int]@ && xm[i as int].well_formed());
            }
            out.push(x[i].duplicate());
            proof {
                assert(models_of(out@) =~= om.push(xm[i as int]));
                merge_advance_left(xm, ym, om, models_of(out@), i as int, j as int);
            }
            i = i + 1;
        } else {
            proof {
                assert(ym[j as int] == y@[j as int]@ && ym[j as int].well_formed());
            }
            out.push(y[j].duplicate());
            proof {
                assert(models_of(out@) =~= om.push(ym[j as int]));
                merge_advance_right(xm, ym, om, models_of(out@), i as int, j as int);
            }
            j = j + 1;
        }
    }
    proof {
        merge_complete(xm, ym, models_of(out@));
    }
    Ok(out)
}

/// A fresh copy of an assignment list.
fn copy_assignments(v: &Vec<TokenAssignment>) -> (r: Vec<TokenAssignment>)
    ensures
        models_of(r@) == models_of(v@),
{
    let n = v.len();
    let mut out: Vec<TokenAssignment> = Vec::new();
    let mut i: usize = 0;
    while i < n
        invariant
            n == v@.len(),
            i <= n,
            models_of(out@) =~= models_of(v@).take(i as int),
        decreases n - i,
    {
        let ghost pre = models_of(out@);
        out.push(v[i].duplicate());
        i = i + 1;
        proof {
            assert(models_of(out@) =~= pre.push(v@[i - 1]@));
            assert(models_of(v@).take(i as int) =~= models_of(v@).take(i - 1).push(
                models_of(v@)[i - 1],
            ));
        }
    }
    proof {
        assert(models_of(v@).take(n as int) =~= models_of(v@));
        assert(models_of(out@) =~= models_of(v@));
    }
    out
}

/// The assignment list a record's model holds for `t`, or the empty list.
pub open spec fn list_or_empty(m: Map<Tier, Seq<AssignmentModel>>, t: Tier) -> Seq<
    AssignmentModel,
> {
    if m.dom().contains(t) {
        m[t]
    } else {
        Seq::empty()
    }
}

/// Two record models agree wherever a tier's slot keys coincide.
pub open spec fn records_compatible(
    a: Map<Tier, Seq<AssignmentModel>>,
    b: Map<Tier, Seq<AssignmentModel>>,
) -> bool {
    forall|t: Tier|
        a.dom().contains(t) && b.dom().contains(t) ==> lists_compatible(
            #[trigger] a[t],
            #[trigger] b[t],
        )
}

/// A record misses nothing against its own summary: a delta list whose
/// every element both belongs to the record's tier list and carries a
/// timestamp outside that list's own timestamp projection must be empty.
pub proof fn lemma_delta_of_own_summary(rec: Seq<AssignmentModel>, d: Seq<AssignmentModel>)
    requires
        forall|a: AssignmentModel| #[trigger]
            d.contains(a) ==> rec.contains(a) && !timestamps_of(rec).contains(
                a.time_slot.spec_timestamp(),
            ),
    ensures
        d =~= Seq::<AssignmentModel>::empty(),
{
    if d.len() > 0 {
        assert(d.contains(d[0]));
        let w = choose|w: int| 0 <= w < rec.len() && rec[w] == d[0];
        assert(timestamps_of(rec)[w] == d[0].time_slot.spec_timestamp());
        assert(timestamps_of(rec).contains(d[0].time_slot.spec_timestamp()));
    }
}

/// Every assignment a record holds is reported as existing: membership in
/// the tier's list is exactly what `assignment_exists` decides.
pub proof fn lemma_member_exists(m: Map<Tier, Seq<AssignmentModel>>, a: AssignmentModel)
    requires
        m.dom().contains(a.tier),
        m[a.tier].contains(a),
    ensures
        spec_assignment_exists(m, a),
{
}

/// Two strictly slot-sorted lists holding the same slot-keyed assignments
/// are the same list.
#[verifier::rlimit(60)]
#[verifier::spinoff_prover]
pub proof fn lemma_sorted_unique(s1: Seq<AssignmentModel>, s2: Seq<AssignmentModel>)
    requires
        strictly_sorted_by_slot(s1),
        strictly_sorted_by_slot(s2),
        key_map(s1) == key_map(s2),
    ensures
        s1 == s2,
    decreases s1.len(),
{
    lemma_sorted_keys(s1);
    lemma_sorted_keys(s2);
    lemma_key_map(s1);
    lemma_key_map(s2);
    if s1.len() == 0 {
        if s2.len() > 0 {
            assert(key_map(s2).dom().contains(slot_key(s2[s2.len() - 1])));
            let w = choose|w: int| 0 <= w < s1.len() && slot_key(s1[w]) == slot_key(
                s2[s2.len() - 1],
            );
        }
        assert(s1 =~= s2);
    } else {
        assert(key_map(s1).dom().contains(slot_key(s1[s1.len() - 1])));
        assert(s2.len() > 0) by {
            if s2.len() == 0 {
                let w = choose|w: int|
                    0 <= w < s2.len() && slot_key(s2[w]) == slot_key(s1[s1.len() - 1]);
            }
        }
        let k1 = slot_key(s1.last());
        let k2 = slot_key(s2.last());
        assert(!key_lt(k1, k2) && !key_lt(k2, k1)) by {
            assert(key_map(s1).dom().contains(k1)) by {
                assert(slot_key(s1[s1.len() - 1]) == k1);
            }
            assert(key_map(s2).dom().contains(k2)) by {
                assert(slot_key(s2[s2.len() - 1]) == k2);
            }
            assert(key_map(s2).dom().contains(k1));
            assert(key_map(s1).dom().contains(k2));
            let w2 = choose|w: int| 0 <= w < s2.len() && slot_key(#[trigger] s2[w]) == k1;
            if w2 < s2.len() - 1 {
                assert(key_lt(slot_key(s2[w2]), k2));
            }
            let w1 = choose|w: int| 0 <= w < s1.len() && slot_key(#[trigger] s1[w]) == k2;
            if w1 < s1.len() - 1 {
                assert(key_lt(slot_key(s1[w1]), k1));
            }
        }
        assert(k1 == k2);
        assert(forall|i: int, j: int|
            0 <= i < j < s1.len() ==> slot_key(s1[i]) != slot_key(s1[j]));
        assert(forall|i: int, j: int|
            0 <= i < j < s2.len() ==> slot_key(s2[i]) != slot_key(s2[j]));
        assert(key_map(s1)[k1] == s1.last()) by {
            assert(key_map(s1)[slot_key(s1[s1.len() - 1])] == s1[s1.len() - 1]);
        }
        assert(key_map(s2)[k2] == s2.last()) by {
            assert(key_map(s2)[slot_key(s2[s2.len() - 1])] == s2[s2.len() - 1]);
        }
        assert(s1.last() == s2.last());
        let d1 = s1.drop_last();
        let d2 = s2.drop_last();
        lemma_key_map(d1);
        lemma_key_map(d2);
        assert(!key_map(d1).dom().contains(k1)) by {
            if key_map(d1).dom().contains(k1) {
                let w = choose|w: int| 0 <= w < d1.len() && slot_key(#[trigger] d1[w]) == k1;
                assert(d1[w] == s1[w]);
                assert(key_lt(slot_key(s1[w]), k1));
            }
        }
        assert(!key_map(d2).dom().contains(k2)) by {
            if key_map(d2).dom().contains(k2) {
                let w = choose|w: int| 0 <= w < d2.len() && slot_key(#[trigger] d2[w]) == k2;
                assert(d2[w] == s2[w]);
                assert(key_lt(slot_key(s2[w]), k2));
            }
        }
        assert(key_map(d1) =~= key_map(s1).remove(k1));
        assert(key_map(d2) =~= key_map(s2).remove(k2));
        assert(strictly_sorted_by_slot(d1)) by {
            assert(forall|i: int, j: int|
                0 <= i < j < d1.len() ==> d1[i] == s1[i] && d1[j] == s1[j]);
        }
        assert(strictly_sorted_by_slot(d2)) by {
            assert(forall|i: int, j: int|
                0 <= i < j < d2.len() ==> d2[i] == s2[i] && d2[j] == s2[j]);
        }
        lemma_sorted_unique(d1, d2);
        assert(s1 =~= d1.push(s1.last()));
        assert(s2 =~= d2.push(s2.last()));
    }
}

/// Applying the same delta twice yields the same list as applying it once:
/// a second merge of `d` into an already merged list changes nothing.
pub proof fn lemma_merge_idempotent(
    l: Seq<AssignmentModel>,
    d: Seq<AssignmentModel>,
    once: Seq<AssignmentModel>,
    twice: Seq<AssignmentModel>,
)
    requires
        strictly_sorted_by_slot(once),
        strictly_sorted_by_slot(twice),
        key_map(once) == key_map(l).union_prefer_right(key_map(d)),
        key_map(twice) == key_map(once).union_prefer_right(key_map(d)),
    ensures
        twice == once,
{
    assert(key_map(twice) =~= key_map(once));
    lemma_sorted_unique(twice, once);
}

/// Deltas merge in either order: with the two deltas agreeing wherever
/// their slot keys coincide, merging `d1` then `d2` and merging `d2` then
/// `d1` yield the same list.
pub proof fn lemma_merge_order_invariant(
    l: Seq<AssignmentModel>,
    d1: Seq<AssignmentModel>,
    d2: Seq<AssignmentModel>,
    ab: Seq<AssignmentModel>,
    ba: Seq<AssignmentModel>,
)
    requires
        strictly_sorted_by_slot(d1),
        strictly_sorted_by_slot(d2),
        lists_compatible(d1, d2),
        strictly_sorted_by_slot(ab),
        strictly_sorted_by_slot(ba),
        key_map(ab) == key_map(l).union_prefer_right(key_map(d1)).union_prefer_right(key_map(d2)),
        key_map(ba) == key_map(l).union_prefer_right(key_map(d2)).union_prefer_right(key_map(d1)),
    ensures
        ab == ba,
{
    lemma_key_map(d1);
    lemma_key_map(d2);
    lemma_sorted_keys(d1);
    lemma_sorted_keys(d2);
    assert(forall|i: int, j: int| 0 <= i < j < d1.len() ==> slot_key(d1[i]) != slot_key(d1[j]));
    assert(forall|i: int, j: int| 0 <= i < j < d2.len() ==> slot_key(d2[i]) != slot_key(d2[j]));
    assert forall|k: (int, int)|
        key_map(d1).dom().contains(k) && key_map(d2).dom().contains(k) implies #[trigger] key_map(
        d1,
    )[k] == #[trigger] key_map(d2)[k] by {
        let i = choose|i: int| 0 <= i < d1.len() && slot_key(#[trigger] d1[i]) == k;
        let j = choose|j: int| 0 <= j < d2.len() && slot_key(#[trigger] d2[j]) == k;
        assert(d1[i] == d2[j]);
        assert(key_map(d1)[slot_key(d1[i])] == d1[i]);
        assert(key_map(d2)[slot_key(d2[j])] == d2[j]);
    }
    assert(key_map(ab) =~= key_map(ba));
    lemma_sorted_unique(ab, ba);
}

/// No instant occurs both in `a` and in `b`.
pub open spec fn distinct_instants_pair(a: Seq<AssignmentModel>, b: Seq<AssignmentModel>) -> bool {
    forall|i: int, j: int|
        0 <= i < a.len() && 0 <= j < b.len() ==> ((#[trigger] a[i]).time_slot.spec_instant_lt(
            (#[trigger] b[j]).time_slot,
        ) || b[j].time_slot.spec_instant_lt(a[i].time_slot))
}

} // verus!
