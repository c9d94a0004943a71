//! The salvage yard: components recovered from decommissioned agents.
use vstd::prelude::*;
use crate::agent::{Agent, AgentId};
use crate::binary64::{is_nan, less_than, lt, order_key};
use crate::ternary::Ternary;

verus! {

/// A recovered component from a decommissioned agent.
///
/// `quality` is a binary64 number held as its bit pattern (see
/// `crate::binary64`).
#[derive(Debug, Clone, Copy)]
pub struct SalvagedPart {
    pub source_id: AgentId,
    pub index: usize,
    pub value: Ternary,
    pub quality: u64,
}

/// Recovers usable components from decommissioned agents.
#[derive(Debug)]
pub struct SalvageYard {
    parts: Vec<SalvagedPart>,
    total_recovered: usize,
}

/// A salvage yard as plain values.
pub struct YardView {
    /// Parts in the yard, in the order they were recovered.
    pub parts: Seq<SalvagedPart>,
    /// Number of parts ever recovered.
    pub total_recovered: nat,
}

impl View for SalvageYard {
    type V = YardView;

    closed spec fn view(&self) -> YardView {
        YardView { parts: self.parts@, total_recovered: self.total_recovered as nat }
    }
}

/// The parts recovered from an agent with this id and state, given the
/// quality of each component.
pub open spec fn recovered_parts(id: AgentId, state: Seq<Ternary>, qualities: Seq<u64>) -> Seq<
    SalvagedPart,
> {
    Seq::new(
        state.len(),
        |i: int|
            SalvagedPart { source_id: id, index: i as usize, value: state[i], quality: qualities[i] },
    )
}

/// The parts among the first `n` that hold `value`, in order.
pub open spec fn matching_prefix(parts: Seq<SalvagedPart>, value: Ternary, n: int) -> Seq<
    SalvagedPart,
>
    decreases n,
{
    if n <= 0 {
        Seq::empty()
    } else if parts[n - 1].value == value {
        matching_prefix(parts, value, n - 1).push(parts[n - 1])
    } else {
        matching_prefix(parts, value, n - 1)
    }
}

/// The parts that hold `value`, in order.
pub open spec fn matching(parts: Seq<SalvagedPart>, value: Ternary) -> Seq<SalvagedPart> {
    matching_prefix(parts, value, parts.len() as int)
}

/// Where `x` goes in a list ordered by decreasing quality: before the first
/// part of lower quality, after all others.
pub open spec fn insert_pos(r: Seq<SalvagedPart>, x: SalvagedPart) -> int
    decreases r.len(),
{
    if r.len() == 0 {
        0
    } else if lt(r[0].quality, x.quality) {
        0
    } else {
        1 + insert_pos(r.drop_first(), x)
    }
}

/// The parts stably sorted by decreasing quality (parts of equal quality
/// keep their order).
pub open spec fn sorted_by_quality(s: Seq<SalvagedPart>) -> Seq<SalvagedPart>
    decreases s.len(),
{
    if s.len() == 0 {
        Seq::empty()
    } else {
        let r = sorted_by_quality(s.drop_last());
        r.insert(insert_pos(r, s.last()), s.last())
    }
}

/// Index of the best part holding `value` among the first `n`: the running
/// best is replaced by each later match unless that match has lower
/// quality, so among parts of equal quality the last one wins.
pub open spec fn best_prefix(parts: Seq<SalvagedPart>, value: Ternary, n: int) -> Option<int>
    decreases n,
{
    if n <= 0 {
        None
    } else {
        let prev = best_prefix(parts, value, n - 1);
        if parts[n - 1].value != value {
            prev
        } else {
            match prev {
                None => Some(n - 1),
                Some(b) => if lt(parts[n - 1].quality, parts[b].quality) {
                    Some(b)
                } else {
                    Some(n - 1)
                },
            }
        }
    }
}

/// Index of the best part holding `value`, if any part holds it.
pub open spec fn best_index(parts: Seq<SalvagedPart>, value: Ternary) -> Option<int> {
    best_prefix(parts, value, parts.len() as int)
}

proof fn lemma_insert_pos_bounds(r: Seq<SalvagedPart>, x: SalvagedPart)
    ensures
        0 <= insert_pos(r, x) <= r.len(),
        forall|k: int| 0 <= k < insert_pos(r, x) ==> !lt(#[trigger] r[k].quality, x.quality),
        insert_pos(r, x) < r.len() ==> lt(r[insert_pos(r, x)].quality, x.quality),
    decreases r.len(),
{
    if r.len() > 0 && !lt(r[0].quality, x.quality) {
        lemma_insert_pos_bounds(r.drop_first(), x);
        assert forall|k: int| 0 <= k < insert_pos(r, x) implies !lt(
            #[trigger] r[k].quality,
            x.quality,
        ) by {
            if k > 0 {
                assert(r[k] == r.drop_first()[k - 1]);
            }
        }
    }
}

proof fn lemma_insert_pos_unique(r: Seq<SalvagedPart>, x: SalvagedPart, j: int)
    requires
        0 <= j <= r.len(),
        forall|k: int| 0 <= k < j ==> !lt(#[trigger] r[k].quality, x.quality),
        j < r.len() ==> lt(r[j].quality, x.quality),
    ensures
        insert_pos(r, x) == j,
    decreases r.len(),
{
    if r.len() > 0 && j > 0 {
        assert(!lt(r[0].quality, x.quality));
        assert forall|k: int| 0 <= k < j - 1 implies !lt(
            #[trigger] r.drop_first()[k].quality,
            x.quality,
        ) by {
            assert(r.drop_first()[k] == r[k + 1]);
        }
        lemma_insert_pos_unique(r.drop_first(), x, j - 1);
    }
}

impl Default for SalvageYard {
    fn default() -> (y: Self)
        ensures
            y@.parts == Seq::<SalvagedPart>::empty(),
            y@.total_recovered == 0,
    {
        Self::new()
    }
}

impl SalvageYard {
    /// An empty salvage yard.
    pub fn new() -> (y: Self)
        ensures
            y@.parts == Seq::<SalvagedPart>::empty(),
            y@.total_recovered == 0,
    {
        SalvageYard { parts: Vec::new(), total_recovered: 0 }
    }

    /// Decommission an agent and salvage its components: one part per state
    /// value, in order, with the quality given for that position. The parts
    /// are added to the yard and returned.
    pub fn salvage(&mut self, agent: &Agent, qualities: &[u64]) -> (recovered: Vec<SalvagedPart>)
        requires
            qualities@.len() == agent.state@.len(),
            old(self)@.total_recovered + agent.state@.len() <= usize::MAX,
        ensures
            recovered@ == recovered_parts(agent.id, agent.state@, qualities@),
            final(self)@.parts == old(self)@.parts + recovered@,
            final(self)@.total_recovered == old(self)@.total_recovered + agent.state@.len(),
    {
        let mut recovered: Vec<SalvagedPart> = Vec::new();
        let len = agent.state.len();
        let mut i: usize = 0;
        while i < len
            invariant
                len == agent.state@.len() == qualities@.len(),
                i <= len,
                recovered@ == recovered_parts(agent.id, agent.state@, qualities@).subrange(
                    0,
                    i as int,
                ),
            decreases len - i,
        {
            let part = SalvagedPart {
                source_id: agent.id,
                index: i,
                value: agent.state[i],
                quality: qualities[i],
            };
            recovered.push(part);
            i = i + 1;
            assert(recovered@ =~= recovered_parts(agent.id, agent.state@, qualities@).subrange(
                0,
                i as int,
            ));
        }
        assert(recovered@ =~= recovered_parts(agent.id, agent.state@, qualities@));
        self.total_recovered = self.total_recovered + recovered.len();
        let mut i: usize = 0;
        let ghost start = self.parts@;
        while i < recovered.len()
            invariant
                i <= recovered@.len(),
                self.parts@ == start + recovered@.subrange(0, i as int),
                self.total_recovered == old(self)@.total_recovered + recovered@.len(),
                recovered@.len() == agent.state@.len(),
            decreases recovered@.len() - i,
        {
            self.parts.push(recovered[i]);
            i = i + 1;
            assert(self.parts@ =~= start + recovered@.subrange(0, i as int));
        }
        assert(recovered@.subrange(0, i as int) =~= recovered@);
        recovered
    }

    /// The parts holding `value`, ordered by decreasing quality; parts of
    /// equal quality keep their order in the yard.
    pub fn find_parts(&self, value: Ternary) -> (found: Vec<&SalvagedPart>)
        ensures
            found@.map_values(|p: &SalvagedPart| *p) == sorted_by_quality(
                matching(self@.parts, value),
            ),
    {
        let mut found: Vec<&SalvagedPart> = Vec::new();
        let n = self.parts.len();
        let mut i: usize = 0;
        while i < n
            invariant
                n == self.parts@.len(),
                i <= n,
                found@.map_values(|p: &SalvagedPart| *p) == sorted_by_quality(
                    matching_prefix(self.parts@, value, i as int),
                ),
            decreases n - i,
        {
            let p = &self.parts[i];
            if p.value == value {
                let ghost r = found@.map_values(|q: &SalvagedPart| *q);
                let mut j: usize = 0;
                while j < found.len() && !less_than(found[j].quality, p.quality)
                    invariant
                        j <= found@.len(),
                        r == found@.map_values(|q: &SalvagedPart| *q),
                        forall|k: int| 0 <= k < j ==> !lt(#[trigger] r[k].quality, p.quality),
                    decreases found@.len() - j,
                {
                    j = j + 1;
                }
                proof {
                    lemma_insert_pos_unique(r, *p, j as int);
                    let m = matching_prefix(self.parts@, value, i + 1);
                    assert(m.drop_last() == matching_prefix(self.parts@, value, i as int));
                }
                found.insert(j, p);
                proof {
                    assert(found@.map_values(|q: &SalvagedPart| *q) =~= r.insert(j as int, *p));
                }
            }
            i = i + 1;
        }
        found
    }

    /// Total number of parts in the yard.
    pub fn total_parts(&self) -> (n: usize)
        ensures
            n == self@.parts.len(),
    {
        self.parts.len()
    }

    /// Total number of parts ever recovered.
    pub fn total_recovered(&self) -> (n: usize)
        ensures
            n == self@.total_recovered,
    {
        self.total_recovered
    }

    /// Remove and return the best part holding `value`: the one of highest
    /// quality, the last such one among equals. `None`, with the yard
    /// unchanged, when no part holds `value`.
    pub fn take_best(&mut self, value: Ternary) -> (best: Option<SalvagedPart>)
        ensures
            match best_index(old(self)@.parts, value) {
                None => best is None && final(self)@ == old(self)@,
                Some(k) => best == Some(old(self)@.parts[k]) && final(self)@.parts == old(
                    self,
                )@.parts.remove(k) && final(self)@.total_recovered == old(self)@.total_recovered,
            },
    {
        let n = self.parts.len();
        let mut best: Option<usize> = None;
        let mut i: usize = 0;
        while i < n
            invariant
                n == self.parts@.len(),
                i <= n,
                match best_prefix(self.parts@, value, i as int) {
                    None => best is None,
                    Some(b) => best == Some(b as usize) && 0 <= b < i,
                },
            decreases n - i,
        {
            if self.parts[i].value == value {
                match best {
                    None => {
                        best = Some(i);
                    },
                    Some(b) => {
                        if !less_than(self.parts[i].quality, self.parts[b].quality) {
                            best = Some(i);
                        }
                    },
                }
            }
            i = i + 1;
        }
        match best {
            None => None,
            Some(b) => Some(self.parts.remove(b)),
        }
    }
}


/// The yard never holds more parts than it ever recovered.
pub open spec fn holds_at_most_recovered(v: YardView) -> bool {
    v.parts.len() <= v.total_recovered
}

/// Salvaging and taking the best part keep the yard holding at most as many
/// parts as it ever recovered (an empty yard holds none).
pub proof fn law_held_parts_bounded(v: YardView, recovered: Seq<SalvagedPart>, value: Ternary)
    requires
        holds_at_most_recovered(v),
    ensures
        holds_at_most_recovered(
            YardView {
                parts: v.parts + recovered,
                total_recovered: v.total_recovered + recovered.len(),
            },
        ),
        best_index(v.parts, value) matches Some(k) ==> holds_at_most_recovered(
            YardView { parts: v.parts.remove(k), ..v },
        ),
{
    lemma_best_prefix(v.parts, value, v.parts.len() as int);
}

/// No part of the sequence has a NaN quality.
pub open spec fn qualities_ordered(s: Seq<SalvagedPart>) -> bool {
    forall|i: int| 0 <= i < s.len() ==> !is_nan(#[trigger] s[i].quality)
}

/// Decreasing quality order.
pub open spec fn quality_descending(s: Seq<SalvagedPart>) -> bool {
    forall|i: int, j: int|
        0 <= i < j < s.len() ==> order_key(#[trigger] s[j].quality) <= order_key(
            #[trigger] s[i].quality,
        )
}

proof fn lemma_matching_prefix_facts(parts: Seq<SalvagedPart>, value: Ternary, n: int)
    requires
        0 <= n <= parts.len(),
    ensures
        forall|k: int|
            0 <= k < matching_prefix(parts, value, n).len() ==> (#[trigger] matching_prefix(
                parts,
                value,
                n,
            )[k]).value == value,
        forall|k: int|
            0 <= k < matching_prefix(parts, value, n).len() ==> matching_prefix(
                parts,
                value,
                n,
            ).contains(#[trigger] matching_prefix(parts, value, n)[k]),
        forall|i: int|
            0 <= i < n && (#[trigger] parts[i]).value == value ==> matching_prefix(
                parts,
                value,
                n,
            ).contains(parts[i]),
        forall|x: SalvagedPart|
            #[trigger] matching_prefix(parts, value, n).contains(x) ==> exists|i: int|
                0 <= i < n && parts[i] == x,
    decreases n,
{
    if n > 0 {
        lemma_matching_prefix_facts(parts, value, n - 1);
        let prev = matching_prefix(parts, value, n - 1);
        let cur = matching_prefix(parts, value, n);
        if parts[n - 1].value == value {
            assert(cur[prev.len() as int] == parts[n - 1]);
            assert forall|x: SalvagedPart| #[trigger] cur.contains(x) implies exists|i: int|
                0 <= i < n && parts[i] == x by {
                let k = choose|k: int| 0 <= k < cur.len() && cur[k] == x;
                if k < prev.len() {
                    assert(prev[k] == x);
                    assert(prev.contains(x));
                }
            }
            assert forall|i: int| 0 <= i < n && (#[trigger] parts[i]).value == value implies cur.contains(
                parts[i],
            ) by {
                if i < n - 1 {
                    let k = choose|k: int| 0 <= k < prev.len() && prev[k] == parts[i];
                    assert(cur[k] == parts[i]);
                }
            }
        }
    }
}

proof fn lemma_sorted_by_quality(s: Seq<SalvagedPart>)
    ensures
        sorted_by_quality(s).to_multiset() == s.to_multiset(),
        sorted_by_quality(s).len() == s.len(),
        qualities_ordered(s) ==> quality_descending(sorted_by_quality(s)),
    decreases s.len(),
{
    broadcast use vstd::seq_lib::group_to_multiset_ensures;

    if s.len() > 0 {
        let init = s.drop_last();
        let x = s.last();
        lemma_sorted_by_quality(init);
        let r = sorted_by_quality(init);
        lemma_insert_pos_bounds(r, x);
        let p = insert_pos(r, x);
        assert(s =~= init.push(x));
        assert(r.insert(p, x).to_multiset() == r.to_multiset().insert(x));
        if qualities_ordered(s) {
            assert(qualities_ordered(init)) by {
                assert forall|i: int| 0 <= i < init.len() implies !is_nan(#[trigger] init[i].quality) by {
                    assert(init[i] == s[i]);
                }
            }
            assert(!is_nan(x.quality)) by {
                assert(x == s[s.len() - 1]);
            }
            assert forall|k: int| 0 <= k < r.len() implies !is_nan(#[trigger] r[k].quality) by {
                assert(r.to_multiset().count(r[k]) > 0);
                assert(init.to_multiset().count(r[k]) > 0);
                assert(init.contains(r[k]));
                let m = choose|m: int| 0 <= m < init.len() && init[m] == r[k];
                assert(!is_nan(init[m].quality));
            }
            let t = r.insert(p, x);
            assert forall|i: int, j: int| 0 <= i < j < t.len() implies order_key(
                #[trigger] t[j].quality,
            ) <= order_key(#[trigger] t[i].quality) by {
                if i < p && j < p {
                    assert(t[i] == r[i] && t[j] == r[j]);
                } else if i < p && j == p {
                    assert(t[i] == r[i] && !lt(r[i].quality, x.quality));
                } else if i < p && j > p {
                    assert(t[i] == r[i] && t[j] == r[j - 1]);
                } else if i == p {
                    assert(t[j] == r[j - 1]);
                    assert(p < r.len());
                    assert(lt(r[p].quality, x.quality));
                    if j - 1 > p {
                        assert(order_key(r[j - 1].quality) <= order_key(r[p].quality));
                    }
                } else {
                    assert(t[i] == r[i - 1] && t[j] == r[j - 1]);
                }
            }
        }
    }
}

/// `find_parts` returns exactly the parts holding the value (as a multiset,
/// each as often as the yard holds it), and each holds the value.
pub proof fn law_find_parts_are_the_matching_parts(parts: Seq<SalvagedPart>, value: Ternary)
    ensures
        sorted_by_quality(matching(parts, value)).to_multiset() == matching(
            parts,
            value,
        ).to_multiset(),
        forall|k: int|
            0 <= k < sorted_by_quality(matching(parts, value)).len() ==> (#[trigger] sorted_by_quality(
                matching(parts, value),
            )[k]).value == value,
        forall|i: int|
            0 <= i < parts.len() && (#[trigger] parts[i]).value == value ==> sorted_by_quality(
                matching(parts, value),
            ).contains(parts[i]),
{
    broadcast use vstd::seq_lib::group_to_multiset_ensures;

    let m = matching(parts, value);
    let r = sorted_by_quality(m);
    lemma_sorted_by_quality(m);
    lemma_matching_prefix_facts(parts, value, parts.len() as int);
    assert forall|k: int| 0 <= k < r.len() implies (#[trigger] r[k]).value == value by {
        assert(r.to_multiset().count(r[k]) > 0);
        assert(m.contains(r[k]));
        let j = choose|j: int| 0 <= j < m.len() && m[j] == r[k];
        assert(m[j].value == value);
    }
    assert forall|i: int| 0 <= i < parts.len() && (#[trigger] parts[i]).value == value implies r.contains(
        parts[i],
    ) by {
        assert(m.contains(parts[i]));
        assert(m.to_multiset().count(parts[i]) > 0);
        assert(r.to_multiset().count(parts[i]) > 0);
    }
}

/// When no quality is NaN, `find_parts` lists the parts by decreasing
/// quality.
pub proof fn law_find_parts_sorted(parts: Seq<SalvagedPart>, value: Ternary)
    requires
        qualities_ordered(parts),
    ensures
        quality_descending(sorted_by_quality(matching(parts, value))),
{
    lemma_matching_prefix_facts(parts, value, parts.len() as int);
    let m = matching(parts, value);
    assert forall|k: int| 0 <= k < m.len() implies !is_nan(#[trigger] m[k].quality) by {
        assert(m.contains(m[k]));
        let i = choose|i: int| 0 <= i < parts.len() && parts[i] == m[k];
        assert(!is_nan(parts[i].quality));
    }
    lemma_sorted_by_quality(m);
}

proof fn lemma_best_prefix(parts: Seq<SalvagedPart>, value: Ternary, n: int)
    requires
        0 <= n <= parts.len(),
    ensures
        best_prefix(parts, value, n) is None <==> forall|i: int|
            0 <= i < n ==> (#[trigger] parts[i]).value != value,
        best_prefix(parts, value, n) matches Some(b) ==> 0 <= b < n && parts[b].value == value,
        qualities_ordered(parts) ==> (best_prefix(parts, value, n) matches Some(b) ==> (forall|
            i: int,
        |
            #![trigger parts[i]]
            0 <= i < n && parts[i].value == value ==> order_key(parts[i].quality) <= order_key(
                parts[b].quality,
            ) && (i > b ==> order_key(parts[i].quality) < order_key(parts[b].quality)))),
    decreases n,
{
    if n > 0 {
        lemma_best_prefix(parts, value, n - 1);
        if qualities_ordered(parts) {
            assert(!is_nan(parts[n - 1].quality));
        }
    }
}

/// The part `take_best` takes holds the value, it is taken exactly when some
/// part holds the value, and, when no quality is NaN, it has the highest
/// quality among the parts holding the value, every later one of them
/// having a lower quality.
pub proof fn law_take_best_is_best(parts: Seq<SalvagedPart>, value: Ternary)
    ensures
        best_index(parts, value) is None <==> forall|i: int|
            0 <= i < parts.len() ==> (#[trigger] parts[i]).value != value,
        best_index(parts, value) matches Some(b) ==> 0 <= b < parts.len() && parts[b].value
            == value,
        qualities_ordered(parts) ==> (best_index(parts, value) matches Some(b) ==> (forall|i: int|
            #![trigger parts[i]]
            0 <= i < parts.len() && parts[i].value == value ==> order_key(parts[i].quality)
                <= order_key(parts[b].quality) && (i > b ==> order_key(parts[i].quality)
                < order_key(parts[b].quality)))),
{
    lemma_best_prefix(parts, value, parts.len() as int);
}

} // verus!
