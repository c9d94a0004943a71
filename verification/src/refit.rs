//! Refit plans: rebalancing an agent's state vector.
use vstd::prelude::*;
use vstd::string::StringExecFns;
use crate::agent::{lemma_sum_is_count_difference, sum_prefix, sum_values, Agent, AgentId};
use crate::ternary::{count_of, count_prefix, lemma_count_prefix_bounded, ternary_int, Ternary};

verus! {

/// A single modification in a refit plan.
#[derive(Debug, Clone)]
pub struct Modification {
    pub index: usize,
    pub from: Ternary,
    pub to: Ternary,
    pub reason: String,
}

/// A modification as plain values.
pub struct ModificationView {
    pub index: usize,
    pub from: Ternary,
    pub to: Ternary,
    pub reason: Seq<char>,
}

impl View for Modification {
    type V = ModificationView;

    open spec fn view(&self) -> ModificationView {
        ModificationView { index: self.index, from: self.from, to: self.to, reason: self.reason@ }
    }
}

/// A plan to upgrade agent capabilities.
#[derive(Debug, Clone)]
pub struct RefitPlan {
    pub agent_id: AgentId,
    pub new_state: Vec<Ternary>,
    pub target_generation: u32,
    pub modifications: Vec<Modification>,
}

/// Creates refit plans for upgrading agents.
pub struct RefitPlanner;

/// The modifications of a vector, as plain values.
pub open spec fn modifications_view(v: Seq<Modification>) -> Seq<ModificationView> {
    v.map_values(|m: Modification| m@)
}

/// Number of even indices `i < n` with `s[i] == t`.
pub open spec fn even_count_prefix(s: Seq<Ternary>, t: Ternary, n: int) -> nat
    decreases n,
{
    if n <= 0 {
        0
    } else {
        even_count_prefix(s, t, n - 1) + if (n - 1) % 2 == 0 && s[n - 1] == t {
            1nat
        } else {
            0nat
        }
    }
}

/// Whether rebalancing an excess of `excess` values `t` converts index `i`:
/// it is an even index holding `t`, and fewer than `excess` even indices
/// holding `t` come before it.
pub open spec fn converts(s: Seq<Ternary>, t: Ternary, excess: nat, i: int) -> bool {
    i % 2 == 0 && s[i] == t && even_count_prefix(s, t, i) < excess
}

/// The indices `i < n` that `converts` selects, in increasing order.
pub open spec fn converted_prefix(s: Seq<Ternary>, t: Ternary, excess: nat, n: int) -> Seq<usize>
    decreases n,
{
    if n <= 0 {
        Seq::empty()
    } else if converts(s, t, excess, n - 1) {
        converted_prefix(s, t, excess, n - 1).push((n - 1) as usize)
    } else {
        converted_prefix(s, t, excess, n - 1)
    }
}

/// The value in excess and by how much: positives when they outnumber the
/// negatives and zeros together, negatives when they outnumber the positives
/// and zeros together.
pub open spec fn excess_of(s: Seq<Ternary>) -> Option<(Ternary, nat)> {
    let pos = count_of(s, Ternary::Positive);
    let neg = count_of(s, Ternary::Negative);
    let zero = count_of(s, Ternary::Zero);
    if pos > neg + zero {
        Some((Ternary::Positive, (pos - neg - zero) as nat))
    } else if neg > pos + zero {
        Some((Ternary::Negative, (neg - pos - zero) as nat))
    } else {
        None
    }
}

/// Absolute value.
pub open spec fn abs(x: int) -> int {
    if x < 0 {
        -x
    } else {
        x
    }
}

/// The reason recorded for converting a value `t`.
pub open spec fn reason_for(t: Ternary) -> Seq<char> {
    if t == Ternary::Positive {
        "Rebalance excess positive"@
    } else {
        "Rebalance excess negative"@
    }
}

/// The state with the selected indices converted to zero.
pub open spec fn converted_state(s: Seq<Ternary>, t: Ternary, excess: nat) -> Seq<Ternary> {
    Seq::new(s.len(), |i: int| if converts(s, t, excess, i) { Ternary::Zero } else { s[i] })
}

/// The modification records for the converted indices, in increasing order.
pub open spec fn conversion_records(s: Seq<Ternary>, t: Ternary, excess: nat) -> Seq<
    ModificationView,
> {
    converted_prefix(s, t, excess, s.len() as int).map_values(
        |i: usize| ModificationView { index: i, from: t, to: Ternary::Zero, reason: reason_for(t) },
    )
}

/// The state after rebalancing.
pub open spec fn rebalanced_state(s: Seq<Ternary>) -> Seq<Ternary> {
    match excess_of(s) {
        Some((t, excess)) => converted_state(s, t, excess),
        None => s,
    }
}

/// The modifications that rebalancing records.
pub open spec fn rebalance_modifications(s: Seq<Ternary>) -> Seq<ModificationView> {
    match excess_of(s) {
        Some((t, excess)) => conversion_records(s, t, excess),
        None => Seq::empty(),
    }
}

proof fn lemma_even_count_bounded(s: Seq<Ternary>, t: Ternary, n: int)
    requires
        0 <= n,
    ensures
        even_count_prefix(s, t, n) <= n,
    decreases n,
{
    if n > 0 {
        lemma_even_count_bounded(s, t, n - 1);
    }
}

proof fn lemma_converted_prefix_len(s: Seq<Ternary>, t: Ternary, excess: nat, n: int)
    requires
        0 <= n,
    ensures
        converted_prefix(s, t, excess, n).len() == if even_count_prefix(s, t, n) < excess {
            even_count_prefix(s, t, n)
        } else {
            excess
        },
        forall|k: int|
            0 <= k < converted_prefix(s, t, excess, n).len() ==> #[trigger] converted_prefix(
                s,
                t,
                excess,
                n,
            )[k] < n,
    decreases n,
{
    if n > 0 {
        lemma_converted_prefix_len(s, t, excess, n - 1);
    }
}

proof fn lemma_converted_prefix_stable(s: Seq<Ternary>, t: Ternary, excess: nat, i: int, n: int)
    requires
        0 <= i <= n,
        even_count_prefix(s, t, i) >= excess,
    ensures
        converted_prefix(s, t, excess, n) == converted_prefix(s, t, excess, i),
        even_count_prefix(s, t, n) >= excess,
    decreases n - i,
{
    if n > i {
        lemma_converted_prefix_stable(s, t, excess, i, n - 1);
    }
}

fn convert_excess(
    state: &Vec<Ternary>,
    new_state: &mut Vec<Ternary>,
    modifications: &mut Vec<Modification>,
    target: Ternary,
    excess: usize,
    reason: &str,
)
    requires
        old(new_state)@ == state@,
        old(modifications)@.len() == 0,
        reason@ == reason_for(target),
    ensures
        final(new_state)@ == converted_state(state@, target, excess as nat),
        modifications_view(final(modifications)@) == conversion_records(
            state@,
            target,
            excess as nat,
        ),
{
    let ghost s = state@;
    let len = state.len();
    let mut converted: usize = 0;
    let mut i: usize = 0;
    while i < len && converted < excess
        invariant
            len == s.len(),
            i <= len,
            s == state@,
            reason@ == reason_for(target),
            new_state@.len() == len,
            converted as nat == even_count_prefix(s, target, i as int),
            converted <= excess,
            forall|j: int|
                0 <= j < len ==> #[trigger] new_state@[j] == if j < i && converts(
                    s,
                    target,
                    excess as nat,
                    j,
                ) {
                    Ternary::Zero
                } else {
                    s[j]
                },
            modifications_view(modifications@) == converted_prefix(
                s,
                target,
                excess as nat,
                i as int,
            ).map_values(
                |k: usize|
                    ModificationView {
                        index: k,
                        from: target,
                        to: Ternary::Zero,
                        reason: reason_for(target),
                    },
            ),
        decreases len - i,
    {
        proof {
            lemma_even_count_bounded(s, target, i as int);
        }
        if state[i] == target && i % 2 == 0 {
            let m = Modification {
                index: i,
                from: target,
                to: Ternary::Zero,
                reason: String::from_str(reason),
            };
            let ghost before = modifications@;
            modifications.push(m);
            proof {
                assert(modifications_view(modifications@) =~= modifications_view(before).push(m@));
                assert(converted_prefix(s, target, excess as nat, i + 1) == converted_prefix(
                    s,
                    target,
                    excess as nat,
                    i as int,
                ).push(i as usize));
                assert(modifications_view(modifications@) =~= converted_prefix(
                    s,
                    target,
                    excess as nat,
                    i + 1,
                ).map_values(
                    |k: usize|
                        ModificationView {
                            index: k,
                            from: target,
                            to: Ternary::Zero,
                            reason: reason_for(target),
                        },
                ));
            }
            new_state.set(i, Ternary::Zero);
            converted = converted + 1;
        }
        i = i + 1;
    }
    proof {
        if i < len {
            lemma_converted_prefix_stable(s, target, excess as nat, i as int, len as int);
            assert forall|j: int| i <= j < len implies !converts(s, target, excess as nat, j) by {
                lemma_converted_prefix_stable(s, target, excess as nat, i as int, j);
            }
        }
        assert(new_state@ =~= converted_state(s, target, excess as nat));
    }
}

fn count_value(s: &Vec<Ternary>, t: Ternary) -> (r: usize)
    ensures
        r == count_of(s@, t),
{
    let mut count: usize = 0;
    let mut i: usize = 0;
    while i < s.len()
        invariant
            i <= s@.len(),
            count == count_prefix(s@, t, i as int),
        decreases s@.len() - i,
    {
        proof {
            lemma_count_prefix_bounded(s@, t, i as int);
        }
        if s[i] == t {
            count = count + 1;
        }
        i = i + 1;
    }
    count
}

proof fn lemma_even_count_le_count(s: Seq<Ternary>, t: Ternary, n: int)
    requires
        0 <= n,
    ensures
        even_count_prefix(s, t, n) <= count_prefix(s, t, n),
    decreases n,
{
    if n > 0 {
        lemma_even_count_le_count(s, t, n - 1);
    }
}

proof fn lemma_converted_prefix_facts(s: Seq<Ternary>, t: Ternary, excess: nat, n: int)
    requires
        0 <= n <= s.len() <= usize::MAX,
    ensures
        forall|k: int|
            #![trigger converted_prefix(s, t, excess, n)[k]]
            0 <= k < converted_prefix(s, t, excess, n).len() ==> {
                let i = converted_prefix(s, t, excess, n)[k] as int;
                0 <= i < n && converts(s, t, excess, i)
            },
        forall|k1: int, k2: int|
            0 <= k1 < k2 < converted_prefix(s, t, excess, n).len() ==> #[trigger] converted_prefix(
                s,
                t,
                excess,
                n,
            )[k1] < #[trigger] converted_prefix(s, t, excess, n)[k2],
        forall|i: int|
            0 <= i < n && #[trigger] converts(s, t, excess, i) ==> exists|k: int|
                0 <= k < converted_prefix(s, t, excess, n).len() && converted_prefix(
                    s,
                    t,
                    excess,
                    n,
                )[k] == i,
    decreases n,
{
    if n > 0 {
        lemma_converted_prefix_facts(s, t, excess, n - 1);
        let prev = converted_prefix(s, t, excess, n - 1);
        let cur = converted_prefix(s, t, excess, n);
        if converts(s, t, excess, n - 1) {
            assert(cur == prev.push((n - 1) as usize));
            assert forall|i: int| 0 <= i < n && #[trigger] converts(s, t, excess, i) implies exists|
                k: int,
            | 0 <= k < cur.len() && cur[k] == i by {
                if i == n - 1 {
                    assert(cur[prev.len() as int] == i);
                } else {
                    let k = choose|k: int| 0 <= k < prev.len() && prev[k] == i;
                    assert(cur[k] == i);
                }
            }
        }
    }
}

proof fn lemma_converted_sum(s: Seq<Ternary>, t: Ternary, excess: nat, n: int)
    requires
        0 <= n <= s.len(),
    ensures
        sum_prefix(converted_state(s, t, excess), n) == sum_prefix(s, n) - ternary_int(t) * (
        if even_count_prefix(s, t, n) < excess {
            even_count_prefix(s, t, n) as int
        } else {
            excess as int
        }),
    decreases n,
{
    if n > 0 {
        lemma_converted_sum(s, t, excess, n - 1);
        let cs = converted_state(s, t, excess);
        let e_prev = even_count_prefix(s, t, n - 1);
        let e = even_count_prefix(s, t, n);
        let c_prev: int = if e_prev < excess { e_prev as int } else { excess as int };
        let c: int = if e < excess { e as int } else { excess as int };
        let v = ternary_int(t);
        assert(cs[n - 1] == if converts(s, t, excess, n - 1) { Ternary::Zero } else { s[n - 1] });
        if converts(s, t, excess, n - 1) {
            assert(c == c_prev + 1);
            assert(v * c == v * c_prev + v) by (nonlinear_arith)
                requires
                    c == c_prev + 1,
            ;
        } else {
            assert(c == c_prev);
        }
    }
}

/// Rebalancing keeps the length and only turns values into zero: every
/// value of the new state is the old value or a zero that replaced a
/// nonzero value.
pub proof fn law_rebalance_only_zeroes(s: Seq<Ternary>)
    ensures
        rebalanced_state(s).len() == s.len(),
        forall|i: int|
            0 <= i < s.len() ==> #[trigger] rebalanced_state(s)[i] == s[i] || (
            rebalanced_state(s)[i] == Ternary::Zero && s[i] != Ternary::Zero),
{
}

/// The modifications of a rebalancing list exactly the changed indices, in
/// increasing order, each with the old and the new value.
pub proof fn law_modifications_describe_changes(s: Seq<Ternary>)
    requires
        s.len() <= usize::MAX,
    ensures
        forall|k: int|
            #![trigger rebalance_modifications(s)[k]]
            0 <= k < rebalance_modifications(s).len() ==> {
                let m = rebalance_modifications(s)[k];
                &&& m.index < s.len()
                &&& m.from == s[m.index as int]
                &&& m.to == rebalanced_state(s)[m.index as int]
                &&& m.from != m.to
            },
        forall|k1: int, k2: int|
            0 <= k1 < k2 < rebalance_modifications(s).len() ==> #[trigger] rebalance_modifications(
                s,
            )[k1].index < #[trigger] rebalance_modifications(s)[k2].index,
        forall|i: int|
            0 <= i < s.len() && #[trigger] rebalanced_state(s)[i] != s[i] ==> exists|k: int|
                0 <= k < rebalance_modifications(s).len() && rebalance_modifications(s)[k].index
                    == i,
{
    match excess_of(s) {
        Some((t, excess)) => {
            lemma_converted_prefix_facts(s, t, excess, s.len() as int);
            let cp = converted_prefix(s, t, excess, s.len() as int);
            let m = rebalance_modifications(s);
            assert(m.len() == cp.len());
            assert forall|k: int| 0 <= k < m.len() implies #[trigger] m[k].index == cp[k] by {}
            assert forall|i: int|
                0 <= i < s.len() && #[trigger] rebalanced_state(s)[i] != s[i] implies exists|k: int|
                0 <= k < m.len() && m[k].index == i by {
                assert(converts(s, t, excess, i));
                let k = choose|k: int| 0 <= k < cp.len() && cp[k] == i;
                assert(m[k].index == i);
            }
        },
        None => {},
    }
}

/// Rebalancing never worsens the balance: the absolute sum of the state
/// does not grow, and it shrinks whenever the plan modifies anything.
pub proof fn law_rebalance_improves_balance(s: Seq<Ternary>)
    ensures
        abs(sum_values(rebalanced_state(s))) <= abs(sum_values(s)),
        rebalance_modifications(s).len() > 0 ==> abs(sum_values(rebalanced_state(s))) < abs(
            sum_values(s),
        ),
{
    let n = s.len() as int;
    lemma_sum_is_count_difference(s, n);
    match excess_of(s) {
        Some((t, excess)) => {
            lemma_converted_sum(s, t, excess, n);
            lemma_converted_prefix_len(s, t, excess, n);
            lemma_even_count_le_count(s, t, n);
        },
        None => {},
    }
}

proof fn lemma_even_count_monotone(s: Seq<Ternary>, t: Ternary, i: int, j: int)
    requires
        0 <= i <= j,
    ensures
        even_count_prefix(s, t, i) <= even_count_prefix(s, t, j),
    decreases j - i,
{
    if i < j {
        lemma_even_count_monotone(s, t, i, j - 1);
    }
}

/// The other nonzero value.
pub open spec fn opposite(t: Ternary) -> Ternary {
    if t == Ternary::Positive {
        Ternary::Negative
    } else {
        Ternary::Positive
    }
}

/// When a nonzero value `t` outnumbers the other nonzero value and the
/// zeros together by `e` (`e = count(t) - count(other) - count(zero)`),
/// the plan converts at most `e` values; only even indices holding `t`
/// change, each to zero; such indices are converted from the first one on;
/// and fewer than `e` are converted only when every even index holding `t`
/// is.
pub proof fn law_plan_converts_the_excess(s: Seq<Ternary>, t: Ternary)
    requires
        t != Ternary::Zero,
        count_of(s, t) > count_of(s, opposite(t)) + count_of(s, Ternary::Zero),
    ensures
        ({
            let e = count_of(s, t) - count_of(s, opposite(t)) - count_of(s, Ternary::Zero);
            let r = rebalanced_state(s);
            let m = rebalance_modifications(s);
            &&& m.len() <= e
            &&& forall|i: int|
                0 <= i < s.len() && #[trigger] r[i] != s[i] ==> i % 2 == 0 && s[i] == t && r[i]
                    == Ternary::Zero
            &&& forall|i: int, j: int|
                0 <= i < j < s.len() && i % 2 == 0 && s[i] == t && #[trigger] r[j] != s[j]
                    ==> #[trigger] r[i] == Ternary::Zero
            &&& m.len() < e ==> forall|i: int|
                0 <= i < s.len() && i % 2 == 0 && s[i] == t ==> #[trigger] r[i] == Ternary::Zero
        }),
{
    let n = s.len() as int;
    let e = (count_of(s, t) - count_of(s, opposite(t)) - count_of(s, Ternary::Zero)) as nat;
    assert(excess_of(s) == Some((t, e)));
    lemma_converted_prefix_len(s, t, e, n);
    let r = rebalanced_state(s);
    assert forall|i: int, j: int|
        0 <= i < j < s.len() && i % 2 == 0 && s[i] == t && #[trigger] r[j] != s[j] implies #[trigger] r[i]
        == Ternary::Zero by {
        lemma_even_count_monotone(s, t, i + 1, j);
        assert(even_count_prefix(s, t, i + 1) == even_count_prefix(s, t, i) + 1);
    }
    if rebalance_modifications(s).len() < e {
        assert forall|i: int| 0 <= i < s.len() && i % 2 == 0 && s[i] == t implies #[trigger] r[i]
            == Ternary::Zero by {
            lemma_even_count_monotone(s, t, i, n);
        }
    }
}

/// When no nonzero value outnumbers the other two together, the plan
/// changes nothing.
pub proof fn law_plan_without_excess_changes_nothing(s: Seq<Ternary>)
    requires
        count_of(s, Ternary::Positive) <= count_of(s, Ternary::Negative) + count_of(
            s,
            Ternary::Zero,
        ),
        count_of(s, Ternary::Negative) <= count_of(s, Ternary::Positive) + count_of(
            s,
            Ternary::Zero,
        ),
    ensures
        rebalanced_state(s) == s,
        rebalance_modifications(s).len() == 0,
{
}

impl RefitPlanner {
    /// Create a refit plan that balances an agent's state.
    ///
    /// When one value outnumbers the other two together, the plan converts
    /// that value to zero at even indices, from the first index on, until it
    /// has converted as many as the excess or run out of such indices.
    pub fn plan_balance(agent: &Agent) -> (plan: RefitPlan)
        requires
            agent.generation < u32::MAX,
        ensures
            plan.agent_id == agent.id,
            plan.new_state@ == rebalanced_state(agent.state@),
            modifications_view(plan.modifications@) == rebalance_modifications(agent.state@),
            plan.target_generation == agent.generation + 1,
    {
        let neg_count = count_value(&agent.state, Ternary::Negative);
        let pos_count = count_value(&agent.state, Ternary::Positive);
        let zero_count = count_value(&agent.state, Ternary::Zero);
        proof {
            crate::ternary::lemma_counts_partition(agent.state@, agent.state@.len() as int);
        }

        let mut modifications: Vec<Modification> = Vec::new();
        let mut new_state = agent.state.clone();
        assert(new_state@ =~= agent.state@);

        if pos_count > neg_count + zero_count {
            let excess = pos_count - neg_count - zero_count;
            convert_excess(
                &agent.state,
                &mut new_state,
                &mut modifications,
                Ternary::Positive,
                excess,
                "Rebalance excess positive",
            );
        }
        if neg_count > pos_count + zero_count {
            let excess = neg_count - pos_count - zero_count;
            convert_excess(
                &agent.state,
                &mut new_state,
                &mut modifications,
                Ternary::Negative,
                excess,
                "Rebalance excess negative",
            );
        }
        proof {
            if excess_of(agent.state@) is None {
                assert(modifications_view(modifications@) =~= Seq::<ModificationView>::empty());
            }
        }
        RefitPlan {
            agent_id: agent.id,
            new_state,
            target_generation: agent.generation + 1,
            modifications,
        }
    }
}

} // verus!
