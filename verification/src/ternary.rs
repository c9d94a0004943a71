use vstd::prelude::*;

verus! {

/// A ternary value: Negative (-1), Zero (0), or Positive (+1).
#[derive(Debug, Clone, Copy, PartialEq, Eq, Structural, Hash)]
pub enum Ternary {
    Negative,
    Zero,
    Positive,
}

/// The integer that a ternary value stands for.
pub open spec fn ternary_int(t: Ternary) -> int {
    match t {
        Ternary::Negative => -1,
        Ternary::Zero => 0,
        Ternary::Positive => 1,
    }
}

/// The ternary value that stands for `v`, if `v` is one of -1, 0, +1.
pub open spec fn ternary_of_int(v: int) -> Option<Ternary> {
    if v == -1 {
        Some(Ternary::Negative)
    } else if v == 0 {
        Some(Ternary::Zero)
    } else if v == 1 {
        Some(Ternary::Positive)
    } else {
        None
    }
}

impl Ternary {
    /// The value as an integer in {-1, 0, +1}.
    pub fn value(self) -> (v: i8)
        ensures
            v == ternary_int(self),
    {
        match self {
            Ternary::Negative => -1,
            Ternary::Zero => 0,
            Ternary::Positive => 1,
        }
    }

    /// The ternary value for -1, 0 or +1; `None` for any other integer.
    pub fn from_value(v: i8) -> (t: Option<Self>)
        ensures
            t == ternary_of_int(v as int),
    {
        match v {
            -1 => Some(Ternary::Negative),
            0 => Some(Ternary::Zero),
            1 => Some(Ternary::Positive),
            _ => None,
        }
    }
}

/// Number of occurrences of `t` among the first `n` elements of `s`.
pub open spec fn count_prefix(s: Seq<Ternary>, t: Ternary, n: int) -> nat
    decreases n,
{
    if n <= 0 {
        0
    } else {
        count_prefix(s, t, n - 1) + if s[n - 1] == t { 1nat } else { 0nat }
    }
}

/// Number of occurrences of `t` in `s`.
pub open spec fn count_of(s: Seq<Ternary>, t: Ternary) -> nat {
    count_prefix(s, t, s.len() as int)
}

/// The indices `i < n` with `s[i] == t`, in increasing order.
pub open spec fn positions_prefix(s: Seq<Ternary>, t: Ternary, n: int) -> Seq<usize>
    decreases n,
{
    if n <= 0 {
        Seq::empty()
    } else if s[n - 1] == t {
        positions_prefix(s, t, n - 1).push((n - 1) as usize)
    } else {
        positions_prefix(s, t, n - 1)
    }
}

/// The indices of `s` that hold `t`, in increasing order.
pub open spec fn positions_of(s: Seq<Ternary>, t: Ternary) -> Seq<usize> {
    positions_prefix(s, t, s.len() as int)
}

/// A prefix count never exceeds the prefix length.
pub proof fn lemma_count_prefix_bounded(s: Seq<Ternary>, t: Ternary, n: int)
    requires
        0 <= n,
    ensures
        count_prefix(s, t, n) <= n,
    decreases n,
{
    if n > 0 {
        lemma_count_prefix_bounded(s, t, n - 1);
    }
}

/// Counts of the three values add up to the length.
pub proof fn lemma_counts_partition(s: Seq<Ternary>, n: int)
    requires
        0 <= n,
    ensures
        count_prefix(s, Ternary::Negative, n) + count_prefix(s, Ternary::Zero, n)
            + count_prefix(s, Ternary::Positive, n) == n,
    decreases n,
{
    if n > 0 {
        lemma_counts_partition(s, n - 1);
    }
}

/// Converting a ternary value to its integer and back gives the value again.
pub proof fn lemma_value_round_trip(t: Ternary)
    ensures
        ternary_of_int(ternary_int(t)) == Some(t),
{
}

/// Every integer that converts to a ternary value is that value's integer,
/// and exactly -1, 0 and +1 convert.
pub proof fn lemma_from_value_inverse(v: int)
    ensures
        ternary_of_int(v) is Some <==> -1 <= v <= 1,
        ternary_of_int(v) matches Some(t) ==> ternary_int(t) == v,
{
}

} // verus!
