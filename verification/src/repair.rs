//! Diagnosis of agents: repair bills listing issues, effort and priority.
use vstd::prelude::*;
use vstd::string::StringExecFns;
use crate::agent::{lemma_sum_is_count_difference, sum_values, Agent, AgentId};
use crate::refit::abs;
use crate::binary64::{less_than, lt, FOUR_FIFTHS_BITS, ONE_FIFTH_BITS, ONE_HALF_BITS};
use crate::decimal::{append_decimal, decimal};
use crate::ternary::{count_of, count_prefix, lemma_count_prefix_bounded, positions_of, positions_prefix, Ternary};

verus! {

/// Issue severity.
#[derive(Debug, Clone, Copy, PartialEq, Eq, Structural, PartialOrd, Ord)]
pub enum Severity {
    Low,
    Medium,
    High,
    Critical,
}

/// Repair priority.
#[derive(Debug, Clone, Copy, PartialEq, Eq, Structural, PartialOrd, Ord)]
pub enum Priority {
    Routine,
    Scheduled,
    Urgent,
    Emergency,
}

/// A specific issue found in an agent.
#[derive(Debug, Clone)]
pub struct Issue {
    pub description: String,
    pub severity: Severity,
    pub affected_indices: Vec<usize>,
}

/// An issue as plain values.
pub struct IssueView {
    pub description: Seq<char>,
    pub severity: Severity,
    pub affected_indices: Seq<usize>,
}

impl View for Issue {
    type V = IssueView;

    open spec fn view(&self) -> IssueView {
        IssueView {
            description: self.description@,
            severity: self.severity,
            affected_indices: self.affected_indices@,
        }
    }
}

/// Diagnosis of issues found in a ternary agent.
///
/// `estimated_effort` is the total of the effort weights of the issues
/// (Low 1, Medium 3, High 5, Critical 10).
#[derive(Debug, Clone)]
pub struct RepairBill {
    pub agent_id: AgentId,
    pub issues: Vec<Issue>,
    pub estimated_effort: u64,
    pub priority: Priority,
}

/// Diagnoses issues in ternary agents.
pub struct RepairBillDiagnostic;

/// The issues of a vector, as plain values.
pub open spec fn issues_view(v: Seq<Issue>) -> Seq<IssueView> {
    v.map_values(|i: Issue| i@)
}

/// The issue that the health score raises, if any: below 0.2 critical,
/// below 0.5 high, below 0.8 medium.
pub open spec fn health_issues(health: u64) -> Seq<IssueView> {
    if lt(health, ONE_FIFTH_BITS) {
        seq![IssueView {
            description: "Agent health critically low"@,
            severity: Severity::Critical,
            affected_indices: Seq::empty(),
        }]
    } else if lt(health, ONE_HALF_BITS) {
        seq![IssueView {
            description: "Agent health degraded"@,
            severity: Severity::High,
            affected_indices: Seq::empty(),
        }]
    } else if lt(health, FOUR_FIFTHS_BITS) {
        seq![IssueView {
            description: "Agent health below optimal"@,
            severity: Severity::Medium,
            affected_indices: Seq::empty(),
        }]
    } else {
        Seq::empty()
    }
}

/// All values of the state are identical.
pub open spec fn all_identical(s: Seq<Ternary>) -> bool {
    forall|i: int| 0 <= i < s.len() ==> #[trigger] s[i] == s[0]
}

/// `a` then `b` swings between -1 and +1.
pub open spec fn swings(a: Ternary, b: Ternary) -> bool {
    (a == Ternary::Negative && b == Ternary::Positive) || (a == Ternary::Positive && b
        == Ternary::Negative)
}

/// Every pair of neighbours swings between -1 and +1.
pub open spec fn oscillating(s: Seq<Ternary>) -> bool {
    forall|i: int, j: int|
        #![trigger s[i], s[j]]
        0 <= i && j == i + 1 && j < s.len() ==> swings(s[i], s[j])
}

/// More than four fifths of the values are zero.
pub open spec fn mostly_zero(s: Seq<Ternary>) -> bool {
    5 * count_of(s, Ternary::Zero) > 4 * s.len()
}

/// `100 * part / whole` rounded to the nearest integer, ties to even.
pub open spec fn rounded_percent(part: nat, whole: nat) -> nat
    recommends
        whole > 0,
{
    let q = (100 * part) / whole;
    let r = (100 * part) % whole;
    if 2 * r > whole || (2 * r == whole && q % 2 == 1) {
        q + 1
    } else {
        q
    }
}

/// The indices `0..n`.
pub open spec fn all_indices(n: nat) -> Seq<usize> {
    Seq::new(n, |i: int| i as usize)
}

/// The stagnation issue, if the state has more than two values, all identical.
pub open spec fn stagnation_issues(s: Seq<Ternary>) -> Seq<IssueView> {
    if s.len() > 2 && all_identical(s) {
        seq![IssueView {
            description: "State stagnation: all "@ + decimal(s.len()) + " values identical"@,
            severity: Severity::High,
            affected_indices: all_indices(s.len()),
        }]
    } else {
        Seq::empty()
    }
}

/// The oscillation issue, if the state has more than two values swinging
/// between -1 and +1.
pub open spec fn oscillation_issues(s: Seq<Ternary>) -> Seq<IssueView> {
    if s.len() > 2 && oscillating(s) {
        seq![IssueView {
            description: "State oscillation detected"@,
            severity: Severity::Medium,
            affected_indices: all_indices(s.len()),
        }]
    } else {
        Seq::empty()
    }
}

/// The passivity issue, if the state has more than three values and more
/// than four fifths of them are zero.
pub open spec fn passivity_issues(s: Seq<Ternary>) -> Seq<IssueView> {
    if s.len() > 3 && mostly_zero(s) {
        seq![IssueView {
            description: "Excessive passivity: "@ + decimal(
                rounded_percent(count_of(s, Ternary::Zero), s.len()),
            ) + "% zero states"@,
            severity: Severity::Low,
            affected_indices: positions_of(s, Ternary::Zero),
        }]
    } else {
        Seq::empty()
    }
}

/// The state is imbalanced: the absolute value of its sum is more than half
/// its length (a state whose values all have the same nonzero sign always
/// is).
pub open spec fn imbalanced(s: Seq<Ternary>) -> bool {
    s.len() > 0 && 2 * abs(sum_values(s)) > s.len()
}

/// The imbalance issue, if the state is imbalanced: its text gives by how
/// many values the majority sign outnumbers the other, and its indices are
/// those holding the majority sign.
pub open spec fn imbalance_issues(s: Seq<Ternary>) -> Seq<IssueView> {
    if imbalanced(s) {
        let majority = if sum_values(s) > 0 {
            Ternary::Positive
        } else {
            Ternary::Negative
        };
        seq![IssueView {
            description: "State imbalance: "@ + decimal(abs(sum_values(s)) as nat) + if sum_values(
                s,
            ) > 0 {
                " more positive than negative values"@
            } else {
                " more negative than positive values"@
            },
            severity: Severity::Medium,
            affected_indices: positions_of(s, majority),
        }]
    } else {
        Seq::empty()
    }
}

/// All issues of an agent with this health and state, in the order in which
/// they are checked: health, stagnation, oscillation, passivity, imbalance.
pub open spec fn expected_issues(health: u64, s: Seq<Ternary>) -> Seq<IssueView> {
    health_issues(health) + stagnation_issues(s) + oscillation_issues(s) + passivity_issues(s)
        + imbalance_issues(s)
}

/// Effort weight of an issue of this severity.
pub open spec fn effort_weight(sev: Severity) -> nat {
    match sev {
        Severity::Low => 1,
        Severity::Medium => 3,
        Severity::High => 5,
        Severity::Critical => 10,
    }
}

/// Total effort of a list of issues.
pub open spec fn total_effort(issues: Seq<IssueView>) -> nat
    decreases issues.len(),
{
    if issues.len() == 0 {
        0
    } else {
        total_effort(issues.drop_last()) + effort_weight(issues.last().severity)
    }
}

/// Number of issues of a severity.
pub open spec fn severity_count(issues: Seq<IssueView>, sev: Severity) -> nat
    decreases issues.len(),
{
    if issues.len() == 0 {
        0
    } else {
        severity_count(issues.drop_last(), sev) + if issues.last().severity == sev {
            1nat
        } else {
            0nat
        }
    }
}

/// Priority of a list of issues: any critical issue is an emergency, two or
/// more high ones are urgent, one high issue is scheduled, anything else is
/// routine.
pub open spec fn priority_of(issues: Seq<IssueView>) -> Priority {
    if severity_count(issues, Severity::Critical) > 0 {
        Priority::Emergency
    } else if severity_count(issues, Severity::High) > 1 {
        Priority::Urgent
    } else if severity_count(issues, Severity::High) > 0 {
        Priority::Scheduled
    } else {
        Priority::Routine
    }
}

proof fn lemma_issues_view_push(v: Seq<Issue>, x: Issue)
    ensures
        issues_view(v.push(x)) == issues_view(v).push(x@),
{
    assert(issues_view(v.push(x)) =~= issues_view(v).push(x@));
}

proof fn lemma_counts_push(issues: Seq<IssueView>, x: IssueView)
    ensures
        issues.push(x).drop_last() == issues,
        severity_count(issues.push(x), Severity::Critical) == severity_count(
            issues,
            Severity::Critical,
        ) + if x.severity == Severity::Critical { 1nat } else { 0nat },
        severity_count(issues.push(x), Severity::High) == severity_count(issues, Severity::High)
            + if x.severity == Severity::High { 1nat } else { 0nat },
{
    assert(issues.push(x).drop_last() =~= issues);
}

fn push_issue(
    issues: &mut Vec<Issue>,
    description: String,
    severity: Severity,
    affected_indices: Vec<usize>,
)
    ensures
        issues_view(final(issues)@) == issues_view(old(issues)@).push(
            IssueView { description: description@, severity, affected_indices: affected_indices@ },
        ),
{
    let issue = Issue { description, severity, affected_indices };
    proof {
        lemma_issues_view_push(issues@, issue);
    }
    issues.push(issue);
}

fn index_range(n: usize) -> (v: Vec<usize>)
    ensures
        v@ == all_indices(n as nat),
{
    let mut v: Vec<usize> = Vec::new();
    let mut i: usize = 0;
    while i < n
        invariant
            i <= n,
            v@ == all_indices(i as nat),
        decreases n - i,
    {
        v.push(i);
        i = i + 1;
        assert(v@ =~= all_indices(i as nat));
    }
    v
}

fn is_all_identical(s: &Vec<Ternary>) -> (r: bool)
    requires
        s@.len() > 0,
    ensures
        r == all_identical(s@),
{
    let mut i: usize = 1;
    while i < s.len()
        invariant
            1 <= i <= s@.len(),
            forall|j: int| 0 <= j < i ==> #[trigger] s@[j] == s@[0],
        decreases s@.len() - i,
    {
        if s[i] != s[0] {
            return false;
        }
        i = i + 1;
    }
    true
}

fn is_oscillating(s: &Vec<Ternary>) -> (r: bool)
    requires
        s@.len() > 0,
    ensures
        r == oscillating(s@),
{
    let mut i: usize = 1;
    while i < s.len()
        invariant
            1 <= i <= s@.len(),
            forall|a: int, b: int|
                #![trigger s@[a], s@[b]]
                0 <= a && b == a + 1 && b < i ==> swings(s@[a], s@[b]),
        decreases s@.len() - i,
    {
        let a = s[i - 1];
        let b = s[i];
        let ok = (a == Ternary::Negative && b == Ternary::Positive) || (a == Ternary::Positive
            && b == Ternary::Negative);
        if !ok {
            assert(!swings(s@[i - 1], s@[i as int]));
            return false;
        }
        i = i + 1;
    }
    true
}

fn count_value(s: &Vec<Ternary>, t: Ternary) -> (r: usize)
    ensures
        r == count_of(s@, t),
{
    let mut count: usize = 0;
    let mut i: usize = 0;
    while i < s.len()
        invariant
            i <= s@.len(),
            count == count_prefix(s@, t, i as int),
        decreases s@.len() - i,
    {
        proof {
            lemma_count_prefix_bounded(s@, t, i as int);
        }
        if s[i] == t {
            count = count + 1;
        }
        i = i + 1;
    }
    count
}

fn positions(s: &Vec<Ternary>, t: Ternary) -> (v: Vec<usize>)
    ensures
        v@ == positions_of(s@, t),
{
    let mut v: Vec<usize> = Vec::new();
    let mut i: usize = 0;
    while i < s.len()
        invariant
            i <= s@.len(),
            v@ == positions_prefix(s@, t, i as int),
        decreases s@.len() - i,
    {
        if s[i] == t {
            v.push(i);
        }
        i = i + 1;
    }
    v
}

fn percent_rounded(part: usize, whole: usize) -> (p: u64)
    requires
        0 < whole,
        part <= whole,
    ensures
        p == rounded_percent(part as nat, whole as nat),
        p <= 100,
{
    let num: u128 = (part as u128) * 100;
    let w: u128 = whole as u128;
    let q: u128 = num / w;
    let r: u128 = num % w;
    assert(q <= 100) by (nonlinear_arith)
        requires
            num == part * 100,
            part <= whole,
            w == whole,
            0 < w,
            q == num / w,
    {
        assert(num <= 100 * w);
    }
    assert(q == 100 ==> r == 0) by (nonlinear_arith)
        requires
            num == part * 100,
            part <= whole,
            w == whole,
            0 < w,
            q == num / w,
            r == num % w,
    ;
    let rounded: u128 = if 2 * r > w || (2 * r == w && q % 2 == 1) {
        q + 1
    } else {
        q
    };
    rounded as u64
}

fn effort_of(issues: &Vec<Issue>) -> (e: u64)
    requires
        issues@.len() <= 5,
    ensures
        e == total_effort(issues_view(issues@)),
{
    let mut e: u64 = 0;
    let mut i: usize = 0;
    while i < issues.len()
        invariant
            i <= issues@.len() <= 5,
            e == total_effort(issues_view(issues@.subrange(0, i as int))),
            e <= 10 * i,
        decreases issues@.len() - i,
    {
        let w: u64 = match issues[i].severity {
            Severity::Low => 1,
            Severity::Medium => 3,
            Severity::High => 5,
            Severity::Critical => 10,
        };
        proof {
            let pre = issues@.subrange(0, i as int);
            assert(issues@.subrange(0, i + 1) =~= pre.push(issues@[i as int]));
            lemma_issues_view_push(pre, issues@[i as int]);
            assert(issues_view(pre).push(issues@[i as int]@).drop_last() =~= issues_view(pre));
        }
        e = e + w;
        i = i + 1;
    }
    assert(issues@.subrange(0, i as int) =~= issues@);
    e
}

proof fn lemma_severity_count_concat(a: Seq<IssueView>, b: Seq<IssueView>, sev: Severity)
    ensures
        severity_count(a + b, sev) == severity_count(a, sev) + severity_count(b, sev),
    decreases b.len(),
{
    if b.len() > 0 {
        lemma_severity_count_concat(a, b.drop_last(), sev);
        assert((a + b).drop_last() =~= a + b.drop_last());
    }
}

/// Appends the health issue; returns how many critical and how many high
/// issues it appended.
fn check_health(issues: &mut Vec<Issue>, health: u64) -> (counts: (usize, usize))
    ensures
        issues_view(final(issues)@) == issues_view(old(issues)@) + health_issues(health),
        counts.0 == severity_count(health_issues(health), Severity::Critical),
        counts.1 == severity_count(health_issues(health), Severity::High),
        counts.1 <= 1,
{
    let ghost before = issues_view(issues@);
    let mut counts: (usize, usize) = (0, 0);
    if less_than(health, ONE_FIFTH_BITS) {
        let d = String::from_str("Agent health critically low");
        push_issue(issues, d, Severity::Critical, Vec::new());
        counts = (1, 0);
    } else if less_than(health, ONE_HALF_BITS) {
        let d = String::from_str("Agent health degraded");
        push_issue(issues, d, Severity::High, Vec::new());
        counts = (0, 1);
    } else if less_than(health, FOUR_FIFTHS_BITS) {
        let d = String::from_str("Agent health below optimal");
        push_issue(issues, d, Severity::Medium, Vec::new());
    }
    proof {
        let hv = health_issues(health);
        assert(issues_view(issues@) =~= before + hv);
        if hv.len() > 0 {
            lemma_counts_push(Seq::empty(), hv[0]);
            assert(Seq::<IssueView>::empty().push(hv[0]) =~= hv);
        }
    }
    counts
}

/// Appends the stagnation issue; returns how many high issues it appended.
fn check_stagnation(issues: &mut Vec<Issue>, state: &Vec<Ternary>) -> (high: usize)
    ensures
        issues_view(final(issues)@) == issues_view(old(issues)@) + stagnation_issues(state@),
        high == severity_count(stagnation_issues(state@), Severity::High),
        high <= 1,
{
    let ghost before = issues_view(issues@);
    let len = state.len();
    let mut high: usize = 0;
    if len > 2 && is_all_identical(state) {
        let mut d = String::from_str("State stagnation: all ");
        append_decimal(&mut d, len as u64);
        d.append(" values identical");
        let idx = index_range(len);
        push_issue(issues, d, Severity::High, idx);
        high = 1;
        proof {
            let sv = stagnation_issues(state@);
            lemma_counts_push(Seq::empty(), sv[0]);
            assert(Seq::<IssueView>::empty().push(sv[0]) =~= sv);
        }
    }
    assert(issues_view(issues@) =~= before + stagnation_issues(state@));
    high
}

/// Appends the oscillation issue.
fn check_oscillation(issues: &mut Vec<Issue>, state: &Vec<Ternary>)
    ensures
        issues_view(final(issues)@) == issues_view(old(issues)@) + oscillation_issues(state@),
{
    let ghost before = issues_view(issues@);
    let len = state.len();
    if len > 2 && is_oscillating(state) {
        let d = String::from_str("State oscillation detected");
        let idx = index_range(len);
        push_issue(issues, d, Severity::Medium, idx);
    }
    assert(issues_view(issues@) =~= before + oscillation_issues(state@));
}

/// Appends the passivity issue.
fn check_passivity(issues: &mut Vec<Issue>, state: &Vec<Ternary>)
    ensures
        issues_view(final(issues)@) == issues_view(old(issues)@) + passivity_issues(state@),
{
    let ghost before = issues_view(issues@);
    let len = state.len();
    let zero_count = count_value(state, Ternary::Zero);
    proof {
        lemma_count_prefix_bounded(state@, Ternary::Zero, state@.len() as int);
    }
    if (zero_count as u128) * 5 > (len as u128) * 4 && len > 3 {
        let mut d = String::from_str("Excessive passivity: ");
        let pct = percent_rounded(zero_count, len);
        append_decimal(&mut d, pct);
        d.append("% zero states");
        let idx = positions(state, Ternary::Zero);
        push_issue(issues, d, Severity::Low, idx);
    }
    assert(issues_view(issues@) =~= before + passivity_issues(state@));
}

/// Appends the imbalance issue.
fn check_imbalance(issues: &mut Vec<Issue>, state: &Vec<Ternary>)
    ensures
        issues_view(final(issues)@) == issues_view(old(issues)@) + imbalance_issues(state@),
{
    let ghost before = issues_view(issues@);
    let ghost s = state@;
    let len = state.len();
    let pos = count_value(state, Ternary::Positive);
    let neg = count_value(state, Ternary::Negative);
    proof {
        lemma_sum_is_count_difference(s, s.len() as int);
        lemma_count_prefix_bounded(s, Ternary::Positive, s.len() as int);
        lemma_count_prefix_bounded(s, Ternary::Negative, s.len() as int);
    }
    let (excess, majority) = if pos >= neg {
        (pos - neg, Ternary::Positive)
    } else {
        (neg - pos, Ternary::Negative)
    };
    if len > 0 && (excess as u128) * 2 > len as u128 {
        let mut d = String::from_str("State imbalance: ");
        append_decimal(&mut d, excess as u64);
        if pos > neg {
            d.append(" more positive than negative values");
        } else {
            d.append(" more negative than positive values");
        }
        let idx = positions(state, majority);
        push_issue(issues, d, Severity::Medium, idx);
    }
    assert(issues_view(issues@) =~= before + imbalance_issues(s));
}

proof fn lemma_no_rank_from(s: Seq<Ternary>, sev: Severity)
    requires
        sev == Severity::Critical || sev == Severity::High,
    ensures
        severity_count(imbalance_issues(s), sev) == 0,
        severity_count(oscillation_issues(s), sev) == 0,
        severity_count(passivity_issues(s), sev) == 0,
        sev == Severity::Critical ==> severity_count(stagnation_issues(s), sev) == 0,
{
    let o = oscillation_issues(s);
    let p = passivity_issues(s);
    let t = stagnation_issues(s);
    let m = imbalance_issues(s);
    if m.len() > 0 {
        assert(m.drop_last() =~= Seq::<IssueView>::empty());
        assert(m.last().severity == Severity::Medium);
        assert(severity_count(m.drop_last(), sev) == 0);
    }
    if o.len() > 0 {
        assert(o.drop_last() =~= Seq::<IssueView>::empty());
        assert(o.last().severity == Severity::Medium);
        assert(severity_count(o.drop_last(), sev) == 0);
    }
    if p.len() > 0 {
        assert(p.drop_last() =~= Seq::<IssueView>::empty());
        assert(p.last().severity == Severity::Low);
        assert(severity_count(p.drop_last(), sev) == 0);
    }
    if t.len() > 0 {
        assert(t.drop_last() =~= Seq::<IssueView>::empty());
        assert(t.last().severity == Severity::High);
        assert(severity_count(t.drop_last(), sev) == 0);
    }
}

impl RepairBillDiagnostic {
    /// Diagnose an agent and produce a repair bill.
    pub fn diagnose(agent: &Agent) -> (bill: RepairBill)
        ensures
            bill.agent_id == agent.id,
            issues_view(bill.issues@) == expected_issues(agent.health, agent.state@),
            bill.estimated_effort == total_effort(expected_issues(agent.health, agent.state@)),
            bill.priority == priority_of(expected_issues(agent.health, agent.state@)),
    {
        let ghost h = agent.health;
        let ghost s = agent.state@;
        let mut issues: Vec<Issue> = Vec::new();
        assert(issues_view(issues@) =~= Seq::<IssueView>::empty());

        let (critical_count, health_high) = check_health(&mut issues, agent.health);
        let stagnation_high = check_stagnation(&mut issues, &agent.state);
        let high_count = health_high + stagnation_high;
        check_oscillation(&mut issues, &agent.state);
        check_passivity(&mut issues, &agent.state);
        check_imbalance(&mut issues, &agent.state);

        proof {
            let all = expected_issues(h, s);
            assert(issues_view(issues@) =~= all);
            let a = health_issues(h);
            let b = stagnation_issues(s);
            let c = oscillation_issues(s);
            let d = passivity_issues(s);
            let e = imbalance_issues(s);
            assert(Seq::<IssueView>::empty() + a =~= a);
            lemma_severity_count_concat(a + b + c + d, e, Severity::Critical);
            lemma_severity_count_concat(a + b + c + d, e, Severity::High);
            lemma_no_rank_from(s, Severity::Critical);
            lemma_no_rank_from(s, Severity::High);
            lemma_severity_count_concat(a, b, Severity::Critical);
            lemma_severity_count_concat(a + b, c, Severity::Critical);
            lemma_severity_count_concat(a + b + c, d, Severity::Critical);
            lemma_severity_count_concat(a, b, Severity::High);
            lemma_severity_count_concat(a + b, c, Severity::High);
            lemma_severity_count_concat(a + b + c, d, Severity::High);
        }

        let estimated_effort = effort_of(&issues);
        let priority = if critical_count > 0 {
            Priority::Emergency
        } else if high_count > 1 {
            Priority::Urgent
        } else if high_count > 0 {
            Priority::Scheduled
        } else {
            Priority::Routine
        };
        RepairBill { agent_id: agent.id, issues, estimated_effort, priority }
    }
}

/// Some issue has severity `sev`.
pub open spec fn has_severity(issues: Seq<IssueView>, sev: Severity) -> bool {
    exists|i: int| 0 <= i < issues.len() && #[trigger] issues[i].severity == sev
}

/// At least two different issues have severity `sev`.
pub open spec fn has_two_of_severity(issues: Seq<IssueView>, sev: Severity) -> bool {
    exists|i: int, j: int|
        0 <= i < j < issues.len() && #[trigger] issues[i].severity == sev && #[trigger] issues[j].severity
            == sev
}

proof fn lemma_severity_count_exists(issues: Seq<IssueView>, sev: Severity)
    ensures
        severity_count(issues, sev) > 0 <==> has_severity(issues, sev),
        severity_count(issues, sev) > 1 <==> has_two_of_severity(issues, sev),
    decreases issues.len(),
{
    if issues.len() > 0 {
        let init = issues.drop_last();
        let n = issues.len() - 1;
        lemma_severity_count_exists(init, sev);
        assert forall|i: int| 0 <= i < n implies #[trigger] init[i] == issues[i] by {}
        if has_severity(issues, sev) {
            let i = choose|i: int| 0 <= i < issues.len() && #[trigger] issues[i].severity == sev;
            if i < n {
                assert(init[i].severity == sev);
            }
        }
        if has_severity(init, sev) {
            let i = choose|i: int| 0 <= i < init.len() && #[trigger] init[i].severity == sev;
            assert(issues[i].severity == sev);
            if issues[n].severity == sev {
                assert(has_two_of_severity(issues, sev));
            }
        }
        if has_two_of_severity(issues, sev) {
            let (i, j) = choose|i: int, j: int|
                0 <= i < j < issues.len() && #[trigger] issues[i].severity == sev
                    && #[trigger] issues[j].severity == sev;
            assert(init[i].severity == sev);
            if j < n {
                assert(init[j].severity == sev);
                assert(has_two_of_severity(init, sev));
            }
        }
        if has_two_of_severity(init, sev) {
            let (i, j) = choose|i: int, j: int|
                0 <= i < j < init.len() && #[trigger] init[i].severity == sev
                    && #[trigger] init[j].severity == sev;
            assert(issues[i].severity == sev && issues[j].severity == sev);
        }
    }
}

/// A bill's priority follows from the severities of its issues alone: it is
/// an emergency exactly when some issue is critical; otherwise urgent when
/// at least two issues are high, scheduled when exactly one is, and routine
/// when none is.
pub proof fn law_priority_follows_severities(health: u64, s: Seq<Ternary>)
    ensures
        ({
            let issues = expected_issues(health, s);
            let p = priority_of(issues);
            &&& p == Priority::Emergency <==> has_severity(issues, Severity::Critical)
            &&& !has_severity(issues, Severity::Critical) && has_two_of_severity(
                issues,
                Severity::High,
            ) ==> p == Priority::Urgent
            &&& !has_severity(issues, Severity::Critical) && has_severity(issues, Severity::High)
                && !has_two_of_severity(issues, Severity::High) ==> p == Priority::Scheduled
            &&& !has_severity(issues, Severity::Critical) && !has_severity(issues, Severity::High)
                ==> p == Priority::Routine
        }),
{
    let issues = expected_issues(health, s);
    lemma_severity_count_exists(issues, Severity::Critical);
    lemma_severity_count_exists(issues, Severity::High);
}

/// A bill lists a critical issue exactly when the agent's health is below
/// 0.2, so critically low health always makes the bill an emergency.
pub proof fn law_critical_iff_health_below_one_fifth(health: u64, s: Seq<Ternary>)
    ensures
        has_severity(expected_issues(health, s), Severity::Critical) <==> lt(
            health,
            ONE_FIFTH_BITS,
        ),
        lt(health, ONE_FIFTH_BITS) ==> priority_of(expected_issues(health, s))
            == Priority::Emergency,
{
    let a = health_issues(health);
    let b = stagnation_issues(s);
    let c = oscillation_issues(s);
    let d = passivity_issues(s);
    let e = imbalance_issues(s);
    let all = expected_issues(health, s);
    lemma_no_rank_from(s, Severity::Critical);
    lemma_severity_count_concat(a, b, Severity::Critical);
    lemma_severity_count_concat(a + b, c, Severity::Critical);
    lemma_severity_count_concat(a + b + c, d, Severity::Critical);
    lemma_severity_count_concat(a + b + c + d, e, Severity::Critical);
    lemma_severity_count_exists(all, Severity::Critical);
    lemma_severity_count_exists(a, Severity::Critical);
    if a.len() > 0 {
        assert(a[0].severity == Severity::Critical ==> has_severity(a, Severity::Critical));
    }
    law_priority_follows_severities(health, s);
}

proof fn lemma_positions_len(s: Seq<Ternary>, t: Ternary, n: int)
    requires
        0 <= n <= s.len(),
    ensures
        positions_prefix(s, t, n).len() == count_prefix(s, t, n),
    decreases n,
{
    if n > 0 {
        lemma_positions_len(s, t, n - 1);
    }
}

proof fn lemma_concat5_index(
    a: Seq<IssueView>,
    b: Seq<IssueView>,
    c: Seq<IssueView>,
    d: Seq<IssueView>,
    e: Seq<IssueView>,
    i: int,
)
    requires
        0 <= i < (a + b + c + d + e).len(),
    ensures
        ({
            let all = a + b + c + d + e;
            ||| i < a.len() && all[i] == a[i]
            ||| a.len() <= i < a.len() + b.len() && all[i] == b[i - a.len()]
            ||| a.len() + b.len() <= i < a.len() + b.len() + c.len() && all[i] == c[i - a.len()
                - b.len()]
            ||| a.len() + b.len() + c.len() <= i < a.len() + b.len() + c.len() + d.len() && all[i]
                == d[i - a.len() - b.len() - c.len()]
            ||| a.len() + b.len() + c.len() + d.len() <= i && all[i] == e[i - a.len() - b.len()
                - c.len() - d.len()]
        }),
{
}

/// Issues that the state raises always name the indices they concern; only
/// the health issue names none.
proof fn lemma_state_issues_name_indices(s: Seq<Ternary>)
    requires
        s.len() <= usize::MAX,
    ensures
        forall|k: int|
            0 <= k < stagnation_issues(s).len() ==> #[trigger] stagnation_issues(
                s,
            )[k].affected_indices.len() > 0,
        forall|k: int|
            0 <= k < oscillation_issues(s).len() ==> #[trigger] oscillation_issues(
                s,
            )[k].affected_indices.len() > 0,
        forall|k: int|
            0 <= k < passivity_issues(s).len() ==> #[trigger] passivity_issues(
                s,
            )[k].affected_indices.len() > 0,
        forall|k: int|
            0 <= k < imbalance_issues(s).len() ==> #[trigger] imbalance_issues(
                s,
            )[k].affected_indices.len() > 0,
{
    let n = s.len() as int;
    lemma_positions_len(s, Ternary::Zero, n);
    lemma_positions_len(s, Ternary::Positive, n);
    lemma_positions_len(s, Ternary::Negative, n);
    crate::agent::lemma_sum_is_count_difference(s, n);
}

proof fn lemma_part_severities(health: u64, s: Seq<Ternary>)
    ensures
        forall|k: int|
            0 <= k < health_issues(health).len() ==> #[trigger] health_issues(
                health,
            )[k].affected_indices.len() == 0 && health_issues(health)[k].severity != Severity::Low,
        forall|k: int|
            0 <= k < stagnation_issues(s).len() ==> #[trigger] stagnation_issues(s)[k].severity
                == Severity::High && stagnation_issues(s)[k].affected_indices == all_indices(s.len())
                && s.len() > 2 && all_identical(s),
        forall|k: int|
            0 <= k < oscillation_issues(s).len() ==> #[trigger] oscillation_issues(s)[k].severity
                == Severity::Medium,
        forall|k: int|
            0 <= k < passivity_issues(s).len() ==> #[trigger] passivity_issues(s)[k].severity
                == Severity::Low && s.len() > 3 && mostly_zero(s),
        forall|k: int|
            0 <= k < imbalance_issues(s).len() ==> #[trigger] imbalance_issues(s)[k].severity
                == Severity::Medium,
        health_issues(health).len() <= 1,
        stagnation_issues(s).len() <= 1,
        oscillation_issues(s).len() <= 1,
        passivity_issues(s).len() <= 1,
        imbalance_issues(s).len() <= 1,
{
}

/// The health score alone decides the health issue, which comes first and
/// is the only issue naming no indices: below 0.2 it is critical, from 0.2
/// to below 0.5 high, from 0.5 to below 0.8 medium, and from 0.8 on there
/// is none.
pub proof fn law_health_issue_bands(health: u64, s: Seq<Ternary>)
    requires
        s.len() <= usize::MAX,
    ensures
        ({
            let issues = expected_issues(health, s);
            &&& lt(health, FOUR_FIFTHS_BITS) ==> issues.len() > 0
                && issues[0].affected_indices.len() == 0 && issues[0].severity == if lt(
                health,
                ONE_FIFTH_BITS,
            ) {
                Severity::Critical
            } else if lt(health, ONE_HALF_BITS) {
                Severity::High
            } else {
                Severity::Medium
            }
            &&& forall|i: int|
                1 <= i < issues.len() ==> #[trigger] issues[i].affected_indices.len() > 0
            &&& !lt(health, FOUR_FIFTHS_BITS) ==> forall|i: int|
                0 <= i < issues.len() ==> #[trigger] issues[i].affected_indices.len() > 0
        }),
{
    let a = health_issues(health);
    let b = stagnation_issues(s);
    let c = oscillation_issues(s);
    let d = passivity_issues(s);
    let e = imbalance_issues(s);
    let issues = expected_issues(health, s);
    lemma_state_issues_name_indices(s);
    assert forall|i: int| 0 <= i < issues.len() && (i >= 1 || !lt(health, FOUR_FIFTHS_BITS)) implies #[trigger] issues[i].affected_indices.len()
        > 0 by {
        lemma_concat5_index(a, b, c, d, e, i);
    }
    if lt(health, FOUR_FIFTHS_BITS) {
        lemma_concat5_index(a, b, c, d, e, 0);
    }
}

/// A state of more than two values that are all identical raises a high
/// issue naming every index, and a high issue naming indices is raised only
/// for such a state.
pub proof fn law_stagnation_detected(health: u64, s: Seq<Ternary>)
    requires
        s.len() <= usize::MAX,
    ensures
        ({
            let issues = expected_issues(health, s);
            (exists|i: int|
                0 <= i < issues.len() && #[trigger] issues[i].severity == Severity::High
                    && issues[i].affected_indices.len() > 0) <==> (s.len() > 2 && forall|j: int|
                0 <= j < s.len() ==> #[trigger] s[j] == s[0])
        }),
        s.len() > 2 && (forall|j: int| 0 <= j < s.len() ==> #[trigger] s[j] == s[0]) ==> exists|i: int|
            0 <= i < expected_issues(health, s).len() && #[trigger] expected_issues(
                health,
                s,
            )[i].severity == Severity::High && expected_issues(health, s)[i].affected_indices
                == Seq::new(s.len(), |k: int| k as usize),
{
    let a = health_issues(health);
    let b = stagnation_issues(s);
    let c = oscillation_issues(s);
    let d = passivity_issues(s);
    let e = imbalance_issues(s);
    let issues = expected_issues(health, s);
    lemma_state_issues_name_indices(s);
    lemma_part_severities(health, s);
    if s.len() > 2 && (forall|j: int| 0 <= j < s.len() ==> #[trigger] s[j] == s[0]) {
        assert(all_identical(s));
        let k = a.len() as int;
        lemma_concat5_index(a, b, c, d, e, k);
        assert(issues[k] == b[0]);
        assert(issues[k].severity == Severity::High);
        assert(issues[k].affected_indices.len() > 0);
        assert(issues[k].affected_indices =~= Seq::new(s.len(), |k: int| k as usize));
    }
    if exists|i: int|
        0 <= i < issues.len() && #[trigger] issues[i].severity == Severity::High
            && issues[i].affected_indices.len() > 0 {
        let i = choose|i: int|
            0 <= i < issues.len() && #[trigger] issues[i].severity == Severity::High
                && issues[i].affected_indices.len() > 0;
        lemma_concat5_index(a, b, c, d, e, i);
        assert(b.len() > 0);
        assert(all_identical(s));
        assert forall|j: int| 0 <= j < s.len() implies #[trigger] s[j] == s[0] by {}
    }
}

pub proof fn law_passivity_detected(health: u64, s: Seq<Ternary>)
    ensures
        ({
            let issues = expected_issues(health, s);
            (exists|i: int| 0 <= i < issues.len() && #[trigger] issues[i].severity == Severity::Low)
                <==> (s.len() > 3 && 5 * count_of(s, Ternary::Zero) > 4 * s.len())
        }),
{
    let a = health_issues(health);
    let b = stagnation_issues(s);
    let c = oscillation_issues(s);
    let d = passivity_issues(s);
    let e = imbalance_issues(s);
    let issues = expected_issues(health, s);
    lemma_part_severities(health, s);
    if s.len() > 3 && 5 * count_of(s, Ternary::Zero) > 4 * s.len() {
        let k = (a.len() + b.len() + c.len()) as int;
        lemma_concat5_index(a, b, c, d, e, k);
        assert(issues[k].severity == Severity::Low);
    }
    if exists|i: int| 0 <= i < issues.len() && #[trigger] issues[i].severity == Severity::Low {
        let i = choose|i: int| 0 <= i < issues.len() && #[trigger] issues[i].severity == Severity::Low;
        lemma_concat5_index(a, b, c, d, e, i);
        assert(d.len() > 0);
    }
}

/// A nonempty state whose values all equal one nonzero value (the largest
/// possible imbalance) always raises a medium issue naming every index.
pub proof fn law_full_imbalance_detected(health: u64, s: Seq<Ternary>, t: Ternary)
    requires
        s.len() > 0,
        s.len() <= usize::MAX,
        t != Ternary::Zero,
        forall|j: int| 0 <= j < s.len() ==> #[trigger] s[j] == t,
    ensures
        exists|i: int|
            0 <= i < expected_issues(health, s).len() && #[trigger] expected_issues(
                health,
                s,
            )[i].severity == Severity::Medium && expected_issues(health, s)[i].affected_indices.len()
                == s.len(),
{
    let a = health_issues(health);
    let b = stagnation_issues(s);
    let c = oscillation_issues(s);
    let d = passivity_issues(s);
    let e = imbalance_issues(s);
    let issues = expected_issues(health, s);
    let n = s.len() as int;
    lemma_full_count(s, t, n);
    lemma_positions_len(s, t, n);
    crate::agent::lemma_sum_is_count_difference(s, n);
    crate::ternary::lemma_counts_partition(s, n);
    lemma_part_severities(health, s);
    assert(imbalanced(s));
    let k = (a.len() + b.len() + c.len() + d.len()) as int;
    lemma_concat5_index(a, b, c, d, e, k);
    assert(issues[k] == e[0]);
    assert(issues[k].severity == Severity::Medium);
}

proof fn lemma_full_count(s: Seq<Ternary>, t: Ternary, n: int)
    requires
        0 <= n <= s.len(),
        forall|j: int| 0 <= j < s.len() ==> #[trigger] s[j] == t,
    ensures
        count_prefix(s, t, n) == n,
    decreases n,
{
    if n > 0 {
        lemma_full_count(s, t, n - 1);
    }
}

} // verus!
