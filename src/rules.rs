//! The fixed, ordered heuristic rules, evaluated once over the final
//! counters. Each rule yields at most one issue.
use vstd::prelude::*;

verus! {

#[derive(Clone, Copy, Debug, PartialEq, Eq, Structural)]
pub enum Severity {
    Critical,
    Warn,
    Info,
}

/// Which rule an issue comes from.
#[derive(Clone, Copy, Debug, PartialEq, Eq, Structural)]
pub enum IssueKind {
    SuspiciousPorts,
    CleartextCredentials,
    TcpRetransmissions,
    TcpZeroWindow,
    DeprecatedTls,
    IpFragmentation,
}

/// One finding of the rule engine, carrying the counter that triggered it.
#[derive(Clone, Copy, Debug, PartialEq, Eq, Structural)]
pub struct Issue {
    pub severity: Severity,
    pub kind: IssueKind,
    pub count: u64,
    /// Capture time the issue refers to, in microseconds; the aggregate rules
    /// refer to none.
    pub timestamp: Option<u64>,
}

/// The aggregate counters the rules read.
#[derive(Clone, Copy, Debug, PartialEq, Eq, Structural)]
pub struct RuleCounters {
    pub suspicious_ports: u64,
    pub cleartext_auth: u64,
    pub retransmissions: u64,
    pub zero_window: u64,
    pub deprecated_tls: u64,
    pub fragments: u64,
}

/// Retransmissions above this many raise an issue.
pub const RETRANSMISSION_WARN: u64 = 10;
/// Retransmissions above this many make the issue critical.
pub const RETRANSMISSION_CRITICAL: u64 = 100;

pub open spec fn issue(severity: Severity, kind: IssueKind, count: u64) -> Issue {
    Issue { severity, kind, count, timestamp: None }
}

/// `[i]` when the rule fires, else nothing.
pub open spec fn fire(cond: bool, i: Issue) -> Seq<Issue> {
    if cond { seq![i] } else { Seq::empty() }
}

pub open spec fn retransmission_severity(n: u64) -> Severity {
    if n > RETRANSMISSION_CRITICAL { Severity::Critical } else { Severity::Warn }
}

/// The issues that counters `c` raise, in rule order.
pub open spec fn issues_spec(c: RuleCounters) -> Seq<Issue> {
    fire(c.suspicious_ports > 0, issue(Severity::Critical, IssueKind::SuspiciousPorts, c.suspicious_ports))
    + fire(c.cleartext_auth > 0, issue(Severity::Critical, IssueKind::CleartextCredentials, c.cleartext_auth))
    + fire(c.retransmissions > RETRANSMISSION_WARN, issue(retransmission_severity(c.retransmissions), IssueKind::TcpRetransmissions, c.retransmissions))
    + fire(c.zero_window > 0, issue(Severity::Critical, IssueKind::TcpZeroWindow, c.zero_window))
    + fire(c.deprecated_tls > 0, issue(Severity::Warn, IssueKind::DeprecatedTls, c.deprecated_tls))
    + fire(c.fragments > 0, issue(Severity::Warn, IssueKind::IpFragmentation, c.fragments))
}

fn push_if(v: &mut Vec<Issue>, cond: bool, i: Issue)
    ensures
        final(v)@ == old(v)@ + fire(cond, i),
{
    if cond {
        v.push(i);
        assert(final(v)@ =~= old(v)@ + seq![i]);
    } else {
        assert(old(v)@ + Seq::<Issue>::empty() =~= old(v)@);
    }
}

/// Runs every rule over `c`, in the fixed order.
pub fn evaluate(c: &RuleCounters) -> (r: Vec<Issue>)
    ensures
        r@ == issues_spec(*c),
{
    let mut v: Vec<Issue> = Vec::new();
    push_if(&mut v, c.suspicious_ports > 0,
        Issue { severity: Severity::Critical, kind: IssueKind::SuspiciousPorts, count: c.suspicious_ports, timestamp: None });
    push_if(&mut v, c.cleartext_auth > 0,
        Issue { severity: Severity::Critical, kind: IssueKind::CleartextCredentials, count: c.cleartext_auth, timestamp: None });
    let sev = if c.retransmissions > RETRANSMISSION_CRITICAL { Severity::Critical } else { Severity::Warn };
    push_if(&mut v, c.retransmissions > RETRANSMISSION_WARN,
        Issue { severity: sev, kind: IssueKind::TcpRetransmissions, count: c.retransmissions, timestamp: None });
    push_if(&mut v, c.zero_window > 0,
        Issue { severity: Severity::Critical, kind: IssueKind::TcpZeroWindow, count: c.zero_window, timestamp: None });
    push_if(&mut v, c.deprecated_tls > 0,
        Issue { severity: Severity::Warn, kind: IssueKind::DeprecatedTls, count: c.deprecated_tls, timestamp: None });
    push_if(&mut v, c.fragments > 0,
        Issue { severity: Severity::Warn, kind: IssueKind::IpFragmentation, count: c.fragments, timestamp: None });
    assert(v@ =~= issues_spec(*c));
    v
}

/// Suspicious-port activity raises exactly one critical issue when its count
/// is nonzero, and none when it is zero.
pub proof fn lemma_suspicious_port_rule(c: RuleCounters)
    ensures
        c.suspicious_ports > 0 ==> issues_spec(c)[0] == issue(Severity::Critical, IssueKind::SuspiciousPorts, c.suspicious_ports),
        c.suspicious_ports > 0 <==> exists|k: int| 0 <= k < issues_spec(c).len() && issues_spec(c)[k].kind == IssueKind::SuspiciousPorts,
        forall|k: int| 1 <= k < issues_spec(c).len() ==> issues_spec(c)[k].kind != IssueKind::SuspiciousPorts,
{
    lemma_issue_kinds(c);
}

proof fn lemma_issue_kinds(c: RuleCounters)
    ensures
        forall|k: int| #![trigger issues_spec(c)[k]] 0 <= k < issues_spec(c).len() ==> {
            let i = issues_spec(c)[k];
            &&& i.kind == IssueKind::SuspiciousPorts ==> k == 0 && c.suspicious_ports > 0
            &&& i.kind == IssueKind::TcpRetransmissions ==> c.retransmissions > RETRANSMISSION_WARN
                && i == issue(retransmission_severity(c.retransmissions), IssueKind::TcpRetransmissions, c.retransmissions)
        },
        c.suspicious_ports > 0 ==> issues_spec(c)[0] == issue(Severity::Critical, IssueKind::SuspiciousPorts, c.suspicious_ports),
        c.retransmissions > RETRANSMISSION_WARN ==> exists|k: int| 0 <= k < issues_spec(c).len() && issues_spec(c)[k].kind == IssueKind::TcpRetransmissions,
{
    let a = fire(c.suspicious_ports > 0, issue(Severity::Critical, IssueKind::SuspiciousPorts, c.suspicious_ports));
    let b = fire(c.cleartext_auth > 0, issue(Severity::Critical, IssueKind::CleartextCredentials, c.cleartext_auth));
    let r = fire(c.retransmissions > RETRANSMISSION_WARN, issue(retransmission_severity(c.retransmissions), IssueKind::TcpRetransmissions, c.retransmissions));
    let z = fire(c.zero_window > 0, issue(Severity::Critical, IssueKind::TcpZeroWindow, c.zero_window));
    let t = fire(c.deprecated_tls > 0, issue(Severity::Warn, IssueKind::DeprecatedTls, c.deprecated_tls));
    let f = fire(c.fragments > 0, issue(Severity::Warn, IssueKind::IpFragmentation, c.fragments));
    let s = issues_spec(c);
    assert(s == a + b + r + z + t + f);
    assert forall|k: int| #![trigger s[k]] 0 <= k < s.len() implies {
        let i = s[k];
        &&& i.kind == IssueKind::SuspiciousPorts ==> k == 0 && c.suspicious_ports > 0
        &&& i.kind == IssueKind::TcpRetransmissions ==> c.retransmissions > RETRANSMISSION_WARN
            && i == issue(retransmission_severity(c.retransmissions), IssueKind::TcpRetransmissions, c.retransmissions)
    } by {
        if k < a.len() {
        } else if k < a.len() + b.len() {
        } else if k < a.len() + b.len() + r.len() {
            assert(s[k] == r[k - a.len() - b.len()]);
        } else if k < a.len() + b.len() + r.len() + z.len() {
        } else if k < a.len() + b.len() + r.len() + z.len() + t.len() {
        } else {
        }
    }
    if c.retransmissions > RETRANSMISSION_WARN {
        let k = a.len() + b.len();
        assert(s[k as int] == r[0]);
    }
}

/// Retransmissions raise one issue exactly when there are more than ten:
/// a warning up to a hundred, critical beyond.
pub proof fn lemma_retransmission_rule(c: RuleCounters)
    ensures
        c.retransmissions > RETRANSMISSION_WARN <==> exists|k: int| 0 <= k < issues_spec(c).len() && issues_spec(c)[k].kind == IssueKind::TcpRetransmissions,
        forall|k: int| 0 <= k < issues_spec(c).len() && issues_spec(c)[k].kind == IssueKind::TcpRetransmissions ==> {
            &&& issues_spec(c)[k].count == c.retransmissions
            &&& issues_spec(c)[k].severity == (if c.retransmissions > RETRANSMISSION_CRITICAL { Severity::Critical } else { Severity::Warn })
        },
{
    lemma_issue_kinds(c);
}

} // verus!
