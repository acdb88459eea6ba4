use vstd::prelude::*;
use vstd::string::StrSliceExecFns;
use crate::MatchType;
use crate::database::{str_eq, DeviceDatabase, DeviceNode};

verus! {

/// Characters that end a token of a User-Agent.
pub open spec fn is_sep(c: char) -> bool {
    c == ' ' || c == '/' || c == ';' || c == '(' || c == ')'
}

/// The position of the first separator at or after `i`, or the length.
pub open spec fn sep_from(s: Seq<char>, i: int) -> int
    decreases s.len() - i,
{
    if i >= s.len() {
        s.len() as int
    } else if is_sep(s[i]) {
        i
    } else {
        sep_from(s, i + 1)
    }
}

/// The leading token of a User-Agent: its characters before the first separator.
pub open spec fn token(s: Seq<char>) -> Seq<char> {
    s.take(sep_from(s, 0))
}

/// A device signature that is the User-Agent verbatim.
pub open spec fn exact_fit(sig: Seq<char>, ua: Seq<char>) -> bool {
    sig == ua
}

/// A device signature that is the User-Agent with trailing tokens cut off.
pub open spec fn conclusive_fit(sig: Seq<char>, ua: Seq<char>) -> bool {
    0 < sig.len() < ua.len() && ua.take(sig.len() as int) == sig && is_sep(ua[sig.len() as int])
}

/// A device signature of the same family: both start with the same non-empty token.
pub open spec fn recovery_fit(sig: Seq<char>, ua: Seq<char>) -> bool {
    token(sig).len() > 0 && token(sig) == token(ua)
}

/// The first of the first `n` devices whose signature fits `ua` by `fit`.
pub open spec fn first_fit(
    nodes: Seq<DeviceNode>,
    ua: Seq<char>,
    n: int,
    fit: spec_fn(Seq<char>, Seq<char>) -> bool,
) -> Option<int>
    decreases n,
{
    if n <= 0 {
        None
    } else {
        match first_fit(nodes, ua, n - 1, fit) {
            Some(i) => Some(i),
            None => if fit(nodes[n - 1].user_agent@, ua) {
                Some(n - 1)
            } else {
                None
            },
        }
    }
}

/// Among the first `n` devices, the one whose signature is the longest conclusive fit
/// (the earliest of equally long ones).
pub open spec fn best_conclusive(nodes: Seq<DeviceNode>, ua: Seq<char>, n: int) -> Option<int>
    decreases n,
{
    if n <= 0 {
        None
    } else {
        let b = best_conclusive(nodes, ua, n - 1);
        if conclusive_fit(nodes[n - 1].user_agent@, ua) && (b is None || nodes[b->0].user_agent@.len()
            < nodes[n - 1].user_agent@.len()) {
            Some(n - 1)
        } else {
            b
        }
    }
}

/// The device a User-Agent matches, and how: exact, conclusive, recovery, else the root.
pub open spec fn match_result(db: DeviceDatabase, ua: Seq<char>) -> (int, MatchType) {
    let nodes = db.nodes@;
    let n = nodes.len() as int;
    match first_fit(nodes, ua, n, |s: Seq<char>, u: Seq<char>| exact_fit(s, u)) {
        Some(i) => (i, MatchType::WurflMatchTypeExact),
        None => match best_conclusive(nodes, ua, n) {
            Some(i) => (i, MatchType::WurflMatchTypeConclusive),
            None => match first_fit(nodes, ua, n, |s: Seq<char>, u: Seq<char>| recovery_fit(s, u)) {
                Some(i) => (i, MatchType::WurflMatchTypeRecovery),
                None => (db.root as int, MatchType::WurflMatchTypeCatchall),
            },
        },
    }
}

pub fn is_separator(c: char) -> (r: bool)
    ensures
        r == is_sep(c),
{
    c == ' ' || c == '/' || c == ';' || c == '(' || c == ')'
}

/// The number of characters of the leading token of `s`.
pub fn token_end(s: &str) -> (r: usize)
    ensures
        r == sep_from(s@, 0),
        r <= s@.len(),
{
    let n = s.unicode_len();
    let mut i: usize = 0;
    while i < n
        invariant
            n == s@.len(),
            i <= n,
            sep_from(s@, 0) == sep_from(s@, i as int),
        decreases n - i,
    {
        if is_separator(s.get_char(i)) {
            return i;
        }
        i = i + 1;
    }
    i
}

pub fn is_exact_fit(sig: &str, ua: &str) -> (r: bool)
    ensures
        r == exact_fit(sig@, ua@),
{
    str_eq(sig, ua)
}

pub fn is_conclusive_fit(sig: &str, ua: &str) -> (r: bool)
    ensures
        r == conclusive_fit(sig@, ua@),
{
    let k = sig.unicode_len();
    let n = ua.unicode_len();
    if k == 0 || k >= n {
        return false;
    }
    let head = ua.substring_char(0, k);
    assert(ua@.subrange(0, k as int) == ua@.take(k as int));
    str_eq(head, sig) && is_separator(ua.get_char(k))
}

pub fn is_recovery_fit(sig: &str, ua: &str) -> (r: bool)
    ensures
        r == recovery_fit(sig@, ua@),
{
    let a = token_end(sig);
    let b = token_end(ua);
    if a == 0 {
        return false;
    }
    let ta = sig.substring_char(0, a);
    let tb = ua.substring_char(0, b);
    assert(sig@.subrange(0, a as int) == token(sig@));
    assert(ua@.subrange(0, b as int) == token(ua@));
    str_eq(ta, tb)
}

/// Finds the device that a User-Agent matches, and how.
pub fn match_user_agent(db: &DeviceDatabase, ua: &str) -> (r: (usize, MatchType))
    requires
        db.wf(),
    ensures
        (r.0 as int, r.1) == match_result(*db, ua@),
        r.0 < db.nodes@.len(),
{
    let n = db.nodes.len();
    let ghost nodes = db.nodes@;
    let ghost ex = |s: Seq<char>, u: Seq<char>| exact_fit(s, u);
    let ghost rec = |s: Seq<char>, u: Seq<char>| recovery_fit(s, u);
    let mut i: usize = 0;
    while i < n
        invariant
            n == nodes.len(),
            nodes == db.nodes@,
            i <= n,
            ex == (|s: Seq<char>, u: Seq<char>| exact_fit(s, u)),
            first_fit(nodes, ua@, i as int, ex) is None,
        decreases n - i,
    {
        if is_exact_fit(db.nodes[i].user_agent.as_str(), ua) {
            assert(first_fit(nodes, ua@, i + 1, ex) == Some(i as int));
            proof {
                lemma_first_fit_stable(nodes, ua@, (i + 1) as int, n as int, ex);
            }
            return (i, MatchType::WurflMatchTypeExact);
        }
        i = i + 1;
    }
    let mut best: Option<usize> = None;
    let mut i: usize = 0;
    while i < n
        invariant
            n == nodes.len(),
            nodes == db.nodes@,
            i <= n,
            best == (match best_conclusive(nodes, ua@, i as int) {
                Some(b) => Some(b as usize),
                None => None::<usize>,
            }),
            best matches Some(b) ==> b < i,
            ex == (|s: Seq<char>, u: Seq<char>| exact_fit(s, u)),
            first_fit(nodes, ua@, n as int, ex) is None,
        decreases n - i,
    {
        let sig = db.nodes[i].user_agent.as_str();
        assert(sig@ == nodes[i as int].user_agent@);
        let ghost prev = best_conclusive(nodes, ua@, i as int);
        proof {
            lemma_best_in_range(nodes, ua@, i as int);
        }
        assert(best_conclusive(nodes, ua@, i + 1) == (if conclusive_fit(nodes[i as int].user_agent@, ua@)
            && (prev is None || nodes[prev->0].user_agent@.len() < nodes[i as int].user_agent@.len()) {
            Some(i as int)
        } else {
            prev
        }));
        if is_conclusive_fit(sig, ua) {
            match best {
                None => {
                    best = Some(i);
                },
                Some(b) => {
                    assert(db.nodes[b as int].user_agent@ == nodes[b as int].user_agent@);
                    if db.nodes[b].user_agent.as_str().unicode_len() < sig.unicode_len() {
                        best = Some(i);
                    }
                },
            }
        }
        i = i + 1;
    }
    proof {
        lemma_best_in_range(nodes, ua@, n as int);
    }
    if let Some(b) = best {
        return (b, MatchType::WurflMatchTypeConclusive);
    }
    let mut i: usize = 0;
    while i < n
        invariant
            n == nodes.len(),
            nodes == db.nodes@,
            i <= n,
            rec == (|s: Seq<char>, u: Seq<char>| recovery_fit(s, u)),
            first_fit(nodes, ua@, i as int, rec) is None,
            ex == (|s: Seq<char>, u: Seq<char>| exact_fit(s, u)),
            first_fit(nodes, ua@, n as int, ex) is None,
            best_conclusive(nodes, ua@, n as int) is None,
            db.wf(),
        decreases n - i,
    {
        if is_recovery_fit(db.nodes[i].user_agent.as_str(), ua) {
            assert(first_fit(nodes, ua@, i + 1, rec) == Some(i as int));
            proof {
                lemma_first_fit_stable(nodes, ua@, (i + 1) as int, n as int, rec);
            }
            return (i, MatchType::WurflMatchTypeRecovery);
        }
        i = i + 1;
    }
    (db.root, MatchType::WurflMatchTypeCatchall)
}

proof fn lemma_best_in_range(nodes: Seq<DeviceNode>, ua: Seq<char>, n: int)
    ensures
        best_conclusive(nodes, ua, n) matches Some(b) ==> 0 <= b < n,
    decreases n,
{
    if n > 0 {
        lemma_best_in_range(nodes, ua, n - 1);
    }
}

proof fn lemma_no_fit(
    nodes: Seq<DeviceNode>,
    ua: Seq<char>,
    n: int,
    fit: spec_fn(Seq<char>, Seq<char>) -> bool,
)
    requires
        forall|i: int| 0 <= i < n ==> !fit(#[trigger] nodes[i].user_agent@, ua),
    ensures
        first_fit(nodes, ua, n, fit) is None,
    decreases n,
{
    if n > 0 {
        lemma_no_fit(nodes, ua, n - 1, fit);
    }
}

proof fn lemma_no_conclusive(nodes: Seq<DeviceNode>, ua: Seq<char>, n: int)
    requires
        forall|i: int| 0 <= i < n ==> !conclusive_fit(#[trigger] nodes[i].user_agent@, ua),
    ensures
        best_conclusive(nodes, ua, n) is None,
    decreases n,
{
    if n > 0 {
        lemma_no_conclusive(nodes, ua, n - 1);
    }
}

/// Catch-all: a User-Agent that no device signature fits, exactly, conclusively or by
/// family, matches the root of the database, reported as a catch-all.
pub proof fn lemma_unmatched_is_catchall(db: DeviceDatabase, ua: Seq<char>)
    requires
        forall|i: int|
            0 <= i < db.nodes@.len() ==> {
                let sig = #[trigger] db.nodes@[i].user_agent@;
                !exact_fit(sig, ua) && !conclusive_fit(sig, ua) && !recovery_fit(sig, ua)
            },
    ensures
        match_result(db, ua) == (db.root as int, MatchType::WurflMatchTypeCatchall),
{
    let nodes = db.nodes@;
    let n = nodes.len() as int;
    let ex = |s: Seq<char>, u: Seq<char>| exact_fit(s, u);
    let rec = |s: Seq<char>, u: Seq<char>| recovery_fit(s, u);
    lemma_no_fit(nodes, ua, n, ex);
    lemma_no_conclusive(nodes, ua, n);
    lemma_no_fit(nodes, ua, n, rec);
}

/// A first fit among fewer devices stays the first fit among more.
proof fn lemma_first_fit_stable(
    nodes: Seq<DeviceNode>,
    ua: Seq<char>,
    m: int,
    n: int,
    fit: spec_fn(Seq<char>, Seq<char>) -> bool,
)
    requires
        m <= n,
        first_fit(nodes, ua, m, fit) is Some,
    ensures
        first_fit(nodes, ua, n, fit) == first_fit(nodes, ua, m, fit),
    decreases n - m,
{
    if n > m {
        lemma_first_fit_stable(nodes, ua, m, n - 1, fit);
    }
}

} // verus!
