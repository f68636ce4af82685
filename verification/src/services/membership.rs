//! Decisions behind the member lifecycle writes: whether a name update is a
//! change worth logging, and how a stale stay is closed.

use vstd::prelude::*;

use crate::commands::opt_chars;
use crate::services::audit_log::{classifies, stale_reason, AuditEntry};
use crate::services::search::StoredNames;
use crate::services::stats::DepartureType;
use crate::text::str_eq;

verus! {

/// The names reported for a member differ from the stored ones; a member
/// not on record always counts as changed.
pub open spec fn names_differ(
    current: Option<(Option<Seq<char>>, Option<Seq<char>>, Option<Seq<char>>)>,
    account_username: Seq<char>,
    display_name: Option<Seq<char>>,
    server_nickname: Option<Seq<char>>,
) -> bool {
    match current {
        Some(r) => r.0 != Some(account_username) || r.1 != display_name || r.2 != server_nickname,
        None => true,
    }
}

/// The stored names' text.
pub open spec fn names_view(n: StoredNames) -> (Option<Seq<char>>, Option<Seq<char>>, Option<Seq<char>>) {
    (opt_chars(n.0), opt_chars(n.1), opt_chars(n.2))
}

/// The stored names' text, when the member is on record.
pub open spec fn current_view(c: Option<StoredNames>) -> Option<(Option<Seq<char>>, Option<Seq<char>>, Option<Seq<char>>)> {
    match c {
        Some(n) => Some(names_view(n)),
        None => None,
    }
}

fn same_opt(a: &Option<String>, b: &Option<String>) -> (r: bool)
    ensures
        r == (opt_chars(*a) == opt_chars(*b)),
{
    match (a, b) {
        (Some(x), Some(y)) => str_eq(x.as_str(), y.as_str()),
        (None, None) => true,
        _ => false,
    }
}

/// Whether a name update changes anything compared with what is stored.
pub fn names_changed(
    current: &Option<StoredNames>,
    account_username: &str,
    display_name: &Option<String>,
    server_nickname: &Option<String>,
) -> (r: bool)
    ensures
        r == names_differ(current_view(*current), account_username@, opt_chars(*display_name), opt_chars(*server_nickname)),
{
    match current {
        Some(names) => {
            let same_account = match &names.0 {
                Some(a) => str_eq(a.as_str(), account_username),
                None => false,
            };
            !same_account || !same_opt(&names.1, display_name) || !same_opt(&names.2, server_nickname)
        },
        None => true,
    }
}

/// Reporting exactly the stored names is no change; any one name that
/// differs (account username, display name or server nickname, each alone)
/// is a change; and a member not on record always counts as changed.
pub proof fn lemma_any_name_difference_counts(
    account: Seq<char>,
    display: Option<Seq<char>>,
    nick: Option<Seq<char>>,
    other_account: Option<Seq<char>>,
    other_display: Option<Seq<char>>,
    other_nick: Option<Seq<char>>,
)
    ensures
        !names_differ(Some((Some(account), display, nick)), account, display, nick),
        other_account != Some(account) ==> names_differ(Some((other_account, display, nick)), account, display, nick),
        other_display != display ==> names_differ(Some((Some(account), other_display, nick)), account, display, nick),
        other_nick != nick ==> names_differ(Some((Some(account), display, other_nick)), account, display, nick),
        names_differ(None, account, display, nick),
{
}

/// How a stale stay is closed from its audit-log classification
/// `(banned, kicked)`: a ban, a kick, or (unclassified) a leave.
pub open spec fn stale_departure_type(reason: Option<(bool, bool)>) -> DepartureType {
    match reason {
        Some(r) => if r.0 {
            DepartureType::Ban
        } else if r.1 {
            DepartureType::Kick
        } else {
            DepartureType::Leave
        },
        None => DepartureType::Leave,
    }
}

/// The first classification listed for `user`, if any.
pub open spec fn classification_of(reasons: Seq<(String, (bool, bool))>, user: Seq<char>) -> Option<(bool, bool)>
    decreases reasons.len(),
{
    if reasons.len() == 0 {
        None
    } else if reasons[0].0@ == user {
        Some(reasons[0].1)
    } else {
        classification_of(reasons.drop_first(), user)
    }
}

/// Look up the classification of a stale user.
pub fn find_classification(reasons: &[(String, (bool, bool))], user: &str) -> (r: Option<(bool, bool)>)
    ensures
        r == classification_of(reasons@, user@),
{
    let mut i: usize = 0;
    proof {
        assert(reasons@.subrange(0, reasons@.len() as int) =~= reasons@);
    }
    while i < reasons.len()
        invariant
            i <= reasons@.len(),
            classification_of(reasons@, user@) == classification_of(
                reasons@.subrange(i as int, reasons@.len() as int),
                user@,
            ),
        decreases reasons@.len() - i,
    {
        proof {
            let rest = reasons@.subrange(i as int, reasons@.len() as int);
            assert(rest[0] == reasons@[i as int]);
            assert(rest.drop_first() =~= reasons@.subrange(i + 1, reasons@.len() as int));
        }
        if str_eq(reasons[i].0.as_str(), user) {
            return Some(reasons[i].1);
        }
        i = i + 1;
    }
    None
}

/// The departure recorded when closing the stale stay of `user`.
pub fn stale_departure(reasons: &[(String, (bool, bool))], user: &str) -> (r: DepartureType)
    ensures
        r == stale_departure_type(classification_of(reasons@, user@)),
{
    match find_classification(reasons, user) {
        Some((banned, kicked)) => if banned {
            DepartureType::Ban
        } else if kicked {
            DepartureType::Kick
        } else {
            DepartureType::Leave
        },
        None => DepartureType::Leave,
    }
}

proof fn lemma_classification_at(s: Seq<(String, (bool, bool))>, user: Seq<char>, i: int)
    requires
        0 <= i < s.len(),
        s[i].0@ == user,
        forall|j: int| 0 <= j < i ==> (#[trigger] s[j]).0@ != user,
    ensures
        classification_of(s, user) == Some(s[i].1),
    decreases i,
{
    if i > 0 {
        let t = s.drop_first();
        assert forall|j: int| 0 <= j < i - 1 implies (#[trigger] t[j]).0@ != user by {
            assert(t[j] == s[j + 1]);
        }
        assert(s[0].0@ != user);
        lemma_classification_at(t, user, i - 1);
    }
}

proof fn lemma_classification_absent(s: Seq<(String, (bool, bool))>, user: Seq<char>)
    requires
        forall|j: int| 0 <= j < s.len() ==> (#[trigger] s[j]).0@ != user,
    ensures
        classification_of(s, user) is None,
    decreases s.len(),
{
    if s.len() > 0 {
        let t = s.drop_first();
        assert forall|j: int| 0 <= j < t.len() implies (#[trigger] t[j]).0@ != user by {
            assert(t[j] == s[j + 1]);
        }
        assert(s[0].0@ != user);
        lemma_classification_absent(t, user);
    }
}

/// Closing stale stays follows the audit log: when `reasons` is a
/// classification of the stale users (as `classify_stale_entries` returns
/// it), the departure recorded for any user is the one its audit-log
/// entries give, and a user the log does not name is recorded as a leave.
pub proof fn lemma_stale_departure_follows_audit(
    reasons: Seq<(String, (bool, bool))>,
    bans: Option<Seq<AuditEntry>>,
    kicks: Option<Seq<AuditEntry>>,
    stale: Seq<Seq<char>>,
    now: int,
    max_age: Option<i64>,
    user: Seq<char>,
)
    requires
        classifies(reasons, bans, kicks, stale, now, max_age),
    ensures
        classification_of(reasons, user) == stale_reason(bans, kicks, stale, user, now, max_age),
        stale_departure_type(classification_of(reasons, user)) == stale_departure_type(
            stale_reason(bans, kicks, stale, user, now, max_age),
        ),
{
    if exists|i: int| 0 <= i < reasons.len() && (#[trigger] reasons[i]).0@ == user {
        let i = choose|i: int| 0 <= i < reasons.len() && (#[trigger] reasons[i]).0@ == user;
        assert forall|j: int| 0 <= j < i implies (#[trigger] reasons[j]).0@ != user by {
            if reasons[j].0@ == user {
                assert(reasons[j].0@ == reasons[i].0@);
            }
        }
        lemma_classification_at(reasons, user, i);
    } else {
        lemma_classification_absent(reasons, user);
    }
}

} // verus!
