//! Classifying member departures from audit-log entries: a single leave
//! right after it happened, and stale stays found at startup.

use vstd::prelude::*;

use crate::state::{banned_within, RECENT_BAN_WINDOW_SECS};
use crate::text::{dec_nat, push_u64, str_eq};

verus! {

/// Why a member left the server.
#[derive(Debug, Clone, PartialEq, Eq)]
pub enum RemovalReason {
    Left,
    Kicked { moderator_id: Option<u64>, reason: Option<String> },
    Banned { moderator_id: Option<u64>, reason: Option<String> },
}

/// The kind of an audit-log entry, as far as departures go.
#[derive(Debug, Clone, Copy, PartialEq, Eq)]
pub enum AuditAction {
    BanAdd,
    Kick,
    Other,
}

/// An audit-log entry, as far as departures go.
#[derive(Debug, Clone)]
pub struct AuditEntry {
    /// The user acted on, if any.
    pub target_id: Option<u64>,
    /// Unix time (seconds) the entry was created.
    pub created_at: i64,
    pub action: AuditAction,
    /// The moderator who acted.
    pub user_id: u64,
    pub reason: Option<String>,
}

/// How far (seconds) an entry may be from now to describe a leave that just
/// happened.
pub const RECENT_ENTRY_SECS: i64 = 30;

/// How far (seconds) an entry may be from now to describe a departure found
/// at startup.
pub const STALE_ENTRY_SECS: i64 = 21600;

/// The absolute difference of two times.
pub open spec fn time_distance(a: int, b: int) -> int {
    if a >= b {
        a - b
    } else {
        b - a
    }
}

/// The entry targets `user_id` and was created at most 30 s from `now`.
pub open spec fn recent_entry_for(e: AuditEntry, user_id: u64, now: int) -> bool {
    e.target_id == Some(user_id) && time_distance(now, e.created_at as int) <= RECENT_ENTRY_SECS
}

/// What an entry says of a departure: a ban or a kick by its moderator, or
/// nothing for another action.
pub open spec fn entry_reason(e: AuditEntry) -> Option<RemovalReason> {
    match e.action {
        AuditAction::BanAdd => Some(RemovalReason::Banned { moderator_id: Some(e.user_id), reason: e.reason }),
        AuditAction::Kick => Some(RemovalReason::Kicked { moderator_id: Some(e.user_id), reason: e.reason }),
        AuditAction::Other => None,
    }
}

/// The first entry, in order, that is recent for `user_id` and is a ban or
/// a kick decides; other entries are passed over.
pub open spec fn scan_reason(entries: Seq<AuditEntry>, user_id: u64, now: int) -> Option<RemovalReason>
    decreases entries.len(),
{
    if entries.len() == 0 {
        None
    } else if recent_entry_for(entries[0], user_id, now) && entry_reason(entries[0]) is Some {
        entry_reason(entries[0])
    } else {
        scan_reason(entries.drop_first(), user_id, now)
    }
}

fn copy_reason_text(o: &Option<String>) -> (r: Option<String>)
    ensures
        r == *o,
{
    match o {
        Some(s) => Some(s.clone()),
        None => None,
    }
}

fn distance(a: i64, b: i64) -> (r: i128)
    ensures
        r as int == time_distance(a as int, b as int),
{
    let d = (a as i128) - (b as i128);
    if d >= 0 { d } else { 0 - d }
}

/// Scan one batch of audit-log entries (newest first, as Discord lists
/// them) for a recent ban or kick of `user_id`.
pub fn scan_removal_entries(entries: &[AuditEntry], user_id: u64, now: i64) -> (r: Option<RemovalReason>)
    ensures
        r == scan_reason(entries@, user_id, now as int),
{
    let mut i: usize = 0;
    proof {
        assert(entries@.subrange(0, entries@.len() as int) =~= entries@);
    }
    while i < entries.len()
        invariant
            i <= entries@.len(),
            scan_reason(entries@, user_id, now as int) == scan_reason(
                entries@.subrange(i as int, entries@.len() as int),
                user_id,
                now as int,
            ),
        decreases entries@.len() - i,
    {
        let e = &entries[i];
        let ghost rest = entries@.subrange(i as int, entries@.len() as int);
        proof {
            assert(rest[0] == entries@[i as int]);
            assert(rest.drop_first() =~= entries@.subrange(i + 1, entries@.len() as int));
        }
        let matches = match e.target_id {
            Some(t) => t == user_id && distance(now, e.created_at) <= RECENT_ENTRY_SECS as i128,
            None => false,
        };
        if matches {
            match e.action {
                AuditAction::BanAdd => {
                    return Some(
                        RemovalReason::Banned {
                            moderator_id: Some(e.user_id),
                            reason: copy_reason_text(&e.reason),
                        },
                    );
                },
                AuditAction::Kick => {
                    return Some(
                        RemovalReason::Kicked {
                            moderator_id: Some(e.user_id),
                            reason: copy_reason_text(&e.reason),
                        },
                    );
                },
                AuditAction::Other => {},
            }
        }
        i = i + 1;
    }
    proof {
        assert(entries@.subrange(entries@.len() as int, entries@.len() as int) =~= Seq::<AuditEntry>::empty());
    }
    None
}

/// Where a look through the audit log stands after the ban entries.
#[derive(Debug, Clone, PartialEq, Eq)]
pub enum AuditProgress {
    /// The search is over, with this result.
    Decided(Option<RemovalReason>),
    /// Nothing found yet: look at the kick entries.
    FetchKicks,
}

/// What the audit log says of a departure, from the ban entries and then
/// the kick entries (each `None` when it could not be fetched): a batch
/// that could not be fetched ends the search with nothing.
pub open spec fn audit_reason(
    bans: Option<Seq<AuditEntry>>,
    kicks: Option<Seq<AuditEntry>>,
    user_id: u64,
    now: int,
) -> Option<RemovalReason> {
    match bans {
        None => None,
        Some(b) => match scan_reason(b, user_id, now) {
            Some(r) => Some(r),
            None => match kicks {
                None => None,
                Some(k) => scan_reason(k, user_id, now),
            },
        },
    }
}

/// The search after the ban entries (`None`: they could not be fetched).
pub fn check_ban_entries(bans: Option<&[AuditEntry]>, user_id: u64, now: i64) -> (r: AuditProgress)
    ensures
        match bans {
            None => r == AuditProgress::Decided(None),
            Some(b) => match scan_reason(b@, user_id, now as int) {
                Some(x) => r == AuditProgress::Decided(Some(x)),
                None => r == AuditProgress::FetchKicks,
            },
        },
{
    match bans {
        None => AuditProgress::Decided(None),
        Some(b) => match scan_removal_entries(b, user_id, now) {
            Some(x) => AuditProgress::Decided(Some(x)),
            None => AuditProgress::FetchKicks,
        },
    }
}

/// The search's result from the kick entries (`None`: they could not be
/// fetched).
pub fn check_kick_entries(kicks: Option<&[AuditEntry]>, user_id: u64, now: i64) -> (r: Option<RemovalReason>)
    ensures
        r == match kicks {
            None => None,
            Some(k) => scan_reason(k@, user_id, now as int),
        },
{
    match kicks {
        None => None,
        Some(k) => scan_removal_entries(k, user_id, now),
    }
}

/// The departure decided from the ban cache and the audit log: what the
/// audit log says when it says anything; otherwise a ban (moderator
/// unknown) when a ban event was seen in the last seconds, else a voluntary
/// leave.
pub open spec fn leave_reason(recently_banned: bool, audit: Option<RemovalReason>) -> RemovalReason {
    match audit {
        Some(r) => r,
        None => if recently_banned {
            RemovalReason::Banned { moderator_id: None, reason: None }
        } else {
            RemovalReason::Left
        },
    }
}

/// Determine why a user left from whether a ban event was seen recently and
/// from what the audit log said.
pub fn detect_leave_reason(recently_banned: bool, audit: Option<RemovalReason>) -> (r: RemovalReason)
    ensures
        r == leave_reason(recently_banned, audit),
{
    match audit {
        Some(r) => r,
        None => if recently_banned {
            RemovalReason::Banned { moderator_id: None, reason: None }
        } else {
            RemovalReason::Left
        },
    }
}

proof fn lemma_scan_is_removal(entries: Seq<AuditEntry>, user_id: u64, now: int)
    ensures
        scan_reason(entries, user_id, now) matches Some(r) ==> !(r is Left),
    decreases entries.len(),
{
    if entries.len() > 0 {
        lemma_scan_is_removal(entries.drop_first(), user_id, now);
    }
}

/// A member removed within the ban window after a ban event was recorded
/// for them is never recorded as leaving voluntarily, whatever the audit
/// log holds: it says ban or kick, or says nothing and the ban stands.
pub proof fn lemma_ban_event_rules_out_leave(
    marks: Map<u64, i64>,
    user_id: u64,
    banned_at: i64,
    now: i64,
    bans: Option<Seq<AuditEntry>>,
    kicks: Option<Seq<AuditEntry>>,
)
    requires
        now - banned_at <= RECENT_BAN_WINDOW_SECS,
    ensures
        banned_within(marks.insert(user_id, banned_at), user_id, RECENT_BAN_WINDOW_SECS as int, now as int),
        !(leave_reason(
            banned_within(marks.insert(user_id, banned_at), user_id, RECENT_BAN_WINDOW_SECS as int, now as int),
            audit_reason(bans, kicks, user_id, now as int),
        ) is Left),
{
    if let Some(b) = bans {
        lemma_scan_is_removal(b, user_id, now as int);
    }
    if let Some(k) = kicks {
        lemma_scan_is_removal(k, user_id, now as int);
    }
}

/// The entry `e` is a ban or kick of `user_id` recorded within 30 s of `now`.
pub open spec fn counts_for_leave(e: AuditEntry, user_id: u64, now: int) -> bool {
    &&& e.target_id == Some(user_id)
    &&& -RECENT_ENTRY_SECS <= now - e.created_at <= RECENT_ENTRY_SECS
    &&& (e.action == AuditAction::BanAdd || e.action == AuditAction::Kick)
}

/// The first ban or kick of the user within 30 s of `now` decides, with that
/// entry's moderator and recorded reason carried over unchanged: a kick
/// gives `Kicked` and a ban `Banned`. Entries before it do not count.
pub proof fn lemma_first_removal_entry_decides(entries: Seq<AuditEntry>, user_id: u64, now: int, k: int)
    requires
        0 <= k < entries.len(),
        counts_for_leave(entries[k], user_id, now),
        forall|j: int| 0 <= j < k ==> !counts_for_leave(#[trigger] entries[j], user_id, now),
    ensures
        entries[k].action == AuditAction::Kick ==> scan_reason(entries, user_id, now) == Some(
            RemovalReason::Kicked { moderator_id: Some(entries[k].user_id), reason: entries[k].reason },
        ),
        entries[k].action == AuditAction::BanAdd ==> scan_reason(entries, user_id, now) == Some(
            RemovalReason::Banned { moderator_id: Some(entries[k].user_id), reason: entries[k].reason },
        ),
    decreases k,
{
    if k > 0 {
        assert(!counts_for_leave(entries[0], user_id, now));
        let rest = entries.drop_first();
        assert forall|j: int| 0 <= j < k - 1 implies !counts_for_leave(#[trigger] rest[j], user_id, now) by {
            assert(rest[j] == entries[j + 1]);
        }
        assert(rest[k - 1] == entries[k]);
        lemma_first_removal_entry_decides(rest, user_id, now, k - 1);
    }
}

/// A batch with no ban or kick of the user within 30 s of `now` says
/// nothing about the departure.
pub proof fn lemma_no_removal_entry(entries: Seq<AuditEntry>, user_id: u64, now: int)
    requires
        forall|j: int| 0 <= j < entries.len() ==> !counts_for_leave(#[trigger] entries[j], user_id, now),
    ensures
        scan_reason(entries, user_id, now) is None,
    decreases entries.len(),
{
    if entries.len() > 0 {
        assert(!counts_for_leave(entries[0], user_id, now));
        let rest = entries.drop_first();
        assert forall|j: int| 0 <= j < rest.len() implies !counts_for_leave(#[trigger] rest[j], user_id, now) by {
            assert(rest[j] == entries[j + 1]);
        }
        lemma_no_removal_entry(rest, user_id, now);
    }
}

// ── Batch classification (startup sync) ──────────────────────────────────────

/// The entry counts for a stale stay of `user`: it targets that user (by
/// decimal id) and, when `max_age` is given, lies at most that many seconds
/// from `now`.
pub open spec fn stale_entry_for(e: AuditEntry, user: Seq<char>, now: int, max_age: Option<i64>) -> bool {
    &&& e.target_id is Some
    &&& dec_nat(e.target_id->0 as nat) == user
    &&& match max_age {
        Some(a) => time_distance(now, e.created_at as int) <= a,
        None => true,
    }
}

/// Some entry counts for `user`.
pub open spec fn names_user(es: Seq<AuditEntry>, user: Seq<char>, now: int, max_age: Option<i64>) -> bool {
    exists|k: int| 0 <= k < es.len() && stale_entry_for(#[trigger] es[k], user, now, max_age)
}

/// Some entry of the batch counts for `user`; a batch that could not be
/// fetched names no one.
pub open spec fn batch_names(entries: Option<Seq<AuditEntry>>, user: Seq<char>, now: int, max_age: Option<i64>) -> bool {
    match entries {
        Some(es) => names_user(es, user, now, max_age),
        None => false,
    }
}

/// How a stale stay of `user` ended, as `(banned, kicked)`: a ban entry
/// wins, then a kick entry; `None` when neither names the user (a
/// voluntary leave). A batch that could not be fetched (`None`) names no
/// one.
pub open spec fn stale_reason(
    bans: Option<Seq<AuditEntry>>,
    kicks: Option<Seq<AuditEntry>>,
    stale: Seq<Seq<char>>,
    user: Seq<char>,
    now: int,
    max_age: Option<i64>,
) -> Option<(bool, bool)> {
    if !stale.contains(user) {
        None
    } else if batch_names(bans, user, now, max_age) {
        Some((true, false))
    } else if batch_names(kicks, user, now, max_age) {
        Some((false, true))
    } else {
        None
    }
}

/// The ids' characters.
pub open spec fn id_views(v: Seq<String>) -> Seq<Seq<char>> {
    v.map_values(|s: String| s@)
}

/// `r` lists exactly the users `stale_reason` classifies, once each, with
/// their classification.
pub open spec fn classifies(
    r: Seq<(String, (bool, bool))>,
    bans: Option<Seq<AuditEntry>>,
    kicks: Option<Seq<AuditEntry>>,
    stale: Seq<Seq<char>>,
    now: int,
    max_age: Option<i64>,
) -> bool {
    &&& forall|i: int, j: int| 0 <= i < r.len() && 0 <= j < r.len() && i != j ==> r[i].0@ != r[j].0@
    &&& forall|i: int| 0 <= i < r.len() ==> stale_reason(bans, kicks, stale, (#[trigger] r[i]).0@, now, max_age) == Some(r[i].1)
    &&& forall|u: Seq<char>| stale_reason(bans, kicks, stale, u, now, max_age) is Some ==> exists|i: int|
        0 <= i < r.len() && (#[trigger] r[i]).0@ == u
}

fn entry_counts(e: &AuditEntry, user: &str, now: i64, max_age: Option<i64>) -> (r: bool)
    ensures
        r == stale_entry_for(*e, user@, now as int, max_age),
{
    match e.target_id {
        Some(t) => {
            let mut s = String::new();
            push_u64(&mut s, t);
            let same = str_eq(s.as_str(), user);
            let near = match max_age {
                Some(a) => distance(now, e.created_at) <= a as i128,
                None => true,
            };
            same && near
        },
        None => false,
    }
}

fn batch_names_exec(es: &[AuditEntry], user: &str, now: i64, max_age: Option<i64>) -> (r: bool)
    ensures
        r == batch_names(Some(es@), user@, now as int, max_age),
{
    let mut i: usize = 0;
    while i < es.len()
        invariant
            i <= es@.len(),
            forall|k: int| 0 <= k < i ==> !stale_entry_for(#[trigger] es@[k], user@, now as int, max_age),
        decreases es@.len() - i,
    {
        if entry_counts(&es[i], user, now, max_age) {
            proof {
                let k = i as int;
                assert(stale_entry_for(es@[k], user@, now as int, max_age));
                assert(0 <= k < es@.len());
            }
            return true;
        }
        i = i + 1;
    }
    false
}

fn opt_batch_names(entries: Option<&[AuditEntry]>, user: &str, now: i64, max_age: Option<i64>) -> (r: bool)
    ensures
        r == batch_names(
            match entries {
                Some(es) => Some(es@),
                None => None,
            },
            user@,
            now as int,
            max_age,
        ),
{
    match entries {
        Some(es) => batch_names_exec(es, user, now, max_age),
        None => false,
    }
}

/// Classify stale stays from the ban and kick audit-log batches (`None` for
/// a batch that could not be fetched), considering only entries within
/// `max_age` seconds of `now` when it is given.
pub fn classify_stale_entries(
    bans: Option<&[AuditEntry]>,
    kicks: Option<&[AuditEntry]>,
    stale_user_ids: &[String],
    now: i64,
    max_age: Option<i64>,
) -> (r: Vec<(String, (bool, bool))>)
    ensures
        classifies(
            r@,
            match bans {
                Some(es) => Some(es@),
                None => None,
            },
            match kicks {
                Some(es) => Some(es@),
                None => None,
            },
            id_views(stale_user_ids@),
            now as int,
            max_age,
        ),
{
    let ghost bs = match bans {
        Some(es) => Some(es@),
        None => None,
    };
    let ghost ks = match kicks {
        Some(es) => Some(es@),
        None => None,
    };
    let ghost st = id_views(stale_user_ids@);
    let mut out: Vec<(String, (bool, bool))> = Vec::new();
    let mut i: usize = 0;
    while i < stale_user_ids.len()
        invariant
            i <= stale_user_ids@.len(),
            st == id_views(stale_user_ids@),
            bs == (match bans {
                Some(es) => Some(es@),
                None => None::<Seq<AuditEntry>>,
            }),
            ks == (match kicks {
                Some(es) => Some(es@),
                None => None::<Seq<AuditEntry>>,
            }),
            forall|a: int, b: int| 0 <= a < out@.len() && 0 <= b < out@.len() && a != b ==> out@[a].0@ != out@[b].0@,
            forall|a: int|
                0 <= a < out@.len() ==> stale_reason(bs, ks, st, (#[trigger] out@[a]).0@, now as int, max_age)
                    == Some(out@[a].1),
            forall|a: int| 0 <= a < out@.len() ==> exists|m: int| 0 <= m < i && (#[trigger] out@[a]).0@ == st[m],
            forall|m: int|
                0 <= m < i && (stale_reason(bs, ks, st, st[m], now as int, max_age) is Some) ==> exists|a: int|
                    0 <= a < out@.len() && (#[trigger] out@[a]).0@ == st[m],
        decreases stale_user_ids@.len() - i,
    {
        let uid = &stale_user_ids[i];
        proof {
            assert(st[i as int] == uid@);
            assert(st.contains(uid@));
        }
        let mut already = false;
        let mut j: usize = 0;
        while j < out.len()
            invariant
                j <= out@.len(),
                already == exists|a: int| 0 <= a < j && (#[trigger] out@[a]).0@ == uid@,
            decreases out@.len() - j,
        {
            if str_eq(out[j].0.as_str(), uid.as_str()) {
                already = true;
            }
            j = j + 1;
        }
        if !already {
            let banned = opt_batch_names(bans, uid.as_str(), now, max_age);
            let kicked = if banned {
                false
            } else {
                opt_batch_names(kicks, uid.as_str(), now, max_age)
            };
            if banned || kicked {
                let ghost before = out@;
                out.push((uid.clone(), (banned, !banned)));
                proof {
                    assert forall|a: int| 0 <= a < out@.len() implies exists|m: int|
                        0 <= m < i + 1 && (#[trigger] out@[a]).0@ == st[m] by {
                        if a < before.len() {
                            assert(out@[a] == before[a]);
                            let m = choose|m: int| 0 <= m < i && before[a].0@ == st[m];
                            assert(out@[a].0@ == st[m]);
                        } else {
                            assert(out@[a].0@ == st[i as int]);
                        }
                    }
                    assert forall|m: int|
                        0 <= m < i + 1 && (stale_reason(bs, ks, st, st[m], now as int, max_age) is Some) implies exists|a: int|
                        0 <= a < out@.len() && (#[trigger] out@[a]).0@ == st[m] by {
                        if m == i {
                            assert(out@[before.len() as int].0@ == st[m]);
                        } else {
                            let a = choose|a: int| 0 <= a < before.len() && before[a].0@ == st[m];
                            assert(out@[a] == before[a]);
                        }
                    }
                }
            } else {
                proof {
                    assert forall|m: int|
                        0 <= m < i + 1 && (stale_reason(bs, ks, st, st[m], now as int, max_age) is Some) implies exists|a: int|
                        0 <= a < out@.len() && (#[trigger] out@[a]).0@ == st[m] by {
                        if m < i {
                        }
                    }
                    assert forall|a: int| 0 <= a < out@.len() implies exists|m: int|
                        0 <= m < i + 1 && (#[trigger] out@[a]).0@ == st[m] by {
                        let m = choose|m: int| 0 <= m < i && out@[a].0@ == st[m];
                    }
                }
            }
        } else {
            proof {
                let a0 = choose|a: int| 0 <= a < out@.len() && out@[a].0@ == uid@;
                assert forall|m: int|
                    0 <= m < i + 1 && (stale_reason(bs, ks, st, st[m], now as int, max_age) is Some) implies exists|a: int|
                    0 <= a < out@.len() && (#[trigger] out@[a]).0@ == st[m] by {
                    if m == i {
                        assert(out@[a0].0@ == st[m]);
                    }
                }
                assert forall|a: int| 0 <= a < out@.len() implies exists|m: int|
                    0 <= m < i + 1 && (#[trigger] out@[a]).0@ == st[m] by {
                    let m = choose|m: int| 0 <= m < i && out@[a].0@ == st[m];
                }
            }
        }
        i = i + 1;
    }
    proof {
        assert forall|u: Seq<char>| stale_reason(bs, ks, st, u, now as int, max_age) is Some implies exists|a: int|
            0 <= a < out@.len() && (#[trigger] out@[a]).0@ == u by {
            let m = choose|m: int| 0 <= m < st.len() && st[m] == u;
        }
    }
    out
}


/// Check the ban and kick audit-log batches for the stale user ids. Returns
/// user_id → (banned, kicked) for those found; users not listed are treated
/// as voluntary leaves. Only entries from the last 6 hours count, so users
/// who simply left during extended downtime are not mis-classified.
pub fn classify_stale_removals(
    bans: Option<&[AuditEntry]>,
    kicks: Option<&[AuditEntry]>,
    stale_user_ids: &[String],
    now: i64,
) -> (r: Vec<(String, (bool, bool))>)
    ensures
        classifies(
            r@,
            match bans {
                Some(es) => Some(es@),
                None => None,
            },
            match kicks {
                Some(es) => Some(es@),
                None => None,
            },
            id_views(stale_user_ids@),
            now as int,
            Some(STALE_ENTRY_SECS),
        ),
{
    classify_stale_entries(bans, kicks, stale_user_ids, now, Some(STALE_ENTRY_SECS))
}

} // verus!
