//! Reconciling stored membership with the guild's member list after the
//! bot was offline.

use vstd::prelude::*;

use crate::events::join::{has_member_flag, tracks_member, MemberFlag};
use crate::text::str_eq;

verus! {

/// What to do with a member found in the guild's member list.
#[derive(Debug, Clone, Copy, PartialEq, Eq)]
pub enum SyncAction {
    /// A voice-only guest: not tracked.
    Skip,
    /// The member has an open stay: refresh the stored names.
    UpdateNames,
    /// The member has no open stay: record one from Discord's join time.
    Backfill,
}

/// The action for a listed member with flags `flags`; `has_open_stay`
/// says whether the member has an open stay on record.
pub open spec fn sync_action_of(flags: u32, has_open_stay: bool) -> SyncAction {
    if has_member_flag(flags, MemberFlag::IsGuest) {
        SyncAction::Skip
    } else if has_open_stay {
        SyncAction::UpdateNames
    } else {
        SyncAction::Backfill
    }
}

/// `v` holds `x`.
pub open spec fn has_id(v: Seq<String>, x: Seq<char>) -> bool {
    exists|i: int| 0 <= i < v.len() && (#[trigger] v[i])@ == x
}

fn find_id(v: &[String], x: &str) -> (r: bool)
    ensures
        r == has_id(v@, x@),
{
    let mut i: usize = 0;
    while i < v.len()
        invariant
            i <= v@.len(),
            forall|k: int| 0 <= k < i ==> (#[trigger] v@[k])@ != x@,
        decreases v@.len() - i,
    {
        if str_eq(v[i].as_str(), x) {
            proof {
                assert(v@[i as int]@ == x@);
            }
            return true;
        }
        i = i + 1;
    }
    false
}

/// Decide what to do with a listed member, given the ids with open stays.
pub fn sync_action(flags: u32, user_id: &str, open_ids: &[String]) -> (r: SyncAction)
    ensures
        r == sync_action_of(flags, has_id(open_ids@, user_id@)),
{
    if !tracks_member(flags) {
        SyncAction::Skip
    } else if find_id(open_ids, user_id) {
        SyncAction::UpdateNames
    } else {
        SyncAction::Backfill
    }
}

/// The ids of `open` that are not in `current`, in the order of `open`.
pub open spec fn stale_ids_of(open: Seq<String>, current: Seq<String>) -> Seq<Seq<char>>
    decreases open.len(),
{
    if open.len() == 0 {
        Seq::empty()
    } else if has_id(current, open.last()@) {
        stale_ids_of(open.drop_last(), current)
    } else {
        stale_ids_of(open.drop_last(), current).push(open.last()@)
    }
}

/// The ids' characters.
pub open spec fn ids_view(v: Seq<String>) -> Seq<Seq<char>> {
    v.map_values(|s: String| s@)
}

/// The users with an open stay who are no longer in the guild.
pub fn stale_user_ids(open_ids: &[String], current: &[String]) -> (r: Vec<String>)
    ensures
        ids_view(r@) == stale_ids_of(open_ids@, current@),
{
    let mut out: Vec<String> = Vec::new();
    let mut i: usize = 0;
    while i < open_ids.len()
        invariant
            i <= open_ids@.len(),
            ids_view(out@) == stale_ids_of(open_ids@.subrange(0, i as int), current@),
        decreases open_ids@.len() - i,
    {
        let ghost pre = open_ids@.subrange(0, i + 1);
        proof {
            assert(pre.drop_last() =~= open_ids@.subrange(0, i as int));
            assert(pre.last() == open_ids@[i as int]);
        }
        if !find_id(current, open_ids[i].as_str()) {
            let ghost before = out@;
            out.push(open_ids[i].clone());
            proof {
                assert(ids_view(out@) =~= ids_view(before).push(open_ids@[i as int]@));
            }
        }
        i = i + 1;
    }
    proof {
        assert(open_ids@.subrange(0, open_ids@.len() as int) =~= open_ids@);
    }
    out
}

} // verus!
