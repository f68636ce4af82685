//! Invite events: the snapshot an invite listing or an InviteCreate event
//! gives.

use vstd::prelude::*;

use crate::commands::opt_chars;
use crate::events::{display_name_text, UserInfo};
use crate::invites::InviteSnapshot;
use crate::text::{dec_nat, u64_to_string};

verus! {

/// The snapshot of an invite with `uses` uses out of `max_uses` (0: no
/// limit), created by `inviter` when known: the inviter's id in decimal and
/// display name.
pub open spec fn snapshot_matches(s: InviteSnapshot, uses: u64, max_uses: u8, inviter: Option<UserInfo>) -> bool {
    &&& s.uses == uses
    &&& s.max_uses == max_uses as u64
    &&& match inviter {
        Some(u) => opt_chars(s.inviter_id) == Some(dec_nat(u.id as nat)) && opt_chars(s.inviter_name) == Some(
            display_name_text(opt_chars(u.global_name), u.name@),
        ),
        None => s.inviter_id is None && s.inviter_name is None,
    }
}

/// The snapshot of an invite as Discord reports it.
pub fn invite_snapshot(uses: u64, max_uses: u8, inviter: &Option<UserInfo>) -> (r: InviteSnapshot)
    ensures
        snapshot_matches(r, uses, max_uses, *inviter),
{
    match inviter {
        Some(u) => InviteSnapshot {
            uses,
            max_uses: max_uses as u64,
            inviter_id: Some(u64_to_string(u.id)),
            inviter_name: Some(u.display_name()),
        },
        None => InviteSnapshot { uses, max_uses: max_uses as u64, inviter_id: None, inviter_name: None },
    }
}

} // verus!
