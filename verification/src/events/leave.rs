//! How a departure is recorded and where its embed goes.

use vstd::prelude::*;

use crate::commands::opt_chars;
use crate::services::audit_log::RemovalReason;
use crate::services::settings::GuildSettings;
use crate::services::stats::DepartureType;
use crate::text::{dec_nat, u64_to_string};

verus! {

/// The departure type recorded for each reason.
pub open spec fn departure_type_of(reason: RemovalReason) -> DepartureType {
    match reason {
        RemovalReason::Banned { .. } => DepartureType::Ban,
        RemovalReason::Kicked { .. } => DepartureType::Kick,
        RemovalReason::Left => DepartureType::Leave,
    }
}

/// The moderator recorded for each reason: the id in decimal, when known.
pub open spec fn departure_moderator(reason: RemovalReason) -> Option<Seq<char>> {
    match reason {
        RemovalReason::Banned { moderator_id, .. } => match moderator_id {
            Some(m) => Some(dec_nat(m as nat)),
            None => None,
        },
        RemovalReason::Kicked { moderator_id, .. } => match moderator_id {
            Some(m) => Some(dec_nat(m as nat)),
            None => None,
        },
        RemovalReason::Left => None,
    }
}

/// The departure type and moderator id to record for a departure.
pub fn departure_of(reason: &RemovalReason) -> (r: (DepartureType, Option<String>))
    ensures
        r.0 == departure_type_of(*reason),
        opt_chars(r.1) == departure_moderator(*reason),
{
    match reason {
        RemovalReason::Banned { moderator_id, .. } => (
            DepartureType::Ban,
            match moderator_id {
                Some(m) => Some(u64_to_string(*m)),
                None => None,
            },
        ),
        RemovalReason::Kicked { moderator_id, .. } => (
            DepartureType::Kick,
            match moderator_id {
                Some(m) => Some(u64_to_string(*m)),
                None => None,
            },
        ),
        RemovalReason::Left => (DepartureType::Leave, None),
    }
}

/// Where a departure embed goes: bans and kicks to the moderation log
/// (the leave log when there is none), voluntary leaves to the leave log.
pub open spec fn leave_target_of(reason: RemovalReason, s: GuildSettings) -> Option<u64> {
    match reason {
        RemovalReason::Left => s.leave_log,
        _ => if s.mod_log is Some {
            s.mod_log
        } else {
            s.leave_log
        },
    }
}

/// The channel a departure embed is posted to.
pub fn leave_target(reason: &RemovalReason, settings: &GuildSettings) -> (r: Option<u64>)
    ensures
        r == leave_target_of(*reason, *settings),
{
    match reason {
        RemovalReason::Left => settings.leave_log,
        _ => match settings.mod_log {
            Some(c) => Some(c),
            None => settings.leave_log,
        },
    }
}

/// Kicks and bans go to the same channel, the moderation log when one is
/// set and the leave log otherwise; a voluntary leave goes to the leave log.
/// The moderator and reason play no part.
pub proof fn lemma_removals_routed_alike(
    s: GuildSettings,
    kick_by: Option<u64>,
    kick_reason: Option<String>,
    ban_by: Option<u64>,
    ban_reason: Option<String>,
)
    ensures
        leave_target_of(RemovalReason::Kicked { moderator_id: kick_by, reason: kick_reason }, s)
            == leave_target_of(RemovalReason::Banned { moderator_id: ban_by, reason: ban_reason }, s),
        s.mod_log is Some ==> leave_target_of(
            RemovalReason::Kicked { moderator_id: kick_by, reason: kick_reason },
            s,
        ) == s.mod_log,
        s.mod_log is None ==> leave_target_of(
            RemovalReason::Kicked { moderator_id: kick_by, reason: kick_reason },
            s,
        ) == s.leave_log,
        leave_target_of(RemovalReason::Left, s) == s.leave_log,
{
}

} // verus!
