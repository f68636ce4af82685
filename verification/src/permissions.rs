//! Which bot features a guild's permission set allows.

use serenity::all::Permissions;
use vstd::prelude::*;

verus! {

/// The Discord permissions the bot's features need.
#[derive(Debug, Clone, Copy, PartialEq, Eq)]
pub enum Perm {
    SendMessages,
    ManageGuild,
    ManageChannels,
    BanMembers,
    ViewAuditLog,
}

/// The bit of each permission in Discord's permission set, as serenity
/// defines it.
pub open spec fn perm_bit(p: Perm) -> u64 {
    match p {
        Perm::SendMessages => 0x800,
        Perm::ManageGuild => 0x20,
        Perm::ManageChannels => 0x10,
        Perm::BanMembers => 0x4,
        Perm::ViewAuditLog => 0x80,
    }
}

/// The permission set holds `p`.
pub open spec fn granted(perms: u64, p: Perm) -> bool {
    perms & perm_bit(p) == perm_bit(p)
}

/// Whether the permission set `perms` (raw bits) contains `p`.
///
/// Calls `serenity::all::Permissions::contains` on the sets built with
/// `from_bits_retain`; serenity's permission flags are bitflags, so this is
/// "every bit of `p` is set in `perms`". The bit values are serenity's
/// `SEND_MESSAGES`, `MANAGE_GUILD`, `MANAGE_CHANNELS`, `BAN_MEMBERS` and
/// `VIEW_AUDIT_LOG` constants.
#[verifier::external_body]
fn permissions_contain(perms: u64, p: Perm) -> (r: bool)
    ensures
        r == granted(perms, p),
{
    let required = match p {
        Perm::SendMessages => Permissions::SEND_MESSAGES,
        Perm::ManageGuild => Permissions::MANAGE_GUILD,
        Perm::ManageChannels => Permissions::MANAGE_CHANNELS,
        Perm::BanMembers => Permissions::BAN_MEMBERS,
        Perm::ViewAuditLog => Permissions::VIEW_AUDIT_LOG,
    };
    Permissions::from_bits_retain(perms).contains(required)
}

/// A single permission requirement and whether the bot has it.
pub struct PermissionCheck {
    pub label: &'static str,
    pub granted: bool,
}

/// A bot feature and its permission requirements.
pub struct Feature {
    pub name: &'static str,
    pub description: &'static str,
    pub available: bool,
    pub permissions: Vec<PermissionCheck>,
}

/// `f` is the feature `name`/`description` needing `required`, checked
/// against `perms`: one check per requirement in order, and available when
/// every requirement is granted.
pub open spec fn feature_checked(
    f: Feature,
    name: Seq<char>,
    description: Seq<char>,
    perms: u64,
    required: Seq<(Perm, Seq<char>)>,
) -> bool {
    &&& f.name@ == name
    &&& f.description@ == description
    &&& f.permissions@.len() == required.len()
    &&& forall|i: int|
        0 <= i < required.len() ==> (#[trigger] f.permissions@[i]).label@ == required[i].1
            && f.permissions@[i].granted == granted(perms, required[i].0)
    &&& f.available == forall|i: int| 0 <= i < required.len() ==> granted(perms, #[trigger] required[i].0)
}

/// The labels of the requirements.
pub open spec fn required_view(required: Seq<(Perm, &'static str)>) -> Seq<(Perm, Seq<char>)> {
    required.map_values(|r: (Perm, &'static str)| (r.0, r.1@))
}

/// Check one feature against the given permission set.
pub fn check_feature(
    name: &'static str,
    description: &'static str,
    perms: u64,
    required: &[(Perm, &'static str)],
) -> (f: Feature)
    ensures
        feature_checked(f, name@, description@, perms, required_view(required@)),
{
    let mut checks: Vec<PermissionCheck> = Vec::new();
    let mut all = true;
    let mut i: usize = 0;
    while i < required.len()
        invariant
            i <= required@.len(),
            checks@.len() == i,
            forall|k: int|
                0 <= k < i ==> (#[trigger] checks@[k]).label@ == required@[k].1@ && checks@[k].granted
                    == granted(perms, required@[k].0),
            all == forall|k: int| 0 <= k < i ==> granted(perms, #[trigger] required@[k].0),
        decreases required@.len() - i,
    {
        let (perm, label) = required[i];
        let g = permissions_contain(perms, perm);
        checks.push(PermissionCheck { label, granted: g });
        all = all && g;
        i = i + 1;
    }
    let f = Feature { name, description, available: all, permissions: checks };
    proof {
        let rv = required_view(required@);
        assert forall|k: int| 0 <= k < rv.len() implies (#[trigger] f.permissions@[k]).label@ == rv[k].1
            && f.permissions@[k].granted == granted(perms, rv[k].0) by {}
        assert(f.available == forall|k: int| 0 <= k < rv.len() ==> granted(perms, #[trigger] rv[k].0)) by {
            if f.available {
                assert forall|k: int| 0 <= k < rv.len() implies granted(perms, #[trigger] rv[k].0) by {
                    assert(rv[k].0 == required@[k].0);
                }
            } else {
                let k = choose|k: int| 0 <= k < required@.len() && !granted(perms, #[trigger] required@[k].0);
                assert(rv[k].0 == required@[k].0);
            }
        }
    }
    f
}

/// The bot's features: name, description and the permissions each needs.
pub open spec fn feature_table() -> Seq<(Seq<char>, Seq<char>, Seq<(Perm, Seq<char>)>)> {
    seq![
        (
            "Join & Leave Logging"@,
            "Log member joins and leaves to configured channels"@,
            seq![(Perm::SendMessages, "Send Messages"@)],
        ),
        (
            "Invite Detection"@,
            "Detect which invite a new member used to join"@,
            seq![(Perm::ManageGuild, "Manage Server"@), (Perm::ManageChannels, "Manage Channels"@)],
        ),
        (
            "Ban Detection"@,
            "Detect bans and identify the moderator"@,
            seq![(Perm::BanMembers, "Ban Members"@), (Perm::ViewAuditLog, "View Audit Log"@)],
        ),
        (
            "Kick Detection"@,
            "Detect kicks and identify the moderator"@,
            seq![(Perm::ViewAuditLog, "View Audit Log"@)],
        ),
    ]
}

/// Check all bot features against the given permission set.
pub fn check_features(perms: u64) -> (r: Vec<Feature>)
    ensures
        r@.len() == feature_table().len(),
        forall|i: int|
            0 <= i < r@.len() ==> feature_checked(
                #[trigger] r@[i],
                feature_table()[i].0,
                feature_table()[i].1,
                perms,
                feature_table()[i].2,
            ),
{
    let req0 = [(Perm::SendMessages, "Send Messages")];
    let req1 = [(Perm::ManageGuild, "Manage Server"), (Perm::ManageChannels, "Manage Channels")];
    let req2 = [(Perm::BanMembers, "Ban Members"), (Perm::ViewAuditLog, "View Audit Log")];
    let req3 = [(Perm::ViewAuditLog, "View Audit Log")];
    let f0 = check_feature(
        "Join & Leave Logging",
        "Log member joins and leaves to configured channels",
        perms,
        &req0,
    );
    let f1 = check_feature(
        "Invite Detection",
        "Detect which invite a new member used to join",
        perms,
        &req1,
    );
    let f2 = check_feature(
        "Ban Detection",
        "Detect bans and identify the moderator",
        perms,
        &req2,
    );
    let f3 = check_feature(
        "Kick Detection",
        "Detect kicks and identify the moderator",
        perms,
        &req3,
    );
    let mut r: Vec<Feature> = Vec::new();
    r.push(f0);
    r.push(f1);
    r.push(f2);
    r.push(f3);
    proof {
        let t = feature_table();
        assert(required_view(req0@) =~= t[0].2);
        assert(required_view(req1@) =~= t[1].2);
        assert(required_view(req2@) =~= t[2].2);
        assert(required_view(req3@) =~= t[3].2);
        assert(r@[0] == f0 && r@[1] == f1 && r@[2] == f2 && r@[3] == f3);
    }
    r
}

} // verus!
