//! Which joins are tracked, from the member's guild flags.

use serenity::all::GuildMemberFlags;
use vstd::prelude::*;

verus! {

/// The guild member flags the bot looks at.
#[derive(Debug, Clone, Copy, PartialEq, Eq)]
pub enum MemberFlag {
    /// The member left and rejoined the guild.
    DidRejoin,
    /// The member is a guest with access to one voice channel only.
    IsGuest,
}

/// The bit of each flag, as serenity defines it.
pub open spec fn member_flag_bit(f: MemberFlag) -> u32 {
    match f {
        MemberFlag::DidRejoin => 0x1,
        MemberFlag::IsGuest => 0x10,
    }
}

/// The flag set holds `f`.
pub open spec fn has_member_flag(flags: u32, f: MemberFlag) -> bool {
    flags & member_flag_bit(f) == member_flag_bit(f)
}

/// Whether the member flag set `flags` (raw bits) contains `f`.
///
/// Calls `serenity::all::GuildMemberFlags::contains` on the set built with
/// `from_bits_retain`; serenity's member flags are bitflags, so this is
/// "the bit of `f` is set". The bits are serenity's `DID_REJOIN` (1 << 0)
/// and `IS_GUEST` (1 << 4).
#[verifier::external_body]
fn member_flags_contain(flags: u32, f: MemberFlag) -> (r: bool)
    ensures
        r == has_member_flag(flags, f),
{
    let wanted = match f {
        MemberFlag::DidRejoin => GuildMemberFlags::DID_REJOIN,
        MemberFlag::IsGuest => GuildMemberFlags::IS_GUEST,
    };
    GuildMemberFlags::from_bits_retain(flags).contains(wanted)
}

/// Voice-only guests are transient: their joins are not tracked.
pub fn tracks_member(flags: u32) -> (r: bool)
    ensures
        r == !has_member_flag(flags, MemberFlag::IsGuest),
{
    !member_flags_contain(flags, MemberFlag::IsGuest)
}

/// Discord reports that the member was in the guild before.
pub fn did_rejoin(flags: u32) -> (r: bool)
    ensures
        r == has_member_flag(flags, MemberFlag::DidRejoin),
{
    member_flags_contain(flags, MemberFlag::DidRejoin)
}

} // verus!
