//! The member history replies (`/member history` and `/userinfo`): the
//! embeds a stay history is split into, and the autocomplete choices.

use vstd::prelude::*;

use crate::commands::{format_member_label, member_label, opt_chars};
use crate::services::embeds::{embed_view, EmbedSpec, EmbedView, FieldView};
use crate::services::search::MemberRow;
use crate::text::{dec_nat, push_char, push_str, push_u64, string_of};

verus! {

/// Blue, the color of informational replies.
pub const COLOR_INFO: u32 = 0x3498db;

/// What `/member history` says when the user id does not parse.
pub const UNPARSABLE_USER_ID: &'static str = "Couldn't parse that user id. Please pick from the autocomplete list.";

/// What `/member history` says for a user without stays.
pub const NO_MEMBER_HISTORY: &'static str = "No membership history found for this user.";

/// What `/userinfo` says for a user without stays.
pub const NO_USER_STAYS: &'static str = "No server stays recorded for this user.";

/// `n` zeros.
pub open spec fn zeros(n: nat) -> Seq<char>
    decreases n,
{
    if n == 0 {
        Seq::empty()
    } else {
        zeros((n - 1) as nat).push('0')
    }
}

/// The decimal form of `d`, left-padded with zeros to four digits.
pub open spec fn pad4(d: nat) -> Seq<char> {
    let s = dec_nat(d);
    if s.len() < 4 {
        zeros((4 - s.len()) as nat) + s
    } else {
        s
    }
}

/// A user's tag: the name, then `#` and the four-digit discriminator for
/// accounts that still have one.
pub open spec fn user_tag_text(name: Seq<char>, discriminator: Option<u16>) -> Seq<char> {
    match discriminator {
        Some(d) => name + "#"@ + pad4(d as nat),
        None => name,
    }
}

/// The tag of a user (as serenity's `User::tag` builds it).
pub fn user_tag(name: &str, discriminator: Option<u16>) -> (r: String)
    ensures
        r@ == user_tag_text(name@, discriminator),
{
    let mut s = string_of(name);
    match discriminator {
        Some(d) => {
            push_str(&mut s, "#");
            let mut digits = String::new();
            push_u64(&mut digits, d as u64);
            let ghost ds = dec_nat(d as nat);
            let n = digits.as_str().unicode_len();
            let ghost before = s@;
            if n < 4 {
                let mut k: usize = 0;
                while k < 4 - n
                    invariant
                        n < 4,
                        k <= 4 - n,
                        s@ == before + zeros(k as nat),
                    decreases 4 - n - k,
                {
                    push_char(&mut s, '0');
                    k = k + 1;
                }
            }
            push_str(&mut s, digits.as_str());
            proof {
                reveal_strlit("#");
                assert(s@ =~= name@ + "#"@ + pad4(d as nat));
            }
        },
        None => {},
    }
    s
}

/// `History for NAME`.
pub open spec fn history_title_text(name: Seq<char>) -> Seq<char> {
    "History for "@ + name
}

/// The title of a member's history.
pub fn history_title(name: &str) -> (r: String)
    ensures
        r@ == history_title_text(name@),
{
    let mut s = string_of("History for ");
    push_str(&mut s, name);
    s
}

/// The reply for a member without stays: one embed with the title, the
/// thumbnail when known, and `message`.
pub open spec fn empty_history_embed_view(title: Seq<char>, thumbnail: Option<Seq<char>>, message: Seq<char>) -> EmbedView {
    EmbedView {
        color: COLOR_INFO,
        title: title,
        description: message,
        thumbnail: thumbnail,
        fields: Seq::empty(),
        timestamp: None,
    }
}

/// Build the reply for a member without stays.
pub fn empty_history_embed(title: &str, thumbnail: &Option<String>, message: &str) -> (e: EmbedSpec)
    ensures
        embed_view(e) == empty_history_embed_view(title@, opt_chars(*thumbnail), message@),
{
    let e = EmbedSpec {
        color: COLOR_INFO,
        title: string_of(title),
        description: string_of(message),
        thumbnail: match thumbnail {
            Some(t) => Some(t.clone()),
            None => None,
        },
        fields: Vec::new(),
        timestamp: None,
    };
    proof {
        assert(embed_view(e).fields =~= Seq::<FieldView>::empty());
    }
    e
}

/// Autocomplete choices for members: the member label shown, the user id
/// as the value.
pub fn autocomplete_choices(rows: &[MemberRow]) -> (r: Vec<(String, String)>)
    ensures
        r@.len() == rows@.len(),
        forall|i: int|
            0 <= i < rows@.len() ==> (#[trigger] r@[i]).0@ == member_label(
                rows@[i].user_id@,
                opt_chars(rows@[i].account_username),
                opt_chars(rows@[i].display_name),
                opt_chars(rows@[i].server_nickname),
            ) && r@[i].1@ == rows@[i].user_id@,
{
    let mut out: Vec<(String, String)> = Vec::new();
    let mut i: usize = 0;
    while i < rows.len()
        invariant
            i <= rows@.len(),
            out@.len() == i,
            forall|k: int|
                0 <= k < i ==> (#[trigger] out@[k]).0@ == member_label(
                    rows@[k].user_id@,
                    opt_chars(rows@[k].account_username),
                    opt_chars(rows@[k].display_name),
                    opt_chars(rows@[k].server_nickname),
                ) && out@[k].1@ == rows@[k].user_id@,
        decreases rows@.len() - i,
    {
        let r = &rows[i];
        let label = format_member_label(
            r.user_id.as_str(),
            &r.account_username,
            &r.display_name,
            &r.server_nickname,
        );
        out.push((label, r.user_id.clone()));
        i = i + 1;
    }
    out
}

} // verus!
