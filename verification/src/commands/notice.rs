//! The `/notice` replies: defaults of a new notice and the messages and
//! listing the owner sees.

use vstd::prelude::*;

use crate::commands::member::COLOR_INFO;
use crate::commands::{join_lines, join_with_newlines, push_relative_time, time_or_raw, views};
use crate::services::embeds::{embed_view, EmbedSpec, EmbedView, FieldView};
use crate::services::notices::NoticeRow;
use crate::text::{dec, dec_nat, push_i64, push_str, push_u64, string_of};

verus! {

/// The color of a notice when none is given (blue).
pub const DEFAULT_NOTICE_COLOR: i64 = 0x3498db;

/// What `/notice list` says when there are none.
pub const NO_NOTICES: &'static str = "No notices defined.";

/// A new notice's color and audience: blue and current guilds only unless
/// given.
pub fn notice_create_options(color: Option<i64>, current_only: Option<bool>) -> (r: (i64, bool))
    ensures
        r.0 == match color {
            Some(c) => c,
            None => DEFAULT_NOTICE_COLOR,
        },
        r.1 == match current_only {
            Some(b) => b,
            None => true,
        },
{
    (
        match color {
            Some(c) => c,
            None => DEFAULT_NOTICE_COLOR,
        },
        match current_only {
            Some(b) => b,
            None => true,
        },
    )
}

/// ``A notice with key `KEY` already exists.``
pub open spec fn duplicate_notice_text(key: Seq<char>) -> Seq<char> {
    "A notice with key `"@ + key + "` already exists."@
}

/// The reply when a notice key is taken.
pub fn duplicate_notice_message(key: &str) -> (r: String)
    ensures
        r@ == duplicate_notice_text(key@),
{
    let mut s = string_of("A notice with key `");
    push_str(&mut s, key);
    push_str(&mut s, "` already exists.");
    s
}

/// The audience of a notice in words.
pub open spec fn notice_mode_text(current_only: bool) -> Seq<char> {
    if current_only {
        "current guilds only"@
    } else {
        "all guilds (including future)"@
    }
}

/// The reply to a created notice.
pub open spec fn notice_created_text(key: Seq<char>, current_only: bool) -> Seq<char> {
    "Created notice `"@ + key + "` ("@ + notice_mode_text(current_only)
        + ").\nUse `/notice send` to distribute it now, or it will be sent on next restart."@
}

/// The reply to a created notice.
pub fn notice_created_message(key: &str, current_only: bool) -> (r: String)
    ensures
        r@ == notice_created_text(key@, current_only),
{
    let mut s = string_of("Created notice `");
    push_str(&mut s, key);
    push_str(&mut s, "` (");
    if current_only {
        push_str(&mut s, "current guilds only");
    } else {
        push_str(&mut s, "all guilds (including future)");
    }
    push_str(&mut s, ").\nUse `/notice send` to distribute it now, or it will be sent on next restart.");
    proof {
        assert(s@ =~= notice_created_text(key@, current_only));
    }
    s
}

/// `Sent N notices (M guilds failed).`
pub open spec fn notice_send_summary_text(sent: u64, failed: u64) -> Seq<char> {
    "Sent "@ + dec_nat(sent as nat) + " notices ("@ + dec_nat(failed as nat) + " guilds failed)."@
}

/// The reply after sending pending notices to every guild.
pub fn notice_send_summary(sent: u64, failed: u64) -> (r: String)
    ensures
        r@ == notice_send_summary_text(sent, failed),
{
    let mut s = string_of("Sent ");
    push_u64(&mut s, sent);
    push_str(&mut s, " notices (");
    push_u64(&mut s, failed);
    push_str(&mut s, " guilds failed).");
    proof {
        assert(s@ =~= notice_send_summary_text(sent, failed));
    }
    s
}

/// The audience of a listed notice.
pub open spec fn notice_list_mode(current_only: i64) -> Seq<char> {
    if current_only != 0 {
        "current only"@
    } else {
        "all guilds"@
    }
}

/// A line of `/notice list`: key, title, audience, how many guilds got it,
/// and when it was created (relative time, or the stored text when it does
/// not parse).
pub open spec fn notice_list_line_text(n: NoticeRow, sent_count: i64, created_ts: Option<i64>) -> Seq<char> {
    "- `"@ + n.key@ + "` — **"@ + n.title@ + "** ("@ + notice_list_mode(n.current_only) + ", sent to "@
        + dec(sent_count as int) + " guilds, created "@ + time_or_raw(created_ts, n.created_at@) + ")"@
}

/// Format one line of `/notice list`.
pub fn notice_list_line(n: &NoticeRow, sent_count: i64, created_ts: Option<i64>) -> (r: String)
    ensures
        r@ == notice_list_line_text(*n, sent_count, created_ts),
{
    let mut s = string_of("- `");
    push_str(&mut s, n.key.as_str());
    push_str(&mut s, "` — **");
    push_str(&mut s, n.title.as_str());
    push_str(&mut s, "** (");
    if n.current_only != 0 {
        push_str(&mut s, "current only");
    } else {
        push_str(&mut s, "all guilds");
    }
    push_str(&mut s, ", sent to ");
    push_i64(&mut s, sent_count);
    push_str(&mut s, " guilds, created ");
    let ghost before = s@;
    match created_ts {
        Some(ts) => push_relative_time(&mut s, ts),
        None => push_str(&mut s, n.created_at.as_str()),
    }
    proof {
        assert(s@ =~= before + time_or_raw(created_ts, n.created_at@));
    }
    push_str(&mut s, ")");
    proof {
        assert(s@ =~= notice_list_line_text(*n, sent_count, created_ts));
    }
    s
}

/// An informational embed: blue, a title and the lines joined by newlines.
pub open spec fn listing_embed_view(title: Seq<char>, lines: Seq<Seq<char>>) -> EmbedView {
    EmbedView {
        color: COLOR_INFO,
        title: title,
        description: join_lines(lines),
        thumbnail: None,
        fields: Seq::empty(),
        timestamp: None,
    }
}

/// Build an informational embed listing `lines` under `title`.
pub fn listing_embed(title: &str, lines: &[String]) -> (e: EmbedSpec)
    ensures
        embed_view(e) == listing_embed_view(title@, views(lines@)),
{
    let e = EmbedSpec {
        color: COLOR_INFO,
        title: string_of(title),
        description: join_with_newlines(lines),
        thumbnail: None,
        fields: Vec::new(),
        timestamp: None,
    };
    proof {
        assert(embed_view(e).fields =~= Seq::<FieldView>::empty());
    }
    e
}

/// The reply to deleting a notice: whether one was found.
pub open spec fn notice_deleted_text(key: Seq<char>, deleted: bool) -> Seq<char> {
    if deleted {
        "Deleted notice `"@ + key + "`."@
    } else {
        "No notice found with key `"@ + key + "`."@
    }
}

/// The reply to deleting a notice.
pub fn notice_deleted_message(key: &str, deleted: bool) -> (r: String)
    ensures
        r@ == notice_deleted_text(key@, deleted),
{
    let mut s = if deleted {
        string_of("Deleted notice `")
    } else {
        string_of("No notice found with key `")
    };
    push_str(&mut s, key);
    push_str(&mut s, "`.");
    s
}

} // verus!
