//! The `/settings` replies: setting and clearing log channels, the
//! settings overview, notice history and feature availability.

use vstd::prelude::*;

use crate::commands::{join_lines, join_with_newlines, push_relative_time, time_or_raw, views};
use crate::permissions::{Feature, PermissionCheck};
use crate::services::embeds::{embed_view, EmbedSpec, EmbedView, FieldView, COLOR_GREEN, COLOR_RED};
use crate::services::notices::SentNotice;
use crate::services::settings::{GuildSettings, LogChannel};
use crate::text::{dec_nat, push_str, push_u64, string_of};

verus! {

/// What a guild command says outside a guild.
pub const GUILD_ONLY: &'static str = "Use this command in a server channel.";

/// What `/settings notices-history` says when nothing was sent.
pub const NO_NOTICE_HISTORY: &'static str = "No notices have been sent to this server yet.";

/// What `/settings features` says when the guild is not cached.
pub const PERMISSIONS_UNKNOWN: &'static str = "Could not determine bot permissions (guild not cached).";

/// The name of a log channel, capitalized.
pub open spec fn log_title(kind: LogChannel) -> Seq<char> {
    match kind {
        LogChannel::Join => "Join log"@,
        LogChannel::Leave => "Leave log"@,
        LogChannel::Moderation => "Moderation log"@,
    }
}

/// The name of a log channel, in lower case.
pub open spec fn log_name(kind: LogChannel) -> Seq<char> {
    match kind {
        LogChannel::Join => "join log"@,
        LogChannel::Leave => "leave log"@,
        LogChannel::Moderation => "moderation log"@,
    }
}

/// A channel mention: `<#ID>`.
pub open spec fn channel_mention(id: u64) -> Seq<char> {
    "<#"@ + dec_nat(id as nat) + ">"@
}

/// What setting a log channel does: clearing stores nothing; otherwise the
/// given channel, or the channel the command was used in, is stored. Paired
/// with the reply.
pub open spec fn log_channel_update_of(
    kind: LogChannel,
    clear: Option<bool>,
    channel: Option<u64>,
    current_channel: u64,
) -> (Option<u64>, Seq<char>) {
    if clear == Some(true) {
        (None, "Cleared **"@ + log_name(kind) + "** channel."@)
    } else {
        let ch = match channel {
            Some(c) => c,
            None => current_channel,
        };
        (Some(ch), "**"@ + log_title(kind) + "** channel set to "@ + channel_mention(ch) + "."@)
    }
}

fn push_log_name(s: &mut String, kind: LogChannel, title: bool)
    ensures
        final(s)@ == old(s)@ + (if title { log_title(kind) } else { log_name(kind) }),
{
    match kind {
        LogChannel::Join => push_str(s, if title { "Join log" } else { "join log" }),
        LogChannel::Leave => push_str(s, if title { "Leave log" } else { "leave log" }),
        LogChannel::Moderation => push_str(s, if title { "Moderation log" } else { "moderation log" }),
    }
}

fn push_channel_mention(s: &mut String, id: u64)
    ensures
        final(s)@ == old(s)@ + channel_mention(id),
{
    push_str(s, "<#");
    push_u64(s, id);
    push_str(s, ">");
    proof {
        assert(final(s)@ =~= old(s)@ + channel_mention(id));
    }
}

/// The value to store for a log channel, and the reply.
pub fn log_channel_update(
    kind: LogChannel,
    clear: Option<bool>,
    channel: Option<u64>,
    current_channel: u64,
) -> (r: (Option<u64>, String))
    ensures
        (r.0, r.1@) == log_channel_update_of(kind, clear, channel, current_channel),
{
    let clearing = match clear {
        Some(b) => b,
        None => false,
    };
    if clearing {
        let mut s = string_of("Cleared **");
        push_log_name(&mut s, kind, false);
        push_str(&mut s, "** channel.");
        proof {
            assert(s@ =~= log_channel_update_of(kind, clear, channel, current_channel).1);
        }
        (None, s)
    } else {
        let ch = match channel {
            Some(c) => c,
            None => current_channel,
        };
        let mut s = string_of("**");
        push_log_name(&mut s, kind, true);
        push_str(&mut s, "** channel set to ");
        push_channel_mention(&mut s, ch);
        push_str(&mut s, ".");
        proof {
            assert(s@ =~= log_channel_update_of(kind, clear, channel, current_channel).1);
        }
        (Some(ch), s)
    }
}

/// A configured channel, or a dash when not set.
pub open spec fn channel_setting_text(ch: Option<u64>) -> Seq<char> {
    match ch {
        Some(c) => channel_mention(c),
        None => "— not set —"@,
    }
}

/// The settings overview.
pub open spec fn settings_overview_text(s: GuildSettings) -> Seq<char> {
    "**Current settings for this server**\n• **Join log:** "@ + channel_setting_text(s.join_log)
        + "\n• **Leave log:** "@ + channel_setting_text(s.leave_log) + "\n• **Moderation log:** "@
        + channel_setting_text(s.mod_log) + "\n• **Notices:** "@ + (if s.notices_enabled {
        "Enabled"@
    } else {
        "Disabled"@
    })
}

fn push_channel_setting(s: &mut String, ch: Option<u64>)
    ensures
        final(s)@ == old(s)@ + channel_setting_text(ch),
{
    match ch {
        Some(c) => push_channel_mention(s, c),
        None => push_str(s, "— not set —"),
    }
}

/// The reply to `/settings show`.
pub fn settings_overview(settings: &GuildSettings) -> (r: String)
    ensures
        r@ == settings_overview_text(*settings),
{
    let mut s = string_of("**Current settings for this server**\n• **Join log:** ");
    push_channel_setting(&mut s, settings.join_log);
    push_str(&mut s, "\n• **Leave log:** ");
    push_channel_setting(&mut s, settings.leave_log);
    push_str(&mut s, "\n• **Moderation log:** ");
    push_channel_setting(&mut s, settings.mod_log);
    push_str(&mut s, "\n• **Notices:** ");
    if settings.notices_enabled {
        push_str(&mut s, "Enabled");
    } else {
        push_str(&mut s, "Disabled");
    }
    proof {
        assert(s@ =~= settings_overview_text(*settings));
    }
    s
}

/// `Notices are now **enabled**.` (or disabled).
pub open spec fn notices_toggled_text(enabled: bool) -> Seq<char> {
    "Notices are now **"@ + (if enabled {
        "enabled"@
    } else {
        "disabled"@
    }) + "**."@
}

/// The reply to `/settings notices`.
pub fn notices_toggled_message(enabled: bool) -> (r: String)
    ensures
        r@ == notices_toggled_text(enabled),
{
    let mut s = string_of("Notices are now **");
    if enabled {
        push_str(&mut s, "enabled");
    } else {
        push_str(&mut s, "disabled");
    }
    push_str(&mut s, "**.");
    proof {
        assert(s@ =~= notices_toggled_text(enabled));
    }
    s
}

/// A line of the notice history: ``- `KEY` sent TIME``, the time as
/// relative-time markup or the stored text when it does not parse.
pub open spec fn notice_history_line_text(n: SentNotice, sent_ts: Option<i64>) -> Seq<char> {
    "- `"@ + n.notice_key@ + "` sent "@ + time_or_raw(sent_ts, n.sent_at@)
}

/// Format a line of the notice history.
pub fn notice_history_line(n: &SentNotice, sent_ts: Option<i64>) -> (r: String)
    ensures
        r@ == notice_history_line_text(*n, sent_ts),
{
    let mut s = string_of("- `");
    push_str(&mut s, n.notice_key.as_str());
    push_str(&mut s, "` sent ");
    let ghost before = s@;
    match sent_ts {
        Some(ts) => push_relative_time(&mut s, ts),
        None => push_str(&mut s, n.sent_at.as_str()),
    }
    proof {
        assert(s@ =~= before + time_or_raw(sent_ts, n.sent_at@));
        assert(s@ =~= notice_history_line_text(*n, sent_ts));
    }
    s
}

/// A permission line: a check mark or a cross, then the label.
pub open spec fn permission_line_text(p: PermissionCheck) -> Seq<char> {
    (if p.granted {
        "\u{2705}"@
    } else {
        "\u{274c}"@
    }) + " "@ + p.label@
}

/// The embed describing a feature: green when available, red otherwise;
/// the feature's name, then its description and one line per permission.
pub open spec fn feature_embed_view(f: Feature) -> EmbedView {
    EmbedView {
        color: if f.available {
            COLOR_GREEN
        } else {
            COLOR_RED
        },
        title: f.name@,
        description: f.description@ + "\n\n"@ + join_lines(
            f.permissions@.map_values(|p: PermissionCheck| permission_line_text(p)),
        ),
        thumbnail: None,
        fields: Seq::empty(),
        timestamp: None,
    }
}

/// Build the embed describing a feature.
pub fn feature_embed(f: &Feature) -> (e: EmbedSpec)
    ensures
        embed_view(e) == feature_embed_view(*f),
{
    let mut lines: Vec<String> = Vec::new();
    let mut i: usize = 0;
    while i < f.permissions.len()
        invariant
            i <= f.permissions@.len(),
            lines@.len() == i,
            forall|k: int| 0 <= k < i ==> #[trigger] lines@[k]@ == permission_line_text(f.permissions@[k]),
        decreases f.permissions@.len() - i,
    {
        let p = &f.permissions[i];
        let mut s = if p.granted {
            string_of("\u{2705}")
        } else {
            string_of("\u{274c}")
        };
        push_str(&mut s, " ");
        push_str(&mut s, p.label);
        proof {
            assert(s@ =~= permission_line_text(*p));
        }
        lines.push(s);
        i = i + 1;
    }
    let mut desc = string_of(f.description);
    push_str(&mut desc, "\n\n");
    let joined = join_with_newlines(lines.as_slice());
    push_str(&mut desc, joined.as_str());
    proof {
        assert(views(lines@) =~= f.permissions@.map_values(|p: PermissionCheck| permission_line_text(p)));
        assert(desc@ =~= feature_embed_view(*f).description);
    }
    let e = EmbedSpec {
        color: if f.available { COLOR_GREEN } else { COLOR_RED },
        title: string_of(f.name),
        description: desc,
        thumbnail: None,
        fields: Vec::new(),
        timestamp: None,
    };
    proof {
        assert(embed_view(e).fields =~= Seq::<FieldView>::empty());
    }
    e
}

} // verus!
