//! Shared formatting for slash-command replies: member labels, stay
//! history lines and splitting long line lists into embed descriptions.

use vstd::prelude::*;
use vstd::string::*;

use crate::services::embeds::{embed_view, field_view, fields_view, EmbedField, EmbedSpec, EmbedView, FieldView};
use crate::services::stats::{DepartureType, StayRow};
use crate::text::{chars_of, dec, push_char, push_i64, push_str, push_u64, string_of};

pub mod botstats;
pub mod member;
pub mod notice;
pub mod settings;
pub mod stats;

verus! {

/// Discord's limit on an embed description, in characters.
pub const MAX_EMBED_DESCRIPTION_CHARS: usize = 4096;

/// The characters of an optional string.
pub open spec fn opt_chars(o: Option<String>) -> Option<Seq<char>> {
    match o {
        Some(s) => Some(s@),
        None => None,
    }
}

// ── Timestamps ───────────────────────────────────────────────────────────────

/// The Unix time (seconds) that chrono's RFC 2822 parser gives for `s`, or
/// `None` where it rejects `s`.
pub uninterp spec fn rfc2822_timestamp(s: Seq<char>) -> Option<i64>;

/// Parse an RFC2822 timestamp string into a Unix timestamp (seconds).
///
/// Calls `chrono::DateTime::parse_from_rfc2822` and takes `timestamp()` of the
/// result; the contract only ties the result to the argument through
/// `rfc2822_timestamp`.
#[verifier::external_body]
pub fn rfc2822_to_unix(s: &str) -> (r: Option<i64>)
    ensures
        r == rfc2822_timestamp(s@),
{
    match chrono::DateTime::parse_from_rfc2822(s) {
        Ok(dt) => Some(dt.timestamp()),
        Err(_) => None,
    }
}

/// Discord's relative-time markup for a Unix time: `<t:TS:R>`.
pub open spec fn relative_time(ts: int) -> Seq<char> {
    "<t:"@ + dec(ts) + ":R>"@
}

/// A parsed timestamp as relative-time markup, or the raw text when it did
/// not parse.
pub open spec fn time_or_raw(parsed: Option<i64>, raw: Seq<char>) -> Seq<char> {
    match parsed {
        Some(ts) => relative_time(ts as int),
        None => raw,
    }
}

/// Appends `<t:TS:R>`.
pub fn push_relative_time(s: &mut String, ts: i64)
    ensures
        final(s)@ == old(s)@ + relative_time(ts as int),
{
    push_str(s, "<t:");
    push_i64(s, ts);
    push_str(s, ":R>");
    proof {
        assert(old(s)@ + "<t:"@ + dec(ts as int) + ":R>"@ =~= old(s)@ + relative_time(ts as int));
    }
}

/// `<t:TS:R>` for a parsed time, else the raw text.
pub fn time_or_raw_text(parsed: Option<i64>, raw: &str) -> (r: String)
    ensures
        r@ == time_or_raw(parsed, raw@),
{
    match parsed {
        Some(ts) => {
            let mut s = String::new();
            push_relative_time(&mut s, ts);
            proof {
                assert(s@ =~= relative_time(ts as int));
            }
            s
        },
        None => string_of(raw),
    }
}

// ── Member labels ────────────────────────────────────────────────────────────

/// The name shown for a member: a non-empty server nickname, else a
/// non-empty display name, else the account username (which may be empty).
pub open spec fn pick_name(
    account_username: Option<Seq<char>>,
    display_name: Option<Seq<char>>,
    server_nickname: Option<Seq<char>>,
) -> Option<Seq<char>> {
    if server_nickname is Some && server_nickname->0.len() > 0 {
        server_nickname
    } else if display_name is Some && display_name->0.len() > 0 {
        display_name
    } else {
        account_username
    }
}

/// `name (aka account)` when the picked name differs from the account
/// username, the picked name alone otherwise, and the user id when there is
/// no name at all.
pub open spec fn member_label(
    user_id: Seq<char>,
    account_username: Option<Seq<char>>,
    display_name: Option<Seq<char>>,
    server_nickname: Option<Seq<char>>,
) -> Seq<char> {
    match pick_name(account_username, display_name, server_nickname) {
        Some(name) => if account_username is Some && account_username->0 != name {
            name + " (aka "@ + account_username->0 + ")"@
        } else {
            name
        },
        None => user_id,
    }
}

fn nonempty_name(o: &Option<String>) -> (r: bool)
    ensures
        r == (o is Some && o->0@.len() > 0),
{
    match o {
        Some(s) => s.as_str().unicode_len() > 0,
        None => false,
    }
}

/// Format a member label from cached names, with a non-pinging fallback.
/// Priority: server_nickname > display_name > account_username > user_id
pub fn format_member_label(
    user_id: &str,
    account_username: &Option<String>,
    display_name: &Option<String>,
    server_nickname: &Option<String>,
) -> (r: String)
    ensures
        r@ == member_label(
            user_id@,
            opt_chars(*account_username),
            opt_chars(*display_name),
            opt_chars(*server_nickname),
        ),
{
    let best: Option<&String> = if nonempty_name(server_nickname) {
        server_nickname.as_ref()
    } else if nonempty_name(display_name) {
        display_name.as_ref()
    } else {
        account_username.as_ref()
    };
    match best {
        Some(name) => match account_username {
            Some(acc) => {
                if *acc == *name {
                    name.clone()
                } else {
                    let mut s = name.clone();
                    push_str(&mut s, " (aka ");
                    push_str(&mut s, acc.as_str());
                    push_str(&mut s, ")");
                    s
                }
            },
            None => name.clone(),
        },
        None => string_of(user_id),
    }
}

// ── Stay history ─────────────────────────────────────────────────────────────

/// One stay of a member, as the history queries return it.
#[derive(Debug, Clone)]
pub struct MembershipRow {
    /// RFC 2822 time of the join.
    pub joined_at: String,
    /// RFC 2822 time of the departure, for a closed stay.
    pub left_at: Option<String>,
    pub banned: bool,
    pub kicked: bool,
    pub invite_code: Option<String>,
    pub inviter_id: Option<String>,
    pub inviter_name: Option<String>,
    /// The member's display name and server nickname during the stay.
    pub display_name: Option<String>,
    pub server_nickname: Option<String>,
    /// Where the stay's last embed was posted: channel and message id.
    pub embed_channel_id: Option<String>,
    pub embed_message_id: Option<String>,
}

/// The history row for a recorded stay: banned or kicked as its departure
/// type says, with its invite; names and embed location are not part of a
/// stay record.
pub open spec fn stay_history_row(st: StayRow) -> MembershipRow {
    MembershipRow {
        joined_at: st.joined_at,
        left_at: st.left_at,
        banned: st.departure_type == Some(DepartureType::Ban),
        kicked: st.departure_type == Some(DepartureType::Kick),
        invite_code: st.invite_code,
        inviter_id: st.inviter_id,
        inviter_name: None,
        display_name: None,
        server_nickname: None,
        embed_channel_id: None,
        embed_message_id: None,
    }
}

fn copy_opt(o: &Option<String>) -> (r: Option<String>)
    ensures
        r == *o,
{
    match o {
        Some(s) => Some(s.clone()),
        None => None,
    }
}

/// The history rows for a member's recorded stays, in order.
pub fn stay_history_rows(stays: &[StayRow]) -> (r: Vec<MembershipRow>)
    ensures
        r@.len() == stays@.len(),
        forall|i: int| 0 <= i < stays@.len() ==> #[trigger] r@[i] == stay_history_row(stays@[i]),
{
    let mut out: Vec<MembershipRow> = Vec::new();
    let mut i: usize = 0;
    while i < stays.len()
        invariant
            i <= stays@.len(),
            out@.len() == i,
            forall|k: int| 0 <= k < i ==> #[trigger] out@[k] == stay_history_row(stays@[k]),
        decreases stays@.len() - i,
    {
        let st = &stays[i];
        let banned = match st.departure_type {
            Some(DepartureType::Ban) => true,
            _ => false,
        };
        let kicked = match st.departure_type {
            Some(DepartureType::Kick) => true,
            _ => false,
        };
        out.push(MembershipRow {
            joined_at: st.joined_at.clone(),
            left_at: copy_opt(&st.left_at),
            banned,
            kicked,
            invite_code: copy_opt(&st.invite_code),
            inviter_id: copy_opt(&st.inviter_id),
            inviter_name: None,
            display_name: None,
            server_nickname: None,
            embed_channel_id: None,
            embed_message_id: None,
        });
        i = i + 1;
    }
    out
}

/// How a closed stay ended, as shown in history lines.
pub open spec fn stay_action(banned: bool, kicked: bool) -> Seq<char> {
    if banned {
        "banned"@
    } else if kicked {
        "kicked"@
    } else {
        "left"@
    }
}

/// The right-hand side of a stay line: `TIME (action)` or `now`.
pub open spec fn stay_end(row: MembershipRow, left_ts: Option<i64>) -> Seq<char> {
    match row.left_at {
        Some(l) => time_or_raw(left_ts, l@) + " ("@ + stay_action(row.banned, row.kicked) + ")"@,
        None => "now"@,
    }
}

/// The invite suffix of a stay line.
pub open spec fn stay_invite(code: Option<String>) -> Seq<char> {
    match code {
        Some(c) => " · invite `"@ + c@ + "`"@,
        None => Seq::empty(),
    }
}

/// `**Stay #N:** JOINED → END[ · invite `CODE`]`.
pub open spec fn stay_line(
    num: int,
    row: MembershipRow,
    joined_ts: Option<i64>,
    left_ts: Option<i64>,
) -> Seq<char> {
    "**Stay #"@ + dec(num) + ":** "@ + time_or_raw(joined_ts, row.joined_at@) + " → "@ + stay_end(
        row,
        left_ts,
    ) + stay_invite(row.invite_code)
}

/// The stay line for the `i`-th row (numbered from 1), with its times parsed
/// as RFC 2822.
pub open spec fn stay_line_of(i: int, row: MembershipRow) -> Seq<char> {
    stay_line(
        i + 1,
        row,
        rfc2822_timestamp(row.joined_at@),
        match row.left_at {
            Some(l) => rfc2822_timestamp(l@),
            None => None,
        },
    )
}

/// Format one stay line from a row and its already parsed join and leave
/// times.
pub fn format_stay_line(
    num: usize,
    row: &MembershipRow,
    joined_ts: Option<i64>,
    left_ts: Option<i64>,
) -> (r: String)
    ensures
        r@ == stay_line(num as int, *row, joined_ts, left_ts),
{
    let mut s = string_of("**Stay #");
    push_u64(&mut s, num as u64);
    push_str(&mut s, ":** ");
    let joined = time_or_raw_text(joined_ts, row.joined_at.as_str());
    push_str(&mut s, joined.as_str());
    push_str(&mut s, " → ");
    let ghost before_end = s@;
    match &row.left_at {
        Some(l) => {
            let t = time_or_raw_text(left_ts, l.as_str());
            push_str(&mut s, t.as_str());
            push_str(&mut s, " (");
            if row.banned {
                push_str(&mut s, "banned");
            } else if row.kicked {
                push_str(&mut s, "kicked");
            } else {
                push_str(&mut s, "left");
            }
            push_str(&mut s, ")");
        },
        None => {
            push_str(&mut s, "now");
        },
    }
    proof {
        assert(s@ =~= before_end + stay_end(*row, left_ts));
    }
    let ghost before_invite = s@;
    match &row.invite_code {
        Some(c) => {
            push_str(&mut s, " · invite `");
            push_str(&mut s, c.as_str());
            push_str(&mut s, "`");
        },
        None => {},
    }
    proof {
        assert(s@ =~= before_invite + stay_invite(row.invite_code));
        assert(s@ =~= stay_line(num as int, *row, joined_ts, left_ts));
    }
    s
}

/// Format membership history rows into compact stay lines.
///
/// Each stay becomes one line like:
///   **Stay #1:** <t:123:R> → <t:456:R> (left) · invite `abc`
///   **Stay #2:** <t:789:R> → now
pub fn format_stay_lines(rows: &[MembershipRow]) -> (r: Vec<String>)
    ensures
        r@.len() == rows@.len(),
        forall|i: int| 0 <= i < rows@.len() ==> #[trigger] r@[i]@ == stay_line_of(i, rows@[i]),
{
    let mut out: Vec<String> = Vec::new();
    let mut i: usize = 0;
    while i < rows.len()
        invariant
            i <= rows@.len(),
            out@.len() == i,
            forall|k: int| 0 <= k < i ==> #[trigger] out@[k]@ == stay_line_of(k, rows@[k]),
        decreases rows@.len() - i,
    {
        let row = &rows[i];
        let joined_ts = rfc2822_to_unix(row.joined_at.as_str());
        let left_ts = match &row.left_at {
            Some(l) => rfc2822_to_unix(l.as_str()),
            None => None,
        };
        let line = format_stay_line(i + 1, row, joined_ts, left_ts);
        out.push(line);
        i = i + 1;
    }
    out
}

// ── Chunking ─────────────────────────────────────────────────────────────────

/// One step of packing lines into chunks. The state is the finished chunks
/// and the chunk being filled; a line joins the current chunk (after a
/// newline when the chunk is non-empty) unless that would pass `max`
/// characters, in which case the current chunk is closed (when non-empty)
/// and the line starts the next one.
pub open spec fn chunk_step(
    state: (Seq<Seq<char>>, Seq<char>),
    line: Seq<char>,
    max: nat,
) -> (Seq<Seq<char>>, Seq<char>) {
    let chunks = state.0;
    let cur = state.1;
    let extra = if cur.len() == 0 { line.len() } else { line.len() + 1 };
    if cur.len() + extra > max {
        (if cur.len() > 0 { chunks.push(cur) } else { chunks }, line)
    } else {
        (chunks, if cur.len() == 0 { line } else { cur.push('\n') + line })
    }
}

/// The packing state after all of `lines`.
pub open spec fn chunk_fold(lines: Seq<Seq<char>>, max: nat) -> (Seq<Seq<char>>, Seq<char>)
    decreases lines.len(),
{
    if lines.len() == 0 {
        (Seq::empty(), Seq::empty())
    } else {
        chunk_step(chunk_fold(lines.drop_last(), max), lines.last(), max)
    }
}

/// The chunks of `lines`: the finished ones, then the last one when non-empty.
pub open spec fn chunks_of(lines: Seq<Seq<char>>, max: nat) -> Seq<Seq<char>> {
    let st = chunk_fold(lines, max);
    if st.1.len() > 0 {
        st.0.push(st.1)
    } else {
        st.0
    }
}

/// The characters of each string.
pub open spec fn views(v: Seq<String>) -> Seq<Seq<char>> {
    v.map_values(|s: String| s@)
}

/// A line cut into pieces of at most `max` characters: the whole line when
/// it fits, else its first `max` characters and then the pieces of the
/// rest. (A zero limit leaves the line whole.)
pub open spec fn line_pieces(l: Seq<char>, max: nat) -> Seq<Seq<char>>
    decreases l.len(),
{
    if max == 0 || l.len() <= max {
        seq![l]
    } else {
        seq![l.take(max as int)] + line_pieces(l.skip(max as int), max)
    }
}

/// The pieces of all `lines`, in order.
pub open spec fn all_pieces(lines: Seq<Seq<char>>, max: nat) -> Seq<Seq<char>>
    decreases lines.len(),
{
    if lines.len() == 0 {
        Seq::empty()
    } else {
        all_pieces(lines.drop_last(), max) + line_pieces(lines.last(), max)
    }
}

/// The chunks `lines` are sent in: the pieces of the lines, packed.
pub open spec fn chunk_text(lines: Seq<Seq<char>>, max: nat) -> Seq<Seq<char>> {
    chunks_of(all_pieces(lines, max), max)
}

/// The characters `a..b` of `cs` as a string.
fn char_range(cs: &Vec<char>, a: usize, b: usize) -> (r: String)
    requires
        a <= b <= cs@.len(),
    ensures
        r@ == cs@.subrange(a as int, b as int),
{
    let mut r = String::new();
    let mut k: usize = a;
    proof {
        assert(cs@.subrange(a as int, a as int) =~= Seq::<char>::empty());
    }
    while k < b
        invariant
            a <= k <= b,
            b <= cs@.len(),
            r@ == cs@.subrange(a as int, k as int),
        decreases b - k,
    {
        push_char(&mut r, cs[k]);
        proof {
            assert(cs@.subrange(a as int, k + 1) =~= cs@.subrange(a as int, k as int).push(cs@[k as int]));
        }
        k = k + 1;
    }
    r
}

/// Cut a line into pieces of at most `max` characters.
fn split_line(line: &str, max: usize) -> (r: Vec<String>)
    requires
        max > 0,
    ensures
        views(r@) == line_pieces(line@, max as nat),
{
    let cs = chars_of(line);
    let n = cs.len();
    let mut out: Vec<String> = Vec::new();
    let mut k: usize = 0;
    proof {
        assert(cs@.skip(0) =~= cs@);
        assert(views(out@) =~= Seq::<Seq<char>>::empty());
        assert(views(out@) + line_pieces(cs@.skip(0), max as nat) =~= line_pieces(line@, max as nat));
    }
    while n - k > max
        invariant
            cs@ == line@,
            n == cs@.len(),
            k <= n,
            max > 0,
            views(out@) + line_pieces(cs@.skip(k as int), max as nat) == line_pieces(line@, max as nat),
        decreases n - k,
    {
        let piece = char_range(&cs, k, k + max);
        let ghost rest = cs@.skip(k as int);
        let ghost before = views(out@);
        proof {
            assert(rest.take(max as int) =~= cs@.subrange(k as int, (k + max) as int));
            assert(rest.skip(max as int) =~= cs@.skip((k + max) as int));
            assert(line_pieces(rest, max as nat) == seq![rest.take(max as int)] + line_pieces(
                rest.skip(max as int),
                max as nat,
            ));
        }
        out.push(piece);
        proof {
            assert(views(out@) =~= before.push(piece@));
            assert(before.push(piece@) + line_pieces(cs@.skip((k + max) as int), max as nat) =~= before + (
            seq![piece@] + line_pieces(cs@.skip((k + max) as int), max as nat)));
        }
        k = k + max;
    }
    let last = char_range(&cs, k, n);
    let ghost before = views(out@);
    proof {
        assert(cs@.skip(k as int) =~= cs@.subrange(k as int, n as int));
        assert(line_pieces(cs@.skip(k as int), max as nat) == seq![last@]);
    }
    out.push(last);
    proof {
        assert(views(out@) =~= before.push(last@));
        assert(before + seq![last@] =~= before.push(last@));
    }
    out
}

/// Split lines into description chunks, each at most `max_chars`
/// characters (counted in Unicode scalar values). Lines are packed in order,
/// joined by newlines; a line longer than `max_chars` is cut into pieces of
/// `max_chars` characters (the last piece holding the rest), which are
/// packed like lines.
pub fn chunk_lines(lines: &[String], max_chars: usize) -> (r: Vec<String>)
    requires
        max_chars > 0,
    ensures
        views(r@) == chunk_text(views(lines@), max_chars as nat),
        forall|i: int| 0 <= i < r@.len() ==> #[trigger] r@[i]@.len() <= max_chars,
{
    let mut chunks: Vec<String> = Vec::new();
    let mut current = String::new();
    let mut current_len: usize = 0;
    let mut i: usize = 0;
    let ghost ls = views(lines@);
    let ghost m = max_chars as nat;
    proof {
        assert(ls.subrange(0, 0) =~= Seq::<Seq<char>>::empty());
        assert(views(chunks@) =~= Seq::<Seq<char>>::empty());
    }
    while i < lines.len()
        invariant
            i <= lines@.len(),
            ls == views(lines@),
            m == max_chars as nat,
            max_chars > 0,
            current_len as nat == current@.len(),
            (views(chunks@), current@) == chunk_fold(all_pieces(ls.subrange(0, i as int), m), m),
        decreases lines@.len() - i,
    {
        let pieces = split_line(lines[i].as_str(), max_chars);
        let ghost base = all_pieces(ls.subrange(0, i as int), m);
        let ghost ps = views(pieces@);
        let mut j: usize = 0;
        proof {
            assert(base + ps.subrange(0, 0) =~= base);
        }
        while j < pieces.len()
            invariant
                j <= pieces@.len(),
                ps == views(pieces@),
                m == max_chars as nat,
                current_len as nat == current@.len(),
                (views(chunks@), current@) == chunk_fold(base + ps.subrange(0, j as int), m),
            decreases pieces@.len() - j,
        {
            let piece = &pieces[j];
            let piece_len = piece.as_str().unicode_len();
            let extra: u128 = if current_len == 0 {
                piece_len as u128
            } else {
                piece_len as u128 + 1
            };
            proof {
                let s1 = base + ps.subrange(0, j + 1);
                assert(s1.drop_last() =~= base + ps.subrange(0, j as int));
                assert(s1.last() == piece@);
            }
            if current_len as u128 + extra > max_chars as u128 {
                if current_len > 0 {
                    let ghost old_chunks = views(chunks@);
                    chunks.push(current);
                    proof {
                        assert(views(chunks@) =~= old_chunks.push(current@));
                    }
                }
                current = piece.clone();
                current_len = piece_len;
            } else {
                let ghost before = current@;
                if current_len > 0 {
                    push_char(&mut current, '\n');
                }
                push_str(&mut current, piece.as_str());
                current_len = current_len + extra as usize;
                proof {
                    if before.len() == 0 {
                        assert(current@ =~= piece@);
                    }
                }
            }
            j = j + 1;
        }
        proof {
            assert(ps.subrange(0, ps.len() as int) =~= ps);
            let pre = ls.subrange(0, i + 1);
            assert(pre.drop_last() =~= ls.subrange(0, i as int));
            assert(pre.last() == lines@[i as int]@);
        }
        i = i + 1;
    }
    proof {
        assert(ls.subrange(0, lines@.len() as int) =~= ls);
    }
    if current_len > 0 {
        let ghost old_chunks = views(chunks@);
        chunks.push(current);
        proof {
            assert(views(chunks@) =~= old_chunks.push(current@));
        }
    }
    proof {
        lemma_chunks_within_limit(ls, m);
        assert(views(chunks@) == chunk_text(ls, m));
        assert forall|k: int| 0 <= k < chunks@.len() implies #[trigger] chunks@[k]@.len() <= max_chars by {
            assert(views(chunks@)[k] == chunks@[k]@);
            assert(chunk_text(ls, m)[k] == chunks@[k]@);
        }
    }
    chunks
}

/// The title of the `idx`-th continuation embed: `TITLE — cont. #IDX`.
pub open spec fn continuation_title_text(title: Seq<char>, idx: int) -> Seq<char> {
    title + " — cont. #"@ + dec(idx)
}

/// The `idx`-th embed of a report split into `chunks`: the first has the
/// thumbnail and the first fields; the others carry only a continuation
/// title.
pub open spec fn chunked_embed_at(
    color: u32,
    title: Seq<char>,
    thumbnail: Option<Seq<char>>,
    first_fields: Seq<FieldView>,
    chunks: Seq<Seq<char>>,
    idx: int,
) -> EmbedView {
    if idx == 0 {
        EmbedView {
            color: color,
            title: title,
            description: chunks[0],
            thumbnail: thumbnail,
            fields: first_fields,
            timestamp: None,
        }
    } else {
        EmbedView {
            color: color,
            title: continuation_title_text(title, idx),
            description: chunks[idx],
            thumbnail: None,
            fields: Seq::empty(),
            timestamp: None,
        }
    }
}

fn copy_fields(fields: &Vec<EmbedField>) -> (r: Vec<EmbedField>)
    ensures
        fields_view(r@) == fields_view(fields@),
{
    let mut out: Vec<EmbedField> = Vec::new();
    let mut i: usize = 0;
    while i < fields.len()
        invariant
            i <= fields@.len(),
            fields_view(out@) == fields_view(fields@.subrange(0, i as int)),
        decreases fields@.len() - i,
    {
        let f = &fields[i];
        let g = EmbedField { name: f.name.clone(), value: f.value.clone(), inline: f.inline };
        let ghost before = out@;
        out.push(g);
        proof {
            assert(fields@.subrange(0, i + 1) =~= fields@.subrange(0, i as int).push(fields@[i as int]));
            assert(fields_view(out@) =~= fields_view(before).push(field_view(g)));
            assert(fields_view(fields@.subrange(0, i + 1)) =~= fields_view(fields@.subrange(0, i as int)).push(
                field_view(fields@[i as int]),
            ));
        }
        i = i + 1;
    }
    proof {
        assert(fields@.subrange(0, fields@.len() as int) =~= fields@);
    }
    out
}

/// The embeds a report is sent as: its lines packed into descriptions of
/// at most 4096 characters, one embed per description.
pub fn chunked_embeds(
    color: u32,
    title: &str,
    thumbnail: &Option<String>,
    first_fields: &Vec<EmbedField>,
    lines: &[String],
) -> (r: Vec<EmbedSpec>)
    ensures
        r@.len() == chunk_text(views(lines@), MAX_EMBED_DESCRIPTION_CHARS as nat).len(),
        forall|i: int|
            0 <= i < r@.len() ==> #[trigger] embed_view(r@[i]) == chunked_embed_at(
                color,
                title@,
                opt_chars(*thumbnail),
                fields_view(first_fields@),
                chunk_text(views(lines@), MAX_EMBED_DESCRIPTION_CHARS as nat),
                i,
            ),
{
    let chunks = chunk_lines(lines, MAX_EMBED_DESCRIPTION_CHARS);
    let ghost cs = chunk_text(views(lines@), MAX_EMBED_DESCRIPTION_CHARS as nat);
    let mut out: Vec<EmbedSpec> = Vec::new();
    let mut i: usize = 0;
    while i < chunks.len()
        invariant
            i <= chunks@.len(),
            views(chunks@) == cs,
            out@.len() == i,
            forall|k: int|
                0 <= k < i ==> #[trigger] embed_view(out@[k]) == chunked_embed_at(
                    color,
                    title@,
                    opt_chars(*thumbnail),
                    fields_view(first_fields@),
                    cs,
                    k,
                ),
        decreases chunks@.len() - i,
    {
        let desc = chunks[i].clone();
        proof {
            assert(cs[i as int] == chunks@[i as int]@);
        }
        let e = if i == 0 {
            EmbedSpec {
                color: color,
                title: string_of(title),
                description: desc,
                thumbnail: match thumbnail {
                    Some(t) => Some(t.clone()),
                    None => None,
                },
                fields: copy_fields(first_fields),
                timestamp: None,
            }
        } else {
            let mut t = string_of(title);
            push_str(&mut t, " — cont. #");
            push_u64(&mut t, i as u64);
            proof {
                assert(t@ =~= continuation_title_text(title@, i as int));
            }
            let e = EmbedSpec {
                color: color,
                title: t,
                description: desc,
                thumbnail: None,
                fields: Vec::new(),
                timestamp: None,
            };
            proof {
                assert(embed_view(e).fields =~= Seq::<FieldView>::empty());
            }
            e
        };
        out.push(e);
        i = i + 1;
    }
    out
}

// ── Laws of chunking ─────────────────────────────────────────────────────────

/// Lines joined with '\n'.
pub open spec fn join_lines(s: Seq<Seq<char>>) -> Seq<char>
    decreases s.len(),
{
    if s.len() == 0 {
        Seq::empty()
    } else if s.len() == 1 {
        s[0]
    } else {
        join_lines(s.drop_last()).push('\n') + s.last()
    }
}

/// The lines joined with '\n' (as `join("\n")` does).
pub fn join_with_newlines(lines: &[String]) -> (r: String)
    ensures
        r@ == join_lines(views(lines@)),
{
    let mut out = String::new();
    let mut i: usize = 0;
    while i < lines.len()
        invariant
            i <= lines@.len(),
            out@ == join_lines(views(lines@).subrange(0, i as int)),
        decreases lines@.len() - i,
    {
        let ghost pre = views(lines@).subrange(0, i + 1);
        proof {
            assert(pre.drop_last() =~= views(lines@).subrange(0, i as int));
            assert(pre.last() == lines@[i as int]@);
        }
        if i > 0 {
            push_char(&mut out, '\n');
        } else {
            proof {
                assert(out@ =~= Seq::<char>::empty());
            }
        }
        push_str(&mut out, lines[i].as_str());
        proof {
            if i == 0 {
                assert(out@ =~= lines@[0]@);
            }
        }
        i = i + 1;
    }
    proof {
        assert(views(lines@).subrange(0, lines@.len() as int) =~= views(lines@));
    }
    out
}

/// A chunk is within the limit, or it is one input line that alone is longer.
pub open spec fn chunk_fits(c: Seq<char>, lines: Seq<Seq<char>>, max: nat) -> bool {
    c.len() <= max || lines.contains(c)
}

proof fn lemma_fold_shape(lines: Seq<Seq<char>>, max: nat)
    ensures
        forall|i: int|
            0 <= i < chunk_fold(lines, max).0.len() ==> #[trigger] chunk_fold(lines, max).0[i].len()
                > 0,
        forall|i: int|
            0 <= i < chunk_fold(lines, max).0.len() ==> chunk_fits(
                #[trigger] chunk_fold(lines, max).0[i],
                lines,
                max,
            ),
        chunk_fits(chunk_fold(lines, max).1, lines, max),
    decreases lines.len(),
{
    if lines.len() > 0 {
        let prev = lines.drop_last();
        lemma_fold_shape(prev, max);
        let st = chunk_fold(prev, max);
        assert forall|c: Seq<char>| prev.contains(c) implies lines.contains(c) by {
            let k = choose|k: int| 0 <= k < prev.len() && prev[k] == c;
            assert(lines[k] == c);
        }
        assert(lines.contains(lines.last())) by {
            assert(lines[lines.len() - 1] == lines.last());
        }
        let nxt = chunk_fold(lines, max);
        assert forall|i: int| 0 <= i < nxt.0.len() implies chunk_fits(#[trigger] nxt.0[i], lines, max)
            && nxt.0[i].len() > 0 by {
            if i < st.0.len() {
                assert(nxt.0[i] == st.0[i]);
            } else {
                assert(nxt.0[i] == st.1);
            }
        }
    }
}

proof fn lemma_line_pieces(l: Seq<char>, max: nat)
    requires
        max > 0,
    ensures
        forall|k: int| 0 <= k < line_pieces(l, max).len() ==> #[trigger] line_pieces(l, max)[k].len() <= max,
        l.len() > 0 ==> forall|k: int|
            0 <= k < line_pieces(l, max).len() ==> #[trigger] line_pieces(l, max)[k].len() > 0,
        concat(line_pieces(l, max)) == l,
        l.len() <= max ==> line_pieces(l, max) == seq![l],
    decreases l.len(),
{
    if l.len() <= max {
        let p = line_pieces(l, max);
        assert(p.drop_first() =~= Seq::<Seq<char>>::empty());
        assert(concat(p) == l + concat(p.drop_first()));
        assert(l + Seq::<char>::empty() =~= l);
    } else {
        let rest = l.skip(max as int);
        lemma_line_pieces(rest, max);
        let p = line_pieces(l, max);
        let q = line_pieces(rest, max);
        assert(p == seq![l.take(max as int)] + q);
        assert forall|k: int| 0 <= k < p.len() implies #[trigger] p[k].len() <= max && (l.len() > 0
            ==> p[k].len() > 0) by {
            if k > 0 {
                assert(p[k] == q[k - 1]);
            }
        }
        assert(p.drop_first() =~= q);
        assert(l.take(max as int) + rest =~= l);
    }
}

proof fn lemma_all_pieces(lines: Seq<Seq<char>>, max: nat)
    requires
        max > 0,
    ensures
        forall|k: int| 0 <= k < all_pieces(lines, max).len() ==> #[trigger] all_pieces(lines, max)[k].len() <= max,
        (forall|i: int| 0 <= i < lines.len() ==> #[trigger] lines[i].len() > 0) ==> forall|k: int|
            0 <= k < all_pieces(lines, max).len() ==> #[trigger] all_pieces(lines, max)[k].len() > 0,
        (forall|i: int| 0 <= i < lines.len() ==> #[trigger] lines[i].len() <= max) ==> all_pieces(lines, max)
            == lines,
    decreases lines.len(),
{
    if lines.len() == 0 {
        assert(all_pieces(lines, max) =~= lines);
    } else {
        let prev = lines.drop_last();
        let last = lines.last();
        lemma_all_pieces(prev, max);
        lemma_line_pieces(last, max);
        let a = all_pieces(prev, max);
        let b = line_pieces(last, max);
        let p = all_pieces(lines, max);
        assert(p == a + b);
        assert(last == lines[lines.len() - 1]);
        if forall|i: int| 0 <= i < lines.len() ==> #[trigger] lines[i].len() > 0 {
            assert forall|i: int| 0 <= i < prev.len() implies #[trigger] prev[i].len() > 0 by {
                assert(prev[i] == lines[i]);
            }
        }
        if forall|i: int| 0 <= i < lines.len() ==> #[trigger] lines[i].len() <= max {
            assert forall|i: int| 0 <= i < prev.len() implies #[trigger] prev[i].len() <= max by {
                assert(prev[i] == lines[i]);
            }
            assert(a + b =~= lines);
        }
        assert forall|k: int| 0 <= k < p.len() implies #[trigger] p[k].len() <= max && ((forall|i: int|
            0 <= i < lines.len() ==> #[trigger] lines[i].len() > 0) ==> p[k].len() > 0) by {
            if k < a.len() {
                assert(p[k] == a[k]);
            } else {
                assert(p[k] == b[k - a.len()]);
            }
        }
    }
}

/// Every chunk is non-empty.
pub proof fn lemma_chunks_nonempty(lines: Seq<Seq<char>>, max: nat)
    ensures
        forall|i: int|
            0 <= i < chunk_text(lines, max).len() ==> #[trigger] chunk_text(lines, max)[i].len() > 0,
{
    let ps = all_pieces(lines, max);
    lemma_fold_shape(ps, max);
    let st = chunk_fold(ps, max);
    assert forall|i: int| 0 <= i < chunk_text(lines, max).len() implies #[trigger] chunk_text(
        lines,
        max,
    )[i].len() > 0 by {
        if i < st.0.len() {
            assert(chunk_text(lines, max)[i] == st.0[i]);
        }
    }
}

/// Every chunk holds at most `max` characters: a line too long for one chunk
/// is spread over several.
pub proof fn lemma_chunks_within_limit(lines: Seq<Seq<char>>, max: nat)
    requires
        max > 0,
    ensures
        forall|i: int| 0 <= i < chunk_text(lines, max).len() ==> #[trigger] chunk_text(lines, max)[i].len() <= max,
{
    let ps = all_pieces(lines, max);
    lemma_all_pieces(lines, max);
    lemma_fold_shape(ps, max);
    let st = chunk_fold(ps, max);
    assert forall|i: int| 0 <= i < chunk_text(lines, max).len() implies #[trigger] chunk_text(
        lines,
        max,
    )[i].len() <= max by {
        let c = chunk_text(lines, max)[i];
        if i < st.0.len() {
            assert(c == st.0[i]);
        }
        assert(chunk_fits(c, ps, max));
        if c.len() > max {
            let k = choose|k: int| 0 <= k < ps.len() && ps[k] == c;
            assert(ps[k].len() <= max);
        }
    }
}

/// Lines that fit are never cut: when no line is longer than `max`, the
/// chunks are the lines themselves, packed.
pub proof fn lemma_short_lines_kept_whole(lines: Seq<Seq<char>>, max: nat)
    requires
        max > 0,
        forall|i: int| 0 <= i < lines.len() ==> #[trigger] lines[i].len() <= max,
    ensures
        chunk_text(lines, max) == chunks_of(lines, max),
{
    lemma_all_pieces(lines, max);
}

proof fn lemma_join_extend_last(s: Seq<Seq<char>>, y: Seq<char>)
    requires
        s.len() > 0,
    ensures
        join_lines(s.drop_last().push(s.last().push('\n') + y)) == join_lines(s).push('\n') + y,
{
    let t = s.drop_last().push(s.last().push('\n') + y);
    if s.len() == 1 {
        assert(t.len() == 1);
        assert(t[0] == s[0].push('\n') + y);
    } else {
        assert(t.drop_last() =~= s.drop_last());
        assert(join_lines(t) == join_lines(s.drop_last()).push('\n') + (s.last().push('\n') + y));
        assert(join_lines(s) == join_lines(s.drop_last()).push('\n') + s.last());
        assert(join_lines(t) =~= join_lines(s).push('\n') + y);
    }
}

proof fn lemma_fold_text(lines: Seq<Seq<char>>, max: nat)
    requires
        lines.len() > 0,
        forall|i: int| 0 <= i < lines.len() ==> #[trigger] lines[i].len() > 0,
    ensures
        chunk_fold(lines, max).1.len() > 0,
        join_lines(chunk_fold(lines, max).0.push(chunk_fold(lines, max).1)) == join_lines(lines),
    decreases lines.len(),
{
    let prev = lines.drop_last();
    let line = lines.last();
    assert(line.len() > 0) by {
        assert(lines[lines.len() - 1] == line);
    }
    if prev.len() == 0 {
        assert(chunk_fold(prev, max) == (Seq::<Seq<char>>::empty(), Seq::<char>::empty()));
        assert(chunk_fold(lines, max).0.push(chunk_fold(lines, max).1) =~= seq![line]);
        assert(lines =~= seq![line]);
    } else {
        assert forall|i: int| 0 <= i < prev.len() implies #[trigger] prev[i].len() > 0 by {
            assert(prev[i] == lines[i]);
        }
        lemma_fold_text(prev, max);
        let st = chunk_fold(prev, max);
        let cur = st.1;
        let extra = line.len() + 1;
        assert(join_lines(lines) == join_lines(prev).push('\n') + line);
        if cur.len() + extra > max {
            let c2 = st.0.push(cur);
            assert(c2.push(line).drop_last() =~= c2);
            assert(join_lines(c2.push(line)) == join_lines(c2).push('\n') + line);
        } else {
            let s = st.0.push(cur);
            lemma_join_extend_last(s, line);
            assert(s.drop_last() =~= st.0);
            assert(s.last() == cur);
        }
    }
}

/// The characters of `pieces`, one piece after another.
pub open spec fn concat(pieces: Seq<Seq<char>>) -> Seq<char>
    decreases pieces.len(),
{
    if pieces.len() == 0 {
        Seq::empty()
    } else {
        pieces[0] + concat(pieces.drop_first())
    }
}

/// Nothing is lost or reordered: when no line is empty, the chunks joined
/// with newlines are the pieces of the lines joined with newlines, and the
/// pieces of each line, put together, are the line.
pub proof fn lemma_chunks_preserve_text(lines: Seq<Seq<char>>, max: nat)
    requires
        max > 0,
        forall|i: int| 0 <= i < lines.len() ==> #[trigger] lines[i].len() > 0,
    ensures
        join_lines(chunk_text(lines, max)) == join_lines(all_pieces(lines, max)),
        forall|i: int| 0 <= i < lines.len() ==> concat(#[trigger] line_pieces(lines[i], max)) == lines[i],
{
    let ps = all_pieces(lines, max);
    lemma_all_pieces(lines, max);
    if ps.len() > 0 {
        lemma_fold_text(ps, max);
    } else {
        assert(chunks_of(ps, max) =~= Seq::<Seq<char>>::empty());
    }
    assert forall|i: int| 0 <= i < lines.len() implies concat(#[trigger] line_pieces(lines[i], max))
        == lines[i] by {
        lemma_line_pieces(lines[i], max);
    }
}

} // verus!
