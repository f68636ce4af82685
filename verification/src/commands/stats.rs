//! The `/stats` reports: rejoiners, recent exits and the daily member
//! balance.

use vstd::prelude::*;

use crate::commands::{format_member_label, member_label, opt_chars, push_relative_time, relative_time, rfc2822_timestamp, rfc2822_to_unix};
use crate::services::embeds::{embed_view, fields_view, push_field, EmbedField, EmbedSpec, EmbedView};
use crate::services::stats::{DepartureType, ExitRow, RejoinTimes, RejoinerRow, StatsCurrent};
use crate::text::{dec, dec_signed, push_i64, push_signed_difference, push_str, push_u64, str_eq, string_of};
use vstd::arithmetic::div_mod::lemma_fundamental_div_mod_converse;

verus! {

/// `x` limited to `lo..=hi`.
pub open spec fn clamp(x: int, lo: int, hi: int) -> int {
    if x < lo {
        lo
    } else if x > hi {
        hi
    } else {
        x
    }
}

/// The value, or `default` when absent.
pub open spec fn or_default(o: Option<i64>, default: int) -> int {
    match o {
        Some(v) => v as int,
        None => default,
    }
}

/// `x - 1`, staying at `i64::MIN` there.
pub open spec fn minus_one(x: int) -> int {
    if x <= i64::MIN {
        i64::MIN as int
    } else {
        x - 1
    }
}

fn clamp_i64(x: i64, lo: i64, hi: i64) -> (r: i64)
    requires
        lo <= hi,
    ensures
        r as int == clamp(x as int, lo as int, hi as int),
{
    if x < lo {
        lo
    } else if x > hi {
        hi
    } else {
        x
    }
}

fn minus_one_i64(x: i64) -> (r: i64)
    ensures
        r as int == minus_one(x as int),
{
    if x == i64::MIN {
        x
    } else {
        x - 1
    }
}

// ── Rejoiners ────────────────────────────────────────────────────────────────

/// The rejoiners query parameters: the minimum number of joins (default 2,
/// never below 2) and the number of users shown (default 15, within 1..=100).
pub fn rejoiner_params(min_joins: Option<i64>, limit: Option<i64>) -> (r: (i64, i64))
    ensures
        r.0 as int == (if or_default(min_joins, 2) < 2 { 2 } else { or_default(min_joins, 2) }),
        r.1 as int == clamp(or_default(limit, 15), 1, 100),
{
    let m = match min_joins {
        Some(v) => v,
        None => 2,
    };
    let m = if m < 2 { 2 } else { m };
    let l = match limit {
        Some(v) => v,
        None => 15,
    };
    (m, clamp_i64(l, 1, 100))
}

/// `Rejoiners (≥N rejoins)`, where N is one less than the minimum joins.
pub open spec fn rejoiners_title_text(min_joins: int) -> Seq<char> {
    "Rejoiners (≥"@ + dec(minus_one(min_joins)) + " rejoins)"@
}

/// `No users with ≥N rejoins.`
pub open spec fn no_rejoiners_text(min_joins: int) -> Seq<char> {
    "No users with ≥"@ + dec(minus_one(min_joins)) + " rejoins."@
}

/// `• LABEL — R rejoins (E exits)`, R being one less than the stays.
pub open spec fn rejoiner_line_text(r: RejoinerRow) -> Seq<char> {
    "• "@ + member_label(
        r.user_id@,
        opt_chars(r.account_username),
        opt_chars(r.display_name),
        opt_chars(r.server_nickname),
    ) + " — "@ + dec(minus_one(r.stay_count as int)) + " rejoins ("@ + dec(r.times_left as int)
        + " exits)"@
}

pub fn rejoiners_title(min_joins: i64) -> (r: String)
    ensures
        r@ == rejoiners_title_text(min_joins as int),
{
    let mut s = string_of("Rejoiners (≥");
    push_i64(&mut s, minus_one_i64(min_joins));
    push_str(&mut s, " rejoins)");
    proof {
        assert(s@ =~= rejoiners_title_text(min_joins as int));
    }
    s
}

pub fn no_rejoiners_message(min_joins: i64) -> (r: String)
    ensures
        r@ == no_rejoiners_text(min_joins as int),
{
    let mut s = string_of("No users with ≥");
    push_i64(&mut s, minus_one_i64(min_joins));
    push_str(&mut s, " rejoins.");
    proof {
        assert(s@ =~= no_rejoiners_text(min_joins as int));
    }
    s
}

/// One line of the rejoiners report.
pub fn rejoiner_line(r: &RejoinerRow) -> (out: String)
    ensures
        out@ == rejoiner_line_text(*r),
{
    let label = format_member_label(
        r.user_id.as_str(),
        &r.account_username,
        &r.display_name,
        &r.server_nickname,
    );
    let mut s = string_of("• ");
    push_str(&mut s, label.as_str());
    push_str(&mut s, " — ");
    push_i64(&mut s, minus_one_i64(r.stay_count));
    push_str(&mut s, " rejoins (");
    push_i64(&mut s, r.times_left);
    push_str(&mut s, " exits)");
    proof {
        assert(s@ =~= rejoiner_line_text(*r));
    }
    s
}

/// The lines of the rejoiners report, one per row in order.
pub fn rejoiner_lines(rows: &[RejoinerRow]) -> (r: Vec<String>)
    ensures
        r@.len() == rows@.len(),
        forall|i: int| 0 <= i < rows@.len() ==> #[trigger] r@[i]@ == rejoiner_line_text(rows@[i]),
{
    let mut out: Vec<String> = Vec::new();
    let mut i: usize = 0;
    while i < rows.len()
        invariant
            i <= rows@.len(),
            out@.len() == i,
            forall|k: int| 0 <= k < i ==> #[trigger] out@[k]@ == rejoiner_line_text(rows@[k]),
        decreases rows@.len() - i,
    {
        out.push(rejoiner_line(&rows[i]));
        i = i + 1;
    }
    out
}

// ── Exits ────────────────────────────────────────────────────────────────────

/// The exits report parameters: days to look back (default 30, within
/// 1..=365) and rows shown (default 20, within 1..=100).
pub fn exits_params(days: Option<i64>, show: Option<i64>) -> (r: (i64, i64))
    ensures
        r.0 as int == clamp(or_default(days, 30), 1, 365),
        r.1 as int == clamp(or_default(show, 20), 1, 100),
{
    let d = match days {
        Some(v) => v,
        None => 30,
    };
    let s = match show {
        Some(v) => v,
        None => 20,
    };
    (clamp_i64(d, 1, 365), clamp_i64(s, 1, 100))
}

/// The exit counts toward the ban tally.
pub open spec fn is_ban(r: ExitRow) -> bool {
    r.departure_type == Some(DepartureType::Ban)
}

/// `(leave time, row index)` for the rows whose leave time parsed and is
/// at or after `cutoff`, in row order.
pub open spec fn exits_in_window(left_ts: Seq<Option<i64>>, cutoff: int) -> Seq<(i64, int)>
    decreases left_ts.len(),
{
    if left_ts.len() == 0 {
        Seq::empty()
    } else {
        let prev = exits_in_window(left_ts.drop_last(), cutoff);
        match left_ts.last() {
            Some(ts) => if ts >= cutoff {
                prev.push((ts, left_ts.len() - 1))
            } else {
                prev
            },
            None => prev,
        }
    }
}

/// Insert `x` into a newest-first list, after every entry at least as new.
pub open spec fn insert_newest_first(s: Seq<(i64, int)>, x: (i64, int)) -> Seq<(i64, int)>
    decreases s.len(),
{
    if s.len() == 0 {
        seq![x]
    } else if s.last().0 >= x.0 {
        s.push(x)
    } else {
        insert_newest_first(s.drop_last(), x).push(s.last())
    }
}

/// Newest first; entries with the same time keep their order.
pub open spec fn newest_first(s: Seq<(i64, int)>) -> Seq<(i64, int)>
    decreases s.len(),
{
    if s.len() == 0 {
        Seq::empty()
    } else {
        insert_newest_first(newest_first(s.drop_last()), s.last())
    }
}

/// The number of bans among the listed exits.
pub open spec fn ban_count(rows: Seq<ExitRow>, ex: Seq<(i64, int)>) -> nat
    decreases ex.len(),
{
    if ex.len() == 0 {
        0
    } else {
        ban_count(rows, ex.drop_last()) + if is_ban(rows[ex.last().1]) { 1nat } else { 0nat }
    }
}

/// `**Total:** T (left: L, banned: B)`.
pub open spec fn exits_total_text(total: int, banned: int) -> Seq<char> {
    "**Total:** "@ + dec(total) + " (left: "@ + dec(total - banned) + ", banned: "@ + dec(banned)
        + ")"@
}

/// `• LABEL — left|**banned** — <t:TS:R>`.
pub open spec fn exit_line_text(r: ExitRow, ts: i64) -> Seq<char> {
    "• "@ + member_label(
        r.user_id@,
        opt_chars(r.account_username),
        opt_chars(r.display_name),
        opt_chars(r.server_nickname),
    ) + " — "@ + (if is_ban(r) { "**banned**"@ } else { "left"@ }) + " — "@ + relative_time(
        ts as int,
    )
}

/// The exits report for rows whose leave times parsed as `left_ts`: `None`
/// when no exit falls at or after `cutoff`; otherwise the totals line, an
/// empty line, and one line per exit, newest first, at most `show` of them.
pub open spec fn exits_report(
    rows: Seq<ExitRow>,
    left_ts: Seq<Option<i64>>,
    cutoff: int,
    show: nat,
) -> Option<Seq<Seq<char>>> {
    let ex = exits_in_window(left_ts, cutoff);
    if ex.len() == 0 {
        None
    } else {
        let order = newest_first(ex);
        let shown = if order.len() <= show { order } else { order.subrange(0, show as int) };
        Some(
            seq![exits_total_text(ex.len() as int, ban_count(rows, ex) as int), Seq::empty()]
                + shown.map_values(|e: (i64, int)| exit_line_text(rows[e.1], e.0)),
        )
    }
}

proof fn lemma_window_indices(left_ts: Seq<Option<i64>>, cutoff: int)
    ensures
        forall|k: int|
            0 <= k < exits_in_window(left_ts, cutoff).len() ==> {
                let e = #[trigger] exits_in_window(left_ts, cutoff)[k];
                &&& 0 <= e.1 < left_ts.len()
                &&& left_ts[e.1] == Some(e.0)
            },
        exits_in_window(left_ts, cutoff).len() <= left_ts.len(),
    decreases left_ts.len(),
{
    if left_ts.len() > 0 {
        lemma_window_indices(left_ts.drop_last(), cutoff);
    }
}

proof fn lemma_insert_props(s: Seq<(i64, int)>, x: (i64, int))
    ensures
        insert_newest_first(s, x).len() == s.len() + 1,
        forall|k: int|
            0 <= k < insert_newest_first(s, x).len() ==> (#[trigger] insert_newest_first(s, x)[k]
                == x || s.contains(insert_newest_first(s, x)[k])),
    decreases s.len(),
{
    if s.len() > 0 && s.last().0 < x.0 {
        lemma_insert_props(s.drop_last(), x);
        let r = insert_newest_first(s, x);
        assert forall|k: int| 0 <= k < r.len() implies (#[trigger] r[k] == x || s.contains(r[k])) by {
            if k == r.len() - 1 {
                assert(s[s.len() - 1] == s.last());
            } else {
                let r0 = insert_newest_first(s.drop_last(), x);
                assert(r[k] == r0[k]);
                if r0[k] != x {
                    let j = choose|j: int| 0 <= j < s.drop_last().len() && s.drop_last()[j] == r0[k];
                    assert(s[j] == r0[k]);
                }
            }
        }
    } else if s.len() > 0 {
        let r = insert_newest_first(s, x);
        assert forall|k: int| 0 <= k < r.len() implies (#[trigger] r[k] == x || s.contains(r[k])) by {
            if k < s.len() {
                assert(r[k] == s[k]);
            }
        }
    }
}

proof fn lemma_order_props(s: Seq<(i64, int)>)
    ensures
        newest_first(s).len() == s.len(),
        forall|k: int| 0 <= k < newest_first(s).len() ==> s.contains(#[trigger] newest_first(s)[k]),
    decreases s.len(),
{
    if s.len() > 0 {
        let prev = newest_first(s.drop_last());
        lemma_order_props(s.drop_last());
        lemma_insert_props(prev, s.last());
        assert forall|k: int| 0 <= k < newest_first(s).len() implies s.contains(
            #[trigger] newest_first(s)[k],
        ) by {
            let e = newest_first(s)[k];
            if e == s.last() {
                assert(s[s.len() - 1] == e);
            } else {
                let j = choose|j: int| 0 <= j < prev.len() && prev[j] == e;
                assert(s.drop_last().contains(prev[j]));
                let m = choose|m: int| 0 <= m < s.drop_last().len() && s.drop_last()[m] == e;
                assert(s[m] == e);
            }
        }
    }
}

/// Insert `x` into a newest-first list (same placement as
/// `insert_newest_first`).
fn insert_exit(v: &mut Vec<(i64, usize)>, x: (i64, usize))
    ensures
        final(v)@.map_values(|e: (i64, usize)| (e.0, e.1 as int)) == insert_newest_first(
            old(v)@.map_values(|e: (i64, usize)| (e.0, e.1 as int)),
            (x.0, x.1 as int),
        ),
    decreases old(v)@.len(),
{
    let ghost s = old(v)@.map_values(|e: (i64, usize)| (e.0, e.1 as int));
    let ghost xi = (x.0, x.1 as int);
    if v.len() == 0 {
        v.push(x);
        proof {
            assert(v@.map_values(|e: (i64, usize)| (e.0, e.1 as int)) =~= seq![xi]);
        }
    } else {
        let last = v[v.len() - 1];
        if last.0 >= x.0 {
            v.push(x);
            proof {
                assert(v@.map_values(|e: (i64, usize)| (e.0, e.1 as int)) =~= s.push(xi));
            }
        } else {
            let l = v.pop().unwrap();
            proof {
                assert(v@.map_values(|e: (i64, usize)| (e.0, e.1 as int)) =~= s.drop_last());
            }
            insert_exit(v, x);
            let ghost mid = v@.map_values(|e: (i64, usize)| (e.0, e.1 as int));
            v.push(l);
            proof {
                assert(v@.map_values(|e: (i64, usize)| (e.0, e.1 as int)) =~= mid.push(s.last()));
            }
        }
    }
}

/// One line of the exits report.
pub fn exit_line(r: &ExitRow, ts: i64) -> (out: String)
    ensures
        out@ == exit_line_text(*r, ts),
{
    let label = format_member_label(
        r.user_id.as_str(),
        &r.account_username,
        &r.display_name,
        &r.server_nickname,
    );
    let mut s = string_of("• ");
    push_str(&mut s, label.as_str());
    push_str(&mut s, " — ");
    let banned = match r.departure_type {
        Some(DepartureType::Ban) => true,
        _ => false,
    };
    if banned {
        push_str(&mut s, "**banned**");
    } else {
        push_str(&mut s, "left");
    }
    push_str(&mut s, " — ");
    push_relative_time(&mut s, ts);
    proof {
        assert(s@ =~= exit_line_text(*r, ts));
    }
    s
}

/// The exits report from rows and their parsed leave times (see
/// `exits_report`).
pub fn exit_lines(rows: &[ExitRow], left_ts: &[Option<i64>], cutoff: i64, show: usize) -> (r: Option<
    Vec<String>,
>)
    requires
        left_ts@.len() == rows@.len(),
    ensures
        match exits_report(rows@, left_ts@, cutoff as int, show as nat) {
            None => r is None,
            Some(lines) => r is Some && r->0@.len() == lines.len() && forall|k: int|
                0 <= k < lines.len() ==> #[trigger] r->0@[k]@ == lines[k],
        },
{
    let mut ex: Vec<(i64, usize)> = Vec::new();
    let mut order: Vec<(i64, usize)> = Vec::new();
    let mut banned: u64 = 0;
    let mut i: usize = 0;
    let ghost cut = cutoff as int;
    while i < left_ts.len()
        invariant
            i <= left_ts@.len(),
            left_ts@.len() == rows@.len(),
            cut == cutoff as int,
            ex@.map_values(|e: (i64, usize)| (e.0, e.1 as int)) == exits_in_window(
                left_ts@.subrange(0, i as int),
                cut,
            ),
            order@.map_values(|e: (i64, usize)| (e.0, e.1 as int)) == newest_first(
                exits_in_window(left_ts@.subrange(0, i as int), cut),
            ),
            banned as nat == ban_count(rows@, exits_in_window(left_ts@.subrange(0, i as int), cut)),
            banned <= ex@.len(),
            ex@.len() <= i,
        decreases left_ts@.len() - i,
    {
        let ghost pre = left_ts@.subrange(0, i as int);
        let ghost post = left_ts@.subrange(0, i + 1);
        proof {
            assert(post.drop_last() =~= pre);
            assert(post.last() == left_ts@[i as int]);
            lemma_window_indices(pre, cut);
        }
        match left_ts[i] {
            Some(ts) => {
                if ts >= cutoff {
                    let ghost before = ex@.map_values(|e: (i64, usize)| (e.0, e.1 as int));
                    ex.push((ts, i));
                    proof {
                        assert(ex@.map_values(|e: (i64, usize)| (e.0, e.1 as int)) =~= before.push(
                            (ts, i as int),
                        ));
                        assert(exits_in_window(post, cut) == exits_in_window(pre, cut).push(
                            (ts, i as int),
                        ));
                        let w = exits_in_window(post, cut);
                        assert(w.drop_last() =~= exits_in_window(pre, cut));
                        assert(w.last() == (ts, i as int));
                    }
                    insert_exit(&mut order, (ts, i));
                    let is_b = match rows[i].departure_type {
                        Some(DepartureType::Ban) => true,
                        _ => false,
                    };
                    if is_b {
                        banned = banned + 1;
                    }
                }
            },
            None => {},
        }
        i = i + 1;
    }
    proof {
        assert(left_ts@.subrange(0, left_ts@.len() as int) =~= left_ts@);
    }
    if ex.len() == 0 {
        return None;
    }
    let total = ex.len() as u64;
    let mut lines: Vec<String> = Vec::new();
    let mut head = string_of("**Total:** ");
    push_u64(&mut head, total);
    push_str(&mut head, " (left: ");
    push_u64(&mut head, total - banned);
    push_str(&mut head, ", banned: ");
    push_u64(&mut head, banned);
    push_str(&mut head, ")");
    lines.push(head);
    lines.push(String::new());
    let ghost exs = exits_in_window(left_ts@, cut);
    let ghost ord = newest_first(exs);
    proof {
        lemma_order_props(exs);
        lemma_window_indices(left_ts@, cut);
        assert(lines@[0]@ =~= exits_total_text(exs.len() as int, ban_count(rows@, exs) as int));
    }
    let n = if order.len() <= show { order.len() } else { show };
    let mut j: usize = 0;
    while j < n
        invariant
            j <= n,
            n <= order@.len(),
            n as int == (if order@.len() <= show { order@.len() as int } else { show as int }),
            order@.map_values(|e: (i64, usize)| (e.0, e.1 as int)) == ord,
            ord == newest_first(exs),
            exs == exits_in_window(left_ts@, cut),
            ord.len() == exs.len(),
            forall|k: int| 0 <= k < ord.len() ==> exs.contains(#[trigger] ord[k]),
            forall|k: int|
                0 <= k < exs.len() ==> {
                    let e = #[trigger] exs[k];
                    &&& 0 <= e.1 < left_ts@.len()
                },
            left_ts@.len() == rows@.len(),
            lines@.len() == 2 + j,
            lines@[0]@ == exits_total_text(exs.len() as int, ban_count(rows@, exs) as int),
            lines@[1]@ == Seq::<char>::empty(),
            forall|k: int|
                0 <= k < j ==> #[trigger] lines@[2 + k]@ == exit_line_text(rows@[ord[k].1], ord[k].0),
        decreases n - j,
    {
        let (ts, idx) = order[j];
        proof {
            assert(ord[j as int] == (ts, idx as int));
            let m = choose|m: int| 0 <= m < exs.len() && exs[m] == ord[j as int];
            assert(0 <= exs[m].1 < left_ts@.len());
        }
        let line = exit_line(&rows[idx], ts);
        lines.push(line);
        j = j + 1;
    }
    proof {
        let rep = exits_report(rows@, left_ts@, cut, show as nat);
        let shown = if ord.len() <= show { ord } else { ord.subrange(0, show as int) };
        let tail = shown.map_values(|e: (i64, int)| exit_line_text(rows@[e.1], e.0));
        let want = seq![exits_total_text(exs.len() as int, ban_count(rows@, exs) as int), Seq::<char>::empty()] + tail;
        assert(rep == Some(want));
        assert forall|k: int| 0 <= k < want.len() implies #[trigger] lines@[k]@ == want[k] by {
            if k >= 2 {
                assert(lines@[2 + (k - 2)]@ == exit_line_text(rows@[ord[k - 2].1], ord[k - 2].0));
            }
        }
    }
    Some(lines)
}

/// The exits report for rows, their leave times parsed as RFC 2822.
pub open spec fn parsed_leave_times(rows: Seq<ExitRow>) -> Seq<Option<i64>> {
    rows.map_values(|r: ExitRow| rfc2822_timestamp(r.left_at@))
}

/// The exits report: leave times parsed, then `exit_lines`.
pub fn stats_exit_lines(rows: &[ExitRow], cutoff: i64, show: usize) -> (r: Option<Vec<String>>)
    ensures
        match exits_report(rows@, parsed_leave_times(rows@), cutoff as int, show as nat) {
            None => r is None,
            Some(lines) => r is Some && r->0@.len() == lines.len() && forall|k: int|
                0 <= k < lines.len() ==> #[trigger] r->0@[k]@ == lines[k],
        },
{
    let mut ts: Vec<Option<i64>> = Vec::new();
    let mut i: usize = 0;
    while i < rows.len()
        invariant
            i <= rows@.len(),
            ts@ == parsed_leave_times(rows@).subrange(0, i as int),
        decreases rows@.len() - i,
    {
        ts.push(rfc2822_to_unix(rows[i].left_at.as_str()));
        proof {
            assert(ts@ =~= parsed_leave_times(rows@).subrange(0, i + 1));
        }
        i = i + 1;
    }
    proof {
        assert(ts@ =~= parsed_leave_times(rows@));
    }
    exit_lines(rows, ts.as_slice(), cutoff, show)
}


// ── Member balance ───────────────────────────────────────────────────────────

/// The UTC day number (days since 1970-01-01) of a Unix time.
pub open spec fn day_of(ts: int) -> int {
    ts / 86400
}

/// The UTC day of a Unix time.
pub fn day_of_time(ts: i64) -> (d: i64)
    ensures
        d as int == day_of(ts as int),
{
    if ts >= 0 {
        let u = ts as u64;
        let q = u / 86400;
        proof {
            lemma_fundamental_div_mod_converse(ts as int, 86400, q as int, (u % 86400) as int);
        }
        q as i64
    } else {
        let m: i128 = 0i128 - (ts as i128);
        let q: i128 = (m + 86399) / 86400;
        let r: i128 = 86400 * q - m;
        proof {
            assert(0 <= r < 86400) by (nonlinear_arith)
                requires
                    m > 0,
                    q == (m + 86399) / 86400,
                    r == 86400 * q - m,
            ;
            lemma_fundamental_div_mod_converse(ts as int, 86400, -q, r as int);
        }
        (0i128 - q) as i64
    }
}

/// `(item index, UTC day)` for the items whose time parsed and is at or
/// after `cutoff`, in item order.
pub open spec fn window_events(ts: Seq<Option<i64>>, cutoff: int) -> Seq<(int, int)>
    decreases ts.len(),
{
    if ts.len() == 0 {
        Seq::empty()
    } else {
        let prev = window_events(ts.drop_last(), cutoff);
        match ts.last() {
            Some(t) => if t >= cutoff {
                prev.push((ts.len() - 1, day_of(t as int)))
            } else {
                prev
            },
            None => prev,
        }
    }
}

/// How many events fall on day `d`.
pub open spec fn day_count(ev: Seq<(int, int)>, d: int) -> nat
    decreases ev.len(),
{
    if ev.len() == 0 {
        0
    } else {
        day_count(ev.drop_last(), d) + if ev.last().1 == d { 1nat } else { 0nat }
    }
}

/// The user of each event.
pub open spec fn event_users(items: Seq<RejoinTimes>, ev: Seq<(int, int)>) -> Seq<Seq<char>> {
    ev.map_values(|e: (int, int)| items[e.0].user_id@)
}

/// The number of distinct users among the events.
pub open spec fn distinct_users(items: Seq<RejoinTimes>, ev: Seq<(int, int)>) -> nat {
    event_users(items, ev).to_set().len()
}

/// Some event falls on day `d`.
pub open spec fn has_day(ev: Seq<(int, int)>, d: int) -> bool {
    exists|k: int| 0 <= k < ev.len() && #[trigger] ev[k].1 == d
}

/// Strictly increasing.
pub open spec fn increasing(ds: Seq<i64>) -> bool {
    forall|i: int, j: int| 0 <= i < j < ds.len() ==> ds[i] < ds[j]
}

/// The UTC calendar date (`YYYY-MM-DD`) that chrono gives for a Unix time,
/// or `None` where chrono has no date for it.
pub uninterp spec fn utc_date_text(ts: i64) -> Option<Seq<char>>;

/// The UTC date of a Unix time as `YYYY-MM-DD`.
///
/// Calls `chrono::DateTime::from_timestamp(ts, 0)` and formats its
/// `date_naive()`; the contract ties the result to the argument through
/// `utc_date_text` only.
#[verifier::external_body]
pub(crate) fn utc_date_string(ts: i64) -> (r: Option<String>)
    ensures
        match r {
            Some(s) => utc_date_text(ts) == Some(s@),
            None => utc_date_text(ts) is None,
        },
{
    match chrono::DateTime::from_timestamp(ts, 0) {
        Some(dt) => Some(dt.date_naive().to_string()),
        None => None,
    }
}

/// The label of day `d`: its calendar date, or the day number where no date
/// is available.
pub open spec fn day_label(d: int) -> Seq<char> {
    if i64::MIN <= d * 86400 <= i64::MAX {
        match utc_date_text((d * 86400) as i64) {
            Some(t) => t,
            None => dec(d),
        }
    } else {
        dec(d)
    }
}

/// `**D days:**  net ±N  |  joins: J (JU unique)  |  leaves: L (LU unique)`.
pub open spec fn balance_header(days: int, joins: int, join_users: int, leaves: int, leave_users: int) -> Seq<
    char,
> {
    "**"@ + dec(days) + " days:**  net "@ + dec_signed(joins - leaves) + "  |  joins: "@ + dec(joins)
        + " ("@ + dec(join_users) + " unique)  |  leaves: "@ + dec(leaves) + " ("@ + dec(leave_users)
        + " unique)"@
}

/// `DATE  +J / -L  (net: ±N)`.
pub open spec fn balance_day_line(label: Seq<char>, joins: int, leaves: int) -> Seq<char> {
    label + "  +"@ + dec(joins) + " / -"@ + dec(leaves) + "  (net: "@ + dec_signed(joins - leaves)
        + ")"@
}

/// The balance report over the days `ds`: the header, an empty line, and
/// one line per day.
pub open spec fn balance_lines_over(
    items: Seq<RejoinTimes>,
    joins: Seq<(int, int)>,
    leaves: Seq<(int, int)>,
    days: int,
    ds: Seq<i64>,
) -> Seq<Seq<char>> {
    seq![
        balance_header(
            days,
            joins.len() as int,
            distinct_users(items, joins) as int,
            leaves.len() as int,
            distinct_users(items, leaves) as int,
        ),
        Seq::empty(),
    ] + ds.map_values(
        |d: i64|
            balance_day_line(day_label(d as int), day_count(joins, d as int) as int, day_count(leaves, d as int) as int),
    )
}

/// `ds` lists, in increasing order, every day with a join or a leave.
pub open spec fn active_days(ds: Seq<i64>, joins: Seq<(int, int)>, leaves: Seq<(int, int)>) -> bool {
    &&& increasing(ds)
    &&& forall|d: i64| #[trigger] ds.contains(d) <==> (has_day(joins, d as int) || has_day(leaves, d as int))
}

proof fn lemma_window_events_props(ts: Seq<Option<i64>>, cutoff: int)
    ensures
        window_events(ts, cutoff).len() <= ts.len(),
        forall|k: int|
            0 <= k < window_events(ts, cutoff).len() ==> {
                let e = #[trigger] window_events(ts, cutoff)[k];
                &&& 0 <= e.0 < ts.len()
                &&& ts[e.0] is Some
                &&& e.1 == day_of(ts[e.0]->0 as int)
            },
    decreases ts.len(),
{
    if ts.len() > 0 {
        lemma_window_events_props(ts.drop_last(), cutoff);
    }
}

/// The events of items whose time parsed and is at or after `cutoff`, as
/// `(item index, UTC day)`.
fn collect_events(ts: &Vec<Option<i64>>, cutoff: i64) -> (r: Vec<(usize, i64)>)
    ensures
        r@.map_values(|e: (usize, i64)| (e.0 as int, e.1 as int)) == window_events(ts@, cutoff as int),
{
    let mut ev: Vec<(usize, i64)> = Vec::new();
    let mut i: usize = 0;
    while i < ts.len()
        invariant
            i <= ts@.len(),
            ev@.map_values(|e: (usize, i64)| (e.0 as int, e.1 as int)) == window_events(
                ts@.subrange(0, i as int),
                cutoff as int,
            ),
        decreases ts@.len() - i,
    {
        let ghost pre = ts@.subrange(0, i as int);
        let ghost post = ts@.subrange(0, i + 1);
        proof {
            assert(post.drop_last() =~= pre);
            assert(post.last() == ts@[i as int]);
        }
        match ts[i] {
            Some(t) => {
                if t >= cutoff {
                    let ghost before = ev@.map_values(|e: (usize, i64)| (e.0 as int, e.1 as int));
                    let d = day_of_time(t);
                    ev.push((i, d));
                    proof {
                        assert(ev@.map_values(|e: (usize, i64)| (e.0 as int, e.1 as int)) =~= before.push(
                            (i as int, d as int),
                        ));
                    }
                }
            },
            None => {},
        }
        i = i + 1;
    }
    proof {
        assert(ts@.subrange(0, ts@.len() as int) =~= ts@);
    }
    ev
}

/// The number of events on day `d`.
fn count_on_day(ev: &Vec<(usize, i64)>, d: i64) -> (n: u64)
    ensures
        n as nat == day_count(ev@.map_values(|e: (usize, i64)| (e.0 as int, e.1 as int)), d as int),
{
    let ghost evs = ev@.map_values(|e: (usize, i64)| (e.0 as int, e.1 as int));
    let mut n: u64 = 0;
    let mut i: usize = 0;
    while i < ev.len()
        invariant
            i <= ev@.len(),
            evs == ev@.map_values(|e: (usize, i64)| (e.0 as int, e.1 as int)),
            n as nat == day_count(evs.subrange(0, i as int), d as int),
            n <= i,
        decreases ev@.len() - i,
    {
        proof {
            assert(evs.subrange(0, i + 1).drop_last() =~= evs.subrange(0, i as int));
        }
        if ev[i].1 == d {
            n = n + 1;
        }
        i = i + 1;
    }
    proof {
        assert(evs.subrange(0, ev@.len() as int) =~= evs);
    }
    n
}

/// The number of distinct users among the events.
fn count_distinct_users(items: &[RejoinTimes], ev: &Vec<(usize, i64)>) -> (n: u64)
    requires
        forall|k: int| 0 <= k < ev@.len() ==> (#[trigger] ev@[k]).0 < items@.len(),
    ensures
        n as nat == distinct_users(items@, ev@.map_values(|e: (usize, i64)| (e.0 as int, e.1 as int))),
{
    let ghost evs = ev@.map_values(|e: (usize, i64)| (e.0 as int, e.1 as int));
    let mut reps: Vec<usize> = Vec::new();
    let mut i: usize = 0;
    while i < ev.len()
        invariant
            i <= ev@.len(),
            evs == ev@.map_values(|e: (usize, i64)| (e.0 as int, e.1 as int)),
            forall|k: int| 0 <= k < ev@.len() ==> (#[trigger] ev@[k]).0 < items@.len(),
            forall|k: int| 0 <= k < reps@.len() ==> (#[trigger] reps@[k]) < items@.len(),
            reps@.len() <= i,
            reps@.map_values(|x: usize| items@[x as int].user_id@).no_duplicates(),
            reps@.map_values(|x: usize| items@[x as int].user_id@).to_set() == event_users(
                items@,
                evs.subrange(0, i as int),
            ).to_set(),
        decreases ev@.len() - i,
    {
        let idx = ev[i].0;
        let ghost u = items@[idx as int].user_id@;
        let ghost rv = reps@.map_values(|x: usize| items@[x as int].user_id@);
        proof {
            assert(event_users(items@, evs.subrange(0, i + 1)) =~= event_users(
                items@,
                evs.subrange(0, i as int),
            ).push(u));
            event_users(items@, evs.subrange(0, i as int)).lemma_push_to_set_commute(u);
        }
        let mut found = false;
        let mut j: usize = 0;
        while j < reps.len()
            invariant
                j <= reps@.len(),
                forall|k: int| 0 <= k < reps@.len() ==> (#[trigger] reps@[k]) < items@.len(),
                idx < items@.len(),
                rv == reps@.map_values(|x: usize| items@[x as int].user_id@),
                u == items@[idx as int].user_id@,
                found == exists|k: int| 0 <= k < j && #[trigger] rv[k] == u,
            decreases reps@.len() - j,
        {
            let same = str_eq(items[reps[j]].user_id.as_str(), items[idx].user_id.as_str());
            proof {
                assert(rv[j as int] == items@[reps@[j as int] as int].user_id@);
            }
            if same {
                found = true;
            }
            j = j + 1;
        }
        if found {
            proof {
                let k = choose|k: int| 0 <= k < reps@.len() && rv[k] == u;
                assert(rv.to_set().contains(u));
                assert(rv.to_set().insert(u) =~= rv.to_set());
            }
        } else {
            reps.push(idx);
            proof {
                let rv2 = reps@.map_values(|x: usize| items@[x as int].user_id@);
                assert(rv2 =~= rv.push(u));
                rv.lemma_push_to_set_commute(u);
                assert forall|a: int, b: int| 0 <= a < rv2.len() && 0 <= b < rv2.len() && a != b implies rv2[a]
                    != rv2[b] by {
                    if a < rv.len() && b < rv.len() {
                    } else if a == rv.len() {
                        assert(rv2[b] == rv[b]);
                    } else {
                        assert(rv2[a] == rv[a]);
                    }
                }
            }
        }
        i = i + 1;
    }
    proof {
        let rv = reps@.map_values(|x: usize| items@[x as int].user_id@);
        assert(evs.subrange(0, ev@.len() as int) =~= evs);
        rv.unique_seq_to_set();
    }
    reps.len() as u64
}

/// Insert `d` into the increasing list of days unless already present.
fn add_day(ds: &mut Vec<i64>, d: i64)
    requires
        increasing(old(ds)@),
    ensures
        increasing(final(ds)@),
        forall|x: i64| #[trigger] final(ds)@.contains(x) <==> (old(ds)@.contains(x) || x == d),
{
    let mut p: usize = 0;
    while p < ds.len() && ds[p] < d
        invariant
            p <= ds@.len(),
            ds@ == old(ds)@,
            forall|k: int| 0 <= k < p ==> ds@[k] < d,
        decreases ds@.len() - p,
    {
        p = p + 1;
    }
    if p < ds.len() && ds[p] == d {
        return;
    }
    let ghost before = ds@;
    ds.insert(p, d);
    proof {
        assert(ds@ == before.insert(p as int, d));
        assert forall|i: int, j: int| 0 <= i < j < ds@.len() implies ds@[i] < ds@[j] by {
            if j < p {
            } else if j == p {
            } else if i < p {
                assert(ds@[j] == before[j - 1]);
            } else if i == p {
                assert(ds@[j] == before[j - 1]);
                assert(before[p as int] > d);
            } else {
                assert(ds@[j] == before[j - 1]);
                assert(ds@[i] == before[i - 1]);
            }
        }
        assert forall|x: i64| #[trigger] ds@.contains(x) <==> (before.contains(x) || x == d) by {
            if ds@.contains(x) {
                let k = choose|k: int| 0 <= k < ds@.len() && ds@[k] == x;
                if k < p {
                    assert(before[k] == x);
                } else if k > p {
                    assert(before[k - 1] == x);
                }
            }
            if before.contains(x) {
                let k = choose|k: int| 0 <= k < before.len() && before[k] == x;
                if k < p {
                    assert(ds@[k] == x);
                } else {
                    assert(ds@[k + 1] == x);
                }
            }
            if x == d {
                assert(ds@[p as int] == d);
            }
        }
    }
}

/// The days with any event, in increasing order.
fn collect_days(joins: &Vec<(usize, i64)>, leaves: &Vec<(usize, i64)>) -> (ds: Vec<i64>)
    ensures
        active_days(
            ds@,
            joins@.map_values(|e: (usize, i64)| (e.0 as int, e.1 as int)),
            leaves@.map_values(|e: (usize, i64)| (e.0 as int, e.1 as int)),
        ),
{
    let ghost js = joins@.map_values(|e: (usize, i64)| (e.0 as int, e.1 as int));
    let ghost ls = leaves@.map_values(|e: (usize, i64)| (e.0 as int, e.1 as int));
    let mut ds: Vec<i64> = Vec::new();
    let mut i: usize = 0;
    while i < joins.len()
        invariant
            i <= joins@.len(),
            js == joins@.map_values(|e: (usize, i64)| (e.0 as int, e.1 as int)),
            increasing(ds@),
            forall|x: i64| #[trigger] ds@.contains(x) <==> exists|k: int| 0 <= k < i && js[k].1 == x,
        decreases joins@.len() - i,
    {
        add_day(&mut ds, joins[i].1);
        proof {
            assert forall|x: i64| #[trigger] ds@.contains(x) <==> exists|k: int| 0 <= k < i + 1 && js[k].1 == x by {
                if x == joins@[i as int].1 {
                    assert(js[i as int].1 == x);
                }
            }
        }
        i = i + 1;
    }
    let mut i: usize = 0;
    while i < leaves.len()
        invariant
            i <= leaves@.len(),
            js == joins@.map_values(|e: (usize, i64)| (e.0 as int, e.1 as int)),
            ls == leaves@.map_values(|e: (usize, i64)| (e.0 as int, e.1 as int)),
            increasing(ds@),
            forall|x: i64|
                #[trigger] ds@.contains(x) <==> (has_day(js, x as int) || exists|k: int|
                    0 <= k < i && ls[k].1 == x),
        decreases leaves@.len() - i,
    {
        add_day(&mut ds, leaves[i].1);
        proof {
            assert forall|x: i64| #[trigger] ds@.contains(x) <==> (has_day(js, x as int) || exists|k: int|
                0 <= k < i + 1 && ls[k].1 == x) by {
                if x == leaves@[i as int].1 {
                    assert(ls[i as int].1 == x);
                }
            }
        }
        i = i + 1;
    }
    ds
}

/// The label of day `d`.
pub fn day_label_text(d: i64) -> (r: String)
    ensures
        r@ == day_label(d as int),
{
    match d.checked_mul(86400) {
        Some(t) => match utc_date_string(t) {
            Some(s) => s,
            None => i64_to_string_local(d),
        },
        None => i64_to_string_local(d),
    }
}

fn i64_to_string_local(d: i64) -> (r: String)
    ensures
        r@ == dec(d as int),
{
    let mut s = String::new();
    push_i64(&mut s, d);
    s
}

/// The member-balance report from items and their parsed join and leave
/// times: `None` when nothing happened at or after `cutoff`; otherwise the
/// header with window totals and unique users, an empty line, and one line
/// per active UTC day in increasing order.
pub fn balance_lines(
    items: &[RejoinTimes],
    join_ts: &Vec<Option<i64>>,
    leave_ts: &Vec<Option<i64>>,
    cutoff: i64,
    days: i64,
) -> (r: Option<Vec<String>>)
    requires
        join_ts@.len() == items@.len(),
        leave_ts@.len() == items@.len(),
    ensures
        ({
            let js = window_events(join_ts@, cutoff as int);
            let ls = window_events(leave_ts@, cutoff as int);
            &&& (js.len() == 0 && ls.len() == 0) ==> r is None
            &&& (js.len() > 0 || ls.len() > 0) ==> r is Some && exists|ds: Seq<i64>|
                active_days(ds, js, ls) && #[trigger] views_of(r->0@) == balance_lines_over(
                    items@,
                    js,
                    ls,
                    days as int,
                    ds,
                )
        }),
{
    let joins = collect_events(join_ts, cutoff);
    let leaves = collect_events(leave_ts, cutoff);
    let ghost js = window_events(join_ts@, cutoff as int);
    let ghost ls = window_events(leave_ts@, cutoff as int);
    proof {
        lemma_window_events_props(join_ts@, cutoff as int);
        lemma_window_events_props(leave_ts@, cutoff as int);
        assert forall|k: int| 0 <= k < joins@.len() implies (#[trigger] joins@[k]).0 < items@.len() by {
            assert(js[k].0 == joins@[k].0 as int);
        }
        assert forall|k: int| 0 <= k < leaves@.len() implies (#[trigger] leaves@[k]).0 < items@.len() by {
            assert(ls[k].0 == leaves@[k].0 as int);
        }
    }
    if joins.len() == 0 && leaves.len() == 0 {
        return None;
    }
    let ds = collect_days(&joins, &leaves);
    let jt = joins.len() as u64;
    let lt = leaves.len() as u64;
    let ju = count_distinct_users(items, &joins);
    let lu = count_distinct_users(items, &leaves);
    proof {
        event_users(items@, js).lemma_cardinality_of_set();
        event_users(items@, ls).lemma_cardinality_of_set();
    }
    let mut head = string_of("**");
    push_i64(&mut head, days);
    push_str(&mut head, " days:**  net ");
    push_signed_difference(&mut head, jt, lt);
    push_str(&mut head, "  |  joins: ");
    push_u64(&mut head, jt);
    push_str(&mut head, " (");
    push_u64(&mut head, ju);
    push_str(&mut head, " unique)  |  leaves: ");
    push_u64(&mut head, lt);
    push_str(&mut head, " (");
    push_u64(&mut head, lu);
    push_str(&mut head, " unique)");
    let mut lines: Vec<String> = Vec::new();
    lines.push(head);
    lines.push(String::new());
    let ghost want = balance_lines_over(items@, js, ls, days as int, ds@);
    proof {
        assert(lines@[0]@ =~= want[0]);
    }
    let mut k: usize = 0;
    while k < ds.len()
        invariant
            k <= ds@.len(),
            want == balance_lines_over(items@, js, ls, days as int, ds@),
            js == joins@.map_values(|e: (usize, i64)| (e.0 as int, e.1 as int)),
            ls == leaves@.map_values(|e: (usize, i64)| (e.0 as int, e.1 as int)),
            lines@.len() == 2 + k,
            lines@[0]@ == want[0],
            lines@[1]@ == want[1],
            forall|m: int| 0 <= m < 2 + k ==> #[trigger] lines@[m]@ == want[m],
        decreases ds@.len() - k,
    {
        let d = ds[k];
        let label = day_label_text(d);
        let jd = count_on_day(&joins, d);
        let ld = count_on_day(&leaves, d);
        let mut line = label;
        push_str(&mut line, "  +");
        push_u64(&mut line, jd);
        push_str(&mut line, " / -");
        push_u64(&mut line, ld);
        push_str(&mut line, "  (net: ");
        proof {
            lemma_day_count_le(js, d as int);
            lemma_day_count_le(ls, d as int);
        }
        push_signed_difference(&mut line, jd, ld);
        push_str(&mut line, ")");
        proof {
            assert(want[2 + k] == balance_day_line(day_label(d as int), day_count(js, d as int) as int, day_count(ls, d as int) as int));
            assert(line@ =~= want[2 + k]);
        }
        lines.push(line);
        k = k + 1;
    }
    proof {
        assert(views_of(lines@) =~= want);
    }
    Some(lines)
}

/// The characters of each line.
pub open spec fn views_of(v: Seq<String>) -> Seq<Seq<char>> {
    v.map_values(|s: String| s@)
}

proof fn lemma_day_count_le(ev: Seq<(int, int)>, d: int)
    ensures
        day_count(ev, d) <= ev.len(),
    decreases ev.len(),
{
    if ev.len() > 0 {
        lemma_day_count_le(ev.drop_last(), d);
    }
}

/// The member-balance report: join and leave times parsed as RFC 2822 (a
/// missing or unparsable leave time counts as no leave), then
/// `balance_lines`.
pub fn member_balance_lines(items: &[RejoinTimes], cutoff: i64, days: i64) -> (r: Option<Vec<String>>)
    ensures
        ({
            let js = window_events(parsed_join_times(items@), cutoff as int);
            let ls = window_events(parsed_leave_times_of(items@), cutoff as int);
            &&& (js.len() == 0 && ls.len() == 0) ==> r is None
            &&& (js.len() > 0 || ls.len() > 0) ==> r is Some && exists|ds: Seq<i64>|
                active_days(ds, js, ls) && #[trigger] views_of(r->0@) == balance_lines_over(
                    items@,
                    js,
                    ls,
                    days as int,
                    ds,
                )
        }),
{
    let mut jts: Vec<Option<i64>> = Vec::new();
    let mut lts: Vec<Option<i64>> = Vec::new();
    let mut i: usize = 0;
    while i < items.len()
        invariant
            i <= items@.len(),
            jts@ == parsed_join_times(items@).subrange(0, i as int),
            lts@ == parsed_leave_times_of(items@).subrange(0, i as int),
        decreases items@.len() - i,
    {
        jts.push(rfc2822_to_unix(items[i].joined_at.as_str()));
        let l = match &items[i].left_at {
            Some(s) => rfc2822_to_unix(s.as_str()),
            None => None,
        };
        lts.push(l);
        proof {
            assert(jts@ =~= parsed_join_times(items@).subrange(0, i + 1));
            assert(lts@ =~= parsed_leave_times_of(items@).subrange(0, i + 1));
        }
        i = i + 1;
    }
    proof {
        assert(jts@ =~= parsed_join_times(items@));
        assert(lts@ =~= parsed_leave_times_of(items@));
    }
    balance_lines(items, &jts, &lts, cutoff, days)
}

/// Join times parsed as RFC 2822.
pub open spec fn parsed_join_times(items: Seq<RejoinTimes>) -> Seq<Option<i64>> {
    items.map_values(|r: RejoinTimes| rfc2822_timestamp(r.joined_at@))
}

/// Leave times parsed as RFC 2822; a stay still open has none.
pub open spec fn parsed_leave_times_of(items: Seq<RejoinTimes>) -> Seq<Option<i64>> {
    items.map_values(
        |r: RejoinTimes|
            match r.left_at {
                Some(l) => rfc2822_timestamp(l@),
                None => None,
            },
    )
}


// ── Laws of the reports ──────────────────────────────────────────────────────

/// The per-day counts added over the listed days.
pub open spec fn sum_day_counts(ev: Seq<(int, int)>, ds: Seq<i64>) -> int
    decreases ds.len(),
{
    if ds.len() == 0 {
        0
    } else {
        sum_day_counts(ev, ds.drop_last()) + day_count(ev, ds.last() as int)
    }
}

/// How many listed days equal `x`.
pub open spec fn occurrences(ds: Seq<i64>, x: int) -> int
    decreases ds.len(),
{
    if ds.len() == 0 {
        0
    } else {
        occurrences(ds.drop_last(), x) + if ds.last() as int == x { 1int } else { 0int }
    }
}

proof fn lemma_sum_push_event(ev: Seq<(int, int)>, e: (int, int), ds: Seq<i64>)
    ensures
        sum_day_counts(ev.push(e), ds) == sum_day_counts(ev, ds) + occurrences(ds, e.1),
    decreases ds.len(),
{
    if ds.len() > 0 {
        lemma_sum_push_event(ev, e, ds.drop_last());
        assert(ev.push(e).drop_last() =~= ev);
    }
}

proof fn lemma_sum_no_events(ds: Seq<i64>)
    ensures
        sum_day_counts(Seq::empty(), ds) == 0,
    decreases ds.len(),
{
    if ds.len() > 0 {
        lemma_sum_no_events(ds.drop_last());
    }
}

proof fn lemma_occurs_once(ds: Seq<i64>, x: int)
    requires
        increasing(ds),
    ensures
        (exists|j: int| 0 <= j < ds.len() && ds[j] as int == x) ==> occurrences(ds, x) == 1,
        (forall|j: int| 0 <= j < ds.len() ==> ds[j] as int != x) ==> occurrences(ds, x) == 0,
    decreases ds.len(),
{
    if ds.len() > 0 {
        let prev = ds.drop_last();
        assert(increasing(prev));
        lemma_occurs_once(prev, x);
        if ds.last() as int == x {
            assert forall|j: int| 0 <= j < prev.len() implies prev[j] as int != x by {
                assert(ds[j] < ds[ds.len() - 1]);
            }
        } else {
            if exists|j: int| 0 <= j < ds.len() && ds[j] as int == x {
                let j = choose|j: int| 0 <= j < ds.len() && ds[j] as int == x;
                assert(prev[j] as int == x);
            }
        }
    }
}

/// Over increasing days that include every event's day, the per-day counts
/// add up to the number of events.
pub proof fn lemma_day_counts_add_up(ev: Seq<(int, int)>, ds: Seq<i64>)
    requires
        increasing(ds),
        forall|k: int| 0 <= k < ev.len() ==> day_listed(ds, (#[trigger] ev[k]).1),
    ensures
        sum_day_counts(ev, ds) == ev.len(),
    decreases ev.len(),
{
    if ev.len() == 0 {
        assert(ev =~= Seq::<(int, int)>::empty());
        lemma_sum_no_events(ds);
    } else {
        let prev = ev.drop_last();
        assert forall|k: int| 0 <= k < prev.len() implies day_listed(ds, (#[trigger] prev[k]).1) by {
            assert(prev[k] == ev[k]);
        }
        lemma_day_counts_add_up(prev, ds);
        assert(prev.push(ev.last()) =~= ev);
        lemma_sum_push_event(prev, ev.last(), ds);
        assert(ev[ev.len() - 1] == ev.last());
        lemma_occurs_once(ds, ev.last().1);
        assert(day_listed(ds, ev[ev.len() - 1].1));
    }
}

/// Day `x` is one of the listed days.
pub open spec fn day_listed(ds: Seq<i64>, x: int) -> bool {
    exists|j: int| 0 <= j < ds.len() && ds[j] as int == x
}

proof fn lemma_day_range(t: i64)
    ensures
        i64::MIN <= day_of(t as int) <= i64::MAX,
{
    assert(i64::MIN <= (t as int) / 86400 <= i64::MAX) by (nonlinear_arith)
        requires
            i64::MIN <= t <= i64::MAX,
    ;
}

proof fn lemma_days_listed(ts: Seq<Option<i64>>, cutoff: int, ds: Seq<i64>, other: Seq<(int, int)>)
    requires
        forall|d: i64|
            #[trigger] ds.contains(d) <==> (has_day(window_events(ts, cutoff), d as int) || has_day(
                other,
                d as int,
            )),
    ensures
        forall|k: int|
            0 <= k < window_events(ts, cutoff).len() ==> day_listed(
                ds,
                (#[trigger] window_events(ts, cutoff)[k]).1,
            ),
{
    let ev = window_events(ts, cutoff);
    lemma_window_events_props(ts, cutoff);
    assert forall|k: int| 0 <= k < ev.len() implies day_listed(ds, (#[trigger] ev[k]).1) by {
        let t = ts[ev[k].0]->0;
        lemma_day_range(t);
        let d = ev[k].1 as i64;
        assert(d as int == ev[k].1);
        assert(has_day(ev, d as int));
        assert(ds.contains(d));
        let j = choose|j: int| 0 <= j < ds.len() && ds[j] == d;
        assert(ds[j] as int == ev[k].1);
    }
}

/// The member-balance report adds up: over its listed days, the daily joins
/// sum to the window's joins and the daily leaves to its leaves, so the
/// daily nets sum to the net in the header.
pub proof fn lemma_balance_adds_up(
    join_ts: Seq<Option<i64>>,
    leave_ts: Seq<Option<i64>>,
    cutoff: int,
    ds: Seq<i64>,
)
    requires
        active_days(ds, window_events(join_ts, cutoff), window_events(leave_ts, cutoff)),
    ensures
        sum_day_counts(window_events(join_ts, cutoff), ds) == window_events(join_ts, cutoff).len(),
        sum_day_counts(window_events(leave_ts, cutoff), ds) == window_events(leave_ts, cutoff).len(),
        sum_day_counts(window_events(join_ts, cutoff), ds) - sum_day_counts(
            window_events(leave_ts, cutoff),
            ds,
        ) == window_events(join_ts, cutoff).len() - window_events(leave_ts, cutoff).len(),
{
    let js = window_events(join_ts, cutoff);
    let ls = window_events(leave_ts, cutoff);
    lemma_days_listed(join_ts, cutoff, ds, ls);
    assert forall|d: i64| #[trigger] ds.contains(d) <==> (has_day(ls, d as int) || has_day(js, d as int)) by {}
    lemma_days_listed(leave_ts, cutoff, ds, js);
    lemma_day_counts_add_up(js, ds);
    lemma_day_counts_add_up(ls, ds);
}

/// Newest first really is newest first: times never increase along the list.
pub proof fn lemma_newest_first_sorted(s: Seq<(i64, int)>)
    ensures
        forall|i: int, j: int|
            0 <= i < j < newest_first(s).len() ==> newest_first(s)[i].0 >= newest_first(s)[j].0,
    decreases s.len(),
{
    if s.len() > 0 {
        lemma_newest_first_sorted(s.drop_last());
        lemma_insert_sorted(newest_first(s.drop_last()), s.last());
    }
}

proof fn lemma_insert_sorted(s: Seq<(i64, int)>, x: (i64, int))
    requires
        forall|i: int, j: int| 0 <= i < j < s.len() ==> s[i].0 >= s[j].0,
    ensures
        forall|i: int, j: int|
            0 <= i < j < insert_newest_first(s, x).len() ==> insert_newest_first(s, x)[i].0
                >= insert_newest_first(s, x)[j].0,
    decreases s.len(),
{
    if s.len() > 0 && s.last().0 < x.0 {
        let prev = s.drop_last();
        lemma_insert_sorted(prev, x);
        lemma_insert_props(prev, x);
        let r0 = insert_newest_first(prev, x);
        let r = insert_newest_first(s, x);
        assert forall|i: int, j: int| 0 <= i < j < r.len() implies r[i].0 >= r[j].0 by {
            if j == r.len() - 1 {
                assert(r[j] == s.last());
                assert(r[i] == r0[i]);
                if r0[i] != x {
                    let m = choose|m: int| 0 <= m < prev.len() && prev[m] == r0[i];
                    assert(s[m] == prev[m]);
                    assert(s[m].0 >= s[s.len() - 1].0);
                }
            } else {
                assert(r[i] == r0[i] && r[j] == r0[j]);
            }
        }
    } else if s.len() > 0 {
        let r = insert_newest_first(s, x);
        assert forall|i: int, j: int| 0 <= i < j < r.len() implies r[i].0 >= r[j].0 by {
            if j == s.len() {
                assert(s[i].0 >= s[s.len() - 1].0 || i == s.len() - 1);
            }
        }
    }
}

// ── Report titles ────────────────────────────────────────────────────────────

/// The color of the rejoiners report (orange).
pub const REJOINERS_COLOR: u32 = 0xe67e22;

/// The color of the exits report (grey).
pub const EXITS_COLOR: u32 = 0x95a5a6;

/// The color of the member-balance report (blue).
pub const BALANCE_COLOR: u32 = 0x3498db;

/// `Exits in last N days`.
pub open spec fn exits_title_text(days: int) -> Seq<char> {
    "Exits in last "@ + dec(days) + " days"@
}

/// The title of the exits report.
pub fn exits_title(days: i64) -> (r: String)
    ensures
        r@ == exits_title_text(days as int),
{
    let mut s = string_of("Exits in last ");
    push_i64(&mut s, days);
    push_str(&mut s, " days");
    s
}

/// `No exits in the last N days.`
pub open spec fn no_exits_text(days: int) -> Seq<char> {
    "No exits in the last "@ + dec(days) + " days."@
}

/// The reply when no exit falls in the window.
pub fn no_exits_message(days: i64) -> (r: String)
    ensures
        r@ == no_exits_text(days as int),
{
    let mut s = string_of("No exits in the last ");
    push_i64(&mut s, days);
    push_str(&mut s, " days.");
    s
}

/// `Member balance (last N days)`.
pub open spec fn balance_title_text(days: int) -> Seq<char> {
    "Member balance (last "@ + dec(days) + " days)"@
}

/// The title of the member-balance report.
pub fn balance_title(days: i64) -> (r: String)
    ensures
        r@ == balance_title_text(days as int),
{
    let mut s = string_of("Member balance (last ");
    push_i64(&mut s, days);
    push_str(&mut s, " days)");
    s
}

/// `No join/leave activity in the last N days.`
pub open spec fn no_activity_text(days: int) -> Seq<char> {
    "No join/leave activity in the last "@ + dec(days) + " days."@
}

/// The reply when nothing happened in the window.
pub fn no_activity_message(days: i64) -> (r: String)
    ensures
        r@ == no_activity_text(days as int),
{
    let mut s = string_of("No join/leave activity in the last ");
    push_i64(&mut s, days);
    push_str(&mut s, " days.");
    s
}

/// The member-balance window: days to look back, default 30, within
/// 1..=365.
pub fn balance_days(days: Option<i64>) -> (r: i64)
    ensures
        r as int == clamp(or_default(days, 30), 1, 365),
{
    let d = match days {
        Some(v) => v,
        None => 30,
    };
    clamp_i64(d, 1, 365)
}

// ── Current stats ────────────────────────────────────────────────────────────

/// What the current-stats embed explains about its numbers.
pub const CURRENT_STATS_NOTE: &'static str = "Based on recorded activity only — members who joined or left before the bot was added are not included.";

/// `a - b`, limited to the range of `i64` (as `saturating_sub` gives).
pub open spec fn saturating_diff(a: int, b: int) -> int {
    clamp(a - b, i64::MIN as int, i64::MAX as int)
}

/// The exits that were not bans.
pub fn left_of_exits(s: &StatsCurrent) -> (r: i64)
    ensures
        r as int == saturating_diff(s.total_exits as int, s.total_banned as int),
{
    let d: i128 = (s.total_exits as i128) - (s.total_banned as i128);
    if d < i64::MIN as i128 {
        i64::MIN
    } else if d > i64::MAX as i128 {
        i64::MAX
    } else {
        d as i64
    }
}

/// The member count alone, `**N**`, used while no member was ever recorded
/// (the retention share needs at least one).
pub open spec fn members_plain_text(s: StatsCurrent) -> Option<Seq<char>> {
    if s.unique_ever > 0 {
        None
    } else {
        Some("**"@ + dec(s.current_members as int) + "**"@)
    }
}

/// The members field when it has no share to show.
pub fn members_plain(s: &StatsCurrent) -> (r: Option<String>)
    ensures
        match members_plain_text(*s) {
            Some(t) => r is Some && r->0@ == t,
            None => r is None,
        },
{
    if s.unique_ever > 0 {
        None
    } else {
        let mut t = string_of("**");
        push_i64(&mut t, s.current_members);
        push_str(&mut t, "**");
        proof {
            assert(t@ =~= "**"@ + dec(s.current_members as int) + "**"@);
        }
        Some(t)
    }
}

/// The ban count alone, used while there were no exits (the ban share
/// needs at least one).
pub open spec fn banned_plain_text(s: StatsCurrent) -> Option<Seq<char>> {
    if s.total_exits > 0 {
        None
    } else {
        Some(dec(s.total_banned as int))
    }
}

/// The banned field when it has no share to show.
pub fn banned_plain(s: &StatsCurrent) -> (r: Option<String>)
    ensures
        match banned_plain_text(*s) {
            Some(t) => r is Some && r->0@ == t,
            None => r is None,
        },
{
    if s.total_exits > 0 {
        None
    } else {
        let mut t = String::new();
        push_i64(&mut t, s.total_banned);
        proof {
            assert(t@ =~= dec(s.total_banned as int));
        }
        Some(t)
    }
}

/// The current-stats embed, given the members and banned texts.
pub open spec fn current_stats_view(s: StatsCurrent, members: Seq<char>, banned: Seq<char>) -> EmbedView {
    EmbedView {
        color: 0x3498db,
        title: "Current stats"@,
        description: CURRENT_STATS_NOTE@,
        thumbnail: None,
        fields: seq![
            ("Members (of recorded)"@, members, true),
            ("Total stays"@, dec(s.total_stays as int), true),
            ("Total exits"@, dec(s.total_exits as int), true),
            ("Banned (of exits)"@, banned, true),
            ("Left (of exits)"@, dec(saturating_diff(s.total_exits as int, s.total_banned as int)), true),
        ],
        timestamp: None,
    }
}

/// Build the current-stats embed from the counts and the members and
/// banned texts (plain, or with their share).
pub fn current_stats_embed(s: &StatsCurrent, members: String, banned: String) -> (e: EmbedSpec)
    ensures
        embed_view(e) == current_stats_view(*s, members@, banned@),
{
    let mut fields: Vec<EmbedField> = Vec::new();
    let ghost mv = members@;
    let ghost bv = banned@;
    push_field(&mut fields, "Members (of recorded)", members, true);
    let mut stays = String::new();
    push_i64(&mut stays, s.total_stays);
    push_field(&mut fields, "Total stays", stays, true);
    let mut exits = String::new();
    push_i64(&mut exits, s.total_exits);
    push_field(&mut fields, "Total exits", exits, true);
    push_field(&mut fields, "Banned (of exits)", banned, true);
    let mut left = String::new();
    push_i64(&mut left, left_of_exits(s));
    push_field(&mut fields, "Left (of exits)", left, true);
    let e = EmbedSpec {
        color: 0x3498db,
        title: string_of("Current stats"),
        description: string_of(CURRENT_STATS_NOTE),
        thumbnail: None,
        fields,
        timestamp: None,
    };
    proof {
        assert(fields_view(e.fields@) =~= current_stats_view(*s, mv, bv).fields);
    }
    e
}

} // verus!
