//! One-time notices (patch notes): which channel a guild receives them in,
//! which notices a guild is owed, and the run that sends them one by one.

use vstd::prelude::*;

use crate::services::embeds::{embed_view, EmbedSpec, EmbedView};
use crate::services::settings::GuildSettings;
use crate::commands::{rfc2822_timestamp, rfc2822_to_unix};
use crate::text::string_of;

verus! {

/// A notice already sent to a guild.
#[derive(Debug, Clone)]
pub struct SentNotice {
    pub notice_key: String,
    /// RFC 2822 time it was sent.
    pub sent_at: String,
}

/// A notice definition.
#[derive(Debug, Clone)]
pub struct NoticeRow {
    pub id: i64,
    pub key: String,
    pub title: String,
    pub body: String,
    pub color: i64,
    /// Non-zero: only for guilds that already used the bot when the notice
    /// was created.
    pub current_only: i64,
    /// RFC 2822 time the notice was created.
    pub created_at: String,
}

/// What sending notices to a guild needs to know about it.
#[derive(Debug, Clone)]
pub struct NoticeContext {
    pub guild_id: u64,
    pub settings: GuildSettings,
    /// RFC 2822 time the bot first saw the guild, when recorded.
    pub first_seen_at: Option<String>,
}

/// The channel notices go to: none while notices are disabled, else the
/// moderation log, then the join log, then the leave log.
pub open spec fn notice_target(s: GuildSettings) -> Option<u64> {
    if !s.notices_enabled {
        None
    } else if s.mod_log is Some {
        s.mod_log
    } else if s.join_log is Some {
        s.join_log
    } else {
        s.leave_log
    }
}

/// Pick the channel a guild's notices go to.
pub fn notice_channel(settings: &GuildSettings) -> (r: Option<u64>)
    ensures
        r == notice_target(*settings),
{
    if !settings.notices_enabled {
        None
    } else {
        match settings.mod_log {
            Some(c) => Some(c),
            None => match settings.join_log {
                Some(c) => Some(c),
                None => settings.leave_log,
            },
        }
    }
}

/// Whether a guild may receive a notice, from parsed Unix times: a notice
/// for all guilds always; a current-only notice only when both the
/// notice's creation time and the guild's first-seen time are known and
/// the notice is not older than the guild (the guild already existed when
/// the notice was created).
pub open spec fn eligible_by_time(current_only: i64, created: Option<i64>, first_seen: Option<i64>) -> bool {
    current_only == 0 || (created is Some && first_seen is Some && created->0 >= first_seen->0)
}

/// The Unix time of an optional RFC 2822 text: `None` when there is no
/// text or it does not parse.
pub open spec fn parsed_time(t: Option<Seq<char>>) -> Option<i64> {
    match t {
        Some(s) => rfc2822_timestamp(s),
        None => None,
    }
}

/// A guild first seen at `first_seen` may receive a notice created at
/// `created_at` (both RFC 2822 texts). A current-only notice is refused
/// when the first-seen time is unknown, or when either text does not parse.
pub open spec fn notice_eligible(current_only: i64, created_at: Seq<char>, first_seen: Option<Seq<char>>) -> bool {
    eligible_by_time(current_only, rfc2822_timestamp(created_at), parsed_time(first_seen))
}

/// Like `notice_eligible`, except that a guild whose first-seen time is not
/// recorded receives current-only notices too.
pub open spec fn notice_eligible_lenient(
    current_only: i64,
    created_at: Seq<char>,
    first_seen: Option<Seq<char>>,
) -> bool {
    current_only == 0 || first_seen is None || eligible_by_time(
        current_only,
        rfc2822_timestamp(created_at),
        parsed_time(first_seen),
    )
}

/// Whether a guild may receive a notice, given the notice's parsed creation
/// time and the guild's parsed first-seen time.
pub fn notice_eligible_at(current_only: i64, created: Option<i64>, first_seen: Option<i64>) -> (r: bool)
    ensures
        r == eligible_by_time(current_only, created, first_seen),
{
    if current_only == 0 {
        return true;
    }
    match (created, first_seen) {
        (Some(c), Some(f)) => c >= f,
        _ => false,
    }
}

/// The optional text of an optional string.
pub open spec fn opt_text(o: Option<String>) -> Option<Seq<char>> {
    match o {
        Some(s) => Some(s@),
        None => None,
    }
}

/// Whether the guild first seen at `first_seen` may receive notice `n`.
pub fn is_notice_eligible(n: &NoticeRow, first_seen: &Option<String>) -> (r: bool)
    ensures
        r == notice_eligible(n.current_only, n.created_at@, opt_text(*first_seen)),
{
    if n.current_only == 0 {
        return true;
    }
    match first_seen {
        Some(fs) => notice_eligible_at(
            n.current_only,
            rfc2822_to_unix(n.created_at.as_str()),
            rfc2822_to_unix(fs.as_str()),
        ),
        None => false,
    }
}

/// Whether notice `n` may go to the guild, with an unrecorded first-seen
/// time counting in the guild's favour.
pub fn is_notice_eligible_lenient(n: &NoticeRow, first_seen: &Option<String>) -> (r: bool)
    ensures
        r == notice_eligible_lenient(n.current_only, n.created_at@, opt_text(*first_seen)),
{
    if n.current_only == 0 {
        return true;
    }
    match first_seen {
        Some(fs) => notice_eligible_at(
            n.current_only,
            rfc2822_to_unix(n.created_at.as_str()),
            rfc2822_to_unix(fs.as_str()),
        ),
        None => true,
    }
}

/// `idx` lists, in increasing order, exactly the positions `k` of
/// `notices` where `ok(k)` holds.
pub open spec fn lists_exactly(idx: Seq<usize>, len: int, ok: spec_fn(int) -> bool) -> bool {
    &&& forall|a: int, b: int| 0 <= a < b < idx.len() ==> idx[a] < idx[b]
    &&& forall|a: int| 0 <= a < idx.len() ==> (idx[a] as int) < len && ok(idx[a] as int)
    &&& forall|k: int| 0 <= k < len && #[trigger] ok(k) ==> idx.contains(k as usize)
}

/// Notice `k` of `notices` may go to a guild first seen at `first_seen`.
pub open spec fn eligible_at(notices: Seq<NoticeRow>, first_seen: Option<Seq<char>>) -> spec_fn(int) -> bool {
    |k: int| notice_eligible(notices[k].current_only, notices[k].created_at@, first_seen)
}

/// The positions of the notices a guild first seen at `first_seen` may
/// receive, in order.
pub fn eligible_notice_indices(notices: &[NoticeRow], first_seen: &Option<String>) -> (r: Vec<usize>)
    ensures
        lists_exactly(r@, notices@.len() as int, eligible_at(notices@, opt_text(*first_seen))),
{
    let ghost ok = eligible_at(notices@, opt_text(*first_seen));
    let mut r: Vec<usize> = Vec::new();
    let mut i: usize = 0;
    while i < notices.len()
        invariant
            i <= notices@.len(),
            ok == eligible_at(notices@, opt_text(*first_seen)),
            forall|a: int, b: int| 0 <= a < b < r@.len() ==> r@[a] < r@[b],
            forall|a: int| 0 <= a < r@.len() ==> (r@[a] as int) < i && ok(r@[a] as int),
            forall|k: int| 0 <= k < i && #[trigger] ok(k) ==> r@.contains(k as usize),
        decreases notices@.len() - i,
    {
        if is_notice_eligible(&notices[i], first_seen) {
            let ghost before = r@;
            r.push(i);
            proof {
                assert(r@[before.len() as int] == i);
                assert forall|k: int| 0 <= k < i + 1 && #[trigger] ok(k) implies r@.contains(k as usize) by {
                    if k == i {
                        assert(r@[before.len() as int] == k as usize);
                    } else {
                        let a = choose|a: int| 0 <= a < before.len() && before[a] == k as usize;
                        assert(r@[a] == k as usize);
                    }
                }
            }
        } else {
            proof {
                assert(!ok(i as int));
            }
        }
        i = i + 1;
    }
    r
}

/// The embed a notice is posted as: its color (the low 32 bits of the
/// stored value), title and body.
pub open spec fn notice_embed_view(n: NoticeRow) -> EmbedView {
    EmbedView {
        color: n.color as u32,
        title: n.title@,
        description: n.body@,
        thumbnail: None,
        fields: Seq::empty(),
        timestamp: None,
    }
}

/// Build the embed for a notice.
pub fn notice_embed(n: &NoticeRow) -> (e: EmbedSpec)
    ensures
        embed_view(e) == notice_embed_view(*n),
{
    let e = EmbedSpec {
        color: #[verifier::truncate] (n.color as u32),
        title: string_of(n.title.as_str()),
        description: string_of(n.body.as_str()),
        thumbnail: None,
        fields: Vec::new(),
        timestamp: None,
    };
    proof {
        assert(embed_view(e).fields =~= Seq::<(Seq<char>, Seq<char>, bool)>::empty());
    }
    e
}

// ── Sending run ──────────────────────────────────────────────────────────────

/// What happened to the notice a run is at.
#[derive(Debug, Clone, Copy, PartialEq, Eq)]
pub enum NoticeOutcome {
    /// The guild had already received it; nothing was sent.
    AlreadySent,
    /// It was posted to the guild's channel.
    Delivered,
    /// Posting it failed.
    Failed,
}

/// Sending the pending notices of one guild, one notice at a time. The
/// caller asks `current` for the notice to handle, checks whether the guild
/// already has it, posts it when not, and reports the outcome to
/// `advance`, which says whether to record the notice as sent.
pub struct NoticeRun {
    /// The channel notices go to, when there is one.
    pub channel: Option<u64>,
    /// Positions of the notices the guild may receive, in order.
    pub queue: Vec<usize>,
    /// How many of `queue` have been handled.
    pub pos: usize,
    /// How many notices were delivered.
    pub sent: usize,
    /// The outcomes reported so far, in order.
    pub outcomes: Ghost<Seq<NoticeOutcome>>,
}

/// How many of `outcomes` are deliveries.
pub open spec fn delivered_count(outcomes: Seq<NoticeOutcome>) -> nat
    decreases outcomes.len(),
{
    if outcomes.len() == 0 {
        0
    } else {
        delivered_count(outcomes.drop_last()) + (if outcomes.last() == NoticeOutcome::Delivered {
            1nat
        } else {
            0nat
        })
    }
}

impl NoticeRun {
    /// The run is consistent: it has not gone past its queue, it holds one
    /// outcome per handled notice, and it counts exactly the deliveries among
    /// them.
    pub open spec fn wf(&self) -> bool {
        &&& self.pos <= self.queue@.len()
        &&& self.sent <= self.pos
        &&& self.outcomes@.len() == self.pos
        &&& self.sent == delivered_count(self.outcomes@)
    }

    /// Start a run for a guild: nothing to send while notices are disabled
    /// or no channel is configured, else every notice the guild may
    /// receive, in order.
    pub fn start(ctx: &NoticeContext, notices: &[NoticeRow]) -> (r: NoticeRun)
        ensures
            r.wf(),
            r.pos == 0,
            r.sent == 0,
            r.outcomes@ == Seq::<NoticeOutcome>::empty(),
            r.channel == notice_target(ctx.settings),
            r.channel is None ==> r.queue@.len() == 0,
            r.channel is Some ==> lists_exactly(
                r.queue@,
                notices@.len() as int,
                eligible_at(notices@, opt_text(ctx.first_seen_at)),
            ),
    {
        let channel = notice_channel(&ctx.settings);
        let queue = match channel {
            Some(_) => eligible_notice_indices(notices, &ctx.first_seen_at),
            None => Vec::new(),
        };
        NoticeRun { channel, queue, pos: 0, sent: 0, outcomes: Ghost(Seq::empty()) }
    }

    /// The position of the next notice to handle, or `None` when the run is
    /// over.
    pub fn current(&self) -> (r: Option<usize>)
        requires
            self.wf(),
        ensures
            self.pos < self.queue@.len() ==> r == Some(self.queue@[self.pos as int]),
            self.pos >= self.queue@.len() ==> r is None,
    {
        if self.pos < self.queue.len() {
            Some(self.queue[self.pos])
        } else {
            None
        }
    }

    /// Record what happened to the current notice and move past it. Returns
    /// whether to record the notice as sent to the guild: exactly when it
    /// was delivered.
    pub fn advance(&mut self, outcome: NoticeOutcome) -> (mark: bool)
        requires
            old(self).wf(),
            old(self).pos < old(self).queue@.len(),
        ensures
            final(self).wf(),
            final(self).channel == old(self).channel,
            final(self).queue@ == old(self).queue@,
            final(self).pos == old(self).pos + 1,
            final(self).outcomes@ == old(self).outcomes@.push(outcome),
            mark == (outcome == NoticeOutcome::Delivered),
            final(self).sent == old(self).sent + (if mark { 1int } else { 0int }),
    {
        let n = self.queue.len();
        assert(self.pos < n);
        let ghost before = self.outcomes@;
        self.pos = self.pos + 1;
        self.outcomes = Ghost(before.push(outcome));
        proof {
            assert(self.outcomes@.drop_last() =~= before);
        }
        match outcome {
            NoticeOutcome::Delivered => {
                self.sent = self.sent + 1;
                true
            },
            _ => false,
        }
    }
}

// ── Laws of sending ──────────────────────────────────────────────────────────

/// A run in which every notice is reported as already sent delivers nothing:
/// `advance` asks to record none of them, and the run's count stays 0.
pub proof fn lemma_already_sent_delivers_nothing(outcomes: Seq<NoticeOutcome>)
    requires
        forall|i: int| 0 <= i < outcomes.len() ==> #[trigger] outcomes[i] == NoticeOutcome::AlreadySent,
    ensures
        delivered_count(outcomes) == 0,
    decreases outcomes.len(),
{
    if outcomes.len() > 0 {
        let prev = outcomes.drop_last();
        assert forall|i: int| 0 <= i < prev.len() implies #[trigger] prev[i] == NoticeOutcome::AlreadySent by {
            assert(prev[i] == outcomes[i]);
        }
        lemma_already_sent_delivers_nothing(prev);
        assert(outcomes[outcomes.len() - 1] == NoticeOutcome::AlreadySent);
    }
}

/// The outcome for the notice `key` in a guild that has already received
/// the notices in `had`, when posting it would succeed exactly if
/// `post_ok`: the guild is checked first, and only then is it posted.
pub open spec fn outcome_for(had: Set<Seq<char>>, key: Seq<char>, post_ok: bool) -> NoticeOutcome {
    if had.contains(key) {
        NoticeOutcome::AlreadySent
    } else if post_ok {
        NoticeOutcome::Delivered
    } else {
        NoticeOutcome::Failed
    }
}

/// The notices a guild has received after a run over `steps` (each a
/// notice key and whether posting it succeeds), starting from `had`: each
/// delivered notice is recorded as sent.
pub open spec fn had_after(had: Set<Seq<char>>, steps: Seq<(Seq<char>, bool)>) -> Set<Seq<char>>
    decreases steps.len(),
{
    if steps.len() == 0 {
        had
    } else {
        let h = had_after(had, steps.drop_last());
        if outcome_for(h, steps.last().0, steps.last().1) == NoticeOutcome::Delivered {
            h.insert(steps.last().0)
        } else {
            h
        }
    }
}

/// The outcomes reported in a run over `steps`, starting from `had`.
pub open spec fn run_outcomes(had: Set<Seq<char>>, steps: Seq<(Seq<char>, bool)>) -> Seq<NoticeOutcome>
    decreases steps.len(),
{
    if steps.len() == 0 {
        Seq::empty()
    } else {
        run_outcomes(had, steps.drop_last()).push(
            outcome_for(had_after(had, steps.drop_last()), steps.last().0, steps.last().1),
        )
    }
}

proof fn lemma_had_after_grows(had: Set<Seq<char>>, steps: Seq<(Seq<char>, bool)>)
    ensures
        forall|k: Seq<char>| had.contains(k) ==> #[trigger] had_after(had, steps).contains(k),
        (forall|i: int| #![trigger steps[i]] 0 <= i < steps.len() ==> steps[i].1) ==> forall|i: int|
            #![trigger steps[i]]
            0 <= i < steps.len() ==> had_after(had, steps).contains(steps[i].0),
    decreases steps.len(),
{
    if steps.len() > 0 {
        let prev = steps.drop_last();
        lemma_had_after_grows(had, prev);
        let h = had_after(had, prev);
        let last = steps.last();
        assert(last == steps[steps.len() - 1]);
        assert forall|k: Seq<char>| h.contains(k) implies #[trigger] had_after(had, steps).contains(k) by {}
        if forall|i: int| #![trigger steps[i]] 0 <= i < steps.len() ==> steps[i].1 {
            assert forall|i: int| #![trigger prev[i]] 0 <= i < prev.len() implies prev[i].1 by {
                assert(prev[i] == steps[i]);
            }
            assert forall|i: int| #![trigger steps[i]] 0 <= i < steps.len() implies had_after(
                had,
                steps,
            ).contains(steps[i].0) by {
                if i < prev.len() {
                    assert(prev[i] == steps[i]);
                    assert(h.contains(prev[i].0));
                } else {
                    assert(steps[i] == last);
                    assert(last.1);
                }
            }
        }
    }
}

proof fn lemma_run_on_received(had: Set<Seq<char>>, steps: Seq<(Seq<char>, bool)>)
    requires
        forall|i: int| #![trigger steps[i]] 0 <= i < steps.len() ==> had.contains(steps[i].0),
    ensures
        had_after(had, steps) == had,
        run_outcomes(had, steps).len() == steps.len(),
        forall|i: int|
            0 <= i < steps.len() ==> #[trigger] run_outcomes(had, steps)[i] == NoticeOutcome::AlreadySent,
    decreases steps.len(),
{
    if steps.len() > 0 {
        let prev = steps.drop_last();
        assert forall|i: int| #![trigger prev[i]] 0 <= i < prev.len() implies had.contains(prev[i].0) by {
            assert(prev[i] == steps[i]);
        }
        lemma_run_on_received(had, prev);
        let last = steps.last();
        assert(last == steps[steps.len() - 1]);
        assert(had.contains(last.0));
        let o = run_outcomes(had, steps);
        assert forall|i: int| 0 <= i < steps.len() implies #[trigger] o[i] == NoticeOutcome::AlreadySent by {
            if i < prev.len() {
                assert(o[i] == run_outcomes(had, prev)[i]);
            }
        }
    }
}

/// Each notice reaches a guild at most once: after a run in which every
/// post succeeded, a later run over any of the same notices (whatever its
/// posts would do) finds each one already sent, delivers nothing, and
/// records nothing new.
pub proof fn lemma_second_run_sends_nothing(
    had: Set<Seq<char>>,
    first: Seq<(Seq<char>, bool)>,
    second: Seq<(Seq<char>, bool)>,
)
    requires
        forall|i: int| #![trigger first[i]] 0 <= i < first.len() ==> first[i].1,
        forall|j: int|
            #![trigger second[j]]
            0 <= j < second.len() ==> exists|i: int|
                #![trigger first[i]]
                0 <= i < first.len() && first[i].0 == second[j].0,
    ensures
        forall|j: int|
            0 <= j < second.len() ==> #[trigger] run_outcomes(had_after(had, first), second)[j]
                == NoticeOutcome::AlreadySent,
        run_outcomes(had_after(had, first), second).len() == second.len(),
        delivered_count(run_outcomes(had_after(had, first), second)) == 0,
        had_after(had_after(had, first), second) == had_after(had, first),
{
    let h = had_after(had, first);
    lemma_had_after_grows(had, first);
    assert forall|j: int| #![trigger second[j]] 0 <= j < second.len() implies h.contains(second[j].0) by {
        let i = choose|i: int| #![trigger first[i]] 0 <= i < first.len() && first[i].0 == second[j].0;
        assert(h.contains(first[i].0));
    }
    lemma_run_on_received(h, second);
    lemma_already_sent_delivers_nothing(run_outcomes(h, second));
}

} // verus!
