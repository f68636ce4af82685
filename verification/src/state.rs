//! In-memory state kept per guild between gateway events: recent bans,
//! used to tell a ban from a voluntary leave when the member removal
//! arrives.
//!
//! Times are Unix seconds read by the caller.

use vstd::prelude::*;

verus! {

/// How recent (seconds) a ban event must be to classify a removal as a
/// ban (15 s).
pub const RECENT_BAN_WINDOW_SECS: i64 = 15;

/// How long (seconds) ban events are kept before pruning (60 s).
pub const RECENT_BAN_MAX_AGE_SECS: i64 = 60;

/// Entries with pairwise distinct users.
pub open spec fn users_unique(s: Seq<(u64, i64)>) -> bool {
    forall|i: int, j: int| 0 <= i < s.len() && 0 <= j < s.len() && i != j ==> s[i].0 != s[j].0
}

pub open spec fn has_user(s: Seq<(u64, i64)>, u: u64) -> bool {
    exists|i: int| 0 <= i < s.len() && s[i].0 == u
}

/// The map from user to ban time that a list of entries describes.
pub open spec fn ban_map(s: Seq<(u64, i64)>) -> Map<u64, i64> {
    Map::new(|u: u64| has_user(s, u), |u: u64| s[choose|i: int| 0 <= i < s.len() && s[i].0 == u].1)
}

proof fn lemma_ban_map_at(s: Seq<(u64, i64)>, i: int)
    requires
        users_unique(s),
        0 <= i < s.len(),
    ensures
        ban_map(s).contains_key(s[i].0),
        ban_map(s)[s[i].0] == s[i].1,
{
    assert(has_user(s, s[i].0));
    let j = choose|j: int| 0 <= j < s.len() && s[j].0 == s[i].0;
    assert(j == i);
}

/// The user was banned at most `window` seconds before `now`.
pub open spec fn banned_within(m: Map<u64, i64>, user: u64, window: int, now: int) -> bool {
    m.contains_key(user) && now - m[user] <= window
}

/// The ban entry is at most `max_age` seconds old at `now`.
pub open spec fn fresh_ban(e: (u64, i64), max_age: int, now: int) -> bool {
    now - e.1 <= max_age
}

/// The bans kept by pruning at `now`: those at most `max_age` seconds old.
pub open spec fn pruned_bans(m: Map<u64, i64>, max_age: int, now: int) -> Map<u64, i64> {
    Map::new(|u: u64| m.contains_key(u) && now - m[u] <= max_age, |u: u64| m[u])
}

/// Recent bans in one guild: user id → Unix time of the ban event.
pub struct RecentBans {
    pub(crate) entries: Vec<(u64, i64)>,
}

impl View for RecentBans {
    type V = Map<u64, i64>;

    closed spec fn view(&self) -> Map<u64, i64> {
        ban_map(self.entries@)
    }
}

impl RecentBans {
    /// The entries have distinct users.
    pub closed spec fn wf(&self) -> bool {
        users_unique(self.entries@)
    }

    /// No recent bans.
    pub fn new() -> (r: RecentBans)
        ensures
            r.wf(),
            r@ == Map::<u64, i64>::empty(),
    {
        let r = RecentBans { entries: Vec::new() };
        proof {
            assert(r@ =~= Map::<u64, i64>::empty());
        }
        r
    }

    /// Record that `user_id` was banned at `now`.
    pub fn mark_recent_ban(&mut self, user_id: u64, now: i64)
        requires
            old(self).wf(),
        ensures
            final(self).wf(),
            final(self)@ == old(self)@.insert(user_id, now),
    {
        let ghost s = self.entries@;
        let mut i: usize = 0;
        while i < self.entries.len()
            invariant
                s == self.entries@,
                s == old(self).entries@,
                users_unique(s),
                i <= s.len(),
                forall|j: int| 0 <= j < i ==> s[j].0 != user_id,
            decreases s.len() - i,
        {
            if self.entries[i].0 == user_id {
                self.entries.set(i, (user_id, now));
                proof {
                    let s2 = self.entries@;
                    assert(s2 == s.update(i as int, (user_id, now)));
                    assert(users_unique(s2));
                    lemma_ban_map_at(s2, i as int);
                    assert forall|u: u64| #[trigger] ban_map(s2).contains_key(u) <==> ban_map(
                        s,
                    ).insert(user_id, now).contains_key(u) by {
                        if has_user(s, u) {
                            let j = choose|j: int| 0 <= j < s.len() && s[j].0 == u;
                            assert(s2[j].0 == u);
                        }
                        if has_user(s2, u) {
                            let j = choose|j: int| 0 <= j < s2.len() && s2[j].0 == u;
                            assert(s[j].0 == u);
                        }
                    }
                    assert forall|u: u64| #[trigger] ban_map(s2).contains_key(u) implies ban_map(
                        s2,
                    )[u] == ban_map(s).insert(user_id, now)[u] by {
                        let j = choose|j: int| 0 <= j < s2.len() && s2[j].0 == u;
                        lemma_ban_map_at(s2, j);
                        lemma_ban_map_at(s, j);
                    }
                    assert(ban_map(s2) =~= ban_map(s).insert(user_id, now));
                }
                return;
            }
            i = i + 1;
        }
        self.entries.push((user_id, now));
        proof {
            let s2 = self.entries@;
            assert(users_unique(s2));
            lemma_ban_map_at(s2, s.len() as int);
            assert forall|u: u64| #[trigger] ban_map(s2).contains_key(u) <==> ban_map(s).insert(
                user_id,
                now,
            ).contains_key(u) by {
                if has_user(s, u) {
                    let j = choose|j: int| 0 <= j < s.len() && s[j].0 == u;
                    assert(s2[j].0 == u);
                }
                if has_user(s2, u) && u != user_id {
                    let j = choose|j: int| 0 <= j < s2.len() && s2[j].0 == u;
                    assert(s[j].0 == u);
                }
            }
            assert forall|u: u64| #[trigger] ban_map(s2).contains_key(u) implies ban_map(s2)[u]
                == ban_map(s).insert(user_id, now)[u] by {
                let j = choose|j: int| 0 <= j < s2.len() && s2[j].0 == u;
                lemma_ban_map_at(s2, j);
                if j < s.len() {
                    lemma_ban_map_at(s, j);
                }
            }
            assert(ban_map(s2) =~= ban_map(s).insert(user_id, now));
        }
    }

    /// Whether `user_id` was banned at most `window_secs` seconds before `now`.
    pub fn was_recently_banned(&self, user_id: u64, window_secs: i64, now: i64) -> (r: bool)
        requires
            self.wf(),
        ensures
            r == banned_within(self@, user_id, window_secs as int, now as int),
    {
        let ghost s = self.entries@;
        let mut i: usize = 0;
        while i < self.entries.len()
            invariant
                s == self.entries@,
                users_unique(s),
                i <= s.len(),
                forall|j: int| 0 <= j < i ==> s[j].0 != user_id,
            decreases s.len() - i,
        {
            if self.entries[i].0 == user_id {
                proof {
                    lemma_ban_map_at(s, i as int);
                }
                let ts = self.entries[i].1;
                return (now as i128) - (ts as i128) <= window_secs as i128;
            }
            i = i + 1;
        }
        false
    }

    /// Forget bans more than `max_age_secs` seconds old.
    pub fn prune_recent_bans(&mut self, max_age_secs: i64, now: i64)
        requires
            old(self).wf(),
        ensures
            final(self).wf(),
            final(self)@ == pruned_bans(old(self)@, max_age_secs as int, now as int),
    {
        let ghost s = self.entries@;
        let ghost ma = max_age_secs as int;
        let ghost nw = now as int;
        let ghost mut src: Seq<int> = Seq::empty();
        let mut kept: Vec<(u64, i64)> = Vec::new();
        let mut i: usize = 0;
        while i < self.entries.len()
            invariant
                s == self.entries@,
                ma == max_age_secs as int,
                nw == now as int,
                users_unique(s),
                i <= s.len(),
                users_unique(kept@),
                src.len() == kept@.len(),
                forall|j: int|
                    0 <= j < src.len() ==> 0 <= #[trigger] src[j] < i && kept@[j] == s[src[j]]
                        && fresh_ban(s[src[j]], ma, nw),
                forall|m: int|
                    0 <= m < i && fresh_ban(s[m], ma, nw) ==> exists|j: int|
                        0 <= j < kept@.len() && kept@[j] == #[trigger] s[m],
            decreases s.len() - i,
        {
            let e = self.entries[i];
            let keep = (now as i128) - (e.1 as i128) <= max_age_secs as i128;
            proof {
                assert(e == s[i as int]);
                assert(keep == fresh_ban(s[i as int], ma, nw));
            }
            if keep {
                let ghost prev = kept@;
                proof {
                    assert forall|j: int| 0 <= j < prev.len() implies prev[j].0 != e.0 by {
                        assert(src[j] != i);
                        assert(prev[j] == s[src[j]]);
                    }
                }
                kept.push(e);
                proof {
                    src = src.push(i as int);
                    assert forall|m: int| 0 <= m < i + 1 && fresh_ban(s[m], ma, nw) implies exists|j: int|
                        0 <= j < kept@.len() && kept@[j] == #[trigger] s[m] by {
                        if m == i {
                            assert(kept@[prev.len() as int] == s[m]);
                        } else {
                            let j = choose|j: int| 0 <= j < prev.len() && prev[j] == s[m];
                            assert(kept@[j] == s[m]);
                        }
                    }
                }
            }
            i = i + 1;
        }
        let ghost newer = kept@;
        self.entries = kept;
        proof {
            let target = pruned_bans(ban_map(s), ma, nw);
            assert forall|u: u64| #[trigger] ban_map(newer).contains_key(u) <==> target.contains_key(u) by {
                if has_user(newer, u) {
                    let j = choose|j: int| 0 <= j < newer.len() && newer[j].0 == u;
                    lemma_ban_map_at(s, src[j]);
                }
                if target.contains_key(u) {
                    let m = choose|m: int| 0 <= m < s.len() && s[m].0 == u;
                    lemma_ban_map_at(s, m);
                    let j = choose|j: int| 0 <= j < newer.len() && newer[j] == s[m];
                    assert(newer[j].0 == u);
                }
            }
            assert forall|u: u64| #[trigger] ban_map(newer).contains_key(u) implies ban_map(newer)[u]
                == target[u] by {
                let j = choose|j: int| 0 <= j < newer.len() && newer[j].0 == u;
                lemma_ban_map_at(s, src[j]);
                lemma_ban_map_at(newer, j);
            }
            assert(ban_map(newer) =~= target);
        }
    }
}

// ── Laws of ban tracking ─────────────────────────────────────────────────────

/// A ban recorded at `now` is recent at `now` for any non-negative window.
pub proof fn lemma_marked_ban_is_recent(m: Map<u64, i64>, user: u64, now: i64, window: int)
    requires
        window >= 0,
    ensures
        banned_within(m.insert(user, now), user, window, now as int),
{
}

/// Pruning with a maximum age at least the query window never changes
/// whether a user counts as recently banned.
pub proof fn lemma_prune_keeps_recent_bans(
    m: Map<u64, i64>,
    user: u64,
    window: int,
    max_age: int,
    now: int,
)
    requires
        window <= max_age,
    ensures
        banned_within(pruned_bans(m, max_age, now), user, window, now) == banned_within(
            m,
            user,
            window,
            now,
        ),
{
}

} // verus!
