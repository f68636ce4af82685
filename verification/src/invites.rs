//! Invite tracking for one guild: the cache of known invites with their use
//! counts and lifecycle times, and the two ways of telling which invite a
//! new member used.
//!
//! Times here are monotonic clock readings in nanoseconds (since the bot
//! started); the caller reads the clock.

use vstd::prelude::*;

use crate::text::str_eq;

verus! {

/// How recently (ns) an invite must have been deleted to count for a join
/// (5 s).
pub const DELETION_WINDOW_NS: u64 = 5_000_000_000;

/// How long (ns) deleted invites are kept before pruning (60 s).
pub const DELETED_INVITE_MAX_AGE_NS: u64 = 60_000_000_000;

/// What the bot knows of an invite at one moment.
#[derive(Debug, Clone)]
pub struct InviteSnapshot {
    pub uses: u64,
    pub max_uses: u64,
    pub inviter_id: Option<String>,
    pub inviter_name: Option<String>,
}

/// An invite tracked through its full lifecycle via gateway events.
#[derive(Debug, Clone)]
pub struct TrackedInvite {
    pub snapshot: InviteSnapshot,
    /// Monotonic time (ns) when the bot learned of the invite.
    pub created_at: u64,
    /// Set when an InviteDelete event is received. `None` while the invite is active.
    pub deleted_at: Option<u64>,
}

fn copy_opt_string(o: &Option<String>) -> (r: Option<String>)
    ensures
        r == *o,
{
    match o {
        Some(s) => Some(s.clone()),
        None => None,
    }
}

impl InviteSnapshot {
    /// An exact copy.
    pub fn copy(&self) -> (r: InviteSnapshot)
        ensures
            r == *self,
    {
        InviteSnapshot {
            uses: self.uses,
            max_uses: self.max_uses,
            inviter_id: copy_opt_string(&self.inviter_id),
            inviter_name: copy_opt_string(&self.inviter_name),
        }
    }
}

impl TrackedInvite {
    /// An exact copy.
    pub fn copy(&self) -> (r: TrackedInvite)
        ensures
            r == *self,
    {
        TrackedInvite {
            snapshot: self.snapshot.copy(),
            created_at: self.created_at,
            deleted_at: self.deleted_at,
        }
    }
}

/// How long ago (ns) an invite was deleted, when it was; a deletion time in
/// the future counts as zero, as `Instant::duration_since` does.
pub open spec fn deleted_age(t: TrackedInvite, now: u64) -> Option<nat> {
    match t.deleted_at {
        Some(d) => Some(if now >= d { (now - d) as nat } else { 0nat }),
        None => None,
    }
}

/// The invite was deleted at most `window` ns before `now`.
pub open spec fn deleted_within(t: TrackedInvite, now: u64, window: u64) -> bool {
    t.deleted_at is Some && deleted_age(t, now)->0 <= window
}

/// Entries with pairwise distinct codes.
pub open spec fn codes_unique(s: Seq<(String, TrackedInvite)>) -> bool {
    forall|i: int, j: int| 0 <= i < s.len() && 0 <= j < s.len() && i != j ==> s[i].0@ != s[j].0@
}

pub open spec fn has_code(s: Seq<(String, TrackedInvite)>, k: Seq<char>) -> bool {
    exists|i: int| 0 <= i < s.len() && s[i].0@ == k
}

/// The map from code to tracked invite that a list of entries describes.
pub open spec fn map_of(s: Seq<(String, TrackedInvite)>) -> Map<Seq<char>, TrackedInvite> {
    Map::new(
        |k: Seq<char>| has_code(s, k),
        |k: Seq<char>| s[choose|i: int| 0 <= i < s.len() && s[i].0@ == k].1,
    )
}

proof fn lemma_map_of_at(s: Seq<(String, TrackedInvite)>, i: int)
    requires
        codes_unique(s),
        0 <= i < s.len(),
    ensures
        map_of(s).contains_key(s[i].0@),
        map_of(s)[s[i].0@] == s[i].1,
{
    let k = s[i].0@;
    assert(has_code(s, k));
    let j = choose|j: int| 0 <= j < s.len() && s[j].0@ == k;
    assert(j == i);
}

proof fn lemma_map_of_push(s: Seq<(String, TrackedInvite)>, code: String, t: TrackedInvite)
    requires
        codes_unique(s),
        !has_code(s, code@),
    ensures
        codes_unique(s.push((code, t))),
        map_of(s.push((code, t))) == map_of(s).insert(code@, t),
{
    let s2 = s.push((code, t));
    assert(codes_unique(s2));
    assert forall|k: Seq<char>| #[trigger] map_of(s2).contains_key(k) <==> map_of(s).insert(
        code@,
        t,
    ).contains_key(k) by {
        if has_code(s, k) {
            let j = choose|j: int| 0 <= j < s.len() && s[j].0@ == k;
            assert(s2[j].0@ == k);
        }
        if has_code(s2, k) && k != code@ {
            let j = choose|j: int| 0 <= j < s2.len() && s2[j].0@ == k;
            assert(s[j].0@ == k);
        }
        if k == code@ {
            assert(s2[s.len() as int].0@ == k);
        }
    }
    assert forall|k: Seq<char>| #[trigger] map_of(s2).contains_key(k) implies map_of(s2)[k]
        == map_of(s).insert(code@, t)[k] by {
        if k == code@ {
            lemma_map_of_at(s2, s.len() as int);
        } else {
            let j = choose|j: int| 0 <= j < s2.len() && s2[j].0@ == k;
            lemma_map_of_at(s2, j);
            lemma_map_of_at(s, j);
        }
    }
    assert(map_of(s2) =~= map_of(s).insert(code@, t));
}

proof fn lemma_map_of_update(s: Seq<(String, TrackedInvite)>, i: int, t: TrackedInvite)
    requires
        codes_unique(s),
        0 <= i < s.len(),
    ensures
        codes_unique(s.update(i, (s[i].0, t))),
        map_of(s.update(i, (s[i].0, t))) == map_of(s).insert(s[i].0@, t),
{
    let s2 = s.update(i, (s[i].0, t));
    assert(codes_unique(s2));
    lemma_map_of_at(s, i);
    assert forall|k: Seq<char>| #[trigger] map_of(s2).contains_key(k) <==> map_of(s).contains_key(
        k,
    ) by {
        if has_code(s, k) {
            let j = choose|j: int| 0 <= j < s.len() && s[j].0@ == k;
            assert(s2[j].0@ == k);
        }
        if has_code(s2, k) {
            let j = choose|j: int| 0 <= j < s2.len() && s2[j].0@ == k;
            assert(s[j].0@ == k);
        }
    }
    assert forall|k: Seq<char>| #[trigger] map_of(s2).contains_key(k) implies map_of(s2)[k]
        == map_of(s).insert(s[i].0@, t)[k] by {
        let j = choose|j: int| 0 <= j < s2.len() && s2[j].0@ == k;
        lemma_map_of_at(s2, j);
        lemma_map_of_at(s, j);
    }
    assert(map_of(s2) =~= map_of(s).insert(s[i].0@, t));
}

/// The invites of one guild, by code.
pub struct InviteMap {
    pub(crate) entries: Vec<(String, TrackedInvite)>,
}

impl View for InviteMap {
    type V = Map<Seq<char>, TrackedInvite>;

    closed spec fn view(&self) -> Map<Seq<char>, TrackedInvite> {
        map_of(self.entries@)
    }
}

impl InviteMap {
    /// The entries have distinct codes.
    pub closed spec fn wf(&self) -> bool {
        codes_unique(self.entries@)
    }

    /// An empty cache.
    pub fn new() -> (r: InviteMap)
        ensures
            r.wf(),
            r@ == Map::<Seq<char>, TrackedInvite>::empty(),
    {
        let r = InviteMap { entries: Vec::new() };
        proof {
            assert(r@ =~= Map::<Seq<char>, TrackedInvite>::empty());
        }
        r
    }

    /// Number of invites held.
    pub fn len(&self) -> (n: usize)
        requires
            self.wf(),
        ensures
            n as nat == self@.len(),
    {
        proof {
            self.lemma_len();
        }
        self.entries.len()
    }

    proof fn lemma_len(&self)
        requires
            self.wf(),
        ensures
            self.entries@.len() == self@.len(),
    {
        lemma_seq_map_len(self.entries@);
    }

    /// Index of the entry with this code, if any.
    fn find(&self, code: &str) -> (r: Option<usize>)
        requires
            self.wf(),
        ensures
            match r {
                Some(i) => i < self.entries@.len() && self.entries@[i as int].0@ == code@,
                None => !has_code(self.entries@, code@),
            },
    {
        let mut i: usize = 0;
        while i < self.entries.len()
            invariant
                i <= self.entries@.len(),
                forall|j: int| 0 <= j < i ==> self.entries@[j].0@ != code@,
            decreases self.entries@.len() - i,
        {
            if str_eq(self.entries[i].0.as_str(), code) {
                return Some(i);
            }
            i = i + 1;
        }
        None
    }

    /// The tracked invite with this code.
    pub fn get(&self, code: &str) -> (r: Option<&TrackedInvite>)
        requires
            self.wf(),
        ensures
            match r {
                Some(t) => self@.contains_key(code@) && *t == self@[code@],
                None => !self@.contains_key(code@),
            },
    {
        match self.find(code) {
            Some(i) => {
                proof {
                    lemma_map_of_at(self.entries@, i as int);
                }
                Some(&self.entries[i].1)
            },
            None => None,
        }
    }

    /// Insert or replace the invite with this code.
    pub fn insert(&mut self, code: String, t: TrackedInvite)
        requires
            old(self).wf(),
        ensures
            final(self).wf(),
            final(self)@ == old(self)@.insert(code@, t),
    {
        match self.find(code.as_str()) {
            Some(i) => {
                proof {
                    lemma_map_of_update(self.entries@, i as int, t);
                }
                let k = self.entries[i].0.clone();
                self.entries.set(i, (k, t));
                proof {
                    assert(self.entries@ =~= old(self).entries@.update(
                        i as int,
                        (old(self).entries@[i as int].0, t),
                    ));
                }
            },
            None => {
                proof {
                    lemma_map_of_push(self.entries@, code, t);
                }
                self.entries.push((code, t));
            },
        }
    }
}

proof fn lemma_seq_map_len(s: Seq<(String, TrackedInvite)>)
    requires
        codes_unique(s),
    ensures
        map_of(s).len() == s.len(),
        map_of(s).dom().finite(),
    decreases s.len(),
{
    if s.len() == 0 {
        assert(map_of(s) =~= Map::<Seq<char>, TrackedInvite>::empty());
    } else {
        let prev = s.drop_last();
        assert(codes_unique(prev));
        assert(!has_code(prev, s.last().0@)) by {
            if has_code(prev, s.last().0@) {
                let j = choose|j: int| 0 <= j < prev.len() && prev[j].0@ == s.last().0@;
                assert(s[j].0@ == s[s.len() - 1].0@);
            }
        }
        lemma_seq_map_len(prev);
        lemma_map_of_push(prev, s.last().0, s.last().1);
        assert(prev.push((s.last().0, s.last().1)) =~= s);
    }
}

/// The invite after an InviteDelete event at `now`: the same invite with its
/// deletion time set.
pub open spec fn deleted_at_time(t: TrackedInvite, now: u64) -> TrackedInvite {
    TrackedInvite { deleted_at: Some(now), ..t }
}

/// The invite is kept by pruning at `now`: it is active, or it was deleted
/// less than `max_age` ns ago.
pub open spec fn survives_prune(t: TrackedInvite, max_age: u64, now: u64) -> bool {
    match deleted_age(t, now) {
        Some(age) => age < max_age,
        None => true,
    }
}

/// The cache entry after fresh API data for the same code: the fresh
/// snapshot, with the cached lifecycle times kept.
pub open spec fn refreshed(cached: TrackedInvite, fresh: TrackedInvite) -> TrackedInvite {
    TrackedInvite { snapshot: fresh.snapshot, ..cached }
}

/// The cache after merging fresh API data (see `InviteMap::merge_fetched`).
pub open spec fn merged(
    cached: Map<Seq<char>, TrackedInvite>,
    fresh: Map<Seq<char>, TrackedInvite>,
) -> Map<Seq<char>, TrackedInvite> {
    Map::new(
        |k: Seq<char>| cached.contains_key(k) || fresh.contains_key(k),
        |k: Seq<char>|
            if fresh.contains_key(k) {
                if cached.contains_key(k) {
                    refreshed(cached[k], fresh[k])
                } else {
                    fresh[k]
                }
            } else {
                cached[k]
            },
    )
}

/// Some invite of `m` was deleted within `window` ns before `now`.
pub open spec fn has_recent_deletion(m: Map<Seq<char>, TrackedInvite>, now: u64, window: u64) -> bool {
    exists|k: Seq<char>| m.contains_key(k) && deleted_within(#[trigger] m[k], now, window)
}

/// The invite whose use count went up by exactly one between the cached and
/// the fresh data.
pub open spec fn uses_went_up_by_one(
    cached: Map<Seq<char>, TrackedInvite>,
    fresh: Map<Seq<char>, TrackedInvite>,
    k: Seq<char>,
) -> bool {
    cached.contains_key(k) && fresh.contains_key(k) && fresh[k].snapshot.uses
        == cached[k].snapshot.uses + 1
}

/// The tracked invites built from an invite listing taken at `now`; a code
/// listed twice keeps its last entry.
pub open spec fn fetched_map(list: Seq<(String, InviteSnapshot)>, now: u64) -> Map<
    Seq<char>,
    TrackedInvite,
>
    decreases list.len(),
{
    if list.len() == 0 {
        Map::empty()
    } else {
        fetched_map(list.drop_last(), now).insert(
            list.last().0@,
            TrackedInvite { snapshot: list.last().1, created_at: now, deleted_at: None },
        )
    }
}

fn age_of(t: &TrackedInvite, now: u64) -> (r: Option<u64>)
    ensures
        match r {
            Some(a) => deleted_age(*t, now) == Some(a as nat),
            None => deleted_age(*t, now) is None,
        },
{
    match t.deleted_at {
        Some(d) => if now >= d { Some(now - d) } else { Some(0) },
        None => None,
    }
}

impl InviteMap {
    /// Record an InviteCreate event: the invite is (re)tracked as active,
    /// created at `now`.
    pub fn on_invite_create(&mut self, code: String, snapshot: InviteSnapshot, now: u64)
        requires
            old(self).wf(),
        ensures
            final(self).wf(),
            final(self)@ == old(self)@.insert(
                code@,
                TrackedInvite { snapshot: snapshot, created_at: now, deleted_at: None },
            ),
    {
        self.insert(code, TrackedInvite { snapshot, created_at: now, deleted_at: None });
    }

    /// Record an InviteDelete event: a known invite gets its deletion time;
    /// an unknown code changes nothing.
    pub fn on_invite_delete(&mut self, code: &str, now: u64)
        requires
            old(self).wf(),
        ensures
            final(self).wf(),
            old(self)@.contains_key(code@) ==> final(self)@ == old(self)@.insert(
                code@,
                deleted_at_time(old(self)@[code@], now),
            ),
            !old(self)@.contains_key(code@) ==> final(self)@ == old(self)@,
    {
        match self.find(code) {
            Some(i) => {
                proof {
                    lemma_map_of_at(self.entries@, i as int);
                }
                let t = self.entries[i].1.copy();
                let k = self.entries[i].0.clone();
                self.insert(k, TrackedInvite { deleted_at: Some(now), ..t });
            },
            None => {},
        }
    }

    /// Prune deleted invites older than `max_age` ns; active invites are
    /// always kept.
    pub fn prune_deleted_invites(&mut self, max_age: u64, now: u64)
        requires
            old(self).wf(),
        ensures
            final(self).wf(),
            forall|k: Seq<char>|
                #[trigger] final(self)@.contains_key(k) <==> (old(self)@.contains_key(k)
                    && survives_prune(old(self)@[k], max_age, now)),
            forall|k: Seq<char>|
                #[trigger] final(self)@.contains_key(k) ==> final(self)@[k] == old(self)@[k],
    {
        let ghost olds = self.entries@;
        let mut kept: Vec<(String, TrackedInvite)> = Vec::new();
        let mut i: usize = 0;
        while i < self.entries.len()
            invariant
                olds == self.entries@,
                codes_unique(olds),
                i <= olds.len(),
                codes_unique(kept@),
                forall|j: int|
                    0 <= j < kept@.len() ==> exists|m: int|
                        0 <= m < i && #[trigger] kept@[j] == olds[m] && survives_prune(
                            olds[m].1,
                            max_age,
                            now,
                        ),
                forall|m: int|
                    0 <= m < i && survives_prune(olds[m].1, max_age, now) ==> exists|j: int|
                        0 <= j < kept@.len() && kept@[j] == #[trigger] olds[m],
            decreases olds.len() - i,
        {
            let keep = match age_of(&self.entries[i].1, now) {
                Some(a) => a < max_age,
                None => true,
            };
            if keep {
                let e = (self.entries[i].0.clone(), self.entries[i].1.copy());
                proof {
                    assert forall|j: int| 0 <= j < kept@.len() implies kept@[j].0@ != olds[i as int].0@ by {
                        let m = choose|m: int| 0 <= m < i && kept@[j] == olds[m] && survives_prune(
                            olds[m].1,
                            max_age,
                            now,
                        );
                        assert(m != i);
                    }
                }
                let ghost prev_kept = kept@;
                kept.push(e);
                proof {
                    assert forall|j: int| 0 <= j < kept@.len() implies exists|m: int|
                        0 <= m < i + 1 && #[trigger] kept@[j] == olds[m] && survives_prune(
                            olds[m].1,
                            max_age,
                            now,
                        ) by {
                        if j == kept@.len() - 1 {
                            assert(kept@[j] == olds[i as int]);
                        } else {
                            assert(kept@[j] == prev_kept[j]);
                            let m = choose|m: int| 0 <= m < i && prev_kept[j] == olds[m] && survives_prune(
                                olds[m].1,
                                max_age,
                                now,
                            );
                            assert(kept@[j] == olds[m]);
                        }
                    }
                    assert forall|m: int|
                        0 <= m < i + 1 && survives_prune(olds[m].1, max_age, now) implies exists|j: int|
                        0 <= j < kept@.len() && kept@[j] == #[trigger] olds[m] by {
                        if m == i {
                            assert(kept@[kept@.len() - 1] == olds[m]);
                        } else {
                            let j = choose|j: int| 0 <= j < prev_kept.len() && prev_kept[j] == olds[m];
                            assert(kept@[j] == olds[m]);
                        }
                    }
                }
            }
            i = i + 1;
        }
        let ghost newer = kept@;
        self.entries = kept;
        proof {
            assert forall|k: Seq<char>| #[trigger] self@.contains_key(k) <==> (map_of(olds).contains_key(k)
                && survives_prune(map_of(olds)[k], max_age, now)) by {
                if has_code(newer, k) {
                    let j = choose|j: int| 0 <= j < newer.len() && newer[j].0@ == k;
                    let m = choose|m: int| 0 <= m < olds.len() && newer[j] == olds[m] && survives_prune(
                        olds[m].1,
                        max_age,
                        now,
                    );
                    lemma_map_of_at(olds, m);
                }
                if map_of(olds).contains_key(k) && survives_prune(map_of(olds)[k], max_age, now) {
                    let m = choose|m: int| 0 <= m < olds.len() && olds[m].0@ == k;
                    lemma_map_of_at(olds, m);
                    let j = choose|j: int| 0 <= j < newer.len() && newer[j] == olds[m];
                    assert(newer[j].0@ == k);
                }
            }
            assert forall|k: Seq<char>| #[trigger] self@.contains_key(k) implies self@[k] == map_of(
                olds,
            )[k] by {
                let j = choose|j: int| 0 <= j < newer.len() && newer[j].0@ == k;
                let m = choose|m: int| 0 <= m < olds.len() && newer[j] == olds[m] && survives_prune(
                    olds[m].1,
                    max_age,
                    now,
                );
                lemma_map_of_at(olds, m);
                lemma_map_of_at(newer, j);
            }
        }
    }
}

impl InviteMap {
    /// The invite deleted most recently within `window` ns before `now`,
    /// with its last known snapshot: the primary way of telling which
    /// invite a new member used (a single-use invite is deleted when used).
    /// `None` exactly when no invite was deleted within the window.
    pub fn recently_deleted_invite(&self, now: u64, window: u64) -> (r: Option<(String, InviteSnapshot)>)
        requires
            self.wf(),
        ensures
            r is None <==> !has_recent_deletion(self@, now, window),
            r matches Some(p) ==> {
                &&& self@.contains_key(p.0@)
                &&& deleted_within(self@[p.0@], now, window)
                &&& p.1 == self@[p.0@].snapshot
                &&& forall|k: Seq<char>|
                    self@.contains_key(k) && deleted_within(#[trigger] self@[k], now, window)
                        ==> deleted_age(self@[p.0@], now)->0 <= deleted_age(self@[k], now)->0
            },
    {
        let ghost es = self.entries@;
        let mut best: Option<usize> = None;
        let mut best_age: u64 = 0;
        let mut i: usize = 0;
        while i < self.entries.len()
            invariant
                es == self.entries@,
                codes_unique(es),
                i <= es.len(),
                match best {
                    Some(b) => {
                        &&& b < i
                        &&& deleted_within(es[b as int].1, now, window)
                        &&& deleted_age(es[b as int].1, now) == Some(best_age as nat)
                        &&& forall|m: int|
                            0 <= m < i && deleted_within(#[trigger] es[m].1, now, window)
                                ==> best_age <= deleted_age(es[m].1, now)->0
                    },
                    None => forall|m: int| 0 <= m < i ==> !deleted_within(#[trigger] es[m].1, now, window),
                },
            decreases es.len() - i,
        {
            match age_of(&self.entries[i].1, now) {
                Some(a) => {
                    if a <= window {
                        match best {
                            Some(_) => {
                                if a < best_age {
                                    best = Some(i);
                                    best_age = a;
                                }
                            },
                            None => {
                                best = Some(i);
                                best_age = a;
                            },
                        }
                    }
                },
                None => {},
            }
            i = i + 1;
        }
        match best {
            Some(b) => {
                proof {
                    lemma_map_of_at(es, b as int);
                    assert forall|k: Seq<char>|
                        self@.contains_key(k) && deleted_within(#[trigger] self@[k], now, window)
                            implies deleted_age(self@[es[b as int].0@], now)->0 <= deleted_age(self@[k], now)->0 by {
                        let m = choose|m: int| 0 <= m < es.len() && es[m].0@ == k;
                        lemma_map_of_at(es, m);
                    }
                    assert(has_recent_deletion(self@, now, window));
                }
                Some((self.entries[b].0.clone(), self.entries[b].1.snapshot.copy()))
            },
            None => {
                proof {
                    assert forall|k: Seq<char>| self@.contains_key(k) implies !deleted_within(
                        #[trigger] self@[k],
                        now,
                        window,
                    ) by {
                        let m = choose|m: int| 0 <= m < es.len() && es[m].0@ == k;
                        lemma_map_of_at(es, m);
                    }
                }
                None
            },
        }
    }

    /// Fresh API data compared with the cache: an invite whose use count went
    /// up by exactly one, with its fresh snapshot (the fallback way of
    /// telling which invite was used, for invites that are not deleted on
    /// use). `None` exactly when no invite's count went up by one.
    pub fn find_uses_increment(&self, fresh: &InviteMap) -> (r: Option<(String, InviteSnapshot)>)
        requires
            self.wf(),
            fresh.wf(),
        ensures
            r is None <==> !exists|k: Seq<char>| #[trigger] uses_went_up_by_one(self@, fresh@, k),
            r matches Some(p) ==> uses_went_up_by_one(self@, fresh@, p.0@) && p.1
                == fresh@[p.0@].snapshot,
    {
        let ghost fs = fresh.entries@;
        let mut i: usize = 0;
        while i < fresh.entries.len()
            invariant
                fs == fresh.entries@,
                codes_unique(fs),
                self.wf(),
                i <= fs.len(),
                forall|m: int| 0 <= m < i ==> !#[trigger] uses_went_up_by_one(self@, fresh@, fs[m].0@),
            decreases fs.len() - i,
        {
            proof {
                lemma_map_of_at(fs, i as int);
            }
            match self.get(fresh.entries[i].0.as_str()) {
                Some(cached) => {
                    let new_uses = fresh.entries[i].1.snapshot.uses;
                    if new_uses > 0 && new_uses - 1 == cached.snapshot.uses {
                        proof {
                            assert(uses_went_up_by_one(self@, fresh@, fs[i as int].0@));
                        }
                        return Some((fresh.entries[i].0.clone(), fresh.entries[i].1.snapshot.copy()));
                    }
                },
                None => {},
            }
            i = i + 1;
        }
        proof {
            assert forall|k: Seq<char>| !#[trigger] uses_went_up_by_one(self@, fresh@, k) by {
                if fresh@.contains_key(k) {
                    let m = choose|m: int| 0 <= m < fs.len() && fs[m].0@ == k;
                }
            }
        }
        None
    }

    /// Merge fresh API data into the cache: a known code takes the fresh
    /// snapshot but keeps its lifecycle times (a deletion stays recorded), a
    /// new code is added as fetched, and codes missing from the fresh data
    /// stay as they were.
    pub fn merge_fetched(&mut self, fresh: &InviteMap)
        requires
            old(self).wf(),
            fresh.wf(),
        ensures
            final(self).wf(),
            final(self)@ == merged(old(self)@, fresh@),
            forall|k: Seq<char>|
                #[trigger] final(self)@.contains_key(k) <==> (old(self)@.contains_key(k)
                    || fresh@.contains_key(k)),
            forall|k: Seq<char>|
                fresh@.contains_key(k) && old(self)@.contains_key(k) ==> #[trigger] final(self)@[k]
                    == refreshed(old(self)@[k], fresh@[k]),
            forall|k: Seq<char>|
                fresh@.contains_key(k) && !old(self)@.contains_key(k) ==> #[trigger] final(self)@[k]
                    == fresh@[k],
            forall|k: Seq<char>|
                !fresh@.contains_key(k) && old(self)@.contains_key(k) ==> #[trigger] final(self)@[k]
                    == old(self)@[k],
    {
        let ghost fs = fresh.entries@;
        let ghost start = self@;
        let mut i: usize = 0;
        while i < fresh.entries.len()
            invariant
                fs == fresh.entries@,
                codes_unique(fs),
                fresh.wf(),
                self.wf(),
                i <= fs.len(),
                forall|k: Seq<char>|
                    #[trigger] self@.contains_key(k) <==> (start.contains_key(k) || has_code(
                        fs.subrange(0, i as int),
                        k,
                    )),
                forall|k: Seq<char>|
                    has_code(fs.subrange(0, i as int), k) && start.contains_key(k) ==> #[trigger] self@[k]
                        == refreshed(start[k], fresh@[k]),
                forall|k: Seq<char>|
                    has_code(fs.subrange(0, i as int), k) && !start.contains_key(k) ==> #[trigger] self@[k]
                        == fresh@[k],
                forall|k: Seq<char>|
                    !has_code(fs.subrange(0, i as int), k) && start.contains_key(k) ==> #[trigger] self@[k]
                        == start[k],
            decreases fs.len() - i,
        {
            proof {
                lemma_map_of_at(fs, i as int);
            }
            let code = fresh.entries[i].0.clone();
            let ghost c = code@;
            let ghost before = self@;
            proof {
                assert(!has_code(fs.subrange(0, i as int), c)) by {
                    if has_code(fs.subrange(0, i as int), c) {
                        let m = choose|m: int| 0 <= m < i && fs.subrange(0, i as int)[m].0@ == c;
                        assert(fs[m].0@ == fs[i as int].0@);
                    }
                }
                let sub1 = fs.subrange(0, i + 1);
                let sub0 = fs.subrange(0, i as int);
                assert forall|k: Seq<char>| has_code(sub1, k) <==> (has_code(sub0, k) || k == c) by {
                    if has_code(sub1, k) {
                        let m = choose|m: int| 0 <= m < sub1.len() && sub1[m].0@ == k;
                        if m < i {
                            assert(sub0[m].0@ == k);
                        }
                    }
                    if has_code(sub0, k) {
                        let m = choose|m: int| 0 <= m < sub0.len() && sub0[m].0@ == k;
                        assert(sub1[m].0@ == k);
                    }
                    if k == c {
                        assert(sub1[i as int].0@ == k);
                    }
                }
            }
            match self.get(code.as_str()) {
                Some(cached) => {
                    let t = TrackedInvite {
                        snapshot: fresh.entries[i].1.snapshot.copy(),
                        created_at: cached.created_at,
                        deleted_at: cached.deleted_at,
                    };
                    self.insert(code, t);
                },
                None => {
                    let t = fresh.entries[i].1.copy();
                    self.insert(code, t);
                },
            }
            proof {
                assert(self@ == before.insert(c, self@[c]));
            }
            i = i + 1;
        }
        proof {
            assert(fs.subrange(0, fs.len() as int) =~= fs);
            assert forall|k: Seq<char>| has_code(fs, k) <==> fresh@.contains_key(k) by {}
            assert(self@ =~= merged(start, fresh@));
        }
    }

    /// Fresh API data, compared with and then merged into the cache: returns
    /// the invite whose use count went up by exactly one (compared before the
    /// merge), and leaves the cache as `merge_fetched` does.
    pub fn apply_fetched_invites(&mut self, fresh: &InviteMap) -> (r: Option<(String, InviteSnapshot)>)
        requires
            old(self).wf(),
            fresh.wf(),
        ensures
            final(self).wf(),
            r is None <==> !exists|k: Seq<char>| #[trigger] uses_went_up_by_one(old(self)@, fresh@, k),
            r matches Some(p) ==> uses_went_up_by_one(old(self)@, fresh@, p.0@) && p.1
                == fresh@[p.0@].snapshot,
            final(self)@ == merged(old(self)@, fresh@),
            forall|k: Seq<char>|
                #[trigger] final(self)@.contains_key(k) <==> (old(self)@.contains_key(k)
                    || fresh@.contains_key(k)),
            forall|k: Seq<char>|
                fresh@.contains_key(k) && old(self)@.contains_key(k) ==> #[trigger] final(self)@[k]
                    == refreshed(old(self)@[k], fresh@[k]),
            forall|k: Seq<char>|
                fresh@.contains_key(k) && !old(self)@.contains_key(k) ==> #[trigger] final(self)@[k]
                    == fresh@[k],
            forall|k: Seq<char>|
                !fresh@.contains_key(k) && old(self)@.contains_key(k) ==> #[trigger] final(self)@[k]
                    == old(self)@[k],
    {
        let found = self.find_uses_increment(fresh);
        self.merge_fetched(fresh);
        found
    }

    /// The tracked invites for an invite listing fetched at `now`: every
    /// invite active, created at `now`.
    pub fn from_fetched(list: &Vec<(String, InviteSnapshot)>, now: u64) -> (r: InviteMap)
        ensures
            r.wf(),
            r@ == fetched_map(list@, now),
    {
        let mut m = InviteMap::new();
        let mut i: usize = 0;
        while i < list.len()
            invariant
                i <= list@.len(),
                m.wf(),
                m@ == fetched_map(list@.subrange(0, i as int), now),
            decreases list@.len() - i,
        {
            proof {
                assert(list@.subrange(0, i + 1).drop_last() =~= list@.subrange(0, i as int));
                assert(list@.subrange(0, i + 1).last() == list@[i as int]);
            }
            m.insert(
                list[i].0.clone(),
                TrackedInvite { snapshot: list[i].1.copy(), created_at: now, deleted_at: None },
            );
            i = i + 1;
        }
        proof {
            assert(list@.subrange(0, list@.len() as int) =~= list@);
        }
        m
    }
}


// ── Laws of invite tracking ──────────────────────────────────────────────────

/// An invite deleted at `t` is found by the recently-deleted lookup at any
/// `now` up to `window` ns later, and its age there is `now - t`.
pub proof fn lemma_deleted_invite_is_detected(
    m: Map<Seq<char>, TrackedInvite>,
    code: Seq<char>,
    t: u64,
    now: u64,
    window: u64,
)
    requires
        m.contains_key(code),
        t <= now,
        now - t <= window,
    ensures
        has_recent_deletion(m.insert(code, deleted_at_time(m[code], t)), now, window),
        deleted_age(m.insert(code, deleted_at_time(m[code], t))[code], now) == Some(
            (now - t) as nat,
        ),
{
    let m2 = m.insert(code, deleted_at_time(m[code], t));
    assert(m2.contains_key(code) && deleted_within(m2[code], now, window));
}

/// Pruning with a maximum age longer than the detection window never drops
/// an invite that the recently-deleted lookup could still pick, and never
/// drops an active invite.
pub proof fn lemma_prune_keeps_detectable(t: TrackedInvite, now: u64, window: u64, max_age: u64)
    requires
        window < max_age,
    ensures
        deleted_within(t, now, window) ==> survives_prune(t, max_age, now),
        t.deleted_at is None ==> survives_prune(t, max_age, now),
{
}

/// Merging fresh API data never hides a recent deletion: whatever the
/// recently-deleted lookup found before the merge, it still finds after.
pub proof fn lemma_merge_keeps_deletions(
    cached: Map<Seq<char>, TrackedInvite>,
    fresh: Map<Seq<char>, TrackedInvite>,
    now: u64,
    window: u64,
)
    ensures
        has_recent_deletion(cached, now, window) ==> has_recent_deletion(
            merged(cached, fresh),
            now,
            window,
        ),
        forall|k: Seq<char>|
            #[trigger] cached.contains_key(k) ==> merged(cached, fresh).contains_key(k) && merged(
                cached,
                fresh,
            )[k].deleted_at == cached[k].deleted_at,
{
    if has_recent_deletion(cached, now, window) {
        let k = choose|k: Seq<char>| cached.contains_key(k) && deleted_within(#[trigger] cached[k], now, window);
        assert(merged(cached, fresh).contains_key(k));
        assert(deleted_within(merged(cached, fresh)[k], now, window));
    }
}

} // verus!
