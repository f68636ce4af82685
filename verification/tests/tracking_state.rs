use observer::invites::{InviteMap, InviteSnapshot, TrackedInvite, DELETION_WINDOW_NS};
use observer::state::{RecentBans, RECENT_BAN_WINDOW_SECS};

fn tracked_snapshot(uses: u64, inviter: Option<&str>) -> InviteSnapshot {
    InviteSnapshot {
        uses,
        max_uses: 1,
        inviter_id: inviter.map(|s| s.to_string()),
        inviter_name: inviter.map(|s| format!("name{s}")),
    }
}

#[test]
fn invite_lifecycle() {
    let mut m = InviteMap::new();
    assert_eq!(m.len(), 0);
    m.on_invite_create("abc".into(), tracked_snapshot(0, Some("7")), 10);
    m.on_invite_create("def".into(), tracked_snapshot(3, None), 11);
    assert_eq!(m.len(), 2);
    m.on_invite_delete("abc", 1_000);
    m.on_invite_delete("zzz", 1_000);
    assert_eq!(m.len(), 2);
    let t = m.get("abc").unwrap();
    assert_eq!(t.deleted_at, Some(1_000));
    assert_eq!(t.created_at, 10);
    assert!(m.get("def").unwrap().deleted_at.is_none());
    let hit = m.recently_deleted_invite(1_000 + DELETION_WINDOW_NS, DELETION_WINDOW_NS).unwrap();
    assert_eq!(hit.0, "abc");
    assert_eq!(hit.1.inviter_id.as_deref(), Some("7"));
    assert!(m.recently_deleted_invite(1_001 + DELETION_WINDOW_NS, DELETION_WINDOW_NS).is_none());
    m.prune_deleted_invites(500, 1_499);
    assert_eq!(m.len(), 2);
    m.prune_deleted_invites(500, 1_500);
    assert_eq!(m.len(), 1);
    assert!(m.get("abc").is_none());
}

#[test]
fn closest_deletion_wins() {
    let mut m = InviteMap::new();
    m.on_invite_create("a".into(), tracked_snapshot(0, None), 0);
    m.on_invite_create("b".into(), tracked_snapshot(0, None), 0);
    m.on_invite_create("c".into(), tracked_snapshot(0, None), 0);
    m.on_invite_delete("a", 100);
    m.on_invite_delete("b", 300);
    m.on_invite_delete("c", 200);
    assert_eq!(m.recently_deleted_invite(400, 1_000).unwrap().0, "b");
    // A deletion time after `now` counts as age zero.
    assert_eq!(m.recently_deleted_invite(250, 1_000).unwrap().0, "b");
}

#[test]
fn uses_increment_fallback() {
    let mut cache = InviteMap::new();
    cache.on_invite_create("a".into(), tracked_snapshot(4, Some("1")), 0);
    cache.on_invite_create("b".into(), tracked_snapshot(9, Some("2")), 0);
    cache.on_invite_delete("b", 50);
    let fresh = InviteMap::from_fetched(
        &vec![("a".to_string(), tracked_snapshot(5, Some("1"))), ("b".to_string(), tracked_snapshot(9, Some("2"))), ("n".to_string(), tracked_snapshot(0, None))],
        77,
    );
    assert_eq!(fresh.len(), 3);
    let found = cache.apply_fetched_invites(&fresh).unwrap();
    assert_eq!(found.0, "a");
    assert_eq!(found.1.uses, 5);
    assert_eq!(cache.len(), 3);
    let a: &TrackedInvite = cache.get("a").unwrap();
    assert_eq!(a.snapshot.uses, 5);
    assert_eq!(a.created_at, 0);
    assert_eq!(cache.get("b").unwrap().deleted_at, Some(50));
    assert_eq!(cache.get("n").unwrap().created_at, 77);
    let again = InviteMap::from_fetched(&vec![("a".to_string(), tracked_snapshot(7, Some("1")))], 90);
    assert!(cache.apply_fetched_invites(&again).is_none());
    assert_eq!(cache.get("a").unwrap().snapshot.uses, 7);
    let empty = InviteMap::new();
    assert!(empty.find_uses_increment(&again).is_none());
}

#[test]
fn recent_ban_window() {
    let mut bans = RecentBans::new();
    assert!(!bans.was_recently_banned(1, RECENT_BAN_WINDOW_SECS, 100));
    bans.mark_recent_ban(1, 100);
    bans.mark_recent_ban(2, 50);
    assert!(bans.was_recently_banned(1, RECENT_BAN_WINDOW_SECS, 115));
    assert!(!bans.was_recently_banned(1, RECENT_BAN_WINDOW_SECS, 116));
    bans.mark_recent_ban(1, 200);
    assert!(bans.was_recently_banned(1, 15, 210));
    bans.prune_recent_bans(60, 111);
    assert!(!bans.was_recently_banned(2, 1_000, 111));
    assert!(bans.was_recently_banned(1, 1_000, 111));
    bans.prune_recent_bans(60, 261);
    assert!(!bans.was_recently_banned(1, 1_000, 261));
}
