use saltator_cs_api::presence::PresenceMap;
use saltator_cs_api::ratelimit::{Buckets, Kind, MAX_BUCKETS, PRUNE_ABOVE};

#[test]
fn presence_changes_have_generations() {
    let mut p = PresenceMap::new();
    assert_eq!(p.generation(), 0);
    assert!(p.get("@a:x").is_none());
    assert!(p.set("@a:x", "online", Some("hi".to_owned()), 5));
    assert!(p.set_active("@b:x", "online", 6));
    // Nothing observable changes: no new generation, but a later activity.
    assert!(!p.set_active("@a:x", "online", 9));
    let a = p.get("@a:x").unwrap();
    assert_eq!((a.presence.as_str(), a.status_msg.as_deref()), ("online", Some("hi")));
    assert_eq!((a.last_active, a.changed_at), (9, 1));
    // A sync keeps the status message, a set without one clears it.
    assert!(p.set("@a:x", "online", None, 10));
    assert_eq!(p.get("@a:x").unwrap().status_msg, None);
    assert_eq!(p.generation(), 3);
    let changed = p.changed_since(2);
    assert_eq!(changed.len(), 1);
    assert_eq!(changed[0].user_id, "@a:x");
    assert_eq!(p.changed_since(0).len(), 2);
    assert!(p.changed_since(3).is_empty());
}

#[test]
fn buckets_have_their_own_keys() {
    let mut b = Buckets::new();
    let message_a = b.open(Kind::Message, "@a:x", 20, 7);
    let login_a = b.open(Kind::Login, "@a:x", 5, 8);
    let message_b = b.open(Kind::Message, "@b:x", 20, 9);
    assert_eq!(b.len(), 3);
    b.store(message_a, 1, 10);
    assert_eq!(b.at(message_a), (Kind::Message, 1, 10));
    assert_eq!(b.at(login_a), (Kind::Login, 5, 8));
    assert_eq!(b.at(message_b), (Kind::Message, 20, 9));
    // A bucket that is open stays as it is.
    assert_eq!(b.open(Kind::Message, "@a:x", 20, 11), message_a);
    assert_eq!(b.at(message_a), (Kind::Message, 1, 10));
    assert!(!b.is_full());
}

#[test]
fn idle_buckets_are_dropped_first() {
    let mut b = Buckets::new();
    for i in 0..4u64 {
        b.open(Kind::Login, &format!("user-{i}"), i, i);
    }
    b.compact(&vec![true, false, true, false]);
    assert_eq!(b.len(), 2);
    assert_eq!(b.at(0), (Kind::Login, 1, 1));
    assert_eq!(b.at(1), (Kind::Login, 3, 3));
}

#[test]
fn the_least_recently_used_buckets_go() {
    let extra = 7u64;
    let mut b = Buckets::new();
    let n = PRUNE_ABOVE as u64 + extra;
    // Opened newest first, so that the order of use is not the order of opening.
    for i in 0..n {
        b.open(Kind::Login, &format!("user-{i}"), 5, n - i);
    }
    assert!(b.len() < MAX_BUCKETS);
    b.compact(&vec![false; n as usize]);
    assert_eq!(b.len(), PRUNE_ABOVE);
    assert_eq!(b.at(0), (Kind::Login, 5, n));
    assert_eq!(b.at(PRUNE_ABOVE - 1), (Kind::Login, 5, extra + 1));
}

fn flooded(clock: fn(u64) -> u64) -> Buckets {
    let mut b = Buckets::new();
    for i in 0..(MAX_BUCKETS as u64 + 5_000) {
        if b.is_full() {
            // Slow refill: every bucket is still draining.
            let n = b.len();
            b.compact(&vec![false; n]);
            assert_eq!(b.len(), PRUNE_ABOVE);
        }
        let at = b.open(Kind::Login, &format!("user-{i}"), 5, clock(i));
        b.store(at, 4, clock(i));
        assert!(b.len() <= MAX_BUCKETS);
    }
    b
}

#[test]
fn table_stays_bounded_under_key_flood() {
    let b = flooded(|i| i);
    assert!(b.len() <= MAX_BUCKETS);
    assert_eq!(b.len(), PRUNE_ABOVE + 5_000);
    // The most recent ones are there.
    assert_eq!(b.at(0), (Kind::Login, 4, (MAX_BUCKETS - PRUNE_ABOVE) as u64));
}

#[test]
fn a_flood_at_one_instant_is_bounded_too() {
    let mut b = flooded(|_| 7);
    assert_eq!(b.len(), PRUNE_ABOVE + 5_000);
    // The newest bucket is among them, the first one is gone.
    let n = b.len();
    assert_eq!(b.open(Kind::Login, &format!("user-{}", MAX_BUCKETS + 4_999), 5, 8), n - 1);
    assert_eq!(b.open(Kind::Login, "user-0", 5, 8), n);
}

#[test]
fn only_the_reporter_is_new() {
    let mut p = PresenceMap::new();
    for i in 0..20u64 {
        let before = p.generation();
        assert!(p.set_active(&format!("@{}:x", i % 7), if i % 2 == 0 { "online" } else { "away" }, i));
        let new = p.changed_since(before);
        assert_eq!(new.len(), 1);
        assert_eq!(new[0].user_id, format!("@{}:x", i % 7));
        assert!(p.changed_since(p.generation()).is_empty());
        // A later mark shows no more.
        let all = p.changed_since(0);
        let later = p.changed_since(p.generation() / 2);
        assert!(later.iter().all(|x| all.iter().any(|y| y.user_id == x.user_id)));
    }
    assert_eq!(p.changed_since(0).len(), 7);
}
