use osekai_scripts::badge::RawBadge;
use osekai_scripts::rarity::{MedalRarities, MedalRarityEntry};
use osekai_scripts::ranking::{RankingUser, RankingsIter, EPOCH};
use osekai_scripts::user::{AccountInfo, ModeStatistics, ModeStats, OsuUser, OwnedMedal, UserFull};

fn stats(acc: f32, rank: Option<u32>, playcount: u32, pp: f32) -> ModeStatistics {
    ModeStatistics {
        accuracy: acc.to_bits(),
        level: 50.5f32.to_bits(),
        global_rank: rank,
        playcount,
        pp: pp.to_bits(),
        replays_watched: 3,
    }
}

fn account(id: u32, medals: Vec<OwnedMedal>) -> AccountInfo {
    AccountInfo {
        user_id: id,
        username: "peppy".to_string(),
        country_code: "AU".to_string(),
        avatar_url: "https://a/2".to_string(),
        badges: vec![RawBadge {
            description: "d".to_string(),
            image_url: "https://x/y/z.png".to_string(),
            awarded_at: 5,
        }],
        medals,
        ranked_mapset_count: Some(4),
        loved_mapset_count: None,
        mapping_follower_count: Some(12),
        follower_count: Some(100),
        kudosu: -3,
    }
}

fn table(entries: &[(u16, u64)]) -> MedalRarities {
    let mut t = MedalRarities::new();
    for &(id, count) in entries {
        t.insert(id, MedalRarityEntry { count, users: 100 });
    }
    t
}

#[test]
fn restricted_record_is_all_zero() {
    let r = RankingUser::new(OsuUser::Restricted { user_id: 42 }, &table(&[(1, 1)]));
    assert_eq!(r.id, 42);
    assert!(r.restricted);
    assert_eq!(r.medal_count, 0);
    assert_eq!(r.badge_count, 0);
    assert_eq!(r.rarest_medal_id, 0);
    assert_eq!(r.rarest_medal_achieved, EPOCH);
    assert_eq!((r.ranked_maps, r.loved_maps, r.followers, r.subscribers), (0, 0, 0, 0));
    assert_eq!((r.replays_watched, r.kudosu), (0, 0));
    for m in [r.std, r.tko, r.ctb, r.mna] {
        assert_eq!(f32::from_bits(m.acc), 0.0);
        assert_eq!(f32::from_bits(m.level), 0.0);
        assert_eq!(f32::from_bits(m.pp), 0.0);
        assert_eq!(m.global_rank, None);
    }
    assert!(r.name.is_empty());
}

#[test]
fn low_playcount_suppresses_accuracy() {
    let u = UserFull::new(
        account(2, vec![]),
        Some(stats(98.5, Some(1000), 10, 100.0)),
        Some(stats(97.0, None, 0, 0.0)),
        Some(stats(96.0, None, 0, 0.0)),
        Some(stats(95.0, None, 0, 0.0)),
    );
    let r = RankingUser::new(OsuUser::Available(u), &table(&[]));
    assert!(r.ignore_acc);
    for m in [r.std, r.tko, r.ctb, r.mna] {
        assert_eq!(f32::from_bits(m.acc), 0.0);
    }
    assert_eq!(f32::from_bits(r.std.pp), 100.0);
}

#[test]
fn unranked_player_suppresses_accuracy() {
    let u = UserFull::new(
        account(2, vec![]),
        Some(stats(98.5, None, 5000, 100.0)),
        None,
        None,
        None,
    );
    let r = RankingUser::new(OsuUser::Available(u), &table(&[]));
    assert!(r.ignore_acc);
    assert_eq!(r.std.acc, 0);
}

#[test]
fn active_player_keeps_accuracy() {
    let u = UserFull::new(
        account(2, vec![]),
        Some(stats(98.5, Some(17), 5000, 100.0)),
        Some(stats(90.0, None, 10, 1.0)),
        None,
        None,
    );
    let r = RankingUser::new(OsuUser::Available(u), &table(&[]));
    assert!(!r.ignore_acc);
    assert_eq!(f32::from_bits(r.std.acc), 98.5);
    assert_eq!(f32::from_bits(r.tko.acc), 90.0);
    assert_eq!(r.std.global_rank, Some(17));
    assert_eq!(r.ctb.global_rank, None);
}

#[test]
fn account_fields_are_copied_and_summed() {
    let u = UserFull::new(
        account(2, vec![]),
        Some(stats(1.0, Some(0), 1, 1.0)),
        Some(stats(1.0, None, 1, 1.0)),
        None,
        Some(stats(1.0, None, 1, 1.0)),
    );
    assert_eq!(u.replays_watched, 9);
    assert_eq!(u.maps_ranked, 4);
    assert_eq!(u.maps_loved, 0);
    assert_eq!(u.subscribers, 12);
    assert_eq!(u.followers, 100);
    assert_eq!(u.inner[0].global_rank, None);
    let r = RankingUser::new(OsuUser::Available(u), &table(&[]));
    assert_eq!(r.id, 2);
    assert_eq!(r.name, "peppy");
    assert_eq!(r.badge_count, 1);
    assert_eq!(r.kudosu, -3);
    assert!(!r.restricted);
}

#[test]
fn rarest_medal_is_lowest_count_first_on_ties() {
    let medals = vec![
        OwnedMedal { medal_id: 1, achieved_at: 10 },
        OwnedMedal { medal_id: 2, achieved_at: 20 },
        OwnedMedal { medal_id: 3, achieved_at: 30 },
        OwnedMedal { medal_id: 4, achieved_at: 40 },
    ];
    let t = table(&[(1, 50), (2, 7), (3, 7), (4, 9)]);
    let u = UserFull::new(account(2, medals), None, None, None, None);
    let m = u.rarest_medal(&t).unwrap();
    assert_eq!((m.medal_id, m.achieved_at), (2, 20));
    let r = RankingUser::new(OsuUser::Available(u), &t);
    assert_eq!(r.rarest_medal_id, 2);
    assert_eq!(r.rarest_medal_achieved, 20);
    assert_eq!(r.medal_count, 4);
}

#[test]
fn no_rated_medal_gives_epoch() {
    let medals = vec![OwnedMedal { medal_id: 9, achieved_at: 10 }];
    let u = UserFull::new(account(2, medals), None, None, None, None);
    assert!(u.rarest_medal(&table(&[(1, 3)])).is_none());
    let r = RankingUser::new(OsuUser::Available(u), &table(&[(1, 3)]));
    assert_eq!(r.rarest_medal_id, 0);
    assert_eq!(r.rarest_medal_achieved, EPOCH);
}

#[test]
fn rankings_come_in_order() {
    let users = vec![
        OsuUser::Restricted { user_id: 1 },
        OsuUser::Restricted { user_id: 2 },
        OsuUser::Restricted { user_id: 3 },
    ];
    let mut it = RankingsIter::new(users, table(&[]));
    assert_eq!(it.len(), 3);
    let ids: Vec<u32> = std::iter::from_fn(|| it.next()).map(|r| r.id).collect();
    assert_eq!(ids, vec![1, 2, 3]);
    assert!(it.next().is_none());
    assert_eq!(it.len(), 0);
}

#[test]
fn mode_stats_treat_zero_rank_as_unranked() {
    let s = ModeStats::from_statistics(Some(stats(1.0, Some(0), 3, 2.0)));
    assert_eq!(s.global_rank, None);
    assert_eq!(s.playcount, 3);
    let none = ModeStats::from_statistics(None);
    assert_eq!((none.acc, none.level, none.pp, none.playcount), (0, 0, 0, 0));
}
