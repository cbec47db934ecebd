use osekai_scripts::medal::ScrapedMedal;
use osekai_scripts::rarity::{calculate_rarities, new_medal_rarities, MedalRarities, MedalRarityEntry};
use osekai_scripts::user::{AccountInfo, OsuUser, OwnedMedal, UserFull};

fn catalog_medal(id: u16) -> ScrapedMedal {
    ScrapedMedal {
        icon_url: format!("https://x/medals/{id}.png"),
        id,
        name: format!("medal {id}"),
        grouping: "Skill".to_string(),
        ordering: 0,
        description: String::new(),
        mode: None,
        instructions: None,
    }
}

fn user(id: u32, medals: &[u16]) -> OsuUser {
    let account = AccountInfo {
        user_id: id,
        username: format!("user{id}"),
        country_code: "DE".to_string(),
        avatar_url: String::new(),
        badges: Vec::new(),
        medals: medals
            .iter()
            .map(|&m| OwnedMedal { medal_id: m, achieved_at: 1000 + m as i64 })
            .collect(),
        ranked_mapset_count: None,
        loved_mapset_count: None,
        mapping_follower_count: None,
        follower_count: None,
        kudosu: 0,
    };
    OsuUser::Available(UserFull::new(account, None, None, None, None))
}

fn frequency(e: &MedalRarityEntry) -> f32 {
    (100 * e.count) as f32 / e.users as f32
}

#[test]
fn one_of_four_owns_medal_seven() {
    let users = vec![user(1, &[7]), user(2, &[]), user(3, &[]), user(4, &[])];
    let table = calculate_rarities(&users, &vec![catalog_medal(7)]);
    let e = table.get(&7).unwrap();
    assert_eq!(e.count, 1);
    assert_eq!(frequency(e), 25.0);
    assert_eq!(table.len(), 1);
}

#[test]
fn every_catalog_medal_has_an_entry() {
    let users = vec![user(1, &[1, 2]), user(2, &[2]), OsuUser::Restricted { user_id: 3 }];
    let catalog = vec![catalog_medal(1), catalog_medal(2), catalog_medal(3)];
    let table = calculate_rarities(&users, &catalog);
    assert_eq!(table.len(), 3);
    assert_eq!(table.get(&1).unwrap().count, 1);
    assert_eq!(table.get(&2).unwrap().count, 2);
    assert_eq!(table.get(&3).unwrap().count, 0);
    for (_, e) in table.iter() {
        assert!(e.count as usize <= users.len());
        assert_eq!(e.users, 3);
    }
}

#[test]
fn restricted_users_count_only_in_denominator() {
    let users = vec![user(1, &[5]), OsuUser::Restricted { user_id: 2 }];
    let table = calculate_rarities(&users, &vec![]);
    let e = table.get(&5).unwrap();
    assert_eq!(e.count, 1);
    assert_eq!(frequency(e), 50.0);
}

#[test]
fn duplicate_medal_in_one_list_counts_once() {
    let users = vec![user(1, &[4, 4]), user(2, &[4])];
    let table = calculate_rarities(&users, &vec![]);
    assert_eq!(table.get(&4).unwrap().count, 2);
}

#[test]
fn owned_medal_outside_catalog_is_counted() {
    let users = vec![user(1, &[42])];
    let table = calculate_rarities(&users, &vec![catalog_medal(1)]);
    assert_eq!(table.get(&42).unwrap().count, 1);
    assert_eq!(table.get(&1).unwrap().count, 0);
}

#[test]
fn empty_inputs_give_empty_table() {
    let table = calculate_rarities(&vec![], &vec![]);
    assert!(table.is_empty());
    assert_eq!(table.len(), 0);
}

#[test]
fn new_medals_are_seeded_with_zero() {
    let catalog = vec![catalog_medal(1), catalog_medal(2), catalog_medal(3)];
    let seeded = new_medal_rarities(&catalog, &vec![1, 3]);
    assert_eq!(seeded.len(), 1);
    let e = seeded.get(&2).unwrap();
    assert_eq!((e.count, e.users), (0, 0));
    assert!(seeded.get(&1).is_none());
}

#[test]
fn insert_replaces_an_entry() {
    let mut t = MedalRarities::new();
    t.insert(3, MedalRarityEntry { count: 1, users: 2 });
    t.insert(3, MedalRarityEntry { count: 5, users: 9 });
    assert_eq!(t.len(), 1);
    assert_eq!(t.get(&3).unwrap().count, 5);
    assert_eq!(t.iter().len(), 1);
}
