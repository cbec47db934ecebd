use osekai_scripts::badge::{badge_name, strip_query, BadgeOwner, Badges, RawBadge};

fn raw(description: &str, image_url: &str, awarded_at: i64) -> RawBadge {
    RawBadge {
        description: description.to_string(),
        image_url: image_url.to_string(),
        awarded_at,
    }
}

fn owners(b: &Badges, description: &str, name: &str) -> Vec<u32> {
    let mut ids: Vec<u32> = b
        .groups
        .iter()
        .filter(|g| g.description.0 == description && g.name.0 == name)
        .flat_map(|g| g.owners.iter().map(|o| o.user_id))
        .collect();
    ids.sort();
    ids
}

#[test]
fn name_is_taken_from_image_file() {
    assert_eq!(
        badge_name("https://assets.ppy.sh/profile-badges/mapping_contest-2021.png"),
        Some("mapping contest 2021".to_string())
    );
    assert_eq!(badge_name("https://a/b/file.name.jpg"), Some("file.name".to_string()));
}

#[test]
fn name_needs_slash_and_extension() {
    assert_eq!(badge_name("no-slash.png"), None);
    assert_eq!(badge_name("https://a/b/noext"), None);
}

#[test]
fn query_string_is_stripped() {
    assert_eq!(strip_query("https://a/b/c.png?x=1?y=2"), "https://a/b/c.png");
    assert_eq!(strip_query("https://a/b/c.png"), "https://a/b/c.png");
}

#[test]
fn push_twice_is_push_once() {
    let obs = raw("Winner", "https://a/badges/winner_2020.png?v=3", 100);
    let mut once = Badges::with_capacity(4);
    once.push(7, &obs);
    let mut twice = Badges::with_capacity(4);
    twice.push(7, &obs);
    twice.push(7, &obs);
    assert_eq!(once.len(), 1);
    assert_eq!(twice.len(), once.len());
    assert_eq!(owners(&twice, "Winner", "winner 2020"), vec![7]);
    assert_eq!(owners(&once, "Winner", "winner 2020"), vec![7]);
    assert_eq!(twice.names.len(), 1);
    assert_eq!(twice.names[0].1 .0, "https://a/badges/winner_2020.png");
}

#[test]
fn same_description_different_image_are_two_badges() {
    let mut b = Badges::with_capacity(4);
    b.push(1, &raw("Contest", "https://a/x/first-place.png", 1));
    b.push(2, &raw("Contest", "https://a/x/second-place.png", 2));
    b.push(3, &raw("Contest", "https://a/x/first-place.png", 3));
    assert_eq!(b.len(), 3);
    assert_eq!(owners(&b, "Contest", "first place"), vec![1, 3]);
    assert_eq!(owners(&b, "Contest", "second place"), vec![2]);
    assert_eq!(b.names.len(), 2);
}

#[test]
fn malformed_observation_is_dropped() {
    let mut b = Badges::with_capacity(0);
    b.push(1, &raw("Broken", "no-slash-here", 1));
    assert!(b.is_empty());
    assert_eq!(b.len(), 0);
    assert!(b.names.is_empty());
}

#[test]
fn first_image_of_a_name_wins() {
    let mut b = Badges::with_capacity(0);
    b.push(1, &raw("A", "https://one/x/tag.png", 1));
    b.push(2, &raw("B", "https://two/x/tag.gif", 1));
    assert_eq!(b.names.len(), 1);
    assert_eq!(b.names[0].1 .0, "https://one/x/tag.png");
    assert_eq!(b.len(), 2);
}

fn catalog_a() -> Badges {
    let mut a = Badges::with_capacity(0);
    a.push(1, &raw("Shared", "https://h/p/shared.png", 10));
    a.push(2, &raw("Shared", "https://h/p/shared.png", 11));
    a.push(5, &raw("Only A", "https://h/p/alpha.png", 12));
    a
}

fn catalog_b() -> Badges {
    let mut b = Badges::with_capacity(0);
    b.push(2, &raw("Shared", "https://h/p/shared.png", 20));
    b.push(3, &raw("Shared", "https://h/p/shared.png", 21));
    b.push(9, &raw("Only B", "https://h/q/beta.png", 22));
    b
}

#[test]
fn merge_is_commutative_on_owner_sets() {
    let mut ab = catalog_a();
    ab.merge(catalog_b());
    let mut ba = catalog_b();
    ba.merge(catalog_a());
    for (d, n) in [("Shared", "shared"), ("Only A", "alpha"), ("Only B", "beta")] {
        assert_eq!(owners(&ab, d, n), owners(&ba, d, n));
    }
    assert_eq!(owners(&ab, "Shared", "shared"), vec![1, 2, 3]);
    assert_eq!(ab.len(), 5);
    assert_eq!(ba.len(), 5);
}

#[test]
fn merge_keeps_existing_image_and_owner() {
    let mut stored = Badges::with_capacity(0);
    stored.add_name("tag".to_string(), "https://stored/tag.png".to_string());
    stored.add_owner(
        &"Desc".to_string(),
        &"tag".to_string(),
        BadgeOwner { user_id: 4, awarded_at: 1 },
    );
    let mut incoming = Badges::with_capacity(0);
    incoming.push(4, &raw("Desc", "https://fresh/x/tag.png", 99));
    incoming.push(6, &raw("Desc", "https://fresh/x/tag.png", 98));
    stored.merge(incoming);
    assert_eq!(stored.names.len(), 1);
    assert_eq!(stored.names[0].1 .0, "https://stored/tag.png");
    assert_eq!(owners(&stored, "Desc", "tag"), vec![4, 6]);
    let four = stored.groups[0].owners.iter().find(|o| o.user_id == 4).unwrap();
    assert_eq!(four.awarded_at, 1);
}

#[test]
fn has_name_reports_known_names() {
    let b = catalog_a();
    assert!(b.has_name(&"shared".to_string()));
    assert!(!b.has_name(&"beta".to_string()));
}

#[test]
fn repeated_owner_keeps_first_award_date() {
    let mut b = Badges::with_capacity(0);
    b.push(8, &raw("Desc", "https://h/p/tag.png", 100));
    b.push(8, &raw("Desc", "https://h/p/tag.png", 999));
    assert_eq!(b.len(), 1);
    assert_eq!(b.groups[0].owners[0].awarded_at, 100);
}

fn pairs(b: &Badges) -> Vec<(String, String)> {
    let mut p: Vec<(String, String)> = b
        .groups
        .iter()
        .map(|g| (g.description.0.clone(), g.name.0.clone()))
        .collect();
    p.sort();
    p
}

#[test]
fn merge_holds_the_pairs_of_both() {
    let mut ab = catalog_a();
    ab.merge(catalog_b());
    let mut ba = catalog_b();
    ba.merge(catalog_a());
    assert_eq!(pairs(&ab), pairs(&ba));
    assert_eq!(pairs(&ab).len(), 3);
    assert!(ab.groups.iter().all(|g| !g.owners.is_empty()));
}
