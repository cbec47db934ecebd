use osekai_scripts::config::{parse_extra_users, parse_member_ids, parse_u32, Args};
use osekai_scripts::medal::medal_link;
use osekai_scripts::task::{Task, BADGES, MEDALS, RARITY};

#[test]
fn u32_like_from_str() {
    assert_eq!(parse_u32("0"), Some(0));
    assert_eq!(parse_u32("+17"), Some(17));
    assert_eq!(parse_u32("4294967295"), Some(u32::MAX));
    assert_eq!(parse_u32("4294967296"), None);
    assert_eq!(parse_u32("99999999999x"), None);
    assert_eq!(parse_u32(""), None);
    assert_eq!(parse_u32("+"), None);
    assert_eq!(parse_u32("-1"), None);
    assert_eq!(parse_u32(" 1"), None);
    for s in ["12", "007", "+0", "x", "1_0"] {
        assert_eq!(parse_u32(s), s.parse::<u32>().ok());
    }
}

#[test]
fn extra_users_list() {
    assert_eq!(parse_extra_users(" 2, 124493 ,, 3 ").ok().unwrap(), vec![2, 124493, 3]);
    assert_eq!(parse_extra_users("").ok().unwrap(), Vec::<u32>::new());
    let err = parse_extra_users("1, two").err().unwrap();
    assert_eq!(err.input, "1, two");
    assert_eq!(
        err.message(),
        "failed to parse env variable `EXTRA_USERS=\"1, two\"`; expected a list of comma-separated user ids"
    );
}

#[test]
fn member_ids() {
    let ids = vec!["5".to_string(), "12".to_string()];
    assert_eq!(parse_member_ids(&ids).ok().unwrap(), vec![5, 12]);
    let bad = vec!["5".to_string(), "x1".to_string(), "y".to_string()];
    assert_eq!(parse_member_ids(&bad).err().unwrap(), "x1");
}

#[test]
fn delay_and_task_union() {
    assert_eq!(Args::initial_delay(Some(7), true), 7);
    assert_eq!(Args::initial_delay(None, true), 0);
    assert_eq!(Args::initial_delay(None, false), 1);
    assert_eq!(Args::task_union(&vec![]), None);
    assert_eq!(
        Args::task_union(&vec![Task(MEDALS), Task(BADGES), Task(RARITY)]),
        Some(Task(MEDALS | BADGES | RARITY))
    );
}

#[test]
fn medal_icon_link() {
    assert_eq!(medal_link("https://assets.ppy.sh/medals/web/all-secret-jackpot.png"), "all-secret-jackpot.png");
    assert_eq!(medal_link("plain.png"), "plain.png");
    assert_eq!(medal_link("https://x/dir/"), "");
}
