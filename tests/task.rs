use osekai_scripts::schedule::Schedule;
use osekai_scripts::task::{Task, BADGES, DEFAULT, FULL, MEDALS, RANKING, RARITY};

#[test]
fn parse_single_and_combined() {
    assert_eq!(Task::parse("medals").ok().unwrap(), Task(MEDALS));
    assert_eq!(Task::parse(" Badge | RARITIES ").ok().unwrap(), Task(BADGES | RARITY));
    assert_eq!(Task::parse("default|rarity").ok().unwrap(), Task(FULL));
    assert_eq!(Task::parse("full").ok().unwrap(), Task(FULL));
    assert_eq!(Task::parse("ranking").ok().unwrap(), Task(RANKING));
}

#[test]
fn parse_rejects_unknown_word() {
    let err = Task::parse("Medals|Nope").err().unwrap();
    assert_eq!(err.input, "medals|nope");
    assert_eq!(
        err.message(),
        "failed to parse task `medals|nope`; must be a `|`-separated list of the following: \
         default, full, medal, rarity, badge, ranking"
    );
    assert!(Task::parse("").is_err());
    assert!(Task::parse("medals|").is_err());
}

#[test]
fn names_of_tasks() {
    assert_eq!(Task(FULL).name(), "Full");
    assert_eq!(Task(DEFAULT).name(), "Default");
    assert_eq!(Task(MEDALS | RARITY).name(), "Medals | Rarity");
    assert_eq!(Task(BADGES | RANKING).name(), "Badges | Ranking");
    assert_eq!(Task(0).name(), "");
}

#[test]
fn flags_and_set_operations() {
    let t = Task(DEFAULT);
    assert!(t.medals() && t.badges() && t.ranking() && !t.rarity());
    assert!(t.contains(Task(MEDALS | BADGES)));
    assert!(!t.contains(Task(FULL)));
    let mut u = Task(FULL);
    u.remove(Task(DEFAULT));
    assert_eq!(u, Task(RARITY));
    assert_eq!(Task::empty().union(Task(MEDALS)), Task(MEDALS));
}

#[test]
fn schedule_parses_and_describes() {
    let s = Schedule::parse("default, rarity | medals ,full").ok().unwrap();
    let tasks: Vec<Task> = s.iter().copied().collect();
    assert_eq!(tasks, vec![Task(DEFAULT), Task(RARITY | MEDALS), Task(FULL)]);
    assert_eq!(s.describe(), "Default, Medals | Rarity, Full");
    assert_eq!(Schedule::new(vec![]).describe(), "No tasks");
}

#[test]
fn schedule_reports_first_bad_task() {
    let err = Schedule::parse("default, Bogus, worse").err().unwrap();
    assert_eq!(err.input, "bogus");
}
