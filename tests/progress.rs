use osekai_scripts::eta::Eta;
use osekai_scripts::progress::{Finish, Progress, UtcDateTime, INTERVAL};
use osekai_scripts::task::{Task, DEFAULT, FULL};

fn moment() -> UtcDateTime {
    UtcDateTime {
        unix: 1_700_000_000,
        year: 2023,
        month: 11,
        day: 14,
        hour: 22,
        minute: 13,
        second: 20,
    }
}

#[test]
fn id_from_start_fields() {
    let p = Progress::started_at(500, Task(DEFAULT), moment());
    assert_eq!(p.id, 2023_0011_14_22_13_20);
    assert_eq!(p.start, 1_700_000_000);
    assert_eq!((p.current, p.total, p.eta_seconds), (0, 500, None));
}

#[test]
fn now_has_sane_fields() {
    let p = Progress::new(3, Task(FULL));
    assert!(p.start > 1_600_000_000);
    assert!(p.id > 2020_0000_00_00_00_00);
    assert_eq!(p.total, 3);
}

#[test]
fn update_and_finish() {
    let mut eta = Eta::new();
    for i in 0..(INTERVAL as u64) {
        eta.tick(i * 2000);
    }
    let mut p = Progress::started_at(300, Task(FULL), moment());
    p.update(100, &eta);
    assert_eq!(p.current, 100);
    // 100 samples spanning 198 s: 198000 * 200 / 100 = 396000 ms
    assert_eq!(p.eta_seconds, Some(396));
    p.finish();
    assert_eq!((p.current, p.eta_seconds), (300, Some(0)));
    let f = Finish::from_progress(&p);
    assert_eq!(f.requested_users, 300);
    assert_eq!(f.task, Task(FULL));
    let g = Finish::new(Task(DEFAULT), 12);
    assert_eq!((g.requested_users, g.task), (12, Task(DEFAULT)));
}
