use osekai_scripts::cycle::{
    is_retryable, leaderboard_pages, mode_action, page_limit, progress_due, wants_full_ranking,
    wants_stored_participants, Action, Cycle, Event, ModeAction, ModeOutcome, Phase, TargetIds,
    FALLBACK_USER_ID,
};
use osekai_scripts::task::{Task, BADGES, DEFAULT, FULL, MEDALS, RANKING, RARITY};

#[test]
fn target_ids_keep_first_occurrence_order() {
    let mut ids = TargetIds::new();
    ids.extend(&vec![5, 3, 5, 9]);
    ids.insert(3);
    ids.insert(1);
    assert_eq!(ids.len(), 4);
    assert_eq!(ids.into_vec(), vec![5, 3, 9, 1]);
}

#[test]
fn debug_sample_truncates_or_falls_back() {
    let mut empty = TargetIds::new();
    empty.debug_sample();
    assert_eq!(empty.into_vec(), vec![FALLBACK_USER_ID]);

    let mut many = TargetIds::new();
    many.extend(&(1..=15).collect());
    many.debug_sample();
    assert_eq!(many.into_vec(), (1..=10).collect::<Vec<u32>>());

    let mut few = TargetIds::new();
    few.extend(&vec![4, 2]);
    few.debug_sample();
    assert_eq!(few.into_vec(), vec![4, 2]);
}

#[test]
fn pages_by_task() {
    assert_eq!(leaderboard_pages(Task(RARITY), false), Some(200));
    assert_eq!(leaderboard_pages(Task(FULL), false), Some(200));
    assert_eq!(leaderboard_pages(Task(RANKING), false), Some(5));
    assert_eq!(leaderboard_pages(Task(MEDALS | BADGES), false), None);
    assert_eq!(leaderboard_pages(Task(FULL), true), None);
    assert_eq!(page_limit(500), 200);
    assert_eq!(page_limit(7), 7);
}

#[test]
fn sources_of_ids() {
    assert!(wants_stored_participants(Task(DEFAULT)));
    assert!(!wants_stored_participants(Task(MEDALS)));
    assert!(wants_full_ranking(Task(FULL), false));
    assert!(!wants_full_ranking(Task(FULL), true));
    assert!(!wants_full_ranking(Task(DEFAULT), false));
}

#[test]
fn progress_every_hundred() {
    assert!(progress_due(100));
    assert!(progress_due(300));
    assert!(!progress_due(150));
}

#[test]
fn mode_error_policy() {
    assert_eq!(mode_action(0, ModeOutcome::Found, false), ModeAction::Use);
    assert_eq!(mode_action(0, ModeOutcome::NotFound, false), ModeAction::Restricted);
    assert_eq!(mode_action(2, ModeOutcome::NotFound, false), ModeAction::Fail);
    assert_eq!(mode_action(1, ModeOutcome::Transient, false), ModeAction::Retry);
    assert_eq!(mode_action(1, ModeOutcome::Transient, true), ModeAction::Fail);
    assert_eq!(mode_action(3, ModeOutcome::Failed, false), ModeAction::Fail);
}

#[test]
fn retryable_messages() {
    assert!(is_retryable("http2 error: connection error received: not a result of an error"));
    assert!(is_retryable("http2 error"));
    assert!(!is_retryable("http2 erro"));
    assert!(!is_retryable("timeout: http2 error"));
}

#[test]
fn medals_are_stored_before_rarities() {
    let (c, acts) = Cycle::start(Task(FULL), false, false);
    assert_eq!(acts, vec![Action::StoreBadges, Action::FetchMedals]);
    let (c, acts) = c.step(Event::MedalsFetched { ok: true });
    assert_eq!(acts, vec![Action::FetchMedalIds]);
    let (c, acts) = c.step(Event::MedalIdsFetched { ok: true, any_new: true });
    assert_eq!(acts, vec![Action::StoreMedals]);
    let (c, acts) = c.step(Event::MedalsStored);
    assert_eq!(
        acts,
        vec![
            Action::StoreNewRarities,
            Action::ComputeRarities,
            Action::StoreRankings,
            Action::StoreRarities,
            Action::JoinStores
        ]
    );
    let (c, acts) = c.step(Event::StoresJoined);
    assert_eq!(acts, vec![Action::NotifyFinish]);
    let (c, acts) = c.step(Event::Notified);
    assert!(acts.is_empty());
    assert_eq!(c.phase, Phase::Done);
}

#[test]
fn ranking_only_fetches_stored_rarities() {
    let (c, _) = Cycle::start(Task(RANKING), false, true);
    let (c, _) = c.step(Event::MedalsFetched { ok: true });
    let (c, acts) = c.step(Event::MedalIdsFetched { ok: true, any_new: true });
    assert_eq!(acts, vec![Action::FetchRarities]);
    let (c, acts) = c.step(Event::RaritiesFetched { ok: true });
    assert_eq!(acts, vec![Action::StoreRankings, Action::JoinStores]);
    assert_eq!(c.phase, Phase::Joining);
}

#[test]
fn failed_medal_fetch_skips_to_join() {
    let (c, acts) = Cycle::start(Task(DEFAULT), true, true);
    assert_eq!(acts, vec![Action::FetchMedals]);
    let (c, acts) = c.step(Event::MedalsFetched { ok: false });
    assert_eq!(acts, vec![Action::JoinStores]);
    let (_, acts) = c.step(Event::MedalsStored);
    assert!(acts.is_empty());
}

#[test]
fn badges_only_cycle() {
    let (c, acts) = Cycle::start(Task(BADGES), false, false);
    assert_eq!(acts, vec![Action::StoreBadges, Action::JoinStores]);
    assert_eq!(c.phase, Phase::Joining);
}
