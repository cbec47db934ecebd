//! The players as fetched: four game modes of statistics each, their medals
//! and badges, or only an id where the player is restricted.
use vstd::prelude::*;

use crate::badge::RawBadge;

verus! {

/// A medal that a player owns, and when it was achieved (Unix seconds).
#[derive(Clone, Copy, Debug)]
pub struct OwnedMedal {
    pub medal_id: u16,
    pub achieved_at: i64,
}

/// One game mode's statistics as the game's API reports them. Accuracy, level
/// and pp are `f32` values carried as their bit patterns (`f32::to_bits`).
#[derive(Clone, Copy, Debug)]
pub struct ModeStatistics {
    pub accuracy: u32,
    pub level: u32,
    pub global_rank: Option<u32>,
    pub playcount: u32,
    pub pp: u32,
    pub replays_watched: u32,
}

/// One game mode's statistics as the ranking reads them. Accuracy, level and
/// pp are `f32` bit patterns; a global rank is never zero (unranked is `None`).
#[derive(Clone, Copy, Debug)]
pub struct ModeStats {
    pub acc: u32,
    pub level: u32,
    pub global_rank: Option<u32>,
    pub playcount: u32,
    pub pp: u32,
}

/// The account data of a player, as reported with the primary mode.
pub struct AccountInfo {
    pub user_id: u32,
    pub username: String,
    pub country_code: String,
    pub avatar_url: String,
    pub badges: Vec<RawBadge>,
    pub medals: Vec<OwnedMedal>,
    pub ranked_mapset_count: Option<u32>,
    pub loved_mapset_count: Option<u32>,
    pub mapping_follower_count: Option<u32>,
    pub follower_count: Option<u32>,
    pub kudosu: i32,
}

/// A player whose data could be fetched.
pub struct UserFull {
    pub inner: [ModeStats; 4],
    pub badges: Vec<RawBadge>,
    pub country_code: String,
    pub avatar_url: String,
    pub maps_ranked: u32,
    pub maps_loved: u32,
    pub medals: Vec<OwnedMedal>,
    pub replays_watched: u64,
    pub followers: u32,
    pub subscribers: u32,
    pub kudosu: i32,
    pub user_id: u32,
    pub username: String,
}

/// A fetched player: with full data, or restricted with only its id.
pub enum OsuUser {
    Available(UserFull),
    Restricted { user_id: u32 },
}

/// The statistics that the ranking reads from what the API reported for a mode;
/// a mode without statistics reads as zeros, and a zero rank as unranked.
pub open spec fn mode_stats_of(stats: Option<ModeStatistics>) -> ModeStats {
    match stats {
        Some(s) => ModeStats {
            acc: s.accuracy,
            level: s.level,
            global_rank: match s.global_rank {
                Some(r) => if r == 0 {
                    None
                } else {
                    Some(r)
                },
                None => None,
            },
            playcount: s.playcount,
            pp: s.pp,
        },
        None => ModeStats { acc: 0, level: 0, global_rank: None, playcount: 0, pp: 0 },
    }
}

/// The replays watched that a mode's statistics report (zero without statistics).
pub open spec fn replays_of(stats: Option<ModeStatistics>) -> u64 {
    match stats {
        Some(s) => s.replays_watched as u64,
        None => 0,
    }
}

pub open spec fn count_or_zero(c: Option<u32>) -> u32 {
    match c {
        Some(n) => n,
        None => 0,
    }
}

impl ModeStats {
    pub fn from_statistics(stats: Option<ModeStatistics>) -> (r: ModeStats)
        ensures
            r == mode_stats_of(stats),
    {
        match stats {
            Some(s) => ModeStats {
                acc: s.accuracy,
                level: s.level,
                global_rank: match s.global_rank {
                    Some(r) => if r == 0 {
                        None
                    } else {
                        Some(r)
                    },
                    None => None,
                },
                playcount: s.playcount,
                pp: s.pp,
            },
            None => ModeStats { acc: 0, level: 0, global_rank: None, playcount: 0, pp: 0 },
        }
    }
}

fn or_zero(c: Option<u32>) -> (r: u32)
    ensures
        r == count_or_zero(c),
{
    match c {
        Some(n) => n,
        None => 0,
    }
}

fn replays(stats: &Option<ModeStatistics>) -> (r: u64)
    ensures
        r == replays_of(*stats),
{
    match stats {
        Some(s) => s.replays_watched as u64,
        None => 0,
    }
}

impl UserFull {
    /// Combines the account data with the statistics of the four modes
    /// (primary, secondary, tertiary, quaternary).
    pub fn new(
        account: AccountInfo,
        std: Option<ModeStatistics>,
        tko: Option<ModeStatistics>,
        ctb: Option<ModeStatistics>,
        mna: Option<ModeStatistics>,
    ) -> (r: UserFull)
        ensures
            r.inner[0] == mode_stats_of(std),
            r.inner[1] == mode_stats_of(tko),
            r.inner[2] == mode_stats_of(ctb),
            r.inner[3] == mode_stats_of(mna),
            r.badges@ == account.badges@,
            r.medals@ == account.medals@,
            r.country_code@ == account.country_code@,
            r.avatar_url@ == account.avatar_url@,
            r.username@ == account.username@,
            r.user_id == account.user_id,
            r.kudosu == account.kudosu,
            r.maps_ranked == count_or_zero(account.ranked_mapset_count),
            r.maps_loved == count_or_zero(account.loved_mapset_count),
            r.subscribers == count_or_zero(account.mapping_follower_count),
            r.followers == count_or_zero(account.follower_count),
            r.replays_watched == replays_of(std) + replays_of(tko) + replays_of(ctb) + replays_of(
                mna,
            ),
    {
        let replays_watched = replays(&std) + replays(&tko) + replays(&ctb) + replays(&mna);
        let maps_ranked = or_zero(account.ranked_mapset_count);
        let maps_loved = or_zero(account.loved_mapset_count);
        let subscribers = or_zero(account.mapping_follower_count);
        let followers = or_zero(account.follower_count);
        UserFull {
            inner: [
                ModeStats::from_statistics(std),
                ModeStats::from_statistics(tko),
                ModeStats::from_statistics(ctb),
                ModeStats::from_statistics(mna),
            ],
            badges: account.badges,
            country_code: account.country_code,
            avatar_url: account.avatar_url,
            maps_ranked,
            maps_loved,
            medals: account.medals,
            replays_watched,
            followers,
            subscribers,
            kudosu: account.kudosu,
            user_id: account.user_id,
            username: account.username,
        }
    }
}

impl OsuUser {
    /// The player's id, restricted or not.
    pub fn user_id(&self) -> (r: u32)
        ensures
            r == match self {
                OsuUser::Available(u) => u.user_id,
                OsuUser::Restricted { user_id } => *user_id,
            },
    {
        match self {
            OsuUser::Available(u) => u.user_id,
            OsuUser::Restricted { user_id } => *user_id,
        }
    }
}

} // verus!
