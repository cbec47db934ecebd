//! Ranking records: one flat record per player, with inactive players'
//! accuracy suppressed and the rarest owned medal picked out.
use vstd::prelude::*;

use crate::rarity::{MedalRarities, MedalRarityEntry};
use crate::user::{ModeStats, OsuUser, OwnedMedal, UserFull};

verus! {

/// Below this many plays in every mode, a player's accuracy is noise.
pub const PLAYCOUNT_THRESHOLD: u32 = 500;

/// The "achieved at" of a record without rarest medal: the Unix epoch.
pub const EPOCH: i64 = 0;

/// One mode's part of a ranking record. Accuracy, level and pp are `f32` bit
/// patterns; zero bits are `0.0`.
#[derive(Clone, Copy, Debug)]
pub struct RankingMode {
    pub acc: u32,
    pub global_rank: Option<u32>,
    pub level: u32,
    pub pp: u32,
}

/// The ranking record of one player.
pub struct RankingUser {
    pub id: u32,
    pub name: String,
    pub ignore_acc: bool,
    pub medal_count: usize,
    pub rarest_medal_id: u16,
    pub rarest_medal_achieved: i64,
    pub country_code: String,
    pub badge_count: usize,
    pub ranked_maps: u32,
    pub loved_maps: u32,
    pub followers: u32,
    pub subscribers: u32,
    pub replays_watched: u64,
    pub avatar_url: String,
    pub kudosu: i32,
    pub restricted: bool,
    pub std: RankingMode,
    pub tko: RankingMode,
    pub ctb: RankingMode,
    pub mna: RankingMode,
}

pub open spec fn rank_or_zero(rank: Option<u32>) -> u32 {
    match rank {
        Some(r) => r,
        None => 0,
    }
}

pub open spec fn max_u32(a: u32, b: u32) -> u32 {
    if a >= b {
        a
    } else {
        b
    }
}

/// The highest global rank over the four modes; zero where no mode is ranked.
pub open spec fn max_rank(u: UserFull) -> u32 {
    max_u32(
        max_u32(rank_or_zero(u.inner[0].global_rank), rank_or_zero(u.inner[1].global_rank)),
        max_u32(rank_or_zero(u.inner[2].global_rank), rank_or_zero(u.inner[3].global_rank)),
    )
}

/// The highest playcount over the four modes.
pub open spec fn max_playcount(u: UserFull) -> u32 {
    max_u32(
        max_u32(u.inner[0].playcount, u.inner[1].playcount),
        max_u32(u.inner[2].playcount, u.inner[3].playcount),
    )
}

/// A player's accuracy is ignored when no mode is ranked or it has played
/// fewer than the threshold in every mode.
pub open spec fn ignores_acc(u: UserFull) -> bool {
    max_rank(u) == 0 || max_playcount(u) < PLAYCOUNT_THRESHOLD
}

/// A mode's part of the record: copied, with accuracy zero where ignored.
pub open spec fn ranking_mode_of(s: ModeStats, ignore_acc: bool) -> RankingMode {
    RankingMode {
        acc: if ignore_acc {
            0
        } else {
            s.acc
        },
        global_rank: s.global_rank,
        level: s.level,
        pp: s.pp,
    }
}

pub open spec fn zero_mode() -> RankingMode {
    RankingMode { acc: 0, global_rank: None, level: 0, pp: 0 }
}

/// The medal at `i` has a rarity entry, no owned medal with an entry has a
/// lower count, and every earlier one with an entry has a higher count.
pub open spec fn is_rarest(medals: Seq<OwnedMedal>, table: Map<u16, MedalRarityEntry>, i: int) -> bool {
    &&& 0 <= i < medals.len()
    &&& table.contains_key(medals[i].medal_id)
    &&& forall|j: int|
        0 <= j < medals.len() && table.contains_key(#[trigger] medals[j].medal_id) ==> table[medals[i].medal_id].count
            <= table[medals[j].medal_id].count
    &&& forall|j: int|
        0 <= j < i && table.contains_key(#[trigger] medals[j].medal_id) ==> table[medals[i].medal_id].count
            < table[medals[j].medal_id].count
}

/// Some owned medal has a rarity entry.
pub open spec fn has_rated_medal(medals: Seq<OwnedMedal>, table: Map<u16, MedalRarityEntry>) -> bool {
    exists|j: int| 0 <= j < medals.len() && table.contains_key(#[trigger] medals[j].medal_id)
}

/// The record of a restricted player: its id, the restricted flag, and zero
/// or empty everywhere else.
pub open spec fn restricted_record(user_id: u32, r: RankingUser) -> bool {
    &&& r.id == user_id
    &&& r.restricted
    &&& !r.ignore_acc
    &&& r.name@.len() == 0
    &&& r.country_code@.len() == 0
    &&& r.avatar_url@.len() == 0
    &&& r.medal_count == 0
    &&& r.rarest_medal_id == 0
    &&& r.rarest_medal_achieved == EPOCH
    &&& r.badge_count == 0
    &&& r.ranked_maps == 0
    &&& r.loved_maps == 0
    &&& r.followers == 0
    &&& r.subscribers == 0
    &&& r.replays_watched == 0
    &&& r.kudosu == 0
    &&& r.std == zero_mode()
    &&& r.tko == zero_mode()
    &&& r.ctb == zero_mode()
    &&& r.mna == zero_mode()
}

/// `r` is the ranking record of `user` against the rarity table `table`.
pub open spec fn ranking_record(user: OsuUser, table: Map<u16, MedalRarityEntry>, r: RankingUser) -> bool {
    match user {
        OsuUser::Restricted { user_id } => restricted_record(user_id, r),
        OsuUser::Available(u) => {
            &&& r.id == u.user_id
            &&& r.name@ == u.username@
            &&& !r.restricted
            &&& r.ignore_acc == ignores_acc(u)
            &&& r.std == ranking_mode_of(u.inner[0], r.ignore_acc)
            &&& r.tko == ranking_mode_of(u.inner[1], r.ignore_acc)
            &&& r.ctb == ranking_mode_of(u.inner[2], r.ignore_acc)
            &&& r.mna == ranking_mode_of(u.inner[3], r.ignore_acc)
            &&& r.medal_count == u.medals@.len()
            &&& r.badge_count == u.badges@.len()
            &&& r.country_code@ == u.country_code@
            &&& r.avatar_url@ == u.avatar_url@
            &&& r.ranked_maps == u.maps_ranked
            &&& r.loved_maps == u.maps_loved
            &&& r.followers == u.followers
            &&& r.subscribers == u.subscribers
            &&& r.replays_watched == u.replays_watched
            &&& r.kudosu == u.kudosu
            &&& if has_rated_medal(u.medals@, table) {
                exists|i: int|
                    is_rarest(u.medals@, table, i) && r.rarest_medal_id == u.medals@[i].medal_id
                        && r.rarest_medal_achieved == u.medals@[i].achieved_at
            } else {
                r.rarest_medal_id == 0 && r.rarest_medal_achieved == EPOCH
            }
        },
    }
}

/// A restricted player's record has its id, the restricted flag, and every
/// numeric field at zero.
pub proof fn lemma_restricted_record(user_id: u32, table: Map<u16, MedalRarityEntry>, r: RankingUser)
    requires
        ranking_record(OsuUser::Restricted { user_id }, table, r),
    ensures
        r.id == user_id,
        r.restricted,
        r.medal_count == 0 && r.badge_count == 0 && r.rarest_medal_id == 0,
        r.ranked_maps == 0 && r.loved_maps == 0 && r.followers == 0 && r.subscribers == 0,
        r.replays_watched == 0 && r.kudosu == 0 && r.rarest_medal_achieved == EPOCH,
        r.std == zero_mode() && r.tko == zero_mode() && r.ctb == zero_mode() && r.mna
            == zero_mode(),
{
}

/// A player without ranked mode, or below the playcount threshold in every
/// mode, has its accuracy ignored and every accuracy field at zero.
pub proof fn lemma_accuracy_suppressed(u: UserFull, table: Map<u16, MedalRarityEntry>, r: RankingUser)
    requires
        ranking_record(OsuUser::Available(u), table, r),
        max_rank(u) == 0 || max_playcount(u) < PLAYCOUNT_THRESHOLD,
    ensures
        r.ignore_acc,
        r.std.acc == 0 && r.tko.acc == 0 && r.ctb.acc == 0 && r.mna.acc == 0,
{
}

fn rank_value(rank: Option<u32>) -> (r: u32)
    ensures
        r == rank_or_zero(rank),
{
    match rank {
        Some(r) => r,
        None => 0,
    }
}

fn max_of(a: u32, b: u32) -> (r: u32)
    ensures
        r == max_u32(a, b),
{
    if a >= b {
        a
    } else {
        b
    }
}

fn ranking_mode(s: &ModeStats, ignore_acc: bool) -> (r: RankingMode)
    ensures
        r == ranking_mode_of(*s, ignore_acc),
{
    RankingMode {
        acc: if ignore_acc {
            0
        } else {
            s.acc
        },
        global_rank: s.global_rank,
        level: s.level,
        pp: s.pp,
    }
}

impl UserFull {
    /// The owned medal with the lowest owner count in `rarities`; of equally
    /// rare ones the first in the player's list. Medals without entry are skipped.
    pub fn rarest_medal(&self, rarities: &MedalRarities) -> (r: Option<OwnedMedal>)
        ensures
            match r {
                Some(m) => exists|i: int|
                    is_rarest(self.medals@, rarities@, i) && self.medals@[i] == m,
                None => !has_rated_medal(self.medals@, rarities@),
            },
    {
        let mut best: Option<(usize, u64)> = None;
        let mut i: usize = 0;
        while i < self.medals.len()
            invariant
                i <= self.medals@.len(),
                match best {
                    Some((b, c)) => b < i && rarities@.contains_key(self.medals@[b as int].medal_id)
                        && c == rarities@[self.medals@[b as int].medal_id].count && forall|j: int|
                        0 <= j < i && rarities@.contains_key(#[trigger] self.medals@[j].medal_id)
                            ==> c <= rarities@[self.medals@[j].medal_id].count && forall|j: int|
                        0 <= j < b && rarities@.contains_key(#[trigger] self.medals@[j].medal_id)
                            ==> c < rarities@[self.medals@[j].medal_id].count,
                    None => forall|j: int|
                        0 <= j < i ==> !rarities@.contains_key(#[trigger] self.medals@[j].medal_id),
                },
            decreases self.medals@.len() - i,
        {
            let id = self.medals[i].medal_id;
            match rarities.get(&id) {
                Some(e) => {
                    let better = match best {
                        Some((_, c)) => e.count < c,
                        None => true,
                    };
                    if better {
                        best = Some((i, e.count));
                    }
                },
                None => {},
            }
            i += 1;
        }
        match best {
            Some((b, _)) => {
                proof {
                    assert(is_rarest(self.medals@, rarities@, b as int));
                }
                Some(self.medals[b])
            },
            None => None,
        }
    }
}

impl RankingUser {
    /// The ranking record of `user`, with the rarest medal judged by `rarities`.
    pub fn new(user: OsuUser, rarities: &MedalRarities) -> (r: RankingUser)
        ensures
            ranking_record(user, rarities@, r),
    {
        match user {
            OsuUser::Available(u) => {
                let (rarest_medal_id, rarest_medal_achieved) = match u.rarest_medal(rarities) {
                    Some(m) => (m.medal_id, m.achieved_at),
                    None => (0, EPOCH),
                };
                let max_rank = max_of(
                    max_of(rank_value(u.inner[0].global_rank), rank_value(u.inner[1].global_rank)),
                    max_of(rank_value(u.inner[2].global_rank), rank_value(u.inner[3].global_rank)),
                );
                let max_playcount = max_of(
                    max_of(u.inner[0].playcount, u.inner[1].playcount),
                    max_of(u.inner[2].playcount, u.inner[3].playcount),
                );
                let ignore_acc = max_rank == 0 || max_playcount < PLAYCOUNT_THRESHOLD;
                let std = ranking_mode(&u.inner[0], ignore_acc);
                let tko = ranking_mode(&u.inner[1], ignore_acc);
                let ctb = ranking_mode(&u.inner[2], ignore_acc);
                let mna = ranking_mode(&u.inner[3], ignore_acc);
                let medal_count = u.medals.len();
                let badge_count = u.badges.len();
                RankingUser {
                    id: u.user_id,
                    name: u.username,
                    ignore_acc,
                    medal_count,
                    rarest_medal_id,
                    rarest_medal_achieved,
                    country_code: u.country_code,
                    badge_count,
                    ranked_maps: u.maps_ranked,
                    loved_maps: u.maps_loved,
                    followers: u.followers,
                    subscribers: u.subscribers,
                    replays_watched: u.replays_watched,
                    avatar_url: u.avatar_url,
                    kudosu: u.kudosu,
                    restricted: false,
                    std,
                    tko,
                    ctb,
                    mna,
                }
            },
            OsuUser::Restricted { user_id } => {
                let zero = RankingMode { acc: 0, global_rank: None, level: 0, pp: 0 };
                RankingUser {
                    id: user_id,
                    name: String::new(),
                    ignore_acc: false,
                    medal_count: 0,
                    rarest_medal_id: 0,
                    rarest_medal_achieved: EPOCH,
                    country_code: String::new(),
                    badge_count: 0,
                    ranked_maps: 0,
                    loved_maps: 0,
                    followers: 0,
                    subscribers: 0,
                    replays_watched: 0,
                    avatar_url: String::new(),
                    kudosu: 0,
                    restricted: true,
                    std: zero,
                    tko: zero,
                    ctb: zero,
                    mna: zero,
                }
            },
        }
    }
}

/// The ranking records of a list of players, made one at a time.
pub struct RankingsIter {
    users: Vec<OsuUser>,
    rarities: MedalRarities,
}

impl RankingsIter {
    /// The players whose records are still to come, in order.
    pub closed spec fn remaining(&self) -> Seq<OsuUser> {
        Seq::new(self.users@.len(), |i: int| self.users@[self.users@.len() - 1 - i])
    }

    /// The rarity table that the records are judged by.
    pub closed spec fn table(&self) -> Map<u16, MedalRarityEntry> {
        self.rarities@
    }

    pub fn new(users: Vec<OsuUser>, rarities: MedalRarities) -> (r: RankingsIter)
        ensures
            r.remaining() == users@,
            r.table() == rarities@,
    {
        let ghost all = users@;
        let mut users = users;
        let mut stack: Vec<OsuUser> = Vec::new();
        while users.len() > 0
            invariant
                users@.len() + stack@.len() == all.len(),
                forall|i: int| 0 <= i < users@.len() ==> users@[i] == all[i],
                forall|i: int|
                    0 <= i < stack@.len() ==> stack@[i] == all[all.len() - 1 - i],
            decreases users@.len(),
        {
            let u = users.pop().unwrap();
            stack.push(u);
        }
        let r = RankingsIter { users: stack, rarities };
        proof {
            assert(r.remaining() =~= all);
        }
        r
    }

    /// How many records are still to come.
    pub fn len(&self) -> (r: usize)
        ensures
            r == self.remaining().len(),
    {
        self.users.len()
    }

    /// The record of the next player, if any is left.
    pub fn next(&mut self) -> (r: Option<RankingUser>)
        ensures
            final(self).table() == old(self).table(),
            match r {
                Some(rec) => old(self).remaining().len() > 0 && ranking_record(
                    old(self).remaining()[0],
                    old(self).table(),
                    rec,
                ) && final(self).remaining() == old(self).remaining().drop_first(),
                None => old(self).remaining().len() == 0 && final(self).remaining().len() == 0,
            },
    {
        match self.users.pop() {
            Some(u) => {
                let rec = RankingUser::new(u, &self.rarities);
                proof {
                    assert(self.remaining() =~= old(self).remaining().drop_first());
                }
                Some(rec)
            },
            None => None,
        }
    }
}

} // verus!
