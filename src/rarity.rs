//! Medal rarity: for each medal, how many of the fetched players own it.
use vstd::prelude::*;
use std::collections::HashMap;

use crate::medal::ScrapedMedal;
use crate::user::OsuUser;

verus! {

broadcast use vstd::std_specs::hash::group_hash_axioms;

/// How many players own a medal, out of how many players. The frequency in
/// percent is `100 * count / users`; with `users == 0` no frequency is known.
#[derive(Clone, Copy, Debug)]
pub struct MedalRarityEntry {
    pub count: u64,
    pub users: u64,
}

/// Rarity entries by medal id, with the ids in the order they were added.
pub struct MedalRarities {
    inner: HashMap<u16, MedalRarityEntry>,
    ids: Vec<u16>,
}

/// The player owns the medal `id`: it is available and the id is among its medals.
pub open spec fn owns(user: OsuUser, id: u16) -> bool {
    match user {
        OsuUser::Available(u) => exists|k: int|
            0 <= k < u.medals@.len() && (#[trigger] u.medals@[k]).medal_id == id,
        OsuUser::Restricted { .. } => false,
    }
}

/// How many of `users` own the medal `id`.
pub open spec fn owner_count(users: Seq<OsuUser>, id: u16) -> nat
    decreases users.len(),
{
    if users.len() == 0 {
        0
    } else {
        owner_count(users.drop_last(), id) + if owns(users.last(), id) {
            1nat
        } else {
            0nat
        }
    }
}

/// The catalog holds a medal with this id.
pub open spec fn in_catalog(medals: Seq<ScrapedMedal>, id: u16) -> bool {
    exists|k: int| 0 <= k < medals.len() && (#[trigger] medals[k]).id == id
}

/// `table` is the rarity table of `users` against the catalog `medals`: one
/// entry for each medal that a player owns or the catalog holds, counting the
/// players who own it, out of all players (restricted ones included).
pub open spec fn rarity_table(
    users: Seq<OsuUser>,
    medals: Seq<ScrapedMedal>,
    table: Map<u16, MedalRarityEntry>,
) -> bool {
    &&& forall|id: u16|
        #[trigger] table.contains_key(id) <==> (owner_count(users, id) > 0 || in_catalog(
            medals,
            id,
        ))
    &&& forall|id: u16|
        #[trigger] table.contains_key(id) ==> table[id].count == owner_count(users, id)
            && table[id].users == users.len()
}

pub proof fn lemma_owner_count_bounded(users: Seq<OsuUser>, id: u16)
    ensures
        owner_count(users, id) <= users.len(),
    decreases users.len(),
{
    if users.len() > 0 {
        lemma_owner_count_bounded(users.drop_last(), id);
    }
}

/// Every medal of the catalog has an entry, and no count exceeds the number of players.
pub proof fn lemma_rarity_complete(
    users: Seq<OsuUser>,
    medals: Seq<ScrapedMedal>,
    table: Map<u16, MedalRarityEntry>,
)
    requires
        rarity_table(users, medals, table),
    ensures
        forall|k: int| 0 <= k < medals.len() ==> table.contains_key(#[trigger] medals[k].id),
        forall|id: u16| #[trigger] table.contains_key(id) ==> table[id].count <= users.len(),
{
    assert forall|k: int| 0 <= k < medals.len() implies table.contains_key(
        #[trigger] medals[k].id,
    ) by {
        assert(in_catalog(medals, medals[k].id));
    }
    assert forall|id: u16| #[trigger] table.contains_key(id) implies table[id].count
        <= users.len() by {
        lemma_owner_count_bounded(users, id);
    }
}

proof fn lemma_push_keys<V>(
    m: Map<u16, V>,
    ids: Seq<u16>,
    id: u16,
    v: V,
    m2: Map<u16, V>,
    ids2: Seq<u16>,
)
    requires
        forall|x: u16| #[trigger] m.contains_key(x) <==> ids.contains(x),
        forall|a: int, b: int| 0 <= a < b < ids.len() ==> ids[a] != ids[b],
        !m.contains_key(id),
        m2 == m.insert(id, v),
        ids2 == ids.push(id),
    ensures
        forall|x: u16| #[trigger] m2.contains_key(x) <==> ids2.contains(x),
        forall|a: int, b: int| 0 <= a < b < ids2.len() ==> ids2[a] != ids2[b],
{
    assert forall|x: u16| #[trigger] m2.contains_key(x) <==> ids2.contains(x) by {
        if x == id {
            assert(ids2[ids2.len() - 1] == x);
        } else {
            if ids2.contains(x) {
                let j = choose|j: int| 0 <= j < ids2.len() && ids2[j] == x;
                assert(ids[j] == x);
            }
            if ids.contains(x) {
                let j = choose|j: int| 0 <= j < ids.len() && ids[j] == x;
                assert(ids2[j] == x);
            }
        }
    }
    assert forall|a: int, b: int| 0 <= a < b < ids2.len() implies ids2[a] != ids2[b] by {
        if b == ids.len() {
            assert(ids.contains(ids[a]));
        }
    }
}

/// `id` occurs among the first `k` medals of the player.
pub open spec fn seen_in(user: OsuUser, k: int, id: u16) -> bool {
    match user {
        OsuUser::Available(u) => exists|j: int|
            0 <= j < k && (#[trigger] u.medals@[j]).medal_id == id,
        OsuUser::Restricted { .. } => false,
    }
}

impl MedalRarities {
    /// The entries by medal id.
    pub closed spec fn view(&self) -> Map<u16, MedalRarityEntry> {
        self.inner@
    }

    /// The ids in the order they were added.
    pub closed spec fn ids(&self) -> Seq<u16> {
        self.ids@
    }

    pub closed spec fn wf(&self) -> bool {
        &&& forall|i: int, j: int| 0 <= i < j < self.ids@.len() ==> self.ids@[i] != self.ids@[j]
        &&& forall|id: u16| #[trigger] self.inner@.contains_key(id) <==> self.ids@.contains(id)
    }

    /// An empty table.
    pub fn new() -> (r: MedalRarities)
        ensures
            r.wf(),
            r@ == Map::<u16, MedalRarityEntry>::empty(),
    {
        let r = MedalRarities { inner: HashMap::new(), ids: Vec::new() };
        proof {
            assert(r.inner@ =~= Map::<u16, MedalRarityEntry>::empty());
        }
        r
    }

    /// Sets the entry of `medal_id`, replacing an earlier one.
    pub fn insert(&mut self, medal_id: u16, entry: MedalRarityEntry)
        requires
            old(self).wf(),
        ensures
            final(self).wf(),
            final(self)@ == old(self)@.insert(medal_id, entry),
    {
        let had = self.inner.contains_key(&medal_id);
        self.inner.insert(medal_id, entry);
        if !had {
            self.ids.push(medal_id);
        }
        proof {
            assert forall|id: u16| #[trigger] self.inner@.contains_key(id) <==> self.ids@.contains(
                id,
            ) by {
                if !had && id == medal_id {
                    assert(self.ids@[self.ids@.len() - 1] == id);
                }
                if !had && self.ids@.contains(id) && id != medal_id {
                    let j = choose|j: int| 0 <= j < self.ids@.len() && self.ids@[j] == id;
                    assert(old(self).ids@[j] == id);
                }
                if !had && old(self).ids@.contains(id) {
                    let j = choose|j: int| 0 <= j < old(self).ids@.len() && old(self).ids@[j] == id;
                    assert(self.ids@[j] == id);
                }
            }
        }
    }

    /// A table with the same entries.
    pub fn duplicate(&self) -> (r: MedalRarities)
        requires
            self.wf(),
        ensures
            r.wf(),
            r@ == self@,
    {
        let entries = self.iter();
        let mut r = MedalRarities::new();
        let mut i: usize = 0;
        while i < entries.len()
            invariant
                self.wf(),
                r.wf(),
                i <= entries@.len(),
                entries@.len() == self.ids().len(),
                forall|j: int|
                    0 <= j < entries@.len() ==> (#[trigger] entries@[j]).0 == self.ids()[j]
                        && self@.contains_key(entries@[j].0) && entries@[j].1 == self@[entries@[j].0],
                forall|id: u16|
                    #[trigger] r@.contains_key(id) <==> exists|j: int|
                        0 <= j < i && entries@[j].0 == id,
                forall|id: u16| #[trigger] r@.contains_key(id) ==> r@[id] == self@[id],
            decreases entries@.len() - i,
        {
            let (id, e) = entries[i];
            r.insert(id, e);
            proof {
                assert forall|x: u16| #[trigger] r@.contains_key(x) <==> exists|j: int|
                    0 <= j < i + 1 && entries@[j].0 == x by {
                    if x == id {
                        assert(entries@[i as int].0 == x);
                    }
                }
            }
            i += 1;
        }
        proof {
            assert forall|id: u16| #[trigger] self@.contains_key(id) implies r@.contains_key(id) by {
                assert(self.ids@.contains(id));
                let j = choose|j: int| 0 <= j < self.ids@.len() && self.ids@[j] == id;
                assert(entries@[j].0 == id);
            }
            assert(r@ =~= self@);
        }
        r
    }

    /// The entry of `medal_id`, if any.
    pub fn get(&self, medal_id: &u16) -> (r: Option<&MedalRarityEntry>)
        ensures
            match r {
                Some(e) => self@.contains_key(*medal_id) && *e == self@[*medal_id],
                None => !self@.contains_key(*medal_id),
            },
    {
        self.inner.get(medal_id)
    }

    pub fn is_empty(&self) -> (r: bool)
        requires
            self.wf(),
        ensures
            r == (self@.len() == 0),
    {
        proof {
            self.lemma_len();
        }
        self.ids.len() == 0
    }

    /// The number of entries.
    pub fn len(&self) -> (r: usize)
        requires
            self.wf(),
        ensures
            r == self@.len(),
    {
        proof {
            self.lemma_len();
        }
        self.ids.len()
    }

    proof fn lemma_len(&self)
        requires
            self.wf(),
        ensures
            self.inner@.len() == self.ids@.len(),
    {
        self.ids@.unique_seq_to_set();
        assert(self.inner@.dom() =~= self.ids@.to_set());
    }

    /// Every entry with its medal id, in the order the ids were added.
    pub fn iter(&self) -> (r: Vec<(u16, MedalRarityEntry)>)
        requires
            self.wf(),
        ensures
            r@.len() == self.ids().len(),
            forall|i: int|
                0 <= i < r@.len() ==> (#[trigger] r@[i]).0 == self.ids()[i] && self@.contains_key(
                    r@[i].0,
                ) && r@[i].1 == self@[r@[i].0],
            forall|id: u16|
                self@.contains_key(id) ==> exists|i: int| 0 <= i < r@.len() && #[trigger] r@[i].0 == id,
    {
        let mut r: Vec<(u16, MedalRarityEntry)> = Vec::new();
        let mut i: usize = 0;
        while i < self.ids.len()
            invariant
                self.wf(),
                i <= self.ids@.len(),
                r@.len() == i,
                forall|j: int|
                    0 <= j < i ==> (#[trigger] r@[j]).0 == self.ids@[j]
                        && self.inner@.contains_key(r@[j].0) && r@[j].1 == self.inner@[r@[j].0],
            decreases self.ids@.len() - i,
        {
            let id = self.ids[i];
            proof {
                assert(self.ids@.contains(id));
            }
            match self.inner.get(&id) {
                Some(e) => r.push((id, *e)),
                None => {},
            }
            i += 1;
        }
        proof {
            assert forall|id: u16| self@.contains_key(id) implies exists|i: int|
                0 <= i < r@.len() && #[trigger] r@[i].0 == id by {
                assert(self.ids@.contains(id));
                let j = choose|j: int| 0 <= j < self.ids@.len() && self.ids@[j] == id;
                assert(r@[j].0 == id);
            }
        }
        r
    }
}

/// Seeds a zero-count entry for each catalog medal whose id is not among
/// `known_ids` (the ids already stored), so that new medals appear at once.
pub fn new_medal_rarities(medals: &Vec<ScrapedMedal>, known_ids: &Vec<u16>) -> (r: MedalRarities)
    ensures
        r.wf(),
        forall|id: u16|
            #[trigger] r@.contains_key(id) <==> (in_catalog(medals@, id) && !known_ids@.contains(
                id,
            )),
        forall|id: u16|
            #[trigger] r@.contains_key(id) ==> r@[id] == (MedalRarityEntry { count: 0, users: 0 }),
{
    let mut r = MedalRarities::new();
    let mut i: usize = 0;
    while i < medals.len()
        invariant
            r.wf(),
            i <= medals@.len(),
            forall|id: u16|
                #[trigger] r@.contains_key(id) <==> ((exists|k: int|
                    0 <= k < i && (#[trigger] medals@[k]).id == id) && !known_ids@.contains(id)),
            forall|id: u16|
                #[trigger] r@.contains_key(id) ==> r@[id] == (MedalRarityEntry {
                    count: 0,
                    users: 0,
                }),
        decreases medals@.len() - i,
    {
        let id = medals[i].id;
        let mut known = false;
        let mut j: usize = 0;
        while j < known_ids.len()
            invariant
                j <= known_ids@.len(),
                known == exists|l: int| 0 <= l < j && known_ids@[l] == id,
            decreases known_ids@.len() - j,
        {
            if known_ids[j] == id {
                known = true;
            }
            j += 1;
        }
        if !known {
            r.insert(id, MedalRarityEntry { count: 0, users: 0 });
        }
        proof {
            assert(known == known_ids@.contains(id));
            assert forall|x: u16|
                #[trigger] r@.contains_key(x) <==> ((exists|k: int|
                    0 <= k < i + 1 && (#[trigger] medals@[k]).id == x) && !known_ids@.contains(x)) by {
                if x == id {
                    assert(medals@[i as int].id == x);
                }
            }
        }
        i += 1;
    }
    r
}

/// Counts, for each medal, the players of `users` who own it; a medal of the
/// catalog that nobody owns gets a zero count. Restricted players own nothing
/// but count among the players.
pub fn calculate_rarities(users: &Vec<OsuUser>, medals: &Vec<ScrapedMedal>) -> (r: MedalRarities)
    ensures
        r.wf(),
        rarity_table(users@, medals@, r@),
{
    let mut counts: HashMap<u16, (u64, usize)> = HashMap::new();
    let mut ids: Vec<u16> = Vec::new();
    let mut ui: usize = 0;
    let n_users = users.len();
    while ui < n_users
        invariant
            n_users == users@.len(),
            ui <= users@.len(),
            users@.len() <= usize::MAX,
            forall|i: int, j: int| 0 <= i < j < ids@.len() ==> ids@[i] != ids@[j],
            forall|id: u16| #[trigger] counts@.contains_key(id) <==> ids@.contains(id),
            forall|id: u16|
                #[trigger] counts@.contains_key(id) <==> owner_count(users@.take(ui as int), id) > 0,
            forall|id: u16|
                #[trigger] counts@.contains_key(id) ==> counts@[id].0 == owner_count(
                    users@.take(ui as int),
                    id,
                ) && counts@[id].1 <= ui,
        decreases users@.len() - ui,
    {
        proof {
            assert(users@.take(ui + 1).drop_last() =~= users@.take(ui as int));
        }
        match &users[ui] {
            OsuUser::Available(u) => {
                let mut k: usize = 0;
                while k < u.medals.len()
                    invariant
                                    ui < users@.len(),
                        users@.len() <= usize::MAX,
                        users@[ui as int] == OsuUser::Available(*u),
                        k <= u.medals@.len(),
                        forall|i: int, j: int| 0 <= i < j < ids@.len() ==> ids@[i] != ids@[j],
                        forall|id: u16| #[trigger] counts@.contains_key(id) <==> ids@.contains(id),
                        forall|id: u16|
                            #[trigger] counts@.contains_key(id) <==> (owner_count(
                                users@.take(ui as int),
                                id,
                            ) > 0 || seen_in(users@[ui as int], k as int, id)),
                        forall|id: u16|
                            #[trigger] counts@.contains_key(id) ==> counts@[id].0 == owner_count(
                                users@.take(ui as int),
                                id,
                            ) + (if seen_in(users@[ui as int], k as int, id) {
                                1nat
                            } else {
                                0nat
                            }) && counts@[id].1 <= ui + 1 && (counts@[id].1 == ui + 1 <==> seen_in(
                                users@[ui as int],
                                k as int,
                                id,
                            )),
                    decreases u.medals@.len() - k,
                {
                    let id = u.medals[k].medal_id;
                    let ghost user = users@[ui as int];
                    proof {
                        lemma_owner_count_bounded(users@.take(ui as int), id);
                        assert forall|x: u16| x != id implies seen_in(user, k + 1, x) == seen_in(
                            user,
                            k as int,
                            x,
                        ) by {
                            if seen_in(user, k + 1, x) {
                                let j = choose|j: int|
                                    0 <= j < k + 1 && (#[trigger] u.medals@[j]).medal_id
                                        == x;
                                assert(j < k);
                            }
                        }
                        assert(user == OsuUser::Available(*u));
                        assert(u.medals@[k as int].medal_id == id);
                        assert(user->Available_0 == *u);
                        assert(user->Available_0.medals@[k as int].medal_id == id);
                        assert(seen_in(user, k + 1, id));
                    }
                    let found = match counts.get(&id) {
                        Some(e) => Some(*e),
                        None => None,
                    };
                    match found {
                        Some((c, last)) => {
                            if last != ui + 1 {
                                counts.insert(id, (c + 1, ui + 1));
                            }
                        },
                        None => {
                            let ghost old_ids = ids@;
                            let ghost old_counts = counts@;
                            counts.insert(id, (1, ui + 1));
                            ids.push(id);
                            proof {
                                lemma_push_keys(old_counts, old_ids, id, (1, (ui + 1) as usize), counts@, ids@);
                            }
                        },
                    }
                    k += 1;
                }
                proof {
                    assert forall|id: u16| seen_in(users@[ui as int], k as int, id) == owns(
                        users@[ui as int],
                        id,
                    ) by {}
                }
            },
            OsuUser::Restricted { .. } => {},
        }
        ui += 1;
    }
    proof {
        assert(users@.take(ui as int) =~= users@);
    }
    let mut i: usize = 0;
    while i < medals.len()
        invariant
            i <= medals@.len(),
            forall|a: int, b: int| 0 <= a < b < ids@.len() ==> ids@[a] != ids@[b],
            forall|id: u16| #[trigger] counts@.contains_key(id) <==> ids@.contains(id),
            forall|id: u16|
                #[trigger] counts@.contains_key(id) <==> (owner_count(users@, id) > 0 || exists|
                    k: int,
                | 0 <= k < i && (#[trigger] medals@[k]).id == id),
            forall|id: u16|
                #[trigger] counts@.contains_key(id) ==> counts@[id].0 == owner_count(users@, id),
        decreases medals@.len() - i,
    {
        let id = medals[i].id;
        if !counts.contains_key(&id) {
            let ghost old_ids = ids@;
            let ghost old_counts = counts@;
            counts.insert(id, (0, 0));
            ids.push(id);
            proof {
                lemma_push_keys(old_counts, old_ids, id, (0u64, 0usize), counts@, ids@);
            }
        }
        proof {
            assert(medals@[i as int].id == id);
        }
        i += 1;
    }
    let total = users.len() as u64;
    let mut r = MedalRarities::new();
    let mut j: usize = 0;
    while j < ids.len()
        invariant
            total == users@.len(),
            j <= ids@.len(),
            r.wf(),
            forall|a: int, b: int| 0 <= a < b < ids@.len() ==> ids@[a] != ids@[b],
            forall|id: u16| #[trigger] counts@.contains_key(id) <==> ids@.contains(id),
            forall|id: u16|
                #[trigger] counts@.contains_key(id) <==> (owner_count(users@, id) > 0 || in_catalog(
                    medals@,
                    id,
                )),
            forall|id: u16|
                #[trigger] counts@.contains_key(id) ==> counts@[id].0 == owner_count(users@, id),
            forall|id: u16|
                #[trigger] r@.contains_key(id) <==> exists|a: int| 0 <= a < j && ids@[a] == id,
            forall|id: u16|
                #[trigger] r@.contains_key(id) ==> r@[id].count == owner_count(users@, id)
                    && r@[id].users == users@.len(),
        decreases ids@.len() - j,
    {
        let id = ids[j];
        proof {
            assert(ids@.contains(id));
        }
        let c = match counts.get(&id) {
            Some(e) => e.0,
            None => 0,
        };
        r.insert(id, MedalRarityEntry { count: c, users: total });
        proof {
            assert forall|x: u16| #[trigger] r@.contains_key(x) <==> exists|a: int|
                0 <= a < j + 1 && ids@[a] == x by {
                if x == id {
                    assert(ids@[j as int] == x);
                }
            }
        }
        j += 1;
    }
    proof {
        assert forall|id: u16| #[trigger] r@.contains_key(id) <==> (owner_count(users@, id) > 0
            || in_catalog(medals@, id)) by {
            if counts@.contains_key(id) {
                assert(ids@.contains(id));
            }
            if r@.contains_key(id) {
                let a = choose|a: int| 0 <= a < j && ids@[a] == id;
                assert(ids@.contains(id));
            }
        }
    }
    r
}

} // verus!
