//! The badge catalog: badge observations deduplicated by badge identity (the
//! image it shows) and merged with a previously stored catalog.
use vstd::prelude::*;
use vstd::seq_lib::seq_to_set_is_finite;
use vstd::set_lib::lemma_set_disjoint_lens;

use crate::text::{chars_of, push_char};

verus! {

/// The display name of a badge, taken from its image.
pub struct BadgeName(pub String);

/// Where the image of a badge lies, without query string.
pub struct BadgeImageUrl(pub String);

/// The free text shown with a badge.
pub struct BadgeDescription(pub String);

/// A player who owns a badge, and when it was awarded (Unix seconds).
/// Two owners are the same owner when their user ids are equal.
#[derive(Clone, Copy, Debug)]
pub struct BadgeOwner {
    pub user_id: u32,
    pub awarded_at: i64,
}

/// A badge as it appears on one player's profile.
pub struct RawBadge {
    pub description: String,
    pub image_url: String,
    pub awarded_at: i64,
}

/// The owners of the badge with one name under one description.
pub struct BadgeGroup {
    pub description: BadgeDescription,
    pub name: BadgeName,
    pub owners: Vec<BadgeOwner>,
}

/// The catalog: `names` maps each badge name to its image, and `groups` holds,
/// for each (description, name) pair, the set of owners.
pub struct Badges {
    pub names: Vec<(BadgeName, BadgeImageUrl)>,
    pub groups: Vec<BadgeGroup>,
}

/// `i` is the first position of `c` in `s`.
pub open spec fn first_at(s: Seq<char>, c: char, i: int) -> bool {
    0 <= i < s.len() && s[i] == c && forall|j: int| 0 <= j < i ==> s[j] != c
}

/// `i` is the last position of `c` in `s`.
pub open spec fn last_at(s: Seq<char>, c: char, i: int) -> bool {
    0 <= i < s.len() && s[i] == c && forall|j: int| i < j < s.len() ==> s[j] != c
}

/// An image reference without its query string (all from the first `?` on).
pub open spec fn without_query(url: Seq<char>) -> Seq<char> {
    if exists|i: int| first_at(url, '?', i) {
        url.take(choose|i: int| first_at(url, '?', i))
    } else {
        url
    }
}

/// `s` with each `-` and `_` replaced by a space.
pub open spec fn spaced(s: Seq<char>) -> Seq<char> {
    s.map_values(|c: char| if c == '-' || c == '_' { ' ' } else { c })
}

/// The badge name that an image reference gives: the file name after the last
/// `/`, up to its last `.`, with `-` and `_` read as spaces; none where the
/// reference has no `/` or its file name no `.`.
pub open spec fn name_from_url(url: Seq<char>) -> Option<Seq<char>> {
    if exists|i: int| last_at(url, '/', i) {
        let file = url.skip((choose|i: int| last_at(url, '/', i)) + 1);
        if exists|j: int| last_at(file, '.', j) {
            Some(spaced(file.take(choose|j: int| last_at(file, '.', j))))
        } else {
            None
        }
    } else {
        None
    }
}

pub proof fn lemma_first_unique(s: Seq<char>, c: char, i: int)
    requires
        first_at(s, c, i),
    ensures
        (choose|k: int| first_at(s, c, k)) == i,
{
    let k = choose|k: int| first_at(s, c, k);
    assert(first_at(s, c, k));
    if k < i {
        assert(s[k] != c);
    }
    if k > i {
        assert(s[i] != c);
    }
}

pub proof fn lemma_last_unique(s: Seq<char>, c: char, i: int)
    requires
        last_at(s, c, i),
    ensures
        (choose|k: int| last_at(s, c, k)) == i,
{
    let k = choose|k: int| last_at(s, c, k);
    assert(last_at(s, c, k));
    if k < i {
        assert(s[i] != c);
    }
    if k > i {
        assert(s[k] != c);
    }
}

fn find_first(cs: &Vec<char>, c: char) -> (r: Option<usize>)
    ensures
        match r {
            Some(i) => first_at(cs@, c, i as int),
            None => !exists|i: int| first_at(cs@, c, i),
        },
{
    let mut i: usize = 0;
    while i < cs.len()
        invariant
            i <= cs@.len(),
            forall|j: int| 0 <= j < i ==> cs@[j] != c,
        decreases cs@.len() - i,
    {
        if cs[i] == c {
            return Some(i);
        }
        i += 1;
    }
    None
}

pub(crate) fn find_last(cs: &Vec<char>, c: char) -> (r: Option<usize>)
    ensures
        match r {
            Some(i) => last_at(cs@, c, i as int),
            None => !exists|i: int| last_at(cs@, c, i),
        },
{
    let mut i: usize = cs.len();
    while i > 0
        invariant
            i <= cs@.len(),
            forall|j: int| i <= j < cs@.len() ==> cs@[j] != c,
        decreases i,
    {
        if cs[i - 1] == c {
            return Some(i - 1);
        }
        i -= 1;
    }
    None
}

pub(crate) fn copy_range(cs: &Vec<char>, from: usize, to: usize) -> (r: Vec<char>)
    requires
        from <= to <= cs@.len(),
    ensures
        r@ == cs@.subrange(from as int, to as int),
{
    let mut r: Vec<char> = Vec::new();
    let mut i: usize = from;
    while i < to
        invariant
            from <= i <= to <= cs@.len(),
            r@ == cs@.subrange(from as int, i as int),
        decreases to - i,
    {
        r.push(cs[i]);
        i += 1;
        proof {
            assert(r@ =~= cs@.subrange(from as int, i as int));
        }
    }
    r
}

pub(crate) fn chars_to_string(cs: &Vec<char>) -> (r: String)
    ensures
        r@ == cs@,
{
    let mut r = String::new();
    let mut i: usize = 0;
    while i < cs.len()
        invariant
            i <= cs@.len(),
            r@ == cs@.take(i as int),
        decreases cs@.len() - i,
    {
        push_char(&mut r, cs[i]);
        i += 1;
        proof {
            assert(r@ =~= cs@.take(i as int));
        }
    }
    proof {
        assert(cs@.take(cs@.len() as int) =~= cs@);
    }
    r
}

/// The image reference without its query string.
pub fn strip_query(image_url: &str) -> (r: String)
    ensures
        r@ == without_query(image_url@),
{
    let cs = chars_of(image_url);
    match find_first(&cs, '?') {
        Some(i) => {
            proof {
                lemma_first_unique(cs@, '?', i as int);
            }
            let head = copy_range(&cs, 0, i);
            proof {
                assert(head@ =~= cs@.take(i as int));
            }
            chars_to_string(&head)
        },
        None => chars_to_string(&cs),
    }
}

/// The badge name that an image reference (already without query string) gives.
pub fn badge_name(image_url: &str) -> (r: Option<String>)
    ensures
        match r {
            Some(n) => name_from_url(image_url@) == Some(n@),
            None => name_from_url(image_url@) is None,
        },
{
    let cs = chars_of(image_url);
    let n = cs.len();
    let slash = match find_last(&cs, '/') {
        Some(i) => i,
        None => return None,
    };
    proof {
        lemma_last_unique(cs@, '/', slash as int);
    }
    let file = copy_range(&cs, slash + 1, n);
    proof {
        assert(file@ =~= cs@.skip(slash + 1));
    }
    let dot = match find_last(&file, '.') {
        Some(j) => j,
        None => return None,
    };
    proof {
        lemma_last_unique(file@, '.', dot as int);
    }
    let mut name = String::new();
    let mut k: usize = 0;
    while k < dot
        invariant
            k <= dot < file@.len(),
            name@ == spaced(file@.take(k as int)),
        decreases dot - k,
    {
        let c = file[k];
        let d = if c == '-' || c == '_' {
            ' '
        } else {
            c
        };
        push_char(&mut name, d);
        k += 1;
        proof {
            assert(name@ =~= spaced(file@.take(k as int)));
        }
    }
    Some(name)
}

/// The map that a list of (name, image) pairs describes; a later pair wins.
pub open spec fn names_map_of(s: Seq<(BadgeName, BadgeImageUrl)>) -> Map<Seq<char>, Seq<char>>
    decreases s.len(),
{
    if s.len() == 0 {
        Map::empty()
    } else {
        names_map_of(s.drop_last()).insert(s.last().0.0@, s.last().1.0@)
    }
}

/// How many owners the groups hold together.
pub open spec fn owner_total(s: Seq<BadgeGroup>) -> nat
    decreases s.len(),
{
    if s.len() == 0 {
        0
    } else {
        owner_total(s.drop_last()) + s.last().owners@.len()
    }
}

pub proof fn lemma_names_map_dom(s: Seq<(BadgeName, BadgeImageUrl)>, n: Seq<char>)
    ensures
        names_map_of(s).contains_key(n) <==> exists|i: int| 0 <= i < s.len() && s[i].0.0@ == n,
    decreases s.len(),
{
    if s.len() > 0 {
        lemma_names_map_dom(s.drop_last(), n);
        if names_map_of(s.drop_last()).contains_key(n) {
            let i = choose|i: int| 0 <= i < s.drop_last().len() && s.drop_last()[i].0.0@ == n;
            assert(s[i].0.0@ == n);
        }
        if exists|i: int| 0 <= i < s.len() && s[i].0.0@ == n {
            let i = choose|i: int| 0 <= i < s.len() && s[i].0.0@ == n;
            if i < s.len() - 1 {
                assert(s.drop_last()[i].0.0@ == n);
            }
        }
    }
}

pub proof fn lemma_names_map_push(s: Seq<(BadgeName, BadgeImageUrl)>, x: (BadgeName, BadgeImageUrl))
    ensures
        names_map_of(s.push(x)) == names_map_of(s).insert(x.0.0@, x.1.0@),
{
    assert(s.push(x).drop_last() =~= s);
}

pub proof fn lemma_owner_total_push(s: Seq<BadgeGroup>, g: BadgeGroup)
    ensures
        owner_total(s.push(g)) == owner_total(s) + g.owners@.len(),
{
    assert(s.push(g).drop_last() =~= s);
}

pub proof fn lemma_owner_total_update(s: Seq<BadgeGroup>, i: int, g: BadgeGroup)
    requires
        0 <= i < s.len(),
    ensures
        owner_total(s.update(i, g)) == owner_total(s) - s[i].owners@.len() + g.owners@.len(),
    decreases s.len(),
{
    if i < s.len() - 1 {
        lemma_owner_total_update(s.drop_last(), i, g);
        assert(s.update(i, g).drop_last() =~= s.drop_last().update(i, g));
    } else {
        assert(s.update(i, g).drop_last() =~= s.drop_last());
    }
}

pub proof fn lemma_owner_total_prefix(s: Seq<BadgeGroup>, i: int)
    requires
        0 <= i <= s.len(),
    ensures
        owner_total(s.take(i)) <= owner_total(s),
    decreases s.len(),
{
    if i < s.len() {
        lemma_owner_total_prefix(s.drop_last(), i);
        assert(s.drop_last().take(i) =~= s.take(i));
    } else {
        assert(s.take(i) =~= s);
    }
}

/// Pushing an observation a second time changes nothing: the catalog, its
/// number of ownerships and every owner set stay as the first push left them.
pub proof fn lemma_push_idempotent(
    b0: Badges,
    b1: Badges,
    b2: Badges,
    user_id: u32,
    description: Seq<char>,
    image_url: Seq<char>,
    awarded_at: i64,
)
    requires
        Badges::push_relation(b0, b1, user_id, description, image_url, awarded_at),
        Badges::push_relation(b1, b2, user_id, description, image_url, awarded_at),
    ensures
        b2 == b1,
        b2.edge_count() == b1.edge_count(),
        forall|d: Seq<char>, n: Seq<char>| b2.owner_ids(d, n) == b1.owner_ids(d, n),
{
    if let Some(n) = name_from_url(without_query(image_url)) {
        assert(b1.has_edge(description, n, user_id));
        assert(b1.name_map().contains_key(n));
    }
}

/// In a well-formed catalog a (description, name) pair is recorded exactly
/// when some player owns that badge.
pub proof fn lemma_pair_iff_edge(b: Badges)
    requires
        b.wf(),
    ensures
        forall|d: Seq<char>, n: Seq<char>|
            #[trigger] b.has_pair(d, n) <==> exists|u: u32| b.has_edge(d, n, u),
{
    assert forall|d: Seq<char>, n: Seq<char>|
        #[trigger] b.has_pair(d, n) <==> exists|u: u32| b.has_edge(d, n, u) by {
        if b.has_pair(d, n) {
            let i = choose|i: int| 0 <= i < b.groups@.len() && (#[trigger] b.groups@[i]).is(d, n);
            let u = b.groups@[i].owners@[0].user_id;
            assert(b.groups@[i].has_owner(u));
            assert(b.has_edge(d, n, u));
        }
        if exists|u: u32| b.has_edge(d, n, u) {
            let u = choose|u: u32| b.has_edge(d, n, u);
            let i = choose|i: int|
                0 <= i < b.groups@.len() && (#[trigger] b.groups@[i]).is(d, n)
                    && b.groups@[i].has_owner(u);
        }
    }
}

/// Merging is commutative: `a` merged with `b` and `b` merged with `a` hold
/// the same (description, name) pairs, hence the same descriptions, and the
/// same owners under every pair.
pub proof fn lemma_merge_commutes(a: Badges, b: Badges, ab: Badges, ba: Badges)
    requires
        Badges::merge_relation(a, b, ab),
        Badges::merge_relation(b, a, ba),
    ensures
        forall|d: Seq<char>, n: Seq<char>| ab.has_pair(d, n) == ba.has_pair(d, n),
        forall|d: Seq<char>| ab.has_description(d) == ba.has_description(d),
        forall|d: Seq<char>, n: Seq<char>| ab.owner_ids(d, n) == ba.owner_ids(d, n),
{
    assert forall|d: Seq<char>, n: Seq<char>| ab.has_pair(d, n) == ba.has_pair(d, n) by {}
    assert forall|d: Seq<char>| ab.has_description(d) == ba.has_description(d) by {
        if exists|n: Seq<char>| ab.has_pair(d, n) {
            let n = choose|n: Seq<char>| ab.has_pair(d, n);
            assert(ba.has_pair(d, n));
        }
        if exists|n: Seq<char>| ba.has_pair(d, n) {
            let n = choose|n: Seq<char>| ba.has_pair(d, n);
            assert(ab.has_pair(d, n));
        }
    }
    assert forall|d: Seq<char>, n: Seq<char>| ab.owner_ids(d, n) == ba.owner_ids(d, n) by {
        assert(ab.owner_ids(d, n) =~= ba.owner_ids(d, n));
    }
}

/// Merging is associative: both groupings hold the same (description, name)
/// pairs and the same owners under every pair.
pub proof fn lemma_merge_associates(
    a: Badges,
    b: Badges,
    c: Badges,
    ab: Badges,
    ab_c: Badges,
    bc: Badges,
    a_bc: Badges,
)
    requires
        Badges::merge_relation(a, b, ab),
        Badges::merge_relation(ab, c, ab_c),
        Badges::merge_relation(b, c, bc),
        Badges::merge_relation(a, bc, a_bc),
    ensures
        forall|d: Seq<char>, n: Seq<char>| ab_c.has_pair(d, n) == a_bc.has_pair(d, n),
        forall|d: Seq<char>, n: Seq<char>| ab_c.owner_ids(d, n) == a_bc.owner_ids(d, n),
{
    assert forall|d: Seq<char>, n: Seq<char>| ab_c.has_pair(d, n) == a_bc.has_pair(d, n) by {}
    assert forall|d: Seq<char>, n: Seq<char>| ab_c.owner_ids(d, n) == a_bc.owner_ids(d, n) by {
        assert(ab_c.owner_ids(d, n) =~= a_bc.owner_ids(d, n));
    }
}

/// The (description, name, owner) triples of one group.
pub open spec fn group_edges(g: BadgeGroup) -> Set<(Seq<char>, Seq<char>, u32)> {
    g.owners@.map_values(|o: BadgeOwner| (g.description.0@, g.name.0@, o.user_id)).to_set()
}

/// The (description, name, owner) triples of a list of groups.
pub open spec fn prefix_edges(s: Seq<BadgeGroup>) -> Set<(Seq<char>, Seq<char>, u32)>
    decreases s.len(),
{
    if s.len() == 0 {
        Set::empty()
    } else {
        prefix_edges(s.drop_last()) + group_edges(s.last())
    }
}

/// No two groups share a (description, name) pair, and no group lists an
/// owner twice.
pub open spec fn groups_unique(s: Seq<BadgeGroup>) -> bool {
    &&& forall|i: int, j: int|
        0 <= i < j < s.len() ==> !(#[trigger] s[j]).is((#[trigger] s[i]).description.0@, s[i].name.0@)
    &&& forall|i: int, k: int, l: int|
        0 <= i < s.len() && 0 <= k < l < s[i].owners@.len() ==> #[trigger] s[i].owners@[k].user_id
            != #[trigger] s[i].owners@[l].user_id
}

proof fn lemma_prefix_edges(s: Seq<BadgeGroup>)
    requires
        groups_unique(s),
    ensures
        prefix_edges(s).finite(),
        prefix_edges(s).len() == owner_total(s),
        forall|t: (Seq<char>, Seq<char>, u32)|
            #[trigger] prefix_edges(s).contains(t) <==> exists|i: int|
                0 <= i < s.len() && (#[trigger] s[i]).is(t.0, t.1) && s[i].has_owner(t.2),
    decreases s.len(),
{
    if s.len() > 0 {
        let p = s.drop_last();
        assert forall|i: int, j: int| 0 <= i < j < p.len() implies !(#[trigger] p[j]).is(
            (#[trigger] p[i]).description.0@,
            p[i].name.0@,
        ) by {
            assert(!s[j].is(s[i].description.0@, s[i].name.0@));
        }
        assert forall|i: int, k: int, l: int|
            0 <= i < p.len() && 0 <= k < l < p[i].owners@.len() implies #[trigger] p[i].owners@[k].user_id
            != #[trigger] p[i].owners@[l].user_id by {
            assert(s[i] == p[i]);
        }
        lemma_prefix_edges(p);
        let g = s.last();
        let li = s.len() - 1;
        assert(g == s[li]);
        let m = g.owners@.map_values(|o: BadgeOwner| (g.description.0@, g.name.0@, o.user_id));
        assert(m.no_duplicates()) by {
            assert forall|a: int, b: int| 0 <= a < m.len() && 0 <= b < m.len() && a != b implies m[a]
                != m[b] by {
                if a < b {
                    assert(s[li].owners@[a].user_id != s[li].owners@[b].user_id);
                } else {
                    assert(s[li].owners@[b].user_id != s[li].owners@[a].user_id);
                }
            }
        }
        m.unique_seq_to_set();
        seq_to_set_is_finite(m);
        assert forall|t: (Seq<char>, Seq<char>, u32)|
            group_edges(g).contains(t) <==> (g.is(t.0, t.1) && g.has_owner(t.2)) by {
            if group_edges(g).contains(t) {
                let k = choose|k: int| 0 <= k < m.len() && m[k] == t;
                assert(g.owners@[k].user_id == t.2);
            }
            if g.is(t.0, t.1) && g.has_owner(t.2) {
                let k = choose|k: int| 0 <= k < g.owners@.len() && g.owners@[k].user_id == t.2;
                assert(m[k] == t);
            }
        }
        assert(prefix_edges(p).disjoint(group_edges(g))) by {
            assert forall|t: (Seq<char>, Seq<char>, u32)|
                !(prefix_edges(p).contains(t) && group_edges(g).contains(t)) by {
                if prefix_edges(p).contains(t) && group_edges(g).contains(t) {
                    let i = choose|i: int|
                        0 <= i < p.len() && (#[trigger] p[i]).is(t.0, t.1) && p[i].has_owner(t.2);
                    assert(s[i] == p[i]);
                    assert(!s[li].is(s[i].description.0@, s[i].name.0@));
                }
            }
        }
        lemma_set_disjoint_lens(prefix_edges(p), group_edges(g));
        assert forall|t: (Seq<char>, Seq<char>, u32)|
            #[trigger] prefix_edges(s).contains(t) <==> exists|i: int|
                0 <= i < s.len() && (#[trigger] s[i]).is(t.0, t.1) && s[i].has_owner(t.2) by {
            if exists|i: int| 0 <= i < s.len() && (#[trigger] s[i]).is(t.0, t.1) && s[i].has_owner(t.2) {
                let i = choose|i: int|
                    0 <= i < s.len() && (#[trigger] s[i]).is(t.0, t.1) && s[i].has_owner(t.2);
                if i < li {
                    assert(p[i] == s[i]);
                    assert(prefix_edges(p).contains(t));
                } else {
                    assert(group_edges(g).contains(t));
                }
            }
            if prefix_edges(p).contains(t) {
                let i = choose|i: int|
                    0 <= i < p.len() && (#[trigger] p[i]).is(t.0, t.1) && p[i].has_owner(t.2);
                assert(s[i] == p[i]);
            }
        }
    } else {
        assert(prefix_edges(s) =~= Set::<(Seq<char>, Seq<char>, u32)>::empty());
    }
}

/// In a well-formed catalog the number of ownerships is the number of
/// distinct (description, name, owner) triples.
pub proof fn lemma_edge_count_is_distinct(b: Badges)
    requires
        b.wf(),
    ensures
        b.edge_set().finite(),
        b.edge_set().len() == b.edge_count(),
{
    assert(groups_unique(b.groups@));
    lemma_prefix_edges(b.groups@);
    assert(b.edge_set() =~= prefix_edges(b.groups@));
}

impl BadgeGroup {
    pub open spec fn has_owner(&self, user_id: u32) -> bool {
        exists|k: int| 0 <= k < self.owners@.len() && self.owners@[k].user_id == user_id
    }

    pub open spec fn is(&self, description: Seq<char>, name: Seq<char>) -> bool {
        self.description.0@ == description && self.name.0@ == name
    }
}

impl Badges {
    /// Each badge name with its image reference.
    pub open spec fn name_map(&self) -> Map<Seq<char>, Seq<char>> {
        names_map_of(self.names@)
    }

    /// The player `user_id` owns the badge named `name` under `description`.
    pub open spec fn has_edge(&self, description: Seq<char>, name: Seq<char>, user_id: u32) -> bool {
        exists|i: int|
            0 <= i < self.groups@.len() && (#[trigger] self.groups@[i]).is(description, name)
                && self.groups@[i].has_owner(user_id)
    }

    /// The owner record `o` (user id and award date) is listed under
    /// (`description`, `name`).
    pub open spec fn has_record(&self, description: Seq<char>, name: Seq<char>, o: BadgeOwner) -> bool {
        exists|i: int, k: int|
            0 <= i < self.groups@.len() && self.groups@[i].is(description, name) && 0 <= k
                < self.groups@[i].owners@.len() && #[trigger] self.groups@[i].owners@[k] == o
    }

    /// Some badge named `name` is recorded under `description`.
    pub open spec fn has_pair(&self, description: Seq<char>, name: Seq<char>) -> bool {
        exists|i: int| 0 <= i < self.groups@.len() && (#[trigger] self.groups@[i]).is(description, name)
    }

    /// Some badge is recorded under `description`.
    pub open spec fn has_description(&self, description: Seq<char>) -> bool {
        exists|n: Seq<char>| self.has_pair(description, n)
    }

    /// Every (description, name, owner) triple.
    pub open spec fn edge_set(&self) -> Set<(Seq<char>, Seq<char>, u32)> {
        Set::new(|t: (Seq<char>, Seq<char>, u32)| self.has_edge(t.0, t.1, t.2))
    }

    /// The owners of the badge named `name` under `description`.
    pub open spec fn owner_ids(&self, description: Seq<char>, name: Seq<char>) -> Set<u32> {
        Set::new(|u: u32| self.has_edge(description, name, u))
    }

    /// The number of (description, name, owner) triples.
    pub open spec fn edge_count(&self) -> nat {
        owner_total(self.groups@)
    }

    /// Names are unique, (description, name) pairs are unique, owners are
    /// unique within a pair, every name under a description is named, and
    /// every pair has at least one owner.
    pub open spec fn wf(&self) -> bool {
        &&& forall|i: int, j: int|
            0 <= i < j < self.names@.len() ==> self.names@[i].0.0@ != self.names@[j].0.0@
        &&& forall|i: int, j: int|
            0 <= i < j < self.groups@.len() ==> !(#[trigger] self.groups@[j]).is(
                (#[trigger] self.groups@[i]).description.0@,
                self.groups@[i].name.0@,
            )
        &&& forall|i: int, k: int, l: int|
            0 <= i < self.groups@.len() && 0 <= k < l < self.groups@[i].owners@.len()
                ==> #[trigger] self.groups@[i].owners@[k].user_id
                != #[trigger] self.groups@[i].owners@[l].user_id
        &&& forall|i: int|
            0 <= i < self.groups@.len() ==> self.name_map().contains_key(
                (#[trigger] self.groups@[i]).name.0@,
            )
        &&& forall|i: int| 0 <= i < self.groups@.len() ==> (#[trigger] self.groups@[i]).owners@.len() > 0
    }

    /// What `push` does: an observation whose image gives no name changes
    /// nothing; otherwise its name is recorded if new (first image wins), its
    /// owner is added under (description, name), and an observation already
    /// recorded changes nothing.
    pub open spec fn push_relation(
        before: Badges,
        after: Badges,
        user_id: u32,
        description: Seq<char>,
        image_url: Seq<char>,
        awarded_at: i64,
    ) -> bool {
        match name_from_url(without_query(image_url)) {
            None => after == before,
            Some(n) => {
                &&& after.name_map() == (if before.name_map().contains_key(n) {
                    before.name_map()
                } else {
                    before.name_map().insert(n, without_query(image_url))
                })
                &&& forall|d: Seq<char>, m: Seq<char>, u: u32|
                    #[trigger] after.has_edge(d, m, u) <==> before.has_edge(d, m, u) || (d
                        == description && m == n && u == user_id)
                &&& after.edge_count() == before.edge_count() + (if before.has_edge(
                    description,
                    n,
                    user_id,
                ) {
                    0nat
                } else {
                    1nat
                })
                &&& (before.name_map().contains_key(n) && before.has_edge(description, n, user_id))
                    ==> after == before
                &&& !before.has_edge(description, n, user_id) ==> after.has_record(
                    description,
                    n,
                    BadgeOwner { user_id, awarded_at },
                )
                &&& forall|d: Seq<char>, m: Seq<char>, o: BadgeOwner|
                    #[trigger] before.has_record(d, m, o) ==> after.has_record(d, m, o)
            },
        }
    }

    /// An empty catalog.
    pub fn with_capacity(capacity: usize) -> (r: Badges)
        ensures
            r.names@.len() == 0,
            r.groups@.len() == 0,
            r.wf(),
    {
        Badges { names: Vec::with_capacity(capacity), groups: Vec::with_capacity(capacity) }
    }

    fn find_name(&self, name: &String) -> (r: Option<usize>)
        ensures
            match r {
                Some(i) => i < self.names@.len() && self.names@[i as int].0.0@ == name@,
                None => forall|i: int| 0 <= i < self.names@.len() ==> self.names@[i].0.0@ != name@,
            },
    {
        let mut i: usize = 0;
        while i < self.names.len()
            invariant
                i <= self.names@.len(),
                forall|j: int| 0 <= j < i ==> self.names@[j].0.0@ != name@,
            decreases self.names@.len() - i,
        {
            if self.names[i].0.0 == *name {
                return Some(i);
            }
            i += 1;
        }
        None
    }

    /// Whether `name` is a known badge name.
    pub fn has_name(&self, name: &String) -> (r: bool)
        ensures
            r == self.name_map().contains_key(name@),
    {
        proof {
            lemma_names_map_dom(self.names@, name@);
        }
        self.find_name(name).is_some()
    }

    /// Records `name` with its image unless the name is already known.
    pub fn add_name(&mut self, name: String, image_url: String)
        requires
            old(self).wf(),
        ensures
            final(self).wf(),
            final(self).groups@ == old(self).groups@,
            final(self).name_map() == (if old(self).name_map().contains_key(name@) {
                old(self).name_map()
            } else {
                old(self).name_map().insert(name@, image_url@)
            }),
            old(self).name_map().contains_key(name@) ==> *final(self) == *old(self),
    {
        proof {
            lemma_names_map_dom(self.names@, name@);
        }
        if self.find_name(&name).is_none() {
            let ghost before = *self;
            proof {
                lemma_names_map_push(self.names@, (BadgeName(name), BadgeImageUrl(image_url)));
            }
            self.names.push((BadgeName(name), BadgeImageUrl(image_url)));
            proof {
                assert forall|i: int| 0 <= i < self.groups@.len() implies self.name_map().contains_key(
                    (#[trigger] self.groups@[i]).name.0@,
                ) by {
                    assert(before.name_map().contains_key(before.groups@[i].name.0@));
                }
            }
        }
    }

    fn find_group(&self, description: &String, name: &String) -> (r: Option<usize>)
        ensures
            match r {
                Some(i) => i < self.groups@.len() && self.groups@[i as int].is(description@, name@),
                None => forall|i: int|
                    0 <= i < self.groups@.len() ==> !(#[trigger] self.groups@[i]).is(
                        description@,
                        name@,
                    ),
            },
    {
        let mut i: usize = 0;
        while i < self.groups.len()
            invariant
                i <= self.groups@.len(),
                forall|j: int| 0 <= j < i ==> !(#[trigger] self.groups@[j]).is(description@, name@),
            decreases self.groups@.len() - i,
        {
            if self.groups[i].description.0 == *description && self.groups[i].name.0 == *name {
                return Some(i);
            }
            i += 1;
        }
        None
    }

    /// Adds `owner` to the owners of the badge named `name` under `description`;
    /// an owner with the same user id already there stays as it is.
    pub fn add_owner(&mut self, description: &String, name: &String, owner: BadgeOwner)
        requires
            old(self).wf(),
            old(self).name_map().contains_key(name@),
        ensures
            final(self).wf(),
            final(self).names@ == old(self).names@,
            forall|d: Seq<char>, m: Seq<char>, u: u32|
                #[trigger] final(self).has_edge(d, m, u) <==> old(self).has_edge(d, m, u) || (d
                    == description@ && m == name@ && u == owner.user_id),
            final(self).edge_count() == old(self).edge_count() + (if old(self).has_edge(
                description@,
                name@,
                owner.user_id,
            ) {
                0nat
            } else {
                1nat
            }),
            old(self).has_edge(description@, name@, owner.user_id) ==> *final(self) == *old(self),
            !old(self).has_edge(description@, name@, owner.user_id) ==> final(self).has_record(
                description@,
                name@,
                owner,
            ),
            forall|d: Seq<char>, m: Seq<char>, o: BadgeOwner|
                #[trigger] old(self).has_record(d, m, o) ==> final(self).has_record(d, m, o),
    {
        let ghost before = *self;
        match self.find_group(description, name) {
            Some(i) => {
                let mut k: usize = 0;
                let n = self.groups[i].owners.len();
                while k < n
                    invariant
                        *self == before,
                        before.wf(),
                        i < self.groups@.len(),
                        self.groups@[i as int].is(description@, name@),
                        n == self.groups@[i as int].owners@.len(),
                        k <= n,
                        forall|j: int|
                            0 <= j < k ==> self.groups@[i as int].owners@[j].user_id
                                != owner.user_id,
                    decreases n - k,
                {
                    if self.groups[i].owners[k].user_id == owner.user_id {
                        proof {
                            assert(self.groups@[i as int].has_owner(owner.user_id));
                            assert(before.has_edge(description@, name@, owner.user_id));
                        }
                        return;
                    }
                    k += 1;
                }
                proof {
                    assert(!self.groups@[i as int].has_owner(owner.user_id));
                    assert forall|j: int|
                        0 <= j < self.groups@.len() && (#[trigger] self.groups@[j]).is(
                            description@,
                            name@,
                        ) implies j == i by {
                        if j < i {
                            assert(!self.groups@[i as int].is(
                                self.groups@[j].description.0@,
                                self.groups@[j].name.0@,
                            ));
                        }
                        if j > i {
                            assert(!self.groups@[j].is(
                                self.groups@[i as int].description.0@,
                                self.groups@[i as int].name.0@,
                            ));
                        }
                    }
                    assert(!before.has_edge(description@, name@, owner.user_id));
                }
                self.groups[i].owners.push(owner);
                proof {
                    lemma_owner_total_update(before.groups@, i as int, self.groups@[i as int]);
                    assert(self.groups@ =~= before.groups@.update(i as int, self.groups@[i as int]));
                    assert(self.name_map() == before.name_map());
                    let g = self.groups@[i as int];
                    assert(g.owners@ == before.groups@[i as int].owners@.push(owner));
                    assert(g.owners@.last().user_id == owner.user_id);
                    assert forall|d: Seq<char>, m: Seq<char>, u: u32|
                        #[trigger] self.has_edge(d, m, u) <==> before.has_edge(d, m, u) || (d
                            == description@ && m == name@ && u == owner.user_id) by {
                        if self.has_edge(d, m, u) {
                            let j = choose|j: int|
                                0 <= j < self.groups@.len() && (#[trigger] self.groups@[j]).is(d, m)
                                    && self.groups@[j].has_owner(u);
                            let kk = choose|kk: int|
                                0 <= kk < self.groups@[j].owners@.len()
                                    && self.groups@[j].owners@[kk].user_id == u;
                            if j != i || kk < before.groups@[i as int].owners@.len() {
                                assert(before.groups@[j].owners@[kk] == self.groups@[j].owners@[kk]);
                                assert(before.groups@[j].is(d, m));
                                assert(before.groups@[j].has_owner(u));
                            }
                        }
                        if before.has_edge(d, m, u) {
                            let j = choose|j: int|
                                0 <= j < before.groups@.len() && (#[trigger] before.groups@[j]).is(
                                    d,
                                    m,
                                ) && before.groups@[j].has_owner(u);
                            let kk = choose|kk: int|
                                0 <= kk < before.groups@[j].owners@.len()
                                    && before.groups@[j].owners@[kk].user_id == u;
                            assert(self.groups@[j].owners@[kk] == before.groups@[j].owners@[kk]);
                            assert(self.groups@[j].is(d, m));
                            assert(self.groups@[j].has_owner(u));
                        }
                        if d == description@ && m == name@ && u == owner.user_id {
                            let last = (g.owners@.len() - 1) as int;
                            assert(g.owners@[last].user_id == u);
                            assert(self.groups@[i as int].is(d, m));
                            assert(self.groups@[i as int].has_owner(u));
                        }
                    }
                    assert forall|a: int, k1: int, l1: int|
                        0 <= a < self.groups@.len() && 0 <= k1 < l1
                            < self.groups@[a].owners@.len() implies #[trigger] self.groups@[a].owners@[k1].user_id
                        != #[trigger] self.groups@[a].owners@[l1].user_id by {
                        if a == i && l1 == self.groups@[a].owners@.len() - 1 {
                            assert(self.groups@[a].owners@[k1] == before.groups@[a].owners@[k1]);
                        }
                    }
                    assert forall|a: int, b: int|
                        0 <= a < b < self.groups@.len() implies !(#[trigger] self.groups@[b]).is(
                        (#[trigger] self.groups@[a]).description.0@,
                        self.groups@[a].name.0@,
                    ) by {
                        assert(!before.groups@[b].is(
                            before.groups@[a].description.0@,
                            before.groups@[a].name.0@,
                        ));
                    }
                    assert forall|a: int| 0 <= a < self.groups@.len() implies self.name_map().contains_key(
                        (#[trigger] self.groups@[a]).name.0@,
                    ) by {
                        assert(before.name_map().contains_key(before.groups@[a].name.0@));
                    }
                    let last = (g.owners@.len() - 1) as int;
                    assert(self.groups@[i as int].owners@[last] == owner);
                    assert(self.has_record(description@, name@, owner));
                    assert forall|d: Seq<char>, m: Seq<char>, o: BadgeOwner|
                        #[trigger] before.has_record(d, m, o) implies self.has_record(d, m, o) by {
                        let (a, k) = choose|a: int, k: int|
                            0 <= a < before.groups@.len() && before.groups@[a].is(d, m) && 0 <= k
                                < before.groups@[a].owners@.len()
                                && #[trigger] before.groups@[a].owners@[k] == o;
                        assert(self.groups@[a].owners@[k] == o);
                        assert(self.groups@[a].is(d, m));
                    }
                }
            },
            None => {
                proof {
                    assert(!before.has_edge(description@, name@, owner.user_id));
                }
                let mut owners: Vec<BadgeOwner> = Vec::new();
                owners.push(owner);
                let group = BadgeGroup {
                    description: BadgeDescription(description.clone()),
                    name: BadgeName(name.clone()),
                    owners,
                };
                proof {
                    lemma_owner_total_push(self.groups@, group);
                }
                self.groups.push(group);
                proof {
                    let gl = self.groups@.len() - 1;
                    assert(self.groups@[gl].owners@[0].user_id == owner.user_id);
                    assert forall|d: Seq<char>, m: Seq<char>, u: u32|
                        #[trigger] self.has_edge(d, m, u) <==> before.has_edge(d, m, u) || (d
                            == description@ && m == name@ && u == owner.user_id) by {
                        if self.has_edge(d, m, u) {
                            let j = choose|j: int|
                                0 <= j < self.groups@.len() && (#[trigger] self.groups@[j]).is(d, m)
                                    && self.groups@[j].has_owner(u);
                            if j < gl {
                                assert(before.groups@[j] == self.groups@[j]);
                            } else {
                                let kk = choose|kk: int|
                                    0 <= kk < self.groups@[j].owners@.len()
                                        && self.groups@[j].owners@[kk].user_id == u;
                                assert(kk == 0);
                            }
                        }
                        if before.has_edge(d, m, u) {
                            let j = choose|j: int|
                                0 <= j < before.groups@.len() && (#[trigger] before.groups@[j]).is(
                                    d,
                                    m,
                                ) && before.groups@[j].has_owner(u);
                            assert(self.groups@[j] == before.groups@[j]);
                        }
                        if d == description@ && m == name@ && u == owner.user_id {
                            assert(self.groups@[gl].is(d, m));
                            assert(self.groups@[gl].has_owner(u));
                        }
                    }
                    assert forall|a: int, b: int|
                        0 <= a < b < self.groups@.len() implies !(#[trigger] self.groups@[b]).is(
                        (#[trigger] self.groups@[a]).description.0@,
                        self.groups@[a].name.0@,
                    ) by {
                        if b < gl {
                            assert(!before.groups@[b].is(
                                before.groups@[a].description.0@,
                                before.groups@[a].name.0@,
                            ));
                        } else {
                            assert(!before.groups@[a].is(description@, name@));
                        }
                    }
                    assert forall|a: int, k1: int, l1: int|
                        0 <= a < self.groups@.len() && 0 <= k1 < l1
                            < self.groups@[a].owners@.len() implies #[trigger] self.groups@[a].owners@[k1].user_id
                        != #[trigger] self.groups@[a].owners@[l1].user_id by {
                        if a < gl {
                            assert(self.groups@[a] == before.groups@[a]);
                        }
                    }
                    assert forall|a: int| 0 <= a < self.groups@.len() implies self.name_map().contains_key(
                        (#[trigger] self.groups@[a]).name.0@,
                    ) by {
                        if a < gl {
                            assert(before.name_map().contains_key(before.groups@[a].name.0@));
                        }
                    }
                    assert(self.groups@[gl].owners@[0] == owner);
                    assert(self.has_record(description@, name@, owner));
                    assert forall|d: Seq<char>, m: Seq<char>, o: BadgeOwner|
                        #[trigger] before.has_record(d, m, o) implies self.has_record(d, m, o) by {
                        let (a, k) = choose|a: int, k: int|
                            0 <= a < before.groups@.len() && before.groups@[a].is(d, m) && 0 <= k
                                < before.groups@[a].owners@.len()
                                && #[trigger] before.groups@[a].owners@[k] == o;
                        assert(self.groups@[a] == before.groups@[a]);
                    }
                }
            },
        }
    }

    /// What `merge` does: names are united, a name already here keeping its
    /// image; the (description, name) pairs are those of either; every owner
    /// set becomes the union of the two, and records already here stay.
    pub open spec fn merge_relation(before: Badges, other: Badges, after: Badges) -> bool {
        &&& after.name_map() == other.name_map().union_prefer_right(before.name_map())
        &&& forall|d: Seq<char>, m: Seq<char>, u: u32|
            #[trigger] after.has_edge(d, m, u) <==> before.has_edge(d, m, u) || other.has_edge(
                d,
                m,
                u,
            )
        &&& forall|d: Seq<char>, m: Seq<char>, o: BadgeOwner|
            #[trigger] before.has_record(d, m, o) ==> after.has_record(d, m, o)
        &&& forall|d: Seq<char>, m: Seq<char>, o: BadgeOwner|
            #[trigger] other.has_record(d, m, o) && !before.has_edge(d, m, o.user_id)
                ==> after.has_record(d, m, o)
        &&& forall|d: Seq<char>, m: Seq<char>|
            #[trigger] after.has_pair(d, m) <==> before.has_pair(d, m) || other.has_pair(d, m)
    }

    /// Records one badge observation of player `user_id`. An observation whose
    /// image reference gives no badge name is dropped.
    pub fn push(&mut self, user_id: u32, badge: &RawBadge)
        requires
            old(self).wf(),
        ensures
            final(self).wf(),
            Badges::push_relation(
                *old(self),
                *final(self),
                user_id,
                badge.description@,
                badge.image_url@,
                badge.awarded_at,
            ),
    {
        let url = strip_query(badge.image_url.as_str());
        let name = match badge_name(url.as_str()) {
            Some(n) => n,
            None => return ,
        };
        let ghost before = *self;
        self.add_name(name.clone(), url);
        let ghost mid = *self;
        proof {
            assert(mid.groups@ == before.groups@);
            assert forall|d: Seq<char>, m: Seq<char>, u: u32|
                mid.has_edge(d, m, u) == before.has_edge(d, m, u) by {}
            assert forall|d: Seq<char>, m: Seq<char>, o: BadgeOwner|
                mid.has_record(d, m, o) == before.has_record(d, m, o) by {}
        }
        let owner = BadgeOwner { user_id, awarded_at: badge.awarded_at };
        self.add_owner(&badge.description, &name, owner);
    }

    /// Unites `other` into this catalog: names that are new here are added,
    /// names already here keep their image, and owner sets are united.
    pub fn merge(&mut self, other: Badges)
        requires
            old(self).wf(),
            other.wf(),
        ensures
            final(self).wf(),
            Badges::merge_relation(*old(self), other, *final(self)),
    {
        let ghost before = *self;
        let mut i: usize = 0;
        while i < other.names.len()
            invariant
                self.wf(),
                other.wf(),
                self.groups@ == before.groups@,
                i <= other.names@.len(),
                self.name_map() == names_map_of(other.names@.take(i as int)).union_prefer_right(
                    before.name_map(),
                ),
            decreases other.names@.len() - i,
        {
            let n = other.names[i].0.0.clone();
            let url = other.names[i].1.0.clone();
            proof {
                let p = other.names@.take(i as int);
                lemma_names_map_dom(p, n@);
                assert forall|j: int| 0 <= j < p.len() implies p[j].0.0@ != n@ by {
                    assert(other.names@[j].0.0@ != other.names@[i as int].0.0@);
                }
                assert(other.names@.take(i + 1) =~= p.push(other.names@[i as int]));
                lemma_names_map_push(p, other.names@[i as int]);
            }
            self.add_name(n, url);
            proof {
                let p = other.names@.take(i as int);
                let q = other.names@.take(i + 1);
                assert(self.name_map() =~= names_map_of(q).union_prefer_right(before.name_map()));
            }
            i += 1;
        }
        proof {
            assert(other.names@.take(other.names@.len() as int) =~= other.names@);
            assert forall|d: Seq<char>, m: Seq<char>, u: u32|
                self.has_edge(d, m, u) == before.has_edge(d, m, u) by {}
            assert forall|d: Seq<char>, m: Seq<char>, o: BadgeOwner|
                self.has_record(d, m, o) == before.has_record(d, m, o) by {}
        }
        let ghost names = self.name_map();
        let mut g: usize = 0;
        while g < other.groups.len()
            invariant
                self.wf(),
                other.wf(),
                self.name_map() == names,
                names == other.name_map().union_prefer_right(before.name_map()),
                g <= other.groups@.len(),
                forall|d: Seq<char>, m: Seq<char>, u: u32|
                    #[trigger] self.has_edge(d, m, u) <==> before.has_edge(d, m, u) || exists|
                        j: int,
                    |
                        0 <= j < g && (#[trigger] other.groups@[j]).is(d, m)
                            && other.groups@[j].has_owner(u),
                forall|d: Seq<char>, m: Seq<char>, o: BadgeOwner|
                    #[trigger] before.has_record(d, m, o) ==> self.has_record(d, m, o),
                forall|j: int, kk: int|
                    0 <= j < g && 0 <= kk < other.groups@[j].owners@.len() && !before.has_edge(
                        other.groups@[j].description.0@,
                        other.groups@[j].name.0@,
                        (#[trigger] other.groups@[j].owners@[kk]).user_id,
                    ) ==> self.has_record(
                        other.groups@[j].description.0@,
                        other.groups@[j].name.0@,
                        other.groups@[j].owners@[kk],
                    ),
            decreases other.groups@.len() - g,
        {
            let group = &other.groups[g];
            proof {
                assert(other.name_map().contains_key(other.groups@[g as int].name.0@));
            }
            let mut k: usize = 0;
            while k < group.owners.len()
                invariant
                    self.wf(),
                    other.wf(),
                    *group == other.groups@[g as int],
                    g < other.groups@.len(),
                    self.name_map() == names,
                    names.contains_key(group.name.0@),
                    k <= group.owners@.len(),
                    forall|d: Seq<char>, m: Seq<char>, u: u32|
                        #[trigger] self.has_edge(d, m, u) <==> before.has_edge(d, m, u) || (exists|
                            j: int,
                        |
                            0 <= j < g && (#[trigger] other.groups@[j]).is(d, m)
                                && other.groups@[j].has_owner(u)) || (group.is(d, m) && exists|
                            kk: int,
                        |
                            0 <= kk < k && (#[trigger] group.owners@[kk]).user_id == u),
                    forall|d: Seq<char>, m: Seq<char>, o: BadgeOwner|
                        #[trigger] before.has_record(d, m, o) ==> self.has_record(d, m, o),
                    forall|j: int, kk: int|
                        0 <= j < g && 0 <= kk < other.groups@[j].owners@.len() && !before.has_edge(
                            other.groups@[j].description.0@,
                            other.groups@[j].name.0@,
                            (#[trigger] other.groups@[j].owners@[kk]).user_id,
                        ) ==> self.has_record(
                            other.groups@[j].description.0@,
                            other.groups@[j].name.0@,
                            other.groups@[j].owners@[kk],
                        ),
                    forall|kk: int|
                        0 <= kk < k && !before.has_edge(
                            group.description.0@,
                            group.name.0@,
                            (#[trigger] group.owners@[kk]).user_id,
                        ) ==> self.has_record(group.description.0@, group.name.0@, group.owners@[kk]),
                decreases group.owners@.len() - k,
            {
                let owner = group.owners[k];
                proof {
                    if !before.has_edge(group.description.0@, group.name.0@, owner.user_id) {
                        assert(!self.has_edge(group.description.0@, group.name.0@, owner.user_id)) by {
                            if exists|j: int|
                                0 <= j < g && (#[trigger] other.groups@[j]).is(
                                    group.description.0@,
                                    group.name.0@,
                                ) && other.groups@[j].has_owner(owner.user_id) {
                                let j = choose|j: int|
                                    0 <= j < g && (#[trigger] other.groups@[j]).is(
                                        group.description.0@,
                                        group.name.0@,
                                    ) && other.groups@[j].has_owner(owner.user_id);
                                assert(!other.groups@[g as int].is(
                                    other.groups@[j].description.0@,
                                    other.groups@[j].name.0@,
                                ));
                            }
                            if exists|kk: int|
                                0 <= kk < k && (#[trigger] group.owners@[kk]).user_id
                                    == owner.user_id {
                                let kk = choose|kk: int|
                                    0 <= kk < k && (#[trigger] group.owners@[kk]).user_id
                                        == owner.user_id;
                                assert(other.groups@[g as int].owners@[kk].user_id
                                    != other.groups@[g as int].owners@[k as int].user_id);
                            }
                        }
                    }
                }
                self.add_owner(&group.description.0, &group.name.0, owner);
                k += 1;
                proof {
                    assert forall|d: Seq<char>, m: Seq<char>, u: u32|
                        #[trigger] self.has_edge(d, m, u) <==> before.has_edge(d, m, u) || (exists|
                            j: int,
                        |
                            0 <= j < g && (#[trigger] other.groups@[j]).is(d, m)
                                && other.groups@[j].has_owner(u)) || (group.is(d, m) && exists|
                            kk: int,
                        |
                            0 <= kk < k && (#[trigger] group.owners@[kk]).user_id == u) by {
                        if group.is(d, m) && u == owner.user_id {
                            assert(group.owners@[k - 1].user_id == u);
                        }
                    }
                }
            }
            proof {
                assert forall|j: int, kk: int|
                    0 <= j < g + 1 && 0 <= kk < other.groups@[j].owners@.len() && !before.has_edge(
                        other.groups@[j].description.0@,
                        other.groups@[j].name.0@,
                        (#[trigger] other.groups@[j].owners@[kk]).user_id,
                    ) implies self.has_record(
                    other.groups@[j].description.0@,
                    other.groups@[j].name.0@,
                    other.groups@[j].owners@[kk],
                ) by {
                    if j == g {
                        assert(group.owners@[kk] == other.groups@[j].owners@[kk]);
                    }
                }
                assert forall|d: Seq<char>, m: Seq<char>, u: u32|
                    #[trigger] self.has_edge(d, m, u) <==> before.has_edge(d, m, u) || exists|
                        j: int,
                    |
                        0 <= j < g + 1 && (#[trigger] other.groups@[j]).is(d, m)
                            && other.groups@[j].has_owner(u) by {
                    if group.is(d, m) && group.has_owner(u) {
                        assert(other.groups@[g as int].is(d, m));
                    }
                    if exists|j: int|
                        0 <= j < g + 1 && (#[trigger] other.groups@[j]).is(d, m)
                            && other.groups@[j].has_owner(u) {
                        let j = choose|j: int|
                            0 <= j < g + 1 && (#[trigger] other.groups@[j]).is(d, m)
                                && other.groups@[j].has_owner(u);
                        if j == g {
                            let kk = choose|kk: int|
                                0 <= kk < group.owners@.len() && group.owners@[kk].user_id == u;
                            assert(group.owners@[kk].user_id == u);
                        }
                    }
                }
            }
            g += 1;
        }
        proof {
            assert forall|d: Seq<char>, m: Seq<char>, o: BadgeOwner|
                #[trigger] other.has_record(d, m, o) && !before.has_edge(d, m, o.user_id)
                    implies self.has_record(d, m, o) by {
                let (j, kk) = choose|j: int, kk: int|
                    0 <= j < other.groups@.len() && other.groups@[j].is(d, m) && 0 <= kk
                        < other.groups@[j].owners@.len() && #[trigger] other.groups@[j].owners@[kk]
                        == o;
                assert(other.groups@[j].owners@[kk] == o);
            }
            lemma_pair_iff_edge(before);
            lemma_pair_iff_edge(other);
            lemma_pair_iff_edge(*self);
            assert forall|d: Seq<char>, m: Seq<char>|
                #[trigger] self.has_pair(d, m) <==> before.has_pair(d, m) || other.has_pair(d, m) by {
                if self.has_pair(d, m) {
                    let u = choose|u: u32| self.has_edge(d, m, u);
                    assert(before.has_edge(d, m, u) || other.has_edge(d, m, u));
                }
                if before.has_pair(d, m) {
                    let u = choose|u: u32| before.has_edge(d, m, u);
                    assert(self.has_edge(d, m, u));
                }
                if other.has_pair(d, m) {
                    let u = choose|u: u32| other.has_edge(d, m, u);
                    assert(self.has_edge(d, m, u));
                }
            }
        }
    }

    /// The number of badge ownerships: distinct (description, name, owner) triples.
    pub fn len(&self) -> (r: usize)
        requires
            self.wf(),
            self.edge_count() <= usize::MAX,
        ensures
            r == self.edge_count(),
            r == self.edge_set().len(),
    {
        proof {
            lemma_edge_count_is_distinct(*self);
        }
        let mut total: usize = 0;
        let mut i: usize = 0;
        while i < self.groups.len()
            invariant
                i <= self.groups@.len(),
                total == owner_total(self.groups@.take(i as int)),
                owner_total(self.groups@) <= usize::MAX,
            decreases self.groups@.len() - i,
        {
            proof {
                assert(self.groups@.take(i + 1).drop_last() =~= self.groups@.take(i as int));
                lemma_owner_total_prefix(self.groups@, i + 1);
            }
            total = total + self.groups[i].owners.len();
            i += 1;
        }
        proof {
            assert(self.groups@.take(i as int) =~= self.groups@);
        }
        total
    }

    /// Whether no badge ownership has been recorded under any description.
    pub fn is_empty(&self) -> (r: bool)
        ensures
            r == (self.groups@.len() == 0),
    {
        self.groups.len() == 0
    }
}

/// A badge as the ranking site lists it: its id, description, owners and image.
/// Two of them are the same badge when their ids are equal.
pub struct SlimBadge {
    pub id: u32,
    pub description: String,
    pub users: Vec<u32>,
    pub image_url: String,
}

impl SlimBadge {
    pub fn same_badge(&self, other: &SlimBadge) -> (r: bool)
        ensures
            r == (self.id == other.id),
    {
        self.id == other.id
    }
}

} // verus!
