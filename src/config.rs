//! Configuration values and the parsing of id lists from the environment.
use vstd::prelude::*;
use vstd::string::StringExecFns;

use crate::task::Task;
use crate::text::{chars_of, pieces, split_chars, trim, trimmed};

verus! {

/// Credentials: the upload key and the game API's client id and secret.
pub struct Tokens {
    pub post: String,
    pub osu_client_id: u64,
    pub osu_client_secret: String,
}

/// The run options.
pub struct Args {
    pub delay: u64,
    pub extras: Vec<u32>,
    pub interval: u64,
    pub progress: bool,
    pub quiet: bool,
    pub debug: bool,
}

pub open spec fn is_digit(c: char) -> bool {
    '0' <= c && c <= '9'
}

/// The number that a string of decimal digits writes.
pub open spec fn digits_value(s: Seq<char>) -> nat
    decreases s.len(),
{
    if s.len() == 0 {
        0
    } else {
        digits_value(s.drop_last()) * 10 + ((s.last() as u32) - 48) as nat
    }
}

/// `s` without a leading `+` that has more after it.
pub open spec fn sign_stripped(s: Seq<char>) -> Seq<char> {
    if s.len() > 1 && s[0] == '+' {
        s.drop_first()
    } else {
        s
    }
}

pub open spec fn all_digits(d: Seq<char>) -> bool {
    forall|i: int| 0 <= i < d.len() ==> is_digit(#[trigger] d[i])
}

/// What `u32::from_str` reads from `s`: an optional `+`, then one or more
/// decimal digits whose value fits in 32 bits.
pub open spec fn u32_text(s: Seq<char>) -> Option<u32> {
    let d = sign_stripped(s);
    if d.len() > 0 && all_digits(d) && digits_value(d) <= u32::MAX {
        Some(digits_value(d) as u32)
    } else {
        None
    }
}

proof fn lemma_digits_grow(s: Seq<char>, k: int)
    requires
        0 <= k <= s.len(),
        forall|i: int| 0 <= i < s.len() ==> is_digit(#[trigger] s[i]),
    ensures
        digits_value(s.take(k)) <= digits_value(s),
    decreases s.len(),
{
    if k < s.len() {
        assert(s.drop_last().take(k) =~= s.take(k));
        assert forall|i: int| 0 <= i < s.drop_last().len() implies is_digit(
            #[trigger] s.drop_last()[i],
        ) by {
            assert(s.drop_last()[i] == s[i]);
        }
        lemma_digits_grow(s.drop_last(), k);
    } else {
        assert(s.take(k) =~= s);
    }
}

/// Reads a 32-bit unsigned number as `u32::from_str` does.
pub fn parse_u32(s: &str) -> (r: Option<u32>)
    ensures
        r == u32_text(s@),
{
    let cs = chars_of(s);
    let start: usize = if cs.len() > 1 && cs[0] == '+' {
        1
    } else {
        0
    };
    let ghost d = sign_stripped(s@);
    proof {
        assert(d =~= cs@.skip(start as int));
    }
    if cs.len() == start {
        return None;
    }
    let mut value: u64 = 0;
    let mut i: usize = start;
    while i < cs.len()
        invariant
            cs@ == s@,
            start <= i <= cs@.len(),
            d == cs@.skip(start as int),
            d == sign_stripped(s@),
            d.len() > 0,
            forall|j: int| 0 <= j < i - start ==> is_digit(#[trigger] d[j]),
            value == digits_value(d.take(i - start)),
            value <= u32::MAX,
        decreases cs@.len() - i,
    {
        let c = cs[i];
        if !('0' <= c && c <= '9') {
            proof {
                assert(d[i - start] == cs@[i as int]);
                assert(!is_digit(d[i - start]));
                assert(!all_digits(d));
                assert(u32_text(s@) is None);
            }
            return None;
        }
        let ghost k = (i - start) as int;
        proof {
            assert(d.take(k + 1).drop_last() =~= d.take(k));
            assert(d[k] == cs@[i as int]);
            assert(d.take(k + 1).last() == c);
        }
        let next = value * 10 + ((c as u32) - 48) as u64;
        if next > 4294967295 {
            proof {
                assert(digits_value(d.take(k + 1)) == next);
                if all_digits(d) {
                    lemma_digits_grow(d, k + 1);
                    assert(digits_value(d) > u32::MAX);
                }
                assert(u32_text(s@) is None);
            }
            return None;
        }
        value = next;
        i += 1;
    }
    proof {
        assert(d.take(d.len() as int) =~= d);
    }
    Some(value as u32)
}

/// The ids that a `,`-separated list holds: empty pieces (after trimming)
/// are skipped; none if a piece is not a number.
pub open spec fn id_list(ps: Seq<Seq<char>>) -> Option<Seq<u32>>
    decreases ps.len(),
{
    if ps.len() == 0 {
        Some(Seq::empty())
    } else {
        match id_list(ps.drop_last()) {
            None => None,
            Some(v) => {
                let t = trim(ps.last());
                if t.len() == 0 {
                    Some(v)
                } else {
                    match u32_text(t) {
                        Some(x) => Some(v.push(x)),
                        None => None,
                    }
                }
            },
        }
    }
}

proof fn lemma_id_list_fails(ps: Seq<Seq<char>>, n: int)
    requires
        1 <= n <= ps.len(),
        id_list(ps.take(n)) is None,
    ensures
        id_list(ps) is None,
    decreases ps.len(),
{
    if n < ps.len() {
        assert(ps.drop_last().take(n) =~= ps.take(n));
        lemma_id_list_fails(ps.drop_last(), n);
    } else {
        assert(ps.take(n) =~= ps);
    }
}

/// A list of extra user ids that does not parse; it holds the list.
pub struct ExtraUsersError {
    pub input: String,
}

impl ExtraUsersError {
    pub fn message(&self) -> (r: String)
        ensures
            r@ == "failed to parse env variable `EXTRA_USERS=\""@ + self.input@
                + "\"`; expected a list of comma-separated user ids"@,
    {
        let mut r = String::from_str("failed to parse env variable `EXTRA_USERS=\"");
        r.append(self.input.as_str());
        r.append("\"`; expected a list of comma-separated user ids");
        r
    }
}

/// The user ids of a `,`-separated list; pieces that are empty after
/// trimming are skipped.
pub fn parse_extra_users(s: &str) -> (r: Result<Vec<u32>, ExtraUsersError>)
    ensures
        match r {
            Ok(ids) => id_list(pieces(s@, ',')) == Some(ids@),
            Err(e) => id_list(pieces(s@, ',')) is None && e.input@ == s@,
        },
{
    let cs = chars_of(s);
    let parts = split_chars(&cs, ',');
    let ghost ps = pieces(s@, ',');
    let mut ids: Vec<u32> = Vec::new();
    let mut i: usize = 0;
    while i < parts.len()
        invariant
            cs@ == s@,
            ps == pieces(s@, ','),
            parts@.len() == ps.len(),
            forall|j: int| 0 <= j < parts@.len() ==> (#[trigger] parts@[j])@ == ps[j],
            i <= parts@.len(),
            id_list(ps.take(i as int)) == Some(ids@),
        decreases parts@.len() - i,
    {
        proof {
            assert(ps.take(i + 1).drop_last() =~= ps.take(i as int));
        }
        let t = trimmed(&parts[i]);
        if t.as_str().unicode_len() != 0 {
            match parse_u32(t.as_str()) {
                Some(x) => ids.push(x),
                None => {
                    proof {
                        lemma_id_list_fails(ps, i + 1);
                    }
                    return Err(ExtraUsersError { input: String::from_str(s) });
                },
            }
        }
        i += 1;
    }
    proof {
        assert(ps.take(i as int) =~= ps);
    }
    Ok(ids)
}

/// Reads each id of a member list; the first that is not a number is the error.
pub fn parse_member_ids(ids: &Vec<String>) -> (r: Result<Vec<u32>, String>)
    ensures
        match r {
            Ok(v) => v@.len() == ids@.len() && forall|i: int|
                0 <= i < ids@.len() ==> u32_text((#[trigger] ids@[i])@) == Some(v@[i]),
            Err(bad) => exists|i: int|
                0 <= i < ids@.len() && u32_text(ids@[i]@) is None && bad@ == ids@[i]@ && forall|
                    j: int,
                | 0 <= j < i ==> u32_text((#[trigger] ids@[j])@) is Some,
        },
{
    let mut out: Vec<u32> = Vec::new();
    let mut i: usize = 0;
    while i < ids.len()
        invariant
            i <= ids@.len(),
            out@.len() == i,
            forall|j: int| 0 <= j < i ==> u32_text((#[trigger] ids@[j])@) == Some(out@[j]),
        decreases ids@.len() - i,
    {
        match parse_u32(ids[i].as_str()) {
            Some(x) => out.push(x),
            None => return Err(ids[i].clone()),
        }
        i += 1;
    }
    Ok(out)
}

impl Args {
    /// Minutes to wait before the first task: as given, else none for a single
    /// task and one when looping over the schedule.
    pub fn initial_delay(given: Option<u64>, single_task: bool) -> (r: u64)
        ensures
            r == match given {
                Some(d) => d,
                None => if single_task {
                    0u64
                } else {
                    1u64
                },
            },
    {
        match given {
            Some(d) => d,
            None => if single_task {
                0
            } else {
                1
            },
        }
    }

    /// The union of the tasks given on the command line, if any.
    pub fn task_union(tasks: &Vec<Task>) -> (r: Option<Task>)
        ensures
            match r {
                None => tasks@.len() == 0,
                Some(t) => tasks@.len() > 0 && t.0 == union_bits(tasks@),
            },
    {
        if tasks.len() == 0 {
            return None;
        }
        let mut acc = tasks[0];
        let mut i: usize = 1;
        proof {
            assert(tasks@.take(1).drop_last() =~= Seq::<Task>::empty());
        }
        while i < tasks.len()
            invariant
                1 <= i <= tasks@.len(),
                acc.0 == union_bits(tasks@.take(i as int)),
            decreases tasks@.len() - i,
        {
            proof {
                assert(tasks@.take(i + 1).drop_last() =~= tasks@.take(i as int));
            }
            acc = acc.union(tasks[i]);
            i += 1;
        }
        proof {
            assert(tasks@.take(i as int) =~= tasks@);
        }
        Some(acc)
    }
}

/// The union of the flags of the tasks.
pub open spec fn union_bits(tasks: Seq<Task>) -> u8
    decreases tasks.len(),
{
    if tasks.len() == 0 {
        0
    } else if tasks.len() == 1 {
        tasks[0].0
    } else {
        union_bits(tasks.drop_last()) | tasks.last().0
    }
}

} // verus!
