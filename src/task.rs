//! The task selector: which stages a harvest cycle runs, as a set of flags.
use vstd::prelude::*;
use vstd::string::StringExecFns;

use crate::text::{ascii_lowercase, lowered, pieces, split_chars, trim, trimmed};

verus! {

/// Retrieve the medal catalog and store it.
pub const MEDALS: u8 = 1;

/// Collect badges and store them.
pub const BADGES: u8 = 2;

/// Scan the leaderboards so that medal rarities can be computed and stored.
pub const RARITY: u8 = 4;

/// Build and store the ranking records.
pub const RANKING: u8 = 8;

/// Medals, badges and ranking.
pub const DEFAULT: u8 = 11;

/// Every stage.
pub const FULL: u8 = 15;

/// A set of stages, one bit each.
#[derive(Clone, Copy, Debug, PartialEq, Eq, Structural)]
pub struct Task(pub u8);

/// The flags that a word of a task list stands for.
pub open spec fn token_bits(t: Seq<char>) -> Option<u8> {
    if t == "default"@ {
        Some(DEFAULT)
    } else if t == "full"@ {
        Some(FULL)
    } else if t == "medal"@ || t == "medals"@ {
        Some(MEDALS)
    } else if t == "rarity"@ || t == "rarities"@ {
        Some(RARITY)
    } else if t == "ranking"@ {
        Some(RANKING)
    } else if t == "badge"@ || t == "badges"@ {
        Some(BADGES)
    } else {
        None
    }
}

/// The union of the flags of the words, each trimmed; none if a word is unknown.
pub open spec fn parse_words(words: Seq<Seq<char>>) -> Option<u8>
    decreases words.len(),
{
    if words.len() == 0 {
        Some(0u8)
    } else {
        match (parse_words(words.drop_last()), token_bits(trim(words.last()))) {
            (Some(a), Some(b)) => Some(a | b),
            _ => None,
        }
    }
}

/// What a `|`-separated, case-insensitive task list stands for.
pub open spec fn parse_task(s: Seq<char>) -> Option<u8> {
    parse_words(pieces(lowered(s), '|'))
}

/// The names of the stages of `bits`, as shown: `Full` for all of them;
/// otherwise `Default` for medals, badges and ranking together, then the
/// remaining stages by name.
pub open spec fn task_words(bits: u8) -> Seq<Seq<char>> {
    if bits & FULL == FULL {
        seq!["Full"@]
    } else {
        let d = bits & DEFAULT == DEFAULT;
        let rest = if d {
            bits & !DEFAULT
        } else {
            bits
        };
        (if d {
            seq!["Default"@]
        } else {
            Seq::empty()
        }) + (if rest & MEDALS == MEDALS {
            seq!["Medals"@]
        } else {
            Seq::empty()
        }) + (if rest & BADGES == BADGES {
            seq!["Badges"@]
        } else {
            Seq::empty()
        }) + (if rest & RARITY == RARITY {
            seq!["Rarity"@]
        } else {
            Seq::empty()
        }) + (if rest & RANKING == RANKING {
            seq!["Ranking"@]
        } else {
            Seq::empty()
        })
    }
}

/// The words joined with ` | `.
pub open spec fn joined(words: Seq<Seq<char>>) -> Seq<char>
    decreases words.len(),
{
    if words.len() == 0 {
        Seq::empty()
    } else if words.len() == 1 {
        words[0]
    } else {
        joined(words.drop_last()) + " | "@ + words.last()
    }
}

/// The message of a task list that does not parse.
pub open spec fn task_error_text(input: Seq<char>) -> Seq<char> {
    "failed to parse task `"@ + input
        + "`; must be a `|`-separated list of the following: default, full, medal, rarity, badge, ranking"@
}

/// A task list that does not parse, in lower case.
pub struct TaskParseError {
    pub input: String,
}

impl TaskParseError {
    pub fn message(&self) -> (r: String)
        ensures
            r@ == task_error_text(self.input@),
    {
        let mut r = String::from_str("failed to parse task `");
        r.append(self.input.as_str());
        r.append(
            "`; must be a `|`-separated list of the following: default, full, medal, rarity, badge, ranking",
        );
        r
    }
}

fn append_word(out: &mut String, found: bool, word: &str, Ghost(words): Ghost<Seq<Seq<char>>>)
    requires
        old(out)@ == joined(words),
        found == (words.len() > 0),
    ensures
        final(out)@ == joined(words.push(word@)),
{
    if found {
        out.append(" | ");
    }
    out.append(word);
    proof {
        let w = words.push(word@);
        assert(w.drop_last() =~= words);
        if words.len() == 0 {
            assert(final(out)@ =~= word@);
        }
    }
}

impl Task {
    pub fn empty() -> (r: Task)
        ensures
            r.0 == 0,
    {
        Task(0)
    }

    /// Whether every flag set in the argument is set here too.
    pub fn contains(self, other: Task) -> (r: bool)
        ensures
            r == (self.0 & other.0 == other.0),
    {
        self.0 & other.0 == other.0
    }

    /// Clears here every flag set in the argument.
    pub fn remove(&mut self, other: Task)
        ensures
            final(self).0 == old(self).0 & !other.0,
    {
        self.0 = self.0 & !other.0;
    }

    /// The stages of both tasks.
    pub fn union(self, other: Task) -> (r: Task)
        ensures
            r.0 == self.0 | other.0,
    {
        Task(self.0 | other.0)
    }

    /// Should the medal catalog be retrieved and stored?
    pub fn medals(self) -> (r: bool)
        ensures
            r == (self.0 & MEDALS == MEDALS),
    {
        self.contains(Task(MEDALS))
    }

    /// Should badges be collected and stored?
    pub fn badges(self) -> (r: bool)
        ensures
            r == (self.0 & BADGES == BADGES),
    {
        self.contains(Task(BADGES))
    }

    /// Should the leaderboards be scanned so that rarities are computed and stored?
    pub fn rarity(self) -> (r: bool)
        ensures
            r == (self.0 & RARITY == RARITY),
    {
        self.contains(Task(RARITY))
    }

    /// Should ranking records be built and stored?
    pub fn ranking(self) -> (r: bool)
        ensures
            r == (self.0 & RANKING == RANKING),
    {
        self.contains(Task(RANKING))
    }

    /// The task as text, e.g. `Default | Rarity` is shown as `Full`.
    pub fn name(&self) -> (r: String)
        ensures
            r@ == joined(task_words(self.0)),
    {
        if self.contains(Task(FULL)) {
            let r = String::from_str("Full");
            proof {
                assert(task_words(self.0) =~= seq!["Full"@]);
            }
            return r;
        }
        let mut out = String::new();
        let mut task = *self;
        let ghost mut words: Seq<Seq<char>> = Seq::empty();
        let mut found = false;
        let d = task.contains(Task(DEFAULT));
        if d {
            append_word(&mut out, found, "Default", Ghost(words));
            found = true;
            proof {
                words = words.push("Default"@);
            }
            task.remove(Task(DEFAULT));
        }
        let ghost rest = task.0;
        if task.contains(Task(MEDALS)) {
            append_word(&mut out, found, "Medals", Ghost(words));
            found = true;
            proof {
                words = words.push("Medals"@);
            }
        }
        if task.contains(Task(BADGES)) {
            append_word(&mut out, found, "Badges", Ghost(words));
            found = true;
            proof {
                words = words.push("Badges"@);
            }
        }
        if task.contains(Task(RARITY)) {
            append_word(&mut out, found, "Rarity", Ghost(words));
            found = true;
            proof {
                words = words.push("Rarity"@);
            }
        }
        if task.contains(Task(RANKING)) {
            append_word(&mut out, found, "Ranking", Ghost(words));
            found = true;
            proof {
                words = words.push("Ranking"@);
            }
        }
        proof {
            assert(words =~= task_words(self.0));
        }
        out
    }

    /// Parses a `|`-separated list of stage names, case-insensitively and
    /// ignoring white space around each: `default`, `full`, `medal(s)`,
    /// `rarity`/`rarities`, `ranking`, `badge(s)`.
    pub fn parse(s: &str) -> (r: Result<Task, TaskParseError>)
        ensures
            match r {
                Ok(t) => parse_task(s@) == Some(t.0),
                Err(e) => parse_task(s@) is None && e.input@ == lowered(s@),
            },
    {
        let lower = ascii_lowercase(s);
        let words = split_chars(&lower, '|');
        let ghost ws = pieces(lower@, '|');
        let mut bits: u8 = 0;
        let mut i: usize = 0;
        while i < words.len()
            invariant
                lower@ == lowered(s@),
                ws == pieces(lower@, '|'),
                words@.len() == ws.len(),
                forall|j: int| 0 <= j < words@.len() ==> (#[trigger] words@[j])@ == ws[j],
                i <= words@.len(),
                parse_words(ws.take(i as int)) == Some(bits),
            decreases words@.len() - i,
        {
            proof {
                assert(ws.take(i + 1).drop_last() =~= ws.take(i as int));
            }
            let w = trimmed(&words[i]);
            let b: u8 = if w == String::from_str("default") {
                DEFAULT
            } else if w == String::from_str("full") {
                FULL
            } else if w == String::from_str("medal") || w == String::from_str("medals") {
                MEDALS
            } else if w == String::from_str("rarity") || w == String::from_str("rarities") {
                RARITY
            } else if w == String::from_str("ranking") {
                RANKING
            } else if w == String::from_str("badge") || w == String::from_str("badges") {
                BADGES
            } else {
                proof {
                    assert(token_bits(trim(ws[i as int])) is None);
                    lemma_parse_words_fails(ws, i as int + 1);
                    assert(ws.take(ws.len() as int) =~= ws);
                }
                let mut input = String::new();
                let mut k: usize = 0;
                while k < lower.len()
                    invariant
                        k <= lower@.len(),
                        input@ == lower@.take(k as int),
                        lower@ == lowered(s@),
                        parse_task(s@) is None,
                    decreases lower@.len() - k,
                {
                    crate::text::push_char(&mut input, lower[k]);
                    k += 1;
                    proof {
                        assert(input@ =~= lower@.take(k as int));
                    }
                }
                proof {
                    assert(lower@.take(k as int) =~= lower@);
                }
                return Err(TaskParseError { input });
            };
            bits = bits | b;
            i += 1;
        }
        proof {
            assert(ws.take(i as int) =~= ws);
        }
        Ok(Task(bits))
    }
}

/// Once a word is unknown, the whole list is.
proof fn lemma_parse_words_fails(ws: Seq<Seq<char>>, n: int)
    requires
        1 <= n <= ws.len(),
        token_bits(trim(ws[n - 1])) is None,
    ensures
        parse_words(ws) is None,
    decreases ws.len(),
{
    if n < ws.len() {
        lemma_parse_words_fails(ws.drop_last(), n);
    } else {
        assert(ws.last() == ws[n - 1]);
    }
}

} // verus!
