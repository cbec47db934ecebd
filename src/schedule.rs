//! The schedule: the tasks that run one after the other, an interval apart.
use vstd::prelude::*;
use vstd::string::StringExecFns;

use crate::task::{joined, parse_task, task_words, Task, TaskParseError};
use crate::text::{chars_of, lowered, pieces, split_chars, trim, trimmed};

verus! {

/// A list of tasks to run one after the other, with an interval in between.
pub struct Schedule {
    tasks: Vec<Task>,
}

/// Every piece of a `,`-separated list parses as a task.
pub open spec fn schedule_parses(s: Seq<char>) -> bool {
    forall|i: int|
        0 <= i < pieces(s, ',').len() ==> (#[trigger] parse_task(trim(pieces(s, ',')[i]))) is Some
}

/// The text of a schedule: the tasks' names joined with `, `, or `No tasks`.
pub open spec fn schedule_text(tasks: Seq<Task>) -> Seq<char>
    decreases tasks.len(),
{
    if tasks.len() == 0 {
        "No tasks"@
    } else if tasks.len() == 1 {
        joined(task_words(tasks[0].0))
    } else {
        schedule_text(tasks.drop_last()) + ", "@ + joined(task_words(tasks.last().0))
    }
}

impl Schedule {
    /// The tasks, in order.
    pub closed spec fn view(&self) -> Seq<Task> {
        self.tasks@
    }

    pub fn new(tasks: Vec<Task>) -> (r: Schedule)
        ensures
            r@ == tasks@,
    {
        Schedule { tasks }
    }

    /// The tasks, in order.
    pub fn iter(&self) -> (r: std::slice::Iter<'_, Task>)
        ensures
            vstd::std_specs::slice::into_iter_elts(r) == self@,
    {
        self.tasks.iter()
    }

    /// Parses a `,`-separated list of task lists, each as `Task::parse` reads
    /// it after white space around it is removed; the first that does not
    /// parse is the error.
    pub fn parse(s: &str) -> (r: Result<Schedule, TaskParseError>)
        ensures
            match r {
                Ok(sch) => schedule_parses(s@) && sch@.len() == pieces(s@, ',').len() && forall|
                    i: int,
                |
                    0 <= i < sch@.len() ==> Some((#[trigger] sch@[i]).0) == parse_task(
                        trim(pieces(s@, ',')[i]),
                    ),
                Err(e) => !schedule_parses(s@) && exists|i: int|
                    0 <= i < pieces(s@, ',').len() && parse_task(trim(pieces(s@, ',')[i])) is None
                        && e.input@ == lowered(trim(pieces(s@, ',')[i])) && forall|j: int|
                        0 <= j < i ==> (#[trigger] parse_task(trim(pieces(s@, ',')[j]))) is Some,
            },
    {
        let cs = chars_of(s);
        let parts = split_chars(&cs, ',');
        let ghost ps = pieces(s@, ',');
        let mut tasks: Vec<Task> = Vec::new();
        let mut i: usize = 0;
        while i < parts.len()
            invariant
                cs@ == s@,
                ps == pieces(s@, ','),
                parts@.len() == ps.len(),
                forall|j: int| 0 <= j < parts@.len() ==> (#[trigger] parts@[j])@ == ps[j],
                i <= parts@.len(),
                tasks@.len() == i,
                forall|j: int|
                    0 <= j < i ==> Some((#[trigger] tasks@[j]).0) == parse_task(trim(ps[j])),
            decreases parts@.len() - i,
        {
            let t = trimmed(&parts[i]);
            match Task::parse(t.as_str()) {
                Ok(task) => tasks.push(task),
                Err(e) => {
                    proof {
                        assert(parse_task(trim(ps[i as int])) is None);
                        assert forall|j: int| 0 <= j < i implies (#[trigger] parse_task(
                            trim(ps[j]),
                        )) is Some by {
                            assert(Some(tasks@[j].0) == parse_task(trim(ps[j])));
                        }
                    }
                    return Err(e);
                },
            }
            i += 1;
        }
        proof {
            assert forall|j: int| 0 <= j < ps.len() implies (#[trigger] parse_task(
                trim(ps[j]),
            )) is Some by {
                assert(Some(tasks@[j].0) == parse_task(trim(ps[j])));
            }
        }
        Ok(Schedule { tasks })
    }

    /// The schedule as text.
    pub fn describe(&self) -> (r: String)
        ensures
            r@ == schedule_text(self@),
    {
        if self.tasks.len() == 0 {
            return String::from_str("No tasks");
        }
        let mut out = self.tasks[0].name();
        let mut i: usize = 1;
        proof {
            assert(self.tasks@.take(1).drop_last() =~= Seq::<Task>::empty());
        }
        while i < self.tasks.len()
            invariant
                1 <= i <= self.tasks@.len(),
                out@ == schedule_text(self.tasks@.take(i as int)),
            decreases self.tasks@.len() - i,
        {
            let name = self.tasks[i].name();
            out.append(", ");
            out.append(name.as_str());
            proof {
                assert(self.tasks@.take(i + 1).drop_last() =~= self.tasks@.take(i as int));
            }
            i += 1;
        }
        proof {
            assert(self.tasks@.take(i as int) =~= self.tasks@);
        }
        out
    }
}

} // verus!
