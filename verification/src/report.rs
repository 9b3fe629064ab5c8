//! Run reporting decisions: which steps run, the tally of a run, and the
//! labels shown on the terminal.
use crate::plan::{Step, StepView, step_bookkeeping, steps_view};
use crate::text;
use crate::text::to_owned;
use vstd::prelude::*;

verus! {

/// Longest label shown on one terminal line.
pub const MAX_LABEL: usize = 72;

/// `label` with every newline turned into a space.
pub open spec fn flatten_view(label: Seq<char>) -> Seq<char> {
    label.map_values(|c: char| if c == '\n' { ' ' } else { c })
}

/// The terminal label: one line, at most [`MAX_LABEL`] characters, cut with
/// an ellipsis.
pub open spec fn shorten_view(label: Seq<char>) -> Seq<char> {
    let single = flatten_view(label);
    if single.len() <= MAX_LABEL {
        single
    } else {
        single.take(MAX_LABEL - 1).push('…')
    }
}

/// One-line, length-capped label for the terminal (the full text still goes
/// to the log file).
pub fn shorten(label: &str) -> (r: String)
    ensures
        r@ == shorten_view(label@),
{
    let chars = text::chars_of(label);
    let mut single: Vec<char> = Vec::new();
    let mut i: usize = 0;
    while i < chars.len()
        invariant
            chars@ == label@,
            i <= chars@.len(),
            single@ == flatten_view(chars@.take(i as int)),
        decreases chars.len() - i,
    {
        let c = chars[i];
        single.push(if c == '\n' { ' ' } else { c });
        assert(single@ =~= flatten_view(chars@.take(i + 1)));
        i = i + 1;
    }
    assert(chars@.take(chars@.len() as int) =~= chars@);
    if single.len() <= MAX_LABEL {
        return text::string_from_chars(&single);
    }
    let mut out = text::string_from_range(&single, 0, MAX_LABEL - 1);
    out.push('…');
    assert(single@.subrange(0, MAX_LABEL - 1) =~= single@.take(MAX_LABEL - 1));
    out
}

/// Outcome of a whole run: counts, the labels that failed, and where the
/// full log lives.
#[derive(Debug)]
pub struct Outcome {
    pub completed: usize,
    pub failed: usize,
    pub failures: Vec<String>,
    pub log_path: Option<String>,
}

impl Default for Outcome {
    fn default() -> (r: Self)
        ensures
            r.completed == 0,
            r.failed == 0,
            r.failures@.len() == 0,
            r.log_path is None,
    {
        Outcome { completed: 0, failed: 0, failures: Vec::new(), log_path: None }
    }
}

impl Outcome {
    /// A run succeeds when no step failed.
    pub fn succeeded(&self) -> (r: bool)
        ensures
            r == (self.failed == 0),
    {
        self.failed == 0
    }
}

/// What the run does with a step.
#[derive(Debug, Clone, Copy, PartialEq, Eq, Structural)]
pub enum StepDecision {
    /// Run the action and report it.
    Run,
    /// Apply the cache bookkeeping.
    Record,
    /// Skip bookkeeping whose preceding action failed.
    Skip,
}

/// The number of steps that are actions (not cache bookkeeping).
pub open spec fn action_count(steps: Seq<StepView>) -> nat
    decreases steps.len(),
{
    if steps.len() == 0 {
        0
    } else {
        action_count(steps.drop_last()) + if step_bookkeeping(steps.last()) {
            0nat
        } else {
            1nat
        }
    }
}

/// The progress of a run: actions are numbered and tallied; bookkeeping is
/// skipped after a failed action, so a failed install is never recorded.
#[derive(Debug)]
pub struct RunTracker {
    pub total: usize,
    pub index: usize,
    pub completed: usize,
    pub failed: usize,
    pub failures: Vec<String>,
    pub last_action_failed: bool,
}

impl RunTracker {
    /// A tracker for `steps`, counting the actions among them.
    pub fn new(steps: &Vec<Step>) -> (r: Self)
        ensures
            r.total == action_count(steps_view(steps@)),
            r.index == 0,
            r.completed == 0,
            r.failed == 0,
            r.failures@.len() == 0,
            !r.last_action_failed,
    {
        let mut total: usize = 0;
        let mut i: usize = 0;
        while i < steps.len()
            invariant
                i <= steps@.len(),
                total == action_count(steps_view(steps@.take(i as int))),
                total <= i,
            decreases steps.len() - i,
        {
            proof {
                let t = steps_view(steps@.take(i + 1));
                assert(t.drop_last() =~= steps_view(steps@.take(i as int)));
                assert(t.last() == steps@[i as int]@);
            }
            if !steps[i].is_bookkeeping() {
                total = total + 1;
            }
            i = i + 1;
        }
        assert(steps@.take(steps@.len() as int) =~= steps@);
        RunTracker { total, index: 0, completed: 0, failed: 0, failures: Vec::new(), last_action_failed: false }
    }

    /// Actions run; bookkeeping is applied unless the preceding action failed.
    pub fn decide(&self, step: &Step) -> (r: StepDecision)
        ensures
            r == if !step_bookkeeping(step@) {
                StepDecision::Run
            } else if self.last_action_failed {
                StepDecision::Skip
            } else {
                StepDecision::Record
            },
    {
        if !step.is_bookkeeping() {
            StepDecision::Run
        } else if self.last_action_failed {
            StepDecision::Skip
        } else {
            StepDecision::Record
        }
    }

    /// Starts the next action and returns its number (from 1).
    pub fn start_action(&mut self) -> (n: usize)
        ensures
            final(self).index == (if old(self).index < usize::MAX {
                old(self).index + 1
            } else {
                old(self).index as int
            }),
            n == final(self).index,
            final(self).total == old(self).total,
            final(self).completed == old(self).completed,
            final(self).failed == old(self).failed,
            final(self).failures@ == old(self).failures@,
            final(self).last_action_failed == old(self).last_action_failed,
    {
        self.index = self.index.saturating_add(1);
        self.index
    }

    /// Records how the current action ended; a failure keeps its label.
    pub fn finish_action(&mut self, label: String, ok: bool)
        ensures
            final(self).total == old(self).total,
            final(self).index == old(self).index,
            final(self).last_action_failed == !ok,
            ok ==> final(self).completed == (if old(self).completed < usize::MAX {
                old(self).completed + 1
            } else {
                old(self).completed as int
            }) && final(self).failed == old(self).failed && final(self).failures@ == old(self).failures@,
            !ok ==> final(self).failed == (if old(self).failed < usize::MAX {
                old(self).failed + 1
            } else {
                old(self).failed as int
            }) && final(self).completed == old(self).completed && final(self).failures@ == old(
                self,
            ).failures@.push(label),
    {
        if ok {
            self.completed = self.completed.saturating_add(1);
        } else {
            self.failed = self.failed.saturating_add(1);
            self.failures.push(label);
        }
        self.last_action_failed = !ok;
    }

    /// The outcome of the run.
    pub fn into_outcome(self, log_path: Option<String>) -> (r: Outcome)
        ensures
            r.completed == self.completed,
            r.failed == self.failed,
            r.failures@ == self.failures@,
            r.log_path == log_path,
    {
        Outcome { completed: self.completed, failed: self.failed, failures: self.failures, log_path }
    }
}

/// The `[n/total]` prefix of an action line.
pub open spec fn progress_prefix_view(index: nat, total: nat) -> Seq<char> {
    "["@ + text::decimal(index) + "/"@ + text::decimal(total) + "]"@
}

/// The `[n/total]` prefix of an action line.
pub fn progress_prefix(index: usize, total: usize) -> (r: String)
    ensures
        r@ == progress_prefix_view(index as nat, total as nat),
{
    let mut r = to_owned("[");
    text::push_decimal(&mut r, index as u64);
    r.append("/");
    text::push_decimal(&mut r, total as u64);
    r.append("]");
    r
}

} // verus!
