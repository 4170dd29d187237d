//! The steps from a Java source to an archive, and what is done when one fails.
//!
//! A source file that is not named after its class is renamed first. Whatever
//! happens then, the last step is to give it its own name back. That this step
//! can fail too changes nothing.

use vstd::prelude::*;

use crate::run::{outcome_of_exit, Failure};

verus! {

/// What is to be done next.
#[derive(Clone, Copy, Debug, PartialEq, Eq, Structural)]
pub enum Step {
    /// Name the source file after its class.
    Rename,
    /// Write the manifest.
    WriteManifest,
    /// Run javac on the source file.
    RunJavac,
    /// Write down the diagnostics of javac.
    WriteDiagnostics,
    /// List the directory of the source file.
    ListClasses,
    /// Run jar on the manifest and the class files.
    RunJar,
    /// Give the source file its own name back.
    Restore,
    /// Nothing more.
    Done,
}

/// How a step went.
#[derive(Debug, PartialEq, Eq)]
pub enum Event {
    /// It was done.
    Finished,
    /// It could not be done.
    Failed(Failure),
    /// The program that it runs came to its end.
    Exited { success: bool, code: Option<i32> },
}

/// The state of a build.
#[derive(Debug, PartialEq, Eq)]
pub struct JavaBuild {
    /// What is to be done next.
    pub step: Step,
    /// Whether the source file is not named after its class.
    pub renames: bool,
    /// Whether the diagnostics of javac are wanted.
    pub records: bool,
    /// Whether the source file has been renamed, and the step that gives it its
    /// own name back has not been taken.
    pub restore_due: bool,
    /// What came of the build so far.
    pub outcome: Result<(), Failure>,
}

/// What came of a step. A program that failed fails the step with its exit code
/// and nothing to tell.
pub open spec fn came_of(e: Event, outcome: Result<(), Failure>) -> bool {
    match e {
        Event::Finished => outcome is Ok,
        Event::Failed(f) => outcome == Err::<(), Failure>(f),
        Event::Exited { success, code } => {
            &&& outcome is Ok <==> success
            &&& outcome matches Err(f) ==> f.message@.len() == 0 && f.code == match code {
                Some(c) => c,
                None => 1,
            }
        },
    }
}

/// The build `b` goes on with `step`.
pub open spec fn goes_on(b: JavaBuild, step: Step, b2: JavaBuild) -> bool {
    b2 == (JavaBuild { step, ..b })
}

/// The build `b` ends with an outcome; for a file that was renamed, the step
/// that restores it comes before the end.
pub open spec fn ends(b: JavaBuild, outcome: Result<(), Failure>, b2: JavaBuild) -> bool {
    b2 == (JavaBuild {
        step: if b.restore_due {
            Step::Restore
        } else {
            Step::Done
        },
        outcome,
        ..b
    })
}

/// `b2` follows on `b` when its step went as `e` tells.
pub open spec fn follows(b: JavaBuild, e: Event, b2: JavaBuild) -> bool {
    exists|outcome: Result<(), Failure>| #[trigger]
        came_of(e, outcome) && match b.step {
            Step::Rename => if outcome is Ok {
                goes_on(JavaBuild { restore_due: true, ..b }, Step::WriteManifest, b2)
            } else {
                ends(b, outcome, b2)
            },
            Step::WriteManifest => if outcome is Ok {
                goes_on(b, Step::RunJavac, b2)
            } else {
                ends(b, outcome, b2)
            },
            Step::RunJavac => if b.records && !(e is Failed) {
                goes_on(JavaBuild { outcome, ..b }, Step::WriteDiagnostics, b2)
            } else if outcome is Ok {
                goes_on(b, Step::ListClasses, b2)
            } else {
                ends(b, outcome, b2)
            },
            Step::WriteDiagnostics => if b.outcome is Ok {
                goes_on(b, Step::ListClasses, b2)
            } else {
                ends(b, b.outcome, b2)
            },
            Step::ListClasses => if outcome is Ok {
                goes_on(b, Step::RunJar, b2)
            } else {
                ends(b, outcome, b2)
            },
            Step::RunJar => ends(b, outcome, b2),
            Step::Restore => goes_on(JavaBuild { restore_due: false, ..b }, Step::Done, b2),
            Step::Done => b2 == b,
        }
}

impl JavaBuild {
    /// Restoring the file is due exactly from the step that renamed it to the step
    /// that restores it, and a build that goes on has not failed.
    pub open spec fn valid(self) -> bool {
        match self.step {
            Step::Rename => self.renames && !self.restore_due && self.outcome is Ok,
            Step::WriteDiagnostics => self.restore_due == self.renames && self.records,
            Step::WriteManifest | Step::RunJavac | Step::ListClasses | Step::RunJar => self.restore_due
                == self.renames && self.outcome is Ok,
            Step::Restore => self.restore_due && self.renames,
            Step::Done => !self.restore_due,
        }
    }

    /// A build that has not begun.
    pub fn new(renames: bool, records: bool) -> (r: JavaBuild)
        ensures
            r.valid(),
            r.renames == renames,
            r.records == records,
            r.step == if renames {
                Step::Rename
            } else {
                Step::WriteManifest
            },
            !r.restore_due,
            r.outcome is Ok,
    {
        let step = if renames {
            Step::Rename
        } else {
            Step::WriteManifest
        };
        JavaBuild { step, renames, records, restore_due: false, outcome: Ok(()) }
    }

    /// Ends the build.
    fn end(&mut self, outcome: Result<(), Failure>)
        ensures
            ends(*old(self), outcome, *final(self)),
    {
        self.outcome = outcome;
        self.step = if self.restore_due {
            Step::Restore
        } else {
            Step::Done
        };
    }

    /// Goes on to the next step.
    pub fn advance(&mut self, event: Event)
        requires
            old(self).valid(),
        ensures
            final(self).valid(),
            follows(*old(self), event, *final(self)),
    {
        let could_run = match &event {
            Event::Failed(_) => false,
            _ => true,
        };
        let ghost told = event;
        let outcome = match event {
            Event::Finished => Ok(()),
            Event::Failed(f) => Err(f),
            Event::Exited { success, code } => outcome_of_exit(success, code),
        };
        assert(came_of(told, outcome));
        match self.step {
            Step::Rename => {
                if outcome.is_ok() {
                    self.restore_due = true;
                    self.step = Step::WriteManifest;
                } else {
                    self.end(outcome);
                }
            },
            Step::WriteManifest => {
                if outcome.is_ok() {
                    self.step = Step::RunJavac;
                } else {
                    self.end(outcome);
                }
            },
            Step::RunJavac => {
                if self.records && could_run {
                    self.outcome = outcome;
                    self.step = Step::WriteDiagnostics;
                } else if outcome.is_ok() {
                    self.step = Step::ListClasses;
                } else {
                    self.end(outcome);
                }
            },
            Step::WriteDiagnostics => {
                if self.outcome.is_ok() {
                    self.step = Step::ListClasses;
                } else if self.restore_due {
                    self.step = Step::Restore;
                } else {
                    self.step = Step::Done;
                }
            },
            Step::ListClasses => {
                if outcome.is_ok() {
                    self.step = Step::RunJar;
                } else {
                    self.end(outcome);
                }
            },
            Step::RunJar => {
                self.end(outcome);
            },
            Step::Restore => {
                self.restore_due = false;
                self.step = Step::Done;
            },
            Step::Done => {},
        }
    }
}

/// How many steps are left at most.
pub open spec fn steps_left(step: Step) -> nat {
    match step {
        Step::Rename => 7,
        Step::WriteManifest => 6,
        Step::RunJavac => 5,
        Step::WriteDiagnostics => 4,
        Step::ListClasses => 3,
        Step::RunJar => 2,
        Step::Restore => 1,
        Step::Done => 0,
    }
}

/// Every step brings a build closer to its end.
pub proof fn law_build_ends(b: JavaBuild, e: Event, b2: JavaBuild)
    requires
        b.valid(),
        follows(b, e, b2),
        b.step != Step::Done,
    ensures
        steps_left(b2.step) < steps_left(b.step),
{
}

/// The states that a build passes through.
pub open spec fn is_course(course: Seq<JavaBuild>, events: Seq<Event>) -> bool {
    &&& course.len() == events.len() + 1
    &&& course[0].valid()
    &&& forall|i: int|
        #![trigger events[i]]
        0 <= i < events.len() ==> follows(course[i], events[i], course[i + 1])
}

/// The step that restores the file is taken from the `i`th state on, before the
/// last.
pub open spec fn restore_taken(course: Seq<JavaBuild>, i: int) -> bool {
    exists|k: int| i <= k < course.len() - 1 && (#[trigger] course[k]).step == Step::Restore
}

/// A build that has come to its end has taken the step that gives the source
/// file its own name back, if it had renamed it, whatever happened. Whether that
/// step succeeded is left open.
pub proof fn law_build_restores(course: Seq<JavaBuild>, events: Seq<Event>)
    requires
        is_course(course, events),
    ensures
        course.last().valid(),
        forall|i: int|
            0 <= i < course.len() && (#[trigger] course[i]).restore_due && course.last().step
                == Step::Done ==> restore_taken(course, i),
{
    lemma_course(course, events);
}

/// Restoring stays due until the step that restores is taken.
proof fn lemma_course(course: Seq<JavaBuild>, events: Seq<Event>)
    requires
        is_course(course, events),
    ensures
        course.last().valid(),
        forall|i: int|
            0 <= i < course.len() && (#[trigger] course[i]).restore_due
                && !course.last().restore_due ==> restore_taken(course, i),
    decreases events.len(),
{
    if events.len() > 0 {
        let earlier = course.drop_last();
        let n = events.len() - 1;
        assert forall|i: int|
            #![trigger events.drop_last()[i]]
            0 <= i < n implies follows(
            earlier[i],
            events.drop_last()[i],
            earlier[i + 1],
        ) by {
            assert(events[i] == events.drop_last()[i]);
        }
        lemma_course(earlier, events.drop_last());
        assert(follows(course[n], events[n], course[n + 1]));
        assert forall|i: int|
            0 <= i < course.len() && (#[trigger] course[i]).restore_due
                && !course.last().restore_due implies restore_taken(course, i) by {
            assert(earlier[i] == course[i]);
            if course[n].restore_due {
                assert(course[n].step == Step::Restore);
            } else {
                let k = choose|k: int|
                    i <= k < earlier.len() - 1 && (#[trigger] earlier[k]).step == Step::Restore;
                assert(course[k].step == Step::Restore);
            }
        }
    }
}

/// A build succeeds only by a run of jar that succeeded.
pub proof fn law_build_success(b: JavaBuild, e: Event, b2: JavaBuild)
    requires
        b.valid(),
        follows(b, e, b2),
        b.step != Step::Restore && b.step != Step::Done,
        b2.step == Step::Restore || b2.step == Step::Done,
        b2.outcome is Ok,
    ensures
        b.step == Step::RunJar,
        e is Finished || (e matches Event::Exited { success, .. } && success),
{
}

/// The outcome of a build is not changed by restoring the source file.
pub proof fn law_build_restoring_keeps_outcome(b: JavaBuild, e: Event, b2: JavaBuild)
    requires
        b.valid(),
        b.step == Step::Restore,
        follows(b, e, b2),
    ensures
        b2.step == Step::Done,
        b2.outcome == b.outcome,
{
}

} // verus!
