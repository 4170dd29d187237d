//! The course of a build of a Java program.

use vstd::prelude::*;

use crate::java_build::{follows, is_course, Event, JavaBuild, Step};
use crate::run::Failure;

verus! {

/// A course of a build that was begun with these arguments.
pub open spec fn course_of(
    course: Seq<JavaBuild>,
    events: Seq<Event>,
    renames: bool,
    records: bool,
) -> bool {
    &&& is_course(course, events)
    &&& call_ensures(JavaBuild::new, (renames, records), course[0])
}

/// The step was done, and the program that it ran succeeded.
pub open spec fn fine(e: Event) -> bool {
    match e {
        Event::Finished => true,
        Event::Failed(_) => false,
        Event::Exited { success, .. } => success,
    }
}

/// The failure `f` is that of a step that went as `e` tells: its own, or the exit
/// code of the program that it ran, and nothing to tell.
pub open spec fn failure_of(e: Event, f: Failure) -> bool {
    match e {
        Event::Finished => false,
        Event::Failed(g) => f == g,
        Event::Exited { success, code } => {
            &&& !success
            &&& f.message@.len() == 0
            &&& code matches Some(c) ==> f.code == c
            &&& code is None ==> f.code == 1
        },
    }
}

/// The steps that decide what comes of a build.
pub open spec fn deciding(step: Step) -> bool {
    ||| step == Step::Rename
    ||| step == Step::WriteManifest
    ||| step == Step::RunJavac
    ||| step == Step::ListClasses
    ||| step == Step::RunJar
}

/// All deciding steps before the `i`th state went well.
pub open spec fn fine_before(course: Seq<JavaBuild>, events: Seq<Event>, i: int) -> bool {
    forall|j: int|
        0 <= j < i && deciding((#[trigger] course[j]).step) ==> fine(events[j])
}

/// The step `step` is taken before the `i`th state.
pub open spec fn taken(course: Seq<JavaBuild>, step: Step, i: int) -> bool {
    exists|j: int| 0 <= j < i && (#[trigger] course[j]).step == step
}

/// The first deciding step that did not go well, before the `i`th state, failed
/// with `f`.
pub open spec fn first_failure(
    course: Seq<JavaBuild>,
    events: Seq<Event>,
    i: int,
    f: Failure,
) -> bool {
    exists|j: int|
        0 <= j < i && deciding((#[trigger] course[j]).step) && failure_of(events[j], f)
            && fine_before(course, events, j)
}

proof fn lemma_history(
    course: Seq<JavaBuild>,
    events: Seq<Event>,
    renames: bool,
    records: bool,
    i: int,
)
    requires
        course_of(course, events, renames, records),
        0 <= i < course.len(),
    ensures
        course[i].valid(),
        course[i].renames == renames,
        course[i].records == records,
        course[i].outcome is Ok <==> fine_before(course, events, i),
        course[i].outcome matches Err(f) ==> first_failure(course, events, i, f),
        course[i].step == Step::WriteDiagnostics ==> i > 0 && course[i - 1].step == Step::RunJavac
            && !(events[i - 1] is Failed) && (course[i].outcome is Ok <==> fine(events[i - 1])),
        (course[i].step == Step::Restore || course[i].step == Step::Done) && course[i].outcome
            is Ok ==> taken(course, Step::RunJar, i),
    decreases i,
{
    if i > 0 {
        let n = i - 1;
        lemma_history(course, events, renames, records, n);
        assert(follows(course[n], events[n], course[n + 1]));
        let b = course[n];
        let b2 = course[i];
        if fine_before(course, events, i) {
            assert(fine_before(course, events, n));
            if deciding(b.step) {
                assert(fine(events[n]));
            }
        } else {
            let j = choose|j: int|
                0 <= j < i && deciding((#[trigger] course[j]).step) && !fine(events[j]);
            if fine_before(course, events, n) {
                assert(j == n);
            }
        }
        if b2.outcome is Err {
            let f = b2.outcome->Err_0;
            if b.outcome is Err {
                let g = b.outcome->Err_0;
                let j = choose|j: int|
                    0 <= j < n && deciding((#[trigger] course[j]).step) && failure_of(events[j], g)
                        && fine_before(course, events, j);
                assert(f == g);
                assert(deciding(course[j].step) && failure_of(events[j], f));
            } else {
                assert(deciding(course[n].step) && failure_of(events[n], f));
            }
            assert(first_failure(course, events, i, f));
        }
        if (b2.step == Step::Restore || b2.step == Step::Done) && b2.outcome is Ok {
            if b.step == Step::RunJar {
                assert(course[n].step == Step::RunJar);
            } else {
                let j = choose|j: int| 0 <= j < n && (#[trigger] course[j]).step == Step::RunJar;
                assert(course[j].step == Step::RunJar);
            }
        }
    }
}

/// The first step is to rename the source file where it is to be renamed, and to
/// write the manifest otherwise.
pub proof fn law_build_first(renames: bool, records: bool, b: JavaBuild)
    requires
        call_ensures(JavaBuild::new, (renames, records), b),
    ensures
        renames ==> b.step == Step::Rename,
        !renames ==> b.step == Step::WriteManifest,
        b.outcome is Ok,
        b.valid(),
{
}

/// A build goes on as the course of a build does.
pub proof fn law_build_advances(b: &mut JavaBuild, e: Event)
    requires
        old(b).valid(),
        call_ensures(JavaBuild::advance, (b, e), ()),
    ensures
        is_course(seq![*old(b), *final(b)], seq![e]),
        final(b).valid(),
{
    assert forall|i: int| #![trigger seq![e][i]] 0 <= i < 1 implies follows(
        seq![*old(b), *final(b)][i],
        seq![e][i],
        seq![*old(b), *final(b)][i + 1],
    ) by {
        assert(seq![*old(b), *final(b)][0] == *old(b));
        assert(seq![*old(b), *final(b)][1] == *final(b));
    }
}

/// Which step follows on which. The steps are taken in their order; the
/// diagnostics are written after javac ran, wherever they are wanted, and the
/// source file gets its own name back at the end, wherever it was renamed. A step
/// that did not go well ends the build, but for writing the diagnostics of a javac
/// that failed.
pub proof fn law_build_next(
    course: Seq<JavaBuild>,
    events: Seq<Event>,
    renames: bool,
    records: bool,
    i: int,
)
    requires
        course_of(course, events, renames, records),
        0 <= i < events.len(),
    ensures
        ({
            let e = events[i];
            let next = course[i + 1].step;
            let end = if renames {
                Step::Restore
            } else {
                Step::Done
            };
            match course[i].step {
                Step::Rename => renames && next == if fine(e) {
                    Step::WriteManifest
                } else {
                    Step::Done
                },
                Step::WriteManifest => next == if fine(e) {
                    Step::RunJavac
                } else {
                    end
                },
                Step::RunJavac => next == if records && !(e is Failed) {
                    Step::WriteDiagnostics
                } else if fine(e) {
                    Step::ListClasses
                } else {
                    end
                },
                Step::WriteDiagnostics => {
                    &&& records
                    &&& i > 0
                    &&& course[i - 1].step == Step::RunJavac
                    &&& next == if fine(events[i - 1]) {
                        Step::ListClasses
                    } else {
                        end
                    }
                },
                Step::ListClasses => next == if fine(e) {
                    Step::RunJar
                } else {
                    end
                },
                Step::RunJar => next == end,
                Step::Restore => renames && next == Step::Done,
                Step::Done => next == Step::Done,
            }
        }),
{
    lemma_history(course, events, renames, records, i);
    assert(follows(course[i], events[i], course[i + 1]));
}

/// Where diagnostics are wanted and javac was run to its end, they are written
/// right after it and at no other time, whether the source file was renamed or
/// not. Where they are not wanted they are never written.
pub proof fn law_build_records(
    course: Seq<JavaBuild>,
    events: Seq<Event>,
    renames: bool,
    records: bool,
    i: int,
)
    requires
        course_of(course, events, renames, records),
        0 <= i < course.len(),
    ensures
        course[i].step == Step::WriteDiagnostics ==> records && i > 0 && course[i - 1].step
            == Step::RunJavac && !(events[i - 1] is Failed),
        records && i < events.len() && course[i].step == Step::RunJavac && !(events[i] is Failed)
            ==> course[i + 1].step == Step::WriteDiagnostics,
        forall|j: int|
            0 <= j < i && course[i].step == Step::WriteDiagnostics ==> (#[trigger] course[j]).step
                != Step::WriteDiagnostics,
{
    lemma_history(course, events, renames, records, i);
    if i < events.len() {
        law_build_next(course, events, renames, records, i);
    }
    assert forall|j: int|
        0 <= j < i && course[i].step == Step::WriteDiagnostics implies (#[trigger] course[j]).step
        != Step::WriteDiagnostics by {
        lemma_forward(course, events, renames, records, j, i);
    }
}

/// How far a build has come.
pub open spec fn rank(step: Step) -> int {
    match step {
        Step::Rename => 0,
        Step::WriteManifest => 1,
        Step::RunJavac => 2,
        Step::WriteDiagnostics => 3,
        Step::ListClasses => 4,
        Step::RunJar => 5,
        Step::Restore => 6,
        Step::Done => 7,
    }
}

proof fn lemma_forward(
    course: Seq<JavaBuild>,
    events: Seq<Event>,
    renames: bool,
    records: bool,
    j: int,
    i: int,
)
    requires
        course_of(course, events, renames, records),
        0 <= j < i < course.len(),
    ensures
        rank(course[j].step) < rank(course[i].step) || course[i].step == Step::Done,
    decreases i - j,
{
    law_build_next(course, events, renames, records, i - 1);
    if j < i - 1 {
        lemma_forward(course, events, renames, records, j, i - 1);
    }
}

/// The steps of a build come in their order, each once at most.
pub proof fn law_build_forward(
    course: Seq<JavaBuild>,
    events: Seq<Event>,
    renames: bool,
    records: bool,
    j: int,
    i: int,
)
    requires
        course_of(course, events, renames, records),
        0 <= j < i < course.len(),
        course[i].step != Step::Done,
    ensures
        rank(course[j].step) < rank(course[i].step),
{
    lemma_forward(course, events, renames, records, j, i);
}

/// A build that is done succeeded where all deciding steps went well and jar was
/// run; otherwise it failed as the first deciding step that did not go well
/// failed. Writing the diagnostics and restoring the source file decide nothing.
pub proof fn law_build_outcome(
    course: Seq<JavaBuild>,
    events: Seq<Event>,
    renames: bool,
    records: bool,
)
    requires
        course_of(course, events, renames, records),
        course.last().step == Step::Done,
    ensures
        course.last().outcome is Ok <==> fine_before(course, events, course.len() - 1),
        course.last().outcome is Ok ==> taken(course, Step::RunJar, course.len() - 1),
        course.last().outcome matches Err(f) ==> first_failure(
            course,
            events,
            course.len() - 1,
            f,
        ),
{
    lemma_history(course, events, renames, records, course.len() - 1);
}

/// A source file that was renamed gets its own name back before the build is done;
/// one that is not to be renamed is neither renamed nor restored.
pub proof fn law_build_renames(
    course: Seq<JavaBuild>,
    events: Seq<Event>,
    renames: bool,
    records: bool,
    i: int,
)
    requires
        course_of(course, events, renames, records),
        0 <= i < events.len(),
    ensures
        !renames ==> course[i].step != Step::Rename && course[i].step != Step::Restore,
        course[i].step == Step::Rename && fine(events[i]) && course.last().step == Step::Done ==> {
            exists|k: int| i < k < course.len() - 1 && (#[trigger] course[k]).step == Step::Restore
        },
{
    law_build_next(course, events, renames, records, i);
    if course[i].step == Step::Rename && fine(events[i]) && course.last().step == Step::Done {
        lemma_restored(course, events, renames, records, i + 1);
    }
}

proof fn lemma_restored(
    course: Seq<JavaBuild>,
    events: Seq<Event>,
    renames: bool,
    records: bool,
    i: int,
)
    requires
        course_of(course, events, renames, records),
        renames,
        0 <= i < course.len(),
        course[i].step != Step::Rename,
        course[i].step != Step::Done,
        course.last().step == Step::Done,
    ensures
        exists|k: int| i <= k < course.len() - 1 && (#[trigger] course[k]).step == Step::Restore,
    decreases course.len() - i,
{
    if course[i].step == Step::Restore {
        assert(i < course.len() - 1);
    } else {
        assert(i < events.len());
        law_build_next(course, events, renames, records, i);
        lemma_restored(course, events, renames, records, i + 1);
        let k = choose|k: int|
            i + 1 <= k < course.len() - 1 && (#[trigger] course[k]).step == Step::Restore;
        assert(course[k].step == Step::Restore);
    }
}

/// Every state of a build can go on, whatever happens.
pub proof fn law_build_goes_on(
    course: Seq<JavaBuild>,
    events: Seq<Event>,
    renames: bool,
    records: bool,
    i: int,
    b: &mut JavaBuild,
    e: Event,
)
    requires
        course_of(course, events, renames, records),
        0 <= i < course.len(),
        *old(b) == course[i],
    ensures
        call_requires(JavaBuild::advance, (b, e)),
{
    lemma_history(course, events, renames, records, i);
}

} // verus!
