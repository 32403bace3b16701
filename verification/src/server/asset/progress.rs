//! The progress that a refresh of the index of assets reports.
use vstd::prelude::*;

use super::scan::{progress_bucket, reports_progress, scan_progress, ASSET_PROGRESS_EVERY};

verus! {

/// What a refresh is doing.
#[derive(Clone, Copy, PartialEq, Eq, Structural, Debug)]
pub enum RefreshStage {
    Scan,
    Persist,
    Ready,
}

pub open spec fn stage_text(stage: RefreshStage) -> Seq<char> {
    match stage {
        RefreshStage::Scan => "Scan"@,
        RefreshStage::Persist => "Persist"@,
        RefreshStage::Ready => "Ready"@,
    }
}

impl RefreshStage {
    pub fn as_str(self) -> (r: &'static str)
        ensures
            r@ == stage_text(self),
    {
        match self {
            RefreshStage::Scan => "Scan",
            RefreshStage::Persist => "Persist",
            RefreshStage::Ready => "Ready",
        }
    }
}

/// One report: how many of how many are done.
#[derive(Clone, Copy, PartialEq, Eq, Structural, Debug)]
pub struct Progress {
    pub current: usize,
    pub total: usize,
    pub stage: RefreshStage,
}

/// A total is never less than one.
pub open spec fn at_least_one(n: usize) -> usize {
    if n < 1 {
        1
    } else {
        n
    }
}

fn whole(n: usize) -> (r: usize)
    ensures
        r == at_least_one(n),
{
    if n < 1 {
        1
    } else {
        n
    }
}

/// A report is due after the first item, after the last and after every so many.
pub open spec fn due(current: int, work: usize) -> bool {
    current == at_least_one(work) || current == 1 || current % ASSET_PROGRESS_EVERY as int == 0
}

pub open spec fn report_of(current: usize, work: usize, stage: RefreshStage) -> Progress {
    Progress { current, total: at_least_one(work), stage }
}

/// What is reported after the first `upto` of the items.
pub open spec fn reports_upto(work: usize, stage: RefreshStage, upto: int) -> Seq<Progress>
    decreases upto,
{
    if upto <= 0 {
        Seq::empty()
    } else if due(upto, work) {
        reports_upto(work, stage, upto - 1).push(report_of(upto as usize, work, stage))
    } else {
        reports_upto(work, stage, upto - 1)
    }
}

/// What is reported before any item is done.
pub fn begin_report(work: usize, stage: RefreshStage) -> (r: Progress)
    ensures
        r == report_of(0, work, stage),
{
    Progress { current: 0, total: whole(work), stage }
}

/// What is reported after an item, if a report is due.
pub fn step_report(current: usize, work: usize, stage: RefreshStage) -> (r: Option<Progress>)
    ensures
        r == if due(current as int, work) {
            Some(report_of(current, work, stage))
        } else {
            None
        },
{
    let total: usize = whole(work);
    if reports_progress(current, total) {
        Some(Progress { current, total, stage })
    } else {
        None
    }
}

/// What is reported after all items, one after the other.
pub fn step_reports(work: usize, stage: RefreshStage) -> (r: Vec<Progress>)
    ensures
        r@ == reports_upto(work, stage, work as int),
{
    let mut r: Vec<Progress> = Vec::new();
    let mut done: usize = 0;
    while done < work
        invariant
            done <= work,
            r@ == reports_upto(work, stage, done as int),
        decreases work - done,
    {
        done = done + 1;
        if let Some(p) = step_report(done, work, stage) {
            r.push(p);
        }
    }
    r
}

/// What is reported once everything is written.
pub fn ready_report(work: usize) -> (r: Progress)
    ensures
        r == report_of(at_least_one(work), work, RefreshStage::Ready),
{
    let total: usize = whole(work);
    Progress { current: total, total, stage: RefreshStage::Ready }
}

/// What is reported after a file is read, and the last thousandth that was reported then: besides
/// the reports that are due, one wherever a new thousandth of the files is reached.
pub fn read_report(current: usize, files: usize, reported: usize) -> (r: (Option<Progress>, usize))
    ensures
        ({
            let bucket = progress_bucket(current as int, files as int);
            let plain = current == files || current == 1 || current as int
                % ASSET_PROGRESS_EVERY as int == 0;
            let moved = reported < bucket < 1000;
            r == (if plain || moved {
                Some(report_of(current, files, RefreshStage::Scan))
            } else {
                None
            }, if !plain && moved {
                bucket as usize
            } else {
                reported
            })
        }),
{
    let (now, bucket) = scan_progress(current, files, reported);
    if now {
        (Some(Progress { current, total: whole(files), stage: RefreshStage::Scan }), bucket)
    } else {
        (None, bucket)
    }
}

/// The reports after the items count upwards, none beyond the last item, which is reported; so is
/// the first.
pub proof fn reports_count_upwards(work: usize, stage: RefreshStage, upto: int)
    requires
        0 <= upto <= work,
    ensures
        forall|i: int|
            0 <= i < reports_upto(work, stage, upto).len() ==> 1 <= (#[trigger] reports_upto(
                work,
                stage,
                upto,
            )[i]).current <= upto,
        forall|i: int, j: int|
            0 <= i < j < reports_upto(work, stage, upto).len() ==> (#[trigger] reports_upto(
                work,
                stage,
                upto,
            )[i]).current < (#[trigger] reports_upto(work, stage, upto)[j]).current,
        upto > 0 ==> reports_upto(work, stage, upto).len() > 0 && reports_upto(
            work,
            stage,
            upto,
        )[0].current == 1,
        upto == work && work > 0 ==> reports_upto(work, stage, upto).last() == report_of(
            work,
            work,
            stage,
        ),
    decreases upto,
{
    if upto > 0 {
        reports_count_upwards(work, stage, upto - 1);
    }
}

/// How far the writing of so many items has come.
#[derive(Clone, Copy, PartialEq, Eq, Structural, Debug)]
pub enum WriteState {
    Fresh,
    Writing { done: usize },
    Finished,
}

/// One step of the writing: what is reported, and where it then stands. The first step begins, each
/// following one writes an item, and the last one finishes.
pub open spec fn write_step(work: usize, state: WriteState) -> (WriteState, Option<Progress>) {
    match state {
        WriteState::Fresh => (
            WriteState::Writing { done: 0 },
            Some(report_of(0, work, RefreshStage::Persist)),
        ),
        WriteState::Writing { done } => if done < work {
            (
                WriteState::Writing { done: (done + 1) as usize },
                if due(done + 1, work) {
                    Some(report_of((done + 1) as usize, work, RefreshStage::Persist))
                } else {
                    None
                },
            )
        } else {
            (
                WriteState::Finished,
                Some(report_of(at_least_one(work), work, RefreshStage::Ready)),
            )
        },
        WriteState::Finished => (WriteState::Finished, None),
    }
}

/// The reports of a refresh that writes so many items, one step after the other.
#[derive(Clone, Copy, Debug)]
pub struct WriteReports {
    pub work: usize,
    pub state: WriteState,
}

impl WriteReports {
    pub fn new(work: usize) -> (r: Self)
        ensures
            r.work == work,
            r.state == WriteState::Fresh,
    {
        WriteReports { work, state: WriteState::Fresh }
    }

    /// Goes one step on and says what is to be reported.
    pub fn step(&mut self) -> (r: Option<Progress>)
        ensures
            final(self).work == old(self).work,
            (final(self).state, r) == write_step(old(self).work, old(self).state),
    {
        match self.state {
            WriteState::Fresh => {
                self.state = WriteState::Writing { done: 0 };
                Some(begin_report(self.work, RefreshStage::Persist))
            },
            WriteState::Writing { done } => if done < self.work {
                self.state = WriteState::Writing { done: done + 1 };
                step_report(done + 1, self.work, RefreshStage::Persist)
            } else {
                self.state = WriteState::Finished;
                Some(ready_report(self.work))
            },
            WriteState::Finished => None,
        }
    }
}

/// How many steps are left.
pub open spec fn steps_left(work: usize, state: WriteState) -> nat {
    match state {
        WriteState::Fresh => (work + 2) as nat,
        WriteState::Writing { done } => if done < work {
            (work - done + 1) as nat
        } else {
            1
        },
        WriteState::Finished => 0,
    }
}

/// All that is reported from a state on, until the writing is finished.
pub open spec fn reported_from(work: usize, state: WriteState) -> Seq<Progress>
    decreases steps_left(work, state),
{
    if state == WriteState::Finished {
        Seq::empty()
    } else {
        let (next, report) = write_step(work, state);
        match report {
            Some(p) => seq![p] + reported_from(work, next),
            None => reported_from(work, next),
        }
    }
}

proof fn lemma_reported_items(work: usize, done: usize)
    requires
        done <= work,
    ensures
        reports_upto(work, RefreshStage::Persist, done as int) + reported_from(
            work,
            WriteState::Writing { done },
        ) == reports_upto(work, RefreshStage::Persist, work as int).push(
            report_of(at_least_one(work), work, RefreshStage::Ready),
        ),
    decreases work - done,
{
    let before = reports_upto(work, RefreshStage::Persist, done as int);
    let (next, report) = write_step(work, WriteState::Writing { done });
    if done < work {
        lemma_reported_items(work, (done + 1) as usize);
        if let Some(p) = report {
            assert(before + (seq![p] + reported_from(work, next)) =~= before.push(p)
                + reported_from(work, next));
        }
    } else {
        assert(reported_from(work, WriteState::Finished).len() == 0);
        assert(before + (seq![report->0] + reported_from(work, next)) =~= before.push(report->0));
    }
}

/// Writing is first reported before any item is written, then after the items, counting upwards,
/// and last, once, when everything is written. All these reports have one total.
pub proof fn writing_is_reported_in_order(work: usize)
    ensures
        reported_from(work, WriteState::Fresh) == (seq![report_of(0, work, RefreshStage::Persist)]
            + reports_upto(work, RefreshStage::Persist, work as int)).push(
            report_of(at_least_one(work), work, RefreshStage::Ready),
        ),
        forall|i: int|
            0 <= i < reported_from(work, WriteState::Fresh).len() ==> (#[trigger] reported_from(
                work,
                WriteState::Fresh,
            )[i]).total == at_least_one(work),
{
    let items = reports_upto(work, RefreshStage::Persist, work as int);
    let first = report_of(0, work, RefreshStage::Persist);
    let last = report_of(at_least_one(work), work, RefreshStage::Ready);
    lemma_reported_items(work, 0);
    lemma_one_total(work, RefreshStage::Persist, work as int);
    let rest = reported_from(work, WriteState::Writing { done: 0 });
    assert(reports_upto(work, RefreshStage::Persist, 0) + rest =~= rest);
    assert(seq![first] + items.push(last) =~= (seq![first] + items).push(last));
}

proof fn lemma_one_total(work: usize, stage: RefreshStage, upto: int)
    ensures
        forall|i: int|
            0 <= i < reports_upto(work, stage, upto).len() ==> (#[trigger] reports_upto(
                work,
                stage,
                upto,
            )[i]).total == at_least_one(work),
    decreases upto,
{
    if upto > 0 {
        lemma_one_total(work, stage, upto - 1);
    }
}

} // verus!
