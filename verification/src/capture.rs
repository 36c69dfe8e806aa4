//! The burst capture of a finished selection: a job that takes a fixed number
//! of frames at a fixed interval, planned as a state machine.
//!
//! The machine decides; the caller acts. It asks the machine what to do at
//! the present time, waits or captures and saves a frame as told, and reports
//! how the frame went. Time is a count of milliseconds on a monotonic clock.

use vstd::prelude::*;
use vstd::string::*;
use crate::geometry::Region;
use crate::naming::{frame_file_name, frame_name};

verus! {

/// The number of frames that a job takes.
pub const FRAME_COUNT: u32 = 3;

/// The time from one frame of a job to the next, in milliseconds.
pub const FRAME_INTERVAL_MS: u32 = 1000;

/// Why a job produced no complete set of frames.
#[derive(Clone, Copy, Debug, PartialEq, Eq, Structural)]
pub enum CaptureError {
    /// The region has no area; nothing was captured.
    DegenerateRegion,
    /// No capture backend could be found for the region's origin, or it gave
    /// no image, when this frame was due.
    BackendUnavailable { frame: u32 },
    /// The image of this frame could not be saved.
    SaveFailed { frame: u32 },
    /// The job was called off when this frame was the next to take.
    Cancelled { frame: u32 },
}

/// How the capture of one frame went.
#[derive(Clone, Copy, Debug, PartialEq, Eq, Structural)]
pub enum FrameOutcome {
    /// The frame was captured and saved.
    Saved,
    /// The backend could not be resolved or gave no image.
    BackendFailed,
    /// The image could not be saved.
    SaveFailed,
}

/// What the caller has to do next.
#[derive(Clone, Copy, Debug, PartialEq, Eq, Structural)]
pub enum CaptureStep {
    /// Sleep for this many milliseconds, then ask again.
    Wait { millis: u64 },
    /// Capture the frame with this index now, save it, and report the outcome.
    Capture { index: u32 },
    /// All frames are saved: assemble them.
    Assemble,
    /// The job has failed: report the error and do not assemble.
    Abort(CaptureError),
}

/// The mathematical content of a job.
pub struct JobModel {
    pub region: Region,
    pub frame_count: nat,
    pub frame_interval: nat,
    pub output_dir: Seq<char>,
}

/// One capture job: a region with an area, the number of frames, the time
/// between frames and the directory that receives them.
#[derive(Debug)]
pub struct CaptureJob {
    region: Region,
    frame_count: u32,
    frame_interval: u32,
    output_dir: String,
}

impl View for CaptureJob {
    type V = JobModel;

    closed spec fn view(&self) -> JobModel {
        JobModel {
            region: self.region,
            frame_count: self.frame_count as nat,
            frame_interval: self.frame_interval as nat,
            output_dir: self.output_dir@,
        }
    }
}

impl CaptureJob {
    /// A job for a region, or the refusal of a region without area. No
    /// capture is attempted for such a region.
    pub fn new(region: Region, output_dir: String) -> (r: Result<CaptureJob, CaptureError>)
        ensures
            region.degenerate() ==> r == Err::<CaptureJob, CaptureError>(
                CaptureError::DegenerateRegion,
            ),
            !region.degenerate() ==> r is Ok && r->Ok_0@ == (JobModel {
                region,
                frame_count: FRAME_COUNT as nat,
                frame_interval: FRAME_INTERVAL_MS as nat,
                output_dir: output_dir@,
            }),
    {
        if region.is_degenerate() {
            Err(CaptureError::DegenerateRegion)
        } else {
            Ok(
                CaptureJob {
                    region,
                    frame_count: FRAME_COUNT,
                    frame_interval: FRAME_INTERVAL_MS,
                    output_dir,
                },
            )
        }
    }

    pub fn region(&self) -> (r: Region)
        ensures
            r == self@.region,
    {
        self.region
    }

    pub fn frame_count(&self) -> (n: u32)
        ensures
            n == self@.frame_count,
    {
        self.frame_count
    }

    pub fn frame_interval_ms(&self) -> (ms: u32)
        ensures
            ms == self@.frame_interval,
    {
        self.frame_interval
    }

    pub fn output_dir(&self) -> (dir: &str)
        ensures
            dir@ == self@.output_dir,
    {
        self.output_dir.as_str()
    }

    /// The name of the file, within the output directory, that holds the
    /// frame with this index.
    pub fn frame_file(&self, index: u32) -> (name: String)
        ensures
            name@ == frame_name(
                self@.region.width as nat,
                self@.region.height as nat,
                index as nat,
            ),
    {
        frame_file_name(self.region.width, self.region.height, index)
    }
}

/// The mathematical state of a burst.
pub struct BurstModel {
    pub job: JobModel,
    pub started_at: nat,
    /// How many frames are saved; also the index of the next one.
    pub saved: nat,
    pub failure: Option<CaptureError>,
}

impl BurstModel {
    /// The time that has passed since the job started.
    pub open spec fn elapsed(self, now: nat) -> nat {
        if now >= self.started_at {
            (now - self.started_at) as nat
        } else {
            0
        }
    }

    /// The time after the start at which the frame with this index is due.
    /// Ticks are counted from the start of the job, so a late frame does not
    /// push the later ones back.
    pub open spec fn due(self, index: nat) -> nat {
        index * self.job.frame_interval
    }

    /// What is to be done at `now`.
    pub open spec fn next_step(self, now: nat) -> CaptureStep {
        match self.failure {
            Some(error) => CaptureStep::Abort(error),
            None => if self.saved >= self.job.frame_count {
                CaptureStep::Assemble
            } else if self.elapsed(now) >= self.due(self.saved) {
                CaptureStep::Capture { index: self.saved as u32 }
            } else {
                CaptureStep::Wait { millis: (self.due(self.saved) - self.elapsed(now)) as u64 }
            },
        }
    }

    /// The state after the outcome of the frame that was due. A failure ends
    /// the job at that frame; a report that no frame was waiting for changes
    /// nothing.
    pub open spec fn record(self, outcome: FrameOutcome) -> BurstModel {
        if self.failure is Some || self.saved >= self.job.frame_count {
            self
        } else {
            match outcome {
                FrameOutcome::Saved => BurstModel { saved: self.saved + 1, ..self },
                FrameOutcome::BackendFailed => BurstModel {
                    failure: Some(CaptureError::BackendUnavailable { frame: self.saved as u32 }),
                    ..self
                },
                FrameOutcome::SaveFailed => BurstModel {
                    failure: Some(CaptureError::SaveFailed { frame: self.saved as u32 }),
                    ..self
                },
            }
        }
    }

    /// The state after the job was called off: a running job fails at the
    /// frame that was next; a job that has failed or has all its frames stays
    /// as it is.
    pub open spec fn cancel(self) -> BurstModel {
        if self.failure is Some || self.saved >= self.job.frame_count {
            self
        } else {
            BurstModel {
                failure: Some(CaptureError::Cancelled { frame: self.saved as u32 }),
                ..self
            }
        }
    }
}

/// The progress of one job.
#[derive(Debug)]
pub struct BurstCapture {
    job: CaptureJob,
    started_at: u64,
    saved: u32,
    failure: Option<CaptureError>,
}

impl View for BurstCapture {
    type V = BurstModel;

    closed spec fn view(&self) -> BurstModel {
        BurstModel {
            job: self.job@,
            started_at: self.started_at as nat,
            saved: self.saved as nat,
            failure: self.failure,
        }
    }
}

impl BurstCapture {
    /// Starts a job at `now`: the first frame is due at once.
    pub fn begin(job: CaptureJob, now: u64) -> (burst: BurstCapture)
        ensures
            burst@ == started(job@, now as nat),
    {
        BurstCapture { job, started_at: now, saved: 0, failure: None }
    }

    pub fn job(&self) -> (job: &CaptureJob)
        ensures
            job@ == self@.job,
    {
        &self.job
    }

    pub fn frames_saved(&self) -> (n: u32)
        ensures
            n == self@.saved,
    {
        self.saved
    }

    pub fn failure(&self) -> (e: Option<CaptureError>)
        ensures
            e == self@.failure,
    {
        self.failure
    }

    /// What the caller has to do at `now`.
    pub fn next_step(&self, now: u64) -> (step: CaptureStep)
        ensures
            step == self@.next_step(now as nat),
    {
        match self.failure {
            Some(error) => CaptureStep::Abort(error),
            None => {
                if self.saved >= self.job.frame_count {
                    CaptureStep::Assemble
                } else {
                    let elapsed: u64 = if now >= self.started_at {
                        now - self.started_at
                    } else {
                        0
                    };
                    assert(self.saved as nat * self.job.frame_interval as nat <= u64::MAX)
                        by (nonlinear_arith)
                        requires
                            self.saved <= u32::MAX,
                            self.job.frame_interval <= u32::MAX,
                    ;
                    let due: u64 = self.saved as u64 * self.job.frame_interval as u64;
                    if elapsed >= due {
                        CaptureStep::Capture { index: self.saved }
                    } else {
                        CaptureStep::Wait { millis: due - elapsed }
                    }
                }
            },
        }
    }

    /// Calls the job off. Frames that are saved stay where they are; it is for
    /// the caller to discard them.
    pub fn cancel(&mut self)
        ensures
            final(self)@ == old(self)@.cancel(),
    {
        if self.failure.is_none() && self.saved < self.job.frame_count {
            self.failure = Some(CaptureError::Cancelled { frame: self.saved });
        }
    }

    /// Takes the outcome of the frame that `next_step` asked for.
    pub fn record(&mut self, outcome: FrameOutcome)
        ensures
            final(self)@ == old(self)@.record(outcome),
    {
        if self.failure.is_some() || self.saved >= self.job.frame_count {
            return ;
        }
        match outcome {
            FrameOutcome::Saved => {
                self.saved = self.saved + 1;
            },
            FrameOutcome::BackendFailed => {
                self.failure = Some(CaptureError::BackendUnavailable { frame: self.saved });
            },
            FrameOutcome::SaveFailed => {
                self.failure = Some(CaptureError::SaveFailed { frame: self.saved });
            },
        }
    }
}

/// The state of a job that has just started.
pub open spec fn started(job: JobModel, now: nat) -> BurstModel {
    BurstModel { job, started_at: now, saved: 0, failure: None }
}

/// The state after a sequence of reported outcomes, first to last.
pub open spec fn replay(burst: BurstModel, outcomes: Seq<FrameOutcome>) -> BurstModel
    decreases outcomes.len(),
{
    if outcomes.len() == 0 {
        burst
    } else {
        replay(burst, outcomes.drop_last()).record(outcomes.last())
    }
}

/// `n` frames that were all saved.
pub open spec fn all_saved(n: nat) -> Seq<FrameOutcome> {
    Seq::new(n, |i: int| FrameOutcome::Saved)
}

/// The error that a failed outcome leaves for the frame with this index.
pub open spec fn error_of(outcome: FrameOutcome, frame: nat) -> CaptureError
    recommends
        outcome != FrameOutcome::Saved,
{
    match outcome {
        FrameOutcome::SaveFailed => CaptureError::SaveFailed { frame: frame as u32 },
        _ => CaptureError::BackendUnavailable { frame: frame as u32 },
    }
}

/// Frames are taken in ascending order, without gaps: after `k` saved frames
/// the next frame is number `k`, and no failure is recorded.
pub proof fn lemma_frames_in_sequence(burst: BurstModel, k: nat)
    requires
        burst.failure is None,
        burst.saved + k <= burst.job.frame_count,
    ensures
        replay(burst, all_saved(k)) == (BurstModel { saved: burst.saved + k, ..burst }),
    decreases k,
{
    if k > 0 {
        assert(all_saved(k).drop_last() =~= all_saved((k - 1) as nat));
        lemma_frames_in_sequence(burst, (k - 1) as nat);
    }
}

/// A failure is final: whatever is reported after it and whenever the
/// machine is asked, the job stays failed with the same error, no further
/// frame is asked for, and assembly is never reached.
pub proof fn lemma_failure_is_final(burst: BurstModel, later: Seq<FrameOutcome>, now: nat)
    requires
        burst.failure is Some,
    ensures
        replay(burst, later) == burst,
        replay(burst, later).next_step(now) == CaptureStep::Abort(burst.failure->Some_0),
    decreases later.len(),
{
    if later.len() > 0 {
        lemma_failure_is_final(burst, later.drop_last(), now);
    }
}

proof fn lemma_replay_concat(burst: BurstModel, a: Seq<FrameOutcome>, b: Seq<FrameOutcome>)
    ensures
        replay(burst, a + b) == replay(replay(burst, a), b),
    decreases b.len(),
{
    if b.len() == 0 {
        assert(a + b =~= a);
    } else {
        assert((a + b).drop_last() =~= a + b.drop_last());
        lemma_replay_concat(burst, a, b.drop_last());
    }
}

/// The first failure aborts the job and names its frame. When `k` frames of
/// a fresh job were saved and the next one fails, the job reports that
/// failure with the frame index `k`, whatever is reported afterwards.
pub proof fn lemma_failure_names_frame(
    job: JobModel,
    start: nat,
    k: nat,
    failed: FrameOutcome,
    later: Seq<FrameOutcome>,
    now: nat,
)
    requires
        k < job.frame_count,
        failed != FrameOutcome::Saved,
    ensures
        replay(started(job, start), all_saved(k).push(failed) + later).next_step(now)
            == CaptureStep::Abort(error_of(failed, k)),
        replay(started(job, start), all_saved(k).push(failed) + later).saved == k,
{
    let fresh = started(job, start);
    let head = all_saved(k).push(failed);
    lemma_frames_in_sequence(fresh, k);
    assert(head.drop_last() =~= all_saved(k));
    let broken = replay(fresh, head);
    assert(broken.failure == Some(error_of(failed, k)));
    lemma_replay_concat(fresh, head, later);
    lemma_failure_is_final(broken, later, now);
}

/// A job that is called off while it runs takes no further frame and never
/// reaches assembly, whatever is reported afterwards.
pub proof fn lemma_cancelled_job_stops(burst: BurstModel, later: Seq<FrameOutcome>, now: nat)
    requires
        burst.failure is None,
        burst.saved < burst.job.frame_count,
    ensures
        replay(burst.cancel(), later).next_step(now) == CaptureStep::Abort(
            CaptureError::Cancelled { frame: burst.saved as u32 },
        ),
{
    lemma_failure_is_final(burst.cancel(), later, now);
}

/// A job whose frames were all saved goes on to assembly, and not before the
/// last of them: with fewer frames saved the machine waits or captures.
pub proof fn lemma_assembly_after_last_frame(job: JobModel, start: nat, k: nat, now: nat)
    requires
        k <= job.frame_count,
    ensures
        replay(started(job, start), all_saved(k)).next_step(now) is Assemble <==> k
            == job.frame_count,
        k < job.frame_count ==> replay(started(job, start), all_saved(k)).next_step(now)
            is Capture || replay(started(job, start), all_saved(k)).next_step(now) is Wait,
{
    lemma_frames_in_sequence(started(job, start), k);
}

/// Frames keep to the schedule of the job's start. At or after the start, a
/// running job asks for frame `k` exactly from the time `start + k * interval`
/// on; before that it asks to wait for exactly the time that is missing.
pub proof fn lemma_schedule_does_not_drift(burst: BurstModel, now: nat)
    requires
        burst.failure is None,
        burst.saved < burst.job.frame_count,
        burst.saved <= u32::MAX,
        now >= burst.started_at,
        burst.saved * burst.job.frame_interval <= u64::MAX,
    ensures
        ({
            let due_at = burst.started_at + burst.saved * burst.job.frame_interval;
            if now >= due_at {
                burst.next_step(now) == (CaptureStep::Capture { index: burst.saved as u32 })
            } else {
                burst.next_step(now) == (CaptureStep::Wait { millis: (due_at - now) as u64 })
            }
        }),
{
}

} // verus!
