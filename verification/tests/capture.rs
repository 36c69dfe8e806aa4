use dragshot::capture::{
    BurstCapture, CaptureError, CaptureJob, CaptureStep, FrameOutcome, FRAME_COUNT,
    FRAME_INTERVAL_MS,
};
use dragshot::geometry::{Point, Region};

fn region() -> Region {
    Region::from_points(Point::new(100, 100), Point::new(300, 400))
}

fn job() -> CaptureJob {
    CaptureJob::new(region(), String::from("target/monitors")).unwrap()
}

#[test]
fn job_has_three_frames_a_second_apart() {
    let job = job();
    assert_eq!(FRAME_COUNT, 3);
    assert_eq!(FRAME_INTERVAL_MS, 1000);
    assert_eq!(job.frame_count(), 3);
    assert_eq!(job.frame_interval_ms(), 1000);
    assert_eq!(job.region(), region());
    assert_eq!(job.output_dir(), "target/monitors");
}

#[test]
fn job_refuses_a_region_without_area() {
    let flat = Region::from_points(Point::new(1, 5), Point::new(9, 5));
    let thin = Region::from_points(Point::new(4, 1), Point::new(4, 9));
    let dot = Region::from_points(Point::new(50, 50), Point::new(50, 50));
    for r in [flat, thin, dot] {
        assert!(matches!(
            CaptureJob::new(r, String::from("frames")),
            Err(CaptureError::DegenerateRegion)
        ));
    }
}

#[test]
fn job_names_its_frame_files() {
    let job = job();
    assert_eq!(job.frame_file(0), "screenshot-200x300-0000000000.png");
    assert_eq!(job.frame_file(2), "screenshot-200x300-0000000002.png");
}

#[test]
fn burst_captures_the_first_frame_at_once() {
    let burst = BurstCapture::begin(job(), 5000);
    assert_eq!(burst.frames_saved(), 0);
    assert_eq!(burst.failure(), None);
    assert_eq!(burst.next_step(5000), CaptureStep::Capture { index: 0 });
}

#[test]
fn burst_waits_for_the_tick_of_the_next_frame() {
    let mut burst = BurstCapture::begin(job(), 5000);
    burst.record(FrameOutcome::Saved);
    assert_eq!(burst.frames_saved(), 1);
    assert_eq!(burst.next_step(5000), CaptureStep::Wait { millis: 1000 });
    assert_eq!(burst.next_step(5250), CaptureStep::Wait { millis: 750 });
    assert_eq!(burst.next_step(5999), CaptureStep::Wait { millis: 1 });
    assert_eq!(burst.next_step(6000), CaptureStep::Capture { index: 1 });
    assert_eq!(burst.next_step(7500), CaptureStep::Capture { index: 1 });
}

#[test]
fn burst_does_not_drift_after_a_slow_frame() {
    let mut burst = BurstCapture::begin(job(), 5000);
    burst.record(FrameOutcome::Saved);
    // The second frame was taken late, at 6400: the third is still due at 7000.
    burst.record(FrameOutcome::Saved);
    assert_eq!(burst.next_step(6400), CaptureStep::Wait { millis: 600 });
    assert_eq!(burst.next_step(7000), CaptureStep::Capture { index: 2 });
}

#[test]
fn burst_assembles_after_the_last_frame() {
    let mut burst = BurstCapture::begin(job(), 0);
    for index in 0..3u32 {
        assert_eq!(burst.next_step(10_000), CaptureStep::Capture { index });
        burst.record(FrameOutcome::Saved);
    }
    assert_eq!(burst.frames_saved(), 3);
    assert_eq!(burst.next_step(10_000), CaptureStep::Assemble);
    assert_eq!(burst.next_step(0), CaptureStep::Assemble);
}

#[test]
fn burst_ignores_reports_after_the_last_frame() {
    let mut burst = BurstCapture::begin(job(), 0);
    for _ in 0..3 {
        burst.record(FrameOutcome::Saved);
    }
    burst.record(FrameOutcome::SaveFailed);
    burst.record(FrameOutcome::Saved);
    assert_eq!(burst.frames_saved(), 3);
    assert_eq!(burst.failure(), None);
    assert_eq!(burst.next_step(1), CaptureStep::Assemble);
}

#[test]
fn backend_failure_aborts_and_names_the_frame() {
    let mut burst = BurstCapture::begin(job(), 0);
    burst.record(FrameOutcome::Saved);
    burst.record(FrameOutcome::BackendFailed);
    let error = CaptureError::BackendUnavailable { frame: 1 };
    assert_eq!(burst.failure(), Some(error));
    assert_eq!(burst.next_step(0), CaptureStep::Abort(error));
    assert_eq!(burst.next_step(60_000), CaptureStep::Abort(error));
    assert_eq!(burst.frames_saved(), 1);
}

#[test]
fn save_failure_aborts_and_names_the_frame() {
    let mut burst = BurstCapture::begin(job(), 0);
    burst.record(FrameOutcome::SaveFailed);
    let error = CaptureError::SaveFailed { frame: 0 };
    assert_eq!(burst.next_step(0), CaptureStep::Abort(error));
}

#[test]
fn failure_is_final() {
    let mut burst = BurstCapture::begin(job(), 0);
    burst.record(FrameOutcome::Saved);
    burst.record(FrameOutcome::Saved);
    burst.record(FrameOutcome::SaveFailed);
    burst.record(FrameOutcome::Saved);
    burst.record(FrameOutcome::BackendFailed);
    assert_eq!(burst.failure(), Some(CaptureError::SaveFailed { frame: 2 }));
    assert_eq!(burst.frames_saved(), 2);
    assert_eq!(burst.next_step(9000), CaptureStep::Abort(CaptureError::SaveFailed { frame: 2 }));
}

#[test]
fn burst_treats_a_clock_before_the_start_as_the_start() {
    let mut burst = BurstCapture::begin(job(), 5000);
    assert_eq!(burst.next_step(10), CaptureStep::Capture { index: 0 });
    burst.record(FrameOutcome::Saved);
    assert_eq!(burst.next_step(10), CaptureStep::Wait { millis: 1000 });
}

#[test]
fn burst_keeps_its_job() {
    let burst = BurstCapture::begin(job(), 0);
    assert_eq!(burst.job().region(), region());
    assert_eq!(burst.job().output_dir(), "target/monitors");
}

#[test]
fn cancel_stops_a_running_job() {
    let mut burst = BurstCapture::begin(job(), 0);
    burst.record(FrameOutcome::Saved);
    burst.cancel();
    let error = CaptureError::Cancelled { frame: 1 };
    assert_eq!(burst.failure(), Some(error));
    assert_eq!(burst.next_step(5000), CaptureStep::Abort(error));
    burst.record(FrameOutcome::Saved);
    assert_eq!(burst.frames_saved(), 1);
    assert_eq!(burst.next_step(5000), CaptureStep::Abort(error));
}

#[test]
fn cancel_leaves_a_finished_or_failed_job_alone() {
    let mut done = BurstCapture::begin(job(), 0);
    for _ in 0..3 {
        done.record(FrameOutcome::Saved);
    }
    done.cancel();
    assert_eq!(done.failure(), None);
    assert_eq!(done.next_step(0), CaptureStep::Assemble);

    let mut failed = BurstCapture::begin(job(), 0);
    failed.record(FrameOutcome::SaveFailed);
    failed.cancel();
    assert_eq!(failed.failure(), Some(CaptureError::SaveFailed { frame: 0 }));
}
