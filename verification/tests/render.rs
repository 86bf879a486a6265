use mandelbrot::qimage::QImageFormat;
use mandelbrot::render::{
    max_iterations, pixel_color, qrgb, row_step, shade_row, should_park, PassReport, RenderJob,
    RenderStart, RenderWorker, RowStep, COLOR_MAP_SIZE, NUM_PASSES, OPAQUE_BLACK,
};

fn test_color_map() -> [u32; COLOR_MAP_SIZE] {
    let mut map = [0u32; COLOR_MAP_SIZE];
    for (i, entry) in map.iter_mut().enumerate() {
        *entry = 0xFF00_0000 | i as u32;
    }
    map
}

/// Runs a request through all its passes with the given per-pass outcomes
/// (all black, restart at its end) and returns what it published.
fn run_schedule(outcomes: &[(bool, bool)]) -> Vec<PassReport> {
    let mut job = RenderJob::new(4, 4);
    let mut reports = Vec::new();
    let mut i = 0;
    while job.in_progress() {
        let (all_black, restart) = outcomes[i];
        job.begin_pass();
        let shade = shade_row(&[if all_black { usize::MAX } else { 0 }], 65, &test_color_map());
        job.record_row(&shade);
        if let Some(report) = job.end_pass(restart) {
            reports.push(report);
        }
        i += 1;
    }
    reports
}

#[test]
fn budgets_of_every_pass() {
    let expected: [usize; 8] = [65, 257, 1025, 4097, 16385, 65537, 262145, 1048577];
    for pass in 0..NUM_PASSES {
        assert_eq!(max_iterations(pass), expected[pass as usize]);
    }
}

#[test]
fn budgets_quadruple() {
    for pass in 0..NUM_PASSES - 1 {
        assert_eq!(max_iterations(pass + 1) - 1, 4 * (max_iterations(pass) - 1));
    }
}

#[test]
fn pixel_black_when_budget_reached() {
    let map = test_color_map();
    assert_eq!(pixel_color(65, 65, &map), OPAQUE_BLACK);
    assert_eq!(pixel_color(66, 65, &map), 0xFF00_0000);
    assert_eq!(pixel_color(64, 65, &map), 0xFF00_0040);
}

#[test]
fn pixel_wraps_around_color_map() {
    let map = test_color_map();
    assert_eq!(pixel_color(513, 1025, &map), 0xFF00_0001);
    assert_eq!(pixel_color(512, 1025, &map), 0xFF00_0000);
}

#[test]
fn row_colours_every_point() {
    let map = test_color_map();
    let shade = shade_row(&[3, 100, 7, 60], 65, &map);
    assert_eq!(shade.colors, vec![0xFF00_0003, OPAQUE_BLACK, 0xFF00_0007, 0xFF00_003C]);
    assert!(shade.escaped);
}

#[test]
fn row_all_black() {
    let map = test_color_map();
    let shade = shade_row(&[65, 66, 100], 65, &map);
    assert_eq!(shade.colors, vec![OPAQUE_BLACK; 3]);
    assert!(!shade.escaped);
}

#[test]
fn empty_row_writes_nothing() {
    let map = test_color_map();
    let shade = shade_row(&[], 65, &map);
    assert!(shade.colors.is_empty());
    assert!(!shade.escaped);
}

#[test]
fn points_go_to_their_own_columns() {
    let job = RenderJob::new(4, 2);
    assert_eq!(job.columns(), (-2, 2));
    assert_eq!(job.column(-2), 0);
    assert_eq!(job.column(-1), 1);
    assert_eq!(job.column(0), 2);
    assert_eq!(job.column(1), 3);
}

#[test]
fn restart_seen_before_abort() {
    assert_eq!(row_step(true, true), RowStep::Restart);
    assert_eq!(row_step(true, false), RowStep::Restart);
    assert_eq!(row_step(false, true), RowStep::Abort);
    assert_eq!(row_step(false, false), RowStep::Render);
}

#[test]
fn render_thread_started_once() {
    let mut worker = RenderWorker::new();
    assert!(!worker.is_running());
    assert_eq!(worker.request(), RenderStart::Spawn);
    assert!(worker.is_running());
    assert_eq!(worker.request(), RenderStart::Restart);
    assert_eq!(worker.request(), RenderStart::Restart);
}

#[test]
fn parks_unless_restarted() {
    assert!(should_park(false));
    assert!(!should_park(true));
}

#[test]
fn job_extents_round_toward_zero() {
    let job = RenderJob::new(7, -5);
    assert_eq!(job.half_width(), 3);
    assert_eq!(job.half_height(), -2);
    assert_eq!(job.columns(), (-3, 3));
    assert_eq!(job.rows(), (2, -2));
    assert_eq!(job.pass(), 0);
}

#[test]
fn scan_lines_start_at_zero() {
    let job = RenderJob::new(640, 480);
    assert_eq!(job.rows(), (-240, 240));
    assert_eq!(job.scan_line(-240), 0);
    assert_eq!(job.scan_line(239), 479);
}

#[test]
fn images_are_rgb32() {
    assert_eq!(RenderJob::image_format(), QImageFormat::Format_RGB32);
}

#[test]
fn schedule_publishes_every_pass() {
    let reports = run_schedule(&[(false, false); 8]);
    let numbers: Vec<i32> = reports.iter().map(|r| r.pass_number).collect();
    assert_eq!(numbers, vec![1, 2, 3, 4, 5, 6, 7, 8]);
    assert_eq!(reports[0].max_iterations, 65);
    assert_eq!(reports[7].max_iterations, 1048577);
}

#[test]
fn schedule_skips_after_black_first_pass() {
    let reports = run_schedule(&[(true, false); 8]);
    let numbers: Vec<i32> = reports.iter().map(|r| r.pass_number).collect();
    assert_eq!(numbers, vec![5, 6, 7, 8]);
    assert_eq!(reports[0].max_iterations, 16385);
}

#[test]
fn schedule_publishes_nothing_on_restart() {
    let reports = run_schedule(&[(false, true); 8]);
    assert!(reports.is_empty());
}

#[test]
fn restart_in_black_first_pass_still_skips() {
    let mut job = RenderJob::new(2, 2);
    job.begin_pass();
    assert_eq!(job.end_pass(true), None);
    assert_eq!(job.pass(), 4);
}

#[test]
fn message_of_first_pass() {
    let report = PassReport { pass_number: 1, max_iterations: 65 };
    assert_eq!(report.message(), "Pass 1 / 8, max iterations: 65");
}

#[test]
fn message_of_last_pass() {
    let report = PassReport { pass_number: 8, max_iterations: 1048577 };
    assert_eq!(report.message(), "Pass 8 / 8, max iterations: 1048577");
}

#[test]
fn message_of_negative_number() {
    let report = PassReport { pass_number: -12, max_iterations: 0 };
    assert_eq!(report.message(), "Pass -12 / 8, max iterations: 0");
}

#[test]
fn qrgb_channels() {
    assert_eq!(qrgb(0, 0, 0), 0xFF00_0000);
    assert_eq!(qrgb(255, 0, 0), 0xFFFF_0000);
    assert_eq!(qrgb(0, 255, 0), 0xFF00_FF00);
    assert_eq!(qrgb(0, 0, 255), 0xFF00_00FF);
    assert_eq!(qrgb(255, 255, 255), 0xFFFF_FFFF);
    assert_eq!(qrgb(0x12, 0x34, 0x56), 0xFF12_3456);
}
