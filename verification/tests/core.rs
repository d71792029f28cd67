use traj_viewer::camera::Camera;
use traj_viewer::camera::YAW_LOWER;
use traj_viewer::camera::YAW_STEP;
use traj_viewer::camera::YAW_UPPER;
use traj_viewer::config::Config;
use traj_viewer::config::DEFAULT_PITCH;
use traj_viewer::csv::bytes_equal;
use traj_viewer::csv::effective_rows;
use traj_viewer::csv::find_column;
use traj_viewer::csv::parse_table;
use traj_viewer::csv::split_bytes;
use traj_viewer::label::time_label;
use traj_viewer::number::parse_decimal;
use traj_viewer::plan::render_plan;
use traj_viewer::project::project_window;
use traj_viewer::project::wall_coordinate;
use traj_viewer::project::RenderPoint;
use traj_viewer::project::WALL_FAR;
use traj_viewer::project::WALL_NEAR;
use traj_viewer::table::fill_nulls;
use traj_viewer::table::TableError;
use traj_viewer::table::TrajTable;
use traj_viewer::window::windows;
use traj_viewer::window::Windower;

/// A table with `n` rows: x = i, y = 0, z = 0, t = i (data units),
/// all columns fully present, in units of 1/1000000.
fn ramp_table(n: i64) -> TrajTable {
    let mut x = Vec::new();
    let mut y = Vec::new();
    let mut z = Vec::new();
    let mut t = Vec::new();
    let mut i: i64 = 0;
    while i < n {
        x.push(Some(i * 1_000_000));
        y.push(Some(0));
        z.push(Some(0));
        t.push(Some(i * 1_000_000));
        i += 1;
    }
    TrajTable::from_columns(x, y, z, t).unwrap()
}

#[test]
fn window_count_normal_case() {
    // 200 samples, no cap, stride 40: only the window starting at 0 has
    // its end 160 strictly below 200.
    let w = windows(200, 0, 40);
    assert_eq!(w, vec![(0, 160)]);
}

#[test]
fn window_count_zero_case() {
    // 100 samples cannot hold even one window of width 160.
    let w = windows(100, 0, 40);
    assert_eq!(w.len(), 0);
}

#[test]
fn window_count_dense() {
    // 10 samples, stride 1: starts 0..=5 keep their end below 10.
    let w = windows(10, 0, 1);
    assert_eq!(w, vec![(0, 4), (1, 5), (2, 6), (3, 7), (4, 8), (5, 9)]);
}

#[test]
fn window_cap_reduces_count() {
    // 400 samples, stride 40: starts 0,40,...,200 fit below 400.
    assert_eq!(windows(400, 0, 40).len(), 6);
    // Capping at 200 frames leaves only the window at 0.
    assert_eq!(windows(400, 200, 40).len(), 1);
    // A cap at or above the sample count changes nothing.
    assert_eq!(windows(400, 400, 40).len(), 6);
    assert_eq!(windows(400, 1000, 40).len(), 6);
}

#[test]
fn windower_is_lazy_and_finite() {
    let mut w = Windower::new(200, 0, 40);
    assert!(w.has_next());
    assert_eq!(w.next(), Some((0, 160)));
    assert!(!w.has_next());
    assert_eq!(w.next(), None);
    assert_eq!(w.next(), None);
}

#[test]
fn camera_starts_at_upper_bound_drifting_down() {
    let mut c = Camera::new();
    assert_eq!(c.yaw, 10500);
    assert_eq!(c.delta, -20);
    c.advance();
    assert_eq!(c.yaw, 10480);
    assert_eq!(c.delta, -20);
}

#[test]
fn camera_oscillates_within_band() {
    // Long run: the yaw never leaves one step around [0.52, 1.05] rad,
    // and both turning regions are actually visited.
    let mut c = Camera::new();
    let mut lowest = c.yaw;
    let mut highest = c.yaw;
    for _ in 0..2000 {
        c.advance();
        assert!(YAW_LOWER - YAW_STEP <= c.yaw && c.yaw <= YAW_UPPER + YAW_STEP);
        assert!(c.yaw > 0);
        if c.yaw < lowest {
            lowest = c.yaw;
        }
        if c.yaw > highest {
            highest = c.yaw;
        }
    }
    assert!(lowest < YAW_LOWER);
    assert!(highest >= YAW_UPPER);
}

#[test]
fn camera_turns_at_lower_bound() {
    let mut c = Camera::new();
    // 1.05 rad down to below 0.52 rad takes (10500 - 5200) / 20 + 1 steps.
    for _ in 0..266 {
        c.advance();
    }
    assert_eq!(c.yaw, YAW_LOWER - YAW_STEP);
    c.advance();
    assert_eq!(c.delta, YAW_STEP);
    assert_eq!(c.yaw, YAW_LOWER);
}

#[test]
fn wall_follows_yaw_sign() {
    assert_eq!(wall_coordinate(1), WALL_NEAR);
    assert_eq!(wall_coordinate(10500), -1_000_000);
    assert_eq!(wall_coordinate(0), WALL_FAR);
    assert_eq!(wall_coordinate(-5), 25_000_000);
}

#[test]
fn nulls_fill_with_zero_and_keep_every_row() {
    let x = vec![Some(1), None, Some(3)];
    let y = vec![None, None, None];
    let z = vec![Some(7), Some(8), None];
    let t = vec![Some(0), Some(1_000_000), Some(2_000_000)];
    let table = TrajTable::from_columns(x, y, z, t).unwrap();
    assert_eq!(table.height(), 3);
    assert_eq!(table.x, vec![1, 0, 3]);
    assert_eq!(table.y, vec![0, 0, 0]);
    assert_eq!(table.z, vec![7, 8, 0]);
    assert_eq!(table.t, vec![0, 1_000_000, 2_000_000]);
}

#[test]
fn fill_nulls_on_one_column() {
    assert_eq!(fill_nulls(vec![None, Some(-5), None]), vec![0, -5, 0]);
    assert_eq!(fill_nulls(Vec::new()), Vec::<i64>::new());
}

#[test]
fn unequal_columns_are_rejected() {
    let r = TrajTable::from_columns(vec![Some(1)], vec![], vec![Some(1)], vec![Some(1)]);
    assert_eq!(r.unwrap_err(), TableError::ColumnLengthMismatch);
}

#[test]
fn empty_table_is_a_valid_run_with_no_frames() {
    let table = TrajTable::from_columns(Vec::new(), Vec::new(), Vec::new(), Vec::new()).unwrap();
    assert_eq!(table.height(), 0);
    let plan = render_plan(&table, 0, 40);
    assert_eq!(plan.len(), 0);
}

#[test]
fn projection_permutes_axes_and_flattens() {
    let table = TrajTable::from_columns(
        vec![Some(1_000_000)],
        vec![Some(2_000_000)],
        vec![Some(3_000_000)],
        vec![Some(0)],
    )
    .unwrap();
    // Positive yaw: the YZ wall sits on the near side.
    let p = project_window(&table, 0, 1, 10500);
    assert_eq!(p.body, vec![RenderPoint { x: 1_000_000, y: 3_000_000, z: 2_000_000 }]);
    assert_eq!(p.proj_xy, vec![RenderPoint { x: 1_000_000, y: WALL_NEAR, z: 2_000_000 }]);
    assert_eq!(p.proj_xz, vec![RenderPoint { x: 1_000_000, y: 3_000_000, z: WALL_NEAR }]);
    assert_eq!(p.proj_yz, vec![RenderPoint { x: WALL_NEAR, y: 3_000_000, z: 2_000_000 }]);
    // Non-positive yaw: the wall swings to the far side.
    let q = project_window(&table, 0, 1, 0);
    assert_eq!(q.proj_yz, vec![RenderPoint { x: WALL_FAR, y: 3_000_000, z: 2_000_000 }]);
}

#[test]
fn end_to_end_single_frame_scenario() {
    // 200 rows, x and t ramping 0..200, stride 40, no cap: exactly one
    // frame, whose body holds the 160 samples x = 0..160 in order.
    let table = ramp_table(200);
    let plan = render_plan(&table, 0, 40);
    assert_eq!(plan.len(), 1);
    let frame = &plan[0];
    assert_eq!(frame.start, 0);
    assert_eq!(frame.window_end, 160);
    assert_eq!(frame.t0, 0);
    assert_eq!(time_label(frame.t0), b"time: 0.00".to_vec());
    // The camera stepped once before this frame was drawn.
    assert_eq!(frame.yaw, 10480);
    assert_eq!(frame.points.body.len(), 160);
    for i in 0..160usize {
        let p = frame.points.body[i];
        assert_eq!(p.x, (i as i64) * 1_000_000);
        assert_eq!(p.y, 0);
        assert_eq!(p.z, 0);
        // The wall side came from the pre-step yaw 1.05 rad > 0.
        assert_eq!(frame.points.proj_yz[i].x, WALL_NEAR);
    }
}

#[test]
fn capped_plan_never_has_more_frames() {
    let table = ramp_table(400);
    let full = render_plan(&table, 0, 40).len();
    assert_eq!(full, 6);
    for cap in [1usize, 100, 161, 200, 300, 400, 1000] {
        let capped = render_plan(&table, cap, 40).len();
        assert!(capped <= full);
    }
    assert_eq!(render_plan(&table, 200, 40).len(), 1);
}

#[test]
fn time_labels_round_to_hundredths() {
    assert_eq!(time_label(0), b"time: 0.00".to_vec());
    assert_eq!(time_label(1_500_000), b"time: 1.50".to_vec());
    assert_eq!(time_label(123_456_789), b"time: 123.46".to_vec());
    assert_eq!(time_label(5_000), b"time: 0.01".to_vec());
    assert_eq!(time_label(4_999), b"time: 0.00".to_vec());
    assert_eq!(time_label(-1_500_000), b"time: -1.50".to_vec());
    assert_eq!(time_label(-1_000), b"time: 0.00".to_vec());
    assert_eq!(time_label(10_000_000_000), b"time: 10000.00".to_vec());
}

#[test]
fn decimal_cells_parse_to_millionths() {
    assert_eq!(parse_decimal(b"0"), Some(0));
    assert_eq!(parse_decimal(b"1.5"), Some(1_500_000));
    assert_eq!(parse_decimal(b"-0.25"), Some(-250_000));
    assert_eq!(parse_decimal(b"+2"), Some(2_000_000));
    assert_eq!(parse_decimal(b".5"), Some(500_000));
    assert_eq!(parse_decimal(b"3."), Some(3_000_000));
    // Digits beyond the sixth fractional place are ignored.
    assert_eq!(parse_decimal(b"12.3456789"), Some(12_345_678));
    assert_eq!(parse_decimal(b"999999999999.999999"), Some(999_999_999_999_999_999));
}

#[test]
fn malformed_cells_are_rejected() {
    assert_eq!(parse_decimal(b""), None);
    assert_eq!(parse_decimal(b"."), None);
    assert_eq!(parse_decimal(b"-"), None);
    assert_eq!(parse_decimal(b"--1"), None);
    assert_eq!(parse_decimal(b"1.2.3"), None);
    assert_eq!(parse_decimal(b"abc"), None);
    assert_eq!(parse_decimal(b"1e5"), None);
    assert_eq!(parse_decimal(b"1 2"), None);
    // Whole parts of a million million units or more lie outside the
    // tool's data range.
    assert_eq!(parse_decimal(b"1000000000000"), None);
}

#[test]
fn splitting_keeps_empty_fields() {
    let r = split_bytes(b"a,b,,c", b',');
    assert_eq!(r, vec![b"a".to_vec(), b"b".to_vec(), b"".to_vec(), b"c".to_vec()]);
    assert_eq!(split_bytes(b"", b','), vec![b"".to_vec()]);
    assert_eq!(split_bytes(b",", b','), vec![b"".to_vec(), b"".to_vec()]);
}

#[test]
fn rows_skip_comments_and_blanks() {
    let rows = effective_rows(b"# note\r\nx,y\r\n\r\n1,2\n", true);
    assert_eq!(rows, vec![b"x,y".to_vec(), b"1,2".to_vec()]);
    // Without comment handling a '#' line is data.
    let raw = effective_rows(b"# note\nx,y\n", false);
    assert_eq!(raw, vec![b"# note".to_vec(), b"x,y".to_vec()]);
}

#[test]
fn header_lookup_takes_first_match() {
    let names = vec![b"t".to_vec(), b"x".to_vec(), b"x".to_vec()];
    assert_eq!(find_column(&names, b"x"), Some(1));
    assert_eq!(find_column(&names, b"y"), None);
    assert!(bytes_equal(b"xyz", b"xyz"));
    assert!(!bytes_equal(b"xyz", b"xyw"));
    assert!(!bytes_equal(b"xy", b"xyz"));
}

#[test]
fn csv_loads_into_a_table() {
    let text = b"# tracked run\nid,x,y,z,t,extra\n0,1.5,2,3,0.25,junk\n1,,-1,4,0.5,junk\n";
    let table = parse_table(text, true).unwrap();
    assert_eq!(table.height(), 2);
    assert_eq!(table.x, vec![1_500_000, 0]);
    assert_eq!(table.y, vec![2_000_000, -1_000_000]);
    assert_eq!(table.z, vec![3_000_000, 4_000_000]);
    assert_eq!(table.t, vec![250_000, 500_000]);
}

#[test]
fn short_rows_read_as_nulls() {
    let table = parse_table(b"x,y,z,t\n7\n", true).unwrap();
    assert_eq!(table.height(), 1);
    assert_eq!(table.x, vec![7_000_000]);
    assert_eq!(table.y, vec![0]);
    assert_eq!(table.z, vec![0]);
    assert_eq!(table.t, vec![0]);
}

#[test]
fn csv_errors_name_their_cause() {
    assert_eq!(parse_table(b"", true).unwrap_err(), TableError::NoHeader);
    assert_eq!(parse_table(b"# only comments\n\n", true).unwrap_err(), TableError::NoHeader);
    assert_eq!(parse_table(b"x,y,z\n1,2,3\n", true).unwrap_err(), TableError::MissingColumn);
    assert_eq!(parse_table(b"x,y,z,t\n1,2,3,oops\n", true).unwrap_err(), TableError::BadCell);
}

#[test]
fn default_config_matches_the_cli_defaults() {
    let c = Config::default();
    assert_eq!(c.frames, 0);
    assert_eq!(c.secs, 40);
    assert_eq!(c.initial_pitch, DEFAULT_PITCH);
    assert_eq!(c.initial_pitch, 5234);
    assert_eq!(c.skip, 40);
    assert_eq!(c.filekey.as_str(), "walker");
    assert_eq!(c.output_dir.as_str(), "data");
    assert_eq!(c.input_dir.as_str(), "input");
}
