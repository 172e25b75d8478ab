//! Error texts, the EasyMesh `.d` text and command line, and the reports
//! that end a run or a build.

use meshgen::runner::{
    build_complete, build_easymesh_args, easymesh_run_args, easymesh_run_complete, state_to_dot_d,
    AppError, WorkerMsg,
};
use meshgen::state::{EasyMeshState, InputMode, PointRow, SegmentRow};

fn make_state(points: Vec<PointRow>, segments: Vec<SegmentRow>) -> EasyMeshState {
    let mut s = EasyMeshState::with_binary("Easy".to_string());
    s.input_mode = InputMode::Manual;
    s.points = points;
    s.segments = segments;
    s
}

fn point(x: &str, y: &str, sp: &str, m: &str) -> PointRow {
    PointRow { x: x.into(), y: y.into(), spacing: sp.into(), marker: m.into() }
}

fn segment(s: &str, e: &str, m: &str) -> SegmentRow {
    SegmentRow { start: s.into(), end: e.into(), marker: m.into() }
}

// --- AppError ---

#[test]
fn binary_not_found_error_message() {
    let err = AppError::BinaryNotFound { path: "/some/path/Easy".to_string() };
    let msg = err.message();
    assert!(msg.contains("/some/path/Easy"), "error message should contain the path: {msg}");
    assert!(msg.contains("not found"), "error message should mention 'not found': {msg}");
}

#[test]
fn process_terminated_error_message() {
    let msg = AppError::ProcessTerminated.message();
    assert!(msg.contains("terminated"), "{msg}");
}

#[test]
fn mod_invalid_project_file_error_message() {
    let msg = AppError::InvalidProjectFile.message();
    assert!(msg.contains("project"), "{msg}");
}

#[test]
fn engine_selector_invalid_project_file_error_message() {
    let msg = AppError::InvalidProjectFile.message();
    assert!(msg.contains("Could not load project"));
    assert!(msg.contains("valid project file"));
}

#[test]
fn source_dir_not_found_error_message() {
    let err = AppError::SourceDirNotFound { path: "/missing/src".to_string() };
    let msg = err.message();
    assert!(msg.contains("/missing/src"), "{msg}");
    assert!(msg.contains("not found"), "{msg}");
}

#[test]
fn make_not_found_error_message() {
    let msg = AppError::MakeNotFound.message();
    assert!(msg.to_lowercase().contains("make"), "error message should mention 'make': {msg}");
}

#[test]
fn build_failed_error_message() {
    let msg = AppError::BuildFailed { exit_code: 2 }.message();
    assert!(msg.contains("Build failed"), "{msg}");
}

#[test]
fn error_texts_are_exact() {
    assert_eq!(
        AppError::BinaryNotFound { path: "/x/Easy".to_string() }.message(),
        "EasyMesh binary not found at /x/Easy. Please ensure the Easy executable is present."
    );
    assert_eq!(
        AppError::SourceDirNotFound { path: "/x".to_string() }.message(),
        "EasyMesh source directory not found at /x. Cannot build from source."
    );
    assert_eq!(
        AppError::ProcessTerminated.message(),
        "Mesh generation process terminated unexpectedly."
    );
    assert_eq!(
        AppError::BuildFailed { exit_code: 7 }.message(),
        "Build failed. Check the log for compiler errors."
    );
}

// --- state_to_dot_d ---

#[test]
fn dot_d_empty_state() {
    let s = make_state(vec![], vec![]);
    let out = state_to_dot_d(&s);
    assert_eq!(out, "0\n0\n");
}

#[test]
fn dot_d_point_count_header() {
    let s = make_state(vec![point("0.0", "0.0", "0.1", "1"), point("1.0", "0.0", "0.1", "1")], vec![]);
    let out = state_to_dot_d(&s);
    let mut lines = out.lines();
    assert_eq!(lines.next().unwrap(), "2");
}

#[test]
fn dot_d_point_row_format() {
    let s = make_state(vec![point("1.5", "2.5", "0.25", "3")], vec![]);
    let out = state_to_dot_d(&s);
    let mut lines = out.lines();
    lines.next();
    assert_eq!(lines.next().unwrap(), "0: 1.5 2.5 0.25 3");
}

#[test]
fn dot_d_segment_row_format() {
    let s = make_state(vec![], vec![segment("0", "1", "2")]);
    let out = state_to_dot_d(&s);
    let mut lines = out.lines();
    lines.next();
    lines.next();
    assert_eq!(lines.next().unwrap(), "0: 0 1 2");
}

#[test]
fn dot_d_multiple_rows() {
    let s = make_state(
        vec![
            point("0.0", "0.0", "0.5", "1"),
            point("1.0", "0.0", "0.5", "1"),
            point("1.0", "1.0", "0.5", "1"),
        ],
        vec![segment("0", "1", "1"), segment("1", "2", "1")],
    );
    let out = state_to_dot_d(&s);
    let lines: Vec<&str> = out.lines().collect();
    assert_eq!(lines[0], "3");
    assert_eq!(lines[1], "0: 0.0 0.0 0.5 1");
    assert_eq!(lines[2], "1: 1.0 0.0 0.5 1");
    assert_eq!(lines[3], "2: 1.0 1.0 0.5 1");
    assert_eq!(lines[4], "2");
    assert_eq!(lines[5], "0: 0 1 1");
    assert_eq!(lines[6], "1: 1 2 1");
}

#[test]
fn dot_d_indices_past_nine() {
    let pts: Vec<PointRow> = (0..12).map(|_| point("0", "0", "1", "1")).collect();
    let s = make_state(pts, vec![]);
    let out = state_to_dot_d(&s);
    let lines: Vec<&str> = out.lines().collect();
    assert_eq!(lines[0], "12");
    assert_eq!(lines[11], "10: 0 0 1 1");
    assert_eq!(lines[12], "11: 0 0 1 1");
    assert_eq!(lines[13], "0");
}

// --- build_easymesh_args ---

#[test]
fn args_all_flags_off() {
    let s = make_state(vec![], vec![]);
    assert!(build_easymesh_args(&s).is_empty());
}

#[test]
fn args_fmt_tec() {
    let mut s = make_state(vec![], vec![]);
    s.fmt_tec = true;
    assert_eq!(build_easymesh_args(&s), vec!["+tec"]);
}

#[test]
fn args_fmt_vtk() {
    let mut s = make_state(vec![], vec![]);
    s.fmt_vtk = true;
    assert_eq!(build_easymesh_args(&s), vec!["+vtk"]);
}

#[test]
fn args_fmt_eps() {
    let mut s = make_state(vec![], vec![]);
    s.fmt_eps = true;
    assert_eq!(build_easymesh_args(&s), vec!["+eps"]);
}

#[test]
fn args_aggressiveness_zero_omitted() {
    let mut s = make_state(vec![], vec![]);
    s.aggressiveness = 0;
    assert!(!build_easymesh_args(&s).contains(&"+a".to_string()));
}

#[test]
fn args_aggressiveness_nonzero() {
    let mut s = make_state(vec![], vec![]);
    s.aggressiveness = 3;
    let args = build_easymesh_args(&s);
    assert!(args.contains(&"+a".to_string()));
    assert!(args.contains(&"3".to_string()));
    let pos_a = args.iter().position(|x| x == "+a").unwrap();
    assert_eq!(args[pos_a + 1], "3");
}

#[test]
fn args_skip_relaxation() {
    let mut s = make_state(vec![], vec![]);
    s.skip_relaxation = true;
    assert!(build_easymesh_args(&s).contains(&"-r".to_string()));
}

#[test]
fn args_skip_smoothing() {
    let mut s = make_state(vec![], vec![]);
    s.skip_smoothing = true;
    assert!(build_easymesh_args(&s).contains(&"-s".to_string()));
}

#[test]
fn args_boundary_only() {
    let mut s = make_state(vec![], vec![]);
    s.boundary_only = true;
    assert!(build_easymesh_args(&s).contains(&"-d".to_string()));
}

#[test]
fn args_suppress_messages() {
    let mut s = make_state(vec![], vec![]);
    s.suppress_messages = true;
    assert!(build_easymesh_args(&s).contains(&"-m".to_string()));
}

#[test]
fn args_all_flags_on() {
    let mut s = make_state(vec![], vec![]);
    s.fmt_tec = true;
    s.fmt_vtk = true;
    s.fmt_eps = true;
    s.aggressiveness = 6;
    s.skip_relaxation = true;
    s.skip_smoothing = true;
    s.boundary_only = true;
    s.suppress_messages = true;
    let args = build_easymesh_args(&s);
    assert_eq!(args[0], "+tec");
    assert_eq!(args[1], "+vtk");
    assert_eq!(args[2], "+eps");
    let pos_a = args.iter().position(|x| x == "+a").unwrap();
    assert_eq!(args[pos_a + 1], "6");
    assert!(args.contains(&"-r".to_string()));
    assert!(args.contains(&"-s".to_string()));
    assert!(args.contains(&"-d".to_string()));
    assert!(args.contains(&"-m".to_string()));
}

#[test]
fn args_exact_order() {
    let mut s = make_state(vec![], vec![]);
    s.fmt_vtk = true;
    s.aggressiveness = 2;
    s.boundary_only = true;
    assert_eq!(build_easymesh_args(&s), vec!["+vtk", "+a", "2", "-d"]);
}

// --- Run arguments ---

#[test]
fn run_args_manual_mode_uses_mesh_stem() {
    let mut s = make_state(vec![], vec![]);
    s.fmt_tec = true;
    let a = easymesh_run_args(&s, "0\n0\n".to_string(), "/out".to_string(), Some("ignored".to_string()));
    assert_eq!(a.dot_d_content, "0\n0\n");
    assert_eq!(a.output_dir, "/out");
    assert_eq!(a.binary_path, "Easy");
    assert_eq!(a.args, vec!["+tec"]);
    assert_eq!(a.input_stem, Some("mesh".to_string()));
}

#[test]
fn run_args_file_mode_uses_file_stem() {
    let mut s = make_state(vec![], vec![]);
    s.input_mode = InputMode::File;
    let a = easymesh_run_args(&s, String::new(), "/out".to_string(), Some("example1".to_string()));
    assert_eq!(a.input_stem, Some("example1".to_string()));
    let b = easymesh_run_args(&s, String::new(), "/out".to_string(), None);
    assert_eq!(b.input_stem, None);
}

// --- Reports ---

#[test]
fn run_complete_success() {
    assert_eq!(
        easymesh_run_complete(Some(0), true, true),
        WorkerMsg::RunComplete { success: true, exit_code: Some(0), error_text: None }
    );
}

#[test]
fn run_complete_success_despite_exit_code() {
    assert_eq!(
        easymesh_run_complete(Some(1), true, true),
        WorkerMsg::RunComplete { success: true, exit_code: Some(1), error_text: None }
    );
}

#[test]
fn run_complete_failure_with_code() {
    assert_eq!(
        easymesh_run_complete(Some(3), false, true),
        WorkerMsg::RunComplete {
            success: false,
            exit_code: Some(3),
            error_text: Some("EasyMesh exited with code 3".to_string()),
        }
    );
}

#[test]
fn run_complete_killed_by_signal() {
    assert_eq!(
        easymesh_run_complete(None, false, true),
        WorkerMsg::RunComplete {
            success: false,
            exit_code: None,
            error_text: Some("Mesh generation process terminated unexpectedly.".to_string()),
        }
    );
    assert_eq!(
        easymesh_run_complete(None, false, false),
        WorkerMsg::RunComplete {
            success: false,
            exit_code: None,
            error_text: Some("EasyMesh exited with code -1".to_string()),
        }
    );
}

#[test]
fn build_complete_reports() {
    assert_eq!(
        build_complete(true, Some(0), "/src", "Easy", "/src/Easy".to_string(), true),
        WorkerMsg::BuildComplete {
            success: true,
            binary_path: Some("/src/Easy".to_string()),
            error_text: None,
        }
    );
    assert_eq!(
        build_complete(true, Some(0), "/src", "Easy", "/src/Easy".to_string(), false),
        WorkerMsg::BuildComplete {
            success: false,
            binary_path: None,
            error_text: Some(
                "Build appeared to succeed but the expected binary 'Easy' was not found in '/src'."
                    .to_string()
            ),
        }
    );
    assert_eq!(
        build_complete(false, Some(2), "/src", "Easy", "/src/Easy".to_string(), false),
        WorkerMsg::BuildComplete {
            success: false,
            binary_path: None,
            error_text: Some("Build failed. Check the log for compiler errors.".to_string()),
        }
    );
}

#[test]
fn build_dir_is_the_binary_directory() {
    assert_eq!(meshgen::runner::easymesh_source_dir("/opt/mesh/EasyMesh/Src/Easy"), "/opt/mesh/EasyMesh/Src");
    assert_eq!(meshgen::runner::build_source_dir(Some("a/b".to_string()), '/'), "a/b");
}

#[test]
fn build_dir_defaults_to_easymesh_src() {
    assert_eq!(meshgen::runner::build_source_dir(None, '/'), "EasyMesh/Src");
    assert_eq!(meshgen::runner::build_source_dir(None, '\\'), "EasyMesh\\Src");
    assert_eq!(meshgen::runner::easymesh_source_dir(""), "EasyMesh/Src");
}

#[test]
fn build_dir_of_relative_binary() {
    assert_eq!(meshgen::runner::easymesh_source_dir("Easy"), "");
    assert_eq!(meshgen::runner::easymesh_source_dir("EasyMesh/Src/Easy"), "EasyMesh/Src");
}
