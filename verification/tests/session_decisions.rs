//! When generation may start, and what worker messages, dialog answers and
//! the checks before a run do to the main window's state.

use meshgen::runner::WorkerMsg;
use meshgen::session::{
    is_generate_enabled, selected_input_file, AppState, DialogAction, DialogResult, DialogTag, RunStatus,
};
use meshgen::state::{EasyMeshState, EdgeRow, Engine, InputMode, NodeRow, PointRow, ProjectState, SegmentRow};
use meshgen::templates::{EASYMESH_TEMPLATE, STRUCTURED_TEMPLATE};

/// Whether the selected engine's input file exists, as the window checks it.
fn enabled(p: &ProjectState) -> bool {
    let exists = selected_input_file(p).map_or(false, |f| std::path::Path::new(&f).exists());
    is_generate_enabled(p, exists)
}

fn existing_path() -> String {
    "/tmp".to_string()
}

// --- is_generate_enabled ---

#[test]
fn structured_file_no_dir_disabled() {
    let mut p = ProjectState::default();
    p.selected_engine = Engine::Structured;
    p.structured.input_mode = InputMode::File;
    p.structured.file_path = Some("/tmp".to_string());
    p.structured.output_dir = None;
    assert!(!enabled(&p));
}

#[test]
fn structured_file_no_path_disabled() {
    let mut p = ProjectState::default();
    p.selected_engine = Engine::Structured;
    p.structured.input_mode = InputMode::File;
    p.structured.file_path = None;
    p.structured.output_dir = Some("/tmp".to_string());
    assert!(!enabled(&p));
}

#[test]
fn structured_file_with_existing_file_enabled() {
    let mut p = ProjectState::default();
    p.selected_engine = Engine::Structured;
    p.structured.input_mode = InputMode::File;
    p.structured.file_path = Some(existing_path());
    p.structured.output_dir = Some("/tmp".to_string());
    assert!(enabled(&p));
}

#[test]
fn structured_manual_too_few_nodes_disabled() {
    let mut p = ProjectState::default();
    p.selected_engine = Engine::Structured;
    p.structured.input_mode = InputMode::Manual;
    p.structured.output_dir = Some("/tmp".to_string());
    p.structured.nodes = vec![NodeRow::default(), NodeRow::default()];
    p.structured.edges = vec![EdgeRow::default(), EdgeRow::default(), EdgeRow::default()];
    assert!(!enabled(&p));
}

#[test]
fn structured_manual_three_rows_enabled() {
    let mut p = ProjectState::default();
    p.selected_engine = Engine::Structured;
    p.structured.input_mode = InputMode::Manual;
    p.structured.output_dir = Some("/tmp".to_string());
    p.structured.nodes = vec![NodeRow::default(); 3];
    p.structured.edges = vec![EdgeRow::default(); 3];
    assert!(enabled(&p));
}

#[test]
fn easymesh_no_dir_disabled() {
    let mut p = ProjectState::default();
    p.selected_engine = Engine::EasyMesh;
    p.easymesh.output_dir = None;
    assert!(!enabled(&p));
}

#[test]
fn easymesh_file_no_path_disabled() {
    let mut p = ProjectState::default();
    p.selected_engine = Engine::EasyMesh;
    p.easymesh.input_mode = InputMode::File;
    p.easymesh.file_path = None;
    p.easymesh.output_dir = Some("/tmp".to_string());
    assert!(!enabled(&p));
}

#[test]
fn easymesh_file_with_existing_file_enabled() {
    let mut p = ProjectState::default();
    p.selected_engine = Engine::EasyMesh;
    p.easymesh.input_mode = InputMode::File;
    p.easymesh.file_path = Some(existing_path());
    p.easymesh.output_dir = Some("/tmp".to_string());
    assert!(enabled(&p));
}

#[test]
fn easymesh_manual_three_rows_enabled() {
    let mut p = ProjectState::default();
    p.selected_engine = Engine::EasyMesh;
    p.easymesh.input_mode = InputMode::Manual;
    p.easymesh.output_dir = Some("/tmp".to_string());
    p.easymesh.points = vec![PointRow::default(); 3];
    p.easymesh.segments = vec![SegmentRow::default(); 3];
    assert!(enabled(&p));
}

#[test]
fn easymesh_manual_too_few_segments_disabled() {
    let mut p = ProjectState::default();
    p.selected_engine = Engine::EasyMesh;
    p.easymesh.input_mode = InputMode::Manual;
    p.easymesh.output_dir = Some("/tmp".to_string());
    p.easymesh.points = vec![PointRow::default(); 3];
    p.easymesh.segments = vec![SegmentRow::default(); 2];
    assert!(!enabled(&p));
}

#[test]
fn default_project_generate_disabled() {
    let p = ProjectState::default();
    assert!(!enabled(&p));
}

#[test]
fn missing_file_disables_file_mode() {
    let mut p = ProjectState::default();
    p.structured.file_path = Some("/definitely/not/here.txt".to_string());
    assert_eq!(selected_input_file(&p), Some("/definitely/not/here.txt".to_string()));
    assert!(!is_generate_enabled(&p, false));
    assert!(is_generate_enabled(&p, true));
}

// --- Worker messages ---

fn state() -> AppState {
    AppState::new(ProjectState::default())
}

#[test]
fn log_lines_are_appended() {
    let mut s = state();
    s.apply_worker_msg(WorkerMsg::LogLine("hello".to_string()));
    assert_eq!(s.log, vec!["hello".to_string()]);
    assert_eq!(s.run_status, RunStatus::Idle);
}

#[test]
fn successful_run_offers_output_directory() {
    let mut s = state();
    s.apply_worker_msg(WorkerMsg::RunComplete { success: true, exit_code: Some(0), error_text: None });
    assert_eq!(s.run_status, RunStatus::Success);
    assert!(s.show_open_dir_button);
    assert_eq!(s.log, vec!["✔ Completed successfully (exit code 0)".to_string()]);
}

#[test]
fn failed_run_reports_reason() {
    let mut s = state();
    s.apply_worker_msg(WorkerMsg::RunComplete {
        success: false,
        exit_code: Some(3),
        error_text: Some("boom".to_string()),
    });
    assert_eq!(s.run_status, RunStatus::Failed("boom".to_string()));
    assert_eq!(s.log, vec!["✘ Failed (exit code 3): boom".to_string()]);
    let mut t = state();
    t.apply_worker_msg(WorkerMsg::RunComplete { success: false, exit_code: Some(4), error_text: None });
    assert_eq!(t.run_status, RunStatus::Failed("Exit code: 4".to_string()));
    let mut u = state();
    u.apply_worker_msg(WorkerMsg::RunComplete { success: false, exit_code: None, error_text: None });
    assert_eq!(u.run_status, RunStatus::Failed("Unknown error".to_string()));
    assert_eq!(u.log, vec!["✘ Failed (exit code -1): Unknown error".to_string()]);
}

#[test]
fn build_results_update_binary_and_buttons() {
    let mut s = state();
    s.show_build_button = true;
    s.apply_worker_msg(WorkerMsg::BuildComplete {
        success: true,
        binary_path: Some("/src/Easy".to_string()),
        error_text: None,
    });
    assert_eq!(s.run_status, RunStatus::Success);
    assert!(!s.show_build_button);
    assert_eq!(s.project.easymesh.easymesh_binary, "/src/Easy");
    assert_eq!(s.log, vec!["✔ EasyMesh build completed successfully.".to_string()]);
    let mut t = state();
    t.apply_worker_msg(WorkerMsg::BuildComplete { success: false, binary_path: None, error_text: None });
    assert_eq!(t.run_status, RunStatus::Failed("Build failed.".to_string()));
    assert_eq!(t.log, vec!["✘ Build failed: Build failed.".to_string()]);
}

// --- Dialog answers ---

#[test]
fn browse_sets_existing_file_and_logs_missing_one() {
    let mut s = state();
    let a = s.handle_dialog_result(
        DialogResult::FilePicked { tag: DialogTag::StructuredBrowse, path: "/g.txt".to_string() },
        true,
    );
    assert_eq!(a, DialogAction::Nothing);
    assert_eq!(s.project.structured.file_path, Some("/g.txt".to_string()));
    let b = s.handle_dialog_result(
        DialogResult::FilePicked { tag: DialogTag::EasyMeshBrowse, path: "/m.d".to_string() },
        false,
    );
    assert_eq!(b, DialogAction::Nothing);
    assert_eq!(s.project.easymesh.file_path, None);
    assert_eq!(s.log, vec!["Error: file not found: /m.d".to_string()]);
}

#[test]
fn folders_templates_and_projects() {
    let mut s = state();
    s.handle_dialog_result(
        DialogResult::FolderPicked { tag: DialogTag::EasyMeshOutputDir, path: "/out".to_string() },
        true,
    );
    assert_eq!(s.project.easymesh.output_dir, Some("/out".to_string()));
    let t = s.handle_dialog_result(
        DialogResult::FilePicked { tag: DialogTag::StructuredTemplateSave, path: "/t.txt".to_string() },
        false,
    );
    assert_eq!(t, DialogAction::WriteTemplate { path: "/t.txt".to_string(), content: STRUCTURED_TEMPLATE });
    let e = s.handle_dialog_result(
        DialogResult::FilePicked { tag: DialogTag::EasyMeshTemplateSave, path: "/e.d".to_string() },
        false,
    );
    assert_eq!(e, DialogAction::WriteTemplate { path: "/e.d".to_string(), content: EASYMESH_TEMPLATE });
    let sv = s.handle_dialog_result(
        DialogResult::FilePicked { tag: DialogTag::SaveProject, path: "/p.json".to_string() },
        false,
    );
    assert_eq!(sv, DialogAction::SaveProject { path: "/p.json".to_string() });
    let ld = s.handle_dialog_result(
        DialogResult::FilePicked { tag: DialogTag::LoadProject, path: "/p.json".to_string() },
        true,
    );
    assert_eq!(ld, DialogAction::LoadProject { path: "/p.json".to_string() });
    let c = s.handle_dialog_result(DialogResult::Cancelled { tag: DialogTag::LoadProject }, false);
    assert_eq!(c, DialogAction::Nothing);
    assert!(s.log.is_empty());
}

#[test]
fn loaded_project_replaces_settings() {
    let mut s = state();
    let mut p = ProjectState::default();
    p.selected_engine = Engine::EasyMesh;
    s.project_loaded("/p.json", Some(p));
    assert_eq!(s.project.selected_engine, Engine::EasyMesh);
    assert_eq!(s.log, vec!["Project loaded from /p.json".to_string()]);
    s.project_loaded("/bad.json", None);
    assert_eq!(s.project.selected_engine, Engine::EasyMesh);
    assert_eq!(
        s.log[1],
        "Error loading /bad.json: Could not load project: the file is not a valid project file."
    );
}

// --- Checks before a run ---

#[test]
fn structured_preflight_needs_directory_then_format() {
    let mut s = state();
    s.project.structured.output_dir = None;
    assert_eq!(s.preflight_structured(), None);
    let no_dir = "No output directory selected. Please choose an output directory first.".to_string();
    assert_eq!(s.run_status, RunStatus::Failed(no_dir.clone()));
    assert_eq!(s.log, vec![no_dir]);

    let mut t = state();
    assert_eq!(t.preflight_structured(), None);
    let no_fmt = "No output format selected. Please tick at least one format checkbox.".to_string();
    assert_eq!(t.run_status, RunStatus::Failed(no_fmt.clone()));

    let mut u = state();
    u.project.structured.fmt_vtk = true;
    assert_eq!(u.preflight_structured(), Some("outputs".to_string()));
    assert_eq!(u.run_status, RunStatus::Idle);
    assert!(u.log.is_empty());
}

#[test]
fn easymesh_preflight_needs_directory() {
    let mut s = AppState::new(ProjectState {
        selected_engine: Engine::EasyMesh,
        structured: Default::default(),
        easymesh: EasyMeshState::with_binary("Easy".to_string()),
    });
    assert_eq!(s.preflight_easymesh(), None);
    s.project.easymesh.output_dir = Some("/o".to_string());
    assert_eq!(s.preflight_easymesh(), Some("/o".to_string()));
}

#[test]
fn sending_requests() {
    let mut s = state();
    s.show_open_dir_button = true;
    s.run_requested(true, Engine::Structured);
    assert!(!s.show_open_dir_button);
    assert_eq!(s.run_status, RunStatus::Running);
    assert_eq!(s.log, vec!["Starting structured mesh generation…".to_string()]);
    let mut t = state();
    t.run_requested(false, Engine::EasyMesh);
    assert_eq!(t.run_status, RunStatus::Failed("Failed to send run request to worker.".to_string()));
    let mut u = state();
    u.build_requested(false);
    assert_eq!(u.run_status, RunStatus::Idle);
    assert_eq!(u.log, vec!["Failed to send build request to worker.".to_string()]);
    u.build_requested(true);
    assert_eq!(u.run_status, RunStatus::Running);
}
