//! The decisions of the main window: when mesh generation may start, what a
//! message from the worker or the answer of a file dialog does to the
//! window's state, and the checks made before a run is requested.
//!
//! The window itself (drawing, channels, dialogs, files) performs what is
//! decided here and hands back what happened as plain values.
use vstd::prelude::*;

use crate::runner::{app_error_text, AppError, WorkerMsg};
use crate::state::{EasyMeshState, Engine, InputMode, ProjectState, StructuredState};
use crate::templates::{EASYMESH_TEMPLATE, STRUCTURED_TEMPLATE};
use crate::text::{int_text, push_int, push_str, string_of};

verus! {

/// The state of a mesh generation or build job.
#[derive(Debug, Clone, PartialEq)]
pub enum RunStatus {
    Idle,
    Running,
    Success,
    Failed(String),
}

impl Default for RunStatus {
    fn default() -> (s: Self)
        ensures
            s == RunStatus::Idle,
    {
        RunStatus::Idle
    }
}

/// The status is `Failed` with message `m`.
pub open spec fn failed_with(s: RunStatus, m: Seq<char>) -> bool {
    s matches RunStatus::Failed(t) && t@ == m
}

/// Which file dialog an answer belongs to.
#[derive(Debug, Clone, Copy, PartialEq, Eq, Structural)]
pub enum DialogTag {
    StructuredBrowse,
    StructuredOutputDir,
    StructuredTemplateSave,
    EasyMeshBrowse,
    EasyMeshOutputDir,
    EasyMeshTemplateSave,
    SaveProject,
    LoadProject,
}

/// The answer of a file dialog.
#[derive(Debug, Clone, PartialEq)]
pub enum DialogResult {
    /// A file was picked (browse, load, save).
    FilePicked { tag: DialogTag, path: String },
    /// A folder was picked (output directory).
    FolderPicked { tag: DialogTag, path: String },
    /// The dialog was dismissed.
    Cancelled { tag: DialogTag },
}

/// What the window must do after a dialog's answer.
#[derive(Debug, Clone, PartialEq)]
pub enum DialogAction {
    Nothing,
    /// Write `content` to `path`, then open it in an editor.
    WriteTemplate { path: String, content: &'static str },
    /// Write the project to `path`.
    SaveProject { path: String },
    /// Read a project from `path` and report it with [`AppState::project_loaded`].
    LoadProject { path: String },
}

/// The part of the main window's state that its decisions change.
#[derive(Debug, Clone)]
pub struct AppState {
    pub project: ProjectState,
    pub run_status: RunStatus,
    /// Offer to open the output directory (after a successful run).
    pub show_open_dir_button: bool,
    /// Offer to build EasyMesh from source (when its executable is missing).
    pub show_build_button: bool,
    /// The lines of the log panel.
    pub log: Vec<String>,
    /// Keep the log panel scrolled to its last line.
    pub log_auto_scroll: bool,
}

/// The lines of the log, as text.
pub open spec fn log_text(s: AppState) -> Seq<Seq<char>> {
    s.log@.map_values(|l: String| l@)
}

/// Everything but the log is unchanged.
pub open spec fn only_log_changed(a: AppState, b: AppState) -> bool {
    &&& a.project == b.project
    &&& a.run_status == b.run_status
    &&& a.show_open_dir_button == b.show_open_dir_button
    &&& a.show_build_button == b.show_build_button
    &&& a.log_auto_scroll == b.log_auto_scroll
}

/// The project, the two buttons and the scrolling are unchanged.
pub open spec fn same_settings(a: AppState, b: AppState) -> bool {
    &&& a.project == b.project
    &&& a.show_open_dir_button == b.show_open_dir_button
    &&& a.show_build_button == b.show_build_button
    &&& a.log_auto_scroll == b.log_auto_scroll
}

// ---------------------------------------------------------------------------
// Whether generation may start
// ---------------------------------------------------------------------------

/// The input file of the selected engine.
pub open spec fn selected_file(p: ProjectState) -> Option<String> {
    match p.selected_engine {
        Engine::Structured => p.structured.file_path,
        Engine::EasyMesh => p.easymesh.file_path,
    }
}

/// Generation may start: the selected engine has an output directory, and
/// in File mode an input file that exists (`file_exists`), in Manual mode at
/// least three rows in each table.
pub open spec fn generate_enabled(p: ProjectState, file_exists: bool) -> bool {
    match p.selected_engine {
        Engine::Structured => p.structured.output_dir is Some && match p.structured.input_mode {
            InputMode::File => p.structured.file_path is Some && file_exists,
            InputMode::Manual => p.structured.nodes@.len() >= 3 && p.structured.edges@.len() >= 3,
        },
        Engine::EasyMesh => p.easymesh.output_dir is Some && match p.easymesh.input_mode {
            InputMode::File => p.easymesh.file_path is Some && file_exists,
            InputMode::Manual => p.easymesh.points@.len() >= 3 && p.easymesh.segments@.len() >= 3,
        },
    }
}

fn clone_opt(o: &Option<String>) -> (r: Option<String>)
    ensures
        r == *o,
{
    match o {
        Some(s) => Some(s.clone()),
        None => None,
    }
}

/// The input file of the selected engine, whose existence
/// [`is_generate_enabled`] needs.
pub fn selected_input_file(project: &ProjectState) -> (r: Option<String>)
    ensures
        r == selected_file(*project),
{
    match project.selected_engine {
        Engine::Structured => clone_opt(&project.structured.file_path),
        Engine::EasyMesh => clone_opt(&project.easymesh.file_path),
    }
}

/// Whether the "Generate Mesh" button is enabled; `selected_file_exists`
/// says whether the file of [`selected_input_file`] exists.
pub fn is_generate_enabled(project: &ProjectState, selected_file_exists: bool) -> (b: bool)
    ensures
        b == generate_enabled(*project, selected_file_exists),
{
    match project.selected_engine {
        Engine::Structured => {
            let s: &StructuredState = &project.structured;
            if s.output_dir.is_none() {
                return false;
            }
            match s.input_mode {
                InputMode::File => s.file_path.is_some() && selected_file_exists,
                InputMode::Manual => s.nodes.len() >= 3 && s.edges.len() >= 3,
            }
        },
        Engine::EasyMesh => {
            let s: &EasyMeshState = &project.easymesh;
            if s.output_dir.is_none() {
                return false;
            }
            match s.input_mode {
                InputMode::File => s.file_path.is_some() && selected_file_exists,
                InputMode::Manual => s.points.len() >= 3 && s.segments.len() >= 3,
            }
        },
    }
}

// ---------------------------------------------------------------------------
// Log lines
// ---------------------------------------------------------------------------

pub open spec fn completed_line(code: int) -> Seq<char> {
    "✔ Completed successfully (exit code "@ + int_text(code) + ")"@
}

/// The reason a run failed: its error text, else its exit code, else
/// "Unknown error".
pub open spec fn failure_text(exit_code: Option<i32>, error_text: Option<String>) -> Seq<char> {
    match error_text {
        Some(t) => t@,
        None => match exit_code {
            Some(c) => "Exit code: "@ + int_text(c as int),
            None => "Unknown error"@,
        },
    }
}

pub open spec fn failed_line(code: int, reason: Seq<char>) -> Seq<char> {
    "✘ Failed (exit code "@ + int_text(code) + "): "@ + reason
}

pub open spec fn build_done_line() -> Seq<char> {
    "✔ EasyMesh build completed successfully."@
}

/// The reason a build failed: its error text, else "Build failed.".
pub open spec fn build_failure_text(error_text: Option<String>) -> Seq<char> {
    match error_text {
        Some(t) => t@,
        None => "Build failed."@,
    }
}

pub open spec fn build_failed_line(reason: Seq<char>) -> Seq<char> {
    "✘ Build failed: "@ + reason
}

pub open spec fn not_found_line(path: Seq<char>) -> Seq<char> {
    "Error: file not found: "@ + path
}

pub open spec fn no_dir_message() -> Seq<char> {
    "No output directory selected. Please choose an output directory first."@
}

pub open spec fn no_format_message() -> Seq<char> {
    "No output format selected. Please tick at least one format checkbox."@
}

pub open spec fn send_failed_message() -> Seq<char> {
    "Failed to send run request to worker."@
}

/// The log line that announces a run of `engine`.
pub open spec fn started_line(engine: Engine) -> Seq<char> {
    match engine {
        Engine::Structured => "Starting structured mesh generation…"@,
        Engine::EasyMesh => "Starting EasyMesh generation…"@,
    }
}

impl AppState {
    /// The window's state for `project`: nothing running, no extra button,
    /// an empty log that follows new lines.
    pub fn new(project: ProjectState) -> (s: Self)
        ensures
            s.project == project,
            s.run_status == RunStatus::Idle,
            !s.show_open_dir_button,
            !s.show_build_button,
            s.log@.len() == 0,
            s.log_auto_scroll,
    {
        AppState {
            project,
            run_status: RunStatus::Idle,
            show_open_dir_button: false,
            show_build_button: false,
            log: Vec::new(),
            log_auto_scroll: true,
        }
    }

    fn push_log(&mut self, line: String)
        ensures
            log_text(*final(self)) == log_text(*old(self)).push(line@),
            only_log_changed(*final(self), *old(self)),
    {
        let ghost before = self.log@;
        self.log.push(line);
        assert(self.log@.map_values(|l: String| l@) == before.map_values(|l: String| l@).push(
            line@,
        ));
    }

    /// Records a failed run: the message goes to the log and into the status.
    pub fn fail_run(&mut self, message: String)
        ensures
            log_text(*final(self)) == log_text(*old(self)).push(message@),
            failed_with(final(self).run_status, message@),
            same_settings(*final(self), *old(self)),
    {
        let status = RunStatus::Failed(message.clone());
        self.push_log(message);
        self.run_status = status;
    }

    /// Applies one message from the worker.
    ///
    /// - A line of output goes to the log.
    /// - A successful run sets `Success`, offers to open the output
    ///   directory and logs its exit code (0 when none).
    /// - A failed run sets `Failed` with its reason and logs the reason with
    ///   its exit code (-1 when none).
    /// - A successful build sets `Success`, withdraws the build button, takes
    ///   the new executable's path and logs it; a failed one sets `Failed`
    ///   and logs the reason.
    pub fn apply_worker_msg(&mut self, msg: WorkerMsg)
        ensures
            match msg {
                WorkerMsg::LogLine(line) => log_text(*final(self)) == log_text(*old(self)).push(line@)
                    && only_log_changed(*final(self), *old(self)),
                WorkerMsg::RunComplete { success, exit_code, error_text } => {
                    &&& final(self).project == old(self).project
                    &&& final(self).show_build_button == old(self).show_build_button
                    &&& final(self).log_auto_scroll == old(self).log_auto_scroll
                    &&& if success {
                        &&& final(self).run_status == RunStatus::Success
                        &&& final(self).show_open_dir_button
                        &&& log_text(*final(self)) == log_text(*old(self)).push(
                            completed_line(
                                match exit_code {
                                    Some(c) => c as int,
                                    None => 0,
                                },
                            ),
                        )
                    } else {
                        &&& failed_with(final(self).run_status, failure_text(exit_code, error_text))
                        &&& final(self).show_open_dir_button == old(self).show_open_dir_button
                        &&& log_text(*final(self)) == log_text(*old(self)).push(
                            failed_line(
                                match exit_code {
                                    Some(c) => c as int,
                                    None => -1,
                                },
                                failure_text(exit_code, error_text),
                            ),
                        )
                    }
                },
                WorkerMsg::BuildComplete { success, binary_path, error_text } => {
                    &&& final(self).show_open_dir_button == old(self).show_open_dir_button
                    &&& final(self).log_auto_scroll == old(self).log_auto_scroll
                    &&& if success {
                        &&& final(self).run_status == RunStatus::Success
                        &&& !final(self).show_build_button
                        &&& final(self).project == (match binary_path {
                            Some(p) => ProjectState {
                                easymesh: EasyMeshState {
                                    easymesh_binary: p,
                                    ..old(self).project.easymesh
                                },
                                ..old(self).project
                            },
                            None => old(self).project,
                        })
                        &&& log_text(*final(self)) == log_text(*old(self)).push(build_done_line())
                    } else {
                        &&& failed_with(final(self).run_status, build_failure_text(error_text))
                        &&& final(self).show_build_button == old(self).show_build_button
                        &&& final(self).project == old(self).project
                        &&& log_text(*final(self)) == log_text(*old(self)).push(
                            build_failed_line(build_failure_text(error_text)),
                        )
                    }
                },
            },
    {
        match msg {
            WorkerMsg::LogLine(line) => {
                self.push_log(line);
            },
            WorkerMsg::RunComplete { success, exit_code, error_text } => {
                if success {
                    self.run_status = RunStatus::Success;
                    self.show_open_dir_button = true;
                    let code: i32 = match exit_code {
                        Some(c) => c,
                        None => 0,
                    };
                    let mut line = string_of("✔ Completed successfully (exit code ");
                    push_int(&mut line, code as i64);
                    push_str(&mut line, ")");
                    self.push_log(line);
                } else {
                    let reason = match error_text {
                        Some(t) => t,
                        None => match exit_code {
                            Some(c) => {
                                let mut t = string_of("Exit code: ");
                                push_int(&mut t, c as i64);
                                t
                            },
                            None => string_of("Unknown error"),
                        },
                    };
                    let code: i32 = match exit_code {
                        Some(c) => c,
                        None => -1,
                    };
                    let mut line = string_of("✘ Failed (exit code ");
                    push_int(&mut line, code as i64);
                    push_str(&mut line, "): ");
                    push_str(&mut line, reason.as_str());
                    self.run_status = RunStatus::Failed(reason);
                    self.push_log(line);
                }
            },
            WorkerMsg::BuildComplete { success, binary_path, error_text } => {
                if success {
                    self.run_status = RunStatus::Success;
                    self.show_build_button = false;
                    match binary_path {
                        Some(p) => {
                            self.project.easymesh.easymesh_binary = p;
                        },
                        None => {},
                    }
                    self.push_log(string_of("✔ EasyMesh build completed successfully."));
                } else {
                    let reason = match error_text {
                        Some(t) => t,
                        None => string_of("Build failed."),
                    };
                    let mut line = string_of("✘ Build failed: ");
                    push_str(&mut line, reason.as_str());
                    self.run_status = RunStatus::Failed(reason);
                    self.push_log(line);
                }
            },
        }
    }

    /// Applies the answer of a file dialog; `path_exists` says whether the
    /// picked path exists.
    ///
    /// - Browse: an existing file becomes the engine's input file; a missing
    ///   one is logged.
    /// - Output directory: the folder becomes the engine's output directory.
    /// - Template, save and load: the window is told what to do.
    /// - A dismissed dialog, or an answer of the wrong kind, changes nothing.
    pub fn handle_dialog_result(&mut self, result: DialogResult, path_exists: bool) -> (a:
        DialogAction)
        ensures
            match result {
                DialogResult::FilePicked { tag, path } => match tag {
                    DialogTag::StructuredBrowse => a == DialogAction::Nothing && (if path_exists {
                        &&& final(self).project == (ProjectState {
                            structured: StructuredState {
                                file_path: Some(path),
                                ..old(self).project.structured
                            },
                            ..old(self).project
                        })
                        &&& final(self).log == old(self).log
                    } else {
                        &&& final(self).project == old(self).project
                        &&& log_text(*final(self)) == log_text(*old(self)).push(
                            not_found_line(path@),
                        )
                    }),
                    DialogTag::EasyMeshBrowse => a == DialogAction::Nothing && (if path_exists {
                        &&& final(self).project == (ProjectState {
                            easymesh: EasyMeshState { file_path: Some(path), ..old(self).project.easymesh },
                            ..old(self).project
                        })
                        &&& final(self).log == old(self).log
                    } else {
                        &&& final(self).project == old(self).project
                        &&& log_text(*final(self)) == log_text(*old(self)).push(
                            not_found_line(path@),
                        )
                    }),
                    DialogTag::StructuredTemplateSave => *final(self) == *old(self) && (a
                        matches DialogAction::WriteTemplate { path: p, content: c } && p == path
                        && c@ == STRUCTURED_TEMPLATE@),
                    DialogTag::EasyMeshTemplateSave => *final(self) == *old(self) && (a
                        matches DialogAction::WriteTemplate { path: p, content: c } && p == path
                        && c@ == EASYMESH_TEMPLATE@),
                    DialogTag::SaveProject => *final(self) == *old(self) && a
                        == DialogAction::SaveProject { path },
                    DialogTag::LoadProject => *final(self) == *old(self) && a
                        == DialogAction::LoadProject { path },
                    _ => *final(self) == *old(self) && a == DialogAction::Nothing,
                },
                DialogResult::FolderPicked { tag, path } => a == DialogAction::Nothing && match tag {
                    DialogTag::StructuredOutputDir => final(self).project == (ProjectState {
                        structured: StructuredState {
                            output_dir: Some(path),
                            ..old(self).project.structured
                        },
                        ..old(self).project
                    }) && final(self).log == old(self).log,
                    DialogTag::EasyMeshOutputDir => final(self).project == (ProjectState {
                        easymesh: EasyMeshState { output_dir: Some(path), ..old(self).project.easymesh },
                        ..old(self).project
                    }) && final(self).log == old(self).log,
                    _ => *final(self) == *old(self),
                },
                DialogResult::Cancelled { .. } => *final(self) == *old(self) && a
                    == DialogAction::Nothing,
            },
            final(self).run_status == old(self).run_status,
            final(self).show_open_dir_button == old(self).show_open_dir_button,
            final(self).show_build_button == old(self).show_build_button,
            final(self).log_auto_scroll == old(self).log_auto_scroll,
    {
        match result {
            DialogResult::FilePicked { tag, path } => match tag {
                DialogTag::StructuredBrowse => {
                    if path_exists {
                        self.project.structured.file_path = Some(path);
                    } else {
                        let mut line = string_of("Error: file not found: ");
                        push_str(&mut line, path.as_str());
                        self.push_log(line);
                    }
                    DialogAction::Nothing
                },
                DialogTag::EasyMeshBrowse => {
                    if path_exists {
                        self.project.easymesh.file_path = Some(path);
                    } else {
                        let mut line = string_of("Error: file not found: ");
                        push_str(&mut line, path.as_str());
                        self.push_log(line);
                    }
                    DialogAction::Nothing
                },
                DialogTag::StructuredTemplateSave => DialogAction::WriteTemplate {
                    path,
                    content: STRUCTURED_TEMPLATE,
                },
                DialogTag::EasyMeshTemplateSave => DialogAction::WriteTemplate {
                    path,
                    content: EASYMESH_TEMPLATE,
                },
                DialogTag::SaveProject => DialogAction::SaveProject { path },
                DialogTag::LoadProject => DialogAction::LoadProject { path },
                _ => DialogAction::Nothing,
            },
            DialogResult::FolderPicked { tag, path } => {
                match tag {
                    DialogTag::StructuredOutputDir => {
                        self.project.structured.output_dir = Some(path);
                    },
                    DialogTag::EasyMeshOutputDir => {
                        self.project.easymesh.output_dir = Some(path);
                    },
                    _ => {},
                }
                DialogAction::Nothing
            },
            DialogResult::Cancelled { .. } => DialogAction::Nothing,
        }
    }

    /// Reports the reading of a project file at `path`: the project read
    /// (`Some`) replaces the current one; a file that is not a project
    /// (`None`) is logged as such.
    pub fn project_loaded(&mut self, path: &str, loaded: Option<ProjectState>)
        ensures
            match loaded {
                Some(p) => final(self).project == p && log_text(*final(self)) == log_text(
                    *old(self),
                ).push("Project loaded from "@ + path@),
                None => final(self).project == old(self).project && log_text(*final(self))
                    == log_text(*old(self)).push(
                    "Error loading "@ + path@ + ": "@ + app_error_text(AppError::InvalidProjectFile),
                ),
            },
            final(self).run_status == old(self).run_status,
            final(self).show_open_dir_button == old(self).show_open_dir_button,
            final(self).show_build_button == old(self).show_build_button,
            final(self).log_auto_scroll == old(self).log_auto_scroll,
    {
        match loaded {
            Some(p) => {
                self.project = p;
                let mut line = string_of("Project loaded from ");
                push_str(&mut line, path);
                self.push_log(line);
            },
            None => {
                let mut line = string_of("Error loading ");
                push_str(&mut line, path);
                push_str(&mut line, ": ");
                let m = AppError::InvalidProjectFile.message();
                push_str(&mut line, m.as_str());
                self.push_log(line);
            },
        }
    }

    /// The checks before a Structured run: an output directory must be
    /// chosen, then at least one output format. Returns the directory when
    /// both hold; otherwise the run fails with the first failed check.
    pub fn preflight_structured(&mut self) -> (r: Option<String>)
        ensures
            match old(self).project.structured.output_dir {
                None => r is None && failed_with(final(self).run_status, no_dir_message())
                    && log_text(*final(self)) == log_text(*old(self)).push(no_dir_message())
                    && same_settings(*final(self), *old(self)),
                Some(d) => {
                    let s = old(self).project.structured;
                    if s.fmt_fepoint || s.fmt_zones || s.fmt_vtk || s.fmt_text {
                        r == Some(d) && *final(self) == *old(self)
                    } else {
                        r is None && failed_with(final(self).run_status, no_format_message())
                            && log_text(*final(self)) == log_text(*old(self)).push(
                            no_format_message(),
                        ) && same_settings(*final(self), *old(self))
                    }
                },
            },
    {
        let dir = match &self.project.structured.output_dir {
            Some(d) => d.clone(),
            None => {
                self.fail_run(
                    string_of("No output directory selected. Please choose an output directory first."),
                );
                return None;
            },
        };
        let s = &self.project.structured;
        if !(s.fmt_fepoint || s.fmt_zones || s.fmt_vtk || s.fmt_text) {
            self.fail_run(
                string_of("No output format selected. Please tick at least one format checkbox."),
            );
            return None;
        }
        Some(dir)
    }

    /// The check before an EasyMesh run: an output directory must be
    /// chosen. Returns it; otherwise the run fails.
    pub fn preflight_easymesh(&mut self) -> (r: Option<String>)
        ensures
            match old(self).project.easymesh.output_dir {
                None => r is None && failed_with(final(self).run_status, no_dir_message())
                    && log_text(*final(self)) == log_text(*old(self)).push(no_dir_message())
                    && same_settings(*final(self), *old(self)),
                Some(d) => r == Some(d) && *final(self) == *old(self),
            },
    {
        match &self.project.easymesh.output_dir {
            Some(d) => Some(d.clone()),
            None => {
                self.fail_run(
                    string_of("No output directory selected. Please choose an output directory first."),
                );
                None
            },
        }
    }

    /// Records the sending of a run request for `engine`: the output-directory
    /// button is withdrawn; a request that reached the worker sets `Running`
    /// and is announced, one that did not fails the run.
    pub fn run_requested(&mut self, sent: bool, engine: Engine)
        ensures
            !final(self).show_open_dir_button,
            final(self).project == old(self).project,
            final(self).show_build_button == old(self).show_build_button,
            final(self).log_auto_scroll == old(self).log_auto_scroll,
            if sent {
                final(self).run_status == RunStatus::Running && log_text(*final(self)) == log_text(
                    *old(self),
                ).push(started_line(engine))
            } else {
                failed_with(final(self).run_status, send_failed_message()) && log_text(*final(self))
                    == log_text(*old(self)).push(send_failed_message())
            },
    {
        self.show_open_dir_button = false;
        if sent {
            self.run_status = RunStatus::Running;
            let line = match engine {
                Engine::Structured => string_of("Starting structured mesh generation…"),
                Engine::EasyMesh => string_of("Starting EasyMesh generation…"),
            };
            self.push_log(line);
        } else {
            self.fail_run(string_of("Failed to send run request to worker."));
        }
    }

    /// Records the sending of a build request: one that reached the worker
    /// sets `Running` and is announced; one that did not is logged.
    pub fn build_requested(&mut self, sent: bool)
        ensures
            same_settings(*final(self), *old(self)),
            if sent {
                final(self).run_status == RunStatus::Running && log_text(*final(self)) == log_text(
                    *old(self),
                ).push("Starting EasyMesh build from source…"@)
            } else {
                final(self).run_status == old(self).run_status && log_text(*final(self)) == log_text(
                    *old(self),
                ).push("Failed to send build request to worker."@)
            },
    {
        if sent {
            self.run_status = RunStatus::Running;
            self.push_log(string_of("Starting EasyMesh build from source…"));
        } else {
            self.push_log(string_of("Failed to send build request to worker."));
        }
    }
}

} // verus!
