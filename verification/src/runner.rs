//! What the front end hands to the mesh engines and what it hears back:
//! the errors it reports, the messages of a run or a build, the `.d` text
//! and command line for EasyMesh, and the report that ends an EasyMesh run
//! or a build of EasyMesh from source.
use vstd::prelude::*;

use crate::state::{main_separator, EasyMeshState, InputMode, PointRow, SegmentRow};
use crate::text::{int_text, nat_text, push_int, push_nat, push_str, string_of};

verus! {

/// The errors the front end reports.
#[derive(Debug, Clone, PartialEq)]
pub enum AppError {
    BinaryNotFound { path: String },
    ProcessTerminated,
    InvalidProjectFile,
    SourceDirNotFound { path: String },
    MakeNotFound,
    BuildFailed { exit_code: i32 },
}

/// The text shown for an error.
pub open spec fn app_error_text(e: AppError) -> Seq<char> {
    match e {
        AppError::BinaryNotFound { path } => "EasyMesh binary not found at "@ + path@
            + ". Please ensure the Easy executable is present."@,
        AppError::ProcessTerminated => "Mesh generation process terminated unexpectedly."@,
        AppError::InvalidProjectFile => "Could not load project: the file is not a valid project file."@,
        AppError::SourceDirNotFound { path } => "EasyMesh source directory not found at "@ + path@
            + ". Cannot build from source."@,
        AppError::MakeNotFound => "The 'make' build tool was not found. Please install a C++ build environment (e.g., build-essential on Linux, Xcode Command Line Tools on macOS, or MinGW/WSL on Windows) and try again."@,
        AppError::BuildFailed { .. } => "Build failed. Check the log for compiler errors."@,
    }
}

impl AppError {
    /// The text shown for this error.
    pub fn message(&self) -> (s: String)
        ensures
            s@ == app_error_text(*self),
    {
        match self {
            AppError::BinaryNotFound { path } => {
                let mut s = string_of("EasyMesh binary not found at ");
                push_str(&mut s, path.as_str());
                push_str(&mut s, ". Please ensure the Easy executable is present.");
                s
            },
            AppError::ProcessTerminated => string_of(
                "Mesh generation process terminated unexpectedly.",
            ),
            AppError::InvalidProjectFile => string_of(
                "Could not load project: the file is not a valid project file.",
            ),
            AppError::SourceDirNotFound { path } => {
                let mut s = string_of("EasyMesh source directory not found at ");
                push_str(&mut s, path.as_str());
                push_str(&mut s, ". Cannot build from source.");
                s
            },
            AppError::MakeNotFound => string_of(
                "The 'make' build tool was not found. Please install a C++ build environment (e.g., build-essential on Linux, Xcode Command Line Tools on macOS, or MinGW/WSL on Windows) and try again.",
            ),
            AppError::BuildFailed { .. } => string_of(
                "Build failed. Check the log for compiler errors.",
            ),
        }
    }
}

/// Messages from the worker that runs an engine or a build.
#[derive(Debug, Clone, PartialEq)]
pub enum WorkerMsg {
    /// One line of output.
    LogLine(String),
    /// The end of a mesh generation run.
    RunComplete { success: bool, exit_code: Option<i32>, error_text: Option<String> },
    /// The end of a build of EasyMesh from source.
    BuildComplete { success: bool, binary_path: Option<String>, error_text: Option<String> },
}

/// What an EasyMesh run needs.
#[derive(Debug, Clone, PartialEq)]
pub struct EasyMeshRunArgs {
    /// The `.d` text to write for the run.
    pub dot_d_content: String,
    /// Where the `.d` file and the outputs go.
    pub output_dir: String,
    /// The `Easy` / `Easy.exe` executable.
    pub binary_path: String,
    /// The command-line options.
    pub args: Vec<String>,
    /// The stem of the `.d` file, and so of the outputs; `mesh` when `None`.
    pub input_stem: Option<String>,
}

/// What a build of EasyMesh from source needs.
#[derive(Debug, Clone, PartialEq)]
pub struct BuildEasyMeshArgs {
    /// The directory holding EasyMesh's `Makefile`.
    pub src_dir: String,
}

// ---------------------------------------------------------------------------
// The `.d` file
// ---------------------------------------------------------------------------

/// `<i>: <x> <y> <spacing> <marker>` and a newline.
pub open spec fn point_line(i: nat, p: PointRow) -> Seq<char> {
    nat_text(i) + ": "@ + p.x@ + " "@ + p.y@ + " "@ + p.spacing@ + " "@ + p.marker@ + "\n"@
}

/// `<i>: <start> <end> <marker>` and a newline.
pub open spec fn segment_line(i: nat, s: SegmentRow) -> Seq<char> {
    nat_text(i) + ": "@ + s.start@ + " "@ + s.end@ + " "@ + s.marker@ + "\n"@
}

/// The lines of the first `k` points.
pub open spec fn point_lines(pts: Seq<PointRow>, k: nat) -> Seq<char>
    decreases k,
{
    if k == 0 {
        seq![]
    } else {
        point_lines(pts, (k - 1) as nat) + point_line((k - 1) as nat, pts[k - 1])
    }
}

/// The lines of the first `k` segments.
pub open spec fn segment_lines(segs: Seq<SegmentRow>, k: nat) -> Seq<char>
    decreases k,
{
    if k == 0 {
        seq![]
    } else {
        segment_lines(segs, (k - 1) as nat) + segment_line((k - 1) as nat, segs[k - 1])
    }
}

/// The `.d` text of the tables: the number of points, one line per point,
/// the number of segments, one line per segment.
pub open spec fn dot_d_text(s: EasyMeshState) -> Seq<char> {
    nat_text(s.points@.len()) + "\n"@ + point_lines(s.points@, s.points@.len()) + nat_text(
        s.segments@.len(),
    ) + "\n"@ + segment_lines(s.segments@, s.segments@.len())
}

/// Writes the points and segments tables in EasyMesh's `.d` format.
pub fn state_to_dot_d(s: &EasyMeshState) -> (out: String)
    ensures
        out@ == dot_d_text(*s),
{
    let mut out = String::new();
    push_nat(&mut out, s.points.len() as u64);
    push_str(&mut out, "\n");
    let ghost head = out@;
    let mut i: usize = 0;
    while i < s.points.len()
        invariant
            i <= s.points@.len(),
            out@ == head + point_lines(s.points@, i as nat),
        decreases s.points.len() - i,
    {
        let p = &s.points[i];
        push_nat(&mut out, i as u64);
        push_str(&mut out, ": ");
        push_str(&mut out, p.x.as_str());
        push_str(&mut out, " ");
        push_str(&mut out, p.y.as_str());
        push_str(&mut out, " ");
        push_str(&mut out, p.spacing.as_str());
        push_str(&mut out, " ");
        push_str(&mut out, p.marker.as_str());
        push_str(&mut out, "\n");
        assert(out@ == head + point_lines(s.points@, (i + 1) as nat));
        i = i + 1;
    }
    push_nat(&mut out, s.segments.len() as u64);
    push_str(&mut out, "\n");
    let ghost mid = out@;
    let mut j: usize = 0;
    while j < s.segments.len()
        invariant
            j <= s.segments@.len(),
            out@ == mid + segment_lines(s.segments@, j as nat),
        decreases s.segments.len() - j,
    {
        let g = &s.segments[j];
        push_nat(&mut out, j as u64);
        push_str(&mut out, ": ");
        push_str(&mut out, g.start.as_str());
        push_str(&mut out, " ");
        push_str(&mut out, g.end.as_str());
        push_str(&mut out, " ");
        push_str(&mut out, g.marker.as_str());
        push_str(&mut out, "\n");
        assert(out@ == mid + segment_lines(s.segments@, (j + 1) as nat));
        j = j + 1;
    }
    out
}

// ---------------------------------------------------------------------------
// The command line
// ---------------------------------------------------------------------------

/// `[a]` when `b`, else nothing.
pub open spec fn when(b: bool, a: Seq<char>) -> Seq<Seq<char>> {
    if b {
        seq![a]
    } else {
        seq![]
    }
}

/// EasyMesh's options for the settings, in this order: `+tec`, `+vtk`,
/// `+eps`, `+a <n>` (when `n > 0`), `-r`, `-s`, `-d`, `-m`.
pub open spec fn easymesh_args(s: EasyMeshState) -> Seq<Seq<char>> {
    when(s.fmt_tec, "+tec"@) + when(s.fmt_vtk, "+vtk"@) + when(s.fmt_eps, "+eps"@) + (if s.aggressiveness
        > 0 {
        seq!["+a"@, nat_text(s.aggressiveness as nat)]
    } else {
        seq![]
    }) + when(s.skip_relaxation, "-r"@) + when(s.skip_smoothing, "-s"@) + when(
        s.boundary_only,
        "-d"@,
    ) + when(s.suppress_messages, "-m"@)
}

/// The texts of a list of strings.
pub open spec fn texts(v: Seq<String>) -> Seq<Seq<char>> {
    v.map_values(|a: String| a@)
}

fn push_arg(args: &mut Vec<String>, a: String)
    ensures
        texts(final(args)@) == texts(old(args)@).push(a@),
{
    let ghost before = args@;
    args.push(a);
    assert(texts(args@) == texts(before).push(a@));
}

fn push_arg_if(args: &mut Vec<String>, b: bool, a: &str)
    ensures
        texts(final(args)@) == texts(old(args)@) + when(b, a@),
{
    if b {
        push_arg(args, string_of(a));
    } else {
        assert(texts(args@) == texts(args@) + when(b, a@));
    }
}

/// The command-line options that the EasyMesh settings stand for.
pub fn build_easymesh_args(s: &EasyMeshState) -> (args: Vec<String>)
    ensures
        texts(args@) == easymesh_args(*s),
{
    let mut args: Vec<String> = Vec::new();
    push_arg_if(&mut args, s.fmt_tec, "+tec");
    push_arg_if(&mut args, s.fmt_vtk, "+vtk");
    push_arg_if(&mut args, s.fmt_eps, "+eps");
    let ghost formats = texts(args@);
    if s.aggressiveness > 0 {
        push_arg(&mut args, string_of("+a"));
        let mut n = String::new();
        push_nat(&mut n, s.aggressiveness as u64);
        push_arg(&mut args, n);
    }
    assert(texts(args@) == formats + (if s.aggressiveness > 0 {
        seq!["+a"@, nat_text(s.aggressiveness as nat)]
    } else {
        seq![]
    }));
    push_arg_if(&mut args, s.skip_relaxation, "-r");
    push_arg_if(&mut args, s.skip_smoothing, "-s");
    push_arg_if(&mut args, s.boundary_only, "-d");
    push_arg_if(&mut args, s.suppress_messages, "-m");
    args
}

/// The stem of the run's `.d` file: the input file's stem in File mode
/// (`file_stem`, when it has one), `mesh` in Manual mode.
pub open spec fn run_stem(s: EasyMeshState, file_stem: Option<String>) -> Option<Seq<char>> {
    match s.input_mode {
        InputMode::File => match file_stem {
            Some(t) => Some(t@),
            None => None,
        },
        InputMode::Manual => Some("mesh"@),
    }
}

/// Everything an EasyMesh run needs: the `.d` text, the output directory,
/// the executable, the options of the settings and the stem of the files.
pub fn easymesh_run_args(
    s: &EasyMeshState,
    dot_d_content: String,
    output_dir: String,
    file_stem: Option<String>,
) -> (r: EasyMeshRunArgs)
    ensures
        r.dot_d_content == dot_d_content,
        r.output_dir == output_dir,
        r.binary_path == s.easymesh_binary,
        texts(r.args@) == easymesh_args(*s),
        match r.input_stem {
            Some(t) => run_stem(*s, file_stem) == Some(t@),
            None => run_stem(*s, file_stem) is None,
        },
{
    let args = build_easymesh_args(s);
    let input_stem = match s.input_mode {
        InputMode::File => file_stem,
        InputMode::Manual => Some(string_of("mesh")),
    };
    EasyMeshRunArgs {
        dot_d_content,
        output_dir,
        binary_path: s.easymesh_binary.clone(),
        args,
        input_stem,
    }
}

// ---------------------------------------------------------------------------
// The end of a run or a build
// ---------------------------------------------------------------------------

/// The text of an optional string.
pub open spec fn opt_text(o: Option<String>) -> Option<Seq<char>> {
    match o {
        Some(t) => Some(t@),
        None => None,
    }
}

/// `EasyMesh exited with code <code>`.
pub open spec fn exit_code_text(code: int) -> Seq<char> {
    "EasyMesh exited with code "@ + int_text(code)
}

/// The report that ends an EasyMesh run. EasyMesh exits with a failure code
/// even when it succeeds, so a run succeeds when it wrote its node file
/// (`<stem>.n`), which `nodes_written` says; the process's `exit_code`
/// (`None` when none was given) is reported as it is. With `by_signal`
/// (Unix), a failed run without a code was killed and is reported as such.
pub fn easymesh_run_complete(exit_code: Option<i32>, nodes_written: bool, by_signal: bool) -> (m:
    WorkerMsg)
    ensures
        m matches WorkerMsg::RunComplete { success: ok, exit_code: code, error_text: text } && (if by_signal
            && exit_code is None && !nodes_written {
            !ok && code is None && opt_text(text) == Some(app_error_text(AppError::ProcessTerminated))
        } else {
            ok == nodes_written && code == exit_code && (if nodes_written {
                text is None
            } else {
                opt_text(text) == Some(
                    exit_code_text(
                        match exit_code {
                            Some(c) => c as int,
                            None => -1,
                        },
                    ),
                )
            })
        }),
{
    if by_signal && exit_code.is_none() && !nodes_written {
        return WorkerMsg::RunComplete {
            success: false,
            exit_code: None,
            error_text: Some(AppError::ProcessTerminated.message()),
        };
    }
    let error_text = if nodes_written {
        None
    } else {
        let code: i32 = match exit_code {
            Some(c) => c,
            None => -1,
        };
        let mut t = string_of("EasyMesh exited with code ");
        push_int(&mut t, code as i64);
        Some(t)
    };
    WorkerMsg::RunComplete { success: nodes_written, exit_code, error_text }
}

/// `Build appeared to succeed but the expected binary '<name>' was not found in '<dir>'.`
pub open spec fn missing_binary_text(name: Seq<char>, dir: Seq<char>) -> Seq<char> {
    "Build appeared to succeed but the expected binary '"@ + name + "' was not found in '"@ + dir
        + "'."@
}

/// The report that ends a build of EasyMesh in `src_dir` whose `make`
/// exited with `exit_code` and `success`; `binary_path` is where the
/// executable `binary_name` should now be, and `binary_exists` whether it is.
pub fn build_complete(
    success: bool,
    exit_code: Option<i32>,
    src_dir: &str,
    binary_name: &str,
    binary_path: String,
    binary_exists: bool,
) -> (m: WorkerMsg)
    ensures
        m matches WorkerMsg::BuildComplete { success: ok, binary_path: path, error_text: text } && (if success
            && binary_exists {
            ok && path == Some(binary_path) && text is None
        } else if success {
            !ok && path is None && opt_text(text) == Some(missing_binary_text(binary_name@, src_dir@))
        } else {
            !ok && path is None && opt_text(text) == Some(
                app_error_text(
                    AppError::BuildFailed {
                        exit_code: match exit_code {
                            Some(c) => c,
                            None => -1i32,
                        },
                    },
                ),
            )
        }),
{
    if success {
        if binary_exists {
            WorkerMsg::BuildComplete {
                success: true,
                binary_path: Some(binary_path),
                error_text: None,
            }
        } else {
            let mut t = string_of("Build appeared to succeed but the expected binary '");
            push_str(&mut t, binary_name);
            push_str(&mut t, "' was not found in '");
            push_str(&mut t, src_dir);
            push_str(&mut t, "'.");
            WorkerMsg::BuildComplete { success: false, binary_path: None, error_text: Some(t) }
        }
    } else {
        let code: i32 = match exit_code {
            Some(c) => c,
            None => -1,
        };
        let e = AppError::BuildFailed { exit_code: code };
        WorkerMsg::BuildComplete { success: false, binary_path: None, error_text: Some(e.message()) }
    }
}

/// The directory in which EasyMesh is built: the directory that holds the
/// configured binary (`parent`), else `EasyMesh<sep>Src`.
pub open spec fn source_dir(parent: Option<Seq<char>>, sep: char) -> Seq<char> {
    match parent {
        Some(p) => p,
        None => "EasyMesh"@ + seq![sep] + "Src"@,
    }
}

/// `a` is a proper prefix of `b`: `b` with some characters taken off its end.
pub open spec fn proper_prefix(a: Seq<char>, b: Seq<char>) -> bool {
    a.len() < b.len() && a == b.subrange(0, a.len() as int)
}

/// A relative path with no root and no drive or server prefix: not empty,
/// not starting with `/`, and holding no `\` and no `:` (characters that a
/// root or prefix needs on some platform).
pub open spec fn plain_relative(p: Seq<char>) -> bool {
    p.len() > 0 && p[0] != '/' && forall|i: int| 0 <= i < p.len() ==> #[trigger] p[i] != '\\' && p[i] != ':'
}

/// A relative path of one component: not empty and holding no `/`, `\`
/// or `:`.
pub open spec fn single_name(p: Seq<char>) -> bool {
    p.len() > 0 && forall|i: int| 0 <= i < p.len() ==> #[trigger] p[i] != '/' && p[i] != '\\' && p[i] != ':'
}

/// `std::path::Path::parent` of `path`, as text (`Path::display`, which
/// gives the text back unchanged for a path made from a `str`). As its
/// documentation says: it is the path without its final component, so a
/// proper prefix of it; `None` for the empty path (and for a path that
/// ends in a root or prefix); `Some("")` for a relative path of one
/// component; and `Some` for any relative path without root or prefix.
/// Where exactly components split beyond that depends on the platform's
/// separators and is not stated.
#[verifier::external_body]
fn path_parent(path: &str) -> (r: Option<String>)
    ensures
        path@.len() == 0 ==> r is None,
        r is Some ==> proper_prefix(r->Some_0@, path@),
        plain_relative(path@) ==> r is Some,
        single_name(path@) ==> r is Some && r->Some_0@.len() == 0,
{
    std::path::Path::new(path).parent().map(|p| p.display().to_string())
}

/// The build directory for a binary whose parent directory is `parent`, on a
/// platform whose path separator is `sep`.
pub fn build_source_dir(parent: Option<String>, sep: char) -> (r: String)
    ensures
        r@ == source_dir(opt_text(parent), sep),
{
    match parent {
        Some(p) => p,
        None => {
            let mut s = string_of("EasyMesh");
            s.push(sep);
            push_str(&mut s, "Src");
            s
        },
    }
}

/// The directory in which to build EasyMesh for the configured binary path:
/// the directory holding the binary (`binary` without its last component),
/// else `EasyMesh/Src` with the platform's separator.
///
/// An empty path gives `EasyMesh/Src` (or `EasyMesh\Src`); a bare file name
/// gives the current directory, `""`; any other relative path without root
/// or prefix gives a proper prefix of it; a path in general gives a proper
/// prefix of it or the fallback.
pub fn easymesh_source_dir(binary: &str) -> (r: String)
    ensures
        binary@.len() == 0 ==> r@ == source_dir(None, '/') || r@ == source_dir(None, '\\'),
        single_name(binary@) ==> r@.len() == 0,
        plain_relative(binary@) ==> proper_prefix(r@, binary@),
        binary@.len() > 0 ==> proper_prefix(r@, binary@) || r@ == source_dir(None, '/') || r@
            == source_dir(None, '\\'),
{
    let parent = path_parent(binary);
    let sep = main_separator();
    build_source_dir(parent, sep)
}

} // verus!
