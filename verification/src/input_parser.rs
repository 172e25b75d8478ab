//! Parsing of the project file and of the polygon geometry file.
//!
//! ## Project file
//!
//! Four lines: the geometry input path, then the text, FEPOINT and
//! structured-zone output paths.  Each line is cut to 80 characters (the
//! Fortran `'(80a)'` record) and ASCII-whitespace trimmed; an empty result is
//! an error.
//!
//! ## Geometry file (list-directed)
//!
//! ```text
//! dx  dy          ← cell spacing (both must be finite and > 0)
//! nnode           ← number of boundary nodes
//! x  y            ← repeated nnode times
//! nele            ← number of directed edges
//! k1  k2  kp      ← repeated nele times; k1, k2 1-based, kp ≥ 1
//! ```
//!
//! Tokens are whitespace-separated and may cross line boundaries.  The
//! numeric value of a floating-point token is read outside this crate; the
//! parser is given, for every token, its [`FloatClass`] — how it reads as an
//! `f64` — and decides everything else: the token layout, the integer fields,
//! the index checks and the exact error that comes first.
use vstd::prelude::*;

use crate::error::{is_parse_error, parse_error, MeshError};
use crate::text::{chars_of, debug_quoted, debug_text, int_text, is_whitespace, i32_value, char_is_whitespace, parse_i32_chars, parse_usize_chars, push_int, push_str, string_from_chars, string_of, trim_ascii, trimmed_chars, usize_value};

verus! {

// ---------------------------------------------------------------------------
// Public data
// ---------------------------------------------------------------------------

/// Paths extracted from the four-line project file.
#[derive(Debug, Clone)]
pub struct ProjectConfig {
    /// geometry input file path
    pub geometry_file: String,
    /// secondary text output path
    pub ch2_file: String,
    /// Tecplot FEPOINT output path
    pub ch3_file: String,
    /// Tecplot structured-zone output path
    pub ch4_file: String,
}

/// A directed edge in the polygon boundary.
#[derive(Debug, Clone, Copy, PartialEq, Eq, Structural)]
pub struct Edge {
    /// Start node index, 0-based.
    pub k1: usize,
    /// End node index, 0-based.
    pub k2: usize,
    /// Region / boundary tag (≥ 1).
    pub kp: i32,
}

/// One whitespace-separated token of the geometry file and its 1-based line.
#[derive(Debug, Clone)]
pub struct Token {
    pub text: String,
    pub line: usize,
}

impl View for Token {
    type V = (Seq<char>, nat);

    open spec fn view(&self) -> (Seq<char>, nat) {
        (self.text@, self.line as nat)
    }
}

/// How a token reads as an `f64` (`str::parse::<f64>`).
#[derive(Debug, Clone, Copy, PartialEq, Eq, Structural)]
pub enum FloatClass {
    /// Not a floating-point literal.
    Unparsable,
    /// Parses, to an infinity or NaN.
    NonFinite,
    /// Parses to a finite value ≤ 0.
    NonPositive,
    /// Parses to a finite value > 0.
    Positive,
}

/// Where the values of a parsed geometry file stand among its tokens.
#[derive(Debug, Clone)]
pub struct GeometryLayout {
    /// Token holding `dx`.
    pub dx_token: usize,
    /// Token holding `dy`.
    pub dy_token: usize,
    /// Number of nodes.
    pub nnode: usize,
    /// Tokens holding the `x` and `y` of each node.
    pub node_tokens: Vec<(usize, usize)>,
    /// The validated edges (0-based node indices).
    pub edges: Vec<Edge>,
}

// ---------------------------------------------------------------------------
// Integer fields
// ---------------------------------------------------------------------------

/// `prefix ++ field ++ ", got " ++ debug(text)`.
pub open spec fn got_message(prefix: Seq<char>, field: Seq<char>, text: Seq<char>) -> Seq<char> {
    prefix + field + ", got "@ + debug_text(text)
}

fn got_msg(prefix: &str, field: &str, text: &str) -> (m: String)
    ensures
        m@ == got_message(prefix@, field@, text@),
{
    let mut m = string_of(prefix);
    push_str(&mut m, field);
    push_str(&mut m, ", got ");
    let d = debug_quoted(text);
    push_str(&mut m, d.as_str());
    m
}

/// Parses a token as `usize`, reporting a parse error at `line` naming `field`.
pub fn parse_usize(s: &str, line: usize, field: &str) -> (r: Result<usize, MeshError>)
    ensures
        match usize_value(s@) {
            Some(v) => r == Ok::<usize, MeshError>(v),
            None => r is Err && is_parse_error(
                r->Err_0,
                line as int,
                got_message("expected non-negative integer for "@, field@, s@),
            ),
        },
{
    match parse_usize_chars(&chars_of(s)) {
        Some(v) => Ok(v),
        None => Err(parse_error(line, got_msg("expected non-negative integer for ", field, s))),
    }
}

/// Parses a token as `i32`, reporting a parse error at `line` naming `field`.
pub fn parse_i32(s: &str, line: usize, field: &str) -> (r: Result<i32, MeshError>)
    ensures
        match i32_value(s@) {
            Some(v) => r == Ok::<i32, MeshError>(v),
            None => r is Err && is_parse_error(
                r->Err_0,
                line as int,
                got_message("expected integer for "@, field@, s@),
            ),
        },
{
    match parse_i32_chars(&chars_of(s)) {
        Some(v) => Ok(v),
        None => Err(parse_error(line, got_msg("expected integer for ", field, s))),
    }
}

// ---------------------------------------------------------------------------
// Lines and the project file
// ---------------------------------------------------------------------------

/// A line without the `\r` of a `\r\n` terminator.
pub open spec fn strip_cr(l: Seq<char>) -> Seq<char> {
    if l.len() > 0 && l.last() == '\r' {
        l.drop_last()
    } else {
        l
    }
}

/// Completed lines and the unterminated rest, after reading `s`.
pub open spec fn line_run(s: Seq<char>) -> (Seq<Seq<char>>, Seq<char>)
    decreases s.len(),
{
    if s.len() == 0 {
        (seq![], seq![])
    } else {
        let (done, cur) = line_run(s.drop_last());
        if s.last() == '\n' {
            (done.push(strip_cr(cur)), seq![])
        } else {
            (done, cur.push(s.last()))
        }
    }
}

/// The lines of `s` as `BufRead::lines` yields them: split at `\n`, a `\r`
/// before the `\n` dropped, no empty line after a final `\n`.
pub open spec fn text_lines(s: Seq<char>) -> Seq<Seq<char>> {
    let (done, cur) = line_run(s);
    if cur.len() > 0 {
        done.push(cur)
    } else {
        done
    }
}

/// A project-file entry: the first 80 characters of the line, ASCII-trimmed.
pub open spec fn project_entry(l: Seq<char>) -> Seq<char> {
    trim_ascii(if l.len() > 80 {
        l.take(80)
    } else {
        l
    })
}

/// The first problem among project lines `k..=4` (1-based), as line and message.
pub open spec fn project_fault(lines: Seq<Seq<char>>, k: nat) -> Option<(nat, Seq<char>)>
    decreases 5 - k,
{
    if k > 4 || k == 0 {
        None
    } else if lines.len() < k {
        Some((k, "file has fewer than 4 lines; missing line "@ + int_text(k as int)))
    } else if project_entry(lines[k - 1]).len() == 0 {
        Some((k, "empty path"@))
    } else {
        project_fault(lines, k + 1)
    }
}

/// Splits `v` into lines (see [`text_lines`]).
pub fn split_lines(v: &Vec<char>) -> (r: Vec<Vec<char>>)
    ensures
        r@.len() == text_lines(v@).len(),
        forall|i: int| 0 <= i < r@.len() ==> #[trigger] r@[i]@ == text_lines(v@)[i],
{
    let mut done: Vec<Vec<char>> = Vec::new();
    let mut cur: Vec<char> = Vec::new();
    let n = v.len();
    let mut i: usize = 0;
    while i < n
        invariant
            i <= n == v.len(),
            done@.len() == line_run(v@.take(i as int)).0.len(),
            forall|k: int| 0 <= k < done@.len() ==> #[trigger] done@[k]@ == line_run(v@.take(i as int)).0[k],
            cur@ == line_run(v@.take(i as int)).1,
        decreases n - i,
    {
        let c = v[i];
        proof {
            assert(v@.take(i + 1).drop_last() == v@.take(i as int));
            assert(v@.take(i + 1).last() == c);
        }
        if c == '\n' {
            let mut line = cur;
            if line.len() > 0 && line[line.len() - 1] == '\r' {
                line.pop();
            }
            done.push(line);
            cur = Vec::new();
        } else {
            cur.push(c);
        }
        i = i + 1;
    }
    proof {
        assert(v@.take(n as int) == v@);
    }
    if cur.len() > 0 {
        done.push(cur);
    }
    done
}

/// The entry of a project line (see [`project_entry`]).
fn entry_of(l: &Vec<char>) -> (r: Vec<char>)
    ensures
        r@ == project_entry(l@),
{
    if l.len() > 80 {
        let mut t: Vec<char> = Vec::new();
        let mut i: usize = 0;
        while i < 80
            invariant
                i <= 80 < l.len(),
                t@ == l@.take(i as int),
            decreases 80 - i,
        {
            t.push(l[i]);
            i = i + 1;
            assert(t@ == l@.take(i as int));
        }
        trimmed_chars(&t, true)
    } else {
        trimmed_chars(l, true)
    }
}

/// Reads the four paths of a project file's text.
///
/// Errors: a missing line `k` gives `Parse { line: k, "file has fewer than 4
/// lines; missing line k" }`; an entry that is empty after cutting and
/// trimming gives `Parse { line: k, "empty path" }`; the first such line wins.
pub fn parse_project_text(text: &str) -> (r: Result<ProjectConfig, MeshError>)
    ensures
        match project_fault(text_lines(text@), 1) {
            Some(f) => r is Err && is_parse_error(r->Err_0, f.0 as int, f.1),
            None => r is Ok && {
                let lines = text_lines(text@);
                let c = r->Ok_0;
                &&& lines.len() >= 4
                &&& c.geometry_file@ == project_entry(lines[0])
                &&& c.ch2_file@ == project_entry(lines[1])
                &&& c.ch3_file@ == project_entry(lines[2])
                &&& c.ch4_file@ == project_entry(lines[3])
            },
        },
{
    let lines = split_lines(&chars_of(text));
    let ghost ls = text_lines(text@);
    let mut paths: Vec<String> = Vec::new();
    let mut k: usize = 1;
    while k <= 4
        invariant
            1 <= k <= 5,
            ls == text_lines(text@),
            lines@.len() == ls.len(),
            forall|i: int| 0 <= i < lines@.len() ==> #[trigger] lines@[i]@ == ls[i],
            project_fault(ls, 1) == project_fault(ls, k as nat),
            paths@.len() == k - 1,
            k - 1 <= ls.len(),
            forall|i: int| 0 <= i < k - 1 ==> #[trigger] paths@[i]@ == project_entry(ls[i]),
        decreases 5 - k,
    {
        if lines.len() < k {
            let mut msg = string_of("file has fewer than 4 lines; missing line ");
            push_int(&mut msg, k as i64);
            let ghost mv = msg@;
            proof {
                assert(project_fault(ls, k as nat) == Some((k as nat, mv)));
                assert(project_fault(text_lines(text@), 1) == Some((k as nat, mv)));
            }
            let err = parse_error(k, msg);
            assert(is_parse_error(err, k as int, mv));
            return Err(err);
        }
        let e = entry_of(&lines[k - 1]);
        proof {
            assert(lines@[k - 1]@ == ls[k - 1]);
        }
        if e.len() == 0 {
            let msg = string_of("empty path");
            proof {
                assert(project_fault(ls, k as nat) == Some((k as nat, msg@)));
            }
            return Err(parse_error(k, msg));
        }
        paths.push(string_from_chars(&e, 0, e.len()));
        proof {
            assert(e@.subrange(0, e@.len() as int) == e@);
        }
        k = k + 1;
    }
    let ch4_file = paths.pop().unwrap();
    let ch3_file = paths.pop().unwrap();
    let ch2_file = paths.pop().unwrap();
    let geometry_file = paths.pop().unwrap();
    Ok(ProjectConfig { geometry_file, ch2_file, ch3_file, ch4_file })
}

// ---------------------------------------------------------------------------
// Tokens
// ---------------------------------------------------------------------------

/// Scanner state: finished tokens, the token being read and its line, and
/// the current line.
pub struct TokState {
    pub done: Seq<(Seq<char>, nat)>,
    pub cur: Seq<char>,
    pub cur_line: nat,
    pub line: nat,
}

/// The scanner state after reading `s`.
pub open spec fn tok_run(s: Seq<char>) -> TokState
    decreases s.len(),
{
    if s.len() == 0 {
        TokState { done: seq![], cur: seq![], cur_line: 1, line: 1 }
    } else {
        let st = tok_run(s.drop_last());
        let c = s.last();
        if is_whitespace(c) {
            TokState {
                done: if st.cur.len() > 0 {
                    st.done.push((st.cur, st.cur_line))
                } else {
                    st.done
                },
                cur: seq![],
                cur_line: st.cur_line,
                line: if c == '\n' {
                    st.line + 1
                } else {
                    st.line
                },
            }
        } else {
            TokState {
                done: st.done,
                cur: st.cur.push(c),
                cur_line: if st.cur.len() == 0 {
                    st.line
                } else {
                    st.cur_line
                },
                line: st.line,
            }
        }
    }
}

/// The maximal runs of non-whitespace characters of `s`, each with the
/// 1-based number of the line it stands on (lines end at `\n`).
pub open spec fn tokens_of(s: Seq<char>) -> Seq<(Seq<char>, nat)> {
    let st = tok_run(s);
    if st.cur.len() > 0 {
        st.done.push((st.cur, st.cur_line))
    } else {
        st.done
    }
}

proof fn lemma_tok_run_bounds(s: Seq<char>)
    ensures
        tok_run(s).line <= s.len() + 1,
        tok_run(s).cur_line <= tok_run(s).line,
        tok_run(s).cur.len() <= s.len(),
        1 <= tok_run(s).cur_line,
    decreases s.len(),
{
    if s.len() > 0 {
        lemma_tok_run_bounds(s.drop_last());
    }
}

/// Splits geometry text into tokens and their line numbers.
pub fn tokenize(text: &str) -> (r: Vec<Token>)
    requires
        text@.len() < usize::MAX,
    ensures
        r@.len() == tokens_of(text@).len(),
        forall|i: int| 0 <= i < r@.len() ==> #[trigger] r@[i]@ == tokens_of(text@)[i],
{
    let v = chars_of(text);
    let n = v.len();
    let mut done: Vec<Token> = Vec::new();
    let mut cur: Vec<char> = Vec::new();
    let mut cur_line: usize = 1;
    let mut line: usize = 1;
    let mut i: usize = 0;
    while i < n
        invariant
            i <= n == v.len() < usize::MAX,
            v@ == text@,
            ({
                let st = tok_run(v@.take(i as int));
                &&& done@.len() == st.done.len()
                &&& forall|k: int| 0 <= k < done@.len() ==> #[trigger] done@[k]@ == st.done[k]
                &&& cur@ == st.cur
                &&& cur_line == st.cur_line
                &&& line == st.line
            }),
        decreases n - i,
    {
        let c = v[i];
        proof {
            assert(v@.take(i + 1).drop_last() == v@.take(i as int));
            assert(v@.take(i + 1).last() == c);
            lemma_tok_run_bounds(v@.take(i as int));
        }
        if char_is_whitespace(c) {
            if cur.len() > 0 {
                let t = string_from_chars(&cur, 0, cur.len());
                proof {
                    assert(cur@.subrange(0, cur@.len() as int) == cur@);
                }
                done.push(Token { text: t, line: cur_line });
                cur = Vec::new();
            }
            if c == '\n' {
                line = line + 1;
            }
        } else {
            if cur.len() == 0 {
                cur_line = line;
            }
            cur.push(c);
        }
        i = i + 1;
    }
    proof {
        assert(v@.take(n as int) == v@);
    }
    if cur.len() > 0 {
        let t = string_from_chars(&cur, 0, cur.len());
        proof {
            assert(cur@.subrange(0, cur@.len() as int) == cur@);
        }
        done.push(Token { text: t, line: cur_line });
    }
    done
}

// ---------------------------------------------------------------------------
// Geometry layout
// ---------------------------------------------------------------------------

/// The first problem of a geometry file, in the terms of its message.
pub enum GeomFault {
    /// `Parse { line, "unexpected end of file" }`
    Eof { line: nat },
    /// `Parse { line, "expected f64 for <field>, got <debug text>" }`
    Float { line: nat, field: Seq<char>, text: Seq<char> },
    /// `Parse { line, "expected non-negative integer for <field>, got <debug text>" }`
    Unsigned { line: nat, field: Seq<char>, text: Seq<char> },
    /// `Parse { line, "expected integer for <field>, got <debug text>" }`
    Signed { line: nat, field: Seq<char>, text: Seq<char> },
    /// `Parse { line, msg }`
    Message { line: nat, msg: Seq<char> },
    /// `NodeIndexOutOfRange { edge, node }`
    NodeIndex { edge: nat, node: nat },
}

/// `e` is the error that `f` describes.
pub open spec fn fault_is(e: MeshError, f: GeomFault) -> bool {
    match f {
        GeomFault::Eof { line } => is_parse_error(e, line as int, "unexpected end of file"@),
        GeomFault::Float { line, field, text } => is_parse_error(
            e,
            line as int,
            got_message("expected f64 for "@, field, text),
        ),
        GeomFault::Unsigned { line, field, text } => is_parse_error(
            e,
            line as int,
            got_message("expected non-negative integer for "@, field, text),
        ),
        GeomFault::Signed { line, field, text } => is_parse_error(
            e,
            line as int,
            got_message("expected integer for "@, field, text),
        ),
        GeomFault::Message { line, msg } => is_parse_error(e, line as int, msg),
        GeomFault::NodeIndex { edge, node } => e matches MeshError::NodeIndexOutOfRange {
            edge: ee,
            node: nn,
        } && ee == edge && nn == node,
    }
}

pub open spec fn tline(toks: Seq<(Seq<char>, nat)>, i: int) -> nat {
    toks[i].1
}

/// The first problem among `dx dy nnode`.
pub open spec fn header_fault(toks: Seq<(Seq<char>, nat)>, cls: Seq<FloatClass>) -> Option<
    GeomFault,
> {
    if toks.len() < 1 {
        Some(GeomFault::Eof { line: 1 })
    } else if toks.len() < 2 {
        Some(GeomFault::Eof { line: tline(toks, 0) })
    } else if cls[0] == FloatClass::Unparsable {
        Some(GeomFault::Float { line: tline(toks, 0), field: "dx"@, text: toks[0].0 })
    } else if cls[1] == FloatClass::Unparsable {
        Some(GeomFault::Float { line: tline(toks, 1), field: "dy"@, text: toks[1].0 })
    } else if cls[0] != FloatClass::Positive {
        Some(GeomFault::Message { line: tline(toks, 0), msg: "dx must be finite and > 0"@ })
    } else if cls[1] != FloatClass::Positive {
        Some(GeomFault::Message { line: tline(toks, 1), msg: "dy must be finite and > 0"@ })
    } else if toks.len() < 3 {
        Some(GeomFault::Eof { line: tline(toks, 1) })
    } else if usize_value(toks[2].0) is None {
        Some(GeomFault::Unsigned { line: tline(toks, 2), field: "nnode"@, text: toks[2].0 })
    } else {
        None
    }
}

/// The problem with node `k` (tokens `3 + 2k` and `4 + 2k`), if any.
pub open spec fn node_fault(toks: Seq<(Seq<char>, nat)>, cls: Seq<FloatClass>, k: int) -> Option<
    GeomFault,
> {
    let x = 3 + 2 * k;
    let y = x + 1;
    if toks.len() <= x {
        Some(GeomFault::Eof { line: tline(toks, 2) })
    } else if toks.len() <= y {
        Some(GeomFault::Eof { line: tline(toks, x) })
    } else if cls[x] == FloatClass::Unparsable {
        Some(GeomFault::Float { line: tline(toks, x), field: "node x"@, text: toks[x].0 })
    } else if cls[y] == FloatClass::Unparsable {
        Some(GeomFault::Float { line: tline(toks, y), field: "node y"@, text: toks[y].0 })
    } else if cls[x] == FloatClass::NonFinite {
        Some(GeomFault::Message { line: tline(toks, x), msg: "node x coordinate is not finite"@ })
    } else if cls[y] == FloatClass::NonFinite {
        Some(GeomFault::Message { line: tline(toks, y), msg: "node y coordinate is not finite"@ })
    } else {
        None
    }
}

/// The first problem among nodes `k..n`.
pub open spec fn nodes_fault(toks: Seq<(Seq<char>, nat)>, cls: Seq<FloatClass>, k: int, n: int) -> Option<GeomFault>
    decreases n - k,
{
    if k >= n {
        None
    } else if node_fault(toks, cls, k) is Some {
        node_fault(toks, cls, k)
    } else {
        nodes_fault(toks, cls, k + 1, n)
    }
}

/// The problem with the edge count at token `3 + 2n`, if any.
pub open spec fn count_fault(toks: Seq<(Seq<char>, nat)>, n: int) -> Option<GeomFault> {
    let p = 3 + 2 * n;
    if toks.len() <= p {
        Some(GeomFault::Eof { line: tline(toks, 2) })
    } else if usize_value(toks[p].0) is None {
        Some(GeomFault::Unsigned { line: tline(toks, p), field: "nele"@, text: toks[p].0 })
    } else {
        None
    }
}

/// The problem with edge `e` (tokens `4 + 2n + 3e ..`), if any.
pub open spec fn edge_fault(toks: Seq<(Seq<char>, nat)>, n: int, e: int) -> Option<GeomFault> {
    let b = 4 + 2 * n + 3 * e;
    let ele_line = tline(toks, 3 + 2 * n);
    if toks.len() <= b {
        Some(GeomFault::Eof { line: ele_line })
    } else if toks.len() <= b + 1 {
        Some(GeomFault::Eof { line: tline(toks, b) })
    } else if toks.len() <= b + 2 {
        Some(GeomFault::Eof { line: tline(toks, b + 1) })
    } else if usize_value(toks[b].0) is None {
        Some(GeomFault::Unsigned { line: tline(toks, b), field: "k1"@, text: toks[b].0 })
    } else if usize_value(toks[b + 1].0) is None {
        Some(GeomFault::Unsigned { line: tline(toks, b + 1), field: "k2"@, text: toks[b + 1].0 })
    } else if i32_value(toks[b + 2].0) is None {
        Some(GeomFault::Signed { line: tline(toks, b + 2), field: "kp"@, text: toks[b + 2].0 })
    } else {
        let k1 = usize_value(toks[b].0)->Some_0;
        let k2 = usize_value(toks[b + 1].0)->Some_0;
        let kp = i32_value(toks[b + 2].0)->Some_0;
        if k1 == 0 {
            Some(GeomFault::NodeIndex { edge: e as nat, node: 0 })
        } else if k2 == 0 {
            Some(GeomFault::NodeIndex { edge: e as nat, node: 0 })
        } else if k1 - 1 >= n {
            Some(GeomFault::NodeIndex { edge: e as nat, node: (k1 - 1) as nat })
        } else if k2 - 1 >= n {
            Some(GeomFault::NodeIndex { edge: e as nat, node: (k2 - 1) as nat })
        } else if kp < 1 {
            Some(GeomFault::Message { line: tline(toks, b + 2), msg: "kp must be >= 1"@ })
        } else {
            None
        }
    }
}

/// The first problem among edges `e..m`.
pub open spec fn edges_fault(toks: Seq<(Seq<char>, nat)>, n: int, e: int, m: int) -> Option<GeomFault>
    decreases m - e,
{
    if e >= m {
        None
    } else if edge_fault(toks, n, e) is Some {
        edge_fault(toks, n, e)
    } else {
        edges_fault(toks, n, e + 1, m)
    }
}

/// Edge `e` as it reads, converted to 0-based node indices.
pub open spec fn edge_at(toks: Seq<(Seq<char>, nat)>, n: int, e: int) -> Edge {
    let b = 4 + 2 * n + 3 * e;
    Edge {
        k1: (usize_value(toks[b].0)->Some_0 - 1) as usize,
        k2: (usize_value(toks[b + 1].0)->Some_0 - 1) as usize,
        kp: i32_value(toks[b + 2].0)->Some_0,
    }
}

pub open spec fn nnode_of(toks: Seq<(Seq<char>, nat)>) -> int {
    usize_value(toks[2].0)->Some_0 as int
}

pub open spec fn nele_of(toks: Seq<(Seq<char>, nat)>, n: int) -> int {
    usize_value(toks[3 + 2 * n].0)->Some_0 as int
}

/// The first problem of the whole file, in reading order.
pub open spec fn geometry_fault(toks: Seq<(Seq<char>, nat)>, cls: Seq<FloatClass>) -> Option<GeomFault> {
    if header_fault(toks, cls) is Some {
        header_fault(toks, cls)
    } else {
        let n = nnode_of(toks);
        if nodes_fault(toks, cls, 0, n) is Some {
            nodes_fault(toks, cls, 0, n)
        } else if count_fault(toks, n) is Some {
            count_fault(toks, n)
        } else {
            edges_fault(toks, n, 0, nele_of(toks, n))
        }
    }
}

fn eof_error(line: usize) -> (e: MeshError)
    ensures
        fault_is(e, GeomFault::Eof { line: line as nat }),
{
    parse_error(line, string_of("unexpected end of file"))
}

fn float_error(t: &Token, field: &str) -> (e: MeshError)
    ensures
        fault_is(e, GeomFault::Float { line: t.line as nat, field: field@, text: t.text@ }),
{
    parse_error(t.line, got_msg("expected f64 for ", field, t.text.as_str()))
}

fn message_error(line: usize, msg: &str) -> (e: MeshError)
    ensures
        fault_is(e, GeomFault::Message { line: line as nat, msg: msg@ }),
{
    parse_error(line, string_of(msg))
}

/// Checks `dx dy nnode`; returns the node count.
fn parse_header(toks: &Vec<Token>, cls: &Vec<FloatClass>) -> (r: Result<usize, MeshError>)
    requires
        toks.len() == cls.len(),
    ensures
        ({
            let tv = toks@.map_values(|t: Token| t@);
            match header_fault(tv, cls@) {
                Some(f) => r is Err && fault_is(r->Err_0, f),
                None => r is Ok && r->Ok_0 == nnode_of(tv),
            }
        }),
{
    let ghost tv = toks@.map_values(|t: Token| t@);
    if toks.len() < 1 {
        return Err(eof_error(1));
    }
    if toks.len() < 2 {
        return Err(eof_error(toks[0].line));
    }
    if cls[0] == FloatClass::Unparsable {
        return Err(float_error(&toks[0], "dx"));
    }
    if cls[1] == FloatClass::Unparsable {
        return Err(float_error(&toks[1], "dy"));
    }
    if cls[0] != FloatClass::Positive {
        return Err(message_error(toks[0].line, "dx must be finite and > 0"));
    }
    if cls[1] != FloatClass::Positive {
        return Err(message_error(toks[1].line, "dy must be finite and > 0"));
    }
    if toks.len() < 3 {
        return Err(eof_error(toks[1].line));
    }
    match parse_usize(toks[2].text.as_str(), toks[2].line, "nnode") {
        Ok(n) => Ok(n),
        Err(e) => Err(e),
    }
}

/// Checks node `k`, whose tokens start at `pos = 3 + 2k`.
fn check_node(toks: &Vec<Token>, cls: &Vec<FloatClass>, pos: usize, k: Ghost<int>) -> (r: Option<MeshError>)
    requires
        toks.len() == cls.len(),
        toks.len() >= 3,
        pos == 3 + 2 * k@,
        k@ >= 0,
    ensures
        ({
            let tv = toks@.map_values(|t: Token| t@);
            match node_fault(tv, cls@, k@) {
                Some(f) => r is Some && fault_is(r->Some_0, f),
                None => r is None,
            }
        }),
{
    if toks.len() <= pos {
        return Some(eof_error(toks[2].line));
    }
    if toks.len() <= pos + 1 {
        return Some(eof_error(toks[pos].line));
    }
    if cls[pos] == FloatClass::Unparsable {
        return Some(float_error(&toks[pos], "node x"));
    }
    if cls[pos + 1] == FloatClass::Unparsable {
        return Some(float_error(&toks[pos + 1], "node y"));
    }
    if cls[pos] == FloatClass::NonFinite {
        return Some(message_error(toks[pos].line, "node x coordinate is not finite"));
    }
    if cls[pos + 1] == FloatClass::NonFinite {
        return Some(message_error(toks[pos + 1].line, "node y coordinate is not finite"));
    }
    None
}

/// Checks edge `e`, whose tokens start at `pos = 4 + 2n + 3e`.
fn check_edge(toks: &Vec<Token>, n: usize, pos: usize, e: usize) -> (r: Result<Edge, MeshError>)
    requires
        toks.len() > 3 + 2 * n,
        pos == 4 + 2 * n + 3 * e,
    ensures
        ({
            let tv = toks@.map_values(|t: Token| t@);
            match edge_fault(tv, n as int, e as int) {
                Some(f) => r is Err && fault_is(r->Err_0, f),
                None => r == Ok::<Edge, MeshError>(edge_at(tv, n as int, e as int)),
            }
        }),
{
    let ghost tv = toks@.map_values(|t: Token| t@);
    if toks.len() <= pos {
        return Err(eof_error(toks[3 + 2 * n].line));
    }
    if toks.len() <= pos + 1 {
        return Err(eof_error(toks[pos].line));
    }
    if toks.len() <= pos + 2 {
        return Err(eof_error(toks[pos + 1].line));
    }
    let k1_one = match parse_usize(toks[pos].text.as_str(), toks[pos].line, "k1") {
        Ok(v) => v,
        Err(err) => return Err(err),
    };
    let k2_one = match parse_usize(toks[pos + 1].text.as_str(), toks[pos + 1].line, "k2") {
        Ok(v) => v,
        Err(err) => return Err(err),
    };
    let kp = match parse_i32(toks[pos + 2].text.as_str(), toks[pos + 2].line, "kp") {
        Ok(v) => v,
        Err(err) => return Err(err),
    };
    if k1_one == 0 {
        return Err(MeshError::NodeIndexOutOfRange { edge: e, node: 0 });
    }
    if k2_one == 0 {
        return Err(MeshError::NodeIndexOutOfRange { edge: e, node: 0 });
    }
    let k1 = k1_one - 1;
    let k2 = k2_one - 1;
    if k1 >= n {
        return Err(MeshError::NodeIndexOutOfRange { edge: e, node: k1 });
    }
    if k2 >= n {
        return Err(MeshError::NodeIndexOutOfRange { edge: e, node: k2 });
    }
    if kp < 1 {
        return Err(message_error(toks[pos + 2].line, "kp must be >= 1"));
    }
    Ok(Edge { k1, k2, kp })
}

/// Lays out the geometry tokens.
///
/// Given the tokens of a geometry file (see [`tokenize`]) and how each reads
/// as an `f64`, returns the node count, the tokens of each node's
/// coordinates and the validated 0-based edges — or the first error in
/// reading order, exactly as [`geometry_fault`] describes it.
pub fn parse_geometry_layout(toks: &Vec<Token>, cls: &Vec<FloatClass>) -> (r: Result<
    GeometryLayout,
    MeshError,
>)
    requires
        toks.len() == cls.len(),
    ensures
        ({
            let tv = toks@.map_values(|t: Token| t@);
            match geometry_fault(tv, cls@) {
                Some(f) => r is Err && fault_is(r->Err_0, f),
                None => r is Ok && {
                    let g = r->Ok_0;
                    let n = nnode_of(tv);
                    &&& g.dx_token == 0
                    &&& g.dy_token == 1
                    &&& g.nnode == n
                    &&& g.node_tokens@.len() == n
                    &&& forall|k: int| 0 <= k < n ==> #[trigger] g.node_tokens@[k] == (
                        (3 + 2 * k) as usize,
                        (4 + 2 * k) as usize,
                    )
                    &&& g.edges@.len() == nele_of(tv, n)
                    &&& forall|e: int| 0 <= e < g.edges@.len() ==> #[trigger] g.edges@[e] == edge_at(tv, n, e)
                },
            }
        }),
        r is Ok ==> forall|e: int|
            0 <= e < r->Ok_0.edges@.len() ==> {
                let x = #[trigger] r->Ok_0.edges@[e];
                x.k1 < r->Ok_0.nnode && x.k2 < r->Ok_0.nnode && x.kp >= 1
            },
{
    let ghost tv = toks@.map_values(|t: Token| t@);
    let nnode = match parse_header(toks, cls) {
        Ok(n) => n,
        Err(e) => return Err(e),
    };
    // Nodes.
    let mut node_tokens: Vec<(usize, usize)> = Vec::new();
    let mut pos: usize = 3;
    let mut k: usize = 0;
    while k < nnode
        invariant
            toks.len() == cls.len(),
            toks.len() >= 3,
            tv == toks@.map_values(|t: Token| t@),
            header_fault(tv, cls@) is None,
            nnode == nnode_of(tv),
            k <= nnode,
            pos == 3 + 2 * k,
            pos <= toks.len(),
            nodes_fault(tv, cls@, 0, nnode as int) == nodes_fault(tv, cls@, k as int, nnode as int),
            node_tokens@.len() == k,
            forall|i: int| 0 <= i < k ==> #[trigger] node_tokens@[i] == ((3 + 2 * i) as usize, (4 + 2 * i) as usize),
        decreases nnode - k,
    {
        match check_node(toks, cls, pos, Ghost(k as int)) {
            Some(e) => return Err(e),
            None => {},
        }
        node_tokens.push((pos, pos + 1));
        pos = pos + 2;
        k = k + 1;
    }
    // Edge count.
    if toks.len() <= pos {
        return Err(eof_error(toks[2].line));
    }
    proof {
        assert(tv[pos as int] == toks@[pos as int]@);
    }
    let nele = match parse_usize(toks[pos].text.as_str(), toks[pos].line, "nele") {
        Ok(v) => v,
        Err(e) => return Err(e),
    };
    proof {
        assert(nodes_fault(tv, cls@, nnode as int, nnode as int) is None);
        assert(count_fault(tv, nnode as int) is None);
        assert(nele == nele_of(tv, nnode as int));
    }
    // Edges.
    let mut edges: Vec<Edge> = Vec::new();
    let mut p: usize = pos + 1;
    let mut e: usize = 0;
    while e < nele
        invariant
            toks.len() == cls.len(),
            tv == toks@.map_values(|t: Token| t@),
            toks.len() > 3 + 2 * nnode,
            pos == 3 + 2 * nnode,
            header_fault(tv, cls@) is None,
            nnode == nnode_of(tv),
            nodes_fault(tv, cls@, 0, nnode as int) is None,
            count_fault(tv, nnode as int) is None,
            nele == nele_of(tv, nnode as int),
            e <= nele,
            p == 4 + 2 * nnode + 3 * e,
            p <= toks.len(),
            edges_fault(tv, nnode as int, 0, nele as int) == edges_fault(tv, nnode as int, e as int, nele as int),
            edges@.len() == e,
            forall|i: int| 0 <= i < e ==> #[trigger] edges@[i] == edge_at(tv, nnode as int, i),
            forall|i: int|
                0 <= i < e ==> {
                    let x = #[trigger] edges@[i];
                    x.k1 < nnode && x.k2 < nnode && x.kp >= 1
                },
        decreases nele - e,
    {
        match check_edge(toks, nnode, p, e) {
            Ok(edge) => edges.push(edge),
            Err(err) => return Err(err),
        }
        p = p + 3;
        e = e + 1;
    }
    Ok(GeometryLayout { dx_token: 0, dy_token: 1, nnode, node_tokens, edges })
}

// ---------------------------------------------------------------------------
// Laws of the geometry layout
// ---------------------------------------------------------------------------

proof fn lemma_nodes_fault_none(toks: Seq<(Seq<char>, nat)>, cls: Seq<FloatClass>, k: int, n: int)
    requires
        nodes_fault(toks, cls, k, n) is None,
    ensures
        forall|i: int| k <= i < n ==> #[trigger] node_fault(toks, cls, i) is None,
    decreases n - k,
{
    if k < n {
        lemma_nodes_fault_none(toks, cls, k + 1, n);
    }
}

proof fn lemma_edges_fault_none(toks: Seq<(Seq<char>, nat)>, n: int, e: int, m: int)
    requires
        edges_fault(toks, n, e, m) is None,
    ensures
        forall|i: int| e <= i < m ==> #[trigger] edge_fault(toks, n, i) is None,
    decreases m - e,
{
    if e < m {
        lemma_edges_fault_none(toks, n, e + 1, m);
    }
}

/// The token reads as a finite number.
pub open spec fn finite_class(c: FloatClass) -> bool {
    c == FloatClass::NonPositive || c == FloatClass::Positive
}

/// Node `k`'s two coordinate tokens exist and read as finite numbers.
pub open spec fn node_reads(toks: Seq<(Seq<char>, nat)>, cls: Seq<FloatClass>, k: int) -> bool {
    4 + 2 * k < toks.len() && finite_class(cls[3 + 2 * k]) && finite_class(cls[4 + 2 * k])
}

/// Edge `e`'s three tokens exist and read as the 1-based node numbers and
/// the tag of [`edge_at`], which names two of the `n` nodes and has a tag of
/// at least 1.
pub open spec fn edge_reads(toks: Seq<(Seq<char>, nat)>, n: int, e: int) -> bool {
    let b = 4 + 2 * n + 3 * e;
    let x = edge_at(toks, n, e);
    &&& b + 2 < toks.len()
    &&& usize_value(toks[b].0) == Some((x.k1 + 1) as usize)
    &&& usize_value(toks[b + 1].0) == Some((x.k2 + 1) as usize)
    &&& i32_value(toks[b + 2].0) == Some(x.kp)
    &&& x.k1 < n && x.k2 < n && x.kp >= 1
}

/// A geometry file that reads without a problem has `dx` and `dy` finite
/// and greater than 0, `nnode` nodes whose coordinates are finite numbers,
/// and `nele` edges, each of which is the values of its three tokens
/// (`k1`, `k2` 1-based, converted to 0-based), names two of the nodes, and
/// has a tag of at least 1.
pub proof fn lemma_geometry_ok_facts(toks: Seq<(Seq<char>, nat)>, cls: Seq<FloatClass>)
    requires
        toks.len() == cls.len(),
        geometry_fault(toks, cls) is None,
    ensures
        cls[0] == FloatClass::Positive && cls[1] == FloatClass::Positive,
        usize_value(toks[2].0) == Some(nnode_of(toks) as usize),
        forall|k: int| 0 <= k < nnode_of(toks) ==> #[trigger] node_reads(toks, cls, k),
        3 + 2 * nnode_of(toks) < toks.len(),
        usize_value(toks[3 + 2 * nnode_of(toks)].0) == Some(nele_of(toks, nnode_of(toks)) as usize),
        forall|e: int|
            0 <= e < nele_of(toks, nnode_of(toks)) ==> #[trigger] edge_reads(toks, nnode_of(toks), e),
{
    let n = nnode_of(toks);
    assert(header_fault(toks, cls) is None);
    lemma_nodes_fault_none(toks, cls, 0, n);
    assert forall|k: int| 0 <= k < n implies #[trigger] node_reads(toks, cls, k) by {
        assert(node_fault(toks, cls, k) is None);
    }
    assert(count_fault(toks, n) is None);
    let m = nele_of(toks, n);
    lemma_edges_fault_none(toks, n, 0, m);
    assert forall|e: int| 0 <= e < m implies #[trigger] edge_reads(toks, n, e) by {
        assert(edge_fault(toks, n, e) is None);
    }
}

/// The two token sequences have the same texts, token by token (their
/// line numbers may differ).
pub open spec fn same_texts(a: Seq<(Seq<char>, nat)>, b: Seq<(Seq<char>, nat)>) -> bool {
    a.len() == b.len() && forall|i: int| 0 <= i < a.len() ==> #[trigger] a[i].0 == b[i].0
}

/// The problem with its line number left out.
pub open spec fn fault_shape(o: Option<GeomFault>) -> Option<GeomFault> {
    match o {
        Some(GeomFault::Eof { .. }) => Some(GeomFault::Eof { line: 0 }),
        Some(GeomFault::Float { field, text, .. }) => Some(GeomFault::Float { line: 0, field, text }),
        Some(GeomFault::Unsigned { field, text, .. }) => Some(GeomFault::Unsigned { line: 0, field, text }),
        Some(GeomFault::Signed { field, text, .. }) => Some(GeomFault::Signed { line: 0, field, text }),
        Some(GeomFault::Message { msg, .. }) => Some(GeomFault::Message { line: 0, msg }),
        Some(GeomFault::NodeIndex { edge, node }) => Some(GeomFault::NodeIndex { edge, node }),
        None => None,
    }
}

proof fn lemma_nodes_fault_shape(
    t1: Seq<(Seq<char>, nat)>,
    t2: Seq<(Seq<char>, nat)>,
    cls: Seq<FloatClass>,
    k: int,
    n: int,
)
    requires
        same_texts(t1, t2),
        0 <= k,
    ensures
        fault_shape(nodes_fault(t1, cls, k, n)) == fault_shape(nodes_fault(t2, cls, k, n)),
    decreases n - k,
{
    if k < n {
        let x = 3 + 2 * k;
        if x < t1.len() {
            assert(t1[x].0 == t2[x].0);
        }
        if x + 1 < t1.len() {
            assert(t1[x + 1].0 == t2[x + 1].0);
        }
        assert(fault_shape(node_fault(t1, cls, k)) == fault_shape(node_fault(t2, cls, k)));
        lemma_nodes_fault_shape(t1, t2, cls, k + 1, n);
    }
}

proof fn lemma_edges_fault_shape(t1: Seq<(Seq<char>, nat)>, t2: Seq<(Seq<char>, nat)>, n: int, e: int, m: int)
    requires
        same_texts(t1, t2),
        0 <= n,
        0 <= e,
    ensures
        fault_shape(edges_fault(t1, n, e, m)) == fault_shape(edges_fault(t2, n, e, m)),
        edges_fault(t1, n, e, m) is None ==> forall|i: int|
            e <= i < m ==> #[trigger] edge_at(t1, n, i) == edge_at(t2, n, i),
    decreases m - e,
{
    if e < m {
        let b = 4 + 2 * n + 3 * e;
        if 0 <= b < t1.len() {
            assert(t1[b].0 == t2[b].0);
        }
        if 0 <= b + 1 < t1.len() {
            assert(t1[b + 1].0 == t2[b + 1].0);
        }
        if 0 <= b + 2 < t1.len() {
            assert(t1[b + 2].0 == t2[b + 2].0);
        }
        assert(fault_shape(edge_fault(t1, n, e)) == fault_shape(edge_fault(t2, n, e)));
        lemma_edges_fault_shape(t1, t2, n, e + 1, m);
        if edges_fault(t1, n, e, m) is None {
            assert(edge_fault(t1, n, e) is None);
            assert(edge_at(t1, n, e) == edge_at(t2, n, e));
        }
    }
}

/// Reading depends on the token texts only: two geometry files with the
/// same tokens (blank lines, spaces and line breaks between tokens may
/// differ) give the same first problem up to its line number, and when
/// neither has a problem, the same node count, edge count and edges.
pub proof fn lemma_layout_ignores_lines(t1: Seq<(Seq<char>, nat)>, t2: Seq<(Seq<char>, nat)>, cls: Seq<FloatClass>)
    requires
        same_texts(t1, t2),
    ensures
        fault_shape(geometry_fault(t1, cls)) == fault_shape(geometry_fault(t2, cls)),
        geometry_fault(t1, cls) is None ==> {
            let n = nnode_of(t1);
            &&& nnode_of(t2) == n
            &&& nele_of(t2, n) == nele_of(t1, n)
            &&& forall|e: int| 0 <= e < nele_of(t1, n) ==> #[trigger] edge_at(t1, n, e) == edge_at(t2, n, e)
        },
{
    if t1.len() > 0 {
        assert(t1[0].0 == t2[0].0);
    }
    if t1.len() > 1 {
        assert(t1[1].0 == t2[1].0);
    }
    if t1.len() > 2 {
        assert(t1[2].0 == t2[2].0);
    }
    assert(fault_shape(header_fault(t1, cls)) == fault_shape(header_fault(t2, cls)));
    if header_fault(t1, cls) is None {
        let n = nnode_of(t1);
        assert(nnode_of(t2) == n);
        lemma_nodes_fault_shape(t1, t2, cls, 0, n);
        let p = 3 + 2 * n;
        if p < t1.len() {
            assert(t1[p].0 == t2[p].0);
        }
        assert(fault_shape(count_fault(t1, n)) == fault_shape(count_fault(t2, n)));
        if nodes_fault(t1, cls, 0, n) is None && count_fault(t1, n) is None {
            assert(nele_of(t2, n) == nele_of(t1, n));
            lemma_edges_fault_shape(t1, t2, n, 0, nele_of(t1, n));
        }
    }
}

// ---------------------------------------------------------------------------
// Laws of the tokenizer
// ---------------------------------------------------------------------------

/// The characters of `s` that are not whitespace, in order.
pub open spec fn without_whitespace(s: Seq<char>) -> Seq<char>
    decreases s.len(),
{
    if s.len() == 0 {
        seq![]
    } else if is_whitespace(s.last()) {
        without_whitespace(s.drop_last())
    } else {
        without_whitespace(s.drop_last()).push(s.last())
    }
}

/// The number of places where a run of non-whitespace characters starts in
/// `s`: a non-whitespace character at the start or after whitespace.
pub open spec fn run_starts(s: Seq<char>) -> nat
    decreases s.len(),
{
    if s.len() == 0 {
        0
    } else {
        run_starts(s.drop_last()) + if !is_whitespace(s.last()) && (s.len() == 1 || is_whitespace(
            s[s.len() - 2],
        )) {
            1nat
        } else {
            0nat
        }
    }
}

/// The texts of the tokens, joined.
pub open spec fn joined_texts(t: Seq<(Seq<char>, nat)>) -> Seq<char>
    decreases t.len(),
{
    if t.len() == 0 {
        seq![]
    } else {
        joined_texts(t.drop_last()) + t.last().0
    }
}

/// Every token is a non-empty run of non-whitespace characters.
pub open spec fn solid_tokens(t: Seq<(Seq<char>, nat)>) -> bool {
    forall|k: int|
        0 <= k < t.len() ==> (#[trigger] t[k]).0.len() > 0 && forall|i: int|
            0 <= i < t[k].0.len() ==> !is_whitespace(#[trigger] t[k].0[i])
}

proof fn lemma_tok_run_text(s: Seq<char>)
    ensures
        ({
            let st = tok_run(s);
            &&& joined_texts(st.done) + st.cur == without_whitespace(s)
            &&& solid_tokens(st.done)
            &&& forall|i: int| 0 <= i < st.cur.len() ==> !is_whitespace(#[trigger] st.cur[i])
            &&& (st.cur.len() > 0 <==> s.len() > 0 && !is_whitespace(s.last()))
            &&& st.done.len() + (if st.cur.len() > 0 {
                1nat
            } else {
                0nat
            }) == run_starts(s)
        }),
    decreases s.len(),
{
    if s.len() > 0 {
        let p = s.drop_last();
        lemma_tok_run_text(p);
        let prev = tok_run(p);
        let st = tok_run(s);
        let c = s.last();
        if p.len() > 0 {
            assert(s[s.len() - 2] == p.last());
        }
        if is_whitespace(c) {
            if prev.cur.len() > 0 {
                let d = prev.done.push((prev.cur, prev.cur_line));
                assert(d.drop_last() == prev.done);
                assert(joined_texts(d) == joined_texts(prev.done) + prev.cur);
                assert(joined_texts(st.done) + st.cur =~= joined_texts(prev.done) + prev.cur);
                assert forall|k: int| 0 <= k < d.len() implies (#[trigger] d[k]).0.len() > 0 && forall|i: int|
                    0 <= i < d[k].0.len() ==> !is_whitespace(#[trigger] d[k].0[i]) by {
                    if k < prev.done.len() {
                        assert(d[k] == prev.done[k]);
                    }
                }
            } else {
                assert(joined_texts(st.done) + st.cur =~= joined_texts(prev.done) + prev.cur);
            }
        } else {
            assert(joined_texts(st.done) + st.cur =~= (joined_texts(prev.done) + prev.cur).push(c));
            assert forall|i: int| 0 <= i < st.cur.len() implies !is_whitespace(#[trigger] st.cur[i]) by {
                if i < prev.cur.len() {
                    assert(st.cur[i] == prev.cur[i]);
                }
            }
        }
    }
}

/// The tokens of a text are exactly its maximal runs of non-whitespace
/// characters, in order: each token is a non-empty run of non-whitespace
/// characters, their texts joined give the text with its whitespace taken
/// out, and there is one token per place where such a run starts.
pub proof fn lemma_tokens_are_runs(s: Seq<char>)
    ensures
        solid_tokens(tokens_of(s)),
        joined_texts(tokens_of(s)) == without_whitespace(s),
        tokens_of(s).len() == run_starts(s),
{
    lemma_tok_run_text(s);
    let st = tok_run(s);
    if st.cur.len() > 0 {
        let d = st.done.push((st.cur, st.cur_line));
        assert(d.drop_last() == st.done);
        assert forall|k: int| 0 <= k < d.len() implies (#[trigger] d[k]).0.len() > 0 && forall|i: int|
            0 <= i < d[k].0.len() ==> !is_whitespace(#[trigger] d[k].0[i]) by {
            if k < st.done.len() {
                assert(d[k] == st.done[k]);
            }
        }
    } else {
        assert(joined_texts(st.done) + st.cur =~= joined_texts(st.done));
    }
}

/// A final line break changes nothing: a text and the same text followed by
/// `\n` have the same tokens, so the last line counts whether or not it
/// ends in a line break.
pub proof fn lemma_tokens_final_newline(s: Seq<char>)
    ensures
        tokens_of(s.push('\n')) == tokens_of(s),
{
    let t = s.push('\n');
    assert(t.drop_last() == s);
    assert(is_whitespace('\n'));
}

/// The tokens with every line number one higher.
pub open spec fn next_line(t: Seq<(Seq<char>, nat)>) -> Seq<(Seq<char>, nat)> {
    t.map_values(|x: (Seq<char>, nat)| (x.0, x.1 + 1))
}

proof fn lemma_tok_run_blank_prefix(w: char, s: Seq<char>)
    requires
        is_whitespace(w),
        w != '\n',
    ensures
        tok_run(seq![w] + s) == tok_run(s),
    decreases s.len(),
{
    let t = seq![w] + s;
    if s.len() == 0 {
        assert(t.drop_last() =~= Seq::<char>::empty());
        assert(t.last() == w);
        let e = tok_run(t.drop_last());
        assert(e == tok_run(Seq::<char>::empty()));
        assert(tok_run(t).done == e.done);
        assert(tok_run(t).cur =~= tok_run(s).cur);
        assert(s =~= Seq::<char>::empty());
    } else {
        lemma_tok_run_blank_prefix(w, s.drop_last());
        assert(t.drop_last() =~= seq![w] + s.drop_last());
        assert(t.last() == s.last());
        assert(tok_run(t.drop_last()) == tok_run(s.drop_last()));
    }
}

proof fn lemma_tok_run_newline_prefix(s: Seq<char>)
    ensures
        ({
            let a = tok_run(seq!['\n'] + s);
            let b = tok_run(s);
            &&& a.done == next_line(b.done)
            &&& a.cur == b.cur
            &&& a.line == b.line + 1
            &&& b.cur.len() > 0 ==> a.cur_line == b.cur_line + 1
        }),
    decreases s.len(),
{
    let t = seq!['\n'] + s;
    if s.len() == 0 {
        assert(t.drop_last() =~= Seq::<char>::empty());
        assert(t.last() == '\n');
        assert(is_whitespace('\n'));
        assert(s =~= Seq::<char>::empty());
        let e = tok_run(t.drop_last());
        assert(e == tok_run(Seq::<char>::empty()));
        assert(tok_run(t).line == 2);
        assert(tok_run(t).cur.len() == 0);
        assert(tok_run(t).cur =~= tok_run(s).cur);
        assert(next_line(Seq::<(Seq<char>, nat)>::empty()) =~= Seq::<(Seq<char>, nat)>::empty());
        assert(tok_run(t).done =~= next_line(tok_run(s).done));
    } else {
        lemma_tok_run_newline_prefix(s.drop_last());
        assert(t.drop_last() =~= seq!['\n'] + s.drop_last());
        assert(t.last() == s.last());
        let pa = tok_run(t.drop_last());
        let pb = tok_run(s.drop_last());
        assert(pa.done == next_line(pb.done));
        if is_whitespace(s.last()) && pb.cur.len() > 0 {
            assert(next_line(pb.done.push((pb.cur, pb.cur_line))) =~= next_line(pb.done).push(
                (pb.cur, pb.cur_line + 1),
            ));
        }
        assert(tok_run(t).done =~= next_line(tok_run(s).done));
        assert(tok_run(t).cur =~= tok_run(s).cur);
    }
}

/// Line numbers count line breaks: putting a blank other than a line break
/// before a text leaves its tokens as they are, and putting a line break
/// before it moves every token one line down.
pub proof fn lemma_token_lines(w: char, s: Seq<char>)
    requires
        is_whitespace(w),
        w != '\n',
    ensures
        tokens_of(seq![w] + s) == tokens_of(s),
        tokens_of(seq!['\n'] + s) == next_line(tokens_of(s)),
{
    lemma_tok_run_blank_prefix(w, s);
    lemma_tok_run_newline_prefix(s);
    let b = tok_run(s);
    if b.cur.len() > 0 {
        assert(next_line(b.done.push((b.cur, b.cur_line))) =~= next_line(b.done).push((b.cur, b.cur_line + 1)));
    }
}

} // verus!
