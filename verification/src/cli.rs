use vstd::prelude::*;

use crate::ast::{funcs_v, Program};
use crate::check::{check_program, program_outcome, Outcome, Verdict};
use crate::error::{CompileError, ErrorV};
use crate::lexer::{lex, positions_fit, tokenize};
use crate::lines::{line_at, nth_line_chars};
use crate::parser::parse_file;
use crate::text::{chars_of, decimal_string, decimal_text, string_from_chars};

verus! {

// ---------------------------------------------------------------------------
// The command-line front end: checking a single source text, naming the
// output binary, and the error report printed to the terminal.

/// What checking a single source text (file id 0) gives: the lexer's or the
/// parser's error, or else what the code generator makes of its functions.
pub open spec fn check_source(src: Seq<char>) -> Result<Verdict, ErrorV> {
    match lex(src, 0) {
        Err(e) => Err(e),
        Ok(toks) => match parse_file(toks) {
            Err(e) => Err(e),
            Ok(pf) => match program_outcome(pf.funcs) {
                Outcome::Go(false) => Ok(Verdict::Lowered),
                Outcome::Go(true) => Ok(Verdict::MixedWidths),
                Outcome::Abort => Ok(Verdict::Unlowerable),
                Outcome::Fail(e) => Err(e),
            },
        },
    }
}

/// Type-checks a source text without producing a binary.
pub fn run_check(src: &str) -> (r: Result<Verdict, CompileError>)
    requires
        positions_fit(src@),
    ensures
        match r {
            Ok(v) => check_source(src@) == Ok::<Verdict, ErrorV>(v),
            Err(e) => check_source(src@) == Err::<Verdict, ErrorV>(e@),
        },
{
    let tokens = tokenize(src, 0)?;
    let parsed = crate::parser::parse(tokens)?;
    let program = Program { funcs: parsed.funcs };
    assert(funcs_v(program.funcs@) == parsed@.funcs);
    check_program(&program)
}

/// The index of the last `c` in `s`, if there is one.
pub open spec fn last_index_of(s: Seq<char>, c: char) -> Option<int>
    decreases s.len(),
{
    if s.len() == 0 {
        None
    } else if s.last() == c {
        Some(s.len() - 1)
    } else {
        last_index_of(s.drop_last(), c)
    }
}

/// The text after the last `/` of a path (all of it where there is none).
pub open spec fn last_segment(p: Seq<char>) -> Seq<char> {
    match last_index_of(p, '/') {
        Some(i) => p.subrange(i + 1, p.len() as int),
        None => p,
    }
}

/// Whether `p` contains `w` as a contiguous part.
pub open spec fn has_part(p: Seq<char>, w: Seq<char>) -> bool {
    exists|i: int| 0 <= i && i + w.len() <= p.len() && #[trigger] p.subrange(i, i + w.len()) == w
}

/// A path that every platform's path rules read the same way: `/` is its
/// only separator, it has no drive or network prefix, no empty or `.`
/// segment, and it ends in a file name.
pub open spec fn plain_path(p: Seq<char>) -> bool {
    &&& !p.contains('\\')
    &&& !p.contains(':')
    &&& !has_part(p, "//"@)
    &&& !has_part(p, "/./"@)
    &&& last_segment(p).len() > 0
    &&& last_segment(p) != "."@
    &&& last_segment(p) != ".."@
}

/// Where the stem of a file name ends: before its last `.`, except where
/// there is none or the only one starts the name (then the whole name).
pub open spec fn stem_end(name: Seq<char>) -> int {
    match last_index_of(name, '.') {
        Some(d) => if d == 0 {
            name.len() as int
        } else {
            d
        },
        None => name.len() as int,
    }
}

/// A path with its extension stripped: cut just after the stem of its file
/// name, keeping the directory.
pub open spec fn strip_ext(p: Seq<char>) -> Seq<char> {
    p.subrange(0, p.len() - last_segment(p).len() + stem_end(last_segment(p)))
}

/// The path without its extension, made by `std::path::PathBuf::set_extension`
/// with an empty extension; the flag is what that returns (false where the
/// path has no file name). Claimed, from its documentation: without a file
/// name the path is left as it was; for a plain path (one every platform
/// reads alike) the file name is the last segment and the result is the
/// path cut just after the name's stem. Left unsaid: the result for other
/// paths, where the platform's path rules decide it.
#[verifier::external_body]
fn strip_extension(path: &str) -> (r: (bool, String))
    ensures
        !r.0 ==> r.1@ == path@,
        plain_path(path@) ==> r.0 && r.1@ == strip_ext(path@),
{
    let mut p = std::path::PathBuf::from(path);
    let changed = p.set_extension("");
    (changed, p.to_string_lossy().into_owned())
}

/// The binary a build writes when no output is named: the input with its
/// extension stripped, or `a.out` where the input names no file.
pub fn output_name(has_file_name: bool, stripped: String) -> (r: String)
    ensures
        r@ == (if has_file_name { stripped@ } else { "a.out"@ }),
{
    if has_file_name {
        stripped
    } else {
        String::from_str("a.out")
    }
}

/// The default output path of a build of `input`: the input with its
/// extension stripped (`examples/hello.beer` gives `examples/hello`), or
/// `a.out` where the input names no file.
pub fn default_output(input: &str) -> (r: String)
    ensures
        plain_path(input@) ==> r@ == strip_ext(input@),
{
    let (has_file_name, stripped) = strip_extension(input);
    output_name(has_file_name, stripped)
}

/// The terminal codes of the report, or nothing without colour.
pub open spec fn paint(color: bool, code: Seq<char>) -> Seq<char> {
    if color {
        code
    } else {
        Seq::empty()
    }
}

pub open spec fn red_code() -> Seq<char> {
    "\x1b[31;1m"@
}

pub open spec fn bold_code() -> Seq<char> {
    "\x1b[1m"@
}

pub open spec fn cyan_code() -> Seq<char> {
    "\x1b[36;1m"@
}

pub open spec fn reset_code() -> Seq<char> {
    "\x1b[0m"@
}

/// `n` spaces.
pub open spec fn spaces(n: nat) -> Seq<char> {
    Seq::new(n, |i: int| ' ')
}

/// The gutter of an excerpt line: indentation, room for the line number,
/// and the bar.
pub open spec fn gutter(pad: nat, color: bool) -> Seq<char> {
    "  "@ + spaces(pad) + paint(color, cyan_code()) + "|"@ + paint(color, reset_code())
}

/// The numbered source line of an excerpt.
pub open spec fn numbered(num: Seq<char>, text: Seq<char>, color: bool) -> Seq<char> {
    "  "@ + paint(color, cyan_code()) + num + " |"@ + paint(color, reset_code()) + " "@ + text
}

/// The line that puts a caret under column `caret_at` (counted from 0).
pub open spec fn caret_line(pad: nat, caret_at: nat, color: bool) -> Seq<char> {
    gutter(pad, color) + " "@ + spaces(caret_at) + paint(color, red_code()) + "^"@ + paint(color, reset_code())
}

/// The lines that show where an error is: the source line with its number
/// and a caret under the column (nothing where the file has no such line).
pub open spec fn excerpt(src: Seq<char>, line: u32, col: u32, color: bool) -> Seq<char> {
    match line_at(src, 0, (line - 1) as nat, '\n', '\r') {
        None => Seq::empty(),
        Some(text) => {
            let num = decimal_text(line as nat);
            let caret_at: nat = if col >= 1 { (col - 1) as nat } else { 0 };
            gutter(num.len(), color) + "\n"@ + numbered(num, text, color) + "\n"@
                + caret_line(num.len(), caret_at, color) + "\n"@
        },
    }
}

/// The first line of a report: the message.
pub open spec fn headline(msg: Seq<char>, color: bool) -> Seq<char> {
    paint(color, red_code()) + "error"@ + paint(color, reset_code()) + paint(color, bold_code()) + ": "@ + msg
        + paint(color, reset_code()) + "\n"@
}

/// The line that names the file and position of an error.
pub open spec fn place_line(path: Seq<char>, line: u32, col: u32, color: bool) -> Seq<char> {
    " "@ + paint(color, cyan_code()) + "-->"@ + paint(color, reset_code()) + " "@ + path + ":"@
        + decimal_text(line as nat) + ":"@ + decimal_text(col as nat) + "\n"@
}

/// The report of `err` for the file `path` with source `src`: the message,
/// and where the error has a position, the place and the excerpt.
pub open spec fn report_text(path: Seq<char>, src: Seq<char>, err: ErrorV, color: bool) -> Seq<char> {
    match err.span {
        None => headline(err.msg, color),
        Some(s) => headline(err.msg, color) + place_line(path, s.line, s.col, color) + excerpt(src, s.line, s.col, color),
    }
}

fn push_code(out: &mut String, color: bool, code: &str)
    ensures
        final(out)@ == old(out)@ + paint(color, code@),
{
    if color {
        out.append(code);
    } else {
        assert(old(out)@ + paint(color, code@) =~= old(out)@);
    }
}

fn push_spaces(out: &mut String, n: usize)
    ensures
        final(out)@ == old(out)@ + spaces(n as nat),
{
    let mut v: Vec<char> = Vec::new();
    let mut i: usize = 0;
    while i < n
        invariant
            i <= n,
            v@ == spaces(i as nat),
        decreases n - i,
    {
        v.push(' ');
        i = i + 1;
        assert(v@ =~= spaces(i as nat));
    }
    let s = string_from_chars(&v);
    out.append(s.as_str());
}

fn chars_between(v: &Vec<char>, a: usize, b: usize) -> (s: String)
    requires
        a <= b <= v@.len(),
    ensures
        s@ == v@.subrange(a as int, b as int),
{
    let mut w: Vec<char> = Vec::new();
    let mut i: usize = a;
    while i < b
        invariant
            a <= i <= b,
            b <= v@.len(),
            w@ == v@.subrange(a as int, i as int),
        decreases b - i,
    {
        w.push(v[i]);
        i = i + 1;
        assert(w@ =~= v@.subrange(a as int, i as int));
    }
    string_from_chars(&w)
}

fn gutter_string(pad: usize, color: bool) -> (r: String)
    ensures
        r@ == gutter(pad as nat, color),
{
    let mut out = String::from_str("  ");
    push_spaces(&mut out, pad);
    push_code(&mut out, color, "\x1b[36;1m");
    out.append("|");
    push_code(&mut out, color, "\x1b[0m");
    out
}

fn numbered_string(num: &str, text: &str, color: bool) -> (r: String)
    ensures
        r@ == numbered(num@, text@, color),
{
    let mut out = String::from_str("  ");
    push_code(&mut out, color, "\x1b[36;1m");
    out.append(num);
    out.append(" |");
    push_code(&mut out, color, "\x1b[0m");
    out.append(" ");
    out.append(text);
    out
}

fn caret_string(pad: usize, caret_at: usize, color: bool) -> (r: String)
    ensures
        r@ == caret_line(pad as nat, caret_at as nat, color),
{
    let mut out = gutter_string(pad, color);
    out.append(" ");
    push_spaces(&mut out, caret_at);
    push_code(&mut out, color, "\x1b[31;1m");
    out.append("^");
    push_code(&mut out, color, "\x1b[0m");
    out
}

fn excerpt_string(src: &str, line: u32, col: u32, color: bool) -> (r: String)
    requires
        line >= 1,
    ensures
        r@ == excerpt(src@, line, col, color),
{
    let chars = chars_of(src);
    match nth_line_chars(&chars, (line - 1) as usize) {
        None => String::new(),
        Some((a, b)) => {
            let text = chars_between(&chars, a, b);
            let num = decimal_string(line as u64);
            let pad = num.as_str().unicode_len();
            let caret_at: u32 = if col >= 1 { col - 1 } else { 0 };
            let mut out = gutter_string(pad, color);
            out.append("\n");
            let l2 = numbered_string(num.as_str(), text.as_str(), color);
            out.append(l2.as_str());
            out.append("\n");
            let l3 = caret_string(pad, caret_at as usize, color);
            out.append(l3.as_str());
            out.append("\n");
            out
        },
    }
}

fn headline_string(msg: &str, color: bool) -> (r: String)
    ensures
        r@ == headline(msg@, color),
{
    let mut out = String::new();
    push_code(&mut out, color, "\x1b[31;1m");
    out.append("error");
    push_code(&mut out, color, "\x1b[0m");
    push_code(&mut out, color, "\x1b[1m");
    out.append(": ");
    out.append(msg);
    push_code(&mut out, color, "\x1b[0m");
    out.append("\n");
    assert(out@ =~= headline(msg@, color));
    out
}

fn place_string(path: &str, line: u32, col: u32, color: bool) -> (r: String)
    ensures
        r@ == place_line(path@, line, col, color),
{
    let mut out = String::from_str(" ");
    push_code(&mut out, color, "\x1b[36;1m");
    out.append("-->");
    push_code(&mut out, color, "\x1b[0m");
    out.append(" ");
    out.append(path);
    out.append(":");
    let ln = decimal_string(line as u64);
    out.append(ln.as_str());
    out.append(":");
    let cn = decimal_string(col as u64);
    out.append(cn.as_str());
    out.append("\n");
    out
}

/// The report of an error, as the terminal shows it (`color` chooses
/// whether terminal colour codes are written).
pub fn error_report(path: &str, src: &str, err: &CompileError, color: bool) -> (r: String)
    requires
        err.span matches Some(s) ==> s.line >= 1,
    ensures
        r@ == report_text(path@, src@, err@, color),
{
    let mut out = headline_string(err.msg.as_str(), color);
    match err.span {
        None => {},
        Some(s) => {
            let place = place_string(path, s.line, s.col, color);
            out.append(place.as_str());
            let ex = excerpt_string(src, s.line, s.col, color);
            out.append(ex.as_str());
        },
    }
    out
}

} // verus!
