use vstd::prelude::*;

use crate::ast::{funcs_v, params_v, Func, FuncV, Program, Type};
use crate::error::CompileError;
use crate::source::FileTable;
use crate::span::Span;
use crate::strmap::StrMap;
use crate::lines::{line_at, nth_line_bytes};
use crate::text::{chars_eq_str, chars_of, string_from_chars};
use vstd::string::StringSliceAdditionalSpecFns;
use vstd::utf8::encode_utf8;

verus! {

// ---------------------------------------------------------------------------
// The word under the cursor.

/// An identifier byte: ASCII letter, digit or `_`.
pub open spec fn is_id_byte(b: u8) -> bool {
    (48 <= b <= 57) || (65 <= b <= 90) || (97 <= b <= 122) || b == 95
}

/// The start of the run of identifier bytes that ends just before `p`.
pub open spec fn run_start(l: Seq<u8>, p: int) -> int
    decreases p,
{
    if 0 < p <= l.len() && is_id_byte(l[p - 1]) {
        run_start(l, p - 1)
    } else {
        p
    }
}

/// The end of the run of identifier bytes that starts at `p`.
pub open spec fn run_end(l: Seq<u8>, p: int) -> int
    decreases l.len() - p,
{
    if 0 <= p < l.len() && is_id_byte(l[p]) {
        run_end(l, p + 1)
    } else {
        p
    }
}

/// The identifier in a line at byte column `col`. The cursor may sit on
/// the word or just after it: the byte looked at is the one at `col`, or,
/// where that is no identifier byte, the one before it.
pub open spec fn word_in_line(l: Seq<u8>, col: int) -> Option<Seq<u8>> {
    if col < 0 || col > l.len() {
        None
    } else if col < l.len() && is_id_byte(l[col]) {
        Some(l.subrange(run_start(l, col), run_end(l, col)))
    } else if col >= 1 && is_id_byte(l[col - 1]) {
        Some(l.subrange(run_start(l, col - 1), run_end(l, col - 1)))
    } else {
        None
    }
}

pub open spec fn ascii_chars(b: Seq<u8>) -> Seq<char> {
    b.map_values(|x: u8| x as char)
}

/// The identifier at (0-based) `line` and byte column `col` of a text
/// given by its bytes.
pub open spec fn word_at_spec(text: Seq<u8>, line: nat, col: int) -> Option<Seq<char>> {
    match line_at(text, 0, line, 10u8, 13u8) {
        None => None,
        Some(l) => match word_in_line(l, col) {
            None => None,
            Some(w) => Some(ascii_chars(w)),
        },
    }
}

fn is_id_byte_x(b: u8) -> (r: bool)
    ensures
        r == is_id_byte(b),
{
    (48 <= b && b <= 57) || (65 <= b && b <= 90) || (97 <= b && b <= 122) || b == 95
}

/// The identifier under the cursor at (0-based) `line` and byte column
/// `col`, if there is one.
pub fn word_at(text: &str, line: usize, col: usize) -> (r: Option<String>)
    ensures
        match r {
            Some(w) => word_at_spec(text.spec_bytes(), line as nat, col as int) == Some(w@),
            None => word_at_spec(text.spec_bytes(), line as nat, col as int) is None,
        },
{
    let bytes = text.as_bytes();
    let (a, b) = match nth_line_bytes(bytes, line) {
        Some(r) => r,
        None => {
            return None;
        },
    };
    let ghost l = bytes@.subrange(a as int, b as int);
    let n = b - a;
    if col > n {
        return None;
    }
    let probe = if col < n && is_id_byte_x(bytes[a + col]) {
        col
    } else if col >= 1 && is_id_byte_x(bytes[a + col - 1]) {
        col - 1
    } else {
        return None;
    };
    let mut start = probe;
    while start > 0 && is_id_byte_x(bytes[a + start - 1])
        invariant
            start <= probe < n,
            l == bytes@.subrange(a as int, b as int),
            b <= bytes@.len(),
            n == b - a,
            run_start(l, probe as int) == run_start(l, start as int),
        decreases start,
    {
        start = start - 1;
    }
    let mut end = probe;
    while end < n && is_id_byte_x(bytes[a + end])
        invariant
            probe <= end <= n,
            l == bytes@.subrange(a as int, b as int),
            b <= bytes@.len(),
            n == b - a,
            run_end(l, probe as int) == run_end(l, end as int),
        decreases n - end,
    {
        end = end + 1;
    }
    let mut w: Vec<char> = Vec::new();
    let mut i = start;
    while i < end
        invariant
            start <= i <= end <= n,
            l == bytes@.subrange(a as int, b as int),
            b <= bytes@.len(),
            n == b - a,
            w@ == ascii_chars(l.subrange(start as int, i as int)),
        decreases end - i,
    {
        w.push(bytes[a + i] as char);
        i = i + 1;
        assert(w@ =~= ascii_chars(l.subrange(start as int, i as int)));
    }
    Some(string_from_chars(&w))
}

// ---------------------------------------------------------------------------
// Hover and signatures.

/// Whether the text of `s` is exactly `lit`.
pub fn str_is(s: &str, lit: &str) -> (b: bool)
    ensures
        b == (s@ == lit@),
{
    let v = chars_of(s);
    chars_eq_str(&v, lit)
}

/// The hover text of a keyword, built-in or type name.
pub open spec fn keyword_doc(w: Seq<char>) -> Option<Seq<char>> {
    if w == "let"@ {
        Some("let — declare a (mutable) variable"@)
    } else if w == "fn"@ {
        Some("fn — declare a function"@)
    } else if w == "if"@ {
        Some("if — conditional branch"@)
    } else if w == "else"@ {
        Some("else — alternate branch of an `if`"@)
    } else if w == "while"@ {
        Some("while — loop while a condition holds"@)
    } else if w == "return"@ {
        Some("return — return a value from the enclosing function"@)
    } else if w == "true"@ || w == "false"@ {
        Some("bool literal"@)
    } else if w == "as"@ {
        Some("as — cast between int and float"@)
    } else if w == "use"@ {
        Some("use \"path.beer\" — import another file"@)
    } else if w == "print"@ {
        Some("print(x) — built-in, prints an int / float / str / bool"@)
    } else if w == "int"@ {
        Some("int — 64-bit signed integer"@)
    } else if w == "float"@ {
        Some("float — 64-bit floating-point number"@)
    } else if w == "bool"@ {
        Some("bool — true / false"@)
    } else if w == "str"@ {
        Some("str — null-terminated string (C-string)"@)
    } else {
        None
    }
}

/// The hover text of a keyword, built-in or type name.
pub fn keyword_hover(word: &str) -> (r: Option<&'static str>)
    ensures
        match r {
            Some(s) => keyword_doc(word@) == Some(s@),
            None => keyword_doc(word@) is None,
        },
{
    if str_is(word, "let") {
        Some("let — declare a (mutable) variable")
    } else if str_is(word, "fn") {
        Some("fn — declare a function")
    } else if str_is(word, "if") {
        Some("if — conditional branch")
    } else if str_is(word, "else") {
        Some("else — alternate branch of an `if`")
    } else if str_is(word, "while") {
        Some("while — loop while a condition holds")
    } else if str_is(word, "return") {
        Some("return — return a value from the enclosing function")
    } else if str_is(word, "true") || str_is(word, "false") {
        Some("bool literal")
    } else if str_is(word, "as") {
        Some("as — cast between int and float")
    } else if str_is(word, "use") {
        Some("use \"path.beer\" — import another file")
    } else if str_is(word, "print") {
        Some("print(x) — built-in, prints an int / float / str / bool")
    } else if str_is(word, "int") {
        Some("int — 64-bit signed integer")
    } else if str_is(word, "float") {
        Some("float — 64-bit floating-point number")
    } else if str_is(word, "bool") {
        Some("bool — true / false")
    } else if str_is(word, "str") {
        Some("str — null-terminated string (C-string)")
    } else {
        None
    }
}

/// How a type is written in source.
pub open spec fn type_word(t: Type) -> Seq<char> {
    match t {
        Type::Int => "int"@,
        Type::Float => "float"@,
        Type::Bool => "bool"@,
        Type::Str => "str"@,
        Type::Void => "void"@,
    }
}

pub fn format_type(t: Type) -> (s: &'static str)
    ensures
        s@ == type_word(t),
{
    match t {
        Type::Int => "int",
        Type::Float => "float",
        Type::Bool => "bool",
        Type::Str => "str",
        Type::Void => "void",
    }
}

/// `a: t, b: u, ...` for the parameters `ps`.
pub open spec fn params_text(ps: Seq<(Seq<char>, Type)>) -> Seq<char>
    decreases ps.len(),
{
    if ps.len() == 0 {
        Seq::empty()
    } else if ps.len() == 1 {
        ps[0].0 + ": "@ + type_word(ps[0].1)
    } else {
        params_text(ps.drop_last()) + ", "@ + ps.last().0 + ": "@ + type_word(ps.last().1)
    }
}

/// A function's signature as shown to the user: `fn name(a: int) -> int`,
/// without the arrow for a function that returns nothing.
pub open spec fn signature_text(f: FuncV) -> Seq<char> {
    "fn "@ + f.name + "("@ + params_text(f.params) + ")"@ + (if f.ret == Type::Void {
        Seq::empty()
    } else {
        " -> "@ + type_word(f.ret)
    })
}

pub fn format_signature(f: &Func) -> (s: String)
    ensures
        s@ == signature_text(f@),
{
    let ghost ps = params_v(f.params@);
    let mut params = String::new();
    let mut i: usize = 0;
    while i < f.params.len()
        invariant
            i <= f.params@.len(),
            ps == params_v(f.params@),
            params@ == params_text(ps.take(i as int)),
        decreases f.params@.len() - i,
    {
        assert(ps.take(i + 1).drop_last() =~= ps.take(i as int));
        if i > 0 {
            params.append(", ");
        }
        params.append(f.params[i].0.as_str());
        params.append(": ");
        params.append(format_type(f.params[i].1));
        i = i + 1;
        proof {
            if i == 1 {
                assert(params@ =~= params_text(ps.take(i as int)));
            } else {
                assert(params@ =~= params_text(ps.take(i as int)));
            }
        }
    }
    assert(ps.take(i as int) =~= ps);
    let mut s = String::from_str("fn ");
    s.append(f.name.as_str());
    s.append("(");
    s.append(params.as_str());
    s.append(")");
    if f.ret != Type::Void {
        s.append(" -> ");
        s.append(format_type(f.ret));
    }
    proof {
        reveal_strlit("fn ");
    }
    assert(s@ =~= signature_text(f@));
    s
}

/// The hover contents for a text: a fenced block of the language.
pub open spec fn hover_markup(text: Seq<char>) -> Seq<char> {
    "```beer\n"@ + text + "\n```"@
}

pub fn hover_markdown(text: &str) -> (s: String)
    ensures
        s@ == hover_markup(text@),
{
    let mut s = String::from_str("```beer\n");
    s.append(text);
    s.append("\n```");
    s
}

// ---------------------------------------------------------------------------
// The language server's state.

/// A position in a document: 0-based line and character.
#[derive(Debug, Clone, Copy, PartialEq, Eq, Structural)]
pub struct Pos {
    pub line: u32,
    pub character: u32,
}

/// A range of a document.
#[derive(Debug, Clone, Copy, PartialEq, Eq, Structural)]
pub struct Range {
    pub start: Pos,
    pub end: Pos,
}

/// An error to show in a document.
#[derive(Debug)]
pub struct Diag {
    pub range: Range,
    pub message: String,
}

pub struct DiagV {
    pub range: Range,
    pub message: Seq<char>,
}

/// What an entry of the completion list stands for.
#[derive(Debug, Clone, Copy, PartialEq, Eq, Structural)]
pub enum ItemKind {
    Keyword,
    TypeName,
    Function,
}

/// An entry of the completion list.
#[derive(Debug)]
pub struct Completion {
    pub label: String,
    pub detail: Option<String>,
    pub kind: ItemKind,
}

/// The open documents, where their files live, which documents were last
/// sent errors, and the signatures of the functions last compiled.
pub struct ServerState {
    docs: StrMap,
    canonical_to_uri: StrMap,
    last_reported: StrMap,
    fn_signatures: StrMap,
}

pub struct ServerStateV {
    pub docs: Map<Seq<char>, Seq<char>>,
    pub canonical_to_uri: Map<Seq<char>, Seq<char>>,
    pub last_reported: Set<Seq<char>>,
    pub fn_signatures: Map<Seq<char>, Seq<char>>,
}

impl View for ServerState {
    type V = ServerStateV;

    closed spec fn view(&self) -> ServerStateV {
        ServerStateV {
            docs: self.docs@,
            canonical_to_uri: self.canonical_to_uri@,
            last_reported: self.last_reported@.dom(),
            fn_signatures: self.fn_signatures@,
        }
    }
}

/// The state after a document is opened or edited: its text is recorded,
/// and its file (when it has a canonical path) is known by its address.
pub open spec fn remember_v(st: ServerStateV, uri: Seq<char>, canonical: Option<Seq<char>>, text: Seq<char>) -> ServerStateV {
    ServerStateV {
        docs: st.docs.insert(uri, text),
        canonical_to_uri: match canonical {
            Some(c) => st.canonical_to_uri.insert(c, uri),
            None => st.canonical_to_uri,
        },
        ..st
    }
}

/// The state after a document is closed: its text is dropped, and no file
/// is known by its address any more.
pub open spec fn forget_v(st: ServerStateV, uri: Seq<char>) -> ServerStateV {
    ServerStateV {
        docs: st.docs.remove(uri),
        canonical_to_uri: st.canonical_to_uri.restrict(st.canonical_to_uri.dom().filter(|k: Seq<char>| st.canonical_to_uri[k] != uri)),
        ..st
    }
}

/// The editor's address of the file at `canonical`, if it has one.
pub open spec fn client_uri_v(st: ServerStateV, canonical: Seq<char>) -> Option<Seq<char>> {
    if st.canonical_to_uri.contains_key(canonical) {
        Some(st.canonical_to_uri[canonical])
    } else {
        None
    }
}

/// Errors are shown where the editor looks: once a document is opened
/// from a file, that file is known by the document's address, and the
/// document's text is what was sent.
pub proof fn law_remember_then_lookup(st: ServerStateV, uri: Seq<char>, canonical: Seq<char>, text: Seq<char>)
    ensures
        client_uri_v(remember_v(st, uri, Some(canonical), text), canonical) == Some(uri),
        remember_v(st, uri, Some(canonical), text).docs[uri] == text,
        remember_v(st, uri, Some(canonical), text).docs.contains_key(uri),
{
}

/// Closing a document forgets it: its text is gone, and no file is known by
/// its address any more; other files keep theirs.
pub proof fn law_forget(st: ServerStateV, uri: Seq<char>, canonical: Seq<char>)
    ensures
        !forget_v(st, uri).docs.contains_key(uri),
        client_uri_v(forget_v(st, uri), canonical) != Some(uri),
        client_uri_v(st, canonical) is Some && client_uri_v(st, canonical) != Some(uri)
            ==> client_uri_v(forget_v(st, uri), canonical) == client_uri_v(st, canonical),
{
}

/// The range of the character at a (1-based) error position.
pub open spec fn span_range_v(s: Span) -> Range {
    let line = if s.line >= 1 { (s.line - 1) as u32 } else { 0u32 };
    let col = if s.col >= 1 { (s.col - 1) as u32 } else { 0u32 };
    Range {
        start: Pos { line, character: col },
        end: Pos { line, character: if col < u32::MAX { (col + 1) as u32 } else { u32::MAX } },
    }
}

pub fn span_range(s: Span) -> (r: Range)
    ensures
        r == span_range_v(s),
{
    let line = s.line.saturating_sub(1);
    let col = s.col.saturating_sub(1);
    Range { start: Pos { line, character: col }, end: Pos { line, character: col.saturating_add(1) } }
}

pub open spec fn zero_range() -> Range {
    Range { start: Pos { line: 0, character: 0 }, end: Pos { line: 0, character: 0 } }
}

/// A path that no platform reads as absolute: it starts with no separator
/// and has no drive prefix.
pub open spec fn plainly_relative(path: Seq<char>) -> bool {
    &&& !(path.len() > 0 && (path[0] == '/' || path[0] == '\\'))
    &&& !path.contains(':')
}

/// The `file://` URL of a path, if the path can be written as one, made by
/// `tower_lsp::lsp_types::Url::from_file_path` (from the `url` crate).
/// Claimed: a URL it gives starts with `file://` (its serialization begins
/// so), and a path that no platform reads as absolute is refused (the
/// function refuses every path that is not absolute). Left unsaid: how an
/// absolute path is encoded, and which absolute paths are refused; both
/// depend on the platform's path rules.
#[verifier::external_body]
fn file_url(path: &str) -> (r: Option<String>)
    ensures
        r matches Some(u) ==> u@.len() >= 7 && u@.subrange(0, 7) == "file://"@,
        plainly_relative(path@) ==> r is None,
{
    tower_lsp::lsp_types::Url::from_file_path(path).ok().map(|u| u.to_string())
}

/// The keywords offered for completion.
pub open spec fn completion_keywords() -> Seq<Seq<char>> {
    seq!["let"@, "fn"@, "if"@, "else"@, "while"@, "return"@, "true"@, "false"@, "as"@, "use"@, "print"@]
}

/// The type names offered for completion.
pub open spec fn completion_types() -> Seq<Seq<char>> {
    seq!["int"@, "float"@, "bool"@, "str"@]
}

impl ServerState {
    pub closed spec fn wf(&self) -> bool {
        &&& self.docs.wf()
        &&& self.canonical_to_uri.wf()
        &&& self.last_reported.wf()
        &&& self.fn_signatures.wf()
    }

    pub fn new() -> (st: ServerState)
        ensures
            st.wf(),
            st@.docs == Map::<Seq<char>, Seq<char>>::empty(),
            st@.canonical_to_uri == Map::<Seq<char>, Seq<char>>::empty(),
            st@.last_reported == Set::<Seq<char>>::empty(),
            st@.fn_signatures == Map::<Seq<char>, Seq<char>>::empty(),
    {
        ServerState {
            docs: StrMap::new(),
            canonical_to_uri: StrMap::new(),
            last_reported: StrMap::new(),
            fn_signatures: StrMap::new(),
        }
    }

    /// Records the text of an open document; `canonical` is the canonical
    /// path of its file, when it has one.
    pub fn remember(&mut self, uri: String, canonical: Option<String>, text: String)
        requires
            old(self).wf(),
        ensures
            final(self).wf(),
            final(self)@ == remember_v(old(self)@, uri@, match canonical {
                Some(c) => Some(c@),
                None => None,
            }, text@),
    {
        if let Some(c) = canonical {
            self.canonical_to_uri.insert(c, uri.clone());
        }
        self.docs.insert(uri, text);
    }

    /// Forgets a closed document, and every file known by its address.
    pub fn forget(&mut self, uri: &String)
        requires
            old(self).wf(),
        ensures
            final(self).wf(),
            final(self)@ == forget_v(old(self)@, uri@),
    {
        self.docs.remove(uri);
        self.canonical_to_uri.retain_value_ne(uri);
    }

    /// No errors are shown in this document any more.
    pub fn unreport(&mut self, uri: &String)
        requires
            old(self).wf(),
        ensures
            final(self).wf(),
            final(self)@.docs == old(self)@.docs,
            final(self)@.canonical_to_uri == old(self)@.canonical_to_uri,
            final(self)@.last_reported == old(self)@.last_reported.remove(uri@),
            final(self)@.fn_signatures == old(self)@.fn_signatures,
    {
        self.last_reported.remove(uri);
        assert(self.last_reported@.dom() =~= old(self).last_reported@.dom().remove(uri@));
    }

    /// The address the editor uses for the file at `canonical`.
    pub fn client_uri(&self, canonical: &String) -> (r: Option<String>)
        requires
            self.wf(),
        ensures
            match r {
                Some(u) => client_uri_v(self@, canonical@) == Some(u@),
                None => client_uri_v(self@, canonical@) is None,
            },
    {
        self.canonical_to_uri.get(canonical)
    }

    /// The text of an open document, or the empty text.
    pub fn doc_text(&self, uri: &String) -> (t: String)
        requires
            self.wf(),
        ensures
            t@ == (if self@.docs.contains_key(uri@) { self@.docs[uri@] } else { Seq::empty() }),
    {
        match self.docs.get(uri) {
            Some(t) => t,
            None => String::new(),
        }
    }

    /// The addresses of the open documents, each once.
    pub fn open_uris(&self) -> (v: Vec<String>)
        requires
            self.wf(),
        ensures
            forall|i: int| 0 <= i < v@.len() ==> #[trigger] self@.docs.contains_key(v@[i]@),
            forall|k: Seq<char>| #[trigger] self@.docs.contains_key(k) ==> exists|i: int| 0 <= i < v@.len() && v@[i]@ == k,
            forall|i: int, j: int| 0 <= i < v@.len() && 0 <= j < v@.len() && i != j ==> v@[i]@ != v@[j]@,
    {
        self.docs.keys()
    }

    /// Replaces the known signatures by those of `p`'s functions (for a
    /// name given twice, the later function's).
    pub fn set_signatures(&mut self, p: &Program)
        requires
            old(self).wf(),
        ensures
            final(self).wf(),
            final(self)@.fn_signatures == sig_table(funcs_v(p.funcs@)),
            final(self)@.docs == old(self)@.docs,
            final(self)@.canonical_to_uri == old(self)@.canonical_to_uri,
            final(self)@.last_reported == old(self)@.last_reported,
    {
        let mut m = StrMap::new();
        let mut i: usize = 0;
        while i < p.funcs.len()
            invariant
                m.wf(),
                i <= p.funcs@.len(),
                m@ == sig_table(funcs_v(p.funcs@).take(i as int)),
            decreases p.funcs@.len() - i,
        {
            let f = &p.funcs[i];
            let sig = format_signature(f);
            m.insert(f.name.clone(), sig);
            assert(funcs_v(p.funcs@).take(i + 1).drop_last() =~= funcs_v(p.funcs@).take(i as int));
            i = i + 1;
        }
        assert(funcs_v(p.funcs@).take(i as int) =~= funcs_v(p.funcs@));
        self.fn_signatures = m;
    }

    /// What hovering at (0-based) `line` and byte column `col` of a document
    /// shows: the documentation of a keyword, or the signature of a known
    /// function, as a fenced block.
    pub fn hover(&self, uri: &String, line: u32, col: u32) -> (r: Option<String>)
        requires
            self.wf(),
        ensures
            r is Some == hover_text(self@, uri@, line as nat, col as int) is Some,
            r matches Some(h) ==> h@ == hover_markup(hover_text(self@, uri@, line as nat, col as int).unwrap()),
    {
        let text = self.doc_text(uri);
        let w = match word_at(text.as_str(), line as usize, col as usize) {
            Some(w) => w,
            None => {
                return None;
            },
        };
        let body = match keyword_hover(w.as_str()) {
            Some(k) => String::from_str(k),
            None => match self.fn_signatures.get(&w) {
                Some(sig) => sig,
                None => {
                    return None;
                },
            },
        };
        Some(hover_markdown(body.as_str()))
    }

    /// The completion list: keywords, type names, then the known functions
    /// with their signatures.
    pub fn completion_items(&self) -> (v: Vec<Completion>)
        requires
            self.wf(),
        ensures
            v@.len() >= 15,
            forall|i: int| 0 <= i < 11 ==> (#[trigger] v@[i]).label@ == completion_keywords()[i] && v@[i].kind == ItemKind::Keyword && v@[i].detail is None,
            forall|i: int| 11 <= i < 15 ==> (#[trigger] v@[i]).label@ == completion_types()[i - 11] && v@[i].kind == ItemKind::TypeName && v@[i].detail is None,
            forall|i: int| 15 <= i < v@.len() ==> (#[trigger] v@[i]).kind == ItemKind::Function
                && self@.fn_signatures.contains_key(v@[i].label@)
                && (v@[i].detail matches Some(d) && d@ == self@.fn_signatures[v@[i].label@]),
            forall|k: Seq<char>| #[trigger] self@.fn_signatures.contains_key(k) ==> exists|i: int| 15 <= i < v@.len() && v@[i].label@ == k,
            forall|i: int, j: int| 15 <= i < v@.len() && 15 <= j < v@.len() && i != j ==> v@[i].label@ != v@[j].label@,
    {
        let mut v: Vec<Completion> = Vec::new();
        v.push(Completion { label: String::from_str("let"), detail: None, kind: ItemKind::Keyword });
        v.push(Completion { label: String::from_str("fn"), detail: None, kind: ItemKind::Keyword });
        v.push(Completion { label: String::from_str("if"), detail: None, kind: ItemKind::Keyword });
        v.push(Completion { label: String::from_str("else"), detail: None, kind: ItemKind::Keyword });
        v.push(Completion { label: String::from_str("while"), detail: None, kind: ItemKind::Keyword });
        v.push(Completion { label: String::from_str("return"), detail: None, kind: ItemKind::Keyword });
        v.push(Completion { label: String::from_str("true"), detail: None, kind: ItemKind::Keyword });
        v.push(Completion { label: String::from_str("false"), detail: None, kind: ItemKind::Keyword });
        v.push(Completion { label: String::from_str("as"), detail: None, kind: ItemKind::Keyword });
        v.push(Completion { label: String::from_str("use"), detail: None, kind: ItemKind::Keyword });
        v.push(Completion { label: String::from_str("print"), detail: None, kind: ItemKind::Keyword });
        v.push(Completion { label: String::from_str("int"), detail: None, kind: ItemKind::TypeName });
        v.push(Completion { label: String::from_str("float"), detail: None, kind: ItemKind::TypeName });
        v.push(Completion { label: String::from_str("bool"), detail: None, kind: ItemKind::TypeName });
        v.push(Completion { label: String::from_str("str"), detail: None, kind: ItemKind::TypeName });
        let ghost fixed = v@;
        assert(forall|i: int| 0 <= i < 11 ==> (#[trigger] v@[i]).label@ == completion_keywords()[i] && v@[i].kind == ItemKind::Keyword && v@[i].detail is None);
        assert(forall|i: int| 11 <= i < 15 ==> (#[trigger] v@[i]).label@ == completion_types()[i - 11] && v@[i].kind == ItemKind::TypeName && v@[i].detail is None);
        let names = self.fn_signatures.keys();
        let mut i: usize = 0;
        while i < names.len()
            invariant
                self.wf(),
                i <= names@.len(),
                v@.len() == 15 + i,
                forall|j: int| 0 <= j < 15 ==> #[trigger] v@[j] == fixed[j],
                forall|j: int| 0 <= j < names@.len() ==> #[trigger] self@.fn_signatures.contains_key(names@[j]@),
                forall|a: int, b: int| 0 <= a < names@.len() && 0 <= b < names@.len() && a != b ==> names@[a]@ != names@[b]@,
                forall|j: int| 15 <= j < v@.len() ==> (#[trigger] v@[j]).kind == ItemKind::Function
                    && v@[j].label@ == names@[j - 15]@
                    && (v@[j].detail matches Some(d) && d@ == self@.fn_signatures[v@[j].label@]),
            decreases names@.len() - i,
        {
            let name = names[i].clone();
            assert(self@.fn_signatures.contains_key(names@[i as int]@));
            let sig = self.fn_signatures.get(&name);
            assert(sig is Some);
            v.push(Completion { label: name, detail: sig, kind: ItemKind::Function });
            i = i + 1;
        }
        assert forall|k: Seq<char>| #[trigger] self@.fn_signatures.contains_key(k) implies exists|i: int| 15 <= i < v@.len() && v@[i].label@ == k by {
            let j = choose|j: int| 0 <= j < names@.len() && names@[j]@ == k;
            assert(v@[j + 15].label@ == k);
        }
        v
    }
}

/// The signature table of a list of functions: name to signature, a later
/// function replacing an earlier one of the same name.
pub open spec fn sig_table(fs: Seq<FuncV>) -> Map<Seq<char>, Seq<char>>
    decreases fs.len(),
{
    if fs.len() == 0 {
        Map::empty()
    } else {
        sig_table(fs.drop_last()).insert(fs.last().name, signature_text(fs.last()))
    }
}

/// The text a hover shows before it is fenced: a keyword's documentation or
/// a known function's signature.
pub open spec fn hover_text(st: ServerStateV, uri: Seq<char>, line: nat, col: int) -> Option<Seq<char>> {
    let text = if st.docs.contains_key(uri) { st.docs[uri] } else { Seq::empty() };
    match word_at_spec(encode_utf8(text), line, col) {
        None => None,
        Some(w) => match keyword_doc(w) {
            Some(d) => Some(d),
            None => if st.fn_signatures.contains_key(w) {
                Some(st.fn_signatures[w])
            } else {
                None
            },
        },
    }
}

/// Whether some entry of `v` has the text `k`.
pub open spec fn has_text(v: Seq<String>, k: Seq<char>) -> bool {
    exists|i: int| 0 <= i < v.len() && v[i]@ == k
}

pub open spec fn distinct_texts(v: Seq<String>) -> bool {
    forall|a: int, b: int| 0 <= a < v.len() && 0 <= b < v.len() && a != b ==> v[a]@ != v[b]@
}

fn contains_text(v: &Vec<String>, k: &String) -> (b: bool)
    ensures
        b == has_text(v@, k@),
{
    let mut i: usize = 0;
    while i < v.len()
        invariant
            i <= v@.len(),
            forall|j: int| 0 <= j < i ==> v@[j]@ != k@,
        decreases v@.len() - i,
    {
        if v[i].eq(k) {
            return true;
        }
        i = i + 1;
    }
    false
}

fn add_unique(v: &mut Vec<String>, k: String)
    requires
        distinct_texts(old(v)@),
    ensures
        distinct_texts(final(v)@),
        forall|q: Seq<char>| has_text(final(v)@, q) <==> has_text(old(v)@, q) || q == k@,
{
    if !contains_text(v, &k) {
        let ghost kk = k@;
        v.push(k);
        assert forall|q: Seq<char>| has_text(v@, q) <==> has_text(old(v)@, q) || q == kk by {
            if has_text(old(v)@, q) {
                let i = choose|i: int| 0 <= i < old(v)@.len() && old(v)@[i]@ == q;
                assert(v@[i] == old(v)@[i]);
            }
            if q == kk {
                assert(v@[old(v)@.len() as int]@ == kk);
            }
            if has_text(v@, q) {
                let i = choose|i: int| 0 <= i < v@.len() && v@[i]@ == q;
                if i < old(v)@.len() {
                    assert(v@[i] == old(v)@[i]);
                }
            }
        }
        assert forall|a: int, b: int| 0 <= a < v@.len() && 0 <= b < v@.len() && a != b implies v@[a]@ != v@[b]@ by {
            if a < old(v)@.len() && b < old(v)@.len() {
                assert(v@[a] == old(v)@[a]);
                assert(v@[b] == old(v)@[b]);
            } else if a < old(v)@.len() {
                assert(v@[a] == old(v)@[a]);
            } else if b < old(v)@.len() {
                assert(v@[b] == old(v)@[b]);
            }
        }
    }
}

/// The documents named in a list of (document, errors) entries.
pub open spec fn uris_of(out: Seq<(String, Vec<Diag>)>) -> Set<Seq<char>> {
    Set::new(|q: Seq<char>| exists|i: int| 0 <= i < out.len() && out[i].0@ == q)
}

/// The document of a compile's error, if there is one.
pub open spec fn diag_uris(diag: Option<(String, Diag)>) -> Set<Seq<char>> {
    match diag {
        Some((u, _)) => Set::empty().insert(u@),
        None => Set::empty(),
    }
}

/// Whether a compile's error `diag` belongs to the document `q`.
pub open spec fn sent_to(diag: Option<(String, Diag)>, q: Seq<char>) -> bool {
    match diag {
        Some((u, _)) => u@ == q,
        None => false,
    }
}

/// The errors that the document `q` is sent after a compile whose error is
/// `diag`: that error where it belongs to `q`, else none.
pub open spec fn diags_for(diag: Option<(String, Diag)>, q: Seq<char>, ds: Seq<Diag>) -> bool {
    match diag {
        Some((u, d)) => if u@ == q {
            ds.len() == 1 && ds[0].range == d.range && ds[0].message@ == d.message@
        } else {
            ds.len() == 0
        },
        None => ds.len() == 0,
    }
}

/// What a compile sends the editor, given the state before it and its
/// error: one entry per document, for every open document, every document
/// sent errors last time and the error's document; each entry holds the
/// error where it belongs there, and nothing else.
pub open spec fn plan_ok(st: ServerStateV, diag: Option<(String, Diag)>, out: Seq<(String, Vec<Diag>)>) -> bool {
    &&& forall|a: int, b: int| 0 <= a < out.len() && 0 <= b < out.len() && a != b ==> out[a].0@ != out[b].0@
    &&& uris_of(out) == st.docs.dom().union(st.last_reported).union(diag_uris(diag))
    &&& forall|i: int| 0 <= i < out.len() ==> diags_for(diag, (#[trigger] out[i]).0@, out[i].1@)
}

/// Stale errors are cleared: a document that was sent errors by the last
/// compile and has none in this one is sent an empty list.
pub proof fn law_stale_errors_cleared(st: ServerStateV, diag: Option<(String, Diag)>, out: Seq<(String, Vec<Diag>)>, q: Seq<char>)
    requires
        plan_ok(st, diag, out),
        st.last_reported.contains(q),
        !sent_to(diag, q),
    ensures
        exists|i: int| 0 <= i < out.len() && out[i].0@ == q && out[i].1@.len() == 0,
{
    assert(uris_of(out).contains(q));
    let i = choose|i: int| 0 <= i < out.len() && out[i].0@ == q;
    assert(diags_for(diag, out[i].0@, out[i].1@));
}

/// A compile's error reaches its document: that document gets exactly one
/// entry, holding exactly that error.
pub proof fn law_error_delivered(st: ServerStateV, u: String, d: Diag, out: Seq<(String, Vec<Diag>)>)
    requires
        plan_ok(st, Some((u, d)), out),
    ensures
        exists|i: int| 0 <= i < out.len() && out[i].0@ == u@ && out[i].1@.len() == 1
            && out[i].1@[0].range == d.range && out[i].1@[0].message@ == d.message@,
        forall|i: int, j: int| 0 <= i < out.len() && 0 <= j < out.len() && out[i].0@ == u@ && out[j].0@ == u@ ==> i == j,
{
    assert(diag_uris(Some((u, d))).contains(u@));
    assert(uris_of(out).contains(u@));
    let i = choose|i: int| 0 <= i < out.len() && out[i].0@ == u@;
    assert(diags_for(Some((u, d)), out[i].0@, out[i].1@));
}

impl ServerState {
    /// After a compile: which documents to send which errors. Every open
    /// document, the document of the error, and every document that was sent
    /// errors last time gets an entry (so stale errors are cleared); only the
    /// error's document gets the error. Afterwards, the documents that were
    /// sent errors are exactly the error's.
    pub fn publish_plan(&mut self, diag: Option<(String, Diag)>) -> (out: Vec<(String, Vec<Diag>)>)
        requires
            old(self).wf(),
        ensures
            final(self).wf(),
            final(self)@.docs == old(self)@.docs,
            final(self)@.canonical_to_uri == old(self)@.canonical_to_uri,
            final(self)@.fn_signatures == old(self)@.fn_signatures,
            final(self)@.last_reported == diag_uris(diag),
            plan_ok(old(self)@, diag, out@),
    {
        let ghost st0 = self@;
        let mut uris = self.docs.keys();
        assert(distinct_texts(uris@));
        assert forall|q: Seq<char>| has_text(uris@, q) <==> old(self)@.docs.contains_key(q) by {
            if has_text(uris@, q) {
                let i = choose|i: int| 0 <= i < uris@.len() && uris@[i]@ == q;
                assert(self@.docs.contains_key(uris@[i]@));
            }
        }
        if let Some((u, _)) = &diag {
            add_unique(&mut uris, u.clone());
        }
        let stale = self.last_reported.keys();
        let mut i: usize = 0;
        while i < stale.len()
            invariant
                i <= stale@.len(),
                distinct_texts(uris@),
                forall|j: int| 0 <= j < stale@.len() ==> #[trigger] old(self)@.last_reported.contains(stale@[j]@),
                forall|k: Seq<char>| #[trigger] old(self)@.last_reported.contains(k) ==> exists|j: int| 0 <= j < stale@.len() && stale@[j]@ == k,
                forall|q: Seq<char>| #[trigger] has_text(uris@, q) <==> (old(self)@.docs.contains_key(q) || sent_to(diag, q)
                    || exists|j: int| 0 <= j < i && stale@[j]@ == q),
            decreases stale@.len() - i,
        {
            let ghost before = uris@;
            add_unique(&mut uris, stale[i].clone());
            assert forall|q: Seq<char>| has_text(uris@, q) <==> (old(self)@.docs.contains_key(q) || sent_to(diag, q)
                || exists|j: int| 0 <= j < i + 1 && stale@[j]@ == q) by {
                if q == stale@[i as int]@ {
                    assert(0 <= i < i + 1 && stale@[i as int]@ == q);
                }
                if exists|j: int| 0 <= j < i + 1 && stale@[j]@ == q {
                    let j = choose|j: int| 0 <= j < i + 1 && stale@[j]@ == q;
                    if j < i {
                        assert(has_text(before, q));
                    }
                }
                if has_text(before, q) && !(old(self)@.docs.contains_key(q) || sent_to(diag, q)) {
                    let j = choose|j: int| 0 <= j < i && stale@[j]@ == q;
                    assert(0 <= j < i + 1 && stale@[j]@ == q);
                }
            }
            i = i + 1;
        }
        assert forall|q: Seq<char>| has_text(uris@, q) <==> (old(self)@.docs.contains_key(q) || sent_to(diag, q)
            || old(self)@.last_reported.contains(q)) by {
            if old(self)@.last_reported.contains(q) {
                let j = choose|j: int| 0 <= j < stale@.len() && stale@[j]@ == q;
                assert(0 <= j < i && stale@[j]@ == q);
            }
            if exists|j: int| 0 <= j < i && stale@[j]@ == q {
                let j = choose|j: int| 0 <= j < i && stale@[j]@ == q;
                assert(old(self)@.last_reported.contains(stale@[j]@));
            }
        }
        let mut out: Vec<(String, Vec<Diag>)> = Vec::new();
        let mut j: usize = 0;
        while j < uris.len()
            invariant
                j <= uris@.len(),
                out@.len() == j,
                forall|k: int| 0 <= k < j ==> (#[trigger] out@[k]).0@ == uris@[k]@,
                forall|k: int| 0 <= k < j ==> diags_for(diag, (#[trigger] out@[k]).0@, out@[k].1@),
            decreases uris@.len() - j,
        {
            let u = uris[j].clone();
            let mut ds: Vec<Diag> = Vec::new();
            if let Some((du, d)) = &diag {
                if du.eq(&u) {
                    ds.push(Diag { range: d.range, message: d.message.clone() });
                }
            }
            out.push((u, ds));
            j = j + 1;
        }
        assert forall|q: Seq<char>| (exists|i: int| 0 <= i < out@.len() && out@[i].0@ == q) <==> has_text(uris@, q) by {
            if has_text(uris@, q) {
                let i = choose|i: int| 0 <= i < uris@.len() && uris@[i]@ == q;
                assert(out@[i].0@ == q);
            }
        }
        let mut reported = StrMap::new();
        if let Some((u, _)) = &diag {
            reported.insert(u.clone(), String::new());
        }
        self.last_reported = reported;
        assert(self.last_reported@.dom() =~= diag_uris(diag));
        assert(uris_of(out@) =~= st0.docs.dom().union(st0.last_reported).union(diag_uris(diag))) by {
            assert forall|q: Seq<char>| #[trigger] uris_of(out@).contains(q) <==> st0.docs.dom().union(st0.last_reported).union(diag_uris(diag)).contains(q) by {
                assert(has_text(uris@, q) <==> (exists|i: int| 0 <= i < out@.len() && out@[i].0@ == q));
            }
        }
        out
    }

    /// After a compile: the signatures are refreshed from the program when
    /// loading got that far (so hover and completion keep working while a
    /// file does not parse), and the plan of what to send each document is
    /// made as [`ServerState::publish_plan`] makes it.
    pub fn record_compile(&mut self, program: Option<&Program>, diag: Option<(String, Diag)>) -> (out: Vec<(String, Vec<Diag>)>)
        requires
            old(self).wf(),
        ensures
            final(self).wf(),
            final(self)@.fn_signatures == match program {
                Some(p) => sig_table(funcs_v(p.funcs@)),
                None => old(self)@.fn_signatures,
            },
            final(self)@.docs == old(self)@.docs,
            final(self)@.canonical_to_uri == old(self)@.canonical_to_uri,
            final(self)@.last_reported == diag_uris(diag),
            plan_ok(old(self)@, diag, out@),
    {
        if let Some(p) = program {
            self.set_signatures(p);
        }
        self.publish_plan(diag)
    }

    /// Where to show an error: the document of the error's file (as the
    /// editor knows it, else its `file://` address) at the error's position,
    /// or the start of `fallback`.
    pub fn diag_location(&self, err: &CompileError, files: Option<&FileTable>, fallback: &String) -> (r: (String, Range))
        requires
            self.wf(),
            match (err.span, files) {
                (Some(s), Some(ft)) => (s.file as int) < ft@.files.len(),
                _ => true,
            },
        ensures
            match (err.span, files) {
                (Some(s), Some(ft)) => {
                    let path = ft@.files[s.file as int].0;
                    match client_uri_v(self@, path) {
                        Some(u) => r.0@ == u && r.1 == span_range_v(s),
                        None => if plainly_relative(path) {
                            r.0@ == fallback@ && r.1 == zero_range()
                        } else {
                            (r.1 == span_range_v(s) && r.0@.len() >= 7 && r.0@.subrange(0, 7) == "file://"@)
                                || (r.0@ == fallback@ && r.1 == zero_range())
                        },
                    }
                },
                _ => r.0@ == fallback@ && r.1 == zero_range(),
            },
    {
        if let (Some(s), Some(ft)) = (err.span, files) {
            let lf = ft.get(s.file);
            let address = match self.client_uri(&lf.path) {
                Some(u) => Some(u),
                None => file_url(lf.path.as_str()),
            };
            place_error(err.span, address, fallback)
        } else {
            place_error(None, None, fallback)
        }
    }
}

/// Where an error with position `span` is shown, once the address of its
/// document is known (or known to be missing): at that position in that
/// document, else at the start of `fallback`.
pub fn place_error(span: Option<Span>, address: Option<String>, fallback: &String) -> (r: (String, Range))
    ensures
        match (span, address) {
            (Some(s), Some(a)) => r.0@ == a@ && r.1 == span_range_v(s),
            _ => r.0@ == fallback@ && r.1 == zero_range(),
        },
{
    match (span, address) {
        (Some(s), Some(a)) => (a, span_range(s)),
        _ => (fallback.clone(), Range { start: Pos { line: 0, character: 0 }, end: Pos { line: 0, character: 0 } }),
    }
}

/// The message shown when the compiler cannot be found on the `PATH`.
pub open spec fn not_found_text() -> Seq<char> {
    "`beer` not found on $PATH — install it from https://github.com/lassejlv/beer and try again"@
}

/// The command an editor runs to start the language server, given where
/// the compiler was found: the compiler with the argument `lsp`.
pub fn language_server_command(binary: Option<String>) -> (r: Result<(String, Vec<String>), String>)
    ensures
        match binary {
            Some(b) => r matches Ok((c, args)) && c@ == b@ && args@.len() == 1 && args@[0]@ == "lsp"@,
            None => r matches Err(m) && m@ == not_found_text(),
        },
{
    match binary {
        Some(b) => {
            let mut args: Vec<String> = Vec::new();
            args.push(String::from_str("lsp"));
            Ok((b, args))
        },
        None => Err(String::from_str("`beer` not found on $PATH — install it from https://github.com/lassejlv/beer and try again")),
    }
}


/// A type is shown the way it is written: the parser reads the written
/// form of every type but `void` back as that type.
pub proof fn law_type_words_parse_back(t: Type)
    ensures
        t != Type::Void ==> crate::parser::type_named(type_word(t)) == Some(t),
{
    reveal_strlit("int");
    reveal_strlit("float");
    reveal_strlit("bool");
    reveal_strlit("str");
    assert("float"@ != "int"@) by {
        assert("float"@.len() != "int"@.len());
    }
    assert("bool"@ != "int"@ && "bool"@ != "float"@) by {
        assert("bool"@.len() != "int"@.len() && "bool"@.len() != "float"@.len());
    }
    assert("str"@ != "int"@ && "str"@ != "float"@ && "str"@ != "bool"@) by {
        assert("str"@[0] != "int"@[0]);
        assert("str"@.len() != "float"@.len() && "str"@.len() != "bool"@.len());
    }
}


/// Hover explains the language's own words: every keyword the lexer knows
/// has a hover text, and so does the name of every type but `void`; a word
/// with a hover text that is neither `print` nor a type name is a keyword;
/// and each text names its word first (the two bool literals share one).
pub proof fn law_keyword_docs(w: Seq<char>, t: Type)
    ensures
        crate::lexer::word_tok(w) !is Ident ==> keyword_doc(w) is Some,
        keyword_doc(w) is Some && w != "print"@ && w != "int"@ && w != "float"@ && w != "bool"@
            && w != "str"@ ==> crate::lexer::word_tok(w) !is Ident,
        t != Type::Void ==> keyword_doc(type_word(t)) is Some,
        w != "true"@ && w != "false"@ ==> (keyword_doc(w) matches Some(d) ==> d.len() > w.len()
            && d.take(w.len() as int) == w),
{
    if keyword_doc(w) is Some && w != "true"@ && w != "false"@ {
        let d = keyword_doc(w).unwrap();
        reveal_strlit("let");
        reveal_strlit("fn");
        reveal_strlit("if");
        reveal_strlit("else");
        reveal_strlit("while");
        reveal_strlit("return");
        reveal_strlit("as");
        reveal_strlit("use");
        reveal_strlit("print");
        reveal_strlit("int");
        reveal_strlit("float");
        reveal_strlit("bool");
        reveal_strlit("str");
        reveal_strlit("let — declare a (mutable) variable");
        reveal_strlit("fn — declare a function");
        reveal_strlit("if — conditional branch");
        reveal_strlit("else — alternate branch of an `if`");
        reveal_strlit("while — loop while a condition holds");
        reveal_strlit("return — return a value from the enclosing function");
        reveal_strlit("as — cast between int and float");
        reveal_strlit("use \"path.beer\" — import another file");
        reveal_strlit("print(x) — built-in, prints an int / float / str / bool");
        reveal_strlit("int — 64-bit signed integer");
        reveal_strlit("float — 64-bit floating-point number");
        reveal_strlit("bool — true / false");
        reveal_strlit("str — null-terminated string (C-string)");
        assert(d.take(w.len() as int) =~= w);
    }
}


/// The editor's (0-based) line of index `i` of a text: how many newlines
/// come before it.
pub open spec fn editor_line(s: Seq<char>, i: int) -> int
    decreases i,
{
    if i <= 0 {
        0
    } else {
        editor_line(s, i - 1) + if s[i - 1] == '\n' { 1int } else { 0int }
    }
}

/// The editor's (0-based) character of index `i` of a text: how many
/// characters come between the last newline before it and it.
pub open spec fn editor_character(s: Seq<char>, i: int) -> int
    decreases i,
{
    if i <= 0 {
        0
    } else if s[i - 1] == '\n' {
        0
    } else {
        editor_character(s, i - 1) + 1
    }
}

proof fn lemma_editor_position(s: Seq<char>, i: int)
    ensures
        crate::lexer::pos_at(s, i) == (editor_line(s, i) + 1, editor_character(s, i) + 1),
        editor_line(s, i) >= 0,
        editor_character(s, i) >= 0,
    decreases i,
{
    if i > 0 {
        lemma_editor_position(s, i - 1);
    }
}

/// An error reported at the position the lexer gives a character is shown
/// on that character: the range starts at the editor's line and character
/// of its index and covers one character.
pub proof fn law_error_range(s: Seq<char>, i: int, file: u32)
    requires
        0 <= i <= s.len(),
        crate::lexer::positions_fit(s),
    ensures
        span_range_v(crate::lexer::span_at(s, i, file)).start
            == (Pos { line: editor_line(s, i) as u32, character: editor_character(s, i) as u32 }),
        span_range_v(crate::lexer::span_at(s, i, file)).end.line == editor_line(s, i),
        editor_character(s, i) + 1 < u32::MAX ==> span_range_v(crate::lexer::span_at(s, i, file)).end.character
            == editor_character(s, i) + 1,
{
    lemma_editor_position(s, i);
    let p = crate::lexer::pos_at(s, i);
    assert(p.0 <= u32::MAX && p.1 <= u32::MAX);
    let sp = crate::lexer::span_at(s, i, file);
    assert(sp.line as int == p.0 && sp.col as int == p.1);
}


proof fn lemma_id_byte(b: u8)
    ensures
        is_id_byte(b) <==> crate::text::is_ident_char(b as char),
{
    assert((b as char) as int == b as int);
}

proof fn lemma_run_start(l: Seq<u8>, a: int, p: int)
    requires
        0 <= a <= p <= l.len(),
        forall|i: int| a <= i < p ==> is_id_byte(#[trigger] l[i]),
        a == 0 || !is_id_byte(l[a - 1]),
    ensures
        run_start(l, p) == a,
    decreases p,
{
    if p > a {
        lemma_run_start(l, a, p - 1);
    }
}

proof fn lemma_run_end(l: Seq<u8>, p: int, b: int)
    requires
        0 <= p <= b <= l.len(),
        forall|i: int| p <= i < b ==> is_id_byte(#[trigger] l[i]),
        b == l.len() || !is_id_byte(l[b]),
    ensures
        run_end(l, p) == b,
    decreases b - p,
{
    if p < b {
        lemma_run_end(l, p + 1, b);
    }
}

/// Hover finds the identifier the lexer reads: in a line where a word of
/// identifier characters stands between characters that cannot continue
/// it, a cursor on any of its characters, or just after its last one,
/// finds exactly that word.
pub proof fn law_word_under_cursor(pre: Seq<u8>, w: Seq<u8>, post: Seq<u8>, col: int)
    requires
        w.len() > 0,
        forall|i: int| 0 <= i < w.len() ==> crate::text::is_ident_char(#[trigger] w[i] as char),
        pre.len() == 0 || !crate::text::is_ident_char(pre.last() as char),
        post.len() == 0 || !crate::text::is_ident_char(post[0] as char),
        pre.len() <= col <= pre.len() + w.len(),
    ensures
        word_in_line(pre + w + post, col) == Some(w),
{
    let l = pre + w + post;
    let a = pre.len() as int;
    let b = a + w.len();
    assert forall|i: int| a <= i < b implies is_id_byte(#[trigger] l[i]) by {
        assert(l[i] == w[i - a]);
        assert(crate::text::is_ident_char(w[i - a] as char));
        lemma_id_byte(w[i - a]);
    }
    if a > 0 {
        assert(l[a - 1] == pre.last());
        lemma_id_byte(pre.last());
    }
    if b < l.len() {
        assert(l[b] == post[0]);
        lemma_id_byte(post[0]);
    }
    let k = if col < b { col } else { col - 1 };
    assert(is_id_byte(l[k]));
    lemma_run_start(l, a, k);
    lemma_run_end(l, k, b);
    assert(l.subrange(a, b) =~= w);
}

} // verus!
