use vstd::prelude::*;

use crate::ast::{distinct_names, funcs_v, uses_v, Func, FuncV, ParsedFile, Program, UseDecl, UseDeclV};
use crate::error::{err_at, CompileError, ErrorV};
use crate::lexer::{law_token_positions, lemma_lex_from_file, lex, positions_fit, tokenize, toks_v};
use crate::parser::{lemma_parse_file_in_file, lemma_parse_file_spans, parse, parse_file};
use crate::source::{
    add_file, distinct_paths, first_file, read_error, read_error_v, resolve_v, FileTable,
    FileTableV, LoadStep, LoadStepV,
};
use crate::span::Span;
use crate::text::concat3;

verus! {

// ---------------------------------------------------------------------------
// Loading a program: starting from a root file, every file named by a `use`
// is loaded (once), lexed and parsed; the functions of all files make the
// program, whose function names must be unique. Reading files is left to
// the caller: the loader asks for it, and goes on with the answer.

/// What the loader asks for next.
#[derive(Debug)]
pub enum Request {
    /// Resolve `path` (relative to the directory of the file at `base`,
    /// when there is one) to a canonical path on disk.
    Canonicalize { base: Option<String>, path: String },
    /// Read the file at this canonical path.
    Read { path: String },
    /// Loading is over; [`Driver::finish`] gives the result.
    Finished,
}

/// The answer to a request.
#[derive(Debug)]
pub enum Reply {
    /// How the resolved path is shown, and its canonical form or the reason
    /// it could not be resolved.
    Canonical { shown: String, result: Result<String, String> },
    /// The contents of the file, or the reason it could not be read.
    Contents(Result<String, String>),
}

enum Awaiting {
    Canonical(Option<Span>),
    Contents(String, Option<Span>),
    Nothing,
}

/// The state of loading a program.
pub struct Driver {
    files: FileTable,
    processed: Vec<bool>,
    pending: Vec<u32>,
    funcs: Vec<Func>,
    cur_path: String,
    cur_uses: Vec<UseDecl>,
    next_use: usize,
    cur_funcs: Vec<Func>,
    awaiting: Awaiting,
    failure: Option<CompileError>,
    finished: bool,
}

pub enum AwaitV {
    Canonical(Option<Span>),
    Contents(Seq<char>, Option<Span>),
    Nothing,
}

pub enum RequestV {
    Canonicalize(Option<Seq<char>>, Seq<char>),
    Read(Seq<char>),
    Finished,
}

pub enum ReplyV {
    Canonical(Seq<char>, Result<Seq<char>, Seq<char>>),
    Contents(Result<Seq<char>, Seq<char>>),
}

pub struct DriverV {
    pub files: FileTableV,
    pub processed: Seq<bool>,
    pub pending: Seq<u32>,
    pub funcs: Seq<FuncV>,
    pub cur_path: Seq<char>,
    pub cur_uses: Seq<UseDeclV>,
    pub next_use: int,
    pub cur_funcs: Seq<FuncV>,
    pub awaiting: AwaitV,
    pub failure: Option<ErrorV>,
    pub finished: bool,
}

pub open spec fn str_result_v(r: Result<String, String>) -> Result<Seq<char>, Seq<char>> {
    match r {
        Ok(s) => Ok(s@),
        Err(s) => Err(s@),
    }
}

impl View for Request {
    type V = RequestV;

    open spec fn view(&self) -> RequestV {
        match self {
            Request::Canonicalize { base, path } => RequestV::Canonicalize(
                match base {
                    Some(b) => Some(b@),
                    None => None,
                },
                path@,
            ),
            Request::Read { path } => RequestV::Read(path@),
            Request::Finished => RequestV::Finished,
        }
    }
}

impl View for Reply {
    type V = ReplyV;

    open spec fn view(&self) -> ReplyV {
        match self {
            Reply::Canonical { shown, result } => ReplyV::Canonical(shown@, str_result_v(*result)),
            Reply::Contents(r) => ReplyV::Contents(str_result_v(*r)),
        }
    }
}

impl View for Driver {
    type V = DriverV;

    closed spec fn view(&self) -> DriverV {
        DriverV {
            files: self.files@,
            processed: self.processed@,
            pending: self.pending@,
            funcs: funcs_v(self.funcs@),
            cur_path: self.cur_path@,
            cur_uses: uses_v(self.cur_uses@),
            next_use: self.next_use as int,
            cur_funcs: funcs_v(self.cur_funcs@),
            awaiting: match self.awaiting {
                Awaiting::Canonical(a) => AwaitV::Canonical(a),
                Awaiting::Contents(c, a) => AwaitV::Contents(c@, a),
                Awaiting::Nothing => AwaitV::Nothing,
            },
            failure: match self.failure {
                Some(e) => Some(e@),
                None => None,
            },
            finished: self.finished,
        }
    }
}

// ---------------------------------------------------------------------------
// The transitions.

pub open spec fn fail_v(d: DriverV, e: ErrorV) -> (DriverV, RequestV) {
    (DriverV { awaiting: AwaitV::Nothing, failure: Some(e), finished: true, ..d }, RequestV::Finished)
}

/// `p` grown with `false` to at least `n` entries.
pub open spec fn grow(p: Seq<bool>, n: int) -> Seq<bool> {
    if p.len() >= n {
        p
    } else {
        p + Seq::new((n - p.len()) as nat, |k: int| false)
    }
}

/// Scanning functions from the `j`-th on, `seen` holding the file of each
/// name met so far: the first function whose name was already met, with the
/// file of the earlier one.
pub open spec fn dup_scan(fs: Seq<FuncV>, j: int, seen: Map<Seq<char>, u32>) -> Option<(int, u32)>
    decreases fs.len() - j,
{
    if j < 0 || j >= fs.len() {
        None
    } else if seen.contains_key(fs[j].name) {
        Some((j, seen[fs[j].name]))
    } else {
        dup_scan(fs, j + 1, seen.insert(fs[j].name, fs[j].span.file))
    }
}

pub open spec fn dup_error(files: FileTableV, f: FuncV, prev_file: u32) -> ErrorV {
    err_at(
        f.span,
        "duplicate function `"@ + f.name + "` (also defined in "@ + files.files[prev_file as int].0 + ")"@,
    )
}

/// What the scan knows of the functions before `j`: their names are
/// distinct, and `seen` maps each to its function's file.
pub open spec fn seen_prefix(fs: Seq<FuncV>, j: int, seen: Map<Seq<char>, u32>) -> bool {
    &&& 0 <= j <= fs.len()
    &&& distinct_names(fs.take(j))
    &&& forall|k: int| 0 <= k < j ==> #[trigger] seen.contains_key(fs[k].name) && seen[fs[k].name] == fs[k].span.file
    &&& forall|n: Seq<char>| #[trigger] seen.contains_key(n) ==> exists|k: int| 0 <= k < j && fs[k].name == n
}

proof fn lemma_dup_scan(fs: Seq<FuncV>, j: int, seen: Map<Seq<char>, u32>)
    requires
        seen_prefix(fs, j, seen),
    ensures
        dup_scan(fs, j, seen) is None <==> distinct_names(fs),
        dup_scan(fs, j, seen) matches Some((m, prev)) ==> j <= m < fs.len() && distinct_names(fs.take(m))
            && exists|i: int| 0 <= i < m && fs[i].name == fs[m].name && fs[i].span.file == prev,
    decreases fs.len() - j,
{
    if j >= fs.len() {
        assert(fs.take(j) =~= fs);
    } else if seen.contains_key(fs[j].name) {
        let k = choose|k: int| 0 <= k < j && fs[k].name == fs[j].name;
        assert(fs[k].name == fs[j].name);
        assert(seen[fs[k].name] == fs[k].span.file);
    } else {
        let seen2 = seen.insert(fs[j].name, fs[j].span.file);
        assert forall|a: int, b: int| 0 <= a < b < fs.take(j + 1).len() implies
            (#[trigger] fs.take(j + 1)[a]).name != (#[trigger] fs.take(j + 1)[b]).name by {
            if b < j {
                assert(fs.take(j)[a] == fs[a] && fs.take(j)[b] == fs[b]);
            } else {
                assert(seen.contains_key(fs[a].name));
            }
        }
        assert forall|n: Seq<char>| #[trigger] seen2.contains_key(n) implies exists|k: int| 0 <= k < j + 1 && fs[k].name == n by {
            if n != fs[j].name {
                let k = choose|k: int| 0 <= k < j && fs[k].name == n;
                assert(0 <= k < j + 1 && fs[k].name == n);
            } else {
                assert(0 <= j < j + 1 && fs[j].name == n);
            }
        }
        assert forall|k: int| 0 <= k < j + 1 implies #[trigger] seen2.contains_key(fs[k].name) && seen2[fs[k].name] == fs[k].span.file by {
            if k < j {
                assert(seen.contains_key(fs[k].name));
                assert(fs.take(j)[k] == fs[k] && fs.take(j)[j - 1] == fs[j - 1]);
                assert(fs[k].name != fs[j].name);
            }
        }
        lemma_dup_scan(fs, j + 1, seen2);
        if distinct_names(fs) {
            assert forall|a: int, b: int| 0 <= a < b < fs.take(j + 1).len() implies
                (#[trigger] fs.take(j + 1)[a]).name != (#[trigger] fs.take(j + 1)[b]).name by {
                assert(fs.take(j + 1)[a] == fs[a] && fs.take(j + 1)[b] == fs[b]);
            }
        }
    }
}

/// The loader's duplicate check: the scan of a program's functions finds
/// nothing exactly when their names are distinct; where it finds something,
/// it is the first function whose name an earlier one has, and the file of
/// that earlier one.
pub proof fn law_duplicate_detection(fs: Seq<FuncV>)
    ensures
        dup_scan(fs, 0, Map::empty()) is None <==> distinct_names(fs),
        dup_scan(fs, 0, Map::empty()) matches Some((m, prev)) ==> 0 <= m < fs.len() && distinct_names(fs.take(m))
            && exists|i: int| 0 <= i < m && fs[i].name == fs[m].name && fs[i].span.file == prev,
{
    assert(fs.take(0) =~= Seq::<FuncV>::empty());
    lemma_dup_scan(fs, 0, Map::empty());
}

proof fn lemma_advance_finished(d: DriverV)
    requires
        !d.finished,
    ensures
        advance_v(d).1 is Finished <==> advance_v(d).0.finished,
    decreases d.pending.len(), 1int,
{
    if !(0 <= d.next_use < d.cur_uses.len()) {
        lemma_pop_finished(DriverV { funcs: d.funcs + d.cur_funcs, cur_funcs: Seq::empty(), cur_uses: Seq::empty(), next_use: 0, ..d });
    }
}

proof fn lemma_pop_finished(d: DriverV)
    requires
        !d.finished,
    ensures
        pop_v(d).1 is Finished <==> pop_v(d).0.finished,
    decreases d.pending.len(), 0int,
{
    if d.pending.len() > 0 {
        let id = d.pending.last();
        let processed = grow(d.processed, id + 1);
        let d1 = DriverV { pending: d.pending.drop_last(), processed, ..d };
        if processed[id as int] {
            lemma_pop_finished(d1);
        } else {
            let d2 = DriverV { processed: processed.update(id as int, true), ..d1 };
            let (path, source) = d.files.files[id as int];
            match lex(source, id) {
                Err(_) => {},
                Ok(toks) => match parse_file(toks) {
                    Err(_) => {},
                    Ok(pf) => {
                        lemma_advance_finished(
                            DriverV { cur_path: path, cur_uses: pf.uses, next_use: 0, cur_funcs: pf.funcs, ..d2 },
                        );
                    },
                },
            }
        }
    }
}

/// The loader says it is done exactly when it is: after an answer of the
/// kind it waits for, the request is `Finished` if and only if loading is
/// over (with a program or an error).
pub proof fn law_done_when_finished(d: DriverV, r: ReplyV)
    requires
        fits(d, r),
        d.finished ==> d.awaiting is Nothing,
    ensures
        step_v(d, r).1 is Finished <==> step_v(d, r).0.finished,
{
    match d.awaiting {
        AwaitV::Canonical(_) => match r {
            ReplyV::Canonical(_, Ok(c)) => match resolve_v(d.files, c) {
                (LoadStepV::Loaded(id), t) => {
                    lemma_advance_finished(DriverV { pending: with_files(d, t).pending.push(id), awaiting: AwaitV::Nothing, ..with_files(d, t) });
                },
                _ => {},
            },
            _ => {},
        },
        AwaitV::Contents(c, _) => match r {
            ReplyV::Contents(Ok(src)) => {
                let d1 = with_files(d, add_file(d.files, c, src));
                lemma_advance_finished(DriverV { pending: d1.pending.push(d.files.files.len() as u32), awaiting: AwaitV::Nothing, ..d1 });
            },
            _ => {},
        },
        AwaitV::Nothing => {},
    }
}

/// Every file is loaded: the functions' names must be unique.
pub open spec fn finish_v(d: DriverV) -> (DriverV, RequestV) {
    match dup_scan(d.funcs, 0, Map::empty()) {
        Some((j, prev)) => fail_v(d, dup_error(d.files, d.funcs[j], prev)),
        None => (DriverV { awaiting: AwaitV::Nothing, failure: None, finished: true, ..d }, RequestV::Finished),
    }
}

/// Resolve the next `use` of the current file, or move on to the next file.
pub open spec fn advance_v(d: DriverV) -> (DriverV, RequestV)
    decreases d.pending.len(), 1int,
{
    if 0 <= d.next_use < d.cur_uses.len() {
        let u = d.cur_uses[d.next_use];
        (
            DriverV { next_use: d.next_use + 1, awaiting: AwaitV::Canonical(Some(u.span)), ..d },
            RequestV::Canonicalize(Some(d.cur_path), u.path),
        )
    } else {
        pop_v(
            DriverV {
                funcs: d.funcs + d.cur_funcs,
                cur_funcs: Seq::empty(),
                cur_uses: Seq::empty(),
                next_use: 0,
                ..d
            },
        )
    }
}

/// Take the most recently found file that has not been processed yet: lex
/// and parse it, then resolve its `use` declarations.
pub open spec fn pop_v(d: DriverV) -> (DriverV, RequestV)
    decreases d.pending.len(), 0int,
{
    if d.pending.len() == 0 {
        finish_v(d)
    } else {
        let id = d.pending.last();
        let processed = grow(d.processed, id + 1);
        let d1 = DriverV { pending: d.pending.drop_last(), processed, ..d };
        if processed[id as int] {
            pop_v(d1)
        } else {
            let d2 = DriverV { processed: processed.update(id as int, true), ..d1 };
            let (path, source) = d.files.files[id as int];
            match lex(source, id) {
                Err(e) => fail_v(d2, e),
                Ok(toks) => match parse_file(toks) {
                    Err(e) => fail_v(d2, e),
                    Ok(pf) => advance_v(
                        DriverV { cur_path: path, cur_uses: pf.uses, next_use: 0, cur_funcs: pf.funcs, ..d2 },
                    ),
                },
            }
        }
    }
}

/// A file was found under `id`.
pub open spec fn got_id_v(d: DriverV, id: u32) -> (DriverV, RequestV) {
    advance_v(DriverV { pending: d.pending.push(id), awaiting: AwaitV::Nothing, ..d })
}

pub open spec fn with_files(d: DriverV, files: FileTableV) -> DriverV {
    DriverV { files, ..d }
}

/// What the loader does with an answer.
pub open spec fn step_v(d: DriverV, r: ReplyV) -> (DriverV, RequestV) {
    match d.awaiting {
        AwaitV::Canonical(at) => match r {
            ReplyV::Canonical(shown, res) => match res {
                Err(reason) => fail_v(d, read_error_v(shown, reason, at)),
                Ok(c) => match resolve_v(d.files, c) {
                    (LoadStepV::Loaded(id), t) => got_id_v(with_files(d, t), id),
                    (LoadStepV::ReadFile(p), _) => (DriverV { awaiting: AwaitV::Contents(p, at), ..d }, RequestV::Read(p)),
                },
            },
            ReplyV::Contents(_) => (d, RequestV::Finished),
        },
        AwaitV::Contents(c, at) => match r {
            ReplyV::Contents(res) => match res {
                Err(reason) => fail_v(d, read_error_v(c, reason, at)),
                Ok(src) => got_id_v(with_files(d, add_file(d.files, c, src)), d.files.files.len() as u32),
            },
            ReplyV::Canonical(_, _) => (d, RequestV::Finished),
        },
        AwaitV::Nothing => (d, RequestV::Finished),
    }
}

/// The loader's first state and request: resolve the root path.
pub open spec fn start_v(files: FileTableV, root: Seq<char>) -> (DriverV, RequestV) {
    (
        DriverV {
            files,
            processed: Seq::empty(),
            pending: Seq::empty(),
            funcs: Seq::empty(),
            cur_path: Seq::empty(),
            cur_uses: Seq::empty(),
            next_use: 0,
            cur_funcs: Seq::empty(),
            awaiting: AwaitV::Canonical(None),
            failure: None,
            finished: false,
        },
        RequestV::Canonicalize(None, root),
    )
}

/// An error whose position, if it has one, is in a file of the table.
pub open spec fn reported_in(e: ErrorV, t: FileTableV) -> bool {
    e.span matches Some(sp) ==> (sp.file as int) < t.files.len()
}

/// Sources the lexer can number lines and columns of.
pub open spec fn sources_fit(t: FileTableV) -> bool {
    &&& forall|k: int| 0 <= k < t.files.len() ==> positions_fit((#[trigger] t.files[k]).1)
    &&& forall|p: Seq<char>| #[trigger] t.overlays.contains_key(p) ==> positions_fit(t.overlays[p])
}

/// An answer of the kind the loader waits for, with contents it can lex.
pub open spec fn fits(d: DriverV, r: ReplyV) -> bool {
    &&& (d.awaiting is Canonical ==> r is Canonical)
    &&& (d.awaiting is Contents ==> r is Contents)
    &&& !(d.awaiting is Nothing)
    &&& (r matches ReplyV::Contents(Ok(src)) ==> positions_fit(src))
}

/// `p` grown with `false` entries to at least `n` entries.
fn grow_flags(p: &mut Vec<bool>, n: usize)
    ensures
        final(p)@ == grow(old(p)@, n as int),
{
    let ghost before = p@;
    while p.len() < n
        invariant
            before.len() <= p@.len(),
            p@.len() <= n || p@ == before,
            p@ == before + Seq::new((p@.len() - before.len()) as nat, |k: int| false),
        decreases n - p@.len(),
    {
        p.push(false);
        assert(p@ =~= before + Seq::new((p@.len() - before.len()) as nat, |k: int| false));
    }
    proof {
        if before.len() >= n {
            assert(p@ =~= before);
        } else {
            assert(p@ =~= grow(before, n as int));
        }
    }
}

impl Driver {
    /// The loader's own invariant: every id it holds names a loaded file,
    /// and every source can be lexed.
    pub closed spec fn wf(&self) -> bool {
        &&& forall|k: int| 0 <= k < self.pending@.len() ==> (#[trigger] self.pending@[k] as int) < self.files@.files.len()
        &&& self.processed@.len() <= self.files@.files.len()
        &&& sources_fit(self.files@)
        &&& self.next_use <= self.cur_uses@.len()
        &&& forall|j: int| 0 <= j < self@.funcs.len() ==> (#[trigger] self@.funcs[j].span.file as int) < self.files@.files.len()
        &&& forall|j: int| 0 <= j < self@.cur_funcs.len() ==> (#[trigger] self@.cur_funcs[j].span.file as int) < self.files@.files.len()
        &&& distinct_paths(self.files@.files)
        &&& (self@.awaiting matches AwaitV::Contents(c, _) ==> first_file(self.files@.files, c) is None)
        &&& forall|k: int| 0 <= k < self@.cur_uses.len() ==> (#[trigger] self@.cur_uses[k].span.file as int) < self.files@.files.len()
        &&& (self@.awaiting matches AwaitV::Canonical(Some(sp)) ==> (sp.file as int) < self.files@.files.len())
        &&& (self@.awaiting matches AwaitV::Contents(_, Some(sp)) ==> (sp.file as int) < self.files@.files.len())
        &&& (self@.failure matches Some(e) ==> reported_in(e, self.files@))
        &&& self.finished ==> self@.awaiting is Nothing
        &&& (self.finished && self.failure is None) ==> distinct_names(self@.funcs)
    }

    /// Starts loading the program rooted at `root`, with the files (and
    /// unsaved buffers) of `files`.
    pub fn start(files: FileTable, root: String) -> (r: (Driver, Request))
        requires
            sources_fit(files@),
            distinct_paths(files@.files),
        ensures
            r.0.wf(),
            (r.0@, r.1@) == start_v(files@, root@),
    {
        let d = Driver {
            files,
            processed: Vec::new(),
            pending: Vec::new(),
            funcs: Vec::new(),
            cur_path: String::new(),
            cur_uses: Vec::new(),
            next_use: 0,
            cur_funcs: Vec::new(),
            awaiting: Awaiting::Canonical(None),
            failure: None,
            finished: false,
        };
        assert(funcs_v(d.funcs@) =~= Seq::<FuncV>::empty());
        assert(funcs_v(d.cur_funcs@) =~= Seq::<FuncV>::empty());
        assert(uses_v(d.cur_uses@) =~= Seq::<UseDeclV>::empty());
        (d, Request::Canonicalize { base: None, path: root })
    }

    pub fn is_finished(&self) -> (b: bool)
        ensures
            b == self@.finished,
    {
        self.finished
    }

    /// The result of loading: the program and the file table, or the file
    /// table and the error that stopped loading.
    pub fn finish(self) -> (r: Result<(Program, FileTable), (FileTable, CompileError)>)
        ensures
            match r {
                Ok((p, t)) => self@.failure is None && funcs_v(p.funcs@) == self@.funcs && t@ == self@.files,
                Err((t, e)) => self@.failure == Some(e@) && t@ == self@.files,
            },
            self.wf() && self@.finished ==> (r matches Ok((p, _)) ==> distinct_names(funcs_v(p.funcs@))),
            self.wf() ==> distinct_paths(self@.files.files),
            self.wf() ==> (r matches Err((t, e)) ==> reported_in(e@, t@)),
    {
        match self.failure {
            Some(e) => Err((self.files, e)),
            None => Ok((Program { funcs: self.funcs }, self.files)),
        }
    }

    fn fail(&mut self, e: CompileError) -> (r: Request)
        requires
            old(self).wf(),
            reported_in(e@, old(self)@.files),
        ensures
            final(self).wf(),
            (final(self)@, r@) == fail_v(old(self)@, e@),
    {
        self.awaiting = Awaiting::Nothing;
        self.failure = Some(e);
        self.finished = true;
        Request::Finished
    }

    fn finish_dups(&mut self) -> (r: Request)
        requires
            old(self).wf(),
            !old(self)@.finished,
        ensures
            final(self).wf(),
            (final(self)@, r@) == finish_v(old(self)@),
    {
        let mut seen: Vec<(String, u32)> = Vec::new();
        let mut j: usize = 0;
        let ghost fs = self@.funcs;
        assert(crate::check::assoc(crate::check::vars_seq_u32(seen@)) =~= Map::<Seq<char>, u32>::empty());
        while j < self.funcs.len()
            invariant
                self.wf(),
                self@ == old(self)@,
                fs == self@.funcs,
                fs.len() == self.funcs@.len(),
                j <= self.funcs@.len(),
                forall|k: int| 0 <= k < seen@.len() ==> (#[trigger] seen@[k].1 as int) < self.files@.files.len(),
                dup_scan(fs, 0, Map::empty()) == dup_scan(fs, j as int, crate::check::assoc(crate::check::vars_seq_u32(seen@))),
            decreases self.funcs@.len() - j,
        {
            let f = &self.funcs[j];
            match crate::check::find_u32(&seen, &f.name) {
                Some(prev) => {
                    proof {
                        crate::check::lemma_assoc_from_entry(crate::check::vars_seq_u32(seen@), f.name@);
                    }
                    let path = &self.files.get(prev).path;
                    let mut msg = concat3("duplicate function `", f.name.as_str(), "` (also defined in ");
                    msg.append(path.as_str());
                    msg.append(")");
                    let e = CompileError::at(f.span, msg);
                    return self.fail(e);
                },
                None => {
                    assert((fs[j as int].span.file as int) < self.files@.files.len());
                    crate::check::push_u32(&mut seen, f.name.clone(), f.span.file);
                },
            }
            j = j + 1;
        }
        proof {
            law_duplicate_detection(fs);
        }
        self.awaiting = Awaiting::Nothing;
        self.failure = None;
        self.finished = true;
        Request::Finished
    }
}

impl Driver {
    /// Takes files off the pending stack until one is processed (it becomes
    /// the current file: `None`), loading stops with an error, or there is
    /// nothing left (the final check runs).
    fn pop_next(&mut self) -> (r: Option<Request>)
        requires
            old(self).wf(),
            !old(self)@.finished,
            old(self).next_use == 0,
            old(self)@.cur_uses.len() == 0,
        ensures
            final(self).wf(),
            match r {
                Some(req) => (final(self)@, req@) == pop_v(old(self)@),
                None => pop_v(old(self)@) == advance_v(final(self)@) && final(self)@.pending.len() < old(self)@.pending.len()
                    && !final(self)@.finished,
            },
    {
        loop
            invariant
                self.wf(),
                !self@.finished,
                self.next_use == 0,
                self@.cur_uses.len() == 0,
                self@.pending.len() <= old(self)@.pending.len(),
                pop_v(old(self)@) == pop_v(self@),
            decreases self@.pending.len(),
        {
            let id = match self.pending.pop() {
                None => {
                    return Some(self.finish_dups());
                },
                Some(id) => id,
            };
            assert((id as int) < self.files@.files.len());
            let loaded = self.files.len();
            assert((id as int) < loaded as int);
            grow_flags(&mut self.processed, id as usize + 1);
            if self.processed[id as usize] {
                continue;
            }
            self.processed.set(id as usize, true);
            let f = self.files.get(id);
            let path = f.path.clone();
            let source = f.source.clone();
            proof {
                law_token_positions(source@, id);
            }
            let toks = match tokenize(source.as_str(), id) {
                Ok(t) => t,
                Err(e) => {
                    return Some(self.fail(e));
                },
            };
            proof {
                lemma_lex_from_file(source@, 0, id);
                lemma_parse_file_in_file(toks_v(toks@), id);
                lemma_parse_file_spans(toks_v(toks@), id);
            }
            let pf = match parse(toks) {
                Ok(pf) => pf,
                Err(e) => {
                    return Some(self.fail(e));
                },
            };
            self.cur_path = path;
            self.cur_uses = pf.uses;
            self.next_use = 0;
            self.cur_funcs = pf.funcs;
            return None;
        }
    }

    /// Resolves the next `use` of the current file, or moves on.
    fn advance(&mut self) -> (r: Request)
        requires
            old(self).wf(),
            !old(self)@.finished,
        ensures
            final(self).wf(),
            (final(self)@, r@) == advance_v(old(self)@),
    {
        loop
            invariant
                self.wf(),
                !self@.finished,
                advance_v(old(self)@) == advance_v(self@),
            decreases self@.pending.len(),
        {
            if self.next_use < self.cur_uses.len() {
                let u = &self.cur_uses[self.next_use];
                let path = u.path.clone();
                let span = u.span;
                self.next_use = self.next_use + 1;
                self.awaiting = Awaiting::Canonical(Some(span));
                return Request::Canonicalize { base: Some(self.cur_path.clone()), path };
            }
            let ghost before = self@;
            self.funcs.append(&mut self.cur_funcs);
            self.cur_uses = Vec::new();
            self.next_use = 0;
            assert(funcs_v(self.funcs@) =~= before.funcs + before.cur_funcs);
            assert(funcs_v(self.cur_funcs@) =~= Seq::<FuncV>::empty());
            assert(uses_v(self.cur_uses@) =~= Seq::<UseDeclV>::empty());
            assert(self@ == DriverV {
                funcs: before.funcs + before.cur_funcs,
                cur_funcs: Seq::empty(),
                cur_uses: Seq::empty(),
                next_use: 0,
                ..before
            });
            match self.pop_next() {
                Some(req) => {
                    return req;
                },
                None => {},
            }
        }
    }

    fn got_id(&mut self, id: u32) -> (r: Request)
        requires
            old(self).wf(),
            !old(self)@.finished,
            (id as int) < old(self)@.files.files.len(),
        ensures
            final(self).wf(),
            (final(self)@, r@) == got_id_v(old(self)@, id),
    {
        self.pending.push(id);
        self.awaiting = Awaiting::Nothing;
        self.advance()
    }

    /// Goes on with the answer to the last request.
    pub fn step(&mut self, reply: Reply) -> (r: Request)
        requires
            old(self).wf(),
            fits(old(self)@, reply@),
        ensures
            final(self).wf(),
            (final(self)@, r@) == step_v(old(self)@, reply@),
            r@ is Finished <==> final(self)@.finished,
    {
        proof {
            law_done_when_finished(old(self)@, reply@);
        }
        let mut awaiting = Awaiting::Nothing;
        std::mem::swap(&mut awaiting, &mut self.awaiting);
        match (awaiting, reply) {
            (Awaiting::Canonical(at), Reply::Canonical { shown, result }) => match result {
                Err(reason) => {
                    let e = read_error(shown.as_str(), reason.as_str(), at);
                    self.fail(e)
                },
                Ok(c) => {
                    match self.files.load(shown.as_str(), Ok(c), at) {
                        Ok(LoadStep::Loaded(id)) => self.got_id(id),
                        Ok(LoadStep::ReadFile(p)) => {
                            let shown_path = p.clone();
                            self.awaiting = Awaiting::Contents(shown_path, at);
                            Request::Read { path: p }
                        },
                        Err(e) => self.fail(e),
                    }
                },
            },
            (Awaiting::Contents(c, at), Reply::Contents(result)) => {
                match self.files.finish_load(c, result, at) {
                    Ok(id) => {
                        self.got_id(id)
                    },
                    Err(e) => self.fail(e),
                }
            },
            (_, _) => Request::Finished,
        }
    }
}

} // verus!
