use vstd::prelude::*;

use crate::check::assoc;
use crate::error::{err_at, err_plain, CompileError, ErrorV};
use crate::span::Span;
use crate::text::concat3;

verus! {

/// A loaded source file: its canonical path and its text.
#[derive(Debug)]
pub struct LoadedFile {
    pub path: String,
    pub source: String,
}

/// The files of a program, numbered in the order they were loaded, and the
/// unsaved editor buffers that stand in for files on disk.
#[derive(Debug)]
pub struct FileTable {
    files: Vec<LoadedFile>,
    overlays: Vec<(String, String)>,
}

pub struct FileTableV {
    pub files: Seq<(Seq<char>, Seq<char>)>,
    pub overlays: Map<Seq<char>, Seq<char>>,
}

pub open spec fn files_seq(v: Seq<LoadedFile>) -> Seq<(Seq<char>, Seq<char>)> {
    v.map_values(|f: LoadedFile| (f.path@, f.source@))
}

pub open spec fn pairs_seq(v: Seq<(String, String)>) -> Seq<(Seq<char>, Seq<char>)> {
    v.map_values(|p: (String, String)| (p.0@, p.1@))
}

impl View for FileTable {
    type V = FileTableV;

    closed spec fn view(&self) -> FileTableV {
        FileTableV { files: files_seq(self.files@), overlays: assoc(pairs_seq(self.overlays@)) }
    }
}

/// The index of the first file loaded from `path`, if any.
pub open spec fn first_file(files: Seq<(Seq<char>, Seq<char>)>, path: Seq<char>) -> Option<int> {
    if exists|k: int| 0 <= k < files.len() && files[k].0 == path {
        Some(choose|k: int| 0 <= k < files.len() && files[k].0 == path && forall|j: int| 0 <= j < k ==> files[j].0 != path)
    } else {
        None
    }
}

/// The message for a file that cannot be read.
pub open spec fn read_error_v(shown: Seq<char>, reason: Seq<char>, reported_at: Option<Span>) -> ErrorV {
    let msg = "cannot read "@ + shown + ": "@ + reason;
    match reported_at {
        Some(s) => err_at(s, msg),
        None => err_plain(msg),
    }
}

/// The error for a file that cannot be read: `cannot read PATH: REASON`,
/// reported at the `use` that named it, if any.
pub fn read_error(shown: &str, reason: &str, reported_at: Option<Span>) -> (e: CompileError)
    ensures
        e@ == read_error_v(shown@, reason@, reported_at),
{
    let mut msg = concat3("cannot read ", shown, ": ");
    msg.append(reason);
    match reported_at {
        Some(s) => CompileError::at(s, msg),
        None => CompileError::new(msg),
    }
}

/// What loading a file needs next.
#[derive(Debug)]
pub enum LoadStep {
    /// The file is in the table under this id.
    Loaded(u32),
    /// The file must be read from disk, at this canonical path.
    ReadFile(String),
}

pub enum LoadStepV {
    Loaded(u32),
    ReadFile(Seq<char>),
}

impl View for LoadStep {
    type V = LoadStepV;

    open spec fn view(&self) -> LoadStepV {
        match self {
            LoadStep::Loaded(id) => LoadStepV::Loaded(*id),
            LoadStep::ReadFile(p) => LoadStepV::ReadFile(p@),
        }
    }
}

/// The table with an unsaved buffer `source` registered for `canonical`.
pub open spec fn overlay_v(t: FileTableV, canonical: Seq<char>, source: Seq<char>) -> FileTableV {
    FileTableV { files: t.files, overlays: t.overlays.insert(canonical, source) }
}

/// The table with the file `path` of text `source` added at the end.
pub open spec fn add_file(t: FileTableV, path: Seq<char>, source: Seq<char>) -> FileTableV {
    FileTableV { files: t.files.push((path, source)), overlays: t.overlays }
}

/// Looking up the file at `canonical`: a file already loaded keeps its id
/// and the table is unchanged; an unsaved buffer is added as the next file;
/// otherwise the file must be read, and the table is unchanged.
pub open spec fn resolve_v(t: FileTableV, canonical: Seq<char>) -> (LoadStepV, FileTableV) {
    match first_file(t.files, canonical) {
        Some(k) => (LoadStepV::Loaded(k as u32), t),
        None => if t.overlays.contains_key(canonical) {
            (LoadStepV::Loaded(t.files.len() as u32), add_file(t, canonical, t.overlays[canonical]))
        } else {
            (LoadStepV::ReadFile(canonical), t)
        },
    }
}

proof fn lemma_first_witness(files: Seq<(Seq<char>, Seq<char>)>, path: Seq<char>, n: int)
    requires
        0 <= n < files.len(),
        files[n].0 == path,
    ensures
        exists|k: int| 0 <= k < files.len() && files[k].0 == path && forall|j: int| 0 <= j < k ==> files[j].0 != path,
    decreases n,
{
    if exists|j: int| 0 <= j < n && files[j].0 == path {
        let j = choose|j: int| 0 <= j < n && files[j].0 == path;
        lemma_first_witness(files, path, j);
    } else {
        assert(forall|j: int| 0 <= j < n ==> files[j].0 != path);
    }
}

/// What [`first_file`] gives: the first index holding `path`, if any.
proof fn lemma_first_file(files: Seq<(Seq<char>, Seq<char>)>, path: Seq<char>)
    ensures
        first_file(files, path) matches Some(k) ==> 0 <= k < files.len() && files[k].0 == path
            && forall|j: int| 0 <= j < k ==> files[j].0 != path,
        first_file(files, path) is None ==> forall|j: int| 0 <= j < files.len() ==> files[j].0 != path,
{
    if exists|k: int| 0 <= k < files.len() && files[k].0 == path {
        let n = choose|k: int| 0 <= k < files.len() && files[k].0 == path;
        lemma_first_witness(files, path, n);
    }
}

proof fn lemma_first_file_push(files: Seq<(Seq<char>, Seq<char>)>, x: (Seq<char>, Seq<char>), path: Seq<char>)
    ensures
        first_file(files, path) matches Some(k) ==> first_file(files.push(x), path) == Some(k),
        first_file(files, path) is None && x.0 == path ==> first_file(files.push(x), path) == Some(files.len() as int),
{
    let f2 = files.push(x);
    lemma_first_file(files, path);
    lemma_first_file(f2, path);
    if first_file(files, path) is Some {
        let k = first_file(files, path).unwrap();
        assert(f2[k] == files[k]);
        assert(0 <= k < f2.len() && f2[k].0 == path);
        let k2 = choose|k2: int| 0 <= k2 < f2.len() && f2[k2].0 == path && forall|j: int| 0 <= j < k2 ==> f2[j].0 != path;
        if k2 < k {
            assert(files[k2] == f2[k2]);
        } else if k < k2 {
            assert(f2[k].0 != path);
        }
    } else if x.0 == path {
        let n = files.len() as int;
        assert(f2[n].0 == path);
        assert forall|j: int| 0 <= j < n implies f2[j].0 != path by {
            assert(f2[j] == files[j]);
        }
        let k2 = choose|k2: int| 0 <= k2 < f2.len() && f2[k2].0 == path && forall|j: int| 0 <= j < k2 ==> f2[j].0 != path;
        if k2 < n {
            assert(f2[k2] == files[k2]);
            assert(0 <= k2 < files.len() && files[k2].0 == path);
        }
    }
}

/// An unsaved buffer stands in for the file on disk: once `source` is
/// registered for a path that is not loaded yet, loading that path adds it
/// as the next file, with that text, and asks for no disk read.
pub proof fn law_overlay_is_read(t: FileTableV, canonical: Seq<char>, source: Seq<char>)
    requires
        first_file(t.files, canonical) is None,
    ensures
        resolve_v(overlay_v(t, canonical, source), canonical)
            == (LoadStepV::Loaded(t.files.len() as u32), add_file(overlay_v(t, canonical, source), canonical, source)),
{
}

/// A file is loaded once: loading a path that was loaded gives the same id
/// again and leaves the table as it is.
pub proof fn law_load_once(t: FileTableV, canonical: Seq<char>)
    ensures
        resolve_v(t, canonical).0 matches LoadStepV::Loaded(id)
            ==> resolve_v(resolve_v(t, canonical).1, canonical) == (LoadStepV::Loaded(id), resolve_v(t, canonical).1),
{
    if first_file(t.files, canonical) is None && t.overlays.contains_key(canonical) {
        lemma_first_file_push(t.files, (canonical, t.overlays[canonical]), canonical);
    }
}

/// A file read from disk is found again: once its text is added, loading
/// its path gives the new file's id and leaves the table as it is.
pub proof fn law_read_then_found(t: FileTableV, canonical: Seq<char>, source: Seq<char>)
    requires
        first_file(t.files, canonical) is None,
    ensures
        resolve_v(add_file(t, canonical, source), canonical)
            == (LoadStepV::Loaded(t.files.len() as u32), add_file(t, canonical, source)),
{
    lemma_first_file_push(t.files, (canonical, source), canonical);
}

/// Loading never renumbers: the files already in the table keep their
/// places and texts, and the unsaved buffers stay as they are.
pub proof fn law_load_keeps_files(t: FileTableV, canonical: Seq<char>)
    ensures
        resolve_v(t, canonical).1.files.take(t.files.len() as int) == t.files,
        resolve_v(t, canonical).1.overlays == t.overlays,
        resolve_v(t, canonical).1.files.len() <= t.files.len() + 1,
{
    assert(resolve_v(t, canonical).1.files.take(t.files.len() as int) =~= t.files);
}

/// Once a path is loaded, it keeps its id: loading any path, adding a
/// file read from disk for a path not yet loaded, or registering a buffer
/// leaves the path's first file where it was, and loading the path itself
/// gives that id without changing the table.
pub proof fn law_id_stays(t: FileTableV, c: Seq<char>, k: int, other: Seq<char>, source: Seq<char>)
    requires
        first_file(t.files, c) == Some(k),
    ensures
        first_file(resolve_v(t, other).1.files, c) == Some(k),
        first_file(add_file(t, other, source).files, c) == Some(k),
        first_file(overlay_v(t, other, source).files, c) == Some(k),
        resolve_v(t, c) == (LoadStepV::Loaded(k as u32), t),
{
    lemma_first_file_push(t.files, (other, source), c);
    if first_file(t.files, other) is None && t.overlays.contains_key(other) {
        lemma_first_file_push(t.files, (other, t.overlays[other]), c);
    }
}

/// No two files of the table come from one path.
pub open spec fn distinct_paths(files: Seq<(Seq<char>, Seq<char>)>) -> bool {
    forall|i: int, j: int| 0 <= i < j < files.len() ==> (#[trigger] files[i]).0 != (#[trigger] files[j]).0
}

/// Loading keeps the files' paths distinct (a file read from disk is added
/// only for a path not loaded yet), and where they are distinct, each
/// file's id is its place: ids are handed out 0, 1, 2, ... in the order of
/// first load.
pub proof fn law_paths_distinct(t: FileTableV, c: Seq<char>, source: Seq<char>)
    requires
        distinct_paths(t.files),
    ensures
        distinct_paths(resolve_v(t, c).1.files),
        distinct_paths(overlay_v(t, c, source).files),
        first_file(t.files, c) is None ==> distinct_paths(add_file(t, c, source).files),
        forall|i: int| 0 <= i < t.files.len() ==> first_file(t.files, #[trigger] t.files[i].0) == Some(i),
{
    lemma_first_file(t.files, c);
    assert forall|i: int| 0 <= i < t.files.len() implies first_file(t.files, #[trigger] t.files[i].0) == Some(i) by {
        lemma_first_file(t.files, t.files[i].0);
        let k = first_file(t.files, t.files[i].0).unwrap();
        if k < i {
            assert(t.files[k].0 == t.files[i].0);
        }
    }
    if first_file(t.files, c) is None {
        let f2 = t.files.push((c, source));
        assert forall|i: int, j: int| 0 <= i < j < f2.len() implies (#[trigger] f2[i]).0 != (#[trigger] f2[j]).0 by {
            if j < t.files.len() {
                assert(f2[i] == t.files[i] && f2[j] == t.files[j]);
            } else {
                assert(f2[i] == t.files[i]);
            }
        }
        if t.overlays.contains_key(c) {
            let f3 = t.files.push((c, t.overlays[c]));
            assert forall|i: int, j: int| 0 <= i < j < f3.len() implies (#[trigger] f3[i]).0 != (#[trigger] f3[j]).0 by {
                if j < t.files.len() {
                    assert(f3[i] == t.files[i] && f3[j] == t.files[j]);
                } else {
                    assert(f3[i] == t.files[i]);
                }
            }
        }
    }
}

/// Truncating an index to 32 bits never makes it larger.
pub proof fn lemma_trunc_le(x: usize)
    ensures
        (x as u32) as int <= x as int,
{
    assert(x as u32 <= x) by (bit_vector);
}

impl FileTable {
    pub fn new() -> (t: FileTable)
        ensures
            t@.files == Seq::<(Seq<char>, Seq<char>)>::empty(),
            t@.overlays == Map::<Seq<char>, Seq<char>>::empty(),
    {
        let t = FileTable { files: Vec::new(), overlays: Vec::new() };
        assert(files_seq(t.files@) =~= Seq::<(Seq<char>, Seq<char>)>::empty());
        assert(pairs_seq(t.overlays@) =~= Seq::<(Seq<char>, Seq<char>)>::empty());
        t
    }

    /// Registers an unsaved editor buffer for the file at `canonical`: a
    /// later load of that path takes `source` instead of the disk contents.
    pub fn set_overlay(&mut self, canonical: String, source: String)
        ensures
            final(self)@ == overlay_v(old(self)@, canonical@, source@),
    {
        let ghost c = canonical@;
        let ghost src = source@;
        self.overlays.push((canonical, source));
        assert(pairs_seq(self.overlays@).drop_last() =~= pairs_seq(old(self).overlays@));
        assert(files_seq(self.files@) == files_seq(old(self).files@));
        assert(self@.overlays =~= old(self)@.overlays.insert(c, src));
    }

    pub fn len(&self) -> (n: usize)
        ensures
            n == self@.files.len(),
    {
        self.files.len()
    }

    /// The file with id `id`.
    pub fn get(&self, id: u32) -> (f: &LoadedFile)
        requires
            id < self@.files.len(),
        ensures
            (f.path@, f.source@) == self@.files[id as int],
    {
        &self.files[id as usize]
    }

    /// Whether no two files of the table come from one path.
    pub fn paths_distinct(&self) -> (b: bool)
        ensures
            b == distinct_paths(self@.files),
    {
        let n = self.files.len();
        let mut j: usize = 0;
        while j < n
            invariant
                n == self.files@.len(),
                j <= n,
                files_seq(self.files@) == self@.files,
                forall|a: int, b: int| 0 <= a < b < j ==> (#[trigger] self@.files[a]).0 != (#[trigger] self@.files[b]).0,
            decreases n - j,
        {
            let mut i: usize = 0;
            while i < j
                invariant
                    n == self.files@.len(),
                    i <= j < n,
                    files_seq(self.files@) == self@.files,
                    forall|a: int| 0 <= a < i ==> (#[trigger] self@.files[a]).0 != self@.files[j as int].0,
                decreases j - i,
            {
                if self.files[i].path.eq(&self.files[j].path) {
                    assert(self@.files[i as int].0 == self@.files[j as int].0);
                    return false;
                }
                i = i + 1;
            }
            j = j + 1;
        }
        true
    }

    /// The id of the file loaded from `canonical`, if it was loaded.
    pub fn find(&self, canonical: &String) -> (r: Option<u32>)
        ensures
            match first_file(self@.files, canonical@) {
                Some(k) => r == Some(k as u32),
                None => r is None,
            },
            r matches Some(id) ==> (id as int) < self@.files.len(),
    {
        let mut i: usize = 0;
        while i < self.files.len()
            invariant
                i <= self.files@.len(),
                files_seq(self.files@) == self@.files,
                forall|j: int| 0 <= j < i ==> self@.files[j].0 != canonical@,
            decreases self.files@.len() - i,
        {
            if self.files[i].path.eq(canonical) {
                let ghost k = choose|k: int|
                    0 <= k < self@.files.len() && self@.files[k].0 == canonical@ && forall|j: int|
                        0 <= j < k ==> self@.files[j].0 != canonical@;
                assert(self@.files[i as int].0 == canonical@);
                assert(k == i) by {
                    if k < i {
                        assert(self@.files[k].0 != canonical@);
                    } else if k > i {
                        assert(self@.files[i as int].0 != canonical@);
                    }
                }
                proof {
                    lemma_trunc_le(i);
                }
                return Some(i as u32);
            }
            i = i + 1;
        }
        None
    }

    /// The unsaved buffer registered for `canonical`, if any.
    pub fn overlay(&self, canonical: &String) -> (r: Option<String>)
        ensures
            r is Some == self@.overlays.contains_key(canonical@),
            r is Some ==> r.unwrap()@ == self@.overlays[canonical@],
    {
        let mut i = self.overlays.len();
        while i > 0
            invariant
                i <= self.overlays@.len(),
                forall|j: int| i <= j < self.overlays@.len() ==> pairs_seq(self.overlays@)[j].0 != canonical@,
            decreases i,
        {
            if self.overlays[i - 1].0.eq(canonical) {
                proof {
                    crate::check::lemma_assoc_hit(pairs_seq(self.overlays@), i - 1, canonical@);
                }
                return Some(self.overlays[i - 1].1.clone());
            }
            i = i - 1;
        }
        proof {
            crate::check::lemma_assoc_skip(pairs_seq(self.overlays@), 0, canonical@);
        }
        None
    }

    /// Adds a file; its id is the number of files before it (as a `u32`).
    pub fn add(&mut self, canonical: String, source: String) -> (id: u32)
        ensures
            id == old(self)@.files.len() as u32,
            (id as int) < final(self)@.files.len(),
            final(self)@ == add_file(old(self)@, canonical@, source@),
    {
        #[verifier::truncate]
        let id = self.files.len() as u32;
        proof {
            lemma_trunc_le(self.files@.len() as usize);
        }
        self.files.push(LoadedFile { path: canonical, source });
        assert(files_seq(self.files@) =~= files_seq(old(self).files@).push((self.files@.last().path@, self.files@.last().source@)));
        id
    }

    /// The first half of loading a file: `shown` is how the path was written,
    /// `canonical` the result of resolving it on disk (or the reason it could
    /// not be). A file already in the table keeps its id; an unsaved buffer
    /// is added; otherwise the file must be read.
    pub fn load(&mut self, shown: &str, canonical: Result<String, String>, reported_at: Option<Span>) -> (r: Result<LoadStep, CompileError>)
        ensures
            match canonical {
                Err(reason) => r matches Err(e) && e@ == read_error_v(shown@, reason@, reported_at)
                    && final(self)@ == old(self)@,
                Ok(c) => r matches Ok(st) && (st@, final(self)@) == resolve_v(old(self)@, c@),
            },
            r matches Ok(LoadStep::Loaded(id)) ==> (id as int) < final(self)@.files.len(),
    {
        match canonical {
            Err(reason) => Err(read_error(shown, reason.as_str(), reported_at)),
            Ok(c) => {
                if let Some(id) = self.find(&c) {
                    return Ok(LoadStep::Loaded(id));
                }
                match self.overlay(&c) {
                    Some(src) => {
                        let id = self.add(c, src);
                        Ok(LoadStep::Loaded(id))
                    },
                    None => Ok(LoadStep::ReadFile(c)),
                }
            },
        }
    }

    /// The second half of loading a file: the contents read from disk at
    /// `canonical`, or the reason they could not be read.
    pub fn finish_load(&mut self, canonical: String, contents: Result<String, String>, reported_at: Option<Span>) -> (r: Result<u32, CompileError>)
        ensures
            match contents {
                Err(reason) => r matches Err(e) && e@ == read_error_v(canonical@, reason@, reported_at)
                    && final(self)@ == old(self)@,
                Ok(src) => r == Ok::<u32, CompileError>(old(self)@.files.len() as u32)
                    && final(self)@ == add_file(old(self)@, canonical@, src@),
            },
            r matches Ok(id) ==> (id as int) < final(self)@.files.len(),
    {
        match contents {
            Err(reason) => Err(read_error(canonical.as_str(), reason.as_str(), reported_at)),
            Ok(src) => Ok(self.add(canonical, src)),
        }
    }
}

} // verus!
