use beer::driver::{Driver, Reply, Request};
use beer::source::{read_error, FileTable, LoadStep};
use beer::span::Span;

#[test]
fn new_table_is_empty() {
    let t = FileTable::new();
    assert_eq!(t.len(), 0);
}

#[test]
fn file_on_disk_must_be_read_then_gets_the_next_id() {
    let mut t = FileTable::new();
    match t.load("main.beer", Ok("/p/main.beer".to_string()), None).unwrap() {
        LoadStep::ReadFile(p) => assert_eq!(p, "/p/main.beer"),
        LoadStep::Loaded(_) => panic!("nothing is loaded yet"),
    }
    assert_eq!(t.len(), 0);
    let id = t.finish_load("/p/main.beer".to_string(), Ok("fn main() {}".to_string()), None).unwrap();
    assert_eq!(id, 0);
    let f = t.get(0);
    assert_eq!(f.path, "/p/main.beer");
    assert_eq!(f.source, "fn main() {}");
}

#[test]
fn loading_the_same_file_again_gives_the_same_id() {
    let mut t = FileTable::new();
    t.finish_load("/p/a.beer".to_string(), Ok("a".to_string()), None).unwrap();
    t.finish_load("/p/b.beer".to_string(), Ok("b".to_string()), None).unwrap();
    match t.load("./b.beer", Ok("/p/b.beer".to_string()), None).unwrap() {
        LoadStep::Loaded(id) => assert_eq!(id, 1),
        LoadStep::ReadFile(_) => panic!("already loaded"),
    }
    assert_eq!(t.len(), 2);
}

#[test]
fn overlay_stands_in_for_the_disk() {
    let mut t = FileTable::new();
    t.set_overlay("/p/main.beer".to_string(), "fn main() { print(1) }".to_string());
    match t.load("main.beer", Ok("/p/main.beer".to_string()), None).unwrap() {
        LoadStep::Loaded(id) => {
            assert_eq!(id, 0);
            assert_eq!(t.get(id).source, "fn main() { print(1) }");
        }
        LoadStep::ReadFile(_) => panic!("the buffer is used"),
    }
    assert_eq!(t.overlay(&"/p/main.beer".to_string()).as_deref(), Some("fn main() { print(1) }"));
    assert_eq!(t.overlay(&"/p/other.beer".to_string()), None);
}

#[test]
fn later_overlay_replaces_earlier() {
    let mut t = FileTable::new();
    t.set_overlay("/p/x".to_string(), "old".to_string());
    t.set_overlay("/p/x".to_string(), "new".to_string());
    assert_eq!(t.overlay(&"/p/x".to_string()).as_deref(), Some("new"));
}

#[test]
fn unresolvable_path_reports_how_it_was_written() {
    let mut t = FileTable::new();
    let at = Span::new(0, 1, 1);
    let e = t.load("/p/missing.beer", Err("No such file or directory (os error 2)".to_string()), Some(at)).unwrap_err();
    assert_eq!(e.msg, "cannot read /p/missing.beer: No such file or directory (os error 2)");
    assert_eq!(e.span, Some(at));
    assert_eq!(t.len(), 0);
}

#[test]
fn unreadable_file_reports_its_canonical_path() {
    let mut t = FileTable::new();
    let e = t.finish_load("/p/locked.beer".to_string(), Err("Permission denied (os error 13)".to_string()), None).unwrap_err();
    assert_eq!(e.msg, "cannot read /p/locked.beer: Permission denied (os error 13)");
    assert_eq!(e.span, None);
}

#[test]
fn read_error_text() {
    let e = read_error("a.beer", "gone", None);
    assert_eq!(e.msg, "cannot read a.beer: gone");
}

/// Answers the loader's requests from an in-memory set of files, where a
/// path written in a `use` is resolved against the directory `/p`.
fn run(files: &[(&str, &str)], root: &str) -> (Result<Vec<String>, (u32, u32, String)>, Vec<String>) {
    let (mut d, mut req) = Driver::start(FileTable::new(), root.to_string());
    let mut log = Vec::new();
    loop {
        let reply = match req {
            Request::Finished => break,
            Request::Canonicalize { base, path } => {
                log.push(format!("resolve {} from {:?}", path, base));
                let full = if path.starts_with('/') { path.clone() } else { format!("/p/{}", path) };
                if files.iter().any(|(p, _)| *p == full) {
                    Reply::Canonical { shown: full.clone(), result: Ok(full) }
                } else {
                    Reply::Canonical { shown: full, result: Err("No such file or directory".to_string()) }
                }
            }
            Request::Read { path } => {
                log.push(format!("read {}", path));
                let text = files.iter().find(|(p, _)| *p == path).map(|(_, s)| s.to_string());
                Reply::Contents(text.ok_or_else(|| "gone".to_string()))
            }
        };
        req = d.step(reply);
    }
    assert!(d.is_finished());
    let r = match d.finish() {
        Ok((prog, _)) => Ok(prog.funcs.iter().map(|f| f.name.clone()).collect()),
        Err((_, e)) => {
            let s = e.span.unwrap_or(Span::new(0, 0, 0));
            Err((s.file, s.line, e.msg))
        }
    };
    (r, log)
}

#[test]
fn single_file_program() {
    let (r, log) = run(&[("/p/main.beer", "fn main() {}\nfn helper() {}")], "main.beer");
    assert_eq!(r, Ok(vec!["main".to_string(), "helper".to_string()]));
    assert_eq!(log, vec!["resolve main.beer from None".to_string(), "read /p/main.beer".to_string()]);
}

#[test]
fn used_files_are_loaded_once_and_their_functions_follow() {
    let files = [
        ("/p/main.beer", "use \"a.beer\"\nuse \"b.beer\"\nfn main() {}"),
        ("/p/a.beer", "use \"b.beer\"\nfn fa() {}"),
        ("/p/b.beer", "fn fb() {}"),
    ];
    let (r, log) = run(&files, "main.beer");
    assert_eq!(r, Ok(vec!["main".to_string(), "fb".to_string(), "fa".to_string()]));
    assert_eq!(log.iter().filter(|l| l.starts_with("read /p/b.beer")).count(), 1);
    assert_eq!(log.iter().filter(|l| l.starts_with("read")).count(), 3);
    assert!(log.contains(&"resolve a.beer from Some(\"/p/main.beer\")".to_string()));
}

#[test]
fn a_file_using_itself_is_fine() {
    let (r, _) = run(&[("/p/main.beer", "use \"main.beer\"\nfn main() {}")], "main.beer");
    assert_eq!(r, Ok(vec!["main".to_string()]));
}

#[test]
fn duplicate_function_across_files() {
    let files = [("/p/main.beer", "use \"lib.beer\"\nfn helper() {}"), ("/p/lib.beer", "\nfn helper() {}")];
    let (r, _) = run(&files, "main.beer");
    assert_eq!(r, Err((1, 2, "duplicate function `helper` (also defined in /p/main.beer)".to_string())));
}

#[test]
fn missing_used_file_is_reported_at_the_use() {
    let (r, _) = run(&[("/p/main.beer", "fn f() {}\n")], "main.beer");
    assert_eq!(r, Ok(vec!["f".to_string()]));
    let (r, _) = run(&[("/p/main.beer", "\n  use \"nope.beer\"\nfn main() {}")], "main.beer");
    assert_eq!(r, Err((0, 2, "cannot read /p/nope.beer: No such file or directory".to_string())));
}

#[test]
fn missing_root_is_reported_without_position() {
    let (r, _) = run(&[], "main.beer");
    assert_eq!(r, Err((0, 0, "cannot read /p/main.beer: No such file or directory".to_string())));
}

#[test]
fn syntax_error_in_used_file_names_that_file() {
    let files = [("/p/main.beer", "use \"lib.beer\"\nfn main() {}"), ("/p/lib.beer", "fn broken( {}")];
    let (r, _) = run(&files, "main.beer");
    assert_eq!(r, Err((1, 1, "expected identifier, got `{`".to_string())));
}

#[test]
fn lexer_error_in_root_file() {
    let (r, _) = run(&[("/p/main.beer", "fn main() { # }")], "main.beer");
    assert_eq!(r, Err((0, 1, "unexpected character: '#'".to_string())));
}

#[test]
fn overlay_is_compiled_instead_of_the_disk_file() {
    let mut t = FileTable::new();
    t.set_overlay("/p/main.beer".to_string(), "fn edited() {}".to_string());
    let (mut d, req) = Driver::start(t, "main.beer".to_string());
    assert!(matches!(req, Request::Canonicalize { base: None, .. }));
    let req = d.step(Reply::Canonical { shown: "/p/main.beer".to_string(), result: Ok("/p/main.beer".to_string()) });
    assert!(matches!(req, Request::Finished));
    let (prog, files) = d.finish().ok().unwrap();
    assert_eq!(prog.funcs.len(), 1);
    assert_eq!(prog.funcs[0].name, "edited");
    assert_eq!(files.get(0).source, "fn edited() {}");
}

#[test]
fn loading_keeps_earlier_files_in_place() {
    let mut t = FileTable::new();
    t.finish_load("/p/a.beer".to_string(), Ok("a".to_string()), None).unwrap();
    t.set_overlay("/p/b.beer".to_string(), "b".to_string());
    match t.load("b.beer", Ok("/p/b.beer".to_string()), None).unwrap() {
        LoadStep::Loaded(id) => assert_eq!(id, 1),
        LoadStep::ReadFile(_) => panic!("the buffer is used"),
    }
    assert_eq!(t.len(), 2);
    assert_eq!(t.get(0).path, "/p/a.beer");
    assert_eq!(t.get(0).source, "a");
    assert_eq!(t.find(&"/p/b.beer".to_string()), Some(1));
    assert_eq!(t.find(&"/p/c.beer".to_string()), None);
}

#[test]
fn paths_of_a_table() {
    let mut t = FileTable::new();
    assert!(t.paths_distinct());
    t.add("/p/a".to_string(), "1".to_string());
    t.add("/p/b".to_string(), "2".to_string());
    assert!(t.paths_distinct());
    t.add("/p/a".to_string(), "3".to_string());
    assert!(!t.paths_distinct());
}

#[test]
fn loader_error_positions_name_a_loaded_file() {
    let files = [("/p/main.beer", "use \"lib.beer\"\nfn main() {}"), ("/p/lib.beer", "fn broken(")];
    let (mut d, mut req) = Driver::start(FileTable::new(), "main.beer".to_string());
    loop {
        let reply = match req {
            Request::Finished => break,
            Request::Canonicalize { path, .. } => {
                let full = format!("/p/{}", path);
                Reply::Canonical { shown: full.clone(), result: Ok(full) }
            }
            Request::Read { path } => {
                Reply::Contents(Ok(files.iter().find(|(p, _)| *p == path).unwrap().1.to_string()))
            }
        };
        req = d.step(reply);
    }
    match d.finish() {
        Err((t, e)) => {
            let s = e.span.unwrap();
            assert!((s.file as usize) < t.len());
            assert_eq!(s.file, 1);
            assert_eq!(e.msg, "expected identifier, got end of file");
        }
        Ok(_) => panic!("lib.beer does not parse"),
    }
}
