use eat::git::{dir_status, locate, parse_porcelain_z, path_of_record, read_baseline, toplevel, toplevel_args, GitErrorKind, GitInfo, GitRun, GitStep};
use std::path::PathBuf;

#[test]
fn porcelain_paths_come_back_relative_to_the_dir() {
    let out = b" M sub/a.rs\0?? sub/new/\0R  sub/b.rs\0sub/old.rs\0!! other/x\0";
    let got = parse_porcelain_z(out, "sub/");
    assert_eq!(
        got,
        vec![
            (*b" M", "a.rs".to_string()),
            (*b"??", "new/".to_string()),
            (*b"R ", "b.rs".to_string()),
        ]
    );
}

#[test]
fn a_wholly_ignored_dir_reports_itself_with_an_empty_path() {
    // From inside an ignored directory the status names the directory, not its
    // children.
    let got = parse_porcelain_z(b"!! target/\0", "target/");
    assert_eq!(got, vec![(*b"!!", String::new())]);
    let got = parse_porcelain_z(b"!! target/\0", "target/debug/deps/");
    assert_eq!(got, vec![(*b"!!", String::new())]);
}

#[test]
fn records_that_are_cut_short_are_skipped() {
    assert_eq!(parse_porcelain_z(b"", ""), vec![]);
    assert_eq!(parse_porcelain_z(b"\0 M\0 M \0 M x\0", ""), vec![(*b" M", "x".to_string())]);
    // A rename at the end has no source to skip; a copy in the middle has.
    assert_eq!(
        parse_porcelain_z(b"C  b\0a\0 M c\0R  d", ""),
        vec![(*b"C ", "b".to_string()), (*b" M", "c".to_string()), (*b"R ", "d".to_string())]
    );
    // A rename that is not staged has a source too.
    assert_eq!(parse_porcelain_z(b" R b.rs\0old.rs\0", ""), vec![(*b" R", "b.rs".to_string())]);
    assert_eq!(
        parse_porcelain_z(b"AC b\0R  d\0MR c\0 M x\0 M y\0", ""),
        vec![(*b"AC", "b".to_string()), (*b"MR", "c".to_string()), (*b" M", "y".to_string())]
    );
    // Bytes that are no text are replaced, as the standard library does.
    let want = String::from_utf8_lossy(b"a\xff\xc3").into_owned();
    assert_eq!(parse_porcelain_z(b"?? a\xff\xc3\0", ""), vec![(*b"??", want)]);
    // Another directory whose name merely begins alike is not above.
    assert_eq!(parse_porcelain_z(b"!! targ/\0!! targ\0", "target/"), vec![]);
}

fn info() -> GitInfo {
    GitInfo { repo_root: PathBuf::from("/repo"), rel_path: "src/a b.rs".to_string() }
}

fn strings(v: &[&str]) -> Vec<String> {
    v.iter().map(|s| s.to_string()).collect()
}

#[test]
fn a_baseline_is_committed_or_else_staged() {
    match read_baseline(&info(), vec![]) {
        GitStep::Run(args) => assert_eq!(args, strings(&["show", "HEAD:src/a b.rs"])),
        GitStep::Done(r) => panic!("{r:?}"),
    }
    match read_baseline(&info(), vec![GitRun::Output(b"x".to_vec())]) {
        GitStep::Done(r) => assert_eq!(r.unwrap(), b"x"),
        GitStep::Run(args) => panic!("{args:?}"),
    }
    match read_baseline(&info(), vec![GitRun::Failed]) {
        GitStep::Run(args) => assert_eq!(args, strings(&["show", ":src/a b.rs"])),
        GitStep::Done(r) => panic!("{r:?}"),
    }
    match read_baseline(&info(), vec![GitRun::Failed, GitRun::Output(b"y".to_vec())]) {
        GitStep::Done(r) => assert_eq!(r.unwrap(), b"y"),
        GitStep::Run(args) => panic!("{args:?}"),
    }
}

#[test]
fn a_baseline_for_a_missing_file_is_an_error() {
    match read_baseline(&info(), vec![GitRun::Failed, GitRun::Failed]) {
        GitStep::Done(Err(e)) => {
            assert_eq!(e.kind, GitErrorKind::NotFound);
            assert_eq!(e.text, ":src/a b.rs missing");
        }
        other => panic!("{other:?}"),
    }
    match read_baseline(&info(), vec![GitRun::Failed, GitRun::Unavailable("no git".to_string())]) {
        GitStep::Done(Err(e)) => {
            assert_eq!(e.kind, GitErrorKind::Unavailable);
            assert_eq!(e.text, "no git");
        }
        other => panic!("{other:?}"),
    }
}

#[test]
fn a_dir_outside_any_repo_has_no_status() {
    match dir_status(vec![GitRun::Failed]) {
        GitStep::Done(Err(e)) => {
            assert_eq!(e.kind, GitErrorKind::NotFound);
            assert_eq!(e.text, "not a git repo");
        }
        other => panic!("{other:?}"),
    }
}

#[test]
fn the_status_of_a_dir_takes_two_runs() {
    match dir_status(vec![]) {
        GitStep::Run(args) => assert_eq!(args, strings(&["rev-parse", "--show-prefix"])),
        GitStep::Done(r) => panic!("{r:?}"),
    }
    match dir_status(vec![GitRun::Output(b"sub/\n\n".to_vec())]) {
        GitStep::Run(args) => {
            assert_eq!(args, strings(&["status", "--porcelain=v1", "-z", "--ignored", "--", "."]))
        }
        GitStep::Done(r) => panic!("{r:?}"),
    }
    match dir_status(vec![GitRun::Output(b"sub/\n".to_vec()), GitRun::Output(b" M sub/x\0".to_vec())]) {
        GitStep::Done(r) => assert_eq!(r.unwrap(), vec![(*b" M", "x".to_string())]),
        GitStep::Run(args) => panic!("{args:?}"),
    }
    match dir_status(vec![GitRun::Output(vec![0xff])]) {
        GitStep::Done(Err(e)) => {
            assert_eq!(e.kind, GitErrorKind::InvalidData);
            assert_eq!(e.text, "non-utf8 prefix");
        }
        other => panic!("{other:?}"),
    }
    match dir_status(vec![GitRun::Output(vec![]), GitRun::Unavailable("gone".to_string())]) {
        GitStep::Done(Err(e)) => assert_eq!(e.text, "gone"),
        other => panic!("{other:?}"),
    }
}

#[test]
fn a_file_is_located_below_the_toplevel() {
    assert_eq!(toplevel_args(), strings(&["rev-parse", "--show-toplevel"]));
    assert_eq!(toplevel(GitRun::Output(b" /repo\n".to_vec())).unwrap(), "/repo");
    assert_eq!(toplevel(GitRun::Failed).unwrap_err().text, "not a git repo");
    assert_eq!(toplevel(GitRun::Output(vec![0x80])).unwrap_err().text, "non-utf8 toplevel");
    assert_eq!(toplevel(GitRun::Unavailable("x".to_string())).unwrap_err().text, "x");
    for (root, path) in [("/repo", "/repo/a/b.rs"), ("/repo", "/repo"), ("/", "/a"), ("/", "/"), ("/re", "/repo"), ("/repo", "/r")] {
        let got = locate(PathBuf::from(root), root.as_bytes(), path.as_bytes());
        match std::path::Path::new(path).strip_prefix(root) {
            Ok(rel) => {
                let info = got.unwrap();
                assert_eq!(info.repo_root, PathBuf::from(root));
                assert_eq!(info.rel_path, rel.to_str().unwrap());
            }
            Err(_) => {
                let e = got.unwrap_err();
                assert_eq!(e.kind, GitErrorKind::InvalidData);
                assert_eq!(e.text, "path outside repo");
            }
        }
    }
    let e = locate(PathBuf::from("/repo"), b"/repo", b"/repo/\xff").unwrap_err();
    assert_eq!(e.text, "non-utf8 rel path");
}

#[test]
fn a_path_is_taken_relative_to_the_dir() {
    assert_eq!(path_of_record("a/b", "a/"), Some("b".to_string()));
    assert_eq!(path_of_record("a/", "a/"), Some(String::new()));
    assert_eq!(path_of_record("a/", "a/b/"), Some(String::new()));
    assert_eq!(path_of_record("a", "a/b/"), None);
    assert_eq!(path_of_record("b", "a/"), None);
    assert_eq!(path_of_record("b", ""), Some("b".to_string()));
}

#[test]
fn a_location_can_be_cloned() {
    let copy = info().clone();
    assert_eq!((copy.repo_root, copy.rel_path), (info().repo_root, info().rel_path));
}
