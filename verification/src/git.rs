//! What git is asked, and what its answers mean: baselines for the gutter
//! diff, and per-path status for the directory listing.
//!
//! Git runs as a program, in the directory that a question is about. Each
//! question here is a step from the answers so far to the next arguments to run
//! it with, or to the result; a missing program is just one of the answers.
use crate::text::{
    after_prefix,
    begins_with,
    chars_begin_with,
    chars_of,
    first_at,
    lemma_first_at_is,
    split,
    string_between,
    string_of,
    strip_prefix,
    texts,
    trim,
    trim_chars,
};
use std::path::PathBuf;
use vstd::prelude::*;
use vstd::string::StringExecFns;
use vstd::utf8::{decode_utf8, encode_scalar, encode_utf8, valid_utf8};

verus! {

/// `std::path::PathBuf`, carried through and never looked into.
#[verifier::external_type_specification]
#[verifier::external_body]
pub struct ExPathBuf(PathBuf);

/// `PathBuf`'s `clone` of the standard library. Of the copy nothing is claimed.
pub assume_specification[ <PathBuf as Clone>::clone ](path: &PathBuf) -> PathBuf
;

/// A file in a repository: the toplevel, and the file's path from there.
#[derive(Debug, Clone)]
pub struct GitInfo {
    pub repo_root: PathBuf,
    pub rel_path: String,
}

/// What came of running git.
#[derive(Debug)]
pub enum GitRun {
    /// The program could not be run, for the reason given.
    Unavailable(String),
    /// It exited with a failure.
    Failed,
    /// It succeeded and printed these bytes.
    Output(Vec<u8>),
}

/// What sort of error an answer is.
#[derive(Debug, Clone, Copy, PartialEq, Eq, Structural)]
pub enum GitErrorKind {
    Unavailable,
    NotFound,
    InvalidData,
}

/// Why a question has no answer.
#[derive(Debug)]
pub struct GitError {
    pub kind: GitErrorKind,
    pub text: String,
}

impl View for GitError {
    type V = (GitErrorKind, Seq<char>);

    open spec fn view(&self) -> (GitErrorKind, Seq<char>) {
        (self.kind, self.text@)
    }
}

/// What to do next about a question.
#[derive(Debug)]
pub enum GitStep<T> {
    /// Run git with these arguments, and come back with the answer.
    Run(Vec<String>),
    /// This is the result.
    Done(Result<T, GitError>),
}

/// What is done next, as a value of the model.
pub ghost enum Next<T> {
    Run(Seq<Seq<char>>),
    Done(Result<T, (GitErrorKind, Seq<char>)>),
}

/// `std::str::from_utf8` of the standard library: the text that the bytes
/// encode, where they are valid UTF-8, and none otherwise.
#[verifier::external_body]
fn utf8_text(bytes: &[u8]) -> (r: Option<String>)
    ensures
        match r {
            Some(s) => valid_utf8(bytes@) && s@ == decode_utf8(bytes@),
            None => !valid_utf8(bytes@),
        },
{
    std::str::from_utf8(bytes).ok().map(str::to_string)
}

/// The text that `String::from_utf8_lossy` gives for some bytes.
pub uninterp spec fn lossy_text(bytes: Seq<u8>) -> Seq<char>;

/// `String::from_utf8_lossy` of the standard library: the text that the bytes
/// encode, where they are valid UTF-8. What it puts in place of other bytes is
/// left unsaid.
#[verifier::external_body]
fn lossy_utf8_text(bytes: &[u8]) -> (s: String)
    ensures
        s@ == lossy_text(bytes@),
        valid_utf8(bytes@) ==> s@ == decode_utf8(bytes@),
{
    String::from_utf8_lossy(bytes).into_owned()
}

/// The text of a path: what its bytes encode, and for others what
/// `String::from_utf8_lossy` gives.
pub open spec fn path_text(bytes: Seq<u8>) -> Seq<char> {
    if valid_utf8(bytes) {
        decode_utf8(bytes)
    } else {
        lossy_text(bytes)
    }
}

/// The bytes that a run printed, or why there are none; `failure` is what its
/// failing means.
pub open spec fn printed(run: GitRun, failure: Seq<char>) -> Result<
    Seq<u8>,
    (GitErrorKind, Seq<char>),
> {
    match run {
        GitRun::Unavailable(e) => Err((GitErrorKind::Unavailable, e@)),
        GitRun::Failed => Err((GitErrorKind::NotFound, failure)),
        GitRun::Output(bytes) => Ok(bytes@),
    }
}

/// The bytes that a run printed, or why there are none.
fn stdout_of(run: GitRun, failure: &str) -> (r: Result<Vec<u8>, GitError>)
    ensures
        match r {
            Ok(bytes) => printed(run, failure@) == Ok::<_, (GitErrorKind, Seq<char>)>(bytes@),
            Err(e) => printed(run, failure@) == Err::<Seq<u8>, _>(e@),
        },
{
    match run {
        GitRun::Unavailable(text) => Err(GitError { kind: GitErrorKind::Unavailable, text }),
        GitRun::Failed => Err(
            GitError { kind: GitErrorKind::NotFound, text: failure.to_owned() },
        ),
        GitRun::Output(bytes) => Ok(bytes),
    }
}

fn invalid_data(text: &str) -> (e: GitError)
    ensures
        e@ == (GitErrorKind::InvalidData, text@),
{
    GitError { kind: GitErrorKind::InvalidData, text: text.to_owned() }
}

/// The toplevel that a run of `rev-parse --show-toplevel` names.
pub open spec fn toplevel_named(run: GitRun) -> Result<Seq<char>, (GitErrorKind, Seq<char>)> {
    match printed(run, "not a git repo"@) {
        Err(e) => Err(e),
        Ok(bytes) => if valid_utf8(bytes) {
            Ok(trim(decode_utf8(bytes)))
        } else {
            Err((GitErrorKind::InvalidData, "non-utf8 toplevel"@))
        },
    }
}

/// The arguments that ask for the toplevel of a repository.
pub fn toplevel_args() -> (args: Vec<String>)
    ensures
        texts(args@) == seq!["rev-parse"@, "--show-toplevel"@],
{
    let args = vec!["rev-parse".to_owned(), "--show-toplevel".to_owned()];
    assert(texts(args@) =~= seq!["rev-parse"@, "--show-toplevel"@]);
    args
}

/// The toplevel that a run of `rev-parse --show-toplevel` names.
pub fn toplevel(run: GitRun) -> (r: Result<String, GitError>)
    ensures
        match r {
            Ok(root) => toplevel_named(run) == Ok::<_, (GitErrorKind, Seq<char>)>(root@),
            Err(e) => toplevel_named(run) == Err::<Seq<char>, _>(e@),
        },
{
    match stdout_of(run, "not a git repo") {
        Err(e) => Err(e),
        Ok(bytes) => match utf8_text(bytes.as_slice()) {
            Some(s) => Ok(string_of(trim_chars(chars_of(s.as_str()).as_slice()).as_slice())),
            None => Err(invalid_data("non-utf8 toplevel")),
        },
    }
}

/// The path from `root` down to `path`, both absolute and resolved; none where
/// `path` lies elsewhere.
pub open spec fn path_below(path: Seq<u8>, root: Seq<u8>) -> Option<Seq<u8>> {
    if path == root {
        Some(Seq::empty())
    } else if root == seq![47u8] && begins_with(path, root) {
        Some(path.skip(1))
    } else if begins_with(path, root.push(47)) {
        Some(path.skip(root.len() as int + 1))
    } else {
        None
    }
}

/// Where a file lies in its repository.
pub open spec fn rel_path_of(path: Seq<u8>, root: Seq<u8>) -> Result<
    Seq<char>,
    (GitErrorKind, Seq<char>),
> {
    match path_below(path, root) {
        None => Err((GitErrorKind::InvalidData, "path outside repo"@)),
        Some(rel) => if valid_utf8(rel) {
            Ok(decode_utf8(rel))
        } else {
            Err((GitErrorKind::InvalidData, "non-utf8 rel path"@))
        },
    }
}

/// Whether the bytes of `s` begin with those of `p`.
fn bytes_begin_with(s: &[u8], p: &[u8]) -> (r: bool)
    ensures
        r == begins_with(s@, p@),
{
    if p.len() > s.len() {
        return false;
    }
    for i in 0..p.len()
        invariant
            p@.len() <= s@.len(),
            forall|j: int| 0 <= j < i ==> s@[j] == p@[j],
    {
        if s[i] != p[i] {
            assert(s@.take(p@.len() as int)[i as int] != p@[i as int]);
            return false;
        }
    }
    assert(s@.take(p@.len() as int) =~= p@);
    true
}

/// Where a file lies in its repository: `root` is the toplevel, `root_bytes`
/// and `path_bytes` are the bytes of the toplevel and of the file's own path,
/// both absolute and resolved.
pub fn locate(root: PathBuf, root_bytes: &[u8], path_bytes: &[u8]) -> (r: Result<
    GitInfo,
    GitError,
>)
    ensures
        match r {
            Ok(info) => info.repo_root == root && rel_path_of(path_bytes@, root_bytes@) == Ok::<
                _,
                (GitErrorKind, Seq<char>),
            >(info.rel_path@),
            Err(e) => rel_path_of(path_bytes@, root_bytes@) == Err::<Seq<char>, _>(e@),
        },
{
    let ghost path = path_bytes@;
    let ghost top = root_bytes@;
    if !bytes_begin_with(path_bytes, root_bytes) {
        proof {
            assert(path.take(path.len() as int) == path);
            if begins_with(path, top.push(47)) {
                assert(path.take(top.len() as int) =~= path.take(top.len() as int + 1).take(
                    top.len() as int,
                ));
                assert(top.push(47).take(top.len() as int) =~= top);
            }
        }
        return Err(invalid_data("path outside repo"));
    }
    let from: usize = if path_bytes.len() == root_bytes.len() {
        assert(path.take(top.len() as int) =~= path);
        path_bytes.len()
    } else if root_bytes.len() == 1 && root_bytes[0] == 47 {
        assert(top =~= seq![47u8]);
        1
    } else if path_bytes[root_bytes.len()] == 47 {
        assert(path.take(top.len() as int + 1) =~= path.take(top.len() as int).push(47));
        root_bytes.len() + 1
    } else {
        proof {
            if begins_with(path, top.push(47)) {
                assert(path.take(top.len() as int + 1)[top.len() as int] == top.push(47)[top.len() as int]);
            }
        }
        return Err(invalid_data("path outside repo"));
    };
    let rel = &path_bytes[from..path_bytes.len()];
    assert(Some(rel@) == path_below(path, top)) by {
        assert(rel@ =~= path.skip(from as int));
        if path == top {
            assert(rel@ =~= Seq::<u8>::empty());
        }
    }
    match utf8_text(rel) {
        Some(rel_path) => Ok(GitInfo { repo_root: root, rel_path }),
        None => Err(invalid_data("non-utf8 rel path")),
    }
}

/// The bytes of the object that `name` names, as a run of `show` printed them.
pub open spec fn blob_shown(run: GitRun, name: Seq<char>) -> Result<
    Seq<u8>,
    (GitErrorKind, Seq<char>),
> {
    printed(run, name + " missing"@)
}

/// The committed file, or else the staged one, which a new file has: what to do
/// next after the given runs of `show`.
pub open spec fn baseline_next(rel_path: Seq<char>, runs: Seq<GitRun>) -> Next<Seq<u8>> {
    let head = "HEAD:"@ + rel_path;
    let staged = ":"@ + rel_path;
    if runs.len() == 0 {
        Next::Run(seq!["show"@, head])
    } else if blob_shown(runs[0], head) is Ok {
        Next::Done(blob_shown(runs[0], head))
    } else if runs.len() == 1 {
        Next::Run(seq!["show"@, staged])
    } else {
        Next::Done(blob_shown(runs[1], staged))
    }
}

/// Whether a step is the one that the model takes.
pub open spec fn baseline_takes(step: GitStep<Vec<u8>>, next: Next<Seq<u8>>) -> bool {
    match (step, next) {
        (GitStep::Run(args), Next::Run(a)) => texts(args@) == a,
        (GitStep::Done(Ok(bytes)), Next::Done(Ok(b))) => bytes@ == b,
        (GitStep::Done(Err(e)), Next::Done(Err(f))) => e@ == f,
        _ => false,
    }
}

fn show_args(name: String) -> (args: Vec<String>)
    ensures
        texts(args@) == seq!["show"@, name@],
{
    let args = vec!["show".to_owned(), name];
    assert(texts(args@) =~= seq!["show"@, name@]);
    args
}

/// The bytes of the object that `name` names, from a run of `show`.
fn show_blob(run: GitRun, name: &str) -> (r: Result<Vec<u8>, GitError>)
    ensures
        match r {
            Ok(bytes) => blob_shown(run, name@) == Ok::<_, (GitErrorKind, Seq<char>)>(bytes@),
            Err(e) => blob_shown(run, name@) == Err::<Seq<u8>, _>(e@),
        },
{
    let mut failure = name.to_owned();
    failure.append(" missing");
    stdout_of(run, failure.as_str())
}

/// Reads the baseline of a file: `HEAD:<path>` first, then `:<path>` (the
/// staged file, for one that is not committed yet). `runs` is what came of the
/// steps so far.
pub fn read_baseline(info: &GitInfo, runs: Vec<GitRun>) -> (step: GitStep<Vec<u8>>)
    ensures
        baseline_takes(step, baseline_next(info.rel_path@, runs@)),
{
    let mut head = "HEAD:".to_owned();
    head.append(info.rel_path.as_str());
    let mut staged = ":".to_owned();
    staged.append(info.rel_path.as_str());
    if runs.len() == 0 {
        return GitStep::Run(show_args(head));
    }
    let mut rest = runs;
    let first = rest.remove(0);
    if let Ok(bytes) = show_blob(first, head.as_str()) {
        return GitStep::Done(Ok(bytes));
    }
    if rest.len() == 0 {
        return GitStep::Run(show_args(staged));
    }
    let second = rest.remove(0);
    GitStep::Done(show_blob(second, staged.as_str()))
}

/// The status of a path: the two status letters, and the path.
pub type Status = ([u8; 2], String);

/// The statuses as values of the model.
pub open spec fn statuses(v: Seq<Status>) -> Seq<(Seq<u8>, Seq<char>)> {
    v.map_values(|s: Status| (s.0@, s.1@))
}

/// What a record of the status says about the directory at `prefix`: the path
/// below the directory; or the empty path, where the record speaks of a
/// directory that holds it.
pub open spec fn record_path(path: Seq<char>, prefix: Seq<char>) -> Option<Seq<char>> {
    match after_prefix(path, prefix) {
        Some(rel) => Some(rel),
        None => if path.len() > 0 && path.last() == '/' && begins_with(prefix, path) {
            Some(Seq::empty())
        } else {
            None
        },
    }
}

/// Whether the letters of a status name a rename or a copy: staged or not.
pub open spec fn is_move(xy: Seq<u8>) -> bool {
    xy[0] == 82 || xy[0] == 67 || xy[1] == 82 || xy[1] == 67
}

/// What the records from the `i`th on say about the directory at `prefix`. A
/// rename or a copy is followed by a second record, which holds the source.
pub open spec fn records_from(records: Seq<Seq<u8>>, i: int, prefix: Seq<char>) -> Seq<
    (Seq<u8>, Seq<char>),
>
    decreases records.len() - i + 1,
{
    if i >= records.len() {
        Seq::empty()
    } else if records[i].len() < 4 {
        records_from(records, i + 1, prefix)
    } else {
        let rec = records[i];
        let next = if is_move(rec) {
            i + 2
        } else {
            i + 1
        };
        match record_path(path_text(rec.skip(3)), prefix) {
            Some(rel) => seq![(rec.take(2), rel)] + records_from(records, next, prefix),
            None => records_from(records, next, prefix),
        }
    }
}

/// What a status output says about the directory at `prefix`.
pub open spec fn porcelain(out: Seq<u8>, prefix: Seq<char>) -> Seq<(Seq<u8>, Seq<char>)> {
    records_from(split(out, 0u8), 0, prefix)
}

/// The position of the first zero byte in `s` from `from` on, or the length.
fn record_end(s: &[u8], from: usize) -> (i: usize)
    requires
        from <= s@.len(),
    ensures
        i == from + first_at(s@.skip(from as int), 0u8),
        from <= i <= s@.len(),
        i < s@.len() ==> s@[i as int] == 0,
{
    let mut i: usize = from;
    while i < s.len() && s[i] != 0
        invariant
            from <= i <= s@.len(),
            forall|j: int| from <= j < i ==> s@[j] != 0,
        decreases s@.len() - i,
    {
        i += 1;
    }
    proof {
        let rest = s@.skip(from as int);
        assert forall|j: int| 0 <= j < i - from implies rest[j] != 0u8 by {
            assert(rest[j] == s@[from + j]);
        }
        if i < s@.len() {
            assert(rest[i - from] == s@[i as int]);
        }
        lemma_first_at_is(rest, 0u8, i - from);
    }
    i
}

/// The pieces of `s` between zero bytes.
fn split_records(s: &[u8]) -> (v: Vec<Vec<u8>>)
    ensures
        v@.map_values(|r: Vec<u8>| r@) == split(s@, 0u8),
{
    let mut v: Vec<Vec<u8>> = Vec::new();
    let mut start: usize = 0;
    let ghost bytes = |r: Vec<u8>| r@;
    assert(s@.skip(0) == s@);
    loop
        invariant
            start <= s@.len(),
            bytes == (|r: Vec<u8>| r@),
            v@.map_values(bytes) + split(s@.skip(start as int), 0u8) == split(s@, 0u8),
        decreases s@.len() - start,
    {
        let end = record_end(s, start);
        let ghost rest = s@.skip(start as int);
        let ghost before = v@;
        let piece = copy_bytes(&s[start..end]);
        assert(piece@ == rest.take(end - start));
        v.push(piece);
        assert(v@.map_values(bytes) == before.map_values(bytes).push(piece@));
        if end == s.len() {
            assert(rest.take(end - start) == rest);
            assert(v@.map_values(bytes) == before.map_values(bytes) + seq![rest]);
            return v;
        }
        assert(rest.skip(end - start + 1) == s@.skip(end + 1));
        assert(v@.map_values(bytes) + split(s@.skip(end + 1), 0u8) == before.map_values(bytes) + (
        seq![rest.take(end - start)] + split(s@.skip(end + 1), 0u8)));
        start = end + 1;
    }
}

/// A copy of the bytes.
fn copy_bytes(s: &[u8]) -> (v: Vec<u8>)
    ensures
        v@ == s@,
{
    let mut v: Vec<u8> = Vec::new();
    for i in 0..s.len()
        invariant
            v@ == s@.take(i as int),
    {
        v.push(s[i]);
        assert(s@.take(i + 1) == s@.take(i as int).push(s@[i as int]));
    }
    assert(s@.take(s@.len() as int) == s@);
    v
}

/// What a record's path says about the directory at `prefix`.
pub fn path_of_record(path: &str, prefix: &str) -> (r: Option<String>)
    ensures
        match r {
            Some(rel) => record_path(path@, prefix@) == Some(rel@),
            None => record_path(path@, prefix@) is None,
        },
{
    if let Some(rel) = strip_prefix(path, prefix) {
        return Some(rel);
    }
    let p = chars_of(path);
    if p.len() > 0 && p[p.len() - 1] == '/' && chars_begin_with(
        chars_of(prefix).as_slice(),
        p.as_slice(),
    ) {
        return Some(String::new());
    }
    None
}

/// Reads a status output, `git status --porcelain=v1 -z`. Its paths start at
/// the toplevel wherever it ran, so `prefix`, the directory's own path from
/// there, is taken off.
pub fn parse_porcelain_z(out: &[u8], prefix: &str) -> (v: Vec<Status>)
    ensures
        statuses(v@) == porcelain(out@, prefix@),
{
    let records = split_records(out);
    let ghost recs = records@.map_values(|r: Vec<u8>| r@);
    let mut v: Vec<Status> = Vec::new();
    let mut i: usize = 0;
    while i < records.len()
        invariant
            recs == records@.map_values(|r: Vec<u8>| r@),
            statuses(v@) + records_from(recs, i as int, prefix@) == porcelain(out@, prefix@),
        decreases records@.len() - i,
    {
        let rec = &records[i];
        assert(recs[i as int] == rec@);
        if rec.len() < 4 {
            i += 1;
        } else {
            let xy = [rec[0], rec[1]];
            assert(xy@ =~= rec@.take(2));
            let moved = rec[0] == 82 || rec[0] == 67 || rec[1] == 82 || rec[1] == 67;
            let next: usize = if moved {
                if i + 1 < records.len() {
                    i + 2
                } else {
                    i + 1
                }
            } else {
                i + 1
            };
            let path = lossy_utf8_text(&rec.as_slice()[3..rec.len()]);
            assert(rec@.subrange(3, rec@.len() as int) =~= rec@.skip(3));
            let ghost before = v@;
            let ghost done = statuses(before);
            let ghost tail = records_from(recs, next as int, prefix@);
            assert(i + 1 >= recs.len() ==> records_from(recs, i + 2, prefix@) == tail);
            match path_of_record(path.as_str(), prefix) {
                Some(rel) => {
                    v.push((xy, rel));
                    assert(statuses(v@) =~= done.push((xy@, rel@)));
                    assert(statuses(v@) + tail =~= done + (seq![(xy@, rel@)] + tail));
                },
                None => {},
            }
            i = next;
        }
    }
    v
}

/// The text without the newlines at its end.
pub open spec fn without_newlines(s: Seq<char>) -> Seq<char>
    decreases s.len(),
{
    if s.len() > 0 && s.last() == '\n' {
        without_newlines(s.drop_last())
    } else {
        s
    }
}

fn trim_newlines(s: &str) -> (r: String)
    ensures
        r@ == without_newlines(s@),
{
    let chars = chars_of(s);
    let mut n: usize = chars.len();
    assert(s@.take(s@.len() as int) == s@);
    while n > 0 && chars[n - 1] == '\n'
        invariant
            n <= chars@.len(),
            chars@ == s@,
            without_newlines(s@.take(n as int)) == without_newlines(s@),
        decreases n,
    {
        assert(s@.take(n as int).drop_last() == s@.take(n - 1));
        n -= 1;
    }
    assert(s@.take(n as int) == s@.subrange(0, n as int));
    string_between(chars.as_slice(), 0, n)
}

/// The status of everything under a directory, ignored paths too: what to do
/// next after the given runs.
pub open spec fn status_next(runs: Seq<GitRun>) -> Next<Seq<(Seq<u8>, Seq<char>)>> {
    let failure = "not a git repo"@;
    if runs.len() == 0 {
        Next::Run(seq!["rev-parse"@, "--show-prefix"@])
    } else {
        match printed(runs[0], failure) {
            Err(e) => Next::Done(Err(e)),
            Ok(prefix) => if !valid_utf8(prefix) {
                Next::Done(Err((GitErrorKind::InvalidData, "non-utf8 prefix"@)))
            } else if runs.len() == 1 {
                Next::Run(
                    seq!["status"@, "--porcelain=v1"@, "-z"@, "--ignored"@, "--"@, "."@],
                )
            } else {
                match printed(runs[1], failure) {
                    Err(e) => Next::Done(Err(e)),
                    Ok(out) => Next::Done(Ok(porcelain(out, without_newlines(decode_utf8(prefix))))),
                }
            },
        }
    }
}

/// Whether a step is the one that the model takes.
pub open spec fn status_takes(
    step: GitStep<Vec<Status>>,
    next: Next<Seq<(Seq<u8>, Seq<char>)>>,
) -> bool {
    match (step, next) {
        (GitStep::Run(args), Next::Run(a)) => texts(args@) == a,
        (GitStep::Done(Ok(v)), Next::Done(Ok(s))) => statuses(v@) == s,
        (GitStep::Done(Err(e)), Next::Done(Err(f))) => e@ == f,
        _ => false,
    }
}

/// `git status --porcelain` for everything under a directory, ignored paths
/// included, as status letters and paths relative to the directory. An empty
/// path means that the directory itself carries the status: it sits in a
/// wholly untracked or ignored tree, which git reports as the tree's root
/// alone. `runs` is what came of the steps so far.
pub fn dir_status(runs: Vec<GitRun>) -> (step: GitStep<Vec<Status>>)
    ensures
        status_takes(step, status_next(runs@)),
{
    if runs.len() == 0 {
        let args = vec!["rev-parse".to_owned(), "--show-prefix".to_owned()];
        assert(texts(args@) =~= seq!["rev-parse"@, "--show-prefix"@]);
        return GitStep::Run(args);
    }
    let mut rest = runs;
    let prefix = match stdout_of(rest.remove(0), "not a git repo") {
        Err(e) => {
            return GitStep::Done(Err(e));
        },
        Ok(bytes) => match utf8_text(bytes.as_slice()) {
            Some(s) => trim_newlines(s.as_str()),
            None => {
                return GitStep::Done(Err(invalid_data("non-utf8 prefix")));
            },
        },
    };
    if rest.len() == 0 {
        let args = vec![
            "status".to_owned(),
            "--porcelain=v1".to_owned(),
            "-z".to_owned(),
            "--ignored".to_owned(),
            "--".to_owned(),
            ".".to_owned(),
        ];
        assert(texts(args@) =~= seq![
            "status"@,
            "--porcelain=v1"@,
            "-z"@,
            "--ignored"@,
            "--"@,
            "."@,
        ]);
        return GitStep::Run(args);
    }
    match stdout_of(rest.remove(0), "not a git repo") {
        Err(e) => GitStep::Done(Err(e)),
        Ok(out) => GitStep::Done(Ok(parse_porcelain_z(out.as_slice(), prefix.as_str()))),
    }
}

/// A status that git reports for a path below a directory: the letters, the
/// path from the directory, and where a file was renamed or copied from.
pub ghost struct Report {
    pub xy: Seq<u8>,
    pub rel: Seq<char>,
    pub source: Seq<u8>,
}

/// Whether bytes can stand in a record, which a zero byte ends.
pub open spec fn without_zeros(bytes: Seq<u8>) -> bool {
    forall|i: int| 0 <= i < bytes.len() ==> #[trigger] bytes[i] != 0
}

/// A report of a path below the directory at `prefix`, as git makes it: two
/// letters, and paths without zero characters.
pub open spec fn reportable(r: Report, prefix: Seq<char>) -> bool {
    let path = prefix + r.rel;
    &&& r.xy.len() == 2
    &&& without_zeros(r.xy)
    &&& path.len() > 0
    &&& forall|i: int| 0 <= i < path.len() ==> #[trigger] path[i] != '\0'
    &&& without_zeros(r.source)
}

/// The record that reports a status: the letters, a space, and the path from
/// the toplevel.
pub open spec fn record_of(r: Report, prefix: Seq<char>) -> Seq<u8> {
    r.xy + seq![32u8] + encode_utf8(prefix + r.rel)
}

/// The output that makes reports: their records, each ended by a zero byte, and
/// after a rename or a copy a record of where it is from.
pub open spec fn output_of(reports: Seq<Report>, prefix: Seq<char>) -> Seq<u8>
    decreases reports.len(),
{
    if reports.len() == 0 {
        Seq::empty()
    } else {
        let rest = output_of(reports.drop_first(), prefix);
        record_of(reports[0], prefix) + seq![0u8] + (if is_move(reports[0].xy) {
            reports[0].source + seq![0u8] + rest
        } else {
            rest
        })
    }
}

/// The statuses of reports.
pub open spec fn reported(reports: Seq<Report>) -> Seq<(Seq<u8>, Seq<char>)> {
    reports.map_values(|r: Report| (r.xy, r.rel))
}

proof fn lemma_no_zero_bytes(ch: char)
    requires
        ch != '\0',
    ensures
        forall|i: int|
            0 <= i < encode_scalar(ch as u32).len() ==> #[trigger] encode_scalar(ch as u32)[i] != 0,
{
    let c = ch as u32;
    assert(0 < c <= 0x7f ==> (c & 0x7f) as u8 != 0) by (bit_vector);
    let two = ((c >> 6) & 0x1f) as u8;
    let three = ((c >> 12) & 0x0f) as u8;
    let four = ((c >> 18) & 0x7) as u8;
    assert(0xc0u8 | two != 0) by (bit_vector);
    assert(0xe0u8 | three != 0) by (bit_vector);
    assert(0xf0u8 | four != 0) by (bit_vector);
    let a = (c & 0x3f) as u8;
    let b = ((c >> 6) & 0x3f) as u8;
    let d = ((c >> 12) & 0x3f) as u8;
    assert(0x80u8 | a != 0) by (bit_vector);
    assert(0x80u8 | b != 0) by (bit_vector);
    assert(0x80u8 | d != 0) by (bit_vector);
}

proof fn lemma_no_zero_in_text(s: Seq<char>)
    requires
        forall|i: int| 0 <= i < s.len() ==> #[trigger] s[i] != '\0',
    ensures
        forall|i: int| 0 <= i < encode_utf8(s).len() ==> #[trigger] encode_utf8(s)[i] != 0,
        s.len() <= encode_utf8(s).len(),
    decreases s.len(),
{
    if s.len() > 0 {
        let rest = s.drop_first();
        assert forall|i: int| 0 <= i < rest.len() implies #[trigger] rest[i] != '\0' by {
            assert(rest[i] == s[i + 1]);
        }
        lemma_no_zero_in_text(rest);
        assert(s[0] != '\0');
        let first = encode_scalar(s[0] as u32);
        lemma_no_zero_bytes(s[0]);
        assert forall|i: int| 0 <= i < encode_utf8(s).len() implies #[trigger] encode_utf8(s)[i]
            != 0 by {
            if i < first.len() {
                assert(encode_utf8(s)[i] == first[i]);
            } else {
                assert(encode_utf8(s)[i] == encode_utf8(rest)[i - first.len()]);
            }
        }
    }
}

proof fn lemma_records_shift(first: Seq<u8>, records: Seq<Seq<u8>>, i: int, prefix: Seq<char>)
    requires
        i >= 0,
    ensures
        records_from(seq![first] + records, i + 1, prefix) == records_from(records, i, prefix),
    decreases records.len() - i + 1,
{
    let all = seq![first] + records;
    if i < records.len() {
        assert(all[i + 1] == records[i]);
        lemma_records_shift(first, records, i + 1, prefix);
        lemma_records_shift(first, records, i + 2, prefix);
    }
}

proof fn lemma_split_first(rec: Seq<u8>, rest: Seq<u8>)
    requires
        without_zeros(rec),
    ensures
        split(rec + seq![0u8] + rest, 0u8) == seq![rec] + split(rest, 0u8),
{
    let out = rec + seq![0u8] + rest;
    assert forall|i: int| 0 <= i < rec.len() implies out[i] != 0u8 by {
        assert(out[i] == rec[i]);
    }
    lemma_first_at_is(out, 0u8, rec.len() as int);
    assert(out.take(rec.len() as int) =~= rec);
    assert(out.skip(rec.len() as int + 1) =~= rest);
}

/// What git reports is what is read: the output that reports statuses of paths
/// below a directory reads back as those statuses, in order, with the paths
/// relative to the directory.
pub proof fn what_git_reports_is_read_back(reports: Seq<Report>, prefix: Seq<char>)
    requires
        forall|i: int| 0 <= i < reports.len() ==> reportable(#[trigger] reports[i], prefix),
    ensures
        porcelain(output_of(reports, prefix), prefix) == reported(reports),
    decreases reports.len(),
{
    let out = output_of(reports, prefix);
    if reports.len() == 0 {
        assert(split(out, 0u8) =~= seq![out]);
        reveal_with_fuel(records_from, 3);
        assert(porcelain(out, prefix) =~= reported(reports));
    } else {
        let first = reports[0];
        let others = reports.drop_first();
        assert forall|i: int| 0 <= i < others.len() implies reportable(
            #[trigger] others[i],
            prefix,
        ) by {
            assert(others[i] == reports[i + 1]);
        }
        what_git_reports_is_read_back(others, prefix);
        assert(reportable(reports[0], prefix));
        let path = prefix + first.rel;
        let bytes = encode_utf8(path);
        let rec = record_of(first, prefix);
        lemma_no_zero_in_text(path);
        assert forall|i: int| 0 <= i < rec.len() implies #[trigger] rec[i] != 0 by {
            if i >= 3 {
                assert(rec[i] == bytes[i - 3]);
            } else if i < 2 {
                assert(rec[i] == first.xy[i]);
            }
        }
        let rest = output_of(others, prefix);
        let records = split(rest, 0u8);
        if is_move(first.xy) {
            lemma_split_first(first.source, rest);
            lemma_split_first(rec, first.source + seq![0u8] + rest);
            lemma_records_shift(rec, seq![first.source] + records, 1, prefix);
            lemma_records_shift(first.source, records, 0, prefix);
        } else {
            lemma_split_first(rec, rest);
            lemma_records_shift(rec, records, 0, prefix);
        }
        let all = split(out, 0u8);
        assert(all[0] == rec);
        assert(rec[0] == first.xy[0] && rec[1] == first.xy[1]);
        assert(rec.skip(3) =~= bytes);
        assert(rec.take(2) =~= first.xy);
        vstd::utf8::encode_utf8_valid_utf8(path);
        vstd::utf8::encode_utf8_decode_utf8(path);
        assert(path_text(rec.skip(3)) == path);
        assert(path.take(prefix.len() as int) =~= prefix);
        assert(path.skip(prefix.len() as int) =~= first.rel);
        assert(record_path(path, prefix) == Some(first.rel));
        assert(seq![(first.xy, first.rel)] + reported(others) =~= reported(reports));
    }
}

/// A record about a directory above, as git reports one that is wholly
/// untracked or ignored, speaks of the listed directory itself.
pub proof fn a_directory_above_speaks_of_the_directory_itself(path: Seq<char>, prefix: Seq<char>)
    requires
        path.len() > 0,
        path.last() == '/',
        begins_with(prefix, path),
    ensures
        record_path(path, prefix) == Some(Seq::<char>::empty()),
{
    if begins_with(path, prefix) {
        assert(path.len() == prefix.len());
        assert(path.skip(prefix.len() as int) =~= Seq::<char>::empty());
    }
}

/// A rename or a copy has its letter in either column, and nothing else is one.
pub proof fn what_a_rename_or_a_copy_is(xy: Seq<u8>)
    ensures
        is_move(xy) <==> xy[0] == 'R' as u8 || xy[0] == 'C' as u8 || xy[1] == 'R' as u8 || xy[1]
            == 'C' as u8,
{
}

proof fn lemma_output_is_its_pieces(
    reports: Seq<Report>,
    prefix: Seq<char>,
    pieces: Seq<Seq<u8>>,
)
    requires
        pieces.len() == reports.len(),
        forall|i: int|
            #![trigger pieces[i]]
            0 <= i < reports.len() ==> {
                let r = reports[i];
                let record = r.xy + seq![32u8] + encode_utf8(prefix + r.rel) + seq![0u8];
                if is_move(r.xy) {
                    pieces[i] == record + r.source + seq![0u8]
                } else {
                    pieces[i] == record
                }
            },
    ensures
        output_of(reports, prefix) == pieces.flatten(),
    decreases reports.len(),
{
    if reports.len() > 0 {
        let more = pieces.drop_first();
        let others = reports.drop_first();
        assert forall|i: int| #![trigger more[i]] 0 <= i < others.len() implies {
            let r = others[i];
            let record = r.xy + seq![32u8] + encode_utf8(prefix + r.rel) + seq![0u8];
            if is_move(r.xy) {
                more[i] == record + r.source + seq![0u8]
            } else {
                more[i] == record
            }
        } by {
            assert(more[i] == pieces[i + 1] && others[i] == reports[i + 1]);
        }
        lemma_output_is_its_pieces(others, prefix, more);
        let first = pieces[0];
        assert(output_of(reports, prefix) =~= first + more.flatten());
    }
}

/// What git prints is read for what it says. A status is two letters, a space,
/// the path from the toplevel and a zero byte, and behind a rename or a copy, in
/// either column, there is another path, where it is from, with a zero byte. Read
/// for the directory at `prefix`, that gives each status in order, with its
/// letters and its path below the directory. `pieces` are what is printed for
/// each.
pub proof fn what_git_prints_is_read_for_what_it_says(
    reports: Seq<Report>,
    prefix: Seq<char>,
    pieces: Seq<Seq<u8>>,
)
    requires
        pieces.len() == reports.len(),
        forall|i: int|
            #![trigger pieces[i]]
            #![trigger reports[i]]
            0 <= i < reports.len() ==> {
                let r = reports[i];
                let record = r.xy + seq![32u8] + encode_utf8(prefix + r.rel) + seq![0u8];
                let moved = r.xy[0] == 'R' as u8 || r.xy[0] == 'C' as u8 || r.xy[1] == 'R' as u8
                    || r.xy[1] == 'C' as u8;
                &&& r.xy.len() == 2 && r.xy[0] != 0 && r.xy[1] != 0
                &&& prefix.len() + r.rel.len() > 0
                &&& !prefix.contains('\0') && !r.rel.contains('\0')
                &&& !r.source.contains(0u8)
                &&& moved ==> pieces[i] == record + r.source + seq![0u8]
                &&& !moved ==> pieces[i] == record
            },
    ensures
        porcelain(pieces.flatten(), prefix) == Seq::new(
            reports.len(),
            |i: int| (reports[i].xy, reports[i].rel),
        ),
{
    assert forall|i: int| 0 <= i < reports.len() implies reportable(
        #[trigger] reports[i],
        prefix,
    ) by {
        let r = reports[i];
        let path = prefix + r.rel;
        assert(pieces[i] == pieces[i]);
        assert forall|j: int| 0 <= j < path.len() implies #[trigger] path[j] != '\0' by {
            if j < prefix.len() {
                assert(prefix.contains(prefix[j]));
            } else {
                assert(r.rel.contains(r.rel[j - prefix.len()]));
            }
        }
        assert forall|j: int| 0 <= j < r.source.len() implies #[trigger] r.source[j] != 0 by {
            assert(r.source.contains(r.source[j]));
        }
    }
    assert forall|i: int| #![trigger pieces[i]] 0 <= i < reports.len() implies {
        let r = reports[i];
        let record = r.xy + seq![32u8] + encode_utf8(prefix + r.rel) + seq![0u8];
        if is_move(r.xy) {
            pieces[i] == record + r.source + seq![0u8]
        } else {
            pieces[i] == record
        }
    } by {
        what_a_rename_or_a_copy_is(reports[i].xy);
    }
    lemma_output_is_its_pieces(reports, prefix, pieces);
    what_git_reports_is_read_back(reports, prefix);
    assert(reported(reports) =~= Seq::new(
        reports.len(),
        |i: int| (reports[i].xy, reports[i].rel),
    ));
}

/// What a path of a record says of the directory at `prefix`: a path below the
/// directory is what follows the prefix; one of a directory that holds it, with
/// its slash, is the directory as a whole; and any other path says nothing.
pub proof fn what_a_path_says_of_the_directory(
    path: Seq<char>,
    prefix: Seq<char>,
    rel: Seq<char>,
)
    ensures
        path == prefix + rel ==> record_path(path, prefix) == Some(rel),
        ({
            let above = path.len() > 0 && path.last() == '/' && path.is_prefix_of(prefix);
            &&& !prefix.is_prefix_of(path) && above ==> record_path(path, prefix) == Some(
                Seq::<char>::empty(),
            )
            &&& !prefix.is_prefix_of(path) && !above ==> record_path(path, prefix) is None
        }),
{
    crate::text::a_text_is_its_prefix_and_what_follows(path, prefix, rel);
    crate::text::beginning_with_is_having_a_prefix(prefix, path);
}

/// The path of a file in its repository is what follows the toplevel and a slash;
/// the toplevel itself has the empty path, and what does not lie below it none.
pub proof fn where_a_file_lies_in_its_repository(path: Seq<u8>, root: Seq<u8>, rel: Seq<u8>)
    ensures
        path_below(root, root) == Some(Seq::<u8>::empty()),
        root != seq!['/' as u8] && path == root + seq!['/' as u8] + rel ==> path_below(path, root)
            == Some(rel),
        root == seq!['/' as u8] && path == root + rel ==> path_below(path, root) == Some(rel),
        path_below(path, root) is Some ==> root.is_prefix_of(path) && (path == root || root == seq![
            '/' as u8,
        ] || path[root.len() as int] == '/' as u8),
{
    if path == root + seq!['/' as u8] + rel {
        assert(path.take(root.len() as int + 1) =~= root.push(47));
        assert(path.skip(root.len() as int + 1) =~= rel);
    }
    if root == seq!['/' as u8] && path == root + rel {
        assert(path.take(1) =~= root);
        assert(path.skip(1) =~= rel);
        if path == root {
            assert(rel =~= Seq::<u8>::empty());
        }
    }
    if path_below(path, root) is Some {
        if path == root {
            assert(root =~= path.subrange(0, root.len() as int));
        } else if begins_with(path, root) {
            assert(path.take(root.len() as int) =~= path.subrange(0, root.len() as int));
        } else {
            assert(begins_with(path, root.push(47)));
        }
        if begins_with(path, root.push(47)) {
            let up = path.take(root.len() as int + 1);
            assert(up[root.len() as int] == path[root.len() as int]);
            assert(root =~= path.subrange(0, root.len() as int)) by {
                assert forall|j: int| 0 <= j < root.len() implies root[j] == #[trigger] path[j] by {
                    assert(up[j] == root.push(47)[j]);
                }
            }
        }
    }
}

/// Where a file lies is told as a text; bytes that are none, and a file that lies
/// elsewhere, are errors.
pub proof fn a_located_path_is_a_text(path: Seq<u8>, root: Seq<u8>, rel: Seq<char>)
    requires
        root != seq!['/' as u8],
        path == root + seq!['/' as u8] + encode_utf8(rel),
    ensures
        rel_path_of(path, root) == Ok::<Seq<char>, (GitErrorKind, Seq<char>)>(rel),
{
    where_a_file_lies_in_its_repository(path, root, encode_utf8(rel));
    vstd::utf8::encode_utf8_valid_utf8(rel);
    vstd::utf8::encode_utf8_decode_utf8(rel);
}

/// The baseline of a file is the committed one; only where there is none it is the
/// staged one; and where there is neither, what is wrong with the staged one.
pub proof fn the_baseline_is_committed_or_staged(
    rel_path: Seq<char>,
    first: GitRun,
    second: GitRun,
)
    ensures
        baseline_next(rel_path, Seq::empty()) == Next::<Seq<u8>>::Run(
            seq!["show"@, "HEAD:"@ + rel_path],
        ),
        first matches GitRun::Output(bytes) ==> baseline_next(rel_path, seq![first]) == Next::Done(
            Ok::<Seq<u8>, (GitErrorKind, Seq<char>)>(bytes@),
        ) && baseline_next(rel_path, seq![first, second]) == Next::Done(
            Ok::<Seq<u8>, (GitErrorKind, Seq<char>)>(bytes@),
        ),
        !(first is Output) ==> baseline_next(rel_path, seq![first]) == Next::<Seq<u8>>::Run(
            seq!["show"@, ":"@ + rel_path],
        ),
        !(first is Output) && second is Output ==> baseline_next(rel_path, seq![first, second])
            == Next::Done(Ok::<Seq<u8>, (GitErrorKind, Seq<char>)>(second->Output_0@)),
        !(first is Output) && second is Failed ==> baseline_next(rel_path, seq![first, second])
            == Next::Done(
            Err::<Seq<u8>, (GitErrorKind, Seq<char>)>(
                (GitErrorKind::NotFound, ":"@ + rel_path + " missing"@),
            ),
        ),
        !(first is Output) && second is Unavailable ==> baseline_next(rel_path, seq![first, second])
            == Next::Done(
            Err::<Seq<u8>, (GitErrorKind, Seq<char>)>(
                (GitErrorKind::Unavailable, second->Unavailable_0@),
            ),
        ),
{
}

/// The toplevel is what git prints, without the white space around it; where git
/// fails there is no repository, and where it cannot be run the reason stays.
pub proof fn the_toplevel_is_what_git_prints(
    run: GitRun,
    before: Seq<char>,
    root: Seq<char>,
    after: Seq<char>,
)
    requires
        forall|i: int| 0 <= i < before.len() ==> crate::text::white_space(#[trigger] before[i]),
        forall|i: int| 0 <= i < after.len() ==> crate::text::white_space(#[trigger] after[i]),
        root.len() > 0 ==> !crate::text::white_space(root[0]) && !crate::text::white_space(
            root.last(),
        ),
    ensures
        run is Output && run->Output_0@ == encode_utf8(before + root + after) ==> toplevel_named(
            run,
        ) == Ok::<Seq<char>, (GitErrorKind, Seq<char>)>(root),
        run is Output && !valid_utf8(run->Output_0@) ==> toplevel_named(run) is Err,
        run is Failed ==> toplevel_named(run) == Err::<Seq<char>, (GitErrorKind, Seq<char>)>(
            (GitErrorKind::NotFound, "not a git repo"@),
        ),
        run is Unavailable ==> toplevel_named(run) == Err::<Seq<char>, (GitErrorKind, Seq<char>)>(
            (GitErrorKind::Unavailable, run->Unavailable_0@),
        ),
{
    let text = before + root + after;
    vstd::utf8::encode_utf8_valid_utf8(text);
    vstd::utf8::encode_utf8_decode_utf8(text);
    crate::text::trimming_takes_off_the_white_space_around(before, root, after);
}

proof fn lemma_without_newlines_is(s: Seq<char>, ends: Seq<char>)
    requires
        s.len() > 0 ==> s.last() != '\n',
        forall|i: int| 0 <= i < ends.len() ==> #[trigger] ends[i] == '\n',
    ensures
        without_newlines(s + ends) == s,
    decreases ends.len(),
{
    if ends.len() > 0 {
        let fewer = ends.drop_last();
        assert(ends[ends.len() - 1] == '\n');
        assert forall|i: int| 0 <= i < fewer.len() implies #[trigger] fewer[i] == '\n' by {
            assert(fewer[i] == ends[i]);
        }
        assert((s + ends).drop_last() =~= s + fewer);
        lemma_without_newlines_is(s, fewer);
    } else {
        assert(s + ends =~= s);
    }
}

/// The status of a directory is what git prints for everything below it, read for
/// the prefix that git printed first, without the newlines at its end; where git
/// fails or cannot be run, at either step, that is the result.
pub proof fn the_status_of_a_directory_takes_two_runs(
    first: GitRun,
    second: GitRun,
    prefix: Seq<char>,
    ends: Seq<char>,
)
    requires
        prefix.len() > 0 ==> prefix.last() != '\n',
        forall|i: int| 0 <= i < ends.len() ==> #[trigger] ends[i] == '\n',
    ensures
        status_next(Seq::empty()) == Next::<Seq<(Seq<u8>, Seq<char>)>>::Run(
            seq!["rev-parse"@, "--show-prefix"@],
        ),
        !(first is Output) ==> status_next(seq![first]) == Next::<Seq<(Seq<u8>, Seq<char>)>>::Done(
            match first {
                GitRun::Unavailable(e) => Err((GitErrorKind::Unavailable, e@)),
                _ => Err((GitErrorKind::NotFound, "not a git repo"@)),
            },
        ),
        first is Output && first->Output_0@ == encode_utf8(prefix + ends) ==> {
            &&& status_next(seq![first]) == Next::<Seq<(Seq<u8>, Seq<char>)>>::Run(
                seq!["status"@, "--porcelain=v1"@, "-z"@, "--ignored"@, "--"@, "."@],
            )
            &&& second is Output ==> status_next(seq![first, second]) == Next::Done(
                Ok::<Seq<(Seq<u8>, Seq<char>)>, (GitErrorKind, Seq<char>)>(
                    porcelain(second->Output_0@, prefix),
                ),
            )
            &&& second is Failed ==> status_next(seq![first, second]) == Next::<
                Seq<(Seq<u8>, Seq<char>)>,
            >::Done(Err((GitErrorKind::NotFound, "not a git repo"@)))
        },
{
    let text = prefix + ends;
    vstd::utf8::encode_utf8_valid_utf8(text);
    vstd::utf8::encode_utf8_decode_utf8(text);
    lemma_without_newlines_is(prefix, ends);
}

/// Statuses are modelled one by one: their letters and their path.
pub proof fn a_status_is_its_letters_and_its_path(v: Seq<Status>, i: int)
    requires
        0 <= i < v.len(),
    ensures
        statuses(v).len() == v.len(),
        statuses(v)[i] == (v[i].0@, v[i].1@),
{
}

/// A path that is UTF-8 is the text that it encodes, and any other what stands for
/// it.
pub proof fn the_text_of_a_path(bytes: Seq<u8>)
    ensures
        valid_utf8(bytes) ==> path_text(bytes) == decode_utf8(bytes),
        !valid_utf8(bytes) ==> path_text(bytes) == lossy_text(bytes),
{
}

/// A step is the one of the model: the same arguments, the same bytes, the same
/// statuses, the same error.
pub proof fn a_step_is_the_one_taken(
    b: GitStep<Vec<u8>>,
    bn: Next<Seq<u8>>,
    s: GitStep<Vec<Status>>,
    sn: Next<Seq<(Seq<u8>, Seq<char>)>>,
)
    ensures
        baseline_takes(b, bn) ==> match bn {
            Next::Run(args) => b is Run && texts(b->Run_0@) == args,
            Next::Done(Ok(bytes)) => b is Done && b->Done_0 is Ok && b->Done_0->Ok_0@ == bytes,
            Next::Done(Err(e)) => b is Done && b->Done_0 is Err && b->Done_0->Err_0@ == e,
        },
        status_takes(s, sn) ==> match sn {
            Next::Run(args) => s is Run && texts(s->Run_0@) == args,
            Next::Done(Ok(v)) => s is Done && s->Done_0 is Ok && statuses(s->Done_0->Ok_0@) == v,
            Next::Done(Err(e)) => s is Done && s->Done_0 is Err && s->Done_0->Err_0@ == e,
        },
{
}

/// What is printed by git is what there is; where it failed the failure is told,
/// and where it could not be run, why.
pub proof fn what_a_run_gives(run: GitRun, failure: Seq<char>)
    ensures
        match run {
            GitRun::Output(bytes) => printed(run, failure) == Ok::<
                Seq<u8>,
                (GitErrorKind, Seq<char>),
            >(bytes@),
            GitRun::Failed => printed(run, failure) == Err::<Seq<u8>, (GitErrorKind, Seq<char>)>(
                (GitErrorKind::NotFound, failure),
            ),
            GitRun::Unavailable(e) => printed(run, failure) == Err::<
                Seq<u8>,
                (GitErrorKind, Seq<char>),
            >((GitErrorKind::Unavailable, e@)),
        },
{
}

/// A record too short to hold a status is passed over, wherever it stands.
pub proof fn a_short_record_is_passed_over(short: Seq<u8>, rest: Seq<u8>, prefix: Seq<char>)
    requires
        short.len() < 4,
        !short.contains(0u8),
    ensures
        porcelain(short + seq![0u8] + rest, prefix) == porcelain(rest, prefix),
{
    assert forall|i: int| 0 <= i < short.len() implies #[trigger] short[i] != 0 by {
        assert(short.contains(short[i]));
    }
    lemma_split_first(short, rest);
    let records = split(rest, 0u8);
    assert((seq![short] + records)[0] == short);
    lemma_records_shift(short, records, 0, prefix);
}

/// A status of a path that neither lies in the directory nor holds it is passed
/// over.
pub proof fn a_status_from_elsewhere_is_passed_over(
    xy: Seq<u8>,
    path: Seq<char>,
    rest: Seq<u8>,
    prefix: Seq<char>,
)
    requires
        xy.len() == 2,
        xy[0] != 0 && xy[1] != 0,
        xy[0] != 'R' as u8 && xy[0] != 'C' as u8 && xy[1] != 'R' as u8 && xy[1] != 'C' as u8,
        !path.contains('\0'),
        !prefix.is_prefix_of(path),
        path.len() > 0 && path.last() == '/' ==> !path.is_prefix_of(prefix),
    ensures
        porcelain(xy + seq![32u8] + encode_utf8(path) + seq![0u8] + rest, prefix) == porcelain(
            rest,
            prefix,
        ),
{
    let bytes = encode_utf8(path);
    let rec = xy + seq![32u8] + bytes;
    assert forall|i: int| 0 <= i < path.len() implies #[trigger] path[i] != '\0' by {
        assert(path.contains(path[i]));
    }
    lemma_no_zero_in_text(path);
    assert forall|i: int| 0 <= i < rec.len() implies #[trigger] rec[i] != 0 by {
        if i >= 3 {
            assert(rec[i] == bytes[i - 3]);
        }
    }
    lemma_split_first(rec, rest);
    let records = split(rest, 0u8);
    let all = seq![rec] + records;
    assert(all[0] == rec);
    assert(rec.skip(3) =~= bytes);
    vstd::utf8::encode_utf8_valid_utf8(path);
    vstd::utf8::encode_utf8_decode_utf8(path);
    what_a_path_says_of_the_directory(path, prefix, path);
    lemma_records_shift(rec, records, 0, prefix);
}

} // verus!
