//! The output path for pipes, redirects and pagers: text with escape sequences,
//! written through.
use crate::cli::{
    bytes_of,
    resolve_use_color_with_env,
    short_help,
    short_help_text,
    uses_color,
    ColorMode,
    LineRange,
    PagingMode,
};
use crate::plan::{code_of, end_for, end_of, finish_view, End, Finish, Last};
use crate::text::{
    chars_of,
    decimal,
    first_at,
    lemma_first_at,
    lemma_first_at_is,
    same_text,
    split,
    split_chars,
    string_of,
    text_of,
    texts,
};
use vstd::prelude::*;
use vstd::string::StringExecFns;
use vstd::utf8::encode_utf8;

verus! {

/// What to do next to find a pager.
#[derive(Debug)]
pub enum PagerStep {
    /// This is the pager.
    Found(String),
    /// See whether there is a file at this path.
    Look(String),
    /// There is none.
    NotFound,
}

/// What to do next to find a pager, as a value of the model.
pub ghost enum PagerNext {
    Found(Seq<char>),
    Look(Seq<char>),
    NotFound,
}

/// Whether a step is the one of the model.
pub open spec fn pager_takes(step: PagerStep, next: PagerNext) -> bool {
    match (step, next) {
        (PagerStep::Found(p), PagerNext::Found(q)) => p@ == q,
        (PagerStep::Look(p), PagerNext::Look(q)) => p@ == q,
        (PagerStep::NotFound, PagerNext::NotFound) => true,
        _ => false,
    }
}

/// The path of `less` in a directory.
pub open spec fn less_in(dir: Seq<char>) -> Seq<char> {
    if dir.len() == 0 || dir.last() == '/' {
        dir + "less"@
    } else {
        dir + "/"@ + "less"@
    }
}

/// A variable that says something.
pub open spec fn said(v: Option<Seq<char>>) -> bool {
    v matches Some(s) && s.len() > 0
}

/// The first of the looks that found a file, or how many there were.
pub open spec fn first_found(found: Seq<bool>) -> int
    decreases found.len(),
{
    if found.len() == 0 || found[0] {
        0
    } else {
        1 + first_found(found.drop_first())
    }
}

/// What to do next to find a pager: `EAT_PAGER`, then `PAGER`, then `less` in
/// the first directory of `PATH` that has it. `found` tells for the directories
/// so far whether they do.
pub open spec fn pager_next(
    eat_pager: Option<Seq<char>>,
    pager: Option<Seq<char>>,
    path: Option<Seq<char>>,
    found: Seq<bool>,
) -> PagerNext {
    if said(eat_pager) {
        PagerNext::Found(eat_pager->0)
    } else if said(pager) {
        PagerNext::Found(pager->0)
    } else {
        match path {
            None => PagerNext::NotFound,
            Some(path) => {
                let dirs = split(path, ':');
                let k = first_found(found);
                if k >= dirs.len() {
                    PagerNext::NotFound
                } else if k < found.len() {
                    PagerNext::Found(less_in(dirs[k]))
                } else {
                    PagerNext::Look(less_in(dirs[k]))
                }
            },
        }
    }
}

fn find_first(found: &Vec<bool>) -> (k: usize)
    ensures
        k == first_found(found@),
        k <= found@.len(),
{
    let mut i: usize = 0;
    assert(found@.skip(0) =~= found@);
    while i < found.len() && !found[i]
        invariant
            i <= found@.len(),
            i + first_found(found@.skip(i as int)) == first_found(found@),
        decreases found@.len() - i,
    {
        assert(found@.skip(i as int).drop_first() =~= found@.skip(i + 1));
        i += 1;
    }
    i
}

fn path_of_less(dir: &Vec<char>) -> (path: String)
    ensures
        path@ == less_in(dir@),
{
    let mut path = string_of(dir.as_slice());
    if dir.len() > 0 && dir[dir.len() - 1] != '/' {
        path.append("/");
    }
    path.append("less");
    path
}

/// Whether a variable says something.
fn says(v: Option<&str>) -> (r: bool)
    ensures
        r == said(text_of(v)),
{
    match v {
        Some(s) => chars_of(s).len() > 0,
        None => false,
    }
}

/// Finds the pager: `EAT_PAGER`, then `PAGER`, then `less` in the first
/// directory of `PATH` that has it. `found` tells for the directories so far
/// whether they do.
pub fn resolve_pager(
    eat_pager: Option<&str>,
    pager: Option<&str>,
    path: Option<&str>,
    found: &Vec<bool>,
) -> (step: PagerStep)
    ensures
        pager_takes(
            step,
            pager_next(text_of(eat_pager), text_of(pager), text_of(path), found@),
        ),
{
    if says(eat_pager) {
        if let Some(p) = eat_pager {
            return PagerStep::Found(p.to_owned());
        }
    }
    if says(pager) {
        if let Some(p) = pager {
            return PagerStep::Found(p.to_owned());
        }
    }
    match path {
        None => PagerStep::NotFound,
        Some(path) => {
            let dirs = split_chars(chars_of(path).as_slice(), ':');
            let k = find_first(found);
            if k >= dirs.len() {
                PagerStep::NotFound
            } else {
                assert(dirs@[k as int]@ == split(path@, ':')[k as int]);
                let less = path_of_less(&dirs[k]);
                if k < found.len() {
                    PagerStep::Found(less)
                } else {
                    PagerStep::Look(less)
                }
            }
        },
    }
}

/// The arguments that a pager is run with: `less` passes escape sequences
/// through, quits where everything fits on one screen, and chops long lines
/// where they are not to wrap. It wraps by default.
pub open spec fn pager_arguments(name: Seq<char>, wrap: bool) -> Seq<Seq<char>> {
    if name != "less"@ {
        Seq::empty()
    } else if wrap {
        seq!["-R"@, "-F"@]
    } else {
        seq!["-R"@, "-F"@, "-S"@]
    }
}

/// The arguments that a pager is run with; `name` is the last part of its path,
/// where that is a text.
pub fn pager_args(name: Option<&str>, wrap: bool) -> (args: Vec<String>)
    ensures
        texts(args@) == pager_arguments(
            match name {
                Some(name) => name@,
                None => ""@,
            },
            wrap,
        ),
{
    let mut args: Vec<String> = Vec::new();
    let name = match name {
        Some(name) => name,
        None => "",
    };
    if same_text(name, "less") {
        args.push("-R".to_owned());
        args.push("-F".to_owned());
        if !wrap {
            args.push("-S".to_owned());
        }
    }
    assert(texts(args@) =~= pager_arguments(name@, wrap));
    args
}

/// Where a stretch of one kind of text starts in a line, in bytes; it ends
/// where the next one starts.
#[derive(Debug, Clone, Copy, PartialEq, Eq, Structural)]
pub struct Span {
    pub start: usize,
    pub kind: u32,
}

/// The lesser of two numbers.
pub open spec fn at_most(a: int, b: int) -> int {
    if a < b {
        a
    } else {
        b
    }
}

/// Whether each stretch ends, within the line, no earlier than it starts.
pub open spec fn spans_fit(spans: Seq<Span>, len: int) -> bool {
    forall|i: int|
        0 <= i < spans.len() - 1 ==> (#[trigger] spans[i]).start <= at_most(
            spans[i + 1].start as int,
            len,
        )
}

/// The color of a kind, where it has one.
pub open spec fn color_of(colors: Seq<&str>, kind: u32) -> Seq<char> {
    if kind < colors.len() {
        colors[kind as int]@
    } else {
        Seq::empty()
    }
}

/// A stretch of a line, in the color of its kind where colors are wanted.
pub open spec fn stretch(
    spans: Seq<Span>,
    colors: Seq<&str>,
    line: Seq<u8>,
    use_color: bool,
    i: int,
) -> Seq<u8> {
    let text = line.subrange(
        spans[i].start as int,
        at_most(spans[i + 1].start as int, line.len() as int),
    );
    let color = color_of(colors, spans[i].kind);
    if use_color && color.len() > 0 {
        encode_utf8(color) + text + seq![27u8, 91u8, 109u8]
    } else {
        text
    }
}

/// The first `n` stretches of a line.
pub open spec fn stretches(
    spans: Seq<Span>,
    colors: Seq<&str>,
    line: Seq<u8>,
    use_color: bool,
    n: int,
) -> Seq<u8>
    decreases n,
{
    if n <= 0 {
        Seq::empty()
    } else {
        stretches(spans, colors, line, use_color, n - 1) + stretch(
            spans,
            colors,
            line,
            use_color,
            n - 1,
        )
    }
}

/// A line with its colors.
pub open spec fn body(spans: Seq<Span>, colors: Seq<&str>, line: Seq<u8>, use_color: bool) -> Seq<
    u8,
> {
    stretches(spans, colors, line, use_color, spans.len() - 1)
}

/// Adds a line with its colors: no number before it and no newline after it.
/// The stretches are cut by bytes, since they need not start between
/// characters.
pub fn render_body(spans: &[Span], colors: &[&str], line: &[u8], use_color: bool, out: &mut Vec<u8>)
    requires
        spans_fit(spans@, line@.len() as int),
    ensures
        final(out)@ == old(out)@ + body(spans@, colors@, line@, use_color),
{
    let mut i: usize = 0;
    assert(old(out)@ + Seq::<u8>::empty() =~= old(out)@);
    while spans.len() > 0 && i < spans.len() - 1
        invariant
            spans_fit(spans@, line@.len() as int),
            i <= spans@.len(),
            spans@.len() > 0 ==> i < spans@.len(),
            out@ == old(out)@ + stretches(spans@, colors@, line@, use_color, i as int),
        decreases spans@.len() - i,
    {
        let ghost before = out@;
        let start = spans[i].start;
        let next = spans[i + 1].start;
        let end = if next < line.len() {
            next
        } else {
            line.len()
        };
        assert(spans@[i as int].start <= at_most(spans@[i + 1].start as int, line@.len() as int));
        let text = &line[start..end];
        let kind = spans[i].kind as usize;
        let color: &str = if use_color && kind < colors.len() {
            colors[kind]
        } else {
            ""
        };
        proof {
            reveal_strlit("");
        }
        let colored = chars_of(color).len() > 0;
        if colored {
            out.extend_from_slice(color.as_bytes());
            out.extend_from_slice(text);
            out.push(27);
            out.push(91);
            out.push(109);
        } else {
            out.extend_from_slice(text);
        }
        proof {
            assert(out@ =~= before + stretch(spans@, colors@, line@, use_color, i as int));
            assert(out@ =~= old(out)@ + stretches(spans@, colors@, line@, use_color, i + 1));
        }
        i += 1;
    }
}

/// A finished line: what stands before it, the line with its colors, and the
/// newline.
pub open spec fn finished_line(
    prefix: Seq<u8>,
    spans: Seq<Span>,
    colors: Seq<&str>,
    line: Seq<u8>,
    use_color: bool,
) -> Seq<u8> {
    prefix + body(spans, colors, line, use_color) + seq![10u8]
}

/// Adds a finished line: what stands before it, the line with its colors, and
/// the newline.
pub fn write_highlighted_line(
    prefix: &[u8],
    spans: &[Span],
    colors: &[&str],
    line: &[u8],
    use_color: bool,
    out: &mut Vec<u8>,
)
    requires
        spans_fit(spans@, line@.len() as int),
    ensures
        final(out)@ == old(out)@ + prefix@ + body(spans@, colors@, line@, use_color) + seq![10u8],
        final(out)@ == old(out)@ + finished_line(prefix@, spans@, colors@, line@, use_color),
{
    out.extend_from_slice(prefix);
    render_body(spans, colors, line, use_color, out);
    out.push(10);
    assert(out@ =~= old(out)@ + prefix@ + body(spans@, colors@, line@, use_color) + seq![10u8]);
    assert(out@ =~= old(out)@ + finished_line(prefix@, spans@, colors@, line@, use_color));
}

/// Rows of a listing, each with what stands before it and its newline.
pub open spec fn listing_bytes(prefixes: Seq<Vec<u8>>, rows: Seq<Seq<char>>) -> Seq<u8>
    decreases rows.len(),
{
    if rows.len() == 0 {
        Seq::empty()
    } else {
        let n = rows.len() - 1;
        listing_bytes(prefixes, rows.drop_last()) + (if n < prefixes.len() {
            prefixes[n]@
        } else {
            Seq::empty()
        }) + encode_utf8(rows[n]) + seq![10u8]
    }
}

/// A listing with the header that a file would get.
pub open spec fn listing_output(
    header: Option<Seq<char>>,
    use_color: bool,
    prefixes: Seq<Vec<u8>>,
    rows: Seq<Seq<char>>,
) -> Seq<u8> {
    encode_utf8(header_text(header, use_color)) + listing_bytes(prefixes, rows)
}

/// Adds the rows of a listing, which have their colors already, with the header
/// that a file would get. `prefixes` are what stands before the rows: their
/// numbers, where they are shown.
pub fn write_listing(
    rows: &[String],
    prefixes: &Vec<Vec<u8>>,
    header: Option<&str>,
    use_color: bool,
    out: &mut Vec<u8>,
)
    ensures
        final(out)@ == old(out)@ + encode_utf8(header_text(text_of(header), use_color))
            + listing_bytes(prefixes@, texts(rows@)),
        final(out)@ == old(out)@ + listing_output(
            text_of(header),
            use_color,
            prefixes@,
            texts(rows@),
        ),
{
    let mut head = String::new();
    write_header(header, use_color, &mut head);
    assert(head@ =~= header_text(text_of(header), use_color));
    out.extend_from_slice(head.as_str().as_bytes());
    let ghost start = out@;
    let ghost all = texts(rows@);
    assert(start + Seq::<u8>::empty() =~= start);
    for i in 0..rows.len()
        invariant
            all == texts(rows@),
            out@ == start + listing_bytes(prefixes@, all.take(i as int)),
    {
        assert(all.take(i + 1).drop_last() =~= all.take(i as int));
        if i < prefixes.len() {
            out.extend_from_slice(prefixes[i].as_slice());
        }
        out.extend_from_slice(rows[i].as_str().as_bytes());
        out.push(10);
        assert(out@ =~= start + listing_bytes(prefixes@, all.take(i + 1)));
    }
    assert(all.take(all.len() as int) =~= all);
    assert(out@ =~= old(out)@ + listing_output(text_of(header), use_color, prefixes@, all));
}

/// Without color a line is written as it is, where its stretches cover it: they
/// start at its start, follow each other, and the last one ends at its end.
pub proof fn a_line_without_color_is_unchanged(
    spans: Seq<Span>,
    colors: Seq<&str>,
    line: Seq<u8>,
)
    requires
        spans.len() >= 1,
        spans[0].start == 0,
        spans.last().start >= line.len(),
        spans_fit(spans, line.len() as int),
    ensures
        body(spans, colors, line, false) == line,
{
    lemma_stretches(spans, colors, line, spans.len() - 1);
    assert(line.take(line.len() as int) =~= line);
}

proof fn lemma_stretches(spans: Seq<Span>, colors: Seq<&str>, line: Seq<u8>, n: int)
    requires
        spans.len() >= 1,
        spans[0].start == 0,
        spans_fit(spans, line.len() as int),
        0 <= n < spans.len(),
    ensures
        stretches(spans, colors, line, false, n) == line.take(
            at_most(spans[n].start as int, line.len() as int),
        ),
    decreases n,
{
    if n == 0 {
        assert(line.take(0) =~= Seq::empty());
    } else {
        lemma_stretches(spans, colors, line, n - 1);
        assert(spans[n - 1].start <= at_most(spans[n].start as int, line.len() as int));
        let a = at_most(spans[n - 1].start as int, line.len() as int);
        let b = at_most(spans[n].start as int, line.len() as int);
        assert(line.take(a) + line.subrange(a, b) =~= line.take(b));
    }
}

/// What the gutter shows beside a line.
#[derive(Debug, Clone, Copy, PartialEq, Eq, Structural)]
pub enum GutterMark {
    Unmarked,
    /// The line is part of a merge conflict.
    Conflict,
    /// What a diff has to say about the line.
    Diff(u8),
}

/// What the gutter shows beside a line.
pub open spec fn mark_shown(in_conflict: bool, diff: GutterMark) -> GutterMark {
    if in_conflict {
        GutterMark::Conflict
    } else {
        diff
    }
}

/// What the gutter shows beside a line: a conflict outranks the diff.
pub fn line_mark(in_conflict: bool, diff: GutterMark) -> (mark: GutterMark)
    ensures
        mark == mark_shown(in_conflict, diff),
        mark == (if in_conflict {
            GutterMark::Conflict
        } else {
            diff
        }),
{
    if in_conflict {
        GutterMark::Conflict
    } else {
        diff
    }
}

/// The header line before a file.
pub open spec fn header_text(header: Option<Seq<char>>, use_color: bool) -> Seq<char> {
    match header {
        Some(h) => if use_color {
            "\x1b[1m--- "@ + h + " ---\x1b[m\n"@
        } else {
            "--- "@ + h + " ---\n"@
        },
        None => Seq::empty(),
    }
}

/// The header line before a file, bold where colors are wanted.
pub fn write_header(header: Option<&str>, use_color: bool, out: &mut String)
    ensures
        final(out)@ == old(out)@ + header_text(text_of(header), use_color),
{
    if let Some(h) = header {
        out.append(
            if use_color {
                "\x1b[1m--- "
            } else {
                "--- "
            },
        );
        out.append(h);
        out.append(
            if use_color {
                " ---\x1b[m\n"
            } else {
                " ---\n"
            },
        );
    }
    assert(out@ =~= old(out)@ + header_text(text_of(header), use_color));
}

/// The first line that a range shows, counted from 1: there is no line 0, so a
/// range from there starts at the first one.
pub open spec fn first_shown(range: Option<LineRange>) -> int {
    match range {
        Some(r) => match r.start {
            Some(n) => if n == 0 {
                1
            } else {
                n as int
            },
            None => 1,
        },
        None => 1,
    }
}

/// Where the lines that a range shows begin, counted from 0.
pub open spec fn range_start(range: Option<LineRange>, len: int) -> int {
    at_most(first_shown(range) - 1, len)
}

/// Where the lines that a range shows end: never before they begin, and never
/// behind the last line.
pub open spec fn range_end(range: Option<LineRange>, len: int) -> int {
    let start = range_start(range, len);
    match range {
        Some(r) => match r.end {
            Some(n) => if n < start {
                start
            } else {
                at_most(n as int, len)
            },
            None => len,
        },
        None => len,
    }
}

/// A range that may be missing.
pub open spec fn range_of(range: Option<&LineRange>) -> Option<LineRange> {
    match range {
        Some(r) => Some(*r),
        None => None,
    }
}

/// Where the lines that a range shows begin and end, of so many, and the number
/// of the first one, counted from 1.
fn select(range: Option<&LineRange>, len: usize) -> (r: (usize, usize, usize))
    ensures
        r.0 == range_start(range_of(range), len as int),
        r.1 == range_end(range_of(range), len as int),
        r.2 == first_shown(range_of(range)),
        r.0 <= r.1 <= len,
{
    let first_line: usize = match range {
        Some(r) => match r.start {
            Some(n) => if n == 0 {
                1
            } else {
                n
            },
            None => 1,
        },
        None => 1,
    };
    let start = if first_line - 1 < len {
        first_line - 1
    } else {
        len
    };
    let end = match range {
        Some(r) => match r.end {
            Some(n) => if n < start {
                start
            } else if n < len {
                n
            } else {
                len
            },
            None => len,
        },
        None => len,
    };
    (start, end, first_line)
}

/// The lines that a range selects.
pub open spec fn lines_shown<T>(all: Seq<T>, range: Option<LineRange>) -> Seq<T> {
    all.subrange(range_start(range, all.len() as int), range_end(range, all.len() as int))
}

/// The lines that a range selects, and the number of the first one, counted
/// from 1.
pub fn apply_line_range<'a>(all: &'a [String], range: Option<&LineRange>) -> (r: (
    &'a [String],
    usize,
))
    ensures
        r.1 == first_shown(range_of(range)),
        r.0@ == all@.subrange(
            range_start(range_of(range), all@.len() as int),
            range_end(range_of(range), all@.len() as int),
        ),
        r.0@ == lines_shown(all@, range_of(range)),
        r.0@.len() > 0 ==> r.1 + r.0@.len() - 1 <= all@.len(),
{
    let (start, end, first_line) = select(range, all.len());
    (&all[start..end], first_line)
}

/// The lines of some bytes, each with its newline; the last one may have none.
pub open spec fn raw_lines(bytes: Seq<u8>) -> Seq<Seq<u8>>
    decreases bytes.len(),
{
    let i = first_at(bytes, 10u8);
    if bytes.len() == 0 {
        Seq::empty()
    } else if 0 <= i < bytes.len() {
        seq![bytes.take(i + 1)] + raw_lines(bytes.skip(i + 1))
    } else {
        seq![bytes]
    }
}

/// Lines put together.
pub open spec fn put_together(lines: Seq<Seq<u8>>) -> Seq<u8>
    decreases lines.len(),
{
    if lines.len() == 0 {
        Seq::empty()
    } else {
        put_together(lines.drop_last()) + lines.last()
    }
}

/// What plain output writes: the lines that the range shows, as they are.
pub open spec fn plain_bytes(bytes: Seq<u8>, range: Option<LineRange>) -> Seq<u8> {
    let lines = raw_lines(bytes);
    put_together(
        lines.subrange(range_start(range, lines.len() as int), range_end(range, lines.len() as int)),
    )
}

fn split_lines(bytes: &[u8]) -> (v: Vec<Vec<u8>>)
    ensures
        v@.map_values(|l: Vec<u8>| l@) == raw_lines(bytes@),
{
    let mut v: Vec<Vec<u8>> = Vec::new();
    let mut start: usize = 0;
    let ghost view = |l: Vec<u8>| l@;
    assert(bytes@.skip(0) =~= bytes@);
    assert(v@.map_values(view) + raw_lines(bytes@) =~= raw_lines(bytes@));
    while start < bytes.len()
        invariant
            start <= bytes@.len(),
            view == (|l: Vec<u8>| l@),
            v@.map_values(view) + raw_lines(bytes@.skip(start as int)) == raw_lines(bytes@),
        decreases bytes@.len() - start,
    {
        let ghost rest = bytes@.skip(start as int);
        let ghost before = v@;
        let mut end: usize = start;
        while end < bytes.len() && bytes[end] != 10
            invariant
                start <= end <= bytes@.len(),
                forall|j: int| start <= j < end ==> bytes@[j] != 10,
            decreases bytes@.len() - end,
        {
            end += 1;
        }
        proof {
            assert forall|j: int| 0 <= j < end - start implies rest[j] != 10u8 by {
                assert(rest[j] == bytes@[start + j]);
            }
            if end < bytes@.len() {
                assert(rest[end - start] == bytes@[end as int]);
            }
            lemma_first_at_is(rest, 10u8, end - start);
        }
        let next: usize = if end < bytes.len() {
            end + 1
        } else {
            end
        };
        let mut line: Vec<u8> = Vec::new();
        line.extend_from_slice(&bytes[start..next]);
        assert(line@ =~= rest.take(next - start));
        v.push(line);
        proof {
            assert(v@.map_values(view) =~= before.map_values(view).push(line@));
            assert(rest.skip(next - start) =~= bytes@.skip(next as int));
            let tail = raw_lines(bytes@.skip(next as int));
            if end == bytes@.len() {
                assert(line@ =~= rest);
                assert(tail =~= Seq::empty());
            }
            assert(raw_lines(rest) =~= seq![line@] + tail);
            assert(v@.map_values(view) + tail =~= before.map_values(view) + (seq![line@] + tail));
        }
        start = next;
    }
    assert(v@.map_values(view) + raw_lines(bytes@.skip(start as int)) =~= v@.map_values(view));
    v
}

/// Adds what plain output writes of a file: the lines that the range shows, as
/// they are, with whatever ends them.
pub fn write_plain(bytes: &[u8], range: Option<&LineRange>, out: &mut Vec<u8>)
    ensures
        final(out)@ == old(out)@ + plain_bytes(bytes@, range_of(range)),
{
    let lines = split_lines(bytes);
    let ghost all = raw_lines(bytes@);
    let (start, end, _) = select(range, lines.len());
    let mut i: usize = start;
    assert(all.subrange(start as int, start as int) =~= Seq::empty());
    assert(old(out)@ + Seq::<u8>::empty() =~= old(out)@);
    while i < end
        invariant
            start <= i <= end <= lines@.len(),
            all == lines@.map_values(|l: Vec<u8>| l@),
            out@ == old(out)@ + put_together(all.subrange(start as int, i as int)),
        decreases end - i,
    {
        let ghost shown = all.subrange(start as int, i + 1);
        assert(shown.drop_last() =~= all.subrange(start as int, i as int));
        assert(shown.last() == lines@[i as int]@);
        out.extend_from_slice(lines[i].as_slice());
        assert(out@ =~= old(out)@ + put_together(shown));
        i += 1;
    }
}

proof fn lemma_put_together_first(first: Seq<u8>, rest: Seq<Seq<u8>>)
    ensures
        put_together(seq![first] + rest) == first + put_together(rest),
    decreases rest.len(),
{
    let all = seq![first] + rest;
    if rest.len() == 0 {
        reveal_with_fuel(put_together, 2);
        assert(all.drop_last() =~= Seq::empty());
        assert(put_together(all) =~= first + put_together(rest));
    } else {
        lemma_put_together_first(first, rest.drop_last());
        assert(all.drop_last() =~= seq![first] + rest.drop_last());
        assert(all.last() == rest.last());
        assert(put_together(all) =~= first + put_together(rest));
    }
}

/// Plain output without a range is the file, byte for byte.
pub proof fn plain_output_is_the_file(bytes: Seq<u8>)
    ensures
        plain_bytes(bytes, None) == bytes,
    decreases bytes.len(),
{
    let lines = raw_lines(bytes);
    assert(lines.subrange(0, lines.len() as int) =~= lines);
    if bytes.len() > 0 {
        let i = first_at(bytes, 10u8);
        lemma_first_at(bytes, 10u8);
        if i < bytes.len() {
            let rest = bytes.skip(i + 1);
            plain_output_is_the_file(rest);
            let more = raw_lines(rest);
            assert(more.subrange(0, more.len() as int) =~= more);
            lemma_put_together_first(bytes.take(i + 1), more);
            assert(bytes.take(i + 1) + rest =~= bytes);
        } else {
            lemma_put_together_first(bytes, Seq::empty());
            assert(seq![bytes] + Seq::<Seq<u8>>::empty() =~= lines);
            assert(bytes + Seq::<u8>::empty() =~= bytes);
        }
    }
}

/// The numbers of so many lines, from the first one on.
pub open spec fn numbers_from(first_line: int, shown: nat) -> Seq<usize> {
    Seq::new(shown, |i: int| (first_line + i) as usize)
}

/// The numbers of so many lines, from the first one on: what stands beside each
/// of them.
pub fn line_numbers(first_line: usize, shown: usize) -> (v: Vec<usize>)
    requires
        shown > 0 ==> first_line + shown - 1 <= usize::MAX,
    ensures
        v@ == numbers_from(first_line as int, shown as nat),
        v@ == Seq::new(shown as nat, |i: int| (first_line + i) as usize),
{
    let mut v: Vec<usize> = Vec::new();
    for i in 0..shown
        invariant
            shown > 0 ==> first_line + shown - 1 <= usize::MAX,
            v@ == Seq::new(i as nat, |j: int| (first_line + j) as usize),
    {
        v.push(first_line + i);
        assert(v@ =~= Seq::new((i + 1) as nat, |j: int| (first_line + j) as usize));
    }
    v
}

/// A range keeps the numbers that the lines have in the file: the line that is
/// shown under a number is that line of the file.
pub proof fn a_range_keeps_the_line_numbers(all: Seq<String>, range: LineRange, i: int)
    requires
        0 <= i < range_end(Some(range), all.len() as int) - range_start(
            Some(range),
            all.len() as int,
        ),
    ensures
        ({
            let shown = all.subrange(
                range_start(Some(range), all.len() as int),
                range_end(Some(range), all.len() as int),
            );
            let number = first_shown(Some(range)) + i;
            &&& 1 <= number <= all.len()
            &&& shown[i] == all[number - 1]
            &&& range.end matches Some(n) ==> number <= n
        }),
{
}

/// One thing to read.
#[derive(Debug)]
pub enum EatInput {
    File(String),
    Stdin,
}

/// One thing to read, as a value of the model.
pub ghost enum Source {
    File(Seq<char>),
    Stdin,
}

/// What there is to read, as values of the model.
pub open spec fn sources(v: Seq<EatInput>) -> Seq<Source> {
    v.map_values(
        |i: EatInput|
            match i {
                EatInput::File(path) => Source::File(path@),
                EatInput::Stdin => Source::Stdin,
            },
    )
}

/// What a file argument names: `-` is standard input.
pub open spec fn source_named(file: Seq<char>) -> Source {
    if file == "-"@ {
        Source::Stdin
    } else {
        Source::File(file)
    }
}

/// What there is to read: each file in its place, and standard input where none
/// is named.
pub open spec fn sources_named(files: Seq<Seq<char>>) -> Seq<Source> {
    if files.len() == 0 {
        seq![Source::Stdin]
    } else {
        files.map_values(|f: Seq<char>| source_named(f))
    }
}

/// What there is to read: each file in its place, with `-` for standard input,
/// which is also what is read where no file is named.
pub fn collect_inputs(files: &Vec<String>) -> (v: Vec<EatInput>)
    ensures
        sources(v@) == sources_named(texts(files@)),
{
    let mut v: Vec<EatInput> = Vec::new();
    if files.len() == 0 {
        v.push(EatInput::Stdin);
        assert(sources(v@) =~= seq![Source::Stdin]);
        return v;
    }
    for i in 0..files.len()
        invariant
            v@.len() == i,
            forall|j: int|
                0 <= j < i ==> #[trigger] sources(v@)[j] == source_named(texts(files@)[j]),
    {
        let ghost was = v@;
        if same_text(files[i].as_str(), "-") {
            v.push(EatInput::Stdin);
        } else {
            v.push(EatInput::File(files[i].clone()));
        }
        assert forall|j: int| 0 <= j < i + 1 implies #[trigger] sources(v@)[j] == source_named(
            texts(files@)[j],
        ) by {
            if j < i {
                assert(sources(v@)[j] == sources(was)[j]);
            }
        }
    }
    assert(sources(v@) =~= sources_named(texts(files@)));
    v
}

/// Whether to page: not where the output is plain, and otherwise as asked for,
/// by default where the output is a terminal.
pub open spec fn pages(plain: bool, paging: PagingMode, stdout_is_tty: bool) -> bool {
    !plain && match paging {
        PagingMode::Always => true,
        PagingMode::Never => false,
        PagingMode::Auto => stdout_is_tty,
    }
}

/// Whether to page.
pub fn wants_pager(plain: bool, paging: PagingMode, stdout_is_tty: bool) -> (r: bool)
    ensures
        r == pages(plain, paging, stdout_is_tty),
{
    if plain {
        return false;
    }
    match paging {
        PagingMode::Always => true,
        PagingMode::Never => false,
        PagingMode::Auto => stdout_is_tty,
    }
}

/// Whether a run uses colors. Paging counts as a terminal.
pub open spec fn run_colored(
    mode: ColorMode,
    has_pager: bool,
    stdout_is_tty: bool,
    force_color: Option<Seq<u8>>,
    no_color: Option<Seq<u8>>,
) -> bool {
    mode != ColorMode::Never && (has_pager || uses_color(
        mode,
        stdout_is_tty,
        force_color,
        no_color,
    ))
}

/// Whether to use colors. Paging counts as a terminal: the pipe to the pager is
/// none, and would lose them.
pub fn run_uses_color(
    mode: ColorMode,
    has_pager: bool,
    stdout_is_tty: bool,
    force_color: Option<&[u8]>,
    no_color: Option<&[u8]>,
) -> (r: bool)
    ensures
        r == (mode != ColorMode::Never && (has_pager || uses_color(
            mode,
            stdout_is_tty,
            bytes_of(force_color),
            bytes_of(no_color),
        ))),
        r == run_colored(
            mode,
            has_pager,
            stdout_is_tty,
            bytes_of(force_color),
            bytes_of(no_color),
        ),
{
    match mode {
        ColorMode::Never => false,
        _ => has_pager || resolve_use_color_with_env(mode, stdout_is_tty, force_color, no_color),
    }
}

/// How an input is written.
#[derive(Debug, Clone, Copy, PartialEq, Eq, Structural)]
pub enum Treatment {
    /// A directory: its listing.
    Listing,
    /// A file as it is.
    PlainLines,
    /// A file with its highlighting.
    Highlighted,
}

/// How an input is written, and what goes with it.
#[derive(Debug, Clone, Copy, PartialEq, Eq, Structural)]
pub struct InputPlan {
    pub treatment: Treatment,
    /// Whether a header precedes it.
    pub header: bool,
    /// Whether line numbers stand beside it.
    pub numbers: bool,
    /// Whether its text has colors.
    pub color: bool,
}

/// How an input is written. A header precedes a file or a directory on a
/// terminal where there is more than one input. Numbers stand beside whatever is
/// read, where they are asked for. Plain output has none of all this.
pub open spec fn input_plan(
    is_file: bool,
    is_dir: bool,
    plain: bool,
    show_numbers: bool,
    use_color: bool,
    stdout_is_tty: bool,
    inputs: int,
) -> InputPlan {
    InputPlan {
        treatment: if is_file && is_dir {
            Treatment::Listing
        } else if plain {
            Treatment::PlainLines
        } else {
            Treatment::Highlighted
        },
        header: is_file && !plain && stdout_is_tty && inputs > 1,
        numbers: !plain && show_numbers,
        color: use_color && !plain,
    }
}

/// How an input is written, and what goes with it; `is_dir` is whether it is a
/// directory.
pub fn plan_input(
    input: &EatInput,
    is_dir: bool,
    plain: bool,
    show_numbers: bool,
    use_color: bool,
    stdout_is_tty: bool,
    inputs: usize,
) -> (plan: InputPlan)
    ensures
        plan == input_plan(
            input is File,
            is_dir,
            plain,
            show_numbers,
            use_color,
            stdout_is_tty,
            inputs as int,
        ),
{
    let is_file = match input {
        EatInput::File(_) => true,
        EatInput::Stdin => false,
    };
    InputPlan {
        treatment: if is_file && is_dir {
            Treatment::Listing
        } else if plain {
            Treatment::PlainLines
        } else {
            Treatment::Highlighted
        },
        header: is_file && !plain && stdout_is_tty && inputs > 1,
        numbers: !plain && show_numbers,
        color: use_color && !plain,
    }
}

/// How a run begins.
#[derive(Debug)]
pub enum RunStart {
    /// The language is not known: this is said, and the run is refused.
    UnknownLanguage(String),
    /// The short help is printed.
    ShortHelp,
    /// These are read.
    Read(Vec<EatInput>),
}

/// Whether a run begins so: a language that was asked for and is not known is
/// refused before anything else, and without files, and with a terminal to read
/// from, there is only help to give.
pub open spec fn begins(
    start: RunStart,
    program: Seq<char>,
    files: Seq<Seq<char>>,
    language: Option<Seq<char>>,
    known_language: bool,
    stdin_is_tty: bool,
) -> bool {
    match language {
        Some(name) if !known_language => start matches RunStart::UnknownLanguage(s) && s@ == program
            + ": unknown language '"@ + name + "'"@,
        _ => if stdin_is_tty && files.len() == 0 {
            start is ShortHelp
        } else {
            start matches RunStart::Read(v) && sources(v@) == sources_named(files)
        },
    }
}

/// How a run begins: `known_language` is whether the language that was asked
/// for is one. Without files, and with a terminal to read from, there is only
/// help to give.
pub fn start_run(
    program: &str,
    files: &Vec<String>,
    language: Option<&str>,
    known_language: bool,
    stdin_is_tty: bool,
) -> (start: RunStart)
    ensures
        begins(
            start,
            program@,
            texts(files@),
            text_of(language),
            known_language,
            stdin_is_tty,
        ),
{
    if let Some(name) = language {
        if !known_language {
            return RunStart::UnknownLanguage(unknown_language(program, name));
        }
    }
    if stdin_is_tty && files.len() == 0 {
        return RunStart::ShortHelp;
    }
    RunStart::Read(collect_inputs(files))
}

/// What a run that reads nothing writes, and how it ends: the reason for its
/// refusal, or the short help, both to standard error.
pub open spec fn start_finish(start: RunStart, program: Seq<char>, via_eat_flag: bool) -> Option<
    Last,
> {
    match start {
        RunStart::UnknownLanguage(text) => Some(
            Last { out: Seq::empty(), err: text@ + "\n"@, end: End::Refused },
        ),
        RunStart::ShortHelp => Some(
            Last {
                out: Seq::empty(),
                err: short_help_text(program, via_eat_flag),
                end: End::Ended,
            },
        ),
        RunStart::Read(_) => None,
    }
}

/// What a run that reads nothing writes, and how it ends; none where there is
/// something to read.
pub fn finish_start(start: &RunStart, program: &str, via_eat_flag: bool) -> (r: Option<Finish>)
    ensures
        finish_view(r) == start_finish(*start, program@, via_eat_flag),
{
    match start {
        RunStart::UnknownLanguage(text) => {
            let mut err = text.clone();
            err.append("\n");
            Some(Finish { out: String::new(), err, end: End::Refused })
        },
        RunStart::ShortHelp => Some(
            Finish { out: String::new(), err: short_help(program, via_eat_flag), end: End::Ended },
        ),
        RunStart::Read(_) => None,
    }
}

/// A run that was asked for a language that is not known says so and ends with
/// exit code 2, whatever else it was asked for. One without files, at a
/// terminal, gives the short help and ends with 0. Neither writes to standard
/// output, and every other run reads its inputs.
pub proof fn the_exit_code_of_a_run_that_reads_nothing(
    start: RunStart,
    program: Seq<char>,
    via_eat_flag: bool,
    files: Seq<Seq<char>>,
    language: Option<Seq<char>>,
    known_language: bool,
    stdin_is_tty: bool,
)
    requires
        begins(start, program, files, language, known_language, stdin_is_tty),
    ensures
        ({
            let unknown = language is Some && !known_language;
            let last = start_finish(start, program, via_eat_flag);
            &&& last is Some <==> unknown || (stdin_is_tty && files.len() == 0)
            &&& last is Some ==> last->0.out.len() == 0
            &&& unknown ==> code_of(last->0.end) == 2 && last->0.err == program
                + ": unknown language '"@ + language->0 + "'"@ + "\n"@
            &&& last is Some && !unknown ==> code_of(last->0.end) == 0 && last->0.err
                == short_help_text(program, via_eat_flag)
        }),
{
}

/// What is said about a language that is not known.
pub fn unknown_language(program: &str, name: &str) -> (s: String)
    ensures
        s@ == program@ + ": unknown language '"@ + name@ + "'"@,
{
    let mut s = program.to_owned();
    s.append(": unknown language '");
    s.append(name);
    s.append("'");
    s
}

/// How wide line numbers are beside a listing of so many rows: as wide as the
/// last one.
pub fn number_width(rows: usize) -> (width: usize)
    ensures
        width == decimal(rows as nat).len(),
{
    let mut w: usize = 1;
    let mut n: usize = rows;
    while n >= 10
        invariant
            1 <= w,
            w + decimal(n as nat).len() == 1 + decimal(rows as nat).len(),
            w + n <= 1 + rows,
        decreases n,
    {
        n = n / 10;
        w += 1;
    }
    w
}

/// The lines as one text again, each with its newline.
pub open spec fn joined(lines: Seq<Seq<char>>) -> Seq<u8>
    decreases lines.len(),
{
    if lines.len() == 0 {
        Seq::empty()
    } else {
        joined(lines.drop_last()) + encode_utf8(lines.last()) + seq![10u8]
    }
}

/// The lines as one text again, each with its newline.
pub fn join_lines(lines: &Vec<String>) -> (bytes: Vec<u8>)
    ensures
        bytes@ == joined(texts(lines@)),
{
    let mut bytes: Vec<u8> = Vec::new();
    let ghost all = texts(lines@);
    for i in 0..lines.len()
        invariant
            all == texts(lines@),
            bytes@ == joined(all.take(i as int)),
    {
        assert(all.take(i + 1).drop_last() =~= all.take(i as int));
        bytes.extend_from_slice(lines[i].as_str().as_bytes());
        bytes.push(10);
        assert(bytes@ =~= joined(all.take(i + 1)));
    }
    assert(all.take(all.len() as int) =~= all);
    bytes
}

/// What came of one input.
#[derive(Debug, Clone, Copy, PartialEq, Eq, Structural)]
pub enum InputEvent {
    /// All of it was written.
    Written,
    /// It could not be read.
    Unreadable,
    /// Whoever reads the output has gone.
    BrokenPipe,
    /// It could not be written.
    WriteFailed,
}

/// A run over its inputs.
#[derive(Debug, Clone, Copy, PartialEq, Eq, Structural)]
pub struct Progress {
    pub has_error: bool,
    /// Whether nothing more can be written.
    pub sink_closed: bool,
}

impl Progress {
    /// Nothing has been read.
    pub fn new() -> (p: Progress)
        ensures
            p == (Progress { has_error: false, sink_closed: false }),
    {
        Progress { has_error: false, sink_closed: false }
    }

    /// A run after one more input: a reader that has gone ends it without an
    /// error, and so does, with one, a plain line that could not be written.
    pub open spec fn after(self, event: InputEvent, plain_lines: bool) -> Progress {
        match event {
            InputEvent::Written => self,
            InputEvent::Unreadable => Progress { has_error: true, ..self },
            InputEvent::BrokenPipe => Progress { sink_closed: true, ..self },
            InputEvent::WriteFailed => Progress {
                has_error: true,
                sink_closed: self.sink_closed || plain_lines,
            },
        }
    }

    /// Notes what came of an input; `plain_lines` is whether it was a file
    /// written as it is.
    pub fn note(&mut self, event: InputEvent, plain_lines: bool)
        ensures
            *final(self) == old(self).after(event, plain_lines),
    {
        match event {
            InputEvent::Written => {},
            InputEvent::Unreadable => {
                self.has_error = true;
            },
            InputEvent::BrokenPipe => {
                self.sink_closed = true;
            },
            InputEvent::WriteFailed => {
                self.has_error = true;
                if plain_lines {
                    self.sink_closed = true;
                }
            },
        }
    }

    /// Whether to go on to the input at `index`, of `inputs`.
    pub fn goes_on(&self, index: usize, inputs: usize) -> (r: bool)
        ensures
            r == (index < inputs && !self.sink_closed),
            r == self.continues(index as int, inputs as int),
    {
        index < inputs && !self.sink_closed
    }

    /// How the run ends.
    pub fn end(&self) -> (end: End)
        ensures
            end == end_for(false, self.has_error),
            end == self.ends(),
    {
        end_of(false, self.has_error)
    }
}

/// What is said where something about an input fails.
pub open spec fn failure_text(program: Seq<char>, input: EatInput, reason: Seq<char>) -> Seq<char> {
    program + ": "@ + (match input {
        EatInput::File(path) => path@,
        EatInput::Stdin => "stdin"@,
    }) + ": "@ + reason
}

/// What is said where something about an input fails: the program, the input,
/// and the reason.
pub fn input_failure(program: &str, input: &EatInput, reason: &str) -> (s: String)
    ensures
        s@ == program@ + ": "@ + (match *input {
            EatInput::File(path) => path@,
            EatInput::Stdin => "stdin"@,
        }) + ": "@ + reason@,
        s@ == failure_text(program@, *input, reason@),
{
    let mut s = program.to_owned();
    s.append(": ");
    match input {
        EatInput::File(path) => {
            s.append(path.as_str());
        },
        EatInput::Stdin => {
            s.append("stdin");
        },
    }
    s.append(": ");
    s.append(reason);
    s
}

impl Progress {
    /// Whether a run goes on to the input at `index`, of `inputs`.
    pub open spec fn continues(self, index: int, inputs: int) -> bool {
        index < inputs && !self.sink_closed
    }

    /// How a run ends.
    pub open spec fn ends(self) -> End {
        end_for(false, self.has_error)
    }
}

/// An error shows in the exit code whatever comes after it, and nothing is
/// written once the output is closed.
pub proof fn errors_and_closed_output_stay(p: Progress, event: InputEvent, plain_lines: bool)
    ensures
        p.has_error ==> p.after(event, plain_lines).has_error,
        p.sink_closed ==> p.after(event, plain_lines).sink_closed,
{
}

proof fn lemma_body_is_its_pieces(
    spans: Seq<Span>,
    colors: Seq<&str>,
    line: Seq<u8>,
    use_color: bool,
    pieces: Seq<Seq<u8>>,
    n: int,
)
    requires
        0 <= n <= pieces.len(),
        forall|i: int|
            0 <= i < pieces.len() ==> #[trigger] pieces[i] == stretch(
                spans,
                colors,
                line,
                use_color,
                i,
            ),
    ensures
        stretches(spans, colors, line, use_color, n) == pieces.take(n).flatten(),
    decreases n,
{
    if n > 0 {
        lemma_body_is_its_pieces(spans, colors, line, use_color, pieces, n - 1);
        assert(pieces.take(n) =~= pieces.take(n - 1).push(pieces[n - 1]));
        pieces.take(n - 1).lemma_flatten_push(pieces[n - 1]);
    } else {
        assert(pieces.take(n) =~= Seq::empty());
    }
}

/// A line is written stretch by stretch, in order. Where colors are wanted, a
/// stretch whose kind has an entry in the table that is not empty is that entry,
/// its text and the reset; every other stretch is its text. The text of a stretch
/// ends where the next one starts, or with the line.
pub proof fn each_stretch_has_the_color_of_its_kind(
    spans: Seq<Span>,
    colors: Seq<&str>,
    line: Seq<u8>,
    use_color: bool,
    pieces: Seq<Seq<u8>>,
)
    requires
        spans.len() == pieces.len() + 1,
        forall|i: int|
            #![trigger pieces[i]]
            0 <= i < pieces.len() ==> ({
                let next = spans[i + 1].start as int;
                let end = if next <= line.len() {
                    next
                } else {
                    line.len() as int
                };
                let text = line.subrange(spans[i].start as int, end);
                let kind = spans[i].kind as int;
                if use_color && kind < colors.len() && colors[kind]@.len() > 0 {
                    pieces[i] == encode_utf8(colors[kind]@) + text + seq![27u8, 91u8, 109u8]
                } else {
                    pieces[i] == text
                }
            }),
    ensures
        body(spans, colors, line, use_color) == pieces.flatten(),
{
    assert forall|i: int| 0 <= i < pieces.len() implies #[trigger] pieces[i] == stretch(
        spans,
        colors,
        line,
        use_color,
        i,
    ) by {}
    lemma_body_is_its_pieces(spans, colors, line, use_color, pieces, pieces.len() as int);
    assert(pieces.take(pieces.len() as int) =~= pieces);
}

/// A range shows all that it asks for and nothing else: the line numbered `n` is
/// among the lines shown, at its place behind the first one, exactly where the
/// file has it, it does not come before the start that is given, and it does not
/// come after the end that is given.
pub proof fn a_range_shows_exactly_its_lines(all: Seq<String>, range: Option<LineRange>, n: int)
    ensures
        ({
            let shown = lines_shown(all, range);
            let first = first_shown(range);
            let asked = match range {
                Some(r) => {
                    &&& r.start matches Some(start) ==> n >= start
                    &&& r.end matches Some(end) ==> n <= end
                },
                None => true,
            };
            &&& 1 <= n <= all.len() && asked <==> first <= n < first + shown.len()
            &&& 1 <= n <= all.len() && asked ==> shown[n - first] == all[n - 1]
        }),
{
}

proof fn lemma_raw_lines_are(bytes: Seq<u8>, lines: Seq<Seq<u8>>)
    requires
        lines.flatten() == bytes,
        forall|i: int| 0 <= i < lines.len() ==> (#[trigger] lines[i]).len() > 0,
        forall|i: int, j: int|
            0 <= i < lines.len() && 0 <= j < lines[i].len() - 1 ==> #[trigger] lines[i][j] != 10u8,
        forall|i: int| 0 <= i < lines.len() - 1 ==> (#[trigger] lines[i]).last() == 10u8,
    ensures
        raw_lines(bytes) == lines,
    decreases lines.len(),
{
    if lines.len() > 0 {
        let first = lines[0];
        let more = lines.drop_first();
        let rest = more.flatten();
        assert(bytes == first + rest);
        assert forall|i: int| 0 <= i < more.len() implies (#[trigger] more[i]).len() > 0 by {
            assert(more[i] == lines[i + 1]);
        }
        assert forall|i: int, j: int|
            0 <= i < more.len() && 0 <= j < more[i].len() - 1 implies #[trigger] more[i][j]
            != 10u8 by {
            assert(more[i] == lines[i + 1]);
            assert(lines[i + 1][j] != 10u8);
        }
        assert forall|i: int| 0 <= i < more.len() - 1 implies (#[trigger] more[i]).last()
            == 10u8 by {
            assert(more[i] == lines[i + 1]);
        }
        lemma_raw_lines_are(rest, more);
        let end = if first.last() == 10u8 {
            first.len() - 1
        } else {
            first.len() as int
        };
        assert forall|j: int| 0 <= j < end implies bytes[j] != 10u8 by {
            if j < first.len() - 1 {
                assert(lines[0][j] != 10u8);
            }
        }
        if first.last() != 10u8 {
            assert(lines.len() == 1);
            assert(more =~= Seq::empty());
            assert(bytes =~= first);
        } else {
            assert(bytes[end] == first.last());
        }
        lemma_first_at_is(bytes, 10u8, end);
        if first.last() == 10u8 {
            assert(bytes.take(end + 1) =~= first);
            assert(bytes.skip(end + 1) =~= rest);
            assert(seq![first] + more =~= lines);
        } else {
            assert(seq![bytes] =~= lines);
        }
    }
}

proof fn lemma_put_together_is_flat(lines: Seq<Seq<u8>>)
    ensures
        put_together(lines) == lines.flatten(),
    decreases lines.len(),
{
    if lines.len() > 0 {
        lemma_put_together_is_flat(lines.drop_last());
        assert(lines.drop_last().push(lines.last()) =~= lines);
        lines.drop_last().lemma_flatten_push(lines.last());
    }
}

/// Plain output with a range is the lines from the first to the last one that
/// the range asks for, byte for byte. `lines` are the lines of the file, each
/// with its newline, which the last one may lack; those from `from` up to `to`
/// are the ones that the range asks for.
pub proof fn plain_output_is_exactly_the_lines_of_its_range(
    lines: Seq<Seq<u8>>,
    range: Option<LineRange>,
    from: int,
    to: int,
)
    requires
        forall|i: int| 0 <= i < lines.len() ==> (#[trigger] lines[i]).len() > 0,
        forall|i: int, j: int|
            0 <= i < lines.len() && 0 <= j < lines[i].len() - 1 ==> #[trigger] lines[i][j] != 10u8,
        forall|i: int| 0 <= i < lines.len() - 1 ==> (#[trigger] lines[i]).last() == 10u8,
        0 <= from <= to <= lines.len(),
        forall|i: int|
            #![trigger lines[i]]
            0 <= i < lines.len() ==> (from <= i < to <==> match range {
                Some(r) => {
                    &&& r.start matches Some(start) ==> i + 1 >= start
                    &&& r.end matches Some(end) ==> i + 1 <= end
                },
                None => true,
            }),
    ensures
        plain_bytes(lines.flatten(), range) == lines.subrange(from, to).flatten(),
{
    lemma_raw_lines_are(lines.flatten(), lines);
    let a = range_start(range, lines.len() as int);
    let b = range_end(range, lines.len() as int);
    lemma_put_together_is_flat(lines.subrange(a, b));
    if a < b {
        let first = lines[a];
        let last = lines[b - 1];
        if a > 0 {
            let x = lines[a - 1];
        }
        if b < lines.len() {
            let y = lines[b];
        }
        assert(from == a && to == b);
    } else {
        if from < to {
            let first = lines[from];
        }
        assert(lines.subrange(a, b) =~= lines.subrange(from, to));
    }
}

proof fn lemma_first_found_is(found: Seq<bool>, k: int)
    requires
        0 <= k <= found.len(),
        forall|j: int| 0 <= j < k ==> !#[trigger] found[j],
        k < found.len() ==> found[k],
    ensures
        first_found(found) == k,
    decreases found.len(),
{
    if k > 0 {
        let rest = found.drop_first();
        assert(!found[0]);
        assert forall|j: int| 0 <= j < k - 1 implies !#[trigger] rest[j] by {
            assert(rest[j] == found[j + 1]);
        }
        if k < found.len() {
            assert(rest[k - 1] == found[k]);
        }
        lemma_first_found_is(rest, k - 1);
    }
}

/// A pager that is named is taken, `EAT_PAGER` before `PAGER`; a variable that is
/// set to nothing names none.
pub proof fn a_named_pager_is_taken(
    eat_pager: Option<Seq<char>>,
    pager: Option<Seq<char>>,
    path: Option<Seq<char>>,
    found: Seq<bool>,
)
    ensures
        ({
            let next = pager_next(eat_pager, pager, path, found);
            let eat_named = eat_pager is Some && eat_pager->0.len() > 0;
            let named = pager is Some && pager->0.len() > 0;
            &&& eat_named ==> next == PagerNext::Found(eat_pager->0)
            &&& !eat_named && named ==> next == PagerNext::Found(pager->0)
            &&& !eat_named && !named && path is None ==> next == PagerNext::NotFound
        }),
{
}

/// Where no pager is named, `less` is looked for in the directories of `PATH`,
/// one after the other, until it is found; the first one that has it is taken,
/// and there is no pager where none has it. `k` is how many of the directories
/// that were looked into do not have it, before the first that has.
pub proof fn less_is_looked_for_in_each_directory(
    eat_pager: Option<Seq<char>>,
    pager: Option<Seq<char>>,
    dirs: Seq<Seq<char>>,
    found: Seq<bool>,
    k: int,
)
    requires
        eat_pager is None || eat_pager->0.len() == 0,
        pager is None || pager->0.len() == 0,
        dirs.len() > 0,
        forall|i: int, j: int|
            0 <= i < dirs.len() && 0 <= j < dirs[i].len() ==> #[trigger] dirs[i][j] != ':',
        0 <= k <= found.len() <= dirs.len(),
        forall|j: int| 0 <= j < k ==> !#[trigger] found[j],
        k < found.len() ==> found[k],
    ensures
        ({
            let path = dirs.drop_last().map_values(|d: Seq<char>| d.push(':')).flatten()
                + dirs.last();
            let next = pager_next(eat_pager, pager, Some(path), found);
            let slash = if dirs[k].len() == 0 || dirs[k].last() == '/' {
                Seq::<char>::empty()
            } else {
                seq!['/']
            };
            let less = dirs[k] + slash + seq!['l', 'e', 's', 's'];
            &&& k < found.len() ==> next == PagerNext::Found(less)
            &&& k == found.len() && k < dirs.len() ==> next == PagerNext::Look(less)
            &&& k == dirs.len() ==> next == PagerNext::NotFound
        }),
{
    crate::text::splitting_undoes_joining(dirs, ':');
    lemma_first_found_is(found, k);
    reveal_strlit("/");
    reveal_strlit("less");
    if k < dirs.len() {
        let dir = dirs[k];
        assert("/"@ =~= seq!['/']);
        assert("less"@ =~= seq!['l', 'e', 's', 's']);
        assert(dir + Seq::<char>::empty() =~= dir);
    }
}

/// Only `less` gets arguments: it passes escape sequences through, quits where
/// all fits on one screen, and chops long lines exactly where they are not to
/// wrap.
pub proof fn only_less_gets_arguments(name: Seq<char>, wrap: bool)
    ensures
        name == "less"@ <==> pager_arguments(name, wrap).contains("-R"@),
        name == "less"@ <==> pager_arguments(name, wrap).contains("-F"@),
        name == "less"@ && !wrap <==> pager_arguments(name, wrap).contains("-S"@),
        pager_arguments(name, wrap).len() == (if name != "less"@ {
            0int
        } else if wrap {
            2
        } else {
            3
        }),
{
    reveal_strlit("-R");
    reveal_strlit("-F");
    reveal_strlit("-S");
    let args = pager_arguments(name, wrap);
    assert("-R"@[1] != "-S"@[1]);
    assert("-F"@[1] != "-S"@[1]);
    if name == "less"@ {
        assert(args[0] == "-R"@ && args[1] == "-F"@);
        if !wrap {
            assert(args[2] == "-S"@);
        }
    }
}

/// The header of a file is its path between two rules of hyphens, on a line of
/// its own; color makes that bold and adds nothing else, and a file without a
/// header has nothing.
pub proof fn a_header_is_the_path_between_rules(path: Seq<char>, use_color: bool)
    ensures
        ({
            let line = seq!['-', '-', '-', ' '] + path + seq![' ', '-', '-', '-'];
            &&& header_text(Some(path), false) == line + seq!['\n']
            &&& header_text(Some(path), true) == seq!['\x1b', '[', '1', 'm'] + line + seq![
                '\x1b',
                '[',
                'm',
            ] + seq!['\n']
            &&& header_text(None, use_color) == Seq::<char>::empty()
        }),
{
    reveal_strlit("\x1b[1m--- ");
    reveal_strlit(" ---\x1b[m\n");
    reveal_strlit("--- ");
    reveal_strlit(" ---\n");
    let line = seq!['-', '-', '-', ' '] + path + seq![' ', '-', '-', '-'];
    assert(header_text(Some(path), false) =~= line + seq!['\n']);
    assert(header_text(Some(path), true) =~= seq!['\x1b', '[', '1', 'm'] + line + seq![
        '\x1b',
        '[',
        'm',
    ] + seq!['\n']);
}

proof fn lemma_listing_is_its_pieces(
    prefixes: Seq<Vec<u8>>,
    rows: Seq<Seq<char>>,
    pieces: Seq<Seq<u8>>,
)
    requires
        pieces.len() == rows.len(),
        forall|i: int|
            0 <= i < rows.len() ==> #[trigger] pieces[i] == (if i < prefixes.len() {
                prefixes[i]@
            } else {
                Seq::empty()
            }) + encode_utf8(rows[i]) + seq![10u8],
    ensures
        listing_bytes(prefixes, rows) == pieces.flatten(),
    decreases rows.len(),
{
    if rows.len() > 0 {
        let n = rows.len() - 1;
        let front = pieces.drop_last();
        assert forall|i: int| 0 <= i < rows.drop_last().len() implies #[trigger] front[i] == (if i
            < prefixes.len() {
            prefixes[i]@
        } else {
            Seq::empty()
        }) + encode_utf8(rows.drop_last()[i]) + seq![10u8] by {
            assert(front[i] == pieces[i]);
        }
        lemma_listing_is_its_pieces(prefixes, rows.drop_last(), front);
        assert(front.push(pieces[n]) =~= pieces);
        front.lemma_flatten_push(pieces[n]);
        assert(listing_bytes(prefixes, rows) =~= front.flatten() + pieces[n]);
    }
}

/// Every row of a listing is written, in order: what stands before it, where
/// there is anything, the row, and a newline.
pub proof fn every_row_of_a_listing_is_written(
    prefixes: Seq<Vec<u8>>,
    rows: Seq<Seq<char>>,
    pieces: Seq<Seq<u8>>,
)
    requires
        pieces.len() == rows.len(),
        forall|i: int|
            #![trigger pieces[i]]
            0 <= i < rows.len() ==> {
                &&& i < prefixes.len() ==> pieces[i] == prefixes[i]@ + encode_utf8(rows[i])
                    + seq![10u8]
                &&& i >= prefixes.len() ==> pieces[i] == encode_utf8(rows[i]) + seq![10u8]
            },
    ensures
        listing_bytes(prefixes, rows) == pieces.flatten(),
{
    assert forall|i: int| 0 <= i < rows.len() implies #[trigger] pieces[i] == (if i
        < prefixes.len() {
        prefixes[i]@
    } else {
        Seq::empty()
    }) + encode_utf8(rows[i]) + seq![10u8] by {
        if i >= prefixes.len() {
            assert(Seq::<u8>::empty() + encode_utf8(rows[i]) =~= encode_utf8(rows[i]));
        }
    }
    lemma_listing_is_its_pieces(prefixes, rows, pieces);
}

/// Lines that are joined are all there, in order, each with its newline.
pub proof fn joined_lines_are_all_there(lines: Seq<Seq<char>>)
    ensures
        joined(lines) == lines.map_values(|l: Seq<char>| encode_utf8(l) + seq![10u8]).flatten(),
    decreases lines.len(),
{
    let pieces = lines.map_values(|l: Seq<char>| encode_utf8(l) + seq![10u8]);
    if lines.len() > 0 {
        let front = lines.drop_last();
        joined_lines_are_all_there(front);
        let front_pieces = front.map_values(|l: Seq<char>| encode_utf8(l) + seq![10u8]);
        let last = encode_utf8(lines.last()) + seq![10u8];
        assert(pieces =~= front_pieces.push(last));
        front_pieces.lemma_flatten_push(last);
        assert(joined(lines) =~= front_pieces.flatten() + last);
    }
}

/// Each argument is read in its place: `-` is standard input wherever it stands
/// and however often, anything else is a file by that name, and without any
/// argument standard input is read once.
pub proof fn each_argument_is_read_in_its_place(files: Seq<Seq<char>>, i: int)
    ensures
        files.len() > 0 ==> sources_named(files).len() == files.len(),
        0 <= i < files.len() && files[i] == seq!['-'] ==> sources_named(files)[i] == Source::Stdin,
        0 <= i < files.len() && files[i] != seq!['-'] ==> sources_named(files)[i] == Source::File(
            files[i],
        ),
        files.len() == 0 ==> sources_named(files) == seq![Source::Stdin],
{
    reveal_strlit("-");
    assert("-"@ =~= seq!['-']);
}

/// Plain output is never paged; other output is where that is asked for, and by
/// default on a terminal.
pub proof fn when_output_is_paged(plain: bool, stdout_is_tty: bool)
    ensures
        !pages(true, PagingMode::Always, stdout_is_tty),
        !pages(true, PagingMode::Auto, stdout_is_tty),
        !pages(plain, PagingMode::Never, stdout_is_tty),
        pages(false, PagingMode::Always, stdout_is_tty),
        pages(false, PagingMode::Auto, stdout_is_tty) <==> stdout_is_tty,
{
}

/// A directory is listed whatever else is asked for. Anything else is written as
/// it is where the output is plain, and highlighted otherwise.
pub proof fn a_directory_is_listed_and_a_file_is_written(
    is_file: bool,
    is_dir: bool,
    plain: bool,
    show_numbers: bool,
    use_color: bool,
    stdout_is_tty: bool,
    inputs: int,
)
    ensures
        ({
            let p = input_plan(
                is_file,
                is_dir,
                plain,
                show_numbers,
                use_color,
                stdout_is_tty,
                inputs,
            );
            &&& p.treatment == Treatment::Listing <==> is_file && is_dir
            &&& p.treatment == Treatment::PlainLines <==> plain && !(is_file && is_dir)
            &&& p.treatment == Treatment::Highlighted <==> !plain && !(is_file && is_dir)
        }),
{
}

/// Plain output has no headers, no numbers and no color. Other output has a
/// header before each file exactly where there are several inputs and the output
/// is a terminal, and numbers and color exactly where they are asked for.
pub proof fn what_goes_with_an_input(
    is_file: bool,
    is_dir: bool,
    show_numbers: bool,
    use_color: bool,
    stdout_is_tty: bool,
    inputs: int,
)
    ensures
        ({
            let p = input_plan(
                is_file,
                is_dir,
                true,
                show_numbers,
                use_color,
                stdout_is_tty,
                inputs,
            );
            !p.header && !p.numbers && !p.color
        }),
        ({
            let p = input_plan(
                is_file,
                is_dir,
                false,
                show_numbers,
                use_color,
                stdout_is_tty,
                inputs,
            );
            &&& p.header <==> is_file && stdout_is_tty && inputs >= 2
            &&& p.numbers <==> show_numbers
            &&& p.color <==> use_color
        }),
{
}

/// An input that cannot be read is an error and does not end the run; a reader
/// that has gone ends it without one; output that cannot be written is an error,
/// and ends the run where the file is written as it is; and an input that was
/// written changes nothing.
pub proof fn what_an_input_does_to_the_run(p: Progress, plain_lines: bool)
    ensures
        p.after(InputEvent::Written, plain_lines) == p,
        p.after(InputEvent::Unreadable, plain_lines).has_error,
        p.after(InputEvent::Unreadable, plain_lines).sink_closed == p.sink_closed,
        p.after(InputEvent::BrokenPipe, plain_lines).sink_closed,
        p.after(InputEvent::BrokenPipe, plain_lines).has_error == p.has_error,
        p.after(InputEvent::WriteFailed, plain_lines).has_error,
        p.after(InputEvent::WriteFailed, true).sink_closed,
        p.after(InputEvent::WriteFailed, false).sink_closed == p.sink_closed,
{
}

/// A finished line is all that stands before it, its stretches, each in the color
/// of its kind where it has one, and one newline. `pieces` are its stretches.
pub proof fn a_finished_line_is_whole(
    prefix: Seq<u8>,
    spans: Seq<Span>,
    colors: Seq<&str>,
    line: Seq<u8>,
    use_color: bool,
    pieces: Seq<Seq<u8>>,
)
    requires
        spans.len() == pieces.len() + 1,
        forall|i: int|
            #![trigger pieces[i]]
            0 <= i < pieces.len() ==> ({
                let next = spans[i + 1].start as int;
                let end = if next <= line.len() {
                    next
                } else {
                    line.len() as int
                };
                let text = line.subrange(spans[i].start as int, end);
                let kind = spans[i].kind as int;
                if use_color && kind < colors.len() && colors[kind]@.len() > 0 {
                    pieces[i] == encode_utf8(colors[kind]@) + text + seq![27u8, 91u8, 109u8]
                } else {
                    pieces[i] == text
                }
            }),
    ensures
        finished_line(prefix, spans, colors, line, use_color) == prefix + pieces.flatten() + seq![
            10u8,
        ],
{
    each_stretch_has_the_color_of_its_kind(spans, colors, line, use_color, pieces);
}

/// Without stretches a line has no text, only what stands before it and its
/// newline.
pub proof fn a_line_without_stretches_is_empty(
    prefix: Seq<u8>,
    spans: Seq<Span>,
    colors: Seq<&str>,
    line: Seq<u8>,
    use_color: bool,
)
    requires
        spans.len() <= 1,
    ensures
        body(spans, colors, line, use_color).len() == 0,
        finished_line(prefix, spans, colors, line, use_color) == prefix.push(10u8),
{
    assert(finished_line(prefix, spans, colors, line, use_color) =~= prefix.push(10u8));
}

/// A listing is its header, where it has one, and then all its rows. `pieces` are
/// the rows, each with what stands before it and its newline.
pub proof fn a_listing_is_its_header_and_its_rows(
    header: Option<Seq<char>>,
    use_color: bool,
    prefixes: Seq<Vec<u8>>,
    rows: Seq<Seq<char>>,
    pieces: Seq<Seq<u8>>,
)
    requires
        pieces.len() == rows.len(),
        forall|i: int|
            #![trigger pieces[i]]
            0 <= i < rows.len() ==> {
                &&& i < prefixes.len() ==> pieces[i] == prefixes[i]@ + encode_utf8(rows[i])
                    + seq![10u8]
                &&& i >= prefixes.len() ==> pieces[i] == encode_utf8(rows[i]) + seq![10u8]
            },
    ensures
        listing_output(header, use_color, prefixes, rows) == encode_utf8(
            header_text(header, use_color),
        ) + pieces.flatten(),
{
    every_row_of_a_listing_is_written(prefixes, rows, pieces);
}

/// Each line that a range shows stands beside its own number in the file.
pub proof fn each_line_stands_beside_its_number(all: Seq<String>, range: Option<LineRange>, i: int)
    requires
        0 <= i < lines_shown(all, range).len(),
        all.len() <= usize::MAX,
    ensures
        ({
            let shown = lines_shown(all, range);
            let numbers = numbers_from(first_shown(range), shown.len());
            &&& numbers.len() == shown.len()
            &&& 1 <= numbers[i] <= all.len()
            &&& shown[i] == all[numbers[i] - 1]
        }),
{
    a_range_shows_exactly_its_lines(all, range, first_shown(range) + i);
}

/// Numbers go up one by one from the first.
pub proof fn numbers_go_up_one_by_one(first_line: int, shown: nat, i: int)
    requires
        0 <= i < shown,
        0 <= first_line,
        first_line + shown - 1 <= usize::MAX,
    ensures
        numbers_from(first_line, shown).len() == shown,
        numbers_from(first_line, shown)[i] == first_line + i,
{
}

/// A pager gets color unless that is forbidden; without one, what decides is what
/// decides on color elsewhere.
pub proof fn a_pager_gets_color(
    mode: ColorMode,
    stdout_is_tty: bool,
    force_color: Option<Seq<u8>>,
    no_color: Option<Seq<u8>>,
)
    ensures
        mode != ColorMode::Never ==> run_colored(mode, true, stdout_is_tty, force_color, no_color),
        !run_colored(ColorMode::Never, true, stdout_is_tty, force_color, no_color),
        run_colored(mode, false, stdout_is_tty, force_color, no_color) == uses_color(
            mode,
            stdout_is_tty,
            force_color,
            no_color,
        ),
{
}

/// Every line of a conflict is marked as one, whatever a diff says of it, and
/// every other line has the mark that the diff gives it.
pub proof fn a_conflict_outranks_the_diff(diff: GutterMark)
    ensures
        mark_shown(true, diff) == GutterMark::Conflict,
        mark_shown(false, diff) == diff,
{
}

/// What is said about a failure names the program, then the file, or standard
/// input where that is what failed, then the reason.
pub proof fn a_failure_names_its_input(program: Seq<char>, input: EatInput, reason: Seq<char>)
    ensures
        input matches EatInput::File(path) ==> failure_text(program, input, reason) == program
            + ": "@ + path@ + ": "@ + reason,
        input is Stdin ==> failure_text(program, input, reason) == program + ": "@ + "stdin"@
            + ": "@ + reason,
{
}

/// A run goes on to its next input unless the output is closed, however many
/// errors there were, and ends with 1 exactly where there was one.
pub proof fn a_run_goes_on_after_errors(p: Progress, index: int, inputs: int)
    ensures
        p.continues(index, inputs) <==> index < inputs && !p.sink_closed,
        code_of(p.ends()) == (if p.has_error {
            1int
        } else {
            0
        }),
{
}

/// What is read is what is modelled: a file by its path, standard input as such.
pub proof fn a_source_is_what_is_read(v: Seq<EatInput>, i: int)
    requires
        0 <= i < v.len(),
    ensures
        sources(v).len() == v.len(),
        v[i] matches EatInput::File(path) ==> sources(v)[i] == Source::File(path@),
        v[i] is Stdin ==> sources(v)[i] == Source::Stdin,
{
}

/// A range that is given is the range that counts, and none is none.
pub proof fn a_range_is_the_one_given(r: LineRange)
    ensures
        range_of(Some(&r)) == Some(r),
        range_of(None) is None,
{
}

/// A step towards a pager is the step of the model, with the same path.
pub proof fn a_step_towards_a_pager_is_the_one_taken(step: PagerStep, path: Seq<char>)
    ensures
        pager_takes(step, PagerNext::Found(path)) <==> step is Found && step->Found_0@ == path,
        pager_takes(step, PagerNext::Look(path)) <==> step is Look && step->Look_0@ == path,
        pager_takes(step, PagerNext::NotFound) <==> step is NotFound,
{
}

/// How a run begins is settled by three questions: whether a language was asked
/// for that is not known, and then whether there is neither a file nor anything
/// but a terminal to read; otherwise all that is named is read.
pub proof fn how_a_run_begins(
    start: RunStart,
    program: Seq<char>,
    files: Seq<Seq<char>>,
    language: Option<Seq<char>>,
    known_language: bool,
    stdin_is_tty: bool,
)
    requires
        begins(start, program, files, language, known_language, stdin_is_tty),
    ensures
        start is UnknownLanguage <==> language is Some && !known_language,
        start is ShortHelp <==> !(language is Some && !known_language) && stdin_is_tty
            && files.len() == 0,
        start matches RunStart::Read(v) ==> sources(v@) == sources_named(files),
{
}

} // verus!
