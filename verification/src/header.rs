//! The header lines of the two viewers.
use crate::text::{decimal, decimal_text, digit_char, signed_decimal, signed_text};
use crate::viewer::CoordType;
use vstd::prelude::*;
use vstd::string::StringExecFns;

verus! {

/// A number below a hundred in two digits.
pub open spec fn two_digits(n: int) -> Seq<char> {
    seq![digit_char((n / 10) as nat), digit_char((n % 10) as nat)]
}

/// The time of day, in UTC, of a number of seconds since the epoch.
pub open spec fn clock_text(secs: int) -> Seq<char> {
    two_digits((secs / 3600) % 24) + ":"@ + two_digits((secs / 60) % 60) + ":"@ + two_digits(
        secs % 60,
    )
}

fn push_two_digits(s: &mut String, n: u64)
    requires
        n < 100,
    ensures
        final(s)@ == old(s)@ + two_digits(n as int),
{
    let tens = (48 + (n / 10) as u8) as char;
    let ones = (48 + (n % 10) as u8) as char;
    s.push(tens);
    s.push(ones);
    assert(s@ == old(s)@ + two_digits(n as int));
}

/// The time of day, in UTC, of a number of seconds since the epoch:
/// `hh:mm:ss`.
pub fn format_clock(secs: u64) -> (s: String)
    ensures
        s@ == clock_text(secs as int),
{
    let mut s = String::new();
    push_two_digits(&mut s, (secs / 3600) % 24);
    s.append(":");
    push_two_digits(&mut s, (secs / 60) % 60);
    s.append(":");
    push_two_digits(&mut s, secs % 60);
    assert(s@ == clock_text(secs as int));
    s
}

/// The header of the snapshot view.
pub open spec fn snapshot_header_text(label: Seq<char>, secs: int, file_changed: bool) -> Seq<
    char,
> {
    label + " @ "@ + clock_text(secs) + (if file_changed {
        "  [modified on disk]"@
    } else {
        ""@
    }) + "  (q exit, r reload, w wrap, arrows/g/G/PgUp/PgDn scroll)"@
}

/// The header of the snapshot view: the file, the time, and whether the file
/// changed since it was read.
pub fn snapshot_header(label: &str, secs: u64, file_changed: bool) -> (s: String)
    ensures
        s@ == snapshot_header_text(label@, secs as int, file_changed),
{
    let mut s = label.to_owned();
    s.append(" @ ");
    s.append(format_clock(secs).as_str());
    s.append(
        if file_changed {
            "  [modified on disk]"
        } else {
            ""
        },
    );
    s.append("  (q exit, r reload, w wrap, arrows/g/G/PgUp/PgDn scroll)");
    s
}

/// Where the follow view stands, in lines of the file.
#[derive(Debug, Clone, Copy, PartialEq, Eq, Structural)]
pub struct HeaderCounts {
    pub top_line: CoordType,
    pub total_lines: CoordType,
}

/// The header of the follow view.
pub open spec fn follow_header_text(
    label: Seq<char>,
    secs: int,
    following: bool,
    poll_ms: nat,
    counts: HeaderCounts,
) -> Seq<char> {
    label + " ["@ + (if following {
        "following"@
    } else {
        "paused"@
    }) + "] line "@ + signed_decimal(counts.top_line as int) + "/"@ + signed_decimal(
        counts.total_lines as int,
    ) + " @ "@ + clock_text(secs) + "  ("@ + decimal(poll_ms)
        + "ms arrows/g/G/PgUp/PgDn scroll, w wrap, q)"@
}

/// The header of the follow view: the file, whether it follows, the line at
/// the top and how many there are, the time, and how often the file is polled.
pub fn follow_mount_header(
    label: &str,
    secs: u64,
    following: bool,
    poll_ms: u64,
    counts: HeaderCounts,
) -> (s: String)
    ensures
        s@ == follow_header_text(label@, secs as int, following, poll_ms as nat, counts),
{
    let mut s = label.to_owned();
    s.append(" [");
    s.append(
        if following {
            "following"
        } else {
            "paused"
        },
    );
    s.append("] line ");
    s.append(signed_text(counts.top_line as i64).as_str());
    s.append("/");
    s.append(signed_text(counts.total_lines as i64).as_str());
    s.append(" @ ");
    s.append(format_clock(secs).as_str());
    s.append("  (");
    s.append(decimal_text(poll_ms).as_str());
    s.append("ms arrows/g/G/PgUp/PgDn scroll, w wrap, q)");
    s
}

/// Memo for the line at the top of the follow view. Finding the line that a row
/// belongs to is a walk, and the header is made at every tick, so it is found
/// again only where the rows or the text moved.
#[derive(Debug, Clone, Copy)]
pub struct TopLineCache {
    pub key: Option<(CoordType, u32)>,
    pub line: CoordType,
}

impl Default for TopLineCache {
    /// Nothing is known yet.
    fn default() -> (cache: TopLineCache)
        ensures
            forall|scroll_y: CoordType, generation: u32|
                cache.known(scroll_y, generation) is None,
    {
        TopLineCache { key: None, line: 0 }
    }
}

impl TopLineCache {
    /// The line at the top for a row and a generation of the text, where it is
    /// known.
    pub open spec fn known(self, scroll_y: CoordType, generation: u32) -> Option<CoordType> {
        if self.key == Some((scroll_y, generation)) {
            Some(self.line)
        } else {
            None
        }
    }

    /// The line at the top for a row and a generation of the text, where it is
    /// known.
    pub fn get(&self, scroll_y: CoordType, generation: u32) -> (line: Option<CoordType>)
        ensures
            line == self.known(scroll_y, generation),
    {
        match self.key {
            Some((y, g)) => if y == scroll_y && g == generation {
                Some(self.line)
            } else {
                None
            },
            None => None,
        }
    }

    /// Remembers the line that a row belongs to, `line_index` counted from 0;
    /// returns it counted from 1.
    pub fn fill(&mut self, scroll_y: CoordType, generation: u32, line_index: CoordType) -> (line:
        CoordType)
        requires
            line_index < isize::MAX,
        ensures
            line == line_index + 1,
            forall|y: CoordType, g: u32| #[trigger]
                final(self).known(y, g) == (if y == scroll_y && g == generation {
                    Some(line)
                } else {
                    None
                }),
    {
        self.key = Some((scroll_y, generation));
        self.line = line_index + 1;
        self.line
    }
}

/// The clock shows hours, minutes and seconds of the day, each in two digits: the
/// seconds since midnight are what they add up to.
pub proof fn the_clock_shows_the_time_of_day(secs: int, h: int, m: int, s: int, days: int)
    requires
        secs == days * 86_400 + h * 3600 + m * 60 + s,
        0 <= h < 24,
        0 <= m < 60,
        0 <= s < 60,
        days >= 0,
    ensures
        ({
            let t = clock_text(secs);
            let digit = |c: char| c as u32 - '0' as u32;
            &&& t.len() == 8
            &&& t[2] == ':' && t[5] == ':'
            &&& digit(t[0]) * 10 + digit(t[1]) == h
            &&& digit(t[3]) * 10 + digit(t[4]) == m
            &&& digit(t[6]) * 10 + digit(t[7]) == s
        }),
{
    reveal_strlit(":");
    assert(secs / 3600 == days * 24 + h);
    assert((days * 24 + h) % 24 == h);
    assert(secs / 60 == (days * 24 + h) * 60 + m);
    assert(((days * 24 + h) * 60 + m) % 60 == m);
    assert(secs % 60 == s);
}

/// The header of the snapshot view names the file, the time and the keys, and says
/// that the file was modified exactly where it was.
pub proof fn what_the_snapshot_header_says(label: Seq<char>, secs: int)
    ensures
        ({
            let start = label + seq![' ', '@', ' '] + clock_text(secs);
            let keys = "  (q exit, r reload, w wrap, arrows/g/G/PgUp/PgDn scroll)"@;
            &&& snapshot_header_text(label, secs, false) == start + keys
            &&& snapshot_header_text(label, secs, true) == start + "  [modified on disk]"@ + keys
        }),
{
    reveal_strlit(" @ ");
    reveal_strlit("");
    assert(" @ "@ =~= seq![' ', '@', ' ']);
    let start = label + seq![' ', '@', ' '] + clock_text(secs);
    assert(start + ""@ =~= start);
}

/// The header of the follow view names the file and says whether it follows, the
/// line at the top and how many there are, the time, and how often it polls.
pub proof fn what_the_follow_header_says(
    label: Seq<char>,
    secs: int,
    poll_ms: nat,
    counts: HeaderCounts,
)
    ensures
        ({
            let rest = "] line "@ + signed_decimal(counts.top_line as int) + "/"@ + signed_decimal(
                counts.total_lines as int,
            ) + " @ "@ + clock_text(secs) + "  ("@ + decimal(poll_ms)
                + "ms arrows/g/G/PgUp/PgDn scroll, w wrap, q)"@;
            &&& follow_header_text(label, secs, true, poll_ms, counts) == label + " [following"@
                + rest
            &&& follow_header_text(label, secs, false, poll_ms, counts) == label + " [paused"@
                + rest
        }),
{
    reveal_strlit(" [");
    reveal_strlit("following");
    reveal_strlit("paused");
    reveal_strlit(" [following");
    reveal_strlit(" [paused");
    assert(" ["@ + "following"@ =~= " [following"@);
    assert(" ["@ + "paused"@ =~= " [paused"@);
    let rest = "] line "@ + signed_decimal(counts.top_line as int) + "/"@ + signed_decimal(
        counts.total_lines as int,
    ) + " @ "@ + clock_text(secs) + "  ("@ + decimal(poll_ms)
        + "ms arrows/g/G/PgUp/PgDn scroll, w wrap, q)"@;
    assert(follow_header_text(label, secs, true, poll_ms, counts) =~= label + " [following"@
        + rest);
    assert(follow_header_text(label, secs, false, poll_ms, counts) =~= label + " [paused"@ + rest);
}

} // verus!
