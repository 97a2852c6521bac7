//! The command line of eat: its modes, its values, and the adjustments made to
//! the arguments before they are parsed.
//!
//! Bare `-L` and bare `-f` are rewritten to carry their default values, since
//! the argument parser has no notion of an option whose value is optional.
use crate::duration::{duration_of, FollowDuration};
use crate::text::{
    after_prefix,
    chars_of,
    decimal,
    decimal_text,
    digits_value,
    find_from,
    first_at,
    is_digit,
    same_text,
    slice_chars,
    string_between,
    strip_prefix,
    text_of,
    texts,
    trim,
    trim_end,
    trim_start,
    white_space,
};
use vstd::prelude::*;
use vstd::string::StringExecFns;

verus! {

/// When to use colors.
#[derive(Debug, Clone, Copy, PartialEq, Eq, Structural)]
pub enum ColorMode {
    Auto,
    Always,
    Never,
}

/// When to use a pager.
#[derive(Debug, Clone, Copy, PartialEq, Eq, Structural)]
pub enum PagingMode {
    Auto,
    Always,
    Never,
}

/// When to wrap long lines.
#[derive(Debug, Clone, Copy, PartialEq, Eq, Structural)]
pub enum WrapMode {
    Auto,
    Always,
    Never,
}

/// How the known languages are listed.
#[derive(Debug, Clone, Copy, PartialEq, Eq, Structural)]
pub enum ListFormat {
    Pretty,
    Plain,
    Json,
}

/// A list format as a command line value.
#[derive(Debug, Clone, Copy, PartialEq, Eq, Structural)]
pub struct ListFormatArg(pub ListFormat);

/// The parsed command line.
#[derive(Debug, PartialEq)]
pub struct Cli {
    /// Overrides syntax detection.
    pub language: Option<String>,
    /// No highlighting, decorations, or paging.
    pub plain: bool,
    /// Shows line numbers.
    pub number: bool,
    /// `N | N: | :M | N:M`.
    pub line_range: Option<String>,
    pub color: ColorMode,
    pub paging: PagingMode,
    pub wrap: WrapMode,
    /// Follows appends.
    pub follow: Option<FollowDuration>,
    /// Prints the known languages.
    pub list_languages: Option<ListFormatArg>,
    /// Prints the version.
    pub version: bool,
    /// The files to read; `-` is standard input, a directory is listed.
    pub files: Vec<String>,
}

impl ColorMode {
    /// The mode that a value names.
    pub open spec fn named(value: Seq<char>) -> Option<ColorMode> {
        if value == "auto"@ {
            Some(ColorMode::Auto)
        } else if value == "always"@ {
            Some(ColorMode::Always)
        } else if value == "never"@ {
            Some(ColorMode::Never)
        } else {
            None
        }
    }

    /// Reads a color mode.
    pub fn from_arg_value(value: &str) -> (r: Result<ColorMode, String>)
        ensures
            match r {
                Ok(m) => ColorMode::named(value@) == Some(m),
                Err(e) => ColorMode::named(value@) is None && e@ == "invalid color mode: "@ + value@
                    + ". expected auto, always, or never"@,
            },
    {
        if same_text(value, "auto") {
            Ok(ColorMode::Auto)
        } else if same_text(value, "always") {
            Ok(ColorMode::Always)
        } else if same_text(value, "never") {
            Ok(ColorMode::Never)
        } else {
            let mut e = "invalid color mode: ".to_owned();
            e.append(value);
            e.append(". expected auto, always, or never");
            Err(e)
        }
    }
}

impl PagingMode {
    /// The mode that a value names.
    pub open spec fn named(value: Seq<char>) -> Option<PagingMode> {
        if value == "auto"@ {
            Some(PagingMode::Auto)
        } else if value == "always"@ {
            Some(PagingMode::Always)
        } else if value == "never"@ {
            Some(PagingMode::Never)
        } else {
            None
        }
    }

    /// Reads a paging mode.
    pub fn from_arg_value(value: &str) -> (r: Result<PagingMode, String>)
        ensures
            match r {
                Ok(m) => PagingMode::named(value@) == Some(m),
                Err(e) => PagingMode::named(value@) is None && e@ == "invalid paging mode: "@
                    + value@ + ". expected auto, always, or never"@,
            },
    {
        if same_text(value, "auto") {
            Ok(PagingMode::Auto)
        } else if same_text(value, "always") {
            Ok(PagingMode::Always)
        } else if same_text(value, "never") {
            Ok(PagingMode::Never)
        } else {
            let mut e = "invalid paging mode: ".to_owned();
            e.append(value);
            e.append(". expected auto, always, or never");
            Err(e)
        }
    }
}

impl WrapMode {
    /// The mode that a value names.
    pub open spec fn named(value: Seq<char>) -> Option<WrapMode> {
        if value == "auto"@ {
            Some(WrapMode::Auto)
        } else if value == "always"@ {
            Some(WrapMode::Always)
        } else if value == "never"@ {
            Some(WrapMode::Never)
        } else {
            None
        }
    }

    /// Reads a wrap mode.
    pub fn from_arg_value(value: &str) -> (r: Result<WrapMode, String>)
        ensures
            match r {
                Ok(m) => WrapMode::named(value@) == Some(m),
                Err(e) => WrapMode::named(value@) is None && e@ == "invalid wrap mode: "@ + value@
                    + ". expected auto, always, or never"@,
            },
    {
        if same_text(value, "auto") {
            Ok(WrapMode::Auto)
        } else if same_text(value, "always") {
            Ok(WrapMode::Always)
        } else if same_text(value, "never") {
            Ok(WrapMode::Never)
        } else {
            let mut e = "invalid wrap mode: ".to_owned();
            e.append(value);
            e.append(". expected auto, always, or never");
            Err(e)
        }
    }

    /// Wrap state the viewers start in. `auto` wraps: a viewer only ever runs
    /// on a terminal, and clipping long lines by default hides content.
    pub fn resolve(self) -> (wrap: bool)
        ensures
            wrap == self.wraps(),
            wrap == (self != WrapMode::Never),
    {
        self != WrapMode::Never
    }
}

impl WrapMode {
    /// Whether long lines wrap.
    pub open spec fn wraps(self) -> bool {
        self != WrapMode::Never
    }
}

impl ListFormat {
    /// The format that a value names.
    pub open spec fn named(value: Seq<char>) -> Option<ListFormat> {
        if value == "pretty"@ {
            Some(ListFormat::Pretty)
        } else if value == "plain"@ {
            Some(ListFormat::Plain)
        } else if value == "json"@ {
            Some(ListFormat::Json)
        } else {
            None
        }
    }

    /// Reads a list format.
    pub fn parse(value: &str) -> (r: Result<ListFormat, String>)
        ensures
            match r {
                Ok(f) => ListFormat::named(value@) == Some(f),
                Err(e) => ListFormat::named(value@) is None && e@ == "invalid list format: "@
                    + value@ + ". expected pretty, plain, or json"@,
            },
    {
        if same_text(value, "pretty") {
            Ok(ListFormat::Pretty)
        } else if same_text(value, "plain") {
            Ok(ListFormat::Plain)
        } else if same_text(value, "json") {
            Ok(ListFormat::Json)
        } else {
            let mut e = "invalid list format: ".to_owned();
            e.append(value);
            e.append(". expected pretty, plain, or json");
            Err(e)
        }
    }
}

impl ListFormatArg {
    /// Reads a list format from the command line.
    pub fn from_arg_value(value: &str) -> (r: Result<ListFormatArg, String>)
        ensures
            match r {
                Ok(f) => ListFormat::named(value@) == Some(f.0),
                Err(e) => ListFormat::named(value@) is None && e@ == "invalid list format: "@
                    + value@ + ". expected pretty, plain, or json"@,
            },
    {
        match ListFormat::parse(value) {
            Ok(f) => Ok(ListFormatArg(f)),
            Err(e) => Err(e),
        }
    }
}

/// Whether to emit ANSI colour. In order of precedence: the command line flag;
/// a `FORCE_COLOR` that is not empty and not `0`; a `NO_COLOR` that is not
/// empty, per <https://no-color.org>; whether the output is a terminal.
pub open spec fn uses_color(
    mode: ColorMode,
    output_is_tty: bool,
    force_color: Option<Seq<u8>>,
    no_color: Option<Seq<u8>>,
) -> bool {
    match mode {
        ColorMode::Always => true,
        ColorMode::Never => false,
        ColorMode::Auto => {
            let forced = force_color matches Some(v) && v.len() > 0 && v != seq![48u8];
            let disabled = no_color matches Some(v) && v.len() > 0;
            forced || (!disabled && output_is_tty)
        },
    }
}

/// The bytes of an environment variable that may be unset.
pub open spec fn bytes_of(v: Option<&[u8]>) -> Option<Seq<u8>> {
    match v {
        Some(b) => Some(b@),
        None => None,
    }
}

/// Whether to emit ANSI colour, given the values of `FORCE_COLOR` and
/// `NO_COLOR`.
pub fn resolve_use_color_with_env(
    mode: ColorMode,
    output_is_tty: bool,
    force_color: Option<&[u8]>,
    no_color: Option<&[u8]>,
) -> (r: bool)
    ensures
        r == uses_color(mode, output_is_tty, bytes_of(force_color), bytes_of(no_color)),
{
    // An explicit flag wins.
    match mode {
        ColorMode::Always => {
            return true;
        },
        ColorMode::Never => {
            return false;
        },
        ColorMode::Auto => {},
    }
    if let Some(v) = force_color {
        assert(v@.len() == 1 && v@[0] == 48 ==> v@ =~= seq![48u8]);
        assert(v@ == seq![48u8] ==> v@.len() == 1 && v@[0] == 48);
        if v.len() > 0 && !(v.len() == 1 && v[0] == 48) {
            return true;
        }
    }
    if let Some(v) = no_color {
        if v.len() > 0 {
            return false;
        }
    }
    output_is_tty
}

/// Why a text is not a count.
#[derive(Debug, Clone, Copy, PartialEq, Eq, Structural)]
pub enum CountError {
    Empty,
    InvalidDigit,
    TooLarge,
}

/// How many characters at the start of `s` are decimal digits.
pub open spec fn digit_run(s: Seq<char>) -> nat
    decreases s.len(),
{
    if s.len() == 0 || !is_digit(s[0]) {
        0
    } else {
        1 + digit_run(s.drop_first())
    }
}

/// The number that `s` writes: an optional plus sign and decimal digits, of
/// which the number may be at most `max`. Whether it is too large shows as soon
/// as the digits so far are.
pub open spec fn count_of(s: Seq<char>, max: nat) -> Result<nat, CountError> {
    let digits = if s.len() > 1 && s[0] == '+' {
        s.skip(1)
    } else {
        s
    };
    let run = digits.take(digit_run(digits) as int);
    if s.len() == 0 {
        Err(CountError::Empty)
    } else if digits_value(run) > max {
        Err(CountError::TooLarge)
    } else if run.len() < digits.len() {
        Err(CountError::InvalidDigit)
    } else {
        Ok(digits_value(run))
    }
}

impl CountError {
    /// What the error says.
    pub open spec fn spec_text(self) -> Seq<char> {
        match self {
            CountError::Empty => "cannot parse integer from empty string"@,
            CountError::InvalidDigit => "invalid digit found in string"@,
            CountError::TooLarge => "number too large to fit in target type"@,
        }
    }

    /// What the error says.
    pub fn text(self) -> (s: &'static str)
        ensures
            s@ == self.spec_text(),
    {
        match self {
            CountError::Empty => "cannot parse integer from empty string",
            CountError::InvalidDigit => "invalid digit found in string",
            CountError::TooLarge => "number too large to fit in target type",
        }
    }
}

proof fn lemma_digits_grow(s: Seq<char>, i: int, j: int)
    requires
        0 <= i <= j <= s.len(),
    ensures
        digits_value(s.take(i)) <= digits_value(s.take(j)),
    decreases j - i,
{
    if i < j {
        lemma_digits_grow(s, i, j - 1);
        assert(s.take(j).drop_last() == s.take(j - 1));
    }
}

proof fn lemma_digit_run(s: Seq<char>, k: int)
    requires
        0 <= k <= s.len(),
        forall|i: int| 0 <= i < k ==> is_digit(s[i]),
    ensures
        k <= digit_run(s) <= s.len(),
        k < s.len() && !is_digit(s[k]) ==> digit_run(s) == k,
    decreases s.len(),
{
    if k > 0 {
        let rest = s.drop_first();
        assert forall|i: int| 0 <= i < k - 1 implies is_digit(rest[i]) by {
            assert(rest[i] == s[i + 1]);
        }
        if k < s.len() {
            assert(rest[k - 1] == s[k]);
        }
        lemma_digit_run(rest, k - 1);
    } else if s.len() > 0 {
        if is_digit(s[0]) {
            lemma_digit_run(s.drop_first(), 0);
        }
    }
}

/// The number that the characters write, at most `max`.
pub fn parse_count(s: &[char], max: u64) -> (r: Result<u64, CountError>)
    ensures
        match r {
            Ok(n) => count_of(s@, max as nat) == Ok::<nat, CountError>(n as nat),
            Err(e) => count_of(s@, max as nat) == Err::<nat, CountError>(e),
        },
{
    if s.len() == 0 {
        return Err(CountError::Empty);
    }
    let from: usize = if s.len() > 1 && s[0] == '+' {
        1
    } else {
        0
    };
    let ghost digits = s@.skip(from as int);
    assert(s@.skip(0) == s@);
    let mut n: u64 = 0;
    let mut i: usize = from;
    while i < s.len()
        invariant
            from <= i <= s@.len(),
            digits == s@.skip(from as int),
            digits == if s@.len() > 1 && s@[0] == '+' {
                s@.skip(1)
            } else {
                s@
            },
            s@.len() > 0,
            n == digits_value(digits.take(i - from)),
            n <= max,
            forall|j: int| 0 <= j < i - from ==> is_digit(digits[j]),
        decreases s@.len() - i,
    {
        let c = s[i];
        let ghost at = i - from;
        assert(digits[at] == c);
        proof {
            lemma_digit_run(digits, at);
        }
        if !('0' <= c && c <= '9') {
            return Err(CountError::InvalidDigit);
        }
        let d = c as u64 - 48;
        proof {
            assert(digits.take(at + 1).drop_last() == digits.take(at));
            lemma_digit_run(digits, at + 1);
            lemma_digits_grow(digits, at + 1, digit_run(digits) as int);
        }
        if n > (u64::MAX - d) / 10 || n * 10 + d > max {
            return Err(CountError::TooLarge);
        }
        n = n * 10 + d;
        i += 1;
    }
    proof {
        lemma_digit_run(digits, digits.len() as int);
        assert(digits.take(digits.len() as int) == digits);
    }
    Ok(n)
}

/// A range of lines, counted from 1; an open end is not set.
#[derive(Debug, Clone, Copy, PartialEq, Eq)]
pub struct LineRange {
    pub start: Option<usize>,
    pub end: Option<usize>,
}

/// The line number on one side of a range; none where that side is empty.
pub open spec fn bound_of(s: Seq<char>) -> Result<Option<nat>, Seq<char>> {
    if s.len() == 0 {
        Ok(None)
    } else {
        match count_of(s, usize::MAX as nat) {
            Ok(n) => Ok(Some(n)),
            Err(e) => Err("invalid line number: "@ + e.spec_text()),
        }
    }
}

/// What a line range means: the texts before and after its first colon, or the
/// whole of it as the start.
pub open spec fn line_range_of(s: Seq<char>) -> Result<(Option<nat>, Option<nat>), Seq<char>> {
    let i = first_at(s, ':');
    let end = if i < s.len() {
        s.skip(i + 1)
    } else {
        Seq::empty()
    };
    if s.len() == 0 {
        Err("empty line range"@)
    } else {
        match bound_of(s.take(i)) {
            Err(e) => Err(e),
            Ok(start) => match bound_of(end) {
                Err(e) => Err(e),
                Ok(end) => Ok((start, end)),
            },
        }
    }
}

/// An optional machine number as an optional natural.
pub open spec fn as_nat(n: Option<usize>) -> Option<nat> {
    match n {
        Some(n) => Some(n as nat),
        None => None,
    }
}

fn parse_bound(s: &[char]) -> (r: Result<Option<usize>, String>)
    ensures
        match r {
            Ok(n) => bound_of(s@) == Ok::<Option<nat>, Seq<char>>(as_nat(n)),
            Err(e) => bound_of(s@) == Err::<Option<nat>, Seq<char>>(e@),
        },
{
    if s.len() == 0 {
        return Ok(None);
    }
    match parse_count(s, usize::MAX as u64) {
        Ok(n) => Ok(Some(n as usize)),
        Err(e) => {
            let mut text = "invalid line number: ".to_owned();
            text.append(e.text());
            Err(text)
        },
    }
}

/// Reads a line range: `N`, `N:`, `:M` or `N:M`.
pub fn parse_line_range(s: &str) -> (r: Result<LineRange, String>)
    ensures
        match r {
            Ok(l) => line_range_of(s@) == Ok::<(Option<nat>, Option<nat>), Seq<char>>(
                (as_nat(l.start), as_nat(l.end)),
            ),
            Err(e) => line_range_of(s@) == Err::<(Option<nat>, Option<nat>), Seq<char>>(e@),
        },
{
    let chars = chars_of(s);
    if chars.len() == 0 {
        return Err("empty line range".to_owned());
    }
    let colon = find_from(chars.as_slice(), 0, ':');
    assert(s@.skip(0) == s@);
    let after: usize = if colon < chars.len() {
        colon + 1
    } else {
        chars.len()
    };
    let left = slice_chars(chars.as_slice(), 0, colon);
    let right = slice_chars(chars.as_slice(), after, chars.len());
    proof {
        assert(left@ == s@.take(colon as int));
        assert(right@ == if colon < s@.len() {
            s@.skip(colon + 1)
        } else {
            Seq::empty()
        });
    }
    match parse_bound(left.as_slice()) {
        Err(e) => Err(e),
        Ok(start) => match parse_bound(right.as_slice()) {
            Err(e) => Err(e),
            Ok(end) => Ok(LineRange { start, end }),
        },
    }
}

/// What prints where eat is run without arguments on a terminal.
pub open spec fn short_help_text(name: Seq<char>, via_eat_flag: bool) -> Seq<char> {
    "usage: "@ + called_as(name, via_eat_flag)
        + " [-l <lang>] [-p] [-n] [-L] [--line-range <RANGE>] [--color <WHEN>] [--paging <WHEN>] [--wrap <WHEN>] [-f [<DUR>]] [--version] [FILES...]\ntry `"@
        + called_as(name, via_eat_flag) + " --help` for more details.\n"@
}

/// What prints where eat is run without arguments on a terminal. The program is
/// named as it was called.
pub fn short_help(name: &str, via_eat_flag: bool) -> (s: String)
    ensures
        s@ == short_help_text(name@, via_eat_flag),
{
    let mut s = "usage: ".to_owned();
    push_called_as(&mut s, name, via_eat_flag);
    s.append(
        " [-l <lang>] [-p] [-n] [-L] [--line-range <RANGE>] [--color <WHEN>] [--paging <WHEN>] [--wrap <WHEN>] [-f [<DUR>]] [--version] [FILES...]\ntry `",
    );
    push_called_as(&mut s, name, via_eat_flag);
    s.append(" --help` for more details.\n");
    s
}

/// How the program was called: by its name, or by the editor's with `--eat`.
pub open spec fn called_as(name: Seq<char>, via_eat_flag: bool) -> Seq<char> {
    if via_eat_flag {
        name + " --eat"@
    } else {
        name
    }
}

fn push_called_as(s: &mut String, name: &str, via_eat_flag: bool)
    ensures
        final(s)@ == old(s)@ + called_as(name@, via_eat_flag),
{
    s.append(name);
    if via_eat_flag {
        s.append(" --eat");
    }
}

/// The help text to print: where eat was called as the editor's `--eat`, the
/// usage line says so.
pub open spec fn help_shown(help: Seq<char>, via_eat_flag: bool, argv0: Seq<char>) -> Seq<char> {
    let i = first_at(help, '\n');
    if !via_eat_flag || i == help.len() {
        help + "\n"@
    } else {
        let first = help.take(i);
        let rest = help.skip(i + 1);
        let usage = "Usage: "@ + argv0;
        let line = match after_prefix(first, usage) {
            Some(args) => usage + " --eat"@ + args,
            None => first,
        };
        line + "\n"@ + rest + "\n"@
    }
}

/// The help text to print, from the one that the argument parser made.
pub fn help_text(help: &str, via_eat_flag: bool, argv0: &str) -> (s: String)
    ensures
        s@ == help_shown(help@, via_eat_flag, argv0@),
{
    let chars = chars_of(help);
    let i = find_from(chars.as_slice(), 0, '\n');
    assert(help@.skip(0) == help@);
    if !via_eat_flag || i == chars.len() {
        let mut s = help.to_owned();
        s.append("\n");
        return s;
    }
    let first = string_between(chars.as_slice(), 0, i);
    let rest = string_between(chars.as_slice(), i + 1, chars.len());
    proof {
        assert(first@ == help@.take(i as int));
        assert(rest@ == help@.skip(i + 1));
    }
    let mut usage = "Usage: ".to_owned();
    usage.append(argv0);
    let mut s = match strip_prefix(first.as_str(), usage.as_str()) {
        Some(args) => {
            let mut line = usage.clone();
            line.append(" --eat");
            line.append(args.as_str());
            line
        },
        None => first,
    };
    s.append("\n");
    s.append(rest.as_str());
    s.append("\n");
    s
}

/// What prints where the arguments are not accepted.
pub open spec fn usage_error_text(output: Seq<char>, argv0: Seq<char>, via_eat_flag: bool) -> Seq<
    char,
> {
    output + "\nRun "@ + argv0 + (if via_eat_flag {
        " --eat --help"@
    } else {
        " --help"@
    }) + " for more information.\n"@
}

/// What prints where the arguments are not accepted.
pub fn usage_error(output: &str, argv0: &str, via_eat_flag: bool) -> (s: String)
    ensures
        s@ == usage_error_text(output@, argv0@, via_eat_flag),
        s@ == output@ + "\nRun "@ + argv0@ + (if via_eat_flag {
            " --eat --help"@
        } else {
            " --help"@
        }) + " for more information.\n"@,
{
    let mut s = output.to_owned();
    s.append("\nRun ");
    s.append(argv0);
    s.append(
        if via_eat_flag {
            " --eat --help"
        } else {
            " --help"
        },
    );
    s.append(" for more information.\n");
    s
}

/// The name that prefixes messages: the file stem of the called program, where
/// it has one.
pub fn prog_name(stem: Option<&str>) -> (s: String)
    ensures
        s@ == match stem {
            Some(stem) => stem@,
            None => "eat"@,
        },
{
    match stem {
        Some(stem) => stem.to_owned(),
        None => "eat".to_owned(),
    }
}

/// Whether help is asked for, anywhere among the arguments.
pub open spec fn asks_for_help(argv: Seq<Seq<char>>) -> bool {
    exists|i: int| 1 <= i < argv.len() && (#[trigger] argv[i] == "-h"@ || argv[i] == "--help"@)
}

/// Whether help is asked for, anywhere among the arguments.
pub fn wants_help(argv: &Vec<String>) -> (r: bool)
    ensures
        r == asks_for_help(texts(argv@)),
{
    let mut i: usize = 1;
    while i < argv.len()
        invariant
            1 <= i,
            forall|j: int| 1 <= j < i && j < argv@.len() ==> argv@[j]@ != "-h"@ && argv@[j]@
                != "--help"@,
        decreases argv@.len() - i,
    {
        let a = argv[i].as_str();
        assert(texts(argv@)[i as int] == argv@[i as int]@);
        if same_text(a, "-h") || same_text(a, "--help") {
            return true;
        }
        i += 1;
    }
    proof {
        assert forall|j: int| 1 <= j < texts(argv@).len() implies #[trigger] texts(argv@)[j]
            != "-h"@ && texts(argv@)[j] != "--help"@ by {
            assert(texts(argv@)[j] == argv@[j]@);
        }
    }
    false
}

/// The value that a bare `-f` gets: the number of milliseconds in
/// `EAT_FOLLOW_INTERVAL_MS`, where that is one.
pub open spec fn follow_default(interval_ms: Option<Seq<char>>) -> Seq<char> {
    match interval_ms {
        Some(s) => match count_of(s, u64::MAX as nat) {
            Ok(n) => decimal(n) + "ms"@,
            Err(_) => "250ms"@,
        },
        None => "250ms"@,
    }
}

fn follow_default_text(interval_ms: Option<&str>) -> (s: String)
    ensures
        s@ == follow_default(text_of(interval_ms)),
{
    if let Some(v) = interval_ms {
        let chars = chars_of(v);
        if let Ok(n) = parse_count(chars.as_slice(), u64::MAX) {
            let mut s = decimal_text(n);
            s.append("ms");
            return s;
        }
    }
    "250ms".to_owned()
}

/// The arguments from the `i`th on, with the values that bare options stand
/// for, and without the `--eat` that called eat.
pub open spec fn rewritten_from(
    argv: Seq<Seq<char>>,
    i: int,
    via_eat_flag: bool,
    default: Seq<char>,
) -> Seq<Seq<char>>
    decreases argv.len() - i,
{
    if i >= argv.len() {
        Seq::empty()
    } else {
        let a = argv[i];
        let next = rewritten_from(argv, i + 1, via_eat_flag, default);
        if via_eat_flag && a == "--eat"@ {
            next
        } else if a == "-L"@ || a == "--list-languages"@ {
            if i + 1 < argv.len() && ListFormat::named(argv[i + 1]) is Some {
                seq![a] + next
            } else {
                seq![a, "pretty"@] + next
            }
        } else if a == "-f"@ || a == "--follow"@ {
            if i + 1 < argv.len() && duration_of(argv[i + 1]) is Ok {
                seq![a, argv[i + 1]] + rewritten_from(argv, i + 2, via_eat_flag, default)
            } else {
                seq![a, default] + next
            }
        } else {
            seq![a] + next
        }
    }
}

/// The arguments as the argument parser gets them; the first one, the program,
/// stays.
pub open spec fn rewritten(
    argv: Seq<Seq<char>>,
    via_eat_flag: bool,
    interval_ms: Option<Seq<char>>,
) -> Seq<Seq<char>> {
    seq![argv[0]] + rewritten_from(argv, 1, via_eat_flag, follow_default(interval_ms))
}

proof fn lemma_texts_push(v: Seq<String>, s: String)
    ensures
        texts(v.push(s)) == texts(v).push(s@),
{
    assert(texts(v.push(s)) =~= texts(v).push(s@));
}

/// The arguments as the argument parser gets them. `interval_ms` is the value
/// of `EAT_FOLLOW_INTERVAL_MS`.
pub fn rewrite_args(argv: &Vec<String>, via_eat_flag: bool, interval_ms: Option<&str>) -> (v: Vec<
    String,
>)
    requires
        argv@.len() > 0,
    ensures
        texts(v@) == rewritten(texts(argv@), via_eat_flag, text_of(interval_ms)),
{
    let default = follow_default_text(interval_ms);
    let mut v: Vec<String> = Vec::new();
    v.push(argv[0].clone());
    let mut i: usize = 1;
    let ghost all = texts(argv@);
    let ghost goal = rewritten(all, via_eat_flag, text_of(interval_ms));
    assert(texts(v@) =~= seq![all[0]]);
    while i < argv.len()
        invariant
            1 <= i <= argv@.len(),
            all == texts(argv@),
            default@ == follow_default(text_of(interval_ms)),
            texts(v@) + rewritten_from(all, i as int, via_eat_flag, default@) == goal,
        decreases argv@.len() - i,
    {
        let a = argv[i].as_str();
        let ghost done = texts(v@);
        assert(all[i as int] == a@);
        assert(i + 1 < argv@.len() ==> all[i + 1] == argv@[i + 1]@);
        let ghost next = rewritten_from(all, i + 1, via_eat_flag, default@);
        if via_eat_flag && same_text(a, "--eat") {
            i += 1;
        } else if same_text(a, "-L") || same_text(a, "--list-languages") {
            proof {
                lemma_texts_push(v@, argv@[i as int]);
            }
            v.push(argv[i].clone());
            let next_is_format = i + 1 < argv.len() && is_format(argv[i + 1].as_str());
            if !next_is_format {
                let pretty = "pretty".to_owned();
                proof {
                    lemma_texts_push(v@, pretty);
                }
                v.push(pretty);
                assert(texts(v@) + next =~= done + (seq![a@, "pretty"@] + next));
            } else {
                assert(texts(v@) + next =~= done + (seq![a@] + next));
            }
            i += 1;
        } else if same_text(a, "-f") || same_text(a, "--follow") {
            proof {
                lemma_texts_push(v@, argv@[i as int]);
            }
            v.push(argv[i].clone());
            let has_duration = i + 1 < argv.len() && FollowDuration::parse(
                argv[i + 1].as_str(),
            ).is_ok();
            if has_duration {
                proof {
                    lemma_texts_push(v@, argv@[i + 1]);
                }
                v.push(argv[i + 1].clone());
                assert(texts(v@) + rewritten_from(all, i + 2, via_eat_flag, default@) =~= done + (
                seq![a@, all[i + 1]] + rewritten_from(all, i + 2, via_eat_flag, default@)));
                i += 2;
            } else {
                proof {
                    lemma_texts_push(v@, default);
                }
                v.push(default.clone());
                assert(texts(v@) + next =~= done + (seq![a@, default@] + next));
                i += 1;
            }
        } else {
            proof {
                lemma_texts_push(v@, argv@[i as int]);
            }
            v.push(argv[i].clone());
            assert(texts(v@) + next =~= done + (seq![a@] + next));
            i += 1;
        }
    }
    v
}

/// Whether the text names a list format.
fn is_format(s: &str) -> (r: bool)
    ensures
        r == (ListFormat::named(s@) is Some),
{
    same_text(s, "pretty") || same_text(s, "plain") || same_text(s, "json")
}

/// The options that take a duration.
pub open spec fn is_follow_option(s: Seq<char>) -> bool {
    s == "-f"@ || s == "--follow"@
}

/// The options that take a list format.
pub open spec fn is_list_option(s: Seq<char>) -> bool {
    s == "-L"@ || s == "--list-languages"@
}

proof fn lemma_trim_end_keeps_the_first(s: Seq<char>)
    requires
        s.len() > 0,
        !white_space(s[0]),
    ensures
        trim_end(s).len() > 0,
        trim_end(s)[0] == s[0],
    decreases s.len(),
{
    if white_space(s.last()) {
        assert(s.drop_last()[0] == s[0]);
        lemma_trim_end_keeps_the_first(s.drop_last());
    }
}

proof fn lemma_a_hyphen_is_no_duration(s: Seq<char>)
    requires
        s.len() > 0,
        s[0] == '-',
    ensures
        duration_of(s) is Err,
{
    assert(trim_start(s) == s);
    lemma_trim_end_keeps_the_first(s);
    let t = trim(s);
    assert(t[0] == '-');
    assert(t.take(0) =~= Seq::<char>::empty());
}

proof fn lemma_decimal_starts_with_a_digit(n: nat)
    ensures
        decimal(n).len() > 0,
        is_digit(decimal(n)[0]),
    decreases n,
{
    if n >= 10 {
        lemma_decimal_starts_with_a_digit(n / 10);
    }
}

proof fn lemma_options_differ()
    ensures
        forall|s: Seq<char>| #[trigger] is_follow_option(s) ==> s.len() > 0 && s[0] == '-',
        forall|s: Seq<char>| #[trigger] is_list_option(s) ==> s.len() > 0 && s[0] == '-',
        forall|s: Seq<char>| #[trigger]
            ListFormat::named(s) is Some ==> s.len() > 0 && s[0] != '-' && s != "--eat"@,
        forall|s: Seq<char>| !(#[trigger] is_follow_option(s) && #[trigger] is_list_option(s)),
{
    reveal_strlit("-f");
    reveal_strlit("--follow");
    reveal_strlit("-L");
    reveal_strlit("--list-languages");
    reveal_strlit("pretty");
    reveal_strlit("plain");
    reveal_strlit("json");
    reveal_strlit("--eat");
    assert("-L"@[1] != "-f"@[1]);
    assert("--list-languages"@[2] != "--follow"@[2]);
}

proof fn lemma_options_get_values(
    argv: Seq<Seq<char>>,
    i: int,
    via_eat_flag: bool,
    default: Seq<char>,
    k: int,
)
    requires
        0 <= k < rewritten_from(argv, i, via_eat_flag, default).len(),
        default.len() > 0,
        default[0] != '-',
    ensures
        ({
            let o = rewritten_from(argv, i, via_eat_flag, default);
            &&& is_follow_option(o[k]) ==> k + 1 < o.len() && (o[k + 1] == default || duration_of(
                o[k + 1],
            ) is Ok)
            &&& is_list_option(o[k]) ==> k + 1 < o.len() && ListFormat::named(o[k + 1]) is Some
        }),
    decreases argv.len() - i,
{
    lemma_options_differ();
    let o = rewritten_from(argv, i, via_eat_flag, default);
    let a = argv[i];
    let next = rewritten_from(argv, i + 1, via_eat_flag, default);
    if via_eat_flag && a == "--eat"@ {
        lemma_options_get_values(argv, i + 1, via_eat_flag, default, k);
    } else if is_list_option(a) && i + 1 < argv.len() && ListFormat::named(argv[i + 1]) is Some {
        if k == 0 {
            let value = argv[i + 1];
            assert(!is_follow_option(value) && !is_list_option(value));
            assert(next[0] == value);
            assert(o[1] == value);
        } else {
            lemma_options_get_values(argv, i + 1, via_eat_flag, default, k - 1);
        }
    } else if is_list_option(a) {
        if k == 0 {
            assert(o[1] == "pretty"@);
        } else if k == 1 {
            assert(ListFormat::named("pretty"@) is Some);
            assert(o[1] == "pretty"@);
        } else {
            lemma_options_get_values(argv, i + 1, via_eat_flag, default, k - 2);
        }
    } else if is_follow_option(a) && i + 1 < argv.len() && duration_of(argv[i + 1]) is Ok {
        if k == 1 {
            if argv[i + 1].len() > 0 && argv[i + 1][0] == '-' {
                lemma_a_hyphen_is_no_duration(argv[i + 1]);
            }
        } else if k > 1 {
            lemma_options_get_values(argv, i + 2, via_eat_flag, default, k - 2);
        }
    } else if is_follow_option(a) {
        if k > 1 {
            lemma_options_get_values(argv, i + 1, via_eat_flag, default, k - 2);
        }
    } else if k > 0 {
        lemma_options_get_values(argv, i + 1, via_eat_flag, default, k - 1);
    }
}

/// Every option that needs a value has one once the arguments are rewritten: a
/// follow option is followed by a duration, or by the default one, and a list
/// option by a list format.
pub proof fn every_option_gets_its_value(
    argv: Seq<Seq<char>>,
    via_eat_flag: bool,
    interval_ms: Option<Seq<char>>,
    k: int,
)
    requires
        1 <= k < rewritten(argv, via_eat_flag, interval_ms).len(),
    ensures
        ({
            let o = rewritten(argv, via_eat_flag, interval_ms);
            &&& is_follow_option(o[k]) ==> k + 1 < o.len() && (o[k + 1] == follow_default(
                interval_ms,
            ) || duration_of(o[k + 1]) is Ok)
            &&& is_list_option(o[k]) ==> k + 1 < o.len() && ListFormat::named(o[k + 1]) is Some
        }),
{
    let default = follow_default(interval_ms);
    reveal_strlit("250ms");
    if let Some(s) = interval_ms {
        if let Ok(n) = count_of(s, u64::MAX as nat) {
            lemma_decimal_starts_with_a_digit(n);
            assert(default[0] == decimal(n)[0]);
        }
    }
    lemma_options_get_values(argv, 1, via_eat_flag, default, k - 1);
}

/// A duration and a list format are none of the options, so an option is never
/// taken for the value of another one.
proof fn lemma_a_value_is_no_option(s: Seq<char>)
    requires
        duration_of(s) is Ok || ListFormat::named(s) is Some,
    ensures
        s != "-f"@,
        s != "--follow"@,
        s != "-L"@,
        s != "--list-languages"@,
        s != "--eat"@,
{
    lemma_options_differ();
    reveal_strlit("--eat");
    assert(is_follow_option("-f"@) && is_follow_option("--follow"@));
    assert(is_list_option("-L"@) && is_list_option("--list-languages"@));
    if s.len() > 0 && s[0] == '-' && duration_of(s) is Ok {
        lemma_a_hyphen_is_no_duration(s);
    }
    if duration_of(s) is Ok && s.len() == 0 {
        assert(trim(s) =~= s);
    }
}

proof fn lemma_rewritten_is_its_pieces(
    argv: Seq<Seq<char>>,
    i: int,
    via_eat_flag: bool,
    default: Seq<char>,
    pieces: Seq<Seq<Seq<char>>>,
)
    requires
        0 <= i <= argv.len(),
        pieces.len() == argv.len(),
        forall|j: int| #![trigger pieces[j]] i <= j < argv.len() ==> ({
            let a = argv[j];
            let last = j + 1 == argv.len();
            if via_eat_flag && a == "--eat"@ {
                pieces[j] == Seq::<Seq<char>>::empty()
            } else if (a == "-f"@ || a == "--follow"@) && (last || duration_of(argv[j + 1]) is Err) {
                pieces[j] == seq![a, default]
            } else if (a == "-L"@ || a == "--list-languages"@) && (last || ListFormat::named(
                argv[j + 1],
            ) is None) {
                pieces[j] == seq![a, "pretty"@]
            } else {
                pieces[j] == seq![a]
            }
        }),
    ensures
        rewritten_from(argv, i, via_eat_flag, default) == pieces.skip(i).flatten(),
    decreases argv.len() - i,
{
    if i < argv.len() {
        lemma_rewritten_is_its_pieces(argv, i + 1, via_eat_flag, default, pieces);
        lemma_options_differ();
        let a = argv[i];
        assert(is_follow_option(a) == (a == "-f"@ || a == "--follow"@));
        assert(is_list_option(a) == (a == "-L"@ || a == "--list-languages"@));
        assert(pieces.skip(i).drop_first() =~= pieces.skip(i + 1));
        assert(pieces.skip(i).flatten() == pieces[i] + pieces.skip(i + 1).flatten());
        if !(via_eat_flag && a == "--eat"@) && is_follow_option(a) && i + 1 < argv.len()
            && duration_of(argv[i + 1]) is Ok {
            lemma_a_value_is_no_option(argv[i + 1]);
            lemma_rewritten_is_its_pieces(argv, i + 2, via_eat_flag, default, pieces);
            assert(pieces.skip(i + 1).drop_first() =~= pieces.skip(i + 2));
            assert(pieces.skip(i + 1).flatten() == pieces[i + 1] + pieces.skip(i + 2).flatten());
            assert(pieces[i + 1] == seq![argv[i + 1]]);
            assert(seq![a, argv[i + 1]] + pieces.skip(i + 2).flatten() =~= seq![a] + (
            seq![argv[i + 1]] + pieces.skip(i + 2).flatten()));
        } else if via_eat_flag && a == "--eat"@ {
            assert(pieces[i] + pieces.skip(i + 1).flatten() =~= pieces.skip(i + 1).flatten());
        }
    } else {
        assert(pieces.skip(i) =~= Seq::empty());
    }
}

/// Every argument stands in the rewritten ones as it is and in its place. A
/// default is put behind `-f` and `--follow` exactly where no duration follows,
/// and `pretty` behind `-L` and `--list-languages` exactly where no list format
/// follows; and `--eat` goes exactly where eat was called by it. `pieces` are
/// what becomes of each argument.
pub proof fn each_argument_is_rewritten_in_its_place(
    argv: Seq<Seq<char>>,
    via_eat_flag: bool,
    interval_ms: Option<Seq<char>>,
    pieces: Seq<Seq<Seq<char>>>,
)
    requires
        argv.len() > 0,
        pieces.len() == argv.len(),
        pieces[0] == seq![argv[0]],
        forall|j: int| #![trigger pieces[j]] 1 <= j < argv.len() ==> ({
            let a = argv[j];
            let last = j + 1 == argv.len();
            if via_eat_flag && a == "--eat"@ {
                pieces[j] == Seq::<Seq<char>>::empty()
            } else if (a == "-f"@ || a == "--follow"@) && (last || duration_of(argv[j + 1]) is Err) {
                pieces[j] == seq![a, follow_default(interval_ms)]
            } else if (a == "-L"@ || a == "--list-languages"@) && (last || ListFormat::named(
                argv[j + 1],
            ) is None) {
                pieces[j] == seq![a, "pretty"@]
            } else {
                pieces[j] == seq![a]
            }
        }),
    ensures
        rewritten(argv, via_eat_flag, interval_ms) == pieces.flatten(),
{
    lemma_rewritten_is_its_pieces(argv, 1, via_eat_flag, follow_default(interval_ms), pieces);
    assert(pieces.drop_first() =~= pieces.skip(1));
}

/// Arguments in which every option that takes a value has one already, and
/// without the `--eat` that called eat, stay as they are.
pub proof fn complete_arguments_are_left_alone(
    argv: Seq<Seq<char>>,
    via_eat_flag: bool,
    interval_ms: Option<Seq<char>>,
)
    requires
        argv.len() > 0,
        forall|j: int| #![trigger argv[j]] 1 <= j < argv.len() ==> ({
            &&& !(via_eat_flag && argv[j] == "--eat"@)
            &&& argv[j] == "-f"@ || argv[j] == "--follow"@ ==> j + 1 < argv.len() && duration_of(
                argv[j + 1],
            ) is Ok
            &&& argv[j] == "-L"@ || argv[j] == "--list-languages"@ ==> j + 1 < argv.len()
                && ListFormat::named(argv[j + 1]) is Some
        }),
    ensures
        rewritten(argv, via_eat_flag, interval_ms) == argv,
{
    let pieces = argv.map_values(|a: Seq<char>| seq![a]);
    assert forall|j: int| 1 <= j < argv.len() implies #[trigger] pieces[j] == seq![argv[j]] by {}
    each_argument_is_rewritten_in_its_place(argv, via_eat_flag, interval_ms, pieces);
    lemma_single_pieces(argv);
}

proof fn lemma_single_pieces(argv: Seq<Seq<char>>)
    ensures
        argv.map_values(|a: Seq<char>| seq![a]).flatten() == argv,
    decreases argv.len(),
{
    let pieces = argv.map_values(|a: Seq<char>| seq![a]);
    if argv.len() > 0 {
        let front = argv.drop_last();
        lemma_single_pieces(front);
        let front_pieces = front.map_values(|a: Seq<char>| seq![a]);
        assert(pieces =~= front_pieces.push(seq![argv.last()]));
        front_pieces.lemma_flatten_push(seq![argv.last()]);
        assert(front + seq![argv.last()] =~= argv);
    }
}

/// The words for when to do something: `auto`, `always` and `never`, and no
/// others.
pub proof fn the_words_for_when(value: Seq<char>)
    ensures
        ColorMode::named(value) == Some(ColorMode::Auto) <==> value == "auto"@,
        ColorMode::named(value) == Some(ColorMode::Always) <==> value == "always"@,
        ColorMode::named(value) == Some(ColorMode::Never) <==> value == "never"@,
        PagingMode::named(value) == Some(PagingMode::Auto) <==> value == "auto"@,
        PagingMode::named(value) == Some(PagingMode::Always) <==> value == "always"@,
        PagingMode::named(value) == Some(PagingMode::Never) <==> value == "never"@,
        WrapMode::named(value) == Some(WrapMode::Auto) <==> value == "auto"@,
        WrapMode::named(value) == Some(WrapMode::Always) <==> value == "always"@,
        WrapMode::named(value) == Some(WrapMode::Never) <==> value == "never"@,
{
    reveal_strlit("auto");
    reveal_strlit("always");
    reveal_strlit("never");
    assert("auto"@.len() != "always"@.len());
    assert("auto"@.len() != "never"@.len());
    assert("always"@.len() != "never"@.len());
}

/// The words for a list format: `pretty`, `plain` and `json`, and no others.
pub proof fn the_words_for_a_list_format(value: Seq<char>)
    ensures
        ListFormat::named(value) == Some(ListFormat::Pretty) <==> value == "pretty"@,
        ListFormat::named(value) == Some(ListFormat::Plain) <==> value == "plain"@,
        ListFormat::named(value) == Some(ListFormat::Json) <==> value == "json"@,
{
    reveal_strlit("pretty");
    reveal_strlit("plain");
    reveal_strlit("json");
    assert("pretty"@.len() != "plain"@.len());
    assert("pretty"@.len() != "json"@.len());
    assert("plain"@.len() != "json"@.len());
}

/// What decides on color: the flag before all, then a `FORCE_COLOR` that is not
/// empty and not `0`, then a `NO_COLOR` that is not empty, and then whether the
/// output is a terminal.
pub proof fn what_decides_on_color(
    output_is_tty: bool,
    force_color: Option<Seq<u8>>,
    no_color: Option<Seq<u8>>,
)
    ensures
        uses_color(ColorMode::Always, output_is_tty, force_color, no_color),
        !uses_color(ColorMode::Never, output_is_tty, force_color, no_color),
        ({
            let auto = uses_color(ColorMode::Auto, output_is_tty, force_color, no_color);
            let forced = force_color is Some && force_color->0.len() > 0 && !(force_color->0.len()
                == 1 && force_color->0[0] == '0' as u8);
            let forbidden = no_color is Some && no_color->0.len() > 0;
            &&& forced ==> auto
            &&& !forced && forbidden ==> !auto
            &&& !forced && !forbidden ==> auto == output_is_tty
        }),
{
    if let Some(v) = force_color {
        if v.len() == 1 && v[0] == '0' as u8 {
            assert(v =~= seq![48u8]);
        }
    }
}

/// A text of digits is read as their value, with or without a plus sign before
/// them, as far as that is not too large.
pub proof fn digits_are_read_as_their_value(s: Seq<char>, max: nat)
    requires
        s.len() > 0,
        forall|i: int| 0 <= i < s.len() ==> '0' <= #[trigger] s[i] <= '9',
    ensures
        count_of(s, max) == (if digits_value(s) <= max {
            Ok::<nat, CountError>(digits_value(s))
        } else {
            Err::<nat, CountError>(CountError::TooLarge)
        }),
        count_of(seq!['+'] + s, max) == count_of(s, max),
{
    assert(s[0] != '+') by {
        assert('0' <= s[0] <= '9');
    }
    assert forall|i: int| 0 <= i < s.len() implies is_digit(s[i]) by {
        assert('0' <= s[i] <= '9');
    }
    lemma_digit_run(s, s.len() as int);
    assert(s.take(s.len() as int) =~= s);
    let t = seq!['+'] + s;
    assert(t.skip(1) =~= s);
}

/// Nothing is a number that holds anything but digits behind its sign, or no
/// digit at all.
pub proof fn only_digits_are_a_number(s: Seq<char>, i: int, max: nat)
    requires
        0 <= i < s.len(),
        !('0' <= s[i] <= '9'),
        i > 0 || s[0] != '+' || s.len() == 1,
    ensures
        count_of(s, max) is Err,
        count_of(Seq::empty(), max) is Err,
{
    let signed = s.len() > 1 && s[0] == '+';
    let digits = if signed {
        s.skip(1)
    } else {
        s
    };
    let at = if signed {
        i - 1
    } else {
        i
    };
    assert(digits[at] == s[i]);
    lemma_digit_run_stops(digits, at);
}

proof fn lemma_digit_run_stops(s: Seq<char>, k: int)
    requires
        0 <= k < s.len(),
        !is_digit(s[k]),
    ensures
        digit_run(s) <= k,
    decreases s.len(),
{
    if is_digit(s[0]) {
        assert(s.drop_first()[k - 1] == s[k]);
        lemma_digit_run_stops(s.drop_first(), k - 1);
    }
}

/// A line range is read for what it says: digits before the colon are the first
/// line, digits behind it the last one, a side without digits is open, and digits
/// without a colon are the first line.
pub proof fn a_line_range_is_read_for_what_it_says(a: Seq<char>, b: Seq<char>)
    requires
        forall|i: int| 0 <= i < a.len() ==> '0' <= #[trigger] a[i] <= '9',
        forall|i: int| 0 <= i < b.len() ==> '0' <= #[trigger] b[i] <= '9',
        digits_value(a) <= usize::MAX,
        digits_value(b) <= usize::MAX,
    ensures
        ({
            let start = if a.len() > 0 {
                Some(digits_value(a))
            } else {
                None
            };
            let end = if b.len() > 0 {
                Some(digits_value(b))
            } else {
                None
            };
            &&& line_range_of(a + seq![':'] + b) == Ok::<(Option<nat>, Option<nat>), Seq<char>>(
                (start, end),
            )
            &&& a.len() > 0 ==> line_range_of(a) == Ok::<(Option<nat>, Option<nat>), Seq<char>>(
                (start, None),
            )
        }),
{
    let s = a + seq![':'] + b;
    assert forall|i: int| 0 <= i < a.len() implies s[i] != ':' && a[i] != ':' by {
        assert('0' <= a[i] <= '9');
        assert(s[i] == a[i]);
    }
    crate::text::lemma_first_at_is(s, ':', a.len() as int);
    crate::text::lemma_first_at_is(a, ':', a.len() as int);
    assert(s.take(a.len() as int) =~= a);
    assert(s.skip(a.len() as int + 1) =~= b);
    assert(a.take(a.len() as int) =~= a);
    if a.len() > 0 {
        digits_are_read_as_their_value(a, usize::MAX as nat);
    }
    if b.len() > 0 {
        digits_are_read_as_their_value(b, usize::MAX as nat);
    }
}

/// A line range that says nothing, and one that holds anything but digits, a plus
/// sign and a colon, is refused.
pub proof fn nothing_else_is_a_line_range(s: Seq<char>, i: int)
    requires
        0 <= i < s.len(),
        !('0' <= s[i] <= '9'),
        s[i] != ':',
        s[i] != '+',
    ensures
        line_range_of(s) is Err,
        line_range_of(Seq::empty()) is Err,
{
    crate::text::lemma_first_at(s, ':');
    let k = first_at(s, ':');
    if i < k {
        assert(s.take(k)[i] == s[i]);
        only_digits_are_a_number(s.take(k), i, usize::MAX as nat);
    } else {
        assert(i != k);
        assert(s.skip(k + 1)[i - k - 1] == s[i]);
        only_digits_are_a_number(s.skip(k + 1), i - k - 1, usize::MAX as nat);
    }
}

/// What a bare follow option stands for: the number of milliseconds that the
/// variable holds, and a quarter of a second where it holds none.
pub proof fn what_a_bare_follow_option_stands_for(s: Seq<char>, n: nat)
    ensures
        n <= u64::MAX ==> follow_default(Some(decimal(n))) == decimal(n) + seq!['m', 's'],
        n > u64::MAX ==> follow_default(Some(decimal(n))) == seq!['2', '5', '0', 'm', 's'],
        follow_default(None) == seq!['2', '5', '0', 'm', 's'],
        count_of(s, u64::MAX as nat) is Err ==> follow_default(Some(s)) == seq![
            '2',
            '5',
            '0',
            'm',
            's',
        ],
{
    reveal_strlit("250ms");
    reveal_strlit("ms");
    assert("250ms"@ =~= seq!['2', '5', '0', 'm', 's']);
    assert("ms"@ =~= seq!['m', 's']);
    crate::text::the_decimal_notation_has_the_value(n);
    digits_are_read_as_their_value(decimal(n), u64::MAX as nat);
}

/// The help says how eat was called: called by the editor's flag, the usage line
/// has `--eat` behind the program, and nothing else of the help changes.
pub proof fn the_help_says_how_eat_was_called(argv0: Seq<char>, args: Seq<char>, rest: Seq<char>)
    requires
        !argv0.contains('\n'),
        !args.contains('\n'),
    ensures
        ({
            let help = "Usage: "@ + argv0 + args + seq!['\n'] + rest;
            &&& help_shown(help, false, argv0) == help + seq!['\n']
            &&& help_shown(help, true, argv0) == "Usage: "@ + argv0 + " --eat"@ + args + seq!['\n']
                + rest + seq!['\n']
        }),
{
    let usage = "Usage: "@ + argv0;
    let first = usage + args;
    let help = "Usage: "@ + argv0 + args + seq!['\n'] + rest;
    reveal_strlit("Usage: ");
    reveal_strlit("\n");
    assert("\n"@ =~= seq!['\n']);
    assert(help =~= first + seq!['\n'] + rest);
    assert forall|i: int| 0 <= i < first.len() implies help[i] != '\n' by {
        assert(help[i] == first[i]);
        if 7 <= i < usage.len() {
            assert(first[i] == argv0[i - 7]);
            assert(argv0.contains(argv0[i - 7]));
        } else if i >= usage.len() {
            assert(first[i] == args[i - usage.len()]);
            assert(args.contains(args[i - usage.len()]));
        }
    }
    crate::text::lemma_first_at_is(help, '\n', first.len() as int);
    assert(help.take(first.len() as int) =~= first);
    assert(help.skip(first.len() as int + 1) =~= rest);
    assert(first.take(usage.len() as int) =~= usage);
    assert(first.skip(usage.len() as int) =~= args);
}

/// Long lines wrap unless that is turned off.
pub proof fn long_lines_wrap_unless_turned_off()
    ensures
        WrapMode::Auto.wraps(),
        WrapMode::Always.wraps(),
        !WrapMode::Never.wraps(),
{
}

/// Help and errors name the program as it was called: by its own name, or by the
/// editor's with `--eat` behind it.
pub proof fn the_program_is_named_as_it_was_called(name: Seq<char>, output: Seq<char>)
    ensures
        called_as(name, false) == name,
        called_as(name, true) == name + " --eat"@,
        usage_error_text(output, name, false) == output + "\nRun "@ + name + " --help"@
            + " for more information.\n"@,
        usage_error_text(output, name, true) == output + "\nRun "@ + name + " --eat --help"@
            + " for more information.\n"@,
{
}

/// Help whose first line is no usage line of the program, or that has one line
/// only, is printed as it is.
pub proof fn other_help_is_printed_as_it_is(help: Seq<char>, argv0: Seq<char>, via_eat_flag: bool)
    ensures
        !("Usage: "@ + argv0).is_prefix_of(help) ==> help_shown(help, via_eat_flag, argv0) == help
            + seq!['\n'],
        !help.contains('\n') ==> help_shown(help, via_eat_flag, argv0) == help + seq!['\n'],
{
    reveal_strlit("\n");
    assert("\n"@ =~= seq!['\n']);
    crate::text::lemma_first_at(help, '\n');
    let i = first_at(help, '\n');
    if i < help.len() {
        assert(help.contains(help[i]));
    }
    if via_eat_flag && i < help.len() && !("Usage: "@ + argv0).is_prefix_of(help) {
        let usage = "Usage: "@ + argv0;
        let first = help.take(i);
        if after_prefix(first, usage) is Some {
            assert(usage =~= help.subrange(0, usage.len() as int)) by {
                assert forall|j: int| 0 <= j < usage.len() implies usage[j] == #[trigger] help[j] by {
                    assert(first.take(usage.len() as int)[j] == first[j]);
                }
            }
        }
        assert(first + "\n"@ + help.skip(i + 1) =~= help);
    }
}

/// Help is asked for by either option, wherever it stands behind the program.
pub proof fn help_is_asked_for_by_either_option(argv: Seq<Seq<char>>)
    ensures
        asks_for_help(argv) <==> argv.len() > 0 && (argv.skip(1).contains("-h"@) || argv.skip(
            1,
        ).contains("--help"@)),
{
    if asks_for_help(argv) {
        let i = choose|i: int|
            1 <= i < argv.len() && (#[trigger] argv[i] == "-h"@ || argv[i] == "--help"@);
        assert(argv.skip(1)[i - 1] == argv[i]);
    }
    if argv.len() > 0 && argv.skip(1).contains("-h"@) {
        let i = choose|i: int| 0 <= i < argv.skip(1).len() && argv.skip(1)[i] == "-h"@;
        assert(argv[i + 1] == "-h"@);
    }
    if argv.len() > 0 && argv.skip(1).contains("--help"@) {
        let i = choose|i: int| 0 <= i < argv.skip(1).len() && argv.skip(1)[i] == "--help"@;
        assert(argv[i + 1] == "--help"@);
    }
}

/// The views of numbers and bytes that may be missing are those of what is there.
pub proof fn the_views_of_what_may_be_missing(n: usize, b: &[u8])
    ensures
        as_nat(Some(n)) == Some(n as nat),
        as_nat(None) is None,
        bytes_of(Some(b)) == Some(b@),
        bytes_of(None) is None,
{
}

} // verus!
