//! The editor's quirks: behaviours that are toggled by name, from the
//! `EDIT_QUIRKS` variable and from `--quirks=a,b,c`.
//!
//! The names are positive. Those that are on at the start are turned off with a
//! minus sign before the name; the others are off until they are named. One
//! table holds the names, their other spellings, and which are on at the start.
use crate::text::{chars_of, is_digit, is_letter, split, trim};
use polyflag::{Alias, AliasStatus, KnownToken, UnknownToken};
use std::collections::HashSet;
use vstd::prelude::*;
use vstd::string::StringExecFns;

verus! {

/// `polyflag::KnownToken`, an entry of a table of names; its fields are public.
#[verifier::external_type_specification]
pub struct ExKnownToken(KnownToken);

/// `polyflag::Alias`, another spelling of a name; its fields are public.
#[verifier::external_type_specification]
pub struct ExAlias(Alias);

/// `polyflag::AliasStatus`, how another spelling is treated.
#[verifier::external_type_specification]
pub struct ExAliasStatus(AliasStatus);

/// `polyflag::UnknownToken`, the error that holds a name that no entry has.
#[verifier::external_type_specification]
pub struct ExUnknownToken(UnknownToken);

/// An entry of a table of names, as a value of the model.
pub ghost struct Token {
    pub canonical: Seq<char>,
    pub aliases: Seq<(Seq<char>, AliasStatus)>,
    pub default: bool,
}

/// The other spellings of an entry.
pub open spec fn spellings_of(aliases: Seq<Alias>) -> Seq<(Seq<char>, AliasStatus)> {
    aliases.map_values(|a: Alias| (a.spelling@, a.status))
}

/// The table as a value of the model.
pub open spec fn tokens(known: Seq<KnownToken>) -> Seq<Token> {
    known.map_values(
        |k: KnownToken|
            Token {
                canonical: k.canonical@,
                aliases: spellings_of(k.aliases@),
                default: k.default,
            },
    )
}

/// The names that a set holds.
pub uninterp spec fn names_in(set: HashSet<&'static str>) -> Set<Seq<char>>;

/// How a name among the other spellings is treated, where it is one of them.
pub open spec fn alias_status(aliases: Seq<(Seq<char>, AliasStatus)>, name: Seq<char>) -> Option<
    AliasStatus,
>
    decreases aliases.len(),
{
    if aliases.len() == 0 {
        None
    } else if aliases[0].0 == name {
        Some(aliases[0].1)
    } else {
        alias_status(aliases.drop_first(), name)
    }
}

/// The entry that a name stands for: its own name, and whether the spelling is
/// deprecated.
pub open spec fn resolved(known: Seq<Token>, name: Seq<char>) -> Option<(Seq<char>, bool)>
    decreases known.len(),
{
    if known.len() == 0 {
        None
    } else if known[0].canonical == name {
        Some((name, false))
    } else {
        match alias_status(known[0].aliases, name) {
            Some(status) => Some((known[0].canonical, status is Deprecated)),
            None => resolved(known.drop_first(), name),
        }
    }
}

/// What comes of applying a list to a set of names: the set, the deprecated
/// spellings with the names to use instead, and the name that no entry has,
/// where there is one.
pub ghost struct Applied {
    pub set: Set<Seq<char>>,
    pub warned: Seq<(Seq<char>, Seq<char>)>,
    pub unknown: Option<Seq<char>>,
}

/// What comes of applying the pieces of a list, in order: an empty piece is
/// skipped, one after a minus sign takes its entry out of the set, and any
/// other puts it in, with a plus sign before it or not. The first name that no
/// entry has ends it.
pub open spec fn applied(pieces: Seq<Seq<char>>, known: Seq<Token>, set: Set<Seq<char>>) -> Applied
    decreases pieces.len(),
{
    if pieces.len() == 0 {
        Applied { set, warned: Seq::empty(), unknown: None }
    } else {
        let piece = trim(pieces[0]);
        let rest = pieces.drop_first();
        let name = if piece.len() > 0 && (piece[0] == '-' || piece[0] == '+') {
            piece.skip(1)
        } else {
            piece
        };
        if piece.len() == 0 {
            applied(rest, known, set)
        } else {
            match resolved(known, name) {
                None => Applied { set, warned: Seq::empty(), unknown: Some(name) },
                Some((canonical, deprecated)) => {
                    let next = applied(
                        rest,
                        known,
                        if piece[0] == '-' {
                            set.remove(canonical)
                        } else {
                            set.insert(canonical)
                        },
                    );
                    let note = if deprecated {
                        seq![(name, canonical)]
                    } else {
                        seq![]
                    };
                    Applied { warned: note + next.warned, ..next }
                },
            }
        }
    }
}

/// Pairs of texts.
pub open spec fn pairs(v: Seq<(String, String)>) -> Seq<(Seq<char>, Seq<char>)> {
    v.map_values(|p: (String, String)| (p.0@, p.1@))
}

/// The names that are in the set before any list is applied.
pub open spec fn default_names(known: Seq<Token>) -> Set<Seq<char>> {
    Set::new(
        |name: Seq<char>|
            exists|i: int|
                0 <= i < known.len() && #[trigger] known[i].default && known[i].canonical == name,
    )
}

/// `polyflag::defaults`: the set of the names of the entries that are on at the
/// start.
#[verifier::external_body]
fn defaults(known: &[KnownToken]) -> (set: HashSet<&'static str>)
    ensures
        names_in(set) == default_names(tokens(known@)),
{
    polyflag::defaults(known)
}

/// `polyflag::apply_with_callback`: applies a list, split at commas, to the
/// set, and notes each deprecated spelling.
#[verifier::external_body]
fn apply_list(
    list: &str,
    known: &[KnownToken],
    set: &mut HashSet<&'static str>,
    warned: &mut Vec<(String, String)>,
) -> (r: Result<(), UnknownToken>)
    ensures
        ({
            let a = applied(split(list@, ','), tokens(known@), names_in(*old(set)));
            &&& names_in(*final(set)) == a.set
            &&& pairs(final(warned)@) == pairs(old(warned)@) + a.warned
            &&& match r {
                Ok(_) => a.unknown is None,
                Err(e) => a.unknown == Some(e.0@),
            }
        }),
{
    polyflag::apply_with_callback(list, known, set, |s, c| note_deprecated(warned, s, c))
}

/// `HashSet::contains` of the standard library: whether the set holds the name.
#[verifier::external_body]
fn holds(set: &HashSet<&'static str>, name: &str) -> (r: bool)
    ensures
        r == names_in(*set).contains(name@),
{
    set.contains(name)
}

/// ASCII letters in upper case, anything else as it is.
pub open spec fn upper(c: char) -> char {
    if 'a' <= c <= 'z' {
        (c as u32 - 32) as char
    } else {
        c
    }
}

/// `polyflag::env_var_name`: the prefix and the flag in upper case, with an
/// underscore between them and for each hyphen of the flag.
pub assume_specification[ polyflag::env_var_name ](prefix: &str, flag: &str) -> (name: String)
    ensures
        name@ == prefix@.map_values(|c: char| upper(c)) + seq!['_'] + flag@.map_values(
            |c: char|
                if c == '-' {
                    '_'
                } else {
                    upper(c)
                },
        ),
;

/// A spelling that a table can hold: letters, digits, hyphens and underscores,
/// and no sign at the start, which would read as one.
pub open spec fn plain_spelling(s: Seq<char>) -> bool {
    &&& s.len() > 0
    &&& s[0] != '-'
    &&& forall|i: int|
        0 <= i < s.len() ==> is_letter(#[trigger] s[i]) || is_digit(s[i]) || s[i] == '-' || s[i]
            == '_'
}

/// Every spelling of a table, in order.
pub open spec fn spellings(known: Seq<Token>) -> Seq<Seq<char>>
    decreases known.len(),
{
    if known.len() == 0 {
        Seq::empty()
    } else {
        seq![known[0].canonical] + known[0].aliases.map_values(
            |a: (Seq<char>, AliasStatus)| a.0,
        ) + spellings(known.drop_first())
    }
}

/// Whether no spelling of a table is empty, odd or there twice.
pub open spec fn sound_table(known: Seq<Token>) -> bool {
    let all = spellings(known);
    &&& forall|i: int| 0 <= i < all.len() ==> plain_spelling(#[trigger] all[i])
    &&& all.no_duplicates()
}

/// `polyflag::check_known`: panics, in debug builds, on a table that is not
/// sound; it is called with sound ones only.
pub assume_specification[ polyflag::check_known ](known: &[KnownToken])
    requires
        sound_table(tokens(known@)),
;

fn note_deprecated(warned: &mut Vec<(String, String)>, spelling: &str, canonical: &str)
    ensures
        pairs(final(warned)@) == pairs(old(warned)@).push((spelling@, canonical@)),
{
    warned.push((spelling.to_owned(), canonical.to_owned()));
    assert(pairs(warned@) == pairs(old(warned)@).push((spelling@, canonical@)));
}

/// The table of the editor's quirks.
pub open spec fn quirk_table() -> Seq<Token> {
    seq![
        Token { canonical: "unicode"@, aliases: seq![], default: true },
        Token {
            canonical: "color"@,
            aliases: seq![("colour"@, AliasStatus::Alternative)],
            default: true,
        },
        Token { canonical: "animations"@, aliases: seq![], default: true },
        Token { canonical: "safe-filenames"@, aliases: seq![], default: true },
        Token {
            canonical: "create"@,
            aliases: seq![
                ("allow-create"@, AliasStatus::Alternative),
                ("allowcreate"@, AliasStatus::Alternative),
            ],
            default: false,
        },
    ]
}

/// The table of the editor's quirks.
pub fn known_quirks() -> (known: Vec<KnownToken>)
    ensures
        tokens(known@) == quirk_table(),
{
    let known = vec![
        KnownToken { canonical: "unicode", aliases: &[], default: true, allow_weird: false },
        KnownToken {
            canonical: "color",
            aliases: &[Alias { spelling: "colour", status: AliasStatus::Alternative }],
            default: true,
            allow_weird: false,
        },
        KnownToken { canonical: "animations", aliases: &[], default: true, allow_weird: false },
        KnownToken { canonical: "safe-filenames", aliases: &[], default: true, allow_weird: false },
        KnownToken {
            canonical: "create",
            aliases: &[
                Alias { spelling: "allow-create", status: AliasStatus::Alternative },
                Alias { spelling: "allowcreate", status: AliasStatus::Alternative },
            ],
            default: false,
            allow_weird: false,
        },
    ];
    proof {
        let t = tokens(known@);
        assert(t[0].aliases =~= quirk_table()[0].aliases);
        assert(t[1].aliases =~= quirk_table()[1].aliases);
        assert(t[2].aliases =~= quirk_table()[2].aliases);
        assert(t[3].aliases =~= quirk_table()[3].aliases);
        assert(t[4].aliases =~= quirk_table()[4].aliases);
        assert(t =~= quirk_table());
    }
    known
}

/// The table of quirks is sound.
pub proof fn the_quirk_table_is_sound()
    ensures
        sound_table(quirk_table()),
{
    reveal_strlit("unicode");
    reveal_strlit("color");
    reveal_strlit("colour");
    reveal_strlit("animations");
    reveal_strlit("safe-filenames");
    reveal_strlit("create");
    reveal_strlit("allow-create");
    reveal_strlit("allowcreate");
    reveal_with_fuel(spellings, 6);
    let all = spellings(quirk_table());
    assert(all =~= seq![
        "unicode"@,
        "color"@,
        "colour"@,
        "animations"@,
        "safe-filenames"@,
        "create"@,
        "allow-create"@,
        "allowcreate"@,
    ]);
    // No two have the same length but `colour` and `create`, which differ at
    // the second letter.
    assert("colour"@[1] == 'o' && "create"@[1] == 'r');
    assert forall|i: int, j: int| 0 <= i < j < all.len() implies all[i] != all[j] by {
        if !(i == 2 && j == 5) {
            assert(all[i].len() != all[j].len());
        }
    }
}

/// Checks the table of quirks; returns whether it is sound, which it is.
pub fn check_quirks_table() -> (r: bool)
    ensures
        r == sound_table(quirk_table()),
        r,
{
    let known = known_quirks();
    proof {
        the_quirk_table_is_sound();
    }
    polyflag::check_known(known.as_slice());
    true
}

/// The name of the variable that holds quirks.
pub fn quirks_variable() -> (name: String)
    ensures
        name@ == "EDIT_QUIRKS"@,
{
    let name = polyflag::env_var_name("edit", "quirks");
    proof {
        reveal_strlit("edit");
        reveal_strlit("quirks");
        reveal_strlit("EDIT_QUIRKS");
        assert(name@ =~= "EDIT_QUIRKS"@);
    }
    name
}

/// The quirks that are on.
#[derive(Debug)]
pub struct Quirks {
    pub set: HashSet<&'static str>,
}

impl View for Quirks {
    type V = Set<Seq<char>>;

    open spec fn view(&self) -> Set<Seq<char>> {
        names_in(self.set)
    }
}

/// What comes of applying a list of quirks.
pub open spec fn quirks_applied(list: Seq<char>, set: Set<Seq<char>>) -> Applied {
    applied(split(list, ','), quirk_table(), set)
}

impl Quirks {
    /// The quirks that are on before any list is applied.
    pub fn at_start() -> (q: Quirks)
        ensures
            q@ == default_names(quirk_table()),
            q@ == set!["unicode"@, "color"@, "animations"@, "safe-filenames"@],
    {
        let known = known_quirks();
        let set = defaults(known.as_slice());
        proof {
            let t = quirk_table();
            let names = set!["unicode"@, "color"@, "animations"@, "safe-filenames"@];
            assert forall|name: Seq<char>| names.contains(name) implies default_names(t).contains(
                name,
            ) by {
                assert(t[0].default && t[1].default && t[2].default && t[3].default);
            }
            assert(default_names(t) =~= names);
        }
        Quirks { set }
    }

    /// Applies a list of quirks, noting each deprecated spelling with the name
    /// to use instead; returns the name that no quirk has, where there is one.
    pub fn apply(&mut self, list: &str, warned: &mut Vec<(String, String)>) -> (r: Result<
        (),
        String,
    >)
        ensures
            final(self)@ == quirks_applied(list@, old(self)@).set,
            pairs(final(warned)@) == pairs(old(warned)@) + quirks_applied(
                list@,
                old(self)@,
            ).warned,
            match r {
                Ok(_) => quirks_applied(list@, old(self)@).unknown is None,
                Err(name) => quirks_applied(list@, old(self)@).unknown == Some(name@),
            },
    {
        let known = known_quirks();
        match apply_list(list, known.as_slice(), &mut self.set, warned) {
            Ok(_) => Ok(()),
            Err(e) => Err(e.0),
        }
    }

    /// Whether a quirk is on.
    pub fn has(&self, name: &str) -> (r: bool)
        ensures
            r == self@.contains(name@),
    {
        holds(&self.set, name)
    }
}

/// The other spellings that are listed, each after a comma or, the first, after
/// an opening bracket.
pub open spec fn aliases_text(aliases: Seq<(Seq<char>, AliasStatus)>) -> Seq<char>
    decreases aliases.len(),
{
    if aliases.len() == 0 {
        Seq::empty()
    } else {
        let before = aliases_text(aliases.drop_last());
        let alias = aliases.last();
        if alias.1 is Hidden {
            before
        } else if before.len() == 0 {
            " ("@ + alias.0
        } else {
            before + ", "@ + alias.0
        }
    }
}

/// The names of a table, with the other spellings in brackets.
pub open spec fn names_text(known: Seq<Token>) -> Seq<char>
    decreases known.len(),
{
    if known.len() == 0 {
        Seq::empty()
    } else {
        let before = names_text(known.drop_last());
        let aliases = aliases_text(known.last().aliases);
        before + (if before.len() == 0 {
            Seq::empty()
        } else {
            ", "@
        }) + known.last().canonical + (if aliases.len() == 0 {
            Seq::empty()
        } else {
            aliases.push(')')
        })
    }
}

fn aliases_listed(aliases: &[Alias]) -> (s: String)
    ensures
        s@ == aliases_text(spellings_of(aliases@)),
{
    let mut s = String::new();
    let mut first = true;
    let ghost all = spellings_of(aliases@);
    proof {
        reveal_strlit(" (");
    }
    for i in 0..aliases.len()
        invariant
            all == spellings_of(aliases@),
            " ("@.len() == 2,
            s@ == aliases_text(all.take(i as int)),
            first == (s@.len() == 0),
    {
        assert(all.take(i + 1).drop_last() =~= all.take(i as int));
        let shown = match aliases[i].status {
            AliasStatus::Alternative => true,
            AliasStatus::Deprecated => true,
            AliasStatus::Hidden => false,
        };
        if shown {
            s.append(
                if first {
                    " ("
                } else {
                    ", "
                },
            );
            s.append(aliases[i].spelling);
            first = false;
            assert(s@ =~= aliases_text(all.take(i + 1)));
        }
    }
    assert(all.take(all.len() as int) =~= all);
    s
}

/// The names of the quirks for messages, separated by commas, each with its
/// other spellings in brackets.
pub fn known_quirks_for_help() -> (s: String)
    ensures
        s@ == names_text(quirk_table()),
{
    let known = known_quirks();
    let ghost all = quirk_table();
    let mut s = String::new();
    for i in 0..known.len()
        invariant
            all == tokens(known@),
            all == quirk_table(),
            s@ == names_text(all.take(i as int)),
    {
        assert(all.take(i + 1).drop_last() =~= all.take(i as int));
        if chars_of(s.as_str()).len() > 0 {
            s.append(", ");
        }
        s.append(known[i].canonical);
        let aliases = aliases_listed(known[i].aliases);
        if chars_of(aliases.as_str()).len() > 0 {
            s.append(aliases.as_str());
            s.push(')');
        }
    }
    assert(all.take(all.len() as int) =~= all);
    s
}

/// Lists add up: applying one list after another is the same as applying the
/// two as one, so what a later one says holds over an earlier one.
pub proof fn lists_add_up(
    a: Seq<Seq<char>>,
    b: Seq<Seq<char>>,
    known: Seq<Token>,
    set: Set<Seq<char>>,
)
    requires
        applied(a, known, set).unknown is None,
    ensures
        ({
            let first = applied(a, known, set);
            let then = applied(b, known, first.set);
            applied(a + b, known, set) == Applied { warned: first.warned + then.warned, ..then }
        }),
    decreases a.len(),
{
    if a.len() == 0 {
        assert(a + b =~= b);
        assert(applied(a, known, set).warned + applied(b, known, set).warned =~= applied(
            b,
            known,
            set,
        ).warned);
    } else {
        assert((a + b).drop_first() =~= a.drop_first() + b);
        assert((a + b)[0] == a[0]);
        let piece = trim(a[0]);
        let name = if piece.len() > 0 && (piece[0] == '-' || piece[0] == '+') {
            piece.skip(1)
        } else {
            piece
        };
        if piece.len() == 0 {
            lists_add_up(a.drop_first(), b, known, set);
        } else {
            let (canonical, deprecated) = resolved(known, name)->0;
            let after = if piece[0] == '-' {
                set.remove(canonical)
            } else {
                set.insert(canonical)
            };
            lists_add_up(a.drop_first(), b, known, after);
            let note = if deprecated {
                seq![(name, canonical)]
            } else {
                seq![]
            };
            let first = applied(a.drop_first(), known, after);
            let then = applied(b, known, first.set);
            assert(note + (first.warned + then.warned) =~= (note + first.warned) + then.warned);
        }
    }
}

/// The last mention of a quirk decides: after a name with a minus sign the
/// quirk is off, after one without it is on, whatever came before.
pub proof fn the_last_mention_decides(
    before: Seq<Seq<char>>,
    piece: Seq<char>,
    known: Seq<Token>,
    set: Set<Seq<char>>,
)
    requires
        applied(before, known, set).unknown is None,
        trim(piece).len() > 0,
    ensures
        ({
            let p = trim(piece);
            let name = if p[0] == '-' || p[0] == '+' {
                p.skip(1)
            } else {
                p
            };
            resolved(known, name) matches Some((canonical, _)) ==> applied(
                before.push(piece),
                known,
                set,
            ).set.contains(canonical) == (p[0] != '-')
        }),
{
    assert(before.push(piece) =~= before + seq![piece]);
    lists_add_up(before, seq![piece], known, set);
    reveal_with_fuel(applied, 2);
}

/// A set holds names of the table only, never another spelling of one.
pub proof fn only_names_of_the_table_get_in(
    pieces: Seq<Seq<char>>,
    known: Seq<Token>,
    set: Set<Seq<char>>,
    name: Seq<char>,
)
    requires
        applied(pieces, known, set).set.contains(name),
    ensures
        set.contains(name) || exists|i: int|
            0 <= i < known.len() && #[trigger] known[i].canonical == name,
    decreases pieces.len(),
{
    if pieces.len() > 0 {
        let piece = trim(pieces[0]);
        let n = if piece.len() > 0 && (piece[0] == '-' || piece[0] == '+') {
            piece.skip(1)
        } else {
            piece
        };
        if piece.len() == 0 {
            only_names_of_the_table_get_in(pieces.drop_first(), known, set, name);
        } else if let Some((canonical, _)) = resolved(known, n) {
            lemma_resolved_is_canonical(known, n);
            let after = if piece[0] == '-' {
                set.remove(canonical)
            } else {
                set.insert(canonical)
            };
            only_names_of_the_table_get_in(pieces.drop_first(), known, after, name);
        }
    }
}

proof fn lemma_resolved_is_canonical(known: Seq<Token>, name: Seq<char>)
    requires
        resolved(known, name) is Some,
    ensures
        exists|i: int|
            0 <= i < known.len() && #[trigger] known[i].canonical == (resolved(known, name)->0).0,
    decreases known.len(),
{
    if known[0].canonical == name || alias_status(known[0].aliases, name) is Some {
        assert(known[0].canonical == (resolved(known, name)->0).0);
    } else {
        let rest = known.drop_first();
        lemma_resolved_is_canonical(rest, name);
        let i = choose|i: int|
            0 <= i < rest.len() && #[trigger] rest[i].canonical == (resolved(rest, name)->0).0;
        assert(known[i + 1].canonical == (resolved(known, name)->0).0);
    }
}

/// The names of the quirks, and their other spellings: nothing else names one, and
/// none of the spellings is deprecated.
pub proof fn the_names_of_the_quirks(name: Seq<char>)
    ensures
        ({
            let r = resolved(quirk_table(), name);
            &&& name == "unicode"@ ==> r == Some((name, false))
            &&& name == "color"@ ==> r == Some((name, false))
            &&& name == "animations"@ ==> r == Some((name, false))
            &&& name == "safe-filenames"@ ==> r == Some((name, false))
            &&& name == "create"@ ==> r == Some((name, false))
            &&& name == "colour"@ ==> r == Some(("color"@, false))
            &&& name == "allow-create"@ ==> r == Some(("create"@, false))
            &&& name == "allowcreate"@ ==> r == Some(("create"@, false))
            &&& r is Some ==> {
                ||| name == "unicode"@
                ||| name == "color"@
                ||| name == "animations"@
                ||| name == "safe-filenames"@
                ||| name == "create"@
                ||| name == "colour"@
                ||| name == "allow-create"@
                ||| name == "allowcreate"@
            }
        }),
{
    reveal_strlit("unicode");
    reveal_strlit("color");
    reveal_strlit("animations");
    reveal_strlit("safe-filenames");
    reveal_strlit("create");
    reveal_strlit("colour");
    reveal_strlit("allow-create");
    reveal_strlit("allowcreate");
    assert("unicode"@.len() == 7 && "color"@.len() == 5 && "animations"@.len() == 10);
    assert("safe-filenames"@.len() == 14 && "create"@.len() == 6 && "colour"@.len() == 6);
    assert("allow-create"@.len() == 12 && "allowcreate"@.len() == 11);
    assert("create"@[1] == 'r' && "colour"@[1] == 'o');
    let t = quirk_table();
    let t1 = t.drop_first();
    let t2 = t1.drop_first();
    let t3 = t2.drop_first();
    let t4 = t3.drop_first();
    let t5 = t4.drop_first();
    assert(t1[0] == t[1] && t2[0] == t[2] && t3[0] == t[3] && t4[0] == t[4] && t5.len() == 0);
    reveal_with_fuel(resolved, 6);
    reveal_with_fuel(alias_status, 4);
    let colors = t[1].aliases;
    assert(colors.len() == 1 && colors[0].0 == "colour"@);
    assert(colors.drop_first().len() == 0);
    let creates = t[4].aliases;
    assert(creates.len() == 2);
    assert(creates.drop_first()[0] == creates[1]);
    assert(creates.drop_first().drop_first().len() == 0);
}

/// The quirks that are on at the start are these four; `create` is not.
pub proof fn the_quirks_at_the_start(name: Seq<char>)
    ensures
        default_names(quirk_table()).contains(name) <==> {
            ||| name == "unicode"@
            ||| name == "color"@
            ||| name == "animations"@
            ||| name == "safe-filenames"@
        },
{
    let t = quirk_table();
    assert(t[0].default && t[1].default && t[2].default && t[3].default && !t[4].default);
}

/// Pairs of texts are modelled one by one.
pub proof fn the_views_of_pairs(v: Seq<(String, String)>, i: int)
    requires
        0 <= i < v.len(),
    ensures
        pairs(v).len() == v.len(),
        pairs(v)[i] == (v[i].0@, v[i].1@),
{
}

/// A list is applied name by name, between its commas.
pub proof fn a_list_is_applied_between_its_commas(names: Seq<Seq<char>>, set: Set<Seq<char>>)
    requires
        names.len() > 0,
        forall|k: int, j: int|
            0 <= k < names.len() && 0 <= j < names[k].len() ==> #[trigger] names[k][j] != ',',
    ensures
        quirks_applied(
            names.drop_last().map_values(|p: Seq<char>| p.push(',')).flatten() + names.last(),
            set,
        ) == applied(names, quirk_table(), set),
{
    crate::text::splitting_undoes_joining(names, ',');
}

} // verus!
