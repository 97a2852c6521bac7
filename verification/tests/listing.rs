use eat::escape::{escape_controls, is_control};
use eat::git::Status;
use eat::listing::{
    comes_before_by, git_color, language_color, push_painted, read_entries, render, sole_subdir_chain, sort_entries, Entry, EntryRead, Look,
};
use eat::status::{covers, display_status, git_columns, merge};

fn file(name: &str, size: u64) -> Entry {
    Entry { name: name.to_string(), is_dir: false, link_target: None, size, chain: vec![], language: None }
}

fn dir(name: &str, chain: &[&str]) -> Entry {
    Entry {
        name: name.to_string(),
        is_dir: true,
        link_target: None,
        size: 4096,
        chain: chain.iter().map(|s| s.to_string()).collect(),
        language: None,
    }
}

fn link(name: &str, target: &str, is_dir: bool) -> Entry {
    Entry { name: name.to_string(), is_dir, link_target: Some(target.to_string()), size: 4, chain: vec![], language: None }
}

#[test]
fn directories_come_first_and_dotfiles_are_listed() {
    let entries = vec![file("b.txt", 0), file("A.txt", 0), file(".hidden", 0), dir("zdir", &[]), dir(".git-like", &[])];
    let rows = render(entries, None, true, false);
    assert_eq!(rows, [".git-like/", "zdir/", ".hidden", "A.txt", "b.txt"]);
}

#[test]
fn a_symlink_shows_its_target_and_groups_by_what_it_points_at() {
    let entries = vec![link("to-file", "f.rs", false), file("f.rs", 13), link("to-dir", "real", true), dir("real", &[])];
    let rows = render(entries, None, false, false);
    assert!(rows[0].ends_with("real/"), "{rows:?}");
    assert!(rows[1].ends_with("to-dir -> real"), "{rows:?}");
    assert!(rows[2].ends_with("f.rs"), "{rows:?}");
    assert!(rows[3].ends_with("to-file -> f.rs"), "{rows:?}");
    // A link's size is its own, not its target's, so neither shows one.
    assert!(rows[1].starts_with("   - "), "{rows:?}");
    assert!(rows[3].starts_with("   - "), "{rows:?}");
    assert_eq!(rows.len(), 4);
}

#[test]
fn a_row_carries_size_and_name_and_no_git_column_outside_a_repo() {
    let rows = render(vec![file("f.txt", 1234), dir("d", &[])], None, false, false);
    assert_eq!(rows, ["   - d/", "1.2k f.txt"]);
}

#[test]
fn a_language_keeps_its_colour_and_plain_text_gets_none() {
    let a = language_color(Some(7));
    let b = language_color(Some(7));
    assert!(!a.is_empty());
    assert_eq!(a, b);
    assert_eq!(language_color(None), "");
}

#[test]
fn the_six_hues_are_taken_by_the_remainder() {
    for h in 0..12u64 {
        assert_eq!(language_color(Some(h)), format!("\x1b[{}m", 31 + h % 6));
    }
    assert_eq!(language_color(Some(u64::MAX)), "\x1b[34m");
}

#[test]
fn control_characters_in_names_are_escaped() {
    assert_eq!(escape_controls("plain.rs"), "plain.rs");
    assert_eq!(escape_controls("a\x1b[31mb"), "a\\u{1b}[31mb");
    assert_eq!(escape_controls("two\nlines"), "two\\nlines");
    for plain in [true, false] {
        let rows = render(vec![file("evil\x1b]0;title\x07.txt", 0)], None, plain, true);
        assert!(rows[0].contains("evil\\u{1b}]0;title\\u{7}.txt"), "{rows:?}");
        assert!(!rows[0].contains('\x07'), "{rows:?}");
    }
}

#[test]
fn an_escape_is_the_one_of_the_standard_library() {
    for u in 0..0x300u32 {
        let c = char::from_u32(u).unwrap();
        assert_eq!(is_control(c), c.is_control(), "{u:x}");
        let want: String = if c.is_control() { c.escape_debug().collect() } else { c.to_string() };
        assert_eq!(escape_controls(&c.to_string()), want, "{u:x}");
    }
    assert_eq!(escape_controls("\0\t\r\u{7f}\u{80}\u{9f}\u{a0}\u{2028}\\"), "\\0\\t\\r\\u{7f}\\u{80}\\u{9f}\u{a0}\u{2028}\\");
}

#[test]
fn every_unmerged_pair_shows_as_a_conflict() {
    for xy in [b"DD", b"AU", b"UD", b"UA", b"DU", b"AA", b"UU"] {
        assert_eq!(display_status(*xy), ['U', 'U'], "{}", String::from_utf8_lossy(xy));
    }
    // A plain staged add is not a conflict.
    assert_eq!(display_status(*b"A "), ['N', '-']);
}

#[test]
fn a_status_letter_shows_as_itself_or_as_new() {
    assert_eq!(display_status(*b"??"), ['-', 'N']);
    assert_eq!(display_status(*b"!!"), ['-', 'I']);
    assert_eq!(display_status(*b"CM"), ['N', 'M']);
    assert_eq!(display_status(*b"R "), ['R', '-']);
    assert_eq!(display_status(*b"TD"), ['T', 'D']);
    assert_eq!(display_status(*b"?!"), ['?', '!']);
    assert_eq!(display_status([0xe9, 0x20]), ['\u{e9}', '-']);
}

#[test]
fn the_more_notable_status_stays() {
    let order = ['-', 'I', 'R', 'T', 'N', 'D', 'M', 'U'];
    for (i, &a) in order.iter().enumerate() {
        for (j, &b) in order.iter().enumerate() {
            let mut c = [a, 'M'];
            merge(&mut c, [b, 'I']);
            assert_eq!(c, [order[i.max(j)], 'M']);
        }
    }
    let mut c = ['U', 'X'];
    merge(&mut c, ['X', 'U']);
    assert_eq!(c, ['U', 'X']);
}

fn paths(names: &[&str]) -> Vec<String> {
    names.iter().map(|n| n.to_string()).collect()
}

#[test]
fn git_status_lands_on_the_entry_it_names() {
    let st = vec![
        (*b" M", "a.rs".to_string()),
        (*b"A ", "b.rs".to_string()),
        (*b"??", "c.rs".to_string()),
        (*b"!!", "target/".to_string()),
    ];
    let cols = git_columns(&paths(&["a.rs", "b.rs", "c.rs", "target", "clean.rs"]), &st);
    assert_eq!(cols, [['-', 'M'], ['N', '-'], ['-', 'N'], ['-', 'I'], ['-', '-']]);
}

#[test]
fn a_directory_shows_the_most_notable_status_inside_it() {
    let st = vec![
        (*b"??", "src/new.rs".to_string()),
        (*b" M", "src/lib.rs".to_string()),
        (*b"!!", "src/debug.log".to_string()),
        (*b"!!", "docs/out.html".to_string()),
    ];
    let cols = git_columns(&paths(&["src", "docs"]), &st);
    // An ignored file inside a directory doesn't make the directory ignored.
    assert_eq!(cols, [['-', 'M'], ['-', '-']]);
}

#[test]
fn a_wholly_ignored_dir_marks_every_entry() {
    let st = vec![(*b"!!", String::new())];
    assert_eq!(git_columns(&paths(&["a", "b"]), &st), [['-', 'I'], ['-', 'I']]);
}

#[test]
fn a_collapsed_row_takes_the_status_of_everything_inside_it() {
    let st = vec![
        (*b"??", "foo/bar/baz/new.rs".to_string()),
        (*b"!!", "foo/bar/baz/debug.log".to_string()),
        (*b"!!", "ign/sub/".to_string()),
        (*b"!!", "half/".to_string()),
    ];
    let cols = git_columns(&paths(&["foo/bar/baz", "ign/sub", "half/way", "clean/x"]), &st);
    // An ignored dir at or above the row's path covers the whole row;
    // an ignored file below it doesn't.
    assert_eq!(cols, [['-', 'N'], ['-', 'I'], ['-', 'I'], ['-', '-']]);
    let st = vec![(*b"!!", "foo/bar/baz/deeper/".to_string())];
    assert_eq!(git_columns(&paths(&["foo/bar/baz"]), &st), [['-', '-']]);
    // A sibling whose name merely extends the row's is not above it.
    assert!(!covers("foo/ba", "foo/bar"));
    assert!(covers("foo", "foo/bar"));
    assert!(covers("foo/bar", "foo/bar"));
}

#[test]
fn of_two_rows_with_the_same_first_part_the_last_has_the_status() {
    let st = vec![(*b" M", "a/x".to_string()), (*b"D ", "b".to_string())];
    assert_eq!(git_columns(&paths(&["a", "a/c", "b"]), &st), [['-', '-'], ['-', 'M'], ['D', '-']]);
}

fn sole(name: &str) -> Look {
    Look { name: name.to_string(), is_dir: Some(true), has_more: false }
}

#[test]
fn a_chain_of_sole_subdirectories_collapses_into_one_row() {
    let chain = sole_subdir_chain(&vec![sole("b"), sole("c"), sole("d"), sole("e")]);
    assert_eq!(chain, ["b", "c", "d", "e"]);
    let entries = || vec![dir("foo", &["bar", "baz"]), dir("a", &["b", "c", "d", "e"]), file("f.txt", 0)];
    assert_eq!(render(entries(), None, true, false), ["a/b/c/d/e/", "foo/bar/baz/", "f.txt"]);
    let rows = render(entries(), None, false, false);
    assert_eq!(rows, ["   - a/b/c/d/e/", "   - foo/bar/baz/", "   0 f.txt"]);
}

#[test]
fn a_chain_stops_at_a_directory_with_more_than_one_entry() {
    let more = Look { name: "four".to_string(), is_dir: Some(true), has_more: true };
    assert_eq!(sole_subdir_chain(&vec![sole("two"), more, sole("below")]), ["two"]);
    assert_eq!(sole_subdir_chain(&vec![]), [""; 0]);
}

#[test]
fn a_chain_ends_before_a_file_or_a_link() {
    let other = Look { name: "only.rs".to_string(), is_dir: Some(false), has_more: false };
    assert_eq!(sole_subdir_chain(&vec![sole("g"), other]), ["g"]);
    // A link to a directory is not expanded either.
    let rows = render(vec![link("to-real", "real", true), dir("real", &["inner"])], None, true, false);
    assert_eq!(rows, ["real/inner/", "to-real"]);
    let rows = render(vec![link("to-real", "real", true)], None, false, false);
    assert!(rows[0].ends_with(" to-real -> real"), "{rows:?}");
}

#[test]
fn an_unreadable_level_ends_the_chain() {
    let unreadable = Look { name: String::new(), is_dir: None, has_more: false };
    assert_eq!(sole_subdir_chain(&vec![sole("q"), unreadable, sole("r")]), ["q"]);
}

#[test]
fn every_segment_of_a_chain_is_escaped() {
    let rows = render(vec![dir("a\x1b", &["b\x07c"])], None, true, false);
    assert_eq!(rows, ["a\\u{1b}/b\\u{7}c/"]);
}

#[test]
fn a_path_below_is_not_escaped() {
    assert_eq!(dir("a\x1b", &["b", "c\n"]).rel_path(), "a\x1b/b/c\n");
    assert!(dir("a", &[]).is_real_dir());
    assert!(!link("a", "b", true).is_real_dir());
    assert!(!file("a", 0).is_real_dir());
}

#[test]
fn a_row_has_its_colors() {
    let st: Vec<Status> = vec![(*b" M", "d/x".to_string()), (*b"??", "f".to_string())];
    let mut f = file("f", 999);
    f.language = Some(1);
    let rows = render(vec![f, dir("d", &[]), link("l\n", "x\ty", false)], Some(&st), false, true);
    assert_eq!(
        rows,
        [
            "\x1b[2m   -\x1b[m \x1b[2m-\x1b[m\x1b[34mM\x1b[m \x1b[1;34md/\x1b[m",
            " 999 \x1b[2m-\x1b[m\x1b[32mN\x1b[m \x1b[32mf\x1b[m",
            "\x1b[2m   -\x1b[m \x1b[2m-\x1b[m\x1b[2m-\x1b[m \x1b[36ml\\n\x1b[m -> x\\ty",
        ]
    );
    let rows = render(vec![file("f", 12_345)], Some(&st), false, false);
    assert_eq!(rows, [" 12k -N f"]);
    let mut row = "x".to_string();
    push_painted(&mut row, "y", "", true);
    assert_eq!(row, "xy");
    for (c, want) in [('N', "\x1b[32m"), ('M', "\x1b[34m"), ('D', "\x1b[31m"), ('U', "\x1b[31m"), ('R', "\x1b[33m"), ('T', "\x1b[33m"), ('I', "\x1b[2m"), ('-', "\x1b[2m")] {
        assert_eq!(git_color(c), want);
    }
}

#[test]
fn entries_sort_as_the_standard_library_sorts_them() {
    let names = ["b", "B", "a", "A", "aB", "Ab", "\u{c4}", "\u{e4}", "z", "\u{130}", "i\u{307}", "\u{3a3}", "\u{3c3}", "\u{3c2}", "\u{10ffff}", "\u{ffff}", "", "ab", "AB", "b"];
    let mut entries: Vec<Entry> = Vec::new();
    for (i, n) in names.iter().enumerate() {
        let mut e = if i % 3 == 0 { dir(n, &[]) } else { file(n, 0) };
        e.size = i as u64;
        entries.push(e);
    }
    let mut want: Vec<(bool, String, u64)> = entries.iter().map(|e| (e.is_dir, e.name.clone(), e.size)).collect();
    want.sort_by(|a, b| b.0.cmp(&a.0).then_with(|| a.1.to_lowercase().cmp(&b.1.to_lowercase())).then_with(|| a.1.cmp(&b.1)));
    sort_entries(&mut entries);
    let got: Vec<(bool, String, u64)> = entries.iter().map(|e| (e.is_dir, e.name.clone(), e.size)).collect();
    assert_eq!(got, want);
}

#[test]
fn an_entry_that_is_gone_is_left_out() {
    let reads = vec![EntryRead::Read(file("a", 1)), EntryRead::Gone, EntryRead::Read(file("b", 2))];
    let names: Vec<String> = read_entries(reads).unwrap().into_iter().map(|e| e.name).collect();
    assert_eq!(names, ["a", "b"]);
    let reads = vec![EntryRead::Gone, EntryRead::Failed("denied".to_string()), EntryRead::Failed("later".to_string())];
    assert_eq!(read_entries(reads).unwrap_err(), "denied");
}

#[test]
fn directories_then_lower_case_then_names() {
    assert!(comes_before_by(&dir("b", &[]), "b", &file("a", 0), "a"));
    assert!(!comes_before_by(&file("a", 0), "a", &dir("b", &[]), "b"));
    assert!(comes_before_by(&file("b", 0), "x", &file("a", 0), "y"));
    assert!(comes_before_by(&file("A", 0), "x", &file("a", 0), "x"));
    assert!(!comes_before_by(&file("a", 0), "x", &file("a", 0), "x"));
}

fn without_colors(row: &str) -> String {
    let mut parts = row.split('\x1b');
    let mut text = parts.next().unwrap().to_string();
    for part in parts {
        text.push_str(part.split_once('m').unwrap().1);
    }
    text
}

#[test]
fn a_row_without_its_colors_is_the_uncolored_row() {
    let st: Vec<Status> = vec![(*b" M", "d/x".to_string()), (*b"??", "mm.rs".to_string())];
    let entries = || {
        let mut f = file("mm.rs", 1_234_567);
        f.language = Some(4);
        vec![f, file("m\x1b[31m", 7), dir("d", &["e"]), link("l", "am\n", true)]
    };
    for status in [Some(&st), None] {
        for plain in [true, false] {
            let colored = render(entries(), status, plain, true);
            let bare: Vec<String> = colored.iter().map(|r| without_colors(r)).collect();
            assert_eq!(bare, render(entries(), status, plain, false));
            assert_eq!(colored == bare, plain);
        }
    }
}
