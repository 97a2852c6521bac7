use eat::filename::is_safe_filename;

#[test]
fn safe_filenames_accepted() {
    for name in [
        "foo",
        "foo.txt",
        "Foo_Bar.tar.gz",
        "_underscore",
        "v2",
        "1.txt",
        "foo+bar.tar.gz",
        "my-file_v2.tar.gz",
        ".gitignore",
        ".env.local",
    ] {
        assert!(is_safe_filename(name), "expected {name:?} to be safe");
    }
}

#[test]
fn unsafe_filenames_rejected() {
    for name in [
        "",
        ".",
        "..",
        "...foo",
        "..tilde",
        "tilde~mid",
        "trailing~",
        "foo.b-c_d",
        "foo..txt",
        "-leading-dash.txt",
        "--double-dash",
        "with space.txt",
        "a/b",
        "a\\b",
        "foo:bar",
        "foo\"bar",
        "foo|bar",
        "foo$bar",
        "foo#bar",
        "foo,bar",
        "foo(bar)",
        "key=value.conf",
        "user@host.txt",
        "0123",
        "42",
        "h\u{e9}llo.txt",                   // hello with an acute e
        "r\u{e9}sum\u{e9}.pdf",             // resume with acutes
        "\u{444}\u{430}\u{439}\u{43b}.txt", // cyrillic
        "\u{4f60}\u{597d}.md",              // cjk
        "rocket\u{1f680}.txt",              // emoji
        "\u{1f480}",                        // emoji
        "newline\n",
    ] {
        assert!(!is_safe_filename(name), "expected {name:?} to be unsafe");
    }
}

#[test]
fn a_hyphen_after_a_leading_dot_is_part_of_the_stem() {
    assert!(is_safe_filename(".-a"));
    assert!(is_safe_filename("+a"));
    assert!(is_safe_filename("1.2.c"));
    assert!(!is_safe_filename("a."));
    assert!(!is_safe_filename(".a."));
    assert!(!is_safe_filename("1.2.3"));
}
