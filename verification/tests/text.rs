use awsvpn::number::{parse_str, to_decimal, NumberError};
use awsvpn::path::{file_stem, join, join_for, parent};
use awsvpn::split::{
    joined, line_list, pieces, text_pieces, trimmed, trimmed_of, with_line_ends, word_list,
};
use awsvpn::text::{chars, is_control, is_whitespace, position, string, to_lowercase};

fn words_of(s: &str) -> Vec<String> {
    word_list(&chars(s)).iter().map(|w| string(w)).collect()
}

fn lines_of(s: &str) -> Vec<String> {
    line_list(&chars(s)).iter().map(|w| string(w)).collect()
}

fn pieces_of(s: &str, sep: char) -> Vec<String> {
    pieces(&chars(s), sep).iter().map(|w| string(w)).collect()
}

const SAMPLES: [&str; 12] = [
    "",
    " ",
    "a",
    " a b\tc \u{a0}\u{3000}d ",
    "one\ntwo\r\nthree",
    "one\n\ntwo\n",
    "\r\n",
    "tail\r",
    "a\r\r\nb",
    "\u{2028}x\u{85}y",
    "::a::b::",
    "école ☃ \u{1f600}",
];

#[test]
fn character_classes_match_unicode() {
    for n in 0..=0x10ffff_u32 {
        if let Some(c) = char::from_u32(n) {
            assert_eq!(is_whitespace(c), c.is_whitespace(), "{n:x}");
            assert_eq!(is_control(c), c.is_control(), "{n:x}");
        }
    }
}

#[test]
fn cutting_matches_the_standard_library() {
    for s in SAMPLES {
        assert_eq!(words_of(s), s.split_whitespace().collect::<Vec<_>>());
        assert_eq!(lines_of(s), s.lines().collect::<Vec<_>>());
        assert_eq!(pieces_of(s, ':'), s.split(':').collect::<Vec<_>>());
        assert_eq!(pieces_of(s, '\n'), s.split('\n').collect::<Vec<_>>());
        assert_eq!(
            text_pieces(&chars(s), "::").iter().map(|w| string(w)).collect::<Vec<_>>(),
            s.split("::").collect::<Vec<_>>()
        );
        assert_eq!(string(&trimmed(&chars(s))), s.trim());
        assert_eq!(string(&trimmed_of(&chars(s), &[':'])), s.trim_matches(':'));
        assert_eq!(string(&to_lowercase(&chars(s))), s.to_ascii_lowercase());
        assert_eq!(
            position(&chars(s), &chars("::")).is_some(),
            s.contains("::")
        );
    }
}

#[test]
fn pieces_are_read_back_from_their_join() {
    let parts = vec![chars("a"), chars(""), chars("bc")];
    let whole = joined(&parts, ";");
    assert_eq!(string(&whole), "a;;bc");
    assert_eq!(pieces(&whole, ';'), parts);
    assert_eq!(string(&with_line_ends(&parts)), "a\n\nbc\n");
}

#[test]
fn numbers_match_the_standard_library() {
    for s in ["", "0", "7", "+7", "+", "-1", "65535", "65536", "99999", "007", "1x", "99999x", "١"] {
        let found = parse_str(s, u16::MAX as u64);
        match s.parse::<u16>() {
            Ok(n) => assert_eq!(found, Ok(n as u64)),
            Err(err) => assert_eq!(found.unwrap_err().message(), err.to_string(), "{s}"),
        }
    }
    assert_eq!(parse_str("", 9), Err(NumberError::Empty));
    assert_eq!(parse_str("a", 9), Err(NumberError::InvalidDigit));
    assert_eq!(parse_str("10", 9), Err(NumberError::TooLarge));
    for n in [0, 9, 10, 4294967295, u64::MAX] {
        let text = string(&to_decimal(n));
        assert_eq!(text, n.to_string());
        assert_eq!(parse_str(&text, u64::MAX), Ok(n));
    }
}

#[test]
fn paths_match_the_standard_library() {
    let samples = [
        "", "/", "a", "a/", "a/b", "/a", "/a/", "//a", "a//b", "a/./b", "./a", ".", "./", "..",
        "a/..", "/.", "/..", "a/b/.", "a.b", ".hidden", "x/.hidden", "a.tar.gz", "dir.d/file",
        "a.", "/tmp/client.ovpn", "client.ovpn",
    ];
    for s in samples {
        let path = std::path::Path::new(s);
        assert_eq!(
            parent(s, false),
            path.parent().map(|p| p.to_str().unwrap().to_string()),
            "parent of {s:?}"
        );
        assert_eq!(
            file_stem(s, false),
            path.file_stem().map(|p| p.to_str().unwrap().to_string()),
            "stem of {s:?}"
        );
        for name in ["", "x", "/x", "x/y", ".."] {
            let joined = path.join(name);
            assert_eq!(join(s, name), joined.to_str().unwrap(), "{s:?} {name:?}");
            assert_eq!(join_for(s, name, false), join(s, name));
        }
    }
}

#[test]
fn knows_the_parents_of_windows_paths() {
    for (path, dir) in [
        (r"C:\a.exe", Some(r"C:\")),
        (r"C:\a\b.exe", Some(r"C:\a")),
        (r"C:/a/b.exe", Some(r"C:/a")),
        (r"C:\a\.\b\", Some(r"C:\a")),
        (r"C:a", Some("C:")),
        (r"C:\", None),
        ("C:", None),
        ("C:.", None),
        (r"C:.\a", Some("C:.")),
        ("a.exe", Some("")),
        (r"a\b", Some("a")),
        (r"\a", Some(r"\")),
        (r".\a", Some(".")),
        (r"\\server\share\a", Some(r"\\server\share\")),
        (r"\\server\share", None),
        (r"\\server\share\a\b", Some(r"\\server\share\a")),
        (r"\\.\COM1\a", Some(r"\\.\COM1\")),
        (r"\\?\C:\a", Some(r"\\?\C:\")),
        (r"\\?\C:\a\b/c", Some(r"\\?\C:\a")),
        (r"\\?\C:\a\.", Some(r"\\?\C:\a")),
        (r"\\?\UNC\server\share\a", Some(r"\\?\UNC\server\share\")),
        (r"\\?\name\a", Some(r"\\?\name\")),
        ("", None),
    ] {
        assert_eq!(parent(path, true).as_deref(), dir, "parent of {path:?}");
    }
    assert_eq!(parent(r"C:\a.exe", false).as_deref(), Some(""));
    assert_eq!(file_stem(r"C:\a\work.ovpn", true).as_deref(), Some("work"));
    assert_eq!(file_stem(r"C:work.ovpn", true).as_deref(), Some("work"));
    assert_eq!(file_stem(r"C:\", true), None);
    assert_eq!(file_stem(r"C:\a\..", true), None);
}

#[test]
fn joins_windows_paths() {
    for (base, name, joined) in [
        (r"C:\a", "b", r"C:\a\b"),
        (r"C:\a\", "b", r"C:\a\b"),
        (r"C:/a/", "b", r"C:/a/b"),
        ("C:", "b", "C:b"),
        ("", "b", "b"),
        (r"C:\a", "", r"C:\a\"),
        (r"C:\a", r"\b", r"C:\b"),
        (r"C:\a", "/b", "C:/b"),
        (r"\\server\share\a", r"\b", r"\\server\share\b"),
        (r"C:\a", r"D:\b", r"D:\b"),
        (r"C:\a", "D:b", "D:b"),
        (r"C:\a", r"\\server\share", r"\\server\share"),
        (r"C:\a", "..", r"C:\a\.."),
        (r"\\?\C:\a", "..", r"\\?\C:\"),
        (r"\\?\C:\a", "b/./c", r"\\?\C:\a\b\c"),
        (r"\\?\C:\a\b", r"\c", r"\\?\C:\c"),
        (r"\\?\C:", "b", r"\\?\C:\b"),
        (r"\\?\C:\a\", "", r"\\?\C:\a\"),
    ] {
        assert_eq!(join_for(base, name, true), joined, "{base:?} {name:?}");
    }
}
