use xav::num;
use xav::paths;
use xav::quote;
use xav::text;

fn owned(v: &[&str]) -> Vec<String> {
    v.iter().map(|s| s.to_string()).collect()
}

#[test]
fn words_are_parted_by_any_space() {
    assert_eq!(text::words("  --a 1\t--b\u{a0}2\n"), owned(&["--a", "1", "--b", "2"]));
    assert_eq!(text::words(""), owned(&[]));
    let s = "a\u{85}b\u{1680}c\u{2003}d\u{3000}e f";
    let std_words: Vec<String> = s.split_whitespace().map(|w| w.to_string()).collect();
    assert_eq!(text::words(s), std_words);
}

#[test]
fn pieces_keep_empty_parts() {
    assert_eq!(text::pieces("a,,b", ','), owned(&["a", "", "b"]));
    assert_eq!(text::pieces("", ','), owned(&[""]));
}

#[test]
fn lines_end_at_line_feeds() {
    for s in ["a\r\nb\n\nc", "", "\n", "a\n", "a\r", "x\ry\r\n"] {
        let std_lines: Vec<String> = s.lines().map(|l| l.to_string()).collect();
        assert_eq!(text::lines(s), std_lines);
    }
}

#[test]
fn trim_and_search() {
    assert_eq!(text::trim(" \t x y \r\n"), "x y");
    assert!(text::contains("an Error here", "Error"));
    assert!(!text::contains("fine", "error"));
    assert!(text::starts_with("POC 1", "POC"));
    assert_eq!(text::strip_prefix("--crf", "--"), Some("crf".to_string()));
    assert_eq!(text::strip_prefix("-crf", "--"), None);
    assert_eq!(text::split_once("a=b=c", "="), Some(("a".to_string(), "b=c".to_string())));
    assert_eq!(text::split_once("abc", "="), None);
    assert!(text::eq_ignore_ascii_case("FASTER", "faster"));
    assert!(!text::eq_ignore_ascii_case("fast", "faster"));
}

#[test]
fn joined_parts() {
    assert_eq!(text::join_by(&owned(&["a", "b", "c"]), ", "), "a, b, c");
    assert_eq!(text::join_by(&owned(&[]), ", "), "");
}

#[test]
fn decimal_numbers_read_back() {
    for n in [0usize, 7, 10, 4096, usize::MAX] {
        assert_eq!(num::parse_usize(&num::usize_text(n)), Some(n));
    }
    assert_eq!(num::parse_usize("+12"), Some(12));
    for bad in ["", "+", "-1", " 1", "1.0", "18446744073709551616", "0x1"] {
        assert_eq!(num::parse_usize(bad), None);
        assert!(bad.parse::<usize>().is_err());
    }
}

#[test]
fn signed_and_padded_numbers() {
    assert_eq!(num::signed_text(-1), "-1");
    assert_eq!(num::signed_text(i64::MIN), i64::MIN.to_string());
    let mut s = String::new();
    num::push_zero_padded(&mut s, 42, 4);
    num::push_right_aligned(&mut s, 7, 3);
    num::push_padded_right(&mut s, "ab", 4);
    num::push_hexadecimal(&mut s, 0xcafe);
    assert_eq!(s, "0042  7ab  cafe");
}

#[test]
fn parts_of_paths() {
    assert_eq!(paths::file_stem("/v/clip.one.mkv"), Some("clip.one".to_string()));
    assert_eq!(paths::extension("/v/clip.one.mkv"), Some("mkv".to_string()));
    assert_eq!(paths::extension("/v/.hidden"), None);
    assert_eq!(paths::file_stem(".."), None);
    assert_eq!(paths::file_name("/v/clip.mkv/"), Some("clip.mkv".to_string()));
    assert_eq!(paths::join("/v", "a"), "/v/a");
    assert_eq!(paths::join("", "a"), "a");
    assert_eq!(paths::with_extension("/v/clip.mkv", "json"), "/v/clip.json");
}

#[test]
fn paths_agree_with_the_standard_library() {
    for p in ["/v/a.mkv", "a", "a/b.c.d", "/", "..", "a/.b", "a.b/", "", "./x.y", "a/./b.c"] {
        let q = std::path::Path::new(p);
        let stem = q.file_stem().map(|s| s.to_str().unwrap().to_string());
        let ext = q.extension().map(|s| s.to_str().unwrap().to_string());
        let name = q.file_name().map(|s| s.to_str().unwrap().to_string());
        assert_eq!(paths::file_stem(p), stem, "{p}");
        assert_eq!(paths::extension(p), ext, "{p}");
        assert_eq!(paths::file_name(p), name, "{p}");
        let renamed = q.with_file_name("n.x");
        assert_eq!(paths::with_file_name(p, "n.x"), renamed.to_str().unwrap(), "{p}");
    }
}

#[test]
fn renamed_paths_have_the_name() {
    let p = paths::with_file_name("/v/clip.mkv", "clip_xav.mkv");
    assert_eq!(p, "/v/clip_xav.mkv");
    assert_eq!(paths::file_name(&p), Some("clip_xav.mkv".to_string()));
}

#[test]
fn saved_args_are_quoted_and_read_back() {
    let cmd = owned(&["xav", "-p", "--crf 30 --preset 2", "in.mkv", "out file.mkv"]);
    let w = quote::save_args("/v/.abc", &cmd);
    assert_eq!(w.path, "/v/.abc/cmd.txt");
    assert_eq!(w.text, "xav -p \"--crf 30 --preset 2\" in.mkv \"out file.mkv\"");
    assert_eq!(quote::parse_quoted_args(&w.text), cmd);
}

#[test]
fn quotes_and_empty_words_do_not_read_back() {
    assert_eq!(quote::parse_quoted_args(&quote::quote_args(&owned(&["a", "", "b"]))), owned(&["a", "b"]));
    assert_eq!(quote::parse_quoted_args("a\"b c\"d  e"), owned(&["ab cd", "e"]));
    assert_eq!(quote::parse_quoted_args(""), owned(&[]));
}

#[test]
fn what_was_read_saves_back() {
    let read = quote::parse_quoted_args("x  \"y z\" \"\" w\"");
    assert_eq!(quote::parse_quoted_args(&quote::quote_args(&read)), read);
}
