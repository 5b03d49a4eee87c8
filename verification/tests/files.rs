use std::path::Path;
use utf8proj::baseline::{Baseline, BaselineStore, TaskSnapshot};
use utf8proj::date::{Date, Timestamp};
use utf8proj::files::{
    baselines_path, detect_format, escape_string, extension, parse_quoted_string, serialize_baselines, unescape_string,
    FileFormat, ParseError,
};

#[test]
fn test_escape_string() {
    assert_eq!(escape_string("hello"), "hello");
    assert_eq!(escape_string("hello\"world"), "hello\\\"world");
    assert_eq!(escape_string("line1\nline2"), "line1\\nline2");
    assert_eq!(escape_string("path\\to\\file"), "path\\\\to\\\\file");
}

#[test]
fn unescape_reverses_escape() {
    let s = "a \"quoted\"\ttab\\ and\nnewline";
    assert_eq!(unescape_string(&escape_string(s)), s);
    assert_eq!(unescape_string("x\\qy"), "x\\qy");
    assert_eq!(unescape_string("end\\"), "end\\");
}

#[test]
fn test_baselines_path() {
    assert_eq!(
        Path::new(&baselines_path("/home/user/project.proj")),
        Path::new("/home/user/project.proj.baselines")
    );
    assert_eq!(Path::new(&baselines_path("myproject.proj")), Path::new("myproject.proj.baselines"));
}

#[test]
fn test_detect_format_tjp() {
    assert_eq!(detect_format("project.tjp"), FileFormat::TaskJuggler);
}

#[test]
fn test_detect_format_native() {
    assert_eq!(detect_format("project.proj"), FileFormat::Native);
}

#[test]
fn test_detect_format_unknown() {
    assert_eq!(detect_format("project.txt"), FileFormat::Native);
}

#[test]
fn test_detect_format_no_extension() {
    assert_eq!(detect_format("project"), FileFormat::Native);
}

#[test]
fn extension_follows_std_path() {
    for p in ["a/b.tjp", ".hidden", "dir.d/file", "x.", "a/..", "/", "", "..x", "f.tar.gz", "a/b.proj/."] {
        let ours = extension(p);
        let std = Path::new(p).extension().map(|e| e.to_str().unwrap().to_string());
        assert_eq!(ours, std, "path {:?}", p);
    }
    assert_eq!(detect_format("dir/plan.tjp"), FileFormat::TaskJuggler);
}

#[test]
fn test_parse_error_display() {
    let err = ParseError::Syntax { line: 10, column: 5, message: "unexpected token".to_string() };
    let msg = err.message();
    assert!(msg.contains("line 10"));
    assert!(msg.contains("column 5"));
    assert_eq!(msg, "Syntax error at line 10, column 5: unexpected token");
    assert!(ParseError::InvalidValue("bad value".to_string()).message().contains("bad value"));
    assert!(ParseError::UnknownIdentifier("xyz".to_string()).message().contains("xyz"));
}

fn date(y: i32, m: u32, d: u32) -> Date {
    Date::from_ymd(y, m, d).unwrap()
}

#[test]
fn serialize_store_layout() {
    let mut store = BaselineStore::new();
    let mut b = Baseline::new("original").description("Initial \"approved\" plan");
    b.saved = Timestamp { seconds: 1768473000, nanos: 0 };
    b.add_task(TaskSnapshot::new("design", date(2026, 1, 1), date(2026, 1, 10)));
    b.add_task(TaskSnapshot::new("build", date(2026, 1, 11), date(2026, 2, 15)));
    store.add(b).unwrap();
    let text = serialize_baselines(&store);
    let expected = "# Auto-generated by utf8proj. Manual edits not recommended.\n\n\
baseline original {\n    saved: 2026-01-15T10:30:00+00:00\n    description: \"Initial \\\"approved\\\" plan\"\n\n    build: 2026-01-11 -> 2026-02-15\n    design: 2026-01-01 -> 2026-01-10\n}\n\n";
    assert_eq!(text, expected);
}

#[test]
fn serialize_empty_store() {
    let store = BaselineStore::new();
    assert_eq!(serialize_baselines(&store), "# Auto-generated by utf8proj. Manual edits not recommended.\n\n");
}

#[test]
fn quoted_tokens_read_back_what_was_escaped() {
    assert_eq!(parse_quoted_string("\"line1\\nline2\""), "line1\nline2");
    let original = "say \"hi\"\tand \\ leave";
    let token = format!("\"{}\"", escape_string(original));
    assert_eq!(parse_quoted_string(&token), original);
}
