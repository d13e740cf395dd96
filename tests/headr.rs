use headr::config::make_config;
use headr::config::parse_positive_int;
use headr::extract::head;
use headr::extract::Extractor;
use headr::extract::Mode;
use headr::render::compose;
use headr::render::error_message;
use headr::render::render_source;
use headr::render::SourceOutcome;

#[test]
fn test_parse_positive_int() {
    let res = parse_positive_int("3");
    assert!(res.is_ok());
    assert_eq!(res.unwrap(), 3);

    let res = parse_positive_int("foo");
    assert!(res.is_err());
    assert_eq!(res.unwrap_err().to_string(), "foo".to_string());

    let res = parse_positive_int("0");
    assert!(res.is_err());
    assert_eq!(res.unwrap_err().to_string(), "0".to_string());
}

#[test]
fn parse_accepts_plus_sign_and_large_values() {
    assert_eq!(parse_positive_int("+5"), Ok(5));
    assert_eq!(parse_positive_int("007"), Ok(7));
    assert_eq!(parse_positive_int("18446744073709551615"), Ok(usize::MAX));
}

#[test]
fn parse_rejects_bad_text() {
    assert_eq!(parse_positive_int(""), Err("".to_string()));
    assert_eq!(parse_positive_int("+"), Err("+".to_string()));
    assert_eq!(parse_positive_int("-3"), Err("-3".to_string()));
    assert_eq!(parse_positive_int("1 "), Err("1 ".to_string()));
    assert_eq!(parse_positive_int("18446744073709551616"), Err("18446744073709551616".to_string()));
}

#[test]
fn lines_exactly_n_of_longer_stream() {
    assert_eq!(head(Mode::Lines(2), b"one\ntwo\nthree\n"), b"one\ntwo\n".to_vec());
    assert_eq!(head(Mode::Lines(1), b"\n\nx"), b"\n".to_vec());
}

#[test]
fn lines_last_without_terminator() {
    assert_eq!(head(Mode::Lines(2), b"a\nb"), b"a\nb".to_vec());
}

#[test]
fn lines_short_stream_whole() {
    assert_eq!(head(Mode::Lines(10), b"a\nb\nc\n"), b"a\nb\nc\n".to_vec());
    assert_eq!(head(Mode::Lines(3), b""), Vec::<u8>::new());
}

#[test]
fn lines_on_invalid_utf8() {
    let data: Vec<u8> = vec![0xff, 0xfe, 10, 0xc3, 10, 1];
    assert_eq!(head(Mode::Lines(2), &data), vec![0xff, 0xfe, 10, 0xc3, 10]);
}

#[test]
fn bytes_exactly_m() {
    assert_eq!(head(Mode::Bytes(5), b"hello world"), b"hello".to_vec());
}

#[test]
fn bytes_short_stream_whole() {
    assert_eq!(head(Mode::Bytes(50), b"abc"), b"abc".to_vec());
    assert_eq!(head(Mode::Bytes(1), b""), Vec::<u8>::new());
}

#[test]
fn bytes_split_multibyte_character() {
    let data = "é!".as_bytes();
    assert_eq!(head(Mode::Bytes(1), data), vec![0xc3]);
}

#[test]
fn extractor_over_chunks_matches_whole() {
    let whole = b"ab\ncd\nef\ngh\n";
    let mut ex = Extractor::new(Mode::Lines(3));
    let mut out: Vec<u8> = Vec::new();
    let k1 = ex.feed_into(b"ab\nc", &mut out);
    assert_eq!(k1, 4);
    assert!(!ex.is_done());
    let k2 = ex.feed_into(b"d\nef\ngh\n", &mut out);
    assert_eq!(k2, 5);
    assert!(ex.is_done());
    assert_eq!(out, head(Mode::Lines(3), whole));

    let mut ex = Extractor::new(Mode::Bytes(4));
    assert_eq!(ex.feed(b"abc"), 3);
    assert_eq!(ex.mode, Mode::Bytes(1));
    assert_eq!(ex.feed(b"defg"), 1);
    assert!(ex.is_done());
}

#[test]
fn config_defaults_to_stdin() {
    let c = make_config(Vec::new(), "10", None).unwrap();
    assert_eq!(c.files, vec!["-".to_string()]);
    assert_eq!(c.lines, 10);
    assert_eq!(c.bytes, None);
    assert_eq!(c.mode(), Mode::Lines(10));
}

#[test]
fn config_byte_mode_wins() {
    let c = make_config(vec!["a".to_string(), "b".to_string()], "10", Some("5")).unwrap();
    assert_eq!(c.files, vec!["a".to_string(), "b".to_string()]);
    assert_eq!(c.mode(), Mode::Bytes(5));
}

#[test]
fn config_rejects_bad_line_count() {
    let e = make_config(vec!["a.txt".to_string()], "abc", None).err().unwrap();
    assert_eq!(e, "given line count not allowed -- abc");
    let e = make_config(vec!["a.txt".to_string()], "0", Some("3")).err().unwrap();
    assert_eq!(e, "given line count not allowed -- 0");
}

#[test]
fn config_rejects_bad_byte_count() {
    let e = make_config(vec!["a.txt".to_string()], "10", Some("x1")).err().unwrap();
    assert_eq!(e, "given byte count not allowed -- x1");
}

#[test]
fn two_sources_with_headers() {
    let ids = vec!["a.txt".to_string(), "b.txt".to_string()];
    let outs = vec![
        SourceOutcome::Content(head(Mode::Lines(2), b"one\ntwo\nthree\n")),
        SourceOutcome::Content(head(Mode::Lines(2), b"x\n")),
    ];
    let r = compose(&ids, &outs);
    assert_eq!(r.out, b"==> a.txt <==\none\ntwo\n\n==> b.txt <==\nx\n".to_vec());
    assert!(r.errors.is_empty());
}

#[test]
fn three_sources_headers_in_order() {
    let ids = vec!["p".to_string(), "q".to_string(), "r".to_string()];
    let outs = vec![
        SourceOutcome::Content(b"1\n".to_vec()),
        SourceOutcome::Content(Vec::new()),
        SourceOutcome::Content(b"3".to_vec()),
    ];
    let r = compose(&ids, &outs);
    assert_eq!(r.out, b"==> p <==\n1\n\n==> q <==\n\n==> r <==\n3".to_vec());
}

#[test]
fn missing_source_reports_error() {
    let ids = vec!["missing.txt".to_string()];
    let outs = vec![SourceOutcome::Failed("No such file or directory (os error 2)".to_string())];
    let r = compose(&ids, &outs);
    assert!(r.out.is_empty());
    assert_eq!(r.errors, vec!["missing.txt: No such file or directory (os error 2)".to_string()]);
}

#[test]
fn failure_does_not_stop_later_sources() {
    let ids = vec!["gone".to_string(), "b".to_string(), "c".to_string()];
    let outs = vec![
        SourceOutcome::Failed("denied".to_string()),
        SourceOutcome::Content(b"y\n".to_vec()),
        SourceOutcome::Failed("read error".to_string()),
    ];
    let r = compose(&ids, &outs);
    assert_eq!(r.out, b"\n==> b <==\ny\n".to_vec());
    assert_eq!(r.errors, vec!["gone: denied".to_string(), "c: read error".to_string()]);
}

#[test]
fn single_stdin_source_bytes_no_header() {
    let c = make_config(vec!["-".to_string()], "10", Some("5")).unwrap();
    let content = head(c.mode(), b"hello world");
    let r = compose(&c.files, &vec![SourceOutcome::Content(content)]);
    assert_eq!(r.out, b"hello".to_vec());
    assert!(r.errors.is_empty());
}

#[test]
fn render_one_source() {
    let r = render_source("f", 1, 2, &SourceOutcome::Content(b"z".to_vec()));
    assert_eq!(r.out, b"\n==> f <==\nz".to_vec());
    let r = render_source("f", 0, 1, &SourceOutcome::Content(b"z".to_vec()));
    assert_eq!(r.out, b"z".to_vec());
    assert_eq!(error_message("f", "bad"), "f: bad".to_string());
}
