use threedobs::scalar::Scalar;
use threedobs::text::{
    blank, bytes_eq, contains, copy_range, is_word, parse_i32, parse_u32, read_numbers, space,
    split_ascii_whitespace, split_lines, split_on, Token,
};

fn strings(v: Vec<Vec<u8>>) -> Vec<String> {
    v.into_iter().map(|b| String::from_utf8(b).unwrap()).collect()
}

#[test]
fn lines_end_at_line_feeds() {
    assert_eq!(strings(split_lines(b"a\nb c\r\n\nd")), vec!["a", "b c", "", "d"]);
    assert_eq!(strings(split_lines(b"a\n")), vec!["a"]);
    assert_eq!(strings(split_lines(b"\n")), vec![""]);
    assert!(split_lines(b"").is_empty());
    assert_eq!(strings(split_lines(b"a\r")), vec!["a\r"]);
    assert_eq!(strings(split_lines(b"a\r\r\nb")), vec!["a\r", "b"]);
}

#[test]
fn words_are_runs_between_separators() {
    assert_eq!(strings(split_ascii_whitespace(b"  v 1.0\t2 \r")), vec!["v", "1.0", "2"]);
    assert!(split_ascii_whitespace(b" \t\r\n\x0c").is_empty());
    assert!(split_ascii_whitespace(b"").is_empty());
    assert_eq!(strings(split_ascii_whitespace(b"a\x0bb")), vec!["a\x0bb"]);
    assert!(space(b' ') && space(b'\t') && space(b'\n') && space(b'\r') && space(0x0c));
    assert!(!space(0x0b) && !space(b'a') && !space(0));
}

#[test]
fn fields_keep_empty_parts() {
    assert_eq!(strings(split_on(b"1//3", b'/')), vec!["1", "", "3"]);
    assert_eq!(strings(split_on(b"1/2", b'/')), vec!["1", "2"]);
    assert_eq!(strings(split_on(b"", b'/')), vec![""]);
    assert_eq!(strings(split_on(b"/", b'/')), vec!["", ""]);
    assert_eq!(strings(split_on(b"12", b'/')), vec!["12"]);
}

#[test]
fn signed_integers() {
    assert_eq!(parse_i32(b"0"), Some(0));
    assert_eq!(parse_i32(b"-0"), Some(0));
    assert_eq!(parse_i32(b"+17"), Some(17));
    assert_eq!(parse_i32(b"-17"), Some(-17));
    assert_eq!(parse_i32(b"0000000000000000000012"), Some(12));
    assert_eq!(parse_i32(b"2147483647"), Some(i32::MAX));
    assert_eq!(parse_i32(b"-2147483648"), Some(i32::MIN));
    assert_eq!(parse_i32(b"2147483648"), None);
    assert_eq!(parse_i32(b"-2147483649"), None);
    assert_eq!(parse_i32(b"99999999999999999999999999"), None);
    assert_eq!(parse_i32(b""), None);
    assert_eq!(parse_i32(b"-"), None);
    assert_eq!(parse_i32(b"+"), None);
    assert_eq!(parse_i32(b"1.0"), None);
    assert_eq!(parse_i32(b" 1"), None);
    assert_eq!(parse_i32(b"--1"), None);
    assert_eq!(parse_i32(b"1a"), None);
    for s in ["7", "-7", "+7", "", "x", "2147483647", "-2147483648", "2147483648", "007"] {
        assert_eq!(parse_i32(s.as_bytes()), s.parse::<i32>().ok());
    }
}

#[test]
fn unsigned_integers() {
    assert_eq!(parse_u32(b"0"), Some(0));
    assert_eq!(parse_u32(b"+5"), Some(5));
    assert_eq!(parse_u32(b"4294967295"), Some(u32::MAX));
    assert_eq!(parse_u32(b"4294967296"), None);
    assert_eq!(parse_u32(b"-0"), None);
    assert_eq!(parse_u32(b"-1"), None);
    assert_eq!(parse_u32(b""), None);
    for s in ["7", "-7", "+7", "", "x", "4294967295", "4294967296", "-0"] {
        assert_eq!(parse_u32(s.as_bytes()), s.parse::<u32>().ok());
    }
}

#[test]
fn comparing_and_searching() {
    assert!(bytes_eq(b"abc", b"abc"));
    assert!(!bytes_eq(b"abc", b"abd"));
    assert!(!bytes_eq(b"abc", b"ab"));
    assert!(bytes_eq(b"", b""));
    assert!(is_word(b"mtllib", "mtllib"));
    assert!(!is_word(b"mtllib ", "mtllib"));
    assert!(contains(b"facet normal 0 0 1", b"normal"));
    assert!(contains(b"endfacet", b"endfacet"));
    assert!(contains(b"xendfacet", b"facet"));
    assert!(!contains(b"endface", b"endfacet"));
    assert!(contains(b"abc", b""));
    assert!(contains(b"", b""));
    assert!(!contains(b"", b"a"));
    assert!(contains(b"aab", b"ab"));
    assert_eq!(copy_range(b"hello", 1, 3), b"el".to_vec());
    assert_eq!(copy_range(b"hello", 5, 5), Vec::<u8>::new());
}

#[test]
fn blank_lines_and_comments() {
    let line = |s: &[u8]| -> Vec<Token> {
        split_ascii_whitespace(s).into_iter().map(|w| Token::new(w, None)).collect()
    };
    assert!(blank(&line(b"")));
    assert!(blank(&line(b"   ")));
    assert!(blank(&line(b"# comment")));
    assert!(blank(&line(b"#comment")));
    assert!(!blank(&line(b"v # comment")));
    assert!(!blank(&line(b"v")));
}

#[test]
fn numbers_of_a_line() {
    let n = |v: f32| Some(Scalar::from_bits(v.to_bits()));
    let line = vec![
        Token::new(b"v".to_vec(), None),
        Token::new(b"1".to_vec(), n(1.0)),
        Token::new(b"2".to_vec(), n(2.0)),
        Token::new(b"x".to_vec(), None),
    ];
    let got = read_numbers(&line, 1, 2).unwrap();
    assert_eq!(got, vec![n(1.0).unwrap(), n(2.0).unwrap()]);
    assert!(read_numbers(&line, 1, 3).is_none());
    assert!(read_numbers(&line, 0, 1).is_none());
    assert_eq!(read_numbers(&line, 3, 0), Some(vec![]));
}
