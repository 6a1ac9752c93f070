use aegis_core::ingest::datagram_lines;

#[test]
fn datagrams_split_into_nonempty_lines() {
    assert_eq!(datagram_lines("a\nb\r\n\nc"), vec!["a", "b", "c"]);
    assert_eq!(datagram_lines("only one"), vec!["only one"]);
    assert_eq!(datagram_lines("trailing\n"), vec!["trailing"]);
    assert!(datagram_lines("").is_empty());
    assert!(datagram_lines("\n\r\n\n").is_empty());
    assert_eq!(datagram_lines(" x \n"), vec![" x "]);
}

#[test]
fn datagram_lines_match_str_lines() {
    for s in ["a\nb", "a\r\nb\r\n", "\n\nx\n\ny", "x\ry\nz", "tail\r"] {
        let expected: Vec<String> = s.lines().filter(|l| !l.is_empty()).map(|l| l.to_string()).collect();
        assert_eq!(datagram_lines(s), expected, "input {s:?}");
    }
}
