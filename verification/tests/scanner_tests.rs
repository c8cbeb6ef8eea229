use rpsl_ingest::entry::{Attribute, RawEntry};
use rpsl_ingest::scanner::{classify_line, read_attribute, scan_lines, scan_text, LineKind, Scanner};
use rpsl_ingest::text::{line_is_blank, position, split_bytes, trim};

fn lines(text: &[&str]) -> Vec<Vec<u8>> {
    text.iter().map(|l| l.as_bytes().to_vec()).collect()
}

fn attr(key: &str, value: &str) -> Attribute {
    Attribute { key: key.as_bytes().to_vec(), value: value.as_bytes().to_vec() }
}

#[test]
fn trim_removes_whitespace_at_both_ends() {
    assert_eq!(trim(b"  \t netname \r\n"), b"netname".to_vec());
    assert_eq!(trim(b"a b"), b"a b".to_vec());
    assert_eq!(trim(b" \t\r\n\x0b\x0c"), Vec::<u8>::new());
    assert_eq!(trim(b""), Vec::<u8>::new());
    assert_eq!(trim(b"x"), b"x".to_vec());
}

#[test]
fn blank_lines_hold_whitespace_only() {
    assert!(line_is_blank(b""));
    assert!(line_is_blank(b"   \t\r"));
    assert!(!line_is_blank(b"  x "));
    assert!(!line_is_blank(b"\x00"));
}

#[test]
fn position_finds_the_first_occurrence() {
    assert_eq!(position(b"a:b:c", b':', 0), 1);
    assert_eq!(position(b"a:b:c", b':', 2), 3);
    assert_eq!(position(b"a:b:c", b':', 4), 5);
    assert_eq!(position(b"abc", b':', 0), 3);
    assert_eq!(position(b"", b':', 0), 0);
    assert_eq!(position(b"a:b", b':', 3), 3);
    assert_eq!(position(b"a:b", b':', 7), 7);
}

#[test]
fn split_keeps_empty_pieces() {
    assert_eq!(split_bytes(b"a.b.c", b'.'), vec![b"a".to_vec(), b"b".to_vec(), b"c".to_vec()]);
    assert_eq!(split_bytes(b"", b'.'), vec![Vec::<u8>::new()]);
    assert_eq!(split_bytes(b".", b'.'), vec![Vec::<u8>::new(), Vec::<u8>::new()]);
    assert_eq!(split_bytes(b"a..b.", b'.'), vec![b"a".to_vec(), Vec::new(), b"b".to_vec(), Vec::new()]);
}

#[test]
fn line_kinds() {
    assert_eq!(classify_line(b""), LineKind::Blank);
    assert_eq!(classify_line(b"  \t "), LineKind::Blank);
    assert_eq!(classify_line(b"   more text"), LineKind::Continuation);
    assert_eq!(classify_line(b"\tkey: value"), LineKind::Continuation);
    assert_eq!(classify_line(b"inetnum: 10.0.0.0 - 10.0.0.255"), LineKind::Attribute);
    assert_eq!(classify_line(b"remarks:"), LineKind::Attribute);
    assert_eq!(classify_line(b"% This is a comment"), LineKind::Other);
    assert_eq!(classify_line(b": no key"), LineKind::Other);
    assert_eq!(classify_line(b"# note: with a colon"), LineKind::Attribute);
}

#[test]
fn attribute_line_is_cut_at_the_first_colon() {
    assert_eq!(
        read_attribute(b"remarks:   see http://example.net/  "),
        Some(attr("remarks", "see http://example.net/"))
    );
    assert_eq!(read_attribute(b"netname :NET"), Some(attr("netname", "NET")));
    assert_eq!(read_attribute(b"descr:"), Some(attr("descr", "")));
    assert_eq!(read_attribute(b"Country: NL"), Some(attr("Country", "NL")));
    assert_eq!(read_attribute(b" key: value"), None);
    assert_eq!(read_attribute(b"no colon"), None);
    assert_eq!(read_attribute(b"  : x"), None);
    assert_eq!(read_attribute(b""), None);
}

#[test]
fn scanner_counts_stanzas() {
    let dump = lines(&[
        "",
        "inetnum: 10.0.0.0 - 10.0.0.255",
        "netname: A",
        "",
        "",
        "   ",
        "person: Some One",
        "nic-hdl: SO1",
        "",
        "mntner: M",
    ]);
    let blocks = scan_lines(&dump);
    assert_eq!(blocks.len(), 3);
    assert_eq!(
        blocks[0],
        RawEntry { offset: 1, attributes: vec![attr("inetnum", "10.0.0.0 - 10.0.0.255"), attr("netname", "A")] }
    );
    assert_eq!(
        blocks[1],
        RawEntry { offset: 6, attributes: vec![attr("person", "Some One"), attr("nic-hdl", "SO1")] }
    );
    assert_eq!(blocks[2], RawEntry { offset: 9, attributes: vec![attr("mntner", "M")] });
}

#[test]
fn final_stanza_needs_no_blank_line() {
    let blocks = scan_lines(&lines(&["role: R", "nic-hdl: R1"]));
    assert_eq!(blocks, vec![RawEntry { offset: 0, attributes: vec![attr("role", "R"), attr("nic-hdl", "R1")] }]);
}

#[test]
fn blank_dump_has_no_block() {
    assert_eq!(scan_lines(&lines(&["", "   ", "\t", ""])), Vec::<RawEntry>::new());
    assert_eq!(scan_lines(&Vec::new()), Vec::<RawEntry>::new());
    assert_eq!(scan_text(b"\n\n  \n\r\n"), Vec::<RawEntry>::new());
    assert_eq!(scan_text(b""), Vec::<RawEntry>::new());
}

#[test]
fn continuation_is_appended_to_the_remark() {
    let blocks = scan_lines(&lines(&[
        "inetnum: 10.0.0.0 - 10.0.0.255",
        "remarks: first part",
        "    second part  ",
        "\tthird: part",
        "source: TEST",
    ]));
    assert_eq!(blocks.len(), 1);
    assert_eq!(
        blocks[0].attributes,
        vec![
            attr("inetnum", "10.0.0.0 - 10.0.0.255"),
            attr("remarks", "first part second part third: part"),
            attr("source", "TEST"),
        ]
    );
}

#[test]
fn continuation_of_an_empty_value_is_separated_by_a_space() {
    let blocks = scan_lines(&lines(&["remarks:", "  text"]));
    assert_eq!(blocks[0].attributes, vec![attr("remarks", " text")]);
}

#[test]
fn continuation_without_attribute_opens_a_block() {
    let blocks = scan_lines(&lines(&["   stray", "", "key: v"]));
    assert_eq!(
        blocks,
        vec![
            RawEntry { offset: 0, attributes: Vec::new() },
            RawEntry { offset: 2, attributes: vec![attr("key", "v")] },
        ]
    );
}

#[test]
fn comment_stanza_is_a_block_without_attributes() {
    let blocks = scan_lines(&lines(&["% comment", "% more", "", "route: 10.0.0.0/8"]));
    assert_eq!(blocks.len(), 2);
    assert_eq!(blocks[0], RawEntry { offset: 0, attributes: Vec::new() });
    assert_eq!(blocks[1].offset, 3);
}

#[test]
fn repeated_keys_keep_their_order() {
    let blocks = scan_lines(&lines(&["mntner: M", "mnt-by: B", "remarks: one", "mnt-by: A", "remarks: two"]));
    assert_eq!(
        blocks[0].attributes,
        vec![attr("mntner", "M"), attr("mnt-by", "B"), attr("remarks", "one"), attr("mnt-by", "A"), attr("remarks", "two")]
    );
    assert_eq!(blocks[0].values("mnt-by"), vec![b"B".to_vec(), b"A".to_vec()]);
    assert_eq!(blocks[0].values("remarks"), vec![b"one".to_vec(), b"two".to_vec()]);
    assert_eq!(blocks[0].values("source"), Vec::<Vec<u8>>::new());
    assert_eq!(blocks[0].first("remarks"), Some(b"one".to_vec()));
    assert_eq!(blocks[0].first("source"), None);
    assert_eq!(blocks[0].text("mntner"), b"M".to_vec());
    assert_eq!(blocks[0].text("source"), Vec::<u8>::new());
}

#[test]
fn scan_text_cuts_at_line_feeds() {
    let blocks = scan_text(b"inetnum: 10.0.0.0 - 10.0.0.255\r\nnetname: N\r\n\r\nperson: P\n");
    assert_eq!(
        blocks,
        vec![
            RawEntry { offset: 0, attributes: vec![attr("inetnum", "10.0.0.0 - 10.0.0.255"), attr("netname", "N")] },
            RawEntry { offset: 3, attributes: vec![attr("person", "P")] },
        ]
    );
}

#[test]
fn streaming_scanner_emits_on_blank_line_and_at_the_end() {
    let mut scanner = Scanner::new();
    assert_eq!(scanner.feed(b"", 0), None);
    assert_eq!(scanner.feed(b"person: P", 10), None);
    assert_eq!(scanner.feed(b"nic-hdl: PX-1", 20), None);
    assert_eq!(
        scanner.feed(b"", 30),
        Some(RawEntry { offset: 10, attributes: vec![attr("person", "P"), attr("nic-hdl", "PX-1")] })
    );
    assert_eq!(scanner.feed(b"   ", 31), None);
    assert_eq!(scanner.feed(b"role: R", 40), None);
    assert_eq!(scanner.finish(), Some(RawEntry { offset: 40, attributes: vec![attr("role", "R")] }));
    assert_eq!(Scanner::new().finish(), None);
}
