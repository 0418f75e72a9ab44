use mail_reader::headers::{
    address_in, field_among, header_field, parse_headers, sender_address, split_lines,
    summary_sender,
};

fn chars(s: &str) -> Vec<char> {
    s.chars().collect()
}

fn text(v: &Vec<char>) -> String {
    v.iter().collect()
}

#[test]
fn sender_with_display_name_is_reduced_to_the_address() {
    assert_eq!(sender_address("Jane Doe <jane@x.com>"), "jane@x.com");
}

#[test]
fn sender_without_brackets_is_kept_whole() {
    assert_eq!(sender_address("jane@x.com"), "jane@x.com");
}

#[test]
fn sender_with_unterminated_bracket_keeps_everything_after_it() {
    assert_eq!(sender_address("Jane <jane@x.com"), "jane@x.com");
}

#[test]
fn sender_is_cut_at_the_first_brackets() {
    assert_eq!(sender_address("a <b> <c>"), "b");
    assert_eq!(sender_address("a >x< <b>"), " <b");
    assert_eq!(sender_address("> <b@c>"), "b@c");
    assert_eq!(sender_address("<>"), "");
    assert_eq!(sender_address("<"), "");
    assert_eq!(sender_address("< a@b >"), " a@b ");
    assert_eq!(sender_address("  jane@x.com \t"), "jane@x.com");
    assert_eq!(sender_address(""), "");
    assert_eq!(text(&address_in(&chars(" x "))), " x ");
}

#[test]
fn absent_field_is_empty() {
    let block = b"From: a@b.c\r\nDate: Mon, 1 Jan 2024 00:00:00 +0000\r\n\r\n";
    assert_eq!(header_field(block, "subject"), "");
    assert_eq!(header_field(b"", "from"), "");
    assert_eq!(header_field(b"\r\n\r\n", "from"), "");
    assert_eq!(header_field(b"Fromage: x\r\n", "from"), "");
    assert_eq!(header_field(b" From: x\r\n", "from"), "");
    assert_eq!(summary_sender(b"Subject: x\r\n"), "");
    assert_eq!(
        parse_headers(b"X-Other: 1\r\n"),
        (String::new(), String::new(), String::new())
    );
}

#[test]
fn last_line_of_a_field_wins() {
    let block = b"From: first@x.com\r\nSubject: s\r\nFROM:   second@x.com  \r\n";
    assert_eq!(header_field(block, "from"), "second@x.com");
    assert_eq!(summary_sender(block), "second@x.com");
    let block = b"From: Jane <jane@x.com>\r\nFrom:\r\n";
    assert_eq!(header_field(block, "from"), "");
    assert_eq!(summary_sender(block), "");
}

#[test]
fn three_fields_are_read() {
    let block = b"subject: Hello\r\nfrom: Jane Doe <jane@x.com>\r\n\
                  Date: Tue, 3 Jun 2025 14:05:09 +0200\r\n\r\n";
    let (from, subject, date) = parse_headers(block);
    assert_eq!(from, "Jane Doe <jane@x.com>");
    assert_eq!(subject, "Hello");
    assert_eq!(date, "Tue, 3 Jun 2025 14:05:09 +0200");
    assert_eq!(summary_sender(block), "jane@x.com");
}

#[test]
fn names_match_in_any_case_of_letters() {
    let block = b"sUbJeCt:x\r\n";
    assert_eq!(header_field(block, "subject"), "x");
    assert_eq!(header_field(block, "SUBJECT"), "x");
    assert_eq!(header_field(block, "Subject"), "x");
    assert_eq!(header_field(block, "subjec"), "");
}

#[test]
fn lines_end_only_at_carriage_return_and_line_feed_together() {
    let lines = split_lines(&chars("a\r\nb\nc\rd\r\n"));
    let lines: Vec<String> = lines.iter().map(text).collect();
    assert_eq!(lines, vec!["a", "b\nc\rd", ""]);
    let lines = split_lines(&chars(""));
    assert_eq!(lines, vec![Vec::<char>::new()]);
    let lines = split_lines(&chars("\r\n"));
    assert_eq!(lines.len(), 2);
    let lines = split_lines(&chars("\r\r\n\n"));
    let lines: Vec<String> = lines.iter().map(text).collect();
    assert_eq!(lines, vec!["\r", "\n"]);
    for case in ["", "a", "\r", "\n", "\r\n", "a\r\nb", "\r\n\r\n", "x\r\r\ny\r", "\r\n\r"] {
        let ours: Vec<String> = split_lines(&chars(case)).iter().map(text).collect();
        let theirs: Vec<String> = case.split("\r\n").map(|l| l.to_string()).collect();
        assert_eq!(ours, theirs, "{:?}", case);
    }
}

#[test]
fn continuation_lines_are_not_joined() {
    let block = b"Subject: first\r\n second\r\nFrom: a@b.c\r\n";
    assert_eq!(header_field(block, "subject"), "first");
    // A header that ends its lines with a bare line feed is one single line.
    let block = b"From: a@b.c\nSubject: s\n";
    assert_eq!(header_field(block, "from"), "a@b.c\nSubject: s");
    assert_eq!(header_field(block, "subject"), "");
}

#[test]
fn values_are_trimmed_of_all_white_space() {
    let block = "From: \u{a0}\t jane@x.com \u{3000}\r\n".as_bytes();
    assert_eq!(header_field(block, "from"), "jane@x.com");
    let lines = vec![chars("Date:   "), chars("date:\t1  2 ")];
    assert_eq!(text(&field_among(&lines, &chars("date"))), "1  2");
}

#[test]
fn malformed_bytes_are_replaced_and_never_fail() {
    let block = b"From: J\xffne <j\xc3\xa9@x.com>\r\nSubject: \x80\r\n";
    assert_eq!(header_field(block, "from"), "J\u{fffd}ne <j\u{e9}@x.com>");
    assert_eq!(summary_sender(block), "j\u{e9}@x.com");
    assert_eq!(header_field(block, "subject"), "\u{fffd}");
    assert_eq!(header_field(b"\xff\xfe\xfd", "from"), "");
}

#[test]
fn lookup_agrees_with_a_scan_of_lowercased_lines() {
    let blocks: [&[u8]; 6] = [
        b"From: a\r\nfrom: B <b@c>\r\nDate: d\r\n",
        b"FROM:x\r\nSubject:\r\n\r\nbody From: no\r\n",
        b"Subject: Re: hi\r\nSUBJECT: last\r\n",
        b"date: 1\r\nDate : 2\r\n",
        b"",
        b"from:\r\n",
    ];
    for block in blocks {
        for name in ["from", "subject", "date"] {
            let text = String::from_utf8_lossy(block);
            let mut expected = String::new();
            for line in text.split("\r\n") {
                if line.to_lowercase().starts_with(&format!("{}:", name)) {
                    expected = line[name.len() + 1..].trim().to_string();
                }
            }
            assert_eq!(header_field(block, name), expected);
        }
    }
}
