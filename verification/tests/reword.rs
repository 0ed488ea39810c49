use gix_tix::reword::{Header, RewordError, cleanup_message, parse, parse_iso_time};

#[test]
fn parses_the_edit_document() {
    let input = b"Author: A U Thor <author@example.com>\n\
                  AuthorDate: 2026-08-12 10:20:30 +0200\n\
                  Committer: C O Mitter <committer@example.com>\n\
                  CommitterDate: 2026-08-12 11:20:30 +0200\n\
                  CommentChar: ;\n\
                  \n\
                  title\n\nbody\n";
    let edit = parse(input).expect("the document parses");
    assert_eq!(edit.author, b"A U Thor <author@example.com>", "the author identity is preserved");
    assert_eq!(edit.author_time.offset, 7200, "the author timezone is parsed");
    assert_eq!(edit.committer, b"C O Mitter <committer@example.com>", "the committer identity is preserved");
    assert_eq!(edit.committer_time.offset, 7200, "the committer timezone is parsed");
    assert_eq!(edit.message, b"title\n\nbody\n", "the message is preserved byte-for-byte");
}

#[test]
fn cleanup_honors_git_style_comment_prefixes_and_opted_in_trailers() {
    let input: &[u8] = b"Author: A <a@example.com>\n\
                  AuthorDate: 2026-08-12 10:20:30 +0200\n\
                  Committer: C <c@example.com>\n\
                  CommitterDate: 2026-08-12 11:20:30 +0200\n\
                  CommentChar: //\n\
                  \n\
                  \nsubject  \n\n\ninline // stays  \n // indented stays\n//removed\n\nAssisted-by: GPT 5.6\n//Co-authored-by: GPT 5.6 <codex@openai.com>\n";
    assert_eq!(
        parse(input).expect("the document parses").message,
        b"subject\n\ninline // stays\n // indented stays\n\nAssisted-by: GPT 5.6\n",
        "only column-zero comments are removed and Git whitespace cleanup is applied"
    );

    let text = String::from_utf8(input.to_vec()).unwrap();
    let empty_comment = text.replacen("CommentChar: //", "CommentChar: ", 1);
    assert!(parse(empty_comment.as_bytes()).is_err(), "the comment prefix cannot be empty");
}

#[test]
fn dates_are_read_as_seconds_since_the_epoch_and_a_zone() {
    let t = parse_iso_time(b"1970-01-01 00:00:00 +0000").expect("a date");
    assert_eq!((t.seconds, t.offset), (0, 0));
    let t = parse_iso_time(b"2026-08-12 10:20:30 +0200").expect("a date");
    assert_eq!((t.seconds, t.offset), (1786522830, 7200));
    let t = parse_iso_time(b"2000-02-29 12:00:00 -0130").expect("a leap day");
    assert_eq!((t.seconds, t.offset), (951831000, -5400));
    assert!(parse_iso_time(b"2001-02-29 12:00:00 +0000").is_none(), "no leap day in 2001");
    assert!(parse_iso_time(b"2026-13-01 00:00:00 +0000").is_none());
    assert!(parse_iso_time(b"2026-08-12T10:20:30 +0200").is_none());
    assert!(parse_iso_time(b"2026-08-12 10:20:30").is_none());
}

#[test]
fn each_refused_document_names_what_is_wrong() {
    assert_eq!(parse(b"").err(), Some(RewordError::EmptyHeader(Header::Author)));
    assert_eq!(parse(b"Author: A <a@b>").err(), Some(RewordError::MissingHeader(Header::AuthorDate)));
    assert_eq!(
        parse(b"Author: A <a@b>\nAuthorDate: yesterday\n").err(),
        Some(RewordError::InvalidDate(Header::AuthorDate))
    );
    let head = "Author: A <a@b>\nAuthorDate: 2026-08-12 10:20:30 +0200\nCommitter: C <c@d>\nCommitterDate: 2026-08-12 10:20:30 +0200\n";
    assert_eq!(
        parse(format!("{head}CommentChar: ;\r\r\n\nmsg\n").as_bytes()).err(),
        Some(RewordError::CommentCharLineEnding)
    );
    assert_eq!(parse(format!("{head}CommentChar: ;\nx\nmsg\n").as_bytes()).err(), Some(RewordError::MissingSeparator));
    assert_eq!(parse(format!("{head}CommentChar: ;\n").as_bytes()).err(), Some(RewordError::MissingMessage));
    assert_eq!(parse(format!("{head}CommentChar: ;\n\r").as_bytes()).err(), Some(RewordError::MissingMessage));
    let ok = parse(format!("{head}CommentChar: ;\r\n\r\n").as_bytes()).expect("carriage returns end header lines");
    assert!(ok.message.is_empty());
}

#[test]
fn cleanup_collapses_blank_lines_and_trims_trailing_whitespace() {
    assert_eq!(cleanup_message(b"\n\n a \t\n\n\n b\r\n\n", b"#"), b" a\n\n b\n");
    assert_eq!(cleanup_message(b"#only\n#comments", b"#"), b"");
    assert_eq!(cleanup_message(b"last line", b"#"), b"last line\n");
}

#[test]
fn writes_actor_lines_with_angle_brackets() {
    let mut out = b"x".to_vec();
    gix_tix::reword::write_actor(&mut out, b"Author: ", b"A U Thor", b"author@example.com");
    assert_eq!(out, b"xAuthor: A U Thor <author@example.com>\n".to_vec());
}
