use yamaha_rcp_to_osc::LineFramer;

#[test]
fn a_line_may_come_in_two_reads() {
    let mut framer = LineFramer::new();
    assert!(framer.push_bytes(b"abc").is_empty());
    assert_eq!(framer.pending_text(), "abc");
    assert_eq!(framer.push_bytes(b"def\nghi\n"), vec!["abcdef", "ghi"]);
    assert_eq!(framer.pending_text(), "");
}

#[test]
fn what_stands_behind_the_last_newline_waits() {
    let mut framer = LineFramer::new();
    assert_eq!(framer.push_text("one\ntwo\nthr"), vec!["one", "two"]);
    assert_eq!(framer.pending_text(), "thr");
    assert_eq!(framer.push_text("ee"), Vec::<String>::new());
    assert_eq!(framer.pending_text(), "three");
    assert_eq!(framer.push_text("\n"), vec!["three"]);
    assert_eq!(framer.pending_text(), "");
}

#[test]
fn empty_lines_are_lines() {
    let mut framer = LineFramer::new();
    assert_eq!(framer.push_text("\n\na\n\n"), vec!["", "", "a", ""]);
    assert_eq!(framer.push_text(""), Vec::<String>::new());
    assert_eq!(framer.pending_text(), "");
}

#[test]
fn a_carriage_return_stays_in_its_line() {
    let mut framer = LineFramer::new();
    assert_eq!(framer.push_bytes(b"OK a b\r\nNOTIFY"), vec!["OK a b\r"]);
    assert_eq!(framer.pending_text(), "NOTIFY");
}

#[test]
fn bytes_that_are_no_text_are_replaced() {
    let mut framer = LineFramer::new();
    assert_eq!(framer.push_bytes(b"a\xffb\nc\xc3"), vec!["a\u{fffd}b"]);
    assert_eq!(framer.pending_text(), "c\u{fffd}");
    // each read is text of its own: the second half of a character that was
    // cut by the end of a read is replaced as well
    assert_eq!(framer.push_bytes(b"\xa9\n"), vec!["c\u{fffd}\u{fffd}"]);
}

#[test]
fn valid_text_is_taken_as_it_stands() {
    let mut framer = LineFramer::new();
    assert_eq!(
        framer.push_bytes("gr\u{fc}n \u{1f3b9}\nrest".as_bytes()),
        vec!["gr\u{fc}n \u{1f3b9}"]
    );
    assert_eq!(framer.pending_text(), "rest");
}

#[test]
fn how_a_stream_is_cut_into_reads_changes_nothing() {
    let stream = "NOTIFY a b 1\n\nOK c d \"e f\"\nERROR g\npart";
    let mut whole = LineFramer::new();
    let all = whole.push_text(stream);
    assert_eq!(all, vec!["NOTIFY a b 1", "", "OK c d \"e f\"", "ERROR g"]);
    for cut in 0..=stream.len() {
        let mut framer = LineFramer::new();
        let mut lines = framer.push_text(&stream[..cut]);
        lines.extend(framer.push_text(&stream[cut..]));
        assert_eq!(lines, all, "cut at {}", cut);
        assert_eq!(framer.pending_text(), "part");
    }
}
