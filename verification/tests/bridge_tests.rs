use yamaha_rcp_to_osc::{
    on_osc_datagram, on_rcp_line, on_rcp_read, on_rcp_text, Datagram, DatagramOutcome,
    LineFramer, LineOutcome, OscMessage, ReadStep, TranslateError, TypedValue,
};

fn message(addr: &str, args: Vec<TypedValue>) -> OscMessage {
    OscMessage { addr: addr.to_string(), args }
}

#[test]
fn a_blank_line_is_passed_over() {
    assert_eq!(on_rcp_line(""), LineOutcome::Blank);
    assert_eq!(on_rcp_line("  \r"), LineOutcome::Blank);
}

#[test]
fn a_line_that_is_no_message_is_rejected() {
    assert_eq!(
        on_rcp_line(" HELLO there\r"),
        LineOutcome::Rejected {
            line: "HELLO there".to_string(),
            error: TranslateError::UnsupportedVerb
        }
    );
    assert_eq!(
        on_rcp_line("NOTIFY sscurrent_ex"),
        LineOutcome::Rejected {
            line: "NOTIFY sscurrent_ex".to_string(),
            error: TranslateError::InvalidAddress
        }
    );
}

#[test]
fn a_message_is_forwarded() {
    assert_eq!(
        on_rcp_line("OK scene current 2\r"),
        LineOutcome::Forward {
            line: "OK scene current 2".to_string(),
            message: message("/scene/current", vec![TypedValue::Integer(2)]),
            follow_up: None,
        }
    );
    assert_eq!(
        on_rcp_line("ERROR unknown"),
        LineOutcome::Forward {
            line: "ERROR unknown".to_string(),
            message: message("/error", vec![TypedValue::Text("unknown".to_string())]),
            follow_up: None,
        }
    );
}

#[test]
fn the_notice_of_the_current_scene_is_followed_up() {
    assert_eq!(
        on_rcp_line("NOTIFY sscurrent_ex MIXER:Lib/Scene 12"),
        LineOutcome::Forward {
            line: "NOTIFY sscurrent_ex MIXER:Lib/Scene 12".to_string(),
            message: message("/sscurrent_ex/MIXER:Lib/Scene", vec![TypedValue::Integer(12)]),
            follow_up: Some("ssinfo_ex MIXER:Lib/Scene 12\n".to_string()),
        }
    );
    assert_eq!(
        on_rcp_line("NOTIFY sscurrent_ex scene_a  \"A 1\"  3"),
        LineOutcome::Forward {
            line: "NOTIFY sscurrent_ex scene_a  \"A 1\"  3".to_string(),
            message: message(
                "/sscurrent_ex/scene_a",
                vec![TypedValue::Text("\"A 1\"".to_string()), TypedValue::Integer(3)]
            ),
            follow_up: Some("ssinfo_ex scene_a \"A 1\" 3\n".to_string()),
        }
    );
}

#[test]
fn only_a_notice_of_the_current_scene_is_followed_up() {
    for line in ["OK sscurrent_ex a 1", "NOTIFY sscurrent a 1", "NOTIFY ssinfo_ex a 1", "NOTIFY a sscurrent_ex 1"] {
        match on_rcp_line(line) {
            LineOutcome::Forward { follow_up, .. } => assert_eq!(follow_up, None, "line {:?}", line),
            other => panic!("line {:?} gave {:?}", line, other),
        }
    }
}

#[test]
fn a_read_of_no_bytes_ends_the_reading() {
    let mut framer = LineFramer::new();
    assert_eq!(on_rcp_read(&mut framer, b"NOTIFY a"), ReadStep::Lines(vec![]));
    assert_eq!(on_rcp_read(&mut framer, b""), ReadStep::Closed);
    assert_eq!(framer.pending_text(), "NOTIFY a");
}

#[test]
fn each_complete_line_of_a_read_has_its_outcome() {
    let mut framer = LineFramer::new();
    assert_eq!(on_rcp_read(&mut framer, b"NOTIFY sce"), ReadStep::Lines(vec![]));
    assert_eq!(
        on_rcp_read(&mut framer, b"ne current 1\n\nBAD\nOK a"),
        ReadStep::Lines(vec![
            LineOutcome::Forward {
                line: "NOTIFY scene current 1".to_string(),
                message: message("/scene/current", vec![TypedValue::Integer(1)]),
                follow_up: None,
            },
            LineOutcome::Blank,
            LineOutcome::Rejected {
                line: "BAD".to_string(),
                error: TranslateError::UnsupportedVerb
            },
        ])
    );
    assert_eq!(framer.pending_text(), "OK a");
    assert_eq!(
        on_rcp_text(&mut framer, " b\n"),
        vec![LineOutcome::Forward {
            line: "OK a b".to_string(),
            message: message("/a/b", vec![]),
            follow_up: None,
        }]
    );
}

#[test]
fn bytes_that_are_no_text_reach_the_line_replaced() {
    let mut framer = LineFramer::new();
    assert_eq!(
        on_rcp_read(&mut framer, b"OK a b \xff\n"),
        ReadStep::Lines(vec![LineOutcome::Forward {
            line: "OK a b \u{fffd}".to_string(),
            message: message("/a/b", vec![TypedValue::Text("\u{fffd}".to_string())]),
            follow_up: None,
        }])
    );
}

#[test]
fn a_message_is_written_as_a_line() {
    assert_eq!(
        on_osc_datagram(&Datagram::Message(message(
            "/scene/name",
            vec![TypedValue::Integer(1), TypedValue::Text("Test Scene".to_string())]
        ))),
        DatagramOutcome::Write("scene name 1 \"Test Scene\"\n".to_string())
    );
}

#[test]
fn a_datagram_that_is_no_command_is_passed_over() {
    assert_eq!(
        on_osc_datagram(&Datagram::Message(message("/", vec![]))),
        DatagramOutcome::Rejected(TranslateError::InvalidAddress)
    );
    assert_eq!(
        on_osc_datagram(&Datagram::Message(message("/a", vec![TypedValue::Unsupported]))),
        DatagramOutcome::Rejected(TranslateError::UnsupportedArgumentType)
    );
    assert_eq!(on_osc_datagram(&Datagram::Bundle), DatagramOutcome::BundleDropped);
    assert_eq!(on_osc_datagram(&Datagram::Malformed), DatagramOutcome::Undecodable);
}
