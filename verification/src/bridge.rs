//! The decisions of the bridge between the console's stream of lines and the
//! datagrams of the other side: what is to be done with each line that
//! arrives and with each datagram that arrives. Reading, sending and the
//! binary form of a message are the caller's part.

use vstd::prelude::*;
use crate::error::TranslateError;
use crate::framer::{decode_lossy, left_over, lines_in, lossy_text, LineFramer};
use crate::message::{
    message_from_tokens, message_of_tokens, osc_to_rcp, osc_to_rcp_spec, MessageView, OscMessage,
};
use crate::split::{split_runs, tokens};
use crate::text::{
    chars_of, join_from, joined, push_text, same_text, text_of, texts, trim_chars, trimmed,
};

verus! {

/// What is to be done with one line from the console.
#[derive(Clone, Debug, PartialEq, Eq)]
pub enum LineOutcome {
    /// The line holds no token: nothing is done.
    Blank,
    /// The line is no message: it is reported and passed over. `line` is the
    /// line without the white space around it.
    Rejected { line: String, error: TranslateError },
    /// The line is a message. Where `follow_up` holds a command, that command
    /// is written to the console first; then the message is sent. `line` is
    /// the line without the white space around it.
    Forward { line: String, message: OscMessage, follow_up: Option<String> },
}

/// A `LineOutcome` as a mathematical value.
pub enum LineOutcomeView {
    Blank,
    Rejected { line: Seq<char>, error: TranslateError },
    Forward { line: Seq<char>, message: MessageView, follow_up: Option<Seq<char>> },
}

impl View for LineOutcome {
    type V = LineOutcomeView;

    open spec fn view(&self) -> LineOutcomeView {
        match self {
            LineOutcome::Blank => LineOutcomeView::Blank,
            LineOutcome::Rejected { line, error } => LineOutcomeView::Rejected {
                line: line@,
                error: *error,
            },
            LineOutcome::Forward { line, message, follow_up } => LineOutcomeView::Forward {
                line: line@,
                message: message@,
                follow_up: match follow_up {
                    Some(c) => Some(c@),
                    None => None,
                },
            },
        }
    }
}

/// The views of a sequence of outcomes.
pub open spec fn outcomes(v: Seq<LineOutcome>) -> Seq<LineOutcomeView> {
    Seq::new(v.len(), |i: int| v[i]@)
}

/// The command that asks the console for what its notice of the current
/// scene leaves out, where the tokens `t` are such a notice: `ssinfo_ex`, a
/// space, the tokens behind the second with spaces between them, and a
/// newline.
pub open spec fn follow_up_of(t: Seq<Seq<char>>) -> Option<Seq<char>> {
    if t.len() >= 2 && t[0] == "NOTIFY"@ && t[1] == "sscurrent_ex"@ {
        Some("ssinfo_ex "@ + joined(t.skip(2), ' ') + seq!['\n'])
    } else {
        None
    }
}

/// What is to be done with the line `line`.
pub open spec fn line_outcome(line: Seq<char>) -> LineOutcomeView {
    let t = tokens(trimmed(line));
    if t.len() == 0 {
        LineOutcomeView::Blank
    } else {
        match message_of_tokens(t) {
            Err(e) => LineOutcomeView::Rejected { line: trimmed(line), error: e },
            Ok(m) => LineOutcomeView::Forward {
                line: trimmed(line),
                message: m,
                follow_up: follow_up_of(t),
            },
        }
    }
}

/// The outcomes of the lines `l`, one for one.
pub open spec fn line_outcomes(l: Seq<Seq<char>>) -> Seq<LineOutcomeView> {
    Seq::new(l.len(), |i: int| line_outcome(l[i]))
}

/// The follow-up command for a line with the tokens `parts`, if it calls
/// for one.
pub fn follow_up(parts: &Vec<String>) -> (r: Option<String>)
    ensures
        match r {
            Some(c) => follow_up_of(texts(parts@)) == Some(c@),
            None => follow_up_of(texts(parts@)) is None,
        },
{
    if parts.len() >= 2 && same_text(parts[0].as_str(), "NOTIFY") && same_text(
        parts[1].as_str(),
        "sscurrent_ex",
    ) {
        let mut out = String::new();
        push_text(&mut out, "ssinfo_ex ");
        push_text(&mut out, join_from(parts, 2, ' ').as_str());
        out.push('\n');
        assert(out@ =~= "ssinfo_ex "@ + joined(texts(parts@).skip(2), ' ') + seq!['\n']);
        Some(out)
    } else {
        None
    }
}

/// Decides what is to be done with one line from the console.
pub fn on_rcp_line(line: &str) -> (r: LineOutcome)
    ensures
        r@ == line_outcome(line@),
{
    let chars = trim_chars(&chars_of(line));
    let parts = split_runs(&chars, ' ', true);
    if parts.len() == 0 {
        return LineOutcome::Blank;
    }
    let n = chars.len();
    let line = text_of(&chars, 0, n);
    assert(chars@.subrange(0, n as int) =~= chars@);
    match message_from_tokens(&parts) {
        Err(error) => LineOutcome::Rejected { line, error },
        Ok(message) => LineOutcome::Forward { line, message, follow_up: follow_up(&parts) },
    }
}

/// Takes text from the console in and decides what is to be done with each
/// line that it completes, in order.
pub fn on_rcp_text(framer: &mut LineFramer, text: &str) -> (r: Vec<LineOutcome>)
    ensures
        outcomes(r@) == line_outcomes(lines_in(old(framer).pending() + text@)),
        final(framer).pending() == left_over(old(framer).pending() + text@),
{
    let lines = framer.push_text(text);
    let mut out: Vec<LineOutcome> = Vec::new();
    let mut i: usize = 0;
    while i < lines.len()
        invariant
            i <= lines.len(),
            out.len() == i,
            forall|j: int| 0 <= j < i ==> (#[trigger] out[j])@ == line_outcome(lines[j]@),
        decreases lines.len() - i,
    {
        out.push(on_rcp_line(lines[i].as_str()));
        i += 1;
    }
    assert(outcomes(out@) =~= line_outcomes(texts(lines@)));
    out
}

/// What a read from the console leads to.
#[derive(Clone, Debug, PartialEq, Eq)]
pub enum ReadStep {
    /// The read gave no bytes: the console has closed the connection, and
    /// reading ends.
    Closed,
    /// The read gave bytes: the outcomes of the lines that they complete.
    Lines(Vec<LineOutcome>),
}

/// Takes the bytes of one read from the console and decides how to go on. A
/// read of no bytes ends the reading and leaves the framer as it is; any
/// other is taken in as text, bytes that are no valid UTF-8 as U+FFFD.
pub fn on_rcp_read(framer: &mut LineFramer, bytes: &[u8]) -> (r: ReadStep)
    ensures
        bytes@.len() == 0 ==> r is Closed && final(framer).pending() == old(framer).pending(),
        bytes@.len() > 0 ==> r is Lines && outcomes(r->Lines_0@) == line_outcomes(
            lines_in(old(framer).pending() + lossy_text(bytes@)),
        ) && final(framer).pending() == left_over(old(framer).pending() + lossy_text(bytes@)),
{
    if bytes.len() == 0 {
        ReadStep::Closed
    } else {
        let text = decode_lossy(bytes);
        ReadStep::Lines(on_rcp_text(framer, text.as_str()))
    }
}

/// A datagram from the other side, as far as the bridge tells datagrams
/// apart.
#[derive(Clone, Debug, PartialEq, Eq)]
pub enum Datagram {
    /// One message.
    Message(OscMessage),
    /// A bundle of messages.
    Bundle,
    /// Bytes that are neither.
    Malformed,
}

/// What is to be done with one datagram.
#[derive(Clone, Debug, PartialEq, Eq)]
pub enum DatagramOutcome {
    /// The text is written to the console: a command line and its newline.
    Write(String),
    /// The message is no command: it is reported and passed over.
    Rejected(TranslateError),
    /// Bundles are not translated: it is reported and passed over.
    BundleDropped,
    /// The datagram could not be read: it is passed over.
    Undecodable,
}

/// A `DatagramOutcome` as a mathematical value.
pub enum DatagramOutcomeView {
    Write(Seq<char>),
    Rejected(TranslateError),
    BundleDropped,
    Undecodable,
}

impl View for DatagramOutcome {
    type V = DatagramOutcomeView;

    open spec fn view(&self) -> DatagramOutcomeView {
        match self {
            DatagramOutcome::Write(t) => DatagramOutcomeView::Write(t@),
            DatagramOutcome::Rejected(e) => DatagramOutcomeView::Rejected(*e),
            DatagramOutcome::BundleDropped => DatagramOutcomeView::BundleDropped,
            DatagramOutcome::Undecodable => DatagramOutcomeView::Undecodable,
        }
    }
}

/// What is to be done with a message from the other side.
pub open spec fn message_outcome(m: MessageView) -> DatagramOutcomeView {
    match osc_to_rcp_spec(m) {
        Ok(line) => DatagramOutcomeView::Write(line + seq!['\n']),
        Err(e) => DatagramOutcomeView::Rejected(e),
    }
}

/// Decides what is to be done with one datagram from the other side.
pub fn on_osc_datagram(datagram: &Datagram) -> (r: DatagramOutcome)
    ensures
        r@ == (match datagram {
            Datagram::Message(m) => message_outcome(m@),
            Datagram::Bundle => DatagramOutcomeView::BundleDropped,
            Datagram::Malformed => DatagramOutcomeView::Undecodable,
        }),
{
    match datagram {
        Datagram::Message(m) => match osc_to_rcp(m) {
            Ok(line) => {
                let ghost command = line@;
                let mut out = line;
                out.push('\n');
                assert(out@ =~= command + seq!['\n']);
                DatagramOutcome::Write(out)
            },
            Err(e) => DatagramOutcome::Rejected(e),
        },
        Datagram::Bundle => DatagramOutcome::BundleDropped,
        Datagram::Malformed => DatagramOutcome::Undecodable,
    }
}

} // verus!
