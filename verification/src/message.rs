//! Messages, and the translation between a line of the console's protocol
//! and a message.

use vstd::prelude::*;
use crate::error::TranslateError;
use crate::split::{segments, split_runs, tokens};
use crate::text::{chars_of, join_from, joined, push_text, same_text, texts, trim_chars, trimmed};
use crate::value::{infer, osc_to_rcp_arg, rcp_to_osc_type, render, values, TypedValue, ValueView};

verus! {

/// An address and its arguments, in order.
#[derive(Clone, Debug, PartialEq, Eq)]
pub struct OscMessage {
    pub addr: String,
    pub args: Vec<TypedValue>,
}

/// An `OscMessage` as a mathematical value.
pub struct MessageView {
    pub addr: Seq<char>,
    pub args: Seq<ValueView>,
}

impl View for OscMessage {
    type V = MessageView;

    open spec fn view(&self) -> MessageView {
        MessageView { addr: self.addr@, args: values(self.args@) }
    }
}

/// A result that holds a message, as a result that holds its view.
pub open spec fn message_result(r: Result<OscMessage, TranslateError>) -> Result<
    MessageView,
    TranslateError,
> {
    match r {
        Ok(m) => Ok(m@),
        Err(e) => Err(e),
    }
}

/// The values that the tokens `t` stand for, one for one.
pub open spec fn infer_all(t: Seq<Seq<char>>) -> Seq<ValueView> {
    Seq::new(t.len(), |i: int| infer(t[i]))
}

/// The tokens that write the values `v`, one for one, unless one of them has
/// no token.
pub open spec fn render_all(v: Seq<ValueView>) -> Result<Seq<Seq<char>>, TranslateError>
    decreases v.len(),
{
    if v.len() == 0 {
        Ok(Seq::empty())
    } else {
        match render_all(v.drop_last()) {
            Err(e) => Err(e),
            Ok(head) => match render(v.last()) {
                Err(e) => Err(e),
                Ok(t) => Ok(head.push(t)),
            },
        }
    }
}

/// The address of a `NOTIFY` or `OK` line: a slash before each of its two
/// path tokens.
pub open spec fn address_of(first: Seq<char>, second: Seq<char>) -> Seq<char> {
    seq!['/'] + first + seq!['/'] + second
}

/// The message that the tokens of a line make.
///
/// `NOTIFY` and `OK` take the second and third token as the address and the
/// rest as arguments; `ERROR` has the address `/error` and every token behind
/// the verb as an argument.
pub open spec fn message_of_tokens(t: Seq<Seq<char>>) -> Result<MessageView, TranslateError> {
    if t.len() == 0 {
        Err(TranslateError::InvalidAddress)
    } else if t[0] == "NOTIFY"@ || t[0] == "OK"@ {
        if t.len() < 3 {
            Err(TranslateError::InvalidAddress)
        } else {
            Ok(MessageView { addr: address_of(t[1], t[2]), args: infer_all(t.skip(3)) })
        }
    } else if t[0] == "ERROR"@ {
        Ok(MessageView { addr: "/error"@, args: infer_all(t.skip(1)) })
    } else {
        Err(TranslateError::UnsupportedVerb)
    }
}

/// The message that a line stands for: that of the tokens of the line
/// without the white space around it.
pub open spec fn rcp_to_osc_spec(line: Seq<char>) -> Result<MessageView, TranslateError> {
    message_of_tokens(tokens(trimmed(line)))
}

/// The command line that a message stands for: the first segment of its
/// address, a space, the other segments with slashes between them, a space,
/// and the arguments with spaces between them.
pub open spec fn osc_to_rcp_spec(m: MessageView) -> Result<Seq<char>, TranslateError> {
    let path = segments(m.addr);
    if path.len() == 0 {
        Err(TranslateError::InvalidAddress)
    } else {
        match render_all(m.args) {
            Err(e) => Err(e),
            Ok(args) => Ok(
                path[0] + seq![' '] + joined(path.skip(1), '/') + seq![' '] + joined(args, ' '),
            ),
        }
    }
}

/// The values of the tokens `parts[from..]`.
pub fn infer_from(parts: &Vec<String>, from: usize) -> (args: Vec<TypedValue>)
    requires
        from <= parts.len(),
    ensures
        values(args@) == infer_all(texts(parts@).skip(from as int)),
{
    let mut args: Vec<TypedValue> = Vec::new();
    let mut i: usize = from;
    while i < parts.len()
        invariant
            from <= i <= parts.len(),
            args.len() == i - from,
            forall|j: int| 0 <= j < args.len() ==> (#[trigger] args[j])@ == infer(parts[j + from]@),
        decreases parts.len() - i,
    {
        args.push(rcp_to_osc_type(&parts[i]));
        i += 1;
    }
    assert(values(args@) =~= infer_all(texts(parts@).skip(from as int)));
    args
}

/// Translates a line of the console into a message.
///
/// Fails with `InvalidAddress` on a line without tokens and on a `NOTIFY` or
/// `OK` line of fewer than three tokens, and with `UnsupportedVerb` on any
/// other verb than `NOTIFY`, `OK` and `ERROR`.
pub fn rcp_to_osc(line: String) -> (r: Result<OscMessage, TranslateError>)
    ensures
        message_result(r) == rcp_to_osc_spec(line@),
{
    let chars = trim_chars(&chars_of(line.as_str()));
    let parts = split_runs(&chars, ' ', true);
    message_from_tokens(&parts)
}

/// Makes the message of a line from the tokens of the line.
pub fn message_from_tokens(parts: &Vec<String>) -> (r: Result<OscMessage, TranslateError>)
    ensures
        message_result(r) == message_of_tokens(texts(parts@)),
{
    if parts.len() == 0 {
        return Err(TranslateError::InvalidAddress);
    }
    let verb = parts[0].as_str();
    if same_text(verb, "NOTIFY") || same_text(verb, "OK") {
        if parts.len() < 3 {
            return Err(TranslateError::InvalidAddress);
        }
        let mut addr = String::new();
        addr.push('/');
        push_text(&mut addr, parts[1].as_str());
        addr.push('/');
        push_text(&mut addr, parts[2].as_str());
        assert(addr@ =~= address_of(parts[1]@, parts[2]@));
        let args = infer_from(parts, 3);
        Ok(OscMessage { addr, args })
    } else if same_text(verb, "ERROR") {
        let mut addr = String::new();
        push_text(&mut addr, "/error");
        assert(addr@ =~= "/error"@);
        let args = infer_from(parts, 1);
        Ok(OscMessage { addr, args })
    } else {
        Err(TranslateError::UnsupportedVerb)
    }
}

/// A result that holds strings, as a result that holds their characters.
pub open spec fn texts_result(r: Result<Vec<String>, TranslateError>) -> Result<
    Seq<Seq<char>>,
    TranslateError,
> {
    match r {
        Ok(v) => Ok(texts(v@)),
        Err(e) => Err(e),
    }
}

/// Writes each of the values `args` as a token.
pub fn render_args(args: &Vec<TypedValue>) -> (r: Result<Vec<String>, TranslateError>)
    ensures
        texts_result(r) == render_all(values(args@)),
{
    let mut rendered: Vec<String> = Vec::new();
    let mut i: usize = 0;
    assert(values(args@).take(0) =~= Seq::<ValueView>::empty());
    assert(texts(rendered@) =~= Seq::<Seq<char>>::empty());
    while i < args.len()
        invariant
            i <= args.len(),
            render_all(values(args@).take(i as int)) == Ok::<Seq<Seq<char>>, TranslateError>(
                texts(rendered@),
            ),
        decreases args.len() - i,
    {
        let ghost next = values(args@).take(i + 1);
        assert(next.drop_last() =~= values(args@).take(i as int));
        assert(next.last() == args[i as int]@);
        match osc_to_rcp_arg(&args[i]) {
            Ok(t) => {
                let ghost before = texts(rendered@);
                rendered.push(t);
                assert(texts(rendered@) =~= before.push(t@));
            },
            Err(e) => {
                proof {
                    lemma_render_all_fails(values(args@), i as int);
                }
                return Err(e);
            },
        }
        i += 1;
    }
    assert(values(args@).take(i as int) =~= values(args@));
    Ok(rendered)
}

/// Translates a message into a command line for the console.
///
/// Fails with `InvalidAddress` where the address has no non-empty segment,
/// and else with `UnsupportedArgumentType` where an argument is neither an
/// integer, a float nor text.
pub fn osc_to_rcp(msg: &OscMessage) -> (r: Result<String, TranslateError>)
    ensures
        crate::value::text_result(r) == osc_to_rcp_spec(msg@),
{
    let path = split_runs(&chars_of(msg.addr.as_str()), '/', false);
    if path.len() == 0 {
        return Err(TranslateError::InvalidAddress);
    }
    match render_args(&msg.args) {
        Err(e) => Err(e),
        Ok(rendered) => {
            let mut out = String::new();
            push_text(&mut out, path[0].as_str());
            out.push(' ');
            push_text(&mut out, join_from(&path, 1, '/').as_str());
            out.push(' ');
            push_text(&mut out, join_from(&rendered, 0, ' ').as_str());
            assert(texts(rendered@).skip(0) =~= texts(rendered@));
            assert(texts(path@)[0] == path[0]@);
            assert(out@ =~= path[0]@ + seq![' '] + joined(texts(path@).skip(1), '/') + seq![' ']
                + joined(texts(rendered@), ' '));
            Ok(out)
        },
    }
}

/// Where one value has no token, the values have none: the failure of the
/// first such value is the failure of the whole.
pub proof fn lemma_render_all_fails(v: Seq<ValueView>, i: int)
    requires
        0 <= i < v.len(),
        render_all(v.take(i)) is Ok,
        render(v[i]) is Err,
    ensures
        render_all(v) == Err::<Seq<Seq<char>>, TranslateError>(render(v[i])->Err_0),
    decreases v.len(),
{
    if i == v.len() - 1 {
        assert(v.drop_last() =~= v.take(i));
    } else {
        assert(v.drop_last().take(i) =~= v.take(i));
        lemma_render_all_fails(v.drop_last(), i);
    }
}

} // verus!
