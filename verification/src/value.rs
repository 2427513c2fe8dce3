//! Typed values: what a token of a line stands for, and how a value is
//! written back as a token.

use vstd::prelude::*;
use crate::error::TranslateError;
use crate::number::{decimal, int_text, int_token, is_float_literal, is_float_text, parse_int};
use crate::text::{chars_of, push_text};

verus! {

/// A float, held as a literal that writes it: an optional sign, then `inf`,
/// `infinity` or `nan` in any case, or digits with at most one point among
/// them and an optional exponent.
///
/// The literal is turned into a number, and a number into its literal, where
/// a message enters or leaves its binary form.
#[derive(Debug, PartialEq, Eq)]
pub struct FloatLiteral {
    text: String,
}

impl Clone for FloatLiteral {
    fn clone(&self) -> (r: Self)
        ensures
            r@ == self@,
    {
        proof {
            use_type_invariant(self);
        }
        FloatLiteral { text: self.text.clone() }
    }
}

impl View for FloatLiteral {
    type V = Seq<char>;

    closed spec fn view(&self) -> Seq<char> {
        self.text@
    }
}

impl FloatLiteral {
    #[verifier::type_invariant]
    spec fn inv(self) -> bool {
        is_float_literal(self.text@)
    }

    /// The literal `text`, if it is one.
    pub fn new(text: &str) -> (r: Option<FloatLiteral>)
        ensures
            match r {
                Some(literal) => literal@ == text@ && is_float_literal(text@),
                None => !is_float_literal(text@),
            },
    {
        if is_float_text(&chars_of(text)) {
            let mut held = String::new();
            push_text(&mut held, text);
            assert(held@ =~= text@);
            Some(FloatLiteral { text: held })
        } else {
            None
        }
    }

    /// The characters of the literal.
    pub fn as_str(&self) -> (r: &str)
        ensures
            r@ == self@,
            is_float_literal(r@),
    {
        proof {
            use_type_invariant(self);
        }
        self.text.as_str()
    }
}

/// One argument of a message.
#[derive(Clone, Debug, PartialEq, Eq)]
pub enum TypedValue {
    /// A signed 32-bit integer.
    Integer(i32),
    /// A 32-bit float, as a literal that writes it.
    Float(FloatLiteral),
    /// Text; quotes that came with the token are part of it.
    Text(String),
    /// A value of a type that has no counterpart in a line.
    Unsupported,
}

/// A `TypedValue` as a mathematical value.
pub enum ValueView {
    Integer(i32),
    Float(Seq<char>),
    Text(Seq<char>),
    Unsupported,
}

impl View for TypedValue {
    type V = ValueView;

    open spec fn view(&self) -> ValueView {
        match self {
            TypedValue::Integer(i) => ValueView::Integer(*i),
            TypedValue::Float(t) => ValueView::Float(t@),
            TypedValue::Text(t) => ValueView::Text(t@),
            TypedValue::Unsupported => ValueView::Unsupported,
        }
    }
}

/// The views of a sequence of values.
pub open spec fn values(v: Seq<TypedValue>) -> Seq<ValueView> {
    Seq::new(v.len(), |i: int| v[i]@)
}

/// The value that a token stands for: an integer where it writes one that
/// fits 32 bits, else a float where it is a floating-point literal, else the
/// token itself as text.
pub open spec fn infer(token: Seq<char>) -> ValueView {
    match int_token(token) {
        Some(i) => ValueView::Integer(i),
        None => if is_float_literal(token) {
            ValueView::Float(token)
        } else {
            ValueView::Text(token)
        },
    }
}

/// Whether `s` starts and ends with a double quote.
pub open spec fn is_quoted(s: Seq<char>) -> bool {
    s.len() > 0 && s.first() == '"' && s.last() == '"'
}

/// `s` between double quotes, unless it is quoted already.
pub open spec fn quoted(s: Seq<char>) -> Seq<char> {
    if is_quoted(s) {
        s
    } else {
        seq!['"'] + s + seq!['"']
    }
}

/// The token that writes a value: the decimal form of an integer, the
/// literal of a float, text between quotes. A value of another type has no
/// token.
pub open spec fn render(v: ValueView) -> Result<Seq<char>, TranslateError> {
    match v {
        ValueView::Integer(i) => Ok(decimal(i as int)),
        ValueView::Float(t) => Ok(t),
        ValueView::Text(t) => Ok(quoted(t)),
        ValueView::Unsupported => Err(TranslateError::UnsupportedArgumentType),
    }
}

/// A result that holds a string, as a result that holds its characters.
pub open spec fn text_result(r: Result<String, TranslateError>) -> Result<
    Seq<char>,
    TranslateError,
> {
    match r {
        Ok(s) => Ok(s@),
        Err(e) => Err(e),
    }
}

/// Gives a token of a line its type.
pub fn rcp_to_osc_type(arg: &String) -> (r: TypedValue)
    ensures
        r@ == infer(arg@),
{
    let chars = chars_of(arg.as_str());
    match parse_int(&chars) {
        Some(i) => TypedValue::Integer(i),
        None => match FloatLiteral::new(arg.as_str()) {
            Some(literal) => TypedValue::Float(literal),
            None => TypedValue::Text(arg.clone()),
        },
    }
}

/// Writes `s` between double quotes, unless it is quoted already.
pub fn quote_text(s: &String) -> (r: String)
    ensures
        r@ == quoted(s@),
{
    let chars = chars_of(s.as_str());
    let n = chars.len();
    if n > 0 && chars[0] == '"' && chars[n - 1] == '"' {
        s.clone()
    } else {
        let mut out = String::new();
        out.push('"');
        crate::text::push_chars(&mut out, &chars, 0, n);
        out.push('"');
        assert(chars@.subrange(0, n as int) =~= chars@);
        assert(out@ =~= seq!['"'] + s@ + seq!['"']);
        out
    }
}

/// Writes a value as a token of a line.
pub fn osc_to_rcp_arg(arg: &TypedValue) -> (r: Result<String, TranslateError>)
    ensures
        text_result(r) == render(arg@),
{
    match arg {
        TypedValue::Integer(i) => Ok(int_text(*i)),
        TypedValue::Float(t) => {
            let mut out = String::new();
            push_text(&mut out, t.as_str());
            assert(out@ =~= t@);
            Ok(out)
        },
        TypedValue::Text(t) => Ok(quote_text(t)),
        TypedValue::Unsupported => Err(TranslateError::UnsupportedArgumentType),
    }
}

} // verus!
