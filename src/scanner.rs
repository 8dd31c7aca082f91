use vstd::prelude::*;
use crate::cursor::XmlChars;
use crate::grammar::{
    NameResult, fail, is_illegal_spec, is_name_end, is_white, lemma_name_from, lemma_skip_ws,
    lemma_value_from, name_from, read_attribute, read_name, read_value, skip_ws, value_from,
};
use crate::text::push_char;
use crate::token::{ErrorKind, ParseError, Token, TokenView, opt_view, tokens_view};

verus! {

/// A name read by `consume_name` agrees with the model's result `m`, and
/// the cursor then stands at `q`.
pub open spec fn name_agrees(r: Result<(Option<String>, String), ParseError>, m: NameResult, q: int) -> bool {
    match m {
        Ok((ns, name, p)) => r is Ok && opt_view(r->Ok_0.0) == ns && r->Ok_0.1@ == name && q == p,
        Err(e) => r == Err::<(Option<String>, String), ParseError>(e),
    }
}

/// A string read agrees with the model's result `m`, the cursor then at `q`.
pub open spec fn string_agrees(r: Result<String, ParseError>, m: Result<(Seq<char>, int), ParseError>, q: int) -> bool {
    match m {
        Ok((v, p)) => r is Ok && r->Ok_0@ == v && q == p,
        Err(e) => r == Err::<String, ParseError>(e),
    }
}

/// Tokens appended to `before`, giving `after`, agree with the model's
/// result `m`, the cursor then at `q`.
pub open spec fn pushed_agrees(
    r: Result<(), ParseError>,
    before: Seq<Token>,
    after: Seq<Token>,
    m: Result<(Seq<TokenView>, int), ParseError>,
    q: int,
) -> bool {
    match m {
        Ok((ts, p)) => r is Ok && tokens_view(after) == tokens_view(before) + ts && q == p,
        Err(e) => r == Err::<(), ParseError>(e),
    }
}

/// One token as a model result of a token sequence.
pub open spec fn one(m: Result<(TokenView, int), ParseError>) -> Result<(Seq<TokenView>, int), ParseError> {
    match m {
        Ok((t, p)) => Ok((seq![t], p)),
        Err(e) => Err(e),
    }
}

pub proof fn lemma_view_push(a: Seq<Token>, t: Token)
    ensures
        tokens_view(a.push(t)) == tokens_view(a) + seq![t@],
{
    assert(tokens_view(a.push(t)) =~= tokens_view(a) + seq![t@]);
}

pub(crate) fn is_white_char(c: char) -> (r: bool)
    ensures
        r == is_white(c),
{
    c == ' ' || c == '\t' || c == '\n' || c == '\r'
}

fn is_name_end_char(c: char) -> (r: bool)
    ensures
        r == is_name_end(c),
{
    is_white_char(c) || c == '=' || c == '>' || c == '/' || c == '?'
}

/// Whether `c` is punctuation that may not appear in a name.
pub fn is_illegal(c: &char) -> (r: bool)
    ensures
        r == is_illegal_spec(*c),
{
    let c = *c;
    c == '!' || c == '?' || c == '@' || c == '#' || c == '$' || c == '%' || c == '^' || c == '&'
        || c == '*' || c == '+' || c == ',' || c == '.' || c == '~' || c == '/' || c == '|'
        || c == '\\' || c == '"' || c == '\'' || c == '`' || c == '(' || c == ')' || c == '['
        || c == ']' || c == '{' || c == '}'
}

fn at_white(iter: &XmlChars) -> (r: bool)
    requires
        iter.wf(),
    ensures
        r == (0 <= iter.pos() < iter.text().len() && is_white(iter.text()[iter.pos()])),
{
    match iter.current() {
        Some(c) => is_white_char(c),
        None => false,
    }
}

pub(crate) fn fail_here(iter: &XmlChars, kind: ErrorKind) -> (e: ParseError)
    requires
        iter.wf(),
        iter.pos() >= 0,
    ensures
        e == fail(kind, iter.pos()),
{
    ParseError { kind, offset: iter.offset() }
}

/// Skips space, tab, newline and carriage return; the first other
/// character (or the end) is then current.
pub fn consume_white_spaces(iter: &mut XmlChars)
    requires
        old(iter).wf(),
        old(iter).pos() >= 0,
    ensures
        final(iter).wf(),
        final(iter).text() == old(iter).text(),
        final(iter).pos() == skip_ws(old(iter).text(), old(iter).pos()),
{
    let ghost s = iter.text();
    let ghost p0 = iter.pos();
    while at_white(iter)
        invariant
            iter.wf(),
            iter.text() == s,
            iter.pos() >= 0,
            skip_ws(s, iter.pos()) == skip_ws(s, p0),
        decreases s.len() - iter.pos(),
    {
        iter.next();
    }
}

/// Reads a name up to (not including) whitespace, `=`, `>`, `/` or `?`,
/// splitting a namespace prefix off at the first `:`.
pub fn consume_name(iter: &mut XmlChars) -> (r: Result<(Option<String>, String), ParseError>)
    requires
        old(iter).wf(),
        old(iter).pos() >= 0,
    ensures
        final(iter).wf(),
        final(iter).text() == old(iter).text(),
        name_agrees(r, read_name(old(iter).text(), old(iter).pos()), final(iter).pos()),
{
    let ghost s = iter.text();
    let ghost p0 = iter.pos();
    let mut ns: Option<String> = None;
    let mut acc = String::new();
    let mut empty = true;
    loop
        invariant
            iter.wf(),
            s == old(iter).text(),
            p0 == old(iter).pos(),
            iter.text() == s,
            iter.pos() >= 0,
            empty == (acc@.len() == 0),
            name_from(s, iter.pos(), opt_view(ns), acc@) == read_name(s, p0),
        decreases s.len() - iter.pos(),
    {
        match iter.current() {
            None => {
                return Err(fail_here(iter, ErrorKind::UnexpectedEndOfInput));
            },
            Some(c) => {
                if is_name_end_char(c) {
                    if empty {
                        return Err(fail_here(iter, ErrorKind::MalformedName));
                    }
                    return Ok((ns, acc));
                } else if c == ':' {
                    if ns.is_some() {
                        return Err(fail_here(iter, ErrorKind::MalformedName));
                    }
                    ns = Some(acc);
                    acc = String::new();
                    empty = true;
                } else if is_illegal(&c) {
                    return Err(fail_here(iter, ErrorKind::MalformedName));
                } else {
                    push_char(&mut acc, c);
                    empty = false;
                }
            },
        }
        iter.next();
    }
}

/// Reads a double-quoted value whose opening `"` is current, up to the
/// closing `"`, which is then current. A backslash escapes the character
/// after it; both are kept as they stand.
pub fn consume_value(iter: &mut XmlChars) -> (r: Result<String, ParseError>)
    requires
        old(iter).wf(),
        old(iter).pos() >= 0,
    ensures
        final(iter).wf(),
        final(iter).text() == old(iter).text(),
        string_agrees(r, read_value(old(iter).text(), old(iter).pos()), final(iter).pos()),
{
    let ghost s = iter.text();
    let ghost p0 = iter.pos();
    if iter.current().is_none() {
        return Err(fail_here(iter, ErrorKind::UnexpectedEndOfInput));
    }
    iter.next();
    let mut value = String::new();
    loop
        invariant
            iter.wf(),
            s == old(iter).text(),
            p0 == old(iter).pos(),
            iter.text() == s,
            iter.pos() >= 0,
            value_from(s, iter.pos(), value@) == read_value(s, p0),
        decreases s.len() - iter.pos(),
    {
        match iter.current() {
            None => {
                return Err(fail_here(iter, ErrorKind::UnexpectedEndOfInput));
            },
            Some(c) => {
                if c == '"' {
                    return Ok(value);
                }
                push_char(&mut value, c);
                if c == '\\' {
                    match iter.next() {
                        None => {
                            return Err(fail_here(iter, ErrorKind::UnexpectedEndOfInput));
                        },
                        Some(e) => {
                            push_char(&mut value, e);
                        },
                    }
                }
            },
        }
        iter.next();
    }
}

/// An attribute read as its parts agrees with the model's result `m`, the
/// cursor then at `q`.
pub open spec fn attr_agrees(
    r: Result<(Option<String>, String, Option<String>), ParseError>,
    m: Result<(TokenView, int), ParseError>,
    q: int,
) -> bool {
    match m {
        Ok((t, p)) => r is Ok && t == (TokenView::Attr {
            ns: opt_view(r->Ok_0.0),
            name: r->Ok_0.1@,
            value: opt_view(r->Ok_0.2),
        }) && q == p,
        Err(e) => r == Err::<(Option<String>, String, Option<String>), ParseError>(e),
    }
}

/// Reads one attribute after optional whitespace, `name` or
/// `name = "value"`, as its namespace, name and value.
pub(crate) fn consume_attribute(iter: &mut XmlChars) -> (r: Result<(Option<String>, String, Option<String>), ParseError>)
    requires
        old(iter).wf(),
        old(iter).pos() >= 0,
    ensures
        final(iter).wf(),
        final(iter).text() == old(iter).text(),
        attr_agrees(r, read_attribute(old(iter).text(), old(iter).pos()), final(iter).pos()),
{
    let ghost s = iter.text();
    let ghost p0 = iter.pos();
    proof {
        lemma_skip_ws(s, p0);
    }
    consume_white_spaces(iter);
    let (ns, name) = match consume_name(iter) {
        Ok(n) => n,
        Err(e) => return Err(e),
    };
    proof {
        lemma_name_from(s, skip_ws(s, p0), None, Seq::empty());
        lemma_skip_ws(s, iter.pos());
    }
    consume_white_spaces(iter);
    if iter.current() == Some('=') {
        iter.next();
        proof {
            lemma_skip_ws(s, iter.pos());
        }
        consume_white_spaces(iter);
        if iter.current() == Some('"') {
            proof {
                lemma_value_from(s, iter.pos() + 1, Seq::empty());
            }
            let value = match consume_value(iter) {
                Ok(v) => v,
                Err(e) => return Err(e),
            };
            iter.next();
            Ok((ns, name, Some(value)))
        } else if iter.current().is_none() {
            Err(fail_here(iter, ErrorKind::UnexpectedEndOfInput))
        } else {
            Err(fail_here(iter, ErrorKind::UnboundedAttributeValue))
        }
    } else {
        Ok((ns, name, None))
    }
}

/// Reads one attribute after optional whitespace, `name` or
/// `name = "value"`, and appends its `Attr` token.
pub fn consume_tag_attribute(iter: &mut XmlChars, tokens: &mut Vec<Token>) -> (r: Result<(), ParseError>)
    requires
        old(iter).wf(),
        old(iter).pos() >= 0,
    ensures
        final(iter).wf(),
        final(iter).text() == old(iter).text(),
        pushed_agrees(r, old(tokens)@, final(tokens)@, one(read_attribute(old(iter).text(), old(iter).pos())), final(iter).pos()),
{
    match consume_attribute(iter) {
        Err(e) => Err(e),
        Ok((ns, name, value)) => {
            let t = Token::Attr { ns, name, value };
            proof {
                lemma_view_push(tokens@, t);
            }
            tokens.push(t);
            Ok(())
        },
    }
}

} // verus!
