use vstd::prelude::*;
use crate::token::{ErrorKind, ParseError, TokenView};

verus! {

// The scanner's meaning, as functions of the text and the index `p` of the
// current character. Each returns what it read and the index of the
// character that is current afterwards, or the failure it stops at.

/// The character at index `p`, or `None` outside the text.
pub open spec fn char_at(s: Seq<char>, p: int) -> Option<char> {
    if 0 <= p < s.len() {
        Some(s[p])
    } else {
        None
    }
}

pub open spec fn fail(kind: ErrorKind, p: int) -> ParseError {
    ParseError { kind, offset: p as usize }
}

pub open spec fn is_white(c: char) -> bool {
    c == ' ' || c == '\t' || c == '\n' || c == '\r'
}

/// Characters that end a name: whitespace, `=`, and the markup delimiters
/// `>`, `/` and `?`.
pub open spec fn is_name_end(c: char) -> bool {
    is_white(c) || c == '=' || c == '>' || c == '/' || c == '?'
}

/// Punctuation that may not appear in a name.
pub open spec fn is_illegal_spec(c: char) -> bool {
    c == '!' || c == '?' || c == '@' || c == '#' || c == '$' || c == '%' || c == '^' || c == '&'
        || c == '*' || c == '+' || c == ',' || c == '.' || c == '~' || c == '/' || c == '|'
        || c == '\\' || c == '"' || c == '\'' || c == '`' || c == '(' || c == ')' || c == '['
        || c == ']' || c == '{' || c == '}'
}

/// Index of the first non-whitespace character at or after `p`.
pub open spec fn skip_ws(s: Seq<char>, p: int) -> int
    decreases s.len() - p,
{
    if 0 <= p < s.len() && is_white(s[p]) {
        skip_ws(s, p + 1)
    } else {
        p
    }
}

pub type NameResult = Result<(Option<Seq<char>>, Seq<char>, int), ParseError>;

/// Continues a name whose namespace so far is `ns` and whose local part so
/// far is `acc`; stops at (without consuming) the terminator.
pub open spec fn name_from(s: Seq<char>, p: int, ns: Option<Seq<char>>, acc: Seq<char>) -> NameResult
    decreases s.len() - p,
{
    if p < 0 || p >= s.len() {
        Err(fail(ErrorKind::UnexpectedEndOfInput, p))
    } else if is_name_end(s[p]) {
        if acc.len() == 0 {
            Err(fail(ErrorKind::MalformedName, p))
        } else {
            Ok((ns, acc, p))
        }
    } else if s[p] == ':' {
        if ns is Some {
            Err(fail(ErrorKind::MalformedName, p))
        } else {
            name_from(s, p + 1, Some(acc), Seq::empty())
        }
    } else if is_illegal_spec(s[p]) {
        Err(fail(ErrorKind::MalformedName, p))
    } else {
        name_from(s, p + 1, ns, acc.push(s[p]))
    }
}

/// A name starting at `p`: an optional namespace prefix split off at the
/// first `:`, and the local name.
pub open spec fn read_name(s: Seq<char>, p: int) -> NameResult {
    name_from(s, p, None, Seq::empty())
}

/// The rest of a quoted value after `acc`; ends at the closing `"`, which
/// stays current. A backslash and the character after it are both kept.
pub open spec fn value_from(s: Seq<char>, p: int, acc: Seq<char>) -> Result<(Seq<char>, int), ParseError>
    decreases s.len() - p,
{
    if p < 0 || p >= s.len() {
        Err(fail(ErrorKind::UnexpectedEndOfInput, p))
    } else if s[p] == '"' {
        Ok((acc, p))
    } else if s[p] == '\\' {
        if p + 1 >= s.len() {
            Err(fail(ErrorKind::UnexpectedEndOfInput, p + 1))
        } else {
            value_from(s, p + 2, acc.push('\\').push(s[p + 1]))
        }
    } else {
        value_from(s, p + 1, acc.push(s[p]))
    }
}

/// A quoted value whose opening delimiter is the character at `p`.
pub open spec fn read_value(s: Seq<char>, p: int) -> Result<(Seq<char>, int), ParseError> {
    if p < 0 || p >= s.len() {
        Err(fail(ErrorKind::UnexpectedEndOfInput, p))
    } else {
        value_from(s, p + 1, Seq::empty())
    }
}

/// An attribute, after optional whitespace: a name, and `= "value"` or
/// nothing. Afterwards the character past the value (or past the trailing
/// whitespace of a valueless name) is current.
pub open spec fn read_attribute(s: Seq<char>, p: int) -> Result<(TokenView, int), ParseError> {
    let p1 = skip_ws(s, p);
    match read_name(s, p1) {
        Err(e) => Err(e),
        Ok((ns, name, p2)) => {
            let p3 = skip_ws(s, p2);
            if char_at(s, p3) == Some('=') {
                let p4 = skip_ws(s, p3 + 1);
                if char_at(s, p4) == Some('"') {
                    match value_from(s, p4 + 1, Seq::empty()) {
                        Err(e) => Err(e),
                        Ok((v, p5)) => Ok((TokenView::Attr { ns, name, value: Some(v) }, p5 + 1)),
                    }
                } else if p4 >= s.len() {
                    Err(fail(ErrorKind::UnexpectedEndOfInput, p4))
                } else {
                    Err(fail(ErrorKind::UnboundedAttributeValue, p4))
                }
            } else {
                Ok((TokenView::Attr { ns, name, value: None }, p3))
            }
        },
    }
}

pub proof fn lemma_skip_ws(s: Seq<char>, p: int)
    requires
        0 <= p <= s.len(),
    ensures
        p <= skip_ws(s, p) <= s.len(),
        skip_ws(s, p) < s.len() ==> !is_white(s[skip_ws(s, p)]),
    decreases s.len() - p,
{
    if p < s.len() && is_white(s[p]) {
        lemma_skip_ws(s, p + 1);
    }
}

pub proof fn lemma_name_from(s: Seq<char>, p: int, ns: Option<Seq<char>>, acc: Seq<char>)
    requires
        0 <= p,
    ensures
        name_from(s, p, ns, acc) matches Ok((_, n, q)) ==> p <= q < s.len() && n.len() > 0 && (q > p
            || acc.len() > 0) && is_name_end(s[q]),
    decreases s.len() - p,
{
    if p < s.len() && !is_name_end(s[p]) {
        if s[p] == ':' {
            if ns is None {
                lemma_name_from(s, p + 1, Some(acc), Seq::empty());
            }
        } else if !is_illegal_spec(s[p]) {
            lemma_name_from(s, p + 1, ns, acc.push(s[p]));
        }
    }
}

pub proof fn lemma_value_from(s: Seq<char>, p: int, acc: Seq<char>)
    requires
        0 <= p,
    ensures
        value_from(s, p, acc) matches Ok((_, q)) ==> p <= q < s.len() && s[q] == '"',
    decreases s.len() - p,
{
    if p < s.len() && s[p] != '"' {
        if s[p] == '\\' {
            if p + 1 < s.len() {
                lemma_value_from(s, p + 2, acc.push('\\').push(s[p + 1]));
            }
        } else {
            lemma_value_from(s, p + 1, acc.push(s[p]));
        }
    }
}

/// An attribute that is read consumes at least its name.
pub proof fn lemma_attribute(s: Seq<char>, p: int)
    requires
        0 <= p <= s.len(),
    ensures
        read_attribute(s, p) matches Ok((t, q)) ==> p < q <= s.len() && t is Attr,
{
    let p1 = skip_ws(s, p);
    lemma_skip_ws(s, p);
    lemma_name_from(s, p1, None, Seq::empty());
    if let Ok((ns, name, p2)) = read_name(s, p1) {
        lemma_skip_ws(s, p2);
        let p3 = skip_ws(s, p2);
        if char_at(s, p3) == Some('=') {
            lemma_skip_ws(s, p3 + 1);
            let p4 = skip_ws(s, p3 + 1);
            lemma_value_from(s, p4 + 1, Seq::empty());
        }
    }
}

} // verus!
