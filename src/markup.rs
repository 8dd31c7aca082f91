use vstd::prelude::*;
use crate::grammar::{
    char_at, fail, lemma_attribute, lemma_name_from, lemma_skip_ws, lemma_value_from, read_attribute,
    read_name, skip_ws, value_from,
};
use crate::token::{ErrorKind, ParseError, TokenView};

verus! {

// The model of the structural constructs and of the driver, over the
// primitives of `grammar`.

pub type ReadResult = Result<(Seq<TokenView>, int), ParseError>;

pub type TextResult = Result<(Seq<char>, int), ParseError>;

/// `n` dashes.
pub open spec fn dashes(n: nat) -> Seq<char> {
    Seq::new(n, |_i: int| '-')
}

/// A namespace prefix and a local name written back as one qualified name.
pub open spec fn qualified(ns: Option<Seq<char>>, name: Seq<char>) -> Seq<char> {
    match ns {
        Some(n) => n + seq![':'] + name,
        None => name,
    }
}

pub open spec fn or_keep(value: Option<Seq<char>>, old: Seq<char>) -> Seq<char> {
    match value {
        Some(v) => v,
        None => old,
    }
}

/// The body of a comment after `<!--`, with `d` dashes pending. A dash is
/// held back until the next character shows whether it begins the close;
/// `>` closes the comment after exactly two pending dashes.
pub open spec fn comment_from(s: Seq<char>, p: int, acc: Seq<char>, d: nat) -> TextResult
    decreases s.len() - p,
{
    if p < 0 || p >= s.len() {
        Err(fail(ErrorKind::UnexpectedEndOfInput, p))
    } else if s[p] == '>' {
        if d == 2 {
            Ok((acc, p + 1))
        } else {
            Err(fail(ErrorKind::MalformedCommentEnd, p))
        }
    } else if s[p] == '-' {
        comment_from(s, p + 1, acc, d + 1)
    } else {
        comment_from(s, p + 1, acc + dashes(d) + seq![s[p]], 0)
    }
}

/// Raw text up to (not including) the first `stop`, which is then current.
pub open spec fn raw_until(s: Seq<char>, p: int, acc: Seq<char>, stop: char) -> TextResult
    decreases s.len() - p,
{
    if p < 0 || p >= s.len() {
        Err(fail(ErrorKind::UnexpectedEndOfInput, p))
    } else if s[p] == stop {
        Ok((acc, p))
    } else {
        raw_until(s, p + 1, acc.push(s[p]), stop)
    }
}

/// An optional quoted external identifier at `p`; afterwards the character
/// past its closing quote is current.
pub open spec fn doctype_url(s: Seq<char>, p: int) -> Result<(Option<Seq<char>>, int), ParseError> {
    if char_at(s, p) == Some('"') {
        match value_from(s, p + 1, Seq::empty()) {
            Err(e) => Err(e),
            Ok((v, q)) => Ok((Some(v), q + 1)),
        }
    } else {
        Ok((None, p))
    }
}

/// An optional internal subset `[...]` at `p`.
pub open spec fn doctype_subset(s: Seq<char>, p: int) -> Result<(Option<Seq<char>>, int), ParseError> {
    if char_at(s, p) == Some('[') {
        match raw_until(s, p + 1, Seq::empty(), ']') {
            Err(e) => Err(e),
            Ok((c, q)) => Ok((Some(c), q + 1)),
        }
    } else {
        Ok((None, p))
    }
}

/// A DOCTYPE declaration whose keyword starts at `p`.
pub open spec fn read_doctype(s: Seq<char>, p: int) -> ReadResult {
    match read_name(s, p) {
        Err(e) => Err(e),
        Ok((ns, kw, p1)) => {
            if ns is Some || kw != "DOCTYPE"@ {
                Err(fail(ErrorKind::MalformedXml, p1))
            } else {
                match read_name(s, skip_ws(s, p1)) {
                    Err(e) => Err(e),
                    Ok((rns, root, p3)) => match doctype_url(s, skip_ws(s, p3)) {
                        Err(e) => Err(e),
                        Ok((url, p4)) => match doctype_subset(s, skip_ws(s, p4)) {
                            Err(e) => Err(e),
                            Ok((content, p5)) => {
                                let p6 = skip_ws(s, p5);
                                if char_at(s, p6) == Some('>') {
                                    Ok((seq![TokenView::DocType { name: qualified(rns, root), content, url }], p6 + 1))
                                } else if p6 >= s.len() {
                                    Err(fail(ErrorKind::UnexpectedEndOfInput, p6))
                                } else {
                                    Err(fail(ErrorKind::MalformedXml, p6))
                                }
                            },
                        },
                    },
                }
            }
        },
    }
}

/// A comment or a DOCTYPE, the `!` of `<!` being at `p`.
pub open spec fn read_comment(s: Seq<char>, p: int) -> ReadResult {
    if p < 0 || p >= s.len() {
        Err(fail(ErrorKind::UnexpectedEndOfInput, p))
    } else if char_at(s, p + 1) != Some('-') {
        read_doctype(s, p + 1)
    } else if char_at(s, p + 2) != Some('-') {
        if p + 2 >= s.len() {
            Err(fail(ErrorKind::UnexpectedEndOfInput, p + 2))
        } else {
            Err(fail(ErrorKind::MalformedComment, p + 2))
        }
    } else {
        match comment_from(s, p + 3, Seq::empty(), 0) {
            Err(e) => Err(e),
            Ok((c, q)) => Ok((seq![TokenView::Comment(c)], q)),
        }
    }
}

/// Folds one attribute of a prolog into its version, encoding and
/// standalone flag.
pub open spec fn fold_prolog(a: TokenView, version: Seq<char>, encoding: Seq<char>, standalone: bool) -> (Seq<char>, Seq<char>, bool) {
    match a {
        TokenView::Attr { ns: None, name, value } => {
            if name == "version"@ {
                (or_keep(value, version), encoding, standalone)
            } else if name == "encoding"@ {
                (version, or_keep(value, encoding), standalone)
            } else if name == "standalone"@ {
                (version, encoding, value == Some("true"@))
            } else {
                (version, encoding, standalone)
            }
        },
        _ => (version, encoding, standalone),
    }
}

pub type PrologResult = Result<(Seq<char>, Seq<char>, bool, int), ParseError>;

/// The attributes of a prolog up to its `?`, which is then current.
pub open spec fn prolog_from(s: Seq<char>, p: int, version: Seq<char>, encoding: Seq<char>, standalone: bool) -> PrologResult
    decreases s.len() - p,
{
    if p < 0 || p > s.len() {
        Err(fail(ErrorKind::UnexpectedEndOfInput, p))
    } else {
        let p0 = skip_ws(s, p);
        if char_at(s, p0) == Some('?') {
            Ok((version, encoding, standalone, p0))
        } else {
            match read_attribute(s, p0) {
                Err(e) => Err(e),
                Ok((a, p1)) => {
                    proof {
                        lemma_skip_ws(s, p);
                        lemma_attribute(s, p0);
                    }
                    let f = fold_prolog(a, version, encoding, standalone);
                    prolog_from(s, p1, f.0, f.1, f.2)
                },
            }
        }
    }
}

/// The `?>` that closes a prolog or processing instruction, `?` being at `p`.
pub open spec fn close_pi(s: Seq<char>, p: int, t: TokenView) -> ReadResult {
    if char_at(s, p + 1) == Some('>') {
        Ok((seq![t], p + 2))
    } else if p + 1 >= s.len() {
        Err(fail(ErrorKind::UnexpectedEndOfInput, p + 1))
    } else {
        Err(fail(ErrorKind::MalformedPrologEnd, p + 1))
    }
}

/// A prolog or processing instruction whose target name starts at `p`.
pub open spec fn read_pi(s: Seq<char>, p: int) -> ReadResult {
    match read_name(s, p) {
        Err(e) => Err(e),
        Ok((ns, name, p1)) => {
            if ns is Some {
                Err(fail(ErrorKind::MalformedProcessingInstruction, p1))
            } else if name == "xml"@ {
                match prolog_from(s, p1, "1.0"@, "UTF-8"@, true) {
                    Err(e) => Err(e),
                    Ok((v, e, sa, p2)) => close_pi(
                        s,
                        p2,
                        TokenView::Prolog { version: v, encoding: e, standalone: sa },
                    ),
                }
            } else {
                match raw_until(s, p1, Seq::empty(), '?') {
                    Err(e) => Err(e),
                    Ok((c, p2)) => close_pi(s, p2, TokenView::ProcessingInstruction { name, content: c }),
                }
            }
        },
    }
}

/// A prolog or processing instruction whose `<` is at `p`.
pub open spec fn read_processing_instruction(s: Seq<char>, p: int) -> ReadResult {
    if p < 0 || p >= s.len() {
        Err(fail(ErrorKind::UnexpectedEndOfInput, p))
    } else if char_at(s, p + 1) != Some('?') {
        if p + 1 >= s.len() {
            Err(fail(ErrorKind::UnexpectedEndOfInput, p + 1))
        } else {
            Err(fail(ErrorKind::MalformedProcessingInstruction, p + 1))
        }
    } else {
        read_pi(s, p + 2)
    }
}

/// An end tag whose name starts at `p` (just past `</`).
pub open spec fn read_end(s: Seq<char>, p: int) -> ReadResult {
    match read_name(s, p) {
        Err(e) => Err(e),
        Ok((ns, name, p1)) => {
            let p2 = skip_ws(s, p1);
            if char_at(s, p2) == Some('>') {
                Ok((seq![TokenView::End { ns, name }], p2 + 1))
            } else if p2 >= s.len() {
                Err(fail(ErrorKind::UnexpectedEndOfInput, p2))
            } else {
                Err(fail(ErrorKind::MalformedTag, p2))
            }
        },
    }
}

pub type TagRestResult = Result<(Seq<TokenView>, bool, int), ParseError>;

/// The attributes of a start tag after `attrs`, up to `>` or `/>`; also
/// tells whether the tag closed itself.
pub open spec fn tag_rest(s: Seq<char>, p: int, attrs: Seq<TokenView>) -> TagRestResult
    decreases s.len() - p,
{
    if p < 0 || p > s.len() {
        Err(fail(ErrorKind::UnexpectedEndOfInput, p))
    } else {
        let p0 = skip_ws(s, p);
        if p0 >= s.len() {
            Err(fail(ErrorKind::UnexpectedEndOfInput, p0))
        } else if s[p0] == '>' {
            Ok((attrs, false, p0 + 1))
        } else if s[p0] == '/' {
            if char_at(s, p0 + 1) == Some('>') {
                Ok((attrs, true, p0 + 2))
            } else if p0 + 1 >= s.len() {
                Err(fail(ErrorKind::UnexpectedEndOfInput, p0 + 1))
            } else {
                Err(fail(ErrorKind::MalformedTag, p0 + 1))
            }
        } else {
            match read_attribute(s, p0) {
                Err(e) => Err(e),
                Ok((a, p1)) => {
                    proof {
                        lemma_skip_ws(s, p);
                        lemma_attribute(s, p0);
                    }
                    tag_rest(s, p1, attrs.push(a))
                },
            }
        }
    }
}

/// A start tag whose name starts at `p` (just past `<`): `Start`, its
/// attributes, and `End` as well when it closes itself with `/>`.
pub open spec fn read_start(s: Seq<char>, p: int) -> ReadResult {
    match read_name(s, p) {
        Err(e) => Err(e),
        Ok((ns, name, p1)) => match tag_rest(s, p1, Seq::empty()) {
            Err(e) => Err(e),
            Ok((attrs, closed, q)) => {
                let end = if closed {
                    seq![TokenView::End { ns, name }]
                } else {
                    Seq::empty()
                };
                Ok((seq![TokenView::Start { ns, name }] + attrs + end, q))
            },
        },
    }
}

/// The construct opened by the `<` at `p`, chosen by the character after it.
pub open spec fn read_markup(s: Seq<char>, p: int) -> ReadResult {
    if p < 0 || p >= s.len() {
        Err(fail(ErrorKind::UnexpectedEndOfInput, p))
    } else if p + 1 >= s.len() {
        Err(fail(ErrorKind::UnexpectedEndOfInput, p + 1))
    } else if s[p + 1] == '!' {
        read_comment(s, p + 1)
    } else if s[p + 1] == '?' {
        read_pi(s, p + 2)
    } else if s[p + 1] == '/' {
        read_end(s, p + 2)
    } else {
        read_start(s, p + 1)
    }
}

/// A run of text up to the next `<` or the end.
pub open spec fn text_from(s: Seq<char>, p: int, acc: Seq<char>) -> (Seq<char>, int)
    decreases s.len() - p,
{
    if p < 0 || p >= s.len() || s[p] == '<' {
        (acc, p)
    } else {
        text_from(s, p + 1, acc.push(s[p]))
    }
}

/// The tokens of the text from `p` on, after the tokens `acc`.
pub open spec fn tokens_from(s: Seq<char>, p: int, acc: Seq<TokenView>) -> Result<Seq<TokenView>, ParseError>
    decreases s.len() - p,
{
    if p < 0 || p >= s.len() {
        Ok(acc)
    } else if s[p] == '<' {
        match read_markup(s, p) {
            Err(e) => Err(e),
            Ok((ts, q)) => {
                proof {
                    lemma_markup(s, p);
                }
                tokens_from(s, q, acc + ts)
            },
        }
    } else {
        let (t, q) = text_from(s, p, Seq::empty());
        proof {
            lemma_text_from(s, p, Seq::empty());
        }
        tokens_from(s, q, acc + seq![TokenView::Text(t)])
    }
}

/// The token sequence of a whole text.
pub open spec fn tokenize_spec(s: Seq<char>) -> Result<Seq<TokenView>, ParseError> {
    tokens_from(s, 0, Seq::empty())
}

pub proof fn lemma_comment_from(s: Seq<char>, p: int, acc: Seq<char>, d: nat)
    requires
        0 <= p,
    ensures
        comment_from(s, p, acc, d) matches Ok((_, q)) ==> p < q <= s.len(),
    decreases s.len() - p,
{
    if p < s.len() && s[p] != '>' {
        if s[p] == '-' {
            lemma_comment_from(s, p + 1, acc, d + 1);
        } else {
            lemma_comment_from(s, p + 1, acc + dashes(d) + seq![s[p]], 0);
        }
    }
}

pub proof fn lemma_raw_until(s: Seq<char>, p: int, acc: Seq<char>, stop: char)
    requires
        0 <= p,
    ensures
        raw_until(s, p, acc, stop) matches Ok((_, q)) ==> p <= q < s.len() && s[q] == stop,
    decreases s.len() - p,
{
    if p < s.len() && s[p] != stop {
        lemma_raw_until(s, p + 1, acc.push(s[p]), stop);
    }
}

pub proof fn lemma_prolog_from(s: Seq<char>, p: int, v: Seq<char>, e: Seq<char>, sa: bool)
    requires
        0 <= p <= s.len(),
    ensures
        prolog_from(s, p, v, e, sa) matches Ok((_, _, _, q)) ==> p <= q < s.len() && s[q] == '?',
    decreases s.len() - p,
{
    lemma_skip_ws(s, p);
    let p0 = skip_ws(s, p);
    if char_at(s, p0) != Some('?') {
        lemma_attribute(s, p0);
        if let Ok((a, p1)) = read_attribute(s, p0) {
            let f = fold_prolog(a, v, e, sa);
            lemma_prolog_from(s, p1, f.0, f.1, f.2);
        }
    }
}

pub proof fn lemma_tag_rest(s: Seq<char>, p: int, attrs: Seq<TokenView>)
    requires
        0 <= p <= s.len(),
    ensures
        tag_rest(s, p, attrs) matches Ok((_, _, q)) ==> p < q <= s.len(),
    decreases s.len() - p,
{
    lemma_skip_ws(s, p);
    let p0 = skip_ws(s, p);
    if p0 < s.len() && s[p0] != '>' && s[p0] != '/' {
        lemma_attribute(s, p0);
        if let Ok((a, p1)) = read_attribute(s, p0) {
            lemma_tag_rest(s, p1, attrs.push(a));
        }
    }
}

pub proof fn lemma_text_from(s: Seq<char>, p: int, acc: Seq<char>)
    requires
        0 <= p <= s.len(),
    ensures
        p <= text_from(s, p, acc).1 <= s.len(),
        p < s.len() && s[p] != '<' ==> text_from(s, p, acc).1 > p,
    decreases s.len() - p,
{
    if p < s.len() && s[p] != '<' {
        lemma_text_from(s, p + 1, acc.push(s[p]));
    }
}

/// Every construct that is read ends past its `<`.
pub proof fn lemma_markup(s: Seq<char>, p: int)
    requires
        0 <= p <= s.len(),
    ensures
        read_markup(s, p) matches Ok((_, q)) ==> p < q <= s.len(),
{
    if p + 1 < s.len() {
        let c = s[p + 1];
        if c == '!' {
            lemma_name_from(s, p + 2, None, Seq::empty());
            if let Ok((ns, kw, p1)) = read_name(s, p + 2) {
                lemma_skip_ws(s, p1);
                lemma_name_from(s, skip_ws(s, p1), None, Seq::empty());
                if let Ok((rns, root, p3)) = read_name(s, skip_ws(s, p1)) {
                    lemma_skip_ws(s, p3);
                    lemma_value_from(s, skip_ws(s, p3) + 1, Seq::empty());
                    if let Ok((url, p4)) = doctype_url(s, skip_ws(s, p3)) {
                        lemma_skip_ws(s, p4);
                        lemma_raw_until(s, skip_ws(s, p4) + 1, Seq::empty(), ']');
                        if let Ok((content, p5)) = doctype_subset(s, skip_ws(s, p4)) {
                            lemma_skip_ws(s, p5);
                        }
                    }
                }
            }
            lemma_comment_from(s, p + 4, Seq::empty(), 0);
        } else if c == '?' {
            lemma_name_from(s, p + 2, None, Seq::empty());
            if let Ok((ns, name, p1)) = read_name(s, p + 2) {
                lemma_prolog_from(s, p1, "1.0"@, "UTF-8"@, true);
                lemma_raw_until(s, p1, Seq::empty(), '?');
            }
        } else if c == '/' {
            lemma_name_from(s, p + 2, None, Seq::empty());
            if let Ok((ns, name, p1)) = read_name(s, p + 2) {
                lemma_skip_ws(s, p1);
            }
        } else {
            lemma_name_from(s, p + 1, None, Seq::empty());
            if let Ok((ns, name, p1)) = read_name(s, p + 1) {
                lemma_tag_rest(s, p1, Seq::empty());
            }
        }
    }
}

} // verus!
