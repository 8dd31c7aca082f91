use vstd::prelude::*;
use vstd::string::StringExecFns;
use crate::cursor::XmlChars;
use crate::grammar::{lemma_attribute, lemma_name_from, lemma_skip_ws, lemma_value_from};
use crate::markup::{
    PrologResult, comment_from, dashes, lemma_prolog_from, lemma_raw_until, prolog_from, qualified,
    raw_until, read_comment, read_doctype, read_pi, read_processing_instruction,
};
use crate::scanner::{
    consume_attribute, consume_name, consume_value, consume_white_spaces, fail_here, lemma_view_push,
    pushed_agrees, string_agrees,
};
use crate::text::push_char;
use crate::token::{ErrorKind, ParseError, Token, TokenView, opt_view};

verus! {

broadcast use vstd::string::to_string_from_display_ensures_for_str;

/// Whether `s` holds exactly the characters of `lit`.
fn same(s: &String, lit: &str) -> (r: bool)
    ensures
        r == (s@ == lit@),
{
    let t = lit.to_string();
    *s == t
}

/// A namespace prefix and a local name joined by `:`.
fn qualify(ns: Option<String>, name: String) -> (r: String)
    ensures
        r@ == qualified(opt_view(ns), name@),
{
    match ns {
        None => name,
        Some(n) => {
            let mut q = n;
            push_char(&mut q, ':');
            q.append(name.as_str());
            q
        },
    }
}

/// Reads raw text up to the first `stop`, which is then current.
pub fn consume_until(iter: &mut XmlChars, stop: char) -> (r: Result<String, ParseError>)
    requires
        old(iter).wf(),
        old(iter).pos() >= 0,
    ensures
        final(iter).wf(),
        final(iter).text() == old(iter).text(),
        string_agrees(r, raw_until(old(iter).text(), old(iter).pos(), Seq::empty(), stop), final(iter).pos()),
{
    let ghost s = iter.text();
    let ghost p0 = iter.pos();
    let mut content = String::new();
    loop
        invariant
            s == old(iter).text(),
            p0 == old(iter).pos(),
            iter.wf(),
            iter.text() == s,
            iter.pos() >= 0,
            raw_until(s, iter.pos(), content@, stop) == raw_until(s, p0, Seq::empty(), stop),
        decreases s.len() - iter.pos(),
    {
        match iter.current() {
            None => {
                return Err(fail_here(iter, ErrorKind::UnexpectedEndOfInput));
            },
            Some(c) => {
                if c == stop {
                    return Ok(content);
                }
                push_char(&mut content, c);
            },
        }
        iter.next();
    }
}

/// Reads a comment, the `!` of `<!` being current; where `<!` is not
/// followed by `-`, reads a DOCTYPE declaration instead. Appends the token.
pub fn consume_comment(iter: &mut XmlChars, tokens: &mut Vec<Token>) -> (r: Result<(), ParseError>)
    requires
        old(iter).wf(),
        old(iter).pos() >= 0,
    ensures
        final(iter).wf(),
        final(iter).text() == old(iter).text(),
        pushed_agrees(r, old(tokens)@, final(tokens)@, read_comment(old(iter).text(), old(iter).pos()), final(iter).pos()),
{
    let ghost s = iter.text();
    let ghost p0 = iter.pos();
    if iter.current().is_none() {
        return Err(fail_here(iter, ErrorKind::UnexpectedEndOfInput));
    }
    if iter.next() != Some('-') {
        return consume_dtd(iter, tokens);
    }
    match iter.next() {
        None => {
            return Err(fail_here(iter, ErrorKind::UnexpectedEndOfInput));
        },
        Some(c) => {
            if c != '-' {
                return Err(fail_here(iter, ErrorKind::MalformedComment));
            }
        },
    }
    iter.next();
    let mut content = String::new();
    let mut pending: usize = 0;
    loop
        invariant
            s == old(iter).text(),
            p0 == old(iter).pos(),
            tokens@ == old(tokens)@,
            iter.wf(),
            iter.text() == s,
            iter.pos() >= 0,
            pending <= iter.pos(),
            comment_from(s, iter.pos(), content@, pending as nat) == comment_from(s, p0 + 3, Seq::empty(), 0),
            read_comment(s, p0) == (match comment_from(s, p0 + 3, Seq::empty(), 0) {
                Err(e) => Err(e),
                Ok((c, q)) => Ok((seq![TokenView::Comment(c)], q)),
            }),
        decreases s.len() - iter.pos(),
    {
        match iter.current() {
            None => {
                return Err(fail_here(iter, ErrorKind::UnexpectedEndOfInput));
            },
            Some(c) => {
                if c == '>' {
                    if pending != 2 {
                        return Err(fail_here(iter, ErrorKind::MalformedCommentEnd));
                    }
                    iter.next();
                    let t = Token::Comment(content);
                    proof {
                        lemma_view_push(tokens@, t);
                    }
                    tokens.push(t);
                    return Ok(());
                } else if c == '-' {
                    pending = pending + 1;
                } else {
                    let ghost before = content@;
                    let mut k: usize = 0;
                    while k < pending
                        invariant
                            k <= pending,
                            content@ == before + dashes(k as nat),
                        decreases pending - k,
                    {
                        push_char(&mut content, '-');
                        k = k + 1;
                        proof {
                            assert(content@ =~= before + dashes(k as nat));
                        }
                    }
                    push_char(&mut content, c);
                    proof {
                        assert(content@ =~= before + dashes(pending as nat) + seq![c]);
                    }
                    pending = 0;
                }
            },
        }
        iter.next();
    }
}

/// Reads a DOCTYPE declaration whose keyword is current (just past `<!`)
/// and appends its token.
pub fn consume_dtd(iter: &mut XmlChars, tokens: &mut Vec<Token>) -> (r: Result<(), ParseError>)
    requires
        old(iter).wf(),
        old(iter).pos() >= 0,
    ensures
        final(iter).wf(),
        final(iter).text() == old(iter).text(),
        pushed_agrees(r, old(tokens)@, final(tokens)@, read_doctype(old(iter).text(), old(iter).pos()), final(iter).pos()),
{
    let ghost s = iter.text();
    let ghost p0 = iter.pos();
    let (ns, keyword) = match consume_name(iter) {
        Ok(n) => n,
        Err(e) => return Err(e),
    };
    proof {
        lemma_name_from(s, p0, None, Seq::empty());
        lemma_skip_ws(s, iter.pos());
    }
    if ns.is_some() || !same(&keyword, "DOCTYPE") {
        return Err(fail_here(iter, ErrorKind::MalformedXml));
    }
    consume_white_spaces(iter);
    let ghost p2 = iter.pos();
    let (root_ns, root) = match consume_name(iter) {
        Ok(n) => n,
        Err(e) => return Err(e),
    };
    proof {
        lemma_name_from(s, p2, None, Seq::empty());
        lemma_skip_ws(s, iter.pos());
    }
    consume_white_spaces(iter);
    let url = if iter.current() == Some('"') {
        proof {
            lemma_value_from(s, iter.pos() + 1, Seq::empty());
        }
        let v = match consume_value(iter) {
            Ok(v) => v,
            Err(e) => return Err(e),
        };
        iter.next();
        Some(v)
    } else {
        None
    };
    proof {
        lemma_skip_ws(s, iter.pos());
    }
    consume_white_spaces(iter);
    let content = if iter.current() == Some('[') {
        iter.next();
        proof {
            lemma_raw_until(s, iter.pos(), Seq::empty(), ']');
        }
        let c = match consume_until(iter, ']') {
            Ok(c) => c,
            Err(e) => return Err(e),
        };
        iter.next();
        Some(c)
    } else {
        None
    };
    proof {
        lemma_skip_ws(s, iter.pos());
    }
    consume_white_spaces(iter);
    match iter.current() {
        None => Err(fail_here(iter, ErrorKind::UnexpectedEndOfInput)),
        Some(c) => {
            if c != '>' {
                return Err(fail_here(iter, ErrorKind::MalformedXml));
            }
            iter.next();
            let t = Token::DocType { name: qualify(root_ns, root), content, url };
            proof {
                lemma_view_push(tokens@, t);
            }
            tokens.push(t);
            Ok(())
        },
    }
}

/// A prolog's fields read by `consume_prolog` agree with the model's
/// result `m`, the cursor then at `q`.
pub open spec fn prolog_agrees(r: Result<(String, String, bool), ParseError>, m: PrologResult, q: int) -> bool {
    match m {
        Ok((v, e, sa, p)) => r is Ok && r->Ok_0.0@ == v && r->Ok_0.1@ == e && r->Ok_0.2 == sa && q == p,
        Err(e) => r == Err::<(String, String, bool), ParseError>(e),
    }
}

/// Reads the attributes of a prolog up to its `?`, which is then current,
/// as (version, encoding, standalone). `version` and `encoding` default to
/// `1.0` and `UTF-8`; `standalone` is true when absent and otherwise
/// whether its value is exactly `true`.
pub fn consume_prolog(iter: &mut XmlChars) -> (r: Result<(String, String, bool), ParseError>)
    requires
        old(iter).wf(),
        old(iter).pos() >= 0,
    ensures
        final(iter).wf(),
        final(iter).text() == old(iter).text(),
        prolog_agrees(r, prolog_from(old(iter).text(), old(iter).pos(), "1.0"@, "UTF-8"@, true), final(iter).pos()),
{
    let ghost s = iter.text();
    let ghost p0 = iter.pos();
    let mut version = "1.0".to_string();
    let mut encoding = "UTF-8".to_string();
    let mut standalone = true;
    loop
        invariant
            s == old(iter).text(),
            p0 == old(iter).pos(),
            iter.wf(),
            iter.text() == s,
            iter.pos() >= 0,
            prolog_from(s, iter.pos(), version@, encoding@, standalone) == prolog_from(s, p0, "1.0"@, "UTF-8"@, true),
        decreases s.len() - iter.pos(),
    {
        proof {
            lemma_skip_ws(s, iter.pos());
        }
        consume_white_spaces(iter);
        if iter.current() == Some('?') {
            return Ok((version, encoding, standalone));
        }
        proof {
            lemma_attribute(s, iter.pos());
        }
        match consume_attribute(iter) {
            Err(e) => {
                return Err(e);
            },
            Ok((ns, name, value)) => {
                if ns.is_none() {
                    if same(&name, "version") {
                        if let Some(v) = value {
                            version = v;
                        }
                    } else if same(&name, "encoding") {
                        if let Some(v) = value {
                            encoding = v;
                        }
                    } else if same(&name, "standalone") {
                        standalone = match value {
                            Some(v) => same(&v, "true"),
                            None => false,
                        };
                    }
                }
            },
        }
    }
}

/// Reads the content of a processing instruction up to its `?`, which is
/// then current.
pub fn consume_pi(iter: &mut XmlChars) -> (r: Result<String, ParseError>)
    requires
        old(iter).wf(),
        old(iter).pos() >= 0,
    ensures
        final(iter).wf(),
        final(iter).text() == old(iter).text(),
        string_agrees(r, raw_until(old(iter).text(), old(iter).pos(), Seq::empty(), '?'), final(iter).pos()),
{
    consume_until(iter, '?')
}

/// Reads a prolog or processing instruction whose target name is current
/// (just past `<?`), through its closing `?>`, and appends its token.
pub fn consume_instruction(iter: &mut XmlChars, tokens: &mut Vec<Token>) -> (r: Result<(), ParseError>)
    requires
        old(iter).wf(),
        old(iter).pos() >= 0,
    ensures
        final(iter).wf(),
        final(iter).text() == old(iter).text(),
        pushed_agrees(r, old(tokens)@, final(tokens)@, read_pi(old(iter).text(), old(iter).pos()), final(iter).pos()),
{
    let ghost s = iter.text();
    let ghost p0 = iter.pos();
    let (ns, name) = match consume_name(iter) {
        Ok(n) => n,
        Err(e) => return Err(e),
    };
    proof {
        lemma_name_from(s, p0, None, Seq::empty());
    }
    if ns.is_some() {
        return Err(fail_here(iter, ErrorKind::MalformedProcessingInstruction));
    }
    let t = if same(&name, "xml") {
        proof {
            lemma_prolog_from(s, iter.pos(), "1.0"@, "UTF-8"@, true);
        }
        match consume_prolog(iter) {
            Ok((version, encoding, standalone)) => Token::Prolog { version, encoding, standalone },
            Err(e) => return Err(e),
        }
    } else {
        proof {
            lemma_raw_until(s, iter.pos(), Seq::empty(), '?');
        }
        match consume_pi(iter) {
            Ok(content) => Token::ProcessingInstruction { name, content },
            Err(e) => return Err(e),
        }
    };
    match iter.next() {
        None => Err(fail_here(iter, ErrorKind::UnexpectedEndOfInput)),
        Some(c) => {
            if c != '>' {
                return Err(fail_here(iter, ErrorKind::MalformedPrologEnd));
            }
            iter.next();
            proof {
                lemma_view_push(tokens@, t);
            }
            tokens.push(t);
            Ok(())
        },
    }
}

/// Reads a prolog or processing instruction whose opening `<` is current.
pub fn consume_processing_instruction(iter: &mut XmlChars, tokens: &mut Vec<Token>) -> (r: Result<(), ParseError>)
    requires
        old(iter).wf(),
        old(iter).pos() >= 0,
    ensures
        final(iter).wf(),
        final(iter).text() == old(iter).text(),
        pushed_agrees(
            r,
            old(tokens)@,
            final(tokens)@,
            read_processing_instruction(old(iter).text(), old(iter).pos()),
            final(iter).pos(),
        ),
{
    if iter.current().is_none() {
        return Err(fail_here(iter, ErrorKind::UnexpectedEndOfInput));
    }
    match iter.next() {
        None => Err(fail_here(iter, ErrorKind::UnexpectedEndOfInput)),
        Some(c) => {
            if c != '?' {
                return Err(fail_here(iter, ErrorKind::MalformedProcessingInstruction));
            }
            iter.next();
            consume_instruction(iter, tokens)
        },
    }
}

} // verus!
