use vstd::prelude::*;
use crate::cursor::XmlChars;
use crate::grammar::{lemma_attribute, lemma_name_from, lemma_skip_ws};
use crate::markup::{read_end, read_start, tag_rest};
use crate::scanner::{
    consume_attribute, consume_name, consume_white_spaces, fail_here, lemma_view_push, pushed_agrees,
};
use crate::token::{ErrorKind, ParseError, Token, TokenView, opt_view, tokens_view};

verus! {

fn copy_name(ns: &Option<String>, name: &String) -> (r: (Option<String>, String))
    ensures
        opt_view(r.0) == opt_view(*ns),
        r.1@ == name@,
{
    let ns_copy = match ns {
        Some(n) => Some(n.clone()),
        None => None,
    };
    (ns_copy, name.clone())
}

/// Reads an end tag whose name is current (just past `</`), through its
/// `>`, and appends its `End` token.
pub fn consume_end_tag(iter: &mut XmlChars, tokens: &mut Vec<Token>) -> (r: Result<(), ParseError>)
    requires
        old(iter).wf(),
        old(iter).pos() >= 0,
    ensures
        final(iter).wf(),
        final(iter).text() == old(iter).text(),
        pushed_agrees(r, old(tokens)@, final(tokens)@, read_end(old(iter).text(), old(iter).pos()), final(iter).pos()),
{
    let ghost s = iter.text();
    let ghost p0 = iter.pos();
    let (ns, name) = match consume_name(iter) {
        Ok(n) => n,
        Err(e) => return Err(e),
    };
    proof {
        lemma_name_from(s, p0, None, Seq::empty());
        lemma_skip_ws(s, iter.pos());
    }
    consume_white_spaces(iter);
    match iter.current() {
        None => Err(fail_here(iter, ErrorKind::UnexpectedEndOfInput)),
        Some(c) => {
            if c != '>' {
                return Err(fail_here(iter, ErrorKind::MalformedTag));
            }
            iter.next();
            let t = Token::End { ns, name };
            proof {
                lemma_view_push(tokens@, t);
            }
            tokens.push(t);
            Ok(())
        },
    }
}

/// Reads a start tag whose name is current (just past `<`), its attributes,
/// and its closing `>` or `/>`. Appends `Start`, one `Attr` per attribute,
/// and, for `/>`, an `End` with the same name.
pub fn consume_start_tag(iter: &mut XmlChars, tokens: &mut Vec<Token>) -> (r: Result<(), ParseError>)
    requires
        old(iter).wf(),
        old(iter).pos() >= 0,
    ensures
        final(iter).wf(),
        final(iter).text() == old(iter).text(),
        pushed_agrees(r, old(tokens)@, final(tokens)@, read_start(old(iter).text(), old(iter).pos()), final(iter).pos()),
{
    let ghost s = iter.text();
    let ghost p0 = iter.pos();
    let (ns, name) = match consume_name(iter) {
        Ok(n) => n,
        Err(e) => return Err(e),
    };
    proof {
        lemma_name_from(s, p0, None, Seq::empty());
    }
    let ghost p1 = iter.pos();
    let ghost start = TokenView::Start { ns: opt_view(ns), name: name@ };
    let ghost end = TokenView::End { ns: opt_view(ns), name: name@ };
    let (end_ns, end_name) = copy_name(&ns, &name);
    let t = Token::Start { ns, name };
    proof {
        lemma_view_push(tokens@, t);
    }
    tokens.push(t);
    let ghost base = tokens_view(tokens@);
    let ghost mut attrs: Seq<TokenView> = Seq::empty();
    loop
        invariant
            s == old(iter).text(),
            iter.wf(),
            iter.text() == s,
            0 <= p1 <= iter.pos(),
            base == tokens_view(old(tokens)@) + seq![start],
            tokens_view(tokens@) == base + attrs,
            end == (TokenView::End { ns: opt_view(end_ns), name: end_name@ }),
            tag_rest(s, iter.pos(), attrs) == tag_rest(s, p1, Seq::empty()),
            read_start(s, p0) == (match tag_rest(s, p1, Seq::empty()) {
                Err(e) => Err(e),
                Ok((a, closed, q)) => Ok((seq![start] + a + (if closed {
                    seq![end]
                } else {
                    Seq::empty()
                }), q)),
            }),
            read_start(s, p0) is Ok ==> (read_start(s, p0)->Ok_0.1 == tag_rest(s, p1, Seq::empty())->Ok_0.2),
            p0 == old(iter).pos(),
        decreases s.len() - iter.pos(),
    {
        proof {
            lemma_skip_ws(s, iter.pos());
        }
        consume_white_spaces(iter);
        match iter.current() {
            None => {
                return Err(fail_here(iter, ErrorKind::UnexpectedEndOfInput));
            },
            Some(c) => {
                if c == '>' {
                    iter.next();
                    proof {
                        assert(tokens_view(tokens@) =~= tokens_view(old(tokens)@) + (seq![start] + attrs
                            + Seq::empty()));
                    }
                    return Ok(());
                } else if c == '/' {
                    match iter.next() {
                        None => {
                            return Err(fail_here(iter, ErrorKind::UnexpectedEndOfInput));
                        },
                        Some(c2) => {
                            if c2 != '>' {
                                return Err(fail_here(iter, ErrorKind::MalformedTag));
                            }
                            iter.next();
                            let t = Token::End { ns: end_ns, name: end_name };
                            proof {
                                lemma_view_push(tokens@, t);
                                assert(tokens_view(tokens@.push(t)) =~= tokens_view(old(tokens)@) + (
                                seq![start] + attrs + seq![end]));
                            }
                            tokens.push(t);
                            return Ok(());
                        },
                    }
                } else {
                    proof {
                        lemma_attribute(s, iter.pos());
                    }
                    match consume_attribute(iter) {
                        Err(e) => {
                            return Err(e);
                        },
                        Ok((a_ns, a_name, a_value)) => {
                            let t = Token::Attr { ns: a_ns, name: a_name, value: a_value };
                            proof {
                                lemma_view_push(tokens@, t);
                                attrs = attrs.push(t@);
                                assert(tokens_view(tokens@.push(t)) =~= base + attrs);
                            }
                            tokens.push(t);
                        },
                    }
                }
            },
        }
    }
}

} // verus!
