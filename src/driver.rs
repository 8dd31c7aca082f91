use vstd::prelude::*;
use crate::cursor::XmlChars;
use crate::markup::{
    lemma_markup, lemma_text_from, read_markup, text_from, tokenize_spec, tokens_from,
};
use crate::reader::{consume_comment, consume_instruction};
use crate::scanner::{fail_here, lemma_view_push, pushed_agrees};
use crate::tags::{consume_end_tag, consume_start_tag};
use crate::text::push_char;
use crate::token::{ErrorKind, ParseError, Token, TokenView, tokens_view};

verus! {

/// Reads a run of text up to the next `<` or the end and appends it as a
/// `Text` token.
pub fn consume_text(iter: &mut XmlChars, tokens: &mut Vec<Token>)
    requires
        old(iter).wf(),
        old(iter).pos() >= 0,
    ensures
        final(iter).wf(),
        final(iter).text() == old(iter).text(),
        ({
            let (t, q) = text_from(old(iter).text(), old(iter).pos(), Seq::empty());
            tokens_view(final(tokens)@) == tokens_view(old(tokens)@) + seq![TokenView::Text(t)]
                && final(iter).pos() == q
        }),
{
    let ghost s = iter.text();
    let ghost p0 = iter.pos();
    let mut text = String::new();
    loop
        invariant
            s == old(iter).text(),
            p0 == old(iter).pos(),
            tokens@ == old(tokens)@,
            iter.wf(),
            iter.text() == s,
            iter.pos() >= 0,
            text_from(s, iter.pos(), text@) == text_from(s, p0, Seq::empty()),
        ensures
            tokens@ == old(tokens)@,
            iter.wf(),
            iter.text() == s,
            text_from(s, p0, Seq::empty()) == (text@, iter.pos()),
        decreases s.len() - iter.pos(),
    {
        let c = match iter.current() {
            None => break,
            Some(c) => c,
        };
        if c == '<' {
            break;
        }
        push_char(&mut text, c);
        iter.next();
    }
    let t = Token::Text(text);
    proof {
        lemma_view_push(tokens@, t);
    }
    tokens.push(t);
}

/// Reads the construct opened by the current `<`: a comment or DOCTYPE
/// after `<!`, a prolog or processing instruction after `<?`, an end tag
/// after `</`, and a start tag otherwise. Appends its tokens.
pub fn consume_entity(iter: &mut XmlChars, tokens: &mut Vec<Token>) -> (r: Result<(), ParseError>)
    requires
        old(iter).wf(),
        old(iter).pos() >= 0,
    ensures
        final(iter).wf(),
        final(iter).text() == old(iter).text(),
        pushed_agrees(r, old(tokens)@, final(tokens)@, read_markup(old(iter).text(), old(iter).pos()), final(iter).pos()),
{
    if iter.current().is_none() {
        return Err(fail_here(iter, ErrorKind::UnexpectedEndOfInput));
    }
    match iter.next() {
        None => Err(fail_here(iter, ErrorKind::UnexpectedEndOfInput)),
        Some(c) => {
            if c == '!' {
                consume_comment(iter, tokens)
            } else if c == '?' {
                iter.next();
                consume_instruction(iter, tokens)
            } else if c == '/' {
                iter.next();
                consume_end_tag(iter, tokens)
            } else {
                consume_start_tag(iter, tokens)
            }
        },
    }
}

/// Tokenizes the text from the current character to the end, appending the
/// tokens in source order; stops at the first failure.
pub fn tokenizer(iter: &mut XmlChars, tokens: &mut Vec<Token>) -> (r: Result<(), ParseError>)
    requires
        old(iter).wf(),
        old(iter).pos() >= 0,
    ensures
        final(iter).wf(),
        final(iter).text() == old(iter).text(),
        match tokens_from(old(iter).text(), old(iter).pos(), tokens_view(old(tokens)@)) {
            Ok(ts) => r is Ok && tokens_view(final(tokens)@) == ts,
            Err(e) => r == Err::<(), ParseError>(e),
        },
{
    let ghost s = iter.text();
    let ghost m = tokens_from(s, iter.pos(), tokens_view(tokens@));
    loop
        invariant
            s == old(iter).text(),
            m == tokens_from(s, old(iter).pos(), tokens_view(old(tokens)@)),
            iter.wf(),
            iter.text() == s,
            iter.pos() >= 0,
            tokens_from(s, iter.pos(), tokens_view(tokens@)) == m,
        decreases s.len() - iter.pos(),
    {
        match iter.current() {
            None => {
                return Ok(());
            },
            Some(c) => {
                if c == '<' {
                    proof {
                        lemma_markup(s, iter.pos());
                    }
                    match consume_entity(iter, tokens) {
                        Err(e) => {
                            return Err(e);
                        },
                        Ok(()) => {},
                    }
                } else {
                    proof {
                        lemma_text_from(s, iter.pos(), Seq::empty());
                    }
                    consume_text(iter, tokens);
                }
            },
        }
    }
}

/// `r` is what tokenizing `text` gives.
pub open spec fn parse_agrees(text: Seq<char>, r: Result<Vec<Token>, ParseError>) -> bool {
    match tokenize_spec(text) {
        Ok(ts) => r is Ok && tokens_view(r->Ok_0@) == ts,
        Err(e) => r == Err::<Vec<Token>, ParseError>(e),
    }
}

/// Tokenizes a whole XML text: the full token sequence in source order, or
/// the first failure.
pub fn parse(xml_contents: &str) -> (r: Result<Vec<Token>, ParseError>)
    ensures
        parse_agrees(xml_contents@, r),
{
    let mut iter = XmlChars::new(xml_contents);
    iter.next();
    let mut tokens: Vec<Token> = Vec::new();
    proof {
        assert(tokens_view(tokens@) =~= Seq::empty());
    }
    match tokenizer(&mut iter, &mut tokens) {
        Ok(()) => Ok(tokens),
        Err(e) => Err(e),
    }
}

} // verus!
