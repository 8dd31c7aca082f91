use vstd::prelude::*;
use crate::driver::parse_agrees;
use crate::grammar::{fail, is_illegal_spec, is_name_end, name_from, read_attribute, skip_ws};
use crate::locality::{agree, ends_in_text, lemma_tokens_move, lemma_tokens_prefix};
use crate::markup::{tokenize_spec, tokens_from};
use crate::token::{ErrorKind, ParseError, Token, TokenView, tokens_view};

verus! {

/// Tokenizing the same text twice gives the same outcome: equal token
/// sequences, character for character, or the same failure.
pub proof fn law_parse_repeatable(
    text: Seq<char>,
    r1: Result<Vec<Token>, ParseError>,
    r2: Result<Vec<Token>, ParseError>,
)
    requires
        parse_agrees(text, r1),
        parse_agrees(text, r2),
    ensures
        r1 is Ok <==> r2 is Ok,
        r1 is Ok ==> tokens_view(r1->Ok_0@) == tokens_view(r2->Ok_0@),
        r1 is Err ==> r1 == r2,
{
}

/// A character that can continue a name without ending or splitting it.
pub open spec fn plain_name_char(c: char) -> bool {
    !is_name_end(c) && c != ':' && !is_illegal_spec(c)
}

proof fn lemma_name_runs_out(s: Seq<char>, p: int, acc: Seq<char>)
    requires
        0 <= p <= s.len(),
        forall|i: int| p <= i < s.len() ==> plain_name_char(#[trigger] s[i]),
    ensures
        name_from(s, p, None, acc) == Err::<(Option<Seq<char>>, Seq<char>, int), ParseError>(
            fail(ErrorKind::UnexpectedEndOfInput, s.len() as int),
        ),
    decreases s.len() - p,
{
    if p < s.len() {
        lemma_name_runs_out(s, p + 1, acc.push(s[p]));
    }
}

/// An attribute name that runs to the end of the input, with no `=` and no
/// terminator after it, fails with `UnexpectedEndOfInput` at the end of the
/// input rather than giving a truncated name.
pub proof fn law_name_at_end_of_input(s: Seq<char>, p: int)
    requires
        0 <= p < s.len(),
        forall|i: int| p <= i < s.len() ==> plain_name_char(#[trigger] s[i]),
    ensures
        read_attribute(s, p) == Err::<(crate::token::TokenView, int), ParseError>(
            fail(ErrorKind::UnexpectedEndOfInput, s.len() as int),
        ),
{
    assert(skip_ws(s, p) == p);
    lemma_name_runs_out(s, p, Seq::empty());
}

/// Tokens are produced in source order: the tokens of `x` followed by `y`
/// are the tokens of `x` followed by the tokens of `y`, provided no run of
/// text straddles the seam (`y` is empty, opens with markup, or `x` does
/// not end in text).
pub proof fn law_tokens_concatenate(x: Seq<char>, y: Seq<char>)
    requires
        tokenize_spec(x) is Ok,
        tokenize_spec(y) is Ok,
        y.len() == 0 || y[0] == '<' || !ends_in_text(tokenize_spec(x)->Ok_0),
    ensures
        tokenize_spec(x + y) == Ok::<Seq<TokenView>, ParseError>(
            tokenize_spec(x)->Ok_0 + tokenize_spec(y)->Ok_0,
        ),
{
    let s = x + y;
    let a = tokenize_spec(x)->Ok_0;
    let b = tokenize_spec(y)->Ok_0;
    assert(agree(x, s, 0, 0));
    if y.len() > 0 {
        assert(s[x.len() as int] == y[0]);
    }
    lemma_tokens_move(x, s, 0, 0, Seq::empty());
    lemma_tokens_prefix(y, 0, a);
    assert(agree(y, s, x.len() as int, 0));
    lemma_tokens_move(y, s, x.len() as int, 0, a);
}

/// `<n>`
pub open spec fn open_tag(n: Seq<char>) -> Seq<char> {
    seq!['<'] + n + seq!['>']
}

/// `</n>`
pub open spec fn close_tag(n: Seq<char>) -> Seq<char> {
    seq!['<', '/'] + n + seq!['>']
}

/// A name without prefix: one or more plain name characters.
pub open spec fn plain_name(n: Seq<char>) -> bool {
    n.len() > 0 && forall|i: int| 0 <= i < n.len() ==> plain_name_char(#[trigger] n[i])
}

proof fn lemma_plain_name(s: Seq<char>, p: int, k: int, acc: Seq<char>)
    requires
        0 <= p <= k < s.len(),
        forall|i: int| p <= i < k ==> plain_name_char(#[trigger] s[i]),
        is_name_end(s[k]),
        acc.len() + (k - p) > 0,
    ensures
        name_from(s, p, None, acc) == Ok::<(Option<Seq<char>>, Seq<char>, int), ParseError>(
            (None, acc + s.subrange(p, k), k),
        ),
    decreases k - p,
{
    if p < k {
        lemma_plain_name(s, p + 1, k, acc.push(s[p]));
        assert(acc.push(s[p]) + s.subrange(p + 1, k) =~= acc + s.subrange(p, k));
    } else {
        assert(acc + s.subrange(p, k) =~= acc);
    }
}

proof fn lemma_open_tag(n: Seq<char>)
    requires
        plain_name(n),
    ensures
        tokenize_spec(open_tag(n)) == Ok::<Seq<TokenView>, ParseError>(seq![TokenView::Start { ns: None, name: n }]),
{
    let s = open_tag(n);
    let k = n.len() as int;
    assert(s.len() == k + 2);
    assert(s[1] == n[0]);
    assert(s[k + 1] == '>');
    assert forall|i: int| 1 <= i < k + 1 implies plain_name_char(#[trigger] s[i]) by {
        assert(s[i] == n[i - 1]);
    }
    lemma_plain_name(s, 1, k + 1, Seq::empty());
    assert(Seq::<char>::empty() + s.subrange(1, k + 1) =~= n);
    let start = seq![TokenView::Start { ns: None, name: n }];
    assert(start + Seq::<TokenView>::empty() + Seq::<TokenView>::empty() =~= start);
    assert(Seq::<TokenView>::empty() + start =~= start);
    assert(tokens_from(s, k + 2, start) == Ok::<Seq<TokenView>, ParseError>(start));
}

proof fn lemma_close_tag(n: Seq<char>)
    requires
        plain_name(n),
    ensures
        tokenize_spec(close_tag(n)) == Ok::<Seq<TokenView>, ParseError>(seq![TokenView::End { ns: None, name: n }]),
{
    let s = close_tag(n);
    let k = n.len() as int;
    assert(s.len() == k + 3);
    assert(s[1] == '/');
    assert(s[k + 2] == '>');
    assert forall|i: int| 2 <= i < k + 2 implies plain_name_char(#[trigger] s[i]) by {
        assert(s[i] == n[i - 2]);
    }
    lemma_plain_name(s, 2, k + 2, Seq::empty());
    assert(Seq::<char>::empty() + s.subrange(2, k + 2) =~= n);
    let end = seq![TokenView::End { ns: None, name: n }];
    assert(Seq::<TokenView>::empty() + end =~= end);
    assert(tokens_from(s, k + 3, end) == Ok::<Seq<TokenView>, ParseError>(end));
}

/// An element's start and end tags are paired around its content, in
/// source order: `<n>` + content + `</n>` gives `Start n`, the content's
/// tokens, then `End n`.
pub proof fn law_element_wraps(n: Seq<char>, inner: Seq<char>)
    requires
        plain_name(n),
        tokenize_spec(inner) is Ok,
    ensures
        tokenize_spec(open_tag(n) + inner + close_tag(n)) == Ok::<Seq<TokenView>, ParseError>(
            seq![TokenView::Start { ns: None, name: n }] + tokenize_spec(inner)->Ok_0 + seq![
                TokenView::End { ns: None, name: n },
            ],
        ),
{
    lemma_open_tag(n);
    lemma_close_tag(n);
    law_tokens_concatenate(open_tag(n), inner);
    assert(close_tag(n)[0] == '<');
    law_tokens_concatenate(open_tag(n) + inner, close_tag(n));
}

} // verus!
