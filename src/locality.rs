use vstd::prelude::*;
use crate::grammar::{
    NameResult, char_at, is_illegal_spec, is_name_end, is_white, lemma_attribute, lemma_name_from,
    lemma_skip_ws, lemma_value_from, name_from, read_attribute, read_name, skip_ws, value_from,
};
use crate::markup::{
    PrologResult, ReadResult, TagRestResult, TextResult, comment_from, dashes, doctype_subset,
    doctype_url, fold_prolog, lemma_markup, lemma_prolog_from, lemma_raw_until, lemma_tag_rest,
    lemma_text_from, prolog_from, raw_until, read_comment, read_doctype, read_end, read_markup, read_pi,
    read_start, tag_rest, text_from, tokens_from,
};
use crate::token::{ParseError, TokenView};

verus! {

// A successful read depends only on the characters it passed over: the same
// characters placed `d` further on, in another text, read the same way.

/// From `p` to its end, `s1` stands in `s2` shifted by `d`.
pub open spec fn agree(s1: Seq<char>, s2: Seq<char>, d: int, p: int) -> bool {
    &&& 0 <= p <= s1.len()
    &&& 0 <= d
    &&& s1.len() + d <= s2.len()
    &&& forall|i: int| p <= i < s1.len() ==> s2[i + d] == #[trigger] s1[i]
}

/// `s2` ends where the shifted `s1` ends.
pub open spec fn ends(s1: Seq<char>, s2: Seq<char>, d: int) -> bool {
    s1.len() + d == s2.len()
}

pub open spec fn moved_name(r: NameResult, d: int) -> NameResult {
    match r {
        Ok((ns, n, q)) => Ok((ns, n, q + d)),
        Err(e) => Err(e),
    }
}

pub open spec fn moved_text(r: TextResult, d: int) -> TextResult {
    match r {
        Ok((t, q)) => Ok((t, q + d)),
        Err(e) => Err(e),
    }
}

pub open spec fn moved_read(r: ReadResult, d: int) -> ReadResult {
    match r {
        Ok((t, q)) => Ok((t, q + d)),
        Err(e) => Err(e),
    }
}

pub open spec fn moved_one(r: Result<(TokenView, int), ParseError>, d: int) -> Result<(TokenView, int), ParseError> {
    match r {
        Ok((t, q)) => Ok((t, q + d)),
        Err(e) => Err(e),
    }
}

pub open spec fn moved_opt(r: Result<(Option<Seq<char>>, int), ParseError>, d: int) -> Result<(Option<Seq<char>>, int), ParseError> {
    match r {
        Ok((t, q)) => Ok((t, q + d)),
        Err(e) => Err(e),
    }
}

pub open spec fn moved_prolog(r: PrologResult, d: int) -> PrologResult {
    match r {
        Ok((v, e, sa, q)) => Ok((v, e, sa, q + d)),
        Err(e) => Err(e),
    }
}

pub open spec fn moved_tag(r: TagRestResult, d: int) -> TagRestResult {
    match r {
        Ok((a, c, q)) => Ok((a, c, q + d)),
        Err(e) => Err(e),
    }
}

pub proof fn lemma_skip_ws_moves(s1: Seq<char>, s2: Seq<char>, d: int, p: int)
    requires
        agree(s1, s2, d, p),
        skip_ws(s1, p) < s1.len() || ends(s1, s2, d),
    ensures
        skip_ws(s2, p + d) == skip_ws(s1, p) + d,
    decreases s1.len() - p,
{
    if p < s1.len() {
        assert(s2[p + d] == s1[p]);
        if is_white(s1[p]) {
            lemma_skip_ws_moves(s1, s2, d, p + 1);
        }
    }
}

pub proof fn lemma_name_moves(s1: Seq<char>, s2: Seq<char>, d: int, p: int, ns: Option<Seq<char>>, acc: Seq<char>)
    requires
        agree(s1, s2, d, p),
        name_from(s1, p, ns, acc) is Ok,
    ensures
        name_from(s2, p + d, ns, acc) == moved_name(name_from(s1, p, ns, acc), d),
    decreases s1.len() - p,
{
    if p < s1.len() {
        assert(s2[p + d] == s1[p]);
        if !is_name_end(s1[p]) {
            if s1[p] == ':' {
                if ns is None {
                    lemma_name_moves(s1, s2, d, p + 1, Some(acc), Seq::empty());
                }
            } else if !is_illegal_spec(s1[p]) {
                lemma_name_moves(s1, s2, d, p + 1, ns, acc.push(s1[p]));
            }
        }
    }
}

pub proof fn lemma_value_moves(s1: Seq<char>, s2: Seq<char>, d: int, p: int, acc: Seq<char>)
    requires
        agree(s1, s2, d, p),
        value_from(s1, p, acc) is Ok,
    ensures
        value_from(s2, p + d, acc) == moved_text(value_from(s1, p, acc), d),
    decreases s1.len() - p,
{
    if p < s1.len() {
        assert(s2[p + d] == s1[p]);
        if s1[p] != '"' {
            if s1[p] == '\\' {
                if p + 1 < s1.len() {
                    assert(s2[p + 1 + d] == s1[p + 1]);
                    lemma_value_moves(s1, s2, d, p + 2, acc.push('\\').push(s1[p + 1]));
                }
            } else {
                lemma_value_moves(s1, s2, d, p + 1, acc.push(s1[p]));
            }
        }
    }
}

pub proof fn lemma_attribute_moves(s1: Seq<char>, s2: Seq<char>, d: int, p: int)
    requires
        agree(s1, s2, d, p),
        read_attribute(s1, p) is Ok,
        read_attribute(s1, p)->Ok_0.1 < s1.len() || ends(s1, s2, d),
    ensures
        read_attribute(s2, p + d) == moved_one(read_attribute(s1, p), d),
{
    let p1 = skip_ws(s1, p);
    lemma_skip_ws(s1, p);
    lemma_name_from(s1, p1, None, Seq::empty());
    lemma_skip_ws_moves(s1, s2, d, p);
    lemma_name_moves(s1, s2, d, p1, None, Seq::empty());
    let (ns, name, p2) = read_name(s1, p1)->Ok_0;
    lemma_skip_ws(s1, p2);
    let p3 = skip_ws(s1, p2);
    if char_at(s1, p3) == Some('=') {
        lemma_skip_ws_moves(s1, s2, d, p2);
        assert(s2[p3 + d] == s1[p3]);
        lemma_skip_ws(s1, p3 + 1);
        let p4 = skip_ws(s1, p3 + 1);
        lemma_skip_ws_moves(s1, s2, d, p3 + 1);
        assert(s2[p4 + d] == s1[p4]);
        lemma_value_moves(s1, s2, d, p4 + 1, Seq::empty());
    } else {
        lemma_skip_ws_moves(s1, s2, d, p2);
        if p3 < s1.len() {
            assert(s2[p3 + d] == s1[p3]);
        }
    }
}

pub proof fn lemma_comment_moves(s1: Seq<char>, s2: Seq<char>, d: int, p: int, acc: Seq<char>, n: nat)
    requires
        agree(s1, s2, d, p),
        comment_from(s1, p, acc, n) is Ok,
    ensures
        comment_from(s2, p + d, acc, n) == moved_text(comment_from(s1, p, acc, n), d),
    decreases s1.len() - p,
{
    if p < s1.len() {
        assert(s2[p + d] == s1[p]);
        if s1[p] != '>' {
            if s1[p] == '-' {
                lemma_comment_moves(s1, s2, d, p + 1, acc, n + 1);
            } else {
                lemma_comment_moves(s1, s2, d, p + 1, acc + dashes(n) + seq![s1[p]], 0);
            }
        }
    }
}

pub proof fn lemma_raw_moves(s1: Seq<char>, s2: Seq<char>, d: int, p: int, acc: Seq<char>, stop: char)
    requires
        agree(s1, s2, d, p),
        raw_until(s1, p, acc, stop) is Ok,
    ensures
        raw_until(s2, p + d, acc, stop) == moved_text(raw_until(s1, p, acc, stop), d),
    decreases s1.len() - p,
{
    if p < s1.len() {
        assert(s2[p + d] == s1[p]);
        if s1[p] != stop {
            lemma_raw_moves(s1, s2, d, p + 1, acc.push(s1[p]), stop);
        }
    }
}

proof fn lemma_doctype_parts(s: Seq<char>, p: int)
    requires
        0 <= p <= s.len(),
    ensures
        doctype_url(s, p) matches Ok((_, q)) ==> p <= q <= s.len(),
        doctype_subset(s, p) matches Ok((_, q)) ==> p <= q <= s.len(),
{
    lemma_value_from(s, p + 1, Seq::empty());
    lemma_raw_until(s, p + 1, Seq::empty(), ']');
}

pub proof fn lemma_doctype_moves(s1: Seq<char>, s2: Seq<char>, d: int, p: int)
    requires
        agree(s1, s2, d, p),
        read_doctype(s1, p) is Ok,
    ensures
        read_doctype(s2, p + d) == moved_read(read_doctype(s1, p), d),
{
    lemma_name_from(s1, p, None, Seq::empty());
    lemma_name_moves(s1, s2, d, p, None, Seq::empty());
    let (ns, kw, p1) = read_name(s1, p)->Ok_0;
    lemma_skip_ws(s1, p1);
    let p2 = skip_ws(s1, p1);
    lemma_name_from(s1, p2, None, Seq::empty());
    lemma_skip_ws_moves(s1, s2, d, p1);
    lemma_name_moves(s1, s2, d, p2, None, Seq::empty());
    let (rns, root, p3) = read_name(s1, p2)->Ok_0;
    lemma_skip_ws(s1, p3);
    let p3s = skip_ws(s1, p3);
    lemma_doctype_parts(s1, p3s);
    let (url, p4) = doctype_url(s1, p3s)->Ok_0;
    lemma_skip_ws(s1, p4);
    let p4s = skip_ws(s1, p4);
    lemma_doctype_parts(s1, p4s);
    let (content, p5) = doctype_subset(s1, p4s)->Ok_0;
    lemma_skip_ws(s1, p5);
    let p6 = skip_ws(s1, p5);
    assert(p6 < s1.len());
    lemma_skip_ws_moves(s1, s2, d, p3);
    assert(s2[p3s + d] == s1[p3s]);
    if char_at(s1, p3s) == Some('"') {
        lemma_value_moves(s1, s2, d, p3s + 1, Seq::empty());
    }
    lemma_skip_ws_moves(s1, s2, d, p4);
    assert(s2[p4s + d] == s1[p4s]);
    if char_at(s1, p4s) == Some('[') {
        lemma_raw_moves(s1, s2, d, p4s + 1, Seq::empty(), ']');
    }
    lemma_skip_ws_moves(s1, s2, d, p5);
    assert(s2[p6 + d] == s1[p6]);
}

pub proof fn lemma_comment_or_doctype_moves(s1: Seq<char>, s2: Seq<char>, d: int, p: int)
    requires
        agree(s1, s2, d, p),
        read_comment(s1, p) is Ok,
    ensures
        read_comment(s2, p + d) == moved_read(read_comment(s1, p), d),
{
    assert(s2[p + d] == s1[p]);
    if p + 1 < s1.len() {
        assert(s2[p + 1 + d] == s1[p + 1]);
    }
    if char_at(s1, p + 1) != Some('-') {
        lemma_doctype_moves(s1, s2, d, p + 1);
    } else {
        assert(s2[p + 2 + d] == s1[p + 2]);
        lemma_comment_moves(s1, s2, d, p + 3, Seq::empty(), 0);
    }
}

pub proof fn lemma_prolog_moves(s1: Seq<char>, s2: Seq<char>, d: int, p: int, v: Seq<char>, e: Seq<char>, sa: bool)
    requires
        agree(s1, s2, d, p),
        prolog_from(s1, p, v, e, sa) is Ok,
    ensures
        prolog_from(s2, p + d, v, e, sa) == moved_prolog(prolog_from(s1, p, v, e, sa), d),
    decreases s1.len() - p,
{
    lemma_skip_ws(s1, p);
    let p0 = skip_ws(s1, p);
    if char_at(s1, p0) == Some('?') {
        lemma_skip_ws_moves(s1, s2, d, p);
        assert(s2[p0 + d] == s1[p0]);
    } else {
        lemma_attribute(s1, p0);
        let (a, p1) = read_attribute(s1, p0)->Ok_0;
        let f = fold_prolog(a, v, e, sa);
        lemma_prolog_from(s1, p1, f.0, f.1, f.2);
        lemma_skip_ws_moves(s1, s2, d, p);
        if p0 < s1.len() {
            assert(s2[p0 + d] == s1[p0]);
        }
        lemma_attribute_moves(s1, s2, d, p0);
        lemma_prolog_moves(s1, s2, d, p1, f.0, f.1, f.2);
    }
}

pub proof fn lemma_pi_moves(s1: Seq<char>, s2: Seq<char>, d: int, p: int)
    requires
        agree(s1, s2, d, p),
        read_pi(s1, p) is Ok,
    ensures
        read_pi(s2, p + d) == moved_read(read_pi(s1, p), d),
{
    lemma_name_from(s1, p, None, Seq::empty());
    lemma_name_moves(s1, s2, d, p, None, Seq::empty());
    let (ns, name, p1) = read_name(s1, p)->Ok_0;
    if name == "xml"@ {
        lemma_prolog_moves(s1, s2, d, p1, "1.0"@, "UTF-8"@, true);
        lemma_prolog_from(s1, p1, "1.0"@, "UTF-8"@, true);
        let p2 = prolog_from(s1, p1, "1.0"@, "UTF-8"@, true)->Ok_0.3;
        assert(s2[p2 + 1 + d] == s1[p2 + 1]);
    } else {
        lemma_raw_moves(s1, s2, d, p1, Seq::empty(), '?');
        lemma_raw_until(s1, p1, Seq::empty(), '?');
        let p2 = raw_until(s1, p1, Seq::empty(), '?')->Ok_0.1;
        assert(s2[p2 + 1 + d] == s1[p2 + 1]);
    }
}

pub proof fn lemma_end_moves(s1: Seq<char>, s2: Seq<char>, d: int, p: int)
    requires
        agree(s1, s2, d, p),
        read_end(s1, p) is Ok,
    ensures
        read_end(s2, p + d) == moved_read(read_end(s1, p), d),
{
    lemma_name_from(s1, p, None, Seq::empty());
    lemma_name_moves(s1, s2, d, p, None, Seq::empty());
    let (ns, name, p1) = read_name(s1, p)->Ok_0;
    lemma_skip_ws(s1, p1);
    lemma_skip_ws_moves(s1, s2, d, p1);
    let p2 = skip_ws(s1, p1);
    assert(s2[p2 + d] == s1[p2]);
}

pub proof fn lemma_tag_rest_moves(s1: Seq<char>, s2: Seq<char>, d: int, p: int, attrs: Seq<TokenView>)
    requires
        agree(s1, s2, d, p),
        tag_rest(s1, p, attrs) is Ok,
    ensures
        tag_rest(s2, p + d, attrs) == moved_tag(tag_rest(s1, p, attrs), d),
    decreases s1.len() - p,
{
    lemma_skip_ws(s1, p);
    let p0 = skip_ws(s1, p);
    lemma_skip_ws_moves(s1, s2, d, p);
    assert(s2[p0 + d] == s1[p0]);
    if s1[p0] == '/' {
        assert(s2[p0 + 1 + d] == s1[p0 + 1]);
    } else if s1[p0] != '>' {
        lemma_attribute(s1, p0);
        let (a, p1) = read_attribute(s1, p0)->Ok_0;
        lemma_tag_rest(s1, p1, attrs.push(a));
        lemma_attribute_moves(s1, s2, d, p0);
        lemma_tag_rest_moves(s1, s2, d, p1, attrs.push(a));
    }
}

pub proof fn lemma_start_moves(s1: Seq<char>, s2: Seq<char>, d: int, p: int)
    requires
        agree(s1, s2, d, p),
        read_start(s1, p) is Ok,
    ensures
        read_start(s2, p + d) == moved_read(read_start(s1, p), d),
{
    lemma_name_from(s1, p, None, Seq::empty());
    lemma_name_moves(s1, s2, d, p, None, Seq::empty());
    let (ns, name, p1) = read_name(s1, p)->Ok_0;
    lemma_tag_rest_moves(s1, s2, d, p1, Seq::empty());
}

pub proof fn lemma_markup_moves(s1: Seq<char>, s2: Seq<char>, d: int, p: int)
    requires
        agree(s1, s2, d, p),
        read_markup(s1, p) is Ok,
    ensures
        read_markup(s2, p + d) == moved_read(read_markup(s1, p), d),
{
    assert(s2[p + 1 + d] == s1[p + 1]);
    let c = s1[p + 1];
    if c == '!' {
        lemma_comment_or_doctype_moves(s1, s2, d, p + 1);
    } else if c == '?' {
        lemma_pi_moves(s1, s2, d, p + 2);
    } else if c == '/' {
        lemma_end_moves(s1, s2, d, p + 2);
    } else {
        lemma_start_moves(s1, s2, d, p + 1);
    }
}

pub proof fn lemma_text_moves(s1: Seq<char>, s2: Seq<char>, d: int, p: int, acc: Seq<char>)
    requires
        agree(s1, s2, d, p),
        text_from(s1, p, acc).1 < s1.len() || ends(s1, s2, d) || s2[s1.len() + d] == '<',
    ensures
        text_from(s2, p + d, acc) == (text_from(s1, p, acc).0, text_from(s1, p, acc).1 + d),
    decreases s1.len() - p,
{
    if p < s1.len() {
        assert(s2[p + d] == s1[p]);
        if s1[p] != '<' {
            lemma_text_moves(s1, s2, d, p + 1, acc.push(s1[p]));
        }
    }
}

/// Whether a token sequence ends with a run of text, which more text
/// placed after it would extend.
pub open spec fn ends_in_text(ts: Seq<TokenView>) -> bool {
    ts.len() > 0 && ts.last() is Text
}

pub proof fn lemma_tokens_move(s1: Seq<char>, s2: Seq<char>, d: int, p: int, acc: Seq<TokenView>)
    requires
        agree(s1, s2, d, p),
        tokens_from(s1, p, acc) is Ok,
        ends(s1, s2, d) || s2[s1.len() + d] == '<' || !ends_in_text(tokens_from(s1, p, acc)->Ok_0),
    ensures
        tokens_from(s2, p + d, acc) == tokens_from(s2, s1.len() + d, tokens_from(s1, p, acc)->Ok_0),
    decreases s1.len() - p,
{
    if p < s1.len() {
        assert(s2[p + d] == s1[p]);
        if s1[p] == '<' {
            lemma_markup(s1, p);
            lemma_markup_moves(s1, s2, d, p);
            let (ts, q) = read_markup(s1, p)->Ok_0;
            lemma_tokens_move(s1, s2, d, q, acc + ts);
        } else {
            lemma_text_from(s1, p, Seq::empty());
            let (t, q) = text_from(s1, p, Seq::empty());
            if q == s1.len() {
                assert(tokens_from(s1, q, acc + seq![TokenView::Text(t)]) == Ok::<Seq<TokenView>, ParseError>(acc + seq![TokenView::Text(t)]));
                assert((acc + seq![TokenView::Text(t)]).last() == TokenView::Text(t));
            }
            lemma_text_moves(s1, s2, d, p, Seq::empty());
            lemma_tokens_move(s1, s2, d, q, acc + seq![TokenView::Text(t)]);
        }
    }
}

/// `acc` put in front of the tokens of a successful run.
pub open spec fn prepend(acc: Seq<TokenView>, r: Result<Seq<TokenView>, ParseError>) -> Result<Seq<TokenView>, ParseError> {
    match r {
        Ok(x) => Ok(acc + x),
        Err(e) => Err(e),
    }
}

/// Tokens already read are kept in front, unchanged, of whatever follows.
pub proof fn lemma_tokens_prefix(s: Seq<char>, p: int, acc: Seq<TokenView>)
    requires
        0 <= p <= s.len(),
    ensures
        tokens_from(s, p, acc) == prepend(acc, tokens_from(s, p, Seq::empty())),
    decreases s.len() - p,
{
    if p < s.len() {
        if s[p] == '<' {
            lemma_markup(s, p);
            if let Ok((ts, q)) = read_markup(s, p) {
                lemma_tokens_prefix(s, q, acc + ts);
                lemma_tokens_prefix(s, q, Seq::<TokenView>::empty() + ts);
                lemma_tokens_prefix(s, q, ts);
                assert(Seq::<TokenView>::empty() + ts =~= ts);
                if let Ok(x) = tokens_from(s, q, Seq::empty()) {
                    assert(acc + ts + x =~= acc + (ts + x));
                }
            }
        } else {
            lemma_text_from(s, p, Seq::empty());
            let (t, q) = text_from(s, p, Seq::empty());
            let tt = seq![TokenView::Text(t)];
            lemma_tokens_prefix(s, q, acc + tt);
            lemma_tokens_prefix(s, q, Seq::<TokenView>::empty() + tt);
            lemma_tokens_prefix(s, q, tt);
            assert(Seq::<TokenView>::empty() + tt =~= tt);
            if let Ok(x) = tokens_from(s, q, Seq::empty()) {
                assert(acc + tt + x =~= acc + (tt + x));
            }
        }
    } else {
        assert(acc + Seq::<TokenView>::empty() =~= acc);
    }
}

} // verus!
