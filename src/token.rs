use vstd::prelude::*;

verus! {

/// One classified unit of the XML lexical grammar.
#[derive(Debug, PartialEq, Clone)]
pub enum Token {
    Prolog { version: String, encoding: String, standalone: bool },
    DocType { name: String, content: Option<String>, url: Option<String> },
    ProcessingInstruction { name: String, content: String },
    Start { ns: Option<String>, name: String },
    End { ns: Option<String>, name: String },
    Attr { ns: Option<String>, name: String, value: Option<String> },
    Text(String),
    Comment(String),
}

/// The mathematical value of a `Token`: strings seen as character sequences.
pub enum TokenView {
    Prolog { version: Seq<char>, encoding: Seq<char>, standalone: bool },
    DocType { name: Seq<char>, content: Option<Seq<char>>, url: Option<Seq<char>> },
    ProcessingInstruction { name: Seq<char>, content: Seq<char> },
    Start { ns: Option<Seq<char>>, name: Seq<char> },
    End { ns: Option<Seq<char>>, name: Seq<char> },
    Attr { ns: Option<Seq<char>>, name: Seq<char>, value: Option<Seq<char>> },
    Text(Seq<char>),
    Comment(Seq<char>),
}

pub open spec fn opt_view(o: Option<String>) -> Option<Seq<char>> {
    match o {
        Some(s) => Some(s@),
        None => None,
    }
}

impl View for Token {
    type V = TokenView;

    open spec fn view(&self) -> TokenView {
        match self {
            Token::Prolog { version, encoding, standalone } => TokenView::Prolog {
                version: version@,
                encoding: encoding@,
                standalone: *standalone,
            },
            Token::DocType { name, content, url } => TokenView::DocType {
                name: name@,
                content: opt_view(*content),
                url: opt_view(*url),
            },
            Token::ProcessingInstruction { name, content } => TokenView::ProcessingInstruction {
                name: name@,
                content: content@,
            },
            Token::Start { ns, name } => TokenView::Start { ns: opt_view(*ns), name: name@ },
            Token::End { ns, name } => TokenView::End { ns: opt_view(*ns), name: name@ },
            Token::Attr { ns, name, value } => TokenView::Attr {
                ns: opt_view(*ns),
                name: name@,
                value: opt_view(*value),
            },
            Token::Text(t) => TokenView::Text(t@),
            Token::Comment(c) => TokenView::Comment(c@),
        }
    }
}

/// The view of a token sequence.
pub open spec fn tokens_view(v: Seq<Token>) -> Seq<TokenView> {
    v.map_values(|t: Token| t@)
}

/// What went wrong, by kind.
#[derive(Debug, PartialEq, Eq, Clone, Copy, Structural)]
pub enum ErrorKind {
    /// A construct was opened but the input ended before its terminator.
    UnexpectedEndOfInput,
    /// An empty name, a second namespace separator, or an illegal character in a name.
    MalformedName,
    /// `<!-` not followed by a second `-`.
    MalformedComment,
    /// `>` inside a comment not preceded by exactly two dashes.
    MalformedCommentEnd,
    /// A declaration after `<!` that is not a well-formed DOCTYPE.
    MalformedXml,
    /// A processing-instruction target carrying a namespace prefix, or not opened by `<?`.
    MalformedProcessingInstruction,
    /// A `?` closing a prolog or processing instruction not followed by `>`.
    MalformedPrologEnd,
    /// An attribute `=` not followed by a double-quoted value.
    UnboundedAttributeValue,
    /// A tag not closed by `>` or `/>` where its name or attributes end.
    MalformedTag,
}

/// A failure and the index of the character at which it was detected.
#[derive(Debug, PartialEq, Eq, Clone, Copy, Structural)]
pub struct ParseError {
    pub kind: ErrorKind,
    pub offset: usize,
}

} // verus!
