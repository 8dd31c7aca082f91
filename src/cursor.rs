use vstd::prelude::*;
use crate::grammar::char_at;

verus! {

broadcast use vstd::string::axiom_spec_iter;

/// A one-character-lookahead reader over an immutable text.
///
/// Before the first `next`, no character is current; afterwards `current`
/// returns the character that `next` last returned, or `None` once the
/// text is exhausted.
pub struct XmlChars {
    chars: Vec<char>,
    started: bool,
    index: usize,
}

impl XmlChars {
    /// The whole text the cursor reads.
    pub closed spec fn text(&self) -> Seq<char> {
        self.chars@
    }

    /// Index of the current character: `-1` before the first `next`,
    /// `text().len()` once the text is exhausted.
    pub closed spec fn pos(&self) -> int {
        if !self.started {
            -1
        } else if self.index < self.chars.len() {
            self.index as int
        } else {
            self.chars.len() as int
        }
    }

    /// The position lies in the text, whose length is a machine size.
    pub open spec fn wf(&self) -> bool {
        -1 <= self.pos() <= self.text().len() && self.text().len() <= usize::MAX
    }

    /// A cursor over `content`, before its first character.
    pub fn new(content: &str) -> (r: Self)
        ensures
            r.text() == content@,
            r.pos() == -1,
            r.wf(),
    {
        let mut chars: Vec<char> = Vec::new();
        for c in it: content.chars()
            invariant
                chars@ == it.seq().take(it.index() as int),
        {
            chars.push(c);
        }
        assert(chars@ == content@);
        // the length of a Vec is a usize
        let count = chars.len();
        assert(chars@.len() == count);
        XmlChars { chars, started: false, index: 0 }
    }

    /// Advances to the following character and returns it, or `None` at
    /// the end of the text (where the cursor then stays).
    pub fn next(&mut self) -> (r: Option<char>)
        requires
            old(self).wf(),
        ensures
            final(self).wf(),
            final(self).text() == old(self).text(),
            final(self).pos() == if old(self).pos() < old(self).text().len() {
                old(self).pos() + 1
            } else {
                old(self).pos()
            },
            r == char_at(final(self).text(), final(self).pos()),
    {
        if !self.started {
            self.started = true;
            self.index = 0;
        } else if self.index < self.chars.len() {
            self.index = self.index + 1;
        }
        self.current()
    }

    /// The character that `next` last returned.
    pub fn current(&self) -> (r: Option<char>)
        requires
            self.wf(),
        ensures
            r == char_at(self.text(), self.pos()),
    {
        if self.started && self.index < self.chars.len() {
            Some(self.chars[self.index])
        } else {
            None
        }
    }

    /// Index of the current character, for error reports.
    pub fn offset(&self) -> (r: usize)
        requires
            self.wf(),
            self.pos() >= 0,
        ensures
            r as int == self.pos(),
    {
        if self.index < self.chars.len() {
            self.index
        } else {
            self.chars.len()
        }
    }
}

} // verus!
