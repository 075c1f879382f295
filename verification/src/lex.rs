//! Tokenizer: a one-byte-at-a-time classifier over the source text.

use vstd::prelude::*;

verus! {

/// One symbol of the source language: the eight meaningful characters, a
/// catch-all for every other byte, and an end-of-input marker.
#[derive(Debug, Copy, Clone, PartialEq, Eq, Structural)]
pub enum Token {
    /// `>`: move the data pointer one cell to the right.
    RAngle,
    /// `<`: move the data pointer one cell to the left.
    LAngle,
    /// `+`: increment the cell at the data pointer.
    Plus,
    /// `-`: decrement the cell at the data pointer.
    Minus,
    /// `.`: output the cell at the data pointer.
    Dot,
    /// `,`: read one input byte into the cell at the data pointer.
    Comma,
    /// `[`: loop start.
    LBrack,
    /// `]`: loop end.
    RBrack,
    /// Any other byte; skipped by the compiler.
    Comment,
    /// End of input. Never produced for a source byte.
    Eof,
}

/// The token that classifies one source byte.
pub open spec fn token_of(b: u8) -> Token {
    if b == 62 {
        Token::RAngle
    } else if b == 60 {
        Token::LAngle
    } else if b == 43 {
        Token::Plus
    } else if b == 45 {
        Token::Minus
    } else if b == 46 {
        Token::Dot
    } else if b == 44 {
        Token::Comma
    } else if b == 91 {
        Token::LBrack
    } else if b == 93 {
        Token::RBrack
    } else {
        Token::Comment
    }
}

/// A lexer: a cursor over the source bytes.
pub struct Lexer {
    pub src: Vec<u8>,
    pub pos: usize,
}

impl Lexer {
    /// The cursor never points past the end of the source.
    pub open spec fn wf(self) -> bool {
        self.pos <= self.src@.len()
    }

    /// The tokens this lexer has yet to produce, in order, one per
    /// remaining source byte.
    pub open spec fn tokens(self) -> Seq<Token> {
        self.src@.skip(self.pos as int).map_values(|b: u8| token_of(b))
    }

    /// Returns the next token, consuming one source byte; `Eof` once the
    /// source is exhausted.
    pub fn next(&mut self) -> (t: Token)
        requires
            old(self).wf(),
        ensures
            final(self).wf(),
            final(self).src@ == old(self).src@,
            old(self).tokens().len() > 0 ==> t == old(self).tokens()[0]
                && final(self).tokens() == old(self).tokens().skip(1),
            old(self).tokens().len() == 0 ==> t == Token::Eof && *final(self) == *old(self),
    {
        if self.pos < self.src.len() {
            let c = self.src[self.pos];
            self.pos = self.pos + 1;
            proof {
                let s = old(self).src@;
                let p = old(self).pos as int;
                assert(old(self).tokens()[0] == token_of(s[p]));
                assert(self.tokens() =~= old(self).tokens().skip(1)) by {
                    assert forall|i: int| 0 <= i < self.tokens().len() implies self.tokens()[i]
                        == old(self).tokens().skip(1)[i] by {
                        assert(self.tokens()[i] == token_of(s[p + 1 + i]));
                        assert(old(self).tokens().skip(1)[i] == token_of(s[p + 1 + i]));
                    }
                }
            }
            match c {
                62 => Token::RAngle,
                60 => Token::LAngle,
                43 => Token::Plus,
                45 => Token::Minus,
                46 => Token::Dot,
                44 => Token::Comma,
                91 => Token::LBrack,
                93 => Token::RBrack,
                _ => Token::Comment,
            }
        } else {
            Token::Eof
        }
    }

    /// Returns the number of tokens still to come (one per remaining source
    /// byte); exact here, a hint by contract.
    pub fn len_hint(&self) -> (n: usize)
        requires
            self.wf(),
        ensures
            n == self.tokens().len(),
    {
        self.src.len() - self.pos
    }
}

/// Creates a lexer over `source`.
#[allow(non_snake_case)]
pub fn Lexer(source: Vec<u8>) -> (l: Lexer)
    ensures
        l.wf(),
        l.pos == 0,
        l.src@ == source@,
        l.tokens() == source@.map_values(|b: u8| token_of(b)),
{
    let l = Lexer { src: source, pos: 0 };
    proof {
        assert(l.tokens() =~= l.src@.map_values(|b: u8| token_of(b)));
    }
    l
}

} // verus!
