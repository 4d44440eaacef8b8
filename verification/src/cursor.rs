//! Reading a text character by character.

use vstd::prelude::*;

verus! {

/// A reading position in a text, with one character of lookahead.
///
/// The text is decoded into its characters once, when the cursor is made;
/// after that the cursor only moves forwards, one character at a time. Its
/// view is the part of the text that has not been consumed yet.
pub struct Cursor {
    caracteres: Vec<char>,
    posicao: usize,
}

impl View for Cursor {
    type V = Seq<char>;

    closed spec fn view(&self) -> Seq<char> {
        self.caracteres@.skip(self.posicao as int)
    }
}

impl Cursor {
    /// The position is inside the text or right after its last character.
    #[verifier::type_invariant]
    spec fn valido(&self) -> bool {
        self.posicao <= self.caracteres@.len()
    }

    /// Starts reading `texto` at its first character.
    pub fn new(texto: &str) -> (r: Self)
        ensures
            r@ == texto@,
    {
        let mut caracteres: Vec<char> = Vec::new();
        for c in it: texto.chars()
            invariant
                caracteres@ == it.seq().take(it.index() as int),
        {
            caracteres.push(c);
        }
        Cursor { caracteres, posicao: 0 }
    }

    /// The next character, which stays in place; `None` at the end of the text.
    pub fn peek(&self) -> (r: Option<char>)
        ensures
            r == if self@.len() > 0 {
                Some(self@[0])
            } else {
                None
            },
    {
        proof {
            use_type_invariant(self);
        }
        if self.posicao < self.caracteres.len() {
            Some(self.caracteres[self.posicao])
        } else {
            None
        }
    }

    /// Consumes the next character and returns it; at the end of the text
    /// nothing changes and the result is `None`.
    pub fn next(&mut self) -> (r: Option<char>)
        ensures
            r == if old(self)@.len() > 0 {
                Some(old(self)@[0])
            } else {
                None
            },
            final(self)@ == if old(self)@.len() > 0 {
                old(self)@.drop_first()
            } else {
                old(self)@
            },
    {
        proof {
            use_type_invariant(&*self);
        }
        if self.posicao < self.caracteres.len() {
            let c = self.caracteres[self.posicao];
            self.posicao = self.posicao + 1;
            Some(c)
        } else {
            None
        }
    }
}

} // verus!
