//! A tokenizer for single instructions of a simple assembly syntax: an
//! instruction name, then `$` values, `@` addresses and flags, up to a `;` or
//! `#`.
use vstd::prelude::*;
use crate::numbers::{is_decimal_numeral, numeral_value, parse_decimal_u16, IntErrorKind};
use crate::text::{
    chars_of, find_char, first_of, lemma_find_char, ranges_view, string_of_range, token_ranges,
    tokens, tokens_wf,
};

verus! {

#[derive(Debug, PartialEq, Eq, Structural, Clone, Copy)]
pub enum Value {
    /// `$`: the value itself
    DirectValue(u16),
    /// `@`: the value is an address
    Address(u16),
}

#[derive(Debug, PartialEq)]
pub enum Token {
    OpCode(String),
    Value(Value),
    Flag(String),
}

pub enum TokenView {
    OpCode(Seq<char>),
    Value(Value),
    Flag(Seq<char>),
}

impl View for Token {
    type V = TokenView;

    open spec fn view(&self) -> TokenView {
        match self {
            Token::OpCode(s) => TokenView::OpCode(s@),
            Token::Value(v) => TokenView::Value(*v),
            Token::Flag(s) => TokenView::Flag(s@),
        }
    }
}

/// Why a word of an instruction is refused; `index` is the word's position.
#[derive(Debug)]
pub enum TokenError {
    /// the word begins with a character that is not ASCII
    Malformed { index: usize, text: String },
    /// the number after `$` or `@` does not parse
    BadNumber { index: usize, text: String, kind: IntErrorKind },
}

pub enum TokenErrorView {
    Malformed { index: usize, text: Seq<char> },
    BadNumber { index: usize, text: Seq<char>, kind: IntErrorKind },
}

impl View for TokenError {
    type V = TokenErrorView;

    open spec fn view(&self) -> TokenErrorView {
        match self {
            TokenError::Malformed { index, text } => TokenErrorView::Malformed { index: *index, text: text@ },
            TokenError::BadNumber { index, text, kind } => TokenErrorView::BadNumber {
                index: *index,
                text: text@,
                kind: *kind,
            },
        }
    }
}

/// The text of an instruction: everything before its first `;` or `#`.
pub open spec fn instruction_end(s: Seq<char>) -> int {
    let a = find_char(s, 0, s.len() as int, ';');
    let b = find_char(s, 0, s.len() as int, '#');
    if a < b {
        a
    } else {
        b
    }
}

/// The words of an instruction, split at white space.
pub open spec fn words(s: Seq<char>) -> Seq<Seq<char>> {
    tokens(s, 0, instruction_end(s), false).map_values(|r: (int, int)| s.subrange(r.0, r.1))
}

/// Which way a word is refused.
pub enum WordFault {
    Malformed,
    BadNumber,
}

/// What the word `w` at position `index` reads as: after `$` a value, after
/// `@` an address (both decimal numbers), and else the instruction's name
/// (first word) or a flag. A word that begins with a character that is not
/// ASCII is refused.
pub open spec fn read_word(w: Seq<char>, index: int) -> Result<TokenView, WordFault> {
    let c = w[0];
    let rest = w.drop_first();
    if !((c as u32) < 0x80) {
        Err(WordFault::Malformed)
    } else if c == '$' || c == '@' {
        if is_decimal_numeral(rest) && numeral_value(rest) <= u16::MAX {
            let v = numeral_value(rest) as u16;
            Ok(TokenView::Value(if c == '$' { Value::DirectValue(v) } else { Value::Address(v) }))
        } else {
            Err(WordFault::BadNumber)
        }
    } else if index == 0 {
        Ok(TokenView::OpCode(w))
    } else {
        Ok(TokenView::Flag(w))
    }
}

/// `r` is what reading the word `w` at position `index` gives; a refusal
/// carries the position and the word.
pub open spec fn reads_as(r: Result<Option<TokenView>, TokenErrorView>, w: Seq<char>, index: int) -> bool {
    match r {
        Ok(Some(t)) => read_word(w, index) == Ok::<TokenView, WordFault>(t),
        Ok(None) => false,
        Err(TokenErrorView::Malformed { index: i, text }) => read_word(w, index) == Err::<TokenView, WordFault>(
            WordFault::Malformed,
        ) && i == index && text == w,
        Err(TokenErrorView::BadNumber { index: i, text, .. }) => read_word(w, index) == Err::<
            TokenView,
            WordFault,
        >(WordFault::BadNumber) && i == index && text == w,
    }
}

pub open spec fn r_view(r: Result<Option<Token>, TokenError>) -> Result<Option<TokenView>, TokenErrorView> {
    match r {
        Ok(Some(t)) => Ok(Some(t@)),
        Ok(None) => Ok(None),
        Err(e) => Err(e@),
    }
}

/// The words of one instruction, read one at a time.
pub struct Tokenizer {
    text: Vec<char>,
    slices: Vec<(usize, usize)>,
    next: usize,
}

impl Tokenizer {
    pub closed spec fn wf(&self) -> bool {
        &&& ranges_view(self.slices@) == tokens(self.text@, 0, instruction_end(self.text@), false)
        &&& 0 <= instruction_end(self.text@) <= self.text@.len()
        &&& tokens_wf(self.text@, ranges_view(self.slices@), 0, instruction_end(self.text@), false)
        &&& self.next <= self.slices@.len()
    }

    /// The words of the instruction.
    pub closed spec fn all_words(&self) -> Seq<Seq<char>> {
        words(self.text@)
    }

    /// How many words were read.
    pub closed spec fn position(&self) -> int {
        self.next as int
    }

    pub fn new(instruction: &str) -> (r: Tokenizer)
        ensures
            r.wf(),
            r.all_words() == words(instruction@),
            r.position() == 0,
    {
        let text = chars_of(instruction);
        let n = text.len();
        proof {
            lemma_find_char(text@, 0, n as int, ';');
            lemma_find_char(text@, 0, n as int, '#');
        }
        let a = first_of(&text, 0, n, ';');
        let b = first_of(&text, 0, n, '#');
        let end = if a < b {
            a
        } else {
            b
        };
        let slices = token_ranges(&text, 0, end, false);
        Tokenizer { text, slices, next: 0 }
    }

    /// Reads the next word, or returns `None` when all were read; see
    /// `read_word`. A word is used up whether it reads or not.
    pub fn parse_next_token(&mut self) -> (r: Result<Option<Token>, TokenError>)
        requires
            old(self).wf(),
        ensures
            final(self).wf(),
            final(self).all_words() == old(self).all_words(),
            old(self).position() >= old(self).all_words().len() ==> r_view(r) == Ok::<
                Option<TokenView>,
                TokenErrorView,
            >(None) && final(self).position() == old(self).position(),
            old(self).position() < old(self).all_words().len() ==> {
                &&& final(self).position() == old(self).position() + 1
                &&& reads_as(r_view(r), old(self).all_words()[old(self).position()], old(self).position())
            },
    {
        let ghost tv = ranges_view(self.slices@);
        proof {
            assert(tv.len() == self.slices@.len());
        }
        if self.next >= self.slices.len() {
            return Ok(None);
        }
        let index = self.next;
        let (x, y) = self.slices[index];
        proof {
            assert(tv[index as int] == (x as int, y as int));
            assert(0 <= tv[index as int].0);
            assert(words(self.text@)[index as int] == self.text@.subrange(x as int, y as int));
        }
        self.next = index + 1;
        let word = string_of_range(&self.text, x, y);
        let c = self.text[x];
        proof {
            assert(word@[0] == c);
        }
        if !((c as u32) < 0x80) {
            return Err(TokenError::Malformed { index, text: word });
        }
        if c == '$' || c == '@' {
            let rest = string_of_range(&self.text, x + 1, y);
            proof {
                assert(rest@ =~= word@.drop_first());
            }
            match parse_decimal_u16(rest.as_str()) {
                Ok(v) => {
                    let value = if c == '$' {
                        Value::DirectValue(v)
                    } else {
                        Value::Address(v)
                    };
                    Ok(Some(Token::Value(value)))
                },
                Err(kind) => Err(TokenError::BadNumber { index, text: word, kind }),
            }
        } else if index == 0 {
            Ok(Some(Token::OpCode(word)))
        } else {
            Ok(Some(Token::Flag(word)))
        }
    }
}

} // verus!
