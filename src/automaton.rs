//! The pushdown automaton: markers, the transition relation and its executable step.
//!
//! The automaton reads one byte at a time against the marker on top of its stack:
//! - while a string is open, `"` closes it and any other byte but an ASCII
//!   control byte is its content, tab and newline included, and so are the bytes
//!   of non-ASCII characters, braces, brackets and separators; escape sequences
//!   are not recognised, so `\"` closes the string;
//! - while a keyword (`true`, `false`, `null`) is half read, only its next letter
//!   is accepted, so a keyword is spelt in one piece;
//! - otherwise `{` and `[` open, `]` closes an array on top, `}` closes the object
//!   beneath the separators on top (never across an open array), `,` is pushed,
//!   `:` is pushed after `{` or `,`, `"` opens a string, and a digit or the first
//!   letter of a keyword is accepted only in value position (after `:` or `,`);
//! - while a number is read, further digits extend it until whitespace ends it;
//!   after that only whitespace, `,`, `}` or `]` may follow. Signs, fractions and
//!   exponents are not part of the grammar.
use vstd::prelude::*;

verus! {

/// Bytes the automaton distinguishes.
pub const LBRACE: u8 = 0x7B;
pub const RBRACE: u8 = 0x7D;
pub const LBRACKET: u8 = 0x5B;
pub const RBRACKET: u8 = 0x5D;
pub const COLON: u8 = 0x3A;
pub const COMMA: u8 = 0x2C;
pub const QUOTE: u8 = 0x22;
pub const SPACE: u8 = 0x20;
pub const TAB: u8 = 0x09;
pub const NEWLINE: u8 = 0x0A;
pub const DIGIT_ZERO: u8 = 0x30;
pub const DIGIT_NINE: u8 = 0x39;
pub const TILDE: u8 = 0x7E;
pub const NON_ASCII: u8 = 0x80;
pub const LETTER_A: u8 = 0x61;
pub const LETTER_E: u8 = 0x65;
pub const LETTER_F: u8 = 0x66;
pub const LETTER_L: u8 = 0x6C;
pub const LETTER_N: u8 = 0x6E;
pub const LETTER_R: u8 = 0x72;
pub const LETTER_S: u8 = 0x73;
pub const LETTER_T: u8 = 0x74;
pub const LETTER_U: u8 = 0x75;

/// A keyword literal that may appear in value position.
#[derive(Clone, Copy, Debug, PartialEq, Eq, Structural)]
pub enum Word {
    True,
    False,
    Null,
}

/// One entry of the context stack.
#[derive(Clone, Copy, Debug, PartialEq, Eq, Structural)]
pub enum Marker {
    /// An object is open and awaits its `}`.
    ObjectOpen,
    /// An array is open and awaits its `]`.
    ArrayOpen,
    /// A `:` was consumed; a value is expected.
    Colon,
    /// A `,` was consumed.
    Comma,
    /// A string literal is open.
    StringOpen,
    /// The first `n` letters of a keyword were consumed (`0 < n < len`).
    Keyword(Word, u8),
    /// A number is being read: its last digit, and whether whitespace followed it.
    Number(u8, bool),
}

/// Number of letters in the keyword.
pub open spec fn word_len(w: Word) -> nat {
    match w {
        Word::True => 4,
        Word::False => 5,
        Word::Null => 4,
    }
}

/// The `i`-th letter of the keyword, as a byte (the last letter for any index past the end).
pub open spec fn word_letter(w: Word, i: int) -> u8 {
    match w {
        Word::True => if i == 0 {
            LETTER_T
        } else if i == 1 {
            LETTER_R
        } else if i == 2 {
            LETTER_U
        } else {
            LETTER_E
        },
        Word::False => if i == 0 {
            LETTER_F
        } else if i == 1 {
            LETTER_A
        } else if i == 2 {
            LETTER_L
        } else if i == 3 {
            LETTER_S
        } else {
            LETTER_E
        },
        Word::Null => if i == 0 {
            LETTER_N
        } else if i == 1 {
            LETTER_U
        } else {
            LETTER_L
        },
    }
}

pub fn keyword_len(w: Word) -> (r: u8)
    ensures
        r as nat == word_len(w),
{
    match w {
        Word::True => 4,
        Word::False => 5,
        Word::Null => 4,
    }
}

pub fn keyword_letter(w: Word, i: u8) -> (r: u8)
    ensures
        r == word_letter(w, i as int),
{
    match w {
        Word::True => if i == 0 {
            LETTER_T
        } else if i == 1 {
            LETTER_R
        } else if i == 2 {
            LETTER_U
        } else {
            LETTER_E
        },
        Word::False => if i == 0 {
            LETTER_F
        } else if i == 1 {
            LETTER_A
        } else if i == 2 {
            LETTER_L
        } else if i == 3 {
            LETTER_S
        } else {
            LETTER_E
        },
        Word::Null => if i == 0 {
            LETTER_N
        } else if i == 1 {
            LETTER_U
        } else {
            LETTER_L
        },
    }
}

/// Space, tab and newline: ignored between tokens.
pub open spec fn is_whitespace(b: u8) -> bool {
    b == SPACE || b == TAB || b == NEWLINE
}

pub open spec fn is_digit(b: u8) -> bool {
    DIGIT_ZERO <= b <= DIGIT_NINE
}

/// A byte accepted as the content of a string: any but an ASCII control byte,
/// with tab and newline allowed.
pub open spec fn is_string_byte(b: u8) -> bool {
    (SPACE <= b <= TILDE) || b >= NON_ASCII || b == TAB || b == NEWLINE
}

pub open spec fn is_separator(m: Marker) -> bool {
    m == Marker::Colon || m == Marker::Comma
}

/// A value may begin here: the top of the stack is a `:` or a `,`.
pub open spec fn in_value_position(st: Seq<Marker>) -> bool {
    st.len() > 0 && is_separator(st.last())
}

pub open spec fn in_string(st: Seq<Marker>) -> bool {
    st.len() > 0 && st.last() == Marker::StringOpen
}

pub open spec fn in_keyword(st: Seq<Marker>) -> bool {
    st.len() > 0 && st.last() is Keyword
}

pub open spec fn in_number(st: Seq<Marker>) -> bool {
    st.len() > 0 && st.last() is Number
}

/// In the middle of a token, where whitespace is not allowed: a keyword is half
/// read, or a number was read with no whitespace after it yet.
pub open spec fn mid_token(st: Seq<Marker>) -> bool {
    in_keyword(st) || (in_number(st) && !st.last()->Number_1)
}

/// The keyword that a byte starts, if any.
pub open spec fn keyword_start(b: u8) -> Option<Word> {
    if b == LETTER_T {
        Some(Word::True)
    } else if b == LETTER_F {
        Some(Word::False)
    } else if b == LETTER_N {
        Some(Word::Null)
    } else {
        None
    }
}

/// Closing `}`: pops the separators on top and then the `ObjectOpen` below them.
pub open spec fn close_object(st: Seq<Marker>) -> Option<Seq<Marker>>
    decreases st.len(),
{
    if st.len() == 0 {
        None
    } else if st.last() == Marker::ObjectOpen {
        Some(st.drop_last())
    } else if is_separator(st.last()) {
        close_object(st.drop_last())
    } else {
        None
    }
}

/// A transition outside strings, keywords and numbers.
pub open spec fn step_outside(st: Seq<Marker>, b: u8) -> Option<Seq<Marker>> {
    if b == LBRACE {
        Some(st.push(Marker::ObjectOpen))
    } else if b == LBRACKET {
        Some(st.push(Marker::ArrayOpen))
    } else if b == RBRACE {
        close_object(st)
    } else if b == RBRACKET {
        if st.len() > 0 && st.last() == Marker::ArrayOpen {
            Some(st.drop_last())
        } else {
            None
        }
    } else if b == COMMA {
        Some(st.push(Marker::Comma))
    } else if is_whitespace(b) {
        Some(st)
    } else if is_digit(b) {
        if in_value_position(st) {
            Some(st.push(Marker::Number(b, false)))
        } else {
            None
        }
    } else if b == QUOTE {
        Some(st.push(Marker::StringOpen))
    } else if keyword_start(b) is Some {
        if in_value_position(st) {
            Some(st.push(Marker::Keyword(keyword_start(b)->0, 1)))
        } else {
            None
        }
    } else if b == COLON {
        if st.len() > 0 && (st.last() == Marker::ObjectOpen || st.last() == Marker::Comma) {
            Some(st.push(Marker::Colon))
        } else {
            None
        }
    } else {
        None
    }
}

/// One transition on the byte `b`: the next stack, or `None` when `b` is rejected.
pub open spec fn step(st: Seq<Marker>, b: u8) -> Option<Seq<Marker>> {
    if in_string(st) {
        if b == QUOTE {
            Some(st.drop_last())
        } else if is_string_byte(b) {
            Some(st)
        } else {
            None
        }
    } else if in_keyword(st) {
        let w = st.last()->Keyword_0;
        let n = st.last()->Keyword_1;
        if (n as nat) < word_len(w) && b == word_letter(w, n as int) {
            if n + 1 == word_len(w) {
                Some(st.drop_last())
            } else {
                Some(st.drop_last().push(Marker::Keyword(w, (n + 1) as u8)))
            }
        } else {
            None
        }
    } else if in_number(st) {
        let d = st.last()->Number_0;
        let spaced = st.last()->Number_1;
        if is_digit(b) {
            if spaced {
                None
            } else {
                Some(st.drop_last().push(Marker::Number(b, false)))
            }
        } else if is_whitespace(b) {
            Some(st.drop_last().push(Marker::Number(d, true)))
        } else if b == COMMA || b == RBRACE || b == RBRACKET {
            step_outside(st.drop_last(), b)
        } else {
            None
        }
    } else {
        step_outside(st, b)
    }
}

/// The byte that names a marker left open at the end of the input.
pub open spec fn marker_byte(m: Marker) -> u8 {
    match m {
        Marker::ObjectOpen => LBRACE,
        Marker::ArrayOpen => LBRACKET,
        Marker::Colon => COLON,
        Marker::Comma => COMMA,
        Marker::StringOpen => QUOTE,
        Marker::Keyword(w, n) => word_letter(w, n - 1),
        Marker::Number(d, _) => d,
    }
}

/// The character reported for a rejected byte: the byte read as a code point.
pub fn offending(b: u8) -> (c: char)
    ensures
        c == b as char,
{
    b as char
}

/// The character reported for a marker left open at the end of the input.
pub fn marker_char(m: Marker) -> (c: char)
    ensures
        c == marker_byte(m) as char,
{
    let b: u8 = match m {
        Marker::ObjectOpen => LBRACE,
        Marker::ArrayOpen => LBRACKET,
        Marker::Colon => COLON,
        Marker::Comma => COMMA,
        Marker::StringOpen => QUOTE,
        Marker::Keyword(w, n) => if n == 0 {
            keyword_letter(w, 5)
        } else {
            keyword_letter(w, n - 1)
        },
        Marker::Number(d, _) => d,
    };
    b as char
}

/// Pops a run of separators and the `ObjectOpen` beneath them.
fn close_object_exec(stack: &mut Vec<Marker>) -> (ok: bool)
    ensures
        ok <==> close_object(old(stack)@) is Some,
        ok ==> close_object(old(stack)@) == Some(final(stack)@),
{
    loop
        invariant
            close_object(stack@) == close_object(old(stack)@),
        decreases stack.len(),
    {
        match stack.pop() {
            None => {
                return false;
            },
            Some(Marker::ObjectOpen) => {
                return true;
            },
            Some(Marker::Colon) => {},
            Some(Marker::Comma) => {},
            Some(_) => {
                return false;
            },
        }
    }
}

fn top_is(stack: &Vec<Marker>, m: Marker) -> (r: bool)
    ensures
        r == (stack@.len() > 0 && stack@.last() == m),
{
    stack.len() > 0 && stack[stack.len() - 1] == m
}

fn at_value(stack: &Vec<Marker>) -> (r: bool)
    ensures
        r == in_value_position(stack@),
{
    top_is(stack, Marker::Colon) || top_is(stack, Marker::Comma)
}

/// Performs a transition outside strings, keywords and numbers.
fn step_outside_exec(stack: &mut Vec<Marker>, b: u8) -> (ok: bool)
    ensures
        ok <==> step_outside(old(stack)@, b) is Some,
        ok ==> step_outside(old(stack)@, b) == Some(final(stack)@),
{
    if b == LBRACE {
        stack.push(Marker::ObjectOpen);
        true
    } else if b == LBRACKET {
        stack.push(Marker::ArrayOpen);
        true
    } else if b == RBRACE {
        close_object_exec(stack)
    } else if b == RBRACKET {
        if top_is(stack, Marker::ArrayOpen) {
            stack.pop();
            true
        } else {
            false
        }
    } else if b == COMMA {
        stack.push(Marker::Comma);
        true
    } else if b == SPACE || b == TAB || b == NEWLINE {
        true
    } else if DIGIT_ZERO <= b && b <= DIGIT_NINE {
        if at_value(stack) {
            stack.push(Marker::Number(b, false));
            true
        } else {
            false
        }
    } else if b == QUOTE {
        stack.push(Marker::StringOpen);
        true
    } else if b == LETTER_T || b == LETTER_F || b == LETTER_N {
        if at_value(stack) {
            let w = if b == LETTER_T {
                Word::True
            } else if b == LETTER_F {
                Word::False
            } else {
                Word::Null
            };
            stack.push(Marker::Keyword(w, 1));
            true
        } else {
            false
        }
    } else if b == COLON {
        if top_is(stack, Marker::ObjectOpen) || top_is(stack, Marker::Comma) {
            stack.push(Marker::Colon);
            true
        } else {
            false
        }
    } else {
        false
    }
}

/// Performs the transition on `b`. On `false` the byte is rejected and the stack
/// is left in no particular state.
pub fn step_exec(stack: &mut Vec<Marker>, b: u8) -> (ok: bool)
    ensures
        ok <==> step(old(stack)@, b) is Some,
        ok ==> step(old(stack)@, b) == Some(final(stack)@),
{
    let ws = b == SPACE || b == TAB || b == NEWLINE;
    if top_is(stack, Marker::StringOpen) {
        if b == QUOTE {
            stack.pop();
            true
        } else {
            ws || (SPACE <= b && b <= TILDE) || b >= NON_ASCII
        }
    } else if stack.len() > 0 && matches!(stack[stack.len() - 1], Marker::Keyword(_, _)) {
        let top = stack[stack.len() - 1];
        if let Marker::Keyword(w, n) = top {
            let len = keyword_len(w);
            if n < len && b == keyword_letter(w, n) {
                stack.pop();
                if n + 1 < len {
                    stack.push(Marker::Keyword(w, n + 1));
                }
                true
            } else {
                false
            }
        } else {
            false
        }
    } else if stack.len() > 0 && matches!(stack[stack.len() - 1], Marker::Number(_, _)) {
        let top = stack[stack.len() - 1];
        if let Marker::Number(d, spaced) = top {
            if DIGIT_ZERO <= b && b <= DIGIT_NINE {
                if spaced {
                    false
                } else {
                    stack.pop();
                    stack.push(Marker::Number(b, false));
                    true
                }
            } else if ws {
                stack.pop();
                stack.push(Marker::Number(d, true));
                true
            } else if b == COMMA || b == RBRACE || b == RBRACKET {
                stack.pop();
                step_outside_exec(stack, b)
            } else {
                false
            }
        } else {
            false
        }
    } else {
        step_outside_exec(stack, b)
    }
}

} // verus!
