use vstd::prelude::*;
use vstd::string::StringSliceAdditionalSpecFns;
use vstd::utf8::*;

use crate::token::{Token, TokenView};

verus! {

/// `a`-`z` or `A`-`Z`.
pub open spec fn is_letter(b: u8) -> bool {
    (97 <= b <= 122) || (65 <= b <= 90)
}

/// `0`-`9`.
pub open spec fn is_digit(b: u8) -> bool {
    48 <= b <= 57
}

/// A space or a newline.
pub open spec fn is_space(b: u8) -> bool {
    b == 32 || b == 10
}

/// The token that a byte stands for on its own, if any.
pub open spec fn symbol(b: u8) -> Option<TokenView> {
    // + - * / = ;
    if b == 43 {
        Some(TokenView::Add)
    } else if b == 45 {
        Some(TokenView::Subtract)
    } else if b == 42 {
        Some(TokenView::Multiply)
    } else if b == 47 {
        Some(TokenView::Divide)
    } else if b == 61 {
        Some(TokenView::Assign)
    } else if b == 59 {
        Some(TokenView::Semicolon)
    } else {
        None
    }
}

/// A byte that no token, nor the white space between tokens, can hold.
pub open spec fn is_unrecognized(b: u8) -> bool {
    !is_letter(b) && !is_digit(b) && !is_space(b) && symbol(b) is None
}

/// The first position at or after `i` that holds no white space.
pub open spec fn skip_spaces(s: Seq<u8>, i: int) -> int
    decreases s.len() - i,
{
    if 0 <= i < s.len() && is_space(s[i]) {
        skip_spaces(s, i + 1)
    } else {
        i
    }
}

/// The first position at or after `i` that holds no letter.
pub open spec fn letters_end(s: Seq<u8>, i: int) -> int
    decreases s.len() - i,
{
    if 0 <= i < s.len() && is_letter(s[i]) {
        letters_end(s, i + 1)
    } else {
        i
    }
}

/// The first position at or after `i` that holds no digit.
pub open spec fn digits_end(s: Seq<u8>, i: int) -> int
    decreases s.len() - i,
{
    if 0 <= i < s.len() && is_digit(s[i]) {
        digits_end(s, i + 1)
    } else {
        i
    }
}

/// The base-10 value of a run of digits.
pub open spec fn decimal_value(d: Seq<u8>) -> nat
    decreases d.len(),
{
    if d.len() == 0 {
        0
    } else {
        decimal_value(d.drop_last()) * 10 + (d.last() - 48) as nat
    }
}

/// What the lexer finds from a position on.
pub enum Scan {
    /// Only white space is left.
    End,
    /// The next token cannot be formed.
    Invalid,
    /// A token, and the position right after it.
    Found(TokenView, int),
}

/// The outcome of one lexing step at position `i` of the source bytes `s`.
pub open spec fn scan(s: Seq<u8>, i: int) -> Scan {
    let j = skip_spaces(s, i);
    if j >= s.len() {
        Scan::End
    } else if is_letter(s[j]) {
        let e = letters_end(s, j);
        Scan::Found(TokenView::Identifier(s.subrange(j, e)), e)
    } else if is_digit(s[j]) {
        let e = digits_end(s, j);
        let v = decimal_value(s.subrange(j, e));
        if v <= u64::MAX {
            Scan::Found(TokenView::Number(v as u64), e)
        } else {
            Scan::Invalid
        }
    } else {
        match symbol(s[j]) {
            Some(t) => Scan::Found(t, j + 1),
            None => Scan::Invalid,
        }
    }
}

/// An item of the token stream: a token, or the failure that ends the stream.
pub enum Lexeme {
    Token(TokenView),
    Invalid,
}

/// The token stream from position `i` on. It ends at the end of the input,
/// or with `Lexeme::Invalid` where a token cannot be formed.
pub open spec fn lex_from(s: Seq<u8>, i: int) -> Seq<Lexeme>
    decreases s.len() - i,
{
    match scan(s, i) {
        Scan::End => seq![],
        Scan::Invalid => seq![Lexeme::Invalid],
        Scan::Found(t, j) => if i < j <= s.len() {
            seq![Lexeme::Token(t)] + lex_from(s, j)
        } else {
            seq![]
        },
    }
}

/// The token stream of a whole source text.
pub open spec fn lex(source: &str) -> Seq<Lexeme> {
    lex_from(source.spec_bytes(), 0)
}

pub(crate) proof fn lemma_skip_spaces(s: Seq<u8>, i: int)
    requires
        0 <= i,
    ensures
        i <= skip_spaces(s, i),
        skip_spaces(s, i) < s.len() ==> !is_space(s[skip_spaces(s, i)]),
        i <= s.len() ==> skip_spaces(s, i) <= s.len(),
    decreases s.len() - i,
{
    if 0 <= i < s.len() && is_space(s[i]) {
        lemma_skip_spaces(s, i + 1);
    }
}

pub(crate) proof fn lemma_letters_end(s: Seq<u8>, i: int)
    requires
        0 <= i <= s.len(),
    ensures
        i <= letters_end(s, i) <= s.len(),
        forall|k: int| i <= k < letters_end(s, i) ==> is_letter(#[trigger] s[k]),
        letters_end(s, i) < s.len() ==> !is_letter(s[letters_end(s, i)]),
    decreases s.len() - i,
{
    if i < s.len() && is_letter(s[i]) {
        lemma_letters_end(s, i + 1);
    }
}

pub(crate) proof fn lemma_digits_end(s: Seq<u8>, i: int)
    requires
        0 <= i <= s.len(),
    ensures
        i <= digits_end(s, i) <= s.len(),
        forall|k: int| i <= k < digits_end(s, i) ==> is_digit(#[trigger] s[k]),
        digits_end(s, i) < s.len() ==> !is_digit(s[digits_end(s, i)]),
    decreases s.len() - i,
{
    if i < s.len() && is_digit(s[i]) {
        lemma_digits_end(s, i + 1);
    }
}

/// A lexing step that finds a token moves forward, and stays within the input.
proof fn lemma_scan_advances(s: Seq<u8>, i: int)
    requires
        0 <= i,
    ensures
        scan(s, i) matches Scan::Found(_, j) ==> i < j <= s.len(),
{
    lemma_skip_spaces(s, i);
    let j = skip_spaces(s, i);
    if j < s.len() {
        lemma_letters_end(s, j);
        lemma_digits_end(s, j);
    }
}

/// The stream from `i` unfolds into the step at `i` and the stream after it.
pub(crate) proof fn lemma_lex_from_unfold(s: Seq<u8>, i: int)
    requires
        0 <= i,
    ensures
        match scan(s, i) {
            Scan::End => lex_from(s, i) == Seq::<Lexeme>::empty(),
            Scan::Invalid => lex_from(s, i) == seq![Lexeme::Invalid],
            Scan::Found(t, j) => lex_from(s, i) == seq![Lexeme::Token(t)] + lex_from(s, j),
        },
{
    lemma_scan_advances(s, i);
}

/// Adding a digit to a run of digits never makes its value smaller.
proof fn lemma_decimal_prefix(d: Seq<u8>, k: int)
    requires
        0 <= k <= d.len(),
        forall|m: int| 0 <= m < d.len() ==> is_digit(#[trigger] d[m]),
    ensures
        decimal_value(d.subrange(0, k)) <= decimal_value(d),
    decreases d.len(),
{
    if k < d.len() {
        let p = d.drop_last();
        assert(p.subrange(0, k) =~= d.subrange(0, k));
        lemma_decimal_prefix(p, k);
    } else {
        assert(d.subrange(0, k) =~= d);
    }
}

/// In valid UTF-8, the position after an ASCII byte that starts a character
/// starts a character too.
proof fn lemma_boundary_after_ascii(b: Seq<u8>, i: int)
    requires
        valid_utf8(b),
        0 <= i < b.len(),
        b[i] < 0x80,
        is_char_boundary(b, i),
    ensures
        is_char_boundary(b, i + 1),
    decreases b.len(),
{
    let l = length_of_first_scalar(b);
    let p = pop_first_scalar(b);
    if i == 0 {
        assert(l == 1);
        assert(is_char_boundary(p, 0));
    } else {
        assert(p[i - l] == b[i]);
        lemma_boundary_after_ascii(p, i - l);
    }
}

fn is_letter_byte(b: u8) -> (r: bool)
    ensures
        r == is_letter(b),
{
    (97 <= b && b <= 122) || (65 <= b && b <= 90)
}

fn is_digit_byte(b: u8) -> (r: bool)
    ensures
        r == is_digit(b),
{
    48 <= b && b <= 57
}

/// Lexing fails: the input holds a byte that starts no token, or a number
/// that does not fit in 64 bits.
#[derive(PartialEq, Eq, Debug, Clone, Copy, Structural)]
pub struct LexError;

/// A cursor over a source text that hands out its tokens one by one.
pub struct Lexer<'a> {
    source: &'a str,
    index: usize,
}

impl<'a> Lexer<'a> {
    /// The bytes of the source text.
    pub closed spec fn bytes(&self) -> Seq<u8> {
        self.source.spec_bytes()
    }

    /// The byte position of the cursor.
    pub closed spec fn position(&self) -> int {
        self.index as int
    }

    /// The tokens that are yet to come.
    pub open spec fn remaining(&self) -> Seq<Lexeme> {
        lex_from(self.bytes(), self.position())
    }

    /// A lexer at the start of `source`.
    pub fn new(source: &'a str) -> (r: Self)
        ensures
            r.bytes() == source.spec_bytes(),
            r.position() == 0,
            r.remaining() == lex(source),
    {
        Lexer { source, index: 0 }
    }

    /// Hands out the next token: `None` at the end of the input, an error
    /// where no token can be formed. A number that does not fit in 64 bits
    /// is such an error.
    pub fn next(&mut self) -> (r: Option<Result<Token<'a>, LexError>>)
        ensures
            final(self).bytes() == old(self).bytes(),
            match scan(old(self).bytes(), old(self).position()) {
                Scan::End => r is None,
                Scan::Invalid => r == Some(Err::<Token<'a>, LexError>(LexError)),
                Scan::Found(t, j) => r matches Some(Ok(tok)) && tok@ == t
                    && final(self).position() == j,
            },
            r is None ==> old(self).remaining().len() == 0 && final(self).remaining().len() == 0,
            r matches Some(Err(_)) ==> old(self).remaining() == seq![Lexeme::Invalid],
            r matches Some(Ok(tok)) ==> old(self).remaining() == seq![Lexeme::Token(tok@)]
                + final(self).remaining(),
    {
        proof {
            lemma_lex_from_unfold(self.bytes(), self.position());
            lemma_skip_spaces(self.bytes(), self.position());
        }
        let bytes: &[u8] = self.source.as_bytes();
        let len: usize = bytes.len();
        let ghost s = bytes@;
        let ghost first = skip_spaces(s, self.index as int);
        while self.index < len && (bytes[self.index] == 32 || bytes[self.index] == 10)
            invariant
                bytes@ == s,
                s == self.source.spec_bytes(),
                len == s.len(),
                self.source == old(self).source,
                skip_spaces(s, self.index as int) == first,
            decreases len - self.index,
        {
            self.index = self.index + 1;
        }
        if self.index >= len {
            proof {
                lemma_lex_from_unfold(s, self.index as int);
            }
            return None;
        }
        let start: usize = self.index;
        let byte: u8 = bytes[start];
        self.index = start + 1;
        if is_letter_byte(byte) {
            proof {
                lemma_letters_end(s, start as int);
            }
            while self.index < len && is_letter_byte(bytes[self.index])
                invariant
                    bytes@ == s,
                    s == self.source.spec_bytes(),
                    len == s.len(),
                    self.source == old(self).source,
                    start < self.index <= len,
                    letters_end(s, start as int) == letters_end(s, self.index as int),
                    forall|k: int| start <= k < self.index ==> is_letter(#[trigger] s[k]),
                decreases len - self.index,
            {
                self.index = self.index + 1;
            }
            let end: usize = self.index;
            proof {
                lemma_letters_end(s, end as int);
                broadcast use encode_utf8_valid_utf8, is_char_boundary_iff_not_is_continuation_byte,
                    is_char_boundary_start_end_of_seq;
                assert(valid_utf8(s));
                if end < len {
                    assert(is_letter(s[end - 1]));
                    is_char_boundary_iff_not_is_continuation_byte(s, end - 1);
                    lemma_boundary_after_ascii(s, end - 1);
                }
            }
            let (head, _) = self.source.split_at(end);
            proof {
                let hb = head.spec_bytes();
                broadcast use encode_utf8_valid_utf8, is_char_boundary_iff_not_is_continuation_byte;
                assert(valid_utf8(hb));
                assert(hb =~= s.subrange(0, end as int));
                assert(is_letter(hb[start as int]));
                is_char_boundary_iff_not_is_continuation_byte(hb, start as int);
            }
            let (_, word) = head.split_at(start);
            proof {
                assert(word.spec_bytes() =~= s.subrange(start as int, end as int));
            }
            return Some(Ok(Token::Identifier(word)));
        }
        if is_digit_byte(byte) {
            proof {
                lemma_digits_end(s, start as int);
                let d = s.subrange(start as int, start + 1);
                assert(d.drop_last() =~= Seq::<u8>::empty());
                assert(decimal_value(Seq::<u8>::empty()) == 0);
                assert(decimal_value(d) == (byte - 48) as nat);
            }
            let mut num: u64 = (byte - 48) as u64;
            while self.index < len && is_digit_byte(bytes[self.index])
                invariant
                    bytes@ == s,
                    s == self.source.spec_bytes(),
                    len == s.len(),
                    self.source == old(self).source,
                    start < self.index <= len,
                    digits_end(s, start as int) == digits_end(s, self.index as int),
                    forall|k: int| start <= k < self.index ==> is_digit(#[trigger] s[k]),
                    num == decimal_value(s.subrange(start as int, self.index as int)),
                    skip_spaces(s, old(self).index as int) == start,
                decreases len - self.index,
            {
                let i: usize = self.index;
                let digit: u64 = (bytes[i] - 48) as u64;
                proof {
                    assert(s.subrange(start as int, i + 1).drop_last()
                        =~= s.subrange(start as int, i as int));
                    assert(decimal_value(s.subrange(start as int, i + 1)) == num * 10 + digit);
                }
                let next = match num.checked_mul(10) {
                    Some(m) => m.checked_add(digit),
                    None => None,
                };
                match next {
                    Some(n) => {
                        num = n;
                    },
                    None => {
                        proof {
                            let e = digits_end(s, start as int);
                            lemma_digits_end(s, i as int);
                            let d = s.subrange(start as int, e);
                            assert(d.subrange(0, i + 1 - start) =~= s.subrange(start as int, i + 1));
                            assert forall|m: int| 0 <= m < d.len() implies is_digit(#[trigger] d[m]) by {
                                assert(d[m] == s[start + m]);
                            }
                            lemma_decimal_prefix(d, i + 1 - start);
                        }
                        return Some(Err(LexError));
                    },
                }
                self.index = i + 1;
            }
            proof {
                lemma_digits_end(s, self.index as int);
            }
            return Some(Ok(Token::Number(num)));
        }
        let token = if byte == 43 {
            Token::Add
        } else if byte == 45 {
            Token::Subtract
        } else if byte == 42 {
            Token::Multiply
        } else if byte == 47 {
            Token::Divide
        } else if byte == 61 {
            Token::Assign
        } else if byte == 59 {
            Token::Semicolon
        } else {
            return Some(Err(LexError));
        };
        Some(Ok(token))
    }

    /// All the tokens that are left, in order, or the error where lexing fails.
    pub fn tokens(self) -> (r: Result<Vec<Token<'a>>, LexError>)
        ensures
            r matches Ok(v) ==> self.remaining() == v@.map_values(|t: Token<'a>| Lexeme::Token(t@)),
            r is Err ==> self.remaining().len() > 0 && self.remaining().last() == Lexeme::Invalid,
    {
        let ghost all = self.remaining();
        let mut lexer = self;
        let mut out: Vec<Token<'a>> = Vec::new();
        loop
            invariant
                all == self.remaining(),
                all == out@.map_values(|t: Token<'a>| Lexeme::Token(t@)) + lexer.remaining(),
            decreases lexer.remaining().len(),
        {
            let ghost before = lexer.remaining();
            let ghost done = out@;
            match lexer.next() {
                None => {
                    assert(all =~= out@.map_values(|t: Token<'a>| Lexeme::Token(t@)));
                    return Ok(out);
                },
                Some(Err(e)) => {
                    assert(all.last() == before.last());
                    return Err(e);
                },
                Some(Ok(t)) => {
                    out.push(t);
                    assert(out@.map_values(|t: Token<'a>| Lexeme::Token(t@)) =~= done.map_values(
                        |t: Token<'a>| Lexeme::Token(t@),
                    ).push(Lexeme::Token(t@)));
                    assert(all =~= out@.map_values(|t: Token<'a>| Lexeme::Token(t@))
                        + lexer.remaining());
                },
            }
        }
    }
}

} // verus!
