use vstd::prelude::*;
use crate::parser::{Outcome, StreamParser};

verus! {

/// A token of a small s-expression grammar.
#[derive(Clone, Debug, PartialEq, Eq)]
pub enum Token {
    /// `(`
    Lpar,
    /// `)`
    Rpar,
    /// A letter followed by letters and digits.
    Sym(Vec<u8>),
}

/// A token as a mathematical value.
pub enum TokenView {
    Lpar,
    Rpar,
    Sym(Seq<u8>),
}

impl View for Token {
    type V = TokenView;

    open spec fn view(&self) -> TokenView {
        match self {
            Token::Lpar => TokenView::Lpar,
            Token::Rpar => TokenView::Rpar,
            Token::Sym(s) => TokenView::Sym(s@),
        }
    }
}

/// Space, tab, line feed or carriage return.
pub open spec fn is_space(b: u8) -> bool {
    b == 0x20 || b == 0x09 || b == 0x0a || b == 0x0d
}

/// An ASCII letter.
pub open spec fn is_alpha(b: u8) -> bool {
    (0x41 <= b <= 0x5a) || (0x61 <= b <= 0x7a)
}

/// An ASCII letter or digit.
pub open spec fn is_alnum(b: u8) -> bool {
    is_alpha(b) || (0x30 <= b <= 0x39)
}

/// The first position at or after `i` whose byte is not a space, or the
/// length of `s` if there is none.
pub open spec fn space_end(s: Seq<u8>, i: int) -> int
    decreases s.len() - i,
{
    if i < 0 || i >= s.len() {
        s.len() as int
    } else if is_space(s[i]) {
        space_end(s, i + 1)
    } else {
        i
    }
}

/// The first position at or after `i` whose byte is not a letter or digit,
/// or the length of `s` if there is none.
pub open spec fn alnum_end(s: Seq<u8>, i: int) -> int
    decreases s.len() - i,
{
    if i < 0 || i >= s.len() {
        s.len() as int
    } else if is_alnum(s[i]) {
        alnum_end(s, i + 1)
    } else {
        i
    }
}

/// The grammar: skip white space, then `(`, `)`, or a symbol. A symbol is
/// complete only once a byte that cannot continue it has been seen, and input
/// that is all white space asks for more.
pub open spec fn token_spec(s: Seq<u8>) -> Outcome<TokenView> {
    let w = space_end(s, 0);
    if w >= s.len() {
        Outcome::Incomplete { needed: 1 }
    } else if s[w] == 0x28 {
        Outcome::Success { consumed: (w + 1) as usize, value: TokenView::Lpar }
    } else if s[w] == 0x29 {
        Outcome::Success { consumed: (w + 1) as usize, value: TokenView::Rpar }
    } else if is_alpha(s[w]) {
        let e = alnum_end(s, w);
        if e >= s.len() {
            Outcome::Incomplete { needed: 1 }
        } else {
            Outcome::Success { consumed: e as usize, value: TokenView::Sym(s.subrange(w, e)) }
        }
    } else {
        Outcome::SoftError
    }
}

proof fn lemma_space_end(s: Seq<u8>, i: int)
    requires
        0 <= i <= s.len(),
    ensures
        i <= space_end(s, i) <= s.len(),
        forall|j: int| i <= j < space_end(s, i) ==> is_space(#[trigger] s[j]),
    decreases s.len() - i,
{
    if i < s.len() && is_space(s[i]) {
        lemma_space_end(s, i + 1);
    }
}

proof fn lemma_alnum_end(s: Seq<u8>, i: int)
    requires
        0 <= i <= s.len(),
    ensures
        i <= alnum_end(s, i) <= s.len(),
    decreases s.len() - i,
{
    if i < s.len() && is_alnum(s[i]) {
        lemma_alnum_end(s, i + 1);
    }
}

/// Appending input behind a position where the white space already ended
/// does not move that position.
proof fn lemma_space_end_extends(s: Seq<u8>, m: Seq<u8>, i: int)
    requires
        0 <= i <= s.len(),
        space_end(s, i) < s.len(),
    ensures
        space_end(s + m, i) == space_end(s, i),
    decreases s.len() - i,
{
    assert((s + m)[i] == s[i]);
    if is_space(s[i]) {
        lemma_space_end_extends(s, m, i + 1);
    }
}

proof fn lemma_alnum_end_extends(s: Seq<u8>, m: Seq<u8>, i: int)
    requires
        0 <= i <= s.len(),
        alnum_end(s, i) < s.len(),
    ensures
        alnum_end(s + m, i) == alnum_end(s, i),
    decreases s.len() - i,
{
    assert((s + m)[i] == s[i]);
    if is_alnum(s[i]) {
        lemma_alnum_end_extends(s, m, i + 1);
    }
}

fn skip_spaces(input: &[u8], start: usize) -> (r: usize)
    requires
        start <= input@.len(),
    ensures
        r as int == space_end(input@, start as int),
{
    let mut i = start;
    while i < input.len()
        invariant
            start <= i <= input@.len(),
            space_end(input@, i as int) == space_end(input@, start as int),
        decreases input@.len() - i,
    {
        let b = input[i];
        if b == 0x20 || b == 0x09 || b == 0x0a || b == 0x0d {
            i = i + 1;
        } else {
            return i;
        }
    }
    i
}

fn skip_alnum(input: &[u8], start: usize) -> (r: usize)
    requires
        start <= input@.len(),
    ensures
        r as int == alnum_end(input@, start as int),
{
    let mut i = start;
    while i < input.len()
        invariant
            start <= i <= input@.len(),
            alnum_end(input@, i as int) == alnum_end(input@, start as int),
        decreases input@.len() - i,
    {
        let b = input[i];
        if (0x41 <= b && b <= 0x5a) || (0x61 <= b && b <= 0x7a) || (0x30 <= b && b <= 0x39) {
            i = i + 1;
        } else {
            return i;
        }
    }
    i
}

/// Reads one token from the front of `input`.
pub fn token(input: &[u8]) -> (r: Outcome<Token>)
    ensures
        r@ == token_spec(input@),
{
    let w = skip_spaces(input, 0);
    if w >= input.len() {
        return Outcome::Incomplete { needed: 1 };
    }
    let b = input[w];
    if b == 0x28 {
        Outcome::Success { consumed: w + 1, value: Token::Lpar }
    } else if b == 0x29 {
        Outcome::Success { consumed: w + 1, value: Token::Rpar }
    } else if (0x41 <= b && b <= 0x5a) || (0x61 <= b && b <= 0x7a) {
        let e = skip_alnum(input, w);
        if e >= input.len() {
            return Outcome::Incomplete { needed: 1 };
        }
        proof {
            lemma_alnum_end(input@, w as int);
        }
        let mut sym: Vec<u8> = Vec::new();
        let mut k = w;
        while k < e
            invariant
                w <= k <= e <= input@.len(),
                sym@ == input@.subrange(w as int, k as int),
            decreases e - k,
        {
            sym.push(input[k]);
            k = k + 1;
            assert(sym@ =~= input@.subrange(w as int, k as int));
        }
        Outcome::Success { consumed: e, value: Token::Sym(sym) }
    } else {
        Outcome::SoftError
    }
}

/// The tokenizer of the grammar above, as a parser the engine can drive.
pub struct Tokenizer;

impl StreamParser for Tokenizer {
    type Output = Token;

    open spec fn parse_spec(&self, input: Seq<u8>) -> Outcome<TokenView> {
        token_spec(input)
    }

    fn parse(&self, input: &[u8]) -> (r: Outcome<Token>) {
        token(input)
    }

    proof fn lemma_streaming(&self, input: Seq<u8>, more: Seq<u8>) {
        let all = input + more;
        lemma_space_end(input, 0);
        let w = space_end(input, 0);
        if w < input.len() {
            lemma_space_end_extends(input, more, 0);
            assert(all[w] == input[w]);
            if input[w] != 0x28 && input[w] != 0x29 && is_alpha(input[w]) {
                lemma_alnum_end(input, w + 1);
                let e = alnum_end(input, w);
                if e < input.len() {
                    lemma_alnum_end_extends(input, more, w);
                    assert(all.subrange(w, e) =~= input.subrange(w, e));
                }
            }
        }
    }
}

} // verus!
