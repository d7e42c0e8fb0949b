use vstd::prelude::*;
use vstd::string::StrSliceExecFns;
use crate::text::{int_text, int_string};

verus! {

/// One lexical unit of the source text.  Tokenization is total: a word that
/// is not a parenthesis is tried as an integer literal, then as a quoted
/// string (one leading and one trailing `"`), and otherwise is a symbol.
#[derive(Debug, Clone)]
pub enum Token {
    LParen,
    RParen,
    Integer(i64),
    String(String),
    Symbol(String),
}

/// The mathematical model of a token.
pub enum TokenSpec {
    LParen,
    RParen,
    Integer(i64),
    Str(Seq<char>),
    Symbol(Seq<char>),
}

impl View for Token {
    type V = TokenSpec;

    open spec fn view(&self) -> TokenSpec {
        match self {
            Token::LParen => TokenSpec::LParen,
            Token::RParen => TokenSpec::RParen,
            Token::Integer(n) => TokenSpec::Integer(*n),
            Token::String(s) => TokenSpec::Str(s@),
            Token::Symbol(s) => TokenSpec::Symbol(s@),
        }
    }
}

/// The model of a token vector, token by token.
pub open spec fn view_tokens(v: Seq<Token>) -> Seq<TokenSpec>
    decreases v,
{
    if v.len() == 0 {
        Seq::empty()
    } else {
        view_tokens(v.subrange(0, v.len() - 1)).push(v[v.len() - 1]@)
    }
}

pub broadcast proof fn lemma_view_tokens(v: Seq<Token>)
    ensures
        #![trigger view_tokens(v)]
        view_tokens(v).len() == v.len(),
        forall|i: int| 0 <= i < v.len() ==> view_tokens(v)[i] == v[i]@,
    decreases v,
{
    if v.len() > 0 {
        let pre = v.subrange(0, v.len() - 1);
        lemma_view_tokens(pre);
        assert forall|i: int| 0 <= i < v.len() implies view_tokens(v)[i] == v[i]@ by {
            if i < v.len() - 1 {
                assert(view_tokens(v)[i] == view_tokens(pre)[i]);
                assert(pre[i] == v[i]);
            }
        }
    }
}

/// The whitespace characters that separate words.
pub open spec fn is_space_char(c: char) -> bool {
    let u = c as u32;
    ||| u == 0x09
    ||| u == 0x0A
    ||| u == 0x0B
    ||| u == 0x0C
    ||| u == 0x0D
    ||| u == 0x20
    ||| u == 0x85
    ||| u == 0xA0
    ||| u == 0x1680
    ||| (0x2000 <= u && u <= 0x200A)
    ||| u == 0x2028
    ||| u == 0x2029
    ||| u == 0x202F
    ||| u == 0x205F
    ||| u == 0x3000
}

fn is_space(c: char) -> (r: bool)
    ensures
        r == is_space_char(c),
{
    let u = c as u32;
    u == 0x09 || u == 0x0A || u == 0x0B || u == 0x0C || u == 0x0D || u == 0x20 || u == 0x85
        || u == 0xA0 || u == 0x1680 || (0x2000 <= u && u <= 0x200A) || u == 0x2028 || u == 0x2029
        || u == 0x202F || u == 0x205F || u == 0x3000
}

/// A decimal digit.
pub open spec fn is_digit_char(c: char) -> bool {
    48 <= c as u32 <= 57
}

/// The numeric value of one digit character.
pub open spec fn digit_value(c: char) -> int {
    c as u32 - 48
}

/// Whether every character of `s` is a decimal digit.
pub open spec fn all_digits(s: Seq<char>) -> bool {
    forall|i: int| 0 <= i < s.len() ==> is_digit_char(#[trigger] s[i])
}

/// The value of a digit string, most significant digit first.
pub open spec fn digits_value(s: Seq<char>) -> int
    decreases s,
{
    if s.len() == 0 {
        0
    } else {
        digits_value(s.drop_last()) * 10 + digit_value(s.last())
    }
}

/// The value of a word as a signed 64-bit integer literal: an optional
/// `+` or `-` sign, then one or more decimal digits, with the signed value
/// in range; `None` for any other word.
pub open spec fn int_literal_value(w: Seq<char>) -> Option<i64> {
    let has_sign = w.len() > 0 && (w[0] == '+' || w[0] == '-');
    let negative = w.len() > 0 && w[0] == '-';
    let ds = if has_sign {
        w.subrange(1, w.len() as int)
    } else {
        w
    };
    if ds.len() == 0 || !all_digits(ds) {
        None
    } else {
        let magnitude = digits_value(ds);
        let value = if negative {
            -magnitude
        } else {
            magnitude
        };
        if i64::MIN <= value <= i64::MAX {
            Some(value as i64)
        } else {
            None
        }
    }
}

/// The classification of one word, in the fixed priority order:
/// integer literal, then quoted string, then symbol.
pub open spec fn classify(w: Seq<char>) -> TokenSpec {
    match int_literal_value(w) {
        Option::Some(n) => TokenSpec::Integer(n),
        Option::None => (if w.len() >= 2 && w[0] == '"' && w[w.len() - 1] == '"' {
            TokenSpec::Str(w.subrange(1, w.len() - 1))
        } else {
            TokenSpec::Symbol(w)
        }),
    }
}

/// The position right after the word that starts at `i`: the first position
/// at or after `i` holding whitespace or a parenthesis, or the end.
pub open spec fn word_end(s: Seq<char>, i: int) -> int
    decreases (if s.len() - i >= 0 { s.len() - i } else { 0int }),
{
    if i < 0 || i >= s.len() {
        i
    } else if is_space_char(s[i]) || s[i] == '(' || s[i] == ')' {
        i
    } else {
        word_end(s, i + 1)
    }
}

proof fn lemma_word_end(s: Seq<char>, i: int)
    requires
        0 <= i <= s.len(),
    ensures
        i <= word_end(s, i) <= s.len(),
        forall|t: int|
            i <= t < word_end(s, i) ==> !is_space_char(#[trigger] s[t]) && s[t] != '(' && s[t]
                != ')',
    decreases s.len() - i,
{
    if i < s.len() && !(is_space_char(s[i]) || s[i] == '(' || s[i] == ')') {
        lemma_word_end(s, i + 1);
    }
}

/// The tokens of the source text from position `i` on: whitespace is
/// skipped, each parenthesis is one token, and every other maximal run of
/// non-space, non-parenthesis characters is one classified word.
pub open spec fn lex_from(s: Seq<char>, i: int) -> Seq<TokenSpec>
    decreases s.len() - i
        via lex_from_decreases
{
    if i < 0 || i >= s.len() {
        Seq::empty()
    } else if is_space_char(s[i]) {
        lex_from(s, i + 1)
    } else if s[i] == '(' {
        seq![TokenSpec::LParen] + lex_from(s, i + 1)
    } else if s[i] == ')' {
        seq![TokenSpec::RParen] + lex_from(s, i + 1)
    } else {
        seq![classify(s.subrange(i, word_end(s, i)))] + lex_from(s, word_end(s, i))
    }
}

#[via_fn]
proof fn lex_from_decreases(s: Seq<char>, i: int) {
    if 0 <= i < s.len() && !is_space_char(s[i]) && s[i] != '(' && s[i] != ')' {
        lemma_word_end(s, i + 1);
    }
}

/// The token sequence of the whole source text.  Tokenization never fails.
pub open spec fn lex(s: Seq<char>) -> Seq<TokenSpec> {
    lex_from(s, 0)
}

/// Whether the character at `j` belongs to a word: neither whitespace nor
/// a parenthesis.
fn is_word_at(s: &str, j: usize) -> (r: bool)
    requires
        j < s@.len(),
    ensures
        r == (!is_space_char(s@[j as int]) && s@[j as int] != '(' && s@[j as int] != ')'),
{
    let c = s.get_char(j);
    !is_space(c) && c != '(' && c != ')'
}

/// Parses a whole word as a signed 64-bit decimal integer literal.
fn parse_int_literal(w: &str) -> (r: Option<i64>)
    ensures
        r == int_literal_value(w@),
{
    let len = w.unicode_len();
    if len == 0 {
        return None;
    }
    let first = w.get_char(0);
    let has_sign = first == '+' || first == '-';
    let negative = first == '-';
    let start: usize = if has_sign {
        1
    } else {
        0
    };
    let ghost ds = if has_sign {
        w@.subrange(1, w@.len() as int)
    } else {
        w@
    };
    if len == start {
        return None;
    }
    let limit: u64 = if negative {
        9223372036854775808u64
    } else {
        9223372036854775807u64
    };
    let mut magnitude: u64 = 0;
    let mut i: usize = start;
    while i < len
        invariant
            start <= i <= len,
            len == w@.len(),
            start == (if has_sign { 1int } else { 0int }),
            ds == (if has_sign { w@.subrange(1, w@.len() as int) } else { w@ }),
            ds.len() == len - start,
            forall|t: int| 0 <= t < i - start ==> is_digit_char(#[trigger] ds[t]),
            magnitude as int == digits_value(ds.subrange(0, i - start)),
            magnitude <= limit,
            limit == (if negative { 9223372036854775808u64 } else { 9223372036854775807u64 }),
            negative == (w@.len() > 0 && w@[0] == '-'),
            has_sign == (w@.len() > 0 && (w@[0] == '+' || w@[0] == '-')),
        decreases len - i,
    {
        let c = w.get_char(i);
        let u = c as u32;
        if !(48 <= u && u <= 57) {
            proof {
                assert(ds[i - start] == w@[i as int]);
                assert(!is_digit_char(ds[i - start]));
            }
            return None;
        }
        let d: u64 = (u - 48) as u64;
        proof {
            assert(ds[i - start] == w@[i as int]);
        }
        if magnitude > (limit - d) / 10 {
            proof {
                let pre = ds.subrange(0, i - start);
                let sub = ds.subrange(0, i - start + 1);
                assert(sub.drop_last() =~= pre);
                assert(sub.last() == ds[i - start]);
                assert(digits_value(sub) == (magnitude as int) * 10 + d);
                assert((limit - d) / 10 * 10 + 10 > limit - d) by (nonlinear_arith)
                    requires
                        0 <= d <= limit,
                ;
                assert(magnitude * 10 >= ((limit - d) / 10 + 1) * 10) by (nonlinear_arith)
                    requires
                        magnitude > (limit - d) / 10,
                ;
                assert(digits_value(sub) > limit as int);
                if all_digits(ds) {
                    lemma_digit_prefix_overflow(ds, i - start + 1, limit as int);
                    assert(digits_value(ds) > limit as int);
                }
            }
            return None;
        }
        proof {
            assert(magnitude * 10 <= (limit - d) / 10 * 10) by (nonlinear_arith)
                requires
                    magnitude <= (limit - d) / 10,
            ;
            assert((limit - d) / 10 * 10 <= limit - d);
            assert(ds.subrange(0, i - start + 1).drop_last() =~= ds.subrange(0, i - start));
        }
        magnitude = magnitude * 10 + d;
        i = i + 1;
    }
    proof {
        assert(ds.subrange(0, ds.len() as int) =~= ds);
        assert(all_digits(ds));
    }
    if negative {
        if magnitude == 9223372036854775808u64 {
            Some(i64::MIN)
        } else {
            Some(-(magnitude as i64))
        }
    } else {
        Some(magnitude as i64)
    }
}

/// A digit string whose prefix already exceeds `limit` has a value above
/// `limit`: appending digits never shrinks the value.
proof fn lemma_digit_prefix_overflow(ds: Seq<char>, k: int, limit: int)
    requires
        0 <= k <= ds.len(),
        limit >= 0,
        forall|t: int| 0 <= t < ds.len() ==> is_digit_char(#[trigger] ds[t]),
        digits_value(ds.subrange(0, k)) > limit,
    ensures
        digits_value(ds) > limit,
    decreases ds.len() - k,
{
    lemma_digits_value_nonneg(ds.subrange(0, k));
    if k < ds.len() {
        let pre = ds.subrange(0, k);
        let next = ds.subrange(0, k + 1);
        assert(next.drop_last() =~= pre);
        assert(digits_value(next) == digits_value(pre) * 10 + digit_value(next.last()));
        assert(digits_value(pre) * 10 >= digits_value(pre)) by (nonlinear_arith)
            requires
                digits_value(pre) >= 0,
        ;
        lemma_digit_prefix_overflow(ds, k + 1, limit);
    } else {
        assert(ds.subrange(0, k) =~= ds);
    }
}

proof fn lemma_digits_value_nonneg(s: Seq<char>)
    requires
        forall|t: int| 0 <= t < s.len() ==> is_digit_char(#[trigger] s[t]),
    ensures
        digits_value(s) >= 0,
    decreases s,
{
    if s.len() > 0 {
        lemma_digits_value_nonneg(s.drop_last());
        assert(digits_value(s.drop_last()) * 10 >= 0) by (nonlinear_arith)
            requires
                digits_value(s.drop_last()) >= 0,
        ;
    }
}

/// Classifies one word: integer literal, then quoted string, then symbol.
fn classify_word(w: &str) -> (t: Token)
    ensures
        t@ == classify(w@),
{
    match parse_int_literal(w) {
        Option::Some(n) => Token::Integer(n),
        Option::None => {
            let len = w.unicode_len();
            if len >= 2 && w.get_char(0) == '"' && w.get_char(len - 1) == '"' {
                let inner = w.substring_char(1, len - 1);
                Token::String(inner.to_owned())
            } else {
                Token::Symbol(w.to_owned())
            }
        },
    }
}

/// Splits the source text into tokens: each parenthesis is its own token,
/// whitespace separates words, and each word is classified as an integer
/// literal, a quoted string, or a symbol.  Always succeeds; empty or
/// whitespace-only input gives an empty sequence.
pub fn tokenize(program: &str) -> (tokens: Vec<Token>)
    ensures
        view_tokens(tokens@) == lex(program@),
{
    broadcast use lemma_view_tokens;

    let len = program.unicode_len();
    let mut tokens: Vec<Token> = Vec::new();
    let mut i: usize = 0;
    while i < len
        invariant
            i <= len,
            len == program@.len(),
            view_tokens(tokens@) + lex_from(program@, i as int) =~= lex(program@),
        decreases len - i,
    {
        broadcast use lemma_view_tokens;

        let ghost s = program@;
        let c = program.get_char(i);
        if is_space(c) {
            i = i + 1;
        } else if c == '(' {
            tokens.push(Token::LParen);
            proof {
                assert(view_tokens(tokens@).drop_last() =~= view_tokens(tokens@.drop_last()));
                assert(view_tokens(tokens@) + lex_from(s, i + 1) =~= lex(s));
            }
            i = i + 1;
        } else if c == ')' {
            tokens.push(Token::RParen);
            proof {
                assert(view_tokens(tokens@).drop_last() =~= view_tokens(tokens@.drop_last()));
                assert(view_tokens(tokens@) + lex_from(s, i + 1) =~= lex(s));
            }
            i = i + 1;
        } else {
            let mut j = i + 1;
            proof {
                lemma_word_end(s, i as int);
            }
            while j < len && is_word_at(program, j)
                invariant
                    i < j <= len,
                    len == s.len(),
                    s == program@,
                    word_end(s, i as int) == word_end(s, j as int),
                decreases len - j,
            {
                j = j + 1;
            }
            proof {
                assert(word_end(s, j as int) == j);
                lemma_word_end(s, i as int);
            }
            let word = program.substring_char(i, j);
            let tok = classify_word(word);
            tokens.push(tok);
            proof {
                assert(view_tokens(tokens@).drop_last() =~= view_tokens(tokens@.drop_last()));
                assert(view_tokens(tokens@) + lex_from(s, j as int) =~= lex(s));
            }
            i = j;
        }
    }
    proof {
        assert(view_tokens(tokens@) =~= lex(program@));
    }
    tokens
}

/// The textual form of a token.
pub open spec fn token_text(t: TokenSpec) -> Seq<char> {
    match t {
        TokenSpec::LParen => "("@,
        TokenSpec::RParen => ")"@,
        TokenSpec::Integer(n) => int_text(n as int),
        TokenSpec::Str(s) => s,
        TokenSpec::Symbol(s) => s,
    }
}

impl Token {
    /// Renders this token as text.
    pub fn to_text(&self) -> (r: String)
        ensures
            r@ == token_text(self@),
    {
        match self {
            Token::LParen => "(".to_owned(),
            Token::RParen => ")".to_owned(),
            Token::Integer(n) => int_string(*n),
            Token::String(s) => s.clone(),
            Token::Symbol(s) => s.clone(),
        }
    }
}

} // verus!
