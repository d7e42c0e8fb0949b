use vstd::prelude::*;
use crate::atom::{Atom, AtomSpec, all_syntax, is_syntax, view_atoms, lemma_view_atoms};
use crate::lexer::{Token, TokenSpec, tokenize, lex, view_tokens, lemma_view_tokens};

verus! {

/// Why a token stream was rejected.  The grammar expects exactly one
/// parenthesized form per call:
/// `program := list`, `list := '(' item* ')'`,
/// `item := list | Integer | String | Symbol`.
#[derive(Debug, Clone, Copy, PartialEq, Eq, Structural)]
pub enum ParseError {
    /// The stream is empty or does not begin with `(`: a bare top-level
    /// atom is rejected under the strict grammar.
    ExpectedLeftParen,
    /// The stream ended before the matching `)` was found.
    UnexpectedEnd,
    /// Tokens remain after the top-level form closed, so the parse would
    /// silently drop input.
    TrailingInput,
}

/// Parses one item at position `i`: a literal or symbol token, or a whole
/// nested list opened by `(`.  Returns the item and the position after it.
pub open spec fn parse_form(s: Seq<TokenSpec>, i: int) -> Option<(AtomSpec, int)>
    decreases s.len() - i, 0int,
{
    if i < 0 || i >= s.len() {
        None
    } else {
        match s[i] {
            TokenSpec::LParen => (match parse_list_at(s, i + 1) {
                Option::Some((items, j)) => Some((AtomSpec::List(items), j)),
                Option::None => None,
            }),
            TokenSpec::RParen => None,
            TokenSpec::Integer(n) => Some((AtomSpec::Integer(n), i + 1)),
            TokenSpec::Str(t) => Some((AtomSpec::Str(t), i + 1)),
            TokenSpec::Symbol(t) => Some((AtomSpec::Symbol(t), i + 1)),
        }
    }
}

/// Parses list items from position `i` up to the closing `)`.  Returns the
/// items and the position after the `)`; `None` when the stream ends first.
/// (An item never ends where it began; the inner bound only keeps the
/// definition well-founded.)
pub open spec fn parse_list_at(s: Seq<TokenSpec>, i: int) -> Option<(Seq<AtomSpec>, int)>
    decreases s.len() - i, 1int,
{
    if i < 0 || i >= s.len() {
        None
    } else if s[i] is RParen {
        Some((Seq::empty(), i + 1))
    } else {
        match parse_form(s, i) {
            Option::None => None,
            Option::Some((a, j)) => {
                let next = if i < j <= s.len() {
                    j
                } else {
                    i + 1
                };
                match parse_list_at(s, next) {
                    Option::None => None,
                    Option::Some((rest, k)) => Some((seq![a] + rest, k)),
                }
            },
        }
    }
}

/// The outcome of parsing a whole token stream: exactly one well-formed
/// top-level list, or the reason there is none.
pub open spec fn parse_program(s: Seq<TokenSpec>) -> Result<AtomSpec, ParseError> {
    if s.len() == 0 || !(s[0] is LParen) {
        Err(ParseError::ExpectedLeftParen)
    } else {
        match parse_list_at(s, 1) {
            Option::None => Err(ParseError::UnexpectedEnd),
            Option::Some((items, j)) => (if j == s.len() {
                Ok(AtomSpec::List(items))
            } else {
                Err(ParseError::TrailingInput)
            }),
        }
    }
}

/// The token rendering of a syntax atom; parsing inverts it.
pub open spec fn tokens_of(a: AtomSpec) -> Seq<TokenSpec>
    decreases a, 1int, 0int,
{
    match a {
        AtomSpec::Integer(n) => seq![TokenSpec::Integer(n)],
        AtomSpec::Str(t) => seq![TokenSpec::Str(t)],
        AtomSpec::Symbol(t) => seq![TokenSpec::Symbol(t)],
        AtomSpec::List(items) => seq![TokenSpec::LParen] + tokens_of_items(items)
            + seq![TokenSpec::RParen],
        _ => Seq::empty(),
    }
}

/// The token rendering of a run of syntax atoms.
pub open spec fn tokens_of_items(items: Seq<AtomSpec>) -> Seq<TokenSpec>
    decreases items, 0int, items.len(),
{
    if items.len() == 0 {
        Seq::empty()
    } else {
        tokens_of(items[0]) + tokens_of_items(items.subrange(1, items.len() as int))
    }
}

/// Every parsed item is a syntax atom whose token rendering is exactly the
/// token range it was parsed from.
pub proof fn lemma_parse_form_sound(s: Seq<TokenSpec>, i: int)
    requires
        parse_form(s, i) is Some,
    ensures
        ({
            let (a, j) = parse_form(s, i)->Some_0;
            &&& i < j <= s.len()
            &&& is_syntax(a)
            &&& tokens_of(a) == s.subrange(i, j)
        }),
    decreases s.len() - i, 0int,
{
    let (a, j) = parse_form(s, i)->Some_0;
    match s[i] {
        TokenSpec::LParen => {
            lemma_parse_list_sound(s, i + 1);
            let (items, k) = parse_list_at(s, i + 1)->Some_0;
            assert(tokens_of_items(items) == s.subrange(i + 1, k - 1));
            assert(tokens_of(a) =~= s.subrange(i, j));
        },
        TokenSpec::RParen => {
        },
        TokenSpec::Integer(n) => {
            assert(tokens_of(a) =~= s.subrange(i, j));
        },
        TokenSpec::Str(t) => {
            assert(tokens_of(a) =~= s.subrange(i, j));
        },
        TokenSpec::Symbol(t) => {
            assert(tokens_of(a) =~= s.subrange(i, j));
        },
    }
}

/// Every parsed item run is a run of syntax atoms whose token rendering is
/// exactly the token range it was parsed from, up to its closing `)`.
pub proof fn lemma_parse_list_sound(s: Seq<TokenSpec>, i: int)
    requires
        parse_list_at(s, i) is Some,
    ensures
        ({
            let (items, k) = parse_list_at(s, i)->Some_0;
            &&& i < k <= s.len()
            &&& all_syntax(items)
            &&& tokens_of_items(items) == s.subrange(i, k - 1)
            &&& s[k - 1] is RParen
        }),
    decreases s.len() - i, 1int,
{
    let (items, k) = parse_list_at(s, i)->Some_0;
    if s[i] is RParen {
        assert(tokens_of_items(items) =~= s.subrange(i, i));
    } else {
        lemma_parse_form_sound(s, i);
        let (a, j) = parse_form(s, i)->Some_0;
        lemma_parse_list_sound(s, j);
        let (rest, k2) = parse_list_at(s, j)->Some_0;
        assert(items == seq![a] + rest);
        assert(items[0] == a);
        assert(items.subrange(1, items.len() as int) =~= rest);
        assert(all_syntax(items));
        assert(tokens_of_items(items) == tokens_of(a) + tokens_of_items(rest));
        assert(tokens_of_items(items) =~= s.subrange(i, k - 1));
    }
}

proof fn lemma_tokens_of_shape(a: AtomSpec)
    requires
        is_syntax(a),
    ensures
        tokens_of(a).len() >= 1,
        !(tokens_of(a)[0] is RParen),
{
}

/// The completeness direction of parsing: wherever a syntax atom's token
/// rendering sits in the stream, parsing there yields exactly that atom.
pub proof fn lemma_parse_inverts_form(s: Seq<TokenSpec>, i: int, a: AtomSpec)
    requires
        is_syntax(a),
        0 <= i,
        i + tokens_of(a).len() <= s.len(),
        s.subrange(i, i + tokens_of(a).len()) == tokens_of(a),
    ensures
        parse_form(s, i) == Some((a, i + tokens_of(a).len())),
    decreases a, 1int, 0int,
{
    let toks = tokens_of(a);
    assert(s[i] == toks[0]);
    match a {
        AtomSpec::List(items) => {
            let inner = tokens_of_items(items);
            assert(toks.len() == inner.len() + 2);
            assert(s[i] is LParen);
            assert forall|k: int| 0 <= k < inner.len() implies s[i + 1 + k] == inner[k] by {
                assert(toks[1 + k] == inner[k]);
                assert(s[i + 1 + k] == toks[1 + k]);
            }
            assert(s.subrange(i + 1, i + 1 + inner.len()) =~= inner);
            assert(s[i + 1 + inner.len()] == toks[1 + inner.len() as int]);
            assert(toks[1 + inner.len() as int] is RParen);
            lemma_parse_inverts_items(s, i + 1, items);
        },
        _ => {
        },
    }
}

/// The completeness direction for item runs: a run of syntax atoms laid
/// out before a closing `)` parses back to exactly those atoms.
pub proof fn lemma_parse_inverts_items(s: Seq<TokenSpec>, i: int, items: Seq<AtomSpec>)
    requires
        all_syntax(items),
        0 <= i,
        i + tokens_of_items(items).len() + 1 <= s.len(),
        s.subrange(i, i + tokens_of_items(items).len()) == tokens_of_items(items),
        s[i + tokens_of_items(items).len()] is RParen,
    ensures
        parse_list_at(s, i) == Some((items, i + tokens_of_items(items).len() + 1)),
    decreases items, 0int, 0int,
{
    let inner = tokens_of_items(items);
    if items.len() == 0 {
        assert(s[i] is RParen);
        assert(parse_list_at(s, i) == Some((Seq::<AtomSpec>::empty(), i + 1)));
        assert(items =~= Seq::<AtomSpec>::empty());
    } else {
        let first = items[0];
        let rest = items.subrange(1, items.len() as int);
        let ftoks = tokens_of(first);
        let rtoks = tokens_of_items(rest);
        assert(inner == ftoks + rtoks);
        lemma_tokens_of_shape(first);
        assert forall|k: int| 0 <= k < ftoks.len() implies s[i + k] == ftoks[k] by {
            assert(inner[k] == ftoks[k]);
            assert(s[i + k] == inner[k]);
        }
        assert(s.subrange(i, i + ftoks.len()) =~= ftoks);
        lemma_parse_inverts_form(s, i, first);
        assert(s[i] == ftoks[0]);
        assert(!(s[i] is RParen));
        let j = i + ftoks.len();
        assert forall|k: int| 0 <= k < rtoks.len() implies s[j + k] == rtoks[k] by {
            assert(inner[ftoks.len() + k] == rtoks[k]);
            assert(s[i + (ftoks.len() + k)] == inner[ftoks.len() + k]);
        }
        assert(s.subrange(j, j + rtoks.len()) =~= rtoks);
        assert(s[j + rtoks.len()] is RParen);
        lemma_parse_inverts_items(s, j, rest);
        assert(parse_list_at(s, j) == Some((rest, i + inner.len() + 1)));
        assert(seq![first] + rest =~= items);
    }
}

/// Parsing inverts rendering: the token rendering of any top-level list of
/// syntax atoms parses back to exactly that list.  Together with the
/// soundness lemmas this pins the parser down from both sides and makes
/// the rendering injective.
pub proof fn lemma_parse_round_trip(a: AtomSpec)
    requires
        is_syntax(a),
        a is List,
    ensures
        parse_program(tokens_of(a)) == Ok::<AtomSpec, ParseError>(a),
{
    let toks = tokens_of(a);
    let items = a->List_0;
    let inner = tokens_of_items(items);
    assert(toks == seq![TokenSpec::LParen] + inner + seq![TokenSpec::RParen]);
    assert(toks[0] is LParen);
    assert forall|k: int| 0 <= k < inner.len() implies toks[1 + k] == inner[k] by {}
    assert(toks.subrange(1, 1 + inner.len() as int) =~= inner);
    assert(toks[1 + inner.len() as int] is RParen);
    lemma_parse_inverts_items(toks, 1, items);
    assert(parse_list_at(toks, 1) == Some((items, toks.len() as int)));
}

/// No two distinct top-level lists render to the same tokens.
pub proof fn lemma_tokens_of_injective(a: AtomSpec, b: AtomSpec)
    requires
        is_syntax(a),
        is_syntax(b),
        a is List,
        b is List,
        tokens_of(a) == tokens_of(b),
    ensures
        a == b,
{
    lemma_parse_round_trip(a);
    lemma_parse_round_trip(b);
}

/// Parses one item of the token vector, starting at `i`; mirrors
/// `parse_form` and also reports the position after the item.
fn parse_form_at(tokens: &Vec<Token>, i: usize) -> (r: Option<(Atom, usize)>)
    requires
        i <= tokens@.len(),
    ensures
        (match (r, parse_form(view_tokens(tokens@), i as int)) {
            (Option::Some((a, j)), Option::Some(sp)) => a@ == sp.0 && j as int == sp.1 && i < j
                <= tokens@.len(),
            (Option::None, Option::None) => true,
            _ => false,
        }),
    decreases tokens@.len() - i, 0int,
{
    broadcast use lemma_view_tokens;

    let ghost s = view_tokens(tokens@);
    if i >= tokens.len() {
        return None;
    }
    match &tokens[i] {
        Token::LParen => {
            match parse_items_at(tokens, i + 1) {
                Option::Some((items, j)) => Some((Atom::List(items), j)),
                Option::None => None,
            }
        },
        Token::RParen => None,
        Token::Integer(n) => Some((Atom::Integer(*n), i + 1)),
        Token::String(t) => Some((Atom::String(t.clone()), i + 1)),
        Token::Symbol(t) => Some((Atom::Symbol(t.clone()), i + 1)),
    }
}

/// Parses items up to the closing `)`, starting at `i`; mirrors
/// `parse_list_at`.
fn parse_items_at(tokens: &Vec<Token>, i: usize) -> (r: Option<(Vec<Atom>, usize)>)
    requires
        i <= tokens@.len(),
    ensures
        (match (r, parse_list_at(view_tokens(tokens@), i as int)) {
            (Option::Some((items, k)), Option::Some(sp)) => view_atoms(items@) == sp.0 && k as int
                == sp.1 && i < k <= tokens@.len(),
            (Option::None, Option::None) => true,
            _ => false,
        }),
    decreases tokens@.len() - i, 1int,
{
    broadcast use lemma_view_tokens;
    broadcast use lemma_view_atoms;

    let ghost s = view_tokens(tokens@);
    let mut items: Vec<Atom> = Vec::new();
    let mut cur: usize = i;
    loop
        invariant
            i <= cur <= tokens@.len(),
            s == view_tokens(tokens@),
            (match parse_list_at(s, cur as int) {
                Option::Some(sp) => parse_list_at(s, i as int) == Some(
                    (view_atoms(items@) + sp.0, sp.1),
                ),
                Option::None => parse_list_at(s, i as int) is None,
            }),
        decreases tokens@.len() - cur,
    {
        broadcast use lemma_view_tokens;
        broadcast use lemma_view_atoms;

        if cur >= tokens.len() {
            return None;
        }
        let closing = match &tokens[cur] {
            Token::RParen => true,
            _ => false,
        };
        if closing {
            proof {
                assert(view_atoms(items@) + Seq::<AtomSpec>::empty() =~= view_atoms(items@));
            }
            return Some((items, cur + 1));
        }
        match parse_form_at(tokens, cur) {
            Option::None => {
                return None;
            },
            Option::Some((a, j)) => {
                proof {
                    let (sa, sj) = parse_form(s, cur as int)->Some_0;
                    if parse_list_at(s, sj) is Some {
                        let sp = parse_list_at(s, sj)->Some_0;
                        assert(parse_list_at(s, cur as int) == Some((seq![sa] + sp.0, sp.1)));
                        assert(view_atoms(items@.push(a)) =~= view_atoms(items@).push(a@));
                        assert(view_atoms(items@.push(a)) + sp.0 =~= view_atoms(items@) + (seq![sa]
                            + sp.0));
                    }
                }
                items.push(a);
                cur = j;
            },
        }
    }
}

/// Parses the source text into one top-level list.  On success the result
/// is a syntax atom whose token rendering is exactly the token sequence of
/// the input; each rejection reports which failure mode occurred, as
/// `parse_program` decides it.
pub fn parse(program: &str) -> (r: Result<Atom, ParseError>)
    ensures
        (match (&r, parse_program(lex(program@))) {
            (Result::Ok(a), Result::Ok(sa)) => a@ == sa,
            (Result::Err(e), Result::Err(se)) => *e == se,
            _ => false,
        }),
        (match &r {
            Result::Ok(a) => is_syntax(a@) && a@ is List && tokens_of(a@) == lex(program@),
            Result::Err(e) => parse_program(lex(program@)) is Err,
        }),
{
    broadcast use lemma_view_tokens;

    let tokens = tokenize(program);
    let ghost s = view_tokens(tokens@);
    if tokens.len() == 0 {
        return Err(ParseError::ExpectedLeftParen);
    }
    let opening = match &tokens[0] {
        Token::LParen => true,
        _ => false,
    };
    if !opening {
        return Err(ParseError::ExpectedLeftParen);
    }
    match parse_items_at(&tokens, 1) {
        Option::None => Err(ParseError::UnexpectedEnd),
        Option::Some((items, j)) => {
            if j == tokens.len() {
                proof {
                    let (sitems, sj) = parse_list_at(s, 1)->Some_0;
                    lemma_parse_list_sound(s, 1);
                    assert(tokens_of(AtomSpec::List(sitems)) =~= s);
                }
                Ok(Atom::List(items))
            } else {
                Err(ParseError::TrailingInput)
            }
        },
    }
}

} // verus!
