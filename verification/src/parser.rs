//! Statement text to typed statements.
//!
//! The grammar covers the three statement kinds the executor understands:
//!
//! ```text
//! statement := CREATE TABLE name ( name type {, name type} )
//!            | INSERT INTO name VALUES ( value {, value} )
//!            | SELECT name {, name} FROM name
//! type      := Text | Integer
//! value     := "text" | integer
//! ```
//!
//! Batched input is one or more statements, each ended by `;` or by the
//! end of the input. Malformed input fails with the character offset at
//! which it stopped making sense.
//!
//! The grammar itself is written down once, as the ghost functions
//! [`spec_tokenize`], [`spec_parse_query`] and [`spec_parse_queries`];
//! the executable parser is proved to return exactly what they say of
//! the input text.
use vstd::prelude::*;
use vstd::string::StrSliceExecFns;
use vstd::string::StringExecFns;
use crate::ast::CreateQuery;
use crate::ast::InsertQuery;
use crate::ast::QueryV;
use crate::ast::SelectQuery;
use crate::ast::SqlQuery;
use crate::ast::views_of_queries;
use crate::error::ParseError;
use crate::value::Column;
use crate::value::ColumnV;
use crate::value::SqlTypeInfo;
use crate::value::Value;
use crate::value::ValueV;
use crate::value::views_of_columns;
use crate::value::views_of_names;
use crate::value::views_of_values;

verus! {

/// One lexical token, without its position.
pub enum Token {
    Ident(String),
    IntLit(i64),
    StrLit(String),
    LParen,
    RParen,
    Comma,
    Semi,
}

/// Mathematical model of a [`Token`].
#[verifier::ext_equal]
pub enum TokenV {
    Ident(Seq<char>),
    IntLit(int),
    StrLit(Seq<char>),
    LParen,
    RParen,
    Comma,
    Semi,
}

impl View for Token {
    type V = TokenV;

    open spec fn view(&self) -> TokenV {
        match self {
            Token::Ident(w) => TokenV::Ident(w@),
            Token::IntLit(n) => TokenV::IntLit(*n as int),
            Token::StrLit(w) => TokenV::StrLit(w@),
            Token::LParen => TokenV::LParen,
            Token::RParen => TokenV::RParen,
            Token::Comma => TokenV::Comma,
            Token::Semi => TokenV::Semi,
        }
    }
}

/// The models of a token list: each token with the character offset it
/// starts at.
pub open spec fn views_of_tokens(ts: Seq<(usize, Token)>) -> Seq<(int, TokenV)> {
    ts.map_values(|p: (usize, Token)| (p.0 as int, p.1@))
}

pub open spec fn is_space_char(c: char) -> bool {
    c == ' ' || c == '\t' || c == '\n' || c == '\r'
}

pub open spec fn is_digit_char(c: char) -> bool {
    48 <= c as u32 <= 57
}

pub open spec fn is_ident_start_char(c: char) -> bool {
    (65 <= c as u32 <= 90) || (97 <= c as u32 <= 122) || c as u32 == 95
}

pub open spec fn is_ident_tail_char(c: char) -> bool {
    is_ident_start_char(c) || is_digit_char(c)
}

/// The first offset at or after `j` holding a closing quote, or the end.
pub open spec fn string_end(s: Seq<char>, j: int) -> int
    decreases s.len() - j,
{
    if j < 0 || j >= s.len() {
        s.len() as int
    } else if s[j] == '"' {
        j
    } else {
        string_end(s, j + 1)
    }
}

/// The first offset at or after `j` holding no digit, or the end.
pub open spec fn digit_end(s: Seq<char>, j: int) -> int
    decreases s.len() - j,
{
    if j < 0 || j >= s.len() {
        s.len() as int
    } else if !is_digit_char(s[j]) {
        j
    } else {
        digit_end(s, j + 1)
    }
}

/// The first offset at or after `j` holding no identifier character, or
/// the end.
pub open spec fn ident_end(s: Seq<char>, j: int) -> int
    decreases s.len() - j,
{
    if j < 0 || j >= s.len() {
        s.len() as int
    } else if !is_ident_tail_char(s[j]) {
        j
    } else {
        ident_end(s, j + 1)
    }
}

proof fn lemma_string_end(s: Seq<char>, j: int)
    requires
        0 <= j <= s.len(),
    ensures
        j <= string_end(s, j) <= s.len(),
        string_end(s, j) < s.len() ==> s[string_end(s, j)] == '"',
        forall|k: int| j <= k < string_end(s, j) ==> s[k] != '"',
    decreases s.len() - j,
{
    if j < s.len() && s[j] != '"' {
        lemma_string_end(s, j + 1);
    }
}

proof fn lemma_digit_end(s: Seq<char>, j: int)
    requires
        0 <= j <= s.len(),
    ensures
        j <= digit_end(s, j) <= s.len(),
        digit_end(s, j) < s.len() ==> !is_digit_char(s[digit_end(s, j)]),
        forall|k: int| j <= k < digit_end(s, j) ==> is_digit_char(s[k]),
    decreases s.len() - j,
{
    if j < s.len() && is_digit_char(s[j]) {
        lemma_digit_end(s, j + 1);
    }
}

proof fn lemma_ident_end(s: Seq<char>, j: int)
    requires
        0 <= j <= s.len(),
    ensures
        j <= ident_end(s, j) <= s.len(),
        ident_end(s, j) < s.len() ==> !is_ident_tail_char(s[ident_end(s, j)]),
        forall|k: int| j <= k < ident_end(s, j) ==> is_ident_tail_char(s[k]),
    decreases s.len() - j,
{
    if j < s.len() && is_ident_tail_char(s[j]) {
        lemma_ident_end(s, j + 1);
    }
}

/// The number the digits `s[start..end]` spell, most significant first.
pub open spec fn digits_value(s: Seq<char>, start: int, end: int) -> int
    decreases end - start,
{
    if end <= start {
        0
    } else {
        digits_value(s, start, end - 1) * 10 + (s[end - 1] as u32 - 48)
    }
}

/// A run of digits spells a non-negative number.
proof fn lemma_digits_value_nonneg(s: Seq<char>, start: int, end: int)
    requires
        0 <= start,
        end <= s.len(),
        forall|k: int| start <= k < end ==> is_digit_char(#[trigger] s[k]),
    ensures
        0 <= digits_value(s, start, end),
    decreases end - start,
{
    if end > start {
        lemma_digits_value_nonneg(s, start, end - 1);
        let v = digits_value(s, start, end - 1);
        assert(is_digit_char(s[end - 1]));
        assert(v * 10 == v + v + v + v + v + v + v + v + v + v);
    }
}

/// A digit run's value grows with every digit taken.
proof fn lemma_digits_value_grows(s: Seq<char>, start: int, mid: int, end: int)
    requires
        0 <= start,
        start <= mid <= end,
        end <= s.len(),
        forall|k: int| start <= k < end ==> is_digit_char(#[trigger] s[k]),
    ensures
        0 <= digits_value(s, start, mid) <= digits_value(s, start, end),
    decreases end - mid,
{
    lemma_digits_value_nonneg(s, start, mid);
    if mid < end {
        lemma_digits_value_grows(s, start, mid, end - 1);
        let v = digits_value(s, start, end - 1);
        assert(is_digit_char(s[end - 1]));
        assert(digits_value(s, start, end) == v * 10 + (s[end - 1] as u32 - 48));
        assert(v * 10 == v + v + v + v + v + v + v + v + v + v);
    }
}

/// Largest value a token's integer literal may spell.
pub open spec fn max_int_literal() -> int {
    0x7fff_ffff_ffff_ffff
}

/// Prepends a token to a tokenization's result; an error passes through.
pub open spec fn tok_cons(t: (int, TokenV), rest: Result<Seq<(int, TokenV)>, int>) -> Result<
    Seq<(int, TokenV)>,
    int,
> {
    match rest {
        Ok(ts) => Ok(seq![t] + ts),
        Err(p) => Err(p),
    }
}

/// What tokenizing `s` from offset `i` on yields: the token list, or the
/// offset at which the text stops being tokens.
pub open spec fn spec_tokenize_from(s: Seq<char>, i: int) -> Result<Seq<(int, TokenV)>, int>
    decreases s.len() - i,
    via spec_tokenize_from_decreases
{
    if i < 0 || i >= s.len() {
        Ok(Seq::empty())
    } else {
        let c = s[i];
        if is_space_char(c) {
            spec_tokenize_from(s, i + 1)
        } else if c == '(' {
            tok_cons((i, TokenV::LParen), spec_tokenize_from(s, i + 1))
        } else if c == ')' {
            tok_cons((i, TokenV::RParen), spec_tokenize_from(s, i + 1))
        } else if c == ',' {
            tok_cons((i, TokenV::Comma), spec_tokenize_from(s, i + 1))
        } else if c == ';' {
            tok_cons((i, TokenV::Semi), spec_tokenize_from(s, i + 1))
        } else if c == '"' {
            let close = string_end(s, i + 1);
            if close >= s.len() {
                Err(i)
            } else {
                tok_cons(
                    (i, TokenV::StrLit(s.subrange(i + 1, close))),
                    spec_tokenize_from(s, close + 1),
                )
            }
        } else if is_digit_char(c) {
            let after = digit_end(s, i + 1);
            if digits_value(s, i, after) > max_int_literal() {
                Err(i)
            } else {
                tok_cons(
                    (i, TokenV::IntLit(digits_value(s, i, after))),
                    spec_tokenize_from(s, after),
                )
            }
        } else if is_ident_start_char(c) {
            let after = ident_end(s, i + 1);
            tok_cons((i, TokenV::Ident(s.subrange(i, after))), spec_tokenize_from(s, after))
        } else {
            Err(i)
        }
    }
}

#[via_fn]
proof fn spec_tokenize_from_decreases(s: Seq<char>, i: int) {
    if 0 <= i < s.len() {
        lemma_string_end(s, i + 1);
        lemma_digit_end(s, i + 1);
        lemma_ident_end(s, i + 1);
    }
}

/// What tokenizing the whole of `s` yields.
pub open spec fn spec_tokenize(s: Seq<char>) -> Result<Seq<(int, TokenV)>, int> {
    spec_tokenize_from(s, 0)
}

/// Tokens already taken, followed by the rest of a tokenization; an
/// error passes through.
pub open spec fn tok_splice(acc: Seq<(int, TokenV)>, rest: Result<Seq<(int, TokenV)>, int>) -> Result<
    Seq<(int, TokenV)>,
    int,
> {
    match rest {
        Ok(ts) => Ok(acc + ts),
        Err(p) => Err(p),
    }
}

/// Taking one token off the remainder moves it into the accumulator.
proof fn lemma_tok_splice_step(
    acc: Seq<(int, TokenV)>,
    t: (int, TokenV),
    rest: Result<Seq<(int, TokenV)>, int>,
)
    ensures
        tok_splice(acc, tok_cons(t, rest)) == tok_splice(acc.push(t), rest),
{
    if rest is Ok {
        let ts = rest->Ok_0;
        assert(acc + (seq![t] + ts) =~= acc.push(t) + ts);
    }
}

fn is_space(c: char) -> (r: bool)
    ensures
        r == is_space_char(c),
{
    c == ' ' || c == '\t' || c == '\n' || c == '\r'
}

fn is_digit(c: char) -> (r: bool)
    ensures
        r == is_digit_char(c),
{
    let u = c as u32;
    48 <= u && u <= 57
}

fn is_ident_start(c: char) -> (r: bool)
    ensures
        r == is_ident_start_char(c),
{
    let u = c as u32;
    (65 <= u && u <= 90) || (97 <= u && u <= 122) || u == 95
}

fn is_ident_char(c: char) -> (r: bool)
    ensures
        r == is_ident_tail_char(c),
{
    is_ident_start(c) || is_digit(c)
}

/// Splits the input into tokens, each with the character offset it
/// starts at: exactly what [`spec_tokenize`] says of the input.
fn tokenize(query: &str) -> (r: Result<Vec<(usize, Token)>, ParseError>)
    ensures
        (match spec_tokenize(query@) {
            Ok(ts) => r is Ok && views_of_tokens(r->Ok_0@) == ts,
            Err(p) => r matches Err(e) && e.pos as int == p,
        }),
{
    let n = query.unicode_len();
    let mut toks: Vec<(usize, Token)> = Vec::new();
    let mut i: usize = 0;
    proof {
        assert(views_of_tokens(toks@) =~= Seq::<(int, TokenV)>::empty());
        if spec_tokenize_from(query@, 0) is Ok {
            assert(Seq::<(int, TokenV)>::empty() + spec_tokenize_from(query@, 0)->Ok_0
                =~= spec_tokenize_from(query@, 0)->Ok_0);
        }
    }
    while i < n
        invariant
            i <= n,
            n == query@.len(),
            spec_tokenize(query@) == tok_splice(
                views_of_tokens(toks@),
                spec_tokenize_from(query@, i as int),
            ),
        decreases n - i,
    {
        let ghost acc = views_of_tokens(toks@);
        let c = query.get_char(i);
        if is_space(c) {
            proof {
                assert(spec_tokenize_from(query@, i as int) == spec_tokenize_from(query@, i as int + 1));
            }
            i += 1;
        } else if c == '(' {
            toks.push((i, Token::LParen));
            proof {
                let t = (i as int, TokenV::LParen);
                assert(spec_tokenize_from(query@, i as int) == tok_cons(
                    t,
                    spec_tokenize_from(query@, i as int + 1),
                ));
                lemma_tok_splice_step(acc, t, spec_tokenize_from(query@, i as int + 1));
                assert(views_of_tokens(toks@) =~= acc.push(t));
            }
            i += 1;
        } else if c == ')' {
            toks.push((i, Token::RParen));
            proof {
                let t = (i as int, TokenV::RParen);
                assert(spec_tokenize_from(query@, i as int) == tok_cons(
                    t,
                    spec_tokenize_from(query@, i as int + 1),
                ));
                lemma_tok_splice_step(acc, t, spec_tokenize_from(query@, i as int + 1));
                assert(views_of_tokens(toks@) =~= acc.push(t));
            }
            i += 1;
        } else if c == ',' {
            toks.push((i, Token::Comma));
            proof {
                let t = (i as int, TokenV::Comma);
                assert(spec_tokenize_from(query@, i as int) == tok_cons(
                    t,
                    spec_tokenize_from(query@, i as int + 1),
                ));
                lemma_tok_splice_step(acc, t, spec_tokenize_from(query@, i as int + 1));
                assert(views_of_tokens(toks@) =~= acc.push(t));
            }
            i += 1;
        } else if c == ';' {
            toks.push((i, Token::Semi));
            proof {
                let t = (i as int, TokenV::Semi);
                assert(spec_tokenize_from(query@, i as int) == tok_cons(
                    t,
                    spec_tokenize_from(query@, i as int + 1),
                ));
                lemma_tok_splice_step(acc, t, spec_tokenize_from(query@, i as int + 1));
                assert(views_of_tokens(toks@) =~= acc.push(t));
            }
            i += 1;
        } else if c == '"' {
            let start = i + 1;
            let mut j = start;
            while j < n && query.get_char(j) != '"'
                invariant
                    start <= j <= n,
                    start == i + 1,
                    i < n,
                    n == query@.len(),
                    forall|k: int| start <= k < j ==> query@[k] != '"',
                decreases n - j,
            {
                j += 1;
            }
            proof {
                lemma_string_end(query@, start as int);
                assert(string_end(query@, start as int) == j as int) by {
                    let e = string_end(query@, start as int);
                    if e < j {
                        assert(query@[e] != '"');
                    }
                    if e > j && (j as int) < query@.len() {
                        assert(query@[j as int] != '"');
                    }
                }
            }
            if j >= n {
                // The closing quote never came.
                proof {
                    assert(spec_tokenize_from(query@, i as int) == Err::<Seq<(int, TokenV)>, int>(
                        i as int,
                    ));
                }
                return Err(ParseError { pos: i });
            }
            let text = query.substring_char(start, j);
            toks.push((i, Token::StrLit(String::from_str(text))));
            proof {
                let t = (i as int, TokenV::StrLit(query@.subrange(i as int + 1, j as int)));
                assert(spec_tokenize_from(query@, i as int) == tok_cons(
                    t,
                    spec_tokenize_from(query@, j as int + 1),
                ));
                lemma_tok_splice_step(acc, t, spec_tokenize_from(query@, j as int + 1));
                assert(views_of_tokens(toks@) =~= acc.push(t));
            }
            i = j + 1;
        } else if is_digit(c) {
            let start = i;
            let mut acc_num: u64 = (c as u32 - 48) as u64;
            let mut j = i + 1;
            proof {
                assert(digits_value(query@, i as int, i as int) == 0);
                assert(digits_value(query@, i as int, i as int + 1) == acc_num as int);
            }
            while j < n && is_digit(query.get_char(j))
                invariant
                    i < j <= n,
                    n == query@.len(),
                    i < n,
                    start == i,
                    is_digit_char(query@[i as int]),
                    forall|k: int| i < k < j ==> is_digit_char(#[trigger] query@[k]),
                    acc_num as int == digits_value(query@, i as int, j as int),
                    acc_num <= 9223372036854775807,
                    spec_tokenize(query@) == tok_splice(
                        views_of_tokens(toks@),
                        spec_tokenize_from(query@, i as int),
                    ),
                decreases n - j,
            {
                let d = (query.get_char(j) as u32 - 48) as u64;
                if acc_num > (9223372036854775807 - d) / 10 {
                    // The literal does not fit in a 64-bit integer.
                    proof {
                        lemma_digit_end(query@, i as int + 1);
                        let after = digit_end(query@, i as int + 1);
                        assert(j < after) by {
                            if after <= j {
                                assert(is_digit_char(query@[after]));
                            }
                        }
                        assert(acc_num as int * 10 + d as int > max_int_literal())
                            by (nonlinear_arith)
                            requires
                                acc_num as int > (max_int_literal() - d as int) / 10,
                                0 <= d as int <= 9,
                                acc_num as int >= 0,
                        ;
                        assert(digits_value(query@, i as int, j as int + 1) == acc_num as int * 10
                            + d as int);
                        assert(forall|k: int| i as int <= k < after ==> is_digit_char(
                            #[trigger] query@[k],
                        ));
                        lemma_digits_value_grows(query@, i as int, j as int + 1, after);
                        assert(spec_tokenize_from(query@, i as int) == Err::<
                            Seq<(int, TokenV)>,
                            int,
                        >(i as int));
                    }
                    return Err(ParseError { pos: start });
                }
                proof {
                    assert(acc_num as int * 10 + d as int <= 9223372036854775807)
                        by (nonlinear_arith)
                        requires
                            d as int <= 9,
                            acc_num as int >= 0,
                            acc_num as int <= (9223372036854775807 - d as int) / 10,
                    ;
                    assert(digits_value(query@, i as int, j as int + 1) == acc_num as int * 10
                        + d as int);
                }
                acc_num = acc_num * 10 + d;
                j += 1;
            }
            proof {
                lemma_digit_end(query@, i as int + 1);
                assert(digit_end(query@, i as int + 1) == j as int) by {
                    let e = digit_end(query@, i as int + 1);
                    if e < j {
                        assert(!is_digit_char(query@[e]));
                    }
                    if e > j && (j as int) < query@.len() {
                        assert(is_digit_char(query@[j as int]));
                    }
                }
            }
            toks.push((start, Token::IntLit(acc_num as i64)));
            proof {
                let t = (i as int, TokenV::IntLit(digits_value(query@, i as int, j as int)));
                assert(spec_tokenize_from(query@, i as int) == tok_cons(
                    t,
                    spec_tokenize_from(query@, j as int),
                ));
                lemma_tok_splice_step(acc, t, spec_tokenize_from(query@, j as int));
                assert(views_of_tokens(toks@) =~= acc.push(t));
            }
            i = j;
        } else if is_ident_start(c) {
            let start = i;
            let mut j = i + 1;
            while j < n && is_ident_char(query.get_char(j))
                invariant
                    i < j <= n,
                    n == query@.len(),
                    i < n,
                    forall|k: int| i < k < j ==> is_ident_tail_char(#[trigger] query@[k]),
                decreases n - j,
            {
                j += 1;
            }
            proof {
                lemma_ident_end(query@, i as int + 1);
                assert(ident_end(query@, i as int + 1) == j as int) by {
                    let e = ident_end(query@, i as int + 1);
                    if e < j {
                        assert(!is_ident_tail_char(query@[e]));
                    }
                    if e > j && (j as int) < query@.len() {
                        assert(is_ident_tail_char(query@[j as int]));
                    }
                }
            }
            let text = query.substring_char(start, j);
            toks.push((start, Token::Ident(String::from_str(text))));
            proof {
                let t = (i as int, TokenV::Ident(query@.subrange(i as int, j as int)));
                assert(spec_tokenize_from(query@, i as int) == tok_cons(
                    t,
                    spec_tokenize_from(query@, j as int),
                ));
                lemma_tok_splice_step(acc, t, spec_tokenize_from(query@, j as int));
                assert(views_of_tokens(toks@) =~= acc.push(t));
            }
            i = j;
        } else {
            proof {
                assert(spec_tokenize_from(query@, i as int) == Err::<Seq<(int, TokenV)>, int>(
                    i as int,
                ));
            }
            return Err(ParseError { pos: i });
        }
    }
    proof {
        assert(spec_tokenize_from(query@, i as int) == Ok::<Seq<(int, TokenV)>, int>(
            Seq::empty(),
        ));
        assert(views_of_tokens(toks@) + Seq::<(int, TokenV)>::empty() =~= views_of_tokens(
            toks@,
        ));
    }
    Ok(toks)
}

// ---------------------------------------------------------------------------
// The grammar, as ghost functions over the token list.
// ---------------------------------------------------------------------------

/// Consuming the keyword `kw` at `k`: the next position, or the offset
/// to blame.
pub open spec fn spec_keyword_at(
    toks: Seq<(int, TokenV)>,
    k: int,
    kw: Seq<char>,
    endp: int,
) -> Result<int, int> {
    if k < 0 || k >= toks.len() {
        Err(endp)
    } else {
        match toks[k].1 {
            TokenV::Ident(w) => if w == kw {
                Ok(k + 1)
            } else {
                Err(toks[k].0)
            },
            _ => Err(toks[k].0),
        }
    }
}

/// One or more `name type` column definitions, comma-separated and
/// closed by `)`.
pub open spec fn spec_parse_columns(toks: Seq<(int, TokenV)>, at: int, endp: int) -> Result<
    (Seq<ColumnV>, int),
    int,
>
    decreases toks.len() - at,
{
    if at < 0 || at >= toks.len() {
        Err(endp)
    } else {
        match toks[at].1 {
            TokenV::Ident(name) => if at + 1 >= toks.len() {
                Err(endp)
            } else {
                match toks[at + 1].1 {
                    TokenV::Ident(tw) => if tw == "Text"@ || tw == "Integer"@ {
                        let col = ColumnV {
                            name,
                            type_info: if tw == "Text"@ {
                                SqlTypeInfo::Text
                            } else {
                                SqlTypeInfo::Integer
                            },
                        };
                        if at + 2 >= toks.len() {
                            Err(endp)
                        } else {
                            match toks[at + 2].1 {
                                TokenV::Comma => match spec_parse_columns(toks, at + 3, endp) {
                                    Ok(r) => Ok((seq![col] + r.0, r.1)),
                                    Err(p) => Err(p),
                                },
                                TokenV::RParen => Ok((seq![col], at + 3)),
                                _ => Err(toks[at + 2].0),
                            }
                        }
                    } else {
                        Err(toks[at + 1].0)
                    },
                    _ => Err(toks[at + 1].0),
                }
            },
            _ => Err(toks[at].0),
        }
    }
}

/// One or more literal values, comma-separated and closed by `)`.
pub open spec fn spec_parse_values(toks: Seq<(int, TokenV)>, at: int, endp: int) -> Result<
    (Seq<ValueV>, int),
    int,
>
    decreases toks.len() - at,
{
    if at < 0 || at >= toks.len() {
        Err(endp)
    } else {
        let lit = match toks[at].1 {
            TokenV::StrLit(w) => Some(ValueV::Text(w)),
            TokenV::IntLit(x) => Some(ValueV::Integer(x)),
            _ => None,
        };
        match lit {
            None => Err(toks[at].0),
            Some(val) => if at + 1 >= toks.len() {
                Err(endp)
            } else {
                match toks[at + 1].1 {
                    TokenV::Comma => match spec_parse_values(toks, at + 2, endp) {
                        Ok(r) => Ok((seq![val] + r.0, r.1)),
                        Err(p) => Err(p),
                    },
                    TokenV::RParen => Ok((seq![val], at + 2)),
                    _ => Err(toks[at + 1].0),
                }
            },
        }
    }
}

/// One or more field names, comma-separated; ends before whatever is not
/// a comma.
pub open spec fn spec_parse_fields(toks: Seq<(int, TokenV)>, at: int, endp: int) -> Result<
    (Seq<Seq<char>>, int),
    int,
>
    decreases toks.len() - at,
{
    if at < 0 || at >= toks.len() {
        Err(endp)
    } else {
        match toks[at].1 {
            TokenV::Ident(w) => if at + 1 >= toks.len() {
                Err(endp)
            } else {
                match toks[at + 1].1 {
                    TokenV::Comma => match spec_parse_fields(toks, at + 2, endp) {
                        Ok(r) => Ok((seq![w] + r.0, r.1)),
                        Err(p) => Err(p),
                    },
                    _ => Ok((seq![w], at + 1)),
                }
            },
            _ => Err(toks[at].0),
        }
    }
}

/// Wraps a column-list result up as a CREATE statement.
pub open spec fn spec_create_done(table: Seq<char>, colsr: Result<(Seq<ColumnV>, int), int>) -> Result<
    (QueryV, int),
    int,
> {
    match colsr {
        Ok(r) => Ok((QueryV::Create { table, columns: r.0 }, r.1)),
        Err(p) => Err(p),
    }
}

/// Wraps a value-list result up as an INSERT statement.
pub open spec fn spec_insert_done(table: Seq<char>, valsr: Result<(Seq<ValueV>, int), int>) -> Result<
    (QueryV, int),
    int,
> {
    match valsr {
        Ok(r) => Ok((QueryV::Insert { table, values: r.0 }, r.1)),
        Err(p) => Err(p),
    }
}

/// The `FROM name` coda of a SELECT, applied to a field-list result.
pub open spec fn spec_select_from(
    toks: Seq<(int, TokenV)>,
    fieldsr: Result<(Seq<Seq<char>>, int), int>,
    endp: int,
) -> Result<(QueryV, int), int> {
    match fieldsr {
        Err(p) => Err(p),
        Ok(r) => match spec_keyword_at(toks, r.1, "FROM"@, endp) {
            Err(p) => Err(p),
            Ok(k1) => if k1 >= toks.len() {
                Err(endp)
            } else {
                match toks[k1].1 {
                    TokenV::Ident(name) => Ok((QueryV::Select { table: name, fields: r.0 }, k1 + 1)),
                    _ => Err(toks[k1].0),
                }
            },
        },
    }
}

/// What follows the keyword `CREATE`.
pub open spec fn spec_parse_create_tail(toks: Seq<(int, TokenV)>, k: int, endp: int) -> Result<
    (QueryV, int),
    int,
> {
    match spec_keyword_at(toks, k, "TABLE"@, endp) {
        Err(p) => Err(p),
        Ok(k1) => if k1 >= toks.len() {
            Err(endp)
        } else {
            match toks[k1].1 {
                TokenV::Ident(name) => if k1 + 1 >= toks.len() {
                    Err(endp)
                } else {
                    match toks[k1 + 1].1 {
                        TokenV::LParen => spec_create_done(
                            name,
                            spec_parse_columns(toks, k1 + 2, endp),
                        ),
                        _ => Err(toks[k1 + 1].0),
                    }
                },
                _ => Err(toks[k1].0),
            }
        },
    }
}

/// What follows the keyword `INSERT`.
pub open spec fn spec_parse_insert_tail(toks: Seq<(int, TokenV)>, k: int, endp: int) -> Result<
    (QueryV, int),
    int,
> {
    match spec_keyword_at(toks, k, "INTO"@, endp) {
        Err(p) => Err(p),
        Ok(k1) => if k1 >= toks.len() {
            Err(endp)
        } else {
            match toks[k1].1 {
                TokenV::Ident(name) => match spec_keyword_at(toks, k1 + 1, "VALUES"@, endp) {
                    Err(p) => Err(p),
                    Ok(k2) => if k2 >= toks.len() {
                        Err(endp)
                    } else {
                        match toks[k2].1 {
                            TokenV::LParen => spec_insert_done(
                                name,
                                spec_parse_values(toks, k2 + 1, endp),
                            ),
                            _ => Err(toks[k2].0),
                        }
                    },
                },
                _ => Err(toks[k1].0),
            }
        },
    }
}

/// What follows the keyword `SELECT`.
pub open spec fn spec_parse_select_tail(toks: Seq<(int, TokenV)>, k: int, endp: int) -> Result<
    (QueryV, int),
    int,
> {
    spec_select_from(toks, spec_parse_fields(toks, k, endp), endp)
}

/// What parsing one statement at token `k` yields: the statement and the
/// position one past it, or the character offset to blame.
pub open spec fn spec_parse_statement(toks: Seq<(int, TokenV)>, k: int, endp: int) -> Result<
    (QueryV, int),
    int,
> {
    if k < 0 || k >= toks.len() {
        Err(endp)
    } else {
        match toks[k].1 {
            TokenV::Ident(w) => if w == "CREATE"@ {
                spec_parse_create_tail(toks, k + 1, endp)
            } else if w == "INSERT"@ {
                spec_parse_insert_tail(toks, k + 1, endp)
            } else if w == "SELECT"@ {
                spec_parse_select_tail(toks, k + 1, endp)
            } else {
                Err(toks[k].0)
            },
            _ => Err(toks[k].0),
        }
    }
}

proof fn lemma_spec_parse_columns_progress(toks: Seq<(int, TokenV)>, at: int, endp: int)
    ensures
        spec_parse_columns(toks, at, endp) matches Ok(r) ==> at < r.1 <= toks.len(),
    decreases toks.len() - at,
{
    if 0 <= at && at + 3 <= toks.len() {
        lemma_spec_parse_columns_progress(toks, at + 3, endp);
    }
}

proof fn lemma_spec_parse_values_progress(toks: Seq<(int, TokenV)>, at: int, endp: int)
    ensures
        spec_parse_values(toks, at, endp) matches Ok(r) ==> at < r.1 <= toks.len(),
    decreases toks.len() - at,
{
    if 0 <= at && at + 2 <= toks.len() {
        lemma_spec_parse_values_progress(toks, at + 2, endp);
    }
}

proof fn lemma_spec_parse_fields_progress(toks: Seq<(int, TokenV)>, at: int, endp: int)
    ensures
        spec_parse_fields(toks, at, endp) matches Ok(r) ==> at < r.1 <= toks.len(),
    decreases toks.len() - at,
{
    if 0 <= at && at + 2 <= toks.len() {
        lemma_spec_parse_fields_progress(toks, at + 2, endp);
    }
}

/// A parsed statement always moves the position forward and never past
/// the end.
proof fn lemma_spec_parse_statement_progress(toks: Seq<(int, TokenV)>, k: int, endp: int)
    ensures
        spec_parse_statement(toks, k, endp) matches Ok(r) ==> k < r.1 <= toks.len(),
{
    if 0 <= k < toks.len() {
        lemma_spec_parse_columns_progress(toks, k + 4, endp);
        lemma_spec_parse_values_progress(toks, k + 5, endp);
        lemma_spec_parse_fields_progress(toks, k + 1, endp);
    }
}

#[via_fn]
proof fn spec_parse_batch_decreases(toks: Seq<(int, TokenV)>, k: int, endp: int) {
    lemma_spec_parse_statement_progress(toks, k, endp);
}

/// A batch: statements in order, each ended by `;` or by the end of the
/// token list.
pub open spec fn spec_parse_batch(toks: Seq<(int, TokenV)>, k: int, endp: int) -> Result<
    Seq<QueryV>,
    int,
>
    decreases toks.len() - k,
    via spec_parse_batch_decreases
{
    match spec_parse_statement(toks, k, endp) {
        Err(p) => Err(p),
        Ok(r) => if r.1 >= toks.len() {
            Ok(seq![r.0])
        } else if toks[r.1].1 is Semi {
            if r.1 + 1 >= toks.len() {
                Ok(seq![r.0])
            } else {
                match spec_parse_batch(toks, r.1 + 1, endp) {
                    Ok(rest) => Ok(seq![r.0] + rest),
                    Err(p) => Err(p),
                }
            }
        } else {
            Err(toks[r.1].0)
        },
    }
}

/// What parsing `s` as one statement yields: tokenization, one
/// statement, an optional trailing `;`, nothing left over.
pub open spec fn spec_parse_query(s: Seq<char>) -> Result<QueryV, int> {
    match spec_tokenize(s) {
        Err(p) => Err(p),
        Ok(toks) => match spec_parse_statement(toks, 0, s.len() as int) {
            Err(p) => Err(p),
            Ok(r) => if r.1 < toks.len() && !(toks[r.1].1 is Semi) {
                Err(toks[r.1].0)
            } else {
                let k2 = if r.1 < toks.len() {
                    r.1 + 1
                } else {
                    r.1
                };
                if k2 < toks.len() {
                    Err(toks[k2].0)
                } else {
                    Ok(r.0)
                }
            },
        },
    }
}

/// What parsing `s` as a batch yields; empty input is malformed, so a
/// successful batch holds at least one statement.
pub open spec fn spec_parse_queries(s: Seq<char>) -> Result<Seq<QueryV>, int> {
    match spec_tokenize(s) {
        Err(p) => Err(p),
        Ok(toks) => if toks.len() == 0 {
            Err(0)
        } else {
            spec_parse_batch(toks, 0, s.len() as int)
        },
    }
}

// ---------------------------------------------------------------------------
// The executable parser, proved to follow the grammar above.
// ---------------------------------------------------------------------------

/// Consumes the keyword `kw` at `k`.
fn expect_keyword(toks: &Vec<(usize, Token)>, k: usize, kw: &str, endp: usize) -> (r: Result<
    usize,
    ParseError,
>)
    ensures
        (match spec_keyword_at(views_of_tokens(toks@), k as int, kw@, endp as int) {
            Ok(k2) => r is Ok && r->Ok_0 as int == k2 && k < toks@.len(),
            Err(p) => r matches Err(e) && e.pos as int == p,
        }),
{
    proof {
        if (k as int) < toks@.len() {
            assert(views_of_tokens(toks@)[k as int] == (toks@[k as int].0 as int, toks@[k as int].1@));
        }
    }
    if k < toks.len() {
        match &toks[k].1 {
            Token::Ident(word) => {
                if *word == String::from_str(kw) {
                    Ok(k + 1)
                } else {
                    Err(ParseError { pos: toks[k].0 })
                }
            },
            _ => Err(ParseError { pos: toks[k].0 }),
        }
    } else {
        Err(ParseError { pos: endp })
    }
}

/// Consumes an identifier at `k` and hands its text out.
fn expect_ident(toks: &Vec<(usize, Token)>, k: usize, endp: usize) -> (r: Result<
    (String, usize),
    ParseError,
>)
    ensures
        k as int >= toks@.len() ==> (r matches Err(e) && e.pos == endp),
        k < toks@.len() ==> (match views_of_tokens(toks@)[k as int].1 {
            TokenV::Ident(w) => r is Ok && r->Ok_0.0@ == w && r->Ok_0.1 == k + 1,
            _ => (r matches Err(e) && e.pos as int == views_of_tokens(toks@)[k as int].0),
        }),
{
    proof {
        if (k as int) < toks@.len() {
            assert(views_of_tokens(toks@)[k as int] == (toks@[k as int].0 as int, toks@[k as int].1@));
        }
    }
    if k < toks.len() {
        match &toks[k].1 {
            Token::Ident(word) => Ok((word.clone(), k + 1)),
            _ => Err(ParseError { pos: toks[k].0 }),
        }
    } else {
        Err(ParseError { pos: endp })
    }
}

/// Consumes a literal value at `k`.
fn expect_value(toks: &Vec<(usize, Token)>, k: usize, endp: usize) -> (r: Result<
    (Value, usize),
    ParseError,
>)
    ensures
        k as int >= toks@.len() ==> (r matches Err(e) && e.pos == endp),
        k < toks@.len() ==> (match views_of_tokens(toks@)[k as int].1 {
            TokenV::StrLit(w) => r is Ok && r->Ok_0.0@ == ValueV::Text(w) && r->Ok_0.1 == k + 1,
            TokenV::IntLit(x) => r is Ok && r->Ok_0.0@ == ValueV::Integer(x) && r->Ok_0.1 == k
                + 1,
            _ => (r matches Err(e) && e.pos as int == views_of_tokens(toks@)[k as int].0),
        }),
{
    proof {
        if (k as int) < toks@.len() {
            assert(views_of_tokens(toks@)[k as int] == (toks@[k as int].0 as int, toks@[k as int].1@));
        }
    }
    if k < toks.len() {
        match &toks[k].1 {
            Token::StrLit(text) => Ok((Value::Text(text.clone()), k + 1)),
            Token::IntLit(num) => Ok((Value::Integer(*num), k + 1)),
            _ => Err(ParseError { pos: toks[k].0 }),
        }
    } else {
        Err(ParseError { pos: endp })
    }
}

/// Consumes a column type name at `k`.
fn expect_type(toks: &Vec<(usize, Token)>, k: usize, endp: usize) -> (r: Result<
    (SqlTypeInfo, usize),
    ParseError,
>)
    ensures
        k as int >= toks@.len() ==> (r matches Err(e) && e.pos == endp),
        k < toks@.len() ==> (match views_of_tokens(toks@)[k as int].1 {
            TokenV::Ident(w) => if w == "Text"@ {
                r is Ok && r->Ok_0.0 == SqlTypeInfo::Text && r->Ok_0.1 == k + 1
            } else if w == "Integer"@ {
                r is Ok && r->Ok_0.0 == SqlTypeInfo::Integer && r->Ok_0.1 == k + 1
            } else {
                r matches Err(e) && e.pos as int == views_of_tokens(toks@)[k as int].0
            },
            _ => (r matches Err(e) && e.pos as int == views_of_tokens(toks@)[k as int].0),
        }),
{
    proof {
        if (k as int) < toks@.len() {
            assert(views_of_tokens(toks@)[k as int] == (toks@[k as int].0 as int, toks@[k as int].1@));
        }
    }
    if k < toks.len() {
        match &toks[k].1 {
            Token::Ident(word) => {
                if *word == String::from_str("Text") {
                    Ok((SqlTypeInfo::Text, k + 1))
                } else if *word == String::from_str("Integer") {
                    Ok((SqlTypeInfo::Integer, k + 1))
                } else {
                    Err(ParseError { pos: toks[k].0 })
                }
            },
            _ => Err(ParseError { pos: toks[k].0 }),
        }
    } else {
        Err(ParseError { pos: endp })
    }
}

/// Consumes an opening parenthesis at `k`.
fn expect_lparen(toks: &Vec<(usize, Token)>, k: usize, endp: usize) -> (r: Result<
    usize,
    ParseError,
>)
    ensures
        k as int >= toks@.len() ==> (r matches Err(e) && e.pos == endp),
        k < toks@.len() ==> (match views_of_tokens(toks@)[k as int].1 {
            TokenV::LParen => r is Ok && r->Ok_0 == k + 1,
            _ => (r matches Err(e) && e.pos as int == views_of_tokens(toks@)[k as int].0),
        }),
{
    proof {
        if (k as int) < toks@.len() {
            assert(views_of_tokens(toks@)[k as int] == (toks@[k as int].0 as int, toks@[k as int].1@));
        }
    }
    if k < toks.len() {
        match &toks[k].1 {
            Token::LParen => Ok(k + 1),
            _ => Err(ParseError { pos: toks[k].0 }),
        }
    } else {
        Err(ParseError { pos: endp })
    }
}

/// Parses one statement starting at token `k`; on success the returned
/// index sits one past the statement's last token.
fn parse_statement(toks: &Vec<(usize, Token)>, k: usize, endp: usize) -> (r: Result<
    (SqlQuery, usize),
    ParseError,
>)
    requires
        k <= toks@.len(),
    ensures
        (match spec_parse_statement(views_of_tokens(toks@), k as int, endp as int) {
            Ok(q) => r is Ok && r->Ok_0.0@ == q.0 && r->Ok_0.1 as int == q.1 && k < r->Ok_0.1
                <= toks@.len(),
            Err(p) => r matches Err(e) && e.pos as int == p,
        }),
{
    if k >= toks.len() {
        return Err(ParseError { pos: endp });
    }
    proof {
        assert(views_of_tokens(toks@)[k as int] == (toks@[k as int].0 as int, toks@[k as int].1@));
    }
    let kw_create = String::from_str("CREATE");
    let kw_insert = String::from_str("INSERT");
    let kw_select = String::from_str("SELECT");
    match &toks[k].1 {
        Token::Ident(word) => {
            if *word == kw_create {
                parse_create(toks, k + 1, endp)
            } else if *word == kw_insert {
                parse_insert(toks, k + 1, endp)
            } else if *word == kw_select {
                parse_select(toks, k + 1, endp)
            } else {
                Err(ParseError { pos: toks[k].0 })
            }
        },
        _ => Err(ParseError { pos: toks[k].0 }),
    }
}

/// The tail of `CREATE TABLE name ( name type {, name type} )`.
fn parse_create(toks: &Vec<(usize, Token)>, k: usize, endp: usize) -> (r: Result<
    (SqlQuery, usize),
    ParseError,
>)
    ensures
        (match spec_parse_create_tail(views_of_tokens(toks@), k as int, endp as int) {
            Ok(q) => r is Ok && r->Ok_0.0@ == q.0 && r->Ok_0.1 as int == q.1 && k < r->Ok_0.1
                <= toks@.len(),
            Err(p) => r matches Err(e) && e.pos as int == p,
        }),
{
    let k1 = expect_keyword(toks, k, "TABLE", endp)?;
    let (table, k2) = expect_ident(toks, k1, endp)?;
    let k3 = expect_lparen(toks, k2, endp)?;
    let mut columns: Vec<Column> = Vec::new();
    let mut at: usize = k3;
    proof {
        assert(views_of_columns(columns@) =~= Seq::<ColumnV>::empty());
        if spec_parse_columns(views_of_tokens(toks@), at as int, endp as int) is Ok {
            let rr = spec_parse_columns(views_of_tokens(toks@), at as int, endp as int)->Ok_0;
            assert(Seq::<ColumnV>::empty() + rr.0 =~= rr.0);
        }
    }
    loop
        invariant
            k < at <= toks@.len(),
            spec_parse_create_tail(views_of_tokens(toks@), k as int, endp as int)
                == spec_create_done(
                table@,
                (match spec_parse_columns(views_of_tokens(toks@), at as int, endp as int) {
                    Ok(rr) => Ok((views_of_columns(columns@) + rr.0, rr.1)),
                    Err(p) => Err(p),
                }),
            ),
        decreases toks@.len() - at,
    {
        let ghost tv = views_of_tokens(toks@);
        let ghost pre_cols = views_of_columns(columns@);
        let (name, p1) = expect_ident(toks, at, endp)?;
        let (type_info, p2) = expect_type(toks, p1, endp)?;
        columns.push(Column { name, type_info });
        if p2 >= toks.len() {
            return Err(ParseError { pos: endp });
        }
        proof {
            assert(tv[p2 as int] == (toks@[p2 as int].0 as int, toks@[p2 as int].1@));
            assert(views_of_columns(columns@) =~= pre_cols.push(columns@[columns@.len() - 1]@));
        }
        match &toks[p2].1 {
            Token::Comma => {
                proof {
                    let col = columns@[columns@.len() - 1]@;
                    if spec_parse_columns(tv, p2 as int + 1, endp as int) is Ok {
                        let rr = spec_parse_columns(tv, p2 as int + 1, endp as int)->Ok_0;
                        assert(spec_parse_columns(tv, at as int, endp as int) == Ok::<
                            (Seq<ColumnV>, int),
                            int,
                        >((seq![col] + rr.0, rr.1)));
                        assert(pre_cols + (seq![col] + rr.0) =~= views_of_columns(columns@)
                            + rr.0);
                    } else {
                        assert(spec_parse_columns(tv, at as int, endp as int)
                            == spec_parse_columns(tv, p2 as int + 1, endp as int));
                    }
                }
                at = p2 + 1;
            },
            Token::RParen => {
                proof {
                    let col = columns@[columns@.len() - 1]@;
                    assert(spec_parse_columns(tv, at as int, endp as int) == Ok::<
                        (Seq<ColumnV>, int),
                        int,
                    >((seq![col], p2 as int + 1)));
                    assert(pre_cols + seq![col] =~= views_of_columns(columns@));
                }
                return Ok((SqlQuery::Create(CreateQuery { table, columns }), p2 + 1));
            },
            _ => {
                proof {
                    assert(spec_parse_columns(tv, at as int, endp as int) == Err::<
                        (Seq<ColumnV>, int),
                        int,
                    >(tv[p2 as int].0));
                }
                return Err(ParseError { pos: toks[p2].0 });
            },
        }
    }
}

/// The tail of `INSERT INTO name VALUES ( value {, value} )`.
fn parse_insert(toks: &Vec<(usize, Token)>, k: usize, endp: usize) -> (r: Result<
    (SqlQuery, usize),
    ParseError,
>)
    ensures
        (match spec_parse_insert_tail(views_of_tokens(toks@), k as int, endp as int) {
            Ok(q) => r is Ok && r->Ok_0.0@ == q.0 && r->Ok_0.1 as int == q.1 && k < r->Ok_0.1
                <= toks@.len(),
            Err(p) => r matches Err(e) && e.pos as int == p,
        }),
{
    let k1 = expect_keyword(toks, k, "INTO", endp)?;
    let (table, k2) = expect_ident(toks, k1, endp)?;
    let k3 = expect_keyword(toks, k2, "VALUES", endp)?;
    let k4 = expect_lparen(toks, k3, endp)?;
    let mut values: Vec<Value> = Vec::new();
    let mut at: usize = k4;
    proof {
        assert(views_of_values(values@) =~= Seq::<ValueV>::empty());
        if spec_parse_values(views_of_tokens(toks@), at as int, endp as int) is Ok {
            let rr = spec_parse_values(views_of_tokens(toks@), at as int, endp as int)->Ok_0;
            assert(Seq::<ValueV>::empty() + rr.0 =~= rr.0);
        }
    }
    loop
        invariant
            k < at <= toks@.len(),
            spec_parse_insert_tail(views_of_tokens(toks@), k as int, endp as int)
                == spec_insert_done(
                table@,
                (match spec_parse_values(views_of_tokens(toks@), at as int, endp as int) {
                    Ok(rr) => Ok((views_of_values(values@) + rr.0, rr.1)),
                    Err(p) => Err(p),
                }),
            ),
        decreases toks@.len() - at,
    {
        let ghost tv = views_of_tokens(toks@);
        let ghost pre_vals = views_of_values(values@);
        let (value, p1) = expect_value(toks, at, endp)?;
        values.push(value);
        if p1 >= toks.len() {
            return Err(ParseError { pos: endp });
        }
        proof {
            assert(tv[p1 as int] == (toks@[p1 as int].0 as int, toks@[p1 as int].1@));
            assert(views_of_values(values@) =~= pre_vals.push(values@[values@.len() - 1]@));
        }
        match &toks[p1].1 {
            Token::Comma => {
                proof {
                    let val = values@[values@.len() - 1]@;
                    if spec_parse_values(tv, p1 as int + 1, endp as int) is Ok {
                        let rr = spec_parse_values(tv, p1 as int + 1, endp as int)->Ok_0;
                        assert(spec_parse_values(tv, at as int, endp as int) == Ok::<
                            (Seq<ValueV>, int),
                            int,
                        >((seq![val] + rr.0, rr.1)));
                        assert(pre_vals + (seq![val] + rr.0) =~= views_of_values(values@)
                            + rr.0);
                    } else {
                        assert(spec_parse_values(tv, at as int, endp as int)
                            == spec_parse_values(tv, p1 as int + 1, endp as int));
                    }
                }
                at = p1 + 1;
            },
            Token::RParen => {
                proof {
                    let val = values@[values@.len() - 1]@;
                    assert(spec_parse_values(tv, at as int, endp as int) == Ok::<
                        (Seq<ValueV>, int),
                        int,
                    >((seq![val], p1 as int + 1)));
                    assert(pre_vals + seq![val] =~= views_of_values(values@));
                }
                return Ok((SqlQuery::Insert(InsertQuery { table, values }), p1 + 1));
            },
            _ => {
                proof {
                    assert(spec_parse_values(tv, at as int, endp as int) == Err::<
                        (Seq<ValueV>, int),
                        int,
                    >(tv[p1 as int].0));
                }
                return Err(ParseError { pos: toks[p1].0 });
            },
        }
    }
}

/// The tail of `SELECT name {, name} FROM name`.
fn parse_select(toks: &Vec<(usize, Token)>, k: usize, endp: usize) -> (r: Result<
    (SqlQuery, usize),
    ParseError,
>)
    requires
        k <= toks@.len(),
    ensures
        (match spec_parse_select_tail(views_of_tokens(toks@), k as int, endp as int) {
            Ok(q) => r is Ok && r->Ok_0.0@ == q.0 && r->Ok_0.1 as int == q.1 && k < r->Ok_0.1
                <= toks@.len(),
            Err(p) => r matches Err(e) && e.pos as int == p,
        }),
{
    let mut fields: Vec<String> = Vec::new();
    let mut at: usize = k;
    proof {
        assert(views_of_names(fields@) =~= Seq::<Seq<char>>::empty());
        if spec_parse_fields(views_of_tokens(toks@), at as int, endp as int) is Ok {
            let rr = spec_parse_fields(views_of_tokens(toks@), at as int, endp as int)->Ok_0;
            assert(Seq::<Seq<char>>::empty() + rr.0 =~= rr.0);
        }
    }
    loop
        invariant
            k <= at <= toks@.len(),
            spec_parse_select_tail(views_of_tokens(toks@), k as int, endp as int)
                == spec_select_from(
                views_of_tokens(toks@),
                (match spec_parse_fields(views_of_tokens(toks@), at as int, endp as int) {
                    Ok(rr) => Ok((views_of_names(fields@) + rr.0, rr.1)),
                    Err(p) => Err(p),
                }),
                endp as int,
            ),
        decreases toks@.len() - at,
    {
        let ghost tv = views_of_tokens(toks@);
        let ghost pre_fields = views_of_names(fields@);
        let (name, p1) = expect_ident(toks, at, endp)?;
        fields.push(name);
        if p1 >= toks.len() {
            return Err(ParseError { pos: endp });
        }
        proof {
            assert(tv[p1 as int] == (toks@[p1 as int].0 as int, toks@[p1 as int].1@));
            assert(views_of_names(fields@) =~= pre_fields.push(fields@[fields@.len() - 1]@));
        }
        let is_comma = match &toks[p1].1 {
            Token::Comma => true,
            _ => false,
        };
        if is_comma {
            proof {
                let f = fields@[fields@.len() - 1]@;
                if spec_parse_fields(tv, p1 as int + 1, endp as int) is Ok {
                    let rr = spec_parse_fields(tv, p1 as int + 1, endp as int)->Ok_0;
                    assert(spec_parse_fields(tv, at as int, endp as int) == Ok::<
                        (Seq<Seq<char>>, int),
                        int,
                    >((seq![f] + rr.0, rr.1)));
                    assert(pre_fields + (seq![f] + rr.0) =~= views_of_names(fields@) + rr.0);
                } else {
                    assert(spec_parse_fields(tv, at as int, endp as int) == spec_parse_fields(
                        tv,
                        p1 as int + 1,
                        endp as int,
                    ));
                }
            }
            at = p1 + 1;
        } else {
            proof {
                let f = fields@[fields@.len() - 1]@;
                assert(spec_parse_fields(tv, at as int, endp as int) == Ok::<
                    (Seq<Seq<char>>, int),
                    int,
                >((seq![f], p1 as int)));
                assert(pre_fields + seq![f] =~= views_of_names(fields@));
            }
            let p2 = expect_keyword(toks, p1, "FROM", endp)?;
            let (table, p3) = expect_ident(toks, p2, endp)?;
            return Ok((SqlQuery::Select(SelectQuery { table, fields }), p3));
        }
    }
}

/// Parses exactly one statement, optionally ended by `;`: exactly what
/// [`spec_parse_query`] says of the input text. Anything left over after
/// the statement is malformed input.
pub fn parse_sql_query(query: &str) -> (r: Result<SqlQuery, ParseError>)
    ensures
        (match spec_parse_query(query@) {
            Ok(q) => r is Ok && r->Ok_0@ == q,
            Err(p) => r matches Err(e) && e.pos as int == p,
        }),
{
    let toks = match tokenize(query) {
        Ok(ts) => ts,
        Err(e) => {
            return Err(e);
        },
    };
    let endp = query.unicode_len();
    let parsed = match parse_statement(&toks, 0, endp) {
        Ok(qk) => qk,
        Err(e) => {
            return Err(e);
        },
    };
    let q = parsed.0;
    let mut k = parsed.1;
    proof {
        assert(views_of_tokens(toks@).len() == toks@.len());
    }
    if k < toks.len() {
        proof {
            assert(views_of_tokens(toks@)[k as int] == (toks@[k as int].0 as int, toks@[k as int].1@));
        }
        let is_semi = match &toks[k].1 {
            Token::Semi => true,
            _ => false,
        };
        if is_semi {
            k += 1;
        } else {
            return Err(ParseError { pos: toks[k].0 });
        }
    }
    if k < toks.len() {
        proof {
            assert(views_of_tokens(toks@)[k as int] == (toks@[k as int].0 as int, toks@[k as int].1@));
        }
        return Err(ParseError { pos: toks[k].0 });
    }
    Ok(q)
}

/// Parses a batch of one or more statements, each ended by `;` or by the
/// end of the input: exactly what [`spec_parse_queries`] says of the
/// input text. Empty input is malformed, so a successful batch holds at
/// least one statement.
pub fn parse_multiple_queries(query: &str) -> (r: Result<Vec<SqlQuery>, ParseError>)
    ensures
        (match spec_parse_queries(query@) {
            Ok(qs) => r is Ok && views_of_queries(r->Ok_0@) == qs && qs.len() >= 1,
            Err(p) => r matches Err(e) && e.pos as int == p,
        }),
        r is Ok ==> r->Ok_0@.len() >= 1,
{
    let toks = match tokenize(query) {
        Ok(ts) => ts,
        Err(e) => {
            return Err(e);
        },
    };
    let endp = query.unicode_len();
    if toks.len() == 0 {
        return Err(ParseError { pos: 0 });
    }
    let mut out: Vec<SqlQuery> = Vec::new();
    let mut k: usize = 0;
    proof {
        assert(views_of_queries(out@) =~= Seq::<QueryV>::empty());
        if spec_parse_batch(views_of_tokens(toks@), 0, endp as int) is Ok {
            let rest = spec_parse_batch(views_of_tokens(toks@), 0, endp as int)->Ok_0;
            assert(Seq::<QueryV>::empty() + rest =~= rest);
        }
    }
    while k < toks.len()
        invariant
            k <= toks@.len(),
            endp == query@.len(),
            out@.len() >= 1 || k < toks@.len(),
            toks@.len() >= 1,
            spec_tokenize(query@) == Ok::<Seq<(int, TokenV)>, int>(views_of_tokens(toks@)),
            k < toks@.len() ==> (match spec_parse_batch(
                views_of_tokens(toks@),
                k as int,
                endp as int,
            ) {
                Ok(rest) => spec_parse_queries(query@) == Ok::<Seq<QueryV>, int>(
                    views_of_queries(out@) + rest,
                ),
                Err(p) => spec_parse_queries(query@) == Err::<Seq<QueryV>, int>(p),
            }),
            k >= toks@.len() ==> spec_parse_queries(query@) == Ok::<Seq<QueryV>, int>(
                views_of_queries(out@),
            ),
        decreases toks@.len() - k,
    {
        let ghost tv = views_of_tokens(toks@);
        let ghost pre_out = views_of_queries(out@);
        let parsed = match parse_statement(&toks, k, endp) {
            Ok(qk) => qk,
            Err(e) => {
                return Err(e);
            },
        };
        out.push(parsed.0);
        let k2 = parsed.1;
        proof {
            assert(views_of_queries(out@) =~= pre_out.push(out@[out@.len() - 1]@));
        }
        if k2 < toks.len() {
            proof {
                assert(tv[k2 as int] == (toks@[k2 as int].0 as int, toks@[k2 as int].1@));
            }
            let is_semi = match &toks[k2].1 {
                Token::Semi => true,
                _ => false,
            };
            if !is_semi {
                proof {
                    let q0 = out@[out@.len() - 1]@;
                    assert(spec_parse_batch(tv, k as int, endp as int) == Err::<
                        Seq<QueryV>,
                        int,
                    >(tv[k2 as int].0));
                }
                return Err(ParseError { pos: toks[k2].0 });
            }
            proof {
                let q0 = out@[out@.len() - 1]@;
                if (k2 as int) + 1 < tv.len() {
                    if spec_parse_batch(tv, k2 as int + 1, endp as int) is Ok {
                        let rest = spec_parse_batch(tv, k2 as int + 1, endp as int)->Ok_0;
                        assert(spec_parse_batch(tv, k as int, endp as int) == Ok::<
                            Seq<QueryV>,
                            int,
                        >(seq![q0] + rest));
                        assert(pre_out + (seq![q0] + rest) =~= views_of_queries(out@) + rest);
                    } else {
                        assert(spec_parse_batch(tv, k as int, endp as int) == spec_parse_batch(
                            tv,
                            k2 as int + 1,
                            endp as int,
                        ));
                    }
                } else {
                    assert(spec_parse_batch(tv, k as int, endp as int) == Ok::<
                        Seq<QueryV>,
                        int,
                    >(seq![q0]));
                    assert(pre_out + seq![q0] =~= views_of_queries(out@));
                    assert(pre_out + seq![q0] + Seq::<QueryV>::empty() =~= views_of_queries(
                        out@,
                    ));
                }
            }
            k = k2 + 1;
        } else {
            proof {
                let q0 = out@[out@.len() - 1]@;
                assert(spec_parse_batch(tv, k as int, endp as int) == Ok::<Seq<QueryV>, int>(
                    seq![q0],
                ));
                assert(pre_out + seq![q0] =~= views_of_queries(out@));
            }
            k = k2;
        }
    }
    Ok(out)
}

} // verus!
