//! Tokenising and parsing ink expressions.
use vstd::prelude::*;
use crate::ast::{
    agrees, expr_model, exprs_model, BinaryOperator, Expression, Model, SpecExpression, strings_model,
};
use crate::error::{CompilerError, ErrorKind};
use crate::text::{
    chars_of, find_char, is_ident_char, is_whitespace, lemma_find_char_props, lemma_rfind_bounds, rfind_char, spec_find_from, slice_of, spec_find, spec_rfind, take, spec_is_ascii_alpha, spec_is_ascii_digit,
    spec_is_ident_char, spec_is_whitespace, spec_trim, string_of, trim,
};

verus! {

/// A lexical token of an expression.  Floating-point literals keep their
/// decimal text.
#[derive(Debug, PartialEq)]
pub enum Token {
    Bool(bool),
    Int(i32),
    Float(String),
    Str(String),
    Ident(String),
    DivertTarget(String),
    Plus,
    Minus,
    Star,
    Slash,
    Percent,
    EqualEqual,
    NotEqual,
    Greater,
    GreaterEqual,
    Less,
    LessEqual,
    AndAnd,
    OrOr,
    Bang,
    LeftParen,
    RightParen,
    Comma,
    Has,
    Hasnt,
    Caret,
}

pub enum SpecToken {
    Bool(bool),
    Int(int),
    Float(Seq<char>),
    Str(Seq<char>),
    Ident(Seq<char>),
    DivertTarget(Seq<char>),
    Plus,
    Minus,
    Star,
    Slash,
    Percent,
    EqualEqual,
    NotEqual,
    Greater,
    GreaterEqual,
    Less,
    LessEqual,
    AndAnd,
    OrOr,
    Bang,
    LeftParen,
    RightParen,
    Comma,
    Has,
    Hasnt,
    Caret,
}

pub open spec fn token_model(t: Token) -> SpecToken {
    match t {
        Token::Bool(b) => SpecToken::Bool(b),
        Token::Int(i) => SpecToken::Int(i as int),
        Token::Float(s) => SpecToken::Float(s@),
        Token::Str(s) => SpecToken::Str(s@),
        Token::Ident(s) => SpecToken::Ident(s@),
        Token::DivertTarget(s) => SpecToken::DivertTarget(s@),
        Token::Plus => SpecToken::Plus,
        Token::Minus => SpecToken::Minus,
        Token::Star => SpecToken::Star,
        Token::Slash => SpecToken::Slash,
        Token::Percent => SpecToken::Percent,
        Token::EqualEqual => SpecToken::EqualEqual,
        Token::NotEqual => SpecToken::NotEqual,
        Token::Greater => SpecToken::Greater,
        Token::GreaterEqual => SpecToken::GreaterEqual,
        Token::Less => SpecToken::Less,
        Token::LessEqual => SpecToken::LessEqual,
        Token::AndAnd => SpecToken::AndAnd,
        Token::OrOr => SpecToken::OrOr,
        Token::Bang => SpecToken::Bang,
        Token::LeftParen => SpecToken::LeftParen,
        Token::RightParen => SpecToken::RightParen,
        Token::Comma => SpecToken::Comma,
        Token::Has => SpecToken::Has,
        Token::Hasnt => SpecToken::Hasnt,
        Token::Caret => SpecToken::Caret,
    }
}

impl Model for Token {
    type M = SpecToken;

    open spec fn model(&self) -> SpecToken {
        token_model(*self)
    }
}

pub open spec fn tokens_model(s: Seq<Token>) -> Seq<SpecToken> {
    s.map_values(|t: Token| token_model(t))
}

impl Model for Vec<Token> {
    type M = Seq<SpecToken>;

    open spec fn model(&self) -> Seq<SpecToken> {
        tokens_model(self@)
    }
}

/// Number of characters of `s`, from index `i` on, that satisfy
/// identifier syntax (`[A-Za-z0-9_.]`).
pub open spec fn spec_ident_len_from(s: Seq<char>, i: int) -> int
    decreases s.len() - i,
{
    if 0 <= i < s.len() && spec_is_ident_char(s[i]) {
        1 + spec_ident_len_from(s, i + 1)
    } else {
        0
    }
}

/// Number of whitespace characters of `s` from index `i` on.
pub open spec fn spec_ws_len_from(s: Seq<char>, i: int) -> int
    decreases s.len() - i,
{
    if 0 <= i < s.len() && spec_is_whitespace(s[i]) {
        1 + spec_ws_len_from(s, i + 1)
    } else {
        0
    }
}

/// Number of ASCII digits of `s` from index `i` on.
pub open spec fn spec_digits_len_from(s: Seq<char>, i: int) -> int
    decreases s.len() - i,
{
    if 0 <= i < s.len() && spec_is_ascii_digit(s[i]) {
        1 + spec_digits_len_from(s, i + 1)
    } else {
        0
    }
}

/// First index `j >= i` holding a `"`, or the length of `s`.
pub open spec fn spec_quote_end(s: Seq<char>, i: int) -> int
    decreases s.len() - i,
{
    if i < 0 || i >= s.len() {
        s.len() as int
    } else if s[i] == '"' {
        i
    } else {
        spec_quote_end(s, i + 1)
    }
}

/// The value of a string of decimal digits.
pub open spec fn spec_decimal(d: Seq<char>) -> int
    decreases d.len(),
{
    if d.len() == 0 {
        0
    } else {
        spec_decimal(d.drop_last()) * 10 + ((d.last() as int) - ('0' as int))
    }
}

/// The leading identifier path of `s` (`[A-Za-z0-9_.]+`), if any.
pub open spec fn spec_path_identifier(s: Seq<char>) -> Option<Seq<char>> {
    let n = spec_ident_len_from(s, 0);
    if n == 0 {
        None
    } else {
        Some(s.take(n))
    }
}

pub open spec fn cons_token(t: SpecToken, r: Result<Seq<SpecToken>, ErrorKind>) -> Result<
    Seq<SpecToken>,
    ErrorKind,
> {
    match r {
        Ok(v) => Ok(seq![t] + v),
        Err(k) => Err(k),
    }
}

/// One- and two-character operator tokens starting at `s[i]`, with their
/// length.
pub open spec fn spec_operator_at(s: Seq<char>, i: int) -> Option<(SpecToken, int)> {
    let c = s[i];
    let next = if i + 1 < s.len() { Some(s[i + 1]) } else { None };
    if c == '+' {
        Some((SpecToken::Plus, 1))
    } else if c == '-' {
        Some((SpecToken::Minus, 1))
    } else if c == '*' {
        Some((SpecToken::Star, 1))
    } else if c == '/' {
        Some((SpecToken::Slash, 1))
    } else if c == '%' {
        Some((SpecToken::Percent, 1))
    } else if c == '!' && next == Some('=') {
        Some((SpecToken::NotEqual, 2))
    } else if c == '!' && next == Some('?') {
        Some((SpecToken::Hasnt, 2))
    } else if c == '!' {
        Some((SpecToken::Bang, 1))
    } else if c == '&' && next == Some('&') {
        Some((SpecToken::AndAnd, 2))
    } else if c == '|' && next == Some('|') {
        Some((SpecToken::OrOr, 2))
    } else if c == '=' && next == Some('=') {
        Some((SpecToken::EqualEqual, 2))
    } else if c == '>' && next == Some('=') {
        Some((SpecToken::GreaterEqual, 2))
    } else if c == '>' {
        Some((SpecToken::Greater, 1))
    } else if c == '<' && next == Some('=') {
        Some((SpecToken::LessEqual, 2))
    } else if c == '<' {
        Some((SpecToken::Less, 1))
    } else if c == '(' {
        Some((SpecToken::LeftParen, 1))
    } else if c == ')' {
        Some((SpecToken::RightParen, 1))
    } else if c == ',' {
        Some((SpecToken::Comma, 1))
    } else if c == '?' {
        Some((SpecToken::Has, 1))
    } else if c == '^' {
        Some((SpecToken::Caret, 1))
    } else {
        None
    }
}

/// The tokens of `s[i..]`.
pub open spec fn spec_tokenize_from(s: Seq<char>, i: int) -> Result<Seq<SpecToken>, ErrorKind>
    decreases s.len() - i,
{
    if i < 0 || i >= s.len() {
        Ok(Seq::empty())
    } else {
        let c = s[i];
        if spec_is_whitespace(c) {
            spec_tokenize_from(s, i + 1)
        } else if c == '-' && i + 1 < s.len() && s[i + 1] == '>' {
            proof {
                lemma_ws_len_bounds(s, i + 2);
                lemma_ident_len_bounds(s, i + 2 + spec_ws_len_from(s, i + 2));
            }
            let start = i + 2 + spec_ws_len_from(s, i + 2);
            let n = spec_ident_len_from(s, start);
            if n <= 0 {
                Err(ErrorKind::InvalidSource)
            } else {
                cons_token(
                    SpecToken::DivertTarget(s.subrange(start, start + n)),
                    spec_tokenize_from(s, start + n),
                )
            }
        } else if spec_operator_at(s, i) is Some {
            let (t, len) = spec_operator_at(s, i).unwrap();
            cons_token(t, spec_tokenize_from(s, i + len))
        } else if c == '"' {
            proof {
                lemma_quote_end_bounds(s, i + 1);
            }
            let end = spec_quote_end(s, i + 1);
            if end >= s.len() {
                Err(ErrorKind::InvalidSource)
            } else {
                cons_token(SpecToken::Str(s.subrange(i + 1, end)), spec_tokenize_from(s, end + 1))
            }
        } else if spec_is_ascii_digit(c) {
            proof {
                lemma_digits_len_bounds(s, i + 1);
                lemma_digits_len_bounds(s, i + 2 + spec_digits_len_from(s, i + 1));
            }
            let j = i + 1 + spec_digits_len_from(s, i + 1);
            if j < s.len() && s[j] == '.' {
                let k = j + 1 + spec_digits_len_from(s, j + 1);
                cons_token(SpecToken::Float(s.subrange(i, k)), spec_tokenize_from(s, k))
            } else {
                let v = spec_decimal(s.subrange(i, j));
                if v > i32::MAX {
                    Err(ErrorKind::InvalidSource)
                } else {
                    cons_token(SpecToken::Int(v), spec_tokenize_from(s, j))
                }
            }
        } else if spec_is_ascii_alpha(c) || c == '_' {
            proof {
                lemma_ident_len_bounds(s, i + 1);
            }
            let j = i + 1 + spec_ident_len_from(s, i + 1);
            let word = s.subrange(i, j);
            let t = if word == seq!['t', 'r', 'u', 'e'] {
                SpecToken::Bool(true)
            } else if word == seq!['f', 'a', 'l', 's', 'e'] {
                SpecToken::Bool(false)
            } else if word == seq!['a', 'n', 'd'] {
                SpecToken::AndAnd
            } else {
                SpecToken::Ident(word)
            };
            cons_token(t, spec_tokenize_from(s, j))
        } else {
            Err(ErrorKind::UnsupportedFeature)
        }
    }
}

pub open spec fn spec_tokenize(s: Seq<char>) -> Result<Seq<SpecToken>, ErrorKind> {
    spec_tokenize_from(s, 0)
}

pub open spec fn prepend_tokens(ts: Seq<SpecToken>, r: Result<Seq<SpecToken>, ErrorKind>) -> Result<
    Seq<SpecToken>,
    ErrorKind,
> {
    match r {
        Ok(v) => Ok(ts + v),
        Err(k) => Err(k),
    }
}

pub proof fn lemma_ws_len_bounds(s: Seq<char>, i: int)
    requires
        0 <= i,
    ensures
        0 <= spec_ws_len_from(s, i),
        i <= s.len() ==> spec_ws_len_from(s, i) <= s.len() - i,
    decreases s.len() - i,
{
    if 0 <= i < s.len() && spec_is_whitespace(s[i]) {
        lemma_ws_len_bounds(s, i + 1);
    }
}

pub proof fn lemma_digits_len_bounds(s: Seq<char>, i: int)
    requires
        0 <= i,
    ensures
        0 <= spec_digits_len_from(s, i),
        i <= s.len() ==> spec_digits_len_from(s, i) <= s.len() - i,
    decreases s.len() - i,
{
    if 0 <= i < s.len() && spec_is_ascii_digit(s[i]) {
        lemma_digits_len_bounds(s, i + 1);
    }
}

pub proof fn lemma_quote_end_bounds(s: Seq<char>, i: int)
    requires
        0 <= i,
    ensures
        i <= s.len() ==> i <= spec_quote_end(s, i) <= s.len(),
        spec_quote_end(s, i) <= s.len(),
    decreases s.len() - i,
{
    if 0 <= i < s.len() && s[i] != '"' {
        lemma_quote_end_bounds(s, i + 1);
    }
}

pub proof fn lemma_ident_len_bounds(s: Seq<char>, i: int)
    requires
        0 <= i,
    ensures
        0 <= spec_ident_len_from(s, i),
        i <= s.len() ==> spec_ident_len_from(s, i) <= s.len() - i,
        forall|t: int| i <= t < i + spec_ident_len_from(s, i) ==> spec_is_ident_char(s[t]),
    decreases s.len() - i,
{
    if i < s.len() && spec_is_ident_char(s[i]) {
        lemma_ident_len_bounds(s, i + 1);
    }
}

/// Counts identifier characters from index `i` on.
pub fn ident_len_from(s: &[char], i: usize) -> (n: usize)
    requires
        i <= s.len(),
    ensures
        n as int == spec_ident_len_from(s@, i as int),
        i + n <= s.len(),
{
    let mut j = i;
    while j < s.len() && is_ident_char(s[j])
        invariant
            i <= j <= s.len(),
            spec_ident_len_from(s@, i as int) == (j - i) + spec_ident_len_from(s@, j as int),
        decreases s.len() - j,
    {
        j = j + 1;
    }
    j - i
}

fn ws_len_from(s: &[char], i: usize) -> (n: usize)
    requires
        i <= s.len(),
    ensures
        n as int == spec_ws_len_from(s@, i as int),
        i + n <= s.len(),
{
    let mut j = i;
    while j < s.len() && is_whitespace(s[j])
        invariant
            i <= j <= s.len(),
            spec_ws_len_from(s@, i as int) == (j - i) + spec_ws_len_from(s@, j as int),
        decreases s.len() - j,
    {
        j = j + 1;
    }
    j - i
}

fn digits_len_from(s: &[char], i: usize) -> (n: usize)
    requires
        i <= s.len(),
    ensures
        n as int == spec_digits_len_from(s@, i as int),
        i + n <= s.len(),
        forall|t: int| i <= t < i + n ==> spec_is_ascii_digit(s@[t]),
{
    let mut j = i;
    while j < s.len() && '0' <= s[j] && s[j] <= '9'
        invariant
            i <= j <= s.len(),
            spec_digits_len_from(s@, i as int) == (j - i) + spec_digits_len_from(s@, j as int),
            forall|t: int| i <= t < j ==> spec_is_ascii_digit(s@[t]),
        decreases s.len() - j,
    {
        j = j + 1;
    }
    j - i
}

fn quote_end(s: &[char], i: usize) -> (e: usize)
    requires
        i <= s.len(),
    ensures
        e as int == spec_quote_end(s@, i as int),
        i <= e <= s.len(),
{
    let mut j = i;
    while j < s.len() && s[j] != '"'
        invariant
            i <= j <= s.len(),
            spec_quote_end(s@, i as int) == spec_quote_end(s@, j as int),
        decreases s.len() - j,
    {
        j = j + 1;
    }
    j
}

pub proof fn lemma_decimal_nonneg(d: Seq<char>)
    requires
        forall|t: int| 0 <= t < d.len() ==> spec_is_ascii_digit(d[t]),
    ensures
        spec_decimal(d) >= 0,
    decreases d.len(),
{
    if d.len() > 0 {
        lemma_decimal_nonneg(d.drop_last());
    }
}

pub proof fn lemma_decimal_mono(d: Seq<char>, j: int)
    requires
        0 <= j <= d.len(),
        forall|t: int| 0 <= t < d.len() ==> spec_is_ascii_digit(d[t]),
    ensures
        spec_decimal(d.take(j)) <= spec_decimal(d),
    decreases d.len() - j,
{
    if j < d.len() {
        lemma_decimal_mono(d, j + 1);
        assert(d.take(j + 1).drop_last() =~= d.take(j));
        lemma_decimal_nonneg(d.take(j));
    } else {
        assert(d.take(j) =~= d);
    }
}

/// The value of the digits `s[lo..hi]` if it fits in an `i32`.
fn decimal_i32(s: &[char], lo: usize, hi: usize) -> (r: Option<i32>)
    requires
        lo <= hi <= s.len(),
        forall|t: int| lo <= t < hi ==> spec_is_ascii_digit(s@[t]),
    ensures
        r matches Some(v) ==> v as int == spec_decimal(s@.subrange(lo as int, hi as int)),
        r is None <==> spec_decimal(s@.subrange(lo as int, hi as int)) > i32::MAX,
{
    let ghost d = s@.subrange(lo as int, hi as int);
    let mut acc: u64 = 0;
    let mut j = lo;
    assert(d.take(0) =~= Seq::<char>::empty());
    while j < hi
        invariant
            lo <= j <= hi <= s.len(),
            d == s@.subrange(lo as int, hi as int),
            forall|t: int| 0 <= t < d.len() ==> spec_is_ascii_digit(d[t]),
            forall|t: int| lo <= t < hi ==> spec_is_ascii_digit(s@[t]),
            acc as int == spec_decimal(d.take(j - lo)),
            acc <= i32::MAX,
        decreases hi - j,
    {
        let ch = s[j];
        assert(spec_is_ascii_digit(ch));
        assert(ch as u32 >= 48 && ch as u32 <= 57);
        let digit = (ch as u32) - 48;
        assert(d.take(j - lo + 1).drop_last() =~= d.take(j - lo));
        assert(d.take(j - lo + 1).last() == s@[j as int]);
        acc = acc * 10 + (digit as u64);
        j = j + 1;
        if acc > 2147483647 {
            proof {
                lemma_decimal_mono(d, j - lo);
            }
            return None;
        }
    }
    assert(d.take(hi - lo) =~= d);
    Some(acc as i32)
}

/// The leading identifier path of `text`, as characters.
pub fn path_identifier(text: &[char]) -> (r: Option<Vec<char>>)
    ensures
        r matches Some(p) ==> spec_path_identifier(text@) == Some(p@),
        r is None ==> spec_path_identifier(text@) is None,
{
    let n = ident_len_from(text, 0);
    if n == 0 {
        None
    } else {
        Some(slice_of(text, 0, n))
    }
}

/// The leading identifier path of `text` (letters, digits, `_` and `.`).
pub fn parse_path_identifier(text: &str) -> (r: Option<String>)
    ensures
        r matches Some(p) ==> spec_path_identifier(text@) == Some(p@),
        r is None ==> spec_path_identifier(text@) is None,
{
    let chars = chars_of(text);
    match path_identifier(&chars) {
        Some(p) => Some(string_of(&p)),
        None => None,
    }
}

/// Splits `s[i..]` into tokens; see `spec_tokenize`.
pub fn tokenize_chars(s: &[char]) -> (r: Result<Vec<Token>, CompilerError>)
    ensures
        agrees(r, spec_tokenize(s@)),
{
    let mut tokens: Vec<Token> = Vec::new();
    let mut i: usize = 0;
    let n = s.len();
    while i < n
        invariant
            n == s.len(),
            i <= n,
            spec_tokenize(s@) == prepend_tokens(tokens.model(), spec_tokenize_from(s@, i as int)),
        decreases n - i,
    {
        let ghost before = tokens.model();
        let c = s[i];
        if is_whitespace(c) {
            i = i + 1;
            continue;
        }
        let tok: Token;
        let next: usize;
        if c == '-' && i + 1 < n && s[i + 1] == '>' {
            let w = ws_len_from(s, i + 2);
            let start = i + 2 + w;
            let len = ident_len_from(s, start);
            if len == 0 {
                return Err(CompilerError::invalid_source(
                    string_of(&['e', 'x', 'p', 'e', 'c', 't', 'e', 'd', ' ', 'd', 'i', 'v', 'e', 'r', 't', ' ', 't', 'a', 'r', 'g', 'e', 't']),
                ));
            }
            tok = Token::DivertTarget(string_of(&slice_of(s, start, start + len)));
            next = start + len;
        } else if operator_at(s, i).is_some() {
            let (t, len) = operator_at(s, i).unwrap();
            tok = t;
            next = i + len;
        } else if c == '"' {
            let end = quote_end(s, i + 1);
            if end >= n {
                return Err(CompilerError::invalid_source(
                    string_of(&['u', 'n', 't', 'e', 'r', 'm', 'i', 'n', 'a', 't', 'e', 'd', ' ', 's', 't', 'r', 'i', 'n', 'g']),
                ));
            }
            tok = Token::Str(string_of(&slice_of(s, i + 1, end)));
            next = end + 1;
        } else if '0' <= c && c <= '9' {
            let j = i + 1 + digits_len_from(s, i + 1);
            if j < n && s[j] == '.' {
                let k = j + 1 + digits_len_from(s, j + 1);
                tok = Token::Float(string_of(&slice_of(s, i, k)));
                next = k;
            } else {
                match decimal_i32(s, i, j) {
                    Some(v) => {
                        tok = Token::Int(v);
                        next = j;
                    },
                    None => {
                        return Err(CompilerError::invalid_source(
                            string_of(&['i', 'n', 'v', 'a', 'l', 'i', 'd', ' ', 'i', 'n', 't', 'e', 'g', 'e', 'r']),
                        ));
                    },
                }
            }
        } else if ('a' <= c && c <= 'z') || ('A' <= c && c <= 'Z') || c == '_' {
            let j = i + 1 + ident_len_from(s, i + 1);
            let word = slice_of(s, i, j);
            if word.len() == 4 && word[0] == 't' && word[1] == 'r' && word[2] == 'u' && word[3] == 'e' {
                assert(word@ =~= seq!['t', 'r', 'u', 'e']);
                tok = Token::Bool(true);
            } else if word.len() == 5 && word[0] == 'f' && word[1] == 'a' && word[2] == 'l'
                && word[3] == 's' && word[4] == 'e' {
                assert(word@ =~= seq!['f', 'a', 'l', 's', 'e']);
                tok = Token::Bool(false);
            } else if word.len() == 3 && word[0] == 'a' && word[1] == 'n' && word[2] == 'd' {
                assert(word@ =~= seq!['a', 'n', 'd']);
                tok = Token::AndAnd;
            } else {
                tok = Token::Ident(string_of(&word));
            }
            next = j;
        } else {
            return Err(CompilerError::unsupported_feature(
                string_of(&['u', 'n', 's', 'u', 'p', 'p', 'o', 'r', 't', 'e', 'd', ' ', 't', 'o', 'k', 'e', 'n']),
            ));
        }
        tokens.push(tok);
        proof {
            assert(tokens.model() =~= before.push(token_model(tok)));
            let r = spec_tokenize_from(s@, next as int);
            match r {
                Ok(v) => {
                    assert(before + (seq![token_model(tok)] + v) =~= tokens.model() + v);
                },
                Err(_) => {},
            }
        }
        i = next;
    }
    assert(tokens.model() + Seq::<SpecToken>::empty() =~= tokens.model());
    Ok(tokens)
}

fn operator_at(s: &[char], i: usize) -> (r: Option<(Token, usize)>)
    requires
        i < s.len(),
    ensures
        r matches Some((t, len)) ==> spec_operator_at(s@, i as int) == Some((token_model(t), len as int)),
        r is None ==> spec_operator_at(s@, i as int) is None,
        r matches Some((t, len)) ==> 1 <= len <= 2 && i + len <= s.len(),
{
    let c = s[i];
    let next = if i + 1 < s.len() { Some(s[i + 1]) } else { None };
    if c == '+' {
        Some((Token::Plus, 1))
    } else if c == '-' {
        Some((Token::Minus, 1))
    } else if c == '*' {
        Some((Token::Star, 1))
    } else if c == '/' {
        Some((Token::Slash, 1))
    } else if c == '%' {
        Some((Token::Percent, 1))
    } else if c == '!' && next == Some('=') {
        Some((Token::NotEqual, 2))
    } else if c == '!' && next == Some('?') {
        Some((Token::Hasnt, 2))
    } else if c == '!' {
        Some((Token::Bang, 1))
    } else if c == '&' && next == Some('&') {
        Some((Token::AndAnd, 2))
    } else if c == '|' && next == Some('|') {
        Some((Token::OrOr, 2))
    } else if c == '=' && next == Some('=') {
        Some((Token::EqualEqual, 2))
    } else if c == '>' && next == Some('=') {
        Some((Token::GreaterEqual, 2))
    } else if c == '>' {
        Some((Token::Greater, 1))
    } else if c == '<' && next == Some('=') {
        Some((Token::LessEqual, 2))
    } else if c == '<' {
        Some((Token::Less, 1))
    } else if c == '(' {
        Some((Token::LeftParen, 1))
    } else if c == ')' {
        Some((Token::RightParen, 1))
    } else if c == ',' {
        Some((Token::Comma, 1))
    } else if c == '?' {
        Some((Token::Has, 1))
    } else if c == '^' {
        Some((Token::Caret, 1))
    } else {
        None
    }
}

/// Splits an expression into tokens.
pub fn tokenize_expression(input: &str) -> (r: Result<Vec<Token>, CompilerError>)
    ensures
        agrees(r, spec_tokenize(input@)),
{
    let chars = chars_of(input);
    tokenize_chars(&chars)
}

} // verus!

verus! {

/// The binary operator that token `t` stands for at precedence `level`
/// (0: `||`, 1: `&&`, 2: equality, 3: comparison and list operators,
/// 4: additive, 5: multiplicative).
pub open spec fn spec_binop(level: nat, t: SpecToken) -> Option<BinaryOperator> {
    if level == 0 {
        match t {
            SpecToken::OrOr => Some(BinaryOperator::Or),
            _ => None,
        }
    } else if level == 1 {
        match t {
            SpecToken::AndAnd => Some(BinaryOperator::And),
            _ => None,
        }
    } else if level == 2 {
        match t {
            SpecToken::EqualEqual => Some(BinaryOperator::Equal),
            SpecToken::NotEqual => Some(BinaryOperator::NotEqual),
            _ => None,
        }
    } else if level == 3 {
        match t {
            SpecToken::Greater => Some(BinaryOperator::Greater),
            SpecToken::GreaterEqual => Some(BinaryOperator::GreaterEqual),
            SpecToken::Less => Some(BinaryOperator::Less),
            SpecToken::LessEqual => Some(BinaryOperator::LessEqual),
            SpecToken::Has => Some(BinaryOperator::Has),
            SpecToken::Hasnt => Some(BinaryOperator::Hasnt),
            SpecToken::Caret => Some(BinaryOperator::Intersect),
            _ => None,
        }
    } else if level == 4 {
        match t {
            SpecToken::Plus => Some(BinaryOperator::Add),
            SpecToken::Minus => Some(BinaryOperator::Subtract),
            _ => None,
        }
    } else if level == 5 {
        match t {
            SpecToken::Star => Some(BinaryOperator::Multiply),
            SpecToken::Slash => Some(BinaryOperator::Divide),
            SpecToken::Percent => Some(BinaryOperator::Modulo),
            _ => None,
        }
    } else {
        None
    }
}

pub open spec fn spec_binary(left: SpecExpression, operator: BinaryOperator, right: SpecExpression) -> SpecExpression {
    SpecExpression::Binary { left: Box::new(left), operator, right: Box::new(right) }
}

/// The name of an identifier used as a list item.
pub open spec fn spec_list_item_name(e: SpecExpression) -> Result<Seq<char>, ErrorKind> {
    match e {
        SpecExpression::Variable(n) => Ok(n),
        _ => Err(ErrorKind::InvalidSource),
    }
}

/// An expression of precedence `level` or tighter, parsed from `t[pos..]`,
/// with the position after it.
pub open spec fn spec_parse_level(t: Seq<SpecToken>, pos: int, level: nat) -> Result<(SpecExpression, int), ErrorKind>
    decreases t.len() - pos, 10 - (if level < 6 { level } else { 6nat }),
{
    if level >= 6 {
        spec_parse_unary(t, pos)
    } else {
        match spec_parse_level(t, pos, level + 1) {
            Err(k) => Err(k),
            Ok((e, p)) => if pos < p <= t.len() {
                spec_parse_rest(t, p, level, e)
            } else {
                Ok((e, p))
            },
        }
    }
}

/// Left-associative continuation at `level` after the operand `acc`.
pub open spec fn spec_parse_rest(t: Seq<SpecToken>, pos: int, level: nat, acc: SpecExpression) -> Result<(SpecExpression, int), ErrorKind>
    decreases t.len() - pos, 0nat,
{
    if 0 <= pos < t.len() && level < 6 && spec_binop(level, t[pos]) is Some {
        let op = spec_binop(level, t[pos]).unwrap();
        match spec_parse_level(t, pos + 1, level + 1) {
            Err(k) => Err(k),
            Ok((r, p)) => if pos + 1 < p <= t.len() {
                spec_parse_rest(t, p, level, spec_binary(acc, op, r))
            } else {
                Ok((spec_binary(acc, op, r), p))
            },
        }
    } else {
        Ok((acc, pos))
    }
}

/// `!x` stands for `x == 0`.
pub open spec fn spec_parse_unary(t: Seq<SpecToken>, pos: int) -> Result<(SpecExpression, int), ErrorKind>
    decreases t.len() - pos, 2nat,
{
    if 0 <= pos < t.len() && t[pos] is Bang {
        match spec_parse_primary(t, pos + 1) {
            Err(k) => Err(k),
            Ok((e, p)) => Ok((spec_binary(e, BinaryOperator::Equal, SpecExpression::Int(0)), p)),
        }
    } else {
        spec_parse_primary(t, pos)
    }
}

pub open spec fn spec_parse_primary(t: Seq<SpecToken>, pos: int) -> Result<(SpecExpression, int), ErrorKind>
    decreases t.len() - pos, 1nat,
{
    if pos < 0 || pos >= t.len() {
        Err(ErrorKind::InvalidSource)
    } else {
        match t[pos] {
            SpecToken::Bool(b) => Ok((SpecExpression::Bool(b), pos + 1)),
            SpecToken::Int(v) => Ok((SpecExpression::Int(v), pos + 1)),
            SpecToken::Float(x) => Ok((SpecExpression::Float(x), pos + 1)),
            SpecToken::Str(x) => Ok((SpecExpression::Str(x), pos + 1)),
            SpecToken::DivertTarget(x) => Ok((SpecExpression::DivertTarget(x), pos + 1)),
            SpecToken::Ident(name) => if pos + 1 < t.len() && t[pos + 1] is LeftParen {
                if pos + 2 < t.len() && t[pos + 2] is RightParen {
                    Ok((SpecExpression::FunctionCall { name, args: Seq::empty() }, pos + 3))
                } else {
                    match spec_parse_args(t, pos + 2, Seq::empty()) {
                        Err(k) => Err(k),
                        Ok((args, p)) => if pos + 2 < p < t.len() && t[p] is RightParen {
                            Ok((SpecExpression::FunctionCall { name, args }, p + 1))
                        } else {
                            Err(ErrorKind::InvalidSource)
                        },
                    }
                }
            } else {
                Ok((SpecExpression::Variable(name), pos + 1))
            },
            SpecToken::Minus => match spec_parse_unary(t, pos + 1) {
                Err(k) => Err(k),
                Ok((e, p)) => Ok((SpecExpression::Negate(Box::new(e)), p)),
            },
            SpecToken::LeftParen => if pos + 1 < t.len() && t[pos + 1] is RightParen {
                Ok((SpecExpression::EmptyList, pos + 2))
            } else {
                match spec_parse_level(t, pos + 1, 0) {
                    Err(k) => Err(k),
                    Ok((e, p)) => if !(pos + 1 < p <= t.len()) {
                        Ok((e, p))
                    } else if p < t.len() && t[p] is Comma {
                        match spec_list_item_name(e) {
                            Err(k) => Err(k),
                            Ok(n) => match spec_parse_items(t, p + 1, seq![n]) {
                                Err(k) => Err(k),
                                Ok((items, q)) => if p < q < t.len() && t[q] is RightParen {
                                    Ok((SpecExpression::ListItems(items), q + 1))
                                } else {
                                    Err(ErrorKind::InvalidSource)
                                },
                            },
                        }
                    } else if p < t.len() && t[p] is RightParen {
                        match e {
                            SpecExpression::Variable(n) => Ok((SpecExpression::ListItems(seq![n]), p + 1)),
                            _ => Ok((e, p + 1)),
                        }
                    } else {
                        Err(ErrorKind::InvalidSource)
                    },
                }
            },
            _ => Err(ErrorKind::UnsupportedFeature),
        }
    }
}

/// Comma-separated call arguments from `t[pos..]`, after those in `acc`.
pub open spec fn spec_parse_args(t: Seq<SpecToken>, pos: int, acc: Seq<SpecExpression>) -> Result<(Seq<SpecExpression>, int), ErrorKind>
    decreases t.len() - pos, 11nat,
{
    match spec_parse_level(t, pos, 0) {
        Err(k) => Err(k),
        Ok((a, p)) => if !(pos < p <= t.len()) {
            Ok((acc.push(a), p))
        } else if p < t.len() && t[p] is Comma {
            spec_parse_args(t, p + 1, acc.push(a))
        } else {
            Ok((acc.push(a), p))
        },
    }
}

/// Comma-separated list items from `t[pos..]`, after those in `acc`.
pub open spec fn spec_parse_items(t: Seq<SpecToken>, pos: int, acc: Seq<Seq<char>>) -> Result<(Seq<Seq<char>>, int), ErrorKind>
    decreases t.len() - pos, 11nat,
{
    if 0 <= pos < t.len() && t[pos] is RightParen {
        Ok((acc, pos))
    } else {
        match spec_parse_level(t, pos, 0) {
            Err(k) => Err(k),
            Ok((e, p)) => match spec_list_item_name(e) {
                Err(k) => Err(k),
                Ok(n) => if !(pos < p <= t.len()) {
                    Ok((acc.push(n), p))
                } else if p < t.len() && t[p] is Comma {
                    spec_parse_items(t, p + 1, acc.push(n))
                } else {
                    Ok((acc.push(n), p))
                },
            },
        }
    }
}

/// An expression parsed from text: the whole token list must be consumed.
#[verifier::opaque]
pub open spec fn spec_parse_expression(s: Seq<char>) -> Result<SpecExpression, ErrorKind> {
    match spec_tokenize(s) {
        Err(k) => Err(k),
        Ok(t) => match spec_parse_level(t, 0, 0) {
            Err(k) => Err(k),
            Ok((e, p)) => if p >= t.len() {
                Ok(e)
            } else {
                Err(ErrorKind::UnsupportedFeature)
            },
        },
    }
}

pub open spec fn agrees_at(r: Result<(Expression, usize), CompilerError>, s: Result<(SpecExpression, int), ErrorKind>) -> bool {
    match (r, s) {
        (Ok((e, p)), Ok((se, sp))) => expr_model(e) == se && p as int == sp,
        (Err(e), Err(k)) => e.kind == k,
        _ => false,
    }
}

pub open spec fn agrees_args(r: Result<(Vec<Expression>, usize), CompilerError>, s: Result<(Seq<SpecExpression>, int), ErrorKind>) -> bool {
    match (r, s) {
        (Ok((e, p)), Ok((se, sp))) => exprs_model(e@) == se && p as int == sp,
        (Err(e), Err(k)) => e.kind == k,
        _ => false,
    }
}

pub open spec fn agrees_items(r: Result<(Vec<String>, usize), CompilerError>, s: Result<(Seq<Seq<char>>, int), ErrorKind>) -> bool {
    match (r, s) {
        (Ok((e, p)), Ok((se, sp))) => strings_model(e@) == se && p as int == sp,
        (Err(e), Err(k)) => e.kind == k,
        _ => false,
    }
}

fn binop(level: usize, t: &Token) -> (r: Option<BinaryOperator>)
    ensures
        r == spec_binop(level as nat, token_model(*t)),
{
    match (level, t) {
        (0, Token::OrOr) => Some(BinaryOperator::Or),
        (1, Token::AndAnd) => Some(BinaryOperator::And),
        (2, Token::EqualEqual) => Some(BinaryOperator::Equal),
        (2, Token::NotEqual) => Some(BinaryOperator::NotEqual),
        (3, Token::Greater) => Some(BinaryOperator::Greater),
        (3, Token::GreaterEqual) => Some(BinaryOperator::GreaterEqual),
        (3, Token::Less) => Some(BinaryOperator::Less),
        (3, Token::LessEqual) => Some(BinaryOperator::LessEqual),
        (3, Token::Has) => Some(BinaryOperator::Has),
        (3, Token::Hasnt) => Some(BinaryOperator::Hasnt),
        (3, Token::Caret) => Some(BinaryOperator::Intersect),
        (4, Token::Plus) => Some(BinaryOperator::Add),
        (4, Token::Minus) => Some(BinaryOperator::Subtract),
        (5, Token::Star) => Some(BinaryOperator::Multiply),
        (5, Token::Slash) => Some(BinaryOperator::Divide),
        (5, Token::Percent) => Some(BinaryOperator::Modulo),
        _ => None,
    }
}

fn binary(left: Expression, operator: BinaryOperator, right: Expression) -> (e: Expression)
    ensures
        expr_model(e) == spec_binary(expr_model(left), operator, expr_model(right)),
{
    Expression::Binary { left: Box::new(left), operator, right: Box::new(right) }
}

/// A recursive-descent parser over a token list.
struct ExpressionParser {
    tokens: Vec<Token>,
}

impl ExpressionParser {
    fn is_token(&self, pos: usize, left_paren: bool) -> (r: bool)
        ensures
            r == (pos < self.tokens.len() && (if left_paren {
                self.tokens.model()[pos as int] is LeftParen
            } else {
                self.tokens.model()[pos as int] is RightParen
            })),
    {
        if pos < self.tokens.len() {
            match &self.tokens[pos] {
                Token::LeftParen => left_paren,
                Token::RightParen => !left_paren,
                _ => false,
            }
        } else {
            false
        }
    }

    fn is_comma(&self, pos: usize) -> (r: bool)
        ensures
            r == (pos < self.tokens.len() && self.tokens.model()[pos as int] is Comma),
    {
        pos < self.tokens.len() && matches!(&self.tokens[pos], Token::Comma)
    }

    fn parse_level(&self, pos: usize, level: usize) -> (r: Result<(Expression, usize), CompilerError>)
        requires
            pos <= self.tokens.len(),
            level <= 6,
        ensures
            agrees_at(r, spec_parse_level(self.tokens.model(), pos as int, level as nat)),
            r matches Ok((_, p)) ==> pos < p <= self.tokens.len(),
        decreases self.tokens.len() - pos, 10 - level,
    {
        if level >= 6 {
            return self.parse_unary(pos);
        }
        match self.parse_level(pos, level + 1) {
            Err(e) => Err(e),
            Ok((e, p)) => self.parse_rest(p, level, e),
        }
    }

    fn parse_rest(&self, pos: usize, level: usize, acc: Expression) -> (r: Result<(Expression, usize), CompilerError>)
        requires
            pos <= self.tokens.len(),
            level < 6,
        ensures
            agrees_at(r, spec_parse_rest(self.tokens.model(), pos as int, level as nat, expr_model(acc))),
            r matches Ok((_, p)) ==> pos <= p <= self.tokens.len(),
        decreases self.tokens.len() - pos, 0nat,
    {
        if pos < self.tokens.len() {
            if let Some(op) = binop(level, &self.tokens[pos]) {
                match self.parse_level(pos + 1, level + 1) {
                    Err(e) => return Err(e),
                    Ok((r, p)) => {
                        let combined = binary(acc, op, r);
                        return self.parse_rest(p, level, combined);
                    },
                }
            }
        }
        Ok((acc, pos))
    }

    fn parse_unary(&self, pos: usize) -> (r: Result<(Expression, usize), CompilerError>)
        requires
            pos <= self.tokens.len(),
        ensures
            agrees_at(r, spec_parse_unary(self.tokens.model(), pos as int)),
            r matches Ok((_, p)) ==> pos < p <= self.tokens.len(),
        decreases self.tokens.len() - pos, 2nat,
    {
        if pos < self.tokens.len() && matches!(&self.tokens[pos], Token::Bang) {
            match self.parse_primary(pos + 1) {
                Err(e) => Err(e),
                Ok((e, p)) => Ok((binary(e, BinaryOperator::Equal, Expression::Int(0)), p)),
            }
        } else {
            self.parse_primary(pos)
        }
    }

    fn parse_primary(&self, pos: usize) -> (r: Result<(Expression, usize), CompilerError>)
        requires
            pos <= self.tokens.len(),
        ensures
            agrees_at(r, spec_parse_primary(self.tokens.model(), pos as int)),
            r matches Ok((_, p)) ==> pos < p <= self.tokens.len(),
        decreases self.tokens.len() - pos, 1nat,
    {
        if pos >= self.tokens.len() {
            return Err(CompilerError::invalid_source("expected expression but found end of input".to_owned()));
        }
        let n = self.tokens.len();
        match &self.tokens[pos] {
            Token::Bool(b) => Ok((Expression::Bool(*b), pos + 1)),
            Token::Int(v) => Ok((Expression::Int(*v), pos + 1)),
            Token::Float(x) => Ok((Expression::Float(x.clone()), pos + 1)),
            Token::Str(x) => Ok((Expression::Str(x.clone()), pos + 1)),
            Token::DivertTarget(x) => Ok((Expression::DivertTarget(x.clone()), pos + 1)),
            Token::Ident(name) => {
                if self.is_token(pos + 1, true) {
                    if self.is_token(pos + 2, false) {
                        let e = Expression::FunctionCall { name: name.clone(), args: Vec::new() };
                        assert(exprs_model(Seq::<Expression>::empty()) =~= Seq::<SpecExpression>::empty());
                        Ok((e, pos + 3))
                    } else {
                        assert(exprs_model(Seq::<Expression>::empty()) =~= Seq::<SpecExpression>::empty());
                        match self.parse_args(pos + 2, Vec::new()) {
                            Err(e) => Err(e),
                            Ok((args, p)) => {
                                if self.is_token(p, false) {
                                    Ok((Expression::FunctionCall { name: name.clone(), args }, p + 1))
                                } else {
                                    Err(CompilerError::invalid_source("missing ')' in function call".to_owned()))
                                }
                            },
                        }
                    }
                } else {
                    Ok((Expression::Variable(name.clone()), pos + 1))
                }
            },
            Token::Minus => match self.parse_unary(pos + 1) {
                Err(e) => Err(e),
                Ok((e, p)) => Ok((Expression::Negate(Box::new(e)), p)),
            },
            Token::LeftParen => {
                if self.is_token(pos + 1, false) {
                    return Ok((Expression::EmptyList, pos + 2));
                }
                match self.parse_level(pos + 1, 0) {
                    Err(e) => Err(e),
                    Ok((e, p)) => {
                        if self.is_comma(p) {
                            match e {
                                Expression::Variable(first) => {
                                    let mut acc: Vec<String> = Vec::new();
                                    acc.push(first);
                                    assert(strings_model(acc@) =~= seq![first@]);
                                    match self.parse_items(p + 1, acc) {
                                        Err(e) => Err(e),
                                        Ok((items, q)) => {
                                            if self.is_token(q, false) {
                                                Ok((Expression::ListItems(items), q + 1))
                                            } else {
                                                Err(CompilerError::invalid_source("missing ')' in list literal".to_owned()))
                                            }
                                        },
                                    }
                                },
                                _ => Err(CompilerError::invalid_source("list literal items must be identifiers".to_owned())),
                            }
                        } else if self.is_token(p, false) {
                            match e {
                                Expression::Variable(name) => {
                                    let mut items: Vec<String> = Vec::new();
                                    items.push(name);
                                    assert(strings_model(items@) =~= seq![name@]);
                                    Ok((Expression::ListItems(items), p + 1))
                                },
                                _ => Ok((e, p + 1)),
                            }
                        } else {
                            Err(CompilerError::invalid_source("missing ')' in expression".to_owned()))
                        }
                    },
                }
            },
            _ => Err(CompilerError::unsupported_feature("unsupported expression form".to_owned())),
        }
    }

    fn parse_args(&self, pos: usize, acc: Vec<Expression>) -> (r: Result<(Vec<Expression>, usize), CompilerError>)
        requires
            pos <= self.tokens.len(),
        ensures
            agrees_args(r, spec_parse_args(self.tokens.model(), pos as int, exprs_model(acc@))),
            r matches Ok((_, p)) ==> pos < p <= self.tokens.len(),
        decreases self.tokens.len() - pos, 11nat,
    {
        match self.parse_level(pos, 0) {
            Err(e) => Err(e),
            Ok((a, p)) => {
                let mut acc = acc;
                let ghost old_acc = acc@;
                acc.push(a);
                assert(acc@.drop_last() =~= old_acc);
                if self.is_comma(p) {
                    self.parse_args(p + 1, acc)
                } else {
                    Ok((acc, p))
                }
            },
        }
    }

    fn parse_items(&self, pos: usize, acc: Vec<String>) -> (r: Result<(Vec<String>, usize), CompilerError>)
        requires
            pos <= self.tokens.len(),
        ensures
            agrees_items(r, spec_parse_items(self.tokens.model(), pos as int, strings_model(acc@))),
            r matches Ok((_, p)) ==> pos <= p <= self.tokens.len(),
        decreases self.tokens.len() - pos, 11nat,
    {
        if self.is_token(pos, false) {
            return Ok((acc, pos));
        }
        match self.parse_level(pos, 0) {
            Err(e) => Err(e),
            Ok((e, p)) => match e {
                Expression::Variable(n) => {
                    let mut acc = acc;
                    let ghost old_acc = acc@;
                    acc.push(n);
                    assert(strings_model(acc@) =~= strings_model(old_acc).push(n@));
                    if self.is_comma(p) {
                        self.parse_items(p + 1, acc)
                    } else {
                        Ok((acc, p))
                    }
                },
                _ => Err(CompilerError::invalid_source("list literal items must be identifiers".to_owned())),
            },
        }
    }
}

/// Parses an expression from characters; see `spec_parse_expression`.
pub fn parse_expression_chars(input: &[char]) -> (r: Result<Expression, CompilerError>)
    ensures
        agrees(r, spec_parse_expression(input@)),
{
    proof {
        reveal(spec_parse_expression);
    }
    let tokens = match tokenize_chars(input) {
        Ok(t) => t,
        Err(e) => return Err(e),
    };
    let parser = ExpressionParser { tokens };
    match parser.parse_level(0, 0) {
        Err(e) => Err(e),
        Ok((e, p)) => {
            if p >= parser.tokens.len() {
                Ok(e)
            } else {
                Err(CompilerError::unsupported_feature("unexpected token in expression".to_owned()))
            }
        },
    }
}

/// Parses an ink expression.
pub fn parse_expression(input: &str) -> (r: Result<Expression, CompilerError>)
    ensures
        agrees(r, spec_parse_expression(input@)),
{
    let chars = chars_of(input);
    parse_expression_chars(&chars)
}

} // verus!

verus! {

/// The pieces of `s` between top-level commas (outside parentheses and
/// string literals), each trimmed; scanning from index `i`, the current
/// piece starting at `start`.
pub open spec fn spec_commas_scan(s: Seq<char>, i: int, start: int, depth: int, in_string: bool) -> Seq<Seq<char>>
    decreases s.len() - i,
{
    if i < 0 || i >= s.len() {
        seq![spec_trim(s.subrange(start, s.len() as int))]
    } else if s[i] == '"' {
        spec_commas_scan(s, i + 1, start, depth, !in_string)
    } else if s[i] == '(' && !in_string {
        spec_commas_scan(s, i + 1, start, depth + 1, in_string)
    } else if s[i] == ')' && !in_string {
        spec_commas_scan(s, i + 1, start, depth - 1, in_string)
    } else if s[i] == ',' && !in_string && depth == 0 {
        seq![spec_trim(s.subrange(start, i))] + spec_commas_scan(s, i + 1, i + 1, depth, in_string)
    } else {
        spec_commas_scan(s, i + 1, start, depth, in_string)
    }
}

pub open spec fn spec_split_top_level_commas(s: Seq<char>) -> Seq<Seq<char>> {
    spec_commas_scan(s, 0, 0, 0, false)
}

pub open spec fn char_vecs_model(v: Seq<Vec<char>>) -> Seq<Seq<char>> {
    v.map_values(|x: Vec<char>| x@)
}

/// Splits characters on top-level commas; see `spec_split_top_level_commas`.
pub fn split_top_level_comma_chars(input: &[char]) -> (parts: Vec<Vec<char>>)
    ensures
        char_vecs_model(parts@) == spec_split_top_level_commas(input@),
{
    let mut parts: Vec<Vec<char>> = Vec::new();
    let mut start: usize = 0;
    let mut opens: usize = 0;
    let mut closes: usize = 0;
    let mut in_string = false;
    let mut i: usize = 0;
    let n = input.len();
    while i < n
        invariant
            n == input.len(),
            start <= i <= n,
            opens <= i,
            closes <= i,
            char_vecs_model(parts@) + spec_commas_scan(input@, i as int, start as int, opens - closes, in_string)
                == spec_split_top_level_commas(input@),
        decreases n - i,
    {
        let c = input[i];
        if c == '"' {
            in_string = !in_string;
        } else if c == '(' && !in_string {
            opens = opens + 1;
        } else if c == ')' && !in_string {
            closes = closes + 1;
        } else if c == ',' && !in_string && opens == closes {
            let piece = slice_of(input, start, i);
            let t = trim(&piece);
            let ghost before = char_vecs_model(parts@);
            parts.push(t);
            assert(char_vecs_model(parts@) =~= before.push(t@));
            assert(char_vecs_model(parts@) + spec_commas_scan(input@, i + 1, i + 1, opens - closes, in_string)
                =~= before + (seq![t@] + spec_commas_scan(input@, i + 1, i + 1, opens - closes, in_string)));
            start = i + 1;
        }
        i = i + 1;
    }
    let piece = slice_of(input, start, n);
    let t = trim(&piece);
    let ghost before = char_vecs_model(parts@);
    parts.push(t);
    assert(char_vecs_model(parts@) =~= before.push(t@));
    assert(char_vecs_model(parts@) =~= before + seq![t@]);
    parts
}

/// Splits text on top-level commas (outside parentheses and string
/// literals) into trimmed pieces.
pub fn split_top_level_commas(input: &str) -> (parts: Vec<String>)
    ensures
        strings_model(parts@) == spec_split_top_level_commas(input@),
{
    let chars = chars_of(input);
    let pieces = split_top_level_comma_chars(&chars);
    let mut out: Vec<String> = Vec::new();
    let mut i: usize = 0;
    while i < pieces.len()
        invariant
            i <= pieces.len(),
            strings_model(out@) == char_vecs_model(pieces@).take(i as int),
        decreases pieces.len() - i,
    {
        let ghost before = strings_model(out@);
        let piece = string_of(&pieces[i]);
        out.push(piece);
        assert(strings_model(out@) =~= before.push(piece@));
        assert(char_vecs_model(pieces@).take(i + 1) =~= char_vecs_model(pieces@).take(i as int).push(pieces@[i as int]@));
        assert(strings_model(out@) =~= char_vecs_model(pieces@).take(i + 1));
        i = i + 1;
    }
    assert(char_vecs_model(pieces@).take(pieces.len() as int) =~= char_vecs_model(pieces@));
    out
}

/// Parses `true` or `false`.
pub open spec fn spec_parse_bool(s: Seq<char>) -> Result<bool, ErrorKind> {
    if s == seq!['t', 'r', 'u', 'e'] {
        Ok(true)
    } else if s == seq!['f', 'a', 'l', 's', 'e'] {
        Ok(false)
    } else {
        Err(ErrorKind::UnsupportedFeature)
    }
}

pub fn parse_bool_chars(value: &[char]) -> (r: Result<bool, CompilerError>)
    ensures
        match (r, spec_parse_bool(value@)) {
            (Ok(b), Ok(sb)) => b == sb,
            (Err(e), Err(k)) => e.kind == k,
            _ => false,
        },
{
    if value.len() == 4 && value[0] == 't' && value[1] == 'r' && value[2] == 'u' && value[3] == 'e' {
        assert(value@ =~= seq!['t', 'r', 'u', 'e']);
        Ok(true)
    } else if value.len() == 5 && value[0] == 'f' && value[1] == 'a' && value[2] == 'l' && value[3]
        == 's' && value[4] == 'e' {
        assert(value@ =~= seq!['f', 'a', 'l', 's', 'e']);
        Ok(false)
    } else {
        proof {
            if value@ == seq!['t', 'r', 'u', 'e'] {
                assert(value@[0] == 't' && value@[3] == 'e');
            }
            if value@ == seq!['f', 'a', 'l', 's', 'e'] {
                assert(value@[0] == 'f' && value@[4] == 'e');
            }
        }
        Err(CompilerError::unsupported_feature("unsupported boolean literal".to_owned()))
    }
}

/// Parses a boolean literal, `true` or `false`.
pub fn parse_bool(value: &str) -> (r: Result<bool, CompilerError>)
    ensures
        match (r, spec_parse_bool(value@)) {
            (Ok(b), Ok(sb)) => b == sb,
            (Err(e), Err(k)) => e.kind == k,
            _ => false,
        },
{
    let chars = chars_of(value);
    parse_bool_chars(&chars)
}

/// The expressions written in `parts` (each trimmed; empty pieces are
/// skipped); the first failure is the result.
pub open spec fn spec_parse_expr_list(parts: Seq<Seq<char>>) -> Result<Seq<SpecExpression>, ErrorKind>
    decreases parts.len(),
{
    if parts.len() == 0 {
        Ok(Seq::empty())
    } else {
        let head = spec_trim(parts[0]);
        if head.len() == 0 {
            spec_parse_expr_list(parts.drop_first())
        } else {
            match spec_parse_expression(head) {
                Err(k) => Err(k),
                Ok(e) => match spec_parse_expr_list(parts.drop_first()) {
                    Err(k) => Err(k),
                    Ok(rest) => Ok(seq![e] + rest),
                },
            }
        }
    }
}

/// Parses every non-empty piece as an expression.
pub fn parse_expr_list(parts: &Vec<Vec<char>>) -> (r: Result<Vec<Expression>, CompilerError>)
    ensures
        agrees(r, spec_parse_expr_list(char_vecs_model(parts@))),
{
    let mut out: Vec<Expression> = Vec::new();
    let mut i: usize = 0;
    let ghost all = char_vecs_model(parts@);
    assert(all.skip(0) =~= all);
    while i < parts.len()
        invariant
            i <= parts.len(),
            all == char_vecs_model(parts@),
            spec_parse_expr_list(all) == (match spec_parse_expr_list(all.skip(i as int)) {
                Err(k) => Err(k),
                Ok(rest) => Ok(exprs_model(out@) + rest),
            }),
        decreases parts.len() - i,
    {
        assert(all.skip(i as int).drop_first() =~= all.skip(i + 1));
        assert(all.skip(i as int)[0] == parts@[i as int]@);
        let t = trim(&parts[i]);
        if t.len() > 0 {
            match parse_expression_chars(&t) {
                Err(e) => return Err(e),
                Ok(e) => {
                    let ghost before = out@;
                    out.push(e);
                    assert(out@.drop_last() =~= before);
                    proof {
                        match spec_parse_expr_list(all.skip(i + 1)) {
                            Err(_) => {},
                            Ok(rest) => {
                                assert(exprs_model(before) + (seq![expr_model(e)] + rest) =~= exprs_model(out@) + rest);
                            },
                        }
                    }
                },
            }
        }
        i = i + 1;
    }
    assert(all.skip(i as int) =~= Seq::<Seq<char>>::empty());
    assert(exprs_model(out@) + Seq::<SpecExpression>::empty() =~= exprs_model(out@));
    Ok(out)
}

/// `name(args)` text: the call's name and arguments, `None` when there is
/// no `(`.
pub open spec fn spec_parse_call_like(text: Seq<char>) -> Result<Option<(Seq<char>, Seq<SpecExpression>)>, ErrorKind> {
    let trimmed = spec_trim(text);
    match spec_find(trimmed, seq!['(']) {
        None => Ok(None),
        Some(open) => match spec_rfind(trimmed, ')') {
            None => Err(ErrorKind::InvalidSource),
            Some(close) => if close < open {
                Err(ErrorKind::InvalidSource)
            } else {
                match spec_path_identifier(spec_trim(trimmed.take(open))) {
                    None => Err(ErrorKind::InvalidSource),
                    Some(name) => match spec_parse_expr_list(
                        spec_split_top_level_commas(trimmed.subrange(open + 1, close)),
                    ) {
                        Err(k) => Err(k),
                        Ok(args) => Ok(Some((name, args))),
                    },
                }
            },
        },
    }
}

pub open spec fn agrees_call(r: Result<Option<(Vec<char>, Vec<Expression>)>, CompilerError>, s: Result<Option<(Seq<char>, Seq<SpecExpression>)>, ErrorKind>) -> bool {
    match (r, s) {
        (Ok(None), Ok(None)) => true,
        (Ok(Some((n, a))), Ok(Some((sn, sa)))) => n@ == sn && exprs_model(a@) == sa,
        (Err(e), Err(k)) => e.kind == k,
        _ => false,
    }
}

/// Parses `name(arg, ...)` text; see `spec_parse_call_like`.
pub fn call_like(text: &[char]) -> (r: Result<Option<(Vec<char>, Vec<Expression>)>, CompilerError>)
    ensures
        agrees_call(r, spec_parse_call_like(text@)),
{
    let trimmed = trim(text);
    let open = match find_char(&trimmed, '(') {
        None => return Ok(None),
        Some(o) => o,
    };
    let close = match rfind_char(&trimmed, ')') {
        None => return Err(CompilerError::invalid_source("missing ')' in divert target".to_owned())),
        Some(c) => c,
    };
    proof {
        lemma_find_char_props(trimmed@, '(', 0);
        assert(spec_find_from(trimmed@, seq!['('], 0) == Some(open as int));
        lemma_rfind_bounds(trimmed@, ')', trimmed@.len() as int);
    }
    if close < open {
        return Err(CompilerError::invalid_source("invalid call-like syntax".to_owned()));
    }
    let head = take(&trimmed, open);
    let head = trim(&head);
    let name = match path_identifier(&head) {
        None => return Err(CompilerError::invalid_source("invalid divert target".to_owned())),
        Some(n) => n,
    };
    let inner = slice_of(&trimmed, open + 1, close);
    let parts = split_top_level_comma_chars(&inner);
    match parse_expr_list(&parts) {
        Err(e) => Err(e),
        Ok(args) => Ok(Some((name, args))),
    }
}

/// Parses `name(arg, ...)`: `Ok(None)` when the text has no `(`.
pub fn parse_call_like(text: &str) -> (r: Result<Option<(String, Vec<Expression>)>, CompilerError>)
    ensures
        match (r, spec_parse_call_like(text@)) {
            (Ok(None), Ok(None)) => true,
            (Ok(Some((n, a))), Ok(Some((sn, sa)))) => n@ == sn && exprs_model(a@) == sa,
            (Err(e), Err(k)) => e.kind == k,
            _ => false,
        },
{
    let chars = chars_of(text);
    match call_like(&chars) {
        Err(e) => Err(e),
        Ok(None) => Ok(None),
        Ok(Some((n, a))) => Ok(Some((string_of(&n), a))),
    }
}

} // verus!

verus! {

/// The expression a single operand token stands for on its own: a literal,
/// a divert target, or a variable.
pub open spec fn spec_atom(t: SpecToken) -> Option<SpecExpression> {
    match t {
        SpecToken::Bool(b) => Some(SpecExpression::Bool(b)),
        SpecToken::Int(v) => Some(SpecExpression::Int(v)),
        SpecToken::Float(x) => Some(SpecExpression::Float(x)),
        SpecToken::Str(x) => Some(SpecExpression::Str(x)),
        SpecToken::DivertTarget(x) => Some(SpecExpression::DivertTarget(x)),
        SpecToken::Ident(n) => Some(SpecExpression::Variable(n)),
        _ => None,
    }
}

/// An operand followed by `||`, `&&` or the end is read alone at every
/// precedence tighter than `&&`.
proof fn lemma_atom_alone(t: Seq<SpecToken>, pos: int, level: nat)
    requires
        0 <= pos < t.len(),
        2 <= level <= 6,
        spec_atom(t[pos]) is Some,
        pos + 1 == t.len() || t[pos + 1] is OrOr || t[pos + 1] is AndAnd,
    ensures
        spec_parse_level(t, pos, level) == Ok::<(SpecExpression, int), ErrorKind>((spec_atom(t[pos])->0, pos + 1)),
    decreases 6 - level,
{
    let a = spec_atom(t[pos])->0;
    if level < 6 {
        lemma_atom_alone(t, pos, level + 1);
        if pos + 1 < t.len() {
            assert(spec_binop(level, t[pos + 1]) is None);
        }
        assert(spec_parse_rest(t, pos + 1, level, a) == Ok::<(SpecExpression, int), ErrorKind>((a, pos + 1)));
    } else {
        assert(!(t[pos] is Bang));
        assert(pos + 1 < t.len() ==> !(t[pos + 1] is LeftParen));
        assert(spec_parse_primary(t, pos) == Ok::<(SpecExpression, int), ErrorKind>((a, pos + 1)));
        assert(spec_parse_unary(t, pos) == Ok::<(SpecExpression, int), ErrorKind>((a, pos + 1)));
    }
}

/// `&&` binds tighter than `||`: the tokens `x || y && z`, for any three
/// operands, read as `x || (y && z)`.
pub proof fn law_and_binds_tighter_than_or(t: Seq<SpecToken>)
    requires
        t.len() == 5,
        spec_atom(t[0]) is Some,
        t[1] is OrOr,
        spec_atom(t[2]) is Some,
        t[3] is AndAnd,
        spec_atom(t[4]) is Some,
    ensures
        spec_parse_level(t, 0, 0) == Ok::<(SpecExpression, int), ErrorKind>((
            spec_binary(
                spec_atom(t[0])->0,
                BinaryOperator::Or,
                spec_binary(spec_atom(t[2])->0, BinaryOperator::And, spec_atom(t[4])->0),
            ),
            5,
        )),
{
    let x = spec_atom(t[0])->0;
    let y = spec_atom(t[2])->0;
    let z = spec_atom(t[4])->0;
    lemma_atom_alone(t, 0, 2);
    lemma_atom_alone(t, 2, 2);
    lemma_atom_alone(t, 4, 2);
    assert(spec_parse_rest(t, 5, 1, spec_binary(y, BinaryOperator::And, z))
        == Ok::<(SpecExpression, int), ErrorKind>((spec_binary(y, BinaryOperator::And, z), 5)));
    assert(spec_parse_rest(t, 3, 1, y) == Ok::<(SpecExpression, int), ErrorKind>((spec_binary(y, BinaryOperator::And, z), 5)));
    assert(spec_parse_level(t, 2, 1) == Ok::<(SpecExpression, int), ErrorKind>((spec_binary(y, BinaryOperator::And, z), 5)));
    assert(spec_parse_rest(t, 1, 1, x) == Ok::<(SpecExpression, int), ErrorKind>((x, 1)));
    assert(spec_parse_level(t, 0, 1) == Ok::<(SpecExpression, int), ErrorKind>((x, 1)));
    let whole = spec_binary(x, BinaryOperator::Or, spec_binary(y, BinaryOperator::And, z));
    assert(spec_parse_rest(t, 5, 0, whole) == Ok::<(SpecExpression, int), ErrorKind>((whole, 5)));
    assert(spec_parse_rest(t, 1, 0, x) == Ok::<(SpecExpression, int), ErrorKind>((whole, 5)));
}


/// A variable name as written in an expression: a letter or `_`, then
/// letters, digits, `_` or `.`; not `true`, `false` or `and`.
pub open spec fn spec_plain_name(w: Seq<char>) -> bool {
    &&& w.len() > 0
    &&& (spec_is_ascii_alpha(w[0]) || w[0] == '_')
    &&& forall|k: int| 0 <= k < w.len() ==> #[trigger] spec_is_ident_char(w[k])
    &&& w != seq!['t', 'r', 'u', 'e']
    &&& w != seq!['f', 'a', 'l', 's', 'e']
    &&& w != seq!['a', 'n', 'd']
}

proof fn lemma_ident_run(s: Seq<char>, i: int, n: int)
    requires
        0 <= i,
        0 <= n,
        i + n <= s.len(),
        forall|k: int| i <= k < i + n ==> #[trigger] spec_is_ident_char(s[k]),
        i + n == s.len() || !spec_is_ident_char(s[i + n]),
    ensures
        spec_ident_len_from(s, i) == n,
    decreases n,
{
    if n > 0 {
        lemma_ident_run(s, i + 1, n - 1);
    }
}

proof fn lemma_tokenize_name(s: Seq<char>, i: int, w: Seq<char>)
    requires
        0 <= i,
        i + w.len() <= s.len(),
        s.subrange(i, i + w.len()) == w,
        spec_plain_name(w),
        i + w.len() == s.len() || !spec_is_ident_char(s[i + w.len()]),
    ensures
        spec_tokenize_from(s, i) == cons_token(SpecToken::Ident(w), spec_tokenize_from(s, i + w.len())),
{
    assert(s[i] == w[0]);
    assert forall|k: int| i + 1 <= k < i + w.len() implies #[trigger] spec_is_ident_char(s[k]) by {
        assert(s[k] == w[k - i]);
    }
    lemma_ident_run(s, i + 1, w.len() - 1);
    assert(spec_operator_at(s, i) is None);
}

proof fn lemma_tokenize_space(s: Seq<char>, i: int)
    requires
        0 <= i < s.len(),
        s[i] == ' ',
    ensures
        spec_tokenize_from(s, i) == spec_tokenize_from(s, i + 1),
{
}

proof fn lemma_tokenize_pair(s: Seq<char>, i: int, c: char, t: SpecToken)
    requires
        0 <= i,
        i + 1 < s.len(),
        s[i] == c,
        s[i + 1] == c,
        (c == '|' && t is OrOr) || (c == '&' && t is AndAnd),
    ensures
        spec_tokenize_from(s, i) == cons_token(t, spec_tokenize_from(s, i + 2)),
{
}

/// `&&` binds tighter than `||` in written expressions: for any variable
/// names `a`, `b`, `c`, `a || b && c` parses as `a || (b && c)`.
pub proof fn law_and_binds_tighter_than_or_in_text(a: Seq<char>, b: Seq<char>, c: Seq<char>)
    requires
        spec_plain_name(a),
        spec_plain_name(b),
        spec_plain_name(c),
    ensures
        spec_parse_expression(a + seq![' ', '|', '|', ' '] + b + seq![' ', '&', '&', ' '] + c)
            == Ok::<SpecExpression, ErrorKind>(spec_binary(
                SpecExpression::Variable(a),
                BinaryOperator::Or,
                spec_binary(SpecExpression::Variable(b), BinaryOperator::And, SpecExpression::Variable(c)),
            )),
{
    reveal(spec_parse_expression);
    let s = a + seq![' ', '|', '|', ' '] + b + seq![' ', '&', '&', ' '] + c;
    let la = a.len() as int;
    let lb = b.len() as int;
    let lc = c.len() as int;
    let pb = la + 4;
    let pc = pb + lb + 4;
    assert(s.len() == pc + lc);
    assert(s.subrange(0, la) =~= a);
    assert(s.subrange(pb, pb + lb) =~= b);
    assert(s.subrange(pc, pc + lc) =~= c);
    assert(s[la] == ' ' && s[la + 1] == '|' && s[la + 2] == '|' && s[la + 3] == ' ');
    assert(s[pb + lb] == ' ' && s[pb + lb + 1] == '&' && s[pb + lb + 2] == '&' && s[pb + lb + 3] == ' ');
    assert(spec_tokenize_from(s, pc + lc) == Ok::<Seq<SpecToken>, ErrorKind>(Seq::empty()));
    lemma_tokenize_name(s, pc, c);
    lemma_tokenize_space(s, pb + lb + 3);
    lemma_tokenize_pair(s, pb + lb + 1, '&', SpecToken::AndAnd);
    lemma_tokenize_space(s, pb + lb);
    lemma_tokenize_name(s, pb, b);
    lemma_tokenize_space(s, la + 3);
    lemma_tokenize_pair(s, la + 1, '|', SpecToken::OrOr);
    lemma_tokenize_space(s, la);
    lemma_tokenize_name(s, 0, a);
    let t = seq![SpecToken::Ident(a), SpecToken::OrOr, SpecToken::Ident(b), SpecToken::AndAnd, SpecToken::Ident(c)];
    assert(spec_tokenize(s) == Ok::<Seq<SpecToken>, ErrorKind>(t)) by {
        assert(seq![SpecToken::Ident(c)] + Seq::<SpecToken>::empty() =~= seq![SpecToken::Ident(c)]);
        assert(seq![SpecToken::AndAnd] + seq![SpecToken::Ident(c)] =~= seq![SpecToken::AndAnd, SpecToken::Ident(c)]);
        assert(seq![SpecToken::Ident(b)] + seq![SpecToken::AndAnd, SpecToken::Ident(c)]
            =~= seq![SpecToken::Ident(b), SpecToken::AndAnd, SpecToken::Ident(c)]);
        assert(seq![SpecToken::OrOr] + seq![SpecToken::Ident(b), SpecToken::AndAnd, SpecToken::Ident(c)]
            =~= seq![SpecToken::OrOr, SpecToken::Ident(b), SpecToken::AndAnd, SpecToken::Ident(c)]);
        assert(seq![SpecToken::Ident(a)] + seq![SpecToken::OrOr, SpecToken::Ident(b), SpecToken::AndAnd, SpecToken::Ident(c)] =~= t);
    }
    law_and_binds_tighter_than_or(t);
}


/// The precedence and operator of each binary operator token, loosest
/// first: `||`; `&&`; `==` `!=`; `>` `>=` `<` `<=` `?` `!?` `^`; `+` `-`;
/// `*` `/` `%`.
pub open spec fn binary_precedence(t: SpecToken) -> Option<(nat, BinaryOperator)> {
    match t {
        SpecToken::OrOr => Some((0nat, BinaryOperator::Or)),
        SpecToken::AndAnd => Some((1nat, BinaryOperator::And)),
        SpecToken::EqualEqual => Some((2nat, BinaryOperator::Equal)),
        SpecToken::NotEqual => Some((2nat, BinaryOperator::NotEqual)),
        SpecToken::Greater => Some((3nat, BinaryOperator::Greater)),
        SpecToken::GreaterEqual => Some((3nat, BinaryOperator::GreaterEqual)),
        SpecToken::Less => Some((3nat, BinaryOperator::Less)),
        SpecToken::LessEqual => Some((3nat, BinaryOperator::LessEqual)),
        SpecToken::Has => Some((3nat, BinaryOperator::Has)),
        SpecToken::Hasnt => Some((3nat, BinaryOperator::Hasnt)),
        SpecToken::Caret => Some((3nat, BinaryOperator::Intersect)),
        SpecToken::Plus => Some((4nat, BinaryOperator::Add)),
        SpecToken::Minus => Some((4nat, BinaryOperator::Subtract)),
        SpecToken::Star => Some((5nat, BinaryOperator::Multiply)),
        SpecToken::Slash => Some((5nat, BinaryOperator::Divide)),
        SpecToken::Percent => Some((5nat, BinaryOperator::Modulo)),
        _ => None,
    }
}

proof fn lemma_binop_precedence(level: nat, t: SpecToken)
    requires
        level < 6,
    ensures
        spec_binop(level, t) == (match binary_precedence(t) {
            Some((p, op)) => if p == level { Some(op) } else { None },
            None => None,
        }),
{
}

/// An operand followed by the end or by an operator looser than `level` is
/// read alone at `level`.
proof fn lemma_atom_before(t: Seq<SpecToken>, pos: int, level: nat)
    requires
        0 <= pos < t.len(),
        level <= 6,
        spec_atom(t[pos]) is Some,
        pos + 1 == t.len() || (binary_precedence(t[pos + 1]) matches Some((p, _)) && p < level),
    ensures
        spec_parse_level(t, pos, level) == Ok::<(SpecExpression, int), ErrorKind>((spec_atom(t[pos])->0, pos + 1)),
    decreases 6 - level,
{
    let a = spec_atom(t[pos])->0;
    if level < 6 {
        lemma_atom_before(t, pos, level + 1);
        if pos + 1 < t.len() {
            lemma_binop_precedence(level, t[pos + 1]);
        }
        assert(spec_parse_rest(t, pos + 1, level, a) == Ok::<(SpecExpression, int), ErrorKind>((a, pos + 1)));
    } else {
        assert(!(t[pos] is Bang));
        assert(pos + 1 < t.len() ==> !(t[pos + 1] is LeftParen));
        assert(spec_parse_primary(t, pos) == Ok::<(SpecExpression, int), ErrorKind>((a, pos + 1)));
        assert(spec_parse_unary(t, pos) == Ok::<(SpecExpression, int), ErrorKind>((a, pos + 1)));
    }
}

/// What is read at `hi` is what is read at every looser level down to
/// `lo`, when no operator of those levels follows it.
proof fn lemma_level_down(t: Seq<SpecToken>, pos: int, lo: nat, hi: nat, e: SpecExpression, q: int)
    requires
        0 <= pos < q <= t.len(),
        lo <= hi <= 6,
        spec_parse_level(t, pos, hi) == Ok::<(SpecExpression, int), ErrorKind>((e, q)),
        q == t.len() || !(binary_precedence(t[q]) matches Some((p, _)) && lo <= p < hi),
    ensures
        spec_parse_level(t, pos, lo) == Ok::<(SpecExpression, int), ErrorKind>((e, q)),
    decreases hi - lo,
{
    if lo < hi {
        lemma_level_down(t, pos, lo + 1, hi, e, q);
        if q < t.len() {
            lemma_binop_precedence(lo, t[q]);
        }
        assert(spec_parse_rest(t, q, lo, e) == Ok::<(SpecExpression, int), ErrorKind>((e, q)));
    }
}

/// Binary operators follow their precedence table: for operands `x`, `y`,
/// `z` and operators `o1`, `o2`, the tokens `x o1 y o2 z` read as
/// `x o1 (y o2 z)` when `o2` binds tighter than `o1`, and as
/// `(x o1 y) o2 z` otherwise (operators of one level group to the left).
pub proof fn law_binary_precedence(t: Seq<SpecToken>)
    requires
        t.len() == 5,
        spec_atom(t[0]) is Some,
        binary_precedence(t[1]) is Some,
        spec_atom(t[2]) is Some,
        binary_precedence(t[3]) is Some,
        spec_atom(t[4]) is Some,
    ensures
        ({
            let (p1, op1) = binary_precedence(t[1])->0;
            let (p2, op2) = binary_precedence(t[3])->0;
            let x = spec_atom(t[0])->0;
            let y = spec_atom(t[2])->0;
            let z = spec_atom(t[4])->0;
            spec_parse_level(t, 0, 0) == Ok::<(SpecExpression, int), ErrorKind>((
                if p1 < p2 { spec_binary(x, op1, spec_binary(y, op2, z)) } else { spec_binary(spec_binary(x, op1, y), op2, z) },
                5,
            ))
        }),
{
    let x = spec_atom(t[0])->0;
    let y = spec_atom(t[2])->0;
    let z = spec_atom(t[4])->0;
    let (p1, op1) = binary_precedence(t[1])->0;
    let (p2, op2) = binary_precedence(t[3])->0;
    lemma_binop_precedence(p1, t[1]);
    lemma_binop_precedence(p2, t[3]);
    if p1 < p2 {
        let yz = spec_binary(y, op2, z);
        lemma_atom_before(t, 4, p2 + 1);
        lemma_atom_before(t, 2, p2 + 1);
        assert(spec_parse_rest(t, 5, p2, yz) == Ok::<(SpecExpression, int), ErrorKind>((yz, 5)));
        assert(spec_parse_rest(t, 3, p2, y) == Ok::<(SpecExpression, int), ErrorKind>((yz, 5)));
        assert(spec_parse_level(t, 2, p2) == Ok::<(SpecExpression, int), ErrorKind>((yz, 5)));
        lemma_level_down(t, 2, p1 + 1, p2, yz, 5);
        lemma_atom_before(t, 0, p1 + 1);
        let whole = spec_binary(x, op1, yz);
        assert(spec_parse_rest(t, 5, p1, whole) == Ok::<(SpecExpression, int), ErrorKind>((whole, 5)));
        assert(spec_parse_rest(t, 1, p1, x) == Ok::<(SpecExpression, int), ErrorKind>((whole, 5)));
        assert(spec_parse_level(t, 0, p1) == Ok::<(SpecExpression, int), ErrorKind>((whole, 5)));
        lemma_level_down(t, 0, 0, p1, whole, 5);
    } else {
        let xy = spec_binary(x, op1, y);
        let whole = spec_binary(xy, op2, z);
        lemma_atom_before(t, 0, p1 + 1);
        lemma_atom_before(t, 2, p1 + 1);
        if p2 == p1 {
            lemma_atom_before(t, 4, p1 + 1);
            assert(spec_parse_rest(t, 5, p1, whole) == Ok::<(SpecExpression, int), ErrorKind>((whole, 5)));
            assert(spec_parse_rest(t, 3, p1, xy) == Ok::<(SpecExpression, int), ErrorKind>((whole, 5)));
            assert(spec_parse_rest(t, 1, p1, x) == Ok::<(SpecExpression, int), ErrorKind>((whole, 5)));
            assert(spec_parse_level(t, 0, p1) == Ok::<(SpecExpression, int), ErrorKind>((whole, 5)));
            lemma_level_down(t, 0, 0, p1, whole, 5);
        } else {
            assert(spec_parse_rest(t, 3, p1, xy) == Ok::<(SpecExpression, int), ErrorKind>((xy, 3)));
            assert(spec_parse_rest(t, 1, p1, x) == Ok::<(SpecExpression, int), ErrorKind>((xy, 3)));
            assert(spec_parse_level(t, 0, p1) == Ok::<(SpecExpression, int), ErrorKind>((xy, 3)));
            lemma_level_down(t, 0, p2 + 1, p1, xy, 3);
            lemma_atom_before(t, 4, p2 + 1);
            assert(spec_parse_rest(t, 5, p2, whole) == Ok::<(SpecExpression, int), ErrorKind>((whole, 5)));
            assert(spec_parse_rest(t, 3, p2, xy) == Ok::<(SpecExpression, int), ErrorKind>((whole, 5)));
            assert(spec_parse_level(t, 0, p2) == Ok::<(SpecExpression, int), ErrorKind>((whole, 5)));
            lemma_level_down(t, 0, 0, p2, whole, 5);
        }
    }
}

} // verus!
