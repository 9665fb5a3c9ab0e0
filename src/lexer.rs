//! The scanner: source characters to tokens.
use vstd::prelude::*;
use crate::text::{chars_of, message};
use crate::token::{
    create_identifier, create_sign, create_single, sign_token, single_token,
    tokens_view, word_token, Token, TokenView,
};

verus! {

pub open spec fn digit(c: char) -> bool {
    '0' <= c <= '9'
}

pub open spec fn letter(c: char) -> bool {
    ('a' <= c <= 'z') || ('A' <= c <= 'Z')
}

/// A character that may follow the first letter of a word.
pub open spec fn word_char(c: char) -> bool {
    letter(c) || digit(c) || c == '_'
}

/// A character of the Unicode `White_Space` property.
pub open spec fn space(c: char) -> bool {
    ('\u{9}' <= c <= '\u{d}') || c == ' ' || c == '\u{85}' || c == '\u{a0}' || c == '\u{1680}'
        || ('\u{2000}' <= c <= '\u{200a}') || c == '\u{2028}' || c == '\u{2029}' || c == '\u{202f}'
        || c == '\u{205f}' || c == '\u{3000}'
}

/// The end of the run of digits that starts at `i`.
pub open spec fn digits_end(s: Seq<char>, i: int) -> int
    decreases s.len() - i,
{
    if 0 <= i < s.len() && digit(s[i]) {
        digits_end(s, i + 1)
    } else {
        i
    }
}

/// The end of the run of word characters that starts at `i`.
pub open spec fn word_end(s: Seq<char>, i: int) -> int
    decreases s.len() - i,
{
    if 0 <= i < s.len() && word_char(s[i]) {
        word_end(s, i + 1)
    } else {
        i
    }
}

/// The end of the run of characters other than a newline that starts at `i`.
pub open spec fn line_end(s: Seq<char>, i: int) -> int
    decreases s.len() - i,
{
    if 0 <= i < s.len() && s[i] != '\n' {
        line_end(s, i + 1)
    } else {
        i
    }
}

/// The end of the run of non-whitespace characters that starts at `i`.
pub open spec fn symbol_end(s: Seq<char>, i: int) -> int
    decreases s.len() - i,
{
    if 0 <= i < s.len() && !space(s[i]) {
        symbol_end(s, i + 1)
    } else {
        i
    }
}

pub open spec fn digit_value(c: char) -> int {
    c as int - '0' as int
}

/// The number written in decimal by the digits `w`.
pub open spec fn digits_value(w: Seq<char>) -> int
    decreases w.len(),
{
    if w.len() == 0 {
        0
    } else {
        digits_value(w.drop_last()) * 10 + digit_value(w.last())
    }
}

/// The number token that starts at `i`, with the position after it: the run of
/// digits must not be followed by a letter, and its value must fit in `i32`.
pub open spec fn number_at(s: Seq<char>, i: int) -> Option<(TokenView, int)> {
    let j = digits_end(s, i);
    if 0 <= i < s.len() && digit(s[i]) && !(j < s.len() && letter(s[j])) && digits_value(
        s.subrange(i, j),
    ) <= i32::MAX {
        Some((TokenView::Num(digits_value(s.subrange(i, j)) as i32), j))
    } else {
        None
    }
}

/// The comparison or assignment token that starts at `i`, with the position after it.
pub open spec fn sign_at(s: Seq<char>, i: int) -> Option<(TokenView, int)> {
    if 0 <= i < s.len() {
        let eq = i + 1 < s.len() && s[i + 1] == '=';
        match sign_token(s[i], eq) {
            Some(t) => Some((t, if eq { i + 2 } else { i + 1 })),
            None => None,
        }
    } else {
        None
    }
}

/// The message for a character that starts no token: it names the run of
/// non-whitespace characters from there.
pub open spec fn unidentified(s: Seq<char>, i: int) -> Seq<char> {
    "Unidentified symbol "@ + s.subrange(i, symbol_end(s, i + 1))
}

/// What the scanner does at position `i`.
pub enum Step {
    Skip(int),
    Emit(TokenView, int),
    Fail(Seq<char>),
}

/// What the scanner does at position `i`, in the order in which it tries each kind of token.
pub open spec fn lex_step(s: Seq<char>, i: int) -> Step {
    if let Some((t, j)) = number_at(s, i) {
        Step::Emit(t, j)
    } else if space(s[i]) {
        Step::Skip(i + 1)
    } else if s[i] == '#' {
        Step::Skip(line_end(s, i + 1))
    } else if let Some(t) = single_token(s[i]) {
        Step::Emit(t, i + 1)
    } else if let Some((t, j)) = sign_at(s, i) {
        Step::Emit(t, j)
    } else if letter(s[i]) {
        let j = word_end(s, i + 1);
        Step::Emit(word_token(s.subrange(i, j)), j)
    } else {
        Step::Fail(unidentified(s, i))
    }
}

/// The tokens of `s` from position `i` on, or the message of the first error.
pub open spec fn lex_from(s: Seq<char>, i: int) -> Result<Seq<TokenView>, Seq<char>>
    decreases s.len() - i,
    via lex_from_decreases
{
    if i < 0 || i >= s.len() {
        Ok(seq![])
    } else {
        match lex_step(s, i) {
            Step::Skip(j) => lex_from(s, j),
            Step::Emit(t, j) => prepend(seq![t], lex_from(s, j)),
            Step::Fail(m) => Err(m),
        }
    }
}

/// The tokens of the whole text `s`, or the message of the first error.
pub open spec fn scan(s: Seq<char>) -> Result<Seq<TokenView>, Seq<char>> {
    lex_from(s, 0)
}

/// `pre` in front of the tokens of a scan; an error stays.
pub open spec fn prepend(pre: Seq<TokenView>, r: Result<Seq<TokenView>, Seq<char>>) -> Result<
    Seq<TokenView>,
    Seq<char>,
> {
    match r {
        Ok(ts) => Ok(pre + ts),
        Err(m) => Err(m),
    }
}

pub proof fn lemma_digits_end_bound(s: Seq<char>, i: int)
    requires
        0 <= i <= s.len(),
    ensures
        i <= digits_end(s, i) <= s.len(),
    decreases s.len() - i,
{
    if i < s.len() && digit(s[i]) {
        lemma_digits_end_bound(s, i + 1);
    }
}

pub proof fn lemma_word_end_bound(s: Seq<char>, i: int)
    requires
        0 <= i <= s.len(),
    ensures
        i <= word_end(s, i) <= s.len(),
    decreases s.len() - i,
{
    if i < s.len() && word_char(s[i]) {
        lemma_word_end_bound(s, i + 1);
    }
}

pub proof fn lemma_line_end_bound(s: Seq<char>, i: int)
    requires
        0 <= i <= s.len(),
    ensures
        i <= line_end(s, i) <= s.len(),
    decreases s.len() - i,
{
    if i < s.len() && s[i] != '\n' {
        lemma_line_end_bound(s, i + 1);
    }
}

pub proof fn lemma_symbol_end_bound(s: Seq<char>, i: int)
    requires
        0 <= i <= s.len(),
    ensures
        i <= symbol_end(s, i) <= s.len(),
    decreases s.len() - i,
{
    if i < s.len() && !space(s[i]) {
        lemma_symbol_end_bound(s, i + 1);
    }
}

/// Each step of the scanner moves forward and stays within the text.
pub proof fn lemma_step_advances(s: Seq<char>, i: int)
    requires
        0 <= i < s.len(),
    ensures
        match lex_step(s, i) {
            Step::Skip(j) => i < j <= s.len(),
            Step::Emit(_, j) => i < j <= s.len(),
            Step::Fail(_) => true,
        },
{
    lemma_digits_end_bound(s, i);
    if digit(s[i]) {
        lemma_digits_end_bound(s, i + 1);
    }
    lemma_word_end_bound(s, i + 1);
    lemma_line_end_bound(s, i + 1);
}

#[via_fn]
proof fn lex_from_decreases(s: Seq<char>, i: int) {
    if 0 <= i < s.len() {
        lemma_step_advances(s, i);
    }
}

pub proof fn lemma_digits_value_nonneg(w: Seq<char>)
    requires
        forall|k: int| 0 <= k < w.len() ==> digit(#[trigger] w[k]),
    ensures
        digits_value(w) >= 0,
    decreases w.len(),
{
    if w.len() > 0 {
        lemma_digits_value_nonneg(w.drop_last());
    }
}

/// Whether `c` is an ASCII digit.
pub fn is_digit(c: char) -> (r: bool)
    ensures
        r == digit(c),
{
    '0' <= c && c <= '9'
}

/// Whether `c` is an ASCII letter.
pub fn is_letter(c: char) -> (r: bool)
    ensures
        r == letter(c),
{
    ('a' <= c && c <= 'z') || ('A' <= c && c <= 'Z')
}

/// Whether `c` may follow the first letter of a word.
pub fn is_word_char(c: char) -> (r: bool)
    ensures
        r == word_char(c),
{
    is_letter(c) || is_digit(c) || c == '_'
}

/// Whether `c` is whitespace, as `char::is_whitespace` defines it.
pub fn is_space(c: char) -> (r: bool)
    ensures
        r == space(c),
{
    ('\u{9}' <= c && c <= '\u{d}') || c == ' ' || c == '\u{85}' || c == '\u{a0}' || c == '\u{1680}'
        || ('\u{2000}' <= c && c <= '\u{200a}') || c == '\u{2028}' || c == '\u{2029}' || c
        == '\u{202f}' || c == '\u{205f}' || c == '\u{3000}'
}

/// Whitespace at `i` is skipped: the position after it, or `i` where there is none.
pub fn lex_space(code: &Vec<char>, i: usize) -> (r: (bool, usize))
    requires
        i <= code.len(),
    ensures
        r.0 == (i < code.len() && space(code@[i as int])),
        r.1 == if r.0 { i + 1 } else { i as int },
{
    if i < code.len() && is_space(code[i]) {
        (true, i + 1)
    } else {
        (false, i)
    }
}

/// A comment runs from `#` up to the next newline, or to the end of the text.
pub fn lex_comment(code: &Vec<char>, i: usize) -> (r: (bool, usize))
    requires
        i <= code.len(),
    ensures
        r.0 == (i < code.len() && code@[i as int] == '#'),
        r.1 == if r.0 { line_end(code@, i + 1) } else { i as int },
{
    if !(i < code.len() && code[i] == '#') {
        return (false, i);
    }
    let mut k = i + 1;
    while k < code.len() && code[k] != '\n'
        invariant
            i < k <= code.len(),
            line_end(code@, k as int) == line_end(code@, i + 1),
        decreases code.len() - k,
    {
        k = k + 1;
    }
    (true, k)
}

/// The end of the run of digits that starts at `i`.
fn digits_run(code: &Vec<char>, i: usize) -> (r: usize)
    requires
        i <= code.len(),
    ensures
        r == digits_end(code@, i as int),
        i <= r <= code.len(),
        forall|m: int| i <= m < r ==> digit(#[trigger] code@[m]),
{
    let mut k = i;
    while k < code.len() && is_digit(code[k])
        invariant
            i <= k <= code.len(),
            digits_end(code@, k as int) == digits_end(code@, i as int),
            forall|m: int| i <= m < k ==> digit(#[trigger] code@[m]),
        decreases code.len() - k,
    {
        k = k + 1;
    }
    k
}

/// A number token: a run of digits that no letter follows, whose value fits in `i32`.
pub fn lex_number(code: &Vec<char>, i: usize) -> (r: Option<(Token, usize)>)
    requires
        i <= code.len(),
    ensures
        match r {
            Some((t, j)) => number_at(code@, i as int) == Some((t@, j as int)),
            None => number_at(code@, i as int) is None,
        },
{
    if !(i < code.len() && is_digit(code[i])) {
        return None;
    }
    let j = digits_run(code, i);
    if j < code.len() && is_letter(code[j]) {
        return None;
    }
    let ghost s = code@;
    let mut v: i64 = 0;
    let mut big = false;
    let mut k = i;
    while k < j
        invariant
            i <= k <= j <= code.len(),
            j == digits_end(s, i as int),
            s == code@,
            forall|m: int| i <= m < j ==> digit(#[trigger] s[m]),
            !big ==> v == digits_value(s.subrange(i as int, k as int)) && 0 <= v <= i32::MAX,
            big ==> digits_value(s.subrange(i as int, k as int)) > i32::MAX,
        decreases j - k,
    {
        proof {
            assert(s.subrange(i as int, k + 1).drop_last() == s.subrange(i as int, k as int));
            lemma_digits_value_nonneg(s.subrange(i as int, k as int));
        }
        if !big {
            let d = (code[k] as u32 - '0' as u32) as i64;
            v = v * 10 + d;
            if v > i32::MAX as i64 {
                big = true;
            }
        }
        k = k + 1;
    }
    if big {
        None
    } else {
        Some((Token::Num(v as i32), j))
    }
}

/// A word: a letter, then letters, digits and underscores; a reserved word or an identifier.
pub fn lex_identifier(code: &Vec<char>, i: usize) -> (r: Option<(Token, usize)>)
    requires
        i <= code.len(),
    ensures
        match r {
            Some((t, j)) => i < code.len() && letter(code@[i as int]) && j == word_end(
                code@,
                i + 1,
            ) && t@ == word_token(code@.subrange(i as int, j as int)),
            None => !(i < code.len() && letter(code@[i as int])),
        },
{
    if !(i < code.len() && is_letter(code[i])) {
        return None;
    }
    let mut word: Vec<char> = Vec::new();
    word.push(code[i]);
    let mut k = i + 1;
    while k < code.len() && is_word_char(code[k])
        invariant
            i < k <= code.len(),
            word_end(code@, k as int) == word_end(code@, i + 1),
            word@ == code@.subrange(i as int, k as int),
        decreases code.len() - k,
    {
        word.push(code[k]);
        assert(code@.subrange(i as int, k + 1) == code@.subrange(i as int, k as int).push(
            code@[k as int],
        ));
        k = k + 1;
    }
    Some((create_identifier(&word), k))
}

/// A comparison or assignment sign: `<`, `>`, `=` or `!`, taking a following `=`;
/// `!` alone is no token, and neither is the end of the text.
pub fn lex_equality(code: &Vec<char>, i: usize) -> (r: Option<(Token, usize)>)
    ensures
        match r {
            Some((t, j)) => sign_at(code@, i as int) == Some((t@, j as int)),
            None => sign_at(code@, i as int) is None,
        },
{
    if i >= code.len() {
        return None;
    }
    let eq = i + 1 < code.len() && code[i + 1] == '=';
    match create_sign(code[i], eq) {
        Some(t) => Some((t, if eq { i + 2 } else { i + 1 })),
        None => None,
    }
}

/// The run of non-whitespace characters that starts at `i`: the symbol an error names.
pub fn unrecognized_symbol(code: &Vec<char>, i: usize) -> (r: Vec<char>)
    requires
        i < code.len(),
    ensures
        r@ == code@.subrange(i as int, symbol_end(code@, i + 1)),
{
    let mut r: Vec<char> = Vec::new();
    r.push(code[i]);
    let mut k = i + 1;
    while k < code.len() && !is_space(code[k])
        invariant
            i < k <= code.len(),
            symbol_end(code@, k as int) == symbol_end(code@, i + 1),
            r@ == code@.subrange(i as int, k as int),
        decreases code.len() - k,
    {
        r.push(code[k]);
        assert(code@.subrange(i as int, k + 1) == code@.subrange(i as int, k as int).push(
            code@[k as int],
        ));
        k = k + 1;
    }
    r
}

/// Whether a scanner result agrees with its mathematical value.
pub open spec fn lex_result_matches(
    r: Result<Vec<Token>, String>,
    m: Result<Seq<TokenView>, Seq<char>>,
) -> bool {
    match (r, m) {
        (Ok(ts), Ok(vs)) => tokens_view(ts@) == vs,
        (Err(e), Err(msg)) => e@ == msg,
        _ => false,
    }
}

/// Scans a text given as characters.
pub fn lex_chars(code: &Vec<char>) -> (r: Result<Vec<Token>, String>)
    ensures
        lex_result_matches(r, scan(code@)),
{
    let ghost s = code@;
    let mut tokens: Vec<Token> = Vec::new();
    let mut i: usize = 0;
    while i < code.len()
        invariant
            s == code@,
            i <= code.len(),
            scan(s) == prepend(tokens_view(tokens@), lex_from(s, i as int)),
        decreases code.len() - i,
    {
        let ghost before = tokens_view(tokens@);
        proof {
            lemma_step_advances(s, i as int);
        }
        let (t, j) = match lex_number(code, i) {
            Some(p) => p,
            None => {
                let (ok, j) = lex_space(code, i);
                if ok {
                    i = j;
                    continue ;
                }
                let (ok, j) = lex_comment(code, i);
                if ok {
                    i = j;
                    continue ;
                }
                match create_single(code[i]) {
                    Some(t) => (t, i + 1),
                    None => match lex_equality(code, i) {
                        Some(p) => p,
                        None => match lex_identifier(code, i) {
                            Some(p) => p,
                            None => {
                                let symbol = unrecognized_symbol(code, i);
                                return Err(message("Unidentified symbol ", &symbol));
                            },
                        },
                    },
                }
            },
        };
        tokens.push(t);
        proof {
            assert(tokens_view(tokens@) == before.push(t@));
            assert(before + (seq![t@] + tokens_view(tokens@).drop_last().take(0))
                == before.push(t@));
            match lex_from(s, j as int) {
                Ok(ts) => {
                    assert(before + (seq![t@] + ts) == before.push(t@) + ts);
                },
                Err(_) => {},
            }
        }
        i = j;
    }
    proof {
        assert(tokens_view(tokens@) + seq![] == tokens_view(tokens@));
    }
    Ok(tokens)
}

/// Scans source text into tokens, or gives the message of the first error.
pub fn lex(code: &str) -> (r: Result<Vec<Token>, String>)
    ensures
        lex_result_matches(r, scan(code@)),
{
    let chars = chars_of(code);
    lex_chars(&chars)
}

} // verus!
