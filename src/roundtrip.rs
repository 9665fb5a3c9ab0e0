//! Scanning the text of a token sequence, with one space after each token, gives
//! the tokens back.
use vstd::prelude::*;
use crate::lexer::{
    digit, digit_value, digits_end, digits_value, lemma_digits_end_bound,
    lemma_digits_value_nonneg, lemma_step_advances, lemma_symbol_end_bound, lemma_word_end_bound,
    letter, lex_from, lex_step, line_end, number_at, prepend, scan, sign_at, space, symbol_end,
    unidentified, word_char, word_end, Step,
};
use crate::render::{decimal, digit_char, push_signed, push_str, signed_decimal};
use crate::text::{chars_of_string, string_of};
use crate::token::{keyword, single_token, tokens_view, word_token, Token, TokenView};

verus! {

/// The spelling of a token.
pub open spec fn token_text(t: TokenView) -> Seq<char> {
    match t {
        TokenView::Plus => "+"@,
        TokenView::Subtract => "-"@,
        TokenView::Multiply => "*"@,
        TokenView::Divide => "/"@,
        TokenView::Modulus => "%"@,
        TokenView::Assign => "="@,
        TokenView::Less => "<"@,
        TokenView::LessEqual => "<="@,
        TokenView::Greater => ">"@,
        TokenView::GreaterEqual => ">="@,
        TokenView::Equality => "=="@,
        TokenView::NotEqual => "!="@,
        TokenView::LeftParen => "("@,
        TokenView::RightParen => ")"@,
        TokenView::LeftCurly => "{"@,
        TokenView::RightCurly => "}"@,
        TokenView::LeftBracket => "["@,
        TokenView::RightBracket => "]"@,
        TokenView::Comma => ","@,
        TokenView::Semicolon => ";"@,
        TokenView::Num(n) => signed_decimal(n as int),
        TokenView::Ident(w) => w,
        TokenView::If => "if"@,
        TokenView::While => "while"@,
        TokenView::Read => "read"@,
        TokenView::Func => "func"@,
        TokenView::Return => "return"@,
        TokenView::Int => "int"@,
        TokenView::Print => "print"@,
        TokenView::Else => "else"@,
        TokenView::Break => "break"@,
        TokenView::Continue => "continue"@,
    }
}

/// The tokens written out, each followed by one space.
pub open spec fn spaced_text(ts: Seq<TokenView>) -> Seq<char>
    decreases ts.len(),
{
    if ts.len() == 0 {
        Seq::empty()
    } else {
        token_text(ts[0]) + " "@ + spaced_text(ts.drop_first())
    }
}

/// A token that the scanner can produce: a number is not negative, and an
/// identifier is a word that is not reserved.
pub open spec fn token_ok(t: TokenView) -> bool {
    match t {
        TokenView::Num(n) => n >= 0,
        TokenView::Ident(w) => w.len() > 0 && letter(w[0]) && (forall|i: int|
            1 <= i < w.len() ==> word_char(#[trigger] w[i])) && keyword(w) is None,
        _ => true,
    }
}

proof fn lemma_digits_end_shift(a: Seq<char>, b: Seq<char>, j: int)
    requires
        0 <= j <= b.len(),
    ensures
        digits_end(a + b, a.len() + j) == a.len() + digits_end(b, j),
    decreases b.len() - j,
{
    let s = a + b;
    if j < b.len() {
        assert(s[a.len() + j] == b[j]);
        if digit(b[j]) {
            lemma_digits_end_shift(a, b, j + 1);
        }
    }
}

proof fn lemma_word_end_shift(a: Seq<char>, b: Seq<char>, j: int)
    requires
        0 <= j <= b.len(),
    ensures
        word_end(a + b, a.len() + j) == a.len() + word_end(b, j),
    decreases b.len() - j,
{
    let s = a + b;
    if j < b.len() {
        assert(s[a.len() + j] == b[j]);
        if word_char(b[j]) {
            lemma_word_end_shift(a, b, j + 1);
        }
    }
}

proof fn lemma_line_end_shift(a: Seq<char>, b: Seq<char>, j: int)
    requires
        0 <= j <= b.len(),
    ensures
        line_end(a + b, a.len() + j) == a.len() + line_end(b, j),
    decreases b.len() - j,
{
    let s = a + b;
    if j < b.len() {
        assert(s[a.len() + j] == b[j]);
        if b[j] != '\n' {
            lemma_line_end_shift(a, b, j + 1);
        }
    }
}

proof fn lemma_symbol_end_shift(a: Seq<char>, b: Seq<char>, j: int)
    requires
        0 <= j <= b.len(),
    ensures
        symbol_end(a + b, a.len() + j) == a.len() + symbol_end(b, j),
    decreases b.len() - j,
{
    let s = a + b;
    if j < b.len() {
        assert(s[a.len() + j] == b[j]);
        if !space(b[j]) {
            lemma_symbol_end_shift(a, b, j + 1);
        }
    }
}





/// One step of the scanner looks only forward.
proof fn lemma_step_shift(a: Seq<char>, b: Seq<char>, j: int)
    requires
        0 <= j < b.len(),
    ensures
        lex_step(a + b, a.len() + j) == match lex_step(b, j) {
            Step::Skip(k) => Step::Skip(a.len() + k),
            Step::Emit(t, k) => Step::Emit(t, a.len() + k),
            Step::Fail(m) => Step::Fail(m),
        },
{
    let s = a + b;
    let i = a.len() + j;
    assert(s[i] == b[j]);
    if j + 1 < b.len() {
        assert(s[i + 1] == b[j + 1]);
    }
    lemma_digits_end_shift(a, b, j);
    lemma_digits_end_bound(b, j);
    let de = digits_end(b, j);
    if de < b.len() {
        assert(s[a.len() + de] == b[de]);
    }
    assert(s.subrange(i, a.len() + de) == b.subrange(j, de));
    lemma_word_end_shift(a, b, j + 1);
    lemma_word_end_bound(b, j + 1);
    assert(s.subrange(i, a.len() + word_end(b, j + 1)) == b.subrange(j, word_end(b, j + 1)));
    lemma_line_end_shift(a, b, j + 1);
    lemma_symbol_end_shift(a, b, j + 1);
    lemma_symbol_end_bound(b, j + 1);
    assert(s.subrange(i, a.len() + symbol_end(b, j + 1)) == b.subrange(j, symbol_end(b, j + 1)));
    assert(unidentified(s, i) == unidentified(b, j));
    assert(number_at(s, i) == match number_at(b, j) {
        Some((t, k)) => Some((t, a.len() + k)),
        None => None,
    });
    assert(sign_at(s, i) == match sign_at(b, j) {
        Some((t, k)) => Some((t, a.len() + k)),
        None => None,
    });
}

/// The scanner looks only forward: scanning `a + b` from inside `b` is scanning `b`.
proof fn lemma_lex_shift(a: Seq<char>, b: Seq<char>, j: int)
    requires
        0 <= j <= b.len(),
    ensures
        lex_from(a + b, a.len() + j) == lex_from(b, j),
    decreases b.len() - j,
{
    if j < b.len() {
        lemma_step_shift(a, b, j);
        lemma_step_advances(b, j);
        match lex_step(b, j) {
            Step::Skip(k) => {
                lemma_lex_shift(a, b, k);
            },
            Step::Emit(t, k) => {
                lemma_lex_shift(a, b, k);
            },
            Step::Fail(_) => {},
        }
    }
}


proof fn lemma_word_end_exact(s: Seq<char>, i: int, j: int)
    requires
        0 <= i <= j <= s.len(),
        forall|k: int| i <= k < j ==> word_char(#[trigger] s[k]),
        j == s.len() || !word_char(s[j]),
    ensures
        word_end(s, i) == j,
    decreases j - i,
{
    if i < j {
        lemma_word_end_exact(s, i + 1, j);
    }
}

proof fn lemma_digits_end_exact(s: Seq<char>, i: int, j: int)
    requires
        0 <= i <= j <= s.len(),
        forall|k: int| i <= k < j ==> digit(#[trigger] s[k]),
        j == s.len() || !digit(s[j]),
    ensures
        digits_end(s, i) == j,
    decreases j - i,
{
    if i < j {
        lemma_digits_end_exact(s, i + 1, j);
    }
}

proof fn lemma_word_end_chars(s: Seq<char>, i: int)
    requires
        0 <= i <= s.len(),
    ensures
        forall|k: int| i <= k < word_end(s, i) ==> word_char(#[trigger] s[k]),
    decreases s.len() - i,
{
    if i < s.len() && word_char(s[i]) {
        lemma_word_end_chars(s, i + 1);
    }
}

proof fn lemma_digits_end_chars(s: Seq<char>, i: int)
    requires
        0 <= i <= s.len(),
    ensures
        forall|k: int| i <= k < digits_end(s, i) ==> digit(#[trigger] s[k]),
    decreases s.len() - i,
{
    if i < s.len() && digit(s[i]) {
        lemma_digits_end_chars(s, i + 1);
    }
}


/// The decimal digits of `n` are digits, and read back as `n`.
proof fn lemma_decimal(n: nat)
    ensures
        decimal(n).len() > 0,
        forall|k: int| 0 <= k < decimal(n).len() ==> digit(#[trigger] decimal(n)[k]),
        digits_value(decimal(n)) == n,
    decreases n,
{
    let k = (n % 10) as int;
    assert(digit(digit_char(k)) && digit_value(digit_char(k)) == k);
    assert((n / 10) * 10 + n % 10 == n) by (nonlinear_arith);
    if n < 10 {
        assert(decimal(n).drop_last() =~= Seq::<char>::empty());
        assert(digits_value(Seq::<char>::empty()) == 0);
        assert(n % 10 == n);
    } else {
        lemma_decimal(n / 10);
        let d = decimal(n);
        assert(d.drop_last() == decimal(n / 10));
        assert(d.last() == digit_char((n % 10) as int));
        assert forall|k: int| 0 <= k < d.len() implies digit(#[trigger] d[k]) by {
            if k < d.len() - 1 {
                assert(d[k] == decimal(n / 10)[k]);
            }
        }
    }
}

/// A word followed by a space scans as its token.
proof fn lemma_word_step(w: Seq<char>, r: Seq<char>, t: TokenView)
    requires
        w.len() > 0,
        letter(w[0]),
        forall|i: int| 1 <= i < w.len() ==> word_char(#[trigger] w[i]),
        word_token(w) == t,
    ensures
        lex_step(w + " "@ + r, 0) == Step::Emit(t, w.len() as int),
{
    reveal_strlit(" ");
    let s = w + " "@ + r;
    assert(s[0] == w[0]);
    assert(s[w.len() as int] == ' ');
    assert forall|k: int| 1 <= k < w.len() implies word_char(#[trigger] s[k]) by {
        assert(s[k] == w[k]);
    }
    lemma_word_end_exact(s, 1, w.len() as int);
    assert(s.subrange(0, w.len() as int) == w);
    assert(!digit(s[0]));
    assert(number_at(s, 0) is None);
}

proof fn lemma_keyword_step(t: TokenView, r: Seq<char>)
    requires
        keyword(token_text(t)) == Some(t),
    ensures
        lex_step(token_text(t) + " "@ + r, 0) == Step::Emit(t, token_text(t).len() as int),
{
    let w = token_text(t);
    reveal_strlit("func");
    reveal_strlit("return");
    reveal_strlit("int");
    reveal_strlit("print");
    reveal_strlit("else");
    reveal_strlit("break");
    reveal_strlit("continue");
    reveal_strlit("read");
    reveal_strlit("while");
    reveal_strlit("if");
    assert(w.len() > 0 && letter(w[0]) && forall|i: int| 1 <= i < w.len() ==> word_char(#[trigger] w[i]));
    lemma_word_step(w, r, t);
}

/// A sign or a punctuation mark followed by a space scans as its token.
proof fn lemma_mark_step(t: TokenView, r: Seq<char>)
    requires
        keyword(token_text(t)) is None,
        !(t is Num),
        !(t is Ident),
    ensures
        lex_step(token_text(t) + " "@ + r, 0) == Step::Emit(t, token_text(t).len() as int),
{
    reveal_strlit(" ");
    reveal_strlit("+");
    reveal_strlit("-");
    reveal_strlit("*");
    reveal_strlit("/");
    reveal_strlit("%");
    reveal_strlit("=");
    reveal_strlit("<");
    reveal_strlit("<=");
    reveal_strlit(">");
    reveal_strlit(">=");
    reveal_strlit("==");
    reveal_strlit("!=");
    reveal_strlit("(");
    reveal_strlit(")");
    reveal_strlit("{");
    reveal_strlit("}");
    reveal_strlit("[");
    reveal_strlit("]");
    reveal_strlit(",");
    reveal_strlit(";");
    reveal_strlit("func");
    reveal_strlit("return");
    reveal_strlit("int");
    reveal_strlit("print");
    reveal_strlit("else");
    reveal_strlit("break");
    reveal_strlit("continue");
    reveal_strlit("read");
    reveal_strlit("while");
    reveal_strlit("if");
    let w = token_text(t);
    let s = w + " "@ + r;
    assert(s[0] == w[0]);
    if w.len() == 2 {
        assert(s[1] == w[1]);
        assert(s[2] == ' ');
    } else {
        assert(s[1] == ' ');
    }
    assert(number_at(s, 0) is None);
}

/// A number followed by a space scans as its token.
proof fn lemma_number_step(n: i32, r: Seq<char>)
    requires
        n >= 0,
    ensures
        lex_step(token_text(TokenView::Num(n)) + " "@ + r, 0) == Step::Emit(
            TokenView::Num(n),
            token_text(TokenView::Num(n)).len() as int,
        ),
{
    reveal_strlit(" ");
    let w = decimal(n as nat);
    lemma_decimal(n as nat);
    let s = w + " "@ + r;
    assert forall|k: int| 0 <= k < w.len() implies digit(#[trigger] s[k]) by {
        assert(s[k] == w[k]);
    }
    assert(s[w.len() as int] == ' ');
    lemma_digits_end_exact(s, 0, w.len() as int);
    assert(s.subrange(0, w.len() as int) == w);
    assert(s[0] == w[0]);
}

proof fn lemma_token_step(t: TokenView, r: Seq<char>)
    requires
        token_ok(t),
    ensures
        token_text(t).len() > 0,
        lex_step(token_text(t) + " "@ + r, 0) == Step::Emit(t, token_text(t).len() as int),
{
    reveal_strlit("func");
    reveal_strlit("return");
    reveal_strlit("int");
    reveal_strlit("print");
    reveal_strlit("else");
    reveal_strlit("break");
    reveal_strlit("continue");
    reveal_strlit("read");
    reveal_strlit("while");
    reveal_strlit("if");
    reveal_strlit("+");
    reveal_strlit("-");
    reveal_strlit("*");
    reveal_strlit("/");
    reveal_strlit("%");
    reveal_strlit("=");
    reveal_strlit("<");
    reveal_strlit("<=");
    reveal_strlit(">");
    reveal_strlit(">=");
    reveal_strlit("==");
    reveal_strlit("!=");
    reveal_strlit("(");
    reveal_strlit(")");
    reveal_strlit("{");
    reveal_strlit("}");
    reveal_strlit("[");
    reveal_strlit("]");
    reveal_strlit(",");
    reveal_strlit(";");
    match t {
        TokenView::Num(n) => {
            lemma_decimal(n as nat);
            lemma_number_step(n, r);
        },
        TokenView::Ident(w) => {
            lemma_word_step(w, r, t);
        },
        TokenView::If | TokenView::While | TokenView::Read | TokenView::Func | TokenView::Return
        | TokenView::Int | TokenView::Print | TokenView::Else | TokenView::Break
        | TokenView::Continue => {
            lemma_keyword_step(t, r);
        },
        _ => {
            lemma_mark_step(t, r);
        },
    }
}

/// The text of well-formed tokens scans back to them.
pub proof fn lemma_detokenize_scans(ts: Seq<TokenView>)
    requires
        forall|i: int| 0 <= i < ts.len() ==> token_ok(#[trigger] ts[i]),
    ensures
        scan(spaced_text(ts)) == Ok::<Seq<TokenView>, Seq<char>>(ts),
    decreases ts.len(),
{
    reveal_strlit(" ");
    if ts.len() > 0 {
        let t = ts[0];
        let x = token_text(t);
        let tail = ts.drop_first();
        let rest = spaced_text(tail);
        let a = x + " "@;
        let s = a + rest;
        assert(spaced_text(ts) == s);
        assert(x + " "@ + rest == s);
        lemma_token_step(t, rest);
        assert(s[x.len() as int] == ' ');
        assert(number_at(s, x.len() as int) is None);
        assert(lex_step(s, x.len() as int) == Step::Skip(x.len() + 1int));
        assert forall|i: int| 0 <= i < tail.len() implies token_ok(#[trigger] tail[i]) by {
            assert(tail[i] == ts[i + 1]);
        }
        lemma_detokenize_scans(tail);
        lemma_lex_shift(a, rest, 0);
        assert(lex_from(s, a.len() as int) == lex_from(rest, 0));
        assert(lex_from(s, x.len() as int) == lex_from(s, x.len() + 1int));
        assert(lex_from(s, 0) == prepend(seq![t], lex_from(s, x.len() as int)));
        assert(seq![t] + tail == ts);
        assert(scan(spaced_text(ts)) == lex_from(s, 0));
        assert(scan(rest) == lex_from(rest, 0));
    } else {
        assert(spaced_text(ts).len() == 0);
        assert(ts =~= seq![]);
    }
}

/// Every token that the scanner produces is well formed.
proof fn lemma_scanned_tokens_ok(s: Seq<char>, i: int)
    requires
        0 <= i,
    ensures
        lex_from(s, i) matches Ok(ts) ==> forall|k: int| 0 <= k < ts.len() ==> token_ok(#[trigger] ts[k]),
    decreases s.len() - i,
{
    if i < s.len() {
        lemma_step_advances(s, i);
        match lex_step(s, i) {
            Step::Skip(j) => {
                lemma_scanned_tokens_ok(s, j);
            },
            Step::Emit(t, j) => {
                lemma_scanned_tokens_ok(s, j);
                if number_at(s, i) is Some {
                    lemma_digits_end_chars(s, i);
                    lemma_digits_end_bound(s, i);
                    let de = digits_end(s, i);
                    let w = s.subrange(i, de);
                    assert forall|k: int| 0 <= k < w.len() implies digit(#[trigger] w[k]) by {
                        assert(w[k] == s[i + k]);
                    }
                    lemma_digits_value_nonneg(w);
                    assert(token_ok(t));
                } else if letter(s[i]) && single_token(s[i]) is None && sign_at(s, i) is None && !space(s[i]) && s[i] != '#' {
                    lemma_word_end_chars(s, i + 1);
                    lemma_word_end_bound(s, i + 1);
                    let w = s.subrange(i, word_end(s, i + 1));
                    assert(w[0] == s[i]);
                    assert forall|k: int| 1 <= k < w.len() implies word_char(#[trigger] w[k]) by {
                        assert(w[k] == s[i + k]);
                    }
                    assert(token_ok(t));
                }
                match lex_from(s, j) {
                    Ok(rest) => {
                        let ts = seq![t] + rest;
                        assert forall|k: int| 0 <= k < ts.len() implies token_ok(#[trigger] ts[k]) by {
                            if k > 0 {
                                assert(ts[k] == rest[k - 1]);
                            }
                        }
                    },
                    Err(_) => {},
                }
            },
            Step::Fail(_) => {},
        }
    }
}

/// Writing out the tokens of a text, one space after each, and scanning that gives
/// the same tokens.
pub proof fn lemma_scan_round_trip(s: Seq<char>)
    requires
        scan(s) is Ok,
    ensures
        scan(spaced_text(scan(s)->Ok_0)) == scan(s),
{
    lemma_scanned_tokens_ok(s, 0);
    lemma_detokenize_scans(scan(s)->Ok_0);
}

fn push_token(out: &mut Vec<char>, t: &Token)
    ensures
        final(out)@ == old(out)@ + token_text(t@),
{
    match t {
        Token::Plus => push_str(out, "+"),
        Token::Subtract => push_str(out, "-"),
        Token::Multiply => push_str(out, "*"),
        Token::Divide => push_str(out, "/"),
        Token::Modulus => push_str(out, "%"),
        Token::Assign => push_str(out, "="),
        Token::Less => push_str(out, "<"),
        Token::LessEqual => push_str(out, "<="),
        Token::Greater => push_str(out, ">"),
        Token::GreaterEqual => push_str(out, ">="),
        Token::Equality => push_str(out, "=="),
        Token::NotEqual => push_str(out, "!="),
        Token::LeftParen => push_str(out, "("),
        Token::RightParen => push_str(out, ")"),
        Token::LeftCurly => push_str(out, "{"),
        Token::RightCurly => push_str(out, "}"),
        Token::LeftBracket => push_str(out, "["),
        Token::RightBracket => push_str(out, "]"),
        Token::Comma => push_str(out, ","),
        Token::Semicolon => push_str(out, ";"),
        Token::Num(n) => push_signed(out, *n as i64),
        Token::Ident(w) => {
            let mut v = chars_of_string(w);
            out.append(&mut v);
        },
        Token::If => push_str(out, "if"),
        Token::While => push_str(out, "while"),
        Token::Read => push_str(out, "read"),
        Token::Func => push_str(out, "func"),
        Token::Return => push_str(out, "return"),
        Token::Int => push_str(out, "int"),
        Token::Print => push_str(out, "print"),
        Token::Else => push_str(out, "else"),
        Token::Break => push_str(out, "break"),
        Token::Continue => push_str(out, "continue"),
    }
}

/// Writes out tokens, one space after each.
pub fn detokenize(tokens: &Vec<Token>) -> (r: String)
    ensures
        r@ == spaced_text(tokens_view(tokens@)),
{
    let mut out: Vec<char> = Vec::new();
    let mut i: usize = tokens.len();
    let ghost tv = tokens_view(tokens@);
    while i > 0
        invariant
            i <= tokens@.len(),
            tv == tokens_view(tokens@),
            out@ == spaced_text(tv.subrange(i as int, tv.len() as int)),
        decreases i,
    {
        i = i - 1;
        let mut piece: Vec<char> = Vec::new();
        push_token(&mut piece, &tokens[i]);
        piece.push(' ');
        let ghost before = out@;
        piece.append(&mut out);
        out = piece;
        proof {
            let sub = tv.subrange(i as int, tv.len() as int);
            assert(sub[0] == tokens@[i as int]@);
            assert(sub.drop_first() == tv.subrange(i + 1, tv.len() as int));
            reveal_strlit(" ");
            assert(out@ =~= token_text(sub[0]) + " "@ + before);
        }
    }
    assert(tv.subrange(0, tv.len() as int) == tv);
    string_of(&out)
}

} // verus!
