//! The parser: it checks declarations and kinds while it emits intermediate code.
use vstd::prelude::*;
use crate::ir::{
    atom_ok, extends, function_ok, good, instr_ok, kinds_of, label_of, labels_apart,
    labels_within, lemma_code_ok_nf, lemma_good_concat, lemma_good_mono,
    lemma_good_push, lemma_good_push_label, lemma_no_label, lemma_no_label_concat,
    lemma_no_label_push, place_ok, program_ok, scalar_ok, ArithOp, Atom, CmpOp,
    Function, Instr, LabelKind, Operand, Program, Var, VarName,
};
use crate::grammar::{
    add_op, args_v, at, binary, block_rest_v, block_v, bool_v, cmp_of, compiled, decl_v, empty_context,
    expr_rest_v, expr_v, first_fn, first_var, function_v, if_v, mul_op, mult_rest_v, mult_v,
    cond_head_v, params_v, program_v, stmt_v, term_v, var_v, while_v, with_labels, with_loops, with_temp,
    with_var, main_ok, ContextV, ExprV, Msg, StmtV,
};
use crate::ir::{
    code_view, functions_view, lemma_code_view_concat, lemma_code_view_push, vars_view, InstrV,
};
use crate::lexer::{lex, scan};
use crate::token::{tokens_view, TokenView};
use crate::text::{chars_eq, chars_of, chars_of_string, message, same_chars};
use crate::token::Token;

verus! {

/// What the parser knows at a point of the text: the functions defined so far, the
/// variables of the current function, the loops that enclose the point, and the
/// counters of temporaries and labels.
pub struct Context {
    pub functions: Vec<Vec<char>>,
    pub vars: Vec<Var>,
    pub loops: Vec<u64>,
    pub temps: u64,
    pub labels: u64,
}

/// The code that computes an expression, and the atom that then holds its value.
pub struct Expression {
    pub code: Vec<Instr>,
    pub name: Atom,
}

/// The code that computes the location written by an assignment, and that location.
pub struct Target {
    pub code: Vec<Instr>,
    pub place: Operand,
}

/// The declared name of a slot; temporaries have none.
pub open spec fn user_name(v: Var) -> Option<Seq<char>> {
    match v.name {
        VarName::User(s) => Some(s@),
        VarName::Temp(_) => None,
    }
}

/// Each declared name stands in one table only: no two variables share a name, no
/// variable is named like a function, and no two functions share a name.
pub open spec fn names_ok(vars: Seq<Var>, fns: Seq<Vec<char>>) -> bool {
    &&& forall|i: int, j: int|
        0 <= i < vars.len() && 0 <= j < vars.len() && i != j && (#[trigger] user_name(vars[i]))
            is Some ==> user_name(vars[i]) != #[trigger] user_name(vars[j])
    &&& forall|i: int, f: int|
        0 <= i < vars.len() && 0 <= f < fns.len() ==> #[trigger] user_name(vars[i]) != Some(
            #[trigger] fns[f]@,
        )
    &&& forall|f: int, g: int|
        0 <= f < fns.len() && 0 <= g < fns.len() && f != g ==> (#[trigger] fns[f])@ != (
        #[trigger] fns[g])@
}

/// The names of a table, as sequences of characters.
pub open spec fn names_view(t: Seq<Vec<char>>) -> Seq<Seq<char>> {
    t.map_values(|v: Vec<char>| v@)
}

impl View for Context {
    type V = ContextV;

    open spec fn view(&self) -> ContextV {
        ContextV {
            functions: names_view(self.functions@),
            vars: vars_view(self.vars@),
            loops: self.loops@,
            temps: self.temps,
            labels: self.labels,
        }
    }
}

impl Context {
    /// Each name stands in one table only.
    pub open spec fn wf(&self) -> bool {
        names_ok(self.vars@, self.functions@)
    }

    /// For each variable slot, whether it holds an array.
    pub open spec fn kinds(&self) -> Seq<bool> {
        kinds_of(self.vars@)
    }

    /// The number of functions defined so far.
    pub open spec fn nf(&self) -> nat {
        self.functions@.len()
    }

    /// How a context may change inside one function: the functions stay, variables
    /// are only added, and the counters only grow.
    pub open spec fn evolves_to(&self, new: &Context) -> bool {
        &&& new.functions@ == self.functions@
        &&& self.vars@.len() <= new.vars@.len()
        &&& forall|i: int| 0 <= i < self.vars@.len() ==> new.vars@[i] == self.vars@[i]
        &&& self.temps <= new.temps
        &&& self.labels <= new.labels
    }

    /// A context for a fresh compilation.
    pub fn new() -> (r: Context)
        ensures
            r.functions@.len() == 0,
            r.vars@.len() == 0,
            r.loops@.len() == 0,
            r.temps == 0,
            r.labels == 0,
            r.wf(),
            r@ == empty_context(),
    {
        let cx = Context { functions: Vec::new(), vars: Vec::new(), loops: Vec::new(), temps: 0, labels: 0 };
        assert(names_view(cx.functions@) =~= Seq::<Seq<char>>::empty());
        assert(vars_view(cx.vars@) =~= Seq::<crate::ir::VarV>::empty());
        cx
    }
}

pub proof fn lemma_evolves_kinds(a: &Context, b: &Context)
    requires
        a.evolves_to(b),
    ensures
        extends(a.kinds(), b.kinds()),
{
    assert forall|i: int| 0 <= i < a.kinds().len() implies b.kinds()[i] == a.kinds()[i] by {
        assert(b.vars@[i] == a.vars@[i]);
    }
}

pub proof fn lemma_evolves_trans(a: &Context, b: &Context, c: &Context)
    requires
        a.evolves_to(b),
        b.evolves_to(c),
    ensures
        a.evolves_to(c),
{
}

pub proof fn lemma_atom_mono(a: Atom, k1: Seq<bool>, k2: Seq<bool>)
    requires
        atom_ok(a, k1),
        extends(k1, k2),
    ensures
        atom_ok(a, k2),
{

}

pub proof fn lemma_place_mono(o: Operand, k1: Seq<bool>, k2: Seq<bool>)
    requires
        place_ok(o, k1),
        extends(k1, k2),
    ensures
        place_ok(o, k2),
{
    match o {
        Operand::Atom(a) => lemma_atom_mono(a, k1, k2),
        Operand::Elem(b, i) => {
            lemma_atom_mono(i, k1, k2);
        },
    }
}

/// The token at `index`, if there is one.
pub fn peek(tokens: &Vec<Token>, index: usize) -> (r: Option<&Token>)
    ensures
        (r is Some) == (index < tokens@.len()),
        r == if index < tokens@.len() {
            Some(&tokens@[index as int])
        } else {
            None
        },
{
    if index < tokens.len() {
        Some(&tokens[index])
    } else {
        None
    }
}

/// The token at `index`, or an error at the end of the tokens.
pub fn peek_result(tokens: &Vec<Token>, index: usize) -> (r: Result<&Token, String>)
    ensures
        index < tokens@.len() ==> r == Ok::<&Token, String>(&tokens@[index as int]),
        index >= tokens@.len() ==> r is Err,
{
    if index < tokens.len() {
        Ok(&tokens[index])
    } else {
        Err("expected a token, but got nothing".to_owned())
    }
}

/// The token at `*index`, moving past it; nothing at the end of the tokens.
pub fn next<'a>(tokens: &'a Vec<Token>, index: &mut usize) -> (r: Option<&'a Token>)
    ensures
        *old(index) < tokens@.len() ==> r == Some(&tokens@[*old(index) as int]) && *final(index)
            == *old(index) + 1,
        *old(index) >= tokens@.len() ==> r is None && *final(index) == *old(index),
{
    if *index < tokens.len() {
        let ret = *index;
        *index = *index + 1;
        Some(&tokens[ret])
    } else {
        None
    }
}

/// The token at `*index`, moving past it; an error at the end of the tokens.
pub fn next_result<'a>(tokens: &'a Vec<Token>, index: &mut usize) -> (r: Result<&'a Token, String>)
    ensures
        *old(index) < tokens@.len() ==> r == Ok::<&Token, String>(&tokens@[*old(index) as int])
            && *final(index) == *old(index) + 1,
        *old(index) >= tokens@.len() ==> r is Err && *final(index) == *old(index),
{
    if *index < tokens.len() {
        let ret = *index;
        *index = *index + 1;
        Ok(&tokens[ret])
    } else {
        Err("expected a token, but got nothing".to_owned())
    }
}

fn fail<T>(m: &str) -> (r: Result<T, String>)
    ensures
        r matches Err(e) && e@ == m@,
{
    Err(m.to_owned())
}

/// Whether `symbol` is in the table.
pub fn find_symbol(symbol_table: &Vec<Vec<char>>, symbol: &Vec<char>) -> (r: bool)
    ensures
        r == exists|i: int| 0 <= i < symbol_table@.len() && (#[trigger] symbol_table@[i])@ == symbol@,
        r == first_fn(names_view(symbol_table@), symbol@, 0) is Some,
{
    match position(symbol_table, symbol) {
        Some(_) => true,
        None => false,
    }
}

/// Where `symbol` stands in the table.
pub fn position(table: &Vec<Vec<char>>, symbol: &Vec<char>) -> (r: Option<usize>)
    ensures
        match r {
            Some(i) => i < table@.len() && table@[i as int]@ == symbol@,
            None => forall|i: int| 0 <= i < table@.len() ==> (#[trigger] table@[i])@ != symbol@,
        },
        r == first_fn(names_view(table@), symbol@, 0),
{
    let mut i: usize = 0;
    while i < table.len()
        invariant
            i <= table@.len(),
            forall|j: int| 0 <= j < i ==> (#[trigger] table@[j])@ != symbol@,
            first_fn(names_view(table@), symbol@, 0) == first_fn(names_view(table@), symbol@, i as int),
        decreases table.len() - i,
    {
        if chars_eq(&table[i], symbol) {
            return Some(i);
        }
        i = i + 1;
    }
    None
}

/// The slot of the variable declared as `name`.
pub fn lookup_var(vars: &Vec<Var>, name: &Vec<char>) -> (r: Option<usize>)
    ensures
        match r {
            Some(i) => i < vars@.len() && user_name(vars@[i as int]) == Some(name@),
            None => forall|i: int| 0 <= i < vars@.len() ==> #[trigger] user_name(vars@[i]) != Some(
                name@,
            ),
        },
        r == first_var(vars_view(vars@), name@, 0),
{
    let mut i: usize = 0;
    while i < vars.len()
        invariant
            i <= vars@.len(),
            forall|j: int| 0 <= j < i ==> #[trigger] user_name(vars@[j]) != Some(name@),
            first_var(vars_view(vars@), name@, 0) == first_var(vars_view(vars@), name@, i as int),
        decreases vars.len() - i,
    {
        match &vars[i].name {
            VarName::User(s) => {
                if chars_eq(s, name) {
                    return Some(i);
                }
            },
            VarName::Temp(_) => {},
        }
        i = i + 1;
    }
    None
}

/// A fresh scalar slot for a temporary, named by the next number of the counter.
pub fn create_temp(cx: &mut Context) -> (r: Result<usize, String>)
    requires
        old(cx).wf(),
    ensures
        final(cx).wf(),
        old(cx).evolves_to(final(cx)),
        final(cx).loops@ == old(cx).loops@,
        final(cx).labels == old(cx).labels,
        match r {
            Ok(t) => t == old(cx).vars@.len() && final(cx).kinds() == old(cx).kinds().push(false)
                && final(cx).temps == old(cx).temps + 1 && (*final(cx))@ == with_temp((*old(cx))@),
            Err(_) => old(cx).temps == u64::MAX && final(cx).vars@ == old(cx).vars@,
        },
{
    if cx.temps == u64::MAX {
        return fail("too many temporaries");
    }
    let t = cx.vars.len();
    let n = cx.temps;
    cx.vars.push(Var { name: VarName::Temp(n), is_array: false });
    cx.temps = n + 1;
    proof {
        let v = cx.vars@;
        assert(user_name(v[t as int]) is None);
        assert forall|i: int| 0 <= i < t implies v[i] == old(cx).vars@[i] by {}
        assert(cx.kinds() == old(cx).kinds().push(false));
        assert(vars_view(cx.vars@) =~= vars_view(old(cx).vars@).push(cx.vars@[t as int]@));
    }
    Ok(t)
}

/// A fresh number for the labels of one loop or conditional.
pub fn create_label(cx: &mut Context) -> (r: Result<u64, String>)
    ensures
        final(cx).functions == old(cx).functions,
        final(cx).vars == old(cx).vars,
        final(cx).loops == old(cx).loops,
        final(cx).temps == old(cx).temps,
        match r {
            Ok(n) => n == old(cx).labels && final(cx).labels == old(cx).labels + 1 && (*final(cx))@
                == with_labels((*old(cx))@, (n + 1) as u64),
            Err(_) => final(cx).labels == old(cx).labels && old(cx).labels == u64::MAX,
        },
{
    if cx.labels == u64::MAX {
        return fail("too many labels");
    }
    let n = cx.labels;
    cx.labels = n + 1;
    Ok(n)
}

/// The view of the token at `k`.
pub proof fn lemma_token_at(tokens: Seq<Token>, k: int)
    requires
        0 <= k < tokens.len(),
    ensures
        tokens_view(tokens).len() == tokens.len(),
        tokens_view(tokens)[k] == tokens[k]@,
{
}

/// The views of all tokens.
pub proof fn lemma_tokens_view(tokens: Seq<Token>)
    ensures
        tokens_view(tokens).len() == tokens.len(),
        forall|m: int| 0 <= m < tokens.len() ==> #[trigger] tokens_view(tokens)[m] == tokens[m]@,
{
}

/// What an expression parser promises: it moves forward, adds at most variables and
/// temporaries, and on success gives code that defines no label and uses each
/// variable as what it was declared.
pub open spec fn expr_post(
    len: nat,
    i0: usize,
    i1: usize,
    c0: &Context,
    c1: &Context,
    r: Result<Expression, String>,
) -> bool {
    &&& i0 <= i1 <= len
    &&& c1.wf()
    &&& c0.evolves_to(c1)
    &&& c1.loops@ == c0.loops@
    &&& c1.labels == c0.labels
    &&& r matches Ok(e) ==> i0 < i1 && good(e.code@, c1.kinds(), c1.nf(), c1.labels as int, c1.labels as int)
        && atom_ok(e.name, c1.kinds())
}

/// An error message meets what the language says of it: where the language fixes
/// a message, it is that one.
pub open spec fn reports(m: Msg, e: String) -> bool {
    match m {
        Some(t) => e@ == t,
        None => true,
    }
}

/// An expression parser's result agrees with the language: the same code, atom,
/// position and context, or an error exactly where the language has none.
pub open spec fn expr_agrees(s: ExprV, r: Result<Expression, String>, j: usize, c: ContextV) -> bool {
    match (s, r) {
        (Ok((code, a, k, c1)), Ok(e)) => code_view(e.code@) == code && e.name == a && j == k && c
            == c1,
        (Err(m), Err(e)) => reports(m, e),
        _ => false,
    }
}

/// The code of a binary operation: left operand, a declared temporary, right operand,
/// then the instruction.
fn combine(left: Expression, t: usize, right: Expression, last: Instr) -> (r: Vec<Instr>)
    ensures
        r@ == left.code@ + seq![Instr::Int(t)] + right.code@ + seq![last],
        code_view(r@) == binary(code_view(left.code@), t, code_view(right.code@), last@),
{
    let mut code = left.code;
    code.push(Instr::Int(t));
    let mut rest = right.code;
    code.append(&mut rest);
    code.push(last);
    assert(code_view(code@) =~= binary(code_view(left.code@), t, code_view(right.code@), last@));
    code
}

proof fn lemma_combine_good(
    l: Seq<Instr>,
    t: usize,
    r: Seq<Instr>,
    last: Instr,
    k: Seq<bool>,
    nf: nat,
    n: int,
)
    requires
        good(l, k, nf, n, n),
        good(r, k, nf, n, n),
        scalar_ok(t, k),
        instr_ok(last, k, nf),
        label_of(last) is None,
    ensures
        good(l + seq![Instr::Int(t)] + r + seq![last], k, nf, n, n),
{
    lemma_good_push(l, Instr::Int(t), k, nf, n, n);
    assert(l + seq![Instr::Int(t)] == l.push(Instr::Int(t)));
    lemma_good_concat(l.push(Instr::Int(t)), r, k, nf, n, n, n);
    lemma_good_push(l.push(Instr::Int(t)) + r, last, k, nf, n, n);
    assert(l + seq![Instr::Int(t)] + r + seq![last] == (l.push(Instr::Int(t)) + r).push(last));
}

/// `expression := mult_expr (('+' | '-') mult_expr)*`
pub fn parse_expression(tokens: &Vec<Token>, index: &mut usize, cx: &mut Context) -> (r: Result<
    Expression,
    String,
>)
    requires
        *old(index) <= tokens@.len(),
        old(cx).wf(),
    ensures
        expr_post(tokens@.len(), *old(index), *final(index), old(cx), final(cx), r),
        expr_agrees(expr_v(tokens_view(tokens@), *old(index) as int, (*old(cx))@), r, *final(index), (*final(cx))@),
    decreases tokens@.len() - *old(index), 3nat,
{
    let mut e = parse_mult_expr(tokens, index, cx)?;
    let ghost c0 = *old(cx);
    let ghost i0 = *old(index);
    loop
        invariant
            i0 == *old(index),
            c0 == *old(cx),
            i0 < *index <= tokens@.len(),
            expr_v(tokens_view(tokens@), i0 as int, c0@) == expr_rest_v(tokens_view(tokens@), *index as int, (*cx)@, code_view(e.code@), e.name),
            cx.wf(),
            c0.evolves_to(cx),
            cx.loops@ == c0.loops@,
            cx.labels == c0.labels,
            good(e.code@, cx.kinds(), cx.nf(), cx.labels as int, cx.labels as int),
            atom_ok(e.name, cx.kinds()),
        ensures
            expr_v(tokens_view(tokens@), i0 as int, c0@) == Ok::<_, Msg>((code_view(e.code@), e.name, *index as int, (*cx)@)),
            i0 < *index <= tokens@.len(),
            cx.wf(),
            c0.evolves_to(cx),
            cx.loops@ == c0.loops@,
            cx.labels == c0.labels,
            good(e.code@, cx.kinds(), cx.nf(), cx.labels as int, cx.labels as int),
            atom_ok(e.name, cx.kinds()),
        decreases tokens@.len() - *index,
    {
        if *index >= tokens.len() {
            break ;
        }
        let op = match &tokens[*index] {
            Token::Plus => ArithOp::Add,
            Token::Subtract => ArithOp::Sub,
            _ => break ,
        };
        *index = *index + 1;
        let ghost c1 = *cx;
        let m = parse_mult_expr(tokens, index, cx)?;
        let ghost c2 = *cx;
        let t = create_temp(cx)?;
        proof {
            lemma_evolves_trans(&c1, &c2, cx);
            lemma_evolves_trans(&c0, &c1, cx);
            lemma_evolves_kinds(&c1, cx);
            lemma_evolves_kinds(&c2, cx);
            lemma_good_mono(e.code@, c1.kinds(), cx.kinds(), cx.nf(), cx.labels as int, cx.labels as int, cx.labels as int, cx.labels as int);
            lemma_good_mono(m.code@, c2.kinds(), cx.kinds(), cx.nf(), cx.labels as int, cx.labels as int, cx.labels as int, cx.labels as int);
            lemma_atom_mono(e.name, c1.kinds(), cx.kinds());
            lemma_atom_mono(m.name, c2.kinds(), cx.kinds());
        }
        let last = Instr::Arith(op, t, e.name, m.name);
        proof {
            lemma_combine_good(e.code@, t, m.code@, last, cx.kinds(), cx.nf(), cx.labels as int);
        }
        let code = combine(e, t, m, last);
        e = Expression { code, name: Atom::Var(t) };
    }
    Ok(e)
}

/// `mult_expr := term (('*' | '/' | '%') term)*`
pub fn parse_mult_expr(tokens: &Vec<Token>, index: &mut usize, cx: &mut Context) -> (r: Result<
    Expression,
    String,
>)
    requires
        *old(index) <= tokens@.len(),
        old(cx).wf(),
    ensures
        expr_post(tokens@.len(), *old(index), *final(index), old(cx), final(cx), r),
        expr_agrees(mult_v(tokens_view(tokens@), *old(index) as int, (*old(cx))@), r, *final(index), (*final(cx))@),
    decreases tokens@.len() - *old(index), 2nat,
{
    let mut e = parse_term(tokens, index, cx)?;
    let ghost c0 = *old(cx);
    let ghost i0 = *old(index);
    loop
        invariant
            i0 == *old(index),
            c0 == *old(cx),
            i0 < *index <= tokens@.len(),
            mult_v(tokens_view(tokens@), i0 as int, c0@) == mult_rest_v(tokens_view(tokens@), *index as int, (*cx)@, code_view(e.code@), e.name),
            cx.wf(),
            c0.evolves_to(cx),
            cx.loops@ == c0.loops@,
            cx.labels == c0.labels,
            good(e.code@, cx.kinds(), cx.nf(), cx.labels as int, cx.labels as int),
            atom_ok(e.name, cx.kinds()),
        ensures
            mult_v(tokens_view(tokens@), i0 as int, c0@) == Ok::<_, Msg>((code_view(e.code@), e.name, *index as int, (*cx)@)),
            i0 < *index <= tokens@.len(),
            cx.wf(),
            c0.evolves_to(cx),
            cx.loops@ == c0.loops@,
            cx.labels == c0.labels,
            good(e.code@, cx.kinds(), cx.nf(), cx.labels as int, cx.labels as int),
            atom_ok(e.name, cx.kinds()),
        decreases tokens@.len() - *index,
    {
        if *index >= tokens.len() {
            break ;
        }
        let op = match &tokens[*index] {
            Token::Multiply => ArithOp::Mult,
            Token::Divide => ArithOp::Div,
            Token::Modulus => ArithOp::Mod,
            _ => break ,
        };
        *index = *index + 1;
        let ghost c1 = *cx;
        let m = parse_term(tokens, index, cx)?;
        let ghost c2 = *cx;
        let t = create_temp(cx)?;
        proof {
            lemma_evolves_trans(&c1, &c2, cx);
            lemma_evolves_trans(&c0, &c1, cx);
            lemma_evolves_kinds(&c1, cx);
            lemma_evolves_kinds(&c2, cx);
            lemma_good_mono(e.code@, c1.kinds(), cx.kinds(), cx.nf(), cx.labels as int, cx.labels as int, cx.labels as int, cx.labels as int);
            lemma_good_mono(m.code@, c2.kinds(), cx.kinds(), cx.nf(), cx.labels as int, cx.labels as int, cx.labels as int, cx.labels as int);
            lemma_atom_mono(e.name, c1.kinds(), cx.kinds());
            lemma_atom_mono(m.name, c2.kinds(), cx.kinds());
        }
        let last = Instr::Arith(op, t, e.name, m.name);
        proof {
            lemma_combine_good(e.code@, t, m.code@, last, cx.kinds(), cx.nf(), cx.labels as int);
        }
        let code = combine(e, t, m, last);
        e = Expression { code, name: Atom::Var(t) };
    }
    Ok(e)
}

/// `bool_expr := expression cmp_op expression`; the result is 1 where the
/// comparison holds and 0 where it does not.
pub fn parse_bool_expr(tokens: &Vec<Token>, index: &mut usize, cx: &mut Context) -> (r: Result<
    Expression,
    String,
>)
    requires
        *old(index) <= tokens@.len(),
        old(cx).wf(),
    ensures
        expr_post(tokens@.len(), *old(index), *final(index), old(cx), final(cx), r),
        expr_agrees(bool_v(tokens_view(tokens@), *old(index) as int, (*old(cx))@), r, *final(index), (*final(cx))@),
        r matches Ok(e) ==> exists|l: Seq<Instr>, m: Seq<Instr>, op: CmpOp, t: usize, a: Atom, b: Atom|
            e.name == Atom::Var(t) && e.code@ == l + seq![Instr::Int(t)] + m + seq![
                Instr::Cmp(op, t, a, b),
            ],
    decreases tokens@.len() - *old(index), 4nat,
{
    let ghost c0 = *old(cx);
    let e = parse_expression(tokens, index, cx)?;
    if *index >= tokens.len() {
        return fail("expected comparison symbol in bool expression");
    }
    let op = match &tokens[*index] {
        Token::Less => CmpOp::Lt,
        Token::Greater => CmpOp::Gt,
        Token::LessEqual => CmpOp::Le,
        Token::GreaterEqual => CmpOp::Ge,
        Token::Equality => CmpOp::Eq,
        Token::NotEqual => CmpOp::Neq,
        _ => {
            return fail("expected comparison symbol in bool expression");
        },
    };
    *index = *index + 1;
    let ghost c1 = *cx;
    let m = parse_expression(tokens, index, cx)?;
    let ghost c2 = *cx;
    let t = create_temp(cx)?;
    proof {
        lemma_evolves_trans(&c1, &c2, cx);
        lemma_evolves_trans(&c0, &c1, cx);
        lemma_evolves_kinds(&c1, cx);
        lemma_evolves_kinds(&c2, cx);
        lemma_good_mono(e.code@, c1.kinds(), cx.kinds(), cx.nf(), cx.labels as int, cx.labels as int, cx.labels as int, cx.labels as int);
        lemma_good_mono(m.code@, c2.kinds(), cx.kinds(), cx.nf(), cx.labels as int, cx.labels as int, cx.labels as int, cx.labels as int);
        lemma_atom_mono(e.name, c1.kinds(), cx.kinds());
        lemma_atom_mono(m.name, c2.kinds(), cx.kinds());
    }
    let last = Instr::Cmp(op, t, e.name, m.name);
    proof {
        lemma_combine_good(e.code@, t, m.code@, last, cx.kinds(), cx.nf(), cx.labels as int);
    }
    let code = combine(e, t, m, last);
    Ok(Expression { code, name: Atom::Var(t) })
}

/// An expression with no code whose value is the atom `a`.
pub open spec fn is_leaf(r: Result<Expression, String>, a: Atom) -> bool {
    match r {
        Ok(e) => e.name == a && e.code@.len() == 0,
        Err(_) => false,
    }
}

/// The name used in call form at `i`: an identifier with `(` after it.
pub open spec fn called_name(tokens: Seq<Token>, i: int) -> Option<Seq<char>> {
    if 0 <= i && i + 1 < tokens.len() && tokens[i + 1] is LeftParen {
        match tokens[i] {
            Token::Ident(x) => Some(x@),
            _ => None,
        }
    } else {
        None
    }
}

/// The slot of the scalar that the identifier at `i` names, where neither `[` nor `(`
/// follows it.
pub open spec fn scalar_at(tokens: Seq<Token>, i: int, vars: Seq<Var>) -> Option<usize> {
    if 0 <= i < tokens.len() && !(i + 1 < tokens.len() && (tokens[i + 1] is LeftBracket
        || tokens[i + 1] is LeftParen)) {
        match tokens[i] {
            Token::Ident(x) => if exists|k: usize|
                k < vars.len() && #[trigger] user_name(vars[k as int]) == Some(x@) && !vars[k as int].is_array {
                Some(
                    choose|k: usize|
                        k < vars.len() && #[trigger] user_name(vars[k as int]) == Some(x@)
                            && !vars[k as int].is_array,
                )
            } else {
                None
            },
            _ => None,
        }
    } else {
        None
    }
}

/// `term := Num | '(' expression ')' | Ident ('[' expression ']' | '(' arguments ')')?`
/// An identifier must be declared; an array is read only through an index, a scalar
/// never, and a function only by a call.
#[verifier::rlimit(100)]
pub fn parse_term(tokens: &Vec<Token>, index: &mut usize, cx: &mut Context) -> (r: Result<
    Expression,
    String,
>)
    requires
        *old(index) <= tokens@.len(),
        old(cx).wf(),
    ensures
        expr_post(tokens@.len(), *old(index), *final(index), old(cx), final(cx), r),
        expr_agrees(term_v(tokens_view(tokens@), *old(index) as int, (*old(cx))@), r, *final(index), (*final(cx))@),
        *old(index) < tokens@.len() ==> (tokens@[*old(index) as int] matches Token::Num(n) ==> is_leaf(
            r,
            Atom::Lit(n),
        )),
        scalar_at(tokens@, *old(index) as int, old(cx).vars@) matches Some(k) ==> is_leaf(
            r,
            Atom::Var(k),
        ),
        called_name(tokens@, *old(index) as int) matches Some(x) ==> (r is Ok ==> first_fn(
            names_view(old(cx).functions@),
            x,
            0,
        ) is Some && first_var(vars_view(old(cx).vars@), x, 0) is None),
    decreases tokens@.len() - *old(index), 1nat,
{
    let ghost c0 = *old(cx);
    let ghost i0 = *old(index);
    let tok = next_result(tokens, index)?;
    proof {
        lemma_token_at(tokens@, i0 as int);
        if i0 + 1 < tokens@.len() {
            lemma_token_at(tokens@, i0 + 1);
        }
        if i0 + 2 < tokens@.len() {
            lemma_token_at(tokens@, i0 + 2);
        }
        assert(code_view(Seq::<Instr>::empty()) =~= Seq::<InstrV>::empty());
    }
    match tok {
        Token::Num(n) => Ok(Expression { code: Vec::new(), name: Atom::Lit(*n) }),
        Token::LeftParen => {
            let e = parse_expression(tokens, index, cx)?;
            match next_result(tokens, index)? {
                Token::RightParen => Ok(e),
                _ => fail("term missing closing ')' "),
            }
        },
        Token::Ident(id) => {
            let name = chars_of_string(id);
            match lookup_var(&cx.vars, &name) {
                Some(slot) => {
                    proof {
                        if let Some(k) = scalar_at(tokens@, i0 as int, c0.vars@) {
                            assert(user_name(c0.vars@[k as int]) == user_name(c0.vars@[slot as int]));
                        }
                    }
                    let is_array = cx.vars[slot].is_array;
                    let bracket = *index < tokens.len() && match &tokens[*index] {
                        Token::LeftBracket => true,
                        _ => false,
                    };
                    proof {
                        let ts = tokens_view(tokens@);
                        assert(ts[i0 as int] == TokenView::Ident(id@));
                        assert(first_var(c0@.vars, id@, 0) == Some(slot));
                        assert(c0@.vars[slot as int].is_array == is_array);
                        assert(at(ts, i0 + 1, TokenView::LeftBracket) == bracket);
                    }
                    let paren = *index < tokens.len() && match &tokens[*index] {
                        Token::LeftParen => true,
                        _ => false,
                    };
                    assert(at(tokens_view(tokens@), i0 + 1, TokenView::LeftParen) == paren);
                    if !is_array {
                        if bracket {
                            return Err(
                                message("Error. type mismatch: using int as array in var: ", &name),
                            );
                        }
                        if paren {
                            return Err(message("Error. type mismatch: calling a variable: ", &name));
                        }
                        return Ok(Expression { code: Vec::new(), name: Atom::Var(slot) });
                    }
                    if !bracket {
                        return Err(
                            message("Error. type mismatch: using array as int for var: ", &name),
                        );
                    }
                    *index = *index + 1;
                    let ghost c1 = *cx;
                    let e = parse_expression(tokens, index, cx)?;
                    match next_result(tokens, index)? {
                        Token::RightBracket => {},
                        _ => {
                            return fail("term missing closing ']'");
                        },
                    }
                    let ghost c2 = *cx;
                    let t = create_temp(cx)?;
                    proof {
                        lemma_evolves_trans(&c1, &c2, cx);
                        lemma_evolves_kinds(&c1, cx);
                        lemma_evolves_kinds(&c2, cx);
                        assert(cx.kinds()[slot as int] == c1.kinds()[slot as int]);
                        lemma_good_mono(e.code@, c2.kinds(), cx.kinds(), cx.nf(), cx.labels as int, cx.labels as int, cx.labels as int, cx.labels as int);
                        lemma_atom_mono(e.name, c2.kinds(), cx.kinds());
                    }
                    let ghost ecode = e.code@;
                    let mut code = e.code;
                    let decl = Instr::Int(t);
                    let load = Instr::Mov(Operand::Atom(Atom::Var(t)), Operand::Elem(slot, e.name));
                    proof {
                        lemma_good_push(code@, decl, cx.kinds(), cx.nf(), cx.labels as int, cx.labels as int);
                        lemma_good_push(code@.push(decl), load, cx.kinds(), cx.nf(), cx.labels as int, cx.labels as int);
                    }
                    code.push(decl);
                    code.push(load);
                    assert(code_view(code@) =~= code_view(ecode) + seq![decl@, load@]);
                    Ok(Expression { code, name: Atom::Var(t) })
                },
                None => {
                    proof {
                        assert(scalar_at(tokens@, i0 as int, c0.vars@) is None);
                    }
                    let f = match position(&cx.functions, &name) {
                        Some(f) => f,
                        None => {
                            return Err(message("Error. undeclared var or function: ", &name));
                        },
                    };
                    match next_result(tokens, index)? {
                        Token::LeftParen => {},
                        _ => {
                            return Err(message("Error. function used without a call: ", &name));
                        },
                    }
                    let mut code: Vec<Instr> = Vec::new();
                    let mut args: Vec<Atom> = Vec::new();
                    if *index >= tokens.len() {
                        return fail("expected ')' to close a call");
                    }
                    let first = match &tokens[*index] {
                        Token::RightParen => false,
                        _ => true,
                    };
                    proof {
                        let ts = tokens_view(tokens@);
                        assert(code_view(code@) =~= Seq::<InstrV>::empty());
                        assert(args@ =~= Seq::<Atom>::empty());
                        assert(ts[i0 as int] == TokenView::Ident(id@));
                        assert(first_var(c0@.vars, id@, 0) is None);
                        assert(first_fn(c0@.functions, id@, 0) == Some(f));
                        assert(at(ts, i0 + 1, TokenView::LeftParen));
                        assert((ts[i0 + 2] == TokenView::RightParen) == !first);
                    }
                    if !first {
                        *index = *index + 1;
                    } else {
                        loop
                            invariant_except_break
                                args_v(tokens_view(tokens@), i0 + 2, c0@, seq![], seq![]) == args_v(
                                    tokens_view(tokens@),
                                    *index as int,
                                    (*cx)@,
                                    code_view(code@),
                                    args@,
                                ),
                            invariant
                                i0 == *old(index),
                                c0 == *old(cx),
                                i0 < *index <= tokens@.len(),
                                tokens@[i0 as int] is Ident,
                                scalar_at(tokens@, i0 as int, c0.vars@) is None,
                                args_v(tokens_view(tokens@), i0 + 2, c0@, seq![], seq![]) matches Err(m) ==> term_v(
                                    tokens_view(tokens@),
                                    i0 as int,
                                    c0@,
                                ) == Err::<(Seq<InstrV>, Atom, int, ContextV), Msg>(m),
                                cx.wf(),
                                c0.evolves_to(cx),
                                cx.loops@ == c0.loops@,
                                cx.labels == c0.labels,
                                f < cx.nf(),
                                good(code@, cx.kinds(), cx.nf(), cx.labels as int, cx.labels as int),
                                forall|j: int| 0 <= j < args@.len() ==> atom_ok(#[trigger] args@[j], cx.kinds()),
                            ensures
                                args_v(tokens_view(tokens@), i0 + 2, c0@, seq![], seq![]) == Ok::<_, Msg>(
                                    (code_view(code@), args@, *index as int, (*cx)@),
                                ),
                                i0 < *index <= tokens@.len(),
                                cx.wf(),
                                c0.evolves_to(cx),
                                cx.loops@ == c0.loops@,
                                cx.labels == c0.labels,
                                f < cx.nf(),
                                good(code@, cx.kinds(), cx.nf(), cx.labels as int, cx.labels as int),
                                forall|j: int| 0 <= j < args@.len() ==> atom_ok(#[trigger] args@[j], cx.kinds()),
                            decreases tokens@.len() - *index,
                        {
                            let ghost c1 = *cx;
                            let ghost j = *index as int;
                            let ghost gcode = code_view(code@);
                            let ghost gargs = args@;
                            let e = parse_expression(tokens, index, cx)?;
                            let ghost k = *index as int;
                            proof {
                                if k < tokens@.len() {
                                    lemma_token_at(tokens@, k);
                                }
                                lemma_code_view_concat(code@, e.code@);
                                lemma_evolves_trans(&c0, &c1, cx);
                                lemma_evolves_kinds(&c1, cx);
                                lemma_good_mono(code@, c1.kinds(), cx.kinds(), cx.nf(), cx.labels as int, cx.labels as int, cx.labels as int, cx.labels as int);
                                assert forall|j: int| 0 <= j < args@.len() implies atom_ok(#[trigger] args@[j], cx.kinds()) by {
                                    lemma_atom_mono(args@[j], c1.kinds(), cx.kinds());
                                }
                                lemma_good_concat(code@, e.code@, cx.kinds(), cx.nf(), cx.labels as int, cx.labels as int, cx.labels as int);
                            }
                            let mut more = e.code;
                            code.append(&mut more);
                            args.push(e.name);
                            match next_result(tokens, index)? {
                                Token::Comma => {},
                                Token::RightParen => {
                                    break ;
                                },
                                _ => {
                                    return fail("expected ',' or ')' in the arguments of a call");
                                },
                            }
                        }
                    }
                    let ghost c1 = *cx;
                    let t = create_temp(cx)?;
                    proof {
                        lemma_evolves_trans(&c0, &c1, cx);
                        lemma_evolves_kinds(&c1, cx);
                        lemma_good_mono(code@, c1.kinds(), cx.kinds(), cx.nf(), cx.labels as int, cx.labels as int, cx.labels as int, cx.labels as int);
                        assert forall|j: int| 0 <= j < args@.len() implies atom_ok(#[trigger] args@[j], cx.kinds()) by {
                            lemma_atom_mono(args@[j], c1.kinds(), cx.kinds());
                        }
                    }
                    let ghost pre = code@;
                    let decl = Instr::Int(t);
                    let call = Instr::Call(t, f, args);
                    proof {
                        lemma_good_push(code@, decl, cx.kinds(), cx.nf(), cx.labels as int, cx.labels as int);
                        lemma_good_push(code@.push(decl), call, cx.kinds(), cx.nf(), cx.labels as int, cx.labels as int);
                    }
                    code.push(decl);
                    code.push(call);
                    assert(code_view(code@) =~= code_view(pre) + seq![decl@, call@]);
                    Ok(Expression { code, name: Atom::Var(t) })
                },
            }
        },
        _ => fail("invalid term expression"),
    }
}


/// The identifier at position `i`, where it names no variable.
pub open spec fn undeclared_at(tokens: Seq<Token>, i: int, vars: Seq<Var>) -> Option<Seq<char>> {
    if 0 <= i < tokens.len() {
        match tokens[i] {
            Token::Ident(y) => if forall|j: int|
                0 <= j < vars.len() ==> #[trigger] user_name(vars[j]) != Some(y@) {
                Some(y@)
            } else {
                None
            },
            _ => None,
        }
    } else {
        None
    }
}

/// `r` is an error with message `m`.
pub open spec fn error_is<T>(r: Result<T, String>, m: Seq<char>) -> bool {
    match r {
        Ok(_) => false,
        Err(e) => e@ == m,
    }
}

/// Adds a declared variable to the current function; a name that a variable or a
/// function already has is refused.
pub fn declare(cx: &mut Context, name: Vec<char>, is_array: bool) -> (r: Result<usize, String>)
    requires
        old(cx).wf(),
    ensures
        final(cx).wf(),
        old(cx).evolves_to(final(cx)),
        final(cx).loops@ == old(cx).loops@,
        final(cx).labels == old(cx).labels,
        final(cx).temps == old(cx).temps,
        match r {
            Ok(x) => x == old(cx).vars@.len() && final(cx).vars@.len() == x + 1
                && with_var((*old(cx))@, name@, is_array) == Some((*final(cx))@)
                && final(cx).kinds() == old(cx).kinds().push(is_array)
                && user_name(final(cx).vars@[x as int]) == Some(name@),
            Err(_) => final(cx).vars@ == old(cx).vars@ && with_var((*old(cx))@, name@, is_array) is None && (exists|i: int|
                0 <= i < old(cx).vars@.len() && #[trigger] user_name(old(cx).vars@[i]) == Some(
                    name@,
                ) || exists|f: int|
                0 <= f < old(cx).functions@.len() && (#[trigger] old(cx).functions@[f])@ == name@),
        },
{
    match lookup_var(&cx.vars, &name) {
        Some(_) => {
            return Err(message("Error. found a duplicate variable ", &name));
        },
        None => {},
    }
    match position(&cx.functions, &name) {
        Some(_) => {
            return Err(message("Error. found a variable named like a function: ", &name));
        },
        None => {},
    }
    let x = cx.vars.len();
    let ghost nm = name@;
    cx.vars.push(Var { name: VarName::User(name), is_array });
    proof {
        let v = cx.vars@;
        assert(user_name(v[x as int]) == Some(nm));
        assert forall|i: int| 0 <= i < x implies v[i] == old(cx).vars@[i] by {}
        assert(cx.kinds() == old(cx).kinds().push(is_array));
        assert(vars_view(cx.vars@) =~= vars_view(old(cx).vars@).push(cx.vars@[x as int]@));
    }
    Ok(x)
}

/// The declaration that starts at `i`: its name, its size if it declares an array,
/// and the position after it.
pub open spec fn decl_at(tokens: Seq<Token>, i: int) -> Option<(Seq<char>, Option<i32>, int)> {
    if 0 <= i && i + 1 < tokens.len() && tokens[i] is Int {
        match tokens[i + 1] {
            Token::Ident(x) => Some((x@, None, i + 2)),
            Token::LeftBracket => if i + 4 < tokens.len() && tokens[i + 3] is RightBracket {
                match (tokens[i + 2], tokens[i + 4]) {
                    (Token::Num(n), Token::Ident(x)) => Some((x@, Some(n), i + 5)),
                    _ => None,
                }
            } else {
                None
            },
            _ => None,
        }
    } else {
        None
    }
}

/// No variable and no function has the name `x`.
pub open spec fn name_free(cx: &Context, x: Seq<char>) -> bool {
    &&& forall|i: int| 0 <= i < cx.vars@.len() ==> #[trigger] user_name(cx.vars@[i]) != Some(x)
    &&& forall|f: int| 0 <= f < cx.functions@.len() ==> (#[trigger] cx.functions@[f])@ != x
}

/// `decl := 'int' ('[' Num ']')? Ident`, declaring a scalar, or an array of a
/// positive size.
pub fn parse_declaration(tokens: &Vec<Token>, index: &mut usize, cx: &mut Context) -> (r: Result<
    Instr,
    String,
>)
    requires
        *old(index) <= tokens@.len(),
        old(cx).wf(),
    ensures
        *old(index) <= *final(index) <= tokens@.len(),
        final(cx).wf(),
        old(cx).evolves_to(final(cx)),
        final(cx).loops@ == old(cx).loops@,
        final(cx).labels == old(cx).labels,
        final(cx).temps == old(cx).temps,
        r matches Ok(i) ==> *old(index) < *final(index) && instr_ok(i, final(cx).kinds(), final(cx).nf())
            && label_of(i) is None && final(cx).vars@.len() == old(cx).vars@.len() + 1,
        match decl_at(tokens@, *old(index) as int) {
            Some((x, size, end)) => {
                &&& r is Ok <==> name_free(old(cx), x) && (size matches Some(n) ==> n > 0)
                &&& r matches Ok(i) ==> {
                    &&& *final(index) == end
                    &&& user_name(final(cx).vars@.last()) == Some(x)
                    &&& i == match size {
                        None => Instr::Int(old(cx).vars@.len() as usize),
                        Some(n) => Instr::IntArray(old(cx).vars@.len() as usize, n),
                    }
                }
            },
            None => r is Err,
        },
        decl_agrees(decl_v(tokens_view(tokens@), *old(index) as int, (*old(cx))@), r, *final(index), (*final(cx))@),
{
    proof {
        lemma_tokens_view(tokens@);
    }
    match next_result(tokens, index)? {
        Token::Int => {},
        _ => {
            return fail("declarations must begin with int");
        },
    }
    if *index >= tokens.len() {
        return fail("expected '[num]' or an identifier in declaration");
    }
    let is_array = match &tokens[*index] {
        Token::LeftBracket => true,
        _ => false,
    };
    if !is_array {
        let name = match next_result(tokens, index)? {
            Token::Ident(id) => chars_of_string(id),
            _ => {
                return fail("expected '[num]' or an identifier in declaration");
            },
        };
        let x = declare(cx, name, false)?;
        assert(cx.kinds()[x as int] == false);
        return Ok(Instr::Int(x));
    }
    *index = *index + 1;
    let size = match next_result(tokens, index)? {
        Token::Num(n) => *n,
        _ => {
            return fail("expected [number] in declaration");
        },
    };
    if size <= 0 {
        return fail("Error. Declaring an array of a size that is <= 0");
    }
    match next_result(tokens, index)? {
        Token::RightBracket => {},
        _ => {
            return fail("expected ']' in the declaration");
        },
    }
    let name = match next_result(tokens, index)? {
        Token::Ident(id) => chars_of_string(id),
        _ => {
            return fail("expected '[num]' or an identifier in declaration");
        },
    };
    let x = declare(cx, name, true)?;
    assert(cx.kinds()[x as int] == true);
    Ok(Instr::IntArray(x, size))
}

/// `lvalue := Ident ('[' expression ']')?`: a declared scalar, or an element of a
/// declared array.
pub fn parse_var(tokens: &Vec<Token>, index: &mut usize, cx: &mut Context) -> (r: Result<
    Target,
    String,
>)
    requires
        *old(index) <= tokens@.len(),
        old(cx).wf(),
    ensures
        *old(index) <= *final(index) <= tokens@.len(),
        final(cx).wf(),
        old(cx).evolves_to(final(cx)),
        final(cx).loops@ == old(cx).loops@,
        final(cx).labels == old(cx).labels,
        r matches Ok(t) ==> *old(index) < *final(index) && good(
            t.code@,
            final(cx).kinds(),
            final(cx).nf(),
            final(cx).labels as int,
            final(cx).labels as int,
        ) && place_ok(t.place, final(cx).kinds()),
        undeclared_at(tokens@, *old(index) as int, old(cx).vars@) matches Some(y) ==> error_is(
            r,
            "Error. undeclared var: "@ + y,
        ),
        target_agrees(var_v(tokens_view(tokens@), *old(index) as int, (*old(cx))@), r, *final(index), (*final(cx))@),
    decreases tokens@.len() - *old(index), 4nat,
{
    let ghost i0 = *old(index);
    let ghost c0 = *old(cx);
    proof {
        if i0 < tokens@.len() {
            lemma_token_at(tokens@, i0 as int);
        }
        if i0 + 1 < tokens@.len() {
            lemma_token_at(tokens@, i0 + 1);
        }
        assert(code_view(Seq::<Instr>::empty()) =~= Seq::<InstrV>::empty());
    }
    let name = match next_result(tokens, index)? {
        Token::Ident(id) => chars_of_string(id),
        _ => {
            return fail("expected identifier in var");
        },
    };
    let slot = match lookup_var(&cx.vars, &name) {
        Some(slot) => slot,
        None => {
            return Err(message("Error. undeclared var: ", &name));
        },
    };
    let bracket = *index < tokens.len() && match &tokens[*index] {
        Token::LeftBracket => true,
        _ => false,
    };
    proof {
        let ts = tokens_view(tokens@);
        assert(first_var(c0@.vars, name@, 0) == Some(slot));
        assert(c0@.vars[slot as int].is_array == cx.vars@[slot as int].is_array);
        assert(at(ts, i0 + 1, TokenView::LeftBracket) == bracket);
    }
    if !cx.vars[slot].is_array {
        if bracket {
            return Err(message("Error. type mismatch: using int as array in var: ", &name));
        }
        return Ok(Target { code: Vec::new(), place: Operand::Atom(Atom::Var(slot)) });
    }
    if !bracket {
        return Err(message("Error. type mismatch: using array as int in var: ", &name));
    }
    *index = *index + 1;
    let ghost c1 = *cx;
    let e = parse_expression(tokens, index, cx)?;
    match next_result(tokens, index)? {
        Token::RightBracket => {},
        _ => {
            return fail("expected ']' in var");
        },
    }
    proof {
        assert(cx.kinds()[slot as int] == c1.kinds()[slot as int]);
    }
    Ok(Target { code: e.code, place: Operand::Elem(slot, e.name) })
}

/// A target parser's result agrees with the language.
pub open spec fn target_agrees(
    s: Result<(Seq<InstrV>, Operand, int, ContextV), Msg>,
    r: Result<Target, String>,
    j: usize,
    c: ContextV,
) -> bool {
    match (s, r) {
        (Ok((code, place, k, c1)), Ok(t)) => code_view(t.code@) == code && t.place == place && j
            == k && c == c1,
        (Err(m), Err(e)) => reports(m, e),
        _ => false,
    }
}

/// A declaration parser's result agrees with the language.
pub open spec fn decl_agrees(s: Result<(InstrV, int, ContextV), Msg>, r: Result<Instr, String>, j: usize, c: ContextV) -> bool {
    match (s, r) {
        (Ok((d, k, c1)), Ok(i)) => i@ == d && j == k && c == c1,
        (Err(m), Err(e)) => reports(m, e),
        _ => false,
    }
}

/// A statement parser's result agrees with the language.
pub open spec fn stmt_agrees(s: StmtV, r: Result<Option<Vec<Instr>>, String>, j: usize, c: ContextV) -> bool {
    match (s, r) {
        (Ok((None, k, c1)), Ok(None)) => j == k && c == c1,
        (Ok((Some(code), k, c1)), Ok(Some(v))) => code_view(v@) == code && j == k && c == c1,
        (Err(m), Err(e)) => reports(m, e),
        _ => false,
    }
}

/// A parser of a piece of code agrees with the language.
pub open spec fn code_agrees(
    s: Result<(Seq<InstrV>, int, ContextV), Msg>,
    r: Result<Vec<Instr>, String>,
    j: usize,
    c: ContextV,
) -> bool {
    match (s, r) {
        (Ok((code, k, c1)), Ok(v)) => code_view(v@) == code && j == k && c == c1,
        (Err(m), Err(e)) => reports(m, e),
        _ => false,
    }
}

/// What a statement parser promises: it moves forward, keeps the functions and the
/// enclosing loops, and on success gives good code whose labels are numbered from
/// the label counter as it was to the counter as it is.
pub open spec fn stmt_post(
    len: nat,
    i0: usize,
    i1: usize,
    c0: &Context,
    c1: &Context,
    r: Result<Option<Vec<Instr>>, String>,
) -> bool {
    &&& i0 <= i1 <= len
    &&& c1.wf()
    &&& c0.evolves_to(c1)
    &&& r is Ok ==> c1.loops@ == c0.loops@
    &&& r matches Ok(Some(code)) ==> i0 < i1 && good(
        code@,
        c1.kinds(),
        c1.nf(),
        c0.labels as int,
        c1.labels as int,
    )
    &&& r matches Ok(None) ==> i1 == i0
}

/// Expects `;` at `*index` and moves past it.
fn expect_semicolon(tokens: &Vec<Token>, index: &mut usize, m: &str) -> (r: Result<(), String>)
    requires
        *old(index) <= tokens@.len(),
    ensures
        *old(index) <= *final(index) <= tokens@.len(),
        r is Ok ==> *final(index) == *old(index) + 1,
        r is Ok <==> at(tokens_view(tokens@), *old(index) as int, TokenView::Semicolon),
{
    proof {
        lemma_tokens_view(tokens@);
    }
    match next_result(tokens, index)? {
        Token::Semicolon => Ok(()),
        _ => fail(m),
    }
}

/// Expects `{` at `*index` and moves past it.
fn expect_left_curly(tokens: &Vec<Token>, index: &mut usize, m: &str) -> (r: Result<(), String>)
    requires
        *old(index) <= tokens@.len(),
    ensures
        *old(index) <= *final(index) <= tokens@.len(),
        r is Ok ==> *final(index) == *old(index) + 1,
        r is Ok <==> at(tokens_view(tokens@), *old(index) as int, TokenView::LeftCurly),
{
    proof {
        lemma_tokens_view(tokens@);
    }
    match next_result(tokens, index)? {
        Token::LeftCurly => Ok(()),
        _ => fail(m),
    }
}

/// A declaration statement: `decl ;`.
fn parse_decl_statement(tokens: &Vec<Token>, index: &mut usize, cx: &mut Context) -> (r: Result<
    Option<Vec<Instr>>,
    String,
>)
    requires
        *old(index) < tokens@.len(),
        old(cx).wf(),
        tokens@[*old(index) as int] is Int,
    ensures
        stmt_post(tokens@.len(), *old(index), *final(index), old(cx), final(cx), r),
        stmt_agrees(stmt_v(tokens_view(tokens@), *old(index) as int, (*old(cx))@), r, *final(index), (*final(cx))@),
    decreases tokens@.len() - *old(index), 5nat,
{
    proof {
        lemma_tokens_view(tokens@);
        assert(code_view(Seq::<Instr>::empty()) =~= Seq::<InstrV>::empty());
    }
    let ghost c0 = *old(cx);
    let ghost i0 = *old(index);
    let k0 = cx.labels;
    let len = tokens.len();

            let d = parse_declaration(tokens, index, cx)?;
            expect_semicolon(tokens, index, "expected ';' closing statement")?;
            let mut code: Vec<Instr> = Vec::new();
            proof {
                lemma_good_push(code@, d, cx.kinds(), cx.nf(), k0 as int, k0 as int);
            }
            code.push(d);
            assert(code_view(code@) =~= seq![d@]);
            Ok(Some(code))
}

/// An assignment: `lvalue = expression ;`.
fn parse_assignment(tokens: &Vec<Token>, index: &mut usize, cx: &mut Context) -> (r: Result<
    Option<Vec<Instr>>,
    String,
>)
    requires
        *old(index) < tokens@.len(),
        old(cx).wf(),
        tokens@[*old(index) as int] is Ident,
    ensures
        stmt_post(tokens@.len(), *old(index), *final(index), old(cx), final(cx), r),
        undeclared_at(tokens@, *old(index) as int, old(cx).vars@) matches Some(y) ==> error_is(
            r,
            "Error. undeclared var: "@ + y,
        ),
        stmt_agrees(stmt_v(tokens_view(tokens@), *old(index) as int, (*old(cx))@), r, *final(index), (*final(cx))@),
    decreases tokens@.len() - *old(index), 5nat,
{
    proof {
        lemma_tokens_view(tokens@);
        assert(code_view(Seq::<Instr>::empty()) =~= Seq::<InstrV>::empty());
    }
    let ghost c0 = *old(cx);
    let ghost i0 = *old(index);
    let k0 = cx.labels;
    let len = tokens.len();

            let v = parse_var(tokens, index, cx)?;
            match next_result(tokens, index)? {
                Token::Assign => {},
                _ => {
                    return fail("expected '=' assignment operator");
                },
            }
            let ghost c1 = *cx;
            let e = parse_expression(tokens, index, cx)?;
            expect_semicolon(tokens, index, "expected ';' closing statement")?;
            let mov = Instr::Mov(v.place, Operand::Atom(e.name));
            proof {
                lemma_evolves_kinds(&c1, cx);
                lemma_good_mono(v.code@, c1.kinds(), cx.kinds(), cx.nf(), k0 as int, k0 as int, k0 as int, k0 as int);
                lemma_place_mono(v.place, c1.kinds(), cx.kinds());
                lemma_good_concat(v.code@, e.code@, cx.kinds(), cx.nf(), k0 as int, k0 as int, k0 as int);
                lemma_good_push(v.code@ + e.code@, mov, cx.kinds(), cx.nf(), k0 as int, k0 as int);
            }
            let ghost vcode = v.code@;
            let ghost ecode = e.code@;
            let mut code = v.code;
            let mut more = e.code;
            code.append(&mut more);
            let ghost pre = code@;
            code.push(mov);
            assert(code@ == pre + seq![mov]);
            assert(code_view(code@) =~= code_view(vcode) + code_view(ecode) + seq![mov@]);
            Ok(Some(code))
}

/// `return expression ;` or `print ( expression ) ;`.
#[verifier::rlimit(100)]
fn parse_output(tokens: &Vec<Token>, index: &mut usize, cx: &mut Context) -> (r: Result<
    Option<Vec<Instr>>,
    String,
>)
    requires
        *old(index) < tokens@.len(),
        old(cx).wf(),
        tokens@[*old(index) as int] is Return || tokens@[*old(index) as int] is Print,
    ensures
        stmt_post(tokens@.len(), *old(index), *final(index), old(cx), final(cx), r),
        stmt_agrees(stmt_v(tokens_view(tokens@), *old(index) as int, (*old(cx))@), r, *final(index), (*final(cx))@),
    decreases tokens@.len() - *old(index), 5nat,
{
    proof {
        lemma_tokens_view(tokens@);
        assert(code_view(Seq::<Instr>::empty()) =~= Seq::<InstrV>::empty());
    }
    let ghost c0 = *old(cx);
    let ghost i0 = *old(index);
    let k0 = cx.labels;
    let len = tokens.len();

            let is_return = match &tokens[*index] {
                Token::Return => true,
                _ => false,
            };
            *index = *index + 1;
            if !is_return {
                match next_result(tokens, index)? {
                    Token::LeftParen => {},
                    _ => {
                        return fail("expected '(' after print");
                    },
                }
            }
            let e = parse_expression(tokens, index, cx)?;
            if !is_return {
                match next_result(tokens, index)? {
                    Token::RightParen => {},
                    _ => {
                        return fail("expected ')' after the value to print");
                    },
                }
            }
            expect_semicolon(tokens, index, "expected ';' closing statement")?;
            let last = if is_return {
                Instr::Ret(e.name)
            } else {
                Instr::Out(e.name)
            };
            proof {
                lemma_good_push(e.code@, last, cx.kinds(), cx.nf(), k0 as int, k0 as int);
            }
            let mut code = e.code;
            let ghost pre = code@;
            code.push(last);
            assert(code@ == pre + seq![last]);
            assert(code_view(code@) =~= code_view(pre) + seq![last@]);
            Ok(Some(code))
}

/// `read ( lvalue ) ;`.
fn parse_read(tokens: &Vec<Token>, index: &mut usize, cx: &mut Context) -> (r: Result<
    Option<Vec<Instr>>,
    String,
>)
    requires
        *old(index) < tokens@.len(),
        old(cx).wf(),
        tokens@[*old(index) as int] is Read,
    ensures
        stmt_post(tokens@.len(), *old(index), *final(index), old(cx), final(cx), r),
        stmt_agrees(stmt_v(tokens_view(tokens@), *old(index) as int, (*old(cx))@), r, *final(index), (*final(cx))@),
    decreases tokens@.len() - *old(index), 5nat,
{
    proof {
        lemma_tokens_view(tokens@);
        assert(code_view(Seq::<Instr>::empty()) =~= Seq::<InstrV>::empty());
    }
    let ghost c0 = *old(cx);
    let ghost i0 = *old(index);
    let k0 = cx.labels;
    let len = tokens.len();

            *index = *index + 1;
            match next_result(tokens, index)? {
                Token::LeftParen => {},
                _ => {
                    return fail("expected '(' after read");
                },
            }
            let v = parse_var(tokens, index, cx)?;
            match next_result(tokens, index)? {
                Token::RightParen => {},
                _ => {
                    return fail("expected ')' after the target of read");
                },
            }
            expect_semicolon(tokens, index, "expected ';' closing statement")?;
            let last = Instr::Input(v.place);
            proof {
                lemma_good_push(v.code@, last, cx.kinds(), cx.nf(), k0 as int, k0 as int);
            }
            let mut code = v.code;
            let ghost pre = code@;
            code.push(last);
            assert(code@ == pre + seq![last]);
            assert(code_view(code@) =~= code_view(pre) + seq![last@]);
            Ok(Some(code))
}

/// `break ;` or `continue ;`: a jump to the end or the start of the innermost loop.
fn parse_jump(tokens: &Vec<Token>, index: &mut usize, cx: &mut Context) -> (r: Result<
    Option<Vec<Instr>>,
    String,
>)
    requires
        *old(index) < tokens@.len(),
        old(cx).wf(),
        tokens@[*old(index) as int] is Break || tokens@[*old(index) as int] is Continue,
    ensures
        stmt_post(tokens@.len(), *old(index), *final(index), old(cx), final(cx), r),
        stmt_agrees(stmt_v(tokens_view(tokens@), *old(index) as int, (*old(cx))@), r, *final(index), (*final(cx))@),
    decreases tokens@.len() - *old(index), 5nat,
{
    proof {
        lemma_tokens_view(tokens@);
        assert(code_view(Seq::<Instr>::empty()) =~= Seq::<InstrV>::empty());
    }
    let ghost c0 = *old(cx);
    let ghost i0 = *old(index);
    let k0 = cx.labels;
    let len = tokens.len();

            let kind = match &tokens[*index] {
                Token::Break => LabelKind::LoopEnd,
                _ => LabelKind::LoopBegin,
            };
            *index = *index + 1;
            let n = match cx.loops.last() {
                Some(n) => *n,
                None => {
                    return fail("break or continue outside of a loop");
                },
            };
            expect_semicolon(tokens, index, "expected ';' closing statement")?;
            let mut code: Vec<Instr> = Vec::new();
            proof {
                lemma_good_push(code@, Instr::Jmp(kind, n), cx.kinds(), cx.nf(), k0 as int, k0 as int);
            }
            code.push(Instr::Jmp(kind, n));
            assert(code@ == seq![Instr::Jmp(kind, n)]);
            assert(code_view(code@) =~= seq![Instr::Jmp(kind, n)@]);
            Ok(Some(code))
}

/// One statement: a declaration, an assignment, `return`, `print`, `read`,
/// `break`, `continue`, a loop or a conditional. Nothing at `}` or at the end.
#[verifier::rlimit(100)]
pub fn parse_statement(tokens: &Vec<Token>, index: &mut usize, cx: &mut Context) -> (r: Result<
    Option<Vec<Instr>>,
    String,
>)
    requires
        *old(index) <= tokens@.len(),
        old(cx).wf(),
    ensures
        stmt_post(tokens@.len(), *old(index), *final(index), old(cx), final(cx), r),
        undeclared_at(tokens@, *old(index) as int, old(cx).vars@) matches Some(y) ==> error_is(
            r,
            "Error. undeclared var: "@ + y,
        ),
        *old(index) < tokens@.len() && (tokens@[*old(index) as int] is Break
            || tokens@[*old(index) as int] is Continue) && old(cx).loops@.len() == 0 ==> r is Err,
        stmt_agrees(stmt_v(tokens_view(tokens@), *old(index) as int, (*old(cx))@), r, *final(index), (*final(cx))@),
    decreases tokens@.len() - *old(index), 7nat,
{
    proof {
        lemma_tokens_view(tokens@);
        assert(code_view(Seq::<Instr>::empty()) =~= Seq::<InstrV>::empty());
    }
    let ghost c0 = *old(cx);
    let ghost i0 = *old(index);
    if *index >= tokens.len() {
        return Ok(None);
    }
    let k0 = cx.labels;
    match &tokens[*index] {
        Token::RightCurly => Ok(None),
        Token::Int => {
            parse_decl_statement(tokens, index, cx)
        },
        Token::Ident(_) => {
            parse_assignment(tokens, index, cx)
        },
        Token::Return | Token::Print => {
            parse_output(tokens, index, cx)
        },
        Token::Read => {
            parse_read(tokens, index, cx)
        },
        Token::Break | Token::Continue => {
            parse_jump(tokens, index, cx)
        },
        Token::While => {
            let code = parse_while_loop(tokens, index, cx)?;
            Ok(Some(code))
        },
        Token::If => {
            let code = parse_if(tokens, index, cx)?;
            Ok(Some(code))
        },
        _ => fail("invalid statement"),
    }
}

/// Statements up to the closing `}`, which it consumes.
pub fn parse_block(tokens: &Vec<Token>, index: &mut usize, cx: &mut Context) -> (r: Result<
    Vec<Instr>,
    String,
>)
    requires
        *old(index) <= tokens@.len(),
        old(cx).wf(),
    ensures
        *old(index) <= *final(index) <= tokens@.len(),
        final(cx).wf(),
        old(cx).evolves_to(final(cx)),
        r is Ok ==> final(cx).loops@ == old(cx).loops@,
        r matches Ok(code) ==> *old(index) < *final(index) && good(
            code@,
            final(cx).kinds(),
            final(cx).nf(),
            old(cx).labels as int,
            final(cx).labels as int,
        ),
        code_agrees(block_v(tokens_view(tokens@), *old(index) as int, (*old(cx))@), r, *final(index), (*final(cx))@),
    decreases tokens@.len() - *old(index), 8nat,
{
    proof {
        lemma_tokens_view(tokens@);
        assert(code_view(Seq::<Instr>::empty()) =~= Seq::<InstrV>::empty());
    }
    let ghost c0 = *old(cx);
    let ghost i0 = *old(index);
    let mut code: Vec<Instr> = Vec::new();
    loop
        invariant
            i0 == *old(index),
            c0 == *old(cx),
            i0 <= *index <= tokens@.len(),
            cx.wf(),
            c0.evolves_to(cx),
            cx.loops@ == c0.loops@,
            good(code@, cx.kinds(), cx.nf(), c0.labels as int, cx.labels as int),
            block_v(tokens_view(tokens@), i0 as int, c0@) == block_rest_v(tokens_view(tokens@), *index as int, (*cx)@, code_view(code@)),
        ensures
            block_v(tokens_view(tokens@), i0 as int, c0@) == block_rest_v(tokens_view(tokens@), *index as int, (*cx)@, code_view(code@)),
            stmt_v(tokens_view(tokens@), *index as int, (*cx)@) == Ok::<_, Msg>((None::<Seq<InstrV>>, *index as int, (*cx)@)),
            i0 <= *index <= tokens@.len(),
            cx.wf(),
            c0.evolves_to(cx),
            cx.loops@ == c0.loops@,
            good(code@, cx.kinds(), cx.nf(), c0.labels as int, cx.labels as int),
        decreases tokens@.len() - *index,
    {
        let ghost c1 = *cx;
        let ghost gcode = code@;
        match parse_statement(tokens, index, cx)? {
            None => {
                break ;
            },
            Some(mut s) => {
                proof {
                    lemma_evolves_kinds(&c1, cx);
                    lemma_good_mono(code@, c1.kinds(), cx.kinds(), cx.nf(), c0.labels as int, c1.labels as int, c0.labels as int, c1.labels as int);
                    lemma_good_concat(code@, s@, cx.kinds(), cx.nf(), c0.labels as int, c1.labels as int, cx.labels as int);
                }
                let ghost scode = s@;
                code.append(&mut s);
                proof {
                    lemma_code_view_concat(gcode, scode);
                }
            },
        }
    }
    match next_result(tokens, index)? {
        Token::RightCurly => Ok(code),
        _ => fail("expected '}' to close a block"),
    }
}

/// The code of a loop is good when its test and its body are: the loop's two labels
/// take the number `n`, below those of the body.
proof fn lemma_while_good(cond: Seq<Instr>, a: Atom, body: Seq<Instr>, n: u64, k: Seq<bool>, nf: nat, hi: int)
    requires
        good(cond, k, nf, n + 1, n + 1),
        atom_ok(a, k),
        good(body, k, nf, n + 1, hi),
        n + 1 <= hi,
    ensures
        good(
            seq![Instr::Label(LabelKind::LoopBegin, n)] + cond + seq![Instr::BranchIfn(a, LabelKind::LoopEnd, n)]
                + body + seq![Instr::Jmp(LabelKind::LoopBegin, n), Instr::Label(LabelKind::LoopEnd, n)],
            k,
            nf,
            n as int,
            hi,
        ),
{
    let n1 = n + 1;
    let branch = Instr::BranchIfn(a, LabelKind::LoopEnd, n);
    let back = Instr::Jmp(LabelKind::LoopBegin, n);
    let c0 = Seq::<Instr>::empty();
    lemma_good_push_label(c0, LabelKind::LoopBegin, n, k, nf, n as int, n1);
    let c1 = c0.push(Instr::Label(LabelKind::LoopBegin, n));
    lemma_no_label_push(c0, Instr::Label(LabelKind::LoopBegin, n), LabelKind::LoopEnd, n);
    lemma_good_concat(c1, cond, k, nf, n as int, n1, n1);
    lemma_no_label(cond, LabelKind::LoopEnd, n, n1, n1);
    lemma_no_label_concat(c1, cond, LabelKind::LoopEnd, n);
    let c2 = c1 + cond;
    lemma_good_push(c2, branch, k, nf, n as int, n1);
    lemma_no_label_push(c2, branch, LabelKind::LoopEnd, n);
    let c3 = c2.push(branch);
    lemma_good_concat(c3, body, k, nf, n as int, n1, hi);
    lemma_no_label(body, LabelKind::LoopEnd, n, n1, hi);
    lemma_no_label_concat(c3, body, LabelKind::LoopEnd, n);
    let c4 = c3 + body;
    lemma_good_push(c4, back, k, nf, n as int, hi);
    lemma_no_label_push(c4, back, LabelKind::LoopEnd, n);
    let c5 = c4.push(back);
    lemma_good_push_label(c5, LabelKind::LoopEnd, n, k, nf, n as int, hi);
    assert(c5.push(Instr::Label(LabelKind::LoopEnd, n)) =~= seq![Instr::Label(LabelKind::LoopBegin, n)]
        + cond + seq![branch] + body + seq![back, Instr::Label(LabelKind::LoopEnd, n)]);
}

/// The code of a conditional is good when its test and its blocks are: the three
/// labels take the number `n`, below those of the blocks.
proof fn lemma_if_good(
    cond: Seq<Instr>,
    a: Atom,
    tc: Seq<Instr>,
    ec: Seq<Instr>,
    n: u64,
    k: Seq<bool>,
    nf: nat,
    l1: int,
    hi: int,
)
    requires
        good(cond, k, nf, n + 1, n + 1),
        atom_ok(a, k),
        good(tc, k, nf, n + 1, l1),
        good(ec, k, nf, l1, hi),
        n + 1 <= l1 <= hi,
    ensures
        good(
            cond + seq![
                Instr::BranchIf(a, LabelKind::IfTrue, n),
                Instr::Jmp(LabelKind::Else, n),
                Instr::Label(LabelKind::IfTrue, n),
            ] + tc + seq![Instr::Jmp(LabelKind::EndIf, n), Instr::Label(LabelKind::Else, n)] + ec
                + seq![Instr::Label(LabelKind::EndIf, n)],
            k,
            nf,
            n as int,
            hi,
        ),
{
    let n1 = n + 1;
    let branch = Instr::BranchIf(a, LabelKind::IfTrue, n);
    let skip = Instr::Jmp(LabelKind::Else, n);
    let out = Instr::Jmp(LabelKind::EndIf, n);
    lemma_good_mono(cond, k, k, nf, n1, n1, n as int, n1);
    lemma_no_label(cond, LabelKind::IfTrue, n, n1, n1);
    lemma_no_label(cond, LabelKind::Else, n, n1, n1);
    lemma_no_label(cond, LabelKind::EndIf, n, n1, n1);
    lemma_no_label(tc, LabelKind::Else, n, n1, l1);
    lemma_no_label(tc, LabelKind::EndIf, n, n1, l1);
    lemma_no_label(ec, LabelKind::EndIf, n, l1, hi);
    lemma_good_push(cond, branch, k, nf, n as int, n1);
    lemma_no_label_push(cond, branch, LabelKind::IfTrue, n);
    lemma_no_label_push(cond, branch, LabelKind::Else, n);
    lemma_no_label_push(cond, branch, LabelKind::EndIf, n);
    let c1 = cond.push(branch);
    lemma_good_push(c1, skip, k, nf, n as int, n1);
    lemma_no_label_push(c1, skip, LabelKind::IfTrue, n);
    lemma_no_label_push(c1, skip, LabelKind::Else, n);
    lemma_no_label_push(c1, skip, LabelKind::EndIf, n);
    let c2 = c1.push(skip);
    lemma_good_push_label(c2, LabelKind::IfTrue, n, k, nf, n as int, n1);
    lemma_no_label_push(c2, Instr::Label(LabelKind::IfTrue, n), LabelKind::Else, n);
    lemma_no_label_push(c2, Instr::Label(LabelKind::IfTrue, n), LabelKind::EndIf, n);
    let c3 = c2.push(Instr::Label(LabelKind::IfTrue, n));
    lemma_good_concat(c3, tc, k, nf, n as int, n1, l1);
    lemma_no_label_concat(c3, tc, LabelKind::Else, n);
    lemma_no_label_concat(c3, tc, LabelKind::EndIf, n);
    let c4 = c3 + tc;
    lemma_good_push(c4, out, k, nf, n as int, l1);
    lemma_no_label_push(c4, out, LabelKind::Else, n);
    lemma_no_label_push(c4, out, LabelKind::EndIf, n);
    let c5 = c4.push(out);
    lemma_good_push_label(c5, LabelKind::Else, n, k, nf, n as int, l1);
    lemma_no_label_push(c5, Instr::Label(LabelKind::Else, n), LabelKind::EndIf, n);
    let c6 = c5.push(Instr::Label(LabelKind::Else, n));
    lemma_good_concat(c6, ec, k, nf, n as int, l1, hi);
    lemma_no_label_concat(c6, ec, LabelKind::EndIf, n);
    let c7 = c6 + ec;
    lemma_good_push_label(c7, LabelKind::EndIf, n, k, nf, n as int, hi);
    assert(c7.push(Instr::Label(LabelKind::EndIf, n)) =~= cond + seq![branch, skip, Instr::Label(LabelKind::IfTrue, n)]
        + tc + seq![out, Instr::Label(LabelKind::Else, n)] + ec + seq![Instr::Label(LabelKind::EndIf, n)]);
}

/// The head of a loop or a conditional agrees with the language.
pub open spec fn head_agrees(
    s: Result<(u64, Seq<InstrV>, Atom, int, ContextV), Msg>,
    r: Result<(u64, Expression), String>,
    j: usize,
    c: ContextV,
) -> bool {
    match (s, r) {
        (Ok((n, cc, a, k, c1)), Ok((m, e))) => m == n && code_view(e.code@) == cc && e.name == a
            && j == k && c == c1,
        (Err(m), Err(e)) => reports(m, e),
        _ => false,
    }
}

/// The head of a loop (`while`) or a conditional (`if`): the keyword, a fresh label
/// number, the test, and the `{` that opens the first block.
fn parse_cond_head(tokens: &Vec<Token>, index: &mut usize, cx: &mut Context, is_while: bool) -> (r: Result<
    (u64, Expression),
    String,
>)
    requires
        *old(index) <= tokens@.len(),
        old(cx).wf(),
    ensures
        *old(index) <= *final(index) <= tokens@.len(),
        final(cx).wf(),
        old(cx).evolves_to(final(cx)),
        final(cx).loops@ == old(cx).loops@,
        r matches Ok((n, e)) ==> n == old(cx).labels && final(cx).labels == n + 1 && *old(index)
            < *final(index) && good(e.code@, final(cx).kinds(), final(cx).nf(), n + 1, n + 1)
            && atom_ok(e.name, final(cx).kinds()),
        head_agrees(
            cond_head_v(
                tokens_view(tokens@),
                *old(index) as int,
                (*old(cx))@,
                if is_while {
                    TokenView::While
                } else {
                    TokenView::If
                },
            ),
            r,
            *final(index),
            (*final(cx))@,
        ),
    decreases tokens@.len() - *old(index), 5nat,
{
    proof {
        lemma_tokens_view(tokens@);
    }
    let ghost c0 = *old(cx);
    let ok = match next_result(tokens, index)? {
        Token::While => is_while,
        Token::If => !is_while,
        _ => false,
    };
    if !ok {
        return fail("expected while or if");
    }
    let n = create_label(cx)?;
    let ghost c1 = *cx;
    let cond = parse_bool_expr(tokens, index, cx)?;
    expect_left_curly(tokens, index, "missing '{' after a test")?;
    proof {
        lemma_evolves_trans(&c0, &c1, cx);
    }
    Ok((n, cond))
}

/// Assembles the code of a loop.
fn assemble_while(n: u64, cond: Expression, body: Vec<Instr>) -> (code: Vec<Instr>)
    ensures
        code@ == seq![Instr::Label(LabelKind::LoopBegin, n)] + cond.code@ + seq![
            Instr::BranchIfn(cond.name, LabelKind::LoopEnd, n),
        ] + body@ + seq![Instr::Jmp(LabelKind::LoopBegin, n), Instr::Label(LabelKind::LoopEnd, n)],
        code_view(code@) == crate::grammar::while_code(n, code_view(cond.code@), cond.name, code_view(body@)),
{
    let ghost cc = cond.code@;
    let ghost bc = body@;
    let mut body = body;
    let mut code: Vec<Instr> = Vec::new();
    code.push(Instr::Label(LabelKind::LoopBegin, n));
    let mut c = cond.code;
    code.append(&mut c);
    code.push(Instr::BranchIfn(cond.name, LabelKind::LoopEnd, n));
    code.append(&mut body);
    code.push(Instr::Jmp(LabelKind::LoopBegin, n));
    code.push(Instr::Label(LabelKind::LoopEnd, n));
    assert(code@ =~= seq![Instr::Label(LabelKind::LoopBegin, n)] + cc + seq![
        Instr::BranchIfn(cond.name, LabelKind::LoopEnd, n),
    ] + bc + seq![Instr::Jmp(LabelKind::LoopBegin, n), Instr::Label(LabelKind::LoopEnd, n)]);
    assert(code_view(code@) =~= crate::grammar::while_code(n, code_view(cc), cond.name, code_view(bc)));
    code
}

/// Assembles the code of a conditional.
fn assemble_if(n: u64, cond: Expression, then_code: Vec<Instr>, else_code: Vec<Instr>) -> (code: Vec<Instr>)
    ensures
        code@ == cond.code@ + seq![
            Instr::BranchIf(cond.name, LabelKind::IfTrue, n),
            Instr::Jmp(LabelKind::Else, n),
            Instr::Label(LabelKind::IfTrue, n),
        ] + then_code@ + seq![Instr::Jmp(LabelKind::EndIf, n), Instr::Label(LabelKind::Else, n)]
            + else_code@ + seq![Instr::Label(LabelKind::EndIf, n)],
        code_view(code@) == crate::grammar::if_code(
            n,
            code_view(cond.code@),
            cond.name,
            code_view(then_code@),
            code_view(else_code@),
        ),
{
    let ghost cc = cond.code@;
    let ghost tc = then_code@;
    let ghost ec = else_code@;
    let mut t = then_code;
    let mut e = else_code;
    let mut code = cond.code;
    code.push(Instr::BranchIf(cond.name, LabelKind::IfTrue, n));
    code.push(Instr::Jmp(LabelKind::Else, n));
    code.push(Instr::Label(LabelKind::IfTrue, n));
    code.append(&mut t);
    code.push(Instr::Jmp(LabelKind::EndIf, n));
    code.push(Instr::Label(LabelKind::Else, n));
    code.append(&mut e);
    code.push(Instr::Label(LabelKind::EndIf, n));
    assert(code@ =~= cc + seq![
        Instr::BranchIf(cond.name, LabelKind::IfTrue, n),
        Instr::Jmp(LabelKind::Else, n),
        Instr::Label(LabelKind::IfTrue, n),
    ] + tc + seq![Instr::Jmp(LabelKind::EndIf, n), Instr::Label(LabelKind::Else, n)] + ec + seq![
        Instr::Label(LabelKind::EndIf, n),
    ]);
    assert(code_view(code@) =~= crate::grammar::if_code(n, code_view(cc), cond.name, code_view(tc), code_view(ec)));
    code
}

/// `while bool_expr { statement* }`: the test, a jump out when it fails, the body,
/// and a jump back to the test.
pub fn parse_while_loop(tokens: &Vec<Token>, index: &mut usize, cx: &mut Context) -> (r: Result<
    Vec<Instr>,
    String,
>)
    requires
        *old(index) <= tokens@.len(),
        old(cx).wf(),
    ensures
        stmt_post(
            tokens@.len(),
            *old(index),
            *final(index),
            old(cx),
            final(cx),
            match r {
                Ok(c) => Ok(Some(c)),
                Err(m) => Err(m),
            },
        ),
        code_agrees(while_v(tokens_view(tokens@), *old(index) as int, (*old(cx))@), r, *final(index), (*final(cx))@),
    decreases tokens@.len() - *old(index), 6nat,
{
    let ghost c0 = *old(cx);
    let (n, cond) = parse_cond_head(tokens, index, cx, true)?;
    let ghost c2 = *cx;
    cx.loops.push(n);
    assert((*cx)@ == with_loops(c2@, c2@.loops.push(n)));
    let body = match parse_block(tokens, index, cx) {
        Ok(b) => b,
        Err(m) => {
            return Err(m);
        },
    };
    let ghost c3 = *cx;
    cx.loops.pop();
    proof {
        assert(cx.loops@ == c0.loops@);
        assert((*cx)@ == with_loops(c3@, c3@.loops.drop_last()));
        lemma_evolves_kinds(&c2, cx);
        let k = cx.kinds();
        lemma_good_mono(cond.code@, c2.kinds(), k, cx.nf(), n + 1, n + 1, n + 1, n + 1);
        lemma_atom_mono(cond.name, c2.kinds(), k);
        lemma_while_good(cond.code@, cond.name, body@, n, k, cx.nf(), cx.labels as int);
        lemma_evolves_trans(&c0, &c2, cx);
    }
    Ok(assemble_while(n, cond, body))
}

/// The `else` part of a conditional: `else { statement* }`, or nothing.
fn parse_else(tokens: &Vec<Token>, index: &mut usize, cx: &mut Context) -> (r: Result<
    Vec<Instr>,
    String,
>)
    requires
        *old(index) <= tokens@.len(),
        old(cx).wf(),
    ensures
        *old(index) <= *final(index) <= tokens@.len(),
        final(cx).wf(),
        old(cx).evolves_to(final(cx)),
        r is Ok ==> final(cx).loops@ == old(cx).loops@,
        r matches Ok(code) ==> good(
            code@,
            final(cx).kinds(),
            final(cx).nf(),
            old(cx).labels as int,
            final(cx).labels as int,
        ),
        code_agrees(crate::grammar::else_v(tokens_view(tokens@), *old(index) as int, (*old(cx))@), r, *final(index), (*final(cx))@),
    decreases tokens@.len() - *old(index), 8nat,
{
    proof {
        lemma_tokens_view(tokens@);
    }
    let has_else = *index < tokens.len() && match &tokens[*index] {
        Token::Else => true,
        _ => false,
    };
    if !has_else {
        let e: Vec<Instr> = Vec::new();
        assert(code_view(e@) =~= Seq::<InstrV>::empty());
        return Ok(e);
    }
    *index = *index + 1;
    expect_left_curly(tokens, index, "missing '{' in else statement")?;
    parse_block(tokens, index, cx)
}

/// `if bool_expr { statement* } (else { statement* })?`: a branch to the first
/// block when the test holds, else a jump to the second, and a jump past it from
/// the end of the first.
pub fn parse_if(tokens: &Vec<Token>, index: &mut usize, cx: &mut Context) -> (r: Result<
    Vec<Instr>,
    String,
>)
    requires
        *old(index) <= tokens@.len(),
        old(cx).wf(),
    ensures
        stmt_post(
            tokens@.len(),
            *old(index),
            *final(index),
            old(cx),
            final(cx),
            match r {
                Ok(c) => Ok(Some(c)),
                Err(m) => Err(m),
            },
        ),
        code_agrees(if_v(tokens_view(tokens@), *old(index) as int, (*old(cx))@), r, *final(index), (*final(cx))@),
    decreases tokens@.len() - *old(index), 6nat,
{
    let ghost c0 = *old(cx);
    let (n, cond) = parse_cond_head(tokens, index, cx, false)?;
    let ghost c2 = *cx;
    let then_code = parse_block(tokens, index, cx)?;
    let ghost c3 = *cx;
    let else_code = parse_else(tokens, index, cx)?;
    proof {
        lemma_evolves_kinds(&c2, &c3);
        lemma_evolves_kinds(&c3, cx);
        lemma_evolves_kinds(&c2, cx);
        let k = cx.kinds();
        lemma_good_mono(cond.code@, c2.kinds(), k, cx.nf(), n + 1, n + 1, n + 1, n + 1);
        lemma_atom_mono(cond.name, c2.kinds(), k);
        lemma_good_mono(then_code@, c3.kinds(), k, cx.nf(), n + 1, c3.labels as int, n + 1, c3.labels as int);
        lemma_if_good(cond.code@, cond.name, then_code@, else_code@, n, k, cx.nf(), c3.labels as int, cx.labels as int);
        lemma_evolves_trans(&c0, &c2, &c3);
        lemma_evolves_trans(&c0, &c3, cx);
    }
    Ok(assemble_if(n, cond, then_code, else_code))
}

/// A function parser's result agrees with the language.
pub open spec fn function_agrees(
    s: Result<(Option<crate::ir::FunctionV>, int, ContextV), Msg>,
    r: Result<Option<Function>, String>,
    j: usize,
    c: ContextV,
) -> bool {
    match (s, r) {
        (Ok((None, k, c1)), Ok(None)) => j == k && c == c1,
        (Ok((Some(fv), k, c1)), Ok(Some(f))) => f@ == fv && j == k && c == c1,
        (Err(m), Err(e)) => reports(m, e),
        _ => false,
    }
}

/// A program parser's result agrees with the language.
pub open spec fn program_agrees(s: Result<Seq<crate::ir::FunctionV>, Msg>, r: Result<Program, String>) -> bool {
    match (s, r) {
        (Ok(fs), Ok(p)) => functions_view(p.functions@) == fs,
        (Err(m), Err(e)) => reports(m, e),
        _ => false,
    }
}

/// The name of the function whose definition starts at `i`.
pub open spec fn function_name_at(tokens: Seq<Token>, i: int) -> Option<Seq<char>> {
    if 0 <= i && i + 1 < tokens.len() && tokens[i] is Func {
        match tokens[i + 1] {
            Token::Ident(x) => Some(x@),
            _ => None,
        }
    } else {
        None
    }
}

/// The parameter list after `(`: nothing but `)`, or `int` names separated by `,`
/// up to `)`. Each parameter is declared as a scalar; the result is their number.
fn parse_params(tokens: &Vec<Token>, index: &mut usize, cx: &mut Context) -> (r: Result<usize, String>)
    requires
        *old(index) <= tokens@.len(),
        old(cx).wf(),
        old(cx).vars@.len() == 0,
        old(cx).loops@.len() == 0,
    ensures
        *old(index) <= *final(index) <= tokens@.len(),
        final(cx).wf(),
        old(cx).evolves_to(final(cx)),
        final(cx).loops@.len() == 0,
        final(cx).labels == old(cx).labels,
        final(cx).temps == old(cx).temps,
        r matches Ok(n) ==> *old(index) < *final(index) && n == final(cx).vars@.len() && forall|i: int|
            0 <= i < n ==> !(#[trigger] final(cx).vars@[i]).is_array,
        match (
            if at(tokens_view(tokens@), *old(index) as int, TokenView::RightParen) {
                Ok((*old(index) + 1, (*old(cx))@))
            } else {
                params_v(tokens_view(tokens@), *old(index) as int, (*old(cx))@)
            },
            r,
        ) {
            (Ok((j, c)), Ok(_)) => *final(index) == j && (*final(cx))@ == c,
            (Err(m), Err(e)) => reports(m, e),
            _ => false,
        },
{
    proof {
        lemma_tokens_view(tokens@);
    }
    let ghost c1 = *old(cx);
    let ghost i0 = *old(index);
    if *index >= tokens.len() {
        return fail("expected ')' in function");
    }
    let empty = match &tokens[*index] {
        Token::RightParen => true,
        _ => false,
    };
    let mut params: usize = 0;
    if empty {
        *index = *index + 1;
        return Ok(0);
    }
    assert(!at(tokens_view(tokens@), i0 as int, TokenView::RightParen));
    loop
        invariant_except_break
            params_v(tokens_view(tokens@), i0 as int, c1@) == params_v(tokens_view(tokens@), *index as int, (*cx)@),
        invariant
            i0 == *old(index),
            c1 == *old(cx),
            !at(tokens_view(tokens@), i0 as int, TokenView::RightParen),
            i0 <= *index <= tokens@.len(),
            cx.wf(),
            c1.evolves_to(cx),
            cx.loops@.len() == 0,
            cx.labels == c1.labels,
            cx.temps == c1.temps,
            params == cx.vars@.len(),
            forall|i: int| 0 <= i < params ==> !(#[trigger] cx.vars@[i]).is_array,
        ensures
            params_v(tokens_view(tokens@), i0 as int, c1@) == Ok::<_, Msg>((*index as int, (*cx)@)),
            i0 < *index <= tokens@.len(),
            cx.wf(),
            c1.evolves_to(cx),
            cx.loops@.len() == 0,
            cx.labels == c1.labels,
            cx.temps == c1.temps,
            params == cx.vars@.len(),
            forall|i: int| 0 <= i < params ==> !(#[trigger] cx.vars@[i]).is_array,
        decreases tokens@.len() - *index,
    {
        proof {
            lemma_tokens_view(tokens@);
        }
        match next_result(tokens, index)? {
            Token::Int => {},
            _ => {
                return fail("parameters must be declared as int");
            },
        }
        let p = match next_result(tokens, index)? {
            Token::Ident(id) => chars_of_string(id),
            _ => {
                return fail("expected a parameter name");
            },
        };
        let ghost k1 = cx.kinds();
        let x = declare(cx, p, false)?;
        proof {
            assert forall|i: int| 0 <= i < params + 1 implies !(#[trigger] cx.vars@[i]).is_array by {
                assert(i < cx.vars@.len());
                assert(cx.kinds()[i] == cx.vars@[i].is_array);
                if i < params {
                    assert(k1[i] == cx.vars@[i].is_array);
                }
            }
        }
        params = cx.vars.len();
        match next_result(tokens, index)? {
            Token::Comma => {},
            Token::RightParen => {
                break ;
            },
            _ => {
                return fail("expected ',' or ')' after a parameter");
            },
        }
    }
    Ok(params)
}

/// `function := 'func' Ident '(' (int Ident (',' int Ident)*)? ')' '{' statement* '}'`.
/// Nothing at the end of the tokens; a name that a function already has is refused.
#[verifier::rlimit(100)]
pub fn parse_function(tokens: &Vec<Token>, index: &mut usize, cx: &mut Context) -> (r: Result<
    Option<Function>,
    String,
>)
    requires
        *old(index) <= tokens@.len(),
        old(cx).wf(),
    ensures
        *old(index) <= *final(index) <= tokens@.len(),
        final(cx).wf(),
        old(cx).labels <= final(cx).labels,
        old(cx).temps <= final(cx).temps,
        match r {
            Ok(None) => *old(index) == tokens@.len() && final(cx).functions@ == old(cx).functions@,
            Ok(Some(f)) => {
                &&& *old(index) < *final(index)
                &&& final(cx).functions@.len() == old(cx).functions@.len() + 1
                &&& forall|i: int|
                    0 <= i < old(cx).functions@.len() ==> final(cx).functions@[i]
                        == old(cx).functions@[i]
                &&& final(cx).functions@.last()@ == f.name@
                &&& function_ok(f, final(cx).nf())
                &&& labels_within(f.body@, old(cx).labels as int, final(cx).labels as int)
                &&& function_name_at(tokens@, *old(index) as int) == Some(f.name@)
            },
            Err(_) => true,
        },
        function_name_at(tokens@, *old(index) as int) matches Some(x) ==> ((exists|g: int|
            0 <= g < old(cx).functions@.len() && (#[trigger] old(cx).functions@[g])@ == x) ==> error_is(
            r,
            "Error. found a duplicate function "@ + x,
        )),
        function_agrees(function_v(tokens_view(tokens@), *old(index) as int, (*old(cx))@), r, *final(index), (*final(cx))@),
{
    proof {
        lemma_tokens_view(tokens@);
    }
    let ghost c0 = *old(cx);
    let ghost i0 = *old(index);
    match next(tokens, index) {
        None => {
            return Ok(None);
        },
        Some(Token::Func) => {},
        Some(_) => {
            return fail("functions must begin with func");
        },
    }
    let name = match next_result(tokens, index)? {
        Token::Ident(id) => chars_of_string(id),
        _ => {
            return fail("functions must have a function identifier");
        },
    };
    if find_symbol(&cx.functions, &name) {
        return Err(message("Error. found a duplicate function ", &name));
    }
    let ghost nm = name@;
    assert(function_name_at(tokens@, i0 as int) == Some(nm));
    cx.vars = Vec::new();
    cx.loops = Vec::new();
    let ghost before = cx.functions@;
    cx.functions.push(name.clone());
    proof {
        assert(cx.functions@.last()@ == name@);
        assert forall|f: int, g: int|
            0 <= f < cx.functions@.len() && 0 <= g < cx.functions@.len() && f != g implies (
            #[trigger] cx.functions@[f])@ != (#[trigger] cx.functions@[g])@ by {
            if f < before.len() && g < before.len() {
                assert(cx.functions@[f] == before[f]);
                assert(cx.functions@[g] == before[g]);
            } else if f < before.len() {
                assert(cx.functions@[f] == before[f]);
            } else {
                assert(cx.functions@[g] == before[g]);
            }
        }
    }
    let ghost c1 = *cx;
    proof {
        assert(names_view(cx.functions@) =~= names_view(before).push(nm));
        assert(vars_view(cx.vars@) =~= Seq::<crate::ir::VarV>::empty());
        assert(c1@ == ContextV {
            functions: c0@.functions.push(nm),
            vars: seq![],
            loops: seq![],
            temps: c0.temps,
            labels: c0.labels,
        });
    }
    match next_result(tokens, index)? {
        Token::LeftParen => {},
        _ => {
            return fail("expected '(' in function");
        },
    }
    let params = parse_params(tokens, index, cx)?;
    expect_left_curly(tokens, index, "expected '{' in function")?;
    let ghost c2 = *cx;
    let body = parse_block(tokens, index, cx)?;
    let ghost c3 = *cx;
    let mut vars: Vec<Var> = Vec::new();
    core::mem::swap(&mut vars, &mut cx.vars);
    cx.loops = Vec::new();
    proof {
        assert(vars_view(cx.vars@) =~= Seq::<crate::ir::VarV>::empty());
    }
    let f = Function { name, params, vars, body };
    proof {
        assert forall|i: int| 0 <= i < params implies !(#[trigger] f.vars@[i]).is_array by {
            assert(f.vars@[i] == c2.vars@[i]);
        }
        assert(cx.functions@ == c1.functions@);
    }
    Ok(Some(f))
}

/// `program := function*`: the code of every function, in order; the program must
/// define `main`.
pub fn parse_program(tokens: &Vec<Token>, index: &mut usize) -> (r: Result<Program, String>)
    requires
        *old(index) <= tokens@.len(),
    ensures
        r matches Ok(p) ==> program_ok(p) && *final(index) == tokens@.len(),
        program_agrees(program_v(tokens_view(tokens@), *old(index) as int, empty_context(), seq![]), r),
{
    let ghost i0 = *old(index);
    let mut cx = Context::new();
    let mut functions: Vec<Function> = Vec::new();
    assert(functions_view(functions@) =~= Seq::<crate::ir::FunctionV>::empty());
    loop
        invariant
            i0 == *old(index),
            program_v(tokens_view(tokens@), i0 as int, empty_context(), seq![]) == program_v(
                tokens_view(tokens@),
                *index as int,
                cx@,
                functions_view(functions@),
            ),
            *index <= tokens@.len(),
            cx.wf(),
            functions@.len() == cx.functions@.len(),
            forall|i: int| 0 <= i < functions@.len() ==> (#[trigger] functions@[i]).name@ == cx.functions@[i]@,
            forall|i: int| 0 <= i < functions@.len() ==> function_ok(#[trigger] functions@[i], cx.nf()),
            forall|i: int| 0 <= i < functions@.len() ==> labels_within(#[trigger] functions@[i].body@, 0, cx.labels as int),
            labels_apart(functions@),
        ensures
            program_v(tokens_view(tokens@), i0 as int, empty_context(), seq![]) == (if main_ok(
                functions_view(functions@),
            ) {
                Ok(functions_view(functions@))
            } else {
                Err(None::<Seq<char>>)
            }),
            *index == tokens@.len(),
            cx.wf(),
            functions@.len() == cx.functions@.len(),
            forall|i: int| 0 <= i < functions@.len() ==> (#[trigger] functions@[i]).name@ == cx.functions@[i]@,
            forall|i: int| 0 <= i < functions@.len() ==> function_ok(#[trigger] functions@[i], cx.nf()),
            labels_apart(functions@),
        decreases tokens@.len() - *index,
    {
        let ghost c0 = cx;
        let ghost fs0 = functions@;
        let ghost j0 = *index;
        match parse_function(tokens, index, &mut cx)? {
            None => {
                break ;
            },
            Some(f) => {
                proof {
                    let nf = cx.nf();
                    assert forall|i: int| 0 <= i < fs0.len() implies function_ok(#[trigger] fs0[i], nf) by {
                        lemma_code_ok_nf(fs0[i].body@, kinds_of(fs0[i].vars@), c0.nf(), nf);
                    }
                }
                let ghost fv = f@;
                functions.push(f);
                proof {
                    assert(functions_view(functions@) =~= functions_view(fs0).push(fv));
                    let fs = functions@;
                    let lo = c0.labels as int;
                    assert(fs[fs0.len() as int] == f);
                    assert forall|i: int| 0 <= i < fs.len() implies (#[trigger] fs[i]).name@ == cx.functions@[i]@ by {
                        if i < fs0.len() {
                            assert(fs[i] == fs0[i]);
                        }
                    }
                    assert forall|i: int| 0 <= i < fs.len() implies function_ok(#[trigger] fs[i], cx.nf()) by {
                        if i < fs0.len() {
                            assert(fs[i] == fs0[i]);
                        }
                    }
                    assert forall|i: int| 0 <= i < fs.len() implies labels_within(#[trigger] fs[i].body@, 0, cx.labels as int) by {
                        if i < fs0.len() {
                            assert(fs[i] == fs0[i]);
                            assert(labels_within(fs0[i].body@, 0, lo));
                        }
                    }
                    assert forall|i: int, j: int, a: int, b: int|
                        0 <= i < fs.len() && 0 <= j < fs.len() && i != j && 0 <= a < fs[i].body@.len() && 0 <= b
                            < fs[j].body@.len() && (#[trigger] label_of(fs[i].body@[a])) is Some implies label_of(
                            fs[i].body@[a],
                        ) != #[trigger] label_of(fs[j].body@[b]) by {
                        if i < fs0.len() && j < fs0.len() {
                            assert(fs[i] == fs0[i]);
                            assert(fs[j] == fs0[j]);
                        } else if i < fs0.len() {
                            assert(fs[i] == fs0[i]);
                            assert(labels_within(fs0[i].body@, 0, lo));
                            assert(label_of(fs0[i].body@[a]) is Some);
                            if label_of(fs[j].body@[b]) is Some {
                                assert(label_of(f.body@[b]) is Some);
                            }
                        } else {
                            assert(fs[j] == fs0[j]);
                            assert(labels_within(fs0[j].body@, 0, lo));
                            assert(label_of(f.body@[a]) is Some);
                            if label_of(fs[j].body@[b]) is Some {
                                assert(label_of(fs0[j].body@[b]) is Some);
                            }
                        }
                    }
                }
            },
        }
    }
    let k = match main_index(&functions) {
        Some(k) => k,
        None => {
            let main = chars_of("main");
            if find_symbol(&cx.functions, &main) {
                return fail("Error. main must not have parameters");
            }
            return fail("Error. no main function defined");
        },
    };
    proof {
        assert(functions@[k as int].name@ == "main"@);
        assert(functions_view(functions@)[k as int] == functions@[k as int]@);
        assert(main_ok(functions_view(functions@)));
        let fs = functions@;
        assert forall|i: int, j: int|
            0 <= i < fs.len() && 0 <= j < fs.len() && i != j implies (#[trigger] fs[i]).name@ != (
            #[trigger] fs[j]).name@ by {
            assert(cx.functions@[i]@ != cx.functions@[j]@);
        }
    }
    Ok(Program { functions })
}

/// Where the function named `main` with no parameters stands.
fn main_index(functions: &Vec<Function>) -> (r: Option<usize>)
    ensures
        match r {
            Some(k) => k < functions@.len() && functions@[k as int].name@ == "main"@
                && functions@[k as int].params == 0,
            None => !main_ok(functions_view(functions@)),
        },
{
    let mut k: usize = 0;
    while k < functions.len()
        invariant
            k <= functions@.len(),
            forall|m: int|
                0 <= m < k ==> !((#[trigger] functions@[m]).name@ == "main"@ && functions@[m].params == 0),
        decreases functions.len() - k,
    {
        if same_chars(&functions[k].name, "main") && functions[k].params == 0 {
            return Some(k);
        }
        k = k + 1;
    }
    proof {
        let fv = functions_view(functions@);
        assert forall|m: int| 0 <= m < fv.len() implies !((#[trigger] fv[m]).name == "main"@ && fv[m].params == 0) by {
            assert(fv[m] == functions@[m]@);
        }
    }
    None
}

/// Scans and parses source text into a program.
pub fn compile(source: &str) -> (r: Result<Program, String>)
    ensures
        r matches Ok(p) ==> program_ok(p) && scan(source@) is Ok,
        scan(source@) matches Err(m) ==> error_is(r, m),
        scan(source@) matches Ok(ts) ==> program_agrees(compiled(ts), r),
{
    let tokens = match lex(source) {
        Ok(t) => t,
        Err(m) => {
            return Err(m);
        },
    };
    let mut index: usize = 0;
    parse_program(&tokens, &mut index)
}

} // verus!
