//! The language as mathematical functions: what each parser function gives for a
//! sequence of tokens from a position and a context, or nothing for an error.
use vstd::prelude::*;
use crate::ir::{ArithOp, Atom, CmpOp, FunctionV, InstrV, LabelKind, NameV, Operand, VarV};
use crate::token::TokenView;

verus! {

/// What the parser knows, as a mathematical value: the names of the functions
/// defined so far, the variables of the current function, the numbers of the
/// enclosing loops, and the counters of temporaries and labels.
pub struct ContextV {
    pub functions: Seq<Seq<char>>,
    pub vars: Seq<VarV>,
    pub loops: Seq<u64>,
    pub temps: u64,
    pub labels: u64,
}

/// The context at the start of a compilation.
pub open spec fn empty_context() -> ContextV {
    ContextV { functions: seq![], vars: seq![], loops: seq![], temps: 0, labels: 0 }
}

/// Token `t` stands at position `i`.
pub open spec fn at(ts: Seq<TokenView>, i: int, t: TokenView) -> bool {
    0 <= i < ts.len() && ts[i] == t
}

/// The first slot from `k` on that is declared as `x`.
pub open spec fn first_var(vars: Seq<VarV>, x: Seq<char>, k: int) -> Option<usize>
    decreases vars.len() - k,
{
    if 0 <= k < vars.len() {
        if vars[k].name == NameV::User(x) {
            Some(k as usize)
        } else {
            first_var(vars, x, k + 1)
        }
    } else {
        None
    }
}

/// The first position from `k` on of the name `x`.
pub open spec fn first_fn(fs: Seq<Seq<char>>, x: Seq<char>, k: int) -> Option<usize>
    decreases fs.len() - k,
{
    if 0 <= k < fs.len() {
        if fs[k] == x {
            Some(k as usize)
        } else {
            first_fn(fs, x, k + 1)
        }
    } else {
        None
    }
}

/// The context with one more temporary, a scalar named by the counter.
pub open spec fn with_temp(c: ContextV) -> ContextV {
    ContextV {
        functions: c.functions,
        vars: c.vars.push(VarV { name: NameV::Temp(c.temps), is_array: false }),
        loops: c.loops,
        temps: (c.temps + 1) as u64,
        labels: c.labels,
    }
}

/// The context with variable `x` declared, where no variable or function has its name.
pub open spec fn with_var(c: ContextV, x: Seq<char>, is_array: bool) -> Option<ContextV> {
    if first_var(c.vars, x, 0) is None && first_fn(c.functions, x, 0) is None {
        Some(
            ContextV {
                functions: c.functions,
                vars: c.vars.push(VarV { name: NameV::User(x), is_array }),
                loops: c.loops,
                temps: c.temps,
                labels: c.labels,
            },
        )
    } else {
        None
    }
}

pub open spec fn with_labels(c: ContextV, labels: u64) -> ContextV {
    ContextV { functions: c.functions, vars: c.vars, loops: c.loops, temps: c.temps, labels }
}

pub open spec fn with_loops(c: ContextV, loops: Seq<u64>) -> ContextV {
    ContextV { functions: c.functions, vars: c.vars, loops, temps: c.temps, labels: c.labels }
}

/// An expression: its code, the atom that holds its value, the position after it,
/// and the context after it.
/// Why a parse fails: the message, where the language fixes one.
pub type Msg = Option<Seq<char>>;

pub type ExprV = Result<(Seq<InstrV>, Atom, int, ContextV), Msg>;

/// The comparison of a comparator token.
pub open spec fn cmp_of(t: TokenView) -> Option<CmpOp> {
    match t {
        TokenView::Less => Some(CmpOp::Lt),
        TokenView::Greater => Some(CmpOp::Gt),
        TokenView::LessEqual => Some(CmpOp::Le),
        TokenView::GreaterEqual => Some(CmpOp::Ge),
        TokenView::Equality => Some(CmpOp::Eq),
        TokenView::NotEqual => Some(CmpOp::Neq),
        _ => None,
    }
}

/// The additive operator of a token.
pub open spec fn add_op(t: TokenView) -> Option<ArithOp> {
    match t {
        TokenView::Plus => Some(ArithOp::Add),
        TokenView::Subtract => Some(ArithOp::Sub),
        _ => None,
    }
}

/// The multiplicative operator of a token.
pub open spec fn mul_op(t: TokenView) -> Option<ArithOp> {
    match t {
        TokenView::Multiply => Some(ArithOp::Mult),
        TokenView::Divide => Some(ArithOp::Div),
        TokenView::Modulus => Some(ArithOp::Mod),
        _ => None,
    }
}

/// The code of a binary operation into a fresh temporary: the left operand's code, the
/// temporary's declaration, the right operand's code, then the operation.
pub open spec fn binary(left: Seq<InstrV>, t: usize, right: Seq<InstrV>, last: InstrV) -> Seq<InstrV> {
    left + seq![InstrV::Int(t)] + right + seq![last]
}

/// `term := Num | '(' expression ')' | Ident ('[' expression ']' | '(' arguments ')')?`
/// A scalar is read bare, an array only through an index, and a function only by a
/// call.
pub open spec fn term_v(ts: Seq<TokenView>, i: int, c: ContextV) -> ExprV
    decreases ts.len() - i, 1nat,
{
    if !(0 <= i < ts.len()) {
        Err(None)
    } else {
        match ts[i] {
            TokenView::Num(n) => Ok((seq![], Atom::Lit(n), i + 1, c)),
            TokenView::LeftParen => match expr_v(ts, i + 1, c) {
                Ok((code, a, j, c1)) => if i < j && at(ts, j, TokenView::RightParen) {
                    Ok((code, a, j + 1, c1))
                } else {
                    Err(None)
                },
                Err(e) => Err(e),
            },
            TokenView::Ident(x) => match first_var(c.vars, x, 0) {
                Some(slot) => {
                    let bracket = at(ts, i + 1, TokenView::LeftBracket);
                    if !c.vars[slot as int].is_array {
                        if bracket || at(ts, i + 1, TokenView::LeftParen) {
                            Err(None)
                        } else {
                            Ok((seq![], Atom::Var(slot), i + 1, c))
                        }
                    } else if !bracket {
                        Err(None)
                    } else {
                        match expr_v(ts, i + 2, c) {
                            Ok((code, a, j, c1)) => if i < j && at(ts, j, TokenView::RightBracket)
                                && c1.temps < u64::MAX {
                                let t = c1.vars.len() as usize;
                                Ok(
                                    (
                                        code + seq![
                                            InstrV::Int(t),
                                            InstrV::Mov(
                                                Operand::Atom(Atom::Var(t)),
                                                Operand::Elem(slot, a),
                                            ),
                                        ],
                                        Atom::Var(t),
                                        j + 1,
                                        with_temp(c1),
                                    ),
                                )
                            } else {
                                Err(None)
                            },
                            Err(e) => Err(e),
                        }
                    }
                },
                None => match first_fn(c.functions, x, 0) {
                    Some(f) => if at(ts, i + 1, TokenView::LeftParen) && i + 2 < ts.len() {
                        let call = if ts[i + 2] == TokenView::RightParen {
                            Ok((Seq::<InstrV>::empty(), Seq::<Atom>::empty(), i + 3, c))
                        } else {
                            args_v(ts, i + 2, c, seq![], seq![])
                        };
                        match call {
                            Ok((code, args, j, c1)) => if c1.temps < u64::MAX {
                                let t = c1.vars.len() as usize;
                                Ok(
                                    (
                                        code + seq![InstrV::Int(t), InstrV::Call(t, f, args)],
                                        Atom::Var(t),
                                        j,
                                        with_temp(c1),
                                    ),
                                )
                            } else {
                                Err(None)
                            },
                            Err(e) => Err(e),
                        }
                    } else {
                        Err(None)
                    },
                    None => Err(Some("Error. undeclared var or function: "@ + x)),
                },
            },
            _ => Err(None),
        }
    }
}

/// The arguments of a call from `j`, up to and past the closing `)`, after the code
/// and the atoms of the arguments before them.
pub open spec fn args_v(
    ts: Seq<TokenView>,
    j: int,
    c: ContextV,
    code: Seq<InstrV>,
    args: Seq<Atom>,
) -> Result<(Seq<InstrV>, Seq<Atom>, int, ContextV), Msg>
    decreases ts.len() - j, 4nat,
{
    if !(0 <= j <= ts.len()) {
        Err(None)
    } else {
        match expr_v(ts, j, c) {
            Ok((ec, a, k, c1)) => if j < k < ts.len() {
                if ts[k] == TokenView::Comma {
                    args_v(ts, k + 1, c1, code + ec, args.push(a))
                } else if ts[k] == TokenView::RightParen {
                    Ok((code + ec, args.push(a), k + 1, c1))
                } else {
                    Err(None)
                }
            } else {
                Err(None)
            },
            Err(e) => Err(e),
        }
    }
}

/// `mult_expr := term (('*' | '/' | '%') term)*`
pub open spec fn mult_v(ts: Seq<TokenView>, i: int, c: ContextV) -> ExprV
    decreases ts.len() - i, 2nat,
{
    if !(0 <= i <= ts.len()) {
        Err(None)
    } else {
        match term_v(ts, i, c) {
            Ok((code, a, j, c1)) => if i < j <= ts.len() {
                mult_rest_v(ts, j, c1, code, a)
            } else {
                Err(None)
            },
            Err(e) => Err(e),
        }
    }
}

/// The rest of a `mult_expr` from `j`, after the code and the atom of what came before.
pub open spec fn mult_rest_v(ts: Seq<TokenView>, j: int, c: ContextV, code: Seq<InstrV>, a: Atom) -> ExprV
    decreases ts.len() - j, 2nat,
{
    if !(0 <= j <= ts.len()) {
        Err(None)
    } else if j < ts.len() && mul_op(ts[j]) is Some {
        match term_v(ts, j + 1, c) {
            Ok((mc, b, k, c1)) => if j < k <= ts.len() && c1.temps < u64::MAX {
                let t = c1.vars.len() as usize;
                mult_rest_v(
                    ts,
                    k,
                    with_temp(c1),
                    binary(code, t, mc, InstrV::Arith(mul_op(ts[j])->0, t, a, b)),
                    Atom::Var(t),
                )
            } else {
                Err(None)
            },
            Err(e) => Err(e),
        }
    } else {
        Ok((code, a, j, c))
    }
}

/// `expression := mult_expr (('+' | '-') mult_expr)*`
pub open spec fn expr_v(ts: Seq<TokenView>, i: int, c: ContextV) -> ExprV
    decreases ts.len() - i, 3nat,
{
    if !(0 <= i <= ts.len()) {
        Err(None)
    } else {
        match mult_v(ts, i, c) {
            Ok((code, a, j, c1)) => if i < j <= ts.len() {
                expr_rest_v(ts, j, c1, code, a)
            } else {
                Err(None)
            },
            Err(e) => Err(e),
        }
    }
}

/// The rest of an `expression` from `j`, after the code and the atom of what came before.
pub open spec fn expr_rest_v(ts: Seq<TokenView>, j: int, c: ContextV, code: Seq<InstrV>, a: Atom) -> ExprV
    decreases ts.len() - j, 3nat,
{
    if !(0 <= j <= ts.len()) {
        Err(None)
    } else if j < ts.len() && add_op(ts[j]) is Some {
        match mult_v(ts, j + 1, c) {
            Ok((mc, b, k, c1)) => if j < k <= ts.len() && c1.temps < u64::MAX {
                let t = c1.vars.len() as usize;
                expr_rest_v(
                    ts,
                    k,
                    with_temp(c1),
                    binary(code, t, mc, InstrV::Arith(add_op(ts[j])->0, t, a, b)),
                    Atom::Var(t),
                )
            } else {
                Err(None)
            },
            Err(e) => Err(e),
        }
    } else {
        Ok((code, a, j, c))
    }
}

/// `bool_expr := expression cmp_op expression`
pub open spec fn bool_v(ts: Seq<TokenView>, i: int, c: ContextV) -> ExprV
    decreases ts.len() - i, 4nat,
{
    if !(0 <= i <= ts.len()) {
        Err(None)
    } else {
        match expr_v(ts, i, c) {
            Ok((code, a, j, c1)) => if i < j < ts.len() && cmp_of(ts[j]) is Some {
                match expr_v(ts, j + 1, c1) {
                    Ok((code2, b, k, c2)) => if c2.temps < u64::MAX {
                        let t = c2.vars.len() as usize;
                        Ok(
                            (
                                binary(code, t, code2, InstrV::Cmp(cmp_of(ts[j])->0, t, a, b)),
                                Atom::Var(t),
                                k,
                                with_temp(c2),
                            ),
                        )
                    } else {
                        Err(None)
                    },
                    Err(e) => Err(e),
                }
            } else {
                Err(None)
            },
            Err(e) => Err(e),
        }
    }
}

/// `lvalue := Ident ('[' expression ']')?`: its code, the location, the position
/// after it and the context after it.
pub open spec fn var_v(ts: Seq<TokenView>, i: int, c: ContextV) -> Result<
    (Seq<InstrV>, Operand, int, ContextV),
    Msg,
>
    decreases ts.len() - i, 4nat,
{
    if !(0 <= i < ts.len()) {
        Err(None)
    } else {
        match ts[i] {
            TokenView::Ident(x) => match first_var(c.vars, x, 0) {
                Some(slot) => {
                    let bracket = at(ts, i + 1, TokenView::LeftBracket);
                    if !c.vars[slot as int].is_array {
                        if bracket {
                            Err(None)
                        } else {
                            Ok((seq![], Operand::Atom(Atom::Var(slot)), i + 1, c))
                        }
                    } else if !bracket {
                        Err(None)
                    } else {
                        match expr_v(ts, i + 2, c) {
                            Ok((code, a, j, c1)) => if i < j && at(ts, j, TokenView::RightBracket) {
                                Ok((code, Operand::Elem(slot, a), j + 1, c1))
                            } else {
                                Err(None)
                            },
                            Err(e) => Err(e),
                        }
                    }
                },
                None => Err(Some("Error. undeclared var: "@ + x)),
            },
            _ => Err(None),
        }
    }
}

/// `decl := 'int' ('[' Num ']')? Ident`: the declaration's instruction, the position
/// after it and the context with the variable.
pub open spec fn decl_v(ts: Seq<TokenView>, i: int, c: ContextV) -> Result<(InstrV, int, ContextV), Msg> {
    if 0 <= i && i + 1 < ts.len() && ts[i] == TokenView::Int {
        match ts[i + 1] {
            TokenView::Ident(x) => match with_var(c, x, false) {
                Some(c1) => Ok((InstrV::Int(c.vars.len() as usize), i + 2, c1)),
                None => Err(None),
            },
            TokenView::LeftBracket => if i + 4 < ts.len() && ts[i + 3] == TokenView::RightBracket {
                match (ts[i + 2], ts[i + 4]) {
                    (TokenView::Num(n), TokenView::Ident(x)) => if n > 0 {
                        match with_var(c, x, true) {
                            Some(c1) => Ok((InstrV::IntArray(c.vars.len() as usize, n), i + 5, c1)),
                            None => Err(None),
                        }
                    } else {
                        Err(None)
                    },
                    _ => Err(None),
                }
            } else {
                Err(None)
            },
            _ => Err(None),
        }
    } else {
        Err(None)
    }
}

/// A statement: its code (nothing at `}` or at the end), the position after it and the
/// context after it.
pub type StmtV = Result<(Option<Seq<InstrV>>, int, ContextV), Msg>;

/// `statement`, with the code of each form.
pub open spec fn stmt_v(ts: Seq<TokenView>, i: int, c: ContextV) -> StmtV
    decreases ts.len() - i, 7nat,
{
    if !(0 <= i <= ts.len()) {
        Err(None)
    } else if i == ts.len() {
        Ok((None, i, c))
    } else {
        match ts[i] {
            TokenView::RightCurly => Ok((None, i, c)),
            TokenView::Int => match decl_v(ts, i, c) {
                Ok((d, j, c1)) => if at(ts, j, TokenView::Semicolon) {
                    Ok((Some(seq![d]), j + 1, c1))
                } else {
                    Err(None)
                },
                Err(e) => Err(e),
            },
            TokenView::Ident(_) => match var_v(ts, i, c) {
                Ok((vc, place, j, c1)) => if i < j && at(ts, j, TokenView::Assign) {
                    match expr_v(ts, j + 1, c1) {
                        Ok((ec, a, k, c2)) => if at(ts, k, TokenView::Semicolon) {
                            Ok((Some(vc + ec + seq![InstrV::Mov(place, Operand::Atom(a))]), k + 1, c2))
                        } else {
                            Err(None)
                        },
                        Err(e) => Err(e),
                    }
                } else {
                    Err(None)
                },
                Err(e) => Err(e),
            },
            TokenView::Return => match expr_v(ts, i + 1, c) {
                Ok((ec, a, k, c1)) => if at(ts, k, TokenView::Semicolon) {
                    Ok((Some(ec + seq![InstrV::Ret(a)]), k + 1, c1))
                } else {
                    Err(None)
                },
                Err(e) => Err(e),
            },
            TokenView::Print => if at(ts, i + 1, TokenView::LeftParen) {
                match expr_v(ts, i + 2, c) {
                    Ok((ec, a, k, c1)) => if at(ts, k, TokenView::RightParen) && at(
                        ts,
                        k + 1,
                        TokenView::Semicolon,
                    ) {
                        Ok((Some(ec + seq![InstrV::Out(a)]), k + 2, c1))
                    } else {
                        Err(None)
                    },
                    Err(e) => Err(e),
                }
            } else {
                Err(None)
            },
            TokenView::Read => if at(ts, i + 1, TokenView::LeftParen) {
                match var_v(ts, i + 2, c) {
                    Ok((vc, place, k, c1)) => if at(ts, k, TokenView::RightParen) && at(
                        ts,
                        k + 1,
                        TokenView::Semicolon,
                    ) {
                        Ok((Some(vc + seq![InstrV::Input(place)]), k + 2, c1))
                    } else {
                        Err(None)
                    },
                    Err(e) => Err(e),
                }
            } else {
                Err(None)
            },
            TokenView::Break => if c.loops.len() > 0 && at(ts, i + 1, TokenView::Semicolon) {
                Ok((Some(seq![InstrV::Jmp(LabelKind::LoopEnd, c.loops.last())]), i + 2, c))
            } else {
                Err(None)
            },
            TokenView::Continue => if c.loops.len() > 0 && at(ts, i + 1, TokenView::Semicolon) {
                Ok((Some(seq![InstrV::Jmp(LabelKind::LoopBegin, c.loops.last())]), i + 2, c))
            } else {
                Err(None)
            },
            TokenView::While => match while_v(ts, i, c) {
                Ok((code, j, c1)) => Ok((Some(code), j, c1)),
                Err(e) => Err(e),
            },
            TokenView::If => match if_v(ts, i, c) {
                Ok((code, j, c1)) => Ok((Some(code), j, c1)),
                Err(e) => Err(e),
            },
            _ => Err(None),
        }
    }
}

/// The statements from `i` up to and past the closing `}`, after the code before them.
pub open spec fn block_rest_v(ts: Seq<TokenView>, i: int, c: ContextV, code: Seq<InstrV>) -> Result<
    (Seq<InstrV>, int, ContextV),
    Msg,
>
    decreases ts.len() - i, 8nat,
{
    if !(0 <= i <= ts.len()) {
        Err(None)
    } else {
        match stmt_v(ts, i, c) {
            Ok((None, j, c1)) => if at(ts, j, TokenView::RightCurly) {
                Ok((code, j + 1, c1))
            } else {
                Err(None)
            },
            Ok((Some(s), j, c1)) => if i < j <= ts.len() {
                block_rest_v(ts, j, c1, code + s)
            } else {
                Err(None)
            },
            Err(e) => Err(e),
        }
    }
}

/// `statement* '}'`: the code of the statements in order.
pub open spec fn block_v(ts: Seq<TokenView>, i: int, c: ContextV) -> Result<(Seq<InstrV>, int, ContextV), Msg>
    decreases ts.len() - i, 9nat,
{
    block_rest_v(ts, i, c, seq![])
}

/// The head of a loop or a conditional that starts with keyword `kw`: the number of
/// its labels, the code and the atom of its test, the position after the `{`, and
/// the context after the test.
pub open spec fn cond_head_v(ts: Seq<TokenView>, i: int, c: ContextV, kw: TokenView) -> Result<
    (u64, Seq<InstrV>, Atom, int, ContextV),
    Msg,
>
    decreases ts.len() - i, 5nat,
{
    if at(ts, i, kw) && c.labels < u64::MAX {
        let n = c.labels;
        match bool_v(ts, i + 1, with_labels(c, (n + 1) as u64)) {
            Ok((cc, a, j, c2)) => if i < j && at(ts, j, TokenView::LeftCurly) {
                Ok((n, cc, a, j + 1, c2))
            } else {
                Err(None)
            },
            Err(e) => Err(e),
        }
    } else {
        Err(None)
    }
}

/// The code of a loop with label number `n`, test `cc` into `a`, and body `body`.
pub open spec fn while_code(n: u64, cc: Seq<InstrV>, a: Atom, body: Seq<InstrV>) -> Seq<InstrV> {
    seq![InstrV::Label(LabelKind::LoopBegin, n)] + cc + seq![InstrV::BranchIfn(a, LabelKind::LoopEnd, n)]
        + body + seq![InstrV::Jmp(LabelKind::LoopBegin, n), InstrV::Label(LabelKind::LoopEnd, n)]
}

/// The code of a conditional with label number `n`, test `cc` into `a`, and blocks
/// `tc` and `ec`.
pub open spec fn if_code(n: u64, cc: Seq<InstrV>, a: Atom, tc: Seq<InstrV>, ec: Seq<InstrV>) -> Seq<InstrV> {
    cc + seq![
        InstrV::BranchIf(a, LabelKind::IfTrue, n),
        InstrV::Jmp(LabelKind::Else, n),
        InstrV::Label(LabelKind::IfTrue, n),
    ] + tc + seq![InstrV::Jmp(LabelKind::EndIf, n), InstrV::Label(LabelKind::Else, n)] + ec + seq![
        InstrV::Label(LabelKind::EndIf, n),
    ]
}

/// `while bool_expr { statement* }`, with labels numbered by the label counter.
pub open spec fn while_v(ts: Seq<TokenView>, i: int, c: ContextV) -> Result<(Seq<InstrV>, int, ContextV), Msg>
    decreases ts.len() - i, 6nat,
{
    match cond_head_v(ts, i, c, TokenView::While) {
        Ok((n, cc, a, j, c2)) => if i < j {
            match block_v(ts, j, with_loops(c2, c2.loops.push(n))) {
                Ok((body, k, c3)) => Ok(
                    (while_code(n, cc, a, body), k, with_loops(c3, c3.loops.drop_last())),
                ),
                Err(e) => Err(e),
            }
        } else {
            Err(None)
        },
        Err(e) => Err(e),
    }
}

/// The `else` part of a conditional at `k`: its block, or nothing when there is no
/// `else`.
pub open spec fn else_v(ts: Seq<TokenView>, k: int, c: ContextV) -> Result<(Seq<InstrV>, int, ContextV), Msg>
    decreases ts.len() - k, 10nat,
{
    if at(ts, k, TokenView::Else) {
        if at(ts, k + 1, TokenView::LeftCurly) {
            block_v(ts, k + 2, c)
        } else {
            Err(None)
        }
    } else {
        Ok((Seq::<InstrV>::empty(), k, c))
    }
}

/// `if bool_expr { statement* } (else { statement* })?`, with labels numbered by the
/// label counter.
pub open spec fn if_v(ts: Seq<TokenView>, i: int, c: ContextV) -> Result<(Seq<InstrV>, int, ContextV), Msg>
    decreases ts.len() - i, 6nat,
{
    match cond_head_v(ts, i, c, TokenView::If) {
        Ok((n, cc, a, j, c2)) => if i < j {
            match block_v(ts, j, c2) {
                Ok((tc, k, c3)) => if i < k <= ts.len() {
                    match else_v(ts, k, c3) {
                        Ok((ec, m, c4)) => Ok((if_code(n, cc, a, tc, ec), m, c4)),
                        Err(e) => Err(e),
                    }
                } else {
                    Err(None)
                },
                Err(e) => Err(e),
            }
        } else {
            Err(None)
        },
        Err(e) => Err(e),
    }
}

/// The parameters from `j` on, up to and past the closing `)`.
pub open spec fn params_v(ts: Seq<TokenView>, j: int, c: ContextV) -> Result<(int, ContextV), Msg>
    decreases ts.len() - j,
{
    if at(ts, j, TokenView::Int) && j + 1 < ts.len() {
        match ts[j + 1] {
            TokenView::Ident(p) => match with_var(c, p, false) {
                Some(c1) => if at(ts, j + 2, TokenView::Comma) {
                    params_v(ts, j + 3, c1)
                } else if at(ts, j + 2, TokenView::RightParen) {
                    Ok((j + 3, c1))
                } else {
                    Err(None)
                },
                None => Err(None),
            },
            _ => Err(None),
        }
    } else {
        Err(None)
    }
}

/// A function definition: the compiled function (nothing at the end of the tokens),
/// the position after it and the context after it.
pub open spec fn function_v(ts: Seq<TokenView>, i: int, c: ContextV) -> Result<
    (Option<FunctionV>, int, ContextV),
    Msg,
>
    decreases ts.len() - i, 11nat,
{
    if !(0 <= i <= ts.len()) {
        Err(None)
    } else if i == ts.len() {
        Ok((None, i, c))
    } else if ts[i] == TokenView::Func && i + 3 < ts.len() && ts[i + 2] == TokenView::LeftParen {
        match ts[i + 1] {
            TokenView::Ident(x) => if first_fn(c.functions, x, 0) is None {
                let c1 = ContextV {
                    functions: c.functions.push(x),
                    vars: seq![],
                    loops: seq![],
                    temps: c.temps,
                    labels: c.labels,
                };
                let ps = if ts[i + 3] == TokenView::RightParen {
                    Ok((i + 4, c1))
                } else {
                    params_v(ts, i + 3, c1)
                };
                match ps {
                    Ok((j, c2)) => if i < j && at(ts, j, TokenView::LeftCurly) {
                        match block_v(ts, j + 1, c2) {
                            Ok((body, k, c3)) => Ok(
                                (
                                    Some(
                                        FunctionV {
                                            name: x,
                                            params: c2.vars.len() as usize,
                                            vars: c3.vars,
                                            body,
                                        },
                                    ),
                                    k,
                                    ContextV {
                                        functions: c3.functions,
                                        vars: seq![],
                                        loops: seq![],
                                        temps: c3.temps,
                                        labels: c3.labels,
                                    },
                                ),
                            ),
                            Err(e) => Err(e),
                        }
                    } else {
                        Err(None)
                    },
                    Err(e) => Err(e),
                }
            } else {
                Err(None)
            },
            _ => Err(None),
        }
    } else {
        Err(None)
    }
}

/// Some function is named `main` and has no parameters.
pub open spec fn main_ok(fs: Seq<FunctionV>) -> bool {
    exists|k: int| 0 <= k < fs.len() && (#[trigger] fs[k]).name == "main"@ && fs[k].params == 0
}

/// `program := function*` from `i` on, after the functions `fs` before it; the
/// program must define `main`, without parameters.
pub open spec fn program_v(ts: Seq<TokenView>, i: int, c: ContextV, fs: Seq<FunctionV>) -> Result<
    Seq<FunctionV>,
    Msg,
>
    decreases ts.len() - i, 12nat,
{
    match function_v(ts, i, c) {
        Ok((None, j, c1)) => if main_ok(fs) {
            Ok(fs)
        } else {
            Err(None)
        },
        Ok((Some(f), j, c1)) => if i < j <= ts.len() {
            program_v(ts, j, c1, fs.push(f))
        } else {
            Err(None)
        },
        Err(e) => Err(e),
    }
}

/// The compiled functions of a whole token sequence, or nothing for an error.
pub open spec fn compiled(ts: Seq<TokenView>) -> Result<Seq<FunctionV>, Msg> {
    program_v(ts, 0, empty_context(), seq![])
}

} // verus!
