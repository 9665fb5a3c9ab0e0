//! Properties that relate several functions or several steps of a run.
use vstd::prelude::*;
use crate::grammar::{if_code, while_code};
use crate::ir::{
    ArithOp, code_view, function_ok, label_of, labels_unique, program_ok, Atom, Instr, InstrV, LabelKind,
    Operand, Program,
};
use crate::lexer::{lex_result_matches, scan};
use crate::machine::{
    wrap32, array_at, atom_value, body_of, can_store, operand_value, step_rel, top, trunc_div, trunc_rem,
    Cell, Event, Machine,
};
use crate::token::{tokens_view, Token};

verus! {

/// Scanning is a function of the text: two scans of one text give the same tokens,
/// or the same error.
pub proof fn lemma_scan_deterministic(
    s: &str,
    r1: Result<Vec<Token>, String>,
    r2: Result<Vec<Token>, String>,
)
    requires
        lex_result_matches(r1, scan(s@)),
        lex_result_matches(r2, scan(s@)),
    ensures
        r1 is Ok <==> r2 is Ok,
        r1 matches Ok(t1) ==> r2 matches Ok(t2) && tokens_view(t1@) == tokens_view(t2@),
        r1 matches Err(e1) ==> r2 matches Err(e2) && e1@ == e2@,
{
}

/// Division rounds toward zero: `x` is `d` times the quotient plus the remainder, the
/// remainder is smaller than `d` in size, and it is zero or has the sign of `x`.
pub proof fn lemma_division_toward_zero(x: int, d: int)
    requires
        d != 0,
    ensures
        x == d * trunc_div(x, d) + trunc_rem(x, d),
        0 <= trunc_rem(x, d) * trunc_rem(x, d) < d * d,
        x >= 0 ==> trunc_rem(x, d) >= 0,
        x <= 0 ==> trunc_rem(x, d) <= 0,
        x * d >= 0 ==> trunc_div(x, d) >= 0,
        x * d <= 0 ==> trunc_div(x, d) <= 0,
{
    if x > 0 && d > 0 {
        assert(x * d > 0) by (nonlinear_arith)
            requires
                x > 0,
                d > 0,
        ;
        assert(x == d * (x / d) + x % d && 0 <= x % d < d) by (nonlinear_arith)
            requires
                d > 0,
        ;
        assert(0 <= (x % d) * (x % d) < d * d) by (nonlinear_arith)
            requires
                0 <= x % d < d,
        ;
        assert(x / d >= 0) by (nonlinear_arith)
            requires
                x > 0,
                d > 0,
        ;
    } else if x < 0 && d < 0 {
        assert(x * d > 0) by (nonlinear_arith)
            requires
                x < 0,
                d < 0,
        ;
        let (a, b) = (-x, -d);
        assert(a == b * (a / b) + a % b && 0 <= a % b < b && a / b >= 0) by (nonlinear_arith)
            requires
                a > 0,
                b > 0,
        ;
        assert(0 <= (a % b) * (a % b) < b * b) by (nonlinear_arith)
            requires
                0 <= a % b < b,
        ;
        assert(x == d * (a / b) + -(a % b)) by (nonlinear_arith)
            requires
                a == b * (a / b) + a % b,
                a == -x,
                b == -d,
        ;
        assert(d * d == b * b) by (nonlinear_arith)
            requires
                b == -d,
        ;
        assert((-(a % b)) * (-(a % b)) == (a % b) * (a % b)) by (nonlinear_arith);
    } else if x < 0 {
        assert(x * d < 0) by (nonlinear_arith)
            requires
                x < 0,
                d > 0,
        ;
        let a = -x;
        assert(a == d * (a / d) + a % d && 0 <= a % d < d && a / d >= 0) by (nonlinear_arith)
            requires
                a > 0,
                d > 0,
        ;
        assert(0 <= (a % d) * (a % d) < d * d) by (nonlinear_arith)
            requires
                0 <= a % d < d,
        ;
        assert(x == d * -(a / d) + -(a % d)) by (nonlinear_arith)
            requires
                a == d * (a / d) + a % d,
                a == -x,
        ;
        assert((-(a % d)) * (-(a % d)) == (a % d) * (a % d)) by (nonlinear_arith);
    } else if x > 0 {
        assert(x * d < 0) by (nonlinear_arith)
            requires
                x > 0,
                d < 0,
        ;
        let b = -d;
        assert(x == b * (x / b) + x % b && 0 <= x % b < b && x / b >= 0) by (nonlinear_arith)
            requires
                x > 0,
                b > 0,
        ;
        assert(0 <= (x % b) * (x % b) < b * b) by (nonlinear_arith)
            requires
                0 <= x % b < b,
        ;
        assert(x == d * -(x / b) + x % b) by (nonlinear_arith)
            requires
                x == b * (x / b) + x % b,
                b == -d,
        ;
        assert(d * d == b * b) by (nonlinear_arith)
            requires
                b == -d,
        ;
    } else {
        assert(d * d > 0) by (nonlinear_arith)
            requires
                d != 0,
        ;
    }
}

/// A read or a write of an array element succeeds exactly when the index is within
/// the array.
pub proof fn lemma_array_bounds(cells: Seq<Cell>, b: usize, i: Atom)
    requires
        array_at(cells, b) is Some,
        atom_value(cells, i) is Some,
    ensures
        operand_value(cells, Operand::Elem(b, i)) is Some <==> 0 <= atom_value(cells, i)->0
            < array_at(cells, b)->0.len(),
        can_store(cells, Operand::Elem(b, i)) <==> 0 <= atom_value(cells, i)->0 < array_at(
            cells,
            b,
        )->0.len(),
{
}

/// A conditional branch on a constant goes one way only: `%branch_if` on 0 and
/// `%branch_ifn` on a non-zero value fall through to the next instruction, and the
/// other two jump.
pub proof fn lemma_branch_on_constant(p: Program, a: Machine, b: Machine, ev: Event)
    requires
        a.frames@.len() > 0,
        top(a).pc < body_of(p, top(a).func).len(),
        step_rel(p, a, b, ev),
    ensures
        body_of(p, top(a).func)[top(a).pc as int] matches Instr::BranchIf(Atom::Lit(0), _, _) ==> (
        ev == Event::Running && top(b).pc == top(a).pc + 1),
        body_of(p, top(a).func)[top(a).pc as int] matches Instr::BranchIfn(Atom::Lit(c), _, _)
            ==> (c != 0 ==> ev == Event::Running && top(b).pc == top(a).pc + 1),
        body_of(p, top(a).func)[top(a).pc as int] matches Instr::BranchIf(Atom::Lit(c), kind, n)
            ==> (c != 0 && ev == Event::Running ==> crate::ir::label_of(
            body_of(p, top(a).func)[top(b).pc as int],
        ) == Some((kind, n))),
        body_of(p, top(a).func)[top(a).pc as int] matches Instr::BranchIfn(Atom::Lit(0), kind, n)
            ==> (ev == Event::Running ==> crate::ir::label_of(
            body_of(p, top(a).func)[top(b).pc as int],
        ) == Some((kind, n))),
{
}

/// Arguments are passed by value: no step of a callee changes a frame below it, and
/// a return changes only the caller's slot for the result.
pub proof fn lemma_callers_untouched(p: Program, a: Machine, b: Machine, ev: Event)
    requires
        a.wf(p),
        a.frames@.len() >= 2,
        step_rel(p, a, b, ev),
    ensures
        b.frames@.len() >= a.frames@.len() ==> b.frames@.subrange(0, a.frames@.len() - 1)
            == a.frames@.subrange(0, a.frames@.len() - 1),
        b.frames@.len() < a.frames@.len() ==> {
            let n = a.frames@.len();
            &&& b.frames@.len() == n - 1
            &&& b.frames@.subrange(0, n - 2) == a.frames@.subrange(0, n - 2)
            &&& forall|j: int|
                0 <= j < a.frames@[n - 2].cells@.len() && j != top(a).dst ==> #[trigger] b.frames@[n
                    - 2].cells@[j] == a.frames@[n - 2].cells@[j]
        },
{
    let n = a.frames@.len();
    if b.frames@.len() >= n {
        if b.frames@.len() == n {
            assert(b.frames@.subrange(0, n - 1) == b.frames@.drop_last());
            assert(a.frames@.subrange(0, n - 1) == a.frames@.drop_last());
        } else {
            assert(b.frames@.subrange(0, n - 1) == b.frames@.drop_last().subrange(0, n - 1));
        }
    } else {
        assert(b.frames@.subrange(0, n - 2) == b.frames@.drop_last());
        assert(a.frames@.subrange(0, n - 2) == a.frames@.drop_last().drop_last());
        let fr = top(a);
        let body = body_of(p, fr.func);
        let caller = a.frames@[n - 2];
        assert(fr.dst < caller.cells@.len());
        assert(b.frames@[n - 2] == b.frames@.last());
        let v: i32 = if fr.pc >= body.len() {
            0
        } else {
            match body[fr.pc as int] {
                Instr::Ret(x) => atom_value(fr.cells@, x)->0,
                _ => 0,
            }
        };
        assert(b.frames@.last().cells@ == caller.cells@.update(fr.dst as int, Cell::Scalar(v)));
        assert forall|j: int|
            0 <= j < caller.cells@.len() && j != fr.dst implies #[trigger] b.frames@[n
                - 2].cells@[j] == caller.cells@[j] by {
            assert(caller.cells@.update(fr.dst as int, Cell::Scalar(v))[j] == caller.cells@[j]);
        }
    }
}

/// A step's outcome is a function of the state: two steps from one state report the
/// same event and go on at the same position.
pub proof fn lemma_step_deterministic(
    p: Program,
    a: Machine,
    b1: Machine,
    e1: Event,
    b2: Machine,
    e2: Event,
)
    requires
        program_ok(p),
        a.wf(p),
        step_rel(p, a, b1, e1),
        step_rel(p, a, b2, e2),
    ensures
        e1 == e2,
        b1.frames@.len() == b2.frames@.len(),
        b1.frames@.len() > 0 ==> top(b1).pc == top(b2).pc && top(b1).func == top(b2).func,
{
    if a.frames@.len() > 0 {
        let fr = top(a);
        let body = body_of(p, fr.func);
        assert(crate::ir::function_ok(p.functions@[fr.func as int], p.functions@.len()));
        if fr.pc < body.len() {
            let i = body[fr.pc as int];
            if b1.frames@.len() > 0 && b2.frames@.len() > 0 && top(b1).pc != top(b2).pc {
                let x = top(b1).pc as int;
                let y = top(b2).pc as int;
                if x < body.len() && y < body.len() && crate::ir::label_of(body[x]) is Some {
                    assert(crate::ir::label_of(body[x]) != crate::ir::label_of(body[y]));
                }
            }
        }
    }
}

/// A label line in the view of code is the label line in the code.
proof fn lemma_label_view(body: Seq<Instr>, k: int, kind: LabelKind, n: u64)
    requires
        0 <= k < body.len(),
        code_view(body)[k] == InstrV::Label(kind, n),
    ensures
        label_of(body[k]) == Some((kind, n)),
{
    assert(code_view(body)[k] == body[k]@);
}

/// In a body whose labels are unique, a label stands at one place only.
proof fn lemma_label_unique(body: Seq<Instr>, x: int, y: int)
    requires
        labels_unique(body),
        0 <= x < body.len(),
        0 <= y < body.len(),
        label_of(body[x]) is Some,
        label_of(body[x]) == label_of(body[y]),
    ensures
        x == y,
{
}

/// A conditional on a false test runs its `else` block and skips the first: from the
/// branch after the test, two steps reach the `else` label, past the first block.
pub proof fn lemma_if_false_takes_else(
    p: Program,
    a: Machine,
    b: Machine,
    e1: Event,
    c: Machine,
    e2: Event,
    o: int,
    n: u64,
    cc: Seq<InstrV>,
    x: Atom,
    tc: Seq<InstrV>,
    ec: Seq<InstrV>,
)
    requires
        program_ok(p),
        a.wf(p),
        a.frames@.len() > 0,
        0 <= o,
        o + if_code(n, cc, x, tc, ec).len() <= body_of(p, top(a).func).len(),
        code_view(body_of(p, top(a).func)).subrange(o, o + if_code(n, cc, x, tc, ec).len())
            == if_code(n, cc, x, tc, ec),
        top(a).pc == o + cc.len(),
        atom_value(top(a).cells@, x) == Some(0i32),
        step_rel(p, a, b, e1),
        step_rel(p, b, c, e2),
    ensures
        e1 == Event::Running,
        top(b).pc == top(a).pc + 1,
        e2 == Event::Running,
        top(c).pc == o + cc.len() + tc.len() + 4,
        top(c).cells@ == top(a).cells@,
{
    let body = body_of(p, top(a).func);
    let code = if_code(n, cc, x, tc, ec);
    let l = cc.len() as int;
    let t = tc.len() as int;
    assert(function_ok(p.functions@[top(a).func as int], p.functions@.len()));
    assert(code_view(body)[o + l] == code[l]);
    assert(code[l] == InstrV::BranchIf(x, LabelKind::IfTrue, n));
    assert(code_view(body)[o + l] == body[o + l]@);
    assert(body[o + l] == Instr::BranchIf(x, LabelKind::IfTrue, n));
    assert(code_view(body)[o + l + 1] == code[l + 1]);
    assert(code_view(body)[o + l + 1] == body[o + l + 1]@);
    assert(body[o + l + 1] == Instr::Jmp(LabelKind::Else, n));
    let e = o + l + t + 4;
    assert(code_view(body)[e] == code[l + t + 4]);
    assert(code[l + t + 4] == InstrV::Label(LabelKind::Else, n));
    lemma_label_view(body, e, LabelKind::Else, n);
    assert(top(b).func == top(a).func);
    let q = top(c).pc as int;
    assert(label_of(body[q]) == Some((LabelKind::Else, n)));
    lemma_label_unique(body, q, e);
}

/// A conditional on a true test runs its first block: from the branch after the test,
/// one step reaches the label that opens the first block.
pub proof fn lemma_if_true_takes_first(
    p: Program,
    a: Machine,
    b: Machine,
    e1: Event,
    o: int,
    n: u64,
    cc: Seq<InstrV>,
    x: Atom,
    tc: Seq<InstrV>,
    ec: Seq<InstrV>,
)
    requires
        program_ok(p),
        a.wf(p),
        a.frames@.len() > 0,
        0 <= o,
        o + if_code(n, cc, x, tc, ec).len() <= body_of(p, top(a).func).len(),
        code_view(body_of(p, top(a).func)).subrange(o, o + if_code(n, cc, x, tc, ec).len())
            == if_code(n, cc, x, tc, ec),
        top(a).pc == o + cc.len(),
        atom_value(top(a).cells@, x) matches Some(v) && v != 0,
        step_rel(p, a, b, e1),
    ensures
        e1 == Event::Running,
        top(b).pc == o + cc.len() + 2,
        top(b).cells@ == top(a).cells@,
{
    let body = body_of(p, top(a).func);
    let code = if_code(n, cc, x, tc, ec);
    let l = cc.len() as int;
    assert(function_ok(p.functions@[top(a).func as int], p.functions@.len()));
    assert(code_view(body)[o + l] == code[l]);
    assert(code_view(body)[o + l] == body[o + l]@);
    assert(body[o + l] == Instr::BranchIf(x, LabelKind::IfTrue, n));
    assert(code_view(body)[o + l + 2] == code[l + 2]);
    lemma_label_view(body, o + l + 2, LabelKind::IfTrue, n);
    let q = top(b).pc as int;
    lemma_label_unique(body, q, o + l + 2);
}

/// After the first block of a conditional, the jump skips the `else` block: one step
/// reaches the label that ends the conditional.
pub proof fn lemma_first_block_skips_else(
    p: Program,
    a: Machine,
    b: Machine,
    e1: Event,
    o: int,
    n: u64,
    cc: Seq<InstrV>,
    x: Atom,
    tc: Seq<InstrV>,
    ec: Seq<InstrV>,
)
    requires
        program_ok(p),
        a.wf(p),
        a.frames@.len() > 0,
        0 <= o,
        o + if_code(n, cc, x, tc, ec).len() <= body_of(p, top(a).func).len(),
        code_view(body_of(p, top(a).func)).subrange(o, o + if_code(n, cc, x, tc, ec).len())
            == if_code(n, cc, x, tc, ec),
        top(a).pc == o + cc.len() + tc.len() + 3,
        step_rel(p, a, b, e1),
    ensures
        e1 == Event::Running,
        top(b).pc == o + cc.len() + tc.len() + ec.len() + 5,
        top(b).cells@ == top(a).cells@,
{
    let body = body_of(p, top(a).func);
    let code = if_code(n, cc, x, tc, ec);
    let l = cc.len() as int;
    let t = tc.len() as int;
    let m = ec.len() as int;
    assert(function_ok(p.functions@[top(a).func as int], p.functions@.len()));
    assert(code_view(body)[o + l + t + 3] == code[l + t + 3]);
    assert(code_view(body)[o + l + t + 3] == body[o + l + t + 3]@);
    assert(body[o + l + t + 3] == Instr::Jmp(LabelKind::EndIf, n));
    assert(code_view(body)[o + l + t + m + 5] == code[l + t + m + 5]);
    lemma_label_view(body, o + l + t + m + 5, LabelKind::EndIf, n);
    let q = top(b).pc as int;
    lemma_label_unique(body, q, o + l + t + m + 5);
}

/// A loop whose test is false runs its body zero times: from the branch after the
/// test, one step reaches the label after the loop.
pub proof fn lemma_while_false_skips_body(
    p: Program,
    a: Machine,
    b: Machine,
    e1: Event,
    o: int,
    n: u64,
    cc: Seq<InstrV>,
    x: Atom,
    body_code: Seq<InstrV>,
)
    requires
        program_ok(p),
        a.wf(p),
        a.frames@.len() > 0,
        0 <= o,
        o + while_code(n, cc, x, body_code).len() <= body_of(p, top(a).func).len(),
        code_view(body_of(p, top(a).func)).subrange(o, o + while_code(n, cc, x, body_code).len())
            == while_code(n, cc, x, body_code),
        top(a).pc == o + cc.len() + 1,
        atom_value(top(a).cells@, x) == Some(0i32),
        step_rel(p, a, b, e1),
    ensures
        e1 == Event::Running,
        top(b).pc == o + cc.len() + body_code.len() + 3,
        top(b).cells@ == top(a).cells@,
{
    let body = body_of(p, top(a).func);
    let code = while_code(n, cc, x, body_code);
    let l = cc.len() as int;
    let m = body_code.len() as int;
    assert(function_ok(p.functions@[top(a).func as int], p.functions@.len()));
    assert(code_view(body)[o + l + 1] == code[l + 1]);
    assert(code_view(body)[o + l + 1] == body[o + l + 1]@);
    assert(body[o + l + 1] == Instr::BranchIfn(x, LabelKind::LoopEnd, n));
    assert(code_view(body)[o + l + m + 3] == code[l + m + 3]);
    lemma_label_view(body, o + l + m + 3, LabelKind::LoopEnd, n);
    let q = top(b).pc as int;
    lemma_label_unique(body, q, o + l + m + 3);
}

/// The element read that an indexed term compiles to (`%mov t, [a + i]`) succeeds
/// exactly when the index is within the array, and then copies that element.
pub proof fn lemma_element_read(p: Program, a: Machine, b: Machine, ev: Event, t: usize, arr: usize, i: Atom)
    requires
        a.frames@.len() > 0,
        top(a).pc < body_of(p, top(a).func).len(),
        body_of(p, top(a).func)[top(a).pc as int] == Instr::Mov(
            Operand::Atom(Atom::Var(t)),
            Operand::Elem(arr, i),
        ),
        atom_value(top(a).cells@, Atom::Var(t)) is Some,
        array_at(top(a).cells@, arr) is Some,
        atom_value(top(a).cells@, i) is Some,
        step_rel(p, a, b, ev),
    ensures
        ({
            let k = atom_value(top(a).cells@, i)->0;
            let elems = array_at(top(a).cells@, arr)->0;
            if 0 <= k < elems.len() {
                ev == Event::Running && top(b).cells@ == top(a).cells@.update(
                    t as int,
                    crate::machine::Cell::Scalar(elems[k as int]),
                )
            } else {
                ev == Event::Failed(crate::machine::Fault::OutOfBounds) && b.frames@ == a.frames@
            }
        }),
{
}

/// The element write that an assignment to `a[i]` compiles to (`%mov [a + i], v`)
/// succeeds exactly when the index is within the array, and then changes that element
/// only.
pub proof fn lemma_element_write(p: Program, a: Machine, b: Machine, ev: Event, arr: usize, i: Atom, v: Atom)
    requires
        a.frames@.len() > 0,
        top(a).pc < body_of(p, top(a).func).len(),
        body_of(p, top(a).func)[top(a).pc as int] == Instr::Mov(Operand::Elem(arr, i), Operand::Atom(v)),
        atom_value(top(a).cells@, v) is Some,
        array_at(top(a).cells@, arr) is Some,
        atom_value(top(a).cells@, i) is Some,
        step_rel(p, a, b, ev),
    ensures
        ({
            let k = atom_value(top(a).cells@, i)->0;
            let elems = array_at(top(a).cells@, arr)->0;
            if 0 <= k < elems.len() {
                &&& ev == Event::Running
                &&& array_at(top(b).cells@, arr) == Some(elems.update(k as int, atom_value(top(a).cells@, v)->0))
                &&& forall|j: int| 0 <= j < top(a).cells@.len() && j != arr ==> top(b).cells@[j] == top(a).cells@[j]
            } else {
                ev == Event::Failed(crate::machine::Fault::OutOfBounds) && b.frames@ == a.frames@
            }
        }),
{
}

/// A call passes its arguments by value: the callee's frame holds copies of the
/// arguments' values in its parameter slots, and the caller's frames stay as they were.
pub proof fn lemma_call_copies_arguments(
    p: Program,
    a: Machine,
    b: Machine,
    ev: Event,
    d: usize,
    f: usize,
    args: Vec<Atom>,
)
    requires
        a.frames@.len() > 0,
        top(a).pc < body_of(p, top(a).func).len(),
        body_of(p, top(a).func)[top(a).pc as int] == Instr::Call(d, f, args),
        args@.len() == p.functions@[f as int].params,
        forall|j: int| 0 <= j < args@.len() ==> atom_value(top(a).cells@, #[trigger] args@[j]) is Some,
        step_rel(p, a, b, ev),
    ensures
        ev == Event::Running,
        b.frames@.drop_last() == a.frames@,
        top(b).func == f,
        top(b).pc == 0,
        forall|j: int| 0 <= j < args@.len() ==> top(b).cells@[j] == crate::machine::Cell::Scalar(
            atom_value(top(a).cells@, #[trigger] args@[j])->0,
        ),
{
    let cells = top(a).cells@;
    assert(!exists|j: int| 0 <= j < args@.len() && atom_value(cells, #[trigger] args@[j]) is None);
}

/// Addition and subtraction in compiled code are 32-bit two's complement.
pub proof fn lemma_additive_wraps(p: Program, a: Machine, b: Machine, ev: Event, op: ArithOp, d: usize, x: Atom, y: Atom)
    requires
        a.frames@.len() > 0,
        top(a).pc < body_of(p, top(a).func).len(),
        body_of(p, top(a).func)[top(a).pc as int] == Instr::Arith(op, d, x, y),
        op == ArithOp::Add || op == ArithOp::Sub,
        atom_value(top(a).cells@, x) is Some,
        atom_value(top(a).cells@, y) is Some,
        step_rel(p, a, b, ev),
    ensures
        ({
            let u = atom_value(top(a).cells@, x)->0 as int;
            let w = atom_value(top(a).cells@, y)->0 as int;
            &&& ev == Event::Running
            &&& top(b).cells@ == top(a).cells@.update(
                d as int,
                crate::machine::Cell::Scalar(
                    (if op == ArithOp::Add {
                        wrap32(u + w)
                    } else {
                        wrap32(u - w)
                    }) as i32,
                ),
            )
        }),
{
}

} // verus!
