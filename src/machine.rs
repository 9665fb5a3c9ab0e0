//! The machine that runs compiled code: a stack of frames, each a function, a
//! position in its body and a cell for each variable slot.
use vstd::prelude::*;
use crate::text::same_chars;
use crate::ir::{
    function_ok, instr_ok, label_of, program_ok, ArithOp, Atom,
    CmpOp, Instr, LabelKind, Operand, Program,
};

verus! {

/// The contents of a variable slot: not yet declared, a scalar, or an array.
#[derive(Debug, Clone)]
pub enum Cell {
    Unbound,
    Scalar(i32),
    Array(Vec<i32>),
}

/// One activation of a function: which function, the position of the next
/// instruction, the cells of its slots, and the caller's slot for the result.
#[derive(Debug, Clone)]
pub struct Frame {
    pub func: usize,
    pub pc: usize,
    pub cells: Vec<Cell>,
    pub dst: usize,
}

/// The state of a run: the stack of frames, innermost last. No frame: the run is over.
#[derive(Debug, Clone)]
pub struct Machine {
    pub frames: Vec<Frame>,
}

/// What stops a run.
#[derive(Debug, Clone, Copy, PartialEq, Eq, Structural)]
pub enum Fault {
    DivisionByZero,
    OutOfBounds,
    Unbound,
    MissingLabel,
    Arity,
    MissingMain,
}

/// What one step did.
#[derive(Debug, Clone, Copy, PartialEq, Eq, Structural)]
pub enum Event {
    Running,
    Output(i32),
    NeedInput,
    Halted,
    Failed(Fault),
}

pub open spec fn two32() -> int {
    0x1_0000_0000
}

/// `v` in 32-bit two's complement: the value of `[i32::MIN, i32::MAX]` that equals
/// `v` modulo 2^32.
pub open spec fn wrap32(v: int) -> int {
    if v % two32() > i32::MAX {
        v % two32() - two32()
    } else {
        v % two32()
    }
}

/// Division that rounds toward zero.
pub open spec fn trunc_div(x: int, d: int) -> int {
    if x == 0 {
        0
    } else if x > 0 && d > 0 {
        x / d
    } else if x < 0 && d < 0 {
        (-x) / (-d)
    } else if x < 0 {
        -((-x) / d)
    } else {
        -(x / (-d))
    }
}

/// The remainder of division that rounds toward zero: it has the sign of `x`.
pub open spec fn trunc_rem(x: int, d: int) -> int {
    if x == 0 {
        0
    } else if x > 0 && d > 0 {
        x % d
    } else if x < 0 && d < 0 {
        -((-x) % (-d))
    } else if x < 0 {
        -((-x) % d)
    } else {
        x % (-d)
    }
}

/// The result of an arithmetic instruction; nothing for a division or a remainder by zero.
pub open spec fn arith(op: ArithOp, x: i32, y: i32) -> Option<int> {
    match op {
        ArithOp::Add => Some(wrap32(x + y)),
        ArithOp::Sub => Some(wrap32(x - y)),
        ArithOp::Mult => Some(wrap32(x * y)),
        ArithOp::Div => if y == 0 {
            None
        } else {
            Some(wrap32(trunc_div(x as int, y as int)))
        },
        ArithOp::Mod => if y == 0 {
            None
        } else {
            Some(trunc_rem(x as int, y as int))
        },
    }
}

/// Whether the comparison holds.
pub open spec fn holds(op: CmpOp, x: i32, y: i32) -> bool {
    match op {
        CmpOp::Lt => x < y,
        CmpOp::Gt => x > y,
        CmpOp::Le => x <= y,
        CmpOp::Ge => x >= y,
        CmpOp::Eq => x == y,
        CmpOp::Neq => x != y,
    }
}

proof fn lemma_wrap_small(v: int)
    requires
        -two32() <= v < two32(),
    ensures
        wrap32(v) == if v > i32::MAX {
            v - two32()
        } else if v < i32::MIN {
            v + two32()
        } else {
            v
        },
{
    if v >= 0 {
        assert(v % two32() == v);
    } else {
        assert(v % two32() == v + two32());
    }
}

/// Applies an arithmetic operator in 32-bit two's complement.
pub fn eval_arith(op: ArithOp, x: i32, y: i32) -> (r: Result<i32, Fault>)
    ensures
        match r {
            Ok(v) => arith(op, x, y) == Some(v as int),
            Err(f) => arith(op, x, y) is None && f == Fault::DivisionByZero,
        },
{
    match op {
        ArithOp::Add => {
            proof {
                lemma_wrap_small(x + y);
            }
            Ok(x.wrapping_add(y))
        },
        ArithOp::Sub => {
            proof {
                lemma_wrap_small(x - y);
            }
            Ok(x.wrapping_sub(y))
        },
        ArithOp::Mult => Ok(x.wrapping_mul(y)),
        ArithOp::Div => {
            if y == 0 {
                return Err(Fault::DivisionByZero);
            }
            if y == -1 {
                proof {
                    lemma_wrap_small(-x);
                }
                return Ok(0i32.wrapping_sub(x));
            }
            proof {
                let (a, d) = (x as int, y as int);
                if a > 0 && d > 0 {
                    assert(0 <= a / d <= a) by (nonlinear_arith)
                        requires
                            a > 0,
                            d > 0,
                    ;
                } else if a < 0 && d < 0 {
                    assert(0 <= (-a) / (-d) < -a) by (nonlinear_arith)
                        requires
                            a < 0,
                            d < -1,
                    ;
                } else if a < 0 {
                    assert(0 <= (-a) / d <= -a) by (nonlinear_arith)
                        requires
                            a < 0,
                            d > 0,
                    ;
                } else if a > 0 {
                    assert(0 <= a / (-d) <= a) by (nonlinear_arith)
                        requires
                            a > 0,
                            d < -1,
                    ;
                }
                lemma_wrap_small(trunc_div(a, d));
            }
            match x.checked_div(y) {
                Some(v) => Ok(v),
                None => Err(Fault::DivisionByZero),
            }
        },
        ArithOp::Mod => {
            if y == 0 {
                return Err(Fault::DivisionByZero);
            }
            if y == -1 {
                proof {
                    let a = x as int;
                    if a > 0 {
                        assert(a % 1 == 0);
                    } else if a < 0 {
                        assert((-a) % 1 == 0);
                    }
                }
                return Ok(0);
            }
            proof {
                let (a, d) = (x as int, y as int);
                if a > 0 && d > 0 {
                    assert(0 <= a % d < d) by (nonlinear_arith)
                        requires
                            d > 0,
                    ;
                } else if a < 0 && d < 0 {
                    assert(0 <= (-a) % (-d) < -d) by (nonlinear_arith)
                        requires
                            d < 0,
                    ;
                } else if a < 0 {
                    assert(0 <= (-a) % d < d) by (nonlinear_arith)
                        requires
                            d > 0,
                    ;
                } else if a > 0 {
                    assert(0 <= a % (-d) < -d) by (nonlinear_arith)
                        requires
                            d < 0,
                    ;
                }
            }
            match x.checked_rem(y) {
                Some(v) => Ok(v),
                None => Err(Fault::DivisionByZero),
            }
        },
    }
}

/// 1 where the comparison holds, 0 where it does not.
pub fn eval_cmp(op: CmpOp, x: i32, y: i32) -> (r: i32)
    ensures
        r == if holds(op, x, y) {
            1i32
        } else {
            0i32
        },
{
    let b = match op {
        CmpOp::Lt => x < y,
        CmpOp::Gt => x > y,
        CmpOp::Le => x <= y,
        CmpOp::Ge => x >= y,
        CmpOp::Eq => x == y,
        CmpOp::Neq => x != y,
    };
    if b {
        1
    } else {
        0
    }
}

/// The value of an atom: a literal, or a bound scalar.
pub open spec fn atom_value(cells: Seq<Cell>, a: Atom) -> Option<i32> {
    match a {
        Atom::Lit(n) => Some(n),
        Atom::Var(x) => if x < cells.len() {
            match cells[x as int] {
                Cell::Scalar(v) => Some(v),
                _ => None,
            }
        } else {
            None
        },
    }
}

/// The elements of the array in slot `b`, if it holds one.
pub open spec fn array_at(cells: Seq<Cell>, b: usize) -> Option<Seq<i32>> {
    if b < cells.len() {
        match cells[b as int] {
            Cell::Array(v) => Some(v@),
            _ => None,
        }
    } else {
        None
    }
}

/// The value of an operand; nothing for an unbound variable or an index outside the array.
pub open spec fn operand_value(cells: Seq<Cell>, o: Operand) -> Option<i32> {
    match o {
        Operand::Atom(a) => atom_value(cells, a),
        Operand::Elem(b, i) => match (array_at(cells, b), atom_value(cells, i)) {
            (Some(arr), Some(k)) => if 0 <= k < arr.len() {
                Some(arr[k as int])
            } else {
                None
            },
            _ => None,
        },
    }
}

/// Whether a value can be written at `o`: a bound scalar, or an element inside its array.
pub open spec fn can_store(cells: Seq<Cell>, o: Operand) -> bool {
    match o {
        Operand::Atom(Atom::Var(x)) => atom_value(cells, Atom::Var(x)) is Some,
        Operand::Atom(Atom::Lit(_)) => false,
        Operand::Elem(b, i) => match (array_at(cells, b), atom_value(cells, i)) {
            (Some(arr), Some(k)) => 0 <= k < arr.len(),
            _ => false,
        },
    }
}

/// `new` is `old` with `v` written at `o`.
pub open spec fn stored(old: Seq<Cell>, new: Seq<Cell>, o: Operand, v: i32) -> bool {
    match o {
        Operand::Atom(Atom::Var(x)) => new == old.update(x as int, Cell::Scalar(v)),
        Operand::Atom(Atom::Lit(_)) => false,
        Operand::Elem(b, i) => {
            &&& new.len() == old.len()
            &&& forall|j: int| 0 <= j < old.len() && j != b ==> new[j] == old[j]
            &&& array_at(new, b) == Some(
                array_at(old, b)->0.update(atom_value(old, i)->0 as int, v),
            )
        },
    }
}

/// Why an operand cannot be read or written: an index outside its array, or else a
/// variable that holds no value of the right kind.
pub open spec fn access_fault(cells: Seq<Cell>, o: Operand) -> Fault {
    match o {
        Operand::Elem(b, i) => if array_at(cells, b) is Some && atom_value(cells, i) is Some {
            Fault::OutOfBounds
        } else {
            Fault::Unbound
        },
        _ => Fault::Unbound,
    }
}

/// The value of an atom.
pub fn atom_get(cells: &Vec<Cell>, a: Atom) -> (r: Result<i32, Fault>)
    ensures
        r == match atom_value(cells@, a) {
            Some(v) => Ok::<i32, Fault>(v),
            None => Err(Fault::Unbound),
        },
{
    match a {
        Atom::Lit(n) => Ok(n),
        Atom::Var(x) => {
            if x < cells.len() {
                match &cells[x] {
                    Cell::Scalar(v) => Ok(*v),
                    _ => Err(Fault::Unbound),
                }
            } else {
                Err(Fault::Unbound)
            }
        },
    }
}

/// The value of an operand; an element is read only inside its array.
pub fn operand_get(cells: &Vec<Cell>, o: Operand) -> (r: Result<i32, Fault>)
    ensures
        match r {
            Ok(v) => operand_value(cells@, o) == Some(v),
            Err(f) => operand_value(cells@, o) is None && f == access_fault(cells@, o),
        },
{
    match o {
        Operand::Atom(a) => atom_get(cells, a),
        Operand::Elem(b, i) => {
            let k = atom_get(cells, i);
            if b >= cells.len() {
                return Err(Fault::Unbound);
            }
            match &cells[b] {
                Cell::Array(arr) => match k {
                    Ok(k) => {
                        if 0 <= k && (k as usize) < arr.len() {
                            Ok(arr[k as usize])
                        } else {
                            Err(Fault::OutOfBounds)
                        }
                    },
                    Err(f) => Err(f),
                },
                _ => Err(Fault::Unbound),
            }
        },
    }
}

/// Writes `v` at `o`; an element is written only inside its array.
pub fn operand_set(cells: &mut Vec<Cell>, o: Operand, v: i32) -> (r: Result<(), Fault>)
    ensures
        match r {
            Ok(()) => can_store(old(cells)@, o) && stored(old(cells)@, final(cells)@, o, v),
            Err(f) => !can_store(old(cells)@, o) && *final(cells) == *old(cells) && f
                == access_fault(old(cells)@, o),
        },
{
    match o {
        Operand::Atom(Atom::Var(x)) => {
            atom_get(cells, Atom::Var(x))?;
            cells[x] = Cell::Scalar(v);
            Ok(())
        },
        Operand::Atom(Atom::Lit(_)) => Err(Fault::Unbound),
        Operand::Elem(b, i) => {
            let k = atom_get(cells, i);
            if b >= cells.len() {
                return Err(Fault::Unbound);
            }
            let len = match &cells[b] {
                Cell::Array(arr) => arr.len(),
                _ => {
                    return Err(Fault::Unbound);
                },
            };
            let k = match k {
                Ok(k) => k,
                Err(f) => {
                    return Err(f);
                },
            };
            if !(0 <= k && (k as usize) < len) {
                return Err(Fault::OutOfBounds);
            }
            let ghost before = cells@;
            match &mut cells[b] {
                Cell::Array(arr) => {
                    arr.set(k as usize, v);
                },
                _ => {},
            }
            proof {
                assert forall|j: int| 0 <= j < before.len() && j != b implies cells@[j] == before[j] by {}
            }
            Ok(())
        },
    }
}

/// Where label `(kind, n)` is defined in a body.
pub fn find_label(body: &Vec<Instr>, kind: LabelKind, n: u64) -> (r: Option<usize>)
    ensures
        match r {
            Some(i) => i < body@.len() && label_of(body@[i as int]) == Some((kind, n)),
            None => forall|i: int| 0 <= i < body@.len() ==> #[trigger] label_of(body@[i]) != Some((kind, n)),
        },
{
    let mut i: usize = 0;
    while i < body.len()
        invariant
            i <= body@.len(),
            forall|j: int| 0 <= j < i ==> #[trigger] label_of(body@[j]) != Some((kind, n)),
        decreases body.len() - i,
    {
        match &body[i] {
            Instr::Label(k, m) => {
                if *k == kind && *m == n {
                    return Some(i);
                }
            },
            _ => {},
        }
        i = i + 1;
    }
    None
}

pub open spec fn body_of(p: Program, f: usize) -> Seq<Instr> {
    p.functions@[f as int].body@
}

/// A frame of a function of `p`, within its body, with a cell for each slot.
pub open spec fn frame_ok(fr: Frame, p: Program) -> bool {
    &&& fr.func < p.functions@.len()
    &&& fr.pc <= body_of(p, fr.func).len()
    &&& fr.cells@.len() == p.functions@[fr.func as int].vars@.len()
}

impl Machine {
    /// Every frame runs a function of `p` within its body and has a cell for each of
    /// its slots; every caller waits on an instruction and has the slot for the result.
    pub open spec fn wf(&self, p: Program) -> bool {
        let fs = self.frames@;
        &&& forall|i: int| 0 <= i < fs.len() ==> frame_ok(#[trigger] fs[i], p)
        &&& forall|i: int|
            0 <= i < fs.len() - 1 ==> (#[trigger] fs[i]).pc < body_of(p, fs[i].func).len()
        &&& forall|i: int|
            1 <= i < fs.len() ==> (#[trigger] fs[i]).dst < fs[i - 1].cells@.len()
    }
}

/// The innermost frame.
pub open spec fn top(m: Machine) -> Frame {
    m.frames@.last()
}

/// The run stops with fault `f`; the state stays.
pub open spec fn failed(a: Machine, b: Machine, ev: Event, f: Fault) -> bool {
    ev == Event::Failed(f) && b.frames@ == a.frames@
}

/// The innermost frame goes on at `pc` with cells `cells`; the rest stays.
pub open spec fn moved(a: Machine, b: Machine, pc: int, cells: Seq<Cell>) -> bool {
    &&& b.frames@.len() == a.frames@.len()
    &&& b.frames@.drop_last() == a.frames@.drop_last()
    &&& top(b).func == top(a).func
    &&& top(b).dst == top(a).dst
    &&& top(b).pc == pc
    &&& top(b).cells@ == cells
}

/// A jump to label `(kind, n)`: on at the label, or a fault where the body has none.
pub open spec fn jumped(p: Program, a: Machine, b: Machine, ev: Event, kind: LabelKind, n: u64) -> bool {
    let body = body_of(p, top(a).func);
    if exists|i: int| 0 <= i < body.len() && #[trigger] label_of(body[i]) == Some((kind, n)) {
        &&& ev == Event::Running
        &&& top(b).pc < body.len()
        &&& label_of(body[top(b).pc as int]) == Some((kind, n))
        &&& moved(a, b, top(b).pc as int, top(a).cells@)
    } else {
        failed(a, b, ev, Fault::MissingLabel)
    }
}

/// The innermost frame returns `v`: the run ends after `main`, else the caller
/// stores `v` in its slot for the result and goes on after the call.
pub open spec fn returned(a: Machine, b: Machine, ev: Event, v: i32) -> bool {
    let n = a.frames@.len();
    if n == 1 {
        b.frames@.len() == 0 && ev == Event::Halted
    } else {
        let caller = a.frames@[n - 2];
        let back = b.frames@.last();
        &&& ev == Event::Running
        &&& b.frames@.len() == n - 1
        &&& b.frames@.drop_last() == a.frames@.drop_last().drop_last()
        &&& back.func == caller.func
        &&& back.dst == caller.dst
        &&& back.pc == caller.pc + 1
        &&& back.cells@ == caller.cells@.update(top(a).dst as int, Cell::Scalar(v))
    }
}

/// The frame of a call: the arguments in the parameters' slots, the other slots unbound.
pub open spec fn entered(a: Machine, b: Machine, f: usize, d: usize, vals: Seq<i32>, nvars: nat) -> bool {
    let fr = b.frames@.last();
    &&& b.frames@.len() == a.frames@.len() + 1
    &&& b.frames@.drop_last() == a.frames@
    &&& fr.func == f
    &&& fr.pc == 0
    &&& fr.dst == d
    &&& fr.cells@.len() == nvars
    &&& forall|j: int| 0 <= j < vals.len() ==> fr.cells@[j] == Cell::Scalar(vals[j])
    &&& forall|j: int| vals.len() <= j < nvars ==> fr.cells@[j] == Cell::Unbound
}

/// What one step does, instruction by instruction.
pub open spec fn step_rel(p: Program, a: Machine, b: Machine, ev: Event) -> bool {
    if a.frames@.len() == 0 {
        b.frames@ == a.frames@ && ev == Event::Halted
    } else {
        let fr = top(a);
        let body = body_of(p, fr.func);
        let cells = fr.cells@;
        let next = fr.pc + 1;
        if fr.pc >= body.len() {
            returned(a, b, ev, 0)
        } else {
            match body[fr.pc as int] {
                Instr::Int(x) => ev == Event::Running && moved(
                    a,
                    b,
                    next,
                    cells.update(x as int, Cell::Scalar(0)),
                ),
                Instr::IntArray(x, n) => {
                    &&& ev == Event::Running
                    &&& top(b).cells@.len() == cells.len()
                    &&& forall|j: int| 0 <= j < cells.len() && j != x ==> top(b).cells@[j] == cells[j]
                    &&& array_at(top(b).cells@, x) == Some(Seq::new(n as nat, |j: int| 0i32))
                    &&& moved(a, b, next, top(b).cells@)
                },
                Instr::Mov(d, s) => match operand_value(cells, s) {
                    None => failed(a, b, ev, access_fault(cells, s)),
                    Some(v) => if can_store(cells, d) {
                        ev == Event::Running && stored(cells, top(b).cells@, d, v) && moved(
                            a,
                            b,
                            next,
                            top(b).cells@,
                        )
                    } else {
                        failed(a, b, ev, access_fault(cells, d))
                    },
                },
                Instr::Arith(op, d, x, y) => match (atom_value(cells, x), atom_value(cells, y)) {
                    (Some(u), Some(w)) => match arith(op, u, w) {
                        Some(r) => ev == Event::Running && moved(
                            a,
                            b,
                            next,
                            cells.update(d as int, Cell::Scalar(r as i32)),
                        ),
                        None => failed(a, b, ev, Fault::DivisionByZero),
                    },
                    _ => failed(a, b, ev, Fault::Unbound),
                },
                Instr::Cmp(op, d, x, y) => match (atom_value(cells, x), atom_value(cells, y)) {
                    (Some(u), Some(w)) => ev == Event::Running && moved(
                        a,
                        b,
                        next,
                        cells.update(
                            d as int,
                            Cell::Scalar(
                                if holds(op, u, w) {
                                    1
                                } else {
                                    0
                                },
                            ),
                        ),
                    ),
                    _ => failed(a, b, ev, Fault::Unbound),
                },
                Instr::BranchIf(c, kind, n) => match atom_value(cells, c) {
                    Some(v) => if v != 0 {
                        jumped(p, a, b, ev, kind, n)
                    } else {
                        ev == Event::Running && moved(a, b, next, cells)
                    },
                    None => failed(a, b, ev, Fault::Unbound),
                },
                Instr::BranchIfn(c, kind, n) => match atom_value(cells, c) {
                    Some(v) => if v == 0 {
                        jumped(p, a, b, ev, kind, n)
                    } else {
                        ev == Event::Running && moved(a, b, next, cells)
                    },
                    None => failed(a, b, ev, Fault::Unbound),
                },
                Instr::Jmp(kind, n) => jumped(p, a, b, ev, kind, n),
                Instr::Label(_, _) => ev == Event::Running && moved(a, b, next, cells),
                Instr::Call(d, f, args) => {
                    let callee = p.functions@[f as int];
                    if args@.len() != callee.params {
                        failed(a, b, ev, Fault::Arity)
                    } else if exists|j: int|
                        0 <= j < args@.len() && atom_value(cells, #[trigger] args@[j]) is None {
                        failed(a, b, ev, Fault::Unbound)
                    } else {
                        ev == Event::Running && entered(
                            a,
                            b,
                            f,
                            d,
                            args@.map_values(|x: Atom| atom_value(cells, x)->0),
                            callee.vars@.len(),
                        )
                    }
                },
                Instr::Ret(x) => match atom_value(cells, x) {
                    Some(v) => returned(a, b, ev, v),
                    None => failed(a, b, ev, Fault::Unbound),
                },
                Instr::Out(x) => match atom_value(cells, x) {
                    Some(v) => ev == Event::Output(v) && moved(a, b, next, cells),
                    None => failed(a, b, ev, Fault::Unbound),
                },
                Instr::Input(_) => ev == Event::NeedInput && b.frames@ == a.frames@,
            }
        }
    }
}

/// The instruction at `pc` uses every slot as the function declared it.
proof fn lemma_instr_at(p: Program, f: usize, pc: int)
    requires
        program_ok(p),
        f < p.functions@.len(),
        0 <= pc < body_of(p, f).len(),
    ensures
        instr_ok(
            body_of(p, f)[pc],
            crate::ir::kinds_of(p.functions@[f as int].vars@),
            p.functions@.len(),
        ),
{
    assert(function_ok(p.functions@[f as int], p.functions@.len()));
}

/// `n` zeros.
fn zeros(n: i32) -> (r: Vec<i32>)
    requires
        n >= 0,
    ensures
        r@ == Seq::new(n as nat, |j: int| 0i32),
{
    let mut r: Vec<i32> = Vec::new();
    let mut i: i32 = 0;
    while i < n
        invariant
            0 <= i <= n,
            r@ == Seq::new(i as nat, |j: int| 0i32),
        decreases n - i,
    {
        r.push(0);
        i = i + 1;
    }
    r
}

/// The values of the arguments of a call; nothing where one is unbound.
pub fn arg_values(cells: &Vec<Cell>, args: &Vec<Atom>) -> (r: Option<Vec<i32>>)
    ensures
        match r {
            Some(vals) => (forall|j: int| 0 <= j < args@.len() ==> atom_value(cells@, #[trigger] args@[j]) is Some)
                && vals@ == args@.map_values(|x: Atom| atom_value(cells@, x)->0),
            None => exists|j: int| 0 <= j < args@.len() && atom_value(cells@, #[trigger] args@[j]) is None,
        },
{
    let mut vals: Vec<i32> = Vec::new();
    let mut j: usize = 0;
    while j < args.len()
        invariant
            j <= args@.len(),
            vals@.len() == j,
            forall|m: int| 0 <= m < j ==> atom_value(cells@, #[trigger] args@[m]) is Some,
            forall|m: int| 0 <= m < j ==> vals@[m] == atom_value(cells@, args@[m])->0,
        decreases args.len() - j,
    {
        match atom_get(cells, args[j]) {
            Ok(v) => {
                vals.push(v);
            },
            Err(_) => {
                assert(atom_value(cells@, args@[j as int]) is None);
                return None;
            },
        }
        j = j + 1;
    }
    assert(vals@ == args@.map_values(|x: Atom| atom_value(cells@, x)->0));
    Some(vals)
}

/// The cells of a new frame: the given values, then unbound slots up to `n`.
pub fn frame_cells(vals: &Vec<i32>, n: usize) -> (r: Vec<Cell>)
    requires
        vals@.len() <= n,
    ensures
        r@.len() == n,
        forall|j: int| 0 <= j < vals@.len() ==> r@[j] == Cell::Scalar(vals@[j]),
        forall|j: int| vals@.len() <= j < n ==> r@[j] == Cell::Unbound,
{
    let mut r: Vec<Cell> = Vec::new();
    let mut j: usize = 0;
    while j < n
        invariant
            vals@.len() <= n,
            j <= n,
            r@.len() == j,
            forall|m: int| 0 <= m < j && m < vals@.len() ==> r@[m] == Cell::Scalar(vals@[m]),
            forall|m: int| vals@.len() <= m < j ==> r@[m] == Cell::Unbound,
        decreases n - j,
    {
        if j < vals.len() {
            r.push(Cell::Scalar(vals[j]));
        } else {
            r.push(Cell::Unbound);
        }
        j = j + 1;
    }
    r
}

impl Machine {
    /// A run of `main`, or a fault where the program has no `main` without parameters.
    pub fn start(p: &Program) -> (r: Result<Machine, Fault>)
        requires
            program_ok(*p),
        ensures
            match r {
                Ok(m) => {
                    &&& m.wf(*p)
                    &&& m.frames@.len() == 1
                    &&& p.functions@[top(m).func as int].name@ == "main"@
                    &&& p.functions@[top(m).func as int].params == 0
                    &&& top(m).pc == 0
                    &&& forall|j: int| 0 <= j < top(m).cells@.len() ==> top(m).cells@[j] == Cell::Unbound
                },
                Err(f) => f == Fault::MissingMain && forall|i: int|
                    0 <= i < p.functions@.len() && (#[trigger] p.functions@[i]).name@ == "main"@
                        ==> p.functions@[i].params != 0,
            },
    {
        let mut i: usize = 0;
        while i < p.functions.len()
            invariant
                i <= p.functions@.len(),
                forall|j: int|
                    0 <= j < i && (#[trigger] p.functions@[j]).name@ == "main"@ ==> p.functions@[j].params != 0,
            decreases p.functions.len() - i,
        {
            let f = &p.functions[i];
            if same_chars(&f.name, "main") && f.params == 0 {
                let mut cells: Vec<Cell> = Vec::new();
                let mut j: usize = 0;
                while j < f.vars.len()
                    invariant
                        j <= f.vars@.len(),
                        cells@.len() == j,
                        forall|m: int| 0 <= m < j ==> cells@[m] == Cell::Unbound,
                    decreases f.vars.len() - j,
                {
                    cells.push(Cell::Unbound);
                    j = j + 1;
                }
                let mut frames: Vec<Frame> = Vec::new();
                frames.push(Frame { func: i, pc: 0, cells, dst: 0 });
                return Ok(Machine { frames });
            }
            i = i + 1;
        }
        Err(Fault::MissingMain)
    }

    /// Whether the run is over.
    pub fn halted(&self) -> (r: bool)
        ensures
            r == (self.frames@.len() == 0),
    {
        self.frames.len() == 0
    }

    fn jump(&mut self, p: &Program, kind: LabelKind, n: u64) -> (ev: Event)
        requires
            old(self).wf(*p),
            old(self).frames@.len() > 0,
        ensures
            final(self).wf(*p),
            jumped(*p, *old(self), *final(self), ev, kind, n),
    {
        let t = self.frames.len() - 1;
        let func = self.frames[t].func;
        match find_label(&p.functions[func].body, kind, n) {
            Some(i) => {
                self.frames[t].pc = i;
                proof {
                    assert(self.frames@.drop_last() == old(self).frames@.drop_last());
                }
                Event::Running
            },
            None => Event::Failed(Fault::MissingLabel),
        }
    }

    fn finish(&mut self, p: &Program, v: i32) -> (ev: Event)
        requires
            old(self).wf(*p),
            old(self).frames@.len() > 0,
        ensures
            final(self).wf(*p),
            returned(*old(self), *final(self), ev, v),
    {
        let dst = self.frames[self.frames.len() - 1].dst;
        let ghost a = self.frames@;
        self.frames.pop();
        if self.frames.len() == 0 {
            return Event::Halted;
        }
        let c = self.frames.len() - 1;
        assert(a[c as int] == self.frames@[c as int]);
        let blen = p.functions[self.frames[c].func].body.len();
        let pc = self.frames[c].pc;
        assert(pc < blen);
        self.frames[c].cells[dst] = Cell::Scalar(v);
        self.frames[c].pc = pc + 1;
        proof {
            assert(self.frames@.drop_last() == a.drop_last().drop_last());
        }
        Event::Running
    }

    fn call(&mut self, p: &Program, d: usize, f: usize, args: &Vec<Atom>) -> (ev: Event)
        requires
            old(self).wf(*p),
            program_ok(*p),
            old(self).frames@.len() > 0,
            f < p.functions@.len(),
            top(*old(self)).pc < body_of(*p, top(*old(self)).func).len(),
            d < top(*old(self)).cells@.len(),
        ensures
            final(self).wf(*p),
            ({
                let cells = top(*old(self)).cells@;
                let callee = p.functions@[f as int];
                if args@.len() != callee.params {
                    failed(*old(self), *final(self), ev, Fault::Arity)
                } else if exists|j: int|
                    0 <= j < args@.len() && atom_value(cells, #[trigger] args@[j]) is None {
                    failed(*old(self), *final(self), ev, Fault::Unbound)
                } else {
                    ev == Event::Running && entered(
                        *old(self),
                        *final(self),
                        f,
                        d,
                        args@.map_values(|x: Atom| atom_value(cells, x)->0),
                        callee.vars@.len(),
                    )
                }
            }),
    {
        let t = self.frames.len() - 1;
        let callee = &p.functions[f];
        if args.len() != callee.params {
            return Event::Failed(Fault::Arity);
        }
        proof {
            assert(function_ok(p.functions@[f as int], p.functions@.len()));
        }
        let vals = match arg_values(&self.frames[t].cells, args) {
            Some(v) => v,
            None => {
                return Event::Failed(Fault::Unbound);
            },
        };
        let fresh = frame_cells(&vals, callee.vars.len());
        self.frames.push(Frame { func: f, pc: 0, cells: fresh, dst: d });
        proof {
            assert(self.frames@.drop_last() == old(self).frames@);
        }
        Event::Running
    }

    /// One step at an instruction of the kinds Int, IntArray, Mov.
    #[verifier::rlimit(50)]
    fn exec_store(&mut self, p: &Program) -> (ev: Event)
        requires
            old(self).wf(*p),
            program_ok(*p),
            old(self).frames@.len() > 0,
            top(*old(self)).pc < body_of(*p, top(*old(self)).func).len(),
            body_of(*p, top(*old(self)).func)[top(*old(self)).pc as int] is Int || body_of(*p, top(*old(self)).func)[top(*old(self)).pc as int] is IntArray || body_of(*p, top(*old(self)).func)[top(*old(self)).pc as int] is Mov,
        ensures
            final(self).wf(*p),
            step_rel(*p, *old(self), *final(self), ev),
    {
        let t = self.frames.len() - 1;
        let func = self.frames[t].func;
        let pc = self.frames[t].pc;
        let body = &p.functions[func].body;
        let blen = body.len();
        assert(pc < blen);
        proof {
            lemma_instr_at(*p, func, pc as int);
        }
        let ghost a = *self;
        match &body[pc] {
            Instr::Int(x) => {
                self.frames[t].cells[*x] = Cell::Scalar(0);
                self.frames[t].pc = pc + 1;
                proof {
                    assert(self.frames@.drop_last() == a.frames@.drop_last());
                }
                Event::Running
            },
            Instr::IntArray(x, size) => {
                let z = zeros(*size);
                self.frames[t].cells[*x] = Cell::Array(z);
                self.frames[t].pc = pc + 1;
                proof {
                    assert(self.frames@.drop_last() == a.frames@.drop_last());
                }
                Event::Running
            },
            Instr::Mov(d, s) => {
                let v = match operand_get(&self.frames[t].cells, *s) {
                    Ok(v) => v,
                    Err(f) => {
                        return Event::Failed(f);
                    },
                };
                match operand_set(&mut self.frames[t].cells, *d, v) {
                    Ok(()) => {},
                    Err(f) => {
                        proof {
                            assert(self.frames@ == a.frames@);
                        }
                        return Event::Failed(f);
                    },
                }
                self.frames[t].pc = pc + 1;
                proof {
                    assert(self.frames@.drop_last() == a.frames@.drop_last());
                }
                Event::Running
            },
            _ => Event::Running,
        }
    }

    /// One step at an instruction of the kinds Arith, Cmp.
    #[verifier::rlimit(50)]
    fn exec_compute(&mut self, p: &Program) -> (ev: Event)
        requires
            old(self).wf(*p),
            program_ok(*p),
            old(self).frames@.len() > 0,
            top(*old(self)).pc < body_of(*p, top(*old(self)).func).len(),
            body_of(*p, top(*old(self)).func)[top(*old(self)).pc as int] is Arith || body_of(*p, top(*old(self)).func)[top(*old(self)).pc as int] is Cmp,
        ensures
            final(self).wf(*p),
            step_rel(*p, *old(self), *final(self), ev),
    {
        let t = self.frames.len() - 1;
        let func = self.frames[t].func;
        let pc = self.frames[t].pc;
        let body = &p.functions[func].body;
        let blen = body.len();
        assert(pc < blen);
        proof {
            lemma_instr_at(*p, func, pc as int);
        }
        let ghost a = *self;
        match &body[pc] {
            Instr::Arith(op, d, x, y) => {
                let u = atom_get(&self.frames[t].cells, *x);
                let w = atom_get(&self.frames[t].cells, *y);
                let (u, w) = match (u, w) {
                    (Ok(u), Ok(w)) => (u, w),
                    _ => {
                        return Event::Failed(Fault::Unbound);
                    },
                };
                let r = match eval_arith(*op, u, w) {
                    Ok(r) => r,
                    Err(f) => {
                        return Event::Failed(f);
                    },
                };
                self.frames[t].cells[*d] = Cell::Scalar(r);
                self.frames[t].pc = pc + 1;
                proof {
                    assert(self.frames@.drop_last() == a.frames@.drop_last());
                }
                Event::Running
            },
            Instr::Cmp(op, d, x, y) => {
                let u = atom_get(&self.frames[t].cells, *x);
                let w = atom_get(&self.frames[t].cells, *y);
                let (u, w) = match (u, w) {
                    (Ok(u), Ok(w)) => (u, w),
                    _ => {
                        return Event::Failed(Fault::Unbound);
                    },
                };
                let r = eval_cmp(*op, u, w);
                self.frames[t].cells[*d] = Cell::Scalar(r);
                self.frames[t].pc = pc + 1;
                proof {
                    assert(self.frames@.drop_last() == a.frames@.drop_last());
                }
                Event::Running
            },
            _ => Event::Running,
        }
    }

    /// One step at an instruction of the kinds BranchIf, BranchIfn, Jmp, Label.
    #[verifier::rlimit(50)]
    fn exec_jump(&mut self, p: &Program) -> (ev: Event)
        requires
            old(self).wf(*p),
            program_ok(*p),
            old(self).frames@.len() > 0,
            top(*old(self)).pc < body_of(*p, top(*old(self)).func).len(),
            body_of(*p, top(*old(self)).func)[top(*old(self)).pc as int] is BranchIf || body_of(*p, top(*old(self)).func)[top(*old(self)).pc as int] is BranchIfn || body_of(*p, top(*old(self)).func)[top(*old(self)).pc as int] is Jmp || body_of(*p, top(*old(self)).func)[top(*old(self)).pc as int] is Label,
        ensures
            final(self).wf(*p),
            step_rel(*p, *old(self), *final(self), ev),
    {
        let t = self.frames.len() - 1;
        let func = self.frames[t].func;
        let pc = self.frames[t].pc;
        let body = &p.functions[func].body;
        let blen = body.len();
        assert(pc < blen);
        proof {
            lemma_instr_at(*p, func, pc as int);
        }
        let ghost a = *self;
        match &body[pc] {
            Instr::BranchIf(c, kind, m) => {
                let v = match atom_get(&self.frames[t].cells, *c) {
                    Ok(v) => v,
                    Err(f) => {
                        return Event::Failed(f);
                    },
                };
                if v != 0 {
                    self.jump(p, *kind, *m)
                } else {
                    self.frames[t].pc = pc + 1;
                    proof {
                        assert(self.frames@.drop_last() == a.frames@.drop_last());
                    }
                    Event::Running
                }
            },
            Instr::BranchIfn(c, kind, m) => {
                let v = match atom_get(&self.frames[t].cells, *c) {
                    Ok(v) => v,
                    Err(f) => {
                        return Event::Failed(f);
                    },
                };
                if v == 0 {
                    self.jump(p, *kind, *m)
                } else {
                    self.frames[t].pc = pc + 1;
                    proof {
                        assert(self.frames@.drop_last() == a.frames@.drop_last());
                    }
                    Event::Running
                }
            },
            Instr::Jmp(kind, m) => self.jump(p, *kind, *m),
            Instr::Label(_, _) => {
                self.frames[t].pc = pc + 1;
                proof {
                    assert(self.frames@.drop_last() == a.frames@.drop_last());
                }
                Event::Running
            },
            _ => Event::Running,
        }
    }

    /// One step at an instruction of the kinds Call, Ret, Out, Input.
    #[verifier::rlimit(50)]
    fn exec_call(&mut self, p: &Program) -> (ev: Event)
        requires
            old(self).wf(*p),
            program_ok(*p),
            old(self).frames@.len() > 0,
            top(*old(self)).pc < body_of(*p, top(*old(self)).func).len(),
            body_of(*p, top(*old(self)).func)[top(*old(self)).pc as int] is Call || body_of(*p, top(*old(self)).func)[top(*old(self)).pc as int] is Ret || body_of(*p, top(*old(self)).func)[top(*old(self)).pc as int] is Out || body_of(*p, top(*old(self)).func)[top(*old(self)).pc as int] is Input,
        ensures
            final(self).wf(*p),
            step_rel(*p, *old(self), *final(self), ev),
    {
        let t = self.frames.len() - 1;
        let func = self.frames[t].func;
        let pc = self.frames[t].pc;
        let body = &p.functions[func].body;
        let blen = body.len();
        assert(pc < blen);
        proof {
            lemma_instr_at(*p, func, pc as int);
        }
        let ghost a = *self;
        match &body[pc] {
            Instr::Call(d, f, args) => self.call(p, *d, *f, args),
            Instr::Ret(x) => {
                match atom_get(&self.frames[t].cells, *x) {
                    Ok(v) => self.finish(p, v),
                    Err(f) => Event::Failed(f),
                }
            },
            Instr::Out(x) => {
                let v = match atom_get(&self.frames[t].cells, *x) {
                    Ok(v) => v,
                    Err(f) => {
                        return Event::Failed(f);
                    },
                };
                self.frames[t].pc = pc + 1;
                proof {
                    assert(self.frames@.drop_last() == a.frames@.drop_last());
                }
                Event::Output(v)
            },
            Instr::Input(_) => Event::NeedInput,

            _ => Event::Running,
        }
    }

    /// Runs one instruction of the innermost frame.
    pub fn step(&mut self, p: &Program) -> (ev: Event)
        requires
            old(self).wf(*p),
            program_ok(*p),
        ensures
            final(self).wf(*p),
            step_rel(*p, *old(self), *final(self), ev),
    {
        let n = self.frames.len();
        if n == 0 {
            return Event::Halted;
        }
        let t = n - 1;
        let func = self.frames[t].func;
        let pc = self.frames[t].pc;
        let body = &p.functions[func].body;
        if pc >= body.len() {
            return self.finish(p, 0);
        }
        proof {
            lemma_instr_at(*p, func, pc as int);
        }
        let ghost a = *self;
        match &body[pc] {
            Instr::Int(_) | Instr::IntArray(_, _) | Instr::Mov(_, _) => self.exec_store(p),
            Instr::Arith(_, _, _, _) | Instr::Cmp(_, _, _, _) => self.exec_compute(p),
            Instr::BranchIf(_, _, _) | Instr::BranchIfn(_, _, _) | Instr::Jmp(_, _) | Instr::Label(_, _) => self.exec_jump(p),
            Instr::Call(_, _, _) | Instr::Ret(_) | Instr::Out(_) | Instr::Input(_) => self.exec_call(p),
        }
    }

    /// Stores a value read for the `%input` instruction the innermost frame stands
    /// at, and moves past it. Elsewhere nothing changes.
    pub fn give_input(&mut self, p: &Program, v: i32) -> (ev: Event)
        requires
            old(self).wf(*p),
            program_ok(*p),
        ensures
            final(self).wf(*p),
            input_rel(*p, *old(self), *final(self), ev, v),
    {
        let n = self.frames.len();
        if n == 0 {
            return Event::Halted;
        }
        let t = n - 1;
        let func = self.frames[t].func;
        let pc = self.frames[t].pc;
        let body = &p.functions[func].body;
        if pc >= body.len() {
            return Event::Running;
        }
        let ghost a = *self;
        match &body[pc] {
            Instr::Input(d) => {
                match operand_set(&mut self.frames[t].cells, *d, v) {
                    Ok(()) => {},
                    Err(f) => {
                        proof {
                            assert(self.frames@ == a.frames@);
                        }
                        return Event::Failed(f);
                    },
                }
                self.frames[t].pc = pc + 1;
                proof {
                    assert(self.frames@.drop_last() == a.frames@.drop_last());
                }
                Event::Running
            },
            _ => Event::Running,
        }
    }
}

/// What giving `v` to the run does: at a `%input` instruction it is stored at the
/// instruction's operand; elsewhere nothing changes.
pub open spec fn input_rel(p: Program, a: Machine, b: Machine, ev: Event, v: i32) -> bool {
    if a.frames@.len() == 0 {
        b.frames@ == a.frames@ && ev == Event::Halted
    } else {
        let fr = top(a);
        let body = body_of(p, fr.func);
        if fr.pc < body.len() && body[fr.pc as int] is Input {
            let d = body[fr.pc as int]->Input_0;
            if can_store(fr.cells@, d) {
                ev == Event::Running && stored(fr.cells@, top(b).cells@, d, v) && moved(
                    a,
                    b,
                    fr.pc + 1,
                    top(b).cells@,
                )
            } else {
                failed(a, b, ev, access_fault(fr.cells@, d))
            }
        } else {
            ev == Event::Running && b.frames@ == a.frames@
        }
    }
}

} // verus!
