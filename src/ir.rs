//! The intermediate code: instructions over variable slots and numbered labels.
use vstd::prelude::*;

verus! {

/// A value that needs no memory access: a literal or a scalar variable.
#[derive(Debug, Clone, Copy, PartialEq, Eq, Structural)]
pub enum Atom {
    Lit(i32),
    Var(usize),
}

/// A storage location or value: an atom, or element `index` of array `base`.
#[derive(Debug, Clone, Copy, PartialEq, Eq, Structural)]
pub enum Operand {
    Atom(Atom),
    Elem(usize, Atom),
}

/// An arithmetic operator of the code.
#[derive(Debug, Clone, Copy, PartialEq, Eq, Structural)]
pub enum ArithOp {
    Add,
    Sub,
    Mult,
    Div,
    Mod,
}

/// A comparison operator of the code.
#[derive(Debug, Clone, Copy, PartialEq, Eq, Structural)]
pub enum CmpOp {
    Lt,
    Gt,
    Le,
    Ge,
    Eq,
    Neq,
}

/// The role of a label; a loop or a conditional gives its labels one shared number.
#[derive(Debug, Clone, Copy, PartialEq, Eq, Structural)]
pub enum LabelKind {
    LoopBegin,
    LoopEnd,
    IfTrue,
    Else,
    EndIf,
}

/// One instruction. Variables are slots of the enclosing function's table,
/// functions are positions in the program.
#[derive(Debug, Clone)]
pub enum Instr {
    Int(usize),
    IntArray(usize, i32),
    Mov(Operand, Operand),
    Arith(ArithOp, usize, Atom, Atom),
    Cmp(CmpOp, usize, Atom, Atom),
    BranchIf(Atom, LabelKind, u64),
    BranchIfn(Atom, LabelKind, u64),
    Jmp(LabelKind, u64),
    Label(LabelKind, u64),
    Call(usize, usize, Vec<Atom>),
    Ret(Atom),
    Out(Atom),
    Input(Operand),
}

/// The name of a variable slot: a declared identifier, or a numbered temporary.
#[derive(Debug, Clone)]
pub enum VarName {
    User(Vec<char>),
    Temp(u64),
}

/// A variable slot: its name, and whether it holds an array.
#[derive(Debug, Clone)]
pub struct Var {
    pub name: VarName,
    pub is_array: bool,
}

/// A compiled function: its name, its parameters (the first `params` slots),
/// its variable table and its body.
#[derive(Debug, Clone)]
pub struct Function {
    pub name: Vec<char>,
    pub params: usize,
    pub vars: Vec<Var>,
    pub body: Vec<Instr>,
}

/// A compiled program: its functions in the order of their definitions.
#[derive(Debug, Clone)]
pub struct Program {
    pub functions: Vec<Function>,
}

/// For each slot, whether it holds an array.
pub open spec fn kinds_of(vars: Seq<Var>) -> Seq<bool> {
    vars.map_values(|v: Var| v.is_array)
}

/// Slot `x` exists and holds a scalar.
pub open spec fn scalar_ok(x: usize, k: Seq<bool>) -> bool {
    x < k.len() && !k[x as int]
}

/// Slot `x` exists and holds an array.
pub open spec fn array_ok(x: usize, k: Seq<bool>) -> bool {
    x < k.len() && k[x as int]
}

/// A literal, or a scalar slot.
pub open spec fn atom_ok(a: Atom, k: Seq<bool>) -> bool {
    match a {
        Atom::Lit(_) => true,
        Atom::Var(x) => scalar_ok(x, k),
    }
}

/// A value that reads scalars as scalars and arrays only through an index.
pub open spec fn source_ok(o: Operand, k: Seq<bool>) -> bool {
    match o {
        Operand::Atom(a) => atom_ok(a, k),
        Operand::Elem(b, i) => array_ok(b, k) && atom_ok(i, k),
    }
}

/// A location that can be written: a scalar, or an element of an array.
pub open spec fn place_ok(o: Operand, k: Seq<bool>) -> bool {
    match o {
        Operand::Atom(Atom::Var(x)) => scalar_ok(x, k),
        Operand::Atom(Atom::Lit(_)) => false,
        Operand::Elem(b, i) => array_ok(b, k) && atom_ok(i, k),
    }
}

/// An instruction whose every use of a variable matches the variable's kind, and
/// whose every call names one of the `nf` functions.
pub open spec fn instr_ok(i: Instr, k: Seq<bool>, nf: nat) -> bool {
    match i {
        Instr::Int(x) => scalar_ok(x, k),
        Instr::IntArray(a, n) => array_ok(a, k) && n > 0,
        Instr::Mov(d, s) => place_ok(d, k) && source_ok(s, k),
        Instr::Arith(_, d, x, y) => scalar_ok(d, k) && atom_ok(x, k) && atom_ok(y, k),
        Instr::Cmp(_, d, x, y) => scalar_ok(d, k) && atom_ok(x, k) && atom_ok(y, k),
        Instr::BranchIf(c, _, _) => atom_ok(c, k),
        Instr::BranchIfn(c, _, _) => atom_ok(c, k),
        Instr::Jmp(_, _) => true,
        Instr::Label(_, _) => true,
        Instr::Call(d, f, args) => scalar_ok(d, k) && f < nf && forall|j: int|
            0 <= j < args@.len() ==> atom_ok(#[trigger] args@[j], k),
        Instr::Ret(a) => atom_ok(a, k),
        Instr::Out(a) => atom_ok(a, k),
        Instr::Input(d) => place_ok(d, k),
    }
}

/// Every instruction of `c` is well formed over kinds `k` and `nf` functions.
pub open spec fn code_ok(c: Seq<Instr>, k: Seq<bool>, nf: nat) -> bool {
    forall|j: int| 0 <= j < c.len() ==> instr_ok(#[trigger] c[j], k, nf)
}

/// The label that an instruction defines, if it is a label line.
pub open spec fn label_of(i: Instr) -> Option<(LabelKind, u64)> {
    match i {
        Instr::Label(kind, n) => Some((kind, n)),
        _ => None,
    }
}

pub open spec fn label_num(i: Instr) -> int {
    match i {
        Instr::Label(_, n) => n as int,
        _ => 0,
    }
}

/// No label is defined twice.
pub open spec fn labels_unique(c: Seq<Instr>) -> bool {
    forall|a: int, b: int|
        0 <= a < c.len() && 0 <= b < c.len() && a != b && (#[trigger] label_of(c[a])) is Some
            ==> label_of(c[a]) != #[trigger] label_of(c[b])
}

/// Every label defined has a number in `[lo, hi)`.
pub open spec fn labels_within(c: Seq<Instr>, lo: int, hi: int) -> bool {
    forall|a: int|
        0 <= a < c.len() && (#[trigger] label_of(c[a])) is Some ==> lo <= label_num(c[a]) < hi
}

/// Label `(kind, n)` is not defined.
pub open spec fn no_label(c: Seq<Instr>, kind: LabelKind, n: u64) -> bool {
    forall|a: int| 0 <= a < c.len() ==> #[trigger] label_of(c[a]) != Some((kind, n))
}

/// Well-formed code: uses match kinds, labels are unique and numbered in `[lo, hi)`.
pub open spec fn good(c: Seq<Instr>, k: Seq<bool>, nf: nat, lo: int, hi: int) -> bool {
    &&& code_ok(c, k, nf)
    &&& labels_unique(c)
    &&& labels_within(c, lo, hi)
}

/// `k2` keeps the kinds of the slots of `k1` and may add slots.
pub open spec fn extends(k1: Seq<bool>, k2: Seq<bool>) -> bool {
    k1.len() <= k2.len() && forall|i: int| 0 <= i < k1.len() ==> k2[i] == k1[i]
}

pub proof fn lemma_instr_ok_mono(i: Instr, k1: Seq<bool>, k2: Seq<bool>, nf: nat, nf2: nat)
    requires
        instr_ok(i, k1, nf),
        extends(k1, k2),
        nf <= nf2,
    ensures
        instr_ok(i, k2, nf2),
{
    if let Instr::Call(d, f, args) = i {
        assert forall|j: int| 0 <= j < args@.len() implies atom_ok(#[trigger] args@[j], k2) by {
            assert(atom_ok(args@[j], k1));
        }
    }
}

pub proof fn lemma_good_mono(
    c: Seq<Instr>,
    k1: Seq<bool>,
    k2: Seq<bool>,
    nf: nat,
    lo: int,
    hi: int,
    lo2: int,
    hi2: int,
)
    requires
        good(c, k1, nf, lo, hi),
        extends(k1, k2),
        lo2 <= lo,
        hi <= hi2,
    ensures
        good(c, k2, nf, lo2, hi2),
{
    assert forall|j: int| 0 <= j < c.len() implies instr_ok(#[trigger] c[j], k2, nf) by {
        lemma_instr_ok_mono(c[j], k1, k2, nf, nf);
    }
}

pub proof fn lemma_code_ok_nf(c: Seq<Instr>, k: Seq<bool>, nf: nat, nf2: nat)
    requires
        code_ok(c, k, nf),
        nf <= nf2,
    ensures
        code_ok(c, k, nf2),
{
    assert forall|j: int| 0 <= j < c.len() implies instr_ok(#[trigger] c[j], k, nf2) by {
        lemma_instr_ok_mono(c[j], k, k, nf, nf2);
    }
}

/// A function whose body is good over its own variable table, and whose parameters
/// are scalars.
pub open spec fn function_ok(f: Function, nf: nat) -> bool {
    &&& code_ok(f.body@, kinds_of(f.vars@), nf)
    &&& labels_unique(f.body@)
    &&& f.params <= f.vars@.len()
    &&& forall|i: int| 0 <= i < f.params ==> !(#[trigger] f.vars@[i]).is_array
}

/// No label is defined in two functions.
pub open spec fn labels_apart(fs: Seq<Function>) -> bool {
    forall|i: int, j: int, a: int, b: int|
        0 <= i < fs.len() && 0 <= j < fs.len() && i != j && 0 <= a < fs[i].body@.len() && 0 <= b
            < fs[j].body@.len() && (#[trigger] label_of(fs[i].body@[a])) is Some ==> label_of(
            fs[i].body@[a],
        ) != #[trigger] label_of(fs[j].body@[b])
}

/// A compiled program: a function named `main`, distinct function names, every body
/// good, and every label defined once in the whole program.
pub open spec fn program_ok(p: Program) -> bool {
    let fs = p.functions@;
    &&& exists|i: int| 0 <= i < fs.len() && (#[trigger] fs[i]).name@ == "main"@
    &&& forall|i: int, j: int|
        0 <= i < fs.len() && 0 <= j < fs.len() && i != j ==> (#[trigger] fs[i]).name@ != (
        #[trigger] fs[j]).name@
    &&& forall|i: int| 0 <= i < fs.len() ==> function_ok(#[trigger] fs[i], fs.len())
    &&& labels_apart(fs)
}


/// Two pieces of good code whose label numbers do not overlap make good code.
pub proof fn lemma_good_concat(
    c1: Seq<Instr>,
    c2: Seq<Instr>,
    k: Seq<bool>,
    nf: nat,
    a: int,
    b: int,
    c: int,
)
    requires
        good(c1, k, nf, a, b),
        good(c2, k, nf, b, c),
        a <= b <= c,
    ensures
        good(c1 + c2, k, nf, a, c),
{
    let s = c1 + c2;
    assert forall|j: int| 0 <= j < s.len() implies instr_ok(#[trigger] s[j], k, nf) by {
        if j < c1.len() {
            assert(s[j] == c1[j]);
        } else {
            assert(s[j] == c2[j - c1.len()]);
        }
    }
    assert forall|x: int, y: int|
        0 <= x < s.len() && 0 <= y < s.len() && x != y && (#[trigger] label_of(s[x])) is Some
            implies label_of(s[x]) != #[trigger] label_of(s[y]) by {
        if x < c1.len() {
            assert(s[x] == c1[x]);
        } else {
            assert(s[x] == c2[x - c1.len()]);
        }
        if y < c1.len() {
            assert(s[y] == c1[y]);
        } else {
            assert(s[y] == c2[y - c1.len()]);
        }
    }
    assert forall|x: int| 0 <= x < s.len() && (#[trigger] label_of(s[x])) is Some implies a
        <= label_num(s[x]) < c by {
        if x < c1.len() {
            assert(s[x] == c1[x]);
            assert(label_of(c1[x]) is Some);
        } else {
            assert(s[x] == c2[x - c1.len()]);
            assert(label_of(c2[x - c1.len()]) is Some);
        }
    }
}

/// Appending an instruction that defines no label keeps code good.
pub proof fn lemma_good_push(c: Seq<Instr>, i: Instr, k: Seq<bool>, nf: nat, lo: int, hi: int)
    requires
        good(c, k, nf, lo, hi),
        instr_ok(i, k, nf),
        label_of(i) is None,
    ensures
        good(c.push(i), k, nf, lo, hi),
{
    let s = c.push(i);
    assert forall|j: int| 0 <= j < s.len() implies instr_ok(#[trigger] s[j], k, nf) by {
        if j < c.len() {
            assert(s[j] == c[j]);
        }
    }
    assert forall|x: int, y: int|
        0 <= x < s.len() && 0 <= y < s.len() && x != y && (#[trigger] label_of(s[x])) is Some
            implies label_of(s[x]) != #[trigger] label_of(s[y]) by {
        if x < c.len() {
            assert(s[x] == c[x]);
        }
        if y < c.len() {
            assert(s[y] == c[y]);
        }
    }
    assert forall|x: int| 0 <= x < s.len() && (#[trigger] label_of(s[x])) is Some implies lo
        <= label_num(s[x]) < hi by {
        if x < c.len() {
            assert(s[x] == c[x]);
        }
    }
}

/// Appending the definition of a label that is not yet defined keeps code good.
pub proof fn lemma_good_push_label(
    c: Seq<Instr>,
    kind: LabelKind,
    n: u64,
    k: Seq<bool>,
    nf: nat,
    lo: int,
    hi: int,
)
    requires
        good(c, k, nf, lo, hi),
        no_label(c, kind, n),
        lo <= n < hi,
    ensures
        good(c.push(Instr::Label(kind, n)), k, nf, lo, hi),
{
    let s = c.push(Instr::Label(kind, n));
    assert forall|j: int| 0 <= j < s.len() implies instr_ok(#[trigger] s[j], k, nf) by {
        if j < c.len() {
            assert(s[j] == c[j]);
        }
    }
    assert forall|x: int, y: int|
        0 <= x < s.len() && 0 <= y < s.len() && x != y && (#[trigger] label_of(s[x])) is Some
            implies label_of(s[x]) != #[trigger] label_of(s[y]) by {
        if x < c.len() {
            assert(s[x] == c[x]);
        }
        if y < c.len() {
            assert(s[y] == c[y]);
        }
    }
    assert forall|x: int| 0 <= x < s.len() && (#[trigger] label_of(s[x])) is Some implies lo
        <= label_num(s[x]) < hi by {
        if x < c.len() {
            assert(s[x] == c[x]);
        }
    }
}

/// Code whose labels are numbered in `[lo, hi)` defines no label numbered outside.
pub proof fn lemma_no_label(c: Seq<Instr>, kind: LabelKind, n: u64, lo: int, hi: int)
    requires
        labels_within(c, lo, hi),
        n < lo || n >= hi,
    ensures
        no_label(c, kind, n),
{
    assert forall|a: int| 0 <= a < c.len() implies #[trigger] label_of(c[a]) != Some((kind, n)) by {
        if label_of(c[a]) is Some {
        }
    }
}

pub proof fn lemma_no_label_concat(c1: Seq<Instr>, c2: Seq<Instr>, kind: LabelKind, n: u64)
    requires
        no_label(c1, kind, n),
        no_label(c2, kind, n),
    ensures
        no_label(c1 + c2, kind, n),
{
    let s = c1 + c2;
    assert forall|a: int| 0 <= a < s.len() implies #[trigger] label_of(s[a]) != Some((kind, n)) by {
        if a < c1.len() {
            assert(s[a] == c1[a]);
        } else {
            assert(s[a] == c2[a - c1.len()]);
        }
    }
}

pub proof fn lemma_no_label_push(c: Seq<Instr>, i: Instr, kind: LabelKind, n: u64)
    requires
        no_label(c, kind, n),
        label_of(i) != Some((kind, n)),
    ensures
        no_label(c.push(i), kind, n),
{
    let s = c.push(i);
    assert forall|a: int| 0 <= a < s.len() implies #[trigger] label_of(s[a]) != Some((kind, n)) by {
        if a < c.len() {
            assert(s[a] == c[a]);
        }
    }
}


/// An instruction as a mathematical value: the arguments of a call are a sequence.
pub enum InstrV {
    Int(usize),
    IntArray(usize, i32),
    Mov(Operand, Operand),
    Arith(ArithOp, usize, Atom, Atom),
    Cmp(CmpOp, usize, Atom, Atom),
    BranchIf(Atom, LabelKind, u64),
    BranchIfn(Atom, LabelKind, u64),
    Jmp(LabelKind, u64),
    Label(LabelKind, u64),
    Call(usize, usize, Seq<Atom>),
    Ret(Atom),
    Out(Atom),
    Input(Operand),
}

impl View for Instr {
    type V = InstrV;

    open spec fn view(&self) -> InstrV {
        match self {
            Instr::Int(x) => InstrV::Int(*x),
            Instr::IntArray(x, n) => InstrV::IntArray(*x, *n),
            Instr::Mov(d, s) => InstrV::Mov(*d, *s),
            Instr::Arith(op, d, x, y) => InstrV::Arith(*op, *d, *x, *y),
            Instr::Cmp(op, d, x, y) => InstrV::Cmp(*op, *d, *x, *y),
            Instr::BranchIf(c, k, n) => InstrV::BranchIf(*c, *k, *n),
            Instr::BranchIfn(c, k, n) => InstrV::BranchIfn(*c, *k, *n),
            Instr::Jmp(k, n) => InstrV::Jmp(*k, *n),
            Instr::Label(k, n) => InstrV::Label(*k, *n),
            Instr::Call(d, f, args) => InstrV::Call(*d, *f, args@),
            Instr::Ret(a) => InstrV::Ret(*a),
            Instr::Out(a) => InstrV::Out(*a),
            Instr::Input(d) => InstrV::Input(*d),
        }
    }
}

/// The views of a sequence of instructions.
pub open spec fn code_view(c: Seq<Instr>) -> Seq<InstrV> {
    c.map_values(|i: Instr| i@)
}

/// The name of a slot as a mathematical value.
pub enum NameV {
    User(Seq<char>),
    Temp(u64),
}

/// A variable slot as a mathematical value.
pub struct VarV {
    pub name: NameV,
    pub is_array: bool,
}

impl View for Var {
    type V = VarV;

    open spec fn view(&self) -> VarV {
        VarV {
            name: match self.name {
                VarName::User(s) => NameV::User(s@),
                VarName::Temp(n) => NameV::Temp(n),
            },
            is_array: self.is_array,
        }
    }
}

pub open spec fn vars_view(v: Seq<Var>) -> Seq<VarV> {
    v.map_values(|x: Var| x@)
}

/// A compiled function as a mathematical value.
pub struct FunctionV {
    pub name: Seq<char>,
    pub params: usize,
    pub vars: Seq<VarV>,
    pub body: Seq<InstrV>,
}

impl View for Function {
    type V = FunctionV;

    open spec fn view(&self) -> FunctionV {
        FunctionV {
            name: self.name@,
            params: self.params,
            vars: vars_view(self.vars@),
            body: code_view(self.body@),
        }
    }
}

pub open spec fn functions_view(fs: Seq<Function>) -> Seq<FunctionV> {
    fs.map_values(|f: Function| f@)
}

pub proof fn lemma_code_view_push(c: Seq<Instr>, i: Instr)
    ensures
        code_view(c.push(i)) == code_view(c).push(i@),
{
    assert(code_view(c.push(i)) =~= code_view(c).push(i@));
}

pub proof fn lemma_code_view_concat(a: Seq<Instr>, b: Seq<Instr>)
    ensures
        code_view(a + b) == code_view(a) + code_view(b),
{
    assert(code_view(a + b) =~= code_view(a) + code_view(b));
}

} // verus!
