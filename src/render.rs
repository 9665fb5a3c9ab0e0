//! The text form of compiled code: one instruction or label per line.
use vstd::prelude::*;
use crate::ir::{ArithOp, Atom, CmpOp, Function, Instr, LabelKind, Operand, Program, Var, VarName};
use crate::text::{chars_of, string_of};

verus! {

/// The character of the decimal digit `d`.
pub open spec fn digit_char(d: int) -> char {
    if d == 0 {
        '0'
    } else if d == 1 {
        '1'
    } else if d == 2 {
        '2'
    } else if d == 3 {
        '3'
    } else if d == 4 {
        '4'
    } else if d == 5 {
        '5'
    } else if d == 6 {
        '6'
    } else if d == 7 {
        '7'
    } else if d == 8 {
        '8'
    } else {
        '9'
    }
}

/// The decimal digits of `n`.
pub open spec fn decimal(n: nat) -> Seq<char>
    decreases n,
{
    if n < 10 {
        seq![digit_char(n as int)]
    } else {
        decimal(n / 10) + seq![digit_char((n % 10) as int)]
    }
}

/// `n` in decimal, with a minus sign when negative.
pub open spec fn signed_decimal(n: int) -> Seq<char> {
    if n < 0 {
        seq!['-'] + decimal((-n) as nat)
    } else {
        decimal(n as nat)
    }
}

/// Appends the decimal digits of `n`.
pub fn push_decimal(out: &mut Vec<char>, n: u64)
    ensures
        final(out)@ == old(out)@ + decimal(n as nat),
    decreases n,
{
    if n >= 10 {
        push_decimal(out, n / 10);
    }
    out.push(digit_of(n % 10));
}

/// The character of a decimal digit.
fn digit_of(d: u64) -> (c: char)
    requires
        d < 10,
    ensures
        c == digit_char(d as int),
{
    match d {
        0 => '0',
        1 => '1',
        2 => '2',
        3 => '3',
        4 => '4',
        5 => '5',
        6 => '6',
        7 => '7',
        8 => '8',
        _ => '9',
    }
}

/// Appends `n` in decimal, with a minus sign when negative.
pub fn push_signed(out: &mut Vec<char>, n: i64)
    requires
        n > i64::MIN,
    ensures
        final(out)@ == old(out)@ + signed_decimal(n as int),
{
    if n < 0 {
        out.push('-');
        push_decimal(out, (-n) as u64);
        assert(final(out)@ == old(out)@ + (seq!['-'] + decimal((-n) as nat)));
    } else {
        push_decimal(out, n as u64);
    }
}

/// Appends the characters of `s`.
pub fn push_str(out: &mut Vec<char>, s: &str)
    ensures
        final(out)@ == old(out)@ + s@,
{
    let mut v = chars_of(s);
    out.append(&mut v);
}

pub open spec fn var_text(v: Var) -> Seq<char> {
    match v.name {
        VarName::User(s) => s@,
        VarName::Temp(n) => "_temp"@ + decimal(n as nat),
    }
}

/// The name of slot `x`.
pub open spec fn slot_text(vars: Seq<Var>, x: usize) -> Seq<char> {
    if x < vars.len() {
        var_text(vars[x as int])
    } else {
        "?"@
    }
}

pub open spec fn atom_text(vars: Seq<Var>, a: Atom) -> Seq<char> {
    match a {
        Atom::Lit(n) => signed_decimal(n as int),
        Atom::Var(x) => slot_text(vars, x),
    }
}

/// An operand: an atom, or `[base + index]`.
pub open spec fn operand_text(vars: Seq<Var>, o: Operand) -> Seq<char> {
    match o {
        Operand::Atom(a) => atom_text(vars, a),
        Operand::Elem(b, i) => "["@ + slot_text(vars, b) + " + "@ + atom_text(vars, i) + "]"@,
    }
}

/// A label: its role as a word, then its number.
pub open spec fn label_text(kind: LabelKind, n: u64) -> Seq<char> {
    let word = match kind {
        LabelKind::LoopBegin => ":beginningloop"@,
        LabelKind::LoopEnd => ":endloop"@,
        LabelKind::IfTrue => ":iftrue"@,
        LabelKind::Else => ":else"@,
        LabelKind::EndIf => ":endif"@,
    };
    word + decimal(n as nat)
}

pub open spec fn arith_name(op: ArithOp) -> Seq<char> {
    match op {
        ArithOp::Add => "%add"@,
        ArithOp::Sub => "%sub"@,
        ArithOp::Mult => "%mult"@,
        ArithOp::Div => "%div"@,
        ArithOp::Mod => "%mod"@,
    }
}

pub open spec fn cmp_name(op: CmpOp) -> Seq<char> {
    match op {
        CmpOp::Lt => "%lt"@,
        CmpOp::Gt => "%gt"@,
        CmpOp::Le => "%le"@,
        CmpOp::Ge => "%ge"@,
        CmpOp::Eq => "%eq"@,
        CmpOp::Neq => "%neq"@,
    }
}

/// The arguments of a call, separated by `, `.
pub open spec fn args_text(vars: Seq<Var>, args: Seq<Atom>) -> Seq<char>
    decreases args.len(),
{
    if args.len() == 0 {
        Seq::empty()
    } else if args.len() == 1 {
        atom_text(vars, args[0])
    } else {
        args_text(vars, args.drop_last()) + ", "@ + atom_text(vars, args.last())
    }
}

/// One line of code, without its newline.
pub open spec fn instr_text(vars: Seq<Var>, names: Seq<Seq<char>>, i: Instr) -> Seq<char> {
    match i {
        Instr::Int(x) => "%int "@ + slot_text(vars, x),
        Instr::IntArray(x, n) => "%int[] "@ + slot_text(vars, x) + ", "@ + signed_decimal(n as int),
        Instr::Mov(d, s) => "%mov "@ + operand_text(vars, d) + ", "@ + operand_text(vars, s),
        Instr::Arith(op, d, x, y) => arith_name(op) + " "@ + slot_text(vars, d) + ", "@ + atom_text(
            vars,
            x,
        ) + ", "@ + atom_text(vars, y),
        Instr::Cmp(op, d, x, y) => cmp_name(op) + " "@ + slot_text(vars, d) + ", "@ + atom_text(
            vars,
            x,
        ) + ", "@ + atom_text(vars, y),
        Instr::BranchIf(c, kind, n) => "%branch_if "@ + atom_text(vars, c) + ", "@ + label_text(
            kind,
            n,
        ),
        Instr::BranchIfn(c, kind, n) => "%branch_ifn "@ + atom_text(vars, c) + ", "@ + label_text(
            kind,
            n,
        ),
        Instr::Jmp(kind, n) => "%jmp "@ + label_text(kind, n),
        Instr::Label(kind, n) => label_text(kind, n),
        Instr::Call(d, f, args) => "%call "@ + slot_text(vars, d) + ", "@ + (if f < names.len() {
            names[f as int]
        } else {
            "?"@
        }) + "("@ + args_text(vars, args@) + ")"@,
        Instr::Ret(a) => "%ret "@ + atom_text(vars, a),
        Instr::Out(a) => "%out "@ + atom_text(vars, a),
        Instr::Input(d) => "%input "@ + operand_text(vars, d),
    }
}

/// The lines of a body, each ending in a newline.
pub open spec fn body_text(vars: Seq<Var>, names: Seq<Seq<char>>, body: Seq<Instr>) -> Seq<char>
    decreases body.len(),
{
    if body.len() == 0 {
        Seq::empty()
    } else {
        body_text(vars, names, body.drop_last()) + instr_text(vars, names, body.last()) + "\n"@
    }
}

/// The parameter list of a function header: `%int p` for each, separated by `, `.
pub open spec fn params_text(vars: Seq<Var>, k: nat) -> Seq<char>
    decreases k,
{
    if k == 0 {
        Seq::empty()
    } else if k == 1 {
        "%int "@ + slot_text(vars, 0)
    } else {
        params_text(vars, (k - 1) as nat) + ", "@ + "%int "@ + slot_text(vars, (k - 1) as usize)
    }
}

/// A function: its header, its body and `%endfunc`.
pub open spec fn function_text(f: Function, names: Seq<Seq<char>>) -> Seq<char> {
    "%func "@ + f.name@ + "("@ + params_text(f.vars@, f.params as nat) + ")\n"@ + body_text(
        f.vars@,
        names,
        f.body@,
    ) + "%endfunc\n"@
}

pub open spec fn names_of(fs: Seq<Function>) -> Seq<Seq<char>> {
    fs.map_values(|f: Function| f.name@)
}

/// The functions of a program, one after another.
pub open spec fn functions_text(fs: Seq<Function>, names: Seq<Seq<char>>) -> Seq<char>
    decreases fs.len(),
{
    if fs.len() == 0 {
        Seq::empty()
    } else {
        functions_text(fs.drop_last(), names) + function_text(fs.last(), names)
    }
}

/// The text form of a program: its functions, one after another.
pub open spec fn program_text(p: Program) -> Seq<char> {
    functions_text(p.functions@, names_of(p.functions@))
}

fn push_slot(out: &mut Vec<char>, vars: &Vec<Var>, x: usize)
    ensures
        final(out)@ == old(out)@ + slot_text(vars@, x),
{
    if x < vars.len() {
        match &vars[x].name {
            VarName::User(s) => {
                let mut v = s.clone();
                assert(v@ == s@);
                out.append(&mut v);
            },
            VarName::Temp(n) => {
                push_str(out, "_temp");
                push_decimal(out, *n);
                assert(final(out)@ == old(out)@ + ("_temp"@ + decimal(*n as nat)));
            },
        }
    } else {
        push_str(out, "?");
    }
}

fn push_atom(out: &mut Vec<char>, vars: &Vec<Var>, a: Atom)
    ensures
        final(out)@ == old(out)@ + atom_text(vars@, a),
{
    match a {
        Atom::Lit(n) => push_signed(out, n as i64),
        Atom::Var(x) => push_slot(out, vars, x),
    }
}

fn push_operand(out: &mut Vec<char>, vars: &Vec<Var>, o: Operand)
    ensures
        final(out)@ == old(out)@ + operand_text(vars@, o),
{
    match o {
        Operand::Atom(a) => push_atom(out, vars, a),
        Operand::Elem(b, i) => {
            let ghost o0 = out@;
            push_str(out, "[");
            push_slot(out, vars, b);
            push_str(out, " + ");
            push_atom(out, vars, i);
            push_str(out, "]");
            assert(out@ == o0 + ("["@ + slot_text(vars@, b) + " + "@ + atom_text(vars@, i) + "]"@));
        },
    }
}

fn push_label(out: &mut Vec<char>, kind: LabelKind, n: u64)
    ensures
        final(out)@ == old(out)@ + label_text(kind, n),
{
    let ghost o0 = out@;
    match kind {
        LabelKind::LoopBegin => push_str(out, ":beginningloop"),
        LabelKind::LoopEnd => push_str(out, ":endloop"),
        LabelKind::IfTrue => push_str(out, ":iftrue"),
        LabelKind::Else => push_str(out, ":else"),
        LabelKind::EndIf => push_str(out, ":endif"),
    }
    push_decimal(out, n);
    assert(out@ == o0 + label_text(kind, n));
}

fn push_args(out: &mut Vec<char>, vars: &Vec<Var>, args: &Vec<Atom>)
    ensures
        final(out)@ == old(out)@ + args_text(vars@, args@),
{
    let ghost o0 = out@;
    let mut j: usize = 0;
    while j < args.len()
        invariant
            j <= args@.len(),
            out@ == o0 + args_text(vars@, args@.take(j as int)),
        decreases args.len() - j,
    {
        let ghost before = out@;
        if j > 0 {
            push_str(out, ", ");
        }
        push_atom(out, vars, args[j]);
        proof {
            let t = args@.take(j + 1);
            assert(t.drop_last() == args@.take(j as int));
            assert(t.last() == args@[j as int]);
            if j == 0 {
                assert(args@.take(0) == Seq::<Atom>::empty());
                assert(out@ == o0 + atom_text(vars@, args@[0]));
            } else {
                assert(out@ == o0 + (args_text(vars@, args@.take(j as int)) + ", "@ + atom_text(vars@, args@[j as int])));
            }
        }
        j = j + 1;
    }
    assert(args@.take(args@.len() as int) == args@);
}

fn push_binary(out: &mut Vec<char>, vars: &Vec<Var>, name: &str, d: usize, x: Atom, y: Atom)
    ensures
        final(out)@ == old(out)@ + (name@ + " "@ + slot_text(vars@, d) + ", "@ + atom_text(vars@, x)
            + ", "@ + atom_text(vars@, y)),
{
    let ghost o0 = out@;
    push_str(out, name);
    push_str(out, " ");
    push_slot(out, vars, d);
    push_str(out, ", ");
    push_atom(out, vars, x);
    push_str(out, ", ");
    push_atom(out, vars, y);
    assert(out@ =~= o0 + (name@ + " "@ + slot_text(vars@, d) + ", "@ + atom_text(vars@, x) + ", "@
        + atom_text(vars@, y)));
}

fn push_branch(out: &mut Vec<char>, vars: &Vec<Var>, name: &str, c: Atom, kind: LabelKind, n: u64)
    ensures
        final(out)@ == old(out)@ + (name@ + atom_text(vars@, c) + ", "@ + label_text(kind, n)),
{
    let ghost o0 = out@;
    push_str(out, name);
    push_atom(out, vars, c);
    push_str(out, ", ");
    push_label(out, kind, n);
    assert(out@ =~= o0 + (name@ + atom_text(vars@, c) + ", "@ + label_text(kind, n)));
}

fn push_two(out: &mut Vec<char>, vars: &Vec<Var>, name: &str, d: Operand, src: Operand)
    ensures
        final(out)@ == old(out)@ + (name@ + operand_text(vars@, d) + ", "@ + operand_text(vars@, src)),
{
    let ghost o0 = out@;
    push_str(out, name);
    push_operand(out, vars, d);
    push_str(out, ", ");
    push_operand(out, vars, src);
    assert(out@ =~= o0 + (name@ + operand_text(vars@, d) + ", "@ + operand_text(vars@, src)));
}

fn push_one(out: &mut Vec<char>, vars: &Vec<Var>, name: &str, a: Operand)
    ensures
        final(out)@ == old(out)@ + (name@ + operand_text(vars@, a)),
{
    let ghost o0 = out@;
    push_str(out, name);
    push_operand(out, vars, a);
    assert(out@ =~= o0 + (name@ + operand_text(vars@, a)));
}

fn push_call(
    out: &mut Vec<char>,
    vars: &Vec<Var>,
    names: &Vec<Vec<char>>,
    d: usize,
    f: usize,
    args: &Vec<Atom>,
)
    ensures
        final(out)@ == old(out)@ + ("%call "@ + slot_text(vars@, d) + ", "@ + (if f < names@.len() {
            names@[f as int]@
        } else {
            "?"@
        }) + "("@ + args_text(vars@, args@) + ")"@),
{
    let ghost o0 = out@;
    push_str(out, "%call ");
    push_slot(out, vars, d);
    push_str(out, ", ");
    let ghost o1 = out@;
    if f < names.len() {
        let mut v = names[f].clone();
        assert(v@ == names@[f as int]@);
        out.append(&mut v);
    } else {
        push_str(out, "?");
    }
    push_str(out, "(");
    push_args(out, vars, args);
    push_str(out, ")");
    assert(out@ =~= o0 + ("%call "@ + slot_text(vars@, d) + ", "@ + (if f < names@.len() {
        names@[f as int]@
    } else {
        "?"@
    }) + "("@ + args_text(vars@, args@) + ")"@));
}

fn push_instr(out: &mut Vec<char>, vars: &Vec<Var>, names: &Vec<Vec<char>>, i: &Instr)
    ensures
        final(out)@ == old(out)@ + instr_text(vars@, names@.map_values(|n: Vec<char>| n@), *i),
{
    let ghost nm = names@.map_values(|n: Vec<char>| n@);
    match i {
        Instr::Int(x) => push_one(out, vars, "%int ", Operand::Atom(Atom::Var(*x))),
        Instr::IntArray(x, n) => {
            let ghost o0 = out@;
            push_str(out, "%int[] ");
            push_slot(out, vars, *x);
            push_str(out, ", ");
            push_signed(out, *n as i64);
            assert(out@ =~= o0 + ("%int[] "@ + slot_text(vars@, *x) + ", "@ + signed_decimal(*n as int)));
        },
        Instr::Mov(d, src) => push_two(out, vars, "%mov ", *d, *src),
        Instr::Arith(op, d, x, y) => match op {
            ArithOp::Add => push_binary(out, vars, "%add", *d, *x, *y),
            ArithOp::Sub => push_binary(out, vars, "%sub", *d, *x, *y),
            ArithOp::Mult => push_binary(out, vars, "%mult", *d, *x, *y),
            ArithOp::Div => push_binary(out, vars, "%div", *d, *x, *y),
            ArithOp::Mod => push_binary(out, vars, "%mod", *d, *x, *y),
        },
        Instr::Cmp(op, d, x, y) => match op {
            CmpOp::Lt => push_binary(out, vars, "%lt", *d, *x, *y),
            CmpOp::Gt => push_binary(out, vars, "%gt", *d, *x, *y),
            CmpOp::Le => push_binary(out, vars, "%le", *d, *x, *y),
            CmpOp::Ge => push_binary(out, vars, "%ge", *d, *x, *y),
            CmpOp::Eq => push_binary(out, vars, "%eq", *d, *x, *y),
            CmpOp::Neq => push_binary(out, vars, "%neq", *d, *x, *y),
        },
        Instr::BranchIf(c, kind, n) => push_branch(out, vars, "%branch_if ", *c, *kind, *n),
        Instr::BranchIfn(c, kind, n) => push_branch(out, vars, "%branch_ifn ", *c, *kind, *n),
        Instr::Jmp(kind, n) => {
            let ghost o0 = out@;
            push_str(out, "%jmp ");
            push_label(out, *kind, *n);
            assert(out@ =~= o0 + ("%jmp "@ + label_text(*kind, *n)));
        },
        Instr::Label(kind, n) => push_label(out, *kind, *n),
        Instr::Call(d, f, args) => {
            push_call(out, vars, names, *d, *f, args);
        },
        Instr::Ret(a) => push_one(out, vars, "%ret ", Operand::Atom(*a)),
        Instr::Out(a) => push_one(out, vars, "%out ", Operand::Atom(*a)),
        Instr::Input(d) => push_one(out, vars, "%input ", *d),
    }
}

fn push_body(out: &mut Vec<char>, vars: &Vec<Var>, names: &Vec<Vec<char>>, body: &Vec<Instr>)
    ensures
        final(out)@ == old(out)@ + body_text(vars@, names@.map_values(|n: Vec<char>| n@), body@),
{
    let ghost nm = names@.map_values(|n: Vec<char>| n@);
    let ghost o0 = out@;
    let mut i: usize = 0;
    while i < body.len()
        invariant
            i <= body@.len(),
            nm == names@.map_values(|n: Vec<char>| n@),
            out@ == o0 + body_text(vars@, nm, body@.take(i as int)),
        decreases body.len() - i,
    {
        push_instr(out, vars, names, &body[i]);
        push_str(out, "\n");
        proof {
            let t = body@.take(i + 1);
            assert(t.drop_last() == body@.take(i as int));
            assert(t.last() == body@[i as int]);
            assert(out@ =~= o0 + body_text(vars@, nm, t));
        }
        i = i + 1;
    }
    assert(body@.take(body@.len() as int) == body@);
}

fn push_params(out: &mut Vec<char>, vars: &Vec<Var>, k: usize)
    ensures
        final(out)@ == old(out)@ + params_text(vars@, k as nat),
{
    let ghost o0 = out@;
    let mut i: usize = 0;
    while i < k
        invariant
            i <= k,
            out@ == o0 + params_text(vars@, i as nat),
        decreases k - i,
    {
        if i > 0 {
            push_str(out, ", ");
        }
        push_str(out, "%int ");
        push_slot(out, vars, i);
        proof {
            if i == 0 {
                assert(out@ =~= o0 + params_text(vars@, 1));
            } else {
                assert(out@ =~= o0 + params_text(vars@, (i + 1) as nat));
            }
        }
        i = i + 1;
    }
}

fn push_function(out: &mut Vec<char>, f: &Function, names: &Vec<Vec<char>>)
    ensures
        final(out)@ == old(out)@ + function_text(*f, names@.map_values(|n: Vec<char>| n@)),
{
    let ghost o0 = out@;
    push_str(out, "%func ");
    let mut name = f.name.clone();
    assert(name@ == f.name@);
    out.append(&mut name);
    push_str(out, "(");
    push_params(out, &f.vars, f.params);
    push_str(out, ")\n");
    push_body(out, &f.vars, names, &f.body);
    push_str(out, "%endfunc\n");
    assert(out@ =~= o0 + function_text(*f, names@.map_values(|n: Vec<char>| n@)));
}

/// The text form of a program.
pub fn render(p: &Program) -> (r: String)
    ensures
        r@ == program_text(*p),
{
    let fs = &p.functions;
    let mut names: Vec<Vec<char>> = Vec::new();
    let mut i: usize = 0;
    while i < fs.len()
        invariant
            i <= fs@.len(),
            names@.len() == i,
            forall|j: int| 0 <= j < i ==> (#[trigger] names@[j])@ == fs@[j].name@,
        decreases fs.len() - i,
    {
        names.push(fs[i].name.clone());
        i = i + 1;
    }
    let ghost nm = names@.map_values(|n: Vec<char>| n@);
    assert(nm =~= names_of(fs@));
    let mut out: Vec<char> = Vec::new();
    let mut k: usize = 0;
    while k < fs.len()
        invariant
            k <= fs@.len(),
            nm == names@.map_values(|n: Vec<char>| n@),
            nm == names_of(fs@),
            out@ == functions_text(fs@.take(k as int), nm),
        decreases fs.len() - k,
    {
        push_function(&mut out, &fs[k], &names);
        proof {
            let t = fs@.take(k + 1);
            assert(t.drop_last() == fs@.take(k as int));
            assert(t.last() == fs@[k as int]);
        }
        k = k + 1;
    }
    assert(fs@.take(fs@.len() as int) == fs@);
    string_of(&out)
}

} // verus!
