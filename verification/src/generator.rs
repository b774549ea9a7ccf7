//! Single-pass code generation: turns the program AST into assembly text.
//!
//! The emission model is one working register (`X0`) plus an explicit
//! operand stack backed by the machine stack: every expression ends with a
//! push of the working register, and every slot is 16 bytes wide. The spec
//! functions [`gen_expr_v`], [`gen_stmt_v`] and [`gen_stmts_v`] state
//! exactly which text (or which diagnostic) a program yields;
//! [`Generator::generate`] is proved to produce it.

use vstd::prelude::*;
use vstd::string::StringExecFns;

use crate::parser::{ExprV, NodeExpr, NodeProg, NodeStmt, NodeStmtLet, StmtV};

verus! {

/// Width in bytes of one operand-stack slot.
pub const REG_SIZE: usize = 16;

/// Mathematical model of a symbol-table entry: an identifier bound to the
/// operand-stack slot it occupied at declaration time.
pub ghost struct VarV {
    pub name: Seq<char>,
    pub slot: nat,
}

/// Mathematical model of a generation diagnostic.
pub ghost enum GenErrorV {
    Undeclared { name: Seq<char> },
    Redeclared { name: Seq<char> },
    UnsupportedBinExpr,
}

/// A semantic diagnostic from code generation: an identifier referenced
/// before any `let` of it, an identifier declared twice, or a binary
/// expression (which has no generation scheme). Every such error is
/// terminal for the whole compilation.
#[derive(Debug)]
pub enum GenError {
    UndeclaredIdent(String),
    RedeclaredIdent(String),
    UnsupportedBinExpr,
}

impl View for GenError {
    type V = GenErrorV;

    open spec fn view(&self) -> GenErrorV {
        match self {
            GenError::UndeclaredIdent(s) => GenErrorV::Undeclared { name: s@ },
            GenError::RedeclaredIdent(s) => GenErrorV::Redeclared { name: s@ },
            GenError::UnsupportedBinExpr => GenErrorV::UnsupportedBinExpr,
        }
    }
}

impl GenError {
    /// The diagnostic text for this error.
    pub open spec fn message_view(&self) -> Seq<char> {
        match self {
            GenError::UndeclaredIdent(s) => "Identifier `"@ + s@ + "` not found"@,
            GenError::RedeclaredIdent(s) => "ERROR: identifier `"@ + s@ + "` already exists"@,
            GenError::UnsupportedBinExpr => "ERROR: binary expressions are unsupported"@,
        }
    }

    /// Renders the diagnostic.
    pub fn message(&self) -> (m: String)
        ensures
            m@ == self.message_view(),
    {
        match self {
            GenError::UndeclaredIdent(s) => {
                let mut m = "Identifier `".to_owned();
                m.append(s.as_str());
                m.append("` not found");
                m
            },
            GenError::RedeclaredIdent(s) => {
                let mut m = "ERROR: identifier `".to_owned();
                m.append(s.as_str());
                m.append("` already exists");
                m
            },
            GenError::UnsupportedBinExpr => "ERROR: binary expressions are unsupported".to_owned(),
        }
    }
}

/// The uppercase hexadecimal digit for a value below sixteen.
pub open spec fn hex_digit(d: nat) -> char {
    if d == 0 {
        '0'
    } else if d == 1 {
        '1'
    } else if d == 2 {
        '2'
    } else if d == 3 {
        '3'
    } else if d == 4 {
        '4'
    } else if d == 5 {
        '5'
    } else if d == 6 {
        '6'
    } else if d == 7 {
        '7'
    } else if d == 8 {
        '8'
    } else if d == 9 {
        '9'
    } else if d == 10 {
        'A'
    } else if d == 11 {
        'B'
    } else if d == 12 {
        'C'
    } else if d == 13 {
        'D'
    } else if d == 14 {
        'E'
    } else {
        'F'
    }
}

/// The uppercase hexadecimal spelling of `n`, with no leading zeros
/// (a single `0` for zero itself).
pub open spec fn hex_str(n: nat) -> Seq<char>
    decreases n,
{
    if n < 16 {
        seq![hex_digit(n)]
    } else {
        hex_str(n / 16).push(hex_digit(n % 16))
    }
}

fn hex_digit_str(d: u8) -> (r: &'static str)
    requires
        d < 16,
    ensures
        r@ == seq![hex_digit(d as nat)],
{
    proof {
        reveal_strlit("0");
        reveal_strlit("1");
        reveal_strlit("2");
        reveal_strlit("3");
        reveal_strlit("4");
        reveal_strlit("5");
        reveal_strlit("6");
        reveal_strlit("7");
        reveal_strlit("8");
        reveal_strlit("9");
        reveal_strlit("A");
        reveal_strlit("B");
        reveal_strlit("C");
        reveal_strlit("D");
        reveal_strlit("E");
        reveal_strlit("F");
    }
    let r = if d == 0 {
        "0"
    } else if d == 1 {
        "1"
    } else if d == 2 {
        "2"
    } else if d == 3 {
        "3"
    } else if d == 4 {
        "4"
    } else if d == 5 {
        "5"
    } else if d == 6 {
        "6"
    } else if d == 7 {
        "7"
    } else if d == 8 {
        "8"
    } else if d == 9 {
        "9"
    } else if d == 10 {
        "A"
    } else if d == 11 {
        "B"
    } else if d == 12 {
        "C"
    } else if d == 13 {
        "D"
    } else if d == 14 {
        "E"
    } else {
        "F"
    };
    proof {
        assert(r@ =~= seq![hex_digit(d as nat)]);
    }
    r
}

/// Spells `n` in uppercase hexadecimal, exactly as [`hex_str`] says.
fn hex_string(n: u128) -> (s: String)
    ensures
        s@ == hex_str(n as nat),
    decreases n,
{
    if n < 16 {
        hex_digit_str(n as u8).to_owned()
    } else {
        let rest = hex_string(n / 16);
        let s = rest.concat(hex_digit_str((n % 16) as u8));
        proof {
            assert(s@ =~= hex_str(n as nat));
        }
        s
    }
}

/// Text of a push: store the given register on a fresh 16-byte stack slot.
pub open spec fn push_line(reg: Seq<char>) -> Seq<char> {
    "    str "@ + reg + ", [sp, #-0x10]!\n"@
}

/// Text of a pop: read the top stack slot back into the given register.
pub open spec fn pop_line(reg: Seq<char>) -> Seq<char> {
    "    ldr "@ + reg + ", [sp]\n"@
}

/// Text loading an integer literal's digits into the working register.
pub open spec fn mov_literal_line(digits: Seq<char>) -> Seq<char> {
    "    mov X0, #"@ + digits + "\n"@
}

/// Text loading the working register from a stack slot `off` bytes above
/// the stack pointer.
pub open spec fn load_ident_line(off: nat) -> Seq<char> {
    "    ldr X0, [sp, #0x"@ + hex_str(off) + "]\n"@
}

/// The two-instruction process-exit sequence; the working register holds
/// the exit status.
pub open spec fn exit_syscall_text() -> Seq<char> {
    "    mov X16, #1\n"@ + "    svc #0x80\n"@
}

/// The entry-point boilerplate every program starts with.
pub open spec fn prologue_text() -> Seq<char> {
    ".global _start\n"@ + ".align 2\n\n"@ + "_start:\n"@
}

/// The implicit final exit with status zero every program ends with.
pub open spec fn epilogue_text() -> Seq<char> {
    "    mov X0, #0\n"@ + exit_syscall_text()
}

/// Byte offset of a slot from the current top of stack: slots are numbered
/// from the bottom, so slot `slot` sits `(stack - slot - 1)` slots, each
/// sixteen bytes, above the stack pointer.
pub open spec fn slot_byte_offset(slot: nat, stack: nat) -> nat
    recommends
        slot < stack,
{
    ((stack - slot - 1) * 16) as nat
}

/// Looks an identifier up in the symbol table, front to back.
pub open spec fn lookup(vs: Seq<VarV>, name: Seq<char>) -> Option<nat>
    decreases vs.len(),
{
    if vs.len() == 0 {
        None
    } else if vs[0].name == name {
        Some(vs[0].slot)
    } else {
        lookup(vs.skip(1), name)
    }
}

/// Every slot in the symbol table is below the current stack size.
pub open spec fn vars_wf(vs: Seq<VarV>, stack: nat) -> bool {
    forall|i: int| 0 <= i < vs.len() ==> vs[i].slot < stack
}

/// A found slot is one of the table's slots.
pub proof fn lemma_lookup_found(vs: Seq<VarV>, name: Seq<char>)
    requires
        lookup(vs, name) is Some,
    ensures
        exists|i: int| 0 <= i < vs.len() && vs[i].slot == lookup(vs, name).unwrap(),
    decreases vs.len(),
{
    if vs.len() == 0 {
    } else if vs[0].name == name {
        assert(vs[0].slot == lookup(vs, name).unwrap());
    } else {
        lemma_lookup_found(vs.skip(1), name);
        let j = choose|i: int|
            0 <= i < vs.skip(1).len() && vs.skip(1)[i].slot == lookup(vs.skip(1), name).unwrap();
        assert(vs[j + 1].slot == lookup(vs, name).unwrap());
    }
}

/// What generating one expression yields: the text it emits, or the
/// diagnostic, in which case nothing is emitted. Every successful
/// expression ends by pushing the working register, so it grows the
/// machine stack by one slot.
pub open spec fn gen_expr_v(e: ExprV, vars: Seq<VarV>, stack: nat) -> Result<Seq<char>, GenErrorV> {
    match e {
        ExprV::IntLiteral { digits } => Ok(mov_literal_line(digits) + push_line("X0"@)),
        ExprV::Ident { name } => match lookup(vars, name) {
            None => Err(GenErrorV::Undeclared { name }),
            Some(slot) => Ok(
                load_ident_line(slot_byte_offset(slot, stack)) + push_line("X0"@),
            ),
        },
        ExprV::Add { .. } => Err(GenErrorV::UnsupportedBinExpr),
        ExprV::Mul { .. } => Err(GenErrorV::UnsupportedBinExpr),
    }
}

/// The outcome of generating a statement sequence: the text emitted, the
/// symbol table and stack size afterwards, and the diagnostic that stopped
/// generation, if any.
pub ghost struct GenStep {
    pub text: Seq<char>,
    pub vars: Seq<VarV>,
    pub stack: nat,
    pub err: Option<GenErrorV>,
}

/// What generating one statement yields. An `exit` generates its
/// expression, pops the value back into the working register and emits the
/// process-exit sequence; a `let` first rejects a redeclared name, then
/// generates its initializer and binds the name to the slot the value now
/// occupies, growing the stack by one. A failing statement emits nothing.
pub open spec fn gen_stmt_v(s: StmtV, vars: Seq<VarV>, stack: nat) -> GenStep {
    match s {
        StmtV::Exit { expr } => match gen_expr_v(expr, vars, stack) {
            Err(e) => GenStep { text: Seq::empty(), vars, stack, err: Some(e) },
            Ok(t) => GenStep {
                text: t + pop_line("X0"@) + exit_syscall_text(),
                vars,
                stack,
                err: None,
            },
        },
        StmtV::Let { name, expr } => {
            if lookup(vars, name) is Some {
                GenStep {
                    text: Seq::empty(),
                    vars,
                    stack,
                    err: Some(GenErrorV::Redeclared { name }),
                }
            } else {
                match gen_expr_v(expr, vars, stack) {
                    Err(e) => GenStep { text: Seq::empty(), vars, stack, err: Some(e) },
                    Ok(t) => GenStep {
                        text: t,
                        vars: vars.push(VarV { name, slot: stack }),
                        stack: stack + 1,
                        err: None,
                    },
                }
            }
        },
    }
}

/// What generating a statement sequence yields: statements in source
/// order, stopping at the first diagnostic but keeping the text emitted
/// before it.
pub open spec fn gen_stmts_v(ss: Seq<StmtV>, vars: Seq<VarV>, stack: nat) -> GenStep
    decreases ss.len(),
{
    if ss.len() == 0 {
        GenStep { text: Seq::empty(), vars, stack, err: None }
    } else {
        let step = gen_stmt_v(ss[0], vars, stack);
        if step.err is Some {
            step
        } else {
            let rest = gen_stmts_v(ss.skip(1), step.vars, step.stack);
            GenStep {
                text: step.text + rest.text,
                vars: rest.vars,
                stack: rest.stack,
                err: rest.err,
            }
        }
    }
}

/// The models of the symbol-table entries, element by element.
pub open spec fn vars_view(vs: Seq<(String, Var)>) -> Seq<VarV> {
    vs.map_values(|p: (String, Var)| VarV { name: p.0@, slot: p.1.stack_loc as nat })
}

proof fn lemma_vars_view_push(vs: Seq<(String, Var)>, p: (String, Var))
    ensures
        vars_view(vs.push(p)) == vars_view(vs).push(
            VarV { name: p.0@, slot: p.1.stack_loc as nat },
        ),
{
    assert(vars_view(vs.push(p)) =~= vars_view(vs).push(
        VarV { name: p.0@, slot: p.1.stack_loc as nat },
    ));
}

proof fn lemma_lookup_from(vs: Seq<VarV>, name: Seq<char>, i: int)
    requires
        0 <= i <= vs.len(),
        forall|k: int| 0 <= k < i ==> vs[k].name != name,
    ensures
        lookup(vs, name) == lookup(vs.skip(i), name),
    decreases i,
{
    if i == 0 {
        assert(vs.skip(0) =~= vs);
    } else {
        assert(forall|k: int| 0 <= k < i - 1 ==> vs.skip(1)[k].name != name);
        lemma_lookup_from(vs.skip(1), name, i - 1);
        assert(vs.skip(1).skip(i - 1) =~= vs.skip(i));
    }
}

/// A symbol-table entry: the stack slot an identifier occupied at
/// declaration time.
#[derive(Debug, Clone, Copy)]
pub struct Var {
    pub stack_loc: usize,
}

/// Walks the program once, keeping an append-only output buffer, a symbol
/// table and the running operand-stack size. Nothing is ever rolled back:
/// the table and the stack only grow.
pub struct Generator {
    pub prog: NodeProg,
    pub output: String,
    pub vars: Vec<(String, Var)>,
    pub stack_size: usize,
}

impl Generator {
    /// The models of the symbol-table entries.
    pub open spec fn sym(&self) -> Seq<VarV> {
        vars_view(self.vars@)
    }

    /// The output text emitted so far.
    pub open spec fn out(&self) -> Seq<char> {
        self.output@
    }

    /// The running operand-stack size, in slots.
    pub open spec fn stack(&self) -> nat {
        self.stack_size as nat
    }

    /// Every recorded slot lies below the stack size, and the stack can
    /// still grow by one slot per remaining statement.
    pub open spec fn wf(&self) -> bool {
        &&& vars_wf(self.sym(), self.stack())
        &&& self.stack() + self.prog@.len() <= usize::MAX
    }

    pub fn new(prog: NodeProg) -> (g: Self)
        ensures
            g.prog == prog,
            g.out() == Seq::<char>::empty(),
            g.sym() == Seq::<VarV>::empty(),
            g.stack() == 0,
            g.wf(),
    {
        let stmt_count = prog.stmts.len();
        let g = Self { prog, output: String::new(), vars: Vec::new(), stack_size: 0 };
        proof {
            assert(g.prog@.len() == stmt_count);
            assert(g.sym() =~= Seq::<VarV>::empty());
        }
        g
    }

    /// Looks an identifier up in the symbol table: the slot recorded for
    /// it, if any, exactly as the spec function [`lookup`] says.
    pub fn var_slot(&self, name: &String) -> (r: Option<usize>)
        ensures
            match r {
                Some(slot) => lookup(self.sym(), name@) == Some(slot as nat),
                None => lookup(self.sym(), name@) is None,
            },
    {
        let mut i: usize = 0;
        while i < self.vars.len()
            invariant
                0 <= i <= self.vars@.len(),
                forall|k: int| 0 <= k < i ==> vars_view(self.vars@)[k].name != name@,
            decreases self.vars@.len() - i,
        {
            if self.vars[i].0 == *name {
                proof {
                    lemma_lookup_from(self.sym(), name@, i as int);
                    assert(self.sym().skip(i as int)[0].name == name@);
                }
                return Some(self.vars[i].1.stack_loc);
            }
            i = i + 1;
        }
        proof {
            lemma_lookup_from(self.sym(), name@, i as int);
            assert(self.sym().skip(i as int).len() == 0);
        }
        None
    }

    fn push(&mut self, reg: &str)
        ensures
            final(self).out() == old(self).out() + push_line(reg@),
            final(self).prog == old(self).prog,
            final(self).vars == old(self).vars,
            final(self).stack_size == old(self).stack_size,
    {
        self.output.append("    str ");
        self.output.append(reg);
        self.output.append(", [sp, #-0x10]!\n");
        proof {
            assert(self.out() =~= old(self).out() + push_line(reg@));
        }
    }

    fn pop(&mut self, reg: &str)
        ensures
            final(self).out() == old(self).out() + pop_line(reg@),
            final(self).prog == old(self).prog,
            final(self).vars == old(self).vars,
            final(self).stack_size == old(self).stack_size,
    {
        self.output.append("    ldr ");
        self.output.append(reg);
        self.output.append(", [sp]\n");
        proof {
            assert(self.out() =~= old(self).out() + pop_line(reg@));
        }
    }

    /// Generates one expression: emits exactly the text the spec function
    /// [`gen_expr_v`] says, or returns its diagnostic having emitted
    /// nothing. The symbol table and stack size never change here.
    pub fn generate_expr(&mut self, expr: Box<NodeExpr>) -> (r: Result<(), GenError>)
        requires
            vars_wf(old(self).sym(), old(self).stack()),
        ensures
            final(self).prog == old(self).prog,
            final(self).vars == old(self).vars,
            final(self).stack_size == old(self).stack_size,
            match gen_expr_v(expr@, old(self).sym(), old(self).stack()) {
                Ok(text) => r is Ok && final(self).out() == old(self).out() + text,
                Err(ev) => {
                    &&& r matches Err(e)
                    &&& e@ == ev
                    &&& final(self).out() == old(self).out()
                },
            },
    {
        match *expr {
            NodeExpr::IntLiteral(int_literal) => {
                let value = match int_literal.value {
                    Some(v) => v,
                    None => String::new(),
                };
                self.output.append("    mov X0, #");
                self.output.append(value.as_str());
                self.output.append("\n");
                self.push("X0");
                proof {
                    assert(self.out() =~= old(self).out() + (mov_literal_line(value@) + push_line(
                        "X0"@,
                    )));
                }
                Ok(())
            },
            NodeExpr::Ident(ident_token) => {
                let ident = match ident_token.value {
                    Some(v) => v,
                    None => String::new(),
                };
                match self.var_slot(&ident) {
                    None => Err(GenError::UndeclaredIdent(ident)),
                    Some(slot) => {
                        proof {
                            lemma_lookup_found(self.sym(), ident@);
                        }
                        let offset = self.stack_size - slot - 1;
                        let byte_off: u128 = (offset as u128) * 16;
                        let hex = hex_string(byte_off);
                        self.output.append("    ldr X0, [sp, #0x");
                        self.output.append(hex.as_str());
                        self.output.append("]\n");
                        self.push("X0");
                        proof {
                            assert(self.out() =~= old(self).out() + (load_ident_line(
                                slot_byte_offset(slot as nat, old(self).stack()),
                            ) + push_line("X0"@)));
                        }
                        Ok(())
                    },
                }
            },
            NodeExpr::BinExpr(_bin_expr) => Err(GenError::UnsupportedBinExpr),
        }
    }

    /// Generates one statement: emits exactly the text the spec function
    /// [`gen_stmt_v`] says and applies its symbol-table and stack effects,
    /// or returns its diagnostic having emitted and changed nothing.
    pub fn generate_stmt(&mut self, stmt: NodeStmt) -> (r: Result<(), GenError>)
        requires
            vars_wf(old(self).sym(), old(self).stack()),
            old(self).stack() < usize::MAX,
        ensures
            final(self).prog == old(self).prog,
            ({
                let step = gen_stmt_v(stmt@, old(self).sym(), old(self).stack());
                match r {
                    Ok(u) => {
                        &&& step.err is None
                        &&& final(self).out() == old(self).out() + step.text
                        &&& final(self).sym() == step.vars
                        &&& final(self).stack() == step.stack
                        &&& vars_wf(final(self).sym(), final(self).stack())
                    },
                    Err(e) => {
                        &&& step.err == Some(e@)
                        &&& final(self).out() == old(self).out()
                        &&& final(self).sym() == old(self).sym()
                        &&& final(self).stack() == old(self).stack()
                    },
                }
            }),
    {
        match stmt {
            NodeStmt::Exit(exit_stmt) => {
                match self.generate_expr(exit_stmt.expr) {
                    Err(e) => {
                        return Err(e);
                    },
                    Ok(u) => {},
                }
                self.pop("X0");
                self.output.append("    mov X16, #1\n");
                self.output.append("    svc #0x80\n");
                proof {
                    let step = gen_stmt_v(stmt@, old(self).sym(), old(self).stack());
                    assert(self.out() =~= old(self).out() + step.text);
                }
                Ok(())
            },
            NodeStmt::Let(let_stmt) => {
                let NodeStmtLet { ident, expr } = *let_stmt;
                let name = match ident.value {
                    Some(v) => v,
                    None => String::new(),
                };
                if self.var_slot(&name).is_some() {
                    return Err(GenError::RedeclaredIdent(name));
                }
                match self.generate_expr(expr) {
                    Err(e) => {
                        return Err(e);
                    },
                    Ok(u) => {},
                }
                let slot = self.stack_size;
                proof {
                    lemma_vars_view_push(self.vars@, (name, Var { stack_loc: slot }));
                }
                self.vars.push((name, Var { stack_loc: slot }));
                self.stack_size = self.stack_size + 1;
                Ok(())
            },
        }
    }

    /// Generates the whole program: the entry boilerplate, every statement
    /// in source order, and an implicit final exit with status zero, and
    /// returns the accumulated output. On the first semantic diagnostic
    /// generation stops with exactly the text emitted up to the failing
    /// statement and no epilogue: the outcome, text and diagnostic alike,
    /// is exactly what the spec function [`gen_stmts_v`] says.
    pub fn generate(&mut self) -> (r: Result<String, GenError>)
        requires
            old(self).wf(),
        ensures
            final(self).prog == old(self).prog,
            ({
                let oc = gen_stmts_v(old(self).prog@, old(self).sym(), old(self).stack());
                match r {
                    Ok(s) => {
                        &&& oc.err is None
                        &&& final(self).out() == old(self).out() + prologue_text() + oc.text
                            + epilogue_text()
                        &&& s@ == final(self).out()
                        &&& final(self).sym() == oc.vars
                        &&& final(self).stack() == oc.stack
                    },
                    Err(e) => {
                        &&& oc.err == Some(e@)
                        &&& final(self).out() == old(self).out() + prologue_text() + oc.text
                        &&& final(self).sym() == oc.vars
                        &&& final(self).stack() == oc.stack
                    },
                }
            }),
    {
        self.output.append(".global _start\n");
        self.output.append(".align 2\n\n");
        self.output.append("_start:\n");
        proof {
            assert(self.out() =~= old(self).out() + prologue_text());
        }

        let ghost stmts0 = old(self).prog@;
        let ghost oc = gen_stmts_v(stmts0, old(self).sym(), old(self).stack());
        let ghost out0 = old(self).out() + prologue_text();
        proof {
            assert(stmts0.skip(0) =~= stmts0);
            assert(self.out().skip(out0.len() as int) =~= Seq::<char>::empty());
            assert(Seq::<char>::empty() + oc.text =~= oc.text);
            assert(self.out().take(out0.len() as int) =~= out0);
        }

        let mut i: usize = 0;
        while i < self.prog.stmts.len()
            invariant
                stmts0 == old(self).prog@,
                oc == gen_stmts_v(stmts0, old(self).sym(), old(self).stack()),
                out0 == old(self).out() + prologue_text(),
                self.prog == old(self).prog,
                0 <= i <= self.prog.stmts@.len(),
                stmts0.len() == self.prog.stmts@.len(),
                vars_wf(self.sym(), self.stack()),
                self.stack() + (stmts0.len() - i) <= usize::MAX,
                out0.len() <= self.out().len(),
                self.out().take(out0.len() as int) == out0,
                ({
                    let rest = gen_stmts_v(stmts0.skip(i as int), self.sym(), self.stack());
                    let t_done = self.out().skip(out0.len() as int);
                    &&& oc.err == rest.err
                    &&& oc.text == t_done + rest.text
                    &&& oc.vars == rest.vars
                    &&& oc.stack == rest.stack
                }),
            decreases self.prog.stmts@.len() - i,
        {
            let ghost sym_here = self.sym();
            let ghost stack_here = self.stack();
            let ghost out_here = self.out();
            let stmt = self.prog.stmts[i].clone();
            proof {
                assert(stmts0.skip(i as int)[0] == stmt@);
            }
            match self.generate_stmt(stmt) {
                Err(e) => {
                    proof {
                        let rest = gen_stmts_v(stmts0.skip(i as int), sym_here, stack_here);
                        let step = gen_stmt_v(stmts0.skip(i as int)[0], sym_here, stack_here);
                        assert(rest.err == step.err);
                        assert(oc.text =~= self.out().skip(out0.len() as int));
                        assert(self.out() =~= out0 + oc.text);
                    }
                    return Err(e);
                },
                Ok(u) => {},
            }
            proof {
                let step = gen_stmt_v(stmts0.skip(i as int)[0], sym_here, stack_here);
                let rest_new = gen_stmts_v(
                    stmts0.skip(i as int + 1),
                    self.sym(),
                    self.stack(),
                );
                assert(stmts0.skip(i as int).skip(1) =~= stmts0.skip(i as int + 1));
                let rest_old = gen_stmts_v(stmts0.skip(i as int), sym_here, stack_here);
                assert(rest_old.text == step.text + rest_new.text);
                assert(self.out().take(out0.len() as int) =~= out0);
                assert(out_here.skip(out0.len() as int) + step.text =~= self.out().skip(
                    out0.len() as int,
                ));
                assert(oc.text =~= self.out().skip(out0.len() as int) + rest_new.text);
            }
            i = i + 1;
        }
        proof {
            assert(stmts0.skip(i as int) =~= Seq::<StmtV>::empty());
            assert(oc.text =~= self.out().skip(out0.len() as int));
            assert(self.out() =~= out0 + oc.text);
        }
        self.output.append("    mov X0, #0\n");
        self.output.append("    mov X16, #1\n");
        self.output.append("    svc #0x80\n");
        proof {
            assert(self.out() =~= old(self).out() + prologue_text() + gen_stmts_v(
                old(self).prog@,
                old(self).sym(),
                old(self).stack(),
            ).text + epilogue_text());
        }
        Ok(self.output.clone())
    }
}

} // verus!
