//! Laws of the code generator, proved over its spec functions: when
//! generation succeeds, how it fails on redeclared or undeclared
//! identifiers, and the slot-offset arithmetic.

use vstd::prelude::*;

use crate::generator::{
    gen_expr_v, gen_stmt_v, gen_stmts_v, load_ident_line, lookup, push_line, slot_byte_offset,
    GenErrorV, GenStep, VarV,
};
use crate::parser::{parse_v, ExprV, StmtV};
use crate::tokenizer::TokenV;

verus! {

/// The set of identifiers the symbol table declares.
pub open spec fn declared_names(vs: Seq<VarV>) -> Set<Seq<char>> {
    Set::new(|n: Seq<char>| exists|i: int| 0 <= i < vs.len() && vs[i].name == n)
}

/// An expression generates without a diagnostic exactly when it is an
/// integer literal or a declared identifier.
pub open spec fn expr_ok(e: ExprV, declared: Set<Seq<char>>) -> bool {
    match e {
        ExprV::IntLiteral { .. } => true,
        ExprV::Ident { name } => declared.contains(name),
        ExprV::Add { .. } => false,
        ExprV::Mul { .. } => false,
    }
}

/// A statement sequence is semantically valid against a set of already
/// declared names: every expression references only declared identifiers,
/// and every `let` introduces a fresh name.
pub open spec fn stmts_ok(ss: Seq<StmtV>, declared: Set<Seq<char>>) -> bool
    decreases ss.len(),
{
    if ss.len() == 0 {
        true
    } else {
        match ss[0] {
            StmtV::Exit { expr } => expr_ok(expr, declared) && stmts_ok(ss.skip(1), declared),
            StmtV::Let { name, expr } => !declared.contains(name) && expr_ok(expr, declared)
                && stmts_ok(ss.skip(1), declared.insert(name)),
        }
    }
}

/// The name a `let` statement declares (empty for an `exit`).
pub open spec fn let_name(s: StmtV) -> Seq<char> {
    match s {
        StmtV::Let { name, .. } => name,
        StmtV::Exit { .. } => Seq::empty(),
    }
}

/// The expression a statement generates.
pub open spec fn stmt_expr(s: StmtV) -> ExprV {
    match s {
        StmtV::Let { expr, .. } => expr,
        StmtV::Exit { expr } => expr,
    }
}

/// The name an identifier expression references (empty otherwise).
pub open spec fn ident_name(e: ExprV) -> Seq<char> {
    match e {
        ExprV::Ident { name } => name,
        _ => Seq::empty(),
    }
}

/// A lookup finds an identifier exactly when the table declares it.
pub proof fn lemma_lookup_names(vs: Seq<VarV>, n: Seq<char>)
    ensures
        lookup(vs, n) is Some <==> declared_names(vs).contains(n),
    decreases vs.len(),
{
    if vs.len() == 0 {
        assert(!declared_names(vs).contains(n));
    } else if vs[0].name == n {
        assert(declared_names(vs).contains(n));
    } else {
        lemma_lookup_names(vs.skip(1), n);
        if declared_names(vs).contains(n) {
            let i = choose|i: int| 0 <= i < vs.len() && vs[i].name == n;
            assert(vs.skip(1)[i - 1].name == n);
            assert(declared_names(vs.skip(1)).contains(n));
        }
        if declared_names(vs.skip(1)).contains(n) {
            let i = choose|i: int| 0 <= i < vs.skip(1).len() && vs.skip(1)[i].name == n;
            assert(vs[i + 1].name == n);
            assert(declared_names(vs).contains(n));
        }
    }
}

proof fn lemma_declared_push(vs: Seq<VarV>, v: VarV)
    ensures
        declared_names(vs.push(v)) == declared_names(vs).insert(v.name),
{
    assert forall|n: Seq<char>| declared_names(vs.push(v)).contains(n) implies declared_names(
        vs,
    ).insert(v.name).contains(n) by {
        let i = choose|i: int| 0 <= i < vs.push(v).len() && vs.push(v)[i].name == n;
        if i < vs.len() {
            assert(vs[i].name == n);
            assert(declared_names(vs).contains(n));
        } else {
            assert(vs.push(v)[vs.len() as int] == v);
        }
    };
    assert forall|n: Seq<char>| declared_names(vs).insert(v.name).contains(n) implies declared_names(
        vs.push(v),
    ).contains(n) by {
        if n == v.name {
            assert(vs.push(v)[vs.len() as int].name == n);
        } else {
            let i = choose|i: int| 0 <= i < vs.len() && vs[i].name == n;
            assert(vs.push(v)[i].name == n);
        }
    };
    assert(declared_names(vs.push(v)) =~= declared_names(vs).insert(v.name));
}

/// Generation succeeds exactly on semantically valid programs: no
/// diagnostic is raised if and only if every identifier reference is
/// declared by an earlier `let`, no `let` redeclares a name, and no
/// binary expression occurs.
pub proof fn lemma_generation_succeeds_iff_valid(ss: Seq<StmtV>, vars: Seq<VarV>, stack: nat)
    ensures
        gen_stmts_v(ss, vars, stack).err is None <==> stmts_ok(ss, declared_names(vars)),
    decreases ss.len(),
{
    if ss.len() > 0 {
        match ss[0] {
            StmtV::Exit { expr } => {
                if let ExprV::Ident { name } = expr {
                    lemma_lookup_names(vars, name);
                }
                let step = gen_stmt_v(ss[0], vars, stack);
                if step.err is None {
                    lemma_generation_succeeds_iff_valid(ss.skip(1), vars, stack);
                }
            },
            StmtV::Let { name, expr } => {
                lemma_lookup_names(vars, name);
                if let ExprV::Ident { name: refd } = expr {
                    lemma_lookup_names(vars, refd);
                }
                let step = gen_stmt_v(ss[0], vars, stack);
                if step.err is None {
                    lemma_declared_push(vars, VarV { name, slot: stack });
                    lemma_generation_succeeds_iff_valid(
                        ss.skip(1),
                        vars.push(VarV { name, slot: stack }),
                        stack + 1,
                    );
                }
            },
        }
    }
}

/// Generating a concatenation is generating the first part, then the
/// second from the state the first left behind, as long as the first part
/// raises no diagnostic.
pub proof fn lemma_gen_stmts_append(a: Seq<StmtV>, b: Seq<StmtV>, vars: Seq<VarV>, stack: nat)
    requires
        gen_stmts_v(a, vars, stack).err is None,
    ensures
        ({
            let ga = gen_stmts_v(a, vars, stack);
            let gb = gen_stmts_v(b, ga.vars, ga.stack);
            gen_stmts_v(a + b, vars, stack) == GenStep {
                text: ga.text + gb.text,
                vars: gb.vars,
                stack: gb.stack,
                err: gb.err,
            }
        }),
    decreases a.len(),
{
    let ga = gen_stmts_v(a, vars, stack);
    let gb = gen_stmts_v(b, ga.vars, ga.stack);
    if a.len() == 0 {
        assert(a + b =~= b);
        assert(ga.text + gb.text =~= gb.text);
    } else {
        let step = gen_stmt_v(a[0], vars, stack);
        assert((a + b)[0] == a[0]);
        assert((a + b).skip(1) =~= a.skip(1) + b);
        lemma_gen_stmts_append(a.skip(1), b, step.vars, step.stack);
        let ga1 = gen_stmts_v(a.skip(1), step.vars, step.stack);
        assert((step.text + ga1.text) + gb.text =~= step.text + (ga1.text + gb.text));
    }
}

proof fn lemma_gen_keeps_declared(ss: Seq<StmtV>, vars: Seq<VarV>, stack: nat, n: Seq<char>)
    requires
        declared_names(vars).contains(n),
    ensures
        declared_names(gen_stmts_v(ss, vars, stack).vars).contains(n),
    decreases ss.len(),
{
    if ss.len() > 0 {
        let step = gen_stmt_v(ss[0], vars, stack);
        if step.err is Some {
        } else {
            if let StmtV::Let { name, .. } = ss[0] {
                if step.vars != vars {
                    lemma_declared_push(vars, VarV { name, slot: stack });
                }
            }
            lemma_gen_keeps_declared(ss.skip(1), step.vars, step.stack, n);
        }
    }
}

proof fn lemma_gen_declares(ss: Seq<StmtV>, vars: Seq<VarV>, stack: nat, j: int)
    requires
        gen_stmts_v(ss, vars, stack).err is None,
        0 <= j < ss.len(),
        ss[j] is Let,
    ensures
        declared_names(gen_stmts_v(ss, vars, stack).vars).contains(let_name(ss[j])),
    decreases ss.len(),
{
    let step = gen_stmt_v(ss[0], vars, stack);
    if j == 0 {
        if let StmtV::Let { name, .. } = ss[0] {
            lemma_declared_push(vars, VarV { name, slot: stack });
            lemma_gen_keeps_declared(ss.skip(1), step.vars, step.stack, name);
        }
    } else {
        assert(ss.skip(1)[j - 1] == ss[j]);
        lemma_gen_declares(ss.skip(1), step.vars, step.stack, j - 1);
    }
}

/// Declaring the same identifier twice by `let` is a fatal redeclaration
/// diagnostic naming that identifier, whatever the expressions involved,
/// as soon as generation reaches the second `let`.
pub proof fn lemma_redeclaration_fails(
    ss: Seq<StmtV>,
    vars: Seq<VarV>,
    stack: nat,
    i: int,
    j: int,
)
    requires
        0 <= i < j < ss.len(),
        ss[i] is Let,
        ss[j] is Let,
        let_name(ss[i]) == let_name(ss[j]),
        gen_stmts_v(ss.take(j), vars, stack).err is None,
    ensures
        gen_stmts_v(ss, vars, stack).err == Some(GenErrorV::Redeclared { name: let_name(ss[j]) }),
{
    let pre = gen_stmts_v(ss.take(j), vars, stack);
    assert(ss =~= ss.take(j) + ss.skip(j));
    lemma_gen_stmts_append(ss.take(j), ss.skip(j), vars, stack);
    assert(ss.take(j)[i] == ss[i]);
    lemma_gen_declares(ss.take(j), vars, stack, i);
    lemma_lookup_names(pre.vars, let_name(ss[j]));
    assert(ss.skip(j)[0] == ss[j]);
}

/// Referencing an identifier that no earlier `let` declared is a fatal
/// undeclared-identifier diagnostic naming that identifier, as soon as
/// generation reaches the referencing statement.
pub proof fn lemma_undeclared_reference_fails(ss: Seq<StmtV>, vars: Seq<VarV>, stack: nat, j: int)
    requires
        0 <= j < ss.len(),
        gen_stmts_v(ss.take(j), vars, stack).err is None,
        stmt_expr(ss[j]) is Ident,
        lookup(gen_stmts_v(ss.take(j), vars, stack).vars, ident_name(stmt_expr(ss[j]))) is None,
        ss[j] is Let ==> lookup(gen_stmts_v(ss.take(j), vars, stack).vars, let_name(ss[j]))
            is None,
    ensures
        gen_stmts_v(ss, vars, stack).err == Some(
            GenErrorV::Undeclared { name: ident_name(stmt_expr(ss[j])) },
        ),
{
    assert(ss =~= ss.take(j) + ss.skip(j));
    lemma_gen_stmts_append(ss.take(j), ss.skip(j), vars, stack);
    assert(ss.skip(j)[0] == ss[j]);
}

/// Every expression in a parsed program is a single-token atom: the
/// grammar never produces a binary node, so generating a parsed program
/// can fail only on identifier diagnostics, never on an unsupported
/// binary expression.
pub proof fn lemma_parse_yields_atoms(toks: Seq<TokenV>, ss: Seq<StmtV>)
    requires
        parse_v(toks) == Ok::<Seq<StmtV>, crate::parser::ParseError>(ss),
    ensures
        forall|j: int|
            0 <= j < ss.len() ==> (#[trigger] stmt_expr(ss[j])) is IntLiteral || stmt_expr(
                ss[j],
            ) is Ident,
    decreases toks.len(),
{
    if toks.len() > 0 {
        let s = parse_v(toks.skip(5)).unwrap();
        lemma_parse_yields_atoms(toks.skip(5), s);
        assert forall|j: int| 0 <= j < ss.len() implies (#[trigger] stmt_expr(ss[j]))
            is IntLiteral || stmt_expr(ss[j]) is Ident by {
            if j > 0 {
                assert(ss[j] == s[j - 1]);
            }
        };
    }
}

/// The slot-offset arithmetic: an identifier declared at slot `slot`,
/// referenced when the stack holds `stack` slots, is loaded from byte
/// offset `(stack - slot - 1) * 16`.
pub proof fn lemma_slot_offset_round_trip(slot: nat, stack: nat)
    requires
        slot < stack,
    ensures
        slot_byte_offset(slot, stack) == (stack - slot - 1) * 16,
{
}

/// Each reference to a declared identifier emits exactly one load, of
/// that identifier's computed slot offset, followed by the one push every
/// expression ends with.
pub proof fn lemma_reference_emits_one_load(name: Seq<char>, vars: Seq<VarV>, stack: nat)
    requires
        lookup(vars, name) is Some,
    ensures
        gen_expr_v(ExprV::Ident { name }, vars, stack) == Ok::<Seq<char>, GenErrorV>(
            load_ident_line(slot_byte_offset(lookup(vars, name).unwrap(), stack)) + push_line(
                "X0"@,
            ),
        ),
{
}

} // verus!
