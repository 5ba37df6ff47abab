use vstd::prelude::*;
use crate::ast::NodeV;
use crate::errors::ErrorV;
use crate::interpreter::run_spec;
use crate::parser::parse_spec;
use crate::semantics::{builtin_unary_of, const_value, eval_node, lookup_bind, EnvV, PrimOp,
    E_BITS, PI_BITS};

verus! {

/// An expression built of numeric literals and binary operators alone: no
/// names, no calls, no assignments.
pub open spec fn arith_only(n: NodeV) -> bool
    decreases n,
{
    match n {
        NodeV::Number(_) => true,
        NodeV::Expr(l, _, r) => arith_only(*l) && arith_only(*r),
        _ => false,
    }
}

/// Direct evaluation of such an expression: fold the operator tree, with no
/// environment at all.
pub open spec fn direct_eval(n: NodeV, sem: spec_fn(PrimOp) -> u64) -> u64
    decreases n,
{
    match n {
        NodeV::Number(s) => sem(PrimOp::Lit(s)),
        NodeV::Expr(l, op, r) => sem(
            PrimOp::Bin(op, direct_eval(*l, sem), direct_eval(*r, sem)),
        ),
        _ => 0,
    }
}

/// A variable-free arithmetic expression always evaluates successfully, in
/// every environment, under every binding stack and any fuel, and its value
/// is the direct fold of the operator tree.
pub proof fn lemma_arith_eval(
    n: NodeV,
    env: EnvV,
    binds: Seq<(Seq<char>, u64)>,
    fuel: nat,
    sem: spec_fn(PrimOp) -> u64,
)
    requires
        arith_only(n),
    ensures
        eval_node(n, env, binds, fuel, sem) == Ok::<u64, ErrorV>(direct_eval(n, sem)),
    decreases n,
{
    match n {
        NodeV::Expr(l, _, r) => {
            lemma_arith_eval(*l, env, binds, fuel, sem);
            lemma_arith_eval(*r, env, binds, fuel, sem);
        },
        _ => {},
    }
}

/// Running a line that parses to a variable-free arithmetic expression
/// yields its direct evaluation under the standard precedence rules, and
/// changes no definition in the environment.
pub proof fn lemma_run_arith(text: Seq<char>, env: EnvV, sem: spec_fn(PrimOp) -> u64)
    requires
        parse_spec(text) matches Ok(root) && arith_only(root),
    ensures
        run_spec(text, env, sem) matches Ok(p) && p.0 == direct_eval(
            parse_spec(text)->Ok_0,
            sem,
        ) && p.1.consts == env.consts && p.1.funcs == env.funcs,
{
    let root = parse_spec(text)->Ok_0;
    lemma_arith_eval(root, env, Seq::empty(), crate::semantics::CALL_DEPTH_LIMIT as nat, sem);
}

/// Defining a constant and then referencing it yields the stored value, for
/// any name that is not a built-in: the round trip of assignment and lookup.
pub proof fn lemma_assign_then_reference(
    t1: Seq<char>,
    t2: Seq<char>,
    env: EnvV,
    name: Seq<char>,
    sem: spec_fn(PrimOp) -> u64,
)
    requires
        name != "pi"@,
        name != "e"@,
        name != "ans"@,
        parse_spec(t1) matches Ok(r1) && (r1 matches NodeV::AssignConst(n1, _) && n1 == name),
        run_spec(t1, env, sem) matches Ok(_),
        parse_spec(t2) == Ok::<NodeV, ErrorV>(NodeV::Const(name)),
    ensures
        run_spec(t1, env, sem) matches Ok(p1) && run_spec(t2, p1.1, sem) matches Ok(p2) && p2.0
            == p1.0,
{
}

/// Defining a function and then calling it applies the stored body to the
/// argument: the parameter is bound on the stack for exactly the body's
/// evaluation, with one unit of call depth spent.
pub proof fn lemma_define_then_call(
    env: EnvV,
    name: Seq<char>,
    param: Seq<char>,
    body: NodeV,
    arg: NodeV,
    binds: Seq<(Seq<char>, u64)>,
    fuel: nat,
    sem: spec_fn(PrimOp) -> u64,
)
    requires
        builtin_unary_of(name) is None,
    ensures
        ({
            let env2 = EnvV {
                consts: env.consts,
                funcs: env.funcs.insert(name, (param, body)),
                ans: env.ans,
                lines: env.lines,
            };
            eval_node(NodeV::Function(name, Box::new(arg)), env2, binds, fuel + 1, sem) == (
            match eval_node(arg, env2, binds, fuel + 1, sem) {
                Ok(a) => eval_node(body, env2, binds.push((param, a)), fuel, sem),
                Err(e) => Err(e),
            })
        }),
{
}

/// Redefinition overwrites: storing twice under one name leaves the second
/// value, both in the constant map and in a subsequent reference.
pub proof fn lemma_redefinition_overwrites(
    env: EnvV,
    name: Seq<char>,
    v1: u64,
    v2: u64,
    fuel: nat,
    sem: spec_fn(PrimOp) -> u64,
)
    requires
        name != "pi"@,
        name != "e"@,
        name != "ans"@,
    ensures
        env.consts.insert(name, v1).insert(name, v2) == env.consts.insert(name, v2),
        eval_node(
            NodeV::Const(name),
            EnvV {
                consts: env.consts.insert(name, v1).insert(name, v2),
                funcs: env.funcs,
                ans: env.ans,
                lines: env.lines,
            },
            Seq::empty(),
            fuel,
            sem,
        ) == Ok::<u64, ErrorV>(v2),
{
    assert(env.consts.insert(name, v1).insert(name, v2) =~= env.consts.insert(name, v2));
}

/// The last result reflects the line just run: after any successful line,
/// `ans` holds its value, and referencing `ans` yields it.
pub proof fn lemma_ans_reflects_last(
    text: Seq<char>,
    env: EnvV,
    fuel: nat,
    sem: spec_fn(PrimOp) -> u64,
)
    requires
        run_spec(text, env, sem) matches Ok(_),
    ensures
        run_spec(text, env, sem) matches Ok(p) && p.1.ans == p.0,
        run_spec(text, env, sem) matches Ok(p) && eval_node(
            NodeV::Const("ans"@),
            p.1,
            Seq::empty(),
            fuel,
            sem,
        ) == Ok::<u64, ErrorV>(p.0),
{
    reveal_strlit("pi");
    reveal_strlit("e");
    reveal_strlit("ans");
    assert("ans"@ != "pi"@ && "ans"@ != "e"@) by {
        assert("ans"@.len() == 3 && "pi"@.len() == 2 && "e"@.len() == 1);
    }
}

/// Built-ins win lookup regardless of what was stored: referencing `pi` or
/// `e` yields the built-in value in every environment and under every
/// binding stack, even after an assignment stored a shadow under that name.
pub proof fn lemma_builtin_constant_precedence(
    env: EnvV,
    binds: Seq<(Seq<char>, u64)>,
    fuel: nat,
    sem: spec_fn(PrimOp) -> u64,
)
    ensures
        eval_node(NodeV::Const("pi"@), env, binds, fuel, sem) == Ok::<u64, ErrorV>(PI_BITS),
        eval_node(NodeV::Const("e"@), env, binds, fuel, sem) == Ok::<u64, ErrorV>(E_BITS),
{
    reveal_strlit("pi");
    reveal_strlit("e");
    assert("e"@ != "pi"@) by {
        assert("e"@.len() == 1 && "pi"@.len() == 2);
    }
}

/// Evaluating a plain expression never changes the definitions: parameter
/// bindings made during user-function calls live on a stack scoped to the
/// call, so nothing leaks into the constant or function tables.
pub proof fn lemma_expression_preserves_definitions(
    text: Seq<char>,
    env: EnvV,
    sem: spec_fn(PrimOp) -> u64,
)
    requires
        parse_spec(text) matches Ok(root) && !(root is AssignConst) && !(root is AssignFunc),
    ensures
        run_spec(text, env, sem) matches Ok(p) ==> p.1.consts == env.consts && p.1.funcs
            == env.funcs,
{
}

/// The innermost binding of a parameter name wins, and leaving the call
/// restores what was visible before: looking a name up on a stack that ends
/// with a binding of it yields that binding, and on the popped stack the
/// lookup is what it was.
pub proof fn lemma_binding_scoped(
    binds: Seq<(Seq<char>, u64)>,
    name: Seq<char>,
    v: u64,
)
    ensures
        lookup_bind(binds.push((name, v)), name) == Some(v),
        binds.push((name, v)).drop_last() == binds,
{
    assert(binds.push((name, v)).last() == (name, v));
    assert(binds.push((name, v)).drop_last() =~= binds);
}

/// A parameter binding shadows a stored constant of the same name for the
/// duration of the call, while built-ins still win.
pub proof fn lemma_binding_shadows_constant(
    env: EnvV,
    binds: Seq<(Seq<char>, u64)>,
    name: Seq<char>,
    v: u64,
)
    requires
        name != "pi"@,
        name != "e"@,
        name != "ans"@,
    ensures
        const_value(env, binds.push((name, v)), name) == Ok::<u64, ErrorV>(v),
{
    assert(binds.push((name, v)).last() == (name, v));
}

} // verus!
