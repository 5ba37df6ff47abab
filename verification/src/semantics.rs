use vstd::prelude::*;
use crate::ast::{NodeV, Operator};
use crate::errors::ErrorV;

verus! {

/// The seven built-in unary functions of the language.
#[derive(Clone, Copy, PartialEq, Eq, Structural, Debug)]
pub enum UnaryFn {
    Sqrt,
    Ln,
    Abs,
    Cos,
    Sin,
    Tan,
    Log,
}

/// A primitive numeric operation on IEEE-754 double-precision bit patterns:
/// applying a binary operator, applying a built-in unary function, or reading
/// a numeric literal. The library states what it computes for every
/// interpretation of these operations; the host supplies the machine's
/// floating-point unit as the real one.
pub enum PrimOp {
    Bin(Operator, u64, u64),
    Un(UnaryFn, u64),
    Lit(Seq<char>),
}

/// The bit pattern of the double-precision value of pi.
pub const PI_BITS: u64 = 0x4009_21FB_5444_2D18;

/// The bit pattern of the double-precision value of Euler's number.
pub const E_BITS: u64 = 0x4005_BF0A_8B14_5769;

/// The bit pattern of the double-precision value zero, the result of a
/// function definition and the initial last-result value.
pub const ZERO_BITS: u64 = 0;

/// How many nested user-function calls evaluation will expand before it
/// reports an error: the language has no conditionals, so any self-recursive
/// function diverges, and legitimate call chains are far shallower than this.
pub const CALL_DEPTH_LIMIT: u64 = 64;

/// Which built-in unary function, if any, a name denotes. Built-ins win over
/// user definitions of the same name.
pub open spec fn builtin_unary_of(name: Seq<char>) -> Option<UnaryFn> {
    if name == "sqrt"@ {
        Some(UnaryFn::Sqrt)
    } else if name == "ln"@ {
        Some(UnaryFn::Ln)
    } else if name == "abs"@ {
        Some(UnaryFn::Abs)
    } else if name == "cos"@ {
        Some(UnaryFn::Cos)
    } else if name == "sin"@ {
        Some(UnaryFn::Sin)
    } else if name == "tan"@ {
        Some(UnaryFn::Tan)
    } else if name == "log"@ {
        Some(UnaryFn::Log)
    } else {
        None
    }
}

/// The mathematical model of the session environment: the user constants,
/// the user functions, the last result, and the successfully executed lines.
#[verifier::ext_equal]
pub struct EnvV {
    pub consts: Map<Seq<char>, u64>,
    pub funcs: Map<Seq<char>, (Seq<char>, NodeV)>,
    pub ans: u64,
    pub lines: Seq<Seq<char>>,
}

/// The most recent binding of `name` on the parameter-binding stack.
pub open spec fn lookup_bind(binds: Seq<(Seq<char>, u64)>, name: Seq<char>) -> Option<u64>
    decreases binds.len(),
{
    if binds.len() == 0 {
        None
    } else if binds.last().0 == name {
        Some(binds.last().1)
    } else {
        lookup_bind(binds.drop_last(), name)
    }
}

/// The value of a name used as a constant: the built-ins pi, e and ans win,
/// then the innermost parameter binding, then the user constants.
pub open spec fn const_value(env: EnvV, binds: Seq<(Seq<char>, u64)>, name: Seq<char>) -> Result<
    u64,
    ErrorV,
> {
    if name == "pi"@ {
        Ok(PI_BITS)
    } else if name == "e"@ {
        Ok(E_BITS)
    } else if name == "ans"@ {
        Ok(env.ans)
    } else {
        match lookup_bind(binds, name) {
            Some(v) => Ok(v),
            None => {
                if env.consts.dom().contains(name) {
                    Ok(env.consts[name])
                } else {
                    Err(ErrorV::UnknownConstant { name })
                }
            },
        }
    }
}

/// Tree-walking evaluation of an assignment-free expression, under an
/// interpretation `sem` of the primitive numeric operations. The environment
/// is never changed: a user-function call binds the parameter on a stack
/// scoped exactly to the body, so bindings cannot leak. `fuel` bounds the
/// depth of user-function call nesting.
pub open spec fn eval_node(
    n: NodeV,
    env: EnvV,
    binds: Seq<(Seq<char>, u64)>,
    fuel: nat,
    sem: spec_fn(PrimOp) -> u64,
) -> Result<u64, ErrorV>
    decreases fuel, n,
{
    match n {
        NodeV::Number(s) => Ok(sem(PrimOp::Lit(s))),
        NodeV::Expr(l, op, r) => match eval_node(*l, env, binds, fuel, sem) {
            Err(e) => Err(e),
            Ok(a) => match eval_node(*r, env, binds, fuel, sem) {
                Err(e) => Err(e),
                Ok(b) => Ok(sem(PrimOp::Bin(op, a, b))),
            },
        },
        NodeV::Const(name) => const_value(env, binds, name),
        NodeV::Function(name, arg) => match eval_node(*arg, env, binds, fuel, sem) {
            Err(e) => Err(e),
            Ok(a) => match builtin_unary_of(name) {
                Some(f) => Ok(sem(PrimOp::Un(f, a))),
                None => {
                    if env.funcs.dom().contains(name) {
                        if fuel == 0 {
                            Err(ErrorV::RecursionLimit)
                        } else {
                            eval_node(
                                env.funcs[name].1,
                                env,
                                binds.push((env.funcs[name].0, a)),
                                (fuel - 1) as nat,
                                sem,
                            )
                        }
                    } else {
                        Err(ErrorV::UnknownFunction { name })
                    }
                },
            },
        },
        NodeV::AssignConst(_, _) => Err(ErrorV::NestedAssignment),
        NodeV::AssignFunc(_, _, _) => Err(ErrorV::NestedAssignment),
    }
}

/// Evaluation of the root of a line. A constant definition evaluates its
/// right-hand side and stores the value; a function definition stores the
/// unevaluated body and yields zero; anything else is a plain expression.
pub open spec fn line_eval(root: NodeV, env: EnvV, sem: spec_fn(PrimOp) -> u64) -> Result<
    (u64, EnvV),
    ErrorV,
> {
    match root {
        NodeV::AssignConst(name, e) => match eval_node(
            *e,
            env,
            Seq::empty(),
            CALL_DEPTH_LIMIT as nat,
            sem,
        ) {
            Err(err) => Err(err),
            Ok(v) => Ok(
                (
                    v,
                    EnvV {
                        consts: env.consts.insert(name, v),
                        funcs: env.funcs,
                        ans: env.ans,
                        lines: env.lines,
                    },
                ),
            ),
        },
        NodeV::AssignFunc(name, param, body) => Ok(
            (
                ZERO_BITS,
                EnvV {
                    consts: env.consts,
                    funcs: env.funcs.insert(name, (param, *body)),
                    ans: env.ans,
                    lines: env.lines,
                },
            ),
        ),
        _ => match eval_node(root, env, Seq::empty(), CALL_DEPTH_LIMIT as nat, sem) {
            Err(err) => Err(err),
            Ok(v) => Ok((v, env)),
        },
    }
}

} // verus!
