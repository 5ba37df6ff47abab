use vstd::prelude::*;
use crate::ast::{expr_wf, node_view, Node, NodeV};
use crate::errors::{CalcError, ErrorV};
use crate::parser::{node_literals_shaped, parse_spec, root_wf, Parser};
use crate::program::{instr_val, instr_wf, lemma_regs_len, lemma_regs_prefix, lemma_regs_push, prog_view,
    prog_wf, regs_spec, Instr, InstrV};
use crate::semantics::{builtin_unary_of, const_value, eval_node, line_eval, lookup_bind, EnvV,
    PrimOp, UnaryFn, CALL_DEPTH_LIMIT, E_BITS, PI_BITS, ZERO_BITS};
use crate::lexer::lemma_lex_shaped;
use crate::strutil::{str_eq, trim_spec, trim_str};

verus! {

/// Keys of the constant table are distinct.
pub open spec fn consts_unique(s: Seq<(String, u64)>) -> bool {
    forall|i: int, j: int| 0 <= i < j < s.len() ==> s[i].0@ != s[j].0@
}

/// Keys of the function table are distinct.
pub open spec fn funcs_unique(s: Seq<(String, (String, Node))>) -> bool {
    forall|i: int, j: int| 0 <= i < j < s.len() ==> s[i].0@ != s[j].0@
}

/// Every stored function body is an assignment-free expression whose numeric
/// literals keep the lexer's shape.
pub open spec fn funcs_bodies_wf(s: Seq<(String, (String, Node))>) -> bool {
    forall|i: int|
        0 <= i < s.len() ==> expr_wf(#[trigger] s[i].1.1@) && node_literals_shaped(s[i].1.1@)
}

/// The mapping a constant table denotes.
pub open spec fn consts_map(s: Seq<(String, u64)>) -> Map<Seq<char>, u64>
    decreases s.len(),
{
    if s.len() == 0 {
        Map::empty()
    } else {
        consts_map(s.drop_last()).insert(s.last().0@, s.last().1)
    }
}

/// The mapping a function table denotes: name to parameter name and body.
pub open spec fn funcs_map(s: Seq<(String, (String, Node))>) -> Map<Seq<char>, (Seq<char>, NodeV)>
    decreases s.len(),
{
    if s.len() == 0 {
        Map::empty()
    } else {
        funcs_map(s.drop_last()).insert(s.last().0@, (s.last().1.0@, s.last().1.1@))
    }
}

pub open spec fn lines_view(s: Seq<String>) -> Seq<Seq<char>> {
    s.map_values(|x: String| x@)
}

proof fn lemma_consts_map_get(s: Seq<(String, u64)>, i: int)
    requires
        consts_unique(s),
        0 <= i < s.len(),
    ensures
        consts_map(s).dom().contains(s[i].0@),
        consts_map(s)[s[i].0@] == s[i].1,
    decreases s.len(),
{
    if i == s.len() - 1 {
    } else {
        lemma_consts_map_get(s.drop_last(), i);
    }
}

proof fn lemma_consts_map_absent(s: Seq<(String, u64)>, k: Seq<char>)
    requires
        forall|i: int| 0 <= i < s.len() ==> s[i].0@ != k,
    ensures
        !consts_map(s).dom().contains(k),
    decreases s.len(),
{
    if s.len() > 0 {
        lemma_consts_map_absent(s.drop_last(), k);
    }
}

proof fn lemma_consts_map_update(s: Seq<(String, u64)>, i: int, name: String, val: u64)
    requires
        consts_unique(s),
        0 <= i < s.len(),
        name@ == s[i].0@,
    ensures
        consts_map(s.update(i, (name, val))) =~= consts_map(s).insert(name@, val),
        consts_unique(s.update(i, (name, val))),
    decreases s.len(),
{
    let s2 = s.update(i, (name, val));
    if i == s.len() - 1 {
        assert(s2.drop_last() =~= s.drop_last());
    } else {
        lemma_consts_map_update(s.drop_last(), i, name, val);
        assert(s2.drop_last() =~= s.drop_last().update(i, (name, val)));
        assert(s2.last() == s.last());
    }
}

proof fn lemma_funcs_map_get(s: Seq<(String, (String, Node))>, i: int)
    requires
        funcs_unique(s),
        0 <= i < s.len(),
    ensures
        funcs_map(s).dom().contains(s[i].0@),
        funcs_map(s)[s[i].0@] == (s[i].1.0@, s[i].1.1@),
    decreases s.len(),
{
    if i == s.len() - 1 {
    } else {
        lemma_funcs_map_get(s.drop_last(), i);
    }
}

proof fn lemma_funcs_map_absent(s: Seq<(String, (String, Node))>, k: Seq<char>)
    requires
        forall|i: int| 0 <= i < s.len() ==> s[i].0@ != k,
    ensures
        !funcs_map(s).dom().contains(k),
    decreases s.len(),
{
    if s.len() > 0 {
        lemma_funcs_map_absent(s.drop_last(), k);
    }
}

proof fn lemma_funcs_map_update(
    s: Seq<(String, (String, Node))>,
    i: int,
    name: String,
    val: (String, Node),
)
    requires
        funcs_unique(s),
        0 <= i < s.len(),
        name@ == s[i].0@,
    ensures
        funcs_map(s.update(i, (name, val))) =~= funcs_map(s).insert(name@, (val.0@, val.1@)),
        funcs_unique(s.update(i, (name, val))),
        funcs_bodies_wf(s) && expr_wf(val.1@) && node_literals_shaped(val.1@)
            ==> funcs_bodies_wf(s.update(i, (name, val))),
    decreases s.len(),
{
    if funcs_bodies_wf(s) && expr_wf(val.1@) && node_literals_shaped(val.1@) {
        let s2 = s.update(i, (name, val));
        assert forall|k: int|
            0 <= k < s2.len() implies expr_wf(#[trigger] s2[k].1.1@) && node_literals_shaped(
            s2[k].1.1@,
        ) by {
            if k != i {
                assert(s2[k] == s[k]);
            } else {
                assert(s2[k] == (name, val));
            }
        }
    }
    let s2 = s.update(i, (name, val));
    if i == s.len() - 1 {
        assert(s2.drop_last() =~= s.drop_last());
    } else {
        lemma_funcs_map_update(s.drop_last(), i, name, val);
        assert(s2.drop_last() =~= s.drop_last().update(i, (name, val)));
        assert(s2.last() == s.last());
    }
}

proof fn lemma_funcs_map_congruent(s1: Seq<(String, (String, Node))>, s2: Seq<(String, (String, Node))>)
    requires
        s1.len() == s2.len(),
        forall|i: int| 0 <= i < s1.len() ==> {
            &&& (#[trigger] s1[i]).0@ == (#[trigger] s2[i]).0@
            &&& s1[i].1.0@ == s2[i].1.0@
            &&& s1[i].1.1@ == s2[i].1.1@
        },
    ensures
        funcs_map(s1) =~= funcs_map(s2),
    decreases s1.len(),
{
    if s1.len() > 0 {
        lemma_funcs_map_congruent(s1.drop_last(), s2.drop_last());
    }
}

/// Looks a name up in a constant table.
fn lookup_const(v: &Vec<(String, u64)>, name: &str) -> (r: Option<u64>)
    requires
        consts_unique(v@),
    ensures
        match r {
            Some(val) => consts_map(v@).dom().contains(name@) && consts_map(v@)[name@] == val,
            None => !consts_map(v@).dom().contains(name@),
        },
{
    let mut i: usize = 0;
    while i < v.len()
        invariant
            consts_unique(v@),
            0 <= i <= v@.len(),
            forall|k: int| 0 <= k < i ==> v@[k].0@ != name@,
        decreases v@.len() - i,
    {
        if str_eq(v[i].0.as_str(), name) {
            let val = v[i].1;
            proof {
                lemma_consts_map_get(v@, i as int);
            }
            return Some(val);
        }
        i += 1;
    }
    proof {
        lemma_consts_map_absent(v@, name@);
    }
    None
}

/// Stores a value under a name in a constant table, replacing any previous
/// value of that name.
fn insert_const(v: &mut Vec<(String, u64)>, name: String, val: u64)
    requires
        consts_unique(old(v)@),
    ensures
        consts_unique(final(v)@),
        consts_map(final(v)@) == consts_map(old(v)@).insert(name@, val),
{
    let mut i: usize = 0;
    while i < v.len()
        invariant
            consts_unique(v@),
            v@ == old(v)@,
            0 <= i <= v@.len(),
            forall|k: int| 0 <= k < i ==> v@[k].0@ != name@,
        decreases v@.len() - i,
    {
        if str_eq(v[i].0.as_str(), name.as_str()) {
            proof {
                lemma_consts_map_update(v@, i as int, name, val);
            }
            v.set(i, (name, val));
            return ;
        }
        i += 1;
    }
    proof {
        lemma_consts_map_absent(v@, name@);
        assert(v@.push((name, val)).drop_last() =~= v@);
    }
    v.push((name, val));
}

/// Looks a name up in a function table, handing back a copy of the parameter
/// name and body.
fn lookup_func(v: &Vec<(String, (String, Node))>, name: &str) -> (r: Option<(String, Node)>)
    requires
        funcs_unique(v@),
        funcs_bodies_wf(v@),
    ensures
        match r {
            Some(pb) => {
                &&& funcs_map(v@).dom().contains(name@)
                &&& funcs_map(v@)[name@] == (pb.0@, pb.1@)
                &&& expr_wf(pb.1@)
                &&& node_literals_shaped(pb.1@)
            },
            None => !funcs_map(v@).dom().contains(name@),
        },
{
    let mut i: usize = 0;
    while i < v.len()
        invariant
            funcs_unique(v@),
            funcs_bodies_wf(v@),
            0 <= i <= v@.len(),
            forall|k: int| 0 <= k < i ==> v@[k].0@ != name@,
        decreases v@.len() - i,
    {
        if str_eq(v[i].0.as_str(), name) {
            let param = v[i].1.0.clone();
            let body = v[i].1.1.clone();
            proof {
                lemma_funcs_map_get(v@, i as int);
            }
            return Some((param, body));
        }
        i += 1;
    }
    proof {
        lemma_funcs_map_absent(v@, name@);
    }
    None
}

/// Stores a function under a name, replacing any previous definition.
fn insert_func(v: &mut Vec<(String, (String, Node))>, name: String, val: (String, Node))
    requires
        funcs_unique(old(v)@),
        funcs_bodies_wf(old(v)@),
        expr_wf(val.1@),
        node_literals_shaped(val.1@),
    ensures
        funcs_unique(final(v)@),
        funcs_bodies_wf(final(v)@),
        funcs_map(final(v)@) == funcs_map(old(v)@).insert(name@, (val.0@, val.1@)),
{
    let mut i: usize = 0;
    while i < v.len()
        invariant
            funcs_unique(v@),
            funcs_bodies_wf(v@),
            expr_wf(val.1@),
            node_literals_shaped(val.1@),
            v@ == old(v)@,
            0 <= i <= v@.len(),
            forall|k: int| 0 <= k < i ==> v@[k].0@ != name@,
        decreases v@.len() - i,
    {
        if str_eq(v[i].0.as_str(), name.as_str()) {
            proof {
                lemma_funcs_map_update(v@, i as int, name, val);
            }
            v.set(i, (name, val));
            return ;
        }
        i += 1;
    }
    proof {
        lemma_funcs_map_absent(v@, name@);
        assert(v@.push((name, val)).drop_last() =~= v@);
        assert forall|k: int|
            0 <= k < v@.push((name, val)).len() implies expr_wf(
            #[trigger] v@.push((name, val))[k].1.1@,
        ) && node_literals_shaped(v@.push((name, val))[k].1.1@) by {
            if k < v@.len() {
                assert(v@.push((name, val))[k] == v@[k]);
            }
        }
    }
    v.push((name, val));
}

/// The session: user constants, user functions, the last result, and the
/// lines run so far. Numbers are IEEE-754 double-precision bit patterns.
pub struct Interpreter {
    pub consts: Vec<(String, u64)>,
    pub funcs: Vec<(String, (String, Node))>,
    pub ans: u64,
    pub executed_lines: Vec<String>,
}

impl View for Interpreter {
    type V = EnvV;

    open spec fn view(&self) -> EnvV {
        EnvV {
            consts: consts_map(self.consts@),
            funcs: funcs_map(self.funcs@),
            ans: self.ans,
            lines: lines_view(self.executed_lines@),
        }
    }
}

impl Interpreter {
    /// The tables hold each name once, and every stored function body is an
    /// assignment-free expression with well-shaped numeric literals.
    pub open spec fn wf(&self) -> bool {
        &&& consts_unique(self.consts@)
        &&& funcs_unique(self.funcs@)
        &&& funcs_bodies_wf(self.funcs@)
    }
}

/// The environment a fresh session starts with: no user definitions and a
/// last result of zero.
pub open spec fn init_env() -> EnvV {
    EnvV { consts: Map::empty(), funcs: Map::empty(), ans: 0, lines: Seq::empty() }
}

impl Default for Interpreter {
    /// A fresh session.
    fn default() -> (r: Interpreter)
        ensures
            r.wf(),
            r@ == init_env(),
    {
        let r = Interpreter { consts: Vec::new(), funcs: Vec::new(), ans: 0, executed_lines: Vec::new() };
        proof {
            assert(r@.consts =~= init_env().consts);
            assert(r@.funcs =~= init_env().funcs);
            assert(r@.lines =~= init_env().lines);
        }
        r
    }
}

impl Clone for Interpreter {
    /// A deep copy with the same model: the snapshot that batch execution
    /// rolls back to when a line fails.
    fn clone(&self) -> (r: Interpreter)
        ensures
            r@ == self@,
            self.wf() ==> r.wf(),
    {
        let mut consts: Vec<(String, u64)> = Vec::new();
        let mut i: usize = 0;
        while i < self.consts.len()
            invariant
                0 <= i <= self.consts@.len(),
                consts@ == self.consts@.subrange(0, i as int),
            decreases self.consts@.len() - i,
        {
            let pair = (self.consts[i].0.clone(), self.consts[i].1);
            proof {
                assert(pair == self.consts@[i as int]);
                assert(consts@.push(pair) =~= self.consts@.subrange(0, i + 1));
            }
            consts.push(pair);
            i += 1;
        }
        proof {
            assert(consts@ =~= self.consts@);
        }
        let mut funcs: Vec<(String, (String, Node))> = Vec::new();
        let mut j: usize = 0;
        while j < self.funcs.len()
            invariant
                0 <= j <= self.funcs@.len(),
                funcs@.len() == j,
                forall|k: int| 0 <= k < j ==> {
                    &&& (#[trigger] funcs@[k]).0@ == self.funcs@[k].0@
                    &&& funcs@[k].1.0@ == self.funcs@[k].1.0@
                    &&& funcs@[k].1.1@ == self.funcs@[k].1.1@
                },
            decreases self.funcs@.len() - j,
        {
            let entry = (
                self.funcs[j].0.clone(),
                (self.funcs[j].1.0.clone(), self.funcs[j].1.1.clone()),
            );
            funcs.push(entry);
            j += 1;
        }
        proof {
            lemma_funcs_map_congruent(funcs@, self.funcs@);
        }
        let mut executed_lines: Vec<String> = Vec::new();
        let mut k: usize = 0;
        while k < self.executed_lines.len()
            invariant
                0 <= k <= self.executed_lines@.len(),
                executed_lines@ == self.executed_lines@.subrange(0, k as int),
            decreases self.executed_lines@.len() - k,
        {
            let line = self.executed_lines[k].clone();
            proof {
                assert(executed_lines@.push(line) =~= self.executed_lines@.subrange(0, k + 1));
            }
            executed_lines.push(line);
            k += 1;
        }
        proof {
            assert(executed_lines@ =~= self.executed_lines@);
        }
        let r = Interpreter { consts, funcs, ans: self.ans, executed_lines };
        proof {
            assert(r@.consts =~= self@.consts);
            assert(r@.funcs =~= self@.funcs);
            assert(r@.lines =~= self@.lines);
            if self.wf() {
                assert forall|i: int, j: int|
                    0 <= i < j < r.funcs@.len() implies r.funcs@[i].0@ != r.funcs@[j].0@ by {
                    assert(r.funcs@[i].0@ == self.funcs@[i].0@);
                    assert(r.funcs@[j].0@ == self.funcs@[j].0@);
                }
                assert forall|i: int|
                    0 <= i < r.funcs@.len() implies expr_wf(#[trigger] r.funcs@[i].1.1@)
                    && node_literals_shaped(r.funcs@[i].1.1@) by {
                    assert(r.funcs@[i].1.1@ == self.funcs@[i].1.1@);
                }
            }
        }
        r
    }
}

/// The model of a compile-time binding stack: parameter name to register.
pub open spec fn binds_view(bs: Seq<(String, usize)>) -> Seq<(Seq<char>, int)> {
    bs.map_values(|b: (String, usize)| (b.0@, b.1 as int))
}

/// The run-time binding stack those registers denote, under an
/// interpretation of the primitive operations.
pub open spec fn binds_sem(
    bv: Seq<(Seq<char>, int)>,
    p: Seq<InstrV>,
    sem: spec_fn(PrimOp) -> u64,
) -> Seq<(Seq<char>, u64)> {
    bv.map_values(|b: (Seq<char>, int)| (b.0, regs_spec(p, sem)[b.1]))
}

/// The register of the most recent binding of `name`.
pub open spec fn lookup_bind_idx(bv: Seq<(Seq<char>, int)>, name: Seq<char>) -> Option<int>
    decreases bv.len(),
{
    if bv.len() == 0 {
        None
    } else if bv.last().0 == name {
        Some(bv.last().1)
    } else {
        lookup_bind_idx(bv.drop_last(), name)
    }
}

proof fn lemma_lookup_bind_sem(
    bv: Seq<(Seq<char>, int)>,
    p: Seq<InstrV>,
    sem: spec_fn(PrimOp) -> u64,
    name: Seq<char>,
)
    ensures
        lookup_bind(binds_sem(bv, p, sem), name) == (match lookup_bind_idx(bv, name) {
            Some(i) => Some(regs_spec(p, sem)[i]),
            None => None::<u64>,
        }),
    decreases bv.len(),
{
    if bv.len() > 0 {
        assert(binds_sem(bv, p, sem).drop_last() =~= binds_sem(bv.drop_last(), p, sem));
        assert(binds_sem(bv, p, sem).last() == (bv.last().0, regs_spec(p, sem)[bv.last().1]));
        lemma_lookup_bind_sem(bv.drop_last(), p, sem, name);
    }
}

/// Appending instructions does not change what the binding stack denotes.
proof fn lemma_binds_sem_stable(
    bv: Seq<(Seq<char>, int)>,
    p_small: Seq<InstrV>,
    p_big: Seq<InstrV>,
    sem: spec_fn(PrimOp) -> u64,
)
    requires
        p_small.len() <= p_big.len(),
        p_big.subrange(0, p_small.len() as int) =~= p_small,
        forall|k: int| 0 <= k < bv.len() ==> 0 <= (#[trigger] bv[k]).1 < p_small.len(),
    ensures
        binds_sem(bv, p_small, sem) =~= binds_sem(bv, p_big, sem),
{
    lemma_regs_prefix(p_small, p_big, sem);
}

/// Which built-in unary function, if any, a name denotes.
fn builtin_unary_exec(name: &str) -> (r: Option<UnaryFn>)
    ensures
        r == builtin_unary_of(name@),
{
    if str_eq(name, "sqrt") {
        Some(UnaryFn::Sqrt)
    } else if str_eq(name, "ln") {
        Some(UnaryFn::Ln)
    } else if str_eq(name, "abs") {
        Some(UnaryFn::Abs)
    } else if str_eq(name, "cos") {
        Some(UnaryFn::Cos)
    } else if str_eq(name, "sin") {
        Some(UnaryFn::Sin)
    } else if str_eq(name, "tan") {
        Some(UnaryFn::Tan)
    } else if str_eq(name, "log") {
        Some(UnaryFn::Log)
    } else {
        None
    }
}

/// The register of the most recent binding of `name`, if any.
fn lookup_bind_exec(bs: &Vec<(String, usize)>, name: &str) -> (r: Option<usize>)
    ensures
        match r {
            Some(u) => lookup_bind_idx(binds_view(bs@), name@) == Some(u as int),
            None => lookup_bind_idx(binds_view(bs@), name@) == None::<int>,
        },
{
    let ghost bv = binds_view(bs@);
    let mut i: usize = bs.len();
    proof {
        assert(bv.take(i as int) =~= bv);
    }
    while i > 0
        invariant
            bv == binds_view(bs@),
            0 <= i <= bs@.len(),
            lookup_bind_idx(bv, name@) == lookup_bind_idx(bv.take(i as int), name@),
        decreases i,
    {
        i -= 1;
        if str_eq(bs[i].0.as_str(), name) {
            proof {
                assert(bv.take(i as int + 1).last() == (bs@[i as int].0@, bs@[i as int].1 as int));
            }
            return Some(bs[i].1);
        }
        proof {
            assert(bv.take(i as int + 1).drop_last() =~= bv.take(i as int));
            assert(bv.take(i as int + 1).last() == (bs@[i as int].0@, bs@[i as int].1 as int));
        }
    }
    proof {
        assert(bv.take(0) =~= Seq::empty());
    }
    None
}

/// Appends one instruction; the new register holds its value.
fn emit(prog: &mut Vec<Instr>, ins: Instr) -> (reg: usize)
    requires
        prog_wf(prog_view(old(prog)@)),
        instr_wf(ins@, old(prog)@.len() as int),
    ensures
        reg == old(prog)@.len(),
        final(prog)@.len() == old(prog)@.len() + 1,
        prog_view(final(prog)@) == prog_view(old(prog)@).push(ins@),
        final(prog)@.subrange(0, old(prog)@.len() as int) =~= old(prog)@,
        prog_wf(prog_view(final(prog)@)),
        forall|sem: spec_fn(PrimOp) -> u64|
            #![trigger regs_spec(prog_view(final(prog)@), sem)]
            regs_spec(prog_view(final(prog)@), sem) == regs_spec(
                prog_view(old(prog)@),
                sem,
            ).push(
                instr_val(ins@, regs_spec(prog_view(old(prog)@), sem), sem),
            ) && regs_spec(prog_view(final(prog)@), sem).len() == old(prog)@.len() + 1,
{
    let ghost p0 = prog_view(prog@);
    let ghost insv = ins@;
    let reg = prog.len();
    prog.push(ins);
    proof {
        assert(prog_view(prog@) =~= p0.push(insv));
        assert(prog@.subrange(0, p0.len() as int) =~= old(prog)@);
        assert forall|k: int| 0 <= k < prog_view(prog@).len() implies instr_wf(
            #[trigger] prog_view(prog@)[k],
            k,
        ) by {
            if k < p0.len() {
                assert(prog_view(prog@)[k] == p0[k]);
            }
        }
        assert forall|sem: spec_fn(PrimOp) -> u64|
            regs_spec(#[trigger] prog_view(prog@), sem) == regs_spec(p0, sem).push(
                instr_val(insv, regs_spec(p0, sem), sem),
            ) && regs_spec(prog_view(prog@), sem).len() == p0.len() + 1 by {
            lemma_regs_push(p0, insv, sem);
            lemma_regs_len(p0, sem);
        }
    }
    reg
}

/// Compiles an assignment-free expression against the current environment
/// into instructions appended to `prog`, resolving every name now. The
/// returned register holds, for every interpretation of the primitive
/// operations, exactly the value that evaluating the expression yields; an
/// error is returned exactly when evaluation would report it.
fn compile(
    node: &Node,
    env: &Interpreter,
    binds: &Vec<(String, usize)>,
    fuel: u64,
    prog: &mut Vec<Instr>,
) -> (r: Result<usize, CalcError>)
    requires
        env.wf(),
        expr_wf(node@),
        node_literals_shaped(node@),
        prog_wf(prog_view(old(prog)@)),
        forall|k: int| 0 <= k < binds@.len() ==> 0 <= (#[trigger] binds@[k]).1 < old(prog)@.len(),
    ensures
        prog_wf(prog_view(final(prog)@)),
        old(prog)@.len() <= final(prog)@.len(),
        final(prog)@.subrange(0, old(prog)@.len() as int) =~= old(prog)@,
        match r {
            Ok(reg) => reg < final(prog)@.len() && forall|sem: spec_fn(PrimOp) -> u64|
                #![trigger eval_node(node@, env@, binds_sem(binds_view(binds@), prog_view(final(prog)@), sem), fuel as nat, sem)]
                eval_node(
                    node@,
                    env@,
                    binds_sem(binds_view(binds@), prog_view(final(prog)@), sem),
                    fuel as nat,
                    sem,
                ) == Ok::<u64, ErrorV>(regs_spec(prog_view(final(prog)@), sem)[reg as int]),
            Err(e) => forall|sem: spec_fn(PrimOp) -> u64|
                #![trigger eval_node(node@, env@, binds_sem(binds_view(binds@), prog_view(final(prog)@), sem), fuel as nat, sem)]
                eval_node(
                    node@,
                    env@,
                    binds_sem(binds_view(binds@), prog_view(final(prog)@), sem),
                    fuel as nat,
                    sem,
                ) == Err::<u64, ErrorV>(e@),
        },
    decreases fuel, node,
{
    let ghost p0 = prog_view(prog@);
    let ghost bv = binds_view(binds@);
    match node {
        Node::Number(s) => {
            let reg = emit(prog, Instr::Lit(s.clone()));
            proof {
                let pf = prog_view(prog@);
                assert forall|sem: spec_fn(PrimOp) -> u64|
                    eval_node(node@, env@, binds_sem(bv, pf, sem), fuel as nat, sem) == Ok::<
                        u64,
                        ErrorV,
                    >(regs_spec(#[trigger] prog_view(prog@), sem)[reg as int]) by {
                    lemma_regs_len(p0, sem);
                }
            }
            Ok(reg)
        },
        Node::Const(name) => {
            if str_eq(name.as_str(), "pi") {
                let reg = emit(prog, Instr::Bits(PI_BITS));
                proof {
                    let pf = prog_view(prog@);
                    assert forall|sem: spec_fn(PrimOp) -> u64|
                        eval_node(node@, env@, binds_sem(bv, pf, sem), fuel as nat, sem) == Ok::<
                            u64,
                            ErrorV,
                        >(regs_spec(#[trigger] prog_view(prog@), sem)[reg as int]) by {
                        lemma_regs_len(p0, sem);
                    }
                }
                Ok(reg)
            } else if str_eq(name.as_str(), "e") {
                let reg = emit(prog, Instr::Bits(E_BITS));
                proof {
                    let pf = prog_view(prog@);
                    assert forall|sem: spec_fn(PrimOp) -> u64|
                        eval_node(node@, env@, binds_sem(bv, pf, sem), fuel as nat, sem) == Ok::<
                            u64,
                            ErrorV,
                        >(regs_spec(#[trigger] prog_view(prog@), sem)[reg as int]) by {
                        lemma_regs_len(p0, sem);
                    }
                }
                Ok(reg)
            } else if str_eq(name.as_str(), "ans") {
                let reg = emit(prog, Instr::Bits(env.ans));
                proof {
                    let pf = prog_view(prog@);
                    assert forall|sem: spec_fn(PrimOp) -> u64|
                        eval_node(node@, env@, binds_sem(bv, pf, sem), fuel as nat, sem) == Ok::<
                            u64,
                            ErrorV,
                        >(regs_spec(#[trigger] prog_view(prog@), sem)[reg as int]) by {
                        lemma_regs_len(p0, sem);
                    }
                }
                Ok(reg)
            } else {
                match lookup_bind_exec(binds, name.as_str()) {
                    Some(reg) => {
                        proof {
                            assert(prog@.subrange(0, p0.len() as int) =~= prog@);
                            assert(0 <= (reg as int) && (reg as int) < p0.len()) by {
                                lemma_lookup_bind_idx_range(bv, name@, binds@, p0.len() as int);
                            }
                            assert forall|sem: spec_fn(PrimOp) -> u64|
                                eval_node(
                                    node@,
                                    env@,
                                    binds_sem(bv, #[trigger] prog_view(prog@), sem),
                                    fuel as nat,
                                    sem,
                                ) == Ok::<u64, ErrorV>(
                                    regs_spec(prog_view(prog@), sem)[reg as int],
                                ) by {
                                lemma_lookup_bind_sem(bv, p0, sem, name@);
                                lemma_regs_len(p0, sem);
                            }
                        }
                        Ok(reg)
                    },
                    None => {
                        match lookup_const(&env.consts, name.as_str()) {
                            Some(val) => {
                                let reg = emit(prog, Instr::Bits(val));
                                proof {
                                    let pf = prog_view(prog@);
                                    assert forall|sem: spec_fn(PrimOp) -> u64|
                                        eval_node(node@, env@, binds_sem(bv, pf, sem), fuel as nat, sem)
                                            == Ok::<u64, ErrorV>(
                                            regs_spec(#[trigger] prog_view(prog@), sem)[reg as int],
                                        ) by {
                                        lemma_regs_len(p0, sem);
                                        lemma_lookup_bind_sem(bv, pf, sem, name@);
                                    }
                                }
                                Ok(reg)
                            },
                            None => {
                                let e = CalcError::UnknownConstant { name: name.clone() };
                                proof {
                                    assert(prog@.subrange(0, p0.len() as int) =~= prog@);
                                    assert forall|sem: spec_fn(PrimOp) -> u64|
                                        eval_node(
                                            node@,
                                            env@,
                                            binds_sem(bv, #[trigger] prog_view(prog@), sem),
                                            fuel as nat,
                                            sem,
                                        ) == Err::<u64, ErrorV>(e@) by {
                                        lemma_lookup_bind_sem(bv, p0, sem, name@);
                                    }
                                }
                                Err(e)
                            },
                        }
                    },
                }
            }
        },
        Node::Expr(l, op, rn) => {
            let ra = match compile(l, env, binds, fuel, prog) {
                Ok(x) => x,
                Err(e) => {
                    proof {
                        assert forall|sem: spec_fn(PrimOp) -> u64|
                            eval_node(node@, env@, binds_sem(bv, #[trigger] prog_view(prog@), sem), fuel as nat, sem)
                                == Err::<u64, ErrorV>(e@) by {
                            assert(eval_node(
                                l@,
                                env@,
                                binds_sem(bv, prog_view(prog@), sem),
                                fuel as nat,
                                sem,
                            ) == Err::<u64, ErrorV>(e@));
                        }
                    }
                    return Err(e);
                },
            };
            let ghost p1 = prog_view(prog@);
            let rb = match compile(rn, env, binds, fuel, prog) {
                Ok(x) => x,
                Err(e) => {
                    proof {
                        let pf = prog_view(prog@);
                        assert(prog@.subrange(0, p0.len() as int) =~= old(prog)@);
                        assert forall|sem: spec_fn(PrimOp) -> u64|
                            eval_node(node@, env@, binds_sem(bv, #[trigger] prog_view(prog@), sem), fuel as nat, sem)
                                == Err::<u64, ErrorV>(e@) by {
                            lemma_binds_sem_stable(bv, p0, p1, sem);
                            lemma_binds_sem_stable(bv, p0, pf, sem);
                            lemma_binds_sem_stable(bv, p1, pf, sem);
                            lemma_regs_prefix(p1, pf, sem);
                            lemma_regs_len(p1, sem);
                            assert(eval_node(
                                l@,
                                env@,
                                binds_sem(bv, p1, sem),
                                fuel as nat,
                                sem,
                            ) == Ok::<u64, ErrorV>(regs_spec(p1, sem)[ra as int]));
                            assert(regs_spec(pf, sem)[ra as int] == regs_spec(p1, sem)[ra as int]);
                            assert(eval_node(
                                l@,
                                env@,
                                binds_sem(bv, pf, sem),
                                fuel as nat,
                                sem,
                            ) == Ok::<u64, ErrorV>(regs_spec(pf, sem)[ra as int]));
                            assert(eval_node(
                                rn@,
                                env@,
                                binds_sem(bv, pf, sem),
                                fuel as nat,
                                sem,
                            ) == Err::<u64, ErrorV>(e@));
                        }
                    }
                    return Err(e);
                },
            };
            let ghost p2 = prog_view(prog@);
            let reg = emit(prog, Instr::Bin(*op, ra, rb));
            proof {
                let pf = prog_view(prog@);
                assert(prog@.subrange(0, p0.len() as int) =~= old(prog)@);
                assert forall|sem: spec_fn(PrimOp) -> u64|
                    eval_node(node@, env@, binds_sem(bv, #[trigger] prog_view(prog@), sem), fuel as nat, sem)
                        == Ok::<u64, ErrorV>(regs_spec(prog_view(prog@), sem)[reg as int]) by {
                    lemma_regs_len(p0, sem);
                    lemma_regs_len(p1, sem);
                    lemma_regs_len(p2, sem);
                    lemma_regs_prefix(p1, p2, sem);
                    lemma_regs_prefix(p2, pf, sem);
                    lemma_binds_sem_stable(bv, p0, p1, sem);
                    lemma_binds_sem_stable(bv, p0, p2, sem);
                    lemma_binds_sem_stable(bv, p0, pf, sem);
                    assert(regs_spec(pf, sem)[ra as int] == regs_spec(p2, sem)[ra as int]);
                    assert(regs_spec(p2, sem)[ra as int] == regs_spec(p1, sem)[ra as int]);
                    assert(eval_node(l@, env@, binds_sem(bv, p1, sem), fuel as nat, sem) == Ok::<
                        u64,
                        ErrorV,
                    >(regs_spec(p1, sem)[ra as int]));
                    assert(eval_node(rn@, env@, binds_sem(bv, p2, sem), fuel as nat, sem) == Ok::<
                        u64,
                        ErrorV,
                    >(regs_spec(p2, sem)[rb as int]));
                    assert(regs_spec(pf, sem)[reg as int] == instr_val(
                        InstrV::Bin(*op, ra as int, rb as int),
                        regs_spec(p2, sem),
                        sem,
                    ));
                }
            }
            Ok(reg)
        },
        Node::Function(fname, arg) => {
            let ra = match compile(arg, env, binds, fuel, prog) {
                Ok(x) => x,
                Err(e) => {
                    proof {
                        assert forall|sem: spec_fn(PrimOp) -> u64|
                            eval_node(node@, env@, binds_sem(bv, #[trigger] prog_view(prog@), sem), fuel as nat, sem)
                                == Err::<u64, ErrorV>(e@) by {
                            assert(eval_node(
                                arg@,
                                env@,
                                binds_sem(bv, prog_view(prog@), sem),
                                fuel as nat,
                                sem,
                            ) == Err::<u64, ErrorV>(e@));
                        }
                    }
                    return Err(e);
                },
            };
            let ghost p1 = prog_view(prog@);
            match builtin_unary_exec(fname.as_str()) {
                Some(f) => {
                    let reg = emit(prog, Instr::Call(f, ra));
                    proof {
                        let pf = prog_view(prog@);
                        assert(prog@.subrange(0, p0.len() as int) =~= old(prog)@);
                        assert forall|sem: spec_fn(PrimOp) -> u64|
                            eval_node(node@, env@, binds_sem(bv, #[trigger] prog_view(prog@), sem), fuel as nat, sem)
                                == Ok::<u64, ErrorV>(regs_spec(prog_view(prog@), sem)[reg as int])
                            by {
                            lemma_regs_len(p1, sem);
                            lemma_regs_prefix(p1, pf, sem);
                            lemma_binds_sem_stable(bv, p0, p1, sem);
                            lemma_binds_sem_stable(bv, p0, pf, sem);
                            assert(regs_spec(pf, sem)[ra as int] == regs_spec(p1, sem)[ra as int]);
                            assert(eval_node(
                                arg@,
                                env@,
                                binds_sem(bv, p1, sem),
                                fuel as nat,
                                sem,
                            ) == Ok::<u64, ErrorV>(regs_spec(p1, sem)[ra as int]));
                            assert(eval_node(
                                arg@,
                                env@,
                                binds_sem(bv, pf, sem),
                                fuel as nat,
                                sem,
                            ) == Ok::<u64, ErrorV>(regs_spec(pf, sem)[ra as int]));
                            assert(regs_spec(pf, sem)[reg as int] == instr_val(
                                InstrV::Call(f, ra as int),
                                regs_spec(p1, sem),
                                sem,
                            ));
                        }
                    }
                    Ok(reg)
                },
                None => {
                    match lookup_func(&env.funcs, fname.as_str()) {
                        Some((param, body)) => {
                            if fuel == 0 {
                                let e = CalcError::RecursionLimit;
                                proof {
                                    assert(prog@.subrange(0, p0.len() as int) =~= old(prog)@);
                                    assert forall|sem: spec_fn(PrimOp) -> u64|
                                        eval_node(
                                            node@,
                                            env@,
                                            binds_sem(bv, #[trigger] prog_view(prog@), sem),
                                            fuel as nat,
                                            sem,
                                        ) == Err::<u64, ErrorV>(e@) by {
                                        lemma_binds_sem_stable(bv, p0, p1, sem);
                                        assert(eval_node(
                                            arg@,
                                            env@,
                                            binds_sem(bv, p1, sem),
                                            fuel as nat,
                                            sem,
                                        ) matches Ok(_));
                                        assert(env@.funcs.dom().contains(fname@));
                                    }
                                }
                                return Err(e);
                            }
                            let ghost paramv = param@;
                            let ghost bodyv = body@;
                            let mut binds2: Vec<(String, usize)> = Vec::new();
                            let mut i: usize = 0;
                            while i < binds.len()
                                invariant
                                    0 <= i <= binds@.len(),
                                    binds2@ == binds@.subrange(0, i as int),
                                decreases binds@.len() - i,
                            {
                                let entry = (binds[i].0.clone(), binds[i].1);
                                proof {
                                    assert(entry == binds@[i as int]);
                                    assert(binds2@.push(entry) =~= binds@.subrange(0, i + 1));
                                }
                                binds2.push(entry);
                                i += 1;
                            }
                            proof {
                                assert(binds2@ =~= binds@);
                            }
                            binds2.push((param, ra));
                            proof {
                                assert(binds_view(binds2@) =~= bv.push((paramv, ra as int)));
                            }
                            let res = compile(&body, env, &binds2, fuel - 1, prog);
                            proof {
                                let pf = prog_view(prog@);
                                assert(prog@.subrange(0, p0.len() as int) =~= old(prog)@);
                            }
                            match res {
                                Ok(reg) => {
                                    proof {
                                        let pf = prog_view(prog@);
                                        assert forall|sem: spec_fn(PrimOp) -> u64|
                                            eval_node(
                                                node@,
                                                env@,
                                                binds_sem(bv, #[trigger] prog_view(prog@), sem),
                                                fuel as nat,
                                                sem,
                                            ) == Ok::<u64, ErrorV>(
                                                regs_spec(prog_view(prog@), sem)[reg as int],
                                            ) by {
                                            lemma_regs_len(p1, sem);
                                            lemma_regs_prefix(p1, pf, sem);
                                            lemma_binds_sem_stable(bv, p0, p1, sem);
                                            lemma_binds_sem_stable(bv, p0, pf, sem);
                                            lemma_binds_sem_stable(
                                                bv.push((paramv, ra as int)),
                                                p1,
                                                pf,
                                                sem,
                                            );
                                            assert(regs_spec(pf, sem)[ra as int] == regs_spec(
                                                p1,
                                                sem,
                                            )[ra as int]);
                                            assert(binds_sem(bv.push((paramv, ra as int)), pf, sem)
                                                =~= binds_sem(bv, pf, sem).push(
                                                (paramv, regs_spec(pf, sem)[ra as int]),
                                            ));
                                            assert(eval_node(
                                                arg@,
                                                env@,
                                                binds_sem(bv, pf, sem),
                                                fuel as nat,
                                                sem,
                                            ) == Ok::<u64, ErrorV>(
                                                regs_spec(pf, sem)[ra as int],
                                            ));
                                            assert(eval_node(
                                                bodyv,
                                                env@,
                                                binds_sem(
                                                    bv.push((paramv, ra as int)),
                                                    pf,
                                                    sem,
                                                ),
                                                (fuel - 1) as nat,
                                                sem,
                                            ) == Ok::<u64, ErrorV>(
                                                regs_spec(pf, sem)[reg as int],
                                            ));
                                            assert(env@.funcs.dom().contains(fname@));
                                            assert(env@.funcs[fname@] == (paramv, bodyv));
                                        }
                                    }
                                    Ok(reg)
                                },
                                Err(e) => {
                                    proof {
                                        let pf = prog_view(prog@);
                                        assert forall|sem: spec_fn(PrimOp) -> u64|
                                            eval_node(
                                                node@,
                                                env@,
                                                binds_sem(bv, #[trigger] prog_view(prog@), sem),
                                                fuel as nat,
                                                sem,
                                            ) == Err::<u64, ErrorV>(e@) by {
                                            lemma_regs_len(p1, sem);
                                            lemma_regs_prefix(p1, pf, sem);
                                            lemma_binds_sem_stable(bv, p0, p1, sem);
                                            lemma_binds_sem_stable(bv, p0, pf, sem);
                                            lemma_binds_sem_stable(
                                                bv.push((paramv, ra as int)),
                                                p1,
                                                pf,
                                                sem,
                                            );
                                            assert(regs_spec(pf, sem)[ra as int] == regs_spec(
                                                p1,
                                                sem,
                                            )[ra as int]);
                                            assert(binds_sem(bv.push((paramv, ra as int)), pf, sem)
                                                =~= binds_sem(bv, pf, sem).push(
                                                (paramv, regs_spec(pf, sem)[ra as int]),
                                            ));
                                            assert(eval_node(
                                                arg@,
                                                env@,
                                                binds_sem(bv, pf, sem),
                                                fuel as nat,
                                                sem,
                                            ) == Ok::<u64, ErrorV>(
                                                regs_spec(pf, sem)[ra as int],
                                            ));
                                            assert(eval_node(
                                                bodyv,
                                                env@,
                                                binds_sem(
                                                    bv.push((paramv, ra as int)),
                                                    pf,
                                                    sem,
                                                ),
                                                (fuel - 1) as nat,
                                                sem,
                                            ) == Err::<u64, ErrorV>(e@));
                                            assert(env@.funcs.dom().contains(fname@));
                                            assert(env@.funcs[fname@] == (paramv, bodyv));
                                        }
                                    }
                                    Err(e)
                                },
                            }
                        },
                        None => {
                            let e = CalcError::UnknownFunction { name: fname.clone() };
                            proof {
                                assert(prog@.subrange(0, p0.len() as int) =~= old(prog)@);
                                assert forall|sem: spec_fn(PrimOp) -> u64|
                                    eval_node(
                                        node@,
                                        env@,
                                        binds_sem(bv, #[trigger] prog_view(prog@), sem),
                                        fuel as nat,
                                        sem,
                                    ) == Err::<u64, ErrorV>(e@) by {
                                    lemma_binds_sem_stable(bv, p0, p1, sem);
                                    assert(eval_node(
                                        arg@,
                                        env@,
                                        binds_sem(bv, p1, sem),
                                        fuel as nat,
                                        sem,
                                    ) matches Ok(_));
                                }
                            }
                            Err(e)
                        },
                    }
                },
            }
        },
        Node::AssignConst(_, _) => {
            proof {
                assert(false);
            }
            vstd::pervasive::unreached()
        },
        Node::AssignFunc(_, _, _) => {
            proof {
                assert(false);
            }
            vstd::pervasive::unreached()
        },
    }
}

/// A register named by the binding stack is inside the program.
proof fn lemma_lookup_bind_idx_range(
    bv: Seq<(Seq<char>, int)>,
    name: Seq<char>,
    bs: Seq<(String, usize)>,
    bound: int,
)
    requires
        bv == binds_view(bs),
        forall|k: int| 0 <= k < bs.len() ==> 0 <= (#[trigger] bs[k]).1 < bound,
    ensures
        match lookup_bind_idx(bv, name) {
            Some(i) => 0 <= i < bound,
            None => true,
        },
    decreases bv.len(),
{
    if bv.len() > 0 {
        assert(bv.last() == (bs.last().0@, bs.last().1 as int));
        assert(bv.drop_last() =~= binds_view(bs.drop_last()));
        lemma_lookup_bind_idx_range(bv.drop_last(), name, bs.drop_last(), bound);
    }
}

/// What a successfully prepared line will do when its value is known: a
/// plain expression, a constant definition storing the value under a name,
/// or a function definition storing a parameter name and body.
#[derive(Debug)]
pub enum LineKind {
    Expr,
    ConstDef(String),
    FuncDef(String, String, Node),
}

/// The mathematical model of a line kind.
pub enum KindV {
    Expr,
    ConstDef(Seq<char>),
    FuncDef(Seq<char>, Seq<char>, NodeV),
}

impl View for LineKind {
    type V = KindV;

    open spec fn view(&self) -> KindV {
        match self {
            LineKind::Expr => KindV::Expr,
            LineKind::ConstDef(n) => KindV::ConstDef(n@),
            LineKind::FuncDef(n, p, b) => KindV::FuncDef(n@, p@, b@),
        }
    }
}

/// One prepared line: a straight-line numeric program, the register holding
/// the line's value, what to store once that value is computed, and the
/// trimmed source text.
#[derive(Debug)]
pub struct LinePlan {
    pub program: Vec<Instr>,
    pub result: usize,
    pub kind: LineKind,
    pub line: String,
}

/// The mathematical model of a prepared line.
#[verifier::ext_equal]
pub struct PlanV {
    pub program: Seq<InstrV>,
    pub result: int,
    pub kind: KindV,
    pub line: Seq<char>,
}

impl View for LinePlan {
    type V = PlanV;

    open spec fn view(&self) -> PlanV {
        PlanV {
            program: prog_view(self.program@),
            result: self.result as int,
            kind: self.kind@,
            line: self.line@,
        }
    }
}

impl LinePlan {
    /// The program reads only earlier registers, the result register exists,
    /// and a stored function body is an assignment-free expression.
    pub open spec fn wf(&self) -> bool {
        &&& prog_wf(self@.program)
        &&& 0 <= self@.result < self@.program.len()
        &&& match self@.kind {
            KindV::FuncDef(_, _, b) => expr_wf(b) && node_literals_shaped(b),
            _ => true,
        }
    }
}

/// The value a prepared line computes under an interpretation of the
/// primitive operations.
pub open spec fn plan_value(p: PlanV, sem: spec_fn(PrimOp) -> u64) -> u64 {
    regs_spec(p.program, sem)[p.result]
}

/// The environment after committing a prepared line with value `v`: the
/// stores the kind calls for, the last result set to `v`, and the line
/// recorded.
pub open spec fn apply_plan(env: EnvV, p: PlanV, v: u64) -> EnvV {
    match p.kind {
        KindV::Expr => EnvV {
            consts: env.consts,
            funcs: env.funcs,
            ans: v,
            lines: env.lines.push(p.line),
        },
        KindV::ConstDef(n) => EnvV {
            consts: env.consts.insert(n, v),
            funcs: env.funcs,
            ans: v,
            lines: env.lines.push(p.line),
        },
        KindV::FuncDef(n, par, b) => EnvV {
            consts: env.consts,
            funcs: env.funcs.insert(n, (par, b)),
            ans: v,
            lines: env.lines.push(p.line),
        },
    }
}

/// Running one line against an environment, under an interpretation of the
/// primitive operations: lex, parse, evaluate, then update the environment
/// and record the trimmed line. On any error the environment is unchanged.
pub open spec fn run_spec(text: Seq<char>, env: EnvV, sem: spec_fn(PrimOp) -> u64) -> Result<
    (u64, EnvV),
    ErrorV,
> {
    match parse_spec(text) {
        Err(e) => Err(e),
        Ok(root) => match line_eval(root, env, sem) {
            Err(e) => Err(e),
            Ok((v, env1)) => Ok(
                (
                    v,
                    EnvV {
                        consts: env1.consts,
                        funcs: env1.funcs,
                        ans: v,
                        lines: env.lines.push(trim_spec(text)),
                    },
                ),
            ),
        },
    }
}

impl Interpreter {
    /// Lexes, parses and compiles one line against the current session,
    /// resolving every name now. On success the plan computes, for every
    /// interpretation of the primitive operations, exactly the value the
    /// line denotes, and committing the plan with that value yields exactly
    /// the environment the line leaves behind; the error cases are exact
    /// too. The session itself is not changed until `commit`.
    pub fn run(&self, text: &str) -> (r: Result<LinePlan, CalcError>)
        requires
            self.wf(),
        ensures
            match r {
                Ok(plan) => {
                    &&& plan.wf()
                    &&& plan@.line == trim_spec(text@)
                    &&& forall|sem: spec_fn(PrimOp) -> u64|
                        #![trigger run_spec(text@, self@, sem)]
                        run_spec(text@, self@, sem) == Ok::<(u64, EnvV), ErrorV>(
                            (
                                plan_value(plan@, sem),
                                apply_plan(self@, plan@, plan_value(plan@, sem)),
                            ),
                        )
                },
                Err(e) => forall|sem: spec_fn(PrimOp) -> u64|
                    #![trigger run_spec(text@, self@, sem)]
                    run_spec(text@, self@, sem) == Err::<(u64, EnvV), ErrorV>(e@),
            },
    {
        let line = trim_str(text);
        let mut parser = match Parser::new(String::from_str(text)) {
            Ok(p) => p,
            Err(e) => {
                return Err(e);
            },
        };
        let node = match parser.calc() {
            Ok(n) => n,
            Err(e) => {
                return Err(e);
            },
        };
        let ghost nodev = node@;
        proof {
            assert(parse_spec(text@) == Ok::<NodeV, ErrorV>(nodev));
            lemma_lex_shaped(text@, 0);
            assert(node_literals_shaped(nodev));
        }
        let mut prog: Vec<Instr> = Vec::new();
        let binds: Vec<(String, usize)> = Vec::new();
        proof {
            assert(binds_view(binds@) =~= Seq::<(Seq<char>, int)>::empty());
            assert(prog_view(prog@) =~= Seq::<InstrV>::empty());
        }
        match node {
            Node::AssignConst(name, e) => {
                let ghost namev = name@;
                let reg = match compile(&e, self, &binds, CALL_DEPTH_LIMIT, &mut prog) {
                    Ok(x) => x,
                    Err(er) => {
                        proof {
                            assert forall|sem: spec_fn(PrimOp) -> u64|
                                run_spec(text@, self@, sem) == Err::<(u64, EnvV), ErrorV>(er@) by {
                                assert(binds_sem(
                                    binds_view(binds@),
                                    prog_view(prog@),
                                    sem,
                                ) =~= Seq::<(Seq<char>, u64)>::empty());
                                assert(eval_node(
                                    (*e)@,
                                    self@,
                                    binds_sem(binds_view(binds@), prog_view(prog@), sem),
                                    CALL_DEPTH_LIMIT as nat,
                                    sem,
                                ) == Err::<u64, ErrorV>(er@));
                            }
                        }
                        return Err(er);
                    },
                };
                let plan = LinePlan {
                    program: prog,
                    result: reg,
                    kind: LineKind::ConstDef(name),
                    line,
                };
                proof {
                    let pf = plan@.program;
                    assert forall|sem: spec_fn(PrimOp) -> u64|
                        run_spec(text@, self@, sem) == Ok::<(u64, EnvV), ErrorV>(
                            (
                                plan_value(plan@, sem),
                                apply_plan(self@, plan@, plan_value(plan@, sem)),
                            ),
                        ) by {
                        assert(binds_sem(binds_view(binds@), pf, sem) =~= Seq::<
                            (Seq<char>, u64),
                        >::empty());
                        assert(eval_node(
                            (*e)@,
                            self@,
                            binds_sem(binds_view(binds@), pf, sem),
                            CALL_DEPTH_LIMIT as nat,
                            sem,
                        ) == Ok::<u64, ErrorV>(regs_spec(pf, sem)[reg as int]));
                        let v = plan_value(plan@, sem);
                        assert(line_eval(nodev, self@, sem) matches Ok(p) && p.0 == v);
                        assert(run_spec(text@, self@, sem) matches Ok(p) && p.0 == v
                            && p.1 =~= apply_plan(self@, plan@, v));
                    }
                }
                Ok(plan)
            },
            Node::AssignFunc(name, param, body) => {
                let ghost namev = name@;
                let ghost paramv = param@;
                let ghost bodyv = node_view(*body);
                let reg = emit(&mut prog, Instr::Bits(ZERO_BITS));
                let plan = LinePlan {
                    program: prog,
                    result: reg,
                    kind: LineKind::FuncDef(name, param, *body),
                    line,
                };
                proof {
                    let pf = plan@.program;
                    assert forall|sem: spec_fn(PrimOp) -> u64|
                        run_spec(text@, self@, sem) == Ok::<(u64, EnvV), ErrorV>(
                            (
                                plan_value(plan@, sem),
                                apply_plan(self@, plan@, plan_value(plan@, sem)),
                            ),
                        ) by {
                        assert(regs_spec(pf, sem)[0] == ZERO_BITS);
                        let v = plan_value(plan@, sem);
                        assert(v == ZERO_BITS);
                        assert(line_eval(nodev, self@, sem) matches Ok(p) && p.0 == v);
                        assert(run_spec(text@, self@, sem) matches Ok(p) && p.0 == v
                            && p.1 =~= apply_plan(self@, plan@, v));
                    }
                }
                Ok(plan)
            },
            other => {
                let ghost otherv = other@;
                let reg = match compile(&other, self, &binds, CALL_DEPTH_LIMIT, &mut prog) {
                    Ok(x) => x,
                    Err(er) => {
                        proof {
                            assert forall|sem: spec_fn(PrimOp) -> u64|
                                run_spec(text@, self@, sem) == Err::<(u64, EnvV), ErrorV>(er@) by {
                                assert(binds_sem(
                                    binds_view(binds@),
                                    prog_view(prog@),
                                    sem,
                                ) =~= Seq::<(Seq<char>, u64)>::empty());
                                assert(eval_node(
                                    otherv,
                                    self@,
                                    binds_sem(binds_view(binds@), prog_view(prog@), sem),
                                    CALL_DEPTH_LIMIT as nat,
                                    sem,
                                ) == Err::<u64, ErrorV>(er@));
                            }
                        }
                        return Err(er);
                    },
                };
                let plan = LinePlan { program: prog, result: reg, kind: LineKind::Expr, line };
                proof {
                    let pf = plan@.program;
                    assert forall|sem: spec_fn(PrimOp) -> u64|
                        run_spec(text@, self@, sem) == Ok::<(u64, EnvV), ErrorV>(
                            (
                                plan_value(plan@, sem),
                                apply_plan(self@, plan@, plan_value(plan@, sem)),
                            ),
                        ) by {
                        assert(binds_sem(binds_view(binds@), pf, sem) =~= Seq::<
                            (Seq<char>, u64),
                        >::empty());
                        assert(eval_node(
                            otherv,
                            self@,
                            binds_sem(binds_view(binds@), pf, sem),
                            CALL_DEPTH_LIMIT as nat,
                            sem,
                        ) == Ok::<u64, ErrorV>(regs_spec(pf, sem)[reg as int]));
                        let v = plan_value(plan@, sem);
                        assert(line_eval(nodev, self@, sem) matches Ok(p) && p.0 == v);
                        assert(run_spec(text@, self@, sem) matches Ok(p) && p.0 == v
                            && p.1 =~= apply_plan(self@, plan@, v));
                    }
                }
                Ok(plan)
            },
        }
    }

    /// Stores what a prepared line calls for, given the value the line's
    /// program computed: the session becomes exactly `apply_plan` of its old
    /// state.
    pub fn commit(&mut self, plan: LinePlan, value: u64)
        requires
            old(self).wf(),
            plan.wf(),
        ensures
            final(self).wf(),
            final(self)@ == apply_plan(old(self)@, plan@, value),
    {
        let ghost planv = plan@;
        let LinePlan { program: _program, result: _result, kind, line } = plan;
        match kind {
            LineKind::Expr => {},
            LineKind::ConstDef(name) => {
                insert_const(&mut self.consts, name, value);
            },
            LineKind::FuncDef(name, param, body) => {
                insert_func(&mut self.funcs, name, (param, body));
            },
        }
        self.ans = value;
        self.executed_lines.push(line);
        proof {
            assert(lines_view(self.executed_lines@) =~= lines_view(
                old(self).executed_lines@,
            ).push(planv.line));
            assert(self@ =~= apply_plan(old(self)@, planv, value));
        }
    }
}

} // verus!
