//! The evaluator: walks a [`Program`], executing statements for effect and
//! expressions for value.  It keeps a stack of flat scope frames (variable
//! lookup sees only the top frame), a registry of declared functions (a
//! declaration must be executed before the function is callable; the last
//! declaration of a name wins), and the lines printed so far.
//!
//! The executable evaluator is proved equal to a big-step operational
//! semantics (`eval_stmt`, `eval_expr`, ...) over the AST mirrors, with an
//! explicit call-depth bound: each function dispatch consumes one unit of
//! the depth budget, and a dispatch with no budget left reports
//! `RecursionLimit`.
use crate::ast::{
    expr_size, exprs_size, exprs_view, lemma_exprs_size_elem, lemma_exprs_view_index,
    lemma_stmts_size_elem, lemma_stmts_view_index, names_view, stmt_size, stmts_size, stmts_view,
    ExpressionType, ExprView, Expression, Program, Statement, StatementType, StmtView,
};
use crate::lexer::str_eq;
use crate::value::{
    render_val, spec_binop, spec_literal_value, spec_truthy, EvalErrView, EvalError, ValView,
    Value, ValueType,
};
use std::rc::Rc;
use vstd::prelude::*;

verus! {

/// How deep function calls may nest before the evaluator reports
/// `RecursionLimit`.
pub const CALL_DEPTH_LIMIT: u64 = 256;

/// A declared function as the registry keeps it: its parameter names and
/// its body, shared with the declaration statement.
#[derive(Debug)]
pub struct FunctionDef {
    pub params: Rc<Vec<String>>,
    pub body: Rc<Vec<Statement>>,
}

/// Mathematical mirror of [`FunctionDef`].
pub struct FuncView {
    pub params: Seq<Seq<char>>,
    pub body: Seq<StmtView>,
}

impl View for FunctionDef {
    type V = FuncView;

    open spec fn view(&self) -> FuncView {
        FuncView { params: names_view(self.params@), body: stmts_view(self.body@) }
    }
}

impl FunctionDef {
    /// An explicit copy sharing the same parameter list and body.
    pub fn duplicate(&self) -> (f: FunctionDef)
        ensures
            f == *self,
    {
        FunctionDef { params: self.params.clone(), body: self.body.clone() }
    }
}

/// The mathematical model of the evaluator's mutable state: the scope
/// frames (innermost last), the function registry, and the lines printed so
/// far.
pub struct EnvView {
    pub frames: Seq<Map<Seq<char>, ValView>>,
    pub funcs: Map<Seq<char>, FuncView>,
    pub output: Seq<Seq<char>>,
}

/// The map an association list denotes: a later entry for a name shadows an
/// earlier one.
pub open spec fn frame_map(entries: Seq<(String, Value)>) -> Map<Seq<char>, ValView>
    decreases entries.len(),
{
    if entries.len() == 0 {
        Map::empty()
    } else {
        frame_map(entries.drop_last()).insert(entries.last().0@, entries.last().1@)
    }
}

/// The map the function registry denotes; the last declaration of a name
/// wins.
pub open spec fn funcs_map(entries: Seq<(String, FunctionDef)>) -> Map<Seq<char>, FuncView>
    decreases entries.len(),
{
    if entries.len() == 0 {
        Map::empty()
    } else {
        funcs_map(entries.drop_last()).insert(entries.last().0@, entries.last().1@)
    }
}

/// The evaluator's mutable state: the scope-frame stack, the function
/// registry, and the printed output lines.
#[derive(Debug)]
pub struct EvalEnv {
    pub variable_stack: Vec<Vec<(String, Value)>>,
    pub functions: Vec<(String, FunctionDef)>,
    pub output: Vec<String>,
}

impl View for EvalEnv {
    type V = EnvView;

    open spec fn view(&self) -> EnvView {
        EnvView {
            frames: Seq::new(self.variable_stack@.len(), |i: int| frame_map(self.variable_stack@[i]@)),
            funcs: funcs_map(self.functions@),
            output: Seq::new(self.output@.len(), |i: int| self.output@[i]@),
        }
    }
}

impl EvalEnv {
    /// The scope stack is never empty: a global frame exists for the whole
    /// run.
    pub open spec fn wf(&self) -> bool {
        self.variable_stack@.len() >= 1
    }
}

/// Binding the current value of `name` in the innermost scope frame.
pub open spec fn env_set_var(env: EnvView, name: Seq<char>, v: ValView) -> EnvView {
    EnvView {
        frames: env.frames.update(env.frames.len() - 1, env.frames.last().insert(name, v)),
        funcs: env.funcs,
        output: env.output,
    }
}

/// What evaluating one expression yields: the state after it (printing and
/// function declarations inside calls persist) and its value or the error.
pub open spec fn eval_expr(env: EnvView, e: ExprView, fuel: nat) -> (EnvView, Result<
    ValView,
    EvalErrView,
>)
    decreases fuel, expr_size(e), 2int,
{
    match e {
        ExprView::Literal(text) => (env, Ok(spec_literal_value(text))),
        ExprView::Variable(name) => {
            let top = env.frames.last();
            if top.contains_key(name) {
                (env, Ok(top[name]))
            } else {
                (env, Err(EvalErrView::UndefinedVariable(name)))
            }
        },
        ExprView::Binary(l, op, r) => {
            let (env1, rl) = eval_expr(env, *l, fuel);
            match rl {
                Ok(lv) => {
                    let (env2, rr) = eval_expr(env1, *r, fuel);
                    match rr {
                        Ok(rv) => (env2, spec_binop(op.token_type, lv, rv)),
                        Err(e2) => (env2, Err(e2)),
                    }
                },
                Err(e1) => (env1, Err(e1)),
            }
        },
        ExprView::Unary(_, _) => (env, Err(EvalErrView::UnsupportedExpression)),
        ExprView::FunctionCall(name, args) => {
            if env.funcs.contains_key(name) {
                eval_call(env, env.funcs[name], args, fuel)
            } else {
                (env, Err(EvalErrView::UndefinedFunction(name)))
            }
        },
    }
}

/// Evaluates argument expressions in the caller's scope, zipped to the
/// parameter names (extra arguments are not evaluated; missing parameters
/// stay unbound), building the callee's scope frame.
pub open spec fn eval_args(
    env: EnvView,
    args: Seq<ExprView>,
    params: Seq<Seq<char>>,
    acc: Map<Seq<char>, ValView>,
    fuel: nat,
) -> (EnvView, Result<Map<Seq<char>, ValView>, EvalErrView>)
    decreases fuel, exprs_size(args), 1int,
{
    if args.len() == 0 || params.len() == 0 {
        (env, Ok(acc))
    } else {
        let (env1, r0) = eval_expr(env, args[0], fuel);
        match r0 {
            Ok(v) => eval_args(
                env1,
                args.subrange(1, args.len() as int),
                params.subrange(1, params.len() as int),
                acc.insert(params[0], v),
                fuel,
            ),
            Err(e) => (env1, Err(e)),
        }
    }
}

/// One function dispatch: consumes one unit of the depth budget, builds the
/// callee frame from the zipped arguments, runs the body with `Integer(0)`
/// as the pending result, and pops the frame.
pub open spec fn eval_call(env: EnvView, f: FuncView, args: Seq<ExprView>, fuel: nat) -> (EnvView, Result<
    ValView,
    EvalErrView,
>)
    decreases fuel, 1 + exprs_size(args), 0int,
{
    if fuel == 0 {
        (env, Err(EvalErrView::RecursionLimit))
    } else {
        let (env1, ra) = eval_args(env, args, f.params, Map::empty(), fuel);
        match ra {
            Ok(frame) => {
                let env2 = EnvView {
                    frames: env1.frames.push(frame),
                    funcs: env1.funcs,
                    output: env1.output,
                };
                let (env3, rb) = eval_body(env2, f.body, ValView::Int(0), (fuel - 1) as nat);
                match rb {
                    Ok(v) => (
                        EnvView {
                            frames: env3.frames.drop_last(),
                            funcs: env3.funcs,
                            output: env3.output,
                        },
                        Ok(v),
                    ),
                    Err(e) => (env3, Err(e)),
                }
            },
            Err(e) => (env1, Err(e)),
        }
    }
}

/// What executing one statement yields.
pub open spec fn eval_stmt(env: EnvView, s: StmtView, fuel: nat) -> (EnvView, Result<
    (),
    EvalErrView,
>)
    decreases fuel, stmt_size(s), 3int,
{
    match s {
        StmtView::Declaration { identif, value } => {
            let (env1, rv) = eval_expr(env, value, fuel);
            match rv {
                Ok(v) => (env_set_var(env1, identif, v), Ok(())),
                Err(e) => (env1, Err(e)),
            }
        },
        StmtView::Assignment { identif, value } => {
            let (env1, rv) = eval_expr(env, value, fuel);
            match rv {
                Ok(v) => (env_set_var(env1, identif, v), Ok(())),
                Err(e) => (env1, Err(e)),
            }
        },
        StmtView::Print(e) => {
            let (env1, rv) = eval_expr(env, e, fuel);
            match rv {
                Ok(v) => (
                    EnvView {
                        frames: env1.frames,
                        funcs: env1.funcs,
                        output: env1.output.push(render_val(v)),
                    },
                    Ok(()),
                ),
                Err(er) => (env1, Err(er)),
            }
        },
        StmtView::FunctionDeclaration(name, params, body) => (
            EnvView {
                frames: env.frames,
                funcs: env.funcs.insert(name, FuncView { params, body }),
                output: env.output,
            },
            Ok(()),
        ),
        StmtView::Return(_) => (env, Ok(())),
        StmtView::IfBlock(c, body) => {
            let (env1, rv) = eval_expr(env, c, fuel);
            match rv {
                Ok(v) => if spec_truthy(v) {
                    eval_stmts(env1, body, fuel)
                } else {
                    (env1, Ok(()))
                },
                Err(er) => (env1, Err(er)),
            }
        },
        StmtView::IfElseBlock(c, then_body, else_body) => {
            let (env1, rv) = eval_expr(env, c, fuel);
            match rv {
                Ok(v) => if spec_truthy(v) {
                    eval_stmts(env1, then_body, fuel)
                } else {
                    eval_stmts(env1, else_body, fuel)
                },
                Err(er) => (env1, Err(er)),
            }
        },
        StmtView::FunctionCall(name, args) => {
            let (env1, rv) = eval_expr(env, ExprView::FunctionCall(name, args), fuel);
            match rv {
                Ok(_) => (env1, Ok(())),
                Err(er) => (env1, Err(er)),
            }
        },
    }
}

/// Executes statements in order, stopping at the first error.
pub open spec fn eval_stmts(env: EnvView, ss: Seq<StmtView>, fuel: nat) -> (EnvView, Result<
    (),
    EvalErrView,
>)
    decreases fuel, stmts_size(ss), 4int,
{
    if ss.len() == 0 {
        (env, Ok(()))
    } else {
        let (env1, r0) = eval_stmt(env, ss[0], fuel);
        match r0 {
            Ok(_) => eval_stmts(env1, ss.subrange(1, ss.len() as int), fuel),
            Err(e) => (env1, Err(e)),
        }
    }
}

/// Executes a function body: every top-level statement runs in order, with
/// no early exit; a top-level `Return` only replaces the pending result
/// (the last one executed wins), and a body without one yields the pending
/// default.
pub open spec fn eval_body(env: EnvView, ss: Seq<StmtView>, pending: ValView, fuel: nat) -> (EnvView, Result<
    ValView,
    EvalErrView,
>)
    decreases fuel, stmts_size(ss), 4int,
    via eval_body_decreases
{
    if ss.len() == 0 {
        (env, Ok(pending))
    } else {
        let rest = ss.subrange(1, ss.len() as int);
        match ss[0] {
            StmtView::Return(oe) => match oe {
                Some(e) => {
                    let (env1, rv) = eval_expr(env, e, fuel);
                    match rv {
                        Ok(v) => eval_body(env1, rest, v, fuel),
                        Err(er) => (env1, Err(er)),
                    }
                },
                None => eval_body(env, rest, ValView::Int(0), fuel),
            },
            _ => {
                let (env1, r0) = eval_stmt(env, ss[0], fuel);
                match r0 {
                    Ok(_) => eval_body(env1, rest, pending, fuel),
                    Err(er) => (env1, Err(er)),
                }
            },
        }
    }
}

#[via_fn]
proof fn eval_body_decreases(env: EnvView, ss: Seq<StmtView>, pending: ValView, fuel: nat) {
    if ss.len() > 0 {
        assert(stmts_size(ss) == 1 + stmt_size(ss[0]) + stmts_size(ss.subrange(1, ss.len() as int)));
        assert(stmt_size(ss[0]) >= 1);
    }
}

/// Appending an entry binds its name, shadowing earlier entries.
proof fn lemma_frame_map_push(entries: Seq<(String, Value)>, name: String, v: Value)
    ensures
        frame_map(entries.push((name, v))) == frame_map(entries).insert(name@, v@),
{
    assert(entries.push((name, v)).drop_last() =~= entries);
}

/// Appending an entry binds its name, shadowing earlier entries.
proof fn lemma_funcs_map_push(entries: Seq<(String, FunctionDef)>, name: String, f: FunctionDef)
    ensures
        funcs_map(entries.push((name, f))) == funcs_map(entries).insert(name@, f@),
{
    assert(entries.push((name, f)).drop_last() =~= entries);
}

/// The entry whose name no later entry repeats gives the map's binding.
proof fn lemma_frame_map_found(entries: Seq<(String, Value)>, i: int)
    requires
        0 <= i < entries.len(),
        forall|j: int| i < j < entries.len() ==> (#[trigger] entries[j]).0@ != entries[i].0@,
    ensures
        frame_map(entries).contains_key(entries[i].0@),
        frame_map(entries)[entries[i].0@] == entries[i].1@,
    decreases entries.len(),
{
    if i < entries.len() - 1 {
        let pre = entries.drop_last();
        assert(forall|j: int| 0 <= j < pre.len() ==> pre[j] == entries[j]);
        lemma_frame_map_found(pre, i);
    }
}

/// A name no entry carries is not in the map.
proof fn lemma_frame_map_absent(entries: Seq<(String, Value)>, k: Seq<char>)
    requires
        forall|j: int| 0 <= j < entries.len() ==> (#[trigger] entries[j]).0@ != k,
    ensures
        !frame_map(entries).contains_key(k),
    decreases entries.len(),
{
    if entries.len() > 0 {
        let pre = entries.drop_last();
        assert(forall|j: int| 0 <= j < pre.len() ==> pre[j] == entries[j]);
        lemma_frame_map_absent(pre, k);
    }
}

/// The entry whose name no later entry repeats gives the registry's binding.
proof fn lemma_funcs_map_found(entries: Seq<(String, FunctionDef)>, i: int)
    requires
        0 <= i < entries.len(),
        forall|j: int| i < j < entries.len() ==> (#[trigger] entries[j]).0@ != entries[i].0@,
    ensures
        funcs_map(entries).contains_key(entries[i].0@),
        funcs_map(entries)[entries[i].0@] == entries[i].1@,
    decreases entries.len(),
{
    if i < entries.len() - 1 {
        let pre = entries.drop_last();
        assert(forall|j: int| 0 <= j < pre.len() ==> pre[j] == entries[j]);
        lemma_funcs_map_found(pre, i);
    }
}

/// A name no entry carries is not in the registry.
proof fn lemma_funcs_map_absent(entries: Seq<(String, FunctionDef)>, k: Seq<char>)
    requires
        forall|j: int| 0 <= j < entries.len() ==> (#[trigger] entries[j]).0@ != k,
    ensures
        !funcs_map(entries).contains_key(k),
    decreases entries.len(),
{
    if entries.len() > 0 {
        let pre = entries.drop_last();
        assert(forall|j: int| 0 <= j < pre.len() ==> pre[j] == entries[j]);
        lemma_funcs_map_absent(pre, k);
    }
}

/// The value bound to `name` in a scope frame, scanning from the newest
/// entry.
fn frame_get(frame: &Vec<(String, Value)>, name: &str) -> (r: Option<Value>)
    ensures
        match r {
            Some(v) => frame_map(frame@).contains_key(name@) && v@ == frame_map(frame@)[name@],
            None => !frame_map(frame@).contains_key(name@),
        },
{
    let mut i: usize = frame.len();
    while i > 0
        invariant
            i <= frame@.len(),
            forall|j: int| i <= j < frame@.len() ==> (#[trigger] frame@[j]).0@ != name@,
        decreases i,
    {
        i -= 1;
        if str_eq(frame[i].0.as_str(), name) {
            proof {
                lemma_frame_map_found(frame@, i as int);
            }
            return Some(frame[i].1.duplicate());
        }
    }
    proof {
        lemma_frame_map_absent(frame@, name@);
    }
    None
}

/// The declared function `name` names, scanning from the newest
/// declaration.
fn funcs_get(functions: &Vec<(String, FunctionDef)>, name: &str) -> (r: Option<FunctionDef>)
    ensures
        match r {
            Some(f) => funcs_map(functions@).contains_key(name@)
                && f@ == funcs_map(functions@)[name@],
            None => !funcs_map(functions@).contains_key(name@),
        },
{
    let mut i: usize = functions.len();
    while i > 0
        invariant
            i <= functions@.len(),
            forall|j: int| i <= j < functions@.len() ==> (#[trigger] functions@[j]).0@ != name@,
        decreases i,
    {
        i -= 1;
        if str_eq(functions[i].0.as_str(), name) {
            proof {
                lemma_funcs_map_found(functions@, i as int);
            }
            return Some(functions[i].1.duplicate());
        }
    }
    proof {
        lemma_funcs_map_absent(functions@, name@);
    }
    None
}

impl EvalEnv {
    /// Evaluates one expression for its value; effects (printing, function
    /// declarations inside calls) persist in the state.
    fn evaluate_expression(&mut self, expr: &Expression, fuel: u64) -> (r: Result<Value, EvalError>)
        requires
            old(self).wf(),
        ensures
            final(self).wf(),
            r is Ok ==> final(self).variable_stack@.len() == old(self).variable_stack@.len(),
            ({
                let t = eval_expr(old(self)@, expr@, fuel as nat);
                final(self)@ == t.0 && (match r {
                    Ok(v) => t.1 == Ok::<ValView, EvalErrView>(v@),
                    Err(er) => t.1 == Err::<ValView, EvalErrView>(er@),
                })
            }),
        decreases fuel, expr_size(expr@), 2int,
    {
        match &expr.expression_type {
            ExpressionType::Literal(literal) => Ok(crate::value::literal_value(literal.clone())),
            ExpressionType::Variable(variable) => {
                let idx = self.variable_stack.len() - 1;
                proof {
                    assert(self@.frames.last() == frame_map(self.variable_stack@[idx as int]@));
                }
                match frame_get(&self.variable_stack[idx], variable.as_str()) {
                    Some(v) => Ok(v),
                    None => Err(EvalError::UndefinedVariable(variable.clone())),
                }
            },
            ExpressionType::Binary(left, operator, right) => {
                let left_val = match self.evaluate_expression(left, fuel) {
                    Ok(v) => v,
                    Err(e) => {
                        return Err(e);
                    },
                };
                let right_val = match self.evaluate_expression(right, fuel) {
                    Ok(v) => v,
                    Err(e) => {
                        return Err(e);
                    },
                };
                crate::value::apply_binop(operator.token_type, left_val, right_val)
            },
            ExpressionType::Unary(_, _) => Err(EvalError::UnsupportedExpression),
            ExpressionType::FunctionCall(name, args) => {
                match funcs_get(&self.functions, name.as_str()) {
                    Some(f) => self.evaluate_function_call(f, args, fuel),
                    None => Err(EvalError::UndefinedFunction(name.clone())),
                }
            },
        }
    }

    /// Dispatches one function call: checks the depth budget, builds the
    /// callee frame from the zipped arguments, runs the body (a top-level
    /// `Return` replaces the pending result without stopping the body), and
    /// pops the frame.
    fn evaluate_function_call(
        &mut self,
        f: FunctionDef,
        args: &Vec<Expression>,
        fuel: u64,
    ) -> (r: Result<Value, EvalError>)
        requires
            old(self).wf(),
        ensures
            final(self).wf(),
            r is Ok ==> final(self).variable_stack@.len() == old(self).variable_stack@.len(),
            ({
                let t = eval_call(old(self)@, f@, exprs_view(args@), fuel as nat);
                final(self)@ == t.0 && (match r {
                    Ok(v) => t.1 == Ok::<ValView, EvalErrView>(v@),
                    Err(er) => t.1 == Err::<ValView, EvalErrView>(er@),
                })
            }),
        decreases fuel, 1 + exprs_size(exprs_view(args@)), 0int,
    {
        if fuel == 0 {
            return Err(EvalError::RecursionLimit);
        }
        let ghost env0 = self@;
        let ghost argsv = exprs_view(args@);
        let ghost paramsv = names_view(f.params@);
        proof {
            lemma_exprs_view_index(args@);
        }
        let n = if f.params.len() < args.len() {
            f.params.len()
        } else {
            args.len()
        };
        let mut frame: Vec<(String, Value)> = Vec::new();
        let mut i: usize = 0;
        proof {
            assert(argsv.subrange(0, argsv.len() as int) =~= argsv);
            assert(paramsv.subrange(0, paramsv.len() as int) =~= paramsv);
            assert(frame_map(frame@) =~= Map::<Seq<char>, ValView>::empty());
        }
        while i < n
            invariant
                self.wf(),
                env0 == old(self)@,
                self.variable_stack@.len() == old(self).variable_stack@.len(),
                i <= n,
                n <= args@.len(),
                n <= f.params@.len(),
                n == args@.len() || n == f.params@.len(),
                argsv == exprs_view(args@),
                argsv.len() == args@.len(),
                paramsv == names_view(f.params@),
                paramsv.len() == f.params@.len(),
                forall|k: int| 0 <= k < args@.len() ==> argsv[k] == args@[k]@,
                fuel >= 1,
                eval_args(env0, argsv, paramsv, Map::empty(), fuel as nat) == eval_args(
                    self@,
                    argsv.subrange(i as int, argsv.len() as int),
                    paramsv.subrange(i as int, paramsv.len() as int),
                    frame_map(frame@),
                    fuel as nat,
                ),
            decreases n - i,
        {
            proof {
                lemma_exprs_size_elem(argsv, i as int);
                assert(argsv.subrange(i as int, argsv.len() as int)[0] == argsv[i as int]);
            }
            let value = match self.evaluate_expression(&args[i], fuel) {
                Ok(v) => v,
                Err(e) => {
                    return Err(e);
                },
            };
            let ghost pre_frame = frame@;
            let param_name = {
                let params: &Vec<String> = &f.params;
                params[i].clone()
            };
            frame.push((param_name, value));
            proof {
                lemma_frame_map_push(pre_frame, param_name, value);
                assert(paramsv[i as int] == param_name@);
                assert(argsv.subrange(i as int, argsv.len() as int).subrange(
                    1,
                    argsv.len() - i as int,
                ) =~= argsv.subrange(i as int + 1, argsv.len() as int));
                assert(paramsv.subrange(i as int, paramsv.len() as int).subrange(
                    1,
                    paramsv.len() - i as int,
                ) =~= paramsv.subrange(i as int + 1, paramsv.len() as int));
                assert(paramsv.subrange(i as int, paramsv.len() as int)[0] == paramsv[i as int]);
            }
            i += 1;
        }
        proof {
            assert(argsv.subrange(n as int, argsv.len() as int).len() == 0 || paramsv.subrange(
                n as int,
                paramsv.len() as int,
            ).len() == 0);
        }
        let ghost env1 = self@;
        let ghost framev = frame_map(frame@);
        proof {
            assert(eval_args(env0, argsv, paramsv, Map::empty(), fuel as nat) == (
                env1,
                Ok::<Map<Seq<char>, ValView>, EvalErrView>(framev),
            ));
        }
        self.variable_stack.push(frame);
        proof {
            assert(self@.frames =~= env1.frames.push(framev));
            assert(self@ == (EnvView {
                frames: env1.frames.push(framev),
                funcs: env1.funcs,
                output: env1.output,
            }));
        }
        let ghost env2 = self@;
        let ghost bodyv = stmts_view(f.body@);
        proof {
            lemma_stmts_view_index(f.body@);
        }
        let mut return_value = Value::new(ValueType::Integer(0));
        let body: &Vec<Statement> = &f.body;
        let m = body.len();
        let mut j: usize = 0;
        proof {
            assert(bodyv.subrange(0, bodyv.len() as int) =~= bodyv);
        }
        while j < m
            invariant
                self.wf(),
                env0 == old(self)@,
                argsv == exprs_view(args@),
                paramsv == f@.params,
                bodyv == f@.body,
                fuel >= 1,
                eval_args(env0, argsv, paramsv, Map::empty(), fuel as nat) == (
                    env1,
                    Ok::<Map<Seq<char>, ValView>, EvalErrView>(framev),
                ),
                env2 == (EnvView {
                    frames: env1.frames.push(framev),
                    funcs: env1.funcs,
                    output: env1.output,
                }),
                self.variable_stack@.len() == old(self).variable_stack@.len() + 1,
                j <= m,
                m == f.body@.len(),
                bodyv == stmts_view(f.body@),
                bodyv.len() == m,
                forall|k: int| 0 <= k < m ==> bodyv[k] == f.body@[k]@,
                fuel >= 1,
                eval_body(env2, bodyv, ValView::Int(0), (fuel - 1) as nat) == eval_body(
                    self@,
                    bodyv.subrange(j as int, m as int),
                    return_value@,
                    (fuel - 1) as nat,
                ),
            decreases m - j,
        {
            proof {
                lemma_stmts_size_elem(bodyv, j as int);
                assert(bodyv.subrange(j as int, m as int)[0] == bodyv[j as int]);
            }
            let body_ref: &Vec<Statement> = &f.body;
            match &body_ref[j].statement_type {
                StatementType::Return(oe) => {
                    match oe {
                        Some(e) => {
                            match self.evaluate_expression(e, fuel - 1) {
                                Ok(v) => {
                                    return_value = v;
                                },
                                Err(er) => {
                                    return Err(er);
                                },
                            }
                        },
                        None => {
                            return_value = Value::new(ValueType::Integer(0));
                        },
                    }
                },
                _ => {
                    match self.evaluate_statement(&body_ref[j], fuel - 1) {
                        Ok(_) => {},
                        Err(er) => {
                            return Err(er);
                        },
                    }
                },
            }
            proof {
                assert(bodyv.subrange(j as int, m as int).subrange(1, m - j as int)
                    =~= bodyv.subrange(j as int + 1, m as int));
            }
            j += 1;
        }
        proof {
            assert(bodyv.subrange(m as int, m as int).len() == 0);
        }
        let ghost env3 = self@;
        let _ = self.variable_stack.pop();
        proof {
            assert(self@.frames =~= env3.frames.drop_last());
            assert(self@ == (EnvView {
                frames: env3.frames.drop_last(),
                funcs: env3.funcs,
                output: env3.output,
            }));
        }
        Ok(return_value)
    }

    /// Executes the statements of a conditional body in order, in the
    /// current scope.
    fn evaluate_statements(&mut self, statements: &Vec<Statement>, fuel: u64) -> (r: Result<
        (),
        EvalError,
    >)
        requires
            old(self).wf(),
        ensures
            final(self).wf(),
            r is Ok ==> final(self).variable_stack@.len() == old(self).variable_stack@.len(),
            ({
                let t = eval_stmts(old(self)@, stmts_view(statements@), fuel as nat);
                final(self)@ == t.0 && (match r {
                    Ok(_) => t.1 is Ok,
                    Err(er) => t.1 == Err::<(), EvalErrView>(er@),
                })
            }),
        decreases fuel, stmts_size(stmts_view(statements@)), 4int,
    {
        let ghost env0 = self@;
        let ghost ssv = stmts_view(statements@);
        proof {
            lemma_stmts_view_index(statements@);
            assert(ssv.subrange(0, ssv.len() as int) =~= ssv);
        }
        let n = statements.len();
        let mut i: usize = 0;
        while i < n
            invariant
                self.wf(),
                env0 == old(self)@,
                self.variable_stack@.len() == old(self).variable_stack@.len(),
                i <= n,
                n == statements@.len(),
                ssv == stmts_view(statements@),
                ssv.len() == n,
                forall|k: int| 0 <= k < n ==> ssv[k] == statements@[k]@,
                eval_stmts(env0, ssv, fuel as nat) == eval_stmts(
                    self@,
                    ssv.subrange(i as int, n as int),
                    fuel as nat,
                ),
            decreases n - i,
        {
            proof {
                lemma_stmts_size_elem(ssv, i as int);
                assert(ssv.subrange(i as int, n as int)[0] == ssv[i as int]);
            }
            match self.evaluate_statement(&statements[i], fuel) {
                Ok(_) => {},
                Err(e) => {
                    return Err(e);
                },
            }
            proof {
                assert(ssv.subrange(i as int, n as int).subrange(1, n - i as int) =~= ssv.subrange(
                    i as int + 1,
                    n as int,
                ));
            }
            i += 1;
        }
        proof {
            assert(ssv.subrange(n as int, n as int).len() == 0);
        }
        Ok(())
    }

    /// Executes one statement for effect.
    fn evaluate_statement(&mut self, statement: &Statement, fuel: u64) -> (r: Result<
        (),
        EvalError,
    >)
        requires
            old(self).wf(),
        ensures
            final(self).wf(),
            r is Ok ==> final(self).variable_stack@.len() == old(self).variable_stack@.len(),
            ({
                let t = eval_stmt(old(self)@, statement@, fuel as nat);
                final(self)@ == t.0 && (match r {
                    Ok(_) => t.1 is Ok,
                    Err(er) => t.1 == Err::<(), EvalErrView>(er@),
                })
            }),
        decreases fuel, stmt_size(statement@), 3int,
    {
        match &statement.statement_type {
            StatementType::Declaration(declaration) => {
                let value = match self.evaluate_expression(&declaration.value, fuel) {
                    Ok(v) => v,
                    Err(e) => {
                        return Err(e);
                    },
                };
                self.bind_in_top_frame(declaration.identif.clone(), value);
                Ok(())
            },
            StatementType::Assignment(assignment) => {
                let value = match self.evaluate_expression(&assignment.value, fuel) {
                    Ok(v) => v,
                    Err(e) => {
                        return Err(e);
                    },
                };
                self.bind_in_top_frame(assignment.identif.clone(), value);
                Ok(())
            },
            StatementType::Print(expr) => {
                let value = match self.evaluate_expression(expr, fuel) {
                    Ok(v) => v,
                    Err(e) => {
                        return Err(e);
                    },
                };
                let ghost env1 = self@;
                let line = value.render();
                self.output.push(line);
                proof {
                    assert(self@.output =~= env1.output.push(render_val(value@)));
                    assert(self@.frames =~= env1.frames);
                    assert(self@ == (EnvView {
                        frames: env1.frames,
                        funcs: env1.funcs,
                        output: env1.output.push(render_val(value@)),
                    }));
                }
                Ok(())
            },
            StatementType::FunctionDeclaration(name, params, body) => {
                let ghost env1 = self@;
                let def = FunctionDef { params: params.clone(), body: body.clone() };
                let entry_name = name.clone();
                let ghost pre = self.functions@;
                self.functions.push((entry_name, def));
                proof {
                    lemma_funcs_map_push(pre, entry_name, def);
                    assert(self@.frames =~= env1.frames);
                    assert(self@.output =~= env1.output);
                    assert(self@ == (EnvView {
                        frames: env1.frames,
                        funcs: env1.funcs.insert(name@, FuncView {
                            params: names_view(params@),
                            body: stmts_view(body@),
                        }),
                        output: env1.output,
                    }));
                }
                Ok(())
            },
            StatementType::Return(_) => Ok(()),
            StatementType::IfBlock(expr, body) => {
                let value = match self.evaluate_expression(expr, fuel) {
                    Ok(v) => v,
                    Err(e) => {
                        return Err(e);
                    },
                };
                if value.into_bool() {
                    self.evaluate_statements(body, fuel)
                } else {
                    Ok(())
                }
            },
            StatementType::IfElseBlock(expr, if_body, else_body) => {
                let value = match self.evaluate_expression(expr, fuel) {
                    Ok(v) => v,
                    Err(e) => {
                        return Err(e);
                    },
                };
                if value.into_bool() {
                    self.evaluate_statements(if_body, fuel)
                } else {
                    self.evaluate_statements(else_body, fuel)
                }
            },
            StatementType::FunctionCall(name, args) => {
                match funcs_get(&self.functions, name.as_str()) {
                    Some(f) => {
                        match self.evaluate_function_call(f, args, fuel) {
                            Ok(_) => Ok(()),
                            Err(e) => Err(e),
                        }
                    },
                    None => Err(EvalError::UndefinedFunction(name.clone())),
                }
            },
        }
    }

    /// Inserts or overwrites a binding in the innermost scope frame.
    fn bind_in_top_frame(&mut self, name: String, value: Value)
        requires
            old(self).wf(),
        ensures
            final(self).wf(),
            final(self).variable_stack@.len() == old(self).variable_stack@.len(),
            final(self)@ == env_set_var(old(self)@, name@, value@),
    {
        let idx = self.variable_stack.len() - 1;
        let ghost env0 = self@;
        let ghost pre = self.variable_stack@[idx as int]@;
        let frame = &mut self.variable_stack[idx];
        frame.push((name, value));
        proof {
            lemma_frame_map_push(pre, name, value);
            assert(env0.frames.last() == frame_map(pre));
            assert(self@.frames =~= env0.frames.update(
                env0.frames.len() - 1,
                frame_map(pre).insert(name@, value@),
            ));
            assert(self@.output =~= env0.output);
            assert(self@ == env_set_var(env0, name@, value@));
        }
    }
}


/// The evaluator: the program being run and the mutable state of the run.
#[derive(Debug)]
pub struct Evaluator {
    pub program: Program,
    pub env: EvalEnv,
}

impl Evaluator {
    /// A fresh evaluator for one program run: a single empty global scope
    /// frame, no declared functions, nothing printed yet.
    pub fn new(program: Program) -> (e: Evaluator)
        ensures
            e.program == program,
            e.env.wf(),
            e.env@ == (EnvView {
                frames: seq![Map::<Seq<char>, ValView>::empty()],
                funcs: Map::<Seq<char>, FuncView>::empty(),
                output: Seq::<Seq<char>>::empty(),
            }),
    {
        let mut variable_stack: Vec<Vec<(String, Value)>> = Vec::new();
        variable_stack.push(Vec::new());
        let env = EvalEnv { variable_stack, functions: Vec::new(), output: Vec::new() };
        proof {
            assert(env@.frames =~= seq![Map::<Seq<char>, ValView>::empty()]);
            assert(env@.output =~= Seq::<Seq<char>>::empty());
            assert(env@ == (EnvView {
                frames: seq![Map::<Seq<char>, ValView>::empty()],
                funcs: Map::<Seq<char>, FuncView>::empty(),
                output: Seq::<Seq<char>>::empty(),
            }));
        }
        Evaluator { program, env }
    }

    /// Runs the program's statements in order against the current state,
    /// with the call-depth budget, stopping at the first runtime error.
    /// The output lines printed so far stand in `env` either way.
    pub fn evaluate(&mut self) -> (r: Result<(), EvalError>)
        requires
            old(self).env.wf(),
        ensures
            final(self).program == old(self).program,
            final(self).env.wf(),
            ({
                let t = eval_stmts(old(self).env@, old(self).program@, CALL_DEPTH_LIMIT as nat);
                final(self).env@ == t.0 && (match r {
                    Ok(_) => t.1 is Ok,
                    Err(er) => t.1 == Err::<(), EvalErrView>(er@),
                })
            }),
    {
        let ghost env0 = self.env@;
        let ghost progv = stmts_view(self.program.statements@);
        proof {
            lemma_stmts_view_index(self.program.statements@);
            assert(progv.subrange(0, progv.len() as int) =~= progv);
        }
        let n = self.program.statements.len();
        let mut i: usize = 0;
        while i < n
            invariant
                self.env.wf(),
                self.program == old(self).program,
                env0 == old(self).env@,
                i <= n,
                n == self.program.statements@.len(),
                progv == stmts_view(self.program.statements@),
                progv.len() == n,
                forall|k: int| 0 <= k < n ==> progv[k] == self.program.statements@[k]@,
                eval_stmts(env0, progv, CALL_DEPTH_LIMIT as nat) == eval_stmts(
                    self.env@,
                    progv.subrange(i as int, n as int),
                    CALL_DEPTH_LIMIT as nat,
                ),
            decreases n - i,
        {
            proof {
                assert(progv.subrange(i as int, n as int)[0] == progv[i as int]);
            }
            match self.env.evaluate_statement(&self.program.statements[i], CALL_DEPTH_LIMIT) {
                Ok(_) => {},
                Err(e) => {
                    return Err(e);
                },
            }
            proof {
                assert(progv.subrange(i as int, n as int).subrange(1, n - i as int)
                    =~= progv.subrange(i as int + 1, n as int));
            }
            i += 1;
        }
        proof {
            assert(progv.subrange(n as int, n as int).len() == 0);
        }
        Ok(())
    }

    /// The lines printed so far, in order.
    pub fn output_lines(&self) -> (lines: &Vec<String>)
        ensures
            lines@.len() == self.env@.output.len(),
            forall|i: int| 0 <= i < lines@.len() ==> lines@[i]@ == self.env@.output[i],
    {
        &self.env.output
    }
}


} // verus!
