//! The runtime: walks statements, keeps an environment of variables,
//! constants and functions, and produces the observable output as a
//! sequence of events.
//!
//! `spec_interpret` is the mathematical model of the whole run; the
//! executable `Runtime` is proved to produce exactly the events the
//! model says.  User function calls evaluate arguments left to right
//! in the caller's environment and run the body in a child environment
//! that sees only the function table (no closures).  Call depth is
//! bounded by `MAX_CALL_DEPTH`; exceeding it is a runtime error.

use vstd::prelude::*;
use vstd::hash_map::StringHashMap;
use crate::token::{Literal, TokenType, TokenKindView, ValueView};
use crate::ast::{Expression, Statement, ExprView, StmtView};
use crate::ast::{expr_view, exprs_view, stmt_view, stmts_view, expr_size, exprs_size, stmt_size, stmts_size};
use crate::ast::{lemma_exprs_view_index, lemma_exprs_view_len, lemma_stmts_view_index, lemma_stmts_view_len};
use crate::values::RuntimeValue;
use crate::num::{spec_num_eq, spec_num_le, spec_num_lt, spec_num_neg};
use crate::num::{add_bits, sub_bits, mul_bits, div_bits};
use crate::num::{num_add, num_sub, num_mul, num_div, num_neg, num_eq, num_le, num_lt, num_ge, num_gt};

verus! {

/// The deepest chain of nested user-function calls the runtime will
/// follow before reporting a runtime error.
pub const MAX_CALL_DEPTH: u32 = 64;

/// Why evaluation of a statement failed.
#[derive(Debug, PartialEq)]
pub enum RuntimeError {
    /// A `let`/`const` name collides with an existing binding.
    AlreadyDeclared(String),
    /// A call targets an unknown function name.
    UndefinedFunction(String),
    /// Unary minus applied to a non-number.
    BadUnary,
    /// Arithmetic on a pair that is not two numbers.
    BadBinary,
    /// A comparison on an operand pair outside the comparison matrix.
    BadComparison,
    /// A `return` statement at the top level.
    ReturnOutsideFunction,
    /// More than `MAX_CALL_DEPTH` nested calls.
    CallDepthExceeded,
}

/// The mathematical view of a `RuntimeError`.
pub enum RuntimeErrorView {
    AlreadyDeclared(Seq<char>),
    UndefinedFunction(Seq<char>),
    BadUnary,
    BadBinary,
    BadComparison,
    ReturnOutsideFunction,
    CallDepthExceeded,
}

impl View for RuntimeError {
    type V = RuntimeErrorView;

    open spec fn view(&self) -> RuntimeErrorView {
        match self {
            RuntimeError::AlreadyDeclared(n) => RuntimeErrorView::AlreadyDeclared(n@),
            RuntimeError::UndefinedFunction(n) => RuntimeErrorView::UndefinedFunction(n@),
            RuntimeError::BadUnary => RuntimeErrorView::BadUnary,
            RuntimeError::BadBinary => RuntimeErrorView::BadBinary,
            RuntimeError::BadComparison => RuntimeErrorView::BadComparison,
            RuntimeError::ReturnOutsideFunction => RuntimeErrorView::ReturnOutsideFunction,
            RuntimeError::CallDepthExceeded => RuntimeErrorView::CallDepthExceeded,
        }
    }
}

/// One observable output line of a run.
#[derive(Debug, PartialEq)]
pub enum OutputEvent {
    /// The value of an expression statement.
    Value(RuntimeValue),
    /// A variable came into being.
    Created { name: String, value: RuntimeValue },
    /// A function came into being.
    CreatedFunction { name: String, params: Vec<String> },
    /// A function was called with these argument values.
    FunctionCalled { name: String, args: Vec<RuntimeValue> },
    /// A function returned this value.
    FunctionReturned { name: String, value: RuntimeValue },
    /// A statement failed; the run continues.
    Error(RuntimeError),
}

/// The mathematical view of an `OutputEvent`.
pub enum EventView {
    Value(ValueView),
    Created { name: Seq<char>, value: ValueView },
    CreatedFunction { name: Seq<char>, params: Seq<Seq<char>> },
    FunctionCalled { name: Seq<char>, args: Seq<ValueView> },
    FunctionReturned { name: Seq<char>, value: ValueView },
    Error(RuntimeErrorView),
}

impl View for OutputEvent {
    type V = EventView;

    open spec fn view(&self) -> EventView {
        match self {
            OutputEvent::Value(v) => EventView::Value(v@),
            OutputEvent::Created { name, value } => EventView::Created {
                name: name@,
                value: value@,
            },
            OutputEvent::CreatedFunction { name, params } => EventView::CreatedFunction {
                name: name@,
                params: params@.map_values(|s: String| s@),
            },
            OutputEvent::FunctionCalled { name, args } => EventView::FunctionCalled {
                name: name@,
                args: args@.map_values(|v: RuntimeValue| v@),
            },
            OutputEvent::FunctionReturned { name, value } => EventView::FunctionReturned {
                name: name@,
                value: value@,
            },
            OutputEvent::Error(e) => EventView::Error(e@),
        }
    }
}

/// The views of a sequence of events.
pub open spec fn events_view(s: Seq<OutputEvent>) -> Seq<EventView> {
    s.map_values(|e: OutputEvent| e@)
}

/// The views of a sequence of values.
pub open spec fn values_view(s: Seq<RuntimeValue>) -> Seq<ValueView> {
    s.map_values(|v: RuntimeValue| v@)
}

/// A stored function: its parameter names and its body.
#[derive(Debug, PartialEq)]
pub struct FunctionDef {
    pub params: Vec<String>,
    pub body: Vec<Statement>,
}

/// The mathematical view of a stored function.
pub struct FunView {
    pub params: Seq<Seq<char>>,
    pub body: Seq<StmtView>,
}

impl View for FunctionDef {
    type V = FunView;

    open spec fn view(&self) -> FunView {
        FunView { params: self.params@.map_values(|s: String| s@), body: stmts_view(self.body@) }
    }
}

/// The variables of an environment, as a mathematical map.
pub open spec fn vmap(m: Map<Seq<char>, RuntimeValue>) -> Map<Seq<char>, ValueView> {
    m.map_values(|v: RuntimeValue| v@)
}

/// The functions of an environment, as a mathematical map.
pub open spec fn fmap(m: Map<Seq<char>, FunctionDef>) -> Map<Seq<char>, FunView> {
    m.map_values(|f: FunctionDef| f@)
}

/// No statement of a function body is itself a function declaration.
pub open spec fn body_wf(b: Seq<StmtView>) -> bool {
    forall|j: int| 0 <= j < b.len() ==> !(#[trigger] b[j] is FunctionDeclaration)
}

/// A statement is well formed when any function body it declares
/// contains no nested function declaration (as the parser guarantees).
pub open spec fn stmt_wf(s: StmtView) -> bool {
    match s {
        StmtView::FunctionDeclaration { name, params, body } => body_wf(body),
        _ => true,
    }
}

/// All statements are well formed.
pub open spec fn stmts_wf(ss: Seq<StmtView>) -> bool {
    forall|i: int| 0 <= i < ss.len() ==> stmt_wf(#[trigger] ss[i])
}

/// Every stored function has a well-formed body.
pub open spec fn funcs_wf(fm: Map<Seq<char>, FunView>) -> bool {
    forall|k: Seq<char>| fm.contains_key(k) ==> body_wf((#[trigger] fm[k]).body)
}

/// Lexicographic order on character sequences (which for UTF-8 text
/// coincides with byte order).
pub open spec fn spec_str_lt(a: Seq<char>, b: Seq<char>) -> bool
    decreases a.len() + b.len(),
{
    if b.len() == 0 {
        false
    } else if a.len() == 0 {
        true
    } else if (a[0] as int) < (b[0] as int) {
        true
    } else if (a[0] as int) > (b[0] as int) {
        false
    } else {
        spec_str_lt(a.drop_first(), b.drop_first())
    }
}

/// The comparison matrix: first by the pair of operand kinds, then by
/// operator.  `!=`/`!==` negate `==`/`===` within the same row.
pub open spec fn spec_compare(a: ValueView, b: ValueView, op: TokenKindView) -> Result<
    bool,
    RuntimeErrorView,
> {
    match (a, b) {
        (ValueView::Number(x), ValueView::Number(y)) => match op {
            TokenKindView::Equal => Ok(spec_num_eq(x, y)),
            TokenKindView::StrictEqual => Ok(spec_num_eq(x, y)),
            TokenKindView::NotEqual => Ok(!spec_num_eq(x, y)),
            TokenKindView::StrictNotEqual => Ok(!spec_num_eq(x, y)),
            TokenKindView::GreaterThan => Ok(spec_num_lt(y, x)),
            TokenKindView::GreaterThanOrEqual => Ok(spec_num_le(y, x)),
            TokenKindView::LessThan => Ok(spec_num_lt(x, y)),
            TokenKindView::LessThanOrEqual => Ok(spec_num_le(x, y)),
            _ => Err(RuntimeErrorView::BadComparison),
        },
        (ValueView::Boolean(x), ValueView::Boolean(y)) => match op {
            TokenKindView::Equal => Ok(x == y),
            TokenKindView::StrictEqual => Ok(x == y),
            TokenKindView::NotEqual => Ok(x != y),
            TokenKindView::StrictNotEqual => Ok(x != y),
            TokenKindView::GreaterThan => Ok(x && !y),
            TokenKindView::GreaterThanOrEqual => Ok(x || !y),
            TokenKindView::LessThan => Ok(!x && y),
            TokenKindView::LessThanOrEqual => Ok(!x || y),
            _ => Err(RuntimeErrorView::BadComparison),
        },
        (ValueView::String(x), ValueView::String(y)) => match op {
            TokenKindView::Equal => Ok(x == y),
            TokenKindView::StrictEqual => Ok(x == y),
            TokenKindView::NotEqual => Ok(x != y),
            TokenKindView::StrictNotEqual => Ok(x != y),
            TokenKindView::GreaterThan => Ok(spec_str_lt(y, x)),
            TokenKindView::GreaterThanOrEqual => Ok(!spec_str_lt(x, y)),
            TokenKindView::LessThan => Ok(spec_str_lt(x, y)),
            TokenKindView::LessThanOrEqual => Ok(!spec_str_lt(y, x)),
            _ => Err(RuntimeErrorView::BadComparison),
        },
        (ValueView::Null, ValueView::Null) => match op {
            TokenKindView::Equal => Ok(true),
            TokenKindView::StrictEqual => Ok(true),
            TokenKindView::NotEqual => Ok(false),
            TokenKindView::StrictNotEqual => Ok(false),
            TokenKindView::GreaterThan => Ok(false),
            TokenKindView::GreaterThanOrEqual => Ok(true),
            TokenKindView::LessThan => Ok(false),
            TokenKindView::LessThanOrEqual => Ok(true),
            _ => Err(RuntimeErrorView::BadComparison),
        },
        (ValueView::Undefined, ValueView::Undefined) => match op {
            TokenKindView::Equal => Ok(true),
            TokenKindView::StrictEqual => Ok(true),
            TokenKindView::NotEqual => Ok(false),
            TokenKindView::StrictNotEqual => Ok(false),
            TokenKindView::GreaterThan => Ok(false),
            TokenKindView::GreaterThanOrEqual => Ok(false),
            TokenKindView::LessThan => Ok(false),
            TokenKindView::LessThanOrEqual => Ok(false),
            _ => Err(RuntimeErrorView::BadComparison),
        },
        (ValueView::Null, ValueView::Undefined) => spec_compare_null_undefined(op),
        (ValueView::Undefined, ValueView::Null) => spec_compare_null_undefined(op),
        _ => Err(RuntimeErrorView::BadComparison),
    }
}

/// The null-against-undefined row: loosely equal, strictly unequal,
/// never ordered.
pub open spec fn spec_compare_null_undefined(op: TokenKindView) -> Result<
    bool,
    RuntimeErrorView,
> {
    match op {
        TokenKindView::Equal => Ok(true),
        TokenKindView::StrictEqual => Ok(false),
        TokenKindView::NotEqual => Ok(false),
        TokenKindView::StrictNotEqual => Ok(true),
        TokenKindView::GreaterThan => Ok(false),
        TokenKindView::GreaterThanOrEqual => Ok(false),
        TokenKindView::LessThan => Ok(false),
        TokenKindView::LessThanOrEqual => Ok(false),
        _ => Err(RuntimeErrorView::BadComparison),
    }
}

/// The value of one expression: the result (or the first error) and
/// the events emitted while evaluating it.
pub open spec fn spec_eval_expr(
    vars: Map<Seq<char>, ValueView>,
    funcs: Map<Seq<char>, FunView>,
    e: ExprView,
    fuel: nat,
) -> (Result<ValueView, RuntimeErrorView>, Seq<EventView>)
    decreases fuel, expr_size(e), 0int,
{
    match e {
        ExprView::Literal(v) => (Ok(v), Seq::empty()),
        ExprView::Identifier(n) => (
            Ok(
                if vars.contains_key(n) {
                    vars[n]
                } else {
                    ValueView::Undefined
                },
            ),
            Seq::empty(),
        ),
        ExprView::Grouping { expression } => spec_eval_expr(vars, funcs, *expression, fuel),
        ExprView::Unary { operator, right } => {
            let (r, ev) = spec_eval_expr(vars, funcs, *right, fuel);
            match r {
                Err(er) => (Err(er), ev),
                Ok(v) => match v {
                    ValueView::Number(n) => {
                        if operator == TokenKindView::Minus {
                            (Ok(ValueView::Number(spec_num_neg(n))), ev)
                        } else {
                            (Err(RuntimeErrorView::BadUnary), ev)
                        }
                    },
                    _ => (Err(RuntimeErrorView::BadUnary), ev),
                },
            }
        },
        ExprView::Binary { left, operator, right } => {
            let (lr, lev) = spec_eval_expr(vars, funcs, *left, fuel);
            match lr {
                Err(er) => (Err(er), lev),
                Ok(lv) => {
                    let (rr, rev) = spec_eval_expr(vars, funcs, *right, fuel);
                    match rr {
                        Err(er) => (Err(er), lev + rev),
                        Ok(rv) => (spec_arith(lv, operator, rv), lev + rev),
                    }
                },
            }
        },
        ExprView::Comparison { left, operator, right } => {
            let (lr, lev) = spec_eval_expr(vars, funcs, *left, fuel);
            match lr {
                Err(er) => (Err(er), lev),
                Ok(lv) => {
                    let (rr, rev) = spec_eval_expr(vars, funcs, *right, fuel);
                    match rr {
                        Err(er) => (Err(er), lev + rev),
                        Ok(rv) => match spec_compare(lv, rv, operator) {
                            Ok(b) => (Ok(ValueView::Boolean(b)), lev + rev),
                            Err(er) => (Err(er), lev + rev),
                        },
                    }
                },
            }
        },
        ExprView::Call { callee, args } => spec_call_fn(vars, funcs, callee, args, fuel),
    }
}

/// Arithmetic on two values: defined only on a pair of numbers, with
/// IEEE-754 binary64 semantics through the named `rustc_apfloat`
/// results.
pub open spec fn spec_arith(a: ValueView, op: TokenKindView, b: ValueView) -> Result<
    ValueView,
    RuntimeErrorView,
> {
    match (a, b) {
        (ValueView::Number(x), ValueView::Number(y)) => match op {
            TokenKindView::Plus => Ok(ValueView::Number(add_bits(x, y))),
            TokenKindView::Minus => Ok(ValueView::Number(sub_bits(x, y))),
            TokenKindView::Star => Ok(ValueView::Number(mul_bits(x, y))),
            TokenKindView::Slash => Ok(ValueView::Number(div_bits(x, y))),
            _ => Err(RuntimeErrorView::BadBinary),
        },
        _ => Err(RuntimeErrorView::BadBinary),
    }
}

/// The values of the argument expressions, left to right; stops at the
/// first error.
pub open spec fn spec_eval_args(
    vars: Map<Seq<char>, ValueView>,
    funcs: Map<Seq<char>, FunView>,
    args: Seq<ExprView>,
    fuel: nat,
) -> (Result<Seq<ValueView>, RuntimeErrorView>, Seq<EventView>)
    decreases fuel, exprs_size(args), 0int,
{
    if args.len() == 0 {
        (Ok(Seq::empty()), Seq::empty())
    } else {
        let (r0, ev0) = spec_eval_expr(vars, funcs, args[0], fuel);
        match r0 {
            Err(e) => (Err(e), ev0),
            Ok(v) => {
                let (rr, evr) = spec_eval_args(vars, funcs, args.drop_first(), fuel);
                match rr {
                    Err(e) => (Err(e), ev0 + evr),
                    Ok(vs) => (Ok(seq![v] + vs), ev0 + evr),
                }
            },
        }
    }
}

/// Positional parameter binding: the i-th argument value if present,
/// else undefined; on a repeated name the last binding wins.
pub open spec fn spec_bind(params: Seq<Seq<char>>, vals: Seq<ValueView>) -> Map<
    Seq<char>,
    ValueView,
>
    decreases params.len(),
{
    if params.len() == 0 {
        Map::empty()
    } else {
        spec_bind(params.drop_last(), vals).insert(
            params.last(),
            if params.len() - 1 < vals.len() {
                vals[params.len() - 1]
            } else {
                ValueView::Undefined
            },
        )
    }
}

/// One user-function call: look the name up, evaluate the arguments in
/// the caller's environment, bind positionally, and run the body in a
/// child environment that inherits only the function table.
pub open spec fn spec_call_fn(
    vars: Map<Seq<char>, ValueView>,
    funcs: Map<Seq<char>, FunView>,
    name: Seq<char>,
    args: Seq<ExprView>,
    fuel: nat,
) -> (Result<ValueView, RuntimeErrorView>, Seq<EventView>)
    decreases fuel, exprs_size(args), 1int,
{
    if !funcs.contains_key(name) {
        (Err(RuntimeErrorView::UndefinedFunction(name)), Seq::empty())
    } else {
        let (ar, aev) = spec_eval_args(vars, funcs, args, fuel);
        match ar {
            Err(e) => (Err(e), aev),
            Ok(vals) => {
                let ev1 = aev.push(EventView::FunctionCalled { name, args: vals });
                if fuel == 0 {
                    (Err(RuntimeErrorView::CallDepthExceeded), ev1)
                } else {
                    let child = spec_bind(funcs[name].params, vals);
                    let (br, bev) = spec_exec_body(
                        child,
                        funcs,
                        funcs[name].body,
                        (fuel - 1) as nat,
                    );
                    match br {
                        Err(e) => (Err(e), ev1 + bev),
                        Ok(v) => (
                            Ok(v),
                            (ev1 + bev).push(EventView::FunctionReturned { name, value: v }),
                        ),
                    }
                }
            },
        }
    }
}

/// Runs a function body: the first `return` reached gives the call's
/// value; declarations and expression statements run in order; when no
/// return is reached the value is undefined.
pub open spec fn spec_exec_body(
    vars: Map<Seq<char>, ValueView>,
    funcs: Map<Seq<char>, FunView>,
    body: Seq<StmtView>,
    fuel: nat,
) -> (Result<ValueView, RuntimeErrorView>, Seq<EventView>)
    decreases fuel, stmts_size(body), 2int,
    via spec_exec_body_decreases
{
    if body.len() == 0 {
        (Ok(ValueView::Undefined), Seq::empty())
    } else {
        match body[0] {
            StmtView::Return { expression } => spec_eval_expr(vars, funcs, expression, fuel),
            StmtView::ExpressionStatement { expression } => {
                let (r, ev) = spec_eval_expr(vars, funcs, expression, fuel);
                match r {
                    Err(e) => (Err(e), ev),
                    Ok(v) => {
                        let (rr, evr) = spec_exec_body(vars, funcs, body.drop_first(), fuel);
                        (rr, ev.push(EventView::Value(v)) + evr)
                    },
                }
            },
            StmtView::Declaration { is_const, name, value } => {
                let (r, ev) = match value {
                    Some(e) => spec_eval_expr(vars, funcs, e, fuel),
                    None => (Ok(ValueView::Undefined), Seq::empty()),
                };
                match r {
                    Err(e) => (Err(e), ev),
                    Ok(v) => {
                        if vars.contains_key(name) || funcs.contains_key(name) {
                            (Err(RuntimeErrorView::AlreadyDeclared(name)), ev)
                        } else {
                            let (rr, evr) = spec_exec_body(
                                vars.insert(name, v),
                                funcs,
                                body.drop_first(),
                                fuel,
                            );
                            (rr, ev.push(EventView::Created { name, value: v }) + evr)
                        }
                    },
                }
            },
            StmtView::FunctionDeclaration { name, params, body: b } => (
                Ok(ValueView::Undefined),
                Seq::empty(),
            ),
        }
    }
}

#[via_fn]
proof fn spec_exec_body_decreases(
    vars: Map<Seq<char>, ValueView>,
    funcs: Map<Seq<char>, FunView>,
    body: Seq<StmtView>,
    fuel: nat,
) {
    if body.len() > 0 {
        assert(stmts_size(body) == 1 + stmt_size(body[0]) + stmts_size(body.drop_first()));
        crate::ast::lemma_stmts_size_pos(body.drop_first());
    }
}

/// One top-level statement: the new environment (variables, constants,
/// functions) or the error, and the events emitted.
pub open spec fn spec_eval_statement(
    vars: Map<Seq<char>, ValueView>,
    consts: Set<Seq<char>>,
    funcs: Map<Seq<char>, FunView>,
    s: StmtView,
    fuel: nat,
) -> (
    Result<(Map<Seq<char>, ValueView>, Set<Seq<char>>, Map<Seq<char>, FunView>), RuntimeErrorView>,
    Seq<EventView>,
) {
    match s {
        StmtView::ExpressionStatement { expression } => {
            let (r, ev) = spec_eval_expr(vars, funcs, expression, fuel);
            match r {
                Err(e) => (Err(e), ev),
                Ok(v) => (Ok((vars, consts, funcs)), ev.push(EventView::Value(v))),
            }
        },
        StmtView::Declaration { is_const, name, value } => {
            let (r, ev) = match value {
                Some(e) => spec_eval_expr(vars, funcs, e, fuel),
                None => (Ok(ValueView::Undefined), Seq::empty()),
            };
            match r {
                Err(e) => (Err(e), ev),
                Ok(v) => {
                    if vars.contains_key(name) || funcs.contains_key(name) {
                        (Err(RuntimeErrorView::AlreadyDeclared(name)), ev)
                    } else {
                        let consts2 = if is_const {
                            consts.insert(name)
                        } else {
                            consts
                        };
                        (
                            (Ok((vars.insert(name, v), consts2, funcs))),
                            ev.push(EventView::Created { name, value: v }),
                        )
                    }
                },
            }
        },
        StmtView::FunctionDeclaration { name, params, body } => {
            if vars.contains_key(name) {
                (Err(RuntimeErrorView::AlreadyDeclared(name)), Seq::empty())
            } else {
                (
                    Ok((vars, consts, funcs.insert(name, FunView { params, body }))),
                    seq![EventView::CreatedFunction { name, params }],
                )
            }
        },
        StmtView::Return { expression } => (
            Err(RuntimeErrorView::ReturnOutsideFunction),
            Seq::empty(),
        ),
    }
}

/// Runs top-level statements in order; a statement's error becomes an
/// error event and the run continues with the next statement.
pub open spec fn spec_interpret_from(
    vars: Map<Seq<char>, ValueView>,
    consts: Set<Seq<char>>,
    funcs: Map<Seq<char>, FunView>,
    stmts: Seq<StmtView>,
) -> Seq<EventView>
    decreases stmts.len(),
{
    if stmts.len() == 0 {
        Seq::empty()
    } else {
        let (r, ev) = spec_eval_statement(
            vars,
            consts,
            funcs,
            stmts[0],
            MAX_CALL_DEPTH as nat,
        );
        match r {
            Ok((v2, c2, f2)) => ev + spec_interpret_from(v2, c2, f2, stmts.drop_first()),
            Err(e) => ev.push(EventView::Error(e)) + spec_interpret_from(
                vars,
                consts,
                funcs,
                stmts.drop_first(),
            ),
        }
    }
}

/// The model of a whole run from an empty environment.
pub open spec fn spec_interpret(stmts: Seq<StmtView>) -> Seq<EventView> {
    spec_interpret_from(Map::empty(), Set::empty(), Map::empty(), stmts)
}

/// Running the interpreter is a mathematical function of the program
/// alone: two runs on the same statements produce the same events in
/// the same order.
pub proof fn lemma_interpret_deterministic(s1: Seq<StmtView>, s2: Seq<StmtView>)
    requires
        s1 == s2,
    ensures
        spec_interpret(s1) == spec_interpret(s2),
{
}

/// The code point of a character.
fn char_code(c: char) -> (u: u32)
    ensures
        u == c as int,
{
    let u = c as u32;
    proof {
        assert(u == c as int);
    }
    u
}

/// Whether two strings compare lexicographically below one another.
fn string_lt(a: &String, b: &String) -> (r: bool)
    ensures
        r == spec_str_lt(a@, b@),
{
    let av = crate::tokenizer::chars_of(a.as_str());
    let bv = crate::tokenizer::chars_of(b.as_str());
    let mut i: usize = 0;
    proof {
        assert(a@.subrange(0, a@.len() as int) =~= a@);
        assert(b@.subrange(0, b@.len() as int) =~= b@);
    }
    loop
        invariant
            i <= av.len(),
            i <= bv.len(),
            av@ == a@,
            bv@ == b@,
            spec_str_lt(a@, b@) == spec_str_lt(
                a@.subrange(i as int, a@.len() as int),
                b@.subrange(i as int, b@.len() as int),
            ),
        decreases av.len() - i,
    {
        let ghost sa = a@.subrange(i as int, a@.len() as int);
        let ghost sb = b@.subrange(i as int, b@.len() as int);
        if i >= bv.len() {
            proof {
                assert(sb.len() == 0);
            }
            return false;
        }
        if i >= av.len() {
            proof {
                assert(sa.len() == 0 && sb.len() > 0);
            }
            return true;
        }
        let ca = av[i];
        let cb = bv[i];
        let ua = char_code(ca);
        let ub = char_code(cb);
        proof {
            assert(sa[0] == a@[i as int]);
            assert(sb[0] == b@[i as int]);
        }
        if ua < ub {
            return true;
        }
        if ua > ub {
            return false;
        }
        proof {
            assert(ca == cb);
            assert(sa.drop_first() =~= a@.subrange(i + 1, a@.len() as int));
            assert(sb.drop_first() =~= b@.subrange(i + 1, b@.len() as int));
        }
        i += 1;
    }
}

/// Number-against-number comparison, by operator.
pub fn compare_numbers(a: u64, b: u64, op: &TokenType) -> (r: Result<bool, RuntimeError>)
    ensures
        ({
            let m = spec_compare(ValueView::Number(a), ValueView::Number(b), op@);
            match r {
                Ok(x) => m == Ok::<bool, RuntimeErrorView>(x),
                Err(e) => m == Err::<bool, RuntimeErrorView>(e@),
            }
        }),
{
    match op {
        TokenType::Equal | TokenType::StrictEqual => Ok(num_eq(a, b)),
        TokenType::NotEqual | TokenType::StrictNotEqual => Ok(!num_eq(a, b)),
        TokenType::GreaterThan => Ok(num_gt(a, b)),
        TokenType::GreaterThanOrEqual => Ok(num_ge(a, b)),
        TokenType::LessThan => Ok(num_lt(a, b)),
        TokenType::LessThanOrEqual => Ok(num_le(a, b)),
        _ => Err(RuntimeError::BadComparison),
    }
}

/// Boolean-against-boolean comparison: false orders below true.
pub fn compare_booleans(a: bool, b: bool, op: &TokenType) -> (r: Result<bool, RuntimeError>)
    ensures
        ({
            let m = spec_compare(ValueView::Boolean(a), ValueView::Boolean(b), op@);
            match r {
                Ok(x) => m == Ok::<bool, RuntimeErrorView>(x),
                Err(e) => m == Err::<bool, RuntimeErrorView>(e@),
            }
        }),
{
    match op {
        TokenType::Equal | TokenType::StrictEqual => Ok(a == b),
        TokenType::NotEqual | TokenType::StrictNotEqual => Ok(a != b),
        TokenType::GreaterThan => Ok(a && !b),
        TokenType::GreaterThanOrEqual => Ok(a || !b),
        TokenType::LessThan => Ok(!a && b),
        TokenType::LessThanOrEqual => Ok(!a || b),
        _ => Err(RuntimeError::BadComparison),
    }
}

/// String-against-string comparison: equality, and lexicographic
/// order.
pub fn compare_strings(a: &String, b: &String, op: &TokenType) -> (r: Result<bool, RuntimeError>)
    ensures
        ({
            let m = spec_compare(ValueView::String(a@), ValueView::String(b@), op@);
            match r {
                Ok(x) => m == Ok::<bool, RuntimeErrorView>(x),
                Err(e) => m == Err::<bool, RuntimeErrorView>(e@),
            }
        }),
{
    match op {
        TokenType::Equal | TokenType::StrictEqual => Ok(*a == *b),
        TokenType::NotEqual | TokenType::StrictNotEqual => Ok(!(*a == *b)),
        TokenType::GreaterThan => Ok(string_lt(b, a)),
        TokenType::GreaterThanOrEqual => Ok(!string_lt(a, b)),
        TokenType::LessThan => Ok(string_lt(a, b)),
        TokenType::LessThanOrEqual => Ok(!string_lt(b, a)),
        _ => Err(RuntimeError::BadComparison),
    }
}

/// Null-against-null comparison: equal under both equalities, `<=` and
/// `>=` hold, `<` and `>` do not.
pub fn compare_nulls(op: &TokenType) -> (r: Result<bool, RuntimeError>)
    ensures
        ({
            let m = spec_compare(ValueView::Null, ValueView::Null, op@);
            match r {
                Ok(x) => m == Ok::<bool, RuntimeErrorView>(x),
                Err(e) => m == Err::<bool, RuntimeErrorView>(e@),
            }
        }),
{
    match op {
        TokenType::Equal | TokenType::StrictEqual => Ok(true),
        TokenType::NotEqual | TokenType::StrictNotEqual => Ok(false),
        TokenType::GreaterThanOrEqual | TokenType::LessThanOrEqual => Ok(true),
        TokenType::GreaterThan | TokenType::LessThan => Ok(false),
        _ => Err(RuntimeError::BadComparison),
    }
}

/// Undefined-against-undefined comparison: equal under both
/// equalities, never ordered.
pub fn compare_undefined(op: &TokenType) -> (r: Result<bool, RuntimeError>)
    ensures
        ({
            let m = spec_compare(ValueView::Undefined, ValueView::Undefined, op@);
            match r {
                Ok(x) => m == Ok::<bool, RuntimeErrorView>(x),
                Err(e) => m == Err::<bool, RuntimeErrorView>(e@),
            }
        }),
{
    match op {
        TokenType::Equal | TokenType::StrictEqual => Ok(true),
        TokenType::NotEqual | TokenType::StrictNotEqual => Ok(false),
        TokenType::GreaterThan
        | TokenType::GreaterThanOrEqual
        | TokenType::LessThan
        | TokenType::LessThanOrEqual => Ok(false),
        _ => Err(RuntimeError::BadComparison),
    }
}

/// Null-against-undefined comparison (either order): loosely equal,
/// strictly unequal, never ordered.
pub fn compare_null_undefined(op: &TokenType) -> (r: Result<bool, RuntimeError>)
    ensures
        ({
            let m = spec_compare_null_undefined(op@);
            match r {
                Ok(x) => m == Ok::<bool, RuntimeErrorView>(x),
                Err(e) => m == Err::<bool, RuntimeErrorView>(e@),
            }
        }),
{
    match op {
        TokenType::Equal | TokenType::StrictNotEqual => Ok(true),
        TokenType::NotEqual | TokenType::StrictEqual => Ok(false),
        TokenType::GreaterThan
        | TokenType::GreaterThanOrEqual
        | TokenType::LessThan
        | TokenType::LessThanOrEqual => Ok(false),
        _ => Err(RuntimeError::BadComparison),
    }
}

/// A copy of a vector of values.
fn clone_values(v: &Vec<RuntimeValue>) -> (r: Vec<RuntimeValue>)
    ensures
        values_view(r@) == values_view(v@),
{
    let mut r: Vec<RuntimeValue> = Vec::new();
    let mut i: usize = 0;
    while i < v.len()
        invariant
            i <= v.len(),
            r@.len() == i,
            forall|k: int| 0 <= k < i ==> (#[trigger] r@[k])@ == v@[k]@,
        decreases v.len() - i,
    {
        r.push(v[i].duplicate());
        i += 1;
    }
    proof {
        assert(values_view(r@) =~= values_view(v@));
    }
    r
}

/// A copy of a vector of names.
fn clone_strings(v: &Vec<String>) -> (r: Vec<String>)
    ensures
        r@.map_values(|s: String| s@) == v@.map_values(|s: String| s@),
{
    let mut r: Vec<String> = Vec::new();
    let mut i: usize = 0;
    while i < v.len()
        invariant
            i <= v.len(),
            r@.len() == i,
            forall|k: int| 0 <= k < i ==> (#[trigger] r@[k])@ == v@[k]@,
        decreases v.len() - i,
    {
        r.push(v[i].clone());
        i += 1;
    }
    proof {
        assert(r@.map_values(|s: String| s@) =~= v@.map_values(|s: String| s@));
    }
    r
}

/// Glues a prefix of events onto a body-execution outcome.
pub open spec fn spec_body_combine(
    prefix: Seq<EventView>,
    rest: (Result<ValueView, RuntimeErrorView>, Seq<EventView>),
) -> (Result<ValueView, RuntimeErrorView>, Seq<EventView>) {
    (rest.0, prefix + rest.1)
}

/// Glues accumulated values and events onto an argument-evaluation
/// outcome.
pub open spec fn spec_args_combine(
    vals: Seq<ValueView>,
    prefix: Seq<EventView>,
    rest: (Result<Seq<ValueView>, RuntimeErrorView>, Seq<EventView>),
) -> (Result<Seq<ValueView>, RuntimeErrorView>, Seq<EventView>) {
    match rest.0 {
        Ok(vs) => (Ok(vals + vs), prefix + rest.1),
        Err(e) => (Err(e), prefix + rest.1),
    }
}

/// An element weighs less than its sequence (wrapper for call sites).
proof fn lemma_exprs_size_index_wrap(s: Seq<ExprView>, i: int)
    requires
        0 <= i < s.len(),
    ensures
        expr_size(s[i]) < exprs_size(s),
{
    crate::ast::lemma_exprs_size_index(s, i);
}

/// Evaluates one expression against the environment, appending to
/// `out` the events of any function calls inside it.
#[verifier::rlimit(100)]
pub fn evaluate_expression(
    vars: &StringHashMap<RuntimeValue>,
    funcs: &StringHashMap<FunctionDef>,
    e: &Expression,
    fuel: u32,
    out: &mut Vec<OutputEvent>,
) -> (r: Result<RuntimeValue, RuntimeError>)
    requires
        funcs_wf(fmap(funcs@)),
    ensures
        ({
            let m = spec_eval_expr(vmap(vars@), fmap(funcs@), e@, fuel as nat);
            events_view(final(out)@) == events_view(old(out)@) + m.1 && match r {
                Ok(v) => m.0 == Ok::<ValueView, RuntimeErrorView>(v@),
                Err(er) => m.0 == Err::<ValueView, RuntimeErrorView>(er@),
            }
        }),
    decreases fuel, expr_size(e@), 0int,
{
    let ghost e0 = events_view(out@);
    match e {
        Expression::Literal(l) => {
            proof {
                assert(events_view(out@) =~= e0 + Seq::<EventView>::empty());
            }
            Ok(RuntimeValue::from_literal(l))
        },
        Expression::Identifier(n) => {
            proof {
                assert(events_view(out@) =~= e0 + Seq::<EventView>::empty());
            }
            match vars.get(n.as_str()) {
                Some(v) => {
                    proof {
                        assert(vmap(vars@).contains_key(n@));
                        assert(vmap(vars@)[n@] == vars@[n@]@);
                    }
                    Ok(v.duplicate())
                },
                None => {
                    proof {
                        assert(!vmap(vars@).contains_key(n@));
                    }
                    Ok(RuntimeValue::Undefined)
                },
            }
        },
        Expression::Grouping { expression } => evaluate_expression(
            vars,
            funcs,
            &**expression,
            fuel,
            out,
        ),
        Expression::Unary { operator, right } => {
            let rv = match evaluate_expression(vars, funcs, &**right, fuel, out) {
                Ok(v) => v,
                Err(er) => { return Err(er); },
            };
            match rv {
                RuntimeValue::Number(n) => match operator {
                    TokenType::Minus => Ok(RuntimeValue::Number(num_neg(n))),
                    _ => Err(RuntimeError::BadUnary),
                },
                _ => Err(RuntimeError::BadUnary),
            }
        },
        Expression::Binary { left, operator, right } => {
            let ghost lev = spec_eval_expr(vmap(vars@), fmap(funcs@), left@, fuel as nat).1;
            let lv = match evaluate_expression(vars, funcs, &**left, fuel, out) {
                Ok(v) => v,
                Err(er) => { return Err(er); },
            };
            let ghost rev = spec_eval_expr(vmap(vars@), fmap(funcs@), right@, fuel as nat).1;
            let rv = match evaluate_expression(vars, funcs, &**right, fuel, out) {
                Ok(v) => v,
                Err(er) => {
                    proof {
                        assert(events_view(out@) =~= e0 + (lev + rev));
                    }
                    return Err(er);
                },
            };
            proof {
                assert(events_view(out@) =~= e0 + (lev + rev));
            }
            match (&lv, &rv) {
                (RuntimeValue::Number(x), RuntimeValue::Number(y)) => match operator {
                    TokenType::Plus => Ok(RuntimeValue::Number(num_add(*x, *y))),
                    TokenType::Minus => Ok(RuntimeValue::Number(num_sub(*x, *y))),
                    TokenType::Star => Ok(RuntimeValue::Number(num_mul(*x, *y))),
                    TokenType::Slash => Ok(RuntimeValue::Number(num_div(*x, *y))),
                    _ => Err(RuntimeError::BadBinary),
                },
                _ => Err(RuntimeError::BadBinary),
            }
        },
        Expression::Comparison { left, operator, right } => {
            let ghost lev = spec_eval_expr(vmap(vars@), fmap(funcs@), left@, fuel as nat).1;
            let lv = match evaluate_expression(vars, funcs, &**left, fuel, out) {
                Ok(v) => v,
                Err(er) => { return Err(er); },
            };
            let ghost rev = spec_eval_expr(vmap(vars@), fmap(funcs@), right@, fuel as nat).1;
            let rv = match evaluate_expression(vars, funcs, &**right, fuel, out) {
                Ok(v) => v,
                Err(er) => {
                    proof {
                        assert(events_view(out@) =~= e0 + (lev + rev));
                    }
                    return Err(er);
                },
            };
            proof {
                assert(events_view(out@) =~= e0 + (lev + rev));
            }
            let cmp = match (&lv, &rv) {
                (RuntimeValue::Number(x), RuntimeValue::Number(y)) => compare_numbers(
                    *x,
                    *y,
                    operator,
                ),
                (RuntimeValue::Boolean(x), RuntimeValue::Boolean(y)) => compare_booleans(
                    *x,
                    *y,
                    operator,
                ),
                (RuntimeValue::String(x), RuntimeValue::String(y)) => compare_strings(
                    x,
                    y,
                    operator,
                ),
                (RuntimeValue::Null, RuntimeValue::Null) => compare_nulls(operator),
                (RuntimeValue::Undefined, RuntimeValue::Undefined) => compare_undefined(operator),
                (RuntimeValue::Null, RuntimeValue::Undefined) => compare_null_undefined(operator),
                (RuntimeValue::Undefined, RuntimeValue::Null) => compare_null_undefined(operator),
                _ => Err(RuntimeError::BadComparison),
            };
            match cmp {
                Ok(b) => Ok(RuntimeValue::Boolean(b)),
                Err(er) => Err(er),
            }
        },
        Expression::Call { callee, args } => call_function(vars, funcs, callee, args, fuel, out),
    }
}

/// Evaluates the argument expressions left to right in the caller's
/// environment.
#[verifier::rlimit(100)]
fn evaluate_arguments(
    vars: &StringHashMap<RuntimeValue>,
    funcs: &StringHashMap<FunctionDef>,
    args: &Vec<Expression>,
    fuel: u32,
    out: &mut Vec<OutputEvent>,
) -> (r: Result<Vec<RuntimeValue>, RuntimeError>)
    requires
        funcs_wf(fmap(funcs@)),
    ensures
        ({
            let m = spec_eval_args(vmap(vars@), fmap(funcs@), exprs_view(args@), fuel as nat);
            events_view(final(out)@) == events_view(old(out)@) + m.1 && match r {
                Ok(v) => m.0 == Ok::<Seq<ValueView>, RuntimeErrorView>(values_view(v@)),
                Err(er) => m.0 == Err::<Seq<ValueView>, RuntimeErrorView>(er@),
            }
        }),
    decreases fuel, exprs_size(exprs_view(args@)), 0int,
{
    let ghost full = exprs_view(args@);
    let ghost vm = vmap(vars@);
    let ghost fm = fmap(funcs@);
    let ghost e0 = events_view(out@);
    let mut vals: Vec<RuntimeValue> = Vec::new();
    let ghost mut done_ev = Seq::<EventView>::empty();
    let mut i: usize = 0;
    proof {
        lemma_exprs_view_len(args@);
        assert(full.subrange(0, full.len() as int) =~= full);
        assert(values_view(vals@) =~= Seq::<ValueView>::empty());
        assert(events_view(out@) =~= e0 + done_ev);
        assert(spec_args_combine(
            values_view(vals@),
            done_ev,
            spec_eval_args(vm, fm, full, fuel as nat),
        ) == spec_eval_args(vm, fm, full, fuel as nat)) by {
            let rest = spec_eval_args(vm, fm, full, fuel as nat);
            match rest.0 {
                Ok(vs) => {
                    assert(values_view(vals@) + vs =~= vs);
                    assert(done_ev + rest.1 =~= rest.1);
                },
                Err(er) => {
                    assert(done_ev + rest.1 =~= rest.1);
                },
            }
        }
    }
    while i < args.len()
        invariant
            funcs_wf(fm),
            vm == vmap(vars@),
            fm == fmap(funcs@),
            full == exprs_view(args@),
            full.len() == args@.len(),
            i <= args.len(),
            e0 == events_view(old(out)@),
            events_view(out@) == e0 + done_ev,
            spec_eval_args(vm, fm, full, fuel as nat) == spec_args_combine(
                values_view(vals@),
                done_ev,
                spec_eval_args(vm, fm, full.subrange(i as int, full.len() as int), fuel as nat),
            ),
        decreases args.len() - i,
    {
        let ghost sub = full.subrange(i as int, full.len() as int);
        proof {
            lemma_exprs_view_index(args@, i as int);
            lemma_exprs_size_index_wrap(full, i as int);
            assert(sub[0] == full[i as int]);
            assert(sub.drop_first() =~= full.subrange(i + 1, full.len() as int));
        }
        let ghost m_i = spec_eval_expr(vm, fm, full[i as int], fuel as nat);
        let v = match evaluate_expression(vars, funcs, &args[i], fuel, out) {
            Ok(v) => v,
            Err(er) => {
                proof {
                    assert(events_view(out@) =~= e0 + (done_ev + m_i.1));
                }
                return Err(er);
            },
        };
        let ghost vals_before = values_view(vals@);
        let ghost vv = v@;
        vals.push(v);
        proof {
            assert(values_view(vals@) =~= vals_before.push(vv));
            let rest = spec_eval_args(vm, fm, sub.drop_first(), fuel as nat);
            match rest.0 {
                Ok(vs) => {
                    assert(vals_before + (seq![vv] + vs) =~= values_view(vals@) + vs);
                    assert(done_ev + (m_i.1 + rest.1) =~= (done_ev + m_i.1) + rest.1);
                },
                Err(er) => {
                    assert(done_ev + (m_i.1 + rest.1) =~= (done_ev + m_i.1) + rest.1);
                },
            }
            done_ev = done_ev + m_i.1;
            assert(events_view(out@) =~= e0 + done_ev);
        }
        i += 1;
    }
    proof {
        let sub = full.subrange(i as int, full.len() as int);
        assert(sub.len() == 0);
        assert(values_view(vals@) + Seq::<ValueView>::empty() =~= values_view(vals@));
        assert(done_ev + Seq::<EventView>::empty() =~= done_ev);
    }
    Ok(vals)
}

/// Binds parameters positionally into a fresh variable table: the
/// i-th argument value when present, else undefined.
pub fn bind_params(
    params: &Vec<String>,
    values: &Vec<RuntimeValue>,
    vars: &mut StringHashMap<RuntimeValue>,
)
    requires
        old(vars)@ == Map::<Seq<char>, RuntimeValue>::empty(),
    ensures
        vmap(final(vars)@) == spec_bind(
            params@.map_values(|s: String| s@),
            values_view(values@),
        ),
{
    let ghost pview = params@.map_values(|s: String| s@);
    let ghost vview = values_view(values@);
    proof {
        assert(pview.subrange(0, 0) =~= Seq::<Seq<char>>::empty());
        assert(vmap(vars@) =~= Map::<Seq<char>, ValueView>::empty());
    }
    let mut i: usize = 0;
    while i < params.len()
        invariant
            i <= params.len(),
            pview == params@.map_values(|s: String| s@),
            vview == values_view(values@),
            pview.len() == params@.len(),
            vview.len() == values@.len(),
            vmap(vars@) == spec_bind(pview.subrange(0, i as int), vview),
        decreases params.len() - i,
    {
        let v = if i < values.len() {
            values[i].duplicate()
        } else {
            RuntimeValue::Undefined
        };
        let ghost before = vars@;
        vars.insert(params[i].clone(), v);
        proof {
            let p1 = pview.subrange(0, i + 1);
            assert(p1.drop_last() =~= pview.subrange(0, i as int));
            assert(p1.last() == pview[i as int]);
            assert(vmap(vars@) =~= vmap(before).insert(
                pview[i as int],
                if (i as int) < vview.len() {
                    vview[i as int]
                } else {
                    ValueView::Undefined
                },
            ));
        }
        i += 1;
    }
    proof {
        assert(pview.subrange(0, params@.len() as int) =~= pview);
    }
}

/// Runs a function body in the child environment: the first `return`
/// reached yields the call's value.
#[verifier::rlimit(100)]
fn execute_function_body(
    vars: &mut StringHashMap<RuntimeValue>,
    funcs: &StringHashMap<FunctionDef>,
    body: &Vec<Statement>,
    fuel: u32,
    out: &mut Vec<OutputEvent>,
) -> (r: Result<RuntimeValue, RuntimeError>)
    requires
        funcs_wf(fmap(funcs@)),
        body_wf(stmts_view(body@)),
    ensures
        ({
            let m = spec_exec_body(
                vmap(old(vars)@),
                fmap(funcs@),
                stmts_view(body@),
                fuel as nat,
            );
            events_view(final(out)@) == events_view(old(out)@) + m.1 && match r {
                Ok(v) => m.0 == Ok::<ValueView, RuntimeErrorView>(v@),
                Err(er) => m.0 == Err::<ValueView, RuntimeErrorView>(er@),
            }
        }),
    decreases fuel, stmts_size(stmts_view(body@)), 2int,
{
    let ghost full = stmts_view(body@);
    let ghost fm = fmap(funcs@);
    let ghost e0 = events_view(out@);
    let ghost mut done_ev = Seq::<EventView>::empty();
    let mut i: usize = 0;
    proof {
        lemma_stmts_view_len(body@);
        assert(full.subrange(0, full.len() as int) =~= full);
        assert(events_view(out@) =~= e0 + done_ev);
        let rest = spec_exec_body(vmap(vars@), fm, full, fuel as nat);
        assert(done_ev + rest.1 =~= rest.1);
    }
    while i < body.len()
        invariant
            funcs_wf(fm),
            fm == fmap(funcs@),
            full == stmts_view(body@),
            full.len() == body@.len(),
            body_wf(full),
            i <= body.len(),
            e0 == events_view(old(out)@),
            events_view(out@) == e0 + done_ev,
            spec_exec_body(vmap(old(vars)@), fm, full, fuel as nat) == spec_body_combine(
                done_ev,
                spec_exec_body(
                    vmap(vars@),
                    fm,
                    full.subrange(i as int, full.len() as int),
                    fuel as nat,
                ),
            ),
        decreases body.len() - i,
    {
        let ghost sub = full.subrange(i as int, full.len() as int);
        proof {
            lemma_stmts_view_index(body@, i as int);
            crate::ast::lemma_stmts_size_index(full, i as int);
            assert(sub[0] == full[i as int]);
            assert(sub.drop_first() =~= full.subrange(i + 1, full.len() as int));
        }
        match &body[i] {
            Statement::Return { expression } => {
                let r = evaluate_expression(&*vars, funcs, expression, fuel, out);
                proof {
                    let m = spec_eval_expr(vmap(vars@), fm, expression@, fuel as nat);
                    assert(events_view(out@) =~= e0 + (done_ev + m.1));
                }
                return r;
            },
            Statement::ExpressionStatement { expression } => {
                let ghost m = spec_eval_expr(vmap(vars@), fm, expression@, fuel as nat);
                let v = match evaluate_expression(&*vars, funcs, expression, fuel, out) {
                    Ok(v) => v,
                    Err(er) => {
                        proof {
                            assert(events_view(out@) =~= e0 + (done_ev + m.1));
                        }
                        return Err(er);
                    },
                };
                let ghost ev_before = events_view(out@);
                let ghost vv = v@;
                out.push(OutputEvent::Value(v));
                proof {
                    assert(events_view(out@) =~= ev_before.push(EventView::Value(vv)));
                    let rest = spec_exec_body(vmap(vars@), fm, sub.drop_first(), fuel as nat);
                    assert(done_ev + (m.1.push(EventView::Value(vv)) + rest.1) =~= (done_ev
                        + m.1.push(EventView::Value(vv))) + rest.1);
                    done_ev = done_ev + m.1.push(EventView::Value(vv));
                    assert(events_view(out@) =~= e0 + done_ev);
                }
            },
            Statement::Declaration { is_const, name, value } => {
                let ghost m = match value@ {
                    Some(e) => spec_eval_expr(vmap(vars@), fm, e@, fuel as nat),
                    None => (
                        Ok::<ValueView, RuntimeErrorView>(ValueView::Undefined),
                        Seq::<EventView>::empty(),
                    ),
                };
                let v = match value {
                    Some(e) => match evaluate_expression(&*vars, funcs, e, fuel, out) {
                        Ok(v) => v,
                        Err(er) => {
                            proof {
                                assert(events_view(out@) =~= e0 + (done_ev + m.1));
                            }
                            return Err(er);
                        },
                    },
                    None => RuntimeValue::Undefined,
                };
                proof {
                    assert(events_view(out@) =~= e0 + (done_ev + m.1));
                }
                if vars.contains_key(name.as_str()) || funcs.contains_key(name.as_str()) {
                    return Err(RuntimeError::AlreadyDeclared(name.clone()));
                }
                let ghost ev_before = events_view(out@);
                let ghost vv = v@;
                let ghost nv = name@;
                out.push(OutputEvent::Created { name: name.clone(), value: v.duplicate() });
                let ghost vars_before = vars@;
                vars.insert(name.clone(), v);
                proof {
                    assert(events_view(out@) =~= ev_before.push(
                        EventView::Created { name: nv, value: vv },
                    ));
                    assert(vmap(vars@) =~= vmap(vars_before).insert(nv, vv));
                    let rest = spec_exec_body(vmap(vars@), fm, sub.drop_first(), fuel as nat);
                    assert(done_ev + (m.1.push(EventView::Created { name: nv, value: vv })
                        + rest.1) =~= (done_ev + m.1.push(
                        EventView::Created { name: nv, value: vv },
                    )) + rest.1);
                    done_ev = done_ev + m.1.push(EventView::Created { name: nv, value: vv });
                    assert(events_view(out@) =~= e0 + done_ev);
                }
            },
            Statement::FunctionDeclaration { name, params, body: b } => {
                proof {
                    assert(full[i as int] is FunctionDeclaration);
                    assert(false);
                }
                return Err(RuntimeError::ReturnOutsideFunction);
            },
        }
        i += 1;
    }
    proof {
        let sub = full.subrange(i as int, full.len() as int);
        assert(sub.len() == 0);
        assert(done_ev + Seq::<EventView>::empty() =~= done_ev);
    }
    Ok(RuntimeValue::Undefined)
}

/// One user function call: look the callee up, evaluate the arguments
/// in the caller's environment, and run the body in a child
/// environment seeded with only the function table.
#[verifier::rlimit(100)]
pub fn call_function(
    vars: &StringHashMap<RuntimeValue>,
    funcs: &StringHashMap<FunctionDef>,
    callee: &String,
    args: &Vec<Expression>,
    fuel: u32,
    out: &mut Vec<OutputEvent>,
) -> (r: Result<RuntimeValue, RuntimeError>)
    requires
        funcs_wf(fmap(funcs@)),
    ensures
        ({
            let m = spec_call_fn(
                vmap(vars@),
                fmap(funcs@),
                callee@,
                exprs_view(args@),
                fuel as nat,
            );
            events_view(final(out)@) == events_view(old(out)@) + m.1 && match r {
                Ok(v) => m.0 == Ok::<ValueView, RuntimeErrorView>(v@),
                Err(er) => m.0 == Err::<ValueView, RuntimeErrorView>(er@),
            }
        }),
    decreases fuel, exprs_size(exprs_view(args@)), 1int,
{
    let ghost fm = fmap(funcs@);
    let ghost e0 = events_view(out@);
    let f = match funcs.get(callee.as_str()) {
        Some(f) => f,
        None => {
            proof {
                assert(!fm.contains_key(callee@));
                assert(events_view(out@) =~= e0 + Seq::<EventView>::empty());
            }
            return Err(RuntimeError::UndefinedFunction(callee.clone()));
        },
    };
    proof {
        assert(fm.contains_key(callee@));
        assert(fm[callee@] == funcs@[callee@]@);
    }
    let ghost am = spec_eval_args(vmap(vars@), fm, exprs_view(args@), fuel as nat);
    let vals = match evaluate_arguments(vars, funcs, args, fuel, out) {
        Ok(v) => v,
        Err(er) => { return Err(er); },
    };
    let ghost ev_before = events_view(out@);
    let ghost vals_v = values_view(vals@);
    out.push(
        OutputEvent::FunctionCalled { name: callee.clone(), args: clone_values(&vals) },
    );
    proof {
        assert(events_view(out@) =~= ev_before.push(
            EventView::FunctionCalled { name: callee@, args: vals_v },
        ));
        assert(events_view(out@) =~= e0 + am.1.push(
            EventView::FunctionCalled { name: callee@, args: vals_v },
        ));
    }
    if fuel == 0 {
        return Err(RuntimeError::CallDepthExceeded);
    }
    let ghost ev1 = am.1.push(EventView::FunctionCalled { name: callee@, args: vals_v });
    let mut local: StringHashMap<RuntimeValue> = StringHashMap::new();
    bind_params(&f.params, &vals, &mut local);
    proof {
        assert(body_wf(fm[callee@].body));
        assert(stmts_view(f.body@) == fm[callee@].body);
        assert(vmap(local@) == spec_bind(fm[callee@].params, vals_v));
    }
    let ghost bm = spec_exec_body(vmap(local@), fm, stmts_view(f.body@), (fuel - 1) as nat);
    let result = match execute_function_body(&mut local, funcs, &f.body, fuel - 1, out) {
        Ok(v) => v,
        Err(er) => {
            proof {
                assert(events_view(out@) =~= e0 + (ev1 + bm.1));
            }
            return Err(er);
        },
    };
    let ghost ev_before2 = events_view(out@);
    let ghost rv = result@;
    out.push(
        OutputEvent::FunctionReturned { name: callee.clone(), value: result.duplicate() },
    );
    proof {
        assert(events_view(out@) =~= ev_before2.push(
            EventView::FunctionReturned { name: callee@, value: rv },
        ));
        assert(events_view(out@) =~= e0 + (ev1 + bm.1).push(
            EventView::FunctionReturned { name: callee@, value: rv },
        ));
    }
    Ok(result)
}

/// The three tables of an environment: variables, the names declared
/// `const`, and functions.
pub struct Environment {
    pub variables: StringHashMap<RuntimeValue>,
    pub constants: StringHashMap<()>,
    pub functions: StringHashMap<FunctionDef>,
}

impl Environment {
    pub fn new() -> (e: Environment)
        ensures
            e.variables@ == Map::<Seq<char>, RuntimeValue>::empty(),
            e.constants@ == Map::<Seq<char>, ()>::empty(),
            e.functions@ == Map::<Seq<char>, FunctionDef>::empty(),
    {
        Environment {
            variables: StringHashMap::new(),
            constants: StringHashMap::new(),
            functions: StringHashMap::new(),
        }
    }
}

/// The interpreter: a top-level environment, mutated by declarations.
pub struct Runtime {
    pub environment: Environment,
}

impl Runtime {
    /// The model view of the current environment.
    pub open spec fn env_model(&self) -> (
        Map<Seq<char>, ValueView>,
        Set<Seq<char>>,
        Map<Seq<char>, FunView>,
    ) {
        (
            vmap(self.environment.variables@),
            self.environment.constants@.dom(),
            fmap(self.environment.functions@),
        )
    }

    pub fn new() -> (r: Runtime)
        ensures
            r.env_model() == (
                Map::<Seq<char>, ValueView>::empty(),
                Set::<Seq<char>>::empty(),
                Map::<Seq<char>, FunView>::empty(),
            ),
            funcs_wf(r.env_model().2),
    {
        let r = Runtime { environment: Environment::new() };
        proof {
            assert(vmap(r.environment.variables@) =~= Map::<Seq<char>, ValueView>::empty());
            assert(r.environment.constants@.dom() =~= Set::<Seq<char>>::empty());
            assert(fmap(r.environment.functions@) =~= Map::<Seq<char>, FunView>::empty());
        }
        r
    }

    /// Runs one top-level statement: declarations and function
    /// declarations mutate the environment; the events go to `out`.
    #[verifier::rlimit(100)]
    pub fn evaluate_statement(&mut self, statement: Statement, out: &mut Vec<OutputEvent>) -> (r:
        Result<(), RuntimeError>)
        requires
            stmt_wf(statement@),
            funcs_wf(old(self).env_model().2),
        ensures
            funcs_wf(final(self).env_model().2),
            ({
                let (mr, mev) = spec_eval_statement(
                    old(self).env_model().0,
                    old(self).env_model().1,
                    old(self).env_model().2,
                    statement@,
                    MAX_CALL_DEPTH as nat,
                );
                events_view(final(out)@) == events_view(old(out)@) + mev && match r {
                    Ok(()) => mr matches Ok(t) && final(self).env_model() == t,
                    Err(er) => mr == Err::<
                        (Map<Seq<char>, ValueView>, Set<Seq<char>>, Map<Seq<char>, FunView>),
                        RuntimeErrorView,
                    >(er@) && final(self).env_model() == old(self).env_model(),
                }
            }),
    {
        let ghost e0 = events_view(out@);
        match statement {
            Statement::ExpressionStatement { expression } => {
                let ghost m = spec_eval_expr(
                    vmap(self.environment.variables@),
                    fmap(self.environment.functions@),
                    expression@,
                    MAX_CALL_DEPTH as nat,
                );
                let v = match evaluate_expression(
                    &self.environment.variables,
                    &self.environment.functions,
                    &expression,
                    MAX_CALL_DEPTH,
                    out,
                ) {
                    Ok(v) => v,
                    Err(er) => { return Err(er); },
                };
                let ghost ev_before = events_view(out@);
                let ghost vv = v@;
                out.push(OutputEvent::Value(v));
                proof {
                    assert(events_view(out@) =~= ev_before.push(EventView::Value(vv)));
                }
                Ok(())
            },
            Statement::Declaration { is_const, name, value } => {
                let ghost m = match value@ {
                    Some(e) => spec_eval_expr(
                        vmap(self.environment.variables@),
                        fmap(self.environment.functions@),
                        e@,
                        MAX_CALL_DEPTH as nat,
                    ),
                    None => (
                        Ok::<ValueView, RuntimeErrorView>(ValueView::Undefined),
                        Seq::<EventView>::empty(),
                    ),
                };
                let v = match value {
                    Some(e) => match evaluate_expression(
                        &self.environment.variables,
                        &self.environment.functions,
                        &e,
                        MAX_CALL_DEPTH,
                        out,
                    ) {
                        Ok(v) => v,
                        Err(er) => { return Err(er); },
                    },
                    None => RuntimeValue::Undefined,
                };
                proof {
                    assert(events_view(out@) =~= e0 + m.1);
                }
                if self.environment.variables.contains_key(name.as_str())
                    || self.environment.functions.contains_key(name.as_str()) {
                    return Err(RuntimeError::AlreadyDeclared(name));
                }
                let ghost consts_before = self.environment.constants@;
                if is_const {
                    self.environment.constants.insert(name.clone(), ());
                    proof {
                        assert(self.environment.constants@.dom() =~= consts_before.dom().insert(
                            name@,
                        ));
                    }
                }
                let ghost ev_before = events_view(out@);
                let ghost vv = v@;
                let ghost nv = name@;
                out.push(OutputEvent::Created { name: name.clone(), value: v.duplicate() });
                let ghost vars_before = self.environment.variables@;
                self.environment.variables.insert(name, v);
                proof {
                    assert(events_view(out@) =~= ev_before.push(
                        EventView::Created { name: nv, value: vv },
                    ));
                    assert(vmap(self.environment.variables@) =~= vmap(vars_before).insert(
                        nv,
                        vv,
                    ));
                }
                Ok(())
            },
            Statement::FunctionDeclaration { name, params, body } => {
                proof {
                    assert(events_view(out@) =~= e0 + Seq::<EventView>::empty());
                }
                if self.environment.variables.contains_key(name.as_str()) {
                    return Err(RuntimeError::AlreadyDeclared(name));
                }
                let ghost nv = name@;
                let ghost pv = params@.map_values(|s: String| s@);
                let ghost bv = stmts_view(body@);
                let ghost ev_before = events_view(out@);
                out.push(
                    OutputEvent::CreatedFunction {
                        name: name.clone(),
                        params: clone_strings(&params),
                    },
                );
                let ghost funcs_before = self.environment.functions@;
                self.environment.functions.insert(name, FunctionDef { params, body });
                proof {
                    assert(events_view(out@) =~= ev_before.push(
                        EventView::CreatedFunction { name: nv, params: pv },
                    ));
                    assert(events_view(out@) =~= e0 + seq![
                        EventView::CreatedFunction { name: nv, params: pv },
                    ]);
                    assert(fmap(self.environment.functions@) =~= fmap(funcs_before).insert(
                        nv,
                        FunView { params: pv, body: bv },
                    ));
                    assert(funcs_wf(fmap(self.environment.functions@))) by {
                        let newm = fmap(self.environment.functions@);
                        assert forall|k: Seq<char>| newm.contains_key(k) implies body_wf(
                            (#[trigger] newm[k]).body,
                        ) by {
                            if k == nv {
                                assert(newm[k].body == bv);
                            } else {
                                assert(fmap(funcs_before).contains_key(k) && newm[k] == fmap(
                                    funcs_before,
                                )[k]);
                            }
                        }
                    }
                }
                Ok(())
            },
            Statement::Return { expression } => {
                proof {
                    assert(events_view(out@) =~= e0 + Seq::<EventView>::empty());
                }
                Err(RuntimeError::ReturnOutsideFunction)
            },
        }
    }

    /// Runs the statements in order, producing the observable events;
    /// a failing statement adds an error event and the run continues.
    #[verifier::rlimit(100)]
    pub fn interpret(&mut self, statements: Vec<Statement>) -> (out: Vec<OutputEvent>)
        requires
            stmts_wf(stmts_view(statements@)),
            funcs_wf(old(self).env_model().2),
        ensures
            funcs_wf(final(self).env_model().2),
            events_view(out@) == spec_interpret_from(
                old(self).env_model().0,
                old(self).env_model().1,
                old(self).env_model().2,
                stmts_view(statements@),
            ),
            old(self).env_model() == (
                Map::<Seq<char>, ValueView>::empty(),
                Set::<Seq<char>>::empty(),
                Map::<Seq<char>, FunView>::empty(),
            ) ==> events_view(out@) == spec_interpret(stmts_view(statements@)),
    {
        let ghost full = stmts_view(statements@);
        let ghost env0 = old(self).env_model();
        let mut statements = statements;
        let mut out: Vec<OutputEvent> = Vec::new();
        proof {
            lemma_stmts_view_len(statements@);
            assert(events_view(out@) =~= Seq::<EventView>::empty());
            assert(Seq::<EventView>::empty() + spec_interpret_from(
                env0.0,
                env0.1,
                env0.2,
                full,
            ) =~= spec_interpret_from(env0.0, env0.1, env0.2, full));
        }
        while statements.len() > 0
            invariant
                env0 == old(self).env_model(),
                funcs_wf(self.env_model().2),
                stmts_wf(stmts_view(statements@)),
                spec_interpret_from(env0.0, env0.1, env0.2, full) == events_view(out@)
                    + spec_interpret_from(
                    self.env_model().0,
                    self.env_model().1,
                    self.env_model().2,
                    stmts_view(statements@),
                ),
            decreases statements.len(),
        {
            let ghost rem = stmts_view(statements@);
            let ghost vec_before = statements@;
            proof {
                lemma_stmts_view_len(statements@);
                lemma_stmts_view_index(statements@, 0);
            }
            let s = statements.remove(0);
            proof {
                assert(statements@ =~= vec_before.drop_first());
                assert(stmts_view(vec_before).drop_first() =~= stmts_view(
                    vec_before.drop_first(),
                ));
                assert(stmts_view(statements@) =~= rem.drop_first());
                assert(stmt_wf(s@));
                assert forall|k: int| 0 <= k < stmts_view(statements@).len() implies stmt_wf(
                    #[trigger] stmts_view(statements@)[k],
                ) by {
                    assert(stmts_view(statements@)[k] == rem[k + 1]);
                }
            }
            let ghost sv = s@;
            let ghost envc = self.env_model();
            let ghost (mr, mev) = spec_eval_statement(
                envc.0,
                envc.1,
                envc.2,
                sv,
                MAX_CALL_DEPTH as nat,
            );
            let ghost out_before = events_view(out@);
            match self.evaluate_statement(s, &mut out) {
                Ok(()) => {
                    proof {
                        assert(stmts_view(statements@) =~= rem.drop_first());
                        assert(out_before + (mev + spec_interpret_from(
                            self.env_model().0,
                            self.env_model().1,
                            self.env_model().2,
                            rem.drop_first(),
                        )) =~= (out_before + mev) + spec_interpret_from(
                            self.env_model().0,
                            self.env_model().1,
                            self.env_model().2,
                            rem.drop_first(),
                        ));
                    }
                },
                Err(er) => {
                    let ghost ev2 = events_view(out@);
                    let ghost erv = er@;
                    out.push(OutputEvent::Error(er));
                    proof {
                        assert(events_view(out@) =~= ev2.push(EventView::Error(erv)));
                        assert(stmts_view(statements@) =~= rem.drop_first());
                        assert(out_before + (mev.push(EventView::Error(erv))
                            + spec_interpret_from(
                            self.env_model().0,
                            self.env_model().1,
                            self.env_model().2,
                            rem.drop_first(),
                        )) =~= (out_before + mev.push(EventView::Error(erv)))
                            + spec_interpret_from(
                            self.env_model().0,
                            self.env_model().1,
                            self.env_model().2,
                            rem.drop_first(),
                        ));
                    }
                },
            }
        }
        proof {
            assert(stmts_view(statements@).len() == 0);
            assert(events_view(out@) + Seq::<EventView>::empty() =~= events_view(out@));
        }
        out
    }
}

/// Checks that no function body contains a nested function
/// declaration, as `interpret` requires and the parser guarantees.
pub fn statements_wf(statements: &Vec<Statement>) -> (r: bool)
    ensures
        r == stmts_wf(stmts_view(statements@)),
{
    let ghost sv = stmts_view(statements@);
    proof {
        lemma_stmts_view_len(statements@);
    }
    let mut i: usize = 0;
    while i < statements.len()
        invariant
            sv == stmts_view(statements@),
            sv.len() == statements@.len(),
            i <= statements.len(),
            forall|k: int| 0 <= k < i ==> stmt_wf(#[trigger] sv[k]),
        decreases statements.len() - i,
    {
        proof {
            lemma_stmts_view_index(statements@, i as int);
        }
        match &statements[i] {
            Statement::FunctionDeclaration { name, params, body } => {
                let ghost bv = stmts_view(body@);
                proof {
                    lemma_stmts_view_len(body@);
                }
                let mut j: usize = 0;
                while j < body.len()
                    invariant
                        bv == stmts_view(body@),
                        bv.len() == body@.len(),
                        j <= body.len(),
                        sv == stmts_view(statements@),
                        sv.len() == statements@.len(),
                        i < statements.len(),
                        sv[i as int] is FunctionDeclaration,
                        sv[i as int] matches StmtView::FunctionDeclaration { body: b2, .. }
                            && b2 == bv,
                        forall|k: int|
                            0 <= k < j ==> !(#[trigger] bv[k] is FunctionDeclaration),
                    decreases body.len() - j,
                {
                    proof {
                        lemma_stmts_view_index(body@, j as int);
                    }
                    match &body[j] {
                        Statement::FunctionDeclaration { .. } => {
                            proof {
                                assert(bv[j as int] is FunctionDeclaration);
                                assert(!stmt_wf(sv[i as int]));
                                assert(!stmts_wf(sv));
                            }
                            return false;
                        },
                        _ => {},
                    }
                    j += 1;
                }
                proof {
                    assert(body_wf(bv));
                    assert(stmt_wf(sv[i as int]));
                }
            },
            _ => {
                proof {
                    assert(stmt_wf(sv[i as int]));
                }
            },
        }
        i += 1;
    }
    true
}

} // verus!
