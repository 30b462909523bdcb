//! The evaluator: structural recursion over an expression against an
//! environment, with special forms, builtin application, and lambda calls.
//!
//! The executable evaluator returns exactly what the specification
//! interpreter `eval_s` computes.  A lambda call consumes one unit of
//! fuel, so every evaluation terminates; when the fuel runs out the
//! evaluator reports a depth error instead of recursing further.

use vstd::prelude::*;
use vstd::string::StringExecFns;

use crate::env::env_bind_model;
use crate::env::env_lookup;
use crate::env::env_pop_model;
use crate::env::env_push_model;
use crate::env::EnvModel;
use crate::env::RispEnv;
use crate::exp::dec_digits;
use crate::exp::exp_model;
use crate::exp::exp_models;
use crate::exp::lemma_exp_models;
use crate::exp::render_model;
use crate::exp::str_eq;
use crate::exp::ExpModel;
use crate::exp::RispBuiltin;
use crate::exp::RispErr;
use crate::exp::RispExp;
use crate::exp::RispLambda;

verus! {

/// How many nested lambda calls one evaluation may enter.
pub const MAX_EVAL_DEPTH: u64 = 200;

/// Which special form a list's head names, if any.
enum SpecialForm {
    If,
    Def,
    Fn,
    NotSpecial,
}

/// The message for a symbol with no binding.
pub open spec fn msg_unbound(s: Seq<char>) -> Seq<char> {
    "unexpected symbol `"@ + s + "`"@
}

/// The message for a function value standing alone.
pub open spec fn msg_unexpected_form() -> Seq<char> {
    "unexpected form"@
}

/// The message for an empty list.
pub open spec fn msg_empty_list() -> Seq<char> {
    "expected a non-empty list"@
}

/// The message when the lambda call depth limit is reached.
pub open spec fn msg_depth() -> Seq<char> {
    "exceeded maximum call depth"@
}

/// The message for `if` without a test form.
pub open spec fn msg_expected_test() -> Seq<char> {
    "expected test form"@
}

/// The message for `if` without the branch its test selected.
pub open spec fn msg_missing_branch(b: bool) -> Seq<char> {
    if b {
        "expected form idx = 1"@
    } else {
        "expected form idx = 2"@
    }
}

/// The message for an `if` test that did not evaluate to a boolean; it
/// renders the unevaluated test form.
pub open spec fn msg_bad_test(e: ExpModel) -> Seq<char> {
    "unexpected test form = `"@ + render_model(e) + "`"@
}

/// The message for `def` with more than two argument forms.
pub open spec fn msg_def_arity() -> Seq<char> {
    "def takes exactly two forms"@
}

/// The message for `def` without an identifier form.
pub open spec fn msg_def_missing_ident() -> Seq<char> {
    "expected ident form"@
}

/// The message for `def` whose identifier form is not a symbol.
pub open spec fn msg_def_ident() -> Seq<char> {
    "expected ident form to be a symbol"@
}

/// The message for `def` without a value form.
pub open spec fn msg_def_missing_value() -> Seq<char> {
    "expected value form"@
}

/// The message for `fn` with fewer than two argument forms.
pub open spec fn msg_fn_arity() -> Seq<char> {
    "fn definition can only have two forms"@
}

/// The message when a list's head evaluates to a non-function.
pub open spec fn msg_not_callable() -> Seq<char> {
    "first form must be a function"@
}

/// The message when a lambda's parameter form is not a list.
pub open spec fn msg_params_not_list() -> Seq<char> {
    "expected args form to be a list"@
}

/// The message when a lambda's parameter list holds a non-symbol.
pub open spec fn msg_params_not_symbols() -> Seq<char> {
    "expected symbols in the argument list"@
}

/// The message for a lambda call with the wrong number of arguments.
pub open spec fn msg_lambda_arity(n_params: int, n_args: int) -> Seq<char> {
    "expected "@ + dec_digits(n_params) + " arguments, got "@ + dec_digits(n_args)
}

/// The message for a builtin argument that is not a number.
pub open spec fn msg_expected_number() -> Seq<char> {
    "expected a number"@
}

/// The message for `-` called with no arguments.
pub open spec fn msg_sub_needs_arg() -> Seq<char> {
    "expected at least one number"@
}

/// The message for builtin arithmetic leaving the 64-bit signed range.
pub open spec fn msg_overflow() -> Seq<char> {
    "number out of range"@
}

/// The numeric values of `vals[i..]`, or the first type error.
pub open spec fn to_nums(vals: Seq<ExpModel>, i: int) -> Result<Seq<int>, Seq<char>>
    decreases vals.len() - i,
{
    if i >= vals.len() {
        Result::Ok(Seq::empty())
    } else {
        match vals[i] {
            ExpModel::Number(n) => match to_nums(vals, i + 1) {
                Result::Ok(rest) => Result::Ok(seq![n] + rest),
                Result::Err(m) => Result::Err(m),
            },
            _ => Result::Err(msg_expected_number()),
        }
    }
}

/// Whether the builtin comparison holds of one adjacent pair.
pub open spec fn rel_holds(op: RispBuiltin, a: int, b: int) -> bool {
    match op {
        RispBuiltin::NumEq => a == b,
        RispBuiltin::Gt => a > b,
        RispBuiltin::Gte => a >= b,
        RispBuiltin::Lt => a < b,
        RispBuiltin::Lte => a <= b,
        _ => false,
    }
}

/// The comparison holds between every adjacent pair; trivially true for
/// fewer than two values.
pub open spec fn chain_ok(op: RispBuiltin, nums: Seq<int>) -> bool {
    forall|i: int| 0 <= i < nums.len() - 1 ==> #[trigger] rel_holds(op, nums[i], nums[i + 1])
}

/// Left-to-right sum starting from `acc`, failing as soon as a partial
/// sum leaves the 64-bit signed range.
pub open spec fn checked_sum(acc: int, nums: Seq<int>, i: int) -> Result<int, Seq<char>>
    decreases nums.len() - i,
{
    if i >= nums.len() {
        Result::Ok(acc)
    } else if i64::MIN <= acc + nums[i] <= i64::MAX {
        checked_sum(acc + nums[i], nums, i + 1)
    } else {
        Result::Err(msg_overflow())
    }
}

/// What one builtin returns on a sequence of argument values.
pub open spec fn apply_builtin_model(op: RispBuiltin, vals: Seq<ExpModel>) -> Result<
    ExpModel,
    Seq<char>,
> {
    match to_nums(vals, 0) {
        Result::Err(m) => Result::Err(m),
        Result::Ok(nums) => match op {
            RispBuiltin::Add => match checked_sum(0, nums, 0) {
                Result::Ok(s) => Result::Ok(ExpModel::Number(s)),
                Result::Err(m) => Result::Err(m),
            },
            RispBuiltin::Sub => if nums.len() == 0 {
                Result::Err(msg_sub_needs_arg())
            } else {
                match checked_sum(0, nums, 1) {
                    Result::Ok(s) => if i64::MIN <= nums[0] - s <= i64::MAX {
                        Result::Ok(ExpModel::Number(nums[0] - s))
                    } else {
                        Result::Err(msg_overflow())
                    },
                    Result::Err(m) => Result::Err(m),
                }
            },
            _ => Result::Ok(ExpModel::Bool(chain_ok(op, nums))),
        },
    }
}

/// The parameter names of a lambda's parameter form: it must be a list
/// of symbols.
pub open spec fn params_names(p: ExpModel) -> Result<Seq<Seq<char>>, Seq<char>> {
    match p {
        ExpModel::List(items) => symbol_names(items, 0),
        _ => Result::Err(msg_params_not_list()),
    }
}

/// The names of `items[i..]`, which must all be symbols.
pub open spec fn symbol_names(items: Seq<ExpModel>, i: int) -> Result<Seq<Seq<char>>, Seq<char>>
    decreases items.len() - i,
{
    if i >= items.len() {
        Result::Ok(Seq::empty())
    } else {
        match items[i] {
            ExpModel::Symbol(s) => match symbol_names(items, i + 1) {
                Result::Ok(rest) => Result::Ok(seq![s] + rest),
                Result::Err(m) => Result::Err(m),
            },
            _ => Result::Err(msg_params_not_symbols()),
        }
    }
}

/// The specification interpreter: what evaluating `e` against `env` with
/// `fuel` remaining lambda-call levels returns, and the environment it
/// leaves behind.  Every contract of the executable evaluator equals
/// this function.
pub open spec fn eval_s(fuel: nat, e: ExpModel, env: EnvModel) -> (Result<ExpModel, Seq<char>>, EnvModel)
    decreases fuel, e, 3nat, 0nat,
{
    match e {
        ExpModel::Symbol(s) => (
            match env_lookup(env, s) {
                Option::Some(v) => Result::Ok(v),
                Option::None => Result::Err(msg_unbound(s)),
            },
            env,
        ),
        ExpModel::Bool(_) => (Result::Ok(e), env),
        ExpModel::Number(_) => (Result::Ok(e), env),
        ExpModel::Func(_) => (Result::Err(msg_unexpected_form()), env),
        ExpModel::Lambda(_, _) => (Result::Err(msg_unexpected_form()), env),
        ExpModel::List(items) => {
            if items.len() == 0 {
                (Result::Err(msg_empty_list()), env)
            } else if items[0] == ExpModel::Symbol("if"@) {
                eval_if_s(fuel, items, env)
            } else if items[0] == ExpModel::Symbol("def"@) {
                eval_def_s(fuel, items, env)
            } else if items[0] == ExpModel::Symbol("fn"@) {
                (eval_fn_s(items), env)
            } else {
                eval_call_s(fuel, items, env)
            }
        },
    }
}

/// The `if` special form: evaluate the test, which must yield a boolean,
/// then evaluate the selected branch.
pub open spec fn eval_if_s(fuel: nat, items: Seq<ExpModel>, env: EnvModel) -> (Result<
    ExpModel,
    Seq<char>,
>, EnvModel)
    decreases fuel, items, 0nat, 0nat,
{
    if items.len() < 2 {
        (Result::Err(msg_expected_test()), env)
    } else {
        let (tr, env1) = eval_s(fuel, items[1], env);
        match tr {
            Result::Err(m) => (Result::Err(m), env1),
            Result::Ok(tv) => match tv {
                ExpModel::Bool(b) => {
                    let idx: int = if b {
                        2
                    } else {
                        3
                    };
                    if items.len() <= idx {
                        (Result::Err(msg_missing_branch(b)), env1)
                    } else {
                        eval_s(fuel, items[idx], env1)
                    }
                },
                _ => (Result::Err(msg_bad_test(items[1])), env1),
            },
        }
    }
}

/// The `def` special form: exactly two argument forms, the first a
/// symbol; the value is evaluated and bound in the current scope.
pub open spec fn eval_def_s(fuel: nat, items: Seq<ExpModel>, env: EnvModel) -> (Result<
    ExpModel,
    Seq<char>,
>, EnvModel)
    decreases fuel, items, 0nat, 0nat,
{
    if items.len() > 3 {
        (Result::Err(msg_def_arity()), env)
    } else if items.len() < 2 {
        (Result::Err(msg_def_missing_ident()), env)
    } else {
        match items[1] {
            ExpModel::Symbol(name) => {
                if items.len() < 3 {
                    (Result::Err(msg_def_missing_value()), env)
                } else {
                    let (vr, env1) = eval_s(fuel, items[2], env);
                    match vr {
                        Result::Err(m) => (Result::Err(m), env1),
                        Result::Ok(v) => (Result::Ok(v), env_bind_model(env1, name, v)),
                    }
                }
            },
            _ => (Result::Err(msg_def_ident()), env),
        }
    }
}

/// The `fn` special form: at least two argument forms; parameter list and
/// body are kept unevaluated, and not validated until the call.
pub open spec fn eval_fn_s(items: Seq<ExpModel>) -> Result<ExpModel, Seq<char>> {
    if items.len() < 3 {
        Result::Err(msg_fn_arity())
    } else {
        Result::Ok(ExpModel::Lambda(Box::new(items[1]), Box::new(items[2])))
    }
}

/// Ordinary application: evaluate the head; a builtin gets its evaluated
/// arguments, a lambda gets a fresh scope over the call-site environment
/// and its body is evaluated there; anything else is not callable.
pub open spec fn eval_call_s(fuel: nat, items: Seq<ExpModel>, env: EnvModel) -> (Result<
    ExpModel,
    Seq<char>,
>, EnvModel)
    decreases fuel, items, 2nat, 2nat,
{
    if items.len() == 0 {
        (Result::Err(msg_empty_list()), env)
    } else {
        eval_call_inner_s(fuel, items, env)
    }
}

/// The body of `eval_call_s` for a non-empty list.
pub open spec fn eval_call_inner_s(fuel: nat, items: Seq<ExpModel>, env: EnvModel) -> (Result<
    ExpModel,
    Seq<char>,
>, EnvModel)
    recommends
        items.len() > 0,
    decreases fuel, items, 2nat, 1nat
        when items.len() > 0
{
    let (hr, env1) = eval_s(fuel, items[0], env);
    match hr {
        Result::Err(m) => (Result::Err(m), env1),
        Result::Ok(h) => match h {
            ExpModel::Func(op) => {
                let (ar, env2) = eval_args_s(fuel, items, 1, env1);
                match ar {
                    Result::Err(m) => (Result::Err(m), env2),
                    Result::Ok(vals) => (apply_builtin_model(op, vals), env2),
                }
            },
            ExpModel::Lambda(pbox, bbox) => {
                let (er, env2) = env_for_lambda_s(fuel, *pbox, items, env1);
                match er {
                    Result::Err(m) => (Result::Err(m), env2),
                    Result::Ok(env3) => {
                        if fuel == 0 {
                            (Result::Err(msg_depth()), env2)
                        } else {
                            let (br, env4) = eval_s((fuel - 1) as nat, *bbox, env3);
                            (br, env_pop_model(env4, env2.cur))
                        }
                    },
                }
            },
            _ => (Result::Err(msg_not_callable()), env1),
        },
    }
}

/// Entering a lambda call: validate the parameter form, check the arity,
/// evaluate the arguments left to right in the caller's environment, and
/// build the child scope.  The second component is the caller's
/// environment after argument evaluation.
pub open spec fn env_for_lambda_s(
    fuel: nat,
    params: ExpModel,
    items: Seq<ExpModel>,
    env: EnvModel,
) -> (Result<EnvModel, Seq<char>>, EnvModel)
    decreases fuel, items, 2nat, 0nat,
{
    match params_names(params) {
        Result::Err(m) => (Result::Err(m), env),
        Result::Ok(ks) => {
            if ks.len() != items.len() - 1 {
                (Result::Err(msg_lambda_arity(ks.len() as int, items.len() - 1)), env)
            } else {
                let (ar, env2) = eval_args_s(fuel, items, 1, env);
                match ar {
                    Result::Err(m) => (Result::Err(m), env2),
                    Result::Ok(vals) => (Result::Ok(env_push_model(env2, ks, vals)), env2),
                }
            }
        },
    }
}

/// Evaluating `items[i..]` left to right, stopping at the first error.
pub open spec fn eval_args_s(fuel: nat, items: Seq<ExpModel>, i: int, env: EnvModel) -> (Result<
    Seq<ExpModel>,
    Seq<char>,
>, EnvModel)
    decreases fuel, items, 1nat, items.len() - i,
{
    if i < 0 || i >= items.len() {
        (Result::Ok(Seq::empty()), env)
    } else {
        let (vr, env1) = eval_s(fuel, items[i], env);
        match vr {
            Result::Err(m) => (Result::Err(m), env1),
            Result::Ok(v) => {
                let (rr, env2) = eval_args_s(fuel, items, i + 1, env1);
                match rr {
                    Result::Err(m) => (Result::Err(m), env2),
                    Result::Ok(vs) => (Result::Ok(seq![v] + vs), env2),
                }
            },
        }
    }
}

/// The model of an evaluator result: the value's model on success, the
/// message on failure.
pub open spec fn res_model(r: Result<RispExp, RispErr>) -> Result<ExpModel, Seq<char>> {
    match r {
        Result::Ok(v) => Result::Ok(v.deep_view()),
        Result::Err(e) => Result::Err(e->Reason_0@),
    }
}

/// Evaluates `exp` against `env`, exactly as `eval_s` states, with the
/// default lambda-call depth limit.
pub fn eval(exp: &RispExp, env: &mut RispEnv) -> (r: Result<RispExp, RispErr>)
    requires
        old(env).wf(),
    ensures
        final(env).wf(),
        res_model(r) == eval_s(MAX_EVAL_DEPTH as nat, exp.deep_view(), old(env).model()).0,
        final(env).model() == eval_s(MAX_EVAL_DEPTH as nat, exp.deep_view(), old(env).model()).1,
{
    eval_limited(exp, env, MAX_EVAL_DEPTH)
}

/// Evaluates `exp` against `env` with `fuel` remaining lambda-call
/// levels, exactly as `eval_s` states.
pub fn eval_limited(exp: &RispExp, env: &mut RispEnv, fuel: u64) -> (r: Result<RispExp, RispErr>)
    requires
        old(env).wf(),
    ensures
        final(env).wf(),
        final(env).model().cur == old(env).model().cur,
        final(env).model().scopes.len() == old(env).model().scopes.len(),
        res_model(r) == eval_s(fuel as nat, exp.deep_view(), old(env).model()).0,
        final(env).model() == eval_s(fuel as nat, exp.deep_view(), old(env).model()).1,
    decreases fuel, *exp, 3nat, 0nat,
{
    match exp {
        RispExp::Symbol(s) => {
            match env.get(s.as_str()) {
                Option::Some(v) => Result::Ok(v),
                Option::None => {
                    let mut m = "unexpected symbol `".to_owned();
                    m.append(s.as_str());
                    m.append("`");
                    Result::Err(RispErr::Reason(m))
                },
            }
        },
        RispExp::Bool(b) => Result::Ok(RispExp::Bool(*b)),
        RispExp::Number(n) => Result::Ok(RispExp::Number(*n)),
        RispExp::Func(_) => Result::Err(RispErr::Reason("unexpected form".to_owned())),
        RispExp::Lambda(_) => Result::Err(RispErr::Reason("unexpected form".to_owned())),
        RispExp::List(items) => {
            proof {
                assert(decreases_to!(*exp => exp->List_0));
                assert(exp->List_0 == *items);
            }
            proof {
                lemma_exp_models(items@);
                assert(exp.deep_view() == ExpModel::List(exp_models(items@)));
            }
            if items.len() == 0 {
                return Result::Err(RispErr::Reason("expected a non-empty list".to_owned()));
            }
            let mut special = SpecialForm::NotSpecial;
            match &items[0] {
                RispExp::Symbol(s) => {
                    if str_eq(s.as_str(), "if") {
                        special = SpecialForm::If;
                    } else if str_eq(s.as_str(), "def") {
                        special = SpecialForm::Def;
                    } else if str_eq(s.as_str(), "fn") {
                        special = SpecialForm::Fn;
                    }
                },
                _ => {},
            }
            let ghost ims = exp_models(items@);
            proof {
                reveal_strlit("if");
                reveal_strlit("def");
                reveal_strlit("fn");
                assert("if"@.len() == 2 && "if"@[0] == 'i');
                assert("def"@.len() == 3 && "def"@[0] == 'd');
                assert("fn"@.len() == 2 && "fn"@[0] == 'f');
                assert("if"@ != "def"@ && "if"@ != "fn"@ && "def"@ != "fn"@);
                assert(exp.deep_view() == ExpModel::List(ims));
                assert(ims[0] == exp_model(items@[0]));
            }
            match special {
                SpecialForm::If => eval_if_args(exp, items, env, fuel),
                SpecialForm::Def => eval_def_args(exp, items, env, fuel),
                SpecialForm::Fn => eval_lambda_args(items),
                SpecialForm::NotSpecial => eval_call(exp, items, env, fuel),
            }
        },
    }
}

/// The `if` special form, exactly as `eval_if_s` states.
fn eval_if_args(whole: &RispExp, items: &Vec<RispExp>, env: &mut RispEnv, fuel: u64) -> (r: Result<
    RispExp,
    RispErr,
>)
    requires
        old(env).wf(),
        *whole == RispExp::List(*items),
    ensures
        final(env).wf(),
        final(env).model().cur == old(env).model().cur,
        final(env).model().scopes.len() == old(env).model().scopes.len(),
        res_model(r) == eval_if_s(fuel as nat, exp_models(items@), old(env).model()).0,
        final(env).model() == eval_if_s(fuel as nat, exp_models(items@), old(env).model()).1,
    decreases fuel, *whole, 0nat, 0nat,
{
    proof {
        lemma_exp_models(items@);
    }
    let ghost ims = exp_models(items@);
    if items.len() < 2 {
        return Result::Err(RispErr::Reason("expected test form".to_owned()));
    }
    proof {
        assert(decreases_to!(*whole => whole->List_0));
        assert(whole->List_0 == *items);
        assert(decreases_to!(*whole => items@[1]));
    }
    let tr = eval_limited(&items[1], env, fuel);
    match tr {
        Result::Err(e) => Result::Err(e),
        Result::Ok(tv) => {
            match tv {
                RispExp::Bool(b) => {
                    let idx: usize = if b {
                        2
                    } else {
                        3
                    };
                    if items.len() <= idx {
                        if b {
                            Result::Err(RispErr::Reason("expected form idx = 1".to_owned()))
                        } else {
                            Result::Err(RispErr::Reason("expected form idx = 2".to_owned()))
                        }
                    } else {
                        proof {
                            assert(decreases_to!(*whole => whole->List_0));
                            assert(whole->List_0 == *items);
                            assert(decreases_to!(*whole => items@[idx as int]));
                        }
                        eval_limited(&items[idx], env, fuel)
                    }
                },
                _ => {
                    let mut m = "unexpected test form = `".to_owned();
                    let rendered = items[1].to_text();
                    m.append(rendered.as_str());
                    m.append("`");
                    Result::Err(RispErr::Reason(m))
                },
            }
        },
    }
}

/// The `def` special form, exactly as `eval_def_s` states.
fn eval_def_args(whole: &RispExp, items: &Vec<RispExp>, env: &mut RispEnv, fuel: u64) -> (r:
    Result<RispExp, RispErr>)
    requires
        old(env).wf(),
        *whole == RispExp::List(*items),
    ensures
        final(env).wf(),
        final(env).model().cur == old(env).model().cur,
        final(env).model().scopes.len() == old(env).model().scopes.len(),
        res_model(r) == eval_def_s(fuel as nat, exp_models(items@), old(env).model()).0,
        final(env).model() == eval_def_s(fuel as nat, exp_models(items@), old(env).model()).1,
    decreases fuel, *whole, 0nat, 0nat,
{
    proof {
        lemma_exp_models(items@);
    }
    if items.len() > 3 {
        return Result::Err(RispErr::Reason("def takes exactly two forms".to_owned()));
    }
    if items.len() < 2 {
        return Result::Err(RispErr::Reason("expected ident form".to_owned()));
    }
    let name: String = match &items[1] {
        RispExp::Symbol(s) => s.clone(),
        _ => {
            return Result::Err(
                RispErr::Reason("expected ident form to be a symbol".to_owned()),
            );
        },
    };
    if items.len() < 3 {
        return Result::Err(RispErr::Reason("expected value form".to_owned()));
    }
    proof {
        assert(decreases_to!(*whole => whole->List_0));
        assert(whole->List_0 == *items);
        assert(decreases_to!(*whole => items@[2]));
    }
    match eval_limited(&items[2], env, fuel) {
        Result::Err(e) => Result::Err(e),
        Result::Ok(v) => {
            let copy = v.clone();
            env.bind(name, copy);
            Result::Ok(v)
        },
    }
}

/// The `fn` special form, exactly as `eval_fn_s` states: builds a lambda
/// from the unevaluated parameter form and body.
fn eval_lambda_args(items: &Vec<RispExp>) -> (r: Result<RispExp, RispErr>)
    ensures
        res_model(r) == eval_fn_s(exp_models(items@)),
{
    proof {
        lemma_exp_models(items@);
    }
    if items.len() < 3 {
        return Result::Err(
            RispErr::Reason("fn definition can only have two forms".to_owned()),
        );
    }
    let lam = RispLambda {
        params_exp: Box::new(items[1].clone()),
        body_exp: Box::new(items[2].clone()),
    };
    Result::Ok(RispExp::Lambda(lam))
}

/// Ordinary application, exactly as `eval_call_inner_s` states.
fn eval_call(whole: &RispExp, items: &Vec<RispExp>, env: &mut RispEnv, fuel: u64) -> (r: Result<
    RispExp,
    RispErr,
>)
    requires
        old(env).wf(),
        *whole == RispExp::List(*items),
        items@.len() > 0,
    ensures
        final(env).wf(),
        final(env).model().cur == old(env).model().cur,
        final(env).model().scopes.len() == old(env).model().scopes.len(),
        res_model(r) == eval_call_inner_s(fuel as nat, exp_models(items@), old(env).model()).0,
        final(env).model() == eval_call_inner_s(
            fuel as nat,
            exp_models(items@),
            old(env).model(),
        ).1,
    decreases fuel, *whole, 2nat, 2nat,
{
    proof {
        lemma_exp_models(items@);
        assert(decreases_to!(*whole => whole->List_0));
        assert(whole->List_0 == *items);
        assert(decreases_to!(*whole => items@[0]));
    }
    let hr = eval_limited(&items[0], env, fuel);
    match hr {
        Result::Err(e) => Result::Err(e),
        Result::Ok(h) => {
            match h {
                RispExp::Func(op) => {
                    match eval_forms(whole, items, 1, env, fuel) {
                        Result::Err(e) => Result::Err(e),
                        Result::Ok(vals) => apply_builtin(op, &vals),
                    }
                },
                RispExp::Lambda(lam) => {
                    match env_for_lambda(&*lam.params_exp, whole, items, env, fuel) {
                        Result::Err(e) => Result::Err(e),
                        Result::Ok(prev) => {
                            if fuel == 0 {
                                env.pop_scope(prev);
                                proof {
                                    assert(final(env).model().scopes
                                        =~= eval_call_inner_s(
                                        fuel as nat,
                                        exp_models(items@),
                                        old(env).model(),
                                    ).1.scopes);
                                }
                                Result::Err(
                                    RispErr::Reason("exceeded maximum call depth".to_owned()),
                                )
                            } else {
                                let br = eval_limited(&*lam.body_exp, env, fuel - 1);
                                env.pop_scope(prev);
                                match br {
                                    Result::Err(e) => Result::Err(e),
                                    Result::Ok(v) => Result::Ok(v),
                                }
                            }
                        },
                    }
                },
                _ => Result::Err(RispErr::Reason("first form must be a function".to_owned())),
            }
        },
    }
}

/// Builds the child scope for a lambda call, exactly as
/// `env_for_lambda_s` states: on success the environment is the pushed
/// child scope, and the returned index is where `pop_scope` must return
/// to afterwards.
fn env_for_lambda(
    params: &RispExp,
    whole: &RispExp,
    items: &Vec<RispExp>,
    env: &mut RispEnv,
    fuel: u64,
) -> (r: Result<usize, RispErr>)
    requires
        old(env).wf(),
        *whole == RispExp::List(*items),
        items@.len() > 0,
    ensures
        final(env).wf(),
        ({
            let (sr, senv) = env_for_lambda_s(
                fuel as nat,
                params.deep_view(),
                exp_models(items@),
                old(env).model(),
            );
            match r {
                Result::Ok(prev) => {
                    &&& sr matches Result::Ok(pushed) && final(env).model() == pushed
                    &&& prev as int == senv.cur
                    &&& final(env).model() == env_push_model(
                        senv,
                        params_names(params.deep_view())->Ok_0,
                        eval_args_s(fuel as nat, exp_models(items@), 1, old(env).model()).0->Ok_0,
                    )
                    &&& env_pop_model(final(env).model(), prev as int) == senv
                    &&& final(env).model().scopes.len() >= 2
                    &&& (prev as int) < final(env).model().scopes.len() - 1
                    &&& prev as int == old(env).model().cur
                    &&& final(env).model().scopes.len() == old(env).model().scopes.len() + 1
                },
                Result::Err(e) => {
                    &&& sr matches Result::Err(m) && m == e->Reason_0@
                    &&& final(env).model() == senv
                    &&& final(env).model().cur == old(env).model().cur
                    &&& final(env).model().scopes.len() == old(env).model().scopes.len()
                },
            }
        }),
    decreases fuel, *whole, 2nat, 1nat,
{
    proof {
        lemma_exp_models(items@);
    }
    let ks = match parse_list_of_symbol_string(params) {
        Result::Ok(ks) => ks,
        Result::Err(e) => {
            return Result::Err(e);
        },
    };
    if ks.len() != items.len() - 1 {
        let mut m = "expected ".to_owned();
        crate::exp::push_dec_u64(&mut m, ks.len() as u64);
        m.append(" arguments, got ");
        crate::exp::push_dec_u64(&mut m, (items.len() - 1) as u64);
        return Result::Err(RispErr::Reason(m));
    }
    let vals = match eval_forms(whole, items, 1, env, fuel) {
        Result::Ok(vals) => vals,
        Result::Err(e) => {
            return Result::Err(e);
        },
    };
    let prev = env.cur_index();
    let ghost senv = env.model();
    env.push_scope(ks, vals);
    proof {
        assert(env_pop_model(env.model(), prev as int).scopes =~= senv.scopes);
        assert(env_pop_model(env.model(), prev as int) == senv);
    }
    Result::Ok(prev)
}

/// Evaluates `items[i..]` left to right, exactly as `eval_args_s`
/// states, stopping at the first error.
fn eval_forms(whole: &RispExp, items: &Vec<RispExp>, i: usize, env: &mut RispEnv, fuel: u64) -> (r:
    Result<Vec<RispExp>, RispErr>)
    requires
        old(env).wf(),
        *whole == RispExp::List(*items),
    ensures
        final(env).wf(),
        ({
            let (sr, senv) = eval_args_s(fuel as nat, exp_models(items@), i as int, old(env).model());
            (match r {
                Result::Ok(vals) => sr == Result::<Seq<ExpModel>, Seq<char>>::Ok(vals.deep_view())
                    && vals@.len() == if i as int <= items@.len() {
                    items@.len() - i as int
                } else {
                    0
                },
                Result::Err(e) => sr == Result::<Seq<ExpModel>, Seq<char>>::Err(e->Reason_0@),
            }) && final(env).model() == senv
        }),
        final(env).model().cur == old(env).model().cur,
        final(env).model().scopes.len() == old(env).model().scopes.len(),
    decreases fuel, *whole, 1nat, items@.len() - i,
{
    proof {
        lemma_exp_models(items@);
    }
    if i >= items.len() {
        let empty: Vec<RispExp> = Vec::new();
        proof {
            assert(empty.deep_view() =~= Seq::<ExpModel>::empty());
        }
        return Result::Ok(empty);
    }
    proof {
        assert(decreases_to!(*whole => whole->List_0));
        assert(whole->List_0 == *items);
        assert(decreases_to!(*whole => items@[i as int]));
    }
    match eval_limited(&items[i], env, fuel) {
        Result::Err(e) => Result::Err(e),
        Result::Ok(v) => {
            match eval_forms(whole, items, i + 1, env, fuel) {
                Result::Err(e) => Result::Err(e),
                Result::Ok(mut rest) => {
                    let ghost rest_model = rest.deep_view();
                    rest.insert(0, v);
                    proof {
                        assert(rest.deep_view() =~= seq![
                            eval_s(
                                fuel as nat,
                                exp_models(items@)[i as int],
                                old(env).model(),
                            ).0->Ok_0,
                        ] + rest_model);
                    }
                    Result::Ok(rest)
                },
            }
        },
    }
}

/// Reads the parameter names from a lambda's parameter form, exactly as
/// `params_names` states: the form must be a list of symbols.
fn parse_list_of_symbol_string(params: &RispExp) -> (r: Result<Vec<String>, RispErr>)
    ensures
        match r {
            Result::Ok(ks) => params_names(params.deep_view()) == Result::<
                Seq<Seq<char>>,
                Seq<char>,
            >::Ok(ks.deep_view()),
            Result::Err(e) => params_names(params.deep_view()) == Result::<
                Seq<Seq<char>>,
                Seq<char>,
            >::Err(e->Reason_0@),
        },
{
    match params {
        RispExp::List(items) => {
            proof {
                lemma_exp_models(items@);
            }
            symbol_strings(items, 0)
        },
        _ => Result::Err(RispErr::Reason("expected args form to be a list".to_owned())),
    }
}

/// Collects the names of `items[i..]`, which must all be symbols.
fn symbol_strings(items: &Vec<RispExp>, i: usize) -> (r: Result<Vec<String>, RispErr>)
    ensures
        match r {
            Result::Ok(ks) => symbol_names(exp_models(items@), i as int) == Result::<
                Seq<Seq<char>>,
                Seq<char>,
            >::Ok(ks.deep_view()),
            Result::Err(e) => symbol_names(exp_models(items@), i as int) == Result::<
                Seq<Seq<char>>,
                Seq<char>,
            >::Err(e->Reason_0@),
        },
    decreases items@.len() - i,
{
    proof {
        lemma_exp_models(items@);
    }
    if i >= items.len() {
        let empty: Vec<String> = Vec::new();
        proof {
            assert(empty.deep_view() =~= Seq::<Seq<char>>::empty());
        }
        return Result::Ok(empty);
    }
    match &items[i] {
        RispExp::Symbol(s) => {
            match symbol_strings(items, i + 1) {
                Result::Err(e) => Result::Err(e),
                Result::Ok(mut rest) => {
                    let ghost rest_model = rest.deep_view();
                    rest.insert(0, s.clone());
                    proof {
                        assert(rest.deep_view() =~= seq![s@] + rest_model);
                    }
                    Result::Ok(rest)
                },
            }
        },
        _ => Result::Err(RispErr::Reason("expected symbols in the argument list".to_owned())),
    }
}

/// The numeric value of one argument, which must be a number.
fn parse_single_number(e: &RispExp) -> (r: Result<i64, RispErr>)
    ensures
        match r {
            Result::Ok(n) => e.deep_view() == ExpModel::Number(n as int),
            Result::Err(err) => !(e.deep_view() is Number) && err->Reason_0@
                == msg_expected_number(),
        },
{
    match e {
        RispExp::Number(n) => Result::Ok(*n),
        _ => Result::Err(RispErr::Reason("expected a number".to_owned())),
    }
}

/// The numeric values of `args[i..]`, exactly as `to_nums` states.
fn parse_list_of_numbers(args: &Vec<RispExp>, i: usize) -> (r: Result<Vec<i64>, RispErr>)
    ensures
        match r {
            Result::Ok(ns) => {
                &&& to_nums(args.deep_view(), i as int) matches Result::Ok(s)
                &&& ns@.len() == to_nums(args.deep_view(), i as int)->Ok_0.len()
                &&& forall|j: int|
                    0 <= j < ns@.len() ==> #[trigger] ns@[j] as int == to_nums(
                        args.deep_view(),
                        i as int,
                    )->Ok_0[j]
            },
            Result::Err(e) => to_nums(args.deep_view(), i as int) == Result::<
                Seq<int>,
                Seq<char>,
            >::Err(e->Reason_0@),
        },
    decreases args@.len() - i,
{
    proof {
        lemma_exp_models(args@);
        assert(args.deep_view() =~= exp_models(args@));
    }
    if i >= args.len() {
        let empty: Vec<i64> = Vec::new();
        return Result::Ok(empty);
    }
    match parse_single_number(&args[i]) {
        Result::Err(e) => Result::Err(e),
        Result::Ok(n) => {
            match parse_list_of_numbers(args, i + 1) {
                Result::Err(e) => Result::Err(e),
                Result::Ok(mut rest) => {
                    rest.insert(0, n);
                    Result::Ok(rest)
                },
            }
        },
    }
}

/// Whether one builtin comparison holds of one adjacent pair, exactly as
/// `rel_holds` states.
fn rel_exec(op: RispBuiltin, a: i64, b: i64) -> (r: bool)
    ensures
        r == rel_holds(op, a as int, b as int),
{
    match op {
        RispBuiltin::NumEq => a == b,
        RispBuiltin::Gt => a > b,
        RispBuiltin::Gte => a >= b,
        RispBuiltin::Lt => a < b,
        RispBuiltin::Lte => a <= b,
        RispBuiltin::Add => false,
        RispBuiltin::Sub => false,
    }
}

/// Sums `nums[j..]` onto `acc` left to right with checked additions,
/// exactly as `checked_sum` states.
fn sum_from(acc: i64, nums: &Vec<i64>, j: usize) -> (r: Result<i64, RispErr>)
    requires
        j <= nums@.len(),
    ensures
        ({
            let ns = nums@.map_values(|x: i64| x as int);
            match r {
                Result::Ok(s) => checked_sum(acc as int, ns, j as int) == Result::<
                    int,
                    Seq<char>,
                >::Ok(s as int),
                Result::Err(e) => checked_sum(acc as int, ns, j as int) == Result::<
                    int,
                    Seq<char>,
                >::Err(e->Reason_0@) && e->Reason_0@ == msg_overflow(),
            }
        }),
    decreases nums@.len() - j,
{
    let ghost ns = nums@.map_values(|x: i64| x as int);
    if j >= nums.len() {
        return Result::Ok(acc);
    }
    match acc.checked_add(nums[j]) {
        Option::Some(a) => sum_from(a, nums, j + 1),
        Option::None => Result::Err(RispErr::Reason("number out of range".to_owned())),
    }
}

/// Applies one builtin to evaluated argument values, exactly as
/// `apply_builtin_model` states.
pub fn apply_builtin(op: RispBuiltin, args: &Vec<RispExp>) -> (r: Result<RispExp, RispErr>)
    ensures
        res_model(r) == apply_builtin_model(op, args.deep_view()),
{
    let nums = match parse_list_of_numbers(args, 0) {
        Result::Ok(ns) => ns,
        Result::Err(e) => {
            return Result::Err(e);
        },
    };
    let ghost snums = to_nums(args.deep_view(), 0)->Ok_0;
    proof {
        assert(nums@.map_values(|x: i64| x as int) =~= snums);
    }
    match op {
        RispBuiltin::Add => {
            match sum_from(0, &nums, 0) {
                Result::Ok(s) => Result::Ok(RispExp::Number(s)),
                Result::Err(e) => Result::Err(e),
            }
        },
        RispBuiltin::Sub => {
            if nums.len() == 0 {
                return Result::Err(RispErr::Reason("expected at least one number".to_owned()));
            }
            match sum_from(0, &nums, 1) {
                Result::Err(e) => Result::Err(e),
                Result::Ok(s) => {
                    match nums[0].checked_sub(s) {
                        Option::Some(d) => Result::Ok(RispExp::Number(d)),
                        Option::None => Result::Err(
                            RispErr::Reason("number out of range".to_owned()),
                        ),
                    }
                },
            }
        },
        _ => {
            let mut holds = true;
            let mut j: usize = 0;
            while j < nums.len() && j + 1 < nums.len()
                invariant
                    j <= nums@.len(),
                    nums@.len() > 0 ==> j < nums@.len(),
                    nums@.len() == snums.len(),
                    forall|t: int| 0 <= t < nums@.len() ==> #[trigger] nums@[t] as int == snums[t],
                    !(op is Add),
                    !(op is Sub),
                    holds == (forall|t: int|
                        0 <= t < j as int ==> #[trigger] rel_holds(op, snums[t], snums[t + 1])),
                decreases nums@.len() - j,
            {
                let ok = rel_exec(op, nums[j], nums[j + 1]);
                holds = holds && ok;
                j = j + 1;
            }
            proof {
                if holds {
                    assert(chain_ok(op, snums));
                } else {
                    assert(!chain_ok(op, snums));
                }
            }
            Result::Ok(RispExp::Bool(holds))
        },
    }
}

/// Evaluation is a function of the expression and the environment alone:
/// when evaluating an expression leaves the environment unchanged,
/// evaluating it again yields the same result and leaves the environment
/// unchanged again.
pub proof fn lemma_eval_idempotent(fuel: nat, e: ExpModel, env: EnvModel)
    ensures
        ({
            let (r1, env1) = eval_s(fuel, e, env);
            env1 == env ==> eval_s(fuel, e, env1) == (r1, env1)
        }),
{
}

} // verus!
