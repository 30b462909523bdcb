//! The expression type shared by the parser and the evaluator, together
//! with its mathematical model.

use vstd::prelude::*;
use vstd::string::StringExecFns;

verus! {

/// The primitive numeric and comparison functions of the default
/// environment.  Each value names one fixed builtin; the evaluator
/// dispatches on it when a list's head evaluates to `RispExp::Func`.
#[derive(Clone, Copy, PartialEq, Eq, Structural)]
pub enum RispBuiltin {
    /// `+`: the sum of all arguments; no arguments sum to 0.
    Add,
    /// `-`: the first argument minus the sum of the rest.
    Sub,
    /// `=`: equality holds between every adjacent pair of arguments.
    NumEq,
    /// `>`: strictly decreasing across adjacent pairs.
    Gt,
    /// `>=`: non-increasing across adjacent pairs.
    Gte,
    /// `<`: strictly increasing across adjacent pairs.
    Lt,
    /// `<=`: non-decreasing across adjacent pairs.
    Lte,
}

/// An s-expression: both the syntax tree produced by the parser and the
/// value domain of the evaluator.
pub enum RispExp {
    /// An identifier, resolved against an environment when evaluated.
    Symbol(String),
    /// A boolean literal.
    Bool(bool),
    /// A number: a 64-bit signed integer.
    Number(i64),
    /// An ordered sequence of expressions; the sole compound form.
    List(Vec<RispExp>),
    /// A builtin primitive function.
    Func(RispBuiltin),
    /// A user-defined function built by the `fn` special form.
    Lambda(RispLambda),
}

/// A user-defined function: an unevaluated parameter list and an
/// unevaluated body, both validated only when the lambda is called.
pub struct RispLambda {
    pub params_exp: Box<RispExp>,
    pub body_exp: Box<RispExp>,
}

/// The single error kind: a human-readable message.
#[derive(Debug)]
pub enum RispErr {
    Reason(String),
}

/// The mathematical model of an expression: strings become sequences of
/// characters and machine integers become unbounded integers.  Every
/// contract of this crate speaks of expressions through this model.
pub enum ExpModel {
    Symbol(Seq<char>),
    Bool(bool),
    Number(int),
    List(Seq<ExpModel>),
    Func(RispBuiltin),
    Lambda(Box<ExpModel>, Box<ExpModel>),
}

/// The model of an expression.
pub open spec fn exp_model(e: RispExp) -> ExpModel
    decreases e,
{
    match e {
        RispExp::Symbol(s) => ExpModel::Symbol(s@),
        RispExp::Bool(b) => ExpModel::Bool(b),
        RispExp::Number(n) => ExpModel::Number(n as int),
        RispExp::List(items) => ExpModel::List(exp_models(items@)),
        RispExp::Lambda(l) => ExpModel::Lambda(
            Box::new(exp_model(*l.params_exp)),
            Box::new(exp_model(*l.body_exp)),
        ),
        RispExp::Func(op) => ExpModel::Func(op),
    }
}

/// The models of a sequence of expressions, in order.
pub open spec fn exp_models(items: Seq<RispExp>) -> Seq<ExpModel>
    decreases items,
{
    if items.len() == 0 {
        Seq::empty()
    } else {
        seq![exp_model(items[0])] + exp_models(items.drop_first())
    }
}

/// `exp_models` maps each element to its model.
pub proof fn lemma_exp_models(items: Seq<RispExp>)
    ensures
        exp_models(items).len() == items.len(),
        forall|i: int| 0 <= i < items.len() ==> exp_models(items)[i] == exp_model(items[i]),
    decreases items.len(),
{
    if items.len() > 0 {
        lemma_exp_models(items.drop_first());
    }
}

/// Two element-wise equal sequences of expressions have equal models.
pub proof fn lemma_exp_models_pointwise(a: Seq<RispExp>, b: Seq<RispExp>)
    requires
        a.len() == b.len(),
        forall|i: int| 0 <= i < a.len() ==> exp_model(a[i]) == exp_model(b[i]),
    ensures
        exp_models(a) == exp_models(b),
    decreases a.len(),
{
    if a.len() > 0 {
        lemma_exp_models_pointwise(a.drop_first(), b.drop_first());
        assert(exp_models(a) =~= exp_models(b));
    }
}

impl DeepView for RispExp {
    type V = ExpModel;

    open spec fn deep_view(&self) -> ExpModel {
        exp_model(*self)
    }
}

impl Clone for RispExp {
    /// A clone has the same model as the original.
    fn clone(&self) -> (r: Self)
        ensures
            r.deep_view() == self.deep_view(),
    {
        clone_exp(self)
    }
}

impl Clone for RispLambda {
    /// A clone has the same model as the original.
    fn clone(&self) -> (r: Self)
        ensures
            exp_model(RispExp::Lambda(r)) == exp_model(RispExp::Lambda(*self)),
    {
        RispLambda {
            params_exp: Box::new(clone_exp(&*self.params_exp)),
            body_exp: Box::new(clone_exp(&*self.body_exp)),
        }
    }
}

/// Structural copy of an expression; the copy has the same model.
pub fn clone_exp(e: &RispExp) -> (r: RispExp)
    ensures
        r.deep_view() == e.deep_view(),
    decreases *e,
{
    match e {
        RispExp::Symbol(s) => RispExp::Symbol(s.clone()),
        RispExp::Bool(b) => RispExp::Bool(*b),
        RispExp::Number(n) => RispExp::Number(*n),
        RispExp::List(items) => {
            let mut out: Vec<RispExp> = Vec::new();
            let mut i: usize = 0;
            while i < items.len()
                invariant
                    *e == RispExp::List(*items),
                    i <= items.len(),
                    out@.len() == i as int,
                    forall|j: int|
                        0 <= j < i as int ==> exp_model(out@[j]) == exp_model(items@[j]),
                decreases items.len() - i,
            {
                proof {
                    assert(decreases_to!(*e => e->List_0));
                    assert(e->List_0 == *items);
                    assert(decreases_to!(*e => items@[i as int]));
                }
                let c = clone_exp(&items[i]);
                out.push(c);
                i = i + 1;
            }
            proof {
                lemma_exp_models_pointwise(out@, items@);
            }
            RispExp::List(out)
        },
        RispExp::Func(op) => RispExp::Func(*op),
        RispExp::Lambda(l) => RispExp::Lambda(RispLambda {
            params_exp: Box::new(clone_exp(&*l.params_exp)),
            body_exp: Box::new(clone_exp(&*l.body_exp)),
        }),
    }
}

/// The character for one decimal digit.
pub open spec fn digit_char(d: int) -> char {
    if d == 0 {
        '0'
    } else if d == 1 {
        '1'
    } else if d == 2 {
        '2'
    } else if d == 3 {
        '3'
    } else if d == 4 {
        '4'
    } else if d == 5 {
        '5'
    } else if d == 6 {
        '6'
    } else if d == 7 {
        '7'
    } else if d == 8 {
        '8'
    } else {
        '9'
    }
}

/// The decimal digits of a non-negative integer, most significant first.
pub open spec fn dec_digits(n: int) -> Seq<char>
    decreases n,
{
    if n < 10 {
        seq![digit_char(n)]
    } else {
        dec_digits(n / 10).push(digit_char(n % 10))
    }
}

/// The decimal form of an integer: a minus sign for negative values,
/// then the digits of its magnitude.
pub open spec fn dec_int(n: int) -> Seq<char> {
    if n >= 0 {
        dec_digits(n)
    } else {
        seq!['-'] + dec_digits(-n)
    }
}

/// The textual rendering of an expression: a symbol renders as its name,
/// booleans as `true`/`false`, a number in decimal, a list as `(` plus the
/// comma-joined renderings of its items plus `)`, and functions as opaque
/// placeholders.
pub open spec fn render_model(e: ExpModel) -> Seq<char>
    decreases e,
{
    match e {
        ExpModel::Symbol(s) => s,
        ExpModel::Bool(b) => if b {
            "true"@
        } else {
            "false"@
        },
        ExpModel::Number(n) => dec_int(n),
        ExpModel::List(items) => seq!['('] + render_items(items) + seq![')'],
        ExpModel::Func(_) => "Function {}"@,
        ExpModel::Lambda(_, _) => "Lambda {}"@,
    }
}

/// The renderings of a sequence of expressions, joined with commas.
pub open spec fn render_items(items: Seq<ExpModel>) -> Seq<char>
    decreases items,
{
    if items.len() == 0 {
        Seq::empty()
    } else if items.len() == 1 {
        render_model(items[0])
    } else {
        render_model(items[0]) + seq![','] + render_items(items.drop_first())
    }
}

/// Relies on `str`'s `==`: true exactly when the two character
/// sequences are equal.
#[verifier::external_body]
pub(crate) fn str_eq(a: &str, b: &str) -> (r: bool)
    ensures
        r == (a@ == b@),
{
    a == b
}

/// Relies on `String::push`: appends exactly the one given character.
#[verifier::external_body]
pub(crate) fn push_char(s: &mut String, c: char)
    ensures
        final(s)@ == old(s)@.push(c),
{
    s.push(c);
}

/// Appends the decimal digits of `n` to `out`.
pub(crate) fn push_dec_u64(out: &mut String, n: u64)
    ensures
        final(out)@ == old(out)@ + dec_digits(n as int),
    decreases n,
{
    if n < 10 {
        push_char(out, digit_char_exec(n));
        proof {
            assert(out@ =~= old(out)@ + dec_digits(n as int));
        }
    } else {
        push_dec_u64(out, n / 10);
        push_char(out, digit_char_exec(n % 10));
        proof {
            assert(out@ =~= old(out)@ + dec_digits(n as int));
        }
    }
}

/// The character for one decimal digit, executable form.
fn digit_char_exec(d: u64) -> (c: char)
    requires
        d < 10,
    ensures
        c == digit_char(d as int),
{
    if d == 0 {
        '0'
    } else if d == 1 {
        '1'
    } else if d == 2 {
        '2'
    } else if d == 3 {
        '3'
    } else if d == 4 {
        '4'
    } else if d == 5 {
        '5'
    } else if d == 6 {
        '6'
    } else if d == 7 {
        '7'
    } else if d == 8 {
        '8'
    } else {
        '9'
    }
}

/// Appends the decimal form of `n` to `out`.
fn push_dec_i64(out: &mut String, n: i64)
    ensures
        final(out)@ == old(out)@ + dec_int(n as int),
{
    if n >= 0 {
        push_dec_u64(out, n as u64);
    } else {
        push_char(out, '-');
        let mag: u64 = (-(n as i128)) as u64;
        proof {
            assert(mag as int == -(n as int));
        }
        push_dec_u64(out, mag);
        proof {
            assert(out@ =~= old(out)@ + dec_int(n as int));
        }
    }
}

impl RispExp {
    /// The textual rendering of this expression, as `render_model` states.
    pub fn to_text(&self) -> (r: String)
        ensures
            r@ == render_model(self.deep_view()),
    {
        let mut out = String::new();
        write_text(self, &mut out);
        proof {
            assert(out@ =~= render_model(self.deep_view()));
        }
        out
    }
}

/// Appends the rendering of `e` to `out`.
fn write_text(e: &RispExp, out: &mut String)
    ensures
        final(out)@ == old(out)@ + render_model(e.deep_view()),
    decreases *e, 1nat, 0nat,
{
    match e {
        RispExp::Symbol(s) => {
            out.append(s.as_str());
        },
        RispExp::Bool(b) => {
            if *b {
                out.append("true");
            } else {
                out.append("false");
            }
        },
        RispExp::Number(n) => {
            push_dec_i64(out, *n);
        },
        RispExp::List(items) => {
            push_char(out, '(');
            proof {
                assert(decreases_to!(*e => e->List_0));
                assert(e->List_0 == *items);
            }
            write_items(e, items, 0, out);
            push_char(out, ')');
            proof {
                lemma_exp_models(items@);
                assert(exp_models(items@).skip(0) =~= exp_models(items@));
                assert(out@ =~= old(out)@ + render_model(e.deep_view()));
            }
        },
        RispExp::Func(_) => {
            out.append("Function {}");
        },
        RispExp::Lambda(_) => {
            out.append("Lambda {}");
        },
    }
}

/// Appends the comma-joined renderings of `items[i..]` to `out`.
/// `whole` is the list expression that owns `items`; it only bounds the
/// recursion.
fn write_items(whole: &RispExp, items: &Vec<RispExp>, i: usize, out: &mut String)
    requires
        *whole == RispExp::List(*items),
        i <= items@.len(),
    ensures
        final(out)@ == old(out)@ + render_items(exp_models(items@).skip(i as int)),
    decreases *whole, 0nat, items@.len() - i,
{
    proof {
        lemma_exp_models(items@);
    }
    if i < items.len() {
        proof {
            assert(decreases_to!(*whole => whole->List_0));
            assert(whole->List_0 == *items);
            assert(decreases_to!(*whole => items@[i as int]));
        }
        write_text(&items[i], out);
        if i + 1 < items.len() {
            push_char(out, ',');
        }
        write_items(whole, items, i + 1, out);
        proof {
            let ms = exp_models(items@);
            assert(ms.skip(i as int).drop_first() =~= ms.skip(i as int + 1));
            assert(ms.skip(i as int)[0] == ms[i as int]);
            assert(out@ =~= old(out)@ + render_items(ms.skip(i as int)));
        }
    } else {
        proof {
            assert(exp_models(items@).skip(i as int) =~= Seq::<ExpModel>::empty());
            assert(out@ =~= old(out)@ + render_items(exp_models(items@).skip(i as int)));
        }
    }
}

} // verus!
