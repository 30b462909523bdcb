//! Recursive-descent parsing of a token sequence into an expression tree.

use vstd::prelude::*;
use vstd::slice::slice_subrange;
use vstd::string::StrSliceExecFns;
use vstd::string::StringExecFns;

use crate::exp::exp_model;
use crate::exp::exp_models;
use crate::exp::lemma_exp_models;
use crate::exp::str_eq;
use crate::exp::ExpModel;
use crate::exp::RispErr;
use crate::exp::RispExp;

verus! {

/// Recursive-descent consumer of a token sequence.
pub struct RispParser {}

/// A decimal digit.
pub open spec fn is_digit(c: char) -> bool {
    '0' <= c && c <= '9'
}

/// The value of one decimal digit character.
pub open spec fn digit_val(c: char) -> int {
    (c as int) - ('0' as int)
}

/// Every character is a decimal digit.
pub open spec fn all_digits(s: Seq<char>) -> bool {
    forall|i: int| 0 <= i < s.len() ==> is_digit(#[trigger] s[i])
}

/// The value of a digit string, most significant digit first.
pub open spec fn digits_val(s: Seq<char>) -> int
    decreases s.len(),
{
    if s.len() == 0 {
        0
    } else {
        digits_val(s.drop_last()) * 10 + digit_val(s.last())
    }
}

/// A numeric token: an optional minus sign, then one or more decimal
/// digits, denoting a value that fits in a 64-bit signed integer.
pub open spec fn is_num_token(t: Seq<char>) -> bool {
    if t.len() > 0 && t[0] == '-' {
        t.len() >= 2 && all_digits(t.skip(1)) && -digits_val(t.skip(1)) >= i64::MIN
    } else {
        t.len() >= 1 && all_digits(t) && digits_val(t) <= i64::MAX
    }
}

/// The value a numeric token denotes.
pub open spec fn num_val(t: Seq<char>) -> int {
    if t.len() > 0 && t[0] == '-' {
        -digits_val(t.skip(1))
    } else {
        digits_val(t)
    }
}

/// How one atom token is classified: the literal texts `true` and
/// `false`, then numbers, then symbols.
pub open spec fn atom_of(t: Seq<char>) -> ExpModel {
    if t == "true"@ {
        ExpModel::Bool(true)
    } else if t == "false"@ {
        ExpModel::Bool(false)
    } else if is_num_token(t) {
        ExpModel::Number(num_val(t))
    } else {
        ExpModel::Symbol(t)
    }
}

/// The parenthesis depth change contributed by one token.
pub open spec fn tok_delta(t: Seq<char>) -> int {
    if t == "("@ {
        1
    } else if t == ")"@ {
        -1
    } else {
        0
    }
}

/// The total parenthesis depth change over a token sequence.
pub open spec fn depth_sum(toks: Seq<Seq<char>>) -> int
    decreases toks.len(),
{
    if toks.len() == 0 {
        0
    } else {
        depth_sum(toks.drop_last()) + tok_delta(toks.last())
    }
}

/// `n` is the first point where the depth change over a prefix reaches
/// minus one: the point where a list opened just before these tokens is
/// closed.
pub open spec fn close_prop(toks: Seq<Seq<char>>, n: int) -> bool {
    &&& 1 <= n <= toks.len()
    &&& depth_sum(toks.take(n)) == -1
    &&& forall|m: int| 1 <= m < n ==> depth_sum(#[trigger] toks.take(m)) != -1
}

/// The first closing point, where one exists.
pub open spec fn first_close(toks: Seq<Seq<char>>) -> int {
    choose|n: int| close_prop(toks, n)
}

/// How many tokens the first rendering in `toks` spans: one for an atom,
/// everything up to the matching closing parenthesis for a list.
pub open spec fn first_len(toks: Seq<Seq<char>>) -> int {
    if toks.len() > 0 && toks[0] == "("@ {
        1 + first_close(toks.skip(1))
    } else {
        1
    }
}

/// `toks` is exactly a rendering of the expression `e`: a single
/// non-parenthesis token classified as the atom `e`, or `(`, renderings
/// of the items in order, `)`.
pub open spec fn parses_to(toks: Seq<Seq<char>>, e: ExpModel) -> bool
    decreases e, 1nat,
{
    match e {
        ExpModel::List(items) => {
            &&& toks.len() >= 2
            &&& toks[0] == "("@
            &&& toks.last() == ")"@
            &&& items_parse_to(toks.subrange(1, toks.len() - 1), items)
        },
        _ => {
            &&& toks.len() == 1
            &&& toks[0] != "("@
            &&& toks[0] != ")"@
            &&& atom_of(toks[0]) == e
        },
    }
}

/// `toks` is exactly the concatenation of one rendering of each item,
/// split at the canonical boundary `first_len` gives.
pub open spec fn items_parse_to(toks: Seq<Seq<char>>, items: Seq<ExpModel>) -> bool
    decreases items, 0nat,
{
    if items.len() == 0 {
        toks.len() == 0
    } else {
        let k = first_len(toks);
        &&& 1 <= k <= toks.len()
        &&& parses_to(toks.take(k), items[0])
        &&& items_parse_to(toks.skip(k), items.drop_first())
    }
}

/// A list opened just before these tokens is closed somewhere in them:
/// some non-empty prefix brings the depth change to minus one.
pub open spec fn closes(toks: Seq<Seq<char>>) -> bool {
    exists|n: int| 1 <= n <= toks.len() && depth_sum(#[trigger] toks.take(n)) == -1
}

/// Parsing one expression from `toks` succeeds exactly on these inputs:
/// a first token exists, it is not `)`, and if it opens a list that list
/// is closed before the tokens run out.
pub open spec fn parse_ok_cond(toks: Seq<Seq<char>>) -> bool {
    &&& toks.len() > 0
    &&& toks[0] != ")"@
    &&& (toks[0] == "("@ ==> closes(toks.skip(1)))
}

/// The message given when a token was needed and the input was empty.
pub open spec fn msg_no_token() -> Seq<char> {
    "could not get token"@
}

/// The message given when `)` stood where an expression was expected.
pub open spec fn msg_unexpected_rparen() -> Seq<char> {
    "unexpected `)`"@
}

/// The message given when a list was never closed.
pub open spec fn msg_unclosed() -> Seq<char> {
    "could not find closing `)`"@
}

/// Which error message `parse` gives when it fails on `toks`.
pub open spec fn parse_err_msg(toks: Seq<Seq<char>>) -> Seq<char> {
    if toks.len() == 0 {
        msg_no_token()
    } else if toks[0] == ")"@ {
        msg_unexpected_rparen()
    } else {
        msg_unclosed()
    }
}

/// A digit string has a non-negative value.
pub proof fn lemma_digits_val_nonneg(s: Seq<char>)
    requires
        all_digits(s),
    ensures
        digits_val(s) >= 0,
    decreases s.len(),
{
    if s.len() > 0 {
        assert(all_digits(s.drop_last())) by {
            assert(forall|i: int| 0 <= i < s.len() - 1 ==> s.drop_last()[i] == s[i]);
        }
        lemma_digits_val_nonneg(s.drop_last());
    }
}

/// A digit string is worth at least any of its prefixes.
pub proof fn lemma_digits_val_mono(s: Seq<char>, j: int)
    requires
        all_digits(s),
        0 <= j <= s.len(),
    ensures
        digits_val(s.take(j)) <= digits_val(s),
    decreases s.len() - j,
{
    if j < s.len() {
        lemma_digits_val_mono(s, j + 1);
        assert(s.take(j + 1).drop_last() =~= s.take(j));
        assert(all_digits(s.take(j))) by {
            assert(forall|i: int| 0 <= i < j ==> s.take(j)[i] == s[i]);
        }
        lemma_digits_val_nonneg(s.take(j));
        assert(digits_val(s.take(j + 1)) == digits_val(s.take(j)) * 10 + digit_val(s[j]));
        assert(digits_val(s.take(j)) * 10 >= digits_val(s.take(j))) by (nonlinear_arith)
            requires
                digits_val(s.take(j)) >= 0,
        ;
    } else {
        assert(s.take(j) =~= s);
    }
}

/// Depth changes add up over concatenation.
pub proof fn lemma_depth_concat(a: Seq<Seq<char>>, b: Seq<Seq<char>>)
    ensures
        depth_sum(a + b) == depth_sum(a) + depth_sum(b),
    decreases b.len(),
{
    if b.len() == 0 {
        assert(a + b =~= a);
    } else {
        lemma_depth_concat(a, b.drop_last());
        assert((a + b).drop_last() =~= a + b.drop_last());
        assert((a + b).last() == b.last());
    }
}

/// A rendering of one expression is balanced: its total depth change is
/// zero, and no prefix's depth change ever goes negative.
pub proof fn lemma_parses_to_balanced(toks: Seq<Seq<char>>, e: ExpModel)
    requires
        parses_to(toks, e),
    ensures
        depth_sum(toks) == 0,
        forall|n: int| 0 <= n <= toks.len() ==> depth_sum(#[trigger] toks.take(n)) >= 0,
    decreases e, 0nat,
{
    match e {
        ExpModel::List(items) => {
            reveal_strlit("(");
            reveal_strlit(")");
            let interior = toks.subrange(1, toks.len() - 1);
            lemma_items_balanced(interior, items);
            let open = seq![toks[0]];
            assert(open.drop_last() =~= Seq::<Seq<char>>::empty());
            assert(depth_sum(open.drop_last()) == 0);
            assert(depth_sum(open) == depth_sum(open.drop_last()) + tok_delta(open.last()));
            assert(depth_sum(open) == 1);
            assert(toks.drop_last() =~= open + interior);
            lemma_depth_concat(open, interior);
            assert(depth_sum(toks.drop_last()) == depth_sum(open) + depth_sum(interior));
            assert(tok_delta(toks.last()) == -1);
            assert(depth_sum(toks) == depth_sum(toks.drop_last()) + tok_delta(toks.last()));
            assert(depth_sum(toks) == 0);
            assert forall|n: int| 0 <= n <= toks.len() implies depth_sum(
                #[trigger] toks.take(n),
            ) >= 0 by {
                if n == 0 {
                    assert(toks.take(0) =~= Seq::<Seq<char>>::empty());
                    assert(depth_sum(toks.take(0)) == 0);
                } else if n < toks.len() {
                    assert(toks.take(n) =~= open + interior.take(n - 1));
                    lemma_depth_concat(open, interior.take(n - 1));
                    assert(depth_sum(interior.take(n - 1)) >= 0);
                } else {
                    assert(toks.take(n) =~= toks);
                }
            }
        },
        _ => {
            assert(toks.drop_last() =~= Seq::<Seq<char>>::empty());
            assert(depth_sum(toks.drop_last()) == 0);
            assert(toks.last() == toks[0]);
            assert(tok_delta(toks[0]) == 0);
            assert(depth_sum(toks) == depth_sum(toks.drop_last()) + tok_delta(toks.last()));
            assert forall|n: int| 0 <= n <= toks.len() implies depth_sum(
                #[trigger] toks.take(n),
            ) >= 0 by {
                if n == 0 {
                    assert(toks.take(0) =~= Seq::<Seq<char>>::empty());
                    assert(depth_sum(toks.take(0)) == 0);
                } else {
                    assert(toks.take(n) =~= toks);
                }
            }
        },
    }
}

/// Renderings of a sequence of items are balanced: total depth change
/// zero, and no prefix's depth change ever goes negative.
pub proof fn lemma_items_balanced(toks: Seq<Seq<char>>, items: Seq<ExpModel>)
    requires
        items_parse_to(toks, items),
    ensures
        depth_sum(toks) == 0,
        forall|n: int| 0 <= n <= toks.len() ==> depth_sum(#[trigger] toks.take(n)) >= 0,
    decreases items, 1nat,
{
    if items.len() == 0 {
        assert(toks =~= Seq::<Seq<char>>::empty());
        assert forall|n: int| 0 <= n <= toks.len() implies depth_sum(
            #[trigger] toks.take(n),
        ) >= 0 by {
            assert(toks.take(n) =~= Seq::<Seq<char>>::empty());
            assert(depth_sum(toks.take(n)) == 0);
        }
    } else {
        let k = first_len(toks);
        lemma_parses_to_balanced(toks.take(k), items[0]);
        lemma_items_balanced(toks.skip(k), items.drop_first());
        assert(toks =~= toks.take(k) + toks.skip(k));
        lemma_depth_concat(toks.take(k), toks.skip(k));
        assert(depth_sum(toks) == 0);
        assert forall|n: int| 0 <= n <= toks.len() implies depth_sum(
            #[trigger] toks.take(n),
        ) >= 0 by {
            if n <= k {
                assert(toks.take(n) =~= toks.take(k).take(n));
                assert(depth_sum(toks.take(k).take(n)) >= 0);
            } else {
                assert(toks.take(n) =~= toks.take(k) + toks.skip(k).take(n - k));
                lemma_depth_concat(toks.take(k), toks.skip(k).take(n - k));
                assert(depth_sum(toks.skip(k).take(n - k)) >= 0);
            }
        }
    }
}

/// Prefix depth changes move by single steps, so on the way below any
/// non-positive level `t` some prefix meets `t` exactly.
pub proof fn lemma_depth_first_hit(toks: Seq<Seq<char>>, n: int, t: int)
    requires
        0 <= n <= toks.len(),
        depth_sum(toks.take(n)) < t,
        t <= 0,
    ensures
        exists|m: int| 0 <= m <= n && depth_sum(#[trigger] toks.take(m)) == t,
    decreases n,
{
    assert(toks.take(0) =~= Seq::<Seq<char>>::empty());
    assert(depth_sum(toks.take(0)) == 0);
    if depth_sum(toks.take(n - 1)) < t {
        lemma_depth_first_hit(toks, n - 1, t);
        let m = choose|m: int| 0 <= m <= n - 1 && depth_sum(#[trigger] toks.take(m)) == t;
        assert(0 <= m <= n && depth_sum(toks.take(m)) == t);
    } else {
        assert(toks.take(n).drop_last() =~= toks.take(n - 1));
        assert(toks.take(n).last() == toks[n - 1]);
        assert(depth_sum(toks.take(n)) == depth_sum(toks.take(n - 1)) + tok_delta(toks[n - 1]));
        assert(depth_sum(toks.take(n - 1)) == t);
    }
}

/// At most one point can be the first closing point.
pub proof fn lemma_close_prop_unique(toks: Seq<Seq<char>>, n1: int, n2: int)
    requires
        close_prop(toks, n1),
        close_prop(toks, n2),
    ensures
        n1 == n2,
{
    if n1 < n2 {
        assert(depth_sum(toks.take(n1)) != -1);
    }
    if n2 < n1 {
        assert(depth_sum(toks.take(n2)) != -1);
    }
}

/// A rendering of one expression spans exactly `first_len` tokens,
/// whatever follows it.
pub proof fn lemma_first_len_of_rendering(c: Seq<Seq<char>>, e: ExpModel, rest: Seq<Seq<char>>)
    requires
        parses_to(c, e),
    ensures
        first_len(c + rest) == c.len(),
    decreases e,
{
    let toks = c + rest;
    assert(toks.len() >= c.len());
    match e {
        ExpModel::List(items) => {
            reveal_strlit("(");
            reveal_strlit(")");
            assert(toks[0] == "("@);
            let inner = toks.skip(1);
            let interior = c.subrange(1, c.len() - 1);
            lemma_items_balanced(interior, items);
            let n0 = c.len() - 1;
            assert(inner.take(n0) =~= interior + seq![c.last()]);
            lemma_depth_concat(interior, seq![c.last()]);
            assert(seq![c.last()].drop_last() =~= Seq::<Seq<char>>::empty());
            assert(depth_sum(seq![c.last()].drop_last()) == 0);
            assert(seq![c.last()].last() == c.last());
            assert(tok_delta(c.last()) == -1);
            assert(depth_sum(seq![c.last()]) == depth_sum(seq![c.last()].drop_last()) + tok_delta(
                c.last(),
            ));
            assert(depth_sum(inner.take(n0)) == depth_sum(interior) + depth_sum(seq![c.last()]));
            assert(depth_sum(inner.take(n0)) == -1);
            assert forall|m: int| 1 <= m < n0 implies depth_sum(#[trigger] inner.take(m)) != -1 by {
                assert(inner.take(m) =~= interior.take(m));
                assert(depth_sum(interior.take(m)) >= 0);
            }
            assert(close_prop(inner, n0));
            let picked = first_close(inner);
            assert(close_prop(inner, picked));
            lemma_close_prop_unique(inner, picked, n0);
        },
        _ => {
            assert(toks[0] == c[0]);
            assert(toks[0] != "("@);
        },
    }
}

/// One more rendering appended on the right extends a rendering of a
/// sequence of items.
pub proof fn lemma_items_parse_to_push(
    a: Seq<Seq<char>>,
    b: Seq<Seq<char>>,
    items: Seq<ExpModel>,
    e: ExpModel,
)
    requires
        items_parse_to(a, items),
        parses_to(b, e),
    ensures
        items_parse_to(a + b, items.push(e)),
    decreases items.len(),
{
    if items.len() == 0 {
        assert(a =~= Seq::<Seq<char>>::empty());
        assert(a + b =~= b + Seq::<Seq<char>>::empty());
        lemma_first_len_of_rendering(b, e, Seq::<Seq<char>>::empty());
        let k = first_len(a + b);
        assert(k == b.len());
        assert(b.len() >= 1);
        assert((a + b).take(k) =~= b);
        assert((a + b).skip(k) =~= Seq::<Seq<char>>::empty());
        assert(items.push(e).drop_first() =~= Seq::<ExpModel>::empty());
        assert(items.push(e)[0] == e);
        assert(items_parse_to((a + b).skip(k), items.push(e).drop_first()));
        assert(items_parse_to(a + b, items.push(e)));
    } else {
        let k = first_len(a);
        assert(1 <= k <= a.len());
        assert(parses_to(a.take(k), items[0]));
        assert(items_parse_to(a.skip(k), items.drop_first()));
        lemma_items_parse_to_push(a.skip(k), b, items.drop_first(), e);
        assert(a + b =~= a.take(k) + (a.skip(k) + b));
        lemma_first_len_of_rendering(a.take(k), items[0], a.skip(k) + b);
        assert(first_len(a + b) == k);
        assert((a + b).take(k) =~= a.take(k));
        assert((a + b).skip(k) =~= a.skip(k) + b);
        assert(items.push(e).drop_first() =~= items.drop_first().push(e));
        assert(items.push(e)[0] == items[0]);
        assert(items_parse_to(a + b, items.push(e)));
    }
}

impl RispParser {
    /// Parses one expression from the front of `tokens` and returns it
    /// with the unconsumed remainder.  Succeeds exactly when
    /// `parse_ok_cond` holds of the tokens; the consumed prefix is then
    /// exactly a rendering of the returned expression.  On failure the
    /// error message names the first of the three parse errors that
    /// applies, as `parse_err_msg` states.
    pub fn parse<'a>(tokens: &'a [String]) -> (r: Result<(RispExp, &'a [String]), RispErr>)
        ensures
            match r {
                Result::Ok(pair) => {
                    let consumed = tokens.deep_view().len() - pair.1.deep_view().len();
                    &&& parse_ok_cond(tokens.deep_view())
                    &&& 0 < consumed <= tokens.deep_view().len()
                    &&& pair.1.deep_view() == tokens.deep_view().skip(consumed)
                    &&& parses_to(tokens.deep_view().take(consumed), pair.0.deep_view())
                },
                Result::Err(err) => {
                    &&& !parse_ok_cond(tokens.deep_view())
                    &&& err->Reason_0@ == parse_err_msg(tokens.deep_view())
                },
            },
    {
        let ghost deep = tokens.deep_view();
        proof {
            assert(deep.skip(0) =~= deep);
        }
        match Self::parse_at(tokens, 0) {
            Result::Ok((e, np)) => {
                let rest = slice_subrange(tokens, np, tokens.len());
                proof {
                    assert(rest.deep_view() =~= deep.skip(np as int));
                    assert(deep.take(np as int) =~= deep.skip(0).take(np as int));
                }
                Result::Ok((e, rest))
            },
            Result::Err(err) => Result::Err(err),
        }
    }

    /// Parses one expression beginning at `pos`; returns it and the
    /// position just past it.
    fn parse_at(tokens: &[String], pos: usize) -> (r: Result<(RispExp, usize), RispErr>)
        requires
            pos <= tokens.deep_view().len(),
        ensures
            match r {
                Result::Ok(pair) => {
                    &&& pos < pair.1 <= tokens.deep_view().len()
                    &&& parse_ok_cond(tokens.deep_view().skip(pos as int))
                    &&& parses_to(
                        tokens.deep_view().skip(pos as int).take(pair.1 - pos),
                        pair.0.deep_view(),
                    )
                },
                Result::Err(err) => {
                    &&& !parse_ok_cond(tokens.deep_view().skip(pos as int))
                    &&& err->Reason_0@ == parse_err_msg(tokens.deep_view().skip(pos as int))
                },
            },
        decreases tokens.deep_view().len() - pos, 0nat,
    {
        let ghost deep = tokens.deep_view();
        let ghost toks = deep.skip(pos as int);
        if pos >= tokens.len() {
            proof {
                assert(toks.len() == 0);
            }
            return Result::Err(RispErr::Reason("could not get token".to_owned()));
        }
        let t = &tokens[pos];
        proof {
            assert(toks[0] == deep[pos as int]);
            assert(t@ == deep[pos as int]);
        }
        if str_eq(t.as_str(), ")") {
            return Result::Err(RispErr::Reason("unexpected `)`".to_owned()));
        }
        if str_eq(t.as_str(), "(") {
            match Self::read_req(tokens, pos + 1) {
                Result::Ok((items, np)) => {
                    let e = RispExp::List(items);
                    proof {
                        let inner = deep.skip(pos + 1);
                        let consumed = toks.take(np - pos);
                        assert(consumed[0] == toks[0]);
                        assert(consumed.last() == inner[np - pos - 2]);
                        assert(consumed.subrange(1, consumed.len() - 1) =~= inner.take(
                            np - pos - 2,
                        ));
                        lemma_exp_models(items@);
                        assert(items.deep_view() =~= exp_models(items@));
                        assert(e.deep_view() == ExpModel::List(exp_models(items@)));
                        assert(parses_to(consumed, e.deep_view()));
                        assert(toks.skip(1) =~= inner);
                        assert(parse_ok_cond(toks));
                    }
                    Result::Ok((e, np))
                },
                Result::Err(err) => {
                    proof {
                        assert(toks.skip(1) =~= deep.skip(pos + 1));
                    }
                    Result::Err(err)
                },
            }
        } else {
            let e = Self::parse_atom(t.as_str());
            proof {
                assert(toks.take(1) =~= seq![toks[0]]);
                assert(parses_to(toks.take(1), e.deep_view()));
            }
            Result::Ok((e, pos + 1))
        }
    }

    /// Reads list items beginning at `pos` (just after an opening
    /// parenthesis) until the matching closing parenthesis, which is
    /// consumed; returns the items and the position just past it.
    fn read_req(tokens: &[String], pos: usize) -> (r: Result<(Vec<RispExp>, usize), RispErr>)
        requires
            pos <= tokens.deep_view().len(),
        ensures
            match r {
                Result::Ok(pair) => {
                    &&& pos < pair.1 <= tokens.deep_view().len()
                    &&& tokens.deep_view()[pair.1 - 1] == ")"@
                    &&& items_parse_to(
                        tokens.deep_view().skip(pos as int).take(pair.1 - pos - 1),
                        pair.0.deep_view(),
                    )
                    &&& depth_sum(tokens.deep_view().skip(pos as int).take(pair.1 - pos)) == -1
                    &&& closes(tokens.deep_view().skip(pos as int))
                },
                Result::Err(err) => {
                    &&& !closes(tokens.deep_view().skip(pos as int))
                    &&& err->Reason_0@ == msg_unclosed()
                },
            },
        decreases tokens.deep_view().len() - pos, 1nat,
    {
        let ghost deep = tokens.deep_view();
        let ghost toks = deep.skip(pos as int);
        let mut res: Vec<RispExp> = Vec::new();
        let mut p: usize = pos;
        proof {
            reveal_strlit("(");
            reveal_strlit(")");
            assert(toks.take(0) =~= Seq::<Seq<char>>::empty());
            assert(res.deep_view() =~= Seq::<ExpModel>::empty());
        }
        loop
            invariant
                deep == tokens.deep_view(),
                toks == deep.skip(pos as int),
                pos <= p <= deep.len(),
                items_parse_to(toks.take(p - pos), res.deep_view()),
                depth_sum(toks.take(p - pos)) == 0,
                forall|j: int|
                    0 <= j <= p - pos ==> depth_sum(#[trigger] toks.take(j)) >= 0,
            decreases deep.len() - p,
        {
            proof {
                reveal_strlit("(");
                reveal_strlit(")");
            }
            if p >= tokens.len() {
                proof {
                    assert forall|n: int| 1 <= n <= toks.len() implies depth_sum(
                        #[trigger] toks.take(n),
                    ) != -1 by {
                        assert(depth_sum(toks.take(n)) >= 0);
                    }
                }
                return Result::Err(
                    RispErr::Reason("could not find closing `)`".to_owned()),
                );
            }
            let t = &tokens[p];
            proof {
                assert(t@ == deep[p as int]);
                assert(toks[p - pos] == deep[p as int]);
            }
            if str_eq(t.as_str(), ")") {
                proof {
                    reveal_strlit("(");
                    reveal_strlit(")");
                    assert(toks.take(p - pos + 1).drop_last() =~= toks.take(p - pos));
                    assert(toks.take(p - pos + 1).last() == toks[p - pos]);
                    assert(toks[p - pos] == ")"@);
                    assert("("@.len() == 1 && "("@[0] == '(');
                    assert(")"@.len() == 1 && ")"@[0] == ')');
                    assert(")"@ != "("@);
                    assert(tok_delta(toks[p - pos]) == -1);
                    assert(depth_sum(toks.take(p - pos + 1)) == -1);
                    assert(closes(toks));
                }
                return Result::Ok((res, p + 1));
            }
            match Self::parse_at(tokens, p) {
                Result::Ok((exp, np)) => {
                    let ghost sub = deep.skip(p as int);
                    let ghost piece = sub.take(np - p);
                    proof {
                        lemma_parses_to_balanced(piece, exp.deep_view());
                        lemma_items_parse_to_push(
                            toks.take(p - pos),
                            piece,
                            res.deep_view(),
                            exp.deep_view(),
                        );
                        assert(toks.take(np - pos) =~= toks.take(p - pos) + piece);
                        lemma_depth_concat(toks.take(p - pos), piece);
                        assert(res.deep_view().push(exp.deep_view()) =~= res.deep_view().push(
                            exp.deep_view(),
                        ));
                        assert forall|j: int|
                            0 <= j <= np - pos implies depth_sum(#[trigger] toks.take(j)) >= 0 by {
                            if j > p - pos {
                                assert(toks.take(j) =~= toks.take(p - pos) + piece.take(
                                    j - (p - pos),
                                ));
                                lemma_depth_concat(toks.take(p - pos), piece.take(j - (p - pos)));
                                assert(depth_sum(piece.take(j - (p - pos))) >= 0);
                            }
                        }
                    }
                    let ghost old_res = res.deep_view();
                    res.push(exp);
                    proof {
                        assert(res.deep_view() =~= old_res.push(exp.deep_view()));
                        assert(items_parse_to(toks.take(np - pos), res.deep_view()));
                    }
                    p = np;
                },
                Result::Err(err) => {
                    proof {
                        let sub = deep.skip(p as int);
                        assert(sub.len() > 0);
                        assert(sub[0] == toks[p - pos]);
                        assert(sub[0] != ")"@);
                        assert(sub[0] == "("@);
                        let inner = sub.skip(1);
                        assert(inner =~= deep.skip(p + 1));
                        assert(!closes(inner));
                        assert forall|n: int| 1 <= n <= toks.len() implies depth_sum(
                            #[trigger] toks.take(n),
                        ) != -1 by {
                            let q = p - pos;
                            if n <= q {
                                assert(depth_sum(toks.take(n)) >= 0);
                            } else if n == q + 1 {
                                assert(toks.take(n).drop_last() =~= toks.take(q));
                                assert(toks.take(n).last() == toks[q]);
                                assert(depth_sum(toks.take(n)) == 1);
                            } else {
                                assert(toks.take(q + 1).drop_last() =~= toks.take(q));
                                assert(toks.take(q + 1).last() == toks[q]);
                                assert(depth_sum(toks.take(q + 1)) == 1);
                                assert(toks.take(n) =~= toks.take(q + 1) + inner.take(n - q - 1));
                                lemma_depth_concat(toks.take(q + 1), inner.take(n - q - 1));
                                if depth_sum(toks.take(n)) == -1 {
                                    assert(depth_sum(inner.take(n - q - 1)) == -2);
                                    lemma_depth_first_hit(inner, n - q - 1, -1);
                                    let m = choose|m: int|
                                        0 <= m <= n - q - 1 && depth_sum(
                                            #[trigger] inner.take(m),
                                        ) == -1;
                                    assert(inner.take(0) =~= Seq::<Seq<char>>::empty());
                                    assert(depth_sum(inner.take(0)) == 0);
                                    assert(m >= 1);
                                    assert(closes(inner));
                                }
                            }
                        }
                        assert(!closes(toks));
                    }
                    return Result::Err(err);
                },
            }
        }
    }

    /// Classifies one atom token, exactly as `atom_of` states: the texts
    /// `true` and `false` are booleans, an optional minus sign followed by
    /// decimal digits denoting a value that fits in 64 signed bits is a
    /// number, and anything else is a symbol.
    pub fn parse_atom(token: &str) -> (e: RispExp)
        ensures
            e.deep_view() == atom_of(token@),
            !(e.deep_view() is List),
    {
        if str_eq(token, "true") {
            return RispExp::Bool(true);
        }
        if str_eq(token, "false") {
            return RispExp::Bool(false);
        }
        let n = token.unicode_len();
        let neg = n >= 1 && token.get_char(0) == '-';
        let start: usize = if neg {
            1
        } else {
            0
        };
        let ghost digits = token@.skip(start as int);
        if start >= n {
            // Empty digit part: `-` alone or an empty token is a symbol.
            return RispExp::Symbol(token.to_owned());
        }
        let mut acc: i64 = 0;
        let mut i: usize = start;
        while i < n
            invariant
                token@ != "true"@,
                token@ != "false"@,
                n == token@.len(),
                start <= i <= n,
                start <= 1,
                n > start,
                neg ==> start == 1 && token@[0] == '-',
                !neg ==> start == 0 && token@[0] != '-',
                digits == token@.skip(start as int),
                all_digits(digits.take(i - start)),
                acc <= 0,
                acc as int == -digits_val(digits.take(i - start)),
            decreases n - i,
        {
            let c = token.get_char(i);
            if !(c >= '0' && c <= '9') {
                // A non-digit character: the token is a symbol.
                proof {
                    assert(digits[i - start] == c);
                    assert(!is_digit(c));
                    assert(!all_digits(digits));
                    if neg {
                        assert(digits =~= token@.skip(1));
                    } else {
                        assert(digits =~= token@);
                    }
                    assert(!is_num_token(token@));
                }
                return RispExp::Symbol(token.to_owned());
            }
            let d: i64 = (c as u32 - 48) as i64;
            proof {
                assert(d as int == digit_val(c));
                assert(0 <= d <= 9);
            }
            let next = match acc.checked_mul(10) {
                Option::Some(x) => x.checked_sub(d),
                Option::None => Option::None,
            };
            proof {
                assert(digits.take(i - start + 1).drop_last() =~= digits.take(i - start));
                assert(digits.take(i - start + 1).last() == digits[i - start]);
                assert(digits[i - start] == c);
                assert(all_digits(digits.take(i - start + 1)));
            }
            match next {
                Option::Some(a) => {
                    acc = a;
                },
                Option::None => {
                    // The value no longer fits in 64 signed bits: symbol.
                    proof {
                        let pre = digits.take(i - start + 1);
                        assert(digits_val(pre) > 0x8000000000000000int);
                        if all_digits(digits) {
                            lemma_digits_val_mono(digits, i - start + 1);
                        }
                        if neg {
                            assert(digits =~= token@.skip(1));
                        } else {
                            assert(digits =~= token@);
                        }
                        assert(!is_num_token(token@));
                    }
                    return RispExp::Symbol(token.to_owned());
                },
            }
            i = i + 1;
        }
        proof {
            assert(digits.take(n - start) =~= digits);
        }
        if neg {
            proof {
                assert(token@.skip(1) =~= digits);
                assert(is_num_token(token@));
                assert(num_val(token@) == acc as int);
            }
            return RispExp::Number(acc);
        }
        if acc == i64::MIN {
            // The magnitude is one past the largest positive value.
            proof {
                assert(digits =~= token@);
                assert(!is_num_token(token@));
            }
            return RispExp::Symbol(token.to_owned());
        }
        proof {
            assert(digits =~= token@);
            assert(is_num_token(token@));
            assert(num_val(token@) == -(acc as int));
        }
        RispExp::Number(-acc)
    }
}

} // verus!
