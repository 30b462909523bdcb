//! Splitting source text into a flat sequence of token strings.

use vstd::prelude::*;
use vstd::string::StrSliceExecFns;

use crate::exp::push_char;

verus! {

/// Splits source text into parenthesis tokens and atom tokens.
pub struct RispTokenizer {}

/// Whether `c` counts as whitespace; names the result of
/// `char::is_whitespace`, which depends on the character alone.
pub uninterp spec fn is_unicode_space(c: char) -> bool;

/// Relies on `char::is_whitespace`: true exactly for the characters with
/// the Unicode white-space property.
#[verifier::external_body]
fn char_is_space(c: char) -> (r: bool)
    ensures
        r == is_unicode_space(c),
{
    c.is_whitespace()
}

/// A pending atom as its own token, if any characters were gathered.
pub open spec fn flush_atom(cur: Seq<char>) -> Seq<Seq<char>> {
    if cur.len() > 0 {
        seq![cur]
    } else {
        Seq::empty()
    }
}

/// The tokens of `s` when the characters in `cur` have already been read
/// as the beginning of an atom: each parenthesis is a token of its own,
/// and maximal runs of the remaining non-whitespace characters are atom
/// tokens.
pub open spec fn tokens_from(s: Seq<char>, cur: Seq<char>) -> Seq<Seq<char>>
    decreases s.len(),
{
    if s.len() == 0 {
        flush_atom(cur)
    } else if s[0] == '(' || s[0] == ')' {
        flush_atom(cur) + seq![seq![s[0]]] + tokens_from(s.drop_first(), Seq::empty())
    } else if is_unicode_space(s[0]) {
        flush_atom(cur) + tokens_from(s.drop_first(), Seq::empty())
    } else {
        tokens_from(s.drop_first(), cur.push(s[0]))
    }
}

/// The token sequence of a piece of source text.
pub open spec fn spec_tokenize(s: Seq<char>) -> Seq<Seq<char>> {
    tokens_from(s, Seq::empty())
}

impl RispTokenizer {
    /// Splits `expr` into tokens: every `(` and `)` is a token of its own,
    /// maximal runs of other non-whitespace characters are atom tokens, and
    /// whitespace only separates.  Cannot fail; empty or whitespace-only
    /// input yields no tokens.
    pub fn tokenize(expr: String) -> (tokens: Vec<String>)
        ensures
            tokens.deep_view() == spec_tokenize(expr@),
    {
        let s = expr.as_str();
        let n = s.unicode_len();
        let mut toks: Vec<String> = Vec::new();
        let mut cur: String = String::new();
        let mut i: usize = 0;
        proof {
            assert(s@.skip(0) =~= s@);
            assert(toks.deep_view() =~= Seq::<Seq<char>>::empty());
            assert(toks.deep_view() + tokens_from(s@.skip(0), cur@) =~= spec_tokenize(expr@));
        }
        while i < n
            invariant
                s@ == expr@,
                n == s@.len(),
                i <= n,
                toks.deep_view() + tokens_from(s@.skip(i as int), cur@) == spec_tokenize(expr@),
            decreases n - i,
        {
            let c = s.get_char(i);
            let ghost prev_toks = toks.deep_view();
            let ghost prev_cur = cur@;
            if c == '(' || c == ')' {
                if !cur.as_str().is_empty() {
                    toks.push(cur);
                    cur = String::new();
                }
                let mut paren = String::new();
                push_char(&mut paren, c);
                toks.push(paren);
                proof {
                    assert(toks.deep_view() =~= prev_toks + flush_atom(prev_cur) + seq![seq![c]]);
                }
            } else if char_is_space(c) {
                if !cur.as_str().is_empty() {
                    toks.push(cur);
                    cur = String::new();
                }
                proof {
                    assert(toks.deep_view() =~= prev_toks + flush_atom(prev_cur));
                }
            } else {
                push_char(&mut cur, c);
            }
            i = i + 1;
            proof {
                assert(s@.skip(i - 1).drop_first() =~= s@.skip(i as int));
                assert(s@.skip(i - 1)[0] == s@[i - 1]);
                if c == '(' || c == ')' {
                    assert(tokens_from(s@.skip(i - 1), prev_cur) == flush_atom(prev_cur) + seq![
                        seq![c],
                    ] + tokens_from(s@.skip(i as int), Seq::empty()));
                    assert(cur@ =~= Seq::<char>::empty());
                } else if is_unicode_space(c) {
                    assert(tokens_from(s@.skip(i - 1), prev_cur) == flush_atom(prev_cur)
                        + tokens_from(s@.skip(i as int), Seq::empty()));
                    assert(cur@ =~= Seq::<char>::empty());
                } else {
                    assert(tokens_from(s@.skip(i - 1), prev_cur) == tokens_from(
                        s@.skip(i as int),
                        prev_cur.push(c),
                    ));
                    assert(cur@ == prev_cur.push(c));
                }
                assert(toks.deep_view() + tokens_from(s@.skip(i as int), cur@) =~= spec_tokenize(
                    expr@,
                ));
            }
        }
        if !cur.as_str().is_empty() {
            toks.push(cur);
        }
        proof {
            assert(s@.skip(n as int) =~= Seq::<char>::empty());
            assert(toks.deep_view() =~= spec_tokenize(expr@));
        }
        toks
    }
}

} // verus!
