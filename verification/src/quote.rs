//! Quoting codec for the foreign shell.
//!
//! A host path is embedded in the composed command line inside single
//! quotes.  The only character that needs treatment is the single quote
//! itself: it is replaced by the four-character sequence `'\''` that closes
//! the quoted span, emits an escaped literal quote, and reopens quoting.
//! No other character is altered.

use vstd::prelude::*;
use crate::strutil::push_char;

verus! {

/// The escape of a single character.
pub open spec fn escape_char(c: char) -> Seq<char> {
    if c == '\'' {
        seq!['\'', '\\', '\'', '\'']
    } else {
        seq![c]
    }
}

/// The escape of a whole string: each single quote becomes `'\''`, every
/// other character is kept as it is.
pub open spec fn spec_escape(s: Seq<char>) -> Seq<char>
    decreases s.len(),
{
    if s.len() == 0 {
        Seq::empty()
    } else {
        escape_char(s[0]) + spec_escape(s.drop_first())
    }
}

/// Escaping distributes over concatenation.
pub proof fn lemma_escape_append(a: Seq<char>, b: Seq<char>)
    ensures
        spec_escape(a + b) == spec_escape(a) + spec_escape(b),
    decreases a.len(),
{
    if a.len() == 0 {
        assert(a + b =~= b);
        assert(spec_escape(a) + spec_escape(b) =~= spec_escape(b));
    } else {
        assert((a + b).drop_first() =~= a.drop_first() + b);
        lemma_escape_append(a.drop_first(), b);
        assert(escape_char(a[0]) + (spec_escape(a.drop_first()) + spec_escape(b)) =~= (
        escape_char(a[0]) + spec_escape(a.drop_first())) + spec_escape(b));
    }
}

/// Escape single quotes in a string for inclusion inside a single-quoted
/// foreign-shell word.
pub fn single_quote_escape(s: &str) -> (r: String)
    ensures
        r@ == spec_escape(s@),
{
    let len = s.unicode_len();
    let mut r = String::new();
    let mut i: usize = 0;
    while i < len
        invariant
            len == s@.len(),
            i <= len,
            r@ == spec_escape(s@.take(i as int)),
        decreases len - i,
    {
        let c = s.get_char(i);
        if c == '\'' {
            r.append("'\\''");
            proof {
                reveal_strlit("'\\''");
                assert("'\\''"@ =~= escape_char(c));
            }
        } else {
            push_char(&mut r, c);
            proof {
                assert(r@ =~= spec_escape(s@.take(i as int)) + escape_char(c));
            }
        }
        proof {
            assert(s@.take(i + 1) =~= s@.take(i as int) + seq![s@[i as int]]);
            lemma_escape_append(s@.take(i as int), seq![s@[i as int]]);
            assert(seq![s@[i as int]].drop_first() =~= Seq::<char>::empty());
            assert(spec_escape(Seq::<char>::empty()) =~= Seq::<char>::empty());
            assert(spec_escape(seq![s@[i as int]]) =~= escape_char(s@[i as int]) + Seq::<
                char,
            >::empty());
            assert(escape_char(s@[i as int]) + Seq::<char>::empty() =~= escape_char(
                s@[i as int],
            ));
        }
        i += 1;
    }
    proof {
        assert(s@.take(len as int) =~= s@);
    }
    r
}

/// Evaluation of a shell word outside single quotes, under the foreign
/// shell's lexical rules restricted to the characters this codec can emit:
/// a backslash escapes the next character, a single quote opens a quoted
/// span, everything else stands for itself.  `None` means the word is
/// ill-formed (an unterminated quote or a trailing backslash).
pub open spec fn eval_unquoted(w: Seq<char>) -> Option<Seq<char>>
    decreases w.len(),
{
    if w.len() == 0 {
        Some(Seq::empty())
    } else if w[0] == '\'' {
        eval_quoted(w.drop_first())
    } else if w[0] == '\\' {
        if w.len() >= 2 {
            match eval_unquoted(w.skip(2)) {
                Some(t) => Some(seq![w[1]] + t),
                None => None,
            }
        } else {
            None
        }
    } else {
        match eval_unquoted(w.drop_first()) {
            Some(t) => Some(seq![w[0]] + t),
            None => None,
        }
    }
}

/// Evaluation inside a single-quoted span: every character until the
/// closing quote stands for itself, the closing quote returns to unquoted
/// evaluation.
pub open spec fn eval_quoted(w: Seq<char>) -> Option<Seq<char>>
    decreases w.len(),
{
    if w.len() == 0 {
        None
    } else if w[0] == '\'' {
        eval_unquoted(w.drop_first())
    } else {
        match eval_quoted(w.drop_first()) {
            Some(t) => Some(seq![w[0]] + t),
            None => None,
        }
    }
}

proof fn lemma_escape_eval(s: Seq<char>, tail: Seq<char>)
    ensures
        eval_quoted(spec_escape(s) + seq!['\''] + tail) == match eval_unquoted(tail) {
            Some(t) => Some(s + t),
            None => None::<Seq<char>>,
        },
    decreases s.len(),
{
    let w = spec_escape(s) + seq!['\''] + tail;
    if s.len() == 0 {
        assert(spec_escape(s) =~= Seq::<char>::empty());
        assert(w =~= seq!['\''] + tail);
        assert(w.len() >= 1 && w[0] == '\'');
        assert(w.drop_first() =~= tail);
        assert(eval_quoted(w) == eval_unquoted(tail));
        match eval_unquoted(tail) {
            Some(t) => {
                assert(s + t =~= t);
            },
            None => {},
        }
    } else if s[0] == '\'' {
        let rest = s.drop_first();
        // spec_escape(s) = '  \  '  '  ++ spec_escape(rest)
        assert(spec_escape(s) == escape_char(s[0]) + spec_escape(rest));
        assert(w.len() >= 5);
        assert(w[0] == '\'');
        let w1 = w.drop_first();
        assert(eval_quoted(w) == eval_unquoted(w1));
        assert(w1 =~= seq!['\\', '\'', '\''] + spec_escape(rest) + seq!['\''] + tail);
        assert(w1[0] == '\\' && w1.len() >= 2 && w1[1] == '\'');
        let w2 = w1.skip(2);
        assert(w2 =~= seq!['\''] + spec_escape(rest) + seq!['\''] + tail);
        assert(w2[0] == '\'');
        assert(w2.drop_first() =~= spec_escape(rest) + seq!['\''] + tail);
        lemma_escape_eval(rest, tail);
        assert(eval_unquoted(w2) == eval_quoted(w2.drop_first()));
        // eval_quoted(w) = eval_unquoted(w1) = Some(['\''] + x) where
        // eval_unquoted(w2) = Some(x), and x = rest + t.
        match eval_unquoted(tail) {
            Some(t) => {
                assert(eval_unquoted(w2) == Some(rest + t));
                assert(eval_unquoted(w1) == Some(seq![w1[1]] + (rest + t)));
                assert(seq!['\''] + (rest + t) =~= s + t);
            },
            None => {
                assert(eval_unquoted(w2) == None::<Seq<char>>);
                assert(eval_unquoted(w1) == None::<Seq<char>>);
            },
        }
    } else {
        let rest = s.drop_first();
        assert(spec_escape(s) == escape_char(s[0]) + spec_escape(rest));
        assert(w.len() >= 1);
        assert(w[0] == s[0]);
        assert(w[0] != '\'');
        assert(eval_quoted(w) == match eval_quoted(w.drop_first()) {
            Some(t) => Some(seq![w[0]] + t),
            None => None::<Seq<char>>,
        });
        assert(w.drop_first() =~= spec_escape(rest) + seq!['\''] + tail);
        lemma_escape_eval(rest, tail);
        match eval_unquoted(tail) {
            Some(t) => {
                assert(eval_quoted(w.drop_first()) == Some(rest + t));
                assert(eval_quoted(w) == Some(seq![s[0]] + (rest + t)));
                assert(seq![s[0]] + (rest + t) =~= s + t);
            },
            None => {},
        }
    }
}

/// Quoting round-trip law: wrapping the escape of any string in single
/// quotes and evaluating the result under the foreign shell's quoting
/// rules yields exactly the original string.
pub proof fn lemma_quote_round_trip(s: Seq<char>)
    ensures
        eval_unquoted(seq!['\''] + spec_escape(s) + seq!['\'']) == Some(s),
{
    let w = seq!['\''] + spec_escape(s) + seq!['\''];
    assert(w[0] == '\'');
    assert(w.drop_first() =~= spec_escape(s) + seq!['\''] + Seq::<char>::empty());
    lemma_escape_eval(s, Seq::empty());
    assert(eval_unquoted(Seq::<char>::empty()) == Some(Seq::<char>::empty()));
    assert(s + Seq::<char>::empty() =~= s);
}

} // verus!
