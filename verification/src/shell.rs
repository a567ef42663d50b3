//! Quoting a word for a POSIX shell on a remote host.

use vstd::prelude::*;

use crate::text::{str_chars, string_from_chars};

verus! {

broadcast use vstd::string::group_string_axioms;

/// What a character becomes inside a single-quoted shell word: itself, except that a
/// single quote closes the quoting, is written escaped, and reopens it (`'\''`).
pub open spec fn quoted_piece(c: char) -> Seq<char> {
    if c == '\'' {
        seq!['\'', '\\', '\'', '\'']
    } else {
        seq![c]
    }
}

/// The pieces of all characters of `s`, in order.
pub open spec fn quoted_body(s: Seq<char>) -> Seq<char>
    decreases s.len(),
{
    if s.len() == 0 {
        seq![]
    } else {
        quoted_body(s.drop_last()) + quoted_piece(s.last())
    }
}

/// `s` as one single-quoted shell word.
pub open spec fn shell_quoted(s: Seq<char>) -> Seq<char> {
    seq!['\''] + quoted_body(s) + seq!['\'']
}

/// `p` put in front of the text in `o`, if any.
pub open spec fn prepend(p: Seq<char>, o: Option<Seq<char>>) -> Option<Seq<char>> {
    match o {
        Some(t) => Some(p + t),
        None => None,
    }
}

/// The text that a POSIX shell reads from the word `w`, where `in_quote` says whether
/// a single quote is open: inside quotes every character stands for itself up to the
/// closing quote; outside them only a quote opening or a backslash escape may come.
/// `None` when `w` ends inside quotes or holds an unquoted character of another kind.
pub open spec fn shell_word_value(w: Seq<char>, in_quote: bool) -> Option<Seq<char>>
    decreases w.len(),
{
    if w.len() == 0 {
        if in_quote {
            None
        } else {
            Some(seq![])
        }
    } else if in_quote {
        if w[0] == '\'' {
            shell_word_value(w.drop_first(), false)
        } else {
            prepend(seq![w[0]], shell_word_value(w.drop_first(), true))
        }
    } else if w[0] == '\'' {
        shell_word_value(w.drop_first(), true)
    } else if w[0] == '\\' && w.len() >= 2 {
        prepend(seq![w[1]], shell_word_value(w.skip(2), false))
    } else {
        None
    }
}

/// `s` quoted for a remote shell: wrapped in single quotes, each `'` written `'\''`.
pub fn shell_escape(s: &str) -> (r: String)
    ensures
        r@ == shell_quoted(s@),
{
    let cs = str_chars(s);
    let mut out: Vec<char> = Vec::new();
    out.push('\'');
    let mut i: usize = 0;
    while i < cs.len()
        invariant
            i <= cs.len(),
            cs@ == s@,
            out@ == seq!['\''] + quoted_body(cs@.take(i as int)),
        decreases cs.len() - i,
    {
        let c = cs[i];
        assert(cs@.take(i + 1).drop_last() =~= cs@.take(i as int));
        if c == '\'' {
            out.push('\'');
            out.push('\\');
            out.push('\'');
            out.push('\'');
        } else {
            out.push(c);
        }
        assert(out@ =~= seq!['\''] + quoted_body(cs@.take(i + 1)));
        i = i + 1;
    }
    out.push('\'');
    assert(cs@.take(cs.len() as int) =~= cs@);
    assert(out@ =~= shell_quoted(s@));
    string_from_chars(&out)
}

proof fn lemma_quoted_body_concat(a: Seq<char>, b: Seq<char>)
    ensures
        quoted_body(a + b) == quoted_body(a) + quoted_body(b),
    decreases b.len(),
{
    if b.len() == 0 {
        assert(a + b =~= a);
        assert(quoted_body(a) + quoted_body(b) =~= quoted_body(a));
    } else {
        lemma_quoted_body_concat(a, b.drop_last());
        assert((a + b).drop_last() =~= a + b.drop_last());
        assert((a + b).last() == b.last());
        assert(quoted_body(a + b) =~= quoted_body(a) + quoted_body(b));
    }
}

proof fn lemma_quoted_body_front(c: char, s: Seq<char>)
    ensures
        quoted_body(seq![c] + s) == quoted_piece(c) + quoted_body(s),
{
    lemma_quoted_body_concat(seq![c], s);
    assert(seq![c].drop_last() =~= Seq::<char>::empty());
    assert(quoted_body(seq![c].drop_last()) =~= Seq::<char>::empty());
    assert(quoted_body(seq![c]) =~= quoted_piece(c));
}

proof fn lemma_read_quoted_body(s: Seq<char>, rest: Seq<char>)
    ensures
        shell_word_value(quoted_body(s) + seq!['\''] + rest, true) == prepend(
            s,
            shell_word_value(rest, false),
        ),
    decreases s.len(),
{
    let w = quoted_body(s) + seq!['\''] + rest;
    if s.len() == 0 {
        assert(quoted_body(s) =~= Seq::<char>::empty());
        assert(w =~= seq!['\''] + rest);
        assert(w[0] == '\'');
        assert(w.drop_first() =~= rest);
        assert(shell_word_value(w, true) == shell_word_value(rest, false));
        match shell_word_value(rest, false) {
            Some(t) => assert(s + t =~= t),
            None => {},
        }
    } else {
        let c = s[0];
        let s1 = s.drop_first();
        assert(s =~= seq![c] + s1);
        lemma_quoted_body_front(c, s1);
        let x = quoted_body(s1) + seq!['\''] + rest;
        lemma_read_quoted_body(s1, rest);
        if c == '\'' {
            assert(w =~= seq!['\'', '\\', '\'', '\''] + x);
            let w1 = w.drop_first();
            assert(w1 =~= seq!['\\', '\'', '\''] + x);
            assert(w1[0] == '\\' && w1[1] == '\'');
            let w2 = w1.skip(2);
            assert(w2 =~= seq!['\''] + x);
            assert(w2.drop_first() =~= x);
            assert(shell_word_value(w2, false) == shell_word_value(x, true));
            assert(shell_word_value(w1, false) == prepend(seq!['\''], shell_word_value(w2, false)));
            assert(shell_word_value(w, true) == shell_word_value(w1, false));
            match shell_word_value(rest, false) {
                Some(t) => assert(seq!['\''] + (s1 + t) =~= s + t),
                None => {},
            }
        } else {
            assert(w =~= seq![c] + x);
            assert(w.drop_first() =~= x);
            assert(w[0] == c);
            assert(shell_word_value(w, true) == prepend(seq![c], shell_word_value(x, true)));
            match shell_word_value(rest, false) {
                Some(t) => assert(seq![c] + (s1 + t) =~= s + t),
                None => {},
            }
        }
    }
}

/// A quoted word reads back as the text it quotes: the remote shell passes `s` on
/// unchanged, as one argument, whatever characters it holds.
pub proof fn lemma_shell_quoted_reads_back(s: Seq<char>)
    ensures
        shell_word_value(shell_quoted(s), false) == Some(s),
{
    let w = shell_quoted(s);
    assert(w.drop_first() =~= quoted_body(s) + seq!['\''] + Seq::<char>::empty());
    lemma_read_quoted_body(s, Seq::<char>::empty());
    assert(s + Seq::<char>::empty() =~= s);
}

} // verus!
