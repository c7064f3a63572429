//! The lexical model of route patterns.
//!
//! A *variable token* is a maximal substring of a pattern of the form `:`
//! followed by one or more name characters (ASCII letters, digits, `_`, `-`).
//! Compiling a pattern replaces each variable token with the capture group
//! `([a-zA-Z0-9_-]+)` and anchors the whole expression with `^` and `$`.

use vstd::prelude::*;

verus! {

/// Characters allowed in a variable name (after the `:` sigil):
/// ASCII letters, digits, `_` and `-`.
pub open spec fn is_var_char(c: char) -> bool {
    ||| 'a' <= c && c <= 'z'
    ||| 'A' <= c && c <= 'Z'
    ||| '0' <= c && c <= '9'
    ||| c == '_'
    ||| c == '-'
}

/// Length of the longest prefix of `s` made of variable-name characters.
pub open spec fn run_len(s: Seq<char>) -> nat
    decreases s.len(),
{
    if s.len() > 0 && is_var_char(s[0]) {
        (1 + run_len(s.skip(1))) as nat
    } else {
        0
    }
}

/// A variable token starts at the head of `s`: a `:` sigil followed by at
/// least one name character.
pub open spec fn token_at_head(s: Seq<char>) -> bool {
    s.len() >= 2 && s[0] == ':' && is_var_char(s[1])
}

/// The variable tokens of a pattern, each including its leading `:`, in
/// left-to-right order.
pub open spec fn token_seq(s: Seq<char>) -> Seq<Seq<char>>
    decreases s.len(),
{
    if s.len() == 0 {
        Seq::empty()
    } else if token_at_head(s) {
        proof {
            lemma_run_len_le(s.skip(1));
        }
        seq![s.take(run_len(s.skip(1)) + 1 as int)] + token_seq(s.skip(run_len(s.skip(1)) + 1 as int))
    } else {
        token_seq(s.skip(1))
    }
}

/// The capture group that replaces a variable token: `([a-zA-Z0-9_-]+)`.
pub open spec fn group_chars() -> Seq<char> {
    seq!['(', '[', 'a', '-', 'z', 'A', '-', 'Z', '0', '-', '9', '_', '-', ']', '+', ')']
}

/// The body of the compiled expression: the pattern with every variable
/// token replaced by the capture group, all other characters kept.
pub open spec fn replaced(s: Seq<char>) -> Seq<char>
    decreases s.len(),
{
    if s.len() == 0 {
        Seq::empty()
    } else if token_at_head(s) {
        proof {
            lemma_run_len_le(s.skip(1));
        }
        group_chars() + replaced(s.skip(run_len(s.skip(1)) + 1 as int))
    } else {
        seq![s[0]] + replaced(s.skip(1))
    }
}

/// The full source text of the matcher compiled from pattern `s`: the
/// replaced body anchored at both ends.
pub open spec fn matcher_source(s: Seq<char>) -> Seq<char> {
    seq!['^'] + replaced(s) + seq!['$']
}

/// The run of name characters at the head of a sequence is never longer
/// than the sequence.
pub proof fn lemma_run_len_le(s: Seq<char>)
    ensures
        run_len(s) <= s.len(),
    decreases s.len(),
{
    if s.len() > 0 && is_var_char(s[0]) {
        lemma_run_len_le(s.skip(1));
    }
}

/// `run_len` is pinned by its pointwise characterization: if the first `m`
/// characters are name characters and the one after (if any) is not, the
/// head run has length exactly `m`.
pub proof fn lemma_run_len_exact(s: Seq<char>, m: int)
    requires
        0 <= m <= s.len(),
        forall|k: int| 0 <= k < m ==> is_var_char(s[k]),
        m == s.len() || !is_var_char(s[m]),
    ensures
        run_len(s) == m,
    decreases m,
{
    if m == 0 {
    } else {
        assert(is_var_char(s[0]));
        lemma_run_len_exact(s.skip(1), m - 1);
    }
}

} // verus!
