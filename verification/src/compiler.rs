//! Pattern compilation: scanning a route pattern for variable tokens and
//! producing the source text of the anchored matcher expression.

use vstd::prelude::*;
use vstd::string::StrSliceExecFns;
use crate::tokens::is_var_char;
use crate::tokens::run_len;
use crate::tokens::token_at_head;
use crate::tokens::token_seq;
use crate::tokens::group_chars;
use crate::tokens::replaced;
use crate::tokens::matcher_source;
use crate::tokens::lemma_run_len_exact;
use crate::table::VarTable;
use crate::table::table_of;
use crate::table::lemma_table_of_distinct;
use crate::regexes::Matcher;
use crate::regexes::regex_compiles;

verus! {

/// The route pattern could not be compiled into a valid matcher.
#[derive(Debug, PartialEq, Eq)]
pub struct PatternError;

/// Relies on `String: FromIterator<char>` (`collect`): the resulting string
/// holds exactly the characters of the vector, in order.
#[verifier::external_body]
fn chars_to_string(v: &Vec<char>) -> (r: String)
    ensures
        r@ == v@,
{
    v.iter().collect()
}

/// Whether `c` may appear in a variable name.
fn is_name_char(c: char) -> (r: bool)
    ensures
        r == is_var_char(c),
{
    ('a' <= c && c <= 'z') || ('A' <= c && c <= 'Z') || ('0' <= c && c <= '9') || c == '_'
        || c == '-'
}

/// The characters of `s`, in order.
fn to_chars(s: &str) -> (r: Vec<char>)
    ensures
        r@ == s@,
{
    let n = s.unicode_len();
    let mut r: Vec<char> = Vec::new();
    let mut i: usize = 0;
    while i < n
        invariant
            n == s@.len(),
            i <= n,
            r@ == s@.take(i as int),
        decreases n - i,
    {
        r.push(s.get_char(i));
        i = i + 1;
        proof {
            assert(r@ =~= s@.take(i as int));
        }
    }
    proof {
        assert(s@.take(n as int) =~= s@);
    }
    r
}

/// First index at or after `start` holding a character that cannot appear in
/// a variable name; equivalently, the end of the name-character run there.
fn run_end(chars: &Vec<char>, start: usize) -> (r: usize)
    requires
        start <= chars@.len(),
    ensures
        start <= r <= chars@.len(),
        r - start == run_len(chars@.skip(start as int)),
{
    let n = chars.len();
    let mut j: usize = start;
    while j < n && is_name_char(chars[j])
        invariant
            start <= j <= n,
            n == chars@.len(),
            forall|k: int| start <= k < j ==> is_var_char(chars@[k]),
        decreases n - j,
    {
        j = j + 1;
    }
    proof {
        let suffix = chars@.skip(start as int);
        assert(forall|k: int| 0 <= k < j - start ==> is_var_char(suffix[k]));
        lemma_run_len_exact(suffix, j - start);
    }
    j
}

/// Append the capture group text to `out`.
fn push_group(out: &mut Vec<char>)
    ensures
        final(out)@ == old(out)@ + group_chars(),
{
    out.push('(');
    out.push('[');
    out.push('a');
    out.push('-');
    out.push('z');
    out.push('A');
    out.push('-');
    out.push('Z');
    out.push('0');
    out.push('-');
    out.push('9');
    out.push('_');
    out.push('-');
    out.push(']');
    out.push('+');
    out.push(')');
    proof {
        assert(out@ =~= old(out)@ + group_chars());
    }
}

/// Build the source text of the matcher for pattern `path`: every variable
/// token replaced by the capture group, anchored with `^` and `$`.
pub(crate) fn build_source(path: &str) -> (r: String)
    ensures
        r@ == matcher_source(path@),
{
    let chars = to_chars(path);
    let n = chars.len();
    let mut out: Vec<char> = Vec::new();
    out.push('^');
    let mut i: usize = 0;
    proof {
        assert(path@.skip(0) =~= path@);
        assert(out@ =~= seq!['^']);
    }
    while i < n
        invariant
            chars@ == path@,
            n == chars@.len(),
            i <= n,
            out@ + replaced(path@.skip(i as int)) == seq!['^'] + replaced(path@),
        decreases n - i,
    {
        let ghost s = path@;
        let ghost suffix = s.skip(i as int);
        if chars[i] == ':' && i + 1 < n && is_name_char(chars[i + 1]) {
            let j = run_end(&chars, i + 1);
            proof {
                assert(suffix[0] == ':');
                assert(suffix[1] == s[i + 1]);
                assert(token_at_head(suffix));
                assert(suffix.skip(1) =~= s.skip(i + 1));
                assert(run_len(suffix.skip(1)) == j - i - 1);
                assert(suffix.skip(j - i) =~= s.skip(j as int));
                assert(replaced(suffix) == group_chars() + replaced(s.skip(j as int)));
            }
            push_group(&mut out);
            proof {
                assert(out@ + replaced(s.skip(j as int)) =~= seq!['^'] + replaced(s));
            }
            i = j;
        } else {
            proof {
                assert(!token_at_head(suffix)) by {
                    if suffix.len() >= 2 {
                        assert(suffix[0] == s[i as int]);
                        assert(suffix[1] == s[i + 1]);
                    }
                }
                assert(suffix.skip(1) =~= s.skip(i + 1));
                assert(replaced(suffix) == seq![s[i as int]] + replaced(s.skip(i + 1)));
            }
            out.push(chars[i]);
            proof {
                assert(out@ + replaced(s.skip(i + 1)) =~= seq!['^'] + replaced(s));
            }
            i = i + 1;
        }
    }
    proof {
        assert(path@.skip(n as int).len() == 0);
        assert(replaced(path@.skip(n as int)) =~= Seq::<char>::empty());
        assert(out@ =~= seq!['^'] + replaced(path@));
    }
    out.push('$');
    proof {
        assert(out@ =~= matcher_source(path@));
    }
    chars_to_string(&out)
}

/// The variable tokens of `path`, each with its leading `:`, left to right.
pub(crate) fn find_tokens(path: &str) -> (r: Vec<String>)
    ensures
        r.deep_view() == token_seq(path@),
{
    let chars = to_chars(path);
    let n = chars.len();
    let mut r: Vec<String> = Vec::new();
    let mut i: usize = 0;
    proof {
        assert(path@.skip(0) =~= path@);
        assert(r.deep_view() =~= Seq::<Seq<char>>::empty());
    }
    while i < n
        invariant
            chars@ == path@,
            n == chars@.len(),
            i <= n,
            r.deep_view() + token_seq(path@.skip(i as int)) == token_seq(path@),
        decreases n - i,
    {
        let ghost s = path@;
        let ghost suffix = s.skip(i as int);
        if chars[i] == ':' && i + 1 < n && is_name_char(chars[i + 1]) {
            let j = run_end(&chars, i + 1);
            proof {
                assert(suffix[0] == ':');
                assert(suffix[1] == s[i + 1]);
                assert(token_at_head(suffix));
                assert(suffix.skip(1) =~= s.skip(i + 1));
                assert(run_len(suffix.skip(1)) == j - i - 1);
                assert(suffix.skip(j - i) =~= s.skip(j as int));
                assert(suffix.take(j - i) =~= s.subrange(i as int, j as int));
                assert(token_seq(suffix) == seq![s.subrange(i as int, j as int)]
                    + token_seq(s.skip(j as int)));
            }
            let mut tok: Vec<char> = Vec::new();
            let mut k: usize = i;
            while k < j
                invariant
                    i <= k <= j <= chars@.len(),
                    chars@ == s,
                    tok@ == s.subrange(i as int, k as int),
                decreases j - k,
            {
                tok.push(chars[k]);
                k = k + 1;
                proof {
                    assert(tok@ =~= s.subrange(i as int, k as int));
                }
            }
            let ghost old_dv = r.deep_view();
            r.push(chars_to_string(&tok));
            proof {
                assert(r.deep_view() =~= old_dv.push(s.subrange(i as int, j as int)));
                assert(r.deep_view() + token_seq(s.skip(j as int)) =~= token_seq(s));
            }
            i = j;
        } else {
            proof {
                assert(!token_at_head(suffix)) by {
                    if suffix.len() >= 2 {
                        assert(suffix[0] == s[i as int]);
                        assert(suffix[1] == s[i + 1]);
                    }
                }
                assert(suffix.skip(1) =~= s.skip(i + 1));
                assert(token_seq(suffix) == token_seq(s.skip(i + 1)));
            }
            i = i + 1;
        }
    }
    proof {
        assert(token_seq(path@.skip(n as int)) =~= Seq::<Seq<char>>::empty());
        assert(r.deep_view() =~= token_seq(path@));
    }
    r
}

/// Compile a route pattern into a matcher: every variable token becomes the
/// capture group `([a-zA-Z0-9_-]+)`, the rest of the pattern is spliced in
/// unescaped, and the whole expression is anchored at both ends. Fails with
/// `PatternError` exactly when the regex engine rejects that expression.
pub fn compile_matcher(path: &str) -> (r: Result<Matcher, PatternError>)
    ensures
        r is Ok <==> regex_compiles(matcher_source(path@)),
        r matches Ok(m) ==> m.src() == matcher_source(path@),
{
    let src = build_source(path);
    match Matcher::compile(src.as_str()) {
        Some(m) => Ok(m),
        None => Err(PatternError),
    }
}

/// The ordered mapping from variable name (with its `:` sigil) to capture
/// position: the token of rank `i` gets position `i`; a repeated name keeps
/// its slot and its last occurrence's position. Never fails; a pattern
/// without variables yields the empty mapping.
pub fn extract_variable_positions(path: &str) -> (r: VarTable)
    ensures
        r@ == table_of(token_seq(path@)),
{
    let toks = find_tokens(path);
    let k = toks.len();
    let mut t = VarTable::new();
    let mut i: usize = 0;
    proof {
        assert(toks.deep_view().take(0) =~= Seq::<Seq<char>>::empty());
    }
    while i < k
        invariant
            k == toks@.len(),
            i <= k,
            toks.deep_view() == token_seq(path@),
            t@ == table_of(toks.deep_view().take(i as int)),
        decreases k - i,
    {
        t.insert(toks[i].clone(), i);
        i = i + 1;
        proof {
            let dv = toks.deep_view();
            assert(dv.take(i as int).drop_last() =~= dv.take(i - 1));
            assert(dv.take(i as int).last() == dv[i - 1]);
        }
    }
    proof {
        assert(toks.deep_view().take(k as int) =~= toks.deep_view());
    }
    t
}

/// Law: for a pattern whose variable tokens are pairwise distinct,
/// `extract_variable_positions` yields exactly one entry per token, in the
/// tokens' left-to-right order, with positions `0..k-1` in that same order.
pub proof fn lemma_distinct_tokens_numbered_in_order(p: Seq<char>)
    requires
        forall|i: int, j: int|
            0 <= i < j < token_seq(p).len() ==> token_seq(p)[i] != token_seq(p)[j],
    ensures
        table_of(token_seq(p)).len() == token_seq(p).len(),
        forall|i: int|
            0 <= i < token_seq(p).len() ==> table_of(token_seq(p))[i] == (token_seq(p)[i], i),
{
    lemma_table_of_distinct(token_seq(p));
}

} // verus!
