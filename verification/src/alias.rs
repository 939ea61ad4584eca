//! Alias expansion over whole command strings, so that aliases containing
//! pipes or logical operators expand before those operators are parsed.
//! Expansion replaces the first word, recurses up to a configurable depth
//! bound, and detects self-referential aliases.

use vstd::prelude::*;

use crate::chars::chars_eq;
use crate::chars::chars_string;
use crate::chars::scan_space;
use crate::chars::scan_word;
use crate::chars::find_non_space;
use crate::chars::find_space;
use crate::chars::str_chars;
use crate::chars::subvec;
use crate::table::StrTable;

verus! {

/// Where the first whitespace-delimited word of `s` starts.
pub open spec fn word_start(s: Seq<char>) -> int {
    scan_space(s, 0)
}

/// Where the first whitespace-delimited word of `s` ends.
pub open spec fn word_end(s: Seq<char>) -> int {
    scan_word(s, word_start(s))
}

/// The first whitespace-delimited word of `s` (empty when `s` is blank).
pub open spec fn first_word(s: Seq<char>) -> Seq<char> {
    s.subrange(word_start(s), word_end(s))
}

/// One alias replacement step: the alias value spliced in place of the
/// first word, the rest of the line kept intact.
pub open spec fn alias_spliced(s: Seq<char>, value: Seq<char>) -> Seq<char> {
    value + s.subrange(word_end(s), s.len() as int)
}

/// The raw replacement chain of `s` under table `m`: splice while the first
/// word stays an alias, stopping on a word that is no alias, on a
/// self-referential replacement, or past the depth bound. The `decreases`
/// measure is what makes a cycle of aliases harmless: the recursion
/// provably terminates within the bound. This is the chain alone; what the
/// interpreter returns is [`alias_expanded`], which falls back to the
/// untouched input when the chain passes the bound.
pub open spec fn expand_alias_at(
    s: Seq<char>,
    m: Map<Seq<char>, Seq<char>>,
    depth: nat,
    bound: nat,
) -> Seq<char>
    decreases bound + 1 - depth,
{
    if depth > bound {
        s
    } else {
        let w = first_word(s);
        if m.contains_key(w) {
            let expanded = alias_spliced(s, m[w]);
            if first_word(expanded) == w {
                s
            } else {
                expand_alias_at(expanded, m, depth + 1, bound)
            }
        } else {
            s
        }
    }
}

/// The replacement chain of `s` settles before the depth bound: every
/// recursive step lands on a first word that is still below `bound`.
pub open spec fn alias_expansion_stable(
    s: Seq<char>,
    m: Map<Seq<char>, Seq<char>>,
    depth: nat,
    bound: nat,
) -> bool
    decreases bound + 1 - depth,
{
    depth <= bound && {
        let w = first_word(s);
        if m.contains_key(w) {
            let expanded = alias_spliced(s, m[w]);
            first_word(expanded) == w || alias_expansion_stable(expanded, m, depth + 1, bound)
        } else {
            true
        }
    }
}

/// What alias expansion returns: the settled replacement chain, or — when
/// the chain passes the depth bound — the input exactly as it was, the
/// abort being a recoverable warning for the caller to report.
pub open spec fn alias_expanded(s: Seq<char>, m: Map<Seq<char>, Seq<char>>, bound: nat) -> Seq<
    char,
> {
    if alias_expansion_stable(s, m, 0, bound) {
        expand_alias_at(s, m, 0, bound)
    } else {
        s
    }
}

/// Alias expansion is idempotent: expanding twice yields what expanding
/// once yields, whether the chain settles (the result's first word is no
/// longer an alias, or refers to itself) or the bound aborts it (the input
/// comes back and aborts again).
pub proof fn lemma_expand_alias_idempotent(
    s: Seq<char>,
    m: Map<Seq<char>, Seq<char>>,
    bound: nat,
)
    ensures
        alias_expanded(alias_expanded(s, m, bound), m, bound) == alias_expanded(s, m, bound),
{
    if alias_expansion_stable(s, m, 0, bound) {
        lemma_expand_alias_idempotent_at(s, m, 0, bound);
    }
}

proof fn lemma_expand_alias_idempotent_at(
    s: Seq<char>,
    m: Map<Seq<char>, Seq<char>>,
    depth: nat,
    bound: nat,
)
    requires
        alias_expansion_stable(s, m, depth, bound),
    ensures
        alias_expansion_stable(expand_alias_at(s, m, depth, bound), m, 0, bound),
        expand_alias_at(expand_alias_at(s, m, depth, bound), m, 0, bound) == expand_alias_at(
            s,
            m,
            depth,
            bound,
        ),
    decreases bound + 1 - depth,
{
    let w = first_word(s);
    if m.contains_key(w) {
        let expanded = alias_spliced(s, m[w]);
        if first_word(expanded) == w {
            // The result is `s` itself, and re-expanding `s` hits the same
            // self-reference immediately.
        } else {
            lemma_expand_alias_idempotent_at(expanded, m, depth + 1, bound);
        }
    }
}

/// A self-referential alias leaves the input unchanged: when the first word
/// is an alias whose replacement starts with that word again, expansion
/// returns the input as it was.
pub proof fn lemma_self_referential_alias(
    s: Seq<char>,
    m: Map<Seq<char>, Seq<char>>,
    bound: nat,
)
    requires
        m.contains_key(first_word(s)),
        first_word(alias_spliced(s, m[first_word(s)])) == first_word(s),
    ensures
        alias_expanded(s, m, bound) == s,
{
}

/// The first word of `v`, with the indices it spans.
fn first_word_of(v: &Vec<char>) -> (r: (usize, usize, Vec<char>))
    ensures
        r.0 as int == word_start(v@),
        r.1 as int == word_end(v@),
        r.2@ == first_word(v@),
        r.0 <= r.1 <= v@.len(),
{
    let a = find_non_space(v, 0);
    let b = find_space(v, a);
    let w = subvec(v, a, b);
    (a, b, w)
}

/// Runs the replacement chain of `s`, recursing up to `bound`; the flag
/// says the bound was passed (the text is then meaningless to the caller).
fn expand_alias_chars(s: &Vec<char>, aliases: &StrTable, depth: usize, bound: usize) -> (r: (
    Vec<char>,
    bool,
))
    requires
        aliases.wf(),
        bound < usize::MAX,
    ensures
        r.1 == !alias_expansion_stable(s@, aliases@, depth as nat, bound as nat),
        !r.1 ==> r.0@ == expand_alias_at(s@, aliases@, depth as nat, bound as nat),
    decreases bound + 1 - depth,
{
    if depth > bound {
        return (Vec::new(), true);
    }
    let (_, b, w) = first_word_of(s);
    match aliases.get(&w) {
        Some(value) => {
            let mut expanded = str_chars(value.as_str());
            let mut rest = subvec(s, b, s.len());
            expanded.append(&mut rest);
            proof {
                assert(expanded@ =~= alias_spliced(s@, aliases@[w@]));
            }
            let (_, _, w2) = first_word_of(&expanded);
            if chars_eq(&w2, &w) {
                (subvec(s, 0, s.len()), false)
            } else {
                expand_alias_chars(&expanded, aliases, depth + 1, bound)
            }
        },
        None => (subvec(s, 0, s.len()), false),
    }
}

/// Expands aliases at the head of the command string, recursing at most
/// `bound` times. Past the bound, expansion aborts: the input comes back
/// exactly as it was, and the flag is set so the caller can report the
/// recursion warning.
pub fn expand_alias_string_with_bound(input: &str, aliases: &StrTable, bound: usize) -> (r: (
    String,
    bool,
))
    requires
        aliases.wf(),
        bound < usize::MAX,
    ensures
        r.0@ == alias_expanded(input@, aliases@, bound as nat),
        r.1 == !alias_expansion_stable(input@, aliases@, 0, bound as nat),
{
    let chars = str_chars(input);
    let (out, bound_hit) = expand_alias_chars(&chars, aliases, 0, bound);
    if bound_hit {
        (input.to_owned(), true)
    } else {
        (chars_string(&out), false)
    }
}

/// The default alias recursion bound.
pub const ALIAS_DEPTH_BOUND: usize = 10;

/// Expands aliases at the head of the command string with the default
/// recursion bound; the flag reports a chain that exceeded the bound and
/// came back unexpanded.
pub fn expand_alias_string(input: &str, aliases: &StrTable) -> (r: (String, bool))
    requires
        aliases.wf(),
    ensures
        r.0@ == alias_expanded(input@, aliases@, ALIAS_DEPTH_BOUND as nat),
        r.1 == !alias_expansion_stable(input@, aliases@, 0, ALIAS_DEPTH_BOUND as nat),
{
    expand_alias_string_with_bound(input, aliases, ALIAS_DEPTH_BOUND)
}

} // verus!
