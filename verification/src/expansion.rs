//! The expansion engine: variable substitution (`$NAME`, `${NAME}`, `$?`,
//! `$$`) and tilde substitution. Expansion is textual and may occur in the
//! middle of a token; unresolved names expand to the empty string.

use vstd::prelude::*;

use crate::chars::chars_eq_str;
use crate::chars::chars_string;
use crate::chars::i32_digits;
use crate::chars::int_digits;
use crate::chars::is_name_char;
use crate::chars::nat_digits;
use crate::chars::push_all;
use crate::chars::str_chars;
use crate::chars::subvec;
use crate::chars::u64_digits;
use crate::table::StrTable;

verus! {

/// Index of the first character at or after `i` that cannot be part of a
/// variable name, or the length of `s`.
pub open spec fn scan_name(s: Seq<char>, i: int) -> int
    decreases s.len() - i,
{
    if i < 0 {
        i
    } else if i >= s.len() || !is_name_char(s[i]) {
        i
    } else {
        scan_name(s, i + 1)
    }
}

proof fn lemma_scan_name_bounds(s: Seq<char>, i: int)
    requires
        0 <= i <= s.len(),
    ensures
        i <= scan_name(s, i) <= s.len(),
        forall|k: int| i <= k < scan_name(s, i) ==> is_name_char(#[trigger] s[k]),
        scan_name(s, i) < s.len() ==> !is_name_char(s[scan_name(s, i)]),
    decreases s.len() - i,
{
    if i < s.len() && is_name_char(s[i]) {
        lemma_scan_name_bounds(s, i + 1);
    }
}

/// What a name expands to: the bound value, or nothing when unbound.
pub open spec fn env_value(env: Map<Seq<char>, Seq<char>>, name: Seq<char>) -> Seq<char> {
    if env.contains_key(name) {
        env[name]
    } else {
        Seq::empty()
    }
}

/// The variable expansion of `s` from position `i` on. `code` and `pid` are
/// the renderings of the last exit code and the interpreter's process id,
/// substituted for the specials `$?` and `$$`.
pub open spec fn expand_vars_at(
    s: Seq<char>,
    i: int,
    env: Map<Seq<char>, Seq<char>>,
    code: Seq<char>,
    pid: Seq<char>,
) -> Seq<char>
    decreases s.len() - i,
    when 0 <= i
    via expand_vars_at_dec
{
    if i >= s.len() {
        Seq::empty()
    } else if s[i] != '$' {
        seq![s[i]] + expand_vars_at(s, i + 1, env, code, pid)
    } else if i + 1 < s.len() && s[i + 1] == '?' {
        code + expand_vars_at(s, i + 2, env, code, pid)
    } else if i + 1 < s.len() && s[i + 1] == '$' {
        pid + expand_vars_at(s, i + 2, env, code, pid)
    } else {
        let bracketed = i + 1 < s.len() && s[i + 1] == '{';
        let p = if bracketed {
            i + 2
        } else {
            i + 1
        };
        let e = scan_name(s, p);
        let after = if bracketed && e < s.len() && s[e] == '}' {
            e + 1
        } else {
            e
        };
        if e > p {
            env_value(env, s.subrange(p, e)) + expand_vars_at(s, after, env, code, pid)
        } else {
            seq!['$'] + expand_vars_at(s, after, env, code, pid)
        }
    }
}

#[via_fn]
proof fn expand_vars_at_dec(
    s: Seq<char>,
    i: int,
    env: Map<Seq<char>, Seq<char>>,
    code: Seq<char>,
    pid: Seq<char>,
) {
    if 0 <= i < s.len() {
        if i + 2 <= s.len() {
            lemma_scan_name_bounds(s, i + 2);
        }
        lemma_scan_name_bounds(s, i + 1);
    }
}

/// First position at or after `from` whose character cannot extend a name.
fn find_name_end(v: &Vec<char>, from: usize) -> (r: usize)
    requires
        from <= v@.len(),
    ensures
        r == scan_name(v@, from as int),
        from <= r <= v@.len(),
{
    proof {
        lemma_scan_name_bounds(v@, from as int);
    }
    let mut i: usize = from;
    while i < v.len()
        invariant
            from <= i <= v@.len(),
            scan_name(v@, from as int) == scan_name(v@, i as int),
        decreases v@.len() - i,
    {
        if !crate::chars::name_char(v[i]) {
            return i;
        }
        i += 1;
    }
    i
}

/// Expands the variables of one token, given the rendered specials.
pub fn expand_token(token: &Vec<char>, env: &StrTable, code: &Vec<char>, pid: &Vec<char>) -> (r:
    Vec<char>)
    requires
        env.wf(),
    ensures
        r@ == expand_vars_at(token@, 0, env@, code@, pid@),
{
    let ghost whole = expand_vars_at(token@, 0, env@, code@, pid@);
    let mut out: Vec<char> = Vec::new();
    let mut i: usize = 0;
    while i < token.len()
        invariant
            env.wf(),
            i <= token@.len(),
            out@ + expand_vars_at(token@, i as int, env@, code@, pid@) == whole,
            whole == expand_vars_at(token@, 0, env@, code@, pid@),
        decreases token@.len() - i,
    {
        let ghost i0 = i as int;
        let c = token[i];
        if c != '$' {
            out.push(c);
            i += 1;
        } else if i + 1 < token.len() && token[i + 1] == '?' {
            push_all(&mut out, code);
            i += 2;
        } else if i + 1 < token.len() && token[i + 1] == '$' {
            push_all(&mut out, pid);
            i += 2;
        } else {
            let bracketed = i + 1 < token.len() && token[i + 1] == '{';
            let p = if bracketed {
                i + 2
            } else {
                i + 1
            };
            let e = find_name_end(token, p);
            let after = if bracketed && e < token.len() && token[e] == '}' {
                e + 1
            } else {
                e
            };
            if e > p {
                let name = subvec(token, p, e);
                match env.get(&name) {
                    Some(v) => {
                        let vc = str_chars(v.as_str());
                        push_all(&mut out, &vc);
                    },
                    None => {},
                }
            } else {
                out.push('$');
            }
            i = after;
        }
        proof {
            assert(out@ + expand_vars_at(token@, i as int, env@, code@, pid@) =~= whole);
        }
    }
    proof {
        assert(out@ =~= whole);
    }
    out
}

/// Variable expansion leaves any string without `$` unchanged.
pub proof fn lemma_expand_vars_identity(
    s: Seq<char>,
    env: Map<Seq<char>, Seq<char>>,
    code: Seq<char>,
    pid: Seq<char>,
)
    requires
        forall|k: int| 0 <= k < s.len() ==> s[k] != '$',
    ensures
        expand_vars_at(s, 0, env, code, pid) == s,
{
    lemma_expand_vars_identity_at(s, 0, env, code, pid);
    assert(expand_vars_at(s, 0, env, code, pid) =~= s);
}

proof fn lemma_expand_vars_identity_at(
    s: Seq<char>,
    i: int,
    env: Map<Seq<char>, Seq<char>>,
    code: Seq<char>,
    pid: Seq<char>,
)
    requires
        0 <= i <= s.len(),
        forall|k: int| 0 <= k < s.len() ==> s[k] != '$',
    ensures
        expand_vars_at(s, i, env, code, pid) == s.subrange(i, s.len() as int),
    decreases s.len() - i,
{
    if i >= s.len() {
        assert(expand_vars_at(s, i, env, code, pid) =~= s.subrange(i, s.len() as int));
    } else {
        lemma_expand_vars_identity_at(s, i + 1, env, code, pid);
        assert(expand_vars_at(s, i, env, code, pid) =~= s.subrange(i, s.len() as int));
    }
}

/// Expands `$VAR`, `${VAR}`, `$?` and `$$` in every token, reading names from
/// `env`; tokens without `$` pass through untouched.
pub fn expand_variables_with_state(
    tokens: Vec<String>,
    last_exit_code: i32,
    shell_pid: u32,
    env: &StrTable,
) -> (r: Vec<String>)
    requires
        env.wf(),
    ensures
        r@.len() == tokens@.len(),
        forall|k: int|
            0 <= k < tokens@.len() ==> (#[trigger] r@[k])@ == expand_vars_at(
                tokens@[k]@,
                0,
                env@,
                int_digits(last_exit_code as int),
                nat_digits(shell_pid as nat),
            ),
{
    let code = i32_digits(last_exit_code);
    let pid = u64_digits(shell_pid as u64);
    let mut r: Vec<String> = Vec::new();
    let mut k: usize = 0;
    while k < tokens.len()
        invariant
            env.wf(),
            k <= tokens@.len(),
            code@ == int_digits(last_exit_code as int),
            pid@ == nat_digits(shell_pid as nat),
            r@.len() == k,
            forall|j: int|
                0 <= j < k ==> (#[trigger] r@[j])@ == expand_vars_at(
                    tokens@[j]@,
                    0,
                    env@,
                    code@,
                    pid@,
                ),
        decreases tokens@.len() - k,
    {
        let tc = str_chars(tokens[k].as_str());
        if !crate::chars::contains_char(&tc, '$') {
            proof {
                lemma_expand_vars_identity(tc@, env@, code@, pid@);
            }
            r.push(tokens[k].clone());
        } else {
            let out = expand_token(&tc, env, &code, &pid);
            r.push(chars_string(&out));
        }
        k += 1;
    }
    r
}

/// Variable expansion without session state: the last exit code renders as 0.
pub fn expand_variables(tokens: Vec<String>, shell_pid: u32, env: &StrTable) -> (r: Vec<String>)
    requires
        env.wf(),
    ensures
        r@.len() == tokens@.len(),
        forall|k: int|
            0 <= k < tokens@.len() ==> (#[trigger] r@[k])@ == expand_vars_at(
                tokens@[k]@,
                0,
                env@,
                int_digits(0),
                nat_digits(shell_pid as nat),
            ),
{
    expand_variables_with_state(tokens, 0, shell_pid, env)
}

/// The tilde expansion of one token: a bare `~` becomes the home directory,
/// a leading `~/` keeps the path after the `~`; anything else is unchanged.
pub open spec fn tilde_expanded(t: Seq<char>, home: Seq<char>) -> Seq<char> {
    if t == seq!['~'] {
        home
    } else if t.len() >= 2 && t[0] == '~' && t[1] == '/' {
        home + t.subrange(1, t.len() as int)
    } else {
        t
    }
}

/// Replaces a leading tilde in each token with the home directory.
pub fn expand_tilde(tokens: Vec<String>, home: &str) -> (r: Vec<String>)
    ensures
        r@.len() == tokens@.len(),
        forall|k: int|
            0 <= k < tokens@.len() ==> (#[trigger] r@[k])@ == tilde_expanded(tokens@[k]@, home@),
{
    let mut r: Vec<String> = Vec::new();
    let mut k: usize = 0;
    while k < tokens.len()
        invariant
            k <= tokens@.len(),
            r@.len() == k,
            forall|j: int|
                0 <= j < k ==> (#[trigger] r@[j])@ == tilde_expanded(tokens@[j]@, home@),
        decreases tokens@.len() - k,
    {
        let tc = str_chars(tokens[k].as_str());
        proof {
            reveal_strlit("~");
        }
        if chars_eq_str(&tc, "~") {
            proof {
                assert(tc@ =~= seq!['~']);
            }
            r.push(home.to_owned());
        } else if tc.len() >= 2 && tc[0] == '~' && tc[1] == '/' {
            let mut out = str_chars(home);
            let mut rest = subvec(&tc, 1, tc.len());
            out.append(&mut rest);
            proof {
                assert(out@ =~= tilde_expanded(tokens@[k as int]@, home@));
            }
            r.push(chars_string(&out));
        } else {
            proof {
                assert(tc@ != seq!['~']) by {
                    if tc@ == seq!['~'] {
                        assert(tc@ =~= "~"@);
                    }
                }
            }
            r.push(tokens[k].clone());
        }
        k += 1;
    }
    r
}

/// The token holds a glob metacharacter and is worth matching on the disk.
pub open spec fn has_wildcard(t: Seq<char>) -> bool {
    t.contains('*') || t.contains('?')
}

/// Relies on `glob::glob`: matches a pattern against the filesystem. `None`
/// when the pattern is invalid; otherwise the matched paths in enumeration
/// order, skipping unreadable entries and paths that are not valid text.
/// What matches depends on the state of the disk, so nothing is assumed of
/// the result.
#[verifier::external_body]
fn glob_matches(pattern: &String) -> (r: Option<Vec<String>>) {
    match glob::glob(pattern) {
        Ok(paths) => {
            let mut found: Vec<String> = Vec::new();
            for p in paths.flatten() {
                if let Some(t) = p.to_str() {
                    found.push(t.to_string());
                }
            }
            Some(found)
        },
        Err(_) => None,
    }
}

/// What one glob result contributes: the matches when there are any, else
/// the original token unchanged (both for a bad pattern and for no match).
pub open spec fn glob_merged(token: Seq<char>, m: Option<Seq<Seq<char>>>) -> Seq<Seq<char>> {
    match m {
        Some(ms) => if ms.len() == 0 {
            seq![token]
        } else {
            ms
        },
        None => seq![token],
    }
}

/// The tokens contributed by each input token under the given glob results.
pub open spec fn globs_expanded(tokens: Seq<Seq<char>>, gs: Seq<Option<Seq<Seq<char>>>>) -> Seq<
    Seq<char>,
>
    decreases tokens.len(),
{
    if tokens.len() == 0 {
        Seq::empty()
    } else {
        glob_merged(tokens[0], gs[0]) + globs_expanded(tokens.drop_first(), gs.drop_first())
    }
}

proof fn lemma_globs_expanded_push(
    tokens: Seq<Seq<char>>,
    gs: Seq<Option<Seq<Seq<char>>>>,
    t: Seq<char>,
    g: Option<Seq<Seq<char>>>,
)
    requires
        tokens.len() == gs.len(),
    ensures
        globs_expanded(tokens.push(t), gs.push(g)) == globs_expanded(tokens, gs) + glob_merged(
            t,
            g,
        ),
    decreases tokens.len(),
{
    if tokens.len() == 0 {
        assert(tokens.push(t).drop_first() =~= tokens);
        assert(gs.push(g).drop_first() =~= gs);
        assert(globs_expanded(tokens.push(t), gs.push(g)) =~= globs_expanded(tokens, gs)
            + glob_merged(t, g));
    } else {
        assert(tokens.push(t).drop_first() =~= tokens.drop_first().push(t));
        assert(gs.push(g).drop_first() =~= gs.drop_first().push(g));
        lemma_globs_expanded_push(tokens.drop_first(), gs.drop_first(), t, g);
        assert(globs_expanded(tokens.push(t), gs.push(g)) =~= globs_expanded(tokens, gs)
            + glob_merged(t, g));
    }
}

/// Merges one token with the outcome of matching it on the disk: the matches
/// replace the token when there are any; otherwise the token is kept.
pub fn merge_glob_result(token: String, matches: Option<Vec<String>>) -> (r: Vec<String>)
    ensures
        r@.map_values(|t: String| t@) == glob_merged(
            token@,
            match matches {
                Some(ms) => Some(ms@.map_values(|t: String| t@)),
                None => None,
            },
        ),
{
    match matches {
        Some(ms) => {
            if ms.len() == 0 {
                let mut r: Vec<String> = Vec::new();
                r.push(token);
                proof {
                    assert(r@.map_values(|t: String| t@) =~= seq![token@]);
                }
                r
            } else {
                ms
            }
        },
        None => {
            let mut r: Vec<String> = Vec::new();
            r.push(token);
            proof {
                assert(r@.map_values(|t: String| t@) =~= seq![token@]);
            }
            r
        },
    }
}

/// Expands glob patterns against the filesystem: a token holding `*` or `?`
/// is replaced by its matches, or kept as it is when nothing matches or the
/// pattern is bad; other tokens pass through. The result is exactly the
/// per-token contributions in order, for some sequence of disk outcomes; a
/// list without wildcards comes back unchanged.
pub fn expand_globs(tokens: Vec<String>) -> (r: Vec<String>)
    ensures
        exists|gs: Seq<Option<Seq<Seq<char>>>>|
            #[trigger] gs.len() == tokens@.len() && r@.map_values(|t: String| t@)
                == globs_expanded(
                tokens@.map_values(|t: String| t@),
                gs,
            ) && (forall|k: int|
                0 <= k < tokens@.len() && !has_wildcard(tokens@[k]@) ==> (#[trigger] gs[k])
                    is None),
        (forall|k: int| 0 <= k < tokens@.len() ==> !has_wildcard((#[trigger] tokens@[k])@)) ==> r@
            == tokens@,
{
    let ghost tv = tokens@.map_values(|t: String| t@);
    let mut r: Vec<String> = Vec::new();
    let ghost mut gs: Seq<Option<Seq<Seq<char>>>> = Seq::empty();
    let mut k: usize = 0;
    proof {
        assert(r@.map_values(|t: String| t@) =~= globs_expanded(tv.subrange(0, 0), gs));
    }
    while k < tokens.len()
        invariant
            k <= tokens@.len(),
            tv == tokens@.map_values(|t: String| t@),
            gs.len() == k,
            r@.map_values(|t: String| t@) == globs_expanded(tv.subrange(0, k as int), gs),
            forall|j: int| 0 <= j < k && !has_wildcard(tv[j]) ==> (#[trigger] gs[j]) is None,
            (forall|j: int| 0 <= j < k ==> !has_wildcard((#[trigger] tokens@[j])@)) ==> r@
                == tokens@.subrange(0, k as int),
        decreases tokens@.len() - k,
    {
        let ghost r0 = r@;
        let ghost gs0 = gs;
        let tc = str_chars(tokens[k].as_str());
        let wild = crate::chars::contains_char(&tc, '*') || crate::chars::contains_char(&tc, '?');
        if wild {
            let m = glob_matches(&tokens[k]);
            let ghost gk: Option<Seq<Seq<char>>> = match &m {
                Some(ms) => Some(ms@.map_values(|t: String| t@)),
                None => None,
            };
            let mut add = merge_glob_result(tokens[k].clone(), m);
            let ghost addv = add@;
            r.append(&mut add);
            proof {
                gs = gs0.push(gk);
                lemma_globs_expanded_push(tv.subrange(0, k as int), gs0, tv[k as int], gk);
                assert(r@.map_values(|t: String| t@) =~= r0.map_values(|t: String| t@)
                    + addv.map_values(|t: String| t@));
                assert(tv.subrange(0, k + 1) =~= tv.subrange(0, k as int).push(tv[k as int]));
                assert(r@.map_values(|t: String| t@) =~= globs_expanded(
                    tv.subrange(0, k + 1),
                    gs,
                ));
            }
        } else {
            r.push(tokens[k].clone());
            proof {
                gs = gs0.push(None);
                lemma_globs_expanded_push(tv.subrange(0, k as int), gs0, tv[k as int], None);
                assert(r@.map_values(|t: String| t@) =~= r0.map_values(|t: String| t@).push(
                    tokens@[k as int]@,
                ));
                assert(tv.subrange(0, k + 1) =~= tv.subrange(0, k as int).push(tv[k as int]));
                assert(r@.map_values(|t: String| t@) =~= globs_expanded(
                    tv.subrange(0, k + 1),
                    gs,
                ));
            }
        }
        k += 1;
        proof {
            if forall|j: int| 0 <= j < k ==> !has_wildcard((#[trigger] tokens@[j])@) {
                assert(r@ =~= tokens@.subrange(0, k as int));
            }
        }
    }
    proof {
        assert(tv.subrange(0, tv.len() as int) =~= tv);
        if forall|j: int| 0 <= j < tokens@.len() ==> !has_wildcard((#[trigger] tokens@[j])@) {
            assert(r@ =~= tokens@);
        }
    }
    r
}

} // verus!
