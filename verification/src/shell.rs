//! The dispatch core: session state, and the planning of one command block.
//! A block is split on unquoted pipes; a single segment is checked for a
//! trailing background marker, tokenized, and expanded; several segments
//! each expand aliases and tokens and become a pipeline. Running what the
//! plan names (plugins, builtins, processes) is the caller's business, as is
//! feeding the resulting exit code back for short-circuiting.

use vstd::prelude::*;

use crate::chars::all_space;
use crate::chars::chars_all_space;
use crate::chars::chars_eq;
use crate::chars::chars_eq_str;
use crate::chars::chars_string;
use crate::chars::scan_space;
use crate::chars::scan_word;
use crate::chars::find_non_space;
use crate::chars::find_space;
use crate::chars::lemma_scan_space_bounds;
use crate::chars::lemma_scan_word_bounds;
use crate::chars::str_chars;
use crate::chars::subvec;
use crate::chars::trim;
use crate::chars::trim_chars;
use crate::alias::alias_expanded;
use crate::alias::alias_expansion_stable;
use crate::alias::expand_alias_string;
use crate::alias::ALIAS_DEPTH_BOUND;
use crate::config::CliosConfig;
use crate::expansion::expand_tilde;
use crate::expansion::expand_vars_at;
use crate::expansion::expand_variables_with_state;
use crate::expansion::expand_globs;
use crate::expansion::globs_expanded;
use crate::expansion::glob_merged;
use crate::expansion::tilde_expanded;
use crate::chars::int_digits;
use crate::chars::nat_digits;
use crate::splitting::LogicalOp;
use crate::splitting::split_pipes_of;
use crate::splitting::split_pipes_respecting_quotes;
use crate::table::StrTable;

verus! {

/// What splitting a line into shell words yields. The split is a function
/// of the text alone.
pub uninterp spec fn shell_words_of(s: Seq<char>) -> Option<Seq<Seq<char>>>;

/// Relies on `shlex::split`: POSIX-style word splitting with quotes and
/// escapes resolved; `None` exactly when the input is erroneous (an unclosed
/// quote or a trailing escape).
#[verifier::external_body]
pub(crate) fn split_words(line: &str) -> (r: Option<Vec<String>>)
    ensures
        match r {
            Some(v) => shell_words_of(line@) matches Some(ws) && v@.map_values(|t: String| t@)
                == ws,
            None => shell_words_of(line@) is None,
        },
{
    shlex::split(line)
}

/// First position at or after `i` where `pat` occurs in `s`, or the length
/// of `s` when it never does.
pub open spec fn scan_sub(s: Seq<char>, pat: Seq<char>, i: int) -> int
    decreases s.len() - i,
{
    if i < 0 {
        i
    } else if i >= s.len() || i + pat.len() > s.len() {
        s.len() as int
    } else if s.subrange(i, i + pat.len()) == pat {
        i
    } else {
        scan_sub(s, pat, i + 1)
    }
}

proof fn lemma_scan_sub_bounds(s: Seq<char>, pat: Seq<char>, i: int)
    requires
        0 <= i <= s.len(),
    ensures
        i <= scan_sub(s, pat, i) <= s.len(),
        forall|k: int|
            i <= k && k + pat.len() <= s.len() && k < scan_sub(s, pat, i) ==> #[trigger] s.subrange(
                k,
                k + pat.len(),
            ) != pat,
        scan_sub(s, pat, i) + pat.len() <= s.len() ==> s.subrange(
            scan_sub(s, pat, i),
            scan_sub(s, pat, i) + pat.len(),
        ) == pat || scan_sub(s, pat, i) == s.len(),
    decreases s.len() - i,
{
    if i < s.len() && i + pat.len() <= s.len() && s.subrange(i, i + pat.len()) != pat {
        lemma_scan_sub_bounds(s, pat, i + 1);
    }
}

/// First occurrence of `pat` in `v`, or the length of `v`.
fn find_sub(v: &Vec<char>, pat: &Vec<char>) -> (r: usize)
    ensures
        r == scan_sub(v@, pat@, 0),
        r <= v@.len(),
{
    proof {
        lemma_scan_sub_bounds(v@, pat@, 0);
    }
    if pat.len() == 0 {
        proof {
            if v@.len() > 0 {
                assert(v@.subrange(0, 0) =~= pat@);
            }
        }
        return 0;
    }
    if pat.len() > v.len() {
        return v.len();
    }
    let n: usize = v.len();
    let mut i: usize = 0;
    while i <= v.len() - pat.len()
        invariant
            n == v@.len(),
            0 < pat@.len() <= v@.len(),
            i <= v@.len() - pat@.len() + 1,
            scan_sub(v@, pat@, 0) == scan_sub(v@, pat@, i as int),
        decreases v@.len() - pat@.len() + 1 - i,
    {
        let mut k: usize = 0;
        let mut all = true;
        while k < pat.len()
            invariant
                n == v@.len(),
                i + pat@.len() <= v@.len(),
                k <= pat@.len(),
                all == (forall|j: int| 0 <= j < k ==> v@[i + j] == pat@[j]),
            decreases pat@.len() - k,
        {
            if v[i + k] != pat[k] {
                all = false;
                k = pat.len();
            } else {
                k += 1;
            }
        }
        if all {
            proof {
                assert(v@.subrange(i as int, i + pat@.len()) =~= pat@);
            }
            return i;
        }
        proof {
            assert(v@.subrange(i as int, i + pat@.len()) != pat@) by {
                if v@.subrange(i as int, i + pat@.len()) == pat@ {
                    let j = choose|j: int| 0 <= j < pat@.len() && v@[i + j] != pat@[j];
                    assert(v@.subrange(i as int, i + pat@.len())[j] == v@[i + j]);
                }
            }
        }
        i += 1;
    }
    proof {
        assert(scan_sub(v@, pat@, i as int) == v@.len());
    }
    v.len()
}

/// Whether `pat` occurs in `s`.
pub open spec fn has_sub(s: Seq<char>, pat: Seq<char>) -> bool {
    scan_sub(s, pat, 0) + pat.len() <= s.len()
}

/// The whitespace-separated words of `s` from position `i` on; the simple
/// fallback tokenizer for pipeline segments whose quoting does not parse.
pub open spec fn space_words(s: Seq<char>, i: int) -> Seq<Seq<char>>
    decreases s.len() - i,
    when 0 <= i
    via space_words_dec
{
    if i >= s.len() {
        Seq::empty()
    } else {
        let a = scan_space(s, i);
        if a >= s.len() {
            Seq::empty()
        } else {
            let b = scan_word(s, a);
            seq![s.subrange(a, b)] + space_words(s, b)
        }
    }
}

#[via_fn]
proof fn space_words_dec(s: Seq<char>, i: int) {
    if 0 <= i < s.len() {
        lemma_scan_space_bounds(s, i);
        let a = scan_space(s, i);
        if a < s.len() {
            lemma_scan_word_bounds(s, a);
        }
    }
}

/// Splits on whitespace, dropping empty fragments.
pub fn split_on_spaces(v: &Vec<char>) -> (r: Vec<String>)
    ensures
        r@.map_values(|t: String| t@) == space_words(v@, 0),
{
    let mut r: Vec<String> = Vec::new();
    let mut i: usize = 0;
    proof {
        assert(r@.map_values(|t: String| t@) =~= Seq::<Seq<char>>::empty());
        assert(space_words(v@, 0) =~= r@.map_values(|t: String| t@) + space_words(v@, 0));
    }
    while i < v.len()
        invariant
            i <= v@.len(),
            space_words(v@, 0) == r@.map_values(|t: String| t@) + space_words(v@, i as int),
        decreases v@.len() - i,
    {
        let ghost r0 = r@;
        let a = find_non_space(v, i);
        if a >= v.len() {
            proof {
                assert(space_words(v@, i as int) =~= Seq::<Seq<char>>::empty());
                assert(space_words(v@, 0) =~= r@.map_values(|t: String| t@));
            }
            return r;
        }
        let b = find_space(v, a);
        let w = subvec(v, a, b);
        r.push(chars_string(&w));
        proof {
            lemma_scan_word_bounds(v@, a as int);
            assert(r@.map_values(|t: String| t@) =~= r0.map_values(|t: String| t@).push(
                v@.subrange(a as int, b as int),
            ));
            assert(space_words(v@, i as int) =~= seq![v@.subrange(a as int, b as int)]
                + space_words(v@, b as int));
            assert(space_words(v@, 0) =~= r@.map_values(|t: String| t@) + space_words(
                v@,
                b as int,
            ));
        }
        i = b;
    }
    proof {
        assert(space_words(v@, i as int) =~= Seq::<Seq<char>>::empty());
        assert(space_words(v@, 0) =~= r@.map_values(|t: String| t@));
    }
    r
}

/// The plan for one command block.
pub enum CommandPlan {
    /// Nothing to run; the block's exit code is 0.
    Empty,
    /// The quoting of a single command could not be parsed; the block's
    /// exit code is 1 after an error message.
    SyntaxError,
    /// One command: its expanded tokens, and whether a trailing `&` asked
    /// for background execution.
    Single { tokens: Vec<String>, background: bool },
    /// Several piped commands, each tokenized and expanded.
    PipedStages { stages: Vec<Vec<String>> },
}

/// The tokens of a single command before glob matching: each shell word
/// with variables and then the tilde expanded.
pub open spec fn preglob_tokens(
    ws: Seq<Seq<char>>,
    env: Map<Seq<char>, Seq<char>>,
    code: Seq<char>,
    pid: Seq<char>,
    home: Seq<char>,
) -> Seq<Seq<char>> {
    ws.map_values(|t: Seq<char>| tilde_expanded(expand_vars_at(t, 0, env, code, pid), home))
}

proof fn lemma_globs_expanded_len(tokens: Seq<Seq<char>>, gs: Seq<Option<Seq<Seq<char>>>>)
    ensures
        tokens.len() > 0 ==> globs_expanded(tokens, gs).len() >= 1,
{
    if tokens.len() > 0 {
        assert(glob_merged(tokens[0], gs[0]).len() >= 1) by {
            match gs[0] {
                Some(ms) => {},
                None => {},
            }
        }
    }
}

/// The trimmed text of a single segment, its background marker, and the
/// command text with the marker stripped.
pub open spec fn background_split(seg: Seq<char>) -> (bool, Seq<char>) {
    let raw = trim(seg);
    if raw.len() > 0 && raw[raw.len() - 1] == '&' {
        (true, trim(raw.subrange(0, raw.len() - 1)))
    } else {
        (false, raw)
    }
}

/// The pre-glob tokens one pipeline segment contributes: aliases expanded
/// on the whole segment (falling back to the untouched text past the depth
/// bound), the result trimmed, tokenized (shell words when the quoting
/// parses to something, plain whitespace words otherwise), and variable-
/// and tilde-expanded. `None` when the segment yields no stage.
pub open spec fn segment_pre_stage(
    seg: Seq<char>,
    aliases: Map<Seq<char>, Seq<char>>,
    env: Map<Seq<char>, Seq<char>>,
    code: Seq<char>,
    pid: Seq<char>,
    home: Seq<char>,
    bound: nat,
) -> Option<Seq<Seq<char>>> {
    let t = trim(alias_expanded(seg, aliases, bound));
    if t.len() == 0 {
        None
    } else {
        let ws = match shell_words_of(t) {
            Some(ws0) => if ws0.len() > 0 {
                ws0
            } else {
                space_words(t, 0)
            },
            None => space_words(t, 0),
        };
        if ws.len() == 0 {
            None
        } else {
            Some(preglob_tokens(ws, env, code, pid, home))
        }
    }
}

/// The pre-glob stages of the segments from `i` on, in order, skipping the
/// segments that contribute nothing.
pub open spec fn pre_stages(
    segs: Seq<Seq<char>>,
    i: int,
    aliases: Map<Seq<char>, Seq<char>>,
    env: Map<Seq<char>, Seq<char>>,
    code: Seq<char>,
    pid: Seq<char>,
    home: Seq<char>,
    bound: nat,
) -> Seq<Seq<Seq<char>>>
    decreases segs.len() - i,
    when 0 <= i
{
    if i >= segs.len() {
        Seq::empty()
    } else {
        let rest = pre_stages(segs, i + 1, aliases, env, code, pid, home, bound);
        match segment_pre_stage(segs[i], aliases, env, code, pid, home, bound) {
            Some(pre) => seq![pre] + rest,
            None => rest,
        }
    }
}

/// The segment positions whose alias expansion passed the depth bound and
/// came back unexpanded, each worth a recursion warning.
pub open spec fn bound_hit_segments(
    segs: Seq<Seq<char>>,
    i: int,
    aliases: Map<Seq<char>, Seq<char>>,
    bound: nat,
) -> Seq<int>
    decreases segs.len() - i,
    when 0 <= i
{
    if i >= segs.len() {
        Seq::empty()
    } else {
        let rest = bound_hit_segments(segs, i + 1, aliases, bound);
        if !alias_expansion_stable(segs[i], aliases, 0, bound) {
            seq![i] + rest
        } else {
            rest
        }
    }
}

/// The planned pipeline stages correspond one to one, in order, to the
/// pre-glob stages: each planned stage is its pre-glob tokens under some
/// disk outcome, with tokens free of wildcards left alone.
pub open spec fn stages_match(
    stages: Seq<Vec<String>>,
    pres: Seq<Seq<Seq<char>>>,
    gss: Seq<Seq<Option<Seq<Seq<char>>>>>,
) -> bool {
    &&& stages.len() == pres.len()
    &&& gss.len() == pres.len()
    &&& forall|i: int|
        0 <= i < pres.len() ==> (#[trigger] gss[i]).len() == pres[i].len() && stages[i]@.map_values(
            |t: String| t@,
        ) == globs_expanded(pres[i], gss[i]) && (forall|j: int|
            0 <= j < pres[i].len() && !crate::expansion::has_wildcard(pres[i][j]) ==> (
            #[trigger] gss[i][j]) is None)
}

proof fn lemma_stages_match_push(
    stages: Seq<Vec<String>>,
    pres: Seq<Seq<Seq<char>>>,
    gss: Seq<Seq<Option<Seq<Seq<char>>>>>,
    st: Vec<String>,
    pre: Seq<Seq<char>>,
    gs: Seq<Option<Seq<Seq<char>>>>,
)
    requires
        stages_match(stages, pres, gss),
        gs.len() == pre.len(),
        st@.map_values(|t: String| t@) == globs_expanded(pre, gs),
        forall|j: int|
            0 <= j < pre.len() && !crate::expansion::has_wildcard(#[trigger] pre[j]) ==> gs[j]
                is None,
    ensures
        stages_match(stages.push(st), pres.push(pre), gss.push(gs)),
{
    let stages2 = stages.push(st);
    let pres2 = pres.push(pre);
    let gss2 = gss.push(gs);
    assert forall|i: int| 0 <= i < pres2.len() implies (#[trigger] gss2[i]).len()
        == pres2[i].len() && stages2[i]@.map_values(|t: String| t@) == globs_expanded(
        pres2[i],
        gss2[i],
    ) && (forall|j: int|
        0 <= j < pres2[i].len() && !crate::expansion::has_wildcard(pres2[i][j]) ==> (
        #[trigger] gss2[i][j]) is None) by {
        if i < pres.len() {
            assert(stages2[i] == stages[i]);
            assert(pres2[i] == pres[i]);
            assert(gss2[i] == gss[i]);
            assert(gss[i].len() == pres[i].len() && stages[i]@.map_values(|t: String| t@)
                == globs_expanded(pres[i], gss[i]));
            assert forall|j: int|
                0 <= j < pres2[i].len() && !crate::expansion::has_wildcard(
                    pres2[i][j],
                ) implies (#[trigger] gss2[i][j]) is None by {
                assert(gss2[i][j] == gss[i][j]);
            }
        } else {
            assert(stages2[i] == st);
            assert(pres2[i] == pre);
            assert(gss2[i] == gs);
            assert forall|j: int|
                0 <= j < pres2[i].len() && !crate::expansion::has_wildcard(
                    pres2[i][j],
                ) implies (#[trigger] gss2[i][j]) is None by {
                assert(pres2[i][j] == pre[j]);
                assert(gss2[i][j] == gs[j]);
            }
        }
    }
}

/// The pre-glob stages the pipeline path of the planner works from: the
/// pipe segments of the line, each taken through alias expansion, trimming,
/// tokenization and variable and tilde expansion, under the default alias
/// bound.
pub open spec fn planned_pre_stages(
    line: Seq<char>,
    aliases: Map<Seq<char>, Seq<char>>,
    env: Map<Seq<char>, Seq<char>>,
    last_exit_code: i32,
    shell_pid: u32,
    home: Seq<char>,
) -> Seq<Seq<Seq<char>>> {
    pre_stages(
        split_pipes_of(line),
        0,
        aliases,
        env,
        int_digits(last_exit_code as int),
        nat_digits(shell_pid as nat),
        home,
        ALIAS_DEPTH_BOUND as nat,
    )
}

/// Plans one command block (no logical operators; pipes allowed): splits on
/// unquoted pipes, finds a trailing background marker, tokenizes, and runs
/// variable, tilde and glob expansion; a pipeline expands aliases per
/// segment first. A `rhai` command keeps everything after the word `rhai`
/// as one script argument and is not expanded. The second result lists the
/// pipeline segments whose alias expansion hit the recursion bound, for the
/// caller to warn about; outside the pipeline path it is empty.
#[verifier::rlimit(100)]
pub fn plan_command_block(
    input: &str,
    aliases: &StrTable,
    env: &StrTable,
    last_exit_code: i32,
    shell_pid: u32,
    home: &str,
) -> (r: (CommandPlan, Vec<usize>))
    requires
        aliases.wf(),
        env.wf(),
    ensures
        all_space(input@) ==> r.0 is Empty,
        split_pipes_of(input@).len() <= 1 ==> r.1@.len() == 0,
        !all_space(input@) && split_pipes_of(input@).len() == 1 ==> {
            let (bg, clean) = background_split(split_pipes_of(input@)[0]);
            match shell_words_of(clean) {
                None => r.0 is SyntaxError,
                Some(ws) => {
                    if ws.len() == 0 {
                        r.0 is Empty
                    } else if ws[0] == "rhai"@ {
                        r.0 matches CommandPlan::Single { tokens, background } && background == bg
                            && tokens@.len() >= 1 && tokens@[0]@ == "rhai"@ && (has_sub(
                            clean,
                            "rhai"@,
                        ) ==> tokens@.len() == 2 && tokens@[1]@ == trim(
                            clean.subrange(scan_sub(clean, "rhai"@, 0) + 4, clean.len() as int),
                        ))
                    } else {
                        r.0 matches CommandPlan::Single { tokens, background } && background == bg
                            && (exists|gs: Seq<Option<Seq<Seq<char>>>>|
                            {
                                let pre = preglob_tokens(
                                    ws,
                                    env@,
                                    int_digits(last_exit_code as int),
                                    nat_digits(shell_pid as nat),
                                    home@,
                                );
                                &&& #[trigger] gs.len() == ws.len()
                                &&& tokens@.map_values(|t: String| t@) == globs_expanded(pre, gs)
                                &&& forall|k: int|
                                    0 <= k < pre.len() && !crate::expansion::has_wildcard(pre[k])
                                        ==> (#[trigger] gs[k]) is None
                            })
                    }
                },
            }
        },
        split_pipes_of(input@).len() > 1 ==> r.1@.map_values(|u: usize| u as int)
            == bound_hit_segments(
            split_pipes_of(input@),
            0,
            aliases@,
            ALIAS_DEPTH_BOUND as nat,
        ),
        split_pipes_of(input@).len() > 1 && planned_pre_stages(
            input@,
            aliases@,
            env@,
            last_exit_code,
            shell_pid,
            home@,
        ).len() == 0 ==> r.0 is Empty,
        split_pipes_of(input@).len() > 1 && planned_pre_stages(
            input@,
            aliases@,
            env@,
            last_exit_code,
            shell_pid,
            home@,
        ).len() > 0 ==> (r.0 matches CommandPlan::PipedStages { stages } && (exists|
            gss: Seq<Seq<Option<Seq<Seq<char>>>>>,
        | #[trigger] stages_match(
            stages@,
            planned_pre_stages(input@, aliases@, env@, last_exit_code, shell_pid, home@),
            gss,
        ))),
{
    let ic = str_chars(input);
    if chars_all_space(&ic) {
        proof {
            crate::splitting::lemma_split_pipes_all_space(input@);
        }
        return (CommandPlan::Empty, Vec::new());
    }
    let segments = split_pipes_respecting_quotes(input);
    proof {
        assert(segments@.map_values(|t: String| t@) == split_pipes_of(input@));
        assert(segments@.len() == split_pipes_of(input@).len());
    }
    if segments.len() == 1 {
        let sc = str_chars(segments[0].as_str());
        proof {
            assert(segments@.map_values(|t: String| t@)[0] == segments@[0]@);
        }
        let raw = trim_chars(&sc);
        let background = raw.len() > 0 && raw[raw.len() - 1] == '&';
        let clean = if background {
            let stripped = subvec(&raw, 0, raw.len() - 1);
            trim_chars(&stripped)
        } else {
            subvec(&raw, 0, raw.len())
        };
        proof {
            assert(background_split(split_pipes_of(input@)[0]).0 == background);
            assert(background_split(split_pipes_of(input@)[0]).1 =~= clean@);
        }
        let clean_str = chars_string(&clean);
        let tokens = match split_words(clean_str.as_str()) {
            Some(t) => t,
            None => {
                return (CommandPlan::SyntaxError, Vec::new());
            },
        };
        if tokens.len() == 0 {
            return (CommandPlan::Empty, Vec::new());
        }
        proof {
            reveal_strlit("rhai");
            assert(tokens@.map_values(|t: String| t@)[0] == tokens@[0]@);
        }
        let t0 = str_chars(tokens[0].as_str());
        if chars_eq_str(&t0, "rhai") {
            let pat = str_chars("rhai");
            proof {
                lemma_scan_sub_bounds(clean@, "rhai"@, 0);
            }
            let idx = find_sub(&clean, &pat);
            if clean.len() >= 4 && idx <= clean.len() - 4 {
                let rest = subvec(&clean, idx + 4, clean.len());
                let code_part = trim_chars(&rest);
                let mut out: Vec<String> = Vec::new();
                out.push("rhai".to_owned());
                out.push(chars_string(&code_part));
                return (CommandPlan::Single { tokens: out, background }, Vec::new());
            }
            return (CommandPlan::Single { tokens, background }, Vec::new());
        }
        let ghost ws = tokens@.map_values(|t: String| t@);
        let tokens = expand_variables_with_state(tokens, last_exit_code, shell_pid, env);
        let tokens = expand_tilde(tokens, home);
        proof {
            assert(tokens@.map_values(|t: String| t@) =~= preglob_tokens(
                ws,
                env@,
                int_digits(last_exit_code as int),
                nat_digits(shell_pid as nat),
                home@,
            ));
        }
        let ghost pre = tokens@.map_values(|t: String| t@);
        let tokens = expand_globs(tokens);
        if tokens.len() == 0 {
            proof {
                let gs = choose|gs: Seq<Option<Seq<Seq<char>>>>|
                    #[trigger] gs.len() == pre.len() && tokens@.map_values(|t: String| t@)
                        == globs_expanded(pre, gs);
                lemma_globs_expanded_len(pre, gs);
            }
            return (CommandPlan::Empty, Vec::new());
        }
        (CommandPlan::Single { tokens, background }, Vec::new())
    } else {
        let ghost sv = split_pipes_of(input@);
        let ghost codev = int_digits(last_exit_code as int);
        let ghost pidv = nat_digits(shell_pid as nat);
        let ghost ab = ALIAS_DEPTH_BOUND as nat;
        let ghost pres0 = pre_stages(sv, 0, aliases@, env@, codev, pidv, home@, ab);
        let ghost hits0 = bound_hit_segments(sv, 0, aliases@, ab);
        let ghost mut pres_done: Seq<Seq<Seq<char>>> = Seq::empty();
        let ghost mut gss: Seq<Seq<Option<Seq<Seq<char>>>>> = Seq::empty();
        let mut stages: Vec<Vec<String>> = Vec::new();
        let mut hits: Vec<usize> = Vec::new();
        let mut k: usize = 0;
        proof {
            assert(pres0 =~= pres_done + pre_stages(sv, 0, aliases@, env@, codev, pidv, home@, ab));
            assert(hits@.map_values(|u: usize| u as int) =~= Seq::<int>::empty());
            assert(hits0 =~= hits@.map_values(|u: usize| u as int) + bound_hit_segments(
                sv,
                0,
                aliases@,
                ab,
            ));
        }
        while k < segments.len()
            invariant
                k <= segments@.len(),
                aliases.wf(),
                env.wf(),
                segments@.map_values(|t: String| t@) == sv,
                sv == split_pipes_of(input@),
                codev == int_digits(last_exit_code as int),
                pidv == nat_digits(shell_pid as nat),
                ab == ALIAS_DEPTH_BOUND as nat,
                pres0 == pre_stages(sv, 0, aliases@, env@, codev, pidv, home@, ab),
                hits0 == bound_hit_segments(sv, 0, aliases@, ab),
                pres0 == pres_done + pre_stages(sv, k as int, aliases@, env@, codev, pidv, home@, ab),
                hits0 == hits@.map_values(|u: usize| u as int) + bound_hit_segments(
                    sv,
                    k as int,
                    aliases@,
                    ab,
                ),
                stages_match(stages@, pres_done, gss),
            decreases segments@.len() - k,
        {
            let ghost seg = sv[k as int];
            proof {
                assert(segments@.map_values(|t: String| t@)[k as int] == segments@[k as int]@);
            }
            let ghost hits_pre = hits@;
            let (expanded, bound_hit) = expand_alias_string(segments[k].as_str(), aliases);
            if bound_hit {
                hits.push(k);
            }
            proof {
                assert(bound_hit_segments(sv, k as int, aliases@, ab) == (if !alias_expansion_stable(
                    seg,
                    aliases@,
                    0,
                    ab,
                ) {
                    seq![k as int] + bound_hit_segments(sv, k + 1, aliases@, ab)
                } else {
                    bound_hit_segments(sv, k + 1, aliases@, ab)
                }));
                if bound_hit {
                    assert(hits@.map_values(|u: usize| u as int) =~= hits_pre.map_values(
                        |u: usize| u as int,
                    ).push(k as int));
                }
                assert(hits0 =~= hits@.map_values(|u: usize| u as int) + bound_hit_segments(
                    sv,
                    k + 1,
                    aliases@,
                    ab,
                ));
            }
            let ghost tspec = trim(alias_expanded(seg, aliases@, ab));
            let ec = str_chars(expanded.as_str());
            let trimmed = trim_chars(&ec);
            proof {
                assert(trimmed@ == tspec);
            }
            if trimmed.len() == 0 {
                proof {
                    assert(segment_pre_stage(seg, aliases@, env@, codev, pidv, home@, ab) is None);
                    assert(pre_stages(sv, k as int, aliases@, env@, codev, pidv, home@, ab)
                        == pre_stages(sv, k + 1, aliases@, env@, codev, pidv, home@, ab));
                }
                k += 1;
                continue;
            }
            let trimmed_str = chars_string(&trimmed);
            let tokens = match split_words(trimmed_str.as_str()) {
                Some(t) => {
                    if t.len() > 0 {
                        t
                    } else {
                        split_on_spaces(&trimmed)
                    }
                },
                None => split_on_spaces(&trimmed),
            };
            let ghost wspec = match shell_words_of(tspec) {
                Some(ws0) => if ws0.len() > 0 {
                    ws0
                } else {
                    space_words(tspec, 0)
                },
                None => space_words(tspec, 0),
            };
            proof {
                assert(tokens@.map_values(|t: String| t@) == wspec);
            }
            if tokens.len() == 0 {
                proof {
                    assert(segment_pre_stage(seg, aliases@, env@, codev, pidv, home@, ab) is None);
                    assert(pre_stages(sv, k as int, aliases@, env@, codev, pidv, home@, ab)
                        == pre_stages(sv, k + 1, aliases@, env@, codev, pidv, home@, ab));
                }
                k += 1;
                continue;
            }
            let pre_tokens = expand_variables_with_state(tokens, last_exit_code, shell_pid, env);
            let pre_tokens = expand_tilde(pre_tokens, home);
            let ghost argv = pre_tokens@;
            let ghost pre = pre_tokens@.map_values(|t: String| t@);
            proof {
                assert(pre =~= preglob_tokens(wspec, env@, codev, pidv, home@));
                assert(segment_pre_stage(seg, aliases@, env@, codev, pidv, home@, ab) == Some(pre));
            }
            let tokens = expand_globs(pre_tokens);
            let ghost gsk = choose|gs: Seq<Option<Seq<Seq<char>>>>|
                #[trigger] gs.len() == argv.len() && tokens@.map_values(|t: String| t@)
                    == globs_expanded(argv.map_values(|t: String| t@), gs) && (forall|j: int|
                    0 <= j < argv.len() && !crate::expansion::has_wildcard(argv[j]@) ==> (
                    #[trigger] gs[j]) is None);
            proof {
                assert(gsk.len() == pre.len());
                assert(tokens@.map_values(|t: String| t@) == globs_expanded(pre, gsk));
                assert forall|j: int|
                    0 <= j < pre.len() && !crate::expansion::has_wildcard(
                        #[trigger] pre[j],
                    ) implies gsk[j] is None by {
                    assert(pre[j] == argv[j]@);
                }
            }
            let ghost stages_pre = stages@;
            let ghost pres_pre = pres_done;
            let ghost gss_pre = gss;
            let ghost pushed = tokens@;
            stages.push(tokens);
            proof {
                pres_done = pres_pre.push(pre);
                gss = gss_pre.push(gsk);
                assert(pre_stages(sv, k as int, aliases@, env@, codev, pidv, home@, ab) == seq![pre]
                    + pre_stages(sv, k + 1, aliases@, env@, codev, pidv, home@, ab));
                assert(pres0 =~= pres_done + pre_stages(
                    sv,
                    k + 1,
                    aliases@,
                    env@,
                    codev,
                    pidv,
                    home@,
                    ab,
                ));
                lemma_stages_match_push(
                    stages_pre,
                    pres_pre,
                    gss_pre,
                    stages@.last(),
                    pre,
                    gsk,
                );
                assert(stages@ == stages_pre.push(stages@.last()));
            }
            k += 1;
        }
        proof {
            assert(pre_stages(sv, segments@.len() as int, aliases@, env@, codev, pidv, home@, ab)
                =~= Seq::<Seq<Seq<char>>>::empty());
            assert(bound_hit_segments(sv, segments@.len() as int, aliases@, ab)
                =~= Seq::<int>::empty());
            assert(pres0 == pres_done) by {
                assert(pres0 =~= pres_done + Seq::<Seq<Seq<char>>>::empty());
                assert(pres_done + Seq::<Seq<Seq<char>>>::empty() =~= pres_done);
            }
            assert(hits0 =~= hits@.map_values(|u: usize| u as int));
            assert(pres0 == planned_pre_stages(
                input@,
                aliases@,
                env@,
                last_exit_code,
                shell_pid,
                home@,
            ));
        }
        if stages.len() == 0 {
            return (CommandPlan::Empty, hits);
        }
        let plan = CommandPlan::PipedStages { stages };
        proof {
            assert(plan matches CommandPlan::PipedStages { stages: st } && stages_match(
                st@,
                planned_pre_stages(input@, aliases@, env@, last_exit_code, shell_pid, home@),
                gss,
            ));
            assert(plan matches CommandPlan::PipedStages { stages: st } && (exists|
                gss2: Seq<Seq<Option<Seq<Seq<char>>>>>,
            | #[trigger] stages_match(
                st@,
                planned_pre_stages(input@, aliases@, env@, last_exit_code, shell_pid, home@),
                gss2,
            )));
        }
        (plan, hits)
    }
}

/// Whether the dispatch loop goes on to the next logical part: it stops only
/// when the operator after the part just run is `&&` and that part failed.
/// An `||` does not skip anything here: only the AND short-circuit is
/// honored, and a success simply continues the chain.
pub fn continue_after(next_op: Option<LogicalOp>, exit_code: i32) -> (r: bool)
    ensures
        r == !(next_op == Some(LogicalOp::And) && exit_code != 0),
{
    match next_op {
        Some(LogicalOp::And) => exit_code == 0,
        _ => true,
    }
}

/// Whether an alias expansion changed the part and introduced a logical
/// operator (`&&` or `||`), so the whole line must be split again.
pub fn needs_resplit(original: &str, expanded: &str) -> (r: bool)
    ensures
        r == (expanded@ != original@ && (has_sub(expanded@, "&&"@) || has_sub(
            expanded@,
            "||"@,
        ))),
{
    proof {
        reveal_strlit("&&");
        reveal_strlit("||");
    }
    let oc = str_chars(original);
    let ec = str_chars(expanded);
    if chars_eq(&ec, &oc) {
        return false;
    }
    let pat_and = str_chars("&&");
    let pat_or = str_chars("||");
    proof {
        lemma_scan_sub_bounds(ec@, "&&"@, 0);
        lemma_scan_sub_bounds(ec@, "||"@, 0);
    }
    let idx_and = find_sub(&ec, &pat_and);
    let idx_or = find_sub(&ec, &pat_or);
    ec.len() >= 2 && (idx_and <= ec.len() - 2 || idx_or <= ec.len() - 2)
}

/// What to do with one line of the startup configuration file.
pub enum ConfigLineAction {
    /// A blank or comment line: nothing.
    Skip,
    /// The line's quoting does not parse: report it, run nothing.
    BadQuoting,
    /// Run the trimmed line as an input line.
    Run { text: String },
}

/// Decides what to do with one configuration-file line: blank lines and
/// `#` comments are skipped, lines with unclosed quotes are reported, and
/// the rest run as if typed.
pub fn config_line_action(line: &str) -> (r: ConfigLineAction)
    ensures
        ({
            let t = trim(line@);
            if t.len() == 0 || t[0] == '#' {
                r is Skip
            } else {
                match shell_words_of(t) {
                    None => r is BadQuoting,
                    Some(ws) => r matches ConfigLineAction::Run { text } && text@ == t,
                }
            }
        }),
{
    let lc = str_chars(line);
    let t = trim_chars(&lc);
    if t.len() == 0 {
        return ConfigLineAction::Skip;
    }
    if t[0] == '#' {
        return ConfigLineAction::Skip;
    }
    let ts = chars_string(&t);
    match split_words(ts.as_str()) {
        Some(_) => ConfigLineAction::Run { text: ts },
        None => ConfigLineAction::BadQuoting,
    }
}

/// The session state of the interpreter: the alias table, the last exit
/// code, the previous working directory for `cd -`, and the configuration.
/// The scripting engine and its loaded plugin unit live with the caller.
pub struct ShellState {
    /// The alias table.
    pub aliases: StrTable,
    /// The exit code of the last command run.
    pub last_exit_code: i32,
    /// The previous working directory.
    pub previous_dir: Option<String>,
    /// The loaded configuration.
    pub config: CliosConfig,
}

impl ShellState {
    /// A fresh session: no aliases, last exit code 0, no previous
    /// directory.
    pub fn new(config: CliosConfig) -> (r: ShellState)
        ensures
            r.aliases.wf(),
            r.aliases@ == Map::<Seq<char>, Seq<char>>::empty(),
            r.last_exit_code == 0,
            r.previous_dir is None,
            r.config == config,
    {
        ShellState { aliases: StrTable::new(), last_exit_code: 0, previous_dir: None, config }
    }
}

} // verus!
