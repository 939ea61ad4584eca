//! Command-substitution scanning. A `$(...)` group is collected with
//! nested-parenthesis tracking; the scanner returns the literal text around
//! the substitutions and the inner command texts, so that a caller can run
//! the commands and splice their captured output back in. A blank `$()`
//! contributes nothing and is counted as a warning; an unterminated `$(` is
//! a syntax error whose literal text is kept in place.

use vstd::prelude::*;

use crate::chars::all_space;
use crate::chars::chars_all_space;
use crate::chars::chars_string;
use crate::chars::push_all;
use crate::chars::str_chars;

verus! {

/// The inner text of a parenthesized group starting at `i` (just after the
/// opening `$(`), and the position of the matching close parenthesis, `None`
/// when the group never closes. `nested` counts open inner parentheses.
pub open spec fn group_inner(s: Seq<char>, i: int, nested: nat) -> (Seq<char>, Option<int>)
    decreases s.len() - i,
    when 0 <= i
{
    if i >= s.len() {
        (Seq::empty(), None)
    } else {
        let c = s[i];
        if c == '(' {
            let rest = group_inner(s, i + 1, nested + 1);
            (seq![c] + rest.0, rest.1)
        } else if c == ')' {
            if nested > 0 {
                let rest = group_inner(s, i + 1, (nested - 1) as nat);
                (seq![c] + rest.0, rest.1)
            } else {
                (Seq::empty(), Some(i))
            }
        } else {
            let rest = group_inner(s, i + 1, nested);
            (seq![c] + rest.0, rest.1)
        }
    }
}

/// What a scan of the input yields: the literal pieces between
/// substitutions, the command texts to run, how many blank substitutions
/// were dropped, and whether an unterminated `$(` was seen.
pub struct ScanShape {
    pub lits: Seq<Seq<char>>,
    pub cmds: Seq<Seq<char>>,
    pub empties: nat,
    pub unterm: bool,
}

/// The scan of `s` from position `i` on.
pub open spec fn scan_subs_at(s: Seq<char>, i: int) -> ScanShape
    decreases s.len() - i,
    when 0 <= i
    via scan_subs_at_dec
{
    if i >= s.len() {
        ScanShape { lits: seq![Seq::empty()], cmds: Seq::empty(), empties: 0, unterm: false }
    } else {
        let c = s[i];
        if c == '$' && i + 1 < s.len() && s[i + 1] == '(' {
            let (inner, close) = group_inner(s, i + 2, 0);
            match close {
                Some(j) => {
                    let rest = scan_subs_at(s, j + 1);
                    if all_space(inner) {
                        ScanShape {
                            lits: rest.lits,
                            cmds: rest.cmds,
                            empties: rest.empties + 1,
                            unterm: rest.unterm,
                        }
                    } else {
                        ScanShape {
                            lits: seq![Seq::<char>::empty()] + rest.lits,
                            cmds: seq![inner] + rest.cmds,
                            empties: rest.empties,
                            unterm: rest.unterm,
                        }
                    }
                },
                None => ScanShape {
                    lits: seq![seq!['$', '('] + inner],
                    cmds: Seq::empty(),
                    empties: 0,
                    unterm: true,
                },
            }
        } else {
            let rest = scan_subs_at(s, i + 1);
            ScanShape {
                lits: seq![seq![c] + rest.lits[0]] + rest.lits.drop_first(),
                cmds: rest.cmds,
                empties: rest.empties,
                unterm: rest.unterm,
            }
        }
    }
}

proof fn lemma_group_inner_bounds(s: Seq<char>, i: int, nested: nat)
    requires
        0 <= i <= s.len(),
    ensures
        match group_inner(s, i, nested).1 {
            Some(j) => i <= j < s.len() && group_inner(s, i, nested).0.len() == j - i,
            None => true,
        },
    decreases s.len() - i,
{
    if i < s.len() {
        let c = s[i];
        if c == '(' {
            lemma_group_inner_bounds(s, i + 1, nested + 1);
        } else if c == ')' {
            if nested > 0 {
                lemma_group_inner_bounds(s, i + 1, (nested - 1) as nat);
            }
        } else {
            lemma_group_inner_bounds(s, i + 1, nested);
        }
    }
}

#[via_fn]
proof fn scan_subs_at_dec(s: Seq<char>, i: int) {
    if 0 <= i < s.len() {
        if s[i] == '$' && i + 1 < s.len() && s[i + 1] == '(' {
            lemma_group_inner_bounds(s, i + 2, 0);
        }
    }
}

/// The scan always yields one more literal than commands.
pub proof fn lemma_scan_shape(s: Seq<char>, i: int)
    requires
        0 <= i,
    ensures
        scan_subs_at(s, i).lits.len() == scan_subs_at(s, i).cmds.len() + 1,
        scan_subs_at(s, i).empties <= s.len() - i || scan_subs_at(s, i).empties == 0,
    decreases s.len() - i,
{
    if i < s.len() {
        let c = s[i];
        if c == '$' && i + 1 < s.len() && s[i + 1] == '(' {
            let (inner, close) = group_inner(s, i + 2, 0);
            match close {
                Some(j) => {
                    lemma_group_inner_bounds(s, i + 2, 0);
                    lemma_scan_shape(s, j + 1);
                },
                None => {},
            }
        } else {
            lemma_scan_shape(s, i + 1);
        }
    }
}

/// A line in which the scan found nothing to substitute (no commands, no
/// blank groups, no unterminated group) splices back to itself unchanged.
pub proof fn lemma_scan_without_subshells_identity(s: Seq<char>)
    requires
        scan_subs_at(s, 0).cmds.len() == 0,
        scan_subs_at(s, 0).empties == 0,
        !scan_subs_at(s, 0).unterm,
    ensures
        spliced(scan_subs_at(s, 0).lits, Seq::empty()) == s,
{
    lemma_scan_shape(s, 0);
    lemma_scan_literal_identity(s, 0);
    assert(spliced(scan_subs_at(s, 0).lits, Seq::empty()) == scan_subs_at(s, 0).lits[0]);
    assert(s.subrange(0, s.len() as int) =~= s);
}

proof fn lemma_scan_literal_identity(s: Seq<char>, i: int)
    requires
        0 <= i <= s.len(),
        scan_subs_at(s, i).cmds.len() == 0,
        scan_subs_at(s, i).empties == 0,
        !scan_subs_at(s, i).unterm,
    ensures
        scan_subs_at(s, i).lits[0] == s.subrange(i, s.len() as int),
    decreases s.len() - i,
{
    if i >= s.len() {
        assert(scan_subs_at(s, i).lits[0] =~= s.subrange(i, s.len() as int));
    } else {
        let c = s[i];
        if c == '$' && i + 1 < s.len() && s[i + 1] == '(' {
            let (inner, close) = group_inner(s, i + 2, 0);
            match close {
                Some(j) => {
                    // A closed group either adds a command or counts a blank
                    // one; both are ruled out here.
                    assert(false);
                },
                None => {
                    assert(false);
                },
            }
        } else {
            lemma_scan_shape(s, i + 1);
            lemma_scan_literal_identity(s, i + 1);
            let rest = scan_subs_at(s, i + 1);
            assert(scan_subs_at(s, i).lits[0] == seq![c] + rest.lits[0]);
            assert(scan_subs_at(s, i).lits[0] =~= s.subrange(i, s.len() as int));
        }
    }
}

/// The result of scanning a line for command substitutions.
pub struct SubshellScan {
    /// The literal pieces around the substitutions; one more than `commands`.
    pub literals: Vec<String>,
    /// The inner command texts, in order of appearance.
    pub commands: Vec<String>,
    /// How many blank `$()` groups were dropped (each is worth a warning).
    pub empty_count: usize,
    /// Whether an unterminated `$(` was seen (a syntax error; its text stays
    /// in the literals).
    pub unterminated: bool,
}

impl SubshellScan {
    /// The literal pieces, viewed as character sequences.
    pub open spec fn lits_view(&self) -> Seq<Seq<char>> {
        self.literals@.map_values(|t: String| t@)
    }

    /// The command texts, viewed as character sequences.
    pub open spec fn cmds_view(&self) -> Seq<Seq<char>> {
        self.commands@.map_values(|t: String| t@)
    }

    /// The scan is well shaped: one more literal than commands.
    pub open spec fn wf(&self) -> bool {
        self.literals@.len() == self.commands@.len() + 1
    }
}

/// Finds the matching close parenthesis from `start` on, returning the inner
/// text and the close position if any.
fn find_group_end(s: &Vec<char>, start: usize) -> (r: (Vec<char>, Option<usize>))
    requires
        start <= s@.len(),
    ensures
        r.0@ == group_inner(s@, start as int, 0).0,
        match r.1 {
            Some(j) => group_inner(s@, start as int, 0).1 == Some(j as int) && start <= j
                < s@.len(),
            None => group_inner(s@, start as int, 0).1 is None,
        },
{
    proof {
        lemma_group_inner_bounds(s@, start as int, 0);
    }
    let mut inner: Vec<char> = Vec::new();
    let mut nested: usize = 0;
    let mut i: usize = start;
    while i < s.len()
        invariant
            start <= i <= s@.len(),
            nested <= i,
            group_inner(s@, start as int, 0) == (
                inner@ + group_inner(s@, i as int, nested as nat).0,
                group_inner(s@, i as int, nested as nat).1,
            ),
        decreases s@.len() - i,
    {
        let c = s[i];
        if c == '(' {
            inner.push(c);
            nested += 1;
        } else if c == ')' {
            if nested > 0 {
                inner.push(c);
                nested -= 1;
            } else {
                return (inner, Some(i));
            }
        } else {
            inner.push(c);
        }
        i += 1;
        proof {
            assert(group_inner(s@, start as int, 0).0 =~= inner@ + group_inner(
                s@,
                i as int,
                nested as nat,
            ).0);
        }
    }
    proof {
        assert(group_inner(s@, start as int, 0).0 =~= inner@ + group_inner(
            s@,
            i as int,
            nested as nat,
        ).0);
    }
    (inner, None)
}

/// Scans a raw input line for `$(...)` substitutions with nesting, so inner
/// `$(...)` or bare `(...)` do not end the outer group early.
pub fn scan_subshells(input: &str) -> (r: SubshellScan)
    ensures
        r.wf(),
        r.lits_view() == scan_subs_at(input@, 0).lits,
        r.cmds_view() == scan_subs_at(input@, 0).cmds,
        r.empty_count as nat == scan_subs_at(input@, 0).empties,
        r.unterminated == scan_subs_at(input@, 0).unterm,
{
    let s = str_chars(input);
    let ghost whole = scan_subs_at(input@, 0);
    let mut lits: Vec<String> = Vec::new();
    let mut cmds: Vec<String> = Vec::new();
    let mut cur: Vec<char> = Vec::new();
    let mut empties: usize = 0;
    let mut i: usize = 0;
    proof {
        lemma_scan_shape(s@, 0);
        assert(lits@.map_values(|t: String| t@) =~= Seq::<Seq<char>>::empty());
        assert(cmds@.map_values(|t: String| t@) =~= Seq::<Seq<char>>::empty());
        assert(cur@ + whole.lits[0] =~= whole.lits[0]);
        assert(whole.lits =~= lits@.map_values(|t: String| t@).push(cur@ + whole.lits[0])
            + whole.lits.drop_first());
        assert(whole.cmds =~= cmds@.map_values(|t: String| t@) + whole.cmds);
    }
    while i < s.len()
        invariant
            i <= s@.len(),
            s@ == input@,
            whole == scan_subs_at(input@, 0),
            lits@.len() == cmds@.len(),
            ({
                let rest = scan_subs_at(s@, i as int);
                &&& rest.lits.len() == rest.cmds.len() + 1
                &&& whole.lits == lits@.map_values(|t: String| t@).push(cur@ + rest.lits[0])
                    + rest.lits.drop_first()
                &&& whole.cmds == cmds@.map_values(|t: String| t@) + rest.cmds
                &&& whole.empties == empties + rest.empties
                &&& whole.unterm == rest.unterm
                &&& empties + rest.empties <= s@.len()
            }),
        decreases s@.len() - i,
    {
        proof {
            lemma_scan_shape(s@, i as int);
        }
        let ghost rest0 = scan_subs_at(s@, i as int);
        let ghost cur0 = cur@;
        let ghost lits0 = lits@;
        let c = s[i];
        if c == '$' && i + 1 < s.len() && s[i + 1] == '(' {
            let (inner, close) = find_group_end(&s, i + 2);
            match close {
                Some(j) => {
                    proof {
                        lemma_scan_shape(s@, j + 1);
                    }
                    if chars_all_space(&inner) {
                        empties += 1;
                    } else {
                        lits.push(chars_string(&cur));
                        cmds.push(chars_string(&inner));
                        cur = Vec::new();
                        proof {
                            let rest = scan_subs_at(s@, j + 1 as int);
                            assert(lits@.map_values(|t: String| t@) =~= lits@.drop_last()
                                .map_values(|t: String| t@).push(
                                lits@.last()@,
                            ));
                            assert(cmds@.map_values(|t: String| t@) =~= cmds@.drop_last()
                                .map_values(|t: String| t@).push(
                                cmds@.last()@,
                            ));
                            assert(whole.lits =~= lits@.map_values(|t: String| t@).push(
                                cur@ + rest.lits[0],
                            ) + rest.lits.drop_first()) by {
                                assert(rest0.lits =~= seq![Seq::<char>::empty()] + rest.lits);
                                assert(rest0.lits[0] == Seq::<char>::empty());
                                assert(rest0.lits.drop_first() =~= rest.lits);
                                assert(rest.lits =~= seq![rest.lits[0]] + rest.lits.drop_first());
                            }
                            assert(whole.cmds =~= cmds@.map_values(|t: String| t@) + rest.cmds);
                        }
                    }
                    i = j + 1;
                },
                None => {
                    // The group never closes: the literal `$(` and the
                    // collected text stay in the output.
                    cur.push('$');
                    cur.push('(');
                    push_all(&mut cur, &inner);
                    lits.push(chars_string(&cur));
                    proof {
                        assert(rest0.lits[0] == seq!['$', '('] + inner@);
                        assert(rest0.lits.drop_first() =~= Seq::<Seq<char>>::empty());
                        assert(cur@ =~= cur0 + rest0.lits[0]);
                        assert(lits@.drop_last() == lits0);
                        assert(lits@.map_values(|t: String| t@) =~= lits0.map_values(
                            |t: String| t@,
                        ).push(lits@.last()@));
                        assert(whole.lits =~= lits@.map_values(|t: String| t@));
                        assert(whole.cmds =~= cmds@.map_values(|t: String| t@));
                    }
                    return SubshellScan {
                        literals: lits,
                        commands: cmds,
                        empty_count: empties,
                        unterminated: true,
                    };
                },
            }
        } else {
            cur.push(c);
            i += 1;
            proof {
                lemma_scan_shape(s@, i as int);
                let rest = scan_subs_at(s@, i as int);
                assert(rest0.lits == seq![seq![c] + rest.lits[0]] + rest.lits.drop_first());
                assert(rest0.lits[0] == seq![c] + rest.lits[0]);
                assert(rest0.lits.drop_first() =~= rest.lits.drop_first());
                assert(cur@ == cur0.push(c));
                assert(cur@ + rest.lits[0] =~= cur0 + rest0.lits[0]);
                assert(whole.lits =~= lits@.map_values(|t: String| t@).push(cur@ + rest.lits[0])
                    + rest.lits.drop_first());
            }
        }
    }
    lits.push(chars_string(&cur));
    proof {
        assert(lits@.map_values(|t: String| t@) =~= lits@.drop_last().map_values(|t: String| t@)
            .push(lits@.last()@));
        assert(whole.lits =~= lits@.map_values(|t: String| t@));
        assert(whole.cmds =~= cmds@.map_values(|t: String| t@));
    }
    SubshellScan { literals: lits, commands: cmds, empty_count: empties, unterminated: false }
}

/// The literal pieces interleaved with the command outputs.
pub open spec fn spliced(lits: Seq<Seq<char>>, outs: Seq<Seq<char>>) -> Seq<char>
    decreases lits.len(),
{
    if lits.len() == 0 {
        Seq::empty()
    } else if outs.len() == 0 {
        lits[0]
    } else {
        lits[0] + outs[0] + spliced(lits.drop_first(), outs.drop_first())
    }
}

/// Splices the captured outputs of the scanned commands back between the
/// literal pieces, in order.
pub fn splice_subshells(scan: &SubshellScan, outputs: &Vec<String>) -> (r: String)
    requires
        scan.wf(),
        outputs@.len() == scan.commands@.len(),
    ensures
        r@ == spliced(scan.lits_view(), outputs@.map_values(|t: String| t@)),
{
    let mut out: Vec<char> = Vec::new();
    let mut k: usize = 0;
    let ghost lv = scan.lits_view();
    let ghost ov = outputs@.map_values(|t: String| t@);
    proof {
        assert(lv.subrange(0, lv.len() as int) =~= lv);
        assert(ov.subrange(0, ov.len() as int) =~= ov);
        assert(out@ + spliced(lv, ov) =~= spliced(lv, ov));
    }
    while k < outputs.len()
        invariant
            scan.wf(),
            outputs@.len() == scan.commands@.len(),
            k <= outputs@.len(),
            lv == scan.lits_view(),
            ov == outputs@.map_values(|t: String| t@),
            out@ + spliced(lv.subrange(k as int, lv.len() as int), ov.subrange(k as int, ov.len() as int))
                == spliced(lv, ov),
        decreases outputs@.len() - k,
    {
        let mut lc = str_chars(scan.literals[k].as_str());
        out.append(&mut lc);
        let mut oc = str_chars(outputs[k].as_str());
        out.append(&mut oc);
        k += 1;
        proof {
            let pl = lv.subrange(k - 1 as int, lv.len() as int);
            let po = ov.subrange(k - 1 as int, ov.len() as int);
            assert(pl.drop_first() =~= lv.subrange(k as int, lv.len() as int));
            assert(po.drop_first() =~= ov.subrange(k as int, ov.len() as int));
            assert(out@ + spliced(lv.subrange(k as int, lv.len() as int), ov.subrange(k as int, ov.len() as int))
                =~= spliced(lv, ov));
        }
    }
    let mut lc = str_chars(scan.literals[outputs.len()].as_str());
    out.append(&mut lc);
    proof {
        let pl = lv.subrange(k as int, lv.len() as int);
        let po = ov.subrange(k as int, ov.len() as int);
        assert(po.len() == 0);
        assert(pl[0] == lv[k as int]);
        assert(out@ =~= spliced(lv, ov));
    }
    chars_string(&out)
}

} // verus!
