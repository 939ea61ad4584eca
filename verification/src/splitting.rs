//! Quote-aware splitters: one for the logical operators `&&` and `||`, one
//! for the pipe character. Both walk the string keeping two flags, inside
//! single quotes and inside double quotes; a quote toggles its own flag only
//! outside the other quote kind, and an operator splits only outside both.

use vstd::prelude::*;

use crate::chars::all_space;
use crate::chars::is_space_char;
use crate::chars::chars_all_space;
use crate::chars::chars_string;
use crate::chars::str_chars;

verus! {

/// The logical operator that follows a part of a command line.
#[derive(Debug, Clone, Copy, PartialEq, Eq, Structural)]
pub enum LogicalOp {
    And,
    Or,
}

/// A piece of a command line together with the operator that follows it
/// (`None` for the last piece).
#[derive(Debug, Clone)]
pub struct LogicalPart {
    pub command: String,
    pub next_op: Option<LogicalOp>,
}

impl View for LogicalPart {
    type V = (Seq<char>, Option<LogicalOp>);

    open spec fn view(&self) -> (Seq<char>, Option<LogicalOp>) {
        (self.command@, self.next_op)
    }
}

/// The views of a vector of parts.
pub open spec fn parts_view(ps: Seq<LogicalPart>) -> Seq<(Seq<char>, Option<LogicalOp>)> {
    ps.map_values(|p: LogicalPart| p@)
}

/// The split of `s` from position `i`, carrying the two quote flags and the
/// text accumulated for the current part. A `&&` or `||` outside quotes ends
/// the part (blank parts are dropped); a lone `&` or `|` passes through.
pub open spec fn split_logical_at(
    s: Seq<char>,
    i: int,
    in_s: bool,
    in_d: bool,
    cur: Seq<char>,
) -> Seq<(Seq<char>, Option<LogicalOp>)>
    decreases s.len() - i,
    when 0 <= i
{
    if i >= s.len() {
        if all_space(cur) {
            Seq::empty()
        } else {
            seq![(cur, None::<LogicalOp>)]
        }
    } else {
        let c = s[i];
        if c == '\'' {
            split_logical_at(
                s,
                i + 1,
                if in_d {
                    in_s
                } else {
                    !in_s
                },
                in_d,
                cur.push(c),
            )
        } else if c == '"' {
            split_logical_at(
                s,
                i + 1,
                in_s,
                if in_s {
                    in_d
                } else {
                    !in_d
                },
                cur.push(c),
            )
        } else if c == '&' && !in_s && !in_d && i + 1 < s.len() && s[i + 1] == '&' {
            if all_space(cur) {
                split_logical_at(s, i + 2, in_s, in_d, Seq::empty())
            } else {
                seq![(cur, Some(LogicalOp::And))] + split_logical_at(
                    s,
                    i + 2,
                    in_s,
                    in_d,
                    Seq::empty(),
                )
            }
        } else if c == '|' && !in_s && !in_d && i + 1 < s.len() && s[i + 1] == '|' {
            if all_space(cur) {
                split_logical_at(s, i + 2, in_s, in_d, Seq::empty())
            } else {
                seq![(cur, Some(LogicalOp::Or))] + split_logical_at(
                    s,
                    i + 2,
                    in_s,
                    in_d,
                    Seq::empty(),
                )
            }
        } else {
            split_logical_at(s, i + 1, in_s, in_d, cur.push(c))
        }
    }
}

/// The logical split of a whole command line.
pub open spec fn split_logical_of(s: Seq<char>) -> Seq<(Seq<char>, Option<LogicalOp>)> {
    split_logical_at(s, 0, false, false, Seq::empty())
}

/// Splits a command line on unquoted `&&` and `||`, recording per part which
/// operator followed it, so the dispatch loop can short-circuit without
/// re-scanning.
pub fn split_logical_operators(input: &str) -> (r: Vec<LogicalPart>)
    ensures
        parts_view(r@) == split_logical_of(input@),
{
    let s = str_chars(input);
    let mut parts: Vec<LogicalPart> = Vec::new();
    let mut cur: Vec<char> = Vec::new();
    let mut in_s = false;
    let mut in_d = false;
    let mut i: usize = 0;
    while i < s.len()
        invariant
            i <= s@.len(),
            s@ == input@,
            parts_view(parts@) + split_logical_at(s@, i as int, in_s, in_d, cur@)
                == split_logical_of(input@),
        decreases s@.len() - i,
    {
        let c = s[i];
        if c == '\'' {
            if !in_d {
                in_s = !in_s;
            }
            cur.push(c);
            i += 1;
        } else if c == '"' {
            if !in_s {
                in_d = !in_d;
            }
            cur.push(c);
            i += 1;
        } else if c == '&' && !in_s && !in_d && i + 1 < s.len() && s[i + 1] == '&' {
            if !chars_all_space(&cur) {
                let part = LogicalPart {
                    command: chars_string(&cur),
                    next_op: Some(LogicalOp::And),
                };
                parts.push(part);
                proof {
                    assert(parts_view(parts@) =~= parts_view(parts@.drop_last()) + seq![
                        (cur@, Some(LogicalOp::And)),
                    ]);
                }
            }
            cur = Vec::new();
            i += 2;
        } else if c == '|' && !in_s && !in_d && i + 1 < s.len() && s[i + 1] == '|' {
            if !chars_all_space(&cur) {
                let part = LogicalPart {
                    command: chars_string(&cur),
                    next_op: Some(LogicalOp::Or),
                };
                parts.push(part);
                proof {
                    assert(parts_view(parts@) =~= parts_view(parts@.drop_last()) + seq![
                        (cur@, Some(LogicalOp::Or)),
                    ]);
                }
            }
            cur = Vec::new();
            i += 2;
        } else {
            cur.push(c);
            i += 1;
        }
        proof {
            assert(parts_view(parts@) + split_logical_at(s@, i as int, in_s, in_d, cur@)
                =~= split_logical_of(input@));
        }
    }
    if !chars_all_space(&cur) {
        let part = LogicalPart { command: chars_string(&cur), next_op: None };
        parts.push(part);
        proof {
            assert(parts_view(parts@) =~= parts_view(parts@.drop_last()) + seq![
                (cur@, None::<LogicalOp>),
            ]);
        }
    }
    proof {
        assert(parts_view(parts@) =~= split_logical_of(input@));
    }
    parts
}

/// The command texts of the logical split, operators dropped.
pub open spec fn logical_commands(s: Seq<char>) -> Seq<Seq<char>> {
    split_logical_of(s).map_values(|p: (Seq<char>, Option<LogicalOp>)| p.0)
}

/// Splits on unquoted `&&` and `||` and keeps only the command texts.
pub fn split_logical_and(input: &str) -> (r: Vec<String>)
    ensures
        r@.map_values(|t: String| t@) == logical_commands(input@),
{
    let parts = split_logical_operators(input);
    let mut r: Vec<String> = Vec::new();
    let mut k: usize = 0;
    while k < parts.len()
        invariant
            k <= parts@.len(),
            parts_view(parts@) == split_logical_of(input@),
            r@.len() == k,
            forall|j: int| 0 <= j < k ==> (#[trigger] r@[j])@ == split_logical_of(input@)[j].0,
        decreases parts@.len() - k,
    {
        r.push(parts[k].command.clone());
        k += 1;
    }
    proof {
        assert(r@.map_values(|t: String| t@) =~= logical_commands(input@));
    }
    r
}

/// Blank fragments are dropped: no part of the logical split is whitespace
/// only, so consecutive operators and operators at the line's edge never
/// yield a part.
pub proof fn lemma_split_logical_no_blank_parts(s: Seq<char>)
    ensures
        forall|k: int|
            0 <= k < split_logical_of(s).len() ==> !all_space(
                (#[trigger] split_logical_of(s)[k]).0,
            ),
{
    lemma_split_logical_no_blank_at(s, 0, false, false, Seq::empty());
}

proof fn lemma_split_logical_no_blank_at(
    s: Seq<char>,
    i: int,
    in_s: bool,
    in_d: bool,
    cur: Seq<char>,
)
    requires
        0 <= i,
    ensures
        forall|k: int|
            0 <= k < split_logical_at(s, i, in_s, in_d, cur).len() ==> !all_space(
                (#[trigger] split_logical_at(s, i, in_s, in_d, cur)[k]).0,
            ),
    decreases s.len() - i,
{
    let whole = split_logical_at(s, i, in_s, in_d, cur);
    if i >= s.len() {
        if !all_space(cur) {
            assert(whole == seq![(cur, None::<LogicalOp>)]);
            assert(whole[0].0 == cur);
        }
    } else {
        let c = s[i];
        if c == '\'' {
            let ns = if in_d {
                in_s
            } else {
                !in_s
            };
            lemma_split_logical_no_blank_at(s, i + 1, ns, in_d, cur.push(c));
            assert(whole == split_logical_at(s, i + 1, ns, in_d, cur.push(c)));
        } else if c == '"' {
            let nd = if in_s {
                in_d
            } else {
                !in_d
            };
            lemma_split_logical_no_blank_at(s, i + 1, in_s, nd, cur.push(c));
            assert(whole == split_logical_at(s, i + 1, in_s, nd, cur.push(c)));
        } else if (c == '&' || c == '|') && !in_s && !in_d && i + 1 < s.len() && s[i + 1] == c {
            lemma_split_logical_no_blank_at(s, i + 2, in_s, in_d, Seq::empty());
            let rest = split_logical_at(s, i + 2, in_s, in_d, Seq::empty());
            if !all_space(cur) {
                let op = if c == '&' {
                    LogicalOp::And
                } else {
                    LogicalOp::Or
                };
                assert(whole == seq![(cur, Some(op))] + rest);
                assert forall|k: int| 0 <= k < whole.len() implies !all_space(
                    (#[trigger] whole[k]).0,
                ) by {
                    if k > 0 {
                        assert(whole[k] == rest[k - 1]);
                    } else {
                        assert(whole[0].0 == cur);
                    }
                }
            } else {
                assert(whole == rest);
            }
        } else {
            lemma_split_logical_no_blank_at(s, i + 1, in_s, in_d, cur.push(c));
            assert(whole == split_logical_at(s, i + 1, in_s, in_d, cur.push(c)));
        }
    }
}

/// The pipe split of `s` from position `i`. An unquoted `|` always ends the
/// current piece, even a blank one; the final piece is kept only when
/// non-empty.
pub open spec fn split_pipes_at(
    s: Seq<char>,
    i: int,
    in_s: bool,
    in_d: bool,
    cur: Seq<char>,
) -> Seq<Seq<char>>
    decreases s.len() - i,
    when 0 <= i
{
    if i >= s.len() {
        if cur.len() == 0 {
            Seq::empty()
        } else {
            seq![cur]
        }
    } else {
        let c = s[i];
        if c == '\'' && !in_d {
            split_pipes_at(s, i + 1, !in_s, in_d, cur.push(c))
        } else if c == '"' && !in_s {
            split_pipes_at(s, i + 1, in_s, !in_d, cur.push(c))
        } else if c == '|' && !in_s && !in_d {
            seq![cur] + split_pipes_at(s, i + 1, in_s, in_d, Seq::empty())
        } else {
            split_pipes_at(s, i + 1, in_s, in_d, cur.push(c))
        }
    }
}

/// The pipe split of a whole command line: the pieces between unquoted pipe
/// characters, or the line itself when no piece remains.
pub open spec fn split_pipes_of(s: Seq<char>) -> Seq<Seq<char>> {
    let ps = split_pipes_at(s, 0, false, false, Seq::empty());
    if ps.len() == 0 {
        seq![s]
    } else {
        ps
    }
}

/// Whether a logical operator pair (`&&` or `||`) occurs outside quotes in
/// `s` from `i` on, under the given quote flags — exactly the occurrences
/// the splitter treats as split points.
pub open spec fn has_unquoted_logical_op(s: Seq<char>, i: int, in_s: bool, in_d: bool) -> bool
    decreases s.len() - i,
    when 0 <= i
{
    if i >= s.len() {
        false
    } else {
        let c = s[i];
        if c == '\'' {
            has_unquoted_logical_op(
                s,
                i + 1,
                if in_d {
                    in_s
                } else {
                    !in_s
                },
                in_d,
            )
        } else if c == '"' {
            has_unquoted_logical_op(
                s,
                i + 1,
                in_s,
                if in_s {
                    in_d
                } else {
                    !in_d
                },
            )
        } else if (c == '&' || c == '|') && !in_s && !in_d && i + 1 < s.len() && s[i + 1] == c {
            true
        } else {
            has_unquoted_logical_op(s, i + 1, in_s, in_d)
        }
    }
}

/// Quoted logical operators are never split points: a line in which every
/// `&&` and `||` lies inside quotes yields exactly one part holding the
/// line verbatim, with no operator after it (or no part at all when the
/// line is blank).
pub proof fn lemma_split_logical_quoted_identity(s: Seq<char>)
    requires
        !has_unquoted_logical_op(s, 0, false, false),
    ensures
        split_logical_of(s) == (if all_space(s) {
            Seq::<(Seq<char>, Option<LogicalOp>)>::empty()
        } else {
            seq![(s, None::<LogicalOp>)]
        }),
{
    lemma_split_logical_quoted_identity_at(s, 0, false, false, Seq::empty());
    assert(Seq::<char>::empty() + s.subrange(0, s.len() as int) =~= s);
}

proof fn lemma_split_logical_quoted_identity_at(
    s: Seq<char>,
    i: int,
    in_s: bool,
    in_d: bool,
    cur: Seq<char>,
)
    requires
        0 <= i <= s.len(),
        !has_unquoted_logical_op(s, i, in_s, in_d),
    ensures
        split_logical_at(s, i, in_s, in_d, cur) == (if all_space(
            cur + s.subrange(i, s.len() as int),
        ) {
            Seq::<(Seq<char>, Option<LogicalOp>)>::empty()
        } else {
            seq![(cur + s.subrange(i, s.len() as int), None::<LogicalOp>)]
        }),
    decreases s.len() - i,
{
    if i >= s.len() {
        assert(cur + s.subrange(i, s.len() as int) =~= cur);
    } else {
        let c = s[i];
        let (ns, nd) = if c == '\'' {
            (
                if in_d {
                    in_s
                } else {
                    !in_s
                },
                in_d,
            )
        } else if c == '"' {
            (
                in_s,
                if in_s {
                    in_d
                } else {
                    !in_d
                },
            )
        } else {
            (in_s, in_d)
        };
        assert(split_logical_at(s, i, in_s, in_d, cur) == split_logical_at(
            s,
            i + 1,
            ns,
            nd,
            cur.push(c),
        ));
        lemma_split_logical_quoted_identity_at(s, i + 1, ns, nd, cur.push(c));
        assert(cur.push(c) + s.subrange(i + 1, s.len() as int) =~= cur + s.subrange(
            i,
            s.len() as int,
        ));
    }
}

/// Whether an unquoted pipe character occurs in `s` from `i` on, under the
/// given quote flags — exactly the occurrences the pipe splitter splits at.
pub open spec fn has_unquoted_pipe(s: Seq<char>, i: int, in_s: bool, in_d: bool) -> bool
    decreases s.len() - i,
    when 0 <= i
{
    if i >= s.len() {
        false
    } else {
        let c = s[i];
        if c == '\'' && !in_d {
            has_unquoted_pipe(s, i + 1, !in_s, in_d)
        } else if c == '"' && !in_s {
            has_unquoted_pipe(s, i + 1, in_s, !in_d)
        } else if c == '|' && !in_s && !in_d {
            true
        } else {
            has_unquoted_pipe(s, i + 1, in_s, in_d)
        }
    }
}

/// A pipe split always yields at least one piece.
pub proof fn lemma_split_pipes_nonempty_result(s: Seq<char>)
    ensures
        split_pipes_of(s).len() >= 1,
{
    let ps = split_pipes_at(s, 0, false, false, Seq::empty());
    if ps.len() == 0 {
        assert(split_pipes_of(s) == seq![s]);
    }
}

/// Quoted pipes are never split points: a line with no unquoted pipe comes
/// back as a single piece, the line itself.
pub proof fn lemma_split_pipes_quoted_identity(s: Seq<char>)
    requires
        !has_unquoted_pipe(s, 0, false, false),
    ensures
        split_pipes_of(s) == seq![s],
{
    lemma_split_pipes_quoted_identity_at(s, 0, false, false, Seq::empty());
    let ps = split_pipes_at(s, 0, false, false, Seq::empty());
    if ps.len() == 0 {
        assert(split_pipes_of(s) == seq![s]);
    } else {
        assert(Seq::<char>::empty() + s.subrange(0, s.len() as int) =~= s);
    }
}

proof fn lemma_split_pipes_quoted_identity_at(
    s: Seq<char>,
    i: int,
    in_s: bool,
    in_d: bool,
    cur: Seq<char>,
)
    requires
        0 <= i <= s.len(),
        !has_unquoted_pipe(s, i, in_s, in_d),
    ensures
        split_pipes_at(s, i, in_s, in_d, cur) == (if cur.len() + (s.len() - i) == 0 {
            Seq::<Seq<char>>::empty()
        } else {
            seq![cur + s.subrange(i, s.len() as int)]
        }),
    decreases s.len() - i,
{
    if i >= s.len() {
        assert(cur + s.subrange(i, s.len() as int) =~= cur);
    } else {
        let c = s[i];
        let (ns, nd) = if c == '\'' && !in_d {
            (!in_s, in_d)
        } else if c == '"' && !in_s {
            (in_s, !in_d)
        } else {
            (in_s, in_d)
        };
        assert(split_pipes_at(s, i, in_s, in_d, cur) == split_pipes_at(
            s,
            i + 1,
            ns,
            nd,
            cur.push(c),
        ));
        lemma_split_pipes_quoted_identity_at(s, i + 1, ns, nd, cur.push(c));
        assert(cur.push(c) + s.subrange(i + 1, s.len() as int) =~= cur + s.subrange(
            i,
            s.len() as int,
        ));
    }
}

/// A line of nothing but whitespace has no pipe to split on: its pipe
/// split is the line itself, alone.
pub proof fn lemma_split_pipes_all_space(s: Seq<char>)
    requires
        all_space(s),
    ensures
        split_pipes_of(s).len() == 1,
{
    lemma_split_pipes_all_space_at(s, 0, false, false, Seq::empty());
    let ps = split_pipes_at(s, 0, false, false, Seq::empty());
    if ps.len() == 0 {
        assert(split_pipes_of(s) == seq![s]);
    }
}

proof fn lemma_split_pipes_all_space_at(
    s: Seq<char>,
    i: int,
    in_s: bool,
    in_d: bool,
    cur: Seq<char>,
)
    requires
        0 <= i <= s.len(),
        forall|k: int| i <= k < s.len() ==> is_space_char(#[trigger] s[k]),
    ensures
        split_pipes_at(s, i, in_s, in_d, cur).len() <= 1,
    decreases s.len() - i,
{
    if i < s.len() {
        let c = s[i];
        assert(is_space_char(c));
        lemma_split_pipes_all_space_at(s, i + 1, in_s, in_d, cur.push(c));
    }
}

/// The pieces joined back with a pipe character between them.
pub open spec fn pipe_joined(ps: Seq<Seq<char>>) -> Seq<char>
    decreases ps.len(),
{
    if ps.len() == 0 {
        Seq::empty()
    } else if ps.len() == 1 {
        ps[0]
    } else {
        ps[0] + seq!['|'] + pipe_joined(ps.drop_first())
    }
}

proof fn lemma_split_pipes_some_piece(s: Seq<char>, i: int, in_s: bool, in_d: bool, cur: Seq<char>)
    requires
        0 <= i < s.len(),
    ensures
        split_pipes_at(s, i, in_s, in_d, cur).len() >= 1,
    decreases s.len() - i,
{
    let c = s[i];
    if c == '|' && !in_s && !in_d {
    } else {
        let (ns, nd) = if c == '\'' && !in_d {
            (!in_s, in_d)
        } else if c == '"' && !in_s {
            (in_s, !in_d)
        } else {
            (in_s, in_d)
        };
        if i + 1 < s.len() {
            lemma_split_pipes_some_piece(s, i + 1, ns, nd, cur.push(c));
        } else {
            assert(cur.push(c).len() > 0);
        }
    }
}

/// The pipe split loses no text: joining the pieces back with `|` restores
/// the line, except that a line ending in an unquoted `|` loses that final
/// pipe (its empty last piece is dropped). In particular a quoted pipe is
/// never split away.
pub proof fn lemma_split_pipes_reconstruct(s: Seq<char>)
    ensures
        pipe_joined(split_pipes_of(s)) == s || pipe_joined(split_pipes_of(s)).push('|') == s,
{
    lemma_split_pipes_reconstruct_at(s, 0, false, false, Seq::empty());
    let ps = split_pipes_at(s, 0, false, false, Seq::empty());
    if ps.len() == 0 {
        assert(split_pipes_of(s) == seq![s]);
        assert(pipe_joined(seq![s]) == s);
    } else {
        assert(Seq::<char>::empty() + s.subrange(0, s.len() as int) =~= s);
    }
}

proof fn lemma_split_pipes_reconstruct_at(
    s: Seq<char>,
    i: int,
    in_s: bool,
    in_d: bool,
    cur: Seq<char>,
)
    requires
        0 <= i <= s.len(),
    ensures
        ({
            let j = pipe_joined(split_pipes_at(s, i, in_s, in_d, cur));
            let t = cur + s.subrange(i, s.len() as int);
            j == t || j.push('|') == t
        }),
    decreases s.len() - i,
{
    let t = cur + s.subrange(i, s.len() as int);
    if i >= s.len() {
        if cur.len() == 0 {
            assert(pipe_joined(Seq::<Seq<char>>::empty()) =~= t);
        } else {
            assert(pipe_joined(seq![cur]) == cur);
            assert(cur =~= t);
        }
    } else {
        let c = s[i];
        if c == '|' && !in_s && !in_d {
            let rest = split_pipes_at(s, i + 1, in_s, in_d, Seq::empty());
            let whole = seq![cur] + rest;
            assert(split_pipes_at(s, i, in_s, in_d, cur) == whole);
            lemma_split_pipes_reconstruct_at(s, i + 1, in_s, in_d, Seq::empty());
            if rest.len() == 0 {
                // No pieces can follow, so the pipe ended the line.
                if i + 1 < s.len() {
                    lemma_split_pipes_some_piece(s, i + 1, in_s, in_d, Seq::empty());
                }
                assert(whole.len() == 1 && whole[0] == cur);
                assert(pipe_joined(whole) == cur);
                assert(pipe_joined(whole).push('|') =~= t);
            } else {
                assert(whole.len() >= 2);
                assert(whole[0] == cur);
                assert(whole.drop_first() =~= rest);
                assert(pipe_joined(whole) == cur + seq!['|'] + pipe_joined(rest));
                let jr = pipe_joined(rest);
                let tr = Seq::<char>::empty() + s.subrange(i + 1, s.len() as int);
                if jr == tr {
                    assert(cur + seq!['|'] + jr =~= t);
                } else {
                    assert(jr.push('|') == tr);
                    assert((cur + seq!['|'] + jr).push('|') =~= t);
                }
            }
        } else {
            let (ns, nd) = if c == '\'' && !in_d {
                (!in_s, in_d)
            } else if c == '"' && !in_s {
                (in_s, !in_d)
            } else {
                (in_s, in_d)
            };
            assert(split_pipes_at(s, i, in_s, in_d, cur) == split_pipes_at(
                s,
                i + 1,
                ns,
                nd,
                cur.push(c),
            ));
            lemma_split_pipes_reconstruct_at(s, i + 1, ns, nd, cur.push(c));
            assert(cur.push(c) + s.subrange(i + 1, s.len() as int) =~= t);
        }
    }
}

/// Splits a command block on unquoted pipe characters.
pub fn split_pipes_respecting_quotes(input: &str) -> (r: Vec<String>)
    ensures
        r@.map_values(|t: String| t@) == split_pipes_of(input@),
{
    let s = str_chars(input);
    let mut parts: Vec<String> = Vec::new();
    let mut cur: Vec<char> = Vec::new();
    let mut in_s = false;
    let mut in_d = false;
    let mut i: usize = 0;
    while i < s.len()
        invariant
            i <= s@.len(),
            s@ == input@,
            parts@.map_values(|t: String| t@) + split_pipes_at(s@, i as int, in_s, in_d, cur@)
                == split_pipes_at(s@, 0, false, false, Seq::empty()),
        decreases s@.len() - i,
    {
        let c = s[i];
        if c == '\'' && !in_d {
            in_s = !in_s;
            cur.push(c);
        } else if c == '"' && !in_s {
            in_d = !in_d;
            cur.push(c);
        } else if c == '|' && !in_s && !in_d {
            parts.push(chars_string(&cur));
            proof {
                assert(parts@.map_values(|t: String| t@) =~= parts@.drop_last().map_values(
                    |t: String| t@,
                ) + seq![cur@]);
            }
            cur = Vec::new();
        } else {
            cur.push(c);
        }
        i += 1;
        proof {
            assert(parts@.map_values(|t: String| t@) + split_pipes_at(
                s@,
                i as int,
                in_s,
                in_d,
                cur@,
            ) =~= split_pipes_at(s@, 0, false, false, Seq::empty()));
        }
    }
    if cur.len() > 0 {
        parts.push(chars_string(&cur));
        proof {
            assert(parts@.map_values(|t: String| t@) =~= parts@.drop_last().map_values(
                |t: String| t@,
            ) + seq![cur@]);
        }
    }
    if parts.len() == 0 {
        let mut one: Vec<String> = Vec::new();
        one.push(input.to_owned());
        proof {
            assert(one@.map_values(|t: String| t@) =~= split_pipes_of(input@));
        }
        one
    } else {
        proof {
            assert(parts@.map_values(|t: String| t@) =~= split_pipes_of(input@));
        }
        parts
    }
}

} // verus!
