//! The line-collecting state of the scripting REPL: input lines accumulate
//! in a buffer until the braces opened so far are closed again, and only
//! then is the collected text handed out for evaluation. `exit` on its own,
//! with nothing buffered, ends the REPL.

use vstd::prelude::*;

use crate::chars::chars_eq_str;
use crate::chars::chars_string;
use crate::chars::push_all;
use crate::chars::str_chars;
use crate::chars::trim;
use crate::chars::trim_chars;

verus! {

/// How many times `c` occurs in `s`.
pub open spec fn count_char(s: Seq<char>, c: char) -> nat
    decreases s.len(),
{
    if s.len() == 0 {
        0
    } else {
        count_char(s.drop_last(), c) + (if s.last() == c {
            1nat
        } else {
            0nat
        })
    }
}

proof fn lemma_count_char_le(s: Seq<char>, c: char)
    ensures
        count_char(s, c) <= s.len(),
    decreases s.len(),
{
    if s.len() > 0 {
        lemma_count_char_le(s.drop_last(), c);
    }
}

/// Counts the occurrences of `c` in `v`.
fn count_occurrences(v: &Vec<char>, c: char) -> (r: usize)
    ensures
        r == count_char(v@, c),
        r <= v@.len(),
{
    proof {
        lemma_count_char_le(v@, c);
    }
    let mut cnt: usize = 0;
    let mut i: usize = 0;
    proof {
        assert(v@.subrange(0, 0) =~= Seq::<char>::empty());
    }
    while i < v.len()
        invariant
            i <= v@.len(),
            cnt <= i,
            cnt == count_char(v@.subrange(0, i as int), c),
        decreases v@.len() - i,
    {
        let ghost pre = v@.subrange(0, i as int);
        if v[i] == c {
            cnt += 1;
        }
        i += 1;
        proof {
            assert(v@.subrange(0, i as int).drop_last() =~= pre);
        }
    }
    proof {
        assert(v@.subrange(0, v@.len() as int) =~= v@);
    }
    cnt
}

/// The number of open braces still unmatched after reading a line with the
/// given brace counts: closing more than what is open resets to zero, as the
/// REPL forgives unbalanced closings.
pub open spec fn brace_balance(open: nat, opens: nat, closes: nat) -> nat {
    if closes > open + opens {
        0
    } else {
        (open + opens - closes) as nat
    }
}

/// What the REPL does with a finished line.
pub enum ReplStep {
    /// Leave the REPL.
    Quit,
    /// The input is not complete yet; keep reading.
    Continue,
    /// The collected text is complete: evaluate it.
    Evaluate { code: String },
}

/// The collected input of the scripting REPL.
pub struct ReplBuffer {
    buffer: Vec<char>,
    open_braces: usize,
}

impl ReplBuffer {
    /// The collected text.
    pub closed spec fn buffer_view(&self) -> Seq<char> {
        self.buffer@
    }

    /// How many braces are open.
    pub closed spec fn open_count(&self) -> nat {
        self.open_braces as nat
    }

    /// The brace count never exceeds the buffered text's length.
    pub closed spec fn wf(&self) -> bool {
        self.open_braces <= self.buffer@.len()
    }

    /// A fresh, empty REPL buffer.
    pub fn new() -> (r: ReplBuffer)
        ensures
            r.wf(),
            r.buffer_view() == Seq::<char>::empty(),
            r.open_count() == 0,
    {
        ReplBuffer { buffer: Vec::new(), open_braces: 0 }
    }

    /// Feeds one input line. A lone `exit` with nothing buffered quits.
    /// Otherwise the line joins the buffer with a newline, the trimmed
    /// line's braces adjust the open count, and when no brace stays open the
    /// whole buffer is handed out for evaluation and cleared.
    pub fn feed_line(&mut self, line: &str) -> (r: ReplStep)
        requires
            old(self).wf(),
        ensures
            final(self).wf(),
            ({
                let trimmed = trim(line@);
                let nb = old(self).buffer_view() + line@ + seq!['\n'];
                let no = brace_balance(
                    old(self).open_count(),
                    count_char(trimmed, '{'),
                    count_char(trimmed, '}'),
                );
                if trimmed == "exit"@ && old(self).buffer_view().len() == 0 {
                    &&& r is Quit
                    &&& final(self).buffer_view() == old(self).buffer_view()
                    &&& final(self).open_count() == old(self).open_count()
                } else if no == 0 {
                    &&& r matches ReplStep::Evaluate { code } && code@ == nb
                    &&& final(self).buffer_view().len() == 0
                    &&& final(self).open_count() == 0
                } else {
                    &&& r is Continue
                    &&& final(self).buffer_view() == nb
                    &&& final(self).open_count() == no
                }
            }),
    {
        let lc = str_chars(line);
        let trimmed = trim_chars(&lc);
        proof {
            reveal_strlit("exit");
        }
        if self.buffer.len() == 0 && chars_eq_str(&trimmed, "exit") {
            return ReplStep::Quit;
        }
        let opens = count_occurrences(&trimmed, '{');
        let closes = count_occurrences(&trimmed, '}');
        push_all(&mut self.buffer, &lc);
        self.buffer.push('\n');
        // Reading the length back shows the brace total fits the machine.
        let buffered = self.buffer.len();
        proof {
            crate::chars::lemma_trim_len(line@);
            assert(self.open_braces + opens < buffered);
        }
        let total = self.open_braces + opens;
        let new_open = if closes > total {
            0
        } else {
            total - closes
        };
        self.open_braces = new_open;
        if new_open == 0 {
            let code = chars_string(&self.buffer);
            self.buffer = Vec::new();
            self.open_braces = 0;
            ReplStep::Evaluate { code }
        } else {
            ReplStep::Continue
        }
    }
}

} // verus!
