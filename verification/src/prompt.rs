//! Powerline prompt rendering: colored segments stitched together with
//! half-circle and triangle glyphs. Gathering the segment data (user, working
//! directory, git branch, project versions, clock) reads the environment
//! and is done by the caller; the rendering itself is pure text.

use vstd::prelude::*;

use crate::chars::push_all;
use crate::chars::str_chars;

verus! {

/// One colored block of the powerline prompt.
pub struct PowerlineSegment {
    /// The block's text.
    pub text: String,
    /// The background color number (256-color palette).
    pub bg: String,
    /// The text color number.
    pub fg: String,
}

impl View for PowerlineSegment {
    type V = (Seq<char>, Seq<char>, Seq<char>);

    open spec fn view(&self) -> (Seq<char>, Seq<char>, Seq<char>) {
        (self.text@, self.bg@, self.fg@)
    }
}

/// The rendering of the segments from `i` on: each block paints its
/// background and text colors around its text, then draws the connecting
/// triangle in its own background color over the next block's background
/// (or over the reset color after the last block).
pub open spec fn segments_rendered(segs: Seq<(Seq<char>, Seq<char>, Seq<char>)>, i: int) -> Seq<
    char,
>
    decreases segs.len() - i,
    when 0 <= i
{
    if i >= segs.len() {
        Seq::empty()
    } else {
        let (text, bg, fg) = segs[i];
        let next_bg = if i + 1 < segs.len() {
            "\x1b[48;5;"@ + segs[i + 1].1 + "m"@
        } else {
            "\x1b[0m"@
        };
        "\x1b[48;5;"@ + bg + "m\x1b[38;5;"@ + fg + "m "@ + text + " "@ + next_bg + "\x1b[38;5;"@
            + bg + "m"@ + seq!['\u{e0b0}'] + segments_rendered(segs, i + 1)
    }
}

/// The whole prompt bar: a leading half circle in the first block's
/// background color, the blocks, and a final color reset.
pub open spec fn powerline_rendered(segs: Seq<(Seq<char>, Seq<char>, Seq<char>)>) -> Seq<char> {
    let lead = if segs.len() > 0 {
        "\x1b[38;5;"@ + segs[0].1 + "m"@ + seq!['\u{e0b6}']
    } else {
        Seq::empty()
    };
    lead + segments_rendered(segs, 0) + "\x1b[0m"@
}

/// Builds the powerline prompt bar by stitching the segments together.
#[verifier::rlimit(100)]
pub fn build_powerline_prompt(segments: Vec<PowerlineSegment>) -> (r: String)
    ensures
        r@ == powerline_rendered(segments@.map_values(|s: PowerlineSegment| s@)),
{
    let ghost sv = segments@.map_values(|s: PowerlineSegment| s@);
    let mut out: Vec<char> = Vec::new();
    if segments.len() > 0 {
        let pre = str_chars("\x1b[38;5;");
        push_all(&mut out, &pre);
        let bg = str_chars(segments[0].bg.as_str());
        push_all(&mut out, &bg);
        let m = str_chars("m");
        push_all(&mut out, &m);
        out.push('\u{e0b6}');
    }
    let ghost lead = out@;
    let mut i: usize = 0;
    proof {
        assert(out@ + segments_rendered(sv, 0) =~= lead + segments_rendered(sv, 0));
    }
    while i < segments.len()
        invariant
            i <= segments@.len(),
            sv == segments@.map_values(|s: PowerlineSegment| s@),
            out@ + segments_rendered(sv, i as int) == lead + segments_rendered(sv, 0),
        decreases segments@.len() - i,
    {
        let a = str_chars("\x1b[48;5;");
        push_all(&mut out, &a);
        let bg = str_chars(segments[i].bg.as_str());
        push_all(&mut out, &bg);
        let b = str_chars("m\x1b[38;5;");
        push_all(&mut out, &b);
        let fg = str_chars(segments[i].fg.as_str());
        push_all(&mut out, &fg);
        let c = str_chars("m ");
        push_all(&mut out, &c);
        let text = str_chars(segments[i].text.as_str());
        push_all(&mut out, &text);
        let d = str_chars(" ");
        push_all(&mut out, &d);
        if i + 1 < segments.len() {
            let e = str_chars("\x1b[48;5;");
            push_all(&mut out, &e);
            let nbg = str_chars(segments[i + 1].bg.as_str());
            push_all(&mut out, &nbg);
            let f = str_chars("m");
            push_all(&mut out, &f);
        } else {
            let e = str_chars("\x1b[0m");
            push_all(&mut out, &e);
        }
        let g = str_chars("\x1b[38;5;");
        push_all(&mut out, &g);
        let bg2 = str_chars(segments[i].bg.as_str());
        push_all(&mut out, &bg2);
        let h = str_chars("m");
        push_all(&mut out, &h);
        out.push('\u{e0b0}');
        i += 1;
        proof {
            assert(out@ + segments_rendered(sv, i as int) =~= lead + segments_rendered(sv, 0));
        }
    }
    let tail = str_chars("\x1b[0m");
    push_all(&mut out, &tail);
    proof {
        assert(out@ =~= powerline_rendered(sv));
    }
    crate::chars::chars_string(&out)
}

} // verus!
