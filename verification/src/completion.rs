//! The text side of autocompletion: finding the word being typed, and
//! filtering candidate names by a case-insensitive prefix. Reading the
//! candidates (builtins, aliases, executables on the search path, directory
//! entries) is the caller's business.

use vstd::prelude::*;

use crate::chars::chars_string;
use crate::chars::is_space_char;
use crate::chars::str_chars;
use crate::chars::subvec;

verus! {

/// The position right after the last whitespace before `pos`, or 0.
pub open spec fn word_start_before(s: Seq<char>, pos: int) -> int
    decreases pos,
{
    if pos <= 0 {
        0
    } else if is_space_char(s[pos - 1]) {
        pos
    } else {
        word_start_before(s, pos - 1)
    }
}

/// The word being typed: the text from the last whitespace before the
/// cursor up to the cursor, and where it starts. `pos` counts characters.
pub fn extract_word(line: &str, pos: usize) -> (r: (usize, String))
    requires
        pos <= line@.len(),
    ensures
        r.0 as int == word_start_before(line@, pos as int),
        r.0 <= pos,
        r.1@ == line@.subrange(r.0 as int, pos as int),
{
    let lc = str_chars(line);
    let mut i: usize = pos;
    while i > 0
        invariant
            i <= pos <= lc@.len(),
            lc@ == line@,
            word_start_before(line@, pos as int) == word_start_before(line@, i as int),
        decreases i,
    {
        if crate::chars::space_char(lc[i - 1]) {
            let w = subvec(&lc, i, pos);
            return (i, chars_string(&w));
        }
        i -= 1;
    }
    let w = subvec(&lc, 0, pos);
    (0, chars_string(&w))
}

/// What lowercasing a string yields. The result is a function of the
/// characters alone.
pub uninterp spec fn lower_of(s: Seq<char>) -> Seq<char>;

/// Relies on `str::to_lowercase`: the lowercase form of the text, depending
/// on the characters alone.
#[verifier::external_body]
fn lowercase(s: &str) -> (r: String)
    ensures
        r@ == lower_of(s@),
{
    s.to_lowercase()
}

/// The candidate matches the typed word: its lowercase form starts with the
/// lowercase form of the word.
pub open spec fn matches_prefix(cand: Seq<char>, word: Seq<char>) -> bool {
    lower_of(word).len() <= lower_of(cand).len() && lower_of(cand).subrange(
        0,
        lower_of(word).len() as int,
    ) == lower_of(word)
}

/// The candidates that match the word, in their given order.
pub open spec fn prefix_filtered(cands: Seq<Seq<char>>, word: Seq<char>) -> Seq<Seq<char>>
    decreases cands.len(),
{
    if cands.len() == 0 {
        Seq::empty()
    } else {
        let rest = prefix_filtered(cands.drop_first(), word);
        if matches_prefix(cands[0], word) {
            seq![cands[0]] + rest
        } else {
            rest
        }
    }
}

proof fn lemma_prefix_filtered_push(cands: Seq<Seq<char>>, word: Seq<char>, c: Seq<char>)
    ensures
        prefix_filtered(cands.push(c), word) == (if matches_prefix(c, word) {
            prefix_filtered(cands, word).push(c)
        } else {
            prefix_filtered(cands, word)
        }),
    decreases cands.len(),
{
    if cands.len() == 0 {
        assert(cands.push(c).drop_first() =~= cands);
        assert(prefix_filtered(cands.push(c), word) =~= (if matches_prefix(c, word) {
            prefix_filtered(cands, word).push(c)
        } else {
            prefix_filtered(cands, word)
        }));
    } else {
        assert(cands.push(c).drop_first() =~= cands.drop_first().push(c));
        lemma_prefix_filtered_push(cands.drop_first(), word, c);
        assert(prefix_filtered(cands.push(c), word) =~= (if matches_prefix(c, word) {
            prefix_filtered(cands, word).push(c)
        } else {
            prefix_filtered(cands, word)
        }));
    }
}

/// Whether `a` is a prefix of `b`, compared character by character.
fn is_prefix(a: &Vec<char>, b: &Vec<char>) -> (r: bool)
    ensures
        r == (a@.len() <= b@.len() && b@.subrange(0, a@.len() as int) == a@),
{
    if a.len() > b.len() {
        return false;
    }
    let mut i: usize = 0;
    while i < a.len()
        invariant
            a@.len() <= b@.len(),
            i <= a@.len(),
            forall|k: int| 0 <= k < i ==> a@[k] == b@[k],
        decreases a@.len() - i,
    {
        if a[i] != b[i] {
            proof {
                assert(b@.subrange(0, a@.len() as int)[i as int] == b@[i as int]);
            }
            return false;
        }
        i += 1;
    }
    proof {
        assert(b@.subrange(0, a@.len() as int) =~= a@);
    }
    true
}

/// Filters the candidates down to those whose lowercase form starts with
/// the lowercase form of the typed word.
pub fn completion_matches(word: &str, candidates: &Vec<String>) -> (r: Vec<String>)
    ensures
        r@.map_values(|t: String| t@) == prefix_filtered(
            candidates@.map_values(|t: String| t@),
            word@,
        ),
{
    let ghost cv = candidates@.map_values(|t: String| t@);
    let wl = lowercase(word);
    let wlc = str_chars(wl.as_str());
    let mut r: Vec<String> = Vec::new();
    let mut k: usize = 0;
    proof {
        assert(cv.subrange(0, 0) =~= Seq::<Seq<char>>::empty());
        assert(r@.map_values(|t: String| t@) =~= prefix_filtered(cv.subrange(0, 0), word@));
    }
    while k < candidates.len()
        invariant
            k <= candidates@.len(),
            cv == candidates@.map_values(|t: String| t@),
            wlc@ == lower_of(word@),
            r@.map_values(|t: String| t@) == prefix_filtered(cv.subrange(0, k as int), word@),
        decreases candidates@.len() - k,
    {
        let ghost r0 = r@;
        let cl = lowercase(candidates[k].as_str());
        let clc = str_chars(cl.as_str());
        if is_prefix(&wlc, &clc) {
            r.push(candidates[k].clone());
            proof {
                assert(r@.map_values(|t: String| t@) =~= r0.map_values(|t: String| t@).push(
                    cv[k as int],
                ));
            }
        }
        k += 1;
        proof {
            lemma_prefix_filtered_push(cv.subrange(0, k - 1), word@, cv[k - 1]);
            assert(cv.subrange(0, k as int) =~= cv.subrange(0, k - 1).push(cv[k - 1]));
        }
    }
    proof {
        assert(cv.subrange(0, cv.len() as int) =~= cv);
    }
    r
}

/// `acc` extended with the items of `add` it does not already hold.
pub open spec fn merged_unique(acc: Seq<Seq<char>>, add: Seq<Seq<char>>) -> Seq<Seq<char>>
    decreases add.len(),
{
    if add.len() == 0 {
        acc
    } else {
        let acc2 = if acc.contains(add[0]) {
            acc
        } else {
            acc.push(add[0])
        };
        merged_unique(acc2, add.drop_first())
    }
}

/// Whether some entry of `v` spells the same text as `t`.
fn contains_string(v: &Vec<String>, t: &Vec<char>) -> (r: bool)
    ensures
        r == v@.map_values(|x: String| x@).contains(t@),
{
    let ghost vv = v@.map_values(|x: String| x@);
    let mut i: usize = 0;
    while i < v.len()
        invariant
            i <= v@.len(),
            vv == v@.map_values(|x: String| x@),
            forall|k: int| 0 <= k < i ==> vv[k] != t@,
        decreases v@.len() - i,
    {
        if crate::chars::chars_eq_str(t, v[i].as_str()) {
            proof {
                assert(vv[i as int] == t@);
            }
            return true;
        }
        i += 1;
    }
    proof {
        if vv.contains(t@) {
            let j = choose|j: int| 0 <= j < vv.len() && vv[j] == t@;
        }
    }
    false
}

/// Appends the candidates of `add` that `r` does not already hold, keeping
/// the first occurrence of each name.
pub fn merge_unique(r: &mut Vec<String>, add: Vec<String>)
    ensures
        final(r)@.map_values(|t: String| t@) == merged_unique(
            old(r)@.map_values(|t: String| t@),
            add@.map_values(|t: String| t@),
        ),
{
    let ghost av = add@.map_values(|t: String| t@);
    let mut k: usize = 0;
    proof {
        assert(av.subrange(0, av.len() as int) =~= av);
    }
    while k < add.len()
        invariant
            k <= add@.len(),
            av == add@.map_values(|t: String| t@),
            merged_unique(r@.map_values(|t: String| t@), av.subrange(k as int, av.len() as int))
                == merged_unique(old(r)@.map_values(|t: String| t@), av),
        decreases add@.len() - k,
    {
        let ghost r0 = r@;
        let ghost tail = av.subrange(k as int, av.len() as int);
        let tc = str_chars(add[k].as_str());
        if !contains_string(r, &tc) {
            r.push(add[k].clone());
            proof {
                assert(r@.map_values(|t: String| t@) =~= r0.map_values(|t: String| t@).push(
                    av[k as int],
                ));
            }
        }
        k += 1;
        proof {
            assert(tail[0] == av[k - 1]);
            assert(tail.drop_first() =~= av.subrange(k as int, av.len() as int));
        }
    }
    proof {
        assert(av.subrange(av.len() as int, av.len() as int) =~= Seq::<Seq<char>>::empty());
    }
}

} // verus!
