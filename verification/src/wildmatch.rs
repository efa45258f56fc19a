//! The glob ("wildmatch") engine: anchored matching of a pattern byte string
//! against a candidate byte string, in the shell-glob dialect of ignore files.
//!
//! Dialect: `?` matches one byte other than `/`; `*` matches any run of bytes
//! not containing `/`; a run of two or more `*` matches any bytes including
//! `/`, and such a run followed by `/` may absorb that separator; `[...]` is a
//! character class (leading `!` or `^` negates, ranges `a-z` supported, a
//! literal `]` stands first or escaped) that never matches `/`; `\x` matches
//! the byte `x` literally. A backslash at the very end of the pattern matches
//! a literal backslash, and an unterminated character class matches nothing;
//! both choices are deliberate, and [`wild_at`] states them exactly.
//!
//! The matcher backtracks greedily and carries no step limit of its own, so
//! adversarial patterns with many adjacent wildcards can take exponential
//! time; a caller wanting a bound must impose it from outside.

use vstd::prelude::*;

verus! {

/// The bytes the dialect treats specially, by name: `*`, `?`, `[`, `]`, `!`,
/// `^`, `-`, `/`, `\\`, and the ASCII letter bounds used for folding.
pub const STAR: u8 = 42;
pub const QUESTION: u8 = 63;
pub const OPEN_BRACKET: u8 = 91;
pub const CLOSE_BRACKET: u8 = 93;
pub const BANG: u8 = 33;
pub const CARET: u8 = 94;
pub const DASH: u8 = 45;
pub const SLASH: u8 = 47;
pub const BACKSLASH: u8 = 92;
pub const SPACE: u8 = 32;
pub const UPPER_A: u8 = 65;
pub const UPPER_Z: u8 = 90;

/// How bytes are compared during matching.
#[derive(Clone, Copy, PartialEq, Eq, Debug)]
pub enum Case {
    /// Bytes must be identical.
    Sensitive,
    /// ASCII letters are compared case-insensitively; all other bytes exactly.
    Fold,
}

/// Lower-cases one ASCII letter; leaves every other byte unchanged.
pub open spec fn fold_byte(b: u8) -> u8 {
    if UPPER_A <= b && b <= UPPER_Z {
        (b + 32) as u8
    } else {
        b
    }
}

/// The byte actually compared under the given case mode.
pub open spec fn cmp_byte(b: u8, case: Case) -> u8 {
    match case {
        Case::Sensitive => b,
        Case::Fold => fold_byte(b),
    }
}

/// First index at or after `i` that does not hold a `*` (or the pattern's end).
pub open spec fn star_run_end(p: Seq<u8>, i: int) -> int
    decreases p.len() - i
    when 0 <= i <= p.len()
{
    if i < p.len() && p[i] == STAR {
        star_run_end(p, i + 1)
    } else {
        i
    }
}

pub proof fn lemma_star_run_end_bounds(p: Seq<u8>, i: int)
    requires
        0 <= i <= p.len(),
    ensures
        i <= star_run_end(p, i) <= p.len(),
        i < p.len() && p[i] == STAR ==> star_run_end(p, i) > i,
    decreases p.len() - i,
{
    if i < p.len() && p[i] == STAR {
        lemma_star_run_end_bounds(p, i + 1);
    }
}

/// Index of the `]` that closes a character class whose content starts at `i`,
/// or `None` if the class is unterminated. A `\` escapes the byte after it.
pub open spec fn class_end_from(p: Seq<u8>, i: int) -> Option<int>
    decreases p.len() - i
    when 0 <= i <= p.len()
{
    if i >= p.len() {
        None
    } else if p[i] == CLOSE_BRACKET {
        Some(i)
    } else if p[i] == BACKSLASH {
        if i + 1 >= p.len() {
            None
        } else {
            class_end_from(p, i + 2)
        }
    } else {
        class_end_from(p, i + 1)
    }
}

pub proof fn lemma_class_end_from_bounds(p: Seq<u8>, i: int)
    requires
        0 <= i <= p.len(),
    ensures
        class_end_from(p, i) matches Some(e) ==> i <= e < p.len() && p[e] == CLOSE_BRACKET,
    decreases p.len() - i,
{
    if i < p.len() && p[i] != CLOSE_BRACKET {
        if p[i] == BACKSLASH {
            if i + 1 < p.len() {
                lemma_class_end_from_bounds(p, i + 2);
            }
        } else {
            lemma_class_end_from_bounds(p, i + 1);
        }
    }
}

/// Whether the class items in `p[i..ce]` accept the byte `c` under `case`.
/// Items are read one at a time: an escaped byte or a plain byte, optionally
/// followed by `-` and a closing (possibly escaped) byte to form a range.
pub open spec fn class_items_match(p: Seq<u8>, i: int, ce: int, c: u8, case: Case) -> bool
    decreases ce - i
    when 0 <= i && ce <= p.len()
{
    if i >= ce {
        false
    } else {
        let w1: int = if p[i] == BACKSLASH && i + 1 < ce { 2 } else { 1 };
        let lo = if w1 == 2 { p[i + 1] } else { p[i] };
        if i + w1 < ce && p[i + w1] == DASH && i + w1 + 1 < ce {
            let w2: int = if p[i + w1 + 1] == BACKSLASH && i + w1 + 2 < ce { 2 } else { 1 };
            let hi = if w2 == 2 { p[i + w1 + 2] } else { p[i + w1 + 1] };
            if cmp_byte(lo, case) <= cmp_byte(c, case) && cmp_byte(c, case) <= cmp_byte(hi, case) {
                true
            } else {
                class_items_match(p, i + w1 + 1 + w2, ce, c, case)
            }
        } else {
            if cmp_byte(lo, case) == cmp_byte(c, case) {
                true
            } else {
                class_items_match(p, i + w1, ce, c, case)
            }
        }
    }
}

/// Whether the class is negated, i.e. its first byte is `!` or `^`.
pub open spec fn class_negated(p: Seq<u8>, pi: int) -> bool {
    pi + 1 < p.len() && (p[pi + 1] == BANG || p[pi + 1] == CARET)
}

/// Index where the class content begins, one past `[` and any negation mark.
pub open spec fn class_content_start(p: Seq<u8>, pi: int) -> int {
    if class_negated(p, pi) {
        pi + 2
    } else {
        pi + 1
    }
}

/// Index where the scan for the closing `]` begins: one past the content
/// start when the content opens with a literal `]`.
pub open spec fn class_scan_start(p: Seq<u8>, pi: int) -> int {
    let cs = class_content_start(p, pi);
    if cs < p.len() && p[cs] == CLOSE_BRACKET {
        cs + 1
    } else {
        cs
    }
}

/// Anchored glob matching of pattern `p[pi..]` against text `t[ti..]`.
/// This recursion is the meaning of the dialect: the executable matcher is
/// proved to return exactly this value.
pub open spec fn wild_at(p: Seq<u8>, pi: int, t: Seq<u8>, ti: int, case: Case) -> bool
    decreases p.len() - pi, t.len() - ti
    when 0 <= pi <= p.len() && 0 <= ti <= t.len()
    via wild_at_decreases
{
    if pi >= p.len() {
        ti >= t.len()
    } else if p[pi] == STAR {
        let e = star_run_end(p, pi);
        let double = e - pi >= 2;
        ||| wild_at(p, e, t, ti, case)
        ||| (double && e < p.len() && p[e] == SLASH && wild_at(p, e + 1, t, ti, case))
        ||| (ti < t.len() && (double || t[ti] != SLASH) && wild_at(p, pi, t, ti + 1, case))
    } else if p[pi] == QUESTION {
        ti < t.len() && t[ti] != SLASH && wild_at(p, pi + 1, t, ti + 1, case)
    } else if p[pi] == OPEN_BRACKET {
        match class_end_from(p, class_scan_start(p, pi)) {
            Some(ce) => {
                let inside = class_items_match(p, class_content_start(p, pi), ce, t[ti], case);
                &&& ti < t.len()
                &&& t[ti] != SLASH
                &&& (if class_negated(p, pi) { !inside } else { inside })
                &&& wild_at(p, ce + 1, t, ti + 1, case)
            },
            None => false,
        }
    } else if p[pi] == BACKSLASH && pi + 1 < p.len() {
        &&& ti < t.len()
        &&& cmp_byte(p[pi + 1], case) == cmp_byte(t[ti], case)
        &&& wild_at(p, pi + 2, t, ti + 1, case)
    } else {
        &&& ti < t.len()
        &&& cmp_byte(p[pi], case) == cmp_byte(t[ti], case)
        &&& wild_at(p, pi + 1, t, ti + 1, case)
    }
}

#[via_fn]
proof fn wild_at_decreases(p: Seq<u8>, pi: int, t: Seq<u8>, ti: int, case: Case) {
    if 0 <= pi < p.len() {
        if p[pi] == STAR {
            lemma_star_run_end_bounds(p, pi);
        } else if p[pi] == OPEN_BRACKET {
            let ss = class_scan_start(p, pi);
            if ss <= p.len() {
                lemma_class_end_from_bounds(p, ss);
            }
        }
    }
}

/// Whole-string glob match: the entire text must be consumed by the entire
/// pattern; there is no implicit substring search.
pub open spec fn glob_matches(p: Seq<u8>, t: Seq<u8>, case: Case) -> bool {
    wild_at(p, 0, t, 0, case)
}

fn cmp_byte_exec(b: u8, case: Case) -> (r: u8)
    ensures
        r == cmp_byte(b, case),
{
    match case {
        Case::Sensitive => b,
        Case::Fold => if UPPER_A <= b && b <= UPPER_Z {
            b + 32
        } else {
            b
        },
    }
}

fn star_run_end_exec(p: &[u8], i: usize) -> (r: usize)
    requires
        i <= p@.len(),
    ensures
        r == star_run_end(p@, i as int),
        i <= r <= p@.len(),
    decreases p@.len() - i,
{
    if i < p.len() && p[i] == STAR {
        star_run_end_exec(p, i + 1)
    } else {
        i
    }
}

fn class_end_exec(p: &[u8], i: usize) -> (r: Option<usize>)
    requires
        i <= p@.len(),
    ensures
        match r {
            Some(e) => class_end_from(p@, i as int) == Some(e as int),
            None => class_end_from(p@, i as int) is None,
        },
    decreases p@.len() - i,
{
    if i >= p.len() {
        None
    } else if p[i] == CLOSE_BRACKET {
        Some(i)
    } else if p[i] == BACKSLASH {
        if i + 1 >= p.len() {
            None
        } else {
            class_end_exec(p, i + 2)
        }
    } else {
        class_end_exec(p, i + 1)
    }
}

fn class_items_exec(p: &[u8], i: usize, ce: usize, c: u8, case: Case) -> (r: bool)
    requires
        i <= ce <= p@.len(),
    ensures
        r == class_items_match(p@, i as int, ce as int, c, case),
    decreases ce - i,
{
    if i >= ce {
        false
    } else {
        let w1: usize = if p[i] == BACKSLASH && i + 1 < ce {
            2
        } else {
            1
        };
        let lo = if w1 == 2 {
            p[i + 1]
        } else {
            p[i]
        };
        let cc = cmp_byte_exec(c, case);
        if i + w1 < ce && p[i + w1] == DASH && i + w1 + 1 < ce {
            let w2: usize = if p[i + w1 + 1] == BACKSLASH && i + w1 + 2 < ce {
                2
            } else {
                1
            };
            let hi = if w2 == 2 {
                p[i + w1 + 2]
            } else {
                p[i + w1 + 1]
            };
            if cmp_byte_exec(lo, case) <= cc && cc <= cmp_byte_exec(hi, case) {
                true
            } else {
                class_items_exec(p, i + w1 + 1 + w2, ce, c, case)
            }
        } else {
            if cmp_byte_exec(lo, case) == cc {
                true
            } else {
                class_items_exec(p, i + w1, ce, c, case)
            }
        }
    }
}

fn wild_match_at(p: &[u8], pi: usize, t: &[u8], ti: usize, case: Case) -> (r: bool)
    requires
        pi <= p@.len(),
        ti <= t@.len(),
    ensures
        r == wild_at(p@, pi as int, t@, ti as int, case),
    decreases p@.len() - pi, t@.len() - ti,
{
    if pi >= p.len() {
        ti >= t.len()
    } else if p[pi] == STAR {
        let e = star_run_end_exec(p, pi);
        proof {
            lemma_star_run_end_bounds(p@, pi as int);
        }
        let double = e - pi >= 2;
        if wild_match_at(p, e, t, ti, case) {
            true
        } else if double && e < p.len() && p[e] == SLASH && wild_match_at(p, e + 1, t, ti, case) {
            true
        } else if ti < t.len() && (double || t[ti] != SLASH) && wild_match_at(p, pi, t, ti + 1, case) {
            true
        } else {
            false
        }
    } else if p[pi] == QUESTION {
        ti < t.len() && t[ti] != SLASH && wild_match_at(p, pi + 1, t, ti + 1, case)
    } else if p[pi] == OPEN_BRACKET {
        let neg = pi + 1 < p.len() && (p[pi + 1] == BANG || p[pi + 1] == CARET);
        let cs = if neg {
            pi + 2
        } else {
            pi + 1
        };
        let ss = if cs < p.len() && p[cs] == CLOSE_BRACKET {
            cs + 1
        } else {
            cs
        };
        match class_end_exec(p, ss) {
            None => false,
            Some(ce) => {
                proof {
                    lemma_class_end_from_bounds(p@, ss as int);
                }
                if ti < t.len() && t[ti] != SLASH {
                    let inside = class_items_exec(p, cs, ce, t[ti], case);
                    let accepted = if neg {
                        !inside
                    } else {
                        inside
                    };
                    if accepted {
                        wild_match_at(p, ce + 1, t, ti + 1, case)
                    } else {
                        false
                    }
                } else {
                    false
                }
            },
        }
    } else if p[pi] == BACKSLASH && pi + 1 < p.len() {
        ti < t.len() && cmp_byte_exec(p[pi + 1], case) == cmp_byte_exec(t[ti], case)
            && wild_match_at(p, pi + 2, t, ti + 1, case)
    } else {
        ti < t.len() && cmp_byte_exec(p[pi], case) == cmp_byte_exec(t[ti], case)
            && wild_match_at(p, pi + 1, t, ti + 1, case)
    }
}

/// Anchored glob match of `pattern` against the whole of `text`.
pub fn wildmatch(pattern: &[u8], text: &[u8], case: Case) -> (r: bool)
    ensures
        r == glob_matches(pattern@, text@, case),
{
    wild_match_at(pattern, 0, text, 0, case)
}

/// The sequence with every ASCII letter lower-cased.
pub open spec fn fold_seq(s: Seq<u8>) -> Seq<u8> {
    Seq::new(s.len(), |i: int| fold_byte(s[i]))
}

proof fn lemma_star_run_end_fold(p: Seq<u8>, i: int)
    requires
        0 <= i <= p.len(),
    ensures
        star_run_end(fold_seq(p), i) == star_run_end(p, i),
    decreases p.len() - i,
{
    if i < p.len() && p[i] == STAR {
        lemma_star_run_end_fold(p, i + 1);
    }
}

proof fn lemma_class_end_from_fold(p: Seq<u8>, i: int)
    requires
        0 <= i <= p.len(),
    ensures
        class_end_from(fold_seq(p), i) == class_end_from(p, i),
    decreases p.len() - i,
{
    if i < p.len() && p[i] != CLOSE_BRACKET {
        if p[i] == BACKSLASH {
            if i + 1 < p.len() {
                lemma_class_end_from_fold(p, i + 2);
            }
        } else {
            lemma_class_end_from_fold(p, i + 1);
        }
    }
}

proof fn lemma_class_items_fold(p: Seq<u8>, i: int, ce: int, c: u8, case: Case)
    requires
        0 <= i,
        ce <= p.len(),
    ensures
        class_items_match(fold_seq(p), i, ce, fold_byte(c), case) == class_items_match(
            p,
            i,
            ce,
            c,
            Case::Fold,
        ),
    decreases ce - i,
{
    if i < ce {
        let w1: int = if p[i] == BACKSLASH && i + 1 < ce {
            2
        } else {
            1
        };
        if i + w1 < ce && p[i + w1] == DASH && i + w1 + 1 < ce {
            let w2: int = if p[i + w1 + 1] == BACKSLASH && i + w1 + 2 < ce {
                2
            } else {
                1
            };
            lemma_class_items_fold(p, i + w1 + 1 + w2, ce, c, case);
        } else {
            lemma_class_items_fold(p, i + w1, ce, c, case);
        }
    }
}

/// Folding is canonical: matching `p[pi..]` against `t[ti..]` under `Fold`
/// gives the same verdict as matching the folded pattern against the folded
/// text, under either case mode.
pub proof fn lemma_wild_at_fold(p: Seq<u8>, pi: int, t: Seq<u8>, ti: int, case: Case)
    requires
        0 <= pi <= p.len(),
        0 <= ti <= t.len(),
    ensures
        wild_at(fold_seq(p), pi, fold_seq(t), ti, case) == wild_at(p, pi, t, ti, Case::Fold),
    decreases p.len() - pi, t.len() - ti,
{
    let fp = fold_seq(p);
    let ft = fold_seq(t);
    if pi < p.len() {
        if p[pi] == STAR {
            lemma_star_run_end_bounds(p, pi);
            lemma_star_run_end_fold(p, pi);
            let e = star_run_end(p, pi);
            lemma_wild_at_fold(p, e, t, ti, case);
            if e < p.len() && p[e] == SLASH {
                lemma_wild_at_fold(p, e + 1, t, ti, case);
            }
            if ti < t.len() {
                lemma_wild_at_fold(p, pi, t, ti + 1, case);
            }
        } else if p[pi] == QUESTION {
            if ti < t.len() {
                lemma_wild_at_fold(p, pi + 1, t, ti + 1, case);
            }
        } else if p[pi] == OPEN_BRACKET {
            let cs = class_content_start(p, pi);
            assert(class_negated(fp, pi) == class_negated(p, pi));
            let ss = class_scan_start(p, pi);
            assert(class_scan_start(fp, pi) == ss);
            lemma_class_end_from_fold(p, ss);
            lemma_class_end_from_bounds(p, ss);
            match class_end_from(p, ss) {
                Some(ce) => {
                    if ti < t.len() {
                        lemma_class_items_fold(p, cs, ce, t[ti], case);
                        assert(ft[ti] == fold_byte(t[ti]));
                        lemma_wild_at_fold(p, ce + 1, t, ti + 1, case);
                    }
                },
                None => {},
            }
        } else if p[pi] == BACKSLASH && pi + 1 < p.len() {
            if ti < t.len() {
                lemma_wild_at_fold(p, pi + 2, t, ti + 1, case);
            }
        } else {
            if ti < t.len() {
                lemma_wild_at_fold(p, pi + 1, t, ti + 1, case);
            }
        }
    }
}

/// Case-fold matching has a canonical form: matching under `Fold` is the same
/// as matching the all-lowercase pattern against the all-lowercase text with
/// bytes compared exactly.
pub proof fn lemma_fold_canonical_form(p: Seq<u8>, t: Seq<u8>)
    ensures
        glob_matches(p, t, Case::Fold) == glob_matches(
            fold_seq(p),
            fold_seq(t),
            Case::Sensitive,
        ),
{
    lemma_wild_at_fold(p, 0, t, 0, Case::Sensitive);
}

/// Case-fold symmetry: under `Fold`, two patterns and two texts that differ
/// only by ASCII letter case match exactly alike.
pub proof fn lemma_case_fold_symmetry(p1: Seq<u8>, p2: Seq<u8>, t1: Seq<u8>, t2: Seq<u8>)
    requires
        fold_seq(p1) == fold_seq(p2),
        fold_seq(t1) == fold_seq(t2),
    ensures
        glob_matches(p1, t1, Case::Fold) == glob_matches(p2, t2, Case::Fold),
{
    lemma_wild_at_fold(p1, 0, t1, 0, Case::Fold);
    lemma_wild_at_fold(p2, 0, t2, 0, Case::Fold);
}

} // verus!
