//! Compiling one raw ignore-file line into a [`Pattern`] and matching a
//! compiled pattern against a repository-relative path.
//!
//! Compilation strips a single leading `!` (negation), a single leading `/`
//! (anchor) and a single trailing unescaped `/` (directory marker) from the
//! line, trims trailing spaces that are not preceded by a backslash, and
//! records what it stripped as mode flags. Escape sequences stay in the text
//! untouched; they are interpreted only by the glob engine. The caller is
//! expected to filter blank and comment lines; a line whose text is empty
//! after stripping is rejected with [`ParseError`].

use vstd::prelude::*;

use crate::wildmatch;
use crate::wildmatch::{Case, BACKSLASH, BANG, SLASH, SPACE};

verus! {

/// The mode flags of a compiled pattern, each derived from the raw line.
#[derive(Clone, Copy, PartialEq, Eq, Structural, Debug)]
pub struct Mode {
    /// The line ended in an unescaped `/`: the pattern matches directories only.
    pub must_be_dir: bool,
    /// The text holds no unescaped `/`: the pattern matches basenames at any
    /// depth (unless it is also anchored).
    pub no_sub_dir: bool,
    /// The line began with `/`: matching is anchored to the start of the path.
    pub absolute: bool,
    /// The line began with `!`: a match means "un-ignore". The matcher reports
    /// structural match/no-match only; the caller applies the negation.
    pub negative: bool,
}

/// A compiled ignore-file line: the glob text with the markers stripped, and
/// the mode flags recording which markers were present.
#[derive(Clone, PartialEq, Eq, Debug)]
pub struct Pattern {
    pub text: Vec<u8>,
    pub mode: Mode,
}

/// Compilation failed: the line held no pattern text once the negation,
/// anchor and directory markers were stripped.
#[derive(Clone, Copy, PartialEq, Eq, Structural, Debug)]
pub enum ParseError {
    EmptyText,
}

/// Whether the byte at `i` stands behind an escaping backslash: one that is
/// not itself escaped. Mirrors a left-to-right scan with an escape flag.
pub open spec fn escaped_at(s: Seq<u8>, i: int) -> bool
    decreases i
    when 0 <= i
{
    if i == 0 {
        false
    } else {
        !escaped_at(s, i - 1) && s[i - 1] == BACKSLASH
    }
}

/// An unescaped `/` at index `i`.
pub open spec fn unescaped_slash_at(s: Seq<u8>, i: int) -> bool {
    s[i] == SLASH && !escaped_at(s, i)
}

/// The raw line with trailing spaces removed; a space immediately preceded by
/// a backslash stops the trimming and is kept.
pub open spec fn spec_trim_trailing(s: Seq<u8>) -> Seq<u8>
    decreases s.len(),
{
    if s.len() > 0 && s.last() == SPACE && !(s.len() >= 2 && s[s.len() - 2] == BACKSLASH) {
        spec_trim_trailing(s.drop_last())
    } else {
        s
    }
}

/// The trimmed line began with the negation marker `!`.
pub open spec fn spec_negative(raw: Seq<u8>) -> bool {
    let s = spec_trim_trailing(raw);
    s.len() > 0 && s[0] == BANG
}

/// What remains of the trimmed line after a single leading `!` is stripped.
pub open spec fn spec_after_negation(raw: Seq<u8>) -> Seq<u8> {
    let s = spec_trim_trailing(raw);
    if spec_negative(raw) {
        s.skip(1)
    } else {
        s
    }
}

/// After the negation marker, the line began with the anchor marker `/`.
pub open spec fn spec_absolute(raw: Seq<u8>) -> bool {
    let s = spec_after_negation(raw);
    s.len() > 0 && s[0] == SLASH
}

/// The line's body: the trimmed line with the leading markers stripped, the
/// trailing directory marker still present.
pub open spec fn spec_body(raw: Seq<u8>) -> Seq<u8> {
    let s = spec_after_negation(raw);
    if spec_absolute(raw) {
        s.skip(1)
    } else {
        s
    }
}

/// The body ended in an unescaped `/`: the directory marker.
pub open spec fn spec_must_be_dir(raw: Seq<u8>) -> bool {
    let b = spec_body(raw);
    b.len() > 0 && unescaped_slash_at(b, b.len() - 1)
}

/// The compiled pattern text: the body with the directory marker stripped.
pub open spec fn spec_text(raw: Seq<u8>) -> Seq<u8> {
    let b = spec_body(raw);
    if spec_must_be_dir(raw) {
        b.drop_last()
    } else {
        b
    }
}

/// The text holds no unescaped `/` at all.
pub open spec fn spec_no_sub_dir(raw: Seq<u8>) -> bool {
    let t = spec_text(raw);
    forall|i: int| 0 <= i < t.len() ==> !unescaped_slash_at(t, i)
}

/// The mode flags compilation derives from the raw line.
pub open spec fn spec_mode(raw: Seq<u8>) -> Mode {
    Mode {
        must_be_dir: spec_must_be_dir(raw),
        no_sub_dir: spec_no_sub_dir(raw),
        absolute: spec_absolute(raw),
        negative: spec_negative(raw),
    }
}

/// Compilation succeeds exactly when some pattern text is left.
pub open spec fn spec_compile_ok(raw: Seq<u8>) -> bool {
    spec_text(raw).len() > 0
}

/// The slice of the path a pattern is evaluated against: the basename for an
/// unanchored basename-only pattern, the whole path otherwise.
pub open spec fn spec_target(mode: Mode, path: Seq<u8>, basename_start: Option<usize>) -> Seq<u8> {
    if mode.no_sub_dir && !mode.absolute {
        match basename_start {
            Some(i) => path.skip(i as int),
            None => path,
        }
    } else {
        path
    }
}

/// What [`Pattern::matches_path`] returns: directory-only patterns reject
/// non-directories outright; otherwise the glob engine decides on the target
/// slice. The `negative` flag plays no part here.
pub open spec fn spec_matches_path(
    text: Seq<u8>,
    mode: Mode,
    path: Seq<u8>,
    basename_start: Option<usize>,
    is_dir: bool,
    case: Case,
) -> bool {
    if mode.must_be_dir && !is_dir {
        false
    } else {
        wildmatch::glob_matches(text, spec_target(mode, path, basename_start), case)
    }
}

/// Anchoring: a pattern with `absolute` set is evaluated against the whole
/// path from its first byte; the basename offset cannot change the verdict,
/// so an anchored pattern never matches at any other depth.
pub proof fn lemma_absolute_is_anchored(
    text: Seq<u8>,
    mode: Mode,
    path: Seq<u8>,
    basename_start: Option<usize>,
    is_dir: bool,
    case: Case,
)
    requires
        mode.absolute,
    ensures
        spec_matches_path(text, mode, path, basename_start, is_dir, case) == spec_matches_path(
            text,
            mode,
            path,
            None,
            is_dir,
            case,
        ),
{
}

/// Directory gate: with `must_be_dir` set, a non-directory candidate never
/// matches, whatever the pattern text, the path or the case mode.
pub proof fn lemma_must_be_dir_gate(
    text: Seq<u8>,
    mode: Mode,
    path: Seq<u8>,
    basename_start: Option<usize>,
    case: Case,
)
    requires
        mode.must_be_dir,
    ensures
        !spec_matches_path(text, mode, path, basename_start, false, case),
{
}

/// Basename-only scope: an unanchored basename pattern sees nothing but the
/// bytes at and after the basename offset. Two paths whose basename slices
/// agree match alike, so prepending directory segments (which only shifts the
/// offset) never changes the verdict.
pub proof fn lemma_basename_only_scope(
    text: Seq<u8>,
    mode: Mode,
    path1: Seq<u8>,
    basename_start1: Option<usize>,
    path2: Seq<u8>,
    basename_start2: Option<usize>,
    is_dir: bool,
    case: Case,
)
    requires
        mode.no_sub_dir,
        !mode.absolute,
        spec_target(mode, path1, basename_start1) == spec_target(mode, path2, basename_start2),
    ensures
        spec_matches_path(text, mode, path1, basename_start1, is_dir, case) == spec_matches_path(
            text,
            mode,
            path2,
            basename_start2,
            is_dir,
            case,
        ),
{
}

/// Idempotent compilation: two patterns compiled from the same raw line hold
/// the same text and the same mode, and so match every input exactly alike.
pub proof fn lemma_compile_idempotent(
    raw: Seq<u8>,
    text1: Seq<u8>,
    mode1: Mode,
    text2: Seq<u8>,
    mode2: Mode,
    path: Seq<u8>,
    basename_start: Option<usize>,
    is_dir: bool,
    case: Case,
)
    requires
        text1 == spec_text(raw),
        mode1 == spec_mode(raw),
        text2 == spec_text(raw),
        mode2 == spec_mode(raw),
    ensures
        text1 == text2,
        mode1 == mode2,
        spec_matches_path(text1, mode1, path, basename_start, is_dir, case) == spec_matches_path(
            text2,
            mode2,
            path,
            basename_start,
            is_dir,
            case,
        ),
{
}

/// Case-fold symmetry for whole paths: under `Fold`, a pattern and a path
/// that differ from another pair only by ASCII letter case match alike.
pub proof fn lemma_case_fold_symmetry_path(
    text1: Seq<u8>,
    text2: Seq<u8>,
    mode: Mode,
    path1: Seq<u8>,
    path2: Seq<u8>,
    basename_start: Option<usize>,
    is_dir: bool,
)
    requires
        wildmatch::fold_seq(text1) == wildmatch::fold_seq(text2),
        wildmatch::fold_seq(path1) == wildmatch::fold_seq(path2),
        basename_start matches Some(i) ==> i <= path1.len(),
    ensures
        spec_matches_path(text1, mode, path1, basename_start, is_dir, Case::Fold)
            == spec_matches_path(text2, mode, path2, basename_start, is_dir, Case::Fold),
{
    assert(path1.len() == path2.len()) by {
        assert(wildmatch::fold_seq(path1).len() == path1.len());
    }
    let target1 = spec_target(mode, path1, basename_start);
    let target2 = spec_target(mode, path2, basename_start);
    assert(wildmatch::fold_seq(target1) == wildmatch::fold_seq(target2)) by {
        if mode.no_sub_dir && !mode.absolute && basename_start is Some {
            let i = basename_start->0 as int;
            assert(wildmatch::fold_seq(path1.skip(i)) =~= wildmatch::fold_seq(path1).skip(i));
            assert(wildmatch::fold_seq(path2.skip(i)) =~= wildmatch::fold_seq(path2).skip(i));
        }
    }
    wildmatch::lemma_case_fold_symmetry(text1, text2, target1, target2);
}

/// Positions strictly left of `i` decide whether `i` is escaped, so any two
/// sequences that agree on them agree on `escaped_at`.
proof fn lemma_escaped_at_agrees(s1: Seq<u8>, s2: Seq<u8>, i: int)
    requires
        0 <= i,
        forall|j: int| 0 <= j < i ==> s1[j] == s2[j],
    ensures
        escaped_at(s1, i) == escaped_at(s2, i),
    decreases i,
{
    if i > 0 {
        lemma_escaped_at_agrees(s1, s2, i - 1);
    }
}

impl Pattern {
    /// Compiles one raw ignore-file line (its trailing newline already
    /// removed). Returns the pattern, or [`ParseError`] when no text is left
    /// once the markers are stripped (an empty line, `!`, `/`, or the like).
    pub fn from_bytes(raw: &[u8]) -> (r: Result<Pattern, ParseError>)
        ensures
            r is Ok <==> spec_compile_ok(raw@),
            r matches Ok(p) ==> p.text@ == spec_text(raw@) && p.mode == spec_mode(raw@),
    {
        let mut end: usize = raw.len();
        proof {
            assert(raw@.subrange(0, end as int) =~= raw@);
        }
        while end > 0 && raw[end - 1] == SPACE && !(end >= 2 && raw[end - 2] == BACKSLASH)
            invariant
                end <= raw@.len(),
                spec_trim_trailing(raw@) == spec_trim_trailing(raw@.subrange(0, end as int)),
            decreases end,
        {
            proof {
                let s = raw@.subrange(0, end as int);
                assert(s.drop_last() =~= raw@.subrange(0, end - 1));
            }
            end = end - 1;
        }
        proof {
            let s = raw@.subrange(0, end as int);
            assert(spec_trim_trailing(s) == s);
            assert(spec_trim_trailing(raw@) == s);
        }
        let mut start: usize = 0;
        let negative = end > 0 && raw[0] == BANG;
        if negative {
            start = 1;
        }
        proof {
            assert(negative == spec_negative(raw@));
            assert(spec_after_negation(raw@) =~= raw@.subrange(start as int, end as int));
        }
        let absolute = end > start && raw[start] == SLASH;
        if absolute {
            start = start + 1;
        }
        proof {
            assert(absolute == spec_absolute(raw@));
            assert(spec_body(raw@) =~= raw@.subrange(start as int, end as int));
        }

        let mut body: Vec<u8> = Vec::new();
        let mut i: usize = start;
        while i < end
            invariant
                start <= i <= end <= raw@.len(),
                body@ == raw@.subrange(start as int, i as int),
            decreases end - i,
        {
            body.push(raw[i]);
            proof {
                assert(raw@.subrange(start as int, i + 1) =~= raw@.subrange(
                    start as int,
                    i as int,
                ).push(raw@[i as int]));
            }
            i = i + 1;
        }
        proof {
            assert(body@ == spec_body(raw@));
        }

        let n = body.len();
        let mut escs: Vec<bool> = Vec::new();
        let mut j: usize = 0;
        while j < n
            invariant
                n == body@.len(),
                escs@.len() == j <= n,
                forall|k: int| 0 <= k < j ==> escs@[k] == escaped_at(body@, k),
            decreases n - j,
        {
            let e = if j == 0 {
                false
            } else {
                !escs[j - 1] && body[j - 1] == BACKSLASH
            };
            escs.push(e);
            j = j + 1;
        }

        let must_be_dir = n > 0 && body[n - 1] == SLASH && !escs[n - 1];
        proof {
            assert(must_be_dir == spec_must_be_dir(raw@));
        }
        let text_len = if must_be_dir {
            n - 1
        } else {
            n
        };
        proof {
            assert(spec_text(raw@) =~= body@.subrange(0, text_len as int));
        }

        let mut found = false;
        let mut k: usize = 0;
        while k < text_len
            invariant
                text_len <= n == body@.len() == escs@.len(),
                k <= text_len,
                forall|q: int| 0 <= q < n ==> escs@[q] == escaped_at(body@, q),
                found <==> exists|q: int| 0 <= q < k && unescaped_slash_at(body@, q),
            decreases text_len - k,
        {
            let hit = body[k] == SLASH && !escs[k];
            proof {
                assert(hit == unescaped_slash_at(body@, k as int));
            }
            if hit {
                found = true;
            }
            k = k + 1;
        }

        if text_len == 0 {
            return Err(ParseError::EmptyText);
        }
        let mode = Mode { must_be_dir, no_sub_dir: !found, absolute, negative };
        proof {
            let t = spec_text(raw@);
            assert(t.len() == text_len);
            assert forall|q: int| 0 <= q < t.len() implies unescaped_slash_at(t, q)
                == unescaped_slash_at(body@, q) by {
                lemma_escaped_at_agrees(t, body@, q);
            }
            if found {
                let q = choose|q: int| 0 <= q < text_len && unescaped_slash_at(body@, q);
                assert(unescaped_slash_at(t, q));
            } else {
                assert forall|q: int| 0 <= q < t.len() implies !unescaped_slash_at(t, q) by {
                    if unescaped_slash_at(body@, q) {
                        assert(exists|w: int| 0 <= w < text_len && unescaped_slash_at(body@, w));
                    }
                }
            }
            assert(!found == spec_no_sub_dir(raw@));
        }
        body.truncate(text_len);
        proof {
            assert(body@ =~= spec_text(raw@));
        }
        Ok(Pattern { text: body, mode })
    }

    /// Whether this pattern matches the given repository-relative path.
    /// `basename_start` is the precomputed index one past the path's last `/`
    /// (or `None` for a path without one), `is_dir` says whether the path
    /// names a directory, and `case` picks exact or ASCII-folded comparison.
    /// The `negative` flag is reported to the caller by compilation and plays
    /// no part here.
    pub fn matches_path(
        &self,
        path: &[u8],
        basename_start: Option<usize>,
        is_dir: bool,
        case: Case,
    ) -> (r: bool)
        requires
            basename_start matches Some(i) ==> i <= path@.len(),
        ensures
            r == spec_matches_path(self.text@, self.mode, path@, basename_start, is_dir, case),
            self.mode.must_be_dir && !is_dir ==> !r,
    {
        if self.mode.must_be_dir && !is_dir {
            return false;
        }
        let target: &[u8] = if self.mode.no_sub_dir && !self.mode.absolute {
            match basename_start {
                Some(i) => vstd::slice::slice_subrange(path, i, path.len()),
                None => path,
            }
        } else {
            path
        };
        proof {
            assert(target@ =~= spec_target(self.mode, path@, basename_start));
        }
        wildmatch::wildmatch(self.text.as_slice(), target, case)
    }
}

} // verus!
