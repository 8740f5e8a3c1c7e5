//! Topic-pattern matching for access control.
//!
//! A pattern is a `.`-separated list of segments.  `*` matches exactly one
//! segment, `**` matches zero or more trailing segments (mid-pattern it
//! tries a zero-segment skip first, then absorbs one segment at a time),
//! and any other segment matches literally, byte for byte.

use vstd::prelude::*;
use crate::strutil::{
    lemma_find_bounds, lemma_split_len, spec_find, spec_is_space, spec_split, spec_trim,
    split_char, str_eq, trim,
};

verus! {

pub open spec fn seg_views(v: Seq<String>) -> Seq<Seq<char>> {
    v.map_values(|s: String| s@)
}

/// Matching over segment sequences.
pub open spec fn spec_seg_match(p: Seq<Seq<char>>, t: Seq<Seq<char>>) -> bool
    decreases p.len() + t.len(),
{
    if p.len() == 0 {
        t.len() == 0
    } else if p[0] == "**"@ {
        if t.len() == 0 {
            p.len() == 1
        } else {
            spec_seg_match(p.drop_first(), t) || spec_seg_match(p, t.drop_first())
        }
    } else if p[0] == "*"@ {
        t.len() > 0 && spec_seg_match(p.drop_first(), t.drop_first())
    } else {
        t.len() > 0 && p[0] == t[0] && spec_seg_match(p.drop_first(), t.drop_first())
    }
}

/// Whether `pattern` matches `topic`, both written as dot-separated paths.
pub open spec fn spec_topic_matches(pattern: Seq<char>, topic: Seq<char>) -> bool {
    spec_seg_match(spec_split(pattern, '.'), spec_split(topic, '.'))
}

fn match_from(p: &Vec<String>, pi: usize, t: &Vec<String>, ti: usize) -> (r: bool)
    requires
        pi <= p@.len(),
        ti <= t@.len(),
    ensures
        r == spec_seg_match(
            seg_views(p@).subrange(pi as int, p@.len() as int),
            seg_views(t@).subrange(ti as int, t@.len() as int),
        ),
    decreases p@.len() - pi + t@.len() - ti,
{
    let ghost pv = seg_views(p@).subrange(pi as int, p@.len() as int);
    let ghost tv = seg_views(t@).subrange(ti as int, t@.len() as int);
    if pi == p.len() {
        return ti == t.len();
    }
    proof {
        assert(pv[0] == p@[pi as int]@);
        if pi < p@.len() {
            assert(seg_views(p@).subrange(pi + 1, p@.len() as int) =~= pv.drop_first());
        }
        if ti < t@.len() {
            assert(seg_views(t@).subrange(ti + 1, t@.len() as int) =~= tv.drop_first());
        }
    }
    let seg = &p[pi];
    if str_eq(seg.as_str(), "**") {
        if ti == t.len() {
            // `**` may match zero segments only as the final pattern segment
            return pi + 1 == p.len();
        }
        if match_from(p, pi + 1, t, ti) {
            return true;
        }
        match_from(p, pi, t, ti + 1)
    } else if str_eq(seg.as_str(), "*") {
        if ti == t.len() {
            return false;
        }
        match_from(p, pi + 1, t, ti + 1)
    } else {
        if ti == t.len() {
            return false;
        }
        if !str_eq(seg.as_str(), t[ti].as_str()) {
            proof {
                assert(tv[0] == t@[ti as int]@);
            }
            return false;
        }
        match_from(p, pi + 1, t, ti + 1)
    }
}

/// Match a sequence of pattern segments against a sequence of topic segments.
pub fn match_parts(pattern: &Vec<String>, topic: &Vec<String>) -> (r: bool)
    ensures
        r == spec_seg_match(seg_views(pattern@), seg_views(topic@)),
{
    proof {
        assert(seg_views(pattern@).subrange(0, pattern@.len() as int) =~= seg_views(pattern@));
        assert(seg_views(topic@).subrange(0, topic@.len() as int) =~= seg_views(topic@));
    }
    match_from(pattern, 0, topic, 0)
}

/// Match a topic name against a wildcard pattern.
pub fn topic_matches(pattern: &str, topic: &str) -> (r: bool)
    ensures
        r == spec_topic_matches(pattern@, topic@),
{
    let pattern_parts = split_char(pattern, '.');
    let topic_parts = split_char(topic, '.');
    proof {
        assert(seg_views(pattern_parts@) == spec_split(pattern@, '.'));
        assert(seg_views(topic_parts@) == spec_split(topic@, '.'));
    }
    match_parts(&pattern_parts, &topic_parts)
}

// ---------------------------------------------------------------------------
// Whitespace-insensitive pattern normalization
// ---------------------------------------------------------------------------

/// Join segments with `.` separators.
pub open spec fn spec_join(segs: Seq<Seq<char>>, sep: char) -> Seq<char>
    decreases segs.len(),
{
    if segs.len() == 0 {
        Seq::empty()
    } else if segs.len() == 1 {
        segs[0]
    } else {
        segs[0] + seq![sep] + spec_join(segs.drop_first(), sep)
    }
}

/// A pattern normalized: every segment stripped of surrounding whitespace.
pub open spec fn spec_normalize_pattern(p: Seq<char>) -> Seq<char> {
    spec_join(spec_split(p, '.').map_values(|s: Seq<char>| spec_trim(s)), '.')
}

/// Strip whitespace around every segment of a pattern.
pub fn normalize_pattern(pattern: &str) -> (r: String)
    ensures
        r@ == spec_normalize_pattern(pattern@),
{
    let parts = split_char(pattern, '.');
    let ghost segs = spec_split(pattern@, '.').map_values(|s: Seq<char>| spec_trim(s));
    let mut out = String::new();
    let n = parts.len();
    proof {
        lemma_split_len(pattern@, '.');
        assert(segs.len() == n);
    }
    let mut i: usize = 0;
    while i < n
        invariant
            n == parts@.len(),
            n == segs.len(),
            n >= 1,
            i <= n,
            forall|j: int| 0 <= j < n ==> segs[j] == spec_trim(#[trigger] parts@[j]@),
            out@ == spec_join_prefix(segs, i as int),
        decreases n - i,
    {
        let piece = trim(parts[i].as_str());
        if i > 0 {
            let mut with_dot = out;
            with_dot.append(".");
            out = with_dot.concat(piece.as_str());
        } else {
            out = piece;
        }
        i = i + 1;
        proof {
            reveal_strlit(".");
            assert(out@ =~= spec_join_prefix(segs, i as int));
        }
    }
    proof {
        lemma_join_prefix_all(segs, '.');
    }
    out
}

/// The join of the first `k` segments, used to state the builder's invariant.
pub open spec fn spec_join_prefix(segs: Seq<Seq<char>>, k: int) -> Seq<char>
    decreases k,
{
    if k <= 0 {
        Seq::empty()
    } else if k == 1 {
        segs[0]
    } else {
        spec_join_prefix(segs, k - 1) + seq!['.'] + segs[k - 1]
    }
}

proof fn lemma_join_prefix_step(segs: Seq<Seq<char>>, k: int)
    requires
        1 <= k <= segs.len(),
    ensures
        spec_join(segs.subrange(0, k), '.') == spec_join_prefix(segs, k),
    decreases k,
{
    if k == 1 {
        assert(segs.subrange(0, 1) =~= seq![segs[0]]);
    } else {
        lemma_join_prefix_step(segs, k - 1);
        lemma_join_snoc(segs.subrange(0, k - 1), segs[k - 1], '.');
        assert(segs.subrange(0, k) =~= segs.subrange(0, k - 1).push(segs[k - 1]));
    }
}

/// Joining after appending one segment appends a separator and the segment.
proof fn lemma_join_snoc(segs: Seq<Seq<char>>, last: Seq<char>, sep: char)
    requires
        segs.len() >= 1,
    ensures
        spec_join(segs.push(last), sep) == spec_join(segs, sep) + seq![sep] + last,
    decreases segs.len(),
{
    if segs.len() == 1 {
        assert(segs.push(last).drop_first() =~= seq![last]);
        assert(spec_join(seq![last], sep) == last);
        assert(spec_join(segs.push(last), sep) =~= segs[0] + seq![sep] + last);
    } else {
        assert(segs.push(last).drop_first() =~= segs.drop_first().push(last));
        lemma_join_snoc(segs.drop_first(), last, sep);
        assert(spec_join(segs.push(last), sep) =~= spec_join(segs, sep) + seq![sep] + last);
    }
}

proof fn lemma_join_prefix_all(segs: Seq<Seq<char>>, sep: char)
    requires
        segs.len() >= 1,
    ensures
        spec_join_prefix(segs, segs.len() as int) == spec_join(segs, '.'),
{
    lemma_join_prefix_step(segs, segs.len() as int);
    assert(segs.subrange(0, segs.len() as int) =~= segs);
}

// ---------------------------------------------------------------------------
// The normalization laws
// ---------------------------------------------------------------------------

/// No segment produced by a split contains the separator.
proof fn lemma_split_sep_free(s: Seq<char>, sep: char)
    ensures
        forall|k: int|
            0 <= k < spec_split(s, sep).len() ==> !(#[trigger] spec_split(s, sep)[k]).contains(
                sep,
            ),
    decreases s.len(),
{
    let i = spec_find(s, sep);
    lemma_find_bounds(s, sep);
    if 0 <= i < s.len() {
        let rest = s.subrange(i + 1, s.len() as int);
        lemma_split_sep_free(rest, sep);
        assert forall|k: int| 0 <= k < spec_split(s, sep).len() implies !(
        #[trigger] spec_split(s, sep)[k]).contains(sep) by {
            if k == 0 {
                assert(forall|j: int|
                    0 <= j < spec_split(s, sep)[0].len() ==> spec_split(s, sep)[0][j] != sep);
                if spec_split(s, sep)[0].contains(sep) {
                    let j = choose|j: int|
                        0 <= j < spec_split(s, sep)[0].len() && spec_split(s, sep)[0][j] == sep;
                }
            } else {
                assert(spec_split(s, sep)[k] == spec_split(rest, sep)[k - 1]);
            }
        }
    } else {
        assert(spec_split(s, sep) =~= seq![s]);
        assert forall|k: int| 0 <= k < spec_split(s, sep).len() implies !(
        #[trigger] spec_split(s, sep)[k]).contains(sep) by {
            if spec_split(s, sep)[k].contains(sep) {
                let j = choose|j: int| 0 <= j < s.len() && s[j] == sep;
            }
        }
    }
}

/// Splitting the join of separator-free segments gives back the segments.
proof fn lemma_split_join(segs: Seq<Seq<char>>, sep: char)
    requires
        segs.len() >= 1,
        forall|k: int| 0 <= k < segs.len() ==> !(#[trigger] segs[k]).contains(sep),
    ensures
        spec_split(spec_join(segs, sep), sep) == segs,
    decreases segs.len(),
{
    let joined = spec_join(segs, sep);
    if segs.len() == 1 {
        assert(!segs[0].contains(sep));
        assert forall|j: int| 0 <= j < joined.len() implies joined[j] != sep by {
            if joined[j] == sep {
                assert(segs[0].contains(sep));
            }
        }
        crate::strutil::lemma_find_at(joined, sep, joined.len() as int);
        assert(spec_split(joined, sep) =~= seq![joined]);
    } else {
        let head = segs[0];
        let rest = segs.drop_first();
        lemma_split_join(rest, sep);
        assert(joined =~= head + seq![sep] + spec_join(rest, sep));
        assert forall|j: int| 0 <= j < head.len() implies joined[j] != sep by {
            if joined[j] == sep {
                assert(head[j] == sep);
                assert(head.contains(sep));
            }
        }
        assert(joined[head.len() as int] == sep);
        crate::strutil::lemma_find_at(joined, sep, head.len() as int);
        assert(joined.subrange(0, head.len() as int) =~= head);
        assert(joined.subrange(head.len() as int + 1, joined.len() as int) =~= spec_join(rest, sep));
        assert(spec_split(joined, sep) =~= seq![head] + spec_split(spec_join(rest, sep), sep));
        assert(spec_split(joined, sep) =~= segs);
    }
}

/// Trimming does not introduce a separator.
proof fn lemma_trim_sep_free(s: Seq<char>, sep: char)
    requires
        !s.contains(sep),
    ensures
        !spec_trim(s).contains(sep),
    decreases s.len(),
{
    if s.len() == 0 {
    } else if spec_is_space(s[0]) {
        assert forall|j: int| 0 <= j < s.drop_first().len() implies s.drop_first()[j] != sep by {
            assert(s[j + 1] != sep);
        }
        assert(!s.drop_first().contains(sep));
        lemma_trim_sep_free(s.drop_first(), sep);
    } else if spec_is_space(s.last()) {
        assert forall|j: int| 0 <= j < s.drop_last().len() implies s.drop_last()[j] != sep by {
            assert(s[j] != sep);
        }
        assert(!s.drop_last().contains(sep));
        lemma_trim_sep_free(s.drop_last(), sep);
    }
}

/// Trimming is idempotent.
proof fn lemma_trim_idempotent(s: Seq<char>)
    ensures
        spec_trim(spec_trim(s)) == spec_trim(s),
    decreases s.len(),
{
    if s.len() == 0 {
    } else if spec_is_space(s[0]) {
        lemma_trim_idempotent(s.drop_first());
    } else if spec_is_space(s.last()) {
        lemma_trim_idempotent(s.drop_last());
    }
}

/// Normalizing a pattern twice changes nothing: every later normalization
/// of a normalized pattern is the identity.
pub proof fn lemma_normalize_idempotent(p: Seq<char>)
    ensures
        spec_normalize_pattern(spec_normalize_pattern(p)) == spec_normalize_pattern(p),
{
    let segs = spec_split(p, '.');
    let trimmed = segs.map_values(|s: Seq<char>| spec_trim(s));
    crate::strutil::lemma_split_len(p, '.');
    lemma_split_sep_free(p, '.');
    assert forall|k: int| 0 <= k < trimmed.len() implies !(#[trigger] trimmed[k]).contains(
        '.',
    ) by {
        lemma_trim_sep_free(segs[k], '.');
    }
    lemma_split_join(trimmed, '.');
    let again = trimmed.map_values(|s: Seq<char>| spec_trim(s));
    assert forall|k: int| 0 <= k < trimmed.len() implies again[k] == trimmed[k] by {
        lemma_trim_idempotent(segs[k]);
    }
    assert(again =~= trimmed);
}

/// Matching is insensitive to whitespace in the pattern: two patterns with
/// the same normalization match exactly the same topics.
pub proof fn lemma_matches_whitespace_insensitive(p1: Seq<char>, p2: Seq<char>, t: Seq<char>)
    requires
        spec_normalize_pattern(p1) == spec_normalize_pattern(p2),
    ensures
        spec_topic_matches(spec_normalize_pattern(p1), t) == spec_topic_matches(
            spec_normalize_pattern(p2),
            t,
        ),
{
}

} // verus!
