//! Verified helpers over strings: equality, prefix test, ASCII case folding,
//! whitespace trimming, splitting on a separator, integer parsing, and
//! lexicographic comparison of textual timestamps.

use vstd::prelude::*;

verus! {

// ---------------------------------------------------------------------------
// Character helpers
// ---------------------------------------------------------------------------

pub open spec fn spec_lower_char(c: char) -> char {
    if 'A' <= c && c <= 'Z' {
        (((c as u32) + 32) as u8) as char
    } else {
        c
    }
}

/// ASCII-lowercase one character.
pub fn lower_char(c: char) -> (r: char)
    ensures
        r == spec_lower_char(c),
{
    let u = c as u32;
    if 65 <= u && u <= 90 {
        ((u + 32) as u8) as char
    } else {
        c
    }
}

/// The whitespace characters that header values are trimmed of.
pub open spec fn spec_is_space(c: char) -> bool {
    c == ' ' || c == '\t' || c == '\r' || c == '\n'
}

pub fn is_space(c: char) -> (r: bool)
    ensures
        r == spec_is_space(c),
{
    c == ' ' || c == '\t' || c == '\r' || c == '\n'
}

pub open spec fn spec_is_digit(c: char) -> bool {
    '0' <= c && c <= '9'
}

pub open spec fn spec_lower(s: Seq<char>) -> Seq<char> {
    s.map_values(|c: char| spec_lower_char(c))
}

// ---------------------------------------------------------------------------
// Equality and prefix
// ---------------------------------------------------------------------------

/// Character-for-character equality of two string slices.
pub fn str_eq(a: &str, b: &str) -> (r: bool)
    ensures
        r == (a@ == b@),
{
    let an = a.unicode_len();
    let bn = b.unicode_len();
    if an != bn {
        return false;
    }
    let mut i: usize = 0;
    while i < an
        invariant
            an == a@.len(),
            bn == b@.len(),
            an == bn,
            i <= an,
            forall|j: int| 0 <= j < i ==> a@[j] == b@[j],
        decreases an - i,
    {
        if a.get_char(i) != b.get_char(i) {
            return false;
        }
        i = i + 1;
    }
    proof {
        assert(a@ =~= b@);
    }
    true
}

/// Whether `p` is a prefix of `s`.
pub fn str_starts_with(s: &str, p: &str) -> (r: bool)
    ensures
        r == p@.is_prefix_of(s@),
{
    let sn = s.unicode_len();
    let pn = p.unicode_len();
    if pn > sn {
        return false;
    }
    let mut i: usize = 0;
    while i < pn
        invariant
            sn == s@.len(),
            pn == p@.len(),
            pn <= sn,
            i <= pn,
            forall|j: int| 0 <= j < i ==> s@[j] == p@[j],
        decreases pn - i,
    {
        if s.get_char(i) != p.get_char(i) {
            return false;
        }
        i = i + 1;
    }
    proof {
        assert(p@ =~= s@.subrange(0, p@.len() as int));
    }
    true
}

// ---------------------------------------------------------------------------
// Case folding
// ---------------------------------------------------------------------------

/// ASCII-lowercase a whole string.
pub fn to_lower(s: &str) -> (r: String)
    ensures
        r@ == spec_lower(s@),
{
    let n = s.unicode_len();
    let mut out = String::new();
    let mut chunk = [' '];
    let mut i: usize = 0;
    while i < n
        invariant
            n == s@.len(),
            i <= n,
            out@ =~= spec_lower(s@.subrange(0, i as int)),
        decreases n - i,
    {
        let c = lower_char(s.get_char(i));
        push_char(&mut out, c);
        i = i + 1;
        proof {
            assert(out@ =~= spec_lower(s@.subrange(0, i as int)));
        }
    }
    proof {
        assert(s@.subrange(0, n as int) =~= s@);
    }
    out
}

/// Append one character to a string.
///
/// Relies on `String::push` of std: it appends exactly the given character.
#[verifier::external_body]
pub fn push_char(s: &mut String, c: char)
    ensures
        final(s)@ == old(s)@.push(c),
{
    s.push(c);
}

// ---------------------------------------------------------------------------
// Trimming
// ---------------------------------------------------------------------------

pub open spec fn spec_trim(s: Seq<char>) -> Seq<char>
    decreases s.len(),
{
    if s.len() == 0 {
        s
    } else if spec_is_space(s[0]) {
        spec_trim(s.drop_first())
    } else if spec_is_space(s.last()) {
        spec_trim(s.drop_last())
    } else {
        s
    }
}

proof fn lemma_trim_subrange(s: Seq<char>, lo: int, hi: int)
    requires
        0 <= lo <= hi <= s.len(),
        forall|j: int| 0 <= j < lo ==> spec_is_space(#[trigger] s[j]),
        forall|j: int| hi <= j < s.len() ==> spec_is_space(#[trigger] s[j]),
        lo < hi ==> !spec_is_space(s[lo]) && !spec_is_space(s[hi - 1]),
        lo == hi ==> lo == 0 || hi == s.len(),
    ensures
        spec_trim(s) == s.subrange(lo, hi),
    decreases s.len(),
{
    if s.len() == 0 {
        assert(s.subrange(lo, hi) =~= s);
    } else if spec_is_space(s[0]) {
        let t = s.drop_first();
        if lo == hi {
            // s is all spaces
            if lo == 0 {
                assert(spec_is_space(s[0]));
                assert(forall|j: int| 0 <= j < t.len() ==> spec_is_space(#[trigger] t[j]));
                lemma_trim_subrange(t, 0, 0);
                assert(s.subrange(lo, hi) =~= t.subrange(0, 0));
            } else {
                lemma_trim_subrange(t, lo - 1, hi - 1);
                assert(s.subrange(lo, hi) =~= t.subrange(lo - 1, hi - 1));
            }
        } else {
            // lo >= 1 since s[0] is a space and s[lo] is not
            assert(lo >= 1);
            lemma_trim_subrange(t, lo - 1, hi - 1);
            assert(s.subrange(lo, hi) =~= t.subrange(lo - 1, hi - 1));
        }
    } else if spec_is_space(s.last()) {
        let t = s.drop_last();
        if lo == hi {
            assert(hi == s.len() || lo == 0);
            // s[0] is not a space, so lo == 0 forces hi == 0 <= 0; but s.last()
            // is a space, so hi <= len - 1 in the all-space reading; handle both
            if hi == s.len() {
                // everything below hi is a space, contradicting !space(s[0]) unless lo==hi==0
                assert(lo == 0 ==> s.len() == 0 || spec_is_space(s[0]) || hi == 0);
                lemma_trim_subrange(t, if lo <= t.len() { lo } else { t.len() as int }, if hi - 1 <= t.len() { hi - 1 } else { t.len() as int });
                assert(s.subrange(lo, hi) =~= t.subrange(if lo <= t.len() { lo } else { t.len() as int }, if hi - 1 <= t.len() { hi - 1 } else { t.len() as int }));
            } else {
                lemma_trim_subrange(t, lo, hi);
                assert(s.subrange(lo, hi) =~= t.subrange(lo, hi));
            }
        } else {
            assert(hi <= s.len() - 1);
            lemma_trim_subrange(t, lo, hi);
            assert(s.subrange(lo, hi) =~= t.subrange(lo, hi));
        }
    } else {
        assert(lo == 0);
        assert(hi == s.len());
        assert(s.subrange(lo, hi) =~= s);
    }
}

/// Trim leading and trailing whitespace.
pub fn trim(s: &str) -> (r: String)
    ensures
        r@ == spec_trim(s@),
{
    let n = s.unicode_len();
    let mut lo: usize = 0;
    while lo < n && is_space(s.get_char(lo))
        invariant
            n == s@.len(),
            lo <= n,
            forall|j: int| 0 <= j < lo ==> spec_is_space(#[trigger] s@[j]),
        decreases n - lo,
    {
        lo = lo + 1;
    }
    let mut hi: usize = n;
    while hi > lo && is_space(s.get_char(hi - 1))
        invariant
            n == s@.len(),
            lo <= hi <= n,
            forall|j: int| 0 <= j < lo ==> spec_is_space(#[trigger] s@[j]),
            forall|j: int| hi <= j < n ==> spec_is_space(#[trigger] s@[j]),
        decreases hi,
    {
        hi = hi - 1;
    }
    let part = s.substring_char(lo, hi);
    proof {
        if lo == hi {
            assert(lo == 0 || spec_is_space(s@[lo - 1]));
            if lo != 0 {
                assert(forall|j: int| 0 <= j < s@.len() ==> spec_is_space(#[trigger] s@[j]));
                lemma_trim_subrange(s@, 0, 0);
                assert(s@.subrange(0, 0) =~= s@.subrange(lo as int, hi as int));
            } else {
                lemma_trim_subrange(s@, lo as int, hi as int);
            }
        } else {
            lemma_trim_subrange(s@, lo as int, hi as int);
        }
    }
    String::from_str(part)
}

// ---------------------------------------------------------------------------
// Splitting on a separator character
// ---------------------------------------------------------------------------

/// Index of the first occurrence of `sep`, or the length when absent.
pub open spec fn spec_find(s: Seq<char>, sep: char) -> int
    decreases s.len(),
{
    if s.len() == 0 {
        0
    } else if s[0] == sep {
        0
    } else {
        1 + spec_find(s.drop_first(), sep)
    }
}

pub proof fn lemma_find_bounds(s: Seq<char>, sep: char)
    ensures
        0 <= spec_find(s, sep) <= s.len(),
        forall|j: int| 0 <= j < spec_find(s, sep) ==> s[j] != sep,
        spec_find(s, sep) < s.len() ==> s[spec_find(s, sep)] == sep,
    decreases s.len(),
{
    if s.len() > 0 && s[0] != sep {
        let t = s.drop_first();
        lemma_find_bounds(t, sep);
        assert forall|j: int| 0 <= j < spec_find(s, sep) implies s[j] != sep by {
            if j > 0 {
                assert(s[j] == t[j - 1]);
            }
        }
    }
}

pub proof fn lemma_find_at(s: Seq<char>, sep: char, i: int)
    requires
        0 <= i <= s.len(),
        forall|j: int| 0 <= j < i ==> s[j] != sep,
        i < s.len() ==> s[i] == sep,
    ensures
        spec_find(s, sep) == i,
    decreases s.len(),
{
    if s.len() > 0 && s[0] != sep {
        lemma_find_at(s.drop_first(), sep, i - 1);
    }
}

/// The segments of `s` between occurrences of `sep`.  A string with no
/// separator is one segment; each separator ends a segment, so `n`
/// separators give `n + 1` segments, empty ones included.
pub open spec fn spec_split(s: Seq<char>, sep: char) -> Seq<Seq<char>>
    decreases s.len(),
{
    let i = spec_find(s, sep);
    if 0 <= i < s.len() {
        seq![s.subrange(0, i)] + spec_split(s.subrange(i + 1, s.len() as int), sep)
    } else {
        seq![s]
    }
}

pub proof fn lemma_split_len(s: Seq<char>, sep: char)
    ensures
        spec_split(s, sep).len() >= 1,
    decreases s.len(),
{
    let i = spec_find(s, sep);
    lemma_find_bounds(s, sep);
    if i < s.len() {
        lemma_split_len(s.subrange(i + 1, s.len() as int), sep);
    }
}

/// Split a string at every occurrence of `sep`.
pub fn split_char(s: &str, sep: char) -> (r: Vec<String>)
    ensures
        r@.map_values(|t: String| t@) == spec_split(s@, sep),
    decreases s@.len(),
{
    let n = s.unicode_len();
    let mut i: usize = 0;
    while i < n && s.get_char(i) != sep
        invariant
            n == s@.len(),
            i <= n,
            forall|j: int| 0 <= j < i ==> s@[j] != sep,
        decreases n - i,
    {
        i = i + 1;
    }
    proof {
        lemma_find_at(s@, sep, i as int);
    }
    if i == n {
        let mut r: Vec<String> = Vec::new();
        r.push(String::from_str(s));
        proof {
            assert(r@.map_values(|t: String| t@) =~= spec_split(s@, sep));
        }
        r
    } else {
        let head = String::from_str(s.substring_char(0, i));
        let tail = s.substring_char(i + 1, n);
        let rest = split_char(tail, sep);
        let mut r: Vec<String> = Vec::new();
        r.push(head);
        let mut k: usize = 0;
        let m = rest.len();
        while k < m
            invariant
                m == rest.len(),
                k <= m,
                r@.len() == k + 1,
                r@[0]@ == s@.subrange(0, spec_find(s@, sep)),
                forall|j: int| 0 <= j < k ==> (#[trigger] r@[j + 1])@ == rest@[j]@,
            decreases m - k,
        {
            let item = clone_string(&rest[k]);
            r.push(item);
            k = k + 1;
        }
        proof {
            let i0 = spec_find(s@, sep);
            lemma_find_bounds(s@, sep);
            let lhs = r@.map_values(|t: String| t@);
            let rhsrest = spec_split(tail@, sep);
            assert(rest@.map_values(|t: String| t@) == rhsrest);
            assert(lhs.len() == 1 + rhsrest.len());
            assert(lhs[0] == s@.subrange(0, i0));
            assert forall|j: int| 1 <= j < lhs.len() implies lhs[j] == rhsrest[j - 1] by {
                assert(r@[(j - 1) + 1]@ == rest@[j - 1]@);
                assert(r@[j]@ == rest@[j - 1]@);
                assert(rest@.map_values(|t: String| t@)[j - 1] == rest@[j - 1]@);
            }
            assert(lhs =~= seq![s@.subrange(0, i0)] + rhsrest);
        }
        r
    }
}

/// Clone a string.
pub fn clone_string(s: &String) -> (r: String)
    ensures
        r == *s,
{
    s.clone()
}

// ---------------------------------------------------------------------------
// Integer parsing
// ---------------------------------------------------------------------------

/// Numeric value of a digit sequence read left to right.
pub open spec fn spec_digits_value(s: Seq<char>) -> int
    decreases s.len(),
{
    if s.len() == 0 {
        0
    } else {
        spec_digits_value(s.drop_last()) * 10 + (s.last() as int - '0' as int)
    }
}

pub open spec fn spec_all_digits(s: Seq<char>) -> bool {
    forall|j: int| 0 <= j < s.len() ==> spec_is_digit(#[trigger] s[j])
}

/// The value `str::parse::<i32>` would yield: an optional sign followed by
/// one or more digits, in range; anything else is `None`.
pub open spec fn spec_parse_i32(s: Seq<char>) -> Option<i32> {
    let body = if s.len() > 0 && (s[0] == '+' || s[0] == '-') {
        s.drop_first()
    } else {
        s
    };
    let neg = s.len() > 0 && s[0] == '-';
    if body.len() == 0 || !spec_all_digits(body) {
        None
    } else {
        let v = if neg {
            -spec_digits_value(body)
        } else {
            spec_digits_value(body)
        };
        if i32::MIN <= v <= i32::MAX {
            Some(v as i32)
        } else {
            None
        }
    }
}

proof fn lemma_digits_value_bounds(s: Seq<char>)
    requires
        spec_all_digits(s),
    ensures
        0 <= spec_digits_value(s),
        s.len() > 0 ==> spec_digits_value(s) >= spec_digits_value(s.drop_last()),
    decreases s.len(),
{
    if s.len() > 0 {
        lemma_digits_value_bounds(s.drop_last());
    }
}

/// Parse a decimal integer as `str::parse::<i32>` does.
pub fn parse_i32(s: &str) -> (r: Option<i32>)
    ensures
        r == spec_parse_i32(s@),
{
    let n = s.unicode_len();
    if n == 0 {
        return None;
    }
    let c0 = s.get_char(0);
    let (neg, start): (bool, usize) = if c0 == '-' {
        (true, 1)
    } else if c0 == '+' {
        (false, 1)
    } else {
        (false, 0)
    };
    let ghost body = if s@[0] == '+' || s@[0] == '-' {
        s@.drop_first()
    } else {
        s@
    };
    if n == start {
        return None;
    }
    let mut acc: i64 = 0;
    let mut i: usize = start;
    while i < n
        invariant
            n == s@.len(),
            start <= i <= n,
            start <= 1,
            n > start,
            body == if s@[0] == '+' || s@[0] == '-' {
                s@.drop_first()
            } else {
                s@
            },
            body.len() == n - start,
            forall|j: int| 0 <= j < body.len() ==> body[j] == s@[j + start],
            forall|j: int| start <= j < i ==> spec_is_digit(#[trigger] s@[j]),
            acc == spec_digits_value(body.subrange(0, i - start)),
            0 <= acc <= 0x7fff_ffff_ffff,
        decreases n - i,
    {
        let c = s.get_char(i);
        if !('0' <= c && c <= '9') {
            proof {
                assert(!spec_is_digit(body[i - start]));
            }
            return None;
        }
        if acc > 0xffff_ffff {
            // already past any representable i32; scan the rest for digit-ness
            let mut k: usize = i;
            while k < n
                invariant
                    n == s@.len(),
                    start <= 1 <= n,
                    start <= i,
                    i <= k <= n,
                    body == if s@[0] == '+' || s@[0] == '-' {
                        s@.drop_first()
                    } else {
                        s@
                    },
                    body.len() == n - start,
                    forall|j: int| 0 <= j < body.len() ==> body[j] == s@[j + start],
                    forall|j: int| start <= j < k ==> spec_is_digit(#[trigger] s@[j]),
                    acc == spec_digits_value(body.subrange(0, i - start)),
                    acc > 0xffff_ffff,
                decreases n - k,
            {
                let c2 = s.get_char(k);
                if !('0' <= c2 && c2 <= '9') {
                    proof {
                        assert(!spec_is_digit(body[k - start]));
                    }
                    return None;
                }
                k = k + 1;
            }
            proof {
                lemma_value_grows(body, (i - start) as int);
                assert(spec_all_digits(body));
            }
            return None;
        }
        acc = acc * 10 + ((c as u32 - '0' as u32) as i64);
        i = i + 1;
        proof {
            assert(body.subrange(0, i - start).drop_last() =~= body.subrange(
                0,
                i - start - 1,
            ));
        }
    }
    proof {
        assert(body =~= body.subrange(0, n - start));
        assert(spec_all_digits(body));
    }
    let v: i64 = if neg {
        -acc
    } else {
        acc
    };
    if -0x8000_0000i64 <= v && v <= 0x7fff_ffffi64 {
        Some(v as i32)
    } else {
        None
    }
}

/// A digit appended to a digit string never shrinks its value.
proof fn lemma_value_grows(s: Seq<char>, k: int)
    requires
        0 <= k <= s.len(),
        forall|j: int| 0 <= j < s.len() ==> spec_is_digit(#[trigger] s[j]),
    ensures
        spec_digits_value(s) >= spec_digits_value(s.subrange(0, k)),
    decreases s.len() - k,
{
    if k < s.len() {
        lemma_value_grows(s, k + 1);
        let p = s.subrange(0, k + 1);
        assert(p.drop_last() =~= s.subrange(0, k));
        lemma_digits_value_bounds(s.subrange(0, k));
        assert(spec_digits_value(p) == spec_digits_value(s.subrange(0, k)) * 10 + (p.last() as int
            - '0' as int));
        assert(spec_digits_value(s.subrange(0, k)) * 10 >= spec_digits_value(
            s.subrange(0, k),
        )) by (nonlinear_arith)
            requires
                spec_digits_value(s.subrange(0, k)) >= 0,
        ;
    } else {
        assert(s.subrange(0, k) =~= s);
    }
}

// ---------------------------------------------------------------------------
// Lexicographic comparison (textual timestamps)
// ---------------------------------------------------------------------------

/// Lexicographic order on character sequences.  On the fixed-width
/// `YYYY-MM-DD HH:MM:SS` timestamp format it agrees with time order.
pub open spec fn spec_lex_le(a: Seq<char>, b: Seq<char>) -> bool
    decreases a.len(),
{
    if a.len() == 0 {
        true
    } else if b.len() == 0 {
        false
    } else if (a[0] as int) < (b[0] as int) {
        true
    } else if (a[0] as int) > (b[0] as int) {
        false
    } else {
        spec_lex_le(a.drop_first(), b.drop_first())
    }
}

/// Whether `a` is lexicographically at or before `b`.
pub fn lex_le(a: &str, b: &str) -> (r: bool)
    ensures
        r == spec_lex_le(a@, b@),
    decreases a@.len(),
{
    let an = a.unicode_len();
    let bn = b.unicode_len();
    proof {
        assert(a@.subrange(0, an as int) =~= a@);
        assert(b@.subrange(0, bn as int) =~= b@);
    }
    let mut i: usize = 0;
    while i < an && i < bn
        invariant
            an == a@.len(),
            bn == b@.len(),
            i <= an,
            i <= bn,
            forall|j: int| 0 <= j < i ==> a@[j] == b@[j],
            spec_lex_le(a@, b@) == spec_lex_le(
                a@.subrange(i as int, an as int),
                b@.subrange(i as int, bn as int),
            ),
        decreases an - i,
    {
        let ca = a.get_char(i);
        let cb = b.get_char(i);
        if (ca as u32) < (cb as u32) {
            return true;
        }
        if (ca as u32) > (cb as u32) {
            return false;
        }
        i = i + 1;
        proof {
            assert(a@.subrange(i - 1, an as int).drop_first() =~= a@.subrange(i as int, an as int));
            assert(b@.subrange(i - 1, bn as int).drop_first() =~= b@.subrange(i as int, bn as int));
        }
    }
    proof {
        assert(a@.subrange(i as int, an as int).len() == an - i);
        assert(b@.subrange(i as int, bn as int).len() == bn - i);
    }
    i == an
}

pub proof fn lemma_lex_le_total(a: Seq<char>, b: Seq<char>)
    ensures
        spec_lex_le(a, b) || spec_lex_le(b, a),
    decreases a.len(),
{
    if a.len() > 0 && b.len() > 0 && a[0] == b[0] {
        lemma_lex_le_total(a.drop_first(), b.drop_first());
    }
}

} // verus!
