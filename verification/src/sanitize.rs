//! Filename sanitization for uploads and downloads, and the salted names
//! stored files are written under.

use vstd::prelude::*;
use crate::strutil::{push_char, str_eq};
use crate::tokens::{random_uuid36, spec_is_lower_hex};

verus! {

/// Path separators whose presence in a filename would allow traversal.
pub open spec fn spec_is_sep(c: char) -> bool {
    c == '/' || c == '\\'
}

/// Characters a sanitized filename may hold.
pub open spec fn spec_safe_char(c: char) -> bool {
    ||| ('a' <= c && c <= 'z')
    ||| ('A' <= c && c <= 'Z')
    ||| ('0' <= c && c <= '9')
    ||| c == '.'
    ||| c == '-'
    ||| c == '_'
}

fn safe_char(c: char) -> (r: bool)
    ensures
        r == spec_safe_char(c),
{
    ('a' <= c && c <= 'z') || ('A' <= c && c <= 'Z') || ('0' <= c && c <= '9') || c == '.' || c
        == '-' || c == '_'
}

/// What remains of a path after its last separator.
pub open spec fn spec_base_name(s: Seq<char>) -> Seq<char>
    decreases s.len(),
{
    if s.len() == 0 {
        s
    } else if spec_is_sep(s.last()) {
        Seq::empty()
    } else {
        spec_base_name(s.drop_last()).push(s.last())
    }
}

/// The sanitized form of a raw filename before any fallback: directory
/// components stripped, then every unsafe character removed.
pub open spec fn spec_sanitize_core(s: Seq<char>) -> Seq<char> {
    spec_base_name(s).filter(|c: char| spec_safe_char(c))
}

/// Whether the sanitized core is usable as a filename on its own.
pub open spec fn spec_core_usable(s: Seq<char>) -> bool {
    spec_sanitize_core(s).len() > 0 && spec_sanitize_core(s) != "."@ && spec_sanitize_core(s)
        != ".."@
}

proof fn lemma_base_name_suffix(s: Seq<char>, lo: int)
    requires
        0 <= lo <= s.len(),
        forall|j: int| lo <= j < s.len() ==> !spec_is_sep(#[trigger] s[j]),
        lo > 0 ==> spec_is_sep(s[lo - 1]),
    ensures
        spec_base_name(s) == s.subrange(lo, s.len() as int),
    decreases s.len(),
{
    if s.len() == 0 {
        assert(s.subrange(lo, s.len() as int) =~= s);
    } else if spec_is_sep(s.last()) {
        assert(lo == s.len());
        assert(s.subrange(lo, s.len() as int) =~= Seq::<char>::empty());
    } else {
        assert(lo < s.len());
        lemma_base_name_suffix(s.drop_last(), lo);
        assert(s.subrange(lo, s.len() as int) =~= s.drop_last().subrange(
            lo,
            s.drop_last().len() as int,
        ).push(s.last()));
    }
}

/// Remove every unsafe character.
fn filter_safe(s: &str) -> (r: String)
    ensures
        r@ == s@.filter(|c: char| spec_safe_char(c)),
        forall|i: int| 0 <= i < r@.len() ==> spec_safe_char(#[trigger] r@[i]),
{
    let n = s.unicode_len();
    let mut out = String::new();
    let mut i: usize = 0;
    proof {
        reveal(Seq::filter);
        assert(s@.subrange(0, 0) =~= Seq::<char>::empty());
    }
    while i < n
        invariant
            n == s@.len(),
            i <= n,
            out@ == s@.subrange(0, i as int).filter(|c: char| spec_safe_char(c)),
        decreases n - i,
    {
        let c = s.get_char(i);
        if safe_char(c) {
            push_char(&mut out, c);
        }
        i = i + 1;
        proof {
            reveal(Seq::filter);
            assert(s@.subrange(0, i as int).drop_last() =~= s@.subrange(0, i - 1));
            assert(s@.subrange(0, i as int).last() == s@[i - 1]);
        }
    }
    proof {
        assert(s@.subrange(0, n as int) =~= s@);
        broadcast use vstd::seq_lib::group_filter_ensures;

    }
    out
}

/// Sanitize a filename: strip directory components, drop every character
/// outside `[A-Za-z0-9._-]`, and fall back to a freshly minted opaque name
/// when nothing usable remains.  The result is never empty, never `.` or
/// `..`, and holds no separator.
pub fn sanitize_filename(raw: &str) -> (r: String)
    ensures
        r@.len() > 0,
        r@ != "."@,
        r@ != ".."@,
        forall|i: int| 0 <= i < r@.len() ==> spec_safe_char(#[trigger] r@[i]),
        spec_core_usable(raw@) ==> r@ == spec_sanitize_core(raw@),
{
    let n = raw.unicode_len();
    // find the position just after the last separator
    let mut lo: usize = n;
    while lo > 0 && !(raw.get_char(lo - 1) == '/' || raw.get_char(lo - 1) == '\\')
        invariant
            n == raw@.len(),
            lo <= n,
            forall|j: int| lo <= j < n ==> !spec_is_sep(#[trigger] raw@[j]),
        decreases lo,
    {
        lo = lo - 1;
    }
    let base = raw.substring_char(lo, n);
    proof {
        lemma_base_name_suffix(raw@, lo as int);
    }
    let cleaned = filter_safe(base);
    let empty = cleaned.as_str().unicode_len() == 0;
    let dot = str_eq(cleaned.as_str(), ".");
    let dotdot = str_eq(cleaned.as_str(), "..");
    if empty || dot || dotdot {
        // nothing usable: mint an opaque name
        let fresh = random_uuid36();
        let r = fresh.concat(".bin");
        proof {
            reveal_strlit(".bin");
            reveal_strlit(".");
            reveal_strlit("..");
            assert(r@.len() == 40);
            assert(forall|i: int| 0 <= i < 36 ==> spec_safe_char(#[trigger] r@[i]));
            assert(forall|i: int| 36 <= i < 40 ==> spec_safe_char(#[trigger] r@[i]));
            assert(r@ != "."@ && r@ != ".."@);
        }
        r
    } else {
        proof {
            reveal_strlit(".");
            reveal_strlit("..");
        }
        cleaned
    }
}

/// The name a stored file is written under: a freshly minted 36-character
/// opaque identifier, an underscore, then the sanitized filename.  The salt
/// prevents collisions between uploads sharing a name.
pub fn storage_filename(sanitized: &str) -> (r: String)
    requires
        sanitized@.len() > 0,
    ensures
        r@.len() == 37 + sanitized@.len(),
        r@.subrange(37, r@.len() as int) == sanitized@,
        r@[36] == '_',
        forall|i: int| 0 <= i < 36 ==> !spec_is_sep(#[trigger] r@[i]),
{
    let fresh = random_uuid36();
    let salted = fresh.concat("_");
    let r = salted.concat(sanitized);
    proof {
        reveal_strlit("_");
        assert(r@.subrange(37, r@.len() as int) =~= sanitized@);
        assert(forall|i: int| 0 <= i < 36 ==> spec_is_lower_hex(#[trigger] r@[i]) || r@[i] == '-');
    }
    r
}

} // verus!
