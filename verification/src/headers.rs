//! Metadata-carrying publish headers.
//!
//! The catch-all publish route takes the message body as raw text and its
//! metadata from HTTP headers, each looked up case-insensitively under an
//! `X-`-prefixed and a plain name: title, priority, tags, click and icon
//! URLs, actions, filename, markdown flag, email, cache duration, and the
//! scheduling headers `Delay`/`At`/`In` holding a relative duration or an
//! absolute timestamp.

use vstd::prelude::*;
use crate::strutil::{
    clone_string, spec_lower, spec_parse_i32, spec_split, spec_trim, split_char, str_eq, to_lower,
    trim, parse_i32,
};
use crate::timeutil::{
    human_duration_secs, parse_human_duration_secs, parse_rfc3339_epoch, parse_sql_datetime_epoch,
    epoch_to_sql_datetime, rfc3339_epoch, spec_epoch_in_text_range, sql_datetime_epoch,
    sql_datetime_text, MAX_TEXT_EPOCH,
};

verus! {

/// Parsed metadata from publish headers.
pub struct NtfyHeaders {
    pub title: Option<String>,
    pub priority: Option<i32>,
    pub tags: Option<Vec<String>>,
    pub click_url: Option<String>,
    pub icon_url: Option<String>,
    pub actions: Option<String>,
    pub filename: Option<String>,
    pub scheduled_for: Option<String>,
    pub content_type: Option<String>,
    pub email: Option<String>,
    pub cache_duration: Option<String>,
}

pub open spec fn opt_view(o: Option<String>) -> Option<Seq<char>> {
    match o {
        Option::None => Option::None,
        Option::Some(s) => Option::Some(s@),
    }
}

pub open spec fn opt_tags_view(o: Option<Vec<String>>) -> Option<Seq<Seq<char>>> {
    match o {
        Option::None => Option::None,
        Option::Some(v) => Option::Some(v@.map_values(|s: String| s@)),
    }
}

/// The view of a header list: name and value character sequences.
pub open spec fn hdr_views(v: Seq<(String, String)>) -> Seq<(Seq<char>, Seq<char>)> {
    v.map_values(|p: (String, String)| (p.0@, p.1@))
}

// ---------------------------------------------------------------------------
// Case-insensitive lookup
// ---------------------------------------------------------------------------

/// The value of the first header whose lowercased name equals `name`.
pub open spec fn spec_lookup(hs: Seq<(Seq<char>, Seq<char>)>, name: Seq<char>) -> Option<
    Seq<char>,
>
    decreases hs.len(),
{
    if hs.len() == 0 {
        Option::None
    } else if spec_lower(hs[0].0) == name {
        Option::Some(hs[0].1)
    } else {
        spec_lookup(hs.drop_first(), name)
    }
}

/// A header value after lookup and cleaning: trimmed, empty treated as
/// absent.
pub open spec fn spec_get_header(hs: Seq<(Seq<char>, Seq<char>)>, name: Seq<char>) -> Option<
    Seq<char>,
> {
    match spec_lookup(hs, name) {
        Option::None => Option::None,
        Option::Some(v) => {
            if spec_trim(v).len() == 0 {
                Option::None
            } else {
                Option::Some(spec_trim(v))
            }
        },
    }
}

/// The first present header among the `X-`-prefixed and the plain name.
pub open spec fn spec_get2(
    hs: Seq<(Seq<char>, Seq<char>)>,
    xname: Seq<char>,
    name: Seq<char>,
) -> Option<Seq<char>> {
    match spec_get_header(hs, xname) {
        Option::Some(v) => Option::Some(v),
        Option::None => spec_get_header(hs, name),
    }
}

/// Look a header up by its lowercase name, case-insensitively; trim the
/// value and treat an empty one as absent.
pub fn get_header(headers: &Vec<(String, String)>, name: &str) -> (r: Option<String>)
    ensures
        opt_view(r) == spec_get_header(hdr_views(headers@), name@),
{
    let ghost hv = hdr_views(headers@);
    let n = headers.len();
    proof {
        assert(hv.subrange(0, n as int) =~= hv);
    }
    let mut i: usize = 0;
    while i < n
        invariant
            n == headers@.len(),
            n == hv.len(),
            i <= n,
            hv == hdr_views(headers@),
            spec_lookup(hv, name@) == spec_lookup(hv.subrange(i as int, n as int), name@),
        decreases n - i,
    {
        proof {
            assert(hv[i as int] == (headers@[i as int].0@, headers@[i as int].1@));
            assert(hv.subrange(i as int, n as int)[0] == hv[i as int]);
        }
        let low = to_lower(headers[i].0.as_str());
        if str_eq(low.as_str(), name) {
            proof {
                assert(spec_lower(hv[i as int].0) == name@);
                assert(spec_lookup(hv.subrange(i as int, n as int), name@) == Option::Some(
                    hv[i as int].1,
                ));
            }
            let t = trim(headers[i].1.as_str());
            if t.as_str().unicode_len() == 0 {
                return None;
            }
            return Some(t);
        }
        i = i + 1;
        proof {
            assert(hv.subrange(i - 1, n as int).drop_first() =~= hv.subrange(i as int, n as int));
        }
    }
    proof {
        assert(hv.subrange(i as int, n as int).len() == 0);
    }
    None
}

/// Look a header up under its `X-`-prefixed name first, then plain.
pub fn get_header2(headers: &Vec<(String, String)>, xname: &str, name: &str) -> (r: Option<
    String,
>)
    ensures
        opt_view(r) == spec_get2(hdr_views(headers@), xname@, name@),
{
    match get_header(headers, xname) {
        Some(v) => Some(v),
        None => get_header(headers, name),
    }
}

// ---------------------------------------------------------------------------
// Priority
// ---------------------------------------------------------------------------

/// Priority of a header value: the named levels map to 1 through 5, a
/// decimal integer counts only within 1 through 5, and everything else
/// defaults to 3.
pub open spec fn spec_parse_priority(s: Seq<char>) -> int {
    let l = spec_lower(s);
    if l == "min"@ || l == "1"@ {
        1
    } else if l == "low"@ || l == "2"@ {
        2
    } else if l == "default"@ || l == "3"@ {
        3
    } else if l == "high"@ || l == "4"@ {
        4
    } else if l == "max"@ || l == "urgent"@ || l == "5"@ {
        5
    } else {
        match spec_parse_i32(s) {
            Option::Some(v) => if 1 <= v <= 5 {
                v as int
            } else {
                3
            },
            Option::None => 3,
        }
    }
}

/// Parse a priority header value.
pub fn parse_priority(s: &str) -> (r: i32)
    ensures
        r as int == spec_parse_priority(s@),
{
    let l = to_lower(s);
    let ls = l.as_str();
    if str_eq(ls, "min") || str_eq(ls, "1") {
        1
    } else if str_eq(ls, "low") || str_eq(ls, "2") {
        2
    } else if str_eq(ls, "default") || str_eq(ls, "3") {
        3
    } else if str_eq(ls, "high") || str_eq(ls, "4") {
        4
    } else if str_eq(ls, "max") || str_eq(ls, "urgent") || str_eq(ls, "5") {
        5
    } else {
        match parse_i32(s) {
            Some(v) => if 1 <= v && v <= 5 {
                v
            } else {
                3
            },
            None => 3,
        }
    }
}

// ---------------------------------------------------------------------------
// Tags
// ---------------------------------------------------------------------------

/// Tags of a header value: split on commas, trimmed, empties dropped.
pub open spec fn spec_parse_tags(s: Seq<char>) -> Seq<Seq<char>> {
    spec_split(s, ',').map_values(|t: Seq<char>| spec_trim(t)).filter(
        |t: Seq<char>| t.len() > 0,
    )
}

/// Parse a tags header value.
pub fn parse_tags(s: &str) -> (r: Vec<String>)
    ensures
        r@.map_values(|t: String| t@) == spec_parse_tags(s@),
{
    let parts = split_char(s, ',');
    let ghost segs = spec_split(s@, ',');
    let mut out: Vec<String> = Vec::new();
    let n = parts.len();
    proof {
        reveal(Seq::filter);
        assert(segs.subrange(0, 0).map_values(|t: Seq<char>| spec_trim(t)) =~= Seq::<
            Seq<char>,
        >::empty());
    }
    let mut i: usize = 0;
    while i < n
        invariant
            n == parts@.len(),
            n == segs.len(),
            i <= n,
            forall|j: int| 0 <= j < n ==> (#[trigger] parts@[j])@ == segs[j],
            out@.map_values(|t: String| t@) == segs.subrange(0, i as int).map_values(
                |t: Seq<char>| spec_trim(t),
            ).filter(|t: Seq<char>| t.len() > 0),
        decreases n - i,
    {
        let ghost pre = segs.subrange(0, i as int).map_values(|t: Seq<char>| spec_trim(t));
        let t = trim(parts[i].as_str());
        if t.as_str().unicode_len() > 0 {
            out.push(t);
        }
        i = i + 1;
        proof {
            reveal(Seq::filter);
            let cur = segs.subrange(0, i as int).map_values(|t: Seq<char>| spec_trim(t));
            assert(cur.drop_last() =~= pre);
            assert(cur.last() == spec_trim(segs[i - 1]));
            assert(out@.map_values(|t: String| t@) =~= cur.filter(|t: Seq<char>| t.len() > 0));
        }
    }
    proof {
        assert(segs.subrange(0, n as int) =~= segs);
    }
    out
}

// ---------------------------------------------------------------------------
// Scheduling
// ---------------------------------------------------------------------------

/// What a parsed schedule is.  A relative duration is added to `now`; an
/// absolute RFC 3339 or `YYYY-MM-DD HH:MM:SS` timestamp is taken as is;
/// all are normalized to UTC store text.  `None` is owed exactly when no
/// reading parses or the resulting moment falls outside the span the
/// store's timestamp text covers.
pub open spec fn spec_schedule_post(s: Seq<char>, now: int, out: Option<Seq<char>>) -> bool {
    &&& (out matches Option::Some(x) ==> {
        ||| (human_duration_secs(s) matches Option::Some(d) && x == sql_datetime_text(now + d))
        ||| (human_duration_secs(s) is None && (rfc3339_epoch(s) matches Option::Some(t) && x
            == sql_datetime_text(t)))
        ||| (human_duration_secs(s) is None && rfc3339_epoch(s) is None && (sql_datetime_epoch(s)
            matches Option::Some(t) && x == sql_datetime_text(t)))
    })
    &&& (match human_duration_secs(s) {
        Option::Some(d) => spec_epoch_in_text_range(now + d) ==> (out matches Option::Some(x)
            && x == sql_datetime_text(now + d)),
        Option::None => true,
    })
    &&& (human_duration_secs(s) is None ==> match rfc3339_epoch(s) {
        Option::Some(t) => spec_epoch_in_text_range(t) ==> (out matches Option::Some(x) && x
            == sql_datetime_text(t)),
        Option::None => true,
    })
    &&& (human_duration_secs(s) is None && rfc3339_epoch(s) is None ==> match sql_datetime_epoch(
        s,
    ) {
        Option::Some(t) => spec_epoch_in_text_range(t) ==> (out matches Option::Some(x) && x
            == sql_datetime_text(t)),
        Option::None => true,
    })
    &&& (human_duration_secs(s) is None && rfc3339_epoch(s) is None && sql_datetime_epoch(s)
        is None ==> out is None)
}

/// Parse a scheduling header value against the current moment.
pub fn parse_schedule(s: &str, now_epoch: i64) -> (r: Option<String>)
    ensures
        spec_schedule_post(s@, now_epoch as int, opt_view(r)),
{
    if let Some(d) = parse_human_duration_secs(s) {
        let when_wide: i128 = (now_epoch as i128) + (d as i128);
        if 0 <= when_wide && when_wide <= MAX_TEXT_EPOCH as i128 {
            let when = when_wide as i64;
            let r = epoch_to_sql_datetime(when);
            proof {
                assert(r is Some);
            }
            return r;
        }
        return None;
    }
    if let Some(t) = parse_rfc3339_epoch(s) {
        if 0 <= t && t <= MAX_TEXT_EPOCH {
            let r = epoch_to_sql_datetime(t);
            proof {
                assert(r is Some);
            }
            return r;
        }
        return None;
    }
    if let Some(t) = parse_sql_datetime_epoch(s) {
        if 0 <= t && t <= MAX_TEXT_EPOCH {
            let r = epoch_to_sql_datetime(t);
            proof {
                assert(r is Some);
            }
            return r;
        }
        return None;
    }
    None
}

// ---------------------------------------------------------------------------
// The whole header set
// ---------------------------------------------------------------------------

/// Whether a markdown flag value turns the content type into markdown.
pub open spec fn spec_markdown_on(v: Seq<char>) -> bool {
    v == "yes"@ || v == "true"@ || v == "1"@
}

impl NtfyHeaders {
    /// Parse every metadata header from a header list.  `now_epoch` anchors
    /// relative scheduling values.
    pub fn from_headers(headers: &Vec<(String, String)>, now_epoch: i64) -> (r: NtfyHeaders)
        ensures
            opt_view(r.title) == spec_get2(hdr_views(headers@), "x-title"@, "title"@),
            r.priority is Some <==> spec_get2(hdr_views(headers@), "x-priority"@, "priority"@)
                is Some,
            r.priority matches Some(p) ==> spec_get2(hdr_views(headers@), "x-priority"@,
                "priority"@) matches Option::Some(v) && p as int == spec_parse_priority(v),
            r.tags is Some <==> spec_get2(hdr_views(headers@), "x-tags"@, "tags"@) is Some,
            r.tags matches Some(ts) ==> spec_get2(hdr_views(headers@), "x-tags"@, "tags"@)
                matches Option::Some(v) && ts@.map_values(|t: String| t@) == spec_parse_tags(v),
            opt_view(r.click_url) == spec_get2(hdr_views(headers@), "x-click"@, "click"@),
            opt_view(r.icon_url) == spec_get2(hdr_views(headers@), "x-icon"@, "icon"@),
            opt_view(r.actions) == spec_get2(hdr_views(headers@), "x-actions"@, "actions"@),
            opt_view(r.filename) == spec_get2(hdr_views(headers@), "x-filename"@, "filename"@),
            spec_schedule_input(hdr_views(headers@)) is None ==> r.scheduled_for is None,
            spec_schedule_input(hdr_views(headers@)) matches Option::Some(v)
                ==> spec_schedule_post(v, now_epoch as int, opt_view(r.scheduled_for)),
            r.content_type is Some <==> (spec_get2(hdr_views(headers@), "x-markdown"@,
                "markdown"@) matches Option::Some(v) && spec_markdown_on(v)),
            r.content_type matches Some(ct) ==> ct@ == "text/markdown"@,
            opt_view(r.email) == spec_get2(hdr_views(headers@), "x-email"@, "email"@),
            opt_view(r.cache_duration) == spec_get2(hdr_views(headers@), "x-cache"@, "cache"@),
    {
        let title = get_header2(headers, "x-title", "title");
        let priority = match get_header2(headers, "x-priority", "priority") {
            Some(v) => Some(parse_priority(v.as_str())),
            None => None,
        };
        let tags = match get_header2(headers, "x-tags", "tags") {
            Some(v) => Some(parse_tags(v.as_str())),
            None => None,
        };
        let click_url = get_header2(headers, "x-click", "click");
        let icon_url = get_header2(headers, "x-icon", "icon");
        let actions = get_header2(headers, "x-actions", "actions");
        let filename = get_header2(headers, "x-filename", "filename");
        let scheduled_for = match schedule_input(headers) {
            Some(v) => parse_schedule(v.as_str(), now_epoch),
            None => None,
        };
        let content_type = match get_header2(headers, "x-markdown", "markdown") {
            Some(v) => {
                if str_eq(v.as_str(), "yes") || str_eq(v.as_str(), "true") || str_eq(
                    v.as_str(),
                    "1",
                ) {
                    Some(String::from_str("text/markdown"))
                } else {
                    None
                }
            },
            None => None,
        };
        let email = get_header2(headers, "x-email", "email");
        let cache_duration = get_header2(headers, "x-cache", "cache");
        NtfyHeaders {
            title,
            priority,
            tags,
            click_url,
            icon_url,
            actions,
            filename,
            scheduled_for,
            content_type,
            email,
            cache_duration,
        }
    }
}

/// The scheduling value, taken from the first present of the six
/// scheduling header names.
pub open spec fn spec_schedule_input(hs: Seq<(Seq<char>, Seq<char>)>) -> Option<Seq<char>> {
    match spec_get2(hs, "x-delay"@, "delay"@) {
        Option::Some(v) => Option::Some(v),
        Option::None => match spec_get2(hs, "x-at"@, "at"@) {
            Option::Some(v) => Option::Some(v),
            Option::None => spec_get2(hs, "x-in"@, "in"@),
        },
    }
}

fn schedule_input(headers: &Vec<(String, String)>) -> (r: Option<String>)
    ensures
        opt_view(r) == spec_schedule_input(hdr_views(headers@)),
{
    match get_header2(headers, "x-delay", "delay") {
        Some(v) => Some(v),
        None => match get_header2(headers, "x-at", "at") {
            Some(v) => Some(v),
            None => get_header2(headers, "x-in", "in"),
        },
    }
}

} // verus!
