//! Outgoing webhook dispatch decisions: template substitution on the body,
//! the request to send, and the retry rule.  The HTTP call itself is the
//! shell's job; everything it sends is decided and proved here.

use vstd::prelude::*;
use crate::models::MessageResponse;
use crate::strutil::{clone_string, push_char, str_eq};

verus! {

// ---------------------------------------------------------------------------
// Decimal rendering
// ---------------------------------------------------------------------------

/// The decimal digits of a non-negative number, most significant first.
pub open spec fn spec_decimal_digits(v: int) -> Seq<char>
    decreases v,
{
    if v < 0 {
        Seq::empty()
    } else if v < 10 {
        seq![((v + '0' as int) as u8) as char]
    } else {
        spec_decimal_digits(v / 10).push((((v % 10) + '0' as int) as u8) as char)
    }
}

/// The decimal text of an integer.
pub open spec fn spec_i64_text(v: int) -> Seq<char> {
    if v < 0 {
        seq!['-'] + spec_decimal_digits(-v)
    } else {
        spec_decimal_digits(v)
    }
}

fn u64_to_string(v: u64) -> (r: String)
    ensures
        r@ == spec_decimal_digits(v as int),
    decreases v,
{
    if v < 10 {
        let mut s = String::new();
        push_char(&mut s, ((v as u8) + 48) as char);
        proof {
            assert(s@ =~= spec_decimal_digits(v as int));
        }
        s
    } else {
        let mut s = u64_to_string(v / 10);
        push_char(&mut s, (((v % 10) as u8) + 48) as char);
        s
    }
}

/// Render an integer in decimal.
pub fn i64_to_string(v: i64) -> (r: String)
    ensures
        r@ == spec_i64_text(v as int),
{
    if v < 0 {
        // widen through u64 so that the least value negates safely
        let magnitude: u64 = ((-(v + 1)) as u64) + 1;
        let mut s = String::from_str("-");
        let digits = u64_to_string(magnitude);
        let r = s.concat(digits.as_str());
        proof {
            reveal_strlit("-");
            assert(r@ =~= spec_i64_text(v as int));
        }
        r
    } else {
        u64_to_string(v as u64)
    }
}

// ---------------------------------------------------------------------------
// Substring search and replacement
// ---------------------------------------------------------------------------

/// Whether the pattern occurs in `s` at position `j`.
pub open spec fn spec_occurs_at(s: Seq<char>, pat: Seq<char>, j: int) -> bool {
    &&& 0 <= j
    &&& j + pat.len() <= s.len()
    &&& s.subrange(j, j + pat.len() as int) == pat
}

/// The position of the pattern's first occurrence, or the text's length
/// when it never occurs.
pub open spec fn spec_find_sub(s: Seq<char>, pat: Seq<char>) -> int
    decreases s.len(),
{
    if pat.len() == 0 || s.len() < pat.len() {
        s.len() as int
    } else if pat.is_prefix_of(s) {
        0
    } else {
        1 + spec_find_sub(s.drop_first(), pat)
    }
}

proof fn lemma_find_sub_at(s: Seq<char>, pat: Seq<char>, i: int)
    requires
        pat.len() > 0,
        0 <= i <= s.len(),
        forall|j: int| 0 <= j < i ==> !spec_occurs_at(s, pat, j),
        i < s.len() ==> spec_occurs_at(s, pat, i),
        i == s.len() ==> forall|j: int| 0 <= j <= s.len() ==> !spec_occurs_at(s, pat, j),
    ensures
        i < s.len() ==> spec_find_sub(s, pat) == i,
        i == s.len() ==> spec_find_sub(s, pat) == s.len(),
    decreases s.len(),
{
    if pat.len() == 0 || s.len() < pat.len() {
        // nothing occurs, and the spec answers the length
        if i < s.len() {
            assert(spec_occurs_at(s, pat, i));
            assert(false);
        }
    } else if pat.is_prefix_of(s) {
        assert(s.subrange(0, pat.len() as int) == pat);
        assert(spec_occurs_at(s, pat, 0));
        assert(i == 0 || !spec_occurs_at(s, pat, 0));
    } else {
        let t = s.drop_first();
        assert(!spec_occurs_at(s, pat, 0)) by {
            if spec_occurs_at(s, pat, 0) {
                assert(s.subrange(0, pat.len() as int) =~= pat);
                assert(pat.is_prefix_of(s));
            }
        }
        assert forall|j: int| 0 <= j <= t.len() implies (spec_occurs_at(t, pat, j)
            <==> spec_occurs_at(s, pat, j + 1)) by {
            if j + pat.len() <= t.len() {
                assert(t.subrange(j, j + pat.len() as int) =~= s.subrange(
                    j + 1,
                    j + 1 + pat.len() as int,
                ));
            }
        }
        if i == 0 {
            assert(spec_occurs_at(s, pat, 0));
            assert(false);
        } else {
            lemma_find_sub_at(t, pat, i - 1);
        }
    }
}

/// What replacing every occurrence of `pat` with `rep`, left to right and
/// without overlap, yields.
pub open spec fn spec_replace(s: Seq<char>, pat: Seq<char>, rep: Seq<char>) -> Seq<char>
    decreases s.len(),
{
    if pat.len() == 0 || s.len() < pat.len() {
        s
    } else {
        let i = spec_find_sub(s, pat);
        if 0 <= i && i + pat.len() <= s.len() {
            s.subrange(0, i) + rep + spec_replace(
                s.subrange(i + pat.len() as int, s.len() as int),
                pat,
                rep,
            )
        } else {
            s
        }
    }
}

fn occurs_at(s: &str, pat: &str, j: usize) -> (r: bool)
    requires
        j + pat@.len() <= s@.len(),
        s@.len() <= usize::MAX,
    ensures
        r == spec_occurs_at(s@, pat@, j as int),
{
    let m = pat.unicode_len();
    let mut k: usize = 0;
    while k < m
        invariant
            m == pat@.len(),
            j + m <= s@.len(),
            s@.len() <= usize::MAX,
            k <= m,
            forall|x: int| 0 <= x < k ==> s@[j + x] == pat@[x],
        decreases m - k,
    {
        if s.get_char(j + k) != pat.get_char(k) {
            proof {
                if spec_occurs_at(s@, pat@, j as int) {
                    assert(s@.subrange(j as int, j + m as int)[k as int] == pat@[k as int]);
                }
            }
            return false;
        }
        k = k + 1;
    }
    proof {
        assert(s@.subrange(j as int, j + m as int) =~= pat@);
    }
    true
}

/// Replace every occurrence of `pat` with `rep`, left to right.
pub fn replace_all(s: &str, pat: &str, rep: &str) -> (r: String)
    requires
        pat@.len() > 0,
    ensures
        r@ == spec_replace(s@, pat@, rep@),
    decreases s@.len(),
{
    let n = s.unicode_len();
    let m = pat.unicode_len();
    if n < m {
        return String::from_str(s);
    }
    let mut i: usize = 0;
    while i <= n - m
        invariant
            n == s@.len(),
            m == pat@.len(),
            m >= 1,
            m <= n,
            i <= n - m + 1,
            forall|j: int| 0 <= j < i ==> !spec_occurs_at(s@, pat@, j),
        decreases n - i,
    {
        if occurs_at(s, pat, i) {
            proof {
                lemma_find_sub_at(s@, pat@, i as int);
            }
            let head = s.substring_char(0, i);
            let tail = s.substring_char(i + m, n);
            let rest = replace_all(tail, pat, rep);
            let mut out = String::from_str(head);
            out.append(rep);
            let r = out.concat(rest.as_str());
            proof {
                assert(head@ =~= s@.subrange(0, i as int));
                assert(tail@ =~= s@.subrange(i + m, n as int));
                assert(r@ =~= spec_replace(s@, pat@, rep@));
            }
            return r;
        }
        i = i + 1;
    }
    proof {
        assert forall|j: int| 0 <= j <= s@.len() implies !spec_occurs_at(s@, pat@, j) by {
            if j + pat@.len() > s@.len() {
            } else {
                assert(j < i);
            }
        }
        lemma_find_sub_at(s@, pat@, s@.len() as int);
        assert(spec_find_sub(s@, pat@) + pat@.len() > s@.len());
    }
    String::from_str(s)
}

// ---------------------------------------------------------------------------
// Template rendering
// ---------------------------------------------------------------------------

/// What a body template renders to: each placeholder replaced in turn by
/// the message text, the title, the topic, the priority in decimal, and
/// the whole view's JSON text.
pub open spec fn spec_render(
    tmpl: Seq<char>,
    message: Seq<char>,
    title: Seq<char>,
    topic: Seq<char>,
    priority: int,
    json: Seq<char>,
) -> Seq<char> {
    spec_replace(
        spec_replace(
            spec_replace(
                spec_replace(
                    spec_replace(tmpl, "{{message}}"@, message),
                    "{{title}}"@,
                    title,
                ),
                "{{topic}}"@,
                topic,
            ),
            "{{priority}}"@,
            spec_i64_text(priority),
        ),
        "{{json}}"@,
        json,
    )
}

/// Render a body template against a message view.  Absent title and topic
/// render as empty text.
pub fn render_body_template(
    tmpl: &str,
    message: &str,
    title: Option<&str>,
    topic: Option<&str>,
    priority: i32,
    json: &str,
) -> (r: String)
    ensures
        r@ == spec_render(
            tmpl@,
            message@,
            match title {
                Option::Some(t) => t@,
                Option::None => Seq::empty(),
            },
            match topic {
                Option::Some(t) => t@,
                Option::None => Seq::empty(),
            },
            priority as int,
            json@,
        ),
{
    proof {
        reveal_strlit("{{message}}");
        reveal_strlit("{{title}}");
        reveal_strlit("{{topic}}");
        reveal_strlit("{{priority}}");
        reveal_strlit("{{json}}");
        reveal_strlit("");
        assert(""@ =~= Seq::<char>::empty());
    }
    let title_text = match title {
        Some(t) => t,
        None => "",
    };
    let topic_text = match topic {
        Some(t) => t,
        None => "",
    };
    let step1 = replace_all(tmpl, "{{message}}", message);
    let step2 = replace_all(step1.as_str(), "{{title}}", title_text);
    let step3 = replace_all(step2.as_str(), "{{topic}}", topic_text);
    let ptext = i64_to_string(priority as i64);
    let step4 = replace_all(step3.as_str(), "{{priority}}", ptext.as_str());
    replace_all(step4.as_str(), "{{json}}", json)
}

// ---------------------------------------------------------------------------
// The request to send
// ---------------------------------------------------------------------------

/// The HTTP method an outgoing webhook uses.
#[derive(Clone, Copy, Debug, PartialEq, Eq, Structural)]
pub enum OutgoingMethod {
    Get,
    Post,
    Put,
    Patch,
}

/// The method a configured method string selects: `GET`, `PUT` and `PATCH`
/// literally, anything else `POST`.
pub open spec fn spec_method_of(m: Seq<char>) -> OutgoingMethod {
    if m == "GET"@ {
        OutgoingMethod::Get
    } else if m == "PUT"@ {
        OutgoingMethod::Put
    } else if m == "PATCH"@ {
        OutgoingMethod::Patch
    } else {
        OutgoingMethod::Post
    }
}

/// One webhook call, fully decided: where, how, and with which body.  A
/// request with a body also carries the JSON content type.
pub struct WebhookRequestPlan {
    pub url: String,
    pub method: OutgoingMethod,
    pub body: Option<String>,
    pub json_content_type: bool,
}

/// Decide the request for one outgoing webhook configuration and one
/// published message view.  A configuration without a target is skipped.
/// The body is the rendered template when one is configured, else the
/// view's JSON text; a `GET` sends no body and no content type.
pub fn plan_outgoing_request(
    target_url: &Option<String>,
    http_method: &str,
    body_template: &Option<String>,
    view: &MessageResponse,
    json: &str,
) -> (r: Option<WebhookRequestPlan>)
    ensures
        r is Some <==> target_url is Some,
        r matches Some(plan) ==> {
            &&& target_url matches Option::Some(u) && plan.url@ == u@
            &&& plan.method == spec_method_of(http_method@)
            &&& (plan.method == OutgoingMethod::Get ==> plan.body is None
                && !plan.json_content_type)
            &&& (plan.method != OutgoingMethod::Get ==> plan.json_content_type && (
            plan.body matches Option::Some(b) && b@ == (match body_template {
                Option::Some(t) => spec_render(
                    t@,
                    view.message@,
                    match view.title {
                        Option::Some(x) => x@,
                        Option::None => Seq::empty(),
                    },
                    match view.topic {
                        Option::Some(x) => x@,
                        Option::None => Seq::empty(),
                    },
                    view.priority as int,
                    json@,
                ),
                Option::None => json@,
            })))
        },
{
    let url = match target_url {
        Some(u) => clone_string(u),
        None => {
            return None;
        },
    };
    let method = if str_eq(http_method, "GET") {
        OutgoingMethod::Get
    } else if str_eq(http_method, "PUT") {
        OutgoingMethod::Put
    } else if str_eq(http_method, "PATCH") {
        OutgoingMethod::Patch
    } else {
        OutgoingMethod::Post
    };
    if let OutgoingMethod::Get = method {
        return Some(
            WebhookRequestPlan { url, method: OutgoingMethod::Get, body: None, json_content_type: false },
        );
    }
    let body = match body_template {
        Some(t) => render_body_template(
            t.as_str(),
            view.message.as_str(),
            match &view.title {
                Some(x) => Some(x.as_str()),
                None => None,
            },
            match &view.topic {
                Some(x) => Some(x.as_str()),
                None => None,
            },
            view.priority,
            json,
        ),
        None => String::from_str(json),
    };
    Some(WebhookRequestPlan { url, method, body: Some(body), json_content_type: true })
}

/// The retry rule: after a failed attempt numbered from zero, try again
/// exactly while attempts remain.
pub fn should_retry(attempt: i32, max_retries: i32) -> (r: bool)
    ensures
        r == (attempt < max_retries),
{
    attempt < max_retries
}

/// The subject of a notification mail: the message title, or a fallback
/// naming the topic.
pub fn notification_subject(title: &Option<String>, topic_name: &str) -> (r: String)
    ensures
        (title matches Option::Some(t) ==> r@ == t@),
        title is None ==> r@ == "Notification from "@ + topic_name@,
{
    match title {
        Some(t) => clone_string(t),
        None => {
            let mut s = String::from_str("Notification from ");
            s.append(topic_name);
            s
        },
    }
}

} // verus!
