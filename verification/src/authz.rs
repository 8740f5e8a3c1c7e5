//! Authorization decisions: bearer-token extraction, topic read and write
//! permission, ownership and admin checks.

use vstd::prelude::*;
use crate::acl::{spec_topic_matches, topic_matches};
use crate::error::CoreError;
use crate::models::{Topic, TopicPermission};
use crate::strutil::{split_char, spec_split, str_starts_with};

verus! {

// ---------------------------------------------------------------------------
// Token extraction
// ---------------------------------------------------------------------------

/// The token carried by the first query parameter of the form `token=...`.
pub open spec fn spec_first_query_token(params: Seq<Seq<char>>) -> Option<Seq<char>>
    decreases params.len(),
{
    if params.len() == 0 {
        Option::None
    } else if "token="@.is_prefix_of(params[0]) {
        Option::Some(params[0].skip(6))
    } else {
        spec_first_query_token(params.drop_first())
    }
}

/// Where a request's token comes from, in order: `Authorization: Bearer`,
/// the alternative key header, then a `token=` query parameter.
pub open spec fn spec_extract_token(
    auth: Option<Seq<char>>,
    alt: Option<Seq<char>>,
    query: Option<Seq<char>>,
) -> Option<Seq<char>> {
    if auth matches Option::Some(a) && "Bearer "@.is_prefix_of(a) {
        Option::Some(auth->0.skip(7))
    } else if alt is Some {
        alt
    } else if query matches Option::Some(q) {
        spec_first_query_token(spec_split(query->0, '&'))
    } else {
        Option::None
    }
}

/// Pick the bearer token out of the `Authorization` header, the alternative
/// key header, or the query string, in that order.
pub fn extract_token(
    auth_header: Option<&str>,
    alt_header: Option<&str>,
    query: Option<&str>,
) -> (r: Option<String>)
    ensures
        crate::headers::opt_view(r) == spec_extract_token(
            match auth_header {
                Option::None => Option::None,
                Option::Some(a) => Option::Some(a@),
            },
            match alt_header {
                Option::None => Option::None,
                Option::Some(a) => Option::Some(a@),
            },
            match query {
                Option::None => Option::None,
                Option::Some(q) => Option::Some(q@),
            },
        ),
{
    if let Some(a) = auth_header {
        if str_starts_with(a, "Bearer ") {
            proof {
                reveal_strlit("Bearer ");
            }
            let n = a.unicode_len();
            let tok = a.substring_char(7, n);
            proof {
                assert(tok@ =~= a@.skip(7));
            }
            return Some(String::from_str(tok));
        }
    }
    if let Some(k) = alt_header {
        return Some(String::from_str(k));
    }
    if let Some(q) = query {
        let params = split_char(q, '&');
        let ghost pv = params@.map_values(|s: String| s@);
        proof {
            assert(pv == spec_split(q@, '&'));
            assert(pv.subrange(0, pv.len() as int) =~= pv);
        }
        let n = params.len();
        let mut i: usize = 0;
        while i < n
            invariant
                n == params@.len(),
                n == pv.len(),
                pv == params@.map_values(|s: String| s@),
                pv == spec_split(q@, '&'),
                i <= n,
                query == Option::Some(q),
                alt_header is None,
                (match auth_header {
                    Option::Some(a) => !"Bearer "@.is_prefix_of(a@),
                    Option::None => true,
                }),
                spec_first_query_token(pv) == spec_first_query_token(
                    pv.subrange(i as int, n as int),
                ),
            decreases n - i,
        {
            proof {
                assert(pv.subrange(i as int, n as int)[0] == pv[i as int]);
                assert(pv[i as int] == params@[i as int]@);
            }
            let p = &params[i];
            if str_starts_with(p.as_str(), "token=") {
                proof {
                    reveal_strlit("token=");
                    assert("token="@.is_prefix_of(pv[i as int]));
                    assert(spec_first_query_token(pv.subrange(i as int, n as int))
                        == Option::Some(pv[i as int].skip(6)));
                }
                let m = p.as_str().unicode_len();
                let tok = p.as_str().substring_char(6, m);
                proof {
                    assert(tok@ =~= p@.skip(6));
                }
                return Some(String::from_str(tok));
            }
            i = i + 1;
            proof {
                assert(pv.subrange(i - 1, n as int).drop_first() =~= pv.subrange(
                    i as int,
                    n as int,
                ));
            }
        }
        proof {
            assert(pv.subrange(i as int, n as int).len() == 0);
        }
        return None;
    }
    None
}

// ---------------------------------------------------------------------------
// Topic permissions
// ---------------------------------------------------------------------------

/// Whether some permission row grants read on the named topic.
pub open spec fn spec_perm_grants_read(perms: Seq<TopicPermission>, topic_name: Seq<char>) -> bool {
    exists|i: int|
        0 <= i < perms.len() && (#[trigger] perms[i]).can_read && spec_topic_matches(
            perms[i].topic_pattern@,
            topic_name,
        )
}

/// Whether some permission row grants write on the named topic.
pub open spec fn spec_perm_grants_write(perms: Seq<TopicPermission>, topic_name: Seq<char>) -> bool {
    exists|i: int|
        0 <= i < perms.len() && (#[trigger] perms[i]).can_write && spec_topic_matches(
            perms[i].topic_pattern@,
            topic_name,
        )
}

/// Whether the user may read the topic: admin, world-readable topic,
/// ownership, or a matching read permission.
pub open spec fn spec_can_read(
    user_id: i64,
    is_admin: bool,
    topic: Topic,
    perms: Seq<TopicPermission>,
) -> bool {
    ||| is_admin
    ||| topic.everyone_read
    ||| topic.owner_id == Option::Some(user_id)
    ||| spec_perm_grants_read(perms, topic.name@)
}

/// Whether the user may write the topic: admin, world-writable topic,
/// ownership, or a matching write permission.
pub open spec fn spec_can_write(
    user_id: i64,
    is_admin: bool,
    topic: Topic,
    perms: Seq<TopicPermission>,
) -> bool {
    ||| is_admin
    ||| topic.everyone_write
    ||| topic.owner_id == Option::Some(user_id)
    ||| spec_perm_grants_write(perms, topic.name@)
}

fn perm_grants(perms: &Vec<TopicPermission>, topic_name: &str, write: bool) -> (r: bool)
    ensures
        write ==> r == spec_perm_grants_write(perms@, topic_name@),
        !write ==> r == spec_perm_grants_read(perms@, topic_name@),
{
    let n = perms.len();
    let mut i: usize = 0;
    while i < n
        invariant
            n == perms@.len(),
            i <= n,
            forall|j: int|
                0 <= j < i ==> !((#[trigger] perms@[j]).can_read && !write && spec_topic_matches(
                    perms@[j].topic_pattern@,
                    topic_name@,
                )) && !(perms@[j].can_write && write && spec_topic_matches(
                    perms@[j].topic_pattern@,
                    topic_name@,
                )),
        decreases n - i,
    {
        let p = &perms[i];
        let flag = if write {
            p.can_write
        } else {
            p.can_read
        };
        if flag && topic_matches(p.topic_pattern.as_str(), topic_name) {
            return true;
        }
        i = i + 1;
    }
    false
}

/// Decide read access to a topic from the user's permission rows.
pub fn can_read_topic(
    user_id: i64,
    is_admin: bool,
    topic: &Topic,
    perms: &Vec<TopicPermission>,
) -> (r: bool)
    ensures
        r == spec_can_read(user_id, is_admin, *topic, perms@),
{
    if is_admin || topic.everyone_read {
        return true;
    }
    if let Some(owner) = topic.owner_id {
        if owner == user_id {
            return true;
        }
    }
    perm_grants(perms, topic.name.as_str(), false)
}

/// Decide write access to a topic from the user's permission rows.
pub fn can_write_topic(
    user_id: i64,
    is_admin: bool,
    topic: &Topic,
    perms: &Vec<TopicPermission>,
) -> (r: bool)
    ensures
        r == spec_can_write(user_id, is_admin, *topic, perms@),
{
    if is_admin || topic.everyone_write {
        return true;
    }
    if let Some(owner) = topic.owner_id {
        if owner == user_id {
            return true;
        }
    }
    perm_grants(perms, topic.name.as_str(), true)
}

/// Read access as the handlers use it: `Forbidden` when denied.
pub fn check_read_permission(
    user_id: i64,
    is_admin: bool,
    topic: &Topic,
    perms: &Vec<TopicPermission>,
) -> (r: Result<(), CoreError>)
    ensures
        r is Ok <==> spec_can_read(user_id, is_admin, *topic, perms@),
        r matches Err(e) ==> e matches CoreError::Forbidden(m) && m@
            == "No read permission for this topic"@,
{
    if can_read_topic(user_id, is_admin, topic, perms) {
        Ok(())
    } else {
        Err(CoreError::Forbidden(String::from_str("No read permission for this topic")))
    }
}

/// Write access as the handlers use it: `Forbidden` when denied.
pub fn check_write_permission(
    user_id: i64,
    is_admin: bool,
    topic: &Topic,
    perms: &Vec<TopicPermission>,
) -> (r: Result<(), CoreError>)
    ensures
        r is Ok <==> spec_can_write(user_id, is_admin, *topic, perms@),
        r matches Err(e) ==> e matches CoreError::Forbidden(m) && m@
            == "No write permission for this topic"@,
{
    if can_write_topic(user_id, is_admin, topic, perms) {
        Ok(())
    } else {
        Err(CoreError::Forbidden(String::from_str("No write permission for this topic")))
    }
}

// ---------------------------------------------------------------------------
// Ownership and admin
// ---------------------------------------------------------------------------

/// Whether a principal may mutate an entity: owner or admin.
pub open spec fn spec_owner_allowed(entity_user_id: i64, user_id: i64, is_admin: bool) -> bool {
    entity_user_id == user_id || is_admin
}

/// Decide entity mutation: the owner and any admin may; anyone else is
/// refused with `Forbidden` carrying the given message.
pub fn check_owner(entity_user_id: i64, user_id: i64, is_admin: bool, denial: &str) -> (r: Result<
    (),
    CoreError,
>)
    ensures
        r is Ok <==> spec_owner_allowed(entity_user_id, user_id, is_admin),
        r matches Err(e) ==> e matches CoreError::Forbidden(m) && m@ == denial@,
{
    if entity_user_id == user_id || is_admin {
        Ok(())
    } else {
        Err(CoreError::Forbidden(String::from_str(denial)))
    }
}

/// Decide an admin-only action: `Forbidden` for anyone else.
pub fn check_admin(is_admin: bool) -> (r: Result<(), CoreError>)
    ensures
        r is Ok <==> is_admin,
        r matches Err(e) ==> e matches CoreError::Forbidden(m) && m@ == "Admin access required"@,
{
    if is_admin {
        Ok(())
    } else {
        Err(CoreError::Forbidden(String::from_str("Admin access required")))
    }
}

/// The topics a user sees in a listing: admins see all; others see the
/// world-readable ones, their own, and those a permission row grants.
pub open spec fn spec_topic_visible(
    t: Topic,
    user_id: i64,
    is_admin: bool,
    perms: Seq<TopicPermission>,
) -> bool {
    is_admin || t.everyone_read || t.owner_id == Option::Some(user_id) || spec_perm_grants_read(
        perms,
        t.name@,
    )
}

/// Filter a topic listing down to what the user may see.
pub fn visible_topics(
    all: Vec<Topic>,
    user_id: i64,
    is_admin: bool,
    perms: &Vec<TopicPermission>,
) -> (r: Vec<Topic>)
    ensures
        r@ == all@.filter(
            |t: Topic| spec_topic_visible(t, user_id, is_admin, perms@),
        ),
{
    let ghost orig = all@;
    let ghost pred = |t: Topic| spec_topic_visible(t, user_id, is_admin, perms@);
    let mut rest = all;
    let mut out: Vec<Topic> = Vec::new();
    proof {
        reveal(Seq::filter);
        assert(orig.subrange(0, 0) =~= Seq::<Topic>::empty());
    }
    let mut i: usize = 0;
    let n = rest.len();
    while i < n
        invariant
            n == orig.len(),
            rest@ == orig.subrange(i as int, n as int),
            i <= n,
            out@ == orig.subrange(0, i as int).filter(pred),
            pred == (|t: Topic| spec_topic_visible(t, user_id, is_admin, perms@)),
        decreases n - i,
    {
        let t = rest.remove(0);
        proof {
            assert(t == orig[i as int]);
        }
        let keep = if is_admin || t.everyone_read {
            true
        } else {
            let owned = match t.owner_id {
                Some(o) => o == user_id,
                None => false,
            };
            if owned {
                true
            } else {
                perm_grants(perms, t.name.as_str(), false)
            }
        };
        proof {
            assert(keep == pred(t));
        }
        i = i + 1;
        if keep {
            out.push(t);
        }
        proof {
            reveal(Seq::filter);
            assert(orig.subrange(0, i as int).drop_last() =~= orig.subrange(0, i - 1));
            assert(orig.subrange(0, i as int).last() == orig[i - 1]);
            assert(rest@ =~= orig.subrange(i as int, n as int));
            assert(out@ =~= orig.subrange(0, i as int).filter(pred));
        }
    }
    proof {
        assert(orig.subrange(0, n as int) =~= orig);
    }
    out
}

} // verus!
