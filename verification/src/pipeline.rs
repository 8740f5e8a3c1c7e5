//! The message pipeline's decisions: validation of every publish form,
//! priority defaulting, login, user management, paging, statistics, and
//! the projection of inbound webhook payloads.  Every entry form converges
//! on one `NewMessage` handed to the store.

use vstd::prelude::*;
use vstd::utf8::encode_utf8;
use vstd::string::StringSliceAdditionalSpecFns;
use crate::error::CoreError;
use crate::headers::NtfyHeaders;
use crate::models::{
    Application, CreateAppMessage, CreateTopicMessage, CreateUser, ListParams, LoginResponse,
    MessageResponse, PagedMessages, Paging, StatsResponse, Topic, TopicPermission, User,
};
use crate::password::{hash_password, password_verifies, verify_password};
use crate::store::NewMessage;
use crate::strutil::{spec_trim, str_eq, trim};
use crate::timeutil::{
    epoch_to_sql_datetime, human_duration_secs, parse_human_duration_secs,
    spec_epoch_in_text_range, sql_datetime_text, MAX_TEXT_EPOCH,
};
use crate::tokens::{create_jwt, jwt_of, JWT_LIFETIME_SECS};
use crate::authz::{check_admin, check_write_permission, spec_can_write};

verus! {

/// The UTF-8 byte length of a text.
pub open spec fn spec_byte_len(s: Seq<char>) -> int {
    encode_utf8(s).len() as int
}

/// The largest message body accepted, in bytes.
pub const MAX_MESSAGE_BYTES: usize = 65536;

/// Whether a message body's size is accepted: 1 to 65536 UTF-8 bytes.
pub open spec fn spec_message_size_ok(m: Seq<char>) -> bool {
    1 <= spec_byte_len(m) <= MAX_MESSAGE_BYTES as int
}

/// Validate a message body's size.
pub fn validate_message_size(m: &str) -> (r: Result<(), CoreError>)
    ensures
        r is Ok <==> spec_message_size_ok(m@),
        r matches Err(e) ==> e matches CoreError::Validation(t) && t@
            == "Message must be between 1 and 65536 characters"@,
{
    let bytes = m.as_bytes();
    proof {
        broadcast use vstd::slice::axiom_spec_len;

        assert(bytes@ == encode_utf8(m@));
    }
    let len = bytes.len();
    if len == 0 || len > MAX_MESSAGE_BYTES {
        Err(CoreError::Validation(
            String::from_str("Message must be between 1 and 65536 characters"),
        ))
    } else {
        Ok(())
    }
}

// ---------------------------------------------------------------------------
// JSON text of plain values
// ---------------------------------------------------------------------------

/// The JSON array text that encodes a list of strings.
pub uninterp spec fn json_of_strings(ts: Seq<Seq<char>>) -> Seq<char>;

/// Relies on `serde_json::to_string`: the canonical JSON text of a string
/// list.  Serializing a list of plain strings cannot fail.
#[verifier::external_body]
pub fn json_encode_strings(ts: &Vec<String>) -> (r: String)
    ensures
        r@ == json_of_strings(ts@.map_values(|t: String| t@)),
{
    serde_json::to_string(ts).unwrap_or_default()
}

// ---------------------------------------------------------------------------
// Structured publishes
// ---------------------------------------------------------------------------

/// Build the stored row for a structured application publish: the body is
/// validated, the priority defaults to the application's, the extras ride
/// along as JSON text, and the row belongs to the application and its
/// owner.  Never scheduled: application publishes fan out at once.
pub fn build_app_message(req: CreateAppMessage, app: &Application, user_id: i64) -> (r: Result<
    NewMessage,
    CoreError,
>)
    ensures
        r is Ok <==> spec_message_size_ok(req.message@),
        r matches Err(e) ==> e matches CoreError::Validation(_),
        r matches Ok(n) ==> {
            &&& n.application_id == Option::Some(app.id)
            &&& n.topic_id is None
            &&& n.user_id == Option::Some(user_id)
            &&& n.title == req.title
            &&& n.message == req.message
            &&& n.priority as int == (match req.priority {
                Option::Some(p) => p as int,
                Option::None => app.default_priority as int,
            })
            &&& n.tags is None
            &&& n.click_url is None
            &&& n.icon_url is None
            &&& n.actions is None
            &&& n.extras == req.extras
            &&& n.content_type is None
            &&& n.scheduled_for is None
        },
{
    if let Err(e) = validate_message_size(req.message.as_str()) {
        return Err(e);
    }
    let priority = match req.priority {
        Some(p) => p,
        None => app.default_priority,
    };
    Ok(
        NewMessage {
            application_id: Some(app.id),
            topic_id: None,
            user_id: Some(user_id),
            title: req.title,
            message: req.message,
            priority,
            tags: None,
            click_url: None,
            icon_url: None,
            actions: None,
            extras: req.extras,
            content_type: None,
            scheduled_for: None,
        },
    )
}

/// Build the stored row for a structured topic publish: write permission
/// first, then body validation; the priority defaults to 5; tags are
/// encoded to JSON text; actions already ride as JSON text.
pub fn build_topic_message(
    req: CreateTopicMessage,
    topic: &Topic,
    user_id: i64,
    is_admin: bool,
    perms: &Vec<TopicPermission>,
) -> (r: Result<NewMessage, CoreError>)
    ensures
        r is Ok <==> spec_can_write(user_id, is_admin, *topic, perms@) && spec_message_size_ok(
            req.message@,
        ),
        r matches Err(e) ==> (e matches CoreError::Forbidden(_) <==> !spec_can_write(
            user_id,
            is_admin,
            *topic,
            perms@,
        )),
        r matches Err(e) ==> (spec_can_write(user_id, is_admin, *topic, perms@) ==> e matches
            CoreError::Validation(_)),
        r matches Ok(n) ==> {
            &&& n.application_id is None
            &&& n.topic_id == Option::Some(topic.id)
            &&& n.user_id == Option::Some(user_id)
            &&& n.title == req.title
            &&& n.message == req.message
            &&& n.priority as int == (match req.priority {
                Option::Some(p) => p as int,
                Option::None => 5int,
            })
            &&& (match req.tags {
                Option::Some(ts) => n.tags matches Option::Some(tj) && tj@ == json_of_strings(
                    ts@.map_values(|t: String| t@),
                ),
                Option::None => n.tags is None,
            })
            &&& n.click_url == req.click_url
            &&& n.icon_url == req.icon_url
            &&& n.actions == req.actions
            &&& n.extras is None
            &&& n.content_type is None
            &&& n.scheduled_for == req.scheduled_for
        },
{
    if let Err(e) = check_write_permission(user_id, is_admin, topic, perms) {
        return Err(e);
    }
    if let Err(e) = validate_message_size(req.message.as_str()) {
        return Err(e);
    }
    let priority = match req.priority {
        Some(p) => p,
        None => 5,
    };
    let tags = match &req.tags {
        Some(ts) => Some(json_encode_strings(ts)),
        None => None,
    };
    Ok(
        NewMessage {
            application_id: None,
            topic_id: Some(topic.id),
            user_id: Some(user_id),
            title: req.title,
            message: req.message,
            priority,
            tags,
            click_url: req.click_url,
            icon_url: req.icon_url,
            actions: req.actions,
            extras: None,
            content_type: None,
            scheduled_for: req.scheduled_for,
        },
    )
}

// ---------------------------------------------------------------------------
// Metadata-header publish
// ---------------------------------------------------------------------------

/// Everything a metadata-header publish decides before any effect runs.
pub struct HeaderPublishPlan {
    /// The row to persist.
    pub new_message: NewMessage,
    /// Fan out immediately — exactly when the message is not scheduled.
    pub broadcast: bool,
    /// Send a notification mail to this address, when SMTP is configured.
    pub email_to: Option<String>,
    /// Stamp this expiry onto the row after persisting, from the cache
    /// header.
    pub expires_at: Option<String>,
}

/// Plan a metadata-header publish: check write permission on the topic,
/// validate the raw body, and assemble the row from the parsed headers.
/// The priority of an absent header is 3; fan-out happens exactly when no
/// scheduling header was given.
pub fn plan_header_publish(
    topic: &Topic,
    user_id: i64,
    is_admin: bool,
    perms: &Vec<TopicPermission>,
    body_text: String,
    h: NtfyHeaders,
    now_epoch: i64,
) -> (r: Result<HeaderPublishPlan, CoreError>)
    ensures
        r is Ok <==> spec_can_write(user_id, is_admin, *topic, perms@) && spec_message_size_ok(
            body_text@,
        ),
        r matches Err(e) ==> (e matches CoreError::Forbidden(_) <==> !spec_can_write(
            user_id,
            is_admin,
            *topic,
            perms@,
        )),
        r matches Err(e) ==> (spec_can_write(user_id, is_admin, *topic, perms@) ==> e matches
            CoreError::Validation(_)),
        r matches Ok(plan) ==> {
            &&& plan.new_message.application_id is None
            &&& plan.new_message.topic_id == Option::Some(topic.id)
            &&& plan.new_message.user_id == Option::Some(user_id)
            &&& plan.new_message.title == h.title
            &&& plan.new_message.message == body_text
            &&& plan.new_message.priority as int == (match h.priority {
                Option::Some(p) => p as int,
                Option::None => 3int,
            })
            &&& (match h.tags {
                Option::Some(ts) => plan.new_message.tags matches Option::Some(tj) && tj@
                    == json_of_strings(ts@.map_values(|t: String| t@)),
                Option::None => plan.new_message.tags is None,
            })
            &&& plan.new_message.click_url == h.click_url
            &&& plan.new_message.icon_url == h.icon_url
            &&& plan.new_message.actions == h.actions
            &&& plan.new_message.extras is None
            &&& plan.new_message.content_type == h.content_type
            &&& plan.new_message.scheduled_for == h.scheduled_for
            &&& plan.broadcast <==> h.scheduled_for is None
            &&& plan.email_to == h.email
            &&& (match h.cache_duration {
                Option::Some(c) => {
                    &&& (plan.expires_at matches Option::Some(x) ==> human_duration_secs(c@)
                        matches Option::Some(d) && x@ == sql_datetime_text(now_epoch + d))
                    &&& (match human_duration_secs(c@) {
                        Option::Some(d) => spec_epoch_in_text_range(now_epoch + d) ==> (
                        plan.expires_at matches Option::Some(x) && x@ == sql_datetime_text(
                            now_epoch + d,
                        )),
                        Option::None => plan.expires_at is None,
                    })
                },
                Option::None => plan.expires_at is None,
            })
        },
{
    if let Err(e) = check_write_permission(user_id, is_admin, topic, perms) {
        return Err(e);
    }
    if let Err(e) = validate_message_size(body_text.as_str()) {
        return Err(e);
    }
    let priority = match h.priority {
        Some(p) => p,
        None => 3,
    };
    let tags = match &h.tags {
        Some(ts) => Some(json_encode_strings(ts)),
        None => None,
    };
    let broadcast = match &h.scheduled_for {
        Some(_) => false,
        None => true,
    };
    let expires_at = match &h.cache_duration {
        Some(c) => match parse_human_duration_secs(c.as_str()) {
            Some(d) => {
                let when_wide: i128 = (now_epoch as i128) + (d as i128);
                if 0 <= when_wide && when_wide <= MAX_TEXT_EPOCH as i128 {
                    let r = epoch_to_sql_datetime(when_wide as i64);
                    proof {
                        assert(r is Some);
                    }
                    r
                } else {
                    None
                }
            },
            None => None,
        },
        None => None,
    };
    Ok(
        HeaderPublishPlan {
            new_message: NewMessage {
                application_id: None,
                topic_id: Some(topic.id),
                user_id: Some(user_id),
                title: h.title,
                message: body_text,
                priority,
                tags,
                click_url: h.click_url,
                icon_url: h.icon_url,
                actions: h.actions,
                extras: None,
                content_type: h.content_type,
                scheduled_for: h.scheduled_for,
            },
            broadcast,
            email_to: h.email,
            expires_at,
        },
    )
}

// ---------------------------------------------------------------------------
// Login and password management
// ---------------------------------------------------------------------------

/// Decide a login attempt against the looked-up user, and mint the session
/// token.  An unknown username and a wrong password both answer the same
/// `Unauthorized`, telling an attacker nothing; a verifier breakdown is
/// `Internal`; on success the token carries exactly the user's identity.
pub fn login(user: Option<&User>, password: &str, secret: &str) -> (r: Result<
    LoginResponse,
    CoreError,
>)
    ensures
        user is None ==> (r matches Err(e) && e matches CoreError::Unauthorized(m) && m@
            == "Invalid credentials"@),
        user matches Some(u) ==> {
            &&& (password_verifies(password@, u.password_hash@) == Some(false) ==> (r matches Err(
                e,
            ) && e matches CoreError::Unauthorized(m) && m@ == "Invalid credentials"@))
            &&& (password_verifies(password@, u.password_hash@) is None ==> (r matches Err(e)
                && e matches CoreError::Internal(_)))
            &&& ((r matches Err(e) && e matches CoreError::Unauthorized(_))
                ==> password_verifies(password@, u.password_hash@) == Some(false))
            &&& (r matches Ok(resp) ==> password_verifies(password@, u.password_hash@) == Some(true)
                && exists|iat: i64, exp: i64|
                exp == iat + JWT_LIFETIME_SECS && resp.token@ == jwt_of(
                    u.id as int,
                    u.username@,
                    u.is_admin,
                    exp as int,
                    iat as int,
                    secret@,
                ))
        },
{
    let u = match user {
        Some(u) => u,
        None => {
            return Err(CoreError::Unauthorized(String::from_str("Invalid credentials")));
        },
    };
    let valid = match verify_password(password, u.password_hash.as_str()) {
        Ok(b) => b,
        Err(_) => {
            return Err(CoreError::Internal(String::from_str("Password verification error")));
        },
    };
    if !valid {
        return Err(CoreError::Unauthorized(String::from_str("Invalid credentials")));
    }
    match create_jwt(u.id, u.username.as_str(), u.is_admin, secret) {
        Ok(token) => Ok(LoginResponse { token }),
        Err(_) => Err(CoreError::Internal(String::from_str("Token creation error"))),
    }
}

/// Whether a new password's size is accepted: 8 to 256 bytes.
pub open spec fn spec_password_size_ok(p: Seq<char>) -> bool {
    8 <= spec_byte_len(p) <= 256
}

/// Validate a new password's size.
pub fn validate_new_password(p: &str) -> (r: Result<(), CoreError>)
    ensures
        r is Ok <==> spec_password_size_ok(p@),
        r matches Err(e) ==> e matches CoreError::Validation(_),
{
    let bytes = p.as_bytes();
    proof {
        broadcast use vstd::slice::axiom_spec_len;

        assert(bytes@ == encode_utf8(p@));
    }
    let len = bytes.len();
    if len < 8 || len > 256 {
        Err(CoreError::Validation(
            String::from_str("Password must be between 8 and 256 characters"),
        ))
    } else {
        Ok(())
    }
}

/// Decide a password change: the new password must have an accepted size
/// and the current one must verify against the stored hash; the fresh hash
/// to store verifies against the new password.
pub fn change_password_hash(user: &User, current: &str, new_password: &str) -> (r: Result<
    String,
    CoreError,
>)
    ensures
        !spec_password_size_ok(new_password@) ==> (r matches Err(e) && e matches
            CoreError::Validation(_)),
        (r matches Err(e) && e matches CoreError::Validation(_)) ==> !spec_password_size_ok(
            new_password@,
        ),
        spec_password_size_ok(new_password@) && password_verifies(current@, user.password_hash@)
            == Some(false) ==> (r matches Err(e) && e matches CoreError::Unauthorized(_)),
        (r matches Err(e) && e matches CoreError::Unauthorized(_)) ==> password_verifies(
            current@,
            user.password_hash@,
        ) == Some(false),
        r matches Ok(h) ==> password_verifies(current@, user.password_hash@) == Some(true)
            && password_verifies(new_password@, h@) == Some(true) && spec_password_size_ok(
            new_password@,
        ),
{
    if let Err(e) = validate_new_password(new_password) {
        return Err(e);
    }
    let valid = match verify_password(current, user.password_hash.as_str()) {
        Ok(b) => b,
        Err(_) => {
            return Err(CoreError::Internal(String::from_str("Password verification error")));
        },
    };
    if !valid {
        return Err(CoreError::Unauthorized(String::from_str("Current password is incorrect")));
    }
    match hash_password(new_password) {
        Ok(h) => Ok(h),
        Err(_) => Err(CoreError::Internal(String::from_str("Password hash error"))),
    }
}

/// A new user ready to persist: validated fields and the password's hash.
pub struct PreparedUser {
    pub username: String,
    pub password_hash: String,
    pub email: Option<String>,
    pub is_admin: bool,
}

/// Whether a username's size is accepted after trimming: 1 to 64 bytes.
pub open spec fn spec_username_ok(u: Seq<char>) -> bool {
    1 <= spec_byte_len(spec_trim(u)) <= 64
}

/// Decide user creation: admin only; the username is trimmed and must be 1
/// to 64 bytes; the password 8 to 256; the stored hash verifies against
/// the given password; adminship defaults to off.
pub fn prepare_create_user(req: CreateUser, actor_is_admin: bool) -> (r: Result<
    PreparedUser,
    CoreError,
>)
    ensures
        !actor_is_admin ==> (r matches Err(e) && e matches CoreError::Forbidden(_)),
        (r matches Err(e) && e matches CoreError::Forbidden(_)) ==> !actor_is_admin,
        actor_is_admin && !spec_username_ok(req.username@) ==> (r matches Err(e) && e matches
            CoreError::Validation(_)),
        (r matches Err(e) && e matches CoreError::Validation(_)) ==> actor_is_admin && (
        !spec_username_ok(req.username@) || !spec_password_size_ok(req.password@)),
        r matches Ok(p) ==> {
            &&& actor_is_admin
            &&& p.username@ == spec_trim(req.username@)
            &&& spec_username_ok(req.username@)
            &&& spec_password_size_ok(req.password@)
            &&& password_verifies(req.password@, p.password_hash@) == Some(true)
            &&& p.email == req.email
            &&& p.is_admin == (req.is_admin matches Option::Some(true))
        },
{
    if let Err(e) = check_admin(actor_is_admin) {
        return Err(e);
    }
    let username = trim(req.username.as_str());
    let ubytes = username.as_str().as_bytes();
    proof {
        broadcast use vstd::slice::axiom_spec_len;

        assert(ubytes@ == encode_utf8(spec_trim(req.username@)));
    }
    let ulen = ubytes.len();
    if ulen == 0 || ulen > 64 {
        return Err(CoreError::Validation(
            String::from_str("Username must be between 1 and 64 characters"),
        ));
    }
    if let Err(e) = validate_new_password(req.password.as_str()) {
        return Err(e);
    }
    let password_hash = match hash_password(req.password.as_str()) {
        Ok(h) => h,
        Err(_) => {
            return Err(CoreError::Internal(String::from_str("Password hash error")));
        },
    };
    let is_admin = match req.is_admin {
        Some(b) => b,
        None => false,
    };
    Ok(PreparedUser { username, password_hash, email: req.email, is_admin })
}

// ---------------------------------------------------------------------------
// Ownership and refusal decisions of single handlers
// ---------------------------------------------------------------------------

/// Whether a principal may delete a message: admins always may; an
/// application message belongs to the application's owner; a topic message
/// belongs to the user it is attributed to.
pub open spec fn spec_may_delete_message(
    user_id: i64,
    is_admin: bool,
    application_id: Option<i64>,
    application_owner: Option<i64>,
    msg_user_id: Option<i64>,
) -> bool {
    ||| is_admin
    ||| (match application_id {
        Option::Some(_) => application_owner == Option::Some(user_id),
        Option::None => msg_user_id == Option::Some(user_id),
    })
}

/// Decide message deletion.  `application_owner` is the owning user of the
/// message's application, when the message has one and the application was
/// found.
pub fn check_message_delete(
    user_id: i64,
    is_admin: bool,
    application_id: Option<i64>,
    application_owner: Option<i64>,
    msg_user_id: Option<i64>,
) -> (r: Result<(), CoreError>)
    ensures
        r is Ok <==> spec_may_delete_message(
            user_id,
            is_admin,
            application_id,
            application_owner,
            msg_user_id,
        ),
        r matches Err(e) ==> e matches CoreError::Forbidden(m) && m@ == "Not your message"@,
{
    let allowed = is_admin || (match application_id {
        Some(_) => match application_owner {
            Some(o) => o == user_id,
            None => false,
        },
        None => match msg_user_id {
            Some(u) => u == user_id,
            None => false,
        },
    });
    if allowed {
        Ok(())
    } else {
        Err(CoreError::Forbidden(String::from_str("Not your message")))
    }
}

/// Whether a trimmed application name is accepted: 1 to 128 bytes.
pub open spec fn spec_application_name_ok(name: Seq<char>) -> bool {
    1 <= spec_byte_len(spec_trim(name)) <= 128
}

/// Validate and trim an application name.
pub fn validate_application_name(name: &str) -> (r: Result<String, CoreError>)
    ensures
        r is Ok <==> spec_application_name_ok(name@),
        r matches Ok(t) ==> t@ == spec_trim(name@),
        r matches Err(e) ==> e matches CoreError::Validation(_),
{
    let trimmed = trim(name);
    let tbytes = trimmed.as_str().as_bytes();
    proof {
        broadcast use vstd::slice::axiom_spec_len;

        assert(tbytes@ == encode_utf8(spec_trim(name@)));
    }
    let len = tbytes.len();
    if len == 0 || len > 128 {
        return Err(CoreError::Validation(
            String::from_str("Application name must be between 1 and 128 characters"),
        ));
    }
    Ok(trimmed)
}

/// Decide a user deletion: admin only, and never the actor's own account.
pub fn check_user_delete(actor_is_admin: bool, actor_id: i64, target_id: i64) -> (r: Result<
    (),
    CoreError,
>)
    ensures
        r is Ok <==> actor_is_admin && target_id != actor_id,
        r matches Err(e) ==> (e matches CoreError::Forbidden(_) <==> !actor_is_admin),
        r matches Err(e) ==> (e matches CoreError::Validation(_) <==> actor_is_admin && target_id
            == actor_id),
{
    if let Err(e) = check_admin(actor_is_admin) {
        return Err(e);
    }
    if target_id == actor_id {
        return Err(CoreError::Validation(String::from_str("Cannot delete your own account")));
    }
    Ok(())
}

/// Decide whether an inbound webhook sink accepts: only while enabled.
pub fn check_webhook_enabled(enabled: bool) -> (r: Result<(), CoreError>)
    ensures
        r is Ok <==> enabled,
        r matches Err(e) ==> e matches CoreError::Forbidden(m) && m@ == "Webhook is disabled"@,
{
    if enabled {
        Ok(())
    } else {
        Err(CoreError::Forbidden(String::from_str("Webhook is disabled")))
    }
}

// ---------------------------------------------------------------------------
// Paging
// ---------------------------------------------------------------------------

/// The page limit a request gets: the asked-for limit clamped to 1..=500,
/// with 100 when absent.
pub open spec fn spec_clamp_limit(limit: Option<i64>) -> int {
    let l = match limit {
        Option::Some(l) => l as int,
        Option::None => 100,
    };
    if l > 500 {
        500
    } else if l < 1 {
        1
    } else {
        l
    }
}

/// The paging anchor: the asked-for id, never negative, 0 when absent.
pub open spec fn spec_clamp_since(since: Option<i64>) -> int {
    match since {
        Option::Some(s) => if s < 0 {
            0
        } else {
            s as int
        },
        Option::None => 0,
    }
}

/// Clamp a request's paging parameters.
pub fn clamp_paging(params: &ListParams) -> (r: (i64, i64))
    ensures
        r.0 as int == spec_clamp_limit(params.limit),
        r.1 as int == spec_clamp_since(params.since),
{
    let limit = match params.limit {
        Some(l) => if l > 500 {
            500
        } else if l < 1 {
            1
        } else {
            l
        },
        None => 100,
    };
    let since = match params.since {
        Some(s) => if s < 0 {
            0
        } else {
            s
        },
        None => 0,
    };
    (limit, since)
}

/// Wrap a page of views with its paging envelope.
pub fn build_paged(messages: Vec<MessageResponse>, since: i64, limit: i64) -> (r: PagedMessages)
    requires
        messages@.len() <= 0x7fffffffffffffff,
    ensures
        r.messages == messages,
        r.paging.size == messages@.len(),
        r.paging.since == since,
        r.paging.limit == limit,
{
    let size = messages.len();
    PagedMessages { messages, paging: Paging { size: size as i64, since, limit } }
}

// ---------------------------------------------------------------------------
// Statistics
// ---------------------------------------------------------------------------

/// Assemble the admin statistics view; anyone else is refused.
pub fn build_stats(
    is_admin: bool,
    users: i64,
    topics: i64,
    messages: i64,
    messages_last_24h: i64,
) -> (r: Result<StatsResponse, CoreError>)
    ensures
        r is Ok <==> is_admin,
        r matches Err(e) ==> e matches CoreError::Forbidden(_),
        r matches Ok(s) ==> s.users == users && s.topics == topics && s.messages == messages
            && s.messages_last_24h == messages_last_24h,
{
    if let Err(e) = check_admin(is_admin) {
        return Err(e);
    }
    Ok(StatsResponse { users, topics, messages, messages_last_24h })
}

// ---------------------------------------------------------------------------
// Topic creation
// ---------------------------------------------------------------------------

/// Characters a topic name may hold: alphanumeric and `-`, `_`, `.`.
pub open spec fn spec_topic_name_char(c: char) -> bool {
    ||| ('a' <= c && c <= 'z')
    ||| ('A' <= c && c <= 'Z')
    ||| ('0' <= c && c <= '9')
    ||| c == '-'
    ||| c == '_'
    ||| c == '.'
}

/// Whether a trimmed topic name is accepted: 1 to 128 characters, all from
/// the topic alphabet.
pub open spec fn spec_topic_name_ok(name: Seq<char>) -> bool {
    &&& 1 <= name.len() <= 128
    &&& forall|i: int| 0 <= i < name.len() ==> spec_topic_name_char(#[trigger] name[i])
}

/// Validate and trim a topic name.
pub fn validate_topic_name(name: &str) -> (r: Result<String, CoreError>)
    ensures
        r is Ok <==> spec_topic_name_ok(spec_trim(name@)),
        r matches Ok(t) ==> t@ == spec_trim(name@),
        r matches Err(e) ==> e matches CoreError::Validation(_),
{
    let trimmed = trim(name);
    let n = trimmed.as_str().unicode_len();
    if n == 0 || n > 128 {
        return Err(CoreError::Validation(
            String::from_str("Topic name must be between 1 and 128 characters"),
        ));
    }
    let mut i: usize = 0;
    while i < n
        invariant
            n == trimmed@.len(),
            trimmed@ == spec_trim(name@),
            1 <= n <= 128,
            i <= n,
            forall|j: int| 0 <= j < i ==> spec_topic_name_char(#[trigger] trimmed@[j]),
        decreases n - i,
    {
        let c = trimmed.as_str().get_char(i);
        let ok = ('a' <= c && c <= 'z') || ('A' <= c && c <= 'Z') || ('0' <= c && c <= '9') || c
            == '-' || c == '_' || c == '.';
        if !ok {
            proof {
                assert(!spec_topic_name_char(trimmed@[i as int]));
            }
            return Err(CoreError::Validation(
                String::from_str(
                    "Topic name may only contain alphanumeric characters, hyphens, underscores, and dots",
                ),
            ));
        }
        i = i + 1;
    }
    Ok(trimmed)
}

// ---------------------------------------------------------------------------
// Attachments and icons
// ---------------------------------------------------------------------------

/// The largest icon accepted, in bytes.
pub const MAX_ICON_BYTES: usize = 1048576;

/// Whether an icon's declared content type is accepted.
pub open spec fn spec_icon_type_ok(ct: Option<Seq<char>>) -> bool {
    match ct {
        Option::None => true,
        Option::Some(t) => t == "image/png"@ || t == "image/jpeg"@ || t == "image/gif"@ || t
            == "image/svg+xml"@ || t == "image/webp"@,
    }
}

/// Validate an icon upload: an accepted image type and at most 1 MiB.
pub fn validate_icon(content_type: Option<&str>, size: usize) -> (r: Result<(), CoreError>)
    ensures
        r is Ok <==> spec_icon_type_ok(
            match content_type {
                Option::Some(t) => Option::Some(t@),
                Option::None => Option::None,
            },
        ) && size <= MAX_ICON_BYTES,
        r matches Err(e) ==> e matches CoreError::Validation(_),
{
    if let Some(ct) = content_type {
        let ok = str_eq(ct, "image/png") || str_eq(ct, "image/jpeg") || str_eq(ct, "image/gif")
            || str_eq(ct, "image/svg+xml") || str_eq(ct, "image/webp");
        if !ok {
            return Err(CoreError::Validation(
                String::from_str("Invalid content type. Allowed: PNG, JPEG, GIF, SVG, WebP"),
            ));
        }
    }
    if size > MAX_ICON_BYTES {
        return Err(CoreError::Validation(String::from_str("Icon too large")));
    }
    Ok(())
}

/// The `Content-Disposition` header value a download carries: the sanitized
/// filename, quoted.
pub fn content_disposition(sanitized_filename: &str) -> (r: String)
    ensures
        r@ == "attachment; filename=\""@ + sanitized_filename@ + "\""@,
{
    let mut out = String::from_str("attachment; filename=\"");
    out.append(sanitized_filename);
    out.append("\"");
    out
}

// ---------------------------------------------------------------------------
// Inbound webhook projection
// ---------------------------------------------------------------------------

/// Project the fields read from an inbound webhook payload onto the title
/// and body of the message to publish, by webhook type:
/// `github` titles the event and carries the pretty-printed payload;
/// `grafana` takes its title and message fields, with fallbacks; anything
/// else takes title and message when present, else the pretty payload.
pub fn project_webhook_parts(
    webhook_type: &str,
    title_field: Option<String>,
    message_field: Option<String>,
    action_field: Option<String>,
    repo_field: Option<String>,
    pretty_payload: String,
) -> (r: (Option<String>, String))
    ensures
        webhook_type@ == "github"@ ==> {
            &&& r.0 matches Option::Some(t) && t@ == "GitHub: "@ + (match action_field {
                Option::Some(a) => a@,
                Option::None => "event"@,
            }) + " on "@ + (match repo_field {
                Option::Some(p) => p@,
                Option::None => "unknown"@,
            })
            &&& r.1 == pretty_payload
        },
        webhook_type@ == "grafana"@ ==> {
            &&& r.0 matches Option::Some(t) && t@ == (match title_field {
                Option::Some(t0) => t0@,
                Option::None => "Grafana Alert"@,
            })
            &&& r.1@ == (match message_field {
                Option::Some(m) => m@,
                Option::None => Seq::<char>::empty(),
            })
        },
        webhook_type@ != "github"@ && webhook_type@ != "grafana"@ ==> {
            &&& r.0 == title_field
            &&& r.1@ == (match message_field {
                Option::Some(m) => m@,
                Option::None => pretty_payload@,
            })
        },
{
    proof {
        reveal_strlit("github");
        reveal_strlit("grafana");
        assert("github"@.len() == 6);
        assert("grafana"@.len() == 7);
        assert("github"@ != "grafana"@);
    }
    if str_eq(webhook_type, "github") {
        let action = match action_field {
            Some(a) => a,
            None => String::from_str("event"),
        };
        let repo = match repo_field {
            Some(p) => p,
            None => String::from_str("unknown"),
        };
        let mut title = String::from_str("GitHub: ");
        title.append(action.as_str());
        title.append(" on ");
        title.append(repo.as_str());
        (Some(title), pretty_payload)
    } else if str_eq(webhook_type, "grafana") {
        let title = match title_field {
            Some(t) => t,
            None => String::from_str("Grafana Alert"),
        };
        let message = match message_field {
            Some(m) => m,
            None => String::new(),
        };
        (Some(title), message)
    } else {
        let message = match message_field {
            Some(m) => m,
            None => pretty_payload,
        };
        (title_field, message)
    }
}

/// The row an inbound webhook persists: the projected title and body, the
/// fixed priority 5, attributed to the config's owner and targets.
pub fn build_webhook_message(
    target_application_id: Option<i64>,
    target_topic_id: Option<i64>,
    owner_user_id: i64,
    title: Option<String>,
    message: String,
) -> (r: NewMessage)
    ensures
        r.application_id == target_application_id,
        r.topic_id == target_topic_id,
        r.user_id == Option::Some(owner_user_id),
        r.title == title,
        r.message == message,
        r.priority == 5,
        r.tags is None,
        r.click_url is None,
        r.icon_url is None,
        r.actions is None,
        r.extras is None,
        r.content_type is None,
        r.scheduled_for is None,
{
    NewMessage {
        application_id: target_application_id,
        topic_id: target_topic_id,
        user_id: Some(owner_user_id),
        title,
        message,
        priority: 5,
        tags: None,
        click_url: None,
        icon_url: None,
        actions: None,
        extras: None,
        content_type: None,
        scheduled_for: None,
    }
}

} // verus!
