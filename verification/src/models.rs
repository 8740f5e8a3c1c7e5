//! The data model: entities as the store keeps them, the request bodies
//! that create and update them, and the read-side views the wire carries.
//!
//! Timestamps are `YYYY-MM-DD HH:MM:SS` UTC text.  Columns that hold JSON
//! (tags, actions, extras, webhook templates and headers) are kept as the
//! JSON text itself; the wire layer decodes them.

use vstd::prelude::*;
use crate::tokens::Claims;

verus! {

pub struct User {
    pub id: i64,
    pub username: String,
    pub password_hash: String,
    pub email: Option<String>,
    pub is_admin: bool,
    pub created_at: String,
    pub updated_at: String,
}

pub struct CreateUser {
    pub username: String,
    pub password: String,
    pub email: Option<String>,
    pub is_admin: Option<bool>,
}

pub struct UpdateUser {
    pub username: Option<String>,
    pub email: Option<String>,
    pub is_admin: Option<bool>,
}

pub struct ChangePassword {
    pub current_password: String,
    pub new_password: String,
}

/// A user as the wire sees it: everything but the password hash.
pub struct UserResponse {
    pub id: i64,
    pub username: String,
    pub email: Option<String>,
    pub is_admin: bool,
    pub created_at: String,
    pub updated_at: String,
}

impl From<User> for UserResponse {
    /// Project a user onto its wire view, dropping the password hash.
    fn from(u: User) -> (r: UserResponse) {
        UserResponse {
            id: u.id,
            username: u.username,
            email: u.email,
            is_admin: u.is_admin,
            created_at: u.created_at,
            updated_at: u.updated_at,
        }
    }
}

impl vstd::std_specs::convert::FromSpecImpl<User> for UserResponse {
    open spec fn obeys_from_spec() -> bool {
        true
    }

    open spec fn from_spec(u: User) -> UserResponse {
        UserResponse {
            id: u.id,
            username: u.username,
            email: u.email,
            is_admin: u.is_admin,
            created_at: u.created_at,
            updated_at: u.updated_at,
        }
    }
}

pub struct Application {
    pub id: i64,
    pub user_id: i64,
    pub name: String,
    pub description: Option<String>,
    pub token: String,
    pub default_priority: i32,
    pub image: Option<String>,
    pub created_at: String,
    pub updated_at: String,
}

pub struct CreateApplication {
    pub name: String,
    pub description: Option<String>,
    pub default_priority: Option<i32>,
}

pub struct UpdateApplication {
    pub name: Option<String>,
    pub description: Option<String>,
    pub default_priority: Option<i32>,
}

pub struct Client {
    pub id: i64,
    pub user_id: i64,
    pub name: String,
    pub token: String,
    pub created_at: String,
}

pub struct CreateClient {
    pub name: String,
}

pub struct UpdateClient {
    pub name: Option<String>,
}

pub struct Topic {
    pub id: i64,
    pub name: String,
    pub owner_id: Option<i64>,
    pub description: Option<String>,
    pub everyone_read: bool,
    pub everyone_write: bool,
    pub created_at: String,
}

pub struct CreateTopic {
    pub name: String,
    pub description: Option<String>,
    pub everyone_read: Option<bool>,
    pub everyone_write: Option<bool>,
}

pub struct TopicPermission {
    pub id: i64,
    pub user_id: i64,
    pub topic_pattern: String,
    pub can_read: bool,
    pub can_write: bool,
}

pub struct CreateTopicPermission {
    pub user_id: i64,
    pub topic_pattern: String,
    pub can_read: Option<bool>,
    pub can_write: Option<bool>,
}

#[derive(Debug)]
pub struct Message {
    pub id: i64,
    pub application_id: Option<i64>,
    pub topic_id: Option<i64>,
    pub user_id: Option<i64>,
    pub title: Option<String>,
    pub message: String,
    pub priority: i32,
    pub tags: Option<String>,
    pub click_url: Option<String>,
    pub icon_url: Option<String>,
    pub actions: Option<String>,
    pub extras: Option<String>,
    pub content_type: Option<String>,
    pub scheduled_for: Option<String>,
    pub delivered_at: Option<String>,
    pub expires_at: Option<String>,
    pub created_at: String,
}

/// Message creation through an application token.  `extras` arrives as a
/// JSON object and is carried as its JSON text.
pub struct CreateAppMessage {
    pub title: Option<String>,
    pub message: String,
    pub priority: Option<i32>,
    pub extras: Option<String>,
}

/// Message creation into a topic.  `actions` arrives as structured actions
/// and is carried as their JSON text.
pub struct CreateTopicMessage {
    pub title: Option<String>,
    pub message: String,
    pub priority: Option<i32>,
    pub tags: Option<Vec<String>>,
    pub click_url: Option<String>,
    pub icon_url: Option<String>,
    pub actions: Option<String>,
    pub scheduled_for: Option<String>,
}

/// The read-side projection of a message that subscribers receive and the
/// paging surface returns; JSON columns stay JSON text here.
pub struct MessageResponse {
    pub id: i64,
    pub appid: Option<i64>,
    pub topic: Option<String>,
    pub title: Option<String>,
    pub message: String,
    pub priority: i32,
    pub tags: Option<String>,
    pub click_url: Option<String>,
    pub icon_url: Option<String>,
    pub actions: Option<String>,
    pub extras: Option<String>,
    pub content_type: Option<String>,
    pub date: String,
}

/// Clone an optional string.
pub fn clone_opt_string(o: &Option<String>) -> (r: Option<String>)
    ensures
        r == *o,
{
    match o {
        None => None,
        Some(s) => Some(s.clone()),
    }
}

impl Message {
    /// Project a message onto its wire view, filling in the topic name.
    pub fn to_response(&self, topic_name: Option<String>) -> (r: MessageResponse)
        ensures
            r.id == self.id,
            r.appid == self.application_id,
            r.topic == topic_name,
            r.title == self.title,
            r.message@ == self.message@,
            r.priority == self.priority,
            r.tags == self.tags,
            r.click_url == self.click_url,
            r.icon_url == self.icon_url,
            r.actions == self.actions,
            r.extras == self.extras,
            r.content_type == self.content_type,
            r.date@ == self.created_at@,
    {
        MessageResponse {
            id: self.id,
            appid: self.application_id,
            topic: topic_name,
            title: clone_opt_string(&self.title),
            message: self.message.clone(),
            priority: self.priority,
            tags: clone_opt_string(&self.tags),
            click_url: clone_opt_string(&self.click_url),
            icon_url: clone_opt_string(&self.icon_url),
            actions: clone_opt_string(&self.actions),
            extras: clone_opt_string(&self.extras),
            content_type: clone_opt_string(&self.content_type),
            date: self.created_at.clone(),
        }
    }
}

pub struct PagedMessages {
    pub messages: Vec<MessageResponse>,
    pub paging: Paging,
}

pub struct Paging {
    pub size: i64,
    pub since: i64,
    pub limit: i64,
}

/// Query parameters of the paging surfaces.
pub struct ListParams {
    pub limit: Option<i64>,
    pub since: Option<i64>,
}

/// Query parameter carrying a client token for stream upgrades.
pub struct TokenQuery {
    pub token: Option<String>,
}

pub struct Attachment {
    pub id: i64,
    pub message_id: i64,
    pub filename: String,
    pub content_type: Option<String>,
    pub size_bytes: i64,
    pub storage_type: String,
    pub storage_path: String,
    pub expires_at: Option<String>,
    pub created_at: String,
}

pub struct WebhookConfig {
    pub id: i64,
    pub user_id: i64,
    pub name: String,
    pub token: String,
    pub webhook_type: String,
    pub target_topic_id: Option<i64>,
    pub target_application_id: Option<i64>,
    pub template: String,
    pub enabled: bool,
    pub created_at: String,
    pub direction: String,
    pub target_url: Option<String>,
    pub http_method: String,
    pub headers: Option<String>,
    pub body_template: Option<String>,
    pub max_retries: i32,
    pub retry_delay_secs: i32,
}

/// Webhook creation; `template` and `headers` arrive as JSON values and
/// are carried as their JSON text.
pub struct CreateWebhookConfig {
    pub name: String,
    pub webhook_type: String,
    pub target_topic_id: Option<i64>,
    pub target_application_id: Option<i64>,
    pub template: String,
    pub enabled: Option<bool>,
    pub direction: Option<String>,
    pub target_url: Option<String>,
    pub http_method: Option<String>,
    pub headers: Option<String>,
    pub body_template: Option<String>,
}

pub struct UpdateWebhookConfig {
    pub name: Option<String>,
    pub template: Option<String>,
    pub enabled: Option<bool>,
    pub target_url: Option<String>,
    pub http_method: Option<String>,
    pub headers: Option<String>,
    pub body_template: Option<String>,
}

pub struct UpRegistration {
    pub id: i64,
    pub token: String,
    pub user_id: Option<i64>,
    pub endpoint: String,
    pub created_at: String,
}

pub struct CreateUpRegistration {
    pub endpoint: String,
}

/// Query parameter carrying the opaque token of a push registration.
pub struct UpTokenQuery {
    pub token: String,
}

pub struct LoginRequest {
    pub username: String,
    pub password: String,
}

#[derive(Debug)]
pub struct LoginResponse {
    pub token: String,
}

pub struct StatsResponse {
    pub users: i64,
    pub topics: i64,
    pub messages: i64,
    pub messages_last_24h: i64,
}

/// SMTP settings; reading them from the environment is the shell's job.
pub struct EmailConfig {
    pub host: String,
    pub port: u16,
    pub username: String,
    pub password: String,
    pub from: String,
}

/// An authenticated user-level principal: from a session token (with its
/// claims) or from a client token.
pub struct AuthUser {
    pub user: User,
    pub claims: Option<Claims>,
}

/// An authenticated app-level principal.
pub struct AuthApp {
    pub application: Application,
    pub user: User,
}

/// An authenticated client principal.
pub struct AuthClient {
    pub client: Client,
    pub user: User,
}

} // verus!
