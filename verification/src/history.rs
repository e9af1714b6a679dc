//! The rules of the conversation history store: history limits, message
//! roles, session titles and previews.  The store's SQL runs in the
//! application around the library.

use vstd::prelude::*;

use crate::text::{first_chars, push_str, str_eq, take_chars, to_owned_string, trim, trim_str};

verus! {

broadcast use vstd::string::group_string_axioms;

/// The session messages go to when none is named.
pub const DEFAULT_SESSION_ID: &'static str = "default";

/// The title of a session created implicitly by its first message.
pub const DEFAULT_SESSION_TITLE: &'static str = "Default Session";

/// The most messages one history read returns.
pub const MAX_HISTORY_LIMIT: i64 = 1000;

/// The longest session title, in characters.
pub const MAX_TITLE_LEN: usize = 160;

/// A session as the store describes it.
#[derive(Debug, Clone)]
pub struct SessionDetail {
    pub id: String,
    pub title: String,
    pub created_at: String,
    pub updated_at: String,
}

/// The number of messages a history read returns for a requested limit:
/// at least 1 and at most 1000.
pub fn sanitize_limit(limit: i64) -> (n: i64)
    ensures
        n == if limit <= 0 {
            1
        } else if limit > 1000 {
            1000
        } else {
            limit
        },
{
    if limit <= 0 {
        return 1;
    }
    if limit < MAX_HISTORY_LIMIT {
        limit
    } else {
        MAX_HISTORY_LIMIT
    }
}

/// The role stored for a message type: the known roles as they are, any
/// other as `human`.
pub open spec fn stored_role(t: Seq<char>) -> Seq<char> {
    if t == "human"@ || t == "ai"@ || t == "system"@ || t == "tool"@ {
        t
    } else {
        "human"@
    }
}

/// The role stored for a message type.
pub fn normalize_role(message_type: &str) -> (r: &'static str)
    ensures
        r@ == stored_role(message_type@),
{
    if str_eq(message_type, "human") {
        "human"
    } else if str_eq(message_type, "ai") {
        "ai"
    } else if str_eq(message_type, "system") {
        "system"
    } else if str_eq(message_type, "tool") {
        "tool"
    } else {
        "human"
    }
}

/// `Utc::now().format("%Y-%m-%d %H:%M")`.
///
/// Reads the clock; nothing is stated of the text.
#[verifier::external_body]
fn clock_minute_label() -> String {
    chrono::Utc::now().format("%Y-%m-%d %H:%M").to_string()
}

/// The title a session is stored with: the given title trimmed and cut to
/// 160 characters, or, when it is missing or blank, `"Session "` and the
/// given time label.
pub open spec fn session_title(title: Option<Seq<char>>, clock: Seq<char>) -> Seq<char> {
    match title {
        Some(raw) if trim(raw).len() > 0 => take_chars(trim(raw), 160),
        _ => "Session "@ + clock,
    }
}

/// The text of an optional string.
pub open spec fn opt_text(s: Option<String>) -> Option<Seq<char>> {
    match s {
        Some(v) => Some(v@),
        None => None,
    }
}

/// The title a session is stored with, given the current time's label.
pub fn title_at(title: Option<String>, clock: &str) -> (t: String)
    ensures
        t@ == session_title(opt_text(title), clock@),
{
    if let Some(raw) = &title {
        let trimmed = trim_str(raw.as_str());
        if trimmed.unicode_len() > 0 {
            return first_chars(trimmed.as_str(), MAX_TITLE_LEN);
        }
    }
    let mut t = to_owned_string("Session ");
    push_str(&mut t, clock);
    t
}

/// The title a session is stored with: the given title trimmed and cut to
/// 160 characters, or, when it is missing or blank, `"Session "` and the
/// current time.
pub fn normalize_title(title: Option<String>) -> (t: String)
    ensures
        exists|clock: Seq<char>| t@ == #[trigger] session_title(opt_text(title), clock),
{
    let clock = clock_minute_label();
    let t = title_at(title, clock.as_str());
    assert(t@ == session_title(opt_text(title), clock@));
    t
}

/// The preview of a session: the first 100 characters of its last message,
/// or empty.
pub fn session_preview(last_message: Option<String>) -> (p: String)
    ensures
        p@ == match last_message {
            Some(m) => take_chars(m@, 100),
            None => Seq::<char>::empty(),
        },
{
    match last_message {
        Some(m) => first_chars(m.as_str(), 100),
        None => String::new(),
    }
}

} // verus!
