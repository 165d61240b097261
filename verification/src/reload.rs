//! Deciding whether a restored session was interrupted (by a server reload,
//! a crash, or a pending user message) and should resume.

use vstd::prelude::*;
use crate::text::{contains_str, contains_text, ends_with_text, has_suffix, str_eq};

verus! {

/// Who wrote a message.
#[derive(Clone, Copy, Debug)]
pub enum Role {
    User,
    Assistant,
}

/// One block of message content.
#[derive(Clone, Debug)]
pub enum ContentBlock {
    Text { text: String },
    ToolResult { content: String, is_error: Option<bool> },
    /// Any other kind of block (images, tool calls, ...).
    Other,
}

/// A message of a conversation.
#[derive(Clone, Debug)]
pub struct ChatMessage {
    pub role: Role,
    pub content: Vec<ContentBlock>,
}

/// The status a session had before the server restarted.
#[derive(Clone, Copy, Debug)]
pub enum SessionStatus {
    Active,
    Closed,
    Crashed,
    /// Any other status.
    Other,
}

/// The block records an interruption by a server reload: assistant text
/// cut off by the reload marker, the reload tool's own result, or a tool
/// error reporting that the reload interrupted or skipped it.
pub open spec fn block_marks_reload(b: ContentBlock) -> bool {
    match b {
        ContentBlock::Text { text } => has_suffix(
            text@,
            "[generation interrupted - server reloading]"@,
        ),
        ContentBlock::ToolResult { content, is_error } => content@
            == "Reload initiated. Process restarting..."@ || (is_error == Some(true) && (
        contains_text(content@, "interrupted by server reload"@) || contains_text(
            content@,
            "Skipped - server reloading"@,
        ))),
        ContentBlock::Other => false,
    }
}

/// The last message holds a reload-interruption marker.
pub open spec fn interrupted_by_reload(messages: Seq<ChatMessage>) -> bool {
    messages.len() > 0 && exists|k: int|
        0 <= k < messages.last().content@.len() && block_marks_reload(
            #[trigger] messages.last().content@[k],
        )
}

fn block_marks_reload_exec(b: &ContentBlock) -> (r: bool)
    ensures
        r == block_marks_reload(*b),
{
    match b {
        ContentBlock::Text { text } => ends_with_text(
            text.as_str(),
            "[generation interrupted - server reloading]",
        ),
        ContentBlock::ToolResult { content, is_error } => {
            str_eq(content.as_str(), "Reload initiated. Process restarting...") || (match is_error {
                Some(e) => *e,
                None => false,
            } && (contains_str(content.as_str(), "interrupted by server reload") || contains_str(
                content.as_str(),
                "Skipped - server reloading",
            )))
        },
        ContentBlock::Other => false,
    }
}

/// Whether the conversation's last message shows that a server reload
/// interrupted it.
pub fn session_was_interrupted_by_reload(messages: &[ChatMessage]) -> (r: bool)
    ensures
        r == interrupted_by_reload(messages@),
{
    if messages.len() == 0 {
        return false;
    }
    let last = &messages[messages.len() - 1];
    assert(*last == messages@.last());
    let mut k: usize = 0;
    while k < last.content.len()
        invariant
            k <= last.content@.len(),
            *last == messages@.last(),
            messages@.len() > 0,
            forall|m: int| 0 <= m < k ==> !block_marks_reload(#[trigger] last.content@[m]),
        decreases last.content@.len() - k,
    {
        if block_marks_reload_exec(&last.content[k]) {
            assert(0 <= k < messages@.last().content@.len());
            assert(block_marks_reload(messages@.last().content@[k as int]));
            assert(interrupted_by_reload(messages@));
            return true;
        }
        k += 1;
    }
    false
}

/// The last message is the user's.
pub open spec fn last_is_user(messages: Seq<ChatMessage>) -> bool {
    messages.len() > 0 && messages.last().role is User
}

/// A restored session counts as interrupted when it had crashed, was
/// active with the user's message still unanswered, carries a reload
/// marker, or was closed with an unanswered user message while a recent
/// reload is known (`reload_marker_active`).
pub open spec fn was_interrupted(
    status: SessionStatus,
    messages: Seq<ChatMessage>,
    reload_marker_active: bool,
) -> bool {
    ||| status is Crashed
    ||| (status is Active && last_is_user(messages))
    ||| interrupted_by_reload(messages)
    ||| (status is Closed && last_is_user(messages) && reload_marker_active)
}

/// Whether a restored session was interrupted and should resume (see
/// `was_interrupted`). `reload_marker_active` tells whether a reload marker
/// younger than a minute exists; it matters only for a closed session
/// whose last message is the user's.
pub fn restored_session_was_interrupted(
    previous_status: &SessionStatus,
    messages: &[ChatMessage],
    reload_marker_active: bool,
) -> (r: bool)
    ensures
        r == was_interrupted(*previous_status, messages@, reload_marker_active),
{
    let last_is_user = messages.len() > 0 && match messages[messages.len() - 1].role {
        Role::User => true,
        Role::Assistant => false,
    };
    let interrupted = session_was_interrupted_by_reload(messages);
    let crashed = match previous_status {
        SessionStatus::Crashed => true,
        _ => false,
    };
    let active = match previous_status {
        SessionStatus::Active => true,
        _ => false,
    };
    let closed = match previous_status {
        SessionStatus::Closed => true,
        _ => false,
    };
    crashed || (active && last_is_user) || interrupted || (closed && last_is_user
        && reload_marker_active)
}

} // verus!
