//! What a classifier may read of a session.
use vstd::prelude::*;
use vstd::string::*;

use crate::model::AgentSession;
use crate::text;
use crate::time::Timestamp;

verus! {

/// A session at a glance.
#[derive(Debug)]
pub struct SessionOverview {
    pub summary: Option<String>,
    pub source: Option<String>,
    pub project_path: Option<String>,
    pub machine: Option<String>,
    pub started_at: Option<Timestamp>,
    pub ended_at: Option<Timestamp>,
    pub message_count: i64,
    pub assistant_message_count: i64,
    pub tool_call_count: i64,
}

/// A page of a session's messages, and where it lies in the whole.
#[derive(Debug)]
pub struct MessagePage {
    pub messages: Vec<String>,
    pub offset: usize,
    pub total: usize,
}

/// A session that was asked for is not there.
#[derive(Debug)]
pub struct NotFound(pub String);

/// The overview of a session, where it was found.
pub fn overview(session_id: &str, found: Option<(AgentSession, Option<String>)>) -> (r: Result<
    SessionOverview,
    NotFound,
>)
    ensures
        match found {
            None => r matches Err(NotFound(id)) && id@ == session_id@,
            Some(found) => r matches Ok(o) && {
                &&& o.summary == found.0.summary
                &&& text::opt_text(o.source) == Some(found.0.source@)
                &&& o.project_path == Some(found.0.project_path)
                &&& o.machine == found.1
                &&& o.started_at == Some(found.0.start_time)
                &&& o.ended_at == found.0.end_time
                &&& o.message_count == found.0.message_count
                &&& o.assistant_message_count == found.0.assistant_message_count
                &&& o.tool_call_count == found.0.tool_call_count
            },
        },
{
    match found {
        None => Err(NotFound(session_id.to_owned())),
        Some((session, machine)) => Ok(
            SessionOverview {
                summary: session.summary,
                source: Some(session.source.as_str().to_owned()),
                project_path: Some(session.project_path),
                machine,
                started_at: Some(session.start_time),
                ended_at: session.end_time,
                message_count: session.message_count as i64,
                assistant_message_count: session.assistant_message_count as i64,
                tool_call_count: session.tool_call_count as i64,
            },
        ),
    }
}

/// The part of `messages` from `offset` on, `limit` of them at most.
pub open spec fn page_of(messages: Seq<Seq<char>>, offset: int, limit: int) -> Seq<Seq<char>> {
    let start = if offset < messages.len() {
        offset
    } else {
        messages.len() as int
    };
    let end = if start + limit < messages.len() {
        start + limit
    } else {
        messages.len() as int
    };
    messages.subrange(start, end)
}

/// A page of a session's messages, where the session was found.
pub fn messages(
    session_id: &str,
    found: Option<&AgentSession>,
    offset: usize,
    limit: usize,
) -> (r: Result<MessagePage, NotFound>)
    ensures
        match found {
            None => r matches Err(NotFound(id)) && id@ == session_id@,
            Some(session) => r matches Ok(page) && {
                &&& text::texts(page.messages@) == page_of(
                    text::texts(session.user_prompts@),
                    offset as int,
                    limit as int,
                )
                &&& page.offset == offset
                &&& page.total == session.user_prompts@.len()
            },
        },
{
    match found {
        None => Err(NotFound(session_id.to_owned())),
        Some(session) => {
            let ghost all = text::texts(session.user_prompts@);
            let total: usize = session.user_prompts.len();
            let start: usize = if offset < total {
                offset
            } else {
                total
            };
            let end: usize = if limit < total - start {
                start + limit
            } else {
                total
            };
            let mut messages: Vec<String> = Vec::new();
            let mut i: usize = start;
            while i < end
                invariant
                    start <= i <= end <= total,
                    total == session.user_prompts@.len(),
                    all == text::texts(session.user_prompts@),
                    text::texts(messages@) == all.subrange(start as int, i as int),
                decreases end - i,
            {
                let ghost before = text::texts(messages@);
                messages.push(session.user_prompts[i].clone());
                proof {
                    assert(text::texts(messages@) =~= before.push(all[i as int]));
                    assert(all.subrange(start as int, i + 1) =~= all.subrange(
                        start as int,
                        i as int,
                    ).push(all[i as int]));
                }
                i += 1;
            }
            Ok(MessagePage { messages, offset, total })
        },
    }
}

/// Pages of one size, one behind the other, give all messages: what a page leaves out
/// comes on the next.
pub proof fn pages_cover_the_messages(messages: Seq<Seq<char>>, offset: int, limit: int)
    requires
        0 <= offset <= messages.len(),
        0 < limit,
    ensures
        messages.skip(offset) == page_of(messages, offset, limit) + messages.skip(
            if offset + limit < messages.len() {
                offset + limit
            } else {
                messages.len() as int
            },
        ),
        page_of(messages, offset, limit).len() <= limit,
{
    assert(messages.skip(offset) =~= page_of(messages, offset, limit) + messages.skip(
        if offset + limit < messages.len() {
            offset + limit
        } else {
            messages.len() as int
        },
    ));
}

/// A page holds the messages from its offset on, in their order: as many as asked for, or
/// as there are left.
pub proof fn pages_start_at_their_offset(messages: Seq<Seq<char>>, offset: int, limit: int, i: int)
    requires
        0 <= offset,
        0 <= limit,
    ensures
        offset + limit <= messages.len() ==> page_of(messages, offset, limit).len() == limit,
        offset <= messages.len() < offset + limit ==> page_of(messages, offset, limit).len()
            == messages.len() - offset,
        offset > messages.len() ==> page_of(messages, offset, limit).len() == 0,
        0 <= i < page_of(messages, offset, limit).len() ==> page_of(messages, offset, limit)[i]
            == messages[offset + i],
{
}

} // verus!
