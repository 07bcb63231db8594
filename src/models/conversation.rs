//! Conversations and their messages.
use vstd::prelude::*;
use crate::ids::{new_id, now_millis, parses_as_uuid};
use crate::text::{strings_view, is_blank, is_blank_str, chars_of, push_text};
use crate::models::document::tokens_for;

verus! {

pub const MAX_TITLE_CHARS: usize = 200;
pub const MAX_MESSAGE_CHARS: usize = 10000;

#[derive(Debug, Clone, Copy, PartialEq, Eq, Structural)]
pub enum MessageRole {
    User,
    Assistant,
    System,
}

pub open spec fn role_name(r: MessageRole) -> Seq<char> {
    match r {
        MessageRole::User => "User"@,
        MessageRole::Assistant => "Assistant"@,
        MessageRole::System => "System"@,
    }
}

pub open spec fn role_wire_name(r: MessageRole) -> Seq<char> {
    match r {
        MessageRole::User => "user"@,
        MessageRole::Assistant => "assistant"@,
        MessageRole::System => "system"@,
    }
}

impl MessageRole {
    /// The role's name, as stored.
    pub fn to_string(&self) -> (r: String)
        ensures
            r@ == role_name(*self),
    {
        match self {
            MessageRole::User => "User".to_string(),
            MessageRole::Assistant => "Assistant".to_string(),
            MessageRole::System => "System".to_string(),
        }
    }

    /// The role's name in lower case, as chat endpoints expect it.
    pub fn wire_name(&self) -> (r: String)
        ensures
            r@ == role_wire_name(*self),
    {
        match self {
            MessageRole::User => "user".to_string(),
            MessageRole::Assistant => "assistant".to_string(),
            MessageRole::System => "system".to_string(),
        }
    }
}

#[derive(Debug, Clone, Copy, PartialEq, Eq, Structural)]
pub enum ConversationValidationError {
    EmptyTitle,
    TitleTooLong,
    EmptyMessageContent,
    MessageTooLong,
}

impl ConversationValidationError {
    /// The error's text, as shown to users.
    pub fn message(&self) -> (r: String)
        ensures
            *self == ConversationValidationError::EmptyTitle ==> r@ == "Conversation title cannot be empty"@,
            *self == ConversationValidationError::TitleTooLong ==> r@ == "Conversation title cannot exceed 200 characters"@,
            *self == ConversationValidationError::EmptyMessageContent ==> r@ == "Message content cannot be empty"@,
            *self == ConversationValidationError::MessageTooLong ==> r@ == "Message content cannot exceed 10000 characters"@,
    {
        match self {
            ConversationValidationError::EmptyTitle => "Conversation title cannot be empty".to_string(),
            ConversationValidationError::TitleTooLong => "Conversation title cannot exceed 200 characters".to_string(),
            ConversationValidationError::EmptyMessageContent => "Message content cannot be empty".to_string(),
            ConversationValidationError::MessageTooLong => "Message content cannot exceed 10000 characters".to_string(),
        }
    }
}

/// The error a title gets, if any: not blank, at most 200 characters.
pub open spec fn title_error(t: Seq<char>) -> Option<ConversationValidationError> {
    if is_blank(t) {
        Some(ConversationValidationError::EmptyTitle)
    } else if t.len() > MAX_TITLE_CHARS {
        Some(ConversationValidationError::TitleTooLong)
    } else {
        None
    }
}

/// The error message content gets, if any: user and assistant messages must not be blank, and
/// no message holds more than 10000 characters.
pub open spec fn content_error(c: Seq<char>, role: MessageRole) -> Option<ConversationValidationError> {
    if role != MessageRole::System && is_blank(c) {
        Some(ConversationValidationError::EmptyMessageContent)
    } else if c.len() > MAX_MESSAGE_CHARS {
        Some(ConversationValidationError::MessageTooLong)
    } else {
        None
    }
}

/// A source a reply drew on, with its relevance in hundredths.
#[derive(Debug, Clone)]
pub struct ContextChunk {
    pub document_id: String,
    pub filename: String,
    pub content: String,
    pub relevance: u32,
}

#[derive(Debug, Clone)]
pub struct Conversation {
    pub id: String,
    pub project_id: String,
    pub title: String,
    /// Milliseconds since the Unix epoch.
    pub created_at: i64,
    pub updated_at: i64,
    pub message_count: u32,
}

/// The clock reading `ms` written as `YYYY-MM-DD HH:MM:SS` (UTC).
pub uninterp spec fn datetime_text(ms: i64) -> Seq<char>;

/// Relies on `chrono::DateTime::from_timestamp_millis` and `format("%Y-%m-%d %H:%M:%S")`:
/// the text depends on the instant alone; an instant out of chrono's range gives an empty
/// text. Years lie within about 262 000 of year 0 and are written with at most a sign and six
/// digits, so the text holds at most 22 characters.
#[verifier::external_body]
fn format_datetime(ms: i64) -> (r: String)
    ensures
        r@ == datetime_text(ms),
        r@.len() <= 22,
{
    match chrono::DateTime::from_timestamp_millis(ms) {
        Some(t) => t.format("%Y-%m-%d %H:%M:%S").to_string(),
        None => String::new(),
    }
}

/// The title a conversation gets when none is given.
pub open spec fn default_title(ms: i64) -> Seq<char> {
    "Conversation "@ + datetime_text(ms)
}

impl Conversation {
    pub open spec fn wf(&self) -> bool {
        &&& parses_as_uuid(self.id@)
        &&& parses_as_uuid(self.project_id@)
        &&& title_error(self.title@) is None
    }

    /// A new conversation of `project_id`; without a title, one is made from the clock.
    pub fn new(project_id: String, title: Option<String>) -> (r: Result<Conversation, ConversationValidationError>)
        ensures
            title matches Some(t) ==> (title_error(t@) matches Some(e) ==> r == Err::<Conversation, _>(e)),
            title matches Some(t) ==> (title_error(t@) is None ==> (r matches Ok(c) && c.title == t
                && c.project_id == project_id && c.message_count == 0 && parses_as_uuid(c.id@))),
            title is None ==> (r matches Ok(c) && c.title@ == default_title(c.created_at)),
            r matches Ok(c) ==> c.project_id == project_id && c.message_count == 0 && parses_as_uuid(c.id@)
                && title_error(c.title@) is None && c.created_at == c.updated_at,
    {
        let now = now_millis();
        let title = match title {
            Some(t) => t,
            None => {
                let t = Self::generate_default_title(now);
                proof {
                    reveal_strlit("Conversation ");
                    assert(t@[0] == 'C');
                    assert(!is_blank(t@));
                }
                t
            },
        };
        Self::validate_title(&title)?;
        Ok(Conversation { id: new_id(), project_id, title, created_at: now, updated_at: now, message_count: 0 })
    }

    pub fn update_title(&mut self, title: String) -> (r: Result<(), ConversationValidationError>)
        ensures
            title_error(title@) matches Some(e) ==> r == Err::<(), _>(e) && *final(self) == *old(self),
            title_error(title@) is None ==> r is Ok && final(self).title == title && final(self).id == old(self).id
                && final(self).project_id == old(self).project_id && final(self).message_count == old(self).message_count,
    {
        Self::validate_title(&title)?;
        self.title = title;
        self.updated_at = now_millis();
        Ok(())
    }

    pub fn increment_message_count(&mut self)
        requires
            old(self).message_count < u32::MAX,
        ensures
            final(self).message_count == old(self).message_count + 1,
            final(self).id == old(self).id,
            final(self).project_id == old(self).project_id,
            final(self).title == old(self).title,
    {
        self.message_count = self.message_count + 1;
        self.updated_at = now_millis();
    }

    pub fn update_message_count(&mut self, count: u32)
        ensures
            final(self).message_count == count,
            final(self).id == old(self).id,
            final(self).project_id == old(self).project_id,
            final(self).title == old(self).title,
    {
        self.message_count = count;
        self.updated_at = now_millis();
    }

    pub fn validate_title(title: &str) -> (r: Result<(), ConversationValidationError>)
        ensures
            title_error(title@) matches Some(e) ==> r == Err::<(), _>(e),
            title_error(title@) is None ==> r is Ok,
    {
        if is_blank_str(title) {
            return Err(ConversationValidationError::EmptyTitle);
        }
        if chars_of(title).len() > MAX_TITLE_CHARS {
            return Err(ConversationValidationError::TitleTooLong);
        }
        Ok(())
    }

    pub fn generate_default_title(now: i64) -> (r: String)
        ensures
            r@ == default_title(now),
            r@.len() <= 35,
    {
        let mut t = "Conversation ".to_string();
        let d = format_datetime(now);
        push_text(&mut t, d.as_str());
        proof {
            reveal_strlit("Conversation ");
        }
        t
    }
}

/// What a source holds, as plain values.
pub struct SourceView {
    pub document_id: Seq<char>,
    pub filename: Seq<char>,
    pub content: Seq<char>,
    pub relevance: u32,
}

impl View for ContextChunk {
    type V = SourceView;

    open spec fn view(&self) -> SourceView {
        SourceView {
            document_id: self.document_id@,
            filename: self.filename@,
            content: self.content@,
            relevance: self.relevance,
        }
    }
}

pub open spec fn sources_view(s: Seq<ContextChunk>) -> Seq<SourceView> {
    s.map_values(|c: ContextChunk| c@)
}

/// What a message holds, as plain values.
pub struct MessageView {
    pub id: Seq<char>,
    pub conversation_id: Seq<char>,
    pub role: MessageRole,
    pub content: Seq<char>,
    pub timestamp: i64,
    pub token_count: u32,
    pub context_chunks: Seq<Seq<char>>,
    pub processing_time_ms: Option<u64>,
    pub sources: Option<Seq<SourceView>>,
}

impl View for Message {
    type V = MessageView;

    open spec fn view(&self) -> MessageView {
        MessageView {
            id: self.id@,
            conversation_id: self.conversation_id@,
            role: self.role,
            content: self.content@,
            timestamp: self.timestamp,
            token_count: self.token_count,
            context_chunks: strings_view(self.context_chunks@),
            processing_time_ms: self.processing_time_ms,
            sources: match self.sources {
                Some(v) => Some(sources_view(v@)),
                None => None,
            },
        }
    }
}

#[derive(Debug, Clone)]
pub struct Message {
    pub id: String,
    pub conversation_id: String,
    pub role: MessageRole,
    pub content: String,
    /// Milliseconds since the Unix epoch.
    pub timestamp: i64,
    pub token_count: u32,
    pub context_chunks: Vec<String>,
    /// Time taken to produce a reply, in milliseconds.
    pub processing_time_ms: Option<u64>,
    pub sources: Option<Vec<ContextChunk>>,
}

impl Message {
    pub open spec fn wf(&self) -> bool {
        &&& parses_as_uuid(self.id@)
        &&& parses_as_uuid(self.conversation_id@)
        &&& content_error(self.content@, self.role) is None
    }

    /// A new message of `role`; its token count is estimated from its length.
    pub fn new(conversation_id: String, role: MessageRole, content: String) -> (r: Result<Message, ConversationValidationError>)
        ensures
            content_error(content@, role) matches Some(e) ==> r == Err::<Message, _>(e),
            content_error(content@, role) is None ==> (r matches Ok(m) && {
                &&& m.conversation_id == conversation_id
                &&& m.role == role
                &&& m.content == content
                &&& m.token_count == tokens_for(content@.len())
                &&& m.context_chunks@.len() == 0
                &&& m.processing_time_ms is None
                &&& m.sources is None
                &&& parses_as_uuid(m.id@)
            }),
    {
        Self::validate_content(&content, role)?;
        let tokens = Self::estimate_token_count(&content);
        Ok(Message {
            id: new_id(),
            conversation_id,
            role,
            content,
            timestamp: now_millis(),
            token_count: tokens,
            context_chunks: Vec::new(),
            processing_time_ms: None,
            sources: None,
        })
    }

    pub fn new_user_message(conversation_id: String, content: String) -> (r: Result<Message, ConversationValidationError>)
        ensures
            content_error(content@, MessageRole::User) matches Some(e) ==> r == Err::<Message, _>(e),
            content_error(content@, MessageRole::User) is None ==> (r matches Ok(m)
                && m.role == MessageRole::User && m.content == content && m.conversation_id == conversation_id),
    {
        Self::new(conversation_id, MessageRole::User, content)
    }

    pub fn new_assistant_message(conversation_id: String, content: String, context_chunks: Vec<String>, processing_time_ms: Option<u64>) -> (r: Result<Message, ConversationValidationError>)
        ensures
            content_error(content@, MessageRole::Assistant) matches Some(e) ==> r == Err::<Message, _>(e),
            content_error(content@, MessageRole::Assistant) is None ==> (r matches Ok(m)
                && m.role == MessageRole::Assistant && m.content == content && m.conversation_id == conversation_id
                && m.context_chunks == context_chunks && m.processing_time_ms == processing_time_ms),
    {
        let mut m = Self::new(conversation_id, MessageRole::Assistant, content)?;
        m.context_chunks = context_chunks;
        m.processing_time_ms = processing_time_ms;
        Ok(m)
    }

    pub fn new_system_message(conversation_id: String, content: String) -> (r: Result<Message, ConversationValidationError>)
        ensures
            content_error(content@, MessageRole::System) matches Some(e) ==> r == Err::<Message, _>(e),
            content_error(content@, MessageRole::System) is None ==> (r matches Ok(m)
                && m.role == MessageRole::System && m.content == content && m.conversation_id == conversation_id),
    {
        Self::new(conversation_id, MessageRole::System, content)
    }

    pub fn set_sources(&mut self, sources: Vec<ContextChunk>)
        ensures
            final(self).sources == Some(sources),
            final(self).id == old(self).id,
            final(self).content == old(self).content,
            final(self).role == old(self).role,
    {
        self.sources = Some(sources);
    }

    /// Records a chunk the message drew on, once.
    pub fn add_context_chunk(&mut self, chunk_id: String)
        ensures
            strings_view(old(self).context_chunks@).contains(chunk_id@) ==> final(self).context_chunks@ == old(self).context_chunks@,
            !strings_view(old(self).context_chunks@).contains(chunk_id@) ==> final(self).context_chunks@ == old(self).context_chunks@.push(chunk_id),
            final(self).id == old(self).id,
            final(self).content == old(self).content,
    {
        let mut i: usize = 0;
        while i < self.context_chunks.len()
            invariant
                i <= self.context_chunks.len(),
                self.context_chunks == old(self).context_chunks,
                self.id == old(self).id,
                self.content == old(self).content,
                forall|k: int| 0 <= k < i ==> self.context_chunks@[k]@ != chunk_id@,
            decreases self.context_chunks.len() - i,
        {
            if crate::text::str_eq(self.context_chunks[i].as_str(), chunk_id.as_str()) {
                proof {
                    assert(strings_view(self.context_chunks@)[i as int] == chunk_id@);
                }
                return;
            }
            i = i + 1;
        }
        proof {
            assert forall|k: int| 0 <= k < self.context_chunks.len() implies strings_view(self.context_chunks@)[k] != chunk_id@ by {}
        }
        self.context_chunks.push(chunk_id);
    }

    pub fn set_processing_time(&mut self, ms: u64)
        ensures
            final(self).processing_time_ms == Some(ms),
            final(self).id == old(self).id,
            final(self).content == old(self).content,
    {
        self.processing_time_ms = Some(ms);
    }

    pub fn validate_content(content: &str, role: MessageRole) -> (r: Result<(), ConversationValidationError>)
        ensures
            content_error(content@, role) matches Some(e) ==> r == Err::<(), _>(e),
            content_error(content@, role) is None ==> r is Ok,
    {
        if role != MessageRole::System && is_blank_str(content) {
            return Err(ConversationValidationError::EmptyMessageContent);
        }
        if chars_of(content).len() > MAX_MESSAGE_CHARS {
            return Err(ConversationValidationError::MessageTooLong);
        }
        Ok(())
    }

    /// Estimated tokens of a message: its characters divided by four, rounded up.
    pub fn estimate_token_count(content: &str) -> (r: u32)
        requires
            content@.len() <= MAX_MESSAGE_CHARS,
        ensures
            r == tokens_for(content@.len()),
    {
        let n = chars_of(content).len();
        (n / 4 + if n % 4 == 0 { 0 } else { 1 }) as u32
    }
}

} // verus!
