//! Rows exchanged with the database engine, and their mapping to the library's records.
//! Rows without a valid identifier are skipped when loading.
use vstd::prelude::*;
use crate::ids::{is_uuid, parses_as_uuid};
use crate::models::project::{Project, ProjectStatus, project_status_name};
use crate::models::conversation::{Conversation, Message, MessageRole, role_name};
use crate::store::ChunkRow;
use crate::text::str_eq;

verus! {

/// A scalar of a row.
#[derive(Debug, Clone)]
pub enum SqlValue {
    Null,
    Int(i64),
    Text(String),
}

/// A scalar as plain values.
pub enum SqlView {
    Null,
    Int(i64),
    Text(Seq<char>),
}

pub open spec fn sql_view(v: SqlValue) -> SqlView {
    match v {
        SqlValue::Null => SqlView::Null,
        SqlValue::Int(i) => SqlView::Int(i),
        SqlValue::Text(s) => SqlView::Text(s@),
    }
}

pub open spec fn row_view(r: Seq<SqlValue>) -> Seq<SqlView> {
    r.map_values(|v: SqlValue| sql_view(v))
}

/// The text of a scalar; other scalars read as empty text.
pub open spec fn text_of(v: SqlView) -> Seq<char> {
    match v {
        SqlView::Text(s) => s,
        _ => Seq::empty(),
    }
}

/// The project status a stored name stands for; unknown names read as `Created`.
pub open spec fn status_from_name(s: Seq<char>) -> ProjectStatus {
    if s == "Processing"@ {
        ProjectStatus::Processing
    } else if s == "Ready"@ {
        ProjectStatus::Ready
    } else if s == "Error"@ {
        ProjectStatus::Error
    } else {
        ProjectStatus::Created
    }
}

/// The role a stored name stands for, in either case; unknown names read as `User`.
pub open spec fn role_from_name(s: Seq<char>) -> MessageRole {
    if s == "Assistant"@ || s == "assistant"@ {
        MessageRole::Assistant
    } else if s == "System"@ || s == "system"@ {
        MessageRole::System
    } else {
        MessageRole::User
    }
}

pub fn parse_project_status(s: &str) -> (r: ProjectStatus)
    ensures
        r == status_from_name(s@),
{
    if str_eq(s, "Processing") {
        ProjectStatus::Processing
    } else if str_eq(s, "Ready") {
        ProjectStatus::Ready
    } else if str_eq(s, "Error") {
        ProjectStatus::Error
    } else {
        ProjectStatus::Created
    }
}

pub fn parse_role(s: &str) -> (r: MessageRole)
    ensures
        r == role_from_name(s@),
{
    if str_eq(s, "Assistant") || str_eq(s, "assistant") {
        MessageRole::Assistant
    } else if str_eq(s, "System") || str_eq(s, "system") {
        MessageRole::System
    } else {
        MessageRole::User
    }
}

/// A project's values, as a row of `projects` holds them.
pub type ProjectFields = (Seq<char>, Seq<char>, Option<Seq<char>>, ProjectStatus, u32, i64, i64);

pub open spec fn project_fields(p: Project) -> ProjectFields {
    (p.id@, p.name@, match p.description { Some(d) => Some(d@), None => None }, p.status,
        p.document_count, p.created_at, p.updated_at)
}

/// The row of `projects` for a project: id, name, description (empty when absent), status,
/// document count, creation and update times.
pub open spec fn encode_project(p: Project) -> Seq<SqlView> {
    seq![
        SqlView::Text(p.id@),
        SqlView::Text(p.name@),
        SqlView::Text(match p.description { Some(d) => d@, None => Seq::empty() }),
        SqlView::Text(project_status_name(p.status)),
        SqlView::Int(p.document_count as i64),
        SqlView::Int(p.created_at),
        SqlView::Int(p.updated_at),
    ]
}

/// What a row of `projects` holds, or nothing when it is short or lacks a valid identifier.
/// An empty description reads as none; an out-of-range count as 0; a missing update time as
/// the creation time.
pub open spec fn decode_project(row: Seq<SqlView>) -> Option<ProjectFields> {
    if row.len() < 7 || text_of(row[0]).len() == 0 || !parses_as_uuid(text_of(row[0])) {
        None
    } else {
        let created = match row[5] { SqlView::Int(t) => t, _ => 0 };
        Some((
            text_of(row[0]),
            text_of(row[1]),
            if text_of(row[2]).len() == 0 { None } else { Some(text_of(row[2])) },
            status_from_name(text_of(row[3])),
            match row[4] { SqlView::Int(n) => if 0 <= n <= u32::MAX { n as u32 } else { 0 }, _ => 0 },
            created,
            match row[6] { SqlView::Int(t) => t, _ => created },
        ))
    }
}

fn text_at(row: &Vec<SqlValue>, i: usize) -> (r: String)
    requires
        i < row.len(),
    ensures
        r@ == text_of(sql_view(row@[i as int])),
{
    match &row[i] {
        SqlValue::Text(s) => s.clone(),
        _ => String::new(),
    }
}

pub fn project_to_row(p: &Project) -> (r: Vec<SqlValue>)
    ensures
        row_view(r@) == encode_project(*p),
{
    let desc = match &p.description {
        Some(d) => d.clone(),
        None => String::new(),
    };
    let r = vec![
        SqlValue::Text(p.id.clone()),
        SqlValue::Text(p.name.clone()),
        SqlValue::Text(desc),
        SqlValue::Text(p.status.to_string()),
        SqlValue::Int(p.document_count as i64),
        SqlValue::Int(p.created_at),
        SqlValue::Int(p.updated_at),
    ];
    proof {
        assert(row_view(r@) =~= encode_project(*p));
    }
    r
}

pub fn project_from_row(row: &Vec<SqlValue>) -> (r: Option<Project>)
    ensures
        match decode_project(row_view(row@)) {
            None => r is None,
            Some(f) => r matches Some(p) && project_fields(p) == f,
        },
{
    let ghost rv = row_view(row@);
    if row.len() < 7 {
        return None;
    }
    proof {
        assert(rv[0] == sql_view(row@[0]));
        assert(rv[1] == sql_view(row@[1]));
        assert(rv[2] == sql_view(row@[2]));
        assert(rv[3] == sql_view(row@[3]));
        assert(rv[4] == sql_view(row@[4]));
        assert(rv[5] == sql_view(row@[5]));
        assert(rv[6] == sql_view(row@[6]));
    }
    let id = text_at(row, 0);
    if id.as_str().is_empty() || !is_uuid(id.as_str()) {
        return None;
    }
    let name = text_at(row, 1);
    let d = text_at(row, 2);
    let description = if d.as_str().is_empty() { None } else { Some(d) };
    let status = parse_project_status(text_at(row, 3).as_str());
    let document_count: u32 = match &row[4] {
        SqlValue::Int(n) => if 0 <= *n && *n <= u32::MAX as i64 { *n as u32 } else { 0 },
        _ => 0,
    };
    let created_at: i64 = match &row[5] {
        SqlValue::Int(t) => *t,
        _ => 0,
    };
    let updated_at: i64 = match &row[6] {
        SqlValue::Int(t) => *t,
        _ => created_at,
    };
    Some(Project { id, name, description, created_at, updated_at, document_count, status })
}

/// Writing a project's row and reading it back gives the project again, when its identifier
/// is valid and its description, if any, is not empty.
pub proof fn lemma_project_row_round_trip(p: Project)
    requires
        parses_as_uuid(p.id@),
        p.id@.len() > 0,
        p.description matches Some(d) ==> d@.len() > 0,
    ensures
        decode_project(encode_project(p)) == Some(project_fields(p)),
{
    let row = encode_project(p);
    assert(text_of(row[3]) == project_status_name(p.status));
    reveal_strlit("Processing");
    reveal_strlit("Ready");
    reveal_strlit("Error");
    reveal_strlit("Created");
    assert("Created"@.len() == 7 && "Processing"@.len() == 10 && "Ready"@.len() == 5 && "Error"@.len() == 5);
    assert("Ready"@[0] != "Error"@[0]);
    match p.status {
        ProjectStatus::Created => {
            assert("Created"@ != "Processing"@ && "Created"@ != "Ready"@ && "Created"@ != "Error"@);
        },
        ProjectStatus::Processing => {},
        ProjectStatus::Ready => {
            assert("Ready"@ != "Processing"@);
        },
        ProjectStatus::Error => {
            assert("Error"@ != "Processing"@ && "Error"@ != "Ready"@);
        },
    }
    assert(status_from_name(project_status_name(p.status)) == p.status);
}

/// A message's values, as a row of `messages` holds them (without its sources).
pub type MessageFields = (Seq<char>, Seq<char>, MessageRole, Seq<char>, i64);

/// The row of `messages` for a message: id, conversation, role, content, time; the sources
/// column is written by the caller.
pub open spec fn encode_message(id: Seq<char>, cid: Seq<char>, role: MessageRole, content: Seq<char>, ts: i64) -> Seq<SqlView> {
    seq![SqlView::Text(id), SqlView::Text(cid), SqlView::Text(role_name(role)), SqlView::Text(content), SqlView::Int(ts)]
}

/// What a row of `messages` holds, or nothing when it is short or lacks valid identifiers.
pub open spec fn decode_message(row: Seq<SqlView>) -> Option<MessageFields> {
    if row.len() < 5 || text_of(row[0]).len() == 0 || !parses_as_uuid(text_of(row[0]))
        || !parses_as_uuid(text_of(row[1])) {
        None
    } else {
        Some((text_of(row[0]), text_of(row[1]), role_from_name(text_of(row[2])), text_of(row[3]),
            match row[4] { SqlView::Int(t) => t, _ => 0 }))
    }
}

pub fn message_fields_from_row(row: &Vec<SqlValue>) -> (r: Option<(String, String, MessageRole, String, i64)>)
    ensures
        match decode_message(row_view(row@)) {
            None => r is None,
            Some(f) => r matches Some(m) && (m.0@, m.1@, m.2, m.3@, m.4) == f,
        },
{
    let ghost rv = row_view(row@);
    if row.len() < 5 {
        return None;
    }
    proof {
        assert(rv[0] == sql_view(row@[0]));
        assert(rv[1] == sql_view(row@[1]));
        assert(rv[2] == sql_view(row@[2]));
        assert(rv[3] == sql_view(row@[3]));
        assert(rv[4] == sql_view(row@[4]));
    }
    let id = text_at(row, 0);
    if id.as_str().is_empty() || !is_uuid(id.as_str()) {
        return None;
    }
    let cid = text_at(row, 1);
    if !is_uuid(cid.as_str()) {
        return None;
    }
    let role = parse_role(text_at(row, 2).as_str());
    let content = text_at(row, 3);
    let ts: i64 = match &row[4] {
        SqlValue::Int(t) => *t,
        _ => 0,
    };
    Some((id, cid, role, content, ts))
}

} // verus!

verus! {

/// A conversation's values, as a row of `conversations` holds them.
pub type ConversationFields = (Seq<char>, Seq<char>, Seq<char>, i64, i64, u32);

pub open spec fn conversation_fields(c: Conversation) -> ConversationFields {
    (c.id@, c.project_id@, c.title@, c.created_at, c.updated_at, c.message_count)
}

/// The row of `conversations` for a conversation: id, project, title, creation and update
/// times, message count.
pub open spec fn encode_conversation(c: Conversation) -> Seq<SqlView> {
    seq![
        SqlView::Text(c.id@),
        SqlView::Text(c.project_id@),
        SqlView::Text(c.title@),
        SqlView::Int(c.created_at),
        SqlView::Int(c.updated_at),
        SqlView::Int(c.message_count as i64),
    ]
}

/// What a row of `conversations` holds, or nothing when it is short or lacks valid
/// identifiers. A missing update time reads as the creation time; an out-of-range count as 0.
pub open spec fn decode_conversation(row: Seq<SqlView>) -> Option<ConversationFields> {
    if row.len() < 6 || text_of(row[0]).len() == 0 || !parses_as_uuid(text_of(row[0]))
        || !parses_as_uuid(text_of(row[1])) {
        None
    } else {
        let created = match row[3] { SqlView::Int(t) => t, _ => 0 };
        Some((
            text_of(row[0]),
            text_of(row[1]),
            text_of(row[2]),
            created,
            match row[4] { SqlView::Int(t) => t, _ => created },
            match row[5] { SqlView::Int(n) => if 0 <= n <= u32::MAX { n as u32 } else { 0 }, _ => 0 },
        ))
    }
}

pub fn conversation_to_row(c: &Conversation) -> (r: Vec<SqlValue>)
    ensures
        row_view(r@) == encode_conversation(*c),
{
    let r = vec![
        SqlValue::Text(c.id.clone()),
        SqlValue::Text(c.project_id.clone()),
        SqlValue::Text(c.title.clone()),
        SqlValue::Int(c.created_at),
        SqlValue::Int(c.updated_at),
        SqlValue::Int(c.message_count as i64),
    ];
    proof {
        assert(row_view(r@) =~= encode_conversation(*c));
    }
    r
}

pub fn conversation_from_row(row: &Vec<SqlValue>) -> (r: Option<Conversation>)
    ensures
        match decode_conversation(row_view(row@)) {
            None => r is None,
            Some(f) => r matches Some(c) && conversation_fields(c) == f,
        },
{
    let ghost rv = row_view(row@);
    if row.len() < 6 {
        return None;
    }
    proof {
        assert(rv[0] == sql_view(row@[0]));
        assert(rv[1] == sql_view(row@[1]));
        assert(rv[2] == sql_view(row@[2]));
        assert(rv[3] == sql_view(row@[3]));
        assert(rv[4] == sql_view(row@[4]));
        assert(rv[5] == sql_view(row@[5]));
    }
    let id = text_at(row, 0);
    if id.as_str().is_empty() || !is_uuid(id.as_str()) {
        return None;
    }
    let project_id = text_at(row, 1);
    if !is_uuid(project_id.as_str()) {
        return None;
    }
    let title = text_at(row, 2);
    let created_at: i64 = match &row[3] {
        SqlValue::Int(t) => *t,
        _ => 0,
    };
    let updated_at: i64 = match &row[4] {
        SqlValue::Int(t) => *t,
        _ => created_at,
    };
    let message_count: u32 = match &row[5] {
        SqlValue::Int(n) => if 0 <= *n && *n <= u32::MAX as i64 { *n as u32 } else { 0 },
        _ => 0,
    };
    Some(Conversation { id, project_id, title, created_at, updated_at, message_count })
}

/// Writing a conversation's row and reading it back gives the conversation again.
pub proof fn lemma_conversation_row_round_trip(c: Conversation)
    requires
        parses_as_uuid(c.id@),
        parses_as_uuid(c.project_id@),
        c.id@.len() > 0,
    ensures
        decode_conversation(encode_conversation(c)) == Some(conversation_fields(c)),
{
}

/// Saves a project, replacing every column of a stored row with the same identifier.
pub const PROJECT_UPSERT: &'static str = "INSERT INTO projects (id, name, description, status, document_count, created_at, updated_at) VALUES (?, ?, ?, ?, ?, ?, ?) ON DUPLICATE KEY UPDATE name = VALUES(name), description = VALUES(description), status = VALUES(status), document_count = VALUES(document_count), created_at = VALUES(created_at), updated_at = VALUES(updated_at)";

/// Saves a conversation, replacing every column of a stored row with the same identifier.
pub const CONVERSATION_UPSERT: &'static str = "INSERT INTO conversations (id, project_id, title, created_at, updated_at, message_count) VALUES (?, ?, ?, ?, ?, ?) ON DUPLICATE KEY UPDATE project_id = VALUES(project_id), title = VALUES(title), created_at = VALUES(created_at), updated_at = VALUES(updated_at), message_count = VALUES(message_count)";

/// Inserts a message.
pub const MESSAGE_INSERT: &'static str = "INSERT INTO messages (id, conversation_id, role, content, created_at, sources) VALUES (?, ?, ?, ?, ?, ?)";

/// Replaces the columns of a stored message; its identifier is the last parameter.
pub const MESSAGE_UPDATE: &'static str = "UPDATE messages SET conversation_id = ?, role = ?, content = ?, created_at = ?, sources = ? WHERE id = ?";

/// Stores a chunk row, replacing a stored row with the same document and position.
pub const CHUNK_UPSERT: &'static str = "INSERT INTO vector_documents (id, project_id, document_id, chunk_index, content, embedding, metadata, created_at) VALUES (?, ?, ?, ?, ?, ?, ?, NOW()) ON DUPLICATE KEY UPDATE content = VALUES(content), embedding = VALUES(embedding), metadata = VALUES(metadata)";

/// The statement and parameters that save a project.
pub fn project_upsert(p: &Project) -> (r: (&'static str, Vec<SqlValue>))
    ensures
        r.0 == PROJECT_UPSERT,
        row_view(r.1@) == encode_project(*p),
{
    (PROJECT_UPSERT, project_to_row(p))
}

/// The statement and parameters that save a conversation.
pub fn conversation_upsert(c: &Conversation) -> (r: (&'static str, Vec<SqlValue>))
    ensures
        r.0 == CONVERSATION_UPSERT,
        row_view(r.1@) == encode_conversation(*c),
{
    (CONVERSATION_UPSERT, conversation_to_row(c))
}

/// The parameters of a message row: id, conversation, role, content, time, then the sources
/// column (`sources_json`, or null).
pub open spec fn message_params(id: Seq<char>, cid: Seq<char>, role: MessageRole, content: Seq<char>, ts: i64, sources: Option<Seq<char>>) -> Seq<SqlView> {
    encode_message(id, cid, role, content, ts).push(match sources {
        Some(s) => SqlView::Text(s),
        None => SqlView::Null,
    })
}

/// The statement and parameters that insert a message.
pub fn message_insert(m: &Message, sources_json: Option<String>) -> (r: (&'static str, Vec<SqlValue>))
    ensures
        r.0 == MESSAGE_INSERT,
        row_view(r.1@) == message_params(m.id@, m.conversation_id@, m.role, m.content@, m.timestamp,
            match sources_json { Some(s) => Some(s@), None => None }),
{
    let src = match sources_json {
        Some(s) => SqlValue::Text(s),
        None => SqlValue::Null,
    };
    let r = vec![
        SqlValue::Text(m.id.clone()),
        SqlValue::Text(m.conversation_id.clone()),
        SqlValue::Text(m.role.to_string()),
        SqlValue::Text(m.content.clone()),
        SqlValue::Int(m.timestamp),
        src,
    ];
    proof {
        assert(row_view(r@) =~= message_params(m.id@, m.conversation_id@, m.role, m.content@, m.timestamp,
            match sources_json { Some(s) => Some(s@), None => None }));
    }
    (MESSAGE_INSERT, r)
}

/// The statement and parameters that overwrite a stored message with the same identifier.
pub fn message_update(m: &Message, sources_json: Option<String>) -> (r: (&'static str, Vec<SqlValue>))
    ensures
        r.0 == MESSAGE_UPDATE,
        row_view(r.1@) == message_params(m.id@, m.conversation_id@, m.role, m.content@, m.timestamp,
            match sources_json { Some(s) => Some(s@), None => None }).drop_first().push(SqlView::Text(m.id@)),
{
    let (_, mut r) = message_insert(m, sources_json);
    let ghost before = row_view(r@);
    let _id = r.remove(0);
    r.push(SqlValue::Text(m.id.clone()));
    proof {
        assert(row_view(r@) =~= before.drop_first().push(SqlView::Text(m.id@)));
    }
    (MESSAGE_UPDATE, r)
}

/// What to do when inserting a message failed.
#[derive(Debug, Clone, Copy, PartialEq, Eq, Structural)]
pub enum InsertFallback {
    /// The identifier is already stored: overwrite that row.
    Update,
    /// Any other failure is the caller's error.
    Fail,
}

/// A failed insert falls back to an update when the engine reports a duplicate primary key.
pub open spec fn fallback_for(error: Seq<char>) -> InsertFallback {
    if crate::text::contains_seq(error, "Duplicated primary key"@) || crate::text::contains_seq(error, "1062"@) {
        InsertFallback::Update
    } else {
        InsertFallback::Fail
    }
}

pub fn insert_fallback(error: &str) -> (r: InsertFallback)
    ensures
        r == fallback_for(error@),
{
    if crate::text::str_contains(error, "Duplicated primary key") || crate::text::str_contains(error, "1062") {
        InsertFallback::Update
    } else {
        InsertFallback::Fail
    }
}

/// The row of `vector_documents` for a chunk row.
pub open spec fn encode_chunk(c: ChunkRow) -> Seq<SqlView> {
    seq![
        SqlView::Text(c.id@),
        SqlView::Text(c.project_id@),
        SqlView::Text(c.document_id@),
        SqlView::Int(c.chunk_index as i64),
        SqlView::Text(c.content@),
        SqlView::Text(c.embedding@),
        SqlView::Text(c.metadata@),
    ]
}

/// The statement and parameters that store a chunk row.
pub fn chunk_upsert(c: &ChunkRow) -> (r: (&'static str, Vec<SqlValue>))
    ensures
        r.0 == CHUNK_UPSERT,
        row_view(r.1@) == encode_chunk(*c),
{
    let r = vec![
        SqlValue::Text(c.id.clone()),
        SqlValue::Text(c.project_id.clone()),
        SqlValue::Text(c.document_id.clone()),
        SqlValue::Int(c.chunk_index as i64),
        SqlValue::Text(c.content.clone()),
        SqlValue::Text(c.embedding.clone()),
        SqlValue::Text(c.metadata.clone()),
    ];
    proof {
        assert(row_view(r@) =~= encode_chunk(*c));
    }
    (CHUNK_UPSERT, r)
}

/// The metadata of a chunk row: a JSON object with the file name and the chunk's offsets.
pub open spec fn chunk_metadata_text(filename: Seq<char>, start: u64, end: u64) -> Seq<char> {
    "{\"filename\":\""@ + crate::search::json_escape(filename) + "\",\"start_offset\":\""@
        + crate::llm::decimal_text(start as nat) + "\",\"end_offset\":\""@ + crate::llm::decimal_text(end as nat) + "\"}"@
}

pub fn chunk_metadata(filename: &str, start: u64, end: u64) -> (r: String)
    ensures
        r@ == chunk_metadata_text(filename@, start, end),
{
    let mut s = "{\"filename\":\"".to_string();
    crate::search::push_json_escaped(&mut s, filename);
    crate::text::push_text(&mut s, "\",\"start_offset\":\"");
    crate::llm::push_decimal(&mut s, start);
    crate::text::push_text(&mut s, "\",\"end_offset\":\"");
    crate::llm::push_decimal(&mut s, end);
    crate::text::push_text(&mut s, "\"}");
    s
}

} // verus!

verus! {

/// Counts the distinct documents with chunks in a project (its one parameter).
pub const COUNT_PROJECT_DOCUMENTS: &'static str = "SELECT COUNT(DISTINCT document_id) FROM vector_documents WHERE project_id = ?";

/// Sets a project's document count; the count comes first, the project second.
pub const UPDATE_DOCUMENT_COUNT: &'static str = "UPDATE projects SET document_count = ? WHERE id = ?";

/// The statement and parameters that set project `pid`'s document count to `count`.
pub fn document_count_update(pid: &str, count: u32) -> (r: (&'static str, Vec<SqlValue>))
    ensures
        r.0 == UPDATE_DOCUMENT_COUNT,
        row_view(r.1@) == seq![SqlView::Int(count as i64), SqlView::Text(pid@)],
{
    let r = vec![SqlValue::Int(count as i64), SqlValue::Text(pid.to_string())];
    proof {
        assert(row_view(r@) =~= seq![SqlView::Int(count as i64), SqlView::Text(pid@)]);
    }
    (UPDATE_DOCUMENT_COUNT, r)
}

} // verus!
