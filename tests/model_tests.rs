use mine_kb::models::conversation::{Conversation, ConversationValidationError, Message, MessageRole};
use mine_kb::models::document::{Document, DocumentChunk, DocumentValidationError, ProcessingStatus};
use mine_kb::models::project::{Project, ProjectStatus, ProjectValidationError};
use mine_kb::api::{ConversationResponse, ProjectResponse, DocumentResponse};
use uuid::Uuid;

#[test]
fn test_conversation_creation() {
    let project_id = Uuid::new_v4().to_string();
    let conversation = Conversation::new(project_id.clone(), Some("Test Conversation".to_string()));
    assert!(conversation.is_ok());
    let conversation = conversation.unwrap();
    assert_eq!(conversation.project_id, project_id);
    assert_eq!(conversation.title, "Test Conversation");
    assert_eq!(conversation.message_count, 0);
}

#[test]
fn test_conversation_default_title() {
    let project_id = Uuid::new_v4().to_string();
    let conversation = Conversation::new(project_id, None).unwrap();
    assert!(conversation.title.starts_with("Conversation"));
    assert!(conversation.title.len() > 12);
}

#[test]
fn test_conversation_validation() {
    let project_id = Uuid::new_v4().to_string();
    let result = Conversation::new(project_id.clone(), Some("".to_string()));
    assert!(result.is_err());
    let result = Conversation::new(project_id, Some("a".repeat(201)));
    assert!(result.is_err());
}

#[test]
fn test_message_creation() {
    let conversation_id = Uuid::new_v4().to_string();
    let message = Message::new_user_message(conversation_id.clone(), "Hello, AI!".to_string());
    assert!(message.is_ok());
    let message = message.unwrap();
    assert_eq!(message.conversation_id, conversation_id);
    assert_eq!(message.role, MessageRole::User);
    assert_eq!(message.content, "Hello, AI!");
    assert!(message.token_count > 0);

    let context_chunks = vec![Uuid::new_v4().to_string()];
    let message = Message::new_assistant_message(
        conversation_id,
        "Hello, human!".to_string(),
        context_chunks.clone(),
        Some(1500),
    );
    assert!(message.is_ok());
    let message = message.unwrap();
    assert_eq!(message.role, MessageRole::Assistant);
    assert_eq!(message.context_chunks, context_chunks);
    assert_eq!(message.processing_time_ms, Some(1500));
}

#[test]
fn test_message_validation() {
    let conversation_id = Uuid::new_v4().to_string();
    let result = Message::new_user_message(conversation_id.clone(), "".to_string());
    assert!(result.is_err());
    let result = Message::new_user_message(conversation_id.clone(), "a".repeat(10001));
    assert!(result.is_err());
    let result = Message::new_system_message(conversation_id, "".to_string());
    assert!(result.is_ok());
}

#[test]
fn test_conversation_message_count() {
    let project_id = Uuid::new_v4().to_string();
    let mut conversation = Conversation::new(project_id, None).unwrap();
    assert_eq!(conversation.message_count, 0);
    conversation.increment_message_count();
    assert_eq!(conversation.message_count, 1);
    conversation.update_message_count(5);
    assert_eq!(conversation.message_count, 5);
}

#[test]
fn test_message_context_chunks() {
    let conversation_id = Uuid::new_v4().to_string();
    let mut message = Message::new_user_message(conversation_id, "Test".to_string()).unwrap();
    let chunk_id = Uuid::new_v4().to_string();
    message.add_context_chunk(chunk_id.clone());
    assert_eq!(message.context_chunks.len(), 1);
    assert_eq!(message.context_chunks[0], chunk_id);
    message.add_context_chunk(chunk_id);
    assert_eq!(message.context_chunks.len(), 1);
}

#[test]
fn test_document_creation() {
    let project_id = Uuid::new_v4().to_string();
    let document = Document::new(project_id.clone(), "/path/to/test.txt".to_string(), 1024, "hash123".to_string());
    assert!(document.is_ok());
    let document = document.unwrap();
    assert_eq!(document.project_id, project_id);
    assert_eq!(document.filename, "test.txt");
    assert_eq!(document.mime_type, "text/plain");
    assert_eq!(document.processing_status, ProcessingStatus::Uploaded);
}

#[test]
fn test_document_validation() {
    let project_id = Uuid::new_v4().to_string();
    let result = Document::new(project_id.clone(), "/path/to/large.txt".to_string(), 100 * 1024 * 1024, "hash".to_string());
    assert!(result.is_err());
    let result = Document::new(project_id, "/path/to/file.exe".to_string(), 1024, "hash".to_string());
    assert!(result.is_err());
}

#[test]
fn unsupported_type_names_the_extension() {
    let r = Document::new("p".to_string(), "/path/to/file.EXE".to_string(), 1024, "hash".to_string());
    assert_eq!(r.unwrap_err(), DocumentValidationError::UnsupportedFileType("exe".to_string()));
    let r = Document::new("p".to_string(), "/path/to/noext".to_string(), 1024, "hash".to_string());
    assert_eq!(r.unwrap_err(), DocumentValidationError::UnsupportedFileType(String::new()));
}

#[test]
fn test_document_chunk_creation() {
    let document_id = Uuid::new_v4().to_string();
    let chunk = DocumentChunk::new(
        document_id.clone(),
        0,
        "This is a test chunk with enough content to be valid.".to_string(),
        0,
        50,
    );
    assert!(chunk.is_ok());
    let chunk = chunk.unwrap();
    assert_eq!(chunk.document_id, document_id);
    assert_eq!(chunk.chunk_index, 0);
    assert!(chunk.token_count >= 10);
}

#[test]
fn test_chunk_validation() {
    let document_id = Uuid::new_v4().to_string();
    let result = DocumentChunk::new(document_id.clone(), 0, "".to_string(), 0, 10);
    assert!(result.is_err());
    let result = DocumentChunk::new(document_id, 0, "Valid content".to_string(), 10, 5);
    assert!(result.is_err());
}

#[test]
fn test_mime_type_detection() {
    assert_eq!(Document::detect_mime_type("test.txt").unwrap(), "text/plain");
    assert_eq!(Document::detect_mime_type("test.md").unwrap(), "text/markdown");
    assert_eq!(Document::detect_mime_type("test.pdf").unwrap(), "application/pdf");
    assert!(Document::detect_mime_type("test.exe").is_err());
}

#[test]
fn test_project_creation() {
    let project = Project::new("Test Project".to_string(), Some("A test project".to_string()));
    assert!(project.is_ok());
    let project = project.unwrap();
    assert_eq!(project.name, "Test Project");
    assert_eq!(project.description, Some("A test project".to_string()));
    assert_eq!(project.status, ProjectStatus::Created);
    assert_eq!(project.document_count, 0);
}

#[test]
fn test_project_validation() {
    let result = Project::new("".to_string(), None);
    assert!(result.is_err());
    let result = Project::new("a".repeat(101), None);
    assert!(result.is_err());
    let result = Project::new("Valid Name".to_string(), Some("a".repeat(501)));
    assert!(result.is_err());
}

#[test]
fn test_project_response_conversion() {
    let project = Project::new("Test Project".to_string(), None).unwrap();
    let response = ProjectResponse::from_project(project);
    assert_eq!(response.name, "Test Project");
    assert_eq!(response.status, "Created");
    assert!(response.id.len() > 0);
}

#[test]
fn project_ids_are_uuids_and_times_are_rfc3339() {
    let project = Project::new("P".to_string(), None).unwrap();
    assert!(Uuid::parse_str(&project.id).is_ok());
    let response = ProjectResponse::from_project(project);
    assert!(response.created_at.contains('T'));
    assert!(chrono::DateTime::parse_from_rfc3339(&response.created_at).is_ok());
}

#[test]
fn conversation_response_keeps_title() {
    let c = Conversation::new(Uuid::new_v4().to_string(), Some("Test".to_string())).unwrap();
    let r = ConversationResponse::from_conversation(c);
    assert_eq!(r.title, "Test");
    assert!(r.id.len() > 0);
}

#[test]
fn document_response_names_status() {
    let d = Document::new("p".to_string(), "/a/b/notes.md".to_string(), 10, "h".to_string()).unwrap();
    let r = DocumentResponse::from_document(d);
    assert_eq!(r.processing_status, "Uploaded");
    assert_eq!(r.filename, "notes.md");
}

#[test]
fn empty_file_is_rejected() {
    let r = Document::new("p".to_string(), "/x/empty.txt".to_string(), 0, "h".to_string());
    assert_eq!(r.unwrap_err(), DocumentValidationError::EmptyFile);
}

#[test]
fn file_one_byte_over_the_limit_is_rejected() {
    let r = Document::new("p".to_string(), "/x/big.txt".to_string(), 50 * 1024 * 1024 + 1, "h".to_string());
    assert_eq!(r.unwrap_err(), DocumentValidationError::FileTooLarge);
    let r = Document::new("p".to_string(), "/x/big.txt".to_string(), 50 * 1024 * 1024, "h".to_string());
    assert!(r.is_ok());
}

#[test]
fn exe_is_an_unsupported_format() {
    let r = Document::new("p".to_string(), "/x/tool.exe".to_string(), 10, "h".to_string());
    assert_eq!(r.unwrap_err(), DocumentValidationError::UnsupportedFileType("exe".to_string()));
    let r = Document::new("p".to_string(), "/x/README.MD".to_string(), 10, "h".to_string());
    assert_eq!(r.unwrap().mime_type, "text/markdown");
}

#[test]
fn document_errors_each_have_an_input() {
    assert_eq!(Document::new("p".to_string(), "/".to_string(), 10, "h".to_string()).unwrap_err(), DocumentValidationError::InvalidFilePath);
    assert_eq!(Document::new("p".to_string(), "/x/ ".to_string(), 10, "h".to_string()).unwrap_err(), DocumentValidationError::EmptyFilename);
    let long = format!("/x/{}.txt", "n".repeat(300));
    assert_eq!(Document::new("p".to_string(), long, 10, "h".to_string()).unwrap_err(), DocumentValidationError::FilenameTooLong);
    assert_eq!(DocumentChunk::new("d".to_string(), 0, "short".to_string(), 0, 5).unwrap_err(), DocumentValidationError::InvalidTokenCount);
    assert_eq!(DocumentChunk::new("d".to_string(), 0, " ".to_string(), 0, 5).unwrap_err(), DocumentValidationError::EmptyChunkContent);
    assert_eq!(DocumentChunk::new("d".to_string(), 0, "long enough content for ten tokens here".to_string(), 5, 5).unwrap_err(), DocumentValidationError::InvalidOffsets);
}

#[test]
fn empty_user_message_is_rejected() {
    let r = Message::new_user_message("c".to_string(), "   ".to_string());
    assert_eq!(r.unwrap_err(), ConversationValidationError::EmptyMessageContent);
}

#[test]
fn message_length_limit_is_ten_thousand_characters() {
    assert!(Message::new_user_message("c".to_string(), "a".repeat(10000)).is_ok());
    let r = Message::new_user_message("c".to_string(), "a".repeat(10001));
    assert_eq!(r.unwrap_err(), ConversationValidationError::MessageTooLong);
    assert_eq!(Message::new_user_message("c".to_string(), "a".repeat(10000)).unwrap().token_count, 2500);
}

#[test]
fn conversation_title_errors() {
    assert_eq!(Conversation::new("p".to_string(), Some(" ".to_string())).unwrap_err(), ConversationValidationError::EmptyTitle);
    assert_eq!(Conversation::new("p".to_string(), Some("t".repeat(201))).unwrap_err(), ConversationValidationError::TitleTooLong);
    assert!(Conversation::new("p".to_string(), Some("t".repeat(200))).is_ok());
}

#[test]
fn project_errors_and_updates() {
    assert_eq!(Project::new(" ".to_string(), None).unwrap_err(), ProjectValidationError::EmptyName);
    assert_eq!(Project::new("n".repeat(101), None).unwrap_err(), ProjectValidationError::NameTooLong);
    assert_eq!(Project::new("ok".to_string(), Some("d".repeat(501))).unwrap_err(), ProjectValidationError::DescriptionTooLong);
    let mut p = Project::new("ok".to_string(), None).unwrap();
    p.update_status(ProjectStatus::Processing);
    assert_eq!(p.status, ProjectStatus::Processing);
    assert_eq!(p.update_name("".to_string()), Err(ProjectValidationError::EmptyName));
    assert_eq!(p.name, "ok");
    assert_eq!(p.update_name("new".to_string()), Ok(()));
    assert_eq!(p.name, "new");
}

#[test]
fn status_names() {
    assert_eq!(ProcessingStatus::Indexed.to_string(), "Indexed");
    assert_eq!(ProjectStatus::Ready.to_string(), "Ready");
    assert_eq!(MessageRole::Assistant.to_string(), "Assistant");
    assert_eq!(MessageRole::Assistant.wire_name(), "assistant");
}
