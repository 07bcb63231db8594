use mine_kb::ingest::{ingest_next, IngestAction, IngestEvent};
use mine_kb::api::{upload_report, DocumentResponse, UploadError};
use mine_kb::models::conversation::{Conversation, Message};
use mine_kb::rows::{chunk_metadata, conversation_from_row, conversation_upsert, insert_fallback, message_insert, message_update, project_upsert, InsertFallback};
use mine_kb::ingest::{complete_document, fail_document, stage_error, IngestStage};
use mine_kb::models::conversation::MessageRole;
use mine_kb::models::document::{Document, ProcessingStatus};
use mine_kb::models::project::{Project, ProjectStatus};
use mine_kb::rows::{message_fields_from_row, parse_role, project_from_row, project_to_row, SqlValue};
use mine_kb::search::{hybrid_search_envelope, hybrid_search_query, search_param_statement};

#[test]
fn envelope_with_project_filter() {
    let e = hybrid_search_envelope("say \"hi\"", "[0.1,0.2]", Some("p1"), 3, 70);
    assert_eq!(
        e,
        "{\"query\":{\"bool\":{\"must\":[{\"match\":{\"content\":\"say \\\"hi\\\"\"}}]}},\"knn\":{\"field\":\"embedding\",\"k\":3,\"num_candidates\":6,\"query_vector\":[0.1,0.2],\"boost\":0.70},\"filter\":{\"term\":{\"project_id\":\"p1\"}},\"_source\":[\"id\",\"project_id\",\"document_id\",\"chunk_index\",\"content\",\"metadata\",\"_keyword_score\",\"_semantic_score\"]}"
    );
    let parsed: serde_json::Value = serde_json::from_str(&e).unwrap();
    assert_eq!(parsed["knn"]["num_candidates"], 6);
    assert_eq!(parsed["query"]["bool"]["must"][0]["match"]["content"], "say \"hi\"");
}

#[test]
fn envelope_without_filter_parses() {
    let e = hybrid_search_envelope("bank account", "[]", None, 10, 100);
    let parsed: serde_json::Value = serde_json::from_str(&e).unwrap();
    assert!(parsed.get("filter").is_none());
    assert_eq!(parsed["knn"]["boost"], 1.0);
    assert_eq!(parsed["knn"]["k"], 10);
}

#[test]
fn search_statement_escapes_quotes() {
    assert_eq!(search_param_statement("it's"), "SET @search_param = 'it\\'s'");
    assert!(hybrid_search_query().contains("dbms_hybrid_search.search('vector_documents'"));
}

#[test]
fn project_rows_round_trip() {
    let mut p = Project::new("Name".to_string(), Some("Desc".to_string())).unwrap();
    p.status = ProjectStatus::Ready;
    p.document_count = 4;
    let row = project_to_row(&p);
    let back = project_from_row(&row).unwrap();
    assert_eq!(back.id, p.id);
    assert_eq!(back.name, p.name);
    assert_eq!(back.description, p.description);
    assert_eq!(back.status, ProjectStatus::Ready);
    assert_eq!(back.document_count, 4);
    assert_eq!(back.created_at, p.created_at);
    assert_eq!(back.updated_at, p.updated_at);
}

#[test]
fn rows_without_valid_ids_are_skipped() {
    let mut row = project_to_row(&Project::new("N".to_string(), None).unwrap());
    row[0] = SqlValue::Text("not-a-uuid".to_string());
    assert!(project_from_row(&row).is_none());
    row[0] = SqlValue::Text(String::new());
    assert!(project_from_row(&row).is_none());
    assert!(project_from_row(&vec![SqlValue::Null]).is_none());
}

#[test]
fn roles_are_read_in_either_case() {
    assert_eq!(parse_role("assistant"), MessageRole::Assistant);
    assert_eq!(parse_role("Assistant"), MessageRole::Assistant);
    assert_eq!(parse_role("system"), MessageRole::System);
    assert_eq!(parse_role("user"), MessageRole::User);
    assert_eq!(parse_role("other"), MessageRole::User);
    let id = uuid::Uuid::new_v4().to_string();
    let cid = uuid::Uuid::new_v4().to_string();
    let row = vec![
        SqlValue::Text(id.clone()),
        SqlValue::Text(cid),
        SqlValue::Text("assistant".to_string()),
        SqlValue::Text("hello".to_string()),
        SqlValue::Int(42),
    ];
    let m = message_fields_from_row(&row).unwrap();
    assert_eq!(m.0, id);
    assert_eq!(m.2, MessageRole::Assistant);
    assert_eq!(m.4, 42);
}

#[test]
fn failures_are_tagged_with_their_stage() {
    let mut d = Document::new("p".to_string(), "/x/a.txt".to_string(), 10, "h".to_string()).unwrap();
    fail_document(&mut d, IngestStage::Reading, "cannot read");
    assert_eq!(d.processing_status, ProcessingStatus::Failed);
    assert_eq!(d.error_message, Some("[阶段3-读取] cannot read".to_string()));
    assert!(d.processed_at.is_some());
    let (stage, _) = mine_kb::api::parse_error_stage(&stage_error(IngestStage::Embedding, "timeout"));
    assert_eq!(stage, "embedding");
    complete_document(&mut d, 3);
    assert_eq!(d.processing_status, ProcessingStatus::Indexed);
    assert_eq!(d.chunk_count, 3);
    assert_eq!(IngestStage::Validation.next(), Some(IngestStage::Metadata));
    assert_eq!(IngestStage::Indexing.next(), None);
}

#[test]
fn failed_retrieval_gives_empty_context() {
    let ok: Result<Vec<u32>, String> = Ok(vec![1, 2]);
    assert_eq!(mine_kb::search::context_or_empty(ok), vec![1, 2]);
    let failed: Result<Vec<u32>, String> = Err("down".to_string());
    assert!(mine_kb::search::context_or_empty(failed).is_empty());
}

#[test]
fn envelope_carries_any_query_text() {
    let query = "back\\slash \"quote\"\nnew line\ttab \u{1} end";
    let e = hybrid_search_envelope(query, "[1]", Some("id\"x"), 2, 30);
    let parsed: serde_json::Value = serde_json::from_str(&e).unwrap();
    assert_eq!(parsed["query"]["bool"]["must"][0]["match"]["content"], query);
    assert_eq!(parsed["filter"]["term"]["project_id"], "id\"x");
    let stmt = search_param_statement("a\\b'c");
    assert_eq!(stmt, "SET @search_param = 'a\\\\b\\'c'");
}

#[test]
fn content_hash_is_sha256_hex() {
    let h = mine_kb::ingest::content_hash(&b"abc".to_vec());
    assert_eq!(h, "ba7816bf8f01cfea414140de5dae2223b00361a396177a9cb410ff61f20015ad");
    assert_eq!(mine_kb::ingest::hex_encode(&vec![0u8, 15, 255]), "000fff");
}

#[test]
fn ingestion_steps() {
    let mut d = Document::new("p".to_string(), "/x/a.txt".to_string(), 10, "h".to_string()).unwrap();
    let r = ingest_next(&mut d, IngestStage::Reading, IngestEvent::Succeeded { chunk_count: 0 }, "");
    assert_eq!(r, (Some(IngestStage::Processing), IngestAction::RunStage(IngestStage::Processing)));
    assert_eq!(d.processing_status, ProcessingStatus::Uploaded);
    let r = ingest_next(&mut d, IngestStage::Indexing, IngestEvent::Succeeded { chunk_count: 4 }, "");
    assert_eq!(r, (None, IngestAction::RefreshCount));
    assert_eq!((d.processing_status, d.chunk_count), (ProcessingStatus::Indexed, 4));
    let mut e = Document::new("p".to_string(), "/x/b.txt".to_string(), 10, "h".to_string()).unwrap();
    let r = ingest_next(&mut e, IngestStage::Embedding, IngestEvent::Failed, "network down");
    assert_eq!(r, (None, IngestAction::Stop));
    assert_eq!(e.processing_status, ProcessingStatus::Failed);
    assert_eq!(e.error_message, Some("[阶段4-向量化] embedding network down".to_string()));
}

#[test]
fn upload_report_lists_each_path_once() {
    let paths = vec!["/d/a.txt".to_string(), "/d/b.pdf".to_string(), "/d/c.md".to_string()];
    let ok = DocumentResponse {
        id: "1".to_string(),
        filename: "a.txt".to_string(),
        file_size: 3,
        processing_status: "Indexed".to_string(),
        created_at: String::new(),
    };
    let outcomes = vec![Ok(ok), Err("[阶段3-读取] 无法读取文件内容: b.pdf".to_string()), Err("odd".to_string())];
    let rep = upload_report(&paths, outcomes).unwrap();
    assert_eq!((rep.summary.total, rep.summary.successful, rep.summary.failed), (3, 1, 2));
    assert_eq!(rep.successful[0].filename, "a.txt");
    assert_eq!(rep.failed[0].file_path, "/d/b.pdf");
    assert_eq!(rep.failed[0].filename, "b.pdf");
    assert_eq!(rep.failed[0].error_stage, "reading");
    assert_eq!(rep.failed[0].error, "无法读取文件内容: b.pdf");
    assert_eq!((rep.failed[1].error_stage.as_str(), rep.failed[1].error.as_str()), ("unknown", "odd"));
    assert_eq!(upload_report(&Vec::new(), Vec::new()).unwrap_err(), UploadError::NoFiles);
}

#[test]
fn conversation_rows_and_statements() {
    let c = Conversation::new(uuid::Uuid::new_v4().to_string(), Some("t".to_string())).unwrap();
    let (sql, row) = conversation_upsert(&c);
    assert!(sql.starts_with("INSERT INTO conversations"));
    let back = conversation_from_row(&row).unwrap();
    assert_eq!((back.id, back.project_id, back.title, back.created_at), (c.id.clone(), c.project_id.clone(), c.title.clone(), c.created_at));
    let p = Project::new("N".to_string(), None).unwrap();
    let (sql, row) = project_upsert(&p);
    assert!(sql.contains("created_at = VALUES(created_at)"));
    assert_eq!(row.len(), 7);
    let m = Message::new_user_message(c.id.clone(), "hi".to_string()).unwrap();
    let (_, ins) = message_insert(&m, None);
    assert_eq!(ins.len(), 6);
    assert!(matches!(ins[5], SqlValue::Null));
    let (sql, upd) = message_update(&m, Some("[]".to_string()));
    assert!(sql.starts_with("UPDATE messages"));
    assert!(matches!(&upd[5], SqlValue::Text(id) if *id == m.id));
    assert_eq!(insert_fallback("(1062, \"Duplicate entry\")"), InsertFallback::Update);
    assert_eq!(insert_fallback("Duplicated primary key"), InsertFallback::Update);
    assert_eq!(insert_fallback("syntax error"), InsertFallback::Fail);
    let meta = chunk_metadata("a \"b\".txt", 0, 120);
    let parsed: serde_json::Value = serde_json::from_str(&meta).unwrap();
    assert_eq!(parsed["filename"], "a \"b\".txt");
    assert_eq!(parsed["end_offset"], "120");
}

#[test]
fn turn_retrieval_weights_semantic_part_at_seven_tenths() {
    let e = mine_kb::search::turn_retrieval_envelope("Where is Paris?", "[0.5]", "p1", 1);
    let parsed: serde_json::Value = serde_json::from_str(&e).unwrap();
    assert_eq!(parsed["knn"]["boost"], 0.7);
    assert_eq!(parsed["knn"]["k"], 1);
    assert_eq!(parsed["filter"]["term"]["project_id"], "p1");
    assert_eq!(parsed["query"]["bool"]["must"][0]["match"]["content"], "Where is Paris?");
}

#[test]
fn document_count_statement() {
    let (sql, params) = mine_kb::rows::document_count_update("p1", 3);
    assert!(sql.starts_with("UPDATE projects SET document_count"));
    assert!(matches!(params[0], SqlValue::Int(3)));
    assert!(matches!(&params[1], SqlValue::Text(p) if p == "p1"));
}
