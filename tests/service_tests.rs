use mine_kb::api::{extract_error_message, parse_error_stage, upload_summary, validate_upload_file, MetadataError};
use mine_kb::chat::{on_payload, turn_next, SseDecoder, SseLine, TurnAction, TurnEvent, TurnState};
use mine_kb::config::{default_stream, validate_llm_settings, ConfigError};
use mine_kb::embedding::{batch_ranges, is_retryable_error, is_retryable_message, reorder_by_index, EmbeddingCollector, EmbeddingError, RetryDecision, RetryState};
use mine_kb::llm::{build_chat_messages, build_system_message, LlmConfig, LlmConfigError, LlmProvider};
use mine_kb::models::conversation::{ContextChunk, Message};
use mine_kb::runtime::{ensure_ready, join, PythonEnv, ProvisionAction, ProvisionEvent, ProvisionFailure, ProvisionState, SeekDbPackage, StartupEvent};

#[test]
fn test_llm_provider_display() {
    assert_eq!(LlmProvider::OpenAI.to_string(), "OpenAI");
    assert_eq!(LlmProvider::Anthropic.to_string(), "Anthropic");
    assert_eq!(LlmProvider::Local.to_string(), "Local");
}

#[test]
fn test_llm_config_validation() {
    let mut config = LlmConfig::default_config();
    config.api_key = "test_key".to_string();
    assert!(config.validate().is_ok());
    config.model = String::new();
    assert!(config.validate().is_err());
    config.model = "gpt-4".to_string();
    config.temperature_centi = Some(300);
    assert!(config.validate().is_err());
    config.temperature_centi = Some(70);
    config.max_tokens = Some(0);
    assert!(config.validate().is_err());
}

#[test]
fn llm_config_errors_each_have_an_input() {
    let mut c = LlmConfig::default_config();
    assert_eq!(c.validate(), Err(LlmConfigError::MissingApiKey));
    c.provider = LlmProvider::Local;
    assert_eq!(c.validate(), Ok(()));
    c.base_url = String::new();
    assert_eq!(c.validate(), Err(LlmConfigError::EmptyBaseUrl));
    c.base_url = "http://localhost:8080".to_string();
    c.max_tokens = Some(32001);
    assert_eq!(c.validate(), Err(LlmConfigError::MaxTokensOutOfRange));
    c.max_tokens = Some(32000);
    c.temperature_centi = Some(201);
    assert_eq!(c.validate(), Err(LlmConfigError::TemperatureOutOfRange));
    c.temperature_centi = Some(200);
    assert_eq!(c.validate(), Ok(()));
}

#[test]
fn system_prompt_without_context() {
    let m = build_system_message(&Vec::new());
    assert!(m.contains("MindKB"));
    assert!(m.contains("No relevant documents"));
}

#[test]
fn system_prompt_lists_passages() {
    let chunks = vec![
        ContextChunk { document_id: "doc1".to_string(), filename: "test.txt".to_string(), content: "This is test content".to_string(), relevance: 90 },
        ContextChunk { document_id: "doc2".to_string(), filename: "b.md".to_string(), content: "More".to_string(), relevance: 105 },
    ];
    let m = build_system_message(&chunks);
    assert!(m.contains("MindKB"));
    assert!(m.contains("--- Document 1 (filename: test.txt, relevance: 0.90)\nThis is test content\n\n"));
    assert!(m.contains("--- Document 2 (filename: b.md, relevance: 1.05)\nMore\n\n"));
}

#[test]
fn chat_messages_put_history_after_the_system_turn() {
    let history = vec![
        Message::new_user_message("c".to_string(), "Hello".to_string()).unwrap(),
        Message::new_assistant_message("c".to_string(), "Hi".to_string(), vec![], None).unwrap(),
    ];
    let turns = build_chat_messages(&history, &Vec::new());
    assert_eq!(turns.len(), 3);
    assert_eq!(turns[0].role, "system");
    assert_eq!(turns[1].role, "user");
    assert_eq!(turns[1].content, "Hello");
    assert_eq!(turns[2].role, "assistant");
}

#[test]
fn sse_lines_are_framed_across_chunks() {
    let mut d = SseDecoder::new();
    let a = d.push_chunk("data: {\"a\":1}\n\nda");
    assert_eq!(a.len(), 1);
    assert!(matches!(&a[0], SseLine::Data(p) if p == "{\"a\":1}"));
    let b = d.push_chunk("ta: {\"b\":2}\r\n: comment\ndata: [DONE]\n");
    assert_eq!(b.len(), 2);
    assert!(matches!(&b[0], SseLine::Data(p) if p == "{\"b\":2}"));
    assert!(matches!(&b[1], SseLine::Done));
    assert!(d.pending.is_empty());
}

#[test]
fn payload_tokens_and_finish() {
    assert_eq!(on_payload(Some("Hi".to_string()), None), (Some("Hi".to_string()), false));
    assert_eq!(on_payload(Some(String::new()), Some("stop".to_string())), (None, true));
    assert_eq!(on_payload(None, Some("length".to_string())), (None, true));
    assert_eq!(on_payload(None, Some("tool".to_string())), (None, false));
}

#[test]
fn empty_context_turn_runs_to_the_end() {
    let (s, a) = turn_next(TurnState::Idle, TurnEvent::UserMessage { valid: true });
    assert_eq!((s, a), (TurnState::PersistingUser, TurnAction::PersistUser));
    let (s, a) = turn_next(s, TurnEvent::UserPersisted { ok: true });
    assert_eq!(a, TurnAction::Retrieve);
    let (s, a) = turn_next(s, TurnEvent::Retrieved { found: false });
    assert_eq!(a, TurnAction::OpenStream { with_context: false });
    let (s, a) = turn_next(s, TurnEvent::Token);
    assert_eq!(a, TurnAction::EmitToken);
    let (s, a) = turn_next(s, TurnEvent::StreamEnded { ok: true, empty: false });
    assert_eq!(a, TurnAction::PersistAssistant);
    let (s, a) = turn_next(s, TurnEvent::AssistantPersisted { ok: true });
    assert_eq!(a, TurnAction::PersistSources);
    let (s, a) = turn_next(s, TurnEvent::SourcesPersisted { ok: true });
    assert_eq!((s, a), (TurnState::Done, TurnAction::EmitEnd));
}

#[test]
fn cancelled_turn_writes_no_answer() {
    let (s, _) = turn_next(TurnState::Idle, TurnEvent::UserMessage { valid: true });
    let (s, _) = turn_next(s, TurnEvent::UserPersisted { ok: true });
    let (s, _) = turn_next(s, TurnEvent::Retrieved { found: true });
    let (s, _) = turn_next(s, TurnEvent::Token);
    let (s, a) = turn_next(s, TurnEvent::Cancel);
    assert_eq!((s, a), (TurnState::Cancelled, TurnAction::AbortStream));
    let (s, a) = turn_next(s, TurnEvent::StreamEnded { ok: true, empty: false });
    assert_eq!((s, a), (TurnState::Cancelled, TurnAction::Nothing));
    let (_, a) = turn_next(TurnState::Idle, TurnEvent::UserMessage { valid: false });
    assert_eq!(a, TurnAction::RejectMessage);
    let (s, a) = turn_next(TurnState::Streaming, TurnEvent::StreamEnded { ok: true, empty: true });
    assert_eq!((s, a), (TurnState::Failed, TurnAction::EmitError));
}

#[test]
fn batches_of_twenty_five() {
    let r = batch_ranges(60, 25);
    assert_eq!(r, vec![(0, 25), (25, 50), (50, 60)]);
    assert!(batch_ranges(0, 25).is_empty());
    assert_eq!(batch_ranges(25, 25), vec![(0, 25)]);
}

#[test]
fn retryable_errors() {
    assert!(is_retryable_error("DashScope API failed [503]: Service Unavailable"));
    assert!(is_retryable_error("Connection reset by peer"));
    assert!(is_retryable_error("request TIMEOUT"));
    assert!(!is_retryable_error("DashScope API failed [400]: bad request"));
    assert!(is_retryable_message("[429]"));
    assert!(!is_retryable_message("Timeout"));
}

#[test]
fn backoff_doubles_up_to_thirty_seconds() {
    let s = RetryState::initial();
    match s.on_failure(true, 3) {
        RetryDecision::Retry { delay_ms, next } => {
            assert_eq!(delay_ms, 1000);
            assert_eq!(next, RetryState { retries: 1, delay_ms: 2000 });
        }
        RetryDecision::GiveUp => panic!("should retry"),
    }
    assert_eq!(RetryState { retries: 3, delay_ms: 8000 }.on_failure(true, 3), RetryDecision::GiveUp);
    assert_eq!(s.on_failure(false, 3), RetryDecision::GiveUp);
    match (RetryState { retries: 1, delay_ms: 20000 }).on_failure(true, 3) {
        RetryDecision::Retry { next, .. } => assert_eq!(next.delay_ms, 30000),
        RetryDecision::GiveUp => panic!("should retry"),
    }
}

#[test]
fn retry_after_503_gives_the_same_vectors() {
    let response = || vec![(1usize, vec![0.5f64; 1536]), (0usize, vec![0.25f64; 1536])];
    let mut first = EmbeddingCollector::new(1536);
    first.accept_batch(2, response()).unwrap();

    let mut retried = EmbeddingCollector::new(1536);
    let decision = RetryState::initial().on_failure(is_retryable_error("API failed [503]"), 3);
    assert!(matches!(decision, RetryDecision::Retry { .. }));
    retried.accept_batch(2, response()).unwrap();

    assert_eq!(first.vectors, retried.vectors);
    assert_eq!(first.vectors[0][0], 0.25);
    assert!(first.vectors.iter().all(|v| v.len() == 1536));
}

#[test]
fn provider_responses_are_checked() {
    assert_eq!(reorder_by_index(vec![(2usize, 'c'), (0, 'a'), (1, 'b')]).unwrap(), vec!['a', 'b', 'c']);
    assert_eq!(reorder_by_index(vec![(0usize, 'a'), (0, 'b')]), Err(EmbeddingError::BadIndices));
    assert_eq!(reorder_by_index(vec![(5usize, 'a')]), Err(EmbeddingError::BadIndices));
    let mut c = EmbeddingCollector::new(3);
    assert_eq!(c.accept_batch(2, vec![(0usize, vec![1, 2, 3])]), Err(EmbeddingError::WrongCount));
    assert_eq!(c.accept_batch(1, vec![(0usize, vec![1, 2])]), Err(EmbeddingError::WrongDimension));
    assert!(c.vectors.is_empty());
}

#[test]
fn provisioning_reaches_ready_once() {
    let (s, a) = ensure_ready(ProvisionState::NotPresent, ProvisionEvent::Probed { venv_present: false, package_present: false });
    assert_eq!((s, a), (ProvisionState::Creating, ProvisionAction::CreateVenv));
    let (s, a) = ensure_ready(s, ProvisionEvent::VenvCreated { ok: true, venv_module_missing: false });
    assert_eq!(a, ProvisionAction::InstallPackage);
    let (s, a) = ensure_ready(s, ProvisionEvent::Installed { ok: true });
    assert_eq!(a, ProvisionAction::VerifyVersion);
    let (s, a) = ensure_ready(s, ProvisionEvent::VersionChecked { matches: true });
    assert_eq!((s, a), (ProvisionState::Ready, ProvisionAction::Nothing));
    let again = ensure_ready(s, ProvisionEvent::Probed { venv_present: true, package_present: true });
    assert_eq!(again, (ProvisionState::Ready, ProvisionAction::Nothing));
    let (s, a) = ensure_ready(ProvisionState::Creating, ProvisionEvent::VenvCreated { ok: false, venv_module_missing: true });
    assert_eq!((s, a), (ProvisionState::Failed(ProvisionFailure::MissingVenvModule), ProvisionAction::Report(ProvisionFailure::MissingVenvModule)));
}

#[test]
fn environment_paths() {
    let env = PythonEnv::new("/data/app");
    assert_eq!(env.get_venv_dir(), "/data/app/venv");
    assert_eq!(env.get_python_executable(), "/data/app/venv/bin/python3");
    assert_eq!(env.get_pip_executable(), "/data/app/venv/bin/pip3");
    assert_eq!(join("/data/", "venv"), "/data/venv");
    assert_eq!(env.ensure_venv(true), ProvisionAction::Nothing);
    assert_eq!(env.ensure_venv(false), ProvisionAction::CreateVenv);
    let pkg = SeekDbPackage::new(&env);
    assert_eq!(pkg.install_args()[3], "seekdb==0.0.1.dev4");
}

#[test]
fn startup_events() {
    let e = StartupEvent::progress(1, "step".to_string());
    assert_eq!((e.step, e.total_steps, e.status.as_str()), (1, 3, "progress"));
    let e = StartupEvent::error("failed".to_string(), "why".to_string());
    assert_eq!(e.status, "error");
    assert_eq!(e.error, Some("why".to_string()));
    assert_eq!(StartupEvent::success(3, "ok".to_string()).status, "success");
    assert_eq!(StartupEvent::progress_with_details(1, "m".to_string(), "d".to_string()).details, Some("d".to_string()));
}

#[test]
fn configuration_checks() {
    assert!(default_stream());
    assert_eq!(validate_llm_settings("", "gpt-4"), Err(ConfigError::MissingApiKey));
    assert_eq!(validate_llm_settings("k", ""), Err(ConfigError::MissingModel));
    assert_eq!(validate_llm_settings("k", "gpt-4"), Ok(()));
}

#[test]
fn error_stages() {
    let (stage, msg) = parse_error_stage("[阶段1-验证] 文件不存在: /tmp/x");
    assert_eq!(stage, "validation");
    assert_eq!(msg, "文件不存在: /tmp/x");
    let (stage, msg) = parse_error_stage("embedding request failed");
    assert_eq!(stage, "embedding");
    assert_eq!(msg, "embedding request failed");
    let (stage, msg) = parse_error_stage("something odd] happened");
    assert_eq!(stage, "unknown");
    assert_eq!(msg, "something odd] happened");
    assert_eq!(extract_error_message("[x] rest] more"), "rest] more");
}

#[test]
fn upload_file_checks() {
    assert_eq!(validate_upload_file("/a/b.txt", false, false, Ok(1)).unwrap_err().error_type, "not_found");
    let empty = validate_upload_file("/a/b.txt", true, true, Ok(0)).unwrap_err();
    assert_eq!((empty.error_type.as_str(), empty.path.as_str(), empty.filename.as_str()), ("empty", "/a/b.txt", "b.txt"));
    assert_eq!(validate_upload_file("/a/b.txt", true, true, Ok(52428801)).unwrap_err().error_type, "too_large");
    assert_eq!(validate_upload_file("/a/b.exe", true, true, Ok(10)).unwrap_err().error_type, "unsupported_format");
    assert_eq!(validate_upload_file("/a/b.txt", true, true, Err(MetadataError::PermissionDenied)).unwrap_err().error_type, "permission_denied");
    assert_eq!(validate_upload_file("/a/b.txt", true, true, Err(MetadataError::Other)).unwrap_err().error_type, "other");
    let ok = validate_upload_file("/a/B.DOCX", true, true, Ok(10)).unwrap();
    assert_eq!(ok.filename, "B.DOCX");
    assert_eq!(ok.mime_type, "application/vnd.openxmlformats-officedocument.wordprocessingml.document");
    let s = upload_summary(3, 1);
    assert_eq!((s.total, s.successful, s.failed), (4, 3, 1));
}
