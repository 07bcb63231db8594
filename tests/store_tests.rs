use mine_kb::models::conversation::{Conversation, Message};
use mine_kb::models::project::Project;
use mine_kb::store::{ChunkRow, KnowledgeStore, StoreError};

fn chunk(project: &str, doc: &str, index: u32, text: &str) -> ChunkRow {
    ChunkRow {
        id: format!("{}-{}", doc, index),
        project_id: project.to_string(),
        document_id: doc.to_string(),
        chunk_index: index,
        content: text.to_string(),
        embedding: "[0.5,0.25]".to_string(),
        metadata: "{}".to_string(),
    }
}

fn stocked() -> (KnowledgeStore, Project, Conversation) {
    let mut store = KnowledgeStore::new();
    let p = Project::new("P".to_string(), None).unwrap();
    store.save_project(p.duplicate());
    let c = Conversation::new(p.id.clone(), Some("chat".to_string())).unwrap();
    store.save_conversation(c.duplicate()).unwrap();
    (store, p, c)
}

#[test]
fn message_count_follows_the_messages() {
    let (mut store, _, c) = stocked();
    for text in ["one", "two", "three"] {
        let m = Message::new_user_message(c.id.clone(), text.to_string()).unwrap();
        store.save_message(m).unwrap();
    }
    let loaded = store.load_messages_by_conversation(&c.id);
    assert_eq!(loaded.len(), 3);
    assert_eq!(store.conversations[0].message_count, 3);
    let first = loaded[0].id.clone();
    assert_eq!(store.delete_message_by_id(&first), 1);
    assert_eq!(store.conversations[0].message_count, 2);
    assert_eq!(store.get_conversation_message_count(&c.id), 2);
    assert_eq!(store.delete_messages_by_conversation(&c.id), 2);
    assert_eq!(store.conversations[0].message_count, 0);
}

#[test]
fn messages_load_oldest_first() {
    let (mut store, _, c) = stocked();
    for (text, ts) in [("late", 300i64), ("early", 100), ("middle", 200)] {
        let mut m = Message::new_user_message(c.id.clone(), text.to_string()).unwrap();
        m.timestamp = ts;
        store.save_message(m).unwrap();
    }
    let loaded: Vec<String> = store.load_messages_by_conversation(&c.id).into_iter().map(|m| m.content).collect();
    assert_eq!(loaded, vec!["early", "middle", "late"]);
}

#[test]
fn saving_a_message_twice_updates_it() {
    let (mut store, _, c) = stocked();
    let mut m = Message::new_assistant_message(c.id.clone(), "draft".to_string(), vec![], None).unwrap();
    store.save_message(m.duplicate()).unwrap();
    m.content = "final".to_string();
    store.save_message(m.duplicate()).unwrap();
    let loaded = store.load_messages_by_conversation(&c.id);
    assert_eq!(loaded.len(), 1);
    assert_eq!(loaded[0].content, "final");
    assert_eq!(store.conversations[0].message_count, 1);
}

#[test]
fn writes_need_their_parent() {
    let mut store = KnowledgeStore::new();
    let c = Conversation::new("no-such-project".to_string(), None).unwrap();
    assert_eq!(store.save_conversation(c), Err(StoreError::MissingParent));
    let m = Message::new_user_message("no-such-conversation".to_string(), "hi".to_string()).unwrap();
    assert_eq!(store.save_message(m), Err(StoreError::MissingParent));
    assert!(store.conversations.is_empty() && store.messages.is_empty());
}

#[test]
fn deleting_a_project_cascades() {
    let (mut store, p, c) = stocked();
    for text in ["a", "b", "c"] {
        store.save_message(Message::new_user_message(c.id.clone(), text.to_string()).unwrap()).unwrap();
    }
    let rows: Vec<ChunkRow> = (0..5).map(|i| chunk(&p.id, "doc", i, "text")).collect();
    store.add_documents(rows);
    let other = Project::new("Other".to_string(), None).unwrap();
    store.save_project(other.duplicate());
    let oc = Conversation::new(other.id.clone(), None).unwrap();
    store.save_conversation(oc).unwrap();

    assert_eq!(store.delete_project_by_id(&p.id), 1);
    assert_eq!(store.delete_project_documents(&p.id), 5);
    assert!(store.conversations.iter().all(|x| x.project_id != p.id));
    assert!(store.messages.is_empty());
    assert!(store.chunks.is_empty());
    assert_eq!(store.projects.len(), 1);
    assert_eq!(store.conversations.len(), 1);
}

#[test]
fn saving_an_existing_project_keeps_its_children() {
    let (mut store, p, c) = stocked();
    store.save_message(Message::new_user_message(c.id.clone(), "keep me".to_string()).unwrap()).unwrap();
    let mut renamed = p.duplicate();
    renamed.name = "Renamed".to_string();
    renamed.created_at = p.created_at + 1000;
    store.save_project(renamed);
    assert_eq!(store.projects.len(), 1);
    assert_eq!(store.projects[0].name, "Renamed");
    assert_eq!(store.projects[0].created_at, p.created_at + 1000);
    assert_eq!(store.conversations.len(), 1);
    assert_eq!(store.messages.len(), 1);
}

#[test]
fn save_then_load_gives_back_the_rows() {
    let (mut store, p, c) = stocked();
    let loaded = store.load_all_projects();
    assert_eq!(loaded.len(), 1);
    assert_eq!(loaded[0].id, p.id);
    assert_eq!(loaded[0].name, p.name);
    assert_eq!(loaded[0].updated_at, p.updated_at);
    let convs = store.load_conversations(Some(&p.id));
    assert_eq!(convs.len(), 1);
    assert_eq!(convs[0].title, c.title);
    let m = Message::new_user_message(c.id.clone(), "round trip".to_string()).unwrap();
    store.save_message(m.duplicate()).unwrap();
    let back = store.load_messages_by_conversation(&c.id);
    assert_eq!(back[0].id, m.id);
    assert_eq!(back[0].content, m.content);
    assert_eq!(back[0].timestamp, m.timestamp);
}

#[test]
fn projects_load_most_recent_first() {
    let mut store = KnowledgeStore::new();
    for (name, t) in [("a", 1i64), ("c", 3), ("b", 2)] {
        let mut p = Project::new(name.to_string(), None).unwrap();
        p.updated_at = t;
        store.save_project(p);
    }
    let names: Vec<String> = store.load_all_projects().into_iter().map(|p| p.name).collect();
    assert_eq!(names, vec!["c", "b", "a"]);
    assert_eq!(store.load_conversations(None).len(), 0);
}

#[test]
fn document_count_is_distinct_documents() {
    let (mut store, p, _) = stocked();
    store.add_documents(vec![
        chunk(&p.id, "d1", 0, "x"),
        chunk(&p.id, "d1", 1, "y"),
        chunk(&p.id, "d2", 0, "z"),
        chunk("elsewhere", "d3", 0, "w"),
    ]);
    assert_eq!(store.count_project_documents(&p.id), 2);
    assert_eq!(store.refresh_document_count(&p.id), 2);
    assert_eq!(store.projects[0].document_count, 2);
    store.add_documents(vec![chunk(&p.id, "d1", 1, "y2")]);
    assert_eq!(store.chunks.len(), 4);
    assert_eq!(store.chunks[1].content, "y2");
    assert_eq!(store.delete_document("d1"), 2);
    assert_eq!(store.count_project_documents(&p.id), 1);
}

#[test]
fn deleting_a_conversation_removes_its_messages() {
    let (mut store, _, c) = stocked();
    store.save_message(Message::new_user_message(c.id.clone(), "x".to_string()).unwrap()).unwrap();
    assert_eq!(store.delete_conversation_by_id(&c.id), 1);
    assert!(store.conversations.is_empty());
    assert!(store.messages.is_empty());
}

#[test]
fn conversations_load_by_project_most_recent_first() {
    let (mut store, p, c) = stocked();
    let mut later = Conversation::new(p.id.clone(), Some("later".to_string())).unwrap();
    later.updated_at = c.updated_at + 10;
    store.save_conversation(later).unwrap();
    let titles: Vec<String> = store.load_conversations_by_project(&p.id).into_iter().map(|c| c.title).collect();
    assert_eq!(titles, vec!["later", "chat"]);
    assert_eq!(store.load_all_conversations().len(), 2);
    assert!(store.load_conversations_by_project("other").is_empty());
    store.update_project_document_count(&p.id, 7);
    assert_eq!(store.projects[0].document_count, 7);
}

#[test]
fn saving_again_gives_back_every_field() {
    let (mut store, p, c) = stocked();
    let other = Project::new("Other".to_string(), None).unwrap();
    store.save_project(other.duplicate());
    let mut moved = c.duplicate();
    moved.project_id = other.id.clone();
    moved.created_at = 5;
    moved.title = "moved".to_string();
    store.save_conversation(moved).unwrap();
    let convs = store.load_conversations_by_project(&other.id);
    assert_eq!(convs.len(), 1);
    assert_eq!((convs[0].created_at, convs[0].title.as_str()), (5, "moved"));
    assert!(store.load_conversations_by_project(&p.id).is_empty());

    let second = Conversation::new(other.id.clone(), Some("second".to_string())).unwrap();
    store.save_conversation(second.duplicate()).unwrap();
    let mut m = Message::new_user_message(c.id.clone(), "hello".to_string()).unwrap();
    store.save_message(m.duplicate()).unwrap();
    m.conversation_id = second.id.clone();
    store.save_message(m.duplicate()).unwrap();
    assert!(store.load_messages_by_conversation(&c.id).is_empty());
    let back = store.load_messages_by_conversation(&second.id);
    assert_eq!(back.len(), 1);
    assert_eq!(back[0].id, m.id);
    assert_eq!(store.messages.len(), 1);
    assert_eq!(store.get_conversation_message_count(&second.id), 1);
}

#[test]
fn deleting_a_project_removes_everything_it_owns() {
    let (mut store, p, c) = stocked();
    store.save_message(Message::new_user_message(c.id.clone(), "m".to_string()).unwrap()).unwrap();
    store.add_documents(vec![chunk(&p.id, "d", 0, "t"), chunk("other", "e", 0, "u")]);
    assert_eq!(store.delete_project(&p.id), 1);
    assert!(store.projects.is_empty() && store.conversations.is_empty() && store.messages.is_empty());
    assert_eq!(store.count_project_documents(&p.id), 0);
    assert_eq!(store.chunks.len(), 1);
}
