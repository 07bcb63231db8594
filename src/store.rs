//! The storage semantics of the knowledge base: projects own conversations, conversations own
//! messages, and chunk rows are keyed by document and position. Saving a parent updates it in
//! place; deleting one removes what it owns; counters are recomputed from the rows.
use vstd::prelude::*;
use crate::models::project::Project;
use crate::models::conversation::{Conversation, Message, MessageView, ContextChunk, sources_view};
use crate::text::str_eq;
use crate::order::{is_permutation, sort_order};

verus! {

broadcast use {vstd::seq_lib::group_to_multiset_ensures, vstd::seq_lib::group_filter_ensures};

/// A stored chunk: its text, where it belongs, its embedding in the engine's text form
/// (`[v1,v2,...]`) and its metadata (a JSON object naming the file and the offsets).
#[derive(Debug, Clone)]
pub struct ChunkRow {
    pub id: String,
    pub project_id: String,
    pub document_id: String,
    pub chunk_index: u32,
    pub content: String,
    pub embedding: String,
    pub metadata: String,
}

#[derive(Debug, Clone, Copy, PartialEq, Eq, Structural)]
pub enum StoreError {
    /// The parent row of a write does not exist.
    MissingParent,
    /// A counter would not fit its column.
    Overflow,
}

pub fn copy_string(s: &String) -> (r: String)
    ensures
        r == *s,
{
    s.clone()
}

pub fn copy_opt_string(s: &Option<String>) -> (r: Option<String>)
    ensures
        r == *s,
{
    match s {
        Some(x) => Some(x.clone()),
        None => None,
    }
}

fn copy_strings(v: &Vec<String>) -> (r: Vec<String>)
    ensures
        r@ == v@,
{
    let mut out: Vec<String> = Vec::new();
    let mut i: usize = 0;
    while i < v.len()
        invariant
            i <= v.len(),
            out@ == v@.subrange(0, i as int),
        decreases v.len() - i,
    {
        out.push(v[i].clone());
        i = i + 1;
        proof {
            assert(out@ =~= v@.subrange(0, i as int));
        }
    }
    proof {
        assert(v@.subrange(0, v@.len() as int) =~= v@);
    }
    out
}

fn copy_sources(v: &Vec<ContextChunk>) -> (r: Vec<ContextChunk>)
    ensures
        sources_view(r@) == sources_view(v@),
{
    let mut out: Vec<ContextChunk> = Vec::new();
    let mut i: usize = 0;
    while i < v.len()
        invariant
            i <= v.len(),
            sources_view(out@) == sources_view(v@.subrange(0, i as int)),
        decreases v.len() - i,
    {
        let c = &v[i];
        let e = ContextChunk {
            document_id: c.document_id.clone(),
            filename: c.filename.clone(),
            content: c.content.clone(),
            relevance: c.relevance,
        };
        let ghost before = out@;
        out.push(e);
        proof {
            assert(e@ == v@[i as int]@);
            assert(sources_view(out@) =~= sources_view(before).push(e@));
            assert(v@.subrange(0, i + 1) =~= v@.subrange(0, i as int).push(v@[i as int]));
            assert(sources_view(v@.subrange(0, i + 1)) =~= sources_view(v@.subrange(0, i as int)).push(v@[i as int]@));
        }
        i = i + 1;
    }
    proof {
        assert(v@.subrange(0, v@.len() as int) =~= v@);
    }
    out
}

impl Project {
    pub fn duplicate(&self) -> (r: Project)
        ensures
            r == *self,
    {
        Project {
            id: self.id.clone(),
            name: self.name.clone(),
            description: copy_opt_string(&self.description),
            created_at: self.created_at,
            updated_at: self.updated_at,
            document_count: self.document_count,
            status: self.status,
        }
    }
}

impl Conversation {
    pub fn duplicate(&self) -> (r: Conversation)
        ensures
            r == *self,
    {
        Conversation {
            id: self.id.clone(),
            project_id: self.project_id.clone(),
            title: self.title.clone(),
            created_at: self.created_at,
            updated_at: self.updated_at,
            message_count: self.message_count,
        }
    }
}

impl Message {
    pub fn duplicate(&self) -> (r: Message)
        ensures
            r@ == self@,
    {
        let sources = match &self.sources {
            Some(s) => Some(copy_sources(s)),
            None => None,
        };
        let r = Message {
            id: self.id.clone(),
            conversation_id: self.conversation_id.clone(),
            role: self.role,
            content: self.content.clone(),
            timestamp: self.timestamp,
            token_count: self.token_count,
            context_chunks: copy_strings(&self.context_chunks),
            processing_time_ms: self.processing_time_ms,
            sources,
        };
        proof {
            assert(r@.context_chunks =~= self@.context_chunks);
        }
        r
    }
}

impl ChunkRow {
    pub fn duplicate(&self) -> (r: ChunkRow)
        ensures
            r == *self,
    {
        ChunkRow {
            id: self.id.clone(),
            project_id: self.project_id.clone(),
            document_id: self.document_id.clone(),
            chunk_index: self.chunk_index,
            content: self.content.clone(),
            embedding: self.embedding.clone(),
            metadata: self.metadata.clone(),
        }
    }
}

} // verus!

verus! {

/// The whole store as plain values.
pub struct StoreView {
    pub projects: Seq<Project>,
    pub conversations: Seq<Conversation>,
    pub messages: Seq<MessageView>,
    pub chunks: Seq<ChunkRow>,
}

pub open spec fn message_views(s: Seq<Message>) -> Seq<MessageView> {
    s.map_values(|m: Message| m@)
}

/// Position of the first project with identifier `id`, or -1.
pub open spec fn project_index(ps: Seq<Project>, id: Seq<char>) -> int
    decreases ps.len(),
{
    if ps.len() == 0 {
        -1
    } else if project_index(ps.drop_last(), id) >= 0 {
        project_index(ps.drop_last(), id)
    } else if ps.last().id@ == id {
        ps.len() - 1
    } else {
        -1
    }
}

pub open spec fn conversation_index(cs: Seq<Conversation>, id: Seq<char>) -> int
    decreases cs.len(),
{
    if cs.len() == 0 {
        -1
    } else if conversation_index(cs.drop_last(), id) >= 0 {
        conversation_index(cs.drop_last(), id)
    } else if cs.last().id@ == id {
        cs.len() - 1
    } else {
        -1
    }
}

pub open spec fn message_index(ms: Seq<MessageView>, id: Seq<char>) -> int
    decreases ms.len(),
{
    if ms.len() == 0 {
        -1
    } else if message_index(ms.drop_last(), id) >= 0 {
        message_index(ms.drop_last(), id)
    } else if ms.last().id == id {
        ms.len() - 1
    } else {
        -1
    }
}

pub open spec fn has_project(ps: Seq<Project>, id: Seq<char>) -> bool {
    exists|i: int| 0 <= i < ps.len() && (#[trigger] ps[i]).id@ == id
}

pub open spec fn has_conversation(cs: Seq<Conversation>, id: Seq<char>) -> bool {
    exists|i: int| 0 <= i < cs.len() && (#[trigger] cs[i]).id@ == id
}

pub open spec fn in_conversation(cid: Seq<char>) -> spec_fn(MessageView) -> bool {
    |m: MessageView| m.conversation_id == cid
}

pub open spec fn in_project(pid: Seq<char>) -> spec_fn(Conversation) -> bool {
    |c: Conversation| c.project_id@ == pid
}

pub open spec fn project_other_than(id: Seq<char>) -> spec_fn(Project) -> bool {
    |p: Project| p.id@ != id
}

pub open spec fn outside_project(pid: Seq<char>) -> spec_fn(Conversation) -> bool {
    |c: Conversation| c.project_id@ != pid
}

pub open spec fn with_conversation_in(cs: Seq<Conversation>) -> spec_fn(MessageView) -> bool {
    |m: MessageView| has_conversation(cs, m.conversation_id)
}

/// The messages of conversation `cid`, in stored order.
pub open spec fn messages_of(ms: Seq<MessageView>, cid: Seq<char>) -> Seq<MessageView> {
    ms.filter(in_conversation(cid))
}

/// The conversations of project `pid`, in stored order.
pub open spec fn conversations_of(cs: Seq<Conversation>, pid: Seq<char>) -> Seq<Conversation> {
    cs.filter(in_project(pid))
}

/// Saving a project: an existing row of the same identifier takes all of the project's
/// values; otherwise the project is added. Nothing else changes.
pub open spec fn upsert_project(ps: Seq<Project>, p: Project) -> Seq<Project> {
    let i = project_index(ps, p.id@);
    if i >= 0 {
        ps.update(i, p)
    } else {
        ps.push(p)
    }
}

/// No two elements of `s` share a key.
pub open spec fn unique_keys<A, K>(s: Seq<A>, key: spec_fn(A) -> K) -> bool {
    forall|i: int, j: int| 0 <= i < j < s.len() ==> key(#[trigger] s[i]) != key(#[trigger] s[j])
}

pub open spec fn project_key() -> spec_fn(Project) -> Seq<char> {
    |p: Project| p.id@
}

pub open spec fn conversation_key() -> spec_fn(Conversation) -> Seq<char> {
    |c: Conversation| c.id@
}

pub open spec fn message_key() -> spec_fn(MessageView) -> Seq<char> {
    |m: MessageView| m.id
}

/// A chunk row is keyed by its document and its position in it.
pub open spec fn chunk_key() -> spec_fn(ChunkRow) -> (Seq<char>, u32) {
    |c: ChunkRow| (c.document_id@, c.chunk_index)
}

proof fn lemma_filter_unique<A, K>(s: Seq<A>, p: spec_fn(A) -> bool, key: spec_fn(A) -> K)
    requires
        unique_keys(s, key),
    ensures
        unique_keys(s.filter(p), key),
    decreases s.len(),
{
    reveal(Seq::filter);
    if s.len() > 0 {
        let t = s.drop_last();
        assert(unique_keys(t, key)) by {
            assert forall|i: int, j: int| 0 <= i < j < t.len() implies key(#[trigger] t[i]) != key(#[trigger] t[j]) by {
                assert(t[i] == s[i] && t[j] == s[j]);
            }
        }
        lemma_filter_unique(t, p, key);
        let f = t.filter(p);
        if p(s.last()) {
            let g = f.push(s.last());
            assert forall|i: int, j: int| 0 <= i < j < g.len() implies key(#[trigger] g[i]) != key(#[trigger] g[j]) by {
                if j == g.len() - 1 {
                    assert(f.contains(g[i]));
                    t.lemma_filter_contains_rev(p, g[i]);
                    let k = choose|k: int| 0 <= k < t.len() && t[k] == g[i];
                    assert(s[k] == g[i]);
                    assert(key(s[k]) != key(s[s.len() - 1]));
                }
            }
        }
    }
}

proof fn lemma_update_unique<A, K>(s: Seq<A>, i: int, x: A, key: spec_fn(A) -> K)
    requires
        unique_keys(s, key),
        0 <= i < s.len(),
        key(x) == key(s[i]),
    ensures
        unique_keys(s.update(i, x), key),
{
    let u = s.update(i, x);
    assert forall|a: int, b: int| 0 <= a < b < u.len() implies key(#[trigger] u[a]) != key(#[trigger] u[b]) by {
        assert(key(u[a]) == key(s[a]) && key(u[b]) == key(s[b]));
    }
}

proof fn lemma_push_unique<A, K>(s: Seq<A>, x: A, key: spec_fn(A) -> K)
    requires
        unique_keys(s, key),
        forall|i: int| 0 <= i < s.len() ==> key(#[trigger] s[i]) != key(x),
    ensures
        unique_keys(s.push(x), key),
{
    let u = s.push(x);
    assert forall|a: int, b: int| 0 <= a < b < u.len() implies key(#[trigger] u[a]) != key(#[trigger] u[b]) by {
        if b < s.len() {
            assert(u[a] == s[a] && u[b] == s[b]);
        } else {
            assert(u[a] == s[a]);
        }
    }
}

impl StoreView {
    /// Primary keys are unique; no orphans: each conversation's project exists, each message's
    /// conversation exists; each conversation's message count is the number of its messages.
    pub open spec fn wf(self) -> bool {
        &&& unique_keys(self.projects, project_key())
        &&& unique_keys(self.conversations, conversation_key())
        &&& unique_keys(self.messages, message_key())
        &&& unique_keys(self.chunks, chunk_key())
        &&& forall|i: int| 0 <= i < self.conversations.len()
            ==> has_project(self.projects, (#[trigger] self.conversations[i]).project_id@)
        &&& forall|i: int| 0 <= i < self.messages.len()
            ==> has_conversation(self.conversations, (#[trigger] self.messages[i]).conversation_id)
        &&& forall|i: int| 0 <= i < self.conversations.len()
            ==> (#[trigger] self.conversations[i]).message_count == messages_of(self.messages, self.conversations[i].id@).len()
    }

    pub open spec fn save_project(self, p: Project) -> StoreView {
        StoreView { projects: upsert_project(self.projects, p), ..self }
    }

    /// Deleting a project removes it, its conversations, and their messages.
    pub open spec fn delete_project(self, id: Seq<char>) -> StoreView {
        let cs = self.conversations.filter(outside_project(id));
        StoreView {
            projects: self.projects.filter(project_other_than(id)),
            conversations: cs,
            messages: self.messages.filter(with_conversation_in(cs)),
            chunks: self.chunks,
        }
    }
}

proof fn lemma_project_index(ps: Seq<Project>, id: Seq<char>)
    ensures
        -1 <= project_index(ps, id) < ps.len(),
        project_index(ps, id) >= 0 ==> ps[project_index(ps, id)].id@ == id,
        project_index(ps, id) < 0 ==> !has_project(ps, id),
    decreases ps.len(),
{
    if ps.len() > 0 {
        lemma_project_index(ps.drop_last(), id);
        if project_index(ps, id) < 0 {
            assert forall|i: int| 0 <= i < ps.len() implies (#[trigger] ps[i]).id@ != id by {
                if i < ps.len() - 1 {
                    assert(ps.drop_last()[i] == ps[i]);
                }
            }
        }
    }
}

proof fn lemma_filter_step<A>(s: Seq<A>, i: int, pred: spec_fn(A) -> bool)
    requires
        0 <= i < s.len(),
    ensures
        s.subrange(0, i + 1).filter(pred) == if pred(s[i]) {
            s.subrange(0, i).filter(pred).push(s[i])
        } else {
            s.subrange(0, i).filter(pred)
        },
{
    reveal(Seq::filter);
    assert(s.subrange(0, i + 1).drop_last() =~= s.subrange(0, i));
}

/// Filtering by a weaker predicate first changes nothing.
proof fn lemma_filter_filter<A>(s: Seq<A>, p: spec_fn(A) -> bool, q: spec_fn(A) -> bool)
    requires
        forall|a: A| #[trigger] q(a) ==> p(a),
    ensures
        s.filter(p).filter(q) == s.filter(q),
    decreases s.len(),
{
    reveal(Seq::filter);
    if s.len() > 0 {
        lemma_filter_filter(s.drop_last(), p, q);
        if p(s.last()) {
            assert(s.filter(p).drop_last() =~= s.drop_last().filter(p));
        }
    }
}

} // verus!

verus! {

/// An in-memory knowledge store with the semantics of the database schema: keyed upserts
/// that replace whole rows, cascading deletes, counters recomputed from the rows. The laws
/// proved here (message counts, cascades, non-destructive upserts, round trips) hold of this
/// model; the statements that `rows` builds for the database engine are written to the same
/// semantics, but the engine's execution of them is not verified.
#[derive(Debug)]
pub struct KnowledgeStore {
    pub projects: Vec<Project>,
    pub conversations: Vec<Conversation>,
    pub messages: Vec<Message>,
    pub chunks: Vec<ChunkRow>,
}

impl View for KnowledgeStore {
    type V = StoreView;

    open spec fn view(&self) -> StoreView {
        StoreView {
            projects: self.projects@,
            conversations: self.conversations@,
            messages: message_views(self.messages@),
            chunks: self.chunks@,
        }
    }
}

/// Position of the first project with identifier `id`.
fn find_project(ps: &Vec<Project>, id: &str) -> (r: Option<usize>)
    ensures
        r matches Some(i) ==> i == project_index(ps@, id@),
        r is None ==> project_index(ps@, id@) < 0,
{
    let mut i: usize = 0;
    while i < ps.len()
        invariant
            i <= ps.len(),
            project_index(ps@.subrange(0, i as int), id@) < 0,
        decreases ps.len() - i,
    {
        let ghost pre = ps@.subrange(0, i + 1);
        proof {
            assert(pre.drop_last() =~= ps@.subrange(0, i as int));
        }
        if str_eq(ps[i].id.as_str(), id) {
            proof {
                lemma_index_prefix_project(ps@, id@, i as int + 1);
            }
            return Some(i);
        }
        i = i + 1;
    }
    proof {
        assert(ps@.subrange(0, ps@.len() as int) =~= ps@);
    }
    None
}

/// A first match in a prefix is the first match in the whole sequence.
proof fn lemma_index_prefix_project(ps: Seq<Project>, id: Seq<char>, k: int)
    requires
        0 <= k <= ps.len(),
        project_index(ps.subrange(0, k), id) >= 0,
    ensures
        project_index(ps, id) == project_index(ps.subrange(0, k), id),
    decreases ps.len() - k,
{
    if k < ps.len() {
        assert(ps.subrange(0, k + 1).drop_last() =~= ps.subrange(0, k));
        lemma_index_prefix_project(ps, id, k + 1);
    } else {
        assert(ps.subrange(0, k) =~= ps);
    }
}

fn has_conversation_exec(cs: &Vec<Conversation>, id: &str) -> (r: bool)
    ensures
        r == has_conversation(cs@, id@),
{
    let mut i: usize = 0;
    while i < cs.len()
        invariant
            i <= cs.len(),
            forall|k: int| 0 <= k < i ==> (#[trigger] cs@[k]).id@ != id@,
        decreases cs.len() - i,
    {
        if str_eq(cs[i].id.as_str(), id) {
            return true;
        }
        i = i + 1;
    }
    false
}

impl KnowledgeStore {
    /// An empty store.
    pub fn new() -> (r: Self)
        ensures
            r@.projects.len() == 0,
            r@.conversations.len() == 0,
            r@.messages.len() == 0,
            r@.chunks.len() == 0,
            r@.wf(),
    {
        KnowledgeStore { projects: Vec::new(), conversations: Vec::new(), messages: Vec::new(), chunks: Vec::new() }
    }

    /// Saves a project: an existing row of the same identifier is updated in place and keeps
    /// its creation time; otherwise the project is added. Its conversations and messages stay.
    pub fn save_project(&mut self, p: Project)
        requires
            old(self)@.wf(),
        ensures
            final(self)@ == old(self)@.save_project(p),
            final(self)@.wf(),
    {
        let ghost before = self@;
        let ghost gp = p;
        proof {
            lemma_project_index(before.projects, p.id@);
            lemma_upsert_keeps_projects(before.projects, p);
        }
        match find_project(&self.projects, p.id.as_str()) {
            Some(i) => {
                self.projects.set(i, p);
            },
            None => {
                self.projects.push(p);
            },
        }
        proof {
            assert(self@.projects == upsert_project(before.projects, gp));
            assert(self@.conversations == before.conversations);
            assert(self@.messages == before.messages);
            lemma_upsert_project_unique(before.projects, gp);
            assert forall|i: int| 0 <= i < self@.conversations.len()
                implies has_project(self@.projects, (#[trigger] self@.conversations[i]).project_id@) by {
                assert(has_project(before.projects, before.conversations[i].project_id@));
            }
        }
    }

    /// Deletes a project, its conversations and their messages; returns how many project rows
    /// went.
    pub fn delete_project_by_id(&mut self, id: &str) -> (r: usize)
        requires
            old(self)@.wf(),
        ensures
            final(self)@ == old(self)@.delete_project(id@),
            final(self)@.wf(),
            r == old(self)@.projects.len() - final(self)@.projects.len(),
    {
        let ghost before = self@;
        let mut ps: Vec<Project> = Vec::new();
        let mut i: usize = 0;
        let ghost pp = project_other_than(id@);
        while i < self.projects.len()
            invariant
                i <= self.projects.len(),
                self@ == before,
                pp == project_other_than(id@),
                ps@ == self.projects@.subrange(0, i as int).filter(pp),
            decreases self.projects.len() - i,
        {
            proof {
                lemma_filter_step(self.projects@, i as int, pp);
            }
            proof {
                assert(pp(self.projects@[i as int]) == (self.projects@[i as int].id@ != id@));
            }
            if !str_eq(self.projects[i].id.as_str(), id) {
                ps.push(self.projects[i].duplicate());
            }
            i = i + 1;
        }
        let mut cs: Vec<Conversation> = Vec::new();
        let mut j: usize = 0;
        let ghost cp = outside_project(id@);
        while j < self.conversations.len()
            invariant
                j <= self.conversations.len(),
                self@ == before,
                cp == outside_project(id@),
                cs@ == self.conversations@.subrange(0, j as int).filter(cp),
            decreases self.conversations.len() - j,
        {
            proof {
                lemma_filter_step(self.conversations@, j as int, cp);
            }
            proof {
                assert(cp(self.conversations@[j as int]) == (self.conversations@[j as int].project_id@ != id@));
            }
            if !str_eq(self.conversations[j].project_id.as_str(), id) {
                cs.push(self.conversations[j].duplicate());
            }
            j = j + 1;
        }
        let mut ms: Vec<Message> = Vec::new();
        let mut k: usize = 0;
        let ghost mp = with_conversation_in(cs@);
        while k < self.messages.len()
            invariant
                k <= self.messages.len(),
                self@ == before,
                mp == with_conversation_in(cs@),
                message_views(ms@) == message_views(self.messages@).subrange(0, k as int).filter(mp),
            decreases self.messages.len() - k,
        {
            proof {
                lemma_filter_step(message_views(self.messages@), k as int, mp);
                assert(message_views(self.messages@)[k as int] == self.messages@[k as int]@);
                assert(mp(self.messages@[k as int]@) == has_conversation(cs@, self.messages@[k as int].conversation_id@));
            }
            if has_conversation_exec(&cs, self.messages[k].conversation_id.as_str()) {
                let d = self.messages[k].duplicate();
                proof {
                    assert(message_views(ms@.push(d)) =~= message_views(ms@).push(d@));
                }
                ms.push(d);
            }
            k = k + 1;
        }
        proof {
            assert(self.projects@.subrange(0, self.projects@.len() as int) =~= self.projects@);
            assert(self.conversations@.subrange(0, self.conversations@.len() as int) =~= self.conversations@);
            assert(message_views(self.messages@).subrange(0, self.messages@.len() as int) =~= message_views(self.messages@));
        }
        let removed = self.projects.len() - ps.len();
        self.projects = ps;
        self.conversations = cs;
        self.messages = ms;
        proof {
            lemma_delete_project_wf(before, id@);
        }
        removed
    }
}

proof fn lemma_upsert_project_unique(ps: Seq<Project>, p: Project)
    requires
        unique_keys(ps, project_key()),
    ensures
        unique_keys(upsert_project(ps, p), project_key()),
{
    lemma_project_index(ps, p.id@);
    let i = project_index(ps, p.id@);
    if i >= 0 {
        lemma_update_unique(ps, i, p, project_key());
    } else {
        assert forall|k: int| 0 <= k < ps.len() implies project_key()(#[trigger] ps[k]) != project_key()(p) by {
            assert(!has_project(ps, p.id@));
        }
        lemma_push_unique(ps, p, project_key());
    }
}

proof fn lemma_upsert_keeps_projects(ps: Seq<Project>, p: Project)
    ensures
        forall|id: Seq<char>| has_project(ps, id) ==> has_project(upsert_project(ps, p), id),
{
    lemma_project_index(ps, p.id@);
    let r = upsert_project(ps, p);
    assert forall|id: Seq<char>| has_project(ps, id) implies has_project(r, id) by {
        let i = choose|i: int| 0 <= i < ps.len() && (#[trigger] ps[i]).id@ == id;
        assert(r[i].id@ == id);
    }
}

/// Deleting a project leaves a store without orphans whose counters still hold.
pub proof fn lemma_delete_project_wf(s: StoreView, id: Seq<char>)
    requires
        s.wf(),
    ensures
        s.delete_project(id).wf(),
{
    let t = s.delete_project(id);
    let pp = project_other_than(id);
    let cp = outside_project(id);
    let mp = with_conversation_in(t.conversations);
    lemma_filter_unique(s.projects, pp, project_key());
    lemma_filter_unique(s.conversations, cp, conversation_key());
    lemma_filter_unique(s.messages, mp, message_key());
    assert forall|i: int| 0 <= i < t.conversations.len() implies has_project(t.projects, (#[trigger] t.conversations[i]).project_id@) by {
        let c = t.conversations[i];
        s.conversations.lemma_filter_pred(cp, i);
        assert(t.conversations.contains(c));
        s.conversations.lemma_filter_contains_rev(cp, c);
        let k = choose|k: int| 0 <= k < s.conversations.len() && s.conversations[k] == c;
        assert(has_project(s.projects, s.conversations[k].project_id@));
        let j = choose|j: int| 0 <= j < s.projects.len() && (#[trigger] s.projects[j]).id@ == c.project_id@;
        assert(pp(s.projects[j]));
        lemma_filter_has(s.projects, pp, j);
    }
    assert forall|i: int| 0 <= i < t.messages.len() implies has_conversation(t.conversations, (#[trigger] t.messages[i]).conversation_id) by {
        s.messages.lemma_filter_pred(mp, i);
    }
    assert forall|i: int| 0 <= i < t.conversations.len() implies (#[trigger] t.conversations[i]).message_count
        == messages_of(t.messages, t.conversations[i].id@).len() by {
        let c = t.conversations[i];
        assert(t.conversations.contains(c));
        s.conversations.lemma_filter_contains_rev(cp, c);
        let k = choose|k: int| 0 <= k < s.conversations.len() && s.conversations[k] == c;
        assert(c.message_count == messages_of(s.messages, c.id@).len());
        let q = in_conversation(c.id@);
        assert forall|m: MessageView| #[trigger] q(m) implies mp(m) by {
            assert(t.conversations[i].id@ == m.conversation_id);
        }
        lemma_filter_filter(s.messages, mp, q);
    }
}

proof fn lemma_filter_has(ps: Seq<Project>, pred: spec_fn(Project) -> bool, j: int)
    requires
        0 <= j < ps.len(),
        pred(ps[j]),
    ensures
        has_project(ps.filter(pred), ps[j].id@),
{
    lemma_filter_contains_elem(ps, pred, j);
    let f = ps.filter(pred);
    let k = choose|k: int| 0 <= k < f.len() && f[k] == ps[j];
    assert(f[k].id@ == ps[j].id@);
}

proof fn lemma_filter_contains_elem<A>(s: Seq<A>, pred: spec_fn(A) -> bool, j: int)
    requires
        0 <= j < s.len(),
        pred(s[j]),
    ensures
        s.filter(pred).contains(s[j]),
    decreases s.len(),
{
    reveal(Seq::filter);
    if j < s.len() - 1 {
        lemma_filter_contains_elem(s.drop_last(), pred, j);
        assert(s.drop_last()[j] == s[j]);
        let f = s.drop_last().filter(pred);
        let k = choose|k: int| 0 <= k < f.len() && f[k] == s[j];
        if pred(s.last()) {
            assert(s.filter(pred)[k] == f[k]);
        }
    } else {
        assert(s.filter(pred).last() == s[j]);
    }
}

} // verus!

verus! {

/// Saving a conversation: an existing row of the same identifier takes all of the
/// conversation's values; otherwise it is added. Either way its message count is recomputed.
pub open spec fn upsert_conversation(cs: Seq<Conversation>, ms: Seq<MessageView>, c: Conversation) -> Seq<Conversation> {
    let i = conversation_index(cs, c.id@);
    let n = messages_of(ms, c.id@).len() as u32;
    if i >= 0 {
        cs.update(i, Conversation { message_count: n, ..c })
    } else {
        cs.push(Conversation { message_count: n, ..c })
    }
}

/// Every conversation's message count recomputed from `ms`.
pub open spec fn recount(cs: Seq<Conversation>, ms: Seq<MessageView>) -> Seq<Conversation> {
    cs.map_values(|c: Conversation| Conversation { message_count: messages_of(ms, c.id@).len() as u32, ..c })
}

/// Saving a message: a stored message of the same identifier takes all of the message's
/// values; otherwise the message is added.
pub open spec fn upsert_message(ms: Seq<MessageView>, m: MessageView) -> Seq<MessageView> {
    let j = message_index(ms, m.id);
    if j >= 0 {
        ms.update(j, m)
    } else {
        ms.push(m)
    }
}

impl StoreView {
    pub open spec fn save_conversation(self, c: Conversation) -> StoreView {
        StoreView { conversations: upsert_conversation(self.conversations, self.messages, c), ..self }
    }

    pub open spec fn save_message(self, m: MessageView) -> StoreView {
        let ms = upsert_message(self.messages, m);
        StoreView { messages: ms, conversations: recount(self.conversations, ms), ..self }
    }

    /// Deleting a conversation removes it and its messages.
    pub open spec fn delete_conversation(self, id: Seq<char>) -> StoreView {
        let cs = self.conversations.filter(conversation_other_than(id));
        StoreView { conversations: cs, messages: self.messages.filter(with_conversation_in(cs)), ..self }
    }

    /// Deleting messages that match `pred`; every count is recomputed.
    pub open spec fn delete_messages(self, pred: spec_fn(MessageView) -> bool) -> StoreView {
        let ms = self.messages.filter(pred);
        StoreView { messages: ms, conversations: recount(self.conversations, ms), ..self }
    }
}

pub open spec fn conversation_other_than(id: Seq<char>) -> spec_fn(Conversation) -> bool {
    |c: Conversation| c.id@ != id
}

pub open spec fn message_other_than(id: Seq<char>) -> spec_fn(MessageView) -> bool {
    |m: MessageView| m.id != id
}

pub open spec fn outside_conversation(cid: Seq<char>) -> spec_fn(MessageView) -> bool {
    |m: MessageView| m.conversation_id != cid
}

proof fn lemma_conversation_index(cs: Seq<Conversation>, id: Seq<char>)
    ensures
        -1 <= conversation_index(cs, id) < cs.len(),
        conversation_index(cs, id) >= 0 ==> cs[conversation_index(cs, id)].id@ == id,
        conversation_index(cs, id) < 0 ==> !has_conversation(cs, id),
    decreases cs.len(),
{
    if cs.len() > 0 {
        lemma_conversation_index(cs.drop_last(), id);
        if conversation_index(cs, id) < 0 {
            assert forall|i: int| 0 <= i < cs.len() implies (#[trigger] cs[i]).id@ != id by {
                if i < cs.len() - 1 {
                    assert(cs.drop_last()[i] == cs[i]);
                }
            }
        }
    }
}

proof fn lemma_message_index(ms: Seq<MessageView>, id: Seq<char>)
    ensures
        -1 <= message_index(ms, id) < ms.len(),
        message_index(ms, id) >= 0 ==> ms[message_index(ms, id)].id == id,
        message_index(ms, id) < 0 ==> forall|k: int| 0 <= k < ms.len() ==> (#[trigger] ms[k]).id != id,
    decreases ms.len(),
{
    if ms.len() > 0 {
        lemma_message_index(ms.drop_last(), id);
        if message_index(ms, id) < 0 {
            assert forall|k: int| 0 <= k < ms.len() implies (#[trigger] ms[k]).id != id by {
                if k < ms.len() - 1 {
                    assert(ms.drop_last()[k] == ms[k]);
                }
            }
        }
    }
}

proof fn lemma_upsert_message_unique(ms: Seq<MessageView>, m: MessageView)
    requires
        unique_keys(ms, message_key()),
    ensures
        unique_keys(upsert_message(ms, m), message_key()),
{
    lemma_message_index(ms, m.id);
    let j = message_index(ms, m.id);
    if j >= 0 {
        lemma_update_unique(ms, j, m, message_key());
    } else {
        lemma_push_unique(ms, m, message_key());
    }
}

/// A count never exceeds the number of messages.
proof fn lemma_count_bound(ms: Seq<MessageView>, cid: Seq<char>)
    ensures
        messages_of(ms, cid).len() <= ms.len(),
{
}

/// Changing a message without changing its conversation leaves every count as it was.
proof fn lemma_filter_update_len(ms: Seq<MessageView>, j: int, x: MessageView, cid: Seq<char>)
    requires
        0 <= j < ms.len(),
        x.conversation_id == ms[j].conversation_id,
    ensures
        messages_of(ms.update(j, x), cid).len() == messages_of(ms, cid).len(),
    decreases ms.len(),
{
    reveal(Seq::filter);
    let u = ms.update(j, x);
    if j == ms.len() - 1 {
        assert(u.drop_last() =~= ms.drop_last());
    } else {
        assert(u.drop_last() =~= ms.drop_last().update(j, x));
        lemma_filter_update_len(ms.drop_last(), j, x, cid);
    }
}

proof fn lemma_filter_push<A>(s: Seq<A>, x: A, p: spec_fn(A) -> bool)
    ensures
        s.push(x).filter(p) == if p(x) { s.filter(p).push(x) } else { s.filter(p) },
{
    reveal(Seq::filter);
    assert(s.push(x).drop_last() =~= s);
}

/// Recounting against the current messages keeps a store without orphans well formed.
proof fn lemma_recount_wf(s: StoreView, ms: Seq<MessageView>)
    requires
        forall|i: int| 0 <= i < s.conversations.len() ==> has_project(s.projects, (#[trigger] s.conversations[i]).project_id@),
        forall|i: int| 0 <= i < ms.len() ==> has_conversation(s.conversations, (#[trigger] ms[i]).conversation_id),
        ms.len() <= u32::MAX,
        unique_keys(s.projects, project_key()),
        unique_keys(s.conversations, conversation_key()),
        unique_keys(ms, message_key()),
        unique_keys(s.chunks, chunk_key()),
    ensures
        (StoreView { messages: ms, conversations: recount(s.conversations, ms), ..s }).wf(),
{
    let cs = recount(s.conversations, ms);
    assert forall|i: int, j: int| 0 <= i < j < cs.len() implies conversation_key()(#[trigger] cs[i]) != conversation_key()(#[trigger] cs[j]) by {
        assert(cs[i].id == s.conversations[i].id && cs[j].id == s.conversations[j].id);
    }
    let t = StoreView { messages: ms, conversations: cs, ..s };
    assert forall|i: int| 0 <= i < cs.len() implies has_project(t.projects, (#[trigger] cs[i]).project_id@) by {
        assert(cs[i].project_id == s.conversations[i].project_id);
    }
    assert forall|i: int| 0 <= i < ms.len() implies has_conversation(cs, (#[trigger] ms[i]).conversation_id) by {
        let k = choose|k: int| 0 <= k < s.conversations.len() && (#[trigger] s.conversations[k]).id@ == ms[i].conversation_id;
        assert(cs[k].id@ == s.conversations[k].id@);
    }
    assert forall|i: int| 0 <= i < cs.len() implies (#[trigger] cs[i]).message_count == messages_of(ms, cs[i].id@).len() by {
        lemma_count_bound(ms, s.conversations[i].id@);
    }
}

impl KnowledgeStore {
    /// Number of stored messages of conversation `cid`.
    pub fn get_conversation_message_count(&self, cid: &str) -> (r: usize)
        ensures
            r == messages_of(self@.messages, cid@).len(),
    {
        let mut n: usize = 0;
        let mut i: usize = 0;
        let ghost ms = self@.messages;
        let ghost p = in_conversation(cid@);
        while i < self.messages.len()
            invariant
                i <= self.messages.len(),
                ms == message_views(self.messages@),
                p == in_conversation(cid@),
                n == ms.subrange(0, i as int).filter(p).len(),
                n <= i,
            decreases self.messages.len() - i,
        {
            proof {
                lemma_filter_step(ms, i as int, p);
                assert(ms[i as int] == self.messages@[i as int]@);
            }
            if str_eq(self.messages[i].conversation_id.as_str(), cid) {
                n = n + 1;
            }
            i = i + 1;
        }
        proof {
            assert(ms.subrange(0, ms.len() as int) =~= ms);
        }
        n
    }

    /// Recomputes every conversation's message count.
    fn recount_all(&mut self)
        requires
            old(self).messages.len() <= u32::MAX,
        ensures
            final(self)@ == (StoreView { conversations: recount(old(self)@.conversations, old(self)@.messages), ..old(self)@ }),
    {
        let ghost before = self@;
        let mut i: usize = 0;
        while i < self.conversations.len()
            invariant
                self.messages.len() <= u32::MAX,
                i <= self.conversations.len(),
                self.conversations.len() == before.conversations.len(),
                self@.projects == before.projects,
                self@.messages == before.messages,
                self@.chunks == before.chunks,
                forall|k: int| 0 <= k < i ==> self.conversations@[k] == recount(before.conversations, before.messages)[k],
                forall|k: int| i <= k < self.conversations.len() ==> self.conversations@[k] == before.conversations[k],
            decreases self.conversations.len() - i,
        {
            let n = self.get_conversation_message_count(self.conversations[i].id.as_str());
            proof {
                lemma_count_bound(before.messages, self.conversations@[i as int].id@);
            }
            let c = self.conversations[i].duplicate();
            self.conversations.set(i, Conversation { message_count: n as u32, ..c });
            i = i + 1;
        }
        proof {
            assert(self@.conversations =~= recount(before.conversations, before.messages));
        }
    }

    /// Saves a conversation of an existing project (see `upsert_conversation`).
    pub fn save_conversation(&mut self, c: Conversation) -> (r: Result<(), StoreError>)
        requires
            old(self)@.wf(),
            old(self).messages.len() <= u32::MAX,
        ensures
            !has_project(old(self)@.projects, c.project_id@) ==> r == Err::<(), _>(StoreError::MissingParent) && final(self)@ == old(self)@,
            has_project(old(self)@.projects, c.project_id@) ==> r is Ok && final(self)@ == old(self)@.save_conversation(c),
            final(self)@.wf(),
    {
        let ghost before = self@;
        let ghost gc = c;
        if find_project(&self.projects, c.project_id.as_str()).is_none() {
            proof {
                lemma_project_index(before.projects, c.project_id@);
            }
            return Err(StoreError::MissingParent);
        }
        proof {
            lemma_project_index(before.projects, c.project_id@);
            lemma_conversation_index(before.conversations, c.id@);
            lemma_count_bound(before.messages, c.id@);
        }
        let n = self.get_conversation_message_count(c.id.as_str()) as u32;
        match find_conversation(&self.conversations, c.id.as_str()) {
            Some(i) => {
                self.conversations.set(i, Conversation { message_count: n, ..c });
            },
            None => {
                self.conversations.push(Conversation { message_count: n, ..c });
            },
        }
        proof {
            let t = self@;
            assert(t.conversations == upsert_conversation(before.conversations, before.messages, gc));
            assert(t.projects == before.projects && t.messages == before.messages);
            let ci = conversation_index(before.conversations, gc.id@);
            let pi = project_index(before.projects, gc.project_id@);
            assert(before.projects[pi].id@ == gc.project_id@);
            assert(has_project(before.projects, gc.project_id@));
            assert forall|i: int| 0 <= i < t.conversations.len() implies has_project(t.projects, (#[trigger] t.conversations[i]).project_id@) by {
                if (ci >= 0 && i == ci) || i >= before.conversations.len() {
                    assert(t.conversations[i].project_id == gc.project_id);
                } else {
                    assert(t.conversations[i] == before.conversations[i]);
                }
            }
            if ci >= 0 {
                lemma_update_unique(before.conversations, ci, Conversation { message_count: n, ..gc }, conversation_key());
            } else {
                assert forall|k: int| 0 <= k < before.conversations.len() implies conversation_key()(#[trigger] before.conversations[k])
                    != conversation_key()(Conversation { message_count: n, ..gc }) by {
                    assert(!has_conversation(before.conversations, gc.id@));
                }
                lemma_push_unique(before.conversations, Conversation { message_count: n, ..gc }, conversation_key());
            }
            assert forall|i: int| 0 <= i < t.messages.len() implies has_conversation(t.conversations, (#[trigger] t.messages[i]).conversation_id) by {
                let k = choose|k: int| 0 <= k < before.conversations.len() && (#[trigger] before.conversations[k]).id@ == t.messages[i].conversation_id;
                assert(t.conversations[k].id@ == before.conversations[k].id@);
            }
        }
        Ok(())
    }
}

fn find_conversation(cs: &Vec<Conversation>, id: &str) -> (r: Option<usize>)
    ensures
        r matches Some(i) ==> i == conversation_index(cs@, id@),
        r is None ==> conversation_index(cs@, id@) < 0,
{
    let mut i: usize = 0;
    while i < cs.len()
        invariant
            i <= cs.len(),
            conversation_index(cs@.subrange(0, i as int), id@) < 0,
        decreases cs.len() - i,
    {
        proof {
            assert(cs@.subrange(0, i + 1).drop_last() =~= cs@.subrange(0, i as int));
        }
        if str_eq(cs[i].id.as_str(), id) {
            proof {
                lemma_index_prefix_conversation(cs@, id@, i as int + 1);
            }
            return Some(i);
        }
        i = i + 1;
    }
    proof {
        assert(cs@.subrange(0, cs@.len() as int) =~= cs@);
    }
    None
}

proof fn lemma_index_prefix_conversation(cs: Seq<Conversation>, id: Seq<char>, k: int)
    requires
        0 <= k <= cs.len(),
        conversation_index(cs.subrange(0, k), id) >= 0,
    ensures
        conversation_index(cs, id) == conversation_index(cs.subrange(0, k), id),
    decreases cs.len() - k,
{
    if k < cs.len() {
        assert(cs.subrange(0, k + 1).drop_last() =~= cs.subrange(0, k));
        lemma_index_prefix_conversation(cs, id, k + 1);
    } else {
        assert(cs.subrange(0, k) =~= cs);
    }
}

} // verus!

verus! {

fn find_message(ms: &Vec<Message>, id: &str) -> (r: Option<usize>)
    ensures
        r matches Some(i) ==> i == message_index(message_views(ms@), id@),
        r is None ==> message_index(message_views(ms@), id@) < 0,
{
    let ghost v = message_views(ms@);
    let mut i: usize = 0;
    while i < ms.len()
        invariant
            i <= ms.len(),
            v == message_views(ms@),
            message_index(v.subrange(0, i as int), id@) < 0,
        decreases ms.len() - i,
    {
        proof {
            assert(v.subrange(0, i + 1).drop_last() =~= v.subrange(0, i as int));
            assert(v[i as int] == ms@[i as int]@);
        }
        if str_eq(ms[i].id.as_str(), id) {
            proof {
                lemma_index_prefix_message(v, id@, i as int + 1);
            }
            return Some(i);
        }
        i = i + 1;
    }
    proof {
        assert(v.subrange(0, v.len() as int) =~= v);
    }
    None
}

proof fn lemma_index_prefix_message(ms: Seq<MessageView>, id: Seq<char>, k: int)
    requires
        0 <= k <= ms.len(),
        message_index(ms.subrange(0, k), id) >= 0,
    ensures
        message_index(ms, id) == message_index(ms.subrange(0, k), id),
    decreases ms.len() - k,
{
    if k < ms.len() {
        assert(ms.subrange(0, k + 1).drop_last() =~= ms.subrange(0, k));
        lemma_index_prefix_message(ms, id, k + 1);
    } else {
        assert(ms.subrange(0, k) =~= ms);
    }
}

impl KnowledgeStore {
    /// Saves a message of an existing conversation (see `upsert_message`); the counts of the
    /// conversations are recomputed.
    pub fn save_message(&mut self, m: Message) -> (r: Result<(), StoreError>)
        requires
            old(self)@.wf(),
            old(self).messages.len() < u32::MAX,
        ensures
            !has_conversation(old(self)@.conversations, m@.conversation_id) ==> r == Err::<(), _>(StoreError::MissingParent) && final(self)@ == old(self)@,
            has_conversation(old(self)@.conversations, m@.conversation_id) ==> r is Ok && final(self)@ == old(self)@.save_message(m@),
            final(self)@.wf(),
    {
        let ghost before = self@;
        let ghost gm = m@;
        if !has_conversation_exec(&self.conversations, m.conversation_id.as_str()) {
            return Err(StoreError::MissingParent);
        }
        proof {
            lemma_message_index(before.messages, m@.id);
        }
        match find_message(&self.messages, m.id.as_str()) {
            Some(j) => {
                self.messages.set(j, m);
                proof {
                    assert(message_views(self.messages@) =~= before.messages.update(j as int, gm));
                }
            },
            None => {
                let ghost mv = m@;
                self.messages.push(m);
                proof {
                    assert(message_views(self.messages@) =~= before.messages.push(mv));
                }
            },
        }
        let ghost ms = self@.messages;
        proof {
            assert(ms == upsert_message(before.messages, gm));
            lemma_upsert_message_unique(before.messages, gm);
            assert forall|i: int| 0 <= i < ms.len() implies has_conversation(before.conversations, (#[trigger] ms[i]).conversation_id) by {
                let j = message_index(before.messages, gm.id);
                if j >= 0 {
                    if i != j {
                        assert(ms[i] == before.messages[i]);
                    }
                } else if i < before.messages.len() {
                    assert(ms[i] == before.messages[i]);
                }
            }
        }
        self.recount_all();
        proof {
            lemma_recount_wf(before, ms);
        }
        Ok(())
    }

    /// Deletes a conversation and its messages; returns how many conversation rows went.
    pub fn delete_conversation_by_id(&mut self, id: &str) -> (r: usize)
        requires
            old(self)@.wf(),
        ensures
            final(self)@ == old(self)@.delete_conversation(id@),
            final(self)@.wf(),
            r == old(self)@.conversations.len() - final(self)@.conversations.len(),
    {
        let ghost before = self@;
        let mut cs: Vec<Conversation> = Vec::new();
        let mut j: usize = 0;
        let ghost cp = conversation_other_than(id@);
        while j < self.conversations.len()
            invariant
                j <= self.conversations.len(),
                self@ == before,
                cp == conversation_other_than(id@),
                cs@ == self.conversations@.subrange(0, j as int).filter(cp),
            decreases self.conversations.len() - j,
        {
            proof {
                lemma_filter_step(self.conversations@, j as int, cp);
                assert(cp(self.conversations@[j as int]) == (self.conversations@[j as int].id@ != id@));
            }
            if !str_eq(self.conversations[j].id.as_str(), id) {
                cs.push(self.conversations[j].duplicate());
            }
            j = j + 1;
        }
        let ms = self.messages_with_conversation_in(&cs);
        proof {
            assert(self.conversations@.subrange(0, self.conversations@.len() as int) =~= self.conversations@);
        }
        let removed = self.conversations.len() - cs.len();
        self.conversations = cs;
        self.messages = ms;
        proof {
            lemma_delete_conversation_wf(before, id@);
        }
        removed
    }

    /// The messages whose conversation is among `cs`, in stored order.
    fn messages_with_conversation_in(&self, cs: &Vec<Conversation>) -> (r: Vec<Message>)
        ensures
            message_views(r@) == self@.messages.filter(with_conversation_in(cs@)),
    {
        let mut ms: Vec<Message> = Vec::new();
        let mut k: usize = 0;
        let ghost mp = with_conversation_in(cs@);
        while k < self.messages.len()
            invariant
                k <= self.messages.len(),
                mp == with_conversation_in(cs@),
                message_views(ms@) == message_views(self.messages@).subrange(0, k as int).filter(mp),
            decreases self.messages.len() - k,
        {
            proof {
                lemma_filter_step(message_views(self.messages@), k as int, mp);
                assert(message_views(self.messages@)[k as int] == self.messages@[k as int]@);
                assert(mp(self.messages@[k as int]@) == has_conversation(cs@, self.messages@[k as int].conversation_id@));
            }
            if has_conversation_exec(cs, self.messages[k].conversation_id.as_str()) {
                let d = self.messages[k].duplicate();
                proof {
                    assert(message_views(ms@.push(d)) =~= message_views(ms@).push(d@));
                }
                ms.push(d);
            }
            k = k + 1;
        }
        proof {
            assert(message_views(self.messages@).subrange(0, self.messages@.len() as int) =~= message_views(self.messages@));
        }
        ms
    }

    /// The messages not matching `id` (by message, or by conversation), in stored order.
    fn messages_without(&self, id: &str, by_conversation: bool) -> (r: Vec<Message>)
        ensures
            message_views(r@) == self@.messages.filter(
                if by_conversation { outside_conversation(id@) } else { message_other_than(id@) }),
    {
        let mut ms: Vec<Message> = Vec::new();
        let mut k: usize = 0;
        let ghost mp = if by_conversation { outside_conversation(id@) } else { message_other_than(id@) };
        while k < self.messages.len()
            invariant
                k <= self.messages.len(),
                mp == (if by_conversation { outside_conversation(id@) } else { message_other_than(id@) }),
                message_views(ms@) == message_views(self.messages@).subrange(0, k as int).filter(mp),
            decreases self.messages.len() - k,
        {
            proof {
                lemma_filter_step(message_views(self.messages@), k as int, mp);
                assert(message_views(self.messages@)[k as int] == self.messages@[k as int]@);
            }
            let key = if by_conversation { self.messages[k].conversation_id.as_str() } else { self.messages[k].id.as_str() };
            if !str_eq(key, id) {
                let d = self.messages[k].duplicate();
                proof {
                    assert(message_views(ms@.push(d)) =~= message_views(ms@).push(d@));
                }
                ms.push(d);
            }
            k = k + 1;
        }
        proof {
            assert(message_views(self.messages@).subrange(0, self.messages@.len() as int) =~= message_views(self.messages@));
        }
        ms
    }

    /// Deletes one message; the counts are recomputed. Returns how many rows went.
    pub fn delete_message_by_id(&mut self, id: &str) -> (r: usize)
        requires
            old(self)@.wf(),
            old(self).messages.len() <= u32::MAX,
        ensures
            final(self)@ == old(self)@.delete_messages(message_other_than(id@)),
            final(self)@.wf(),
            r == old(self)@.messages.len() - final(self)@.messages.len(),
    {
        self.delete_matching(id, false)
    }

    /// Deletes every message of a conversation; the counts are recomputed. Returns how many
    /// rows went.
    pub fn delete_messages_by_conversation(&mut self, conversation_id: &str) -> (r: usize)
        requires
            old(self)@.wf(),
            old(self).messages.len() <= u32::MAX,
        ensures
            final(self)@ == old(self)@.delete_messages(outside_conversation(conversation_id@)),
            final(self)@.wf(),
            r == old(self)@.messages.len() - final(self)@.messages.len(),
    {
        self.delete_matching(conversation_id, true)
    }

    fn delete_matching(&mut self, id: &str, by_conversation: bool) -> (r: usize)
        requires
            old(self)@.wf(),
            old(self).messages.len() <= u32::MAX,
        ensures
            final(self)@ == old(self)@.delete_messages(
                if by_conversation { outside_conversation(id@) } else { message_other_than(id@) }),
            final(self)@.wf(),
            r == old(self)@.messages.len() - final(self)@.messages.len(),
    {
        let ghost before = self@;
        let ghost p = if by_conversation { outside_conversation(id@) } else { message_other_than(id@) };
        let ms = self.messages_without(id, by_conversation);
        proof {
            assert(message_views(ms@).len() == ms@.len());
            assert(before.messages.filter(p).len() <= before.messages.len());
        }
        let removed = self.messages.len() - ms.len();
        let ghost kept = message_views(ms@);
        self.messages = ms;
        proof {
            assert forall|i: int| 0 <= i < kept.len() implies has_conversation(before.conversations, (#[trigger] kept[i]).conversation_id) by {
                assert(kept.contains(kept[i]));
                before.messages.lemma_filter_contains_rev(p, kept[i]);
                let k = choose|k: int| 0 <= k < before.messages.len() && before.messages[k] == kept[i];
            }
            lemma_filter_unique(before.messages, p, message_key());
        }
        self.recount_all();
        proof {
            lemma_recount_wf(before, kept);
        }
        removed
    }
}

/// Deleting a conversation leaves a store without orphans whose counters still hold.
pub proof fn lemma_delete_conversation_wf(s: StoreView, id: Seq<char>)
    requires
        s.wf(),
    ensures
        s.delete_conversation(id).wf(),
{
    let t = s.delete_conversation(id);
    let cp = conversation_other_than(id);
    let mp = with_conversation_in(t.conversations);
    lemma_filter_unique(s.conversations, cp, conversation_key());
    lemma_filter_unique(s.messages, mp, message_key());
    assert forall|i: int| 0 <= i < t.conversations.len() implies has_project(t.projects, (#[trigger] t.conversations[i]).project_id@) by {
        let c = t.conversations[i];
        assert(t.conversations.contains(c));
        s.conversations.lemma_filter_contains_rev(cp, c);
        let k = choose|k: int| 0 <= k < s.conversations.len() && s.conversations[k] == c;
        assert(has_project(s.projects, s.conversations[k].project_id@));
    }
    assert forall|i: int| 0 <= i < t.messages.len() implies has_conversation(t.conversations, (#[trigger] t.messages[i]).conversation_id) by {
        s.messages.lemma_filter_pred(mp, i);
    }
    assert forall|i: int| 0 <= i < t.conversations.len() implies (#[trigger] t.conversations[i]).message_count
        == messages_of(t.messages, t.conversations[i].id@).len() by {
        let c = t.conversations[i];
        assert(t.conversations.contains(c));
        s.conversations.lemma_filter_contains_rev(cp, c);
        let k = choose|k: int| 0 <= k < s.conversations.len() && s.conversations[k] == c;
        assert(c.message_count == messages_of(s.messages, c.id@).len());
        let q = in_conversation(c.id@);
        assert forall|m: MessageView| #[trigger] q(m) implies mp(m) by {
            assert(t.conversations[i].id@ == m.conversation_id);
        }
        lemma_filter_filter(s.messages, mp, q);
    }
}

} // verus!

verus! {

/// `r` holds the rows of `f`, each once, in some order.
pub open spec fn is_reordering<A>(r: Seq<A>, f: Seq<A>) -> bool {
    r.len() == f.len() && exists|ord: Seq<usize>| is_permutation(ord, f.len() as nat)
        && forall|i: int| 0 <= i < r.len() ==> r[i] == f[#[trigger] ord[i] as int]
}

pub open spec fn project_rows_sorted(r: Seq<Project>) -> bool {
    forall|i: int, j: int| 0 <= i < j < r.len() ==> (#[trigger] r[i]).updated_at >= (#[trigger] r[j]).updated_at
}

pub open spec fn conversation_rows_sorted(r: Seq<Conversation>) -> bool {
    forall|i: int, j: int| 0 <= i < j < r.len() ==> (#[trigger] r[i]).updated_at >= (#[trigger] r[j]).updated_at
}

pub open spec fn message_rows_sorted(r: Seq<MessageView>) -> bool {
    forall|i: int, j: int| 0 <= i < j < r.len() ==> (#[trigger] r[i]).timestamp <= (#[trigger] r[j]).timestamp
}

impl KnowledgeStore {
    /// All projects, most recently updated first.
    pub fn load_all_projects(&self) -> (r: Vec<Project>)
        ensures
            is_reordering(r@, self@.projects),
            project_rows_sorted(r@),
    {
        let mut keys: Vec<i64> = Vec::new();
        let mut i: usize = 0;
        while i < self.projects.len()
            invariant
                i <= self.projects.len(),
                keys.len() == i,
                forall|k: int| 0 <= k < i ==> keys@[k] == self.projects@[k].updated_at,
            decreases self.projects.len() - i,
        {
            keys.push(self.projects[i].updated_at);
            i = i + 1;
        }
        let ord = sort_order(&keys, true);
        let mut out: Vec<Project> = Vec::new();
        let mut k: usize = 0;
        while k < ord.len()
            invariant
                k <= ord.len(),
                ord.len() == self.projects.len(),
                keys.len() == self.projects.len(),
                is_permutation(ord@, keys.len() as nat),
                forall|a: int| 0 <= a < keys.len() ==> keys@[a] == self.projects@[a].updated_at,
                out.len() == k,
                forall|a: int| 0 <= a < k ==> out@[a] == self.projects@[#[trigger] ord@[a] as int],
            decreases ord.len() - k,
        {
            out.push(self.projects[ord[k]].duplicate());
            k = k + 1;
        }
        proof {
            assert forall|a: int, b: int| 0 <= a < b < out.len() implies (#[trigger] out@[a]).updated_at >= (#[trigger] out@[b]).updated_at by {
                assert(keys@[ord@[a] as int] >= keys@[ord@[b] as int]);
            }
        }
        out
    }

    /// The conversations of project `pid` (all of them when `pid` is `None`), most recently
    /// updated first.
    pub fn load_conversations(&self, pid: Option<&str>) -> (r: Vec<Conversation>)
        ensures
            is_reordering(r@, match pid {
                Some(p) => conversations_of(self@.conversations, p@),
                None => self@.conversations,
            }),
            conversation_rows_sorted(r@),
    {
        let ghost f = match pid {
            Some(p) => conversations_of(self@.conversations, p@),
            None => self@.conversations,
        };
        let mut pos: Vec<usize> = Vec::new();
        let mut i: usize = 0;
        let ghost pred = match pid {
            Some(p) => in_project(p@),
            None => |c: Conversation| true,
        };
        proof {
            reveal(Seq::filter);
            if pid is None {
                lemma_filter_true(self@.conversations, pred);
            }
        }
        while i < self.conversations.len()
            invariant
                i <= self.conversations.len(),
                pred == (match pid { Some(p) => in_project(p@), None => |c: Conversation| true }),
                f == self@.conversations.filter(pred),
                forall|k: int| 0 <= k < pos.len() ==> (#[trigger] pos@[k]) < self.conversations.len(),
                pos@.map_values(|k: usize| self.conversations@[k as int]) == self.conversations@.subrange(0, i as int).filter(pred),
            decreases self.conversations.len() - i,
        {
            proof {
                lemma_filter_step(self.conversations@, i as int, pred);
            }
            let keep = match pid {
                Some(p) => str_eq(self.conversations[i].project_id.as_str(), p),
                None => true,
            };
            if keep {
                proof {
                    assert(pos@.push(i).map_values(|k: usize| self.conversations@[k as int])
                        =~= pos@.map_values(|k: usize| self.conversations@[k as int]).push(self.conversations@[i as int]));
                }
                pos.push(i);
            }
            i = i + 1;
        }
        proof {
            assert(self.conversations@.subrange(0, self.conversations@.len() as int) =~= self.conversations@);
        }
        let ghost fv = pos@.map_values(|k: usize| self.conversations@[k as int]);
        let mut keys: Vec<i64> = Vec::new();
        let mut j: usize = 0;
        while j < pos.len()
            invariant
                j <= pos.len(),
                keys.len() == j,
                forall|k: int| 0 <= k < pos.len() ==> (#[trigger] pos@[k]) < self.conversations.len(),
                forall|k: int| 0 <= k < j ==> keys@[k] == self.conversations@[pos@[k] as int].updated_at,
            decreases pos.len() - j,
        {
            keys.push(self.conversations[pos[j]].updated_at);
            j = j + 1;
        }
        let ord = sort_order(&keys, true);
        let mut out: Vec<Conversation> = Vec::new();
        let mut k: usize = 0;
        while k < ord.len()
            invariant
                k <= ord.len(),
                ord.len() == pos.len(),
                keys.len() == pos.len(),
                is_permutation(ord@, keys.len() as nat),
                forall|a: int| 0 <= a < pos.len() ==> (#[trigger] pos@[a]) < self.conversations.len(),
                forall|a: int| 0 <= a < keys.len() ==> keys@[a] == self.conversations@[pos@[a] as int].updated_at,
                out.len() == k,
                forall|a: int| 0 <= a < k ==> out@[a] == self.conversations@[pos@[#[trigger] ord@[a] as int] as int],
            decreases ord.len() - k,
        {
            out.push(self.conversations[pos[ord[k]]].duplicate());
            k = k + 1;
        }
        proof {
            assert forall|a: int, b: int| 0 <= a < b < out.len() implies (#[trigger] out@[a]).updated_at >= (#[trigger] out@[b]).updated_at by {
                assert(keys@[ord@[a] as int] >= keys@[ord@[b] as int]);
            }
            assert forall|a: int| 0 <= a < out.len() implies out@[a] == f[#[trigger] ord@[a] as int] by {
                assert(fv[ord@[a] as int] == self.conversations@[pos@[ord@[a] as int] as int]);
            }
        }
        out
    }

    /// The messages of conversation `cid`, oldest first.
    pub fn load_messages_by_conversation(&self, cid: &str) -> (r: Vec<Message>)
        ensures
            is_reordering(message_views(r@), messages_of(self@.messages, cid@)),
            message_rows_sorted(message_views(r@)),
    {
        let ghost ms = self@.messages;
        let ghost pred = in_conversation(cid@);
        let mut pos: Vec<usize> = Vec::new();
        let mut i: usize = 0;
        while i < self.messages.len()
            invariant
                i <= self.messages.len(),
                ms == message_views(self.messages@),
                pred == in_conversation(cid@),
                forall|k: int| 0 <= k < pos.len() ==> (#[trigger] pos@[k]) < self.messages.len(),
                pos@.map_values(|k: usize| ms[k as int]) == ms.subrange(0, i as int).filter(pred),
            decreases self.messages.len() - i,
        {
            proof {
                lemma_filter_step(ms, i as int, pred);
                assert(ms[i as int] == self.messages@[i as int]@);
            }
            if str_eq(self.messages[i].conversation_id.as_str(), cid) {
                proof {
                    assert(pos@.push(i).map_values(|k: usize| ms[k as int])
                        =~= pos@.map_values(|k: usize| ms[k as int]).push(ms[i as int]));
                }
                pos.push(i);
            }
            i = i + 1;
        }
        proof {
            assert(ms.subrange(0, ms.len() as int) =~= ms);
        }
        let ghost fv = pos@.map_values(|k: usize| ms[k as int]);
        let mut keys: Vec<i64> = Vec::new();
        let mut j: usize = 0;
        while j < pos.len()
            invariant
                j <= pos.len(),
                keys.len() == j,
                forall|k: int| 0 <= k < pos.len() ==> (#[trigger] pos@[k]) < self.messages.len(),
                forall|k: int| 0 <= k < j ==> keys@[k] == self.messages@[pos@[k] as int].timestamp,
            decreases pos.len() - j,
        {
            keys.push(self.messages[pos[j]].timestamp);
            j = j + 1;
        }
        let ord = sort_order(&keys, false);
        let mut out: Vec<Message> = Vec::new();
        let mut k: usize = 0;
        while k < ord.len()
            invariant
                k <= ord.len(),
                ord.len() == pos.len(),
                keys.len() == pos.len(),
                ms == message_views(self.messages@),
                is_permutation(ord@, keys.len() as nat),
                forall|a: int| 0 <= a < pos.len() ==> (#[trigger] pos@[a]) < self.messages.len(),
                forall|a: int| 0 <= a < keys.len() ==> keys@[a] == self.messages@[pos@[a] as int].timestamp,
                out.len() == k,
                forall|a: int| 0 <= a < k ==> out@[a]@ == ms[pos@[#[trigger] ord@[a] as int] as int],
            decreases ord.len() - k,
        {
            out.push(self.messages[pos[ord[k]]].duplicate());
            k = k + 1;
        }
        proof {
            let rv = message_views(out@);
            assert forall|a: int, b: int| 0 <= a < b < rv.len() implies (#[trigger] rv[a]).timestamp <= (#[trigger] rv[b]).timestamp by {
                assert(keys@[ord@[a] as int] <= keys@[ord@[b] as int]);
            }
            assert forall|a: int| 0 <= a < rv.len() implies rv[a] == messages_of(ms, cid@)[#[trigger] ord@[a] as int] by {
                assert(fv[ord@[a] as int] == ms[pos@[ord@[a] as int] as int]);
            }
        }
        out
    }
}

proof fn lemma_filter_true<A>(s: Seq<A>, p: spec_fn(A) -> bool)
    requires
        forall|a: A| #[trigger] p(a),
    ensures
        s.filter(p) == s,
    decreases s.len(),
{
    reveal(Seq::filter);
    if s.len() > 0 {
        lemma_filter_true(s.drop_last(), p);
        assert(s.drop_last().push(s.last()) =~= s);
    }
}

} // verus!

verus! {

/// Position of the first row holding chunk `chunk_index` of `document_id`, or -1.
pub open spec fn chunk_slot(rows: Seq<ChunkRow>, document_id: Seq<char>, chunk_index: u32) -> int
    decreases rows.len(),
{
    if rows.len() == 0 {
        -1
    } else if chunk_slot(rows.drop_last(), document_id, chunk_index) >= 0 {
        chunk_slot(rows.drop_last(), document_id, chunk_index)
    } else if rows.last().document_id@ == document_id && rows.last().chunk_index == chunk_index {
        rows.len() - 1
    } else {
        -1
    }
}

/// Storing a chunk row: a row of the same document and position is replaced by it;
/// otherwise the row is added.
pub open spec fn upsert_chunk(rows: Seq<ChunkRow>, c: ChunkRow) -> Seq<ChunkRow> {
    let i = chunk_slot(rows, c.document_id@, c.chunk_index);
    if i >= 0 {
        rows.update(i, c)
    } else {
        rows.push(c)
    }
}

pub open spec fn upsert_chunks(rows: Seq<ChunkRow>, cs: Seq<ChunkRow>) -> Seq<ChunkRow>
    decreases cs.len(),
{
    if cs.len() == 0 {
        rows
    } else {
        upsert_chunk(upsert_chunks(rows, cs.drop_last()), cs.last())
    }
}

/// The distinct documents that have chunks in project `pid`.
pub open spec fn project_documents(rows: Seq<ChunkRow>, pid: Seq<char>) -> Set<Seq<char>> {
    Set::new(|d: Seq<char>| exists|i: int| 0 <= i < rows.len() && (#[trigger] rows[i]).project_id@ == pid && rows[i].document_id@ == d)
}

pub open spec fn chunk_outside_project(pid: Seq<char>) -> spec_fn(ChunkRow) -> bool {
    |c: ChunkRow| c.project_id@ != pid
}

pub open spec fn chunk_outside_document(d: Seq<char>) -> spec_fn(ChunkRow) -> bool {
    |c: ChunkRow| c.document_id@ != d
}

/// Every project of identifier `pid` takes `count` as its document count.
pub open spec fn set_document_count(ps: Seq<Project>, pid: Seq<char>, count: u32) -> Seq<Project> {
    ps.map_values(|p: Project| if p.id@ == pid { Project { document_count: count, ..p } } else { p })
}

fn find_chunk(rows: &Vec<ChunkRow>, document_id: &str, chunk_index: u32) -> (r: Option<usize>)
    ensures
        r matches Some(i) ==> i == chunk_slot(rows@, document_id@, chunk_index),
        r is None ==> chunk_slot(rows@, document_id@, chunk_index) < 0,
{
    let mut i: usize = 0;
    while i < rows.len()
        invariant
            i <= rows.len(),
            chunk_slot(rows@.subrange(0, i as int), document_id@, chunk_index) < 0,
        decreases rows.len() - i,
    {
        proof {
            assert(rows@.subrange(0, i + 1).drop_last() =~= rows@.subrange(0, i as int));
        }
        if rows[i].chunk_index == chunk_index && str_eq(rows[i].document_id.as_str(), document_id) {
            proof {
                lemma_index_prefix_chunk(rows@, document_id@, chunk_index, i as int + 1);
            }
            return Some(i);
        }
        i = i + 1;
    }
    proof {
        assert(rows@.subrange(0, rows@.len() as int) =~= rows@);
    }
    None
}

proof fn lemma_index_prefix_chunk(rows: Seq<ChunkRow>, d: Seq<char>, ci: u32, k: int)
    requires
        0 <= k <= rows.len(),
        chunk_slot(rows.subrange(0, k), d, ci) >= 0,
    ensures
        chunk_slot(rows, d, ci) == chunk_slot(rows.subrange(0, k), d, ci),
    decreases rows.len() - k,
{
    if k < rows.len() {
        assert(rows.subrange(0, k + 1).drop_last() =~= rows.subrange(0, k));
        lemma_index_prefix_chunk(rows, d, ci, k + 1);
    } else {
        assert(rows.subrange(0, k) =~= rows);
    }
}

proof fn lemma_chunk_slot(rows: Seq<ChunkRow>, d: Seq<char>, ci: u32)
    ensures
        -1 <= chunk_slot(rows, d, ci) < rows.len(),
        chunk_slot(rows, d, ci) >= 0 ==> chunk_key()(rows[chunk_slot(rows, d, ci)]) == (d, ci),
        chunk_slot(rows, d, ci) < 0 ==> forall|k: int| 0 <= k < rows.len() ==> chunk_key()(#[trigger] rows[k]) != (d, ci),
    decreases rows.len(),
{
    if rows.len() > 0 {
        lemma_chunk_slot(rows.drop_last(), d, ci);
        if chunk_slot(rows, d, ci) < 0 {
            assert forall|k: int| 0 <= k < rows.len() implies chunk_key()(#[trigger] rows[k]) != (d, ci) by {
                if k < rows.len() - 1 {
                    assert(rows.drop_last()[k] == rows[k]);
                }
            }
        }
    }
}

proof fn lemma_upsert_chunks_unique(rows: Seq<ChunkRow>, cs: Seq<ChunkRow>)
    requires
        unique_keys(rows, chunk_key()),
    ensures
        unique_keys(upsert_chunks(rows, cs), chunk_key()),
    decreases cs.len(),
{
    if cs.len() > 0 {
        lemma_upsert_chunks_unique(rows, cs.drop_last());
        let r = upsert_chunks(rows, cs.drop_last());
        let c = cs.last();
        lemma_chunk_slot(r, c.document_id@, c.chunk_index);
        let i = chunk_slot(r, c.document_id@, c.chunk_index);
        if i >= 0 {
            lemma_update_unique(r, i, c, chunk_key());
        } else {
            lemma_push_unique(r, c, chunk_key());
        }
    }
}

impl KnowledgeStore {
    /// Stores chunk rows one after the other (see `upsert_chunk`).
    pub fn add_documents(&mut self, rows: Vec<ChunkRow>)
        requires
            old(self)@.wf(),
        ensures
            final(self)@ == (StoreView { chunks: upsert_chunks(old(self)@.chunks, rows@), ..old(self)@ }),
            final(self)@.wf(),
    {
        let ghost before = self@;
        let mut i: usize = 0;
        while i < rows.len()
            invariant
                i <= rows.len(),
                self@ == (StoreView { chunks: upsert_chunks(before.chunks, rows@.subrange(0, i as int)), ..before }),
            decreases rows.len() - i,
        {
            let c = &rows[i];
            let ghost prev = self.chunks@;
            proof {
                lemma_chunk_slot(prev, c.document_id@, c.chunk_index);
                assert(rows@.subrange(0, i + 1).drop_last() =~= rows@.subrange(0, i as int));
            }
            match find_chunk(&self.chunks, c.document_id.as_str(), c.chunk_index) {
                Some(k) => {
                    self.chunks.set(k, c.duplicate());
                },
                None => {
                    self.chunks.push(c.duplicate());
                },
            }
            i = i + 1;
        }
        proof {
            assert(rows@.subrange(0, rows@.len() as int) =~= rows@);
            lemma_upsert_chunks_unique(before.chunks, rows@);
        }
    }

    /// The number of distinct documents with chunks in project `pid`.
    pub fn count_project_documents(&self, pid: &str) -> (r: usize)
        ensures
            r == project_documents(self@.chunks, pid@).len(),
            project_documents(self@.chunks, pid@).finite(),
    {
        let mut seen: Vec<String> = Vec::new();
        let mut i: usize = 0;
        while i < self.chunks.len()
            invariant
                i <= self.chunks.len(),
                crate::text::strings_view(seen@).no_duplicates(),
                crate::text::strings_view(seen@).to_set() == project_documents(self.chunks@.subrange(0, i as int), pid@),
            decreases self.chunks.len() - i,
        {
            let ghost sv = crate::text::strings_view(seen@);
            let ghost mut added = false;
            if str_eq(self.chunks[i].project_id.as_str(), pid) {
                let mut dup = false;
                let mut k: usize = 0;
                while k < seen.len()
                    invariant
                        i < self.chunks.len(),
                        k <= seen.len(),
                        dup == (exists|a: int| 0 <= a < k && seen@[a]@ == self.chunks@[i as int].document_id@),
                    decreases seen.len() - k,
                {
                    if str_eq(seen[k].as_str(), self.chunks[i].document_id.as_str()) {
                        dup = true;
                    }
                    k = k + 1;
                }
                if !dup {
                    let ghost d = self.chunks@[i as int].document_id@;
                    proof {
                        assert(!sv.contains(d)) by {
                            if sv.contains(d) {
                                let a = choose|a: int| 0 <= a < sv.len() && sv[a] == d;
                                assert(seen@[a]@ == d);
                            }
                        }
                    }
                    seen.push(self.chunks[i].document_id.clone());
                    proof {
                        assert(crate::text::strings_view(seen@) =~= sv.push(d));
                        added = true;
                    }
                } else {
                    proof {
                        let a = choose|a: int| 0 <= a < seen.len() && seen@[a]@ == self.chunks@[i as int].document_id@;
                        assert(sv[a] == self.chunks@[i as int].document_id@);
                    }
                }
            }
            proof {
                let nv = crate::text::strings_view(seen@);
                let pre = self.chunks@.subrange(0, i as int);
                let post = self.chunks@.subrange(0, i + 1);
                let c = self.chunks@[i as int];
                let hit = c.project_id@ == pid@;
                let di = c.document_id@;
                assert(post =~= pre.push(c));
                assert forall|d: Seq<char>| project_documents(post, pid@).contains(d)
                    == (project_documents(pre, pid@).contains(d) || (hit && d == di)) by {
                    if project_documents(post, pid@).contains(d) {
                        let j = choose|j: int| 0 <= j < post.len() && (#[trigger] post[j]).project_id@ == pid@ && post[j].document_id@ == d;
                        if j < i {
                            assert(pre[j] == post[j]);
                        }
                    }
                    if project_documents(pre, pid@).contains(d) {
                        let j = choose|j: int| 0 <= j < pre.len() && (#[trigger] pre[j]).project_id@ == pid@ && pre[j].document_id@ == d;
                        assert(post[j] == pre[j]);
                    }
                    if hit && d == di {
                        assert(post[i as int] == c);
                    }
                }
                assert(added ==> nv == sv.push(di) && hit);
                assert(!added ==> nv == sv);
                assert(hit && !added ==> sv.contains(di));
                assert forall|d: Seq<char>| nv.contains(d) == (sv.contains(d) || (hit && d == di)) by {
                    if added {
                        if d == di {
                            assert(nv[nv.len() - 1] == di);
                        }
                        if nv.contains(d) {
                            let a = choose|a: int| 0 <= a < nv.len() && nv[a] == d;
                            if a < sv.len() {
                                assert(sv[a] == d);
                            }
                        }
                        if sv.contains(d) {
                            let a = choose|a: int| 0 <= a < sv.len() && sv[a] == d;
                            assert(nv[a] == d);
                        }
                    }
                }
                assert(nv.to_set() =~= project_documents(post, pid@));
            }
            i = i + 1;
        }
        proof {
            assert(self.chunks@.subrange(0, self.chunks@.len() as int) =~= self.chunks@);
            crate::text::strings_view(seen@).unique_seq_to_set();
        }
        seen.len()
    }

    /// Sets the document count of every project with identifier `pid` to `count`.
    pub fn update_project_document_count(&mut self, pid: &str, count: u32)
        requires
            old(self)@.wf(),
        ensures
            final(self)@ == (StoreView { projects: set_document_count(old(self)@.projects, pid@, count), ..old(self)@ }),
            final(self)@.wf(),
    {
        let ghost before = self@;
        let mut i: usize = 0;
        while i < self.projects.len()
            invariant
                i <= self.projects.len(),
                self.projects.len() == before.projects.len(),
                self@.conversations == before.conversations,
                self@.messages == before.messages,
                self@.chunks == before.chunks,
                forall|k: int| 0 <= k < i ==> self.projects@[k] == set_document_count(before.projects, pid@, count)[k],
                forall|k: int| i <= k < self.projects.len() ==> self.projects@[k] == before.projects[k],
            decreases self.projects.len() - i,
        {
            if str_eq(self.projects[i].id.as_str(), pid) {
                let p = self.projects[i].duplicate();
                self.projects.set(i, Project { document_count: count, ..p });
            }
            i = i + 1;
        }
        proof {
            assert(self@.projects =~= set_document_count(before.projects, pid@, count));
            assert forall|a: int, b: int| 0 <= a < b < self@.projects.len() implies project_key()(#[trigger] self@.projects[a])
                != project_key()(#[trigger] self@.projects[b]) by {
                assert(self@.projects[a].id == before.projects[a].id && self@.projects[b].id == before.projects[b].id);
            }
            assert forall|i: int| 0 <= i < self@.conversations.len()
                implies has_project(self@.projects, (#[trigger] self@.conversations[i]).project_id@) by {
                let k = choose|k: int| 0 <= k < before.projects.len() && (#[trigger] before.projects[k]).id@ == self@.conversations[i].project_id@;
                assert(self@.projects[k].id@ == before.projects[k].id@);
            }
        }
    }

    /// Sets the document count of project `pid` to the number of distinct documents with
    /// chunks in it, as is done when an ingestion completes.
    pub fn refresh_document_count(&mut self, pid: &str) -> (r: u32)
        requires
            old(self)@.wf(),
            old(self).chunks.len() <= u32::MAX,
        ensures
            r == project_documents(old(self)@.chunks, pid@).len(),
            final(self)@ == (StoreView { projects: set_document_count(old(self)@.projects, pid@, r), ..old(self)@ }),
            final(self)@.wf(),
    {
        let n = self.count_project_documents(pid);
        proof {
            lemma_documents_bound(self@.chunks, pid@);
        }
        let count = n as u32;
        self.update_project_document_count(pid, count);
        count
    }

    /// The conversations of project `pid`, most recently updated first.
    pub fn load_conversations_by_project(&self, pid: &str) -> (r: Vec<Conversation>)
        ensures
            is_reordering(r@, conversations_of(self@.conversations, pid@)),
            conversation_rows_sorted(r@),
    {
        self.load_conversations(Some(pid))
    }

    /// All conversations, most recently updated first.
    pub fn load_all_conversations(&self) -> (r: Vec<Conversation>)
        ensures
            is_reordering(r@, self@.conversations),
            conversation_rows_sorted(r@),
    {
        self.load_conversations(None)
    }
}

proof fn lemma_documents_bound(rows: Seq<ChunkRow>, pid: Seq<char>)
    ensures
        project_documents(rows, pid).finite(),
        project_documents(rows, pid).len() <= rows.len(),
{
    let f = |i: int| rows[i].document_id@;
    let dom = vstd::set_lib::set_int_range(0, rows.len() as int);
    vstd::set_lib::lemma_int_range(0, rows.len() as int);
    let img = dom.map(f);
    vstd::set_lib::lemma_map_size_bound(dom, img, f);
    assert forall|d: Seq<char>| #[trigger] project_documents(rows, pid).contains(d) implies img.contains(d) by {
        let i = choose|i: int| 0 <= i < rows.len() && (#[trigger] rows[i]).project_id@ == pid && rows[i].document_id@ == d;
        assert(dom.contains(i) && f(i) == d);
    }
    vstd::set_lib::lemma_len_subset(project_documents(rows, pid), img);
}

} // verus!

verus! {

impl KnowledgeStore {
    /// Deletes the chunk rows of a project (`by_document` false) or of a document; returns how
    /// many went.
    fn delete_chunks(&mut self, key: &str, by_document: bool) -> (r: usize)
        requires
            old(self)@.wf(),
        ensures
            final(self)@ == (StoreView {
                chunks: old(self)@.chunks.filter(
                    if by_document { chunk_outside_document(key@) } else { chunk_outside_project(key@) }),
                ..old(self)@
            }),
            final(self)@.wf(),
            r == old(self)@.chunks.len() - final(self)@.chunks.len(),
    {
        let ghost p = if by_document { chunk_outside_document(key@) } else { chunk_outside_project(key@) };
        let mut kept: Vec<ChunkRow> = Vec::new();
        let mut i: usize = 0;
        while i < self.chunks.len()
            invariant
                i <= self.chunks.len(),
                p == (if by_document { chunk_outside_document(key@) } else { chunk_outside_project(key@) }),
                kept@ == self.chunks@.subrange(0, i as int).filter(p),
            decreases self.chunks.len() - i,
        {
            proof {
                lemma_filter_step(self.chunks@, i as int, p);
            }
            let k = if by_document { self.chunks[i].document_id.as_str() } else { self.chunks[i].project_id.as_str() };
            if !str_eq(k, key) {
                kept.push(self.chunks[i].duplicate());
            }
            i = i + 1;
        }
        proof {
            assert(self.chunks@.subrange(0, self.chunks@.len() as int) =~= self.chunks@);
            lemma_filter_unique(self.chunks@, p, chunk_key());
        }
        let removed = self.chunks.len() - kept.len();
        self.chunks = kept;
        removed
    }

    /// Deletes every chunk row of project `project_id`; returns how many went.
    pub fn delete_project_documents(&mut self, project_id: &str) -> (r: usize)
        requires
            old(self)@.wf(),
        ensures
            final(self)@ == (StoreView { chunks: old(self)@.chunks.filter(chunk_outside_project(project_id@)), ..old(self)@ }),
            final(self)@.wf(),
            r == old(self)@.chunks.len() - final(self)@.chunks.len(),
    {
        self.delete_chunks(project_id, false)
    }

    /// Deletes every chunk row of document `document_id`; returns how many went.
    pub fn delete_document(&mut self, document_id: &str) -> (r: usize)
        requires
            old(self)@.wf(),
        ensures
            final(self)@ == (StoreView { chunks: old(self)@.chunks.filter(chunk_outside_document(document_id@)), ..old(self)@ }),
            final(self)@.wf(),
            r == old(self)@.chunks.len() - final(self)@.chunks.len(),
    {
        self.delete_chunks(document_id, true)
    }
}

/// In a well-formed store, each conversation's message count equals the number of messages
/// that loading the conversation returns, and every write keeps the store well formed.
pub proof fn lemma_message_count_matches(s: StoreView, i: int)
    requires
        s.wf(),
        0 <= i < s.conversations.len(),
    ensures
        s.conversations[i].message_count == messages_of(s.messages, s.conversations[i].id@).len(),
{
}

/// After the count refresh that ends an ingestion, the project's document count equals the
/// number of distinct documents with chunks in it.
pub proof fn lemma_document_count_matches(s: StoreView, pid: Seq<char>, count: u32, i: int)
    requires
        count == project_documents(s.chunks, pid).len(),
        0 <= i < s.projects.len(),
        s.projects[i].id@ == pid,
    ensures
        set_document_count(s.projects, pid, count)[i].document_count == project_documents(s.chunks, pid).len(),
{
}

/// Deleting a project removes its conversations and their messages, and leaves no orphan.
pub proof fn lemma_delete_project_cascades(s: StoreView, pid: Seq<char>)
    requires
        s.wf(),
    ensures
        forall|i: int| 0 <= i < s.delete_project(pid).conversations.len()
            ==> (#[trigger] s.delete_project(pid).conversations[i]).project_id@ != pid,
        forall|i: int| 0 <= i < s.delete_project(pid).messages.len()
            ==> has_conversation(s.delete_project(pid).conversations, (#[trigger] s.delete_project(pid).messages[i]).conversation_id),
        !has_project(s.delete_project(pid).projects, pid),
        s.delete_project(pid).wf(),
{
    let t = s.delete_project(pid);
    assert forall|i: int| 0 <= i < t.conversations.len() implies (#[trigger] t.conversations[i]).project_id@ != pid by {
        s.conversations.lemma_filter_pred(outside_project(pid), i);
    }
    assert forall|i: int| 0 <= i < t.projects.len() implies (#[trigger] t.projects[i]).id@ != pid by {
        s.projects.lemma_filter_pred(project_other_than(pid), i);
    }
    lemma_delete_project_wf(s, pid);
}

/// Saving a project whose identifier is already stored keeps all its conversations and
/// messages.
pub proof fn lemma_save_project_keeps_children(s: StoreView, p: Project)
    requires
        s.wf(),
    ensures
        s.save_project(p).conversations == s.conversations,
        s.save_project(p).messages == s.messages,
        s.save_project(p).wf(),
{
    lemma_upsert_keeps_projects(s.projects, p);
    lemma_upsert_project_unique(s.projects, p);
    let t = s.save_project(p);
    assert forall|i: int| 0 <= i < t.conversations.len() implies has_project(t.projects, (#[trigger] t.conversations[i]).project_id@) by {
        assert(has_project(s.projects, s.conversations[i].project_id@));
    }
}

/// A saved project is what loading finds under its identifier, all its values as given, and
/// it is the only project with that identifier.
pub proof fn lemma_save_load_project(s: StoreView, p: Project)
    requires
        s.wf(),
    ensures
        project_index(s.save_project(p).projects, p.id@) >= 0,
        s.save_project(p).projects[project_index(s.save_project(p).projects, p.id@)] == p,
        forall|k: int| 0 <= k < s.save_project(p).projects.len() && (#[trigger] s.save_project(p).projects[k]).id@ == p.id@
            ==> k == project_index(s.save_project(p).projects, p.id@),
{
    lemma_project_index(s.projects, p.id@);
    lemma_upsert_project_unique(s.projects, p);
    let ps = s.projects;
    let t = upsert_project(ps, p);
    let i = project_index(ps, p.id@);
    if i >= 0 {
        lemma_project_index_update(ps, p.id@, i, p);
    } else {
        lemma_project_index_push(ps, p);
    }
    let x = project_index(t, p.id@);
    assert forall|k: int| 0 <= k < t.len() && (#[trigger] t[k]).id@ == p.id@ implies k == x by {
        if k < x {
            assert(project_key()(t[k]) != project_key()(t[x]));
        } else if k > x {
            assert(project_key()(t[x]) != project_key()(t[k]));
        }
    }
}

proof fn lemma_project_index_update(ps: Seq<Project>, id: Seq<char>, i: int, q: Project)
    requires
        0 <= i < ps.len(),
        project_index(ps, id) == i,
        q.id@ == id,
    ensures
        project_index(ps.update(i, q), id) == i,
    decreases ps.len(),
{
    let u = ps.update(i, q);
    if i == ps.len() - 1 {
        assert(u.drop_last() =~= ps.drop_last());
    } else {
        assert(u.drop_last() =~= ps.drop_last().update(i, q));
        lemma_project_index_update(ps.drop_last(), id, i, q);
    }
}

proof fn lemma_project_index_push(ps: Seq<Project>, p: Project)
    requires
        project_index(ps, p.id@) < 0,
    ensures
        project_index(ps.push(p), p.id@) == ps.len(),
{
    assert(ps.push(p).drop_last() =~= ps);
}

/// A saved conversation is what loading finds under its identifier, with its message count
/// recomputed, and it is the only conversation with that identifier.
pub proof fn lemma_save_load_conversation(s: StoreView, c: Conversation)
    requires
        s.wf(),
    ensures
        conversation_index(s.save_conversation(c).conversations, c.id@) >= 0,
        s.save_conversation(c).conversations[conversation_index(s.save_conversation(c).conversations, c.id@)]
            == (Conversation { message_count: messages_of(s.messages, c.id@).len() as u32, ..c }),
        forall|k: int| 0 <= k < s.save_conversation(c).conversations.len()
            && (#[trigger] s.save_conversation(c).conversations[k]).id@ == c.id@
            ==> k == conversation_index(s.save_conversation(c).conversations, c.id@),
{
    let cs = s.conversations;
    let q = Conversation { message_count: messages_of(s.messages, c.id@).len() as u32, ..c };
    lemma_conversation_index(cs, c.id@);
    let i = conversation_index(cs, c.id@);
    let t = upsert_conversation(cs, s.messages, c);
    if i >= 0 {
        lemma_conversation_index_update(cs, c.id@, i, q);
        lemma_update_unique(cs, i, q, conversation_key());
    } else {
        assert(cs.push(q).drop_last() =~= cs);
        assert forall|k: int| 0 <= k < cs.len() implies conversation_key()(#[trigger] cs[k]) != conversation_key()(q) by {
            assert(!has_conversation(cs, c.id@));
        }
        lemma_push_unique(cs, q, conversation_key());
    }
    let x = conversation_index(t, c.id@);
    assert forall|k: int| 0 <= k < t.len() && (#[trigger] t[k]).id@ == c.id@ implies k == x by {
        if k < x {
            assert(conversation_key()(t[k]) != conversation_key()(t[x]));
        } else if k > x {
            assert(conversation_key()(t[x]) != conversation_key()(t[k]));
        }
    }
}

proof fn lemma_conversation_index_update(cs: Seq<Conversation>, id: Seq<char>, i: int, q: Conversation)
    requires
        0 <= i < cs.len(),
        conversation_index(cs, id) == i,
        q.id@ == id,
    ensures
        conversation_index(cs.update(i, q), id) == i,
    decreases cs.len(),
{
    let u = cs.update(i, q);
    if i == cs.len() - 1 {
        assert(u.drop_last() =~= cs.drop_last());
    } else {
        assert(u.drop_last() =~= cs.drop_last().update(i, q));
        lemma_conversation_index_update(cs.drop_last(), id, i, q);
    }
}

/// A saved message is what loading its conversation finds under its identifier, all its
/// values as given, and it is the only message with that identifier.
pub proof fn lemma_save_load_message(s: StoreView, m: MessageView)
    requires
        s.wf(),
    ensures
        message_index(s.save_message(m).messages, m.id) >= 0,
        s.save_message(m).messages[message_index(s.save_message(m).messages, m.id)] == m,
        forall|k: int| 0 <= k < s.save_message(m).messages.len() && (#[trigger] s.save_message(m).messages[k]).id == m.id
            ==> k == message_index(s.save_message(m).messages, m.id),
        messages_of(s.save_message(m).messages, m.conversation_id).contains(m),
{
    let ms = s.messages;
    lemma_message_index(ms, m.id);
    lemma_upsert_message_unique(ms, m);
    let j = message_index(ms, m.id);
    let t = upsert_message(ms, m);
    if j >= 0 {
        lemma_message_index_update(ms, m.id, j, m);
    } else {
        assert(ms.push(m).drop_last() =~= ms);
    }
    let x = message_index(t, m.id);
    assert forall|k: int| 0 <= k < t.len() && (#[trigger] t[k]).id == m.id implies k == x by {
        if k < x {
            assert(message_key()(t[k]) != message_key()(t[x]));
        } else if k > x {
            assert(message_key()(t[x]) != message_key()(t[k]));
        }
    }
    t.lemma_filter_contains(in_conversation(m.conversation_id), x);
}

proof fn lemma_message_index_update(ms: Seq<MessageView>, id: Seq<char>, i: int, q: MessageView)
    requires
        0 <= i < ms.len(),
        message_index(ms, id) == i,
        q.id == id,
    ensures
        message_index(ms.update(i, q), id) == i,
    decreases ms.len(),
{
    let u = ms.update(i, q);
    if i == ms.len() - 1 {
        assert(u.drop_last() =~= ms.drop_last());
    } else {
        assert(u.drop_last() =~= ms.drop_last().update(i, q));
        lemma_message_index_update(ms.drop_last(), id, i, q);
    }
}

} // verus!

verus! {

/// Adding a message with a fresh identifier raises its conversation's count by one and leaves
/// exactly one message with that identifier.
pub proof fn lemma_add_message_count(s: StoreView, m: MessageView, i: int)
    requires
        s.wf(),
        message_index(s.messages, m.id) < 0,
        0 <= i < s.conversations.len(),
        s.conversations[i].id@ == m.conversation_id,
        s.messages.len() < u32::MAX,
    ensures
        s.save_message(m).conversations[i].message_count == s.conversations[i].message_count + 1,
        messages_of(s.save_message(m).messages, m.conversation_id).len() == s.conversations[i].message_count + 1,
        forall|k: int| 0 <= k < s.save_message(m).messages.len() && (#[trigger] s.save_message(m).messages[k]).id == m.id
            ==> k == s.messages.len(),
{
    lemma_message_index(s.messages, m.id);
    let t = s.save_message(m);
    assert(t.messages == s.messages.push(m));
    lemma_filter_push(s.messages, m, in_conversation(m.conversation_id));
    lemma_count_bound(s.messages, m.conversation_id);
    assert forall|k: int| 0 <= k < t.messages.len() && (#[trigger] t.messages[k]).id == m.id implies k == s.messages.len() by {
        if k < s.messages.len() {
            assert(t.messages[k] == s.messages[k]);
        }
    }
}

} // verus!

verus! {

impl KnowledgeStore {
    /// Deletes a project with everything it owns: its conversations, their messages, and its
    /// chunk rows. Returns how many project rows went.
    pub fn delete_project(&mut self, pid: &str) -> (r: usize)
        requires
            old(self)@.wf(),
        ensures
            final(self)@ == (StoreView {
                chunks: old(self)@.chunks.filter(chunk_outside_project(pid@)),
                ..old(self)@.delete_project(pid@)
            }),
            final(self)@.wf(),
            !has_project(final(self)@.projects, pid@),
            forall|i: int| 0 <= i < final(self)@.conversations.len() ==> (#[trigger] final(self)@.conversations[i]).project_id@ != pid@,
            forall|i: int| 0 <= i < final(self)@.chunks.len() ==> (#[trigger] final(self)@.chunks[i]).project_id@ != pid@,
            project_documents(final(self)@.chunks, pid@).len() == 0,
            r == old(self)@.projects.len() - final(self)@.projects.len(),
    {
        let ghost before = self@;
        proof {
            lemma_delete_project_cascades(before, pid@);
        }
        let n = self.delete_project_by_id(pid);
        self.delete_project_documents(pid);
        proof {
            let cs = self@.chunks;
            assert forall|i: int| 0 <= i < cs.len() implies (#[trigger] cs[i]).project_id@ != pid@ by {
                before.chunks.lemma_filter_pred(chunk_outside_project(pid@), i);
            }
            assert(project_documents(cs, pid@) =~= Set::<Seq<char>>::empty());
        }
        n
    }
}

proof fn lemma_filter_all<A>(s: Seq<A>, p: spec_fn(A) -> bool)
    requires
        forall|i: int| 0 <= i < s.len() ==> p(#[trigger] s[i]),
    ensures
        s.filter(p) == s,
    decreases s.len(),
{
    reveal(Seq::filter);
    if s.len() > 0 {
        let t = s.drop_last();
        assert forall|i: int| 0 <= i < t.len() implies p(#[trigger] t[i]) by {
            assert(t[i] == s[i]);
        }
        lemma_filter_all(t, p);
        assert(t.push(s.last()) =~= s);
    }
}

/// Removing the one message with identifier `mid` from a sequence takes exactly one message
/// from its conversation.
proof fn lemma_remove_one(ms: Seq<MessageView>, mid: Seq<char>, j: int, cid: Seq<char>)
    requires
        0 <= j < ms.len(),
        ms[j].id == mid,
        ms[j].conversation_id == cid,
        forall|k: int| 0 <= k < ms.len() && k != j ==> (#[trigger] ms[k]).id != mid,
    ensures
        ms.filter(message_other_than(mid)).filter(in_conversation(cid)).len() + 1 == ms.filter(in_conversation(cid)).len(),
    decreases ms.len(),
{
    reveal(Seq::filter);
    let p = message_other_than(mid);
    let q = in_conversation(cid);
    let t = ms.drop_last();
    if j == ms.len() - 1 {
        assert forall|i: int| 0 <= i < t.len() implies p(#[trigger] t[i]) by {
            assert(t[i] == ms[i]);
        }
        lemma_filter_all(t, p);
        assert(ms.filter(p) == t.filter(p));
    } else {
        assert(t[j] == ms[j]);
        assert forall|k: int| 0 <= k < t.len() && k != j implies (#[trigger] t[k]).id != mid by {
            assert(t[k] == ms[k]);
        }
        lemma_remove_one(t, mid, j, cid);
        assert(p(ms.last()));
        assert(ms.filter(p) == t.filter(p).push(ms.last()));
        lemma_filter_push(t.filter(p), ms.last(), q);
        lemma_filter_push(t, ms.last(), q);
        assert(ms == t.push(ms.last()));
    }
}

/// Deleting a stored message lowers its conversation's count by one, and no message with
/// that identifier remains.
pub proof fn lemma_delete_message_count(s: StoreView, mid: Seq<char>, j: int, i: int)
    requires
        s.wf(),
        0 <= j < s.messages.len(),
        s.messages[j].id == mid,
        0 <= i < s.conversations.len(),
        s.conversations[i].id@ == s.messages[j].conversation_id,
    ensures
        s.delete_messages(message_other_than(mid)).conversations[i].message_count + 1 == s.conversations[i].message_count,
        forall|k: int| 0 <= k < s.delete_messages(message_other_than(mid)).messages.len()
            ==> (#[trigger] s.delete_messages(message_other_than(mid)).messages[k]).id != mid,
{
    let cid = s.messages[j].conversation_id;
    assert forall|k: int| 0 <= k < s.messages.len() && k != j implies (#[trigger] s.messages[k]).id != mid by {
        if k < j {
            assert(message_key()(s.messages[k]) != message_key()(s.messages[j]));
        } else {
            assert(message_key()(s.messages[j]) != message_key()(s.messages[k]));
        }
    }
    lemma_remove_one(s.messages, mid, j, cid);
    lemma_count_bound(s.messages.filter(message_other_than(mid)), cid);
    let t = s.delete_messages(message_other_than(mid));
    assert forall|k: int| 0 <= k < t.messages.len() implies (#[trigger] t.messages[k]).id != mid by {
        s.messages.lemma_filter_pred(message_other_than(mid), k);
    }
}

/// Clearing a conversation leaves it with no messages and a count of zero.
pub proof fn lemma_clear_messages_count(s: StoreView, cid: Seq<char>, i: int)
    requires
        0 <= i < s.conversations.len(),
        s.conversations[i].id@ == cid,
    ensures
        messages_of(s.delete_messages(outside_conversation(cid)).messages, cid).len() == 0,
        s.delete_messages(outside_conversation(cid)).conversations[i].message_count == 0,
{
    let ms = s.messages.filter(outside_conversation(cid));
    let f = ms.filter(in_conversation(cid));
    if f.len() > 0 {
        ms.lemma_filter_pred(in_conversation(cid), 0);
        assert(ms.filter(in_conversation(cid)).contains(f[0]));
        ms.lemma_filter_contains_rev(in_conversation(cid), f[0]);
        let k = choose|k: int| 0 <= k < ms.len() && ms[k] == f[0];
        s.messages.lemma_filter_pred(outside_conversation(cid), k);
    }
}

} // verus!
