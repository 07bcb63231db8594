//! The ingestion of one document: its stages, and how a failure is recorded on the document.
use vstd::prelude::*;
use crate::models::document::{Document, ProcessingStatus};
use crate::text::push_text;

verus! {

/// The stages a document goes through, in order.
#[derive(Debug, Clone, Copy, PartialEq, Eq, Structural)]
pub enum IngestStage {
    Validation,
    Metadata,
    Reading,
    Processing,
    Embedding,
    Indexing,
}

/// The marker that opens the error message of a stage.
pub open spec fn stage_marker(s: IngestStage) -> Seq<char> {
    match s {
        IngestStage::Validation => "[阶段1-验证]"@,
        IngestStage::Metadata => "[阶段2-元数据]"@,
        IngestStage::Reading => "[阶段3-读取]"@,
        IngestStage::Processing => "[阶段4-处理]"@,
        IngestStage::Embedding => "[阶段4-向量化] embedding"@,
        IngestStage::Indexing => "[阶段5-查询]"@,
    }
}

/// The stage after `s`, if any.
pub open spec fn next_stage(s: IngestStage) -> Option<IngestStage> {
    match s {
        IngestStage::Validation => Some(IngestStage::Metadata),
        IngestStage::Metadata => Some(IngestStage::Reading),
        IngestStage::Reading => Some(IngestStage::Processing),
        IngestStage::Processing => Some(IngestStage::Embedding),
        IngestStage::Embedding => Some(IngestStage::Indexing),
        IngestStage::Indexing => None,
    }
}

impl IngestStage {
    pub fn next(&self) -> (r: Option<IngestStage>)
        ensures
            r == next_stage(*self),
    {
        match self {
            IngestStage::Validation => Some(IngestStage::Metadata),
            IngestStage::Metadata => Some(IngestStage::Reading),
            IngestStage::Reading => Some(IngestStage::Processing),
            IngestStage::Processing => Some(IngestStage::Embedding),
            IngestStage::Embedding => Some(IngestStage::Indexing),
            IngestStage::Indexing => None,
        }
    }

    pub fn marker(&self) -> (r: &'static str)
        ensures
            r@ == stage_marker(*self),
    {
        match self {
            IngestStage::Validation => "[阶段1-验证]",
            IngestStage::Metadata => "[阶段2-元数据]",
            IngestStage::Reading => "[阶段3-读取]",
            IngestStage::Processing => "[阶段4-处理]",
            IngestStage::Embedding => "[阶段4-向量化] embedding",
            IngestStage::Indexing => "[阶段5-查询]",
        }
    }
}

/// A stage-tagged error message: the stage's marker, a space, then the detail.
pub open spec fn stage_message(s: IngestStage, detail: Seq<char>) -> Seq<char> {
    stage_marker(s) + " "@ + detail
}

pub fn stage_error(stage: IngestStage, detail: &str) -> (r: String)
    ensures
        r@ == stage_message(stage, detail@),
{
    let mut m = stage.marker().to_string();
    push_text(&mut m, " ");
    push_text(&mut m, detail);
    m
}

/// Records that ingestion failed at `stage`: the document becomes `Failed` with the
/// stage-tagged message. Chunks already stored stay where they are.
pub fn fail_document(document: &mut Document, stage: IngestStage, detail: &str)
    ensures
        final(document).processing_status == ProcessingStatus::Failed,
        final(document).error_message matches Some(m) && m@ == stage_message(stage, detail@),
        final(document).processed_at is Some,
        final(document).id == old(document).id,
        final(document).chunk_count == old(document).chunk_count,
{
    let message = stage_error(stage, detail);
    document.update_processing_status(ProcessingStatus::Failed, Some(message));
}

/// Records that ingestion succeeded with `chunk_count` chunks: the document becomes
/// `Indexed`, with no error.
pub fn complete_document(document: &mut Document, chunk_count: u32)
    ensures
        final(document).processing_status == ProcessingStatus::Indexed,
        final(document).error_message is None,
        final(document).chunk_count == chunk_count,
        final(document).processed_at is Some,
        final(document).id == old(document).id,
{
    document.update_chunk_count(chunk_count);
    document.update_processing_status(ProcessingStatus::Indexed, None);
}

} // verus!

verus! {

/// The SHA-256 digest of some bytes.
pub uninterp spec fn sha256_of(b: Seq<u8>) -> Seq<u8>;

/// Relies on `sha2::Sha256::digest`: the 32-byte SHA-256 digest of the bytes.
#[verifier::external_body]
pub(crate) fn sha256(b: &Vec<u8>) -> (r: Vec<u8>)
    ensures
        r@ == sha256_of(b@),
        r@.len() == 32,
{
    <sha2::Sha256 as sha2::Digest>::digest(b.as_slice()).to_vec()
}

/// Bytes written as lower-case hexadecimal, two digits each.
pub open spec fn hex_text(b: Seq<u8>) -> Seq<char>
    decreases b.len(),
{
    if b.len() == 0 {
        Seq::empty()
    } else {
        hex_text(b.drop_last()).push(crate::search::hex_char((b.last() / 16) as nat)).push(
            crate::search::hex_char((b.last() % 16) as nat),
        )
    }
}

pub fn hex_encode(b: &Vec<u8>) -> (r: String)
    ensures
        r@ == hex_text(b@),
        r@.len() == 2 * b@.len(),
{
    let mut s = String::new();
    let mut i: usize = 0;
    proof {
        assert(b@.subrange(0, 0) =~= Seq::<u8>::empty());
    }
    while i < b.len()
        invariant
            i <= b.len(),
            s@ == hex_text(b@.subrange(0, i as int)),
            s@.len() == 2 * i,
        decreases b.len() - i,
    {
        let x = b[i];
        crate::text::push_char(&mut s, crate::search::hex_digit((x / 16) as u32));
        crate::text::push_char(&mut s, crate::search::hex_digit((x % 16) as u32));
        proof {
            assert(b@.subrange(0, i + 1).drop_last() =~= b@.subrange(0, i as int));
        }
        i = i + 1;
    }
    proof {
        assert(b@.subrange(0, b@.len() as int) =~= b@);
    }
    s
}

/// The content hash of a document: the SHA-256 digest of its bytes in lower-case hex.
pub fn content_hash(bytes: &Vec<u8>) -> (r: String)
    ensures
        r@ == hex_text(sha256_of(bytes@)),
        r@.len() == 64,
{
    let d = sha256(bytes);
    hex_encode(&d)
}

/// What a stage reported.
#[derive(Debug, Clone, Copy, PartialEq, Eq, Structural)]
pub enum IngestEvent {
    /// The stage succeeded; after indexing, `chunk_count` chunks are stored.
    Succeeded { chunk_count: u32 },
    Failed,
}

/// What to do next.
#[derive(Debug, Clone, Copy, PartialEq, Eq, Structural)]
pub enum IngestAction {
    RunStage(IngestStage),
    /// Recompute the project's document count from the stored chunks.
    RefreshCount,
    /// The document failed; go on with the next file.
    Stop,
}

/// One step of ingesting a document: a failure at `stage` marks it failed with the
/// stage-tagged `detail`; a success moves to the next stage, and after indexing marks the
/// document indexed and asks for the count refresh.
pub fn ingest_next(doc: &mut Document, stage: IngestStage, event: IngestEvent, detail: &str) -> (r: (Option<IngestStage>, IngestAction))
    ensures
        event == IngestEvent::Failed ==> r == (None::<IngestStage>, IngestAction::Stop)
            && final(doc).processing_status == ProcessingStatus::Failed
            && (final(doc).error_message matches Some(m) && m@ == stage_message(stage, detail@))
            && final(doc).id == old(doc).id,
        event matches IngestEvent::Succeeded { chunk_count } ==> match next_stage(stage) {
            Some(n) => r == (Some(n), IngestAction::RunStage(n)) && *final(doc) == *old(doc),
            None => r == (None::<IngestStage>, IngestAction::RefreshCount)
                && final(doc).processing_status == ProcessingStatus::Indexed
                && final(doc).chunk_count == chunk_count
                && final(doc).error_message is None
                && final(doc).id == old(doc).id,
        },
{
    match event {
        IngestEvent::Failed => {
            fail_document(doc, stage, detail);
            (None, IngestAction::Stop)
        },
        IngestEvent::Succeeded { chunk_count } => match stage.next() {
            Some(n) => (Some(n), IngestAction::RunStage(n)),
            None => {
                complete_document(doc, chunk_count);
                (None, IngestAction::RefreshCount)
            },
        },
    }
}

} // verus!
