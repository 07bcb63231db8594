//! Requests and responses exchanged with the user interface, and the rules that fill them.
use vstd::prelude::*;
use crate::models::project::{Project, project_status_name};
use crate::models::conversation::Conversation;
use crate::models::document::{Document, processing_status_name, extension_of, mime_for_extension,
    path_extension, path_file_name, file_name_of, mime_type_for_extension, MAX_FILE_SIZE};
use crate::text::{chars_of, contains_seq, occurs_at, str_contains, lower_of, lowercase, string_of};

verus! {

#[derive(Debug)]
pub struct CreateConversationRequest {
    pub project_id: String,
    pub title: Option<String>,
}

#[derive(Debug)]
pub struct ConversationResponse {
    pub id: String,
    pub project_id: String,
    pub title: String,
    pub created_at: String,
    pub updated_at: String,
    pub message_count: u32,
}

#[derive(Debug)]
pub struct SendMessageRequest {
    pub conversation_id: String,
    pub content: String,
}

#[derive(Debug)]
pub struct DeleteConversationRequest {
    pub conversation_id: String,
}

#[derive(Debug)]
pub struct DeleteMessageRequest {
    pub conversation_id: String,
    pub message_id: String,
}

#[derive(Debug)]
pub struct ClearMessagesRequest {
    pub conversation_id: String,
}

#[derive(Debug)]
pub struct RenameConversationRequest {
    pub conversation_id: String,
    pub new_title: String,
}

#[derive(Debug)]
pub struct UploadDocumentsRequest {
    pub project_id: String,
    pub file_paths: Vec<String>,
}

#[derive(Debug)]
pub struct DocumentResponse {
    pub id: String,
    pub filename: String,
    pub file_size: u64,
    pub processing_status: String,
    pub created_at: String,
}

#[derive(Debug)]
pub struct FailedDocumentInfo {
    pub filename: String,
    pub file_path: String,
    pub error: String,
    /// One of "validation", "reading", "processing", "embedding", "indexing", "unknown".
    pub error_stage: String,
}

#[derive(Debug)]
pub struct UploadSummary {
    pub total: usize,
    pub successful: usize,
    pub failed: usize,
}

#[derive(Debug)]
pub struct UploadDocumentsResponse {
    pub successful: Vec<DocumentResponse>,
    pub failed: Vec<FailedDocumentInfo>,
    pub summary: UploadSummary,
}

#[derive(Debug)]
pub struct ValidateFilesRequest {
    pub file_paths: Vec<String>,
}

#[derive(Debug)]
pub struct FileValidationInfo {
    pub path: String,
    pub filename: String,
    pub size: u64,
    pub mime_type: String,
    pub is_valid: bool,
}

#[derive(Debug)]
pub struct FileValidationError {
    pub path: String,
    pub filename: String,
    pub error: String,
    /// One of "not_found", "too_large", "empty", "unsupported_format".
    pub error_type: String,
}

#[derive(Debug)]
pub struct ValidationSummary {
    pub total: usize,
    pub valid_count: usize,
    pub invalid_count: usize,
    pub total_size: u64,
}

#[derive(Debug)]
pub struct ValidateFilesResponse {
    pub valid: Vec<FileValidationInfo>,
    pub invalid: Vec<FileValidationError>,
    pub summary: ValidationSummary,
}

#[derive(Debug)]
pub struct CreateProjectRequest {
    pub name: String,
    pub description: Option<String>,
    pub file_paths: Vec<String>,
}

#[derive(Debug)]
pub struct ProjectResponse {
    pub id: String,
    pub name: String,
    pub description: Option<String>,
    pub status: String,
    pub created_at: String,
    pub updated_at: String,
    pub document_count: u32,
}

#[derive(Debug)]
pub struct CreateProjectResponse {
    pub project: ProjectResponse,
}

#[derive(Debug)]
pub struct RenameProjectRequest {
    pub project_id: String,
    pub new_name: String,
}

#[derive(Debug)]
/// Whether speech input is configured.
pub struct SpeechConfig {
    pub configured: bool,
    pub provider: Option<String>,
    pub message: Option<String>,
}

#[derive(Debug)]
pub struct AppStatusResponse {
    pub status: String,
    pub version: String,
    pub database_status: String,
    pub vector_db_status: String,
    pub llm_service_status: String,
}

#[derive(Debug)]
pub struct ConfigureLLMRequest {
    pub provider: String,
    pub api_key: Option<String>,
    pub model: String,
    pub base_url: Option<String>,
}

#[derive(Debug)]
pub struct FileInfo {
    pub path: String,
    pub name: String,
    pub size: u64,
}

#[derive(Debug)]
pub struct CollectionInfo {
    pub name: String,
    pub count: usize,
}

/// The instant `ms` (milliseconds since the epoch) in RFC 3339 form.
pub uninterp spec fn rfc3339_text(ms: i64) -> Seq<char>;

/// Relies on `chrono::DateTime::from_timestamp_millis` and `to_rfc3339`: the text depends on
/// the instant alone; an instant out of chrono's range gives an empty text.
#[verifier::external_body]
pub(crate) fn format_rfc3339(ms: i64) -> (r: String)
    ensures
        r@ == rfc3339_text(ms),
{
    match chrono::DateTime::from_timestamp_millis(ms) {
        Some(t) => t.to_rfc3339(),
        None => String::new(),
    }
}

impl ProjectResponse {
    pub fn from_project(p: Project) -> (r: ProjectResponse)
        ensures
            r.id == p.id,
            r.name == p.name,
            r.description == p.description,
            r.status@ == project_status_name(p.status),
            r.created_at@ == rfc3339_text(p.created_at),
            r.updated_at@ == rfc3339_text(p.updated_at),
            r.document_count == p.document_count,
    {
        ProjectResponse {
            status: p.status.to_string(),
            created_at: format_rfc3339(p.created_at),
            updated_at: format_rfc3339(p.updated_at),
            id: p.id,
            name: p.name,
            description: p.description,
            document_count: p.document_count,
        }
    }
}

impl ConversationResponse {
    pub fn from_conversation(c: Conversation) -> (r: ConversationResponse)
        ensures
            r.id == c.id,
            r.project_id == c.project_id,
            r.title == c.title,
            r.created_at@ == rfc3339_text(c.created_at),
            r.updated_at@ == rfc3339_text(c.updated_at),
            r.message_count == c.message_count,
    {
        ConversationResponse {
            created_at: format_rfc3339(c.created_at),
            updated_at: format_rfc3339(c.updated_at),
            id: c.id,
            project_id: c.project_id,
            title: c.title,
            message_count: c.message_count,
        }
    }
}

impl DocumentResponse {
    pub fn from_document(d: Document) -> (r: DocumentResponse)
        ensures
            r.id == d.id,
            r.filename == d.filename,
            r.file_size == d.file_size,
            r.processing_status@ == processing_status_name(d.processing_status),
            r.created_at@ == rfc3339_text(d.created_at),
    {
        DocumentResponse {
            processing_status: d.processing_status.to_string(),
            created_at: format_rfc3339(d.created_at),
            id: d.id,
            filename: d.filename,
            file_size: d.file_size,
        }
    }
}

/// Position of the first occurrence of `needle` in `hay`, if any.
pub open spec fn first_occurrence(hay: Seq<char>, needle: Seq<char>) -> Option<int> {
    if contains_seq(hay, needle) {
        Some(choose|i: int| occurs_at(hay, needle, i) && forall|j: int| 0 <= j < i ==> !occurs_at(hay, needle, j))
    } else {
        None
    }
}

/// Finds the first occurrence of `needle` in `hay`.
pub fn find_first(hay: &Vec<char>, needle: &Vec<char>) -> (r: Option<usize>)
    ensures
        r matches Some(i) ==> occurs_at(hay@, needle@, i as int)
            && forall|j: int| 0 <= j < i ==> !occurs_at(hay@, needle@, j),
        r is None ==> !contains_seq(hay@, needle@),
{
    if needle.len() > hay.len() {
        proof {
            assert forall|i: int| !occurs_at(hay@, needle@, i) by {}
        }
        return None;
    }
    let last: usize = hay.len() - needle.len();
    let mut i: usize = 0;
    while i <= last
        invariant
            last == hay.len() - needle.len(),
            needle.len() <= hay.len(),
            forall|k: int| 0 <= k < i ==> !occurs_at(hay@, needle@, k),
        decreases last + 1 - i,
    {
        let mut j: usize = 0;
        let mut same = true;
        while j < needle.len()
            invariant
                i <= last,
                last == hay.len() - needle.len(),
                j <= needle.len(),
                same == (forall|m: int| 0 <= m < j ==> hay@[i + m] == needle@[m]),
            decreases needle.len() - j,
        {
            if hay[i + j] != needle[j] {
                same = false;
            }
            j = j + 1;
        }
        if same {
            proof {
                assert(hay@.subrange(i as int, i + needle.len()) =~= needle@);
            }
            return Some(i);
        }
        proof {
            let m = choose|m: int| 0 <= m < needle.len() && hay@[i + m] != needle@[m];
            assert(hay@.subrange(i as int, i + needle.len())[m] != needle@[m]);
        }
        i = i + 1;
    }
    proof {
        assert forall|k: int| !occurs_at(hay@, needle@, k) by {
            if 0 <= k && k < i {
            }
        }
    }
    None
}

/// An error message without its stage marker: the text after the first `"] "`, or all of it.
pub open spec fn message_without_marker(e: Seq<char>) -> Seq<char> {
    match first_occurrence(e, "] "@) {
        Some(i) => e.subrange(i + 2, e.len() as int),
        None => e,
    }
}

pub fn extract_error_message(error: &str) -> (r: String)
    ensures
        r@ == message_without_marker(error@),
{
    let v = chars_of(error);
    let m = chars_of("] ");
    proof {
        reveal_strlit("] ");
        assert(m@.len() == 2);
    }
    let found = find_first(&v, &m);
    match found {
        Some(i) => {
            proof {
                assert(occurs_at(v@, m@, i as int));
                assert(i + m@.len() <= v@.len());
            }
            let n = v.len();
            let k = m.len();
            proof {
                assert(i + k <= n);
            }
            let start = i + k;
            string_of(&v, start, v.len())
        },
        None => {
            proof {
                assert(v@.subrange(0, v@.len() as int) =~= v@);
            }
            string_of(&v, 0, v.len())
        },
    }
}

} // verus!

verus! {

/// The stage an ingestion error belongs to, going by the markers and phrases in its text.
pub open spec fn stage_of(e: Seq<char>) -> Seq<char> {
    if contains_seq(e, "[阶段1-验证]"@) || contains_seq(e, "文件不存在"@) {
        "validation"@
    } else if contains_seq(e, "[阶段2-元数据]"@) || contains_seq(e, "无法读取文件信息"@) {
        "reading"@
    } else if contains_seq(e, "[阶段3-读取]"@) || contains_seq(e, "无法读取文件内容"@) {
        "reading"@
    } else if contains_seq(e, "[阶段4-处理]"@) || contains_seq(e, "文档处理失败"@) {
        "processing"@
    } else if contains_seq(e, "embedding"@) || contains_seq(e, "向量"@) {
        "embedding"@
    } else if contains_seq(e, "[阶段5-查询]"@) || contains_seq(e, "索引"@) {
        "indexing"@
    } else {
        "unknown"@
    }
}

/// Splits an ingestion error into its stage and its message; an unknown stage keeps the whole
/// text as the message.
pub fn parse_error_stage(error: &str) -> (r: (String, String))
    ensures
        r.0@ == stage_of(error@),
        stage_of(error@) != "unknown"@ ==> r.1@ == message_without_marker(error@),
        stage_of(error@) == "unknown"@ ==> r.1@ == error@,
{
    let stage = if str_contains(error, "[阶段1-验证]") || str_contains(error, "文件不存在") {
        "validation"
    } else if str_contains(error, "[阶段2-元数据]") || str_contains(error, "无法读取文件信息") {
        "reading"
    } else if str_contains(error, "[阶段3-读取]") || str_contains(error, "无法读取文件内容") {
        "reading"
    } else if str_contains(error, "[阶段4-处理]") || str_contains(error, "文档处理失败") {
        "processing"
    } else if str_contains(error, "embedding") || str_contains(error, "向量") {
        "embedding"
    } else if str_contains(error, "[阶段5-查询]") || str_contains(error, "索引") {
        "indexing"
    } else {
        "unknown"
    };
    if crate::text::str_eq(stage, "unknown") {
        (stage.to_string(), error.to_string())
    } else {
        (stage.to_string(), extract_error_message(error))
    }
}

/// The summary of an upload batch.
pub fn upload_summary(successful: usize, failed: usize) -> (r: UploadSummary)
    requires
        successful + failed <= usize::MAX,
    ensures
        r.total == successful + failed,
        r.successful == successful,
        r.failed == failed,
{
    UploadSummary { total: successful + failed, successful, failed }
}

/// Why a file's metadata could not be read.
#[derive(Debug, Clone, Copy, PartialEq, Eq, Structural)]
pub enum MetadataError {
    PermissionDenied,
    Other,
}

/// The file name shown for a path: its last component, or `unknown`.
pub open spec fn shown_file_name(path: Seq<char>) -> Seq<char> {
    match file_name_of(path) {
        Some(n) => n,
        None => "unknown"@,
    }
}

/// The kind of error an upload check gives, if any, from what is known of the file on disk.
pub open spec fn upload_check_kind(path: Seq<char>, found: bool, is_file: bool, size: Result<u64, MetadataError>) -> Option<Seq<char>> {
    if !found || !is_file {
        Some("not_found"@)
    } else {
        match size {
            Err(MetadataError::PermissionDenied) => Some("permission_denied"@),
            Err(MetadataError::Other) => Some("other"@),
            Ok(n) => if n > MAX_FILE_SIZE {
                Some("too_large"@)
            } else if n == 0 {
                Some("empty"@)
            } else {
                match extension_of(path) {
                    Some(ext) => if mime_for_extension(lower_of(ext)) is Some { None } else { Some("unsupported_format"@) },
                    None => Some("unsupported_format"@),
                }
            },
        }
    }
}

/// Checks a file chosen for upload from what is known of it on disk: it exists, is a regular
/// file whose metadata can be read, its size lies in (0, 50 MiB], and its extension is
/// supported. Every error names the path and the file name.
pub fn validate_upload_file(file_path: &str, found: bool, is_file: bool, size: Result<u64, MetadataError>) -> (r: Result<FileValidationInfo, FileValidationError>)
    ensures
        match upload_check_kind(file_path@, found, is_file, size) {
            Some(kind) => r matches Err(e) && e.error_type@ == kind && e.path@ == file_path@
                && e.filename@ == shown_file_name(file_path@),
            None => r matches Ok(info) && info.path@ == file_path@ && info.filename@ == shown_file_name(file_path@)
                && Some(info.size) == (match size { Ok(n) => Some(n), Err(_) => None::<u64> })
                && info.is_valid
                && (extension_of(file_path@) matches Some(ext) && mime_for_extension(lower_of(ext)) == Some(info.mime_type@)),
        },
{
    let filename = match path_file_name(file_path) {
        Some(n) => n,
        None => "unknown".to_string(),
    };
    if !found || !is_file {
        let msg = if !found { "file does not exist" } else { "path is not a file" };
        return Err(FileValidationError {
            path: file_path.to_string(),
            filename,
            error: msg.to_string(),
            error_type: "not_found".to_string(),
        });
    }
    let size = match size {
        Ok(n) => n,
        Err(MetadataError::PermissionDenied) => {
            return Err(FileValidationError {
                path: file_path.to_string(),
                filename,
                error: "cannot read file information: permission denied".to_string(),
                error_type: "permission_denied".to_string(),
            });
        },
        Err(MetadataError::Other) => {
            return Err(FileValidationError {
                path: file_path.to_string(),
                filename,
                error: "cannot read file information".to_string(),
                error_type: "other".to_string(),
            });
        },
    };
    if size > MAX_FILE_SIZE {
        return Err(FileValidationError {
            path: file_path.to_string(),
            filename,
            error: "file too large (maximum 50 MB)".to_string(),
            error_type: "too_large".to_string(),
        });
    }
    if size == 0 {
        return Err(FileValidationError {
            path: file_path.to_string(),
            filename,
            error: "file is empty".to_string(),
            error_type: "empty".to_string(),
        });
    }
    let mime = match path_extension(file_path) {
        Some(e) => mime_type_for_extension(lowercase(e.as_str()).as_str()),
        None => None,
    };
    match mime {
        Some(m) => Ok(FileValidationInfo { path: file_path.to_string(), filename, size, mime_type: m, is_valid: true }),
        None => Err(FileValidationError {
            path: file_path.to_string(),
            filename,
            error: "unsupported file format (supported: txt, md, markdown, pdf, doc, docx, rtf)".to_string(),
            error_type: "unsupported_format".to_string(),
        }),
    }
}

} // verus!

verus! {

#[derive(Debug, Clone, Copy, PartialEq, Eq, Structural)]
pub enum UploadError {
    /// No file was given.
    NoFiles,
}

/// Positions of the failed outcomes, in order.
pub open spec fn failed_positions(outs: Seq<Result<DocumentResponse, String>>) -> Seq<int>
    decreases outs.len(),
{
    if outs.len() == 0 {
        Seq::empty()
    } else {
        failed_positions(outs.drop_last()) + if outs.last() is Err { seq![outs.len() - 1] } else { Seq::empty() }
    }
}

/// Positions of the successful outcomes, in order.
pub open spec fn ok_positions(outs: Seq<Result<DocumentResponse, String>>) -> Seq<int>
    decreases outs.len(),
{
    if outs.len() == 0 {
        Seq::empty()
    } else {
        ok_positions(outs.drop_last()) + if outs.last() is Ok { seq![outs.len() - 1] } else { Seq::empty() }
    }
}

/// The message a failed entry shows: the error without its stage marker when its stage is
/// known, else the whole error.
pub open spec fn shown_message(e: Seq<char>) -> Seq<char> {
    if stage_of(e) == "unknown"@ { e } else { message_without_marker(e) }
}

/// The failed entry of the file at `path` that failed with `e`.
pub open spec fn failed_entry(f: FailedDocumentInfo, path: Seq<char>, e: Seq<char>) -> bool {
    &&& f.file_path@ == path
    &&& f.filename@ == match file_name_of(path) { Some(n) => n, None => path }
    &&& f.error_stage@ == stage_of(e)
    &&& f.error@ == shown_message(e)
}

proof fn lemma_positions(outs: Seq<Result<DocumentResponse, String>>)
    ensures
        failed_positions(outs).len() + ok_positions(outs).len() == outs.len(),
        forall|k: int| 0 <= k < failed_positions(outs).len() ==> 0 <= #[trigger] failed_positions(outs)[k] < outs.len()
            && outs[failed_positions(outs)[k]] is Err,
        forall|k: int| 0 <= k < ok_positions(outs).len() ==> 0 <= #[trigger] ok_positions(outs)[k] < outs.len()
            && outs[ok_positions(outs)[k]] is Ok,
        forall|i: int| 0 <= i < outs.len() ==> (outs[i] is Err <==> failed_positions(outs).contains(i)),
        forall|i: int| 0 <= i < outs.len() ==> (outs[i] is Ok <==> ok_positions(outs).contains(i)),
    decreases outs.len(),
{
    if outs.len() > 0 {
        let t = outs.drop_last();
        lemma_positions(t);
        let f = failed_positions(outs);
        let o = ok_positions(outs);
        assert forall|k: int| 0 <= k < f.len() implies 0 <= #[trigger] f[k] < outs.len() && outs[f[k]] is Err by {
            if k < failed_positions(t).len() {
                assert(f[k] == failed_positions(t)[k]);
                assert(outs[f[k]] == t[f[k]]);
            }
        }
        assert forall|k: int| 0 <= k < o.len() implies 0 <= #[trigger] o[k] < outs.len() && outs[o[k]] is Ok by {
            if k < ok_positions(t).len() {
                assert(o[k] == ok_positions(t)[k]);
                assert(outs[o[k]] == t[o[k]]);
            }
        }
        assert forall|i: int| 0 <= i < outs.len() implies (outs[i] is Err <==> f.contains(i)) && (outs[i] is Ok <==> o.contains(i)) by {
            if i < outs.len() - 1 {
                assert(outs[i] == t[i]);
                if failed_positions(t).contains(i) {
                    let k = choose|k: int| 0 <= k < failed_positions(t).len() && failed_positions(t)[k] == i;
                    assert(f[k] == i);
                }
                if ok_positions(t).contains(i) {
                    let k = choose|k: int| 0 <= k < ok_positions(t).len() && ok_positions(t)[k] == i;
                    assert(o[k] == i);
                }
                if f.contains(i) {
                    let k = choose|k: int| 0 <= k < f.len() && f[k] == i;
                    if k >= failed_positions(t).len() {
                        assert(f[k] == outs.len() - 1);
                    } else {
                        assert(failed_positions(t)[k] == i);
                    }
                }
                if o.contains(i) {
                    let k = choose|k: int| 0 <= k < o.len() && o[k] == i;
                    if k >= ok_positions(t).len() {
                        assert(o[k] == outs.len() - 1);
                    } else {
                        assert(ok_positions(t)[k] == i);
                    }
                }
            } else {
                if outs[i] is Err {
                    assert(f[f.len() - 1] == i);
                } else {
                    assert(o[o.len() - 1] == i);
                    if f.contains(i) {
                        let k = choose|k: int| 0 <= k < f.len() && f[k] == i;
                        assert(f[k] == failed_positions(t)[k]);
                    }
                }
                if outs[i] is Ok {
                } else if o.contains(i) {
                    let k = choose|k: int| 0 <= k < o.len() && o[k] == i;
                    assert(o[k] == ok_positions(t)[k]);
                }
            }
        }
    }
}

/// The report of an upload batch: the documents that went in, and for each file that failed
/// its path, file name, stage and message. Each path is in exactly one of the two lists.
pub fn upload_report(paths: &Vec<String>, outcomes: Vec<Result<DocumentResponse, String>>) -> (r: Result<UploadDocumentsResponse, UploadError>)
    requires
        paths.len() == outcomes.len(),
    ensures
        paths.len() == 0 ==> r == Err::<UploadDocumentsResponse, _>(UploadError::NoFiles),
        paths.len() > 0 ==> (r matches Ok(rep) && {
            let fp = failed_positions(outcomes@);
            let op = ok_positions(outcomes@);
            &&& rep.summary.total == paths.len()
            &&& rep.summary.successful == op.len()
            &&& rep.summary.failed == fp.len()
            &&& fp.len() + op.len() == paths.len()
            &&& rep.failed.len() == fp.len()
            &&& rep.successful.len() == op.len()
            &&& forall|k: int| 0 <= k < fp.len() ==> failed_entry(#[trigger] rep.failed@[k], paths@[fp[k]]@,
                    outcomes@[fp[k]]->Err_0@)
            &&& forall|k: int| 0 <= k < op.len() ==> Ok::<_, String>(#[trigger] rep.successful@[k]) == outcomes@[op[k]]
            &&& forall|i: int| 0 <= i < paths.len() ==> (fp.contains(i) <==> !op.contains(i))
        }),
{
    if paths.len() == 0 {
        return Err(UploadError::NoFiles);
    }
    let ghost outs = outcomes@;
    proof {
        lemma_positions(outs);
    }
    let mut outcomes = outcomes;
    let mut successful: Vec<DocumentResponse> = Vec::new();
    let mut failed: Vec<FailedDocumentInfo> = Vec::new();
    let mut i: usize = 0;
    while i < paths.len()
        invariant
            paths.len() == outs.len(),
            i <= paths.len(),
            outcomes@ == outs.subrange(i as int, outs.len() as int),
            failed.len() == failed_positions(outs.subrange(0, i as int)).len(),
            successful.len() == ok_positions(outs.subrange(0, i as int)).len(),
            forall|k: int| 0 <= k < failed.len() ==> failed_entry(#[trigger] failed@[k],
                paths@[failed_positions(outs.subrange(0, i as int))[k]]@,
                outs[failed_positions(outs.subrange(0, i as int))[k]]->Err_0@),
            forall|k: int| 0 <= k < successful.len() ==> Ok::<_, String>(#[trigger] successful@[k])
                == outs[ok_positions(outs.subrange(0, i as int))[k]],
        decreases paths.len() - i,
    {
        let ghost pre = outs.subrange(0, i as int);
        let ghost post = outs.subrange(0, i + 1);
        proof {
            assert(post.drop_last() =~= pre);
            lemma_positions(pre);
        }
        let o = outcomes.remove(0);
        proof {
            assert(o == outs[i as int]);
            assert(outcomes@ =~= outs.subrange(i + 1, outs.len() as int));
        }
        match o {
            Ok(d) => {
                successful.push(d);
                proof {
                    assert forall|k: int| 0 <= k < successful.len() implies Ok::<_, String>(#[trigger] successful@[k])
                        == outs[ok_positions(post)[k]] by {
                        if k < successful.len() - 1 {
                            assert(ok_positions(post)[k] == ok_positions(pre)[k]);
                        }
                    }
                    assert forall|k: int| 0 <= k < failed.len() implies failed_entry(#[trigger] failed@[k],
                        paths@[failed_positions(post)[k]]@, outs[failed_positions(post)[k]]->Err_0@) by {
                        assert(failed_positions(post)[k] == failed_positions(pre)[k]);
                    }
                }
            },
            Err(e) => {
                let path = &paths[i];
                let filename = match path_file_name(path.as_str()) {
                    Some(n) => n,
                    None => path.clone(),
                };
                let (stage, message) = parse_error_stage(e.as_str());
                failed.push(FailedDocumentInfo { filename, file_path: path.clone(), error: message, error_stage: stage });
                proof {
                    assert forall|k: int| 0 <= k < failed.len() implies failed_entry(#[trigger] failed@[k],
                        paths@[failed_positions(post)[k]]@, outs[failed_positions(post)[k]]->Err_0@) by {
                        if k < failed.len() - 1 {
                            assert(failed_positions(post)[k] == failed_positions(pre)[k]);
                        }
                    }
                    assert forall|k: int| 0 <= k < successful.len() implies Ok::<_, String>(#[trigger] successful@[k])
                        == outs[ok_positions(post)[k]] by {
                        assert(ok_positions(post)[k] == ok_positions(pre)[k]);
                    }
                }
            },
        }
        i = i + 1;
    }
    proof {
        assert(outs.subrange(0, outs.len() as int) =~= outs);
        assert forall|j: int| 0 <= j < paths.len() implies (failed_positions(outs).contains(j) <==> !ok_positions(outs).contains(j)) by {
        }
    }
    let summary = upload_summary(successful.len(), failed.len());
    Ok(UploadDocumentsResponse { successful, failed, summary })
}

} // verus!
