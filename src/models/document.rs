//! Documents and the chunks cut from them.
use vstd::prelude::*;
use crate::ids::{new_id, now_millis};
use crate::text::{is_blank, is_blank_str, chars_of, lower_of, lowercase, str_eq};

verus! {

/// Largest accepted file: 50 MiB.
pub const MAX_FILE_SIZE: u64 = 52428800;
/// Longest accepted file name, in characters.
pub const MAX_FILENAME_LEN: usize = 255;
/// Bounds on a chunk's estimated token count.
pub const MIN_CHUNK_TOKENS: usize = 10;
pub const MAX_CHUNK_TOKENS: usize = 1000;

/// Estimated tokens of a text of `n` characters: four characters per token, rounded up.
pub open spec fn tokens_for(n: nat) -> nat {
    (n + 3) / 4
}

#[derive(Debug, Clone, Copy, PartialEq, Eq, Hash, Structural)]
pub enum ProcessingStatus {
    Uploaded,
    Processing,
    Indexed,
    Failed,
}

pub open spec fn processing_status_name(s: ProcessingStatus) -> Seq<char> {
    match s {
        ProcessingStatus::Uploaded => "Uploaded"@,
        ProcessingStatus::Processing => "Processing"@,
        ProcessingStatus::Indexed => "Indexed"@,
        ProcessingStatus::Failed => "Failed"@,
    }
}

impl ProcessingStatus {
    /// The status's name, as shown to users and stored.
    pub fn to_string(&self) -> (r: String)
        ensures
            r@ == processing_status_name(*self),
    {
        match self {
            ProcessingStatus::Uploaded => "Uploaded".to_string(),
            ProcessingStatus::Processing => "Processing".to_string(),
            ProcessingStatus::Indexed => "Indexed".to_string(),
            ProcessingStatus::Failed => "Failed".to_string(),
        }
    }
}

#[derive(Debug, Clone, PartialEq, Eq)]
pub enum DocumentValidationError {
    InvalidFilePath,
    EmptyFilename,
    FilenameTooLong,
    FileTooLarge,
    EmptyFile,
    UnsupportedFileType(String),
    EmptyChunkContent,
    InvalidOffsets,
    InvalidTokenCount,
}

/// The error a file size gets, if any: sizes must lie in (0, 50 MiB].
pub open spec fn file_size_error(size: u64) -> Option<DocumentValidationError> {
    if size > MAX_FILE_SIZE {
        Some(DocumentValidationError::FileTooLarge)
    } else if size == 0 {
        Some(DocumentValidationError::EmptyFile)
    } else {
        None
    }
}

/// The supported extensions (lower case) and their MIME types.
pub open spec fn mime_for_extension(e: Seq<char>) -> Option<Seq<char>> {
    if e == "txt"@ {
        Some("text/plain"@)
    } else if e == "md"@ || e == "markdown"@ {
        Some("text/markdown"@)
    } else if e == "pdf"@ {
        Some("application/pdf"@)
    } else if e == "doc"@ {
        Some("application/msword"@)
    } else if e == "docx"@ {
        Some("application/vnd.openxmlformats-officedocument.wordprocessingml.document"@)
    } else if e == "rtf"@ {
        Some("application/rtf"@)
    } else {
        None
    }
}

/// The final component of a path, as `std::path::Path::file_name` gives it.
pub uninterp spec fn file_name_of(p: Seq<char>) -> Option<Seq<char>>;

/// The extension of a path, as `std::path::Path::extension` gives it.
pub uninterp spec fn extension_of(p: Seq<char>) -> Option<Seq<char>>;

/// Relies on `std::path::Path::file_name`: the last component of the path, if it has one.
#[verifier::external_body]
pub(crate) fn path_file_name(p: &str) -> (r: Option<String>)
    ensures
        r matches Some(n) ==> file_name_of(p@) == Some(n@),
        r is None ==> file_name_of(p@) is None,
{
    std::path::Path::new(p).file_name().and_then(|n| n.to_str()).map(|n| n.to_string())
}

/// Relies on `std::path::Path::extension`: the text after the last dot of the file name, if any.
#[verifier::external_body]
pub(crate) fn path_extension(p: &str) -> (r: Option<String>)
    ensures
        r matches Some(e) ==> extension_of(p@) == Some(e@),
        r is None ==> extension_of(p@) is None,
{
    std::path::Path::new(p).extension().and_then(|e| e.to_str()).map(|e| e.to_string())
}

/// The MIME type of a lower-case extension.
pub fn mime_type_for_extension(ext: &str) -> (r: Option<String>)
    ensures
        r matches Some(m) ==> mime_for_extension(ext@) == Some(m@),
        r is None ==> mime_for_extension(ext@) is None,
{
    if str_eq(ext, "txt") {
        Some("text/plain".to_string())
    } else if str_eq(ext, "md") || str_eq(ext, "markdown") {
        Some("text/markdown".to_string())
    } else if str_eq(ext, "pdf") {
        Some("application/pdf".to_string())
    } else if str_eq(ext, "doc") {
        Some("application/msword".to_string())
    } else if str_eq(ext, "docx") {
        Some("application/vnd.openxmlformats-officedocument.wordprocessingml.document".to_string())
    } else if str_eq(ext, "rtf") {
        Some("application/rtf".to_string())
    } else {
        None
    }
}

#[derive(Debug, Clone)]
pub struct Document {
    pub id: String,
    pub project_id: String,
    pub filename: String,
    pub file_path: String,
    pub file_size: u64,
    pub mime_type: String,
    pub content_hash: String,
    pub chunk_count: u32,
    pub processing_status: ProcessingStatus,
    pub error_message: Option<String>,
    /// Milliseconds since the Unix epoch.
    pub created_at: i64,
    pub processed_at: Option<i64>,
}

/// The error a document upload gets, if any, given its file name and size.
pub open spec fn upload_error(filename: Seq<char>, size: u64) -> Option<DocumentValidationError> {
    if is_blank(filename) {
        Some(DocumentValidationError::EmptyFilename)
    } else if filename.len() > MAX_FILENAME_LEN {
        Some(DocumentValidationError::FilenameTooLong)
    } else {
        file_size_error(size)
    }
}

impl Document {
    /// A new document record for the file at `file_path`, in state `Uploaded`.
    pub fn new(project_id: String, file_path: String, file_size: u64, content_hash: String) -> (r: Result<Document, DocumentValidationError>)
        ensures
            file_name_of(file_path@) is None ==> r == Err::<Document, _>(DocumentValidationError::InvalidFilePath),
            file_name_of(file_path@) matches Some(name) ==> {
                match upload_error(name, file_size) {
                    Some(e) => r == Err::<Document, _>(e),
                    None => match extension_of(name) {
                        Some(ext) if mime_for_extension(lower_of(ext)) is Some => r matches Ok(d) && {
                            &&& d.filename@ == name
                            &&& d.file_path@ == file_path@
                            &&& d.project_id@ == project_id@
                            &&& d.file_size == file_size
                            &&& d.content_hash@ == content_hash@
                            &&& Some(d.mime_type@) == mime_for_extension(lower_of(ext))
                            &&& d.chunk_count == 0
                            &&& d.processing_status == ProcessingStatus::Uploaded
                            &&& d.error_message is None
                            &&& d.processed_at is None
                        },
                        Some(ext) => r matches Err(DocumentValidationError::UnsupportedFileType(x)) && x@ == lower_of(ext),
                        None => r matches Err(DocumentValidationError::UnsupportedFileType(x)) && x@.len() == 0,
                    },
                }
            },
    {
        let filename = match path_file_name(file_path.as_str()) {
            Some(n) => n,
            None => return Err(DocumentValidationError::InvalidFilePath),
        };
        Self::validate_filename(&filename)?;
        Self::validate_file_size(file_size)?;
        let mime_type = Self::detect_mime_type(&filename)?;
        Ok(Document {
            id: new_id(),
            project_id,
            filename,
            file_path,
            file_size,
            mime_type,
            content_hash,
            chunk_count: 0,
            processing_status: ProcessingStatus::Uploaded,
            error_message: None,
            created_at: now_millis(),
            processed_at: None,
        })
    }

    /// Moves the document to `status`; reaching `Indexed` or `Failed` stamps `processed_at`.
    pub fn update_processing_status(&mut self, status: ProcessingStatus, error_message: Option<String>)
        ensures
            final(self).processing_status == status,
            final(self).error_message == error_message,
            (status == ProcessingStatus::Indexed || status == ProcessingStatus::Failed) ==> final(self).processed_at is Some,
            !(status == ProcessingStatus::Indexed || status == ProcessingStatus::Failed) ==> final(self).processed_at == old(self).processed_at,
            final(self).id == old(self).id,
            final(self).chunk_count == old(self).chunk_count,
    {
        self.processing_status = status;
        self.error_message = error_message;
        if status == ProcessingStatus::Indexed || status == ProcessingStatus::Failed {
            self.processed_at = Some(now_millis());
        }
    }

    pub fn update_chunk_count(&mut self, count: u32)
        ensures
            final(self).chunk_count == count,
            final(self).processing_status == old(self).processing_status,
            final(self).id == old(self).id,
    {
        self.chunk_count = count;
    }

    pub fn validate_filename(filename: &str) -> (r: Result<(), DocumentValidationError>)
        ensures
            is_blank(filename@) ==> r == Err::<(), _>(DocumentValidationError::EmptyFilename),
            !is_blank(filename@) && filename@.len() > MAX_FILENAME_LEN ==> r == Err::<(), _>(DocumentValidationError::FilenameTooLong),
            !is_blank(filename@) && filename@.len() <= MAX_FILENAME_LEN ==> r is Ok,
    {
        if is_blank_str(filename) {
            return Err(DocumentValidationError::EmptyFilename);
        }
        if chars_of(filename).len() > MAX_FILENAME_LEN {
            return Err(DocumentValidationError::FilenameTooLong);
        }
        Ok(())
    }

    pub fn validate_file_size(size: u64) -> (r: Result<(), DocumentValidationError>)
        ensures
            r matches Err(e) ==> file_size_error(size) == Some(e),
            r is Ok <==> file_size_error(size) is None,
    {
        if size > MAX_FILE_SIZE {
            return Err(DocumentValidationError::FileTooLarge);
        }
        if size == 0 {
            return Err(DocumentValidationError::EmptyFile);
        }
        Ok(())
    }

    /// The MIME type of a file name, from its extension in lower case.
    pub fn detect_mime_type(filename: &str) -> (r: Result<String, DocumentValidationError>)
        ensures
            match extension_of(filename@) {
                Some(ext) => match mime_for_extension(lower_of(ext)) {
                    Some(m) => r matches Ok(x) && x@ == m,
                    None => r matches Err(DocumentValidationError::UnsupportedFileType(x)) && x@ == lower_of(ext),
                },
                None => r matches Err(DocumentValidationError::UnsupportedFileType(x)) && x@.len() == 0,
            },
    {
        let ext = match path_extension(filename) {
            Some(e) => lowercase(e.as_str()),
            None => return Err(DocumentValidationError::UnsupportedFileType(String::new())),
        };
        match mime_type_for_extension(ext.as_str()) {
            Some(m) => Ok(m),
            None => Err(DocumentValidationError::UnsupportedFileType(ext)),
        }
    }
}

#[derive(Debug, Clone)]
pub struct DocumentChunk {
    pub id: String,
    pub document_id: String,
    pub chunk_index: u32,
    pub content: String,
    pub token_count: u32,
    pub start_offset: u64,
    pub end_offset: u64,
    pub embedding_id: String,
    /// Milliseconds since the Unix epoch.
    pub created_at: i64,
}

/// The error that chunk content and offsets get, if any.
pub open spec fn chunk_error(content: Seq<char>, start: u64, end: u64) -> Option<DocumentValidationError> {
    if is_blank(content) {
        Some(DocumentValidationError::EmptyChunkContent)
    } else if start >= end {
        Some(DocumentValidationError::InvalidOffsets)
    } else if tokens_for(content.len()) < MIN_CHUNK_TOKENS || tokens_for(content.len()) > MAX_CHUNK_TOKENS {
        Some(DocumentValidationError::InvalidTokenCount)
    } else {
        None
    }
}

impl DocumentChunk {
    /// A chunk of `content` spanning `[start_offset, end_offset)` of its document's text.
    pub fn new(document_id: String, chunk_index: u32, content: String, start_offset: u64, end_offset: u64) -> (r: Result<DocumentChunk, DocumentValidationError>)
        ensures
            match chunk_error(content@, start_offset, end_offset) {
                Some(e) => r == Err::<DocumentChunk, _>(e),
                None => r matches Ok(c) && {
                &&& c.document_id@ == document_id@
                &&& c.chunk_index == chunk_index
                &&& c.content@ == content@
                &&& c.token_count == tokens_for(content@.len())
                &&& c.start_offset == start_offset
                &&& c.end_offset == end_offset
                &&& c.embedding_id@.len() == 0
            },
            },
    {
        Self::validate_content(&content)?;
        Self::validate_offsets(start_offset, end_offset)?;
        let tokens = Self::estimate_token_count(&content);
        if tokens < MIN_CHUNK_TOKENS || tokens > MAX_CHUNK_TOKENS {
            return Err(DocumentValidationError::InvalidTokenCount);
        }
        Ok(DocumentChunk {
            id: new_id(),
            document_id,
            chunk_index,
            content,
            token_count: tokens as u32,
            start_offset,
            end_offset,
            embedding_id: String::new(),
            created_at: now_millis(),
        })
    }

    pub fn set_embedding_id(&mut self, embedding_id: String)
        ensures
            final(self).embedding_id == embedding_id,
            final(self).content == old(self).content,
            final(self).chunk_index == old(self).chunk_index,
    {
        self.embedding_id = embedding_id;
    }

    pub fn validate_content(content: &str) -> (r: Result<(), DocumentValidationError>)
        ensures
            r is Ok <==> !is_blank(content@),
            r is Err ==> r == Err::<(), _>(DocumentValidationError::EmptyChunkContent),
    {
        if is_blank_str(content) {
            Err(DocumentValidationError::EmptyChunkContent)
        } else {
            Ok(())
        }
    }

    pub fn validate_offsets(start: u64, end: u64) -> (r: Result<(), DocumentValidationError>)
        ensures
            r is Ok <==> start < end,
            r is Err ==> r == Err::<(), _>(DocumentValidationError::InvalidOffsets),
    {
        if start >= end {
            Err(DocumentValidationError::InvalidOffsets)
        } else {
            Ok(())
        }
    }

    pub fn validate_token_count(count: u32) -> (r: Result<(), DocumentValidationError>)
        ensures
            r is Ok <==> MIN_CHUNK_TOKENS <= count <= MAX_CHUNK_TOKENS,
            r is Err ==> r == Err::<(), _>(DocumentValidationError::InvalidTokenCount),
    {
        if count < 10 || count > 1000 {
            Err(DocumentValidationError::InvalidTokenCount)
        } else {
            Ok(())
        }
    }

    /// Estimated tokens of `content`: its characters divided by four, rounded up.
    pub fn estimate_token_count(content: &str) -> (r: usize)
        ensures
            r == tokens_for(content@.len()),
    {
        Self::estimate_token_count_of(chars_of(content).len())
    }

    /// Estimated tokens of a text of `n` characters.
    pub fn estimate_token_count_of(n: usize) -> (r: usize)
        ensures
            r == tokens_for(n as nat),
    {
        n / 4 + if n % 4 == 0 { 0 } else { 1 }
    }
}

} // verus!
