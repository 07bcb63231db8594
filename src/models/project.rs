//! Projects: named collections of documents and conversations.
use vstd::prelude::*;
use crate::ids::{new_id, now_millis, parses_as_uuid};
use crate::text::{is_blank, is_blank_str, chars_of};

verus! {

pub const MAX_PROJECT_NAME_CHARS: usize = 100;
pub const MAX_PROJECT_DESCRIPTION_CHARS: usize = 500;

#[derive(Debug, Clone, Copy, PartialEq, Eq, Structural)]
pub enum ProjectStatus {
    Created,
    Processing,
    Ready,
    Error,
}

pub open spec fn project_status_name(s: ProjectStatus) -> Seq<char> {
    match s {
        ProjectStatus::Created => "Created"@,
        ProjectStatus::Processing => "Processing"@,
        ProjectStatus::Ready => "Ready"@,
        ProjectStatus::Error => "Error"@,
    }
}

impl ProjectStatus {
    /// The status's name, as shown to users and stored.
    pub fn to_string(&self) -> (r: String)
        ensures
            r@ == project_status_name(*self),
    {
        match self {
            ProjectStatus::Created => "Created".to_string(),
            ProjectStatus::Processing => "Processing".to_string(),
            ProjectStatus::Ready => "Ready".to_string(),
            ProjectStatus::Error => "Error".to_string(),
        }
    }
}

#[derive(Debug, Clone, Copy, PartialEq, Eq, Structural)]
pub enum ProjectValidationError {
    EmptyName,
    NameTooLong,
    DescriptionTooLong,
}

impl ProjectValidationError {
    /// The error's text, as shown to users.
    pub fn message(&self) -> (r: String)
        ensures
            *self == ProjectValidationError::EmptyName ==> r@ == "Project name cannot be empty"@,
            *self == ProjectValidationError::NameTooLong ==> r@ == "Project name cannot exceed 100 characters"@,
            *self == ProjectValidationError::DescriptionTooLong ==> r@ == "Project description cannot exceed 500 characters"@,
    {
        match self {
            ProjectValidationError::EmptyName => "Project name cannot be empty".to_string(),
            ProjectValidationError::NameTooLong => "Project name cannot exceed 100 characters".to_string(),
            ProjectValidationError::DescriptionTooLong => "Project description cannot exceed 500 characters".to_string(),
        }
    }
}

/// The error a project name gets, if any: it must not be blank and holds at most 100 characters.
pub open spec fn name_error(name: Seq<char>) -> Option<ProjectValidationError> {
    if is_blank(name) {
        Some(ProjectValidationError::EmptyName)
    } else if name.len() > MAX_PROJECT_NAME_CHARS {
        Some(ProjectValidationError::NameTooLong)
    } else {
        None
    }
}

/// The error a description gets, if any: it holds at most 500 characters.
pub open spec fn description_error(d: Option<String>) -> Option<ProjectValidationError> {
    match d {
        Some(s) if s@.len() > MAX_PROJECT_DESCRIPTION_CHARS => Some(ProjectValidationError::DescriptionTooLong),
        _ => None,
    }
}

#[derive(Debug, Clone)]
pub struct Project {
    pub id: String,
    pub name: String,
    pub description: Option<String>,
    /// Milliseconds since the Unix epoch.
    pub created_at: i64,
    pub updated_at: i64,
    pub document_count: u32,
    pub status: ProjectStatus,
}

impl Project {
    /// Well-formed: a valid identifier, a valid name and description.
    pub open spec fn wf(&self) -> bool {
        &&& parses_as_uuid(self.id@)
        &&& name_error(self.name@) is None
        &&& description_error(self.description) is None
    }

    /// A new, empty project in state `Created`.
    pub fn new(name: String, description: Option<String>) -> (r: Result<Project, ProjectValidationError>)
        ensures
            name_error(name@) matches Some(e) ==> r == Err::<Project, _>(e),
            name_error(name@) is None ==> (description_error(description) matches Some(e) ==> r == Err::<Project, _>(e)),
            name_error(name@) is None && description_error(description) is None ==> (r matches Ok(p) && {
                &&& p.wf()
                &&& p.name == name
                &&& p.description == description
                &&& p.document_count == 0
                &&& p.status == ProjectStatus::Created
                &&& p.created_at == p.updated_at
            }),
    {
        Self::validate_name(&name)?;
        Self::validate_description(&description)?;
        let now = now_millis();
        Ok(Project {
            id: new_id(),
            name,
            description,
            created_at: now,
            updated_at: now,
            document_count: 0,
            status: ProjectStatus::Created,
        })
    }

    pub fn update_status(&mut self, status: ProjectStatus)
        ensures
            final(self).status == status,
            final(self).id == old(self).id,
            final(self).name == old(self).name,
            final(self).description == old(self).description,
            final(self).document_count == old(self).document_count,
            final(self).created_at == old(self).created_at,
    {
        self.status = status;
        self.updated_at = now_millis();
    }

    pub fn update_document_count(&mut self, count: u32)
        ensures
            final(self).document_count == count,
            final(self).id == old(self).id,
            final(self).name == old(self).name,
            final(self).description == old(self).description,
            final(self).status == old(self).status,
            final(self).created_at == old(self).created_at,
    {
        self.document_count = count;
        self.updated_at = now_millis();
    }

    pub fn update_name(&mut self, name: String) -> (r: Result<(), ProjectValidationError>)
        ensures
            name_error(name@) matches Some(e) ==> r == Err::<(), _>(e) && *final(self) == *old(self),
            name_error(name@) is None ==> r is Ok && final(self).name == name && final(self).id == old(self).id
                && final(self).description == old(self).description && final(self).status == old(self).status,
    {
        Self::validate_name(&name)?;
        self.name = name;
        self.updated_at = now_millis();
        Ok(())
    }

    pub fn update_description(&mut self, description: Option<String>) -> (r: Result<(), ProjectValidationError>)
        ensures
            description_error(description) matches Some(e) ==> r == Err::<(), _>(e) && *final(self) == *old(self),
            description_error(description) is None ==> r is Ok && final(self).description == description
                && final(self).id == old(self).id && final(self).name == old(self).name && final(self).status == old(self).status,
    {
        Self::validate_description(&description)?;
        self.description = description;
        self.updated_at = now_millis();
        Ok(())
    }

    pub fn validate_name(name: &str) -> (r: Result<(), ProjectValidationError>)
        ensures
            name_error(name@) matches Some(e) ==> r == Err::<(), _>(e),
            name_error(name@) is None ==> r is Ok,
    {
        if is_blank_str(name) {
            return Err(ProjectValidationError::EmptyName);
        }
        if chars_of(name).len() > MAX_PROJECT_NAME_CHARS {
            return Err(ProjectValidationError::NameTooLong);
        }
        Ok(())
    }

    pub fn validate_description(description: &Option<String>) -> (r: Result<(), ProjectValidationError>)
        ensures
            description_error(*description) matches Some(e) ==> r == Err::<(), _>(e),
            description_error(*description) is None ==> r is Ok,
    {
        if let Some(d) = description {
            if chars_of(d.as_str()).len() > MAX_PROJECT_DESCRIPTION_CHARS {
                return Err(ProjectValidationError::DescriptionTooLong);
            }
        }
        Ok(())
    }
}

} // verus!
