//! The document as a whole: the project's metadata, its enumerations and its
//! classes.
use crate::text::Text;
use crate::udl::class::{Class, ClassView};
use crate::udl::enums::{Enum, EnumView};
use vstd::prelude::*;

verus! {

/// A document: what one run of the generator reads. Enumerations and
/// classes stand in the order of the document.
#[derive(Debug, Clone)]
pub struct UDL {
    pub version: String,
    pub project: ProjectMeta,
    pub enums: Vec<Enum>,
    pub models: Vec<Class>,
}

/// What the document says of the project itself.
#[derive(Debug, Clone)]
pub struct ProjectMeta {
    pub name: String,
    pub version: String,
    pub description: String,
    pub authors: Vec<ProjectAuthor>,
    pub license: String,
    pub namespace: String,
    pub models_only: bool,
    pub target_platforms: Vec<String>,
}

/// An author of the project.
#[derive(Debug, Clone)]
pub struct ProjectAuthor {
    name: String,
    email: String,
}

/// The model of a [`UDL`]: the part of the document that generation reads.
pub struct DocumentView {
    pub enums: Seq<EnumView>,
    pub models: Seq<ClassView>,
}

impl View for UDL {
    type V = DocumentView;

    open spec fn view(&self) -> DocumentView {
        DocumentView {
            enums: self.enums@.map_values(|e: Enum| e@),
            models: self.models@.map_values(|c: Class| c@),
        }
    }
}

impl ProjectAuthor {
    /// The name of the author, as text.
    pub closed spec fn name_text(&self) -> Text {
        self.name@
    }

    /// The address of the author, as text.
    pub closed spec fn email_text(&self) -> Text {
        self.email@
    }

    /// An author with this name and this address.
    pub fn new(name: String, email: String) -> (author: ProjectAuthor)
        ensures
            author.name_text() == name@,
            author.email_text() == email@,
    {
        ProjectAuthor { name, email }
    }

    /// The name of the author.
    pub fn name(&self) -> (name: &String)
        ensures
            name@ == self.name_text(),
    {
        &self.name
    }

    /// The address of the author.
    pub fn email(&self) -> (email: &String)
        ensures
            email@ == self.email_text(),
    {
        &self.email
    }
}

} // verus!
