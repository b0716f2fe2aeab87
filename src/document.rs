use vstd::prelude::*;

verus! {

/// A named, versioned unit of stored text.
pub struct Document {
    pub identifier: u64,
    pub name: String,
    pub version: u64,
    pub contents: String,
}

/// A document without its contents, as a listing shows it.
pub struct DocumentSummary {
    pub identifier: u64,
    pub name: String,
    pub version: u64,
}

/// One file of the seed directory: its file name and its full text.
pub struct SeedFile {
    pub name: String,
    pub contents: String,
}

/// The mathematical value of a `Document`.
pub struct DocView {
    pub identifier: u64,
    pub name: Seq<char>,
    pub version: u64,
    pub contents: Seq<char>,
}

/// The mathematical value of a `DocumentSummary`.
pub struct SummaryView {
    pub identifier: u64,
    pub name: Seq<char>,
    pub version: u64,
}

/// The mathematical value of a `SeedFile`.
pub struct SeedView {
    pub name: Seq<char>,
    pub contents: Seq<char>,
}

impl View for Document {
    type V = DocView;

    open spec fn view(&self) -> DocView {
        DocView {
            identifier: self.identifier,
            name: self.name@,
            version: self.version,
            contents: self.contents@,
        }
    }
}

impl View for DocumentSummary {
    type V = SummaryView;

    open spec fn view(&self) -> SummaryView {
        SummaryView { identifier: self.identifier, name: self.name@, version: self.version }
    }
}

impl View for SeedFile {
    type V = SeedView;

    open spec fn view(&self) -> SeedView {
        SeedView { name: self.name@, contents: self.contents@ }
    }
}

/// The listing entry of a document.
pub open spec fn summary_of(d: DocView) -> SummaryView {
    SummaryView { identifier: d.identifier, name: d.name, version: d.version }
}

impl Document {
    /// A copy of this document.
    pub fn duplicate(&self) -> (r: Document)
        ensures
            r@ == self@,
    {
        Document {
            identifier: self.identifier,
            name: self.name.clone(),
            version: self.version,
            contents: self.contents.clone(),
        }
    }

    /// This document's listing entry.
    pub fn summary(&self) -> (r: DocumentSummary)
        ensures
            r@ == summary_of(self@),
    {
        DocumentSummary {
            identifier: self.identifier,
            name: self.name.clone(),
            version: self.version,
        }
    }
}

} // verus!
