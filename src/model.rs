//! The record type of the store and its enumerations.
use vstd::prelude::*;

verus! {

/// The language an engagement is held in.
#[derive(Clone, Copy, Debug, PartialEq, Eq, Structural)]
pub enum Language {
    English,
    Spanish,
    French,
    Italian,
    Portuguese,
    German,
}

/// Where an engagement stands in its planning.
#[derive(Clone, Copy, Debug, PartialEq, Eq, Structural)]
pub enum Status {
    Planning,
    Invited,
    Confirmed,
}

impl Status {
    /// The display name of the status.
    pub fn name(&self) -> (r: String)
        ensures
            r@ == status_name(*self),
    {
        match self {
            Status::Planning => String::from_str("Planning"),
            Status::Invited => String::from_str("Invited"),
            Status::Confirmed => String::from_str("Confirmed"),
        }
    }
}

pub open spec fn status_name(s: Status) -> Seq<char> {
    match s {
        Status::Planning => "Planning"@,
        Status::Invited => "Invited"@,
        Status::Confirmed => "Confirmed"@,
    }
}

/// One record of the store: a scheduled engagement. Records are identified
/// by `id` alone (the 128-bit value of a UUID).
#[derive(Debug)]
pub struct Engagement {
    pub id: u128,
    pub instructor: String,
    pub host: String,
    pub date: String,
    pub language: Language,
    pub title: String,
    pub part: usize,
    pub num_parts: usize,
    pub status: Status,
}

/// The mathematical value of an [`Engagement`].
pub struct RecordView {
    pub id: u128,
    pub instructor: Seq<char>,
    pub host: Seq<char>,
    pub date: Seq<char>,
    pub language: Language,
    pub title: Seq<char>,
    pub part: usize,
    pub num_parts: usize,
    pub status: Status,
}

impl View for Engagement {
    type V = RecordView;

    open spec fn view(&self) -> RecordView {
        RecordView {
            id: self.id,
            instructor: self.instructor@,
            host: self.host@,
            date: self.date@,
            language: self.language,
            title: self.title@,
            part: self.part,
            num_parts: self.num_parts,
            status: self.status,
        }
    }
}

impl Engagement {
    /// A field-by-field copy.
    pub fn copied(&self) -> (r: Engagement)
        ensures
            r@ == self@,
    {
        Engagement {
            id: self.id,
            instructor: self.instructor.clone(),
            host: self.host.clone(),
            date: self.date.clone(),
            language: self.language,
            title: self.title.clone(),
            part: self.part,
            num_parts: self.num_parts,
            status: self.status,
        }
    }
}

} // verus!
