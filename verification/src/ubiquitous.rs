//! The glossary record of one documented class.

use vstd::prelude::*;

verus! {

/// The mathematical model of a glossary record: the identifier of the
/// documented class and, for each kind of tag, the value it was given, if
/// any. A field that is present may hold the empty text.
pub struct GlossaryRecord {
    pub identifier: Seq<char>,
    pub term: Option<Seq<char>>,
    pub context: Option<Seq<char>>,
    pub description: Option<Seq<char>>,
}

impl GlossaryRecord {
    /// The record with no identifier and no field.
    pub open spec fn blank() -> GlossaryRecord {
        GlossaryRecord { identifier: Seq::empty(), term: None, context: None, description: None }
    }

    /// A record is empty when none of its three optional fields is present.
    pub open spec fn is_empty(self) -> bool {
        self.term is None && self.context is None && self.description is None
    }
}

/// A glossary record.
#[derive(Debug, PartialEq, Eq)]
pub struct Ubiquitous {
    pub class_name: String,
    pub ubiquitous: Option<String>,
    pub context: Option<String>,
    pub description: Option<String>,
}

impl View for Ubiquitous {
    type V = GlossaryRecord;

    open spec fn view(&self) -> GlossaryRecord {
        GlossaryRecord {
            identifier: self.class_name@,
            term: self.ubiquitous.deep_view(),
            context: self.context.deep_view(),
            description: self.description.deep_view(),
        }
    }
}

impl DeepView for Ubiquitous {
    type V = GlossaryRecord;

    open spec fn deep_view(&self) -> GlossaryRecord {
        self@
    }
}

impl Ubiquitous {
    /// A record with an empty class name and no field.
    pub fn new() -> (r: Self)
        ensures
            r@ == GlossaryRecord::blank(),
    {
        Ubiquitous { class_name: String::new(), ubiquitous: None, context: None, description: None }
    }

    /// The same record under the class name `class_name`.
    pub fn set_class_name(self, class_name: String) -> (r: Self)
        ensures
            r@ == (GlossaryRecord { identifier: class_name@, ..self@ }),
    {
        Ubiquitous { class_name, ..self }
    }

    /// The same record with the term `ubiquitous`, in place of any earlier
    /// one.
    pub fn set_ubiquitous(self, ubiquitous: String) -> (r: Self)
        ensures
            r@ == (GlossaryRecord { term: Some(ubiquitous@), ..self@ }),
    {
        Ubiquitous { ubiquitous: Some(ubiquitous), ..self }
    }

    /// The same record with the bounded context `context`, in place of any
    /// earlier one.
    pub fn set_context(self, context: String) -> (r: Self)
        ensures
            r@ == (GlossaryRecord { context: Some(context@), ..self@ }),
    {
        Ubiquitous { context: Some(context), ..self }
    }

    /// The same record with the description `description`, in place of any
    /// earlier one.
    pub fn set_description(self, description: String) -> (r: Self)
        ensures
            r@ == (GlossaryRecord { description: Some(description@), ..self@ }),
    {
        Ubiquitous { description: Some(description), ..self }
    }

    /// Tells whether the record is empty: no term, no context and no
    /// description.
    pub fn is_all_none(&self) -> (b: bool)
        ensures
            b == self@.is_empty(),
    {
        self.ubiquitous.is_none() && self.context.is_none() && self.description.is_none()
    }
}

} // verus!
