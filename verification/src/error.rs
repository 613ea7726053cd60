//! The errors a load or a lookup can produce.

use vstd::prelude::*;

verus! {

/// An id that did not resolve in its expected collection. Raised while
/// attaching stop visits to trips, and by every accessor lookup miss.
#[derive(Debug)]
pub struct ReferenceError {
    pub id: String,
}

impl View for ReferenceError {
    type V = Seq<char>;

    open spec fn view(&self) -> Seq<char> {
        self.id@
    }
}

impl Clone for ReferenceError {
    fn clone(&self) -> (r: ReferenceError)
        ensures
            r@ == self@,
    {
        ReferenceError { id: self.id.clone() }
    }
}

/// Why a bundle failed to load. The load is fail-fast: the first error of
/// any kind aborts it and no store is returned.
#[derive(Debug)]
pub enum LoadError {
    /// The byte stream could not be read as a delimited table.
    Table,
    /// A cell's text could not be decoded into its column's shape; carries
    /// the offending text.
    Value(String),
    /// A mandatory column is absent from the file's header; carries the
    /// column name.
    MissingColumn(String),
    /// The bundle has no stop-visit file.
    MissingStopTimes,
    /// A stop visit named a trip or stop that is not loaded.
    Reference(ReferenceError),
}

/// The mathematical shadow of [`LoadError`]: the same cases over character
/// sequences, so that contracts can state exactly which error is returned.
pub enum LoadErrorV {
    Table,
    Value(Seq<char>),
    MissingColumn(Seq<char>),
    MissingStopTimes,
    Reference(Seq<char>),
}

impl View for LoadError {
    type V = LoadErrorV;

    open spec fn view(&self) -> LoadErrorV {
        match self {
            LoadError::Table => LoadErrorV::Table,
            LoadError::Value(s) => LoadErrorV::Value(s@),
            LoadError::MissingColumn(s) => LoadErrorV::MissingColumn(s@),
            LoadError::MissingStopTimes => LoadErrorV::MissingStopTimes,
            LoadError::Reference(e) => LoadErrorV::Reference(e@),
        }
    }
}

impl LoadError {
    /// The unresolved id, where the error is a reference error.
    pub fn reference_id(&self) -> (r: Option<&String>)
        ensures
            match r {
                Some(id) => self@ matches LoadErrorV::Reference(v) && v == id@,
                None => !(self@ is Reference),
            },
    {
        match self {
            LoadError::Reference(e) => Some(&e.id),
            _ => None,
        }
    }
}

} // verus!
