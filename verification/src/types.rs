//! Value and error shapes shared by the request, the response and the
//! executor.

use vstd::prelude::*;

verus! {

/// A property value inside a result object.
#[derive(Debug)]
pub enum Value {
    Str(String),
    IdList(Vec<String>),
}

/// Mathematical shape of a [`Value`].
pub enum ValueView {
    Str(Seq<char>),
    IdList(Seq<Seq<char>>),
}

impl View for Value {
    type V = ValueView;

    open spec fn view(&self) -> ValueView {
        match self {
            Value::Str(s) => ValueView::Str(s@),
            Value::IdList(l) => ValueView::IdList(l@.map_values(|s: String| s@)),
        }
    }
}

/// Error class of one failed item.
#[derive(Clone, Copy, Debug, PartialEq, Eq, Structural)]
pub enum SetErrorKind {
    /// A reference into the batch could not be resolved.
    InvalidReference,
    /// The storage collaborator could not find the source blob.
    BlobNotFound,
    /// The storage collaborator rejected a mailbox id.
    InvalidMailbox,
    /// The storage collaborator rejected a keyword.
    InvalidKeyword,
    /// The storage collaborator refused the item.
    Forbidden,
}

/// Error recorded for one item that was not created; never fatal to the
/// batch.
#[derive(Debug)]
pub struct SetError {
    pub kind: SetErrorKind,
    pub description: Option<String>,
}

/// Mathematical shape of a [`SetError`].
pub struct SetErrorView {
    pub kind: SetErrorKind,
    pub description: Option<Seq<char>>,
}

impl View for SetError {
    type V = SetErrorView;

    open spec fn view(&self) -> SetErrorView {
        SetErrorView {
            kind: self.kind,
            description: match &self.description {
                Some(d) => Some(d@),
                None => None,
            },
        }
    }
}

/// The error attributed to an item whose reference into the batch does not
/// resolve.
pub open spec fn spec_invalid_reference() -> SetErrorView {
    SetErrorView { kind: SetErrorKind::InvalidReference, description: None }
}

impl SetError {
    pub fn invalid_reference() -> (r: Self)
        ensures
            r@ == spec_invalid_reference(),
    {
        SetError { kind: SetErrorKind::InvalidReference, description: None }
    }
}

/// A field that is either a literal value or a reference to the output of
/// an operation executed earlier in the same batch; exactly one of the two.
#[derive(Debug)]
pub enum MaybeReference<V, R> {
    Value(V),
    Reference(R),
}

impl<V: View, R: View> View for MaybeReference<V, R> {
    type V = MaybeReference<V::V, R::V>;

    open spec fn view(&self) -> MaybeReference<V::V, R::V> {
        match self {
            MaybeReference::Value(v) => MaybeReference::Value(v@),
            MaybeReference::Reference(r) => MaybeReference::Reference(r@),
        }
    }
}

/// Pointer into the output object of an earlier item in the same batch:
/// the creation id whose result is meant, and the property to read from it.
/// It resolves only once that item has been processed, so execution order
/// carries meaning.
#[derive(Debug)]
pub struct ResultReference {
    pub result_of: String,
    pub path: String,
}

/// Mathematical shape of a [`ResultReference`].
pub struct ResultReferenceView {
    pub result_of: Seq<char>,
    pub path: Seq<char>,
}

impl View for ResultReference {
    type V = ResultReferenceView;

    open spec fn view(&self) -> ResultReferenceView {
        ResultReferenceView { result_of: self.result_of@, path: self.path@ }
    }
}

/// Notification handed to the outside fan-out mechanism when at least one
/// item of the batch was created.
#[derive(Debug)]
pub struct StateChange {
    pub account_id: String,
    pub new_state: String,
}

/// Mathematical shape of a [`StateChange`].
pub struct StateChangeView {
    pub account_id: Seq<char>,
    pub new_state: Seq<char>,
}

impl View for StateChange {
    type V = StateChangeView;

    open spec fn view(&self) -> StateChangeView {
        StateChangeView { account_id: self.account_id@, new_state: self.new_state@ }
    }
}

} // verus!
