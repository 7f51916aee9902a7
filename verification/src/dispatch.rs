//! Key dispatch for object parsing.
//!
//! Each raw key found while parsing an object is mapped to a compact tag
//! that selects the decoder for that field.  A key may carry the fixed
//! reference marker `#ref` after its base name; the value form and the
//! reference form of the same logical field route to different decoders.
//! Keys that match no known field — with or without the marker — are
//! tagged unknown and their value is skipped, never failed, so requests
//! from newer clients keep parsing.

use vstd::prelude::*;

verus! {

/// Tags for the top-level request fields.
#[derive(Clone, Copy, Debug, PartialEq, Eq, Structural)]
pub enum RequestKey {
    AccountId,
    IfInState,
    Emails,
    /// A known field carrying the reference marker; no top-level field
    /// supports references, so this is a parse error.
    RefUnsupported,
    Unknown,
}

/// Tags for the fields of one item.
#[derive(Clone, Copy, Debug, PartialEq, Eq, Structural)]
pub enum ItemKey {
    BlobId,
    /// The literal list of mailbox ids.
    MailboxIds,
    /// The reference form of the same logical field.
    MailboxIdsRef,
    Keywords,
    ReceivedAt,
    /// A known field other than the mailbox list carrying the reference
    /// marker.
    RefUnsupported,
    Unknown,
}

/// Tags for the fields of a result reference object.
#[derive(Clone, Copy, Debug, PartialEq, Eq, Structural)]
pub enum RefKey {
    ResultOf,
    Path,
    Unknown,
}

pub open spec fn spec_request_key(k: Seq<char>) -> RequestKey {
    if k == "accountId"@ {
        RequestKey::AccountId
    } else if k == "ifInState"@ {
        RequestKey::IfInState
    } else if k == "emails"@ {
        RequestKey::Emails
    } else if k == "accountId#ref"@ || k == "ifInState#ref"@ || k == "emails#ref"@ {
        RequestKey::RefUnsupported
    } else {
        RequestKey::Unknown
    }
}

pub open spec fn spec_item_key(k: Seq<char>) -> ItemKey {
    if k == "blobId"@ {
        ItemKey::BlobId
    } else if k == "mailboxIds"@ {
        ItemKey::MailboxIds
    } else if k == "mailboxIds#ref"@ {
        ItemKey::MailboxIdsRef
    } else if k == "keywords"@ {
        ItemKey::Keywords
    } else if k == "receivedAt"@ {
        ItemKey::ReceivedAt
    } else if k == "blobId#ref"@ || k == "keywords#ref"@ || k == "receivedAt#ref"@ {
        ItemKey::RefUnsupported
    } else {
        ItemKey::Unknown
    }
}

pub open spec fn spec_ref_key(k: Seq<char>) -> RefKey {
    if k == "resultOf"@ {
        RefKey::ResultOf
    } else if k == "path"@ {
        RefKey::Path
    } else {
        RefKey::Unknown
    }
}

/// Compare a key against a known field name.
fn str_is(k: &String, lit: &str) -> (r: bool)
    ensures
        r == (k@ == lit@),
{
    *k == lit.to_owned()
}

pub fn request_key(k: &String) -> (r: RequestKey)
    ensures
        r == spec_request_key(k@),
{
    if str_is(k, "accountId") {
        RequestKey::AccountId
    } else if str_is(k, "ifInState") {
        RequestKey::IfInState
    } else if str_is(k, "emails") {
        RequestKey::Emails
    } else if str_is(k, "accountId#ref") || str_is(k, "ifInState#ref") || str_is(k, "emails#ref") {
        RequestKey::RefUnsupported
    } else {
        RequestKey::Unknown
    }
}

pub fn item_key(k: &String) -> (r: ItemKey)
    ensures
        r == spec_item_key(k@),
{
    if str_is(k, "blobId") {
        ItemKey::BlobId
    } else if str_is(k, "mailboxIds") {
        ItemKey::MailboxIds
    } else if str_is(k, "mailboxIds#ref") {
        ItemKey::MailboxIdsRef
    } else if str_is(k, "keywords") {
        ItemKey::Keywords
    } else if str_is(k, "receivedAt") {
        ItemKey::ReceivedAt
    } else if str_is(k, "blobId#ref") || str_is(k, "keywords#ref") || str_is(k, "receivedAt#ref") {
        ItemKey::RefUnsupported
    } else {
        ItemKey::Unknown
    }
}

pub fn ref_key(k: &String) -> (r: RefKey)
    ensures
        r == spec_ref_key(k@),
{
    if str_is(k, "resultOf") {
        RefKey::ResultOf
    } else if str_is(k, "path") {
        RefKey::Path
    } else {
        RefKey::Unknown
    }
}

} // verus!
