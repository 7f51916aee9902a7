//! The batch request and its parser.
//!
//! The parser reads one object from the token stream, dispatching each key
//! through the tables in [`crate::dispatch`].  Unknown keys are skipped with
//! their whole value; known keys route to the decoder for their field; a
//! reference marker on a field that takes no reference, a value of the
//! wrong type, or a field present in both its value and its reference form
//! aborts the parse with a typed error and no partial result.

use crate::dispatch::{item_key, ref_key, request_key, ItemKey, RefKey, RequestKey};
use crate::dispatch::{spec_item_key, spec_ref_key, spec_request_key};
use crate::ordmap::{seq_map_set, OrderedStringMap};
use crate::tokens::{
    is_value, lemma_skip_shrinks, lemma_skip_to_next_sibling, spec_expect_array_start,
    spec_expect_dict_start, spec_next_dict_key, spec_next_string, spec_next_string_or_array_end,
    spec_next_string_or_null, spec_skip_value, ParseError, Token, TokenReader,
};
use crate::types::{MaybeReference, ResultReference, ResultReferenceView};
use vstd::prelude::*;
use vstd::string::StrSliceExecFns;

verus! {

/// One item to create: the source blob, the mailboxes to file the message
/// into — literally or by reference into an earlier result — its keywords,
/// and an optional receive date.
#[derive(Debug)]
pub struct ImportEmail {
    pub blob_id: String,
    pub mailbox_ids: MaybeReference<Vec<MaybeReference<String, String>>, ResultReference>,
    pub keywords: Vec<String>,
    pub received_at: Option<String>,
}

/// The whole batch: the account, an optional state guard, and the items
/// keyed by client-chosen creation ids in client-given order.
#[derive(Debug)]
pub struct ImportEmailRequest {
    pub account_id: String,
    pub if_in_state: Option<String>,
    pub emails: OrderedStringMap<ImportEmail>,
}

pub open spec fn mailbox_list_view(l: Seq<MaybeReference<String, String>>) -> Seq<
    MaybeReference<Seq<char>, Seq<char>>,
> {
    l.map_values(|e: MaybeReference<String, String>| e@)
}

pub open spec fn string_list_view(l: Seq<String>) -> Seq<Seq<char>> {
    l.map_values(|s: String| s@)
}

/// Mathematical shape of an [`ImportEmail`].
pub struct ImportEmailView {
    pub blob_id: Seq<char>,
    pub mailbox_ids: MaybeReference<Seq<MaybeReference<Seq<char>, Seq<char>>>, ResultReferenceView>,
    pub keywords: Seq<Seq<char>>,
    pub received_at: Option<Seq<char>>,
}

impl View for ImportEmail {
    type V = ImportEmailView;

    open spec fn view(&self) -> ImportEmailView {
        ImportEmailView {
            blob_id: self.blob_id@,
            mailbox_ids: match &self.mailbox_ids {
                MaybeReference::Value(l) => MaybeReference::Value(mailbox_list_view(l@)),
                MaybeReference::Reference(r) => MaybeReference::Reference(r@),
            },
            keywords: string_list_view(self.keywords@),
            received_at: match &self.received_at {
                Some(d) => Some(d@),
                None => None,
            },
        }
    }
}

/// Mathematical shape of an [`ImportEmailRequest`].
pub struct ImportEmailRequestView {
    pub account_id: Seq<char>,
    pub if_in_state: Option<Seq<char>>,
    pub emails: Seq<(Seq<char>, ImportEmailView)>,
}

impl View for ImportEmailRequest {
    type V = ImportEmailRequestView;

    open spec fn view(&self) -> ImportEmailRequestView {
        ImportEmailRequestView {
            account_id: self.account_id@,
            if_in_state: match &self.if_in_state {
                Some(s) => Some(s@),
                None => None,
            },
            emails: self.emails@,
        }
    }
}

/// Fields of an item before any key was decoded.
pub open spec fn spec_default_item() -> ImportEmailView {
    ImportEmailView {
        blob_id: Seq::empty(),
        mailbox_ids: MaybeReference::Value(Seq::empty()),
        keywords: Seq::empty(),
        received_at: None,
    }
}

/// Fields of a request before any key was decoded.
pub open spec fn spec_default_request() -> ImportEmailRequestView {
    ImportEmailRequestView {
        account_id: Seq::empty(),
        if_in_state: None,
        emails: Seq::empty(),
    }
}

/// A mailbox list element: a string starting with `#` names the creation
/// id of an earlier item, anything else is a server-assigned id.
pub open spec fn spec_mailbox_elem(s: Seq<char>) -> MaybeReference<Seq<char>, Seq<char>> {
    if s.len() > 0 && s[0] == '#' {
        MaybeReference::Reference(s.subrange(1, s.len() as int))
    } else {
        MaybeReference::Value(s)
    }
}

// In the recursive parsing functions below, every step consumes at least
// one token, so the remaining suffix shrinks.  The length test before each
// recursive call makes that visible to the termination checker; its other
// branch can never be reached.
/// Elements of the literal mailbox list, after its opening delimiter.
pub open spec fn spec_parse_id_array(
    s: Seq<Token>,
    acc: Seq<MaybeReference<Seq<char>, Seq<char>>>,
) -> Result<(Seq<MaybeReference<Seq<char>, Seq<char>>>, Seq<Token>), ParseError>
    decreases s.len(),
{
    match spec_next_string_or_array_end(s) {
        Err(e) => Err(e),
        Ok((None, rest)) => Ok((acc, rest)),
        Ok((Some(v), rest)) => if rest.len() < s.len() {
            spec_parse_id_array(rest, acc.push(spec_mailbox_elem(v)))
        } else {
            Err(ParseError::UnexpectedEnd)
        },
    }
}

/// The literal mailbox list: an array of identifier strings.
pub open spec fn spec_parse_mailbox_list(s: Seq<Token>) -> Result<
    (Seq<MaybeReference<Seq<char>, Seq<char>>>, Seq<Token>),
    ParseError,
> {
    match spec_expect_array_start(s) {
        Err(e) => Err(e),
        Ok(rest) => spec_parse_id_array(rest, Seq::empty()),
    }
}

/// Elements of the keyword list, after its opening delimiter.
pub open spec fn spec_parse_keyword_elems(s: Seq<Token>, acc: Seq<Seq<char>>) -> Result<
    (Seq<Seq<char>>, Seq<Token>),
    ParseError,
>
    decreases s.len(),
{
    match spec_next_string_or_array_end(s) {
        Err(e) => Err(e),
        Ok((None, rest)) => Ok((acc, rest)),
        Ok((Some(v), rest)) => if rest.len() < s.len() {
            spec_parse_keyword_elems(rest, acc.push(v))
        } else {
            Err(ParseError::UnexpectedEnd)
        },
    }
}

/// The keyword list: an array of keyword strings.
pub open spec fn spec_parse_keyword_list(s: Seq<Token>) -> Result<
    (Seq<Seq<char>>, Seq<Token>),
    ParseError,
> {
    match spec_expect_array_start(s) {
        Err(e) => Err(e),
        Ok(rest) => spec_parse_keyword_elems(rest, Seq::empty()),
    }
}

/// Fields of a result reference object; unknown keys are skipped here too.
pub open spec fn spec_parse_ref_fields(s: Seq<Token>, acc: ResultReferenceView) -> Result<
    (ResultReferenceView, Seq<Token>),
    ParseError,
>
    decreases s.len(),
{
    match spec_next_dict_key(s) {
        Err(e) => Err(e),
        Ok((None, rest)) => Ok((acc, rest)),
        Ok((Some(k), rest)) => match spec_ref_key(k) {
            RefKey::ResultOf => match spec_next_string(rest) {
                Err(e) => Err(e),
                Ok((v, rest2)) => if rest2.len() < s.len() {
                    spec_parse_ref_fields(
                        rest2,
                        ResultReferenceView { result_of: v, path: acc.path },
                    )
                } else {
                    Err(ParseError::UnexpectedEnd)
                },
            },
            RefKey::Path => match spec_next_string(rest) {
                Err(e) => Err(e),
                Ok((v, rest2)) => if rest2.len() < s.len() {
                    spec_parse_ref_fields(
                        rest2,
                        ResultReferenceView { result_of: acc.result_of, path: v },
                    )
                } else {
                    Err(ParseError::UnexpectedEnd)
                },
            },
            RefKey::Unknown => match spec_skip_value(rest) {
                Err(e) => Err(e),
                Ok(rest2) => if rest2.len() < s.len() {
                    spec_parse_ref_fields(rest2, acc)
                } else {
                    Err(ParseError::UnexpectedEnd)
                },
            },
        },
    }
}

/// A result reference object.
pub open spec fn spec_parse_result_ref(s: Seq<Token>) -> Result<
    (ResultReferenceView, Seq<Token>),
    ParseError,
> {
    match spec_expect_dict_start(s) {
        Err(e) => Err(e),
        Ok(rest) => spec_parse_ref_fields(
            rest,
            ResultReferenceView { result_of: Seq::empty(), path: Seq::empty() },
        ),
    }
}

/// Fields of one item.  `seen_value` and `seen_ref` record which form of
/// the mailbox field has appeared; both forms in one item is a parse error.
pub open spec fn spec_parse_item_fields(
    s: Seq<Token>,
    acc: ImportEmailView,
    seen_value: bool,
    seen_ref: bool,
) -> Result<(ImportEmailView, Seq<Token>), ParseError>
    decreases s.len(),
{
    match spec_next_dict_key(s) {
        Err(e) => Err(e),
        Ok((None, rest)) => Ok((acc, rest)),
        Ok((Some(k), rest)) => match spec_item_key(k) {
            ItemKey::BlobId => match spec_next_string(rest) {
                Err(e) => Err(e),
                Ok((v, rest2)) => if rest2.len() < s.len() {
                    spec_parse_item_fields(
                        rest2,
                        ImportEmailView { blob_id: v, ..acc },
                        seen_value,
                        seen_ref,
                    )
                } else {
                    Err(ParseError::UnexpectedEnd)
                },
            },
            ItemKey::MailboxIds => if seen_ref {
                Err(ParseError::ConflictingForms)
            } else {
                match spec_parse_mailbox_list(rest) {
                    Err(e) => Err(e),
                    Ok((l, rest2)) => if rest2.len() < s.len() {
                        spec_parse_item_fields(
                            rest2,
                            ImportEmailView { mailbox_ids: MaybeReference::Value(l), ..acc },
                            true,
                            seen_ref,
                        )
                    } else {
                        Err(ParseError::UnexpectedEnd)
                    },
                }
            },
            ItemKey::MailboxIdsRef => if seen_value {
                Err(ParseError::ConflictingForms)
            } else {
                match spec_parse_result_ref(rest) {
                    Err(e) => Err(e),
                    Ok((rr, rest2)) => if rest2.len() < s.len() {
                        spec_parse_item_fields(
                            rest2,
                            ImportEmailView { mailbox_ids: MaybeReference::Reference(rr), ..acc },
                            seen_value,
                            true,
                        )
                    } else {
                        Err(ParseError::UnexpectedEnd)
                    },
                }
            },
            ItemKey::Keywords => match spec_parse_keyword_list(rest) {
                Err(e) => Err(e),
                Ok((l, rest2)) => if rest2.len() < s.len() {
                    spec_parse_item_fields(
                        rest2,
                        ImportEmailView { keywords: l, ..acc },
                        seen_value,
                        seen_ref,
                    )
                } else {
                    Err(ParseError::UnexpectedEnd)
                },
            },
            ItemKey::ReceivedAt => match spec_next_string_or_null(rest) {
                Err(e) => Err(e),
                Ok((v, rest2)) => if rest2.len() < s.len() {
                    spec_parse_item_fields(
                        rest2,
                        ImportEmailView { received_at: v, ..acc },
                        seen_value,
                        seen_ref,
                    )
                } else {
                    Err(ParseError::UnexpectedEnd)
                },
            },
            ItemKey::RefUnsupported => Err(ParseError::UnsupportedReference),
            ItemKey::Unknown => match spec_skip_value(rest) {
                Err(e) => Err(e),
                Ok(rest2) => if rest2.len() < s.len() {
                    spec_parse_item_fields(rest2, acc, seen_value, seen_ref)
                } else {
                    Err(ParseError::UnexpectedEnd)
                },
            },
        },
    }
}

/// One item object.
pub open spec fn spec_parse_item(s: Seq<Token>) -> Result<
    (ImportEmailView, Seq<Token>),
    ParseError,
> {
    match spec_expect_dict_start(s) {
        Err(e) => Err(e),
        Ok(rest) => spec_parse_item_fields(rest, spec_default_item(), false, false),
    }
}

/// Entries of the items object: creation id keys, each followed by one
/// item object.  A repeated creation id keeps its first position and takes
/// the later value.
pub open spec fn spec_parse_emails_entries(
    s: Seq<Token>,
    acc: Seq<(Seq<char>, ImportEmailView)>,
) -> Result<(Seq<(Seq<char>, ImportEmailView)>, Seq<Token>), ParseError>
    decreases s.len(),
{
    match spec_next_dict_key(s) {
        Err(e) => Err(e),
        Ok((None, rest)) => Ok((acc, rest)),
        Ok((Some(k), rest)) => match spec_parse_item(rest) {
            Err(e) => Err(e),
            Ok((item, rest2)) => if rest2.len() < s.len() {
                spec_parse_emails_entries(rest2, seq_map_set(acc, k, item))
            } else {
                Err(ParseError::UnexpectedEnd)
            },
        },
    }
}

/// The items object.
pub open spec fn spec_parse_emails(s: Seq<Token>) -> Result<
    (Seq<(Seq<char>, ImportEmailView)>, Seq<Token>),
    ParseError,
> {
    match spec_expect_dict_start(s) {
        Err(e) => Err(e),
        Ok(rest) => spec_parse_emails_entries(rest, Seq::empty()),
    }
}

/// Fields of the request.
pub open spec fn spec_parse_request_fields(s: Seq<Token>, acc: ImportEmailRequestView) -> Result<
    (ImportEmailRequestView, Seq<Token>),
    ParseError,
>
    decreases s.len(),
{
    match spec_next_dict_key(s) {
        Err(e) => Err(e),
        Ok((None, rest)) => Ok((acc, rest)),
        Ok((Some(k), rest)) => match spec_request_key(k) {
            RequestKey::AccountId => match spec_next_string(rest) {
                Err(e) => Err(e),
                Ok((v, rest2)) => if rest2.len() < s.len() {
                    spec_parse_request_fields(
                        rest2,
                        ImportEmailRequestView { account_id: v, ..acc },
                    )
                } else {
                    Err(ParseError::UnexpectedEnd)
                },
            },
            RequestKey::IfInState => match spec_next_string_or_null(rest) {
                Err(e) => Err(e),
                Ok((v, rest2)) => if rest2.len() < s.len() {
                    spec_parse_request_fields(
                        rest2,
                        ImportEmailRequestView { if_in_state: v, ..acc },
                    )
                } else {
                    Err(ParseError::UnexpectedEnd)
                },
            },
            RequestKey::Emails => match spec_parse_emails(rest) {
                Err(e) => Err(e),
                Ok((m, rest2)) => if rest2.len() < s.len() {
                    spec_parse_request_fields(rest2, ImportEmailRequestView { emails: m, ..acc })
                } else {
                    Err(ParseError::UnexpectedEnd)
                },
            },
            RequestKey::RefUnsupported => Err(ParseError::UnsupportedReference),
            RequestKey::Unknown => match spec_skip_value(rest) {
                Err(e) => Err(e),
                Ok(rest2) => if rest2.len() < s.len() {
                    spec_parse_request_fields(rest2, acc)
                } else {
                    Err(ParseError::UnexpectedEnd)
                },
            },
        },
    }
}

/// The whole request object.
pub open spec fn spec_parse_request(s: Seq<Token>) -> Result<
    (ImportEmailRequestView, Seq<Token>),
    ParseError,
> {
    match spec_expect_dict_start(s) {
        Err(e) => Err(e),
        Ok(rest) => spec_parse_request_fields(rest, spec_default_request()),
    }
}

/// Classify one mailbox list element by its leading character.
fn mailbox_elem(s: String) -> (r: MaybeReference<String, String>)
    ensures
        r@ == spec_mailbox_elem(s@),
{
    let n = s.as_str().unicode_len();
    if n > 0 && s.as_str().get_char(0) == '#' {
        let tail = s.as_str().substring_char(1, n).to_owned();
        MaybeReference::Reference(tail)
    } else {
        MaybeReference::Value(s)
    }
}

/// The literal mailbox list.
fn parse_mailbox_list(reader: &mut TokenReader) -> (r: Result<
    Vec<MaybeReference<String, String>>,
    ParseError,
>)
    requires
        old(reader).wf(),
    ensures
        final(reader).wf(),
        final(reader).remaining().len() <= old(reader).remaining().len(),
        match r {
            Ok(l) => spec_parse_mailbox_list(old(reader).remaining()) == Ok::<
                (Seq<MaybeReference<Seq<char>, Seq<char>>>, Seq<Token>),
                ParseError,
            >((mailbox_list_view(l@), final(reader).remaining())),
            Err(e) => spec_parse_mailbox_list(old(reader).remaining()) == Err::<
                (Seq<MaybeReference<Seq<char>, Seq<char>>>, Seq<Token>),
                ParseError,
            >(e),
        },
{
    match reader.expect_array_start() {
        Err(e) => {
            return Err(e);
        },
        Ok(_) => {},
    }
    let mut acc: Vec<MaybeReference<String, String>> = Vec::new();
    proof {
        assert(mailbox_list_view(acc@) =~= Seq::<MaybeReference<Seq<char>, Seq<char>>>::empty());
    }
    loop
        invariant
            reader.wf(),
            reader.remaining().len() <= old(reader).remaining().len(),
            spec_parse_mailbox_list(old(reader).remaining()) == spec_parse_id_array(
                reader.remaining(),
                mailbox_list_view(acc@),
            ),
        decreases reader.remaining().len(),
    {
        let ghost prev = reader.remaining();
        let ghost prev_acc = mailbox_list_view(acc@);
        match reader.next_string_or_array_end() {
            Err(e) => {
                return Err(e);
            },
            Ok(None) => {
                return Ok(acc);
            },
            Ok(Some(v)) => {
                let ghost vv = v@;
                acc.push(mailbox_elem(v));
                proof {
                    assert(mailbox_list_view(acc@) =~= prev_acc.push(spec_mailbox_elem(vv)));
                }
            },
        }
    }
}

/// The keyword list.
fn parse_keyword_list(reader: &mut TokenReader) -> (r: Result<Vec<String>, ParseError>)
    requires
        old(reader).wf(),
    ensures
        final(reader).wf(),
        final(reader).remaining().len() <= old(reader).remaining().len(),
        match r {
            Ok(l) => spec_parse_keyword_list(old(reader).remaining()) == Ok::<
                (Seq<Seq<char>>, Seq<Token>),
                ParseError,
            >((string_list_view(l@), final(reader).remaining())),
            Err(e) => spec_parse_keyword_list(old(reader).remaining()) == Err::<
                (Seq<Seq<char>>, Seq<Token>),
                ParseError,
            >(e),
        },
{
    match reader.expect_array_start() {
        Err(e) => {
            return Err(e);
        },
        Ok(_) => {},
    }
    let mut acc: Vec<String> = Vec::new();
    proof {
        assert(string_list_view(acc@) =~= Seq::<Seq<char>>::empty());
    }
    loop
        invariant
            reader.wf(),
            reader.remaining().len() <= old(reader).remaining().len(),
            spec_parse_keyword_list(old(reader).remaining()) == spec_parse_keyword_elems(
                reader.remaining(),
                string_list_view(acc@),
            ),
        decreases reader.remaining().len(),
    {
        let ghost prev_acc = string_list_view(acc@);
        match reader.next_string_or_array_end() {
            Err(e) => {
                return Err(e);
            },
            Ok(None) => {
                return Ok(acc);
            },
            Ok(Some(v)) => {
                let ghost vv = v@;
                acc.push(v);
                proof {
                    assert(string_list_view(acc@) =~= prev_acc.push(vv));
                }
            },
        }
    }
}

/// A result reference object.
fn parse_result_ref(reader: &mut TokenReader) -> (r: Result<ResultReference, ParseError>)
    requires
        old(reader).wf(),
    ensures
        final(reader).wf(),
        final(reader).remaining().len() <= old(reader).remaining().len(),
        match r {
            Ok(rr) => spec_parse_result_ref(old(reader).remaining()) == Ok::<
                (ResultReferenceView, Seq<Token>),
                ParseError,
            >((rr@, final(reader).remaining())),
            Err(e) => spec_parse_result_ref(old(reader).remaining()) == Err::<
                (ResultReferenceView, Seq<Token>),
                ParseError,
            >(e),
        },
{
    match reader.expect_dict_start() {
        Err(e) => {
            return Err(e);
        },
        Ok(_) => {},
    }
    let mut rr = ResultReference { result_of: String::new(), path: String::new() };
    loop
        invariant
            reader.wf(),
            reader.remaining().len() <= old(reader).remaining().len(),
            spec_parse_result_ref(old(reader).remaining()) == spec_parse_ref_fields(
                reader.remaining(),
                rr@,
            ),
        decreases reader.remaining().len(),
    {
        let ghost prev = reader.remaining();
        let key_opt = match reader.next_dict_key() {
            Err(e) => {
                return Err(e);
            },
            Ok(v) => v,
        };
        let k = match key_opt {
            None => {
                return Ok(rr);
            },
            Some(k) => k,
        };
        match ref_key(&k) {
            RefKey::ResultOf => {
                match reader.next_string() {
                    Err(e) => {
                        return Err(e);
                    },
                    Ok(v) => {
                        rr.result_of = v;
                    },
                }
            },
            RefKey::Path => {
                match reader.next_string() {
                    Err(e) => {
                        return Err(e);
                    },
                    Ok(v) => {
                        rr.path = v;
                    },
                }
            },
            RefKey::Unknown => {
                let ghost before_skip = reader.remaining();
                match reader.skip_value() {
                    Err(e) => {
                        return Err(e);
                    },
                    Ok(_) => {
                        proof {
                            lemma_skip_shrinks(before_skip, Seq::empty());
                        }
                    },
                }
            },
        }
    }
}

impl ImportEmail {
    /// Parse one item object from the stream.
    pub fn parse(reader: &mut TokenReader) -> (r: Result<ImportEmail, ParseError>)
        requires
            old(reader).wf(),
        ensures
            final(reader).wf(),
            final(reader).remaining().len() <= old(reader).remaining().len(),
            match r {
                Ok(item) => spec_parse_item(old(reader).remaining()) == Ok::<
                    (ImportEmailView, Seq<Token>),
                    ParseError,
                >((item@, final(reader).remaining())),
                Err(e) => spec_parse_item(old(reader).remaining()) == Err::<
                    (ImportEmailView, Seq<Token>),
                    ParseError,
                >(e),
            },
    {
        match reader.expect_dict_start() {
            Err(e) => {
                return Err(e);
            },
            Ok(_) => {},
        }
        let mut item = ImportEmail {
            blob_id: String::new(),
            mailbox_ids: MaybeReference::Value(Vec::new()),
            keywords: Vec::new(),
            received_at: None,
        };
        let mut seen_value = false;
        let mut seen_ref = false;
        proof {
            assert(mailbox_list_view(Seq::<MaybeReference<String, String>>::empty()) =~= Seq::<
                MaybeReference<Seq<char>, Seq<char>>,
            >::empty());
            assert(string_list_view(Seq::<String>::empty()) =~= Seq::<Seq<char>>::empty());
            assert(item@ == spec_default_item());
        }
        loop
            invariant
                reader.wf(),
                reader.remaining().len() <= old(reader).remaining().len(),
                spec_parse_item(old(reader).remaining()) == spec_parse_item_fields(
                    reader.remaining(),
                    item@,
                    seen_value,
                    seen_ref,
                ),
            decreases reader.remaining().len(),
        {
            let key_opt = match reader.next_dict_key() {
                Err(e) => {
                    return Err(e);
                },
                Ok(v) => v,
            };
            let k = match key_opt {
                None => {
                    return Ok(item);
                },
                Some(k) => k,
            };
            match item_key(&k) {
                ItemKey::BlobId => {
                    match reader.next_string() {
                        Err(e) => {
                            return Err(e);
                        },
                        Ok(v) => {
                            item.blob_id = v;
                        },
                    }
                },
                ItemKey::MailboxIds => {
                    if seen_ref {
                        return Err(ParseError::ConflictingForms);
                    }
                    match parse_mailbox_list(reader) {
                        Err(e) => {
                            return Err(e);
                        },
                        Ok(l) => {
                            item.mailbox_ids = MaybeReference::Value(l);
                            seen_value = true;
                        },
                    }
                },
                ItemKey::MailboxIdsRef => {
                    if seen_value {
                        return Err(ParseError::ConflictingForms);
                    }
                    match parse_result_ref(reader) {
                        Err(e) => {
                            return Err(e);
                        },
                        Ok(rr) => {
                            item.mailbox_ids = MaybeReference::Reference(rr);
                            seen_ref = true;
                        },
                    }
                },
                ItemKey::Keywords => {
                    match parse_keyword_list(reader) {
                        Err(e) => {
                            return Err(e);
                        },
                        Ok(l) => {
                            item.keywords = l;
                        },
                    }
                },
                ItemKey::ReceivedAt => {
                    match reader.next_string_or_null() {
                        Err(e) => {
                            return Err(e);
                        },
                        Ok(v) => {
                            item.received_at = v;
                        },
                    }
                },
                ItemKey::RefUnsupported => {
                    return Err(ParseError::UnsupportedReference);
                },
                ItemKey::Unknown => {
                    let ghost before_skip = reader.remaining();
                    match reader.skip_value() {
                        Err(e) => {
                            return Err(e);
                        },
                        Ok(_) => {
                            proof {
                                lemma_skip_shrinks(before_skip, Seq::empty());
                            }
                        },
                    }
                },
            }
        }
    }
}

/// The items object: creation ids to item objects, in client order.
fn parse_emails(reader: &mut TokenReader) -> (r: Result<OrderedStringMap<ImportEmail>, ParseError>)
    requires
        old(reader).wf(),
    ensures
        final(reader).wf(),
        final(reader).remaining().len() <= old(reader).remaining().len(),
        match r {
            Ok(m) => m.wf() && spec_parse_emails(old(reader).remaining()) == Ok::<
                (Seq<(Seq<char>, ImportEmailView)>, Seq<Token>),
                ParseError,
            >((m@, final(reader).remaining())),
            Err(e) => spec_parse_emails(old(reader).remaining()) == Err::<
                (Seq<(Seq<char>, ImportEmailView)>, Seq<Token>),
                ParseError,
            >(e),
        },
{
    match reader.expect_dict_start() {
        Err(e) => {
            return Err(e);
        },
        Ok(_) => {},
    }
    let mut m: OrderedStringMap<ImportEmail> = OrderedStringMap::new();
    loop
        invariant
            reader.wf(),
            m.wf(),
            reader.remaining().len() <= old(reader).remaining().len(),
            spec_parse_emails(old(reader).remaining()) == spec_parse_emails_entries(
                reader.remaining(),
                m@,
            ),
        decreases reader.remaining().len(),
    {
        let key_opt = match reader.next_dict_key() {
            Err(e) => {
                return Err(e);
            },
            Ok(v) => v,
        };
        let k = match key_opt {
            None => {
                return Ok(m);
            },
            Some(k) => k,
        };
        match ImportEmail::parse(reader) {
            Err(e) => {
                return Err(e);
            },
            Ok(item) => {
                m.set(k, item);
            },
        }
    }
}

impl ImportEmailRequest {
    /// Parse the whole request from the stream.  On success the parsed
    /// request is returned with the reader positioned after the request
    /// object; on failure the typed error is returned and no partial
    /// request escapes.
    pub fn parse(reader: &mut TokenReader) -> (r: Result<ImportEmailRequest, ParseError>)
        requires
            old(reader).wf(),
        ensures
            final(reader).wf(),
            match r {
                Ok(req) => req.emails.wf() && spec_parse_request(old(reader).remaining()) == Ok::<
                    (ImportEmailRequestView, Seq<Token>),
                    ParseError,
                >((req@, final(reader).remaining())),
                Err(e) => spec_parse_request(old(reader).remaining()) == Err::<
                    (ImportEmailRequestView, Seq<Token>),
                    ParseError,
                >(e),
            },
    {
        match reader.expect_dict_start() {
            Err(e) => {
                return Err(e);
            },
            Ok(_) => {},
        }
        let mut req = ImportEmailRequest {
            account_id: String::new(),
            if_in_state: None,
            emails: OrderedStringMap::new(),
        };
        proof {
            assert(req@ == spec_default_request());
        }
        loop
            invariant
                reader.wf(),
                req.emails.wf(),
                spec_parse_request(old(reader).remaining()) == spec_parse_request_fields(
                    reader.remaining(),
                    req@,
                ),
            decreases reader.remaining().len(),
        {
            let key_opt = match reader.next_dict_key() {
                Err(e) => {
                    return Err(e);
                },
                Ok(v) => v,
            };
            let k = match key_opt {
                None => {
                    return Ok(req);
                },
                Some(k) => k,
            };
            match request_key(&k) {
                RequestKey::AccountId => {
                    match reader.next_string() {
                        Err(e) => {
                            return Err(e);
                        },
                        Ok(v) => {
                            req.account_id = v;
                        },
                    }
                },
                RequestKey::IfInState => {
                    match reader.next_string_or_null() {
                        Err(e) => {
                            return Err(e);
                        },
                        Ok(v) => {
                            req.if_in_state = v;
                        },
                    }
                },
                RequestKey::Emails => {
                    match parse_emails(reader) {
                        Err(e) => {
                            return Err(e);
                        },
                        Ok(m) => {
                            req.emails = m;
                        },
                    }
                },
                RequestKey::RefUnsupported => {
                    return Err(ParseError::UnsupportedReference);
                },
                RequestKey::Unknown => {
                    let ghost before_skip = reader.remaining();
                    match reader.skip_value() {
                        Err(e) => {
                            return Err(e);
                        },
                        Ok(_) => {
                            proof {
                                lemma_skip_shrinks(before_skip, Seq::empty());
                            }
                        },
                    }
                },
            }
        }
    }
}

/// An entry with an unknown key and any complete value leaves the parse of
/// the remaining fields exactly where it would be without the entry.
pub proof fn lemma_unknown_field_skipped(
    ks: String,
    v: Seq<Token>,
    rest: Seq<Token>,
    acc: ImportEmailRequestView,
)
    requires
        spec_request_key(ks@) == RequestKey::Unknown,
        is_value(v),
    ensures
        spec_parse_request_fields(seq![Token::Str(ks)] + v + rest, acc)
            == spec_parse_request_fields(rest, acc),
{
    let s = seq![Token::Str(ks)] + v + rest;
    assert(s[0] == Token::Str(ks));
    assert(s.drop_first() =~= v + rest);
    lemma_skip_to_next_sibling(v, rest);
    lemma_skip_shrinks(v, Seq::empty());
    assert(v.len() > 0);
    assert(spec_next_dict_key(s) == Ok::<(Option<Seq<char>>, Seq<Token>), ParseError>((
        Some(ks@),
        v + rest,
    )));
    assert(rest.len() < s.len());
}

/// A request that carries one extra unrecognized top-level field parses to
/// the same result as the request without it: unknown fields never fail
/// the parse and never change what is decoded.
pub proof fn lemma_unknown_field_ignored(ks: String, v: Seq<Token>, rest: Seq<Token>)
    requires
        spec_request_key(ks@) == RequestKey::Unknown,
        is_value(v),
    ensures
        spec_parse_request(seq![Token::DictStart, Token::Str(ks)] + v + rest) == spec_parse_request(
            seq![Token::DictStart] + rest,
        ),
{
    let s1 = seq![Token::DictStart, Token::Str(ks)] + v + rest;
    let s2 = seq![Token::DictStart] + rest;
    assert(s1[0] == Token::DictStart);
    assert(s2[0] == Token::DictStart);
    assert(s1.drop_first() =~= seq![Token::Str(ks)] + v + rest);
    assert(s2.drop_first() =~= rest);
    lemma_unknown_field_skipped(ks, v, rest, spec_default_request());
}

} // verus!
