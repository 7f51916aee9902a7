//! The batch executor.
//!
//! Phases: load the account's state token and check the optimistic
//! `ifInState` guard — a mismatch rejects the whole batch before any item
//! is examined; then process the items strictly in client order, resolving
//! each item's references against the items created before it, so that a
//! failure of one item never touches the others; finally advance the state
//! token and build the change notification exactly when something was
//! created.
//!
//! The outside collaborators appear as values: the verdicts stand for the
//! storage collaborator's per-item answers, and `advance` for the outcome
//! of the transactional state-token commit.

use crate::ordmap::{
    lemma_seq_map_lookup, lemma_seq_map_lookup_push, seq_map_contains, seq_map_keys,
    seq_map_keys_distinct, seq_map_lookup, OrderedStringMap,
};
use crate::request::{string_list_view, ImportEmail, ImportEmailRequest, ImportEmailView};
use crate::response::{spec_id_prop, ImportEmailResponse, ImportEmailResponseView};
use crate::types::{
    spec_invalid_reference, MaybeReference, SetError, SetErrorView, StateChange, StateChangeView,
    Value, ValueView,
};
use vstd::prelude::*;

verus! {

/// The storage collaborator's answer for one item whose references
/// resolved and which was therefore handed to it.
#[derive(Debug)]
pub enum ItemVerdict {
    /// The item was created; the result object carries at least the
    /// server-assigned id.
    Created(OrderedStringMap<Value>),
    /// The item was rejected; the error is recorded for this item alone.
    Rejected(SetError),
}

/// Mathematical shape of an [`ItemVerdict`].
pub enum ItemVerdictView {
    Created(Seq<(Seq<char>, ValueView)>),
    Rejected(SetErrorView),
}

impl View for ItemVerdict {
    type V = ItemVerdictView;

    open spec fn view(&self) -> ItemVerdictView {
        match self {
            ItemVerdict::Created(o) => ItemVerdictView::Created(o@),
            ItemVerdict::Rejected(e) => ItemVerdictView::Rejected(e@),
        }
    }
}

pub open spec fn verdict_views(vs: Seq<ItemVerdict>) -> Seq<ItemVerdictView> {
    vs.map_values(|v: ItemVerdict| v@)
}

/// The result object inside a created verdict.
pub open spec fn spec_verdict_object(v: ItemVerdictView) -> Seq<(Seq<char>, ValueView)> {
    match v {
        ItemVerdictView::Created(o) => o,
        ItemVerdictView::Rejected(_) => Seq::empty(),
    }
}

/// The error inside a rejected verdict.
pub open spec fn spec_verdict_error(v: ItemVerdictView) -> SetErrorView {
    match v {
        ItemVerdictView::Created(_) => spec_invalid_reference(),
        ItemVerdictView::Rejected(e) => e,
    }
}

/// Reported by the storage collaborator when the transactional state-token
/// advance loses against a concurrent batch for the same account.
#[derive(Debug)]
pub struct StateConflict;

/// How one batch call ends.
#[derive(Debug)]
pub enum BatchOutcome {
    /// The guard passed and the items ran; the per-item results are in the
    /// response's two tables.
    Done(ImportEmailResponse),
    /// The `ifInState` guard did not match the current state token: no
    /// item was examined, the response carries empty tables and the
    /// unchanged token, and this request-level error goes with it.
    StateMismatch(ImportEmailResponse),
    /// The state-token advance conflicted; every mutation of the batch is
    /// rolled back and the caller may retry with a fresh guard.
    CommitConflict,
}

/// Server-assigned id of an already-created item: the string `id` property
/// of the result object stored under that creation id.
pub open spec fn spec_created_id(
    created: Seq<(Seq<char>, Seq<(Seq<char>, ValueView)>)>,
    cid: Seq<char>,
) -> Option<Seq<char>> {
    match seq_map_lookup(created, cid) {
        Some(obj) => match seq_map_lookup(obj, spec_id_prop()) {
            Some(ValueView::Str(s)) => Some(s),
            _ => None,
        },
        None => None,
    }
}

pub open spec fn spec_elem_ok(
    created: Seq<(Seq<char>, Seq<(Seq<char>, ValueView)>)>,
    e: MaybeReference<Seq<char>, Seq<char>>,
) -> bool {
    match e {
        MaybeReference::Value(_) => true,
        MaybeReference::Reference(c) => spec_created_id(created, c) is Some,
    }
}

pub open spec fn spec_elem_id(
    created: Seq<(Seq<char>, Seq<(Seq<char>, ValueView)>)>,
    e: MaybeReference<Seq<char>, Seq<char>>,
) -> Seq<char> {
    match e {
        MaybeReference::Value(v) => v,
        MaybeReference::Reference(c) => spec_created_id(created, c).unwrap(),
    }
}

/// What resolving one item's mailbox field against the items created so
/// far yields.  A literal list resolves element by element, each `#`
/// reference to the server id of the named item; a result reference reads
/// the referenced object at its path, which must hold an id list.  Every
/// failure is the invalid-reference condition, attributed to this item.
pub open spec fn spec_resolve(
    created: Seq<(Seq<char>, Seq<(Seq<char>, ValueView)>)>,
    item: ImportEmailView,
) -> Result<Seq<Seq<char>>, SetErrorView> {
    match item.mailbox_ids {
        MaybeReference::Value(l) => if forall|i: int|
            0 <= i < l.len() ==> spec_elem_ok(created, #[trigger] l[i]) {
            Ok(Seq::new(l.len(), |i: int| spec_elem_id(created, l[i])))
        } else {
            Err(spec_invalid_reference())
        },
        MaybeReference::Reference(rr) => match seq_map_lookup(created, rr.result_of) {
            None => Err(spec_invalid_reference()),
            Some(obj) => match seq_map_lookup(obj, rr.path) {
                Some(ValueView::IdList(l)) => Ok(l),
                _ => Err(spec_invalid_reference()),
            },
        },
    }
}

/// Look up the server id of the item created under `cid`, if any.
fn created_id(created: &OrderedStringMap<OrderedStringMap<Value>>, cid: &String) -> (r: Option<
    String,
>)
    ensures
        match r {
            Some(v) => spec_created_id(created@, cid@) == Some(v@),
            None => spec_created_id(created@, cid@) is None,
        },
{
    match created.get(cid) {
        None => None,
        Some(obj) => match obj.get(&"id".to_owned()) {
            Some(v) => match v {
                Value::Str(s) => Some(s.clone()),
                _ => None,
            },
            _ => None,
        },
    }
}

/// Resolve the mailbox field of one item against the result objects of the
/// items created so far in this batch; the resolved list is what the
/// storage collaborator is given.
pub fn resolve_mailbox_ids(
    created: &OrderedStringMap<OrderedStringMap<Value>>,
    item: &ImportEmail,
) -> (r: Result<Vec<String>, SetError>)
    ensures
        match r {
            Ok(l) => spec_resolve(created@, item@) == Ok::<Seq<Seq<char>>, SetErrorView>(
                string_list_view(l@),
            ),
            Err(e) => spec_resolve(created@, item@) == Err::<Seq<Seq<char>>, SetErrorView>(e@),
        },
{
    match &item.mailbox_ids {
        MaybeReference::Value(l) => {
            let ghost lv = item@.mailbox_ids->Value_0;
            let n = l.len();
            proof {
                assert(lv.len() == n);
            }
            let mut out: Vec<String> = Vec::new();
            let mut i: usize = 0;
            while i < n
                invariant
                    0 <= i <= n,
                    n == l@.len(),
                    lv.len() == n,
                    lv == item@.mailbox_ids->Value_0,
                    item@.mailbox_ids is Value,
                    forall|j: int| 0 <= j < l@.len() ==> lv[j] == #[trigger] l@[j]@,
                    out@.len() == i,
                    forall|j: int| 0 <= j < i ==> spec_elem_ok(created@, #[trigger] lv[j]),
                    forall|j: int| 0 <= j < i ==> #[trigger] out@[j]@ == spec_elem_id(
                        created@,
                        lv[j],
                    ),
                decreases n - i,
            {
                match &l[i] {
                    MaybeReference::Value(id) => {
                        proof {
                            assert(lv[i as int] == l@[i as int]@);
                            assert(l@[i as int] == MaybeReference::Value::<String, String>(*id));
                            assert(lv[i as int] == MaybeReference::Value::<Seq<char>, Seq<char>>(
                                id@,
                            ));
                        }
                        out.push(id.clone());
                        proof {
                            assert(out@[i as int]@ == spec_elem_id(created@, lv[i as int]));
                        }
                    },
                    MaybeReference::Reference(c) => {
                        proof {
                            assert(lv[i as int] == l@[i as int]@);
                            assert(l@[i as int] == MaybeReference::Reference::<String, String>(
                                *c,
                            ));
                            assert(lv[i as int] == MaybeReference::Reference::<
                                Seq<char>,
                                Seq<char>,
                            >(c@));
                        }
                        match created_id(created, c) {
                            Some(v) => {
                                out.push(v);
                                proof {
                                    assert(out@[i as int]@ == spec_elem_id(
                                        created@,
                                        lv[i as int],
                                    ));
                                }
                            },
                            None => {
                                proof {
                                    assert(!spec_elem_ok(created@, lv[i as int]));
                                    assert(spec_resolve(created@, item@) == Err::<
                                        Seq<Seq<char>>,
                                        SetErrorView,
                                    >(spec_invalid_reference()));
                                }
                                return Err(SetError::invalid_reference());
                            },
                        }
                    },
                }
                i = i + 1;
            }
            proof {
                assert(string_list_view(out@) =~= Seq::new(
                    lv.len(),
                    |j: int| spec_elem_id(created@, lv[j]),
                ));
            }
            Ok(out)
        },
        MaybeReference::Reference(rr) => {
            match created.get(&rr.result_of) {
                None => Err(SetError::invalid_reference()),
                Some(obj) => {
                    match obj.get(&rr.path) {
                        Some(v) => {
                            match v {
                                Value::IdList(l) => {
                                    let mut out: Vec<String> = Vec::new();
                                    let n = l.len();
                                    let mut i: usize = 0;
                                    while i < n
                                        invariant
                                            0 <= i <= n,
                                            n == l@.len(),
                                            out@.len() == i,
                                            forall|j: int| 0 <= j < i ==> #[trigger] out@[j]@
                                                == l@[j]@,
                                        decreases n - i,
                                    {
                                        out.push(l[i].clone());
                                        i = i + 1;
                                    }
                                    proof {
                                        assert(string_list_view(out@) =~= string_list_view(l@));
                                    }
                                    Ok(out)
                                },
                                _ => Err(SetError::invalid_reference()),
                            }
                        },
                        None => Err(SetError::invalid_reference()),
                    }
                },
            }
        },
    }
}

/// The two result tables after the first `i` items, in input order.
/// Resolution at each step sees exactly the items created before it, so
/// forward references cannot resolve and execution order carries meaning.
pub open spec fn spec_apply_upto(
    items: Seq<(Seq<char>, ImportEmailView)>,
    verdicts: Seq<ItemVerdictView>,
    i: int,
) -> (Seq<(Seq<char>, Seq<(Seq<char>, ValueView)>)>, Seq<(Seq<char>, SetErrorView)>)
    decreases i,
{
    if i <= 0 {
        (Seq::empty(), Seq::empty())
    } else {
        let (c, n) = spec_apply_upto(items, verdicts, i - 1);
        let key = items[i - 1].0;
        match spec_resolve(c, items[i - 1].1) {
            Err(e) => (c, n.push((key, e))),
            Ok(_) => match verdicts[i - 1] {
                ItemVerdictView::Created(obj) => (c.push((key, obj)), n),
                ItemVerdictView::Rejected(e) => (c, n.push((key, e))),
            },
        }
    }
}

/// Item `i` is created: its references resolve against the items created
/// before it, and the storage collaborator accepts it.
pub open spec fn spec_item_succeeds(
    items: Seq<(Seq<char>, ImportEmailView)>,
    verdicts: Seq<ItemVerdictView>,
    i: int,
) -> bool {
    &&& spec_resolve(spec_apply_upto(items, verdicts, i).0, items[i].1) is Ok
    &&& verdicts[i] is Created
}

/// The error recorded for item `i` when it is not created.
pub open spec fn spec_item_error(
    items: Seq<(Seq<char>, ImportEmailView)>,
    verdicts: Seq<ItemVerdictView>,
    i: int,
) -> SetErrorView {
    match spec_resolve(spec_apply_upto(items, verdicts, i).0, items[i].1) {
        Err(e) => e,
        Ok(_) => spec_verdict_error(verdicts[i]),
    }
}

/// Where each item lands.  After `j` steps: the success table holds
/// exactly the keys of the earlier items that succeeded, with their result
/// objects; the failure table holds exactly the keys of the earlier items
/// that did not, with their errors; keys stay unique, and no key from
/// outside the batch appears.
#[verifier::rlimit(100)]
pub proof fn lemma_apply_membership(
    items: Seq<(Seq<char>, ImportEmailView)>,
    verdicts: Seq<ItemVerdictView>,
    j: int,
)
    requires
        seq_map_keys_distinct(items),
        verdicts.len() == items.len(),
        0 <= j <= items.len(),
    ensures
        ({
            let (c, n) = spec_apply_upto(items, verdicts, j);
            &&& c.len() + n.len() == j
            &&& seq_map_keys_distinct(c)
            &&& seq_map_keys_distinct(n)
            &&& forall|k: Seq<char>|
                seq_map_contains(c, k) ==> exists|i: int|
                    0 <= i < j && #[trigger] items[i].0 == k
            &&& forall|k: Seq<char>|
                seq_map_contains(n, k) ==> exists|i: int|
                    0 <= i < j && #[trigger] items[i].0 == k
            &&& forall|i: int|
                0 <= i < items.len() ==> (seq_map_contains(c, #[trigger] items[i].0) <==> (i < j
                    && spec_item_succeeds(items, verdicts, i)))
            &&& forall|i: int|
                0 <= i < items.len() ==> (seq_map_contains(n, #[trigger] items[i].0) <==> (i < j
                    && !spec_item_succeeds(items, verdicts, i)))
            &&& forall|i: int|
                0 <= i < j && spec_item_succeeds(items, verdicts, i) ==> seq_map_lookup(
                    c,
                    #[trigger] items[i].0,
                ) == Some(spec_verdict_object(verdicts[i]))
            &&& forall|i: int|
                0 <= i < j && !spec_item_succeeds(items, verdicts, i) ==> seq_map_lookup(
                    n,
                    #[trigger] items[i].0,
                ) == Some(spec_item_error(items, verdicts, i))
        }),
    decreases j,
{
    if j > 0 {
        lemma_apply_membership(items, verdicts, j - 1);
        let (c0, n0) = spec_apply_upto(items, verdicts, j - 1);
        let (c, n) = spec_apply_upto(items, verdicts, j);
        let key = items[j - 1].0;
        let succeeds = spec_item_succeeds(items, verdicts, j - 1);
        assert(!seq_map_contains(c0, key));
        assert(!seq_map_contains(n0, key));
        if succeeds {
            let obj = spec_verdict_object(verdicts[j - 1]);
            assert(c == c0.push((key, obj)));
            assert(n == n0);
            assert forall|k: Seq<char>| true implies seq_map_lookup(c, k) == (if seq_map_contains(
                c0,
                k,
            ) {
                seq_map_lookup(c0, k)
            } else if key == k {
                Some(obj)
            } else {
                None::<Seq<(Seq<char>, ValueView)>>
            }) by {
                lemma_seq_map_lookup_push(c0, k, (key, obj));
            }
            assert(seq_map_keys_distinct(c)) by {
                lemma_seq_map_lookup(c0, key);
                assert forall|a: int, b: int| 0 <= a < b < c.len() implies c[a].0 != c[b].0 by {
                    if b == c.len() - 1 {
                        assert(c[a] == c0[a]);
                    } else {
                        assert(c[a] == c0[a]);
                        assert(c[b] == c0[b]);
                    }
                }
            }
            assert forall|k: Seq<char>| seq_map_contains(c, k) implies exists|i: int|
                0 <= i < j && #[trigger] items[i].0 == k by {
                if seq_map_contains(c0, k) {
                    let i = choose|i: int| 0 <= i < j - 1 && #[trigger] items[i].0 == k;
                    assert(items[i].0 == k);
                } else {
                    assert(items[j - 1].0 == k);
                }
            }
        } else {
            let err = spec_item_error(items, verdicts, j - 1);
            assert(c == c0);
            assert(n == n0.push((key, err)));
            assert forall|k: Seq<char>| true implies seq_map_lookup(n, k) == (if seq_map_contains(
                n0,
                k,
            ) {
                seq_map_lookup(n0, k)
            } else if key == k {
                Some(err)
            } else {
                None::<SetErrorView>
            }) by {
                lemma_seq_map_lookup_push(n0, k, (key, err));
            }
            assert(seq_map_keys_distinct(n)) by {
                lemma_seq_map_lookup(n0, key);
                assert forall|a: int, b: int| 0 <= a < b < n.len() implies n[a].0 != n[b].0 by {
                    if b == n.len() - 1 {
                        assert(n[a] == n0[a]);
                    } else {
                        assert(n[a] == n0[a]);
                        assert(n[b] == n0[b]);
                    }
                }
            }
            assert forall|k: Seq<char>| seq_map_contains(n, k) implies exists|i: int|
                0 <= i < j && #[trigger] items[i].0 == k by {
                if seq_map_contains(n0, k) {
                    let i = choose|i: int| 0 <= i < j - 1 && #[trigger] items[i].0 == k;
                    assert(items[i].0 == k);
                } else {
                    assert(items[j - 1].0 == k);
                }
            }
        }
    }
}

/// The creation ids of the items among the first `j` that succeed, in
/// input order.
pub open spec fn spec_created_keys(
    items: Seq<(Seq<char>, ImportEmailView)>,
    verdicts: Seq<ItemVerdictView>,
    j: int,
) -> Seq<Seq<char>>
    decreases j,
{
    if j <= 0 {
        Seq::empty()
    } else if spec_item_succeeds(items, verdicts, j - 1) {
        spec_created_keys(items, verdicts, j - 1).push(items[j - 1].0)
    } else {
        spec_created_keys(items, verdicts, j - 1)
    }
}

/// The creation ids of the items among the first `j` that fail, in input
/// order.
pub open spec fn spec_failed_keys(
    items: Seq<(Seq<char>, ImportEmailView)>,
    verdicts: Seq<ItemVerdictView>,
    j: int,
) -> Seq<Seq<char>>
    decreases j,
{
    if j <= 0 {
        Seq::empty()
    } else if spec_item_succeeds(items, verdicts, j - 1) {
        spec_failed_keys(items, verdicts, j - 1)
    } else {
        spec_failed_keys(items, verdicts, j - 1).push(items[j - 1].0)
    }
}

/// Order law: each result table lists its creation ids in the request's
/// input order — the keys of the success table are exactly the succeeding
/// ids as they appear in the request, and the keys of the failure table
/// exactly the failing ones.
pub proof fn lemma_tables_keep_input_order(
    items: Seq<(Seq<char>, ImportEmailView)>,
    verdicts: Seq<ItemVerdictView>,
    j: int,
)
    requires
        verdicts.len() == items.len(),
        0 <= j <= items.len(),
    ensures
        seq_map_keys(spec_apply_upto(items, verdicts, j).0) == spec_created_keys(
            items,
            verdicts,
            j,
        ),
        seq_map_keys(spec_apply_upto(items, verdicts, j).1) == spec_failed_keys(
            items,
            verdicts,
            j,
        ),
    decreases j,
{
    if j > 0 {
        lemma_tables_keep_input_order(items, verdicts, j - 1);
        let (c0, n0) = spec_apply_upto(items, verdicts, j - 1);
        let key = items[j - 1].0;
        if spec_item_succeeds(items, verdicts, j - 1) {
            let obj = spec_verdict_object(verdicts[j - 1]);
            assert(spec_apply_upto(items, verdicts, j).0 == c0.push((key, obj)));
            assert(seq_map_keys(c0.push((key, obj))) =~= seq_map_keys(c0).push(key));
        } else {
            let err = spec_item_error(items, verdicts, j - 1);
            assert(spec_apply_upto(items, verdicts, j).1 == n0.push((key, err)));
            assert(seq_map_keys(n0.push((key, err))) =~= seq_map_keys(n0).push(key));
        }
    }
}

/// Partition law: when the guard passes, every creation id of the batch
/// appears in exactly one of the two result tables — created or not
/// created — and no other key appears in either.
pub proof fn lemma_batch_partition(
    items: Seq<(Seq<char>, ImportEmailView)>,
    verdicts: Seq<ItemVerdictView>,
)
    requires
        seq_map_keys_distinct(items),
        verdicts.len() == items.len(),
    ensures
        ({
            let (c, n) = spec_apply_upto(items, verdicts, items.len() as int);
            &&& c.len() + n.len() == items.len()
            &&& forall|k: Seq<char>|
                #![trigger seq_map_contains(c, k), seq_map_contains(n, k)]
                (seq_map_contains(c, k) || seq_map_contains(n, k)) <==> exists|i: int|
                    0 <= i < items.len() && #[trigger] items[i].0 == k
            &&& forall|k: Seq<char>|
                !(#[trigger] seq_map_contains(c, k) && seq_map_contains(n, k))
        }),
{
    lemma_apply_membership(items, verdicts, items.len() as int);
    let (c, n) = spec_apply_upto(items, verdicts, items.len() as int);
    assert forall|k: Seq<char>| !(#[trigger] seq_map_contains(c, k) && seq_map_contains(
        n,
        k,
    )) by {
        if seq_map_contains(c, k) && seq_map_contains(n, k) {
            let i = choose|i: int| 0 <= i < items.len() && #[trigger] items[i].0 == k;
            assert(seq_map_contains(c, items[i].0));
            assert(seq_map_contains(n, items[i].0));
        }
    }
}

/// Output-order law: when every item of the batch succeeds, the success
/// table enumerates the creation ids in exactly the request's order and
/// the failure table is empty.
pub proof fn lemma_output_order(
    items: Seq<(Seq<char>, ImportEmailView)>,
    verdicts: Seq<ItemVerdictView>,
    j: int,
)
    requires
        verdicts.len() == items.len(),
        0 <= j <= items.len(),
        forall|i: int| 0 <= i < items.len() ==> spec_item_succeeds(items, verdicts, i),
    ensures
        ({
            let (c, n) = spec_apply_upto(items, verdicts, j);
            &&& n.len() == 0
            &&& c.len() == j
            &&& forall|i: int| 0 <= i < j ==> (#[trigger] c[i]).0 == items[i].0
        }),
    decreases j,
{
    if j > 0 {
        lemma_output_order(items, verdicts, j - 1);
        let (c0, n0) = spec_apply_upto(items, verdicts, j - 1);
        assert(spec_item_succeeds(items, verdicts, j - 1));
        assert(spec_resolve(c0, items[j - 1].1) is Ok);
        let (c, n) = spec_apply_upto(items, verdicts, j);
        assert(c == c0.push((items[j - 1].0, spec_verdict_object(verdicts[j - 1]))));
        assert forall|i: int| 0 <= i < j implies (#[trigger] c[i]).0 == items[i].0 by {
            if i < j - 1 {
                assert(c[i] == c0[i]);
            }
        }
    }
}

/// Forward-reference law, the resolving half: if item `j`'s mailbox field
/// is a literal list whose element `e` references the creation id of an
/// earlier item `i`, and item `i` succeeded with a result object whose
/// string `id` property is `v`, then that element resolves to `v`.
pub proof fn lemma_forward_reference(
    items: Seq<(Seq<char>, ImportEmailView)>,
    verdicts: Seq<ItemVerdictView>,
    i: int,
    j: int,
    e: int,
    v: Seq<char>,
)
    requires
        seq_map_keys_distinct(items),
        verdicts.len() == items.len(),
        0 <= i < j < items.len(),
        spec_item_succeeds(items, verdicts, i),
        seq_map_lookup(spec_verdict_object(verdicts[i]), spec_id_prop()) == Some(
            ValueView::Str(v),
        ),
        items[j].1.mailbox_ids is Value,
        0 <= e < items[j].1.mailbox_ids->Value_0.len(),
        items[j].1.mailbox_ids->Value_0[e] == MaybeReference::Reference::<Seq<char>, Seq<char>>(
            items[i].0,
        ),
    ensures
        spec_elem_ok(spec_apply_upto(items, verdicts, j).0, items[j].1.mailbox_ids->Value_0[e]),
        spec_elem_id(spec_apply_upto(items, verdicts, j).0, items[j].1.mailbox_ids->Value_0[e])
            == v,
{
    lemma_apply_membership(items, verdicts, j);
}

/// Forward-reference law, the failing half: a reference to the creation id
/// of an item that comes later in the batch, or that was not created,
/// lands the referencing item in the failure table with the
/// invalid-reference condition.
pub proof fn lemma_unresolved_reference(
    items: Seq<(Seq<char>, ImportEmailView)>,
    verdicts: Seq<ItemVerdictView>,
    i: int,
    j: int,
    e: int,
)
    requires
        seq_map_keys_distinct(items),
        verdicts.len() == items.len(),
        0 <= j < items.len(),
        0 <= i < items.len(),
        j <= i || !spec_item_succeeds(items, verdicts, i),
        items[j].1.mailbox_ids is Value,
        0 <= e < items[j].1.mailbox_ids->Value_0.len(),
        items[j].1.mailbox_ids->Value_0[e] == MaybeReference::Reference::<Seq<char>, Seq<char>>(
            items[i].0,
        ),
    ensures
        !spec_item_succeeds(items, verdicts, j),
        seq_map_lookup(spec_apply_upto(items, verdicts, items.len() as int).1, items[j].0) == Some(
            spec_invalid_reference(),
        ),
{
    lemma_apply_membership(items, verdicts, j);
    let (c, n) = spec_apply_upto(items, verdicts, j);
    assert(!seq_map_contains(c, items[i].0));
    assert(!spec_elem_ok(c, items[j].1.mailbox_ids->Value_0[e]));
    assert(spec_resolve(c, items[j].1) == Err::<Seq<Seq<char>>, SetErrorView>(
        spec_invalid_reference(),
    ));
    lemma_apply_membership(items, verdicts, items.len() as int);
}

/// Run the per-item phase over the items in input order.  Each item's
/// references are resolved against the items created so far; an item that
/// does not resolve is recorded as not created without consulting its
/// verdict, and a failure never stops the remaining items.
fn run_items(items: &OrderedStringMap<ImportEmail>, verdicts: Vec<ItemVerdict>) -> (r: (
    OrderedStringMap<OrderedStringMap<Value>>,
    OrderedStringMap<SetError>,
))
    requires
        items.wf(),
        verdicts@.len() == items@.len(),
    ensures
        (r.0@, r.1@) == spec_apply_upto(items@, verdict_views(verdicts@), items@.len() as int),
        r.0.wf(),
        r.1.wf(),
{
    let ghost gitems = items@;
    let ghost gverdicts = verdict_views(verdicts@);
    let mut verdicts = verdicts;
    let mut created: OrderedStringMap<OrderedStringMap<Value>> = OrderedStringMap::new();
    let mut not_created: OrderedStringMap<SetError> = OrderedStringMap::new();
    let n = items.len();
    let mut i: usize = 0;
    proof {
        assert(verdict_views(verdicts@) =~= gverdicts.skip(0));
    }
    while i < n
        invariant
            items.wf(),
            items@ == gitems,
            n == gitems.len(),
            gverdicts.len() == gitems.len(),
            0 <= i <= n,
            verdicts@.len() == n - i,
            verdict_views(verdicts@) == gverdicts.skip(i as int),
            (created@, not_created@) == spec_apply_upto(gitems, gverdicts, i as int),
            created.wf(),
            not_created.wf(),
        decreases n - i,
    {
        let ghost pre_verdicts = verdicts@;
        let key = items.key_at(i).clone();
        let item = items.value_at(i);
        let verdict = verdicts.remove(0);
        proof {
            assert(verdict@ == verdict_views(pre_verdicts)[0]);
            assert(verdict@ == gverdicts[i as int]);
            assert(verdict_views(verdicts@) =~= verdict_views(pre_verdicts).drop_first());
            assert(verdict_views(verdicts@) =~= gverdicts.skip(i as int + 1));
            lemma_apply_membership(gitems, gverdicts, i as int);
            assert(!seq_map_contains(created@, gitems[i as int].0));
            assert(!seq_map_contains(not_created@, gitems[i as int].0));
        }
        // The resolved list is what the storage collaborator receives; its
        // answer for this item is already fixed in the verdict.
        match resolve_mailbox_ids(&created, item) {
            Err(e) => {
                not_created.append(key, e);
            },
            Ok(_resolved) => {
                match verdict {
                    ItemVerdict::Created(obj) => {
                        created.append(key, obj);
                    },
                    ItemVerdict::Rejected(e) => {
                        not_created.append(key, e);
                    },
                }
            },
        }
        i = i + 1;
    }
    (created, not_created)
}

/// The response of a batch rejected by the `ifInState` guard: both tables
/// empty, both state tokens the current one, no change notification.
pub open spec fn spec_mismatch_response(
    account_id: Seq<char>,
    current_state: Seq<char>,
) -> ImportEmailResponseView {
    ImportEmailResponseView {
        account_id: account_id,
        old_state: Some(current_state),
        new_state: current_state,
        created: Seq::empty(),
        not_created: Seq::empty(),
        state_change: None,
    }
}

/// The response of a batch that ran: the tables of [`spec_apply_upto`],
/// the new state token and a change notification exactly when at least one
/// item was created, the unchanged token and none otherwise.
pub open spec fn spec_done_response(
    account_id: Seq<char>,
    current_state: Seq<char>,
    new_state: Seq<char>,
    created: Seq<(Seq<char>, Seq<(Seq<char>, ValueView)>)>,
    not_created: Seq<(Seq<char>, SetErrorView)>,
    changed: bool,
) -> ImportEmailResponseView {
    ImportEmailResponseView {
        account_id: account_id,
        old_state: Some(current_state),
        new_state: new_state,
        created: created,
        not_created: not_created,
        state_change: if changed {
            Some(StateChangeView { account_id: account_id, new_state: new_state })
        } else {
            None
        },
    }
}

/// Whether the optimistic guard rejects the batch: it does exactly when
/// `ifInState` is set and differs from the account's current token.
pub open spec fn spec_guard_fails(
    if_in_state: Option<Seq<char>>,
    current_state: Seq<char>,
) -> bool {
    match if_in_state {
        Some(st) => st != current_state,
        None => false,
    }
}

/// Run one batch.
///
/// The account's current state token, the storage collaborator's per-item
/// verdicts (one per item, in order; the verdict of an item whose
/// references do not resolve is never consulted) and the outcome of the
/// transactional state-token advance (consulted only when at least one
/// item was created) come in as values.
pub fn execute(
    request: &ImportEmailRequest,
    current_state: String,
    advance: Result<String, StateConflict>,
    verdicts: Vec<ItemVerdict>,
) -> (r: BatchOutcome)
    requires
        request.emails.wf(),
        verdicts@.len() == request.emails@.len(),
    ensures
        ({
            let items = request@.emails;
            let (c, n) = spec_apply_upto(
                items,
                verdict_views(verdicts@),
                items.len() as int,
            );
            &&& spec_guard_fails(request@.if_in_state, current_state@) ==> (r matches
                BatchOutcome::StateMismatch(resp) && resp@ == spec_mismatch_response(
                request@.account_id,
                current_state@,
            ))
            &&& !spec_guard_fails(request@.if_in_state, current_state@) && c.len() == 0 ==> (r
                matches BatchOutcome::Done(resp) && resp@ == spec_done_response(
                request@.account_id,
                current_state@,
                current_state@,
                c,
                n,
                false,
            ))
            &&& !spec_guard_fails(request@.if_in_state, current_state@) && c.len() > 0 && advance
                is Ok ==> (r matches BatchOutcome::Done(resp) && resp@ == spec_done_response(
                request@.account_id,
                current_state@,
                advance->Ok_0@,
                c,
                n,
                true,
            ))
            &&& !spec_guard_fails(request@.if_in_state, current_state@) && c.len() > 0 && advance
                is Err ==> r is CommitConflict
        }),
{
    match &request.if_in_state {
        Some(st) => {
            if !(*st == current_state) {
                let resp = ImportEmailResponse {
                    account_id: request.account_id.clone(),
                    old_state: Some(current_state.clone()),
                    new_state: current_state,
                    created: OrderedStringMap::new(),
                    not_created: OrderedStringMap::new(),
                    state_change: None,
                };
                return BatchOutcome::StateMismatch(resp);
            }
        },
        None => {},
    }
    let (created, not_created) = run_items(&request.emails, verdicts);
    if created.is_empty() {
        BatchOutcome::Done(
            ImportEmailResponse {
                account_id: request.account_id.clone(),
                old_state: Some(current_state.clone()),
                new_state: current_state,
                created,
                not_created,
                state_change: None,
            },
        )
    } else {
        match advance {
            Ok(tok) => BatchOutcome::Done(
                ImportEmailResponse {
                    account_id: request.account_id.clone(),
                    old_state: Some(current_state),
                    new_state: tok.clone(),
                    created,
                    not_created,
                    state_change: Some(
                        StateChange { account_id: request.account_id.clone(), new_state: tok },
                    ),
                },
            ),
            Err(_) => BatchOutcome::CommitConflict,
        }
    }
}

} // verus!
