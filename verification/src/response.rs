//! The batch response, and the session-level index of newly created ids.

use crate::ordmap::{seq_map_lookup, seq_map_set, OrderedStringMap};
use crate::types::{SetError, SetErrorView, StateChange, StateChangeView, Value, ValueView};
use vstd::prelude::*;

verus! {

/// What one batch returns: the state tokens around it, one result object
/// per created item, one error per item not created, and the change
/// notification to fan out when anything was created.  `created` and
/// `not_created` keep the items' input order.
#[derive(Debug)]
pub struct ImportEmailResponse {
    pub account_id: String,
    pub old_state: Option<String>,
    pub new_state: String,
    pub created: OrderedStringMap<OrderedStringMap<Value>>,
    pub not_created: OrderedStringMap<SetError>,
    pub state_change: Option<StateChange>,
}

/// Mathematical shape of an [`ImportEmailResponse`].
pub struct ImportEmailResponseView {
    pub account_id: Seq<char>,
    pub old_state: Option<Seq<char>>,
    pub new_state: Seq<char>,
    pub created: Seq<(Seq<char>, Seq<(Seq<char>, ValueView)>)>,
    pub not_created: Seq<(Seq<char>, SetErrorView)>,
    pub state_change: Option<StateChangeView>,
}

impl View for ImportEmailResponse {
    type V = ImportEmailResponseView;

    open spec fn view(&self) -> ImportEmailResponseView {
        ImportEmailResponseView {
            account_id: self.account_id@,
            old_state: match &self.old_state {
                Some(s) => Some(s@),
                None => None,
            },
            new_state: self.new_state@,
            created: self.created@,
            not_created: self.not_created@,
            state_change: match &self.state_change {
                Some(c) => Some(c@),
                None => None,
            },
        }
    }
}

/// The slice of the outer, session-scoped response this method touches:
/// the index mapping creation ids to server-assigned ids, shared by all
/// requests of one session.
pub struct Response {
    pub created_ids: OrderedStringMap<String>,
}

/// The property of a result object that carries the server-assigned id.
pub open spec fn spec_id_prop() -> Seq<char> {
    "id"@
}

/// What one created entry adds to the index: the value of the object's
/// string `id` property; an object without one adds nothing.
pub open spec fn spec_insert_created_id(
    acc: Seq<(Seq<char>, Seq<char>)>,
    k: Seq<char>,
    obj: Seq<(Seq<char>, ValueView)>,
) -> Seq<(Seq<char>, Seq<char>)> {
    match seq_map_lookup(obj, spec_id_prop()) {
        Some(ValueView::Str(v)) => seq_map_set(acc, k, v),
        _ => acc,
    }
}

/// The index after folding in every created entry, in order.
pub open spec fn spec_updated_created_ids(
    created: Seq<(Seq<char>, Seq<(Seq<char>, ValueView)>)>,
    acc: Seq<(Seq<char>, Seq<char>)>,
) -> Seq<(Seq<char>, Seq<char>)>
    decreases created.len(),
{
    if created.len() == 0 {
        acc
    } else {
        spec_updated_created_ids(
            created.drop_first(),
            spec_insert_created_id(acc, created[0].0, created[0].1),
        )
    }
}

impl ImportEmailResponse {
    /// Register every created item's server-assigned id under its creation
    /// id in the session-level index, so that later requests in the same
    /// session can reference these ids too.  This is a deliberate side
    /// effect on shared session state; insertions into that state must be
    /// serialized by the caller.
    pub fn update_created_ids(&self, response: &mut Response)
        requires
            old(response).created_ids.wf(),
        ensures
            final(response).created_ids.wf(),
            final(response).created_ids@ == spec_updated_created_ids(
                self.created@,
                old(response).created_ids@,
            ),
    {
        let n = self.created.len();
        let mut i: usize = 0;
        proof {
            assert(self.created@.skip(0) =~= self.created@);
        }
        while i < n
            invariant
                0 <= i <= n,
                n == self.created@.len(),
                response.created_ids.wf(),
                spec_updated_created_ids(self.created@, old(response).created_ids@)
                    == spec_updated_created_ids(
                    self.created@.skip(i as int),
                    response.created_ids@,
                ),
            decreases n - i,
        {
            let ghost pre = self.created@.skip(i as int);
            proof {
                assert(pre[0] == self.created@[i as int]);
                assert(pre.drop_first() =~= self.created@.skip(i as int + 1));
            }
            let key = self.created.key_at(i);
            let obj = self.created.value_at(i);
            match obj.get(&"id".to_owned()) {
                Some(v) => {
                    match v {
                        Value::Str(s) => {
                            response.created_ids.set(key.clone(), s.clone());
                        },
                        _ => {},
                    }
                },
                None => {},
            }
            i = i + 1;
        }
        proof {
            assert(self.created@.skip(n as int) =~= Seq::<
                (Seq<char>, Seq<(Seq<char>, ValueView)>),
            >::empty());
        }
    }
}

} // verus!
