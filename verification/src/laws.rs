//! Laws of the dispatcher, stated and proved against the dispatch relation
//! that `form_response` ensures.

use vstd::prelude::*;

use crate::commands::{
    lemma_batch_entries_iff, spec_batch_entries, spec_dispatch_rel, spec_divides_by_zero,
    spec_outcome_ok, spec_rendered, CalcKey,
};
use crate::codec::spec_response_jval;
use crate::json::SpecJson;
use crate::types::{spec_error_response, spec_ok_response, SpecRequest, SpecResponse};

verus! {

/// A ping is answered with exactly the string "pong", whatever the
/// request identifier, which the response echoes.
pub proof fn lemma_dispatch_ping(req: SpecRequest, table: Map<CalcKey, u64>, resp: SpecResponse)
    requires
        req.command is Ping,
        spec_dispatch_rel(req, table, resp),
    ensures
        resp == spec_ok_response(req.request_id, SpecJson::Str("pong"@)),
{
}

/// An echo is answered with exactly its payload, unmodified, whatever the
/// request identifier, which the response echoes.
pub proof fn lemma_dispatch_echo(req: SpecRequest, table: Map<CalcKey, u64>, resp: SpecResponse)
    requires
        req.command is Echo,
        spec_dispatch_rel(req, table, resp),
    ensures
        resp == spec_ok_response(req.request_id, req.command->Echo_0),
{
}

/// A division by zero is answered with an error that carries the request's
/// identifier and a non-empty message.
pub proof fn lemma_dispatch_divide_by_zero(
    req: SpecRequest,
    table: Map<CalcKey, u64>,
    resp: SpecResponse,
)
    requires
        req.command is Calculate,
        spec_divides_by_zero(
            (CalcKey { operation: req.command->operation, a: req.command->a, b: req.command->b }),
        ),
        spec_dispatch_rel(req, table, resp),
    ensures
        resp == spec_error_response(req.request_id, "division by zero"@),
        resp->Error_0.request_id == Some(req.request_id),
        resp->Error_0.error.len() > 0,
{
    reveal_strlit("division by zero");
}

/// Dispatching the same ping, echo or calculator request twice gives the
/// identical response; only the time command (and a batch, which may hold
/// one) can answer differently from call to call.
pub proof fn lemma_dispatch_deterministic(
    req: SpecRequest,
    table: Map<CalcKey, u64>,
    r1: SpecResponse,
    r2: SpecResponse,
)
    requires
        req.command is Ping || req.command is Echo || req.command is Calculate,
        spec_dispatch_rel(req, table, r1),
        spec_dispatch_rel(req, table, r2),
    ensures
        r1 == r2,
{
}

/// Division by zero is the only command-level failure: every other
/// structurally valid request is answered with a success.
pub proof fn lemma_dispatch_error_only_on_divide_by_zero(
    req: SpecRequest,
    table: Map<CalcKey, u64>,
    resp: SpecResponse,
)
    requires
        spec_dispatch_rel(req, table, resp),
        resp is Error,
    ensures
        req.command is Calculate,
        spec_divides_by_zero(
            (CalcKey { operation: req.command->operation, a: req.command->a, b: req.command->b }),
        ),
        resp->Error_0.error == "division by zero"@,
{
}

/// A batch never fails as a whole: it is answered with an array of exactly
/// one rendered response per item, in the items' order, each answering its
/// item's dispatch.
pub proof fn lemma_dispatch_batch(req: SpecRequest, table: Map<CalcKey, u64>, resp: SpecResponse)
    requires
        req.command is Batch,
        spec_dispatch_rel(req, table, resp),
    ensures
        resp is Success,
        resp->Success_0.request_id == req.request_id,
        resp->Success_0.response is Arr,
        resp->Success_0.response->Arr_0.len() == req.command->Batch_0.len(),
        exists|subs: Seq<SpecResponse>|
            #![trigger spec_rendered(subs)]
            {
                &&& subs.len() == req.command->Batch_0.len()
                &&& (forall|i: int|
                    0 <= i < subs.len() ==> spec_dispatch_rel(
                        req.command->Batch_0[i],
                        table,
                        #[trigger] subs[i],
                    ))
                &&& resp->Success_0.response->Arr_0 == spec_rendered(subs)
            },
{
    let items = req.command->Batch_0;
    let ok = resp->Success_0;
    let out = spec_outcome_ok(ok.response);
    let subs = choose|subs: Seq<SpecResponse>|
        #![trigger spec_rendered(subs)]
        spec_batch_entries(items, table, subs) && out == spec_outcome_ok(
            SpecJson::Arr(spec_rendered(subs)),
        );
    lemma_batch_entries_iff(items, table, subs);
}

/// A batch nested inside a batch stands in its parent's output as one
/// successful entry of its own, holding its own array with one entry per
/// inner item: the output flattens only one level.
pub proof fn lemma_dispatch_nested_batch(
    req: SpecRequest,
    table: Map<CalcKey, u64>,
    resp: SpecResponse,
    i: int,
)
    requires
        req.command is Batch,
        spec_dispatch_rel(req, table, resp),
        0 <= i < req.command->Batch_0.len(),
        req.command->Batch_0[i].command is Batch,
    ensures
        exists|sub: SpecResponse|
            {
                &&& #[trigger] spec_dispatch_rel(req.command->Batch_0[i], table, sub)
                &&& sub is Success
                &&& sub->Success_0.response is Arr
                &&& sub->Success_0.response->Arr_0.len()
                    == req.command->Batch_0[i].command->Batch_0.len()
                &&& resp->Success_0.response->Arr_0[i] == spec_response_jval(sub)
            },
{
    let items = req.command->Batch_0;
    let ok = resp->Success_0;
    let out = spec_outcome_ok(ok.response);
    let subs = choose|subs: Seq<SpecResponse>|
        #![trigger spec_rendered(subs)]
        spec_batch_entries(items, table, subs) && out == spec_outcome_ok(
            SpecJson::Arr(spec_rendered(subs)),
        );
    lemma_batch_entries_iff(items, table, subs);
    let sub = subs[i];
    assert(spec_dispatch_rel(items[i], table, sub));
    assert(spec_rendered(subs)[i] == spec_response_jval(sub));
    let inner = items[i].command->Batch_0;
    let sout = spec_outcome_ok(sub->Success_0.response);
    let isubs = choose|isubs: Seq<SpecResponse>|
        #![trigger spec_rendered(isubs)]
        spec_batch_entries(inner, table, isubs) && sout == spec_outcome_ok(
            SpecJson::Arr(spec_rendered(isubs)),
        );
    lemma_batch_entries_iff(inner, table, isubs);
}

} // verus!
