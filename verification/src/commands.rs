//! The command dispatcher.
//!
//! `form_response` resolves one request into one response: it executes the
//! command, recursing through batches item by item in order, stamps the
//! outcome with the request's identifier, and folds the processing time of
//! every command — except batch nodes themselves, whose time is their
//! items' — into the metrics store.
//!
//! Arithmetic on IEEE-754 doubles does not happen here: the caller
//! evaluates each calculator instance of the request (`calc_keys` lists
//! them) and hands the results in as a `CalcTable`. The dispatcher decides
//! division by zero itself, from the operands, and otherwise answers with
//! the table's result for the instance.

use vstd::prelude::*;

use crate::clock;
use crate::codec::{response_to_json, spec_response_jval};
use crate::json::{
    lemma_spec_fields_seq, lemma_spec_json_seq, num_is_zero, spec_fields_seq, spec_json_of,
    spec_json_seq, spec_num_is_zero, JsonNumber, JsonValue, SpecJson,
};
use crate::metrics::{spec_stats, Metrics};
use crate::types::{
    lemma_spec_request_seq, spec_error_response, spec_kind, spec_ok_response, spec_request_seq,
    spec_response_wf, Command, CommandKind, ErrorResponse, OkResponse, Operation, Request,
    Response, SpecCommand, SpecRequest, SpecResponse, Status,
};

verus! {

/// One calculator instance: an operation and its two operands, as they
/// stood in the request.
#[derive(Clone, Copy, PartialEq, Eq, Structural, Debug)]
pub struct CalcKey {
    /// The operation to perform.
    pub operation: Operation,
    /// The left operand.
    pub a: JsonNumber,
    /// The right operand.
    pub b: JsonNumber,
}

/// Whether a calculator instance fails: a division whose right operand,
/// read as a double, is zero.
pub open spec fn spec_divides_by_zero(key: CalcKey) -> bool {
    key.operation == Operation::Divide && spec_num_is_zero(key.b)
}

/// The results of evaluating calculator instances: for each instance the
/// bit pattern of the IEEE-754 double its operation yields. The caller
/// fills the table (the evaluation happens outside the core) and the
/// dispatcher reads it.
pub struct CalcTable {
    entries: Vec<(CalcKey, u64)>,
}

/// The mapping a table's entry list denotes; an earlier entry wins over a
/// later one with the same key.
pub open spec fn spec_table_map(s: Seq<(CalcKey, u64)>) -> Map<CalcKey, u64>
    decreases s.len(),
{
    if s.len() == 0 {
        Map::empty()
    } else {
        spec_table_map(s.subrange(1, s.len() as int)).insert(s[0].0, s[0].1)
    }
}

impl View for CalcTable {
    type V = Map<CalcKey, u64>;

    closed spec fn view(&self) -> Map<CalcKey, u64> {
        spec_table_map(self.entries@)
    }
}

proof fn lemma_table_map_miss(s: Seq<(CalcKey, u64)>, key: CalcKey)
    requires
        forall|j: int| 0 <= j < s.len() ==> (#[trigger] s[j]).0 != key,
    ensures
        !spec_table_map(s).contains_key(key),
    decreases s.len(),
{
    if s.len() > 0 {
        lemma_table_map_miss(s.subrange(1, s.len() as int), key);
    }
}

proof fn lemma_table_map_hit(s: Seq<(CalcKey, u64)>, i: int, key: CalcKey)
    requires
        0 <= i < s.len(),
        s[i].0 == key,
        forall|j: int| 0 <= j < i ==> (#[trigger] s[j]).0 != key,
    ensures
        spec_table_map(s).contains_key(key),
        spec_table_map(s)[key] == s[i].1,
    decreases s.len(),
{
    if i > 0 {
        lemma_table_map_hit(s.subrange(1, s.len() as int), i - 1, key);
    }
}

impl CalcTable {
    /// An empty table.
    pub fn new() -> (r: CalcTable)
        ensures
            r@ == Map::<CalcKey, u64>::empty(),
    {
        CalcTable { entries: Vec::new() }
    }

    /// Adds the result of one calculator instance; a new entry for a key
    /// replaces an older one.
    pub fn insert(&mut self, key: CalcKey, result_bits: u64)
        ensures
            final(self)@ == old(self)@.insert(key, result_bits),
    {
        self.entries.insert(0, (key, result_bits));
        proof {
            assert(self.entries@.subrange(1, self.entries@.len() as int) =~= old(self).entries@);
        }
    }

    /// Looks one calculator instance up.
    pub fn get(&self, key: CalcKey) -> (r: Option<u64>)
        ensures
            r == if self@.contains_key(key) {
                Some(self@[key])
            } else {
                None::<u64>
            },
    {
        let mut i: usize = 0;
        while i < self.entries.len()
            invariant
                i <= self.entries.len(),
                forall|j: int| 0 <= j < i as int ==> (#[trigger] self.entries@[j]).0 != key,
            decreases self.entries.len() - i,
        {
            let e = self.entries[i];
            if e.0 == key {
                proof {
                    lemma_table_map_hit(self.entries@, i as int, key);
                }
                return Some(e.1);
            }
            i = i + 1;
        }
        proof {
            lemma_table_map_miss(self.entries@, key);
        }
        None
    }
}

/// How many timed commands of kind `k` one dispatch of `r` completes:
/// every node of the request tree counts for its kind, except batch nodes
/// themselves, which only pass their items on.
pub open spec fn spec_count_kind(r: SpecRequest, k: CommandKind) -> nat
    decreases r, 1int,
{
    match r.command {
        SpecCommand::Batch(items) => {
            proof {
                assert(decreases_to!(r => r.command));
                assert(decreases_to!(r.command => items));
            }
            spec_count_kind_seq(items, k)
        },
        _ => if spec_kind(r.command) == k {
            1nat
        } else {
            0nat
        },
    }
}

/// The timed commands of kind `k` that dispatching each of `items`
/// completes, added up.
pub open spec fn spec_count_kind_seq(items: Seq<SpecRequest>, k: CommandKind) -> nat
    decreases items, 0int,
{
    if items.len() == 0 {
        0nat
    } else {
        spec_count_kind(items[0], k) + spec_count_kind_seq(items.subrange(1, items.len() as int), k)
    }
}

/// The timed commands counted by a batch's items, by the dispatch of whose
/// request they are completed.
pub open spec fn spec_inner_count(r: SpecRequest, k: CommandKind) -> nat {
    match r.command {
        SpecCommand::Batch(items) => spec_count_kind_seq(items, k),
        _ => 0nat,
    }
}

proof fn lemma_count_kind_seq_push(items: Seq<SpecRequest>, x: SpecRequest, k: CommandKind)
    ensures
        spec_count_kind_seq(items.push(x), k) == spec_count_kind_seq(items, k) + spec_count_kind(
            x,
            k,
        ),
    decreases items.len(),
{
    let p = items.push(x);
    if items.len() == 0 {
        assert(p.subrange(1, p.len() as int) =~= Seq::<SpecRequest>::empty());
        assert(spec_count_kind_seq(p.subrange(1, p.len() as int), k) == 0);
        assert(p[0] == x);
    } else {
        let tail = items.subrange(1, items.len() as int);
        assert(p.subrange(1, p.len() as int) =~= tail.push(x));
        lemma_count_kind_seq_push(tail, x, k);
        assert(p[0] == items[0]);
        assert(spec_count_kind_seq(p, k) == spec_count_kind(p[0], k) + spec_count_kind_seq(
            p.subrange(1, p.len() as int),
            k,
        ));
        assert(spec_count_kind_seq(items, k) == spec_count_kind(items[0], k)
            + spec_count_kind_seq(tail, k));
    }
}

/// Whether `table` holds a result for every calculator instance of the
/// request tree that does not fail with division by zero.
pub open spec fn spec_calcs_covered(r: SpecRequest, table: Map<CalcKey, u64>) -> bool
    decreases r,
{
    match r.command {
        SpecCommand::Calculate { operation, a, b } => {
            let key = CalcKey { operation, a, b };
            spec_divides_by_zero(key) || table.contains_key(key)
        },
        SpecCommand::Batch(items) => forall|i: int|
            0 <= i < items.len() ==> spec_calcs_covered(#[trigger] items[i], table),
        _ => true,
    }
}

proof fn lemma_covered_item(r: SpecRequest, table: Map<CalcKey, u64>, j: int)
    requires
        spec_calcs_covered(r, table),
        r.command is Batch,
        0 <= j < r.command->Batch_0.len(),
    ensures
        spec_calcs_covered(r.command->Batch_0[j], table),
{
}

/// The result document of the time command: `{"time": t}`.
pub open spec fn spec_time_payload(t: Seq<char>) -> SpecJson {
    SpecJson::Obj(seq![("time"@, SpecJson::Str(t))])
}

/// The result document of the calculator command: `{"result": r}` with the
/// bit pattern of the double the operation yields.
pub open spec fn spec_calc_payload(result_bits: u64) -> SpecJson {
    SpecJson::Obj(seq![("result"@, SpecJson::Num(JsonNumber::Float(result_bits)))])
}

/// A successful command outcome.
pub open spec fn spec_outcome_ok(v: SpecJson) -> Result<SpecJson, Seq<char>> {
    Result::Ok(v)
}

/// A failed command outcome.
pub open spec fn spec_outcome_err(m: Seq<char>) -> Result<SpecJson, Seq<char>> {
    Result::Err(m)
}

/// The response that stamps a command outcome with the request identifier:
/// a success keeps the result document, a failure keeps the message and
/// the identifier is always propagated.
pub open spec fn spec_attach(id: u128, out: Result<SpecJson, Seq<char>>) -> SpecResponse {
    match out {
        Result::Ok(v) => spec_ok_response(id, v),
        Result::Err(m) => spec_error_response(id, m),
    }
}

/// The wire documents of a sequence of responses, in order.
pub open spec fn spec_rendered(subs: Seq<SpecResponse>) -> Seq<SpecJson> {
    subs.map_values(|s: SpecResponse| spec_response_jval(s))
}

/// Each of `items` dispatches to the matching response of `subs`, in
/// order (`lemma_batch_entries_iff` gives the pointwise reading).
pub open spec fn spec_batch_entries(
    items: Seq<SpecRequest>,
    table: Map<CalcKey, u64>,
    subs: Seq<SpecResponse>,
) -> bool
    decreases items, 1int,
{
    &&& subs.len() == items.len()
    &&& (items.len() > 0 ==> {
        &&& (match subs[0] {
            SpecResponse::Success(ok) => {
                &&& ok.request_id == items[0].request_id
                &&& ok.status == Status::Success
                &&& spec_command_rel(items[0], table, spec_outcome_ok(ok.response))
            },
            SpecResponse::Error(e) => {
                &&& e.request_id == Some(items[0].request_id)
                &&& e.status == Status::Error
                &&& spec_command_rel(items[0], table, spec_outcome_err(e.error))
            },
        })
        &&& spec_batch_entries(
            items.subrange(1, items.len() as int),
            table,
            subs.subrange(1, subs.len() as int),
        )
    })
}

/// The outcome of executing one command, given the calculator results
/// `table`: exact for every command but time, whose text is whatever the
/// wall clock read; a batch succeeds with one rendered response per item,
/// in order, an item's failure standing as an error entry at its position.
pub open spec fn spec_command_rel(
    req: SpecRequest,
    table: Map<CalcKey, u64>,
    out: Result<SpecJson, Seq<char>>,
) -> bool
    decreases req, 0int,
{
    match req.command {
        SpecCommand::Ping => out == spec_outcome_ok(SpecJson::Str("pong"@)),
        SpecCommand::Echo(v) => out == spec_outcome_ok(v),
        SpecCommand::Time => exists|t: Seq<char>| out == spec_outcome_ok(spec_time_payload(t)),
        SpecCommand::Calculate { operation, a, b } => {
            let key = CalcKey { operation, a, b };
            if spec_divides_by_zero(key) {
                out == spec_outcome_err("division by zero"@)
            } else {
                out == spec_outcome_ok(spec_calc_payload(table[key]))
            }
        },
        SpecCommand::Batch(items) => exists|subs: Seq<SpecResponse>|
            #![trigger spec_rendered(subs)]
            spec_batch_entries(items, table, subs) && out == spec_outcome_ok(
                SpecJson::Arr(spec_rendered(subs)),
            ),
    }
}

proof fn lemma_batch_rel_intro(
    req: SpecRequest,
    table: Map<CalcKey, u64>,
    subs: Seq<SpecResponse>,
    out: Result<SpecJson, Seq<char>>,
)
    requires
        req.command is Batch,
        spec_batch_entries(req.command->Batch_0, table, subs),
        out == spec_outcome_ok(SpecJson::Arr(spec_rendered(subs))),
    ensures
        spec_command_rel(req, table, out),
{
}

/// What the dispatcher answers to `req`, given the calculator results
/// `table`: the outcome of the command, stamped with the request's
/// identifier.
pub open spec fn spec_dispatch_rel(
    req: SpecRequest,
    table: Map<CalcKey, u64>,
    resp: SpecResponse,
) -> bool {
    match resp {
        SpecResponse::Success(ok) => {
            &&& ok.request_id == req.request_id
            &&& ok.status == Status::Success
            &&& spec_command_rel(req, table, spec_outcome_ok(ok.response))
        },
        SpecResponse::Error(e) => {
            &&& e.request_id == Some(req.request_id)
            &&& e.status == Status::Error
            &&& spec_command_rel(req, table, spec_outcome_err(e.error))
        },
    }
}

/// A batch's entries are, pointwise, the dispatches of its items.
pub proof fn lemma_batch_entries_iff(
    items: Seq<SpecRequest>,
    table: Map<CalcKey, u64>,
    subs: Seq<SpecResponse>,
)
    ensures
        spec_batch_entries(items, table, subs) <==> (subs.len() == items.len() && forall|i: int|
            0 <= i < items.len() ==> spec_dispatch_rel(#[trigger] items[i], table, subs[i])),
    decreases items.len(),
{
    if items.len() > 0 && subs.len() == items.len() {
        let itail = items.subrange(1, items.len() as int);
        let stail = subs.subrange(1, subs.len() as int);
        lemma_batch_entries_iff(itail, table, stail);
        assert forall|i: int|
            0 <= i < items.len() && (subs.len() == itail.len() + 1) && (forall|j: int|
                0 <= j < itail.len() ==> spec_dispatch_rel(#[trigger] itail[j], table, stail[j]))
                && spec_dispatch_rel(items[0], table, subs[0]) implies spec_dispatch_rel(
            #[trigger] items[i],
            table,
            subs[i],
        ) by {
            if i > 0 {
                assert(itail[i - 1] == items[i]);
                assert(stail[i - 1] == subs[i]);
            }
        }
        assert forall|j: int|
            0 <= j < itail.len() && (forall|i: int|
                0 <= i < items.len() ==> spec_dispatch_rel(
                    #[trigger] items[i],
                    table,
                    subs[i],
                )) implies spec_dispatch_rel(#[trigger] itail[j], table, stail[j]) by {
            assert(items[j + 1] == itail[j]);
            assert(subs[j + 1] == stail[j]);
        }
    }
}

/// Executes one calculator command: fails with "division by zero" exactly
/// on a division whose right operand, read as a double, is zero, and
/// otherwise answers `{"result": r}` with the caller-evaluated result for
/// the instance.
fn process_command_calculate(
    operation: Operation,
    a: JsonNumber,
    b: JsonNumber,
    calcs: &CalcTable,
) -> (r: Result<JsonValue, String>)
    requires
        spec_divides_by_zero((CalcKey { operation, a, b })) || calcs@.contains_key(
            (CalcKey { operation, a, b }),
        ),
    ensures
        ({
            let key = CalcKey { operation, a, b };
            match r {
                Result::Ok(v) => !spec_divides_by_zero(key) && v@ == spec_calc_payload(
                    calcs@[key],
                ),
                Result::Err(e) => spec_divides_by_zero(key) && e@ == "division by zero"@,
            }
        }),
{
    let key = CalcKey { operation, a, b };
    if operation == Operation::Divide && num_is_zero(b) {
        Result::Err("division by zero".to_owned())
    } else {
        match calcs.get(key) {
            Some(bits) => {
                let mut fields: Vec<(String, JsonValue)> = Vec::new();
                fields.push(("result".to_owned(), JsonValue::Num(JsonNumber::Float(bits))));
                proof {
                    lemma_spec_fields_seq(fields@);
                    assert(spec_fields_seq(fields@) =~= seq![
                        ("result"@, SpecJson::Num(JsonNumber::Float(bits))),
                    ]);
                }
                Result::Ok(JsonValue::Obj(fields))
            },
            None => unreached(),
        }
    }
}

/// Executes one command against the calculator results `calcs`, folding
/// the processing time of every batch item (but of no batch node) into
/// `metrics`: the outcome promised by `spec_command_rel`.
fn process_command(request: &Request, metrics: &mut Metrics, calcs: &CalcTable) -> (r: Result<
    JsonValue,
    String,
>)
    requires
        old(metrics).wf(),
        spec_calcs_covered(request@, calcs@),
        forall|k: CommandKind|
            #[trigger] spec_stats(*old(metrics), k).count + spec_inner_count(request@, k)
                <= u64::MAX,
    ensures
        final(metrics).wf(),
        forall|k: CommandKind|
            #[trigger] spec_stats(*final(metrics), k).count == spec_stats(*old(metrics), k).count
                + spec_inner_count(request@, k),
        forall|k: CommandKind|
            spec_inner_count(request@, k) == 0 ==> #[trigger] spec_stats(*final(metrics), k)
                == spec_stats(*old(metrics), k),
        spec_command_rel(
            request@,
            calcs@,
            match r {
                Result::Ok(v) => spec_outcome_ok(v@),
                Result::Err(e) => spec_outcome_err(e@),
            },
        ),
    decreases request, 0int,
{
    match &request.command {
        Command::Ping => {
            let v = JsonValue::Str("pong".to_owned());
            proof {
                assert(spec_command_rel(request@, calcs@, spec_outcome_ok(v@)));
            }
            Result::Ok(v)
        },
        Command::Echo(payload) => {
            let v = payload.duplicate();
            proof {
                assert(spec_command_rel(request@, calcs@, spec_outcome_ok(v@)));
            }
            Result::Ok(v)
        },
        Command::Time => {
            let t = clock::utc_now_rfc3339_secs();
            let ghost tv = t@;
            let mut fields: Vec<(String, JsonValue)> = Vec::new();
            fields.push(("time".to_owned(), JsonValue::Str(t)));
            proof {
                lemma_spec_fields_seq(fields@);
                assert(spec_fields_seq(fields@) =~= seq![("time"@, SpecJson::Str(tv))]);
                assert(spec_time_payload(tv) == SpecJson::Obj(seq![("time"@, SpecJson::Str(tv))]));
                assert(spec_json_of(JsonValue::Obj(fields)) == spec_time_payload(tv));
                assert(spec_command_rel(
                    request@,
                    calcs@,
                    spec_outcome_ok(spec_json_of(JsonValue::Obj(fields))),
                ));
            }
            Result::Ok(JsonValue::Obj(fields))
        },
        Command::Calculate { operation, a, b } => {
            let r = process_command_calculate(*operation, *a, *b, calcs);
            proof {
                assert(spec_command_rel(
                    request@,
                    calcs@,
                    match r {
                        Result::Ok(ref v) => spec_outcome_ok(v@),
                        Result::Err(ref e) => spec_outcome_err(e@),
                    },
                ));
            }
            r
        },
        Command::Batch(items) => {
            let ghost sitems = spec_request_seq(items@);
            proof {
                lemma_spec_request_seq(items@);
                assert(request@.command == SpecCommand::Batch(sitems));
            }
            proof {
                assert(sitems.subrange(0, sitems.len() as int) =~= sitems);
                assert(sitems.subrange(0, 0) =~= Seq::<SpecRequest>::empty());
            }
            let mut outs: Vec<JsonValue> = Vec::new();
            let ghost mut subs: Seq<SpecResponse> = Seq::empty();
            let mut i: usize = 0;
            while i < items.len()
                invariant
                    i <= items.len(),
                    request.command is Batch,
                    request.command->Batch_0 == *items,
                    sitems == spec_request_seq(items@),
                    sitems.len() == items@.len(),
                    request@.command == SpecCommand::Batch(sitems),
                    forall|j: int| 0 <= j < items@.len() ==> sitems[j] == #[trigger] items@[j]@,
                    spec_calcs_covered(request@, calcs@),
                    metrics.wf(),
                    outs@.len() == i as int,
                    subs.len() == i as int,
                    forall|j: int|
                        0 <= j < i as int ==> spec_dispatch_rel(
                            sitems[j],
                            calcs@,
                            #[trigger] subs[j],
                        ),
                    forall|j: int|
                        0 <= j < i as int ==> #[trigger] outs@[j]@ == spec_response_jval(subs[j]),
                    forall|k: CommandKind|
                        #[trigger] spec_stats(*metrics, k).count == spec_stats(
                            *old(metrics),
                            k,
                        ).count + spec_count_kind_seq(sitems.subrange(0, i as int), k),
                    forall|k: CommandKind|
                        spec_count_kind_seq(sitems.subrange(0, i as int), k) == 0
                            ==> #[trigger] spec_stats(*metrics, k) == spec_stats(*old(metrics), k),
                    forall|k: CommandKind|
                        #[trigger] spec_stats(*metrics, k).count + spec_count_kind_seq(
                            sitems.subrange(i as int, sitems.len() as int),
                            k,
                        ) <= u64::MAX,
                decreases items.len() - i,
            {
                let ghost rem = sitems.subrange(i as int, sitems.len() as int);
                proof {
                    assert(decreases_to!(*request => request.command));
                    assert(decreases_to!(request.command => request.command->Batch_0));
                    assert(decreases_to!(*items => items@));
                    assert(decreases_to!(items@ => items@[i as int]));
                    assert(rem[0] == sitems[i as int]);
                    assert(rem.subrange(1, rem.len() as int) =~= sitems.subrange(
                        i as int + 1,
                        sitems.len() as int,
                    ));
                    lemma_covered_item(request@, calcs@, i as int);
                    assert(spec_calcs_covered(sitems[i as int], calcs@));
                    assert(items@[i as int]@ == sitems[i as int]);
                    assert forall|k: CommandKind|
                        #[trigger] spec_stats(*metrics, k).count + spec_count_kind(
                            items@[i as int]@,
                            k,
                        ) <= u64::MAX by {
                        assert(spec_count_kind_seq(rem, k) == spec_count_kind(sitems[i as int], k)
                            + spec_count_kind_seq(rem.subrange(1, rem.len() as int), k));
                    }
                }
                let ghost before = *metrics;
                let sub = form_response(&items[i], metrics, calcs);
                let rendered = response_to_json(&sub);
                outs.push(rendered);
                proof {
                    subs = subs.push(sub@);
                    assert(sitems.subrange(0, i as int + 1) =~= sitems.subrange(
                        0,
                        i as int,
                    ).push(sitems[i as int]));
                    assert forall|k: CommandKind|
                        #[trigger] spec_stats(*metrics, k).count == spec_stats(
                            *old(metrics),
                            k,
                        ).count + spec_count_kind_seq(sitems.subrange(0, i as int + 1), k) by {
                        lemma_count_kind_seq_push(
                            sitems.subrange(0, i as int),
                            sitems[i as int],
                            k,
                        );
                    }
                    assert forall|k: CommandKind|
                        spec_count_kind_seq(sitems.subrange(0, i as int + 1), k) == 0 implies
                        #[trigger] spec_stats(*metrics, k) == spec_stats(*old(metrics), k) by {
                        lemma_count_kind_seq_push(
                            sitems.subrange(0, i as int),
                            sitems[i as int],
                            k,
                        );
                        assert(spec_count_kind_seq(sitems.subrange(0, i as int), k) == 0);
                        assert(spec_count_kind(sitems[i as int], k) == 0);
                        assert(spec_stats(before, k) == spec_stats(*old(metrics), k));
                    }
                    assert forall|k: CommandKind|
                        #[trigger] spec_stats(*metrics, k).count + spec_count_kind_seq(
                            sitems.subrange(i as int + 1, sitems.len() as int),
                            k,
                        ) <= u64::MAX by {
                        assert(spec_count_kind_seq(rem, k) == spec_count_kind(sitems[i as int], k)
                            + spec_count_kind_seq(rem.subrange(1, rem.len() as int), k));
                        assert(rem.subrange(1, rem.len() as int) =~= sitems.subrange(
                            i as int + 1,
                            sitems.len() as int,
                        ));
                    }
                }
                i = i + 1;
            }
            proof {
                assert(sitems.subrange(0, sitems.len() as int) =~= sitems);
                assert(sitems.subrange(sitems.len() as int, sitems.len() as int)
                    =~= Seq::<SpecRequest>::empty());
                assert(spec_inner_count(request@, CommandKind::Ping) == spec_count_kind_seq(
                    sitems,
                    CommandKind::Ping,
                ));
                lemma_spec_json_seq(outs@);
                lemma_batch_entries_iff(sitems, calcs@, subs);
                assert(spec_batch_entries(sitems, calcs@, subs));
                assert forall|j: int| 0 <= j < outs@.len() implies spec_json_of(outs@[j])
                    == spec_response_jval(subs[j]) by {
                    assert(outs@[j]@ == spec_response_jval(subs[j]));
                }
                assert forall|j: int| 0 <= j < subs.len() implies spec_rendered(subs)[j]
                    == spec_response_jval(subs[j]) by {
                }
                assert(spec_json_seq(outs@) =~= spec_rendered(subs));
                assert(request@.command->Batch_0 == sitems);
                assert(spec_batch_entries(request@.command->Batch_0, calcs@, subs));
                assert(spec_outcome_ok(SpecJson::Arr(spec_json_seq(outs@))) == spec_outcome_ok(
                    SpecJson::Arr(spec_rendered(subs)),
                ));
                lemma_batch_rel_intro(
                    request@,
                    calcs@,
                    subs,
                    spec_outcome_ok(SpecJson::Arr(spec_json_seq(outs@))),
                );
                assert(spec_command_rel(
                    request@,
                    calcs@,
                    spec_outcome_ok(SpecJson::Arr(spec_json_seq(outs@))),
                ));
            }
            Result::Ok(JsonValue::Arr(outs))
        },
    }
}

/// Resolves one request into one response: executes the command, stamps
/// the outcome with the request's identifier — an error never loses it —
/// and, for every command but a batch node itself, measures the processing
/// time and folds it into `metrics` before returning.
pub fn form_response(request: &Request, metrics: &mut Metrics, calcs: &CalcTable) -> (resp:
    Response)
    requires
        old(metrics).wf(),
        spec_calcs_covered(request@, calcs@),
        forall|k: CommandKind|
            #[trigger] spec_stats(*old(metrics), k).count + spec_count_kind(request@, k)
                <= u64::MAX,
    ensures
        spec_dispatch_rel(request@, calcs@, resp@),
        spec_response_wf(resp@),
        final(metrics).wf(),
        forall|k: CommandKind|
            #[trigger] spec_stats(*final(metrics), k).count == spec_stats(*old(metrics), k).count
                + spec_count_kind(request@, k),
        forall|k: CommandKind|
            spec_count_kind(request@, k) == 0 ==> #[trigger] spec_stats(*final(metrics), k)
                == spec_stats(*old(metrics), k),
    decreases request, 1int,
{
    let timed = match &request.command {
        Command::Batch(_) => false,
        _ => true,
    };
    let start: Option<std::time::Instant> = if timed {
        Some(clock::instant_now())
    } else {
        None
    };
    let uuid = request.request_id;
    let command_kind = request.command.kind();
    proof {
        assert forall|k: CommandKind|
            #[trigger] spec_stats(*old(metrics), k).count + spec_inner_count(request@, k)
                <= u64::MAX by {
            assert(spec_inner_count(request@, k) <= spec_count_kind(request@, k));
        }
    }
    let result = process_command(request, metrics, calcs);
    let ghost outv = match result {
        Result::Ok(ref v) => spec_outcome_ok(v@),
        Result::Err(ref e) => spec_outcome_err(e@),
    };
    let ghost mid = *metrics;
    let resp = match result {
        Result::Ok(v) => Response::Success(
            OkResponse { request_id: uuid, status: Status::Success, response: v },
        ),
        Result::Err(e) => Response::Error(
            ErrorResponse { request_id: Some(uuid), status: Status::Error, error: e },
        ),
    };
    if timed {
        match &start {
            Some(s) => {
                let duration_us = clock::elapsed_micros(s);
                proof {
                    assert(spec_count_kind(request@, command_kind) == 1);
                    assert(spec_stats(mid, command_kind).count < u64::MAX);
                }
                metrics.update(command_kind, duration_us);
                proof {
                    assert forall|k: CommandKind|
                        #[trigger] spec_stats(*metrics, k).count == spec_stats(
                            *old(metrics),
                            k,
                        ).count + spec_count_kind(request@, k) by {
                        if k != command_kind {
                            assert(spec_count_kind(request@, k) == 0);
                        }
                    }
                }
            },
            None => {},
        }
    }
    proof {
        assert(spec_command_rel(request@, calcs@, outv));
        assert(resp@ == spec_attach(request@.request_id, outv));
    }
    resp
}

/// The calculator instances of a request tree, in dispatch order.
pub open spec fn spec_calc_keys(r: SpecRequest) -> Seq<CalcKey>
    decreases r, 1int,
{
    match r.command {
        SpecCommand::Calculate { operation, a, b } => seq![CalcKey { operation, a, b }],
        SpecCommand::Batch(items) => {
            proof {
                assert(decreases_to!(r => r.command));
                assert(decreases_to!(r.command => items));
            }
            spec_calc_keys_seq(items)
        },
        _ => Seq::empty(),
    }
}

/// The calculator instances of a sequence of requests, in order.
pub open spec fn spec_calc_keys_seq(items: Seq<SpecRequest>) -> Seq<CalcKey>
    decreases items, 0int,
{
    if items.len() == 0 {
        Seq::empty()
    } else {
        spec_calc_keys(items[0]) + spec_calc_keys_seq(items.subrange(1, items.len() as int))
    }
}

proof fn lemma_calc_keys_seq_push(items: Seq<SpecRequest>, x: SpecRequest)
    ensures
        spec_calc_keys_seq(items.push(x)) == spec_calc_keys_seq(items) + spec_calc_keys(x),
    decreases items.len(),
{
    let p = items.push(x);
    if items.len() == 0 {
        assert(p.subrange(1, p.len() as int) =~= Seq::<SpecRequest>::empty());
        assert(spec_calc_keys_seq(p.subrange(1, p.len() as int)) =~= Seq::empty());
        assert(p[0] == x);
        assert(spec_calc_keys_seq(p) =~= spec_calc_keys_seq(items) + spec_calc_keys(x));
    } else {
        let tail = items.subrange(1, items.len() as int);
        assert(p.subrange(1, p.len() as int) =~= tail.push(x));
        lemma_calc_keys_seq_push(tail, x);
        assert(p[0] == items[0]);
        assert(spec_calc_keys_seq(p) == spec_calc_keys(p[0]) + spec_calc_keys_seq(p.subrange(
            1,
            p.len() as int,
        )));
        assert(spec_calc_keys_seq(items) == spec_calc_keys(items[0]) + spec_calc_keys_seq(tail));
        assert(spec_calc_keys_seq(items) + spec_calc_keys(x) =~= spec_calc_keys(items[0]) + (
        spec_calc_keys_seq(tail) + spec_calc_keys(x)));
    }
}

/// Lists the calculator instances of a request tree, in dispatch order:
/// what a caller evaluates to fill a `CalcTable` for `form_response`.
pub fn calc_keys(request: &Request) -> (r: Vec<CalcKey>)
    ensures
        r@ == spec_calc_keys(request@),
    decreases request,
{
    match &request.command {
        Command::Calculate { operation, a, b } => {
            let mut out: Vec<CalcKey> = Vec::new();
            out.push(CalcKey { operation: *operation, a: *a, b: *b });
            proof {
                assert(out@ =~= spec_calc_keys(request@));
            }
            out
        },
        Command::Batch(items) => {
            let ghost sitems = spec_request_seq(items@);
            proof {
                lemma_spec_request_seq(items@);
                assert(request@.command == SpecCommand::Batch(sitems));
                assert(sitems.subrange(0, 0) =~= Seq::<SpecRequest>::empty());
            }
            let mut out: Vec<CalcKey> = Vec::new();
            let mut i: usize = 0;
            while i < items.len()
                invariant
                    i <= items.len(),
                    request.command is Batch,
                    request.command->Batch_0 == *items,
                    sitems == spec_request_seq(items@),
                    sitems.len() == items@.len(),
                    forall|j: int| 0 <= j < items@.len() ==> sitems[j] == #[trigger] items@[j]@,
                    out@ == spec_calc_keys_seq(sitems.subrange(0, i as int)),
                decreases items.len() - i,
            {
                proof {
                    assert(decreases_to!(*request => request.command));
                    assert(decreases_to!(request.command => request.command->Batch_0));
                    assert(decreases_to!(*items => items@));
                    assert(decreases_to!(items@ => items@[i as int]));
                }
                let mut sub = calc_keys(&items[i]);
                proof {
                    lemma_calc_keys_seq_push(sitems.subrange(0, i as int), sitems[i as int]);
                    assert(sitems.subrange(0, i as int + 1) =~= sitems.subrange(0, i as int).push(
                        sitems[i as int],
                    ));
                }
                out.append(&mut sub);
                i = i + 1;
            }
            proof {
                assert(sitems.subrange(0, sitems.len() as int) =~= sitems);
            }
            out
        },
        _ => {
            let out: Vec<CalcKey> = Vec::new();
            proof {
                assert(out@ =~= spec_calc_keys(request@));
            }
            out
        },
    }
}

/// A table that holds a result for every listed calculator instance that
/// does not divide by zero covers the whole request tree: filling a
/// `CalcTable` from `calc_keys` meets `form_response`'s condition.
pub proof fn lemma_keys_cover(r: SpecRequest, table: Map<CalcKey, u64>)
    requires
        forall|i: int|
            0 <= i < spec_calc_keys(r).len() ==> spec_divides_by_zero(
                #[trigger] spec_calc_keys(r)[i],
            ) || table.contains_key(spec_calc_keys(r)[i]),
    ensures
        spec_calcs_covered(r, table),
    decreases r, 1int,
{
    match r.command {
        SpecCommand::Calculate { operation, a, b } => {
            assert(spec_calc_keys(r)[0] == (CalcKey { operation, a, b }));
        },
        SpecCommand::Batch(items) => {
            lemma_keys_cover_seq(items, table);
            assert forall|i: int| 0 <= i < items.len() implies spec_calcs_covered(
                #[trigger] items[i],
                table,
            ) by {
            }
        },
        _ => {},
    }
}

proof fn lemma_keys_cover_seq(items: Seq<SpecRequest>, table: Map<CalcKey, u64>)
    requires
        forall|i: int|
            0 <= i < spec_calc_keys_seq(items).len() ==> spec_divides_by_zero(
                #[trigger] spec_calc_keys_seq(items)[i],
            ) || table.contains_key(spec_calc_keys_seq(items)[i]),
    ensures
        forall|j: int| 0 <= j < items.len() ==> spec_calcs_covered(#[trigger] items[j], table),
    decreases items, 0int,
{
    if items.len() > 0 {
        let head = spec_calc_keys(items[0]);
        let tail = items.subrange(1, items.len() as int);
        assert(spec_calc_keys_seq(items) == head + spec_calc_keys_seq(tail));
        assert forall|i: int|
            0 <= i < head.len() implies spec_divides_by_zero(#[trigger] head[i])
            || table.contains_key(head[i]) by {
            assert(spec_calc_keys_seq(items)[i] == head[i]);
        }
        lemma_keys_cover(items[0], table);
        assert forall|i: int|
            0 <= i < spec_calc_keys_seq(tail).len() implies spec_divides_by_zero(
            #[trigger] spec_calc_keys_seq(tail)[i],
        ) || table.contains_key(spec_calc_keys_seq(tail)[i]) by {
            assert(spec_calc_keys_seq(items)[head.len() + i] == spec_calc_keys_seq(tail)[i]);
        }
        lemma_keys_cover_seq(tail, table);
        assert forall|j: int| 0 <= j < items.len() implies spec_calcs_covered(
            #[trigger] items[j],
            table,
        ) by {
            if j > 0 {
                assert(tail[j - 1] == items[j]);
            }
        }
    }
}

} // verus!
