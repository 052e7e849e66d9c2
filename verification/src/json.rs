//! Step records: a step written as a JSON object and read back from one.

use vstd::prelude::*;
use crate::database::CustomError;
use crate::validation::{valid_graph, validation_fault};
use crate::workflow::{graph_of, inferred_graph, link_steps, NodeView, WorkflowNode};
use crate::workflow_steps::{get_variant_by_id, spec_variant_by_id, WFSVariant};

verus! {

/// `serde_json::Map`, the type of a JSON object. Nothing is known of a
/// value of it but what `json_fields` names.
#[verifier::external_type_specification]
#[verifier::external_body]
#[verifier::reject_recursive_types(K)]
#[verifier::reject_recursive_types(V)]
pub struct ExJsonMap<K, V>(serde_json::Map<K, V>);

/// `serde_json::Value`, the type of any JSON value. It only occurs as
/// what a JSON object holds.
#[verifier::external_type_specification]
#[verifier::external_body]
pub struct ExJsonValue(serde_json::Value);

/// A JSON object.
pub type JsonObject = serde_json::Map<String, serde_json::Value>;

/// What a field of a record holds, as far as step records go.
pub enum JsonField {
    /// A number that reads as an unsigned 32-bit integer.
    Number(u32),
    /// A string.
    Text(Seq<char>),
    /// Anything else.
    Other,
}

/// The fields of a JSON object: its keys and, for each key, what the
/// value under it holds. A value holds `Number(n)` if `from_value` reads
/// it as the `u32` `n`, `Text(s)` if it is the string `s`, else `Other`.
pub uninterp spec fn json_fields(record: serde_json::Map<String, serde_json::Value>) -> Map<
    Seq<char>,
    JsonField,
>;

/// `serde_json::Map::new`: an object without fields.
#[verifier::external_body]
fn new_record() -> (record: JsonObject)
    ensures
        forall|key: Seq<char>| !json_fields(record).contains_key(key),
{
    serde_json::Map::new()
}

/// `serde_json::Map::insert` with a number made by `Value::from`: the
/// field `key` then holds that number, whatever it held before; the other
/// fields stay as they are.
#[verifier::external_body]
fn put_number(record: &mut JsonObject, key: &str, value: u32)
    ensures
        json_fields(*final(record)) == json_fields(*old(record)).insert(
            key@,
            JsonField::Number(value),
        ),
{
    record.insert(key.to_string(), serde_json::Value::from(value));
}

/// `serde_json::Map::insert` with a `Value::String`: the field `key` then
/// holds that string, whatever it held before; the other fields stay as
/// they are.
#[verifier::external_body]
fn put_text(record: &mut JsonObject, key: &str, value: String)
    ensures
        json_fields(*final(record)) == json_fields(*old(record)).insert(
            key@,
            JsonField::Text(value@),
        ),
{
    record.insert(key.to_string(), serde_json::Value::String(value));
}

/// `serde_json::Map::remove`, the value then read by `from_value` as a
/// `u32`: the field `key` leaves the object, and its number is returned if
/// it was there and held one.
#[verifier::external_body]
fn take_number(record: &mut JsonObject, key: &str) -> (number: Option<u32>)
    ensures
        json_fields(*final(record)) == json_fields(*old(record)).remove(key@),
        number == held_number(json_fields(*old(record)), key@),
{
    match record.remove(key) {
        Some(value) => serde_json::from_value::<u32>(value).ok(),
        None => None,
    }
}

/// `serde_json::Map::is_empty`: does the object have no field?
#[verifier::external_body]
fn record_is_empty(record: &JsonObject) -> (empty: bool)
    ensures
        empty == (forall|key: Seq<char>| !json_fields(*record).contains_key(key)),
{
    record.is_empty()
}

/// The number that the field `key` holds, if there is such a field and it
/// holds one.
pub open spec fn held_number(fields: Map<Seq<char>, JsonField>, key: Seq<char>) -> Option<u32> {
    if fields.contains_key(key) {
        match fields[key] {
            JsonField::Number(n) => Some(n),
            _ => None,
        }
    } else {
        None
    }
}

/// The record of a step: the id, title, setup time and time per page of
/// its kind and, for a rasterization step, its number of cores.
pub open spec fn spec_serialize(step: WFSVariant) -> Map<Seq<char>, JsonField> {
    let shared = Map::<Seq<char>, JsonField>::empty().insert(
        "id"@,
        JsonField::Number(step.spec_id()),
    ).insert("title"@, JsonField::Text(step.spec_title())).insert(
        "setup_time"@,
        JsonField::Number(step.spec_setup_time()),
    ).insert("time_per_page"@, JsonField::Number(step.spec_time_per_page()));
    match step {
        WFSVariant::Rasterization { num_cores } => shared.insert(
            "num_cores"@,
            JsonField::Number(num_cores),
        ),
        _ => shared,
    }
}

/// The record by which a client asks for a step: the id of its kind and,
/// for a rasterization step, its number of cores.
pub open spec fn spec_request(step: WFSVariant) -> Map<Seq<char>, JsonField> {
    let shared = Map::<Seq<char>, JsonField>::empty().insert(
        "id"@,
        JsonField::Number(step.spec_id()),
    );
    match step {
        WFSVariant::Rasterization { num_cores } => shared.insert(
            "num_cores"@,
            JsonField::Number(num_cores),
        ),
        _ => shared,
    }
}

/// What a record holds beyond the id and the description of the kind:
/// the record without `id`, `title`, `setup_time` and `time_per_page`.
pub open spec fn beyond_description(fields: Map<Seq<char>, JsonField>) -> Map<
    Seq<char>,
    JsonField,
> {
    fields.remove("id"@).remove("title"@).remove("setup_time"@).remove("time_per_page"@)
}

/// The step that a record stands for. The record must hold the id of a
/// kind under `id` and, for a rasterization step, its number of cores
/// under `num_cores`. It may hold the description of the kind under
/// `title`, `setup_time` and `time_per_page`, which the id stands for
/// already. Any other field is unknown and makes the record invalid, as
/// does `num_cores` with a step of another kind.
pub open spec fn spec_deserialize(fields: Map<Seq<char>, JsonField>) -> Result<
    WFSVariant,
    CustomError,
> {
    let rest = beyond_description(fields);
    match held_number(fields, "id"@) {
        None => Err(CustomError::InvalidStep),
        Some(id) => match spec_variant_by_id(id) {
            None => Err(CustomError::InvalidStep),
            Some(WFSVariant::Rasterization { .. }) => match held_number(rest, "num_cores"@) {
                None => Err(CustomError::InvalidStep),
                Some(num_cores) => if rest.remove("num_cores"@) =~= Map::<
                    Seq<char>,
                    JsonField,
                >::empty() {
                    Ok(WFSVariant::Rasterization { num_cores })
                } else {
                    Err(CustomError::InvalidStep)
                },
            },
            Some(step) => if rest =~= Map::<Seq<char>, JsonField>::empty() {
                Ok(step)
            } else {
                Err(CustomError::InvalidStep)
            },
        },
    }
}

impl WFSVariant {
    /// Writes the step as a record.
    pub fn serialize(&self) -> (record: JsonObject)
        ensures
            json_fields(record) == spec_serialize(*self),
    {
        let mut state = new_record();
        put_number(&mut state, "id", self.id());
        put_text(&mut state, "title", self.title());
        put_number(&mut state, "setup_time", self.setup_time());
        put_number(&mut state, "time_per_page", self.time_per_page());
        match self {
            WFSVariant::Rasterization { num_cores } => {
                put_number(&mut state, "num_cores", *num_cores);
            },
            _ => {},
        }
        state
    }

    /// Reads the step that a record stands for: what `serialize` wrote,
    /// or the id and parameter alone.
    pub fn deserialize(fields: JsonObject) -> (r: Result<WFSVariant, CustomError>)
        ensures
            r == spec_deserialize(json_fields(fields)),
    {
        let mut fields = fields;
        let id = match take_number(&mut fields, "id") {
            Some(id) => id,
            None => {
                return Err(CustomError::InvalidStep);
            },
        };
        let mut output = match get_variant_by_id(id) {
            Ok(step) => step,
            Err(_) => {
                return Err(CustomError::InvalidStep);
            },
        };
        let _ = take_number(&mut fields, "title");
        let _ = take_number(&mut fields, "setup_time");
        let _ = take_number(&mut fields, "time_per_page");
        match output {
            WFSVariant::Rasterization { .. } => {
                match take_number(&mut fields, "num_cores") {
                    Some(num_cores) => {
                        output = WFSVariant::Rasterization { num_cores };
                    },
                    None => {
                        return Err(CustomError::InvalidStep);
                    },
                }
            },
            _ => {},
        }
        if !record_is_empty(&fields) {
            return Err(CustomError::InvalidStep);
        }
        Ok(output)
    }
}

/// The five keys of a step record differ from each other.
proof fn lemma_keys_differ()
    ensures
        "id"@ != "title"@,
        "id"@ != "setup_time"@,
        "id"@ != "time_per_page"@,
        "id"@ != "num_cores"@,
        "title"@ != "setup_time"@,
        "title"@ != "time_per_page"@,
        "title"@ != "num_cores"@,
        "setup_time"@ != "time_per_page"@,
        "setup_time"@ != "num_cores"@,
        "time_per_page"@ != "num_cores"@,
{
    reveal_strlit("id");
    reveal_strlit("title");
    reveal_strlit("setup_time");
    reveal_strlit("time_per_page");
    reveal_strlit("num_cores");
    assert("id"@.len() == 2 && "title"@.len() == 5 && "setup_time"@.len() == 10
        && "time_per_page"@.len() == 13 && "num_cores"@.len() == 9);
}

/// A written step reads back: reading the record of a step gives that
/// step, with the same number of cores for a rasterization step.
pub proof fn lemma_serialize_round_trip(step: WFSVariant)
    ensures
        spec_deserialize(spec_serialize(step)) == Ok::<WFSVariant, CustomError>(step),
{
    lemma_keys_differ();
    let rest = beyond_description(spec_serialize(step));
    match step {
        WFSVariant::Rasterization { num_cores } => {
            assert(rest.remove("num_cores"@) =~= Map::<Seq<char>, JsonField>::empty());
        },
        _ => {
            assert(rest =~= Map::<Seq<char>, JsonField>::empty());
        },
    }
}

/// Reading the record by which a client asks for a step, which holds the
/// id and the parameter alone, gives that step.
pub proof fn lemma_request_round_trip(step: WFSVariant)
    ensures
        spec_deserialize(spec_request(step)) == Ok::<WFSVariant, CustomError>(step),
{
    lemma_keys_differ();
    let rest = beyond_description(spec_request(step));
    match step {
        WFSVariant::Rasterization { num_cores } => {
            assert(rest.remove("num_cores"@) =~= Map::<Seq<char>, JsonField>::empty());
        },
        _ => {
            assert(rest =~= Map::<Seq<char>, JsonField>::empty());
        },
    }
}

/// What each of the objects holds, in their order.
pub open spec fn records_of(objects: Seq<JsonObject>) -> Seq<Map<Seq<char>, JsonField>> {
    Seq::new(objects.len(), |i: int| json_fields(objects[i]))
}

/// The steps that the records ask for, or the error of the first record
/// that asks for none.
pub open spec fn deserialized_steps(records: Seq<Map<Seq<char>, JsonField>>) -> Result<
    Seq<WFSVariant>,
    CustomError,
>
    decreases records.len(),
{
    if records.len() == 0 {
        Ok(Seq::empty())
    } else {
        match deserialized_steps(records.drop_last()) {
            Err(e) => Err(e),
            Ok(steps) => match spec_deserialize(records.last()) {
                Ok(step) => Ok(steps.push(step)),
                Err(e) => Err(e),
            },
        }
    }
}

/// Once a prefix of the records fails, the whole list fails alike.
proof fn lemma_deserialized_steps_fail(records: Seq<Map<Seq<char>, JsonField>>, k: int)
    requires
        0 <= k <= records.len(),
        deserialized_steps(records.subrange(0, k)) is Err,
    ensures
        deserialized_steps(records) == deserialized_steps(records.subrange(0, k)),
    decreases records.len() - k,
{
    if k < records.len() {
        assert(records.subrange(0, k + 1).drop_last() == records.subrange(0, k));
        lemma_deserialized_steps_fail(records, k + 1);
    } else {
        assert(records.subrange(0, k) == records);
    }
}

/// What reading the steps of a workflow from their records yields: the
/// inferred graph of the steps that the records stand for, if every
/// record stands for a step and the graph is valid; else the error of
/// the first record that stands for none, or else the fault of the
/// graph.
pub open spec fn read_outcome(records: Seq<Map<Seq<char>, JsonField>>) -> Result<
    Seq<NodeView>,
    CustomError,
> {
    match deserialized_steps(records) {
        Err(e) => Err(e),
        Ok(steps) => match validation_fault(inferred_graph(steps)) {
            Some(fault) => Err(CustomError::InvalidWorkflow(fault)),
            None => Ok(inferred_graph(steps)),
        },
    }
}

/// Reads the steps of a workflow from their records, links them by the
/// adjacency rules of the catalog and validates the graph. Fails with
/// the error of the first record that stands for no step, or with the
/// fault of the graph.
pub fn deserialize_steps(json_vector: Vec<JsonObject>) -> (r: Result<
    Vec<WorkflowNode>,
    CustomError,
>)
    ensures
        match read_outcome(records_of(json_vector@)) {
            Ok(graph) => r is Ok && graph_of(r->Ok_0@) == graph,
            Err(e) => r is Err && r->Err_0 == e,
        },
        r is Ok ==> valid_graph(graph_of(r->Ok_0@)),
{
    let ghost records = records_of(json_vector@);
    let mut steps: Vec<WFSVariant> = Vec::new();
    for object in it: json_vector
        invariant
            records == records_of(it.seq()),
            steps@.len() == it.index(),
            deserialized_steps(records.subrange(0, it.index() as int)) == Ok::<
                Seq<WFSVariant>,
                CustomError,
            >(steps@),
    {
        let ghost k = steps@.len() as int;
        assert(records.subrange(0, k + 1).drop_last() == records.subrange(0, k));
        assert(records.subrange(0, k + 1).last() == json_fields(object));
        match WFSVariant::deserialize(object) {
            Ok(step) => {
                steps.push(step);
            },
            Err(e) => {
                proof {
                    lemma_deserialized_steps_fail(records, k + 1);
                }
                return Err(e);
            },
        }
    }
    assert(records.subrange(0, records.len() as int) == records);
    match link_steps(&steps) {
        Ok(nodes) => Ok(nodes),
        Err(fault) => Err(CustomError::InvalidWorkflow(fault)),
    }
}

/// The records that the steps of a graph are written as, in node order.
pub open spec fn written_steps(graph: Seq<NodeView>) -> Seq<Map<Seq<char>, JsonField>> {
    Seq::new(graph.len(), |i: int| spec_serialize(graph[i].data))
}

/// The written steps read back as the steps that they were written from.
proof fn lemma_written_steps_read_back(steps: Seq<WFSVariant>, m: int)
    requires
        0 <= m <= steps.len(),
    ensures
        deserialized_steps(Seq::new(m as nat, |i: int| spec_serialize(steps[i]))) == Ok::<
            Seq<WFSVariant>,
            CustomError,
        >(steps.subrange(0, m)),
    decreases m,
{
    let records = Seq::new(m as nat, |i: int| spec_serialize(steps[i]));
    if m > 0 {
        lemma_written_steps_read_back(steps, m - 1);
        lemma_serialize_round_trip(steps[m - 1]);
        assert(records.drop_last() =~= Seq::new((m - 1) as nat, |i: int| spec_serialize(steps[i])));
        assert(steps.subrange(0, m - 1).push(steps[m - 1]) =~= steps.subrange(0, m));
    } else {
        assert(steps.subrange(0, 0) =~= Seq::<WFSVariant>::empty());
    }
}

/// A written workflow reads back: the records that the steps of a built
/// workflow are written as are read as that very workflow, node for node
/// with the same step and the same `prev` and `next` lists.
pub proof fn lemma_written_workflow_reads_back(steps: Seq<WFSVariant>)
    requires
        validation_fault(inferred_graph(steps)) is None,
    ensures
        read_outcome(written_steps(inferred_graph(steps))) == Ok::<Seq<NodeView>, CustomError>(
            inferred_graph(steps),
        ),
{
    lemma_written_steps_read_back(steps, steps.len() as int);
    assert(written_steps(inferred_graph(steps)) =~= Seq::new(
        steps.len(),
        |i: int| spec_serialize(steps[i]),
    ));
    assert(steps.subrange(0, steps.len() as int) =~= steps);
}

} // verus!
