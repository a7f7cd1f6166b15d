//! Reading the raw predicate payload: each predicate names one property of
//! one collection as `collection/property`, and the companion list of
//! built-in predicate ids tells user schema apart from system schema.

use vstd::prelude::*;

use crate::json::{
    json_view, json_view_seq, lemma_json_view_seq_index, lemma_json_view_seq_len, spec_field,
    JsonValue, SpecJson,
};
use crate::names::{find_char, find_char_from};
use crate::schema::wf_predicate_fields;

verus! {

/// Why a predicate record or the schema payload was rejected; each of
/// these ends the run.
#[derive(Debug, PartialEq, Eq, Structural, Clone, Copy)]
pub enum SchemaError {
    /// A predicate record has no integer `_id`.
    MissingId,
    /// A predicate record has no `name` string.
    MissingName,
    /// A predicate name has no `collection/property` shape.
    MalformedName,
    /// A predicate record has no `type` string.
    MissingType,
    /// A metadata field carries a value of the wrong type.
    MalformedField,
    /// The schema payload lacks the predicate lists.
    MalformedPayload,
}

/// The numeric id of a predicate record.
pub open spec fn pred_id(item: SpecJson) -> Option<int> {
    match spec_field(item, "_id"@) {
        Option::Some(SpecJson::Int(n)) => Option::Some(n),
        _ => Option::None,
    }
}

/// The raw name of a predicate record.
pub open spec fn pred_name(item: SpecJson) -> Option<Seq<char>> {
    match spec_field(item, "name"@) {
        Option::Some(SpecJson::Str(s)) => Option::Some(s),
        _ => Option::None,
    }
}

/// The raw type tag of a predicate record.
pub open spec fn pred_type(item: SpecJson) -> Option<Seq<char>> {
    match spec_field(item, "type"@) {
        Option::Some(SpecJson::Str(t)) => Option::Some(t),
        _ => Option::None,
    }
}

/// Whether a raw name has the `collection/property` shape.
pub open spec fn name_has_slash(s: Seq<char>) -> bool {
    find_char(s, '/') < s.len()
}

/// The collection part of a raw name: everything before the first slash.
pub open spec fn raw_class_of(s: Seq<char>) -> Seq<char> {
    s.take(find_char(s, '/'))
}

/// The property part of a raw name: between the first slash and the next.
pub open spec fn raw_property_of(s: Seq<char>) -> Seq<char> {
    let rest = s.skip(find_char(s, '/') + 1);
    rest.take(find_char(rest, '/'))
}

/// Whether a record carries id and a splittable name.
pub open spec fn pred_parses(item: SpecJson) -> bool {
    &&& pred_id(item) is Some
    &&& pred_name(item) is Some
    &&& name_has_slash(pred_name(item).unwrap())
}

/// A predicate record the canonicalizer accepts: id, splittable name,
/// type tag, and well-typed metadata fields.
pub open spec fn predicate_ok(item: SpecJson) -> bool {
    &&& pred_parses(item)
    &&& pred_type(item) is Some
    &&& wf_predicate_fields(item)
}

/// The error a malformed predicate record is rejected with.
pub open spec fn predicate_error(item: SpecJson) -> SchemaError {
    if pred_id(item) is None {
        SchemaError::MissingId
    } else if pred_name(item) is None {
        SchemaError::MissingName
    } else if !name_has_slash(pred_name(item).unwrap()) {
        SchemaError::MalformedName
    } else if pred_type(item) is None {
        SchemaError::MissingType
    } else {
        SchemaError::MalformedField
    }
}

/// Splits a predicate's raw name into its collection and property parts.
pub fn parse_for_class_and_property_name(item: &JsonValue) -> (r: Result<
    (String, String),
    SchemaError,
>)
    ensures
        r is Ok <==> pred_parses(item@),
        match r {
            Result::Ok((c, p)) => {
                &&& c@ == raw_class_of(pred_name(item@).unwrap())
                &&& p@ == raw_property_of(pred_name(item@).unwrap())
            },
            Result::Err(e) => e == predicate_error(item@),
        },
{
    let id_ok = match item.get_field("_id") {
        Option::Some(v) => match v.as_i64() {
            Option::Some(_) => true,
            Option::None => false,
        },
        Option::None => false,
    };
    if !id_ok {
        return Result::Err(SchemaError::MissingId);
    }
    let name = match item.get_field("name") {
        Option::Some(v) => match v.as_str() {
            Option::Some(s) => s,
            Option::None => {
                return Result::Err(SchemaError::MissingName);
            },
        },
        Option::None => {
            return Result::Err(SchemaError::MissingName);
        },
    };
    let s = name.as_str();
    let len = s.unicode_len();
    let slash = find_char_from(s, '/', 0, len);
    proof {
        assert(s@.skip(0) =~= s@);
    }
    if slash == len {
        return Result::Err(SchemaError::MalformedName);
    }
    let class_part = s.substring_char(0, slash);
    let second = find_char_from(s, '/', slash + 1, len);
    let property_part = s.substring_char(slash + 1, second);
    proof {
        assert(class_part@ =~= raw_class_of(s@));
        let rest = s@.skip(slash + 1);
        assert(property_part@ =~= rest.take(find_char(rest, '/')));
    }
    Result::Ok((class_part.to_owned(), property_part.to_owned()))
}

/// Checks a predicate record against everything canonicalization needs.
pub fn validate_predicate(item: &JsonValue) -> (r: Result<(), SchemaError>)
    ensures
        r is Ok <==> predicate_ok(item@),
        r matches Result::Err(e) ==> e == predicate_error(item@),
{
    match parse_for_class_and_property_name(item) {
        Result::Ok(_) => {},
        Result::Err(e) => {
            return Result::Err(e);
        },
    }
    let type_ok = match item.get_field("type") {
        Option::Some(v) => match v.as_str() {
            Option::Some(_) => true,
            Option::None => false,
        },
        Option::None => false,
    };
    if !type_ok {
        return Result::Err(SchemaError::MissingType);
    }
    let multi_ok = match item.get_field("multi") {
        Option::Some(v) => match v {
            JsonValue::Null => true,
            JsonValue::Bool(_) => true,
            _ => false,
        },
        Option::None => true,
    };
    let doc_ok = match item.get_field("doc") {
        Option::Some(v) => match v {
            JsonValue::Str(_) => true,
            _ => false,
        },
        Option::None => true,
    };
    let restrict_ok = match item.get_field("restrictCollection") {
        Option::Some(v) => match v {
            JsonValue::Str(_) => true,
            _ => false,
        },
        Option::None => true,
    };
    if multi_ok && doc_ok && restrict_ok {
        Result::Ok(())
    } else {
        Result::Err(SchemaError::MalformedField)
    }
}

/// Whether every element of an array of ids is an integer.
pub open spec fn all_ints(a: Seq<SpecJson>) -> bool {
    forall|i: int| 0 <= i < a.len() ==> a[i] is Int
}

/// The integers of an id array.
pub open spec fn int_values(a: Seq<SpecJson>) -> Seq<int> {
    a.map_values(|v: SpecJson| v->Int_0)
}

/// Whether the schema payload carries both predicate lists in shape: the
/// current predicates each with an integer `_id`, and the initial
/// (built-in) predicate ids as integers.
pub open spec fn payload_ok(j: SpecJson) -> bool {
    &&& spec_field(j, "current_predicates"@) matches Option::Some(SpecJson::Arr(cur))
        && (forall|i: int| 0 <= i < cur.len() ==> pred_id(#[trigger] cur[i]) is Some)
    &&& spec_field(j, "initial_predicates"@) matches Option::Some(SpecJson::Arr(init)) && all_ints(
        init,
    )
}

/// The current predicates of a payload.
pub open spec fn payload_current(j: SpecJson) -> Seq<SpecJson> {
    spec_field(j, "current_predicates"@).unwrap()->Arr_0
}

/// The built-in predicate ids of a payload.
pub open spec fn payload_initial_ids(j: SpecJson) -> Seq<int> {
    int_values(spec_field(j, "initial_predicates"@).unwrap()->Arr_0)
}

/// Whether a predicate is user-defined under a payload's built-in ids.
pub open spec fn keep_user(j: SpecJson) -> spec_fn(SpecJson) -> bool {
    |it: SpecJson| !payload_initial_ids(j).contains(pred_id(it).unwrap())
}

/// The user-defined predicates: current ones whose id is not built-in.
pub open spec fn user_predicates(j: SpecJson) -> Seq<SpecJson> {
    payload_current(j).filter(keep_user(j))
}

/// Whether a slice of ids contains the given one.
fn contains_i64(v: &Vec<i64>, x: i64) -> (r: bool)
    ensures
        r == v@.map_values(|y: i64| y as int).contains(x as int),
{
    let n = v.len();
    let mut i: usize = 0;
    while i < n
        invariant
            n == v@.len(),
            i <= n,
            forall|j: int| 0 <= j < i ==> v@[j] != x,
        decreases n - i,
    {
        if v[i] == x {
            proof {
                assert(v@.map_values(|y: i64| y as int)[i as int] == x as int);
            }
            return true;
        }
        i = i + 1;
    }
    proof {
        let m = v@.map_values(|y: i64| y as int);
        if m.contains(x as int) {
            let j = choose|j: int| 0 <= j < m.len() && m[j] == x as int;
            assert(v@[j] == x);
        }
    }
    false
}

/// Keeps the user-defined predicates of a schema payload: every current
/// predicate whose id is not among the built-in initial predicates.
#[verifier::loop_isolation(false)]
pub fn parse_current_predicates(json: &JsonValue) -> (r: Result<Vec<JsonValue>, SchemaError>)
    ensures
        r is Ok <==> payload_ok(json@),
        r matches Result::Ok(v) ==> json_view_seq(v@) == user_predicates(json@),
        r matches Result::Err(e) ==> e == SchemaError::MalformedPayload || e
            == SchemaError::MissingId,
{
    let cur_field = json.get_field("current_predicates");
    let current = match cur_field {
        Option::Some(JsonValue::Arr(items)) => items,
        _ => {
            return Result::Err(SchemaError::MalformedPayload);
        },
    };
    let init_field = json.get_field("initial_predicates");
    let initial = match init_field {
        Option::Some(JsonValue::Arr(items)) => items,
        _ => {
            return Result::Err(SchemaError::MalformedPayload);
        },
    };

    let ghost cur_view = json_view_seq(current@);
    let ghost init_view = json_view_seq(initial@);
    proof {
        lemma_json_view_seq_len(current@);
        lemma_json_view_seq_len(initial@);
        assert(spec_field(json@, "current_predicates"@) == Option::Some(
            SpecJson::Arr(cur_view),
        ));
        assert(spec_field(json@, "initial_predicates"@) == Option::Some(
            SpecJson::Arr(init_view),
        ));
    }

    let mut initial_ids: Vec<i64> = Vec::new();
    let n_init = initial.len();
    let mut i: usize = 0;
    while i < n_init
        invariant
            i <= n_init,
            forall|j: int| 0 <= j < i ==> init_view[j] is Int,
            initial_ids@.len() == i,
            forall|j: int|
                0 <= j < i ==> initial_ids@[j] as int == #[trigger] init_view[j]->Int_0,
        decreases n_init - i,
    {
        proof {
            lemma_json_view_seq_index(initial@, i as int);
        }
        match initial[i].as_i64() {
            Option::Some(x) => {
                initial_ids.push(x);
            },
            Option::None => {
                proof {
                    assert(!all_ints(init_view));
                }
                return Result::Err(SchemaError::MalformedPayload);
            },
        }
        i = i + 1;
    }
    proof {
        assert(all_ints(init_view));
        assert(initial_ids@.map_values(|y: i64| y as int) =~= int_values(init_view));
    }

    let mut out: Vec<JsonValue> = Vec::new();
    let n_cur = current.len();
    let ghost keep = keep_user(json@);
    proof {
        assert(payload_initial_ids(json@) == int_values(init_view));
        assert(cur_view.take(0) =~= Seq::<SpecJson>::empty());
        assert(Seq::<SpecJson>::empty().filter(keep) =~= Seq::<SpecJson>::empty());
    }
    let mut k: usize = 0;
    while k < n_cur
        invariant
            k <= n_cur,
            forall|j: int| 0 <= j < k ==> pred_id(#[trigger] cur_view[j]) is Some,
            json_view_seq(out@) == cur_view.take(k as int).filter(keep),
        decreases n_cur - k,
    {
        proof {
            lemma_json_view_seq_index(current@, k as int);
        }
        let item = &current[k];
        let id = match item.get_field("_id") {
            Option::Some(v) => match v.as_i64() {
                Option::Some(x) => x,
                Option::None => {
                    return Result::Err(SchemaError::MissingId);
                },
            },
            Option::None => {
                return Result::Err(SchemaError::MissingId);
            },
        };
        proof {
            reveal_with_fuel(Seq::filter, 2);
            assert(cur_view.take(k + 1).drop_last() =~= cur_view.take(k as int));
            assert(cur_view.take(k + 1).last() == cur_view[k as int]);
            assert(pred_id(cur_view[k as int]) == Option::Some(id as int));
        }
        let ghost prev_out = out@;
        let ghost old_out_view = json_view_seq(out@);
        if !contains_i64(&initial_ids, id) {
            out.push(item.clone());
            proof {
                assert(out@.drop_last() =~= prev_out);
                lemma_json_view_seq_snoc(out@, old_out_view);
            }
        }
        proof {
            assert(json_view_seq(out@) == cur_view.take(k + 1).filter(keep));
        }
        k = k + 1;
    }
    proof {
        assert(cur_view.take(n_cur as int) =~= cur_view);
        assert(payload_ok(json@));
        assert(user_predicates(json@) == cur_view.filter(keep));
    }
    Result::Ok(out)
}

/// Pushing one value extends the array model by its view.
proof fn lemma_json_view_seq_snoc(items: Seq<JsonValue>, prefix: Seq<SpecJson>)
    requires
        items.len() > 0,
        prefix == json_view_seq(items.drop_last()),
    ensures
        json_view_seq(items) == prefix.push(json_view(items.last())),
{
    broadcast use lemma_json_view_seq_len, lemma_json_view_seq_index;

    assert(json_view_seq(items) =~= prefix.push(json_view(items.last()))) by {
        assert forall|j: int| 0 <= j < items.len() - 1 implies json_view_seq(items)[j]
            == prefix[j] by {
            assert(items.drop_last()[j] == items[j]);
        }
        assert(json_view_seq(items)[items.len() - 1] == json_view(items[items.len() - 1]));
    }
}

} // verus!
