//! Turning raw spilled records into JSON-LD nodes: keys are renamed to
//! their canonical property identifiers, epoch instants become RFC 3339
//! text, and reference values become `@id` objects.

use vstd::prelude::*;

use crate::display::{dec_rep_signed, i64_to_string};
use crate::json::{
    json_text, json_view, lemma_json_view_entries_index, lemma_json_view_entries_len, obj_get,
    str_eq, to_json_text, JsonValue, SpecJson,
};
use crate::parser::{assoc_get, Parser, ParserModel};
use crate::schema::{ShaclPropertyModel, ShaclShape, ShaclShapeModel};

verus! {

/// Epochs within this window are guaranteed convertible to RFC 3339 text;
/// it lies well inside the calendar range the conversion supports.
pub const INSTANT_MIN: i64 = -8000000000000000;

/// The upper end of the guaranteed conversion window.
pub const INSTANT_MAX: i64 = 8000000000000000;

/// The RFC 3339 millisecond-precision UTC rendering of an epoch
/// millisecond count, as the date-time library produces it.
pub uninterp spec fn rfc3339_millis_of(epoch: int) -> Seq<char>;

/// Relies on chrono's `DateTime::<Utc>::from_timestamp_millis` and
/// `to_rfc3339_opts(SecondsFormat::Millis, true)`: the text is a function
/// of the epoch alone, and the conversion is defined for every epoch
/// whose date lies within the library's calendar range, which covers
/// every epoch in the guaranteed window.
#[verifier::external_body]
fn epoch_millis_to_rfc3339(epoch: i64) -> (r: Option<String>)
    ensures
        r matches Option::Some(s) ==> s@ == rfc3339_millis_of(epoch as int),
        INSTANT_MIN <= epoch <= INSTANT_MAX ==> r is Some,
{
    chrono::DateTime::<chrono::Utc>::from_timestamp_millis(epoch).map(
        |dt| dt.to_rfc3339_opts(chrono::SecondsFormat::Millis, true),
    )
}

/// Converts an epoch millisecond count to RFC 3339 UTC text with
/// millisecond precision, e.g. `1693403567000` to
/// `2023-08-30T13:52:47.000Z`.
pub fn instant_to_iso_string(epoch: i64) -> (r: String)
    requires
        INSTANT_MIN <= epoch <= INSTANT_MAX,
    ensures
        r@ == rfc3339_millis_of(epoch as int),
{
    match epoch_millis_to_rfc3339(epoch) {
        Option::Some(s) => s,
        Option::None => unreached(),
    }
}

/// The conversion for an arbitrary epoch: text for every epoch the
/// date-time library can place in its calendar, nothing otherwise.
pub fn try_instant_to_iso_string(epoch: i64) -> (r: Option<String>)
    ensures
        r matches Option::Some(s) ==> s@ == rfc3339_millis_of(epoch as int),
        INSTANT_MIN <= epoch <= INSTANT_MAX ==> r is Some,
{
    epoch_millis_to_rfc3339(epoch)
}

/// Why a record could not be transformed; each of these ends the run.
#[derive(Debug, PartialEq, Eq, Structural, Clone, Copy)]
pub enum TransformError {
    /// The spill file names a class the registry does not know.
    UnknownClass,
    /// The registry has no shape for the record's class.
    MissingShape,
    /// The record is not a JSON object.
    NotAnObject,
    /// The record has no integer `_id`.
    MissingRecordId,
    /// A date-time property carries something the calendar cannot place.
    BadInstant,
}

/// A value in reference form: an object becomes `{"@id": <id text>}` —
/// the id text is the compact JSON rendering of whatever `_id` holds,
/// `null` when it is absent — plus the referenced class when one is
/// known; arrays are rewritten element-wise; anything else passes
/// through.
pub open spec fn represent_spec(v: SpecJson, ref_type: Option<Seq<char>>) -> SpecJson
    decreases v,
{
    match v {
        SpecJson::Obj(entries) => {
            let id_text = json_text(
                match obj_get(entries, "_id"@) {
                    Option::Some(x) => x,
                    Option::None => SpecJson::Null,
                },
            );
            let base = seq![("@id"@, SpecJson::Str(id_text))];
            SpecJson::Obj(
                match ref_type {
                    Option::Some(t) => base.push(("@type"@, SpecJson::Str(t))),
                    Option::None => base,
                },
            )
        },
        SpecJson::Arr(items) => SpecJson::Arr(represent_seq(items, ref_type)),
        _ => v,
    }
}

/// `represent_spec` over an array's elements.
pub open spec fn represent_seq(items: Seq<SpecJson>, ref_type: Option<Seq<char>>) -> Seq<SpecJson>
    decreases items,
{
    if items.len() == 0 {
        Seq::empty()
    } else {
        seq![represent_spec(items[0], ref_type)] + represent_seq(items.drop_first(), ref_type)
    }
}

proof fn lemma_represent_seq_len(items: Seq<SpecJson>, ref_type: Option<Seq<char>>)
    ensures
        represent_seq(items, ref_type).len() == items.len(),
    decreases items,
{
    if items.len() > 0 {
        lemma_represent_seq_len(items.drop_first(), ref_type);
    }
}

proof fn lemma_represent_seq_index(items: Seq<SpecJson>, ref_type: Option<Seq<char>>, i: int)
    requires
        0 <= i < items.len(),
    ensures
        represent_seq(items, ref_type)[i] == represent_spec(items[i], ref_type),
    decreases items,
{
    lemma_represent_seq_len(items, ref_type);
    if i > 0 {
        lemma_represent_seq_index(items.drop_first(), ref_type, i - 1);
    }
}

/// Rewrites a value into reference form: objects become `{"@id": ...}`
/// (with `@type` when the property restricts to a class), arrays are
/// rewritten element-wise, scalars pass through unchanged.
#[verifier::loop_isolation(false)]
pub fn represent_fluree_value(value: &JsonValue, ref_type: Option<&str>) -> (r: JsonValue)
    ensures
        r@ == represent_spec(
            value@,
            match ref_type {
                Option::Some(t) => Option::Some(t@),
                Option::None => Option::None,
            },
        ),
    decreases value,
{
    let ghost rt = match ref_type {
        Option::Some(t) => Option::Some(t@),
        Option::None => Option::None,
    };
    match value {
        JsonValue::Obj(_) => {
            let id_field = value.get_field("_id");
            let id_text = match id_field {
                Option::Some(inner) => to_json_text(inner),
                Option::None => to_json_text(&JsonValue::Null),
            };
            let mut out: Vec<(String, JsonValue)> = Vec::new();
            out.push(("@id".to_owned(), JsonValue::Str(id_text)));
            match ref_type {
                Option::Some(t) => {
                    out.push(("@type".to_owned(), JsonValue::Str(t.to_owned())));
                },
                Option::None => {},
            }
            let result = JsonValue::Obj(out);
            proof {
                lemma_json_view_entries_len(result->Obj_0@);
                lemma_json_view_entries_index(result->Obj_0@, 0);
                if rt is Some {
                    lemma_json_view_entries_index(result->Obj_0@, 1);
                }
                assert(result@ =~= represent_spec(value@, rt)) by {
                    assert(result@->Obj_0 =~= represent_spec(value@, rt)->Obj_0);
                }
            }
            result
        },
        JsonValue::Arr(items) => {
            let n = items.len();
            let ghost item_views = crate::json::json_view_seq(items@);
            proof {
                crate::json::lemma_json_view_seq_len(items@);
            }
            let mut out: Vec<JsonValue> = Vec::new();
            let mut i: usize = 0;
            while i < n
                invariant
                    i <= n,
                    out@.len() == i,
                    forall|j: int|
                        0 <= j < i ==> json_view(#[trigger] out@[j]) == represent_spec(
                            item_views[j],
                            rt,
                        ),
                decreases n - i,
            {
                proof {
                    crate::json::lemma_json_view_seq_index(items@, i as int);
                    assert(decreases_to!(*value => items@[i as int]));
                }
                out.push(represent_fluree_value(&items[i], ref_type));
                i = i + 1;
            }
            let result = JsonValue::Arr(out);
            proof {
                crate::json::lemma_json_view_seq_len(out@);
                assert forall|j: int| 0 <= j < n implies crate::json::json_view_seq(out@)[j]
                    == represent_seq(item_views, rt)[j] by {
                    crate::json::lemma_json_view_seq_index(out@, j);
                    lemma_represent_seq_index(item_views, rt, j);
                }
                lemma_represent_seq_len(item_views, rt);
                assert(crate::json::json_view_seq(out@) =~= represent_seq(item_views, rt));
            }
            result
        },
        JsonValue::Null => JsonValue::Null,
        JsonValue::Bool(b) => JsonValue::Bool(*b),
        JsonValue::Int(nv) => JsonValue::Int(*nv),
        JsonValue::Decimal(s) => JsonValue::Decimal(s.clone()),
        JsonValue::Str(s) => JsonValue::Str(s.clone()),
    }
}

/// Whether a shape constrains `key` to `xsd:dateTime`.
pub open spec fn has_datetime_constraint(shape: ShaclShapeModel, key: Seq<char>) -> bool {
    exists|i: int|
        0 <= i < shape.property.len() && (#[trigger] shape.property[i]).path == key
            && shape.property[i].datatype == Option::Some("xsd:dateTime"@)
}

/// The class the first `sh:class`-carrying constraint on `key` points at.
pub open spec fn first_class_ref(props: Seq<ShaclPropertyModel>, key: Seq<char>) -> Option<
    Seq<char>,
>
    decreases props,
{
    if props.len() == 0 {
        Option::None
    } else if props[0].path == key && props[0].class is Some {
        props[0].class
    } else {
        first_class_ref(props.drop_first(), key)
    }
}

impl ShaclShape {
    /// Whether any constraint pins `key` to `xsd:dateTime`.
    fn is_datetime_key(&self, key: &str) -> (r: bool)
        ensures
            r == has_datetime_constraint(self@, key@),
    {
        let n = self.property.len();
        let mut i: usize = 0;
        while i < n
            invariant
                n == self.property@.len(),
                i <= n,
                forall|j: int|
                    0 <= j < i ==> !((#[trigger] self@.property[j]).path == key@
                        && self@.property[j].datatype == Option::Some("xsd:dateTime"@)),
            decreases n - i,
        {
            proof {
                assert(self@.property[i as int] == self.property@[i as int]@);
            }
            let p = &self.property[i];
            let dt_matches = match &p.datatype {
                Option::Some(d) => str_eq(d.as_str(), "xsd:dateTime"),
                Option::None => false,
            };
            if dt_matches && str_eq(p.path.as_str(), key) {
                return true;
            }
            i = i + 1;
        }
        false
    }

    /// The class reference the first matching constraint on `key` carries.
    fn class_ref_for<'a>(&'a self, key: &str) -> (r: Option<&'a String>)
        ensures
            opt_ref_view(r) == first_class_ref(self@.property, key@),
    {
        let n = self.property.len();
        let mut i: usize = 0;
        proof {
            assert(self@.property.skip(0) =~= self@.property);
        }
        while i < n
            invariant
                n == self.property@.len(),
                i <= n,
                first_class_ref(self@.property, key@) == first_class_ref(
                    self@.property.skip(i as int),
                    key@,
                ),
            decreases n - i,
        {
            proof {
                assert(self@.property[i as int] == self.property@[i as int]@);
                assert(self@.property.skip(i as int)[0] == self@.property[i as int]);
                assert(self@.property.skip(i as int).drop_first() =~= self@.property.skip(
                    i + 1,
                ));
            }
            let p = &self.property[i];
            if str_eq(p.path.as_str(), key) {
                match &p.class {
                    Option::Some(c) => {
                        return Option::Some(c);
                    },
                    Option::None => {},
                }
            }
            i = i + 1;
        }
        proof {
            assert(self@.property.skip(n as int) =~= Seq::<ShaclPropertyModel>::empty());
        }
        Option::None
    }
}

/// The view behind an optional borrowed string.
pub open spec fn opt_ref_view(r: Option<&String>) -> Option<Seq<char>> {
    match r {
        Option::Some(s) => Option::Some(s@),
        Option::None => Option::None,
    }
}

/// The transformed form of one recognized value: date-time properties
/// become RFC 3339 text, then reference rewriting applies.
pub open spec fn transformed_value(shape: ShaclShapeModel, key: Seq<char>, v: SpecJson) -> SpecJson {
    let v2 = if has_datetime_constraint(shape, key) {
        SpecJson::Str(rfc3339_millis_of(v->Int_0))
    } else {
        v
    };
    represent_spec(v2, first_class_ref(shape.property, key))
}

/// Whether one raw entry can be transformed: a date-time property must
/// carry an epoch in the guaranteed window; everything else always can.
pub open spec fn entry_ok(
    properties: Seq<(Seq<char>, crate::schema::PropertyModel)>,
    shape: ShaclShapeModel,
    key: Seq<char>,
    v: SpecJson,
) -> bool {
    match assoc_get(properties, key) {
        Option::Some(p) => has_datetime_constraint(shape, p.id) ==> (v is Int && INSTANT_MIN
            <= v->Int_0 <= INSTANT_MAX),
        Option::None => true,
    }
}

/// The transformed entries of the first `k` raw entries: recognized keys
/// renamed to their canonical property and their values transformed,
/// unrecognized keys dropped.
pub open spec fn transform_entries_to(
    properties: Seq<(Seq<char>, crate::schema::PropertyModel)>,
    shape: ShaclShapeModel,
    entries: Seq<(Seq<char>, SpecJson)>,
    k: int,
) -> Seq<(Seq<char>, SpecJson)>
    decreases k,
{
    if k <= 0 {
        Seq::empty()
    } else {
        let prev = transform_entries_to(properties, shape, entries, k - 1);
        match assoc_get(properties, entries[k - 1].0) {
            Option::Some(p) => prev.push(
                (p.id, transformed_value(shape, p.id, entries[k - 1].1)),
            ),
            Option::None => prev,
        }
    }
}

/// The transformed entries of a whole record.
pub open spec fn transform_entries(
    properties: Seq<(Seq<char>, crate::schema::PropertyModel)>,
    shape: ShaclShapeModel,
    entries: Seq<(Seq<char>, SpecJson)>,
) -> Seq<(Seq<char>, SpecJson)> {
    transform_entries_to(properties, shape, entries, entries.len() as int)
}

/// The JSON-LD node a raw record becomes: `@id` from its numeric id,
/// `@type` from its canonical class, then its transformed entries.
pub open spec fn transformed_node(
    m: ParserModel,
    orig_class_name: Seq<char>,
    record: SpecJson,
) -> SpecJson {
    let cls = assoc_get(m.classes, orig_class_name).unwrap();
    let shape = assoc_get(m.shacl_shapes, cls.id).unwrap();
    let rid = crate::predicates::pred_id(record).unwrap();
    SpecJson::Obj(
        seq![("@id"@, SpecJson::Str(dec_rep_signed(rid))), ("@type"@, SpecJson::Str(cls.id))]
            + transform_entries(m.properties, shape, record->Obj_0),
    )
}

/// Transforms one raw record of a class into its JSON-LD node.
#[verifier::loop_isolation(false)]
pub fn transform_record(parser: &Parser, orig_class_name: &str, record: &JsonValue) -> (r: Result<
    JsonValue,
    TransformError,
>)
    ensures
        ({
            let m = parser@;
            let cls = assoc_get(m.classes, orig_class_name@);
            &&& (r matches Result::Err(e) && e == TransformError::UnknownClass <==> cls is None)
            &&& (r matches Result::Err(e) && e == TransformError::MissingShape <==> cls is Some
                && assoc_get(m.shacl_shapes, cls.unwrap().id) is None)
            &&& (r matches Result::Err(e) && e == TransformError::NotAnObject <==> cls is Some
                && assoc_get(m.shacl_shapes, cls.unwrap().id) is Some && !(record@ is Obj))
            &&& (r matches Result::Err(e) && e == TransformError::MissingRecordId <==> cls is Some
                && assoc_get(m.shacl_shapes, cls.unwrap().id) is Some && record@ is Obj && !(
                crate::predicates::pred_id(record@) is Some))
            &&& r is Ok ==> cls is Some && assoc_get(m.shacl_shapes, cls.unwrap().id) is Some
                && record@ is Obj && crate::predicates::pred_id(record@) is Some
            &&& (cls matches Option::Some(c) && assoc_get(m.shacl_shapes, c.id) is Some
                && record@ is Obj && crate::predicates::pred_id(record@) is Some && (forall|
                i: int,
            |
                0 <= i < record@->Obj_0.len() ==> entry_ok(
                    m.properties,
                    assoc_get(m.shacl_shapes, c.id).unwrap(),
                    (#[trigger] record@->Obj_0[i]).0,
                    record@->Obj_0[i].1,
                ))) ==> r is Ok
            &&& r matches Result::Ok(node) ==> node@ == transformed_node(
                m,
                orig_class_name@,
                record@,
            )
            &&& (r matches Result::Err(e) && e == TransformError::BadInstant) ==> (cls is Some
                && exists|i: int|
                0 <= i < record@->Obj_0.len() && !entry_ok(
                    m.properties,
                    assoc_get(m.shacl_shapes, cls.unwrap().id).unwrap(),
                    (#[trigger] record@->Obj_0[i]).0,
                    record@->Obj_0[i].1,
                ))
        }),
{
    let class_id = match parser.find_class(orig_class_name) {
        Option::Some(c) => c.id.clone(),
        Option::None => {
            return Result::Err(TransformError::UnknownClass);
        },
    };
    let shape = match parser.find_shacl_shape(class_id.as_str()) {
        Option::Some(s) => s,
        Option::None => {
            return Result::Err(TransformError::MissingShape);
        },
    };
    let entries = match record {
        JsonValue::Obj(entries) => entries,
        _ => {
            return Result::Err(TransformError::NotAnObject);
        },
    };
    let rid = match record.get_field("_id") {
        Option::Some(v) => match v.as_i64() {
            Option::Some(n) => n,
            Option::None => {
                return Result::Err(TransformError::MissingRecordId);
            },
        },
        Option::None => {
            return Result::Err(TransformError::MissingRecordId);
        },
    };

    let ghost m = parser@;
    let ghost shape_model = shape@;
    let ghost entry_views = crate::json::json_view_entries(entries@);
    proof {
        lemma_json_view_entries_len(entries@);
        assert(record@->Obj_0 == entry_views);
    }

    let mut out: Vec<(String, JsonValue)> = Vec::new();
    out.push(("@id".to_owned(), JsonValue::Str(i64_to_string(rid))));
    out.push(("@type".to_owned(), JsonValue::Str(class_id.clone())));

    let n = entries.len();
    let mut k: usize = 0;
    while k < n
        invariant
            k <= n,
            out@.len() >= 2,
            out@[0].0@ == "@id"@,
            out@[0].1@ == SpecJson::Str(dec_rep_signed(rid as int)),
            out@[1].0@ == "@type"@,
            out@[1].1@ == SpecJson::Str(assoc_get(m.classes, orig_class_name@).unwrap().id),
            crate::json::json_view_entries(out@.skip(2)) =~= transform_entries_to(
                m.properties,
                shape_model,
                entry_views,
                k as int,
            ),
        decreases n - k,
    {
        proof {
            lemma_json_view_entries_index(entries@, k as int);
        }
        let entry = &entries[k];
        let ghost prev_out = out@;
        let ghost prev_tail = crate::json::json_view_entries(out@.skip(2));
        match parser.find_property(entry.0.as_str()) {
            Option::Some(prop) => {
                let canonical = prop.id.clone();
                let is_datetime = shape.is_datetime_key(canonical.as_str());
                let value2: JsonValue = if is_datetime {
                    match entry.1.as_i64() {
                        Option::Some(epoch) => match try_instant_to_iso_string(epoch) {
                            Option::Some(text) => JsonValue::Str(text),
                            Option::None => {
                                proof {
                                    assert(!entry_ok(
                                        m.properties,
                                        shape_model,
                                        entry_views[k as int].0,
                                        entry_views[k as int].1,
                                    ));
                                }
                                return Result::Err(TransformError::BadInstant);
                            },
                        },
                        Option::None => {
                            proof {
                                assert(!entry_ok(
                                    m.properties,
                                    shape_model,
                                    entry_views[k as int].0,
                                    entry_views[k as int].1,
                                ));
                            }
                            return Result::Err(TransformError::BadInstant);
                        },
                    }
                } else {
                    entry.1.clone()
                };
                let ref_type: Option<&str> = match shape.class_ref_for(canonical.as_str()) {
                    Option::Some(c) => Option::Some(c.as_str()),
                    Option::None => Option::None,
                };
                let value3 = represent_fluree_value(&value2, ref_type);
                proof {
                    assert(value3@ == transformed_value(
                        shape_model,
                        canonical@,
                        entry_views[k as int].1,
                    ));
                }
                out.push((canonical, value3));
                proof {
                    assert(out@.skip(2).drop_last() =~= prev_out.skip(2));
                    lemma_view_entries_push_tail(out@.skip(2), prev_tail);
                }
            },
            Option::None => {
                proof {
                    assert(out@.skip(2) =~= out@.skip(2));
                }
            },
        }
        k = k + 1;
    }
    proof {
        assert(entry_views.len() == n);
    }
    let ghost out_final = out@;
    let node = JsonValue::Obj(out);
    proof {
        assert(node->Obj_0@ == out_final);
        lemma_json_view_entries_len(out_final);
        lemma_json_view_entries_len(out_final.skip(2));
        lemma_json_view_entries_index(out_final, 0);
        lemma_json_view_entries_index(out_final, 1);
        let expected = seq![
            ("@id"@, SpecJson::Str(dec_rep_signed(rid as int))),
            (
                "@type"@,
                SpecJson::Str(assoc_get(m.classes, orig_class_name@).unwrap().id),
            ),
        ] + transform_entries(m.properties, shape_model, entry_views);
        assert(crate::json::json_view_entries(out_final) =~= expected) by {
            assert forall|j: int|
                2 <= j < out_final.len() implies crate::json::json_view_entries(out_final)[j]
                == expected[j] by {
                lemma_json_view_entries_index(out_final, j);
                lemma_json_view_entries_index(out_final.skip(2), j - 2);
                assert(out_final.skip(2)[j - 2] == out_final[j]);
            }
        }
        assert(node@ == transformed_node(m, orig_class_name@, record@));
    }
    Result::Ok(node)
}

/// Pushing one transformed entry extends the tail's object model.
proof fn lemma_view_entries_push_tail(
    tail: Seq<(String, JsonValue)>,
    prev: Seq<(Seq<char>, SpecJson)>,
)
    requires
        tail.len() > 0,
        prev == crate::json::json_view_entries(tail.drop_last()),
    ensures
        crate::json::json_view_entries(tail) == prev.push(
            (tail.last().0@, json_view(tail.last().1)),
        ),
{
    lemma_json_view_entries_len(tail);
    lemma_json_view_entries_len(tail.drop_last());
    assert(crate::json::json_view_entries(tail) =~= prev.push(
        (tail.last().0@, json_view(tail.last().1)),
    )) by {
        assert forall|j: int| 0 <= j < tail.len() - 1 implies crate::json::json_view_entries(
            tail,
        )[j] == prev[j] by {
            lemma_json_view_entries_index(tail, j);
            lemma_json_view_entries_index(tail.drop_last(), j);
            assert(tail.drop_last()[j] == tail[j]);
        }
        lemma_json_view_entries_index(tail, tail.len() - 1);
    }
}

} // verus!
