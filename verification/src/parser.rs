//! The canonicalization registry: string-keyed collections of classes,
//! properties and shapes, built from the raw predicate list in two passes.

use vstd::prelude::*;

use crate::json::{json_view_seq, lemma_json_view_seq_index, lemma_json_view_seq_len, str_eq,
    JsonValue, SpecJson};
use crate::names::{class_name_spec, property_name_spec, standardize_class_name,
    standardize_property_name};
use crate::predicates::{
    parse_for_class_and_property_name, pred_name, pred_type, predicate_error, predicate_ok,
    raw_class_of, raw_property_of, validate_predicate, SchemaError,
};
use crate::schema::{
    comment_update, conflict_others, conflict_winning, constraint_for, datatype_conflict,
    new_class_model, new_property_model, new_shacl_shape_model, opt_string_view,
    updated_data_types, Class, ClassModel, ConflictModel, ConflictReport, Property, PropertyModel,
    ShaclShape, ShaclShapeModel,
};

verus! {

/// The value under the first entry carrying `key`, if any.
pub open spec fn assoc_get<V>(s: Seq<(Seq<char>, V)>, key: Seq<char>) -> Option<V>
    decreases s.len(),
{
    if s.len() == 0 {
        Option::None
    } else if s[0].0 == key {
        Option::Some(s[0].1)
    } else {
        assoc_get(s.drop_first(), key)
    }
}

/// Whether some entry carries `key`.
pub open spec fn assoc_has<V>(s: Seq<(Seq<char>, V)>, key: Seq<char>) -> bool {
    assoc_get(s, key) is Some
}

/// The entries with the first one under `key` replaced, or with a new
/// entry appended when `key` is absent.
pub open spec fn assoc_set<V>(s: Seq<(Seq<char>, V)>, key: Seq<char>, value: V) -> Seq<
    (Seq<char>, V),
>
    decreases s.len(),
{
    if s.len() == 0 {
        seq![(key, value)]
    } else if s[0].0 == key {
        seq![(key, value)] + s.drop_first()
    } else {
        seq![s[0]] + assoc_set(s.drop_first(), key, value)
    }
}

/// Entry keys are pairwise distinct.
pub open spec fn assoc_wf<V>(s: Seq<(Seq<char>, V)>) -> bool {
    forall|i: int, j: int| 0 <= i < j < s.len() ==> s[i].0 != s[j].0
}

/// `assoc_set` keeps every other key's value, sets this one, introduces no
/// key from outside, and preserves key distinctness.
pub proof fn lemma_assoc_set<V>(s: Seq<(Seq<char>, V)>, key: Seq<char>, value: V)
    ensures
        assoc_get(assoc_set(s, key, value), key) == Option::Some(value),
        forall|k: Seq<char>| k != key ==> assoc_get(assoc_set(s, key, value), k) == assoc_get(s, k),
        forall|i: int|
            0 <= i < assoc_set(s, key, value).len() ==> (#[trigger] assoc_set(s, key, value)[i].0
                == key || exists|j: int| 0 <= j < s.len() && s[j].0 == assoc_set(s, key, value)[i].0),
        assoc_wf(s) ==> assoc_wf(assoc_set(s, key, value)),
        assoc_set(s, key, value).len() == if assoc_has(s, key) {
            s.len()
        } else {
            s.len() + 1
        },
    decreases s.len(),
{
    let out = assoc_set(s, key, value);
    if s.len() == 0 {
        assert(out == seq![(key, value)]);
        assert(out.drop_first() =~= Seq::<(Seq<char>, V)>::empty());
        assert forall|k: Seq<char>| k != key implies assoc_get(out, k) == assoc_get(s, k) by {
            assert(assoc_get(out, k) == assoc_get(out.drop_first(), k));
        }
    } else if s[0].0 == key {
        assert(out == seq![(key, value)] + s.drop_first());
        assert(out.drop_first() =~= s.drop_first());
        assert(out[0] == (key, value));
        assert forall|k: Seq<char>| k != key implies assoc_get(out, k) == assoc_get(s, k) by {
            assert(assoc_get(out, k) == assoc_get(s.drop_first(), k));
            assert(assoc_get(s, k) == assoc_get(s.drop_first(), k));
        }
        assert forall|i: int|
            0 <= i < out.len() implies (#[trigger] out[i].0 == key || exists|j: int|
            0 <= j < s.len() && s[j].0 == out[i].0) by {
            if i > 0 {
                assert(s[i].0 == out[i].0);
            }
        }
        if assoc_wf(s) {
            assert forall|i: int, j: int| 0 <= i < j < out.len() implies out[i].0 != out[j].0 by {
                assert(out[j] == s[j]);
                if i > 0 {
                    assert(out[i] == s[i]);
                }
            }
        }
    } else {
        lemma_assoc_set(s.drop_first(), key, value);
        let rest = assoc_set(s.drop_first(), key, value);
        assert(out == seq![s[0]] + rest);
        assert(out.drop_first() =~= rest);
        assert(out[0] == s[0]);
        assert forall|k: Seq<char>| k != key implies assoc_get(out, k) == assoc_get(s, k) by {
            if s[0].0 == k {
                assert(assoc_get(out, k) == Option::Some(out[0].1));
            } else {
                assert(assoc_get(out, k) == assoc_get(rest, k));
                assert(assoc_get(s, k) == assoc_get(s.drop_first(), k));
            }
        }
        assert forall|i: int|
            0 <= i < out.len() implies (#[trigger] out[i].0 == key || exists|j: int|
            0 <= j < s.len() && s[j].0 == out[i].0) by {
            if i == 0 {
                assert(s[0].0 == out[0].0);
            } else {
                assert(out[i] == rest[i - 1]);
                if rest[i - 1].0 != key {
                    let j = choose|j: int|
                        0 <= j < s.drop_first().len() && s.drop_first()[j].0 == rest[i - 1].0;
                    assert(s[j + 1].0 == out[i].0);
                }
            }
        }
        if assoc_wf(s) {
            assert(assoc_wf(s.drop_first())) by {
                assert forall|i: int, j: int|
                    0 <= i < j < s.drop_first().len() implies s.drop_first()[i].0
                    != s.drop_first()[j].0 by {
                    assert(s.drop_first()[i] == s[i + 1]);
                    assert(s.drop_first()[j] == s[j + 1]);
                }
            }
            assert forall|i: int, j: int| 0 <= i < j < out.len() implies out[i].0 != out[j].0 by {
                if i == 0 {
                    assert(out[j] == rest[j - 1]);
                    if rest[j - 1].0 == key {
                    } else {
                        let jj = choose|jj: int|
                            0 <= jj < s.drop_first().len() && s.drop_first()[jj].0 == rest[j
                                - 1].0;
                        assert(s[jj + 1].0 == rest[j - 1].0);
                        assert(s[0].0 != s[jj + 1].0);
                    }
                } else {
                    assert(out[i] == rest[i - 1]);
                    assert(out[j] == rest[j - 1]);
                }
            }
        }
    }
}

/// Mathematical model of the registry.
#[verifier::ext_equal]
pub struct ParserModel {
    pub classes: Seq<(Seq<char>, ClassModel)>,
    pub properties: Seq<(Seq<char>, PropertyModel)>,
    pub shacl_shapes: Seq<(Seq<char>, ShaclShapeModel)>,
    pub vocab_context: Seq<(Seq<char>, Seq<char>)>,
    pub data_context: Seq<(Seq<char>, Seq<char>)>,
    pub network_name: Seq<char>,
    pub db_name: Seq<char>,
}

/// The canonicalization registry. Classes and properties are keyed by
/// their raw source names, shapes by the standardized class name; each key
/// appears at most once.
pub struct Parser {
    pub classes: Vec<(String, Class)>,
    pub properties: Vec<(String, Property)>,
    pub shacl_shapes: Vec<(String, ShaclShape)>,
    pub vocab_context: Vec<(String, String)>,
    pub data_context: Vec<(String, String)>,
    pub network_name: String,
    pub db_name: String,
}

impl View for Parser {
    type V = ParserModel;

    open spec fn view(&self) -> ParserModel {
        ParserModel {
            classes: self.classes.deep_view(),
            properties: self.properties.deep_view(),
            shacl_shapes: self.shacl_shapes.deep_view(),
            vocab_context: self.vocab_context.deep_view(),
            data_context: self.data_context.deep_view(),
            network_name: self.network_name@,
            db_name: self.db_name@,
        }
    }
}

impl ParserModel {
    /// Each registry's keys are pairwise distinct.
    pub open spec fn wf(self) -> bool {
        assoc_wf(self.classes) && assoc_wf(self.properties) && assoc_wf(self.shacl_shapes)
    }
}

/// The class the registry answers for a raw collection name: the stored
/// one, or a fresh canonical class.
pub open spec fn class_for(classes: Seq<(Seq<char>, ClassModel)>, orig_class_name: Seq<char>) -> ClassModel {
    match assoc_get(classes, orig_class_name) {
        Option::Some(c) => c,
        Option::None => new_class_model(class_name_spec(orig_class_name)),
    }
}

/// The property the registry answers for a raw property name: the stored
/// one with its datatype set grown by the tag, or a fresh property.
pub open spec fn property_for(
    properties: Seq<(Seq<char>, PropertyModel)>,
    property_name: Seq<char>,
    type_value: Seq<char>,
) -> PropertyModel {
    match assoc_get(properties, property_name) {
        Option::Some(p) => PropertyModel {
            data_types: updated_data_types(p.data_types, type_value),
            ..p
        },
        Option::None => new_property_model(property_name, type_value),
    }
}

/// The shape the registry answers for a standardized class name.
pub open spec fn shape_for(
    shapes: Seq<(Seq<char>, ShaclShapeModel)>,
    class_name: Seq<char>,
    closed: bool,
) -> ShaclShapeModel {
    match assoc_get(shapes, class_name) {
        Option::Some(s) => s,
        Option::None => new_shacl_shape_model(class_name, closed),
    }
}

impl Parser {
    /// An empty registry for a source ledger, with the two contexts the
    /// emitted documents will carry.
    pub fn new(
        vocab_context: Vec<(String, String)>,
        data_context: Vec<(String, String)>,
        network_name: &str,
        db_name: &str,
    ) -> (r: Parser)
        ensures
            r@.classes == Seq::<(Seq<char>, ClassModel)>::empty(),
            r@.properties == Seq::<(Seq<char>, PropertyModel)>::empty(),
            r@.shacl_shapes == Seq::<(Seq<char>, ShaclShapeModel)>::empty(),
            r@.vocab_context == vocab_context.deep_view(),
            r@.data_context == data_context.deep_view(),
            r@.network_name == network_name@,
            r@.db_name == db_name@,
            r@.wf(),
    {
        let r = Parser {
            classes: Vec::new(),
            properties: Vec::new(),
            shacl_shapes: Vec::new(),
            vocab_context,
            data_context,
            network_name: network_name.to_owned(),
            db_name: db_name.to_owned(),
        };
        proof {
            assert(r@.classes =~= Seq::<(Seq<char>, ClassModel)>::empty());
            assert(r@.properties =~= Seq::<(Seq<char>, PropertyModel)>::empty());
            assert(r@.shacl_shapes =~= Seq::<(Seq<char>, ShaclShapeModel)>::empty());
        }
        r
    }

    /// The stored class for a raw collection name, or a fresh canonical
    /// class when the name is new.
    pub fn get_or_create_class(&self, orig_class_name: &str) -> (r: Class)
        ensures
            r@ == class_for(self@.classes, orig_class_name@),
    {
        proof {
            lemma_entries_view(self.classes);
        }
        match assoc_index(&self.classes, orig_class_name) {
            Option::Some(i) => {
                proof {
                    lemma_assoc_get_at(self.classes@, orig_class_name@, i as int);
                }
                self.classes[i].1.clone()
            },
            Option::None => {
                proof {
                    lemma_assoc_get_absent(self.classes@, orig_class_name@);
                }
                let class_name = standardize_class_name(orig_class_name);
                Class::new(class_name.as_str())
            },
        }
    }

    /// The stored property for a raw property name with its datatype set
    /// grown by this predicate's tag, or a fresh property when new.
    pub fn get_or_create_property(&self, property_name: &str, type_value: &str) -> (r: Property)
        ensures
            r@ == property_for(self@.properties, property_name@, type_value@),
    {
        proof {
            lemma_entries_view(self.properties);
        }
        match assoc_index(&self.properties, property_name) {
            Option::Some(i) => {
                proof {
                    lemma_assoc_get_at(self.properties@, property_name@, i as int);
                }
                self.properties[i].1.update_types_and_own(type_value)
            },
            Option::None => {
                proof {
                    lemma_assoc_get_absent(self.properties@, property_name@);
                }
                Property::new(property_name, type_value)
            },
        }
    }

    /// The stored shape for a standardized class name, or a fresh shape
    /// when the class has none yet.
    pub fn get_or_create_shacl_shape(&self, class_name: &str, closed_shapes: bool) -> (r:
        ShaclShape)
        ensures
            r@ == shape_for(self@.shacl_shapes, class_name@, closed_shapes),
    {
        proof {
            lemma_entries_view(self.shacl_shapes);
        }
        match assoc_index(&self.shacl_shapes, class_name) {
            Option::Some(i) => {
                proof {
                    lemma_assoc_get_at(self.shacl_shapes@, class_name@, i as int);
                }
                self.shacl_shapes[i].1.clone()
            },
            Option::None => {
                proof {
                    lemma_assoc_get_absent(self.shacl_shapes@, class_name@);
                }
                ShaclShape::new(class_name, closed_shapes)
            },
        }
    }

    /// The stored class under a raw collection name, if any.
    pub fn find_class<'a>(&'a self, orig_class_name: &str) -> (r: Option<&'a Class>)
        ensures
            match r {
                Option::Some(c) => assoc_get(self@.classes, orig_class_name@) == Option::Some(
                    c@,
                ),
                Option::None => assoc_get(self@.classes, orig_class_name@) is None,
            },
    {
        proof {
            lemma_entries_view(self.classes);
        }
        match assoc_index(&self.classes, orig_class_name) {
            Option::Some(i) => {
                proof {
                    lemma_assoc_get_at(self.classes@, orig_class_name@, i as int);
                }
                Option::Some(&self.classes[i].1)
            },
            Option::None => {
                proof {
                    lemma_assoc_get_absent(self.classes@, orig_class_name@);
                }
                Option::None
            },
        }
    }

    /// The stored property under a raw property name, if any.
    pub fn find_property<'a>(&'a self, property_name: &str) -> (r: Option<&'a Property>)
        ensures
            match r {
                Option::Some(p) => assoc_get(self@.properties, property_name@) == Option::Some(
                    p@,
                ),
                Option::None => assoc_get(self@.properties, property_name@) is None,
            },
    {
        proof {
            lemma_entries_view(self.properties);
        }
        match assoc_index(&self.properties, property_name) {
            Option::Some(i) => {
                proof {
                    lemma_assoc_get_at(self.properties@, property_name@, i as int);
                }
                Option::Some(&self.properties[i].1)
            },
            Option::None => {
                proof {
                    lemma_assoc_get_absent(self.properties@, property_name@);
                }
                Option::None
            },
        }
    }

    /// The stored shape under a standardized class name, if any.
    pub fn find_shacl_shape<'a>(&'a self, class_name: &str) -> (r: Option<&'a ShaclShape>)
        ensures
            match r {
                Option::Some(s) => assoc_get(self@.shacl_shapes, class_name@) == Option::Some(
                    s@,
                ),
                Option::None => assoc_get(self@.shacl_shapes, class_name@) is None,
            },
    {
        proof {
            lemma_entries_view(self.shacl_shapes);
        }
        match assoc_index(&self.shacl_shapes, class_name) {
            Option::Some(i) => {
                proof {
                    lemma_assoc_get_at(self.shacl_shapes@, class_name@, i as int);
                }
                Option::Some(&self.shacl_shapes[i].1)
            },
            Option::None => {
                proof {
                    lemma_assoc_get_absent(self.shacl_shapes@, class_name@);
                }
                Option::None
            },
        }
    }

    /// Stores a class under its raw collection name.
    pub fn insert_class(&mut self, orig_class_name: &str, class: Class)
        ensures
            final(self)@ =~= (ParserModel {
                classes: assoc_set(old(self)@.classes, orig_class_name@, class@),
                ..old(self)@
            }),
    {
        assoc_insert(&mut self.classes, orig_class_name, class);
    }

    /// Stores a property under its raw property name.
    pub fn insert_property(&mut self, property_name: &str, property: Property)
        ensures
            final(self)@ =~= (ParserModel {
                properties: assoc_set(old(self)@.properties, property_name@, property@),
                ..old(self)@
            }),
    {
        assoc_insert(&mut self.properties, property_name, property);
    }

    /// Stores a shape under its standardized class name.
    pub fn insert_shacl_shape(&mut self, class_name: &str, shape: ShaclShape)
        ensures
            final(self)@ =~= (ParserModel {
                shacl_shapes: assoc_set(old(self)@.shacl_shapes, class_name@, shape@),
                ..old(self)@
            }),
    {
        assoc_insert(&mut self.shacl_shapes, class_name, shape);
    }

    /// First pass over one predicate: makes sure its class and property
    /// exist, unioning the property's datatype set with this type tag.
    pub fn register_predicate(&mut self, item: &JsonValue)
        requires
            predicate_ok(item@),
        ensures
            final(self)@ =~= pass1_step(old(self)@, item@),
    {
        let (orig_class_name, orig_property_name) = match parse_for_class_and_property_name(
            item,
        ) {
            Result::Ok(names) => names,
            Result::Err(_) => {
                proof {
                    assert(false);
                }
                unreached()
            },
        };
        let class_object = self.get_or_create_class(orig_class_name.as_str());
        let type_value = match item.get_field("type") {
            Option::Some(v) => match v.as_str() {
                Option::Some(t) => t.clone(),
                Option::None => {
                    proof {
                        assert(false);
                    }
                    unreached()
                },
            },
            Option::None => {
                proof {
                    assert(false);
                }
                unreached()
            },
        };
        let property_obj = self.get_or_create_property(
            orig_property_name.as_str(),
            type_value.as_str(),
        );
        self.insert_class(orig_class_name.as_str(), class_object);
        self.insert_property(orig_property_name.as_str(), property_obj);
    }

    /// Second pass over one predicate: wires the class's range, the
    /// property's domain and comment, and the shape's constraint; answers
    /// the datatype conflict this predicate surfaced, if any.
    pub fn apply_predicate(&mut self, item: &JsonValue, closed_shapes: bool) -> (r: Option<
        ConflictReport,
    >)
        requires
            predicate_ok(item@),
        ensures
            final(self)@ =~= pass2_step(old(self)@, item@, closed_shapes),
            r is Some <==> step_conflict(old(self)@, item@, closed_shapes) is Some,
            match r {
                Option::Some(c) => Option::Some(c@) == step_conflict(
                    old(self)@,
                    item@,
                    closed_shapes,
                ),
                Option::None => true,
            },
    {
        let (orig_class_name, orig_property_name) = match parse_for_class_and_property_name(
            item,
        ) {
            Result::Ok(names) => names,
            Result::Err(_) => {
                proof {
                    assert(false);
                }
                unreached()
            },
        };
        let mut class_object = self.get_or_create_class(orig_class_name.as_str());
        let type_value = match item.get_field("type") {
            Option::Some(v) => match v.as_str() {
                Option::Some(t) => t.clone(),
                Option::None => {
                    proof {
                        assert(false);
                    }
                    unreached()
                },
            },
            Option::None => {
                proof {
                    assert(false);
                }
                unreached()
            },
        };
        let mut property_object = self.get_or_create_property(
            orig_property_name.as_str(),
            type_value.as_str(),
        );
        let class_name = standardize_class_name(orig_class_name.as_str());
        let property_name = standardize_property_name(orig_property_name.as_str());
        let mut class_shacl_shape = self.get_or_create_shacl_shape(
            class_name.as_str(),
            closed_shapes,
        );
        class_object.set_property_range(property_name.as_str());
        property_object.set_class_domain(class_name.as_str());
        let attempt_set_property = class_shacl_shape.set_property(&mut property_object, item);
        self.insert_shacl_shape(class_name.as_str(), class_shacl_shape);
        self.insert_class(orig_class_name.as_str(), class_object);
        self.insert_property(orig_property_name.as_str(), property_object);
        match attempt_set_property {
            Result::Ok(_) => Option::None,
            Result::Err(report) => Option::Some(report),
        }
    }

    /// Canonicalizes a full predicate list: pass one creates every class
    /// and property (unioning datatypes), pass two derives ranges, domains
    /// and shape constraints, and collects the datatype conflicts. A
    /// malformed predicate rejects the whole list, leaving the registry
    /// untouched.
    pub fn process_predicates(&mut self, items: &Vec<JsonValue>, closed_shapes: bool) -> (r:
        Result<Vec<ConflictReport>, SchemaError>)
        ensures
            r is Ok <==> forall|i: int|
                0 <= i < items@.len() ==> predicate_ok(#[trigger] json_view_seq(items@)[i]),
            r matches Result::Err(e) ==> final(self)@ == old(self)@ && exists|i: int|
                0 <= i < items@.len() && !predicate_ok(#[trigger] json_view_seq(items@)[i]) && e
                    == predicate_error(json_view_seq(items@)[i]),
            r matches Result::Ok(conflicts) ==> {
                let views = json_view_seq(items@);
                let after1 = pass1_fold(old(self)@, views);
                &&& final(self)@ =~= pass2_fold(after1, views, closed_shapes)
                &&& conflicts.deep_view() =~= pass2_conflicts(after1, views, closed_shapes)
            },
    {
        let ghost views = json_view_seq(items@);
        proof {
            lemma_json_view_seq_len(items@);
        }
        let n = items.len();
        let mut i: usize = 0;
        while i < n
            invariant
                n == items@.len(),
                i <= n,
                views == json_view_seq(items@),
                views.len() == n,
                forall|j: int| 0 <= j < i ==> predicate_ok(#[trigger] views[j]),
            decreases n - i,
        {
            proof {
                lemma_json_view_seq_index(items@, i as int);
            }
            match validate_predicate(&items[i]) {
                Result::Ok(_) => {},
                Result::Err(e) => {
                    return Result::Err(e);
                },
            }
            i = i + 1;
        }

        let mut k: usize = 0;
        while k < n
            invariant
                n == items@.len(),
                k <= n,
                views == json_view_seq(items@),
                views.len() == n,
                forall|j: int| 0 <= j < n ==> predicate_ok(#[trigger] views[j]),
                self@ =~= pass1_fold_to(old(self)@, views, k as int),
            decreases n - k,
        {
            proof {
                lemma_json_view_seq_index(items@, k as int);
                lemma_pass1_fold_to_step(old(self)@, views, k as int);
            }
            self.register_predicate(&items[k]);
            k = k + 1;
        }
        proof {
            lemma_pass1_fold_to_full(old(self)@, views);
        }

        let ghost after1 = pass1_fold(old(self)@, views);
        let mut conflicts: Vec<ConflictReport> = Vec::new();
        let mut k2: usize = 0;
        while k2 < n
            invariant
                n == items@.len(),
                k2 <= n,
                views == json_view_seq(items@),
                views.len() == n,
                forall|j: int| 0 <= j < n ==> predicate_ok(#[trigger] views[j]),
                after1 == pass1_fold(old(self)@, views),
                self@ =~= pass2_fold_to(after1, views, closed_shapes, k2 as int),
                conflicts.deep_view() =~= pass2_conflicts_to(after1, views, closed_shapes, k2 as int),
            decreases n - k2,
        {
            proof {
                lemma_json_view_seq_index(items@, k2 as int);
                lemma_pass2_fold_to_step(after1, views, closed_shapes, k2 as int);
            }
            let ghost before = self@;
            let ghost prev_conflicts = conflicts.deep_view();
            match self.apply_predicate(&items[k2], closed_shapes) {
                Option::Some(c) => {
                    conflicts.push(c);
                    proof {
                        assert(conflicts.deep_view() =~= prev_conflicts.push(
                            conflicts@.last()@,
                        ));
                    }
                },
                Option::None => {},
            }
            k2 = k2 + 1;
        }
        proof {
            lemma_pass2_fold_to_full(after1, views, closed_shapes);
        }
        Result::Ok(conflicts)
    }
}

/// The registry after the first pass over one predicate: its class and
/// property exist, the property's datatype set unioned with this tag.
pub open spec fn pass1_step(m: ParserModel, item: SpecJson) -> ParserModel {
    let name = pred_name(item).unwrap();
    let cname = raw_class_of(name);
    let pname = raw_property_of(name);
    let tval = pred_type(item).unwrap();
    ParserModel {
        classes: assoc_set(m.classes, cname, class_for(m.classes, cname)),
        properties: assoc_set(m.properties, pname, property_for(m.properties, pname, tval)),
        ..m
    }
}

/// The property as it stands when the shape constraint is derived: the
/// stored one with this tag unioned in and its domain extended.
pub open spec fn pass2_property_at_call(m: ParserModel, item: SpecJson) -> PropertyModel {
    let name = pred_name(item).unwrap();
    let pname = raw_property_of(name);
    let tval = pred_type(item).unwrap();
    let base = property_for(m.properties, pname, tval);
    PropertyModel { domain: base.domain.push(class_name_spec(raw_class_of(name))), ..base }
}

/// The registry after the second pass over one predicate: the class's
/// range, the property's domain and comment, and the shape's constraint
/// are extended.
pub open spec fn pass2_step(m: ParserModel, item: SpecJson, closed: bool) -> ParserModel {
    let name = pred_name(item).unwrap();
    let cname = raw_class_of(name);
    let std_cname = class_name_spec(cname);
    let pname = raw_property_of(name);
    let base_class = class_for(m.classes, cname);
    let class2 = ClassModel {
        range: base_class.range.push(property_name_spec(pname)),
        ..base_class
    };
    let prop2 = pass2_property_at_call(m, item);
    let prop3 = PropertyModel { comment: comment_update(prop2, item), ..prop2 };
    let shape = shape_for(m.shacl_shapes, std_cname, closed);
    let shape2 = ShaclShapeModel {
        property: shape.property.push(constraint_for(prop2, item)),
        ..shape
    };
    ParserModel {
        classes: assoc_set(m.classes, cname, class2),
        properties: assoc_set(m.properties, pname, prop3),
        shacl_shapes: assoc_set(m.shacl_shapes, std_cname, shape2),
        ..m
    }
}

/// The conflict one predicate surfaces during the second pass, if any.
pub open spec fn step_conflict(m: ParserModel, item: SpecJson, closed: bool) -> Option<
    ConflictModel,
> {
    let prop2 = pass2_property_at_call(m, item);
    let std_cname = class_name_spec(raw_class_of(pred_name(item).unwrap()));
    if datatype_conflict(prop2, item) {
        Option::Some(
            ConflictModel {
                property: prop2.id,
                class: shape_for(m.shacl_shapes, std_cname, closed).target_class,
                winning: conflict_winning(item),
                others: conflict_others(prop2, item),
            },
        )
    } else {
        Option::None
    }
}

/// The registry after the first pass over the first `k` predicates.
pub open spec fn pass1_fold_to(m: ParserModel, items: Seq<SpecJson>, k: int) -> ParserModel
    decreases k,
{
    if k <= 0 {
        m
    } else {
        pass1_step(pass1_fold_to(m, items, k - 1), items[k - 1])
    }
}

/// The registry after the whole first pass.
pub open spec fn pass1_fold(m: ParserModel, items: Seq<SpecJson>) -> ParserModel {
    pass1_fold_to(m, items, items.len() as int)
}

/// The registry after the second pass over the first `k` predicates.
pub open spec fn pass2_fold_to(m: ParserModel, items: Seq<SpecJson>, closed: bool, k: int) -> ParserModel
    decreases k,
{
    if k <= 0 {
        m
    } else {
        pass2_step(pass2_fold_to(m, items, closed, k - 1), items[k - 1], closed)
    }
}

/// The registry after the whole second pass.
pub open spec fn pass2_fold(m: ParserModel, items: Seq<SpecJson>, closed: bool) -> ParserModel {
    pass2_fold_to(m, items, closed, items.len() as int)
}

/// The conflicts the second pass reports over the first `k` predicates,
/// in predicate order.
pub open spec fn pass2_conflicts_to(m: ParserModel, items: Seq<SpecJson>, closed: bool, k: int) -> Seq<ConflictModel>
    decreases k,
{
    if k <= 0 {
        Seq::empty()
    } else {
        let prefix = pass2_conflicts_to(m, items, closed, k - 1);
        match step_conflict(pass2_fold_to(m, items, closed, k - 1), items[k - 1], closed) {
            Option::Some(c) => prefix.push(c),
            Option::None => prefix,
        }
    }
}

/// The conflicts of the whole second pass.
pub open spec fn pass2_conflicts(m: ParserModel, items: Seq<SpecJson>, closed: bool) -> Seq<
    ConflictModel,
> {
    pass2_conflicts_to(m, items, closed, items.len() as int)
}

proof fn lemma_pass1_fold_to_step(m: ParserModel, items: Seq<SpecJson>, k: int)
    requires
        0 <= k < items.len(),
    ensures
        pass1_fold_to(m, items, k + 1) == pass1_step(pass1_fold_to(m, items, k), items[k]),
{
}

proof fn lemma_pass1_fold_to_full(m: ParserModel, items: Seq<SpecJson>)
    ensures
        pass1_fold_to(m, items, items.len() as int) == pass1_fold(m, items),
{
}

proof fn lemma_pass2_fold_to_step(m: ParserModel, items: Seq<SpecJson>, closed: bool, k: int)
    requires
        0 <= k < items.len(),
    ensures
        pass2_fold_to(m, items, closed, k + 1) == pass2_step(
            pass2_fold_to(m, items, closed, k),
            items[k],
            closed,
        ),
        pass2_conflicts_to(m, items, closed, k + 1) == match step_conflict(
            pass2_fold_to(m, items, closed, k),
            items[k],
            closed,
        ) {
            Option::Some(c) => pass2_conflicts_to(m, items, closed, k).push(c),
            Option::None => pass2_conflicts_to(m, items, closed, k),
        },
{
}

proof fn lemma_pass2_fold_to_full(m: ParserModel, items: Seq<SpecJson>, closed: bool)
    ensures
        pass2_fold_to(m, items, closed, items.len() as int) == pass2_fold(m, items, closed),
        pass2_conflicts_to(m, items, closed, items.len() as int) == pass2_conflicts(
            m,
            items,
            closed,
        ),
{
}

/// Index of the first entry carrying `key`, searching by text.
fn assoc_index<V>(v: &Vec<(String, V)>, key: &str) -> (r: Option<usize>)
    ensures
        match r {
            Option::Some(i) => i < v@.len() && v@[i as int].0@ == key@ && forall|j: int|
                0 <= j < i ==> v@[j].0@ != key@,
            Option::None => forall|j: int| 0 <= j < v@.len() ==> v@[j].0@ != key@,
        },
{
    let n = v.len();
    let mut i: usize = 0;
    while i < n
        invariant
            n == v@.len(),
            i <= n,
            forall|j: int| 0 <= j < i ==> v@[j].0@ != key@,
        decreases n - i,
    {
        if str_eq(v[i].0.as_str(), key) {
            return Option::Some(i);
        }
        i = i + 1;
    }
    Option::None
}

/// The deep view of registry entries, written out entry by entry.
pub open spec fn entries_view<V: DeepView>(s: Seq<(String, V)>) -> Seq<(Seq<char>, V::V)> {
    Seq::new(s.len(), |i: int| (s[i].0@, s[i].1.deep_view()))
}

/// A registry vector's deep view is its entries' view.
pub proof fn lemma_entries_view<V: DeepView>(v: Vec<(String, V)>)
    ensures
        v.deep_view() =~= entries_view(v@),
{
}

/// `assoc_get` on the entries' view agrees with positional search.
proof fn lemma_assoc_get_at<V: DeepView>(s: Seq<(String, V)>, key: Seq<char>, i: int)
    requires
        0 <= i < s.len(),
        s[i].0@ == key,
        forall|j: int| 0 <= j < i ==> s[j].0@ != key,
    ensures
        assoc_get(entries_view(s), key) == Option::Some(s[i].1.deep_view()),
    decreases i,
{
    let ev = entries_view(s);
    assert(ev[0] == (s[0].0@, s[0].1.deep_view()));
    if i == 0 {
    } else {
        lemma_assoc_get_at(s.drop_first(), key, i - 1);
        assert(entries_view(s.drop_first()) =~= ev.drop_first());
        assert(s.drop_first()[i - 1] == s[i]);
        assert forall|j: int| 0 <= j < i - 1 implies s.drop_first()[j].0@ != key by {
            assert(s.drop_first()[j] == s[j + 1]);
        }
    }
}

/// Replacing the first entry under a present key realizes `assoc_set`.
proof fn lemma_assoc_set_at<V: DeepView>(s: Seq<(String, V)>, key: Seq<char>, value: V, i: int)
    requires
        0 <= i < s.len(),
        s[i].0@ == key,
        forall|j: int| 0 <= j < i ==> s[j].0@ != key,
    ensures
        assoc_set(entries_view(s), key, value.deep_view()) =~= entries_view(s).update(
            i,
            (key, value.deep_view()),
        ),
    decreases i,
{
    let ev = entries_view(s);
    assert(ev[0] == (s[0].0@, s[0].1.deep_view()));
    if i == 0 {
        assert(assoc_set(ev, key, value.deep_view()) == seq![(key, value.deep_view())]
            + ev.drop_first());
    } else {
        assert forall|j: int| 0 <= j < i - 1 implies s.drop_first()[j].0@ != key by {
            assert(s.drop_first()[j] == s[j + 1]);
        }
        assert(s.drop_first()[i - 1] == s[i]);
        lemma_assoc_set_at(s.drop_first(), key, value, i - 1);
        assert(entries_view(s.drop_first()) =~= ev.drop_first());
        assert(assoc_set(ev, key, value.deep_view()) == seq![ev[0]] + assoc_set(
            ev.drop_first(),
            key,
            value.deep_view(),
        ));
    }
}

/// Appending under an absent key realizes `assoc_set`.
proof fn lemma_assoc_set_push<V: DeepView>(s: Seq<(String, V)>, key: Seq<char>, value: V)
    requires
        forall|j: int| 0 <= j < s.len() ==> s[j].0@ != key,
    ensures
        assoc_set(entries_view(s), key, value.deep_view()) =~= entries_view(s).push(
            (key, value.deep_view()),
        ),
    decreases s.len(),
{
    let ev = entries_view(s);
    if s.len() == 0 {
    } else {
        assert(ev[0] == (s[0].0@, s[0].1.deep_view()));
        assert forall|j: int| 0 <= j < s.drop_first().len() implies #[trigger] s.drop_first()[j].0@
            != key by {
            assert(s.drop_first()[j] == s[j + 1]);
        }
        lemma_assoc_set_push(s.drop_first(), key, value);
        assert(entries_view(s.drop_first()) =~= ev.drop_first());
        assert(assoc_set(ev, key, value.deep_view()) == seq![ev[0]] + assoc_set(
            ev.drop_first(),
            key,
            value.deep_view(),
        ));
    }
}

/// Sets or appends the entry under `key`, realizing `assoc_set` on the
/// registry's model.
fn assoc_insert<V: DeepView>(v: &mut Vec<(String, V)>, key: &str, value: V)
    ensures
        final(v).deep_view() =~= assoc_set(old(v).deep_view(), key@, value.deep_view()),
{
    proof {
        lemma_entries_view(*v);
    }
    let index = assoc_index(v, key);
    match index {
        Option::Some(i) => {
            proof {
                lemma_assoc_set_at(v@, key@, value, i as int);
            }
            vstd::pervasive::VecAdditionalExecFns::set(v, i, (key.to_owned(), value));
            proof {
                lemma_entries_view(*v);
                assert(entries_view(v@) =~= entries_view(old(v)@).update(
                    i as int,
                    (key@, value.deep_view()),
                ));
            }
        },
        Option::None => {
            proof {
                lemma_assoc_set_push(v@, key@, value);
            }
            v.push((key.to_owned(), value));
            proof {
                lemma_entries_view(*v);
                assert(entries_view(v@) =~= entries_view(old(v)@).push(
                    (key@, value.deep_view()),
                ));
            }
        },
    }
}

/// Absent keys: positional absence gives `assoc_get` absence.
proof fn lemma_assoc_get_absent<V: DeepView>(s: Seq<(String, V)>, key: Seq<char>)
    requires
        forall|j: int| 0 <= j < s.len() ==> s[j].0@ != key,
    ensures
        assoc_get(entries_view(s), key) is None,
    decreases s.len(),
{
    if s.len() > 0 {
        let ev = entries_view(s);
        assert(ev[0] == (s[0].0@, s[0].1.deep_view()));
        assert forall|j: int| 0 <= j < s.drop_first().len() implies #[trigger] s.drop_first()[j].0@
            != key by {
            assert(s.drop_first()[j] == s[j + 1]);
        }
        lemma_assoc_get_absent(s.drop_first(), key);
        assert(entries_view(s.drop_first()) =~= ev.drop_first());
    }
}

} // verus!
