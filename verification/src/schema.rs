//! Canonical vocabulary nodes: classes, properties and SHACL node shapes,
//! together with the per-predicate constraint derivation.

use vstd::prelude::*;

use crate::json::{spec_field, JsonValue, SpecJson};
use crate::names::{
    class_name_spec, property_name_spec, remove_namespace, remove_namespace_spec,
    standardize_class_name, standardize_property_name,
};

verus! {

/// Mathematical model of a canonical class node.
#[verifier::ext_equal]
pub struct ClassModel {
    pub id: Seq<char>,
    pub node_type: Seq<char>,
    pub label: Seq<char>,
    pub comment: Option<Seq<char>>,
    pub sub_class_of: Option<Seq<Seq<char>>>,
    pub range: Seq<Seq<char>>,
}

/// A canonical class node: one per distinct raw collection name. `range`
/// lists the canonical property identifiers usable on the class.
pub struct Class {
    pub id: String,
    pub type_: String,
    pub label: String,
    pub comment: Option<String>,
    pub sub_class_of: Option<Vec<String>>,
    pub range: Vec<String>,
}

pub open spec fn opt_string_view(o: Option<String>) -> Option<Seq<char>> {
    match o {
        Option::Some(s) => Option::Some(s@),
        Option::None => Option::None,
    }
}

pub open spec fn opt_strings_view(o: Option<Vec<String>>) -> Option<Seq<Seq<char>>> {
    match o {
        Option::Some(v) => Option::Some(v.deep_view()),
        Option::None => Option::None,
    }
}

impl View for Class {
    type V = ClassModel;

    open spec fn view(&self) -> ClassModel {
        ClassModel {
            id: self.id@,
            node_type: self.type_@,
            label: self.label@,
            comment: opt_string_view(self.comment),
            sub_class_of: opt_strings_view(self.sub_class_of),
            range: self.range.deep_view(),
        }
    }
}

impl DeepView for Class {
    type V = ClassModel;

    open spec fn deep_view(&self) -> ClassModel {
        self.view()
    }
}

/// The model of a freshly canonicalized class.
pub open spec fn new_class_model(class_name: Seq<char>) -> ClassModel {
    ClassModel {
        id: class_name,
        node_type: "rdfs:Class"@,
        label: remove_namespace_spec(class_name),
        comment: Option::None,
        sub_class_of: Option::None,
        range: Seq::empty(),
    }
}

impl Class {
    /// A new class node for an already-standardized class name.
    pub fn new(class_name: &str) -> (r: Class)
        ensures
            r@ =~= new_class_model(class_name@),
    {
        Class {
            id: class_name.to_owned(),
            type_: "rdfs:Class".to_owned(),
            label: remove_namespace(class_name),
            comment: Option::None,
            sub_class_of: Option::None,
            range: Vec::new(),
        }
    }

    /// Records one more property as usable on this class.
    pub fn set_property_range(&mut self, property_name: &str)
        ensures
            final(self)@ =~= (ClassModel {
                range: old(self)@.range.push(property_name@),
                ..old(self)@
            }),
    {
        self.range.push(property_name.to_owned());
    }
}

impl Clone for Class {
    fn clone(&self) -> (r: Self)
        ensures
            r@ == self@,
    {
        let r = Class {
            id: self.id.clone(),
            type_: self.type_.clone(),
            label: self.label.clone(),
            comment: match &self.comment {
                Option::Some(c) => Option::Some(c.clone()),
                Option::None => Option::None,
            },
            sub_class_of: match &self.sub_class_of {
                Option::Some(v) => Option::Some(clone_strings(v)),
                Option::None => Option::None,
            },
            range: clone_strings(&self.range),
        };
        proof {
            assert(r@ =~= self@);
        }
        r
    }
}

/// Clones a vector of strings, keeping its contents.
pub fn clone_strings(v: &Vec<String>) -> (r: Vec<String>)
    ensures
        r.deep_view() =~= v.deep_view(),
{
    let mut r: Vec<String> = Vec::new();
    let n = v.len();
    let mut i: usize = 0;
    while i < n
        invariant
            n == v@.len(),
            i <= n,
            r@.len() == i,
            forall|j: int| 0 <= j < i ==> r@[j]@ == #[trigger] v@[j]@,
        decreases n - i,
    {
        r.push(v[i].clone());
        i = i + 1;
    }
    proof {
        assert(r.deep_view() =~= v.deep_view());
    }
    r
}

/// Mathematical model of a canonical property node.
#[verifier::ext_equal]
pub struct PropertyModel {
    pub id: Seq<char>,
    pub node_type: Seq<char>,
    pub label: Seq<char>,
    pub comment: Seq<char>,
    pub domain: Seq<Seq<char>>,
    pub data_types: Seq<Seq<char>>,
}

/// A canonical property node. `data_types` is the set of normalized
/// datatypes seen for this property name anywhere in the schema, in first
/// encounter order and without duplicates.
pub struct Property {
    pub id: String,
    pub type_: String,
    pub label: String,
    pub comment: String,
    pub domain: Vec<String>,
    pub data_types: Vec<String>,
}

impl View for Property {
    type V = PropertyModel;

    open spec fn view(&self) -> PropertyModel {
        PropertyModel {
            id: self.id@,
            node_type: self.type_@,
            label: self.label@,
            comment: self.comment@,
            domain: self.domain.deep_view(),
            data_types: self.data_types.deep_view(),
        }
    }
}

impl DeepView for Property {
    type V = PropertyModel;

    open spec fn deep_view(&self) -> PropertyModel {
        self.view()
    }
}

/// The normalized datatype for a raw type tag; tags with no XML Schema
/// counterpart (`tag`, `ref`, anything unknown) normalize to nothing.
pub open spec fn normalize_type_spec(t: Seq<char>) -> Option<Seq<char>> {
    if t == "float"@ {
        Option::Some("xsd:float"@)
    } else if t == "int"@ {
        Option::Some("xsd:integer"@)
    } else if t == "instant"@ {
        Option::Some("xsd:dateTime"@)
    } else if t == "boolean"@ {
        Option::Some("xsd:boolean"@)
    } else if t == "long"@ {
        Option::Some("xsd:long"@)
    } else if t == "string"@ {
        Option::Some("xsd:string"@)
    } else {
        Option::None
    }
}

/// The datatype set of a fresh property: the normalized tag, or empty.
pub open spec fn initial_data_types(type_value: Seq<char>) -> Seq<Seq<char>> {
    match normalize_type_spec(type_value) {
        Option::Some(d) => seq![d],
        Option::None => Seq::empty(),
    }
}

/// The model of a freshly canonicalized property.
pub open spec fn new_property_model(property_name: Seq<char>, type_value: Seq<char>) -> PropertyModel {
    PropertyModel {
        id: property_name_spec(property_name),
        node_type: "rdf:Property"@,
        label: remove_namespace_spec(property_name_spec(property_name)),
        comment: Seq::empty(),
        domain: Seq::empty(),
        data_types: initial_data_types(type_value),
    }
}

/// The datatype set after one more predicate with the given raw tag:
/// grown by the normalized tag if it is new, unchanged otherwise.
pub open spec fn updated_data_types(data_types: Seq<Seq<char>>, type_value: Seq<char>) -> Seq<
    Seq<char>,
> {
    match normalize_type_spec(type_value) {
        Option::Some(d) => if data_types.contains(d) {
            data_types
        } else {
            data_types.push(d)
        },
        Option::None => data_types,
    }
}

impl Property {
    /// A new property node for a raw property name and its first type tag.
    pub fn new(property_name: &str, type_value: &str) -> (r: Property)
        ensures
            r@ =~= new_property_model(property_name@, type_value@),
    {
        let standard_property_name = standardize_property_name(property_name);
        let data_type = Self::normalize_type_value(type_value);
        let mut data_types: Vec<String> = Vec::new();
        match data_type {
            Option::Some(d) => {
                data_types.push(d);
            },
            Option::None => {},
        }
        let label = remove_namespace(standard_property_name.as_str());
        let r = Property {
            id: standard_property_name,
            type_: "rdf:Property".to_owned(),
            label,
            comment: String::new(),
            domain: Vec::new(),
            data_types,
        };
        proof {
            assert(r@.data_types =~= initial_data_types(type_value@));
            assert(r@ =~= new_property_model(property_name@, type_value@));
        }
        r
    }

    /// Maps a raw type tag to its normalized datatype, if it has one.
    pub fn normalize_type_value(type_value: &str) -> (r: Option<String>)
        ensures
            opt_string_view(r) == normalize_type_spec(type_value@),
    {
        if crate::json::str_eq(type_value, "float") {
            Option::Some("xsd:float".to_owned())
        } else if crate::json::str_eq(type_value, "int") {
            Option::Some("xsd:integer".to_owned())
        } else if crate::json::str_eq(type_value, "instant") {
            Option::Some("xsd:dateTime".to_owned())
        } else if crate::json::str_eq(type_value, "boolean") {
            Option::Some("xsd:boolean".to_owned())
        } else if crate::json::str_eq(type_value, "long") {
            Option::Some("xsd:long".to_owned())
        } else if crate::json::str_eq(type_value, "string") {
            Option::Some("xsd:string".to_owned())
        } else {
            Option::None
        }
    }

    /// A copy of this property whose datatype set also covers one more
    /// predicate's raw type tag.
    pub fn update_types_and_own(&self, type_value: &str) -> (r: Property)
        ensures
            r@ =~= (PropertyModel {
                data_types: updated_data_types(self@.data_types, type_value@),
                ..self@
            }),
    {
        let mut property = self.clone();
        let data_type = Self::normalize_type_value(type_value);
        match data_type {
            Option::Some(d) => {
                if !contains_string(&property.data_types, d.as_str()) {
                    property.data_types.push(d);
                }
            },
            Option::None => {},
        }
        proof {
            assert(property@.data_types =~= updated_data_types(self@.data_types, type_value@));
        }
        property
    }

    /// Records one more class as a domain of this property.
    pub fn set_class_domain(&mut self, class_name: &str)
        ensures
            final(self)@ =~= (PropertyModel {
                domain: old(self)@.domain.push(class_name@),
                ..old(self)@
            }),
    {
        self.domain.push(class_name.to_owned());
    }
}

impl Clone for Property {
    fn clone(&self) -> (r: Self)
        ensures
            r@ == self@,
    {
        let r = Property {
            id: self.id.clone(),
            type_: self.type_.clone(),
            label: self.label.clone(),
            comment: self.comment.clone(),
            domain: clone_strings(&self.domain),
            data_types: clone_strings(&self.data_types),
        };
        proof {
            assert(r@ =~= self@);
        }
        r
    }
}

/// Mathematical model of one property constraint inside a node shape.
#[verifier::ext_equal]
pub struct ShaclPropertyModel {
    pub id: Seq<char>,
    pub node_type: Seq<char>,
    pub label: Seq<char>,
    pub comment: Seq<char>,
    pub path: Seq<char>,
    pub class: Option<Seq<char>>,
    pub min_count: Option<u32>,
    pub max_count: Option<u32>,
    pub datatype: Option<Seq<char>>,
    pub node_kind: Seq<char>,
    pub pattern: Seq<char>,
}

/// One property constraint of a SHACL node shape.
pub struct ShaclProperty {
    pub id: String,
    pub type_: String,
    pub label: String,
    pub comment: String,
    pub path: String,
    pub class: Option<String>,
    pub min_count: Option<u32>,
    pub max_count: Option<u32>,
    pub datatype: Option<String>,
    pub node_kind: String,
    pub pattern: String,
}

impl View for ShaclProperty {
    type V = ShaclPropertyModel;

    open spec fn view(&self) -> ShaclPropertyModel {
        ShaclPropertyModel {
            id: self.id@,
            node_type: self.type_@,
            label: self.label@,
            comment: self.comment@,
            path: self.path@,
            class: opt_string_view(self.class),
            min_count: self.min_count,
            max_count: self.max_count,
            datatype: opt_string_view(self.datatype),
            node_kind: self.node_kind@,
            pattern: self.pattern@,
        }
    }
}

impl DeepView for ShaclProperty {
    type V = ShaclPropertyModel;

    open spec fn deep_view(&self) -> ShaclPropertyModel {
        self.view()
    }
}

/// The model of a fresh constraint: only the path is set.
pub open spec fn new_shacl_property_model(property_name: Seq<char>) -> ShaclPropertyModel {
    ShaclPropertyModel {
        id: Seq::empty(),
        node_type: Seq::empty(),
        label: Seq::empty(),
        comment: Seq::empty(),
        path: property_name,
        class: Option::None,
        min_count: Option::None,
        max_count: Option::None,
        datatype: Option::None,
        node_kind: Seq::empty(),
        pattern: Seq::empty(),
    }
}

impl ShaclProperty {
    /// A new, empty constraint on the given canonical property.
    pub fn new(property_name: &str) -> (r: ShaclProperty)
        ensures
            r@ =~= new_shacl_property_model(property_name@),
    {
        ShaclProperty {
            id: String::new(),
            type_: String::new(),
            label: String::new(),
            comment: String::new(),
            path: property_name.to_owned(),
            class: Option::None,
            min_count: Option::None,
            max_count: Option::None,
            datatype: Option::None,
            node_kind: String::new(),
            pattern: String::new(),
        }
    }
}

impl Clone for ShaclProperty {
    fn clone(&self) -> (r: Self)
        ensures
            r@ == self@,
    {
        let r = ShaclProperty {
            id: self.id.clone(),
            type_: self.type_.clone(),
            label: self.label.clone(),
            comment: self.comment.clone(),
            path: self.path.clone(),
            class: match &self.class {
                Option::Some(c) => Option::Some(c.clone()),
                Option::None => Option::None,
            },
            min_count: self.min_count,
            max_count: self.max_count,
            datatype: match &self.datatype {
                Option::Some(d) => Option::Some(d.clone()),
                Option::None => Option::None,
            },
            node_kind: self.node_kind.clone(),
            pattern: self.pattern.clone(),
        };
        proof {
            assert(r@ =~= self@);
        }
        r
    }
}

/// Mathematical model of a SHACL node shape.
#[verifier::ext_equal]
pub struct ShaclShapeModel {
    pub id: Seq<char>,
    pub node_type: Seq<char>,
    pub target_class: Seq<char>,
    pub target_property: Seq<char>,
    pub property: Seq<ShaclPropertyModel>,
    pub datatype: Seq<char>,
    pub node_kind: Seq<char>,
    pub closed: Option<bool>,
    pub ignored_properties: Seq<Seq<char>>,
}

/// A SHACL node shape for one class. A closed shape ignores only `@type`.
pub struct ShaclShape {
    pub id: String,
    pub type_: String,
    pub target_class: String,
    pub target_property: String,
    pub property: Vec<ShaclProperty>,
    pub datatype: String,
    pub node_kind: String,
    pub closed: Option<bool>,
    pub ignored_properties: Vec<String>,
}

impl View for ShaclShape {
    type V = ShaclShapeModel;

    open spec fn view(&self) -> ShaclShapeModel {
        ShaclShapeModel {
            id: self.id@,
            node_type: self.type_@,
            target_class: self.target_class@,
            target_property: self.target_property@,
            property: self.property.deep_view(),
            datatype: self.datatype@,
            node_kind: self.node_kind@,
            closed: self.closed,
            ignored_properties: self.ignored_properties.deep_view(),
        }
    }
}

impl DeepView for ShaclShape {
    type V = ShaclShapeModel;

    open spec fn deep_view(&self) -> ShaclShapeModel {
        self.view()
    }
}

/// The model of a fresh shape for a class; when closed, `@type` is the one
/// ignored property.
pub open spec fn new_shacl_shape_model(class_name: Seq<char>, closed: bool) -> ShaclShapeModel {
    ShaclShapeModel {
        id: Seq::empty(),
        node_type: "sh:NodeShape"@,
        target_class: class_name,
        target_property: Seq::empty(),
        property: Seq::empty(),
        datatype: Seq::empty(),
        node_kind: Seq::empty(),
        closed: if closed {
            Option::Some(true)
        } else {
            Option::None
        },
        ignored_properties: if closed {
            seq!["@type"@]
        } else {
            Seq::empty()
        },
    }
}

impl ShaclShape {
    /// A new shape targeting the given canonical class.
    pub fn new(class_name: &str, closed: bool) -> (r: ShaclShape)
        ensures
            r@ =~= new_shacl_shape_model(class_name@, closed),
    {
        let closed_flag: Option<bool> = if closed {
            Option::Some(true)
        } else {
            Option::None
        };
        let mut ignored_properties: Vec<String> = Vec::new();
        if closed {
            ignored_properties.push("@type".to_owned());
        }
        let r = ShaclShape {
            id: String::new(),
            type_: "sh:NodeShape".to_owned(),
            target_class: class_name.to_owned(),
            target_property: String::new(),
            property: Vec::new(),
            datatype: String::new(),
            node_kind: String::new(),
            closed: closed_flag,
            ignored_properties,
        };
        proof {
            assert(r@ =~= new_shacl_shape_model(class_name@, closed));
        }
        r
    }
}

impl Clone for ShaclShape {
    fn clone(&self) -> (r: Self)
        ensures
            r@ == self@,
    {
        let mut property: Vec<ShaclProperty> = Vec::new();
        let n = self.property.len();
        let mut i: usize = 0;
        while i < n
            invariant
                n == self.property@.len(),
                i <= n,
                property@.len() == i,
                forall|j: int| 0 <= j < i ==> property@[j]@ == #[trigger] self.property@[j]@,
            decreases n - i,
        {
            property.push(self.property[i].clone());
            i = i + 1;
        }
        let r = ShaclShape {
            id: self.id.clone(),
            type_: self.type_.clone(),
            target_class: self.target_class.clone(),
            target_property: self.target_property.clone(),
            property,
            datatype: self.datatype.clone(),
            node_kind: self.node_kind.clone(),
            closed: self.closed,
            ignored_properties: clone_strings(&self.ignored_properties),
        };
        proof {
            assert(r.property.deep_view() =~= self.property.deep_view());
            assert(r@ =~= self@);
        }
        r
    }
}

/// A non-fatal report that one class uses a property with a datatype other
/// than the ones it carries elsewhere.
pub struct ConflictReport {
    pub property: String,
    pub class: String,
    pub winning: Option<String>,
    pub others: Vec<String>,
}

/// Mathematical model of a conflict report.
#[verifier::ext_equal]
pub struct ConflictModel {
    pub property: Seq<char>,
    pub class: Seq<char>,
    pub winning: Option<Seq<char>>,
    pub others: Seq<Seq<char>>,
}

impl View for ConflictReport {
    type V = ConflictModel;

    open spec fn view(&self) -> ConflictModel {
        ConflictModel {
            property: self.property@,
            class: self.class@,
            winning: opt_string_view(self.winning),
            others: self.others.deep_view(),
        }
    }
}

impl DeepView for ConflictReport {
    type V = ConflictModel;

    open spec fn deep_view(&self) -> ConflictModel {
        self.view()
    }
}

/// Whether a predicate object has the given key.
pub open spec fn has_field(item: SpecJson, key: Seq<char>) -> bool {
    spec_field(item, key) is Some
}

/// A predicate object as `set_property` expects it: the optional metadata
/// fields it reads carry their documented types.
pub open spec fn wf_predicate_fields(item: SpecJson) -> bool {
    &&& item is Obj
    &&& match spec_field(item, "multi"@) {
        Option::None => true,
        Option::Some(v) => v is Null || v is Bool,
    }
    &&& match spec_field(item, "doc"@) {
        Option::None => true,
        Option::Some(v) => v is Str,
    }
    &&& match spec_field(item, "type"@) {
        Option::None => true,
        Option::Some(v) => v is Str,
    }
    &&& match spec_field(item, "restrictCollection"@) {
        Option::None => true,
        Option::Some(v) => v is Str,
    }
}

/// `sh:maxCount` is capped at one exactly when the predicate says
/// `multi: false`; an absent (or null) flag leaves the count uncapped.
pub open spec fn shacl_max_count(item: SpecJson) -> Option<u32> {
    match spec_field(item, "multi"@) {
        Option::Some(SpecJson::Bool(b)) => if b {
            Option::None
        } else {
            Option::Some(1u32)
        },
        _ => Option::None,
    }
}

/// `sh:datatype` appears only when the predicate carries a type tag and
/// the property's accumulated datatype set has exactly one member.
pub open spec fn shacl_datatype(prop: PropertyModel, item: SpecJson) -> Option<Seq<char>> {
    if has_field(item, "type"@) && prop.data_types.len() == 1 {
        Option::Some(prop.data_types[0])
    } else {
        Option::None
    }
}

/// `sh:class` for reference predicates: the canonical name of the
/// restricted collection.
pub open spec fn shacl_class_ref(item: SpecJson) -> Option<Seq<char>> {
    match spec_field(item, "restrictCollection"@) {
        Option::Some(SpecJson::Str(s)) => Option::Some(class_name_spec(s)),
        _ => Option::None,
    }
}

/// The constraint one predicate contributes to its class's shape.
pub open spec fn constraint_for(prop: PropertyModel, item: SpecJson) -> ShaclPropertyModel {
    ShaclPropertyModel {
        path: prop.id,
        class: shacl_class_ref(item),
        max_count: shacl_max_count(item),
        datatype: shacl_datatype(prop, item),
        ..new_shacl_property_model(prop.id)
    }
}

/// The property comment after a predicate: its `doc`, if it has one.
pub open spec fn comment_update(prop: PropertyModel, item: SpecJson) -> Seq<char> {
    match spec_field(item, "doc"@) {
        Option::Some(SpecJson::Str(d)) => d,
        _ => prop.comment,
    }
}

/// Whether a predicate's type tag clashes with datatypes the property
/// carries from other predicates.
pub open spec fn datatype_conflict(prop: PropertyModel, item: SpecJson) -> bool {
    has_field(item, "type"@) && prop.data_types.len() > 1
}

/// The datatype the conflicting predicate itself asked for.
pub open spec fn conflict_winning(item: SpecJson) -> Option<Seq<char>> {
    match spec_field(item, "type"@) {
        Option::Some(SpecJson::Str(t)) => normalize_type_spec(t),
        _ => Option::None,
    }
}

/// The datatypes a conflicting property carries besides the winning one.
pub open spec fn conflict_others(prop: PropertyModel, item: SpecJson) -> Seq<Seq<char>> {
    prop.data_types.filter(|d: Seq<char>| Option::Some(d) != conflict_winning(item))
}

impl ShaclShape {
    /// Applies one predicate's metadata: pushes its constraint onto this
    /// shape, moves its `doc` into the property's comment, and reports a
    /// datatype conflict when the property's accumulated datatype set has
    /// more than one member (the constraint then carries no `sh:datatype`).
    pub fn set_property(&mut self, property_object: &mut Property, item: &JsonValue) -> (r:
        Result<(), ConflictReport>)
        requires
            wf_predicate_fields(item@),
        ensures
            final(self)@ =~= (ShaclShapeModel {
                property: old(self)@.property.push(
                    constraint_for(old(property_object)@, item@),
                ),
                ..old(self)@
            }),
            final(property_object)@ =~= (PropertyModel {
                comment: comment_update(old(property_object)@, item@),
                ..old(property_object)@
            }),
            r is Err <==> datatype_conflict(old(property_object)@, item@),
            match r {
                Result::Err(c) => {
                    &&& c@.property == old(property_object)@.id
                    &&& c@.class == old(self)@.target_class
                    &&& opt_string_view(c.winning) == conflict_winning(item@)
                    &&& c@.others == conflict_others(old(property_object)@, item@)
                },
                Result::Ok(_) => true,
            },
    {
        let mut shacl_property = ShaclProperty::new(property_object.id.as_str());
        let mut result: Result<(), ConflictReport> = Result::Ok(());

        let multi_single: bool = match item.get_field("multi") {
            Option::Some(v) => match v.as_bool() {
                Option::Some(b) => !b,
                Option::None => false,
            },
            Option::None => false,
        };
        if multi_single {
            shacl_property.max_count = Option::Some(1);
        }

        match item.get_field("doc") {
            Option::Some(v) => match v.as_str() {
                Option::Some(d) => {
                    property_object.comment = d.clone();
                },
                Option::None => {},
            },
            Option::None => {},
        }

        match item.get_field("type") {
            Option::Some(tv) => {
                if property_object.data_types.len() > 1 {
                    let winning = match tv.as_str() {
                        Option::Some(t) => Property::normalize_type_value(t.as_str()),
                        Option::None => Option::None,
                    };
                    let others = filter_out(
                        &property_object.data_types,
                        &winning,
                    );
                    result = Result::Err(
                        ConflictReport {
                            property: property_object.id.clone(),
                            class: self.target_class.clone(),
                            winning,
                            others,
                        },
                    );
                } else if property_object.data_types.len() == 1 {
                    shacl_property.datatype = Option::Some(property_object.data_types[0].clone());
                }
            },
            Option::None => {},
        }

        match item.get_field("restrictCollection") {
            Option::Some(v) => match v.as_str() {
                Option::Some(rc) => {
                    shacl_property.class = Option::Some(standardize_class_name(rc.as_str()));
                },
                Option::None => {},
            },
            Option::None => {},
        }

        proof {
            assert(shacl_property@ =~= constraint_for(old(property_object)@, item@));
        }
        self.property.push(shacl_property);
        proof {
            assert(final(self)@ =~= (ShaclShapeModel {
                property: old(self)@.property.push(
                    constraint_for(old(property_object)@, item@),
                ),
                ..old(self)@
            }));
            assert(final(property_object)@ =~= (PropertyModel {
                comment: comment_update(old(property_object)@, item@),
                ..old(property_object)@
            }));
        }
        result
    }
}

/// The strings of `v` other than the optional `out`, in order.
fn filter_out(v: &Vec<String>, out: &Option<String>) -> (r: Vec<String>)
    ensures
        r.deep_view() == v.deep_view().filter(
            |d: Seq<char>| Option::Some(d) != opt_string_view(*out),
        ),
{
    let mut r: Vec<String> = Vec::new();
    let n = v.len();
    let mut i: usize = 0;
    proof {
        assert(v.deep_view().take(0) =~= Seq::<Seq<char>>::empty());
        assert(Seq::<Seq<char>>::empty().filter(
            |d: Seq<char>| Option::Some(d) != opt_string_view(*out),
        ) =~= Seq::<Seq<char>>::empty());
    }
    while i < n
        invariant
            n == v@.len(),
            i <= n,
            r.deep_view() == v.deep_view().take(i as int).filter(
                |d: Seq<char>| Option::Some(d) != opt_string_view(*out),
            ),
        decreases n - i,
    {
        let keep: bool = match out {
            Option::Some(w) => !crate::json::str_eq(v[i].as_str(), w.as_str()),
            Option::None => true,
        };
        proof {
            reveal_with_fuel(Seq::filter, 2);
            assert(v.deep_view().take(i + 1).drop_last() =~= v.deep_view().take(i as int));
            assert(v.deep_view().take(i + 1).last() == v.deep_view()[i as int]);
        }
        if keep {
            r.push(v[i].clone());
        }
        proof {
            let f = |d: Seq<char>| Option::Some(d) != opt_string_view(*out);
            assert(v.deep_view().take(i + 1).filter(f) == v.deep_view().take(i as int).filter(f)
                + if f(v.deep_view()[i as int]) {
                    seq![v.deep_view()[i as int]]
                } else {
                    Seq::empty()
                });
            assert(r.deep_view() =~= v.deep_view().take(i + 1).filter(f));
        }
        i = i + 1;
    }
    proof {
        assert(v.deep_view().take(n as int) =~= v.deep_view());
    }
    r
}

/// Whether a vector of strings contains the given text.
pub fn contains_string(v: &Vec<String>, s: &str) -> (r: bool)
    ensures
        r == v.deep_view().contains(s@),
{
    let n = v.len();
    let mut i: usize = 0;
    while i < n
        invariant
            n == v@.len(),
            i <= n,
            forall|j: int| 0 <= j < i ==> v.deep_view()[j] != s@,
        decreases n - i,
    {
        if crate::json::str_eq(v[i].as_str(), s) {
            proof {
                assert(v.deep_view()[i as int] == s@);
            }
            return true;
        }
        i = i + 1;
    }
    proof {
        assert(forall|j: int| 0 <= j < v.deep_view().len() ==> v.deep_view()[j] != s@);
        if v.deep_view().contains(s@) {
            let j = choose|j: int| 0 <= j < v.deep_view().len() && v.deep_view()[j] == s@;
        }
    }
    false
}

} // verus!
