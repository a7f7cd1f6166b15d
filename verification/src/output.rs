//! Emission: the `@context` maps, the vocabulary document, and the sink
//! that accumulates transformed nodes into size-bounded data documents.

use vstd::prelude::*;

use crate::config::MigrateOptions;
use crate::display::{dec_rep, u64_to_string};
use crate::json::{json_view, json_view_entries, json_view_seq, JsonValue, SpecJson};
use crate::parser::{Parser, ParserModel};
use crate::schema::{
    opt_string_view, Class, ClassModel, Property, PropertyModel, ShaclProperty,
    ShaclPropertyModel, ShaclShape, ShaclShapeModel,
};

verus! {

/// A data document is flushed once this many bytes have accumulated.
pub const FLUSH_THRESHOLD: u64 = 2500000;

/// The `@context` of an emitted document, in insertion order: the base
/// and vocabulary entries by override or derived from the source URL,
/// the SHACL prefixes when shapes are emitted, and the fixed prefixes.
pub open spec fn context_spec(
    base: Option<Seq<char>>,
    vocab: Option<Seq<char>>,
    shacl: bool,
    url: Seq<char>,
    is_vocab: bool,
) -> Seq<(Seq<char>, Seq<char>)> {
    let terms = url + "/terms/"@;
    let ids = url + "/ids/"@;
    let head = match (base, vocab) {
        (Option::Some(b), Option::Some(v)) => if is_vocab {
            seq![("@base"@, v)]
        } else {
            seq![("@base"@, b), ("@vocab"@, v)]
        },
        (Option::Some(b), Option::None) => if is_vocab {
            seq![("@base"@, terms)]
        } else {
            seq![("@base"@, b), ("@vocab"@, terms)]
        },
        (Option::None, Option::Some(v)) => if is_vocab {
            seq![("@base"@, v)]
        } else {
            seq![("@base"@, ids), ("@vocab"@, v)]
        },
        (Option::None, Option::None) => if is_vocab {
            seq![("@base"@, terms)]
        } else {
            seq![("@base"@, ids), ("@vocab"@, terms)]
        },
    };
    let with_shacl = if shacl {
        head + seq![
            ("sh"@, "http://www.w3.org/ns/shacl#"@),
            ("xsd"@, "http://www.w3.org/2001/XMLSchema#"@),
        ]
    } else {
        head
    };
    with_shacl + seq![
        ("rdfs"@, "http://www.w3.org/2000/01/rdf-schema#"@),
        ("rdf"@, "http://www.w3.org/1999/02/22-rdf-syntax-ns#"@),
        ("f"@, "https://ns.flur.ee/ledger#"@),
    ]
}

fn push_pair(out: &mut Vec<(String, String)>, k: &str, v: String)
    ensures
        final(out)@.len() == old(out)@.len() + 1,
        final(out).deep_view() =~= old(out).deep_view().push((k@, v@)),
{
    out.push((k.to_owned(), v));
    proof {
        assert(final(out).deep_view() =~= old(out).deep_view().push((k@, v@)));
    }
}

/// Builds the `@context` of an emitted document: explicit base and
/// vocabulary overrides win, defaults derive from the source URL, and the
/// fixed prefixes close the map.
pub fn create_context(opt: &MigrateOptions, source_url: &str, is_vocab: bool) -> (r: Vec<
    (String, String),
>)
    ensures
        r.deep_view() == context_spec(
            opt_string_view(opt.base),
            opt_string_view(opt.vocab),
            opt.shacl,
            source_url@,
            is_vocab,
        ),
{
    let mut context: Vec<(String, String)> = Vec::new();
    let terms = {
        let mut t = source_url.to_owned();
        t.append("/terms/");
        t
    };
    let ids = {
        let mut t = source_url.to_owned();
        t.append("/ids/");
        t
    };
    match (&opt.base, &opt.vocab) {
        (Option::Some(b), Option::Some(v)) => {
            if is_vocab {
                push_pair(&mut context, "@base", v.clone());
            } else {
                push_pair(&mut context, "@base", b.clone());
                push_pair(&mut context, "@vocab", v.clone());
            }
        },
        (Option::Some(b), Option::None) => {
            if is_vocab {
                push_pair(&mut context, "@base", terms.clone());
            } else {
                push_pair(&mut context, "@base", b.clone());
                push_pair(&mut context, "@vocab", terms.clone());
            }
        },
        (Option::None, Option::Some(v)) => {
            if is_vocab {
                push_pair(&mut context, "@base", v.clone());
            } else {
                push_pair(&mut context, "@base", ids.clone());
                push_pair(&mut context, "@vocab", v.clone());
            }
        },
        (Option::None, Option::None) => {
            if is_vocab {
                push_pair(&mut context, "@base", terms.clone());
            } else {
                push_pair(&mut context, "@base", ids.clone());
                push_pair(&mut context, "@vocab", terms.clone());
            }
        },
    }
    if opt.shacl {
        push_pair(&mut context, "sh", "http://www.w3.org/ns/shacl#".to_owned());
        push_pair(&mut context, "xsd", "http://www.w3.org/2001/XMLSchema#".to_owned());
    }
    push_pair(&mut context, "rdfs", "http://www.w3.org/2000/01/rdf-schema#".to_owned());
    push_pair(&mut context, "rdf", "http://www.w3.org/1999/02/22-rdf-syntax-ns#".to_owned());
    push_pair(&mut context, "f", "https://ns.flur.ee/ledger#".to_owned());
    proof {
        assert(context.deep_view() =~= context_spec(
            opt_string_view(opt.base),
            opt_string_view(opt.vocab),
            opt.shacl,
            source_url@,
            is_vocab,
        ));
    }
    context
}

/// The data-document context.
pub fn create_data_context(opt: &MigrateOptions, source_url: &str) -> (r: Vec<(String, String)>)
    ensures
        r.deep_view() == context_spec(
            opt_string_view(opt.base),
            opt_string_view(opt.vocab),
            opt.shacl,
            source_url@,
            false,
        ),
{
    create_context(opt, source_url, false)
}

/// The vocabulary-document context.
pub fn create_vocab_context(opt: &MigrateOptions, source_url: &str) -> (r: Vec<(String, String)>)
    ensures
        r.deep_view() == context_spec(
            opt_string_view(opt.base),
            opt_string_view(opt.vocab),
            opt.shacl,
            source_url@,
            true,
        ),
{
    create_context(opt, source_url, true)
}

/// The ledger a document targets: the override, or `network/db`.
pub open spec fn ledger_name_spec(
    override_name: Option<Seq<char>>,
    network: Seq<char>,
    db: Seq<char>,
) -> Seq<char> {
    match override_name {
        Option::Some(l) => l,
        Option::None => network + "/"@ + db,
    }
}

/// Resolves the ledger name for emitted documents.
pub fn resolve_ledger_name(override_name: &Option<String>, network: &str, db: &str) -> (r: String)
    ensures
        r@ == ledger_name_spec(opt_string_view(*override_name), network@, db@),
{
    match override_name {
        Option::Some(l) => {
            proof {
                assert(opt_string_view(*override_name) == Option::Some(l@));
            }
            String::clone(l)
        },
        Option::None => {
            let mut s = network.to_owned();
            s.append("/");
            s.append(db);
            s
        },
    }
}

/// A `{"@id": x}` reference object.
pub open spec fn id_ref_spec(x: Seq<char>) -> SpecJson {
    SpecJson::Obj(seq![("@id"@, SpecJson::Str(x))])
}

/// Reference objects for a list of identifiers.
pub open spec fn id_ref_seq(xs: Seq<Seq<char>>) -> Seq<SpecJson> {
    xs.map_values(|x: Seq<char>| id_ref_spec(x))
}

/// Appends one object entry, extending the object model by its view.
fn push_entry(entries: &mut Vec<(String, JsonValue)>, k: &str, v: JsonValue)
    ensures
        json_view_entries(final(entries)@) == json_view_entries(old(entries)@).push(
            (k@, v@),
        ),
{
    let ghost prev = entries@;
    let ghost prev_model = json_view_entries(entries@);
    entries.push((k.to_owned(), v));
    proof {
        assert(entries@.drop_last() =~= prev);
        lemma_entries_model(entries@);
        lemma_entries_model(prev);
        assert(json_view_entries(entries@) =~= prev_model.push(
            (k@, json_view(entries@.last().1)),
        ));
    }
}

fn id_ref(x: &str) -> (r: JsonValue)
    ensures
        r@ == id_ref_spec(x@),
{
    let mut entries: Vec<(String, JsonValue)> = Vec::new();
    entries.push(("@id".to_owned(), JsonValue::Str(x.to_owned())));
    let r = JsonValue::Obj(entries);
    proof {
        crate::json::lemma_json_view_entries_len(r->Obj_0@);
        crate::json::lemma_json_view_entries_index(r->Obj_0@, 0);
        assert(r@->Obj_0 =~= id_ref_spec(x@)->Obj_0);
    }
    r
}

fn id_ref_array(xs: &Vec<String>) -> (r: JsonValue)
    ensures
        r@ == SpecJson::Arr(id_ref_seq(xs.deep_view())),
{
    let n = xs.len();
    let mut out: Vec<JsonValue> = Vec::new();
    let mut i: usize = 0;
    while i < n
        invariant
            n == xs@.len(),
            i <= n,
            out@.len() == i,
            forall|j: int|
                0 <= j < i ==> json_view(#[trigger] out@[j]) == id_ref_spec(xs@[j]@),
        decreases n - i,
    {
        out.push(id_ref(xs[i].as_str()));
        i = i + 1;
    }
    let r = JsonValue::Arr(out);
    proof {
        crate::json::lemma_json_view_seq_len(r->Arr_0@);
        assert forall|j: int| 0 <= j < n implies json_view_seq(r->Arr_0@)[j] == id_ref_seq(
            xs.deep_view(),
        )[j] by {
            crate::json::lemma_json_view_seq_index(r->Arr_0@, j);
        }
        assert(r@->Arr_0 =~= id_ref_seq(xs.deep_view()));
    }
    r
}

/// The vocabulary entry of a class: identifier, type, label, optional
/// comment and superclasses, and its property range as references.
pub open spec fn class_json_spec(c: ClassModel) -> SpecJson {
    let base = seq![
        ("@id"@, SpecJson::Str(c.id)),
        ("@type"@, SpecJson::Str(c.node_type)),
        ("rdfs:label"@, SpecJson::Str(c.label)),
    ];
    let with_comment = match c.comment {
        Option::Some(t) => base.push(("rdfs:comment"@, SpecJson::Str(t))),
        Option::None => base,
    };
    let with_sub = match c.sub_class_of {
        Option::Some(xs) => with_comment.push(
            ("rdfs:subClassOf"@, SpecJson::Arr(id_ref_seq(xs))),
        ),
        Option::None => with_comment,
    };
    SpecJson::Obj(with_sub.push(("rdfs:range"@, SpecJson::Arr(id_ref_seq(c.range)))))
}

/// Renders one class for the vocabulary document.
pub fn class_to_json(c: &Class) -> (r: JsonValue)
    ensures
        r@ == class_json_spec(c@),
{
    let mut entries: Vec<(String, JsonValue)> = Vec::new();
    proof {
        assert(json_view_entries(entries@) =~= Seq::<(Seq<char>, SpecJson)>::empty());
    }
    push_entry(&mut entries, "@id", JsonValue::Str(c.id.clone()));
    push_entry(&mut entries, "@type", JsonValue::Str(c.type_.clone()));
    push_entry(&mut entries, "rdfs:label", JsonValue::Str(c.label.clone()));
    proof {
        assert(json_view_entries(entries@) =~= seq![
            ("@id"@, SpecJson::Str(c@.id)),
            ("@type"@, SpecJson::Str(c@.node_type)),
            ("rdfs:label"@, SpecJson::Str(c@.label)),
        ]);
    }
    match &c.comment {
        Option::Some(t) => {
            push_entry(&mut entries, "rdfs:comment", JsonValue::Str(t.clone()));
        },
        Option::None => {},
    }
    match &c.sub_class_of {
        Option::Some(xs) => {
            push_entry(&mut entries, "rdfs:subClassOf", id_ref_array(xs));
        },
        Option::None => {},
    }
    push_entry(&mut entries, "rdfs:range", id_ref_array(&c.range));
    let r = JsonValue::Obj(entries);
    proof {
        assert(r@ == class_json_spec(c@));
    }
    r
}

/// The vocabulary entry of a property: identifier, type, label, comment,
/// and its domain classes as references.
pub open spec fn property_json_spec(p: PropertyModel) -> SpecJson {
    SpecJson::Obj(
        seq![
            ("@id"@, SpecJson::Str(p.id)),
            ("@type"@, SpecJson::Str(p.node_type)),
            ("rdfs:label"@, SpecJson::Str(p.label)),
            ("rdfs:comment"@, SpecJson::Str(p.comment)),
            ("rdfs:domain"@, SpecJson::Arr(id_ref_seq(p.domain))),
        ],
    )
}

/// Renders one property for the vocabulary document; the datatype set is
/// internal and not emitted.
pub fn property_to_json(p: &Property) -> (r: JsonValue)
    ensures
        r@ == property_json_spec(p@),
{
    let mut entries: Vec<(String, JsonValue)> = Vec::new();
    proof {
        assert(json_view_entries(entries@) =~= Seq::<(Seq<char>, SpecJson)>::empty());
    }
    push_entry(&mut entries, "@id", JsonValue::Str(p.id.clone()));
    push_entry(&mut entries, "@type", JsonValue::Str(p.type_.clone()));
    push_entry(&mut entries, "rdfs:label", JsonValue::Str(p.label.clone()));
    push_entry(&mut entries, "rdfs:comment", JsonValue::Str(p.comment.clone()));
    push_entry(&mut entries, "rdfs:domain", id_ref_array(&p.domain));
    let r = JsonValue::Obj(entries);
    proof {
        assert(r@->Obj_0 =~= property_json_spec(p@)->Obj_0);
        assert(r@ == property_json_spec(p@));
    }
    r
}

/// One shape constraint: its path always, then the optional class
/// restriction, counts and datatype; empty text fields are left out.
pub open spec fn shacl_property_json_spec(p: ShaclPropertyModel) -> SpecJson {
    let s0 = Seq::<(Seq<char>, SpecJson)>::empty();
    let s1 = if p.id.len() > 0 {
        s0.push(("@id"@, SpecJson::Str(p.id)))
    } else {
        s0
    };
    let s2 = if p.node_type.len() > 0 {
        s1.push(("@type"@, SpecJson::Str(p.node_type)))
    } else {
        s1
    };
    let s3 = if p.label.len() > 0 {
        s2.push(("rdfs:label"@, SpecJson::Str(p.label)))
    } else {
        s2
    };
    let s4 = if p.comment.len() > 0 {
        s3.push(("rdfs:comment"@, SpecJson::Str(p.comment)))
    } else {
        s3
    };
    let s5 = s4.push(("sh:path"@, id_ref_spec(p.path)));
    let s6 = match p.class {
        Option::Some(c) => s5.push(("sh:class"@, id_ref_spec(c))),
        Option::None => s5,
    };
    let s7 = match p.min_count {
        Option::Some(n) => s6.push(("sh:minCount"@, SpecJson::Int(n as int))),
        Option::None => s6,
    };
    let s8 = match p.max_count {
        Option::Some(n) => s7.push(("sh:maxCount"@, SpecJson::Int(n as int))),
        Option::None => s7,
    };
    let s9 = match p.datatype {
        Option::Some(d) => s8.push(("sh:datatype"@, id_ref_spec(d))),
        Option::None => s8,
    };
    let s10 = if p.node_kind.len() > 0 {
        s9.push(("sh:nodeKind"@, SpecJson::Str(p.node_kind)))
    } else {
        s9
    };
    SpecJson::Obj(
        if p.pattern.len() > 0 {
            s10.push(("sh:pattern"@, SpecJson::Str(p.pattern)))
        } else {
            s10
        },
    )
}

/// Renders one shape constraint.
pub fn shacl_property_to_json(p: &ShaclProperty) -> (r: JsonValue)
    ensures
        r@ == shacl_property_json_spec(p@),
{
    let mut entries: Vec<(String, JsonValue)> = Vec::new();
    proof {
        assert(json_view_entries(entries@) =~= Seq::<(Seq<char>, SpecJson)>::empty());
    }
    if p.id.unicode_len() > 0 {
        push_entry(&mut entries, "@id", JsonValue::Str(p.id.clone()));
    }
    if p.type_.unicode_len() > 0 {
        push_entry(&mut entries, "@type", JsonValue::Str(p.type_.clone()));
    }
    if p.label.unicode_len() > 0 {
        push_entry(&mut entries, "rdfs:label", JsonValue::Str(p.label.clone()));
    }
    if p.comment.unicode_len() > 0 {
        push_entry(&mut entries, "rdfs:comment", JsonValue::Str(p.comment.clone()));
    }
    push_entry(&mut entries, "sh:path", id_ref(p.path.as_str()));
    match &p.class {
        Option::Some(c) => {
            push_entry(&mut entries, "sh:class", id_ref(c.as_str()));
        },
        Option::None => {},
    }
    match p.min_count {
        Option::Some(n) => {
            push_entry(&mut entries, "sh:minCount", JsonValue::Int(n as i64));
        },
        Option::None => {},
    }
    match p.max_count {
        Option::Some(n) => {
            push_entry(&mut entries, "sh:maxCount", JsonValue::Int(n as i64));
        },
        Option::None => {},
    }
    match &p.datatype {
        Option::Some(d) => {
            push_entry(&mut entries, "sh:datatype", id_ref(d.as_str()));
        },
        Option::None => {},
    }
    if p.node_kind.unicode_len() > 0 {
        push_entry(&mut entries, "sh:nodeKind", JsonValue::Str(p.node_kind.clone()));
    }
    if p.pattern.unicode_len() > 0 {
        push_entry(&mut entries, "sh:pattern", JsonValue::Str(p.pattern.clone()));
    }
    let r = JsonValue::Obj(entries);
    proof {
        assert(r@ == shacl_property_json_spec(p@));
    }
    r
}

/// A node shape: type, target class, its constraints, the closed flag and
/// ignored properties when present.
pub open spec fn shacl_shape_json_spec(s: ShaclShapeModel) -> SpecJson {
    let s0 = Seq::<(Seq<char>, SpecJson)>::empty();
    let s1 = if s.id.len() > 0 {
        s0.push(("@id"@, SpecJson::Str(s.id)))
    } else {
        s0
    };
    let s2 = s1.push(("@type"@, SpecJson::Str(s.node_type)));
    let s3 = s2.push(("sh:targetClass"@, id_ref_spec(s.target_class)));
    let s4 = if s.target_property.len() > 0 {
        s3.push(("sh:targetProperty"@, SpecJson::Str(s.target_property)))
    } else {
        s3
    };
    let s5 = s4.push(
        (
            "sh:property"@,
            SpecJson::Arr(s.property.map_values(|p: ShaclPropertyModel| shacl_property_json_spec(p))),
        ),
    );
    let s6 = if s.datatype.len() > 0 {
        s5.push(("sh:datatype"@, SpecJson::Str(s.datatype)))
    } else {
        s5
    };
    let s7 = if s.node_kind.len() > 0 {
        s6.push(("sh:nodeKind"@, SpecJson::Str(s.node_kind)))
    } else {
        s6
    };
    let s8 = match s.closed {
        Option::Some(b) => s7.push(("sh:closed"@, SpecJson::Bool(b))),
        Option::None => s7,
    };
    SpecJson::Obj(
        if s.ignored_properties.len() > 0 {
            s8.push(("sh:ignoredProperties"@, SpecJson::Arr(id_ref_seq(s.ignored_properties))))
        } else {
            s8
        },
    )
}

/// Renders one node shape for the vocabulary document.
pub fn shacl_shape_to_json(s: &ShaclShape) -> (r: JsonValue)
    ensures
        r@ == shacl_shape_json_spec(s@),
{
    let mut entries: Vec<(String, JsonValue)> = Vec::new();
    proof {
        assert(json_view_entries(entries@) =~= Seq::<(Seq<char>, SpecJson)>::empty());
    }
    if s.id.unicode_len() > 0 {
        push_entry(&mut entries, "@id", JsonValue::Str(s.id.clone()));
    }
    push_entry(&mut entries, "@type", JsonValue::Str(s.type_.clone()));
    push_entry(&mut entries, "sh:targetClass", id_ref(s.target_class.as_str()));
    if s.target_property.unicode_len() > 0 {
        push_entry(&mut entries, "sh:targetProperty", JsonValue::Str(s.target_property.clone()));
    }
    let n = s.property.len();
    let mut constraints: Vec<JsonValue> = Vec::new();
    let mut i: usize = 0;
    while i < n
        invariant
            n == s.property@.len(),
            i <= n,
            constraints@.len() == i,
            forall|j: int|
                0 <= j < i ==> json_view(#[trigger] constraints@[j]) == shacl_property_json_spec(
                    s.property@[j]@,
                ),
        decreases n - i,
    {
        constraints.push(shacl_property_to_json(&s.property[i]));
        i = i + 1;
    }
    let constraints_value = JsonValue::Arr(constraints);
    proof {
        crate::json::lemma_json_view_seq_len(constraints_value->Arr_0@);
        assert forall|j: int| 0 <= j < n implies json_view_seq(constraints_value->Arr_0@)[j]
            == s@.property.map_values(|p: ShaclPropertyModel| shacl_property_json_spec(p))[j] by {
            crate::json::lemma_json_view_seq_index(constraints_value->Arr_0@, j);
            assert(s@.property[j] == s.property@[j]@);
        }
        assert(constraints_value@->Arr_0 =~= s@.property.map_values(
            |p: ShaclPropertyModel| shacl_property_json_spec(p),
        ));
    }
    push_entry(&mut entries, "sh:property", constraints_value);
    if s.datatype.unicode_len() > 0 {
        push_entry(&mut entries, "sh:datatype", JsonValue::Str(s.datatype.clone()));
    }
    if s.node_kind.unicode_len() > 0 {
        push_entry(&mut entries, "sh:nodeKind", JsonValue::Str(s.node_kind.clone()));
    }
    match s.closed {
        Option::Some(b) => {
            push_entry(&mut entries, "sh:closed", JsonValue::Bool(b));
        },
        Option::None => {},
    }
    if s.ignored_properties.len() > 0 {
        push_entry(&mut entries, "sh:ignoredProperties", id_ref_array(&s.ignored_properties));
    }
    let r = JsonValue::Obj(entries);
    proof {
        assert(r@ == shacl_shape_json_spec(s@));
    }
    r
}

/// A context map as object entries: each value becomes JSON text.
pub open spec fn context_entries(ctx: Seq<(Seq<char>, Seq<char>)>) -> Seq<(Seq<char>, SpecJson)> {
    ctx.map_values(|p: (Seq<char>, Seq<char>)| (p.0, SpecJson::Str(p.1)))
}

/// Renders a context map as a JSON object.
fn context_to_json(ctx: &Vec<(String, String)>) -> (r: JsonValue)
    ensures
        r@ == SpecJson::Obj(context_entries(ctx.deep_view())),
{
    let n = ctx.len();
    let mut entries: Vec<(String, JsonValue)> = Vec::new();
    let mut i: usize = 0;
    while i < n
        invariant
            n == ctx@.len(),
            i <= n,
            entries@.len() == i,
            forall|j: int| 0 <= j < i ==> (#[trigger] entries@[j]).0@ == ctx@[j].0@,
            forall|j: int|
                0 <= j < i ==> json_view((#[trigger] entries@[j]).1) == SpecJson::Str(
                    ctx@[j].1@,
                ),
        decreases n - i,
    {
        let pair = &ctx[i];
        entries.push((pair.0.clone(), JsonValue::Str(pair.1.clone())));
        i = i + 1;
    }
    let r = JsonValue::Obj(entries);
    proof {
        lemma_entries_model(r->Obj_0@);
        assert(r@->Obj_0 =~= context_entries(ctx.deep_view()));
    }
    r
}

/// The vocabulary rendering of each stored class, in registry order.
pub open spec fn classes_json(classes: Seq<(Seq<char>, ClassModel)>) -> Seq<SpecJson> {
    classes.map_values(|e: (Seq<char>, ClassModel)| class_json_spec(e.1))
}

/// The vocabulary rendering of each stored property, in registry order.
pub open spec fn properties_json(properties: Seq<(Seq<char>, PropertyModel)>) -> Seq<SpecJson> {
    properties.map_values(|e: (Seq<char>, PropertyModel)| property_json_spec(e.1))
}

/// The vocabulary rendering of each stored shape, in registry order.
pub open spec fn shapes_json(shapes: Seq<(Seq<char>, ShaclShapeModel)>) -> Seq<SpecJson> {
    shapes.map_values(|e: (Seq<char>, ShaclShapeModel)| shacl_shape_json_spec(e.1))
}

/// The vocabulary document's node array: every class, every property,
/// and, when requested, every shape, in registry order.
pub open spec fn vocab_entries(m: ParserModel, shacl: bool) -> Seq<SpecJson> {
    if shacl {
        classes_json(m.classes) + properties_json(m.properties) + shapes_json(m.shacl_shapes)
    } else {
        classes_json(m.classes) + properties_json(m.properties)
    }
}

/// The vocabulary document: ledger name, context, and the node array
/// under the `insert` key.
pub open spec fn vocab_document_spec(m: ParserModel, shacl: bool, ledger: Seq<char>) -> SpecJson {
    SpecJson::Obj(
        seq![
            ("ledger"@, SpecJson::Str(ledger)),
            ("@context"@, SpecJson::Obj(context_entries(m.vocab_context))),
            ("insert"@, SpecJson::Arr(vocab_entries(m, shacl))),
        ],
    )
}

impl Parser {
    /// Builds the vocabulary document: every canonical class and property
    /// (and every shape when `shacl` is set), under the registry's ledger
    /// name or its override, with the vocabulary context.
    #[verifier::loop_isolation(false)]
    pub fn get_vocab_json(&self, shacl: bool, ledger_name: &Option<String>) -> (r: JsonValue)
        ensures
            r@ == vocab_document_spec(
                self@,
                shacl,
                ledger_name_spec(
                    opt_string_view(*ledger_name),
                    self@.network_name,
                    self@.db_name,
                ),
            ),
    {
        let mut results: Vec<JsonValue> = Vec::new();
        let n_classes = self.classes.len();
        let mut i: usize = 0;
        while i < n_classes
            invariant
                i <= n_classes,
                results@.len() == i,
                forall|j: int|
                    0 <= j < i ==> json_view(#[trigger] results@[j]) == class_json_spec(
                        self.classes@[j].1@,
                    ),
            decreases n_classes - i,
        {
            results.push(class_to_json(&self.classes[i].1));
            i = i + 1;
        }
        let n_props = self.properties.len();
        let mut p: usize = 0;
        while p < n_props
            invariant
                p <= n_props,
                results@.len() == n_classes + p,
                forall|j: int|
                    0 <= j < n_classes ==> json_view(#[trigger] results@[j]) == class_json_spec(
                        self.classes@[j].1@,
                    ),
                forall|j: int|
                    n_classes <= j < n_classes + p ==> json_view(#[trigger] results@[j])
                        == property_json_spec(self.properties@[j - n_classes].1@),
            decreases n_props - p,
        {
            results.push(property_to_json(&self.properties[p].1));
            p = p + 1;
        }
        let n_shapes = self.shacl_shapes.len();
        if shacl {
            let mut q: usize = 0;
            while q < n_shapes
                invariant
                    q <= n_shapes,
                    results@.len() == n_classes + n_props + q,
                    forall|j: int|
                        0 <= j < n_classes ==> json_view(#[trigger] results@[j])
                            == class_json_spec(self.classes@[j].1@),
                    forall|j: int|
                        n_classes <= j < n_classes + n_props ==> json_view(
                            #[trigger] results@[j],
                        ) == property_json_spec(self.properties@[j - n_classes].1@),
                    forall|j: int|
                        n_classes + n_props <= j < n_classes + n_props + q ==> json_view(
                            #[trigger] results@[j],
                        ) == shacl_shape_json_spec(
                            self.shacl_shapes@[j - n_classes - n_props].1@,
                        ),
                decreases n_shapes - q,
            {
                results.push(shacl_shape_to_json(&self.shacl_shapes[q].1));
                q = q + 1;
            }
        }
        let results_value = JsonValue::Arr(results);
        proof {
            let m = self@;
            let classes_part = classes_json(m.classes);
            let properties_part = properties_json(m.properties);
            let shapes_part = shapes_json(m.shacl_shapes);
            crate::json::lemma_json_view_seq_len(results_value->Arr_0@);
            assert(classes_part.len() == n_classes);
            assert(properties_part.len() == n_props);
            assert(shapes_part.len() == n_shapes);
            assert(vocab_entries(m, shacl).len() == results_value->Arr_0@.len());
            assert forall|j: int|
                0 <= j < results_value->Arr_0@.len() implies #[trigger] json_view_seq(
                results_value->Arr_0@,
            )[j] == vocab_entries(self@, shacl)[j] by {
                crate::json::lemma_json_view_seq_index(results_value->Arr_0@, j);
                assert(json_view(results_value->Arr_0@[j]) == json_view(results@[j]));
                if shacl {
                    assert(vocab_entries(m, true) == classes_part + properties_part
                        + shapes_part);
                    if j < n_classes {
                        assert((classes_part + properties_part + shapes_part)[j]
                            == classes_part[j]);
                    } else if j < n_classes + n_props {
                        assert((classes_part + properties_part + shapes_part)[j]
                            == properties_part[j - n_classes]);
                    } else {
                        assert((classes_part + properties_part + shapes_part)[j]
                            == shapes_part[j - n_classes - n_props]);
                    }
                } else {
                    assert(vocab_entries(m, false) == classes_part + properties_part);
                    if j < n_classes {
                        assert((classes_part + properties_part)[j] == classes_part[j]);
                    } else {
                        assert((classes_part + properties_part)[j] == properties_part[j
                            - n_classes]);
                    }
                }
                if j < n_classes {
                    assert(m.classes[j] == (self.classes@[j].0@, self.classes@[j].1@));
                    assert(classes_part[j] == class_json_spec(self.classes@[j].1@));
                } else if j < n_classes + n_props {
                    assert(m.properties[j - n_classes] == (
                        self.properties@[j - n_classes].0@,
                        self.properties@[j - n_classes].1@,
                    ));
                    assert(properties_part[j - n_classes] == property_json_spec(
                        self.properties@[j - n_classes].1@,
                    ));
                } else {
                    assert(m.shacl_shapes[j - n_classes - n_props] == (
                        self.shacl_shapes@[j - n_classes - n_props].0@,
                        self.shacl_shapes@[j - n_classes - n_props].1@,
                    ));
                    assert(shapes_part[j - n_classes - n_props] == shacl_shape_json_spec(
                        self.shacl_shapes@[j - n_classes - n_props].1@,
                    ));
                }
            }
            assert(results_value@->Arr_0 =~= vocab_entries(self@, shacl));
        }

        let ledger = resolve_ledger_name(
            ledger_name,
            self.network_name.as_str(),
            self.db_name.as_str(),
        );
        let context_value = context_to_json(&self.vocab_context);
        let mut doc: Vec<(String, JsonValue)> = Vec::new();
        proof {
            assert(json_view_entries(doc@) =~= Seq::<(Seq<char>, SpecJson)>::empty());
        }
        push_entry(&mut doc, "ledger", JsonValue::Str(ledger));
        push_entry(&mut doc, "@context", context_value);
        push_entry(&mut doc, "insert", results_value);
        let r = JsonValue::Obj(doc);
        proof {
            assert(r@->Obj_0 =~= vocab_document_spec(
                self@,
                shacl,
                ledger_name_spec(
                    opt_string_view(*ledger_name),
                    self@.network_name,
                    self@.db_name,
                ),
            )->Obj_0);
        }
        r
    }
}

/// A data document: ledger name, context, and a node array under the
/// `insert` key.
pub open spec fn data_document_spec(
    ledger: Seq<char>,
    ctx: Seq<(Seq<char>, Seq<char>)>,
    nodes: Seq<SpecJson>,
) -> SpecJson {
    SpecJson::Obj(
        seq![
            ("ledger"@, SpecJson::Str(ledger)),
            ("@context"@, SpecJson::Obj(context_entries(ctx))),
            ("insert"@, SpecJson::Arr(nodes)),
        ],
    )
}

/// Accumulates transformed nodes and byte counts until a flush is due,
/// then hands out one numbered data document at a time.
pub struct OutputSink {
    /// The ledger every document targets.
    pub ledger_name: String,
    /// The context every data document carries.
    pub data_context: Vec<(String, String)>,
    /// Nodes accumulated since the last flush.
    pub nodes: Vec<JsonValue>,
    /// Bytes accumulated since the last flush.
    pub accumulated_size: u64,
    /// The number of the next data file, starting at one after the
    /// vocabulary document.
    pub file_num: u64,
}

impl OutputSink {
    /// A fresh sink; the first data document will be number one.
    pub fn new(ledger_name: String, data_context: Vec<(String, String)>) -> (r: OutputSink)
        ensures
            r.ledger_name@ == ledger_name@,
            r.data_context.deep_view() == data_context.deep_view(),
            r.nodes@.len() == 0,
            r.accumulated_size == 0,
            r.file_num == 1,
    {
        OutputSink {
            ledger_name,
            data_context,
            nodes: Vec::new(),
            accumulated_size: 0,
            file_num: 1,
        }
    }

    /// Adds one transformed node to the pending document.
    pub fn push_node(&mut self, node: JsonValue)
        ensures
            final(self).nodes@ == old(self).nodes@.push(node),
            final(self).accumulated_size == old(self).accumulated_size,
            final(self).file_num == old(self).file_num,
            final(self).ledger_name == old(self).ledger_name,
            final(self).data_context == old(self).data_context,
    {
        self.nodes.push(node);
    }

    /// Accounts one processed spill file's bytes toward the next flush.
    pub fn add_size(&mut self, bytes: u64)
        requires
            old(self).accumulated_size + bytes <= u64::MAX,
        ensures
            final(self).accumulated_size == old(self).accumulated_size + bytes,
            final(self).nodes == old(self).nodes,
            final(self).file_num == old(self).file_num,
            final(self).ledger_name == old(self).ledger_name,
            final(self).data_context == old(self).data_context,
    {
        self.accumulated_size = self.accumulated_size + bytes;
    }

    /// Whether enough has accumulated to emit a document now.
    pub fn should_flush(&self) -> (r: bool)
        ensures
            r == (self.accumulated_size > FLUSH_THRESHOLD),
    {
        self.accumulated_size > FLUSH_THRESHOLD
    }

    /// The file name of the next data document.
    pub fn data_file_name(&self) -> (r: String)
        ensures
            r@ == dec_rep(self.file_num as nat) + "_data.jsonld"@,
    {
        let mut s = u64_to_string(self.file_num);
        s.append("_data.jsonld");
        s
    }

    /// Takes the pending document, resetting the sink for the next one.
    /// A final document is taken even when no node is pending, so ledger
    /// and context metadata are still emitted.
    pub fn take_document(&mut self) -> (doc: JsonValue)
        requires
            old(self).file_num < u64::MAX,
        ensures
            doc@ == data_document_spec(
                old(self).ledger_name@,
                old(self).data_context.deep_view(),
                json_view_seq(old(self).nodes@),
            ),
            final(self).nodes@.len() == 0,
            final(self).accumulated_size == 0,
            final(self).file_num == old(self).file_num + 1,
            final(self).ledger_name == old(self).ledger_name,
            final(self).data_context == old(self).data_context,
    {
        let nodes = self.nodes.split_off(0);
        proof {
            assert(nodes@ =~= old(self).nodes@);
            assert(self.nodes@ =~= Seq::<JsonValue>::empty());
        }
        self.accumulated_size = 0;
        self.file_num = self.file_num + 1;
        let context_value = context_to_json(&self.data_context);
        let mut doc: Vec<(String, JsonValue)> = Vec::new();
        proof {
            assert(json_view_entries(doc@) =~= Seq::<(Seq<char>, SpecJson)>::empty());
        }
        push_entry(&mut doc, "ledger", JsonValue::Str(self.ledger_name.clone()));
        push_entry(&mut doc, "@context", context_value);
        push_entry(&mut doc, "insert", JsonValue::Arr(nodes));
        let r = JsonValue::Obj(doc);
        proof {
            assert(r@->Obj_0 =~= data_document_spec(
                old(self).ledger_name@,
                old(self).data_context.deep_view(),
                json_view_seq(old(self).nodes@),
            )->Obj_0);
        }
        r
    }
}

/// Where documents go; exactly one destination is active per run.
#[derive(Debug, PartialEq, Eq, Structural, Clone, Copy)]
pub enum OutputMode {
    /// Documents go to standard output.
    Print,
    /// Documents become numbered local files.
    Files,
    /// Documents are transacted to a remote target.
    Remote,
}

/// Picks the run's one destination: printing wins over a remote target,
/// which wins over local files.
pub fn select_output_mode(opt: &MigrateOptions) -> (r: OutputMode)
    ensures
        r == if opt.print {
            OutputMode::Print
        } else if opt.remote_target {
            OutputMode::Remote
        } else {
            OutputMode::Files
        },
{
    if opt.print {
        OutputMode::Print
    } else if opt.remote_target {
        OutputMode::Remote
    } else {
        OutputMode::Files
    }
}

/// The vocabulary document's file name; it sorts before every data file.
pub fn vocab_file_name() -> (r: String)
    ensures
        r@ == "0_vocab.jsonld"@,
{
    "0_vocab.jsonld".to_owned()
}

/// The page request for one class at one offset.
pub open spec fn data_query_spec(class_name: Seq<char>, offset: nat) -> Seq<char> {
    "{\"select\": [\"*\"], \"from\": \""@ + class_name
        + "\", \"opts\": {\"compact\": true, \"limit\": 5000, \"fuel\": 9999999999, \"offset\": "@
        + dec_rep(offset) + "}}"@
}

/// Builds the page request for one class at one offset.
pub fn build_data_query(class_name: &str, offset: u64) -> (r: String)
    ensures
        r@ == data_query_spec(class_name@, offset as nat),
{
    let mut s = "{\"select\": [\"*\"], \"from\": \"".to_owned();
    s.append(class_name);
    s.append(
        "\", \"opts\": {\"compact\": true, \"limit\": 5000, \"fuel\": 9999999999, \"offset\": ",
    );
    let num = u64_to_string(offset);
    s.append(num.as_str());
    s.append("}}");
    s
}

/// The two-part schema request: the built-in predicate ids and the full
/// current predicate records.
pub open spec fn schema_query_spec() -> Seq<char> {
    "{\"initial_predicates\": {\"select\": \"?pred\", \"where\": [[\"?pred\", \"_predicate/name\", \"?pN\"]], \"block\": 1, \"opts\": {\"limit\": 9999999}}, \"current_predicates\": {\"select\": {\"?pred\": [\"*\"]}, \"where\": [[\"?pred\", \"_predicate/name\", \"?pN\"]], \"opts\": {\"compact\": true, \"limit\": 9999999}}}"@
}

/// Builds the schema request issued once at the start of a run.
pub fn schema_query_text() -> (r: String)
    ensures
        r@ == schema_query_spec(),
{
    "{\"initial_predicates\": {\"select\": \"?pred\", \"where\": [[\"?pred\", \"_predicate/name\", \"?pN\"]], \"block\": 1, \"opts\": {\"limit\": 9999999}}, \"current_predicates\": {\"select\": {\"?pred\": [\"*\"]}, \"where\": [[\"?pred\", \"_predicate/name\", \"?pN\"]], \"opts\": {\"compact\": true, \"limit\": 9999999}}}".to_owned()
}

/// The object model of entries, pointwise.
proof fn lemma_entries_model(entries: Seq<(String, JsonValue)>)
    ensures
        json_view_entries(entries).len() == entries.len(),
        forall|j: int|
            0 <= j < entries.len() ==> #[trigger] json_view_entries(entries)[j] == (
                entries[j].0@,
                json_view(entries[j].1),
            ),
{
    crate::json::lemma_json_view_entries_len(entries);
    assert forall|j: int|
        0 <= j < entries.len() implies #[trigger] json_view_entries(entries)[j] == (
        entries[j].0@,
        json_view(entries[j].1),
    ) by {
        crate::json::lemma_json_view_entries_index(entries, j);
    }
}

} // verus!
