//! What canonicalization guarantees, proved over the two-pass folds: each
//! raw class name canonicalizes to exactly one class whose range lists its
//! referencing properties, and SHACL datatype constraints appear exactly
//! for properties whose accumulated datatype set is unambiguous, with one
//! conflict report per class that clashes.

use vstd::prelude::*;

use crate::json::SpecJson;
use crate::names::{class_name_spec, property_name_spec};
use crate::parser::{
    assoc_get, assoc_has, class_for, lemma_assoc_set, pass1_fold,
    pass1_fold_to, pass1_step, pass2_conflicts, pass2_conflicts_to, pass2_fold, pass2_fold_to,
    pass2_property_at_call, pass2_step, property_for, shape_for, step_conflict, ParserModel,
};
use crate::predicates::{pred_name, pred_type, predicate_ok, raw_class_of, raw_property_of};
use crate::schema::{
    comment_update, conflict_others, conflict_winning, constraint_for, datatype_conflict,
    initial_data_types, new_class_model, new_property_model, new_shacl_property_model,
    new_shacl_shape_model, normalize_type_spec, shacl_class_ref, shacl_max_count,
    updated_data_types, ClassModel, ConflictModel, PropertyModel, ShaclPropertyModel,
    ShaclShapeModel,
};

verus! {

/// The raw collection name a predicate belongs to.
pub open spec fn item_cname(it: SpecJson) -> Seq<char> {
    raw_class_of(pred_name(it).unwrap())
}

/// The raw property name of a predicate.
pub open spec fn item_pname(it: SpecJson) -> Seq<char> {
    raw_property_of(pred_name(it).unwrap())
}

/// The raw type tag of a predicate.
pub open spec fn item_tval(it: SpecJson) -> Seq<char> {
    pred_type(it).unwrap()
}

/// A registry with nothing in it.
pub open spec fn empty_registry(m: ParserModel) -> bool {
    &&& m.classes == Seq::<(Seq<char>, ClassModel)>::empty()
    &&& m.properties == Seq::<(Seq<char>, PropertyModel)>::empty()
    &&& m.shacl_shapes == Seq::<(Seq<char>, ShaclShapeModel)>::empty()
}

/// Every predicate of the list is well formed.
pub open spec fn all_ok(items: Seq<SpecJson>) -> bool {
    forall|i: int| 0 <= i < items.len() ==> predicate_ok(#[trigger] items[i])
}

/// Whether some predicate of the list uses this raw collection name.
pub open spec fn has_class(items: Seq<SpecJson>, cname: Seq<char>) -> bool {
    exists|i: int| 0 <= i < items.len() && item_cname(#[trigger] items[i]) == cname
}

/// Whether some predicate of the list uses this raw property name.
pub open spec fn has_property(items: Seq<SpecJson>, pname: Seq<char>) -> bool {
    exists|i: int| 0 <= i < items.len() && item_pname(#[trigger] items[i]) == pname
}

/// The datatype set a property accumulates over a predicate list: the
/// normalized tag of each predicate carrying the property name, unioned
/// in encounter order.
pub open spec fn types_acc(items: Seq<SpecJson>, pname: Seq<char>) -> Seq<Seq<char>>
    decreases items.len(),
{
    if items.len() == 0 {
        Seq::empty()
    } else {
        let prev = types_acc(items.drop_last(), pname);
        if item_pname(items.last()) == pname {
            updated_data_types(prev, item_tval(items.last()))
        } else {
            prev
        }
    }
}

/// After the first pass: a class exists exactly for each raw collection
/// name processed, freshly canonicalized.
pub open spec fn class_inv(
    classes: Seq<(Seq<char>, ClassModel)>,
    processed: Seq<SpecJson>,
) -> bool {
    forall|c: Seq<char>|
        #[trigger] assoc_get(classes, c) == if has_class(processed, c) {
            Option::Some(new_class_model(class_name_spec(c)))
        } else {
            Option::<ClassModel>::None
        }
}

/// The canonical property node for a raw property name, as pass one
/// shapes it, with a given datatype set.
pub open spec fn canonical_property_model(pname: Seq<char>, dts: Seq<Seq<char>>) -> PropertyModel {
    PropertyModel { data_types: dts, ..new_property_model(pname, "tag"@) }
}

/// After the first pass: a property exists exactly for each raw property
/// name processed, carrying the datatypes accumulated so far.
pub open spec fn prop_inv(
    properties: Seq<(Seq<char>, PropertyModel)>,
    processed: Seq<SpecJson>,
) -> bool {
    forall|p: Seq<char>|
        #[trigger] assoc_get(properties, p) == if has_property(processed, p) {
            Option::Some(canonical_property_model(p, types_acc(processed, p)))
        } else {
            Option::<PropertyModel>::None
        }
}

/// `has_class` over one more predicate.
proof fn lemma_has_class_snoc(items: Seq<SpecJson>, k: int, c: Seq<char>)
    requires
        0 <= k < items.len(),
    ensures
        has_class(items.take(k + 1), c) <==> (has_class(items.take(k), c) || item_cname(
            items[k],
        ) == c),
{
    let a = items.take(k + 1);
    let b = items.take(k);
    if has_class(a, c) {
        let i = choose|i: int| 0 <= i < a.len() && item_cname(a[i]) == c;
        if i < k {
            assert(b[i] == a[i]);
            assert(has_class(b, c));
        } else {
            assert(a[i] == items[k]);
        }
    }
    if has_class(b, c) {
        let i = choose|i: int| 0 <= i < b.len() && item_cname(b[i]) == c;
        assert(a[i] == b[i]);
        assert(has_class(a, c));
    }
    if item_cname(items[k]) == c {
        assert(a[k] == items[k]);
        assert(has_class(a, c));
    }
}

/// `has_property` over one more predicate.
proof fn lemma_has_property_snoc(items: Seq<SpecJson>, k: int, p: Seq<char>)
    requires
        0 <= k < items.len(),
    ensures
        has_property(items.take(k + 1), p) <==> (has_property(items.take(k), p) || item_pname(
            items[k],
        ) == p),
{
    let a = items.take(k + 1);
    let b = items.take(k);
    if has_property(a, p) {
        let i = choose|i: int| 0 <= i < a.len() && item_pname(a[i]) == p;
        if i < k {
            assert(b[i] == a[i]);
            assert(has_property(b, p));
        } else {
            assert(a[i] == items[k]);
        }
    }
    if has_property(b, p) {
        let i = choose|i: int| 0 <= i < b.len() && item_pname(b[i]) == p;
        assert(a[i] == b[i]);
        assert(has_property(a, p));
    }
    if item_pname(items[k]) == p {
        assert(a[k] == items[k]);
        assert(has_property(a, p));
    }
}

/// `types_acc` over one more predicate.
proof fn lemma_types_acc_snoc(items: Seq<SpecJson>, k: int, p: Seq<char>)
    requires
        0 <= k < items.len(),
    ensures
        types_acc(items.take(k + 1), p) == if item_pname(items[k]) == p {
            updated_data_types(types_acc(items.take(k), p), item_tval(items[k]))
        } else {
            types_acc(items.take(k), p)
        },
{
    let a = items.take(k + 1);
    assert(a.drop_last() =~= items.take(k));
    assert(a.last() == items[k]);
    assert(a.len() == k + 1);
}

/// A property name never processed accumulates nothing.
proof fn lemma_types_acc_absent(items: Seq<SpecJson>, p: Seq<char>)
    requires
        !has_property(items, p),
    ensures
        types_acc(items, p) == Seq::<Seq<char>>::empty(),
    decreases items.len(),
{
    if items.len() > 0 {
        assert(item_pname(items.last()) != p) by {
            assert(items[items.len() - 1] == items.last());
        }
        assert(!has_property(items.drop_last(), p)) by {
            if has_property(items.drop_last(), p) {
                let i = choose|i: int|
                    0 <= i < items.drop_last().len() && item_pname(items.drop_last()[i]) == p;
                assert(items[i] == items.drop_last()[i]);
            }
        }
        lemma_types_acc_absent(items.drop_last(), p);
    }
}

/// A datatype set keeps its members when another tag is unioned in.
proof fn lemma_updated_contains(dts: Seq<Seq<char>>, t: Seq<char>, d: Seq<char>)
    requires
        dts.contains(d),
    ensures
        updated_data_types(dts, t).contains(d),
{
    match normalize_type_spec(t) {
        Option::Some(x) => {
            if !dts.contains(x) {
                let j = choose|j: int| 0 <= j < dts.len() && dts[j] == d;
                assert(dts.push(x)[j] == d);
            }
        },
        Option::None => {},
    }
}

/// A predicate's own normalized tag is in its property's accumulated set.
proof fn lemma_type_in_acc(items: Seq<SpecJson>, i: int)
    requires
        0 <= i < items.len(),
    ensures
        match normalize_type_spec(item_tval(items[i])) {
            Option::Some(d) => types_acc(items, item_pname(items[i])).contains(d),
            Option::None => true,
        },
    decreases items.len(),
{
    let p = item_pname(items[i]);
    match normalize_type_spec(item_tval(items[i])) {
        Option::Some(d) => {
            if i == items.len() - 1 {
                assert(items.last() == items[i]);
                let prev = types_acc(items.drop_last(), p);
                match normalize_type_spec(item_tval(items.last())) {
                    Option::Some(x) => {
                        if prev.contains(x) {
                        } else {
                            assert(prev.push(x).last() == x);
                            assert(prev.push(x).contains(x));
                        }
                    },
                    Option::None => {},
                }
            } else {
                assert(items.drop_last()[i] == items[i]);
                lemma_type_in_acc(items.drop_last(), i);
                if item_pname(items.last()) == p {
                    lemma_updated_contains(
                        types_acc(items.drop_last(), p),
                        item_tval(items.last()),
                        d,
                    );
                }
            }
        },
        Option::None => {},
    }
}

/// Unioning a tag whose normalization is already in the set, or has none,
/// changes nothing.
proof fn lemma_updated_noop(dts: Seq<Seq<char>>, t: Seq<char>)
    requires
        match normalize_type_spec(t) {
            Option::Some(d) => dts.contains(d),
            Option::None => true,
        },
    ensures
        updated_data_types(dts, t) == dts,
{
}

/// The first pass, characterized: starting from an empty registry it
/// creates exactly one class per raw collection name and one property per
/// raw property name, the property's datatype set accumulating every
/// processed tag; shapes are untouched and keys stay distinct.
pub proof fn lemma_pass1(m0: ParserModel, items: Seq<SpecJson>, k: int)
    requires
        empty_registry(m0),
        all_ok(items),
        0 <= k <= items.len(),
    ensures
        class_inv(pass1_fold_to(m0, items, k).classes, items.take(k)),
        prop_inv(pass1_fold_to(m0, items, k).properties, items.take(k)),
        pass1_fold_to(m0, items, k).shacl_shapes == m0.shacl_shapes,
        pass1_fold_to(m0, items, k).wf(),
        pass1_fold_to(m0, items, k).vocab_context == m0.vocab_context,
        pass1_fold_to(m0, items, k).data_context == m0.data_context,
        pass1_fold_to(m0, items, k).network_name == m0.network_name,
        pass1_fold_to(m0, items, k).db_name == m0.db_name,
    decreases k,
{
    if k == 0 {
        assert(items.take(0) =~= Seq::<SpecJson>::empty());
        assert forall|c: Seq<char>| !has_class(items.take(0), c) by {}
        assert(class_inv(m0.classes, items.take(0)));
        assert(prop_inv(m0.properties, items.take(0)));
    } else {
        lemma_pass1(m0, items, k - 1);
        let prev = pass1_fold_to(m0, items, k - 1);
        let cur = pass1_fold_to(m0, items, k);
        let it = items[k - 1];
        assert(cur == pass1_step(prev, it));
        assert(predicate_ok(it));
        let cname = item_cname(it);
        let pname = item_pname(it);
        let tval = item_tval(it);

        let new_class = class_for(prev.classes, cname);
        lemma_assoc_set(prev.classes, cname, new_class);
        assert forall|c: Seq<char>|
            #[trigger] assoc_get(cur.classes, c) == (if has_class(items.take(k), c) {
                Option::Some(new_class_model(class_name_spec(c)))
            } else {
                Option::<ClassModel>::None
            }) by {
            lemma_has_class_snoc(items, k - 1, c);
            if c == cname {
                assert(assoc_get(cur.classes, c) == Option::Some(new_class));
                if has_class(items.take(k - 1), c) {
                    assert(new_class == new_class_model(class_name_spec(c)));
                } else {
                    assert(assoc_get(prev.classes, cname) is None);
                    assert(new_class == new_class_model(class_name_spec(c)));
                }
            } else {
                assert(assoc_get(cur.classes, c) == assoc_get(prev.classes, c));
            }
        }

        let new_prop = property_for(prev.properties, pname, tval);
        lemma_assoc_set(prev.properties, pname, new_prop);
        assert forall|p: Seq<char>|
            #[trigger] assoc_get(cur.properties, p) == (if has_property(items.take(k), p) {
                Option::Some(canonical_property_model(p, types_acc(items.take(k), p)))
            } else {
                Option::<PropertyModel>::None
            }) by {
            lemma_has_property_snoc(items, k - 1, p);
            lemma_types_acc_snoc(items, k - 1, p);
            if p == pname {
                assert(assoc_get(cur.properties, p) == Option::Some(new_prop));
                if has_property(items.take(k - 1), p) {
                    assert(new_prop =~= canonical_property_model(p, types_acc(items.take(k), p)));
                } else {
                    assert(assoc_get(prev.properties, pname) is None);
                    assert(types_acc(items.take(k - 1), p) == Seq::<Seq<char>>::empty()) by {
                        lemma_types_acc_absent(items.take(k - 1), p);
                    }
                    assert(initial_data_types(tval) =~= updated_data_types(
                        Seq::<Seq<char>>::empty(),
                        tval,
                    ));
                    assert(new_prop =~= canonical_property_model(p, types_acc(items.take(k), p)));
                }
            } else {
                assert(assoc_get(cur.properties, p) == assoc_get(prev.properties, p));
            }
        }
    }
}

/// The predicates referencing one raw collection name, in order.
pub open spec fn class_items(items: Seq<SpecJson>, cname: Seq<char>) -> Seq<SpecJson> {
    items.filter(|it: SpecJson| item_cname(it) == cname)
}

/// The range a class ends with: one entry per referencing predicate, the
/// standardized property name, in predicate order.
pub open spec fn range_expected(items: Seq<SpecJson>, cname: Seq<char>) -> Seq<Seq<char>> {
    class_items(items, cname).map_values(|it: SpecJson| property_name_spec(item_pname(it)))
}

/// Whether some predicate's class standardizes to this shape target.
pub open spec fn shape_used(items: Seq<SpecJson>, s: Seq<char>) -> bool {
    exists|i: int| 0 <= i < items.len() && class_name_spec(item_cname(#[trigger] items[i])) == s
}

/// The constraint a predicate contributes, knowing every predicate: the
/// standardized property path, the multiplicity cap, the class
/// restriction, and `sh:datatype` exactly when the property's datatype
/// set over the whole schema has one member.
pub open spec fn expected_constraint(all: Seq<SpecJson>, it: SpecJson) -> ShaclPropertyModel {
    let dts = types_acc(all, item_pname(it));
    ShaclPropertyModel {
        path: property_name_spec(item_pname(it)),
        class: shacl_class_ref(it),
        max_count: shacl_max_count(it),
        datatype: if dts.len() == 1 {
            Option::Some(dts[0])
        } else {
            Option::None
        },
        ..new_shacl_property_model(property_name_spec(item_pname(it)))
    }
}

/// The constraints of one shape after processing a prefix of predicates.
pub open spec fn constraints_expected(
    processed: Seq<SpecJson>,
    all: Seq<SpecJson>,
    s: Seq<char>,
) -> Seq<ShaclPropertyModel> {
    processed.filter(|it: SpecJson| class_name_spec(item_cname(it)) == s).map_values(
        |it: SpecJson| expected_constraint(all, it),
    )
}

/// The conflict report one clashing predicate yields: its class and
/// property, the datatype it asked for, and the others the property
/// carries.
pub open spec fn expected_conflict(all: Seq<SpecJson>, it: SpecJson) -> ConflictModel {
    ConflictModel {
        property: property_name_spec(item_pname(it)),
        class: class_name_spec(item_cname(it)),
        winning: conflict_winning(it),
        others: conflict_others(
            canonical_property_model(item_pname(it), types_acc(all, item_pname(it))),
            it,
        ),
    }
}

/// The conflict reports over a prefix of predicates: one per predicate
/// whose property carries two or more datatypes across the whole schema.
pub open spec fn conflicts_expected(processed: Seq<SpecJson>, all: Seq<SpecJson>) -> Seq<
    ConflictModel,
> {
    processed.filter(|it: SpecJson| types_acc(all, item_pname(it)).len() > 1).map_values(
        |it: SpecJson| expected_conflict(all, it),
    )
}

/// `range_expected` over one more predicate.
proof fn lemma_range_expected_snoc(items: Seq<SpecJson>, k: int, c: Seq<char>)
    requires
        0 <= k < items.len(),
    ensures
        range_expected(items.take(k + 1), c) == if item_cname(items[k]) == c {
            range_expected(items.take(k), c).push(property_name_spec(item_pname(items[k])))
        } else {
            range_expected(items.take(k), c)
        },
{
    let f = |it: SpecJson| item_cname(it) == c;
    let g = |it: SpecJson| property_name_spec(item_pname(it));
    let a = items.take(k + 1);
    reveal_with_fuel(Seq::filter, 2);
    assert(a.drop_last() =~= items.take(k));
    assert(a.last() == items[k]);
    if f(items[k]) {
        assert(a.filter(f) == items.take(k).filter(f).push(items[k]));
        assert(a.filter(f).map_values(g) =~= items.take(k).filter(f).map_values(g).push(
            g(items[k]),
        ));
    } else {
        assert(a.filter(f) == items.take(k).filter(f));
    }
}

/// `constraints_expected` over one more predicate.
proof fn lemma_constraints_expected_snoc(
    items: Seq<SpecJson>,
    all: Seq<SpecJson>,
    k: int,
    s: Seq<char>,
)
    requires
        0 <= k < items.len(),
    ensures
        constraints_expected(items.take(k + 1), all, s) == if class_name_spec(
            item_cname(items[k]),
        ) == s {
            constraints_expected(items.take(k), all, s).push(expected_constraint(all, items[k]))
        } else {
            constraints_expected(items.take(k), all, s)
        },
{
    let f = |it: SpecJson| class_name_spec(item_cname(it)) == s;
    let g = |it: SpecJson| expected_constraint(all, it);
    let a = items.take(k + 1);
    reveal_with_fuel(Seq::filter, 2);
    assert(a.drop_last() =~= items.take(k));
    assert(a.last() == items[k]);
    if f(items[k]) {
        assert(a.filter(f) == items.take(k).filter(f).push(items[k]));
        assert(a.filter(f).map_values(g) =~= items.take(k).filter(f).map_values(g).push(
            g(items[k]),
        ));
    } else {
        assert(a.filter(f) == items.take(k).filter(f));
    }
}

/// `shape_used` over one more predicate.
proof fn lemma_shape_used_snoc(items: Seq<SpecJson>, k: int, s: Seq<char>)
    requires
        0 <= k < items.len(),
    ensures
        shape_used(items.take(k + 1), s) <==> (shape_used(items.take(k), s) || class_name_spec(
            item_cname(items[k]),
        ) == s),
{
    let a = items.take(k + 1);
    let b = items.take(k);
    if shape_used(a, s) {
        let i = choose|i: int| 0 <= i < a.len() && class_name_spec(item_cname(a[i])) == s;
        if i < k {
            assert(b[i] == a[i]);
            assert(shape_used(b, s));
        } else {
            assert(a[i] == items[k]);
        }
    }
    if shape_used(b, s) {
        let i = choose|i: int| 0 <= i < b.len() && class_name_spec(item_cname(b[i])) == s;
        assert(a[i] == b[i]);
        assert(shape_used(a, s));
    }
    if class_name_spec(item_cname(items[k])) == s {
        assert(a[k] == items[k]);
        assert(shape_used(a, s));
    }
}

/// `conflicts_expected` over one more predicate.
proof fn lemma_conflicts_expected_snoc(items: Seq<SpecJson>, all: Seq<SpecJson>, k: int)
    requires
        0 <= k < items.len(),
    ensures
        conflicts_expected(items.take(k + 1), all) == if types_acc(
            all,
            item_pname(items[k]),
        ).len() > 1 {
            conflicts_expected(items.take(k), all).push(expected_conflict(all, items[k]))
        } else {
            conflicts_expected(items.take(k), all)
        },
{
    let f = |it: SpecJson| types_acc(all, item_pname(it)).len() > 1;
    let g = |it: SpecJson| expected_conflict(all, it);
    let a = items.take(k + 1);
    reveal_with_fuel(Seq::filter, 2);
    assert(a.drop_last() =~= items.take(k));
    assert(a.last() == items[k]);
    if f(items[k]) {
        assert(a.filter(f) == items.take(k).filter(f).push(items[k]));
        assert(a.filter(f).map_values(g) =~= items.take(k).filter(f).map_values(g).push(
            g(items[k]),
        ));
    } else {
        assert(a.filter(f) == items.take(k).filter(f));
    }
}

/// The second pass, characterized: every class's range gains one entry
/// per referencing predicate, properties keep their identifiers and
/// accumulated datatypes, every used shape holds its predicates'
/// constraints in order, and the conflicts collected are exactly one per
/// predicate whose property carries clashing datatypes.
pub proof fn lemma_pass2(m1: ParserModel, items: Seq<SpecJson>, closed: bool, k: int)
    requires
        all_ok(items),
        class_inv(m1.classes, items),
        prop_inv(m1.properties, items),
        m1.shacl_shapes == Seq::<(Seq<char>, ShaclShapeModel)>::empty(),
        m1.wf(),
        0 <= k <= items.len(),
    ensures
        pass2_fold_to(m1, items, closed, k).wf(),
        forall|c: Seq<char>|
            #[trigger] assoc_get(pass2_fold_to(m1, items, closed, k).classes, c) == if has_class(
                items,
                c,
            ) {
                Option::Some(
                    ClassModel {
                        range: range_expected(items.take(k), c),
                        ..new_class_model(class_name_spec(c))
                    },
                )
            } else {
                Option::<ClassModel>::None
            },
        forall|p: Seq<char>|
            #[trigger] assoc_get(pass2_fold_to(m1, items, closed, k).properties, p) is Some
                == has_property(items, p) && (has_property(items, p)
                ==> assoc_get(pass2_fold_to(m1, items, closed, k).properties, p).unwrap().data_types
                    == types_acc(items, p) && assoc_get(
                    pass2_fold_to(m1, items, closed, k).properties,
                    p,
                ).unwrap().id == property_name_spec(p)),
        forall|s: Seq<char>|
            #[trigger] assoc_get(pass2_fold_to(m1, items, closed, k).shacl_shapes, s)
                == if shape_used(items.take(k), s) {
                Option::Some(
                    ShaclShapeModel {
                        property: constraints_expected(items.take(k), items, s),
                        ..new_shacl_shape_model(s, closed)
                    },
                )
            } else {
                Option::<ShaclShapeModel>::None
            },
        pass2_conflicts_to(m1, items, closed, k) == conflicts_expected(items.take(k), items),
    decreases k,
{
    if k == 0 {
        assert(items.take(0) =~= Seq::<SpecJson>::empty());
        assert forall|c: Seq<char>|
            #[trigger] assoc_get(m1.classes, c) == (if has_class(items, c) {
                Option::Some(
                    ClassModel {
                        range: range_expected(items.take(0), c),
                        ..new_class_model(class_name_spec(c))
                    },
                )
            } else {
                Option::<ClassModel>::None
            }) by {
            if has_class(items, c) {
                assert(range_expected(items.take(0), c) =~= Seq::<Seq<char>>::empty());
                assert(new_class_model(class_name_spec(c)).range =~= Seq::<Seq<char>>::empty());
                assert((ClassModel {
                    range: range_expected(items.take(0), c),
                    ..new_class_model(class_name_spec(c))
                }) =~= new_class_model(class_name_spec(c)));
            }
        }
        assert forall|s: Seq<char>| !shape_used(items.take(0), s) by {}
        assert(pass2_conflicts_to(m1, items, closed, 0) =~= conflicts_expected(
            items.take(0),
            items,
        )) by {
            reveal_with_fuel(Seq::filter, 1);
            assert(items.take(0).filter(
                |it: SpecJson| types_acc(items, item_pname(it)).len() > 1,
            ) =~= Seq::<SpecJson>::empty());
        }
    } else {
        lemma_pass2(m1, items, closed, k - 1);
        let prev = pass2_fold_to(m1, items, closed, k - 1);
        let cur = pass2_fold_to(m1, items, closed, k);
        let it = items[k - 1];
        assert(cur == pass2_step(prev, it, closed));
        assert(predicate_ok(it));
        let cname = item_cname(it);
        let pname = item_pname(it);
        let tval = item_tval(it);
        let std_c = class_name_spec(cname);

        assert(has_class(items, cname));
        assert(has_property(items, pname));

        // the class gains one range entry
        let base_class = class_for(prev.classes, cname);
        let class2 = ClassModel {
            range: base_class.range.push(property_name_spec(pname)),
            ..base_class
        };
        lemma_assoc_set(prev.classes, cname, class2);
        assert forall|c: Seq<char>|
            #[trigger] assoc_get(cur.classes, c) == (if has_class(items, c) {
                Option::Some(
                    ClassModel {
                        range: range_expected(items.take(k), c),
                        ..new_class_model(class_name_spec(c))
                    },
                )
            } else {
                Option::<ClassModel>::None
            }) by {
            lemma_range_expected_snoc(items, k - 1, c);
            if c == cname {
                assert(assoc_get(cur.classes, c) == Option::Some(class2));
                assert(class2 =~= (ClassModel {
                    range: range_expected(items.take(k), c),
                    ..new_class_model(class_name_spec(c))
                }));
            } else {
                assert(assoc_get(cur.classes, c) == assoc_get(prev.classes, c));
            }
        }

        // the property keeps its identifier and datatypes
        let base_prop = property_for(prev.properties, pname, tval);
        assert(match normalize_type_spec(tval) {
            Option::Some(d) => types_acc(items, pname).contains(d),
            Option::None => true,
        }) by {
            lemma_type_in_acc(items, k - 1);
        }
        assert(base_prop.data_types == types_acc(items, pname)) by {
            lemma_updated_noop(types_acc(items, pname), tval);
        }
        assert(base_prop.id == property_name_spec(pname));
        let prop2 = pass2_property_at_call(prev, it);
        let prop3 = PropertyModel { comment: comment_update(prop2, it), ..prop2 };
        lemma_assoc_set(prev.properties, pname, prop3);
        assert forall|p: Seq<char>|
            (#[trigger] assoc_get(cur.properties, p) is Some == has_property(items, p)) && (
            has_property(items, p) ==> assoc_get(cur.properties, p).unwrap().data_types
                == types_acc(items, p) && assoc_get(cur.properties, p).unwrap().id
                == property_name_spec(p)) by {
            if p == pname {
                assert(assoc_get(cur.properties, p) == Option::Some(prop3));
            } else {
                assert(assoc_get(cur.properties, p) == assoc_get(prev.properties, p));
            }
        }

        // the shape gains this predicate's constraint
        let shape = shape_for(prev.shacl_shapes, std_c, closed);
        let shape2 = ShaclShapeModel {
            property: shape.property.push(constraint_for(prop2, it)),
            ..shape
        };
        lemma_assoc_set(prev.shacl_shapes, std_c, shape2);
        assert(prop2.data_types == types_acc(items, pname));
        assert(prop2.id == property_name_spec(pname));
        assert(constraint_for(prop2, it) =~= expected_constraint(items, it));
        assert forall|s: Seq<char>|
            #[trigger] assoc_get(cur.shacl_shapes, s) == (if shape_used(items.take(k), s) {
                Option::Some(
                    ShaclShapeModel {
                        property: constraints_expected(items.take(k), items, s),
                        ..new_shacl_shape_model(s, closed)
                    },
                )
            } else {
                Option::<ShaclShapeModel>::None
            }) by {
            lemma_shape_used_snoc(items, k - 1, s);
            lemma_constraints_expected_snoc(items, items, k - 1, s);
            if s == std_c {
                assert(assoc_get(cur.shacl_shapes, s) == Option::Some(shape2));
                if shape_used(items.take(k - 1), s) {
                    assert(shape2 =~= (ShaclShapeModel {
                        property: constraints_expected(items.take(k), items, s),
                        ..new_shacl_shape_model(s, closed)
                    }));
                } else {
                    assert(assoc_get(prev.shacl_shapes, std_c) is None);
                    assert(shape == new_shacl_shape_model(std_c, closed));
                    assert(constraints_expected(items.take(k - 1), items, s) =~= Seq::<
                        ShaclPropertyModel,
                    >::empty()) by {
                        lemma_constraints_empty(items.take(k - 1), items, s);
                    }
                    assert(shape2 =~= (ShaclShapeModel {
                        property: constraints_expected(items.take(k), items, s),
                        ..new_shacl_shape_model(s, closed)
                    }));
                }
            } else {
                assert(assoc_get(cur.shacl_shapes, s) == assoc_get(prev.shacl_shapes, s));
            }
        }

        // the conflicts grow by this predicate's report, if it clashes
        assert(pass2_conflicts_to(m1, items, closed, k) == conflicts_expected(
            items.take(k),
            items,
        )) by {
            lemma_conflicts_expected_snoc(items, items, k - 1);
            assert(datatype_conflict(prop2, it) == (types_acc(items, pname).len() > 1));
            match step_conflict(prev, it, closed) {
                Option::Some(conf) => {
                    assert(shape.target_class == std_c);
                    assert(conf =~= expected_conflict(items, it)) by {
                        assert(conflict_others(prop2, it) == conflict_others(
                            canonical_property_model(pname, types_acc(items, pname)),
                            it,
                        ));
                    }
                },
                Option::None => {},
            }
        }
    }
}

/// Constraints over a prefix in which no predicate uses the shape.
proof fn lemma_constraints_empty(processed: Seq<SpecJson>, all: Seq<SpecJson>, s: Seq<char>)
    requires
        !shape_used(processed, s),
    ensures
        constraints_expected(processed, all, s) == Seq::<ShaclPropertyModel>::empty(),
    decreases processed.len(),
{
    let f = |it: SpecJson| class_name_spec(item_cname(it)) == s;
    if processed.len() > 0 {
        assert(!f(processed.last())) by {
            assert(processed[processed.len() - 1] == processed.last());
        }
        assert(!shape_used(processed.drop_last(), s)) by {
            if shape_used(processed.drop_last(), s) {
                let i = choose|i: int|
                    0 <= i < processed.drop_last().len() && class_name_spec(
                        item_cname(processed.drop_last()[i]),
                    ) == s;
                assert(processed[i] == processed.drop_last()[i]);
            }
        }
        lemma_constraints_empty(processed.drop_last(), all, s);
        reveal_with_fuel(Seq::filter, 2);
        assert(processed.filter(f) == processed.drop_last().filter(f));
        assert(constraints_expected(processed, all, s) =~= Seq::<ShaclPropertyModel>::empty());
    } else {
        reveal_with_fuel(Seq::filter, 2);
        assert(processed.filter(f) =~= Seq::<SpecJson>::empty());
        assert(constraints_expected(processed, all, s) =~= Seq::<ShaclPropertyModel>::empty());
    }
}

/// No two predicates reference the same property of the same collection:
/// distinct raw names whose class and standardized property coincide
/// would collapse into one range entry.
pub open spec fn distinct_refs(items: Seq<SpecJson>) -> bool {
    forall|i: int, j: int|
        0 <= i < j < items.len() ==> !(item_cname(#[trigger] items[i]) == item_cname(
            #[trigger] items[j],
        ) && property_name_spec(item_pname(items[i])) == property_name_spec(item_pname(items[j])))
}

/// Each range entry names the standardized property of some referencing
/// predicate.
proof fn lemma_range_member(items: Seq<SpecJson>, c: Seq<char>, a: int)
    requires
        0 <= a < range_expected(items, c).len(),
    ensures
        exists|i: int|
            0 <= i < items.len() && item_cname(#[trigger] items[i]) == c && range_expected(
                items,
                c,
            )[a] == property_name_spec(item_pname(items[i])),
    decreases items.len(),
{
    let f = |it: SpecJson| item_cname(it) == c;
    let g = |it: SpecJson| property_name_spec(item_pname(it));
    reveal_with_fuel(Seq::filter, 2);
    let rest = items.drop_last();
    let prev = range_expected(rest, c);
    assert(items.len() > 0);
    assert(items.last() == items[items.len() - 1]);
    if f(items.last()) {
        assert(items.filter(f) == rest.filter(f).push(items.last()));
        assert(range_expected(items, c) =~= prev.push(g(items.last())));
        if a < prev.len() {
            lemma_range_member(rest, c, a);
            let i = choose|i: int|
                0 <= i < rest.len() && item_cname(#[trigger] rest[i]) == c && prev[a]
                    == property_name_spec(item_pname(rest[i]));
            assert(items[i] == rest[i]);
            assert(range_expected(items, c)[a] == prev[a]);
        } else {
            assert(range_expected(items, c)[a] == g(items[items.len() - 1]));
        }
    } else {
        assert(items.filter(f) == rest.filter(f));
        assert(range_expected(items, c) == prev);
        lemma_range_member(rest, c, a);
        let i = choose|i: int|
            0 <= i < rest.len() && item_cname(#[trigger] rest[i]) == c && prev[a]
                == property_name_spec(item_pname(rest[i]));
        assert(items[i] == rest[i]);
    }
}

/// Under distinct references, no two range entries coincide.
proof fn lemma_range_nodup(items: Seq<SpecJson>, c: Seq<char>)
    requires
        distinct_refs(items),
    ensures
        forall|a: int, b: int|
            0 <= a < b < range_expected(items, c).len() ==> range_expected(items, c)[a]
                != range_expected(items, c)[b],
    decreases items.len(),
{
    let f = |it: SpecJson| item_cname(it) == c;
    let g = |it: SpecJson| property_name_spec(item_pname(it));
    reveal_with_fuel(Seq::filter, 2);
    if items.len() == 0 {
        assert(items.filter(f) =~= Seq::<SpecJson>::empty());
        assert(range_expected(items, c) =~= Seq::<Seq<char>>::empty());
    } else {
        let rest = items.drop_last();
        assert(distinct_refs(rest)) by {
            assert forall|i: int, j: int|
                0 <= i < j < rest.len() implies !(item_cname(#[trigger] rest[i]) == item_cname(
                #[trigger] rest[j],
            ) && property_name_spec(item_pname(rest[i])) == property_name_spec(
                item_pname(rest[j]),
            )) by {
                assert(rest[i] == items[i]);
                assert(rest[j] == items[j]);
            }
        }
        lemma_range_nodup(rest, c);
        let prev = range_expected(rest, c);
        assert(items.last() == items[items.len() - 1]);
        if f(items.last()) {
            assert(items.filter(f) == rest.filter(f).push(items.last()));
            assert(range_expected(items, c) =~= prev.push(g(items.last())));
            assert forall|a: int, b: int|
                0 <= a < b < range_expected(items, c).len() implies range_expected(items, c)[a]
                != range_expected(items, c)[b] by {
                if b < prev.len() {
                    assert(range_expected(items, c)[a] == prev[a]);
                    assert(range_expected(items, c)[b] == prev[b]);
                } else {
                    assert(range_expected(items, c)[a] == prev[a]);
                    lemma_range_member(rest, c, a);
                    let i = choose|i: int|
                        0 <= i < rest.len() && item_cname(#[trigger] rest[i]) == c && prev[a]
                            == property_name_spec(item_pname(rest[i]));
                    assert(items[i] == rest[i]);
                    assert(range_expected(items, c)[b] == g(items[items.len() - 1]));
                    assert(item_cname(items[i]) == c && item_cname(items[items.len() - 1]) == c);
                }
            }
        } else {
            assert(items.filter(f) == rest.filter(f));
            assert(range_expected(items, c) == prev);
        }
    }
}

/// For all predicates sharing a raw class name, the canonical class
/// exists exactly once — the registry's keys stay pairwise distinct, and
/// the name holds an entry exactly when some predicate uses it — and its
/// range holds one entry per distinct referencing property: the
/// standardized property name of each referencing predicate, in predicate
/// order, pairwise distinct.
pub proof fn lemma_class_canonicalized_once(
    m0: ParserModel,
    items: Seq<SpecJson>,
    closed: bool,
    cname: Seq<char>,
)
    requires
        empty_registry(m0),
        m0.wf(),
        all_ok(items),
        distinct_refs(items),
    ensures
        ({
            let end = pass2_fold(pass1_fold(m0, items), items, closed);
            &&& end.wf()
            &&& (assoc_has(end.classes, cname) <==> has_class(items, cname))
            &&& (has_class(items, cname) ==> assoc_get(end.classes, cname) == Option::Some(
                ClassModel {
                    range: range_expected(items, cname),
                    ..new_class_model(class_name_spec(cname))
                },
            ))
            &&& forall|a: int, b: int|
                0 <= a < b < range_expected(items, cname).len() ==> range_expected(items, cname)[a]
                    != range_expected(items, cname)[b]
        }),
{
    let n = items.len() as int;
    lemma_pass1(m0, items, n);
    assert(items.take(n) =~= items);
    let m1 = pass1_fold(m0, items);
    lemma_pass2(m1, items, closed, n);
    lemma_range_nodup(items, cname);
    let end = pass2_fold(m1, items, closed);
    assert(assoc_get(end.classes, cname) == assoc_get(
        pass2_fold_to(m1, items, closed, n).classes,
        cname,
    ));
}

/// For all properties with exactly one normalized datatype across every
/// class, each emitted constraint on the property carries that datatype;
/// for all with two or more, every constraint omits `sh:datatype`, and
/// each referencing predicate — one per class sharing the property —
/// yields exactly one conflict report naming the property, the class,
/// the datatype the predicate asked for, and the other datatypes in use.
pub proof fn lemma_datatype_constraints(m0: ParserModel, items: Seq<SpecJson>, closed: bool)
    requires
        empty_registry(m0),
        m0.wf(),
        all_ok(items),
    ensures
        ({
            let m1 = pass1_fold(m0, items);
            let end = pass2_fold(m1, items, closed);
            &&& forall|s: Seq<char>|
                #[trigger] assoc_get(end.shacl_shapes, s) == if shape_used(items, s) {
                    Option::Some(
                        ShaclShapeModel {
                            property: constraints_expected(items, items, s),
                            ..new_shacl_shape_model(s, closed)
                        },
                    )
                } else {
                    Option::<ShaclShapeModel>::None
                }
            &&& forall|i: int|
                0 <= i < items.len() ==> (#[trigger] expected_constraint(items, items[i])).datatype
                    == if types_acc(items, item_pname(items[i])).len() == 1 {
                    Option::Some(types_acc(items, item_pname(items[i]))[0])
                } else {
                    Option::<Seq<char>>::None
                }
            &&& pass2_conflicts(m1, items, closed) == conflicts_expected(items, items)
        }),
{
    let n = items.len() as int;
    lemma_pass1(m0, items, n);
    assert(items.take(n) =~= items);
    let m1 = pass1_fold(m0, items);
    lemma_pass2(m1, items, closed, n);
}

} // verus!
