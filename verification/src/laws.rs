//! The laws of merging and assembly, stated and proved over the models:
//! default-fill, subset override, and in-place splicing of nested prefabs.

use vstd::prelude::*;
use crate::assemble::{spec_apply_component, spec_assemble_steps, AssembleOutcome};
use crate::build_commands::BuildPrefabCommand;
use crate::prefab::{PrefabModel, StepModel};
use crate::registry::{spec_load, TypeModel};
use crate::value::{
    field_index, has_field, merge_field_named, merge_fields_named, merge_model, FieldModel,
    StructuralShape, ValueModel,
};

verus! {

broadcast use vstd::seq::group_seq_axioms, vstd::map::group_map_axioms, vstd::set::group_set_axioms;

/// Whether the fields' names are pairwise distinct.
pub open spec fn names_distinct(fields: Seq<FieldModel>) -> bool {
    forall|i: int, j: int| 0 <= i < j < fields.len() ==> fields[i].name != fields[j].name
}

/// The value of the first field called `name`.
pub open spec fn field_at(fields: Seq<FieldModel>, name: Seq<char>) -> ValueModel {
    fields[field_index(fields, name)].value
}

/// What merging one named overlay field does, field name by field name.
proof fn lemma_merge_field_named_char(b: Seq<FieldModel>, g: FieldModel)
    requires
        names_distinct(b),
    ensures
        names_distinct(merge_field_named(b, g)),
        forall|x: Seq<char>|
            #[trigger] has_field(merge_field_named(b, g), x) == (has_field(b, x) || x == g.name),
        ({
            let m = merge_field_named(b, g);
            &&& (has_field(b, g.name) ==> field_at(m, g.name) == merge_model(
                field_at(b, g.name),
                g.value,
            ))
            &&& (!has_field(b, g.name) ==> field_at(m, g.name) == g.value)
            &&& forall|x: Seq<char>|
                x != g.name && has_field(b, x) ==> #[trigger] field_at(m, x) == field_at(b, x)
        }),
{
    let m = merge_field_named(b, g);
    crate::value::lemma_field_index(b, g.name);
    let i = field_index(b, g.name);
    if i >= 0 {
        assert forall|x: Seq<char>| #[trigger] has_field(m, x) == (has_field(b, x) || x
            == g.name) by {
            crate::value::lemma_field_index(b, x);
            crate::value::lemma_field_index(m, x);
            let j = field_index(b, x);
            if j >= 0 {
                crate::value::lemma_field_index_is(m, x, j);
            } else {
                crate::value::lemma_field_index_none(m, x);
            }
        }
        crate::value::lemma_field_index_is(m, g.name, i);
        assert forall|x: Seq<char>| x != g.name && has_field(b, x) implies #[trigger] field_at(
            m,
            x,
        ) == field_at(b, x) by {
            crate::value::lemma_field_index(b, x);
            let j = field_index(b, x);
            crate::value::lemma_field_index_is(m, x, j);
        }
    } else {
        crate::value::lemma_field_index_none(b, g.name);
        let n = b.len() as int;
        assert(m =~= b.push(g));
        assert forall|x: Seq<char>| #[trigger] has_field(m, x) == (has_field(b, x) || x
            == g.name) by {
            crate::value::lemma_field_index(b, x);
            let j = field_index(b, x);
            if j >= 0 {
                crate::value::lemma_field_index_is(m, x, j);
            } else if x == g.name {
                crate::value::lemma_field_index_is(m, x, n);
            } else {
                crate::value::lemma_field_index_none(m, x);
            }
        }
        crate::value::lemma_field_index_is(m, g.name, n);
        assert forall|x: Seq<char>| x != g.name && has_field(b, x) implies #[trigger] field_at(
            m,
            x,
        ) == field_at(b, x) by {
            crate::value::lemma_field_index(b, x);
            let j = field_index(b, x);
            crate::value::lemma_field_index_is(m, x, j);
        }
    }
}

/// What merging named overlay fields does, field name by field name: an
/// overlaid name takes the merged value, every other name keeps the base
/// value, and nothing else appears.
pub proof fn lemma_merge_fields_named_char(b: Seq<FieldModel>, o: Seq<FieldModel>)
    requires
        names_distinct(b),
        names_distinct(o),
    ensures
        names_distinct(merge_fields_named(b, o)),
        forall|x: Seq<char>|
            #[trigger] has_field(merge_fields_named(b, o), x) == (has_field(b, x) || has_field(
                o,
                x,
            )),
        forall|x: Seq<char>|
            has_field(o, x) && has_field(b, x) ==> #[trigger] field_at(merge_fields_named(b, o), x)
                == merge_model(field_at(b, x), field_at(o, x)),
        forall|x: Seq<char>|
            has_field(o, x) && !has_field(b, x) ==> #[trigger] field_at(merge_fields_named(b, o), x)
                == field_at(o, x),
        forall|x: Seq<char>|
            !has_field(o, x) && has_field(b, x) ==> #[trigger] field_at(merge_fields_named(b, o), x)
                == field_at(b, x),
    decreases o.len(),
{
    if o.len() == 0 {
        assert forall|x: Seq<char>| !(#[trigger] has_field(o, x)) by {
            crate::value::lemma_field_index(o, x);
        }
    } else {
        let g = o[0];
        let b1 = merge_field_named(b, g);
        let o1 = o.drop_first();
        lemma_merge_field_named_char(b, g);
        assert(names_distinct(o1)) by {
            assert forall|i: int, j: int| 0 <= i < j < o1.len() implies o1[i].name
                != o1[j].name by {
                assert(o[i + 1].name != o[j + 1].name);
            }
        }
        lemma_merge_fields_named_char(b1, o1);
        let m = merge_fields_named(b, o);
        assert(m == merge_fields_named(b1, o1));
        assert forall|x: Seq<char>|
            #[trigger] has_field(o, x) == (x == g.name || has_field(o1, x)) by {
            crate::value::lemma_field_index(o, x);
            crate::value::lemma_field_index(o1, x);
            let j = field_index(o1, x);
            if j >= 0 {
                crate::value::lemma_field_index_is(o, x, j + 1);
            } else if x == g.name {
                crate::value::lemma_field_index_is(o, x, 0);
            } else {
                crate::value::lemma_field_index_none(o, x);
            }
        }
        assert(!has_field(o1, g.name)) by {
            crate::value::lemma_field_index(o1, g.name);
            let j = field_index(o1, g.name);
            if j >= 0 {
                assert(o[0].name != o[j + 1].name);
            }
        }
        assert(has_field(o, g.name) && field_at(o, g.name) == g.value) by {
            crate::value::lemma_field_index_is(o, g.name, 0);
        }
        assert forall|x: Seq<char>| x != g.name && #[trigger] has_field(o, x) implies field_at(
            o1,
            x,
        ) == field_at(o, x) by {
            crate::value::lemma_field_index(o, x);
            let j = field_index(o, x);
            assert(j >= 1);
            assert forall|k: int| 0 <= k < j - 1 implies o1[k].name != x by {
                assert(o[k + 1].name != x);
            }
            crate::value::lemma_field_index_is(o1, x, j - 1);
        }
    }
}

/// The default-fill law.  Adding a component of a registered
/// named-field type to an entity that lacks it starts from the registered
/// default: a parsed field overlays the default's value under the same name,
/// a field the document leaves out keeps the default's value, and no other
/// field appears.
pub proof fn lemma_default_fill(
    tm: Map<Seq<char>, TypeModel>,
    e: Map<Seq<char>, ValueModel>,
    t: Seq<char>,
    dfields: Seq<FieldModel>,
    ofields: Seq<FieldModel>,
)
    requires
        tm.contains_key(t),
        tm[t].default_value == ValueModel::Composite(StructuralShape::Struct, dfields),
        !e.contains_key(t),
        names_distinct(dfields),
        names_distinct(ofields),
    ensures
        ({
            let r = spec_apply_component(
                tm,
                e,
                t,
                ValueModel::Composite(StructuralShape::Struct, ofields),
            );
            let m = merge_fields_named(dfields, ofields);
            &&& r == Ok::<_, crate::parse::ErrModel>(
                e.insert(t, ValueModel::Composite(StructuralShape::Struct, m)),
            )
            &&& forall|x: Seq<char>|
                #[trigger] has_field(m, x) == (has_field(dfields, x) || has_field(ofields, x))
            &&& forall|x: Seq<char>|
                has_field(ofields, x) && has_field(dfields, x) ==> #[trigger] field_at(m, x)
                    == merge_model(field_at(dfields, x), field_at(ofields, x))
            &&& forall|x: Seq<char>|
                !has_field(ofields, x) && has_field(dfields, x) ==> #[trigger] field_at(m, x)
                    == field_at(dfields, x)
        }),
{
    lemma_merge_fields_named_char(dfields, ofields);
}

/// The subset-override law.  Assembling two
/// `AddComponent` steps of the same named-field type onto an entity that
/// lacks it: the second step merges onto what the first produced, so a field
/// the second step leaves out keeps the first step's value, and a field it
/// names is overridden.
pub proof fn lemma_apply_overrides_subset<C: BuildPrefabCommand>(
    tm: Map<Seq<char>, TypeModel>,
    commands: Map<Seq<char>, C>,
    sources: Map<Seq<char>, Seq<char>>,
    cache: Map<Seq<char>, PrefabModel>,
    t: Seq<char>,
    o1: Seq<FieldModel>,
    o2: Seq<FieldModel>,
    e: Map<Seq<char>, ValueModel>,
    resolving: Set<Seq<char>>,
)
    requires
        sources.dom().finite(),
        forall|k: Seq<char>| #[trigger] cache.contains_key(k) ==> sources.contains_key(k),
        tm.contains_key(t),
        tm[t].default_value == ValueModel::Composite(StructuralShape::Struct, Seq::<
            FieldModel,
        >::empty()),
        !e.contains_key(t),
        names_distinct(o1),
        names_distinct(o2),
    ensures
        ({
            let steps = seq![
                StepModel::AddComp {
                    type_key: t,
                    value: ValueModel::Composite(StructuralShape::Struct, o1),
                },
                StepModel::AddComp {
                    type_key: t,
                    value: ValueModel::Composite(StructuralShape::Struct, o2),
                },
            ];
            let out = spec_assemble_steps(tm, commands, sources, cache, steps, resolving, e);
            let m1 = merge_fields_named(Seq::<FieldModel>::empty(), o1);
            let m2 = merge_fields_named(m1, o2);
            &&& out.error is None
            &&& out.cache == cache
            &&& out.entity == e.insert(t, ValueModel::Composite(StructuralShape::Struct, m2))
            &&& forall|x: Seq<char>|
                has_field(o1, x) && !has_field(o2, x) ==> #[trigger] field_at(m2, x) == field_at(
                    m1,
                    x,
                )
            &&& forall|x: Seq<char>|
                has_field(o2, x) && !has_field(o1, x) ==> #[trigger] field_at(m2, x) == field_at(
                    o2,
                    x,
                )
        }),
{
    let steps = seq![
        StepModel::AddComp {
            type_key: t,
            value: ValueModel::Composite(StructuralShape::Struct, o1),
        },
        StepModel::AddComp {
            type_key: t,
            value: ValueModel::Composite(StructuralShape::Struct, o2),
        },
    ];
    let empty_fields = Seq::<FieldModel>::empty();
    assert(names_distinct(empty_fields));
    lemma_merge_fields_named_char(empty_fields, o1);
    let m1 = merge_fields_named(empty_fields, o1);
    lemma_merge_fields_named_char(m1, o2);
    let m2 = merge_fields_named(m1, o2);
    let c1 = ValueModel::Composite(StructuralShape::Struct, m1);
    let e1 = e.insert(t, c1);
    let rest1 = steps.drop_first();
    assert(steps[0] == StepModel::AddComp {
        type_key: t,
        value: ValueModel::Composite(StructuralShape::Struct, o1),
    });
    assert(spec_apply_component(
        tm,
        e,
        t,
        ValueModel::Composite(StructuralShape::Struct, o1),
    ) == Ok::<_, crate::parse::ErrModel>(e1));
    assert(rest1[0] == StepModel::AddComp {
        type_key: t,
        value: ValueModel::Composite(StructuralShape::Struct, o2),
    });
    assert(e1.contains_key(t) && e1[t] == c1);
    let e2 = e1.insert(t, ValueModel::Composite(StructuralShape::Struct, m2));
    assert(spec_apply_component(
        tm,
        e1,
        t,
        ValueModel::Composite(StructuralShape::Struct, o2),
    ) == Ok::<_, crate::parse::ErrModel>(e2));
    assert(rest1.drop_first() =~= Seq::<StepModel>::empty());
    assert(e2 =~= e.insert(t, ValueModel::Composite(StructuralShape::Struct, m2)));
    assert(spec_assemble_steps(tm, commands, sources, cache, steps, resolving, e)
        == spec_assemble_steps(tm, commands, sources, cache, rest1, resolving, e1));
    assert(spec_assemble_steps(tm, commands, sources, cache, rest1, resolving, e1)
        == spec_assemble_steps(tm, commands, sources, cache, rest1.drop_first(), resolving, e2));
    assert(spec_assemble_steps(tm, commands, sources, cache, rest1.drop_first(), resolving, e2)
        == AssembleOutcome { cache, entity: e2, error: None });
    assert forall|x: Seq<char>|
        has_field(o1, x) && !has_field(o2, x) implies #[trigger] field_at(m2, x) == field_at(
        m1,
        x,
    ) by {}
}

} // verus!

verus! {

/// Whether a step sequence contains no nested-prefab includes.
pub open spec fn flat_steps(steps: Seq<StepModel>) -> bool {
    forall|i: int| 0 <= i < steps.len() ==> !(#[trigger] steps[i] is Nested)
}

/// Steps without nested includes neither read the active include path nor
/// touch the document cache.
proof fn lemma_assemble_flat<C: BuildPrefabCommand>(
    tm: Map<Seq<char>, TypeModel>,
    commands: Map<Seq<char>, C>,
    sources: Map<Seq<char>, Seq<char>>,
    cache: Map<Seq<char>, PrefabModel>,
    steps: Seq<StepModel>,
    r1: Set<Seq<char>>,
    r2: Set<Seq<char>>,
    e: Map<Seq<char>, ValueModel>,
)
    requires
        sources.dom().finite(),
        forall|k: Seq<char>| #[trigger] cache.contains_key(k) ==> sources.contains_key(k),
        flat_steps(steps),
    ensures
        spec_assemble_steps(tm, commands, sources, cache, steps, r1, e).cache == cache,
        spec_assemble_steps(tm, commands, sources, cache, steps, r2, e) == spec_assemble_steps(
            tm,
            commands,
            sources,
            cache,
            steps,
            r1,
            e,
        ),
    decreases steps.len(),
{
    if steps.len() > 0 {
        let rest = steps.drop_first();
        assert(flat_steps(rest)) by {
            assert forall|i: int| 0 <= i < rest.len() implies !(#[trigger] rest[i] is Nested) by {
                assert(!(steps[i + 1] is Nested));
            }
        }
        assert(!(steps[0] is Nested));
        match steps[0] {
            StepModel::AddComp { type_key, value } => {
                match spec_apply_component(tm, e, type_key, value) {
                    Ok(e2) => {
                        lemma_assemble_flat(tm, commands, sources, cache, rest, r1, r2, e2);
                    },
                    Err(_) => {},
                }
            },
            StepModel::RunCmd { name, props } => {
                if commands.contains_key(name) {
                    lemma_assemble_flat(
                        tm,
                        commands,
                        sources,
                        cache,
                        rest,
                        r1,
                        r2,
                        commands[name].effect(props, e),
                    );
                }
            },
            StepModel::Nested { .. } => {
                assert(false);
            },
        }
    }
}

/// Assembling a flat prefix then the remainder: the prefix leaves the cache
/// alone, and the remainder continues from the entity the prefix produced.
proof fn lemma_assemble_append_flat<C: BuildPrefabCommand>(
    tm: Map<Seq<char>, TypeModel>,
    commands: Map<Seq<char>, C>,
    sources: Map<Seq<char>, Seq<char>>,
    cache: Map<Seq<char>, PrefabModel>,
    s1: Seq<StepModel>,
    t: Seq<StepModel>,
    resolving: Set<Seq<char>>,
    e: Map<Seq<char>, ValueModel>,
)
    requires
        sources.dom().finite(),
        forall|k: Seq<char>| #[trigger] cache.contains_key(k) ==> sources.contains_key(k),
        flat_steps(s1),
    ensures
        ({
            let o1 = spec_assemble_steps(tm, commands, sources, cache, s1, resolving, e);
            &&& o1.cache == cache
            &&& spec_assemble_steps(tm, commands, sources, cache, s1 + t, resolving, e) == (
            if o1.error is Some {
                o1
            } else {
                spec_assemble_steps(tm, commands, sources, cache, t, resolving, o1.entity)
            })
        }),
    decreases s1.len(),
{
    lemma_assemble_flat(tm, commands, sources, cache, s1, resolving, resolving, e);
    if s1.len() == 0 {
        assert(s1 + t =~= t);
    } else {
        let rest = s1.drop_first();
        assert(flat_steps(rest)) by {
            assert forall|i: int| 0 <= i < rest.len() implies !(#[trigger] rest[i] is Nested) by {
                assert(!(s1[i + 1] is Nested));
            }
        }
        assert((s1 + t)[0] == s1[0]);
        assert((s1 + t).drop_first() =~= rest + t);
        assert(!(s1[0] is Nested));
        match s1[0] {
            StepModel::AddComp { type_key, value } => {
                match spec_apply_component(tm, e, type_key, value) {
                    Ok(e2) => {
                        lemma_assemble_append_flat(
                            tm,
                            commands,
                            sources,
                            cache,
                            rest,
                            t,
                            resolving,
                            e2,
                        );
                    },
                    Err(_) => {},
                }
            },
            StepModel::RunCmd { name, props } => {
                if commands.contains_key(name) {
                    lemma_assemble_append_flat(
                        tm,
                        commands,
                        sources,
                        cache,
                        rest,
                        t,
                        resolving,
                        commands[name].effect(props, e),
                    );
                }
            },
            StepModel::Nested { .. } => {
                assert(false);
            },
        }
    }
}

/// The splice law.  A nested-prefab
/// step whose document is cached assembles exactly as if the document's
/// steps stood in its place: the steps around it and the included steps run
/// on the same entity, in document order.  Stated for step sequences without
/// further nesting, where the include neither reads the active include path
/// nor changes the cache.
pub proof fn lemma_nested_splice<C: BuildPrefabCommand>(
    tm: Map<Seq<char>, TypeModel>,
    commands: Map<Seq<char>, C>,
    sources: Map<Seq<char>, Seq<char>>,
    cache: Map<Seq<char>, PrefabModel>,
    s1: Seq<StepModel>,
    s2: Seq<StepModel>,
    p: Seq<char>,
    resolving: Set<Seq<char>>,
    e: Map<Seq<char>, ValueModel>,
)
    requires
        sources.dom().finite(),
        forall|k: Seq<char>| #[trigger] cache.contains_key(k) ==> sources.contains_key(k),
        cache.contains_key(p),
        !resolving.contains(p),
        flat_steps(s1),
        flat_steps(s2),
        flat_steps(cache[p].steps),
    ensures
        spec_assemble_steps(
            tm,
            commands,
            sources,
            cache,
            s1 + seq![StepModel::Nested { path: p }] + s2,
            resolving,
            e,
        ) == spec_assemble_steps(
            tm,
            commands,
            sources,
            cache,
            s1 + cache[p].steps + s2,
            resolving,
            e,
        ),
{
    let sp = cache[p].steps;
    let nested = seq![StepModel::Nested { path: p }];
    lemma_assemble_append_flat(tm, commands, sources, cache, s1, nested + s2, resolving, e);
    lemma_assemble_append_flat(tm, commands, sources, cache, s1, sp + s2, resolving, e);
    assert(s1 + seq![StepModel::Nested { path: p }] + s2 =~= s1 + (nested + s2));
    assert(s1 + cache[p].steps + s2 =~= s1 + (sp + s2));
    let o1 = spec_assemble_steps(tm, commands, sources, cache, s1, resolving, e);
    if !(o1.error is Some) {
        let e1 = o1.entity;
        let lhs = spec_assemble_steps(tm, commands, sources, cache, nested + s2, resolving, e1);
        assert((nested + s2)[0] == StepModel::Nested { path: p });
        assert((nested + s2).drop_first() =~= s2);
        assert(spec_load(tm, commands.dom(), sources, cache, p) == (
            cache,
            Ok::<PrefabModel, crate::parse::ErrModel>(cache[p]),
        ));
        let sub = spec_assemble_steps(tm, commands, sources, cache, sp, resolving.insert(p), e1);
        lemma_assemble_flat(tm, commands, sources, cache, sp, resolving, resolving.insert(p), e1);
        let o2 = spec_assemble_steps(tm, commands, sources, cache, sp, resolving, e1);
        assert(sub == o2);
        assert(o2.cache == cache);
        lemma_assemble_append_flat(tm, commands, sources, cache, sp, s2, resolving, e1);
        if sub.error is Some {
            assert(lhs == sub);
        } else {
            assert(lhs == spec_assemble_steps(
                tm,
                commands,
                sources,
                sub.cache,
                s2,
                resolving,
                sub.entity,
            ));
        }
    }
}

} // verus!
