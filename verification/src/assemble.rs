//! The entity component store and the assembly of prefab documents onto it.

use vstd::prelude::*;
use crate::assoc::{acontains_key, aget, ainsert, akeys_distinct, amap};
use crate::value::{DynamicValue, ValueModel};

verus! {

broadcast use vstd::seq::group_seq_axioms, vstd::map::group_map_axioms;

/// An entity's component store: each registered type name to at most one
/// component value.
#[derive(Debug)]
pub struct Entity {
    components: Vec<(String, DynamicValue)>,
}

impl View for Entity {
    type V = Map<Seq<char>, ValueModel>;

    closed spec fn view(&self) -> Map<Seq<char>, ValueModel> {
        amap(self.components@)
    }
}

impl Entity {
    /// Whether the store is well formed: one entry per type name.
    pub closed spec fn wf(&self) -> bool {
        akeys_distinct(self.components@)
    }

    /// An entity with no components.
    pub fn new() -> (r: Entity)
        ensures
            r.wf(),
            r@ =~= Map::<Seq<char>, ValueModel>::empty(),
    {
        let e = Entity { components: Vec::new() };
        proof {
            assert forall|k: Seq<char>| !#[trigger] crate::assoc::acontains(e.components@, k) by {}
        }
        e
    }

    /// Whether a component of the named type is present.
    pub fn has_component(&self, type_key: &str) -> (r: bool)
        requires
            self.wf(),
        ensures
            r == self@.contains_key(type_key@),
    {
        acontains_key(&self.components, type_key)
    }

    /// A borrow of the component of the named type, if present.
    pub fn get_component(&self, type_key: &str) -> (r: Option<&DynamicValue>)
        requires
            self.wf(),
        ensures
            match r {
                Some(v) => self@.contains_key(type_key@) && v@ == self@[type_key@],
                None => !self@.contains_key(type_key@),
            },
    {
        aget(&self.components, type_key)
    }

    /// Sets the component of the named type, replacing any present one.
    pub fn set_component(&mut self, type_key: &str, value: DynamicValue)
        requires
            old(self).wf(),
        ensures
            final(self).wf(),
            final(self)@ == old(self)@.insert(type_key@, value@),
    {
        ainsert(&mut self.components, type_key, value);
    }
}

} // verus!

verus! {

/// The outcome of assembling steps: the document cache after any nested
/// loads, the entity's components, and the error that stopped assembly, if
/// one did.
pub struct AssembleOutcome {
    pub cache: Map<Seq<char>, crate::prefab::PrefabModel>,
    pub entity: Map<Seq<char>, ValueModel>,
    pub error: Option<crate::parse::ErrModel>,
}

/// What one `AddComponent` step does: an unregistered type is an error; an
/// already-present component has the overlay merged onto it ("apply"); an
/// absent one starts from the registered default ("add").
pub open spec fn spec_apply_component(
    tm: Map<Seq<char>, crate::registry::TypeModel>,
    e: Map<Seq<char>, ValueModel>,
    type_key: Seq<char>,
    value: ValueModel,
) -> Result<Map<Seq<char>, ValueModel>, crate::parse::ErrModel> {
    if !tm.contains_key(type_key) {
        Err(crate::parse::ErrModel::UnregisteredComponent(type_key))
    } else {
        let base = if e.contains_key(type_key) {
            e[type_key]
        } else {
            tm[type_key].default_value
        };
        Ok(e.insert(type_key, crate::value::merge_model(base, value)))
    }
}

/// What assembling a step sequence does, in document order: components are
/// added or applied, commands run their registered effect, and a nested
/// include loads its document and assembles its steps in place, with the set
/// of prefabs on the active include path tracked to refuse cycles.
pub open spec fn spec_assemble_steps<C: crate::build_commands::BuildPrefabCommand>(
    tm: Map<Seq<char>, crate::registry::TypeModel>,
    commands: Map<Seq<char>, C>,
    sources: Map<Seq<char>, Seq<char>>,
    cache: Map<Seq<char>, crate::prefab::PrefabModel>,
    steps: Seq<crate::prefab::StepModel>,
    resolving: Set<Seq<char>>,
    e: Map<Seq<char>, ValueModel>,
) -> AssembleOutcome
    decreases sources.dom().difference(resolving).len(), steps.len(),
        when sources.dom().finite() && (forall|k: Seq<char>| #[trigger]
            cache.contains_key(k) ==> sources.contains_key(k))
{
    if steps.len() == 0 {
        AssembleOutcome { cache, entity: e, error: None }
    } else {
        let rest = steps.drop_first();
        match steps[0] {
            crate::prefab::StepModel::AddComp { type_key, value } => match spec_apply_component(
                tm,
                e,
                type_key,
                value,
            ) {
                Ok(e2) => spec_assemble_steps(tm, commands, sources, cache, rest, resolving, e2),
                Err(err) => AssembleOutcome { cache, entity: e, error: Some(err) },
            },
            crate::prefab::StepModel::RunCmd { name, props } => {
                if !commands.contains_key(name) {
                    AssembleOutcome {
                        cache,
                        entity: e,
                        error: Some(crate::parse::ErrModel::UnregisteredCommand(name)),
                    }
                } else {
                    spec_assemble_steps(
                        tm,
                        commands,
                        sources,
                        cache,
                        rest,
                        resolving,
                        commands[name].effect(props, e),
                    )
                }
            },
            crate::prefab::StepModel::Nested { path } => {
                if resolving.contains(path) {
                    AssembleOutcome {
                        cache,
                        entity: e,
                        error: Some(crate::parse::ErrModel::Cyclic(path)),
                    }
                } else {
                    let lr = crate::registry::spec_load(tm, commands.dom(), sources, cache, path);
                    match lr.1 {
                        Err(err) => AssembleOutcome { cache: lr.0, entity: e, error: Some(err) },
                        Ok(d) => {
                            proof {
                                broadcast use vstd::set::group_set_axioms;

                                vstd::set_lib::lemma_len_subset(
                                    sources.dom().difference(resolving),
                                    sources.dom(),
                                );
                                assert(sources.dom().difference(resolving.insert(path))
                                    =~= sources.dom().difference(resolving).remove(path));
                                assert(sources.dom().difference(resolving).contains(path));
                            }
                            let sub = spec_assemble_steps(
                                tm,
                                commands,
                                sources,
                                lr.0,
                                d.steps,
                                resolving.insert(path),
                                e,
                            );
                            if sub.error is Some {
                                sub
                            } else {
                                spec_assemble_steps(
                                    tm,
                                    commands,
                                    sources,
                                    sub.cache,
                                    rest,
                                    resolving,
                                    sub.entity,
                                )
                            }
                        },
                    }
                }
            },
        }
    }
}

/// Assembly only ever adds cached documents for paths whose source text the
/// registry holds.
pub proof fn lemma_assemble_cache_wf<C: crate::build_commands::BuildPrefabCommand>(
    tm: Map<Seq<char>, crate::registry::TypeModel>,
    commands: Map<Seq<char>, C>,
    sources: Map<Seq<char>, Seq<char>>,
    cache: Map<Seq<char>, crate::prefab::PrefabModel>,
    steps: Seq<crate::prefab::StepModel>,
    resolving: Set<Seq<char>>,
    e: Map<Seq<char>, ValueModel>,
)
    requires
        sources.dom().finite(),
        forall|k: Seq<char>| #[trigger] cache.contains_key(k) ==> sources.contains_key(k),
    ensures
        ({
            let out = spec_assemble_steps(tm, commands, sources, cache, steps, resolving, e);
            forall|k: Seq<char>| #[trigger] out.cache.contains_key(k) ==> sources.contains_key(k)
        }),
    decreases sources.dom().difference(resolving).len(), steps.len(),
{
    broadcast use vstd::set::group_set_axioms, vstd::map::group_map_axioms;

    if steps.len() == 0 {
    } else {
        let rest = steps.drop_first();
        match steps[0] {
            crate::prefab::StepModel::AddComp { type_key, value } => {
                match spec_apply_component(tm, e, type_key, value) {
                    Ok(e2) => {
                        lemma_assemble_cache_wf(tm, commands, sources, cache, rest, resolving, e2);
                    },
                    Err(_) => {},
                }
            },
            crate::prefab::StepModel::RunCmd { name, props } => {
                if commands.contains_key(name) {
                    lemma_assemble_cache_wf(
                        tm,
                        commands,
                        sources,
                        cache,
                        rest,
                        resolving,
                        commands[name].effect(props, e),
                    );
                }
            },
            crate::prefab::StepModel::Nested { path } => {
                if !resolving.contains(path) {
                    let lr = crate::registry::spec_load(tm, commands.dom(), sources, cache, path);
                    match lr.1 {
                        Err(_) => {},
                        Ok(d) => {
                            vstd::set_lib::lemma_len_subset(
                                sources.dom().difference(resolving),
                                sources.dom(),
                            );
                            assert(sources.dom().difference(resolving.insert(path))
                                =~= sources.dom().difference(resolving).remove(path));
                            assert(sources.dom().difference(resolving).contains(path));
                            lemma_assemble_cache_wf(
                                tm,
                                commands,
                                sources,
                                lr.0,
                                d.steps,
                                resolving.insert(path),
                                e,
                            );
                            let sub = spec_assemble_steps(
                                tm,
                                commands,
                                sources,
                                lr.0,
                                d.steps,
                                resolving.insert(path),
                                e,
                            );
                            if !(sub.error is Some) {
                                lemma_assemble_cache_wf(
                                    tm,
                                    commands,
                                    sources,
                                    sub.cache,
                                    rest,
                                    resolving,
                                    sub.entity,
                                );
                            }
                        },
                    }
                }
            },
        }
    }
}

} // verus!

verus! {

impl<C: crate::build_commands::BuildPrefabCommand> crate::registry::PrefabRegistry<C> {
    /// Assembles the steps of `steps` from `idx` on onto the entity, in
    /// document order, with `resolving` holding the prefab paths on the
    /// active nested-include chain.
    fn assemble_from(
        &mut self,
        steps: &Vec<crate::prefab::PrefabBuildStep>,
        idx: usize,
        entity: &mut Entity,
        resolving: &mut Vec<String>,
    ) -> (r: Result<(), crate::parse::LoadPrefabError>)
        requires
            old(self).wf(),
            old(entity).wf(),
            idx <= steps.len(),
        ensures
            final(self).wf(),
            final(entity).wf(),
            final(self)@.types == old(self)@.types,
            final(self)@.commands == old(self)@.commands,
            final(self)@.sources == old(self)@.sources,
            final(resolving)@ == old(resolving)@,
            ({
                let out = spec_assemble_steps(
                    old(self)@.types,
                    old(self)@.commands,
                    old(self)@.sources,
                    old(self)@.cache,
                    crate::prefab::steps_views(*steps).subrange(idx as int, steps.len() as int),
                    crate::strutil::str_set(*old(resolving)),
                    old(entity)@,
                );
                final(self)@.cache == out.cache && final(entity)@ == out.entity && match r {
                    Ok(()) => out.error is None,
                    Err(e) => out.error == Some(e@),
                }
            }),
        decreases self@.sources.dom().difference(crate::strutil::str_set(*resolving)).len(),
            steps.len() - idx,
    {
        broadcast use
            vstd::set::group_set_axioms,
            vstd::map::group_map_axioms,
            vstd::seq::group_seq_axioms,
            crate::prefab::lemma_steps_views,
        ;

        let ghost tm = self@.types;
        let ghost commands0 = self@.commands;
        let ghost sources0 = self@.sources;
        let ghost cache0 = self@.cache;
        let ghost rset = crate::strutil::str_set(*resolving);
        let ghost all = crate::prefab::steps_views(*steps);
        let ghost suffix = all.subrange(idx as int, steps.len() as int);
        proof {
            self.lemma_wf_model();
        }
        if idx == steps.len() {
            proof {
                assert(suffix.len() == 0);
            }
            return Ok(());
        }
        proof {
            assert(suffix[0] == steps[idx as int]@);
            assert(suffix.drop_first() =~= all.subrange(idx as int + 1, steps.len() as int));
        }
        match &steps[idx] {
            crate::prefab::PrefabBuildStep::AddComponent(pc) => {
                let default_value = match self.get_type_data(pc.type_key.as_str()) {
                    None => {
                        return Err(
                            crate::parse::LoadPrefabError::UnregisteredComponent(
                                pc.type_key.clone(),
                            ),
                        );
                    },
                    Some(td) => crate::value::clone_value(&td.default_value),
                };
                let merged = match entity.get_component(pc.type_key.as_str()) {
                    Some(base) => crate::value::merge_values(base, &pc.value),
                    None => crate::value::merge_values(&default_value, &pc.value),
                };
                entity.set_component(pc.type_key.as_str(), merged);
                self.assemble_from(steps, idx + 1, entity, resolving)
            },
            crate::prefab::PrefabBuildStep::RunCommand(cd) => {
                match self.get_build_command(cd.name.as_str()) {
                    None => {
                        return Err(
                            crate::parse::LoadPrefabError::UnregisteredCommand(cd.name.clone()),
                        );
                    },
                    Some(cmd) => {
                        cmd.run(cd.properties.as_ref(), entity);
                    },
                }
                self.assemble_from(steps, idx + 1, entity, resolving)
            },
            crate::prefab::PrefabBuildStep::LoadNestedPrefab(path) => {
                if crate::strutil::str_vec_contains(resolving, path.as_str()) {
                    return Err(
                        crate::parse::LoadPrefabError::CyclicPrefabReference(path.clone()),
                    );
                }
                let doc = match self.load(path.as_str()) {
                    Err(e) => {
                        return Err(e);
                    },
                    Ok(doc) => doc,
                };
                let ghost lr = crate::registry::spec_load(
                    tm,
                    commands0.dom(),
                    sources0,
                    cache0,
                    path@,
                );
                proof {
                    vstd::set_lib::lemma_len_subset(
                        sources0.dom().difference(rset),
                        sources0.dom(),
                    );
                    assert(sources0.dom().difference(rset.insert(path@)) =~= sources0.dom()
                        .difference(rset).remove(path@));
                    assert(sources0.dom().difference(rset).contains(path@));
                }
                resolving.push(path.clone());
                proof {
                    assert forall|k: Seq<char>| #[trigger]
                        crate::strutil::str_set(*resolving).contains(k) == rset.insert(
                            path@,
                        ).contains(k) by {
                        let v1 = *resolving;
                        let n = v1.len() as int - 1;
                        if crate::strutil::str_set(v1).contains(k) {
                            let j = choose|j: int| 0 <= j < v1.len() && v1[j]@ == k;
                            if j < n {
                                assert(old(resolving)[j]@ == k);
                            }
                        }
                        if rset.contains(k) {
                            let j = choose|j: int|
                                0 <= j < old(resolving).len() && old(resolving)[j]@ == k;
                            assert(v1[j]@ == k);
                        }
                        if k == path@ {
                            assert(v1[n]@ == k);
                        }
                    }
                    assert(crate::strutil::str_set(*resolving) =~= rset.insert(path@));
                }
                let ghost sub = spec_assemble_steps(
                    tm,
                    commands0,
                    sources0,
                    lr.0,
                    doc@.steps,
                    rset.insert(path@),
                    old(entity)@,
                );
                proof {
                    assert(crate::prefab::steps_views(doc.steps).subrange(
                        0,
                        doc.steps.len() as int,
                    ) =~= crate::prefab::steps_views(doc.steps));
                }
                let res = self.assemble_from(&doc.steps, 0, entity, resolving);
                let ghost pushed = *resolving;
                let popped = resolving.pop();
                proof {
                    assert(resolving@ =~= old(resolving)@);
                    assert(crate::strutil::str_set(*resolving) =~= rset) by {
                        assert forall|k: Seq<char>| #[trigger]
                            crate::strutil::str_set(*resolving).contains(k) == rset.contains(
                                k,
                            ) by {
                            if crate::strutil::str_set(*resolving).contains(k) {
                                let j = choose|j: int|
                                    0 <= j < resolving.len() && resolving[j]@ == k;
                                assert(old(resolving)[j]@ == k);
                            }
                            if rset.contains(k) {
                                let j = choose|j: int|
                                    0 <= j < old(resolving).len() && old(resolving)[j]@ == k;
                                assert(resolving[j]@ == k);
                            }
                        }
                    }
                }
                match res {
                    Err(e) => Err(e),
                    Ok(()) => {
                        proof {
                            lemma_assemble_cache_wf(
                                tm,
                                commands0,
                                sources0,
                                lr.0,
                                doc@.steps,
                                rset.insert(path@),
                                old(entity)@,
                            );
                        }
                        self.assemble_from(steps, idx + 1, entity, resolving)
                    },
                }
            },
        }
    }

    /// Assembles a prefab document's steps onto an entity, in document
    /// order: components are added or applied, commands run, and nested
    /// prefabs are loaded and spliced in place.  Any failing step stops
    /// assembly there; the entity keeps what earlier steps did.
    pub fn assemble(&mut self, prefab: &crate::prefab::Prefab, entity: &mut Entity) -> (r: Result<
        (),
        crate::parse::LoadPrefabError,
    >)
        requires
            old(self).wf(),
            old(entity).wf(),
        ensures
            final(self).wf(),
            final(entity).wf(),
            final(self)@.types == old(self)@.types,
            final(self)@.commands == old(self)@.commands,
            final(self)@.sources == old(self)@.sources,
            ({
                let out = spec_assemble_steps(
                    old(self)@.types,
                    old(self)@.commands,
                    old(self)@.sources,
                    old(self)@.cache,
                    prefab@.steps,
                    Set::<Seq<char>>::empty(),
                    old(entity)@,
                );
                final(self)@.cache == out.cache && final(entity)@ == out.entity && match r {
                    Ok(()) => out.error is None,
                    Err(e) => out.error == Some(e@),
                }
            }),
    {
        broadcast use vstd::set::group_set_axioms;

        let mut resolving: Vec<String> = Vec::new();
        proof {
            crate::prefab::lemma_steps_views(prefab.steps, 0);
            assert(crate::strutil::str_set(resolving) =~= Set::<Seq<char>>::empty());
            assert(crate::prefab::steps_views(prefab.steps).subrange(
                0,
                prefab.steps.len() as int,
            ) =~= crate::prefab::steps_views(prefab.steps));
        }
        self.assemble_from(&prefab.steps, 0, entity, &mut resolving)
    }

    /// Loads the prefab a path stands for and assembles it onto the entity:
    /// the composition `load` then `assemble`.
    pub fn spawn_prefab(&mut self, path: &str, entity: &mut Entity) -> (r: Result<
        (),
        crate::parse::LoadPrefabError,
    >)
        requires
            old(self).wf(),
            old(entity).wf(),
        ensures
            final(self).wf(),
            final(entity).wf(),
            final(self)@.types == old(self)@.types,
            final(self)@.commands == old(self)@.commands,
            final(self)@.sources == old(self)@.sources,
            ({
                let lr = crate::registry::spec_load(
                    old(self)@.types,
                    old(self)@.commands.dom(),
                    old(self)@.sources,
                    old(self)@.cache,
                    path@,
                );
                match lr.1 {
                    Err(em) => {
                        &&& final(self)@.cache == lr.0
                        &&& final(entity)@ == old(entity)@
                        &&& r matches Err(e) && e@ == em
                    },
                    Ok(dm) => ({
                        let out = spec_assemble_steps(
                            old(self)@.types,
                            old(self)@.commands,
                            old(self)@.sources,
                            lr.0,
                            dm.steps,
                            Set::<Seq<char>>::empty(),
                            old(entity)@,
                        );
                        final(self)@.cache == out.cache && final(entity)@ == out.entity && match r {
                            Ok(()) => out.error is None,
                            Err(e) => out.error == Some(e@),
                        }
                    }),
                }
            }),
    {
        let doc = match self.load(path) {
            Err(e) => {
                return Err(e);
            },
            Ok(doc) => doc,
        };
        self.assemble(&doc, entity)
    }
}

} // verus!
