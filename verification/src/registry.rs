//! The registry: registered component types, registered build commands, the
//! prefab source store, and the parsed-document cache.

use std::sync::Arc;

use vstd::prelude::*;
use crate::assoc::{acontains_key, aget, ainsert, akeys_distinct, amap, aremove};
use crate::build_commands::BuildPrefabCommand;
use crate::prefab::{Prefab, PrefabModel};
use crate::parse::LoadPrefabError;
use crate::value::{DynamicValue, StructuralShape, ValueModel};

verus! {

broadcast use vstd::seq::group_seq_axioms, vstd::map::group_map_axioms;

/// What registration records about a component type: its structural shape and
/// the default instance that `AddComponent` starts from when the entity does
/// not hold the component yet.
#[derive(Debug)]
pub struct TypeDescriptor {
    pub shape: StructuralShape,
    pub default_value: DynamicValue,
}

/// The mathematical model of a registered type.
pub struct TypeModel {
    pub shape: StructuralShape,
    pub default_value: ValueModel,
}

impl View for TypeDescriptor {
    type V = TypeModel;

    open spec fn view(&self) -> TypeModel {
        TypeModel { shape: self.shape, default_value: self.default_value@ }
    }
}

/// The mathematical model of a registry.
pub struct RegistryModel<C> {
    pub types: Map<Seq<char>, TypeModel>,
    pub commands: Map<Seq<char>, C>,
    pub sources: Map<Seq<char>, Seq<char>>,
    pub cache: Map<Seq<char>, PrefabModel>,
}

/// Manages registered types and build commands, holds prefab source text, and
/// caches parsed prefab documents by path.
pub struct PrefabRegistry<C: BuildPrefabCommand> {
    types: Vec<(String, TypeDescriptor)>,
    commands: Vec<(String, C)>,
    sources: Vec<(String, String)>,
    cache: Vec<(String, Arc<Prefab>)>,
}

impl<C: BuildPrefabCommand> View for PrefabRegistry<C> {
    type V = RegistryModel<C>;

    closed spec fn view(&self) -> RegistryModel<C> {
        RegistryModel {
            types: amap(self.types@),
            commands: amap(self.commands@),
            sources: amap(self.sources@),
            cache: amap(self.cache@),
        }
    }
}

impl<C: BuildPrefabCommand> PrefabRegistry<C> {
    /// Well-formedness: each collection keyed at most once, and every cached
    /// document's path still has its source text.
    pub closed spec fn wf(&self) -> bool {
        &&& akeys_distinct(self.types@)
        &&& akeys_distinct(self.commands@)
        &&& akeys_distinct(self.sources@)
        &&& akeys_distinct(self.cache@)
        &&& forall|k: Seq<char>| #[trigger]
            amap(self.cache@).contains_key(k) ==> amap(self.sources@).contains_key(k)
    }

    /// An empty registry.
    pub fn new() -> (r: PrefabRegistry<C>)
        ensures
            r.wf(),
            r@.types =~= Map::<Seq<char>, TypeModel>::empty(),
            r@.commands =~= Map::<Seq<char>, C>::empty(),
            r@.sources =~= Map::<Seq<char>, Seq<char>>::empty(),
            r@.cache =~= Map::<Seq<char>, PrefabModel>::empty(),
    {
        let r = PrefabRegistry {
            types: Vec::new(),
            commands: Vec::new(),
            sources: Vec::new(),
            cache: Vec::new(),
        };
        proof {
            assert forall|k: Seq<char>| !#[trigger] crate::assoc::acontains(r.types@, k) by {}
            assert forall|k: Seq<char>| !#[trigger] crate::assoc::acontains(r.commands@, k) by {}
            assert forall|k: Seq<char>| !#[trigger] crate::assoc::acontains(r.sources@, k) by {}
            assert forall|k: Seq<char>| !#[trigger] crate::assoc::acontains(r.cache@, k) by {}
        }
        r
    }

    /// Registers a component type under `name`: its structural shape and its
    /// default instance.  Registering a name again overwrites the earlier
    /// registration.
    pub fn register_type(&mut self, name: &str, shape: StructuralShape, default_value: DynamicValue)
        requires
            old(self).wf(),
        ensures
            final(self).wf(),
            final(self)@.types == old(self)@.types.insert(
                name@,
                TypeModel { shape, default_value: default_value@ },
            ),
            final(self)@.commands == old(self)@.commands,
            final(self)@.sources == old(self)@.sources,
            final(self)@.cache == old(self)@.cache,
    {
        ainsert(&mut self.types, name, TypeDescriptor { shape, default_value });
    }

    /// Looks a registered type up by name.
    pub fn get_type_data(&self, name: &str) -> (r: Option<&TypeDescriptor>)
        requires
            self.wf(),
        ensures
            match r {
                Some(t) => self@.types.contains_key(name@) && t@ == self@.types[name@],
                None => !self@.types.contains_key(name@),
            },
    {
        aget(&self.types, name)
    }

    /// Registers a build command under its own key.  Registering the same key
    /// again overwrites the earlier command.
    pub fn register_build_command(&mut self, command: C)
        requires
            old(self).wf(),
        ensures
            final(self).wf(),
            final(self)@.commands == old(self)@.commands.insert(command.spec_key(), command),
            final(self)@.types == old(self)@.types,
            final(self)@.sources == old(self)@.sources,
            final(self)@.cache == old(self)@.cache,
    {
        proof {
            command.view_is_self();
        }
        let key = command.key();
        ainsert(&mut self.commands, key.as_str(), command);
    }

    /// Looks a registered build command up by name.
    pub fn get_build_command(&self, name: &str) -> (r: Option<&C>)
        requires
            self.wf(),
        ensures
            match r {
                Some(c) => self@.commands.contains_key(name@) && c == &self@.commands[name@],
                None => !self@.commands.contains_key(name@),
            },
    {
        let r = aget(&self.commands, name);
        proof {
            match r {
                Some(c) => {
                    c.view_is_self();
                },
                None => {},
            }
        }
        r
    }

    /// Hands the registry the source text a path stands for.  The host reads
    /// prefab files and stores their text here before `load` is called.
    pub fn insert_source(&mut self, path: &str, text: String)
        requires
            old(self).wf(),
        ensures
            final(self).wf(),
            final(self)@.sources == old(self)@.sources.insert(path@, text@),
            final(self)@.types == old(self)@.types,
            final(self)@.commands == old(self)@.commands,
            final(self)@.cache == old(self)@.cache,
    {
        ainsert(&mut self.sources, path, text);
    }

    /// Removes a cached document; the next `load` of the path parses its
    /// source text anew.
    pub fn unload_prefab(&mut self, path: &str)
        requires
            old(self).wf(),
        ensures
            final(self).wf(),
            final(self)@.cache == old(self)@.cache.remove(path@),
            final(self)@.types == old(self)@.types,
            final(self)@.commands == old(self)@.commands,
            final(self)@.sources == old(self)@.sources,
    {
        aremove(&mut self.cache, path);
    }
}

} // verus!

verus! {

/// What `load` does to the cache and returns: a cache hit is handed back
/// unchanged; otherwise the path's source text is parsed against the
/// registered types and commands, and only a fully parsed document enters
/// the cache.
pub open spec fn spec_load(
    tm: Map<Seq<char>, TypeModel>,
    cmds: Set<Seq<char>>,
    sources: Map<Seq<char>, Seq<char>>,
    cache: Map<Seq<char>, PrefabModel>,
    path: Seq<char>,
) -> (Map<Seq<char>, PrefabModel>, Result<PrefabModel, crate::parse::ErrModel>) {
    if cache.contains_key(path) {
        (cache, Ok(cache[path]))
    } else if !sources.contains_key(path) {
        (cache, Err(crate::parse::ErrModel::FileRead(path)))
    } else {
        match crate::parse::sp_parse_prefab(sources[path], tm, cmds) {
            Ok(d) => (cache.insert(path, d), Ok(d)),
            Err(e) => (cache, Err(e)),
        }
    }
}

/// Loading a path twice without an unload in between: once the first load
/// succeeds, the second returns the same document and changes nothing.
pub proof fn lemma_load_idempotent(
    tm: Map<Seq<char>, TypeModel>,
    cmds: Set<Seq<char>>,
    sources: Map<Seq<char>, Seq<char>>,
    cache: Map<Seq<char>, PrefabModel>,
    path: Seq<char>,
)
    ensures
        ({
            let (c1, r1) = spec_load(tm, cmds, sources, cache, path);
            r1 matches Ok(d) ==> spec_load(tm, cmds, sources, c1, path) == (c1, Ok::<
                PrefabModel,
                crate::parse::ErrModel,
            >(d))
        }),
{
    let (c1, r1) = spec_load(tm, cmds, sources, cache, path);
    if r1 is Ok {
        assert(c1.contains_key(path));
    }
}

/// Relies on Arc::clone: the clone is a handle to the same allocation, so it
/// holds the same document.
#[verifier::external_body]
fn arc_clone(a: &Arc<Prefab>) -> (r: Arc<Prefab>)
    ensures
        r == *a,
{
    Arc::clone(a)
}

impl<C: BuildPrefabCommand> PrefabRegistry<C> {
    /// Model-level consequences of well-formedness: the source and cache maps
    /// have finite domains, and every cached path still has source text.
    pub proof fn lemma_wf_model(&self)
        requires
            self.wf(),
        ensures
            self@.sources.dom().finite(),
            self@.cache.dom().finite(),
            forall|k: Seq<char>| #[trigger]
                self@.cache.contains_key(k) ==> self@.sources.contains_key(k),
    {
        crate::assoc::lemma_amap_dom_finite(self.sources@);
        crate::assoc::lemma_amap_dom_finite(self.cache@);
    }

    /// Loads the prefab document a path stands for: the cached document if
    /// the path is cached, else the path's source text parsed and cached.
    /// The registered types and commands, and the source store, are left as
    /// they are; on any error the cache is left as it is and no document is
    /// produced.
    pub fn load(&mut self, path: &str) -> (r: Result<Arc<Prefab>, LoadPrefabError>)
        requires
            old(self).wf(),
        ensures
            final(self).wf(),
            final(self)@.types == old(self)@.types,
            final(self)@.commands == old(self)@.commands,
            final(self)@.sources == old(self)@.sources,
            ({
                let (c2, r2) = spec_load(
                    old(self)@.types,
                    old(self)@.commands.dom(),
                    old(self)@.sources,
                    old(self)@.cache,
                    path@,
                );
                final(self)@.cache == c2 && match (r, r2) {
                    (Ok(d), Ok(dm)) => d@ == dm,
                    (Err(e), Err(em)) => e@ == em,
                    _ => false,
                }
            }),
    {
        let cached = aget(&self.cache, path);
        match cached {
            Some(a) => {
                return Ok(arc_clone(a));
            },
            None => {},
        }
        let text = match aget(&self.sources, path) {
            Some(t) => t.clone(),
            None => {
                return Err(LoadPrefabError::FileReadError(path.to_owned()));
            },
        };
        match crate::parse::parse_prefab_string(text.as_str(), self) {
            Err(e) => Err(e),
            Ok(doc) => {
                let arc = Arc::new(doc);
                let out = arc_clone(&arc);
                ainsert(&mut self.cache, path, arc);
                Ok(out)
            },
        }
    }
}

} // verus!
