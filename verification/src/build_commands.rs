//! Build commands: the named, pluggable extension point for entity
//! initialization that cannot be expressed as literal component text.

use vstd::prelude::*;
use crate::assemble::Entity;
use crate::value::{CompositeValue, DynamicValue, ValueModel};

verus! {

/// The model of a command's optional properties.
pub open spec fn props_view(p: Option<&CompositeValue>) -> Option<ValueModel> {
    match p {
        Some(c) => Some(c@),
        None => None,
    }
}

/// A build command: reads its optional properties and mutates the entity's
/// component store.  Implementations say in `effect` what running them does,
/// and `run` is verified against it.
pub trait BuildPrefabCommand: Sized + View<V = Self> {
    /// The name under which the command is registered and invoked.
    spec fn spec_key(&self) -> Seq<char>;

    /// What running the command does to an entity's component store.
    spec fn effect(&self, props: Option<ValueModel>, e: Map<Seq<char>, ValueModel>) -> Map<
        Seq<char>,
        ValueModel,
    >;

    /// A command value is its own model.
    proof fn view_is_self(&self)
        ensures
            self@ == *self,
    ;

    /// The key this command is referred to by from prefab text.
    fn key(&self) -> (r: String)
        ensures
            r@ == self.spec_key(),
    ;

    /// Runs the command against an entity.
    fn run(&self, properties: Option<&CompositeValue>, entity: &mut Entity)
        requires
            old(entity).wf(),
        ensures
            final(entity).wf(),
            final(entity)@ == self.effect(props_view(properties), old(entity)@),
    ;
}

/// A ready-made build command that sets one fixed component on the entity,
/// whatever properties the document hands it.
#[derive(Debug)]
pub struct InsertComponentCommand {
    pub key_name: String,
    pub type_key: String,
    pub value: DynamicValue,
}

impl View for InsertComponentCommand {
    type V = InsertComponentCommand;

    open spec fn view(&self) -> InsertComponentCommand {
        *self
    }
}

impl BuildPrefabCommand for InsertComponentCommand {
    open spec fn spec_key(&self) -> Seq<char> {
        self.key_name@
    }

    open spec fn effect(&self, props: Option<ValueModel>, e: Map<Seq<char>, ValueModel>) -> Map<
        Seq<char>,
        ValueModel,
    > {
        e.insert(self.type_key@, self.value@)
    }

    proof fn view_is_self(&self) {
    }

    fn key(&self) -> (r: String) {
        self.key_name.clone()
    }

    fn run(&self, properties: Option<&CompositeValue>, entity: &mut Entity) {
        let value = crate::value::clone_value(&self.value);
        entity.set_component(self.type_key.as_str(), value);
    }
}

} // verus!
