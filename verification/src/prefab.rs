//! The prefab document model: an ordered list of build steps, immutable once
//! parsed.

use vstd::prelude::*;
use crate::value::{CompositeValue, DynamicValue, ValueModel};

verus! {

broadcast use vstd::std_specs::vec::axiom_vec_index_decreases, vstd::seq::group_seq_axioms;

/// A component to add or apply: the registered type's name and the parsed
/// composite value.
#[derive(Debug, PartialEq)]
pub struct PrefabComponent {
    pub type_key: String,
    pub value: DynamicValue,
}

/// A build command call: the command's name and its optional properties.
#[derive(Debug, PartialEq)]
pub struct PrefabCommandData {
    pub name: String,
    pub properties: Option<CompositeValue>,
}

/// One step of a prefab document, in source order.
#[derive(Debug, PartialEq)]
pub enum PrefabBuildStep {
    /// Add the named component to the entity, or apply it onto an existing one.
    AddComponent(PrefabComponent),
    /// Run the named build command with the given properties.
    RunCommand(PrefabCommandData),
    /// Assemble the steps of another prefab document in place.
    LoadNestedPrefab(String),
}

/// A prefab document: an optional name and its steps in source order.
#[derive(Debug, PartialEq)]
pub struct Prefab {
    pub name: Option<String>,
    pub steps: Vec<PrefabBuildStep>,
}

/// The mathematical model of one build step.
pub enum StepModel {
    AddComp { type_key: Seq<char>, value: ValueModel },
    RunCmd { name: Seq<char>, props: Option<ValueModel> },
    Nested { path: Seq<char> },
}

/// The mathematical model of a prefab document.
pub struct PrefabModel {
    pub name: Option<Seq<char>>,
    pub steps: Seq<StepModel>,
}

impl View for PrefabBuildStep {
    type V = StepModel;

    open spec fn view(&self) -> StepModel {
        match self {
            PrefabBuildStep::AddComponent(c) => StepModel::AddComp {
                type_key: c.type_key@,
                value: c.value@,
            },
            PrefabBuildStep::RunCommand(d) => StepModel::RunCmd {
                name: d.name@,
                props: match &d.properties {
                    Some(p) => Some(p@),
                    None => None,
                },
            },
            PrefabBuildStep::LoadNestedPrefab(p) => StepModel::Nested { path: p@ },
        }
    }
}

/// The views of the steps of `v` from position `i` on.
pub open spec fn steps_views_from(v: Vec<PrefabBuildStep>, i: int) -> Seq<StepModel>
    decreases v.len() - i,
{
    if i < 0 || i >= v.len() {
        Seq::empty()
    } else {
        seq![v[i]@] + steps_views_from(v, i + 1)
    }
}

/// The views of the steps of `v`, element by element.
pub open spec fn steps_views(v: Vec<PrefabBuildStep>) -> Seq<StepModel> {
    steps_views_from(v, 0)
}

proof fn lemma_steps_views_rec(v: Vec<PrefabBuildStep>, i: int)
    requires
        0 <= i <= v.len(),
    ensures
        steps_views_from(v, i).len() == v.len() - i,
        forall|k: int| 0 <= k < v.len() - i ==> steps_views_from(v, i)[k] == v[k + i]@,
    decreases v.len() - i,
{
    if i < v.len() {
        lemma_steps_views_rec(v, i + 1);
        assert(steps_views_from(v, i) =~= seq![v[i]@] + steps_views_from(v, i + 1));
        assert forall|k: int| 0 <= k < v.len() - i implies steps_views_from(v, i)[k] == v[k
            + i]@ by {
            if k > 0 {
                assert(steps_views_from(v, i)[k] == steps_views_from(v, i + 1)[k - 1]);
            }
        }
    } else {
        assert(steps_views_from(v, i) =~= Seq::empty());
    }
}

/// `steps_views_from` takes each step from `i` on to its view, in place.
pub broadcast proof fn lemma_steps_views(v: Vec<PrefabBuildStep>, i: int)
    requires
        0 <= i <= v.len(),
    ensures
        (#[trigger] steps_views_from(v, i)).len() == v.len() - i,
        forall|k: int| 0 <= k < v.len() - i ==> #[trigger] steps_views_from(v, i)[k] == v[k + i]@,
{
    lemma_steps_views_rec(v, i);
}

impl View for Prefab {
    type V = PrefabModel;

    open spec fn view(&self) -> PrefabModel {
        PrefabModel {
            name: match &self.name {
                Some(n) => Some(n@),
                None => None,
            },
            steps: steps_views_from(self.steps, 0),
        }
    }
}

} // verus!
