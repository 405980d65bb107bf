//! Reading and writing the fields of a composite value.

use vstd::prelude::*;
use crate::value::{
    CompositeValue, DynamicValue, FieldModel, FieldValue, ValueModel, field_index, fields_views,
    find_field, has_field, insert_field, clone_value,
};

verus! {

broadcast use
    vstd::seq::group_seq_axioms,
    crate::value::lemma_fields_views,
;

/// Why a field's value could not be handed out.
#[derive(Debug, PartialEq)]
pub enum GetValueError {
    /// The named field does not exist on the composite: the field's name and
    /// the requested type's name.
    FieldDoesntExist(String, String),
    /// The field exists but holds another kind of value: the holder's name
    /// and the requested type's name.
    FailedCast(String, String),
}

impl CompositeValue {
    /// The models of this composite's fields, in order.
    pub open spec fn spec_fields(&self) -> Seq<FieldModel> {
        fields_views(self.fields)
    }

    /// An empty composite of the given shape.
    pub fn empty(shape: crate::value::StructuralShape) -> (r: CompositeValue)
        ensures
            r.shape == shape,
            r.spec_fields() =~= Seq::<FieldModel>::empty(),
    {
        CompositeValue { shape, fields: Vec::new() }
    }

    /// A borrow of the first field called `name`, if any.
    pub fn field(&self, name: &str) -> (r: Option<&DynamicValue>)
        ensures
            match r {
                Some(v) => {
                    &&& has_field(self.spec_fields(), name@)
                    &&& v@ == self.spec_fields()[field_index(self.spec_fields(), name@)].value
                },
                None => !has_field(self.spec_fields(), name@),
            },
    {
        match find_field(&self.fields, name) {
            Some(i) => Some(&self.fields[i].value),
            None => None,
        }
    }

    /// Sets the first field called `name` to `value`, or appends a new field.
    pub fn insert(&mut self, name: &str, value: DynamicValue)
        ensures
            final(self).shape == old(self).shape,
            final(self).spec_fields() == insert_field(
                old(self).spec_fields(),
                FieldModel { name: name@, value: value@ },
            ),
    {
        let ghost before = fields_views(self.fields);
        match find_field(&self.fields, name) {
            Some(i) => {
                self.fields.set(i, FieldValue { name: name.to_owned(), value });
                proof {
                    assert(fields_views(self.fields) =~= before.update(
                        field_index(before, name@),
                        FieldModel { name: name@, value: value@ },
                    ));
                }
            },
            None => {
                self.fields.push(FieldValue { name: name.to_owned(), value });
                proof {
                    assert(fields_views(self.fields) =~= before.push(
                        FieldModel { name: name@, value: value@ },
                    ));
                }
            },
        }
    }

    /// The first field called `name`, or the error that says why not.
    pub fn try_get(&self, name: &str) -> (r: Result<&DynamicValue, GetValueError>)
        ensures
            match r {
                Ok(v) => {
                    &&& has_field(self.spec_fields(), name@)
                    &&& v@ == self.spec_fields()[field_index(self.spec_fields(), name@)].value
                },
                Err(e) => {
                    &&& !has_field(self.spec_fields(), name@)
                    &&& e matches GetValueError::FieldDoesntExist(f, t) && f@ == name@ && t@
                        == "DynamicValue"@
                },
            },
    {
        match self.field(name) {
            Some(v) => Ok(v),
            None => Err(
                GetValueError::FieldDoesntExist(name.to_owned(), "DynamicValue".to_owned()),
            ),
        }
    }

    /// The integer held by the first field called `name`, or why not.
    pub fn try_get_int(&self, name: &str) -> (r: Result<i32, GetValueError>)
        ensures
            match r {
                Ok(n) => {
                    &&& has_field(self.spec_fields(), name@)
                    &&& self.spec_fields()[field_index(self.spec_fields(), name@)].value
                        == ValueModel::Int(n)
                },
                Err(e) => match e {
                    GetValueError::FieldDoesntExist(f, t) => {
                        &&& !has_field(self.spec_fields(), name@)
                        &&& f@ == name@ && t@ == "i32"@
                    },
                    GetValueError::FailedCast(f, t) => {
                        &&& has_field(self.spec_fields(), name@)
                        &&& !(self.spec_fields()[field_index(self.spec_fields(), name@)].value
                            matches ValueModel::Int(_))
                        &&& f@ == "DynamicValue"@ && t@ == "i32"@
                    },
                },
            },
    {
        match self.field(name) {
            Some(DynamicValue::Int(n)) => Ok(*n),
            Some(_) => Err(GetValueError::FailedCast("DynamicValue".to_owned(), "i32".to_owned())),
            None => Err(GetValueError::FieldDoesntExist(name.to_owned(), "i32".to_owned())),
        }
    }

    /// The string held by the first field called `name`, or why not.
    pub fn try_get_str(&self, name: &str) -> (r: Result<String, GetValueError>)
        ensures
            match r {
                Ok(s) => {
                    &&& has_field(self.spec_fields(), name@)
                    &&& self.spec_fields()[field_index(self.spec_fields(), name@)].value
                        == ValueModel::Str(s@)
                },
                Err(e) => match e {
                    GetValueError::FieldDoesntExist(f, t) => {
                        &&& !has_field(self.spec_fields(), name@)
                        &&& f@ == name@ && t@ == "String"@
                    },
                    GetValueError::FailedCast(f, t) => {
                        &&& has_field(self.spec_fields(), name@)
                        &&& !(self.spec_fields()[field_index(self.spec_fields(), name@)].value
                            matches ValueModel::Str(_))
                        &&& f@ == "DynamicValue"@ && t@ == "String"@
                    },
                },
            },
    {
        match self.field(name) {
            Some(DynamicValue::Str(s)) => Ok(s.clone()),
            Some(_) => Err(
                GetValueError::FailedCast("DynamicValue".to_owned(), "String".to_owned()),
            ),
            None => Err(GetValueError::FieldDoesntExist(name.to_owned(), "String".to_owned())),
        }
    }

    /// A copy of the first field called `name`, or why not.
    pub fn try_get_value(&self, name: &str) -> (r: Result<DynamicValue, GetValueError>)
        ensures
            match r {
                Ok(v) => {
                    &&& has_field(self.spec_fields(), name@)
                    &&& v@ == self.spec_fields()[field_index(self.spec_fields(), name@)].value
                },
                Err(e) => {
                    &&& !has_field(self.spec_fields(), name@)
                    &&& e matches GetValueError::FieldDoesntExist(f, t) && f@ == name@ && t@
                        == "DynamicValue"@
                },
            },
    {
        match self.try_get(name) {
            Ok(v) => Ok(clone_value(v)),
            Err(e) => Err(e),
        }
    }
}

} // verus!
