//! The dynamic value model: a tagged union of the literal forms the prefab
//! grammar can express, plus structurally-typed composites with named or
//! positional fields.

use vstd::prelude::*;

verus! {

broadcast use vstd::std_specs::vec::axiom_vec_index_decreases, vstd::seq::group_seq_axioms;

/// The structural layout of a registered type: how parsed field literals are
/// assembled into a composite value.
#[derive(Clone, Copy, Debug, PartialEq, Eq, Structural)]
pub enum StructuralShape {
    Struct,
    TupleStruct,
    Tuple,
    List,
    Mapping,
    Value,
}

/// A decimal literal, kept exactly as written: sign, integer part, and the
/// fractional digits (their value and their count, so that `3.05` and `3.5`
/// stay distinct).
#[derive(Clone, Copy, Debug, PartialEq, Eq, Structural)]
pub struct Decimal {
    pub neg: bool,
    pub int_part: u32,
    pub frac_part: u32,
    pub frac_len: u32,
}

/// A color literal, a closed enumeration of named constants.
#[derive(Clone, Copy, Debug, PartialEq, Eq, Structural)]
pub enum Color {
    Red,
    Green,
    Blue,
    Yellow,
    Pink,
}

/// An integer range literal `(start..end)`.
#[derive(Clone, Copy, Debug, PartialEq, Eq, Structural)]
pub struct RangeValue {
    pub start: i32,
    pub end: i32,
}

/// A three-component vector literal; unset components default to zero.
#[derive(Clone, Copy, Debug, PartialEq, Eq, Structural)]
pub struct Vector3Value {
    pub x: Decimal,
    pub y: Decimal,
    pub z: Decimal,
}

/// A named field of a composite value.  For positional shapes the name is the
/// one found in the source but carries no meaning.
#[derive(Debug, PartialEq)]
pub struct FieldValue {
    pub name: String,
    pub value: DynamicValue,
}

/// A structurally-typed composite: the shape it was built for and its fields
/// in source order.
#[derive(Debug, PartialEq)]
pub struct CompositeValue {
    pub shape: StructuralShape,
    pub fields: Vec<FieldValue>,
}

/// The runtime value representation: every literal form of the grammar.
#[derive(Debug, PartialEq)]
pub enum DynamicValue {
    Int(i32),
    Float(Decimal),
    Char(u8),
    Str(String),
    List(Vec<DynamicValue>),
    Range(RangeValue),
    Vector3(Vector3Value),
    Color(Color),
    ShapeLiteral(String),
    Composite(CompositeValue),
}

/// The mathematical model of a field: its name and value.
pub struct FieldModel {
    pub name: Seq<char>,
    pub value: ValueModel,
}

/// The mathematical model of a [`DynamicValue`].
pub enum ValueModel {
    Int(i32),
    Float(Decimal),
    Char(u8),
    Str(Seq<char>),
    List(Seq<ValueModel>),
    Range(RangeValue),
    Vector3(Vector3Value),
    Color(Color),
    Shape(Seq<char>),
    Composite(StructuralShape, Seq<FieldModel>),
}

/// The views of the fields of `v` from position `i` on.
pub open spec fn fields_views_from(v: Vec<FieldValue>, i: int) -> Seq<FieldModel>
    decreases v, v.len() - i,
{
    if i < 0 || i >= v.len() {
        Seq::empty()
    } else {
        seq![v[i]@] + fields_views_from(v, i + 1)
    }
}

/// The views of the fields of `v`, element by element.
pub open spec fn fields_views(v: Vec<FieldValue>) -> Seq<FieldModel> {
    fields_views_from(v, 0)
}

/// The views of the elements of `v` from position `i` on.
pub open spec fn values_views_from(v: Vec<DynamicValue>, i: int) -> Seq<ValueModel>
    decreases v, v.len() - i,
{
    if i < 0 || i >= v.len() {
        Seq::empty()
    } else {
        seq![v[i]@] + values_views_from(v, i + 1)
    }
}

/// The views of the elements of `v`, element by element.
pub open spec fn values_views(v: Vec<DynamicValue>) -> Seq<ValueModel> {
    values_views_from(v, 0)
}

impl View for FieldValue {
    type V = FieldModel;

    open spec fn view(&self) -> FieldModel
        decreases self,
    {
        FieldModel { name: self.name@, value: self.value@ }
    }
}

impl View for CompositeValue {
    type V = ValueModel;

    open spec fn view(&self) -> ValueModel
        decreases self,
    {
        ValueModel::Composite(self.shape, fields_views_from(self.fields, 0))
    }
}

impl View for DynamicValue {
    type V = ValueModel;

    open spec fn view(&self) -> ValueModel
        decreases self,
    {
        match self {
            DynamicValue::Int(v) => ValueModel::Int(*v),
            DynamicValue::Float(d) => ValueModel::Float(*d),
            DynamicValue::Char(c) => ValueModel::Char(*c),
            DynamicValue::Str(s) => ValueModel::Str(s@),
            DynamicValue::List(items) => ValueModel::List(values_views_from(*items, 0)),
            DynamicValue::Range(r) => ValueModel::Range(*r),
            DynamicValue::Vector3(v) => ValueModel::Vector3(*v),
            DynamicValue::Color(c) => ValueModel::Color(*c),
            DynamicValue::ShapeLiteral(s) => ValueModel::Shape(s@),
            DynamicValue::Composite(c) => c.view(),
        }
    }
}

proof fn lemma_fields_views_rec(v: Vec<FieldValue>, i: int)
    requires
        0 <= i <= v.len(),
    ensures
        fields_views_from(v, i).len() == v.len() - i,
        forall|k: int| 0 <= k < v.len() - i ==> fields_views_from(v, i)[k] == v[k + i]@,
    decreases v.len() - i,
{
    if i < v.len() {
        lemma_fields_views_rec(v, i + 1);
        assert(fields_views_from(v, i) =~= seq![v[i]@] + fields_views_from(v, i + 1));
        assert forall|k: int| 0 <= k < v.len() - i implies fields_views_from(v, i)[k] == v[k
            + i]@ by {
            if k > 0 {
                assert(fields_views_from(v, i)[k] == fields_views_from(v, i + 1)[k - 1]);
            }
        }
    } else {
        assert(fields_views_from(v, i) =~= Seq::empty());
    }
}

/// `fields_views_from` takes each field from `i` on to its view, in place.
pub broadcast proof fn lemma_fields_views(v: Vec<FieldValue>, i: int)
    requires
        0 <= i <= v.len(),
    ensures
        (#[trigger] fields_views_from(v, i)).len() == v.len() - i,
        forall|k: int| 0 <= k < v.len() - i ==> #[trigger] fields_views_from(v, i)[k] == v[k + i]@,
{
    lemma_fields_views_rec(v, i);
}

proof fn lemma_values_views_rec(v: Vec<DynamicValue>, i: int)
    requires
        0 <= i <= v.len(),
    ensures
        values_views_from(v, i).len() == v.len() - i,
        forall|k: int| 0 <= k < v.len() - i ==> values_views_from(v, i)[k] == v[k + i]@,
    decreases v.len() - i,
{
    if i < v.len() {
        lemma_values_views_rec(v, i + 1);
        assert(values_views_from(v, i) =~= seq![v[i]@] + values_views_from(v, i + 1));
        assert forall|k: int| 0 <= k < v.len() - i implies values_views_from(v, i)[k] == v[k
            + i]@ by {
            if k > 0 {
                assert(values_views_from(v, i)[k] == values_views_from(v, i + 1)[k - 1]);
            }
        }
    } else {
        assert(values_views_from(v, i) =~= Seq::empty());
    }
}

/// `values_views_from` takes each element from `i` on to its view, in place.
pub broadcast proof fn lemma_values_views(v: Vec<DynamicValue>, i: int)
    requires
        0 <= i <= v.len(),
    ensures
        (#[trigger] values_views_from(v, i)).len() == v.len() - i,
        forall|k: int| 0 <= k < v.len() - i ==> #[trigger] values_views_from(v, i)[k] == v[k + i]@,
{
    lemma_values_views_rec(v, i);
}

/// The first position of `name` among `fields`, or `-1` when absent.
pub open spec fn field_index(fields: Seq<FieldModel>, name: Seq<char>) -> int
    decreases fields.len(),
{
    if fields.len() == 0 {
        -1
    } else if fields[0].name == name {
        0
    } else {
        let r = field_index(fields.drop_first(), name);
        if r < 0 {
            -1
        } else {
            r + 1
        }
    }
}

/// Whether a field called `name` occurs among `fields`.
pub open spec fn has_field(fields: Seq<FieldModel>, name: Seq<char>) -> bool {
    field_index(fields, name) >= 0
}

/// What `field_index` finds: the first occurrence of the name, or none at all.
pub proof fn lemma_field_index(fields: Seq<FieldModel>, name: Seq<char>)
    ensures
        field_index(fields, name) == -1 ==> forall|i: int|
            0 <= i < fields.len() ==> fields[i].name != name,
        field_index(fields, name) >= 0 ==> {
            &&& field_index(fields, name) < fields.len()
            &&& fields[field_index(fields, name)].name == name
            &&& forall|i: int| 0 <= i < field_index(fields, name) ==> fields[i].name != name
        },
    decreases fields.len(),
{
    if fields.len() > 0 && fields[0].name != name {
        lemma_field_index(fields.drop_first(), name);
        assert forall|i: int|
            1 <= i < fields.len() implies fields.drop_first()[i - 1] == fields[i] by {}
    }
}

/// Inserting a field: replace the first field of the same name, else append.
pub open spec fn insert_field(fields: Seq<FieldModel>, f: FieldModel) -> Seq<FieldModel> {
    let i = field_index(fields, f.name);
    if i >= 0 {
        fields.update(i, f)
    } else {
        fields.push(f)
    }
}

/// How an overlay value is merged onto a base value: composites of the same
/// shape merge field by field (by name for `Struct`, by position for
/// `TupleStruct` and `Tuple`); every other overlay replaces the base.
pub open spec fn merge_model(base: ValueModel, overlay: ValueModel) -> ValueModel
    decreases overlay,
{
    match overlay {
        ValueModel::Composite(oshape, ofields) => match base {
            ValueModel::Composite(bshape, bfields) => {
                if bshape == oshape {
                    if oshape == StructuralShape::Struct {
                        ValueModel::Composite(bshape, merge_fields_named(bfields, ofields))
                    } else if oshape == StructuralShape::TupleStruct || oshape
                        == StructuralShape::Tuple {
                        ValueModel::Composite(bshape, merge_fields_positional(bfields, ofields))
                    } else {
                        overlay
                    }
                } else {
                    overlay
                }
            },
            _ => overlay,
        },
        _ => overlay,
    }
}

/// Merges one named overlay field onto base fields: the first field of the
/// same name takes the merged value; a new name is appended.
pub open spec fn merge_field_named(bfields: Seq<FieldModel>, f: FieldModel) -> Seq<FieldModel>
    decreases f,
{
    let i = field_index(bfields, f.name);
    if i >= 0 {
        bfields.update(i, FieldModel { name: f.name, value: merge_model(bfields[i].value, f.value) })
    } else {
        bfields.push(f)
    }
}

/// Merges named overlay fields onto base fields, left to right.
pub open spec fn merge_fields_named(bfields: Seq<FieldModel>, ofields: Seq<FieldModel>) -> Seq<
    FieldModel,
>
    decreases ofields,
{
    if ofields.len() == 0 {
        bfields
    } else {
        merge_fields_named(merge_field_named(bfields, ofields[0]), ofields.drop_first())
    }
}

/// Merges overlay fields onto base fields position by position; positions
/// only the overlay has are appended, positions only the base has are kept.
pub open spec fn merge_fields_positional(
    bfields: Seq<FieldModel>,
    ofields: Seq<FieldModel>,
) -> Seq<FieldModel>
    decreases ofields,
{
    if ofields.len() == 0 {
        bfields
    } else if bfields.len() == 0 {
        ofields
    } else {
        seq![
            FieldModel {
                name: ofields[0].name,
                value: merge_model(bfields[0].value, ofields[0].value),
            },
        ] + merge_fields_positional(bfields.drop_first(), ofields.drop_first())
    }
}

} // verus!


verus! {

/// The position at which `field_index` finds a first match.
pub proof fn lemma_field_index_is(fields: Seq<FieldModel>, name: Seq<char>, i: int)
    requires
        0 <= i < fields.len(),
        fields[i].name == name,
        forall|j: int| 0 <= j < i ==> fields[j].name != name,
    ensures
        field_index(fields, name) == i,
    decreases fields.len(),
{
    if i > 0 {
        lemma_field_index_is(fields.drop_first(), name, i - 1);
    }
}

/// When no field matches, `field_index` reports `-1`.
pub proof fn lemma_field_index_none(fields: Seq<FieldModel>, name: Seq<char>)
    requires
        forall|j: int| 0 <= j < fields.len() ==> fields[j].name != name,
    ensures
        field_index(fields, name) == -1,
    decreases fields.len(),
{
    if fields.len() > 0 {
        lemma_field_index_none(fields.drop_first(), name);
    }
}

/// Finds the first field called `name`, as `field_index` does.
pub fn find_field(fields: &Vec<FieldValue>, name: &str) -> (r: Option<usize>)
    ensures
        match r {
            Some(i) => i < fields.len() && field_index(fields_views(*fields), name@) == i,
            None => field_index(fields_views(*fields), name@) == -1,
        },
{
    let ghost fv = fields_views(*fields);
    proof {
        lemma_fields_views(*fields, 0);
    }
    let mut i: usize = 0;
    while i < fields.len()
        invariant
            i <= fields.len(),
            fv == fields_views(*fields),
            fv.len() == fields.len(),
            forall|j: int| 0 <= j < fields.len() ==> fv[j] == fields[j]@,
            forall|j: int| 0 <= j < i ==> fv[j].name != name@,
        decreases fields.len() - i,
    {
        if crate::strutil::str_eq(fields[i].name.as_str(), name) {
            proof {
                lemma_field_index_is(fv, name@, i as int);
            }
            return Some(i);
        }
        i = i + 1;
    }
    proof {
        lemma_field_index_none(fv, name@);
    }
    None
}

/// Clones a dynamic value; the copy has the same model.
pub fn clone_value(v: &DynamicValue) -> (r: DynamicValue)
    ensures
        r@ == v@,
    decreases v,
{
    match v {
        DynamicValue::Int(n) => DynamicValue::Int(*n),
        DynamicValue::Float(d) => DynamicValue::Float(*d),
        DynamicValue::Char(c) => DynamicValue::Char(*c),
        DynamicValue::Str(s) => DynamicValue::Str(s.clone()),
        DynamicValue::List(items) => {
            let out = clone_value_vec(items);
            proof {
                lemma_values_views(out, 0);
                lemma_values_views(*items, 0);
                assert(values_views_from(out, 0) =~= values_views_from(*items, 0));
            }
            DynamicValue::List(out)
        },
        DynamicValue::Range(r) => DynamicValue::Range(*r),
        DynamicValue::Vector3(w) => DynamicValue::Vector3(*w),
        DynamicValue::Color(c) => DynamicValue::Color(*c),
        DynamicValue::ShapeLiteral(s) => DynamicValue::ShapeLiteral(s.clone()),
        DynamicValue::Composite(c) => DynamicValue::Composite(clone_composite(c)),
    }
}

/// Clones a field; the copy has the same model.
pub fn clone_field(f: &FieldValue) -> (r: FieldValue)
    ensures
        r@ == f@,
    decreases f,
{
    FieldValue { name: f.name.clone(), value: clone_value(&f.value) }
}

/// Clones a composite; the copy has the same model.
pub fn clone_composite(c: &CompositeValue) -> (r: CompositeValue)
    ensures
        r@ == c@,
    decreases c,
{
    let fields = clone_field_vec(&c.fields);
    proof {
        lemma_fields_views(fields, 0);
        lemma_fields_views(c.fields, 0);
        assert(fields_views_from(fields, 0) =~= fields_views_from(c.fields, 0));
    }
    CompositeValue { shape: c.shape, fields }
}

fn clone_field_vec(v: &Vec<FieldValue>) -> (r: Vec<FieldValue>)
    ensures
        r.len() == v.len(),
        forall|j: int| 0 <= j < v.len() ==> r[j]@ == v[j]@,
    decreases v,
{
    let mut out: Vec<FieldValue> = Vec::new();
    let mut i: usize = 0;
    while i < v.len()
        invariant
            i <= v.len(),
            out.len() == i,
            forall|j: int| 0 <= j < i ==> out[j]@ == v[j]@,
        decreases v.len() - i,
    {
        out.push(clone_field(&v[i]));
        i = i + 1;
    }
    out
}

fn clone_value_vec(v: &Vec<DynamicValue>) -> (r: Vec<DynamicValue>)
    ensures
        r.len() == v.len(),
        forall|j: int| 0 <= j < v.len() ==> r[j]@ == v[j]@,
    decreases v,
{
    let mut out: Vec<DynamicValue> = Vec::new();
    let mut i: usize = 0;
    while i < v.len()
        invariant
            i <= v.len(),
            out.len() == i,
            forall|j: int| 0 <= j < i ==> out[j]@ == v[j]@,
        decreases v.len() - i,
    {
        out.push(clone_value(&v[i]));
        i = i + 1;
    }
    out
}

/// Merges `overlay` onto `base` as `merge_model` describes: same-shaped
/// composites merge field by field, anything else is replaced by the overlay.
pub fn merge_values(base: &DynamicValue, overlay: &DynamicValue) -> (r: DynamicValue)
    ensures
        r@ == merge_model(base@, overlay@),
    decreases overlay,
{
    match (base, overlay) {
        (DynamicValue::Composite(bc), DynamicValue::Composite(oc)) => {
            if bc.shape == oc.shape {
                if oc.shape == StructuralShape::Struct {
                    let fields = merge_fields_named_exec(&bc.fields, &oc.fields);
                    DynamicValue::Composite(CompositeValue { shape: bc.shape, fields })
                } else if oc.shape == StructuralShape::TupleStruct || oc.shape
                    == StructuralShape::Tuple {
                    let fields = merge_fields_positional_exec(&bc.fields, &oc.fields);
                    DynamicValue::Composite(CompositeValue { shape: bc.shape, fields })
                } else {
                    clone_value(overlay)
                }
            } else {
                clone_value(overlay)
            }
        },
        _ => clone_value(overlay),
    }
}

fn merge_fields_named_exec(b: &Vec<FieldValue>, o: &Vec<FieldValue>) -> (r: Vec<FieldValue>)
    ensures
        fields_views(r) == merge_fields_named(fields_views(*b), fields_views(*o)),
    decreases o,
{
    let mut acc = clone_field_vec(b);
    proof {
        lemma_fields_views(acc, 0);
        lemma_fields_views(*b, 0);
        assert(fields_views_from(acc, 0) =~= fields_views_from(*b, 0));
    }
    let mut j: usize = 0;
    while j < o.len()
        invariant
            j <= o.len(),
            merge_fields_named(fields_views_from(acc, 0), fields_views_from(*o, j as int))
                == merge_fields_named(fields_views_from(*b, 0), fields_views_from(*o, 0)),
        decreases o.len() - j,
    {
        let ghost acc_v = fields_views_from(acc, 0);
        let ghost suffix = fields_views_from(*o, j as int);
        proof {
            lemma_fields_views(acc, 0);
            lemma_fields_views(*o, j as int);
            lemma_fields_views(*o, j as int + 1);
            assert(suffix.drop_first() =~= fields_views_from(*o, j as int + 1));
            assert(suffix[0] == o[j as int]@);
        }
        match find_field(&acc, o[j].name.as_str()) {
            Some(i) => {
                let merged = merge_values(&acc[i].value, &o[j].value);
                let name = o[j].name.clone();
                acc.set(i, FieldValue { name, value: merged });
                proof {
                    lemma_fields_views(acc, 0);
                    assert(fields_views_from(acc, 0) =~= acc_v.update(
                        i as int,
                        FieldModel {
                            name: o[j as int]@.name,
                            value: merge_model(acc_v[i as int].value, o[j as int]@.value),
                        },
                    ));
                    assert(fields_views_from(acc, 0) == merge_field_named(acc_v, suffix[0]));
                }
            },
            None => {
                acc.push(clone_field(&o[j]));
                proof {
                    lemma_fields_views(acc, 0);
                    assert(fields_views_from(acc, 0) =~= acc_v.push(o[j as int]@));
                    assert(fields_views_from(acc, 0) == merge_field_named(acc_v, suffix[0]));
                }
            },
        }
        j = j + 1;
    }
    proof {
        lemma_fields_views(*o, o.len() as int);
        assert(fields_views_from(*o, o.len() as int).len() == 0);
    }
    acc
}

/// `merge_fields_positional`, element by element: the overlay's value merges
/// onto the base value at the same position.
pub proof fn lemma_merge_fields_positional(bfields: Seq<FieldModel>, ofields: Seq<FieldModel>)
    ensures
        merge_fields_positional(bfields, ofields).len() == if bfields.len() >= ofields.len() {
            bfields.len()
        } else {
            ofields.len()
        },
        forall|i: int|
            0 <= i < merge_fields_positional(bfields, ofields).len()
                ==> merge_fields_positional(bfields, ofields)[i] == (if i < ofields.len() {
                if i < bfields.len() {
                    FieldModel {
                        name: ofields[i].name,
                        value: merge_model(bfields[i].value, ofields[i].value),
                    }
                } else {
                    ofields[i]
                }
            } else {
                bfields[i]
            }),
    decreases ofields.len(),
{
    if ofields.len() > 0 && bfields.len() > 0 {
        lemma_merge_fields_positional(bfields.drop_first(), ofields.drop_first());
    }
}

fn merge_fields_positional_exec(b: &Vec<FieldValue>, o: &Vec<FieldValue>) -> (r: Vec<FieldValue>)
    ensures
        fields_views(r) == merge_fields_positional(fields_views(*b), fields_views(*o)),
    decreases o,
{
    let n = if b.len() >= o.len() {
        b.len()
    } else {
        o.len()
    };
    let mut out: Vec<FieldValue> = Vec::new();
    let mut i: usize = 0;
    while i < n
        invariant
            i <= n,
            n == if b.len() >= o.len() {
                b.len()
            } else {
                o.len()
            },
            out.len() == i,
            forall|j: int|
                0 <= j < i ==> out[j]@ == (if j < o.len() {
                    if j < b.len() {
                        FieldModel {
                            name: o[j]@.name,
                            value: merge_model(b[j]@.value, o[j]@.value),
                        }
                    } else {
                        o[j]@
                    }
                } else {
                    b[j]@
                }),
        decreases n - i,
    {
        if i < o.len() {
            if i < b.len() {
                let merged = merge_values(&b[i].value, &o[i].value);
                let name = o[i].name.clone();
                out.push(FieldValue { name, value: merged });
            } else {
                out.push(clone_field(&o[i]));
            }
        } else {
            out.push(clone_field(&b[i]));
        }
        i = i + 1;
    }
    proof {
        lemma_fields_views(out, 0);
        lemma_fields_views(*b, 0);
        lemma_fields_views(*o, 0);
        lemma_merge_fields_positional(fields_views(*b), fields_views(*o));
        assert(fields_views_from(out, 0) =~= merge_fields_positional(
            fields_views(*b),
            fields_views(*o),
        ));
    }
    out
}

} // verus!
