use lazy_prefabs::dynamic_cast::GetValueError;
use lazy_prefabs::value::{
    clone_value, merge_values, CompositeValue, DynamicValue, FieldValue, StructuralShape,
};

#[test]
fn mut_test() {
    let mut a = CompositeValue {
        shape: StructuralShape::Struct,
        fields: vec![
            FieldValue { name: "i".to_owned(), value: DynamicValue::Int(0) },
            FieldValue { name: "q".to_owned(), value: DynamicValue::Int(0) },
        ],
    };

    a.insert("i", DynamicValue::Int(10));

    assert_eq!(a.try_get_int("i").unwrap(), 10i32);
}

#[test]
fn auto_cast() {
    let a = CompositeValue {
        shape: StructuralShape::Struct,
        fields: vec![
            FieldValue { name: "i".to_owned(), value: DynamicValue::Int(15) },
            FieldValue { name: "q".to_owned(), value: DynamicValue::Int(25) },
        ],
    };
    let b = clone_value(&DynamicValue::Composite(a));
    match b {
        DynamicValue::Composite(bc) => {
            assert_eq!(bc.try_get_int("i").unwrap(), 15);
        }
        _ => unreachable!(),
    }
}

#[test]
fn missing_field_error() {
    let a = CompositeValue { shape: StructuralShape::Struct, fields: Vec::new() };
    assert_eq!(
        a.try_get_int("i").unwrap_err(),
        GetValueError::FieldDoesntExist("i".to_owned(), "i32".to_owned())
    );
}

#[test]
fn failed_cast_error() {
    let a = CompositeValue {
        shape: StructuralShape::Struct,
        fields: vec![FieldValue { name: "i".to_owned(), value: DynamicValue::Str("x".to_owned()) }],
    };
    assert_eq!(
        a.try_get_int("i").unwrap_err(),
        GetValueError::FailedCast("DynamicValue".to_owned(), "i32".to_owned())
    );
}

#[test]
fn merge_overrides_named_subset() {
    let base = DynamicValue::Composite(CompositeValue {
        shape: StructuralShape::Struct,
        fields: vec![
            FieldValue { name: "x".to_owned(), value: DynamicValue::Int(5) },
            FieldValue { name: "y".to_owned(), value: DynamicValue::Int(5) },
        ],
    });
    let overlay = DynamicValue::Composite(CompositeValue {
        shape: StructuralShape::Struct,
        fields: vec![FieldValue { name: "x".to_owned(), value: DynamicValue::Int(9) }],
    });
    let merged = merge_values(&base, &overlay);
    match merged {
        DynamicValue::Composite(cv) => {
            assert_eq!(cv.try_get_int("x").unwrap(), 9);
            assert_eq!(cv.try_get_int("y").unwrap(), 5);
        }
        _ => unreachable!(),
    }
}

#[test]
fn merge_replaces_scalars() {
    let merged = merge_values(&DynamicValue::Int(1), &DynamicValue::Int(2));
    assert_eq!(merged, DynamicValue::Int(2));
}

#[test]
fn merge_positional_by_index() {
    let base = DynamicValue::Composite(CompositeValue {
        shape: StructuralShape::TupleStruct,
        fields: vec![
            FieldValue { name: String::new(), value: DynamicValue::Int(1) },
            FieldValue { name: String::new(), value: DynamicValue::Int(2) },
        ],
    });
    let overlay = DynamicValue::Composite(CompositeValue {
        shape: StructuralShape::TupleStruct,
        fields: vec![FieldValue { name: String::new(), value: DynamicValue::Int(7) }],
    });
    let merged = merge_values(&base, &overlay);
    match merged {
        DynamicValue::Composite(cv) => {
            assert_eq!(cv.fields.len(), 2);
            assert_eq!(cv.fields[0].value, DynamicValue::Int(7));
            assert_eq!(cv.fields[1].value, DynamicValue::Int(2));
        }
        _ => unreachable!(),
    }
}
