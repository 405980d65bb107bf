use std::sync::Arc;

use lazy_prefabs::assemble::Entity;
use lazy_prefabs::build_commands::InsertComponentCommand;
use lazy_prefabs::parse::LoadPrefabError;
use lazy_prefabs::registry::PrefabRegistry;
use lazy_prefabs::value::{CompositeValue, DynamicValue, FieldValue, StructuralShape};

#[test]
fn load_is_idempotent_and_cached() {
    let mut reg: PrefabRegistry<InsertComponentCommand> = PrefabRegistry::new();
    reg.register_type(
        "Pos",
        StructuralShape::Struct,
        DynamicValue::Composite(CompositeValue {
            shape: StructuralShape::Struct,
            fields: vec![FieldValue { name: "x".to_owned(), value: DynamicValue::Int(0) }],
        }),
    );
    reg.insert_source("p.prefab", "{ Pos { x: 1 } }".to_owned());

    let first = reg.load("p.prefab").unwrap();
    let second = reg.load("p.prefab").unwrap();
    assert!(Arc::ptr_eq(&first, &second));

    // The cached document stands until an unload: a changed source is not
    // re-read by a plain load.
    reg.insert_source("p.prefab", "{ Pos { x: 2 } }".to_owned());
    let third = reg.load("p.prefab").unwrap();
    assert!(Arc::ptr_eq(&first, &third));

    reg.unload_prefab("p.prefab");
    let fourth = reg.load("p.prefab").unwrap();
    assert!(!Arc::ptr_eq(&first, &fourth));
    assert_ne!(*first, *fourth);
}

#[test]
fn load_missing_source_is_file_read_error() {
    let mut reg: PrefabRegistry<InsertComponentCommand> = PrefabRegistry::new();
    let err = reg.load("absent.prefab").unwrap_err();
    assert_eq!(err, LoadPrefabError::FileReadError("absent.prefab".to_owned()));
}

#[test]
fn spawn_scenario_pos() {
    let mut reg: PrefabRegistry<InsertComponentCommand> = PrefabRegistry::new();
    reg.register_type(
        "Pos",
        StructuralShape::Struct,
        DynamicValue::Composite(CompositeValue {
            shape: StructuralShape::Struct,
            fields: vec![FieldValue { name: "x".to_owned(), value: DynamicValue::Int(0) }],
        }),
    );
    reg.insert_source("pos.prefab", "{ Pos { x: 2 } }".to_owned());

    let mut entity = Entity::new();
    reg.spawn_prefab("pos.prefab", &mut entity).unwrap();

    let pos = entity.get_component("Pos").unwrap();
    assert_eq!(
        pos,
        &DynamicValue::Composite(CompositeValue {
            shape: StructuralShape::Struct,
            fields: vec![FieldValue { name: "x".to_owned(), value: DynamicValue::Int(2) }],
        })
    );
}

#[test]
fn default_fill() {
    let mut reg: PrefabRegistry<InsertComponentCommand> = PrefabRegistry::new();
    reg.register_type(
        "T",
        StructuralShape::Struct,
        DynamicValue::Composite(CompositeValue {
            shape: StructuralShape::Struct,
            fields: vec![
                FieldValue { name: "x".to_owned(), value: DynamicValue::Int(0) },
                FieldValue { name: "y".to_owned(), value: DynamicValue::Int(0) },
            ],
        }),
    );
    reg.insert_source("t.prefab", "{ T { x: 5 } }".to_owned());

    let mut entity = Entity::new();
    reg.spawn_prefab("t.prefab", &mut entity).unwrap();

    match entity.get_component("T").unwrap() {
        DynamicValue::Composite(cv) => {
            assert_eq!(cv.try_get_int("x").unwrap(), 5);
            assert_eq!(cv.try_get_int("y").unwrap(), 0);
        }
        _ => unreachable!(),
    }
}

#[test]
fn apply_overrides_a_subset() {
    let mut reg: PrefabRegistry<InsertComponentCommand> = PrefabRegistry::new();
    reg.register_type(
        "T",
        StructuralShape::Struct,
        DynamicValue::Composite(CompositeValue {
            shape: StructuralShape::Struct,
            fields: vec![
                FieldValue { name: "x".to_owned(), value: DynamicValue::Int(0) },
                FieldValue { name: "y".to_owned(), value: DynamicValue::Int(0) },
            ],
        }),
    );
    reg.insert_source("t.prefab", "{ T { x: 5, y: 5 }, T { x: 9 } }".to_owned());

    let mut entity = Entity::new();
    reg.spawn_prefab("t.prefab", &mut entity).unwrap();

    match entity.get_component("T").unwrap() {
        DynamicValue::Composite(cv) => {
            assert_eq!(cv.try_get_int("x").unwrap(), 9);
            assert_eq!(cv.try_get_int("y").unwrap(), 5);
        }
        _ => unreachable!(),
    }
}

#[test]
fn nested_prefab_splices_in_place() {
    let mut reg: PrefabRegistry<InsertComponentCommand> = PrefabRegistry::new();
    reg.register_type(
        "T",
        StructuralShape::Struct,
        DynamicValue::Composite(CompositeValue {
            shape: StructuralShape::Struct,
            fields: vec![
                FieldValue { name: "a".to_owned(), value: DynamicValue::Int(0) },
                FieldValue { name: "b".to_owned(), value: DynamicValue::Int(0) },
                FieldValue { name: "c".to_owned(), value: DynamicValue::Int(0) },
            ],
        }),
    );
    reg.insert_source(
        "outer.prefab",
        "{ T { a: 1, b: 1, c: 1 }, load!(\"inner.prefab\"), T { c: 3 } }".to_owned(),
    );
    reg.insert_source("inner.prefab", "{ T { b: 2 } }".to_owned());

    let mut entity = Entity::new();
    reg.spawn_prefab("outer.prefab", &mut entity).unwrap();

    // The inner document's step ran between the outer steps: first a=b=c=1,
    // then b=2 from the include, then c=3.
    match entity.get_component("T").unwrap() {
        DynamicValue::Composite(cv) => {
            assert_eq!(cv.try_get_int("a").unwrap(), 1);
            assert_eq!(cv.try_get_int("b").unwrap(), 2);
            assert_eq!(cv.try_get_int("c").unwrap(), 3);
        }
        _ => unreachable!(),
    }
}

#[test]
fn cyclic_include_is_refused() {
    let mut reg: PrefabRegistry<InsertComponentCommand> = PrefabRegistry::new();
    reg.insert_source("a.prefab", "{ load!(\"b.prefab\") }".to_owned());
    reg.insert_source("b.prefab", "{ load!(\"a.prefab\") }".to_owned());

    let mut entity = Entity::new();
    let err = reg.spawn_prefab("a.prefab", &mut entity).unwrap_err();
    assert!(matches!(err, LoadPrefabError::CyclicPrefabReference(_)));
}

#[test]
fn build_command_runs_its_effect() {
    let mut reg: PrefabRegistry<InsertComponentCommand> = PrefabRegistry::new();
    reg.register_build_command(InsertComponentCommand {
        key_name: "tagit".to_owned(),
        type_key: "Tag".to_owned(),
        value: DynamicValue::Int(7),
    });
    reg.insert_source("c.prefab", "{ tagit!() }".to_owned());

    let mut entity = Entity::new();
    reg.spawn_prefab("c.prefab", &mut entity).unwrap();

    assert_eq!(entity.get_component("Tag").unwrap(), &DynamicValue::Int(7));
}

#[test]
fn unsupported_shape_is_unreflected() {
    let mut reg: PrefabRegistry<InsertComponentCommand> = PrefabRegistry::new();
    reg.register_type("L", StructuralShape::List, DynamicValue::Int(0));
    reg.insert_source("l.prefab", "{ L }".to_owned());

    let mut entity = Entity::new();
    let err = reg.spawn_prefab("l.prefab", &mut entity).unwrap_err();
    assert_eq!(err, LoadPrefabError::UnreflectedComponent("L".to_owned()));
}

#[test]
fn assembly_time_unregistered_command_is_fatal() {
    let mut reg: PrefabRegistry<InsertComponentCommand> = PrefabRegistry::new();
    reg.register_build_command(InsertComponentCommand {
        key_name: "boop".to_owned(),
        type_key: "Tag".to_owned(),
        value: DynamicValue::Int(1),
    });
    reg.insert_source("b.prefab", "{ boop!() }".to_owned());
    let doc = reg.load("b.prefab").unwrap();

    // A registry set up without the command refuses the same document at
    // assembly time.
    let mut bare: PrefabRegistry<InsertComponentCommand> = PrefabRegistry::new();
    let mut entity = Entity::new();
    let err = bare.assemble(&doc, &mut entity).unwrap_err();
    assert_eq!(err, LoadPrefabError::UnregisteredCommand("boop".to_owned()));
}

#[test]
fn failed_parse_leaves_no_partial_document() {
    let mut reg: PrefabRegistry<InsertComponentCommand> = PrefabRegistry::new();
    reg.insert_source("m.prefab", "{ Missing { x: 1 } }".to_owned());

    let mut entity = Entity::new();
    let err = reg.spawn_prefab("m.prefab", &mut entity).unwrap_err();
    assert_eq!(err, LoadPrefabError::UnregisteredComponent("Missing".to_owned()));
    assert!(entity.get_component("Missing").is_none());

    // Nothing was cached: once the type is registered, the same path loads.
    reg.register_type(
        "Missing",
        StructuralShape::Struct,
        DynamicValue::Composite(CompositeValue {
            shape: StructuralShape::Struct,
            fields: vec![FieldValue { name: "x".to_owned(), value: DynamicValue::Int(0) }],
        }),
    );
    reg.spawn_prefab("m.prefab", &mut entity).unwrap();
    match entity.get_component("Missing").unwrap() {
        DynamicValue::Composite(cv) => {
            assert_eq!(cv.try_get_int("x").unwrap(), 1);
        }
        _ => unreachable!(),
    }
}

#[test]
fn nested_missing_source_stops_assembly() {
    let mut reg: PrefabRegistry<InsertComponentCommand> = PrefabRegistry::new();
    reg.register_type(
        "T",
        StructuralShape::Struct,
        DynamicValue::Composite(CompositeValue {
            shape: StructuralShape::Struct,
            fields: vec![FieldValue { name: "x".to_owned(), value: DynamicValue::Int(0) }],
        }),
    );
    reg.insert_source(
        "outer.prefab",
        "{ T { x: 1 }, load!(\"gone.prefab\"), T { x: 9 } }".to_owned(),
    );

    let mut entity = Entity::new();
    let err = reg.spawn_prefab("outer.prefab", &mut entity).unwrap_err();
    assert_eq!(err, LoadPrefabError::FileReadError("gone.prefab".to_owned()));

    // The steps before the failing one stand: there is no rollback.
    match entity.get_component("T").unwrap() {
        DynamicValue::Composite(cv) => {
            assert_eq!(cv.try_get_int("x").unwrap(), 1);
        }
        _ => unreachable!(),
    }
}
