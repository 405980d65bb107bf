use lazy_prefabs::build_commands::InsertComponentCommand;
use lazy_prefabs::parse::{
    parse_command, parse_field, parse_prefab_string, parse_string, parse_value, GrammarRule,
    LoadPrefabError,
};
use lazy_prefabs::prefab::PrefabBuildStep;
use lazy_prefabs::registry::PrefabRegistry;
use lazy_prefabs::value::{Color, CompositeValue, Decimal, DynamicValue, FieldValue, StructuralShape};

#[test]
fn command_parse() {
    let mut reg: PrefabRegistry<InsertComponentCommand> = PrefabRegistry::new();
    reg.register_build_command(InsertComponentCommand {
        key_name: "DOSTUFF".to_owned(),
        type_key: "Tag".to_owned(),
        value: DynamicValue::Int(0),
    });

    let input = "DOSTUFF!(i: 10)";
    let (parsed, _) = parse_command(input, 0, &reg).unwrap();

    let props = parsed.properties.unwrap();
    let i = props.try_get_int("i").unwrap();
    assert_eq!(i, 10);
}

#[test]
fn prefab_parse() {
    let input = "SomeName { dosomething!(), Visible, Draw }";
    let mut reg: PrefabRegistry<InsertComponentCommand> = PrefabRegistry::new();
    let empty = |shape: StructuralShape| {
        DynamicValue::Composite(CompositeValue { shape, fields: Vec::new() })
    };
    reg.register_type("Visible", StructuralShape::Struct, empty(StructuralShape::Struct));
    reg.register_type("Draw", StructuralShape::Struct, empty(StructuralShape::Struct));
    reg.register_build_command(InsertComponentCommand {
        key_name: "dosomething".to_owned(),
        type_key: "Tag".to_owned(),
        value: DynamicValue::Int(0),
    });

    let prefab = parse_prefab_string(input, &reg).unwrap();

    assert_eq!(prefab.name, Some("SomeName".to_string()));

    match &prefab.steps[0] {
        PrefabBuildStep::RunCommand(command) => {
            assert_eq!(command.name, "dosomething");
        }
        _ => unreachable!(),
    }

    match &prefab.steps[1] {
        PrefabBuildStep::AddComponent(comp) => {
            assert_eq!(comp.type_key, "Visible");
        }
        _ => unreachable!(),
    }

    match &prefab.steps[2] {
        PrefabBuildStep::AddComponent(comp) => {
            assert_eq!(comp.type_key, "Draw");
        }
        _ => unreachable!(),
    }
}

#[test]
fn char_parse() {
    let reg: PrefabRegistry<InsertComponentCommand> = PrefabRegistry::new();
    let input = "'a'";
    let parsed = parse_value(input, 0, &reg);
    assert!(parsed.is_ok());
    let (val, _) = parsed.unwrap();
    match val {
        DynamicValue::Char(b) => assert_eq!(b as char, 'a'),
        _ => unreachable!(),
    }
}

#[test]
fn color_parse() {
    let reg: PrefabRegistry<InsertComponentCommand> = PrefabRegistry::new();
    let input = "Color::RED";
    let (val, _) = parse_value(input, 0, &reg).unwrap();
    assert_eq!(val, DynamicValue::Color(Color::Red));
}

#[test]
fn vec_parse() {
    let reg: PrefabRegistry<InsertComponentCommand> = PrefabRegistry::new();
    let input = "Vec3 { z: 3.0, x: 10.0 }";

    let (val, _) = parse_value(input, 0, &reg).unwrap();

    match val {
        DynamicValue::Vector3(v) => {
            assert_eq!(v.x, Decimal { neg: false, int_part: 10, frac_part: 0, frac_len: 1 });
            assert_eq!(v.z, Decimal { neg: false, int_part: 3, frac_part: 0, frac_len: 1 });
            assert_eq!(v.y, Decimal { neg: false, int_part: 0, frac_part: 0, frac_len: 0 });
        }
        _ => unreachable!(),
    }
}

#[test]
fn transform_parse() {
    let mut reg: PrefabRegistry<InsertComponentCommand> = PrefabRegistry::new();
    let zero = Decimal { neg: false, int_part: 0, frac_part: 0, frac_len: 0 };
    let default_transform = DynamicValue::Composite(CompositeValue {
        shape: StructuralShape::Struct,
        fields: vec![FieldValue {
            name: "translation".to_owned(),
            value: DynamicValue::Vector3(lazy_prefabs::value::Vector3Value {
                x: zero,
                y: zero,
                z: zero,
            }),
        }],
    });
    reg.register_type("Transform", StructuralShape::Struct, default_transform);

    let input = "Transform { translation: Vec3 { y: 3.5, x: 10.5 } }";

    let (comp, _) = lazy_prefabs::parse::parse_component(input, 0, &reg).unwrap();

    let td = reg.get_type_data("Transform").unwrap();
    let default_value = lazy_prefabs::value::clone_value(&td.default_value);
    let merged = lazy_prefabs::value::merge_values(&default_value, &comp.value);

    match merged {
        DynamicValue::Composite(cv) => {
            let translation = cv.try_get_value("translation").unwrap();
            assert_eq!(
                translation,
                DynamicValue::Vector3(lazy_prefabs::value::Vector3Value {
                    x: Decimal { neg: false, int_part: 10, frac_part: 5, frac_len: 1 },
                    y: Decimal { neg: false, int_part: 3, frac_part: 5, frac_len: 1 },
                    z: zero,
                })
            );
        }
        _ => unreachable!(),
    }
}

#[test]
fn string_parse() {
    let input = "\"Hello\"";
    let (content, _) = parse_string(input, 0).unwrap();
    assert_eq!("Hello", content);
}

#[test]
fn field_parse() {
    let reg: PrefabRegistry<InsertComponentCommand> = PrefabRegistry::new();
    let input = "a: \"hi\"";

    let (field, _) = parse_field(input, 0, &reg).unwrap();

    assert_eq!("a", field.name);
    assert_eq!(field.value, DynamicValue::Str("hi".to_owned()));
}

#[test]
fn range_parse() {
    let reg: PrefabRegistry<InsertComponentCommand> = PrefabRegistry::new();
    let (val, _) = parse_value("(5..10)", 0, &reg).unwrap();
    assert_eq!(
        val,
        DynamicValue::Range(lazy_prefabs::value::RangeValue { start: 5, end: 10 })
    );
}

#[test]
fn float_parse() {
    let reg: PrefabRegistry<InsertComponentCommand> = PrefabRegistry::new();
    let (val, _) = parse_value("-0.25", 0, &reg).unwrap();
    assert_eq!(
        val,
        DynamicValue::Float(Decimal { neg: true, int_part: 0, frac_part: 25, frac_len: 2 })
    );
}

#[test]
fn array_parse() {
    let reg: PrefabRegistry<InsertComponentCommand> = PrefabRegistry::new();
    let (val, _) = parse_value("[1, 2, 3]", 0, &reg).unwrap();
    assert_eq!(
        val,
        DynamicValue::List(vec![
            DynamicValue::Int(1),
            DynamicValue::Int(2),
            DynamicValue::Int(3),
        ])
    );
}

#[test]
fn shape_parse() {
    let reg: PrefabRegistry<InsertComponentCommand> = PrefabRegistry::new();
    let (val, _) = parse_value("shape::Cube", 0, &reg).unwrap();
    assert_eq!(val, DynamicValue::ShapeLiteral("Cube".to_owned()));
}

#[test]
fn int_overflow_is_value_parse_error() {
    let reg: PrefabRegistry<InsertComponentCommand> = PrefabRegistry::new();
    let err = parse_value("9999999999", 0, &reg).unwrap_err();
    assert_eq!(
        err,
        LoadPrefabError::ValueParseError("i32".to_owned(), "9999999999".to_owned())
    );
}

#[test]
fn unknown_color_is_parse_error() {
    let reg: PrefabRegistry<InsertComponentCommand> = PrefabRegistry::new();
    let err = parse_value("Color::ORANGE", 0, &reg).unwrap_err();
    assert!(matches!(err, LoadPrefabError::ParseError(GrammarRule::ColorLit, _)));
}

#[test]
fn unregistered_component_fails_parse() {
    let reg: PrefabRegistry<InsertComponentCommand> = PrefabRegistry::new();
    let err = parse_prefab_string("{ Missing }", &reg).unwrap_err();
    assert_eq!(err, LoadPrefabError::UnregisteredComponent("Missing".to_owned()));
}

#[test]
fn unregistered_command_fails_parse() {
    let reg: PrefabRegistry<InsertComponentCommand> = PrefabRegistry::new();
    let err = parse_prefab_string("{ nope!() }", &reg).unwrap_err();
    assert_eq!(err, LoadPrefabError::UnregisteredCommand("nope".to_owned()));
}

#[test]
fn processor_call_parses_as_command_step() {
    let mut reg: PrefabRegistry<InsertComponentCommand> = PrefabRegistry::new();
    reg.register_build_command(InsertComponentCommand {
        key_name: "processor".to_owned(),
        type_key: "Tag".to_owned(),
        value: DynamicValue::Int(0),
    });

    let input = "{ processor!(ColorMaterial { texture_path: \"a.png\", color: Color::RED }) }";
    let prefab = parse_prefab_string(input, &reg).unwrap();

    assert_eq!(prefab.steps.len(), 1);
    match &prefab.steps[0] {
        PrefabBuildStep::RunCommand(cd) => {
            assert_eq!(cd.name, "processor");
            let props = cd.properties.as_ref().unwrap();
            assert_eq!(
                props.try_get_str("texture_path").unwrap(),
                "a.png".to_owned()
            );
            assert_eq!(
                props.try_get("color").unwrap(),
                &DynamicValue::Color(Color::Red)
            );
        }
        _ => unreachable!(),
    }
}
