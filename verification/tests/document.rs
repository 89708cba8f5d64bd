use aeon::convert::{AeonConvert, AeonObjectConvert};
use aeon::document::{AeonDocument, AeonMacro, AeonProperty};
use aeon::error::AeonDeserializeErrorCode;
use aeon::value::{AeonDouble, AeonMap, AeonValue};

fn double(v: f64) -> AeonValue {
    AeonValue::Double(AeonDouble::parse(&format!("{:?}", v)).unwrap())
}

fn object(entries: Vec<(&str, AeonValue)>) -> AeonValue {
    let mut map = AeonMap::new();
    for (k, v) in entries {
        map.insert(k.to_string(), v);
    }
    AeonValue::Object(map)
}

fn character() -> AeonValue {
    object(vec![
        ("name", AeonValue::String("erki".into())),
        ("world", AeonValue::Integer(1)),
        ("double", double(139.3567)),
        (
            "or_nothing",
            object(vec![
                ("name", AeonValue::String("unused".into())),
                ("world", AeonValue::Integer(-53)),
                ("double", double(-11.38)),
                ("or_nothing", AeonValue::Nil),
            ]),
        ),
    ])
}

#[test]
pub fn document_get_property_integer() {
    let mut aeon = AeonDocument::new();
    aeon.add_property("num", AeonValue::Integer(79));
    assert_eq!(79, aeon.remove("num").integer().unwrap());
}

#[test]
pub fn document_get_property_string() {
    let mut aeon = AeonDocument::new();
    aeon.add_property("char", AeonValue::String("åöäºÃœ".into()));
    assert_eq!("åöäºÃœ".to_string(), aeon.remove("char").str().unwrap());
}

#[test]
pub fn document_copy_macros() {
    let mut aeon = AeonDocument::new();
    aeon.add_macro(AeonMacro::new("bread".into(), vec!["'s good".into()]));
    let mut second_aeon = AeonDocument::new();
    second_aeon.add_macro(AeonMacro::new("tubes".into(), vec!["of copper".into()]));
    aeon.copy_macros_to(&mut second_aeon);
    assert_eq!(1, aeon.macros.len());
    assert_eq!(2, second_aeon.macros.len());
}

#[test]
pub fn document_get_nested_property() {
    let mut aeon = AeonDocument::new();
    aeon.add_property("char", character());
    assert_eq!(
        -53,
        aeon.remove("char")
            .remove("or_nothing")
            .get("world")
            .integer()
            .unwrap()
    );
}

#[test]
pub fn document_get_nested_property_using_path_syntax() {
    let mut aeon = AeonDocument::new();
    aeon.add_property("char", character());
    assert_eq!(-53, aeon.get_path("char/or_nothing/world").integer().unwrap());
}

#[test]
pub fn document_remove_nested_property_using_path_syntax() {
    let mut aeon = AeonDocument::new();
    aeon.add_property("char", character());
    assert_eq!(
        -53,
        aeon.remove_path("char/or_nothing/world").integer().unwrap()
    );
}

#[test]
pub fn path_access() {
    let mut aeon = AeonDocument::new();
    aeon.add_property(
        "a",
        object(vec![("b", object(vec![("c", AeonValue::Integer(5))]))]),
    );
    assert_eq!(aeon.get_path("a/b/c").integer(), Some(5));
    assert_eq!(aeon.get_path("a//b/c").integer(), Some(5));
    assert_eq!(aeon.get_path("/a/b/c/").integer(), Some(5));
    assert!(aeon.get_path("a/x/c").is_none());
    assert!(aeon.get_path("a/b/c/d").is_none());
    assert!(aeon.get_path("").is_none());
    assert!(aeon.get_path("///").is_none());
    assert!(aeon.get_path("x").is_none());
    assert!(matches!(aeon.get_path("a/b"), Some(AeonValue::Object(_))));
    assert_eq!(aeon.properties.len(), 1);
}

#[test]
pub fn remove_path_takes_the_property_out() {
    let mut aeon = AeonDocument::new();
    aeon.add_property(
        "a",
        object(vec![("b", object(vec![("c", AeonValue::Integer(5))]))]),
    );
    aeon.add_property("z", AeonValue::Nil);
    assert!(aeon.remove_path("").is_none());
    assert_eq!(aeon.properties.len(), 2);
    assert!(aeon.remove_path("a/x").is_none());
    assert_eq!(aeon.properties.len(), 1);
    assert!(aeon.get("a").is_none());
    assert!(aeon.get("z").nil());
}

#[test]
pub fn split_path_leaves_empty_segments_out() {
    assert_eq!(aeon::convert::split_path("a/b/c"), vec!["a", "b", "c"]);
    assert_eq!(aeon::convert::split_path("a//b/c"), vec!["a", "b", "c"]);
    assert_eq!(aeon::convert::split_path("/a/"), vec!["a"]);
    assert!(aeon::convert::split_path("").is_empty());
    assert!(aeon::convert::split_path("//").is_empty());
}

#[test]
pub fn add_is_first_write_wins() {
    let mut aeon = AeonDocument::new();
    assert!(aeon.is_empty);
    aeon.add_property("a", AeonValue::Integer(1));
    assert!(!aeon.is_empty);
    aeon.add_property("a", AeonValue::Integer(2));
    assert_eq!(aeon.properties.len(), 1);
    assert_eq!(aeon.get("a").integer(), Some(1));
    aeon.add_macro(AeonMacro::new_cloned("m", vec!["x"]));
    aeon.add_macro(AeonMacro::new_cloned("m", vec!["y", "z"]));
    assert_eq!(aeon.macros.len(), 1);
    assert_eq!(aeon.macros[0].args, vec!["x"]);
}

#[test]
pub fn add_or_replace_is_upsert() {
    let mut aeon = AeonDocument::new();
    aeon.add_or_replace_property("a".into(), AeonValue::Integer(1));
    aeon.add_or_replace_property("b".into(), AeonValue::Integer(2));
    aeon.add_or_replace_property("a".into(), AeonValue::Integer(3));
    assert_eq!(aeon.properties.len(), 2);
    assert_eq!(aeon.properties[0].name, "a");
    assert_eq!(aeon.get("a").integer(), Some(3));
    aeon.add_or_replace_macro(AeonMacro::new_cloned("m", vec!["x"]));
    aeon.add_or_replace_macro(AeonMacro::new_cloned("m", vec!["y", "z"]));
    assert_eq!(aeon.macros.len(), 1);
    assert_eq!(aeon.macros[0].args, vec!["y", "z"]);
    assert!(!aeon.is_empty);
}

#[test]
pub fn emptiness_flag_never_flips_back() {
    let mut aeon = AeonDocument::new();
    aeon.add_property("a", AeonValue::Nil);
    aeon.remove("a");
    assert!(aeon.properties.is_empty());
    assert!(!aeon.is_empty);
}

#[test]
pub fn copy_macros_overwrites_on_collision() {
    let mut first = AeonDocument::new();
    first.add_macro(AeonMacro::new_cloned("m", vec!["x"]));
    first.add_macro(AeonMacro::new_cloned("n", vec![]));
    let mut second = AeonDocument::new();
    second.add_macro(AeonMacro::new_cloned("m", vec!["y", "z"]));
    first.copy_macros_to(&mut second);
    assert_eq!(second.macros.len(), 2);
    assert_eq!(second.macros[0].name, "m");
    assert_eq!(second.macros[0].args, vec!["x"]);
    assert_eq!(second.macros[1].name, "n");
}

#[test]
pub fn set_macros_keeps_the_last_of_a_name() {
    let mut aeon = AeonDocument::new();
    aeon.add_macro(AeonMacro::new_cloned("old", vec![]));
    aeon.set_macros(vec![
        AeonMacro::new_cloned("m", vec!["x"]),
        AeonMacro::new_cloned("n", vec![]),
        AeonMacro::new_cloned("m", vec!["y"]),
    ]);
    assert_eq!(aeon.macros.len(), 2);
    assert_eq!(aeon.macros[0].name, "m");
    assert_eq!(aeon.macros[0].args, vec!["y"]);
    assert_eq!(aeon.macros[1].name, "n");
}

#[test]
pub fn apply_macro_binds_positionally() {
    let mut aeon = AeonDocument::new();
    aeon.add_macro(AeonMacro::new_cloned("P", vec!["x", "y"]));
    let value = aeon
        .apply_macro(
            "P".into(),
            vec![AeonValue::Integer(1), AeonValue::Integer(2)],
        )
        .unwrap();
    assert_eq!(value.get("x").integer(), Some(1));
    assert_eq!(value.get("y").integer(), Some(2));
    match value {
        AeonValue::Object(map) => {
            assert_eq!(map.len(), 2);
            assert_eq!(map.entries()[0].0, "x");
            assert_eq!(map.entries()[1].0, "y");
        }
        _ => panic!("expected an object"),
    }
}

#[test]
pub fn apply_macro_failures() {
    let mut aeon = AeonDocument::new();
    aeon.add_macro(AeonMacro::new_cloned("P", vec!["x", "y"]));
    let missing = aeon.apply_macro("Q".into(), vec![]).unwrap_err();
    assert_eq!(missing.code, AeonDeserializeErrorCode::DeserializationFailed);
    assert_eq!(missing.message, "Macro does not exist: Q");
    let arity = aeon
        .apply_macro("P".into(), vec![AeonValue::Nil])
        .unwrap_err();
    assert_eq!(arity.code, AeonDeserializeErrorCode::DeserializationFailed);
    assert_eq!(
        arity.message,
        "Wrong number of args to macro P: was 1, expected 2"
    );
    assert_eq!(
        arity.to_text(),
        "DeserializationFailed: Wrong number of args to macro P: was 1, expected 2"
    );
}

#[test]
pub fn try_get_macro_takes_the_first_that_fits() {
    let mut aeon = AeonDocument::new();
    aeon.add_macro(AeonMacro::new_cloned("one", vec!["a"]));
    aeon.add_macro(AeonMacro::new_cloned("first", vec!["b", "a"]));
    aeon.add_macro(AeonMacro::new_cloned("second", vec!["a", "b"]));
    let mut map = AeonMap::new();
    map.insert("a".into(), AeonValue::Nil);
    map.insert("b".into(), AeonValue::Nil);
    assert_eq!(aeon.try_get_macro(&map).unwrap().name, "first");
    map.insert("c".into(), AeonValue::Nil);
    assert!(aeon.try_get_macro(&map).is_none());
    let mut other = AeonMap::new();
    other.insert("a".into(), AeonValue::Nil);
    other.insert("x".into(), AeonValue::Nil);
    assert!(aeon.try_get_macro(&other).is_none());
}

#[test]
pub fn macro_accessors() {
    let mac = AeonMacro::new("m".into(), vec!["a".into(), "b".into()]);
    assert_eq!(mac.len(), 2);
    assert!(!mac.is_empty());
    assert!(AeonMacro::new_cloned("e", vec![]).is_empty());
    let mut map = AeonMap::new();
    assert!(!mac.can_apply(&map));
    mac.apply(1, AeonValue::Integer(2), &mut map);
    assert!(!mac.can_apply(&map));
    mac.apply(0, AeonValue::Integer(1), &mut map);
    assert!(mac.can_apply(&map));
    assert_eq!(map.entries()[0].0, "b");
    let copy = mac.clone();
    assert_eq!(copy.name, "m");
    assert_eq!(copy.args, vec!["a", "b"]);
}

#[test]
pub fn try_from_object_and_back() {
    let doc = AeonDocument::try_from_object(object(vec![
        ("a", AeonValue::Integer(1)),
        ("b", AeonValue::Bool(true)),
    ]))
    .unwrap();
    assert!(!doc.is_empty);
    assert_eq!(doc.properties.len(), 2);
    assert_eq!(doc.get("a").integer(), Some(1));
    assert!(AeonDocument::try_from_object(AeonValue::Nil).is_none());
    assert!(AeonDocument::try_from_object(object(vec![])).unwrap().is_empty);
    let value: AeonValue = doc.into();
    assert_eq!(value.get("b").bool(), Some(true));
    let p = AeonProperty::new("n".into(), AeonValue::Nil);
    assert_eq!(p.name, "n");
}

#[test]
pub fn map_keeps_insertion_order_and_unique_keys() {
    let mut map = AeonMap::new();
    assert!(map.is_empty());
    assert!(map.insert("a".into(), AeonValue::Integer(1)).is_none());
    assert!(map.insert("b".into(), AeonValue::Integer(2)).is_none());
    assert_eq!(map.insert("a".into(), AeonValue::Integer(3)).integer(), Some(1));
    assert_eq!(map.len(), 2);
    assert_eq!(map.position("a"), Some(0));
    assert_eq!(map.position("b"), Some(1));
    assert_eq!(map.position("c"), None);
    assert!(map.contains_key("b"));
    assert_eq!(map.get("a").cloned().integer(), Some(3));
    assert_eq!(map.remove("a").integer(), Some(3));
    assert!(map.remove("a").is_none());
    assert_eq!(map.len(), 1);
    let entries = map.clone().into_entries();
    assert_eq!(entries[0].0, "b");
}

#[test]
pub fn value_accessors() {
    assert!(AeonValue::Nil.nil());
    assert!(!AeonValue::Integer(0).nil());
    assert!(!None::<AeonValue>.nil());
    assert_eq!(AeonValue::Bool(true).bool(), Some(true));
    assert_eq!(AeonValue::Integer(1).bool(), None);
    assert_eq!(AeonValue::String("s".into()).str(), Some("s".to_string()));
    assert_eq!(AeonValue::Integer(-4).integer(), Some(-4));
    assert_eq!(double(2.5).double().unwrap().as_str(), "2.5");
    assert!(AeonValue::Nil.double().is_none());
    assert_eq!(AeonValue::List(vec![AeonValue::Nil]).list().unwrap().len(), 1);
    assert_eq!(object(vec![("a", AeonValue::Nil)]).object().unwrap().len(), 1);
    assert!(AeonValue::Nil.get("a").is_none());
    assert_eq!(AeonValue::Nil.tag(), 0);
    assert_eq!(AeonValue::List(vec![]).tag(), 6);
    assert_eq!(AeonValue::tag_to_str(4), "double");
    assert_eq!(AeonValue::tag_to_str(5), "object");
    assert_eq!(
        AeonValue::tag_to_str(9),
        "Missing implementation for tag, bug in AeonValue::tag_to_str"
    );
}

#[test]
pub fn double_literals() {
    for ok in ["85.0", "0.5", "-0.5", "-00.5", "139.3567", "00.10"] {
        assert_eq!(AeonDouble::parse(ok).unwrap().as_str(), ok);
    }
    for bad in [
        "", "85", "85.", ".5", "-.5", "-", "-.", "1.2.3", "1e5", "NaN", "inf", "1_0.5", "+1.5",
        " 1.5", "1.5 ", "1.-5", "--1.5",
    ] {
        assert!(AeonDouble::parse(bad).is_none(), "{:?}", bad);
    }
}

fn add(aeon: &mut AeonDocument, property: AeonProperty) {
    aeon.add_property(&property.name, property.value);
}

#[test]
pub fn object_get_property_integer() {
    let mut aeon = AeonDocument::new();
    let prop = AeonProperty::new("num".into(), AeonValue::Integer(79));
    add(&mut aeon, prop);
    assert_eq!(79, aeon.remove("num").integer().unwrap());
}

#[test]
pub fn object_get_property_string() {
    let mut aeon = AeonDocument::new();
    let prop = AeonProperty::new("char".into(), AeonValue::String("åöäºÃœ".into()));
    add(&mut aeon, prop);
    assert_eq!("åöäºÃœ".to_string(), aeon.remove("char").str().unwrap());
}

#[test]
pub fn object_copy_macros() {
    let mut aeon = AeonDocument::new();
    aeon.add_macro(AeonMacro::new("bread".into(), vec!["'s good".into()]));
    let mut second_aeon = AeonDocument::new();
    second_aeon.add_macro(AeonMacro::new("tubes".into(), vec!["of copper".into()]));
    aeon.copy_macros_to(&mut second_aeon);
    assert_eq!(1, aeon.macros.len());
    assert_eq!(2, second_aeon.macros.len());
}

#[test]
pub fn object_get_nested_property() {
    let mut aeon = AeonDocument::new();
    let prop = AeonProperty::new("char".into(), character());
    add(&mut aeon, prop);
    assert_eq!(
        -53,
        aeon.remove("char")
            .remove("or_nothing")
            .get("world")
            .integer()
            .unwrap()
    );
}

#[test]
pub fn object_get_nested_property_using_path_syntax() {
    let mut aeon = AeonDocument::new();
    let prop = AeonProperty::new("char".into(), character());
    add(&mut aeon, prop);
    assert_eq!(-53, aeon.get_path("char/or_nothing/world").integer().unwrap());
}

#[test]
pub fn object_remove_nested_property_using_path_syntax() {
    let mut aeon = AeonDocument::new();
    let prop = AeonProperty::new("char".into(), character());
    add(&mut aeon, prop);
    assert_eq!(
        -53,
        aeon.remove_path("char/or_nothing/world").integer().unwrap()
    );
}
