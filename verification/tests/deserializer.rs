use aeon::convert::{AeonConvert, AeonObjectConvert};
use aeon::document::{AeonDocument, AeonMacro};
use aeon::error::AeonDeserializeErrorCode;
use aeon::value::{AeonMap, AeonValue};
use aeon::{
    AeonDeserialize, AeonDeserializeProperty, AeonSerialize, AeonSerializeProperty,
    DeserializeResult, SerializeResult,
};
use std::collections::HashMap;

#[test]
pub fn deserialize_map_with_both_quoted_and_not_quoted_keys() {
    let aeon = r#"map: {test: 1, "two": 2}"#.into();
    let ser = aeon::deserialize(aeon).ok().expect("failed to deserialize");

    assert_eq!(ser.get_path("map/test").integer(), Some(1));
    assert_eq!(ser.get_path("map/two").integer(), Some(2));
}

#[test]
pub fn deserialize_double() {
    let aeon = r#"doub: 2.10"#.into();
    let ser = aeon::deserialize(aeon).ok().expect("failed to deserialize");

    assert_eq!(
        ser.get("doub")
            .double()
            .map(|d| d.as_str().parse::<f64>().unwrap()),
        Some(2.10)
    );
}

struct NestedDerive {
    cool: u32,
    maybe_cool: Option<i32>,
}

impl AeonDeserializeProperty for NestedDerive {
    fn from_property(field: AeonValue) -> DeserializeResult<Self> {
        Ok(Self {
            cool: field.get("cool").of().unwrap(),
            maybe_cool: field.get("maybe_cool").of(),
        })
    }
}

impl AeonSerializeProperty for NestedDerive {
    fn serialize_property(&self) -> SerializeResult<AeonValue> {
        let mut obj = AeonMap::new();
        obj.insert("cool".into(), self.cool.serialize_property()?);
        obj.insert("maybe_cool".into(), self.maybe_cool.serialize_property()?);
        Ok(AeonValue::Object(obj))
    }

    fn create_property_macros(insert_self: bool) -> Vec<AeonMacro> {
        let mut macros = Vec::<AeonMacro>::new();
        if insert_self {
            macros.push(AeonMacro::new_cloned(
                "nestedstruct",
                vec!["cool", "maybe_cool"],
            ));
        }
        macros.extend(u32::create_property_macros(true));
        macros
    }
}

struct TestDerive {
    bytes: Vec<u8>,
    some_ip: String,
    some_thing: Option<String>,
    some_nested_thing: Option<Vec<String>>,
    some_hash_map: AeonMap,
    opt_hash_map: Option<AeonMap>,
    some_hash_map_with_other_values: HashMap<String, NestedDerive>,
    nested_struct: NestedDerive,
}

impl AeonDeserialize for TestDerive {
    fn from_aeon(s: String) -> DeserializeResult<Self> {
        aeon::deserialize(s).and_then(|doc| Self::from_property(doc.into()))
    }
}

impl AeonSerialize for TestDerive {
    fn to_aeon(&self) -> SerializeResult<String> {
        let mut doc = AeonDocument::try_from_object(self.to_aeon_value()?).unwrap();
        doc.set_macros(Self::create_macros(false));
        aeon::serialize(&doc)
    }

    fn to_aeon_value(&self) -> SerializeResult<AeonValue> {
        self.serialize_property()
    }

    fn create_macros(insert_self: bool) -> Vec<AeonMacro> {
        Self::create_property_macros(insert_self)
    }
}

fn nested_map_from(field: Option<AeonValue>) -> DeserializeResult<HashMap<String, NestedDerive>> {
    let mut out = HashMap::new();
    for (k, v) in AeonMap::from_property(field.unwrap())?.into_entries() {
        out.insert(k, NestedDerive::from_property(v)?);
    }
    Ok(out)
}

impl AeonDeserializeProperty for TestDerive {
    fn from_property(field: AeonValue) -> DeserializeResult<Self> {
        Ok(Self {
            bytes: field
                .get("bytes")
                .map(AeonDeserializeProperty::from_property)
                .transpose()?
                .unwrap(),
            some_ip: field
                .get("some_ip")
                .map(AeonDeserializeProperty::from_property)
                .transpose()?
                .unwrap(),
            some_thing: aeon::convert::maybe(field.get("some_thing"))?,
            some_nested_thing: field
                .get("some_nested_thing")
                .map(AeonDeserializeProperty::from_property)
                .transpose()?,
            some_hash_map: field
                .get("some_hash_map")
                .map(AeonDeserializeProperty::from_property)
                .transpose()?
                .unwrap(),
            opt_hash_map: field.get("opt_hash_map").object(),
            some_hash_map_with_other_values: nested_map_from(
                field.get("some_hash_map_with_other_values"),
            )?,
            nested_struct: field
                .get("nested_struct")
                .map(AeonDeserializeProperty::from_property)
                .transpose()?
                .unwrap(),
        })
    }
}

impl AeonSerializeProperty for TestDerive {
    fn serialize_property(&self) -> SerializeResult<AeonValue> {
        let mut obj = AeonMap::new();
        obj.insert("bytes".into(), self.bytes.serialize_property()?);
        obj.insert("some_ip".into(), self.some_ip.serialize_property()?);
        obj.insert("some_thing".into(), self.some_thing.serialize_property()?);
        obj.insert(
            "some_nested_thing".into(),
            self.some_nested_thing.serialize_property()?,
        );
        obj.insert(
            "some_hash_map".into(),
            self.some_hash_map.serialize_property()?,
        );
        obj.insert(
            "opt_hash_map".into(),
            self.opt_hash_map.serialize_property()?,
        );
        let mut others = AeonMap::new();
        for (k, v) in self.some_hash_map_with_other_values.iter() {
            others.insert(k.clone(), v.serialize_property()?);
        }
        obj.insert(
            "some_hash_map_with_other_values".into(),
            AeonValue::Object(others),
        );
        obj.insert(
            "nested_struct".into(),
            self.nested_struct.serialize_property()?,
        );
        Ok(AeonValue::Object(obj))
    }

    fn create_property_macros(insert_self: bool) -> Vec<AeonMacro> {
        let mut macros = Vec::<AeonMacro>::new();
        if insert_self {
            macros.push(AeonMacro::new_cloned(
                "testderive",
                vec![
                    "bytes",
                    "some_ip",
                    "some_thing",
                    "some_nested_thing",
                    "some_hash_map",
                    "opt_hash_map",
                    "some_hash_map_with_other_values",
                    "nested_struct",
                ],
            ));
        }

        macros.extend(NestedDerive::create_property_macros(true));
        macros.extend(u8::create_property_macros(true));
        macros.extend(String::create_property_macros(true));
        macros
    }
}

fn assert_contains(s: &str, e: &str) {
    assert!(s.contains(e), "Did not find {} in:\n{}", e, s)
}

#[test]
pub fn deserializer_test_serialize() {
    let mut summits = AeonMap::new();
    summits.insert("summits".into(), AeonValue::Integer(987));
    let mut thingy = HashMap::new();
    thingy.insert(
        "thingy".to_string(),
        NestedDerive {
            cool: 001,
            maybe_cool: None,
        },
    );
    let test = TestDerive {
        bytes: vec![9, 1],
        some_ip: String::from("1.2.3.4"),
        some_thing: None,
        some_nested_thing: Some(vec!["elo".to_string(), "o no".to_string()]),
        some_hash_map: summits,
        opt_hash_map: None,
        some_hash_map_with_other_values: thingy,
        nested_struct: NestedDerive {
            cool: 777,
            maybe_cool: Some(5),
        },
    };
    let serialized: String = TestDerive::to_aeon(&test)
        .unwrap()
        .replace(['\t', ' ', '\n', '\r'], "");
    assert_contains(&serialized, "some_ip:\"1.2.3.4\"");
    assert_contains(&serialized, "some_ip:\"1.2.3.4\"");
    assert_contains(&serialized, "bytes:[9,1]");
    assert_contains(&serialized, "some_thing:nil");
    assert_contains(&serialized, "some_nested_thing:[\"elo\",\"ono\"]");
    assert_contains(&serialized, "some_hash_map:{summits:987}");
    assert_contains(&serialized, "opt_hash_map:nil");
    assert_contains(
        &serialized,
        "some_hash_map_with_other_values:{thingy:nestedstruct(1,nil)}",
    );
    assert_contains(&serialized, "nested_struct:nestedstruct(777,5)");
}

#[test]
pub fn deserializer_test_deserialize() {
    let aeon = "@nestedstruct(cool, maybe_cool)some_ip: \"5.6.7.8\"\nbytes: [5,4,6,]\nsome_thing: nil\nsome_nested_thing: [\"o hi \u{2714}\", \"a thingy\"]\nsome_hash_map: { summits: 987 }\nopt_hash_map: nil\nsome_hash_map_with_other_values:{thingy:nestedstruct(321,3310)}\nnested_struct: { \"cool\": 7171}".to_string();
    let test = TestDerive::from_aeon(aeon).unwrap();
    assert_eq!("5.6.7.8", test.some_ip);
    assert_eq!(vec![5u8, 4u8, 6u8], test.bytes);
    assert_eq!(None, test.some_thing);
    assert_eq!(
        Some(vec!["o hi ✔".to_string(), "a thingy".to_string()]),
        test.some_nested_thing
    );
    assert_eq!(
        3310,
        test.some_hash_map_with_other_values
            .get("thingy")
            .unwrap()
            .maybe_cool
            .unwrap()
    );
    assert_eq!(
        321,
        test.some_hash_map_with_other_values
            .get("thingy")
            .unwrap()
            .cool
    );
    assert_eq!(
        987,
        test.some_hash_map
            .get("summits")
            .unwrap()
            .clone()
            .integer()
            .unwrap()
    );
    assert!(matches!(test.opt_hash_map, None));
    assert_eq!(7171, test.nested_struct.cool);
    assert_eq!(None, test.nested_struct.maybe_cool);
}

fn parse(text: &str) -> AeonDocument {
    aeon::deserialize(text.to_string()).expect("failed to deserialize")
}

fn failure(text: &str) -> (AeonDeserializeErrorCode, String) {
    let e = aeon::deserialize(text.to_string()).expect_err("deserialized");
    (e.code, e.message)
}

fn grammar_failure(text: &str) -> String {
    let (code, message) = failure(text);
    assert_eq!(code, AeonDeserializeErrorCode::DeserializationFailed, "{}", message);
    message
}

#[test]
pub fn numbers_deserialize_by_their_decimal_point() {
    let doc = parse("a: 85.0 b: 85 c: -85 d: -0.25");
    assert_eq!(doc.get("a").double().unwrap().as_str(), "85.0");
    assert_eq!(doc.get("a").double().unwrap().as_str().parse::<f64>().unwrap(), 85.0);
    assert_eq!(doc.get("b").integer(), Some(85));
    assert!(doc.get("b").double().is_none());
    assert_eq!(doc.get("c").integer(), Some(-85));
    assert_eq!(doc.get("d").double().unwrap().as_str(), "-0.25");
    assert_eq!(
        failure("a: 85."),
        (
            AeonDeserializeErrorCode::LexingFailed,
            "Trailing decimal point in number: 85.".to_string()
        )
    );
    assert_eq!(
        failure("a: 85..0"),
        (
            AeonDeserializeErrorCode::LexingFailed,
            "Two decimal points in number: 85..0".to_string()
        )
    );
}

#[test]
pub fn string_escapes_round_trip() {
    let doc = parse(r#"s: "a\tb\"c""#);
    let content = doc.get("s").str().unwrap();
    assert_eq!(
        content.chars().collect::<Vec<char>>(),
        vec!['a', '\t', 'b', '"', 'c']
    );
    assert_eq!(aeon::serialize(&doc).unwrap(), "s: \"a\\tb\\\"c\"\n\n");
}

#[test]
pub fn forward_reference_is_rejected() {
    let (code, message) = failure("a: Q(1)\n@Q(x)\n");
    assert_eq!(code, AeonDeserializeErrorCode::DeserializationFailed);
    assert_eq!(message, "Macro does not exist: Q");
    let doc = parse("@Q(x)\na: Q(1)\n");
    assert_eq!(doc.get_path("a/x").integer(), Some(1));
    assert_eq!(
        grammar_failure("@Q(x)\na: [Q(1), R(2)]\n@R(y)"),
        "Macro does not exist: R"
    );
}

#[test]
pub fn macro_arity_must_match() {
    assert_eq!(
        grammar_failure("@P(x, y) a: P(1)"),
        "Wrong number of args to macro P: was 1, expected 2"
    );
    assert_eq!(
        grammar_failure("@P(x, y) a: P(1, 2, 3)"),
        "Wrong number of args to macro P: was 3, expected 2"
    );
    assert_eq!(
        grammar_failure("@P() a: P(1)"),
        "Wrong number of args to macro P: was 1, expected 0"
    );
    let doc = parse("@P() a: P()");
    assert_eq!(doc.get("a").object().unwrap().len(), 0);
}

#[test]
pub fn end_to_end() {
    let doc = parse("@P(x,y)\nfoo: P(1, [2,3])\n");
    assert_eq!(doc.macros.len(), 1);
    assert_eq!(doc.macros[0].name, "P");
    assert_eq!(doc.macros[0].args, vec!["x", "y"]);
    assert_eq!(doc.properties.len(), 1);
    assert_eq!(doc.properties[0].name, "foo");
    let foo = doc.get("foo").object().unwrap();
    assert_eq!(foo.len(), 2);
    assert_eq!(foo.get("x").cloned().integer(), Some(1));
    let y = foo.get("y").cloned().list().unwrap();
    assert_eq!(y.len(), 2);
    assert_eq!(y[0].clone().integer(), Some(2));
    assert_eq!(y[1].clone().integer(), Some(3));

    let text = aeon::serialize(&doc).unwrap();
    assert_eq!(
        text,
        "@P(x, y)\n\nfoo: P(1,\n    [\n        2,\n        3\n    ]\n)\n\n"
    );
    let again = parse(&text);
    assert_eq!(again.macros.len(), 1);
    assert_eq!(again.macros[0].name, "P");
    assert_eq!(again.macros[0].args, vec!["x", "y"]);
    assert_eq!(again.properties.len(), 1);
    assert_eq!(again.get_path("foo/x").integer(), Some(1));
    assert_eq!(again.get_path("foo/y").list().unwrap().len(), 2);
    assert_eq!(aeon::serialize(&again).unwrap(), text);
}

#[test]
pub fn round_trip_of_a_built_document() {
    let mut inner = AeonMap::new();
    inner.insert("a".into(), AeonValue::Integer(1));
    inner.insert("b c".into(), AeonValue::String("x\ny\\z\"".into()));
    inner.insert("nil".into(), AeonValue::List(vec![]));
    let mut fits = AeonMap::new();
    fits.insert("y".into(), AeonValue::Object(inner.clone()));
    fits.insert("x".into(), AeonValue::Bool(false));
    let mut doc = AeonDocument::new();
    doc.add_macro(AeonMacro::new_cloned("P", vec!["x", "y"]));
    doc.add_macro(AeonMacro::new_cloned("E", vec![]));
    doc.add_property("first", AeonValue::Object(fits));
    doc.add_property(
        "second",
        AeonValue::List(vec![
            AeonValue::Nil,
            AeonValue::Integer(i64::MIN),
            AeonValue::Double(aeon::value::AeonDouble::parse("-0.50").unwrap()),
            AeonValue::Object(AeonMap::new()),
            AeonValue::Object(inner),
        ]),
    );
    let text = aeon::serialize(&doc).unwrap();
    let again = parse(&text);
    assert_eq!(again.macros.len(), 2);
    assert_eq!(again.properties.len(), 2);
    assert_eq!(again.get_path("first/x").bool(), Some(false));
    assert_eq!(again.get_path("first/y/a").integer(), Some(1));
    assert_eq!(
        again.get_path("first/y/b c").str(),
        Some("x\ny\\z\"".to_string())
    );
    assert_eq!(again.get_path("first/y/nil").list().unwrap().len(), 0);
    let second = again.get("second").list().unwrap();
    assert_eq!(second.len(), 5);
    assert!(second[0].clone().nil());
    assert_eq!(second[1].clone().integer(), Some(i64::MIN));
    assert_eq!(second[2].clone().double().unwrap().as_str(), "-0.50");
    assert_eq!(second[3].clone().object().unwrap().len(), 0);
    assert_eq!(second[4].get("a").integer(), Some(1));
    assert_eq!(aeon::serialize(&again).unwrap(), text);
}

#[test]
pub fn definitions_and_properties_are_first_write_wins() {
    let doc = parse("@m(a) @m(b, c) p: 1 p: 2 q: m(3)");
    assert_eq!(doc.macros.len(), 1);
    assert_eq!(doc.macros[0].args, vec!["a"]);
    assert_eq!(doc.get("p").integer(), Some(1));
    assert_eq!(doc.get_path("q/a").integer(), Some(3));
}

#[test]
pub fn trailing_commas_and_comments() {
    let doc = parse("# head\n@m(a, b,) # def\nl: [1, 2,] # list\no: {k: 1, \"q\": 2,}\nc: m(1, 2,)\ne: [] f: {} g: m(3,4)");
    assert_eq!(doc.macros[0].args, vec!["a", "b"]);
    assert_eq!(doc.get("l").list().unwrap().len(), 2);
    assert_eq!(doc.get("o").object().unwrap().len(), 2);
    assert_eq!(doc.get_path("c/b").integer(), Some(2));
    assert_eq!(doc.get("e").list().unwrap().len(), 0);
    assert_eq!(doc.get("f").object().unwrap().len(), 0);
    assert_eq!(doc.get_path("g/a").integer(), Some(3));
}

#[test]
pub fn duplicate_keys_overwrite() {
    let doc = parse("o: {a: 1, b: 2, a: 3}");
    let o = doc.get("o").object().unwrap();
    assert_eq!(o.len(), 2);
    assert_eq!(o.entries()[0].0, "a");
    assert_eq!(o.get("a").cloned().integer(), Some(3));
    let dup = parse("@m(a, a) o: m(1, 2)");
    let o = dup.get("o").object().unwrap();
    assert_eq!(o.len(), 1);
    assert_eq!(o.get("a").cloned().integer(), Some(2));
}

#[test]
pub fn literals() {
    let doc = parse("a: nil b: true c: false d: \"s\" e: -1 f: 1.5");
    assert!(doc.get("a").nil());
    assert_eq!(doc.get("b").bool(), Some(true));
    assert_eq!(doc.get("c").bool(), Some(false));
    assert_eq!(doc.get("d").str(), Some("s".to_string()));
    assert_eq!(doc.get("e").integer(), Some(-1));
    assert_eq!(doc.get("f").double().unwrap().as_str(), "1.5");
    assert!(parse("").is_empty);
    assert!(parse("  # nothing\n").is_empty);
    assert!(!parse("a: 1").is_empty);
}

#[test]
pub fn grammar_failures() {
    assert_eq!(grammar_failure("1"), "Unexpected token in main scope: an integer");
    assert_eq!(grammar_failure("a: 1 ]"), "Unexpected token in main scope: ']'");
    assert_eq!(grammar_failure("nil: 1"), "Unexpected token in main scope: nil");
    assert_eq!(grammar_failure("a"), "Unexpected end of input");
    assert_eq!(grammar_failure("a 1"), "Unexpected token: an integer");
    assert_eq!(grammar_failure("a:"), "Unterminated property value a");
    assert_eq!(grammar_failure("a: ]"), "Unexpected token in property value: ']'");
    assert_eq!(grammar_failure("a: ,"), "Unexpected token in property value: ','");
    assert_eq!(grammar_failure("a: b"), "Unexpected end of input");
    assert_eq!(grammar_failure("a: b c: 1"), "Unexpected token: identifier c");
    assert_eq!(grammar_failure("@"), "Unexpected end of input");
    assert_eq!(grammar_failure("@1"), "Unexpected token: an integer");
    assert_eq!(grammar_failure("@m"), "Unexpected end of input");
    assert_eq!(grammar_failure("@m["), "Unexpected token: '['");
    assert_eq!(grammar_failure("@m("), "Unterminated macro definition m");
    assert_eq!(grammar_failure("@m(a"), "Unterminated macro definition m");
    assert_eq!(grammar_failure("@m(a,"), "Unterminated macro definition m");
    assert_eq!(grammar_failure("@m(a b)"), "Unexpected token in macro definition: identifier b");
    assert_eq!(grammar_failure("@m(1)"), "Unexpected token in macro definition: an integer");
    assert_eq!(grammar_failure("@m(,)"), "Unexpected token in macro definition: ','");
    assert_eq!(grammar_failure("a: ["), "Unterminated list");
    assert_eq!(grammar_failure("a: [1"), "Unterminated list");
    assert_eq!(grammar_failure("a: [1,"), "Unterminated list");
    assert_eq!(grammar_failure("a: [1 2]"), "Unexpected token in list: an integer");
    assert_eq!(grammar_failure("a: [1)"), "Unexpected token in list: ')'");
    assert_eq!(grammar_failure("a: [,]"), "Unexpected token in property value: ','");
    assert_eq!(grammar_failure("@m(a) b: m("), "Unterminated macro call m");
    assert_eq!(grammar_failure("@m(a) b: m(1"), "Unterminated macro call m");
    assert_eq!(grammar_failure("@m(a) b: m(1]"), "Unexpected token in macro call: ']'");
    assert_eq!(grammar_failure("a: {"), "Unterminated map");
    assert_eq!(grammar_failure("a: {k"), "Unexpected end of input");
    assert_eq!(grammar_failure("a: {k 1}"), "Unexpected token: an integer");
    assert_eq!(grammar_failure("a: {k:"), "Unterminated map with key k");
    assert_eq!(grammar_failure("a: {k: 1"), "Unterminated map");
    assert_eq!(grammar_failure("a: {k: 1 j: 2}"), "Unexpected token in map: identifier j");
    assert_eq!(grammar_failure("a: {1: 1}"), "Unexpected token in map: an integer, expected string key");
    assert_eq!(grammar_failure("a: {nil: 1}"), "Unexpected token in map: nil, expected string key");
    assert_eq!(grammar_failure("a: {k: 1.5 ]"), "Unexpected token in map: ']'");
    assert_eq!(grammar_failure("a: 1.5 2.5"), "Unexpected token in main scope: double 2.5");
}

#[test]
pub fn lexing_failures_keep_their_kind_at_any_depth() {
    for text in ["$", "a: $", "a: [ $ ]", "a: [[ $ ]]", "a: {k: [ \"open ]}", "@m(a) b: m([ 1. ])", "@m($)"] {
        let (code, _) = failure(text);
        assert_eq!(code, AeonDeserializeErrorCode::LexingFailed, "{}", text);
    }
    assert_eq!(failure("a: [[ $ ]]").1, "Unknown char $");
    assert_eq!(
        failure("a: ] \"open").0,
        AeonDeserializeErrorCode::DeserializationFailed
    );
}

#[test]
pub fn deserializer_reads_what_it_was_given() {
    let mut d = aeon::deserializer::Deserializer::new("a: 1");
    let doc = d.deserialize().unwrap();
    assert_eq!(doc.get("a").integer(), Some(1));
    let again = d.deserialize().unwrap();
    assert!(again.is_empty);
}
