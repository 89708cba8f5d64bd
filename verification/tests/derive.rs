use aeon::convert::AeonConvert;
use aeon::document::{AeonDocument, AeonMacro};
use aeon::error::{
    AeonDeserializeError, AeonDeserializeErrorCode, AeonSerializeError, AeonSerializeErrorCode,
};
use aeon::value::{AeonMap, AeonValue};
use aeon::{
    AeonDeserialize, AeonDeserializeProperty, AeonSerialize, AeonSerializeProperty,
    DeserializeResult, SerializeResult,
};
use std::collections::HashMap;

pub struct FirstPhase {
    pub it: String,
    pub it2: String,
    pub not: HashMap<String, Option<HashMap<String, i64>>>,
}

impl AeonDeserialize for FirstPhase {
    fn from_aeon(s: String) -> DeserializeResult<Self> {
        aeon::deserialize(s).and_then(|doc| Self::from_property(doc.into()))
    }
}

impl AeonDeserializeProperty for FirstPhase {
    fn from_property(field: AeonValue) -> DeserializeResult<Self> {
        let mut not = HashMap::new();
        for (k, v) in AeonMap::from_property(field.get("not").unwrap())?.into_entries() {
            let inner = match Option::<AeonMap>::from_property(v)? {
                Some(m) => {
                    let mut out = HashMap::new();
                    for (ik, iv) in m.into_entries() {
                        out.insert(ik, i64::from_property(iv)?);
                    }
                    Some(out)
                }
                None => None,
            };
            not.insert(k, inner);
        }
        Ok(Self {
            it: aeon::convert::expected(field.get("it"))?,
            it2: aeon::convert::expected(field.get("it2"))?,
            not,
        })
    }
}

impl AeonSerialize for FirstPhase {
    fn to_aeon(&self) -> SerializeResult<String> {
        let mut doc = AeonDocument::try_from_object(self.to_aeon_value()?).unwrap();
        doc.set_macros(Self::create_macros(false));
        aeon::serialize(&doc)
    }

    fn to_aeon_value(&self) -> SerializeResult<AeonValue> {
        self.serialize_property()
    }

    fn create_macros(insert_self: bool) -> Vec<AeonMacro> {
        Self::create_property_macros(insert_self)
    }
}

impl AeonSerializeProperty for FirstPhase {
    fn serialize_property(&self) -> SerializeResult<AeonValue> {
        let mut obj = AeonMap::new();
        obj.insert("it".into(), self.it.serialize_property()?);
        obj.insert("it2".into(), self.it2.serialize_property()?);
        let mut not = AeonMap::new();
        for (k, v) in self.not.iter() {
            let inner = match v {
                Some(m) => {
                    let mut out = AeonMap::new();
                    for (ik, iv) in m.iter() {
                        out.insert(ik.clone(), iv.serialize_property()?);
                    }
                    AeonValue::Object(out)
                }
                None => AeonValue::Nil,
            };
            not.insert(k.clone(), inner);
        }
        obj.insert("not".into(), AeonValue::Object(not));
        Ok(AeonValue::Object(obj))
    }

    fn create_property_macros(insert_self: bool) -> Vec<AeonMacro> {
        let mut macros = Vec::<AeonMacro>::new();
        if insert_self {
            macros.push(AeonMacro::new_cloned("FirstPhase", vec!["it", "it2", "not"]));
        }
        macros
    }
}

#[test]
pub fn derive_test_deserialize() {
    let aeon = r#"
        it: "hello"
        it2: "hi \"there\""
        not: { cool: { it: 1 }, so_cool: nil }
        "#
    .to_string();
    let test = FirstPhase::from_aeon(aeon).unwrap();
    assert_eq!("hello", test.it);
    assert_eq!("hi \"there\"", test.it2);
    assert!(test.not.get("so_cool").unwrap().is_none());
    assert_eq!(
        &1,
        test.not
            .get("cool")
            .unwrap()
            .as_ref()
            .unwrap()
            .get("it")
            .unwrap()
    );
}

#[test]
pub fn derive_test_serialize() {
    let mut cool = HashMap::new();
    cool.insert("it".to_string(), 1);
    let mut not = HashMap::new();
    not.insert("cool".to_string(), Some(cool));
    not.insert("so_cool".to_string(), None);
    let first = FirstPhase {
        it: "hello".into(),
        it2: "hi \"there\"".into(),
        not,
    };
    let test: String = first.to_aeon().unwrap().replace("    ", "\t");
    assert!(test.contains(r#"it: "hello""#));
    assert!(test.contains(r#"it2: "hi \"there\"""#));
    assert!(test.contains("not: "));
    assert!(test.contains("cool: "));
    assert!(test.contains("it: 1"));
    assert!(test.contains("so_cool: nil"));
}

struct OtherDerive {
    veco: Vec<String>,
    do_it: bool,
}

impl AeonDeserializeProperty for OtherDerive {
    fn from_property(field: AeonValue) -> DeserializeResult<Self> {
        Ok(Self {
            veco: aeon::convert::expected(field.get("veco"))?,
            do_it: aeon::convert::expected(field.get("do_it"))?,
        })
    }
}

impl AeonSerializeProperty for OtherDerive {
    fn serialize_property(&self) -> SerializeResult<AeonValue> {
        let mut obj = AeonMap::new();
        obj.insert("veco".into(), self.veco.serialize_property()?);
        obj.insert("do_it".into(), self.do_it.serialize_property()?);
        Ok(AeonValue::Object(obj))
    }

    fn create_property_macros(insert_self: bool) -> Vec<AeonMacro> {
        let mut macros = Vec::<AeonMacro>::new();
        if insert_self {
            macros.push(AeonMacro::new_cloned("OtherDerive", vec!["veco", "do_it"]));
        }
        macros
    }
}

struct TestDerive {
    bytes: Vec<u8>,
    some_ip: String,
    thingy: HashMap<String, HashMap<String, OtherDerive>>,
    maybe: Option<bool>,
}

impl AeonDeserialize for TestDerive {
    fn from_aeon(s: String) -> DeserializeResult<Self> {
        aeon::deserialize(s).and_then(|doc| Self::from_property(doc.into()))
    }
}

impl AeonDeserializeProperty for TestDerive {
    fn from_property(field: AeonValue) -> DeserializeResult<Self> {
        let mut thingy = HashMap::new();
        for (k, v) in AeonMap::from_property(field.get("thingy").unwrap())?.into_entries() {
            let mut inner = HashMap::new();
            for (ik, iv) in AeonMap::from_property(v)?.into_entries() {
                inner.insert(ik, OtherDerive::from_property(iv)?);
            }
            thingy.insert(k, inner);
        }
        Ok(Self {
            bytes: aeon::convert::expected(field.get("bytes"))?,
            some_ip: aeon::convert::expected(field.get("some_ip"))?,
            thingy,
            maybe: aeon::convert::maybe(field.get("maybe"))?,
        })
    }
}

impl AeonSerialize for TestDerive {
    fn to_aeon(&self) -> SerializeResult<String> {
        let mut doc = AeonDocument::try_from_object(self.to_aeon_value()?).unwrap();
        doc.set_macros(Self::create_macros(false));
        aeon::serialize(&doc)
    }

    fn to_aeon_value(&self) -> SerializeResult<AeonValue> {
        self.serialize_property()
    }

    fn create_macros(insert_self: bool) -> Vec<AeonMacro> {
        Self::create_property_macros(insert_self)
    }
}

impl AeonSerializeProperty for TestDerive {
    fn serialize_property(&self) -> SerializeResult<AeonValue> {
        let mut obj = AeonMap::new();
        obj.insert("bytes".into(), self.bytes.serialize_property()?);
        obj.insert("some_ip".into(), self.some_ip.serialize_property()?);
        let mut thingy = AeonMap::new();
        for (k, v) in self.thingy.iter() {
            let mut inner = AeonMap::new();
            for (ik, iv) in v.iter() {
                inner.insert(ik.clone(), iv.serialize_property()?);
            }
            thingy.insert(k.clone(), AeonValue::Object(inner));
        }
        obj.insert("thingy".into(), AeonValue::Object(thingy));
        obj.insert("maybe".into(), self.maybe.serialize_property()?);
        Ok(AeonValue::Object(obj))
    }

    fn create_property_macros(insert_self: bool) -> Vec<AeonMacro> {
        let mut macros = Vec::<AeonMacro>::new();
        if insert_self {
            macros.push(AeonMacro::new_cloned(
                "TestDerive",
                vec!["bytes", "some_ip", "thingy", "maybe"],
            ));
        }
        macros.extend(OtherDerive::create_property_macros(true));
        macros
    }
}

#[test]
pub fn test_serialize2() {
    let test = TestDerive {
        bytes: vec![9, 1],
        some_ip: String::from("1.2.3.4"),
        thingy: HashMap::new(),
        maybe: None,
    };
    let serialized: String = test.to_aeon().unwrap().replace("    ", "\t");
    assert!(serialized.contains("some_ip: \"1.2.3.4\""));
    assert!(serialized.contains("bytes: [\n\t9,\n\t1\n]"));
    assert!(serialized.contains("thingy: {}"));
    assert!(serialized.contains("maybe: nil"));
    assert!(
        serialized.contains("@OtherDerive(veco, do_it)"),
        "{}",
        serialized
    );
}

#[test]
pub fn test_deserialize2() {
    let aeon = "@OtherDerive(veco, do_it) some_ip: \"5.6.7.8\"\nbytes: [5,4,6]\n#some_thing: nil\nsome_nested_thing: [\"o hi\", \"a thingy\"] thingy:{snappy:{scrappy:OtherDerive([\"hi world\"], false)}} maybe: true".to_string();
    let test = TestDerive::from_aeon(aeon).unwrap();
    assert_eq!("5.6.7.8", test.some_ip);
    assert_eq!(vec![5u8, 4u8, 6u8], test.bytes);
    assert!(test.maybe.unwrap());
    assert_eq!(
        "hi world",
        test.thingy
            .get("snappy")
            .unwrap()
            .get("scrappy")
            .unwrap()
            .veco
            .first()
            .unwrap()
    )
}

#[test]
pub fn primitive_conversions() {
    assert_eq!(bool::from_property(AeonValue::Bool(true)).unwrap(), true);
    assert_eq!(String::from_property(AeonValue::String("s".into())).unwrap(), "s");
    assert_eq!(i64::from_property(AeonValue::Integer(-5)).unwrap(), -5);
    assert_eq!(i32::from_property(AeonValue::Integer(-5)).unwrap(), -5);
    assert_eq!(i16::from_property(AeonValue::Integer(70000)).unwrap(), 70000i64 as i16);
    assert_eq!(i8::from_property(AeonValue::Integer(-129)).unwrap(), 127);
    assert_eq!(u64::from_property(AeonValue::Integer(-1)).unwrap(), u64::MAX);
    assert_eq!(u32::from_property(AeonValue::Integer(7)).unwrap(), 7);
    assert_eq!(u16::from_property(AeonValue::Integer(65536)).unwrap(), 0);
    assert_eq!(u8::from_property(AeonValue::Integer(257)).unwrap(), 1);
    assert_eq!(u64::MAX.serialize_property().unwrap().integer(), Some(-1));
    assert_eq!(200u8.serialize_property().unwrap().integer(), Some(200));
    assert_eq!((-3i8).serialize_property().unwrap().integer(), Some(-3));
    assert_eq!(true.serialize_property().unwrap().bool(), Some(true));
    assert_eq!(
        "x".to_string().serialize_property().unwrap().str(),
        Some("x".to_string())
    );
    assert!(None::<bool>.serialize_property().unwrap().nil());
    assert_eq!(Some(4u8).serialize_property().unwrap().integer(), Some(4));
    assert_eq!(
        vec![1u8, 2u8].serialize_property().unwrap().list().unwrap().len(),
        2
    );
    assert_eq!(
        Option::<i64>::from_property(AeonValue::Nil).unwrap(),
        None
    );
    assert_eq!(
        Option::<i64>::from_property(AeonValue::Integer(3)).unwrap(),
        Some(3)
    );
    assert_eq!(
        AeonValue::List(vec![AeonValue::Integer(1), AeonValue::Integer(2)])
            .list_of::<u8>()
            .unwrap(),
        vec![1, 2]
    );
    assert!(AeonValue::List(vec![AeonValue::Integer(1), AeonValue::Nil])
        .list_of::<u8>()
        .is_none());
    assert!(AeonValue::Nil.list_of::<u8>().is_none());
    assert_eq!(Some(AeonValue::Integer(9)).of::<u8>(), Some(9));
    assert_eq!(None::<AeonValue>.of::<u8>(), None);
    assert!(u8::create_property_macros(true).is_empty());
}

#[test]
pub fn conversion_failures() {
    let e = bool::from_property(AeonValue::Integer(1)).unwrap_err();
    assert_eq!(e.code, AeonDeserializeErrorCode::ConversionFailed);
    assert_eq!(e.message, "Failed to convert 'int' to 'bool'");
    assert_eq!(e.to_text(), "ConversionFailed: Failed to convert 'int' to 'bool'");
    let e = u8::from_property(AeonValue::Nil).unwrap_err();
    assert_eq!(e.code, AeonDeserializeErrorCode::ConversionFailed);
    assert_eq!(e.message, "Failed to convert 'nil' to 'u8'");
    let e = Vec::<u8>::from_property(AeonValue::Bool(true)).unwrap_err();
    assert_eq!(e.code, AeonDeserializeErrorCode::DeserializationFailed);
    assert_eq!(e.message, "Failed to convert 'bool' to 'Vec'");
    let e = AeonMap::from_property(AeonValue::List(vec![])).unwrap_err();
    assert_eq!(e.code, AeonDeserializeErrorCode::DeserializationFailed);
    assert_eq!(e.message, "Failed to convert 'list' to 'AeonMap'");
    assert!(aeon::convert::maybe::<u8>(None).unwrap().is_none());
    assert!(aeon::convert::maybe::<u8>(Some(AeonValue::Nil)).unwrap().is_none());
    assert_eq!(aeon::convert::maybe::<u8>(Some(AeonValue::Integer(2))).unwrap(), Some(2));
    assert_eq!(aeon::convert::expected::<u8>(Some(AeonValue::Integer(2))).unwrap(), 2);
}

#[test]
pub fn error_constructors_and_flags() {
    assert_eq!(
        AeonDeserializeError::lexing("m".into()).code,
        AeonDeserializeErrorCode::LexingFailed
    );
    assert_eq!(
        AeonDeserializeError::deserialization("m".into()).code,
        AeonDeserializeErrorCode::DeserializationFailed
    );
    let c = AeonDeserializeError::conversion("m".into());
    assert_eq!(c.code, AeonDeserializeErrorCode::ConversionFailed);
    assert_eq!(c.message, "m");
    assert_eq!(c.code.variant_name(), "ConversionFailed");
    assert_eq!(AeonDeserializeErrorCode::LexingFailed.variant_name(), "LexingFailed");
    let s = AeonSerializeError {
        code: AeonSerializeErrorCode::SerializationFailed,
        message: "why".into(),
    };
    assert_eq!(s.to_text(), "SerializationFailed: why");
    assert_eq!(AeonSerializeErrorCode::ConversionFailed.variant_name(), "ConversionFailed");

    assert!(aeon::flags::has(3u8, 1u8));
    assert!(aeon::flags::has(3u8, 3u8));
    assert!(!aeon::flags::has(2u8, 3u8));
    assert!(aeon::flags::has(0u32, 0u32));
    let mut f = 0u8;
    aeon::flags::add(&mut f, 2u8);
    assert_eq!(f, 2);
    aeon::flags::add(&mut f, 1u8);
    assert_eq!(f, 3);
    assert!(aeon::flags::has(f, 1u8));
}
