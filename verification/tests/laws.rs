use aeon::convert::AeonObjectConvert;
use aeon::document::{AeonDocument, AeonMacro};
use aeon::roundtrip::{are_distinct, is_printable, is_well_formed, same_document, same_value};
use aeon::value::{AeonDouble, AeonMap, AeonValue};

struct Source(u64);

impl Source {
    fn next(&mut self, below: u64) -> u64 {
        self.0 = self
            .0
            .wrapping_mul(6364136223846793005)
            .wrapping_add(1442695040888963407);
        (self.0 >> 33) % below
    }
}

const KEYS: [&str; 12] = [
    "a", "b", "c", "with space", "nil", "9", "x_1", "ünï", "\\", "quo\"te", "tab\tline\n", "",
];
const TEXTS: [&str; 6] = ["", "plain", "tab\there", "quote\"back\\slash", "line\nbreak\r", "✔ #not a comment"];
const DOUBLES: [&str; 5] = ["0.0", "-1.5", "85.0", "-0.25", "123456789.000000001"];

fn value(source: &mut Source, depth: u32) -> AeonValue {
    let kinds = if depth == 0 { 5 } else { 7 };
    match source.next(kinds) {
        0 => AeonValue::Nil,
        1 => AeonValue::Bool(source.next(2) == 0),
        2 => AeonValue::String(TEXTS[source.next(6) as usize].to_string()),
        3 => AeonValue::Integer(match source.next(4) {
            0 => i64::MIN,
            1 => i64::MAX,
            2 => 0,
            _ => source.next(2000) as i64 - 1000,
        }),
        4 => AeonValue::Double(AeonDouble::parse(DOUBLES[source.next(5) as usize]).unwrap()),
        5 => {
            let n = source.next(4);
            AeonValue::List((0..n).map(|_| value(source, depth - 1)).collect())
        }
        _ => {
            let n = source.next(4);
            let mut map = AeonMap::new();
            for _ in 0..n {
                map.insert(
                    KEYS[source.next(12) as usize].to_string(),
                    value(source, depth - 1),
                );
            }
            AeonValue::Object(map)
        }
    }
}

fn document(source: &mut Source) -> AeonDocument {
    let mut doc = AeonDocument::new();
    if source.next(2) == 0 {
        doc.add_macro(AeonMacro::new_cloned("ab", vec!["a", "b"]));
    }
    if source.next(2) == 0 {
        doc.add_macro(AeonMacro::new_cloned("ba", vec!["b", "a"]));
    }
    if source.next(2) == 0 {
        doc.add_macro(AeonMacro::new_cloned("one", vec!["c"]));
    }
    if source.next(3) == 0 {
        doc.add_macro(AeonMacro::new_cloned("none", vec![]));
    }
    if source.next(3) == 0 {
        doc.add_macro(AeonMacro::new_cloned("wide", vec!["a", "b", "c", "x_1"]));
    }
    let names = ["p", "q", "r", "s_2", "T"];
    for name in names {
        if source.next(3) != 0 {
            doc.add_property(name, value(source, 3));
        }
    }
    doc
}

#[test]
pub fn round_trip_of_generated_documents() {
    let mut source = Source(2024);
    for round in 0..400 {
        let doc = document(&mut source);
        assert!(is_printable(&doc));
        let text = aeon::serialize(&doc).unwrap();
        let again = aeon::deserialize(text.clone())
            .unwrap_or_else(|e| panic!("round {}: {}\n{}", round, e.to_text(), text));
        assert!(same_document(&doc, &again), "round {}:\n{}", round, text);
        assert!(same_document(&again, &doc), "round {}:\n{}", round, text);
        assert_eq!(
            again.is_empty,
            doc.macros.is_empty() && doc.properties.is_empty()
        );
        let third = aeon::deserialize(aeon::serialize(&again).unwrap()).unwrap();
        assert!(same_document(&again, &third), "round {}:\n{}", round, text);
    }
}

fn object(entries: Vec<(&str, AeonValue)>) -> AeonValue {
    let mut map = AeonMap::new();
    for (k, v) in entries {
        map.insert(k.to_string(), v);
    }
    AeonValue::Object(map)
}

#[test]
pub fn sameness_ignores_the_order_of_entries_only() {
    let a = object(vec![("x", AeonValue::Integer(1)), ("y", AeonValue::Nil)]);
    let b = object(vec![("y", AeonValue::Nil), ("x", AeonValue::Integer(1))]);
    let c = object(vec![("y", AeonValue::Nil), ("x", AeonValue::Integer(2))]);
    let d = object(vec![("y", AeonValue::Nil), ("z", AeonValue::Integer(1))]);
    let e = object(vec![("y", AeonValue::Nil)]);
    assert!(same_value(&a, &b));
    assert!(same_value(&b, &a));
    assert!(!same_value(&a, &c));
    assert!(!same_value(&a, &d));
    assert!(!same_value(&d, &a));
    assert!(!same_value(&a, &e));
    assert!(!same_value(&e, &a));
    assert!(same_value(
        &AeonValue::List(vec![a.clone(), AeonValue::Bool(true)]),
        &AeonValue::List(vec![b.clone(), AeonValue::Bool(true)])
    ));
    assert!(!same_value(
        &AeonValue::List(vec![AeonValue::Bool(true), a.clone()]),
        &AeonValue::List(vec![b.clone(), AeonValue::Bool(true)])
    ));
    assert!(!same_value(&AeonValue::List(vec![]), &object(vec![])));
    assert!(!same_value(&AeonValue::Integer(1), &AeonValue::Bool(true)));
    assert!(same_value(
        &AeonValue::String("s".into()),
        &AeonValue::String("s".into())
    ));
    let d1 = AeonValue::Double(AeonDouble::parse("2.10").unwrap());
    let d2 = AeonValue::Double(AeonDouble::parse("2.1").unwrap());
    assert!(same_value(&d1, &d1.clone()));
    assert!(!same_value(&d1, &d2));
}

#[test]
pub fn same_document_compares_macros_in_order() {
    let mut a = AeonDocument::new();
    a.add_macro(AeonMacro::new_cloned("m", vec!["x"]));
    a.add_macro(AeonMacro::new_cloned("n", vec![]));
    a.add_property("p", AeonValue::Nil);
    let mut b = AeonDocument::new();
    b.add_macro(AeonMacro::new_cloned("n", vec![]));
    b.add_macro(AeonMacro::new_cloned("m", vec!["x"]));
    b.add_property("p", AeonValue::Nil);
    assert!(same_document(&a, &a));
    assert!(!same_document(&a, &b));
    let mut c = AeonDocument::new();
    c.add_macro(AeonMacro::new_cloned("m", vec!["y"]));
    c.add_macro(AeonMacro::new_cloned("n", vec![]));
    c.add_property("p", AeonValue::Nil);
    assert!(!same_document(&a, &c));
    let mut d = AeonDocument::new();
    d.add_macro(AeonMacro::new_cloned("m", vec!["x"]));
    d.add_macro(AeonMacro::new_cloned("n", vec![]));
    d.add_property("p", AeonValue::Bool(false));
    assert!(!same_document(&a, &d));
}

#[test]
pub fn what_is_read_has_distinct_names_and_keys() {
    let doc = aeon::deserialize(
        "@m(a) @m(b) p: {k: 1, k: 2, j: {k: 3, k: 4}} p: 2 q: [ {a: 1, a: 2} ]".to_string(),
    )
    .unwrap();
    assert_eq!(doc.macros.len(), 1);
    assert_eq!(doc.properties.len(), 2);
    let p = match doc.get("p") {
        Some(AeonValue::Object(map)) => map,
        _ => panic!("expected an object"),
    };
    assert_eq!(p.len(), 2);
    assert_eq!(p.entries()[0].0, "k");
    assert_eq!(p.entries()[1].0, "j");
    match p.get("j") {
        Some(AeonValue::Object(j)) => assert_eq!(j.len(), 1),
        _ => panic!("expected an object"),
    }
}

#[test]
pub fn round_trip_of_keys_with_quotes_and_backslashes() {
    let mut doc = AeonDocument::new();
    doc.add_property("x", object(vec![("\\", AeonValue::Nil)]));
    doc.add_property(
        "p",
        object(vec![
            ("a\"b", AeonValue::Integer(1)),
            ("c\\d\n", AeonValue::Integer(2)),
            ("", AeonValue::Integer(3)),
        ]),
    );
    assert!(is_printable(&doc));
    let text = aeon::serialize(&doc).unwrap();
    assert_eq!(
        text,
        "x: {\n\"\\\\\": nil\n}\n\np: {\n\"a\\\"b\": 1, \n\"c\\\\d\\n\": 2, \n\"\": 3\n}\n\n"
    );
    let again = aeon::deserialize(text).unwrap();
    assert!(same_document(&doc, &again));
    assert_eq!(again.get_path("x/\\").map(|v| v.tag()), Some(0));
    assert_eq!(
        again.get("p").map(|v| match v {
            AeonValue::Object(m) => m.entries().iter().map(|e| e.0.clone()).collect::<Vec<_>>(),
            _ => vec![],
        }),
        Some(vec!["a\"b".to_string(), "c\\d\n".to_string(), "".to_string()])
    );
}

#[test]
pub fn printable_documents() {
    let mut doc = AeonDocument::new();
    assert!(is_printable(&doc));
    doc.add_macro(AeonMacro::new_cloned("m", vec!["a", "b"]));
    doc.add_property("p", object(vec![("k k", AeonValue::Nil)]));
    assert!(is_printable(&doc));

    let mut spaced = AeonDocument::new();
    spaced.add_property("p q", AeonValue::Nil);
    assert!(!is_printable(&spaced));
    let mut keyword = AeonDocument::new();
    keyword.add_property("true", AeonValue::Nil);
    assert!(!is_printable(&keyword));
    let mut twice = AeonDocument::new();
    twice.add_macro(AeonMacro::new_cloned("m", vec!["a", "a"]));
    assert!(!is_printable(&twice));
    let mut odd = AeonDocument::new();
    odd.add_macro(AeonMacro::new_cloned("m", vec!["a b"]));
    assert!(!is_printable(&odd));
    let mut named = AeonDocument::new();
    named.add_macro(AeonMacro::new_cloned("1m", vec![]));
    assert!(!is_printable(&named));
    let mut deep = AeonDocument::new();
    deep.add_property(
        "p",
        AeonValue::List(vec![object(vec![("k", object(vec![("back\\slash", AeonValue::Nil)]))])]),
    );
    assert!(is_printable(&deep));
    let mut same_name = AeonDocument::new();
    same_name.macros.push(AeonMacro::new_cloned("m", vec![]));
    same_name.macros.push(AeonMacro::new_cloned("m", vec![]));
    assert!(!is_printable(&same_name));

    assert!(is_well_formed(&AeonValue::Nil));
    assert!(is_well_formed(&object(vec![("a", AeonValue::Nil), ("b", AeonValue::Nil)])));
    assert!(is_well_formed(&object(vec![("a\"", AeonValue::Nil)])));
    assert!(is_well_formed(&AeonValue::List(vec![object(vec![]), AeonValue::Nil])));
    assert!(are_distinct(&vec!["a".to_string(), "b".to_string()]));
    assert!(!are_distinct(&vec!["a".to_string(), "b".to_string(), "a".to_string()]));
    assert!(are_distinct(&vec![]));
}
