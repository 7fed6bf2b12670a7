use vrchat_osc::osctype::{OscType, OscTypeTag};
use vrchat_osc::value::{AccessMode, OscValue, RangeInfo, RgbaColorValue};

fn all_basic() -> Vec<(OscType, &'static str)> {
    vec![
        (OscType::Int32, "i"),
        (OscType::Float32, "f"),
        (OscType::OscString, "s"),
        (OscType::OscBlob, "b"),
        (OscType::Int64, "h"),
        (OscType::Timetag, "t"),
        (OscType::Double, "d"),
        (OscType::Symbol, "S"),
        (OscType::Char, "c"),
        (OscType::RgbaColor, "r"),
        (OscType::Midi, "m"),
        (OscType::True, "T"),
        (OscType::False, "F"),
        (OscType::Nil, "N"),
        (OscType::Infinitum, "I"),
    ]
}

#[test]
fn basic_tags_both_ways() {
    for (t, tag) in all_basic() {
        assert_eq!(t.tag(), tag);
        assert!(OscType::from_tag(tag).unwrap() == t);
    }
}

#[test]
fn unknown_tags_are_refused() {
    assert!(OscType::from_tag("x").is_none());
    assert!(OscType::from_tag("").is_none());
    assert!(OscType::from_tag("ii").is_none());
    assert!(OscType::from_tag("[i").is_none());
    assert!(OscType::from_tag("i]").is_none());
    assert!(OscType::from_tag("[x]").is_none());
    assert!(OscType::from_tag("[[i]").is_none());
}

#[test]
fn arrays_nest() {
    let t = OscType::Array(vec![
        OscType::Int32,
        OscType::Array(vec![OscType::Float32, OscType::True]),
        OscType::Array(vec![]),
    ]);
    assert_eq!(t.tag(), "[i[fT][]]");
    assert!(OscType::from_tag("[i[fT][]]").unwrap() == t);
    assert!(OscType::from_tag("[]").unwrap() == OscType::Array(vec![]));
    assert!(t.clone() == t);
    assert!(t != OscType::Int32);
}

#[test]
fn kinds_of_types() {
    for (t, tag) in all_basic() {
        assert_eq!(t.is_boolean(), tag == "T" || tag == "F");
        assert_eq!(t.is_numeric(), tag == "i" || tag == "f" || tag == "h" || tag == "d");
    }
    assert!(!OscType::Array(vec![OscType::True]).is_boolean());
}

#[test]
fn tag_strings_both_ways() {
    let tag = OscTypeTag::from_tag("if[ss]T").unwrap();
    assert_eq!(tag.tag(), "if[ss]T");
    assert!(tag.contains(&OscType::True));
    assert!(tag.contains(&OscType::Array(vec![OscType::OscString, OscType::OscString])));
    assert!(!tag.contains(&OscType::OscString));
    assert!(tag.get_single_type().is_none());
    assert_eq!(tag.clone().tag(), "if[ss]T");
    assert_eq!(OscTypeTag::from_tag("").unwrap().tag(), "");
}

#[test]
fn tag_strings_that_are_refused() {
    assert!(OscTypeTag::from_tag("ix").is_none());
    assert!(OscTypeTag::from_tag("[i").is_none());
    assert!(OscTypeTag::from_tag("]").is_none());
    assert!(OscTypeTag::from_tag("[[i]]").is_none());
}

#[test]
fn tag_of_one_type() {
    let tag = OscTypeTag::new(vec![]).with_type(OscType::True);
    assert!(tag.is_single_type(&OscType::True));
    assert!(!tag.is_single_type(&OscType::False));
    assert!(tag.is_boolean());
    assert!(*tag.get_single_type().unwrap() == OscType::True);
    let two = tag.with_type(OscType::True);
    assert!(!two.is_single_type(&OscType::True));
    assert!(!two.is_boolean());
    assert!(two.get_single_type().is_none());
    assert!(!OscTypeTag::new(vec![OscType::Int32]).is_boolean());
}

#[test]
fn access_modes_both_ways() {
    let modes = [
        AccessMode::NoAccess,
        AccessMode::ReadOnly,
        AccessMode::WriteOnly,
        AccessMode::ReadWrite,
    ];
    for (code, mode) in modes.iter().enumerate() {
        assert_eq!(mode.to_code() as usize, code);
        assert_eq!(AccessMode::from_code(code as u8), Some(*mode));
    }
    assert_eq!(AccessMode::from_code(4), None);
    assert_eq!(AccessMode::from_code(255), None);
    assert_eq!(AccessMode::default(), AccessMode::NoAccess);
}

#[test]
fn values_are_copied() {
    let v = OscValue::Array(vec![
        OscValue::Int(-3),
        OscValue::Float(0.5f64.to_bits()),
        OscValue::String("x".to_string()),
        OscValue::Bool(true),
        OscValue::Color(RgbaColorValue { r: 1, g: 2, b: 3, a: 4 }),
        OscValue::Nil,
    ]);
    assert_eq!(format!("{:?}", v.clone()), format!("{:?}", v));
    let r = RangeInfo { min: Some(OscValue::Int(0)), max: None, vals: Some(vec![v]) };
    assert_eq!(format!("{:?}", r.clone()), format!("{:?}", r));
}
