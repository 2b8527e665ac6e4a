use mog::type_names::{
    decode_escape_sequences, parse_fixed_array, parse_primitive_type, parse_usize,
    resolve_type_name,
};
use mog::types::{FloatKind, IntegerKind, Type, UnsignedKind};

fn chars(s: &str) -> Vec<char> {
    s.chars().collect()
}

fn resolve(s: &str) -> Type {
    resolve_type_name(&chars(s))
}

fn decode(s: &str) -> String {
    let v = chars(s);
    decode_escape_sequences(&v, 0, v.len()).into_iter().collect()
}

#[test]
fn primitive_names() {
    assert_eq!(parse_primitive_type(&chars("int")), Some(Type::Integer(IntegerKind::I64)));
    assert_eq!(parse_primitive_type(&chars("u8")), Some(Type::Unsigned(UnsignedKind::U8)));
    assert_eq!(parse_primitive_type(&chars("i256")), Some(Type::Integer(IntegerKind::I256)));
    assert_eq!(parse_primitive_type(&chars("f16")), Some(Type::Float(FloatKind::F16)));
    assert_eq!(parse_primitive_type(&chars("bf16")), Some(Type::Float(FloatKind::Bf16)));
    assert_eq!(parse_primitive_type(&chars("ptr")), Some(Type::Pointer(None)));
    assert_eq!(parse_primitive_type(&chars("i7")), None);
    assert_eq!(parse_primitive_type(&chars("Point")), None);
}

#[test]
fn fixed_arrays() {
    assert_eq!(parse_fixed_array(&chars("[i32; 5]")), Some((chars("i32"), 5)));
    assert_eq!(parse_fixed_array(&chars("[[f64; 3]; 2]")), Some((chars("[f64; 3]"), 2)));
    assert_eq!(parse_fixed_array(&chars("[u8]")), None);
    assert_eq!(parse_fixed_array(&chars("[u8; x]")), None);
    assert_eq!(parse_fixed_array(&chars("[u8; +7 ]")), Some((chars("u8"), 7)));
}

#[test]
fn resolved_types() {
    assert_eq!(
        resolve("[i32; 5]"),
        Type::Array { element_type: Box::new(Type::Integer(IntegerKind::I32)), dimensions: vec![5] }
    );
    assert_eq!(
        resolve("[[f64; 3]; 2]"),
        Type::Array {
            element_type: Box::new(Type::Array {
                element_type: Box::new(Type::Float(FloatKind::F64)),
                dimensions: vec![3],
            }),
            dimensions: vec![2],
        }
    );
    assert_eq!(
        resolve("[Point; 100]"),
        Type::AOS { element_type: Box::new(Type::Custom("Point".into())), size: Some(100) }
    );
    assert_eq!(
        resolve("[u8]"),
        Type::Array { element_type: Box::new(Type::Unsigned(UnsignedKind::U8)), dimensions: vec![] }
    );
    assert_eq!(
        resolve("[Point]"),
        Type::AOS { element_type: Box::new(Type::Custom("Point".into())), size: None }
    );
    assert_eq!(
        resolve("f64[][]"),
        Type::Array {
            element_type: Box::new(Type::Array {
                element_type: Box::new(Type::Float(FloatKind::F64)),
                dimensions: vec![],
            }),
            dimensions: vec![],
        }
    );
    assert_eq!(resolve("Point[]"), Type::Void);
    assert_eq!(resolve("bool"), Type::Bool);
    assert_eq!(resolve("Point"), Type::Custom("Point".into()));
}

#[test]
fn usize_literals() {
    let v = chars("42");
    assert_eq!(parse_usize(&v, 0, v.len()), Some(42));
    let v = chars("+7");
    assert_eq!(parse_usize(&v, 0, v.len()), Some(7));
    let v = chars("+");
    assert_eq!(parse_usize(&v, 0, v.len()), None);
    let v = chars("");
    assert_eq!(parse_usize(&v, 0, v.len()), None);
    let v = chars("1_0");
    assert_eq!(parse_usize(&v, 0, v.len()), None);
    let v = chars("99999999999999999999999");
    assert_eq!(parse_usize(&v, 0, v.len()), None);
    let m = usize::MAX.to_string();
    let v = chars(&m);
    assert_eq!(parse_usize(&v, 0, v.len()), Some(usize::MAX));
}

#[test]
fn escapes() {
    assert_eq!(decode(r"a\nb"), "a\nb");
    assert_eq!(decode(r#"\t\r\\\"\'"#), "\t\r\\\"'");
    assert_eq!(decode(r"\x41\x7a"), "Az");
    assert_eq!(decode(r"\xff"), "\u{ff}");
    assert_eq!(decode(r"\x4"), "\\x4");
    assert_eq!(decode(r"\xg"), "\\xg");
    assert_eq!(decode(r"\q"), "\\q");
    assert_eq!(decode("end\\"), "end\\");
}
