use td_rp::{get_array_contains_type, get_name_by_type, get_type_by_name, get_type_by_value};
use td_rp::{Dict, Value};

const NAMES: [&str; 11] =
    ["nil", "u8", "i8", "u16", "i16", "u32", "i32", "float", "str", "raw", "map"];

#[test]
fn scalar_names_have_codes_0_to_10() {
    for (code, name) in NAMES.iter().enumerate() {
        assert_eq!(get_type_by_name(name), code as u16);
        assert_eq!(get_name_by_type(code as u16), *name);
    }
}

#[test]
fn array_names_have_codes_21_to_30() {
    for (code, name) in NAMES.iter().enumerate().skip(1) {
        let array = format!("{}[]", name);
        assert_eq!(get_type_by_name(&array), code as u16 + 20);
        assert_eq!(get_name_by_type(code as u16 + 20), array);
    }
}

#[test]
fn array_of_i8_is_registered() {
    assert_eq!(get_type_by_name("i8[]"), 22);
    assert_eq!(get_name_by_type(22), "i8[]");
    assert_eq!(td_rp::TYPE_AI8, 22);
    assert_eq!(td_rp::STR_TYPE_AI8, "i8[]");
}

#[test]
fn unknown_names_and_codes_fall_back_to_nil() {
    assert_eq!(get_type_by_name("string"), 0);
    assert_eq!(get_type_by_name(""), 0);
    assert_eq!(get_type_by_name("U8"), 0);
    assert_eq!(get_type_by_name("nil[]"), 0);
    assert_eq!(get_name_by_type(11), "nil");
    assert_eq!(get_name_by_type(20), "nil");
    assert_eq!(get_name_by_type(31), "nil");
    assert_eq!(get_name_by_type(65535), "nil");
}

#[test]
fn constants_are_those_of_the_wire_format() {
    assert_eq!(td_rp::TYPE_STEP, 20);
    assert_eq!(td_rp::TYPE_NIL, 0);
    assert_eq!(td_rp::TYPE_U8, 1);
    assert_eq!(td_rp::TYPE_I8, 2);
    assert_eq!(td_rp::TYPE_U16, 3);
    assert_eq!(td_rp::TYPE_I16, 4);
    assert_eq!(td_rp::TYPE_U32, 5);
    assert_eq!(td_rp::TYPE_I32, 6);
    assert_eq!(td_rp::TYPE_FLOAT, 7);
    assert_eq!(td_rp::TYPE_STR, 8);
    assert_eq!(td_rp::TYPE_RAW, 9);
    assert_eq!(td_rp::TYPE_MAP, 10);
    assert_eq!(td_rp::TYPE_AU8, 21);
    assert_eq!(td_rp::TYPE_AMAP, 30);
    assert_eq!(td_rp::STR_TYPE_FLOAT, "float");
    assert_eq!(td_rp::STR_TYPE_AMAP, "map[]");
}

fn one_of_each() -> Vec<(Value, u16, u16)> {
    vec![
        (Value::Nil, 0, 0),
        (Value::U8(1), 1, 0),
        (Value::I8(-1), 2, 0),
        (Value::U16(1), 3, 0),
        (Value::I16(-1), 4, 0),
        (Value::U32(1), 5, 0),
        (Value::I32(-1), 6, 0),
        (Value::Float(1500), 7, 0),
        (Value::Str("a".to_string()), 8, 0),
        (Value::Raw(vec![1]), 9, 0),
        (Value::Dict(Dict::new()), 10, 0),
        (Value::AU8(vec![]), 21, 1),
        (Value::AI8(vec![]), 22, 2),
        (Value::AU16(vec![]), 23, 3),
        (Value::AI16(vec![]), 24, 4),
        (Value::AU32(vec![]), 25, 5),
        (Value::AI32(vec![]), 26, 6),
        (Value::AFloat(vec![]), 27, 7),
        (Value::AStr(vec![]), 28, 8),
        (Value::ARaw(vec![]), 29, 9),
        (Value::AMap(vec![]), 30, 10),
    ]
}

#[test]
fn values_have_the_codes_of_their_variants() {
    for (value, code, element) in one_of_each() {
        assert_eq!(get_type_by_value(&value), code);
        assert_eq!(get_array_contains_type(&value), element);
        if element != 0 {
            assert_eq!(code, element + td_rp::TYPE_STEP);
        }
    }
}

#[test]
fn make_array_picks_the_variant() {
    let items = vec![Value::U16(3)];
    assert_eq!(td_rp::values::make_array(23, items.clone()), Value::AU16(items.clone()));
    assert_eq!(td_rp::values::make_array(30, vec![]), Value::AMap(vec![]));
    assert_eq!(td_rp::values::make_array(21, vec![]), Value::AU8(vec![]));
}

#[test]
fn clone_is_deep() {
    let mut inner = Dict::new();
    inner.insert("k".to_string(), Value::AStr(vec![Value::Str("x".to_string())]));
    let value = Value::AMap(vec![Value::Dict(inner)]);
    let copy = value.clone();
    assert_eq!(copy, value);
}

#[test]
fn values_from_plain_values() {
    assert_eq!(Value::from(7u8), Value::U8(7));
    assert_eq!(Value::from(-7i8), Value::I8(-7));
    assert_eq!(Value::from(7u16), Value::U16(7));
    assert_eq!(Value::from(-7i16), Value::I16(-7));
    assert_eq!(Value::from(7u32), Value::U32(7));
    assert_eq!(Value::from(-7i32), Value::I32(-7));
    assert_eq!(Value::from("a".to_string()), Value::Str("a".to_string()));
    assert_eq!(Value::from(vec![1u8, 2]), Value::Raw(vec![1, 2]));
    assert_eq!(Value::from(Dict::<Value>::new()), Value::Dict(Dict::new()));
}

#[test]
fn plain_values_from_values() {
    assert_eq!(Value::U8(7).into_u8(), 7);
    assert_eq!(Value::I8(-7).into_i8(), -7);
    assert_eq!(Value::U16(7).into_u16(), 7);
    assert_eq!(Value::I16(-7).into_i16(), -7);
    assert_eq!(Value::U32(7).into_u32(), 7);
    assert_eq!(Value::I32(-7).into_i32(), -7);
    assert_eq!(Value::Float(1500).into_float(), 1500);
    assert_eq!(Value::Str("a".to_string()).into_string(), "a");
    assert_eq!(Value::Raw(vec![1, 2]).into_raw(), vec![1, 2]);
    assert_eq!(Value::Dict(Dict::new()).into_dict().len(), 0);
}
