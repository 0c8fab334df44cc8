use vine_core::inject::field_kind;
use vine_core::inject::http_method;
use vine_core::inject::value_reader;
use vine_core::inject::FieldKind;
use vine_core::inject::HttpMethod;
use vine_core::inject::ValueReader;

#[test]
fn readers_follow_the_type_names() {
    let cases = [
        ("String", ValueReader::Text, "compute_template_value"),
        ("bool", ValueReader::Bool, "compute_template_value_as_bool"),
        ("i8", ValueReader::I8, "compute_template_value_as_i8"),
        ("i16", ValueReader::I16, "compute_template_value_as_i16"),
        ("i32", ValueReader::I32, "compute_template_value_as_i32"),
        ("i64", ValueReader::I64, "compute_template_value_as_i64"),
        ("u8", ValueReader::U8, "compute_template_value_as_u8"),
        ("u16", ValueReader::U16, "compute_template_value_as_u16"),
        ("u32", ValueReader::U32, "compute_template_value_as_u32"),
        ("u64", ValueReader::U64, "compute_template_value_as_u64"),
        ("f32", ValueReader::F32, "compute_template_value_as_f32"),
        ("f64", ValueReader::F64, "compute_template_value_as_f64"),
        ("Duration", ValueReader::Text, "compute_template_value"),
        ("", ValueReader::Text, "compute_template_value"),
        ("Bool", ValueReader::Text, "compute_template_value"),
    ];
    for (ty, reader, method) in cases {
        assert_eq!(value_reader(ty), reader);
        assert_eq!(value_reader(ty).method(), method);
    }
}

#[test]
fn fields_ask_by_attribute_first_and_by_type_second() {
    assert_eq!(field_kind(Some("qualifier"), "Arc"), Some(FieldKind::Bean));
    assert_eq!(field_kind(Some("qualifier"), "Vec"), Some(FieldKind::Bean));
    assert_eq!(field_kind(Some("value"), "String"), Some(FieldKind::Value));
    assert_eq!(field_kind(Some("value"), "Arc"), Some(FieldKind::Value));
    assert_eq!(field_kind(None, "Vec"), Some(FieldKind::Beans));
    assert_eq!(field_kind(None, "Arc"), Some(FieldKind::PrimaryBean));
    assert_eq!(field_kind(Some("doc"), "Arc"), Some(FieldKind::PrimaryBean));
    assert_eq!(field_kind(Some("doc"), "Vec"), Some(FieldKind::Beans));
    assert_eq!(field_kind(None, "String"), None);
    assert_eq!(field_kind(Some("doc"), "Box"), None);
    assert_eq!(field_kind(None, ""), None);
}

#[test]
fn attributes_name_http_methods() {
    let cases = [
        ("get", HttpMethod::Get),
        ("head", HttpMethod::Head),
        ("post", HttpMethod::Post),
        ("put", HttpMethod::Put),
        ("delete", HttpMethod::Delete),
        ("patch", HttpMethod::Patch),
        ("options", HttpMethod::Options),
        ("trace", HttpMethod::Trace),
        ("connect", HttpMethod::Connect),
    ];
    for (name, method) in cases {
        assert_eq!(http_method(name), Some(method));
        assert_eq!(method.routing(), name);
    }
    for name in ["", "GET", "doc", "gets", "vine::get"] {
        assert_eq!(http_method(name), None);
    }
}
