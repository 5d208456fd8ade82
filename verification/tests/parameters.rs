use droid_mcp::json::{Number, Value};
use droid_mcp::params::{
    validate_interface_name, validate_package_name, validate_safe_path, ParamDef, ParamType, Params,
};
use droid_mcp::table::Table;

fn fails(r: Result<(), String>) -> String {
    r.unwrap_err()
}

#[test]
fn package_names_are_checked() {
    assert_eq!(validate_package_name(&Value::text("com.jesse.hostctl")), Ok(()));
    assert_eq!(validate_package_name(&Value::text(".")), Ok(()));
    assert_eq!(fails(validate_package_name(&Value::Null)), "must be a string");
    assert_eq!(fails(validate_package_name(&Value::text(""))), "cannot be empty");
    assert_eq!(
        fails(validate_package_name(&Value::text("com.x; reboot"))),
        "invalid package name: only alphanumeric and '.' allowed"
    );
    assert_eq!(
        fails(validate_package_name(&Value::text("a_b"))),
        "invalid package name: only alphanumeric and '.' allowed"
    );
    assert_eq!(
        fails(validate_package_name(&Value::text("android"))),
        "package name must contain at least one '.'"
    );
}

#[test]
fn paths_are_checked() {
    assert_eq!(validate_safe_path(&Value::text("/sdcard/a.txt")), Ok(()));
    assert_eq!(validate_safe_path(&Value::text("")), Ok(()));
    assert_eq!(fails(validate_safe_path(&Value::Bool(true))), "must be a string");
    assert_eq!(fails(validate_safe_path(&Value::text("/a/../b"))), "path traversal not allowed");
    assert_eq!(fails(validate_safe_path(&Value::text("a..b"))), "path traversal not allowed");
    assert_eq!(fails(validate_safe_path(&Value::text("/a\0"))), "null bytes not allowed");
    assert_eq!(fails(validate_safe_path(&Value::text("\0.."))), "path traversal not allowed");
}

#[test]
fn interface_names_are_checked() {
    assert_eq!(validate_interface_name(&Value::text("wlan0")), Ok(()));
    assert_eq!(validate_interface_name(&Value::text("rmnet_data-0")), Ok(()));
    assert_eq!(validate_interface_name(&Value::text("")), Ok(()));
    assert_eq!(validate_interface_name(&Value::text("0123456789abcdef")), Ok(()));
    assert_eq!(validate_interface_name(&Value::text("éééééééééééééééé")), Ok(()));
    assert_eq!(fails(validate_interface_name(&Value::Null)), "must be a string");
    assert_eq!(fails(validate_interface_name(&Value::text("../x"))), "invalid interface name");
    assert_eq!(
        fails(validate_interface_name(&Value::text("0123456789abcdefg"))),
        "interface name too long"
    );
    assert_eq!(
        fails(validate_interface_name(&Value::text("0123456789abcdef."))),
        "invalid interface name"
    );
}

#[test]
fn arguments_are_read_by_type() {
    let mut table = Table::new();
    table.insert("s".to_string(), Value::text("x"));
    table.insert("n".to_string(), Value::Number(Number::NegInt(-4)));
    table.insert("b".to_string(), Value::Bool(true));
    let params = Params(&table);
    assert_eq!(params.str("s"), Some("x"));
    assert_eq!(params.str("n"), None);
    assert_eq!(params.str_or("missing", "d"), "d");
    assert_eq!(params.str_or("b", "d"), "d");
    assert_eq!(params.integer("n"), Some(-4));
    assert_eq!(params.int_or("s", 9), 9);
    assert_eq!(params.bool("b"), Some(true));
    assert_eq!(params.bool("s"), None);
}

#[test]
fn parameters_become_properties() {
    let p = ParamDef {
        name: "level".into(),
        param_type: ParamType::Integer,
        description: "How much".into(),
        required: false,
        default: Some(Value::Number(Number::PosInt(3))),
        enum_values: None,
    };
    let property = p.property();
    assert_eq!(property.prop_type, "integer");
    assert_eq!(property.description, "How much");
    assert_eq!(property.default, Some(Value::Number(Number::PosInt(3))));
    assert_eq!(property.enum_values, None);
    assert_eq!(ParamType::String.as_str(), "string");
    assert_eq!(ParamType::Boolean.as_str(), "boolean");
}
