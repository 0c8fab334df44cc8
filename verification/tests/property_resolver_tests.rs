use config::Config;
use vine_core::bean_def::BeanDef;
use vine_core::bean_def::Prebuilt;
use vine_core::bean_def::SharedFactory;
use vine_core::context::Context;
use vine_core::error::Error;
use vine_core::error::ParseFailure;
use vine_core::property::property_resolver::PropertyResolver;
use vine_core::ty::Handle;
use vine_core::ty::Type;
use vine_core::ty::TypeRegistry;

fn config_context(types: &mut TypeRegistry, config: Config) -> Context {
    let mut context = Context::new("config");
    let ty = Type::of::<Config>(types, "config::Config");
    ty.add_downcast::<Config, _>(types, |b: Handle| b.downcast::<Config>());
    ty.add_downcast::<dyn PropertyResolver + Send + Sync, _>(types, |b: Handle| {
        Ok(b.downcast::<Config>()?)
    });
    let def = BeanDef::builder()
        .name("config")
        .ty(ty)
        .get(SharedFactory::new(Prebuilt::new(Handle::new(config))))
        .build();
    context.register(def).unwrap();
    context
}

#[test]
fn should_allow_config_downcast_to_property_resolver() {
    let mut types = TypeRegistry::new();
    let mut context = config_context(&mut types, Config::builder().build().unwrap());
    let resolver = context.get_bean::<dyn PropertyResolver + Send + Sync>(&types, "config");
    assert!(resolver.is_ok());
}

#[test]
fn should_compute_template_values_with_defaults() {
    let mut types = TypeRegistry::new();
    let mut context = config_context(&mut types, Config::builder().build().unwrap());
    let resolver =
        context.get_bean::<dyn PropertyResolver + Send + Sync>(&types, "config").unwrap();

    let result = resolver.compute_template_value("${missing_prop:default_value}").unwrap();
    assert_eq!(result, "default_value");
}

#[test]
fn should_template_correct_values() {
    let config = Config::builder()
        .set_default("prop1", "value1")
        .unwrap()
        .set_default("prop2", "value2")
        .unwrap()
        .build()
        .unwrap();

    let value = config.compute_template_value("value").unwrap();
    assert_eq!(value.as_str(), "value");

    let value = config.compute_template_value("${prop1}").unwrap();
    assert_eq!(value.as_str(), "value1");

    let value = config.compute_template_value("${prop1}_${prop2}").unwrap();
    assert_eq!(value.as_str(), "value1_value2");

    let value =
        config.compute_template_value("${prop1:default_value1}_${prop3:default_value3}").unwrap();
    assert_eq!(value.as_str(), "value1_default_value3");

    // Test empty default value
    let value = config.compute_template_value("${missing:}").unwrap();
    assert_eq!(value.as_str(), "");

    // Test missing property without default should fail
    let result = config.compute_template_value("${missing_prop}");
    assert!(result.is_err());
}

#[test]
fn should_compute_template_value_as_bool() {
    let config = Config::builder()
        .set_default("bool_true", "true")
        .unwrap()
        .set_default("bool_false", "false")
        .unwrap()
        .build()
        .unwrap();

    assert_eq!(config.compute_template_value_as_bool("true").unwrap(), true);
    assert_eq!(config.compute_template_value_as_bool("false").unwrap(), false);
    assert_eq!(config.compute_template_value_as_bool("${bool_true}").unwrap(), true);
    assert_eq!(config.compute_template_value_as_bool("${bool_false}").unwrap(), false);
    assert_eq!(config.compute_template_value_as_bool("${missing:true}").unwrap(), true);
    assert!(config.compute_template_value_as_bool("invalid").is_err());
}

#[test]
fn should_compute_template_value_as_i8() {
    let config = Config::builder()
        .set_default("num", "42")
        .unwrap()
        .set_default("negative", "-10")
        .unwrap()
        .build()
        .unwrap();

    assert_eq!(config.compute_template_value_as_i8("42").unwrap(), 42);
    assert_eq!(config.compute_template_value_as_i8("-10").unwrap(), -10);
    assert_eq!(config.compute_template_value_as_i8("${num}").unwrap(), 42);
    assert_eq!(config.compute_template_value_as_i8("${negative}").unwrap(), -10);
    assert_eq!(config.compute_template_value_as_i8("${missing:127}").unwrap(), 127);
    assert!(config.compute_template_value_as_i8("invalid").is_err());
}

#[test]
fn should_compute_template_value_as_i16() {
    let config = Config::builder().set_default("num", "1000").unwrap().build().unwrap();

    assert_eq!(config.compute_template_value_as_i16("1000").unwrap(), 1000);
    assert_eq!(config.compute_template_value_as_i16("${num}").unwrap(), 1000);
    assert_eq!(config.compute_template_value_as_i16("${missing:32767}").unwrap(), 32767);
    assert!(config.compute_template_value_as_i16("invalid").is_err());
}

#[test]
fn should_compute_template_value_as_i32() {
    let config = Config::builder().set_default("num", "100000").unwrap().build().unwrap();

    assert_eq!(config.compute_template_value_as_i32("100000").unwrap(), 100000);
    assert_eq!(config.compute_template_value_as_i32("${num}").unwrap(), 100000);
    assert_eq!(config.compute_template_value_as_i32("${missing:-100000}").unwrap(), -100000);
    assert!(config.compute_template_value_as_i32("invalid").is_err());
}

#[test]
fn should_compute_template_value_as_i64() {
    let config = Config::builder().set_default("num", "9000000000").unwrap().build().unwrap();

    assert_eq!(config.compute_template_value_as_i64("9000000000").unwrap(), 9_000_000_000);
    assert_eq!(config.compute_template_value_as_i64("${num}").unwrap(), 9_000_000_000);
    assert_eq!(
        config.compute_template_value_as_i64("${missing:-9000000000}").unwrap(),
        -9_000_000_000
    );
    assert!(config.compute_template_value_as_i64("invalid").is_err());
}

#[test]
fn should_compute_template_value_as_u8() {
    let config = Config::builder().set_default("num", "42").unwrap().build().unwrap();

    assert_eq!(config.compute_template_value_as_u8("42").unwrap(), 42);
    assert_eq!(config.compute_template_value_as_u8("${num}").unwrap(), 42);
    assert_eq!(config.compute_template_value_as_u8("${missing:255}").unwrap(), 255);
    assert!(config.compute_template_value_as_u8("invalid").is_err());
}

#[test]
fn should_compute_template_value_as_u16() {
    let config = Config::builder().set_default("num", "1000").unwrap().build().unwrap();

    assert_eq!(config.compute_template_value_as_u16("1000").unwrap(), 1000);
    assert_eq!(config.compute_template_value_as_u16("${num}").unwrap(), 1000);
    assert_eq!(config.compute_template_value_as_u16("${missing:65535}").unwrap(), 65535);
    assert!(config.compute_template_value_as_u16("invalid").is_err());
}

#[test]
fn should_compute_template_value_as_u32() {
    let config = Config::builder().set_default("num", "100000").unwrap().build().unwrap();

    assert_eq!(config.compute_template_value_as_u32("100000").unwrap(), 100000);
    assert_eq!(config.compute_template_value_as_u32("${num}").unwrap(), 100000);
    assert_eq!(config.compute_template_value_as_u32("${missing:200000}").unwrap(), 200000);
    assert!(config.compute_template_value_as_u32("invalid").is_err());
}

#[test]
fn should_compute_template_value_as_u64() {
    let config = Config::builder().set_default("num", "9000000000").unwrap().build().unwrap();

    assert_eq!(config.compute_template_value_as_u64("9000000000").unwrap(), 9_000_000_000);
    assert_eq!(config.compute_template_value_as_u64("${num}").unwrap(), 9_000_000_000);
    assert_eq!(
        config.compute_template_value_as_u64("${missing:18000000000}").unwrap(),
        18_000_000_000
    );
    assert!(config.compute_template_value_as_u64("invalid").is_err());
}

fn as_f32(config: &Config, template: &str) -> Result<f32, String> {
    let text = config.compute_template_value(template).map_err(|e| e.message())?;
    text.parse::<f32>().map_err(|e| format!("failed to parse f32: {}", e))
}

fn as_f64(config: &Config, template: &str) -> Result<f64, String> {
    let text = config.compute_template_value(template).map_err(|e| e.message())?;
    text.parse::<f64>().map_err(|e| format!("failed to parse f64: {}", e))
}

#[test]
fn should_compute_template_value_as_f32() {
    let config = Config::builder().set_default("num", "3.14").unwrap().build().unwrap();

    assert_eq!(as_f32(&config, "3.14").unwrap(), 3.14_f32);
    assert_eq!(as_f32(&config, "${num}").unwrap(), 3.14_f32);
    assert_eq!(as_f32(&config, "${missing:-2.5}").unwrap(), -2.5_f32);
    assert!(as_f32(&config, "invalid").is_err());
}

#[test]
fn should_compute_template_value_as_f64() {
    let config =
        Config::builder().set_default("num", "3.141592653589793").unwrap().build().unwrap();

    assert_eq!(as_f64(&config, "3.141592653589793").unwrap(), 3.141592653589793);
    assert_eq!(as_f64(&config, "${num}").unwrap(), 3.141592653589793);
    assert_eq!(as_f64(&config, "${missing:-2.718281828459045}").unwrap(), -2.718281828459045);
    assert!(as_f64(&config, "invalid").is_err());
}

#[test]
fn should_get_string() {
    let config = Config::builder().set_default("key", "value").unwrap().build().unwrap();

    assert_eq!(PropertyResolver::get_string(&config, "key"), Some("value".to_string()));
    assert_eq!(PropertyResolver::get_string(&config, "missing"), None);
}

#[test]
fn should_get_bool() {
    let config = Config::builder()
        .set_default("bool_true", true)
        .unwrap()
        .set_default("bool_false", false)
        .unwrap()
        .build()
        .unwrap();

    assert_eq!(PropertyResolver::get_bool(&config, "bool_true"), Some(true));
    assert_eq!(PropertyResolver::get_bool(&config, "bool_false"), Some(false));
    assert_eq!(PropertyResolver::get_bool(&config, "missing"), None);
}

#[test]
fn should_get_i8() {
    let config = Config::builder()
        .set_default("num", 42)
        .unwrap()
        .set_default("max", 127)
        .unwrap()
        .set_default("min", -128)
        .unwrap()
        .build()
        .unwrap();

    assert_eq!(PropertyResolver::get_i8(&config, "num"), Some(42));
    assert_eq!(PropertyResolver::get_i8(&config, "max"), Some(127));
    assert_eq!(PropertyResolver::get_i8(&config, "min"), Some(-128));
    assert_eq!(PropertyResolver::get_i8(&config, "missing"), None);
}

#[test]
fn should_get_i16() {
    let config = Config::builder()
        .set_default("num", 1000)
        .unwrap()
        .set_default("max", 32767)
        .unwrap()
        .set_default("min", -32768)
        .unwrap()
        .build()
        .unwrap();

    assert_eq!(PropertyResolver::get_i16(&config, "num"), Some(1000));
    assert_eq!(PropertyResolver::get_i16(&config, "max"), Some(32767));
    assert_eq!(PropertyResolver::get_i16(&config, "min"), Some(-32768));
    assert_eq!(PropertyResolver::get_i16(&config, "missing"), None);
}

#[test]
fn should_get_i32() {
    let config = Config::builder()
        .set_default("num", 100000)
        .unwrap()
        .set_default("negative", -100000)
        .unwrap()
        .build()
        .unwrap();

    assert_eq!(PropertyResolver::get_i32(&config, "num"), Some(100000));
    assert_eq!(PropertyResolver::get_i32(&config, "negative"), Some(-100000));
    assert_eq!(PropertyResolver::get_i32(&config, "missing"), None);
}

#[test]
fn should_get_i64() {
    let config = Config::builder()
        .set_default("num", 9_000_000_000_i64)
        .unwrap()
        .set_default("negative", -9_000_000_000_i64)
        .unwrap()
        .build()
        .unwrap();

    assert_eq!(PropertyResolver::get_i64(&config, "num"), Some(9_000_000_000));
    assert_eq!(PropertyResolver::get_i64(&config, "negative"), Some(-9_000_000_000));
    assert_eq!(PropertyResolver::get_i64(&config, "missing"), None);
}

#[test]
fn should_get_u8() {
    let config = Config::builder()
        .set_default("num", 42)
        .unwrap()
        .set_default("max", 255)
        .unwrap()
        .build()
        .unwrap();

    assert_eq!(PropertyResolver::get_u8(&config, "num"), Some(42));
    assert_eq!(PropertyResolver::get_u8(&config, "max"), Some(255));
    assert_eq!(PropertyResolver::get_u8(&config, "missing"), None);
}

#[test]
fn should_get_u16() {
    let config = Config::builder()
        .set_default("num", 1000)
        .unwrap()
        .set_default("max", 65535)
        .unwrap()
        .build()
        .unwrap();

    assert_eq!(PropertyResolver::get_u16(&config, "num"), Some(1000));
    assert_eq!(PropertyResolver::get_u16(&config, "max"), Some(65535));
    assert_eq!(PropertyResolver::get_u16(&config, "missing"), None);
}

#[test]
fn should_get_u32() {
    let config = Config::builder().set_default("num", 100000).unwrap().build().unwrap();

    assert_eq!(PropertyResolver::get_u32(&config, "num"), Some(100000));
    assert_eq!(PropertyResolver::get_u32(&config, "missing"), None);
}

#[test]
fn should_get_u64() {
    let config = Config::builder().set_default("num", 9_000_000_000_u64).unwrap().build().unwrap();

    assert_eq!(PropertyResolver::get_u64(&config, "num"), Some(9_000_000_000));
    assert_eq!(PropertyResolver::get_u64(&config, "missing"), None);
}

#[test]
fn typed_getters_refuse_values_out_of_range() {
    let config = Config::builder()
        .set_default("big", 128)
        .unwrap()
        .set_default("small", -129)
        .unwrap()
        .set_default("negative", -1)
        .unwrap()
        .set_default("wide", 4_294_967_296_i64)
        .unwrap()
        .build()
        .unwrap();
    assert_eq!(PropertyResolver::get_i8(&config, "big"), None);
    assert_eq!(PropertyResolver::get_i8(&config, "small"), None);
    assert_eq!(PropertyResolver::get_u8(&config, "big"), Some(128));
    assert_eq!(PropertyResolver::get_u8(&config, "negative"), None);
    assert_eq!(PropertyResolver::get_u16(&config, "negative"), None);
    assert_eq!(PropertyResolver::get_u32(&config, "negative"), None);
    assert_eq!(PropertyResolver::get_u64(&config, "negative"), None);
    assert_eq!(PropertyResolver::get_i16(&config, "small"), Some(-129));
    assert_eq!(PropertyResolver::get_u32(&config, "wide"), None);
    assert_eq!(PropertyResolver::get_i32(&config, "wide"), None);
    assert_eq!(PropertyResolver::get_i64(&config, "wide"), Some(4_294_967_296));
    assert_eq!(PropertyResolver::get_u64(&config, "wide"), Some(4_294_967_296));
}

fn resolver(pairs: &[(&str, &str)]) -> Config {
    let mut builder = Config::builder();
    for (key, value) in pairs {
        builder = builder.set_default(*key, *value).unwrap();
    }
    builder.build().unwrap()
}

#[test]
fn template_with_value_and_default() {
    let props = resolver(&[("a", "x")]);
    assert_eq!(props.compute_template_value("${a}_${b:def}"), Ok("x_def".to_string()));
    let props = resolver(&[]);
    assert_eq!(
        props.compute_template_value("${a}_${b:def}"),
        Err(Error::PropertyNotFound { key: "a".to_string() })
    );
    assert_eq!(
        props.compute_template_value("${a}_${b:def}").unwrap_err().message(),
        "Property 'a' not found and no default value provided"
    );
}

#[test]
fn template_value_wins_over_default() {
    let props = resolver(&[("b", "set")]);
    assert_eq!(props.compute_template_value("${b:def}"), Ok("set".to_string()));
    assert_eq!(props.compute_template_value("<${b:}>"), Ok("<set>".to_string()));
    assert_eq!(props.compute_template_value("<${c:}>"), Ok("<>".to_string()));
}

#[test]
fn template_default_is_parted_at_the_first_colon() {
    let props = resolver(&[]);
    assert_eq!(
        props.compute_template_value("${url:http://host:80}"),
        Ok("http://host:80".to_string())
    );
    assert_eq!(props.compute_template_value("${:x}"), Ok("x".to_string()));
    assert_eq!(props.compute_template_value("${k::}"), Ok(":".to_string()));
}

#[test]
fn template_without_complete_placeholder_is_left_alone() {
    let props = resolver(&[("a", "x")]);
    for text in ["", "plain", "${}", "${a", "$a}", "{a}", "$", "}${", "${}${"] {
        assert_eq!(props.compute_template_value(text), Ok(text.to_string()));
    }
    assert_eq!(props.compute_template_value("${}a}"), Ok("${}a}".to_string()));
    assert_eq!(props.compute_template_value("$${a}"), Ok("$x".to_string()));
    assert_eq!(props.compute_template_value("${a}}"), Ok("x}".to_string()));
}

#[test]
fn template_default_is_a_template_itself() {
    let props = resolver(&[("b", "y"), ("nested", "n")]);
    assert_eq!(props.compute_template_value("${a:${b}}"), Ok("y".to_string()));
    assert_eq!(props.compute_template_value("${prop:${nested}}"), Ok("n".to_string()));
    assert_eq!(props.compute_template_value("${a:<${b}|${c:${nested}}>}"), Ok("<y|n>".to_string()));
    assert_eq!(props.compute_template_value("${a:${c:${d:deep}}}"), Ok("deep".to_string()));
    assert_eq!(props.compute_template_value("${b:${missing}}"), Ok("y".to_string()));
    assert_eq!(
        props.compute_template_value("${a:${missing}}"),
        Err(Error::PropertyNotFound { key: "missing".to_string() })
    );
    assert_eq!(
        props.compute_template_value("${a:${c:${missing}}}_${b}"),
        Err(Error::PropertyNotFound { key: "missing".to_string() })
    );
}

#[test]
fn template_placeholder_reaches_to_the_matching_brace() {
    let props = resolver(&[("b", "y")]);
    assert_eq!(props.compute_template_value("${a:${b}"), Ok("${a:y".to_string()));
    assert_eq!(props.compute_template_value("${a:${b}}}"), Ok("y}".to_string()));
    assert_eq!(props.compute_template_value("${a:{b}}"), Ok("{b}".to_string()));
    assert_eq!(
        props.compute_template_value("${x${y}"),
        Err(Error::PropertyNotFound { key: "y".to_string() })
    );
    assert_eq!(
        props.compute_template_value("${x${b}}"),
        Err(Error::PropertyNotFound { key: "x${b}".to_string() })
    );
}

#[test]
fn template_replaces_each_placeholder_where_it_stands() {
    let props = resolver(&[("a", "1"), ("b", "${a}"), ("c", "€")]);
    assert_eq!(props.compute_template_value("${a}${a}-${a}"), Ok("11-1".to_string()));
    assert_eq!(props.compute_template_value("${b}${a}"), Ok("${a}1".to_string()));
    assert_eq!(props.compute_template_value("${a}_${x:${a}}"), Ok("1_1".to_string()));
    assert_eq!(props.compute_template_value("${a}${b}"), Ok("1${a}".to_string()));
    assert_eq!(props.compute_template_value("é${c}ü\n${c}"), Ok("é€ü\n€".to_string()));
}

#[test]
fn template_fails_at_the_first_unresolved_placeholder() {
    let props = resolver(&[("a", "1")]);
    assert_eq!(
        props.compute_template_value("${a}${x}${y}"),
        Err(Error::PropertyNotFound { key: "x".to_string() })
    );
}

#[test]
fn typed_template_values_report_why_a_text_is_no_value() {
    let props = resolver(&[("n", "300"), ("m", "-1")]);
    assert_eq!(
        props.compute_template_value_as_u8("${n}"),
        Err(Error::InvalidValue { kind: "u8".to_string(), why: ParseFailure::TooLarge })
    );
    assert_eq!(
        props.compute_template_value_as_i8("-${n}"),
        Err(Error::InvalidValue { kind: "i8".to_string(), why: ParseFailure::TooSmall })
    );
    assert_eq!(
        props.compute_template_value_as_u16("${m}"),
        Err(Error::InvalidValue { kind: "u16".to_string(), why: ParseFailure::InvalidDigit })
    );
    assert_eq!(
        props.compute_template_value_as_i32("${none:}"),
        Err(Error::InvalidValue { kind: "i32".to_string(), why: ParseFailure::Empty })
    );
    assert_eq!(
        props.compute_template_value_as_bool("True"),
        Err(Error::InvalidValue { kind: "bool".to_string(), why: ParseFailure::NotBool })
    );
    assert_eq!(
        props.compute_template_value_as_i64("${none}"),
        Err(Error::PropertyNotFound { key: "none".to_string() })
    );
    assert_eq!(
        props.compute_template_value_as_bool("${none}"),
        Err(Error::PropertyNotFound { key: "none".to_string() })
    );
    assert_eq!(props.compute_template_value_as_u32("+${n}"), Ok(300));
    assert_eq!(props.compute_template_value_as_i16("${m}"), Ok(-1));
    assert_eq!(
        props.compute_template_value_as_u8("${n}").unwrap_err().message(),
        "failed to parse u8: number too large to fit in target type"
    );
}
