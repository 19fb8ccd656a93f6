use tradebot_core::commands::{
    AccessLevels, CommandConfig, CreateUserCommand, ListConfigCommand, ReserveCommand,
    SetConfigCommand, SummaryCommand,
};
use tradebot_core::config::{CachedConfig, Config, ConfigEntry, ValueType};
use tradebot_core::errors::ConfigError;
use tradebot_core::text::{
    encode_order_ids, format_u64, parse_bool, parse_i32, parse_i64, parse_order_ids, parse_u64,
};

fn seeded() -> Config {
    let mut c = Config::new();
    c.first_setup();
    c
}

#[test]
fn value_type_codes_round_trip() {
    assert_eq!(ValueType::STRING.to_i32(), 0);
    assert_eq!(ValueType::INT.to_i32(), 1);
    assert_eq!(ValueType::BIGINT.to_i32(), 2);
    assert_eq!(ValueType::BOOL.to_i32(), 3);
    for n in 0..=3 {
        assert_eq!(ValueType::from_i32(n).to_i32(), n);
    }
}

#[test]
fn first_setup_seeds_the_defaults() {
    let c = seeded();
    let v = c
        .get(&"trading".to_string(), &"symbol".to_string())
        .unwrap()
        .expect("symbol expected");
    assert_eq!(v.value.as_deref(), Some("BTCUSDT"));
    let warn = c
        .get_i32(&"schedule".to_string(), &"afk_warn_min".to_string())
        .unwrap();
    assert_eq!(warn, Some(15));
    // unset by default
    let admin: Option<CachedConfig> =
        c.get(&"roles".to_string(), &"admin".to_string()).unwrap();
    assert!(admin.is_none());
}

#[test]
fn first_setup_keeps_existing_values() {
    let mut c = seeded();
    c.set_value(
        &"trading".to_string(),
        &"symbol".to_string(),
        Some("ETHUSDT".to_string()),
    )
    .unwrap();
    c.first_setup();
    let v = c
        .get(&"trading".to_string(), &"symbol".to_string())
        .unwrap()
        .unwrap();
    assert_eq!(v.value.as_deref(), Some("ETHUSDT"));
}

#[test]
fn missing_section_is_an_error_missing_key_is_not() {
    let c = seeded();
    assert!(matches!(
        c.get(&"nowhere".to_string(), &"symbol".to_string()),
        Err(ConfigError::MissingEntry)
    ));
    assert!(matches!(
        c.get(&"trading".to_string(), &"no_such_key".to_string()),
        Ok(None)
    ));
}

#[test]
fn insert_refuses_taken_keys() {
    let mut c = Config::new();
    let entry = ConfigEntry {
        section: "a".to_string(),
        key: "b".to_string(),
        value_type: ValueType::STRING,
        description: "d".to_string(),
        value: None,
    };
    assert!(c.insert(entry));
    let again = ConfigEntry {
        section: "a".to_string(),
        key: "b".to_string(),
        value_type: ValueType::INT,
        description: "other".to_string(),
        value: Some("1".to_string()),
    };
    assert!(!c.insert(again));
}

#[test]
fn set_value_checks_the_declared_type() {
    let mut c = seeded();
    let section = "schedule".to_string();
    let key = "afk_warn_min".to_string();
    assert_eq!(
        c.set_value(&section, &key, Some("ten".to_string())),
        Err(ConfigError::TypeMismatch)
    );
    assert_eq!(c.set_value(&section, &key, Some("10".to_string())), Ok(()));
    assert_eq!(c.get_i32(&section, &key).unwrap(), Some(10));
    // clearing is always allowed
    assert_eq!(c.set_value(&section, &key, None), Ok(()));
    assert_eq!(c.get_i32(&section, &key).unwrap(), None);
    assert_eq!(
        c.set_value(&"no".to_string(), &"where".to_string(), None),
        Err(ConfigError::MissingEntry)
    );
}

#[test]
fn get_type_reports_the_declared_type() {
    let c = seeded();
    assert_eq!(
        c.get_type(&"schedule".to_string(), &"afk_warn_min".to_string()),
        Ok(ValueType::INT)
    );
    assert_eq!(
        c.get_type(&"trading".to_string(), &"symbol".to_string()),
        Ok(ValueType::STRING)
    );
    assert_eq!(
        c.get_type(&"trading".to_string(), &"no_such_key".to_string()),
        Err(ConfigError::MissingEntry)
    );
}

#[test]
fn load_drops_repeated_keys() {
    let row = |k: &str, v: &str| ConfigEntry {
        section: "s".to_string(),
        key: k.to_string(),
        value_type: ValueType::STRING,
        description: String::new(),
        value: Some(v.to_string()),
    };
    let c = Config::load(vec![row("a", "first"), row("a", "second"), row("b", "x")]);
    let got = c.get(&"s".to_string(), &"a".to_string()).unwrap().unwrap();
    assert_eq!(got.value.as_deref(), Some("first"));
    assert_eq!(c.entries.len(), 2);
}

#[test]
fn decimal_readers_accept_exactly_decimals() {
    assert_eq!(parse_u64("0"), Some(0));
    assert_eq!(parse_u64("18446744073709551615"), Some(u64::MAX));
    assert_eq!(parse_u64("18446744073709551616"), None);
    assert_eq!(parse_u64(""), None);
    assert_eq!(parse_u64("1x"), None);
    assert_eq!(parse_u64("-1"), None);
    assert_eq!(parse_i64("-15"), Some(-15));
    assert_eq!(parse_i64("9223372036854775807"), Some(i64::MAX));
    assert_eq!(parse_i64("-9223372036854775808"), Some(i64::MIN));
    assert_eq!(parse_i64("-9223372036854775809"), None);
    assert_eq!(parse_i64("-"), None);
    assert_eq!(parse_i32("2147483647"), Some(i32::MAX));
    assert_eq!(parse_i32("2147483648"), None);
    assert_eq!(parse_bool("true"), Some(true));
    assert_eq!(parse_bool("false"), Some(false));
    assert_eq!(parse_bool("True"), None);
    assert_eq!(parse_bool(""), None);
}

#[test]
fn order_id_lists_round_trip_through_storage() {
    let ids: Vec<u64> = vec![11, 0, u64::MAX];
    let stored = encode_order_ids(&ids);
    assert_eq!(stored, "11,0,18446744073709551615");
    assert_eq!(parse_order_ids(&stored), Some(ids));
    assert_eq!(encode_order_ids(&vec![]), "");
    assert_eq!(parse_order_ids(""), Some(vec![]));
    assert_eq!(parse_order_ids("5"), Some(vec![5]));
}

#[test]
fn malformed_order_id_lists_are_rejected() {
    assert_eq!(parse_order_ids("5,"), None);
    assert_eq!(parse_order_ids(",5"), None);
    assert_eq!(parse_order_ids("05"), None);
    assert_eq!(parse_order_ids("5,x"), None);
    assert_eq!(parse_order_ids("5,,6"), None);
}

#[test]
fn decimal_rendering_is_canonical() {
    assert_eq!(format_u64(0), "0");
    assert_eq!(format_u64(7), "7");
    assert_eq!(format_u64(105), "105");
    assert_eq!(format_u64(u64::MAX), "18446744073709551615");
}

#[test]
fn command_registry_access_levels() {
    assert_eq!(CreateUserCommand::new().config().accessLevel, AccessLevels::TRADER);
    assert_eq!(ListConfigCommand::new().config().accessLevel, AccessLevels::TRADER);
    assert_eq!(SetConfigCommand::new().config().accessLevel, AccessLevels::ADMIN);
    assert_eq!(ReserveCommand::new().config().accessLevel, AccessLevels::TRADER);
    assert_eq!(SummaryCommand::new().config().accessLevel, AccessLevels::TRADER);
    let d = CommandConfig::default();
    assert_eq!(d.accessLevel, AccessLevels::ANY);
    assert!(!d.ephermal);
    assert!(d.fetch_reply);
    assert!(AccessLevels::ADMIN.permits(true, false));
    assert!(!AccessLevels::ADMIN.permits(false, true));
    assert!(AccessLevels::TRADER.permits(false, true));
    assert!(!AccessLevels::TRADER.permits(true, false));
    assert!(AccessLevels::ANY.permits(false, false));
}
