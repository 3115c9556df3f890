use test_retry::config::parse_configuration;
use test_retry::config::ConfigError;
use test_retry::config::Configuration;
use test_retry::config::DEFAULT_COUNT;

#[test]
fn empty_arguments_select_the_default() {
    assert_eq!(
        parse_configuration(b""),
        Ok(Configuration { count: DEFAULT_COUNT })
    );
    assert_eq!(parse_configuration(b"   \t\n "), Ok(Configuration { count: 3 }));
}

#[test]
fn default_matches_explicit_three() {
    assert_eq!(parse_configuration(b""), parse_configuration(b"count = 3"));
}

#[test]
fn explicit_counts_are_read() {
    assert_eq!(parse_configuration(b"count = 1"), Ok(Configuration { count: 1 }));
    assert_eq!(parse_configuration(b"count=7"), Ok(Configuration { count: 7 }));
    assert_eq!(
        parse_configuration(b"  count  =  12  "),
        Ok(Configuration { count: 12 })
    );
    assert_eq!(parse_configuration(b"count = 007"), Ok(Configuration { count: 7 }));
}

#[test]
fn non_integer_value_is_rejected() {
    assert_eq!(
        parse_configuration(b"count = \"x\""),
        Err(ConfigError::InvalidValue)
    );
    assert_eq!(parse_configuration(b"count = -1"), Err(ConfigError::InvalidValue));
    assert_eq!(parse_configuration(b"count ="), Err(ConfigError::InvalidValue));
    assert_eq!(
        parse_configuration(b"count = 5 extra"),
        Err(ConfigError::InvalidValue)
    );
}

#[test]
fn unrecognized_arguments_are_rejected() {
    assert_eq!(
        parse_configuration(b"retries = 5"),
        Err(ConfigError::UnrecognizedArgument)
    );
    assert_eq!(
        parse_configuration(b"count 5"),
        Err(ConfigError::UnrecognizedArgument)
    );
    assert_eq!(
        parse_configuration(b"counts = 5"),
        Err(ConfigError::UnrecognizedArgument)
    );
    assert_eq!(
        parse_configuration(b"= 5"),
        Err(ConfigError::UnrecognizedArgument)
    );
}

#[test]
fn zero_count_is_rejected() {
    assert_eq!(parse_configuration(b"count = 0"), Err(ConfigError::ZeroCount));
    assert_eq!(parse_configuration(b"count = 000"), Err(ConfigError::ZeroCount));
}

#[test]
fn count_range_boundaries() {
    assert_eq!(
        parse_configuration(b"count = 18446744073709551615"),
        Ok(Configuration { count: u64::MAX })
    );
    assert_eq!(
        parse_configuration(b"count = 18446744073709551616"),
        Err(ConfigError::CountTooLarge)
    );
    assert_eq!(
        parse_configuration(b"count = 99999999999999999999999999"),
        Err(ConfigError::CountTooLarge)
    );
}

#[test]
fn error_messages_are_distinct() {
    let messages = [
        ConfigError::UnrecognizedArgument.message(),
        ConfigError::InvalidValue.message(),
        ConfigError::ZeroCount.message(),
        ConfigError::CountTooLarge.message(),
    ];
    for (i, a) in messages.iter().enumerate() {
        assert!(!a.is_empty());
        for b in messages.iter().skip(i + 1) {
            assert_ne!(a, b);
        }
    }
}
