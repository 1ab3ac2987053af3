use whcanrc_assisted_listening::config::{
    Config, ConfigError, ConfigFile, Overrides, ENV_AUDIO_CHANNELS, ENV_AUDIO_SAMPLE_RATE,
    ENV_LOG_LEVEL, ENV_PORT,
};
use whcanrc_assisted_listening::text::{
    format_number, join, parse_number, starts_with, NumberError,
};

fn no_overrides() -> Overrides {
    Overrides { port: None, log_level: None, audio_sample_rate: None, audio_channels: None }
}

fn from_toml(text: &str) -> ConfigFile {
    let table: toml::Table = text.parse().unwrap();
    let number = |key: &str| table.get(key).and_then(|v| v.as_integer());
    ConfigFile {
        port: number("port").map(|n| n as u16),
        log_level: table.get("log_level").and_then(|v| v.as_str()).map(|s| s.to_string()),
        audio_sample_rate: number("audio_sample_rate").map(|n| n as u32),
        audio_channels: number("audio_channels").map(|n| n as u16),
    }
}

#[test]
fn test_default_config() {
    let config = Config::default();
    assert_eq!(config.port, 8080);
    assert_eq!(config.log_level, "info");
    assert_eq!(config.audio_sample_rate, 48000);
    assert_eq!(config.audio_channels, 1);
}

#[test]
fn test_parse_config_toml() {
    let toml_str = r#"
            port = 9090
            log_level = "debug"
            audio_sample_rate = 44100
            audio_channels = 2
        "#;
    let config = Config::from_file(from_toml(toml_str));
    assert_eq!(config.port, 9090);
    assert_eq!(config.log_level, "debug");
    assert_eq!(config.audio_sample_rate, 44100);
    assert_eq!(config.audio_channels, 2);
}

#[test]
fn test_partial_config_uses_defaults() {
    let toml_str = r#"
            port = 3000
        "#;
    let config = Config::from_file(from_toml(toml_str));
    assert_eq!(config.port, 3000);
    assert_eq!(config.log_level, "info");
    assert_eq!(config.audio_sample_rate, 48000);
    assert_eq!(config.audio_channels, 1);
}

#[test]
fn test_env_var_overrides() {
    assert_eq!(ENV_PORT, "WHCANRC_PORT");
    assert_eq!(ENV_LOG_LEVEL, "WHCANRC_LOG_LEVEL");
    let overrides = Overrides {
        port: Some("7777".to_string()),
        log_level: Some("trace".to_string()),
        ..no_overrides()
    };
    let config = Config::load(None, overrides).unwrap();
    assert_eq!(config.port, 7777);
    assert_eq!(config.log_level, "trace");
    assert_eq!(config.audio_sample_rate, 48000);
}

#[test]
fn overrides_win_over_the_file() {
    assert_eq!(ENV_AUDIO_SAMPLE_RATE, "WHCANRC_AUDIO_SAMPLE_RATE");
    assert_eq!(ENV_AUDIO_CHANNELS, "WHCANRC_AUDIO_CHANNELS");
    let file = from_toml("port = 1\nlog_level = \"warn\"\naudio_sample_rate = 2\naudio_channels = 3");
    let overrides = Overrides {
        port: None,
        log_level: None,
        audio_sample_rate: Some("+96000".to_string()),
        audio_channels: Some("2".to_string()),
    };
    let config = Config::load(Some(file), overrides).unwrap();
    assert_eq!(config.port, 1);
    assert_eq!(config.log_level, "warn");
    assert_eq!(config.audio_sample_rate, 96000);
    assert_eq!(config.audio_channels, 2);
}

#[test]
fn first_bad_override_is_the_error() {
    let overrides = Overrides {
        port: Some("65536".to_string()),
        log_level: None,
        audio_sample_rate: Some("".to_string()),
        audio_channels: Some("two".to_string()),
    };
    let e = Config::load(None, overrides.clone()).unwrap_err();
    assert_eq!(e, ConfigError::Port(NumberError::PosOverflow));
    assert_eq!(e.message(), "number too large to fit in target type");
    let overrides = Overrides { port: None, ..overrides };
    let e = Config::load(None, overrides.clone()).unwrap_err();
    assert_eq!(e, ConfigError::AudioSampleRate(NumberError::Empty));
    assert_eq!(e.message(), "cannot parse integer from empty string");
    let overrides = Overrides { audio_sample_rate: None, ..overrides };
    let e = Config::load(None, overrides).unwrap_err();
    assert_eq!(e, ConfigError::AudioChannels(NumberError::InvalidDigit));
    assert_eq!(e.message(), "invalid digit found in string");
}

#[test]
fn numbers_are_read_as_the_standard_library_reads_them() {
    let texts = [
        "", "+", "-", "0", "+0", "-0", "007", "65535", "65536", "+65535", "99999x", "9x999999",
        "65536x", " 1", "1 ", "1_000", "٣", "é1", "++1", "4294967295", "4294967296",
        "00000000000000000012",
    ];
    for text in texts {
        let ours = parse_number(text, u16::MAX as u32);
        match text.parse::<u16>() {
            Ok(n) => assert_eq!(ours, Ok(n as u32), "{}", text),
            Err(e) => assert_eq!(ours.unwrap_err().message(), e.to_string(), "{}", text),
        }
        let ours = parse_number(text, u32::MAX);
        match text.parse::<u32>() {
            Ok(n) => assert_eq!(ours, Ok(n), "{}", text),
            Err(e) => assert_eq!(ours.unwrap_err().message(), e.to_string(), "{}", text),
        }
    }
}

#[test]
fn written_numbers_read_back() {
    for n in [0u32, 9, 10, 99, 100, 8080, 65535, u32::MAX] {
        assert_eq!(format_number(n), n.to_string());
        assert_eq!(parse_number(&format_number(n), u32::MAX), Ok(n));
    }
}

#[test]
fn texts_are_joined_and_compared() {
    assert_eq!(join("ab", "ç"), "abç");
    assert!(starts_with("--device=x", "--device="));
    assert!(!starts_with("--device", "--device="));
    assert!(!starts_with("--devicex=", "--device="));
    assert!(starts_with("é", ""));
}

#[test]
fn webtransport_has_the_port_behind() {
    assert_eq!(Config::default().webtransport_port(), 8081);
    let last = Config { port: 65535, ..Config::default() };
    assert_eq!(last.webtransport_port(), 0);
}
