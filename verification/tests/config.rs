use mdbook_mermaid_ssr::config::{
    default_timeout, kebab_to_camel, option_key, Config, ConfigError, ErrorHandling, OptionKey,
    RawConfig, SecurityLevel, Timeout,
};

const RENDER_ENTRY_POINT: &str = "\n\nwindow.render = async function(id, code) {\n    try {\n        const { svg } = await mermaid.render(id, code);\n        return svg;\n    } catch (error) {\n        console.error('Mermaid rendering error:', error);\n        return null;\n    }\n};";

fn expected_script(options: &str) -> String {
    format!("mermaid.initialize({});{}", options, RENDER_ENTRY_POINT)
}

#[test]
fn test_kebab_to_camel_does_convert_kebab_case() {
    assert_eq!(kebab_to_camel("security-level"), "securityLevel");
    assert_eq!(kebab_to_camel("font-family"), "fontFamily");
    assert_eq!(kebab_to_camel("theme"), "theme");
    assert_eq!(kebab_to_camel("flowchart-curve"), "flowchartCurve");
}

#[test]
fn test_kebab_to_camel_does_not_convert_camel_case() {
    assert_eq!(kebab_to_camel("securityLevel"), "securityLevel");
    assert_eq!(kebab_to_camel("fontFamily"), "fontFamily");
    assert_eq!(kebab_to_camel("theme"), "theme");
    assert_eq!(kebab_to_camel("flowchartCurve"), "flowchartCurve");
}

#[test]
fn test_build_init_script_defaults() {
    let config = Config::default();
    let script = config.build_mermaid_init_script();
    assert_eq!(
        script,
        expected_script("{\"securityLevel\":\"strict\",\"startOnLoad\":false}")
    );
}

#[test]
fn test_build_init_script_with_additional_options() {
    let mut config = Config::default();
    config
        .mermaid
        .additional
        .insert("look".to_string(), "hand-drawn".to_string().into());
    let script = config.build_mermaid_init_script();
    assert_eq!(
        script,
        expected_script(
            "{\"securityLevel\":\"strict\",\"startOnLoad\":false,\"look\":\"hand-drawn\"}"
        )
    );
}

#[test]
fn test_build_init_script_with_security_level() {
    let mut config = Config::default();
    config.mermaid.security_level = SecurityLevel::Antiscript;
    let script = config.build_mermaid_init_script();
    assert_eq!(
        script,
        expected_script("{\"securityLevel\":\"antiscript\",\"startOnLoad\":false}")
    );
}

#[test]
fn default_config_has_documented_defaults() {
    let config = Config::default();
    assert_eq!(config.timeout, Timeout { secs: 30, nanos: 0 });
    assert_eq!(default_timeout(), Timeout { secs: 30, nanos: 0 });
    assert_eq!(Timeout::from_secs(30), default_timeout());
    assert_eq!(config.on_error, ErrorHandling::Fail);
    assert!(config.chrome_path.is_none());
    assert_eq!(config.mermaid.security_level, SecurityLevel::Strict);
    assert!(!config.mermaid.start_on_load);
    assert!(config.mermaid.additional.is_empty());
}

#[test]
fn hyphenated_options_are_handed_on_in_camel_case() {
    let mut config = Config::default();
    config
        .mermaid
        .additional
        .insert("font-family".to_string(), "monospace".to_string().into());
    let script = config.build_mermaid_init_script();
    assert_eq!(
        script,
        expected_script(
            "{\"securityLevel\":\"strict\",\"startOnLoad\":false,\"fontFamily\":\"monospace\"}"
        )
    );
}

#[test]
fn option_values_are_handed_on_as_json() {
    let mut config = Config::default();
    config.mermaid.security_level = SecurityLevel::Loose;
    config.mermaid.start_on_load = true;
    let mut flowchart = serde_json::Map::new();
    flowchart.insert("use-max-width".to_string(), serde_json::Value::Bool(false));
    config
        .mermaid
        .additional
        .insert("flowchart".to_string(), serde_json::Value::Object(flowchart));
    let script = config.build_mermaid_init_script();
    assert_eq!(
        script,
        expected_script(
            "{\"securityLevel\":\"loose\",\"startOnLoad\":true,\"flowchart\":{\"use-max-width\":false}}"
        )
    );
}

#[test]
fn option_names_are_written_as_json_strings() {
    let mut config = Config::default();
    config
        .mermaid
        .additional
        .insert("a\"b\\c\n".to_string(), serde_json::Value::from(7));
    let script = config.build_mermaid_init_script();
    assert_eq!(
        script,
        expected_script(
            "{\"securityLevel\":\"strict\",\"startOnLoad\":false,\"a\\\"b\\\\c\\n\":7}"
        )
    );
}

#[test]
fn of_two_options_with_one_name_the_last_is_kept() {
    let mut config = Config::default();
    config
        .mermaid
        .additional
        .insert("font-family".to_string(), "first".to_string().into());
    config
        .mermaid
        .additional
        .insert("fontFamily".to_string(), "second".to_string().into());
    let last = config
        .mermaid
        .additional
        .iter()
        .last()
        .map(|(_, value)| value.to_string())
        .unwrap();
    let script = config.build_mermaid_init_script();
    assert_eq!(
        script,
        expected_script(&format!(
            "{{\"securityLevel\":\"strict\",\"startOnLoad\":false,\"fontFamily\":{}}}",
            last
        ))
    );
}

#[test]
fn script_is_the_same_on_every_call() {
    let mut config = Config::default();
    config
        .mermaid
        .additional
        .insert("theme".to_string(), "dark".to_string().into());
    config
        .mermaid
        .additional
        .insert("flowchart-curve".to_string(), "basis".to_string().into());
    let copy = config.clone();
    assert_eq!(config.build_mermaid_init_script(), config.build_mermaid_init_script());
    assert_eq!(config.build_mermaid_init_script(), copy.build_mermaid_init_script());
    assert_eq!(copy.timeout, config.timeout);
    assert_eq!(copy.chrome_path, config.chrome_path);
    let script = config.build_mermaid_init_script();
    assert!(script.contains("\"theme\":\"dark\""));
    assert!(script.contains("\"flowchartCurve\":\"basis\""));
    assert!(!script.contains("flowchart-curve"));
}

#[test]
fn init_script_for_given_entries() {
    let entries = vec![
        ("look".to_string(), "\"hand-drawn\"".to_string()),
        ("maxTextSize".to_string(), "90000".to_string()),
    ];
    assert_eq!(
        mdbook_mermaid_ssr::config::init_script_for(SecurityLevel::Sandbox, false, &entries),
        expected_script(
            "{\"securityLevel\":\"sandbox\",\"startOnLoad\":false,\"look\":\"hand-drawn\",\"maxTextSize\":90000}"
        )
    );
}

#[test]
fn camel_case_edge_cases() {
    assert_eq!(kebab_to_camel(""), "");
    assert_eq!(kebab_to_camel("-"), "");
    assert_eq!(kebab_to_camel("-a"), "A");
    assert_eq!(kebab_to_camel("a-"), "a");
    assert_eq!(kebab_to_camel("a--b"), "aB");
    assert_eq!(kebab_to_camel("a-B"), "aB");
    assert_eq!(kebab_to_camel("a-1"), "a1");
    assert_eq!(kebab_to_camel("a-\u{e9}"), "a\u{e9}");
    assert_eq!(kebab_to_camel("under_score-x"), "under_scoreX");
    let once = kebab_to_camel("a-b-c");
    assert_eq!(kebab_to_camel(&once), once);
}

#[test]
fn security_levels_have_their_names() {
    assert_eq!(SecurityLevel::Strict.as_str(), "strict");
    assert_eq!(SecurityLevel::Loose.as_str(), "loose");
    assert_eq!(SecurityLevel::Antiscript.as_str(), "antiscript");
    assert_eq!(SecurityLevel::Sandbox.as_str(), "sandbox");
    assert_eq!(SecurityLevel::default(), SecurityLevel::Strict);
    assert_eq!(ErrorHandling::default(), ErrorHandling::Fail);
}

fn nothing_written() -> RawConfig {
    RawConfig {
        timeout: None,
        on_error: None,
        chrome_path: None,
        security_level: None,
        start_on_load: None,
        additional: serde_json::Map::new(),
    }
}

#[test]
fn options_left_out_take_their_defaults() {
    let config = Config::from_raw(nothing_written()).unwrap();
    assert_eq!(config.timeout, Timeout { secs: 30, nanos: 0 });
    assert_eq!(config.on_error, ErrorHandling::Fail);
    assert!(config.chrome_path.is_none());
    assert_eq!(config.mermaid.security_level, SecurityLevel::Strict);
    assert!(!config.mermaid.start_on_load);
    assert!(config.mermaid.additional.is_empty());
    assert_eq!(
        config.build_mermaid_init_script(),
        Config::default().build_mermaid_init_script()
    );
}

#[test]
fn written_options_are_taken_over() {
    let mut raw = nothing_written();
    raw.timeout = Some("1m 30s".to_string());
    raw.on_error = Some("comment".to_string());
    raw.chrome_path = Some(std::path::PathBuf::from("/usr/bin/chromium"));
    raw.security_level = Some("antiscript".to_string());
    raw.start_on_load = Some(true);
    raw.additional.insert("theme".to_string(), "dark".to_string().into());
    let config = Config::from_raw(raw).unwrap();
    assert_eq!(config.timeout, Timeout { secs: 90, nanos: 0 });
    assert_eq!(config.on_error, ErrorHandling::Comment);
    assert_eq!(config.chrome_path, Some(std::path::PathBuf::from("/usr/bin/chromium")));
    assert_eq!(config.mermaid.security_level, SecurityLevel::Antiscript);
    assert!(config.mermaid.start_on_load);
    assert_eq!(config.mermaid.additional.len(), 1);
    assert_eq!(config.mermaid.additional["theme"], "dark");
}

#[test]
fn timeouts_are_read_as_durations_in_words() {
    for (written, expected) in [
        ("30s", Timeout { secs: 30, nanos: 0 }),
        ("250ms", Timeout { secs: 0, nanos: 250_000_000 }),
        ("2h 37min", Timeout { secs: 9420, nanos: 0 }),
        ("4.2s", Timeout { secs: 4, nanos: 200_000_000 }),
        ("0", Timeout { secs: 0, nanos: 0 }),
    ] {
        let mut raw = nothing_written();
        raw.timeout = Some(written.to_string());
        assert_eq!(Config::from_raw(raw).unwrap().timeout, expected);
    }
}

#[test]
fn timeout_that_is_no_duration_is_an_error() {
    for written in ["", "soon", "30", "-5s", "10 parsecs"] {
        let mut raw = nothing_written();
        raw.timeout = Some(written.to_string());
        raw.on_error = Some("nonsense".to_string());
        let error = Config::from_raw(raw).unwrap_err();
        assert!(matches!(&error, ConfigError::InvalidTimeout(text) if text == written));
        assert_eq!(error.message(), format!("invalid timeout: {}", written));
    }
}

#[test]
fn unknown_error_policy_is_an_error() {
    for written in ["", "Fail", "ignore", "fail "] {
        let mut raw = nothing_written();
        raw.on_error = Some(written.to_string());
        raw.security_level = Some("nonsense".to_string());
        let error = Config::from_raw(raw).unwrap_err();
        assert!(matches!(&error, ConfigError::UnknownErrorHandling(text) if text == written));
        assert_eq!(error.message(), format!("unknown on-error policy: {}", written));
    }
}

#[test]
fn unknown_security_level_is_an_error() {
    for written in ["", "STRICT", "tight"] {
        let mut raw = nothing_written();
        raw.security_level = Some(written.to_string());
        let error = Config::from_raw(raw).unwrap_err();
        assert!(matches!(&error, ConfigError::UnknownSecurityLevel(text) if text == written));
        assert_eq!(error.message(), format!("unknown security-level: {}", written));
    }
}

#[test]
fn policies_and_levels_are_known_by_name() {
    assert_eq!(ErrorHandling::from_name("fail"), Some(ErrorHandling::Fail));
    assert_eq!(ErrorHandling::from_name("comment"), Some(ErrorHandling::Comment));
    assert_eq!(ErrorHandling::from_name("Comment"), None);
    for level in [
        SecurityLevel::Strict,
        SecurityLevel::Loose,
        SecurityLevel::Antiscript,
        SecurityLevel::Sandbox,
    ] {
        assert_eq!(SecurityLevel::from_name(level.as_str()), Some(level));
    }
    assert_eq!(SecurityLevel::from_name("none"), None);
}

#[test]
fn option_keys_are_known_in_any_case() {
    assert_eq!(option_key("timeout"), Some(OptionKey::Timeout));
    assert_eq!(option_key("Timeout"), Some(OptionKey::Timeout));
    assert_eq!(option_key("ON-ERROR"), Some(OptionKey::OnError));
    assert_eq!(option_key("on-error"), Some(OptionKey::OnError));
    assert_eq!(option_key("chrome-path"), Some(OptionKey::ChromePath));
    assert_eq!(option_key("Engine-Path"), Some(OptionKey::ChromePath));
    assert_eq!(option_key("security-level"), Some(OptionKey::SecurityLevel));
    assert_eq!(option_key("Security-Level"), Some(OptionKey::SecurityLevel));
    assert_eq!(option_key("start-on-load"), Some(OptionKey::StartOnLoad));
    for key in [OptionKey::Timeout, OptionKey::OnError, OptionKey::ChromePath, OptionKey::SecurityLevel, OptionKey::StartOnLoad] {
        assert_eq!(option_key(key.as_str()), Some(key));
    }
}

#[test]
fn other_keys_are_options_for_the_engine() {
    for key in ["", "theme", "securityLevel", "security_level", "on error", "timeouts", "t\u{ed}meout", "font-family"] {
        assert_eq!(option_key(key), None);
    }
}

#[test]
fn timeout_with_too_many_digits_is_an_error() {
    for written in [
        "18446744073709551615s 1000000000ns",
        "123456789012s",
        "1s 2s 3s 4s 5s 6s 7s 8s 9s 10s 11s",
        "0.00000000001s",
    ] {
        let mut raw = nothing_written();
        raw.timeout = Some(written.to_string());
        let error = Config::from_raw(raw).unwrap_err();
        assert!(matches!(&error, ConfigError::InvalidTimeout(text) if text == written));
    }
    let mut raw = nothing_written();
    raw.timeout = Some("12345678901s".to_string());
    assert_eq!(
        Config::from_raw(raw).unwrap().timeout,
        Timeout { secs: 12345678901, nanos: 0 }
    );
}

#[test]
fn digits_are_counted_and_timeouts_read() {
    use_count();
}

fn use_count() {
    assert_eq!(mdbook_mermaid_ssr::config::count_digits(""), 0);
    assert_eq!(mdbook_mermaid_ssr::config::count_digits("1m 30s"), 3);
    assert_eq!(mdbook_mermaid_ssr::config::count_digits("\u{0661}x9"), 1);
    assert_eq!(
        mdbook_mermaid_ssr::config::read_timeout("1m 30s"),
        Some(Timeout { secs: 90, nanos: 0 })
    );
    assert_eq!(mdbook_mermaid_ssr::config::read_timeout("123456789012s"), None);
    assert_eq!(mdbook_mermaid_ssr::config::read_timeout("soon"), None);
}

#[test]
fn configuration_for_a_given_reading_of_the_timeout() {
    let mut raw = nothing_written();
    raw.timeout = Some("anything".to_string());
    let config = Config::from_read(raw, Some(Timeout { secs: 5, nanos: 7 })).unwrap();
    assert_eq!(config.timeout, Timeout { secs: 5, nanos: 7 });

    let mut raw = nothing_written();
    raw.timeout = Some("anything".to_string());
    let error = Config::from_read(raw, None).unwrap_err();
    assert!(matches!(&error, ConfigError::InvalidTimeout(text) if text == "anything"));

    let mut raw = nothing_written();
    raw.timeout = Some("anything".to_string());
    let error =
        Config::from_read(raw, Some(Timeout { secs: 1, nanos: 1_000_000_000 })).unwrap_err();
    assert!(matches!(&error, ConfigError::InvalidTimeout(text) if text == "anything"));

    let config = Config::from_read(nothing_written(), Some(Timeout { secs: 5, nanos: 0 })).unwrap();
    assert_eq!(config.timeout, Timeout { secs: 30, nanos: 0 });
}

#[test]
fn control_characters_in_option_names_are_written_as_escapes() {
    let mut config = Config::default();
    config
        .mermaid
        .additional
        .insert("a\u{1}\u{1f}\u{8}\u{c}\t\r\u{7f}\u{e9}".to_string(), serde_json::Value::Null);
    let script = config.build_mermaid_init_script();
    assert_eq!(
        script,
        expected_script(
            "{\"securityLevel\":\"strict\",\"startOnLoad\":false,\"a\\u0001\\u001f\\b\\f\\t\\r\u{7f}\u{e9}\":null}"
        )
    );
}
