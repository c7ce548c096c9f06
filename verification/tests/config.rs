//! Settings, locations, and delays.

use coin::config::{
    data_dir, data_dir_in, debate_dir, debate_dir_in, model_setting, DebateSettings, Delay,
    OpencodeConfig, ReadOutcome, RetryPolicy, Settings, CONFIG_FILE, HEALTH_POLL_INTERVAL,
    HEALTH_TIMEOUT, PORT_DISCOVERY_TIMEOUT,
};
use coin::error::CoinError;
use coin::opencode::types::ModelRef;

/// Settings with a model for both sides.
fn pinned() -> Settings {
    Settings {
        debate: DebateSettings { model: Some(ModelRef::new("p", "x")), model_b: None },
    }
}

#[test]
fn a_file_that_parses_supplies_the_settings() {
    let settings = Settings::load(&None::<String>, "./config.toml", ReadOutcome::Parsed(pinned()))
        .expect("must load");
    assert_eq!(settings.debate.model, Some(ModelRef::new("p", "x")));
    assert_eq!(settings.debate.model_b, None);
}

#[test]
fn a_conventional_file_may_be_absent() {
    let absent = ReadOutcome::NotFound("no such file".to_string());
    let settings = Settings::load(&None::<String>, "./config.toml", absent).expect("must be fine");
    assert!(settings.debate.model.is_none());
    assert!(settings.debate.model_b.is_none());
    assert_eq!(CONFIG_FILE, "config.toml");
}

#[test]
fn a_named_file_may_not_be_absent() {
    let absent = ReadOutcome::NotFound("no such file".to_string());
    let error = Settings::load(&Some("nowhere.toml"), "nowhere.toml", absent)
        .expect_err("a named file must exist");
    assert_eq!(error.to_string(), "filesystem error at nowhere.toml: no such file");
}

#[test]
fn a_file_that_cannot_be_read_is_an_error_either_way() {
    for explicit in [None, Some("c.toml")] {
        let outcome = ReadOutcome::Unreadable("denied".to_string());
        assert_eq!(
            Settings::load(&explicit, "c.toml", outcome).err(),
            Some(CoinError::Io { path: "c.toml".to_string(), source: "denied".to_string() })
        );
    }
}

#[test]
fn a_file_that_does_not_parse_names_itself() {
    let outcome = ReadOutcome::Unparseable("unknown field `moddel`".to_string());
    let error = Settings::load(&Some("typo.toml"), "typo.toml", outcome).expect_err("must fail");
    assert_eq!(error.to_string(), "could not read typo.toml: unknown field `moddel`");
}

#[test]
fn a_model_in_a_file_is_written_as_text() {
    assert_eq!(model_setting(None), Ok(None));
    assert_eq!(
        model_setting(Some("openrouter/openai/gpt-oss-120b".to_string())),
        Ok(Some(ModelRef::new("openrouter", "openai/gpt-oss-120b")))
    );
    let complaint = model_setting(Some("glm-5.3-flash".to_string())).expect_err("must fail");
    assert!(complaint.contains("provider/model"), "{complaint}");
}

#[test]
fn the_server_runs_from_the_path_with_web_search_on() {
    let config = OpencodeConfig::new("/tmp/x");
    assert_eq!(config.executable, "opencode");
    assert!(config.enable_websearch);
    assert_eq!(config.directory, "/tmp/x");
    assert_eq!((PORT_DISCOVERY_TIMEOUT, HEALTH_TIMEOUT, HEALTH_POLL_INTERVAL), (30, 30, 150));
}

#[test]
fn debates_lie_below_the_data_directory() {
    let data = data_dir_in(Some("/data")).expect("there is a base");
    assert_eq!((data.base, data.segments), ("/data", vec!["coin".to_string()]));

    let debate = debate_dir_in(Some("/data"), "42").expect("there is a base");
    assert_eq!(debate.base, "/data");
    assert_eq!(debate.segments, vec!["coin", "debates", "42"]);
}

#[test]
fn a_platform_without_a_data_directory_is_reported() {
    let error = data_dir_in::<&str>(None).expect_err("there is no base");
    assert_eq!(
        error.to_string(),
        "could not determine the data directory for this platform"
    );
    assert!(debate_dir_in::<&str>(None, "42").is_err());
}

#[test]
fn the_platform_decides_the_base() {
    // Whether there is a base depends on the machine; what lies below it does
    // not.
    match (data_dir(), debate_dir("42"), dirs::data_dir()) {
        (Ok(data), Ok(debate), Some(base)) => {
            assert_eq!(data.base, base);
            assert_eq!(data.segments, vec!["coin"]);
            assert_eq!(debate.base, base);
            assert_eq!(debate.segments, vec!["coin", "debates", "42"]);
        }
        (Err(_), Err(_), None) => {}
        other => panic!("the three disagree: {other:?}"),
    }
}

#[test]
fn turns_are_tried_three_times_five_seconds_apart() {
    let policy = RetryPolicy::default();
    assert_eq!(policy.attempts, 3);
    assert_eq!(policy.backoff, Delay::from_secs(5));
}

#[test]
fn doubling_agrees_with_the_standard_library() {
    let delays = [
        Delay::zero(),
        Delay::from_millis(1),
        Delay::from_millis(700),
        Delay::from_millis(1_500),
        Delay::from_secs(5),
        Delay::from_secs(u64::MAX / 2),
        Delay::from_secs(u64::MAX / 2 + 1),
        Delay::from_secs(u64::MAX),
    ];
    for mut delay in delays {
        for _ in 0..4 {
            let std_delay = std::time::Duration::new(delay.as_secs(), delay.subsec_nanos());
            let expected = std_delay.saturating_mul(2);
            delay = delay.doubled();
            assert_eq!(delay.as_secs(), expected.as_secs());
            assert_eq!(delay.subsec_nanos(), expected.subsec_nanos());
        }
    }
}

#[test]
fn milliseconds_become_seconds_and_nanoseconds() {
    let delay = Delay::from_millis(1_234);
    assert_eq!((delay.as_secs(), delay.subsec_nanos()), (1, 234_000_000));
}
