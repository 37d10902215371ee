use opensovd::diagnostic::{
    next_registration_delay, sse_event_name, stream_data_ids, stream_interval, stream_update, written_message,
    AppInfo, DataCategory, DiagnosticError, HealthResponse, HttpRegistrar, AppEndpoint, StreamConfig,
    registration_step, RegistrationAction, RegistrationOutcome, FIRST_REGISTRATION_DELAY_MS,
};

#[test]
fn test_stream_config_default() {
    let config = StreamConfig::default();
    assert_eq!(config.interval_ms, 100);
    assert_eq!(config.max_subscribers, 100);
}

#[test]
fn data_categories_have_wire_names() {
    assert_eq!(DataCategory::CurrentData.as_str(), "currentData");
    assert_eq!(DataCategory::IdentData.as_str(), "identData");
    assert_eq!(DataCategory::ConfigData.as_str(), "configData");
    assert_eq!(DataCategory::FaultData.as_str(), "faultData");
    assert_eq!(DataCategory::SysInfo.as_str(), "sysInfo");
    assert_eq!(DataCategory::Custom("x".to_string()).as_str(), "x");
}

#[test]
fn registration_waits_double_up_to_thirty_seconds() {
    assert_eq!(next_registration_delay(500), 1000);
    assert_eq!(next_registration_delay(16_000), 30_000);
    assert_eq!(next_registration_delay(30_000), 30_000);
    let mut d = 500;
    for _ in 0..20 {
        let n = next_registration_delay(d);
        assert!(n >= d && n <= 30_000);
        d = n;
    }
    assert_eq!(d, 30_000);
}

#[test]
fn stream_ids_are_trimmed_and_empty_ones_dropped() {
    assert_eq!(stream_data_ids(" a, b ,,c "), vec!["a", "b", "c"]);
    assert!(stream_data_ids("").is_empty());
    assert_eq!(stream_interval(None), 100);
    assert_eq!(stream_interval(Some(5)), 5);
    assert_eq!(sse_event_name(None), "update");
    assert_eq!(sse_event_name(Some("error")), "error");
}

#[test]
fn errors_are_answered_with_their_status() {
    let cases = [
        (DiagnosticError::NotFound("x".into()), 404),
        (DiagnosticError::ReadOnly("x".into()), 403),
        (DiagnosticError::InvalidData("x".into()), 400),
        (DiagnosticError::Internal("x".into()), 500),
        (DiagnosticError::ServerError("x".into()), 500),
        (DiagnosticError::SerializationError("x".into()), 400),
    ];
    for (e, status) in cases {
        assert_eq!(e.answer(), (status, "x".to_string()));
    }
    assert_eq!(DiagnosticError::NotFound("rpm".into()).message(), "Data item not found: rpm");
}

#[test]
fn registrar_urls() {
    let r = HttpRegistrar::new("http://sovd/apps");
    let ep = AppEndpoint { app_id: "APP01".into(), app_name: "APP01".into(), port: 8080, hosted_on: "HPC".into() };
    assert_eq!(r.register_url(), "http://sovd/apps");
    assert_eq!(r.deregister_url(&ep), "http://sovd/apps/APP01");
}

#[test]
fn app_info_and_health() {
    let info = AppInfo::fallback();
    assert_eq!(info.name, "HPC Application");
    let api = info.api_info();
    assert_eq!(api.version, "1.0.0");
    assert_eq!(api.description, "Diagnostic-enabled HPC application");
    let h = HealthResponse::healthy(7);
    assert_eq!(h.status, "healthy");
    assert_eq!(h.timestamp, 7);
    assert_eq!(written_message("rpm"), "Data written to rpm");
}

#[test]
fn registration_waits_double_from_half_a_second_up_to_thirty() {
    let mut delay = FIRST_REGISTRATION_DELAY_MS;
    let mut seen = vec![delay];
    for _ in 0..8 {
        delay = next_registration_delay(delay);
        seen.push(delay);
    }
    assert_eq!(seen, vec![500, 1000, 2000, 4000, 8000, 16000, 30000, 30000, 30000]);
}

#[test]
fn registration_stops_after_the_first_success() {
    let outcomes = [RegistrationOutcome::Failed, RegistrationOutcome::Failed, RegistrationOutcome::Registered];
    let mut delay = FIRST_REGISTRATION_DELAY_MS;
    let mut actions = Vec::new();
    for o in outcomes {
        let (next, a) = registration_step(delay, o);
        actions.push(a);
        delay = next;
        if a == RegistrationAction::Stop {
            break;
        }
    }
    assert_eq!(
        actions,
        vec![
            RegistrationAction::RetryAfter { wait_ms: 500 },
            RegistrationAction::RetryAfter { wait_ms: 1000 },
            RegistrationAction::Stop,
        ]
    );
}

#[test]
fn a_periodic_stream_sends_what_it_read_and_skips_failures() {
    let u = stream_update("rpm", Ok::<u32, String>(900), 1_700_000_000_123).unwrap();
    assert_eq!(u.data_id, "rpm");
    assert_eq!(u.value, 900);
    assert_eq!(u.timestamp, 1_700_000_000_123);
    assert_eq!(u.event_type.as_deref(), Some("update"));
    assert!(stream_update("rpm", Err::<u32, String>("offline".to_string()), 5).is_none());
}
