use neuragrid::capabilities::lp::{
    processing_seconds, report, sort_texts, text_le, LicensePlateRecognition,
};
use neuragrid::capabilities::ot::ObjectTracking;
use neuragrid::capabilities::pd::PeopleDetection;
use neuragrid::capabilities::{Capability, Offered};
use neuragrid::client::{has_tag, job_id_in, listen_step, verdict, Verdict};
use neuragrid::config::{
    default_schedule, earnings_text, session_url, Admission, WorkerConfig,
};
use neuragrid::text::{parse_number, render_decimal, trim, trim_prefix};
use neuragrid::profiles::get_active_profile;
use neuragrid::registry::Slot;
use neuragrid::runner::{
    completion_frame, count_matches, count_primes, failure_frame, is_prime, rejection_frame,
    route, Job, Route,
};

#[test]
fn test_lp_execution() {
    let lp = LicensePlateRecognition;
    let args = vec!["KA01AB1234".to_string(), "http://example.com/video.mp4".to_string()];
    let result = lp.execute(args);
    assert!(result.is_ok());

    let json = result.unwrap();
    println!("Lp Output: {}", json);

    let parsed: serde_json::Value = serde_json::from_str(&json).unwrap();
    assert_eq!(parsed["vehicle_number"], "KA01AB1234");
    assert_eq!(parsed["video_url"], "http://example.com/video.mp4");
    assert!(parsed["timestamps"].is_array());

    let timestamps = parsed["timestamps"].as_array().unwrap();
    assert_eq!(timestamps.len(), 5);

    let ts_str = timestamps[0].as_str().unwrap();
    assert!(chrono::NaiveDateTime::parse_from_str(ts_str, "%d/%m/%y %H:%M:%S").is_ok());
}

#[test]
fn lp_without_arguments_tells_how_to_ask() {
    let lp = LicensePlateRecognition;
    assert_eq!(
        lp.execute(vec!["KA01AB1234".to_string()]),
        Err("Usage: <vehicle_number> <video_url>".to_string())
    );
    assert_eq!(lp.code(), "Lp");
    assert!(lp.is_supported());
}

#[test]
fn lp_timestamps_come_in_order() {
    let lp = LicensePlateRecognition;
    let json = lp.execute(vec!["a".to_string(), "b".to_string()]).unwrap();
    let parsed: serde_json::Value = serde_json::from_str(&json).unwrap();
    let seen: Vec<String> = parsed["timestamps"]
        .as_array()
        .unwrap()
        .iter()
        .map(|t| t.as_str().unwrap().to_string())
        .collect();
    let mut sorted = seen.clone();
    sorted.sort();
    assert_eq!(seen, sorted);
    assert_eq!(seen.len(), 5);
    for stamp in &seen {
        let bytes = stamp.as_bytes();
        assert_eq!(bytes.len(), 17);
        for (at, byte) in bytes.iter().enumerate() {
            match at {
                2 | 5 => assert_eq!(*byte, b'/'),
                8 => assert_eq!(*byte, b' '),
                11 | 14 => assert_eq!(*byte, b':'),
                _ => assert!(byte.is_ascii_digit()),
            }
        }
    }
}

#[test]
fn lp_report_is_exact() {
    let seen = vec!["01/02/25 10:00:00".to_string(), "01/02/25 10:30:00".to_string()];
    assert_eq!(
        report("KA\"01", "http://x/v.mp4", &seen),
        Ok("{\"vehicle_number\":\"KA\\\"01\",\"video_url\":\"http://x/v.mp4\",\"timestamps\":[\"01/02/25 10:00:00\",\"01/02/25 10:30:00\"]}".to_string())
    );
    assert_eq!(
        report("a", "b", &vec![]),
        Ok("{\"vehicle_number\":\"a\",\"video_url\":\"b\",\"timestamps\":[]}".to_string())
    );
}

#[test]
fn lp_takes_two_to_three_minutes() {
    for _ in 0..200 {
        let s = processing_seconds();
        assert!((120..=180).contains(&s));
    }
}

#[test]
fn texts_sort_as_std_sorts_them() {
    let items: Vec<String> =
        ["b", "a", "", "ab", "a", "Z", "é", "31/12/24 23:59:59", "01/01/25 00:00:10"]
            .iter()
            .map(|s| s.to_string())
            .collect();
    let mut expected = items.clone();
    expected.sort();
    assert_eq!(sort_texts(&items), expected);
    assert!(text_le("a", "a"));
    assert!(text_le("a", "ab"));
    assert!(!text_le("ab", "a"));
    assert!(text_le("", "a"));
    assert!(!text_le("b", "a"));
}

#[test]
fn simple_capabilities_answer() {
    assert_eq!(PeopleDetection.code(), "Pd");
    assert_eq!(PeopleDetection.execute(vec![]), Ok("People Detection executed".to_string()));
    assert_eq!(ObjectTracking.execute(vec![]), Ok("Object Tracking executed".to_string()));
    assert!(ObjectTracking.is_supported());
}

#[test]
fn profiles_list_their_capabilities() {
    let codes = |caps: Vec<Offered>| caps.iter().map(|c| c.code()).collect::<Vec<_>>();
    assert_eq!(codes(get_active_profile()), vec!["Pd", "Pr", "Ot", "Vd", "Lp", "Vs"]);
    assert_eq!(
        codes(neuragrid::profiles::standard::get_capabilities()),
        vec!["Pd", "Pr", "Ot", "Vd", "Lp", "Vs"]
    );
    assert_eq!(codes(neuragrid::profiles::edge_jetson::get_capabilities()), vec!["Pd", "Ot"]);
    assert_eq!(codes(neuragrid::profiles::server_gpu::get_capabilities()), vec!["Vs", "Pr"]);
    let answers: Vec<_> = neuragrid::profiles::server_gpu::get_capabilities()
        .iter()
        .map(|c| c.execute(vec![]))
        .collect();
    assert_eq!(
        answers,
        vec![Ok("Video Search executed".to_string()), Ok("Person Re-ID executed".to_string())]
    );
}

#[test]
fn primes_are_told_apart() {
    let primes: Vec<u64> = (0..60).filter(|n| is_prime(*n)).collect();
    assert_eq!(primes, vec![2, 3, 5, 7, 11, 13, 17, 19, 23, 29, 31, 37, 41, 43, 47, 53, 59]);
    assert!(!is_prime(0));
    assert!(!is_prime(1));
    assert!(is_prime(1_000_000_007));
    assert!(!is_prime(1_000_003 * 1_000_003));
    assert!(!is_prime(u64::MAX));
    assert_eq!(count_primes(0, 100), 25);
    assert_eq!(count_primes(10, 10), 0);
    assert_eq!(count_primes(20, 10), 0);
    assert_eq!(count_primes(2, 3), 1);
}

#[test]
fn numbers_parse_as_std_parses_them() {
    for text in ["0", "7", "+7", "007", "18446744073709551615", "18446744073709551616", "", "+",
        "-1", "-0", "1 ", " 1", "1_000", "12a", "++1", "99999999999999999999999", "٣"]
    {
        assert_eq!(parse_number(text), text.parse::<u64>().ok(), "{:?}", text);
    }
}

fn job(kind: &str, args: &[&str]) -> Job {
    Job {
        id: "j1".to_string(),
        job_type: kind.to_string(),
        command: "echo".to_string(),
        args: args.iter().map(|s| s.to_string()).collect(),
        env: vec![("A".to_string(), "1".to_string())],
        tags: vec![],
    }
}

#[test]
fn jobs_go_their_ways() {
    let profile = get_active_profile();
    assert!(matches!(route(&job("Lp", &[]), &profile), Route::Capability(4)));
    assert!(matches!(route(&job("Pd", &[]), &profile), Route::Capability(0)));
    assert!(matches!(
        route(&job("prime_search", &["10", "x"]), &profile),
        Route::PrimeSearch { start: 10, end: 0 }
    ));
    assert!(matches!(
        route(&job("prime_search", &["+3", "50", "9"]), &profile),
        Route::PrimeSearch { start: 3, end: 50 }
    ));
    assert!(matches!(route(&job("prime_search", &[]), &profile), Route::PrimeSearch { start: 0, end: 0 }));
    assert!(matches!(route(&job("gpu_test", &[]), &profile), Route::GpuTest));
    assert!(matches!(route(&job("string_search", &[]), &profile), Route::MissingFilePath));
    assert!(matches!(route(&job("string_search", &["f"]), &profile), Route::NoSearchTerms));
    match route(&job("string_search", &["f", "a", "b"]), &profile) {
        Route::StringSearch { path, terms } => {
            assert_eq!(path, "f");
            assert_eq!(terms, vec!["a".to_string(), "b".to_string()]);
        }
        other => panic!("{:?}", other),
    }
    assert!(matches!(route(&job("custom", &["x"]), &profile), Route::Command));
    assert!(matches!(route(&job("lp", &[]), &profile), Route::Command));
    assert!(matches!(route(&job("Pd", &[]), &vec![]), Route::Command));
}

#[test]
fn matches_count_terms_per_line() {
    let terms = vec!["ab".to_string(), "b".to_string(), "zz".to_string(), "".to_string()];
    assert_eq!(count_matches("xxabxx", &terms), 3);
    assert_eq!(count_matches("", &terms), 1);
    assert_eq!(count_matches("b", &vec![]), 0);
}

#[test]
fn worker_frames_are_exact() {
    assert_eq!(completion_frame("j1"), "Job Completed: j1");
    assert_eq!(failure_frame("j1"), "Job Failed: j1");
    assert_eq!(rejection_frame("j1"), "Job Rejected: j1");
}

#[test]
fn default_config_is_always_on() {
    let config = WorkerConfig::default();
    assert_eq!(config.name, None);
    assert_eq!(config.coordinator_url, None);
    assert!(!config.silent_mode);
    assert_eq!(config.schedule, vec![vec![true; 24]; 7]);
    assert_eq!(default_schedule(), vec![vec![true; 24]; 7]);
    for weekday in 0..7 {
        for hour in 0..24 {
            assert_eq!(config.admission(Slot { weekday, hour }), Admission::Allowed);
        }
    }
}

#[test]
fn config_turns_jobs_down() {
    let mut config = WorkerConfig::default();
    config.schedule[2][13] = false;
    assert_eq!(config.admission(Slot { weekday: 2, hour: 13 }), Admission::OutsideSchedule);
    assert_eq!(config.admission(Slot { weekday: 2, hour: 14 }), Admission::Allowed);
    assert_eq!(config.admission(Slot { weekday: 9, hour: 13 }), Admission::Allowed);
    let policy = config.policy();
    assert_eq!(policy.schedule, config.schedule);
    assert!(!policy.allows(Slot { weekday: 2, hour: 13 }));
    assert!(policy.allows(Slot { weekday: 3, hour: 13 }));
    config.silent_mode = true;
    assert_eq!(config.admission(Slot { weekday: 2, hour: 14 }), Admission::SilentMode);
    assert!(!config.policy().allows(Slot { weekday: 2, hour: 14 }));
    config.schedule = vec![vec![false]];
    config.silent_mode = false;
    assert_eq!(config.admission(Slot { weekday: 0, hour: 0 }), Admission::OutsideSchedule);
    assert_eq!(config.admission(Slot { weekday: 0, hour: 1 }), Admission::Allowed);
}

#[test]
fn config_names_and_addresses() {
    let mut config = WorkerConfig::default();
    assert_eq!(config.session_name("1b4e28ba-2fa1"), "Worker-1b4e");
    assert_eq!(config.session_name("1b"), "Worker-1b");
    assert_eq!(config.server_url(), "ws://127.0.0.1:3000/ws");
    assert!(!config.apply_overrides(None, None));
    assert!(config.apply_overrides(Some("Worker-7".to_string()), None));
    assert_eq!(config.session_name("1b4e28ba"), "Worker-7");
    assert!(config.apply_overrides(None, Some("ws://grid:9/ws".to_string())));
    assert_eq!(config.server_url(), "ws://grid:9/ws");
    assert_eq!(config.name, Some("Worker-7".to_string()));
    assert_eq!(session_url("ws://grid:9/ws", "Worker-7"), "ws://grid:9/ws?name=Worker-7");
}

#[test]
fn answers_name_their_job() {
    assert_eq!(job_id_in("Job 1b4e28ba-2fa1 queued"), Some("1b4e28ba-2fa1".to_string()));
    assert_eq!(job_id_in("  Job\t\n x  "), Some("x".to_string()));
    assert_eq!(job_id_in("Job \u{a0}\u{2003}é queued"), Some("é".to_string()));
    assert_eq!(job_id_in("Invalid JSON"), Some("JSON".to_string()));
    assert_eq!(job_id_in("Job"), None);
    assert_eq!(job_id_in("Job   "), None);
    assert_eq!(job_id_in(""), None);
    for text in ["Job a queued", " x", "a\u{85}b c", "one  two", "\u{3000}a\u{1680}b"] {
        assert_eq!(
            job_id_in(text),
            text.split_whitespace().nth(1).map(|s| s.to_string()),
            "{:?}",
            text
        );
    }
}

#[test]
fn clients_know_when_to_stop() {
    assert_eq!(verdict("job_update", "j", "completed", "j"), Verdict::Succeeded);
    assert_eq!(verdict("job_update", "j", "failed", "j"), Verdict::Failed);
    assert_eq!(verdict("job_update", "j", "processing", "j"), Verdict::Waiting);
    assert_eq!(verdict("job_update", "k", "completed", "j"), Verdict::Waiting);
    assert_eq!(verdict("other", "j", "completed", "j"), Verdict::Waiting);
    assert_eq!(listen_step(2, "completed"), (1, false));
    assert_eq!(listen_step(1, "failed"), (0, true));
    assert_eq!(listen_step(1, "pending"), (2, false));
    assert_eq!(listen_step(1, "processing"), (1, false));
    assert_eq!(listen_step(0, "processing"), (0, true));
    assert_eq!(listen_step(i64::MAX, "pending"), (i64::MAX, false));
    assert_eq!(listen_step(i64::MIN, "failed"), (i64::MIN, true));
    let tags = Some(vec!["#urgent".to_string(), "x".to_string()]);
    assert!(has_tag(&tags, "x"));
    assert!(!has_tag(&tags, "urgent"));
    assert!(!has_tag(&None, "x"));
}

#[test]
fn earnings_are_read_as_written() {
    assert_eq!(earnings_text("Earnings Update: 12.5"), Some("12.5".to_string()));
    assert_eq!(earnings_text("Earnings Update:  \t7 \n"), Some("7".to_string()));
    assert_eq!(earnings_text("Earnings Update: Earnings Update: 3"), Some("3".to_string()));
    assert_eq!(earnings_text("Earnings Update: "), Some("".to_string()));
    assert_eq!(earnings_text("Earnings Update:"), None);
    assert_eq!(earnings_text(" Earnings Update: 1"), None);
    for text in ["Earnings Update: 1.0 ", "Earnings Update: \u{a0}x\u{3000}", "Earnings Update: a b "] {
        assert_eq!(
            earnings_text(text),
            Some(text.trim_start_matches("Earnings Update: ").trim().to_string())
        );
    }
    assert_eq!(trim("  a b \n"), "a b");
    assert_eq!(trim(" \t "), "");
    assert_eq!(trim_prefix("ababa", "ab"), "a");
    assert_eq!(trim_prefix("ababa", ""), "ababa");
    assert_eq!(trim_prefix("aaa", "a"), "");
}

#[test]
fn only_the_recognition_takes_its_time() {
    let profile = get_active_profile();
    let two = vec!["a".to_string(), "b".to_string()];
    for cap in &profile {
        let secs = cap.simulated_seconds(&two);
        if cap.code() == "Lp" {
            assert!((120..=180).contains(&secs));
            assert_eq!(cap.simulated_seconds(&vec![]), 0);
        } else {
            assert_eq!(secs, 0);
        }
    }
}

#[test]
fn numbers_read_back() {
    for n in [0u64, 9, 10, 99, 100, 12345, u64::MAX - 1, u64::MAX] {
        assert_eq!(render_decimal(n), n.to_string());
        assert_eq!(parse_number(&render_decimal(n)), Some(n));
    }
}
