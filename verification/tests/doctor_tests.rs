use openkakao_cli::config::SafetyConfig;
use openkakao_cli::doctor::{
    app_bundle_check, app_bundle_from_plist_bytes, cache_db_check, doctor_checks, DoctorProbes, format_age, loco_booking_check, loco_write_check,
    local_db_check, process_check, recovery_check, rest_token_check, safety_check,
    saved_credentials_check, version_check, AppBundleProbe, BookingProbe, CacheDbProbe,
    CheckStatus, RecoveryState, SavedCredentialsProbe, TokenProbe,
};
use openkakao_cli::local_db::LocalDbStatus;

#[test]
fn age_labels() {
    assert_eq!(format_age(59), "59s ago");
    assert_eq!(format_age(60), "1m ago");
    assert_eq!(format_age(3599), "59m ago");
    assert_eq!(format_age(7200), "2h ago");
    assert_eq!(format_age(86400), "1d ago");
}

#[test]
fn cache_db_verdicts() {
    let c = cache_db_check(&CacheDbProbe::Found { size_bytes: 10 * 1024 + 5, age_secs: Some(90_000) });
    assert_eq!(c.status, CheckStatus::Warn);
    assert_eq!(c.detail, "10KB, modified 1d ago");
    let c = cache_db_check(&CacheDbProbe::Found { size_bytes: 0, age_secs: None });
    assert_eq!(c.status, CheckStatus::Pass);
    assert_eq!(c.detail, "0KB, modified unknown");
    assert_eq!(cache_db_check(&CacheDbProbe::Missing).status, CheckStatus::Fail);
}

#[test]
fn recovery_state_verdicts() {
    let calm = RecoveryState {
        consecutive_failures: 0,
        last_failure_kind: None,
        auth_cooldown_remaining_secs: None,
        cooldown_until: None,
        last_success_transport: Some("loco"),
        last_recovery_source: None,
    };
    let c = recovery_check(&calm);
    assert_eq!(c.status, CheckStatus::Pass);
    assert_eq!(c.detail, "failures=0, last_failure=none, auth_cooldown=none, last_success=loco via none");
    let hot = RecoveryState { auth_cooldown_remaining_secs: Some(5), ..calm };
    assert_eq!(recovery_check(&hot).status, CheckStatus::Warn);
}

#[test]
fn safety_guard_detail() {
    let c = safety_check(&SafetyConfig::default(), None);
    assert_eq!(c.status, CheckStatus::Pass);
    assert_eq!(
        c.detail,
        "send=10s, hook=2s, webhook=2s, hook_timeout=20s, webhook_timeout=10s, insecure_webhooks=blocked, last_guard=none"
    );
    assert_eq!(safety_check(&SafetyConfig::default(), Some("rate")).status, CheckStatus::Warn);
}

#[test]
fn app_and_process_verdicts() {
    let c = app_bundle_check(&AppBundleProbe::Read { version: Some("26.5.0".to_string()), bundle_id: None });
    assert_eq!(c.detail, "v26.5.0 (unknown)");
    assert_eq!(app_bundle_check(&AppBundleProbe::NotInstalled).status, CheckStatus::Fail);
    let p = process_check(Some("123\n456\n"));
    assert_eq!(p.detail, "Running (PID: 123, 456)");
    assert_eq!(process_check(None).status, CheckStatus::Warn);
}

#[test]
fn credential_and_token_verdicts() {
    let c = saved_credentials_check(&SavedCredentialsProbe::Loaded {
        user_id: 42,
        app_version: "26.5.0".to_string(),
        oauth_token: "abcdefghijklmnop".to_string(),
    });
    assert_eq!(c.detail, "user_id=42, version=26.5.0, token=abcdefgh...");
    assert_eq!(saved_credentials_check(&SavedCredentialsProbe::NoPath("x".to_string())).status, CheckStatus::Fail);
    let drift = version_check(Some("26.5.0"), Some("26.4.0")).unwrap();
    assert_eq!(drift.status, CheckStatus::Warn);
    assert_eq!(drift.name, "Version drift");
    assert_eq!(version_check(Some("1"), Some("1")).unwrap().status, CheckStatus::Pass);
    assert!(version_check(None, Some("1")).is_none());
    assert_eq!(rest_token_check(&TokenProbe::Valid(-7)).detail, "Valid (user_id=-7)");
    assert_eq!(rest_token_check(&TokenProbe::Rejected).status, CheckStatus::Fail);
}

#[test]
fn booking_detail_lists_hosts_and_ports() {
    let c = loco_booking_check(&BookingProbe::Answered {
        hosts: Some(vec!["a.kakao.com".to_string(), "b.kakao.com".to_string()]),
        ports: Some(vec![443, 5228]),
    });
    assert_eq!(c.detail, "hosts=[a.kakao.com, b.kakao.com], ports=[443, 5228]");
    let c = loco_booking_check(&BookingProbe::Answered { hosts: None, ports: Some(vec![]) });
    assert_eq!(c.detail, "hosts=[none], ports=[]");
}

#[test]
fn local_db_verdict_order() {
    let st = LocalDbStatus::from_probes(false, false, false, None, false);
    let c = local_db_check(&Ok(st));
    assert_eq!(c.status, CheckStatus::Fail);
    assert_eq!(c.detail, "KakaoTalk container directory not found");
    let st = LocalDbStatus::from_probes(true, true, true, Some("/db".to_string()), false);
    assert_eq!(local_db_check(&Ok(st)).detail, "File found but decryption failed. Path: /db");
    let st = LocalDbStatus::from_probes(true, true, true, Some("/db".to_string()), true);
    assert_eq!(local_db_check(&Ok(st)).status, CheckStatus::Pass);
    assert_eq!(local_db_check(&Err("boom".to_string())).detail, "Check failed: boom");
}

#[test]
fn loco_write_verdict() {
    assert_eq!(loco_write_check(false).status, CheckStatus::Pass);
    assert_eq!(loco_write_check(true).status, CheckStatus::Warn);
    assert_eq!(CheckStatus::Warn.label(), "warn");
    assert_eq!(CheckStatus::Fail.icon(), "FAIL");
}

fn info_plist(body: &str) -> Vec<u8> {
    format!(
        "<?xml version=\"1.0\" encoding=\"UTF-8\"?>\n<plist version=\"1.0\">\n<dict>\n{}</dict>\n</plist>\n",
        body
    )
    .into_bytes()
}

#[test]
fn app_bundle_read_from_info_plist_bytes() {
    let bytes = info_plist(
        "<key>CFBundleIdentifier</key>\n<string>com.kakao.KakaoTalkMac</string>\n\
         <key>CFBundleShortVersionString</key>\n<string>26.5.0</string>\n",
    );
    let p = app_bundle_from_plist_bytes(&bytes);
    assert_eq!(app_bundle_check(&p).detail, "v26.5.0 (com.kakao.KakaoTalkMac)");
    let no_version = info_plist("<key>CFBundleShortVersionString</key>\n<integer>3</integer>\n");
    assert_eq!(app_bundle_check(&app_bundle_from_plist_bytes(&no_version)).detail, "vunknown (unknown)");
    match app_bundle_from_plist_bytes(b"\x00\x01 not a plist") {
        AppBundleProbe::Unreadable(e) => assert!(!e.is_empty()),
        _ => panic!("expected an unreadable Info.plist"),
    }
}

fn probes(app: AppBundleProbe, creds: SavedCredentialsProbe, booking: Option<BookingProbe>) -> DoctorProbes<'static> {
    DoctorProbes {
        state_path: "/tmp/state.json",
        recovery: RecoveryState {
            consecutive_failures: 0,
            last_failure_kind: None,
            auth_cooldown_remaining_secs: None,
            cooldown_until: None,
            last_success_transport: None,
            last_recovery_source: None,
        },
        last_guard_reason: None,
        app,
        pgrep_stdout: None,
        cache_db: CacheDbProbe::Missing,
        saved_credentials: creds,
        rest_token: TokenProbe::Rejected,
        booking,
        local_db: Err("no home".to_string()),
    }
}

fn loaded(version: &str) -> SavedCredentialsProbe {
    SavedCredentialsProbe::Loaded {
        user_id: 1,
        app_version: version.to_string(),
        oauth_token: "abcdefghijklmnopqrstuvwxyz".to_string(),
    }
}

fn names(p: &DoctorProbes, safety: &SafetyConfig) -> Vec<String> {
    doctor_checks(p, safety).into_iter().map(|c| c.name).collect()
}

#[test]
fn doctor_report_order_and_optional_lines() {
    let safety = SafetyConfig::default();
    let app = || AppBundleProbe::Read { version: Some("26.5.0".to_string()), bundle_id: None };
    let base = [
        "State file",
        "Auth recovery state",
        "Safety guards",
        "KakaoTalk.app",
        "KakaoTalk process",
        "Cache.db",
        "Saved credentials",
    ];
    let tail = ["Local DB (SQLCipher)", "LOCO write operations", "Protocol constants"];

    let mut want: Vec<String> = base.iter().map(|s| s.to_string()).collect();
    want.push("REST API token".to_string());
    want.extend(tail.iter().map(|s| s.to_string()));
    assert_eq!(names(&probes(AppBundleProbe::NotInstalled, loaded("26.5.0"), None), &safety), want);

    let mut want: Vec<String> = base.iter().map(|s| s.to_string()).collect();
    want.push("Version match".to_string());
    want.push("REST API token".to_string());
    want.extend(tail.iter().map(|s| s.to_string()));
    assert_eq!(names(&probes(app(), loaded("26.5.0"), None), &safety), want);

    let mut want: Vec<String> = base.iter().map(|s| s.to_string()).collect();
    want.push("Version drift".to_string());
    want.push("REST API token".to_string());
    want.push("LOCO booking (GETCONF)".to_string());
    want.extend(tail.iter().map(|s| s.to_string()));
    let p = probes(app(), loaded("25.1.0"), Some(BookingProbe::NoCredentials));
    assert_eq!(names(&p, &safety), want);
    let checks = doctor_checks(&p, &safety);
    assert_eq!(checks[checks.len() - 2].status, CheckStatus::Pass);
}

#[test]
fn doctor_report_lines_carry_each_check() {
    let mut safety = SafetyConfig::default();
    safety.allow_loco_write = true;
    let mut p = probes(AppBundleProbe::NotInstalled, loaded("26.5.0"), None);
    p.recovery.consecutive_failures = 2;
    p.last_guard_reason = Some("rate");
    let checks = doctor_checks(&p, &safety);
    assert_eq!(checks[0].detail, "/tmp/state.json");
    assert_eq!(checks[1].status, CheckStatus::Warn);
    assert_eq!(checks[1].detail, "failures=2, last_failure=none, auth_cooldown=none, last_success=never via none");
    assert_eq!(checks[2].status, CheckStatus::Warn);
    assert_eq!(checks[6].detail, "user_id=1, version=26.5.0, token=abcdefgh...");
    assert_eq!(checks[8].status, CheckStatus::Warn);
    assert_eq!(checks[8].detail, "Check failed: no home");
    assert_eq!(checks[9].status, CheckStatus::Warn);
    assert!(checks[9].detail.starts_with("ENABLED"));

    let p = probes(
        AppBundleProbe::Read { version: None, bundle_id: None },
        loaded("26.5.0"),
        None,
    );
    let checks = doctor_checks(&p, &SafetyConfig::default());
    assert_eq!(checks[7].name, "Version drift");
    assert_eq!(checks[7].status, CheckStatus::Warn);
    assert_eq!(
        checks[7].detail,
        "Installed vunknown != saved v26.5.0. Run `relogin --fresh-xvc` to re-authenticate."
    );
}
