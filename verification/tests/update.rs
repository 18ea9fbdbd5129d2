use aur_update::platform::Platform;
use aur_update::update::{
    build_update_info, check_aur_update, check_status, log_lines, query_request,
    read_latest_version, select_version, Reply, UpdateError,
};

fn answered(status: u16, body: &str) -> Reply {
    Reply::Answered { status, body: body.as_bytes().to_vec() }
}

#[test]
fn no_result_is_not_found() {
    let reply = answered(200, r#"{"resultcount":0,"results":[]}"#);
    let outcome = check_aur_update(Platform::Linux, "1.4.0", &reply, Some("yay"));
    assert_eq!(outcome, Err(UpdateError::NotFound));
}

#[test]
fn server_error_is_an_api_error_with_its_status() {
    let reply = answered(500, "Internal Server Error");
    let outcome = check_aur_update(Platform::Linux, "1.4.0", &reply, None);
    assert_eq!(outcome, Err(UpdateError::Api { status: 500 }));
}

#[test]
fn newer_version_in_the_repository_is_an_update() {
    let reply = answered(200, r#"{"resultcount":1,"results":[{"Version":"1.5.0-2"}]}"#);
    let info = check_aur_update(Platform::Linux, "1.4.0", &reply, None).unwrap();
    assert!(info.has_update);
    assert_eq!(info.latest_version, "1.5.0-2");
    assert_eq!(info.current_version, "1.4.0");
    assert_eq!(info.source.as_deref(), Some("arch-aur"));
    assert_eq!(
        info.download_url.as_deref(),
        Some("https://aur.archlinux.org/packages/sealantern")
    );
    assert_eq!(info.sha256, None);
    assert_eq!(info.published_at, None);
    assert_eq!(
        info.release_notes.as_deref(),
        Some(
            "AUR 有可用更新\n\n当前版本: 1.4.0\n最新版本: 1.5.0-2\n\n使用以下命令更新:\nyay -Syu sealantern\n\n或使用其他 AUR 助手"
        )
    );
}

#[test]
fn helper_that_was_found_is_the_one_in_the_command() {
    let reply = answered(200, r#"{"resultcount":1,"results":[{"Version":"2.0-1"}]}"#);
    let info = check_aur_update(Platform::Linux, "1.0", &reply, Some("paru")).unwrap();
    let notes = info.release_notes.unwrap();
    assert!(notes.contains("paru -Syu sealantern"));
    assert!(!notes.contains("yay"));
    assert!(notes.contains("1.0"));
    assert!(notes.contains("2.0-1"));
}

#[test]
fn revisions_alone_make_no_update() {
    let reply = answered(200, r#"{"resultcount":1,"results":[{"Version":"1.2.0-3"}]}"#);
    let info = check_aur_update(Platform::Linux, "1.2.0-1", &reply, Some("yay")).unwrap();
    assert!(!info.has_update);
    assert_eq!(info.latest_version, "1.2.0-3");
    assert_eq!(info.current_version, "1.2.0-1");
    assert_eq!(
        info.release_notes.as_deref(),
        Some("已是最新版本 (Arch Linux)\n当前版本: 1.2.0-1")
    );
}

#[test]
fn greater_clean_version_is_an_update() {
    let info = build_update_info("1.2.0", "1.3.0-1", None);
    assert!(info.has_update);
    let info = build_update_info("1.3.0-1", "1.2.0", None);
    assert!(!info.has_update);
    let info = build_update_info("1.2", "1.2.0-7", None);
    assert!(!info.has_update);
}

#[test]
fn older_version_in_the_repository_is_no_update() {
    let reply = answered(200, r#"{"resultcount":1,"results":[{"Version":"1.3.9-1"}]}"#);
    let info = check_aur_update(Platform::Linux, "1.4.0", &reply, None).unwrap();
    assert!(!info.has_update);
    assert_eq!(info.latest_version, "1.3.9-1");
}

#[test]
fn same_answers_give_the_same_outcome() {
    let reply = answered(200, r#"{"resultcount":1,"results":[{"Version":"1.5.0-2"}]}"#);
    let first = check_aur_update(Platform::Linux, "1.4.0", &reply, Some("trizen"));
    let second = check_aur_update(Platform::Linux, "1.4.0", &reply, Some("trizen"));
    assert_eq!(first, second);
    let failed = Reply::Failed { cause: "timed out".to_string() };
    assert_eq!(
        check_aur_update(Platform::Linux, "1.4.0", &failed, None),
        check_aur_update(Platform::Linux, "1.4.0", &failed, None)
    );
}

#[test]
fn other_platforms_are_refused_before_anything_else() {
    let reply = answered(200, r#"{"resultcount":1,"results":[{"Version":"1.5.0-2"}]}"#);
    assert_eq!(
        check_aur_update(Platform::Other, "1.4.0", &reply, Some("yay")),
        Err(UpdateError::UnsupportedPlatform)
    );
    let failed = Reply::Failed { cause: "no route".to_string() };
    assert_eq!(
        check_aur_update(Platform::Other, "1.4.0", &failed, None),
        Err(UpdateError::UnsupportedPlatform)
    );
    assert_eq!(query_request(Platform::Other), Err(UpdateError::UnsupportedPlatform));
}

#[test]
fn request_names_the_endpoint_and_the_client() {
    let request = query_request(Platform::Linux).unwrap();
    assert_eq!(request.url, "https://aur.archlinux.org/rpc/v5/info/sealantern");
    assert_eq!(request.user_agent, "SeaLantern");
}

#[test]
fn failed_request_is_a_network_error_with_its_cause() {
    let failed = Reply::Failed { cause: "connection refused".to_string() };
    assert_eq!(
        check_aur_update(Platform::Linux, "1.4.0", &failed, None),
        Err(UpdateError::Network { cause: "connection refused".to_string() })
    );
}

#[test]
fn only_statuses_from_200_to_299_are_accepted() {
    assert_eq!(check_status(200), Ok(()));
    assert_eq!(check_status(204), Ok(()));
    assert_eq!(check_status(299), Ok(()));
    assert_eq!(check_status(199), Err(UpdateError::Api { status: 199 }));
    assert_eq!(check_status(300), Err(UpdateError::Api { status: 300 }));
    assert_eq!(check_status(404), Err(UpdateError::Api { status: 404 }));
    assert_eq!(check_status(0), Err(UpdateError::Api { status: 0 }));
    assert_eq!(check_status(u16::MAX), Err(UpdateError::Api { status: u16::MAX }));
}

#[test]
fn status_is_checked_before_the_body() {
    let reply = answered(404, r#"{"resultcount":1,"results":[{"Version":"1.5.0-2"}]}"#);
    assert_eq!(
        check_aur_update(Platform::Linux, "1.4.0", &reply, None),
        Err(UpdateError::Api { status: 404 })
    );
}

#[test]
fn body_that_is_no_json_is_a_parse_error() {
    for body in ["", "not json", "{", r#"{"resultcount":1"#, r#"{"resultcount":1} x"#] {
        let outcome = read_latest_version(body.as_bytes());
        assert!(matches!(outcome, Err(UpdateError::Parse { .. })), "{body}");
    }
    let outcome = check_aur_update(Platform::Linux, "1.0", &answered(200, "<html>"), None);
    assert!(matches!(outcome, Err(UpdateError::Parse { .. })));
    assert!(matches!(
        read_latest_version(&[0xff, 0xfe]),
        Err(UpdateError::Parse { .. })
    ));
}

#[test]
fn parse_error_carries_the_text_of_the_parser() {
    let expected = serde_json::from_str::<serde_json::Value>("{").unwrap_err().to_string();
    assert_eq!(
        read_latest_version(b"{"),
        Err(UpdateError::Parse { cause: expected })
    );
}

#[test]
fn count_that_is_no_positive_integer_is_not_found() {
    for body in [
        r#"{}"#,
        r#"[]"#,
        r#"null"#,
        r#"{"resultcount":0,"results":[{"Version":"1.0"}]}"#,
        r#"{"resultcount":-1,"results":[{"Version":"1.0"}]}"#,
        r#"{"resultcount":1.0,"results":[{"Version":"1.0"}]}"#,
        r#"{"resultcount":"1","results":[{"Version":"1.0"}]}"#,
        r#"{"resultcount":null,"results":[{"Version":"1.0"}]}"#,
        r#"{"resultcount":18446744073709551616,"results":[{"Version":"1.0"}]}"#,
        r#"{"Resultcount":1,"results":[{"Version":"1.0"}]}"#,
    ] {
        assert_eq!(read_latest_version(body.as_bytes()), Err(UpdateError::NotFound), "{body}");
    }
}

#[test]
fn version_is_that_of_the_first_result() {
    let body = r#"{"resultcount":2,"results":[{"Version":"3.1-1","Name":"a"},{"Version":"9.9-9"}],"type":"multiinfo"}"#;
    assert_eq!(read_latest_version(body.as_bytes()), Ok("3.1-1".to_string()));
    let body = r#"{"resultcount":18446744073709551615,"results":[{"Version":"版本"}]}"#;
    assert_eq!(read_latest_version(body.as_bytes()), Ok("版本".to_string()));
}

#[test]
fn missing_version_is_the_empty_version() {
    for body in [
        r#"{"resultcount":1}"#,
        r#"{"resultcount":1,"results":[]}"#,
        r#"{"resultcount":1,"results":{}}"#,
        r#"{"resultcount":1,"results":[{}]}"#,
        r#"{"resultcount":1,"results":[{"version":"1.0"}]}"#,
        r#"{"resultcount":1,"results":[{"Version":1}]}"#,
        r#"{"resultcount":1,"results":[{"Version":null}]}"#,
        r#"{"resultcount":1,"results":["1.0"]}"#,
    ] {
        assert_eq!(read_latest_version(body.as_bytes()), Ok(String::new()), "{body}");
    }
    let reply = answered(200, r#"{"resultcount":1,"results":[{}]}"#);
    let info = check_aur_update(Platform::Linux, "1.4.0", &reply, None).unwrap();
    assert!(!info.has_update);
    assert_eq!(info.latest_version, "");
}

#[test]
fn version_is_selected_from_count_and_first_version() {
    assert_eq!(select_version(None, Some("1.0")), Err(UpdateError::NotFound));
    assert_eq!(select_version(Some(0), Some("1.0")), Err(UpdateError::NotFound));
    assert_eq!(select_version(None, None), Err(UpdateError::NotFound));
    assert_eq!(select_version(Some(1), Some("1.0-1")), Ok("1.0-1".to_string()));
    assert_eq!(select_version(Some(7), None), Ok(String::new()));
}

#[test]
fn errors_have_their_messages() {
    assert_eq!(
        UpdateError::UnsupportedPlatform.message(),
        "AUR update check is only available on Linux"
    );
    assert_eq!(
        UpdateError::Network { cause: "timed out".to_string() }.message(),
        "AUR查询失败: timed out"
    );
    assert_eq!(UpdateError::Api { status: 500 }.message(), "AUR API返回错误: 500");
    assert_eq!(UpdateError::Api { status: 0 }.message(), "AUR API返回错误: 0");
    assert_eq!(
        UpdateError::Parse { cause: "expected value".to_string() }.message(),
        "解析AUR响应失败: expected value"
    );
    assert_eq!(UpdateError::NotFound.message(), "AUR中未找到sealantern包");
}

#[test]
fn log_records_flag_channel_and_version() {
    let info = build_update_info("1.4.0", "1.5.0-2", None);
    assert_eq!(
        log_lines(&info),
        vec![
            "=== AUR 检查结果 ===".to_string(),
            "has_update: true".to_string(),
            "source: arch-aur".to_string(),
            "latest_version: 1.5.0-2".to_string(),
        ]
    );
    let info = build_update_info("1.5.0", "1.5.0-2", Some("paru"));
    assert_eq!(log_lines(&info)[1], "has_update: false");
}
