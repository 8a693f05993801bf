use gmail_sender::{
    bearer_authorization, send_outcome, send_request_body, SendError, get_config_dir, get_config_path, get_data_dir, get_data_path,
    install_target, is_success_status, join_path, join_within, InstallError,
};

#[test]
fn config_dir_prefers_xdg_config_home() {
    assert_eq!(get_config_dir(Some("/xdg/config"), Some("/home/u")), "/xdg/config/gmail-sender");
    assert_eq!(get_config_dir(Some("/xdg/config/"), None), "/xdg/config/gmail-sender");
    assert_eq!(get_config_dir(None, Some("/home/u")), "/home/u/.config/gmail-sender");
    assert_eq!(get_config_dir(Some(""), None), "gmail-sender");
}

#[test]
fn data_dir_prefers_xdg_data_home() {
    assert_eq!(get_data_dir(Some("/xdg/data"), None), "/xdg/data/gmail-sender");
    assert_eq!(get_data_dir(None, Some("/home/u")), "/home/u/.local/share/gmail-sender");
}

#[test]
fn config_and_data_paths_join_the_file_name() {
    assert_eq!(
        get_config_path(None, Some("/home/u"), "client_secret.json"),
        "/home/u/.config/gmail-sender/client_secret.json"
    );
    assert_eq!(
        get_data_path(Some("/d"), Some("/home/u"), "token_cache.json"),
        "/d/gmail-sender/token_cache.json"
    );
    // A name starting with `/` still lands inside the directory.
    assert_eq!(get_data_path(Some("/d"), None, "/abs/token.json"), "/d/gmail-sender/abs/token.json");
    assert_eq!(get_config_path(Some("/c"), None, "/x"), "/c/gmail-sender/x");
    assert_eq!(get_config_path(Some("/c"), None, "//x"), "/c/gmail-sender/x");
}

#[test]
fn join_path_follows_unix_rules() {
    assert_eq!(join_path("a", "b"), "a/b");
    assert_eq!(join_path("a/", "b"), "a/b");
    assert_eq!(join_path("", "b"), "b");
    assert_eq!(join_path("a", "/b"), "/b");
    assert_eq!(join_path("a", ""), "a/");
}

#[test]
fn install_target_links_under_home_or_copies_to_usr_local() {
    let t = install_target(true, Some("/home/u"), "gmail-sender").unwrap();
    assert_eq!(t.dir, "/home/u/.local/bin");
    assert_eq!(t.path, "/home/u/.local/bin/gmail-sender");
    assert!(t.symlink);
    assert_eq!(install_target(true, None, "gmail-sender").unwrap_err(), InstallError::HomeNotSet);
    let t = install_target(false, None, "gmail-sender").unwrap();
    assert_eq!(t.dir, "/usr/local/bin");
    assert_eq!(t.path, "/usr/local/bin/gmail-sender");
    assert!(!t.symlink);
}

#[test]
fn bearer_header_and_success_statuses() {
    assert_eq!(bearer_authorization("abc.def"), "Bearer abc.def");
    assert!(is_success_status(200));
    assert!(is_success_status(299));
    assert!(!is_success_status(199));
    assert!(!is_success_status(300));
    assert!(!is_success_status(401));
}

#[test]
fn join_within_keeps_the_result_inside_the_directory() {
    assert_eq!(join_within("/base", "file"), "/base/file");
    assert_eq!(join_within("/base", "/file"), "/base/file");
    assert_eq!(join_within("/base/", "///a/b"), "/base/a/b");
    assert_eq!(join_within("/base", "/"), "/base/");
    assert_eq!(join_within("", "/x"), "x");
}

#[test]
fn request_body_is_the_message_json_with_url_safe_base64() {
    assert_eq!(
        send_request_body(Some(b"hi?>")),
        "{\"historyId\":null,\"id\":null,\"internalDate\":null,\"labelIds\":null,\
         \"payload\":null,\"raw\":\"aGk_Pg==\",\"sizeEstimate\":null,\"snippet\":null,\
         \"threadId\":null}"
    );
    assert_eq!(
        send_request_body(None),
        "{\"historyId\":null,\"id\":null,\"internalDate\":null,\"labelIds\":null,\
         \"payload\":null,\"raw\":null,\"sizeEstimate\":null,\"snippet\":null,\
         \"threadId\":null}"
    );
    assert!(send_request_body(Some(&[0xfb, 0xff])).contains("\"raw\":\"-_8=\""));
}

#[test]
fn send_outcome_reads_ids_or_reports_failure() {
    let ok = send_outcome(200, "200 OK", br#"{"id": "m1", "threadId": "t1", "labelIds": ["SENT"]}"#)
        .unwrap();
    assert_eq!(ok.id.as_deref(), Some("m1"));
    assert_eq!(ok.thread_id.as_deref(), Some("t1"));

    match send_outcome(403, "403 Forbidden", b"denied") {
        Err(SendError::RequestFailed(m)) => {
            assert_eq!(m, "Gmail API request failed with status 403 Forbidden: denied")
        }
        other => panic!("unexpected {:?}", other),
    }
    match send_outcome(500, "500 Internal Server Error", &[0x66, 0xff]) {
        Err(SendError::RequestFailed(m)) => assert!(m.ends_with(": f\u{fffd}")),
        other => panic!("unexpected {:?}", other),
    }
    assert!(matches!(send_outcome(200, "200 OK", b"not json"), Err(SendError::InvalidResponse(_))));
}
