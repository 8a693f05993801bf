use gmail_sender::{
    client_secret_keys, JsonMember,
    check_permissions, classify_client_secret, configuration_ok, format_octal, init_directory_action,
    insecure_permissions_warning, judge_client_secret_text, path_state, ClientSecretKeys, ClientSecretState, CredentialKeys,
    DirectoryAction, PathState, SECURE_DIR_MODE, SECURE_FILE_MODE,
};

#[test]
fn check_permissions_compares_permission_bits_only() {
    assert_eq!(check_permissions(0o40700, 0o700), (true, 0o700));
    assert_eq!(check_permissions(0o100644, 0o600), (false, 0o644));
    assert_eq!(check_permissions(0o104755, 0o755), (true, 0o755));
    assert_eq!(check_permissions(0o600, SECURE_FILE_MODE), (true, 0o600));
}

#[test]
fn format_octal_matches_the_octal_format() {
    for n in [0u32, 7, 8, 0o600, 0o700, 0o755, 0o777, 12345, u32::MAX] {
        assert_eq!(format_octal(n), format!("{:o}", n));
    }
    assert_eq!(format_octal(0o644), "644");
}

#[test]
fn warning_lines_for_insecure_permissions() {
    let lines = insecure_permissions_warning(Some(0o100644), 0o600, "Token cache", "\"/t/c.json\"");
    assert_eq!(
        lines,
        vec![
            "\u{26a0} Warning: Token cache has insecure permissions (644, should be 600)".to_string(),
            "  Fix with: chmod 600 \"/t/c.json\"".to_string(),
        ]
    );
    assert!(insecure_permissions_warning(Some(0o40700), 0o700, "Config directory", "x").is_empty());
    assert!(insecure_permissions_warning(None, 0o700, "Config directory", "x").is_empty());
}

#[test]
fn path_state_judges_existence_and_mode() {
    assert!(matches!(path_state(false, None, 0o700), PathState::Missing));
    assert!(matches!(path_state(false, Some(0o40777), 0o700), PathState::Missing));
    assert!(matches!(path_state(true, None, 0o700), PathState::ModeUnknown));
    assert!(matches!(path_state(true, Some(0o40700), 0o700), PathState::Secure));
    assert!(matches!(
        path_state(true, Some(0o40755), 0o700),
        PathState::Insecure { mode: 0o755 }
    ));
}

#[test]
fn init_directory_action_creates_fixes_or_keeps() {
    assert_eq!(init_directory_action(false, None), DirectoryAction::Create);
    assert_eq!(init_directory_action(true, Some(0o40755)), DirectoryAction::FixPermissions);
    assert_eq!(init_directory_action(true, Some(0o40700)), DirectoryAction::Keep);
    assert_eq!(init_directory_action(true, None), DirectoryAction::Keep);
    assert_eq!(SECURE_DIR_MODE, 0o700);
}

fn keys(id: bool, secret: bool) -> Option<CredentialKeys> {
    Some(CredentialKeys { has_client_id: id, has_client_secret: secret })
}

#[test]
fn client_secret_needs_a_section_with_both_keys() {
    let c = |installed, web| classify_client_secret(&ClientSecretKeys { installed, web });
    assert!(matches!(c(keys(true, true), None), ClientSecretState::Valid));
    assert!(matches!(c(None, keys(true, true)), ClientSecretState::Valid));
    assert!(matches!(c(None, None), ClientSecretState::MissingSection));
    assert!(matches!(c(keys(true, false), None), ClientSecretState::MissingCredentials));
    assert!(matches!(c(keys(false, true), None), ClientSecretState::MissingCredentials));
    // The installed section is the one judged where both are present.
    assert!(matches!(c(keys(false, false), keys(true, true)), ClientSecretState::MissingCredentials));
    assert!(matches!(c(keys(true, true), keys(false, false)), ClientSecretState::Valid));
}

#[test]
fn configuration_ok_needs_both_directories_and_a_valid_secret() {
    let insecure = PathState::Insecure { mode: 0o755 };
    assert!(configuration_ok(&PathState::Secure, &insecure, &ClientSecretState::Valid));
    assert!(configuration_ok(&PathState::ModeUnknown, &PathState::Secure, &ClientSecretState::Valid));
    assert!(!configuration_ok(&PathState::Missing, &PathState::Secure, &ClientSecretState::Valid));
    assert!(!configuration_ok(&PathState::Secure, &PathState::Missing, &ClientSecretState::Valid));
    assert!(!configuration_ok(&PathState::Secure, &PathState::Secure, &ClientSecretState::NotFound));
    assert!(!configuration_ok(
        &PathState::Secure,
        &PathState::Secure,
        &ClientSecretState::InvalidJson("expected value".to_string())
    ));
}

#[test]
fn octal_text_reads_back_as_the_mode() {
    for n in [0u32, 1, 0o17, 0o600, 0o40755, 999_999, u32::MAX] {
        assert_eq!(u32::from_str_radix(&format_octal(n), 8).unwrap(), n);
    }
}

#[test]
fn secured_directory_is_settled() {
    let after_chmod = 0o40000 | SECURE_DIR_MODE;
    assert!(matches!(path_state(true, Some(after_chmod), SECURE_DIR_MODE), PathState::Secure));
    assert_eq!(init_directory_action(true, Some(after_chmod)), DirectoryAction::Keep);
}

#[test]
fn client_secret_text_is_parsed_then_judged() {
    let valid = r#"{"installed": {"client_id": "a", "client_secret": "b", "redirect_uris": []}}"#;
    assert!(matches!(judge_client_secret_text(valid), ClientSecretState::Valid));
    let web = r#"{"web": {"client_id": "a", "client_secret": null}}"#;
    assert!(matches!(judge_client_secret_text(web), ClientSecretState::Valid));
    let missing = r#"{"installed": {"client_id": "a"}}"#;
    assert!(matches!(judge_client_secret_text(missing), ClientSecretState::MissingCredentials));
    assert!(matches!(judge_client_secret_text("{}"), ClientSecretState::MissingSection));
    assert!(matches!(judge_client_secret_text("[1, 2]"), ClientSecretState::MissingSection));
    assert!(matches!(
        judge_client_secret_text(r#"{"installed": "text"}"#),
        ClientSecretState::MissingCredentials
    ));
    match judge_client_secret_text("{not json") {
        ClientSecretState::InvalidJson(message) => assert!(!message.is_empty()),
        other => panic!("expected invalid JSON, got {:?}", other),
    }
}

fn member(key: &str, keys: Option<&[&str]>) -> JsonMember {
    JsonMember {
        key: key.to_string(),
        member_keys: keys.map(|ks| ks.iter().map(|k| k.to_string()).collect()),
    }
}

#[test]
fn client_secret_keys_picks_the_sections() {
    let tree = Some(vec![
        member("installed", Some(&["client_id", "auth_uri"])),
        member("web", Some(&["client_id", "client_secret"])),
        member("other", None),
    ]);
    let keys = client_secret_keys(&tree);
    let installed = keys.installed.unwrap();
    assert!(installed.has_client_id && !installed.has_client_secret);
    let web = keys.web.unwrap();
    assert!(web.has_client_id && web.has_client_secret);

    let keys = client_secret_keys(&Some(vec![member("web", None)]));
    assert!(keys.installed.is_none());
    let web = keys.web.unwrap();
    assert!(!web.has_client_id && !web.has_client_secret);

    let keys = client_secret_keys(&None);
    assert!(keys.installed.is_none() && keys.web.is_none());
}
