use arenacoach::poster::{
    account_update_fields, body_outcome, card_image_outcome, host_reachable, login_fields,
    login_outcome, logout_outcome, post_outcome, require_token, retry_wait_ms, should_retry,
    unit_outcome, LoginData, LoginResponse, LoginUser, PostError,
};

fn http_status(error: &PostError) -> Option<u16> {
    match error {
        PostError::Http { status, .. } => Some(*status),
        _ => None,
    }
}

#[test]
fn retries_server_and_network_class_errors() {
    assert!(should_retry(&PostError::Http {
        status: 503,
        body: "busy".into(),
    }));
    assert!(should_retry(&PostError::Http {
        status: 429,
        body: "slow down".into(),
    }));
    assert!(!should_retry(&PostError::Http {
        status: 422,
        body: "bad match".into(),
    }));
    assert!(!should_retry(&PostError::Unauthenticated));
    assert!(!should_retry(&PostError::TwoFactor));
}

#[test]
fn network_errors_retry_encoding_errors_do_not() {
    assert!(should_retry(&PostError::Network("timeout".into())));
    assert!(!should_retry(&PostError::Encode("bad json".into())));
}

#[test]
fn backoff_doubles_for_three_repeats() {
    let busy = PostError::Http { status: 500, body: String::new() };
    assert_eq!(retry_wait_ms(&busy, 0), Some(1000));
    assert_eq!(retry_wait_ms(&busy, 1), Some(2000));
    assert_eq!(retry_wait_ms(&busy, 2), Some(4000));
    assert_eq!(retry_wait_ms(&busy, 3), None);
    assert_eq!(retry_wait_ms(&PostError::Unauthenticated, 0), None);
}

#[test]
fn error_messages() {
    assert_eq!(
        PostError::Http { status: 503, body: "busy".into() }.message(),
        "HTTP 503: busy"
    );
    assert_eq!(PostError::TwoFactor.message(), "two-factor authentication required");
    assert_eq!(PostError::Unauthenticated.message(), "not signed in");
    assert_eq!(PostError::Network("offline".into()).message(), "offline");
}

#[test]
fn missing_or_empty_token_is_unauthenticated() {
    assert!(matches!(require_token(None), Err(PostError::Unauthenticated)));
    assert!(matches!(require_token(Some("")), Err(PostError::Unauthenticated)));
    assert_eq!(require_token(Some("t")).unwrap(), "t");
}

#[test]
fn status_outcomes() {
    let ok = post_outcome(201, "created".into()).unwrap();
    assert_eq!((ok.status, ok.body.as_str()), (201, "created"));
    assert_eq!(http_status(&post_outcome(422, "bad".into()).unwrap_err()), Some(422));
    assert_eq!(body_outcome(200, "{}".into()).unwrap(), "{}");
    assert_eq!(http_status(&body_outcome(300, "moved".into()).unwrap_err()), Some(300));
    assert!(unit_outcome(204, String::new()).is_ok());
    assert!(unit_outcome(404, String::new()).is_err());
    assert!(logout_outcome(401, String::new()).is_ok());
    assert!(logout_outcome(200, String::new()).is_ok());
    assert_eq!(http_status(&logout_outcome(500, String::new()).unwrap_err()), Some(500));
    assert!(host_reachable(200));
    assert!(host_reachable(302));
    assert!(!host_reachable(404));
    assert!(!host_reachable(199));
}

#[test]
fn login_outcomes() {
    let session = LoginResponse {
        data: Some(LoginData {
            token: "tok".into(),
            user: LoginUser { id: 7, email: "p@x.com".into(), name: "P".into() },
        }),
        two_factor: None,
        message: None,
    };
    let ok = login_outcome(200, String::new(), session.clone()).unwrap();
    assert_eq!((ok.token.as_str(), ok.user_id, ok.email.as_str(), ok.name.as_str()), ("tok", 7, "p@x.com", "P"));
    let two_factor = LoginResponse { two_factor: Some(true), ..session.clone() };
    assert!(matches!(login_outcome(200, String::new(), two_factor), Err(PostError::TwoFactor)));
    let refused = LoginResponse { data: None, two_factor: None, message: Some("Wrong password".into()) };
    match login_outcome(422, "raw".into(), refused) {
        Err(PostError::Http { status, body }) => assert_eq!((status, body.as_str()), (422, "Wrong password")),
        _ => panic!("expected an HTTP error"),
    }
    let unreadable = LoginResponse { data: None, two_factor: None, message: None };
    match login_outcome(500, "raw".into(), unreadable) {
        Err(PostError::Http { status, body }) => assert_eq!((status, body.as_str()), (500, "raw")),
        _ => panic!("expected an HTTP error"),
    }
    match login_outcome(404, "nope".into(), session) {
        Err(PostError::Http { status, .. }) => assert_eq!(status, 404),
        _ => panic!("expected an HTTP error"),
    }
}

#[test]
fn request_fields_skip_empty_optional_values() {
    let fields = login_fields("e", "p", "d", Some(""), Some("r"));
    let names: Vec<&str> = fields.iter().map(|(k, _)| k.as_str()).collect();
    assert_eq!(names, vec!["email", "password", "device_name", "recovery_code"]);
    let fields = account_update_fields("n", "e", None, Some("new"), Some("new"));
    assert_eq!(
        fields,
        vec![
            ("name".to_string(), "n".to_string()),
            ("email".to_string(), "e".to_string()),
            ("password".to_string(), "new".to_string()),
            ("password_confirmation".to_string(), "new".to_string()),
        ]
    );
}

#[test]
fn card_image_outcomes() {
    assert_eq!(card_image_outcome(404, String::new(), None).unwrap(), None);
    assert_eq!(
        card_image_outcome(200, String::new(), Some("https://img".into())).unwrap().as_deref(),
        Some("https://img")
    );
    assert_eq!(card_image_outcome(200, String::new(), Some(String::new())).unwrap(), None);
    assert!(card_image_outcome(500, String::new(), None).is_err());
}
