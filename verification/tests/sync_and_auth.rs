use hehel_zip::auth::loopback::{
    check_state, exchange_url, finish_access_token, finish_query_state, login_succeeded, login_url, pkce_challenge, pkce_verifier_for, request_body, route,
    state_param_for, Route,
};
use hehel_zip::auth::session::{get_session_token, has_session, AuthSession};
use hehel_zip::error::AppError;
use hehel_zip::sync::{
    auth_header_text, bearer, body_reply, bulk_links_url, catalog_reply, check_project_set, check_sync_ready,
    fill_config_from_session, group_links_by_archive, links_url, manifest_reply, manifest_url, workflow_statuses_url,
    SyncConfig, SyncQueueItem,
};

fn config() -> SyncConfig {
    SyncConfig {
        enabled: true,
        api_base_url: "https://api.example/".to_string(),
        project_id: "p1".to_string(),
        heron_auth_url: String::new(),
        access_token: String::new(),
    }
}

fn session() -> AuthSession {
    AuthSession {
        session_token: "tok".to_string(),
        hcom_api_url: "https://hcom".to_string(),
        heron_auth_url: "https://heron".to_string(),
        expires_at: None,
    }
}

#[test]
fn endpoint_urls() {
    let c = config();
    assert_eq!(workflow_statuses_url(&c), "https://api.example/api/hehel/projects/p1/workflow-statuses");
    assert_eq!(bulk_links_url(&c), "https://api.example/api/hehel/projects/p1/archive-links/bulk");
    assert_eq!(manifest_url(&c, "a1"), "https://api.example/api/hehel/projects/p1/archives/a1/manifest");
    assert_eq!(links_url(&c, "a1"), "https://api.example/api/hehel/projects/p1/archive-links?archiveId=a1");
    assert_eq!(auth_header_text("t"), "Bearer t");
}

#[test]
fn bearer_prefers_configured_token() {
    let mut c = config();
    assert!(matches!(bearer(&c, None), Err(AppError::Sync(m)) if m == "Не выполнен вход. Войдите через Heron."));
    assert_eq!(bearer(&c, Some("s".to_string())).unwrap(), "s");
    c.access_token = "own".to_string();
    assert_eq!(bearer(&c, Some("s".to_string())).unwrap(), "own");
}

#[test]
fn config_filled_from_session() {
    let mut c = config();
    c.api_base_url = String::new();
    let filled = fill_config_from_session(c.clone(), Some(session()));
    assert_eq!(filled.api_base_url, "https://hcom");
    assert_eq!(filled.heron_auth_url, "https://heron");
    assert_eq!(filled.access_token, "tok");
    let unchanged = fill_config_from_session(config(), None);
    assert_eq!(unchanged.api_base_url, "https://api.example/");
    assert_eq!(get_session_token(Some(session())), Some("tok".to_string()));
    assert!(has_session(&Some(session())));
    assert!(!has_session(&None));
}

#[test]
fn sync_readiness() {
    assert!(check_sync_ready(&config()).is_ok());
    let mut c = config();
    c.enabled = false;
    assert!(matches!(check_sync_ready(&c), Err(AppError::Sync(m)) if m == "Синхронизация не настроена. Войдите и укажите projectId."));
    c.project_id = String::new();
    assert!(matches!(check_project_set(&c), Err(AppError::Sync(m)) if m == "Укажите projectId в настройках синхронизации"));
    assert!(check_project_set(&config()).is_ok());
}

fn item(archive: &str, entry: &str) -> SyncQueueItem {
    SyncQueueItem {
        id: 1,
        archive_id: archive.to_string(),
        entry_path: entry.to_string(),
        status_id: "local".to_string(),
        updated_at: String::new(),
    }
}

#[test]
fn links_grouped_by_archive_in_first_appearance_order() {
    let pending = vec![item("b", "1"), item("a", "2"), item("b", "3")];
    let remote = vec!["r1".to_string(), "r2".to_string(), "r3".to_string()];
    let groups = group_links_by_archive(&pending, &remote);
    assert_eq!(groups.len(), 2);
    assert_eq!(groups[0].0, "b");
    assert_eq!(groups[0].1.len(), 2);
    assert_eq!(groups[0].1[1].entry_path, "3");
    assert_eq!(groups[0].1[1].workflow_status_id, "r3");
    assert_eq!(groups[1].0, "a");
    assert_eq!(groups[1].1[0].workflow_status_id, "r2");
    assert!(group_links_by_archive(&[], &[]).is_empty());
}

#[test]
fn http_replies() {
    assert!(catalog_reply(200, "200 OK").is_ok());
    assert!(matches!(catalog_reply(401, "401 Unauthorized"), Err(AppError::Sync(m)) if m == "401 — войдите снова"));
    assert!(matches!(catalog_reply(500, "500 Internal Server Error"), Err(AppError::Sync(m)) if m == "catalog HTTP 500 Internal Server Error"));
    assert_eq!(manifest_reply(304, "304 Not Modified").unwrap(), false);
    assert_eq!(manifest_reply(200, "200 OK").unwrap(), true);
    assert!(matches!(manifest_reply(404, "404 Not Found"), Err(AppError::Sync(m)) if m == "manifest HTTP 404 Not Found"));
    assert!(body_reply("push HTTP: ", 204, "").is_ok());
    assert!(matches!(body_reply("push HTTP: ", 400, "bad"), Err(AppError::Sync(m)) if m == "push HTTP: bad"));
}

#[test]
fn login_urls() {
    let state = state_param_for(&[1, 2, 3, 250]);
    assert_eq!(state, "AQID-g");
    assert_eq!(
        login_url("https://heron/", 8123, "AQID-g", "E9Melhoa2OwvFrEMTJguCHaoeK1t8URWbuGJSstw-cM"),
        "https://heron/login?return_to=http%3A%2F%2F127.0.0.1%3A8123%2Fcallback%3Fstate%3DAQID-g&code_challenge=E9Melhoa2OwvFrEMTJguCHaoeK1t8URWbuGJSstw-cM&code_challenge_method=S256"
    );
    assert_eq!(exchange_url("https://hcom//"), "https://hcom/api/auth/heron/exchange");
}

#[test]
fn listener_routes_and_finishes() {
    assert!(matches!(route("GET /callback?state=x HTTP/1.1\r\nHost: a\r\n\r\n"), Route::Callback));
    assert!(matches!(route("POST /finish?state=x HTTP/1.1\r\n\r\n"), Route::Finish(t) if t == "/finish?state=x"));
    assert!(matches!(route("GET /other HTTP/1.1\r\n\r\n"), Route::NotFound));
    assert_eq!(finish_query_state("/finish?a=1&state=AQID").unwrap(), "AQID");
    assert!(matches!(finish_query_state("/finish?a=1"), Err(AppError::Auth(m)) if m == "missing state"));
    let state = [7u8; 32];
    let param = state_param_for(&state);
    assert!(check_state(&param, &state).is_ok());
    let mut other = state;
    other[31] = 8;
    assert!(matches!(check_state(&param, &other), Err(AppError::Auth(m)) if m == "state mismatch"));
    // the right bytes, but not the 32 a state has
    assert!(matches!(check_state("AQID", &[1, 2, 3]), Err(AppError::Auth(m)) if m == "state mismatch"));
    assert!(matches!(check_state("%%%", &[1]), Err(AppError::Auth(m)) if m == "bad state"));
    assert_eq!(request_body("POST /finish HTTP/1.1\r\nX: y\r\n\r\n{\"a\":1}"), "{\"a\":1}");
    let target = format!("/finish?state={param}");
    let req = format!("POST {target} HTTP/1.1\r\n\r\n{{\"accessToken\":\"T\"}}");
    assert_eq!(finish_access_token(&req, &target, &state).unwrap(), "T");
    let empty = format!("POST {target} HTTP/1.1\r\n\r\n{{}}");
    assert!(matches!(
        finish_access_token(&empty, &target, &state),
        Err(AppError::Auth(m)) if m == "missing accessToken"
    ));
    let ok = login_succeeded();
    assert!(ok.ok);
    assert_eq!(ok.message, "Вход выполнен");
}

#[test]
fn pkce_challenge_matches_the_rfc_example() {
    assert_eq!(
        pkce_challenge("dBjftJeZ4CVP-mB92K27uhbUJU1p1r_wW1gFWFOEjXk"),
        "E9Melhoa2OwvFrEMTJguCHaoeK1t8URWbuGJSstw-cM"
    );
    let verifier = pkce_verifier_for(&[7u8; 32]);
    assert_eq!(verifier.len(), 43);
    assert_ne!(pkce_challenge(&verifier), verifier);
}
