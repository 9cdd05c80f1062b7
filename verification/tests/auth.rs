use ghss::auth::{
    access_token_url, device_code_request, device_code_url, device_poll_from_response,
    device_start_from_response, device_token_request, gh_spawn_error, gh_token_from_output,
    github_oauth_base, login_path_from_output, merge_paths, AuthError, DevicePoll,
};
use ghss::auth::{after_gh_token, after_saved_token, after_sign_in, LoadStep, TokenSource};
use ghss::json::{Json, JsonMap, JsonNumber};

fn conv(v: &serde_json::Value) -> Json {
    match v {
        serde_json::Value::Null => Json::Null,
        serde_json::Value::Bool(b) => Json::Bool(*b),
        serde_json::Value::Number(n) => Json::Number(if let Some(u) = n.as_u64() {
            JsonNumber::PosInt(u)
        } else if let Some(i) = n.as_i64() {
            JsonNumber::NegInt(i)
        } else {
            JsonNumber::Float(n.as_f64().unwrap().to_bits())
        }),
        serde_json::Value::String(s) => Json::Str(s.clone()),
        serde_json::Value::Array(a) => Json::Array(a.iter().map(conv).collect()),
        serde_json::Value::Object(o) => {
            let mut m = JsonMap::new();
            for (k, x) in o {
                m.insert(k.clone(), conv(x));
            }
            Json::Object(m)
        }
    }
}

fn j(text: &str) -> Json {
    conv(&serde_json::from_str(text).unwrap())
}

fn gh_message(e: AuthError) -> String {
    match e {
        AuthError::GhCli(m) => m,
        _ => panic!("expected a gh CLI error"),
    }
}

#[test]
fn merge_paths_puts_common_dirs_first_without_duplicates() {
    assert_eq!(
        merge_paths("/usr/bin:/home/u/.local/bin::/bin:/home/u/.local/bin"),
        "/opt/homebrew/bin:/usr/local/bin:/opt/local/bin:/usr/bin:/bin:/home/u/.local/bin"
    );
    assert_eq!(merge_paths(""), "/opt/homebrew/bin:/usr/local/bin:/opt/local/bin:/usr/bin:/bin");
}

#[test]
fn gh_token_is_trimmed_output() {
    assert_eq!(gh_token_from_output(true, b"  gho_abc\n", b"").ok(), Some("gho_abc".to_string()));
    let e = gh_token_from_output(true, b" \n", b"").err().unwrap();
    assert_eq!(gh_message(e), "gh devolvió un token vacío. Ejecuta «gh auth login».");
    let e = gh_token_from_output(false, b"", b"  not logged in \n").err().unwrap();
    assert_eq!(gh_message(e), "not logged in");
    let e = gh_token_from_output(false, b"gho_x", b"\t\n").err().unwrap();
    assert_eq!(gh_message(e), "gh no tiene una sesión activa. Ejecuta «gh auth login» en una terminal.");
}

// Bytes that are not UTF-8 are replaced, not dropped.
#[test]
fn gh_output_is_decoded_lossily() {
    let e = gh_token_from_output(false, b"", &[0x66, 0xff, 0x6f]).err().unwrap();
    assert_eq!(gh_message(e), "f\u{FFFD}o");
    assert_eq!(login_path_from_output(true, &[0x2f, 0x62, 0xc3]), Some("/b\u{FFFD}".to_string()));
}

#[test]
fn gh_spawn_errors() {
    assert_eq!(
        gh_message(gh_spawn_error(true, "ignored")),
        "no se encontró el binario «gh» en el PATH. Instala GitHub CLI (https://cli.github.com) o usa un token (PAT)."
    );
    assert_eq!(gh_message(gh_spawn_error(false, "permission denied")), "permission denied");
}

#[test]
fn login_shell_path_output() {
    assert_eq!(login_path_from_output(true, b"/usr/bin:/bin\n"), Some("/usr/bin:/bin".to_string()));
    assert_eq!(login_path_from_output(true, b"   "), None);
    assert_eq!(login_path_from_output(false, b"/usr/bin"), None);
}

#[test]
fn auth_error_messages() {
    assert_eq!(AuthError::GhCli("x".into()).message(), "gh CLI no disponible o sin sesión: x");
    assert_eq!(AuthError::Keyring("locked".into()).message(), "keychain: locked");
    assert_eq!(AuthError::Network("timeout".into()).message(), "red: timeout");
    assert_eq!(AuthError::Device("expired_token".into()).message(), "device flow: expired_token");
}

#[test]
fn device_flow_requests() {
    assert_eq!(github_oauth_base(), "https://github.com");
    assert_eq!(device_code_url("https://github.com"), "https://github.com/login/device/code");
    assert_eq!(access_token_url("http://127.0.0.1:9"), "http://127.0.0.1:9/login/oauth/access_token");
    assert_eq!(device_code_request("client123"), j(r#"{"client_id": "client123", "scope": "repo read:org"}"#));
    assert_eq!(
        device_token_request("client123", "dc1"),
        j(r#"{"client_id": "client123", "device_code": "dc1", "grant_type": "urn:ietf:params:oauth:grant-type:device_code"}"#)
    );
}

// The device flow: start, then a pending poll, then the token.
#[test]
fn device_flow_start_and_poll_answers() {
    let start = device_start_from_response(&j(r#"{
        "device_code": "dc1", "user_code": "ABCD-1234",
        "verification_uri": "https://github.com/login/device",
        "interval": 1, "expires_in": 900
    }"#)).ok().unwrap();
    assert_eq!(start.user_code, "ABCD-1234");
    assert_eq!(start.device_code, "dc1");
    assert_eq!(start.interval, 1);
    let pending = device_poll_from_response(&j(r#"{"error": "authorization_pending"}"#)).ok().unwrap();
    assert!(pending == DevicePoll::Pending);
    let done = device_poll_from_response(&j(r#"{"access_token": "gho_tok", "token_type": "bearer"}"#)).ok().unwrap();
    assert!(done == DevicePoll::Token("gho_tok".into()));
    assert!(done != DevicePoll::Token("other".into()));
    assert!(done != DevicePoll::Pending);
}

// The token never shows in what stands for a poll's answer.
#[test]
fn device_poll_text_hides_the_token() {
    assert_eq!(DevicePoll::Token("gho_secret".into()).redacted(), "DevicePoll::Token([REDACTED])");
    assert_eq!(DevicePoll::Pending.redacted(), "DevicePoll::Pending");
}

#[test]
fn device_start_defaults_and_errors() {
    let s = device_start_from_response(&j(r#"{"device_code": "d"}"#)).ok().unwrap();
    assert_eq!(s.user_code, "");
    assert_eq!(s.verification_uri, "https://github.com/login/device");
    assert_eq!(s.interval, 5);
    match device_start_from_response(&j(r#"{"device_code": ""}"#)) {
        Err(AuthError::Device(m)) => assert_eq!(m, "respuesta inválida de /login/device/code: falta device_code"),
        _ => panic!("expected a device flow error"),
    }
    assert!(device_start_from_response(&j(r#"{"error": "bad"}"#)).is_err());
}

#[test]
fn device_poll_errors() {
    assert!(matches!(device_poll_from_response(&j(r#"{"error": "slow_down"}"#)), Ok(DevicePoll::Pending)));
    match device_poll_from_response(&j(r#"{"error": "expired_token"}"#)) {
        Err(AuthError::Device(m)) => assert_eq!(m, "expired_token"),
        _ => panic!("expected a device flow error"),
    }
    match device_poll_from_response(&j(r#"{"access_token": 1}"#)) {
        Err(AuthError::Device(m)) => assert_eq!(m, "respuesta inesperada"),
        _ => panic!("expected a device flow error"),
    }
}

// Merging a merged PATH again changes nothing.
#[test]
fn merge_paths_twice_is_once() {
    for base in ["", "/usr/bin:/home/u/bin::/home/u/bin", "/a:/opt/homebrew/bin:/b"] {
        let once = merge_paths(base);
        assert_eq!(merge_paths(&once), once);
    }
}

// Signing in with what is kept: the saved token first; a saved token that fails is forgotten
// and gh is asked; a gh token that fails ends without a session.
#[test]
fn load_saved_steps() {
    assert!(matches!(after_saved_token(Some("ghp_x".into())), LoadStep::SignIn(t, TokenSource::Saved) if t == "ghp_x"));
    assert!(matches!(after_saved_token(None), LoadStep::AskGh));
    assert!(matches!(after_sign_in(TokenSource::Saved, true), LoadStep::Finish(true)));
    assert!(matches!(after_sign_in(TokenSource::Saved, false), LoadStep::ForgetSavedAndAskGh));
    assert!(matches!(after_sign_in(TokenSource::GhCli, false), LoadStep::Finish(false)));
    assert!(matches!(after_gh_token(Some("gho_y".into())), LoadStep::SignIn(t, TokenSource::GhCli) if t == "gho_y"));
    assert!(matches!(after_gh_token(None), LoadStep::Finish(false)));
}
