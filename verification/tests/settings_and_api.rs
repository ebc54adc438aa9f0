use std::time::{SystemTime, UNIX_EPOCH};

use towny_bot::api::claims::{timestamp_of_reading, Claims};
use towny_bot::api::handler::login::{
    check_login, login_at_reading, login_handler, LoginError, LoginInput,
};
use towny_bot::api::middleware::auth::{bearer_token, AuthError};
use towny_bot::app_config::{AppConfig, ConfigError, ConfigField};
use towny_bot::mojang::{is_success_status, skin_upload_error};

fn kv(k: &str, v: &str) -> (String, String) {
    (k.to_string(), v.to_string())
}

#[test]
fn later_settings_override_earlier_ones() {
    let settings = vec![
        kv("email", "a@b.c"),
        kv("server_uri", "play.example"),
        kv("server_port", "25565"),
        kv("mc_version", "1.21"),
        kv("server_port", "25566"),
        kv("sudo_player", "Admin"),
    ];
    let cfg = AppConfig::new(&settings).unwrap();
    assert_eq!(cfg.server_port, "25566");
    assert_eq!(cfg.sudo_player, Some("Admin".to_string()));
    assert_eq!(cfg.rust_log, None);
    assert_eq!(cfg.log_level(), "info");
    assert_eq!(cfg.auth_cache_path(), "info");
    assert_eq!(cfg.server_address(), "play.example:25566");
}

#[test]
fn the_first_missing_setting_is_reported() {
    let settings = vec![kv("mc_version", "1.21"), kv("server_uri", "x")];
    assert_eq!(
        AppConfig::new(&settings).err(),
        Some(ConfigError::MissingField(ConfigField::Email))
    );
    let settings = vec![kv("email", "e"), kv("server_uri", "x")];
    assert_eq!(
        AppConfig::new(&settings).err(),
        Some(ConfigError::MissingField(ConfigField::ServerPort))
    );
}

#[test]
fn bearer_token_is_read_from_the_header() {
    assert_eq!(bearer_token(&Some("Bearer abc.def".to_string())), Ok("abc.def".to_string()));
    assert_eq!(bearer_token(&Some("Basic abc".to_string())), Ok(String::new()));
    assert_eq!(bearer_token(&None), Err(AuthError::Unauthorized));
    assert_eq!(AuthError::Unauthorized.status(), 401);
}

#[test]
fn claims_expire_a_day_later() {
    let c = Claims::expiring("bob".to_string(), 1_000);
    assert_eq!(c.sub, "bob");
    assert_eq!(c.exp, 87_400);
}

#[test]
fn claims_made_now_expire_a_day_from_now() {
    let before = SystemTime::now().duration_since(UNIX_EPOCH).unwrap().as_secs() as usize;
    let c = Claims::new("bob".to_string()).unwrap();
    let after = SystemTime::now().duration_since(UNIX_EPOCH).unwrap().as_secs() as usize;
    assert!(before + 86_400 <= c.exp && c.exp <= after + 86_400);
}

#[test]
fn login_checks_both_credentials() {
    let user = "admin".to_string();
    let pass = "pw".to_string();
    let ok = check_login(&LoginInput::new("admin".into(), "pw".into()), &user, &pass, 10).unwrap();
    assert_eq!(ok.sub, "admin");
    assert_eq!(ok.exp, 86_410);
    let bad = check_login(&LoginInput::new("admin".into(), "nope".into()), &user, &pass, 10);
    assert_eq!(bad.err(), Some(LoginError::WrongCredentials));
    let bad = login_handler(&LoginInput::new("root".into(), "pw".into()), &user, &pass);
    assert_eq!(bad.err(), Some(LoginError::WrongCredentials));
    assert!(login_handler(&LoginInput::new("admin".into(), "pw".into()), &user, &pass).is_ok());
    assert_eq!(LoginError::WrongCredentials.message(), "Wrong username or password.");
    assert_eq!(LoginError::WrongCredentials.status(), 401);
}

#[test]
fn a_clock_before_1970_gives_no_session() {
    let user = "admin".to_string();
    let pass = "pw".to_string();
    let early = check_login(&LoginInput::new("admin".into(), "pw".into()), &user, &pass, -1);
    assert_eq!(early.err(), Some(LoginError::ClockUnreadable));
    let wrong = check_login(&LoginInput::new("eve".into(), "pw".into()), &user, &pass, -1);
    assert_eq!(wrong.err(), Some(LoginError::WrongCredentials));
    assert_eq!(LoginError::ClockUnreadable.status(), 500);
    assert_eq!(LoginError::ClockUnreadable.message(), "The server clock cannot be read.");
}

#[test]
fn skin_upload_answers() {
    assert!(is_success_status(200));
    assert!(is_success_status(299));
    assert!(!is_success_status(300));
    assert!(!is_success_status(404));
    assert_eq!(skin_upload_error("bad skin"), "skin upload failed: bad skin");
}

#[test]
fn clock_readings_give_their_seconds() {
    assert_eq!(timestamp_of_reading(Ok((1_700_000_000, 5))), Some(1_700_000_000));
    assert_eq!(timestamp_of_reading(Ok((0, 0))), Some(0));
    assert_eq!(timestamp_of_reading(Err((10, 0))), None);
    assert_eq!(timestamp_of_reading(Ok((u64::MAX, 0))), None);
    assert_eq!(timestamp_of_reading(Ok((1, 2_000_000_000))), None);
}

#[test]
fn sessions_expire_a_day_after_the_reading() {
    let c = Claims::at_reading("bob".to_string(), Ok((1_000, 0))).unwrap();
    assert_eq!((c.sub.as_str(), c.exp), ("bob", 87_400));
    assert!(Claims::at_reading("bob".to_string(), Err((1, 0))).is_none());
    let user = "admin".to_string();
    let pass = "pw".to_string();
    let input = LoginInput::new("admin".into(), "pw".into());
    let ok = login_at_reading(&input, &user, &pass, Ok((50, 0))).unwrap();
    assert_eq!(ok.exp, 86_450);
    assert_eq!(
        login_at_reading(&input, &user, &pass, Err((50, 0))).err(),
        Some(LoginError::ClockUnreadable)
    );
    let wrong = LoginInput::new("eve".into(), "pw".into());
    assert_eq!(
        login_at_reading(&wrong, &user, &pass, Ok((50, 0))).err(),
        Some(LoginError::WrongCredentials)
    );
}
