use aws_mfa::config::credentials::{ConfigFile, Credential};
use aws_mfa::config::mfa::Config;
use aws_mfa::config::{config_dir, config_file, credentials_path};
use aws_mfa::{
    profile_args, replace_mfa_credential, Credentials, Options, SessionTokens,
    DEFAULT_BACKUP_FILE, DEFAULT_DURATION, DEFAULT_MFA_PROFILE,
};

fn tokens() -> SessionTokens {
    SessionTokens {
        credentials: Credentials {
            access_key_id: "AKID".to_owned(),
            secret_access_key: "SECRET".to_owned(),
            session_token: "TOKEN".to_owned(),
            expiration: "2020-01-01T00:00:00Z".to_owned(),
        },
    }
}

fn empty_config() -> Config {
    Config {
        devices: vec![],
        backup_file: None,
        duration: None,
        mfa_profile: None,
    }
}

#[test]
fn session_tokens_become_a_section() {
    let cred = tokens().to_aws_credential("mfa");
    assert_eq!(cred.profile(), "mfa");
    assert_eq!(
        cred.to_string(),
        "[mfa]\naws_access_key_id=AKID\naws_secret_access_key=SECRET\naws_session_token=TOKEN"
    );
}

#[test]
fn replacing_the_mfa_section() {
    let file = ConfigFile::new(vec![
        Credential::new("mfa", &vec!["stale".to_owned()]),
        Credential::new("default", &vec!["k=v".to_owned()]),
    ]);
    let file = replace_mfa_credential(file, "mfa", &tokens());
    assert_eq!(
        file.to_string(),
        "[default]\nk=v\n\n[mfa]\naws_access_key_id=AKID\naws_secret_access_key=SECRET\naws_session_token=TOKEN"
    );
}

#[test]
fn options_fall_back_to_settings_then_defaults() {
    let config = empty_config();
    let options = Options::new(None, None, None, &config);
    assert_eq!(options.backup_file(), DEFAULT_BACKUP_FILE);
    assert_eq!(options.mfa_profile(), DEFAULT_MFA_PROFILE);
    assert_eq!(options.duration(), DEFAULT_DURATION);
    assert_eq!(options.duration(), "900");
    assert_eq!(options.mfa_profile(), "mfa");
    assert_eq!(options.backup_file(), "credentials_bk");

    let config = Config {
        devices: vec![],
        backup_file: Some("test_bk".to_owned()),
        duration: Some("1000".to_owned()),
        mfa_profile: Some("test_mfa".to_owned()),
    };
    let options = Options::new(None, Some("cli_mfa".to_owned()), None, &config);
    assert_eq!(options.backup_file(), "test_bk");
    assert_eq!(options.duration(), "1000");
    assert_eq!(options.mfa_profile(), "cli_mfa");
}

#[test]
fn profile_args_only_when_asked() {
    assert_eq!(profile_args(true, "dev"), vec!["--profile", "dev"]);
    assert!(profile_args(false, "default").is_empty());
}

#[test]
fn paths_under_the_config_dir() {
    assert_eq!(config_dir("/home/u"), "/home/u/.aws");
    assert_eq!(credentials_path("/home/u/.aws"), "/home/u/.aws/credentials");
    assert_eq!(config_file("/home/u/.aws/", "mfa.yml"), "/home/u/.aws/mfa.yml");
    assert_eq!(config_file("/home/u/.aws", "/tmp/bk"), "/tmp/bk");
    assert_eq!(config_file("", "bk"), "bk");
    let joined = std::path::Path::new("/home/u/.aws").join("credentials_bk");
    assert_eq!(config_file("/home/u/.aws", "credentials_bk"), joined.to_str().unwrap());
}
