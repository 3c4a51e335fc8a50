use aws_mfa::config::credentials::{capture_profile, ConfigFile, Credential};

fn configfile() -> ConfigFile {
    ConfigFile::new(vec![
        Credential::new("tanaka", &vec!["foo".to_owned(), "bar".to_owned()]),
        Credential::new("suzuki", &vec!["foobar".to_owned(), "barbaz".to_owned()]),
    ])
}

fn names(config: &ConfigFile) -> Vec<String> {
    config.credentials().iter().map(|c| c.profile().to_owned()).collect()
}

const SAMPLE: &str = "[tanaka]
aws_access_key_id=ABCDEFGHIJKLMNOPQRST
aws_secret_access_key=abcdefghijklmnopqrstuvwxyz+-#$1234567890
[suzuki]
xxxxxxxxxxxxxxxx
yyyyyyyyyyyy
";

#[test]
fn it_gets_configfile_from_text() {
    let config = ConfigFile::from_text(SAMPLE);
    let credentials = config.credentials();
    assert_eq!(credentials.len(), 2);

    let cred = credentials.get(0).unwrap();
    assert_eq!(cred.profile(), "tanaka");
    assert_eq!(
        *cred.lines(),
        vec![
            "aws_access_key_id=ABCDEFGHIJKLMNOPQRST",
            "aws_secret_access_key=abcdefghijklmnopqrstuvwxyz+-#$1234567890",
        ]
    );

    let cred = credentials.get(1).unwrap();
    assert_eq!(cred.profile(), "suzuki");
    assert_eq!(*cred.lines(), vec!["xxxxxxxxxxxxxxxx", "yyyyyyyyyyyy"]);
}

#[test]
fn it_gets_configfile_from_lines() {
    let lines: Vec<String> = SAMPLE.lines().map(|l| l.to_owned()).collect();
    let config = ConfigFile::from_lines(&lines);
    assert_eq!(names(&config), vec!["tanaka", "suzuki"]);
    assert_eq!(config.credentials()[1].lines().len(), 2);
}

#[test]
fn it_remove_credential_when_found_profile() {
    let config = configfile();
    let config = config.remove_credential("tanaka");
    let credentials = config.credentials();
    assert_eq!(credentials.len(), 1);

    let cred = credentials.get(0).unwrap();
    assert_eq!(cred.profile(), "suzuki");
    assert_eq!(*cred.lines(), vec!["foobar", "barbaz"]);
}

#[test]
fn it_does_not_remove_credential_when_not_found_profile() {
    let config = configfile();
    let config = config.remove_credential("satoh");
    assert_eq!(config.credentials().len(), 2);
}

#[test]
fn it_sets_credential() {
    let config = configfile();
    let cred = Credential::new("satoh", &vec!["foobarbaz".to_owned()]);
    let config = config.set_credential(cred);
    assert_eq!(config.credentials().len(), 3);
}

#[test]
fn it_returns_string() {
    let cred = Credential::new("tanaka", &vec!["foo".to_owned(), "bar".to_owned()]);
    assert_eq!(cred.to_string(), "[tanaka]\nfoo\nbar");
}

#[test]
fn it_returns_none_when_not_match_regexp() {
    assert!(capture_profile("").is_none());
}

#[test]
fn it_returns_profile_from_captures() {
    assert_eq!(capture_profile("[tanaka]").unwrap(), "tanaka");
}

#[test]
fn header_capture_is_greedy() {
    assert_eq!(capture_profile("x[a]b]y").unwrap(), "a]b");
    assert_eq!(capture_profile("[a][b]").unwrap(), "a][b");
    assert_eq!(capture_profile("key=[v]").unwrap(), "v");
    assert_eq!(capture_profile("]x[").is_none(), true);
    assert!(capture_profile("[]").is_none());
    assert!(capture_profile("[").is_none());
    assert!(capture_profile("no brackets").is_none());
    assert_eq!(capture_profile("[]]").unwrap(), "]");
}

#[test]
fn body_line_with_brackets_starts_a_section() {
    let config = ConfigFile::from_text("[a]\nk=[v]\nx=1\n");
    assert_eq!(names(&config), vec!["a", "v"]);
    assert!(config.credentials()[0].lines().is_empty());
    assert_eq!(*config.credentials()[1].lines(), vec!["x=1"]);
}

#[test]
fn single_record_file_text() {
    let config = ConfigFile::new(vec![Credential::new(
        "tanaka",
        &vec!["foo".to_owned(), "bar".to_owned()],
    )]);
    assert_eq!(config.to_string(), "[tanaka]\nfoo\nbar");
}

#[test]
fn file_text_separates_sections_by_an_empty_line() {
    let config = ConfigFile::new(vec![
        Credential::new("tanaka", &vec!["foobarbaz".to_owned()]),
        Credential::new("takahashi", &vec!["foo".to_owned(), "bar".to_owned()]),
        Credential::new("saito", &vec![]),
    ]);
    assert_eq!(
        config.to_string(),
        "[tanaka]\nfoobarbaz\n\n[takahashi]\nfoo\nbar\n\n[saito]\n"
    );
}

#[test]
fn empty_body_is_a_bare_header_line() {
    let cred = Credential::new("saito", &vec![]);
    assert_eq!(cred.to_string(), "[saito]\n");
    let config = ConfigFile::new(vec![
        Credential::new("saito", &vec![]),
        Credential::new("tanaka", &vec!["foo".to_owned()]),
    ]);
    assert_eq!(config.to_string(), "[saito]\n\n\n[tanaka]\nfoo");
}

#[test]
fn empty_file_text() {
    assert_eq!(ConfigFile::new(vec![]).to_string(), "");
    assert!(ConfigFile::from_text("").credentials().is_empty());
    assert!(ConfigFile::from_text("\n\n\n").credentials().is_empty());
}

#[test]
fn text_round_trips() {
    let config = ConfigFile::new(vec![
        Credential::new("tanaka", &vec!["foobarbaz".to_owned(), " spaced ".to_owned()]),
        Credential::new("saito", &vec![]),
        Credential::new("tanaka", &vec!["a=b".to_owned()]),
        Credential::new("x]y", &vec!["z".to_owned()]),
    ]);
    let text = config.to_string();
    let back = ConfigFile::from_text(&text);
    assert_eq!(names(&back), vec!["tanaka", "saito", "tanaka", "x]y"]);
    for (a, b) in config.credentials().iter().zip(back.credentials().iter()) {
        assert_eq!(a.lines(), b.lines());
    }
    assert_eq!(back.to_string(), text);
}

#[test]
fn leading_lines_are_dropped() {
    let config = ConfigFile::from_text("orphan=1\nmore\n\n[tanaka]\nfoo\n");
    assert_eq!(names(&config), vec!["tanaka"]);
    assert_eq!(*config.credentials()[0].lines(), vec!["foo"]);
    assert!(ConfigFile::from_text("orphan=1\nmore\n").credentials().is_empty());
}

#[test]
fn empty_lines_are_skipped_and_crlf_is_a_line_end() {
    let config = ConfigFile::from_text("\r\n[a]\r\n\r\nk=1\r\n\n \n[b]\nlast\r");
    assert_eq!(names(&config), vec!["a", "b"]);
    assert_eq!(*config.credentials()[0].lines(), vec!["k=1", " "]);
    assert_eq!(*config.credentials()[1].lines(), vec!["last\r"]);
}

#[test]
fn remove_twice_is_remove_once() {
    let config = ConfigFile::new(vec![
        Credential::new("a", &vec!["1".to_owned()]),
        Credential::new("b", &vec!["2".to_owned()]),
        Credential::new("a", &vec!["3".to_owned()]),
    ]);
    let once = config.remove_credential("a");
    let once_text = once.to_string();
    let twice = once.remove_credential("a");
    assert_eq!(twice.to_string(), once_text);
    assert_eq!(once_text, "[b]\n2");
}

#[test]
fn remove_keeps_order_of_others() {
    let config = ConfigFile::new(vec![
        Credential::new("c", &vec![]),
        Credential::new("a", &vec![]),
        Credential::new("b", &vec![]),
        Credential::new("a", &vec![]),
        Credential::new("d", &vec![]),
    ]);
    assert_eq!(names(&config.remove_credential("a")), vec!["c", "b", "d"]);
}

#[test]
fn append_then_remove_same_name() {
    let config = ConfigFile::new(vec![
        Credential::new("mfa", &vec!["old".to_owned()]),
        Credential::new("b", &vec![]),
    ]);
    let config = config
        .set_credential(Credential::new("mfa", &vec!["new".to_owned()]))
        .remove_credential("mfa");
    assert_eq!(names(&config), vec!["b"]);
}

#[test]
fn carriage_return_on_the_last_line_round_trips() {
    let config = ConfigFile::new(vec![
        Credential::new("a", &vec!["x".to_owned()]),
        Credential::new("b", &vec!["y\r".to_owned()]),
    ]);
    let text = config.to_string();
    assert_eq!(text, "[a]\nx\n\n[b]\ny\r");
    let back = ConfigFile::from_text(&text);
    assert_eq!(*back.credentials()[1].lines(), vec!["y\r"]);
    assert_eq!(back.to_string(), text);
}
