use aws_mfa::config::mfa::{get_device_arn, search_device_arn, Config, Device};

fn test_config() -> Config {
    Config {
        devices: vec![
            Device {
                profile: "tanaka".to_owned(),
                arn: "tanaka-device".to_owned(),
            },
            Device {
                profile: "suzuki".to_owned(),
                arn: "suzuki-device".to_owned(),
            },
        ],
        backup_file: None,
        duration: None,
        mfa_profile: None,
    }
}

#[test]
fn it_finds_device_arn_from_configs() {
    let result = search_device_arn("suzuki", &test_config());
    assert!(result.is_some());
    assert_eq!(result.unwrap(), "suzuki-device");
}

#[test]
fn it_returns_none_when_not_found_device_arn() {
    let result = search_device_arn("satoh", &test_config());
    assert!(result.is_none());
}

#[test]
fn first_matching_device_wins() {
    let mut config = test_config();
    config.devices.push(Device {
        profile: "tanaka".to_owned(),
        arn: "second".to_owned(),
    });
    assert_eq!(search_device_arn("tanaka", &config).unwrap(), "tanaka-device");
}

#[test]
fn get_device_arn_names_the_missing_profile() {
    assert_eq!(get_device_arn("tanaka", &test_config()).ok().unwrap(), "tanaka-device");
    match get_device_arn("satoh", &test_config()) {
        Ok(_) => panic!("no device serves satoh"),
        Err(e) => assert_eq!(e.profile, "satoh"),
    }
}
