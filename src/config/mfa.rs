//! The MFA settings: which MFA device serves which profile, and optional
//! defaults for the command line.
use vstd::prelude::*;
use vstd::string::StringExecFns;

verus! {

/// An MFA device and the profile it serves.
pub struct Device {
    pub profile: String,
    pub arn: String,
}

/// The MFA settings file.
pub struct Config {
    pub devices: Vec<Device>,
    pub backup_file: Option<String>,
    pub duration: Option<String>,
    pub mfa_profile: Option<String>,
}

/// Device `i` is the first one that serves `profile`.
pub open spec fn is_first_device(devices: Seq<Device>, profile: Seq<char>, i: int) -> bool {
    &&& 0 <= i < devices.len()
    &&& devices[i].profile@ == profile
    &&& forall|k: int| 0 <= k < i ==> devices[k].profile@ != profile
}

/// The ARN of the first device that serves `profile`, if any does.
pub open spec fn device_arn(devices: Seq<Device>, profile: Seq<char>) -> Option<Seq<char>> {
    if exists|i: int| is_first_device(devices, profile, i) {
        let i = choose|i: int| is_first_device(devices, profile, i);
        Some(devices[i].arn@)
    } else {
        None
    }
}

/// No device serves the profile that was asked for.
pub struct MissingDeviceArn {
    pub profile: String,
}

/// The ARN of the MFA device for `profile`, or the error that names the
/// profile when no device serves it.
pub fn get_device_arn(profile: &str, config: &Config) -> (r: Result<String, MissingDeviceArn>)
    ensures
        r matches Ok(arn) ==> device_arn(config.devices@, profile@) == Some(arn@),
        r matches Err(e) ==> device_arn(config.devices@, profile@) is None && e.profile@
            == profile@,
{
    match search_device_arn(profile, config) {
        Some(arn) => Ok(arn),
        None => Err(MissingDeviceArn { profile: String::from_str(profile) }),
    }
}

/// The ARN of the first device that serves `profile`, if any does.
pub fn search_device_arn(profile: &str, config: &Config) -> (r: Option<String>)
    ensures
        r matches Some(arn) ==> device_arn(config.devices@, profile@) == Some(arn@),
        r is None ==> device_arn(config.devices@, profile@) is None,
{
    let name = String::from_str(profile);
    let devices = &config.devices;
    let mut i: usize = 0;
    while i < devices.len()
        invariant
            name@ == profile@,
            devices == &config.devices,
            i <= devices@.len(),
            forall|k: int| 0 <= k < i ==> devices@[k].profile@ != profile@,
        decreases devices@.len() - i,
    {
        if devices[i].profile == name {
            proof {
                assert(is_first_device(devices@, profile@, i as int));
                assert forall|k: int| is_first_device(devices@, profile@, k) implies k == i by {
                    if k < i {
                        assert(devices@[k].profile@ != profile@);
                    }
                    if k > i {
                        assert(devices@[i as int].profile@ == profile@);
                    }
                }
            }
            return Some(devices[i].arn.clone());
        }
        i = i + 1;
    }
    None
}

} // verus!
