//! Keeps temporary MFA session credentials in an AWS-style credentials file:
//! the file's sections are read from text, the MFA profile's section is
//! replaced by one built from a session token, and the file is written back.
use vstd::prelude::*;
use crate::config::credentials::{without, ConfigFile, Credential, CredentialView};
use crate::config::mfa::Config;
use vstd::string::StringExecFns;

pub mod config;
pub mod text;

verus! {

/// The profile whose section receives the session credentials, unless set otherwise.
pub const DEFAULT_MFA_PROFILE: &'static str = "mfa";

/// How long the session lasts, in seconds, unless set otherwise.
pub const DEFAULT_DURATION: &'static str = "900";

/// The file that keeps a copy of the credentials file, unless set otherwise.
pub const DEFAULT_BACKUP_FILE: &'static str = "credentials_bk";

/// The temporary credentials of a session.
pub struct Credentials {
    pub access_key_id: String,
    pub secret_access_key: String,
    pub session_token: String,
    pub expiration: String,
}

/// A session token as the token service returns it.
pub struct SessionTokens {
    pub credentials: Credentials,
}

/// The body lines of the section that holds session credentials.
pub open spec fn session_lines(c: Credentials) -> Seq<Seq<char>> {
    seq![
        "aws_access_key_id="@ + c.access_key_id@,
        "aws_secret_access_key="@ + c.secret_access_key@,
        "aws_session_token="@ + c.session_token@,
    ]
}

/// `prefix` followed by `value`.
fn assignment(prefix: &str, value: &String) -> (r: String)
    ensures
        r@ == prefix@ + value@,
{
    let mut line = String::from_str(prefix);
    line.append(value.as_str());
    line
}

impl SessionTokens {
    /// The credentials-file section `profile` that holds this session's key
    /// id, secret key and session token.
    pub fn to_aws_credential(&self, profile: &str) -> (r: Credential)
        requires
            profile@.len() > 0,
        ensures
            r@ == (CredentialView { profile: profile@, lines: session_lines(self.credentials) }),
    {
        let c = &self.credentials;
        let lines = vec![
            assignment("aws_access_key_id=", &c.access_key_id),
            assignment("aws_secret_access_key=", &c.secret_access_key),
            assignment("aws_session_token=", &c.session_token),
        ];
        let r = Credential::new(profile, lines.as_slice());
        assert(crate::text::views(lines@) =~= session_lines(self.credentials));
        r
    }
}

/// `file` with the section `mfa_profile` replaced by the session credentials
/// of `tokens`: every section of that name is removed, and the new section is
/// appended after the others.
pub fn replace_mfa_credential(file: ConfigFile, mfa_profile: &str, tokens: &SessionTokens) -> (r:
    ConfigFile)
    requires
        mfa_profile@.len() > 0,
    ensures
        r@ == without(file@, mfa_profile@).push(
            CredentialView { profile: mfa_profile@, lines: session_lines(tokens.credentials) },
        ),
{
    let cred = tokens.to_aws_credential(mfa_profile);
    file.remove_credential(mfa_profile).set_credential(cred)
}

/// The value given on the command line, else the one of the settings file,
/// else `default`.
pub open spec fn chosen(given: Option<String>, configured: Option<String>, default: Seq<char>) -> Seq<
    char,
> {
    match given {
        Some(v) => v@,
        None => match configured {
            Some(v) => v@,
            None => default,
        },
    }
}

fn choose_value(given: &Option<String>, configured: &Option<String>, default: &str) -> (r: String)
    ensures
        r@ == chosen(*given, *configured, default@),
{
    match given {
        Some(v) => v.clone(),
        None => match configured {
            Some(v) => v.clone(),
            None => String::from_str(default),
        },
    }
}

/// The options of a run: the values given on the command line, over the
/// MFA settings file.
pub struct Options<'a> {
    pub backup_file: Option<String>,
    pub mfa_profile: Option<String>,
    pub duration: Option<String>,
    pub config: &'a Config,
}

impl<'a> Options<'a> {
    /// The options with the command-line values `backup_file`,
    /// `mfa_profile` and `duration` (`None` where not given) over `config`.
    pub fn new(
        backup_file: Option<String>,
        mfa_profile: Option<String>,
        duration: Option<String>,
        config: &'a Config,
    ) -> (r: Self)
        ensures
            r.backup_file == backup_file,
            r.mfa_profile == mfa_profile,
            r.duration == duration,
            r.config == config,
    {
        Options { backup_file, mfa_profile, duration, config }
    }

    /// The name of the backup file.
    pub fn backup_file(&self) -> (r: String)
        ensures
            r@ == chosen(self.backup_file, self.config.backup_file, DEFAULT_BACKUP_FILE@),
    {
        choose_value(&self.backup_file, &self.config.backup_file, DEFAULT_BACKUP_FILE)
    }

    /// The profile whose section receives the session credentials.
    pub fn mfa_profile(&self) -> (r: String)
        ensures
            r@ == chosen(self.mfa_profile, self.config.mfa_profile, DEFAULT_MFA_PROFILE@),
    {
        choose_value(&self.mfa_profile, &self.config.mfa_profile, DEFAULT_MFA_PROFILE)
    }

    /// The session's duration in seconds, as text.
    pub fn duration(&self) -> (r: String)
        ensures
            r@ == chosen(self.duration, self.config.duration, DEFAULT_DURATION@),
    {
        choose_value(&self.duration, &self.config.duration, DEFAULT_DURATION)
    }
}

/// The arguments that make the token service act as `profile`: none unless
/// `use_profile`, else `--profile` and the profile.
pub fn profile_args(use_profile: bool, profile: &str) -> (r: Vec<&str>)
    ensures
        use_profile ==> r@.len() == 2 && r@[0]@ == "--profile"@ && r@[1]@ == profile@,
        !use_profile ==> r@.len() == 0,
{
    if use_profile {
        vec!["--profile", profile]
    } else {
        vec![]
    }
}

} // verus!
