//! The files under the AWS configuration directory.
use vstd::prelude::*;
use vstd::string::StringExecFns;

pub mod credentials;
pub mod lemmas;
pub mod mfa;

verus! {

/// The name of the credentials file in the configuration directory.
pub const CREDENTIALS_FILE: &'static str = "credentials";

/// The name of the MFA settings file in the configuration directory.
pub const MFA_CONFIG_FILE: &'static str = "mfa.yml";

/// The configuration directory under the home directory `home`.
pub open spec fn config_dir_of(home: Seq<char>) -> Seq<char> {
    home + seq!['/', '.', 'a', 'w', 's']
}

/// `dir` joined with `filename` as a Unix path: `filename` alone when it is
/// absolute; else `dir`, a `/` unless `dir` is empty or already ends with
/// one, and `filename`.
pub open spec fn joined_path(dir: Seq<char>, filename: Seq<char>) -> Seq<char> {
    if filename.len() > 0 && filename[0] == '/' {
        filename
    } else if dir.len() == 0 || dir.last() == '/' {
        dir + filename
    } else {
        dir + seq!['/'] + filename
    }
}

/// The configuration directory for the home directory `home`: `<home>/.aws`.
pub fn config_dir(home: &str) -> (r: String)
    ensures
        r@ == config_dir_of(home@),
{
    let mut dir = String::from_str(home);
    dir.push('/');
    dir.push('.');
    dir.push('a');
    dir.push('w');
    dir.push('s');
    dir
}

/// The path of the file `filename` in the directory `conf_dir`.
pub fn config_file(conf_dir: &str, filename: &str) -> (r: String)
    ensures
        r@ == joined_path(conf_dir@, filename@),
{
    let name = crate::text::chars_of(filename);
    if name.len() > 0 && name[0] == '/' {
        return String::from_str(filename);
    }
    let dir = crate::text::chars_of(conf_dir);
    let mut path = String::from_str(conf_dir);
    if dir.len() > 0 && dir[dir.len() - 1] != '/' {
        path.push('/');
    }
    path.append(filename);
    path
}

/// The path of the credentials file in the directory `conf_dir`.
pub fn credentials_path(conf_dir: &str) -> (r: String)
    ensures
        r@ == joined_path(conf_dir@, CREDENTIALS_FILE@),
{
    config_file(conf_dir, CREDENTIALS_FILE)
}

} // verus!
