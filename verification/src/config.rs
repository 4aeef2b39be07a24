//! The saved choice of oracle service and model, and where on disk that
//! choice lives. Reading and writing the file is left to the program around
//! the library; the path arithmetic is verified here.
use vstd::prelude::*;

use crate::providers::Provider;

verus! {

/// The saved oracle configuration.
pub struct Config {
    pub provider: Provider,
    pub model_name: String,
}

/// Why the configuration file's path could not be determined.
#[derive(Debug, PartialEq, Eq, Structural, Clone, Copy)]
pub enum ConfigError {
    /// No home directory could be determined on this machine.
    NoHomeDirectory,
}

/// Relies on `dirs::home_dir` for the user's home directory; the result
/// depends on the machine and environment, so nothing is claimed of the
/// text.
#[verifier::external_body]
fn home_dir_string() -> Option<String> {
    dirs::home_dir().map(|p| p.to_string_lossy().to_string())
}

/// The path of the configuration file under a given home directory.
pub fn config_file_path_for(home: &str) -> (r: String)
    ensures
        r@ == home@ + "/.fs-organiser/config.json"@,
{
    let mut out: String = home.to_owned();
    out.append("/.fs-organiser/config.json");
    out
}

impl Config {
    /// Where the configuration file lives: a fixed spot under the home
    /// directory. Fails exactly when no home directory can be determined.
    pub fn get_config_file_path() -> (r: Result<String, ConfigError>)
        ensures
            match r {
                Ok(p) => exists|home: Seq<char>|
                    p@ == #[trigger] (home + "/.fs-organiser/config.json"@),
                Err(e) => e == ConfigError::NoHomeDirectory,
            },
    {
        match home_dir_string() {
            Some(home) => {
                let p = config_file_path_for(home.as_str());
                proof {
                    assert(p@ == home@ + "/.fs-organiser/config.json"@);
                }
                Ok(p)
            },
            None => Err(ConfigError::NoHomeDirectory),
        }
    }
}

impl Clone for Config {
    fn clone(&self) -> (c: Self)
        ensures
            c.provider == self.provider,
            c.model_name@ == self.model_name@,
    {
        Config { provider: self.provider, model_name: self.model_name.clone() }
    }
}

} // verus!
