//! Application configuration and the access decision taken from it.

use vstd::prelude::*;

verus! {

/// Configuration the surrounding server hands to every request handler.
#[derive(Clone, Debug)]
pub struct AppConfig {
    pub services_dir: String,
    pub username: Option<String>,
    pub password: Option<String>,
}

/// Whether a request carrying `user` / `pass` may proceed: when both a
/// username and a password are configured the pair must match exactly, and
/// when either is missing authentication is bypassed.
pub fn credentials_ok(config: &AppConfig, user: &str, pass: &str) -> (r: bool)
    ensures
        r == match (config.username, config.password) {
            (Some(u), Some(p)) => u@ == user@ && p@ == pass@,
            _ => true,
        },
{
    match (&config.username, &config.password) {
        (Some(u), Some(p)) => {
            let uo = user.to_owned();
            let po = pass.to_owned();
            u.eq(&uo) && p.eq(&po)
        },
        _ => true,
    }
}

} // verus!
