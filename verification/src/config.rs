//! The bot's command-line arguments and where its token comes from.

use vstd::prelude::*;

verus! {

/// The seconds of quiet after which a batch is run.
pub const BATCH_TIMEOUT_SECONDS: u64 = 1;

/// The command-line arguments.
pub struct Args {
    /// The name of the environment variable that holds the bot token.
    pub bot_token_env: Option<String>,
}

/// Where the bot token is taken from.
pub enum TokenSource {
    /// The environment variable of this name (it must be set).
    Env(String),
    /// The token built into the program.
    Predefined(String),
    /// Neither is available: the program cannot start.
    Missing,
}

impl Args {
    /// Where the token comes from: the named environment variable if one is
    /// given, else the built-in token if there is one.
    pub fn token_source(&self, predefined: Option<&str>) -> (r: TokenSource)
        ensures
            match self.bot_token_env {
                Some(name) => (r matches TokenSource::Env(n) && n@ == name@),
                None => match predefined {
                    Some(t) => (r matches TokenSource::Predefined(p) && p@ == t@),
                    None => r is Missing,
                },
            },
    {
        match &self.bot_token_env {
            Some(name) => TokenSource::Env(name.clone()),
            None => match predefined {
                Some(t) => TokenSource::Predefined(String::from_str(t)),
                None => TokenSource::Missing,
            },
        }
    }
}

} // verus!
