//! The configuration and what holds where it says nothing.

use vstd::prelude::*;

use crate::llm;
use crate::provider::{Provider, ReasoningEffort};
use crate::text;

verus! {

/// The model and how it is reached. The temperature is the bit pattern of a single-precision
/// number.
pub struct LlmConfig {
    pub base_url: String,
    pub model: String,
    /// The environment variable that holds the key.
    pub api_key_env: String,
    pub temperature: u32,
    pub max_tokens: u32,
    pub connect_timeout_secs: u64,
    /// How long a stream may be silent; 0 for any time.
    pub read_timeout_secs: u64,
    pub provider: Provider,
    pub reasoning_effort: ReasoningEffort,
}

pub const DEFAULT_CONNECT_TIMEOUT_SECS: u64 = 10;

pub const DEFAULT_READ_TIMEOUT_SECS: u64 = 60;

/// What a million tokens cost, as bit patterns of double-precision numbers.
#[derive(Clone, Copy, PartialEq, Eq, Structural, Debug)]
pub struct CostConfig {
    pub input_per_1m: u64,
    pub output_per_1m: u64,
}

/// How much is kept; without a limit, everything.
#[derive(Clone, Copy, PartialEq, Eq, Structural, Debug)]
pub struct SessionConfig {
    pub max_messages: Option<usize>,
    pub max_sessions: Option<usize>,
}

/// The notes service.
pub struct XhsConfig {
    pub enabled: bool,
    pub url: String,
    /// The environment variable that holds the token, where one is needed.
    pub token_env: Option<String>,
    pub min_interval_ms: u64,
    pub jitter_ms: u64,
}

impl Default for XhsConfig {
    fn default() -> (c: XhsConfig)
        ensures
            !c.enabled,
            c.url@ == "http://localhost:18060/mcp"@,
            c.token_env is None,
            c.min_interval_ms == 8000,
            c.jitter_ms == 7000,
    {
        XhsConfig {
            enabled: false,
            url: text::copy_text("http://localhost:18060/mcp"),
            token_env: None,
            min_interval_ms: 8000,
            jitter_ms: 7000,
        }
    }
}

impl XhsConfig {
    /// The environment variable to read the token from.
    pub fn token_variable(&self) -> (r: Option<String>)
        ensures
            llm::opt_text(r) == nonempty(llm::opt_text(self.token_env)),
    {
        if_nonempty(&self.token_env)
    }
}

/// A text that is there and not empty.
pub open spec fn nonempty(s: Option<Seq<char>>) -> Option<Seq<char>> {
    match s {
        Some(t) => if t.len() == 0 {
            None
        } else {
            Some(t)
        },
        None => None,
    }
}

/// A text that is there and not empty.
pub fn if_nonempty(s: &Option<String>) -> (r: Option<String>)
    ensures
        llm::opt_text(r) == nonempty(llm::opt_text(*s)),
{
    match s {
        Some(t) => if text::char_count(t.as_str()) == 0 {
            None
        } else {
            Some(text::copy_text(t.as_str()))
        },
        None => None,
    }
}

/// The web service.
pub struct WebConfig {
    pub bind: String,
    /// The environment variable that holds the access token.
    pub token_env: String,
    /// The access token; without one nothing is checked.
    pub token: String,
    pub max_concurrent: usize,
    pub cors_origins: Vec<String>,
    pub static_dir: String,
}

impl Default for WebConfig {
    fn default() -> (c: WebConfig)
        ensures
            c.bind@ == "127.0.0.1:8080"@,
            c.token_env@ == "WEB_TOKEN"@,
            c.token@.len() == 0,
            c.max_concurrent == 2,
            text::views(c.cors_origins@) == seq![
                "http://localhost:5173"@,
                "http://127.0.0.1:5173"@,
            ],
            c.static_dir@ == "web/dist"@,
    {
        let mut cors_origins: Vec<String> = Vec::new();
        cors_origins.push(text::copy_text("http://localhost:5173"));
        cors_origins.push(text::copy_text("http://127.0.0.1:5173"));
        assert(text::views(cors_origins@) =~= seq![
            "http://localhost:5173"@,
            "http://127.0.0.1:5173"@,
        ]);
        WebConfig {
            bind: text::copy_text("127.0.0.1:8080"),
            token_env: text::copy_text("WEB_TOKEN"),
            token: String::new(),
            max_concurrent: 2,
            cors_origins,
            static_dir: text::copy_text("web/dist"),
        }
    }
}

/// Accounts and logins.
pub struct AuthConfig {
    pub enabled: bool,
    pub database_url: String,
    pub cookie_name: String,
    pub session_ttl_hours: u64,
    pub secure_cookie: bool,
    pub max_login_failures: i64,
    pub lockout_secs: i64,
}

impl Default for AuthConfig {
    fn default() -> (c: AuthConfig)
        ensures
            !c.enabled,
            c.database_url@ == "sqlite://data/cheaptrip.db"@,
            c.cookie_name@ == "cheaptrip_session"@,
            c.session_ttl_hours == 24 * 7,
            !c.secure_cookie,
            c.max_login_failures == 5,
            c.lockout_secs == 300,
    {
        AuthConfig {
            enabled: false,
            database_url: text::copy_text("sqlite://data/cheaptrip.db"),
            cookie_name: text::copy_text("cheaptrip_session"),
            session_ttl_hours: 168,
            secure_cookie: false,
            max_login_failures: 5,
            lockout_secs: 300,
        }
    }
}

/// The whole configuration.
pub struct Config {
    pub llm: LlmConfig,
    pub cost: CostConfig,
    pub session: SessionConfig,
    pub xhs: XhsConfig,
    pub web: WebConfig,
    pub auth: AuthConfig,
}

impl Config {
    /// The key for the model, from what its environment variable holds.
    pub fn api_key(&self, value: &Option<String>) -> (r: Result<String, String>)
        ensures
            match r {
                Ok(k) => llm::opt_text(*value) == Some(k@),
                Err(e) => value is None && e@ == "环境变量 "@ + self.llm.api_key_env@ + " 未设置"@,
            },
    {
        match value {
            Some(k) => Ok(text::copy_text(k.as_str())),
            None => {
                let mut e = text::copy_text("环境变量 ");
                e.append(self.llm.api_key_env.as_str());
                e.append(" 未设置");
                Err(e)
            },
        }
    }

    /// Turns the notes service off where its switch is off.
    pub fn apply_switch(&mut self, xhs_switch: bool)
        ensures
            final(self).xhs.enabled == (old(self).xhs.enabled && xhs_switch),
            final(self).xhs.url == old(self).xhs.url,
            final(self).xhs.token_env == old(self).xhs.token_env,
            final(self).xhs.min_interval_ms == old(self).xhs.min_interval_ms,
            final(self).xhs.jitter_ms == old(self).xhs.jitter_ms,
            final(self).llm == old(self).llm,
            final(self).cost == old(self).cost,
            final(self).session == old(self).session,
            final(self).web == old(self).web,
            final(self).auth == old(self).auth,
    {
        if !xhs_switch {
            self.xhs.enabled = false;
        }
    }
}

/// A variable that is named counts, unless the name is empty; a connection is given up after ten
/// seconds and a silent stream after sixty, unless other times are set.
pub proof fn law_empty_names_do_not_count(s: Seq<char>)
    ensures
        nonempty(None) is None,
        nonempty(Some(Seq::empty())) is None,
        s.len() > 0 ==> nonempty(Some(s)) == Some(s),
        DEFAULT_CONNECT_TIMEOUT_SECS == 10,
        DEFAULT_READ_TIMEOUT_SECS == 60,
{
}

} // verus!
