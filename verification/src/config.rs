//! Configuration: its shape, its defaults and where the API key comes from.

use vstd::prelude::*;

use crate::error::{Error, ErrorView};
use crate::json::Json;
use crate::seqs::opt_view;
use crate::text::{copy_of, join2, trim, trimmed};

verus! {

/// The top-level configuration.
#[derive(Debug, PartialEq)]
pub struct Config {
    pub provider: ProviderConfig,
    pub model: ModelConfig,
    pub context: ContextConfig,
    pub budget: BudgetConfig,
    pub permissions: PermissionConfig,
}

#[derive(Debug, PartialEq)]
pub struct ProviderConfig {
    /// Which protocol adapter to use: "openai" (chat/completions),
    /// "responses", "anthropic" (messages).
    pub protocol: String,
    pub base_url: String,
    /// Name of the environment variable that holds the API key.
    pub api_key_env: String,
    /// Inline API key; it takes precedence over the environment variable.
    pub api_key: String,
}

#[derive(Debug, PartialEq)]
pub struct ModelConfig {
    pub name: String,
    /// Sampling temperature, a JSON number; nothing for the provider's own.
    pub temperature: Option<Json>,
    pub max_tokens: u32,
}

/// Context-window management parameters.
#[derive(Debug, PartialEq)]
pub struct ContextConfig {
    /// Raw model context window in tokens.
    pub context_window: i64,
    /// Explicit auto-compact threshold; clamped to 90% of the effective
    /// window.
    pub auto_compact_token_limit: Option<i64>,
    /// Per-tool-output byte cap when recording into history.
    pub tool_output_max_bytes: usize,
    /// Explicit path of the shell; nothing to look for it.
    pub shell_path: Option<String>,
    /// Default shell tool timeout in seconds (at most 600).
    pub shell_timeout_secs: u64,
}

/// Per-turn limits; 0 switches a limit off.
#[derive(Debug, Clone, Copy, PartialEq, Eq, Structural)]
pub struct BudgetConfig {
    pub max_turn_seconds: u64,
    pub max_turn_tokens: i64,
    pub max_tool_calls: u32,
    /// How often an identical call or an identical failure may repeat.
    pub loop_threshold: u32,
}

/// Permission rules: a fallback and one rule per tool, as texts.
#[derive(Debug, PartialEq)]
pub struct PermissionConfig {
    pub default: Option<String>,
    pub tools: Vec<(String, String)>,
}

/// The protocol of a provider section that names none.
pub fn default_protocol() -> (r: String)
    ensures
        r@ == "openai"@,
{
    copy_of("openai")
}

/// The output limit of a model section that names none.
pub fn default_max_tokens() -> (r: u32)
    ensures
        r == 8192,
{
    8192
}

/// Whether the output limit is left out when the section is written.
pub fn is_zero(v: &u32) -> (r: bool)
    ensures
        r == (*v == 0),
{
    *v == 0
}

/// The context window where none is configured.
pub fn default_window() -> (r: i64)
    ensures
        r == 128_000,
{
    128_000
}

/// The cap on a recorded tool output where none is configured: 1 MiB.
pub fn default_tool_output_bytes() -> (r: usize)
    ensures
        r == 1_048_576,
{
    1_048_576
}

/// The shell timeout where none is configured.
pub fn default_shell_timeout() -> (r: u64)
    ensures
        r == 120,
{
    120
}

impl Default for ProviderConfig {
    fn default() -> (r: Self)
        ensures
            r.protocol@ == Seq::<char>::empty(),
            r.base_url@ == Seq::<char>::empty(),
            r.api_key_env@ == Seq::<char>::empty(),
            r.api_key@ == Seq::<char>::empty(),
    {
        ProviderConfig {
            protocol: String::new(),
            base_url: String::new(),
            api_key_env: String::new(),
            api_key: String::new(),
        }
    }
}

impl Default for ModelConfig {
    fn default() -> (r: Self)
        ensures
            r.name@ == Seq::<char>::empty(),
            r.temperature is None,
            r.max_tokens == 0,
    {
        ModelConfig { name: String::new(), temperature: None, max_tokens: 0 }
    }
}

impl Default for ContextConfig {
    fn default() -> (r: Self)
        ensures
            r.context_window == 128_000,
            r.auto_compact_token_limit is None,
            r.tool_output_max_bytes == 1_048_576,
            r.shell_path is None,
            r.shell_timeout_secs == 120,
    {
        ContextConfig {
            context_window: default_window(),
            auto_compact_token_limit: None,
            tool_output_max_bytes: default_tool_output_bytes(),
            shell_path: None,
            shell_timeout_secs: default_shell_timeout(),
        }
    }
}

impl Clone for ContextConfig {
    fn clone(&self) -> (r: Self)
        ensures
            r == *self,
    {
        ContextConfig {
            context_window: self.context_window,
            auto_compact_token_limit: self.auto_compact_token_limit,
            tool_output_max_bytes: self.tool_output_max_bytes,
            shell_path: match &self.shell_path {
                Some(p) => Some(p.clone()),
                None => None,
            },
            shell_timeout_secs: self.shell_timeout_secs,
        }
    }
}

/// No limit at all.
pub open spec fn no_budget() -> BudgetConfig {
    BudgetConfig { max_turn_seconds: 0, max_turn_tokens: 0, max_tool_calls: 0, loop_threshold: 0 }
}

impl Default for BudgetConfig {
    fn default() -> (r: Self)
        ensures
            r == no_budget(),
    {
        BudgetConfig {
            max_turn_seconds: 0,
            max_turn_tokens: 0,
            max_tool_calls: 0,
            loop_threshold: 0,
        }
    }
}

impl Default for PermissionConfig {
    fn default() -> (r: Self)
        ensures
            r.default is None,
            r.tools@.len() == 0,
    {
        PermissionConfig { default: None, tools: Vec::new() }
    }
}

impl Default for Config {
    fn default() -> (r: Self)
        ensures
            r.provider.protocol@ == Seq::<char>::empty(),
            r.provider.base_url@ == Seq::<char>::empty(),
            r.provider.api_key_env@ == Seq::<char>::empty(),
            r.provider.api_key@ == Seq::<char>::empty(),
            r.model.name@ == Seq::<char>::empty(),
            r.model.temperature is None,
            r.model.max_tokens == 0,
            r.context.context_window == 128_000,
            r.context.auto_compact_token_limit is None,
            r.context.tool_output_max_bytes == 1_048_576,
            r.context.shell_path is None,
            r.context.shell_timeout_secs == 120,
            r.budget == no_budget(),
            r.permissions.default is None,
            r.permissions.tools@.len() == 0,
    {
        Config {
            provider: ProviderConfig::default(),
            model: ModelConfig::default(),
            context: ContextConfig::default(),
            budget: BudgetConfig::default(),
            permissions: PermissionConfig::default(),
        }
    }
}

impl Config {
    /// The name of the environment variable that is asked for the API key.
    pub open spec fn key_variable(&self) -> Seq<char> {
        if self.provider.api_key_env@.len() == 0 {
            "FORGE_API_KEY"@
        } else {
            self.provider.api_key_env@
        }
    }

    /// The API key, where the environment variable holds `env`: the inline
    /// key wins, white space around a key does not count, and a key of white
    /// space alone is none.
    pub open spec fn api_key(&self, env: Option<Seq<char>>) -> Option<Seq<char>> {
        if trimmed(self.provider.api_key@).len() > 0 {
            Some(trimmed(self.provider.api_key@))
        } else {
            match env {
                Some(v) => if trimmed(v).len() > 0 {
                    Some(trimmed(v))
                } else {
                    None
                },
                None => None,
            }
        }
    }

    /// The name of the environment variable that is asked for the API key:
    /// the configured one, else FORGE_API_KEY.
    pub fn api_key_variable(&self) -> (r: String)
        ensures
            r@ == self.key_variable(),
    {
        if self.provider.api_key_env.as_str().is_empty() {
            copy_of("FORGE_API_KEY")
        } else {
            copy_of(&self.provider.api_key_env)
        }
    }

    /// Resolves the API key, given what the environment variable named by
    /// [`Config::api_key_variable`] holds.
    pub fn resolve_api_key(&self, env: Option<&str>) -> (r: Result<String, Error>)
        ensures
            match r {
                Ok(key) => self.api_key(opt_view(env)) == Some(key@),
                Err(e) => self.api_key(opt_view(env)) is None && e@ == ErrorView::Config(
                    "API key not set: fill provider.api_key in config.toml or set env "@
                        + self.key_variable(),
                ),
            },
    {
        let inline = trim(&self.provider.api_key);
        if !inline.as_str().is_empty() {
            return Ok(inline);
        }
        match env {
            Some(v) => {
                let key = trim(v);
                if !key.as_str().is_empty() {
                    return Ok(key);
                }
            },
            None => {},
        }
        let name = self.api_key_variable();
        Err(
            Error::Config(
                join2(
                    "API key not set: fill provider.api_key in config.toml or set env ",
                    &name,
                ),
            ),
        )
    }
}

/// The inline key wins over the environment, white space around a key does
/// not count, and there is no key only where neither holds one.
pub proof fn law_inline_key_wins(c: Config, env: Option<Seq<char>>)
    ensures
        trimmed(c.provider.api_key@).len() > 0 ==> c.api_key(env) == Some(
            trimmed(c.provider.api_key@),
        ),
        trimmed(c.provider.api_key@).len() == 0 && env is Some && trimmed(env->0).len() > 0
            ==> c.api_key(env) == Some(trimmed(env->0)),
        c.api_key(env) is None <==> trimmed(c.provider.api_key@).len() == 0 && (env is None
            || trimmed(env->0).len() == 0),
        c.provider.api_key_env@.len() > 0 ==> c.key_variable() == c.provider.api_key_env@,
        c.provider.api_key_env@.len() == 0 ==> c.key_variable() == "FORGE_API_KEY"@,
{
}

} // verus!
