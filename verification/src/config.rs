//! Settings: the API key, model, base URL, hotkey and theme, with the fallbacks
//! that apply when the settings file leaves them empty.
use vstd::prelude::*;
use vstd::string::*;

verus! {

/// The settings of the assistant.
#[derive(Clone, Debug)]
pub struct Config {
    pub api_key: String,
    pub base_url: String,
    pub model: String,
    pub hotkey: String,
    pub theme: String,
}

/// The base URL used when none is configured.
pub const DEFAULT_BASE_URL: &'static str = "https://api.openai.com/v1";

/// The model used when none is configured.
pub const DEFAULT_MODEL: &'static str = "gpt-4o-mini";

/// The hotkey used when none is configured.
pub const DEFAULT_HOTKEY: &'static str = "Cmd+.";

/// The theme used when the settings file names none.
pub const DEFAULT_THEME: &'static str = "system";

pub fn default_base_url() -> (s: String)
    ensures
        s@ == DEFAULT_BASE_URL@,
{
    String::from_str(DEFAULT_BASE_URL)
}

pub fn default_model() -> (s: String)
    ensures
        s@ == DEFAULT_MODEL@,
{
    String::from_str(DEFAULT_MODEL)
}

pub fn default_hotkey() -> (s: String)
    ensures
        s@ == DEFAULT_HOTKEY@,
{
    String::from_str(DEFAULT_HOTKEY)
}

pub fn default_theme() -> (s: String)
    ensures
        s@ == DEFAULT_THEME@,
{
    String::from_str(DEFAULT_THEME)
}

impl Default for Config {
    /// Every setting empty, as when no settings file can be read.
    fn default() -> (c: Self)
        ensures
            c.api_key@.len() == 0,
            c.base_url@.len() == 0,
            c.model@.len() == 0,
            c.hotkey@.len() == 0,
            c.theme@.len() == 0,
    {
        Config {
            api_key: String::new(),
            base_url: String::new(),
            model: String::new(),
            hotkey: String::new(),
            theme: String::new(),
        }
    }
}

/// A setting after its environment fallback: the environment value replaces the
/// setting when `replaceable` holds and the variable is set.
pub open spec fn with_env(value: Seq<char>, replaceable: bool, env: Option<String>) -> Seq<char> {
    if replaceable && env is Some {
        env->0@
    } else {
        value
    }
}

/// An empty setting replaced by its default.
pub open spec fn or_default(value: Seq<char>, default: Seq<char>) -> Seq<char> {
    if value.len() == 0 {
        default
    } else {
        value
    }
}

impl Config {
    /// Applies the fallbacks of loading: the API key from the environment when the
    /// file gives none; the base URL and the model from the environment when the file
    /// leaves them empty or at their defaults; then the defaults for an empty base URL,
    /// model or hotkey. `env_api_key` is `OPENAI_API_KEY`, else `COMPLEO_API_KEY`;
    /// `env_base_url` is `COMPLEO_BASE_URL`; `env_model` is `COMPLEO_MODEL`.
    pub fn with_fallbacks(
        self,
        env_api_key: Option<String>,
        env_base_url: Option<String>,
        env_model: Option<String>,
    ) -> (c: Config)
        ensures
            c.api_key@ == with_env(self.api_key@, self.api_key@.len() == 0, env_api_key),
            c.base_url@ == or_default(
                with_env(
                    self.base_url@,
                    self.base_url@ == DEFAULT_BASE_URL@ || self.base_url@.len() == 0,
                    env_base_url,
                ),
                DEFAULT_BASE_URL@,
            ),
            c.model@ == or_default(
                with_env(
                    self.model@,
                    self.model@ == DEFAULT_MODEL@ || self.model@.len() == 0,
                    env_model,
                ),
                DEFAULT_MODEL@,
            ),
            c.hotkey@ == or_default(self.hotkey@, DEFAULT_HOTKEY@),
            c.theme == self.theme,
            c.base_url@.len() > 0,
            c.model@.len() > 0,
            c.hotkey@.len() > 0,
    {
        let mut config = self;
        if config.api_key.as_str().is_empty() {
            if let Some(key) = env_api_key {
                config.api_key = key;
            }
        }
        if config.base_url == default_base_url() || config.base_url.as_str().is_empty() {
            if let Some(url) = env_base_url {
                config.base_url = url;
            }
        }
        if config.model == default_model() || config.model.as_str().is_empty() {
            if let Some(model) = env_model {
                config.model = model;
            }
        }
        if config.base_url.as_str().is_empty() {
            config.base_url = default_base_url();
        }
        if config.model.as_str().is_empty() {
            config.model = default_model();
        }
        if config.hotkey.as_str().is_empty() {
            config.hotkey = default_hotkey();
        }
        proof {
            reveal_strlit("https://api.openai.com/v1");
            reveal_strlit("gpt-4o-mini");
            reveal_strlit("Cmd+.");
        }
        config
    }
}

} // verus!
