//! Configuration of the program.

use vstd::prelude::*;

verus! {

/// What the configuration lacks.
#[derive(Debug, Clone, Copy, PartialEq, Eq)]
pub enum ConfigError {
    ApiKeyNotFound,
    BaseUrlNotFound,
    ModelNotFound,
}

impl ConfigError {
    /// The error in words.
    pub open spec fn words(self) -> Seq<char> {
        match self {
            ConfigError::ApiKeyNotFound => "OPENAI_API_KEY not found"@,
            ConfigError::BaseUrlNotFound => "OPENAI_BASE_URL not found"@,
            ConfigError::ModelNotFound => "OPENAI_MODEL not found"@,
        }
    }

    /// The error in words.
    pub fn message(&self) -> (words: String)
        ensures
            words@ == self.words(),
    {
        match self {
            ConfigError::ApiKeyNotFound => "OPENAI_API_KEY not found".to_owned(),
            ConfigError::BaseUrlNotFound => "OPENAI_BASE_URL not found".to_owned(),
            ConfigError::ModelNotFound => "OPENAI_MODEL not found".to_owned(),
        }
    }
}

/// How the model is reached.
#[derive(Debug, PartialEq, Eq)]
pub struct Config {
    pub api_key: String,
    pub base_url: String,
    pub model: String,
}

/// The configuration of the three settings, where all are there. Of those that are missing, the
/// first is reported.
pub fn load(api_key: Option<String>, base_url: Option<String>, model: Option<String>) -> (loaded:
    Result<Config, ConfigError>)
    ensures
        loaded == (match (api_key, base_url, model) {
            (None, _, _) => Err::<Config, ConfigError>(ConfigError::ApiKeyNotFound),
            (Some(_), None, _) => Err(ConfigError::BaseUrlNotFound),
            (Some(_), Some(_), None) => Err(ConfigError::ModelNotFound),
            (Some(api_key), Some(base_url), Some(model)) => Ok(
                Config { api_key, base_url, model },
            ),
        }),
{
    let api_key = match api_key {
        Some(api_key) => api_key,
        None => {
            return Err(ConfigError::ApiKeyNotFound);
        },
    };
    let base_url = match base_url {
        Some(base_url) => base_url,
        None => {
            return Err(ConfigError::BaseUrlNotFound);
        },
    };
    let model = match model {
        Some(model) => model,
        None => {
            return Err(ConfigError::ModelNotFound);
        },
    };
    Ok(Config { api_key, base_url, model })
}

/// The configuration holds the three settings as they were given, and it is there if and only if
/// all three are.
pub proof fn law_a_configuration_holds_its_settings(
    api_key: Option<String>,
    base_url: Option<String>,
    model: Option<String>,
    loaded: Result<Config, ConfigError>,
)
    requires
        call_ensures(load, (api_key, base_url, model), loaded),
    ensures
        loaded is Ok <==> api_key is Some && base_url is Some && model is Some,
        loaded matches Ok(config) ==> Some(config.api_key) == api_key && Some(config.base_url)
            == base_url && Some(config.model) == model,
{
}

} // verus!
