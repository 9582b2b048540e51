//! The configuration: its sections, its defaults and what makes it valid.

use vstd::prelude::*;
use vstd::string::*;

use crate::text::{debug_text, each, optional, quoted, starts_with};

verus! {

/// The whole configuration.
pub struct Config {
    pub grafana: GrafanaConfig,
    pub loki: LokiConfig,
    pub prometheus: Option<PrometheusConfig>,
}

/// How to reach Grafana, or Loki itself.
pub struct GrafanaConfig {
    pub url: String,
    pub api_key: Option<String>,
    pub username: Option<String>,
    pub datasource: Option<String>,
}

/// How logs are labelled and how many lines a query may return.
#[derive(Debug)]
pub struct LokiConfig {
    pub service_label: String,
    pub level_label: Option<String>,
    pub datasource: Option<String>,
    pub default_limit: u32,
    pub max_limit: u32,
}

/// How densely metrics are sampled and how many series are shown.
#[derive(Debug)]
pub struct PrometheusConfig {
    pub datasource: Option<String>,
    pub target_points: u32,
    pub max_series: u32,
    pub min_step_seconds: u32,
}

/// The Loki section as a file gives it: what has a default may be missing.
#[derive(Debug)]
pub struct LokiSection {
    pub service_label: String,
    pub level_label: Option<String>,
    pub datasource: Option<String>,
    pub default_limit: Option<u32>,
    pub max_limit: Option<u32>,
}

/// The Prometheus section as a file gives it: what has a default may be missing.
#[derive(Debug)]
pub struct PrometheusSection {
    pub datasource: Option<String>,
    pub target_points: Option<u32>,
    pub max_series: Option<u32>,
    pub min_step_seconds: Option<u32>,
}

/// What is wrong with a configuration.
#[derive(Debug)]
pub enum ConfigError {
    /// No URL is given.
    MissingUrl,
    /// The URL is none of HTTP.
    UrlScheme { url: String },
    /// No service label is given.
    MissingServiceLabel,
}

/// Where the configuration file is.
#[derive(Debug)]
pub enum ConfigPath {
    /// At a path that was asked for.
    Explicit(String),
    /// In the user's configuration directory, or else in the working
    /// directory, under these directories and this file name.
    InConfigDir(Vec<String>),
}

/// How many lines a query returns when it does not say.
pub fn default_limit() -> (n: u32)
    ensures
        n == 200,
{
    200
}

/// How many lines a query returns at most.
pub fn max_limit() -> (n: u32)
    ensures
        n == 1000,
{
    1000
}

/// How many points a series should have.
pub fn default_target_points() -> (n: u32)
    ensures
        n == 100,
{
    100
}

/// How many series are shown.
pub fn default_max_series() -> (n: u32)
    ensures
        n == 20,
{
    20
}

/// The fewest seconds between two points.
pub fn default_min_step_seconds() -> (n: u32)
    ensures
        n == 15,
{
    15
}

/// A number, or the default where it is missing.
pub open spec fn or_default(given: Option<u32>, default: u32) -> u32 {
    match given {
        Some(n) => n,
        None => default,
    }
}

impl LokiSection {
    /// The section with its defaults filled in.
    pub open spec fn filled(self) -> LokiConfig {
        LokiConfig {
            service_label: self.service_label,
            level_label: self.level_label,
            datasource: self.datasource,
            default_limit: or_default(self.default_limit, 200),
            max_limit: or_default(self.max_limit, 1000),
        }
    }

    /// Fills in the defaults.
    pub fn with_defaults(self) -> (config: LokiConfig)
        ensures
            config == self.filled(),
    {
        LokiConfig {
            service_label: self.service_label,
            level_label: self.level_label,
            datasource: self.datasource,
            default_limit: match self.default_limit {
                Some(n) => n,
                None => default_limit(),
            },
            max_limit: match self.max_limit {
                Some(n) => n,
                None => max_limit(),
            },
        }
    }
}

impl PrometheusSection {
    /// The section with its defaults filled in.
    pub open spec fn filled(self) -> PrometheusConfig {
        PrometheusConfig {
            datasource: self.datasource,
            target_points: or_default(self.target_points, 100),
            max_series: or_default(self.max_series, 20),
            min_step_seconds: or_default(self.min_step_seconds, 15),
        }
    }

    /// Fills in the defaults.
    pub fn with_defaults(self) -> (config: PrometheusConfig)
        ensures
            config == self.filled(),
    {
        PrometheusConfig {
            datasource: self.datasource,
            target_points: match self.target_points {
                Some(n) => n,
                None => default_target_points(),
            },
            max_series: match self.max_series {
                Some(n) => n,
                None => default_max_series(),
            },
            min_step_seconds: match self.min_step_seconds {
                Some(n) => n,
                None => default_min_step_seconds(),
            },
        }
    }
}

/// The optional field of a shown configuration: `None`, or the shown text in `Some(..)`.
pub open spec fn shown_option(shown: Option<Seq<char>>) -> Seq<char> {
    match shown {
        Some(text) => "Some("@ + text + ")"@,
        None => "None"@,
    }
}

/// An optional text as debug formatting shows the text in it.
pub open spec fn debug_option(text: Option<Seq<char>>) -> Option<Seq<char>> {
    match text {
        Some(t) => Some(debug_text(t)),
        None => None,
    }
}

/// A Grafana configuration as it is shown, from its fields as they are shown.
pub open spec fn shown_fields(
    url: Seq<char>,
    api_key: Option<Seq<char>>,
    username: Option<Seq<char>>,
    datasource: Option<Seq<char>>,
) -> Seq<char> {
    "GrafanaConfig { url: "@ + url + ", api_key: "@ + shown_option(api_key) + ", username: "@
        + shown_option(username) + ", datasource: "@ + shown_option(datasource) + " }"@
}

/// Appends an optional field, with its text already shown.
fn push_option(out: &mut String, shown: Option<String>)
    ensures
        final(out)@ == old(out)@ + shown_option(optional(shown)),
{
    match shown {
        Some(text) => {
            let mut field = "Some(".to_owned();
            field.append(text.as_str());
            field.append(")");
            out.append(field.as_str());
        },
        None => {
            out.append("None");
        },
    }
}

/// An optional text as debug formatting shows the text in it.
fn quoted_option(text: &Option<String>) -> (shown: Option<String>)
    ensures
        optional(shown) == debug_option(optional(*text)),
{
    match text {
        Some(t) => Some(quoted(t.as_str())),
        None => None,
    }
}

/// A Grafana configuration as it is shown, from its fields as they are shown.
pub fn fields_text(
    url: &str,
    api_key: Option<String>,
    username: Option<String>,
    datasource: Option<String>,
) -> (text: String)
    ensures
        text@ == shown_fields(url@, optional(api_key), optional(username), optional(datasource)),
{
    let mut out = "GrafanaConfig { url: ".to_owned();
    out.append(url);
    out.append(", api_key: ");
    push_option(&mut out, api_key);
    out.append(", username: ");
    push_option(&mut out, username);
    out.append(", datasource: ");
    push_option(&mut out, datasource);
    out.append(" }");
    out
}

impl GrafanaConfig {
    /// The configuration as it may be shown: asterisks stand for the API key.
    pub open spec fn shown(&self) -> Seq<char> {
        let key: Option<Seq<char>> = match self.api_key {
            Some(_) => Some("***"@),
            None => None,
        };
        shown_fields(
            debug_text(self.url@),
            debug_option(key),
            debug_option(optional(self.username)),
            debug_option(optional(self.datasource)),
        )
    }

    /// Shows the configuration without giving the API key away.
    pub fn to_debug_text(&self) -> (text: String)
        ensures
            text@ == self.shown(),
    {
        let key: Option<String> = match &self.api_key {
            Some(_) => Some("***".to_owned()),
            None => None,
        };
        fields_text(
            quoted(self.url.as_str()).as_str(),
            quoted_option(&key),
            quoted_option(&self.username),
            quoted_option(&self.datasource),
        )
    }
}

/// What is shown of a configuration depends on whether there is an API key,
/// and not on what it is.
pub proof fn api_key_is_not_shown(a: GrafanaConfig, b: GrafanaConfig)
    requires
        a.url@ == b.url@,
        optional(a.username) == optional(b.username),
        optional(a.datasource) == optional(b.datasource),
        a.api_key is Some == b.api_key is Some,
    ensures
        a.shown() == b.shown(),
{
}

/// `url` begins like one of HTTP.
pub open spec fn has_http_scheme(url: Seq<char>) -> bool {
    "http://"@.is_prefix_of(url) || "https://"@.is_prefix_of(url)
}

impl Config {
    /// The configuration of the sections of a file, with the defaults filled in.
    pub fn from_sections(
        grafana: GrafanaConfig,
        loki: LokiSection,
        prometheus: Option<PrometheusSection>,
    ) -> (config: Config)
        ensures
            config.grafana == grafana,
            config.loki == loki.filled(),
            config.prometheus == match prometheus {
                Some(section) => Some(section.filled()),
                None => None::<PrometheusConfig>,
            },
    {
        Config {
            grafana,
            loki: loki.with_defaults(),
            prometheus: match prometheus {
                Some(section) => Some(section.with_defaults()),
                None => None,
            },
        }
    }

    /// The configuration with the API key that the environment gives, if it
    /// gives one that is not empty.
    pub open spec fn overridden(self, api_key: Option<String>) -> Config {
        Config {
            grafana: GrafanaConfig {
                url: self.grafana.url,
                api_key: match api_key {
                    Some(key) => if key@.len() > 0 {
                        Some(key)
                    } else {
                        self.grafana.api_key
                    },
                    None => self.grafana.api_key,
                },
                username: self.grafana.username,
                datasource: self.grafana.datasource,
            },
            loki: self.loki,
            prometheus: self.prometheus,
        }
    }

    /// Takes the API key that the environment gives, if it gives one that is
    /// not empty, in place of the one in the file. So the secret need not be
    /// on disk.
    pub fn apply_env_overrides(&mut self, api_key: Option<String>)
        ensures
            final(self).grafana.api_key == match api_key {
                Some(key) => if key@.len() > 0 {
                    Some(key)
                } else {
                    old(self).grafana.api_key
                },
                None => old(self).grafana.api_key,
            },
            final(self).grafana.url == old(self).grafana.url,
            final(self).grafana.username == old(self).grafana.username,
            final(self).grafana.datasource == old(self).grafana.datasource,
            final(self).loki == old(self).loki,
            final(self).prometheus == old(self).prometheus,
            *final(self) == old(self).overridden(api_key),
    {
        if let Some(key) = api_key {
            if !key.as_str().is_empty() {
                self.grafana.api_key = Some(key);
            }
        }
    }

    /// Accepts a configuration with a URL of HTTP and a service label.
    pub fn validate(&self) -> (result: Result<(), ConfigError>)
        ensures
            match result {
                Ok(()) => self.grafana.url@.len() > 0 && has_http_scheme(self.grafana.url@)
                    && self.loki.service_label@.len() > 0,
                Err(ConfigError::MissingUrl) => self.grafana.url@.len() == 0,
                Err(ConfigError::UrlScheme { url }) => self.grafana.url@.len() > 0
                    && !has_http_scheme(self.grafana.url@) && url == self.grafana.url,
                Err(ConfigError::MissingServiceLabel) => self.grafana.url@.len() > 0
                    && has_http_scheme(self.grafana.url@) && self.loki.service_label@.len() == 0,
            },
    {
        if self.grafana.url.as_str().is_empty() {
            return Err(ConfigError::MissingUrl);
        }
        if !starts_with(self.grafana.url.as_str(), "http://") && !starts_with(
            self.grafana.url.as_str(),
            "https://",
        ) {
            return Err(ConfigError::UrlScheme { url: self.grafana.url.clone() });
        }
        if self.loki.service_label.as_str().is_empty() {
            return Err(ConfigError::MissingServiceLabel);
        }
        Ok(())
    }
}

impl ConfigError {
    /// The error in words.
    pub open spec fn words(&self) -> Seq<char> {
        match self {
            ConfigError::MissingUrl => "grafana.url is required"@,
            ConfigError::UrlScheme { url }
                => "grafana.url must start with http:// or https:// (got: "@ + url@ + ")"@,
            ConfigError::MissingServiceLabel => "loki.service_label is required"@,
        }
    }

    /// The error in words.
    pub fn message(&self) -> (text: String)
        ensures
            text@ == self.words(),
    {
        match self {
            ConfigError::MissingUrl => "grafana.url is required".to_owned(),
            ConfigError::UrlScheme { url } => {
                let mut out = "grafana.url must start with http:// or https:// (got: ".to_owned();
                out.append(url.as_str());
                out.append(")");
                out
            },
            ConfigError::MissingServiceLabel => "loki.service_label is required".to_owned(),
        }
    }
}

/// Where the configuration file is: at the path that the environment asks
/// for, or else in its place below the configuration directory.
pub fn config_path(explicit: Option<String>) -> (path: ConfigPath)
    ensures
        match explicit {
            Some(asked) => path == ConfigPath::Explicit(asked),
            None => path is InConfigDir && each(path->InConfigDir_0@) == seq![
                "miru"@,
                "config.toml"@,
            ],
        },
{
    match explicit {
        Some(asked) => ConfigPath::Explicit(asked),
        None => {
            let mut parts: Vec<String> = Vec::new();
            parts.push("miru".to_owned());
            parts.push("config.toml".to_owned());
            assert(each(parts@) =~= seq!["miru"@, "config.toml"@]);
            ConfigPath::InConfigDir(parts)
        },
    }
}

/// What is said of a configuration file that cannot be read.
pub fn missing_file_message(path: &str) -> (text: String)
    ensures
        text@ == "config file not found at "@ + path@
            + ". Copy config.example.toml to that path and fill it in."@,
{
    let mut out = "config file not found at ".to_owned();
    out.append(path);
    out.append(". Copy config.example.toml to that path and fill it in.");
    out
}

} // verus!
