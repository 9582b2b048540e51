//! Laws of the configuration.

use vstd::prelude::*;

use crate::config::{
    config_path, fields_text, missing_file_message, Config, ConfigError, ConfigPath,
    GrafanaConfig, LokiConfig, LokiSection, PrometheusConfig, PrometheusSection,
};
use crate::text::{debug_text, each};

verus! {

/// A section keeps what it gives, and what it does not give has its default.
pub proof fn sections_are_filled_in(
    loki: LokiSection,
    filled: LokiConfig,
    prometheus: PrometheusSection,
    metrics: PrometheusConfig,
)
    requires
        call_ensures(LokiSection::with_defaults, (loki,), filled),
        call_ensures(PrometheusSection::with_defaults, (prometheus,), metrics),
    ensures
        filled.service_label == loki.service_label,
        filled.level_label == loki.level_label,
        filled.datasource == loki.datasource,
        loki.default_limit matches Some(n) ==> filled.default_limit == n,
        loki.default_limit is None ==> filled.default_limit == 200,
        loki.max_limit matches Some(n) ==> filled.max_limit == n,
        loki.max_limit is None ==> filled.max_limit == 1000,
        metrics.datasource == prometheus.datasource,
        prometheus.target_points matches Some(n) ==> metrics.target_points == n,
        prometheus.target_points is None ==> metrics.target_points == 100,
        prometheus.max_series matches Some(n) ==> metrics.max_series == n,
        prometheus.max_series is None ==> metrics.max_series == 20,
        prometheus.min_step_seconds matches Some(n) ==> metrics.min_step_seconds == n,
        prometheus.min_step_seconds is None ==> metrics.min_step_seconds == 15,
{
}

/// A configuration has the sections of its file, each filled in, and a
/// Prometheus section exactly where the file has one.
pub proof fn configurations_have_their_sections(
    grafana: GrafanaConfig,
    loki: LokiSection,
    filled: LokiConfig,
    prometheus: Option<PrometheusSection>,
    metrics: PrometheusConfig,
    config: Config,
)
    requires
        call_ensures(LokiSection::with_defaults, (loki,), filled),
        prometheus is Some ==> call_ensures(
            PrometheusSection::with_defaults,
            (prometheus->0,),
            metrics,
        ),
        call_ensures(Config::from_sections, (grafana, loki, prometheus), config),
    ensures
        config.grafana == grafana,
        config.loki == filled,
        config.prometheus is Some <==> prometheus is Some,
        prometheus is Some ==> config.prometheus == Some(metrics),
{
}

/// A key of the environment that is not empty takes the place of that of the
/// file, whatever that is; a second one takes the place of the first. Nothing
/// else changes, and without such a key nothing does.
pub proof fn the_environment_wins(config: Config, key: Option<String>, later: Option<String>)
    ensures
        ({
            let after = config.overridden(key);
            &&& key is Some && key->0@.len() > 0 ==> after.grafana.api_key == key
            &&& key is None || key->0@.len() == 0 ==> after == config
            &&& after.grafana.url == config.grafana.url
            &&& after.grafana.username == config.grafana.username
            &&& after.grafana.datasource == config.grafana.datasource
            &&& after.loki == config.loki
            &&& after.prometheus == config.prometheus
            &&& later is Some && later->0@.len() > 0 ==> after.overridden(later)
                == config.overridden(later)
        }),
{
}

/// A configuration is valid exactly where its URL begins like one of HTTP and
/// it has a service label; the first thing that is wrong is told.
pub proof fn valid_configurations(config: &Config, result: Result<(), ConfigError>)
    requires
        call_ensures(Config::validate, (config,), result),
    ensures
        ({
            let url = config.grafana.url@;
            let http = (url.len() >= 7 && url.take(7) == "http://"@) || (url.len() >= 8
                && url.take(8) == "https://"@);
            &&& result is Ok <==> http && config.loki.service_label@.len() > 0
            &&& result matches Err(error) ==> {
                &&& error is MissingUrl <==> url.len() == 0
                &&& error is UrlScheme <==> url.len() > 0 && !http
                &&& error is MissingServiceLabel <==> http
                &&& error matches ConfigError::UrlScheme { url: told } ==> told@ == url
            }
        }),
{
    reveal_strlit("http://");
    reveal_strlit("https://");
    let url = config.grafana.url@;
    if "http://"@.is_prefix_of(url) {
        assert(url.take(7) =~= "http://"@);
    }
    if "https://"@.is_prefix_of(url) {
        assert(url.take(8) =~= "https://"@);
    }
    if url.len() >= 7 && url.take(7) == "http://"@ {
        assert("http://"@ =~= url.subrange(0, 7));
    }
    if url.len() >= 8 && url.take(8) == "https://"@ {
        assert("https://"@ =~= url.subrange(0, 8));
    }
}

/// Errors of a configuration in words.
pub proof fn configuration_errors_in_words(error: &ConfigError, text: String)
    requires
        call_ensures(ConfigError::message, (error,), text),
    ensures
        *error is MissingUrl ==> text@ == "grafana.url is required"@,
        *error is MissingServiceLabel ==> text@ == "loki.service_label is required"@,
        *error matches ConfigError::UrlScheme { url } ==> text@
            == "grafana.url must start with http:// or https:// (got: "@ + url@ + ")"@,
{
}

/// A path that is asked for is taken; otherwise the file is `config.toml` in
/// the directory `miru`. A file that cannot be read is named by its path.
pub proof fn the_file_has_its_place(
    explicit: Option<String>,
    path: ConfigPath,
    shown: &str,
    told: String,
)
    requires
        call_ensures(config_path, (explicit,), path),
        call_ensures(missing_file_message, (shown,), told),
    ensures
        explicit matches Some(asked) ==> path == ConfigPath::Explicit(asked),
        explicit is None ==> path is InConfigDir && path->InConfigDir_0@.len() == 2
            && path->InConfigDir_0@[0]@ == "miru"@ && path->InConfigDir_0@[1]@ == "config.toml"@,
        told@ == "config file not found at "@ + shown@
            + ". Copy config.example.toml to that path and fill it in."@,
{
    if explicit is None {
        let parts = path->InConfigDir_0@;
        assert(each(parts).len() == parts.len());
        assert(each(parts)[0] == parts[0]@);
        assert(each(parts)[1] == parts[1]@);
    }
}

/// Two configurations that differ in nothing but the key are shown the same,
/// with asterisks for the key.
pub proof fn the_key_is_masked(
    a: &GrafanaConfig,
    b: &GrafanaConfig,
    first: String,
    second: String,
)
    requires
        a.url@ == b.url@,
        a.username is None,
        b.username is None,
        a.datasource is None,
        b.datasource is None,
        a.api_key is Some,
        b.api_key is Some,
        call_ensures(GrafanaConfig::to_debug_text, (a,), first),
        call_ensures(GrafanaConfig::to_debug_text, (b,), second),
    ensures
        first@ == second@,
        first@ == "GrafanaConfig { url: "@ + debug_text(a.url@) + ", api_key: Some("@
            + debug_text("***"@) + "), username: None, datasource: None }"@,
{
    reveal_strlit(", api_key: ");
    reveal_strlit("Some(");
    reveal_strlit(")");
    reveal_strlit(", api_key: Some(");
    reveal_strlit(", username: ");
    reveal_strlit("None");
    reveal_strlit(", datasource: ");
    reveal_strlit(" }");
    reveal_strlit("), username: None, datasource: None }");
    assert(first@ =~= "GrafanaConfig { url: "@ + debug_text(a.url@) + ", api_key: Some("@
        + debug_text("***"@) + "), username: None, datasource: None }"@);
}

/// The fields of a shown configuration stand one behind the other, each as it
/// is given, one that is missing as `None`.
pub proof fn fields_are_shown_in_order(
    url: &str,
    api_key: Option<String>,
    username: Option<String>,
    datasource: Option<String>,
    text: String,
)
    requires
        call_ensures(fields_text, (url, api_key, username, datasource), text),
    ensures
        ({
            let show = |field: Option<String>|
                match field {
                    Some(t) => "Some("@ + t@ + ")"@,
                    None => "None"@,
                };
            text@ == "GrafanaConfig { url: "@ + url@ + ", api_key: "@ + show(api_key)
                + ", username: "@ + show(username) + ", datasource: "@ + show(datasource) + " }"@
        }),
{
}

/// What is shown of a configuration is its fields, quoted, with asterisks in
/// place of the key.
pub proof fn configurations_are_shown_by_field(
    config: &GrafanaConfig,
    url: &str,
    api_key: Option<String>,
    username: Option<String>,
    datasource: Option<String>,
    fields: String,
    text: String,
)
    requires
        url@ == debug_text(config.url@),
        api_key is Some <==> config.api_key is Some,
        api_key is Some ==> api_key->0@ == debug_text("***"@),
        username is Some <==> config.username is Some,
        username is Some ==> username->0@ == debug_text(config.username->0@),
        datasource is Some <==> config.datasource is Some,
        datasource is Some ==> datasource->0@ == debug_text(config.datasource->0@),
        call_ensures(fields_text, (url, api_key, username, datasource), fields),
        call_ensures(GrafanaConfig::to_debug_text, (config,), text),
    ensures
        text@ == fields@,
{
}

} // verus!
