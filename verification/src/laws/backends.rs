//! Laws of credentials, requests, replies and the search for a backend.

use vstd::prelude::*;

use crate::backend::{
    build_auth, is_success, map_http_error, missing_datasource_text, resolve, resolve_prometheus,
    select_datasource, truncate_body, Auth, BackendError, Credential, Datasource, DatasourceKind, DatasourcesReply,
    Endpoint, HealthProbe, NextProbe, ReplyStep, Request, Resolution, ResolvedBackend,
};
use crate::config::{GrafanaConfig, PrometheusConfig};
use crate::loki::LokiClient;
use crate::number::{decimal, decimal_text};
use crate::prometheus::PrometheusClient;
use crate::text::{debug_text, trim_end};

verus! {

/// Credentials go behind those that a request has, one for a token and one for
/// a name and a password; nothing else of the request changes.
pub proof fn credentials_go_behind(auth: &Auth, req: Request, sent: Request)
    requires
        call_ensures(Auth::apply, (auth, req), sent),
    ensures
        sent.url@ == req.url@,
        sent.params@ == req.params@,
        *auth is Anonymous ==> sent.credentials@ == req.credentials@,
        *auth matches Auth::Bearer(t) ==> sent.credentials@ == req.credentials@.push(
            Credential::Bearer { token: t },
        ),
        *auth matches Auth::Basic { username: u, password: p } ==> sent.credentials@
            == req.credentials@.push(Credential::Basic { username: u, password: p }),
{
    assert(req.credentials@ + Seq::<Credential>::empty() =~= req.credentials@);
    match auth {
        Auth::Anonymous => {},
        Auth::Bearer(t) => {
            assert(sent.credentials@ =~= req.credentials@.push(Credential::Bearer { token: *t }));
        },
        Auth::Basic { username: u, password: p } => {
            assert(sent.credentials@ =~= req.credentials@.push(
                Credential::Basic { username: *u, password: *p },
            ));
        },
    }
}

/// A name needs a key; with one the credentials are basic, a key alone is a
/// token, and with neither there are none.
pub proof fn credentials_of_a_configuration(
    config: &GrafanaConfig,
    result: Result<Auth, BackendError>,
)
    requires
        call_ensures(build_auth, (config,), result),
    ensures
        result is Err <==> config.username is Some && config.api_key is None,
        result matches Err(error) ==> error is MissingApiKey,
        result matches Ok(auth) ==> {
            &&& config.username is Some ==> auth == (Auth::Basic {
                username: config.username->0,
                password: config.api_key->0,
            })
            &&& config.username is None && config.api_key is Some ==> auth == Auth::Bearer(
                config.api_key->0,
            )
            &&& config.username is None && config.api_key is None ==> auth is Anonymous
        },
{
}

/// A status succeeded exactly where it is one of the two hundreds.
pub proof fn success_is_two_hundred(status: u16, r: bool)
    requires
        call_ensures(is_success, (status,), r),
    ensures
        r <==> status / 100 == 2,
{
}

/// What is said of a status by itself.
pub proof fn statuses_in_words(status: u16, text: String)
    requires
        call_ensures(map_http_error, (status,), text),
    ensures
        status == 401 ==> text@ == "authentication failed"@,
        status == 403 ==> text@ == "access denied"@,
        status == 404 ==> text@ == "endpoint not found"@,
        status >= 500 ==> text@ == "server error (HTTP "@ + decimal(status as nat) + ")"@,
        status < 500 && status != 401 && status != 403 && status != 404 ==> text@ == "HTTP "@
            + decimal(status as nat),
{
}

/// A body is kept whole up to five hundred characters; of a longer one those
/// are kept, and a note that there is more.
pub proof fn bodies_are_kept_up_to_a_length(body: &str, text: String)
    requires
        call_ensures(truncate_body, (body,), text),
    ensures
        body@.len() <= 500 ==> text@ == body@,
        body@.len() > 500 ==> text@ == body@.take(500) + " (truncated)"@,
{
}

/// A reply that succeeded is decoded. One whose status says enough is given up
/// with what is said of that status. Of any other the body is read.
pub proof fn replies_are_handled_by_status(
    endpoint: &Endpoint,
    status: u16,
    step: ReplyStep,
    words: String,
)
    requires
        call_ensures(Endpoint::on_status, (endpoint, status), step),
        call_ensures(map_http_error, (status,), words),
    ensures
        step is Decode <==> status / 100 == 2,
        step is Fail <==> status == 401 || status == 403 || status == 404 || status >= 500,
        step is ReadBody <==> status / 100 != 2 && status != 401 && status != 403 && status != 404
            && status < 500,
        step matches ReplyStep::Fail(message) ==> message@ == words@,
{
}

/// Failures are told with the name of the endpoint: the status and the body
/// that came, or what kept the request from being sent.
pub proof fn failures_name_the_endpoint(
    endpoint: &Endpoint,
    status: u16,
    body: &str,
    kept: String,
    number: String,
    told: String,
    unreachable: bool,
    detail: &str,
    unsent: String,
)
    requires
        call_ensures(truncate_body, (body,), kept),
        call_ensures(decimal_text, (status as u64,), number),
        call_ensures(Endpoint::on_error_body, (endpoint, status, body), told),
        call_ensures(Endpoint::on_send_error, (endpoint, unreachable, detail), unsent),
    ensures
        told@ == endpoint.name@ + " returned HTTP "@ + number@ + ": "@ + kept@,
        unreachable ==> unsent@ == "cannot connect to "@ + endpoint.name@ + ": "@ + detail@,
        !unreachable ==> unsent@ == detail@,
{
}

/// An endpoint has the URL without slashes at its end, and requests to it have
/// that URL and their path, their parameters, and its credentials.
pub proof fn endpoints_send_below_their_url(
    base_url: &str,
    auth: Auth,
    name: &str,
    trimmed: String,
    endpoint: Endpoint,
    path: &str,
    params: Vec<(String, String)>,
    url: String,
    request: Request,
)
    requires
        call_ensures(trim_end, (base_url, '/'), trimmed),
        call_ensures(Endpoint::new, (base_url, auth, name), endpoint),
        call_ensures(Endpoint::url, (&endpoint, path), url),
        call_ensures(Endpoint::get_json, (&endpoint, path, params), request),
    ensures
        endpoint.base_url@ == trimmed@,
        endpoint.name@ == name@,
        endpoint.auth == auth,
        url@ == trimmed@ + path@,
        request.url@ == url@,
        request.params@ == params@,
        auth is Anonymous ==> request.credentials@.len() == 0,
        auth matches Auth::Bearer(t) ==> request.credentials@ == seq![
            Credential::Bearer { token: t },
        ],
        auth matches Auth::Basic { username: u, password: p } ==> request.credentials@ == seq![
            Credential::Basic { username: u, password: p },
        ],
{
}

/// Clients have the URL without slashes at its end, the credentials, the name
/// of what they ask, and what they were made with.
pub proof fn clients_keep_what_they_are_made_with(
    base_url: &str,
    auth: Auth,
    trimmed: String,
    service_label: &str,
    level_label: Option<&str>,
    default_limit: u32,
    max_limit: u32,
    loki: LokiClient,
    target_points: u32,
    max_series: u32,
    min_step_seconds: u32,
    prometheus: PrometheusClient,
)
    requires
        call_ensures(trim_end, (base_url, '/'), trimmed),
        call_ensures(
            LokiClient::new,
            (base_url, auth, service_label, level_label, default_limit, max_limit),
            loki,
        ),
        call_ensures(
            PrometheusClient::new,
            (base_url, auth, target_points, max_series, min_step_seconds),
            prometheus,
        ),
    ensures
        loki.endpoint.base_url@ == trimmed@,
        loki.endpoint.auth == auth,
        loki.endpoint.name@ == "Loki"@,
        loki.service_label@ == service_label@,
        level_label is Some <==> loki.level_label is Some,
        level_label matches Some(l) ==> loki.level_label->0@ == l@,
        loki.default_limit == default_limit,
        loki.max_limit == max_limit,
        prometheus.endpoint.base_url@ == trimmed@,
        prometheus.endpoint.auth == auth,
        prometheus.endpoint.name@ == "Prometheus"@,
        prometheus.target_points == target_points,
        prometheus.max_series == max_series,
        prometheus.min_step_seconds == min_step_seconds,
{
}

/// A search begins exactly where the configuration has credentials or needs
/// none, at its URL without slashes at its end: for Loki under the name of the
/// Grafana section, for Prometheus under that of its own section.
pub proof fn searches_begin_at_the_configuration(
    config: &GrafanaConfig,
    section: &PrometheusConfig,
    url: &str,
    trimmed: String,
    auth: Result<Auth, BackendError>,
    loki: Result<Resolution, BackendError>,
    prometheus: Result<Resolution, BackendError>,
)
    requires
        url@ == config.url@,
        call_ensures(trim_end, (url, '/'), trimmed),
        call_ensures(build_auth, (config,), auth),
        call_ensures(resolve, (config,), loki),
        call_ensures(resolve_prometheus, (config, section), prometheus),
    ensures
        loki is Ok <==> auth is Ok,
        prometheus is Ok <==> auth is Ok,
        loki matches Err(error) ==> error is MissingApiKey,
        prometheus matches Err(error) ==> error is MissingApiKey,
        loki matches Ok(search) ==> {
            &&& search.base@ == trimmed@
            &&& search.auth == auth->Ok_0
            &&& search.kind == DatasourceKind::Loki
            &&& search.datasource == config.datasource
        },
        prometheus matches Ok(search) ==> {
            &&& search.base@ == trimmed@
            &&& search.auth == auth->Ok_0
            &&& search.kind == DatasourceKind::Prometheus
            &&& search.datasource == section.datasource
        },
{
}

/// A search first asks for the health of Grafana. Exactly where the reply
/// succeeded and says that the database is well does it go on with the
/// datasources; otherwise a search for Loki goes on with its labels, and one
/// for Prometheus ends. Every request has the credentials and no parameters.
pub proof fn searches_go_on_by_health(
    search: &Resolution,
    probe: &HealthProbe,
    first: Request,
    next: NextProbe,
)
    requires
        call_ensures(Resolution::health_request, (search,), first),
        call_ensures(Resolution::after_health, (search, probe), next),
    ensures
        first.url@ == search.base@ + "/api/health"@,
        first.params@.len() == 0,
        next is Datasources <==> (*probe matches HealthProbe::Reply { status, database }
            && status / 100 == 2 && database is Some && database->0@ == "ok"@),
        next is Labels <==> next !is Datasources && search.kind == DatasourceKind::Loki,
        next matches NextProbe::Datasources(request) ==> request.url@ == search.base@
            + "/api/datasources"@ && request.params@.len() == 0 && request.credentials@
            == first.credentials@,
        next matches NextProbe::Labels(request) ==> request.url@ == search.base@
            + "/loki/api/v1/labels"@ && request.params@.len() == 0 && request.credentials@
            == first.credentials@,
        search.auth is Anonymous ==> first.credentials@.len() == 0,
        search.auth matches Auth::Bearer(t) ==> first.credentials@ == seq![
            Credential::Bearer { token: t },
        ],
        search.auth matches Auth::Basic { username: u, password: p } ==> first.credentials@
            == seq![Credential::Basic { username: u, password: p }],
{
}

/// Of the datasources that Grafana lists, the first of the kind is taken, and
/// of the name where one is asked for; its proxy has the credentials of the
/// search. Where there is none, the error says what was looked for.
pub proof fn first_datasource_is_taken(
    search: Resolution,
    all: Vec<Datasource>,
    result: Result<ResolvedBackend, BackendError>,
) -> (at: int)
    requires
        call_ensures(
            Resolution::after_datasources,
            (search, DatasourcesReply::Listed(all)),
            result,
        ),
    ensures
        ({
            let tag = match search.kind {
                DatasourceKind::Loki => "loki"@,
                DatasourceKind::Prometheus => "prometheus"@,
            };
            let fits = |d: Datasource|
                d.kind@ == tag && (search.datasource is Some ==> d.name@ == search.datasource->0@);
            &&& result is Err <==> forall|i: int| 0 <= i < all@.len() ==> !fits(#[trigger] all@[i])
            &&& result matches Ok(backend) ==> {
                &&& 0 <= at < all@.len()
                &&& fits(all@[at])
                &&& forall|i: int| 0 <= i < at ==> !fits(#[trigger] all@[i])
                &&& backend.base_url@ == search.base@ + "/api/datasources/proxy/uid/"@
                    + all@[at].uid@
                &&& backend.auth == search.auth
            }
            &&& result matches Err(error) ==> {
                &&& search.datasource is Some ==> error == (BackendError::NamedDatasourceMissing {
                    kind: search.kind,
                    name: search.datasource->0,
                })
                &&& search.datasource is None ==> error == (BackendError::NoDatasource {
                    kind: search.kind,
                })
            }
        }),
{
    let tag = match search.kind {
        DatasourceKind::Loki => "loki"@,
        DatasourceKind::Prometheus => "prometheus"@,
    };
    let fits = |d: Datasource|
        d.kind@ == tag && (search.datasource is Some ==> d.name@ == search.datasource->0@);
    assert forall|i: int| 0 <= i < all@.len() implies crate::backend::wanted(
        #[trigger] all@[i],
        search.kind,
        search.datasource,
    ) == fits(all@[i]) by {}
    match result {
        Ok(backend) => {
            let at = choose|i: int| #[trigger]
                crate::backend::is_first_wanted(all@, search.kind, search.datasource, i)
                    && backend.base_url@ == search.base@ + "/api/datasources/proxy/uid/"@
                    + all@[i].uid@;
            assert(fits(all@[at]));
            assert forall|i: int| 0 <= i < at implies !fits(#[trigger] all@[i]) by {
                assert(!crate::backend::wanted(all@[i], search.kind, search.datasource));
            }
            at
        },
        Err(_) => {
            assert forall|i: int| 0 <= i < all@.len() implies !fits(#[trigger] all@[i]) by {
                assert(!crate::backend::wanted(all@[i], search.kind, search.datasource));
            }
            0
        },
    }
}

/// What is selected of a list is what a search takes of it.
pub proof fn selection_is_the_first_that_fits(
    all: &Vec<Datasource>,
    kind: DatasourceKind,
    name: &Option<String>,
    result: Result<&Datasource, BackendError>,
) -> (at: int)
    requires
        call_ensures(select_datasource, (all, kind, name), result),
    ensures
        ({
            let tag = match kind {
                DatasourceKind::Loki => "loki"@,
                DatasourceKind::Prometheus => "prometheus"@,
            };
            let fits = |d: Datasource|
                d.kind@ == tag && (*name is Some ==> d.name@ == name->0@);
            &&& result is Err <==> forall|i: int| 0 <= i < all@.len() ==> !fits(#[trigger] all@[i])
            &&& result matches Ok(chosen) ==> {
                &&& 0 <= at < all@.len()
                &&& *chosen == all@[at]
                &&& fits(all@[at])
                &&& forall|i: int| 0 <= i < at ==> !fits(#[trigger] all@[i])
            }
            &&& result matches Err(error) ==> {
                &&& *name is Some ==> error == (BackendError::NamedDatasourceMissing {
                    kind,
                    name: name->0,
                })
                &&& *name is None ==> error == (BackendError::NoDatasource { kind })
            }
        }),
{
    let tag = match kind {
        DatasourceKind::Loki => "loki"@,
        DatasourceKind::Prometheus => "prometheus"@,
    };
    let fits = |d: Datasource| d.kind@ == tag && (*name is Some ==> d.name@ == name->0@);
    match result {
        Ok(chosen) => {
            let at = choose|i: int| #[trigger]
                crate::backend::is_first_wanted(all@, kind, *name, i) && *chosen == all@[i];
            assert(fits(all@[at]));
            assert forall|i: int| 0 <= i < at implies !fits(#[trigger] all@[i]) by {
                assert(!crate::backend::wanted(all@[i], kind, *name));
            }
            at
        },
        Err(_) => {
            assert forall|i: int| 0 <= i < all@.len() implies !fits(#[trigger] all@[i]) by {
                assert(!crate::backend::wanted(all@[i], kind, *name));
            }
            0
        },
    }
}

/// Where Grafana does not list its datasources, the error says why.
pub proof fn refused_lists_are_told(
    search: Resolution,
    status: String,
    body: String,
    refused: Result<ResolvedBackend, BackendError>,
    detail: String,
    failed: Result<ResolvedBackend, BackendError>,
)
    requires
        call_ensures(
            Resolution::after_datasources,
            (search, DatasourcesReply::Refused { status, body }),
            refused,
        ),
        call_ensures(
            Resolution::after_datasources,
            (search, DatasourcesReply::Failed { detail }),
            failed,
        ),
    ensures
        refused == Err::<ResolvedBackend, BackendError>(
            BackendError::DatasourcesRefused { status, body },
        ),
        failed == Err::<ResolvedBackend, BackendError>(BackendError::Fetch { detail }),
{
}

/// Loki itself is the backend exactly where it is looked for and answered with
/// success; otherwise nothing was reached at the URL.
pub proof fn loki_is_taken_where_it_answers(
    search: Resolution,
    status: Option<u16>,
    result: Result<ResolvedBackend, BackendError>,
)
    requires
        call_ensures(Resolution::after_labels, (search, status), result),
    ensures
        result is Ok <==> search.kind == DatasourceKind::Loki && status is Some && status->0 / 100
            == 2,
        result matches Ok(backend) ==> backend.base_url@ == search.base@ && backend.auth
            == search.auth,
        result matches Err(error) ==> error == (BackendError::Unreachable { base: search.base }),
{
}

/// Errors of a search in words.
pub proof fn search_errors_in_words(error: &BackendError, text: String)
    requires
        call_ensures(BackendError::message, (error,), text),
    ensures
        *error is MissingApiKey ==> text@ == "`username` requires `api_key` to be set"@,
        *error matches BackendError::NamedDatasourceMissing { kind: k, name } ==> text@ == "no "@
            + (if k == DatasourceKind::Loki {
            "Loki"@
        } else {
            "Prometheus"@
        }) + " datasource named "@ + debug_text(name@) + " found in Grafana"@,
        *error matches BackendError::NoDatasource { kind: k } ==> text@ == "no "@ + (if k
            == DatasourceKind::Loki {
            "Loki"@
        } else {
            "Prometheus"@
        }) + " datasource found in Grafana"@,
        *error matches BackendError::DatasourcesRefused { status, body } ==> text@
            == "Grafana datasources API returned "@ + status@ + ": "@ + body@,
        *error matches BackendError::Unreachable { base } ==> text@
            == "could not connect to Grafana or Loki at "@ + base@,
        *error matches BackendError::Fetch { detail } ==> text@ == detail@,
{
}

/// What is said of a datasource that is not listed.
pub proof fn missing_datasources_in_words(kind: DatasourceKind, shown: &str, text: String)
    requires
        call_ensures(missing_datasource_text, (kind, shown), text),
    ensures
        kind == DatasourceKind::Loki ==> text@ == "no Loki datasource named "@ + shown@
            + " found in Grafana"@,
        kind == DatasourceKind::Prometheus ==> text@ == "no Prometheus datasource named "@
            + shown@ + " found in Grafana"@,
{
    reveal_strlit("no ");
    reveal_strlit("Loki");
    reveal_strlit("Prometheus");
    reveal_strlit(" datasource named ");
    reveal_strlit("no Loki datasource named ");
    reveal_strlit("no Prometheus datasource named ");
    assert("no "@ + "Loki"@ + " datasource named "@ =~= "no Loki datasource named "@);
    assert("no "@ + "Prometheus"@ + " datasource named "@ =~= "no Prometheus datasource named "@);
}

} // verus!
