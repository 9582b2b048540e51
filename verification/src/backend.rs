//! Backends: credentials, requests, what a reply means, and which backend a
//! configuration leads to.

use vstd::prelude::*;
use vstd::string::*;

use crate::config::{GrafanaConfig, PrometheusConfig};
use crate::number::{decimal, push_decimal};
use crate::text::{chars_of, debug_text, each_pair, quoted, same, text_of, trim_end, trimmed_end};

verus! {

/// How requests prove who sends them.
#[derive(Debug)]
pub enum Auth {
    /// Requests carry no credentials.
    Anonymous,
    /// A token.
    Bearer(String),
    /// A name and a password.
    Basic { username: String, password: String },
}

/// Credentials that go with a request.
#[derive(Debug)]
pub enum Credential {
    /// A token of the bearer scheme.
    Bearer { token: String },
    /// A name and a password of the basic scheme.
    Basic { username: String, password: String },
}

/// A GET request that is to be sent.
#[derive(Debug)]
pub struct Request {
    pub url: String,
    /// What authorizes the request, in the order in which it is attached.
    pub credentials: Vec<Credential>,
    /// The parameters of the query, not yet encoded.
    pub params: Vec<(String, String)>,
}

impl Auth {
    /// The credentials that this adds to a request.
    pub open spec fn credentials(&self) -> Seq<Credential> {
        match self {
            Auth::Anonymous => Seq::empty(),
            Auth::Bearer(token) => seq![Credential::Bearer { token: *token }],
            Auth::Basic { username, password } => seq![
                Credential::Basic { username: *username, password: *password },
            ],
        }
    }

    /// Attaches the credentials to a request.
    pub fn apply(&self, req: Request) -> (sent: Request)
        ensures
            sent.url == req.url,
            sent.params == req.params,
            sent.credentials@ == req.credentials@ + self.credentials(),
    {
        let mut credentials = req.credentials;
        match self {
            Auth::Anonymous => {},
            Auth::Bearer(token) => {
                credentials.push(Credential::Bearer { token: token.clone() });
            },
            Auth::Basic { username, password } => {
                credentials.push(
                    Credential::Basic { username: username.clone(), password: password.clone() },
                );
            },
        }
        Request { url: req.url, credentials, params: req.params }
    }
}

impl Clone for Auth {
    fn clone(&self) -> (copy: Self)
        ensures
            copy == *self,
    {
        match self {
            Auth::Anonymous => Auth::Anonymous,
            Auth::Bearer(token) => Auth::Bearer(token.clone()),
            Auth::Basic { username, password } => Auth::Basic {
                username: username.clone(),
                password: password.clone(),
            },
        }
    }
}

/// What is said of a status that needs no further explanation.
pub open spec fn http_error(status: u16) -> Seq<char> {
    if status == 401 {
        "authentication failed"@
    } else if status == 403 {
        "access denied"@
    } else if status == 404 {
        "endpoint not found"@
    } else if status >= 500 {
        "server error (HTTP "@ + decimal(status as nat) + ")"@
    } else {
        "HTTP "@ + decimal(status as nat)
    }
}

/// An HTTP status in words.
pub fn map_http_error(status: u16) -> (text: String)
    ensures
        text@ == http_error(status),
{
    if status == 401 {
        "authentication failed".to_owned()
    } else if status == 403 {
        "access denied".to_owned()
    } else if status == 404 {
        "endpoint not found".to_owned()
    } else if status >= 500 {
        let mut out = "server error (HTTP ".to_owned();
        push_decimal(&mut out, status as u64);
        out.append(")");
        out
    } else {
        let mut out = "HTTP ".to_owned();
        push_decimal(&mut out, status as u64);
        out
    }
}

/// A body of at most 500 characters, or the first 500 of a longer one and a
/// note that there is more.
pub open spec fn truncated(body: Seq<char>) -> Seq<char> {
    if body.len() > 500 {
        body.take(500) + " (truncated)"@
    } else {
        body
    }
}

/// Keeps just enough of a reply to be useful, so that no large page ends up
/// in front of the reader.
pub fn truncate_body(body: &str) -> (text: String)
    ensures
        text@ == truncated(body@),
{
    let mut chars = chars_of(body);
    if chars.len() > 500 {
        chars.truncate(500);
        let mut out = text_of(&chars);
        out.append(" (truncated)");
        out
    } else {
        body.to_owned()
    }
}

/// What is kept of a reply is at most twelve characters longer than the limit.
pub proof fn truncated_is_short(body: Seq<char>)
    ensures
        truncated(body).len() <= 512,
        body.len() <= 500 ==> truncated(body) == body,
        body.take(if body.len() <= 500 { body.len() as int } else { 500 }).is_prefix_of(
            truncated(body),
        ),
{
    reveal_strlit(" (truncated)");
}

/// The status says that the request succeeded.
pub open spec fn success(status: u16) -> bool {
    200 <= status < 300
}

/// Whether a status says that the request succeeded.
pub fn is_success(status: u16) -> (r: bool)
    ensures
        r == success(status),
{
    200 <= status && status < 300
}

/// The status says enough by itself: the body need not be read.
pub open spec fn speaks_for_itself(status: u16) -> bool {
    status == 401 || status == 403 || status == 404 || status >= 500
}

/// What to do with a reply.
#[derive(Debug)]
pub enum ReplyStep {
    /// Decode the body.
    Decode,
    /// Give up with this message.
    Fail(String),
    /// Read the body, which explains the failure.
    ReadBody,
}

/// A service that answers HTTP requests.
#[derive(Debug)]
pub struct Endpoint {
    pub base_url: String,
    pub auth: Auth,
    pub name: String,
}

impl Endpoint {
    /// An endpoint at a URL, which may end in slashes.
    pub fn new(base_url: &str, auth: Auth, name: &str) -> (endpoint: Self)
        ensures
            endpoint.base_url@ == trimmed_end(base_url@, '/'),
            endpoint.auth == auth,
            endpoint.name@ == name@,
    {
        Endpoint { base_url: trim_end(base_url, '/'), auth, name: name.to_owned() }
    }

    /// The URL of a path below the endpoint.
    pub fn url(&self, path: &str) -> (url: String)
        ensures
            url@ == self.base_url@ + path@,
    {
        let mut out = self.base_url.clone();
        out.append(path);
        out
    }

    /// The request for a path, with parameters.
    pub fn get_json(&self, path: &str, params: Vec<(String, String)>) -> (request: Request)
        ensures
            request.url@ == self.base_url@ + path@,
            request.params == params,
            request.credentials@ == self.auth.credentials(),
    {
        let request = Request { url: self.url(path), credentials: Vec::new(), params };
        let sent = self.auth.apply(request);
        assert(sent.credentials@ =~= self.auth.credentials());
        sent
    }

    /// What to do with a reply, by its status.
    pub fn on_status(&self, status: u16) -> (step: ReplyStep)
        ensures
            match step {
                ReplyStep::Decode => success(status),
                ReplyStep::Fail(message) => !success(status) && speaks_for_itself(status)
                    && message@ == http_error(status),
                ReplyStep::ReadBody => !success(status) && !speaks_for_itself(status),
            },
    {
        if is_success(status) {
            ReplyStep::Decode
        } else if status == 401 || status == 403 || status == 404 || status >= 500 {
            ReplyStep::Fail(map_http_error(status))
        } else {
            ReplyStep::ReadBody
        }
    }

    /// What is said of a reply whose body explains the failure.
    pub fn on_error_body(&self, status: u16, body: &str) -> (message: String)
        ensures
            message@ == self.name@ + " returned HTTP "@ + decimal(status as nat) + ": "@
                + truncated(body@),
    {
        let mut out = self.name.clone();
        out.append(" returned HTTP ");
        push_decimal(&mut out, status as u64);
        out.append(": ");
        out.append(truncate_body(body).as_str());
        out
    }

    /// What is said of a request that got no reply.
    pub fn on_send_error(&self, unreachable: bool, detail: &str) -> (message: String)
        ensures
            message@ == if unreachable {
                "cannot connect to "@ + self.name@ + ": "@ + detail@
            } else {
                detail@
            },
    {
        if unreachable {
            let mut out = "cannot connect to ".to_owned();
            out.append(self.name.as_str());
            out.append(": ");
            out.append(detail);
            out
        } else {
            detail.to_owned()
        }
    }
}

/// The backend that queries go to.
#[derive(Debug)]
pub struct ResolvedBackend {
    pub base_url: String,
    pub auth: Auth,
}

/// What kind of data a datasource of Grafana holds.
#[derive(Clone, Copy, Debug, PartialEq, Eq, Structural)]
pub enum DatasourceKind {
    Loki,
    Prometheus,
}

/// A datasource that Grafana lists.
#[derive(Debug)]
pub struct Datasource {
    pub uid: String,
    pub name: String,
    pub kind: String,
}

/// Why no backend was found.
#[derive(Debug)]
pub enum BackendError {
    /// A username is given without an API key.
    MissingApiKey,
    /// Grafana lists no datasource of that kind and name.
    NamedDatasourceMissing { kind: DatasourceKind, name: String },
    /// Grafana lists no datasource of that kind.
    NoDatasource { kind: DatasourceKind },
    /// Grafana refuses to list its datasources.
    DatasourcesRefused { status: String, body: String },
    /// Neither Grafana nor Loki answers.
    Unreachable { base: String },
    /// The list of datasources could not be fetched or decoded.
    Fetch { detail: String },
}

impl DatasourceKind {
    /// How Grafana writes the kind.
    pub open spec fn tag(self) -> Seq<char> {
        match self {
            DatasourceKind::Loki => "loki"@,
            DatasourceKind::Prometheus => "prometheus"@,
        }
    }

    /// How a message writes the kind.
    pub open spec fn title(self) -> Seq<char> {
        match self {
            DatasourceKind::Loki => "Loki"@,
            DatasourceKind::Prometheus => "Prometheus"@,
        }
    }

    fn tag_text(self) -> (text: String)
        ensures
            text@ == self.tag(),
    {
        match self {
            DatasourceKind::Loki => "loki".to_owned(),
            DatasourceKind::Prometheus => "prometheus".to_owned(),
        }
    }

    fn title_text(self) -> (text: String)
        ensures
            text@ == self.title(),
    {
        match self {
            DatasourceKind::Loki => "Loki".to_owned(),
            DatasourceKind::Prometheus => "Prometheus".to_owned(),
        }
    }
}

/// What is said of a datasource that Grafana does not list, whose name is
/// shown between quotation marks.
pub fn missing_datasource_text(kind: DatasourceKind, shown: &str) -> (text: String)
    ensures
        text@ == "no "@ + kind.title() + " datasource named "@ + shown@ + " found in Grafana"@,
{
    let mut out = "no ".to_owned();
    out.append(kind.title_text().as_str());
    out.append(" datasource named ");
    out.append(shown);
    out.append(" found in Grafana");
    out
}

impl BackendError {
    /// The error in words.
    pub open spec fn words(&self) -> Seq<char> {
        match self {
            BackendError::MissingApiKey => "`username` requires `api_key` to be set"@,
            BackendError::NamedDatasourceMissing { kind, name } => "no "@ + kind.title()
                + " datasource named "@ + debug_text(name@) + " found in Grafana"@,
            BackendError::NoDatasource { kind } => "no "@ + kind.title()
                + " datasource found in Grafana"@,
            BackendError::DatasourcesRefused { status, body }
                => "Grafana datasources API returned "@ + status@ + ": "@ + body@,
            BackendError::Unreachable { base } => "could not connect to Grafana or Loki at "@
                + base@,
            BackendError::Fetch { detail } => detail@,
        }
    }

    /// The error in words.
    pub fn message(&self) -> (text: String)
        ensures
            text@ == self.words(),
    {
        match self {
            BackendError::MissingApiKey => "`username` requires `api_key` to be set".to_owned(),
            BackendError::NamedDatasourceMissing { kind, name } => missing_datasource_text(
                *kind,
                quoted(name.as_str()).as_str(),
            ),
            BackendError::NoDatasource { kind } => {
                let mut out = "no ".to_owned();
                out.append(kind.title_text().as_str());
                out.append(" datasource found in Grafana");
                out
            },
            BackendError::DatasourcesRefused { status, body } => {
                let mut out = "Grafana datasources API returned ".to_owned();
                out.append(status.as_str());
                out.append(": ");
                out.append(body.as_str());
                out
            },
            BackendError::Unreachable { base } => {
                let mut out = "could not connect to Grafana or Loki at ".to_owned();
                out.append(base.as_str());
                out
            },
            BackendError::Fetch { detail } => detail.clone(),
        }
    }
}

/// The credentials that a configuration asks for.
pub open spec fn auth_of(config: GrafanaConfig) -> Option<Auth> {
    match (config.username, config.api_key) {
        (Some(username), Some(password)) => Some(Auth::Basic { username, password }),
        (Some(_), None) => None,
        (None, Some(token)) => Some(Auth::Bearer(token)),
        (None, None) => Some(Auth::Anonymous),
    }
}

/// The credentials that a configuration asks for: basic where a username is
/// given, which then needs an API key; bearer where only an API key is.
pub fn build_auth(config: &GrafanaConfig) -> (result: Result<Auth, BackendError>)
    ensures
        match result {
            Ok(auth) => auth_of(*config) == Some(auth),
            Err(error) => auth_of(*config) is None && error is MissingApiKey,
        },
{
    match (&config.username, &config.api_key) {
        (Some(username), Some(key)) => Ok(
            Auth::Basic { username: username.clone(), password: key.clone() },
        ),
        (Some(_), None) => Err(BackendError::MissingApiKey),
        (None, Some(key)) => Ok(Auth::Bearer(key.clone())),
        (None, None) => Ok(Auth::Anonymous),
    }
}

/// A search for the backend of a configuration, before anything was sent.
#[derive(Debug)]
pub struct Resolution {
    /// The configured URL without slashes at its end.
    pub base: String,
    pub auth: Auth,
    /// The kind of datasource to look for.
    pub kind: DatasourceKind,
    /// The name of the datasource to look for, or none to take the first.
    pub datasource: Option<String>,
}

/// What the health check of Grafana gave.
#[derive(Debug)]
pub enum HealthProbe {
    /// No reply came.
    NoReply,
    /// A reply came. Its body names the state of Grafana's database, or is
    /// nothing of Grafana's.
    Reply { status: u16, database: Option<String> },
}

/// What to ask next.
#[derive(Debug)]
pub enum NextProbe {
    /// It is Grafana: ask for its datasources.
    Datasources(Request),
    /// It is not, and Loki is looked for: ask for its labels.
    Labels(Request),
    /// It is not, and only a Grafana leads to what is looked for: ask nothing.
    Nothing,
}

/// What asking for the datasources gave.
#[derive(Debug)]
pub enum DatasourcesReply {
    /// No reply came, or none that could be decoded.
    Failed { detail: String },
    /// A reply came whose status is not one of success.
    Refused { status: String, body: String },
    /// The list came.
    Listed(Vec<Datasource>),
}

impl HealthProbe {
    /// The reply is that of a working Grafana.
    pub open spec fn is_grafana(&self) -> bool {
        match self {
            HealthProbe::NoReply => false,
            HealthProbe::Reply { status, database } => success(*status) && (database matches Some(
                state,
            ) && state@ == "ok"@),
        }
    }

    fn shows_grafana(&self) -> (r: bool)
        ensures
            r == self.is_grafana(),
    {
        match self {
            HealthProbe::NoReply => false,
            HealthProbe::Reply { status, database } => match database {
                Some(state) => is_success(*status) && same(state.as_str(), "ok"),
                None => false,
            },
        }
    }
}

/// The datasource is of the kind, and of the name where one is asked for.
pub open spec fn wanted(
    datasource: Datasource,
    kind: DatasourceKind,
    name: Option<String>,
) -> bool {
    &&& datasource.kind@ == kind.tag()
    &&& name matches Some(n) ==> datasource.name@ == n@
}

/// The datasource at a place in the list is the first that is wanted.
pub open spec fn is_first_wanted(
    all: Seq<Datasource>,
    kind: DatasourceKind,
    name: Option<String>,
    i: int,
) -> bool {
    &&& 0 <= i < all.len()
    &&& wanted(all[i], kind, name)
    &&& forall|j: int| 0 <= j < i ==> !wanted(#[trigger] all[j], kind, name)
}

/// No datasource of the list is wanted.
pub open spec fn none_wanted(
    all: Seq<Datasource>,
    kind: DatasourceKind,
    name: Option<String>,
) -> bool {
    forall|j: int| 0 <= j < all.len() ==> !wanted(#[trigger] all[j], kind, name)
}

/// The first datasource of a kind and, where one is asked for, of a name.
pub fn select_datasource<'a>(
    all: &'a Vec<Datasource>,
    kind: DatasourceKind,
    name: &Option<String>,
) -> (result: Result<&'a Datasource, BackendError>)
    ensures
        match result {
            Ok(chosen) => exists|i: int|
                #[trigger] is_first_wanted(all@, kind, *name, i) && *chosen == all@[i],
            Err(BackendError::NamedDatasourceMissing { kind: k, name: n }) => none_wanted(
                all@,
                kind,
                *name,
            ) && k == kind && *name == Some(n),
            Err(BackendError::NoDatasource { kind: k }) => none_wanted(all@, kind, *name) && k
                == kind && name is None,
            Err(_) => false,
        },
{
    let tag = kind.tag_text();
    let mut i: usize = 0;
    while i < all.len()
        invariant
            i <= all@.len(),
            tag@ == kind.tag(),
            forall|j: int| 0 <= j < i ==> !wanted(#[trigger] all@[j], kind, *name),
        decreases all@.len() - i,
    {
        let named: bool = match name {
            Some(n) => same(all[i].name.as_str(), n.as_str()),
            None => true,
        };
        if named && same(all[i].kind.as_str(), tag.as_str()) {
            assert(is_first_wanted(all@, kind, *name, i as int));
            return Ok(&all[i]);
        }
        i = i + 1;
    }
    match name {
        Some(n) => Err(BackendError::NamedDatasourceMissing { kind, name: n.clone() }),
        None => Err(BackendError::NoDatasource { kind }),
    }
}

/// Begins the search for the Loki backend of a configuration.
pub fn resolve(config: &GrafanaConfig) -> (result: Result<Resolution, BackendError>)
    ensures
        match result {
            Ok(search) => {
                &&& auth_of(*config) == Some(search.auth)
                &&& search.base@ == trimmed_end(config.url@, '/')
                &&& search.kind == DatasourceKind::Loki
                &&& search.datasource == config.datasource
            },
            Err(error) => auth_of(*config) is None && error is MissingApiKey,
        },
{
    match build_auth(config) {
        Ok(auth) => Ok(
            Resolution {
                base: trim_end(config.url.as_str(), '/'),
                auth,
                kind: DatasourceKind::Loki,
                datasource: copy_option(&config.datasource),
            },
        ),
        Err(error) => Err(error),
    }
}

/// Begins the search for the Prometheus backend of a configuration.
pub fn resolve_prometheus(config: &GrafanaConfig, prometheus: &PrometheusConfig) -> (result: Result<
    Resolution,
    BackendError,
>)
    ensures
        match result {
            Ok(search) => {
                &&& auth_of(*config) == Some(search.auth)
                &&& search.base@ == trimmed_end(config.url@, '/')
                &&& search.kind == DatasourceKind::Prometheus
                &&& search.datasource == prometheus.datasource
            },
            Err(error) => auth_of(*config) is None && error is MissingApiKey,
        },
{
    match build_auth(config) {
        Ok(auth) => Ok(
            Resolution {
                base: trim_end(config.url.as_str(), '/'),
                auth,
                kind: DatasourceKind::Prometheus,
                datasource: copy_option(&prometheus.datasource),
            },
        ),
        Err(error) => Err(error),
    }
}

fn copy_option(text: &Option<String>) -> (copy: Option<String>)
    ensures
        copy == *text,
{
    match text {
        Some(t) => Some(t.clone()),
        None => None,
    }
}

impl Resolution {
    /// A request below the configured URL, without parameters.
    pub open spec fn asks(&self, request: Request, path: Seq<char>) -> bool {
        &&& request.url@ == self.base@ + path
        &&& request.params@ == Seq::<(String, String)>::empty()
        &&& request.credentials@ == self.auth.credentials()
    }

    /// The result is what the list of datasources leads to: Grafana's proxy
    /// to the datasource that is wanted.
    pub open spec fn datasources_outcome(
        &self,
        reply: DatasourcesReply,
        result: Result<ResolvedBackend, BackendError>,
    ) -> bool {
        match reply {
            DatasourcesReply::Failed { detail } => result matches Err(
                BackendError::Fetch { detail: d },
            ) && d == detail,
            DatasourcesReply::Refused { status, body } => result matches Err(
                BackendError::DatasourcesRefused { status: s, body: b },
            ) && s == status && b == body,
            DatasourcesReply::Listed(all) => match result {
                Ok(backend) => {
                    &&& backend.auth == self.auth
                    &&& exists|i: int| #[trigger]
                        is_first_wanted(all@, self.kind, self.datasource, i)
                            && backend.base_url@ == self.base@ + "/api/datasources/proxy/uid/"@
                            + all@[i].uid@
                },
                Err(BackendError::NamedDatasourceMissing { kind, name }) => none_wanted(
                    all@,
                    self.kind,
                    self.datasource,
                ) && kind == self.kind && self.datasource == Some(name),
                Err(BackendError::NoDatasource { kind }) => none_wanted(
                    all@,
                    self.kind,
                    self.datasource,
                ) && kind == self.kind && self.datasource is None,
                Err(_) => false,
            },
        }
    }

    /// The result is what asking for the labels of Loki leads to: Loki itself
    /// where it is looked for and a reply came that succeeded.
    pub open spec fn labels_outcome(
        &self,
        status: Option<u16>,
        result: Result<ResolvedBackend, BackendError>,
    ) -> bool {
        let found = self.kind == DatasourceKind::Loki && (status matches Some(s) && success(s));
        match result {
            Ok(backend) => found && backend.base_url == self.base && backend.auth == self.auth,
            Err(BackendError::Unreachable { base }) => !found && base == self.base,
            Err(_) => false,
        }
    }

    /// The result is what the whole search leads to, given what each question
    /// that it may ask is answered: a backend, none, or an error.
    pub open spec fn outcome(
        &self,
        probe: HealthProbe,
        reply: DatasourcesReply,
        status: Option<u16>,
        result: Result<Option<ResolvedBackend>, BackendError>,
    ) -> bool {
        match result {
            Ok(Some(backend)) => if probe.is_grafana() {
                self.datasources_outcome(reply, Ok(backend))
            } else {
                self.labels_outcome(status, Ok(backend))
            },
            Ok(None) => !probe.is_grafana() && self.kind == DatasourceKind::Prometheus,
            Err(error) => if probe.is_grafana() {
                self.datasources_outcome(reply, Err(error))
            } else {
                self.kind == DatasourceKind::Loki && self.labels_outcome(status, Err(error))
            },
        }
    }

    fn request(&self, path: &str) -> (request: Request)
        ensures
            self.asks(request, path@),
    {
        let mut url = self.base.clone();
        url.append(path);
        let request = Request { url, credentials: Vec::new(), params: Vec::new() };
        let sent = self.auth.apply(request);
        assert(sent.credentials@ =~= self.auth.credentials());
        sent
    }

    /// The request that tells a Grafana.
    pub fn health_request(&self) -> (request: Request)
        ensures
            self.asks(request, "/api/health"@),
    {
        self.request("/api/health")
    }

    /// What to ask once the health check is done: a Grafana for its
    /// datasources, anything else for the labels of Loki, where Loki is looked
    /// for. Only a Grafana leads to a Prometheus.
    pub fn after_health(&self, probe: &HealthProbe) -> (next: NextProbe)
        ensures
            match next {
                NextProbe::Datasources(request) => probe.is_grafana() && self.asks(
                    request,
                    "/api/datasources"@,
                ),
                NextProbe::Labels(request) => !probe.is_grafana() && self.kind
                    == DatasourceKind::Loki && self.asks(request, "/loki/api/v1/labels"@),
                NextProbe::Nothing => !probe.is_grafana() && self.kind
                    == DatasourceKind::Prometheus,
            },
    {
        if probe.shows_grafana() {
            NextProbe::Datasources(self.request("/api/datasources"))
        } else {
            match self.kind {
                DatasourceKind::Loki => NextProbe::Labels(self.request("/loki/api/v1/labels")),
                DatasourceKind::Prometheus => NextProbe::Nothing,
            }
        }
    }

    /// The backend, once Grafana was asked for its datasources: its proxy to
    /// the datasource that is wanted.
    pub fn after_datasources(self, reply: DatasourcesReply) -> (result: Result<
        ResolvedBackend,
        BackendError,
    >)
        ensures
            self.datasources_outcome(reply, result),
    {
        match reply {
            DatasourcesReply::Failed { detail } => Err(BackendError::Fetch { detail }),
            DatasourcesReply::Refused { status, body } => Err(
                BackendError::DatasourcesRefused { status, body },
            ),
            DatasourcesReply::Listed(all) => {
                match select_datasource(&all, self.kind, &self.datasource) {
                    Ok(chosen) => {
                        let mut base_url = self.base;
                        base_url.append("/api/datasources/proxy/uid/");
                        base_url.append(chosen.uid.as_str());
                        Ok(ResolvedBackend { base_url, auth: self.auth })
                    },
                    Err(error) => Err(error),
                }
            },
        }
    }

    /// The backend, once the labels of Loki were asked for: Loki itself where
    /// it is looked for and a reply came that succeeded.
    pub fn after_labels(self, status: Option<u16>) -> (result: Result<
        ResolvedBackend,
        BackendError,
    >)
        ensures
            self.labels_outcome(status, result),
    {
        let answered: bool = match status {
            Some(s) => is_success(s),
            None => false,
        };
        if self.kind == DatasourceKind::Loki && answered {
            Ok(ResolvedBackend { base_url: self.base, auth: self.auth })
        } else {
            Err(BackendError::Unreachable { base: self.base })
        }
    }
}

/// Whatever a search is answered, the backend that it finds has the
/// credentials of the configuration and lies at or below its URL.
pub proof fn backend_keeps_auth_and_base(
    search: Resolution,
    probe: HealthProbe,
    reply: DatasourcesReply,
    status: Option<u16>,
    backend: ResolvedBackend,
)
    requires
        search.outcome(probe, reply, status, Ok(Some(backend))),
    ensures
        backend.auth == search.auth,
        search.base@.is_prefix_of(backend.base_url@),
{
}

/// Only a Grafana leads to a Prometheus; a search for Loki never ends without
/// a backend or an error.
pub proof fn prometheus_only_through_grafana(
    search: Resolution,
    probe: HealthProbe,
    reply: DatasourcesReply,
    status: Option<u16>,
    result: Result<Option<ResolvedBackend>, BackendError>,
)
    requires
        search.outcome(probe, reply, status, result),
    ensures
        search.kind == DatasourceKind::Prometheus && (result matches Ok(Some(_)))
            ==> probe.is_grafana(),
        (result matches Ok(None)) <==> search.kind == DatasourceKind::Prometheus
            && !probe.is_grafana(),
{
}

/// The same answers lead a search to the same end.
pub proof fn search_is_determined(
    search: Resolution,
    probe: HealthProbe,
    reply: DatasourcesReply,
    status: Option<u16>,
    a: Result<Option<ResolvedBackend>, BackendError>,
    b: Result<Option<ResolvedBackend>, BackendError>,
)
    requires
        search.outcome(probe, reply, status, a),
        search.outcome(probe, reply, status, b),
    ensures
        match (a, b) {
            (Ok(Some(x)), Ok(Some(y))) => x.base_url@ == y.base_url@ && x.auth == y.auth,
            (Ok(None), Ok(None)) => true,
            (Err(x), Err(y)) => x == y,
            _ => false,
        },
{
    if probe.is_grafana() {
        if let DatasourcesReply::Listed(all) = reply {
            assert forall|i: int, j: int|
                is_first_wanted(all@, search.kind, search.datasource, i) && is_first_wanted(
                    all@,
                    search.kind,
                    search.datasource,
                    j,
                ) implies i == j by {
                if i < j {
                    assert(!wanted(all@[i], search.kind, search.datasource));
                }
                if j < i {
                    assert(!wanted(all@[j], search.kind, search.datasource));
                }
            }
        }
    }
}

} // verus!
