//! Requests to the store and what its replies mean.
//!
//! Nothing here sends anything. A caller sends each [`Request`] and hands
//! back the [`Reply`].

use core::time::Duration;
use vstd::prelude::*;
use vstd::string::StringExecFns;

use crate::error::{Error, ErrorView};
use crate::json::{json_read, Json};
use crate::secrets::{Secret, SecretSpec, SecretSpecView, SecretView};
use crate::text::{decimal, decimal_string, pair_views, string_views};

verus! {


/// How a request is made.
#[derive(Debug, Clone, Copy, PartialEq, Eq, Structural)]
pub enum Method {
    /// Ask for a document.
    Get,
    /// Hand in a document.
    Post,
}

/// A request to the store. It may hold credentials, and so has no form for
/// diagnostics.
#[derive(PartialEq)]
pub struct Request {
    /// How the request is made.
    pub method: Method,
    /// Where it goes.
    pub url: String,
    /// Its headers, each with its name.
    pub headers: Vec<(String, String)>,
    /// The members of the JSON object that it hands in, if it hands one in:
    /// each a name and a string.
    pub body: Option<Vec<(String, String)>>,
}

/// Mathematical value of a [`Request`].
pub struct RequestView {
    pub method: Method,
    pub url: Seq<char>,
    pub headers: Seq<(Seq<char>, Seq<char>)>,
    pub body: Option<Seq<(Seq<char>, Seq<char>)>>,
}

impl View for Request {
    type V = RequestView;

    open spec fn view(&self) -> RequestView {
        RequestView {
            method: self.method,
            url: self.url@,
            headers: pair_views(self.headers@),
            body: match self.body {
                Some(members) => Some(pair_views(members@)),
                None => None,
            },
        }
    }
}

/// What came of a request. It may hold secrets, and so has no form for
/// diagnostics.
#[derive(PartialEq)]
pub enum Reply {
    /// No answer came: why not.
    Failed(String),
    /// The store answered.
    Answer {
        /// The status code of the answer.
        status: u16,
        /// The text of the answer.
        body: String,
    },
}

/// The two layouts in which the store keeps secrets.
#[derive(Debug, Clone, Copy, PartialEq, Eq, Structural)]
pub enum Version {
    /// The document holds the fields.
    V1,
    /// The document holds the fields one level deeper, and the address has
    /// `data` between mount and path.
    V2,
}

/// The address of the document of a secret.
pub open spec fn secret_url(
    host: Seq<char>,
    mount: Seq<char>,
    path: Seq<char>,
    version: Version,
) -> Seq<char> {
    match version {
        Version::V1 => host + "/v1/"@ + mount + "/"@ + path,
        Version::V2 => host + "/v1/"@ + mount + "/data/"@ + path,
    }
}

/// The headers of a request for a secret: the token, if there is one.
pub open spec fn token_headers(token: Option<Seq<char>>) -> Seq<(Seq<char>, Seq<char>)> {
    match token {
        Some(t) => seq![("X-Vault-Token"@, t)],
        None => Seq::empty(),
    }
}

/// The request for the document of a secret.
pub open spec fn secret_request(
    host: Seq<char>,
    token: Option<Seq<char>>,
    spec: SecretSpecView,
    version: Version,
) -> RequestView {
    RequestView {
        method: Method::Get,
        url: secret_url(host, spec.mount, spec.path, version),
        headers: token_headers(token),
        body: None,
    }
}

/// The value of an optional string.
pub open spec fn option_view(s: Option<&str>) -> Option<Seq<char>> {
    match s {
        Some(t) => Some(t@),
        None => None,
    }
}

/// Builds the request for the document of a secret.
pub fn request_secret(host: &str, token: Option<&str>, spec: &SecretSpec, version: Version) -> (r:
    Request)
    ensures
        r@ == secret_request(host@, option_view(token), spec@, version),
{
    let mut url = host.to_owned();
    url.append("/v1/");
    url.append(spec.mount.as_str());
    match version {
        Version::V1 => {
            url.append("/");
        },
        Version::V2 => {
            url.append("/data/");
        },
    }
    url.append(spec.path.as_str());
    let mut headers: Vec<(String, String)> = Vec::new();
    match token {
        Some(t) => {
            headers.push(("X-Vault-Token".to_owned(), t.to_owned()));
            proof {
                assert(pair_views(headers@) == seq![("X-Vault-Token"@, t@)]);
            }
        },
        None => {
            proof {
                assert(pair_views(headers@) == Seq::<(Seq<char>, Seq<char>)>::empty());
            }
        },
    }
    Request { method: Method::Get, url, headers, body: None }
}

/// The headers of a request that hands in a JSON document.
pub open spec fn json_header_views() -> Seq<(Seq<char>, Seq<char>)> {
    seq![("content-type"@, "application/json"@)]
}

/// The headers of a request that hands in a JSON document.
pub fn json_headers() -> (headers: Vec<(String, String)>)
    ensures
        pair_views(headers@) == json_header_views(),
{
    let mut headers: Vec<(String, String)> = Vec::new();
    headers.push(("content-type".to_owned(), "application/json".to_owned()));
    proof {
        assert(pair_views(headers@) == json_header_views());
    }
    headers
}

/// Whether a status code reports success.
pub open spec fn is_success(status: u16) -> bool {
    200 <= status <= 299
}

/// Whether a status code reports an error of the client or of the server.
pub open spec fn is_error(status: u16) -> bool {
    400 <= status <= 599
}

/// What is reported of an answer with a status that is not accepted.
pub open spec fn status_message(status: u16, url: Seq<char>, body: Seq<char>) -> Seq<char> {
    "HTTP status server error ("@ + decimal(status as nat) + ") for url ("@ + url + "): "@ + body
}

/// The error for an answer with a status that is not accepted.
pub fn status_error(status: u16, url: &str, body: &str) -> (e: Error)
    ensures
        e@ == ErrorView::Reqwest(status_message(status, url@, body@)),
{
    let mut message = "HTTP status server error (".to_owned();
    message.append(decimal_string(status as usize).as_str());
    message.append(") for url (");
    message.append(url);
    message.append("): ");
    message.append(body);
    Error::Reqwest(message)
}

/// The first `n` names of `path`, each behind a dot.
pub open spec fn path_text(path: Seq<Seq<char>>, n: int) -> Seq<char>
    decreases n,
{
    if n <= 0 {
        Seq::empty()
    } else {
        path_text(path, n - 1) + seq!['.'] + path[n - 1]
    }
}

/// What is reported of a document that lacks the member that the first `n`
/// names of `path` lead to.
pub open spec fn missing_message(path: Seq<Seq<char>>, n: int) -> Seq<char> {
    "vault response does not contain "@ + path_text(path, n)
}

/// What is reported of a member that is there but is no string.
pub open spec fn not_text_message(what: Seq<char>) -> Seq<char> {
    "vault response "@ + what + " cannot be made into a string or is empty"@
}

/// The string that the names of `path` from position `at` on lead to, going
/// down from `document`: a missing member on the way is an error that names
/// the way to it, and so is a value at the end that is no string.
pub open spec fn read_from(document: Json, path: Seq<Seq<char>>, at: int, what: Seq<char>) -> Result<
    Seq<char>,
    ErrorView,
>
    decreases path.len() - at,
{
    if at < 0 || at >= path.len() {
        match document.text() {
            Some(t) => Ok(t),
            None => Err(ErrorView::Deserialization(not_text_message(what))),
        }
    } else {
        match document.member(path[at]) {
            Some(next) => read_from(next, path, at + 1, what),
            None => Err(ErrorView::NotFound(missing_message(path, at + 1))),
        }
    }
}

/// The value of a string or an error.
pub open spec fn text_result_view(r: Result<String, Error>) -> Result<Seq<char>, ErrorView> {
    match r {
        Ok(s) => Ok(s@),
        Err(e) => Err(e@),
    }
}

/// Reads the string that `path` leads to in `document`. `what` names it in
/// the error for a value that is no string.
pub fn read_text(document: &Json, path: &Vec<String>, what: &str) -> (r: Result<String, Error>)
    ensures
        text_result_view(r) == read_from(*document, string_views(path@), 0, what@),
{
    let mut current: &Json = document;
    let mut way = "vault response does not contain ".to_owned();
    let mut at: usize = 0;
    while at < path.len()
        invariant
            at <= path.len(),
            way@ == missing_message(string_views(path@), at as int),
            read_from(*document, string_views(path@), 0, what@) == read_from(
                *current,
                string_views(path@),
                at as int,
                what@,
            ),
        decreases path.len() - at,
    {
        way.append(".");
        way.append(path[at].as_str());
        proof {
            reveal_strlit(".");
            assert("."@ == seq!['.']);
            assert(string_views(path@)[at as int] == path[at as int]@);
            assert(way@ == missing_message(string_views(path@), at + 1));
        }
        match current.get(path[at].as_str()) {
            Some(next) => {
                current = next;
            },
            None => {
                return Err(Error::NotFound(way));
            },
        }
        at += 1;
    }
    match current.as_str() {
        Some(s) => Ok(s.to_owned()),
        None => {
            let mut message = "vault response ".to_owned();
            message.append(what);
            message.append(" cannot be made into a string or is empty");
            Err(Error::Deserialization(message))
        },
    }
}

/// The names that lead to a secret's field in its document.
pub open spec fn secret_path(version: Version, key: Seq<char>) -> Seq<Seq<char>> {
    match version {
        Version::V1 => seq!["data"@, key],
        Version::V2 => seq!["data"@, "data"@, key],
    }
}

/// The names that lead to the token in the answer to a login.
pub open spec fn token_path() -> Seq<Seq<char>> {
    seq!["auth"@, "client_token"@]
}

/// The secret that a document holds for a declaration, or why it holds none.
pub open spec fn secret_in_document(document: Json, spec: SecretSpecView, version: Version) -> Result<
    SecretView,
    ErrorView,
> {
    match read_from(document, secret_path(version, spec.secret), 0, "secret"@) {
        Ok(value) => Ok(SecretView { name: spec.env_name(), secret: value }),
        Err(e) => Err(e),
    }
}

/// The value of a secret or an error.
pub open spec fn secret_result_view(r: Result<Secret, Error>) -> Result<SecretView, ErrorView> {
    match r {
        Ok(s) => Ok(s@),
        Err(e) => Err(e@),
    }
}

/// Takes the secret that `spec` declares out of its document.
pub fn secret_from_document(document: &Json, spec: &SecretSpec, version: Version) -> (r: Result<
    Secret,
    Error,
>)
    ensures
        secret_result_view(r) == secret_in_document(*document, spec@, version),
{
    let mut path: Vec<String> = Vec::new();
    path.push("data".to_owned());
    match version {
        Version::V1 => {},
        Version::V2 => {
            path.push("data".to_owned());
        },
    }
    path.push(spec.secret.clone());
    proof {
        assert(string_views(path@) == secret_path(version, spec.secret@));
    }
    match read_text(document, &path, "secret") {
        Ok(value) => Ok(Secret { name: spec.name(), secret: value }),
        Err(e) => Err(e),
    }
}

/// Takes the token out of the answer to a login.
pub fn token_from_document(document: &Json) -> (r: Result<String, Error>)
    ensures
        text_result_view(r) == read_from(*document, token_path(), 0, "token"@),
{
    let mut path: Vec<String> = Vec::new();
    path.push("auth".to_owned());
    path.push("client_token".to_owned());
    proof {
        assert(string_views(path@) == token_path());
    }
    read_text(document, &path, "token")
}

/// What a reply to the request for a secret means, given what the text of
/// the answer reads as: the secret, or the failure. No answer, a status other
/// than success, a text that is no JSON document and a document without the
/// field as a string are failures.
pub open spec fn secret_in_reply(
    reply: Reply,
    read: Result<Json, Seq<char>>,
    url: Seq<char>,
    spec: SecretSpecView,
    version: Version,
) -> Result<SecretView, ErrorView> {
    match reply {
        Reply::Failed(why) => Err(ErrorView::Reqwest(why@)),
        Reply::Answer { status, body } => if !is_success(status) {
            Err(ErrorView::Reqwest(status_message(status, url, body@)))
        } else {
            match read {
                Err(why) => Err(ErrorView::Deserialization(why)),
                Ok(document) => secret_in_document(document, spec, version),
            }
        },
    }
}

/// What the text of a reply reads as; of a reply without an answer this is
/// never asked.
pub open spec fn reply_read(reply: Reply) -> Result<Json, Seq<char>> {
    match reply {
        Reply::Failed(why) => Err(why@),
        Reply::Answer { status, body } => json_read(body@),
    }
}

/// Reads the reply to the request for a secret that went to `url`.
pub fn secret_from_reply(reply: &Reply, url: &str, spec: &SecretSpec, version: Version) -> (r:
    Result<Secret, Error>)
    ensures
        secret_result_view(r) == secret_in_reply(*reply, reply_read(*reply), url@, spec@, version),
{
    match reply {
        Reply::Failed(why) => Err(Error::Reqwest(why.clone())),
        Reply::Answer { status, body } => {
            if !(200 <= *status && *status <= 299) {
                Err(status_error(*status, url, body.as_str()))
            } else {
                match Json::parse(body.as_str()) {
                    Err(why) => Err(Error::Deserialization(why)),
                    Ok(document) => secret_from_document(&document, spec, version),
                }
            }
        },
    }
}

/// What a reply to a login means, given what the text of the answer reads
/// as: the token, or the failure. No answer, a status that reports an error,
/// a text that is no JSON document and a document without the token as a
/// string are failures.
pub open spec fn token_in_reply(reply: Reply, read: Result<Json, Seq<char>>, url: Seq<char>) -> Result<
    Seq<char>,
    ErrorView,
> {
    match reply {
        Reply::Failed(why) => Err(ErrorView::Reqwest(why@)),
        Reply::Answer { status, body } => if is_error(status) {
            Err(ErrorView::Reqwest(status_message(status, url, body@)))
        } else {
            match read {
                Err(why) => Err(ErrorView::Deserialization(why)),
                Ok(document) => read_from(document, token_path(), 0, "token"@),
            }
        },
    }
}

/// Reads the reply to a login that went to `url`.
pub fn token_from_reply(reply: &Reply, url: &str) -> (r: Result<String, Error>)
    ensures
        text_result_view(r) == token_in_reply(*reply, reply_read(*reply), url@),
{
    match reply {
        Reply::Failed(why) => Err(Error::Reqwest(why.clone())),
        Reply::Answer { status, body } => {
            if 400 <= *status && *status <= 599 {
                Err(status_error(*status, url, body.as_str()))
            } else {
                match Json::parse(body.as_str()) {
                    Err(why) => Err(Error::Deserialization(why)),
                    Ok(document) => token_from_document(&document),
                }
            }
        },
    }
}

/// Options passed to the fetch of the token.
#[derive(Debug, Clone, Copy)]
pub struct FetchTokenOpts {
    /// Number of retries per query.
    pub retries: usize,
    /// Delay between retries.
    pub retry_delay: Duration,
}

/// Options passed to the fetch of all secrets.
#[derive(Debug, Clone, Copy)]
pub struct FetchAllOpts {
    /// Number of retries per query.
    pub retries: usize,
    /// Delay between retries.
    pub retry_delay: Duration,
    /// Number of parallel requests to the store.
    pub concurrency: usize,
}

} // verus!
