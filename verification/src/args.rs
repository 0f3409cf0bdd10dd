//! What a run is configured with.

use vstd::prelude::*;

verus! {

/// How the token for the store is obtained.
#[derive(Clone, PartialEq)]
pub enum AuthMethod {
    /// No token: requests go out without one.
    Anonymous,
    /// Exchange a GitHub personal access token.
    GitHub(String),
    /// Exchange the service account's token under a Kubernetes role.
    Kubernetes(String),
    /// Use this token.
    Token(String),
}

/// Mathematical value of an [`AuthMethod`].
pub enum AuthMethodView {
    Anonymous,
    GitHub(Seq<char>),
    Kubernetes(Seq<char>),
    Token(Seq<char>),
}

impl View for AuthMethod {
    type V = AuthMethodView;

    open spec fn view(&self) -> AuthMethodView {
        match self {
            AuthMethod::Anonymous => AuthMethodView::Anonymous,
            AuthMethod::GitHub(pat) => AuthMethodView::GitHub(pat@),
            AuthMethod::Kubernetes(role) => AuthMethodView::Kubernetes(role@),
            AuthMethod::Token(token) => AuthMethodView::Token(token@),
        }
    }
}

/// The settings of a run.
#[derive(Debug, Clone)]
pub struct Args {
    /// Address of the store.
    pub host: String,
    /// Authenticate with this token.
    pub token: Option<String>,
    /// Authenticate with a GitHub personal access token.
    pub github_token: Option<String>,
    /// Authenticate as the Kubernetes service account, under this role.
    pub kubernetes_role: Option<String>,
    /// The file that declares the secrets.
    pub secrets_file: String,
    /// Command to run after fetching secrets.
    pub cmd: String,
    /// Arguments to pass to the command.
    pub args: Vec<String>,
    /// Number of retries per query.
    pub retries: usize,
    /// Delay between retries (in ms).
    pub retry_delay_ms: u64,
    /// Number of parallel requests to the store.
    pub concurrency: usize,
    /// Clear the environment of the spawned process before spawning.
    pub clear_env: bool,
    /// Keep the spawned process attached as a child of this process.
    pub attach: bool,
}

/// The method that is used when several are configured: a token before a
/// Kubernetes role, a role before a GitHub token, and none of them last.
pub open spec fn chosen_method(
    token: Option<String>,
    kubernetes_role: Option<String>,
    github_token: Option<String>,
) -> AuthMethodView {
    match token {
        Some(t) => AuthMethodView::Token(t@),
        None => match kubernetes_role {
            Some(role) => AuthMethodView::Kubernetes(role@),
            None => match github_token {
                Some(pat) => AuthMethodView::GitHub(pat@),
                None => AuthMethodView::Anonymous,
            },
        },
    }
}

impl Args {
    /// The one method of authentication that the run uses.
    pub fn auth_method(&self) -> (method: AuthMethod)
        ensures
            method@ == chosen_method(self.token, self.kubernetes_role, self.github_token),
    {
        match &self.token {
            Some(t) => AuthMethod::Token(t.clone()),
            None => match &self.kubernetes_role {
                Some(role) => AuthMethod::Kubernetes(role.clone()),
                None => match &self.github_token {
                    Some(pat) => AuthMethod::GitHub(pat.clone()),
                    None => AuthMethod::Anonymous,
                },
            },
        }
    }
}

} // verus!
