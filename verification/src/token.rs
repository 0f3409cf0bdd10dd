//! How the token for the store is come by.

use vstd::prelude::*;
use vstd::string::StringExecFns;

use crate::args::{AuthMethod, AuthMethodView};
use crate::error::{Error, ErrorView};
use crate::retry::{
    law_failures_end_after_all_attempts, left_after, left_after_failures, verdict, Retry, Verdict,
};
use crate::text::pair_views;
use crate::vault::{
    json_header_views, json_headers, reply_read, token_from_reply, token_in_reply, FetchTokenOpts,
    Method, Reply, Request, RequestView,
};

verus! {

/// The address of the login with a GitHub token.
pub open spec fn github_login_url(host: Seq<char>) -> Seq<char> {
    host + "/v1/auth/github/login"@
}

/// The address of the login with a Kubernetes role.
pub open spec fn kubernetes_login_url(host: Seq<char>) -> Seq<char> {
    host + "/v1/auth/kubernetes/login"@
}

/// The login that hands in the JSON object with the members `members` at
/// `url`.
pub open spec fn login_request(url: Seq<char>, members: Seq<(Seq<char>, Seq<char>)>) -> RequestView {
    RequestView { method: Method::Post, url, headers: json_header_views(), body: Some(members) }
}

/// Where the token of the Kubernetes service account is kept.
pub open spec fn service_account_token_path() -> Seq<char> {
    "/var/run/secrets/kubernetes.io/serviceaccount/token"@
}

/// What is reported when the token of the service account cannot be read.
pub open spec fn jwt_unreadable_message(why: Seq<char>) -> Seq<char> {
    "unable to read file \""@ + service_account_token_path() + "\": "@ + why
}

/// The error for a service account token that cannot be read. It ends the
/// fetch of the token at once: nothing is retried.
pub fn jwt_unreadable(why: &str) -> (e: Error)
    ensures
        e@ == ErrorView::IO(jwt_unreadable_message(why@)),
{
    let mut message = "unable to read file \"".to_owned();
    message.append("/var/run/secrets/kubernetes.io/serviceaccount/token");
    message.append("\": ");
    message.append(why);
    Error::IO(message)
}

/// What a login does after a reply.
pub enum TokenStep {
    /// The token is there.
    Finished(String),
    /// The login failed, as the error says: wait, then send the request
    /// again.
    Retry(Error),
    /// The login failed, as the error says, and no attempt is left.
    GiveUp(Error),
}

/// Mathematical value of a [`TokenStep`].
pub enum TokenStepView {
    Finished(Seq<char>),
    Retry(ErrorView),
    GiveUp(ErrorView),
}

impl View for TokenStep {
    type V = TokenStepView;

    open spec fn view(&self) -> TokenStepView {
        match self {
            TokenStep::Finished(t) => TokenStepView::Finished(t@),
            TokenStep::Retry(e) => TokenStepView::Retry(e@),
            TokenStep::GiveUp(e) => TokenStepView::GiveUp(e@),
        }
    }
}

/// What a login does after a reply that means `outcome`, when `left` attempts
/// may follow a failed one.
pub open spec fn token_step(left: nat, outcome: Result<Seq<char>, ErrorView>) -> TokenStepView {
    match outcome {
        Ok(token) => TokenStepView::Finished(token),
        Err(e) => match verdict(left, false) {
            Verdict::Again => TokenStepView::Retry(e),
            _ => TokenStepView::GiveUp(e),
        },
    }
}

/// A login: one request, sent again after a delay while it fails and attempts
/// are left.
pub struct TokenJob {
    /// Where the login goes.
    pub url: String,
    /// The members of the JSON object that it hands in.
    pub members: Vec<(String, String)>,
    /// The attempts that are left.
    pub retry: Retry,
}

impl TokenJob {
    /// The request that the login sends.
    pub open spec fn request_view(self) -> RequestView {
        login_request(self.url@, pair_views(self.members@))
    }

    /// The login with a GitHub personal access token.
    pub fn github(host: &str, pat: &str, retries: usize) -> (job: Self)
        ensures
            job.request_view() == login_request(github_login_url(host@), seq![("token"@, pat@)]),
            job.retry.left == retries,
    {
        let mut url = host.to_owned();
        url.append("/v1/auth/github/login");
        let mut members: Vec<(String, String)> = Vec::new();
        members.push(("token".to_owned(), pat.to_owned()));
        proof {
            assert(pair_views(members@) == seq![("token"@, pat@)]);
        }
        TokenJob { url, members, retry: Retry::new(retries) }
    }

    /// The login with the token of the service account, `jwt`, under a
    /// Kubernetes role.
    pub fn kubernetes(host: &str, jwt: &str, role: &str, retries: usize) -> (job: Self)
        ensures
            job.request_view() == login_request(
                kubernetes_login_url(host@),
                seq![("jwt"@, jwt@), ("role"@, role@)],
            ),
            job.retry.left == retries,
    {
        let mut url = host.to_owned();
        url.append("/v1/auth/kubernetes/login");
        let mut members: Vec<(String, String)> = Vec::new();
        members.push(("jwt".to_owned(), jwt.to_owned()));
        members.push(("role".to_owned(), role.to_owned()));
        proof {
            assert(pair_views(members@) == seq![("jwt"@, jwt@), ("role"@, role@)]);
        }
        TokenJob { url, members, retry: Retry::new(retries) }
    }

    /// The request to send.
    pub fn request(&self) -> (r: Request)
        ensures
            r@ == self.request_view(),
    {
        let mut members: Vec<(String, String)> = Vec::new();
        let mut i: usize = 0;
        while i < self.members.len()
            invariant
                i <= self.members.len(),
                pair_views(members@) == pair_views(self.members@).subrange(0, i as int),
            decreases self.members.len() - i,
        {
            let ghost before = pair_views(members@);
            members.push((self.members[i].0.clone(), self.members[i].1.clone()));
            proof {
                let pair = (self.members[i as int].0@, self.members[i as int].1@);
                assert(pair_views(members@) == before.push(pair));
                assert(pair_views(self.members@).subrange(0, i + 1) == before.push(pair));
            }
            i += 1;
        }
        proof {
            assert(pair_views(self.members@).subrange(0, i as int) == pair_views(self.members@));
        }
        Request {
            method: Method::Post,
            url: self.url.clone(),
            headers: json_headers(),
            body: Some(members),
        }
    }

    /// Takes the reply to the request and says what to do next.
    pub fn on_reply(&mut self, reply: &Reply) -> (step: TokenStep)
        ensures
            step@ == token_step(
                old(self).retry.left as nat,
                token_in_reply(*reply, reply_read(*reply), old(self).url@),
            ),
            final(self).retry.left == left_after(old(self).retry.left as nat, step is Finished),
            final(self).url == old(self).url,
            final(self).members == old(self).members,
    {
        match token_from_reply(reply, self.url.as_str()) {
            Ok(token) => TokenStep::Finished(token),
            Err(e) => match self.retry.record(false) {
                Verdict::Again => TokenStep::Retry(e),
                _ => TokenStep::GiveUp(e),
            },
        }
    }
}

impl TokenStep {
    /// What the login came to, once it is over: the token, or, after the last
    /// attempt, that the retries are used up.
    pub fn outcome(self) -> (r: Option<Result<Option<String>, Error>>)
        ensures
            match self {
                TokenStep::Finished(token) => r == Some(
                    Ok::<Option<String>, Error>(Some(token)),
                ),
                TokenStep::GiveUp(_) => r == Some(
                    Err::<Option<String>, Error>(Error::MaxRetries),
                ),
                _ => r is None,
            },
    {
        match self {
            TokenStep::Finished(token) => Some(Ok(Some(token))),
            TokenStep::GiveUp(_) => Some(Err(Error::MaxRetries)),
            _ => None,
        }
    }
}

/// How the token is come by.
pub enum TokenPlan {
    /// Without a request: this token, or none.
    Ready(Option<String>),
    /// By a login.
    Login(TokenJob),
    /// By a Kubernetes login under the role `role`, for which the token of the
    /// service account has to be read from the file `path` first.
    ReadJwt {
        /// The file that holds the token of the service account.
        path: String,
        /// The role to log in under.
        role: String,
    },
}

/// Decides how the token is come by. No method gives no token and a
/// configured token is used as it is, both without a request; a GitHub token
/// is exchanged in a login; a Kubernetes role asks for the token of the
/// service account first.
pub fn plan_token(host: &str, auth_method: AuthMethod, opts: &FetchTokenOpts) -> (plan: TokenPlan)
    ensures
        match auth_method@ {
            AuthMethodView::Anonymous => plan matches TokenPlan::Ready(None),
            AuthMethodView::Token(t) => plan matches TokenPlan::Ready(Some(token)) && token@ == t,
            AuthMethodView::GitHub(pat) => plan matches TokenPlan::Login(job)
                && job.request_view() == login_request(
                github_login_url(host@),
                seq![("token"@, pat)],
            ) && job.retry.left == opts.retries,
            AuthMethodView::Kubernetes(r) => plan matches TokenPlan::ReadJwt { path, role }
                && path@ == service_account_token_path() && role@ == r,
        },
{
    match auth_method {
        AuthMethod::Anonymous => TokenPlan::Ready(None),
        AuthMethod::Token(token) => TokenPlan::Ready(Some(token)),
        AuthMethod::GitHub(pat) => TokenPlan::Login(
            TokenJob::github(host, pat.as_str(), opts.retries),
        ),
        AuthMethod::Kubernetes(role) => TokenPlan::ReadJwt {
            path: "/var/run/secrets/kubernetes.io/serviceaccount/token".to_owned(),
            role,
        },
    }
}

/// When every reply fails, a login is sent exactly `retries + 1` times: each
/// of the first `retries` failures is followed by another request, and the
/// failure after them ends the login.
pub proof fn law_login_gives_up_after_all_attempts(retries: nat, failures: nat, e: ErrorView)
    requires
        failures <= retries,
    ensures
        token_step(left_after_failures(retries, failures), Err(e)) == if failures
            < retries {
            TokenStepView::Retry(e)
        } else {
            TokenStepView::GiveUp(e)
        },
{
    law_failures_end_after_all_attempts(retries, failures);
}

} // verus!
