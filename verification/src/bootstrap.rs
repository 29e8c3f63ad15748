//! The REST bootstrap sequence: config, login, then boot and me.
//!
//! `protocol_version` is checked before anything else, then comes the login,
//! then `/boot` and `/me`. The WebSocket join of the user topic (which echoes
//! `protocol_version` again) is a separate step: only the REST leg stands
//! here.
//!
//! A [`Bootstrap`] says what to ask next; whoever asks hands the reply to
//! [`Bootstrap::step`].

use vstd::prelude::*;

use crate::client::{
    opt_view, sent, BodyView, GrappaClient, GrappaClientError, LoginError, Method, Request,
    RequestView, REQUEST_TIMEOUT,
};
use crate::json::Json;
use crate::protocol::{ServerCompatibility, MIN_SUPPORTED_PROTOCOL_VERSION};
use crate::rest::{
    login_body, BootResponse, ConfigResponse, LoginRequest, LoginResponse, MeResponse,
};
use crate::text::opt;

verus! {

#[derive(Debug)]
pub struct BootstrapOutcome {
    pub compatibility: ServerCompatibility,
    /// Bearer token to use for `/boot`, `/me` and the WebSocket handshake.
    pub token: String,
    /// The `subject` of the login response, as it came. It does not carry
    /// `is_admin`: that field lives on `me`. `None` when a previously saved
    /// bearer was used, because that path deliberately skips `/auth/login`.
    pub subject: Option<Json>,
    pub boot: BootResponse,
    pub me: MeResponse,
}

#[derive(Debug)]
pub enum BootstrapError {
    /// The server's `protocol_version` is below what is required here, see
    /// [`ServerCompatibility::supported_by_cordiale`].
    IncompatibleServer(ServerCompatibility),
    Config(GrappaClientError),
    Login(LoginError),
    /// A saved bearer was rejected by an authenticated bootstrap endpoint.
    /// Callers must ask the user to authenticate again; never retry it as a
    /// password or silently switch identities.
    BearerRejected,
    Boot(GrappaClientError),
    Me(GrappaClientError),
}

/// How the server is entered.
#[derive(Debug)]
pub enum Access {
    /// With `/auth/login`; a returning anonymous visitor proves ownership of
    /// the nickname with the previous bearer.
    Login { request: LoginRequest, previous_bearer: Option<String> },
    /// With a bearer already returned by Grappa.
    Bearer(String),
}

/// What is being asked.
#[derive(Debug)]
pub enum Stage {
    Config(Access),
    Login {
        compatibility: ServerCompatibility,
        request: LoginRequest,
        previous_bearer: Option<String>,
    },
    /// Without a subject the token is a saved bearer.
    Boot { compatibility: ServerCompatibility, token: String, subject: Option<Json> },
    Me {
        compatibility: ServerCompatibility,
        token: String,
        subject: Option<Json>,
        boot: BootResponse,
    },
}

/// What came of a request.
#[derive(Debug)]
pub enum Reply {
    Config(Result<ConfigResponse, GrappaClientError>),
    Login(Result<LoginResponse, LoginError>),
    Boot(Result<BootResponse, GrappaClientError>),
    Me(Result<MeResponse, GrappaClientError>),
}

/// A bootstrap under way.
#[derive(Debug)]
pub struct Bootstrap {
    pub client: GrappaClient,
    pub stage: Stage,
}

/// What follows a reply.
#[derive(Debug)]
pub enum Next {
    Ask { bootstrap: Bootstrap, request: Request },
    Done(BootstrapOutcome),
    Failed(BootstrapError),
}

/// What follows a reply, apart from the request.
pub enum Verdict {
    Ask(Stage),
    Done(BootstrapOutcome),
    Failed(BootstrapError),
}

/// Whether the reply is one to what is being asked.
pub open spec fn expects(stage: Stage, reply: Reply) -> bool {
    match stage {
        Stage::Config(_) => reply is Config,
        Stage::Login { .. } => reply is Login,
        Stage::Boot { .. } => reply is Boot,
        Stage::Me { .. } => reply is Me,
    }
}

/// Whether the server refused the bearer.
pub open spec fn unauthorized(error: GrappaClientError) -> bool {
    error matches GrappaClientError::Http { status, .. } && status == Some(401u16)
}

/// Where a first stage leads once the server has told its version.
pub open spec fn after_config(access: Access, config: ConfigResponse) -> Verdict {
    let compatibility = ServerCompatibility {
        protocol_version: config.protocol_version,
        min_protocol_version: config.min_protocol_version,
    };
    if config.protocol_version < MIN_SUPPORTED_PROTOCOL_VERSION {
        Verdict::Failed(BootstrapError::IncompatibleServer(compatibility))
    } else {
        Verdict::Ask(
            match access {
                Access::Login { request, previous_bearer } => Stage::Login {
                    compatibility,
                    request,
                    previous_bearer,
                },
                Access::Bearer(token) => Stage::Boot { compatibility, token, subject: None },
            },
        )
    }
}

/// What follows a reply.
pub open spec fn after(stage: Stage, reply: Reply) -> Verdict {
    match (stage, reply) {
        (Stage::Config(access), Reply::Config(Ok(config))) => after_config(access, config),
        (_, Reply::Config(Err(error))) => Verdict::Failed(BootstrapError::Config(error)),
        (Stage::Login { compatibility, .. }, Reply::Login(Ok(login))) => Verdict::Ask(
            Stage::Boot { compatibility, token: login.token, subject: Some(login.subject) },
        ),
        (_, Reply::Login(Err(error))) => Verdict::Failed(BootstrapError::Login(error)),
        (Stage::Boot { compatibility, token, subject }, Reply::Boot(Ok(boot))) => Verdict::Ask(
            Stage::Me { compatibility, token, subject, boot },
        ),
        (Stage::Boot { subject, .. }, Reply::Boot(Err(error))) => Verdict::Failed(
            if subject is None && unauthorized(error) {
                BootstrapError::BearerRejected
            } else {
                BootstrapError::Boot(error)
            },
        ),
        (Stage::Me { compatibility, token, subject, boot }, Reply::Me(Ok(me))) => Verdict::Done(
            BootstrapOutcome { compatibility, token, subject, boot, me },
        ),
        (Stage::Me { subject, .. }, Reply::Me(Err(error))) => Verdict::Failed(
            if subject is None && unauthorized(error) {
                BootstrapError::BearerRejected
            } else {
                BootstrapError::Me(error)
            },
        ),
        _ => arbitrary(),
    }
}

/// The request that goes out at a stage.
pub open spec fn question(base: Seq<char>, stage: Stage) -> RequestView {
    match stage {
        Stage::Config(_) => RequestView {
            method: Method::Get,
            url: base + "/api/config"@,
            bearer: None,
            body: BodyView::Empty,
            timeout: REQUEST_TIMEOUT,
        },
        Stage::Login { request, previous_bearer, .. } => RequestView {
            method: Method::Post,
            url: base + "/auth/login"@,
            bearer: opt(previous_bearer),
            body: BodyView::Json(login_body(request.identifier@, request.password@)),
            timeout: REQUEST_TIMEOUT,
        },
        Stage::Boot { token, .. } => sent(Method::Get, base + "/boot"@, token@, BodyView::Empty),
        Stage::Me { token, .. } => sent(Method::Get, base + "/me"@, token@, BodyView::Empty),
    }
}

/// Begins the full sequence.
pub fn bootstrap(client: GrappaClient, login_request: LoginRequest) -> (bootstrap: Bootstrap)
    ensures
        bootstrap == (Bootstrap {
            client,
            stage: Stage::Config(Access::Login { request: login_request, previous_bearer: None }),
        }),
{
    bootstrap_with_login_bearer(client, login_request, None)
}

/// Begins the sequence of a returning anonymous visitor. The previous bearer
/// is sent to `/auth/login`, where Grappa verifies the nickname and rotates
/// the token.
pub fn bootstrap_with_login_bearer(
    client: GrappaClient,
    login_request: LoginRequest,
    previous_bearer: Option<String>,
) -> (bootstrap: Bootstrap)
    ensures
        bootstrap == (Bootstrap {
            client,
            stage: Stage::Config(Access::Login { request: login_request, previous_bearer }),
        }),
{
    Bootstrap {
        client,
        stage: Stage::Config(Access::Login { request: login_request, previous_bearer }),
    }
}

/// Begins the authenticated cold start with a bearer already returned by
/// Grappa. The protocol permits presenting that bearer directly to REST, so
/// this path skips `/auth/login` (and in particular never sends the bearer in
/// the `password` field).
pub fn bootstrap_with_bearer(client: GrappaClient, bearer: String) -> (bootstrap: Bootstrap)
    ensures
        bootstrap == (Bootstrap { client, stage: Stage::Config(Access::Bearer(bearer)) }),
{
    Bootstrap { client, stage: Stage::Config(Access::Bearer(bearer)) }
}

fn is_unauthorized(error: &GrappaClientError) -> (yes: bool)
    ensures
        yes == unauthorized(*error),
{
    match error.status() {
        Some(status) => status == 401,
        None => false,
    }
}

/// Whether the server's version is good enough to go on.
pub fn check_server_compatibility(config: &ConfigResponse) -> (checked: Result<
    ServerCompatibility,
    BootstrapError,
>)
    ensures
        ({
            let compatibility = ServerCompatibility {
                protocol_version: config.protocol_version,
                min_protocol_version: config.min_protocol_version,
            };
            if config.protocol_version < MIN_SUPPORTED_PROTOCOL_VERSION {
                checked == Err::<ServerCompatibility, BootstrapError>(
                    BootstrapError::IncompatibleServer(compatibility),
                )
            } else {
                checked == Ok::<ServerCompatibility, BootstrapError>(compatibility)
            }
        }),
{
    let compatibility = ServerCompatibility {
        protocol_version: config.protocol_version,
        min_protocol_version: config.min_protocol_version,
    };
    if compatibility.supported_by_cordiale() {
        Ok(compatibility)
    } else {
        Err(BootstrapError::IncompatibleServer(compatibility))
    }
}

impl Bootstrap {
    /// The request to send now.
    pub fn ask(&self) -> (request: Request)
        ensures
            request@ == question(self.client.base_url@, self.stage),
    {
        match &self.stage {
            Stage::Config(_) => self.client.fetch_config(),
            Stage::Login { request, previous_bearer, .. } => {
                let bearer = match previous_bearer {
                    Some(bearer) => Some(bearer.as_str()),
                    None => None,
                };
                assert(opt_view(bearer) == opt(*previous_bearer));
                self.client.login_with_bearer(request, bearer)
            },
            Stage::Boot { token, .. } => self.client.fetch_boot(token.as_str()),
            Stage::Me { token, .. } => self.client.fetch_me(token.as_str()),
        }
    }

    fn next(client: GrappaClient, stage: Stage) -> (next: Next)
        ensures
            next matches Next::Ask { bootstrap, request } && bootstrap == (Bootstrap {
                client,
                stage,
            }) && request@ == question(client.base_url@, stage),
    {
        let bootstrap = Bootstrap { client, stage };
        let request = bootstrap.ask();
        Next::Ask { bootstrap, request }
    }

    /// Goes on with the reply to what was asked, or fails at the first step
    /// that doesn't check out.
    pub fn step(self, reply: Reply) -> (next: Next)
        requires
            expects(self.stage, reply),
        ensures
            match next {
                Next::Ask { bootstrap, request } => after(self.stage, reply) == Verdict::Ask(
                    bootstrap.stage,
                ) && bootstrap.client == self.client && request@ == question(
                    self.client.base_url@,
                    bootstrap.stage,
                ),
                Next::Done(outcome) => after(self.stage, reply) == Verdict::Done(outcome),
                Next::Failed(error) => after(self.stage, reply) == Verdict::Failed(error),
            },
    {
        let client = self.client;
        match (self.stage, reply) {
            (Stage::Config(access), Reply::Config(reply)) => {
                let config = match reply {
                    Ok(config) => config,
                    Err(error) => return Next::Failed(BootstrapError::Config(error)),
                };
                let compatibility = match check_server_compatibility(&config) {
                    Ok(compatibility) => compatibility,
                    Err(error) => return Next::Failed(error),
                };
                match access {
                    Access::Login { request, previous_bearer } => Self::next(
                        client,
                        Stage::Login { compatibility, request, previous_bearer },
                    ),
                    Access::Bearer(token) => Self::next(
                        client,
                        Stage::Boot { compatibility, token, subject: None },
                    ),
                }
            },
            (Stage::Login { compatibility, .. }, Reply::Login(reply)) => match reply {
                Ok(login) => Self::next(
                    client,
                    Stage::Boot { compatibility, token: login.token, subject: Some(login.subject) },
                ),
                Err(error) => Next::Failed(BootstrapError::Login(error)),
            },
            (Stage::Boot { compatibility, token, subject }, Reply::Boot(reply)) => match reply {
                Ok(boot) => Self::next(client, Stage::Me { compatibility, token, subject, boot }),
                Err(error) => Next::Failed(
                    if subject.is_none() && is_unauthorized(&error) {
                        BootstrapError::BearerRejected
                    } else {
                        BootstrapError::Boot(error)
                    },
                ),
            },
            (Stage::Me { compatibility, token, subject, boot }, Reply::Me(reply)) => match reply {
                Ok(me) => Next::Done(
                    BootstrapOutcome { compatibility, token, subject, boot, me },
                ),
                Err(error) => Next::Failed(
                    if subject.is_none() && is_unauthorized(&error) {
                        BootstrapError::BearerRejected
                    } else {
                        BootstrapError::Me(error)
                    },
                ),
            },
            _ => {
                assert(false);
                Next::Failed(BootstrapError::BearerRejected)
            },
        }
    }
}

/// Whether a stage goes with that saved bearer, and with no login.
pub open spec fn rides_on(stage: Stage, bearer: String) -> bool {
    match stage {
        Stage::Config(access) => access == Access::Bearer(bearer),
        Stage::Login { .. } => false,
        Stage::Boot { token, subject, .. } => token == bearer && subject is None,
        Stage::Me { token, subject, .. } => token == bearer && subject is None,
    }
}

/// A saved bearer goes in the authorization header alone: no request of its
/// bootstrap has a body, so it never stands in for a password, and the token
/// at the end is that bearer.
pub proof fn a_saved_bearer_is_never_a_password(
    base: Seq<char>,
    stage: Stage,
    reply: Reply,
    bearer: String,
)
    requires
        rides_on(stage, bearer),
        expects(stage, reply),
    ensures
        question(base, stage).body is Empty,
        question(base, stage).bearer is None || question(base, stage).bearer == Some(bearer@),
        match after(stage, reply) {
            Verdict::Ask(next) => rides_on(next, bearer),
            Verdict::Done(outcome) => outcome.token == bearer && outcome.subject is None,
            Verdict::Failed(_) => true,
        },
{
}

/// A server that is too old is asked nothing after its version.
pub proof fn an_old_server_is_not_entered(access: Access, config: ConfigResponse)
    requires
        config.protocol_version < MIN_SUPPORTED_PROTOCOL_VERSION,
    ensures
        after(Stage::Config(access), Reply::Config(Ok(config))) matches Verdict::Failed(
            BootstrapError::IncompatibleServer(_),
        ),
{
}

/// After a login every request carries the token of its response, and so does
/// the outcome: a returning visitor's rotated bearer takes the place of the
/// previous one.
pub proof fn the_token_of_the_login_is_used(
    base: Seq<char>,
    stage: Stage,
    login: LoginResponse,
    boot: BootResponse,
    me: MeResponse,
)
    requires
        stage is Login,
    ensures
        after(stage, Reply::Login(Ok(login))) matches Verdict::Ask(second) && {
            &&& question(base, second).bearer == Some(login.token@)
            &&& after(second, Reply::Boot(Ok(boot))) matches Verdict::Ask(third)
            &&& question(base, third).bearer == Some(login.token@)
            &&& after(third, Reply::Me(Ok(me))) matches Verdict::Done(outcome)
            &&& outcome.token == login.token
            &&& outcome.subject == Some(login.subject)
        },
{
}

/// A refusal with 401, by `/boot` or by `/me`, means a rejected bearer if and
/// only if the bearer was a saved one.
pub proof fn only_saved_bearers_are_rejected(stage: Stage, error: GrappaClientError)
    requires
        unauthorized(error),
    ensures
        stage matches Stage::Boot { subject, .. } ==> (after(stage, Reply::Boot(Err(error)))
            == Verdict::Failed(BootstrapError::BearerRejected)) == (subject is None),
        stage matches Stage::Me { subject, .. } ==> (after(stage, Reply::Me(Err(error)))
            == Verdict::Failed(BootstrapError::BearerRejected)) == (subject is None),
{
}

/// A run of the whole sequence, each request answered well, ends with what the
/// replies told: the versions of the config, the token and subject of the
/// login, and the bodies of `/boot` and `/me`.
pub proof fn a_login_run_ends_with_what_was_told(
    request: LoginRequest,
    previous_bearer: Option<String>,
    config: ConfigResponse,
    login: LoginResponse,
    boot: BootResponse,
    me: MeResponse,
    base: Seq<char>,
)
    requires
        config.protocol_version >= 1,
    ensures
        ({
            let first = Stage::Config(Access::Login { request, previous_bearer });
            let asked = question(base, first);
            &&& asked.method == Method::Get
            &&& asked.url == base + "/api/config"@
            &&& asked.bearer is None
            &&& after(first, Reply::Config(Ok(config))) matches Verdict::Ask(second)
            &&& question(base, second).method == Method::Post
            &&& question(base, second).url == base + "/auth/login"@
            &&& question(base, second).bearer == opt(previous_bearer)
            &&& after(second, Reply::Login(Ok(login))) matches Verdict::Ask(third)
            &&& question(base, third).method == Method::Get
            &&& question(base, third).url == base + "/boot"@
            &&& question(base, third).bearer == Some(login.token@)
            &&& after(third, Reply::Boot(Ok(boot))) matches Verdict::Ask(fourth)
            &&& question(base, fourth).method == Method::Get
            &&& question(base, fourth).url == base + "/me"@
            &&& question(base, fourth).bearer == Some(login.token@)
            &&& after(fourth, Reply::Me(Ok(me))) == Verdict::Done(
                BootstrapOutcome {
                    compatibility: ServerCompatibility {
                        protocol_version: config.protocol_version,
                        min_protocol_version: config.min_protocol_version,
                    },
                    token: login.token,
                    subject: Some(login.subject),
                    boot,
                    me,
                },
            )
        }),
{
}

/// A run with a saved bearer goes from the config to `/boot` and `/me`, and
/// ends with that bearer and no subject.
pub proof fn a_bearer_run_ends_with_the_bearer(
    bearer: String,
    config: ConfigResponse,
    boot: BootResponse,
    me: MeResponse,
    base: Seq<char>,
)
    requires
        config.protocol_version >= 1,
    ensures
        ({
            let first = Stage::Config(Access::Bearer(bearer));
            &&& after(first, Reply::Config(Ok(config))) matches Verdict::Ask(second)
            &&& question(base, second).url == base + "/boot"@
            &&& question(base, second).bearer == Some(bearer@)
            &&& after(second, Reply::Boot(Ok(boot))) matches Verdict::Ask(third)
            &&& question(base, third).url == base + "/me"@
            &&& question(base, third).bearer == Some(bearer@)
            &&& after(third, Reply::Me(Ok(me))) == Verdict::Done(
                BootstrapOutcome {
                    compatibility: ServerCompatibility {
                        protocol_version: config.protocol_version,
                        min_protocol_version: config.min_protocol_version,
                    },
                    token: bearer,
                    subject: None,
                    boot,
                    me,
                },
            )
        }),
{
}

/// A server that speaks no version of the protocol from the first on is refused,
/// with the versions that it told.
pub proof fn version_zero_is_refused(access: Access, config: ConfigResponse)
    ensures
        config.protocol_version < 1 <==> after(Stage::Config(access), Reply::Config(Ok(config)))
            is Failed,
        config.protocol_version < 1 ==> after(Stage::Config(access), Reply::Config(Ok(config)))
            == Verdict::Failed(
            BootstrapError::IncompatibleServer(
                ServerCompatibility {
                    protocol_version: config.protocol_version,
                    min_protocol_version: config.min_protocol_version,
                },
            ),
        ),
{
}

/// A step that fails is told as the failure of that step, with its reason; a
/// saved bearer that is refused with 401 is told apart.
pub proof fn failures_are_told_by_their_step(
    stage: Stage,
    error: GrappaClientError,
    refusal: LoginError,
)
    ensures
        stage is Config ==> after(stage, Reply::Config(Err(error))) == Verdict::Failed(
            BootstrapError::Config(error),
        ),
        stage is Login ==> after(stage, Reply::Login(Err(refusal))) == Verdict::Failed(
            BootstrapError::Login(refusal),
        ),
        stage matches Stage::Boot { subject, .. } ==> after(stage, Reply::Boot(Err(error)))
            == Verdict::Failed(
            if subject is None && (error matches GrappaClientError::Http { status, .. } && status
                == Some(401u16)) {
                BootstrapError::BearerRejected
            } else {
                BootstrapError::Boot(error)
            },
        ),
        stage matches Stage::Me { subject, .. } ==> after(stage, Reply::Me(Err(error)))
            == Verdict::Failed(
            if subject is None && (error matches GrappaClientError::Http { status, .. } && status
                == Some(401u16)) {
                BootstrapError::BearerRejected
            } else {
                BootstrapError::Me(error)
            },
        ),
{
}

} // verus!
