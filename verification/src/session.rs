use vstd::prelude::*;

use crate::models::{bad_request, Claims, HttpError, LoginModel, SignupModel, User, BAD_REQUEST};

verus! {

/// The expiry written into every session token.
pub const TOKEN_EXPIRY: u64 = 10000000000;

/// Where a login stands.
pub enum LoginState {
    /// Waiting for the submitted credentials.
    Start,
    /// Waiting for the user with the submitted email; holds the submitted
    /// password.
    FindingUser { password: String },
    /// Waiting for the session token.
    CreatingToken,
    /// The answer has been given.
    Finished,
}

/// What the server learns during a login.
pub enum LoginEvent<'r> {
    Submitted(LoginModel<'r>),
    UserFound(User),
    UserLookupFailed,
    TokenCreated(String),
    TokenFailed,
}

/// What the server is to do next during a login.
pub enum LoginAction {
    /// Look up the user with this email.
    FetchUser { email: String },
    /// Create a session token with these claims.
    CreateToken(Claims),
    /// Answer the request.
    Reply(Result<String, HttpError>),
    /// Answer with the error that the user lookup gave.
    ReplyLookupError,
}

/// Whether `event` is one that can come in `state`.
pub open spec fn login_accepts<'r>(state: LoginState, event: LoginEvent<'r>) -> bool {
    match state {
        LoginState::Start => event is Submitted,
        LoginState::FindingUser { .. } => event is UserFound || event is UserLookupFailed,
        LoginState::CreatingToken => event is TokenCreated || event is TokenFailed,
        LoginState::Finished => false,
    }
}

/// Whether `action` answers with status 400 and the message `message`.
pub open spec fn login_refuses(action: LoginAction, message: Seq<char>) -> bool {
    &&& action matches LoginAction::Reply(Err(e))
    &&& e.status == BAD_REQUEST
    &&& e.message@ == message
}

/// Whether a login step from `state` on `event` may lead to `next` and
/// `action`.
pub open spec fn login_transition<'r>(
    state: LoginState,
    event: LoginEvent<'r>,
    next: LoginState,
    action: LoginAction,
) -> bool {
    match (state, event) {
        (LoginState::Start, LoginEvent::Submitted(input)) => if input.email@.len() == 0
            || input.password@.len() == 0 {
            next is Finished && login_refuses(action, "No user"@)
        } else {
            &&& next matches LoginState::FindingUser { password } && password@
                == input.password@
            &&& action matches LoginAction::FetchUser { email } && email@ == input.email@
        },
        (LoginState::FindingUser { password }, LoginEvent::UserFound(user)) => if user.password@
            == password@ {
            &&& next is CreatingToken
            &&& action matches LoginAction::CreateToken(c) && c.userId == user.id && c.exp
                == TOKEN_EXPIRY
        } else {
            next is Finished && login_refuses(action, "No user with this password found"@)
        },
        (LoginState::FindingUser { .. }, LoginEvent::UserLookupFailed) => next is Finished
            && action is ReplyLookupError,
        (LoginState::CreatingToken, LoginEvent::TokenCreated(token)) => {
            &&& next is Finished
            &&& action matches LoginAction::Reply(Ok(t)) && t@ == token@
        },
        (LoginState::CreatingToken, LoginEvent::TokenFailed) => next is Finished
            && login_refuses(action, "could not generate token"@),
        _ => false,
    }
}

/// One step of a login.
///
/// Credentials with an empty email or password are refused with "No
/// user". Otherwise the user with that email is looked up; a failed lookup
/// is answered with its own error. A user whose password differs from the
/// submitted one is refused with "No user with this password found";
/// otherwise a token is created for the user's id with expiry
/// [`TOKEN_EXPIRY`], and the answer is that token, or "could not generate
/// token" when creating it failed.
pub fn login_step<'r>(state: LoginState, event: LoginEvent<'r>) -> (res: (LoginState, LoginAction))
    requires
        login_accepts(state, event),
    ensures
        login_transition(state, event, res.0, res.1),
{
    match state {
        LoginState::Start => match event {
            LoginEvent::Submitted(input) => {
                if input.email.is_empty() || input.password.is_empty() {
                    (LoginState::Finished, LoginAction::Reply(Err(bad_request("No user"))))
                } else {
                    (
                        LoginState::FindingUser { password: input.password.to_owned() },
                        LoginAction::FetchUser { email: input.email.to_owned() },
                    )
                }
            },
            _ => (LoginState::Finished, LoginAction::ReplyLookupError),
        },
        LoginState::FindingUser { password } => match event {
            LoginEvent::UserFound(user) => {
                if user.password == password {
                    (
                        LoginState::CreatingToken,
                        LoginAction::CreateToken(Claims { userId: user.id, exp: TOKEN_EXPIRY }),
                    )
                } else {
                    (
                        LoginState::Finished,
                        LoginAction::Reply(Err(bad_request("No user with this password found"))),
                    )
                }
            },
            _ => (LoginState::Finished, LoginAction::ReplyLookupError),
        },
        LoginState::CreatingToken => match event {
            LoginEvent::TokenCreated(token) => (LoginState::Finished, LoginAction::Reply(Ok(token))),
            _ => (
                LoginState::Finished,
                LoginAction::Reply(Err(bad_request("could not generate token"))),
            ),
        },
        LoginState::Finished => (LoginState::Finished, LoginAction::ReplyLookupError),
    }
}

/// Whether `states`, `events` and `actions` record a login from its start:
/// each event is one that its state accepts, and each step goes from
/// `states[i]` on `events[i]` to `states[i + 1]` and `actions[i]`.
pub open spec fn login_run<'r>(
    states: Seq<LoginState>,
    events: Seq<LoginEvent<'r>>,
    actions: Seq<LoginAction>,
) -> bool {
    &&& states.len() == events.len() + 1
    &&& actions.len() == events.len()
    &&& states[0] is Start
    &&& forall|i: int|
        0 <= i < events.len() ==> #[trigger] login_accepts(states[i], events[i]) && login_transition(
            states[i],
            events[i],
            states[i + 1],
            actions[i],
        )
}

/// A login hands out a token only on its third step, after non-empty
/// credentials were submitted, the user with the submitted email was
/// found, and that user's stored password equals the submitted one; the
/// token was created for that user's id and is the one handed out.
pub proof fn login_token_needs_matching_password<'r>(
    states: Seq<LoginState>,
    events: Seq<LoginEvent<'r>>,
    actions: Seq<LoginAction>,
    k: int,
)
    requires
        login_run(states, events, actions),
        0 <= k < actions.len(),
        actions[k] matches LoginAction::Reply(Ok(_)),
    ensures
        k == 2,
        events[0] matches LoginEvent::Submitted(input) && input.email@.len() > 0
            && input.password@.len() > 0,
        events[0] matches LoginEvent::Submitted(input) && events[1] matches LoginEvent::UserFound(
            user,
        ) && user.password@ == input.password@,
        events[1] matches LoginEvent::UserFound(user) && actions[1] matches LoginAction::CreateToken(
            c,
        ) && c.userId == user.id,
        events[2] matches LoginEvent::TokenCreated(token) && actions[2] matches LoginAction::Reply(
            Ok(t),
        ) && t@ == token@,
{
    assert(login_accepts(states[k], events[k]));
    assert(states[k] is CreatingToken);
    assert(k >= 1) by {
        if k == 0 {
            assert(states[0] is Start);
        }
    }
    assert(login_accepts(states[k - 1], events[k - 1]));
    assert(states[k - 1] is FindingUser);
    assert(k >= 2) by {
        if k == 1 {
            assert(states[0] is Start);
        }
    }
    assert(login_accepts(states[k - 2], events[k - 2]));
    assert(states[k - 2] is Start);
    if k > 2 {
        assert(login_accepts(states[k - 3], events[k - 3]));
    }
}

/// Where a signup stands.
pub enum SignupState {
    /// Waiting for the submitted details.
    Start,
    /// Waiting to learn whether the email is taken; holds the user to add.
    CheckingEmail { user: User },
    /// Waiting for the new user to be stored.
    AddingUser,
    /// The answer has been given.
    Finished,
}

/// What the server learns during a signup.
pub enum SignupEvent<'r> {
    Submitted(SignupModel<'r>),
    /// A user with the email exists.
    UserFound,
    /// Looking up a user with the email failed.
    UserNotFound,
    UserAdded,
    AddFailed,
}

/// What the server is to do next during a signup.
pub enum SignupAction {
    /// Look up the user with this email.
    FetchUser { email: String },
    /// Store this new user.
    AddUser(User),
    /// Answer the request.
    Reply(Result<bool, HttpError>),
    /// Answer with the error that storing the user gave.
    ReplyStoreError,
}

/// Whether `event` is one that can come in `state`.
pub open spec fn signup_accepts<'r>(state: SignupState, event: SignupEvent<'r>) -> bool {
    match state {
        SignupState::Start => event is Submitted,
        SignupState::CheckingEmail { .. } => event is UserFound || event is UserNotFound,
        SignupState::AddingUser => event is UserAdded || event is AddFailed,
        SignupState::Finished => false,
    }
}

/// Whether `action` answers with status 400 and the message `message`.
pub open spec fn signup_refuses(action: SignupAction, message: Seq<char>) -> bool {
    &&& action matches SignupAction::Reply(Err(e))
    &&& e.status == BAD_REQUEST
    &&& e.message@ == message
}

/// The user that a signup with `input` creates: id 0, role 1, and the
/// submitted email, password, name and last name.
pub open spec fn new_user_from<'r>(user: User, input: SignupModel<'r>) -> bool {
    &&& user.id == 0
    &&& user.role == 1
    &&& user.email@ == input.email@
    &&& user.password@ == input.password@
    &&& user.name@ == input.name@
    &&& user.lastname@ == input.lastname@
}

/// Whether a signup step from `state` on `event` may lead to `next` and
/// `action`.
pub open spec fn signup_transition<'r>(
    state: SignupState,
    event: SignupEvent<'r>,
    next: SignupState,
    action: SignupAction,
) -> bool {
    match (state, event) {
        (SignupState::Start, SignupEvent::Submitted(input)) => if input.email@.len() == 0
            || input.password@.len() == 0 {
            next is Finished && signup_refuses(action, "No user"@)
        } else {
            &&& next matches SignupState::CheckingEmail { user } && new_user_from(
                user,
                input,
            )
            &&& action matches SignupAction::FetchUser { email } && email@ == input.email@
        },
        (SignupState::CheckingEmail { .. }, SignupEvent::UserFound) => next is Finished
            && signup_refuses(action, "Email is used"@),
        (SignupState::CheckingEmail { user }, SignupEvent::UserNotFound) => {
            &&& next is AddingUser
            &&& action matches SignupAction::AddUser(u) && u == user
        },
        (SignupState::AddingUser, SignupEvent::UserAdded) => next is Finished && action
            == SignupAction::Reply(Ok(true)),
        (SignupState::AddingUser, SignupEvent::AddFailed) => next is Finished
            && action is ReplyStoreError,
        _ => false,
    }
}

/// One step of a signup.
///
/// Details with an empty email or password are refused with "No user".
/// Otherwise the new user (id 0, role 1) is prepared and the email looked
/// up: when a user with it exists, the signup is refused with "Email is
/// used"; otherwise the user is stored, and the answer is `true`, or the
/// error that storing gave.
pub fn signup_step<'r>(state: SignupState, event: SignupEvent<'r>) -> (res: (
    SignupState,
    SignupAction,
))
    requires
        signup_accepts(state, event),
    ensures
        signup_transition(state, event, res.0, res.1),
{
    match state {
        SignupState::Start => match event {
            SignupEvent::Submitted(input) => {
                let password = input.password.to_owned();
                let email = input.email.to_owned();
                let name = input.name.to_owned();
                let lastname = input.lastname.to_owned();
                if input.email.is_empty() || input.password.is_empty() {
                    (SignupState::Finished, SignupAction::Reply(Err(bad_request("No user"))))
                } else {
                    let user = User {
                        id: 0,
                        email: email,
                        password: password,
                        name: name,
                        lastname: lastname,
                        role: 1,
                    };
                    (
                        SignupState::CheckingEmail { user },
                        SignupAction::FetchUser { email: input.email.to_owned() },
                    )
                }
            },
            _ => (SignupState::Finished, SignupAction::ReplyStoreError),
        },
        SignupState::CheckingEmail { user } => match event {
            SignupEvent::UserFound => (
                SignupState::Finished,
                SignupAction::Reply(Err(bad_request("Email is used"))),
            ),
            _ => (SignupState::AddingUser, SignupAction::AddUser(user)),
        },
        SignupState::AddingUser => match event {
            SignupEvent::UserAdded => (SignupState::Finished, SignupAction::Reply(Ok(true))),
            _ => (SignupState::Finished, SignupAction::ReplyStoreError),
        },
        SignupState::Finished => (SignupState::Finished, SignupAction::ReplyStoreError),
    }
}

/// Whether `states`, `events` and `actions` record a signup from its
/// start: each event is one that its state accepts, and each step goes
/// from `states[i]` on `events[i]` to `states[i + 1]` and `actions[i]`.
pub open spec fn signup_run<'r>(
    states: Seq<SignupState>,
    events: Seq<SignupEvent<'r>>,
    actions: Seq<SignupAction>,
) -> bool {
    &&& states.len() == events.len() + 1
    &&& actions.len() == events.len()
    &&& states[0] is Start
    &&& forall|i: int|
        0 <= i < events.len() ==> #[trigger] signup_accepts(states[i], events[i])
            && signup_transition(states[i], events[i], states[i + 1], actions[i])
}

/// A signup stores a user only on its second step, after details with a
/// non-empty email and password were submitted and no user with that
/// email was found; the stored user is the one made from those details.
pub proof fn signup_stores_only_unused_emails<'r>(
    states: Seq<SignupState>,
    events: Seq<SignupEvent<'r>>,
    actions: Seq<SignupAction>,
    k: int,
)
    requires
        signup_run(states, events, actions),
        0 <= k < actions.len(),
        actions[k] is AddUser,
    ensures
        k == 1,
        events[0] matches SignupEvent::Submitted(input) && input.email@.len() > 0
            && input.password@.len() > 0,
        events[1] is UserNotFound,
        events[0] matches SignupEvent::Submitted(input) && actions[1] matches SignupAction::AddUser(
            user,
        ) && new_user_from(user, input),
{
    assert(signup_accepts(states[k], events[k]));
    assert(states[k] is CheckingEmail);
    assert(k >= 1) by {
        if k == 0 {
            assert(states[0] is Start);
        }
    }
    assert(signup_accepts(states[k - 1], events[k - 1]));
    assert(states[k - 1] is Start);
    if k > 1 {
        assert(signup_accepts(states[k - 2], events[k - 2]));
    }
}

} // verus!
