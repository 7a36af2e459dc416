use aw_server::models::{bad_request, LoginModel, SignupModel, Team, TeamModel, User, BAD_REQUEST};
use aw_server::session::{
    login_step, signup_step, LoginAction, LoginEvent, LoginState, SignupAction, SignupEvent,
    SignupState, TOKEN_EXPIRY,
};
use aw_server::teams::{
    add_team_step, membership_step, owner_teams_step, team_detail_step, user_teams_step,
    AddTeamAction, AddTeamEvent, AddTeamState, MembershipAction, MembershipChange,
    MembershipEvent, MembershipState, OwnerTeamsAction, OwnerTeamsEvent, OwnerTeamsState,
    TeamDetailAction, TeamDetailEvent, TeamDetailState, UserTeamsAction, UserTeamsEvent,
    UserTeamsState,
};
use aw_server::token::bearer_token;

fn user(id: i32, password: &str) -> User {
    User {
        id,
        email: "ann@example.org".to_string(),
        name: "Ann".to_string(),
        role: 1,
        lastname: "Lee".to_string(),
        password: password.to_string(),
    }
}

fn team(id: i32, name: &str) -> Team {
    Team { id, name: name.to_string(), description: format!("about {}", name), ownerId: 3 }
}

#[test]
fn bearer_token_is_read_after_the_prefix() {
    let t = bearer_token(Some("Bearer abc.def")).unwrap();
    assert_eq!(t.0, "abc.def");
    assert_eq!(bearer_token(Some("Bearer ")).unwrap().0, "");
}

#[test]
fn bearer_token_needs_the_prefix() {
    assert!(bearer_token(None).is_none());
    assert!(bearer_token(Some("bearer abc")).is_none());
    assert!(bearer_token(Some("Basic abc")).is_none());
    assert!(bearer_token(Some("Bearer")).is_none());
}

#[test]
fn bad_request_has_status_400() {
    let e = bad_request("oops");
    assert_eq!(e.status, 400);
    assert_eq!(e.message, "oops");
}

#[test]
fn login_refuses_empty_credentials() {
    for (email, password) in [("", "pw"), ("a@b", ""), ("", "")] {
        let (state, action) =
            login_step(LoginState::Start, LoginEvent::Submitted(LoginModel { email, password }));
        assert!(matches!(state, LoginState::Finished));
        match action {
            LoginAction::Reply(Err(e)) => {
                assert_eq!(e.status, BAD_REQUEST);
                assert_eq!(e.message, "No user");
            }
            _ => panic!("expected a refusal"),
        }
    }
}

#[test]
fn login_succeeds_with_matching_password() {
    let (state, action) = login_step(
        LoginState::Start,
        LoginEvent::Submitted(LoginModel { email: "ann@example.org", password: "secret" }),
    );
    match &action {
        LoginAction::FetchUser { email } => assert_eq!(email, "ann@example.org"),
        _ => panic!("expected a lookup"),
    }
    let (state, action) = login_step(state, LoginEvent::UserFound(user(7, "secret")));
    match &action {
        LoginAction::CreateToken(c) => {
            assert_eq!(c.userId, 7);
            assert_eq!(c.exp, TOKEN_EXPIRY);
            assert_eq!(c.exp, 10000000000);
        }
        _ => panic!("expected a token"),
    }
    let (state, action) = login_step(state, LoginEvent::TokenCreated("tok".to_string()));
    assert!(matches!(state, LoginState::Finished));
    match action {
        LoginAction::Reply(Ok(t)) => assert_eq!(t, "tok"),
        _ => panic!("expected the token"),
    }
}

#[test]
fn login_refuses_wrong_password() {
    let state = LoginState::FindingUser { password: "guess".to_string() };
    let (state, action) = login_step(state, LoginEvent::UserFound(user(7, "secret")));
    assert!(matches!(state, LoginState::Finished));
    match action {
        LoginAction::Reply(Err(e)) => {
            assert_eq!(e.status, 400);
            assert_eq!(e.message, "No user with this password found");
        }
        _ => panic!("expected a refusal"),
    }
}

#[test]
fn login_reports_lookup_and_token_failures() {
    let state = LoginState::FindingUser { password: "pw".to_string() };
    let (_, action) = login_step(state, LoginEvent::UserLookupFailed);
    assert!(matches!(action, LoginAction::ReplyLookupError));
    let (_, action) = login_step(LoginState::CreatingToken, LoginEvent::TokenFailed);
    match action {
        LoginAction::Reply(Err(e)) => assert_eq!(e.message, "could not generate token"),
        _ => panic!("expected a refusal"),
    }
}

#[test]
fn signup_refuses_empty_email_or_password() {
    let input = SignupModel { password: "", email: "a@b", name: "A", lastname: "B" };
    let (state, action) = signup_step(SignupState::Start, SignupEvent::Submitted(input));
    assert!(matches!(state, SignupState::Finished));
    match action {
        SignupAction::Reply(Err(e)) => {
            assert_eq!(e.status, 400);
            assert_eq!(e.message, "No user");
        }
        _ => panic!("expected a refusal"),
    }
}

#[test]
fn signup_adds_a_new_user() {
    let input = SignupModel { password: "pw", email: "a@b", name: "A", lastname: "B" };
    let (state, action) = signup_step(SignupState::Start, SignupEvent::Submitted(input));
    match &action {
        SignupAction::FetchUser { email } => assert_eq!(email, "a@b"),
        _ => panic!("expected a lookup"),
    }
    let (state, action) = signup_step(state, SignupEvent::UserNotFound);
    match &action {
        SignupAction::AddUser(u) => {
            assert_eq!(u.id, 0);
            assert_eq!(u.role, 1);
            assert_eq!(u.email, "a@b");
            assert_eq!(u.password, "pw");
            assert_eq!(u.name, "A");
            assert_eq!(u.lastname, "B");
        }
        _ => panic!("expected the user to be added"),
    }
    let (state, action) = signup_step(state, SignupEvent::UserAdded);
    assert!(matches!(state, SignupState::Finished));
    assert!(matches!(action, SignupAction::Reply(Ok(true))));
}

#[test]
fn signup_refuses_a_used_email() {
    let input = SignupModel { password: "pw", email: "a@b", name: "A", lastname: "B" };
    let (state, _) = signup_step(SignupState::Start, SignupEvent::Submitted(input));
    let (_, action) = signup_step(state, SignupEvent::UserFound);
    match action {
        SignupAction::Reply(Err(e)) => assert_eq!(e.message, "Email is used"),
        _ => panic!("expected a refusal"),
    }
}

#[test]
fn signup_reports_a_failed_store() {
    let (_, action) = signup_step(SignupState::AddingUser, SignupEvent::AddFailed);
    assert!(matches!(action, SignupAction::ReplyStoreError));
}

#[test]
fn add_team_refuses_a_nameless_team() {
    let (state, action) = add_team_step(
        AddTeamState::Start,
        AddTeamEvent::Submitted(TeamModel { name: "", description: "d" }),
    );
    assert!(matches!(state, AddTeamState::Finished));
    match action {
        AddTeamAction::Reply(Err(e)) => {
            assert_eq!(e.status, 400);
            assert_eq!(e.message, "No name was provided");
        }
        _ => panic!("expected a refusal"),
    }
}

#[test]
fn add_team_stores_the_team_for_the_caller() {
    let (state, action) = add_team_step(
        AddTeamState::Start,
        AddTeamEvent::Submitted(TeamModel { name: "core", description: "the core team" }),
    );
    assert!(matches!(action, AddTeamAction::ValidateToken));
    let (state, action) = add_team_step(state, AddTeamEvent::TokenValid(9));
    match &action {
        AddTeamAction::AddTeam { team, owner } => {
            assert_eq!(*owner, 9);
            assert_eq!(team.ownerId, 9);
            assert_eq!(team.name, "core");
            assert_eq!(team.description, "the core team");
        }
        _ => panic!("expected the team to be stored"),
    }
    let (_, action) = add_team_step(state, AddTeamEvent::TeamAdded);
    assert!(matches!(action, AddTeamAction::Reply(Ok(true))));
    let (_, action) = add_team_step(AddTeamState::AddingTeam, AddTeamEvent::AddFailed);
    assert!(matches!(action, AddTeamAction::Reply(Ok(false))));
}

#[test]
fn owner_teams_lists_each_team_with_its_count() {
    let (state, action) = owner_teams_step(OwnerTeamsState::Start, OwnerTeamsEvent::Requested);
    assert!(matches!(action, OwnerTeamsAction::ValidateToken));
    let (state, action) = owner_teams_step(state, OwnerTeamsEvent::TokenValid(3));
    assert!(matches!(action, OwnerTeamsAction::FetchOwnerTeams(3)));
    let (state, action) = owner_teams_step(
        state,
        OwnerTeamsEvent::TeamsFound(vec![team(10, "a"), team(11, "b")]),
    );
    assert!(matches!(action, OwnerTeamsAction::CountMembers(10)));
    let (state, action) = owner_teams_step(state, OwnerTeamsEvent::MemberCount(4));
    assert!(matches!(action, OwnerTeamsAction::CountMembers(11)));
    let (state, action) = owner_teams_step(state, OwnerTeamsEvent::MemberCount(0));
    assert!(matches!(state, OwnerTeamsState::Finished));
    match action {
        OwnerTeamsAction::Reply(Ok(list)) => {
            assert_eq!(list.len(), 2);
            assert_eq!((list[0].id, list[0].name.as_str(), list[0].count), (10, "a", 4));
            assert_eq!(list[0].description, "about a");
            assert_eq!((list[1].id, list[1].name.as_str(), list[1].count), (11, "b", 0));
        }
        _ => panic!("expected the list"),
    }
}

#[test]
fn owner_teams_without_teams_is_empty() {
    let (state, action) = owner_teams_step(OwnerTeamsState::FetchingTeams, OwnerTeamsEvent::TeamsFound(vec![]));
    assert!(matches!(state, OwnerTeamsState::Finished));
    match action {
        OwnerTeamsAction::Reply(Ok(list)) => assert!(list.is_empty()),
        _ => panic!("expected an empty list"),
    }
}

#[test]
fn owner_teams_stops_on_a_failed_count() {
    let state = OwnerTeamsState::Counting { teams: vec![team(1, "a")], listed: vec![] };
    let (state, action) = owner_teams_step(state, OwnerTeamsEvent::CountFailed);
    assert!(matches!(state, OwnerTeamsState::Finished));
    assert!(matches!(action, OwnerTeamsAction::ReplyCountError));
}

#[test]
fn team_detail_joins_team_and_members() {
    let (state, action) =
        team_detail_step::<u8>(TeamDetailState::Start, TeamDetailEvent::Requested(5));
    assert!(matches!(action, TeamDetailAction::FetchMembers(5)));
    let (state, action) = team_detail_step(state, TeamDetailEvent::MembersFound(vec![1u8, 2]));
    assert!(matches!(action, TeamDetailAction::FetchTeam(5)));
    let (state, action) = team_detail_step(state, TeamDetailEvent::TeamFound(team(5, "x")));
    assert!(matches!(state, TeamDetailState::Finished));
    match action {
        TeamDetailAction::Reply(Ok(detail)) => {
            assert_eq!(detail.id, 5);
            assert_eq!(detail.name, "x");
            assert_eq!(detail.description, "about x");
            assert_eq!(detail.members, vec![1u8, 2]);
        }
        _ => panic!("expected the team"),
    }
}

#[test]
fn team_detail_reports_a_missing_team() {
    let state = TeamDetailState::FetchingTeam { id: 5, members: vec![1u8] };
    let (_, action) = team_detail_step(state, TeamDetailEvent::TeamLookupFailed);
    match action {
        TeamDetailAction::Reply(Err(e)) => {
            assert_eq!(e.status, 400);
            assert_eq!(e.message, "Something went wrong!");
        }
        _ => panic!("expected a refusal"),
    }
}

#[test]
fn membership_changes_answer_whether_they_were_stored() {
    let change = MembershipChange::Add { team_id: 2, members: vec![4, 5] };
    let (state, action) = membership_step(MembershipState::Start, MembershipEvent::Requested(change));
    assert!(matches!(action, MembershipAction::ValidateToken));
    let (state, action) = membership_step(state, MembershipEvent::TokenValid(1));
    match &action {
        MembershipAction::Apply(MembershipChange::Add { team_id, members }) => {
            assert_eq!(*team_id, 2);
            assert_eq!(members, &vec![4, 5]);
        }
        _ => panic!("expected the change"),
    }
    let (_, action) = membership_step(state, MembershipEvent::Applied);
    assert!(matches!(action, MembershipAction::Reply(true)));

    let change = MembershipChange::Remove { team_id: 2, member_id: 4 };
    let state = MembershipState::ValidatingToken { change };
    let (state, action) = membership_step(state, MembershipEvent::TokenValid(1));
    assert!(matches!(action, MembershipAction::Apply(MembershipChange::Remove { team_id: 2, member_id: 4 })));
    let (_, action) = membership_step(state, MembershipEvent::ApplyFailed);
    assert!(matches!(action, MembershipAction::Reply(false)));
}

#[test]
fn user_teams_passes_the_teams_through() {
    let (state, action) = user_teams_step::<i32>(UserTeamsState::Start, UserTeamsEvent::Requested);
    assert!(matches!(action, UserTeamsAction::ValidateToken));
    let (state, action) = user_teams_step(state, UserTeamsEvent::<i32>::TokenValid(8));
    assert!(matches!(action, UserTeamsAction::FetchUserTeams(8)));
    let (_, action) = user_teams_step(state, UserTeamsEvent::TeamsFound(vec![1, 2, 3]));
    match action {
        UserTeamsAction::Reply(teams) => assert_eq!(teams, vec![1, 2, 3]),
        _ => panic!("expected the teams"),
    }
    let (_, action) = user_teams_step::<i32>(UserTeamsState::FetchingTeams, UserTeamsEvent::LookupFailed);
    assert!(matches!(action, UserTeamsAction::ReplyLookupError));
}
