use vstd::prelude::*;

use crate::models::{
    bad_request, HttpError, Team, TeamDetailModel, TeamModel, TeamRequestModel, TeamResponseModel,
    BAD_REQUEST,
};

verus! {

// ---------------------------------------------------------------------
// Creating a team
// ---------------------------------------------------------------------

/// Where the creation of a team stands.
pub enum AddTeamState {
    Start,
    /// Waiting for the caller's id from their token; holds the team's name
    /// and description.
    ValidatingToken { name: String, description: String },
    /// Waiting for the team to be stored.
    AddingTeam,
    Finished,
}

/// What the server learns while creating a team.
pub enum AddTeamEvent<'r> {
    Submitted(TeamModel<'r>),
    /// The caller's token names this user.
    TokenValid(i32),
    TeamAdded,
    AddFailed,
}

/// What the server is to do next while creating a team.
pub enum AddTeamAction {
    /// Read the caller's id from their token.
    ValidateToken,
    /// Store this team for this owner.
    AddTeam { team: TeamRequestModel, owner: i32 },
    Reply(Result<bool, HttpError>),
}

/// Whether `event` is one that can come in `state`.
pub open spec fn add_team_accepts<'r>(state: AddTeamState, event: AddTeamEvent<'r>) -> bool {
    match state {
        AddTeamState::Start => event is Submitted,
        AddTeamState::ValidatingToken { .. } => event is TokenValid,
        AddTeamState::AddingTeam => event is TeamAdded || event is AddFailed,
        AddTeamState::Finished => false,
    }
}

/// One step of creating a team.
///
/// A team without a name is refused with "No name was provided".
/// Otherwise the caller's token is read, and the team is stored with the
/// caller as its owner; the answer says whether storing it succeeded.
pub fn add_team_step<'r>(state: AddTeamState, event: AddTeamEvent<'r>) -> (res: (
    AddTeamState,
    AddTeamAction,
))
    requires
        add_team_accepts(state, event),
    ensures
        match (state, event) {
            (AddTeamState::Start, AddTeamEvent::Submitted(team)) => if team.name@.len() == 0 {
                &&& res.0 is Finished
                &&& res.1 matches AddTeamAction::Reply(Err(e))
                &&& e.status == BAD_REQUEST
                &&& e.message@ == "No name was provided"@
            } else {
                &&& res.0 matches AddTeamState::ValidatingToken { name, description }
                &&& name@ == team.name@
                &&& description@ == team.description@
                &&& res.1 is ValidateToken
            },
            (AddTeamState::ValidatingToken { name, description }, AddTeamEvent::TokenValid(owner)) => {
                &&& res.0 is AddingTeam
                &&& res.1 matches AddTeamAction::AddTeam { team, owner: o }
                &&& o == owner
                &&& team.name == name
                &&& team.description == description
                &&& team.ownerId == owner
            },
            (AddTeamState::AddingTeam, AddTeamEvent::TeamAdded) => res.0 is Finished && res.1
                == AddTeamAction::Reply(Ok(true)),
            (AddTeamState::AddingTeam, AddTeamEvent::AddFailed) => res.0 is Finished && res.1
                == AddTeamAction::Reply(Ok(false)),
            _ => false,
        },
{
    match state {
        AddTeamState::Start => match event {
            AddTeamEvent::Submitted(team) => {
                let name = team.name.to_owned();
                if name.as_str().is_empty() {
                    (
                        AddTeamState::Finished,
                        AddTeamAction::Reply(Err(bad_request("No name was provided"))),
                    )
                } else {
                    (
                        AddTeamState::ValidatingToken {
                            name,
                            description: team.description.to_owned(),
                        },
                        AddTeamAction::ValidateToken,
                    )
                }
            },
            _ => (AddTeamState::Finished, AddTeamAction::Reply(Ok(false))),
        },
        AddTeamState::ValidatingToken { name, description } => match event {
            AddTeamEvent::TokenValid(owner) => (
                AddTeamState::AddingTeam,
                AddTeamAction::AddTeam {
                    team: TeamRequestModel { description, name, ownerId: owner },
                    owner,
                },
            ),
            _ => (AddTeamState::Finished, AddTeamAction::Reply(Ok(false))),
        },
        AddTeamState::AddingTeam => match event {
            AddTeamEvent::TeamAdded => (AddTeamState::Finished, AddTeamAction::Reply(Ok(true))),
            _ => (AddTeamState::Finished, AddTeamAction::Reply(Ok(false))),
        },
        AddTeamState::Finished => (AddTeamState::Finished, AddTeamAction::Reply(Ok(false))),
    }
}

// ---------------------------------------------------------------------
// Listing the caller's own teams
// ---------------------------------------------------------------------

/// Where listing the caller's own teams stands.
pub enum OwnerTeamsState {
    Start,
    ValidatingToken,
    /// Waiting for the teams that the caller owns.
    FetchingTeams,
    /// Counting the members of `teams[listed.len()]`; `listed` holds the
    /// entries of the teams before it.
    Counting { teams: Vec<Team>, listed: Vec<TeamResponseModel> },
    Finished,
}

/// What the server learns while listing the caller's own teams.
pub enum OwnerTeamsEvent {
    Requested,
    TokenValid(i32),
    /// The teams that the caller owns, in the datastore's order.
    TeamsFound(Vec<Team>),
    /// The number of members of the team being counted.
    MemberCount(i64),
    CountFailed,
}

/// What the server is to do next while listing the caller's own teams.
pub enum OwnerTeamsAction {
    ValidateToken,
    /// Fetch the teams that this user owns.
    FetchOwnerTeams(i32),
    /// Count the members of the team with this id.
    CountMembers(i32),
    Reply(Result<Vec<TeamResponseModel>, HttpError>),
    /// Answer with the error that counting gave.
    ReplyCountError,
}

/// The entry by which `team` is listed when it has `count` members.
pub open spec fn team_entry(team: Team, count: i64) -> TeamResponseModel {
    TeamResponseModel { id: team.id, name: team.name, description: team.description, count }
}

/// Whether `event` is one that can come in `state`.
pub open spec fn owner_teams_accepts(state: OwnerTeamsState, event: OwnerTeamsEvent) -> bool {
    match state {
        OwnerTeamsState::Start => event is Requested,
        OwnerTeamsState::ValidatingToken => event is TokenValid,
        OwnerTeamsState::FetchingTeams => event is TeamsFound,
        OwnerTeamsState::Counting { teams, listed } => listed.len() < teams.len() && (
        event is MemberCount || event is CountFailed),
        OwnerTeamsState::Finished => false,
    }
}

/// Whether a step of listing the caller's own teams from `state` on
/// `event` may lead to `next` and `action`.
pub open spec fn owner_teams_transition(
    state: OwnerTeamsState,
    event: OwnerTeamsEvent,
    next: OwnerTeamsState,
    action: OwnerTeamsAction,
) -> bool {
    match (state, event) {
        (OwnerTeamsState::Start, OwnerTeamsEvent::Requested) => next is ValidatingToken
            && action is ValidateToken,
        (OwnerTeamsState::ValidatingToken, OwnerTeamsEvent::TokenValid(user)) => next is FetchingTeams
            && action == OwnerTeamsAction::FetchOwnerTeams(user),
        (OwnerTeamsState::FetchingTeams, OwnerTeamsEvent::TeamsFound(teams)) => if teams.len()
            == 0 {
            &&& next is Finished
            &&& action matches OwnerTeamsAction::Reply(Ok(list))
            &&& list@ == Seq::<TeamResponseModel>::empty()
        } else {
            &&& next matches OwnerTeamsState::Counting { teams: t, listed }
            &&& t@ == teams@
            &&& listed@ == Seq::<TeamResponseModel>::empty()
            &&& action == OwnerTeamsAction::CountMembers(teams@[0].id)
        },
        (OwnerTeamsState::Counting { teams, listed }, OwnerTeamsEvent::MemberCount(count)) => {
            let now = listed@.push(team_entry(teams@[listed.len() as int], count));
            if now.len() == teams.len() {
                &&& next is Finished
                &&& action matches OwnerTeamsAction::Reply(Ok(list))
                &&& list@ == now
            } else {
                &&& next matches OwnerTeamsState::Counting { teams: t, listed: l }
                &&& t@ == teams@
                &&& l@ == now
                &&& action == OwnerTeamsAction::CountMembers(teams@[now.len() as int].id)
            }
        },
        (OwnerTeamsState::Counting { .. }, OwnerTeamsEvent::CountFailed) => next is Finished
            && action is ReplyCountError,
        _ => false,
    }
}

/// One step of listing the caller's own teams.
///
/// The caller's token is read and the teams that the caller owns are
/// fetched; then the members of each team are counted in turn. The answer
/// lists every team, in the order fetched, with its id, name, description
/// and member count; a failed count ends the listing with its error.
pub fn owner_teams_step(state: OwnerTeamsState, event: OwnerTeamsEvent) -> (res: (
    OwnerTeamsState,
    OwnerTeamsAction,
))
    requires
        owner_teams_accepts(state, event),
    ensures
        owner_teams_transition(state, event, res.0, res.1),
{
    match state {
        OwnerTeamsState::Start => (OwnerTeamsState::ValidatingToken, OwnerTeamsAction::ValidateToken),
        OwnerTeamsState::ValidatingToken => match event {
            OwnerTeamsEvent::TokenValid(user) => (
                OwnerTeamsState::FetchingTeams,
                OwnerTeamsAction::FetchOwnerTeams(user),
            ),
            _ => (OwnerTeamsState::Finished, OwnerTeamsAction::ReplyCountError),
        },
        OwnerTeamsState::FetchingTeams => match event {
            OwnerTeamsEvent::TeamsFound(teams) => {
                if teams.len() == 0 {
                    (OwnerTeamsState::Finished, OwnerTeamsAction::Reply(Ok(Vec::new())))
                } else {
                    let first = teams[0].id;
                    (
                        OwnerTeamsState::Counting { teams, listed: Vec::new() },
                        OwnerTeamsAction::CountMembers(first),
                    )
                }
            },
            _ => (OwnerTeamsState::Finished, OwnerTeamsAction::ReplyCountError),
        },
        OwnerTeamsState::Counting { teams, listed } => match event {
            OwnerTeamsEvent::MemberCount(count) => {
                let mut listed = listed;
                let k = listed.len();
                let team = &teams[k];
                listed.push(
                    TeamResponseModel {
                        id: team.id,
                        name: team.name.clone(),
                        description: team.description.clone(),
                        count,
                    },
                );
                assert(listed@[k as int] == team_entry(teams@[k as int], count));
                if listed.len() == teams.len() {
                    (OwnerTeamsState::Finished, OwnerTeamsAction::Reply(Ok(listed)))
                } else {
                    let next = teams[listed.len()].id;
                    (OwnerTeamsState::Counting { teams, listed }, OwnerTeamsAction::CountMembers(next))
                }
            },
            _ => (OwnerTeamsState::Finished, OwnerTeamsAction::ReplyCountError),
        },
        OwnerTeamsState::Finished => (OwnerTeamsState::Finished, OwnerTeamsAction::ReplyCountError),
    }
}

/// Whether `states`, `events` and `actions` record a listing of the
/// caller's own teams from its start.
pub open spec fn owner_teams_run(
    states: Seq<OwnerTeamsState>,
    events: Seq<OwnerTeamsEvent>,
    actions: Seq<OwnerTeamsAction>,
) -> bool {
    &&& states.len() == events.len() + 1
    &&& actions.len() == events.len()
    &&& states[0] is Start
    &&& forall|i: int|
        0 <= i < events.len() ==> #[trigger] owner_teams_accepts(states[i], events[i])
            && owner_teams_transition(states[i], events[i], states[i + 1], actions[i])
}

/// The member count that `event` reports.
pub open spec fn reported_count(event: OwnerTeamsEvent) -> i64 {
    match event {
        OwnerTeamsEvent::MemberCount(c) => c,
        _ => 0,
    }
}

/// The entries of the first `n` teams of `teams`, with the counts that the
/// events from index 3 on report.
pub open spec fn counted_entries(teams: Seq<Team>, events: Seq<OwnerTeamsEvent>, n: int) -> Seq<
    TeamResponseModel,
> {
    Seq::new(n as nat, |i: int| team_entry(teams[i], reported_count(events[3 + i])))
}

/// In a listing run, the first three states are the start, the token check
/// and the fetch of the teams, each at its own index only.
proof fn lemma_owner_teams_prefix(
    states: Seq<OwnerTeamsState>,
    events: Seq<OwnerTeamsEvent>,
    actions: Seq<OwnerTeamsAction>,
    j: int,
)
    requires
        owner_teams_run(states, events, actions),
        0 <= j < states.len(),
    ensures
        states[j] is Start ==> j == 0,
        states[j] is ValidatingToken ==> j == 1,
        states[j] is FetchingTeams ==> j == 2,
    decreases j,
{
    if j > 0 {
        assert(owner_teams_accepts(states[j - 1], events[j - 1]));
        lemma_owner_teams_prefix(states, events, actions, j - 1);
    }
}

/// While counting, the listing holds the entries of the teams counted so
/// far, in order.
proof fn lemma_owner_teams_counting(
    states: Seq<OwnerTeamsState>,
    events: Seq<OwnerTeamsEvent>,
    actions: Seq<OwnerTeamsAction>,
    j: int,
)
    requires
        owner_teams_run(states, events, actions),
        0 <= j < states.len(),
        states[j] is Counting,
    ensures
        j >= 3,
        events[2] matches OwnerTeamsEvent::TeamsFound(teams) && states[j] matches OwnerTeamsState::Counting {
            teams: t,
            listed,
        } && t@ == teams@ && listed@ == counted_entries(teams@, events, j - 3),
    decreases j,
{
    assert(j > 0);
    assert(owner_teams_accepts(states[j - 1], events[j - 1]));
    if states[j - 1] is FetchingTeams {
        lemma_owner_teams_prefix(states, events, actions, j - 1);
        assert(counted_entries(events[2]->TeamsFound_0@, events, 0) =~= Seq::<TeamResponseModel>::empty());
    } else {
        lemma_owner_teams_counting(states, events, actions, j - 1);
        let teams = events[2]->TeamsFound_0@;
        assert(counted_entries(teams, events, j - 3) =~= counted_entries(teams, events, j - 4).push(
            team_entry(teams[j - 4], reported_count(events[j - 1])),
        ));
    }
}

/// A listing answers with one entry for each team the caller owns, in the
/// order in which the teams were fetched, each with the member count
/// reported for it.
pub proof fn owner_teams_lists_every_team(
    states: Seq<OwnerTeamsState>,
    events: Seq<OwnerTeamsEvent>,
    actions: Seq<OwnerTeamsAction>,
    k: int,
)
    requires
        owner_teams_run(states, events, actions),
        0 <= k < actions.len(),
        actions[k] matches OwnerTeamsAction::Reply(Ok(_)),
    ensures
        events[2] matches OwnerTeamsEvent::TeamsFound(teams) && actions[k] matches OwnerTeamsAction::Reply(
            Ok(list),
        ) && list@ == counted_entries(teams@, events, teams.len() as int) && k == 2 + teams.len(),
{
    assert(owner_teams_accepts(states[k], events[k]));
    lemma_owner_teams_prefix(states, events, actions, k);
    if states[k] is Counting {
        lemma_owner_teams_counting(states, events, actions, k);
        let teams = events[2]->TeamsFound_0@;
        assert(counted_entries(teams, events, k - 2) =~= counted_entries(teams, events, k - 3).push(
            team_entry(teams[k - 3], reported_count(events[k])),
        ));
    } else {
        assert(states[k] is FetchingTeams);
        assert(counted_entries(events[2]->TeamsFound_0@, events, 0) =~= Seq::<TeamResponseModel>::empty());
    }
}

// ---------------------------------------------------------------------
// Showing one team
// ---------------------------------------------------------------------

/// Where showing one team stands.
pub enum TeamDetailState<M> {
    Start,
    /// Waiting for the members of team `id`.
    FetchingMembers { id: i32 },
    /// Waiting for team `id`; holds its members.
    FetchingTeam { id: i32, members: Vec<M> },
    Finished,
}

/// What the server learns while showing one team.
pub enum TeamDetailEvent<M> {
    /// The team with this id is asked for.
    Requested(i32),
    MembersFound(Vec<M>),
    TeamFound(Team),
    TeamLookupFailed,
}

/// What the server is to do next while showing one team.
pub enum TeamDetailAction<M> {
    /// Fetch the members of the team with this id.
    FetchMembers(i32),
    /// Fetch the team with this id.
    FetchTeam(i32),
    Reply(Result<TeamDetailModel<M>, HttpError>),
}

/// Whether `event` is one that can come in `state`.
pub open spec fn team_detail_accepts<M>(state: TeamDetailState<M>, event: TeamDetailEvent<M>) -> bool {
    match state {
        TeamDetailState::Start => event is Requested,
        TeamDetailState::FetchingMembers { .. } => event is MembersFound,
        TeamDetailState::FetchingTeam { .. } => event is TeamFound || event is TeamLookupFailed,
        TeamDetailState::Finished => false,
    }
}

/// One step of showing one team.
///
/// The team's members are fetched, then the team; the answer is the
/// team's id, description and name with the members, or "Something went
/// wrong!" when the team cannot be fetched.
pub fn team_detail_step<M>(state: TeamDetailState<M>, event: TeamDetailEvent<M>) -> (res: (
    TeamDetailState<M>,
    TeamDetailAction<M>,
))
    requires
        team_detail_accepts(state, event),
    ensures
        match (state, event) {
            (TeamDetailState::Start, TeamDetailEvent::Requested(id)) => res.0
                == TeamDetailState::<M>::FetchingMembers { id } && res.1
                == TeamDetailAction::<M>::FetchMembers(id),
            (TeamDetailState::FetchingMembers { id }, TeamDetailEvent::MembersFound(members)) => res.0
                == TeamDetailState::FetchingTeam { id, members } && res.1
                == TeamDetailAction::<M>::FetchTeam(id),
            (TeamDetailState::FetchingTeam { members, .. }, TeamDetailEvent::TeamFound(team)) => res.0
                is Finished && res.1 == TeamDetailAction::Reply(
                Ok(
                    TeamDetailModel {
                        id: team.id,
                        description: team.description,
                        name: team.name,
                        members,
                    },
                ),
            ),
            (TeamDetailState::FetchingTeam { .. }, TeamDetailEvent::TeamLookupFailed) => {
                &&& res.0 is Finished
                &&& res.1 matches TeamDetailAction::Reply(Err(e))
                &&& e.status == BAD_REQUEST
                &&& e.message@ == "Something went wrong!"@
            },
            _ => false,
        },
{
    match state {
        TeamDetailState::Start => match event {
            TeamDetailEvent::Requested(id) => (
                TeamDetailState::FetchingMembers { id },
                TeamDetailAction::FetchMembers(id),
            ),
            _ => (TeamDetailState::Finished, TeamDetailAction::FetchMembers(0)),
        },
        TeamDetailState::FetchingMembers { id } => match event {
            TeamDetailEvent::MembersFound(members) => (
                TeamDetailState::FetchingTeam { id, members },
                TeamDetailAction::FetchTeam(id),
            ),
            _ => (TeamDetailState::Finished, TeamDetailAction::FetchMembers(id)),
        },
        TeamDetailState::FetchingTeam { id, members } => match event {
            TeamDetailEvent::TeamFound(team) => (
                TeamDetailState::Finished,
                TeamDetailAction::Reply(
                    Ok(
                        TeamDetailModel {
                            id: team.id,
                            description: team.description,
                            name: team.name,
                            members,
                        },
                    ),
                ),
            ),
            _ => (
                TeamDetailState::Finished,
                TeamDetailAction::Reply(Err(bad_request("Something went wrong!"))),
            ),
        },
        TeamDetailState::Finished => (TeamDetailState::Finished, TeamDetailAction::FetchMembers(0)),
    }
}

// ---------------------------------------------------------------------
// Changing a team's members
// ---------------------------------------------------------------------

/// A change to the members of a team.
pub enum MembershipChange {
    /// Add these users to the team.
    Add { team_id: i32, members: Vec<i32> },
    /// Take this user off the team.
    Remove { team_id: i32, member_id: i32 },
}

/// Where a change to a team's members stands.
pub enum MembershipState {
    Start,
    /// Waiting for the caller's token to be read; holds the change.
    ValidatingToken { change: MembershipChange },
    /// Waiting for the change to be stored.
    Applying,
    Finished,
}

/// What the server learns while changing a team's members.
pub enum MembershipEvent {
    Requested(MembershipChange),
    TokenValid(i32),
    Applied,
    ApplyFailed,
}

/// What the server is to do next while changing a team's members.
pub enum MembershipAction {
    ValidateToken,
    /// Store this change.
    Apply(MembershipChange),
    /// Answer whether the change was stored.
    Reply(bool),
}

/// Whether `event` is one that can come in `state`.
pub open spec fn membership_accepts(state: MembershipState, event: MembershipEvent) -> bool {
    match state {
        MembershipState::Start => event is Requested,
        MembershipState::ValidatingToken { .. } => event is TokenValid,
        MembershipState::Applying => event is Applied || event is ApplyFailed,
        MembershipState::Finished => false,
    }
}

/// One step of adding members to a team or removing one from it.
///
/// The caller's token is read, then the change is stored; the answer says
/// whether storing it succeeded.
pub fn membership_step(state: MembershipState, event: MembershipEvent) -> (res: (
    MembershipState,
    MembershipAction,
))
    requires
        membership_accepts(state, event),
    ensures
        match (state, event) {
            (MembershipState::Start, MembershipEvent::Requested(change)) => res.0
                == MembershipState::ValidatingToken { change } && res.1
                is ValidateToken,
            (MembershipState::ValidatingToken { change }, MembershipEvent::TokenValid(_)) => res.0
                is Applying && res.1 == MembershipAction::Apply(change),
            (MembershipState::Applying, MembershipEvent::Applied) => res.0 is Finished && res.1
                == MembershipAction::Reply(true),
            (MembershipState::Applying, MembershipEvent::ApplyFailed) => res.0 is Finished && res.1
                == MembershipAction::Reply(false),
            _ => false,
        },
{
    match state {
        MembershipState::Start => match event {
            MembershipEvent::Requested(change) => (
                MembershipState::ValidatingToken { change },
                MembershipAction::ValidateToken,
            ),
            _ => (MembershipState::Finished, MembershipAction::Reply(false)),
        },
        MembershipState::ValidatingToken { change } => (
            MembershipState::Applying,
            MembershipAction::Apply(change),
        ),
        MembershipState::Applying => match event {
            MembershipEvent::Applied => (MembershipState::Finished, MembershipAction::Reply(true)),
            _ => (MembershipState::Finished, MembershipAction::Reply(false)),
        },
        MembershipState::Finished => (MembershipState::Finished, MembershipAction::Reply(false)),
    }
}

// ---------------------------------------------------------------------
// Listing the teams the caller belongs to
// ---------------------------------------------------------------------

/// Where listing the caller's teams stands.
pub enum UserTeamsState {
    Start,
    ValidatingToken,
    /// Waiting for the caller's teams.
    FetchingTeams,
    Finished,
}

/// What the server learns while listing the caller's teams.
pub enum UserTeamsEvent<T> {
    Requested,
    TokenValid(i32),
    TeamsFound(Vec<T>),
    LookupFailed,
}

/// What the server is to do next while listing the caller's teams.
pub enum UserTeamsAction<T> {
    ValidateToken,
    /// Fetch the teams of this user.
    FetchUserTeams(i32),
    Reply(Vec<T>),
    /// Answer with the error that the lookup gave.
    ReplyLookupError,
}

/// Whether `event` is one that can come in `state`.
pub open spec fn user_teams_accepts<T>(state: UserTeamsState, event: UserTeamsEvent<T>) -> bool {
    match state {
        UserTeamsState::Start => event is Requested,
        UserTeamsState::ValidatingToken => event is TokenValid,
        UserTeamsState::FetchingTeams => event is TeamsFound || event is LookupFailed,
        UserTeamsState::Finished => false,
    }
}

/// One step of listing the teams the caller belongs to.
///
/// The caller's token is read and the caller's teams fetched; the answer
/// is those teams, or the error that fetching them gave.
pub fn user_teams_step<T>(state: UserTeamsState, event: UserTeamsEvent<T>) -> (res: (
    UserTeamsState,
    UserTeamsAction<T>,
))
    requires
        user_teams_accepts(state, event),
    ensures
        match (state, event) {
            (UserTeamsState::Start, UserTeamsEvent::Requested) => res.0 is ValidatingToken && res.1
                is ValidateToken,
            (UserTeamsState::ValidatingToken, UserTeamsEvent::TokenValid(user)) => res.0 is FetchingTeams
                && res.1 == UserTeamsAction::<T>::FetchUserTeams(user),
            (UserTeamsState::FetchingTeams, UserTeamsEvent::TeamsFound(teams)) => res.0 is Finished
                && res.1 == UserTeamsAction::Reply(teams),
            (UserTeamsState::FetchingTeams, UserTeamsEvent::LookupFailed) => res.0 is Finished
                && res.1 is ReplyLookupError,
            _ => false,
        },
{
    match state {
        UserTeamsState::Start => (UserTeamsState::ValidatingToken, UserTeamsAction::ValidateToken),
        UserTeamsState::ValidatingToken => match event {
            UserTeamsEvent::TokenValid(user) => (
                UserTeamsState::FetchingTeams,
                UserTeamsAction::FetchUserTeams(user),
            ),
            _ => (UserTeamsState::Finished, UserTeamsAction::ReplyLookupError),
        },
        UserTeamsState::FetchingTeams => match event {
            UserTeamsEvent::TeamsFound(teams) => (UserTeamsState::Finished, UserTeamsAction::Reply(teams)),
            _ => (UserTeamsState::Finished, UserTeamsAction::ReplyLookupError),
        },
        UserTeamsState::Finished => (UserTeamsState::Finished, UserTeamsAction::ReplyLookupError),
    }
}

} // verus!
