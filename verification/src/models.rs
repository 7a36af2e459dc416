use vstd::prelude::*;

verus! {

/// A team as the datastore keeps it.
#[allow(non_snake_case)]
#[derive(Clone, Debug)]
pub struct Team {
    pub id: i32,
    pub name: String,
    pub description: String,
    pub ownerId: i32,
}

/// A team to be created.
#[allow(non_snake_case)]
#[derive(Clone, Debug)]
pub struct TeamRequestModel {
    pub name: String,
    pub description: String,
    pub ownerId: i32,
}

/// A team as it is listed to its owner, with its number of members.
#[derive(Clone, Debug)]
pub struct TeamResponseModel {
    pub id: i32,
    pub name: String,
    pub description: String,
    pub count: i64,
}

/// A registered user.
#[derive(Clone, Debug)]
pub struct User {
    pub id: i32,
    pub email: String,
    pub name: String,
    pub role: i8,
    pub lastname: String,
    pub password: String,
}

/// A team with its members.
#[derive(Clone, Debug)]
pub struct TeamDetailModel<M> {
    pub id: i32,
    pub description: String,
    pub name: String,
    pub members: Vec<M>,
}

/// The body of a request that creates a team.
#[derive(Clone, Copy, Debug)]
pub struct TeamModel<'r> {
    pub name: &'r str,
    pub description: &'r str,
}

/// The body of a login request.
#[derive(Clone, Copy, Debug)]
pub struct LoginModel<'r> {
    pub email: &'r str,
    pub password: &'r str,
}

/// The body of a signup request.
#[derive(Clone, Copy, Debug)]
pub struct SignupModel<'r> {
    pub password: &'r str,
    pub email: &'r str,
    pub name: &'r str,
    pub lastname: &'r str,
}

/// What a session token says: whose it is and until when it holds.
#[allow(non_snake_case)]
#[derive(Clone, Debug)]
pub struct Claims {
    pub userId: i32,
    pub exp: u64,
}

/// An error answer: an HTTP status code and a message.
#[derive(Clone, Debug)]
pub struct HttpError {
    pub status: u16,
    pub message: String,
}

/// The status code of a request that the server refuses as malformed.
pub const BAD_REQUEST: u16 = 400;

/// An error answer with status [`BAD_REQUEST`] and the message `message`.
pub fn bad_request(message: &str) -> (res: HttpError)
    ensures
        res.status == BAD_REQUEST,
        res.message@ == message@,
{
    HttpError { status: BAD_REQUEST, message: message.to_owned() }
}

} // verus!
