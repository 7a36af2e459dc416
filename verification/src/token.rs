use vstd::prelude::*;
use vstd::string::*;

verus! {

/// A bearer token taken from a request's `Authorization` header.
pub struct Token(pub String);

/// The text that introduces a bearer token in an `Authorization` header.
pub open spec fn bearer_prefix() -> Seq<char> {
    seq!['B', 'e', 'a', 'r', 'e', 'r', ' ']
}

/// `s` with `prefix` cut from its front, when `s` begins with it.
pub open spec fn without_prefix(s: Seq<char>, prefix: Seq<char>) -> Option<Seq<char>> {
    if prefix.len() <= s.len() && s.take(prefix.len() as int) == prefix {
        Some(s.skip(prefix.len() as int))
    } else {
        None
    }
}

/// The rest of `s` after `prefix` when `s` starts with `prefix`, and
/// `None` otherwise.
fn strip_prefix<'a>(s: &'a str, prefix: &str) -> (res: Option<&'a str>)
    ensures
        match res {
            Some(rest) => without_prefix(s@, prefix@) == Some(rest@),
            None => without_prefix(s@, prefix@) is None,
        },
{
    let n = prefix.unicode_len();
    let len = s.unicode_len();
    if n > len {
        return None;
    }
    let mut i: usize = 0;
    while i < n
        invariant
            i <= n <= len,
            n == prefix@.len(),
            len == s@.len(),
            forall|j: int| 0 <= j < i ==> s@[j] == prefix@[j],
        decreases n - i,
    {
        if s.get_char(i) != prefix.get_char(i) {
            assert(s@.take(n as int)[i as int] != prefix@[i as int]);
            return None;
        }
        i = i + 1;
    }
    assert(s@.take(n as int) =~= prefix@);
    Some(s.substring_char(n, len))
}

/// Reads a bearer token from the value of an `Authorization` header:
/// the header must be present and begin with `"Bearer "`; the token is
/// what follows. `None` means the request is not authorised.
pub fn bearer_token(authorization: Option<&str>) -> (res: Option<Token>)
    ensures
        match authorization {
            Some(header) => match without_prefix(header@, bearer_prefix()) {
                Some(rest) => res matches Some(t) && t.0@ == rest,
                None => res is None,
            },
            None => res is None,
        },
{
    match authorization {
        Some(header) => {
            let prefix = "Bearer ";
            proof {
                reveal_strlit("Bearer ");
            }
            assert(prefix@ == bearer_prefix());
            match strip_prefix(header, prefix) {
                Some(rest) => Some(Token(rest.to_owned())),
                None => None,
            }
        },
        None => None,
    }
}

/// A header made of `"Bearer "` and a token gives that token back.
pub proof fn bearer_header_round_trip(token: Seq<char>)
    ensures
        without_prefix(bearer_prefix() + token, bearer_prefix()) == Some(token),
{
    let h = bearer_prefix() + token;
    assert(h.take(7) =~= bearer_prefix());
    assert(h.skip(7) =~= token);
}

} // verus!
