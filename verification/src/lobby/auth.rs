//! The lobby's word on who a session belongs to.

use vstd::prelude::*;

use crate::lobby::link::LobbyAuthToken;
use crate::lobby::link::LobbyAuthTokenView;
use crate::utils;

verus! {

pub const NS_LOBBYAUTH: &'static str = "jabber:iq:lobbyauth";

/// What a game is told of a query that names a token, from someone the lobby
/// server vouches for by name. The reply is empty either way.
pub open spec fn vouched(token: Option<Seq<char>>, node: Option<Seq<char>>) -> Option<
    LobbyAuthTokenView,
> {
    match (token, node) {
        (Some(token), Some(username)) => Some(LobbyAuthTokenView { username, token }),
        _ => None,
    }
}

pub fn handle(token: Option<String>, node: Option<String>) -> (r: Option<LobbyAuthToken>)
    ensures
        utils::seen(r) == vouched(utils::seen(token), utils::seen(node)),
{
    match (token, node) {
        (Some(token), Some(username)) => Some(LobbyAuthToken { username, token }),
        _ => None,
    }
}

} // verus!
