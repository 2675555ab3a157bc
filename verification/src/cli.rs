//! The choices the proxy makes when started from the command line: which
//! lobby service and visibility the saved settings ask for, the nickname,
//! the game's port, and how a lobby given as text is joined.
use vstd::prelude::*;
use vstd::string::StringSliceAdditionalSpecFns;
use crate::settings::Cosmetics;
use crate::text::{contains_bytes, occurs_in};

verus! {

/// The local port the game talks to the proxy on.
pub const NOITA_PORT: u16 = 21251;

/// The service a lobby lives on.
#[derive(Debug, Clone, Copy, PartialEq, Eq, Structural)]
pub enum LobbyKind {
    Steam,
    Gog,
}

/// Who may find and join a hosted lobby.
#[derive(Debug, Clone, Copy, PartialEq, Eq, Structural)]
pub enum LobbyVisibility {
    Public,
    FriendsOnly,
    Private,
}

/// The lobby service: the one without Steam when the saved settings ask for it.
pub fn lobby_kind(spacewars: bool) -> (r: LobbyKind)
    ensures
        r == if spacewars { LobbyKind::Gog } else { LobbyKind::Steam },
{
    if spacewars {
        LobbyKind::Gog
    } else {
        LobbyKind::Steam
    }
}

/// The lobby's visibility: public wins over friends-only, and private is
/// what is left.
pub fn lobby_visibility(public_lobby: bool, allow_friends: bool) -> (r: LobbyVisibility)
    ensures
        r == if public_lobby {
            LobbyVisibility::Public
        } else if allow_friends {
            LobbyVisibility::FriendsOnly
        } else {
            LobbyVisibility::Private
        },
{
    if public_lobby {
        LobbyVisibility::Public
    } else if allow_friends {
        LobbyVisibility::FriendsOnly
    } else {
        LobbyVisibility::Private
    }
}

/// The saved nickname, or a placeholder when there is none.
pub fn nickname_or_default(nickname: Option<String>) -> (r: String)
    ensures
        match nickname {
            Some(n) => r@ == n@,
            None => r@ == "no nickname found"@,
        },
{
    match nickname {
        Some(n) => n,
        None => String::from_str("no nickname found"),
    }
}

/// Whether a lobby given as text is an address to connect to directly (it
/// holds a colon) rather than a lobby code.
pub fn is_direct_address(lobby: &str) -> (r: bool)
    ensures
        r == occurs_in(lobby.spec_bytes(), seq![58u8]),
{
    let colon: [u8; 1] = [58u8];
    let r = contains_bytes(lobby.as_bytes(), colon.as_slice());
    assert(colon@ =~= seq![58u8]);
    r
}

/// The cosmetics a player started from the command line wears, given the
/// unlocks found in the game's save (none when there is no save). Nothing is
/// switched on there: an unlock found can only leave a cosmetic off, and one
/// missing switches it off, so every cosmetic stays off.
pub fn cli_cosmetics(unlocked: Option<Cosmetics>) -> (r: Cosmetics)
    ensures
        !r.hat && !r.amulet && !r.amulet_gem,
{
    let mut c = Cosmetics { hat: false, amulet: false, amulet_gem: false };
    match unlocked {
        Some(u) => {
            if !u.hat {
                c.hat = false;
            }
            if !u.amulet {
                c.amulet = false;
            }
            if !u.amulet_gem {
                c.amulet_gem = false;
            }
        },
        None => {},
    }
    c
}

} // verus!
