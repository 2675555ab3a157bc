use entangled_worlds::cli::cli_cosmetics;
use entangled_worlds::settings::Cosmetics;
use entangled_worlds::cli::{
    is_direct_address, lobby_kind, lobby_visibility, nickname_or_default, LobbyKind,
    LobbyVisibility, NOITA_PORT,
};

#[test]
fn lobby_choices_follow_settings() {
    assert_eq!(lobby_kind(true), LobbyKind::Gog);
    assert_eq!(lobby_kind(false), LobbyKind::Steam);
    assert_eq!(lobby_visibility(true, true), LobbyVisibility::Public);
    assert_eq!(lobby_visibility(true, false), LobbyVisibility::Public);
    assert_eq!(lobby_visibility(false, true), LobbyVisibility::FriendsOnly);
    assert_eq!(lobby_visibility(false, false), LobbyVisibility::Private);
}

#[test]
fn nickname_falls_back() {
    assert_eq!(nickname_or_default(Some("Mina".to_string())), "Mina");
    assert_eq!(nickname_or_default(None), "no nickname found");
}

#[test]
fn direct_addresses_hold_a_colon() {
    assert!(is_direct_address("127.0.0.1:21251"));
    assert!(!is_direct_address("ABCDEF123"));
    assert!(!is_direct_address(""));
    assert_eq!(NOITA_PORT, 21251);
}

#[test]
fn cli_players_wear_no_cosmetics() {
    let all = Cosmetics { hat: true, amulet: true, amulet_gem: true };
    let c = cli_cosmetics(Some(all));
    assert!(!c.hat && !c.amulet && !c.amulet_gem);
    let c = cli_cosmetics(None);
    assert!(!c.hat && !c.amulet && !c.amulet_gem);
}
