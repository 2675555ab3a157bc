use entangled_worlds::basic_types::WorldPos;
use entangled_worlds::des::{EntitySpawnInfo, Gid, Lid};
use entangled_worlds::des_manager::{
    DesManager, DesToProxy, FullEntityData, PeerKey, ProxyToDes, UpdateOrUpload, UpdatePosition,
};

fn entity(gid: u64, x: i32, y: i32) -> FullEntityData {
    FullEntityData {
        gid: Gid(gid),
        pos: WorldPos { x, y },
        data: EntitySpawnInfo::Filename("data/entities/animals/rat.xml".to_string()),
        wand: None,
        hp: 0x4120_0000,
        max_hp: Some(0x4120_0000),
        drops_gold: true,
        is_charmed: false,
        counter: 0,
        phys: Vec::new(),
        synced_var: Vec::new(),
    }
}

fn gids_granted(msgs: &[(PeerKey, ProxyToDes)], peer: PeerKey) -> Vec<u64> {
    let mut out = Vec::new();
    for (p, m) in msgs {
        if *p != peer {
            continue;
        }
        match m {
            ProxyToDes::GotAuthority(e) => out.push(e.gid.0),
            ProxyToDes::GotAuthoritys(es) => out.extend(es.iter().map(|e| e.gid.0)),
            ProxyToDes::DeleteEntity(_) => {}
        }
    }
    out.sort();
    out
}

fn request(m: &mut DesManager, peer: PeerKey, x: i32, y: i32) -> Vec<(PeerKey, ProxyToDes)> {
    m.handle_noita_msg(peer, DesToProxy::RequestAuthority { pos: WorldPos { x, y } });
    m.pending_messages()
}

#[test]
fn request_grants_entities_within_radius() {
    let mut m = DesManager::new(true, vec![entity(1, 0, 0), entity(2, 10_000, 0)]);
    let msgs = request(&mut m, 7, 100, 100);
    assert_eq!(msgs.len(), 1);
    assert!(matches!(&msgs[0], (7, ProxyToDes::GotAuthority(e)) if e.gid == Gid(1)));
    // Already handed out: a second request gets nothing.
    assert!(request(&mut m, 8, 0, 0).is_empty());
}

#[test]
fn request_at_the_radius_edge() {
    let mut m = DesManager::new(false, vec![entity(1, 400, 0), entity(2, 401, 0)]);
    assert_eq!(gids_granted(&request(&mut m, 3, 0, 0), 3), vec![1]);
}

#[test]
fn several_entities_come_together() {
    let mut m = DesManager::new(true, vec![entity(1, 0, 0), entity(2, 5, 5), entity(3, -5, 0)]);
    let msgs = request(&mut m, 4, 0, 0);
    assert_eq!(msgs.len(), 1);
    assert!(matches!(&msgs[0], (4, ProxyToDes::GotAuthoritys(v)) if v.len() == 3));
    assert_eq!(gids_granted(&msgs, 4), vec![1, 2, 3]);
}

#[test]
fn empty_manager_answers_nothing() {
    let mut m = DesManager::new(true, Vec::new());
    assert!(request(&mut m, 1, 0, 0).is_empty());
}

#[test]
fn later_record_of_a_gid_wins() {
    let mut m = DesManager::new(true, vec![entity(1, 0, 0), entity(1, 3000, 0)]);
    assert!(request(&mut m, 2, 0, 0).is_empty());
    let msgs = request(&mut m, 2, 3000, 0);
    assert!(matches!(&msgs[..], [(2, ProxyToDes::GotAuthority(e))] if e.pos.x == 3000));
}

#[test]
fn release_puts_entity_back() {
    let mut m = DesManager::new(true, Vec::new());
    m.handle_noita_msg(5, DesToProxy::UpdatePosition(UpdateOrUpload::Upload(entity(9, 50, 50))));
    assert!(request(&mut m, 6, 50, 50).is_empty());
    m.handle_noita_msg(5, DesToProxy::ReleaseAuthority(Gid(9)));
    m.handle_noita_msg(5, DesToProxy::ReleaseAuthority(Gid(9)));
    let msgs = request(&mut m, 6, 50, 50);
    assert!(matches!(&msgs[..], [(6, ProxyToDes::GotAuthority(e))] if e.gid == Gid(9)));
}

#[test]
fn update_moves_entity_and_takes_it_from_the_index() {
    let mut m = DesManager::new(true, vec![entity(1, 0, 0)]);
    let upd = UpdatePosition {
        gid: Gid(1),
        pos: WorldPos { x: 5000, y: 0 },
        counter: 3,
        is_charmed: true,
        hp: 0x3f80_0000,
        max_hp: None,
        phys: Vec::new(),
        synced_var: Vec::new(),
    };
    m.handle_noita_msg(2, DesToProxy::UpdatePositions(vec![UpdateOrUpload::Update(upd)]));
    assert!(request(&mut m, 3, 0, 0).is_empty());
    m.handle_noita_msg(2, DesToProxy::ReleaseAuthority(Gid(1)));
    let msgs = request(&mut m, 3, 5000, 0);
    match &msgs[..] {
        [(3, ProxyToDes::GotAuthority(e))] => {
            assert_eq!(e.pos, WorldPos { x: 5000, y: 0 });
            assert_eq!(e.counter, 3);
            assert!(e.is_charmed);
            assert_eq!(e.hp, 0x3f80_0000);
            assert_eq!(e.max_hp, None);
            assert!(e.drops_gold);
        }
        _ => panic!("expected one grant"),
    }
}

#[test]
fn delete_of_unknown_entity_is_echoed() {
    let mut m = DesManager::new(true, Vec::new());
    m.handle_noita_msg(4, DesToProxy::DeleteEntity(Gid(77), Some(Lid(12))));
    m.handle_noita_msg(4, DesToProxy::DeleteEntity(Gid(78), None));
    let msgs = m.pending_messages();
    assert!(matches!(&msgs[..], [(4, ProxyToDes::DeleteEntity(Lid(12)))]));
    assert!(m.pending_messages().is_empty());
}

#[test]
fn delete_of_known_entity_forgets_it() {
    let mut m = DesManager::new(true, vec![entity(1, 0, 0)]);
    m.handle_noita_msg(4, DesToProxy::DeleteEntity(Gid(1), Some(Lid(3))));
    assert!(m.pending_messages().is_empty());
    assert!(request(&mut m, 4, 0, 0).is_empty());
    m.handle_noita_msg(4, DesToProxy::TransferAuthorityTo(Gid(1), 9));
    assert!(m.pending_messages().is_empty());
}

#[test]
fn transfer_sends_data_with_wand_to_new_holder() {
    let mut m = DesManager::new(true, Vec::new());
    m.handle_noita_msg(1, DesToProxy::UpdatePosition(UpdateOrUpload::Upload(entity(3, 0, 0))));
    m.handle_noita_msg(1, DesToProxy::UpdateWand(Gid(3), Some(vec![1, 2, 3])));
    m.handle_noita_msg(1, DesToProxy::TransferAuthorityTo(Gid(3), 2));
    let msgs = m.pending_messages();
    match &msgs[..] {
        [(2, ProxyToDes::GotAuthority(e))] => {
            assert_eq!(e.gid, Gid(3));
            assert_eq!(e.wand, Some(vec![1, 2, 3]));
        }
        _ => panic!("expected one grant to peer 2"),
    }
    m.handle_noita_msg(1, DesToProxy::TransferAuthorityTo(Gid(4), 2));
    assert!(m.pending_messages().is_empty());
}

#[test]
fn disconnect_frees_held_entities() {
    let mut m = DesManager::new(true, Vec::new());
    m.handle_noita_msg(1, DesToProxy::UpdatePosition(UpdateOrUpload::Upload(entity(3, 0, 0))));
    m.handle_noita_msg(2, DesToProxy::UpdatePosition(UpdateOrUpload::Upload(entity(4, 10, 0))));
    m.noita_disconnected(1);
    assert_eq!(gids_granted(&request(&mut m, 5, 0, 0), 5), vec![3]);
}

#[test]
fn reset_forgets_everything() {
    let mut m = DesManager::new(true, vec![entity(1, 0, 0)]);
    m.handle_noita_msg(4, DesToProxy::DeleteEntity(Gid(77), Some(Lid(12))));
    m.reset();
    assert!(m.pending_messages().is_empty());
    assert!(request(&mut m, 4, 0, 0).is_empty());
}
