use entangled_worlds::basic_types::{parse_radix, Destination, PeerId, WorldPos};
use entangled_worlds::color::{compare_rgb, invert, rgb_to_hex, set_rgb};
use entangled_worlds::tangled::{self, PeerState, Reliability};

#[test]
fn peer_ids_parse_from_hex() {
    assert_eq!(PeerId::from_hex("ff").unwrap(), PeerId(255));
    assert_eq!(PeerId::from_hex("+A0").unwrap(), PeerId(160));
    assert!(PeerId::from_hex("").is_err());
    assert!(PeerId::from_hex("+").is_err());
    assert!(PeerId::from_hex("-1").is_err());
    assert!(PeerId::from_hex("xyz").is_err());
    assert_eq!(PeerId::from_hex("xyz").unwrap_err().to_string(), "Failed to parse PeerId");
    assert_eq!(PeerId::from_hex("ffffffffffffffff").unwrap(), PeerId(u64::MAX));
    assert!(PeerId::from_hex("10000000000000000").is_err());
    assert_eq!(parse_radix(b"0129", 0, 4, 10), Some(129));
}

#[test]
fn positions_and_destinations() {
    let p = WorldPos { x: -3, y: 7 };
    assert_eq!(p.as_array(), [-3i64, 7i64]);
    let d: Destination<u64> = Destination::Peer(5u32).convert();
    assert_eq!(d, Destination::Peer(5u64));
    let h: Destination<u64> = Destination::<u32>::Host.convert();
    assert_eq!(h, Destination::Host);
}

#[test]
fn colours() {
    assert_eq!(rgb_to_hex([255, 0, 171, 9]), "FF00AB");
    assert!(compare_rgb([1, 2, 3, 4], [1, 2, 3, 5]));
    assert!(!compare_rgb([1, 2, 3, 4], [1, 2, 0, 4]));
    assert_eq!(invert([0, 255, 10, 7]), [255, 0, 245, 7]);
    let mut a = [1, 1, 1, 9];
    set_rgb(&mut a, [5, 6, 7, 8]);
    assert_eq!(a, [5, 6, 7, 9]);
}

#[test]
fn network_types() {
    assert_eq!(Reliability::from_reliability_bool(true), Reliability::Reliable);
    assert_eq!(Reliability::from_reliability_bool(false), Reliability::Unreliable);
    assert_eq!(tangled::PeerId(1234).to_string(), "1234");
    assert_eq!(tangled::PeerId(0).to_string(), "0");
    assert_eq!(tangled::PeerId::host(), tangled::PeerId(0));
    assert_eq!(PeerState::default().to_string(), "Connection pending...");
    assert!(tangled::Destination::Broadcast.is_broadcast());
    assert_eq!(tangled::Destination::One(tangled::PeerId(3)).to_one(), Some(tangled::PeerId(3)));
}
