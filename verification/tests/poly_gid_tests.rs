use entangled_worlds::des::Gid;
use base64::Engine;
use entangled_worlds::poly_gid::{gid_from_serialized_data, gid_from_serialized_entity, ChildEffect, PolyError};

fn string(s: &[u8]) -> Vec<u8> {
    let mut out = (s.len() as u32).to_be_bytes().to_vec();
    out.extend_from_slice(s);
    out
}

fn blob(name: &[u8], value: &[u8]) -> Vec<u8> {
    let mut out = vec![0x00, 0x00, 0x00, 0x02, 0x37, 0x39];
    out.extend(string(b"VariableStorageComponent"));
    out.push(0x01);
    out.extend(string(b""));
    out.extend(string(name));
    out.extend(string(value));
    out.extend_from_slice(&0x3132_3334_i32.to_be_bytes());
    out.push(0x01);
    out.extend_from_slice(&1.0f32.to_be_bytes());
    out
}

#[test]
fn reads_the_framed_value() {
    assert_eq!(
        gid_from_serialized_entity(&blob(b"ew_gid_lid", b"1234567890123")),
        Some(Gid(1234567890123))
    );
}

#[test]
fn reads_exactly_the_declared_length() {
    assert_eq!(
        gid_from_serialized_entity(&blob(b"ew_gid_lid", b"42")),
        Some(Gid(42))
    );
}

#[test]
fn ignores_the_name_inside_a_tag_list() {
    let mut data = string(b"enemy,ew_gid_lid,ew_des");
    data.extend(blob(b"other_var", b"7"));
    assert_eq!(gid_from_serialized_entity(&data), None);
}

#[test]
fn rejects_non_digit_and_oversized_values() {
    assert_eq!(
        gid_from_serialized_entity(&blob(b"ew_gid_lid", b"12a4")),
        None
    );
    assert_eq!(gid_from_serialized_entity(&blob(b"ew_gid_lid", b"")), None);
    assert_eq!(
        gid_from_serialized_entity(&blob(b"ew_gid_lid", &[b'9'; 21])),
        None
    );
}

#[test]
fn tolerates_a_truncated_blob() {
    let full = blob(b"ew_gid_lid", b"12345");
    for cut in 0..full.len() {
        let _ = gid_from_serialized_entity(&full[..cut]);
    }
    assert_eq!(gid_from_serialized_entity(&full), Some(Gid(12345)));
}

#[test]
fn values_past_u64_are_rejected() {
    assert_eq!(gid_from_serialized_entity(&blob(b"ew_gid_lid", b"18446744073709551615")), Some(Gid(u64::MAX)));
    assert_eq!(gid_from_serialized_entity(&blob(b"ew_gid_lid", b"18446744073709551616")), None);
}

fn b64(s: &str) -> String {
    base64::engine::general_purpose::STANDARD.encode(s.as_bytes())
}

#[test]
fn serialized_effect_data_yields_the_gid() {
    assert_eq!(gid_from_serialized_data(&b64("tags ew_gid_lid: 12345 then 678")), Ok(Some(Gid(12345))));
    assert_eq!(gid_from_serialized_data(""), Ok(None));
    assert_eq!(gid_from_serialized_data("!!not base64!!"), Ok(None));
    assert_eq!(gid_from_serialized_data(&b64("no name here 42")), Ok(None));
    assert!(gid_from_serialized_data(&b64("ew_gid_lid")).is_err());
    assert!(gid_from_serialized_data(&b64("ew_gid_lid 99999999999999999999")).is_err());
    assert!(gid_from_serialized_data(&b64("ew_gid_lid \u{663}")).is_err());
}

fn eid(v: isize) -> entangled_worlds::api::EntityID {
    match entangled_worlds::api::EntityID::new(v) {
        Ok(e) => e,
        Err(_) => panic!("zero id"),
    }
}

fn poly_data(text: &str) -> String {
    base64::engine::general_purpose::STANDARD.encode(text.as_bytes())
}

#[test]
fn handle_poly_reads_the_first_polymorph_child() {
    let children = vec![eid(1), eid(2), eid(3)];
    let r = entangled_worlds::api::EntityID::handle_poly(&children, |c| match c.raw() {
        1 => ChildEffect::NoEffect,
        2 => ChildEffect::Other,
        3 => ChildEffect::Polymorph(Ok(poly_data("abc ew_gid_lid 987 more 11"))),
        _ => panic!("unknown child"),
    });
    assert!(matches!(r, Ok(Some(Gid(987)))));

    let r = entangled_worlds::api::EntityID::handle_poly(&children, |c| match c.raw() {
        1 => ChildEffect::Polymorph(Ok(String::new())),
        _ => panic!("search ends at the first polymorph"),
    });
    assert!(matches!(r, Ok(None)));

    let r = entangled_worlds::api::EntityID::handle_poly(&children, |c| match c.raw() {
        1 => ChildEffect::Unreadable(entangled_worlds::api::EngineError::new("bad".to_string())),
        _ => panic!("search ends at the first unreadable effect"),
    });
    assert!(matches!(r, Err(PolyError::Engine(ref e)) if e.message == "bad"));

    let r = entangled_worlds::api::EntityID::handle_poly(&children, |_| ChildEffect::Other);
    assert!(matches!(r, Ok(None)));

    let r = entangled_worlds::api::EntityID::handle_poly(&children, |c| match c.raw() {
        1 => ChildEffect::Polymorph(Ok(poly_data("ew_gid_lid 99999999999999999999999"))),
        _ => panic!("search ends at the first polymorph"),
    });
    assert!(matches!(r, Err(PolyError::Gid(_))));

    let r = entangled_worlds::api::EntityID::handle_poly(&children, |c| match c.raw() {
        1 => ChildEffect::Polymorph(Err(entangled_worlds::api::EngineError::new("no data".to_string()))),
        _ => panic!("search ends at the first polymorph"),
    });
    assert!(matches!(r, Ok(None)));
}
