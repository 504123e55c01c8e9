use std::sync::Arc;
use wayland_proxy::arguments::{encode_arguments, EncodeError, WaylandValue};
use wayland_proxy::schema::ArgumentType;
use wayland_proxy::signature::walk_signature;

#[test]
fn every_kind_of_argument_is_encoded() {
    let signature = [
        ArgumentType::Int,
        ArgumentType::Uint,
        ArgumentType::Fixed,
        ArgumentType::Str,
        ArgumentType::Object,
        ArgumentType::NewId,
        ArgumentType::Array,
        ArgumentType::Fd,
    ];
    let values = vec![
        WaylandValue::Int(-1),
        WaylandValue::Uint(2),
        WaylandValue::Fixed(256),
        WaylandValue::String("ab".to_string()),
        WaylandValue::Object(5),
        WaylandValue::NewId(6),
        WaylandValue::Array(vec![9, 8, 7]),
        WaylandValue::Fd(Arc::new(70u32)),
    ];
    let (bytes, fds) = match encode_arguments(&signature, values) {
        Ok(encoded) => encoded,
        Err(_) => panic!("these values fit the signature"),
    };
    let mut expected = (-1i32).to_ne_bytes().to_vec();
    expected.extend(2u32.to_ne_bytes());
    expected.extend(256i32.to_ne_bytes());
    expected.extend(3u32.to_ne_bytes());
    expected.extend([b'a', b'b', 0, 0]);
    expected.extend(5u32.to_ne_bytes());
    expected.extend(6u32.to_ne_bytes());
    expected.extend(3u32.to_ne_bytes());
    expected.extend([9, 8, 7, 0]);
    assert_eq!(bytes, expected);
    assert_eq!(fds.len(), 1);
    assert_eq!(*fds[0], 70);

    let walk = walk_signature(&bytes, &signature).unwrap();
    assert_eq!(walk.object_offsets, vec![20]);
    assert_eq!(walk.new_id_offset, Some(24));
    assert_eq!(walk.fd_count, 1);
}

#[test]
fn values_must_fit_the_signature() {
    let none: Vec<WaylandValue<u32>> = vec![];
    assert!(matches!(
        encode_arguments(&[ArgumentType::Uint], none),
        Err(EncodeError::CountMismatch)
    ));
    let wrong: Vec<WaylandValue<u32>> = vec![WaylandValue::Int(1)];
    assert!(matches!(
        encode_arguments(&[ArgumentType::Uint], wrong),
        Err(EncodeError::TypeMismatch)
    ));
}
