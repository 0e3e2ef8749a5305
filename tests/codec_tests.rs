use klvm_sexp::codec::{encode, node_from_bytes, node_to_bytes, push_atom, FormatError};
use klvm_sexp::sexp::{Arena, Obj};

fn atom(b: &[u8]) -> Obj {
    Arena::new().new_atom(b)
}

fn pair(l: &Obj, r: &Obj) -> Obj {
    Arena::new().new_pair(l, r)
}

fn same(a: &Obj, b: &Obj) -> bool {
    match (a, b) {
        (Obj::Atom(x), Obj::Atom(y)) => x == y,
        (Obj::Pair(l1, r1), Obj::Pair(l2, r2)) => same(l1, l2) && same(r1, r2),
        _ => false,
    }
}

fn round_trips(o: &Obj) {
    let bytes = node_to_bytes(o);
    let back = node_from_bytes(&bytes).expect("canonical bytes decode");
    assert!(same(o, &back));
    assert_eq!(node_to_bytes(&back), bytes);
}

#[test]
fn nil_encodes_as_0x80() {
    assert_eq!(node_to_bytes(&atom(&[])), vec![0x80]);
    round_trips(&atom(&[]));
}

#[test]
fn single_byte_atoms_round_trip() {
    for b in 0..=255u8 {
        let o = atom(&[b]);
        let bytes = node_to_bytes(&o);
        if b < 0x80 {
            assert_eq!(bytes, vec![b]);
        } else {
            assert_eq!(bytes, vec![0x81, b]);
        }
        round_trips(&o);
    }
}

#[test]
fn pair_encoding_and_nested_round_trip() {
    let p = pair(&atom(&[1]), &atom(&[]));
    assert_eq!(node_to_bytes(&p), vec![0xff, 0x01, 0x80]);
    let deep = pair(&p, &pair(&atom(&[0x80, 0x81]), &pair(&p, &atom(&[2]))));
    assert_eq!(
        node_to_bytes(&deep),
        vec![0xff, 0xff, 0x01, 0x80, 0xff, 0x82, 0x80, 0x81, 0xff, 0xff, 0x01, 0x80, 0x02]
    );
    round_trips(&deep);
}

#[test]
fn length_prefix_boundaries() {
    let a63 = vec![7u8; 0x3f];
    let b = node_to_bytes(&atom(&a63));
    assert_eq!(b[0], 0xbf);
    assert_eq!(b.len(), 1 + 0x3f);
    round_trips(&atom(&a63));

    let a64 = vec![7u8; 0x40];
    let b = node_to_bytes(&atom(&a64));
    assert_eq!(&b[..2], &[0xc0, 0x40]);
    round_trips(&atom(&a64));

    let a2000 = vec![1u8; 0x2000];
    let b = node_to_bytes(&atom(&a2000));
    assert_eq!(&b[..3], &[0xe0, 0x20, 0x00]);
    round_trips(&atom(&a2000));

    let big = vec![0u8; 0x10_0000];
    let b = node_to_bytes(&atom(&big));
    assert_eq!(&b[..4], &[0xf0, 0x10, 0x00, 0x00]);
    round_trips(&atom(&big));
}

#[test]
fn push_atom_writes_prefix() {
    let mut buf = vec![0xff];
    push_atom(&mut buf, &[0x80, 0x01]).unwrap();
    assert_eq!(buf, vec![0xff, 0x82, 0x80, 0x01]);
    let mut buf2 = Vec::new();
    push_atom(&mut buf2, &[0x05]).unwrap();
    assert_eq!(buf2, vec![0x05]);
}

#[test]
fn encode_appends() {
    let mut buf = vec![9];
    encode(&atom(&[0x90]), &mut buf);
    assert_eq!(buf, vec![9, 0x81, 0x90]);
}

#[test]
fn non_minimal_length_is_refused() {
    assert_eq!(node_from_bytes(&[0x81, 0x05]).err(), Some(FormatError::NotCanonical));
    assert_eq!(node_from_bytes(&[0xc0, 0x01, 0x90]).err(), Some(FormatError::NotCanonical));
    assert_eq!(node_from_bytes(&[0x05]).ok().map(|o| node_to_bytes(&o)), Some(vec![0x05]));
}

#[test]
fn trailing_bytes_are_refused() {
    assert_eq!(node_from_bytes(&[0x80, 0x80]).err(), Some(FormatError::NotCanonical));
}

#[test]
fn truncated_input_is_refused() {
    assert_eq!(node_from_bytes(&[]).err(), Some(FormatError::Truncated));
    assert_eq!(node_from_bytes(&[0x83, 1, 2]).err(), Some(FormatError::Truncated));
    assert_eq!(node_from_bytes(&[0xff, 0x01]).err(), Some(FormatError::Truncated));
    assert_eq!(node_from_bytes(&[0xc1]).err(), Some(FormatError::Truncated));
}

#[test]
fn unknown_prefix_is_refused() {
    assert_eq!(node_from_bytes(&[0xfc]).err(), Some(FormatError::BadPrefix));
    assert_eq!(node_from_bytes(&[0xfe, 0, 0]).err(), Some(FormatError::BadPrefix));
}

#[test]
fn distinct_buffers_decode_to_distinct_trees() {
    let a = node_from_bytes(&[0xff, 0x01, 0x02]).unwrap();
    let b = node_from_bytes(&[0xff, 0x01, 0x03]).unwrap();
    assert!(!same(&a, &b));
}
