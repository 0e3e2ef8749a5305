use klvm_sexp::catalog::{atom_kind, op, operators, type_convertible, Type};
use klvm_sexp::codec::node_from_bytes;
use klvm_sexp::corpus::{args_sample, filename, name_of_digest, program_sample};
use klvm_sexp::generator::{
    be_bytes_u32, be_bytes_u64, catalog_ready, generate, generate_args, generate_program,
    interesting_u32_at, interesting_u64_at, operands_reachable, generate_atom, generate_u32, generate_u64, CORPUS_DEPTH,
};
use klvm_sexp::sexp::Obj;
use rand::rngs::StdRng;
use rand::SeedableRng;

const ALL_TYPES: [Type; 13] = [
    Type::Program,
    Type::Tree,
    Type::List,
    Type::PointPair,
    Type::Bool,
    Type::Int64,
    Type::Int32,
    Type::Zero,
    Type::Cost,
    Type::Bytes32,
    Type::Bytes48,
    Type::Bytes96,
    Type::AnyAtom,
];

#[test]
fn convertible_relation() {
    for t in ALL_TYPES {
        assert!(type_convertible(t, t));
    }
    assert!(type_convertible(Type::Bytes32, Type::AnyAtom));
    assert!(type_convertible(Type::Bool, Type::AnyAtom));
    assert!(type_convertible(Type::List, Type::Tree));
    assert!(type_convertible(Type::Int32, Type::Zero));
    assert!(type_convertible(Type::Int64, Type::Cost));
    assert!(!type_convertible(Type::Tree, Type::List));
    assert!(!type_convertible(Type::Zero, Type::Int32));
    assert!(!type_convertible(Type::AnyAtom, Type::Bytes32));
    assert!(!type_convertible(Type::Program, Type::AnyAtom));
    assert!(!type_convertible(Type::Int32, Type::Int64));
}

#[test]
fn catalog_reaches_every_operand_type() {
    let ops = operators();
    assert_eq!(ops.len(), 76);
    for row in &ops {
        for t in &row.operands {
            assert!(ops.iter().any(|o| type_convertible(o.result, *t)));
        }
    }
    assert_eq!(ops[0].opcode, 2);
    assert_eq!(ops[75].opcode, 59);
    assert_eq!(ops[75].operands.len(), 5);
}

#[test]
fn op_builds_a_row() {
    let r = op(9, vec![Type::AnyAtom, Type::AnyAtom], Type::Bool);
    assert_eq!(r.opcode, 9);
    assert_eq!(r.operands, vec![Type::AnyAtom, Type::AnyAtom]);
    assert_eq!(r.result, Type::Bool);
}

#[test]
fn atom_kinds_in_order() {
    assert_eq!(atom_kind(0), Type::Bool);
    assert_eq!(atom_kind(4), Type::Cost);
    assert_eq!(atom_kind(7), Type::Bytes96);
}

#[test]
fn big_endian_bytes() {
    assert_eq!(be_bytes_u32(0x0102_0304), vec![1, 2, 3, 4]);
    assert_eq!(be_bytes_u64(8000000000), vec![0, 0, 0, 1, 0xdc, 0xd6, 0x50, 0x00]);
}

#[test]
fn interesting_values() {
    let mut rng = StdRng::seed_from_u64(7);
    for _ in 0..50 {
        let a = generate_u32(&mut rng);
        assert!([0, 1, 5, 0xff, 0xffff, 0x100, 0xffffffff, 0x7fffffff, 0x800000].contains(&a));
        let b = generate_u64(&mut rng);
        assert!([0, 1, 5, 0xff, u64::MAX, 0x100, 0x8000000000000000, 0x7fffffffffffffff].contains(&b));
    }
}

#[test]
fn fixed_atom_literals() {
    let mut rng = StdRng::seed_from_u64(1);
    let mut buf = Vec::new();
    generate_atom(Type::Cost, &mut rng, &mut buf);
    assert_eq!(buf, vec![0x88, 0, 0, 0, 1, 0xdc, 0xd6, 0x50, 0x00]);
    let mut buf = Vec::new();
    generate_atom(Type::Zero, &mut rng, &mut buf);
    assert_eq!(buf, vec![0x80]);
    let mut buf = Vec::new();
    generate_atom(Type::Bytes32, &mut rng, &mut buf);
    assert_eq!(buf.len(), 33);
    assert_eq!(buf[0], 0xa0);
    let mut buf = Vec::new();
    generate_atom(Type::Bytes96, &mut rng, &mut buf);
    assert_eq!(&buf[..2], &[0xc0, 0x60]);
}

#[test]
fn point_pair_shape() {
    let ops = operators();
    let mut rng = StdRng::seed_from_u64(3);
    let mut buf = Vec::new();
    generate(Type::PointPair, &ops, &mut rng, &mut buf, CORPUS_DEPTH);
    match node_from_bytes(&buf).unwrap() {
        Obj::Pair(l, r) => match (*l, *r) {
            (Obj::Atom(a), Obj::Atom(b)) => {
                assert_eq!(a.len(), 48);
                assert_eq!(b.len(), 96);
            }
            _ => panic!("point pair children are not atoms"),
        },
        Obj::Atom(_) => panic!("point pair is an atom"),
    }
}

#[test]
fn every_type_generates_canonical_bytes() {
    let ops = operators();
    let mut rng = StdRng::seed_from_u64(0x1337);
    for t in ALL_TYPES {
        for depth in [0, 1, CORPUS_DEPTH] {
            let mut buf = Vec::new();
            generate(t, &ops, &mut rng, &mut buf, depth);
            assert!(node_from_bytes(&buf).is_ok());
        }
    }
}

#[test]
fn program_samples_are_calls_of_their_row() {
    let ops = operators();
    let mut rng = StdRng::seed_from_u64(0x1337);
    for i in 0..200 {
        let buf = program_sample(&ops, i, &mut rng, CORPUS_DEPTH);
        let tree = node_from_bytes(&buf).unwrap();
        match tree {
            Obj::Pair(h, _) => match *h {
                Obj::Atom(a) => assert_eq!(a, vec![ops[i % ops.len()].opcode]),
                Obj::Pair(_, _) => panic!("call head is a pair"),
            },
            Obj::Atom(_) => panic!("a call is an atom"),
        }
    }
}

#[test]
fn args_samples_are_quoted_lists() {
    let ops = operators();
    let mut rng = StdRng::seed_from_u64(5);
    for i in 0..100 {
        let buf = args_sample(&ops, i, &mut rng, CORPUS_DEPTH);
        let mut cur = node_from_bytes(&buf).unwrap();
        let mut n = 0;
        loop {
            match cur {
                Obj::Pair(item, rest) => {
                    match *item {
                        Obj::Pair(q, _) => assert!(matches!(*q, Obj::Atom(ref v) if v == &vec![1u8])),
                        Obj::Atom(_) => panic!("operand is not quoted"),
                    }
                    n += 1;
                    cur = *rest;
                }
                Obj::Atom(v) => {
                    assert!(v.is_empty());
                    break;
                }
            }
        }
        assert_eq!(n, ops[i % ops.len()].operands.len());
    }
}

#[test]
fn same_seed_same_samples() {
    let ops = operators();
    let mut a = StdRng::seed_from_u64(0x1337);
    let mut b = StdRng::seed_from_u64(0x1337);
    for i in 0..100 {
        assert_eq!(
            program_sample(&ops, i, &mut a, CORPUS_DEPTH),
            program_sample(&ops, i, &mut b, CORPUS_DEPTH)
        );
    }
}

#[test]
fn filename_is_sha1_hex() {
    assert_eq!(filename(b"abc"), "a9993e364706816aba3e25717850c26c9cd0d89d");
    assert_eq!(filename(b""), "da39a3ee5e6b4b0d3255bfef95601890afd80709");
}

#[test]
fn digest_name_is_lower_hex() {
    assert_eq!(name_of_digest(&[0xab, 0x01, 0x00, 0xff]), "ab0100ff");
}

#[test]
fn same_program_same_file() {
    let ops = operators();
    let mut a = StdRng::seed_from_u64(11);
    let mut b = StdRng::seed_from_u64(11);
    let x = program_sample(&ops, 3, &mut a, CORPUS_DEPTH);
    let y = program_sample(&ops, 3, &mut b, CORPUS_DEPTH);
    let mut names = vec![filename(&x), filename(&y)];
    names.sort();
    names.dedup();
    assert_eq!(names.len(), 1);
}

#[test]
fn catalog_readiness() {
    assert!(catalog_ready(&operators()));
    assert!(operands_reachable(&operators()));
    let small = vec![op(16, vec![], Type::Int64), op(17, vec![Type::Cost], Type::Int64)];
    assert!(catalog_ready(&small));
    assert!(operands_reachable(&small));
    let no_leaf = vec![op(2, vec![Type::Bytes32], Type::Bytes32)];
    assert!(!catalog_ready(&no_leaf));
    assert!(operands_reachable(&no_leaf));
    let unreachable = vec![op(16, vec![], Type::Int64), op(2, vec![Type::Bytes32], Type::Int64)];
    assert!(catalog_ready(&unreachable));
    assert!(!operands_reachable(&unreachable));
}

#[test]
fn unreachable_operand_is_quoted() {
    let ops = vec![op(16, vec![], Type::Int64), op(2, vec![Type::Bytes32], Type::Int64)];
    let mut rng = StdRng::seed_from_u64(2);
    for _ in 0..20 {
        let mut buf = Vec::new();
        generate_program(&ops, 1, &mut rng, &mut buf, CORPUS_DEPTH);
        assert_eq!(&buf[..5], &[0xff, 0x02, 0xff, 0xff, 0x01]);
        assert_eq!(buf.len(), 5 + 33 + 1);
    }
}

#[test]
fn boundary_value_tables() {
    assert_eq!(interesting_u32_at(0), 0);
    assert_eq!(interesting_u32_at(6), 0xffffffff);
    assert_eq!(interesting_u32_at(8), 0x800000);
    assert_eq!(interesting_u64_at(4), u64::MAX);
    assert_eq!(interesting_u64_at(7), 0x7fffffffffffffff);
}

#[test]
fn nullary_call_and_empty_args() {
    let ops = operators();
    let mut rng = StdRng::seed_from_u64(4);
    let mut buf = Vec::new();
    generate_program(&ops, 16, &mut rng, &mut buf, CORPUS_DEPTH);
    assert_eq!(buf, vec![0xff, 0x10, 0x80]);
    let mut buf = Vec::new();
    generate_args(&ops, 16, &mut rng, &mut buf, CORPUS_DEPTH);
    assert_eq!(buf, vec![0x80]);
}

#[test]
fn lists_stay_below_bound_and_sizes_are_bounded() {
    let ops = operators();
    let mut rng = StdRng::seed_from_u64(9);
    for _ in 0..200 {
        let mut buf = Vec::new();
        generate(Type::List, &ops, &mut rng, &mut buf, CORPUS_DEPTH);
        assert!(buf.len() <= 892);
        let mut cur = node_from_bytes(&buf).unwrap();
        let mut n = 0;
        while let Obj::Pair(_, rest) = cur {
            n += 1;
            cur = *rest;
        }
        assert!(n < 10);
        let mut buf = Vec::new();
        generate(Type::Tree, &ops, &mut rng, &mut buf, 0);
        assert!(buf.len() <= 197);
        let mut buf = Vec::new();
        generate(Type::Program, &ops, &mut rng, &mut buf, 0);
        assert!(buf.len() <= 5);
    }
}

#[test]
fn point_pair_is_zero_points() {
    let ops = operators();
    let mut rng = StdRng::seed_from_u64(3);
    let mut buf = Vec::new();
    generate(Type::PointPair, &ops, &mut rng, &mut buf, 0);
    let mut expected = vec![0xff, 0xb0];
    expected.extend(vec![0u8; 48]);
    expected.extend(vec![0xc0, 0x60]);
    expected.extend(vec![0u8; 96]);
    assert_eq!(buf, expected);
}
