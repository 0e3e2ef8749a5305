use klvm_sexp::node::Node;
use klvm_sexp::sexp::{Arena, Obj, SExp};

fn atom_node<'a>(arena: &'a Arena, b: &[u8]) -> Node<'a> {
    Node::new(arena, arena.new_atom(b))
}

#[test]
fn empty_atom_is_false() {
    let arena = Arena::new();
    let n = atom_node(&arena, &[]);
    assert!(!n.as_bool());
    assert!(n.nullp());
}

#[test]
fn zero_byte_atom_is_true() {
    let arena = Arena::new();
    let n = atom_node(&arena, &[0x00]);
    assert!(n.as_bool());
    assert!(!n.nullp());
}

#[test]
fn one_byte_atom_is_true() {
    let arena = Arena::new();
    assert!(atom_node(&arena, &[0x01]).as_bool());
}

#[test]
fn pair_is_true() {
    let arena = Arena::new();
    let a = atom_node(&arena, &[]);
    let p = a.cons(&a);
    assert!(p.as_bool());
    assert!(!p.nullp());
}

#[test]
fn from_bool_gives_canonical_nodes() {
    let arena = Arena::new();
    let n = atom_node(&arena, &[7]);
    assert_eq!(n.from_bool(true).atom(), Some(&[1u8][..]));
    assert_eq!(n.from_bool(false).atom(), Some(&[][..]));
    assert_eq!(n.one().atom(), Some(&[1u8][..]));
    assert_eq!(n.null().atom(), Some(&[][..]));
}

#[test]
fn atom_and_pair_accessors() {
    let arena = Arena::new();
    let a = atom_node(&arena, &[1, 2]);
    let b = a.new_atom(&[3]);
    let p = a.cons(&b);
    assert_eq!(a.atom(), Some(&[1u8, 2][..]));
    assert!(a.pair().is_none());
    assert!(p.atom().is_none());
    let (l, r) = p.pair().unwrap();
    assert_eq!(l.atom(), Some(&[1u8, 2][..]));
    assert_eq!(r.atom(), Some(&[3u8][..]));
    match p.sexp() {
        SExp::Pair(_, _) => {}
        SExp::Atom(_) => panic!("a pair classified as an atom"),
    }
    match a.sexp() {
        SExp::Atom(v) => assert_eq!(v, vec![1, 2]),
        SExp::Pair(_, _) => panic!("an atom classified as a pair"),
    }
}

#[test]
fn clone_keeps_content() {
    let arena = Arena::new();
    let a = atom_node(&arena, &[9]);
    let p = a.cons(&a.null());
    let c = p.make_clone();
    let (l, r) = c.pair().unwrap();
    assert_eq!(l.atom(), Some(&[9u8][..]));
    assert!(r.nullp());
    match arena.make_clone(&p.node) {
        Obj::Pair(_, _) => {}
        Obj::Atom(_) => panic!("clone changed the kind"),
    }
}

#[test]
fn spine_iteration_stops_at_dotted_tail() {
    let arena = Arena::new();
    let one = atom_node(&arena, &[1]);
    let two = one.new_atom(&[2]);
    let three = one.new_atom(&[3]);
    let tree = one.cons(&two.cons(&three));
    let mut cur = tree.into_iter();
    let first = cur.next().unwrap();
    let second = cur.next().unwrap();
    assert_eq!(first.atom(), Some(&[1u8][..]));
    assert_eq!(second.atom(), Some(&[2u8][..]));
    assert!(cur.next().is_none());
    assert_eq!(cur.atom(), Some(&[3u8][..]));
    let items = tree.items();
    assert_eq!(items.len(), 2);
    assert_eq!(items[0].atom(), Some(&[1u8][..]));
    assert_eq!(items[1].atom(), Some(&[2u8][..]));
}

#[test]
fn spine_iteration_of_atom_is_empty() {
    let arena = Arena::new();
    let a = atom_node(&arena, &[5]);
    assert_eq!(a.items().len(), 0);
    let mut cur = a.into_iter();
    assert!(cur.next().is_none());
}

#[test]
fn arg_count_of_proper_list() {
    let arena = Arena::new();
    let one = atom_node(&arena, &[1]);
    let two = one.new_atom(&[2]);
    let nil = one.null();
    let list = one.cons(&two.cons(&nil));
    assert!(list.arg_count_is(2));
    assert!(!list.arg_count_is(1));
    assert!(!list.arg_count_is(3));
}

#[test]
fn arg_count_of_longer_list_is_false() {
    let arena = Arena::new();
    let one = atom_node(&arena, &[1]);
    let two = one.new_atom(&[2]);
    let three = one.new_atom(&[3]);
    let nil = one.null();
    let list = one.cons(&two.cons(&three.cons(&nil)));
    assert!(!list.arg_count_is(2));
    assert!(list.arg_count_is(3));
}

#[test]
fn arg_count_of_dotted_pair_is_false() {
    let arena = Arena::new();
    let one = atom_node(&arena, &[1]);
    let two = one.new_atom(&[2]);
    let p = one.cons(&two);
    assert!(!p.arg_count_is(2));
    assert!(!p.arg_count_is(1));
}

#[test]
fn arg_count_zero_on_nil() {
    let arena = Arena::new();
    let nil = atom_node(&arena, &[]);
    assert!(nil.arg_count_is(0));
    assert!(!nil.arg_count_is(1));
    assert!(!atom_node(&arena, &[0]).arg_count_is(0));
}

#[test]
fn with_node_keeps_arena() {
    let arena = Arena::new();
    let a = atom_node(&arena, &[4]);
    let b = a.with_node(arena.new_atom(&[5, 6]));
    assert!(std::ptr::eq(a.allocator, b.allocator));
    assert_eq!(b.atom(), Some(&[5u8, 6][..]));
}
