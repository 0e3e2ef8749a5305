use vstd::prelude::*;

verus! {

/// The types of the operator signatures: four composite kinds, then the atom kinds.
#[derive(PartialEq, Eq, Structural, Clone, Copy, Debug)]
pub enum Type {
    Program,
    Tree,
    List,
    PointPair,
    Bool,
    Int64,
    Int32,
    Zero,
    Cost,
    Bytes32,
    Bytes48,
    Bytes96,
    AnyAtom,
}

/// The concrete atom kinds, in the order in which a random kind is drawn.
pub open spec fn atom_kind_spec(i: int) -> Type {
    if i == 0 {
        Type::Bool
    } else if i == 1 {
        Type::Int64
    } else if i == 2 {
        Type::Int32
    } else if i == 3 {
        Type::Zero
    } else if i == 4 {
        Type::Cost
    } else if i == 5 {
        Type::Bytes32
    } else if i == 6 {
        Type::Bytes48
    } else {
        Type::Bytes96
    }
}

/// How many concrete atom kinds there are.
pub const NUM_ATOM_KINDS: usize = 8;

/// A concrete atom kind: neither composite nor `AnyAtom`.
pub open spec fn is_concrete_atom(t: Type) -> bool {
    match t {
        Type::Bool | Type::Int64 | Type::Int32 | Type::Zero | Type::Cost | Type::Bytes32
        | Type::Bytes48 | Type::Bytes96 => true,
        _ => false,
    }
}

/// A value of type `from` may stand where `to` is asked for.
pub open spec fn convertible(from: Type, to: Type) -> bool {
    ||| from == to
    ||| to == Type::AnyAtom && is_concrete_atom(from)
    ||| to == Type::Tree && from == Type::List
    ||| to == Type::Zero && from == Type::Int32
    ||| to == Type::Cost && from == Type::Int64
}

/// The `i`-th concrete atom kind (`i < NUM_ATOM_KINDS`).
pub fn atom_kind(i: usize) -> (r: Type)
    requires
        i < NUM_ATOM_KINDS,
    ensures
        r == atom_kind_spec(i as int),
        is_concrete_atom(r),
{
    match i {
        0 => Type::Bool,
        1 => Type::Int64,
        2 => Type::Int32,
        3 => Type::Zero,
        4 => Type::Cost,
        5 => Type::Bytes32,
        6 => Type::Bytes48,
        _ => Type::Bytes96,
    }
}

/// Every concrete atom kind is drawn by some index.
pub proof fn lemma_atom_kinds_complete(t: Type)
    requires
        is_concrete_atom(t),
    ensures
        exists|i: int| 0 <= i < NUM_ATOM_KINDS && #[trigger] atom_kind_spec(i) == t,
{
    if t == Type::Bool {
        assert(atom_kind_spec(0) == t);
    } else if t == Type::Int64 {
        assert(atom_kind_spec(1) == t);
    } else if t == Type::Int32 {
        assert(atom_kind_spec(2) == t);
    } else if t == Type::Zero {
        assert(atom_kind_spec(3) == t);
    } else if t == Type::Cost {
        assert(atom_kind_spec(4) == t);
    } else if t == Type::Bytes32 {
        assert(atom_kind_spec(5) == t);
    } else if t == Type::Bytes48 {
        assert(atom_kind_spec(6) == t);
    } else {
        assert(atom_kind_spec(7) == t);
    }
}

/// Whether a value of type `from` may stand where `to` is asked for.
pub fn type_convertible(from: Type, to: Type) -> (r: bool)
    ensures
        r == convertible(from, to),
{
    from == to || to == Type::AnyAtom && is_atom_kind(from) || to == Type::Tree && from == Type::List
        || to == Type::Zero && from == Type::Int32 || to == Type::Cost && from == Type::Int64
}

fn is_atom_kind(t: Type) -> (r: bool)
    ensures
        r == is_concrete_atom(t),
{
    let mut i: usize = 0;
    while i < NUM_ATOM_KINDS
        invariant
            i <= NUM_ATOM_KINDS,
            forall|k: int| 0 <= k < i ==> atom_kind_spec(k) != t,
        decreases NUM_ATOM_KINDS - i,
    {
        if atom_kind(i) == t {
            return true;
        }
        i = i + 1;
    }
    proof {
        if is_concrete_atom(t) {
            lemma_atom_kinds_complete(t);
        }
    }
    false
}

/// One operator signature: its opcode, the types of its operands in order,
/// and the type of its result.
pub struct OperatorInfo {
    pub opcode: u8,
    pub result: Type,
    pub operands: Vec<Type>,
}

/// A row as plain values: opcode, operand types, result type.
pub open spec fn signature(o: OperatorInfo) -> (u8, Seq<Type>, Type) {
    (o.opcode, o.operands@, o.result)
}

pub fn op(opcode: u8, operands: Vec<Type>, result: Type) -> (r: OperatorInfo)
    ensures
        r.opcode == opcode,
        r.operands@ == operands@,
        r.result == result,
{
    OperatorInfo { opcode, result, operands }
}

/// Some entry of the catalog has a result that may stand where `t` is asked for.
pub open spec fn covers(cat: Seq<OperatorInfo>, t: Type) -> bool {
    exists|k: int| 0 <= k < cat.len() && convertible(#[trigger] cat[k].result, t)
}

/// Some entry of the catalog takes no operands.
pub open spec fn has_leaf_row(cat: Seq<OperatorInfo>) -> bool {
    exists|k: int| 0 <= k < cat.len() && (#[trigger] cat[k]).operands@.len() == 0
}

/// Every operand type of the catalog is produced by some entry of it.
pub open spec fn catalog_reachable(cat: Seq<OperatorInfo>) -> bool {
    forall|i: int, j: int|
        0 <= i < cat.len() && 0 <= j < cat[i].operands@.len() ==> covers(
            cat,
            #[trigger] cat[i].operands@[j],
        )
}

fn push_op(ops: &mut Vec<OperatorInfo>, opcode: u8, operands: Vec<Type>, result: Type)
    ensures
        final(ops)@.len() == old(ops)@.len() + 1,
        forall|k: int| 0 <= k < old(ops)@.len() ==> #[trigger] final(ops)@[k] == old(ops)@[k],
        final(ops)@.last().opcode == opcode,
        final(ops)@.last().operands@ == operands@,
        final(ops)@.last().result == result,
        forall|t: Type| #[trigger] covers(old(ops)@, t) ==> covers(final(ops)@, t),
        has_leaf_row(old(ops)@) ==> has_leaf_row(final(ops)@),
        forall|t: Type| convertible(result, t) ==> #[trigger] covers(final(ops)@, t),
        final(ops)@.map_values(|o: OperatorInfo| signature(o)) == old(ops)@.map_values(
            |o: OperatorInfo| signature(o),
        ).push((opcode, operands@, result)),
{
    let ghost before = old(ops)@;
    ops.push(op(opcode, operands, result));
    proof {
        assert forall|t: Type| #[trigger] covers(before, t) implies covers(ops@, t) by {
            let k = choose|k: int| 0 <= k < before.len() && convertible(#[trigger] before[k].result, t);
            assert(ops@[k] == before[k]);
        }
        if has_leaf_row(before) {
            let k = choose|k: int| 0 <= k < before.len() && (#[trigger] before[k]).operands@.len() == 0;
            assert(ops@[k] == before[k]);
        }
        assert forall|t: Type| convertible(result, t) implies #[trigger] covers(ops@, t) by {
            assert(ops@[ops@.len() - 1].result == result);
        }
        assert(ops@.map_values(|o: OperatorInfo| signature(o)) =~= before.map_values(
            |o: OperatorInfo| signature(o),
        ).push((opcode, operands@, result)));
    }
}

/// The rows of operators on control flow and lists: opcode, operand types, result type.
pub open spec fn list_rows() -> Seq<(u8, Seq<Type>, Type)> {
    seq![
        (2u8, seq![Type::Program, Type::Tree], Type::AnyAtom),
        (3u8, seq![Type::Bool, Type::Program, Type::Program], Type::Program),
        (4u8, seq![Type::AnyAtom, Type::List], Type::List),
        (4u8, seq![Type::Bytes48, Type::Bytes96], Type::PointPair),
        (5u8, seq![Type::List], Type::AnyAtom),
        (6u8, seq![Type::List], Type::List),
        (7u8, seq![Type::List], Type::Bool),
    ]
}

/// The rows of operators that raise, compare and hash atoms: opcode, operand types, result type.
pub open spec fn compare_rows() -> Seq<(u8, Seq<Type>, Type)> {
    seq![
        (8u8, seq![Type::AnyAtom], Type::AnyAtom),
        (9u8, seq![Type::AnyAtom, Type::AnyAtom], Type::Bool),
        (10u8, seq![Type::AnyAtom, Type::AnyAtom], Type::Bool),
        (11u8, seq![Type::AnyAtom, Type::AnyAtom, Type::AnyAtom], Type::Bytes32),
    ]
}

/// The rows of operators on byte strings and addition: opcode, operand types, result type.
pub open spec fn byte_rows() -> Seq<(u8, Seq<Type>, Type)> {
    seq![
        (12u8, seq![Type::AnyAtom, Type::Int32], Type::AnyAtom),
        (12u8, seq![Type::AnyAtom, Type::Int32, Type::Int32], Type::AnyAtom),
        (13u8, seq![Type::AnyAtom], Type::Int32),
        (14u8, seq![Type::AnyAtom, Type::AnyAtom], Type::AnyAtom),
        (14u8, seq![Type::AnyAtom, Type::AnyAtom, Type::AnyAtom], Type::AnyAtom),
        (16u8, Seq::<Type>::empty(), Type::Int64),
        (16u8, seq![Type::Int64], Type::Int64),
        (16u8, seq![Type::Int64, Type::Int64], Type::Int64),
        (16u8, seq![Type::Int64, Type::Int64, Type::Int64], Type::Int64),
    ]
}

/// The rows of arithmetic operators: opcode, operand types, result type.
pub open spec fn arith_rows() -> Seq<(u8, Seq<Type>, Type)> {
    seq![
        (17u8, Seq::<Type>::empty(), Type::Int64),
        (17u8, seq![Type::Int64], Type::Int64),
        (17u8, seq![Type::Int64, Type::Int64], Type::Int64),
        (17u8, seq![Type::Int64, Type::Int64, Type::Int64], Type::Int64),
        (18u8, seq![Type::Int64, Type::Int64], Type::Int64),
        (19u8, seq![Type::Int64, Type::Int64], Type::Int64),
        (20u8, seq![Type::Int64, Type::Int64], Type::List),
        (21u8, seq![Type::Int64, Type::Int64], Type::Bool),
        (22u8, seq![Type::Int64, Type::Int32], Type::Int64),
        (23u8, seq![Type::Int64, Type::Int32], Type::Int64),
    ]
}

/// The rows of bitwise operators: opcode, operand types, result type.
pub open spec fn bitwise_rows() -> Seq<(u8, Seq<Type>, Type)> {
    seq![
        (24u8, Seq::<Type>::empty(), Type::AnyAtom),
        (24u8, seq![Type::AnyAtom], Type::AnyAtom),
        (24u8, seq![Type::AnyAtom, Type::AnyAtom], Type::AnyAtom),
        (24u8, seq![Type::AnyAtom, Type::AnyAtom, Type::AnyAtom], Type::AnyAtom),
        (25u8, Seq::<Type>::empty(), Type::AnyAtom),
        (25u8, seq![Type::AnyAtom], Type::AnyAtom),
        (25u8, seq![Type::AnyAtom, Type::AnyAtom], Type::AnyAtom),
        (25u8, seq![Type::AnyAtom, Type::AnyAtom, Type::AnyAtom], Type::AnyAtom),
        (26u8, Seq::<Type>::empty(), Type::AnyAtom),
        (26u8, seq![Type::AnyAtom], Type::AnyAtom),
        (26u8, seq![Type::AnyAtom, Type::AnyAtom], Type::AnyAtom),
        (26u8, seq![Type::AnyAtom, Type::AnyAtom, Type::AnyAtom], Type::AnyAtom),
        (27u8, seq![Type::AnyAtom], Type::AnyAtom),
    ]
}

/// The rows of operators on points and booleans: opcode, operand types, result type.
pub open spec fn point_rows() -> Seq<(u8, Seq<Type>, Type)> {
    seq![
        (29u8, Seq::<Type>::empty(), Type::Bytes48),
        (29u8, seq![Type::Bytes48], Type::Bytes48),
        (29u8, seq![Type::Bytes48, Type::Bytes48], Type::Bytes48),
        (29u8, seq![Type::Bytes48, Type::Bytes48, Type::Bytes48], Type::Bytes48),
        (30u8, seq![Type::AnyAtom], Type::Bytes48),
        (32u8, seq![Type::AnyAtom], Type::Bool),
        (33u8, seq![Type::AnyAtom, Type::AnyAtom], Type::Bool),
        (34u8, seq![Type::AnyAtom, Type::AnyAtom], Type::Bool),
        (36u8, seq![Type::Cost, Type::Zero, Type::Program, Type::Tree], Type::Bool),
    ]
}

/// The rows of bls extensions that take points and scalars: opcode, operand types, result type.
pub open spec fn bls_rows() -> Seq<(u8, Seq<Type>, Type)> {
    seq![
        (48u8, seq![Type::Bytes32, Type::Bytes32, Type::Int64], Type::Bytes32),
        (49u8, seq![Type::Bytes48, Type::Bytes48], Type::Bytes48),
        (50u8, seq![Type::Bytes48, Type::Int64], Type::Bytes48),
        (51u8, seq![Type::Bytes48], Type::Bytes48),
        (52u8, seq![Type::Bytes96, Type::Bytes96], Type::Bytes96),
        (53u8, seq![Type::Bytes96, Type::Bytes96], Type::Bytes96),
        (54u8, seq![Type::Bytes96, Type::Int64], Type::Bytes96),
        (54u8, seq![Type::Bytes96, Type::Bytes32], Type::Bytes96),
        (54u8, seq![Type::Bytes96, Type::Bytes48], Type::Bytes96),
        (54u8, seq![Type::Bytes96, Type::Bytes96], Type::Bytes96),
    ]
}

/// The rows of bls extensions that map, pair and verify: opcode, operand types, result type.
pub open spec fn bls_pairing_rows() -> Seq<(u8, Seq<Type>, Type)> {
    seq![
        (55u8, seq![Type::Bytes96], Type::Bytes96),
        (56u8, seq![Type::AnyAtom, Type::AnyAtom], Type::Bytes48),
        (57u8, seq![Type::AnyAtom, Type::AnyAtom], Type::Bytes96),
        (57u8, seq![Type::AnyAtom], Type::Bytes96),
        (58u8, seq![Type::PointPair], Type::Bool),
        (58u8, seq![Type::PointPair, Type::PointPair], Type::Bool),
        (58u8, seq![Type::PointPair, Type::PointPair, Type::PointPair], Type::Bool),
        (58u8, seq![Type::PointPair, Type::PointPair, Type::PointPair, Type::PointPair], Type::Bool),
        (58u8, seq![Type::PointPair, Type::PointPair, Type::PointPair, Type::PointPair, Type::PointPair], Type::Bool),
        (59u8, seq![Type::Bytes96], Type::Bool),
        (59u8, seq![Type::Bytes96, Type::PointPair], Type::Bool),
        (59u8, seq![Type::Bytes96, Type::PointPair, Type::PointPair], Type::Bool),
        (59u8, seq![Type::Bytes96, Type::PointPair, Type::PointPair, Type::PointPair], Type::Bool),
        (59u8, seq![Type::Bytes96, Type::PointPair, Type::PointPair, Type::PointPair, Type::PointPair], Type::Bool),
    ]
}

/// The operators on control flow and lists.
fn push_list_ops(ops: &mut Vec<OperatorInfo>)
    ensures
        final(ops)@.len() == old(ops)@.len() + 7,
        forall|t: Type| #[trigger] covers(old(ops)@, t) ==> covers(final(ops)@, t),
        has_leaf_row(old(ops)@) ==> has_leaf_row(final(ops)@),
        covers(final(ops)@, Type::AnyAtom),
        covers(final(ops)@, Type::Program),
        covers(final(ops)@, Type::List),
        covers(final(ops)@, Type::Tree),
        covers(final(ops)@, Type::PointPair),
        covers(final(ops)@, Type::Bool),
        final(ops)@.map_values(|o: OperatorInfo| signature(o)) == old(ops)@.map_values(
            |o: OperatorInfo| signature(o),
        ) + list_rows(),
{
    let ghost start = ops@.map_values(|o: OperatorInfo| signature(o));
    // apply
    push_op(ops, 2, vec![Type::Program, Type::Tree], Type::AnyAtom);
    assert(covers(ops@, Type::AnyAtom));
    // if
    push_op(ops, 3, vec![Type::Bool, Type::Program, Type::Program], Type::Program);
    assert(covers(ops@, Type::Program));
    // cons
    push_op(ops, 4, vec![Type::AnyAtom, Type::List], Type::List);
    assert(covers(ops@, Type::List));
    assert(covers(ops@, Type::Tree));
    push_op(ops, 4, vec![Type::Bytes48, Type::Bytes96], Type::PointPair);
    assert(covers(ops@, Type::PointPair));
    // first
    push_op(ops, 5, vec![Type::List], Type::AnyAtom);
    // rest
    push_op(ops, 6, vec![Type::List], Type::List);
    // listp
    push_op(ops, 7, vec![Type::List], Type::Bool);
    assert(covers(ops@, Type::Bool));
    assert(ops@.map_values(|o: OperatorInfo| signature(o)) =~~= start + list_rows());
}

/// The operators that raise, compare and hash atoms.
fn push_compare_ops(ops: &mut Vec<OperatorInfo>)
    ensures
        final(ops)@.len() == old(ops)@.len() + 4,
        forall|t: Type| #[trigger] covers(old(ops)@, t) ==> covers(final(ops)@, t),
        has_leaf_row(old(ops)@) ==> has_leaf_row(final(ops)@),
        covers(final(ops)@, Type::Bytes32),
        final(ops)@.map_values(|o: OperatorInfo| signature(o)) == old(ops)@.map_values(
            |o: OperatorInfo| signature(o),
        ) + compare_rows(),
{
    let ghost start = ops@.map_values(|o: OperatorInfo| signature(o));
    // raise
    push_op(ops, 8, vec![Type::AnyAtom], Type::AnyAtom);
    // equal
    push_op(ops, 9, vec![Type::AnyAtom, Type::AnyAtom], Type::Bool);
    // greater-bytes
    push_op(ops, 10, vec![Type::AnyAtom, Type::AnyAtom], Type::Bool);
    // sha256
    push_op(ops, 11, vec![Type::AnyAtom, Type::AnyAtom, Type::AnyAtom], Type::Bytes32);
    assert(covers(ops@, Type::Bytes32));
    assert(ops@.map_values(|o: OperatorInfo| signature(o)) =~~= start + compare_rows());
}

/// The operators on byte strings and addition.
fn push_byte_ops(ops: &mut Vec<OperatorInfo>)
    ensures
        final(ops)@.len() == old(ops)@.len() + 9,
        forall|t: Type| #[trigger] covers(old(ops)@, t) ==> covers(final(ops)@, t),
        has_leaf_row(old(ops)@) ==> has_leaf_row(final(ops)@),
        has_leaf_row(final(ops)@),
        covers(final(ops)@, Type::Int32),
        covers(final(ops)@, Type::Zero),
        covers(final(ops)@, Type::Int64),
        covers(final(ops)@, Type::Cost),
        final(ops)@.map_values(|o: OperatorInfo| signature(o)) == old(ops)@.map_values(
            |o: OperatorInfo| signature(o),
        ) + byte_rows(),
{
    let ghost start = ops@.map_values(|o: OperatorInfo| signature(o));
    // substr
    push_op(ops, 12, vec![Type::AnyAtom, Type::Int32], Type::AnyAtom);
    push_op(ops, 12, vec![Type::AnyAtom, Type::Int32, Type::Int32], Type::AnyAtom);
    // strlen
    push_op(ops, 13, vec![Type::AnyAtom], Type::Int32);
    assert(covers(ops@, Type::Int32));
    assert(covers(ops@, Type::Zero));
    // concat
    push_op(ops, 14, vec![Type::AnyAtom, Type::AnyAtom], Type::AnyAtom);
    push_op(ops, 14, vec![Type::AnyAtom, Type::AnyAtom, Type::AnyAtom], Type::AnyAtom);
    // add
    push_op(ops, 16, vec![], Type::Int64);
    assert(ops@[ops@.len() - 1].operands@.len() == 0);
    assert(covers(ops@, Type::Int64));
    assert(covers(ops@, Type::Cost));
    push_op(ops, 16, vec![Type::Int64], Type::Int64);
    push_op(ops, 16, vec![Type::Int64, Type::Int64], Type::Int64);
    push_op(ops, 16, vec![Type::Int64, Type::Int64, Type::Int64], Type::Int64);
    assert(ops@.map_values(|o: OperatorInfo| signature(o)) =~~= start + byte_rows());
}

/// The arithmetic operators.
fn push_arith_ops(ops: &mut Vec<OperatorInfo>)
    ensures
        final(ops)@.len() == old(ops)@.len() + 10,
        forall|t: Type| #[trigger] covers(old(ops)@, t) ==> covers(final(ops)@, t),
        has_leaf_row(old(ops)@) ==> has_leaf_row(final(ops)@),
        final(ops)@.map_values(|o: OperatorInfo| signature(o)) == old(ops)@.map_values(
            |o: OperatorInfo| signature(o),
        ) + arith_rows(),
{
    let ghost start = ops@.map_values(|o: OperatorInfo| signature(o));
    // subtract
    push_op(ops, 17, vec![], Type::Int64);
    push_op(ops, 17, vec![Type::Int64], Type::Int64);
    push_op(ops, 17, vec![Type::Int64, Type::Int64], Type::Int64);
    push_op(ops, 17, vec![Type::Int64, Type::Int64, Type::Int64], Type::Int64);
    // multiply
    push_op(ops, 18, vec![Type::Int64, Type::Int64], Type::Int64);
    // div
    push_op(ops, 19, vec![Type::Int64, Type::Int64], Type::Int64);
    // divmod
    push_op(ops, 20, vec![Type::Int64, Type::Int64], Type::List);
    // gr
    push_op(ops, 21, vec![Type::Int64, Type::Int64], Type::Bool);
    // ash
    push_op(ops, 22, vec![Type::Int64, Type::Int32], Type::Int64);
    // lsh
    push_op(ops, 23, vec![Type::Int64, Type::Int32], Type::Int64);
    assert(ops@.map_values(|o: OperatorInfo| signature(o)) =~~= start + arith_rows());
}

/// The bitwise operators.
fn push_bitwise_ops(ops: &mut Vec<OperatorInfo>)
    ensures
        final(ops)@.len() == old(ops)@.len() + 13,
        forall|t: Type| #[trigger] covers(old(ops)@, t) ==> covers(final(ops)@, t),
        has_leaf_row(old(ops)@) ==> has_leaf_row(final(ops)@),
        final(ops)@.map_values(|o: OperatorInfo| signature(o)) == old(ops)@.map_values(
            |o: OperatorInfo| signature(o),
        ) + bitwise_rows(),
{
    let ghost start = ops@.map_values(|o: OperatorInfo| signature(o));
    // logand
    push_op(ops, 24, vec![], Type::AnyAtom);
    push_op(ops, 24, vec![Type::AnyAtom], Type::AnyAtom);
    push_op(ops, 24, vec![Type::AnyAtom, Type::AnyAtom], Type::AnyAtom);
    push_op(ops, 24, vec![Type::AnyAtom, Type::AnyAtom, Type::AnyAtom], Type::AnyAtom);
    // logior
    push_op(ops, 25, vec![], Type::AnyAtom);
    push_op(ops, 25, vec![Type::AnyAtom], Type::AnyAtom);
    push_op(ops, 25, vec![Type::AnyAtom, Type::AnyAtom], Type::AnyAtom);
    push_op(ops, 25, vec![Type::AnyAtom, Type::AnyAtom, Type::AnyAtom], Type::AnyAtom);
    // logxor
    push_op(ops, 26, vec![], Type::AnyAtom);
    push_op(ops, 26, vec![Type::AnyAtom], Type::AnyAtom);
    push_op(ops, 26, vec![Type::AnyAtom, Type::AnyAtom], Type::AnyAtom);
    push_op(ops, 26, vec![Type::AnyAtom, Type::AnyAtom, Type::AnyAtom], Type::AnyAtom);
    // lognot
    push_op(ops, 27, vec![Type::AnyAtom], Type::AnyAtom);
    assert(ops@.map_values(|o: OperatorInfo| signature(o)) =~~= start + bitwise_rows());
}

/// The operators on points and booleans.
fn push_point_ops(ops: &mut Vec<OperatorInfo>)
    ensures
        final(ops)@.len() == old(ops)@.len() + 9,
        forall|t: Type| #[trigger] covers(old(ops)@, t) ==> covers(final(ops)@, t),
        has_leaf_row(old(ops)@) ==> has_leaf_row(final(ops)@),
        covers(final(ops)@, Type::Bytes48),
        final(ops)@.map_values(|o: OperatorInfo| signature(o)) == old(ops)@.map_values(
            |o: OperatorInfo| signature(o),
        ) + point_rows(),
{
    let ghost start = ops@.map_values(|o: OperatorInfo| signature(o));
    // point_add
    push_op(ops, 29, vec![], Type::Bytes48);
    assert(covers(ops@, Type::Bytes48));
    push_op(ops, 29, vec![Type::Bytes48], Type::Bytes48);
    push_op(ops, 29, vec![Type::Bytes48, Type::Bytes48], Type::Bytes48);
    push_op(ops, 29, vec![Type::Bytes48, Type::Bytes48, Type::Bytes48], Type::Bytes48);
    // pubkey for exp
    push_op(ops, 30, vec![Type::AnyAtom], Type::Bytes48);
    // not
    push_op(ops, 32, vec![Type::AnyAtom], Type::Bool);
    // any
    push_op(ops, 33, vec![Type::AnyAtom, Type::AnyAtom], Type::Bool);
    // all
    push_op(ops, 34, vec![Type::AnyAtom, Type::AnyAtom], Type::Bool);
    // softfork
    push_op(ops, 36, vec![Type::Cost, Type::Zero, Type::Program, Type::Tree], Type::Bool);
    assert(ops@.map_values(|o: OperatorInfo| signature(o)) =~~= start + point_rows());
}

/// The BLS extensions that take points and scalars.
fn push_bls_ops(ops: &mut Vec<OperatorInfo>)
    ensures
        final(ops)@.len() == old(ops)@.len() + 10,
        forall|t: Type| #[trigger] covers(old(ops)@, t) ==> covers(final(ops)@, t),
        has_leaf_row(old(ops)@) ==> has_leaf_row(final(ops)@),
        covers(final(ops)@, Type::Bytes96),
        final(ops)@.map_values(|o: OperatorInfo| signature(o)) == old(ops)@.map_values(
            |o: OperatorInfo| signature(o),
        ) + bls_rows(),
{
    let ghost start = ops@.map_values(|o: OperatorInfo| signature(o));
    // BLS extensions
    // coinid
    push_op(ops, 48, vec![Type::Bytes32, Type::Bytes32, Type::Int64], Type::Bytes32);
    // bls_g1_subtract
    push_op(ops, 49, vec![Type::Bytes48, Type::Bytes48], Type::Bytes48);
    // bls_g1_multiply
    push_op(ops, 50, vec![Type::Bytes48, Type::Int64], Type::Bytes48);
    // bls_g1_negate
    push_op(ops, 51, vec![Type::Bytes48], Type::Bytes48);
    // bls_g2_add
    push_op(ops, 52, vec![Type::Bytes96, Type::Bytes96], Type::Bytes96);
    assert(covers(ops@, Type::Bytes96));
    // bls_g2_subtract
    push_op(ops, 53, vec![Type::Bytes96, Type::Bytes96], Type::Bytes96);
    // bls_g2_multiply
    push_op(ops, 54, vec![Type::Bytes96, Type::Int64], Type::Bytes96);
    push_op(ops, 54, vec![Type::Bytes96, Type::Bytes32], Type::Bytes96);
    push_op(ops, 54, vec![Type::Bytes96, Type::Bytes48], Type::Bytes96);
    push_op(ops, 54, vec![Type::Bytes96, Type::Bytes96], Type::Bytes96);
    assert(ops@.map_values(|o: OperatorInfo| signature(o)) =~~= start + bls_rows());
}

/// The BLS extensions that map, pair and verify.
fn push_bls_pairing_ops(ops: &mut Vec<OperatorInfo>)
    ensures
        final(ops)@.len() == old(ops)@.len() + 14,
        forall|t: Type| #[trigger] covers(old(ops)@, t) ==> covers(final(ops)@, t),
        has_leaf_row(old(ops)@) ==> has_leaf_row(final(ops)@),
        final(ops)@.map_values(|o: OperatorInfo| signature(o)) == old(ops)@.map_values(
            |o: OperatorInfo| signature(o),
        ) + bls_pairing_rows(),
{
    let ghost start = ops@.map_values(|o: OperatorInfo| signature(o));
    // bls_g2_negate
    push_op(ops, 55, vec![Type::Bytes96], Type::Bytes96);
    // bls_map_to_g1
    push_op(ops, 56, vec![Type::AnyAtom, Type::AnyAtom], Type::Bytes48);
    // bls_map_to_g2
    push_op(ops, 57, vec![Type::AnyAtom, Type::AnyAtom], Type::Bytes96);
    push_op(ops, 57, vec![Type::AnyAtom], Type::Bytes96);
    // bls_pairing_identity
    push_op(ops, 58, vec![Type::PointPair], Type::Bool);
    push_op(ops, 58, vec![Type::PointPair, Type::PointPair], Type::Bool);
    push_op(ops, 58, vec![Type::PointPair, Type::PointPair, Type::PointPair], Type::Bool);
    push_op(ops, 58, vec![Type::PointPair, Type::PointPair, Type::PointPair, Type::PointPair], Type::Bool);
    push_op(ops, 58, vec![Type::PointPair, Type::PointPair, Type::PointPair, Type::PointPair, Type::PointPair], Type::Bool);
    // bls_verify
    push_op(ops, 59, vec![Type::Bytes96], Type::Bool);
    push_op(ops, 59, vec![Type::Bytes96, Type::PointPair], Type::Bool);
    push_op(ops, 59, vec![Type::Bytes96, Type::PointPair, Type::PointPair], Type::Bool);
    push_op(ops, 59, vec![Type::Bytes96, Type::PointPair, Type::PointPair, Type::PointPair], Type::Bool);
    push_op(ops, 59, vec![Type::Bytes96, Type::PointPair, Type::PointPair, Type::PointPair, Type::PointPair], Type::Bool);
    assert(ops@.map_values(|o: OperatorInfo| signature(o)) =~~= start + bls_pairing_rows());
}

/// The operator catalog: each row one signature, several rows for an opcode
/// that takes several operand lists.
///
/// Every type that stands as an operand in it is the result type, or converts
/// from the result type, of some row.
pub fn operators() -> (r: Vec<OperatorInfo>)
    ensures
        r@.len() == 76,
        catalog_reachable(r@),
        has_leaf_row(r@),
        r@.map_values(|o: OperatorInfo| signature(o)) == list_rows() + compare_rows() + byte_rows()
            + arith_rows() + bitwise_rows() + point_rows() + bls_rows() + bls_pairing_rows(),
{
    let mut ops: Vec<OperatorInfo> = Vec::new();
    push_list_ops(&mut ops);
    push_compare_ops(&mut ops);
    push_byte_ops(&mut ops);
    push_arith_ops(&mut ops);
    push_bitwise_ops(&mut ops);
    push_point_ops(&mut ops);
    push_bls_ops(&mut ops);
    push_bls_pairing_ops(&mut ops);
    proof {
        assert forall|t: Type| #[trigger] covers(ops@, t) by {
            match t {
                Type::Program => assert(covers(ops@, Type::Program)),
                Type::Tree => assert(covers(ops@, Type::Tree)),
                Type::List => assert(covers(ops@, Type::List)),
                Type::PointPair => assert(covers(ops@, Type::PointPair)),
                Type::Bool => assert(covers(ops@, Type::Bool)),
                Type::Int64 => assert(covers(ops@, Type::Int64)),
                Type::Int32 => assert(covers(ops@, Type::Int32)),
                Type::Zero => assert(covers(ops@, Type::Zero)),
                Type::Cost => assert(covers(ops@, Type::Cost)),
                Type::Bytes32 => assert(covers(ops@, Type::Bytes32)),
                Type::Bytes48 => assert(covers(ops@, Type::Bytes48)),
                Type::Bytes96 => assert(covers(ops@, Type::Bytes96)),
                Type::AnyAtom => assert(covers(ops@, Type::AnyAtom)),
            }
        }
    }
    assert(ops@.map_values(|o: OperatorInfo| signature(o)) =~= list_rows() + compare_rows()
        + byte_rows() + arith_rows() + bitwise_rows() + point_rows() + bls_rows()
        + bls_pairing_rows());
    ops
}

} // verus!
