use vstd::prelude::*;

use rand::rngs::StdRng;
use rand::Rng;

use crate::catalog::{
    atom_kind, catalog_reachable, convertible, covers, has_leaf_row, is_concrete_atom,
    OperatorInfo, Type, NUM_ATOM_KINDS,
};
use crate::codec::{atom_encoding, encodable, encoding, push_atom, size_prefix};
use crate::sexp::{is_nil, spine_items, Value};

verus! {

#[verifier::external_type_specification]
#[verifier::external_body]
pub struct ExStdRng(rand::rngs::StdRng);

/// Relies on rand::Rng::gen_range: a draw from `0..n`; it panics on an empty range.
#[verifier::external_body]
fn draw_below(rng: &mut StdRng, n: usize) -> (r: usize)
    requires
        0 < n,
    ensures
        r < n,
{
    rng.gen_range(0..n)
}

/// Relies on rand::Rng::gen_ratio: true with chance `num / den`, never when
/// `num == 0` and always when `num == den`; it panics when `den == 0` or `num > den`.
#[verifier::external_body]
fn draw_ratio(rng: &mut StdRng, num: u32, den: u32) -> (r: bool)
    requires
        0 < den,
        num <= den,
    ensures
        num == 0 ==> !r,
        num == den ==> r,
{
    rng.gen_ratio(num, den)
}

/// Chance, in percent, that a side of a tree grows another pair.
pub const TREE_GROWTH_PERCENT: u32 = 10;

/// Chance, in percent, that an operand is a nested call rather than a quoted literal.
pub const NESTED_CALL_PERCENT: u32 = 30;

/// Lists are drawn with fewer items than this.
pub const LIST_LEN_BOUND: usize = 10;

/// How deep calls nest in the samples of a corpus.
pub const CORPUS_DEPTH: u32 = 8;

/// The cost that a `Cost` operand always carries.
pub const COST_VALUE: u64 = 8000000000;

/// The four bytes of `x`, most significant first.
pub open spec fn be32(x: u32) -> Seq<u8> {
    seq![(x >> 24) as u8, (x >> 16) as u8, (x >> 8) as u8, x as u8]
}

/// The eight bytes of `x`, most significant first.
pub open spec fn be64(x: u64) -> Seq<u8> {
    seq![
        (x >> 56) as u8,
        (x >> 48) as u8,
        (x >> 40) as u8,
        (x >> 32) as u8,
        (x >> 24) as u8,
        (x >> 16) as u8,
        (x >> 8) as u8,
        x as u8,
    ]
}

/// `n` zero bytes.
pub open spec fn zero_bytes(n: nat) -> Seq<u8> {
    Seq::new(n, |i: int| 0u8)
}

/// The literals the generator emits for each concrete atom kind. Integers are
/// written at their fixed width (eight bytes for `Int64` and `Cost`, four for
/// `Int32`), not in minimal form: fuzz data is meant to include such encodings.
pub open spec fn atom_fits(b: Seq<u8>, t: Type) -> bool {
    match t {
        Type::Bool => b.len() == 0 || b == seq![1u8],
        Type::Int64 => exists|i: int| 0 <= i < 8 && b == be64(#[trigger] interesting_u64(i)),
        Type::Int32 => exists|i: int| 0 <= i < 9 && b == be32(#[trigger] interesting_u32(i)),
        Type::Zero => b.len() == 0,
        Type::Cost => b == be64(COST_VALUE),
        Type::Bytes32 => b == zero_bytes(32),
        Type::Bytes48 => b == zero_bytes(48),
        Type::Bytes96 => b == zero_bytes(96),
        _ => false,
    }
}

/// The kinds whose literal takes no random draw.
pub open spec fn draws_nothing(t: Type) -> bool {
    match t {
        Type::Zero | Type::Cost | Type::Bytes32 | Type::Bytes48 | Type::Bytes96
        | Type::PointPair => true,
        _ => false,
    }
}

/// `b` is a value of some concrete atom kind.
pub open spec fn any_atom(b: Seq<u8>) -> bool {
    exists|k: Type| is_concrete_atom(k) && #[trigger] atom_fits(b, k)
}

pub open spec fn atom_typed(b: Seq<u8>, t: Type) -> bool {
    if t == Type::AnyAtom {
        any_atom(b)
    } else {
        atom_fits(b, t)
    }
}

pub open spec fn concrete_atom(v: Value) -> bool {
    match v {
        Value::Atom(b) => any_atom(b),
        Value::Pair(_, _) => false,
    }
}

/// A nil-terminated chain of atoms of concrete kinds.
pub open spec fn atom_list(v: Value) -> bool
    decreases v,
{
    match v {
        Value::Atom(b) => b.len() == 0,
        Value::Pair(l, r) => concrete_atom(*l) && atom_list(*r),
    }
}

/// The atom that holds an opcode.
pub open spec fn opcode_atom(c: u8) -> Value {
    Value::Atom(seq![c])
}

/// The quote marker.
pub open spec fn quote_atom() -> Value {
    Value::Atom(seq![1u8])
}

/// `v` is a value of type `t`, with programs typed against the catalog `cat`.
pub open spec fn has_type(v: Value, t: Type, cat: Seq<OperatorInfo>) -> bool
    decreases v,
{
    match t {
        Type::Tree => match v {
            Value::Pair(l, r) => (has_type(*l, Type::Tree, cat) || concrete_atom(*l)) && (has_type(
                *r,
                Type::Tree,
                cat,
            ) || concrete_atom(*r)),
            Value::Atom(_) => false,
        },
        Type::List => atom_list(v) && spine_items(v).len() < LIST_LEN_BOUND,
        Type::PointPair => v == Value::Pair(
            Box::new(Value::Atom(zero_bytes(48))),
            Box::new(Value::Atom(zero_bytes(96))),
        ),
        Type::Program => match v {
            Value::Pair(h, x) => exists|k: int|
                0 <= k < cat.len() && *h == opcode_atom(cat[k].opcode) && args_typed(
                    *x,
                    #[trigger] cat[k].operands@,
                    cat,
                ),
            Value::Atom(_) => false,
        },
        _ => match v {
            Value::Atom(b) => atom_typed(b, t),
            Value::Pair(_, _) => false,
        },
    }
}

/// `args` is a nil-terminated list of operands of the types `tys`, in order.
pub open spec fn args_typed(args: Value, tys: Seq<Type>, cat: Seq<OperatorInfo>) -> bool
    decreases args,
{
    if tys.len() == 0 {
        is_nil(args)
    } else {
        match args {
            Value::Pair(a, rest) => operand_typed(*a, tys[0], cat) && args_typed(
                *rest,
                tys.drop_first(),
                cat,
            ),
            Value::Atom(_) => false,
        }
    }
}

/// An operand where `t` is asked for: a quoted value of type `t`, or a call
/// of a catalog entry whose result converts to `t`.
pub open spec fn operand_typed(a: Value, t: Type, cat: Seq<OperatorInfo>) -> bool
    decreases a,
{
    match a {
        Value::Pair(h, x) => (*h == quote_atom() && has_type(*x, t, cat)) || (exists|k: int|
            0 <= k < cat.len() && convertible(cat[k].result, t) && *h == opcode_atom(cat[k].opcode)
                && args_typed(*x, #[trigger] cat[k].operands@, cat)),
        Value::Atom(_) => false,
    }
}

/// `a` is a quoted value of type `t`.
pub open spec fn quoted_typed(a: Value, t: Type, cat: Seq<OperatorInfo>) -> bool {
    match a {
        Value::Pair(h, x) => *h == quote_atom() && has_type(*x, t, cat),
        Value::Atom(_) => false,
    }
}

/// The nil-terminated list of `s`.
pub open spec fn list_of(s: Seq<Value>) -> Value
    decreases s.len(),
{
    if s.len() == 0 {
        Value::Atom(Seq::empty())
    } else {
        Value::Pair(Box::new(s[0]), Box::new(list_of(s.drop_first())))
    }
}

/// The encoding of a list of `s` without its terminator.
pub open spec fn items_encoding(s: Seq<Value>) -> Seq<u8>
    decreases s.len(),
{
    if s.len() == 0 {
        Seq::empty()
    } else {
        seq![0xffu8] + encoding(s[0]) + items_encoding(s.drop_first())
    }
}

/// `after` is `before` followed by the canonical encoding of `v`.
pub open spec fn emits(before: Seq<u8>, after: Seq<u8>, v: Value) -> bool {
    encodable(v) && after == before + encoding(v)
}

/// The largest operand count of a catalog entry.
pub open spec fn max_arity(cat: Seq<OperatorInfo>) -> nat
    decreases cat.len(),
{
    if cat.len() == 0 {
        0
    } else {
        let m = max_arity(cat.drop_last());
        if cat.last().operands@.len() > m {
            cat.last().operands@.len()
        } else {
            m
        }
    }
}

/// A bound on the bytes that `generate` appends at nesting depth `d`, for a
/// catalog whose entries take at most `w` operands. The longest atom literal
/// takes 98 bytes and the longest list `1 + 9 * 99 = 892`.
pub open spec fn gen_bound(d: nat, w: nat) -> nat
    decreases d, 0nat,
{
    if d == 0 {
        892
    } else {
        let g = 1 + 2 * gen_bound((d - 1) as nat, w);
        let c = call_bound((d - 1) as nat, w);
        if g >= c && g >= 892 {
            g
        } else if c >= 892 {
            c
        } else {
            892
        }
    }
}

/// A bound on the bytes that `generate_program` appends at nesting depth `d`.
pub open spec fn call_bound(d: nat, w: nat) -> nat
    decreases d, 2nat,
{
    5 + w * operand_bound(d, w)
}

/// A bound on the bytes of one operand of a call at nesting depth `d`,
/// its list cell included.
pub open spec fn operand_bound(d: nat, w: nat) -> nat
    decreases d, 1nat,
{
    let inner = if d > 0 {
        call_bound((d - 1) as nat, w)
    } else {
        0
    };
    let g = gen_bound(d, w);
    3 + if g >= inner {
        g
    } else {
        inner
    }
}

proof fn lemma_bounds(d: nat, w: nat)
    ensures
        gen_bound(d, w) >= 892,
        d > 0 ==> gen_bound(d, w) >= 1 + 2 * gen_bound((d - 1) as nat, w),
        d > 0 ==> gen_bound(d, w) >= call_bound((d - 1) as nat, w),
        operand_bound(d, w) >= 3 + gen_bound(d, w),
        d > 0 ==> operand_bound(d, w) >= 1 + call_bound((d - 1) as nat, w),
{
}

proof fn lemma_max_arity(cat: Seq<OperatorInfo>, k: int)
    requires
        0 <= k < cat.len(),
    ensures
        cat[k].operands@.len() <= max_arity(cat),
    decreases cat.len(),
{
    if k < cat.len() - 1 {
        lemma_max_arity(cat.drop_last(), k);
        assert(cat.drop_last()[k] == cat[k]);
    }
}

proof fn lemma_atom_len(b: Seq<u8>)
    requires
        b.len() <= 96,
    ensures
        atom_encoding(b).len() <= b.len() + 2,
{
    if b.len() > 0 && !(b.len() == 1 && b[0] < 0x80) {
        assert(size_prefix(b.len()).len() <= 2);
    }
}

/// The catalog can drive the generator: some entry takes no operands, so a
/// program can be ended when the nesting depth runs out.
pub open spec fn generator_ready(cat: Seq<OperatorInfo>) -> bool {
    has_leaf_row(cat)
}

proof fn lemma_items_push(s: Seq<Value>, x: Value)
    ensures
        items_encoding(s.push(x)) == items_encoding(s) + seq![0xffu8] + encoding(x),
    decreases s.len(),
{
    if s.len() == 0 {
        assert(s.push(x).drop_first() =~= Seq::<Value>::empty());
        assert(items_encoding(s.push(x).drop_first()) == Seq::<u8>::empty());
        assert(s.push(x)[0] == x);
        assert(items_encoding(s.push(x)) =~= items_encoding(s) + seq![0xffu8] + encoding(x));
    } else {
        assert(s.push(x).drop_first() =~= s.drop_first().push(x));
        lemma_items_push(s.drop_first(), x);
        assert(s.push(x)[0] == s[0]);
        assert(items_encoding(s.push(x)) == seq![0xffu8] + encoding(s[0]) + items_encoding(
            s.drop_first().push(x),
        ));
        assert(items_encoding(s.push(x)) =~= items_encoding(s) + seq![0xffu8] + encoding(x));
    }
}

proof fn lemma_list_of(s: Seq<Value>, tys: Seq<Type>, cat: Seq<OperatorInfo>)
    ensures
        encoding(list_of(s)) == items_encoding(s) + seq![0x80u8],
        spine_items(list_of(s)).len() == s.len(),
        (forall|i: int| 0 <= i < s.len() ==> encodable(#[trigger] s[i])) ==> encodable(list_of(s)),
        (forall|i: int| 0 <= i < s.len() ==> concrete_atom(#[trigger] s[i])) ==> atom_list(
            list_of(s),
        ),
        s.len() == tys.len() && (forall|i: int|
            0 <= i < s.len() ==> operand_typed(#[trigger] s[i], tys[i], cat)) ==> args_typed(
            list_of(s),
            tys,
            cat,
        ),
    decreases s.len(),
{
    if s.len() == 0 {
        assert(encoding(list_of(s)) =~= items_encoding(s) + seq![0x80u8]);
    } else {
        lemma_list_of(s.drop_first(), tys.drop_first(), cat);
        assert(encoding(list_of(s)) =~= items_encoding(s) + seq![0x80u8]);
        if forall|i: int| 0 <= i < s.len() ==> encodable(#[trigger] s[i]) {
            assert forall|i: int| 0 <= i < s.drop_first().len() implies encodable(
                #[trigger] s.drop_first()[i],
            ) by {
                assert(encodable(s[i + 1]));
            }
        }
        if forall|i: int| 0 <= i < s.len() ==> concrete_atom(#[trigger] s[i]) {
            assert forall|i: int| 0 <= i < s.drop_first().len() implies concrete_atom(
                #[trigger] s.drop_first()[i],
            ) by {
                assert(concrete_atom(s[i + 1]));
            }
        }
        if s.len() == tys.len() && (forall|i: int|
            0 <= i < s.len() ==> operand_typed(#[trigger] s[i], tys[i], cat)) {
            assert forall|i: int| 0 <= i < s.drop_first().len() implies operand_typed(
                #[trigger] s.drop_first()[i],
                tys.drop_first()[i],
                cat,
            ) by {
                assert(operand_typed(s[i + 1], tys[i + 1], cat));
            }
            assert(operand_typed(s[0], tys[0], cat));
        }
    }
}

fn rand_atom_type(rng: &mut StdRng) -> (r: Type)
    ensures
        is_concrete_atom(r),
{
    atom_kind(draw_below(rng, NUM_ATOM_KINDS))
}

pub open spec fn interesting_u32(i: int) -> u32 {
    if i == 0 {
        0
    } else if i == 1 {
        1
    } else if i == 2 {
        5
    } else if i == 3 {
        0xff
    } else if i == 4 {
        0xffff
    } else if i == 5 {
        0x100
    } else if i == 6 {
        0xffffffff
    } else if i == 7 {
        0x7fffffff
    } else {
        0x800000
    }
}

pub open spec fn interesting_u64(i: int) -> u64 {
    if i == 0 {
        0
    } else if i == 1 {
        1
    } else if i == 2 {
        5
    } else if i == 3 {
        0xff
    } else if i == 4 {
        0xffffffffffffffff
    } else if i == 5 {
        0x100
    } else if i == 6 {
        0x8000000000000000
    } else {
        0x7fffffffffffffff
    }
}

/// The `i`-th boundary value of `u32` (`i < 9`).
pub fn interesting_u32_at(i: usize) -> (r: u32)
    requires
        i < 9,
    ensures
        r == interesting_u32(i as int),
{
    match i {
        0 => 0,
        1 => 1,
        2 => 5,
        3 => 0xff,
        4 => 0xffff,
        5 => 0x100,
        6 => 0xffffffff,
        7 => 0x7fffffff,
        _ => 0x800000,
    }
}

/// The `i`-th boundary value of `u64` (`i < 8`).
pub fn interesting_u64_at(i: usize) -> (r: u64)
    requires
        i < 8,
    ensures
        r == interesting_u64(i as int),
{
    match i {
        0 => 0,
        1 => 1,
        2 => 5,
        3 => 0xff,
        4 => 0xffffffffffffffff,
        5 => 0x100,
        6 => 0x8000000000000000,
        _ => 0x7fffffffffffffff,
    }
}

/// One of the boundary values of `u32`, drawn at random.
pub fn generate_u32(rng: &mut StdRng) -> (r: u32)
    ensures
        exists|i: int| 0 <= i < 9 && r == #[trigger] interesting_u32(i),
{
    let i = draw_below(rng, 9);
    interesting_u32_at(i)
}

/// One of the boundary values of `u64`, drawn at random.
pub fn generate_u64(rng: &mut StdRng) -> (r: u64)
    ensures
        exists|i: int| 0 <= i < 8 && r == #[trigger] interesting_u64(i),
{
    let i = draw_below(rng, 8);
    interesting_u64_at(i)
}

/// The four bytes of `x`, most significant first.
pub fn be_bytes_u32(x: u32) -> (r: Vec<u8>)
    ensures
        r@ == be32(x),
{
    let mut r: Vec<u8> = Vec::new();
    r.push((x >> 24) as u8);
    r.push((x >> 16) as u8);
    r.push((x >> 8) as u8);
    r.push(x as u8);
    assert(r@ =~= seq![(x >> 24) as u8, (x >> 16) as u8, (x >> 8) as u8, x as u8]);
    r
}

/// The eight bytes of `x`, most significant first.
pub fn be_bytes_u64(x: u64) -> (r: Vec<u8>)
    ensures
        r@ == be64(x),
{
    let mut r: Vec<u8> = Vec::new();
    r.push((x >> 56) as u8);
    r.push((x >> 48) as u8);
    r.push((x >> 40) as u8);
    r.push((x >> 32) as u8);
    r.push((x >> 24) as u8);
    r.push((x >> 16) as u8);
    r.push((x >> 8) as u8);
    r.push(x as u8);
    assert(r@ =~= seq![
        (x >> 56) as u8,
        (x >> 48) as u8,
        (x >> 40) as u8,
        (x >> 32) as u8,
        (x >> 24) as u8,
        (x >> 16) as u8,
        (x >> 8) as u8,
        x as u8,
    ]);
    r
}

fn zeros(n: usize) -> (r: Vec<u8>)
    ensures
        r@ == zero_bytes(n as nat),
{
    let mut r: Vec<u8> = Vec::new();
    let mut i: usize = 0;
    while i < n
        invariant
            i <= n,
            r@ == Seq::new(i as nat, |j: int| 0u8),
        decreases n - i,
    {
        r.push(0);
        i = i + 1;
        assert(r@ =~= Seq::new(i as nat, |j: int| 0u8));
    }
    assert(r@ =~= zero_bytes(n as nat));
    r
}

fn emit_atom(buf: &mut Vec<u8>, b: &Vec<u8>)
    requires
        b@.len() <= 96,
    ensures
        final(buf)@ == old(buf)@ + atom_encoding(b@),
        final(buf)@.len() <= old(buf)@.len() + b@.len() + 2,
{
    let _ = push_atom(buf, b.as_slice());
    proof {
        lemma_atom_len(b@);
    }
}

/// Appends a quoted-free literal of the concrete atom kind `t`.
pub fn generate_atom(t: Type, rng: &mut StdRng, buf: &mut Vec<u8>)
    requires
        is_concrete_atom(t),
    ensures
        exists|b: Seq<u8>| #[trigger] emits(old(buf)@, final(buf)@, Value::Atom(b)) && atom_fits(b, t),
        draws_nothing(t) ==> *final(rng) == *old(rng),
        final(buf)@.len() <= old(buf)@.len() + 98,
{
    let ghost before = buf@;
    match t {
        Type::Bool => {
            if draw_ratio(rng, 1, 2) {
                buf.push(0x80);
                assert(buf@ =~= before + encoding(Value::Atom(Seq::<u8>::empty())));
                assert(emits(before, buf@, Value::Atom(Seq::empty())));
            } else {
                buf.push(1);
                assert(seq![1u8][0] == 1);
                assert(buf@ =~= before + encoding(Value::Atom(seq![1u8])));
                assert(emits(before, buf@, Value::Atom(seq![1u8])));
            }
        },
        Type::Zero => {
            buf.push(0x80);
            assert(buf@ =~= before + encoding(Value::Atom(Seq::<u8>::empty())));
            assert(emits(before, buf@, Value::Atom(Seq::empty())));
        },
        Type::Int64 => {
            let b = be_bytes_u64(generate_u64(rng));
            emit_atom(buf, &b);
            assert(emits(before, buf@, Value::Atom(b@)));
        },
        Type::Int32 => {
            let b = be_bytes_u32(generate_u32(rng));
            emit_atom(buf, &b);
            assert(emits(before, buf@, Value::Atom(b@)));
        },
        Type::Cost => {
            let b = be_bytes_u64(COST_VALUE);
            emit_atom(buf, &b);
            assert(emits(before, buf@, Value::Atom(b@)));
        },
        Type::Bytes32 => {
            let b = zeros(32);
            emit_atom(buf, &b);
            assert(emits(before, buf@, Value::Atom(b@)));
        },
        Type::Bytes48 => {
            let b = zeros(48);
            emit_atom(buf, &b);
            assert(emits(before, buf@, Value::Atom(b@)));
        },
        _ => {
            let b = zeros(96);
            emit_atom(buf, &b);
            assert(emits(before, buf@, Value::Atom(b@)));
        },
    }
}

/// Appends a literal of a random concrete atom kind.
fn generate_any_atom(rng: &mut StdRng, buf: &mut Vec<u8>)
    ensures
        exists|v: Value| #[trigger] emits(old(buf)@, final(buf)@, v) && concrete_atom(v),
        final(buf)@.len() <= old(buf)@.len() + 98,
{
    let k = rand_atom_type(rng);
    generate_atom(k, rng, buf);
    proof {
        let b = choose|b: Seq<u8>| #[trigger] emits(old(buf)@, buf@, Value::Atom(b)) && atom_fits(b, k);
        assert(concrete_atom(Value::Atom(b)));
    }
}

/// The indices of the catalog entries whose result may stand where `t` is asked for.
fn producers(ops: &Vec<OperatorInfo>, t: Type) -> (r: Vec<usize>)
    ensures
        forall|i: int|
            0 <= i < r@.len() ==> #[trigger] r@[i] < ops@.len() && convertible(
                ops@[r@[i] as int].result,
                t,
            ),
        covers(ops@, t) ==> r@.len() > 0,
{
    let mut r: Vec<usize> = Vec::new();
    let mut k: usize = 0;
    while k < ops.len()
        invariant
            k <= ops@.len(),
            forall|i: int|
                0 <= i < r@.len() ==> #[trigger] r@[i] < ops@.len() && convertible(
                    ops@[r@[i] as int].result,
                    t,
                ),
            (exists|j: int| 0 <= j < k && convertible(#[trigger] ops@[j].result, t)) ==> r@.len()
                > 0,
        decreases ops@.len() - k,
    {
        if crate::catalog::type_convertible(ops[k].result, t) {
            r.push(k);
        }
        k = k + 1;
    }
    r
}

/// The indices of the catalog entries that take no operands.
fn leaf_rows(ops: &Vec<OperatorInfo>) -> (r: Vec<usize>)
    ensures
        forall|i: int|
            0 <= i < r@.len() ==> #[trigger] r@[i] < ops@.len() && ops@[r@[i] as int].operands@.len()
                == 0,
        has_leaf_row(ops@) ==> r@.len() > 0,
{
    let mut r: Vec<usize> = Vec::new();
    let mut k: usize = 0;
    while k < ops.len()
        invariant
            k <= ops@.len(),
            forall|i: int|
                0 <= i < r@.len() ==> #[trigger] r@[i] < ops@.len()
                    && ops@[r@[i] as int].operands@.len() == 0,
            (exists|j: int| 0 <= j < k && (#[trigger] ops@[j]).operands@.len() == 0) ==> r@.len()
                > 0,
        decreases ops@.len() - k,
    {
        if ops[k].operands.len() == 0 {
            r.push(k);
        }
        k = k + 1;
    }
    r
}

/// `v` is a call of the catalog entry `k`: its opcode, then a list of operands
/// of the entry's operand types.
pub open spec fn call_typed(v: Value, k: int, cat: Seq<OperatorInfo>) -> bool {
    match v {
        Value::Pair(h, x) => *h == opcode_atom(cat[k].opcode) && args_typed(*x, cat[k].operands@, cat),
        Value::Atom(_) => false,
    }
}

fn emit_opcode(buf: &mut Vec<u8>, opcode: u8)
    ensures
        final(buf)@ == old(buf)@ + encoding(opcode_atom(opcode)),
        final(buf)@.len() <= old(buf)@.len() + 3,
{
    let mut oc: Vec<u8> = Vec::new();
    oc.push(opcode);
    assert(oc@ =~= seq![opcode]);
    emit_atom(buf, &oc);
}

/// Appends a value of type `t`: a tree grows, a list gets up to
/// `LIST_LEN_BOUND - 1` atoms, a program is a call of a random catalog entry.
/// Calls nest at most `depth` deep; at depth 0 a program is a call of an
/// entry without operands and a tree does not grow.
pub fn generate(t: Type, ops: &Vec<OperatorInfo>, rng: &mut StdRng, buf: &mut Vec<u8>, depth: u32)
    requires
        generator_ready(ops@),
    ensures
        exists|v: Value| #[trigger] emits(old(buf)@, final(buf)@, v) && has_type(v, t, ops@),
        draws_nothing(t) ==> *final(rng) == *old(rng),
        final(buf)@.len() <= old(buf)@.len() + gen_bound(depth as nat, max_arity(ops@)),
    decreases depth, 0int,
{
    proof {
        lemma_bounds(depth as nat, max_arity(ops@));
        if depth > 0 {
            lemma_bounds((depth - 1) as nat, max_arity(ops@));
        }
    }
    let ghost before = buf@;
    match t {
        Type::Tree => {
            buf.push(0xff);
            let left_grow = depth > 0 && draw_ratio(rng, TREE_GROWTH_PERCENT, 100);
            let left_kind = if left_grow {
                Type::Tree
            } else {
                rand_atom_type(rng)
            };
            let right_grow = depth > 0 && draw_ratio(rng, TREE_GROWTH_PERCENT, 100);
            let right_kind = if right_grow {
                Type::Tree
            } else {
                rand_atom_type(rng)
            };
            let ghost mid0 = buf@;
            if left_grow {
                generate(Type::Tree, ops, rng, buf, depth - 1);
            } else {
                generate_any_kind(left_kind, rng, buf);
            }
            let ghost mid1 = buf@;
            let ghost l = choose|v: Value|
                #[trigger] emits(mid0, mid1, v) && (has_type(v, Type::Tree, ops@) || concrete_atom(v));
            if right_grow {
                generate(Type::Tree, ops, rng, buf, depth - 1);
            } else {
                generate_any_kind(right_kind, rng, buf);
            }
            proof {
                let r = choose|v: Value|
                    #[trigger] emits(mid1, buf@, v) && (has_type(v, Type::Tree, ops@) || concrete_atom(v));
                let v = Value::Pair(Box::new(l), Box::new(r));
                assert(buf@ =~= before + encoding(v));
                assert(emits(before, buf@, v) && has_type(v, t, ops@));
            }
        },
        Type::List => {
            let len = draw_below(rng, LIST_LEN_BOUND);
            let ghost mut items: Seq<Value> = Seq::empty();
            let mut i: usize = 0;
            assert(buf@ =~= before + items_encoding(items));
            while i < len
                invariant
                    i <= len,
                    items.len() == i,
                    buf@ == before + items_encoding(items),
                    buf@.len() <= before.len() + i * 99,
                    len < LIST_LEN_BOUND,
                    forall|j: int|
                        0 <= j < items.len() ==> encodable(#[trigger] items[j]) && concrete_atom(
                            items[j],
                        ),
                decreases len - i,
            {
                buf.push(0xff);
                let ghost mid = buf@;
                generate_any_atom(rng, buf);
                proof {
                    let v = choose|v: Value| #[trigger] emits(mid, buf@, v) && concrete_atom(v);
                    lemma_items_push(items, v);
                    items = items.push(v);
                    assert(buf@ =~= before + items_encoding(items));
                }
                i = i + 1;
            }
            buf.push(0x80);
            proof {
                lemma_list_of(items, Seq::empty(), ops@);
                assert(buf@ =~= before + encoding(list_of(items)));
                assert(emits(before, buf@, list_of(items)));
            }
        },
        Type::PointPair => {
            buf.push(0xff);
            let ghost mid0 = buf@;
            generate_atom(Type::Bytes48, rng, buf);
            let ghost mid1 = buf@;
            let ghost a = choose|b: Seq<u8>|
                #[trigger] emits(mid0, mid1, Value::Atom(b)) && atom_fits(b, Type::Bytes48);
            generate_atom(Type::Bytes96, rng, buf);
            proof {
                let c = choose|b: Seq<u8>|
                    #[trigger] emits(mid1, buf@, Value::Atom(b)) && atom_fits(b, Type::Bytes96);
                let v = Value::Pair(Box::new(Value::Atom(a)), Box::new(Value::Atom(c)));
                assert(buf@ =~= before + encoding(v));
                assert(emits(before, buf@, v) && has_type(v, t, ops@));
            }
        },
        Type::Program => {
            if depth > 0 {
                let k = draw_below(rng, ops.len());
                generate_program(ops, k, rng, buf, depth - 1);
                proof {
                    let v = choose|v: Value| #[trigger] emits(before, buf@, v) && call_typed(v, k as int, ops@);
                    assert(has_type(v, t, ops@));
                }
            } else {
                let leaves = leaf_rows(ops);
                let k = leaves[draw_below(rng, leaves.len())];
                buf.push(0xff);
                emit_opcode(buf, ops[k].opcode);
                buf.push(0x80);
                proof {
                    let nil = Value::Atom(Seq::empty());
                    let v = Value::Pair(Box::new(opcode_atom(ops@[k as int].opcode)), Box::new(nil));
                    assert(encoding(nil) =~= seq![0x80u8]);
                    assert(buf@ =~= before + encoding(v));
                    assert(args_typed(nil, ops@[k as int].operands@, ops@));
                    assert(encodable(opcode_atom(ops@[k as int].opcode)));
                    assert(encodable(nil));
                    assert(encodable(v));
                    assert(emits(before, buf@, v));
                    assert(has_type(v, t, ops@));
                }
            }
        },
        Type::AnyAtom => {
            generate_any_atom(rng, buf);
        },
        _ => {
            generate_atom(t, rng, buf);
            proof {
                let b = choose|b: Seq<u8>| #[trigger] emits(before, buf@, Value::Atom(b)) && atom_fits(b, t);
                assert(has_type(Value::Atom(b), t, ops@));
            }
        },
    }
}

/// Appends a literal of the concrete atom kind `k`.
fn generate_any_kind(k: Type, rng: &mut StdRng, buf: &mut Vec<u8>)
    requires
        is_concrete_atom(k),
    ensures
        exists|v: Value| #[trigger] emits(old(buf)@, final(buf)@, v) && concrete_atom(v),
        final(buf)@.len() <= old(buf)@.len() + 98,
{
    generate_atom(k, rng, buf);
    proof {
        let b = choose|b: Seq<u8>| #[trigger] emits(old(buf)@, buf@, Value::Atom(b)) && atom_fits(b, k);
        assert(concrete_atom(Value::Atom(b)));
    }
}

/// Appends a call of the catalog entry `k`: its opcode, then for each operand
/// type either (with chance `NESTED_CALL_PERCENT` while `depth > 0`) a call of
/// an entry whose result converts to it, or a quoted literal of that type.
pub fn generate_program(
    ops: &Vec<OperatorInfo>,
    k: usize,
    rng: &mut StdRng,
    buf: &mut Vec<u8>,
    depth: u32,
)
    requires
        generator_ready(ops@),
        k < ops@.len(),
    ensures
        exists|v: Value| #[trigger] emits(old(buf)@, final(buf)@, v) && call_typed(v, k as int, ops@),
        ops@[k as int].operands@.len() == 0 ==> *final(rng) == *old(rng),
        final(buf)@.len() <= old(buf)@.len() + call_bound(depth as nat, max_arity(ops@)),
    decreases depth, 1int,
{
    let ghost before = buf@;
    buf.push(0xff);
    emit_opcode(buf, ops[k].opcode);
    let ghost head = buf@;
    let n = ops[k].operands.len();
    let ghost tys = ops@[k as int].operands@;
    let ghost mut items: Seq<Value> = Seq::empty();
    let mut j: usize = 0;
    let ghost rng0 = *rng;
    let ghost w = max_arity(ops@);
    let ghost p = operand_bound(depth as nat, w);
    proof {
        lemma_bounds(depth as nat, w);
        if depth > 0 {
            lemma_bounds((depth - 1) as nat, w);
        }
    }
    assert(buf@ =~= head + items_encoding(items));
    while j < n
        invariant
            j == 0 ==> *rng == rng0,
            w == max_arity(ops@),
            p == operand_bound(depth as nat, w),
            p >= 3 + gen_bound(depth as nat, w),
            depth > 0 ==> p >= 1 + call_bound((depth - 1) as nat, w),
            head.len() <= before.len() + 4,
            buf@.len() <= head.len() + j * p,
            generator_ready(ops@),
            k < ops@.len(),
            tys == ops@[k as int].operands@,
            n == tys.len(),
            j <= n,
            items.len() == j,
            buf@ == head + items_encoding(items),
            forall|i: int|
                0 <= i < items.len() ==> encodable(#[trigger] items[i]) && operand_typed(
                    items[i],
                    tys[i],
                    ops@,
                ),
        decreases n - j,
    {
        let arg = ops[k].operands[j];
        buf.push(0xff);
        let ghost mid = buf@;
        let nest = depth > 0 && draw_ratio(rng, NESTED_CALL_PERCENT, 100);
        let prods = if nest {
            producers(ops, arg)
        } else {
            Vec::new()
        };
        if nest && prods.len() > 0 {
            let sub = prods[draw_below(rng, prods.len())];
            generate_program(ops, sub, rng, buf, depth - 1);
            proof {
                let v = choose|v: Value| #[trigger] emits(mid, buf@, v) && call_typed(v, sub as int, ops@);
                assert(operand_typed(v, arg, ops@));
                assert(encodable(quote_atom()));
                assert(encodable(v));
                lemma_items_push(items, v);
                let old_items = items;
                items = items.push(v);
                assert(items[j as int] == v);
                assert(buf@ =~= head + items_encoding(items));
                assert forall|i: int| 0 <= i < items.len() implies encodable(#[trigger] items[i])
                    && operand_typed(items[i], tys[i], ops@) by {
                    if i < old_items.len() {
                        assert(items[i] == old_items[i]);
                    }
                }
            }
        } else {
            buf.push(0xff);
            buf.push(1);
            let ghost mid2 = buf@;
            generate(arg, ops, rng, buf, depth);
            proof {
                let x = choose|x: Value| #[trigger] emits(mid2, buf@, x) && has_type(x, arg, ops@);
                let v = Value::Pair(Box::new(quote_atom()), Box::new(x));
                assert(seq![1u8][0] == 1);
                assert(encoding(quote_atom()) =~= seq![1u8]);
                assert(buf@ =~= mid + encoding(v));
                assert(operand_typed(v, arg, ops@));
                assert(encodable(quote_atom()));
                assert(encodable(v));
                lemma_items_push(items, v);
                let old_items = items;
                items = items.push(v);
                assert(items[j as int] == v);
                assert(buf@ =~= head + items_encoding(items));
                assert forall|i: int| 0 <= i < items.len() implies encodable(#[trigger] items[i])
                    && operand_typed(items[i], tys[i], ops@) by {
                    if i < old_items.len() {
                        assert(items[i] == old_items[i]);
                    }
                }
            }
        }
        assert(j * p + p == (j + 1) * p) by (nonlinear_arith);
        j = j + 1;
    }
    buf.push(0x80);
    proof {
        lemma_max_arity(ops@, k as int);
        assert(n * p <= w * p) by (nonlinear_arith)
            requires
                n <= w,
        ;
        assert(forall|i: int| 0 <= i < items.len() ==> encodable(#[trigger] items[i]));
        assert(forall|i: int| 0 <= i < items.len() ==> operand_typed(#[trigger] items[i], tys[i], ops@));
        lemma_list_of(items, tys, ops@);
        let v = Value::Pair(Box::new(opcode_atom(ops@[k as int].opcode)), Box::new(list_of(items)));
        assert(buf@ =~= before + encoding(v));
        assert(encodable(opcode_atom(ops@[k as int].opcode)));
        assert(emits(before, buf@, v) && call_typed(v, k as int, ops@));
    }
}

/// Appends the operand list of the catalog entry `k` alone, each operand a
/// quoted literal of its type.
pub fn generate_args(ops: &Vec<OperatorInfo>, k: usize, rng: &mut StdRng, buf: &mut Vec<u8>, depth: u32)
    requires
        generator_ready(ops@),
        k < ops@.len(),
    ensures
        exists|items: Seq<Value>|
            #[trigger] emits(old(buf)@, final(buf)@, list_of(items)) && items.len()
                == ops@[k as int].operands@.len() && forall|i: int|
                0 <= i < items.len() ==> quoted_typed(items[i], ops@[k as int].operands@[i], ops@),
        ops@[k as int].operands@.len() == 0 ==> *final(rng) == *old(rng),
{
    let ghost before = buf@;
    let n = ops[k].operands.len();
    let ghost tys = ops@[k as int].operands@;
    let ghost mut items: Seq<Value> = Seq::empty();
    let mut j: usize = 0;
    let ghost rng0 = *rng;
    assert(buf@ =~= before + items_encoding(items));
    while j < n
        invariant
            j == 0 ==> *rng == rng0,
            generator_ready(ops@),
            k < ops@.len(),
            tys == ops@[k as int].operands@,
            n == tys.len(),
            j <= n,
            items.len() == j,
            buf@ == before + items_encoding(items),
            forall|i: int|
                0 <= i < items.len() ==> encodable(#[trigger] items[i]) && quoted_typed(
                    items[i],
                    tys[i],
                    ops@,
                ),
        decreases n - j,
    {
        let arg = ops[k].operands[j];
        buf.push(0xff);
        let ghost mid = buf@;
        buf.push(0xff);
        buf.push(1);
        let ghost mid2 = buf@;
        generate(arg, ops, rng, buf, depth);
        proof {
            let x = choose|x: Value| #[trigger] emits(mid2, buf@, x) && has_type(x, arg, ops@);
            let v = Value::Pair(Box::new(quote_atom()), Box::new(x));
            assert(seq![1u8][0] == 1);
            assert(encoding(quote_atom()) =~= seq![1u8]);
            assert(buf@ =~= mid + encoding(v));
            assert(encodable(quote_atom()));
            assert(encodable(v));
            assert(quoted_typed(v, arg, ops@));
            lemma_items_push(items, v);
            let old_items = items;
            items = items.push(v);
            assert(items[j as int] == v);
            assert(buf@ =~= before + items_encoding(items));
            assert forall|i: int| 0 <= i < items.len() implies encodable(#[trigger] items[i])
                && quoted_typed(items[i], tys[i], ops@) by {
                if i < old_items.len() {
                    assert(items[i] == old_items[i]);
                }
            }
        }
        j = j + 1;
    }
    buf.push(0x80);
    proof {
        assert(forall|i: int| 0 <= i < items.len() ==> encodable(#[trigger] items[i]));
        lemma_list_of(items, tys, ops@);
        assert(buf@ =~= before + encoding(list_of(items)));
        assert(emits(before, buf@, list_of(items)));
    }
}

/// Whether the catalog can drive the generator: it has an entry without operands.
pub fn catalog_ready(ops: &Vec<OperatorInfo>) -> (r: bool)
    ensures
        r == generator_ready(ops@),
{
    let leaves = leaf_rows(ops);
    if leaves.len() == 0 {
        return false;
    }
    assert(ops@[leaves@[0] as int].operands@.len() == 0);
    true
}

/// Whether every operand type of the catalog is produced by some entry. Where
/// one is not, the generator writes a quoted literal for that operand in
/// place of a nested call.
pub fn operands_reachable(ops: &Vec<OperatorInfo>) -> (r: bool)
    ensures
        r == catalog_reachable(ops@),
{
    let mut i: usize = 0;
    while i < ops.len()
        invariant
            i <= ops@.len(),
            forall|a: int, b: int|
                0 <= a < i && 0 <= b < ops@[a].operands@.len() ==> covers(
                    ops@,
                    #[trigger] ops@[a].operands@[b],
                ),
        decreases ops@.len() - i,
    {
        let mut j: usize = 0;
        while j < ops[i].operands.len()
            invariant
                i < ops@.len(),
                j <= ops@[i as int].operands@.len(),
                    forall|a: int, b: int|
                    0 <= a < i && 0 <= b < ops@[a].operands@.len() ==> covers(
                        ops@,
                        #[trigger] ops@[a].operands@[b],
                    ),
                forall|b: int| 0 <= b < j ==> covers(ops@, #[trigger] ops@[i as int].operands@[b]),
            decreases ops@[i as int].operands@.len() - j,
        {
            let t = ops[i].operands[j];
            let p = producers(ops, t);
            if p.len() == 0 {
                return false;
            }
            assert(convertible(ops@[p@[0] as int].result, t));
            j = j + 1;
        }
        i = i + 1;
    }
    true
}

} // verus!
