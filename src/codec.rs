use vstd::prelude::*;

use crate::sexp::{Obj, Value};

verus! {

#[verifier::external_type_specification]
#[verifier::external_body]
pub struct ExEvalErr(klvmr::error::EvalErr);

/// Largest atom length plus one that the length prefix can express.
pub const MAX_ATOM_LEN: u64 = 0x4_0000_0000;

/// The length prefix of an atom of `n` bytes (`0 < n`), big-endian, with the
/// count of leading one bits in its first byte giving the prefix's size.
pub open spec fn size_prefix(n: nat) -> Seq<u8> {
    if n < 0x40 {
        seq![(0x80 + n) as u8]
    } else if n < 0x2000 {
        seq![(0xc0 + n / 0x100) as u8, (n % 0x100) as u8]
    } else if n < 0x10_0000 {
        seq![(0xe0 + n / 0x1_0000) as u8, (n / 0x100 % 0x100) as u8, (n % 0x100) as u8]
    } else if n < 0x800_0000 {
        seq![
            (0xf0 + n / 0x100_0000) as u8,
            (n / 0x1_0000 % 0x100) as u8,
            (n / 0x100 % 0x100) as u8,
            (n % 0x100) as u8,
        ]
    } else {
        seq![
            (0xf8 + n / 0x1_0000_0000) as u8,
            (n / 0x100_0000 % 0x100) as u8,
            (n / 0x1_0000 % 0x100) as u8,
            (n / 0x100 % 0x100) as u8,
            (n % 0x100) as u8,
        ]
    }
}

/// The canonical encoding of an atom: `0x80` for the empty atom, the byte
/// itself for a single byte below `0x80`, else a length prefix and the bytes.
pub open spec fn atom_encoding(b: Seq<u8>) -> Seq<u8> {
    if b.len() == 0 {
        seq![0x80u8]
    } else if b.len() == 1 && b[0] < 0x80 {
        b
    } else {
        size_prefix(b.len()) + b
    }
}

pub open spec fn atom_encodable(b: Seq<u8>) -> bool {
    b.len() < MAX_ATOM_LEN
}

/// Every atom in the tree fits the length prefix.
pub open spec fn encodable(v: Value) -> bool
    decreases v,
{
    match v {
        Value::Atom(b) => atom_encodable(b),
        Value::Pair(l, r) => encodable(*l) && encodable(*r),
    }
}

/// The canonical encoding of a tree: `0xff`, then the left child, then the right child.
pub open spec fn encoding(v: Value) -> Seq<u8>
    decreases v,
{
    match v {
        Value::Atom(b) => atom_encoding(b),
        Value::Pair(l, r) => seq![0xffu8] + encoding(*l) + encoding(*r),
    }
}

/// `b` holds exactly the canonical encoding of `v`.
pub open spec fn decodes_to(b: Seq<u8>, v: Value) -> bool {
    encodable(v) && encoding(v) == b
}

/// The reasons a buffer is refused.
#[derive(Debug, PartialEq, Eq, Structural, Clone, Copy)]
pub enum FormatError {
    /// The buffer ends before the value it announces.
    Truncated,
    /// A leading byte that starts no value.
    BadPrefix,
    /// A value that is not in its one canonical form, or bytes after it.
    NotCanonical,
    /// An atom too long for the length prefix.
    AtomTooLong,
}

/// Relies on klvmr::serde::write_atom::write_atom: it appends the canonical
/// encoding of the atom (its length prefix, then its bytes) and refuses, before
/// writing anything, an atom of `MAX_ATOM_LEN` bytes or more. Writing to a
/// `Vec` does not fail.
#[verifier::external_body]
fn write_atom(buf: &mut Vec<u8>, atom: &[u8]) -> (r: Result<(), klvmr::error::EvalErr>)
    ensures
        r.is_ok() == atom_encodable(atom@),
        r.is_ok() ==> final(buf)@ == old(buf)@ + atom_encoding(atom@),
        !r.is_ok() ==> final(buf)@ == old(buf)@,
{
    klvmr::serde::write_atom::write_atom(buf, atom)
}

/// Appends the canonical encoding of one atom to `buf`.
pub fn push_atom(buf: &mut Vec<u8>, atom: &[u8]) -> (r: Result<(), FormatError>)
    ensures
        r is Ok == atom_encodable(atom@),
        r is Ok ==> final(buf)@ == old(buf)@ + atom_encoding(atom@),
        r is Err ==> final(buf)@ == old(buf)@,
{
    match write_atom(buf, atom) {
        Ok(()) => Ok(()),
        Err(_) => Err(FormatError::AtomTooLong),
    }
}

/// Appends the canonical encoding of `node` to `buf`.
pub fn encode(node: &Obj, buf: &mut Vec<u8>)
    requires
        encodable(node@),
    ensures
        final(buf)@ == old(buf)@ + encoding(node@),
    decreases node,
{
    match node {
        Obj::Atom(a) => {
            let _ = push_atom(buf, a.as_slice());
        },
        Obj::Pair(l, r) => {
            let ghost b0 = buf@;
            buf.push(0xff);
            encode(&**l, buf);
            encode(&**r, buf);
            assert(buf@ =~= b0 + encoding(node@));
        },
    }
}

/// The canonical encoding of `node`.
pub fn node_to_bytes(node: &Obj) -> (r: Vec<u8>)
    requires
        encodable(node@),
    ensures
        r@ == encoding(node@),
{
    let mut buf: Vec<u8> = Vec::new();
    encode(node, &mut buf);
    assert(buf@ =~= encoding(node@));
    buf
}

/// `e` stands in `b` at `pos`.
pub open spec fn encoded_at(b: Seq<u8>, pos: int, e: Seq<u8>) -> bool {
    0 <= pos && pos + e.len() <= b.len() && b.subrange(pos, pos + e.len()) == e
}

/// Bytes in the length prefix that starts with `b0` (for `0x80 < b0 < 0xfc`).
pub open spec fn prefix_size(b0: u8) -> nat {
    if b0 < 0xc0 {
        1
    } else if b0 < 0xe0 {
        2
    } else if b0 < 0xf0 {
        3
    } else if b0 < 0xf8 {
        4
    } else {
        5
    }
}

/// The atom length that the prefix at `pos` announces.
pub open spec fn prefix_value(b: Seq<u8>, pos: int) -> nat {
    let b0 = b[pos] as nat;
    if b0 < 0xc0 {
        (b0 - 0x80) as nat
    } else if b0 < 0xe0 {
        ((b0 - 0xc0) * 0x100 + b[pos + 1]) as nat
    } else if b0 < 0xf0 {
        ((b0 - 0xe0) * 0x1_0000 + b[pos + 1] * 0x100 + b[pos + 2]) as nat
    } else if b0 < 0xf8 {
        ((b0 - 0xf0) * 0x100_0000 + b[pos + 1] * 0x1_0000 + b[pos + 2] * 0x100 + b[pos + 3]) as nat
    } else {
        ((b0 - 0xf8) * 0x1_0000_0000 + b[pos + 1] * 0x100_0000 + b[pos + 2] * 0x1_0000 + b[pos
            + 3] * 0x100 + b[pos + 4]) as nat
    }
}

proof fn lemma_sub(b: Seq<u8>, pos: int, s: Seq<u8>, i: int, j: int)
    requires
        encoded_at(b, pos, s),
        0 <= i <= j <= s.len(),
    ensures
        b.subrange(pos + i, pos + j) == s.subrange(i, j),
{
    assert(b.subrange(pos + i, pos + j) =~= b.subrange(pos, pos + s.len()).subrange(i, j));
}

proof fn lemma_prefix_bytes(n: nat)
    requires
        0 < n < MAX_ATOM_LEN,
    ensures
        size_prefix(n).len() == prefix_size(size_prefix(n)[0]),
        0x80 < size_prefix(n)[0] < 0xfc,
        n == prefix_value(size_prefix(n), 0),
{
    let p = size_prefix(n);
    if n < 0x40 {
    } else if n < 0x2000 {
        assert(n == (n / 0x100) * 0x100 + n % 0x100);
    } else if n < 0x10_0000 {
        assert(n == (n / 0x1_0000) * 0x1_0000 + (n / 0x100 % 0x100) * 0x100 + n % 0x100)
            by (nonlinear_arith)
            requires
                n < 0x10_0000,
        ;
    } else if n < 0x800_0000 {
        assert(n == (n / 0x100_0000) * 0x100_0000 + (n / 0x1_0000 % 0x100) * 0x1_0000 + (n / 0x100
            % 0x100) * 0x100 + n % 0x100) by (nonlinear_arith)
            requires
                n < 0x800_0000,
        ;
    } else {
        assert(n == (n / 0x1_0000_0000) * 0x1_0000_0000 + (n / 0x100_0000 % 0x100) * 0x100_0000 + (n
            / 0x1_0000 % 0x100) * 0x1_0000 + (n / 0x100 % 0x100) * 0x100 + n % 0x100)
            by (nonlinear_arith)
            requires
                n < MAX_ATOM_LEN,
        ;
    }
}

/// What an atom's encoding standing at `pos` shows in its first bytes.
proof fn lemma_atom_at(b: Seq<u8>, pos: int, a: Seq<u8>)
    requires
        atom_encodable(a),
        encoded_at(b, pos, atom_encoding(a)),
    ensures
        pos < b.len(),
        b[pos] != 0xff,
        a.len() == 0 ==> b[pos] == 0x80,
        a.len() == 1 && a[0] < 0x80 ==> b[pos] == a[0] && a == seq![b[pos]],
        !(a.len() == 0) && !(a.len() == 1 && a[0] < 0x80) ==> {
            &&& 0x80 < b[pos] < 0xfc
            &&& pos + prefix_size(b[pos]) + a.len() <= b.len()
            &&& atom_encoding(a).len() == prefix_size(b[pos]) + a.len()
            &&& prefix_value(b, pos) == a.len()
            &&& b.subrange(pos + prefix_size(b[pos]), pos + prefix_size(b[pos]) + a.len()) == a
        },
{
    let e = atom_encoding(a);
    assert(b[pos] == b.subrange(pos, pos + e.len())[0]);
    if a.len() == 0 {
    } else if a.len() == 1 && a[0] < 0x80 {
        assert(a =~= seq![b[pos]]);
    } else {
        let p = size_prefix(a.len());
        lemma_prefix_bytes(a.len());
        lemma_sub(b, pos, e, 0, p.len() as int);
        assert(e.subrange(0, p.len() as int) =~= p);
        let k = p.len() as int;
        assert forall|i: int| 0 <= i < k implies b[pos + i] == p[i] by {
            assert(b.subrange(pos, pos + k)[i] == b[pos + i]);
        }
        lemma_sub(b, pos, e, k, e.len() as int);
        assert(e.subrange(k, e.len() as int) =~= a);
    }
}

proof fn lemma_encoding_nonempty(v: Value)
    requires
        encodable(v),
    ensures
        encoding(v).len() >= 1,
        v is Pair <==> encoding(v)[0] == 0xff,
{
    match v {
        Value::Atom(a) => {
            if a.len() != 0 && !(a.len() == 1 && a[0] < 0x80) {
                lemma_prefix_bytes(a.len());
            }
        },
        Value::Pair(_, _) => {},
    }
}

fn copy_range(b: &[u8], start: usize, end: usize) -> (r: Vec<u8>)
    requires
        start <= end <= b@.len(),
    ensures
        r@ == b@.subrange(start as int, end as int),
{
    let mut r: Vec<u8> = Vec::new();
    let mut i: usize = start;
    while i < end
        invariant
            start <= i <= end,
            end <= b@.len(),
            r@ == b@.subrange(start as int, i as int),
        decreases end - i,
    {
        r.push(b[i]);
        i = i + 1;
        assert(r@ =~= b@.subrange(start as int, i as int));
    }
    r
}

/// Reads one atom at `pos`. On a canonical encoding it returns that atom and
/// the position after it.
fn parse_atom(b: &[u8], pos: usize) -> (r: Result<(Vec<u8>, usize), FormatError>)
    requires
        pos < b@.len(),
        b@[pos as int] != 0xff,
    ensures
        0xfc <= b@[pos as int] <==> r == Err::<(Vec<u8>, usize), FormatError>(FormatError::BadPrefix),
        r matches Ok((a, e)) ==> (pos < e <= b@.len() && atom_encodable(a@)),
        forall|a: Seq<u8>|
            atom_encodable(a) && #[trigger] encoded_at(b@, pos as int, atom_encoding(a)) ==> (r matches Ok((x, e)) && x@ == a && e == pos + atom_encoding(a).len()),
{
    let b0 = b[pos];
    if b0 == 0x80 {
        let r = Vec::new();
        proof {
            assert forall|a: Seq<u8>|
                atom_encodable(a) && #[trigger] encoded_at(b@, pos as int, atom_encoding(a)) implies
                a =~= r@ && atom_encoding(a).len() == 1 by {
                lemma_atom_at(b@, pos as int, a);
            }
        }
        return Ok((r, pos + 1));
    }
    if b0 < 0x80 {
        let mut r = Vec::new();
        r.push(b0);
        proof {
            assert forall|a: Seq<u8>|
                atom_encodable(a) && #[trigger] encoded_at(b@, pos as int, atom_encoding(a)) implies
                a =~= r@ && atom_encoding(a).len() == 1 by {
                lemma_atom_at(b@, pos as int, a);
            }
        }
        return Ok((r, pos + 1));
    }
    if b0 >= 0xfc {
        proof {
            assert forall|a: Seq<u8>|
                atom_encodable(a) && #[trigger] encoded_at(b@, pos as int, atom_encoding(a)) implies
                false by {
                lemma_atom_at(b@, pos as int, a);
            }
        }
        return Err(FormatError::BadPrefix);
    }
    let hdr: usize = if b0 < 0xc0 {
        1
    } else if b0 < 0xe0 {
        2
    } else if b0 < 0xf0 {
        3
    } else if b0 < 0xf8 {
        4
    } else {
        5
    };
    if b.len() - pos < hdr {
        proof {
            assert forall|a: Seq<u8>|
                atom_encodable(a) && #[trigger] encoded_at(b@, pos as int, atom_encoding(a)) implies
                false by {
                lemma_atom_at(b@, pos as int, a);
            }
        }
        return Err(FormatError::Truncated);
    }
    let n: u64 = if b0 < 0xc0 {
        (b0 - 0x80) as u64
    } else if b0 < 0xe0 {
        (b0 - 0xc0) as u64 * 0x100 + b[pos + 1] as u64
    } else if b0 < 0xf0 {
        (b0 - 0xe0) as u64 * 0x1_0000 + b[pos + 1] as u64 * 0x100 + b[pos + 2] as u64
    } else if b0 < 0xf8 {
        (b0 - 0xf0) as u64 * 0x100_0000 + b[pos + 1] as u64 * 0x1_0000 + b[pos + 2] as u64 * 0x100
            + b[pos + 3] as u64
    } else {
        (b0 - 0xf8) as u64 * 0x1_0000_0000 + b[pos + 1] as u64 * 0x100_0000 + b[pos + 2] as u64
            * 0x1_0000 + b[pos + 3] as u64 * 0x100 + b[pos + 4] as u64
    };
    assert(n == prefix_value(b@, pos as int));
    assert(n < MAX_ATOM_LEN);
    let start: usize = pos + hdr;
    if ((b.len() - start) as u64) < n {
        proof {
            assert forall|a: Seq<u8>|
                atom_encodable(a) && #[trigger] encoded_at(b@, pos as int, atom_encoding(a)) implies
                false by {
                lemma_atom_at(b@, pos as int, a);
            }
        }
        return Err(FormatError::Truncated);
    }
    let end: usize = start + n as usize;
    let r = copy_range(b, start, end);
    proof {
        assert forall|a: Seq<u8>|
            atom_encodable(a) && #[trigger] encoded_at(b@, pos as int, atom_encoding(a)) implies a
            == r@ && end == pos + atom_encoding(a).len() by {
            lemma_atom_at(b@, pos as int, a);
        }
    }
    Ok((r, end))
}

/// Reads one tree at `pos`. On a canonical encoding it returns that tree and
/// the position after it.
fn parse(b: &[u8], pos: usize) -> (r: Result<(Obj, usize), FormatError>)
    requires
        pos <= b@.len(),
    ensures
        pos == b@.len() ==> r == Err::<(Obj, usize), FormatError>(FormatError::Truncated),
        pos < b@.len() && 0xfc <= b@[pos as int] < 0xff ==> r == Err::<(Obj, usize), FormatError>(
            FormatError::BadPrefix,
        ),
        r == Err::<(Obj, usize), FormatError>(FormatError::BadPrefix) ==> exists|i: int|
            pos <= i < b@.len() && 0xfc <= #[trigger] b@[i] < 0xff,
        r matches Ok((o, e)) ==> (pos < e <= b@.len() && encodable(o@)),
        forall|v: Value|
            encodable(v) && #[trigger] encoded_at(b@, pos as int, encoding(v)) ==> (r matches Ok(
                (o, e),
            ) && o@ == v && e == pos + encoding(v).len()),
    decreases b@.len() - pos,
{
    if pos >= b.len() {
        proof {
            assert forall|v: Value| encodable(v) && #[trigger] encoded_at(b@, pos as int, encoding(v))
                implies false by {
                lemma_encoding_nonempty(v);
            }
        }
        return Err(FormatError::Truncated);
    }
    if b[pos] == 0xff {
        let left = parse(b, pos + 1);
        match left {
            Err(e) => {
                proof {
                    assert forall|v: Value|
                        encodable(v) && #[trigger] encoded_at(b@, pos as int, encoding(v)) implies false by {
                        lemma_pair_at(b@, pos as int, v);
                    }
                }
                Err(e)
            },
            Ok((l, e1)) => {
                let right = parse(b, e1);
                match right {
                    Err(e) => {
                        proof {
                            assert forall|v: Value|
                                encodable(v) && #[trigger] encoded_at(b@, pos as int, encoding(v)) implies false by {
                                lemma_pair_at(b@, pos as int, v);
                                let lv = *v->Pair_0;
                                let rv = *v->Pair_1;
                                assert(encoded_at(b@, pos + 1, encoding(lv)));
                                assert(encoded_at(b@, e1 as int, encoding(rv)));
                            }
                        }
                        Err(e)
                    },
                    Ok((rt, e2)) => {
                        let o = Obj::Pair(Box::new(l), Box::new(rt));
                        proof {
                            assert forall|v: Value|
                                encodable(v) && #[trigger] encoded_at(b@, pos as int, encoding(v)) implies o@
                                == v && e2 == pos + encoding(v).len() by {
                                lemma_pair_at(b@, pos as int, v);
                                let lv = *v->Pair_0;
                                let rv = *v->Pair_1;
                                assert(encoded_at(b@, pos + 1, encoding(lv)));
                                assert(encoded_at(b@, e1 as int, encoding(rv)));
                            }
                        }
                        Ok((o, e2))
                    },
                }
            },
        }
    } else {
        match parse_atom(b, pos) {
            Err(e) => {
                proof {
                    assert forall|v: Value|
                        encodable(v) && #[trigger] encoded_at(b@, pos as int, encoding(v)) implies false by {
                        lemma_encoding_nonempty(v);
                        assert(b@[pos as int] == b@.subrange(pos as int, pos + encoding(v).len())[0]);
                        let a = v->Atom_0;
                        assert(encoded_at(b@, pos as int, atom_encoding(a)));
                    }
                }
                Err(e)
            },
            Ok((a, e)) => {
                let o = Obj::Atom(a);
                proof {
                    assert forall|v: Value|
                        encodable(v) && #[trigger] encoded_at(b@, pos as int, encoding(v)) implies o@ == v
                        && e == pos + encoding(v).len() by {
                        lemma_encoding_nonempty(v);
                        assert(b@[pos as int] == b@.subrange(pos as int, pos + encoding(v).len())[0]);
                        let av = v->Atom_0;
                        assert(encoded_at(b@, pos as int, atom_encoding(av)));
                    }
                }
                Ok((o, e))
            },
        }
    }
}

/// A pair's encoding standing at `pos` holds its children's encodings right after `0xff`.
proof fn lemma_pair_at(b: Seq<u8>, pos: int, v: Value)
    requires
        encodable(v),
        encoded_at(b, pos, encoding(v)),
        pos < b.len(),
        b[pos] == 0xff,
    ensures
        v is Pair,
        encoded_at(b, pos + 1, encoding(*v->Pair_0)),
        encoded_at(b, pos + 1 + encoding(*v->Pair_0).len(), encoding(*v->Pair_1)),
        encoding(v).len() == 1 + encoding(*v->Pair_0).len() + encoding(*v->Pair_1).len(),
{
    lemma_encoding_nonempty(v);
    assert(b[pos] == b.subrange(pos, pos + encoding(v).len())[0]);
    let e = encoding(v);
    let el = encoding(*v->Pair_0);
    let er = encoding(*v->Pair_1);
    let k: int = 1 + el.len() as int;
    lemma_sub(b, pos, e, 1, k);
    assert(e.subrange(1, k) =~= el);
    lemma_sub(b, pos, e, k, e.len() as int);
    assert(e.subrange(k, e.len() as int) =~= er);
}

fn bytes_equal(a: &Vec<u8>, b: &[u8]) -> (r: bool)
    ensures
        r == (a@ == b@),
{
    if a.len() != b.len() {
        return false;
    }
    let mut i: usize = 0;
    while i < a.len()
        invariant
            i <= a@.len(),
            a@.len() == b@.len(),
            a@.subrange(0, i as int) == b@.subrange(0, i as int),
        decreases a@.len() - i,
    {
        if a[i] != b[i] {
            return false;
        }
        assert(a@.subrange(0, i + 1) =~= a@.subrange(0, i as int).push(a@[i as int]));
        assert(b@.subrange(0, i + 1) =~= b@.subrange(0, i as int).push(b@[i as int]));
        i = i + 1;
    }
    assert(a@ =~= a@.subrange(0, i as int));
    assert(b@ =~= b@.subrange(0, i as int));
    true
}

/// Decodes a buffer that holds exactly one canonically encoded tree.
/// Pairs are read by recursion, one call per level of nesting.
///
/// It succeeds exactly on the canonical encodings, and then returns the one
/// tree whose encoding the buffer is: decoding the encoding of a tree gives
/// that tree back, and re-encoding what was decoded gives the buffer back.
pub fn node_from_bytes(b: &[u8]) -> (r: Result<Obj, FormatError>)
    ensures
        r matches Ok(o) ==> decodes_to(b@, o@),
        forall|v: Value| #[trigger] decodes_to(b@, v) ==> (r matches Ok(o) && o@ == v),
        r is Err <==> !exists|v: Value| #[trigger] decodes_to(b@, v),
        b@.len() == 0 ==> r == Err::<Obj, FormatError>(FormatError::Truncated),
        b@.len() > 0 && 0xfc <= b@[0] < 0xff ==> r == Err::<Obj, FormatError>(FormatError::BadPrefix),
        r == Err::<Obj, FormatError>(FormatError::BadPrefix) ==> exists|i: int|
            0 <= i < b@.len() && 0xfc <= #[trigger] b@[i] < 0xff,
{
    proof {
        assert forall|v: Value| #[trigger] decodes_to(b@, v) implies encoded_at(b@, 0, encoding(v)) by {
            assert(b@.subrange(0, b@.len() as int) =~= b@);
        }
    }
    match parse(b, 0) {
        Err(e) => Err(e),
        Ok((o, end)) => {
            if end != b.len() {
                return Err(FormatError::NotCanonical);
            }
            let enc = node_to_bytes(&o);
            if !bytes_equal(&enc, b) {
                return Err(FormatError::NotCanonical);
            }
            assert(decodes_to(b@, o@));
            Ok(o)
        },
    }
}

/// Two trees whose encodings stand at the same place are the same tree.
proof fn lemma_encoded_at_unique(b: Seq<u8>, pos: int, v: Value, w: Value)
    requires
        encodable(v),
        encodable(w),
        encoded_at(b, pos, encoding(v)),
        encoded_at(b, pos, encoding(w)),
    ensures
        v == w,
    decreases v,
{
    lemma_encoding_nonempty(v);
    lemma_encoding_nonempty(w);
    assert(b[pos] == b.subrange(pos, pos + encoding(v).len())[0]);
    assert(b[pos] == b.subrange(pos, pos + encoding(w).len())[0]);
    match v {
        Value::Pair(lv, rv) => {
            lemma_pair_at(b, pos, v);
            lemma_pair_at(b, pos, w);
            lemma_encoded_at_unique(b, pos + 1, *lv, *w->Pair_0);
            lemma_encoded_at_unique(b, pos + 1 + encoding(*lv).len(), *rv, *w->Pair_1);
        },
        Value::Atom(a) => {
            let c = w->Atom_0;
            lemma_atom_at(b, pos, a);
            lemma_atom_at(b, pos, c);
            if a.len() == 0 || c.len() == 0 {
                assert(a =~= c);
            }
        },
    }
}

/// Round trip: the canonical encoding of an encodable tree decodes to that
/// tree and to no other.
pub proof fn lemma_round_trip(v: Value, w: Value)
    requires
        encodable(v),
        decodes_to(encoding(v), w),
    ensures
        w == v,
{
    let b = encoding(v);
    assert(b.subrange(0, b.len() as int) =~= b);
    lemma_encoded_at_unique(b, 0, v, w);
}

/// Canonical uniqueness: a buffer decodes to at most one tree, and two buffers
/// that decode to the same tree are the same bytes.
pub proof fn lemma_canonical_unique(b1: Seq<u8>, b2: Seq<u8>, v: Value, w: Value)
    requires
        decodes_to(b1, v),
        decodes_to(b2, w),
    ensures
        b1 == b2 <==> v == w,
{
    if b1 == b2 {
        assert(b1.subrange(0, b1.len() as int) =~= b1);
        lemma_encoded_at_unique(b1, 0, v, w);
    }
}

} // verus!
