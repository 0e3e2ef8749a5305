use vstd::prelude::*;

use rand::rngs::StdRng;
use sha1::Digest;

use crate::catalog::OperatorInfo;
use crate::codec::decodes_to;
use crate::generator::{call_typed, generate_args, generate_program, generator_ready, list_of, quoted_typed};
use crate::sexp::Value;

verus! {

/// The SHA-1 digest of a byte string.
pub uninterp spec fn sha1_of(b: Seq<u8>) -> Seq<u8>;

/// Relies on sha1::Sha1 through digest::Digest::digest: the 20-byte SHA-1
/// digest of the bytes, a function of the bytes alone.
#[verifier::external_body]
fn sha1_digest(b: &[u8]) -> (r: Vec<u8>)
    ensures
        r@ == sha1_of(b@),
        r@.len() == 20,
{
    sha1::Sha1::digest(b).to_vec()
}

/// The lower-case hex digit of `d` (`d < 16`).
pub open spec fn hex_digit(d: int) -> char {
    seq!['0', '1', '2', '3', '4', '5', '6', '7', '8', '9', 'a', 'b', 'c', 'd', 'e', 'f'][d]
}

/// Two lower-case hex digits per byte, the high half first.
pub open spec fn hex_spec(b: Seq<u8>) -> Seq<char> {
    Seq::new(
        2 * b.len(),
        |i: int|
            if i % 2 == 0 {
                hex_digit(b[i / 2] as int / 16)
            } else {
                hex_digit(b[i / 2] as int % 16)
            },
    )
}

/// Relies on hex::encode: two lower-case hex digits per byte, the high half first.
#[verifier::external_body]
fn to_hex(b: &[u8]) -> (r: String)
    ensures
        r@ == hex_spec(b@),
{
    hex::encode(b)
}

/// The file name for a digest: the digest in lower-case hex.
pub fn name_of_digest(digest: &[u8]) -> (r: String)
    ensures
        r@ == hex_spec(digest@),
{
    to_hex(digest)
}

/// The file name of a corpus sample: the hex of the SHA-1 digest of its bytes.
pub fn filename(buffer: &[u8]) -> (r: String)
    ensures
        r@ == hex_spec(sha1_of(buffer@)),
        r@.len() == 40,
{
    let d = sha1_digest(buffer);
    name_of_digest(d.as_slice())
}

/// Content addressing: the name of a sample is a function of its bytes, so a
/// program generated twice lands in one file.
pub proof fn lemma_same_bytes_same_name(a: Seq<u8>, b: Seq<u8>)
    requires
        a == b,
    ensures
        hex_spec(sha1_of(a)) == hex_spec(sha1_of(b)),
{
}

/// The `i`-th program sample: a call of catalog entry `i % ops.len()`.
pub fn program_sample(ops: &Vec<OperatorInfo>, i: usize, rng: &mut StdRng, depth: u32) -> (r: Vec<u8>)
    requires
        generator_ready(ops@),
    ensures
        exists|v: Value| #[trigger] decodes_to(r@, v) && call_typed(v, (i as int % ops@.len() as int), ops@),
{
    let mut buffer: Vec<u8> = Vec::new();
    generate_program(ops, i % ops.len(), rng, &mut buffer, depth);
    proof {
        let v = choose|v: Value| #[trigger] crate::generator::emits(Seq::empty(), buffer@, v) && call_typed(
            v,
            (i as int % ops@.len() as int),
            ops@,
        );
        assert(buffer@ =~= crate::codec::encoding(v));
        assert(decodes_to(buffer@, v));
    }
    buffer
}

/// The `i`-th operator-argument sample: the quoted operand list of catalog
/// entry `i % ops.len()`.
pub fn args_sample(ops: &Vec<OperatorInfo>, i: usize, rng: &mut StdRng, depth: u32) -> (r: Vec<u8>)
    requires
        generator_ready(ops@),
    ensures
        exists|items: Seq<Value>|
            #[trigger] decodes_to(r@, list_of(items)) && items.len() == ops@[(i as int % ops@.len() as int)].operands@.len()
                && forall|j: int|
                0 <= j < items.len() ==> quoted_typed(
                    items[j],
                    ops@[(i as int % ops@.len() as int)].operands@[j],
                    ops@,
                ),
{
    let mut buffer: Vec<u8> = Vec::new();
    let k = i % ops.len();
    generate_args(ops, k, rng, &mut buffer, depth);
    proof {
        let items = choose|items: Seq<Value>|
            #[trigger] crate::generator::emits(Seq::empty(), buffer@, list_of(items)) && items.len()
                == ops@[k as int].operands@.len() && forall|j: int|
                0 <= j < items.len() ==> quoted_typed(items[j], ops@[k as int].operands@[j], ops@);
        assert(buffer@ =~= crate::codec::encoding(list_of(items)));
        assert(decodes_to(buffer@, list_of(items)));
    }
    buffer
}

} // verus!
