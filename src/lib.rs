//! A mid-level compiler for tensor computations: a tensor front-end that
//! records operations into a flat graph, an attributed graph IR with type
//! rules and storage cost estimation, reversible range transformations, and
//! the loop-level language that code generation consumes.
mod svec;
pub mod graph_ir;
pub mod pre;
pub mod ker;
pub mod range;
pub mod stream_ir;
pub mod mm;
pub mod arena;

use vstd::prelude::*;
use sha2::Digest;

pub use svec::{IdxOrder, Dims, Operands, Consumers, Predicates};

verus! {

/// A stream program, named by a digest of its description.
#[derive(Debug, Clone, Copy, PartialEq, Eq, Structural)]
pub struct StreamIR {
    pub vcount: usize,
}

/// The decimal digits of `n`, as ASCII bytes.
pub open spec fn decimal(n: nat) -> Seq<u8>
    decreases n,
{
    if n < 10 {
        seq![(48 + n) as u8]
    } else {
        decimal(n / 10) + seq![(48 + n % 10) as u8]
    }
}

/// The description of a stream program that its name is derived from:
/// `StreamIR { vcount: <decimal> }` in ASCII.
pub open spec fn description(vcount: nat) -> Seq<u8> {
    seq![83u8, 116, 114, 101, 97, 109, 73, 82, 32, 123, 32, 118, 99, 111, 117, 110, 116, 58, 32] + decimal(vcount)
        + seq![32u8, 125]
}

/// The lowercase hexadecimal digit of `d`.
pub open spec fn hex_digit(d: nat) -> char {
    if d < 10 {
        ((48 + d) as u8) as char
    } else {
        ((87 + d) as u8) as char
    }
}

/// A byte in lowercase hexadecimal, without leading zero.
pub open spec fn hex_byte(b: u8) -> Seq<char> {
    if b < 16 {
        seq![hex_digit(b as nat)]
    } else {
        seq![hex_digit((b / 16) as nat), hex_digit((b % 16) as nat)]
    }
}

/// The bytes of `d` in turn, each as `hex_byte`.
pub open spec fn hex_bytes(d: Seq<u8>) -> Seq<char>
    decreases d.len(),
{
    if d.len() == 0 {
        Seq::empty()
    } else {
        hex_bytes(d.drop_last()) + hex_byte(d.last())
    }
}

/// The name given to a digest: `__` followed by `hex_bytes`.
pub open spec fn digest_name(d: Seq<u8>) -> Seq<char> {
    seq!['_', '_'] + hex_bytes(d)
}

/// The SHA-256 digest of the bytes.
pub uninterp spec fn sha256_of(data: Seq<u8>) -> Seq<u8>;

/// Relies on `sha2::Sha256::digest`: the SHA-256 digest of the data, whose
/// output size is 32 bytes.
#[verifier::external_body]
fn sha256_digest(data: &[u8]) -> (r: Vec<u8>)
    ensures
        r@ == sha256_of(data@),
        r@.len() == 32,
{
    sha2::Sha256::digest(data).to_vec()
}

/// Appends the decimal digits of `n`.
fn push_decimal(n: usize, out: &mut Vec<u8>)
    ensures
        final(out)@ == old(out)@ + decimal(n as nat),
    decreases n,
{
    if n >= 10 {
        push_decimal(n / 10, out);
    }
    out.push((48 + n % 10) as u8);
    proof {
        if n >= 10 {
            assert(final(out)@ =~= old(out)@ + decimal(n as nat));
        } else {
            assert(final(out)@ =~= old(out)@ + decimal(n as nat));
        }
    }
}

/// The lowercase hexadecimal digit of `d`, as a string.
fn hex_str(d: u8) -> (r: &'static str)
    requires
        d < 16,
    ensures
        r@ == seq![hex_digit(d as nat)],
{
    proof {
        reveal_strlit("0");
        reveal_strlit("1");
        reveal_strlit("2");
        reveal_strlit("3");
        reveal_strlit("4");
        reveal_strlit("5");
        reveal_strlit("6");
        reveal_strlit("7");
        reveal_strlit("8");
        reveal_strlit("9");
        reveal_strlit("a");
        reveal_strlit("b");
        reveal_strlit("c");
        reveal_strlit("d");
        reveal_strlit("e");
        reveal_strlit("f");
    }
    let r = match d {
        0 => "0",
        1 => "1",
        2 => "2",
        3 => "3",
        4 => "4",
        5 => "5",
        6 => "6",
        7 => "7",
        8 => "8",
        9 => "9",
        10 => "a",
        11 => "b",
        12 => "c",
        13 => "d",
        14 => "e",
        _ => "f",
    };
    assert(r@ =~= seq![hex_digit(d as nat)]);
    r
}

/// The name for a digest (see `digest_name`).
pub fn name_from_digest(digest: &[u8]) -> (r: String)
    ensures
        r@ == digest_name(digest@),
{
    proof {
        reveal_strlit("__");
    }
    let mut name = String::from_str("__");
    let mut i: usize = 0;
    while i < digest.len()
        invariant
            i <= digest@.len(),
            name@ == seq!['_', '_'] + hex_bytes(digest@.take(i as int)),
        decreases digest@.len() - i,
    {
        let b = digest[i];
        let ghost before = name@;
        if b >= 16 {
            name.append(hex_str(b / 16));
        }
        name.append(hex_str(b % 16));
        proof {
            assert(digest@.take(i + 1).drop_last() =~= digest@.take(i as int));
            assert(name@ =~= before + hex_byte(b));
        }
        i = i + 1;
    }
    assert(digest@.take(i as int) =~= digest@);
    name
}

impl StreamIR {
    /// The description that names the program (see `description`).
    pub fn describe(&self) -> (r: Vec<u8>)
        ensures
            r@ == description(self.vcount as nat),
    {
        let mut out: Vec<u8> = Vec::new();
        let prefix: [u8; 19] = [83, 116, 114, 101, 97, 109, 73, 82, 32, 123, 32, 118, 99, 111, 117, 110, 116, 58, 32];
        let mut i: usize = 0;
        while i < 19
            invariant
                i <= 19,
                prefix@ == seq![83u8, 116, 114, 101, 97, 109, 73, 82, 32, 123, 32, 118, 99, 111, 117, 110, 116, 58, 32],
                out@ == prefix@.take(i as int),
            decreases 19 - i,
        {
            out.push(prefix[i]);
            i = i + 1;
            assert(out@ =~= prefix@.take(i as int));
        }
        assert(prefix@.take(19) =~= prefix@);
        push_decimal(self.vcount, &mut out);
        out.push(32);
        out.push(125);
        assert(out@ =~= description(self.vcount as nat));
        out
    }

    /// The program's name: `__` followed by the SHA-256 digest of its
    /// description in unpadded lowercase hexadecimal, byte by byte.
    pub fn sha256(&self) -> (r: String)
        ensures
            r@ == digest_name(sha256_of(description(self.vcount as nat))),
    {
        let text = self.describe();
        let digest = sha256_digest(text.as_slice());
        name_from_digest(digest.as_slice())
    }
}

} // verus!
