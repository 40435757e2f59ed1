//! Content hashes: SHA-256 digests written as `sha256:` and 64 hexadecimal digits.
use sha2::{Digest, Sha256};
use vstd::prelude::*;
use vstd::string::*;
use crate::text::cat2;

verus! {

/// The SHA-256 digest of a byte string.
pub uninterp spec fn sha256_of(bytes: Seq<u8>) -> Seq<u8>;

/// Calls `Sha256::digest`: the digest is a function of the bytes, and 32 bytes long.
#[verifier::external_body]
fn sha256(bytes: &Vec<u8>) -> (r: Vec<u8>)
    ensures
        r@ == sha256_of(bytes@),
        r@.len() == 32,
{
    Sha256::digest(bytes.as_slice()).to_vec()
}

pub open spec fn hex_char(d: int) -> char {
    if d == 0 {
        '0'
    } else if d == 1 {
        '1'
    } else if d == 2 {
        '2'
    } else if d == 3 {
        '3'
    } else if d == 4 {
        '4'
    } else if d == 5 {
        '5'
    } else if d == 6 {
        '6'
    } else if d == 7 {
        '7'
    } else if d == 8 {
        '8'
    } else if d == 9 {
        '9'
    } else if d == 10 {
        'a'
    } else if d == 11 {
        'b'
    } else if d == 12 {
        'c'
    } else if d == 13 {
        'd'
    } else if d == 14 {
        'e'
    } else {
        'f'
    }
}

/// Two digits for every byte, the high one first.
pub open spec fn hex(bytes: Seq<u8>) -> Seq<char>
    decreases bytes.len(),
{
    if bytes.len() == 0 {
        Seq::empty()
    } else {
        let b = bytes.last() as int;
        hex(bytes.drop_last()).push(hex_char(b / 16)).push(hex_char(b % 16))
    }
}

fn hex_digit(d: u8) -> (r: &'static str)
    requires
        d < 16,
    ensures
        r@ == seq![hex_char(d as int)],
{
    proof {
        reveal_strlit("0");
        reveal_strlit("1");
        reveal_strlit("2");
        reveal_strlit("3");
        reveal_strlit("4");
        reveal_strlit("5");
        reveal_strlit("6");
        reveal_strlit("7");
        reveal_strlit("8");
        reveal_strlit("9");
        reveal_strlit("a");
        reveal_strlit("b");
        reveal_strlit("c");
        reveal_strlit("d");
        reveal_strlit("e");
        reveal_strlit("f");
    }
    let r = match d {
        0 => "0",
        1 => "1",
        2 => "2",
        3 => "3",
        4 => "4",
        5 => "5",
        6 => "6",
        7 => "7",
        8 => "8",
        9 => "9",
        10 => "a",
        11 => "b",
        12 => "c",
        13 => "d",
        14 => "e",
        _ => "f",
    };
    assert(r@ =~= seq![hex_char(d as int)]);
    r
}

pub fn to_hex(bytes: &Vec<u8>) -> (r: String)
    ensures
        r@ == hex(bytes@),
{
    let mut out = String::new();
    let mut i: usize = 0;
    while i < bytes.len()
        invariant
            i <= bytes@.len(),
            out@ == hex(bytes@.take(i as int)),
        decreases bytes@.len() - i,
    {
        let b: u8 = bytes[i];
        let ghost before = out@;
        out.append(hex_digit(b / 16));
        out.append(hex_digit(b % 16));
        i = i + 1;
        proof {
            assert(bytes@.take(i as int).drop_last() =~= bytes@.take(i - 1));
            assert(out@ =~= before.push(hex_char(b as int / 16)).push(hex_char(b as int % 16)));
        }
    }
    proof {
        assert(bytes@.take(i as int) =~= bytes@);
    }
    out
}

/// The content hash of a byte string.
pub open spec fn hash_text(bytes: Seq<u8>) -> Seq<char> {
    "sha256:"@ + hex(sha256_of(bytes))
}

/// A small letter or figure of a hexadecimal number.
pub open spec fn is_hex(c: char) -> bool {
    ('0' <= c <= '9') || ('a' <= c <= 'f')
}

/// `sha256:` and 64 hexadecimal digits.
pub open spec fn is_hash(s: Seq<char>) -> bool {
    &&& s.len() == 71
    &&& s.take(7) == "sha256:"@
    &&& forall|i: int| 7 <= i < s.len() ==> is_hex(#[trigger] s[i])
}

/// `sha256:` and the digest of `bytes` in hexadecimal.
pub fn content_hash(bytes: &Vec<u8>) -> (r: String)
    ensures
        r@ == hash_text(bytes@),
        is_hash(r@),
{
    let digest = sha256(bytes);
    let hexed = to_hex(&digest);
    proof {
        reveal_strlit("sha256:");
        lemma_hex_len(digest@);
        lemma_hex_digits(digest@);
    }
    let r = cat2("sha256:", hexed.as_str());
    assert(r@.take(7) =~= "sha256:"@);
    assert forall|i: int| 7 <= i < r@.len() implies is_hex(#[trigger] r@[i]) by {
        assert(r@[i] == hexed@[i - 7]);
    }
    r
}

/// The content hash of the characters of `text`, in UTF-8.
pub fn text_hash(text: &str) -> (r: String)
    ensures
        r@ == hash_text(text.spec_bytes()),
{
    content_hash(&text.as_bytes_vec())
}

/// What identifies a kernel: its body without source locations, its buffers and scalars,
/// and its block size, one after the other.
pub open spec fn kernel_bytes(
    body: Seq<u8>,
    buffers: Seq<u8>,
    scalars: Seq<u8>,
    cube_dim: Seq<u8>,
) -> Seq<u8> {
    body + buffers + scalars + cube_dim
}

/// The hash of what a kernel means, from the bytes of its parts. The name of the kernel and
/// its options are no part of it.
pub fn kernel_ir_hash(
    body: &Vec<u8>,
    buffers: &Vec<u8>,
    scalars: &Vec<u8>,
    cube_dim: &Vec<u8>,
) -> (r: String)
    ensures
        r@ == hash_text(kernel_bytes(body@, buffers@, scalars@, cube_dim@)),
        is_hash(r@),
{
    let mut all: Vec<u8> = Vec::new();
    append(body, &mut all);
    append(buffers, &mut all);
    append(scalars, &mut all);
    append(cube_dim, &mut all);
    assert(all@ =~= kernel_bytes(body@, buffers@, scalars@, cube_dim@));
    content_hash(&all)
}

fn append(bytes: &Vec<u8>, out: &mut Vec<u8>)
    ensures
        final(out)@ == old(out)@ + bytes@,
{
    let mut i: usize = 0;
    assert(old(out)@ =~= old(out)@ + bytes@.take(0));
    while i < bytes.len()
        invariant
            i <= bytes@.len(),
            out@ == old(out)@ + bytes@.take(i as int),
        decreases bytes@.len() - i,
    {
        out.push(bytes[i]);
        i = i + 1;
        proof {
            assert(out@ =~= old(out)@ + bytes@.take(i as int));
        }
    }
    assert(bytes@.take(i as int) =~= bytes@);
}

/// Different digests have different texts.
pub proof fn law_hex_is_injective(a: Seq<u8>, b: Seq<u8>)
    requires
        hex(a) == hex(b),
    ensures
        a == b,
    decreases a.len(),
{
    lemma_hex_len(a);
    lemma_hex_len(b);
    if a.len() > 0 {
        let x = hex(a);
        let y = hex(b);
        let n = x.len() as int;
        assert(x.drop_last().drop_last() =~= hex(a.drop_last()));
        assert(y.drop_last().drop_last() =~= hex(b.drop_last()));
        law_hex_is_injective(a.drop_last(), b.drop_last());
        assert(x[n - 1] == y[n - 1]);
        assert(x[n - 2] == y[n - 2]);
        let p = a.last() as int;
        let q = b.last() as int;
        assert(hex_char(p % 16) == hex_char(q % 16));
        assert(hex_char(p / 16) == hex_char(q / 16));
        assert(p == q);
        assert(a =~= a.drop_last().push(a.last()));
        assert(b =~= b.drop_last().push(b.last()));
    } else {
        assert(a =~= b);
    }
}

proof fn lemma_hex_digits(a: Seq<u8>)
    ensures
        forall|i: int| 0 <= i < hex(a).len() ==> is_hex(#[trigger] hex(a)[i]),
    decreases a.len(),
{
    if a.len() > 0 {
        lemma_hex_digits(a.drop_last());
        let b = a.last() as int;
        assert forall|d: int| 0 <= d < 16 implies is_hex(#[trigger] hex_char(d)) by {}
        assert(is_hex(hex_char(b / 16)) && is_hex(hex_char(b % 16)));
        assert forall|i: int| 0 <= i < hex(a).len() implies is_hex(#[trigger] hex(a)[i]) by {
            if i < hex(a.drop_last()).len() {
                assert(hex(a)[i] == hex(a.drop_last())[i]);
            }
        }
    }
}

proof fn lemma_hex_len(a: Seq<u8>)
    ensures
        hex(a).len() == 2 * a.len(),
    decreases a.len(),
{
    if a.len() > 0 {
        lemma_hex_len(a.drop_last());
    }
}

} // verus!
