//! Root-hash utility: reads a serialized tree from base64 text and returns
//! the hex form of its content hash.

use crate::cell::{
    be_bytes, bits_bytes, bytes_be_val, lemma_be_bytes_of_val, read_be8, ser_refs, ser_tree,
    BuilderData, Cell, TreeV,
};
use crate::crypto::{sha256, sha256_of};
use crate::debot::ClientError;
use crate::strings::push_char;
use base64::Engine;
use vstd::prelude::*;

verus! {

/// Code of the error returned for a body that is not a serialized tree.
pub const BOC_INVALID: u32 = 201;

/// What decoding standard-alphabet base64 yields, as a function of the text
/// alone; `None` stands for a decode failure.
pub uninterp spec fn base64_decode_of(s: Seq<char>) -> Option<Seq<u8>>;

/// Relies on base64's standard-alphabet engine: decoding is a pure function
/// of the input text.
#[verifier::external_body]
fn base64_decode(s: &str) -> (r: Option<Vec<u8>>)
    ensures
        match r {
            Option::Some(v) => base64_decode_of(s@) == Option::Some(v@),
            Option::None => base64_decode_of(s@) is None,
        },
{
    base64::engine::general_purpose::STANDARD.decode(s).ok()
}

/// The hexadecimal digit `d`, lower case, for `d < 16`.
pub open spec fn hex_digit(d: nat) -> char {
    if d < 10 {
        crate::strings::digit_char(d)
    } else if d == 10 {
        'a'
    } else if d == 11 {
        'b'
    } else if d == 12 {
        'c'
    } else if d == 13 {
        'd'
    } else if d == 14 {
        'e'
    } else {
        'f'
    }
}

/// The lower-case hex form of a byte string, two digits per byte.
pub open spec fn hex_of(b: Seq<u8>) -> Seq<char>
    decreases b.len(),
{
    if b.len() == 0 {
        Seq::empty()
    } else {
        hex_of(b.drop_last()) + seq![
            hex_digit(b.last() as nat / 16),
            hex_digit(b.last() as nat % 16),
        ]
    }
}

/// The hexadecimal digit `d` as a character.
fn hex_char(d: u8) -> (r: char)
    requires
        d < 16,
    ensures
        r == hex_digit(d as nat),
{
    match d {
        0 => '0',
        1 => '1',
        2 => '2',
        3 => '3',
        4 => '4',
        5 => '5',
        6 => '6',
        7 => '7',
        8 => '8',
        9 => '9',
        10 => 'a',
        11 => 'b',
        12 => 'c',
        13 => 'd',
        14 => 'e',
        _ => 'f',
    }
}

/// The lower-case hex form of `bytes`.
pub fn to_hex_string(bytes: &Vec<u8>) -> (r: String)
    ensures
        r@ == hex_of(bytes@),
{
    let mut s = String::new();
    let mut i: usize = 0;
    while i < bytes.len()
        invariant
            i <= bytes@.len(),
            s@ == hex_of(bytes@.take(i as int)),
        decreases bytes@.len() - i,
    {
        let b = bytes[i];
        push_char(&mut s, hex_char(b / 16));
        push_char(&mut s, hex_char(b % 16));
        proof {
            assert(bytes@.take(i + 1).drop_last() =~= bytes@.take(i as int));
            assert(bytes@.take(i + 1).last() == bytes@[i as int]);
            assert(s@ =~= hex_of(bytes@.take(i + 1)));
        }
        i = i + 1;
    }
    assert(bytes@.take(bytes@.len() as int) =~= bytes@);
    s
}

/// Reads a tree back from its canonical byte form.  A returned tree
/// re-serializes to exactly the input bytes.
pub fn deserialize_tree(bytes: &Vec<u8>) -> (r: Result<BuilderData, ()>)
    ensures
        r matches Ok(b) ==> ser_tree(b@.bits, b@.refs) == bytes@,
{
    let n = bytes.len();
    if n < 8 {
        return Err(());
    }
    let nbits64 = read_be8(bytes, 0);
    proof {
        lemma_be_bytes_of_val(bytes@.subrange(0, 8));
    }
    if nbits64 > (n - 8) as u64 {
        return Err(());
    }
    let nbits = nbits64 as usize;
    let mut bits: Vec<bool> = Vec::new();
    assert(bits_bytes(bits@) =~= bytes@.subrange(8, 8));
    let mut i: usize = 0;
    while i < nbits
        invariant
            i <= nbits,
            nbits + 8 <= bytes@.len(),
            bytes@.len() <= usize::MAX,
            bits@.len() == i,
            bits_bytes(bits@) == bytes@.subrange(8, 8 + i as int),
        decreases nbits - i,
    {
        let b = bytes[8 + i];
        if b > 1 {
            return Err(());
        }
        bits.push(b == 1);
        assert(bits_bytes(bits@) =~= bytes@.subrange(8, 8 + i + 1));
        i = i + 1;
    }
    let mut pos: usize = 8 + nbits;
    if n - pos < 8 {
        return Err(());
    }
    let nrefs64 = read_be8(bytes, pos);
    proof {
        lemma_be_bytes_of_val(bytes@.subrange(pos as int, pos + 8));
    }
    if nrefs64 > ((n - pos - 8) / 8) as u64 {
        return Err(());
    }
    let nrefs = nrefs64 as usize;
    let ghost head = be_bytes(nbits as nat, 8) + bits_bytes(bits@) + be_bytes(nrefs as nat, 8);
    proof {
        assert(head =~= bytes@.subrange(0, pos + 8));
    }
    pos = pos + 8;
    let mut refs: Vec<Cell> = Vec::new();
    proof {
        assert(refs.deep_view() =~= Seq::<Seq<bool>>::empty());
        assert(head + ser_refs(refs.deep_view()) =~= bytes@.subrange(0, pos as int));
    }
    let mut k: usize = 0;
    while k < nrefs
        invariant
            k <= nrefs,
            pos <= bytes@.len(),
            bytes@.len() <= usize::MAX,
            refs.deep_view().len() == k,
            head + ser_refs(refs.deep_view()) == bytes@.subrange(0, pos as int),
        decreases nrefs - k,
    {
        if bytes.len() - pos < 8 {
            return Err(());
        }
        let len64 = read_be8(bytes, pos);
        proof {
            lemma_be_bytes_of_val(bytes@.subrange(pos as int, pos + 8));
        }
        if len64 > (bytes.len() - pos - 8) as u64 {
            return Err(());
        }
        let len = len64 as usize;
        let mut rbits: Vec<bool> = Vec::new();
        let mut j: usize = 0;
        while j < len
            invariant
                j <= len,
                pos + 8 + len <= bytes@.len(),
                bytes@.len() <= usize::MAX,
                rbits@.len() == j,
                bits_bytes(rbits@) == bytes@.subrange(pos + 8, pos + 8 + j as int),
            decreases len - j,
        {
            let b = bytes[pos + 8 + j];
            if b > 1 {
                return Err(());
            }
            rbits.push(b == 1);
            assert(bits_bytes(rbits@) =~= bytes@.subrange(pos + 8, pos + 8 + j + 1));
            j = j + 1;
        }
        let ghost pre = refs.deep_view();
        let ghost prev = refs@;
        let cell = Cell { bits: rbits };
        refs.push(cell);
        proof {
            assert(refs@ == prev.push(cell));
            assert forall|q: int| 0 <= q < pre.len() + 1 implies refs.deep_view()[q] == pre.push(
                cell@,
            )[q] by {
                if q < pre.len() {
                    assert(refs@[q] == prev[q]);
                    assert(pre[q] == prev[q].deep_view());
                }
            }
            assert(refs.deep_view() =~= pre.push(cell@));
            assert(refs.deep_view().drop_last() =~= pre);
            assert(cell@.len() == bytes_be_val(bytes@.subrange(pos as int, pos + 8)));
            assert(be_bytes(cell@.len(), 8) == bytes@.subrange(pos as int, pos + 8));
            assert(bits_bytes(cell@) == bytes@.subrange(pos + 8, pos + 8 + len));
            assert(ser_refs(refs.deep_view()) == ser_refs(pre) + be_bytes(cell@.len(), 8)
                + bits_bytes(cell@));
            assert(be_bytes(cell@.len(), 8).len() == 8);
            assert(bits_bytes(cell@).len() == len);
            assert(head + ser_refs(pre) == bytes@.subrange(0, pos as int));
            assert((head + ser_refs(pre)).len() == bytes@.subrange(0, pos as int).len());
            assert(head.len() + ser_refs(pre).len() == pos);
            assert(head + ser_refs(refs.deep_view()) =~= bytes@.subrange(0, pos + 8 + len));
        }
        pos = pos + 8 + len;
        k = k + 1;
    }
    if pos != n {
        return Err(());
    }
    let b = BuilderData { bits, refs };
    proof {
        assert(bytes@.subrange(0, bytes@.len() as int) =~= bytes@);
        assert(ser_tree(b@.bits, b@.refs) =~= bytes@);
    }
    Ok(b)
}

/// The body to hash: base64 text of a serialized tree.
pub struct ParamsOfGetBocHash {
    pub boc: String,
}

/// The root hash, hex encoded.
pub struct ResultOfGetBocHash {
    pub hash: String,
}

/// Calculates the root content hash of a serialized tree.  The input must
/// be valid base64 holding the canonical form of some tree; the hash is the
/// digest of those bytes, hex encoded.
pub fn get_boc_hash(params: ParamsOfGetBocHash) -> (r: Result<ResultOfGetBocHash, ClientError>)
    ensures
        base64_decode_of(params.boc@) is None ==> r is Err,
        r matches Ok(res) ==> exists|bytes: Seq<u8>, t: TreeV|
            base64_decode_of(params.boc@) == Option::Some(bytes) && ser_tree(t.bits, t.refs)
                == bytes && res.hash@ == hex_of(sha256_of(bytes)),
{
    let bytes = match base64_decode(params.boc.as_str()) {
        Some(v) => v,
        None => {
            return Err(ClientError::with_code_message(BOC_INVALID, "invalid base64".to_owned()));
        },
    };
    let tree = match deserialize_tree(&bytes) {
        Ok(t) => t,
        Err(_) => {
            return Err(
                ClientError::with_code_message(BOC_INVALID, "not a serialized tree".to_owned()),
            );
        },
    };
    let digest = sha256(bytes.as_slice());
    let hash = to_hex_string(&digest);
    proof {
        let t = TreeV { bits: tree@.bits, refs: tree@.refs };
        assert(ser_tree(t.bits, t.refs) == bytes@);
    }
    Ok(ResultOfGetBocHash { hash })
}

} // verus!
