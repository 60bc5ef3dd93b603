//! The auxiliary vector of a process: machine-word `(key, value)` pairs.
use vstd::prelude::*;

use crate::sanitize::{read_word, word_at};

verus! {

/// Key of the entry that ends the vector.
pub const AT_NULL: u64 = 0;

/// Key of the program's entry point.
pub const AT_ENTRY: u64 = 9;

/// Key of the address where the kernel maps its vdso.
pub const AT_SYSINFO_EHDR: u64 = 33;

/// One entry of the auxiliary vector.
#[derive(Clone, Copy, Debug, PartialEq, Eq, Structural)]
pub struct AuxvPair {
    pub key: u64,
    pub value: u64,
}

/// The entries encoded in `b` from byte `p` on: 16-byte pairs of
/// little-endian words, up to the terminator or the last whole pair.
pub open spec fn auxv_from(b: Seq<u8>, p: int) -> Seq<AuxvPair>
    decreases b.len() - p,
{
    if p < 0 || p + 16 > b.len() || word_at(b, p) == AT_NULL {
        Seq::empty()
    } else {
        seq![AuxvPair { key: word_at(b, p), value: word_at(b, p + 8) }] + auxv_from(b, p + 16)
    }
}

/// The value of the last entry with `key`, as a map built by inserting the
/// entries in order would hold it.
pub open spec fn auxv_lookup(v: Seq<AuxvPair>, key: u64) -> Option<u64>
    decreases v.len(),
{
    if v.len() == 0 {
        None
    } else if v.last().key == key {
        Some(v.last().value)
    } else {
        auxv_lookup(v.drop_last(), key)
    }
}

/// Decodes the contents of `/proc/<pid>/auxv`.
pub fn parse_auxv(bytes: &[u8]) -> (r: Vec<AuxvPair>)
    ensures
        r@ == auxv_from(bytes@, 0),
{
    let ghost b = bytes@;
    let mut out: Vec<AuxvPair> = Vec::new();
    let mut p: usize = 0;
    let len = bytes.len();
    while len - p >= 16
        invariant
            b == bytes@,
            len == b.len(),
            p <= len,
            out@ + auxv_from(b, p as int) == auxv_from(b, 0),
        decreases len - p,
    {
        let v = bytes_to_vec_word(bytes, p);
        let key = v.0;
        if key == AT_NULL {
            assert(auxv_from(b, p as int) == Seq::<AuxvPair>::empty());
            assert(out@ + Seq::<AuxvPair>::empty() =~= out@);
            return out;
        }
        let ghost before = out@;
        out.push(AuxvPair { key, value: v.1 });
        assert(out@ + auxv_from(b, p + 16) =~= before + auxv_from(b, p as int));
        p = p + 16;
    }
    assert(auxv_from(b, p as int) == Seq::<AuxvPair>::empty());
    assert(out@ + Seq::<AuxvPair>::empty() =~= out@);
    out
}

/// The key and value words of the pair at `p`.
fn bytes_to_vec_word(bytes: &[u8], p: usize) -> (r: (u64, u64))
    requires
        p + 16 <= bytes@.len(),
    ensures
        r.0 == word_at(bytes@, p as int),
        r.1 == word_at(bytes@, p + 8),
{
    let mut v: Vec<u8> = Vec::new();
    let mut i: usize = 0;
    let len = bytes.len();
    while i < 16
        invariant
            i <= 16,
            len == bytes@.len(),
            p + 16 <= bytes@.len(),
            v@ == bytes@.subrange(p as int, p + i),
        decreases 16 - i,
    {
        v.push(bytes[p + i]);
        i = i + 1;
        assert(v@ =~= bytes@.subrange(p as int, p + i));
    }
    let k = read_word(&v, 0);
    let w = read_word(&v, 8);
    proof {
        assert forall|j: int| 0 <= j < 16 implies v@[j] == bytes@[p + j] by {}
    }
    (k, w)
}

/// The value of the last entry with `key`.
pub fn auxv_get(v: &Vec<AuxvPair>, key: u64) -> (r: Option<u64>)
    ensures
        r == auxv_lookup(v@, key),
{
    let mut i: usize = v.len();
    assert(v@.subrange(0, i as int) =~= v@);
    while i > 0
        invariant
            i <= v@.len(),
            auxv_lookup(v@, key) == auxv_lookup(v@.subrange(0, i as int), key),
        decreases i,
    {
        proof {
            assert(v@.subrange(0, i as int).drop_last() =~= v@.subrange(0, i - 1));
        }
        if v[i - 1].key == key {
            return Some(v[i - 1].value);
        }
        i = i - 1;
    }
    assert(v@.subrange(0, 0) =~= Seq::<AuxvPair>::empty());
    None
}

} // verus!
