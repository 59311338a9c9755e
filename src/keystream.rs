//! Repeating-key XOR over byte sequences.
use vstd::prelude::*;

verus! {

/// The key repeated cyclically to exactly `n` bytes.
pub open spec fn key_stream(key: Seq<u8>, n: nat) -> Seq<u8>
    recommends
        key.len() > 0,
{
    Seq::new(n, |i: int| key[i % (key.len() as int)])
}

/// Each byte of `data` XORed with the byte of the key stream at the same position.
pub open spec fn mask(data: Seq<u8>, key: Seq<u8>) -> Seq<u8>
    recommends
        key.len() > 0,
{
    let ks = key_stream(key, data.len());
    Seq::new(data.len(), |i: int| data[i] ^ ks[i])
}

/// Masking twice with the same key gives the data back.
pub proof fn lemma_mask_involutive(data: Seq<u8>, key: Seq<u8>)
    requires
        key.len() > 0,
    ensures
        mask(mask(data, key), key) == data,
{
    let m = mask(data, key);
    assert forall|i: int| 0 <= i < data.len() implies #[trigger] mask(m, key)[i] == data[i] by {
        let a = data[i];
        let k = key[i % (key.len() as int)];
        assert(a ^ k ^ k == a) by (bit_vector);
    }
    assert(mask(m, key) =~= data);
}

/// Repeats `key` cyclically until it is `length` bytes long.
pub fn extend_key(key: &[u8], length: usize) -> (r: Vec<u8>)
    requires
        key@.len() > 0,
    ensures
        r@ == key_stream(key@, length as nat),
{
    let mut extended: Vec<u8> = Vec::with_capacity(length);
    for i in 0..length
        invariant
            key@.len() > 0,
            extended@ == key_stream(key@, i as nat),
    {
        extended.push(key[i % key.len()]);
        assert(extended@ =~= key_stream(key@, (i + 1) as nat));
    }
    extended
}

/// XORs `data` with `key` repeated cyclically.
pub fn apply_key(data: &[u8], key: &[u8]) -> (r: Vec<u8>)
    requires
        key@.len() > 0,
    ensures
        r@ == mask(data@, key@),
{
    let stream = extend_key(key, data.len());
    let mut out: Vec<u8> = Vec::with_capacity(data.len());
    for i in 0..data.len()
        invariant
            stream@ == key_stream(key@, data@.len()),
            out@ == mask(data@, key@).take(i as int),
    {
        out.push(data[i] ^ stream[i]);
        assert(out@ =~= mask(data@, key@).take(i + 1));
    }
    assert(out@ =~= mask(data@, key@));
    out
}

} // verus!
