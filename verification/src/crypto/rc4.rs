//! The keystream cipher: a table of 256 bytes is shuffled by the key, then
//! yields one keystream byte per byte of data, which is combined by XOR.

use vstd::prelude::*;

verus! {

/// The table before key scheduling: entry `i` holds `i`.
pub open spec fn identity_table() -> Seq<u8> {
    Seq::new(256, |i: int| i as u8)
}

/// `s` with the entries at `i` and `j` exchanged.
pub open spec fn swapped(s: Seq<u8>, i: int, j: int) -> Seq<u8> {
    s.update(i, s[j]).update(j, s[i])
}

/// The table and the index `j` after `n` steps of key scheduling.
pub open spec fn schedule_state(key: Seq<u8>, n: nat) -> (Seq<u8>, int)
    decreases n,
{
    if n == 0 {
        (identity_table(), 0)
    } else {
        let (s, j) = schedule_state(key, (n - 1) as nat);
        let i = n - 1;
        let j2 = (j + s[i] + key[i % (key.len() as int)]) % 256;
        (swapped(s, i, j2), j2)
    }
}

/// The table, `i` and `j` after `n` bytes of keystream have been drawn.
pub open spec fn stream_state(key: Seq<u8>, n: nat) -> (Seq<u8>, int, int)
    decreases n,
{
    if n == 0 {
        (schedule_state(key, 256).0, 0, 0)
    } else {
        let (s, i, j) = stream_state(key, (n - 1) as nat);
        let i2 = (i + 1) % 256;
        let j2 = (j + s[i2]) % 256;
        (swapped(s, i2, j2), i2, j2)
    }
}

/// Byte `n` of the keystream of `key`.
pub open spec fn keystream_byte(key: Seq<u8>, n: nat) -> u8 {
    let (s, i, j) = stream_state(key, n + 1);
    s[(s[i] + s[j]) % 256]
}

/// The transform: each byte of `data` XOR the keystream byte of its place.
pub open spec fn rc4_spec(key: Seq<u8>, data: Seq<u8>) -> Seq<u8> {
    Seq::new(data.len(), |n: int| data[n] ^ keystream_byte(key, n as nat))
}

/// Applying the transform twice under one key gives the data back.
pub proof fn lemma_rc4_symmetric(key: Seq<u8>, data: Seq<u8>)
    ensures
        rc4_spec(key, rc4_spec(key, data)) == data,
{
    let once = rc4_spec(key, data);
    let twice = rc4_spec(key, once);
    assert forall|n: int| 0 <= n < data.len() implies twice[n] == data[n] by {
        let d = data[n];
        let k = keystream_byte(key, n as nat);
        assert((d ^ k) ^ k == d) by (bit_vector);
    }
    assert(twice =~= data);
}

/// Exchanges two entries of the table.
fn swap_entries(s: &mut Vec<u8>, i: usize, j: usize)
    requires
        i < old(s)@.len(),
        j < old(s)@.len(),
    ensures
        final(s)@ == swapped(old(s)@, i as int, j as int),
{
    let a = s[i];
    let b = s[j];
    s.set(i, b);
    s.set(j, a);
}

/// Encrypts or decrypts `data` under `key`: the same transform does both.
pub fn rc4_crypt(key: &[u8], data: &[u8]) -> (r: Vec<u8>)
    requires
        key@.len() > 0,
    ensures
        r@ == rc4_spec(key@, data@),
{
    let mut s: Vec<u8> = Vec::new();
    let mut n: usize = 0;
    while n < 256
        invariant
            n <= 256,
            s@ == Seq::new(n as nat, |i: int| i as u8),
        decreases 256 - n,
    {
        s.push(n as u8);
        n = n + 1;
        assert(s@ =~= Seq::new(n as nat, |i: int| i as u8));
    }
    assert(s@ =~= identity_table());

    let mut j: usize = 0;
    let mut i: usize = 0;
    while i < 256
        invariant
            i <= 256,
            j < 256,
            key@.len() > 0,
            s@.len() == 256,
            (s@, j as int) == schedule_state(key@, i as nat),
        decreases 256 - i,
    {
        j = (j + s[i] as usize + key[i % key.len()] as usize) % 256;
        swap_entries(&mut s, i, j);
        i = i + 1;
    }

    let mut i: usize = 0;
    j = 0;
    let mut result: Vec<u8> = Vec::new();
    let mut n: usize = 0;
    while n < data.len()
        invariant
            n <= data.len(),
            i < 256,
            j < 256,
            key@.len() > 0,
            s@.len() == 256,
            (s@, i as int, j as int) == stream_state(key@, n as nat),
            result@ == rc4_spec(key@, data@.subrange(0, n as int)),
        decreases data.len() - n,
    {
        i = (i + 1) % 256;
        j = (j + s[i] as usize) % 256;
        swap_entries(&mut s, i, j);
        let k = s[(s[i] as usize + s[j] as usize) % 256];
        result.push(data[n] ^ k);
        n = n + 1;
        assert(result@ =~= rc4_spec(key@, data@.subrange(0, n as int)));
    }
    assert(data@.subrange(0, n as int) =~= data@);
    result
}

} // verus!
