//! SSZ merkleization over SHA-256: the hash-tree-root of byte vectors, byte lists and
//! the integers and containers built from them.
use vstd::prelude::*;
use crate::crypto::{append_bytes, le_bytes_of, sha256, sha256_of, u64_le_bytes};

verus! {

/// Leaves under the root of a byte list of at most 2^30 bytes: 2^25 chunks of 32 bytes.
pub const BYTE_LIST_DEPTH: usize = 25;

/// 32 zero bytes.
pub open spec fn zero_chunk() -> Seq<u8> {
    Seq::new(32, |i: int| 0u8)
}

/// `b` followed by zero bytes up to 32 bytes.
pub open spec fn pad_chunk(b: Seq<u8>) -> Seq<u8> {
    b + Seq::new((32 - b.len()) as nat, |i: int| 0u8)
}

/// `2` raised to `d`.
pub open spec fn pow2(d: nat) -> nat
    decreases d,
{
    if d == 0 {
        1
    } else {
        2 * pow2((d - 1) as nat)
    }
}

/// The root of a subtree of depth `d` whose leaves are all zero chunks.
pub open spec fn zero_hash(d: nat) -> Seq<u8>
    decreases d,
{
    if d == 0 {
        zero_chunk()
    } else {
        sha256_of(zero_hash((d - 1) as nat) + zero_hash((d - 1) as nat))
    }
}

/// Chunk `i` of `data`: its bytes `32 i .. 32 i + 32`, zero past the end.
pub open spec fn chunk_of(data: Seq<u8>, i: int) -> Seq<u8> {
    Seq::new(32, |k: int| if 32 * i + k < data.len() { data[32 * i + k] } else { 0u8 })
}

/// The root of the subtree of depth `d` whose first leaf is chunk `lo` of `data`.
pub open spec fn subtree_root(data: Seq<u8>, lo: nat, d: nat) -> Seq<u8>
    decreases d,
{
    if 32 * lo >= data.len() {
        zero_hash(d)
    } else if d == 0 {
        chunk_of(data, lo as int)
    } else {
        sha256_of(
            subtree_root(data, lo, (d - 1) as nat) + subtree_root(
                data,
                lo + pow2((d - 1) as nat),
                (d - 1) as nat,
            ),
        )
    }
}

/// The hash-tree-root of a byte list with at most 2^30 bytes: the root of its chunks,
/// mixed with its length.
pub open spec fn byte_list_root(data: Seq<u8>) -> Seq<u8> {
    sha256_of(subtree_root(data, 0, BYTE_LIST_DEPTH as nat) + pad_chunk(le_bytes_of(data.len() as u64)))
}

/// The roots of all-zero subtrees of depth 0 to `n`.
pub fn zero_hashes(n: usize) -> (r: Vec<Vec<u8>>)
    requires
        n < 64,
    ensures
        r@.len() == n + 1,
        forall|k: int| 0 <= k <= n ==> (#[trigger] r@[k])@ == zero_hash(k as nat),
{
    let mut z: Vec<u8> = Vec::new();
    let mut j: usize = 0;
    while j < 32
        invariant
            j <= 32,
            z@.len() == j,
            forall|k: int| 0 <= k < j ==> z@[k] == 0u8,
        decreases 32 - j,
    {
        z.push(0u8);
        j = j + 1;
    }
    assert(z@ =~= zero_chunk());
    let mut r: Vec<Vec<u8>> = Vec::new();
    r.push(z);
    let mut i: usize = 0;
    while i < n
        invariant
            i <= n,
            n < 64,
            r@.len() == i + 1,
            forall|k: int| 0 <= k <= i ==> (#[trigger] r@[k])@ == zero_hash(k as nat),
        decreases n - i,
    {
        let mut buf: Vec<u8> = Vec::new();
        append_bytes(&mut buf, r[i].as_slice());
        append_bytes(&mut buf, r[i].as_slice());
        let h = sha256(buf.as_slice());
        let mut next: Vec<u8> = Vec::new();
        append_bytes(&mut next, h.as_slice());
        r.push(next);
        i = i + 1;
    }
    r
}

/// Chunk `lo` of `data`.
fn chunk(data: &[u8], lo: u64) -> (r: Vec<u8>)
    requires
        lo < 0x1_0000_0000,
    ensures
        r@ == chunk_of(data@, lo as int),
{
    let mut r: Vec<u8> = Vec::new();
    let mut k: u64 = 0;
    while k < 32
        invariant
            k <= 32,
            lo < 0x1_0000_0000,
            r@.len() == k,
            forall|j: int| 0 <= j < k ==> r@[j] == chunk_of(data@, lo as int)[j],
        decreases 32 - k,
    {
        let at: u64 = 32 * lo + k;
        if at < data.len() as u64 {
            r.push(data[at as usize]);
        } else {
            r.push(0u8);
        }
        k = k + 1;
    }
    assert(r@ =~= chunk_of(data@, lo as int));
    r
}

/// The root of the subtree of depth `d` (with `width == 2^d` leaves) whose first leaf
/// is chunk `lo` of `data`.
fn subtree(data: &[u8], lo: u64, d: usize, width: u64, zeros: &Vec<Vec<u8>>) -> (r: Vec<u8>)
    requires
        width == pow2(d as nat),
        lo + width <= 0x400_0000,
        zeros@.len() > d,
        forall|k: int| 0 <= k < zeros@.len() ==> (#[trigger] zeros@[k])@ == zero_hash(k as nat),
    ensures
        r@ == subtree_root(data@, lo as nat, d as nat),
    decreases d,
{
    if 32 * lo >= data.len() as u64 {
        assert(zeros@[d as int]@ == zero_hash(d as nat));
        let mut z: Vec<u8> = Vec::new();
        append_bytes(&mut z, zeros[d].as_slice());
        return z;
    }
    if d == 0 {
        return chunk(data, lo);
    }
    let half = width / 2;
    assert(pow2(d as nat) == 2 * pow2((d - 1) as nat));
    let left = subtree(data, lo, d - 1, half, zeros);
    let right = subtree(data, lo + half, d - 1, half, zeros);
    let mut buf: Vec<u8> = Vec::new();
    append_bytes(&mut buf, left.as_slice());
    append_bytes(&mut buf, right.as_slice());
    let h = sha256(buf.as_slice());
    let mut r: Vec<u8> = Vec::new();
    append_bytes(&mut r, h.as_slice());
    r
}

/// `b` followed by zero bytes up to 32 bytes.
pub fn pad_to_chunk(b: &[u8]) -> (r: Vec<u8>)
    requires
        b@.len() <= 32,
    ensures
        r@ == pad_chunk(b@),
{
    let mut r: Vec<u8> = Vec::new();
    append_bytes(&mut r, b);
    while r.len() < 32
        invariant
            b@.len() <= r@.len() <= 32,
            r@.subrange(0, b@.len() as int) == b@,
            forall|j: int| b@.len() <= j < r@.len() ==> r@[j] == 0u8,
        decreases 32 - r@.len(),
    {
        r.push(0u8);
    }
    assert(r@ =~= pad_chunk(b@));
    r
}

/// The hash-tree-root of a byte list.
pub fn hash_byte_list(data: &[u8]) -> (r: Vec<u8>)
    ensures
        r@ == byte_list_root(data@),
{
    let zeros = zero_hashes(BYTE_LIST_DEPTH);
    proof {
        reveal_with_fuel(pow2, 26);
    }
    let root = subtree(data, 0, BYTE_LIST_DEPTH, 0x200_0000, &zeros);
    let len = u64_le_bytes(data.len() as u64);
    let len_chunk = pad_to_chunk(len.as_slice());
    let mut buf: Vec<u8> = Vec::new();
    append_bytes(&mut buf, root.as_slice());
    append_bytes(&mut buf, len_chunk.as_slice());
    let h = sha256(buf.as_slice());
    let mut r: Vec<u8> = Vec::new();
    append_bytes(&mut r, h.as_slice());
    r
}

/// The hash-tree-root of a byte vector of up to 64 bytes (such as a BLS public key).
pub fn hash_short_vector(data: &[u8]) -> (r: Vec<u8>)
    ensures
        r@ == subtree_root(data@, 0, 1),
{
    let zeros = zero_hashes(1);
    proof {
        reveal_with_fuel(pow2, 2);
    }
    subtree(data, 0, 1, 2, &zeros)
}

} // verus!
