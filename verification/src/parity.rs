//! The accumulator: byte-wise XOR of chunks, and the search for the first
//! byte of it that is not zero.

use vstd::prelude::*;

verus! {

/// `len` zero bytes.
pub open spec fn zeros(len: int) -> Seq<u8> {
    Seq::new(len as nat, |i: int| 0u8)
}

/// Byte-wise XOR of `acc` with `chunk`, position by position.
pub open spec fn xor_bytes(acc: Seq<u8>, chunk: Seq<u8>) -> Seq<u8> {
    Seq::new(acc.len(), |i: int| acc[i] ^ chunk[i])
}

/// XOR of all `chunks`, folded in order into `len` zero bytes.
pub open spec fn parity(chunks: Seq<Seq<u8>>, len: int) -> Seq<u8>
    decreases chunks.len(),
{
    if chunks.len() == 0 {
        zeros(len)
    } else {
        xor_bytes(parity(chunks.drop_last(), len), chunks.last())
    }
}

/// Every byte is zero.
pub open spec fn all_zero(bytes: Seq<u8>) -> bool {
    forall|j: int| 0 <= j < bytes.len() ==> bytes[j] == 0
}

/// `index` is the first position of `bytes` that holds a non-zero byte.
pub open spec fn is_first_nonzero(bytes: Seq<u8>, index: int) -> bool {
    &&& 0 <= index < bytes.len()
    &&& bytes[index] != 0
    &&& forall|j: int| 0 <= j < index ==> bytes[j] == 0
}

/// The first position of `bytes` that holds a non-zero byte, if there is one.
pub open spec fn first_nonzero(bytes: Seq<u8>) -> Option<int> {
    if all_zero(bytes) {
        None
    } else {
        Some(choose|i: int| is_first_nonzero(bytes, i))
    }
}

/// The offset of the first non-zero byte of an accumulator that holds the
/// parity of the chunk at `offset`, if there is one.
pub open spec fn mismatch_in(acc: Seq<u8>, offset: int) -> Option<int> {
    match first_nonzero(acc) {
        Some(i) => Some(offset + i),
        None => None,
    }
}

/// The byte contents of a list of buffers.
pub open spec fn contents(buffers: Seq<Vec<u8>>) -> Seq<Seq<u8>> {
    Seq::new(buffers.len(), |j: int| buffers[j]@)
}

proof fn lemma_first_nonzero_exists(bytes: Seq<u8>, from: int)
    requires
        0 <= from <= bytes.len(),
        forall|j: int| 0 <= j < from ==> bytes[j] == 0,
        !all_zero(bytes),
    ensures
        exists|i: int| is_first_nonzero(bytes, i),
    decreases bytes.len() - from,
{
    if from == bytes.len() {
        assert(all_zero(bytes));
    } else if bytes[from] != 0 {
        assert(is_first_nonzero(bytes, from));
    } else {
        lemma_first_nonzero_exists(bytes, from + 1);
    }
}

/// `first_nonzero` names the one position that `is_first_nonzero` accepts,
/// and is `None` exactly for all-zero bytes.
pub proof fn lemma_first_nonzero(bytes: Seq<u8>)
    ensures
        match first_nonzero(bytes) {
            Some(i) => is_first_nonzero(bytes, i),
            None => all_zero(bytes),
        },
        forall|i: int| is_first_nonzero(bytes, i) ==> first_nonzero(bytes) == Some(i),
{
    if !all_zero(bytes) {
        lemma_first_nonzero_exists(bytes, 0);
        let found = choose|i: int| is_first_nonzero(bytes, i);
        assert forall|i: int| is_first_nonzero(bytes, i) implies i == found by {
            if i < found {
                assert(bytes[i] == 0);
            } else if found < i {
                assert(bytes[found] == 0);
            }
        }
    }
}

/// Resets the accumulator to zero bytes, keeping its length.
pub fn clear(acc: &mut Vec<u8>)
    ensures
        final(acc)@ == zeros(old(acc)@.len() as int),
{
    let len: usize = acc.len();
    let mut i: usize = 0;
    while i < len
        invariant
            i <= len,
            acc@.len() == len,
            forall|j: int| 0 <= j < i ==> acc@[j] == 0,
        decreases len - i,
    {
        acc[i] = 0;
        i += 1;
    }
    assert(acc@ =~= zeros(len as int));
}

/// Folds one chunk into the accumulator by byte-wise XOR.
pub fn fold_chunk(acc: &mut Vec<u8>, chunk: &[u8])
    requires
        chunk@.len() == old(acc)@.len(),
    ensures
        final(acc)@ == xor_bytes(old(acc)@, chunk@),
{
    let len: usize = acc.len();
    let mut i: usize = 0;
    while i < len
        invariant
            i <= len,
            acc@.len() == len,
            chunk@.len() == len,
            old(acc)@.len() == len,
            forall|j: int| 0 <= j < i ==> acc@[j] == old(acc)@[j] ^ chunk@[j],
            forall|j: int| i <= j < len ==> acc@[j] == old(acc)@[j],
        decreases len - i,
    {
        let folded: u8 = acc[i] ^ chunk[i];
        acc[i] = folded;
        i += 1;
    }
    assert(acc@ =~= xor_bytes(old(acc)@, chunk@));
}

/// The XOR of all `chunks`, each of them `len` bytes long.
pub fn parity_of(chunks: &Vec<Vec<u8>>, len: usize) -> (acc: Vec<u8>)
    requires
        forall|j: int| 0 <= j < chunks@.len() ==> (#[trigger] chunks@[j])@.len() == len,
    ensures
        acc@ == parity(contents(chunks@), len as int),
{
    let mut acc: Vec<u8> = vec![0u8; len];
    assert(acc@ =~= zeros(len as int));
    let mut j: usize = 0;
    while j < chunks.len()
        invariant
            j <= chunks@.len(),
            forall|k: int| 0 <= k < chunks@.len() ==> (#[trigger] chunks@[k])@.len() == len,
            acc@.len() == len,
            acc@ == parity(contents(chunks@).take(j as int), len as int),
        decreases chunks@.len() - j,
    {
        let ghost before = contents(chunks@).take(j as int);
        let ghost after = contents(chunks@).take(j + 1);
        assert(after.drop_last() =~= before);
        assert(after.last() == chunks@[j as int]@);
        fold_chunk(&mut acc, chunks[j].as_slice());
        j += 1;
    }
    assert(contents(chunks@).take(chunks@.len() as int) =~= contents(chunks@));
    acc
}

/// Position of the first non-zero byte, scanning from the left.
pub fn find_first_nonzero(bytes: &[u8]) -> (found: Option<usize>)
    ensures
        match found {
            Some(i) => is_first_nonzero(bytes@, i as int),
            None => all_zero(bytes@),
        },
        first_nonzero(bytes@) == match found {
            Some(i) => Some(i as int),
            None => None,
        },
{
    proof {
        lemma_first_nonzero(bytes@);
    }
    let len: usize = bytes.len();
    let mut i: usize = 0;
    while i < len
        invariant
            i <= len,
            len == bytes@.len(),
            forall|j: int| 0 <= j < i ==> bytes@[j] == 0,
        decreases len - i,
    {
        if bytes[i] != 0 {
            return Some(i);
        }
        i += 1;
    }
    None
}

/// Looks for a mismatch in the accumulator of the chunk at `offset`: the
/// offset of its first non-zero byte.
pub fn find_mismatch(acc: &[u8], offset: u64) -> (found: Option<u64>)
    requires
        offset + acc@.len() <= u64::MAX,
    ensures
        mismatch_in(acc@, offset as int) == match found {
            Some(at) => Some(at as int),
            None => None,
        },
{
    match find_first_nonzero(acc) {
        Some(i) => Some(offset + i as u64),
        None => None,
    }
}

} // verus!
