//! The blob that holds a snapshot: the list of pairs in the layout that
//! `bincode` gives a `Vec<(Vec<u8>, Vec<u8>)>`.
//!
//! A length is written as eight bytes, least significant first. A string of
//! bytes is its length and then its bytes; a pair is its key and then its
//! value; a list is the number of its pairs and then the pairs.

use crate::mirror::pairs_view;
use vstd::bytes::{lemma_auto_spec_u64_to_from_le_bytes, spec_u64_to_le_bytes};
use vstd::prelude::*;

verus! {

/// The eight bytes of a length.
pub open spec fn encode_len(n: nat) -> Seq<u8> {
    spec_u64_to_le_bytes(n as u64)
}

/// The bytes of a string of bytes.
pub open spec fn encode_bytes(bytes: Seq<u8>) -> Seq<u8> {
    encode_len(bytes.len()) + bytes
}

/// The bytes of a pair.
pub open spec fn encode_pair(pair: (Seq<u8>, Seq<u8>)) -> Seq<u8> {
    encode_bytes(pair.0) + encode_bytes(pair.1)
}

/// The bytes of the pairs of a list, one after the other.
pub open spec fn encode_items(pairs: Seq<(Seq<u8>, Seq<u8>)>) -> Seq<u8>
    decreases pairs.len(),
{
    if pairs.len() == 0 {
        Seq::empty()
    } else {
        encode_items(pairs.drop_last()) + encode_pair(pairs.last())
    }
}

/// The blob of a list of pairs.
pub open spec fn encode_pairs(pairs: Seq<(Seq<u8>, Seq<u8>)>) -> Seq<u8> {
    encode_len(pairs.len()) + encode_items(pairs)
}

/// Whether every length in `pairs` can be written in eight bytes. Lists held
/// in memory always are.
pub open spec fn encodable(pairs: Seq<(Seq<u8>, Seq<u8>)>) -> bool {
    &&& pairs.len() <= u64::MAX
    &&& forall|i: int|
        0 <= i < pairs.len() ==> (#[trigger] pairs[i]).0.len() <= u64::MAX && pairs[i].1.len()
            <= u64::MAX
}

/// The largest blob that is written, in bytes: what a single allocation can
/// hold.
pub open spec fn max_blob_len() -> int {
    isize::MAX as int
}

/// The list that `blob` begins with, if it begins with the blob of a list.
/// Bytes after it are ignored.
pub open spec fn decoded(blob: Seq<u8>) -> Option<Seq<(Seq<u8>, Seq<u8>)>> {
    if exists|pairs: Seq<(Seq<u8>, Seq<u8>)>|
        encodable(pairs) && #[trigger] encode_pairs(pairs).is_prefix_of(blob) {
        Some(
            choose|pairs: Seq<(Seq<u8>, Seq<u8>)>|
                encodable(pairs) && #[trigger] encode_pairs(pairs).is_prefix_of(blob),
        )
    } else {
        None
    }
}

/// The error of `bincode`.
#[verifier::external_type_specification]
#[verifier::external_body]
pub struct ExErrorKind(bincode::ErrorKind);

/// Writes a list with `bincode::serialize`. With the options of that function
/// lengths take eight bytes, least significant first, nothing limits the size,
/// and a `Vec` and a tuple write their parts in order, a `Vec` after its
/// length: the result is `encode_pairs` of the list. The call cannot fail on a
/// list of this type, whose sequences all know their length and which is
/// written to memory. The blob is allocated at once, which takes a size that
/// an allocation can have.
#[verifier::external_body]
fn write_blob(pairs: &Vec<(Vec<u8>, Vec<u8>)>) -> (blob: Result<Vec<u8>, Box<bincode::ErrorKind>>)
    requires
        encode_pairs(pairs_view(pairs@)).len() <= max_blob_len(),
    ensures
        blob is Ok,
        blob matches Ok(bytes) ==> bytes@ == encode_pairs(pairs_view(pairs@)),
{
    bincode::serialize(pairs)
}

/// Reads a list with `bincode::deserialize`. That function reads what
/// `bincode::serialize` writes and leaves bytes that follow unread: it yields
/// a list whose blob the input begins with, and fails only where the input
/// begins with the blob of no list.
#[verifier::external_body]
fn read_blob(blob: &[u8]) -> (pairs: Result<Vec<(Vec<u8>, Vec<u8>)>, Box<bincode::ErrorKind>>)
    ensures
        match pairs {
            Ok(list) => encode_pairs(pairs_view(list@)).is_prefix_of(blob@),
            Err(_) => forall|any: Seq<(Seq<u8>, Seq<u8>)>|
                encodable(any) ==> !(#[trigger] encode_pairs(any)).is_prefix_of(blob@),
        },
{
    bincode::deserialize(blob)
}

/// Whether `piece` stands in `blob` at the offset `at`.
pub open spec fn occurs_at(piece: Seq<u8>, blob: Seq<u8>, at: int) -> bool {
    &&& 0 <= at
    &&& at + piece.len() <= blob.len()
    &&& blob.subrange(at, at + piece.len()) == piece
}

/// Two pieces in a row stand at an offset exactly when the first stands there
/// and the second right behind it.
pub proof fn lemma_occurs_concat(first: Seq<u8>, second: Seq<u8>, blob: Seq<u8>, at: int)
    ensures
        occurs_at(first + second, blob, at) <==> occurs_at(first, blob, at) && occurs_at(
            second,
            blob,
            at + first.len(),
        ),
{
    let whole = first + second;
    if occurs_at(whole, blob, at) {
        assert(blob.subrange(at, at + first.len()) =~= first) by {
            assert forall|i: int| 0 <= i < first.len() implies blob[at + i] == first[i] by {
                assert(blob.subrange(at, at + whole.len())[i] == whole[i]);
            }
        }
        assert(blob.subrange(at + first.len(), at + first.len() + second.len()) =~= second) by {
            assert forall|i: int| 0 <= i < second.len() implies blob[at + first.len() + i]
                == second[i] by {
                assert(blob.subrange(at, at + whole.len())[first.len() + i] == whole[first.len()
                    + i]);
            }
        }
    }
    if occurs_at(first, blob, at) && occurs_at(second, blob, at + first.len()) {
        assert(blob.subrange(at, at + whole.len()) =~= whole) by {
            assert forall|i: int| 0 <= i < whole.len() implies blob[at + i] == whole[i] by {
                if i < first.len() {
                    assert(blob.subrange(at, at + first.len())[i] == first[i]);
                } else {
                    assert(blob.subrange(at + first.len(), at + first.len() + second.len())[i
                        - first.len()] == second[i - first.len()]);
                }
            }
        }
    }
}

/// A length takes eight bytes, and lengths that can be written differ in what
/// is written.
pub proof fn lemma_encode_len(n: nat, m: nat)
    requires
        n <= u64::MAX,
        m <= u64::MAX,
    ensures
        encode_len(n).len() == 8,
        encode_len(m).len() == 8,
        encode_len(n) == encode_len(m) ==> n == m,
{
    lemma_auto_spec_u64_to_from_le_bytes();
}

/// Where two strings of bytes are written at the same offset of a blob, they
/// are the same string.
pub proof fn lemma_bytes_unique(a: Seq<u8>, b: Seq<u8>, blob: Seq<u8>, at: int)
    requires
        a.len() <= u64::MAX,
        b.len() <= u64::MAX,
        occurs_at(encode_bytes(a), blob, at),
        occurs_at(encode_bytes(b), blob, at),
    ensures
        a == b,
{
    lemma_encode_len(a.len(), b.len());
    lemma_occurs_concat(encode_len(a.len()), a, blob, at);
    lemma_occurs_concat(encode_len(b.len()), b, blob, at);
    assert(encode_len(a.len()) == encode_len(b.len()));
}

/// Where two pairs are written at the same offset of a blob, they are the same
/// pair.
pub proof fn lemma_pair_unique(
    a: (Seq<u8>, Seq<u8>),
    b: (Seq<u8>, Seq<u8>),
    blob: Seq<u8>,
    at: int,
)
    requires
        a.0.len() <= u64::MAX && a.1.len() <= u64::MAX,
        b.0.len() <= u64::MAX && b.1.len() <= u64::MAX,
        occurs_at(encode_pair(a), blob, at),
        occurs_at(encode_pair(b), blob, at),
    ensures
        a == b,
{
    lemma_occurs_concat(encode_bytes(a.0), encode_bytes(a.1), blob, at);
    lemma_occurs_concat(encode_bytes(b.0), encode_bytes(b.1), blob, at);
    lemma_bytes_unique(a.0, b.0, blob, at);
    lemma_bytes_unique(a.1, b.1, blob, at + encode_bytes(a.0).len());
}

/// Where the pairs of two lists of one length are written at the same offset
/// of a blob, they are the same list.
pub proof fn lemma_items_unique(
    a: Seq<(Seq<u8>, Seq<u8>)>,
    b: Seq<(Seq<u8>, Seq<u8>)>,
    blob: Seq<u8>,
    at: int,
)
    requires
        encodable(a),
        encodable(b),
        a.len() == b.len(),
        occurs_at(encode_items(a), blob, at),
        occurs_at(encode_items(b), blob, at),
    ensures
        a == b,
    decreases a.len(),
{
    if a.len() == 0 {
        assert(a =~= b);
    } else {
        let a_rest = a.drop_last();
        let b_rest = b.drop_last();
        lemma_occurs_concat(encode_items(a_rest), encode_pair(a.last()), blob, at);
        lemma_occurs_concat(encode_items(b_rest), encode_pair(b.last()), blob, at);
        assert(encodable(a_rest)) by {
            assert forall|i: int| 0 <= i < a_rest.len() implies (#[trigger] a_rest[i]).0.len()
                <= u64::MAX && a_rest[i].1.len() <= u64::MAX by {
                assert(a_rest[i] == a[i]);
            }
        }
        assert(encodable(b_rest)) by {
            assert forall|i: int| 0 <= i < b_rest.len() implies (#[trigger] b_rest[i]).0.len()
                <= u64::MAX && b_rest[i].1.len() <= u64::MAX by {
                assert(b_rest[i] == b[i]);
            }
        }
        lemma_items_unique(a_rest, b_rest, blob, at);
        assert(a[a.len() - 1] == a.last());
        assert(b[b.len() - 1] == b.last());
        lemma_pair_unique(a.last(), b.last(), blob, at + encode_items(a_rest).len());
        assert(a =~= a_rest.push(a.last()));
        assert(b =~= b_rest.push(b.last()));
    }
}

/// No blob begins with the blobs of two different lists.
pub proof fn lemma_encoding_unique(
    a: Seq<(Seq<u8>, Seq<u8>)>,
    b: Seq<(Seq<u8>, Seq<u8>)>,
    blob: Seq<u8>,
)
    requires
        encodable(a),
        encodable(b),
        encode_pairs(a).is_prefix_of(blob),
        encode_pairs(b).is_prefix_of(blob),
    ensures
        a == b,
{
    assert(occurs_at(encode_pairs(a), blob, 0));
    assert(occurs_at(encode_pairs(b), blob, 0));
    lemma_occurs_concat(encode_len(a.len()), encode_items(a), blob, 0);
    lemma_occurs_concat(encode_len(b.len()), encode_items(b), blob, 0);
    lemma_encode_len(a.len(), b.len());
    assert(encode_len(a.len()) == encode_len(b.len()));
    lemma_items_unique(a, b, blob, 8);
}

/// A blob that begins with the blob of a list decodes to that list.
pub proof fn lemma_decoded_is(pairs: Seq<(Seq<u8>, Seq<u8>)>, blob: Seq<u8>)
    requires
        encodable(pairs),
        encode_pairs(pairs).is_prefix_of(blob),
    ensures
        decoded(blob) == Some(pairs),
{
    let found = decoded(blob).unwrap();
    lemma_encoding_unique(found, pairs, blob);
}

/// What is written is read back: the blob of a list decodes to the list,
/// whatever bytes follow it.
pub proof fn written_blob_reads_back(pairs: Seq<(Seq<u8>, Seq<u8>)>, rest: Seq<u8>)
    requires
        encodable(pairs),
    ensures
        decoded(encode_pairs(pairs)) == Some(pairs),
        decoded(encode_pairs(pairs) + rest) == Some(pairs),
{
    assert(encode_pairs(pairs).is_prefix_of(encode_pairs(pairs))) by {
        assert(encode_pairs(pairs).subrange(0, encode_pairs(pairs).len() as int) =~= encode_pairs(
            pairs,
        ));
    }
    assert(encode_pairs(pairs).is_prefix_of(encode_pairs(pairs) + rest)) by {
        assert((encode_pairs(pairs) + rest).subrange(0, encode_pairs(pairs).len() as int)
            =~= encode_pairs(pairs));
    }
    lemma_decoded_is(pairs, encode_pairs(pairs));
    lemma_decoded_is(pairs, encode_pairs(pairs) + rest);
}

/// A list held in memory can be written.
pub proof fn lemma_stored_pairs_encodable(pairs: Seq<(Vec<u8>, Vec<u8>)>)
    requires
        pairs.len() <= usize::MAX,
    ensures
        encodable(pairs_view(pairs)),
{
    assert forall|i: int| 0 <= i < pairs.len() implies (#[trigger] pairs_view(pairs)[i]).0.len()
        <= u64::MAX && pairs_view(pairs)[i].1.len() <= u64::MAX by {
        assert(pairs_view(pairs)[i].0 == pairs[i].0@);
        vstd::std_specs::vec::axiom_spec_len(&pairs[i].0);
        vstd::std_specs::vec::axiom_spec_len(&pairs[i].1);
    }
}

/// Reads the list that `blob` begins with. Returns `None` where it begins
/// with the blob of no list.
pub fn decode_snapshot(blob: &[u8]) -> (pairs: Option<Vec<(Vec<u8>, Vec<u8>)>>)
    ensures
        match pairs {
            Some(list) => decoded(blob@) == Some(pairs_view(list@)),
            None => decoded(blob@) is None,
        },
{
    match read_blob(blob) {
        Ok(list) => {
            proof {
                assert(list@.len() == list.len());
                lemma_stored_pairs_encodable(list@);
                lemma_decoded_is(pairs_view(list@), blob@);
            }
            Some(list)
        },
        Err(_) => None,
    }
}

/// The pairs of a list are written one after the other.
pub proof fn lemma_items_next(pairs: Seq<(Seq<u8>, Seq<u8>)>, i: int)
    requires
        0 <= i < pairs.len(),
    ensures
        encode_items(pairs.take(i + 1)) == encode_items(pairs.take(i)) + encode_pair(pairs[i]),
        encode_items(pairs.take(0)) == Seq::<u8>::empty(),
        encode_items(pairs.take(pairs.len() as int)) == encode_items(pairs),
{
    assert(pairs.take(i + 1).drop_last() =~= pairs.take(i));
    assert(pairs.take(pairs.len() as int) =~= pairs);
}

/// The more pairs of a list are written, the longer the result.
pub proof fn lemma_items_len_grows(pairs: Seq<(Seq<u8>, Seq<u8>)>, i: int)
    requires
        0 <= i <= pairs.len(),
    ensures
        encode_items(pairs.take(i)).len() <= encode_items(pairs).len(),
    decreases pairs.len() - i,
{
    if i < pairs.len() {
        lemma_items_next(pairs, i);
        lemma_items_len_grows(pairs, i + 1);
    } else {
        assert(pairs.take(i) =~= pairs);
    }
}

/// Computes the length of the blob of `pairs`. Returns `None` where the blob
/// would be longer than the largest that is written.
pub fn snapshot_size(pairs: &Vec<(Vec<u8>, Vec<u8>)>) -> (size: Option<usize>)
    ensures
        match size {
            Some(n) => n == encode_pairs(pairs_view(pairs@)).len() && n <= max_blob_len(),
            None => encode_pairs(pairs_view(pairs@)).len() > max_blob_len(),
        },
{
    let ghost listed = pairs_view(pairs@);
    let limit: usize = isize::MAX as usize;
    let mut total: usize = 8;
    let mut i: usize = 0;
    proof {
        assert(listed.len() == pairs.len());
        lemma_encode_len(listed.len(), 0);
        assert(listed.take(0) =~= Seq::<(Seq<u8>, Seq<u8>)>::empty());
    }
    while i < pairs.len()
        invariant
            0 <= i <= pairs.len(),
            listed == pairs_view(pairs@),
            limit == isize::MAX,
            total == 8 + encode_items(listed.take(i as int)).len(),
            total <= limit,
            encode_len(listed.len()).len() == 8,
        decreases pairs.len() - i,
    {
        let key_len = pairs[i].0.len();
        let value_len = pairs[i].1.len();
        proof {
            lemma_items_next(listed, i as int);
            lemma_items_len_grows(listed, i + 1);
            lemma_encode_len(key_len as nat, value_len as nat);
            assert(listed[i as int] == (pairs[i as int].0@, pairs[i as int].1@));
            assert(encode_pair(listed[i as int]).len() == 16 + key_len + value_len);
        }
        let room = limit - total;
        if room < 16 || key_len > room - 16 || value_len > room - 16 - key_len {
            return None;
        }
        total = total + 16 + key_len + value_len;
        i = i + 1;
    }
    proof {
        assert(listed.take(i as int) =~= listed);
    }
    Some(total)
}

/// Writes the blob of `pairs`. Returns `None` where the blob would be longer
/// than the largest that is written.
pub fn encode_snapshot(pairs: &Vec<(Vec<u8>, Vec<u8>)>) -> (blob: Option<Vec<u8>>)
    ensures
        blob is Some <==> encode_pairs(pairs_view(pairs@)).len() <= max_blob_len(),
        blob matches Some(bytes) ==> bytes@ == encode_pairs(pairs_view(pairs@)),
{
    if snapshot_size(pairs).is_none() {
        return None;
    }
    match write_blob(pairs) {
        Ok(bytes) => Some(bytes),
        Err(_) => None,
    }
}

} // verus!
