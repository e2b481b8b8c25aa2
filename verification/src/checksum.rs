//! An order-independent checksum over a stream of names.

use vstd::prelude::*;
use crate::encoding::decode;
use crate::encoding::encode;
use crate::encoding::hex_decode;
use crate::encoding::hex_encode;
use crate::encoding::is_hex_text;
use crate::encoding::lemma_hex_round_trip;
use crate::encoding::sha256;
use crate::encoding::sha256_of;
use crate::encoding::DIGEST_LEN;

verus! {

/// Byte-wise exclusive or of two byte strings of one length.
pub open spec fn xor_bytes(a: Seq<u8>, b: Seq<u8>) -> Seq<u8>
    recommends
        a.len() == b.len(),
{
    Seq::new(a.len(), |i: int| a[i] ^ b[i])
}

/// What an accumulator holding `acc` holds after `item` is folded into it:
/// an empty side yields to the other, two digests are combined byte by byte.
pub open spec fn combine(acc: Option<Seq<u8>>, item: Option<Seq<u8>>) -> Option<Seq<u8>> {
    match (acc, item) {
        (None, _) => item,
        (Some(_), None) => acc,
        (Some(a), Some(b)) => Some(xor_bytes(a, b)),
    }
}

/// The text that shows a checksum: nothing while it is empty, else the digest in hex.
pub open spec fn checksum_text(value: Option<Seq<u8>>) -> Seq<char> {
    match value {
        None => Seq::empty(),
        Some(digest) => hex_encode(digest),
    }
}

/// `digest` as `DIGEST_LEN` bytes: itself where it has that width, else cut
/// short or filled up with zeros.
pub open spec fn fit(digest: Seq<u8>) -> Seq<u8> {
    Seq::new(
        DIGEST_LEN as nat,
        |i: int|
            if i < digest.len() {
                digest[i]
            } else {
                0u8
            },
    )
}

/// The digest of a name: SHA-256 over its UTF-8 bytes, `DIGEST_LEN` bytes wide.
pub open spec fn name_digest(name: Seq<char>) -> Seq<u8> {
    fit(sha256(vstd::utf8::encode_utf8(name)))
}

/// Whether `value`, where it holds a digest, holds one of `width` bytes.
pub open spec fn has_width(value: Option<Seq<u8>>, width: nat) -> bool {
    value matches Some(digest) ==> digest.len() == width
}

/// Whether every digest of `items` is `width` bytes wide.
pub open spec fn all_have_width(items: Seq<Seq<u8>>, width: nat) -> bool {
    forall|i: int| 0 <= i < items.len() ==> (#[trigger] items[i]).len() == width
}

/// What an accumulator holding `acc` holds after the digests of `items` were
/// folded into it one by one, the first of them first.
pub open spec fn fold_all(acc: Option<Seq<u8>>, items: Seq<Seq<u8>>) -> Option<Seq<u8>>
    decreases items.len(),
{
    if items.len() == 0 {
        acc
    } else {
        combine(fold_all(acc, items.drop_last()), Some(items.last()))
    }
}

/// Exclusive or of byte strings does not depend on the order of its operands.
pub proof fn lemma_xor_bytes_commutative(a: Seq<u8>, b: Seq<u8>)
    requires
        a.len() == b.len(),
    ensures
        xor_bytes(a, b) == xor_bytes(b, a),
{
    assert forall|i: int| 0 <= i < a.len() implies a[i] ^ b[i] == b[i] ^ a[i] by {
        let x = a[i];
        let y = b[i];
        assert(x ^ y == y ^ x) by (bit_vector);
    }
    assert(xor_bytes(a, b) =~= xor_bytes(b, a));
}

/// Exclusive or of byte strings does not depend on how its operands are grouped.
pub proof fn lemma_xor_bytes_associative(a: Seq<u8>, b: Seq<u8>, c: Seq<u8>)
    requires
        a.len() == b.len(),
        b.len() == c.len(),
    ensures
        xor_bytes(xor_bytes(a, b), c) == xor_bytes(a, xor_bytes(b, c)),
{
    assert forall|i: int| 0 <= i < a.len() implies (a[i] ^ b[i]) ^ c[i] == a[i] ^ (b[i] ^ c[i]) by {
        let x = a[i];
        let y = b[i];
        let z = c[i];
        assert((x ^ y) ^ z == x ^ (y ^ z)) by (bit_vector);
    }
    assert(xor_bytes(xor_bytes(a, b), c) =~= xor_bytes(a, xor_bytes(b, c)));
}

/// The empty checksum is neutral on either side.
pub proof fn lemma_combine_empty(value: Option<Seq<u8>>)
    ensures
        combine(None, value) == value,
        combine(value, None) == value,
{
}

/// Folding two checksums gives the same whichever of them comes first.
pub proof fn lemma_combine_commutative(a: Option<Seq<u8>>, b: Option<Seq<u8>>, width: nat)
    requires
        has_width(a, width),
        has_width(b, width),
    ensures
        combine(a, b) == combine(b, a),
        has_width(combine(a, b), width),
{
    if a is Some && b is Some {
        lemma_xor_bytes_commutative(a->Some_0, b->Some_0);
    }
}

/// Folding three checksums gives the same however they are grouped.
pub proof fn lemma_combine_associative(
    a: Option<Seq<u8>>,
    b: Option<Seq<u8>>,
    c: Option<Seq<u8>>,
    width: nat,
)
    requires
        has_width(a, width),
        has_width(b, width),
        has_width(c, width),
    ensures
        combine(combine(a, b), c) == combine(a, combine(b, c)),
{
    if a is Some && b is Some && c is Some {
        lemma_xor_bytes_associative(a->Some_0, b->Some_0, c->Some_0);
    }
}

/// A digest folded twice into an accumulator that already holds one leaves
/// no trace: an even number of repetitions of one item goes unnoticed.
pub proof fn lemma_duplicate_cancels(acc: Seq<u8>, digest: Seq<u8>)
    requires
        acc.len() == digest.len(),
    ensures
        combine(combine(Some(acc), Some(digest)), Some(digest)) == Some(acc),
{
    assert forall|i: int| 0 <= i < acc.len() implies (acc[i] ^ digest[i]) ^ digest[i] == acc[i] by {
        let x = acc[i];
        let y = digest[i];
        assert((x ^ y) ^ y == x) by (bit_vector);
    }
    assert(xor_bytes(xor_bytes(acc, digest), digest) =~= acc);
}

/// Folding keeps the width.
pub proof fn lemma_fold_width(acc: Option<Seq<u8>>, items: Seq<Seq<u8>>, width: nat)
    requires
        has_width(acc, width),
        all_have_width(items, width),
    ensures
        has_width(fold_all(acc, items), width),
    decreases items.len(),
{
    if items.len() > 0 {
        lemma_fold_width(acc, items.drop_last(), width);
    }
}

/// Folding one run of digests and then another is folding the two runs joined.
pub proof fn lemma_fold_concat(acc: Option<Seq<u8>>, first: Seq<Seq<u8>>, second: Seq<Seq<u8>>)
    ensures
        fold_all(acc, first + second) == fold_all(fold_all(acc, first), second),
    decreases second.len(),
{
    if second.len() == 0 {
        assert(first + second =~= first);
    } else {
        assert((first + second).drop_last() =~= first + second.drop_last());
        lemma_fold_concat(acc, first, second.drop_last());
    }
}

/// Any one digest of a run may as well be folded last.
pub proof fn lemma_fold_move_to_end(
    acc: Option<Seq<u8>>,
    items: Seq<Seq<u8>>,
    k: int,
    width: nat,
)
    requires
        has_width(acc, width),
        all_have_width(items, width),
        0 <= k < items.len(),
    ensures
        fold_all(acc, items) == combine(fold_all(acc, items.remove(k)), Some(items[k])),
    decreases items.len(),
{
    let last = items.len() - 1;
    if k == last {
        assert(items.remove(k) =~= items.drop_last());
    } else {
        let front = items.drop_last();
        lemma_fold_move_to_end(acc, front, k, width);
        let rest = front.remove(k);
        assert(items.remove(k).drop_last() =~= rest);
        assert(items.remove(k).last() == items.last());
        lemma_fold_width(acc, rest, width);
        let base = fold_all(acc, rest);
        let moved = Some(items[k]);
        let tail = Some(items.last());
        lemma_combine_associative(base, moved, tail, width);
        lemma_combine_commutative(moved, tail, width);
        lemma_combine_associative(base, tail, moved, width);
    }
}

/// Order independence: two runs that hold the same digests, each as often in
/// one as in the other, fold to the same checksum in whatever order they come.
pub proof fn lemma_fold_order_independent(
    acc: Option<Seq<u8>>,
    first: Seq<Seq<u8>>,
    second: Seq<Seq<u8>>,
    width: nat,
)
    requires
        has_width(acc, width),
        all_have_width(first, width),
        first.to_multiset() == second.to_multiset(),
    ensures
        fold_all(acc, first) == fold_all(acc, second),
    decreases first.len(),
{
    broadcast use vstd::seq_lib::group_to_multiset_ensures;

    first.to_multiset_ensures();
    second.to_multiset_ensures();
    if first.len() == 0 {
        assert(second.len() == 0);
    } else {
        let last = first.len() - 1;
        let x = first[last];
        assert(first.to_multiset().count(x) > 0);
        assert(second.contains(x));
        let k = choose|k: int| 0 <= k < second.len() && second[k] == x;
        assert(first.remove(last) =~= first.drop_last());
        assert(first.drop_last().to_multiset() =~= second.remove(k).to_multiset());
        assert forall|i: int| 0 <= i < second.len() implies (#[trigger] second[i]).len()
            == width by {
            assert(second.to_multiset().count(second[i]) > 0);
            assert(first.contains(second[i]));
        }
        lemma_fold_order_independent(acc, first.drop_last(), second.remove(k), width);
        lemma_fold_move_to_end(acc, second, k, width);
    }
}

/// A checksum: empty, or one digest of `DIGEST_LEN` bytes, kept as hex text.
pub struct Checksum(String);

impl View for Checksum {
    type V = Option<Seq<u8>>;

    closed spec fn view(&self) -> Option<Seq<u8>> {
        if self.0@.len() == 2 * DIGEST_LEN {
            Some(hex_decode(self.0@))
        } else {
            None
        }
    }
}

impl Checksum {
    #[verifier::type_invariant]
    spec fn well_formed(self) -> bool {
        self.0@.len() == 0 || (self.0@.len() == 2 * DIGEST_LEN && self.0@ == hex_encode(
            hex_decode(self.0@),
        ))
    }

    /// A digest, where there is one, is `DIGEST_LEN` bytes wide.
    pub proof fn lemma_width(self)
        ensures
            self@ matches Some(digest) ==> digest.len() == DIGEST_LEN,
    {
    }

    /// The empty checksum, which yields to whatever is folded into it.
    pub fn new() -> (c: Self)
        ensures
            c@ is None,
    {
        Checksum(String::new())
    }

    /// The checksum that holds the SHA-256 digest of `sha`.
    pub fn with_sha256(sha: &str) -> (c: Self)
        ensures
            c@ == Some(name_digest(sha@)),
    {
        let digest = sha256_of(sha.as_bytes());
        let text = encode(digest.as_slice());
        proof {
            lemma_hex_round_trip(digest@);
            assert(fit(digest@) =~= digest@);
        }
        Checksum(text)
    }

    /// Folds `rhs` into this checksum.
    pub fn update(&mut self, rhs: Self)
        ensures
            final(self)@ == combine(old(self)@, rhs@),
    {
        proof {
            use_type_invariant(&*self);
            use_type_invariant(&rhs);
        }
        if self.0.as_str().is_empty() {
            *self = rhs;
        } else if !rhs.0.as_str().is_empty() {
            proof {
                lemma_hex_round_trip(hex_decode(self.0@));
                lemma_hex_round_trip(hex_decode(rhs.0@));
            }
            let mut a = decode(&self.0).unwrap();
            let b = decode(&rhs.0).unwrap();
            let ghost a0 = a@;
            let mut i: usize = 0;
            while i < a.len()
                invariant
                    i <= a.len(),
                    a.len() == a0.len(),
                    b.len() == a0.len(),
                    forall|j: int| 0 <= j < i ==> a[j] == a0[j] ^ b[j],
                    forall|j: int| i <= j < a.len() ==> a[j] == a0[j],
                decreases a.len() - i,
            {
                let x = a[i] ^ b[i];
                a.set(i, x);
                i = i + 1;
            }
            assert(a@ =~= xor_bytes(a0, b@));
            let text = encode(a.as_slice());
            proof {
                lemma_hex_round_trip(a@);
            }
            *self = Checksum(text);
        }
    }

    /// The checksum as text: nothing while it is empty, else the digest in hex.
    pub fn to_string(&self) -> (text: String)
        ensures
            text@ == checksum_text(self@),
    {
        proof {
            use_type_invariant(self);
        }
        self.0.clone()
    }
}

impl Clone for Checksum {
    fn clone(&self) -> (c: Self)
        ensures
            c == *self,
    {
        proof {
            use_type_invariant(self);
        }
        Checksum(self.0.clone())
    }
}

impl Default for Checksum {
    fn default() -> (c: Self)
        ensures
            c@ is None,
    {
        Checksum::new()
    }
}

} // verus!
