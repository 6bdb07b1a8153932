use sha2::{Digest, Sha256};
use vstd::prelude::*;

verus! {

/// Number of bytes in a SHA-256 digest.
pub const DIGEST_LEN: usize = 32;

/// What SHA-256 yields on the UTF-8 encoding of a text.
pub uninterp spec fn sha256_of(s: Seq<char>) -> Seq<u8>;

/// A checksum is either the identity (no bytes) or a full digest.
pub open spec fn valid_bytes(s: Seq<u8>) -> bool {
    s.len() == 0 || s.len() == DIGEST_LEN
}

/// Byte-wise exclusive or of two sequences of the same length.
pub open spec fn xor_bytes(a: Seq<u8>, b: Seq<u8>) -> Seq<u8> {
    Seq::new(a.len(), |i: int| a[i] ^ b[i])
}

/// Combining two checksums: the empty one is the identity, otherwise the
/// bytes are XORed.
pub open spec fn combine(a: Seq<u8>, b: Seq<u8>) -> Seq<u8> {
    if a.len() == 0 {
        b
    } else if b.len() == 0 {
        a
    } else {
        xor_bytes(a, b)
    }
}

/// The lowercase hexadecimal digit for a value below sixteen.
pub open spec fn hex_digit(n: u8) -> char {
    seq!['0', '1', '2', '3', '4', '5', '6', '7', '8', '9', 'a', 'b', 'c', 'd', 'e', 'f'][n as int]
}

/// Two lowercase hexadecimal digits per byte, high nibble first.
pub open spec fn hex_of(b: Seq<u8>) -> Seq<char>
    decreases b.len(),
{
    if b.len() == 0 {
        Seq::empty()
    } else {
        hex_of(b.drop_last()) + seq![hex_digit(b.last() / 16), hex_digit(b.last() % 16)]
    }
}

/// Relies on sha2's `Sha256::digest`: the 32-byte digest of the text's bytes.
#[verifier::external_body]
fn sha256_digest(s: &str) -> (r: Vec<u8>)
    ensures
        r@ == sha256_of(s@),
        r@.len() == DIGEST_LEN,
{
    Sha256::digest(s.as_bytes()).as_slice().to_vec()
}

/// Relies on `hex::encode`: two lowercase hex digits for each byte, in order.
#[verifier::external_body]
fn hex_encode(b: &Vec<u8>) -> (r: String)
    ensures
        r@ == hex_of(b@),
{
    hex::encode(b)
}

/// An order-independent aggregate over a multiset of hashed texts.
pub struct Checksum(Vec<u8>);

impl View for Checksum {
    type V = Seq<u8>;

    closed spec fn view(&self) -> Seq<u8> {
        self.0@
    }
}

impl Checksum {
    pub open spec fn wf(&self) -> bool {
        valid_bytes(self@)
    }

    /// The checksum of one text: its SHA-256 digest.
    pub fn with_sha256(sha: &str) -> (r: Self)
        ensures
            r@ == sha256_of(sha@),
            r@.len() == DIGEST_LEN,
            r.wf(),
    {
        Checksum(sha256_digest(sha))
    }

    /// Folds `rhs` into `self`.
    pub fn update(&mut self, rhs: Self)
        requires
            old(self).wf(),
            rhs.wf(),
        ensures
            final(self)@ == combine(old(self)@, rhs@),
            final(self).wf(),
    {
        if self.0.len() == 0 {
            *self = rhs;
        } else if rhs.0.len() == 0 {
        } else {
            let a = &self.0;
            let b = &rhs.0;
            let mut c: Vec<u8> = Vec::new();
            let mut i: usize = 0;
            while i < a.len()
                invariant
                    a@.len() == b@.len(),
                    i <= a@.len(),
                    c@ == xor_bytes(a@, b@).subrange(0, i as int),
                decreases a@.len() - i,
            {
                c.push(a[i] ^ b[i]);
                i = i + 1;
                assert(c@ =~= xor_bytes(a@, b@).subrange(0, i as int));
            }
            assert(c@ =~= xor_bytes(a@, b@));
            *self = Checksum(c);
        }
    }

    /// The checksum as lowercase hexadecimal text.
    pub fn to_hex(&self) -> (r: String)
        ensures
            r@ == hex_of(self@),
    {
        hex_encode(&self.0)
    }
}

impl Default for Checksum {
    /// The identity checksum.
    fn default() -> (r: Self)
        ensures
            r@ == Seq::<u8>::empty(),
    {
        Checksum(Vec::new())
    }
}

/// Combining is commutative.
pub proof fn lemma_combine_commutative(a: Seq<u8>, b: Seq<u8>)
    requires
        valid_bytes(a),
        valid_bytes(b),
    ensures
        combine(a, b) == combine(b, a),
{
    if a.len() != 0 && b.len() != 0 {
        assert forall|i: int| 0 <= i < a.len() implies xor_bytes(a, b)[i] == xor_bytes(b, a)[i] by {
            let (x, y) = (a[i], b[i]);
            assert(x ^ y == y ^ x) by (bit_vector);
        }
        assert(xor_bytes(a, b) =~= xor_bytes(b, a));
    }
}

/// Combining is associative.
pub proof fn lemma_combine_associative(a: Seq<u8>, b: Seq<u8>, c: Seq<u8>)
    requires
        valid_bytes(a),
        valid_bytes(b),
        valid_bytes(c),
    ensures
        combine(combine(a, b), c) == combine(a, combine(b, c)),
{
    if a.len() != 0 && b.len() != 0 && c.len() != 0 {
        let l = combine(combine(a, b), c);
        let r = combine(a, combine(b, c));
        assert forall|i: int| 0 <= i < a.len() implies l[i] == r[i] by {
            let (x, y, z) = (a[i], b[i], c[i]);
            assert((x ^ y) ^ z == x ^ (y ^ z)) by (bit_vector);
        }
        assert(l =~= r);
    }
}

/// The empty checksum is the identity of combining.
pub proof fn lemma_combine_identity(a: Seq<u8>)
    ensures
        combine(a, Seq::empty()) == a,
        combine(Seq::empty(), a) == a,
{
}

/// Combining two valid checksums yields a valid checksum.
pub proof fn lemma_combine_valid(a: Seq<u8>, b: Seq<u8>)
    requires
        valid_bytes(a),
        valid_bytes(b),
    ensures
        valid_bytes(combine(a, b)),
{
}


/// Every text's digest is a valid checksum.
pub open spec fn all_digests(texts: Seq<Seq<char>>) -> bool {
    forall|i: int| 0 <= i < texts.len() ==> valid_bytes(#[trigger] sha256_of(texts[i]))
}

/// The checksum of a sequence of texts: their digests combined in order,
/// starting from the identity.
pub open spec fn checksum_of(texts: Seq<Seq<char>>) -> Seq<u8>
    decreases texts.len(),
{
    if texts.len() == 0 {
        Seq::empty()
    } else {
        combine(checksum_of(texts.drop_last()), sha256_of(texts.last()))
    }
}

pub proof fn lemma_checksum_of_valid(texts: Seq<Seq<char>>)
    requires
        all_digests(texts),
    ensures
        valid_bytes(checksum_of(texts)),
    decreases texts.len(),
{
    if texts.len() > 0 {
        assert(all_digests(texts.drop_last()));
        lemma_checksum_of_valid(texts.drop_last());
        assert(valid_bytes(sha256_of(texts[texts.len() - 1])));
    }
}

pub proof fn lemma_checksum_of_push(texts: Seq<Seq<char>>, t: Seq<char>)
    ensures
        checksum_of(texts.push(t)) == combine(checksum_of(texts), sha256_of(t)),
{
    assert(texts.push(t).drop_last() =~= texts);
}

/// Taking any one text out of the sequence and combining its digest last
/// gives the same checksum.
proof fn lemma_checksum_of_remove(s: Seq<Seq<char>>, i: int)
    requires
        all_digests(s),
        0 <= i < s.len(),
    ensures
        checksum_of(s) == combine(checksum_of(s.remove(i)), sha256_of(s[i])),
    decreases s.len(),
{
    let last = s.len() - 1;
    if i == last {
        assert(s.remove(i) =~= s.drop_last());
    } else {
        let s1 = s.drop_last();
        assert(all_digests(s1));
        lemma_checksum_of_remove(s1, i);
        let rest = s1.remove(i);
        assert(all_digests(rest)) by {
            assert forall|j: int| 0 <= j < rest.len() implies valid_bytes(
                #[trigger] sha256_of(rest[j]),
            ) by {
                if j < i {
                    assert(rest[j] == s[j]);
                } else {
                    assert(rest[j] == s[j + 1]);
                }
            }
        }
        assert(s.remove(i) =~= rest.push(s[last]));
        lemma_checksum_of_push(rest, s[last]);
        lemma_checksum_of_valid(rest);
        let (c, hi, hl) = (checksum_of(rest), sha256_of(s[i]), sha256_of(s[last]));
        assert(valid_bytes(hi));
        assert(valid_bytes(hl));
        lemma_combine_valid(c, hi);
        lemma_combine_valid(c, hl);
        lemma_combine_associative(c, hi, hl);
        lemma_combine_commutative(hi, hl);
        lemma_combine_associative(c, hl, hi);
    }
}

/// Order independence: two sequences of texts that hold the same multiset
/// have the same checksum, whatever order their digests were combined in.
pub proof fn lemma_checksum_of_permutation(s1: Seq<Seq<char>>, s2: Seq<Seq<char>>)
    requires
        s1.to_multiset() == s2.to_multiset(),
        all_digests(s1),
        all_digests(s2),
    ensures
        checksum_of(s1) == checksum_of(s2),
    decreases s1.len(),
{
    broadcast use vstd::seq_lib::group_to_multiset_ensures;

    if s1.len() > 0 {
        let x = s1.last();
        let p1 = s1.drop_last();
        assert(s1 =~= p1.push(x));
        assert(s1.to_multiset().count(x) > 0);
        assert(s2.contains(x));
        let i = choose|i: int| 0 <= i < s2.len() && s2[i] == x;
        let p2 = s2.remove(i);
        assert(p1.to_multiset() =~= p2.to_multiset());
        assert(all_digests(p1));
        assert(all_digests(p2)) by {
            assert forall|j: int| 0 <= j < p2.len() implies valid_bytes(
                #[trigger] sha256_of(p2[j]),
            ) by {
                if j < i {
                    assert(p2[j] == s2[j]);
                } else {
                    assert(p2[j] == s2[j + 1]);
                }
            }
        }
        lemma_checksum_of_permutation(p1, p2);
        lemma_checksum_of_remove(s2, i);
    } else {
        assert(s1.to_multiset().len() == 0);
        assert(s2.to_multiset().len() == s2.len());
    }
}

} // verus!
