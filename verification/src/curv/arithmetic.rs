//! Non-negative big integers as big-endian byte strings.

use vstd::prelude::*;

verus! {

/// The number that a big-endian byte string denotes.
pub open spec fn be_value(bytes: Seq<u8>) -> nat
    decreases bytes.len(),
{
    if bytes.len() == 0 {
        0
    } else {
        be_value(bytes.drop_last()) * 256 + bytes.last() as nat
    }
}

/// The shortest big-endian byte string that denotes `value`; zero is one zero byte.
pub open spec fn minimal_be(value: nat) -> Seq<u8>
    decreases value,
{
    if value < 256 {
        seq![value as u8]
    } else {
        minimal_be(value / 256).push((value % 256) as u8)
    }
}

/// A byte string without a leading zero byte.
pub open spec fn is_canonical(bytes: Seq<u8>) -> bool {
    bytes.len() == 0 || bytes[0] != 0
}

/// Putting a zero byte in front of a byte string does not change its value.
pub proof fn lemma_leading_zero(bytes: Seq<u8>)
    requires
        bytes.len() > 0,
        bytes[0] == 0,
    ensures
        be_value(bytes) == be_value(bytes.skip(1)),
    decreases bytes.len(),
{
    if bytes.len() == 1 {
        assert(bytes.drop_last() =~= Seq::<u8>::empty());
        assert(bytes.skip(1) =~= Seq::<u8>::empty());
    } else {
        lemma_leading_zero(bytes.drop_last());
        assert(bytes.drop_last().skip(1) =~= bytes.skip(1).drop_last());
    }
}

/// Dropping all leading zero bytes does not change the value.
pub proof fn lemma_skip_leading_zeros(bytes: Seq<u8>, k: int)
    requires
        0 <= k <= bytes.len(),
        forall|i: int| 0 <= i < k ==> bytes[i] == 0,
    ensures
        be_value(bytes) == be_value(bytes.skip(k)),
    decreases k,
{
    if k == 0 {
        assert(bytes.skip(0) =~= bytes);
    } else {
        lemma_leading_zero(bytes);
        lemma_skip_leading_zeros(bytes.skip(1), k - 1);
        assert(bytes.skip(1).skip(k - 1) =~= bytes.skip(k));
    }
}

/// A byte string without a leading zero byte denotes at least one, and at
/// least 256 where it has two or more bytes.
proof fn lemma_canonical_lower_bound(bytes: Seq<u8>)
    requires
        bytes.len() >= 1,
        bytes[0] != 0,
    ensures
        be_value(bytes) >= 1,
        bytes.len() >= 2 ==> be_value(bytes) >= 256,
    decreases bytes.len(),
{
    if bytes.len() == 1 {
        assert(bytes.drop_last() =~= Seq::<u8>::empty());
    } else {
        lemma_canonical_lower_bound(bytes.drop_last());
    }
}

/// The shortest byte string of a value denotes that value.
pub proof fn lemma_minimal_be_value(value: nat)
    ensures
        be_value(minimal_be(value)) == value,
        minimal_be(value).len() >= 1,
        value != 0 ==> minimal_be(value)[0] != 0,
    decreases value,
{
    if value < 256 {
        let s = seq![value as u8];
        assert(s.drop_last() =~= Seq::<u8>::empty());
        assert(s.last() == value as u8);
        assert(be_value(s) == be_value(s.drop_last()) * 256 + s.last() as nat);
    } else {
        lemma_minimal_be_value(value / 256);
        let s = minimal_be(value / 256).push((value % 256) as u8);
        assert(s.drop_last() =~= minimal_be(value / 256));
        assert(s.last() == (value % 256) as u8);
        assert(be_value(s) == be_value(s.drop_last()) * 256 + s.last() as nat);
        assert(s[0] == minimal_be(value / 256)[0]);
    }
}

/// A canonical, non-empty byte string is the shortest one of its value.
pub proof fn lemma_canonical_is_minimal(bytes: Seq<u8>)
    requires
        bytes.len() >= 1,
        bytes[0] != 0,
    ensures
        minimal_be(be_value(bytes)) == bytes,
    decreases bytes.len(),
{
    let value = be_value(bytes);
    if bytes.len() == 1 {
        assert(bytes.drop_last() =~= Seq::<u8>::empty());
        assert(minimal_be(value) =~= bytes);
    } else {
        let front = bytes.drop_last();
        lemma_canonical_lower_bound(front);
        lemma_canonical_is_minimal(front);
        assert(value / 256 == be_value(front));
        assert(value % 256 == bytes.last() as nat);
        assert(minimal_be(value) =~= bytes);
    }
}

/// A non-negative integer of any size.
#[derive(Debug, PartialEq, Eq)]
pub struct BigInt {
    magnitude: Vec<u8>,
}

impl View for BigInt {
    type V = nat;

    closed spec fn view(&self) -> nat {
        be_value(self.magnitude@)
    }
}

impl BigInt {
    #[verifier::type_invariant]
    closed spec fn canonical(&self) -> bool {
        is_canonical(self.magnitude@)
    }

    /// The integer that the big-endian `bytes` denote.
    pub fn from_bytes_be(bytes: &[u8]) -> (value: BigInt)
        ensures
            value@ == be_value(bytes@),
    {
        let mut start: usize = 0;
        while start < bytes.len() && bytes[start] == 0
            invariant
                start <= bytes.len(),
                forall|i: int| 0 <= i < start ==> bytes@[i] == 0,
            decreases bytes.len() - start,
        {
            start = start + 1;
        }
        let mut magnitude: Vec<u8> = Vec::new();
        let mut at: usize = start;
        while at < bytes.len()
            invariant
                start <= at <= bytes.len(),
                magnitude@ == bytes@.subrange(start as int, at as int),
            decreases bytes.len() - at,
        {
            magnitude.push(bytes[at]);
            at = at + 1;
        }
        proof {
            assert(magnitude@ =~= bytes@.skip(start as int));
            lemma_skip_leading_zeros(bytes@, start as int);
        }
        BigInt { magnitude }
    }

    /// The shortest big-endian byte string of the integer; zero gives one zero byte.
    pub fn to_vec(value: &BigInt) -> (bytes: Vec<u8>)
        ensures
            bytes@ == minimal_be(value@),
    {
        proof {
            use_type_invariant(value);
        }
        if value.magnitude.len() == 0 {
            let mut bytes: Vec<u8> = Vec::new();
            bytes.push(0u8);
            assert(bytes@ =~= minimal_be(0));
            bytes
        } else {
            proof {
                lemma_canonical_is_minimal(value.magnitude@);
            }
            value.magnitude.clone()
        }
    }

}

impl Clone for BigInt {
    fn clone(&self) -> (copy: BigInt)
        ensures
            copy@ == self@,
    {
        proof {
            use_type_invariant(self);
        }
        BigInt { magnitude: self.magnitude.clone() }
    }
}

/// The integer that the big-endian `bytes` denote.
pub fn from(bytes: &[u8]) -> (value: BigInt)
    ensures
        value@ == be_value(bytes@),
{
    BigInt::from_bytes_be(bytes)
}

} // verus!
