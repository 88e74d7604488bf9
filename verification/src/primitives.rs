//! Fixed-size values of the chain: account addresses, hashes and 256-bit integers.
use vstd::prelude::*;

verus! {

/// Whether every byte of `bytes` is zero.
pub open spec fn all_zero(bytes: Seq<u8>) -> bool {
    forall|i: int| 0 <= i < bytes.len() ==> bytes[i] == 0u8
}

/// Compares two byte arrays.
pub fn same_bytes<const N: usize>(a: &[u8; N], b: &[u8; N]) -> (r: bool)
    ensures
        r == (*a == *b),
{
    let mut i: usize = 0;
    while i < N
        invariant
            i <= N,
            forall|k: int| 0 <= k < i ==> a[k] == b[k],
        decreases N - i,
    {
        if a[i] != b[i] {
            return false;
        }
        i += 1;
    }
    assert(*a =~= *b);
    true
}

/// Whether a byte array holds zeros only.
pub fn is_all_zero<const N: usize>(bytes: &[u8; N]) -> (r: bool)
    ensures
        r == all_zero(bytes@),
{
    let mut i: usize = 0;
    while i < N
        invariant
            i <= N,
            forall|k: int| 0 <= k < i ==> bytes@[k] == 0u8,
        decreases N - i,
    {
        if bytes[i] != 0 {
            return false;
        }
        i += 1;
    }
    true
}

/// A 20-byte account address.
#[derive(Clone, Copy, Debug, Eq)]
pub struct Address(pub [u8; 20]);

/// A 32-byte hash.
#[derive(Clone, Copy, Debug, Eq)]
pub struct B256(pub [u8; 32]);

/// An unsigned 256-bit integer, held as its big-endian bytes.
#[derive(Clone, Copy, Debug, Eq)]
pub struct U256(pub [u8; 32]);

impl View for Address {
    type V = Seq<u8>;

    open spec fn view(&self) -> Seq<u8> {
        self.0@
    }
}

impl View for B256 {
    type V = Seq<u8>;

    open spec fn view(&self) -> Seq<u8> {
        self.0@
    }
}

impl View for U256 {
    type V = Seq<u8>;

    open spec fn view(&self) -> Seq<u8> {
        self.0@
    }
}

impl PartialEq for Address {
    fn eq(&self, other: &Self) -> (r: bool) {
        same_bytes(&self.0, &other.0)
    }
}

impl vstd::std_specs::cmp::PartialEqSpecImpl for Address {
    open spec fn obeys_eq_spec() -> bool {
        true
    }

    open spec fn eq_spec(&self, other: &Self) -> bool {
        *self == *other
    }
}

impl PartialEq for B256 {
    fn eq(&self, other: &Self) -> (r: bool) {
        same_bytes(&self.0, &other.0)
    }
}

impl vstd::std_specs::cmp::PartialEqSpecImpl for B256 {
    open spec fn obeys_eq_spec() -> bool {
        true
    }

    open spec fn eq_spec(&self, other: &Self) -> bool {
        *self == *other
    }
}

impl PartialEq for U256 {
    fn eq(&self, other: &Self) -> (r: bool) {
        same_bytes(&self.0, &other.0)
    }
}

impl vstd::std_specs::cmp::PartialEqSpecImpl for U256 {
    open spec fn obeys_eq_spec() -> bool {
        true
    }

    open spec fn eq_spec(&self, other: &Self) -> bool {
        *self == *other
    }
}

impl Address {
    /// The address whose bytes are all zero.
    pub open spec fn spec_zero() -> Address {
        Address(vstd::array::spec_array_fill_for_copy_type::<u8, 20>(0u8))
    }

    /// The address whose bytes are all zero.
    #[verifier::when_used_as_spec(spec_zero)]
    pub fn zero() -> (r: Address)
        ensures
            r == Address::spec_zero(),
            all_zero(r@),
    {
        Address([0u8; 20])
    }

    /// Whether this is the zero address.
    pub fn is_zero(&self) -> (r: bool)
        ensures
            r == (*self == Address::spec_zero()),
    {
        let r = is_all_zero(&self.0);
        proof {
            let zero = Address::spec_zero();
            if r {
                assert(self.0 =~= zero.0);
            } else if *self == zero {
                assert(all_zero(self.0@));
            }
        }
        r
    }
}

impl B256 {
    /// The hash whose bytes are all zero.
    pub open spec fn spec_zero() -> B256 {
        B256(vstd::array::spec_array_fill_for_copy_type::<u8, 32>(0u8))
    }

    /// The hash whose bytes are all zero.
    #[verifier::when_used_as_spec(spec_zero)]
    pub fn zero() -> (r: B256)
        ensures
            r == B256::spec_zero(),
            all_zero(r@),
    {
        B256([0u8; 32])
    }
}

impl U256 {
    /// The integer zero.
    pub open spec fn spec_zero() -> U256 {
        U256(vstd::array::spec_array_fill_for_copy_type::<u8, 32>(0u8))
    }

    /// The integer zero.
    #[verifier::when_used_as_spec(spec_zero)]
    pub fn zero() -> (r: U256)
        ensures
            r == U256::spec_zero(),
            all_zero(r@),
    {
        U256([0u8; 32])
    }

    /// Whether this is the integer zero.
    pub fn is_zero(&self) -> (r: bool)
        ensures
            r == (*self == U256::spec_zero()),
    {
        let r = is_all_zero(&self.0);
        proof {
            let zero = U256::spec_zero();
            if r {
                assert(self.0 =~= zero.0);
            } else if *self == zero {
                assert(all_zero(self.0@));
            }
        }
        r
    }
}

/// The address of the given bytes.
pub open spec fn address_of(bytes: Seq<u8>) -> Address {
    choose|a: Address| a@ == bytes
}

/// An address is determined by its bytes.
pub proof fn address_of_its_bytes(address: Address)
    ensures
        address_of(address@) == address,
{
    let other = address_of(address@);
    assert(other@ == address@);
    assert forall|i: int| 0 <= i < 20 implies other.0[i] == address.0[i] by {
        assert(other@[i] == address@[i]);
    }
    assert(other.0 =~= address.0);
}

/// The hash of the given bytes.
pub open spec fn hash_of(bytes: Seq<u8>) -> B256 {
    choose|h: B256| h@ == bytes
}

/// A hash is determined by its bytes.
pub proof fn hash_of_its_bytes(hash: B256)
    ensures
        hash_of(hash@) == hash,
{
    let other = hash_of(hash@);
    assert(other@ == hash@);
    assert forall|i: int| 0 <= i < 32 implies other.0[i] == hash.0[i] by {
        assert(other@[i] == hash@[i]);
    }
    assert(other.0 =~= hash.0);
}

/// The raw bytes of an encoded value.
pub type Bytes = Vec<u8>;

/// The contents of a sequence of byte strings.
pub open spec fn byte_strings(items: Seq<Bytes>) -> Seq<Seq<u8>> {
    items.map_values(|item: Bytes| item@)
}

} // verus!
