//! Account addresses and their textual form.

use vstd::prelude::*;

verus! {

/// The address of an account: 32 opaque bytes.
#[derive(Clone, Copy, Debug, Eq, Hash)]
pub struct Pubkey {
    pub bytes: [u8; 32],
}

impl PartialEq for Pubkey {
    fn eq(&self, other: &Self) -> (r: bool) {
        let mut i: usize = 0;
        while i < 32
            invariant
                i <= 32,
                forall|j: int| 0 <= j < i ==> self.bytes[j] == other.bytes[j],
            decreases 32 - i,
        {
            if self.bytes[i] != other.bytes[i] {
                return false;
            }
            i += 1;
        }
        assert(self.bytes =~= other.bytes);
        true
    }
}

impl vstd::std_specs::cmp::PartialEqSpecImpl for Pubkey {
    open spec fn obeys_eq_spec() -> bool {
        true
    }

    open spec fn eq_spec(&self, other: &Self) -> bool {
        *self == *other
    }
}

impl Pubkey {
    /// The address whose bytes are `bytes`, a sequence of 32.
    pub open spec fn of(bytes: Seq<u8>) -> Pubkey {
        choose|key: Pubkey| key.bytes@ == bytes
    }

    /// An address is the one that has its bytes: two addresses with the same bytes are one.
    pub proof fn lemma_of(key: Pubkey)
        ensures
            Pubkey::of(key.bytes@) == key,
    {
        let chosen = Pubkey::of(key.bytes@);
        assert(chosen.bytes@ == key.bytes@);
        assert(chosen.bytes =~= key.bytes);
    }

    /// The address made of the given bytes.
    pub fn new(bytes: [u8; 32]) -> (key: Pubkey)
        ensures
            key.bytes == bytes,
    {
        Pubkey { bytes }
    }

    /// The bytes of the address.
    pub fn to_bytes(&self) -> (bytes: [u8; 32])
        ensures
            bytes == self.bytes,
    {
        self.bytes
    }

    /// Reads the address stored in `data` at `offset`, if `data` is long enough to hold one there.
    pub fn read_from(data: &[u8], offset: usize) -> (key: Option<Pubkey>)
        ensures
            key is Some <==> offset + 32 <= data@.len(),
            key matches Some(k) ==> k == Pubkey::of(data@.subrange(offset as int, offset + 32)),
    {
        if data.len() < 32 || offset > data.len() - 32 {
            return None;
        }
        let mut bytes: [u8; 32] = [0u8; 32];
        let mut i: usize = 0;
        while i < 32
            invariant
                i <= 32,
                offset + 32 <= data.len(),
                forall|j: int| 0 <= j < i ==> bytes[j] == data@[offset + j],
            decreases 32 - i,
        {
            bytes[i] = data[offset + i];
            i += 1;
        }
        let key = Pubkey { bytes };
        proof {
            assert(bytes@ =~= data@.subrange(offset as int, offset + 32));
            Pubkey::lemma_of(key);
        }
        Some(key)
    }
}

/// The Base58 text (Bitcoin alphabet, no checksum) of a byte string.
pub uninterp spec fn base58_text(bytes: Seq<u8>) -> Seq<char>;

/// Calls `bs58::encode(..).into_string()`, which writes `bytes` in Base58 with the default
/// (Bitcoin) alphabet. The result depends on the bytes alone; the contract names it and
/// claims nothing else.
#[verifier::external_body]
fn base58_encode(bytes: &[u8]) -> (text: String)
    ensures
        text@ == base58_text(bytes@),
{
    bs58::encode(bytes).into_string()
}

/// The address as Base58 text, the form in which addresses are shown and sent.
pub fn encode_address(addr: &Pubkey) -> (text: String)
    ensures
        text@ == base58_text(addr.bytes@),
{
    base58_encode(addr.bytes.as_slice())
}

} // verus!
