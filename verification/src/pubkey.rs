use vstd::prelude::*;
use vstd::std_specs::cmp::PartialEqSpecImpl;

verus! {

/// A 32-byte account identity.
///
/// The all-zero identity is reserved: wherever identities are stored it marks
/// an empty slot.
#[derive(Clone, Copy, Debug, Eq)]
pub struct Pubkey(pub [u8; 32]);

/// Whether `bytes` is the reserved all-zero identity.
pub open spec fn is_null_identity(bytes: Seq<u8>) -> bool {
    bytes.len() == 32 && forall|i: int| 0 <= i < 32 ==> bytes[i] == 0
}

impl View for Pubkey {
    type V = Seq<u8>;

    open spec fn view(&self) -> Seq<u8> {
        self.0@
    }
}

impl Pubkey {
    /// Whether this is the reserved all-zero identity.
    pub open spec fn spec_is_null(&self) -> bool {
        is_null_identity(self@)
    }

    /// Whether this is the reserved all-zero identity.
    #[verifier::when_used_as_spec(spec_is_null)]
    pub fn is_null(&self) -> (null: bool)
        ensures
            null == is_null_identity(self@),
    {
        let mut i: usize = 0;
        while i < 32
            invariant
                i <= 32,
                forall|j: int| 0 <= j < i ==> self.0[j] == 0,
            decreases 32 - i,
        {
            if self.0[i] != 0 {
                return false;
            }
            i += 1;
        }
        true
    }

    pub fn new_from_array(pubkey_array: [u8; 32]) -> (key: Pubkey)
        ensures
            key.0 == pubkey_array,
    {
        Pubkey(pubkey_array)
    }

    pub fn to_bytes(self) -> (bytes: [u8; 32])
        ensures
            bytes == self.0,
    {
        self.0
    }

    /// The reserved all-zero identity.
    pub fn null() -> (key: Pubkey)
        ensures
            key.is_null(),
    {
        Pubkey([0u8; 32])
    }

    /// Two identities are the same exactly when their bytes are.
    pub proof fn lemma_eq_iff_same_bytes(a: Pubkey, b: Pubkey)
        ensures
            (a == b) <==> (a@ == b@),
    {
        if a@ == b@ {
            assert forall|i: int| 0 <= i < 32 implies a.0[i] == b.0[i] by {
                assert(a.0[i] == a@[i]);
                assert(b.0[i] == b@[i]);
            }
            assert(a.0 =~= b.0);
        }
    }
}

impl PartialEq for Pubkey {
    fn eq(&self, other: &Self) -> (r: bool) {
        let mut i: usize = 0;
        while i < 32
            invariant
                i <= 32,
                forall|j: int| 0 <= j < i ==> self.0[j] == other.0[j],
            decreases 32 - i,
        {
            if self.0[i] != other.0[i] {
                return false;
            }
            i += 1;
        }
        assert(self.0 =~= other.0);
        true
    }
}

impl PartialEqSpecImpl for Pubkey {
    open spec fn obeys_eq_spec() -> bool {
        true
    }

    open spec fn eq_spec(&self, other: &Self) -> bool {
        *self == *other
    }
}

} // verus!
