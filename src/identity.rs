use vstd::prelude::*;

verus! {

/// A 32-byte account identity (a public key).
#[derive(Debug, Clone, Copy)]
pub struct Identity {
    pub bytes: [u8; 32],
}

impl View for Identity {
    type V = Seq<u8>;

    open spec fn view(&self) -> Seq<u8> {
        self.bytes@
    }
}

/// Who may push new entries.
#[derive(Debug, Clone, Copy)]
pub enum UpdateAuthority {
    /// Any caller may push.
    Unrestricted,
    /// Only this identity may push.
    Restricted(Identity),
}

impl UpdateAuthority {
    /// Whether `signer` may push under this authority.
    pub open spec fn spec_permits(self, signer: Identity) -> bool {
        match self {
            UpdateAuthority::Unrestricted => true,
            UpdateAuthority::Restricted(id) => id@ == signer@,
        }
    }

    pub fn permits(&self, signer: &Identity) -> (r: bool)
        ensures
            r == self.spec_permits(*signer),
    {
        match self {
            UpdateAuthority::Unrestricted => true,
            UpdateAuthority::Restricted(id) => *id == *signer,
        }
    }
}

impl Identity {
    pub fn new(bytes: [u8; 32]) -> (r: Identity)
        ensures
            r.bytes == bytes,
    {
        Identity { bytes }
    }

    /// Whether every byte is zero.
    pub open spec fn spec_is_zero(self) -> bool {
        forall|i: int| 0 <= i < 32 ==> self.bytes@[i] == 0
    }

    /// The identity whose bytes are all zero.
    pub fn zero() -> (r: Identity)
        ensures
            r.spec_is_zero(),
    {
        Identity { bytes: [0u8; 32] }
    }

    pub fn is_zero(&self) -> (r: bool)
        ensures
            r == self.spec_is_zero(),
    {
        let mut i: usize = 0;
        while i < 32
            invariant
                i <= 32,
                forall|j: int| 0 <= j < i ==> self.bytes@[j] == 0,
            decreases 32 - i,
        {
            if self.bytes[i] != 0 {
                return false;
            }
            i = i + 1;
        }
        true
    }

}

impl PartialEq for Identity {
    fn eq(&self, other: &Identity) -> (r: bool) {
        let mut i: usize = 0;
        while i < 32
            invariant
                i <= 32,
                forall|j: int| 0 <= j < i ==> self.bytes@[j] == other.bytes@[j],
            decreases 32 - i,
        {
            if self.bytes[i] != other.bytes[i] {
                return false;
            }
            i = i + 1;
        }
        assert(self.bytes@ =~= other.bytes@);
        true
    }
}

impl vstd::std_specs::cmp::PartialEqSpecImpl for Identity {
    open spec fn obeys_eq_spec() -> bool {
        true
    }

    open spec fn eq_spec(&self, other: &Identity) -> bool {
        self.bytes@ == other.bytes@
    }
}

impl Eq for Identity {
}

} // verus!
