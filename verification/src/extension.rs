//! The contract-side companions of the ledger interface: the status
//! decoding of host calls and the storage cell for the host's random
//! beacon.  Fetching the beacon and raising events are host I/O and
//! live with the caller; this module holds and states what the contract
//! itself computes.

use vstd::prelude::*;

verus! {

/// The failure a contract sees when a host read goes wrong.
#[derive(Clone, Copy, PartialEq, Eq, Structural, Debug)]
pub enum ExtensionReadErr {
    /// The host could not supply a random-beacon value.
    FailGetRandomSource,
}

impl ExtensionReadErr {
    /// Decodes the host's numeric status: zero is success, one is the
    /// beacon failure.  Any other status signals a broken integration
    /// between caller and host — a programming error, not a recoverable
    /// failure — so callers must not present one here.
    pub fn from_status_code(status_code: u32) -> (r: Result<(), ExtensionReadErr>)
        requires
            status_code == 0 || status_code == 1,
        ensures
            status_code == 0 ==> r == Ok::<(), ExtensionReadErr>(()),
            status_code == 1 ==> r == Err::<(), ExtensionReadErr>(
                ExtensionReadErr::FailGetRandomSource,
            ),
    {
        if status_code == 0 {
            Ok(())
        } else {
            Err(ExtensionReadErr::FailGetRandomSource)
        }
    }
}

/// The event payload raised when the stored beacon value is replaced.
#[derive(Clone, Copy, Debug)]
pub struct RandomUpdated {
    /// The value the storage now holds.
    pub new: [u8; 32],
}

/// The contract's storage: the latest random-beacon value handed over
/// by the host.
pub struct Erc1155Extension {
    value: [u8; 32],
}

impl View for Erc1155Extension {
    type V = Seq<u8>;

    closed spec fn view(&self) -> Seq<u8> {
        self.value@
    }
}

impl Erc1155Extension {
    /// Fresh storage, holding the all-zero beacon value.
    pub fn new() -> (r: Erc1155Extension)
        ensures
            r@.len() == 32,
            forall|i: int| 0 <= i < 32 ==> r@[i] == 0,
    {
        Erc1155Extension { value: [0u8; 32] }
    }

    /// Fresh storage; delegates to `new`.
    pub fn default() -> (r: Erc1155Extension)
        ensures
            r@.len() == 32,
            forall|i: int| 0 <= i < 32 ==> r@[i] == 0,
    {
        Erc1155Extension::new()
    }

    /// Store a beacon value the caller fetched from the host, and hand
    /// back the event recording the change for the caller to raise.
    pub fn update_random(&mut self, new_random: [u8; 32]) -> (ev: RandomUpdated)
        ensures
            final(self)@ == new_random@,
            ev.new@ == new_random@,
    {
        self.value = new_random;
        RandomUpdated { new: new_random }
    }

    /// The beacon value currently stored.
    pub fn get_random(&self) -> (r: [u8; 32])
        ensures
            r@ == self@,
    {
        self.value
    }
}

} // verus!
