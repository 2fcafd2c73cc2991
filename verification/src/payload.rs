//! The opaque byte payloads exchanged with a contract: parameters, state,
//! state delta and state summary are nominally distinct to keep the ABI
//! boundary honest, and the result code of a state update.

use vstd::prelude::*;
use crate::bytes::copy_bytes;

verus! {

/// Parameters handed to every contract call.
pub struct Parameters {
    pub data: Vec<u8>,
}

/// The full state of a contract.
pub struct State {
    pub data: Vec<u8>,
}

/// An incremental update to a contract's state.
pub struct StateDelta {
    pub data: Vec<u8>,
}

/// A compact digest of a contract's state.
pub struct StateSummary {
    pub data: Vec<u8>,
}

impl View for Parameters {
    type V = Seq<u8>;

    open spec fn view(&self) -> Seq<u8> {
        self.data@
    }
}

impl View for State {
    type V = Seq<u8>;

    open spec fn view(&self) -> Seq<u8> {
        self.data@
    }
}

impl View for StateDelta {
    type V = Seq<u8>;

    open spec fn view(&self) -> Seq<u8> {
        self.data@
    }
}

impl View for StateSummary {
    type V = Seq<u8>;

    open spec fn view(&self) -> Seq<u8> {
        self.data@
    }
}

impl State {
    /// Number of payload bytes.
    pub fn size(&self) -> (r: usize)
        ensures
            r == self@.len(),
    {
        self.data.len()
    }

    /// A fresh copy of the payload.
    pub fn duplicate(&self) -> (r: State)
        ensures
            r@ == self@,
    {
        State { data: copy_bytes(&self.data) }
    }
}

impl Parameters {
    /// Number of payload bytes.
    pub fn size(&self) -> (r: usize)
        ensures
            r == self@.len(),
    {
        self.data.len()
    }
}

impl StateDelta {
    /// Number of payload bytes.
    pub fn size(&self) -> (r: usize)
        ensures
            r == self@.len(),
    {
        self.data.len()
    }
}

impl StateSummary {
    /// Number of payload bytes.
    pub fn size(&self) -> (r: usize)
        ensures
            r == self@.len(),
    {
        self.data.len()
    }
}

/// The verdict a contract returns from a state update.
#[derive(Clone, Copy, Debug, PartialEq, Eq, Structural)]
pub enum UpdateResult {
    /// The update changes nothing; the input state stands.
    ValidNoChange,
    /// The update was applied; the new state is in the output buffer.
    ValidUpdate,
    /// The update is rejected.
    Invalid,
}

/// Decode a contract's `i32` result code into an [`UpdateResult`]:
/// 0 means no change, 1 a valid update, 2 an invalid update, and any
/// other value is a misbehaving contract.
pub fn decode_update_result(code: i32) -> (r: Option<UpdateResult>)
    ensures
        code == 0 ==> r == Some(UpdateResult::ValidNoChange),
        code == 1 ==> r == Some(UpdateResult::ValidUpdate),
        code == 2 ==> r == Some(UpdateResult::Invalid),
        !(0 <= code <= 2) ==> r is None,
{
    if code == 0 {
        Some(UpdateResult::ValidNoChange)
    } else if code == 1 {
        Some(UpdateResult::ValidUpdate)
    } else if code == 2 {
        Some(UpdateResult::Invalid)
    } else {
        None
    }
}

} // verus!
