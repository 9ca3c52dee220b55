//! The status register: one slot that holds the status of the current
//! operation. The last write wins.

use crate::models::{OperationStatus, StatusModel};
use vstd::prelude::*;

verus! {

/// The shared slot for the status of the current operation.
pub struct StatusRegister {
    status: OperationStatus,
}

impl View for StatusRegister {
    type V = StatusModel;

    closed spec fn view(&self) -> StatusModel {
        self.status@
    }
}

impl StatusRegister {
    /// A register that holds `Idle`.
    pub fn new() -> (out: Self)
        ensures
            out@ == StatusModel::Idle,
    {
        StatusRegister { status: OperationStatus::Idle }
    }

    /// Overwrites the slot.
    pub fn set(&mut self, status: OperationStatus)
        ensures
            final(self)@ == status@,
    {
        self.status = status;
    }

    /// The status held at the moment.
    pub fn get(&self) -> (out: OperationStatus)
        ensures
            out@ == self@,
    {
        self.status.clone()
    }

    /// Whether the status held is a busy one.
    pub fn is_busy(&self) -> (busy: bool)
        ensures
            busy == self@.is_busy(),
    {
        self.status.is_busy()
    }

    /// The short phrase shown for the status held.
    pub fn to_text(&self) -> (out: String)
        ensures
            out@ == self@.text(),
    {
        self.status.to_text()
    }
}

} // verus!
