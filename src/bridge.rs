//! What the store hands to its host: known displays, change events, and
//! the handler that receives them.

use vstd::prelude::*;
use crate::node::BarNode;

verus! {

/// A physical display as the host reports it.
#[derive(Debug)]
pub struct DisplayInfo {
    pub id: u32,
    pub name: String,
    pub is_main: bool,
}

impl Clone for DisplayInfo {
    fn clone(&self) -> (r: DisplayInfo)
        ensures
            r == *self,
    {
        DisplayInfo { id: self.id, name: self.name.clone(), is_main: self.is_main }
    }
}

/// A change of the store, for the host to mirror.
#[derive(Debug)]
pub enum StateChangeEvent {
    NodeAdded { display: u32, node: BarNode },
    NodeRemoved { display: u32, name: String },
    NodeUpdated { display: u32, node: BarNode },
    NodeMoved { old_display: u32, new_display: u32, node: BarNode },
    FullRefresh { display: u32, nodes: Vec<BarNode> },
}

/// A failure that a handler reports; the store ignores it.
#[derive(Debug)]
pub enum RanmaError {
    General { message: String },
}

impl RanmaError {
    /// The text of the error.
    pub fn message(&self) -> (r: String)
        ensures
            r@ == match self {
                RanmaError::General { message } => message@,
            },
    {
        match self {
            RanmaError::General { message } => message.clone(),
        }
    }
}

/// Receives the changes of the store; implemented by the host.
pub trait StateChangeHandler {
    fn on_state_change(&self, event: StateChangeEvent) -> Result<(), RanmaError>;
}

} // verus!
