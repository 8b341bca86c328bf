//! Devices that come and go.
use vstd::prelude::*;

verus! {

/// A change among the devices. A path is given by its bytes.
#[derive(Debug, PartialEq, Eq)]
pub enum UdevEvent {
    Added { device_id: u64, path: Vec<u8> },
    Changed { device_id: u64 },
    Removed { device_id: u64 },
}

/// The path of the device that an event has added, if it has added one.
pub fn added_path(event: &UdevEvent) -> (added: Option<Vec<u8>>)
    ensures
        (match *event {
            UdevEvent::Added { path, .. } => added matches Some(copy) && copy@ == path@,
            UdevEvent::Changed { .. } | UdevEvent::Removed { .. } => added is None,
        }),
{
    match event {
        UdevEvent::Added { path, .. } => Some(path.clone()),
        UdevEvent::Changed { .. } | UdevEvent::Removed { .. } => None,
    }
}

} // verus!
