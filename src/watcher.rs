//! Detection of a replaced device set.
use vstd::prelude::*;

use crate::config::{same_devices, ConfigView, DeviceSet};
use crate::reader::{Message, MessageView};

verus! {

/// Holds the device set last known to be in force.
pub struct ConfigWatcher {
    last_known: DeviceSet,
}

impl View for ConfigWatcher {
    type V = Seq<(Seq<char>, ConfigView)>;

    closed spec fn view(&self) -> Seq<(Seq<char>, ConfigView)> {
        self.last_known@
    }
}

impl ConfigWatcher {
    /// Starts from the set that is in force.
    pub fn new(devices: DeviceSet) -> (r: ConfigWatcher)
        ensures
            r@ == devices@,
    {
        ConfigWatcher { last_known: devices }
    }

    /// Takes a fresh snapshot of the configuration. Where it holds other
    /// devices than the last known set, it becomes the last known set and the
    /// change is reported; where it holds the same, nothing happens.
    pub fn observe(&mut self, snapshot: DeviceSet) -> (r: Option<Message>)
        ensures
            same_devices(old(self)@, snapshot@) ==> r is None && final(self)@ == old(self)@,
            !same_devices(old(self)@, snapshot@) ==> final(self)@ == snapshot@ && r is Some
                && r->Some_0@ == MessageView::ConfigChange(snapshot@),
    {
        if self.last_known.same_as(&snapshot) {
            None
        } else {
            self.last_known = snapshot.duplicate();
            Some(Message::ConfigChange(snapshot))
        }
    }

    pub fn last_known(&self) -> (r: &DeviceSet)
        ensures
            r@ == self@,
    {
        &self.last_known
    }
}

} // verus!
