//! Supervision of a set of polled devices whose latest readings are kept in
//! one aggregation store, with live replacement of the device set.
//!
//! The decisions are made here; the polling, the channel, the timers and the
//! reading of files are done by the caller, which hands the results back.
use vstd::prelude::*;

pub mod config;
pub mod lemmas;
pub mod reader;
pub mod store;
pub mod watcher;

use crate::config::{names_distinct, upsert, ConfigView, DeviceSet};
use crate::lemmas::lemma_step_wf;
use crate::reader::{init_spec, result_view, DeviceReader, InitError, Message, MessageView, ReaderView, SourceError};
use crate::store::AggregationStore;

verus! {

/// The generation that follows `e`.
pub open spec fn next_epoch(e: u64) -> u64 {
    if e == u64::MAX {
        0
    } else {
        (e + 1) as u64
    }
}

/// The pollers that start, in device order, from the first `n` devices of
/// `devices`, with `readings[i]` the first reading of device `i`.
pub open spec fn started_upto(
    devices: Seq<(Seq<char>, ConfigView)>,
    readings: Seq<Result<u64, SourceError>>,
    epoch: u64,
    n: nat,
) -> Seq<ReaderView>
    decreases n,
{
    if n == 0 {
        Seq::empty()
    } else {
        let prev = started_upto(devices, readings, epoch, (n - 1) as nat);
        let i = n - 1;
        match init_spec(devices[i].0, devices[i].1, epoch, readings[i]) {
            Ok(d) => prev.push(d),
            Err(_) => prev,
        }
    }
}

/// The pollers that start from all of `devices`.
pub open spec fn started(
    devices: Seq<(Seq<char>, ConfigView)>,
    readings: Seq<Result<u64, SourceError>>,
    epoch: u64,
) -> Seq<ReaderView> {
    started_upto(devices, readings, epoch, devices.len())
}

pub open spec fn names_of(readers: Seq<ReaderView>) -> Seq<Seq<char>> {
    readers.map_values(|d: ReaderView| d.name)
}

pub struct ControllerView {
    /// The device set in force.
    pub devices: Seq<(Seq<char>, ConfigView)>,
    /// The aggregation store.
    pub values: Seq<(Seq<char>, u64)>,
    /// The devices whose pollers run in the current generation.
    pub running: Seq<Seq<char>>,
    /// The current generation of pollers.
    pub epoch: u64,
}

/// The supervisor after it has handled message `m`. A reading is stored only
/// where it comes from a poller of the current generation; a new device set
/// replaces the old one, empties the store and stops every poller.
pub open spec fn step(c: ControllerView, m: MessageView) -> ControllerView {
    match m {
        MessageView::ValueChange { name, value, epoch } => if epoch == c.epoch && c.running.contains(
            name,
        ) {
            ControllerView { values: upsert(c.values, name, value), ..c }
        } else {
            c
        },
        MessageView::ConfigChange(d) => ControllerView {
            devices: d,
            values: Seq::empty(),
            running: Seq::empty(),
            epoch: c.epoch,
        },
    }
}

/// The supervisor after it has started a new generation of pollers for its
/// device set, from their first readings.
pub open spec fn respawn(c: ControllerView, readings: Seq<Result<u64, SourceError>>) -> ControllerView {
    let e = next_epoch(c.epoch);
    ControllerView {
        devices: c.devices,
        values: Seq::empty(),
        running: names_of(started(c.devices, readings, e)),
        epoch: e,
    }
}

/// The supervisor after it has handled each of `msgs` in order.
pub open spec fn run(c: ControllerView, msgs: Seq<MessageView>) -> ControllerView
    decreases msgs.len(),
{
    if msgs.len() == 0 {
        c
    } else {
        step(run(c, msgs.drop_last()), msgs.last())
    }
}

/// The well-formedness of a supervisor: unique device names, unique store
/// names, and a store entry only for a running device.
pub open spec fn controller_wf(c: ControllerView) -> bool {
    &&& names_distinct(c.devices)
    &&& names_distinct(c.values)
    &&& forall|i: int| 0 <= i < c.values.len() ==> c.running.contains(#[trigger] c.values[i].0)
}

/// The message handed to the supervisor is well formed.
pub open spec fn message_wf(m: MessageView) -> bool {
    match m {
        MessageView::ConfigChange(d) => names_distinct(d),
        _ => true,
    }
}

/// The supervisor: owns the device set, the aggregation store and the record
/// of which pollers run.
pub struct Controller {
    devices: DeviceSet,
    values: AggregationStore,
    running: Vec<String>,
    epoch: u64,
}

impl View for Controller {
    type V = ControllerView;

    closed spec fn view(&self) -> ControllerView {
        ControllerView {
            devices: self.devices@,
            values: self.values@,
            running: self.running@.map_values(|s: String| s@),
            epoch: self.epoch,
        }
    }
}

impl Controller {
    pub open spec fn wf(&self) -> bool {
        controller_wf(self@)
    }

    /// A supervisor for `devices`, with an empty store and no poller yet.
    pub fn new(devices: DeviceSet) -> (r: Controller)
        requires
            devices.wf(),
        ensures
            r@ == (ControllerView {
                devices: devices@,
                values: Seq::empty(),
                running: Seq::empty(),
                epoch: 0,
            }),
            r.wf(),
    {
        let r = Controller { devices, values: AggregationStore::new(), running: Vec::new(), epoch: 0 };
        assert(r@.running =~= Seq::<Seq<char>>::empty());
        r
    }

    /// Starts a new generation of pollers, one for each device of the set in
    /// force whose first reading and cycle time are good; `readings[i]` is
    /// the first reading of device `i`. The store is emptied. Returns, for
    /// each device in order, its poller or why it could not start.
    pub fn create_tasks(&mut self, readings: &Vec<Result<u64, SourceError>>) -> (r: Vec<
        Result<DeviceReader, InitError>,
    >)
        requires
            old(self).wf(),
            readings@.len() == old(self)@.devices.len(),
        ensures
            final(self)@ == respawn(old(self)@, readings@),
            final(self).wf(),
            r@.len() == readings@.len(),
            forall|i: int|
                0 <= i < r@.len() ==> result_view(#[trigger] r@[i]) == init_spec(
                    old(self)@.devices[i].0,
                    old(self)@.devices[i].1,
                    final(self)@.epoch,
                    readings@[i],
                ),
            forall|i: int| 0 <= i < r@.len() && #[trigger] r@[i] is Ok ==> r@[i]->Ok_0.wf(),
    {
        let e: u64 = if self.epoch == u64::MAX {
            0
        } else {
            self.epoch + 1
        };
        let ghost devs = self.devices@;
        let mut out: Vec<Result<DeviceReader, InitError>> = Vec::new();
        let mut running: Vec<String> = Vec::new();
        let mut i: usize = 0;
        while i < self.devices.len()
            invariant
                i <= devs.len(),
                devs == self.devices@,
                readings@.len() == devs.len(),
                out@.len() == i,
                forall|j: int|
                    0 <= j < i ==> result_view(#[trigger] out@[j]) == init_spec(
                        devs[j].0,
                        devs[j].1,
                        e,
                        readings@[j],
                    ),
                forall|j: int| 0 <= j < i && #[trigger] out@[j] is Ok ==> out@[j]->Ok_0.wf(),
                running@.map_values(|s: String| s@) =~= names_of(
                    started_upto(devs, readings@, e, i as nat),
                ),
            decreases devs.len() - i,
        {
            let (name, config) = self.devices.entry(i);
            let r = DeviceReader::from_config(name.clone(), config.duplicate(), e, readings[i]);
            let ghost before = running@;
            match &r {
                Ok(d) => {
                    let ghost prev = started_upto(devs, readings@, e, i as nat);
                    assert(init_spec(devs[i as int].0, devs[i as int].1, e, readings@[i as int]) == Ok::<ReaderView, InitError>(d@));
                    assert(started_upto(devs, readings@, e, (i + 1) as nat) == prev.push(d@));
                    running.push(d.name().clone());
                    assert(names_of(prev.push(d@)) =~= names_of(prev).push(d@.name));
                    assert(running@.map_values(|s: String| s@) =~= names_of(
                        started_upto(devs, readings@, e, (i + 1) as nat),
                    ));
                },
                Err(_) => {
                    assert(started_upto(devs, readings@, e, (i + 1) as nat) == started_upto(devs, readings@, e, i as nat));
                },
            }
            out.push(r);
            i = i + 1;
        }
        self.values.clear();
        self.running = running;
        self.epoch = e;
        assert(self@.values =~= Seq::<(Seq<char>, u64)>::empty());
        out
    }

    /// Handles one message. Returns whether the device set was replaced, in
    /// which case every poller must be stopped and `create_tasks` called.
    pub fn handle(&mut self, m: Message) -> (r: bool)
        requires
            old(self).wf(),
            message_wf(m@),
        ensures
            final(self)@ == step(old(self)@, m@),
            final(self).wf(),
            r == (m is ConfigChange),
    {
        proof {
            lemma_step_wf(self@, m@);
        }
        match m {
            Message::ValueChange { name, value, epoch } => {
                if epoch == self.epoch && self.is_running(&name) {
                    self.values.insert(name, value);
                }
                false
            },
            Message::ConfigChange(d) => {
                self.devices = d;
                self.values.clear();
                self.running = Vec::new();
                assert(self@.running =~= Seq::<Seq<char>>::empty());
                true
            },
        }
    }

    /// Whether a poller of device `name` runs in the current generation.
    fn is_running(&self, name: &String) -> (r: bool)
        ensures
            r == self@.running.contains(name@),
    {
        let mut i: usize = 0;
        while i < self.running.len()
            invariant
                i <= self.running@.len(),
                forall|j: int| 0 <= j < i ==> self@.running[j] != name@,
            decreases self.running@.len() - i,
        {
            if self.running[i] == *name {
                assert(self@.running[i as int] == name@);
                return true;
            }
            i = i + 1;
        }
        false
    }

    pub fn devices(&self) -> (r: &DeviceSet)
        ensures
            r@ == self@.devices,
    {
        &self.devices
    }

    /// The aggregation store, for a summary.
    pub fn values(&self) -> (r: &AggregationStore)
        ensures
            r@ == self@.values,
    {
        &self.values
    }

    pub fn epoch(&self) -> (r: u64)
        ensures
            r == self@.epoch,
    {
        self.epoch
    }
}

} // verus!
