//! The decisions of one device's poller.
//!
//! A reading is carried as the bit pattern of the number that the device's
//! source holds, so that it is stored and compared exactly as it was read.
use vstd::prelude::*;

use crate::config::{interval_of, parse_interval, ConfigView, DeviceConfig, DeviceSet};

verus! {

/// Why a device's value source gave no number.
#[derive(Clone, Copy, Debug, PartialEq, Eq, Structural)]
pub enum SourceError {
    /// The source could not be read.
    Unreadable,
    /// Its trimmed content is not a number.
    Unparsable,
}

/// Why a device's poller could not start.
#[derive(Clone, Copy, Debug, PartialEq, Eq, Structural)]
pub enum InitError {
    /// The first reading of the value source failed.
    Source(SourceError),
    /// The cycle time is not a positive count of milliseconds.
    Interval,
}

/// A message to the supervisor.
pub enum Message {
    /// A device's latest reading, from the poller started in generation `epoch`.
    ValueChange { name: String, value: u64, epoch: u64 },
    /// The device set was replaced by this one.
    ConfigChange(DeviceSet),
}

pub enum MessageView {
    ValueChange { name: Seq<char>, value: u64, epoch: u64 },
    ConfigChange(Seq<(Seq<char>, ConfigView)>),
}

impl View for Message {
    type V = MessageView;

    open spec fn view(&self) -> MessageView {
        match self {
            Message::ValueChange { name, value, epoch } => MessageView::ValueChange {
                name: name@,
                value: *value,
                epoch: *epoch,
            },
            Message::ConfigChange(d) => MessageView::ConfigChange(d@),
        }
    }
}

/// What one poll of a running device came to.
pub enum Poll {
    /// The reading differs from the last one: it is now the current value,
    /// and this message reports it.
    Changed(Message),
    /// The reading equals the current value.
    Unchanged,
    /// The source gave no number: the poller stops.
    Failed(SourceError),
}

/// The state of one device's poller.
pub struct DeviceReader {
    current_value: u64,
    name: String,
    file_path: String,
    cycle_time_ms: u64,
    epoch: u64,
}

pub struct ReaderView {
    pub name: Seq<char>,
    pub file_path: Seq<char>,
    pub cycle_time_ms: u64,
    pub current_value: u64,
    pub epoch: u64,
}

impl View for DeviceReader {
    type V = ReaderView;

    closed spec fn view(&self) -> ReaderView {
        ReaderView {
            name: self.name@,
            file_path: self.file_path@,
            cycle_time_ms: self.cycle_time_ms,
            current_value: self.current_value,
            epoch: self.epoch,
        }
    }
}

/// The poller that a device starts with, given its first reading, or why it
/// cannot start. The source is read before the cycle time is checked.
pub open spec fn init_spec(
    name: Seq<char>,
    config: ConfigView,
    epoch: u64,
    initial: Result<u64, SourceError>,
) -> Result<ReaderView, InitError> {
    match initial {
        Err(e) => Err(InitError::Source(e)),
        Ok(v) => match interval_of(config.cycle_time_ms) {
            Some(ms) => Ok(
                ReaderView {
                    name,
                    file_path: config.file,
                    cycle_time_ms: ms,
                    current_value: v,
                    epoch,
                },
            ),
            None => Err(InitError::Interval),
        },
    }
}

/// The view of a poller or of the reason it could not start.
pub open spec fn result_view(r: Result<DeviceReader, InitError>) -> Result<ReaderView, InitError> {
    match r {
        Ok(d) => Ok(d@),
        Err(e) => Err(e),
    }
}

/// The message that reports a poller's current value.
pub open spec fn report_of(d: ReaderView) -> MessageView {
    MessageView::ValueChange { name: d.name, value: d.current_value, epoch: d.epoch }
}

impl DeviceReader {
    /// A poller's interval is never zero.
    pub open spec fn wf(&self) -> bool {
        self@.cycle_time_ms > 0
    }

    /// Starts the poller of device `name` in generation `epoch`, from the
    /// first reading of its value source.
    pub fn from_config(
        name: String,
        config: DeviceConfig,
        epoch: u64,
        initial: Result<u64, SourceError>,
    ) -> (r: Result<DeviceReader, InitError>)
        ensures
            result_view(r) == init_spec(name@, config@, epoch, initial),
            r is Ok ==> r->Ok_0.wf(),
    {
        let current_value = match initial {
            Ok(v) => v,
            Err(e) => {
                return Err(InitError::Source(e));
            },
        };
        let cycle_time_ms = match parse_interval(config.cycle_time_ms.as_str()) {
            Some(ms) => ms,
            None => {
                return Err(InitError::Interval);
            },
        };
        Ok(DeviceReader { current_value, name, cycle_time_ms, file_path: config.file, epoch })
    }

    /// The message that reports the current value: the first thing a
    /// started poller sends.
    pub fn send_current_value(&self) -> (r: Message)
        ensures
            r@ == report_of(self@),
    {
        Message::ValueChange { name: self.name.clone(), value: self.current_value, epoch: self.epoch }
    }

    /// One poll: takes the new reading of the value source.
    pub fn read_content(&mut self, reading: Result<u64, SourceError>) -> (r: Poll)
        ensures
            match reading {
                Err(e) => r == Poll::Failed(e) && final(self)@ == old(self)@,
                Ok(v) => if v == old(self)@.current_value {
                    r is Unchanged && final(self)@ == old(self)@
                } else {
                    final(self)@ == (ReaderView { current_value: v, ..old(self)@ })
                        && r is Changed && r->Changed_0@ == report_of(final(self)@)
                },
            },
    {
        match reading {
            Err(e) => Poll::Failed(e),
            Ok(v) => {
                if v != self.current_value {
                    self.current_value = v;
                    Poll::Changed(self.send_current_value())
                } else {
                    Poll::Unchanged
                }
            },
        }
    }

    pub fn name(&self) -> (r: &String)
        ensures
            r@ == self@.name,
    {
        &self.name
    }

    pub fn file_path(&self) -> (r: &String)
        ensures
            r@ == self@.file_path,
    {
        &self.file_path
    }

    pub fn cycle_time_ms(&self) -> (r: u64)
        ensures
            r == self@.cycle_time_ms,
    {
        self.cycle_time_ms
    }

    /// The current value, as the bit pattern of the number read.
    pub fn current_value(&self) -> (r: u64)
        ensures
            r == self@.current_value,
    {
        self.current_value
    }

    pub fn epoch(&self) -> (r: u64)
        ensures
            r == self@.epoch,
    {
        self.epoch
    }
}

} // verus!
