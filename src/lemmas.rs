//! What holds of the supervisor over several steps.
use vstd::prelude::*;

use crate::config::{has_name, lemma_upsert_at, lemma_upsert_new, names_distinct, ConfigView};
use crate::reader::{init_spec, report_of, MessageView, ReaderView, SourceError};
use crate::{controller_wf, message_wf, names_of, next_epoch, respawn, run, started, started_upto, step, ControllerView};

verus! {

/// A reading and the name it is stored under.
pub open spec fn entry_of(d: ReaderView) -> (Seq<char>, u64) {
    (d.name, d.current_value)
}

proof fn lemma_started_upto(
    devices: Seq<(Seq<char>, ConfigView)>,
    readings: Seq<Result<u64, SourceError>>,
    epoch: u64,
    n: nat,
)
    requires
        names_distinct(devices),
        readings.len() == devices.len(),
        n <= devices.len(),
    ensures
        ({
            let s = started_upto(devices, readings, epoch, n);
            &&& forall|j: int|
                #![trigger s[j]]
                0 <= j < s.len() ==> exists|i: int|
                    0 <= i < n && #[trigger] init_spec(devices[i].0, devices[i].1, epoch, readings[i])
                        == Ok::<ReaderView, crate::reader::InitError>(s[j])
            &&& forall|j: int| 0 <= j < s.len() ==> (#[trigger] s[j]).epoch == epoch
            &&& forall|i: int|
                0 <= i < n && (#[trigger] init_spec(devices[i].0, devices[i].1, epoch, readings[i])) is Ok
                    ==> exists|j: int|
                    0 <= j < s.len() && s[j] == init_spec(
                        devices[i].0,
                        devices[i].1,
                        epoch,
                        readings[i],
                    )->Ok_0
            &&& forall|j: int, k: int|
                0 <= j < s.len() && 0 <= k < s.len() && j != k ==> (#[trigger] s[j]).name != (
                #[trigger] s[k]).name
        }),
    decreases n,
{
    if n > 0 {
        let m = (n - 1) as nat;
        lemma_started_upto(devices, readings, epoch, m);
        let prev = started_upto(devices, readings, epoch, m);
        let s = started_upto(devices, readings, epoch, n);
        let i0 = n - 1;
        let r = init_spec(devices[i0].0, devices[i0].1, epoch, readings[i0]);
        if r is Ok {
            assert(s == prev.push(r->Ok_0));
            assert forall|j: int| #![trigger s[j]] 0 <= j < s.len() implies exists|i: int|
                0 <= i < n && #[trigger] init_spec(devices[i].0, devices[i].1, epoch, readings[i])
                    == Ok::<ReaderView, crate::reader::InitError>(s[j]) by {
                if j == prev.len() {
                    assert(init_spec(devices[i0].0, devices[i0].1, epoch, readings[i0]) == Ok::<
                        ReaderView,
                        crate::reader::InitError,
                    >(s[j]));
                } else {
                    assert(s[j] == prev[j]);
                }
            }
            assert forall|j: int, k: int|
                0 <= j < s.len() && 0 <= k < s.len() && j != k implies (#[trigger] s[j]).name != (
                #[trigger] s[k]).name by {
                if j < prev.len() && k < prev.len() {
                    assert(s[j] == prev[j] && s[k] == prev[k]);
                    assert(prev[j].name != prev[k].name);
                } else if j < prev.len() {
                    assert(s[j] == prev[j]);
                    let i = choose|i: int|
                        0 <= i < m && #[trigger] init_spec(devices[i].0, devices[i].1, epoch, readings[i])
                            == Ok::<ReaderView, crate::reader::InitError>(prev[j]);
                    assert(devices[i].0 != devices[i0].0);
                } else if k < prev.len() {
                    assert(s[k] == prev[k]);
                    let i = choose|i: int|
                        0 <= i < m && #[trigger] init_spec(devices[i].0, devices[i].1, epoch, readings[i])
                            == Ok::<ReaderView, crate::reader::InitError>(prev[k]);
                    assert(devices[i].0 != devices[i0].0);
                }
            }
            assert forall|i: int|
                0 <= i < n && (#[trigger] init_spec(devices[i].0, devices[i].1, epoch, readings[i])) is Ok
                    implies exists|j: int|
                    0 <= j < s.len() && s[j] == init_spec(
                        devices[i].0,
                        devices[i].1,
                        epoch,
                        readings[i],
                    )->Ok_0 by {
                if i < m {
                    let j = choose|j: int|
                        0 <= j < prev.len() && prev[j] == init_spec(
                            devices[i].0,
                            devices[i].1,
                            epoch,
                            readings[i],
                        )->Ok_0;
                    assert(s[j] == prev[j]);
                } else {
                    assert(s[prev.len() as int] == r->Ok_0);
                }
            }
            assert forall|j: int| 0 <= j < s.len() implies (#[trigger] s[j]).epoch == epoch by {
                if j < prev.len() {
                    assert(s[j] == prev[j]);
                }
            }
        } else {
            assert(s == prev);
        }
    }
}

/// Starting a device set gives one poller, hence one first report, to each
/// device whose first reading and cycle time are good, and none to any other
/// device: each started poller is the one its device starts with, no name has
/// two, and each carries the new generation.
pub proof fn lemma_startup_one_report_per_device(
    devices: Seq<(Seq<char>, ConfigView)>,
    readings: Seq<Result<u64, SourceError>>,
    epoch: u64,
)
    requires
        names_distinct(devices),
        readings.len() == devices.len(),
    ensures
        ({
            let s = started(devices, readings, epoch);
            &&& forall|i: int|
                0 <= i < devices.len() && (#[trigger] init_spec(
                    devices[i].0,
                    devices[i].1,
                    epoch,
                    readings[i],
                )) is Ok ==> exists|j: int|
                    0 <= j < s.len() && s[j] == init_spec(
                        devices[i].0,
                        devices[i].1,
                        epoch,
                        readings[i],
                    )->Ok_0
            &&& forall|j: int|
                #![trigger s[j]]
                0 <= j < s.len() ==> exists|i: int|
                    0 <= i < devices.len() && #[trigger] init_spec(devices[i].0, devices[i].1, epoch, readings[i])
                        == Ok::<ReaderView, crate::reader::InitError>(s[j])
            &&& forall|j: int, k: int|
                0 <= j < s.len() && 0 <= k < s.len() && j != k ==> (#[trigger] s[j]).name != (
                #[trigger] s[k]).name
            &&& forall|j: int| 0 <= j < s.len() ==> (#[trigger] s[j]).epoch == epoch
        }),
{
    lemma_started_upto(devices, readings, epoch, devices.len());
    let s = started(devices, readings, epoch);
    assert(s == started_upto(devices, readings, epoch, devices.len()));
    assert(forall|j: int| 0 <= j < s.len() ==> (#[trigger] s[j]).epoch == epoch);
    assert(forall|j: int, k: int|
                0 <= j < s.len() && 0 <= k < s.len() && j != k ==> (#[trigger] s[j]).name != (
                #[trigger] s[k]).name);
}


/// Handling a message keeps the supervisor well formed, and only a new device
/// set changes which pollers run, their generation or the device set.
pub proof fn lemma_step_wf(c: ControllerView, m: MessageView)
    requires
        controller_wf(c),
        message_wf(m),
    ensures
        controller_wf(step(c, m)),
        m is ValueChange ==> step(c, m).running == c.running && step(c, m).epoch == c.epoch
            && step(c, m).devices == c.devices,
{
    match m {
        MessageView::ValueChange { name, value, epoch } => {
            if epoch == c.epoch && c.running.contains(name) {
                let s = c.values;
                let t = step(c, m).values;
                if has_name(s, name) {
                    let i = choose|i: int| 0 <= i < s.len() && #[trigger] s[i].0 == name;
                    lemma_upsert_at(s, i, name, value);
                    assert forall|j: int| 0 <= j < t.len() implies c.running.contains(#[trigger] t[j].0) by {
                        if j != i {
                            assert(t[j] == s[j]);
                        }
                    }
                } else {
                    lemma_upsert_new(s, name, value);
                    assert forall|j: int| 0 <= j < t.len() implies c.running.contains(#[trigger] t[j].0) by {
                        if j < s.len() {
                            assert(t[j] == s[j]);
                        }
                    }
                }
            }
        },
        MessageView::ConfigChange(d) => {},
    }
}

/// Readings alone keep the supervisor well formed and change neither the
/// device set, nor which pollers run, nor their generation.
pub proof fn lemma_run_readings(c: ControllerView, msgs: Seq<MessageView>)
    requires
        controller_wf(c),
        forall|k: int| 0 <= k < msgs.len() ==> (#[trigger] msgs[k]) is ValueChange,
    ensures
        controller_wf(run(c, msgs)),
        run(c, msgs).running == c.running,
        run(c, msgs).epoch == c.epoch,
        run(c, msgs).devices == c.devices,
    decreases msgs.len(),
{
    if msgs.len() > 0 {
        let prev = msgs.drop_last();
        assert forall|k: int| 0 <= k < prev.len() implies (#[trigger] prev[k]) is ValueChange by {
            assert(prev[k] == msgs[k]);
        }
        lemma_run_readings(c, prev);
        assert(msgs.last() is ValueChange);
        lemma_step_wf(run(c, prev), msgs.last());
    }
}

/// A new generation starts well formed.
pub proof fn lemma_respawn_wf(c: ControllerView, readings: Seq<Result<u64, SourceError>>)
    requires
        controller_wf(c),
    ensures
        controller_wf(respawn(c, readings)),
{
}

/// A device whose first reading fails, or whose cycle time is bad, never gets
/// an entry in the store, whatever readings arrive afterwards; and every other
/// device whose first reading and cycle time are good has a running poller.
pub proof fn lemma_unstarted_device_never_stored(
    c: ControllerView,
    readings: Seq<Result<u64, SourceError>>,
    msgs: Seq<MessageView>,
    i: int,
)
    requires
        controller_wf(c),
        readings.len() == c.devices.len(),
        0 <= i < c.devices.len(),
        init_spec(c.devices[i].0, c.devices[i].1, next_epoch(c.epoch), readings[i]) is Err,
        forall|k: int| 0 <= k < msgs.len() ==> (#[trigger] msgs[k]) is ValueChange,
    ensures
        !has_name(run(respawn(c, readings), msgs).values, c.devices[i].0),
        forall|i2: int|
            0 <= i2 < c.devices.len() && (#[trigger] init_spec(
                c.devices[i2].0,
                c.devices[i2].1,
                next_epoch(c.epoch),
                readings[i2],
            )) is Ok ==> respawn(c, readings).running.contains(c.devices[i2].0),
{
    let e = next_epoch(c.epoch);
    let c2 = respawn(c, readings);
    let s = started(c.devices, readings, e);
    lemma_startup_one_report_per_device(c.devices, readings, e);
    lemma_respawn_wf(c, readings);
    lemma_run_readings(c2, msgs);
    let c3 = run(c2, msgs);
    let k = c.devices[i].0;
    if has_name(c3.values, k) {
        let x = choose|x: int| 0 <= x < c3.values.len() && #[trigger] c3.values[x].0 == k;
        assert(c3.running.contains(c3.values[x].0));
        let j = choose|j: int| 0 <= j < c2.running.len() && c2.running[j] == k;
        assert(c2.running[j] == s[j].name);
        let i2 = choose|i2: int|
            0 <= i2 < c.devices.len() && #[trigger] init_spec(c.devices[i2].0, c.devices[i2].1, e, readings[i2])
                == Ok::<ReaderView, crate::reader::InitError>(s[j]);
        assert(c.devices[i2].0 == s[j].name);
        assert(i2 == i);
    }
    assert forall|i2: int|
        0 <= i2 < c.devices.len() && (#[trigger] init_spec(
            c.devices[i2].0,
            c.devices[i2].1,
            e,
            readings[i2],
        )) is Ok implies c2.running.contains(c.devices[i2].0) by {
        let j = choose|j: int|
            0 <= j < s.len() && s[j] == init_spec(c.devices[i2].0, c.devices[i2].1, e, readings[i2])->Ok_0;
        assert(c2.running[j] == s[j].name);
    }
}

proof fn lemma_reports_fill(c: ControllerView, s: Seq<ReaderView>, k: nat)
    requires
        c.running == names_of(s),
        c.values.len() == 0,
        k <= s.len(),
        forall|j: int| 0 <= j < s.len() ==> (#[trigger] s[j]).epoch == c.epoch,
        forall|j: int, l: int|
            0 <= j < s.len() && 0 <= l < s.len() && j != l ==> (#[trigger] s[j]).name != (#[trigger] s[l]).name,
    ensures
        run(c, s.map_values(|d: ReaderView| report_of(d)).take(k as int)) == (ControllerView {
            values: s.take(k as int).map_values(|d: ReaderView| entry_of(d)),
            ..c
        }),
    decreases k,
{
    let msgs = s.map_values(|d: ReaderView| report_of(d));
    if k == 0 {
        assert(c.values =~= s.take(0).map_values(|d: ReaderView| entry_of(d)));
    } else {
        let m = (k - 1) as nat;
        lemma_reports_fill(c, s, m);
        assert(msgs.take(k as int).drop_last() =~= msgs.take(m as int));
        let cur = run(c, msgs.take(m as int));
        let vals = s.take(m as int).map_values(|d: ReaderView| entry_of(d));
        let d = s[m as int];
        assert(msgs.take(k as int).last() == report_of(d));
        assert(c.running[m as int] == d.name);
        assert(c.running.contains(d.name));
        assert(names_distinct(vals)) by {
            assert forall|a: int, b: int|
                0 <= a < vals.len() && 0 <= b < vals.len() && a != b implies #[trigger] vals[a].0
                != #[trigger] vals[b].0 by {
                assert(vals[a].0 == s[a].name && vals[b].0 == s[b].name);
            }
        }
        assert(!has_name(vals, d.name)) by {
            if has_name(vals, d.name) {
                let a = choose|a: int| 0 <= a < vals.len() && #[trigger] vals[a].0 == d.name;
                assert(vals[a].0 == s[a].name);
            }
        }
        lemma_upsert_new(vals, d.name, d.current_value);
        assert(s.take(k as int).map_values(|d: ReaderView| entry_of(d)) =~= vals.push(entry_of(d)));
    }
}

/// Replacing the device set empties the store at once; once the new
/// generation's first reports are handled, the store holds exactly the first
/// reading of each started device, in device order, and nothing else:
/// also of a device that the old set had too.
pub proof fn lemma_replacement_repopulates(
    c: ControllerView,
    d: Seq<(Seq<char>, ConfigView)>,
    readings: Seq<Result<u64, SourceError>>,
)
    requires
        controller_wf(c),
        names_distinct(d),
        readings.len() == d.len(),
    ensures
        step(c, MessageView::ConfigChange(d)).values.len() == 0,
        ({
            let c2 = respawn(step(c, MessageView::ConfigChange(d)), readings);
            let s = started(d, readings, c2.epoch);
            run(c2, s.map_values(|x: ReaderView| report_of(x))).values == s.map_values(
                |x: ReaderView| entry_of(x),
            )
        }),
{
    let c1 = step(c, MessageView::ConfigChange(d));
    let c2 = respawn(c1, readings);
    let s = started(d, readings, c2.epoch);
    lemma_startup_one_report_per_device(d, readings, c2.epoch);
    lemma_reports_fill(c2, s, s.len());
    let msgs = s.map_values(|x: ReaderView| report_of(x));
    assert(msgs.take(s.len() as int) =~= msgs);
    assert(s.take(s.len() as int) =~= s);
}

} // verus!
