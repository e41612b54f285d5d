//! The application engine: apply a merged command set to a device
//! collection, indexed setters first, the global fallback second, then the
//! getter pass, isolating per-device failures.
//!
//! Devices are modelled as plain values: an index, a display name, the
//! brightness a read would report, and whether reads and writes succeed.
//! The process wiring that talks to real hardware drives the same decision
//! functions one device at a time.

use vstd::prelude::*;

use crate::cli::{
    arguments_valid, barg_valid, bvalue_valid, setters_valid, Arguments, BAction, BArg, BScope,
    BValue, Getter,
};
use crate::progressbar::{
    create_progressbar, progressbar_info_valid, progressbar_text, ProgressBarInfo,
};
use vstd::pervasive::VecAdditionalExecFns;

verus! {

/// One display device, as the engine sees it.
#[derive(Debug)]
pub struct Monitor {
    /// The stable index the collection hands out; the numbering offset is
    /// the caller's choice.
    pub index: usize,
    /// The display name used in rendered output.
    pub name: String,
    /// The brightness a read reports.
    pub brightness: u32,
    /// Whether reads succeed on this device.
    pub readable: bool,
    /// Whether writes succeed on this device.
    pub writable: bool,
}

/// A device collection is well formed when indices are pairwise distinct.
pub open spec fn monitors_valid(devs: Seq<Monitor>) -> bool {
    forall|i: int, j: int| 0 <= i < j < devs.len() ==> devs[i].index != devs[j].index
}

/// What happened to one device during the setter pass.
#[derive(Debug, Clone, Copy, PartialEq, Eq, Structural)]
pub enum ApplyEvent {
    /// A referenced index is absent from the collection; that scope is
    /// skipped with a warning.
    DeviceNotFound { index: usize },
    /// The device's brightness could not be read; the device is skipped.
    ReadError { index: usize },
    /// The write failed; other devices are unaffected.
    WriteError { index: usize, desired: u32 },
    /// The device already shows the desired value; no write occurs.
    NoChange { index: usize },
    /// The device was written with the desired value.
    Written { index: usize, desired: u32 },
}

/// A value clamped into `[min_value, max_value]`.
pub open spec fn clamp_spec(value: u32, min_value: u32, max_value: u32) -> u32 {
    if value > max_value {
        max_value
    } else if value < min_value {
        min_value
    } else {
        value
    }
}

/// Clamp a value into a range.
pub fn clamp_to_range(value: u32, min_value: u32, max_value: u32) -> (r: u32)
    requires
        min_value <= max_value,
    ensures
        r == clamp_spec(value, min_value, max_value),
{
    if value > max_value {
        max_value
    } else if value < min_value {
        min_value
    } else {
        value
    }
}

/// Addition that sticks at the largest value instead of wrapping.
pub fn saturating_add(a: u32, b: u32) -> (r: u32)
    ensures
        r as int == if a + b > u32::MAX {
            u32::MAX as int
        } else {
            a + b
        },
{
    if a > u32::MAX - b {
        u32::MAX
    } else {
        a + b
    }
}

/// Subtraction that sticks at zero instead of wrapping.
pub fn saturating_sub(a: u32, b: u32) -> (r: u32)
    ensures
        r as int == if a >= b {
            a - b
        } else {
            0
        },
{
    if a >= b {
        a - b
    } else {
        0
    }
}

/// A read value clamped to the valid brightness range.
pub open spec fn clamp100(v: u32) -> u32 {
    if v > 100 {
        100
    } else {
        v
    }
}

/// The value a mutation asks the device to show, computed from the clamped
/// current reading: an absolute set, a saturating increment clamped to one
/// hundred, or a saturating decrement floored at zero.
pub open spec fn desired_spec(current_raw: u32, v: BValue) -> u32
    recommends
        bvalue_valid(v),
        v.action != BAction::Get,
{
    let cur = clamp100(current_raw);
    let mag = (v.brightness->0) as u32;
    if v.action == BAction::Dec {
        if cur < mag {
            0
        } else {
            (cur - mag) as u32
        }
    } else if v.action == BAction::Inc {
        if cur + mag > 100 {
            100
        } else {
            (cur + mag) as u32
        }
    } else {
        mag
    }
}

/// The device state after one mutation: unreadable and unwritable devices
/// keep their value, and a device already at the desired value is left
/// untouched.
pub open spec fn written_monitor(m: Monitor, v: BValue) -> Monitor {
    if !m.readable {
        m
    } else {
        let des = desired_spec(m.brightness, v);
        if des == clamp100(m.brightness) {
            m
        } else if !m.writable {
            m
        } else {
            Monitor { brightness: des, ..m }
        }
    }
}

/// The event one mutation reports for its target device.
pub open spec fn apply_event(m: Monitor, v: BValue) -> ApplyEvent {
    if !m.readable {
        ApplyEvent::ReadError { index: m.index }
    } else {
        let des = desired_spec(m.brightness, v);
        if des == clamp100(m.brightness) {
            ApplyEvent::NoChange { index: m.index }
        } else if !m.writable {
            ApplyEvent::WriteError { index: m.index, desired: des }
        } else {
            ApplyEvent::Written { index: m.index, desired: des }
        }
    }
}

/// Apply one setter to one device: read, clamp, compute the desired value,
/// and write only when it differs from the current reading.
pub fn apply_setter_barg(monitor: &mut Monitor, barg: &BArg) -> (ev: ApplyEvent)
    requires
        barg_valid(*barg),
        barg.value.action != BAction::Get,
    ensures
        *final(monitor) == written_monitor(*old(monitor), barg.value),
        ev == apply_event(*old(monitor), barg.value),
{
    if !monitor.readable {
        return ApplyEvent::ReadError { index: monitor.index };
    }
    let current_brightness: u32 = clamp_to_range(monitor.brightness, 0, 100);
    let mag: u32 = match barg.value.brightness {
        Some(b) => b as u32,
        None => 0,
    };
    let desired_brightness: u32 = match barg.value.action {
        BAction::Dec => saturating_sub(current_brightness, mag),
        BAction::Inc => clamp_to_range(saturating_add(current_brightness, mag), 0, 100),
        _ => mag,
    };
    if current_brightness == desired_brightness {
        return ApplyEvent::NoChange { index: monitor.index };
    }
    if !monitor.writable {
        return ApplyEvent::WriteError { index: monitor.index, desired: desired_brightness };
    }
    monitor.brightness = desired_brightness;
    ApplyEvent::Written { index: monitor.index, desired: desired_brightness }
}

/// The first setter among `setters[..upto]` whose scope is `Index(idx)`.
pub open spec fn index_setter_in_prefix(setters: Seq<BArg>, idx: usize, upto: int) -> Option<
    BValue,
>
    decreases upto,
{
    if upto <= 0 {
        None
    } else {
        match index_setter_in_prefix(setters, idx, upto - 1) {
            Some(v) => Some(v),
            None => {
                if setters[upto - 1].scope == BScope::Index(idx) {
                    Some(setters[upto - 1].value)
                } else {
                    None
                }
            },
        }
    }
}

/// The setter explicitly targeting index `idx`, if any.
pub open spec fn index_setter_for(setters: Seq<BArg>, idx: usize) -> Option<BValue> {
    index_setter_in_prefix(setters, idx, setters.len() as int)
}

/// The global setter; a well-formed list keeps it in last position.
pub open spec fn global_setter(setters: Seq<BArg>) -> Option<BValue> {
    if setters.len() > 0 && setters.last().scope is Global {
        Some(setters.last().value)
    } else {
        None
    }
}

/// The setter that decides a present device's fate: its explicit indexed
/// setter if one exists, else the global fallback, else none.
pub open spec fn applicable_setter(setters: Seq<BArg>, m: Monitor) -> Option<BValue> {
    match index_setter_for(setters, m.index) {
        Some(v) => Some(v),
        None => global_setter(setters),
    }
}

/// The device state after the whole setter pass.
pub open spec fn final_monitor(setters: Seq<BArg>, m: Monitor) -> Monitor {
    match applicable_setter(setters, m) {
        Some(v) => written_monitor(m, v),
        None => m,
    }
}

pub open spec fn has_monitor(devs: Seq<Monitor>, idx: usize) -> bool {
    exists|k: int| 0 <= k < devs.len() && (#[trigger] devs[k]).index == idx
}

/// The device with the given index (unique in a well-formed collection).
pub open spec fn monitor_at(devs: Seq<Monitor>, idx: usize) -> Monitor {
    devs[choose|k: int| 0 <= k < devs.len() && (#[trigger] devs[k]).index == idx]
}

/// Events of the indexed phase over the first `i` setters, in input order.
pub open spec fn setter_events_upto(devs: Seq<Monitor>, setters: Seq<BArg>, i: int) -> Seq<
    ApplyEvent,
>
    decreases i,
{
    if i <= 0 {
        Seq::<ApplyEvent>::empty()
    } else {
        let prev = setter_events_upto(devs, setters, i - 1);
        let a = setters[i - 1];
        match a.scope {
            BScope::Global => prev,
            BScope::Index(n) => {
                if has_monitor(devs, n) {
                    prev + seq![apply_event(monitor_at(devs, n), a.value)]
                } else {
                    prev + seq![ApplyEvent::DeviceNotFound { index: n }]
                }
            },
        }
    }
}

/// Events of the global-fallback phase over the first `k` devices: the
/// fallback touches exactly the devices no indexed setter reached.
pub open spec fn global_events_upto(
    devs: Seq<Monitor>,
    setters: Seq<BArg>,
    g: BValue,
    k: int,
) -> Seq<ApplyEvent>
    decreases k,
{
    if k <= 0 {
        Seq::<ApplyEvent>::empty()
    } else {
        let prev = global_events_upto(devs, setters, g, k - 1);
        let m = devs[k - 1];
        if index_setter_for(setters, m.index) is Some {
            prev
        } else {
            prev + seq![apply_event(m, g)]
        }
    }
}

/// All events of the setter pass, in the order they are reported.
pub open spec fn setter_pass_events(devs: Seq<Monitor>, setters: Seq<BArg>) -> Seq<ApplyEvent> {
    let p1 = setter_events_upto(devs, setters, setters.len() as int);
    match global_setter(setters) {
        Some(g) => p1 + global_events_upto(devs, setters, g, devs.len() as int),
        None => p1,
    }
}

/// An indexed setter exists exactly when some list entry targets the index.
proof fn lemma_index_setter_exists(setters: Seq<BArg>, idx: usize, upto: int)
    requires
        0 <= upto <= setters.len(),
    ensures
        index_setter_in_prefix(setters, idx, upto) is Some <==> exists|j: int|
            0 <= j < upto && (#[trigger] setters[j]).scope == BScope::Index(idx),
    decreases upto,
{
    if upto > 0 {
        lemma_index_setter_exists(setters, idx, upto - 1);
    }
}

/// Find the position of the device with the given index.
fn find_monitor(devices: &Vec<Monitor>, index: usize) -> (r: Option<usize>)
    ensures
        match r {
            Some(p) => p < devices@.len() && devices@[p as int].index == index && has_monitor(
                devices@,
                index,
            ),
            None => !has_monitor(devices@, index),
        },
{
    let n = devices.len();
    let mut i: usize = 0;
    while i < n
        invariant
            i <= n,
            n == devices@.len(),
            forall|j: int| 0 <= j < i ==> (#[trigger] devices@[j]).index != index,
        decreases n - i,
    {
        if devices[i].index == index {
            return Some(i);
        }
        i += 1;
    }
    None
}

/// Whether some setter in the list explicitly targets the index.
fn has_index_setter(setters: &Vec<BArg>, index: usize) -> (b: bool)
    ensures
        b == (index_setter_for(setters@, index) is Some),
{
    let n = setters.len();
    let mut i: usize = 0;
    while i < n
        invariant
            i <= n,
            n == setters@.len(),
            forall|j: int| 0 <= j < i ==> (#[trigger] setters@[j]).scope != BScope::Index(index),
        decreases n - i,
    {
        if setters[i].scope == BScope::Index(index) {
            proof {
                lemma_index_setter_exists(setters@, index, setters@.len() as int);
            }
            return true;
        }
        i += 1;
    }
    proof {
        lemma_index_setter_exists(setters@, index, setters@.len() as int);
    }
    false
}

/// Take a copy of a device's state.
fn copy_monitor(m: &Monitor) -> (r: Monitor)
    ensures
        r == *m,
{
    Monitor {
        index: m.index,
        name: m.name.clone(),
        brightness: m.brightness,
        readable: m.readable,
        writable: m.writable,
    }
}

/// The setter pass: apply indexed setters in order, then the global
/// fallback to every device not explicitly set.  Per-device failures are
/// reported as events and never stop the pass.
pub fn run_setters(devices: &mut Vec<Monitor>, setters: &Vec<BArg>) -> (events: Vec<ApplyEvent>)
    requires
        monitors_valid(old(devices)@),
        setters_valid(setters@),
    ensures
        final(devices)@.len() == old(devices)@.len(),
        forall|k: int|
            0 <= k < old(devices)@.len() ==> #[trigger] final(devices)@[k] == final_monitor(
                setters@,
                old(devices)@[k],
            ),
        events@ == setter_pass_events(old(devices)@, setters@),
        monitors_valid(final(devices)@),
{
    let ghost devs0 = old(devices)@;
    let mut events: Vec<ApplyEvent> = Vec::new();
    let n = setters.len();
    let mut i: usize = 0;
    while i < n
        invariant
            i <= n,
            n == setters@.len(),
            setters_valid(setters@),
            monitors_valid(devs0),
            devs0 == old(devices)@,
            devices@.len() == devs0.len(),
            forall|k: int|
                0 <= k < devs0.len() ==> #[trigger] devices@[k] == (
                match index_setter_in_prefix(setters@, devs0[k].index, i as int) {
                    Some(v) => written_monitor(devs0[k], v),
                    None => devs0[k],
                }),
            events@ == setter_events_upto(devs0, setters@, i as int),
        decreases n - i,
    {
        let barg: BArg = setters[i];
        match barg.scope {
            BScope::Global => {
            },
            BScope::Index(index) => {
                proof {
                    lemma_index_setter_exists(setters@, index, i as int);
                    assert forall|j: int| 0 <= j < i implies (#[trigger] setters@[j]).scope
                        != BScope::Index(index) by {
                        assert(setters@[j].scope != setters@[i as int].scope);
                    }
                    assert(index_setter_in_prefix(setters@, index, i as int) is None);
                }
                proof {
                    assert forall|k: int| 0 <= k < devs0.len() implies #[trigger] devices@[k].index
                        == devs0[k].index by {
                        assert(devices@[k] == (
                        match index_setter_in_prefix(setters@, devs0[k].index, i as int) {
                            Some(v) => written_monitor(devs0[k], v),
                            None => devs0[k],
                        }));
                    }
                }
                match find_monitor(devices, index) {
                    None => {
                        proof {
                            if has_monitor(devs0, index) {
                                let w = choose|k: int|
                                    0 <= k < devs0.len() && (#[trigger] devs0[k]).index == index;
                                assert(devices@[w].index == index);
                                assert(has_monitor(devices@, index));
                            }
                        }
                        events.push(ApplyEvent::DeviceNotFound { index });
                        proof {
                            assert(events@ =~= setter_events_upto(devs0, setters@, i + 1));
                        }
                    },
                    Some(p) => {
                        let mut m = copy_monitor(&devices[p]);
                        proof {
                            assert(devs0[p as int].index == index);
                            assert(has_monitor(devs0, index));
                            assert(devices@[p as int] == devs0[p as int]);
                            assert(monitor_at(devs0, index) == devs0[p as int]) by {
                                let w = choose|k: int|
                                    0 <= k < devs0.len() && (#[trigger] devs0[k]).index == index;
                                assert(devs0[w].index == index);
                                assert(w == p as int);
                            }
                        }
                        let ev = apply_setter_barg(&mut m, &barg);
                        devices.set(p, m);
                        events.push(ev);
                        proof {
                            assert(events@ =~= setter_events_upto(devs0, setters@, i + 1));
                        }
                    },
                }
            },
        }
        proof {
            assert forall|k: int| 0 <= k < devs0.len() implies #[trigger] devices@[k] == (
            match index_setter_in_prefix(setters@, devs0[k].index, i + 1) {
                Some(v) => written_monitor(devs0[k], v),
                None => devs0[k],
            }) by {
                let idxk = devs0[k].index;
                assert(index_setter_in_prefix(setters@, idxk, i + 1) == (
                match index_setter_in_prefix(setters@, idxk, i as int) {
                    Some(v) => Some(v),
                    None => {
                        if setters@[i as int].scope == BScope::Index(idxk) {
                            Some(setters@[i as int].value)
                        } else {
                            None
                        }
                    },
                }));
            }
        }
        i += 1;
    }

    let has_global: bool = if n > 0 {
        match setters[n - 1].scope {
            BScope::Global => true,
            _ => false,
        }
    } else {
        false
    };
    if has_global {
        let gb: BArg = setters[n - 1];
        let ghost p1 = setter_events_upto(devs0, setters@, n as int);
        let dcount = devices.len();
        let mut k: usize = 0;
        while k < dcount
            invariant
                k <= dcount,
                dcount == devs0.len(),
                n == setters@.len(),
                n > 0,
                gb == setters@[n - 1],
                gb.scope is Global,
                setters_valid(setters@),
                monitors_valid(devs0),
                devs0 == old(devices)@,
                devices@.len() == devs0.len(),
                p1 == setter_events_upto(devs0, setters@, n as int),
                forall|j: int|
                    0 <= j < k ==> #[trigger] devices@[j] == final_monitor(setters@, devs0[j]),
                forall|j: int|
                    k <= j < devs0.len() ==> #[trigger] devices@[j] == (
                    match index_setter_for(setters@, devs0[j].index) {
                        Some(v) => written_monitor(devs0[j], v),
                        None => devs0[j],
                    }),
                events@ == p1 + global_events_upto(devs0, setters@, gb.value, k as int),
            decreases dcount - k,
        {
            let idx = devices[k].index;
            proof {
                assert(devices@[k as int] == (match index_setter_for(setters@, devs0[k as int].index) {
                    Some(v) => written_monitor(devs0[k as int], v),
                    None => devs0[k as int],
                }));
            }
            if !has_index_setter(setters, idx) {
                proof {
                    assert(devices@[k as int] == devs0[k as int]);
                    assert(devs0[k as int].index == idx);
                }
                let mut m = copy_monitor(&devices[k]);
                let ev = apply_setter_barg(&mut m, &gb);
                devices.set(k, m);
                events.push(ev);
                proof {
                    assert(events@ =~= p1 + global_events_upto(
                        devs0,
                        setters@,
                        gb.value,
                        k + 1,
                    ));
                    assert(devices@[k as int] == final_monitor(setters@, devs0[k as int]));
                }
            } else {
                proof {
                    assert(devices@[k as int] == final_monitor(setters@, devs0[k as int]));
                    assert(events@ =~= p1 + global_events_upto(
                        devs0,
                        setters@,
                        gb.value,
                        k + 1,
                    ));
                }
            }
            k += 1;
        }
        proof {
            assert(global_setter(setters@) == Some(gb.value));
            assert(events@ == setter_pass_events(devs0, setters@));
        }
    } else {
        proof {
            assert(global_setter(setters@) is None);
            assert forall|k: int| 0 <= k < devs0.len() implies #[trigger] devices@[k]
                == final_monitor(setters@, devs0[k]) by {
                assert(devices@[k] == (match index_setter_for(setters@, devs0[k].index) {
                    Some(v) => written_monitor(devs0[k], v),
                    None => devs0[k],
                }));
            }
        }
    }
    proof {
        assert forall|i2: int, j2: int|
            0 <= i2 < j2 < devices@.len() implies devices@[i2].index != devices@[j2].index by {
            assert(devices@[i2] == final_monitor(setters@, devs0[i2]));
            assert(devices@[j2] == final_monitor(setters@, devs0[j2]));
            assert(devices@[i2].index == devs0[i2].index);
            assert(devices@[j2].index == devs0[j2].index);
        }
    }
    events
}

/// The line rendered for one queried device: its name, a separator, and
/// either the bar or an error text when the device cannot be read.
pub open spec fn render_line(m: Monitor, info: &ProgressBarInfo) -> Seq<char> {
    if m.readable {
        m.name@ + " - "@ + progressbar_text(clamp100(m.brightness), info)
    } else {
        m.name@ + " - "@ + "could not read brightness"@
    }
}

/// Lines of a global getter over the first `k` devices, in order.
pub open spec fn global_getter_lines(devs: Seq<Monitor>, info: &ProgressBarInfo, k: int) -> Seq<
    Seq<char>,
>
    decreases k,
{
    if k <= 0 {
        Seq::<Seq<char>>::empty()
    } else {
        global_getter_lines(devs, info, k - 1) + seq![render_line(devs[k - 1], info)]
    }
}

/// Lines and warnings of an indexed getter list over its first `k` scopes.
pub open spec fn indexed_getter_outcome(
    devs: Seq<Monitor>,
    scopes: Seq<BScope>,
    info: &ProgressBarInfo,
    k: int,
) -> (Seq<Seq<char>>, Seq<ApplyEvent>)
    decreases k,
{
    if k <= 0 {
        (Seq::<Seq<char>>::empty(), Seq::<ApplyEvent>::empty())
    } else {
        let (pl, pw) = indexed_getter_outcome(devs, scopes, info, k - 1);
        match scopes[k - 1] {
            BScope::Global => (pl, pw),
            BScope::Index(n) => {
                if has_monitor(devs, n) {
                    (pl + seq![render_line(monitor_at(devs, n), info)], pw)
                } else {
                    (pl, pw + seq![ApplyEvent::DeviceNotFound { index: n }])
                }
            },
        }
    }
}

/// Lines and warnings of the whole getter pass.
pub open spec fn getter_outcome(
    devs: Seq<Monitor>,
    getters: &Option<Getter>,
    info: &ProgressBarInfo,
) -> (Seq<Seq<char>>, Seq<ApplyEvent>) {
    match getters {
        Option::None => (Seq::<Seq<char>>::empty(), Seq::<ApplyEvent>::empty()),
        Option::Some(Getter::Global) => (
            global_getter_lines(devs, info, devs.len() as int),
            Seq::<ApplyEvent>::empty(),
        ),
        Option::Some(Getter::Many(scopes)) => indexed_getter_outcome(
            devs,
            scopes@,
            info,
            scopes@.len() as int,
        ),
    }
}

/// Render the output line for one device.
pub fn render_monitor_line(m: &Monitor, progressbar_info: &ProgressBarInfo) -> (s: String)
    requires
        progressbar_info_valid(progressbar_info),
    ensures
        s@ == render_line(*m, progressbar_info),
{
    let mut s = m.name.clone();
    s.append(" - ");
    if m.readable {
        let clamped = clamp_to_range(m.brightness, 0, 100);
        let bar = create_progressbar(clamped, progressbar_info);
        s.append(bar.as_str());
    } else {
        s.append("could not read brightness");
    }
    s
}

/// The getter pass: render every device for a global getter, or each
/// listed index in input order, warning on absent indices.
pub fn run_getters(
    devices: &Vec<Monitor>,
    getters: &Option<Getter>,
    progressbar_info: &ProgressBarInfo,
) -> (r: (Vec<String>, Vec<ApplyEvent>))
    requires
        monitors_valid(devices@),
        progressbar_info_valid(progressbar_info),
    ensures
        (r.0.deep_view(), r.1@) == getter_outcome(devices@, getters, progressbar_info),
{
    let mut lines: Vec<String> = Vec::new();
    let mut warns: Vec<ApplyEvent> = Vec::new();
    match getters {
        Option::None => {
            proof {
                assert(lines.deep_view() =~= Seq::<Seq<char>>::empty());
            }
        },
        Option::Some(Getter::Global) => {
            let n = devices.len();
            let mut k: usize = 0;
            proof {
                assert(lines.deep_view() =~= Seq::<Seq<char>>::empty());
            }
            while k < n
                invariant
                    k <= n,
                    n == devices@.len(),
                    progressbar_info_valid(progressbar_info),
                    warns@ == Seq::<ApplyEvent>::empty(),
                    lines.deep_view() == global_getter_lines(devices@, progressbar_info, k as int),
                decreases n - k,
            {
                let line = render_monitor_line(&devices[k], progressbar_info);
                lines.push(line);
                proof {
                    assert(lines.deep_view() =~= global_getter_lines(
                        devices@,
                        progressbar_info,
                        k + 1,
                    ));
                }
                k += 1;
            }
        },
        Option::Some(Getter::Many(scopes)) => {
            let n = scopes.len();
            let mut k: usize = 0;
            proof {
                assert(lines.deep_view() =~= Seq::<Seq<char>>::empty());
            }
            while k < n
                invariant
                    k <= n,
                    n == scopes@.len(),
                    monitors_valid(devices@),
                    progressbar_info_valid(progressbar_info),
                    (lines.deep_view(), warns@) == indexed_getter_outcome(
                        devices@,
                        scopes@,
                        progressbar_info,
                        k as int,
                    ),
                decreases n - k,
            {
                match scopes[k] {
                    BScope::Global => {
                    },
                    BScope::Index(index) => {
                        match find_monitor(devices, index) {
                            None => {
                                warns.push(ApplyEvent::DeviceNotFound { index });
                            },
                            Some(p) => {
                                proof {
                                    assert(monitor_at(devices@, index) == devices@[p as int]) by {
                                        let w = choose|j: int|
                                            0 <= j < devices@.len() && (#[trigger] devices@[j]).index
                                                == index;
                                        assert(devices@[w].index == index);
                                        if w != p as int {
                                            assert(devices@[w].index != devices@[p as int].index);
                                        }
                                    }
                                }
                                let line = render_monitor_line(&devices[p], progressbar_info);
                                lines.push(line);
                            },
                        }
                    },
                }
                proof {
                    let (pl, pw) = indexed_getter_outcome(
                        devices@,
                        scopes@,
                        progressbar_info,
                        k as int,
                    );
                    let (nl, nw) = indexed_getter_outcome(
                        devices@,
                        scopes@,
                        progressbar_info,
                        k + 1,
                    );
                    assert(lines.deep_view() =~= nl);
                    assert(warns@ =~= nw);
                }
                k += 1;
            }
        },
    }
    (lines, warns)
}

/// Apply a whole command set to a device collection: the setter pass, then
/// the getter pass over the updated devices.  Returns the events of the
/// setter pass together with the getter warnings, and the rendered lines.
pub fn apply_arguments(devices: &mut Vec<Monitor>, arguments: &Arguments) -> (r: (
    Vec<ApplyEvent>,
    Vec<String>,
))
    requires
        monitors_valid(old(devices)@),
        arguments_valid(arguments),
    ensures
        final(devices)@.len() == old(devices)@.len(),
        forall|k: int|
            0 <= k < old(devices)@.len() ==> #[trigger] final(devices)@[k] == final_monitor(
                arguments.bargs.setters@,
                old(devices)@[k],
            ),
        ({
            let (lines, warns) = getter_outcome(
                final(devices)@,
                &arguments.bargs.getters,
                &arguments.progressbar_info,
            );
            r.0@ == setter_pass_events(old(devices)@, arguments.bargs.setters@) + warns
                && r.1.deep_view() == lines
        }),
{
    let mut events = run_setters(devices, &arguments.bargs.setters);
    let (lines, mut warns) = run_getters(
        devices,
        &arguments.bargs.getters,
        &arguments.progressbar_info,
    );
    events.append(&mut warns);
    (events, lines)
}

} // verus!
