//! The private input agent of a desktop: which libei device carries each
//! event, which presses are already held, what a reset releases, and how
//! input bytes from the relay become events. The agent's program performs
//! the libei calls that these functions list.
use crate::agent::{sanitize, sanitized};
use crate::pairing::{join_path, path_join};
use crate::text::{push_str, string_from};
use crate::transport::{decode_event, len_for_tag, InputEvent};
use vstd::prelude::*;

verus! {

/// libei capability bit of a pointer (relative motion).
pub const CAP_POINTER: i32 = 1;

/// libei capability bit of a keyboard.
pub const CAP_KEYBOARD: i32 = 4;

/// libei capability bit of scrolling.
pub const CAP_SCROLL: i32 = 16;

/// libei capability bit of pointer buttons.
pub const CAP_BUTTON: i32 = 32;

/// The most bytes the agent buffers from its input channel.
pub const MAX_PENDING: usize = 4096;

/// A call that the agent makes on a libei device, named by its handle.
#[derive(Clone, Copy, Debug, PartialEq, Eq, Structural)]
pub enum EiCall {
    /// `ei_device_start_emulating` with this sequence number.
    StartEmulating { device: u64, sequence: u32 },
    /// `ei_device_stop_emulating`.
    StopEmulating { device: u64 },
    /// `ei_device_keyboard_key`.
    KeyboardKey { device: u64, code: u32, pressed: bool },
    /// `ei_device_pointer_motion`.
    PointerMotion { device: u64, x: i16, y: i16 },
    /// `ei_device_button_button`.
    ButtonButton { device: u64, code: u32, pressed: bool },
    /// `ei_device_scroll_discrete`.
    ScrollDiscrete { device: u64, x: i32, y: i32 },
    /// `ei_device_frame` at the current libei time.
    Frame { device: u64 },
}

/// A libei device as the agent tracks it: its handle and capabilities,
/// whether it is resumed and emulating, its last emulation sequence number,
/// and the keys and buttons it holds pressed, in ascending order.
#[derive(Debug)]
pub struct DeviceState {
    pub handle: u64,
    pub capabilities: i32,
    pub resumed: bool,
    pub emulating: bool,
    pub sequence: u32,
    pub keys: Vec<u16>,
    pub buttons: Vec<u16>,
}

pub struct DeviceView {
    pub handle: u64,
    pub capabilities: i32,
    pub resumed: bool,
    pub emulating: bool,
    pub sequence: u32,
    pub keys: Seq<u16>,
    pub buttons: Seq<u16>,
}

impl View for DeviceState {
    type V = DeviceView;

    open spec fn view(&self) -> DeviceView {
        DeviceView {
            handle: self.handle,
            capabilities: self.capabilities,
            resumed: self.resumed,
            emulating: self.emulating,
            sequence: self.sequence,
            keys: self.keys@,
            buttons: self.buttons@,
        }
    }
}

/// The views of `ds`.
pub open spec fn device_views(ds: Seq<DeviceState>) -> Seq<DeviceView> {
    ds.map_values(|d: DeviceState| d@)
}

/// Whether `d` has the capability bit `cap`.
pub open spec fn has_cap(d: DeviceView, cap: i32) -> bool {
    d.capabilities & cap != 0
}

/// The sequence number after `s`: one more, skipping zero.
pub open spec fn next_sequence(s: u32) -> u32 {
    if s == u32::MAX {
        1
    } else {
        (s + 1) as u32
    }
}

/// Codes below `c`.
pub open spec fn below(c: u16) -> spec_fn(u16) -> bool {
    |x: u16| x < c
}

/// Codes above `c`.
pub open spec fn above(c: u16) -> spec_fn(u16) -> bool {
    |x: u16| x > c
}

/// Codes other than `c`.
pub open spec fn other_than(c: u16) -> spec_fn(u16) -> bool {
    |x: u16| x != c
}

/// `s` with `c` added in order (for a `c` that `s` does not hold).
pub open spec fn with_code(s: Seq<u16>, c: u16) -> Seq<u16> {
    s.filter(below(c)) + seq![c] + s.filter(above(c))
}

/// `s` without `c`.
pub open spec fn without_code(s: Seq<u16>, c: u16) -> Seq<u16> {
    s.filter(other_than(c))
}

/// Starting emulation on `d` when it is resumed and not yet emulating.
pub open spec fn start_device(d: DeviceView) -> (DeviceView, Seq<EiCall>) {
    if d.resumed && !d.emulating {
        let s = next_sequence(d.sequence);
        (DeviceView { sequence: s, emulating: true, ..d }, seq![EiCall::StartEmulating { device: d.handle, sequence: s }])
    } else {
        (d, seq![])
    }
}

/// The capability an event needs (none for a reset).
pub open spec fn event_capability(e: InputEvent) -> i32 {
    match e {
        InputEvent::Key { .. } => CAP_KEYBOARD,
        InputEvent::PointerMotion { .. } => CAP_POINTER,
        InputEvent::PointerButton { .. } => CAP_BUTTON,
        InputEvent::Scroll { .. } => CAP_SCROLL,
        InputEvent::Reset => 0,
    }
}

/// What `e` does on the emulating device `d`: presses already in the held
/// state and zero motions do nothing; anything else is one call and a frame.
pub open spec fn event_on(d: DeviceView, e: InputEvent) -> (DeviceView, Seq<EiCall>) {
    match e {
        InputEvent::Key { code, pressed } => if pressed == d.keys.contains(code) {
            (d, seq![])
        } else {
            (
                DeviceView { keys: if pressed { with_code(d.keys, code) } else { without_code(d.keys, code) }, ..d },
                seq![EiCall::KeyboardKey { device: d.handle, code: code as u32, pressed }, EiCall::Frame { device: d.handle }],
            )
        },
        InputEvent::PointerMotion { x, y } => if x == 0 && y == 0 {
            (d, seq![])
        } else {
            (d, seq![EiCall::PointerMotion { device: d.handle, x, y }, EiCall::Frame { device: d.handle }])
        },
        InputEvent::PointerButton { code, pressed } => if pressed == d.buttons.contains(code) {
            (d, seq![])
        } else {
            (
                DeviceView { buttons: if pressed { with_code(d.buttons, code) } else { without_code(d.buttons, code) }, ..d },
                seq![EiCall::ButtonButton { device: d.handle, code: code as u32, pressed }, EiCall::Frame { device: d.handle }],
            )
        },
        InputEvent::Scroll { x, y } => if x == 0 && y == 0 {
            (d, seq![])
        } else {
            (d, seq![EiCall::ScrollDiscrete { device: d.handle, x: x as i32, y: y as i32 }, EiCall::Frame { device: d.handle }])
        },
        InputEvent::Reset => (d, seq![]),
    }
}

/// Index of the first resumed device from `i` on that has `cap`, or the
/// number of devices.
pub open spec fn first_capable(ds: Seq<DeviceView>, cap: i32, i: int) -> int
    decreases ds.len() - i,
{
    if 0 <= i < ds.len() && !(ds[i].resumed && has_cap(ds[i], cap)) {
        first_capable(ds, cap, i + 1)
    } else {
        i
    }
}

proof fn lemma_first_capable(ds: Seq<DeviceView>, cap: i32, i: int)
    requires
        0 <= i <= ds.len(),
    ensures
        i <= first_capable(ds, cap, i) <= ds.len(),
        first_capable(ds, cap, i) < ds.len() ==> ds[first_capable(ds, cap, i)].resumed && has_cap(ds[first_capable(ds, cap, i)], cap),
    decreases ds.len() - i,
{
    if i < ds.len() && !(ds[i].resumed && has_cap(ds[i], cap)) {
        lemma_first_capable(ds, cap, i + 1);
    }
}

/// Applying `e` to the devices: the devices and calls afterwards, or `None`
/// when no resumed device has the capability the event needs.
pub open spec fn apply_spec(ds: Seq<DeviceView>, e: InputEvent) -> Option<(Seq<DeviceView>, Seq<EiCall>)> {
    if e is Reset {
        Some((ds, seq![]))
    } else {
        let i = first_capable(ds, event_capability(e), 0);
        if i >= ds.len() {
            None
        } else {
            let (d1, c1) = start_device(ds[i]);
            let (d2, c2) = event_on(d1, e);
            Some((ds.update(i, d2), c1 + c2))
        }
    }
}

/// What a reset does to one device: an emulating device releases each held
/// key and then each held button, frames them if there were any, and stops
/// emulating; any device forgets what it held.
pub open spec fn reset_device(d: DeviceView) -> (DeviceView, Seq<EiCall>) {
    if !d.resumed || !d.emulating {
        (DeviceView { keys: seq![], buttons: seq![], ..d }, seq![])
    } else {
        let releases = d.keys.map_values(|k: u16| EiCall::KeyboardKey { device: d.handle, code: k as u32, pressed: false })
            + d.buttons.map_values(|b: u16| EiCall::ButtonButton { device: d.handle, code: b as u32, pressed: false });
        let frame = if d.keys.len() > 0 || d.buttons.len() > 0 { seq![EiCall::Frame { device: d.handle }] } else { seq![] };
        (
            DeviceView { keys: seq![], buttons: seq![], emulating: false, ..d },
            releases + frame + seq![EiCall::StopEmulating { device: d.handle }],
        )
    }
}

/// A reset of every device, in order.
pub open spec fn reset_all(ds: Seq<DeviceView>) -> (Seq<DeviceView>, Seq<EiCall>)
    decreases ds.len(),
{
    if ds.len() == 0 {
        (seq![], seq![])
    } else {
        let (r, c) = reset_all(ds.drop_last());
        let (d, dc) = reset_device(ds.last());
        (r.push(d), c + dc)
    }
}

/// Starting emulation on every device, in order.
pub open spec fn start_all(ds: Seq<DeviceView>) -> (Seq<DeviceView>, Seq<EiCall>)
    decreases ds.len(),
{
    if ds.len() == 0 {
        (seq![], seq![])
    } else {
        let (r, c) = start_all(ds.drop_last());
        let (d, dc) = start_device(ds.last());
        (r.push(d), c + dc)
    }
}

/// Whether resumed devices together offer keyboard, pointer, button and
/// scroll.
pub open spec fn capabilities_ready(ds: Seq<DeviceView>) -> bool {
    &&& exists|i: int| 0 <= i < ds.len() && ds[i].resumed && #[trigger] has_cap(ds[i], CAP_KEYBOARD)
    &&& exists|i: int| 0 <= i < ds.len() && ds[i].resumed && #[trigger] has_cap(ds[i], CAP_POINTER)
    &&& exists|i: int| 0 <= i < ds.len() && ds[i].resumed && #[trigger] has_cap(ds[i], CAP_BUTTON)
    &&& exists|i: int| 0 <= i < ds.len() && ds[i].resumed && #[trigger] has_cap(ds[i], CAP_SCROLL)
}

impl DeviceState {
    /// A newly added device: not resumed, holding nothing.
    pub fn new(handle: u64, capabilities: i32) -> (d: Self)
        ensures
            d@ == (DeviceView { handle, capabilities, resumed: false, emulating: false, sequence: 0, keys: seq![], buttons: seq![] }),
    {
        DeviceState { handle, capabilities, resumed: false, emulating: false, sequence: 0, keys: Vec::new(), buttons: Vec::new() }
    }

    /// Whether the device has the capability bit `capability`.
    pub fn has(&self, capability: i32) -> (r: bool)
        ensures
            r == has_cap(self@, capability),
    {
        self.capabilities & capability != 0
    }

    /// Starts emulation when the device is resumed and not yet emulating,
    /// with the next sequence number.
    pub fn start_emulating(&mut self, calls: &mut Vec<EiCall>)
        ensures
            final(self)@ == start_device(old(self)@).0,
            final(calls)@ == old(calls)@ + start_device(old(self)@).1,
    {
        if self.resumed && !self.emulating {
            self.sequence = if self.sequence == u32::MAX { 1 } else { self.sequence + 1 };
            calls.push(EiCall::StartEmulating { device: self.handle, sequence: self.sequence });
            self.emulating = true;
        }
        assert(final(calls)@ =~= old(calls)@ + start_device(old(self)@).1);
    }
}

fn holds(codes: &Vec<u16>, code: u16) -> (r: bool)
    ensures
        r == codes@.contains(code),
{
    let mut i: usize = 0;
    while i < codes.len()
        invariant
            i <= codes@.len(),
            forall|k: int| 0 <= k < i ==> codes@[k] != code,
        decreases codes@.len() - i,
    {
        if codes[i] == code {
            return true;
        }
        i = i + 1;
    }
    false
}

fn add_code(codes: &Vec<u16>, code: u16) -> (r: Vec<u16>)
    ensures
        r@ == with_code(codes@, code),
{
    let mut out: Vec<u16> = Vec::new();
    let mut i: usize = 0;
    assert(codes@.take(0) =~= Seq::<u16>::empty());
    while i < codes.len()
        invariant
            i <= codes@.len(),
            out@ == codes@.take(i as int).filter(below(code)),
        decreases codes@.len() - i,
    {
        let x = codes[i];
        proof {
            codes@.take(i as int).lemma_filter_push(x, below(code));
            assert(codes@.take(i + 1) =~= codes@.take(i as int).push(x));
        }
        if x < code {
            out.push(x);
        }
        i = i + 1;
    }
    assert(codes@.take(i as int) =~= codes@);
    out.push(code);
    let ghost head = out@;
    let mut j: usize = 0;
    assert(codes@.take(0) =~= Seq::<u16>::empty());
    while j < codes.len()
        invariant
            j <= codes@.len(),
            out@ == head + codes@.take(j as int).filter(above(code)),
        decreases codes@.len() - j,
    {
        let x = codes[j];
        proof {
            codes@.take(j as int).lemma_filter_push(x, above(code));
            assert(codes@.take(j + 1) =~= codes@.take(j as int).push(x));
        }
        if x > code {
            out.push(x);
        }
        j = j + 1;
        assert(out@ =~= head + codes@.take(j as int).filter(above(code)));
    }
    assert(codes@.take(j as int) =~= codes@);
    out
}

fn drop_code(codes: &Vec<u16>, code: u16) -> (r: Vec<u16>)
    ensures
        r@ == without_code(codes@, code),
{
    let mut out: Vec<u16> = Vec::new();
    let mut i: usize = 0;
    assert(codes@.take(0) =~= Seq::<u16>::empty());
    while i < codes.len()
        invariant
            i <= codes@.len(),
            out@ == codes@.take(i as int).filter(other_than(code)),
        decreases codes@.len() - i,
    {
        let x = codes[i];
        proof {
            codes@.take(i as int).lemma_filter_push(x, other_than(code));
            assert(codes@.take(i + 1) =~= codes@.take(i as int).push(x));
        }
        if x != code {
            out.push(x);
        }
        i = i + 1;
    }
    assert(codes@.take(i as int) =~= codes@);
    assert(out@ =~= without_code(codes@, code));
    out
}

/// Carries out `e` on the emulating device `d`.
fn event_on_device(d: &mut DeviceState, e: InputEvent, calls: &mut Vec<EiCall>)
    ensures
        final(d)@ == event_on(old(d)@, e).0,
        final(calls)@ == old(calls)@ + event_on(old(d)@, e).1,
{
    match e {
        InputEvent::Key { code, pressed } => {
            if pressed != holds(&d.keys, code) {
                calls.push(EiCall::KeyboardKey { device: d.handle, code: code as u32, pressed });
                d.keys = if pressed { add_code(&d.keys, code) } else { drop_code(&d.keys, code) };
                calls.push(EiCall::Frame { device: d.handle });
            }
        },
        InputEvent::PointerMotion { x, y } => {
            if !(x == 0 && y == 0) {
                calls.push(EiCall::PointerMotion { device: d.handle, x, y });
                calls.push(EiCall::Frame { device: d.handle });
            }
        },
        InputEvent::PointerButton { code, pressed } => {
            if pressed != holds(&d.buttons, code) {
                calls.push(EiCall::ButtonButton { device: d.handle, code: code as u32, pressed });
                d.buttons = if pressed { add_code(&d.buttons, code) } else { drop_code(&d.buttons, code) };
                calls.push(EiCall::Frame { device: d.handle });
            }
        },
        InputEvent::Scroll { x, y } => {
            if !(x == 0 && y == 0) {
                calls.push(EiCall::ScrollDiscrete { device: d.handle, x: x as i32, y: y as i32 });
                calls.push(EiCall::Frame { device: d.handle });
            }
        },
        InputEvent::Reset => {},
    }
    assert(final(calls)@ =~= old(calls)@ + event_on(old(d)@, e).1);
}

/// No resumed device offers what an event needs.
#[derive(Clone, Copy, Debug, PartialEq, Eq, Structural)]
pub struct CapabilityUnavailable;

impl CapabilityUnavailable {
    /// The text of the failure.
    pub fn message(&self) -> (m: &'static str)
        ensures
            m@ == "input capability unavailable"@,
    {
        "input capability unavailable"
    }
}

/// Whether `devices` together offer every capability that input needs.
pub fn required_capabilities_ready(devices: &[DeviceState]) -> (r: bool)
    ensures
        r == capabilities_ready(device_views(devices@)),
{
    let ghost ds = device_views(devices@);
    let mut found: [bool; 4] = [false, false, false, false];
    let caps: [i32; 4] = [CAP_KEYBOARD, CAP_POINTER, CAP_BUTTON, CAP_SCROLL];
    let mut c: usize = 0;
    while c < 4
        invariant
            c <= 4,
            ds == device_views(devices@),
            caps@ == seq![CAP_KEYBOARD, CAP_POINTER, CAP_BUTTON, CAP_SCROLL],
            forall|k: int| 0 <= k < c ==> (#[trigger] found@[k] <==> exists|i: int| 0 <= i < ds.len() && ds[i].resumed && #[trigger] has_cap(ds[i], caps@[k])),
            found@.len() == 4,
        decreases 4 - c,
    {
        let cap = caps[c];
        let mut i: usize = 0;
        let mut any = false;
        while i < devices.len()
            invariant
                i <= devices@.len(),
                ds == device_views(devices@),
                any <==> exists|j: int| 0 <= j < i && ds[j].resumed && #[trigger] has_cap(ds[j], cap),
            decreases devices@.len() - i,
        {
            assert(ds[i as int] == devices@[i as int]@);
            if devices[i].resumed && devices[i].has(cap) {
                any = true;
            }
            i = i + 1;
        }
        found.set(c, any);
        c = c + 1;
    }
    found[0] && found[1] && found[2] && found[3]
}

/// Starts emulation on every device that can.
pub fn start_devices(devices: &mut Vec<DeviceState>, calls: &mut Vec<EiCall>)
    ensures
        device_views(final(devices)@) == start_all(device_views(old(devices)@)).0,
        final(calls)@ == old(calls)@ + start_all(device_views(old(devices)@)).1,
{
    let ghost ds = device_views(devices@);
    let mut i: usize = 0;
    let ghost start_calls = calls@;
    assert(ds.take(0) =~= Seq::<DeviceView>::empty());
    while i < devices.len()
        invariant
            i <= devices@.len(),
            ds.len() == devices@.len(),
            ds == device_views(old(devices)@),
            device_views(devices@).take(i as int) == start_all(ds.take(i as int)).0,
            device_views(devices@).skip(i as int) == ds.skip(i as int),
            calls@ == start_calls + start_all(ds.take(i as int)).1,
            start_calls == old(calls)@,
        decreases devices@.len() - i,
    {
        let ghost before = device_views(devices@);
        assert(before[i as int] == ds[i as int]) by {
            assert(before.skip(i as int)[0] == ds.skip(i as int)[0]);
        }
        let mut d = devices.remove(i);
        d.start_emulating(calls);
        devices.insert(i, d);
        assert(ds.take(i + 1).drop_last() =~= ds.take(i as int));
        assert(ds.take(i + 1).last() == ds[i as int]);
        let ghost after = device_views(devices@);
        assert(after.take(i + 1) =~= before.take(i as int).push(start_device(ds[i as int]).0));
        assert(after.skip(i + 1) =~= before.skip(i + 1));
        assert(before.skip(i + 1) =~= before.skip(i as int).drop_first());
        assert(ds.skip(i + 1) =~= ds.skip(i as int).drop_first());
        assert(calls@ =~= start_calls + start_all(ds.take(i + 1)).1);
        i = i + 1;
    }
    assert(ds.take(i as int) =~= ds);
    assert(device_views(devices@).take(i as int) =~= device_views(devices@));
}

/// Carries out `event` on the first resumed device with the capability it
/// needs, starting emulation there first. A reset does nothing here.
pub fn apply_event(devices: &mut Vec<DeviceState>, event: InputEvent, calls: &mut Vec<EiCall>) -> (r: Result<(), CapabilityUnavailable>)
    ensures
        match apply_spec(device_views(old(devices)@), event) {
            Some((ds, cs)) => r is Ok && device_views(final(devices)@) == ds && final(calls)@ == old(calls)@ + cs,
            None => r is Err && device_views(final(devices)@) == device_views(old(devices)@) && final(calls)@ == old(calls)@,
        },
{
    let ghost ds = device_views(devices@);
    let cap = match event {
        InputEvent::Key { .. } => CAP_KEYBOARD,
        InputEvent::PointerMotion { .. } => CAP_POINTER,
        InputEvent::PointerButton { .. } => CAP_BUTTON,
        InputEvent::Scroll { .. } => CAP_SCROLL,
        InputEvent::Reset => {
            assert(calls@ =~= old(calls)@ + Seq::<EiCall>::empty());
            return Ok(());
        },
    };
    proof { lemma_first_capable(ds, cap, 0); }
    let mut i: usize = 0;
    while i < devices.len() && !(devices[i].resumed && devices[i].has(cap))
        invariant
            i <= devices@.len(),
            ds == device_views(devices@),
            first_capable(ds, cap, 0) == first_capable(ds, cap, i as int),
        decreases devices@.len() - i,
    {
        assert(ds[i as int] == devices@[i as int]@);
        i = i + 1;
    }
    if i >= devices.len() {
        return Err(CapabilityUnavailable);
    }
    assert(ds[i as int] == devices@[i as int]@);
    let ghost before_calls = calls@;
    let mut d = devices.remove(i);
    d.start_emulating(calls);
    event_on_device(&mut d, event, calls);
    devices.insert(i, d);
    assert(device_views(devices@) =~= ds.update(i as int, event_on(start_device(ds[i as int]).0, event).0));
    assert(calls@ =~= before_calls + (start_device(ds[i as int]).1 + event_on(start_device(ds[i as int]).0, event).1));
    Ok(())
}

/// Resets one device.
fn reset_one(d: &mut DeviceState, calls: &mut Vec<EiCall>)
    ensures
        final(d)@ == reset_device(old(d)@).0,
        final(calls)@ == old(calls)@ + reset_device(old(d)@).1,
{
    if !d.resumed || !d.emulating {
        d.keys = Vec::new();
        d.buttons = Vec::new();
        assert(calls@ =~= old(calls)@ + Seq::<EiCall>::empty());
        return;
    }
    let ghost start = calls@;
    let handle = d.handle;
    let mut i: usize = 0;
    while i < d.keys.len()
        invariant
            i <= d.keys@.len(),
            d@ == old(d)@,
            handle == d.handle,
            calls@ == start + d.keys@.take(i as int).map_values(|k: u16| EiCall::KeyboardKey { device: handle, code: k as u32, pressed: false }),
        decreases d.keys@.len() - i,
    {
        calls.push(EiCall::KeyboardKey { device: handle, code: d.keys[i] as u32, pressed: false });
        i = i + 1;
        assert(calls@ =~= start + d.keys@.take(i as int).map_values(|k: u16| EiCall::KeyboardKey { device: handle, code: k as u32, pressed: false }));
    }
    assert(d.keys@.take(i as int) =~= d.keys@);
    let ghost mid = calls@;
    let mut j: usize = 0;
    while j < d.buttons.len()
        invariant
            j <= d.buttons@.len(),
            d@ == old(d)@,
            handle == d.handle,
            calls@ == mid + d.buttons@.take(j as int).map_values(|b: u16| EiCall::ButtonButton { device: handle, code: b as u32, pressed: false }),
        decreases d.buttons@.len() - j,
    {
        calls.push(EiCall::ButtonButton { device: handle, code: d.buttons[j] as u32, pressed: false });
        j = j + 1;
        assert(calls@ =~= mid + d.buttons@.take(j as int).map_values(|b: u16| EiCall::ButtonButton { device: handle, code: b as u32, pressed: false }));
    }
    assert(d.buttons@.take(j as int) =~= d.buttons@);
    if d.keys.len() > 0 || d.buttons.len() > 0 {
        calls.push(EiCall::Frame { device: handle });
    }
    calls.push(EiCall::StopEmulating { device: handle });
    d.keys = Vec::new();
    d.buttons = Vec::new();
    d.emulating = false;
    assert(calls@ =~= old(calls)@ + reset_device(old(d)@).1);
}

/// Releases everything every device holds and stops emulation, as on a
/// focus loss.
pub fn reset_devices(devices: &mut Vec<DeviceState>, calls: &mut Vec<EiCall>)
    ensures
        device_views(final(devices)@) == reset_all(device_views(old(devices)@)).0,
        final(calls)@ == old(calls)@ + reset_all(device_views(old(devices)@)).1,
{
    let ghost ds = device_views(devices@);
    let mut i: usize = 0;
    let ghost start_calls = calls@;
    assert(ds.take(0) =~= Seq::<DeviceView>::empty());
    while i < devices.len()
        invariant
            i <= devices@.len(),
            ds.len() == devices@.len(),
            ds == device_views(old(devices)@),
            device_views(devices@).take(i as int) == reset_all(ds.take(i as int)).0,
            device_views(devices@).skip(i as int) == ds.skip(i as int),
            calls@ == start_calls + reset_all(ds.take(i as int)).1,
            start_calls == old(calls)@,
        decreases devices@.len() - i,
    {
        let ghost before = device_views(devices@);
        assert(before[i as int] == ds[i as int]) by {
            assert(before.skip(i as int)[0] == ds.skip(i as int)[0]);
        }
        let mut d = devices.remove(i);
        reset_one(&mut d, calls);
        devices.insert(i, d);
        assert(ds.take(i + 1).drop_last() =~= ds.take(i as int));
        assert(ds.take(i + 1).last() == ds[i as int]);
        let ghost after = device_views(devices@);
        assert(after.take(i + 1) =~= before.take(i as int).push(reset_device(ds[i as int]).0));
        assert(after.skip(i + 1) =~= before.skip(i + 1));
        assert(before.skip(i + 1) =~= before.skip(i as int).drop_first());
        assert(ds.skip(i + 1) =~= ds.skip(i as int).drop_first());
        assert(calls@ =~= start_calls + reset_all(ds.take(i + 1)).1);
        i = i + 1;
    }
    assert(ds.take(i as int) =~= ds);
    assert(device_views(devices@).take(i as int) =~= device_views(devices@));
}

/// A libei event type: the connection was approved.
pub const EI_EVENT_CONNECT: i32 = 1;
/// A libei event type: the connection ended.
pub const EI_EVENT_DISCONNECT: i32 = 2;
/// A libei event type: a seat appeared.
pub const EI_EVENT_SEAT_ADDED: i32 = 3;
/// A libei event type: a device appeared.
pub const EI_EVENT_DEVICE_ADDED: i32 = 5;
/// A libei event type: a device went away.
pub const EI_EVENT_DEVICE_REMOVED: i32 = 6;
/// A libei event type: a device was paused.
pub const EI_EVENT_DEVICE_PAUSED: i32 = 7;
/// A libei event type: a device was resumed.
pub const EI_EVENT_DEVICE_RESUMED: i32 = 8;

/// How many dispatch rounds the agent waits for Gamescope to approve it.
pub const CONNECT_ROUNDS: u32 = 20;

/// What one libei event means while the agent waits for approval.
#[derive(Clone, Copy, Debug, PartialEq, Eq, Structural)]
pub enum ConnectVerdict {
    /// Approved: the agent runs.
    Connected,
    /// Gamescope ended the connection.
    Disconnected,
    /// Keep waiting.
    Pending,
}

/// The verdict of a libei event of type `event_type` while connecting.
pub fn connect_verdict(event_type: i32) -> (v: ConnectVerdict)
    ensures
        v == (if event_type == EI_EVENT_CONNECT {
            ConnectVerdict::Connected
        } else if event_type == EI_EVENT_DISCONNECT {
            ConnectVerdict::Disconnected
        } else {
            ConnectVerdict::Pending
        }),
{
    if event_type == EI_EVENT_CONNECT {
        ConnectVerdict::Connected
    } else if event_type == EI_EVENT_DISCONNECT {
        ConnectVerdict::Disconnected
    } else {
        ConnectVerdict::Pending
    }
}

/// The path of the libei socket `socket`: as given when absolute, else
/// under the runtime directory (nothing when there is none).
pub fn socket_path(socket: &str, runtime_dir: Option<&str>) -> (r: String)
    ensures
        r@ == path_join(match runtime_dir { Some(d) => d@, None => Seq::empty() }, socket@),
{
    match runtime_dir {
        Some(d) => join_path(d, socket),
        None => {
            proof { reveal_strlit(""); }
            join_path("", socket)
        },
    }
}

/// The status the agent publishes: ready with each capability and whether a
/// client is attached, or merely connected.
pub open spec fn ready_status_text(ready: bool, active: bool) -> Seq<char> {
    if ready {
        "state=ready\nbackend=libei\nseat=gamescope-private\nkeyboard=ready\npointer=ready\nbutton=ready\nscroll=ready\nchannel="@
            + (if active { "active"@ } else { "waiting"@ }) + "\n"@
    } else {
        "state=connected\nbackend=libei\nseat=gamescope-private\nchannel=waiting\n"@
    }
}

/// The status text for `ready` and `active`.
pub fn publish_ready_status(ready: bool, active: bool) -> (r: String)
    ensures
        r@ == ready_status_text(ready, active),
{
    if ready {
        let mut v: Vec<char> = Vec::new();
        push_str(&mut v, "state=ready\nbackend=libei\nseat=gamescope-private\nkeyboard=ready\npointer=ready\nbutton=ready\nscroll=ready\nchannel=");
        push_str(&mut v, if active { "active" } else { "waiting" });
        push_str(&mut v, "\n");
        string_from(v.as_slice())
    } else {
        "state=connected\nbackend=libei\nseat=gamescope-private\nchannel=waiting\n".to_string()
    }
}

/// The status after connecting to libei failed.
pub fn error_status(reason: &str) -> (r: String)
    ensures
        r@ == "state=error\nbackend=libei\nreason="@ + sanitized(reason@) + "\n"@,
{
    let mut v: Vec<char> = Vec::new();
    push_str(&mut v, "state=error\nbackend=libei\nreason=");
    let s = sanitize(reason);
    push_str(&mut v, s.as_str());
    push_str(&mut v, "\n");
    string_from(v.as_slice())
}

/// Index of the first device from `i` on with handle `h`, or the number of
/// devices.
pub open spec fn position_of(ds: Seq<DeviceView>, h: u64, i: int) -> int
    decreases ds.len() - i,
{
    if 0 <= i < ds.len() && ds[i].handle != h {
        position_of(ds, h, i + 1)
    } else {
        i
    }
}

proof fn lemma_position_of(ds: Seq<DeviceView>, h: u64, i: int)
    requires
        0 <= i <= ds.len(),
    ensures
        i <= position_of(ds, h, i) <= ds.len(),
        position_of(ds, h, i) < ds.len() ==> ds[position_of(ds, h, i)].handle == h,
    decreases ds.len() - i,
{
    if i < ds.len() && ds[i].handle != h {
        lemma_position_of(ds, h, i + 1);
    }
}

/// Delivering `events` from the client: a reset resets every device; an
/// event that no device can carry resets every device and detaches the
/// client, ignoring the events after it. The devices, whether the client
/// stays attached, and the calls made.
pub open spec fn deliver_spec(ds: Seq<DeviceView>, events: Seq<InputEvent>) -> (Seq<DeviceView>, bool, Seq<EiCall>)
    decreases events.len(),
{
    if events.len() == 0 {
        (ds, true, seq![])
    } else if events[0] is Reset {
        let (r, c) = reset_all(ds);
        let (r2, attached, c2) = deliver_spec(r, events.drop_first());
        (r2, attached, c + c2)
    } else {
        match apply_spec(ds, events[0]) {
            Some((r, c)) => {
                let (r2, attached, c2) = deliver_spec(r, events.drop_first());
                (r2, attached, c + c2)
            },
            None => {
                let (r, c) = reset_all(ds);
                (r, false, c)
            },
        }
    }
}

/// The agent's state between libei dispatch rounds: its devices, whether a
/// client is attached to the input channel, and the (ready, attached) pair
/// it last published.
pub struct InputAgent {
    pub devices: Vec<DeviceState>,
    pub client: bool,
    pub published: (bool, bool),
}

impl InputAgent {
    /// An agent that tracks no device, has no client and has published
    /// neither readiness nor a client.
    pub fn new() -> (a: Self)
        ensures
            device_views(a.devices@) == Seq::<DeviceView>::empty(),
            !a.client,
            a.published == (false, false),
    {
        let a = InputAgent { devices: Vec::new(), client: false, published: (false, false) };
        assert(device_views(a.devices@) =~= Seq::<DeviceView>::empty());
        a
    }

    /// A device appeared with `capabilities`: it is kept when it has any.
    pub fn device_added(&mut self, handle: u64, capabilities: i32) -> (kept: bool)
        ensures
            kept == (capabilities != 0),
            final(self).client == old(self).client,
            final(self).published == old(self).published,
            device_views(final(self).devices@) == if kept {
                device_views(old(self).devices@).push(DeviceView {
                    handle, capabilities, resumed: false, emulating: false, sequence: 0, keys: seq![], buttons: seq![],
                })
            } else {
                device_views(old(self).devices@)
            },
    {
        if capabilities == 0 {
            return false;
        }
        let ghost before = device_views(self.devices@);
        self.devices.push(DeviceState::new(handle, capabilities));
        assert(device_views(self.devices@) =~= before.push(DeviceView {
            handle, capabilities, resumed: false, emulating: false, sequence: 0, keys: seq![], buttons: seq![],
        }));
        true
    }

    /// Index of the first kept device with `handle`.
    fn position(&self, handle: u64) -> (r: Option<usize>)
        ensures
            ({
                let p = position_of(device_views(self.devices@), handle, 0);
                &&& r matches Some(i) ==> i == p && i < self.devices@.len()
                &&& r is None ==> p >= self.devices@.len()
            }),
    {
        let ghost ds = device_views(self.devices@);
        proof { lemma_position_of(ds, handle, 0); }
        let mut i: usize = 0;
        while i < self.devices.len()
            invariant
                i <= self.devices@.len(),
                ds == device_views(self.devices@),
                position_of(ds, handle, 0) == position_of(ds, handle, i as int),
            decreases self.devices@.len() - i,
        {
            assert(ds[i as int] == self.devices@[i as int]@);
            if self.devices[i].handle == handle {
                return Some(i);
            }
            i = i + 1;
        }
        None
    }

    /// A device went away: it is dropped. Whether it was kept.
    pub fn device_removed(&mut self, handle: u64) -> (removed: bool)
        ensures
            ({
                let ds = device_views(old(self).devices@);
                let p = position_of(ds, handle, 0);
                &&& removed == (p < ds.len())
                &&& device_views(final(self).devices@) == if removed { ds.remove(p) } else { ds }
            }),
            final(self).client == old(self).client,
            final(self).published == old(self).published,
    {
        let ghost ds = device_views(self.devices@);
        match self.position(handle) {
            Some(i) => {
                let _ = self.devices.remove(i);
                assert(device_views(self.devices@) =~= ds.remove(i as int));
                true
            },
            None => false,
        }
    }

    /// A device was paused: it is no longer resumed or emulating and holds
    /// nothing.
    pub fn device_paused(&mut self, handle: u64)
        ensures
            ({
                let ds = device_views(old(self).devices@);
                let p = position_of(ds, handle, 0);
                device_views(final(self).devices@) == if p < ds.len() {
                    ds.update(p, DeviceView { resumed: false, emulating: false, keys: seq![], buttons: seq![], ..ds[p] })
                } else {
                    ds
                }
            }),
            final(self).client == old(self).client,
            final(self).published == old(self).published,
    {
        let ghost ds = device_views(self.devices@);
        match self.position(handle) {
            Some(i) => {
                let mut d = self.devices.remove(i);
                d.resumed = false;
                d.emulating = false;
                d.keys = Vec::new();
                d.buttons = Vec::new();
                self.devices.insert(i, d);
                assert(device_views(self.devices@) =~= ds.update(i as int, DeviceView {
                    resumed: false, emulating: false, keys: seq![], buttons: seq![], ..ds[i as int]
                }));
            },
            None => {},
        }
    }

    /// A device was resumed; with a client attached it starts emulating.
    pub fn device_resumed(&mut self, handle: u64, calls: &mut Vec<EiCall>)
        ensures
            ({
                let ds = device_views(old(self).devices@);
                let p = position_of(ds, handle, 0);
                let resumed = DeviceView { resumed: true, ..ds[p] };
                let started = if old(self).client { start_device(resumed) } else { (resumed, seq![]) };
                &&& p < ds.len() ==> device_views(final(self).devices@) == ds.update(p, started.0)
                    && final(calls)@ == old(calls)@ + started.1
                &&& p >= ds.len() ==> device_views(final(self).devices@) == ds && final(calls)@ == old(calls)@
            }),
            final(self).client == old(self).client,
            final(self).published == old(self).published,
    {
        let ghost ds = device_views(self.devices@);
        match self.position(handle) {
            Some(i) => {
                let mut d = self.devices.remove(i);
                d.resumed = true;
                if self.client {
                    d.start_emulating(calls);
                } else {
                    assert(calls@ =~= old(calls)@ + Seq::<EiCall>::empty());
                }
                self.devices.insert(i, d);
                assert(device_views(self.devices@) =~= ds.update(i as int, device_views(self.devices@)[i as int]));
            },
            None => {},
        }
    }

    /// libei disconnected: every device is dropped; their handles, in order,
    /// to release.
    pub fn disconnected(&mut self) -> (handles: Vec<u64>)
        ensures
            handles@ == device_views(old(self).devices@).map_values(|d: DeviceView| d.handle),
            final(self).devices@.len() == 0,
            final(self).client == old(self).client,
            final(self).published == old(self).published,
    {
        let ghost ds = device_views(self.devices@);
        let mut handles: Vec<u64> = Vec::new();
        let mut i: usize = 0;
        while i < self.devices.len()
            invariant
                i <= self.devices@.len(),
                ds == device_views(self.devices@),
                handles@ == ds.take(i as int).map_values(|d: DeviceView| d.handle),
            decreases self.devices@.len() - i,
        {
            assert(ds[i as int] == self.devices@[i as int]@);
            handles.push(self.devices[i].handle);
            i = i + 1;
            assert(handles@ =~= ds.take(i as int).map_values(|d: DeviceView| d.handle));
        }
        assert(ds.take(i as int) =~= ds);
        self.devices = Vec::new();
        handles
    }

    /// A client attached to the input channel: every device starts emulating.
    pub fn client_connected(&mut self, calls: &mut Vec<EiCall>)
        ensures
            final(self).client,
            final(self).published == old(self).published,
            device_views(final(self).devices@) == start_all(device_views(old(self).devices@)).0,
            final(calls)@ == old(calls)@ + start_all(device_views(old(self).devices@)).1,
    {
        self.client = true;
        start_devices(&mut self.devices, calls);
    }

    /// Whether a connecting client is taken as the input client: only when
    /// the required devices are ready and no client is attached; any other
    /// connection is to be dropped unread.
    pub fn admits_client(&self, ready: bool) -> (r: bool)
        ensures
            r == (ready && !self.client),
    {
        ready && !self.client
    }

    /// The client went away or failed: every device is reset and the
    /// channel waits for a new client.
    pub fn client_lost(&mut self, calls: &mut Vec<EiCall>)
        ensures
            !final(self).client,
            final(self).published == old(self).published,
            device_views(final(self).devices@) == reset_all(device_views(old(self).devices@)).0,
            final(calls)@ == old(calls)@ + reset_all(device_views(old(self).devices@)).1,
    {
        self.client = false;
        reset_devices(&mut self.devices, calls);
    }

    /// Carries out the events the attached client sent.
    pub fn deliver(&mut self, events: &[InputEvent], calls: &mut Vec<EiCall>)
        requires
            old(self).client,
        ensures
            ({
                let (ds, attached, cs) = deliver_spec(device_views(old(self).devices@), events@);
                &&& device_views(final(self).devices@) == ds
                &&& final(self).client == attached
                &&& final(calls)@ == old(calls)@ + cs
            }),
            final(self).published == old(self).published,
    {
        let mut i: usize = 0;
        let ghost ds0 = device_views(self.devices@);
        let ghost calls0 = calls@;
        assert(events@.skip(0) =~= events@);
        assert(calls@ =~= calls0 + Seq::<EiCall>::empty());
        while i < events.len()
            invariant
                i <= events@.len(),
                self.client,
                self.published == old(self).published,
                calls0 == old(calls)@,
                ds0 == device_views(old(self).devices@),
                ({
                    let (ds, attached, cs) = deliver_spec(ds0, events@);
                    let (dr, ar, cr) = deliver_spec(device_views(self.devices@), events@.skip(i as int));
                    &&& ds == dr
                    &&& attached == ar
                    &&& exists|done: Seq<EiCall>| calls@ == calls0 + done && cs == done + cr
                }),
            decreases events@.len() - i,
        {
            let ghost cur = device_views(self.devices@);
            let ghost rest = events@.skip(i as int);
            let ghost before = calls@;
            assert(rest[0] == events@[i as int]);
            assert(rest.drop_first() =~= events@.skip(i + 1));
            let ghost done = choose|done: Seq<EiCall>| before == calls0 + done && deliver_spec(ds0, events@).2 == done + deliver_spec(cur, rest).2;
            let e = events[i];
            match e {
                InputEvent::Reset => {
                    reset_devices(&mut self.devices, calls);
                    let ghost step = reset_all(cur).1;
                    assert(calls@ =~= calls0 + (done + step));
                    assert(deliver_spec(ds0, events@).2 =~= (done + step) + deliver_spec(device_views(self.devices@), events@.skip(i + 1)).2);
                },
                _ => {
                    match apply_event(&mut self.devices, e, calls) {
                        Ok(()) => {
                            let ghost step = apply_spec(cur, e)->Some_0.1;
                            assert(calls@ =~= calls0 + (done + step));
                            assert(deliver_spec(ds0, events@).2 =~= (done + step) + deliver_spec(device_views(self.devices@), events@.skip(i + 1)).2);
                        },
                        Err(_) => {
                            reset_devices(&mut self.devices, calls);
                            self.client = false;
                            let ghost step = reset_all(cur).1;
                            assert(calls@ =~= calls0 + (done + step));
                            assert(deliver_spec(ds0, events@).2 =~= done + step);
                            return;
                        },
                    }
                },
            }
            i = i + 1;
        }
        assert(events@.skip(i as int) =~= Seq::<InputEvent>::empty());
    }

    /// The status to publish when readiness or the client changed since the
    /// last one published.
    pub fn publish(&mut self, ready: bool) -> (status: Option<String>)
        ensures
            final(self).published == (ready, old(self).client),
            final(self).client == old(self).client,
            device_views(final(self).devices@) == device_views(old(self).devices@),
            old(self).published == (ready, old(self).client) ==> status is None,
            old(self).published != (ready, old(self).client) ==> (status matches Some(s) && s@ == ready_status_text(ready, old(self).client)),
    {
        let current = (ready, self.client);
        if current.0 == self.published.0 && current.1 == self.published.1 {
            None
        } else {
            self.published = current;
            Some(publish_ready_status(ready, current.1))
        }
    }
}

/// Why the input channel was closed.
#[derive(Clone, Copy, Debug, PartialEq, Eq, Structural)]
pub enum ChannelError {
    /// The client closed the channel.
    Disconnected,
    /// More than [`MAX_PENDING`] bytes were buffered.
    BufferLimit,
    /// An event starts with an unknown tag.
    UnknownEvent,
    /// An event has an invalid shape or code.
    InvalidEvent,
}

/// The text of each reason.
pub open spec fn channel_error_text(e: ChannelError) -> Seq<char> {
    match e {
        ChannelError::Disconnected => "input channel disconnected"@,
        ChannelError::BufferLimit => "input buffer limit exceeded"@,
        ChannelError::UnknownEvent => "unknown input event"@,
        ChannelError::InvalidEvent => "invalid input event"@,
    }
}

impl ChannelError {
    /// The text of the reason.
    pub fn message(&self) -> (m: &'static str)
        ensures
            m@ == channel_error_text(*self),
    {
        match self {
            ChannelError::Disconnected => "input channel disconnected",
            ChannelError::BufferLimit => "input buffer limit exceeded",
            ChannelError::UnknownEvent => "unknown input event",
            ChannelError::InvalidEvent => "invalid input event",
        }
    }
}

/// Taking whole events from the front of the buffered bytes `p`: the
/// events (or why the channel fails) and the bytes left for later. An
/// incomplete event stays buffered.
pub open spec fn drain_spec(p: Seq<u8>) -> (Result<Seq<InputEvent>, ChannelError>, Seq<u8>)
    decreases p.len(),
{
    if p.len() == 0 {
        (Ok(seq![]), p)
    } else {
        match len_for_tag(p[0]) {
            None => (Err(ChannelError::UnknownEvent), p),
            Some(n) => if p.len() < n {
                (Ok(seq![]), p)
            } else if n == 0 {
                (Ok(seq![]), p)
            } else {
                match decode_event(p.take(n as int)) {
                    None => (Err(ChannelError::InvalidEvent), p.skip(n as int)),
                    Some(e) => {
                        let (r, rest) = drain_spec(p.skip(n as int));
                        (
                            match r {
                                Ok(es) => Ok(seq![e] + es),
                                Err(x) => Err(x),
                            },
                            rest,
                        )
                    },
                }
            },
        }
    }
}

/// Bytes received on the input channel and not yet taken as events.
pub struct InputBuffer {
    pending: Vec<u8>,
}

impl View for InputBuffer {
    type V = Seq<u8>;

    closed spec fn view(&self) -> Seq<u8> {
        self.pending@
    }
}

impl InputBuffer {
    /// An empty buffer.
    pub fn new() -> (b: Self)
        ensures
            b@ == Seq::<u8>::empty(),
    {
        InputBuffer { pending: Vec::new() }
    }

    /// Buffers `chunk`; refused when more than [`MAX_PENDING`] bytes are
    /// then buffered.
    pub fn push_chunk(&mut self, chunk: &[u8]) -> (r: Result<(), ChannelError>)
        ensures
            final(self)@ == old(self)@ + chunk@,
            r == (if final(self)@.len() > MAX_PENDING { Err(ChannelError::BufferLimit) } else { Ok(()) }),
    {
        let mut i: usize = 0;
        let ghost start = self.pending@;
        while i < chunk.len()
            invariant
                i <= chunk@.len(),
                self.pending@ == start + chunk@.take(i as int),
            decreases chunk@.len() - i,
        {
            self.pending.push(chunk[i]);
            i = i + 1;
            assert(self.pending@ =~= start + chunk@.take(i as int));
        }
        assert(chunk@.take(i as int) =~= chunk@);
        if self.pending.len() > MAX_PENDING {
            Err(ChannelError::BufferLimit)
        } else {
            Ok(())
        }
    }

    /// Takes the whole events at the front of the buffer.
    pub fn take_events(&mut self) -> (r: Result<Vec<InputEvent>, ChannelError>)
        ensures
            final(self)@ == drain_spec(old(self)@).1,
            match drain_spec(old(self)@).0 {
                Ok(es) => r matches Ok(v) && v@ == es,
                Err(x) => r == Err::<Vec<InputEvent>, ChannelError>(x),
            },
    {
        let mut events: Vec<InputEvent> = Vec::new();
        let ghost orig = self.pending@;
        loop
            invariant
                orig == old(self)@,
                drain_spec(orig).1 == drain_spec(self.pending@).1,
                match drain_spec(orig).0 {
                    Ok(es) => drain_spec(self.pending@).0 matches Ok(rest) && es == events@ + rest,
                    Err(x) => drain_spec(self.pending@).0 == Err::<Seq<InputEvent>, ChannelError>(x),
                },
            decreases self.pending@.len(),
        {
            if self.pending.len() == 0 {
                assert(events@ + Seq::<InputEvent>::empty() =~= events@);
                assert(drain_spec(self.pending@).1 == self.pending@);
                return Ok(events);
            }
            let tag = self.pending[0];
            let n = match InputEvent::encoded_len_for_tag(tag) {
                Some(n) => n,
                None => {
                    assert(drain_spec(self.pending@).1 == self.pending@);
                    assert(drain_spec(self.pending@).0 == Err::<Seq<InputEvent>, ChannelError>(ChannelError::UnknownEvent));
                    return Err(ChannelError::UnknownEvent);
                },
            };
            if self.pending.len() < n || n == 0 {
                assert(events@ + Seq::<InputEvent>::empty() =~= events@);
                assert(drain_spec(self.pending@).1 == self.pending@);
                return Ok(events);
            }
            let payload = vstd::slice::slice_subrange(self.pending.as_slice(), 0, n);
            let rest = vstd::slice::slice_to_vec(vstd::slice::slice_subrange(self.pending.as_slice(), n, self.pending.len()));
            assert(payload@ =~= self.pending@.take(n as int));
            assert(rest@ =~= self.pending@.skip(n as int));
            let decoded = InputEvent::decode(payload);
            self.pending = rest;
            match decoded {
                Ok(e) => {
                    events.push(e);
                    proof {
                        match drain_spec(orig).0 {
                            Ok(es) => {
                                let tail = drain_spec(self.pending@).0->Ok_0;
                                assert(es =~= events@ + tail);
                            },
                            Err(_) => {},
                        }
                    }
                },
                Err(_) => {
                    return Err(ChannelError::InvalidEvent);
                },
            }
        }
    }
}

proof fn lemma_first_capable_update(ds: Seq<DeviceView>, cap: i32, i: int, k: int, d: DeviceView)
    requires
        0 <= i <= ds.len(),
        0 <= k < ds.len(),
        d.resumed == ds[k].resumed,
        d.capabilities == ds[k].capabilities,
    ensures
        first_capable(ds.update(k, d), cap, i) == first_capable(ds, cap, i),
    decreases ds.len() - i,
{
    if i < ds.len() {
        assert(ds.update(k, d)[i].resumed == ds[i].resumed);
        assert(ds.update(k, d)[i].capabilities == ds[i].capabilities);
        lemma_first_capable_update(ds, cap, i + 1, k, d);
    }
}

proof fn lemma_with_code_holds(s: Seq<u16>, c: u16)
    ensures
        with_code(s, c).contains(c),
{
    let a = s.filter(below(c));
    assert(with_code(s, c)[a.len() as int] == c);
}

proof fn lemma_without_code_lacks(s: Seq<u16>, c: u16)
    ensures
        !without_code(s, c).contains(c),
{
    s.filter_lemma(other_than(c));
}

/// Sending a key or button transition again, once it has been carried out,
/// changes nothing and makes no libei call: duplicate logical transitions
/// are filtered.
pub proof fn lemma_repeated_transition_is_filtered(ds: Seq<DeviceView>, e: InputEvent)
    requires
        e is Key || e is PointerButton,
        apply_spec(ds, e) is Some,
    ensures
        apply_spec(apply_spec(ds, e)->Some_0.0, e) == Some((apply_spec(ds, e)->Some_0.0, Seq::<EiCall>::empty())),
{
    let cap = event_capability(e);
    let i = first_capable(ds, cap, 0);
    lemma_first_capable(ds, cap, 0);
    let (d1, c1) = start_device(ds[i]);
    let (d2, c2) = event_on(d1, e);
    let ds1 = ds.update(i, d2);
    lemma_first_capable_update(ds, cap, 0, i, d2);
    assert(ds1[i] == d2);
    assert(start_device(d2) == (d2, Seq::<EiCall>::empty()));
    match e {
        InputEvent::Key { code, pressed } => {
            if pressed != d1.keys.contains(code) {
                if pressed {
                    lemma_with_code_holds(d1.keys, code);
                } else {
                    lemma_without_code_lacks(d1.keys, code);
                }
            }
        },
        InputEvent::PointerButton { code, pressed } => {
            if pressed != d1.buttons.contains(code) {
                if pressed {
                    lemma_with_code_holds(d1.buttons, code);
                } else {
                    lemma_without_code_lacks(d1.buttons, code);
                }
            }
        },
        _ => {},
    }
    assert(ds1.update(i, d2) =~= ds1);
}

/// When delivering a client's events detaches it (an event that no device
/// can carry), no device is left holding a key or button.
pub proof fn lemma_detached_client_released(ds: Seq<DeviceView>, events: Seq<InputEvent>)
    ensures
        ({
            let (r, attached, calls) = deliver_spec(ds, events);
            !attached ==> forall|i: int| 0 <= i < r.len() ==> (#[trigger] r[i]).keys.len() == 0 && r[i].buttons.len() == 0
        }),
    decreases events.len(),
{
    if events.len() > 0 {
        if events[0] is Reset {
            lemma_detached_client_released(reset_all(ds).0, events.drop_first());
        } else {
            match apply_spec(ds, events[0]) {
                Some((r, c)) => lemma_detached_client_released(r, events.drop_first()),
                None => lemma_reset_releases_everything(ds),
            }
        }
    }
}

/// A reset leaves no device holding a key or button and no resumed device
/// emulating, and every key or button that an emulating device held is
/// released by a call in the reset.
pub proof fn lemma_reset_releases_everything(ds: Seq<DeviceView>)
    ensures
        ({
            let (r, calls) = reset_all(ds);
            &&& r.len() == ds.len()
            &&& forall|i: int| 0 <= i < r.len() ==> (#[trigger] r[i]).keys.len() == 0 && r[i].buttons.len() == 0
                && r[i].handle == ds[i].handle
                && (ds[i].resumed ==> !r[i].emulating)
            &&& forall|i: int, k: u16| 0 <= i < ds.len() && ds[i].resumed && ds[i].emulating && #[trigger] ds[i].keys.contains(k)
                ==> calls.contains(EiCall::KeyboardKey { device: ds[i].handle, code: k as u32, pressed: false })
            &&& forall|i: int, b: u16| 0 <= i < ds.len() && ds[i].resumed && ds[i].emulating && #[trigger] ds[i].buttons.contains(b)
                ==> calls.contains(EiCall::ButtonButton { device: ds[i].handle, code: b as u32, pressed: false })
        }),
    decreases ds.len(),
{
    if ds.len() > 0 {
        let front = ds.drop_last();
        lemma_reset_releases_everything(front);
        let (r0, c0) = reset_all(front);
        let d = ds.last();
        let (rd, dc) = reset_device(d);
        let (r, calls) = reset_all(ds);
        assert(r == r0.push(rd));
        assert(calls == c0 + dc);
        assert forall|i: int| 0 <= i < r.len() implies (#[trigger] r[i]).keys.len() == 0 && r[i].buttons.len() == 0
            && r[i].handle == ds[i].handle && (ds[i].resumed ==> !r[i].emulating) by {
            if i < r0.len() {
                assert(r[i] == r0[i]);
                assert(ds[i] == front[i]);
            }
        }
        assert forall|i: int, k: u16| 0 <= i < ds.len() && ds[i].resumed && ds[i].emulating && #[trigger] ds[i].keys.contains(k)
            implies calls.contains(EiCall::KeyboardKey { device: ds[i].handle, code: k as u32, pressed: false }) by {
            if i < front.len() {
                assert(ds[i] == front[i]);
                let j = choose|j: int| 0 <= j < c0.len() && c0[j] == EiCall::KeyboardKey { device: ds[i].handle, code: k as u32, pressed: false };
                assert(calls[j] == c0[j]);
            } else {
                let j = choose|j: int| 0 <= j < d.keys.len() && d.keys[j] == k;
                let rel = d.keys.map_values(|k: u16| EiCall::KeyboardKey { device: d.handle, code: k as u32, pressed: false });
                assert(dc[j] == rel[j]);
                assert(calls[c0.len() + j] == dc[j]);
            }
        }
        assert forall|i: int, b: u16| 0 <= i < ds.len() && ds[i].resumed && ds[i].emulating && #[trigger] ds[i].buttons.contains(b)
            implies calls.contains(EiCall::ButtonButton { device: ds[i].handle, code: b as u32, pressed: false }) by {
            if i < front.len() {
                assert(ds[i] == front[i]);
                let j = choose|j: int| 0 <= j < c0.len() && c0[j] == EiCall::ButtonButton { device: ds[i].handle, code: b as u32, pressed: false };
                assert(calls[j] == c0[j]);
            } else {
                let j = choose|j: int| 0 <= j < d.buttons.len() && d.buttons[j] == b;
                let keys = d.keys.map_values(|k: u16| EiCall::KeyboardKey { device: d.handle, code: k as u32, pressed: false });
                let rel = d.buttons.map_values(|b: u16| EiCall::ButtonButton { device: d.handle, code: b as u32, pressed: false });
                assert(dc[keys.len() + j] == rel[j]);
                assert(calls[c0.len() + keys.len() + j] == dc[keys.len() + j]);
            }
        }
    }
}

/// Codes in strictly ascending order, as a set of held codes is kept.
pub open spec fn ascending(s: Seq<u16>) -> bool {
    forall|i: int, j: int| 0 <= i < j < s.len() ==> s[i] < s[j]
}

/// Every device keeps its held keys and buttons in ascending order.
pub open spec fn devices_ordered(ds: Seq<DeviceView>) -> bool {
    forall|i: int| 0 <= i < ds.len() ==> ascending(#[trigger] ds[i].keys) && ascending(ds[i].buttons)
}

proof fn lemma_filter_ascending(s: Seq<u16>, p: spec_fn(u16) -> bool)
    requires
        ascending(s),
    ensures
        ascending(s.filter(p)),
        forall|k: int| 0 <= k < s.filter(p).len() ==> s.contains(#[trigger] s.filter(p)[k]),
    decreases s.len(),
{
    if s.len() > 0 {
        let init = s.drop_last();
        let x = s.last();
        assert(s =~= init.push(x));
        lemma_filter_ascending(init, p);
        init.lemma_filter_push(x, p);
        let f = init.filter(p);
        assert forall|k: int| 0 <= k < f.len() implies #[trigger] f[k] < x by {
            let j = choose|j: int| 0 <= j < init.len() && init[j] == f[k];
            assert(s[j] == init[j]);
        }
        assert forall|k: int| 0 <= k < s.filter(p).len() implies s.contains(#[trigger] s.filter(p)[k]) by {
            if k < f.len() {
                let j = choose|j: int| 0 <= j < init.len() && init[j] == f[k];
                assert(s[j] == init[j]);
            } else {
                assert(s[s.len() - 1] == x);
            }
        }
    } else {
        assert(s.filter(p) =~= Seq::<u16>::empty()) by {
            reveal(Seq::filter);
        }
    }
}

proof fn lemma_code_sets_ascending(s: Seq<u16>, c: u16)
    requires
        ascending(s),
    ensures
        ascending(with_code(s, c)),
        ascending(without_code(s, c)),
{
    lemma_filter_ascending(s, below(c));
    lemma_filter_ascending(s, above(c));
    lemma_filter_ascending(s, other_than(c));
    s.filter_lemma(below(c));
    s.filter_lemma(above(c));
    let a = s.filter(below(c));
    let b = s.filter(above(c));
    let w = with_code(s, c);
    assert forall|i: int, j: int| 0 <= i < j < w.len() implies w[i] < w[j] by {
        if j < a.len() {
        } else if j == a.len() {
            assert(below(c)(a[i]));
        } else if i < a.len() {
            assert(below(c)(a[i]));
            assert(above(c)(b[j - a.len() - 1]));
        } else if i == a.len() {
            assert(above(c)(b[j - a.len() - 1]));
        } else {
            assert(w[i] == b[i - a.len() - 1]);
            assert(w[j] == b[j - a.len() - 1]);
        }
    }
}

proof fn lemma_all_len(ds: Seq<DeviceView>)
    ensures
        reset_all(ds).0.len() == ds.len(),
        start_all(ds).0.len() == ds.len(),
    decreases ds.len(),
{
    if ds.len() > 0 {
        lemma_all_len(ds.drop_last());
    }
}

/// Devices keep their held codes in ascending order through every event
/// and every reset, so that a reset releases them in ascending order.
pub proof fn lemma_held_codes_stay_ordered(ds: Seq<DeviceView>, e: InputEvent)
    requires
        devices_ordered(ds),
    ensures
        apply_spec(ds, e) matches Some((r, _)) ==> devices_ordered(r),
        devices_ordered(reset_all(ds).0),
        devices_ordered(start_all(ds).0),
{
    lemma_apply_keeps_order(ds, e);
    lemma_reset_start_keep_order(ds);
}

proof fn lemma_apply_keeps_order(ds: Seq<DeviceView>, e: InputEvent)
    requires
        devices_ordered(ds),
    ensures
        apply_spec(ds, e) matches Some((r, _)) ==> devices_ordered(r),
{
    if !(e is Reset) {
        let i = first_capable(ds, event_capability(e), 0);
        lemma_first_capable(ds, event_capability(e), 0);
        if i < ds.len() {
            assert(ascending(ds[i].keys) && ascending(ds[i].buttons));
            let d1 = start_device(ds[i]).0;
            assert(d1.keys == ds[i].keys && d1.buttons == ds[i].buttons);
            let d2 = event_on(d1, e).0;
            match e {
                InputEvent::Key { code, .. } => {
                    lemma_code_sets_ascending(d1.keys, code);
                    assert(d2.buttons == d1.buttons);
                },
                InputEvent::PointerButton { code, .. } => {
                    lemma_code_sets_ascending(d1.buttons, code);
                    assert(d2.keys == d1.keys);
                },
                _ => {
                    assert(d2 == d1);
                },
            }
            assert(ascending(d2.keys) && ascending(d2.buttons));
            let r = ds.update(i, d2);
            assert(apply_spec(ds, e) == Some((r, start_device(ds[i]).1 + event_on(d1, e).1)));
            assert forall|k: int| 0 <= k < r.len() implies ascending(#[trigger] r[k].keys) && ascending(r[k].buttons) by {
                if k != i {
                    assert(r[k] == ds[k]);
                }
            }
        }
    }
}

proof fn lemma_reset_start_keep_order(ds: Seq<DeviceView>)
    requires
        devices_ordered(ds),
    ensures
        devices_ordered(reset_all(ds).0),
        devices_ordered(start_all(ds).0),
    decreases ds.len(),
{
    if ds.len() > 0 {
        let init = ds.drop_last();
        assert forall|k: int| 0 <= k < init.len() implies ascending(#[trigger] init[k].keys) && ascending(init[k].buttons) by {
            assert(init[k] == ds[k]);
        }
        lemma_reset_start_keep_order(init);
        lemma_all_len(init);
        assert(ascending(ds[ds.len() - 1].keys) && ascending(ds[ds.len() - 1].buttons));
        let rr = reset_all(ds).0;
        assert forall|k: int| 0 <= k < rr.len() implies ascending(#[trigger] rr[k].keys) && ascending(rr[k].buttons) by {
            if k < init.len() {
                assert(rr[k] == reset_all(init).0[k]);
            }
        }
        let sr = start_all(ds).0;
        assert forall|k: int| 0 <= k < sr.len() implies ascending(#[trigger] sr[k].keys) && ascending(sr[k].buttons) by {
            if k < init.len() {
                assert(sr[k] == start_all(init).0[k]);
            }
        }
    }
}

/// The calls of an event on the device with handle `h`: first the start of
/// emulation on it, if any, then `tail`.
pub open spec fn starts_then(c: Seq<EiCall>, h: u64, tail: Seq<EiCall>) -> bool {
    &&& c.len() >= tail.len()
    &&& c.subrange(c.len() - tail.len(), c.len() as int) == tail
    &&& forall|k: int| 0 <= k < c.len() - tail.len() ==> (#[trigger] c[k] matches EiCall::StartEmulating { device, .. } && device == h)
}

proof fn lemma_apply_on_chosen(ds: Seq<DeviceView>, e: InputEvent)
    requires
        !(e is Reset),
    ensures
        ({
            let i = first_capable(ds, event_capability(e), 0);
            match apply_spec(ds, e) {
                None => forall|j: int| 0 <= j < ds.len() ==> !(ds[j].resumed && #[trigger] has_cap(ds[j], event_capability(e))),
                Some((r, c)) => 0 <= i < ds.len() && ds[i].resumed && has_cap(ds[i], event_capability(e))
                    && c == start_device(ds[i]).1 + event_on(start_device(ds[i]).0, e).1
                    && start_device(ds[i]).0.handle == ds[i].handle
                    && start_device(ds[i]).0.keys == ds[i].keys
                    && start_device(ds[i]).0.buttons == ds[i].buttons
                    && r == ds.update(i, event_on(start_device(ds[i]).0, e).0)
                    && forall|k: int| 0 <= k < start_device(ds[i]).1.len()
                        ==> (#[trigger] start_device(ds[i]).1[k] matches EiCall::StartEmulating { device, .. } && device == ds[i].handle),
            }
        }),
{
    let cap = event_capability(e);
    lemma_first_capable(ds, cap, 0);
    let i = first_capable(ds, cap, 0);
    if i >= ds.len() {
        assert forall|j: int| 0 <= j < ds.len() implies !(ds[j].resumed && #[trigger] has_cap(ds[j], cap)) by {
            lemma_first_capable_skips(ds, cap, 0, j);
        }
    }
}

proof fn lemma_first_capable_skips(ds: Seq<DeviceView>, cap: i32, i: int, j: int)
    requires
        0 <= i <= j < ds.len(),
        first_capable(ds, cap, i) >= ds.len(),
    ensures
        !(ds[j].resumed && has_cap(ds[j], cap)),
    decreases j - i,
{
    if i < j {
        lemma_first_capable_skips(ds, cap, i + 1, j);
    }
}

/// Input reaches the desktop as it was sent. When some resumed device can
/// carry the event, it is carried out on such a device (`h` is its handle):
/// after starting emulation on it if needed, a non-zero pointer motion is
/// one pointer-motion call with the event's own `x` and `y`, a non-zero
/// scroll one discrete-scroll call with its own `x` and `y`, a key or button
/// that changes state one call with its own code and direction; each is
/// followed by a frame, and the device then holds the key or button exactly
/// when it was pressed. When no resumed device can carry the event, it is
/// refused.
pub proof fn lemma_input_as_sent(ds: Seq<DeviceView>, e: InputEvent)
    requires
        !(e is Reset),
    ensures
        match apply_spec(ds, e) {
            None => forall|j: int| 0 <= j < ds.len() ==> !(ds[j].resumed && #[trigger] has_cap(ds[j], event_capability(e))),
            Some((r, c)) => exists|i: int| 0 <= i < ds.len() && ds[i].resumed && #[trigger] has_cap(ds[i], event_capability(e)) && {
                let h = ds[i].handle;
                &&& r.len() == ds.len()
                &&& forall|j: int| 0 <= j < ds.len() && j != i ==> r[j] == ds[j]
                &&& match e {
                    InputEvent::PointerMotion { x, y } => (x != 0 || y != 0) ==> starts_then(c, h, seq![EiCall::PointerMotion { device: h, x, y }, EiCall::Frame { device: h }]),
                    InputEvent::Scroll { x, y } => (x != 0 || y != 0) ==> starts_then(c, h, seq![EiCall::ScrollDiscrete { device: h, x: x as i32, y: y as i32 }, EiCall::Frame { device: h }]),
                    InputEvent::Key { code, pressed } => {
                        &&& r[i].keys.contains(code) == pressed
                        &&& pressed != ds[i].keys.contains(code) ==> starts_then(c, h, seq![EiCall::KeyboardKey { device: h, code: code as u32, pressed }, EiCall::Frame { device: h }])
                    },
                    InputEvent::PointerButton { code, pressed } => {
                        &&& r[i].buttons.contains(code) == pressed
                        &&& pressed != ds[i].buttons.contains(code) ==> starts_then(c, h, seq![EiCall::ButtonButton { device: h, code: code as u32, pressed }, EiCall::Frame { device: h }])
                    },
                    InputEvent::Reset => true,
                }
            },
        },
{
    lemma_apply_on_chosen(ds, e);
    match apply_spec(ds, e) {
        None => {},
        Some((r, c)) => {
            let i = first_capable(ds, event_capability(e), 0);
            let d1 = start_device(ds[i]).0;
            let c1 = start_device(ds[i]).1;
            let (d2, c2) = event_on(d1, e);
            let h = ds[i].handle;
            assert(c == c1 + c2);
            assert(c.subrange(c.len() - c2.len(), c.len() as int) =~= c2);
            assert forall|k: int| 0 <= k < c.len() - c2.len() implies (#[trigger] c[k] matches EiCall::StartEmulating { device, .. } && device == h) by {
                assert(c[k] == c1[k]);
            }
            match e {
                InputEvent::Key { code, pressed } => {
                    if pressed != d1.keys.contains(code) {
                        if pressed {
                            lemma_with_code_holds(d1.keys, code);
                        } else {
                            lemma_without_code_lacks(d1.keys, code);
                        }
                    }
                },
                InputEvent::PointerButton { code, pressed } => {
                    if pressed != d1.buttons.contains(code) {
                        if pressed {
                            lemma_with_code_holds(d1.buttons, code);
                        } else {
                            lemma_without_code_lacks(d1.buttons, code);
                        }
                    }
                },
                _ => {},
            }
            assert(r[i] == d2);
        },
    }
}

} // verus!
