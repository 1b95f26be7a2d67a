//! Protocol events and their wire encoding.
//!
//! An event is one type byte followed by its fields in big-endian order. Coordinates and scroll
//! amounts are IEEE 754 doubles; they are carried here as their 64-bit patterns.
use crate::bytes::{
    be_bytes, be_value, get_u32_be, get_u64_be, i32_from_pattern, i32_of_pattern, i32_pattern,
    i32_to_pattern, lemma_be_bytes_len, lemma_be_bytes_of_value, lemma_be_value_of_bytes,
    lemma_byte_ranges, put_u32_be, put_u64_be,
};
use crate::text::{decimal, decimal_string};
use vstd::prelude::*;
use vstd::string::StringExecFns;

verus! {

/// The largest encoded event, a pointer motion: type byte, time, and two doubles.
pub const MAX_EVENT_SIZE: usize = 21;

/// What can be wrong with a received datagram.
#[derive(Clone, Copy, Debug, PartialEq, Eq, Structural)]
pub enum ProtocolError {
    /// The event type does not exist.
    InvalidEventId(u8),
    /// The datagram is too short or too long for the authenticated wire format.
    BadLength(usize),
    /// The authentication code does not match: forged, corrupted, or made with another key.
    AuthenticationFailed,
}

/// A pointer event. `dx`, `dy` and the value of `Axis` are bit patterns of doubles.
#[allow(inconsistent_fields)]
#[derive(Clone, Copy, Debug, PartialEq, Eq, Structural)]
pub enum PointerEvent {
    Motion { time: u32, dx: u64, dy: u64 },
    Button { time: u32, button: u32, state: u32 },
    Axis { time: u32, axis: u8, value: u64 },
    AxisDiscrete120 { axis: u8, value: i32 },
}

/// A keyboard event.
#[derive(Clone, Copy, Debug, PartialEq, Eq, Structural)]
pub enum KeyboardEvent {
    Key { time: u32, key: u32, state: u8 },
    Modifiers { depressed: u32, latched: u32, locked: u32, group: u32 },
}

/// Input from either device.
#[derive(Clone, Copy, Debug, PartialEq, Eq, Structural)]
pub enum InputEvent {
    Pointer(PointerEvent),
    Keyboard(KeyboardEvent),
}

/// The events of the protocol.
#[derive(Clone, Copy, Debug, PartialEq, Eq, Structural)]
pub enum ProtoEvent {
    /// The cursor entered the receiver's region; answered by `Ack` with the same serial.
    Enter(u32),
    /// The cursor left the receiver's region; answered by `Ack` with the same serial.
    Leave(u32),
    /// Acknowledges an `Enter` or a `Leave`.
    Ack(u32),
    /// An input event.
    Input(InputEvent),
    /// Asks whether the receiver is still there; answered by `Pong`.
    Ping,
    /// The answer to `Ping`.
    Pong,
}

/// The kinds of event, in the order of their type bytes.
#[derive(Clone, Copy, Debug, PartialEq, Eq, Structural)]
pub enum EventType {
    PointerMotion,
    PointerButton,
    PointerAxis,
    PointerAxisValue120,
    KeyboardKey,
    KeyboardModifiers,
    Ping,
    Pong,
    Enter,
    Leave,
    Ack,
}

impl EventType {
    /// The type byte of this kind of event.
    pub open spec fn code(self) -> u8 {
        match self {
            EventType::PointerMotion => 0,
            EventType::PointerButton => 1,
            EventType::PointerAxis => 2,
            EventType::PointerAxisValue120 => 3,
            EventType::KeyboardKey => 4,
            EventType::KeyboardModifiers => 5,
            EventType::Ping => 6,
            EventType::Pong => 7,
            EventType::Enter => 8,
            EventType::Leave => 9,
            EventType::Ack => 10,
        }
    }

    /// Writes the type byte.
    pub fn to_u8(self) -> (b: u8)
        ensures
            b == self.code(),
    {
        match self {
            EventType::PointerMotion => 0,
            EventType::PointerButton => 1,
            EventType::PointerAxis => 2,
            EventType::PointerAxisValue120 => 3,
            EventType::KeyboardKey => 4,
            EventType::KeyboardModifiers => 5,
            EventType::Ping => 6,
            EventType::Pong => 7,
            EventType::Enter => 8,
            EventType::Leave => 9,
            EventType::Ack => 10,
        }
    }

    /// Reads a type byte; there are eleven of them.
    pub fn try_from_u8(b: u8) -> (r: Option<EventType>)
        ensures
            match r {
                Some(t) => t.code() == b,
                None => b > 10,
            },
    {
        match b {
            0 => Some(EventType::PointerMotion),
            1 => Some(EventType::PointerButton),
            2 => Some(EventType::PointerAxis),
            3 => Some(EventType::PointerAxisValue120),
            4 => Some(EventType::KeyboardKey),
            5 => Some(EventType::KeyboardModifiers),
            6 => Some(EventType::Ping),
            7 => Some(EventType::Pong),
            8 => Some(EventType::Enter),
            9 => Some(EventType::Leave),
            10 => Some(EventType::Ack),
            _ => None,
        }
    }
}

impl ProtoEvent {
    /// The kind of this event.
    pub open spec fn kind(self) -> EventType {
        match self {
            ProtoEvent::Input(InputEvent::Pointer(p)) => match p {
                PointerEvent::Motion { .. } => EventType::PointerMotion,
                PointerEvent::Button { .. } => EventType::PointerButton,
                PointerEvent::Axis { .. } => EventType::PointerAxis,
                PointerEvent::AxisDiscrete120 { .. } => EventType::PointerAxisValue120,
            },
            ProtoEvent::Input(InputEvent::Keyboard(k)) => match k {
                KeyboardEvent::Key { .. } => EventType::KeyboardKey,
                KeyboardEvent::Modifiers { .. } => EventType::KeyboardModifiers,
            },
            ProtoEvent::Ping => EventType::Ping,
            ProtoEvent::Pong => EventType::Pong,
            ProtoEvent::Enter(_) => EventType::Enter,
            ProtoEvent::Leave(_) => EventType::Leave,
            ProtoEvent::Ack(_) => EventType::Ack,
        }
    }

    /// The fields of the event behind its type byte.
    pub open spec fn fields(self) -> Seq<u8> {
        match self {
            ProtoEvent::Input(InputEvent::Pointer(p)) => match p {
                PointerEvent::Motion { time, dx, dy } => be_bytes(time as nat, 4) + be_bytes(
                    dx as nat,
                    8,
                ) + be_bytes(dy as nat, 8),
                PointerEvent::Button { time, button, state } => be_bytes(time as nat, 4)
                    + be_bytes(button as nat, 4) + be_bytes(state as nat, 4),
                PointerEvent::Axis { time, axis, value } => be_bytes(time as nat, 4) + seq![axis]
                    + be_bytes(value as nat, 8),
                PointerEvent::AxisDiscrete120 { axis, value } => seq![axis] + be_bytes(
                    i32_pattern(value),
                    4,
                ),
            },
            ProtoEvent::Input(InputEvent::Keyboard(k)) => match k {
                KeyboardEvent::Key { time, key, state } => be_bytes(time as nat, 4) + be_bytes(
                    key as nat,
                    4,
                ) + seq![state],
                KeyboardEvent::Modifiers { depressed, latched, locked, group } => be_bytes(
                    depressed as nat,
                    4,
                ) + be_bytes(latched as nat, 4) + be_bytes(locked as nat, 4) + be_bytes(
                    group as nat,
                    4,
                ),
            },
            ProtoEvent::Ping | ProtoEvent::Pong => Seq::empty(),
            ProtoEvent::Enter(serial) => be_bytes(serial as nat, 4),
            ProtoEvent::Leave(serial) => be_bytes(serial as nat, 4),
            ProtoEvent::Ack(serial) => be_bytes(serial as nat, 4),
        }
    }

    /// The encoding of the event: its type byte and its fields.
    pub open spec fn wire(self) -> Seq<u8> {
        seq![self.kind().code()] + self.fields()
    }
}

/// The 32-bit number in the four bytes from `at` on.
pub open spec fn u32_at(buf: Seq<u8>, at: int) -> u32 {
    be_value(buf.subrange(at, at + 4)) as u32
}

/// The 64-bit number in the eight bytes from `at` on.
pub open spec fn u64_at(buf: Seq<u8>, at: int) -> u64 {
    be_value(buf.subrange(at, at + 8)) as u64
}

/// The event that a buffer of `MAX_EVENT_SIZE` bytes starts with. What follows the event's own
/// fields is ignored.
pub open spec fn decoded_event(buf: Seq<u8>) -> Result<ProtoEvent, ProtocolError> {
    if buf[0] == EventType::PointerMotion.code() {
        Ok(
            ProtoEvent::Input(
                InputEvent::Pointer(
                    PointerEvent::Motion {
                        time: u32_at(buf, 1),
                        dx: u64_at(buf, 5),
                        dy: u64_at(buf, 13),
                    },
                ),
            ),
        )
    } else if buf[0] == EventType::PointerButton.code() {
        Ok(
            ProtoEvent::Input(
                InputEvent::Pointer(
                    PointerEvent::Button {
                        time: u32_at(buf, 1),
                        button: u32_at(buf, 5),
                        state: u32_at(buf, 9),
                    },
                ),
            ),
        )
    } else if buf[0] == EventType::PointerAxis.code() {
        Ok(
            ProtoEvent::Input(
                InputEvent::Pointer(
                    PointerEvent::Axis {
                        time: u32_at(buf, 1),
                        axis: buf[5],
                        value: u64_at(buf, 6),
                    },
                ),
            ),
        )
    } else if buf[0] == EventType::PointerAxisValue120.code() {
        Ok(
            ProtoEvent::Input(
                InputEvent::Pointer(
                    PointerEvent::AxisDiscrete120 {
                        axis: buf[1],
                        value: i32_of_pattern(u32_at(buf, 2) as nat),
                    },
                ),
            ),
        )
    } else if buf[0] == EventType::KeyboardKey.code() {
        Ok(
            ProtoEvent::Input(
                InputEvent::Keyboard(
                    KeyboardEvent::Key {
                        time: u32_at(buf, 1),
                        key: u32_at(buf, 5),
                        state: buf[9],
                    },
                ),
            ),
        )
    } else if buf[0] == EventType::KeyboardModifiers.code() {
        Ok(
            ProtoEvent::Input(
                InputEvent::Keyboard(
                    KeyboardEvent::Modifiers {
                        depressed: u32_at(buf, 1),
                        latched: u32_at(buf, 5),
                        locked: u32_at(buf, 9),
                        group: u32_at(buf, 13),
                    },
                ),
            ),
        )
    } else if buf[0] == EventType::Ping.code() {
        Ok(ProtoEvent::Ping)
    } else if buf[0] == EventType::Pong.code() {
        Ok(ProtoEvent::Pong)
    } else if buf[0] == EventType::Enter.code() {
        Ok(ProtoEvent::Enter(u32_at(buf, 1)))
    } else if buf[0] == EventType::Leave.code() {
        Ok(ProtoEvent::Leave(u32_at(buf, 1)))
    } else if buf[0] == EventType::Ack.code() {
        Ok(ProtoEvent::Ack(u32_at(buf, 1)))
    } else {
        Err(ProtocolError::InvalidEventId(buf[0]))
    }
}

/// How many bytes the fields of an event take, by its kind.
pub open spec fn fields_len(t: EventType) -> nat {
    match t {
        EventType::PointerMotion => 20,
        EventType::PointerButton => 12,
        EventType::PointerAxis => 13,
        EventType::PointerAxisValue120 => 5,
        EventType::KeyboardKey => 9,
        EventType::KeyboardModifiers => 16,
        EventType::Ping => 0,
        EventType::Pong => 0,
        EventType::Enter => 4,
        EventType::Leave => 4,
        EventType::Ack => 4,
    }
}

/// The encoding of an event has the length that belongs to its kind, and fits into
/// `MAX_EVENT_SIZE` bytes.
pub proof fn law_wire_len(e: ProtoEvent)
    ensures
        e.wire().len() == 1 + fields_len(e.kind()),
        1 <= e.wire().len() <= MAX_EVENT_SIZE,
{
    assert forall|n: nat| #[trigger] be_bytes(n, 4).len() == 4 by {
        lemma_be_bytes_len(n, 4);
    }
    assert forall|n: nat| #[trigger] be_bytes(n, 8).len() == 8 by {
        lemma_be_bytes_len(n, 8);
    }
}

proof fn lemma_u32_at(buf: Seq<u8>, at: int, n: u32)
    requires
        0 <= at,
        at + 4 <= buf.len(),
        buf.subrange(at, at + 4) == be_bytes(n as nat, 4),
    ensures
        u32_at(buf, at) == n,
{
    lemma_byte_ranges();
    lemma_be_value_of_bytes(n as nat, 4);
}

proof fn lemma_u64_at(buf: Seq<u8>, at: int, n: u64)
    requires
        0 <= at,
        at + 8 <= buf.len(),
        buf.subrange(at, at + 8) == be_bytes(n as nat, 8),
    ensures
        u64_at(buf, at) == n,
{
    lemma_byte_ranges();
    lemma_be_value_of_bytes(n as nat, 8);
}

/// Decoding gives back the event that was encoded, whatever stands behind it in the buffer.
pub proof fn law_decode_of_encode(e: ProtoEvent, buf: Seq<u8>)
    requires
        e.wire().is_prefix_of(buf),
    ensures
        decoded_event(buf) == Ok::<ProtoEvent, ProtocolError>(e),
{
    law_wire_len(e);
    lemma_byte_ranges();
    let w = e.wire();
    assert(w =~= buf.take(w.len() as int));
    assert forall|i: int|
        #![trigger buf[i]]
        #![trigger w[i]]
        0 <= i < w.len() implies buf[i] == w[i] by {
        assert(buf.take(w.len() as int)[i] == buf[i]);
    }
    assert(w[0] == e.kind().code());
    assert forall|n: nat| #[trigger] be_bytes(n, 4).len() == 4 by {
        lemma_be_bytes_len(n, 4);
    }
    assert forall|n: nat| #[trigger] be_bytes(n, 8).len() == 8 by {
        lemma_be_bytes_len(n, 8);
    }
    match e {
        ProtoEvent::Input(InputEvent::Pointer(PointerEvent::Motion { time, dx, dy })) => {
            assert(buf.subrange(1, 5) =~= be_bytes(time as nat, 4));
            assert(buf.subrange(5, 13) =~= be_bytes(dx as nat, 8));
            assert(buf.subrange(13, 21) =~= be_bytes(dy as nat, 8));
            lemma_u32_at(buf, 1, time);
            lemma_u64_at(buf, 5, dx);
            lemma_u64_at(buf, 13, dy);
        },
        ProtoEvent::Input(InputEvent::Pointer(PointerEvent::Button { time, button, state })) => {
            assert(buf.subrange(1, 5) =~= be_bytes(time as nat, 4));
            assert(buf.subrange(5, 9) =~= be_bytes(button as nat, 4));
            assert(buf.subrange(9, 13) =~= be_bytes(state as nat, 4));
            lemma_u32_at(buf, 1, time);
            lemma_u32_at(buf, 5, button);
            lemma_u32_at(buf, 9, state);
        },
        ProtoEvent::Input(InputEvent::Pointer(PointerEvent::Axis { time, axis, value })) => {
            assert(buf.subrange(1, 5) =~= be_bytes(time as nat, 4));
            assert(w[5] == axis);
            assert(buf.subrange(6, 14) =~= be_bytes(value as nat, 8));
            lemma_u32_at(buf, 1, time);
            lemma_u64_at(buf, 6, value);
        },
        ProtoEvent::Input(InputEvent::Pointer(PointerEvent::AxisDiscrete120 { axis, value })) => {
            assert(w[1] == axis);
            assert(buf.subrange(2, 6) =~= be_bytes(i32_pattern(value), 4));
            lemma_u32_at(buf, 2, i32_pattern(value) as u32);
        },
        ProtoEvent::Input(InputEvent::Keyboard(KeyboardEvent::Key { time, key, state })) => {
            assert(buf.subrange(1, 5) =~= be_bytes(time as nat, 4));
            assert(buf.subrange(5, 9) =~= be_bytes(key as nat, 4));
            assert(w[9] == state);
            lemma_u32_at(buf, 1, time);
            lemma_u32_at(buf, 5, key);
        },
        ProtoEvent::Input(
            InputEvent::Keyboard(KeyboardEvent::Modifiers { depressed, latched, locked, group }),
        ) => {
            assert(buf.subrange(1, 5) =~= be_bytes(depressed as nat, 4));
            assert(buf.subrange(5, 9) =~= be_bytes(latched as nat, 4));
            assert(buf.subrange(9, 13) =~= be_bytes(locked as nat, 4));
            assert(buf.subrange(13, 17) =~= be_bytes(group as nat, 4));
            lemma_u32_at(buf, 1, depressed);
            lemma_u32_at(buf, 5, latched);
            lemma_u32_at(buf, 9, locked);
            lemma_u32_at(buf, 13, group);
        },
        ProtoEvent::Ping => {},
        ProtoEvent::Pong => {},
        ProtoEvent::Enter(serial) => {
            assert(buf.subrange(1, 5) =~= be_bytes(serial as nat, 4));
            lemma_u32_at(buf, 1, serial);
        },
        ProtoEvent::Leave(serial) => {
            assert(buf.subrange(1, 5) =~= be_bytes(serial as nat, 4));
            lemma_u32_at(buf, 1, serial);
        },
        ProtoEvent::Ack(serial) => {
            assert(buf.subrange(1, 5) =~= be_bytes(serial as nat, 4));
            lemma_u32_at(buf, 1, serial);
        },
    }
}

/// Two different events have different encodings, and neither is the beginning of the other.
pub proof fn law_wire_is_prefix_free(a: ProtoEvent, b: ProtoEvent)
    requires
        a.wire().is_prefix_of(b.wire()),
    ensures
        a == b,
{
    law_decode_of_encode(a, b.wire());
    law_decode_of_encode(b, b.wire());
}

proof fn lemma_bytes_at_u32(buf: Seq<u8>, at: int)
    requires
        0 <= at,
        at + 4 <= buf.len(),
    ensures
        be_bytes(u32_at(buf, at) as nat, 4) == buf.subrange(at, at + 4),
{
    lemma_byte_ranges();
    lemma_be_bytes_of_value(buf.subrange(at, at + 4));
}

proof fn lemma_bytes_at_u64(buf: Seq<u8>, at: int)
    requires
        0 <= at,
        at + 8 <= buf.len(),
    ensures
        be_bytes(u64_at(buf, at) as nat, 8) == buf.subrange(at, at + 8),
{
    lemma_byte_ranges();
    lemma_be_bytes_of_value(buf.subrange(at, at + 8));
}

/// A buffer that decodes to an event starts with that event's encoding.
pub proof fn law_encode_of_decode(buf: Seq<u8>, e: ProtoEvent)
    requires
        buf.len() >= MAX_EVENT_SIZE,
        decoded_event(buf) == Ok::<ProtoEvent, ProtocolError>(e),
    ensures
        e.wire().is_prefix_of(buf),
{
    law_wire_len(e);
    lemma_bytes_at_u32(buf, 1);
    lemma_bytes_at_u32(buf, 2);
    lemma_bytes_at_u32(buf, 5);
    lemma_bytes_at_u32(buf, 9);
    lemma_bytes_at_u32(buf, 13);
    lemma_bytes_at_u64(buf, 5);
    lemma_bytes_at_u64(buf, 6);
    lemma_bytes_at_u64(buf, 13);
    assert(e.wire() =~= buf.take(e.wire().len() as int));
}

/// Copies `src` to the beginning of a zeroed event buffer.
pub fn padded_event(src: &[u8]) -> (buf: [u8; MAX_EVENT_SIZE])
    requires
        src@.len() <= MAX_EVENT_SIZE,
    ensures
        buf@ == src@ + Seq::new((MAX_EVENT_SIZE - src@.len()) as nat, |i: int| 0u8),
{
    let mut buf: [u8; MAX_EVENT_SIZE] = [0u8;MAX_EVENT_SIZE];
    let n: usize = src.len();
    let mut i: usize = 0;
    while i < n
        invariant
            i <= n,
            n == src@.len(),
            n <= MAX_EVENT_SIZE,
            forall|k: int| 0 <= k < i ==> buf@[k] == src@[k],
            forall|k: int| i <= k < MAX_EVENT_SIZE ==> buf@[k] == 0,
        decreases n - i,
    {
        buf[i] = src[i];
        i = i + 1;
    }
    assert(buf@ =~= src@ + Seq::new((MAX_EVENT_SIZE - src@.len()) as nat, |i: int| 0u8));
    buf
}

impl ProtoEvent {
    /// The kind of this event.
    pub fn event_type(&self) -> (t: EventType)
        ensures
            t == self.kind(),
    {
        match self {
            ProtoEvent::Input(e) => match e {
                InputEvent::Pointer(p) => match p {
                    PointerEvent::Motion { .. } => EventType::PointerMotion,
                    PointerEvent::Button { .. } => EventType::PointerButton,
                    PointerEvent::Axis { .. } => EventType::PointerAxis,
                    PointerEvent::AxisDiscrete120 { .. } => EventType::PointerAxisValue120,
                },
                InputEvent::Keyboard(k) => match k {
                    KeyboardEvent::Key { .. } => EventType::KeyboardKey,
                    KeyboardEvent::Modifiers { .. } => EventType::KeyboardModifiers,
                },
            },
            ProtoEvent::Ping => EventType::Ping,
            ProtoEvent::Pong => EventType::Pong,
            ProtoEvent::Enter(_) => EventType::Enter,
            ProtoEvent::Leave(_) => EventType::Leave,
            ProtoEvent::Ack(_) => EventType::Ack,
        }
    }

    /// Encodes the event.
    pub fn to_bytes(&self) -> (out: Vec<u8>)
        ensures
            out@ == self.wire(),
    {
        let mut out: Vec<u8> = Vec::new();
        out.push(self.event_type().to_u8());
        match self {
            ProtoEvent::Input(e) => match e {
                InputEvent::Pointer(p) => match p {
                    PointerEvent::Motion { time, dx, dy } => {
                        put_u32_be(&mut out, *time);
                        put_u64_be(&mut out, *dx);
                        put_u64_be(&mut out, *dy);
                    },
                    PointerEvent::Button { time, button, state } => {
                        put_u32_be(&mut out, *time);
                        put_u32_be(&mut out, *button);
                        put_u32_be(&mut out, *state);
                    },
                    PointerEvent::Axis { time, axis, value } => {
                        put_u32_be(&mut out, *time);
                        out.push(*axis);
                        put_u64_be(&mut out, *value);
                    },
                    PointerEvent::AxisDiscrete120 { axis, value } => {
                        out.push(*axis);
                        put_u32_be(&mut out, i32_to_pattern(*value));
                    },
                },
                InputEvent::Keyboard(k) => match k {
                    KeyboardEvent::Key { time, key, state } => {
                        put_u32_be(&mut out, *time);
                        put_u32_be(&mut out, *key);
                        out.push(*state);
                    },
                    KeyboardEvent::Modifiers { depressed, latched, locked, group } => {
                        put_u32_be(&mut out, *depressed);
                        put_u32_be(&mut out, *latched);
                        put_u32_be(&mut out, *locked);
                        put_u32_be(&mut out, *group);
                    },
                },
            },
            ProtoEvent::Ping => {},
            ProtoEvent::Pong => {},
            ProtoEvent::Enter(serial) => put_u32_be(&mut out, *serial),
            ProtoEvent::Leave(serial) => put_u32_be(&mut out, *serial),
            ProtoEvent::Ack(serial) => put_u32_be(&mut out, *serial),
        }
        assert(out@ =~= self.wire());
        out
    }

    /// Encodes the event into a fixed buffer; the length counts the bytes in use, and the rest is
    /// zero.
    pub fn encode(&self) -> (r: ([u8; MAX_EVENT_SIZE], usize))
        ensures
            r.1 == self.wire().len(),
            r.0@ == self.wire() + Seq::new((MAX_EVENT_SIZE - r.1) as nat, |i: int| 0u8),
    {
        let out: Vec<u8> = self.to_bytes();
        proof {
            law_wire_len(*self);
        }
        let buf: [u8; MAX_EVENT_SIZE] = padded_event(out.as_slice());
        (buf, out.len())
    }

    /// Decodes the event at the beginning of a buffer.
    pub fn try_from(buf: [u8; MAX_EVENT_SIZE]) -> (r: Result<ProtoEvent, ProtocolError>)
        ensures
            r == decoded_event(buf@),
    {
        let s: &[u8] = buf.as_slice();
        let id: u8 = s[0];
        proof {
            lemma_byte_ranges();
        }
        let kind: EventType = match EventType::try_from_u8(id) {
            Some(t) => t,
            None => {
                return Err(ProtocolError::InvalidEventId(id));
            },
        };
        match kind {
            EventType::PointerMotion => Ok(
                ProtoEvent::Input(
                    InputEvent::Pointer(
                        PointerEvent::Motion {
                            time: get_u32_be(s, 1),
                            dx: get_u64_be(s, 5),
                            dy: get_u64_be(s, 13),
                        },
                    ),
                ),
            ),
            EventType::PointerButton => Ok(
                ProtoEvent::Input(
                    InputEvent::Pointer(
                        PointerEvent::Button {
                            time: get_u32_be(s, 1),
                            button: get_u32_be(s, 5),
                            state: get_u32_be(s, 9),
                        },
                    ),
                ),
            ),
            EventType::PointerAxis => Ok(
                ProtoEvent::Input(
                    InputEvent::Pointer(
                        PointerEvent::Axis {
                            time: get_u32_be(s, 1),
                            axis: s[5],
                            value: get_u64_be(s, 6),
                        },
                    ),
                ),
            ),
            EventType::PointerAxisValue120 => Ok(
                ProtoEvent::Input(
                    InputEvent::Pointer(
                        PointerEvent::AxisDiscrete120 {
                            axis: s[1],
                            value: i32_from_pattern(get_u32_be(s, 2)),
                        },
                    ),
                ),
            ),
            EventType::KeyboardKey => Ok(
                ProtoEvent::Input(
                    InputEvent::Keyboard(
                        KeyboardEvent::Key {
                            time: get_u32_be(s, 1),
                            key: get_u32_be(s, 5),
                            state: s[9],
                        },
                    ),
                ),
            ),
            EventType::KeyboardModifiers => Ok(
                ProtoEvent::Input(
                    InputEvent::Keyboard(
                        KeyboardEvent::Modifiers {
                            depressed: get_u32_be(s, 1),
                            latched: get_u32_be(s, 5),
                            locked: get_u32_be(s, 9),
                            group: get_u32_be(s, 13),
                        },
                    ),
                ),
            ),
            EventType::Ping => Ok(ProtoEvent::Ping),
            EventType::Pong => Ok(ProtoEvent::Pong),
            EventType::Enter => Ok(ProtoEvent::Enter(get_u32_be(s, 1))),
            EventType::Leave => Ok(ProtoEvent::Leave(get_u32_be(s, 1))),
            EventType::Ack => Ok(ProtoEvent::Ack(get_u32_be(s, 1))),
        }
    }
}

/// The text of an event in a log, given the text of its input.
pub open spec fn event_text(e: ProtoEvent, input: Seq<char>) -> Seq<char> {
    match e {
        ProtoEvent::Enter(s) => "Enter("@ + decimal(s as nat) + ")"@,
        ProtoEvent::Leave(s) => "Leave("@ + decimal(s as nat) + ")"@,
        ProtoEvent::Ack(s) => "Ack("@ + decimal(s as nat) + ")"@,
        ProtoEvent::Input(_) => input,
        ProtoEvent::Ping => "ping"@,
        ProtoEvent::Pong => "pong"@,
    }
}

fn serial_text(name: &str, serial: u32) -> (s: String)
    ensures
        s@ == name@ + decimal(serial as nat) + ")"@,
{
    let mut s: String = name.to_owned();
    let digits: String = decimal_string(serial as u64);
    s.append(digits.as_str());
    s.append(")");
    s
}

impl ProtoEvent {
    /// The text of the event in a log, given the text of its input.
    pub fn describe(&self, input: &str) -> (s: String)
        ensures
            s@ == event_text(*self, input@),
    {
        match self {
            ProtoEvent::Enter(serial) => serial_text("Enter(", *serial),
            ProtoEvent::Leave(serial) => serial_text("Leave(", *serial),
            ProtoEvent::Ack(serial) => serial_text("Ack(", *serial),
            ProtoEvent::Input(_) => input.to_owned(),
            ProtoEvent::Ping => "ping".to_owned(),
            ProtoEvent::Pong => "pong".to_owned(),
        }
    }
}

/// The type bytes that both sides know the kinds of event by.
pub proof fn law_kinds_are_numbered(e: ProtoEvent)
    ensures
        e.wire()[0] == match e {
            ProtoEvent::Input(InputEvent::Pointer(PointerEvent::Motion { .. })) => 0u8,
            ProtoEvent::Input(InputEvent::Pointer(PointerEvent::Button { .. })) => 1,
            ProtoEvent::Input(InputEvent::Pointer(PointerEvent::Axis { .. })) => 2,
            ProtoEvent::Input(InputEvent::Pointer(PointerEvent::AxisDiscrete120 { .. })) => 3,
            ProtoEvent::Input(InputEvent::Keyboard(KeyboardEvent::Key { .. })) => 4,
            ProtoEvent::Input(InputEvent::Keyboard(KeyboardEvent::Modifiers { .. })) => 5,
            ProtoEvent::Ping => 6,
            ProtoEvent::Pong => 7,
            ProtoEvent::Enter(_) => 8,
            ProtoEvent::Leave(_) => 9,
            ProtoEvent::Ack(_) => 10,
        },
{
}

/// Where the fields of an event stand on the wire, behind its type byte, each with its most
/// significant byte first.
pub proof fn law_wire_layout(e: ProtoEvent)
    ensures
        ({
            let w = e.wire();
            let u32_in = |at: int| be_value(w.subrange(at, at + 4));
            let u64_in = |at: int| be_value(w.subrange(at, at + 8));
            match e {
                ProtoEvent::Input(InputEvent::Pointer(PointerEvent::Motion { time, dx, dy })) => {
                    w.len() == 21 && u32_in(1) == time && u64_in(5) == dx && u64_in(13) == dy
                },
                ProtoEvent::Input(
                    InputEvent::Pointer(PointerEvent::Button { time, button, state }),
                ) => {
                    w.len() == 13 && u32_in(1) == time && u32_in(5) == button && u32_in(9) == state
                },
                ProtoEvent::Input(
                    InputEvent::Pointer(PointerEvent::Axis { time, axis, value }),
                ) => {
                    w.len() == 14 && u32_in(1) == time && w[5] == axis && u64_in(6) == value
                },
                ProtoEvent::Input(
                    InputEvent::Pointer(PointerEvent::AxisDiscrete120 { axis, value }),
                ) => {
                    w.len() == 6 && w[1] == axis && u32_in(2) == if value < 0 {
                        value + 0x1_0000_0000
                    } else {
                        value as int
                    }
                },
                ProtoEvent::Input(
                    InputEvent::Keyboard(KeyboardEvent::Key { time, key, state }),
                ) => {
                    w.len() == 10 && u32_in(1) == time && u32_in(5) == key && w[9] == state
                },
                ProtoEvent::Input(
                    InputEvent::Keyboard(
                        KeyboardEvent::Modifiers { depressed, latched, locked, group },
                    ),
                ) => {
                    w.len() == 17 && u32_in(1) == depressed && u32_in(5) == latched && u32_in(9)
                        == locked && u32_in(13) == group
                },
                ProtoEvent::Ping => w.len() == 1,
                ProtoEvent::Pong => w.len() == 1,
                ProtoEvent::Enter(serial) => w.len() == 5 && u32_in(1) == serial,
                ProtoEvent::Leave(serial) => w.len() == 5 && u32_in(1) == serial,
                ProtoEvent::Ack(serial) => w.len() == 5 && u32_in(1) == serial,
            }
        }),
{
    law_wire_len(e);
    law_decode_of_encode(e, e.wire());
    lemma_byte_ranges();
    let w = e.wire();
    assert forall|at: int| 0 <= at && at + 4 <= w.len() implies #[trigger] be_value(
        w.subrange(at, at + 4),
    ) == u32_at(w, at) by {
        lemma_be_bytes_of_value(w.subrange(at, at + 4));
    }
    assert forall|at: int| 0 <= at && at + 8 <= w.len() implies #[trigger] be_value(
        w.subrange(at, at + 8),
    ) == u64_at(w, at) by {
        lemma_be_bytes_of_value(w.subrange(at, at + 8));
    }
}

/// A type byte that no event has is reported, and one that an event has is not.
pub proof fn law_unknown_types_are_reported(buf: Seq<u8>)
    requires
        buf.len() >= 21,
    ensures
        buf[0] > 10 ==> decoded_event(buf) == Err::<ProtoEvent, ProtocolError>(
            ProtocolError::InvalidEventId(buf[0]),
        ),
        buf[0] <= 10 ==> decoded_event(buf) is Ok,
{
}

/// The text of an event tells its kind and its serial.
pub proof fn law_events_are_described(serial: u32, e: InputEvent, input: Seq<char>)
    ensures
        event_text(ProtoEvent::Enter(serial), input) == "Enter("@ + decimal(serial as nat) + ")"@,
        event_text(ProtoEvent::Leave(serial), input) == "Leave("@ + decimal(serial as nat) + ")"@,
        event_text(ProtoEvent::Ack(serial), input) == "Ack("@ + decimal(serial as nat) + ")"@,
        event_text(ProtoEvent::Ping, input) == "ping"@,
        event_text(ProtoEvent::Pong, input) == "pong"@,
        event_text(ProtoEvent::Input(e), input) == input,
{
}

} // verus!
