//! Input events and the host-owned input queue.
//!
//! Events are appended by the input layer and drained by whichever consumer
//! currently owns focus; each event is delivered exactly once, in order.

use vstd::prelude::*;

verus! {

/// The kind of an input event.
#[derive(Clone, Copy, Debug, PartialEq, Eq, Structural)]
pub enum EventType {
    KeyDown,
    KeyUp,
    MouseDown,
    MouseUp,
    MouseMove,
}

/// The numeric tag an event kind carries on the guest ABI.
pub open spec fn spec_event_code(t: EventType) -> u32 {
    match t {
        EventType::KeyDown => 1,
        EventType::KeyUp => 2,
        EventType::MouseDown => 3,
        EventType::MouseUp => 4,
        EventType::MouseMove => 5,
    }
}

impl EventType {
    /// The numeric tag used when an event is handed to a guest.
    pub fn code(&self) -> (c: u32)
        ensures
            c == spec_event_code(*self),
    {
        match self {
            EventType::KeyDown => 1,
            EventType::KeyUp => 2,
            EventType::MouseDown => 3,
            EventType::MouseUp => 4,
            EventType::MouseMove => 5,
        }
    }
}

/// One input event: a kind, a key or button code, and pointer coordinates.
/// Immutable once enqueued; consumed exactly once by whoever dequeues it.
#[derive(Clone, Copy, Debug, PartialEq, Eq, Structural)]
pub struct SystemEvent {
    pub event_type: EventType,
    pub code: u32,
    pub x: i32,
    pub y: i32,
}

/// The 16 bytes an event occupies in guest memory: four little-endian
/// 32-bit words holding kind tag, code, x and y.
pub open spec fn spec_event_bytes(e: SystemEvent) -> Seq<u8> {
    spec_u32_le(spec_event_code(e.event_type)) + spec_u32_le(e.code) + spec_u32_le(e.x as u32)
        + spec_u32_le(e.y as u32)
}

/// The four little-endian bytes of a 32-bit word.
pub open spec fn spec_u32_le(v: u32) -> Seq<u8> {
    seq![(v & 0xFF) as u8, ((v >> 8) & 0xFF) as u8, ((v >> 16) & 0xFF) as u8, (
    (v >> 24) & 0xFF) as u8]
}

/// Append the four little-endian bytes of `v` to `out`.
fn push_u32_le(out: &mut Vec<u8>, v: u32)
    ensures
        final(out)@ == old(out)@ + spec_u32_le(v),
{
    out.push((v & 0xFF) as u8);
    out.push(((v >> 8) & 0xFF) as u8);
    out.push(((v >> 16) & 0xFF) as u8);
    out.push(((v >> 24) & 0xFF) as u8);
    assert(final(out)@ =~= old(out)@ + spec_u32_le(v));
}

impl SystemEvent {
    /// Serialize the event exactly as the poll syscall writes it into the
    /// guest's linear memory.
    pub fn encode(&self) -> (r: Vec<u8>)
        ensures
            r@ == spec_event_bytes(*self),
            r@.len() == 16,
    {
        let mut out: Vec<u8> = Vec::new();
        push_u32_le(&mut out, self.event_type.code());
        push_u32_le(&mut out, self.code);
        push_u32_le(&mut out, self.x as u32);
        push_u32_le(&mut out, self.y as u32);
        assert(out@ =~= spec_event_bytes(*self));
        out
    }
}

/// Dequeues are strictly first-in first-out and exactly-once: draining a
/// queue that holds `es` yields exactly `es`, element by element, in order,
/// and leaves nothing behind. Stated over the queue model: removing the
/// front `k` times returns `es[0], .., es[k-1]` with `es.skip(k)` left.
pub proof fn lemma_queue_fifo(es: Seq<SystemEvent>, k: int)
    requires
        0 <= k <= es.len(),
    ensures
        forall|i: int| 0 <= i < k ==> #[trigger] es.skip(i).first() == es[i],
        forall|i: int| 0 <= i < k ==> #[trigger] es.skip(i).drop_first() == es.skip(i + 1),
        es.skip(es.len() as int) =~= Seq::<SystemEvent>::empty(),
{
    assert forall|i: int| 0 <= i < k implies #[trigger] es.skip(i).first() == es[i] by {
        assert(es.skip(i)[0] == es[i]);
    }
    assert forall|i: int| 0 <= i < k implies #[trigger] es.skip(i).drop_first() == es.skip(i + 1) by {
        assert(es.skip(i).drop_first() =~= es.skip(i + 1));
    }
}

} // verus!
