//! Support for bridge transports whose native side delivers whole packets.
//!
//! An event-driven transport hands over device notifications packet by
//! packet, while the client's blocking read asks for at most a buffer's
//! worth of bytes. [`PacketBuffer`] holds what arrived and lets a read
//! deliver as many bytes as fit, retaining the remainder in order.

use vstd::prelude::*;

verus! {

/// Bytes received from the transport but not yet delivered to a read, in
/// arrival order.
#[derive(Debug)]
pub struct PacketBuffer {
    queue: std::collections::VecDeque<u8>,
}

impl View for PacketBuffer {
    type V = Seq<u8>;

    closed spec fn view(&self) -> Seq<u8> {
        self.queue@
    }
}

impl PacketBuffer {
    /// An empty buffer.
    pub fn new() -> (b: Self)
        ensures
            b@ == Seq::<u8>::empty(),
    {
        PacketBuffer { queue: std::collections::VecDeque::new() }
    }

    /// Whether nothing is waiting to be delivered.
    pub fn is_empty(&self) -> (r: bool)
        ensures
            r == (self@.len() == 0),
    {
        self.queue.len() == 0
    }

    /// Appends one received packet behind everything already buffered.
    pub fn push_packet(&mut self, packet: &[u8])
        ensures
            final(self)@ == old(self)@ + packet@,
    {
        let mut i: usize = 0;
        while i < packet.len()
            invariant
                i <= packet.len(),
                self.queue@ == old(self).queue@ + packet@.take(i as int),
            decreases packet.len() - i,
        {
            self.queue.push_back(packet[i]);
            proof {
                assert(packet@.take(i + 1) =~= packet@.take(i as int) + seq![packet@[i as int]]);
                assert(self.queue@ =~= old(self).queue@ + packet@.take(i + 1));
            }
            i = i + 1;
        }
        proof {
            assert(packet@.take(packet@.len() as int) =~= packet@);
        }
    }

    /// Delivers the oldest bytes, as many as fit `max`, retaining the
    /// remainder.
    pub fn take_up_to(&mut self, max: usize) -> (out: Vec<u8>)
        ensures
            out@.len() <= max,
            out@ == old(self)@.take(out@.len() as int),
            final(self)@ == old(self)@.skip(out@.len() as int),
            out@.len() == (if max <= old(self)@.len() {
                max as int
            } else {
                old(self)@.len() as int
            }),
    {
        let mut out: Vec<u8> = Vec::new();
        let mut i: usize = 0;
        while i < max && self.queue.len() > 0
            invariant
                i <= max,
                i <= old(self).queue@.len(),
                out@.len() == i,
                out@ == old(self).queue@.take(i as int),
                self.queue@ == old(self).queue@.skip(i as int),
            decreases max - i,
        {
            let ghost pre = self.queue@;
            let b = self.queue.pop_front().unwrap();
            out.push(b);
            proof {
                assert(pre.len() > 0);
                assert(i < old(self).queue@.len());
                assert(b == old(self).queue@[i as int]);
                assert(self.queue@ =~= old(self).queue@.skip(i + 1));
                assert(old(self).queue@.take(i + 1) =~= old(self).queue@.take(i as int)
                    + seq![old(self).queue@[i as int]]);
                assert(out@ =~= old(self).queue@.take(i + 1));
            }
            i = i + 1;
        }
        out
    }
}

} // verus!
