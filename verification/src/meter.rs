//! Byte counters for metered network streams, and a verified model of a
//! bounded duplex byte channel whose two ends are metered.
//!
//! Counters are monotonic and saturate at `u64::MAX`; a failed transfer
//! increments nothing. The value returned after each recorded transfer is
//! the absolute post-increment total, which a metrics sink can publish.

use vstd::prelude::*;

verus! {

/// The number of bytes a saturating counter reads after recording `n`
/// more bytes on top of `prev`: the increment is
/// `min(n, u64::MAX - prev)`.
pub open spec fn saturating_total(prev: u64, n: u64) -> u64 {
    if prev + n <= u64::MAX {
        (prev + n) as u64
    } else {
        u64::MAX
    }
}

/// Counts the bytes that passed through one or more metered streams:
/// `ingress` counts inbound bytes, `egress` outbound bytes.
#[derive(Clone, Copy, Debug, PartialEq, Eq, Structural)]
pub struct NetworkIOMeter {
    ingress: u64,
    egress: u64,
}

impl NetworkIOMeter {
    /// A meter with both counters at zero.
    pub fn new() -> (r: NetworkIOMeter)
        ensures
            r.ingress_spec() == 0,
            r.egress_spec() == 0,
    {
        NetworkIOMeter { ingress: 0, egress: 0 }
    }

    /// The total number of bytes downloaded through the streams sharing
    /// this meter.
    pub fn total_ingress(&self) -> (r: u64)
        ensures
            r == self.ingress_spec(),
    {
        self.ingress
    }

    /// The total number of bytes uploaded through the streams sharing
    /// this meter.
    pub fn total_egress(&self) -> (r: u64)
        ensures
            r == self.egress_spec(),
    {
        self.egress
    }

    /// The inbound counter (specification view).
    pub closed spec fn ingress_spec(self) -> u64 {
        self.ingress
    }

    /// The outbound counter (specification view).
    pub closed spec fn egress_spec(self) -> u64 {
        self.egress
    }

    /// Record a successful read of `n` bytes. The counter saturates at
    /// `u64::MAX` instead of wrapping. Returns the absolute
    /// post-increment total, the value a metrics sink publishes.
    pub fn record_ingress(&mut self, n: u64) -> (total: u64)
        ensures
            final(self).ingress_spec() == saturating_total(old(self).ingress_spec(), n),
            final(self).egress_spec() == old(self).egress_spec(),
            total == final(self).ingress_spec(),
            final(self).ingress_spec() >= old(self).ingress_spec(),
    {
        self.ingress = if self.ingress <= u64::MAX - n {
            self.ingress + n
        } else {
            u64::MAX
        };
        self.ingress
    }

    /// Record a successful write of `n` bytes. The counter saturates at
    /// `u64::MAX` instead of wrapping. Returns the absolute
    /// post-increment total, the value a metrics sink publishes.
    pub fn record_egress(&mut self, n: u64) -> (total: u64)
        ensures
            final(self).egress_spec() == saturating_total(old(self).egress_spec(), n),
            final(self).ingress_spec() == old(self).ingress_spec(),
            total == final(self).egress_spec(),
            final(self).egress_spec() >= old(self).egress_spec(),
    {
        self.egress = if self.egress <= u64::MAX - n {
            self.egress + n
        } else {
            u64::MAX
        };
        self.egress
    }
}

/// A bounded duplex byte channel with a metered stream at each end.
///
/// The client end writes into `c2s` and reads from `s2c`; the server end
/// does the mirror image. Each direction holds at most `capacity` bytes
/// in flight. Every successful transfer is recorded on the owning end's
/// meter; a full channel or an empty channel transfers nothing and
/// records nothing.
#[derive(Debug)]
pub struct MeteredDuplex {
    capacity: usize,
    c2s: Vec<u8>,
    s2c: Vec<u8>,
    client: NetworkIOMeter,
    server: NetworkIOMeter,
}

impl MeteredDuplex {
    /// In-flight bytes travelling client-to-server.
    pub closed spec fn c2s_spec(self) -> Seq<u8> {
        self.c2s@
    }

    /// In-flight bytes travelling server-to-client.
    pub closed spec fn s2c_spec(self) -> Seq<u8> {
        self.s2c@
    }

    /// The client end's meter.
    pub closed spec fn client_spec(self) -> NetworkIOMeter {
        self.client
    }

    /// The server end's meter.
    pub closed spec fn server_spec(self) -> NetworkIOMeter {
        self.server
    }

    /// The per-direction capacity.
    pub closed spec fn capacity_spec(self) -> usize {
        self.capacity
    }

    /// Conservation: unless a counter has saturated, what one end has
    /// written equals what the other end has read plus what is still in
    /// flight. A saturated counter reads exactly `u64::MAX`, so
    /// `< u64::MAX` implies the counter never saturated.
    pub closed spec fn conserved(self) -> bool {
        &&& self.c2s@.len() <= self.capacity
        &&& self.s2c@.len() <= self.capacity
        &&& self.client.egress_spec() < u64::MAX ==> self.client.egress_spec()
            == self.server.ingress_spec() + self.c2s@.len()
        &&& self.server.egress_spec() < u64::MAX ==> self.server.egress_spec()
            == self.client.ingress_spec() + self.s2c@.len()
    }

    /// A fresh channel with the given capacity per direction; both meters
    /// start at zero.
    pub fn new(capacity: usize) -> (r: MeteredDuplex)
        ensures
            r.conserved(),
            r.c2s_spec().len() == 0,
            r.s2c_spec().len() == 0,
            r.client_spec().ingress_spec() == 0,
            r.client_spec().egress_spec() == 0,
            r.server_spec().ingress_spec() == 0,
            r.server_spec().egress_spec() == 0,
            r.capacity_spec() == capacity,
    {
        MeteredDuplex {
            capacity,
            c2s: Vec::new(),
            s2c: Vec::new(),
            client: NetworkIOMeter::new(),
            server: NetworkIOMeter::new(),
        }
    }

    /// Read the client end's meter.
    pub fn client_meter(&self) -> (r: NetworkIOMeter)
        ensures
            r == self.client_spec(),
    {
        self.client
    }

    /// Read the server end's meter.
    pub fn server_meter(&self) -> (r: NetworkIOMeter)
        ensures
            r == self.server_spec(),
    {
        self.server
    }

    /// The client writes `data`. As many bytes as fit are queued, the
    /// client's egress counter is incremented by exactly the number
    /// transferred, and that number is returned.
    pub fn client_write(&mut self, data: &Vec<u8>) -> (n: usize)
        requires
            old(self).conserved(),
        ensures
            final(self).conserved(),
            n == if data@.len() + old(self).c2s_spec().len() <= old(self).capacity_spec() {
                data@.len() as int
            } else {
                old(self).capacity_spec() - old(self).c2s_spec().len()
            },
            final(self).c2s_spec() == old(self).c2s_spec() + data@.take(n as int),
            final(self).s2c_spec() == old(self).s2c_spec(),
            final(self).client_spec().egress_spec() == saturating_total(
                old(self).client_spec().egress_spec(),
                n as u64,
            ),
            final(self).client_spec().ingress_spec() == old(self).client_spec().ingress_spec(),
            final(self).server_spec() == old(self).server_spec(),
            final(self).capacity_spec() == old(self).capacity_spec(),
    {
        let room: usize = self.capacity - self.c2s.len();
        let n: usize = if data.len() <= room {
            data.len()
        } else {
            room
        };
        let mut i: usize = 0;
        while i < n
            invariant
                i <= n,
                n <= data@.len(),
                self.c2s@ == old(self).c2s@ + data@.take(i as int),
                self.s2c == old(self).s2c,
                self.client == old(self).client,
                self.server == old(self).server,
                self.capacity == old(self).capacity,
            decreases n - i,
        {
            self.c2s.push(data[i]);
            proof {
                assert(data@.take(i + 1) == data@.take(i as int).push(data@[i as int]));
            }
            i = i + 1;
        }
        self.client.record_egress(n as u64);
        n
    }

    /// The server reads up to `max` bytes from the client-to-server
    /// direction. The bytes come out in the order they were written, the
    /// server's ingress counter is incremented by exactly the number
    /// transferred.
    pub fn server_read(&mut self, max: usize) -> (out: Vec<u8>)
        requires
            old(self).conserved(),
        ensures
            final(self).conserved(),
            out@.len() == if max <= old(self).c2s_spec().len() {
                max as int
            } else {
                old(self).c2s_spec().len() as int
            },
            out@ == old(self).c2s_spec().take(out@.len() as int),
            final(self).c2s_spec() == old(self).c2s_spec().skip(out@.len() as int),
            final(self).s2c_spec() == old(self).s2c_spec(),
            final(self).server_spec().ingress_spec() == saturating_total(
                old(self).server_spec().ingress_spec(),
                out@.len() as u64,
            ),
            final(self).server_spec().egress_spec() == old(self).server_spec().egress_spec(),
            final(self).client_spec() == old(self).client_spec(),
            final(self).capacity_spec() == old(self).capacity_spec(),
    {
        let n: usize = if max <= self.c2s.len() {
            max
        } else {
            self.c2s.len()
        };
        let mut out: Vec<u8> = Vec::new();
        let mut i: usize = 0;
        while i < n
            invariant
                i <= n,
                n <= self.c2s@.len(),
                self.c2s == old(self).c2s,
                out@ == self.c2s@.take(i as int),
                self.s2c == old(self).s2c,
                self.client == old(self).client,
                self.server == old(self).server,
                self.capacity == old(self).capacity,
            decreases n - i,
        {
            out.push(self.c2s[i]);
            proof {
                assert(self.c2s@.take(i + 1) == self.c2s@.take(i as int).push(self.c2s@[i as int]));
            }
            i = i + 1;
        }
        let mut rest: Vec<u8> = Vec::new();
        let mut j: usize = n;
        while j < self.c2s.len()
            invariant
                n <= j <= self.c2s@.len(),
                self.c2s == old(self).c2s,
                rest@ == self.c2s@.subrange(n as int, j as int),
                out@ == self.c2s@.take(n as int),
                self.s2c == old(self).s2c,
                self.client == old(self).client,
                self.server == old(self).server,
                self.capacity == old(self).capacity,
            decreases self.c2s@.len() - j,
        {
            rest.push(self.c2s[j]);
            proof {
                assert(self.c2s@.subrange(n as int, j + 1) == self.c2s@.subrange(
                    n as int,
                    j as int,
                ).push(self.c2s@[j as int]));
            }
            j = j + 1;
        }
        proof {
            assert(rest@ == self.c2s@.skip(n as int));
        }
        self.c2s = rest;
        self.server.record_ingress(n as u64);
        proof {
            assert(final(self).c2s_spec() == old(self).c2s_spec().skip(n as int));
        }
        out
    }

    /// The server writes `data` into the server-to-client direction; the
    /// mirror image of [`MeteredDuplex::client_write`].
    pub fn server_write(&mut self, data: &Vec<u8>) -> (n: usize)
        requires
            old(self).conserved(),
        ensures
            final(self).conserved(),
            n == if data@.len() + old(self).s2c_spec().len() <= old(self).capacity_spec() {
                data@.len() as int
            } else {
                old(self).capacity_spec() - old(self).s2c_spec().len()
            },
            final(self).s2c_spec() == old(self).s2c_spec() + data@.take(n as int),
            final(self).c2s_spec() == old(self).c2s_spec(),
            final(self).server_spec().egress_spec() == saturating_total(
                old(self).server_spec().egress_spec(),
                n as u64,
            ),
            final(self).server_spec().ingress_spec() == old(self).server_spec().ingress_spec(),
            final(self).client_spec() == old(self).client_spec(),
            final(self).capacity_spec() == old(self).capacity_spec(),
    {
        let room: usize = self.capacity - self.s2c.len();
        let n: usize = if data.len() <= room {
            data.len()
        } else {
            room
        };
        let mut i: usize = 0;
        while i < n
            invariant
                i <= n,
                n <= data@.len(),
                self.s2c@ == old(self).s2c@ + data@.take(i as int),
                self.c2s == old(self).c2s,
                self.client == old(self).client,
                self.server == old(self).server,
                self.capacity == old(self).capacity,
            decreases n - i,
        {
            self.s2c.push(data[i]);
            proof {
                assert(data@.take(i + 1) == data@.take(i as int).push(data@[i as int]));
            }
            i = i + 1;
        }
        self.server.record_egress(n as u64);
        n
    }

    /// The client reads up to `max` bytes from the server-to-client
    /// direction; the mirror image of [`MeteredDuplex::server_read`].
    pub fn client_read(&mut self, max: usize) -> (out: Vec<u8>)
        requires
            old(self).conserved(),
        ensures
            final(self).conserved(),
            out@.len() == if max <= old(self).s2c_spec().len() {
                max as int
            } else {
                old(self).s2c_spec().len() as int
            },
            out@ == old(self).s2c_spec().take(out@.len() as int),
            final(self).s2c_spec() == old(self).s2c_spec().skip(out@.len() as int),
            final(self).c2s_spec() == old(self).c2s_spec(),
            final(self).client_spec().ingress_spec() == saturating_total(
                old(self).client_spec().ingress_spec(),
                out@.len() as u64,
            ),
            final(self).client_spec().egress_spec() == old(self).client_spec().egress_spec(),
            final(self).server_spec() == old(self).server_spec(),
            final(self).capacity_spec() == old(self).capacity_spec(),
    {
        let n: usize = if max <= self.s2c.len() {
            max
        } else {
            self.s2c.len()
        };
        let mut out: Vec<u8> = Vec::new();
        let mut i: usize = 0;
        while i < n
            invariant
                i <= n,
                n <= self.s2c@.len(),
                self.s2c == old(self).s2c,
                out@ == self.s2c@.take(i as int),
                self.c2s == old(self).c2s,
                self.client == old(self).client,
                self.server == old(self).server,
                self.capacity == old(self).capacity,
            decreases n - i,
        {
            out.push(self.s2c[i]);
            proof {
                assert(self.s2c@.take(i + 1) == self.s2c@.take(i as int).push(self.s2c@[i as int]));
            }
            i = i + 1;
        }
        let mut rest: Vec<u8> = Vec::new();
        let mut j: usize = n;
        while j < self.s2c.len()
            invariant
                n <= j <= self.s2c@.len(),
                self.s2c == old(self).s2c,
                rest@ == self.s2c@.subrange(n as int, j as int),
                out@ == self.s2c@.take(n as int),
                self.c2s == old(self).c2s,
                self.client == old(self).client,
                self.server == old(self).server,
                self.capacity == old(self).capacity,
            decreases self.s2c@.len() - j,
        {
            rest.push(self.s2c[j]);
            proof {
                assert(self.s2c@.subrange(n as int, j + 1) == self.s2c@.subrange(
                    n as int,
                    j as int,
                ).push(self.s2c@[j as int]));
            }
            j = j + 1;
        }
        proof {
            assert(rest@ == self.s2c@.skip(n as int));
        }
        self.s2c = rest;
        self.client.record_ingress(n as u64);
        out
    }
}

/// Conservation of metered traffic: on any conserved duplex that has gone
/// quiescent (nothing in flight) and whose counters have not saturated,
/// the client's egress equals the server's ingress and the server's
/// egress equals the client's ingress.
pub proof fn lemma_metered_stream_conservation(d: MeteredDuplex)
    requires
        d.conserved(),
        d.c2s_spec().len() == 0,
        d.s2c_spec().len() == 0,
        d.client_spec().egress_spec() < u64::MAX,
        d.server_spec().egress_spec() < u64::MAX,
    ensures
        d.client_spec().egress_spec() == d.server_spec().ingress_spec(),
        d.server_spec().egress_spec() == d.client_spec().ingress_spec(),
{
}

} // verus!
