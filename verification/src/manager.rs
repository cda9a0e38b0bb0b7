//! The listener manager's state: the set of public ports with a live
//! tunnel listener, each owned stop handle living with the I/O layer. The
//! manager is the only mutator of this map; it records a port when a
//! `Listen` request is granted one and removes it on `Stop`.

use vstd::prelude::*;
use crate::proxy::{Mode, Protocol};

verus! {

/// A request to the listener manager. The reply channel of a `Listen`
/// request lives with the I/O layer that carries the message.
pub enum ListenerMessage {
    Listen { tunnel: String, protocol: Protocol, mode: Mode, name: String, secret: String },
    Stop { port: u16 },
}

/// The ports that currently have a live tunnel listener.
pub struct PortMap {
    pub ports: Vec<u16>,
}

/// A port has a live listener.
pub open spec fn map_contains(m: PortMap, p: u16) -> bool {
    m.ports@.contains(p)
}

/// Each live port is recorded once.
pub open spec fn map_wf(m: PortMap) -> bool {
    forall|a: int, b: int|
        0 <= a < b < m.ports@.len() ==> #[trigger] m.ports@[a] != #[trigger] m.ports@[b]
}

impl PortMap {
    /// An empty map: no listener is alive.
    pub fn new() -> (r: PortMap)
        ensures
            r.ports@.len() == 0,
            map_wf(r),
    {
        PortMap { ports: Vec::new() }
    }

    /// Whether a port has a live listener.
    pub fn contains_port(&self, p: u16) -> (r: bool)
        ensures
            r == map_contains(*self, p),
    {
        let mut k: usize = 0;
        while k < self.ports.len()
            invariant
                k <= self.ports@.len(),
                forall|a: int| 0 <= a < k ==> #[trigger] self.ports@[a] != p,
            decreases self.ports@.len() - k,
        {
            if self.ports[k] == p {
                return true;
            }
            k = k + 1;
        }
        false
    }

    /// Records the outcome of a `Listen` request: a granted port enters the
    /// map, a refused bind leaves it unchanged.
    pub fn note_listen(&mut self, granted: Option<u16>)
        requires
            map_wf(*old(self)),
            granted matches Some(p) ==> !map_contains(*old(self), p),
        ensures
            map_wf(*final(self)),
            granted is None ==> *final(self) == *old(self),
            granted matches Some(p) ==> final(self).ports@ == old(self).ports@.push(p)
                && map_contains(*final(self), p),
            forall|q: u16|
                #[trigger] map_contains(*final(self), q) <==> map_contains(*old(self), q)
                    || granted == Some(q),
    {
        match granted {
            None => (),
            Some(p) => {
                self.ports.push(p);
                proof {
                    assert(self.ports@.last() == p);
                    assert(map_contains(*self, p));
                    assert forall|q: u16|
                        #[trigger] map_contains(*self, q) implies map_contains(*old(self), q) || q
                        == p by {
                        let k = choose|k: int| 0 <= k < self.ports@.len() && self.ports@[k] == q;
                        if k < self.ports@.len() - 1 {
                            assert(old(self).ports@[k] == q);
                        }
                    }
                    assert forall|q: u16|
                        map_contains(*old(self), q) implies #[trigger] map_contains(*self, q) by {
                        let k = choose|k: int|
                            0 <= k < old(self).ports@.len() && old(self).ports@[k] == q;
                        assert(self.ports@[k] == q);
                    }
                }
            },
        }
    }

    /// Handles `Stop{port}`: the port leaves the map; a port with no live
    /// listener is ignored, so stopping is idempotent.
    pub fn note_stop(&mut self, p: u16) -> (found: bool)
        requires
            map_wf(*old(self)),
        ensures
            map_wf(*final(self)),
            found == map_contains(*old(self), p),
            !found ==> final(self).ports@ == old(self).ports@,
            !map_contains(*final(self), p),
            forall|q: u16|
                q != p ==> (#[trigger] map_contains(*final(self), q) <==> map_contains(
                    *old(self),
                    q,
                )),
    {
        let mut k: usize = 0;
        while k < self.ports.len()
            invariant
                k <= self.ports@.len(),
                self.ports@ == old(self).ports@,
                map_wf(*self),
                forall|a: int| 0 <= a < k ==> #[trigger] self.ports@[a] != p,
            decreases self.ports@.len() - k,
        {
            if self.ports[k] == p {
                let ghost before = self.ports@;
                self.ports.remove(k);
                proof {
                    assert(self.ports@ == before.remove(k as int));
                    before.remove_ensures(k as int);
                    assert forall|a: int, b: int|
                        0 <= a < b < self.ports@.len() implies #[trigger] self.ports@[a]
                        != #[trigger] self.ports@[b] by {
                        let a0: int = if a < k { a } else { a + 1 };
                        let b0: int = if b < k { b } else { b + 1 };
                        assert(self.ports@[a] == before[a0] && self.ports@[b] == before[b0]);
                    }
                    assert(!map_contains(*self, p)) by {
                        if map_contains(*self, p) {
                            let a = choose|a: int|
                                0 <= a < self.ports@.len() && self.ports@[a] == p;
                            let a0: int = if a < k { a } else { a + 1 };
                            assert(before[a0] == p && before[k as int] == p);
                        }
                    }
                    assert(map_contains(*old(self), p)) by {
                        assert(before[k as int] == p);
                    }
                    assert forall|q: u16| q != p implies (#[trigger] map_contains(*self, q)
                        <==> map_contains(*old(self), q)) by {
                        if map_contains(*self, q) {
                            let a = choose|a: int|
                                0 <= a < self.ports@.len() && self.ports@[a] == q;
                            let a0: int = if a < k { a } else { a + 1 };
                            assert(before[a0] == q);
                        }
                        if map_contains(*old(self), q) {
                            let a = choose|a: int| 0 <= a < before.len() && before[a] == q;
                            if a < k {
                                assert(self.ports@[a] == q);
                            } else {
                                assert(a != k);
                                assert(self.ports@[a - 1] == q);
                            }
                        }
                    }
                }
                return true;
            }
            k = k + 1;
        }
        proof {
            assert(!map_contains(*self, p));
        }
        false
    }
}

} // verus!
