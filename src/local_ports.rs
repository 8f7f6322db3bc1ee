//! Handing out local ports, so that no port is given out twice.

use vstd::prelude::*;

verus! {

pub const EPHEMERAL_FIRST: u16 = 49152;

pub const EPHEMERAL_LAST: u16 = 65535;

/// Errors that could be returned when allocating a `LocalPort`.
#[derive(Clone, Copy, Debug, PartialEq, Eq, Structural)]
pub enum LocalPortAllocationError {
    AlreadyInUse(u16),
    NoAvailableFreePorts,
}

/// The ports that are given out, kept in a `hashbrown::HashSet`.
#[verifier::external_body]
pub struct PortSet {
    set: hashbrown::HashSet<u16>,
}

/// What a `PortSet` holds.
pub uninterp spec fn port_set(s: PortSet) -> Set<u16>;

impl PortSet {
    /// Relies on `hashbrown::HashSet::new`: the set starts empty.
    #[verifier::external_body]
    fn new() -> (r: PortSet)
        ensures
            port_set(r) == Set::<u16>::empty(),
    {
        PortSet { set: hashbrown::HashSet::new() }
    }

    /// Relies on `hashbrown::HashSet::insert`: adds `port`, and tells whether
    /// it was absent.
    #[verifier::external_body]
    fn insert(&mut self, port: u16) -> (r: bool)
        ensures
            port_set(*final(self)) == port_set(*old(self)).insert(port),
            r == !port_set(*old(self)).contains(port),
    {
        self.set.insert(port)
    }

    /// Relies on `hashbrown::HashSet::remove`: takes `port` out, and tells
    /// whether it was present.
    #[verifier::external_body]
    fn remove(&mut self, port: &u16) -> (r: bool)
        ensures
            port_set(*final(self)) == port_set(*old(self)).remove(*port),
            r == port_set(*old(self)).contains(*port),
    {
        self.set.remove(port)
    }
}

/// A token expressing ownership over a specific local port.
///
/// Explicitly not cloneable nor copyable.
pub struct LocalPort {
    port: u16,
}

impl View for LocalPort {
    type V = u16;

    closed spec fn view(&self) -> u16 {
        self.port
    }
}

impl LocalPort {
    pub fn port(&self) -> (r: u16)
        ensures
            r == self@,
    {
        self.port
    }
}

pub open spec fn is_ephemeral(p: u16) -> bool {
    EPHEMERAL_FIRST <= p
}

/// A port that `ephemeral_port` may take from the candidates: ephemeral and
/// not given out.
pub open spec fn is_free_ephemeral(taken: Set<u16>, p: u16) -> bool {
    is_ephemeral(p) && !taken.contains(p)
}

/// The port that `ephemeral_port` gives out, given the ports taken and the
/// candidates: the first candidate that is a free ephemeral port, else the
/// lowest free ephemeral port.
pub open spec fn chosen_port(taken: Set<u16>, candidates: Seq<u16>, p: u16) -> bool {
    if exists|i: int| 0 <= i < candidates.len() && is_free_ephemeral(taken, #[trigger] candidates[i]) {
        exists|j: int|
            0 <= j < candidates.len() && candidates[j] == p && is_free_ephemeral(taken, p)
                && forall|i: int| 0 <= i < j ==> !is_free_ephemeral(taken, #[trigger] candidates[i])
    } else {
        is_free_ephemeral(taken, p) && forall|q: u16| is_ephemeral(q) && q < p ==> #[trigger] taken.contains(q)
    }
}

/// An allocator for local ports, making sure that no already-allocated ports
/// are given out.
pub struct LocalPortAllocator {
    allocated: PortSet,
}

impl LocalPortAllocator {
    /// The ports given out and not yet handed back.
    pub closed spec fn allocated(&self) -> Set<u16> {
        port_set(self.allocated)
    }

    /// Sets up a new local port allocator, with no port given out.
    pub fn new() -> (r: LocalPortAllocator)
        ensures
            r.allocated() == Set::<u16>::empty(),
    {
        LocalPortAllocator { allocated: PortSet::new() }
    }

    /// Allocates the port `port`, if it is not given out yet.
    pub fn specific_port(&mut self, port: u16) -> (r: Result<LocalPort, LocalPortAllocationError>)
        requires
            port != 0,
        ensures
            old(self).allocated().contains(port) ==> r == Err::<LocalPort, LocalPortAllocationError>(
                LocalPortAllocationError::AlreadyInUse(port),
            ) && final(self).allocated() == old(self).allocated(),
            !old(self).allocated().contains(port) ==> (r matches Ok(p) && p@ == port
                && final(self).allocated() == old(self).allocated().insert(port)),
    {
        if self.allocated.insert(port) {
            Ok(LocalPort { port })
        } else {
            proof {
                assert(old(self).allocated().insert(port) =~= old(self).allocated());
            }
            Err(LocalPortAllocationError::AlreadyInUse(port))
        }
    }

    /// Allocates an ephemeral port (one of 49152 to 65535): the first of
    /// `candidates` that is a free ephemeral port, else the lowest free one.
    /// The candidates are meant to be drawn at random.
    pub fn ephemeral_port(&mut self, candidates: &Vec<u16>) -> (r: Result<LocalPort, LocalPortAllocationError>)
        ensures
            (exists|q: u16| is_free_ephemeral(old(self).allocated(), q)) ==> (r matches Ok(p)
                && chosen_port(old(self).allocated(), candidates@, p@)
                && final(self).allocated() == old(self).allocated().insert(p@)),
            (forall|q: u16| is_ephemeral(q) ==> #[trigger] old(self).allocated().contains(q)) ==> r
                == Err::<LocalPort, LocalPortAllocationError>(LocalPortAllocationError::NoAvailableFreePorts)
                && final(self).allocated() == old(self).allocated(),
    {
        let ghost taken = self.allocated();
        let mut i: usize = 0;
        while i < candidates.len()
            invariant
                taken == old(self).allocated(),
                self.allocated() == taken,
                i <= candidates@.len(),
                forall|k: int| 0 <= k < i ==> !is_free_ephemeral(taken, #[trigger] candidates@[k]),
            decreases candidates@.len() - i,
        {
            let port = candidates[i];
            if port >= EPHEMERAL_FIRST {
                match self.specific_port(port) {
                    Ok(local_port) => {
                        return Ok(local_port);
                    },
                    Err(_) => {},
                }
            }
            i = i + 1;
        }
        let mut port: u16 = EPHEMERAL_FIRST;
        loop
            invariant
                taken == old(self).allocated(),
                self.allocated() == taken,
                EPHEMERAL_FIRST <= port,
                forall|k: int| 0 <= k < candidates@.len() ==> !is_free_ephemeral(taken, #[trigger] candidates@[k]),
                forall|q: u16| is_ephemeral(q) && q < port ==> #[trigger] taken.contains(q),
            decreases EPHEMERAL_LAST - port,
        {
            match self.specific_port(port) {
                Ok(local_port) => {
                    return Ok(local_port);
                },
                Err(_) => {},
            }
            if port == EPHEMERAL_LAST {
                proof {
                    assert forall|q: u16| is_ephemeral(q) implies #[trigger] taken.contains(q) by {
                        if q != port {
                            assert(q < port);
                        }
                    }
                }
                return Err(LocalPortAllocationError::NoAvailableFreePorts);
            }
            port = port + 1;
        }
    }

    /// Marks `port` as available again, consuming it.
    pub fn deallocate(&mut self, port: LocalPort)
        requires
            old(self).allocated().contains(port@),
        ensures
            final(self).allocated() == old(self).allocated().remove(port@),
    {
        let was_removed = self.allocated.remove(&port.port);
    }
}

impl Default for LocalPortAllocator {
    fn default() -> (r: LocalPortAllocator)
        ensures
            r.allocated() == Set::<u16>::empty(),
    {
        Self::new()
    }
}

} // verus!
