//! Ports and the structured references by which connections name them.

use vstd::prelude::*;

verus! {

/// The kind of component that owns a port.
#[derive(Clone, Copy, Debug, PartialEq, Eq, Structural, Hash)]
pub enum OwnerKind {
    Vm,
    Ram,
}

/// The three ports of a memory module.
#[derive(Clone, Copy, Debug, PartialEq, Eq, Structural, Hash)]
pub enum RamPort {
    Index,
    Data,
    Mode,
}

/// Names one port of one component. Machines and memory modules number their
/// instances independently, so the owner's kind is part of the name.
#[derive(Clone, Copy, Debug, PartialEq, Eq, Structural, Hash)]
pub enum PortRef {
    /// General port `index` of the machine `owner_id`.
    Vm { owner_id: usize, index: usize },
    /// Port `port` of the memory module `owner_id`.
    Ram { owner_id: usize, port: RamPort },
}

impl PortRef {
    pub open spec fn spec_owner_kind(self) -> OwnerKind {
        match self {
            PortRef::Vm { .. } => OwnerKind::Vm,
            PortRef::Ram { .. } => OwnerKind::Ram,
        }
    }

    pub open spec fn spec_owner_id(self) -> usize {
        match self {
            PortRef::Vm { owner_id, .. } => owner_id,
            PortRef::Ram { owner_id, .. } => owner_id,
        }
    }

    #[verifier::when_used_as_spec(spec_owner_kind)]
    pub fn owner_kind(self) -> (kind: OwnerKind)
        ensures
            kind == self.spec_owner_kind(),
    {
        match self {
            PortRef::Vm { .. } => OwnerKind::Vm,
            PortRef::Ram { .. } => OwnerKind::Ram,
        }
    }

    #[verifier::when_used_as_spec(spec_owner_id)]
    pub fn owner_id(self) -> (id: usize)
        ensures
            id == self.spec_owner_id(),
    {
        match self {
            PortRef::Vm { owner_id, .. } => owner_id,
            PortRef::Ram { owner_id, .. } => owner_id,
        }
    }

    /// Whether two references name the same port.
    pub fn same(self, other: PortRef) -> (b: bool)
        ensures
            b == (self == other),
    {
        self == other
    }
}

/// A value slot on a component. A connected port remembers the id of the
/// connection it belongs to; the value stays with the port either way.
#[derive(Clone, Copy, Debug, PartialEq, Eq, Structural)]
pub enum Port {
    Disconnected(i32),
    Connected(usize, i32),
}

impl Port {
    pub open spec fn value(self) -> i32 {
        match self {
            Port::Disconnected(v) => v,
            Port::Connected(_, v) => v,
        }
    }

    pub open spec fn link(self) -> Option<usize> {
        match self {
            Port::Disconnected(_) => None,
            Port::Connected(c, _) => Some(c),
        }
    }

    /// The same value, linked to nothing.
    pub open spec fn unlinked(self) -> Port {
        Port::Disconnected(self.value())
    }

    /// The same value, linked to connection `c`.
    pub open spec fn linked_to(self, c: usize) -> Port {
        Port::Connected(c, self.value())
    }

    /// The same link, holding `v`.
    pub open spec fn holding(self, v: i32) -> Port {
        match self {
            Port::Disconnected(_) => Port::Disconnected(v),
            Port::Connected(c, _) => Port::Connected(c, v),
        }
    }

    /// The port after `v` is written to connection `c`: a port linked to
    /// `c` holds `v`, any other port is untouched.
    pub open spec fn reached(self, c: usize, v: i32) -> Port {
        if self.link() == Some(c) {
            self.holding(v)
        } else {
            self
        }
    }

    /// A disconnected port holding `value`.
    pub fn new(value: i32) -> (p: Port)
        ensures
            p == Port::Disconnected(value),
    {
        Port::Disconnected(value)
    }

    pub fn get_value(&self) -> (v: i32)
        ensures
            v == self.value(),
    {
        match self {
            Port::Disconnected(v) => *v,
            Port::Connected(_, v) => *v,
        }
    }

    /// The id of the connection this port belongs to, if any.
    pub fn get_conn_id(&self) -> (id: Option<usize>)
        ensures
            id == self.link(),
    {
        match self {
            Port::Disconnected(_) => None,
            Port::Connected(c, _) => Some(*c),
        }
    }

    pub fn is_connected(&self) -> (b: bool)
        ensures
            b == self.link().is_some(),
    {
        match self {
            Port::Disconnected(_) => false,
            Port::Connected(_, _) => true,
        }
    }

    /// Stores `value`, keeping the link.
    pub fn set_value(&mut self, value: i32)
        ensures
            *final(self) == old(self).holding(value),
    {
        let next = match self {
            Port::Disconnected(_) => Port::Disconnected(value),
            Port::Connected(c, _) => Port::Connected(*c, value),
        };
        *self = next;
    }

    /// Takes the value `v` written to connection `c`, if linked to `c`.
    pub fn reach(&mut self, c: usize, v: i32)
        ensures
            *final(self) == old(self).reached(c, v),
    {
        match self {
            Port::Connected(id, _) => {
                if *id == c {
                    *self = Port::Connected(c, v);
                }
            },
            Port::Disconnected(_) => {},
        }
    }

    /// Links the port to connection `id`, keeping the value.
    pub fn connect(&mut self, id: usize)
        ensures
            *final(self) == old(self).linked_to(id),
    {
        let v = self.get_value();
        *self = Port::Connected(id, v);
    }

    /// Drops the link, keeping the value.
    pub fn disconnect(&mut self)
        ensures
            *final(self) == old(self).unlinked(),
    {
        let v = self.get_value();
        *self = Port::Disconnected(v);
    }
}

} // verus!
