//! A connection: an identified set of port references.

use crate::components::port::PortRef;
use vstd::prelude::*;

verus! {

/// A set of ports that are wired together. The connection holds no value:
/// it only says which ports take part.
#[derive(Debug)]
pub struct Connection {
    id: usize,
    members: Vec<PortRef>,
}

/// What a connection is: its id and its members in the order in which they
/// joined.
pub struct ConnectionView {
    pub id: usize,
    pub members: Seq<PortRef>,
}

impl View for Connection {
    type V = ConnectionView;

    closed spec fn view(&self) -> ConnectionView {
        ConnectionView { id: self.id, members: self.members@ }
    }
}

impl Connection {
    /// The connection's id.
    pub open spec fn spec_id(&self) -> usize {
        self@.id
    }

    /// The members in the order in which they joined.
    pub open spec fn member_seq(&self) -> Seq<PortRef> {
        self@.members
    }

    /// The members as a set.
    pub open spec fn members(&self) -> Set<PortRef> {
        self.member_seq().to_set()
    }

    /// No port is listed twice.
    pub open spec fn wf(&self) -> bool {
        self.member_seq().no_duplicates()
    }

    /// An empty connection with the given id.
    pub fn new_with_id(id: usize) -> (c: Connection)
        ensures
            c.wf(),
            c.spec_id() == id,
            c.member_seq() == Seq::<PortRef>::empty(),
    {
        Connection { id, members: Vec::new() }
    }

    #[verifier::when_used_as_spec(spec_id)]
    pub fn get_id(&self) -> (id: usize)
        ensures
            id == self.spec_id(),
    {
        self.id
    }

    /// The number of member ports.
    pub fn len(&self) -> (n: usize)
        ensures
            n == self.member_seq().len(),
            self.wf() ==> n == self.members().len(),
    {
        proof {
            if self.wf() {
                self.member_seq().unique_seq_to_set();
            }
        }
        self.members.len()
    }

    /// The member at position `i` in joining order.
    pub fn member_at(&self, i: usize) -> (r: PortRef)
        requires
            i < self.member_seq().len(),
        ensures
            r == self.member_seq()[i as int],
    {
        self.members[i]
    }

    /// The members in joining order.
    pub fn get_members(&self) -> (v: Vec<PortRef>)
        ensures
            v@ == self.member_seq(),
    {
        let mut v: Vec<PortRef> = Vec::new();
        let mut i: usize = 0;
        while i < self.members.len()
            invariant
                i <= self.members.len(),
                v@ == self.members@.subrange(0, i as int),
            decreases self.members.len() - i,
        {
            v.push(self.members[i]);
            i += 1;
            assert(v@ =~= self.members@.subrange(0, i as int));
        }
        assert(v@ =~= self.members@);
        v
    }

    /// Whether no port is listed twice.
    pub fn is_wf(&self) -> (b: bool)
        ensures
            b == self.wf(),
    {
        let mut i: usize = 0;
        while i < self.members.len()
            invariant
                i <= self.members.len(),
                forall|a: int, b: int|
                    0 <= a < b < i ==> self.members@[a] != self.members@[b],
            decreases self.members.len() - i,
        {
            let mut j: usize = 0;
            while j < i
                invariant
                    j <= i < self.members.len(),
                    forall|a: int| 0 <= a < j ==> self.members@[a] != self.members@[i as int],
                decreases i - j,
            {
                if self.members[j].same(self.members[i]) {
                    return false;
                }
                j += 1;
            }
            i += 1;
        }
        assert(self.member_seq().no_duplicates()) by {
            assert forall|a: int, b: int|
                0 <= a < self.members@.len() && 0 <= b < self.members@.len() && a
                    != b implies self.members@[a] != self.members@[b] by {
                if a < b {
                } else {
                    assert(self.members@[b] != self.members@[a]);
                }
            }
        }
        true
    }

    /// The position of `port` among the members, if it is one.
    fn position(&self, port: PortRef) -> (pos: Option<usize>)
        ensures
            match pos {
                Some(i) => i < self.member_seq().len() && self.member_seq()[i as int] == port,
                None => !self.member_seq().contains(port),
            },
    {
        let mut i: usize = 0;
        while i < self.members.len()
            invariant
                i <= self.members.len(),
                forall|j: int| 0 <= j < i ==> self.members@[j] != port,
            decreases self.members.len() - i,
        {
            if self.members[i].same(port) {
                return Some(i);
            }
            i += 1;
        }
        None
    }

    /// Whether `port` is a member.
    pub fn contains(&self, port: PortRef) -> (b: bool)
        ensures
            b == self.members().contains(port),
    {
        self.position(port).is_some()
    }

    /// Adds `port` to the members. Returns whether it was added, which is
    /// exactly when it was not a member before.
    pub fn add_port(&mut self, port: PortRef) -> (added: bool)
        requires
            old(self).wf(),
        ensures
            final(self).wf(),
            final(self).spec_id() == old(self).spec_id(),
            added == !old(self).members().contains(port),
            final(self).members() == old(self).members().insert(port),
            final(self).member_seq() == if added {
                old(self).member_seq().push(port)
            } else {
                old(self).member_seq()
            },
    {
        match self.position(port) {
            Some(_) => {
                assert(self.members().insert(port) =~= self.members());
                false
            },
            None => {
                self.members.push(port);
                assert(final(self).members() =~= old(self).members().insert(port)) by {
                    assert forall|r: PortRef|
                        final(self).member_seq().contains(r) <==> (old(self).member_seq().contains(
                            r,
                        ) || r == port) by {
                        let s0 = old(self).member_seq();
                        let s1 = final(self).member_seq();
                        if s1.contains(r) {
                            let j = choose|j: int| 0 <= j < s1.len() && s1[j] == r;
                            if j < s0.len() {
                                assert(s0[j] == r);
                            }
                        }
                        if s0.contains(r) {
                            let j = choose|j: int| 0 <= j < s0.len() && s0[j] == r;
                            assert(s1[j] == r);
                        }
                        if r == port {
                            assert(s1[s0.len() as int] == r);
                        }
                    }
                }
                true
            },
        }
    }

    /// Removes `port` from the members. Returns whether it was a member.
    pub fn remove_port(&mut self, port: PortRef) -> (removed: bool)
        requires
            old(self).wf(),
        ensures
            final(self).wf(),
            final(self).spec_id() == old(self).spec_id(),
            removed == old(self).members().contains(port),
            final(self).members() == old(self).members().remove(port),
            final(self).member_seq() == without(old(self).member_seq(), port),
    {
        match self.position(port) {
            Some(i) => {
                self.members.remove(i);
                proof {
                    lemma_remove_unique(old(self).member_seq(), i as int);
                }
                true
            },
            None => {
                proof {
                    lemma_filter_absent(self.member_seq(), port);
                    assert(self.members().remove(port) =~= self.members());
                }
                false
            },
        }
    }
}

impl Clone for Connection {
    fn clone(&self) -> (c: Connection)
        ensures
            c@ == self@,
    {
        Connection { id: self.id, members: self.get_members() }
    }
}

/// `s` with every occurrence of `port` taken out, the rest in order.
pub open spec fn without(s: Seq<PortRef>, port: PortRef) -> Seq<PortRef>
    decreases s.len(),
{
    if s.len() == 0 {
        s
    } else if s.last() == port {
        without(s.drop_last(), port)
    } else {
        without(s.drop_last(), port).push(s.last())
    }
}

/// Taking out a value that does not occur changes nothing.
proof fn lemma_filter_absent(s: Seq<PortRef>, port: PortRef)
    requires
        !s.contains(port),
    ensures
        without(s, port) == s,
    decreases s.len(),
{
    if s.len() > 0 {
        let rest = s.drop_last();
        assert(s[s.len() - 1] != port);
        assert forall|j: int| 0 <= j < rest.len() implies rest[j] != port by {
            assert(s[j] == rest[j]);
        }
        lemma_filter_absent(rest, port);
        assert(rest.push(s.last()) =~= s);
    }
}

/// Removing the one occurrence of a value from a duplicate-free sequence
/// takes exactly that value out.
proof fn lemma_remove_unique(s: Seq<PortRef>, i: int)
    requires
        s.no_duplicates(),
        0 <= i < s.len(),
    ensures
        s.remove(i).no_duplicates(),
        s.remove(i) == without(s, s[i]),
        s.remove(i).to_set() == s.to_set().remove(s[i]),
    decreases s.len(),
{
    let port = s[i];
    let t = s.remove(i);
    assert(t.no_duplicates()) by {
        assert forall|a: int, b: int| 0 <= a < t.len() && 0 <= b < t.len() && a != b implies t[a]
            != t[b] by {
            let a0 = if a < i { a } else { a + 1 };
            let b0 = if b < i { b } else { b + 1 };
            assert(t[a] == s[a0] && t[b] == s[b0]);
        }
    }
    assert(t.to_set() =~= s.to_set().remove(port)) by {
        assert forall|r: PortRef| t.contains(r) <==> (s.contains(r) && r != port) by {
            if t.contains(r) {
                let a = choose|a: int| 0 <= a < t.len() && t[a] == r;
                let a0 = if a < i { a } else { a + 1 };
                assert(s[a0] == r);
            }
            if s.contains(r) && r != port {
                let a0 = choose|a0: int| 0 <= a0 < s.len() && s[a0] == r;
                let a = if a0 < i { a0 } else { a0 - 1 };
                assert(t[a] == r);
            }
        }
    }
    let rest = s.drop_last();
    if i == s.len() - 1 {
        assert(t =~= rest);
        assert(!rest.contains(port)) by {
            if rest.contains(port) {
                let a = choose|a: int| 0 <= a < rest.len() && rest[a] == port;
                assert(s[a] == port);
            }
        }
        lemma_filter_absent(rest, port);
    } else {
        assert(rest.no_duplicates());
        assert(rest[i] == port);
        lemma_remove_unique(rest, i);
        assert(s.last() != port);
        assert(t =~= rest.remove(i).push(s.last()));
    }
}

} // verus!
