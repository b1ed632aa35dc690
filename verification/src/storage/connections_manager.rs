//! The connection registry: every connection with its display name, the id
//! allocator, and the editing cursor that says what a click on a port does.

use crate::components::connection::{without, Connection, ConnectionView};
use crate::components::port::{Port, PortRef};
use crate::text::{decimal, push_digits};
use std::collections::HashMap;
use vstd::prelude::*;

verus! {

broadcast use vstd::std_specs::hash::group_hash_axioms;

/// The first id that a fresh registry hands out.
pub const FIRST_CONNECTION_ID: usize = 1;

/// The connections of a list, each by its view.
pub open spec fn views(conns: Seq<Connection>) -> Seq<ConnectionView> {
    Seq::new(conns.len(), |i: int| conns[i]@)
}

/// The names of a map, each as its text.
pub open spec fn name_texts(names: Map<usize, String>) -> Map<usize, Seq<char>> {
    Map::new(|k: usize| names.contains_key(k), |k: usize| names[k]@)
}

/// Whether some connection of the list has id `c`.
pub open spec fn has_id(conns: Seq<ConnectionView>, c: usize) -> bool {
    exists|i: int| 0 <= i < conns.len() && (#[trigger] conns[i]).id == c
}

/// The position of the connection with id `c`, where there is one.
pub open spec fn index_of_id(conns: Seq<ConnectionView>, c: usize) -> int {
    choose|i: int| 0 <= i < conns.len() && (#[trigger] conns[i]).id == c
}

/// Whether the connection with id `c` lists `port`.
pub open spec fn has_member(conns: Seq<ConnectionView>, c: usize, port: PortRef) -> bool {
    exists|i: int|
        0 <= i < conns.len() && (#[trigger] conns[i]).id == c && conns[i].members.contains(port)
}

/// Whether any connection lists `port`.
pub open spec fn is_wired(conns: Seq<ConnectionView>, port: PortRef) -> bool {
    exists|i: int| 0 <= i < conns.len() && (#[trigger] conns[i]).members.contains(port)
}

/// The id of a connection that lists `port`, if any does.
pub open spec fn owner_of(conns: Seq<ConnectionView>, port: PortRef) -> Option<usize> {
    if is_wired(conns, port) {
        Some(
            conns[choose|i: int|
                0 <= i < conns.len() && (#[trigger] conns[i]).members.contains(port)].id,
        )
    } else {
        None
    }
}

/// A list of connections is valid when no connection lists a port twice, no
/// two connections share an id, and no port is listed by two connections.
pub open spec fn valid(conns: Seq<ConnectionView>) -> bool {
    &&& forall|i: int| 0 <= i < conns.len() ==> (#[trigger] conns[i]).members.no_duplicates()
    &&& forall|i: int, j: int|
        0 <= i < conns.len() && 0 <= j < conns.len() && i != j ==> (#[trigger] conns[i]).id != (
        #[trigger] conns[j]).id
    &&& forall|i: int, j: int, port: PortRef|
        0 <= i < conns.len() && 0 <= j < conns.len() && #[trigger] conns[i].members.contains(port)
            && #[trigger] conns[j].members.contains(port) ==> i == j
}

/// Every id of the list is below `bound`.
pub open spec fn ids_below(conns: Seq<ConnectionView>, bound: int) -> bool {
    forall|i: int| 0 <= i < conns.len() ==> (#[trigger] conns[i]).id < bound
}

/// The list with `port` added to the connection with id `c`.
pub open spec fn with_member(conns: Seq<ConnectionView>, c: usize, port: PortRef) -> Seq<
    ConnectionView,
> {
    Seq::new(
        conns.len(),
        |i: int|
            if conns[i].id == c {
                ConnectionView { id: c, members: conns[i].members.push(port) }
            } else {
                conns[i]
            },
    )
}

/// The list with `port` taken out of every connection.
pub open spec fn without_member(conns: Seq<ConnectionView>, port: PortRef) -> Seq<ConnectionView> {
    Seq::new(
        conns.len(),
        |i: int| ConnectionView { id: conns[i].id, members: without(conns[i].members, port) },
    )
}

/// The list without the connection with id `c`.
pub open spec fn without_id(conns: Seq<ConnectionView>, c: usize) -> Seq<ConnectionView> {
    if has_id(conns, c) {
        conns.remove(index_of_id(conns, c))
    } else {
        conns
    }
}

/// The later of two next ids: ids are handed out in order and never again.
pub open spec fn later_id(a: usize, b: usize) -> usize {
    if a >= b {
        a
    } else {
        b
    }
}

/// The name that a new connection with id `id` gets.
pub open spec fn default_name(id: usize) -> Seq<char> {
    seq!['c', 'o', 'n', 'n', ':'] + decimal(id as int)
}

/// In a valid list, the connection that lists a port is its owner.
pub proof fn lemma_owner_is_unique(conns: Seq<ConnectionView>, i: int, port: PortRef)
    requires
        valid(conns),
        0 <= i < conns.len(),
        conns[i].members.contains(port),
    ensures
        owner_of(conns, port) == Some(conns[i].id),
        has_member(conns, conns[i].id, port),
        is_wired(conns, port),
{
}

/// In a valid list, a port is listed by the connection with id `c` exactly
/// when `c` is its owner: no port belongs to two connections.
pub proof fn lemma_member_iff_owner(conns: Seq<ConnectionView>, c: usize, port: PortRef)
    requires
        valid(conns),
    ensures
        has_member(conns, c, port) <==> owner_of(conns, port) == Some(c),
{
    if has_member(conns, c, port) {
        let i = choose|i: int|
            0 <= i < conns.len() && (#[trigger] conns[i]).id == c && conns[i].members.contains(
                port,
            );
        lemma_owner_is_unique(conns, i, port);
    }
    if owner_of(conns, port) == Some(c) {
        let i = choose|i: int|
            0 <= i < conns.len() && (#[trigger] conns[i]).members.contains(port);
        assert(conns[i].id == c);
    }
}

/// How a port is drawn, by what a click on it would do.
#[derive(Clone, Copy, Debug, PartialEq, Eq, Structural)]
pub enum PortHighlight {
    /// A click would do nothing.
    Plain,
    /// A click would connect the port.
    Connectable,
    /// A click would disconnect the port.
    Disconnectable,
}

/// What the registry holds.
pub struct RegistryView {
    /// The connections in the order in which they were created.
    pub connections: Seq<ConnectionView>,
    /// The display name of each connection, by id.
    pub names: Map<usize, Seq<char>>,
    /// The id that the next new connection gets.
    pub next_id: usize,
    /// The connection that a clicked port joins, if one is selected.
    pub current_id: Option<usize>,
    /// Whether a clicked port leaves its connection.
    pub disconnect_mode: bool,
    /// Whether the ports' links have to be rebuilt from the connections.
    pub reload: bool,
}

impl RegistryView {
    pub open spec fn wf(self) -> bool {
        &&& valid(self.connections)
        &&& ids_below(self.connections, self.next_id as int)
        &&& !(self.current_id.is_some() && self.disconnect_mode)
    }

    /// Whether the cursor names a connection that exists.
    pub open spec fn cursor_active(self) -> bool {
        self.current_id.is_some() && has_id(self.connections, self.current_id.unwrap())
    }

    /// How `port` is drawn: as connectable while a cursor is active and the
    /// port is not connected, as disconnectable while the disconnect mode
    /// is on and the port is connected.
    pub open spec fn highlight(self, port: Port) -> PortHighlight {
        if self.cursor_active() && port.link().is_none() {
            PortHighlight::Connectable
        } else if self.disconnect_mode && port.link().is_some() {
            PortHighlight::Disconnectable
        } else {
            PortHighlight::Plain
        }
    }
}

/// The part of the registry that is saved and loaded.
pub struct RegistrySnapshot {
    pub connections: Vec<Connection>,
    pub names: HashMap<usize, String>,
    pub next_id: usize,
}

impl RegistrySnapshot {
    /// Whether the snapshot can be installed: its connections are valid and
    /// their ids are below its `next_id`.
    pub open spec fn installable(&self) -> bool {
        &&& valid(views(self.connections@))
        &&& ids_below(views(self.connections@), self.next_id as int)
    }
}

pub struct ConnectionManager {
    connections: Vec<Connection>,
    names: HashMap<usize, String>,
    next_id: usize,
    current_id: Option<usize>,
    disconnect_mode: bool,
    reload: bool,
}

impl View for ConnectionManager {
    type V = RegistryView;

    closed spec fn view(&self) -> RegistryView {
        RegistryView {
            connections: views(self.connections@),
            names: name_texts(self.names@),
            next_id: self.next_id,
            current_id: self.current_id,
            disconnect_mode: self.disconnect_mode,
            reload: self.reload,
        }
    }
}

/// Copies a list of connections.
pub fn copy_connections(conns: &Vec<Connection>) -> (out: Vec<Connection>)
    ensures
        views(out@) == views(conns@),
{
    let mut out: Vec<Connection> = Vec::new();
    let mut i: usize = 0;
    while i < conns.len()
        invariant
            i <= conns.len(),
            out.len() == i,
            forall|k: int| 0 <= k < i ==> out@[k]@ == conns@[k]@,
        decreases conns.len() - i,
    {
        out.push(conns[i].clone());
        i += 1;
    }
    assert(views(out@) =~= views(conns@));
    out
}

/// Whether a list of connections is valid.
pub fn is_valid_list(conns: &Vec<Connection>) -> (b: bool)
    ensures
        b == valid(views(conns@)),
{
    let ghost vs = views(conns@);
    let mut i: usize = 0;
    while i < conns.len()
        invariant
            i <= conns.len(),
            vs == views(conns@),
            forall|a: int| 0 <= a < i ==> (#[trigger] vs[a]).members.no_duplicates(),
            forall|a: int, b: int|
                0 <= a < b < i ==> (#[trigger] vs[a]).id != (#[trigger] vs[b]).id,
            forall|a: int, b: int, port: PortRef|
                0 <= a < b < i && #[trigger] vs[a].members.contains(port) ==> !(
                #[trigger] vs[b].members.contains(port)),
        decreases conns.len() - i,
    {
        if !conns[i].is_wf() {
            assert(!vs[i as int].members.no_duplicates());
            return false;
        }
        let mut j: usize = 0;
        while j < i
            invariant
                j <= i < conns.len(),
                vs == views(conns@),
                forall|a: int| 0 <= a < j ==> (#[trigger] vs[a]).id != vs[i as int].id,
                forall|a: int, port: PortRef|
                    0 <= a < j && #[trigger] vs[a].members.contains(port)
                        ==> !vs[i as int].members.contains(port),
            decreases i - j,
        {
            if conns[j].get_id() == conns[i].get_id() {
                assert(vs[j as int].id == vs[i as int].id);
                return false;
            }
            let n = conns[j].len();
            let mut k: usize = 0;
            while k < n
                invariant
                    k <= n,
                    n == vs[j as int].members.len(),
                    j < i < conns.len(),
                    vs == views(conns@),
                    forall|m: int|
                        0 <= m < k ==> !vs[i as int].members.contains(
                            #[trigger] vs[j as int].members[m],
                        ),
                decreases n - k,
            {
                let port = conns[j].member_at(k);
                if conns[i].contains(port) {
                    assert(vs[j as int].members.contains(port));
                    assert(vs[i as int].members.contains(port));
                    return false;
                }
                k += 1;
            }
            assert forall|port: PortRef| #[trigger]
                vs[j as int].members.contains(port) implies !vs[i as int].members.contains(
                port,
            ) by {
                let m = choose|m: int|
                    0 <= m < vs[j as int].members.len() && vs[j as int].members[m] == port;
                assert(!vs[i as int].members.contains(vs[j as int].members[m]));
            }
            j += 1;
        }
        i += 1;
    }
    assert(valid(vs)) by {
        assert forall|a: int, b: int| 0 <= a < vs.len() && 0 <= b < vs.len() && a != b implies (
        #[trigger] vs[a]).id != (#[trigger] vs[b]).id by {
            if a < b {
            } else {
                assert(vs[b].id != vs[a].id);
            }
        }
        assert forall|a: int, b: int, port: PortRef|
            0 <= a < vs.len() && 0 <= b < vs.len() && #[trigger] vs[a].members.contains(port)
                && #[trigger] vs[b].members.contains(port) implies a == b by {
            if a < b {
            } else if b < a {
                assert(vs[b].members.contains(port));
            }
        }
    }
    true
}

/// The smallest bound above every id of the list, or `None` when an id is
/// the largest number there is.
pub fn bound_of_ids(conns: &Vec<Connection>) -> (bound: Option<usize>)
    ensures
        match bound {
            Some(b) => ids_below(views(conns@), b as int) && (b == 0 || has_id(
                views(conns@),
                (b - 1) as usize,
            )) && (b == 0 ==> conns@.len() == 0),
            None => has_id(views(conns@), usize::MAX),
        },
{
    let ghost vs = views(conns@);
    let mut bound: usize = 0;
    let mut i: usize = 0;
    while i < conns.len()
        invariant
            i <= conns.len(),
            vs == views(conns@),
            forall|a: int| 0 <= a < i ==> (#[trigger] vs[a]).id < bound,
            bound == 0 || has_id(vs, (bound - 1) as usize),
            bound == 0 ==> i == 0,
        decreases conns.len() - i,
    {
        let id = conns[i].get_id();
        assert(vs[i as int].id == id);
        if id == usize::MAX {
            return None;
        }
        if id >= bound {
            bound = id + 1;
        }
        i += 1;
    }
    Some(bound)
}

impl ConnectionManager {
    pub open spec fn wf(&self) -> bool {
        self@.wf()
    }

    /// An empty registry: no connection, no cursor, not in disconnect mode.
    pub fn new() -> (m: ConnectionManager)
        ensures
            m.wf(),
            m@ == (RegistryView {
                connections: Seq::empty(),
                names: Map::empty(),
                next_id: FIRST_CONNECTION_ID,
                current_id: None,
                disconnect_mode: false,
                reload: false,
            }),
    {
        let m = ConnectionManager {
            connections: Vec::new(),
            names: HashMap::new(),
            next_id: FIRST_CONNECTION_ID,
            current_id: None,
            disconnect_mode: false,
            reload: false,
        };
        assert(m@.connections =~= Seq::empty());
        assert(m@.names =~= Map::empty());
        m
    }

    /// Whether the registry is in order.
    pub fn is_wf(&self) -> (b: bool)
        ensures
            b == self.wf(),
    {
        if !is_valid_list(&self.connections) {
            return false;
        }
        if self.current_id.is_some() && self.disconnect_mode {
            return false;
        }
        match bound_of_ids(&self.connections) {
            None => {
                proof {
                    let vs = self@.connections;
                    let i = choose|i: int| 0 <= i < vs.len() && (#[trigger] vs[i]).id == usize::MAX;
                    assert(!(vs[i].id < self.next_id));
                }
                false
            },
            Some(bound) => {
                proof {
                    let vs = self@.connections;
                    if bound > self.next_id {
                        let i = choose|i: int|
                            0 <= i < vs.len() && (#[trigger] vs[i]).id == (bound - 1) as usize;
                        assert(!(vs[i].id < self.next_id));
                    }
                }
                bound <= self.next_id
            },
        }
    }

    /// Whether another connection can be created: ids are never reused, and
    /// this says that they have not run out.
    pub fn can_create(&self) -> (b: bool)
        ensures
            b == (self@.next_id < usize::MAX),
    {
        self.next_id < usize::MAX
    }

    /// Creates an empty connection under the next id, named after that id,
    /// and returns the id.
    pub fn create_connection(&mut self) -> (id: usize)
        requires
            old(self).wf(),
            old(self)@.next_id < usize::MAX,
        ensures
            final(self).wf(),
            id == old(self)@.next_id,
            !has_id(old(self)@.connections, id),
            final(self)@ == (RegistryView {
                connections: old(self)@.connections.push(
                    ConnectionView { id, members: Seq::empty() },
                ),
                names: old(self)@.names.insert(id, default_name(id)),
                next_id: (id + 1) as usize,
                ..old(self)@
            }),
    {
        let id = self.next_id;
        let conn = Connection::new_with_id(id);
        self.connections.push(conn);
        let mut name = String::from_str("conn:");
        proof {
            reveal_strlit("conn:");
            assert("conn:"@ =~= seq!['c', 'o', 'n', 'n', ':']);
        }
        push_digits(id as u64, 10, &mut name);
        self.names.insert(id, name);
        self.next_id = id + 1;
        proof {
            assert(name@ =~= default_name(id));
            assert(self@.connections =~= old(self)@.connections.push(
                ConnectionView { id, members: Seq::empty() },
            ));
            assert(self@.names =~= old(self)@.names.insert(id, default_name(id)));
            let vs = self@.connections;
            let n = old(self)@.connections.len() as int;
            assert forall|i: int, j: int, port: PortRef|
                0 <= i < vs.len() && 0 <= j < vs.len() && #[trigger] vs[i].members.contains(port)
                    && #[trigger] vs[j].members.contains(port) implies i == j by {
                assert(i < n && j < n);
                assert(old(self)@.connections[i].members.contains(port));
                assert(old(self)@.connections[j].members.contains(port));
            }
            assert forall|i: int, j: int|
                0 <= i < vs.len() && 0 <= j < vs.len() && i != j implies (#[trigger] vs[i]).id != (
            #[trigger] vs[j]).id by {
                if i < n {
                    assert(old(self)@.connections[i].id < id);
                }
                if j < n {
                    assert(old(self)@.connections[j].id < id);
                }
            }
            assert forall|i: int| 0 <= i < vs.len() implies (#[trigger] vs[i]).id < id + 1 by {
                if i < n {
                    assert(old(self)@.connections[i].id < id);
                }
            }
            assert forall|i: int| 0 <= i < vs.len() implies (
            #[trigger] vs[i]).members.no_duplicates() by {
                if i < n {
                    assert(old(self)@.connections[i].members.no_duplicates());
                }
            }
        }
        id
    }

    /// The display name recorded for `id`, if there is one.
    pub fn get_name(&self, id: usize) -> (name: Option<String>)
        ensures
            name.is_some() == self@.names.contains_key(id),
            name.is_some() ==> name.unwrap()@ == self@.names[id],
    {
        match self.names.get(&id) {
            Some(name) => Some(name.clone()),
            None => None,
        }
    }

    /// All recorded display names.
    pub fn get_names(&self) -> (names: HashMap<usize, String>)
        ensures
            name_texts(names@) == self@.names,
    {
        self.names.clone()
    }

    /// Gives the connection `id` the display name `new_name`. Nothing
    /// happens when `id` is `None` or names no connection.
    pub fn set_name(&mut self, id: Option<usize>, new_name: String)
        requires
            old(self).wf(),
        ensures
            final(self).wf(),
            final(self)@ == if id.is_some() && has_id(old(self)@.connections, id.unwrap()) {
                RegistryView {
                    names: old(self)@.names.insert(id.unwrap(), new_name@),
                    ..old(self)@
                }
            } else {
                old(self)@
            },
    {
        if let Some(c) = id {
            if self.get_connection_index_by_id(Some(c)).is_some() {
                self.names.insert(c, new_name);
                assert(self@.names =~= old(self)@.names.insert(c, new_name@));
            }
        }
    }

    /// Replaces all display names.
    pub fn set_names(&mut self, names: HashMap<usize, String>)
        requires
            old(self).wf(),
        ensures
            final(self).wf(),
            final(self)@ == (RegistryView { names: name_texts(names@), ..old(self)@ }),
    {
        self.names = names;
    }

    /// A copy of the connections, in creation order.
    pub fn get_connections(&self) -> (conns: Vec<Connection>)
        ensures
            views(conns@) == self@.connections,
    {
        copy_connections(&self.connections)
    }

    /// The number of connections.
    pub fn connection_count(&self) -> (n: usize)
        ensures
            n == self@.connections.len(),
    {
        self.connections.len()
    }

    /// Removes the connection `id`, if there is one, and asks for the ports'
    /// links to be rebuilt. Ports that pointed at the connection keep their
    /// stale link until that happens.
    pub fn remove_connection(&mut self, id: Option<usize>)
        requires
            old(self).wf(),
        ensures
            final(self).wf(),
            final(self)@ == (RegistryView {
                connections: match id {
                    Some(c) => without_id(old(self)@.connections, c),
                    None => old(self)@.connections,
                },
                reload: true,
                ..old(self)@
            }),
    {
        let ghost before = self@.connections;
        match self.get_connection_index_by_id(id) {
            Some(i) => {
                let ghost c = id.unwrap();
                proof {
                    assert(before[i as int].id == c);
                    assert(has_id(before, c));
                    let k = index_of_id(before, c);
                    assert(k == i);
                }
                self.connections.remove(i);
                proof {
                    let after = views(self.connections@);
                    assert(after =~= before.remove(i as int));
                    assert forall|a: int, b: int, port: PortRef|
                        0 <= a < after.len() && 0 <= b < after.len()
                            && #[trigger] after[a].members.contains(port)
                            && #[trigger] after[b].members.contains(port) implies a == b by {
                        let a0 = if a < i { a } else { a + 1 };
                        let b0 = if b < i { b } else { b + 1 };
                        assert(before[a0].members.contains(port));
                        assert(before[b0].members.contains(port));
                    }
                    assert forall|a: int, b: int|
                        0 <= a < after.len() && 0 <= b < after.len() && a != b implies (
                    #[trigger] after[a]).id != (#[trigger] after[b]).id by {
                        let a0 = if a < i { a } else { a + 1 };
                        let b0 = if b < i { b } else { b + 1 };
                        assert(before[a0].id != before[b0].id);
                    }
                    assert forall|a: int| 0 <= a < after.len() implies (
                    #[trigger] after[a]).members.no_duplicates() && after[a].id
                        < self.next_id by {
                        let a0 = if a < i { a } else { a + 1 };
                        assert(before[a0].members.no_duplicates());
                        assert(before[a0].id < self.next_id);
                    }
                }
            },
            None => {},
        }
        self.reload = true;
    }

    /// Installs `state` as the connections, if it is valid and its ids leave
    /// room for a next one; returns whether it did. The next id never goes
    /// down: it becomes the larger of what it was and one more than the
    /// largest id of `state`. Nothing changes when `state` is refused.
    pub fn set_connection(&mut self, state: Vec<Connection>) -> (installed: bool)
        requires
            old(self).wf(),
        ensures
            final(self).wf(),
            installed == (valid(views(state@)) && !has_id(views(state@), usize::MAX)),
            installed ==> final(self)@.connections == views(state@),
            installed ==> final(self)@.next_id >= old(self)@.next_id,
            installed ==> ids_below(views(state@), final(self)@.next_id as int),
            installed ==> (final(self)@.next_id == old(self)@.next_id || has_id(
                views(state@),
                (final(self)@.next_id - 1) as usize,
            )),
            installed ==> final(self)@ == (RegistryView {
                connections: final(self)@.connections,
                next_id: final(self)@.next_id,
                ..old(self)@
            }),
            !installed ==> final(self)@ == old(self)@,
    {
        if !is_valid_list(&state) {
            return false;
        }
        match bound_of_ids(&state) {
            None => false,
            Some(bound) => {
                if bound > self.next_id {
                    self.next_id = bound;
                }
                self.connections = state;
                true
            },
        }
    }

    /// The part of the registry that is saved: connections, names and the
    /// next id.
    pub fn snapshot(&self) -> (snap: RegistrySnapshot)
        ensures
            views(snap.connections@) == self@.connections,
            name_texts(snap.names@) == self@.names,
            snap.next_id == self@.next_id,
            self.wf() ==> snap.installable(),
    {
        RegistrySnapshot {
            connections: copy_connections(&self.connections),
            names: self.names.clone(),
            next_id: self.next_id,
        }
    }

    /// Whether `snap` can be installed.
    pub fn can_restore(snap: &RegistrySnapshot) -> (b: bool)
        ensures
            b == snap.installable(),
    {
        if !is_valid_list(&snap.connections) {
            return false;
        }
        match bound_of_ids(&snap.connections) {
            None => false,
            Some(bound) => bound <= snap.next_id,
        }
    }

    /// Installs a snapshot: its connections and names replace the
    /// registry's, and the next id becomes the snapshot's unless that would
    /// lower it. The cursor and the disconnect mode are not part of a
    /// snapshot and stay as they are. Returns whether the snapshot was
    /// installable; a snapshot that is not changes nothing.
    pub fn restore(&mut self, snap: RegistrySnapshot) -> (installed: bool)
        requires
            old(self).wf(),
        ensures
            final(self).wf(),
            installed == snap.installable(),
            final(self)@ == if installed {
                RegistryView {
                    connections: views(snap.connections@),
                    names: name_texts(snap.names@),
                    next_id: later_id(old(self)@.next_id, snap.next_id),
                    ..old(self)@
                }
            } else {
                old(self)@
            },
    {
        if !Self::can_restore(&snap) {
            return false;
        }
        self.connections = snap.connections;
        self.names = snap.names;
        if snap.next_id > self.next_id {
            self.next_id = snap.next_id;
        }
        true
    }

    /// Removes every connection and starts the ids over. Names stay until
    /// they are replaced.
    pub fn clear_connections(&mut self)
        requires
            old(self).wf(),
        ensures
            final(self).wf(),
            final(self)@ == (RegistryView {
                connections: Seq::empty(),
                next_id: FIRST_CONNECTION_ID,
                ..old(self)@
            }),
    {
        self.connections.clear();
        self.next_id = FIRST_CONNECTION_ID;
        assert(self@.connections =~= Seq::empty());
    }

    /// Selects the connection that clicked ports join, or none. Selecting
    /// ends the disconnect mode.
    pub fn set_current_id(&mut self, id: Option<usize>)
        requires
            old(self).wf(),
        ensures
            final(self).wf(),
            final(self)@ == (RegistryView {
                current_id: id,
                disconnect_mode: false,
                ..old(self)@
            }),
    {
        self.current_id = id;
        self.disconnect_mode = false;
    }

    /// Clears the cursor.
    pub fn unset_current_id(&mut self)
        requires
            old(self).wf(),
        ensures
            final(self).wf(),
            final(self)@ == (RegistryView { current_id: None, ..old(self)@ }),
    {
        self.current_id = None;
    }

    /// The id under the cursor.
    pub fn get_current_id(&self) -> (id: Option<usize>)
        ensures
            id == self@.current_id,
    {
        self.current_id
    }

    /// The position of the connection under the cursor.
    pub fn get_current_id_index(&self) -> (index: Option<usize>)
        ensures
            index.is_some() == self@.cursor_active(),
            index.is_some() ==> index.unwrap() < self@.connections.len()
                && self@.connections[index.unwrap() as int].id == self@.current_id.unwrap(),
    {
        self.get_connection_index_by_id(self.current_id)
    }

    /// Whether the cursor names a connection that exists, so that a click on
    /// a disconnected port connects it.
    pub fn is_cursor_active(&self) -> (b: bool)
        ensures
            b == self@.cursor_active(),
    {
        self.get_current_id_index().is_some()
    }

    /// How `port` is drawn.
    pub fn highlight(&self, port: Port) -> (h: PortHighlight)
        ensures
            h == self@.highlight(port),
    {
        if self.is_cursor_active() && !port.is_connected() {
            PortHighlight::Connectable
        } else if self.disconnect_mode && port.is_connected() {
            PortHighlight::Disconnectable
        } else {
            PortHighlight::Plain
        }
    }

    /// A copy of the connection under the cursor.
    pub fn get_connection_to_current(&self) -> (conn: Option<Connection>)
        requires
            self.wf(),
        ensures
            conn.is_some() == self@.cursor_active(),
            conn.is_some() ==> conn.unwrap()@.id == self@.current_id.unwrap() && has_id(
                self@.connections,
                conn.unwrap()@.id,
            ) && conn.unwrap()@ == self@.connections[index_of_id(
                self@.connections,
                conn.unwrap()@.id,
            )],
    {
        self.get_connection_by_id(self.current_id)
    }

    /// Whether a click on a connected port disconnects it.
    pub fn in_disconnect_mode(&self) -> (b: bool)
        ensures
            b == self@.disconnect_mode,
    {
        self.disconnect_mode
    }

    /// Same as [`ConnectionManager::in_disconnect_mode`].
    pub fn is_disconnect_mode(&self) -> (b: bool)
        ensures
            b == self@.disconnect_mode,
    {
        self.disconnect_mode
    }

    /// Switches the disconnect mode on or off and clears the cursor.
    pub fn toggle_disconnect_mode(&mut self)
        requires
            old(self).wf(),
        ensures
            final(self).wf(),
            final(self)@ == (RegistryView {
                current_id: None,
                disconnect_mode: !old(self)@.disconnect_mode,
                ..old(self)@
            }),
    {
        self.current_id = None;
        self.disconnect_mode = !self.disconnect_mode;
    }

    /// The position of the connection `id`.
    pub fn get_connection_index_by_id(&self, id: Option<usize>) -> (index: Option<usize>)
        ensures
            index.is_some() == (id.is_some() && has_id(self@.connections, id.unwrap())),
            index.is_some() ==> index.unwrap() < self@.connections.len()
                && self@.connections[index.unwrap() as int].id == id.unwrap(),
    {
        let c = match id {
            Some(c) => c,
            None => {
                return None;
            },
        };
        let ghost vs = self@.connections;
        let mut i: usize = 0;
        while i < self.connections.len()
            invariant
                i <= self.connections.len(),
                id == Some(c),
                vs == views(self.connections@),
                forall|k: int| 0 <= k < i ==> (#[trigger] vs[k]).id != c,
            decreases self.connections.len() - i,
        {
            if self.connections[i].get_id() == c {
                assert(vs[i as int].id == c);
                return Some(i);
            }
            i += 1;
        }
        None
    }

    /// A copy of the connection `id`.
    pub fn get_connection_by_id(&self, id: Option<usize>) -> (conn: Option<Connection>)
        requires
            self.wf(),
        ensures
            conn.is_some() == (id.is_some() && has_id(self@.connections, id.unwrap())),
            conn.is_some() ==> conn.unwrap()@.id == id.unwrap() && conn.unwrap()@
                == self@.connections[index_of_id(self@.connections, id.unwrap())],
    {
        match self.get_connection_index_by_id(id) {
            Some(i) => {
                let c = self.connections[i].clone();
                proof {
                    let vs = self@.connections;
                    assert(vs[i as int].id == id.unwrap());
                    let k = index_of_id(vs, id.unwrap());
                    assert(k == i);
                }
                Some(c)
            },
            None => None,
        }
    }

    /// Whether the ports' links have to be rebuilt from the connections.
    pub fn needs_reload(&self) -> (b: bool)
        ensures
            b == self@.reload,
    {
        self.reload
    }

    /// Records that the ports' links were rebuilt.
    pub fn reload_done(&mut self)
        requires
            old(self).wf(),
        ensures
            final(self).wf(),
            final(self)@ == (RegistryView { reload: false, ..old(self)@ }),
    {
        self.reload = false;
    }

    /// The id of the connection that lists `port`, if one does.
    pub fn find_owner(&self, port: PortRef) -> (owner: Option<usize>)
        requires
            self.wf(),
        ensures
            owner == owner_of(self@.connections, port),
    {
        let ghost vs = self@.connections;
        let mut i: usize = 0;
        while i < self.connections.len()
            invariant
                i <= self.connections.len(),
                vs == views(self.connections@),
                valid(vs),
                forall|k: int| 0 <= k < i ==> !(#[trigger] vs[k]).members.contains(port),
            decreases self.connections.len() - i,
        {
            if self.connections[i].contains(port) {
                proof {
                    assert(vs[i as int].members.contains(port));
                    lemma_owner_is_unique(vs, i as int, port);
                }
                return Some(self.connections[i].get_id());
            }
            i += 1;
        }
        None
    }

    /// Lists `port` in the connection `c`. This happens, and `true` is
    /// returned, exactly when `c` exists and no connection lists the port
    /// yet.
    pub fn add_member(&mut self, c: usize, port: PortRef) -> (added: bool)
        requires
            old(self).wf(),
        ensures
            final(self).wf(),
            added == (has_id(old(self)@.connections, c) && !is_wired(
                old(self)@.connections,
                port,
            )),
            final(self)@ == if added {
                RegistryView {
                    connections: with_member(old(self)@.connections, c, port),
                    ..old(self)@
                }
            } else {
                old(self)@
            },
            added ==> owner_of(final(self)@.connections, port) == Some(c),
    {
        if self.find_owner(port).is_some() {
            return false;
        }
        let ghost before = self@.connections;
        match self.get_connection_index_by_id(Some(c)) {
            None => false,
            Some(i) => {
                let added = self.connections[i].add_port(port);
                proof {
                    assert(!before[i as int].members.contains(port));
                    assert(added);
                    let after = views(self.connections@);
                    assert(after[i as int].members == before[i as int].members.push(port));
                    assert(after =~= with_member(before, c, port)) by {
                        assert forall|k: int| 0 <= k < before.len() implies after[k]
                            == with_member(before, c, port)[k] by {
                            if k != i {
                                assert(before[k].id != before[i as int].id);
                            }
                        }
                    }
                    assert forall|a: int, port2: PortRef|
                        0 <= a < after.len() && #[trigger] after[a].members.contains(
                            port2,
                        ) implies (before[a].members.contains(port2) || (a == i && port2
                        == port)) by {
                        if a == i {
                            let m = choose|m: int|
                                0 <= m < after[a].members.len() && after[a].members[m] == port2;
                            if m < before[a].members.len() {
                                assert(before[a].members[m] == port2);
                            }
                        }
                    }
                    assert forall|a: int, b: int, port2: PortRef|
                        0 <= a < after.len() && 0 <= b < after.len()
                            && #[trigger] after[a].members.contains(port2)
                            && #[trigger] after[b].members.contains(port2) implies a == b by {
                        if port2 == port {
                            assert(!before[a].members.contains(port));
                            assert(!before[b].members.contains(port));
                        } else {
                            assert(before[a].members.contains(port2));
                            assert(before[b].members.contains(port2));
                        }
                    }
                    assert forall|a: int, b: int|
                        0 <= a < after.len() && 0 <= b < after.len() && a != b implies (
                    #[trigger] after[a]).id != (#[trigger] after[b]).id by {
                        assert(before[a].id != before[b].id);
                    }
                    assert forall|a: int| 0 <= a < after.len() implies (
                    #[trigger] after[a]).members.no_duplicates() && after[a].id
                        < self.next_id by {
                        assert(before[a].members.no_duplicates());
                        assert(before[a].id < self.next_id);
                    }
                    assert(after[i as int].members.contains(port)) by {
                        assert(after[i as int].members[before[i as int].members.len() as int]
                            == port);
                    }
                    lemma_owner_is_unique(after, i as int, port);
                }
                true
            },
        }
    }

    /// Takes `port` out of the connection that lists it and returns that
    /// connection's id; `None` when no connection lists it.
    pub fn remove_member(&mut self, port: PortRef) -> (owner: Option<usize>)
        requires
            old(self).wf(),
        ensures
            final(self).wf(),
            owner == owner_of(old(self)@.connections, port),
            !is_wired(final(self)@.connections, port),
            final(self)@ == (RegistryView {
                connections: without_member(old(self)@.connections, port),
                ..old(self)@
            }),
    {
        let ghost before = self@.connections;
        let mut owner: Option<usize> = None;
        let mut i: usize = 0;
        while i < self.connections.len()
            invariant
                i <= self.connections.len(),
                self.connections.len() == before.len(),
                self.names == old(self).names,
                self.next_id == old(self).next_id,
                self.current_id == old(self).current_id,
                self.disconnect_mode == old(self).disconnect_mode,
                self.reload == old(self).reload,
                before == old(self)@.connections,
                valid(before),
                forall|k: int|
                    0 <= k < i ==> (#[trigger] views(self.connections@)[k]) == without_member(
                        before,
                        port,
                    )[k],
                forall|k: int|
                    i <= k < before.len() ==> (#[trigger] views(self.connections@)[k])
                        == before[k],
                match owner {
                    Some(c) => exists|k: int|
                        0 <= k < i && (#[trigger] before[k]).id == c && before[k].members.contains(
                            port,
                        ),
                    None => forall|k: int|
                        0 <= k < i ==> !(#[trigger] before[k]).members.contains(port),
                },
            decreases self.connections.len() - i,
        {
            let ghost mid = views(self.connections@);
            assert(mid[i as int] == before[i as int]);
            assert(before[i as int].members.no_duplicates());
            let removed = self.connections[i].remove_port(port);
            if removed {
                owner = Some(self.connections[i].get_id());
                assert(before[i as int].members.contains(port));
            }
            proof {
                let now = views(self.connections@);
                assert(now[i as int] == without_member(before, port)[i as int]);
                assert forall|k: int| 0 <= k < i implies (#[trigger] now[k]) == without_member(
                    before,
                    port,
                )[k] by {
                    assert(now[k] == mid[k]);
                }
                assert forall|k: int| i < k < before.len() implies (#[trigger] now[k])
                    == before[k] by {
                    assert(now[k] == mid[k]);
                }
            }
            i += 1;
        }
        proof {
            let after = views(self.connections@);
            assert(after =~= without_member(before, port));
            lemma_without_member_valid(before, port);
            assert forall|a: int| 0 <= a < after.len() implies (#[trigger] after[a]).id
                < self.next_id by {
                assert(before[a].id < self.next_id);
            }
            match owner {
                Some(c) => {
                    let k = choose|k: int|
                        0 <= k < before.len() && (#[trigger] before[k]).id == c
                            && before[k].members.contains(port);
                    lemma_owner_is_unique(before, k, port);
                },
                None => {},
            }
        }
        owner
    }
}

/// Two valid lists in which the same connections list a port give that port
/// the same owner.
pub proof fn lemma_owner_by_membership(
    a: Seq<ConnectionView>,
    b: Seq<ConnectionView>,
    port: PortRef,
)
    requires
        valid(a),
        valid(b),
        forall|c: usize| #[trigger] has_member(a, c, port) <==> has_member(b, c, port),
    ensures
        owner_of(a, port) == owner_of(b, port),
{
    if is_wired(a, port) {
        let i = choose|i: int| 0 <= i < a.len() && (#[trigger] a[i]).members.contains(port);
        lemma_owner_is_unique(a, i, port);
        assert(has_member(a, a[i].id, port));
        assert(has_member(b, a[i].id, port));
        let j = choose|j: int|
            0 <= j < b.len() && (#[trigger] b[j]).id == a[i].id && b[j].members.contains(port);
        lemma_owner_is_unique(b, j, port);
    } else if is_wired(b, port) {
        let j = choose|j: int| 0 <= j < b.len() && (#[trigger] b[j]).members.contains(port);
        lemma_owner_is_unique(b, j, port);
        assert(has_member(b, b[j].id, port));
        assert(has_member(a, b[j].id, port));
    }
}

/// Adding an unlisted port to a connection of a valid list gives a valid
/// list in which that connection owns the port and every other port has the
/// owner it had.
pub proof fn lemma_with_member_owner(
    conns: Seq<ConnectionView>,
    c: usize,
    port: PortRef,
    other: PortRef,
)
    requires
        valid(conns),
        has_id(conns, c),
        !is_wired(conns, port),
    ensures
        valid(with_member(conns, c, port)),
        owner_of(with_member(conns, c, port), other) == if other == port {
            Some(c)
        } else {
            owner_of(conns, other)
        },
{
    let after = with_member(conns, c, port);
    let i = choose|i: int| 0 <= i < conns.len() && (#[trigger] conns[i]).id == c;
    assert forall|a: int, p: PortRef| 0 <= a < after.len() implies (#[trigger] after[a].members.contains(
        p,
    ) <==> (conns[a].members.contains(p) || (a == i && p == port))) by {
        if conns[a].id == c {
            assert(a == i);
            let old_m = conns[a].members;
            let new_m = after[a].members;
            assert(new_m == old_m.push(port));
            if new_m.contains(p) {
                let m = choose|m: int| 0 <= m < new_m.len() && new_m[m] == p;
                if m < old_m.len() {
                    assert(old_m[m] == p);
                }
            }
            if old_m.contains(p) {
                let m = choose|m: int| 0 <= m < old_m.len() && old_m[m] == p;
                assert(new_m[m] == p);
            }
            if p == port {
                assert(new_m[old_m.len() as int] == p);
            }
        }
    }
    assert forall|a: int| 0 <= a < after.len() implies (
    #[trigger] after[a]).members.no_duplicates() by {
        assert(conns[a].members.no_duplicates());
        if a == i {
            assert(!conns[a].members.contains(port));
            let old_m = conns[a].members;
            let new_m = after[a].members;
            assert forall|x: int, y: int|
                0 <= x < new_m.len() && 0 <= y < new_m.len() && x != y implies new_m[x]
                != new_m[y] by {
                if x < old_m.len() && y < old_m.len() {
                } else if x < old_m.len() {
                    assert(old_m.contains(old_m[x]));
                } else {
                    assert(old_m.contains(old_m[y]));
                }
            }
        }
    }
    assert forall|a: int, b: int| 0 <= a < after.len() && 0 <= b < after.len() && a != b implies (
    #[trigger] after[a]).id != (#[trigger] after[b]).id by {
        assert(conns[a].id != conns[b].id);
    }
    assert forall|a: int, b: int, p: PortRef|
        0 <= a < after.len() && 0 <= b < after.len() && #[trigger] after[a].members.contains(p)
            && #[trigger] after[b].members.contains(p) implies a == b by {
        if p == port {
            assert(!conns[a].members.contains(port));
            assert(!conns[b].members.contains(port));
        } else {
            assert(conns[a].members.contains(p));
            assert(conns[b].members.contains(p));
        }
    }
    if other == port {
        assert(after[i].members.contains(port));
        lemma_owner_is_unique(after, i, port);
    } else {
        assert forall|c2: usize| #[trigger]
            has_member(after, c2, other) <==> has_member(conns, c2, other) by {
            if has_member(after, c2, other) {
                let a = choose|a: int|
                    0 <= a < after.len() && (#[trigger] after[a]).id == c2
                        && after[a].members.contains(other);
                assert(conns[a].id == c2 && conns[a].members.contains(other));
            }
            if has_member(conns, c2, other) {
                let a = choose|a: int|
                    0 <= a < conns.len() && (#[trigger] conns[a]).id == c2
                        && conns[a].members.contains(other);
                assert(after[a].id == c2 && after[a].members.contains(other));
            }
        }
        lemma_owner_by_membership(after, conns, other);
    }
}

/// Taking a port out of every connection of a valid list leaves that port
/// without owner and every other port with the owner it had.
pub proof fn lemma_without_member_owner(conns: Seq<ConnectionView>, port: PortRef, other: PortRef)
    requires
        valid(conns),
    ensures
        valid(without_member(conns, port)),
        owner_of(without_member(conns, port), other) == if other == port {
            None
        } else {
            owner_of(conns, other)
        },
{
    let after = without_member(conns, port);
    lemma_without_member_valid(conns, port);
    if other != port {
        assert forall|c2: usize| #[trigger]
            has_member(after, c2, other) <==> has_member(conns, c2, other) by {
            if has_member(after, c2, other) {
                let a = choose|a: int|
                    0 <= a < after.len() && (#[trigger] after[a]).id == c2
                        && after[a].members.contains(other);
                lemma_without_contains(conns[a].members, port, other);
                assert(conns[a].id == c2 && conns[a].members.contains(other));
            }
            if has_member(conns, c2, other) {
                let a = choose|a: int|
                    0 <= a < conns.len() && (#[trigger] conns[a]).id == c2
                        && conns[a].members.contains(other);
                lemma_without_contains(conns[a].members, port, other);
                assert(after[a].id == c2 && after[a].members.contains(other));
            }
        }
        lemma_owner_by_membership(after, conns, other);
    }
}

/// A new, empty connection changes no port's owner.
pub proof fn lemma_push_owner(conns: Seq<ConnectionView>, id: usize, other: PortRef)
    requires
        valid(conns),
        !has_id(conns, id),
    ensures
        valid(conns.push(ConnectionView { id, members: Seq::empty() })),
        owner_of(conns.push(ConnectionView { id, members: Seq::empty() }), other) == owner_of(
            conns,
            other,
        ),
{
    let after = conns.push(ConnectionView { id, members: Seq::empty() });
    let n = conns.len() as int;
    assert forall|a: int| 0 <= a < after.len() implies (
    #[trigger] after[a]).members.no_duplicates() by {
        if a < n {
            assert(conns[a].members.no_duplicates());
        }
    }
    assert forall|a: int, b: int| 0 <= a < after.len() && 0 <= b < after.len() && a != b implies (
    #[trigger] after[a]).id != (#[trigger] after[b]).id by {
        if a < n && b < n {
            assert(conns[a].id != conns[b].id);
        } else if a < n {
            assert(conns[a].id != id);
        } else {
            assert(conns[b].id != id);
        }
    }
    assert forall|a: int, b: int, p: PortRef|
        0 <= a < after.len() && 0 <= b < after.len() && #[trigger] after[a].members.contains(p)
            && #[trigger] after[b].members.contains(p) implies a == b by {
        assert(a < n && b < n);
        assert(conns[a].members.contains(p));
        assert(conns[b].members.contains(p));
    }
    assert forall|c2: usize| #[trigger]
        has_member(after, c2, other) <==> has_member(conns, c2, other) by {
        if has_member(after, c2, other) {
            let a = choose|a: int|
                0 <= a < after.len() && (#[trigger] after[a]).id == c2 && after[a].members.contains(
                    other,
                );
            assert(a < n);
            assert(conns[a].id == c2 && conns[a].members.contains(other));
        }
        if has_member(conns, c2, other) {
            let a = choose|a: int|
                0 <= a < conns.len() && (#[trigger] conns[a]).id == c2 && conns[a].members.contains(
                    other,
                );
            assert(after[a].id == c2 && after[a].members.contains(other));
        }
    }
    lemma_owner_by_membership(after, conns, other);
}

/// What is left of a sequence after a value is taken out: the other values,
/// each as often as before.
pub proof fn lemma_without_contains(s: Seq<PortRef>, port: PortRef, other: PortRef)
    ensures
        without(s, port).contains(other) <==> (s.contains(other) && other != port),
        s.no_duplicates() ==> without(s, port).no_duplicates(),
    decreases s.len(),
{
    if s.len() > 0 {
        let rest = s.drop_last();
        lemma_without_contains(rest, port, other);
        let w = without(rest, port);
        if s.contains(other) && other != port {
            let a = choose|a: int| 0 <= a < s.len() && s[a] == other;
            if a < rest.len() {
                assert(rest[a] == other);
                assert(rest.contains(other));
                if s.last() != port {
                    let b = choose|b: int| 0 <= b < w.len() && w[b] == other;
                    assert(w.push(s.last())[b] == other);
                }
            } else {
                assert(s.last() == other);
                assert(w.push(s.last())[w.len() as int] == other);
            }
        }
        if without(s, port).contains(other) {
            let ws = without(s, port);
            let b = choose|b: int| 0 <= b < ws.len() && ws[b] == other;
            if s.last() == port {
                assert(w.contains(other));
                let a = choose|a: int| 0 <= a < rest.len() && rest[a] == other;
                assert(s[a] == other);
            } else if b < w.len() {
                assert(w[b] == other);
                assert(w.contains(other));
                let a = choose|a: int| 0 <= a < rest.len() && rest[a] == other;
                assert(s[a] == other);
            } else {
                assert(s[s.len() - 1] == other);
            }
        }
        if s.no_duplicates() {
            assert(rest.no_duplicates());
            if s.last() != port {
                let last = s.last();
                lemma_without_contains(rest, port, last);
                assert(!rest.contains(last)) by {
                    if rest.contains(last) {
                        let a = choose|a: int| 0 <= a < rest.len() && rest[a] == last;
                        assert(s[a] == s[s.len() - 1]);
                    }
                }
                assert(!w.contains(last));
                assert forall|a: int, b: int|
                    0 <= a < w.len() + 1 && 0 <= b < w.len() + 1 && a != b implies w.push(last)[a]
                    != w.push(last)[b] by {
                    if a < w.len() && b < w.len() {
                    } else if a < w.len() {
                        assert(w.contains(w[a]));
                    } else {
                        assert(w.contains(w[b]));
                    }
                }
            }
        }
    }
}

/// Taking a port out of every connection keeps a valid list valid and leaves
/// the port listed nowhere.
pub proof fn lemma_without_member_valid(conns: Seq<ConnectionView>, port: PortRef)
    requires
        valid(conns),
    ensures
        valid(without_member(conns, port)),
        !is_wired(without_member(conns, port), port),
{
    let after = without_member(conns, port);
    assert forall|a: int| 0 <= a < after.len() implies (
    #[trigger] after[a]).members.no_duplicates() by {
        lemma_without_contains(conns[a].members, port, port);
        assert(conns[a].members.no_duplicates());
    }
    assert forall|a: int, b: int| 0 <= a < after.len() && 0 <= b < after.len() && a != b implies (
    #[trigger] after[a]).id != (#[trigger] after[b]).id by {
        assert(conns[a].id != conns[b].id);
    }
    assert forall|a: int, b: int, other: PortRef|
        0 <= a < after.len() && 0 <= b < after.len() && #[trigger] after[a].members.contains(other)
            && #[trigger] after[b].members.contains(other) implies a == b by {
        lemma_without_contains(conns[a].members, port, other);
        lemma_without_contains(conns[b].members, port, other);
        assert(conns[a].members.contains(other));
        assert(conns[b].members.contains(other));
    }
    assert forall|a: int| 0 <= a < after.len() implies !(#[trigger] after[a]).members.contains(
        port,
    ) by {
        lemma_without_contains(conns[a].members, port, port);
    }
}

} // verus!
