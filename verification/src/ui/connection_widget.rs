//! One entry of the list of connections, with buttons to select, rename
//! and remove the connection.

use crate::components::connection::{Connection, ConnectionView};
use crate::storage::connections_manager::{ConnectionManager, RegistryView};
use vstd::prelude::*;

verus! {

/// What a click on the connect button of a connection's entry does to the
/// cursor: it selects the connection, or clears the cursor when the
/// connection is selected already.
pub open spec fn cursor_after_click(current: Option<usize>, id: usize) -> Option<usize> {
    if current == Some(id) {
        None
    } else {
        Some(id)
    }
}

pub struct ConnectionWidget {
    conn: Connection,
}

impl ConnectionWidget {
    pub closed spec fn connection(&self) -> ConnectionView {
        self.conn@
    }

    pub fn new(conn: Connection) -> (w: ConnectionWidget)
        ensures
            w.connection() == conn@,
    {
        ConnectionWidget { conn }
    }

    pub fn get_id(&self) -> (id: usize)
        ensures
            id == self.connection().id,
    {
        self.conn.get_id()
    }

    /// The connection's display name, empty where none is recorded.
    pub fn name(&self, registry: &ConnectionManager) -> (name: String)
        ensures
            name@ == if registry@.names.contains_key(self.connection().id) {
                registry@.names[self.connection().id]
            } else {
                Seq::empty()
            },
    {
        match registry.get_name(self.conn.get_id()) {
            Some(name) => name,
            None => String::new(),
        }
    }

    /// Whether this connection is under the cursor, so that its button
    /// offers to stop connecting.
    pub fn is_selected(&self, registry: &ConnectionManager) -> (b: bool)
        ensures
            b == (registry@.current_id == Some(self.connection().id)),
    {
        match registry.get_current_id() {
            Some(c) => c == self.conn.get_id(),
            None => false,
        }
    }

    /// A click on the connect button.
    pub fn click_connect(&self, registry: &mut ConnectionManager)
        requires
            old(registry).wf(),
        ensures
            final(registry).wf(),
            final(registry)@ == (RegistryView {
                current_id: cursor_after_click(old(registry)@.current_id, self.connection().id),
                disconnect_mode: false,
                ..old(registry)@
            }),
    {
        if self.is_selected(registry) {
            registry.set_current_id(None);
        } else {
            registry.set_current_id(Some(self.conn.get_id()));
        }
    }
}

} // verus!
