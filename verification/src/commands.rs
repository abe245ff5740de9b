//! The device operations as the application shell invokes them, each one
//! whole: the shell holds the handler behind one exclusive lock for the
//! duration of a call, so these compositions run without interleaving.

use vstd::prelude::*;

use crate::channel::ConnectError;
use crate::channel::WriteError;
use crate::channel::connect_trans;
use crate::channel::close_trans;
use crate::channel::write_trans;
use crate::codec::command_bytes;
use crate::handler::SerialHandler;

verus! {

/// Encodes and sends one activation command; simulated success while
/// disconnected, device outcome while connected.
pub fn send_target_command(serial: &mut SerialHandler, node_id: i32, state: bool) -> (r: Result<
    (),
    WriteError,
>)
    ensures
        final(serial)@ == write_trans(old(serial)@, command_bytes(node_id as int, state)),
        !old(serial)@.open ==> r is Ok,
{
    serial.send_command(node_id, state)
}

/// Connects to `port`: any prior handle is closed first, then the handler
/// is reconfigured and the new port opened, so two channels are never
/// open at once. On failure the handler is left disconnected.
pub fn connect_serial(serial: &mut SerialHandler, port: String) -> (r: Result<(), ConnectError>)
    ensures
        final(serial)@ == connect_trans(old(serial)@, port@, r is Ok),
{
    serial.disconnect();
    serial.set_port(port);
    let r = serial.connect();
    proof {
        assert(final(serial)@ =~= connect_trans(old(serial)@, port@, r is Ok));
    }
    r
}

/// Closes the connection; always succeeds, idempotent.
pub fn disconnect_serial(serial: &mut SerialHandler)
    ensures
        final(serial)@ == close_trans(old(serial)@),
{
    serial.disconnect();
}

/// Whether a connection is currently open.
pub fn is_serial_connected(serial: &SerialHandler) -> (r: bool)
    ensures
        r == serial@.open,
{
    serial.is_connected()
}

} // verus!
