//! Control handle: the single point of entry for device operations. Each
//! operation takes the handler exclusively (`&mut self`), so its effects
//! are atomic end-to-end; callers that share one handler across threads
//! put it behind one lock covering the whole operation.

use vstd::prelude::*;

use crate::channel::ChanView;
use crate::channel::ConnectError;
use crate::channel::DeviceChannel;
use crate::channel::WriteError;
use crate::channel::close_trans;
use crate::channel::configure_trans;
use crate::channel::connect_trans;
use crate::channel::open_trans;
use crate::channel::write_trans;
use crate::codec::command_bytes;

verus! {

/// Concurrency-safe facade over the device channel: connect, disconnect,
/// send, and a status query, with no state beyond the channel's
/// two-state connection lifecycle.
pub struct SerialHandler {
    channel: DeviceChannel,
}

impl View for SerialHandler {
    type V = ChanView;

    closed spec fn view(&self) -> ChanView {
        self.channel@
    }
}

impl SerialHandler {
    /// A fresh handler: disconnected, configured for `port_name`.
    pub fn new(port_name: String) -> (r: SerialHandler)
        ensures
            r@ == (ChanView { open: false, port: port_name@, log: Seq::<Seq<u8>>::empty() }),
    {
        SerialHandler { channel: DeviceChannel::new(port_name) }
    }

    /// Attempts to open the configured port; on failure the handler is
    /// left disconnected. The error is surfaced as-is, never retried.
    pub fn connect(&mut self) -> (r: Result<(), ConnectError>)
        ensures
            final(self)@ == open_trans(old(self)@, r is Ok),
    {
        self.channel.open()
    }

    /// Records a new target port name without touching the connection.
    pub fn set_port(&mut self, port_name: String)
        ensures
            final(self)@ == configure_trans(old(self)@, port_name@),
    {
        self.channel.configure(port_name)
    }

    /// Encodes the request through the wire codec and writes it through
    /// the channel: while connected the wire receives exactly the encoded
    /// payload as one atomic entry; while disconnected the send is
    /// simulated, succeeds, and transmits nothing.
    pub fn send_command(&mut self, node_id: i32, state: bool) -> (r: Result<(), WriteError>)
        ensures
            final(self)@ == write_trans(old(self)@, command_bytes(node_id as int, state)),
            !old(self)@.open ==> r is Ok,
    {
        let payload = crate::codec::encode_command(node_id, state);
        self.channel.write(&payload)
    }

    /// Closes the channel unconditionally; always succeeds.
    pub fn disconnect(&mut self)
        ensures
            final(self)@ == close_trans(old(self)@),
    {
        self.channel.close()
    }

    /// Whether a connection is currently open; no side effects.
    pub fn is_connected(&self) -> (r: bool)
        ensures
            r == self@.open,
    {
        self.channel.is_open()
    }
}

/// Disconnecting is idempotent: a second disconnect from any state yields
/// the same disconnected channel as the first, and neither can fail since
/// `disconnect` returns nothing.
pub proof fn lemma_disconnect_idempotent(v: ChanView)
    ensures
        close_trans(close_trans(v)) == close_trans(v),
        !close_trans(v).open,
{
    assert(close_trans(close_trans(v)) =~= close_trans(v));
}

/// Two connect operations in a row never leave two channels live: the
/// second connect's port and outcome fully determine the state, whatever
/// the first attempt did, and the handler reports open exactly when the
/// latest attempt succeeded.
pub proof fn lemma_latest_connect_wins(
    v: ChanView,
    port_a: Seq<char>,
    ok_a: bool,
    port_b: Seq<char>,
    ok_b: bool,
)
    ensures
        connect_trans(connect_trans(v, port_a, ok_a), port_b, ok_b) == connect_trans(
            v,
            port_b,
            ok_b,
        ),
        connect_trans(connect_trans(v, port_a, ok_a), port_b, ok_b).open == ok_b,
{
    assert(connect_trans(connect_trans(v, port_a, ok_a), port_b, ok_b) =~= connect_trans(
        v,
        port_b,
        ok_b,
    ));
}

/// After a failed connect the handler is disconnected, and a subsequent
/// send is simulated: it changes nothing and nothing reaches the wire.
/// `send_command`'s own contract adds that such a send returns success.
pub proof fn lemma_send_after_failed_connect(v: ChanView, port: Seq<char>, payload: Seq<u8>)
    ensures
        !connect_trans(v, port, false).open,
        write_trans(connect_trans(v, port, false), payload) == connect_trans(v, port, false),
{
}

/// Each write is atomic end-to-end: a connected write appends the whole
/// payload to the wire log as a single entry, and a disconnected write
/// appends nothing, so payload bytes from distinct sends never interleave.
pub proof fn lemma_write_atomic(v: ChanView, payload: Seq<u8>)
    ensures
        v.open ==> write_trans(v, payload).log == v.log.push(payload),
        !v.open ==> write_trans(v, payload).log == v.log,
{
}

} // verus!
