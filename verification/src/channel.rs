//! Device channel: owns at most one open serial handle and the last
//! configured port name. While no handle is open, writes degrade to a
//! simulated no-op success, so the control surface stays usable with no
//! physical device attached.

use vstd::prelude::*;

verus! {

/// Failure to open the named port: the underlying OS or device error,
/// surfaced as a descriptive message. Never retried automatically.
#[derive(Debug, Clone)]
pub struct ConnectError {
    pub message: String,
}

/// I/O failure during an open-channel write (device removed, timeout
/// exceeded). The channel is not closed on a write failure: callers may
/// retry or disconnect explicitly.
#[derive(Debug, Clone)]
pub struct WriteError {
    pub message: String,
}

/// Abstract state of the channel: whether a handle is open, the configured
/// port name, and the log of payloads handed to the transport so far. Each
/// log entry is one whole payload, handed over in a single call, so the
/// log also records that payload bytes are never interleaved.
#[verifier::ext_equal]
pub ghost struct ChanView {
    pub open: bool,
    pub port: Seq<char>,
    pub log: Seq<Seq<u8>>,
}

/// State after recording a new target port name: nothing is opened or
/// closed by configuring.
pub open spec fn configure_trans(v: ChanView, port: Seq<char>) -> ChanView {
    ChanView { port: port, ..v }
}

/// State after an open attempt on the configured port: open on success,
/// closed on failure; the configured name and the log are untouched.
pub open spec fn open_trans(v: ChanView, ok: bool) -> ChanView {
    ChanView { open: ok, ..v }
}

/// State after closing: never fails, and from any state the result is the
/// same closed channel, so closing is idempotent.
pub open spec fn close_trans(v: ChanView) -> ChanView {
    ChanView { open: false, ..v }
}

/// State after one write: with a handle open, the whole payload is handed
/// to the transport as one log entry; with none open, the write is
/// simulated and nothing reaches the wire.
pub open spec fn write_trans(v: ChanView, payload: Seq<u8>) -> ChanView {
    if v.open {
        ChanView { log: v.log.push(payload), ..v }
    } else {
        v
    }
}

/// State after a whole connect operation (close any prior handle,
/// reconfigure, attempt to open): only the latest attempt's port and
/// outcome are live, whatever was open before.
pub open spec fn connect_trans(v: ChanView, port: Seq<char>, ok: bool) -> ChanView {
    ChanView { open: ok, port: port, log: v.log }
}

#[verifier::external_type_specification]
#[verifier::external_body]
pub struct ExTTYPort(serialport::TTYPort);

/// Relies on serialport::new / SerialPortBuilder::open_native: opens the
/// named port at 115200 baud with a 1000 ms I/O timeout, or reports the
/// underlying OS error. Whether it succeeds depends on the host, so
/// nothing is promised of the outcome.
#[verifier::external_body]
fn open_port(port_name: &String) -> Result<serialport::TTYPort, ConnectError> {
    match serialport::new(port_name.as_str(), 115200)
        .timeout(std::time::Duration::from_millis(1000))
        .open_native()
    {
        Ok(port) => Ok(port),
        Err(e) => Err(ConnectError { message: format!("Failed to open port: {}", e) }),
    }
}

/// Relies on std::io::Write::write_all (serialport::TTYPort implements
/// std::io::Write): writes the whole payload, or reports the first I/O
/// error. The outcome depends on the device, so nothing is promised of it.
#[verifier::external_body]
fn write_port(port: &mut serialport::TTYPort, payload: &Vec<u8>) -> Result<(), WriteError> {
    match std::io::Write::write_all(port, payload.as_slice()) {
        Ok(()) => Ok(()),
        Err(e) => Err(WriteError { message: format!("Failed to write: {}", e) }),
    }
}

/// Zero-or-one open serial handle plus the last configured port name.
/// The ghost log records every payload handed to the open transport.
pub struct DeviceChannel {
    handle: Option<serialport::TTYPort>,
    port_name: String,
    history: Ghost<Seq<Seq<u8>>>,
}

impl View for DeviceChannel {
    type V = ChanView;

    closed spec fn view(&self) -> ChanView {
        ChanView {
            open: self.handle is Some,
            port: self.port_name@,
            log: self.history@,
        }
    }
}

impl DeviceChannel {
    /// A fresh channel: closed, configured for `port_name`, nothing sent.
    pub fn new(port_name: String) -> (r: DeviceChannel)
        ensures
            r@ == (ChanView { open: false, port: port_name@, log: Seq::<Seq<u8>>::empty() }),
    {
        DeviceChannel { handle: None, port_name, history: Ghost(Seq::empty()) }
    }

    /// Records the target port name; opens nothing.
    pub fn configure(&mut self, port_name: String)
        ensures
            final(self)@ == configure_trans(old(self)@, port_name@),
    {
        self.port_name = port_name;
    }

    /// Attempts to open the configured port. On success the handle is
    /// stored; on failure the channel is left with no open handle. Never
    /// panics, never retries.
    pub fn open(&mut self) -> (r: Result<(), ConnectError>)
        ensures
            final(self)@ == open_trans(old(self)@, r is Ok),
    {
        match open_port(&self.port_name) {
            Ok(port) => {
                self.handle = Some(port);
                Ok(())
            }
            Err(e) => {
                self.handle = None;
                Err(e)
            }
        }
    }

    /// Drops any open handle; always succeeds, idempotent.
    pub fn close(&mut self)
        ensures
            final(self)@ == close_trans(old(self)@),
    {
        self.handle = None;
    }

    /// Writes the payload whole through the open handle, or simulates the
    /// write when no handle is open. A simulated write succeeds and hands
    /// nothing to the wire; a real write hands the transport exactly one
    /// entry, the whole payload, whether or not the device then reports an
    /// error. A write failure does not close the channel.
    pub fn write(&mut self, payload: &Vec<u8>) -> (r: Result<(), WriteError>)
        ensures
            final(self)@ == write_trans(old(self)@, payload@),
            !old(self)@.open ==> r is Ok,
    {
        match &mut self.handle {
            Some(port) => {
                let res = write_port(port, payload);
                self.history = Ghost(self.history@.push(payload@));
                res
            }
            None => Ok(()),
        }
    }

    /// Whether a handle is currently open; no side effects.
    pub fn is_open(&self) -> (r: bool)
        ensures
            r == self@.open,
    {
        self.handle.is_some()
    }
}

} // verus!
