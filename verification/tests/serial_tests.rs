use shooting_range::commands::connect_serial;
use shooting_range::commands::disconnect_serial;
use shooting_range::commands::is_serial_connected;
use shooting_range::commands::send_target_command;
use shooting_range::handler::SerialHandler;

use serialport::SerialPort;
use std::io::Read;

#[test]
fn device_absent_connect_fails_send_simulates() {
    let mut handler = SerialHandler::new(String::from("COM-NONE"));
    let outcome = connect_serial(&mut handler, String::from("COM-NONE"));
    assert!(outcome.is_err());
    assert!(!is_serial_connected(&handler));
    // A send while disconnected succeeds in simulated mode: no error,
    // no bytes transmitted.
    assert!(send_target_command(&mut handler, 3, true).is_ok());
    assert!(!is_serial_connected(&handler));
}

#[test]
fn disconnect_is_idempotent() {
    let mut handler = SerialHandler::new(String::from("COM-NONE"));
    disconnect_serial(&mut handler);
    assert!(!is_serial_connected(&handler));
    disconnect_serial(&mut handler);
    assert!(!is_serial_connected(&handler));
}

#[test]
fn latest_connect_attempt_wins() {
    let mut handler = SerialHandler::new(String::from("COM-A"));
    let first = connect_serial(&mut handler, String::from("COM-A"));
    assert!(first.is_err());
    let second = connect_serial(&mut handler, String::from("COM-B"));
    assert!(second.is_err());
    // Only the latest attempt's outcome is reflected; both failed here,
    // so nothing is open.
    assert!(!is_serial_connected(&handler));
}

#[test]
fn loopback_sequential_sends_never_interleave() {
    let (mut master, slave) = serialport::TTYPort::pair().expect("pseudo-terminal pair");
    let slave_name = slave.name().expect("slave port name");
    drop(slave);

    let mut handler = SerialHandler::new(slave_name.clone());
    connect_serial(&mut handler, slave_name).expect("open loopback port");
    send_target_command(&mut handler, 7, false).expect("first send");
    send_target_command(&mut handler, 3, true).expect("second send");

    let mut seen: Vec<u8> = Vec::new();
    let mut buf = [0u8; 64];
    while seen.len() < 15 {
        match master.read(&mut buf) {
            Ok(n) if n > 0 => seen.extend_from_slice(&buf[..n]),
            _ => break,
        }
    }
    // Each payload arrives whole and in order, one line per send.
    assert_eq!(seen, b"7,false\n3,true\n".to_vec());
}

#[test]
fn failed_then_successful_connect_reflects_latest_attempt() {
    let (_master, slave) = serialport::TTYPort::pair().expect("pseudo-terminal pair");
    let slave_name = slave.name().expect("slave port name");
    drop(slave);

    let mut handler = SerialHandler::new(String::from("COM-NONE"));
    assert!(connect_serial(&mut handler, String::from("COM-NONE")).is_err());
    assert!(!is_serial_connected(&handler));
    connect_serial(&mut handler, slave_name).expect("open loopback port");
    assert!(is_serial_connected(&handler));
}

#[test]
fn loopback_send_writes_exact_line_then_simulates_after_disconnect() {
    // A pseudo-terminal pair stands in for the device: the library opens
    // the slave end by name, and the master end observes the wire.
    let (mut master, slave) = serialport::TTYPort::pair().expect("pseudo-terminal pair");
    let slave_name = slave.name().expect("slave port name");
    drop(slave);

    let mut handler = SerialHandler::new(slave_name.clone());
    connect_serial(&mut handler, slave_name).expect("open loopback port");
    assert!(is_serial_connected(&handler));

    send_target_command(&mut handler, 7, false).expect("send over loopback");

    let mut seen: Vec<u8> = Vec::new();
    let mut buf = [0u8; 64];
    while seen.len() < 8 {
        match master.read(&mut buf) {
            Ok(n) if n > 0 => seen.extend_from_slice(&buf[..n]),
            _ => break,
        }
    }
    assert_eq!(seen, b"7,false\n".to_vec());

    disconnect_serial(&mut handler);
    assert!(!is_serial_connected(&handler));
    // After disconnecting, the same send succeeds as simulated and the
    // wire sees nothing further.
    send_target_command(&mut handler, 7, false).expect("simulated send");
    assert!(matches!(master.read(&mut buf), Err(_) | Ok(0)));
}
