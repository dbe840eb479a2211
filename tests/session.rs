use tcp2udp::bridge::{Bridge, BridgeAction, Direction};
use tcp2udp::deframe::{Deframer, PumpStep};
use tcp2udp::frame::encode_frame;
use tcp2udp::startup::{next_startup_step, StartupStep};
use tcp2udp::{SessionError, Tcp2UdpError};

#[test]
fn first_stopped_pump_cancels_the_other() {
    let mut b = Bridge::new();
    assert!(b.is_running(Direction::StreamToDatagram));
    assert!(b.is_running(Direction::DatagramToStream));
    let a = b.on_pump_stopped(Direction::DatagramToStream, Err(SessionError::Transport));
    assert!(matches!(a, BridgeAction::Cancel(Direction::StreamToDatagram)));
    assert!(!b.is_finished());
    let a = b.on_pump_stopped(Direction::StreamToDatagram, Ok(()));
    assert!(matches!(a, BridgeAction::Finish(Err(SessionError::Transport))));
    assert!(b.is_finished());
}

#[test]
fn clean_close_finishes_ok() {
    let mut b = Bridge::new();
    let a = b.on_pump_stopped(Direction::StreamToDatagram, Ok(()));
    assert!(matches!(a, BridgeAction::Cancel(Direction::DatagramToStream)));
    let a = b.on_pump_stopped(Direction::DatagramToStream, Err(SessionError::Transport));
    assert!(matches!(a, BridgeAction::Finish(Ok(()))));
}

#[test]
fn oversized_datagram_ends_only_its_session() {
    let mut a = Bridge::new();
    let mut b = Bridge::new();
    let big = vec![0u8; 70000];
    let err = encode_frame(&big).unwrap_err();
    assert_eq!(err, SessionError::FrameTooLarge);
    let act = a.on_pump_stopped(Direction::DatagramToStream, Err(err));
    assert!(matches!(act, BridgeAction::Cancel(Direction::StreamToDatagram)));
    assert!(b.is_running(Direction::DatagramToStream));
    assert_eq!(encode_frame(&[1, 2]).unwrap(), vec![0, 2, 1, 2]);
    let act = b.on_pump_stopped(Direction::StreamToDatagram, Ok(()));
    assert!(matches!(act, BridgeAction::Cancel(Direction::DatagramToStream)));
}

#[test]
fn error_in_one_session_leaves_another_relaying() {
    let mut bridge_a = Bridge::new();
    let mut pump_a = Deframer::new();
    let bridge_b = Bridge::new();
    let mut pump_b = Deframer::new();

    assert!(matches!(pump_a.on_read(&[0, 3, 1]), Ok(PumpStep::Forward(_))));
    let act = bridge_a.on_pump_stopped(Direction::DatagramToStream, Err(SessionError::Transport));
    assert!(matches!(act, BridgeAction::Cancel(Direction::StreamToDatagram)));
    assert!(matches!(pump_a.on_read(&[]), Err(SessionError::TruncatedFrame)));

    assert!(bridge_b.is_running(Direction::StreamToDatagram));
    assert!(bridge_b.is_running(Direction::DatagramToStream));
    match pump_b.on_read(&[0, 2, 5, 6, 0, 0]) {
        Ok(PumpStep::Forward(v)) => assert_eq!(v, vec![vec![5u8, 6], vec![]]),
        _ => panic!("session B stopped relaying"),
    }
}

#[test]
fn startup_without_addresses_fails() {
    assert_eq!(
        next_startup_step(0, &vec![]),
        StartupStep::Abort(Tcp2UdpError::NoTcpListenAddrs)
    );
}

#[test]
fn startup_binds_each_address_then_serves() {
    assert_eq!(next_startup_step(2, &vec![]), StartupStep::Bind(0));
    assert_eq!(next_startup_step(2, &vec![true]), StartupStep::Bind(1));
    assert_eq!(next_startup_step(2, &vec![true, true]), StartupStep::Serve);
}

#[test]
fn startup_fails_if_one_address_is_in_use() {
    assert_eq!(
        next_startup_step(2, &vec![true, false]),
        StartupStep::Abort(Tcp2UdpError::ListenerBind { index: 1 })
    );
    assert_eq!(
        next_startup_step(2, &vec![false]),
        StartupStep::Abort(Tcp2UdpError::ListenerBind { index: 0 })
    );
}

#[test]
fn error_descriptions() {
    assert_eq!(
        Tcp2UdpError::NoTcpListenAddrs.description(),
        "Invalid options, no TCP listen addresses"
    );
    assert_eq!(
        Tcp2UdpError::ListenerBind { index: 3 }.description(),
        "Failed to bind a TCP listening socket"
    );
}
