use std::io::{Error, ErrorKind};

use bytes::Bytes;
use mesh_network::addr::Ipv4Addr;
use mesh_network::channel::SendOutcome;
use mesh_network::tun::{
    classify_error_kind, classify_tun_error, device_name, report_error_kind, worker_tun_reader,
    worker_tun_writer, ReaderInput, ReaderStep, Tun, TunAction, TunEvent, TunInput, TunState,
    WriterInput, WriterStep,
};

#[test]
fn test_classify_tun_error() {
    let err_block = Error::from(ErrorKind::WouldBlock);
    let action = classify_tun_error(&err_block);
    assert!(matches!(action, TunEvent::DropPacket));

    let err_pipe = Error::from(ErrorKind::BrokenPipe);
    let action = classify_tun_error(&err_pipe);
    assert!(matches!(action, TunEvent::ReconnectRequired));

    let err_perm = Error::from(ErrorKind::PermissionDenied);
    let action = classify_tun_error(&err_perm);
    if !matches!(action, TunEvent::FatalError) {
        panic!("Expected FatalError");
    }
}

fn fails(kind: ErrorKind) -> Error {
    Error::from(kind)
}

#[test]
fn kinds_of_error_are_classified() {
    for kind in [
        ErrorKind::WouldBlock,
        ErrorKind::Interrupted,
        ErrorKind::WriteZero,
        ErrorKind::InvalidData,
        ErrorKind::UnexpectedEof,
        ErrorKind::TimedOut,
    ] {
        assert!(matches!(classify_error_kind(kind), TunEvent::DropPacket));
        assert!(report_error_kind(kind).is_none());
    }
    for kind in [
        ErrorKind::NetworkDown,
        ErrorKind::BrokenPipe,
        ErrorKind::StaleNetworkFileHandle,
        ErrorKind::NotConnected,
        ErrorKind::ConnectionReset,
        ErrorKind::ConnectionAborted,
    ] {
        assert!(matches!(classify_error_kind(kind), TunEvent::ReconnectRequired));
        assert!(matches!(report_error_kind(kind), Some(TunEvent::ReconnectRequired)));
    }
    for kind in [
        ErrorKind::PermissionDenied,
        ErrorKind::NotFound,
        ErrorKind::AlreadyExists,
        ErrorKind::InvalidInput,
        ErrorKind::ResourceBusy,
        ErrorKind::AddrInUse,
        ErrorKind::Unsupported,
        ErrorKind::Other,
        ErrorKind::OutOfMemory,
    ] {
        assert!(matches!(classify_error_kind(kind), TunEvent::FatalError));
        assert!(matches!(report_error_kind(kind), Some(TunEvent::FatalError)));
    }
}

#[test]
fn reader_forwards_what_was_read() {
    let buf = [1u8, 2, 3, 4];
    match worker_tun_reader(ReaderInput::Read(Ok(3)), &buf) {
        ReaderStep::Forward(packet) => assert_eq!(&packet[..], &[1, 2, 3]),
        step => panic!("{:?}", step),
    }
    match worker_tun_reader(ReaderInput::Read(Ok(4)), &buf) {
        ReaderStep::Forward(packet) => assert_eq!(&packet[..], &buf),
        step => panic!("{:?}", step),
    }
}

#[test]
fn reader_ends_with_its_device_or_its_channel() {
    let step = worker_tun_reader(ReaderInput::Read(Ok(0)), &[]);
    assert!(matches!(step, ReaderStep::End(TunEvent::ReconnectRequired)));
    let step = worker_tun_reader(ReaderInput::Read(Err(fails(ErrorKind::BrokenPipe))), &[]);
    assert!(matches!(step, ReaderStep::End(TunEvent::ReconnectRequired)));
    let step = worker_tun_reader(ReaderInput::Read(Err(fails(ErrorKind::NotFound))), &[]);
    assert!(matches!(step, ReaderStep::End(TunEvent::FatalError)));
    let step = worker_tun_reader(ReaderInput::Read(Err(fails(ErrorKind::TimedOut))), &[]);
    assert!(matches!(step, ReaderStep::Continue));
    let step = worker_tun_reader(ReaderInput::Forwarded(SendOutcome::Closed), &[]);
    assert!(matches!(step, ReaderStep::End(TunEvent::FatalError)));
    let step = worker_tun_reader(ReaderInput::Forwarded(SendOutcome::Full), &[]);
    assert!(matches!(step, ReaderStep::Continue));
    let step = worker_tun_reader(ReaderInput::Forwarded(SendOutcome::Sent), &[]);
    assert!(matches!(step, ReaderStep::Continue));
    match worker_tun_reader(ReaderInput::StopSignal, &[]) {
        ReaderStep::End(TunEvent::Info(text)) => assert_eq!(text, "nothing"),
        step => panic!("{:?}", step),
    }
}

#[test]
fn writer_writes_what_it_receives() {
    let packet = Bytes::from_static(b"packet");
    match worker_tun_writer(WriterInput::Received(Some(packet.clone()))) {
        WriterStep::Write(written) => assert_eq!(written, packet),
        step => panic!("{:?}", step),
    }
    assert!(matches!(worker_tun_writer(WriterInput::Written(Ok(6))), WriterStep::Continue));
}

#[test]
fn writer_ends_with_its_device_or_its_channel() {
    let step = worker_tun_writer(WriterInput::Received(None));
    assert!(matches!(step, WriterStep::End(TunEvent::FatalError)));
    let step = worker_tun_writer(WriterInput::Written(Err(fails(ErrorKind::NetworkDown))));
    assert!(matches!(step, WriterStep::End(TunEvent::ReconnectRequired)));
    let step = worker_tun_writer(WriterInput::Written(Err(fails(ErrorKind::WriteZero))));
    assert!(matches!(step, WriterStep::Continue));
    let step = worker_tun_writer(WriterInput::Written(Err(fails(ErrorKind::Other))));
    assert!(matches!(step, WriterStep::End(TunEvent::FatalError)));
    match worker_tun_writer(WriterInput::StopSignal) {
        WriterStep::End(TunEvent::Info(text)) => assert_eq!(text, "nothing"),
        step => panic!("{:?}", step),
    }
}

fn device() -> Tun {
    Tun::new("tun7", 1400, Ipv4Addr::new(10, 67, 1, 7), Ipv4Addr::new(255, 255, 0, 0))
}

#[test]
fn device_is_created_until_it_works() {
    let mut tun = device();
    assert_eq!(tun.tun_name, "tun7");
    assert_eq!(tun.mtu, 1400);
    assert_eq!(tun.run(TunInput::DeviceFailed), TunAction::CreateDeviceAfter(2));
    assert_eq!(tun.run(TunInput::DeviceFailed), TunAction::CreateDeviceAfter(2));
    assert_eq!(tun.run(TunInput::DeviceCreated), TunAction::StartWorkers);
    assert!(matches!(tun.state, TunState::Running));
}

#[test]
fn device_is_made_anew_once_both_workers_ended() {
    let mut tun = device();
    tun.run(TunInput::DeviceCreated);
    assert_eq!(
        tun.run(TunInput::ReaderEnded(Some(TunEvent::ReconnectRequired))),
        TunAction::StopWriter
    );
    assert_eq!(
        tun.run(TunInput::WriterEnded(Some(TunEvent::Info("nothing".to_string())))),
        TunAction::CreateDevice
    );
    tun.run(TunInput::DeviceCreated);
    assert_eq!(
        tun.run(TunInput::WriterEnded(Some(TunEvent::ReconnectRequired))),
        TunAction::StopReader
    );
    assert_eq!(
        tun.run(TunInput::ReaderEnded(Some(TunEvent::FatalError))),
        TunAction::CreateDevice
    );
    assert!(matches!(tun.state, TunState::Creating));
}

#[test]
fn fatal_error_of_the_first_worker_ends_the_device() {
    let mut tun = device();
    tun.run(TunInput::DeviceCreated);
    tun.run(TunInput::WriterEnded(Some(TunEvent::FatalError)));
    assert_eq!(
        tun.run(TunInput::ReaderEnded(Some(TunEvent::ReconnectRequired))),
        TunAction::Exit
    );
    assert!(matches!(tun.state, TunState::Finished));
}

#[test]
fn worker_without_a_report_ends_the_device() {
    let mut tun = device();
    tun.run(TunInput::DeviceCreated);
    assert_eq!(tun.run(TunInput::ReaderEnded(None)), TunAction::Exit);
    let mut tun = device();
    tun.run(TunInput::DeviceCreated);
    tun.run(TunInput::ReaderEnded(Some(TunEvent::ReconnectRequired)));
    assert_eq!(tun.run(TunInput::WriterEnded(None)), TunAction::Exit);
}

#[test]
fn windows_has_one_device_name() {
    assert_eq!(device_name(true, "tun7"), "MeshVPN");
    assert_eq!(device_name(false, "tun7"), "tun7");
}

#[test]
fn netsh_arguments_are_written_out() {
    assert_eq!(
        device().netsh_address(),
        vec![
            "interface",
            "ipv4",
            "set",
            "address",
            "name=tun7",
            "static",
            "10.67.1.7",
            "255.255.0.0",
        ]
    );
    assert_eq!(
        device().netsh_mtu(),
        vec!["interface", "ipv4", "set", "subinterface", "tun7", "mtu=1400", "store=persistent"]
    );
}
