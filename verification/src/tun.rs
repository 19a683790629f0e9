//! The tun device: what its errors mean, what its two workers do, and when it is made anew.
use bytes::Bytes;
use std::io::{Error, ErrorKind};
use vstd::prelude::*;

use crate::addr::Ipv4Addr;
use crate::channel::SendOutcome;
use crate::text::decimal;
use crate::text::decimal_text;

verus! {

/// How long to wait before the next attempt to create the device, in seconds.
pub const CREATE_RETRY_SECS: u64 = 2;

/// What a failure of the device comes to, or how a worker ended.
#[derive(Debug)]
pub enum TunEvent {
    Info(String),
    /// The device could not be created; the text says why.
    InitError(String),
    FatalError,
    DropPacket,
    ReconnectRequired,
}

/// What an error of a given kind comes to.
pub open spec fn event_of_kind(kind: ErrorKind) -> TunEvent {
    match kind {
        ErrorKind::WouldBlock
        | ErrorKind::Interrupted
        | ErrorKind::WriteZero
        | ErrorKind::InvalidData
        | ErrorKind::UnexpectedEof
        | ErrorKind::TimedOut => TunEvent::DropPacket,
        ErrorKind::NetworkDown
        | ErrorKind::BrokenPipe
        | ErrorKind::StaleNetworkFileHandle
        | ErrorKind::NotConnected
        | ErrorKind::ConnectionReset
        | ErrorKind::ConnectionAborted => TunEvent::ReconnectRequired,
        _ => TunEvent::FatalError,
    }
}

/// Tells what an error of a given kind comes to: a lost packet, a lost device, or the end.
pub fn classify_error_kind(kind: ErrorKind) -> (event: TunEvent)
    ensures
        event == event_of_kind(kind),
{
    match kind {
        ErrorKind::WouldBlock
        | ErrorKind::Interrupted
        | ErrorKind::WriteZero
        | ErrorKind::InvalidData
        | ErrorKind::UnexpectedEof
        | ErrorKind::TimedOut => TunEvent::DropPacket,
        ErrorKind::NetworkDown
        | ErrorKind::BrokenPipe
        | ErrorKind::StaleNetworkFileHandle
        | ErrorKind::NotConnected
        | ErrorKind::ConnectionReset
        | ErrorKind::ConnectionAborted => TunEvent::ReconnectRequired,
        ErrorKind::PermissionDenied
        | ErrorKind::NotFound
        | ErrorKind::AlreadyExists
        | ErrorKind::InvalidInput
        | ErrorKind::ResourceBusy
        | ErrorKind::AddrInUse
        | ErrorKind::Unsupported => TunEvent::FatalError,
        _ => TunEvent::FatalError,
    }
}

/// Tells what an error of the device comes to.
pub fn classify_tun_error(err: &Error) -> (event: TunEvent)
    ensures
        event == event_of_kind(crate::io::error_kind(*err)),
{
    classify_error_kind(err.kind())
}

/// What the worker that reads the device is told.
pub enum ReaderInput {
    StopSignal,
    /// A read of the device ended; the count is that of the octets read.
    Read(Result<usize, Error>),
    /// The packet was handed to the coordinator.
    Forwarded(SendOutcome),
}

/// What the worker that reads the device does next.
#[derive(Debug)]
pub enum ReaderStep {
    /// Read the device.
    Continue,
    /// Hand a packet to the coordinator.
    Forward(Bytes),
    /// End, and report why.
    End(TunEvent),
}

/// What the worker that writes the device is told.
pub enum WriterInput {
    StopSignal,
    /// A packet from the coordinator; `None` when it sends no more.
    Received(Option<Bytes>),
    /// A write to the device ended.
    Written(Result<usize, Error>),
}

/// What the worker that writes the device does next.
#[derive(Debug)]
pub enum WriterStep {
    /// Wait for a packet.
    Continue,
    /// Write a packet to the device.
    Write(Bytes),
    /// End, and report why.
    End(TunEvent),
}

/// What a worker reports that meets an error of the given kind; `None` if it goes on.
pub open spec fn report_of_kind(kind: ErrorKind) -> Option<TunEvent> {
    match event_of_kind(kind) {
        TunEvent::ReconnectRequired => Some(TunEvent::ReconnectRequired),
        TunEvent::FatalError => Some(TunEvent::FatalError),
        _ => None,
    }
}

/// What a worker reports that meets an error of the given kind; `None` if it goes on.
pub fn report_error_kind(kind: ErrorKind) -> (report: Option<TunEvent>)
    ensures
        report == report_of_kind(kind),
{
    match classify_error_kind(kind) {
        TunEvent::ReconnectRequired => Some(TunEvent::ReconnectRequired),
        TunEvent::FatalError => Some(TunEvent::FatalError),
        _ => None,
    }
}

/// Whether this is what the worker that reads the device does next.
pub open spec fn is_reader_step(input: ReaderInput, buf: Seq<u8>, step: ReaderStep) -> bool {
    match input {
        ReaderInput::StopSignal => step matches ReaderStep::End(TunEvent::Info(text)) && text@
            == "nothing"@,
        ReaderInput::Read(Ok(size)) => if size == 0 {
            step == ReaderStep::End(TunEvent::ReconnectRequired)
        } else {
            step matches ReaderStep::Forward(packet) && crate::octets::octets_of(packet)
                == buf.take(size as int)
        },
        ReaderInput::Read(Err(e)) => step == (match report_of_kind(crate::io::error_kind(e)) {
            Some(event) => ReaderStep::End(event),
            None => ReaderStep::Continue,
        }),
        ReaderInput::Forwarded(outcome) => step == (if outcome == SendOutcome::Closed {
            ReaderStep::End(TunEvent::FatalError)
        } else {
            ReaderStep::Continue
        }),
    }
}

/// One step of the worker that reads packets of the host from the device into `buf`.
pub fn worker_tun_reader(input: ReaderInput, buf: &[u8]) -> (step: ReaderStep)
    requires
        input matches ReaderInput::Read(Ok(size)) ==> size <= buf@.len(),
    ensures
        is_reader_step(input, buf@, step),
{
    match input {
        ReaderInput::StopSignal => ReaderStep::End(TunEvent::Info("nothing".to_owned())),
        ReaderInput::Read(Ok(size)) => {
            if size == 0 {
                ReaderStep::End(TunEvent::ReconnectRequired)
            } else {
                ReaderStep::Forward(Bytes::copy_from_slice(&buf[0..size]))
            }
        },
        ReaderInput::Read(Err(e)) => match report_error_kind(e.kind()) {
            Some(event) => ReaderStep::End(event),
            None => ReaderStep::Continue,
        },
        ReaderInput::Forwarded(outcome) => match outcome {
            SendOutcome::Closed => ReaderStep::End(TunEvent::FatalError),
            _ => ReaderStep::Continue,
        },
    }
}

/// Whether this is what the worker that writes the device does next.
pub open spec fn is_writer_step(input: WriterInput, step: WriterStep) -> bool {
    match input {
        WriterInput::StopSignal => step matches WriterStep::End(TunEvent::Info(text)) && text@
            == "nothing"@,
        WriterInput::Received(Some(packet)) => step == WriterStep::Write(packet),
        WriterInput::Received(None) => step == WriterStep::End(TunEvent::FatalError),
        WriterInput::Written(Ok(_)) => step == WriterStep::Continue,
        WriterInput::Written(Err(e)) => step == (match report_of_kind(crate::io::error_kind(e)) {
            Some(event) => WriterStep::End(event),
            None => WriterStep::Continue,
        }),
    }
}

/// One step of the worker that writes packets of the coordinator to the device.
pub fn worker_tun_writer(input: WriterInput) -> (step: WriterStep)
    ensures
        is_writer_step(input, step),
{
    match input {
        WriterInput::StopSignal => WriterStep::End(TunEvent::Info("nothing".to_owned())),
        WriterInput::Received(Some(packet)) => WriterStep::Write(packet),
        WriterInput::Received(None) => WriterStep::End(TunEvent::FatalError),
        WriterInput::Written(Ok(_)) => WriterStep::Continue,
        WriterInput::Written(Err(e)) => match report_error_kind(e.kind()) {
            Some(event) => WriterStep::End(event),
            None => WriterStep::Continue,
        },
    }
}

/// Where the life of the device stands.
#[derive(Debug)]
pub enum TunState {
    /// The device is being created.
    Creating,
    /// Both workers run.
    Running,
    /// The reader ended for this reason; the writer was told to stop.
    StoppingWriter(TunEvent),
    /// The writer ended for this reason; the reader was told to stop.
    StoppingReader(TunEvent),
    Finished,
}

/// What the device is told.
#[derive(Debug)]
pub enum TunInput {
    DeviceCreated,
    DeviceFailed,
    /// The reader ended; `None` when it ended without a report.
    ReaderEnded(Option<TunEvent>),
    /// The writer ended; `None` when it ended without a report.
    WriterEnded(Option<TunEvent>),
}

/// What is to be done with the device.
#[derive(Clone, Copy, Debug, PartialEq, Eq, Structural)]
pub enum TunAction {
    CreateDevice,
    /// Wait this many seconds, then create the device.
    CreateDeviceAfter(u64),
    StartWorkers,
    StopWriter,
    StopReader,
    Exit,
}

impl TunState {
    /// Whether the input can come in this state.
    pub open spec fn accepts(self, input: TunInput) -> bool {
        match self {
            TunState::Creating => input is DeviceCreated || input is DeviceFailed,
            TunState::Running => input is ReaderEnded || input is WriterEnded,
            TunState::StoppingWriter(_) => input is WriterEnded,
            TunState::StoppingReader(_) => input is ReaderEnded,
            TunState::Finished => false,
        }
    }

    /// What follows once both workers have ended, the first for the given reason.
    pub open spec fn after_workers(event: TunEvent) -> (TunState, TunAction) {
        if event is FatalError {
            (TunState::Finished, TunAction::Exit)
        } else {
            (TunState::Creating, TunAction::CreateDevice)
        }
    }

    /// The next state, and what is to be done. A worker that ends without a report, or an input that
    /// cannot come in this state, ends the life of the device.
    pub open spec fn next(self, input: TunInput) -> (TunState, TunAction) {
        match (self, input) {
            (TunState::Creating, TunInput::DeviceCreated) => (
                TunState::Running,
                TunAction::StartWorkers,
            ),
            (TunState::Creating, TunInput::DeviceFailed) => (
                TunState::Creating,
                TunAction::CreateDeviceAfter(CREATE_RETRY_SECS),
            ),
            (TunState::Running, TunInput::ReaderEnded(Some(event))) => (
                TunState::StoppingWriter(event),
                TunAction::StopWriter,
            ),
            (TunState::Running, TunInput::WriterEnded(Some(event))) => (
                TunState::StoppingReader(event),
                TunAction::StopReader,
            ),
            (TunState::StoppingWriter(event), TunInput::WriterEnded(Some(_))) => {
                TunState::after_workers(event)
            },
            (TunState::StoppingReader(event), TunInput::ReaderEnded(Some(_))) => {
                TunState::after_workers(event)
            },
            _ => (TunState::Finished, TunAction::Exit),
        }
    }

    /// Whether the reader runs.
    pub open spec fn reader_runs(self) -> bool {
        self is Running || self is StoppingReader
    }

    /// Whether the writer runs.
    pub open spec fn writer_runs(self) -> bool {
        self is Running || self is StoppingWriter
    }
}

/// The settings of the device, and where its life stands.
pub struct Tun {
    pub tun_name: String,
    pub mtu: u16,
    pub tun_ip: Ipv4Addr,
    pub netmask: Ipv4Addr,
    pub state: TunState,
}

/// The name of the device: Windows has one name for all.
pub fn device_name(on_windows: bool, tun_name: &str) -> (name: String)
    ensures
        name@ == (if on_windows {
            "MeshVPN"@
        } else {
            tun_name@
        }),
{
    if on_windows {
        "MeshVPN".to_owned()
    } else {
        tun_name.to_owned()
    }
}

/// The characters of each of some texts.
pub open spec fn texts_of(list: Seq<String>) -> Seq<Seq<char>> {
    list.map_values(|s: String| s@)
}

impl Tun {
    /// A device that is still to be created.
    pub fn new(tun_name: &str, mtu: u16, tun_ip: Ipv4Addr, netmask: Ipv4Addr) -> (tun: Tun)
        ensures
            tun.tun_name@ == tun_name@,
            tun.mtu == mtu,
            tun.tun_ip == tun_ip,
            tun.netmask == netmask,
            tun.state == TunState::Creating,
    {
        Tun { tun_name: tun_name.to_owned(), mtu, tun_ip, netmask, state: TunState::Creating }
    }

    /// The arguments with which `netsh` gives the device its address, where the device cannot be
    /// created with it.
    pub fn netsh_address(&self) -> (args: Vec<String>)
        ensures
            texts_of(args@) == seq![
                "interface"@,
                "ipv4"@,
                "set"@,
                "address"@,
                "name="@ + self.tun_name@,
                "static"@,
                self.tun_ip.text(),
                self.netmask.text(),
            ],
    {
        let args = vec![
            "interface".to_owned(),
            "ipv4".to_owned(),
            "set".to_owned(),
            "address".to_owned(),
            "name=".to_owned().concat(self.tun_name.as_str()),
            "static".to_owned(),
            self.tun_ip.to_text(),
            self.netmask.to_text(),
        ];
        args
    }

    /// The arguments with which `netsh` limits the size of packets on the device.
    pub fn netsh_mtu(&self) -> (args: Vec<String>)
        ensures
            texts_of(args@) == seq![
                "interface"@,
                "ipv4"@,
                "set"@,
                "subinterface"@,
                self.tun_name@,
                "mtu="@ + decimal(self.mtu as nat),
                "store=persistent"@,
            ],
    {
        let args = vec![
            "interface".to_owned(),
            "ipv4".to_owned(),
            "set".to_owned(),
            "subinterface".to_owned(),
            self.tun_name.as_str().to_owned(),
            "mtu=".to_owned().concat(decimal_text(self.mtu as u64).as_str()),
            "store=persistent".to_owned(),
        ];
        args
    }

    /// One step in the life of the device. An input that cannot come in the present state ends it.
    pub fn run(&mut self, input: TunInput) -> (action: TunAction)
        ensures
            (final(self).state, action) == old(self).state.next(input),
            final(self).tun_name == old(self).tun_name,
            final(self).mtu == old(self).mtu,
            final(self).tun_ip == old(self).tun_ip,
            final(self).netmask == old(self).netmask,
    {
        let mut state = TunState::Finished;
        std::mem::swap(&mut state, &mut self.state);
        let (next, action) = match (state, input) {
            (TunState::Creating, TunInput::DeviceCreated) => {
                (TunState::Running, TunAction::StartWorkers)
            },
            (TunState::Creating, TunInput::DeviceFailed) => {
                (TunState::Creating, TunAction::CreateDeviceAfter(CREATE_RETRY_SECS))
            },
            (TunState::Running, TunInput::ReaderEnded(Some(event))) => {
                (TunState::StoppingWriter(event), TunAction::StopWriter)
            },
            (TunState::Running, TunInput::WriterEnded(Some(event))) => {
                (TunState::StoppingReader(event), TunAction::StopReader)
            },
            (TunState::StoppingWriter(event), TunInput::WriterEnded(Some(_))) => {
                after_workers(event)
            },
            (TunState::StoppingReader(event), TunInput::ReaderEnded(Some(_))) => {
                after_workers(event)
            },
            _ => (TunState::Finished, TunAction::Exit),
        };
        self.state = next;
        action
    }
}

/// What follows once both workers have ended.
fn after_workers(event: TunEvent) -> (r: (TunState, TunAction))
    ensures
        r == TunState::after_workers(event),
{
    match event {
        TunEvent::FatalError => (TunState::Finished, TunAction::Exit),
        _ => (TunState::Creating, TunAction::CreateDevice),
    }
}

/// Workers start together and only when none runs; each ends once; and the device is created anew
/// only when both have ended.
pub proof fn workers_never_overlap(state: TunState, input: TunInput)
    requires
        state.accepts(input),
    ensures
        ({
            let (next, action) = state.next(input);
            &&& action is StartWorkers ==> !state.reader_runs() && !state.writer_runs()
                && next.reader_runs() && next.writer_runs()
            &&& input is ReaderEnded ==> state.reader_runs() && !next.reader_runs()
            &&& input is WriterEnded ==> state.writer_runs() && !next.writer_runs()
            &&& (action is CreateDevice || action is CreateDeviceAfter) ==> !next.reader_runs()
                && !next.writer_runs()
            &&& next !is Finished && input !is ReaderEnded && action !is StartWorkers
                ==> next.reader_runs() == state.reader_runs()
            &&& next !is Finished && input !is WriterEnded && action !is StartWorkers
                ==> next.writer_runs() == state.writer_runs()
        }),
{
}

/// A worker that asks for a new device gets one, and one that met a fatal error ends the life of the
/// device, provided the other worker reports back.
pub proof fn first_worker_decides(first: TunEvent, second: TunEvent)
    ensures
        ({
            let by_reader = TunState::Running.next(TunInput::ReaderEnded(Some(first))).0.next(
                TunInput::WriterEnded(Some(second)),
            );
            let by_writer = TunState::Running.next(TunInput::WriterEnded(Some(first))).0.next(
                TunInput::ReaderEnded(Some(second)),
            );
            &&& by_reader == by_writer
            &&& first is FatalError ==> by_reader == (TunState::Finished, TunAction::Exit)
            &&& first is ReconnectRequired ==> by_reader == (
                TunState::Creating,
                TunAction::CreateDevice,
            )
        }),
{
}

/// Whether an error of this kind costs a packet and no more.
pub open spec fn passes_by(kind: ErrorKind) -> bool {
    kind is WouldBlock || kind is Interrupted || kind is WriteZero || kind is InvalidData || kind
        is UnexpectedEof || kind is TimedOut
}

/// Whether an error of this kind costs the device, which can be made anew.
pub open spec fn costs_the_device(kind: ErrorKind) -> bool {
    kind is NetworkDown || kind is BrokenPipe || kind is StaleNetworkFileHandle || kind
        is NotConnected || kind is ConnectionReset || kind is ConnectionAborted
}

/// An error costs a packet, or the device, or is fatal, by its kind, and never two of these. A worker
/// that meets it goes on in the first case, and otherwise ends and reports it as what it is.
pub proof fn errors_have_one_consequence(kind: ErrorKind)
    ensures
        event_of_kind(kind) == (if passes_by(kind) {
            TunEvent::DropPacket
        } else if costs_the_device(kind) {
            TunEvent::ReconnectRequired
        } else {
            TunEvent::FatalError
        }),
        !(passes_by(kind) && costs_the_device(kind)),
        report_of_kind(kind) is None <==> passes_by(kind),
        report_of_kind(kind) == Some(TunEvent::ReconnectRequired) <==> costs_the_device(kind),
        report_of_kind(kind) == Some(TunEvent::FatalError) <==> !passes_by(kind)
            && !costs_the_device(kind),
{
}

/// The device is created again every two seconds until that works, and then both workers start. When
/// a worker ends and says why, the other is stopped and the reason kept; when that one has ended too,
/// a fatal reason ends the life of the device and any other has it created anew. A worker that ends
/// without saying why ends the life of the device.
pub proof fn device_follows_its_workers(first: TunEvent, second: TunEvent)
    ensures
        TunState::Creating.next(TunInput::DeviceFailed) == (
            TunState::Creating,
            TunAction::CreateDeviceAfter(2),
        ),
        TunState::Creating.next(TunInput::DeviceCreated) == (
            TunState::Running,
            TunAction::StartWorkers,
        ),
        TunState::Running.next(TunInput::ReaderEnded(Some(first))) == (
            TunState::StoppingWriter(first),
            TunAction::StopWriter,
        ),
        TunState::Running.next(TunInput::WriterEnded(Some(first))) == (
            TunState::StoppingReader(first),
            TunAction::StopReader,
        ),
        ({
            let after = if first is FatalError {
                (TunState::Finished, TunAction::Exit)
            } else {
                (TunState::Creating, TunAction::CreateDevice)
            };
            &&& TunState::StoppingWriter(first).next(TunInput::WriterEnded(Some(second))) == after
            &&& TunState::StoppingReader(first).next(TunInput::ReaderEnded(Some(second))) == after
        }),
        TunState::Running.next(TunInput::ReaderEnded(None)) == (
            TunState::Finished,
            TunAction::Exit,
        ),
        TunState::Running.next(TunInput::WriterEnded(None)) == (
            TunState::Finished,
            TunAction::Exit,
        ),
        TunState::StoppingWriter(first).next(TunInput::WriterEnded(None)) == (
            TunState::Finished,
            TunAction::Exit,
        ),
        TunState::StoppingReader(first).next(TunInput::ReaderEnded(None)) == (
            TunState::Finished,
            TunAction::Exit,
        ),
{
}

/// What was read from the device is handed on, octet for octet; that nothing was read asks for a new
/// device. The reader goes on after an error that passes by and after a full channel; any other error
/// it reports as what it is, and a closed channel as fatal.
pub proof fn reader_hands_on_what_it_reads(
    buf: Seq<u8>,
    size: usize,
    error: Error,
    outcome: SendOutcome,
    step: ReaderStep,
)
    ensures
        is_reader_step(ReaderInput::Read(Ok(size)), buf, step) && 0 < size <= buf.len() ==> (
        step matches ReaderStep::Forward(packet) && {
            &&& crate::octets::octets_of(packet).len() == size
            &&& forall|i: int|
                0 <= i < size ==> #[trigger] crate::octets::octets_of(packet)[i] == buf[i]
        }),
        is_reader_step(ReaderInput::Read(Ok(0)), buf, step) ==> step == ReaderStep::End(
            TunEvent::ReconnectRequired,
        ),
        is_reader_step(ReaderInput::Read(Err(error)), buf, step) ==> {
            let kind = crate::io::error_kind(error);
            &&& passes_by(kind) ==> step is Continue
            &&& costs_the_device(kind) ==> step == ReaderStep::End(TunEvent::ReconnectRequired)
            &&& !passes_by(kind) && !costs_the_device(kind) ==> step == ReaderStep::End(
                TunEvent::FatalError,
            )
        },
        is_reader_step(ReaderInput::Forwarded(outcome), buf, step) ==> {
            &&& outcome is Closed ==> step == ReaderStep::End(TunEvent::FatalError)
            &&& outcome !is Closed ==> step is Continue
        },
        is_reader_step(ReaderInput::StopSignal, buf, step) ==> step is End
            && step->End_0 is Info,
{
}

/// Every packet of the coordinator is written to the device, unchanged. The writer goes on after a
/// packet was written and after an error that passes by; any other error it reports as what it is,
/// and the end of the coordinator as fatal.
pub proof fn writer_writes_what_it_gets(
    packet: Bytes,
    written: usize,
    error: Error,
    step: WriterStep,
)
    ensures
        is_writer_step(WriterInput::Received(Some(packet)), step) ==> step == WriterStep::Write(
            packet,
        ),
        is_writer_step(WriterInput::Received(None), step) ==> step == WriterStep::End(
            TunEvent::FatalError,
        ),
        is_writer_step(WriterInput::Written(Ok(written)), step) ==> step is Continue,
        is_writer_step(WriterInput::Written(Err(error)), step) ==> {
            let kind = crate::io::error_kind(error);
            &&& passes_by(kind) ==> step is Continue
            &&& costs_the_device(kind) ==> step == WriterStep::End(TunEvent::ReconnectRequired)
            &&& !passes_by(kind) && !costs_the_device(kind) ==> step == WriterStep::End(
                TunEvent::FatalError,
            )
        },
        is_writer_step(WriterInput::StopSignal, step) ==> step is End && step->End_0 is Info,
{
}

} // verus!
