//! Preparing the device for a capture.

use vstd::prelude::*;

use super::ops::{DeviceOp, OpView};
use super::packet::{build_settings_packet, is_packet, packet_overflows};
use super::plan::{DsLogicCapturePlan, DsLogicCaptureSettings, LinkSpeed, SettingsView};
use crate::logic_analyzer::config::Threshold;
use crate::logic_analyzer::error::{
    error_sentence, invalid_settings, protocol, ErrorView, LogicAnalyzerError,
};
use crate::text::{append_chars, decimal, decimal_chars, from_chars, hex_byte, hex_byte_chars, to_chars};

verus! {

/// The version of the capture logic that this driver speaks to.
pub const LOGIC_VERSION: u8 = 0x0e;

/// The major version of the runtime firmware that this driver speaks to.
pub const FIRMWARE_MAJOR: u8 = 2;

/// Time limit of a wait for the status.
pub const STATUS_TIMEOUT_MS: u64 = 5_000;

/// Register of the clock synthesizer.
pub const CLOCK_REGISTER: u16 = 0x48;

/// Largest FPGA image.
pub const IMAGE_LIMIT: usize = 0x00ff_ffff;

/// A runtime command with a few data bytes.
pub open spec fn command(command: u8, offset: u16, data: Seq<u8>) -> OpView {
    OpView::Command { command, offset, data }
}

fn exec_command(command: u8, offset: u16, data: Vec<u8>) -> (result: DeviceOp)
    ensures
        result@ == self::command(command, offset, data@),
{
    DeviceOp::Command { command, offset, data }
}

fn one(command: u8, offset: u16, byte: u8) -> (result: DeviceOp)
    ensures
        result@ == self::command(command, offset, seq![byte]),
{
    let data: Vec<u8> = vec![byte];
    assert(data@ =~= seq![byte]);
    DeviceOp::Command { command, offset, data }
}

fn none(command: u8) -> (result: DeviceOp)
    ensures
        result@ == self::command(command, 0, Seq::empty()),
{
    let data: Vec<u8> = Vec::new();
    assert(data@ =~= Seq::<u8>::empty());
    DeviceOp::Command { command, offset: 0, data }
}

fn await_status(bits: u8, set: bool) -> (result: DeviceOp)
    ensures
        result@ == (OpView::AwaitStatus { bits, set, timeout_ms: STATUS_TIMEOUT_MS }),
{
    DeviceOp::AwaitStatus { bits, set, timeout_ms: STATUS_TIMEOUT_MS }
}

/// The operations of a list, seen through their bytes.
pub open spec fn op_views(ops: Seq<DeviceOp>) -> Seq<OpView> {
    ops.map_values(|op: DeviceOp| op@)
}

/// One write to the clock synthesizer.
pub open spec fn clock_write(byte: u8) -> OpView {
    command(14, CLOCK_REGISTER, seq![byte])
}

/// The sequence that starts the internal 500 MHz clock. Its setting is volatile, so a freshly
/// powered device needs it before every capture.
pub open spec fn clock_ops() -> Seq<OpView> {
    seq![
        command(14, 0x4a, seq![0x01]),
        clock_write(0x01),
        clock_write(0x61),
        clock_write(0x00),
        clock_write(0x30),
        clock_write(0x01),
        clock_write(0x40),
        clock_write(0xf1),
        clock_write(0x46),
        OpView::Pause { milliseconds: 10 },
        clock_write(0x01),
        clock_write(0x62),
        clock_write(0x3d),
        clock_write(0x40),
    ]
}

/// The sequence that starts the internal clock.
pub fn configure_internal_clock() -> (result: Vec<DeviceOp>)
    ensures
        op_views(result@) == clock_ops(),
{
    let result: Vec<DeviceOp> = vec![
        one(14, CLOCK_REGISTER + 2, 0x01),
        one(14, CLOCK_REGISTER, 0x01),
        one(14, CLOCK_REGISTER, 0x61),
        one(14, CLOCK_REGISTER, 0x00),
        one(14, CLOCK_REGISTER, 0x30),
        one(14, CLOCK_REGISTER, 0x01),
        one(14, CLOCK_REGISTER, 0x40),
        one(14, CLOCK_REGISTER, 0xf1),
        one(14, CLOCK_REGISTER, 0x46),
        DeviceOp::Pause { milliseconds: 10 },
        one(14, CLOCK_REGISTER, 0x01),
        one(14, CLOCK_REGISTER, 0x62),
        one(14, CLOCK_REGISTER, 0x3d),
        one(14, CLOCK_REGISTER, 0x40),
    ];
    assert(op_views(result@) =~= clock_ops());
    result
}

/// The sequence that loads an FPGA image, up to the last wait for the device.
pub open spec fn load_ops(image: Seq<u8>) -> Seq<OpView> {
    seq![
        command(3, 0, seq![0xfb]),
        command(5, 0, seq![0xfc]),
        OpView::AwaitStatus { bits: 0x20, set: false, timeout_ms: STATUS_TIMEOUT_MS },
        command(3, 0, seq![0x04]),
        OpView::AwaitStatus { bits: 0x20, set: true, timeout_ms: STATUS_TIMEOUT_MS },
        command(6, 0, seq![0x7f]),
        command(
            10,
            0,
            seq![
                (image.len() % 256) as u8,
                (image.len() / 256 % 256) as u8,
                (image.len() / 0x1_0000 % 256) as u8,
            ],
        ),
        OpView::Upload { data: image, exact: true },
        OpView::Pause { milliseconds: 20 },
        command(6, 0, seq![0x80]),
        OpView::AwaitStatus { bits: 0x80, set: true, timeout_ms: STATUS_TIMEOUT_MS },
        command(6, 0, seq![0x7f]),
    ]
}

fn exec_load_ops(image: Vec<u8>) -> (result: Vec<DeviceOp>)
    ensures
        op_views(result@) == load_ops(image@),
{
    let len: usize = image.len();
    let bytes: Vec<u8> = vec![
        (len % 256) as u8,
        (len / 256 % 256) as u8,
        (len / 0x1_0000 % 256) as u8,
    ];
    assert(bytes@ =~= seq![
        (image@.len() % 256) as u8,
        (image@.len() / 256 % 256) as u8,
        (image@.len() / 0x1_0000 % 256) as u8,
    ]);
    let ghost view = load_ops(image@);
    let result: Vec<DeviceOp> = vec![
        one(3, 0, 0xfb),
        one(5, 0, 0xfc),
        await_status(0x20, false),
        one(3, 0, 0x04),
        await_status(0x20, true),
        one(6, 0, 0x7f),
        exec_command(10, 0, bytes),
        DeviceOp::Upload { data: image, exact: true },
        DeviceOp::Pause { milliseconds: 20 },
        one(6, 0, 0x80),
        await_status(0x80, true),
        one(6, 0, 0x7f),
    ];
    assert(op_views(result@) =~= view);
    result
}

/// The sequence that sends the settings packet.
pub open spec fn send_ops(speed: LinkSpeed, packet: Seq<u8>) -> Seq<OpView> {
    seq![command(9, 0, Seq::empty())] + (if speed == LinkSpeed::High {
        seq![command(7, 0, seq![1])]
    } else {
        Seq::empty()
    }) + seq![
        command(10, 0, seq![0x50, 0x01, 0]),
        OpView::AwaitStatus { bits: 0x08, set: true, timeout_ms: STATUS_TIMEOUT_MS },
        OpView::Upload { data: packet, exact: false },
        command(6, 0, seq![0x80]),
        OpView::AwaitStatus { bits: 0x80, set: true, timeout_ms: STATUS_TIMEOUT_MS },
    ]
}

/// The part of the capture setup that depends on the settings: the operations in order, and the
/// error that ends them, if one does.
#[derive(Debug)]
pub struct ArmScript {
    pub ops: Vec<DeviceOp>,
    pub failure: Option<LogicAnalyzerError>,
}

/// The operations in front of the settings packet.
pub open spec fn preparation(settings: SettingsView) -> Seq<OpView> {
    (if settings.external_clock {
        Seq::empty()
    } else {
        clock_ops()
    }) + (match settings.threshold {
        Some(Threshold::Code(code)) => seq![command(14, 0x78, seq![code])],
        _ => Seq::empty(),
    })
}

/// Whether a script is the one for settings and a plan.
pub open spec fn is_arm_script(
    script: ArmScript,
    speed: LinkSpeed,
    settings: SettingsView,
    plan: DsLogicCapturePlan,
) -> bool {
    if settings.threshold == Some(Threshold::NotFinite) {
        &&& op_views(script.ops@) == preparation(settings)
        &&& script.failure matches Some(error) && error@ == ErrorView::InvalidSettings(
            "threshold must be finite"@,
        )
    } else if packet_overflows(settings, plan) {
        &&& op_views(script.ops@) == preparation(settings)
        &&& script.failure matches Some(error) && error@ == ErrorView::InvalidSettings(
            "arithmetic overflow"@,
        )
    } else {
        &&& script.failure is None
        &&& exists|packet: Seq<u8>| #[trigger]
            is_packet(packet, settings, plan) && op_views(script.ops@) == preparation(settings)
                + send_ops(speed, packet)
    }
}

/// Lists the operations that depend on the settings.
pub fn arm_script(speed: LinkSpeed, settings: &DsLogicCaptureSettings, plan: DsLogicCapturePlan) -> (result:
    ArmScript)
    requires
        plan.wf(),
        settings.sample_rate_hz > 0,
        settings.sample_rate_hz * plan.channels <= u64::MAX,
    ensures
        is_arm_script(result, speed, settings@, plan),
{
    let mut ops: Vec<DeviceOp> = if settings.external_clock {
        Vec::new()
    } else {
        configure_internal_clock()
    };
    assert(settings.external_clock ==> op_views(ops@) =~= Seq::<OpView>::empty());
    let ghost clock = op_views(ops@);
    match settings.threshold {
        Some(Threshold::NotFinite) => {
            assert(op_views(ops@) =~= preparation(settings@));
            return ArmScript { ops, failure: Some(invalid_settings("threshold must be finite")) };
        },
        Some(Threshold::Code(code)) => {
            ops.push(one(14, 0x78, code));
        },
        None => {},
    }
    assert(op_views(ops@) =~= preparation(settings@));
    let packet: Vec<u8> = match build_settings_packet(settings, plan) {
        Ok(packet) => packet,
        Err(error) => return ArmScript { ops, failure: Some(error) },
    };
    let ghost bytes = packet@;
    ops.push(none(9));
    if speed == LinkSpeed::High {
        ops.push(one(7, 0, 1));
    }
    let length: Vec<u8> = vec![0x50, 0x01, 0];
    assert(length@ =~= seq![0x50u8, 0x01, 0]);
    ops.push(exec_command(10, 0, length));
    ops.push(await_status(0x08, true));
    ops.push(DeviceOp::Upload { data: packet, exact: false });
    ops.push(one(6, 0, 0x80));
    ops.push(await_status(0x80, true));
    proof {
        assert(op_views(ops@) =~= preparation(settings@) + send_ops(speed, bytes));
        assert(is_packet(bytes, settings@, plan));
    }
    ArmScript { ops, failure: None }
}

/// How far the setup has come.
#[derive(Debug, Clone, Copy, PartialEq, Eq, Structural)]
pub enum SetupPhase {
    /// The status is read.
    Status,
    /// The firmware version is read.
    Firmware { status: u8 },
    /// The acquisition clear is taken back, before the version of the capture logic is read.
    Clear { again: bool },
    /// The version of the capture logic is read.
    Version { again: bool, attempt: u8 },
    /// A zero version gets another try after a pause.
    VersionPause { again: bool, attempt: u8 },
    /// An FPGA image is looked for.
    Image,
    /// An image is loaded.
    Load,
    /// The loaded logic starts.
    LoadWait,
    /// The version of the loaded logic decides where the status does not.
    LoadVersion,
    /// The data path is restored.
    Restore,
    /// The loaded logic is enabled.
    Enable,
    /// The runtime firmware version is read.
    Runtime,
    /// The settings are sent.
    Arm,
    Finished,
}

/// What the setup does next.
#[derive(Debug)]
pub enum SetupStep {
    Op(DeviceOp),
    /// Look for an FPGA image.
    FindImage,
    Done(Result<(), LogicAnalyzerError>),
}

/// A step seen through its bytes.
pub enum SetupStepView {
    Op(OpView),
    FindImage,
    Done(Result<(), ErrorView>),
}

impl View for SetupStep {
    type V = SetupStepView;

    open spec fn view(&self) -> SetupStepView {
        match *self {
            SetupStep::Op(op) => SetupStepView::Op(op@),
            SetupStep::FindImage => SetupStepView::FindImage,
            SetupStep::Done(Ok(done)) => SetupStepView::Done(Ok(done)),
            SetupStep::Done(Err(error)) => SetupStepView::Done(Err(error@)),
        }
    }
}

/// What came of a step.
#[derive(Debug)]
pub enum SetupReply {
    Op(Result<Vec<u8>, LogicAnalyzerError>),
    /// The image that was found, if one was, or why it could not be read.
    Image(Option<Result<Vec<u8>, LogicAnalyzerError>>),
}

/// A reply seen through its bytes.
pub enum SetupReplyView {
    Op(Result<Seq<u8>, ErrorView>),
    Image(Option<Result<Seq<u8>, ErrorView>>),
}

impl View for SetupReply {
    type V = SetupReplyView;

    open spec fn view(&self) -> SetupReplyView {
        match *self {
            SetupReply::Op(Ok(data)) => SetupReplyView::Op(Ok(data@)),
            SetupReply::Op(Err(error)) => SetupReplyView::Op(Err(error@)),
            SetupReply::Image(None) => SetupReplyView::Image(None),
            SetupReply::Image(Some(Ok(data))) => SetupReplyView::Image(Some(Ok(data@))),
            SetupReply::Image(Some(Err(error))) => SetupReplyView::Image(Some(Err(error@))),
        }
    }
}

/// The setup of the device for one capture, or the load of an FPGA image alone.
#[derive(Debug)]
pub struct Setup {
    pub phase: SetupPhase,
    /// Operations still to be done in this phase.
    pub script: Vec<DeviceOp>,
    /// What goes wrong once the phase is over.
    pub failure: Option<LogicAnalyzerError>,
    /// The operations for the settings, where a capture is prepared.
    pub arm: Option<ArmScript>,
}

/// A script and the error that ends it.
pub struct ArmView {
    pub ops: Seq<OpView>,
    pub failure: Option<ErrorView>,
}

/// A setup seen through its bytes.
pub struct SetupView {
    pub phase: SetupPhase,
    pub script: Seq<OpView>,
    pub failure: Option<ErrorView>,
    pub arm: Option<ArmView>,
}

/// An optional error seen through its message.
pub open spec fn failure_view(failure: Option<LogicAnalyzerError>) -> Option<ErrorView> {
    match failure {
        Some(error) => Some(error@),
        None => None,
    }
}

impl View for Setup {
    type V = SetupView;

    open spec fn view(&self) -> SetupView {
        SetupView {
            phase: self.phase,
            script: op_views(self.script@),
            failure: failure_view(self.failure),
            arm: match self.arm {
                Some(script) => Some(
                    ArmView { ops: op_views(script.ops@), failure: failure_view(script.failure) },
                ),
                None => None,
            },
        }
    }
}

/// The operation of a phase that has one of its own.
pub open spec fn phase_op(phase: SetupPhase) -> OpView {
    match phase {
        SetupPhase::Status => OpView::ReadBack { command: 2, offset: 0, length: 1 },
        SetupPhase::Firmware { .. } | SetupPhase::Runtime => OpView::ReadBack {
            command: 0,
            offset: 0,
            length: 2,
        },
        SetupPhase::Clear { .. } => command(14, 0x70, seq![0]),
        SetupPhase::Version { .. } | SetupPhase::LoadVersion => OpView::ReadBack {
            command: 15,
            offset: 0,
            length: 5,
        },
        SetupPhase::VersionPause { .. } => OpView::Pause { milliseconds: 20 },
        SetupPhase::LoadWait => OpView::AwaitStatus {
            bits: 0x40,
            set: true,
            timeout_ms: STATUS_TIMEOUT_MS,
        },
        SetupPhase::Restore => command(7, 0, seq![1]),
        _ => command(5, 0, seq![1]),
    }
}

/// A setup that goes to a phase with an operation of its own.
pub open spec fn entered(setup: SetupView, phase: SetupPhase) -> (SetupView, SetupStepView) {
    (
        SetupView { phase, ..setup },
        if phase == SetupPhase::Image {
            SetupStepView::FindImage
        } else {
            SetupStepView::Op(phase_op(phase))
        },
    )
}

/// A setup that ends.
pub open spec fn concluded(setup: SetupView, result: Result<(), ErrorView>) -> (SetupView, SetupStepView) {
    (SetupView { phase: SetupPhase::Finished, ..setup }, SetupStepView::Done(result))
}

/// The next operation of the script, or what follows the last.
pub open spec fn scripted(setup: SetupView) -> (SetupView, SetupStepView) {
    if setup.script.len() > 0 {
        (
            SetupView { script: setup.script.skip(1), ..setup },
            SetupStepView::Op(setup.script[0]),
        )
    } else if setup.phase == SetupPhase::Load {
        entered(setup, SetupPhase::LoadWait)
    } else {
        concluded(
            SetupView { failure: None, ..setup },
            match setup.failure {
                Some(error) => Err(error),
                None => Ok(()),
            },
        )
    }
}

/// What a version of the capture logic leads to.
pub open spec fn version_read(setup: SetupView, again: bool, version: u8) -> (SetupView, SetupStepView) {
    if again {
        if version == LOGIC_VERSION {
            entered(setup, SetupPhase::Runtime)
        } else {
            concluded(setup, Err(ErrorView::Protocol("unexpected FPGA logic version"@)))
        }
    } else if version == LOGIC_VERSION {
        entered(setup, SetupPhase::Clear { again: true })
    } else {
        entered(setup, SetupPhase::Image)
    }
}

/// The load of an image.
pub open spec fn loading(setup: SetupView, image: Seq<u8>) -> (SetupView, SetupStepView) {
    if image.len() == 0 || image.len() > IMAGE_LIMIT {
        concluded(
            setup,
            Err(ErrorView::InvalidSettings("FPGA image must be 1..=0x00ffffff bytes"@)),
        )
    } else {
        scripted(SetupView { phase: SetupPhase::Load, script: load_ops(image), ..setup })
    }
}

/// Why a loaded image does not run.
pub open spec fn load_message(version: u8, status: ErrorView) -> Seq<char> {
    "FPGA did not configure (logic version "@ + hex_byte(version) + "): "@ + error_sentence(status)
}

/// What follows the result of an operation.
pub open spec fn operated(setup: SetupView, result: Result<Seq<u8>, ErrorView>) -> (SetupView, SetupStepView) {
    match (setup.phase, result) {
        (SetupPhase::LoadWait, Ok(_)) => entered(
            SetupView { failure: None, ..setup },
            SetupPhase::Restore,
        ),
        (SetupPhase::LoadWait, Err(error)) => entered(
            SetupView { failure: Some(error), ..setup },
            SetupPhase::LoadVersion,
        ),
        (_, Err(error)) => concluded(setup, Err(error)),
        (SetupPhase::Status, Ok(data)) => entered(setup, SetupPhase::Firmware { status: data[0] }),
        (SetupPhase::Firmware { status }, Ok(_)) => if status & 0x40 != 0 {
            entered(setup, SetupPhase::Clear { again: false })
        } else {
            entered(setup, SetupPhase::Image)
        },
        (SetupPhase::Clear { again }, Ok(_)) => entered(
            setup,
            SetupPhase::Version { again, attempt: 1 },
        ),
        (SetupPhase::Version { again, attempt }, Ok(data)) => if data[4] == 0 {
            entered(setup, SetupPhase::VersionPause { again, attempt })
        } else {
            version_read(setup, again, data[4])
        },
        (SetupPhase::VersionPause { again, attempt }, Ok(_)) => if attempt < 3 {
            entered(setup, SetupPhase::Version { again, attempt: (attempt + 1) as u8 })
        } else {
            version_read(setup, again, 0)
        },
        (SetupPhase::LoadVersion, Ok(data)) => entered(
            SetupView {
                failure: if data[4] == LOGIC_VERSION {
                    None
                } else {
                    Some(ErrorView::Protocol(load_message(data[4], setup.failure->0)))
                },
                ..setup
            },
            SetupPhase::Restore,
        ),
        (SetupPhase::Restore, Ok(_)) => match setup.failure {
            Some(error) => concluded(SetupView { failure: None, ..setup }, Err(error)),
            None => entered(setup, SetupPhase::Enable),
        },
        (SetupPhase::Enable, Ok(_)) => if setup.arm is None {
            concluded(setup, Ok(()))
        } else {
            entered(setup, SetupPhase::Clear { again: true })
        },
        (SetupPhase::Runtime, Ok(data)) => if data[0] != FIRMWARE_MAJOR {
            concluded(
                setup,
                Err(
                    ErrorView::Protocol(
                        "unsupported runtime firmware major version "@ + decimal(data[0] as nat),
                    ),
                ),
            )
        } else {
            match setup.arm {
                Some(arm) => scripted(
                    SetupView {
                        phase: SetupPhase::Arm,
                        script: arm.ops,
                        failure: arm.failure,
                        arm: None,
                    },
                ),
                None => concluded(setup, Ok(())),
            }
        },
        _ => scripted(setup),
    }
}

/// What follows a reply.
pub open spec fn continued(setup: SetupView, reply: SetupReplyView) -> (SetupView, SetupStepView) {
    match reply {
        SetupReplyView::Op(result) => operated(setup, result),
        SetupReplyView::Image(None) => concluded(
            setup,
            Err(
                ErrorView::Protocol(
                    "the U3Pro16 FPGA is absent or has an incompatible image, and DSLogicU3Pro16.bin was not found; set DSLOGIC_U3PRO16_FPGA_IMAGE to the exact image"@,
                ),
            ),
        ),
        SetupReplyView::Image(Some(Err(error))) => concluded(setup, Err(error)),
        SetupReplyView::Image(Some(Ok(image))) => loading(setup, image),
    }
}

/// Whether a reply answers the step of a phase.
pub open spec fn expected(setup: SetupView, reply: SetupReplyView) -> bool {
    &&& setup.phase != SetupPhase::Finished
    &&& reply is Image <==> setup.phase == SetupPhase::Image
    &&& reply matches SetupReplyView::Op(Ok(data)) ==> match phase_op(setup.phase) {
        OpView::ReadBack { length, .. } => data.len() == length,
        _ => true,
    }
    &&& setup.phase == SetupPhase::LoadVersion ==> setup.failure is Some
}

impl Setup {
    /// Prepares a capture.
    pub fn begin(arm: ArmScript) -> (result: (Setup, SetupStep))
        ensures
            ({
                let fresh = SetupView {
                    phase: SetupPhase::Status,
                    script: Seq::empty(),
                    failure: None,
                    arm: Some(
                        ArmView { ops: op_views(arm.ops@), failure: failure_view(arm.failure) },
                    ),
                };
                (result.0@, result.1@) == entered(fresh, SetupPhase::Status)
            }),
    {
        let setup = Setup {
            phase: SetupPhase::Status,
            script: Vec::new(),
            failure: None,
            arm: Some(arm),
        };
        assert(op_views(setup.script@) =~= Seq::<OpView>::empty());
        (setup, SetupStep::Op(DeviceOp::ReadBack { command: 2, offset: 0, length: 1 }))
    }

    /// Loads an FPGA image and nothing else.
    pub fn configure_fpga(image: Vec<u8>) -> (result: (Setup, SetupStep))
        ensures
            ({
                let fresh = SetupView {
                    phase: SetupPhase::Image,
                    script: Seq::empty(),
                    failure: None,
                    arm: None,
                };
                (result.0@, result.1@) == loading(fresh, image@)
            }),
    {
        let mut setup = Setup {
            phase: SetupPhase::Image,
            script: Vec::new(),
            failure: None,
            arm: None,
        };
        assert(op_views(setup.script@) =~= Seq::<OpView>::empty());
        let step: SetupStep = setup.load(image);
        (setup, step)
    }

    fn conclude(&mut self, result: Result<(), LogicAnalyzerError>) -> (step: SetupStep)
        ensures
            (final(self)@, step@) == concluded(
                old(self)@,
                match result {
                    Ok(done) => Ok(done),
                    Err(error) => Err(error@),
                },
            ),
    {
        self.phase = SetupPhase::Finished;
        SetupStep::Done(result)
    }

    fn enter(&mut self, phase: SetupPhase) -> (step: SetupStep)
        requires
            phase != SetupPhase::Load,
            phase != SetupPhase::Arm,
            phase != SetupPhase::Finished,
        ensures
            (final(self)@, step@) == entered(old(self)@, phase),
    {
        self.phase = phase;
        match phase {
            SetupPhase::Status => SetupStep::Op(
                DeviceOp::ReadBack { command: 2, offset: 0, length: 1 },
            ),
            SetupPhase::Firmware { .. } | SetupPhase::Runtime => SetupStep::Op(
                DeviceOp::ReadBack { command: 0, offset: 0, length: 2 },
            ),
            SetupPhase::Clear { .. } => SetupStep::Op(one(14, 0x70, 0)),
            SetupPhase::Version { .. } | SetupPhase::LoadVersion => SetupStep::Op(
                DeviceOp::ReadBack { command: 15, offset: 0, length: 5 },
            ),
            SetupPhase::VersionPause { .. } => SetupStep::Op(DeviceOp::Pause { milliseconds: 20 }),
            SetupPhase::Image => SetupStep::FindImage,
            SetupPhase::LoadWait => SetupStep::Op(await_status(0x40, true)),
            SetupPhase::Restore => SetupStep::Op(one(7, 0, 1)),
            _ => SetupStep::Op(one(5, 0, 1)),
        }
    }

    fn run_script(&mut self) -> (step: SetupStep)
        ensures
            (final(self)@, step@) == scripted(old(self)@),
    {
        let ghost before = self@;
        if self.script.len() > 0 {
            let op: DeviceOp = self.script.remove(0);
            assert(self@.script =~= before.script.skip(1));
            return SetupStep::Op(op);
        }
        if self.phase == SetupPhase::Load {
            return self.enter(SetupPhase::LoadWait);
        }
        let failure: Option<LogicAnalyzerError> = self.take_failure();
        match failure {
            Some(error) => self.conclude(Err(error)),
            None => self.conclude(Ok(())),
        }
    }

    fn take_failure(&mut self) -> (result: Option<LogicAnalyzerError>)
        ensures
            failure_view(result) == old(self)@.failure,
            final(self)@ == (SetupView { failure: None, ..old(self)@ }),
    {
        self.failure.take()
    }

    fn load(&mut self, image: Vec<u8>) -> (step: SetupStep)
        ensures
            (final(self)@, step@) == loading(old(self)@, image@),
    {
        if image.len() == 0 || image.len() > IMAGE_LIMIT {
            return self.conclude(Err(invalid_settings("FPGA image must be 1..=0x00ffffff bytes")));
        }
        self.phase = SetupPhase::Load;
        self.script = exec_load_ops(image);
        self.run_script()
    }

    fn read_version(&mut self, again: bool, version: u8) -> (step: SetupStep)
        ensures
            (final(self)@, step@) == version_read(old(self)@, again, version),
    {
        if again {
            if version == LOGIC_VERSION {
                self.enter(SetupPhase::Runtime)
            } else {
                self.conclude(Err(protocol("unexpected FPGA logic version")))
            }
        } else if version == LOGIC_VERSION {
            self.enter(SetupPhase::Clear { again: true })
        } else {
            self.enter(SetupPhase::Image)
        }
    }

    fn operate(&mut self, data: Vec<u8>) -> (step: SetupStep)
        requires
            expected(old(self)@, SetupReplyView::Op(Ok(data@))),
        ensures
            (final(self)@, step@) == operated(old(self)@, Ok(data@)),
    {
        match self.phase {
            SetupPhase::LoadWait => {
                self.failure = None;
                self.enter(SetupPhase::Restore)
            },
            SetupPhase::Status => {
                let status: u8 = data[0];
                self.enter(SetupPhase::Firmware { status })
            },
            SetupPhase::Firmware { status } => if status & 0x40 != 0 {
                self.enter(SetupPhase::Clear { again: false })
            } else {
                self.enter(SetupPhase::Image)
            },
            SetupPhase::Clear { again } => self.enter(SetupPhase::Version { again, attempt: 1 }),
            SetupPhase::Version { again, attempt } => if data[4] == 0 {
                self.enter(SetupPhase::VersionPause { again, attempt })
            } else {
                self.read_version(again, data[4])
            },
            SetupPhase::VersionPause { again, attempt } => if attempt < 3 {
                self.enter(SetupPhase::Version { again, attempt: attempt + 1 })
            } else {
                self.read_version(again, 0)
            },
            SetupPhase::LoadVersion => {
                let version: u8 = data[4];
                let status: Option<LogicAnalyzerError> = self.take_failure();
                match status {
                    Some(error) => {
                        if version != LOGIC_VERSION {
                            self.failure = Some(load_failure(version, &error));
                        }
                        self.enter(SetupPhase::Restore)
                    },
                    None => self.enter(SetupPhase::Restore),
                }
            },
            SetupPhase::Restore => {
                let failure: Option<LogicAnalyzerError> = self.take_failure();
                match failure {
                    Some(error) => self.conclude(Err(error)),
                    None => self.enter(SetupPhase::Enable),
                }
            },
            SetupPhase::Enable => match &self.arm {
                Some(_) => self.enter(SetupPhase::Clear { again: true }),
                None => self.conclude(Ok(())),
            },
            SetupPhase::Runtime => {
                if data[0] != FIRMWARE_MAJOR {
                    let mut message: Vec<char> = to_chars(
                        "unsupported runtime firmware major version ",
                    );
                    append_chars(&mut message, decimal_chars(data[0] as u64).as_slice());
                    return self.conclude(
                        Err(LogicAnalyzerError::Protocol(from_chars(message.as_slice()))),
                    );
                }
                let arm: Option<ArmScript> = self.arm.take();
                match arm {
                    Some(script) => {
                        self.phase = SetupPhase::Arm;
                        self.script = script.ops;
                        self.failure = script.failure;
                        self.run_script()
                    },
                    None => self.conclude(Ok(())),
                }
            },
            _ => self.run_script(),
        }
    }

    /// Takes what came of the last step and tells the next.
    pub fn resume(&mut self, reply: SetupReply) -> (step: SetupStep)
        requires
            expected(old(self)@, reply@),
        ensures
            (final(self)@, step@) == continued(old(self)@, reply@),
    {
        match reply {
            SetupReply::Op(Ok(data)) => self.operate(data),
            SetupReply::Op(Err(error)) => {
                if self.phase == SetupPhase::LoadWait {
                    self.failure = Some(error);
                    self.enter(SetupPhase::LoadVersion)
                } else {
                    self.conclude(Err(error))
                }
            },
            SetupReply::Image(None) => self.conclude(
                Err(
                    protocol(
                        "the U3Pro16 FPGA is absent or has an incompatible image, and DSLogicU3Pro16.bin was not found; set DSLOGIC_U3PRO16_FPGA_IMAGE to the exact image",
                    ),
                ),
            ),
            SetupReply::Image(Some(Err(error))) => self.conclude(Err(error)),
            SetupReply::Image(Some(Ok(image))) => self.load(image),
        }
    }
}

fn load_failure(version: u8, status: &LogicAnalyzerError) -> (result: LogicAnalyzerError)
    ensures
        result@ == ErrorView::Protocol(load_message(version, status@)),
{
    let mut message: Vec<char> = to_chars("FPGA did not configure (logic version ");
    append_chars(&mut message, hex_byte_chars(version).as_slice());
    append_chars(&mut message, to_chars("): ").as_slice());
    append_chars(&mut message, to_chars(status.sentence().as_str()).as_slice());
    LogicAnalyzerError::Protocol(from_chars(message.as_slice()))
}

/// Bytes of the USB firmware written at a time.
pub const FIRMWARE_CHUNK: usize = 4096;

/// Register that holds the USB controller in reset.
pub const RESET_REGISTER: u16 = 0xe600;

/// Part `index` of a firmware image.
pub open spec fn firmware_part(image: Seq<u8>, index: int) -> Seq<u8> {
    image.subrange(
        index * FIRMWARE_CHUNK,
        if (index + 1) * FIRMWARE_CHUNK < image.len() {
            (index + 1) * FIRMWARE_CHUNK
        } else {
            image.len() as int
        },
    )
}

/// The writes of the first `count` parts of a firmware image.
pub open spec fn firmware_parts(image: Seq<u8>, count: nat) -> Seq<OpView> {
    Seq::new(
        count,
        |i: int|
            OpView::FirmwareWrite {
                address: (i * FIRMWARE_CHUNK) as u16,
                data: firmware_part(image, i),
            },
    )
}

/// Number of parts of a firmware image.
pub open spec fn firmware_count(image: Seq<u8>) -> nat {
    ((image.len() + FIRMWARE_CHUNK - 1) / (FIRMWARE_CHUNK as int)) as nat
}

/// The sequence that writes a firmware image while the controller is held in reset.
pub open spec fn firmware_ops(image: Seq<u8>) -> Seq<OpView> {
    seq![OpView::FirmwareWrite { address: RESET_REGISTER, data: seq![1] }] + firmware_parts(
        image,
        firmware_count(image),
    ) + seq![OpView::FirmwareWrite { address: RESET_REGISTER, data: seq![0] }]
}

fn copy_part(image: &Vec<u8>, from: usize, to: usize) -> (result: Vec<u8>)
    requires
        from <= to <= image@.len(),
    ensures
        result@ == image@.subrange(from as int, to as int),
{
    let mut result: Vec<u8> = Vec::new();
    let mut index: usize = from;
    while index < to
        invariant
            from <= index <= to <= image@.len(),
            result@ == image@.subrange(from as int, index as int),
        decreases to - index,
    {
        result.push(image[index]);
        proof {
            assert(image@.subrange(from as int, index as int).push(image@[index as int])
                =~= image@.subrange(from as int, index + 1));
        }
        index += 1;
    }
    result
}

/// Lists the operations of an explicit USB firmware recovery. Only an image for this very device
/// may be passed.
pub fn recover_usb_firmware(image: &Vec<u8>) -> (result: Result<Vec<DeviceOp>, LogicAnalyzerError>)
    ensures
        match result {
            Ok(ops) => 0 < image@.len() <= 0x1_0000 && op_views(ops@) == firmware_ops(image@),
            Err(error) => (image@.len() == 0 || image@.len() > 0x1_0000) && error@
                == ErrorView::InvalidSettings(
                "firmware image must fit in the 16-bit FX2 address space"@,
            ),
        },
{
    if image.len() == 0 || image.len() > 0x1_0000 {
        return Err(invalid_settings("firmware image must fit in the 16-bit FX2 address space"));
    }
    let hold: Vec<u8> = vec![1];
    assert(hold@ =~= seq![1u8]);
    let release: Vec<u8> = vec![0];
    assert(release@ =~= seq![0u8]);
    let mut ops: Vec<DeviceOp> = Vec::new();
    ops.push(DeviceOp::FirmwareWrite { address: RESET_REGISTER, data: hold });
    let mut index: usize = 0;
    let mut from: usize = 0;
    let ghost head = seq![OpView::FirmwareWrite { address: RESET_REGISTER, data: seq![1] }];
    assert(op_views(ops@) =~= head + firmware_parts(image@, 0));
    while from < image.len()
        invariant
            0 < image@.len() <= 0x1_0000,
            from == index * FIRMWARE_CHUNK || (from == image@.len() && index == firmware_count(
                image@,
            )),
            from <= image@.len(),
            index <= firmware_count(image@),
            from < image@.len() ==> from == index * FIRMWARE_CHUNK,
            from == image@.len() ==> index == firmware_count(image@),
            op_views(ops@) == head + firmware_parts(image@, index as nat),
        decreases image@.len() - from,
    {
        let left: usize = image.len() - from;
        let to: usize = if left > FIRMWARE_CHUNK {
            from + FIRMWARE_CHUNK
        } else {
            image.len()
        };
        let ghost before = op_views(ops@);
        ops.push(
            DeviceOp::FirmwareWrite { address: from as u16, data: copy_part(image, from, to) },
        );
        proof {
            assert(op_views(ops@) =~= before.push(ops@.last()@));
            assert(image@.subrange(from as int, to as int) == firmware_part(image@, index as int));
            assert(op_views(ops@) =~= head + firmware_parts(image@, (index + 1) as nat));
        }
        from = to;
        index += 1;
    }
    let ghost before = op_views(ops@);
    ops.push(DeviceOp::FirmwareWrite { address: RESET_REGISTER, data: release });
    proof {
        assert(op_views(ops@) =~= before.push(ops@.last()@));
        assert(op_views(ops@) =~= firmware_ops(image@));
    }
    Ok(ops)
}

/// The operation of an explicit write to the nonvolatile memory; no capture asks for it.
pub fn dangerous_write_nvm(offset: u16, data: Vec<u8>) -> (result: DeviceOp)
    ensures
        result@ == command(12, offset, data@),
{
    DeviceOp::Command { command: 12, offset, data }
}

/// A zero version is never taken for an incompatible image at once: the first two zeros only lead
/// to another reading after a pause.
pub proof fn law_zero_version_is_read_again(
    setup: SetupView,
    again: bool,
    attempt: u8,
    data: Seq<u8>,
    paused: Seq<u8>,
)
    requires
        setup.phase == (SetupPhase::Version { again, attempt }),
        1 <= attempt < 3,
        data.len() == 5,
        data[4] == 0,
    ensures
        ({
            let (waiting, pause) = operated(setup, Ok(data));
            let (reading, step) = operated(waiting, Ok(paused));
            &&& pause == SetupStepView::Op(OpView::Pause { milliseconds: 20 })
            &&& reading == (SetupView {
                phase: SetupPhase::Version { again, attempt: (attempt + 1) as u8 },
                ..setup
            })
            &&& step == SetupStepView::Op(phase_op(setup.phase))
        }),
{
}

/// The data path is restored before a failed load is reported: whatever the wait for the loaded
/// logic and its version say, the next command restores the path, and only its result ends the
/// setup with the failure.
pub proof fn law_failed_load_restores_the_data_path(
    setup: SetupView,
    wait: Result<Seq<u8>, ErrorView>,
    version: Seq<u8>,
    restored: Seq<u8>,
)
    requires
        setup.phase == SetupPhase::LoadWait,
        version.len() == 5,
    ensures
        ({
            let (first, step) = operated(setup, wait);
            let (second, restore) = if wait is Ok {
                (first, step)
            } else {
                operated(first, Ok(version))
            };
            &&& wait is Err ==> step == SetupStepView::Op(
                OpView::ReadBack { command: 15, offset: 0, length: 5 },
            )
            &&& restore == SetupStepView::Op(command(7, 0, seq![1]))
            &&& wait is Err && version[4] != LOGIC_VERSION ==> operated(second, Ok(restored)).1
                == SetupStepView::Done(
                Err(ErrorView::Protocol(load_message(version[4], wait->Err_0))),
            )
            &&& wait is Ok || version[4] == LOGIC_VERSION ==> operated(second, Ok(restored)).1
                == SetupStepView::Op(command(5, 0, seq![1]))
        }),
{
}

} // verus!
