//! What requests, settings and transfers of a driver come to.

use vstd::prelude::*;

use super::capture::{driver_plan, fresh_driver, negotiated, DriverView};
use super::packet::{is_packet, packet_overflows};
use super::plan::{configured, planned, rates, DsLogicCapturePlan, LinkSpeed, SettingsView};
use super::plan_laws::law_rates_divide_the_clock;
use super::setup::{
    continued, is_arm_script, load_ops, loading, op_views, preparation, ArmScript, SetupPhase,
    SetupReplyView, SetupStepView, SetupView,
};
use super::usb::{answers, carried_out, usb_failure, RequestView, Transfer, UsbError, UsbReply};
use crate::logic_analyzer::config::{CaptureMode, LogicCaptureConfig, Threshold};
use crate::logic_analyzer::error::{ErrorView, LogicAnalyzerError};

verus! {

/// A request that is accepted settles the plan that captures then follow. One that is refused
/// leaves no plan of an earlier request behind, and one that asks for what no device can do leaves
/// everything as it was. The state of a running capture is not touched.
pub proof fn law_request_settles_the_plan(
    before: DriverView,
    config: LogicCaptureConfig,
    after: DriverView,
    result: Result<DsLogicCapturePlan, LogicAnalyzerError>,
)
    requires
        negotiated(before, config, after, result),
    ensures
        result matches Ok(plan) ==> {
            &&& after.plan == Some(plan)
            &&& driver_plan(after) == Ok::<DsLogicCapturePlan, ErrorView>(plan)
            &&& configured(config) == Ok::<SettingsView, ErrorView>(after.settings)
            &&& planned(before.link_speed, after.settings) == Ok::<DsLogicCapturePlan, ErrorView>(
                plan,
            )
        },
        result matches Err(error) ==> (if configured(config) is Err {
            configured(config) == Err::<SettingsView, ErrorView>(error@) && after == before
        } else {
            after.plan is None && driver_plan(after) == Err::<DsLogicCapturePlan, ErrorView>(error@)
        }),
        after.link_speed == before.link_speed,
        after.active == before.active,
        after.bit_position == before.bit_position,
        after.bytes_remaining == before.bytes_remaining,
        after.queued_data_receives == before.queued_data_receives,
        after.device_block_carry == before.device_block_carry,
        after != before ==> !after.prepared && after.trigger_header is None,
{
}

/// A driver starts out idle, with the settings of a small capture: 1024 samples of the first input
/// at one megahertz, the trigger in the middle.
pub proof fn law_driver_starts_out_idle(speed: LinkSpeed)
    ensures
        ({
            let driver = fresh_driver(speed);
            &&& driver.link_speed == speed
            &&& !driver.active
            &&& !driver.prepared
            &&& driver.plan is None
            &&& driver.bit_position == 0
            &&& driver.queued_data_receives == 0
            &&& driver.settings.mode == CaptureMode::Finite
            &&& driver.settings.sample_rate_hz == 1_000_000
            &&& driver.settings.input_mask == 1
            &&& driver.settings.sample_limit == 1024
            &&& 2 * driver.settings.trigger_percent == 100
            &&& driver.settings.threshold is None
            &&& driver.settings.trigger.stages.len() == 0
            &&& !driver.settings.external_clock
        }),
{
}

/// Settings for which there is a plan have a settings packet.
pub proof fn law_planned_settings_have_a_packet(speed: LinkSpeed, settings: SettingsView)
    requires
        planned(speed, settings) is Ok,
    ensures
        !packet_overflows(settings, planned(speed, settings)->Ok_0),
{
    let plan = planned(speed, settings)->Ok_0;
    let rate = settings.sample_rate_hz;
    assert(rates().contains(rate));
    let i = choose|i: int| 0 <= i < rates().len() && rates()[i] == rate;
    if i > 0 {
        law_rates_divide_the_clock(0, i);
    } else {
        law_rates_divide_the_clock(0, 1);
    }
    assert(rate <= 1_000_000_000);
    let channels = plan.channels;
    assert(rate * channels <= 1_000_000_000 * 255) by (nonlinear_arith)
        requires
            rate <= 1_000_000_000,
            channels <= 255,
    ;
}

/// Every script first prepares the device. Where the settings cannot be sent it stops there, with
/// the reason; else it goes on to send a packet for the settings.
pub proof fn law_script_prepares_before_it_sends(
    script: ArmScript,
    speed: LinkSpeed,
    settings: SettingsView,
    plan: DsLogicCapturePlan,
)
    requires
        is_arm_script(script, speed, settings, plan),
    ensures
        op_views(script.ops@).take(preparation(settings).len() as int) == preparation(settings),
        script.failure is Some ==> script.ops@.len() == preparation(settings).len(),
        script.failure is None ==> script.ops@.len() > preparation(settings).len() && exists|
            packet: Seq<u8>,
        | #[trigger] is_packet(packet, settings, plan),
        script.failure is Some <==> settings.threshold == Some(Threshold::NotFinite)
            || packet_overflows(settings, plan),
{
    let ops = op_views(script.ops@);
    let count = preparation(settings).len() as int;
    assert(ops.len() == script.ops@.len());
    assert(ops.take(count) =~= preparation(settings));
}

/// An image is loaded where its length can be written in three bytes and is not zero; one that is
/// not there or could not be read ends the setup.
pub proof fn law_loadable_images(setup: SetupView, image: Seq<u8>, error: ErrorView)
    requires
        load_ops(image).len() > 0,
    ensures
        0 < image.len() < 256 * 256 * 256 ==> {
            &&& loading(setup, image).0.phase == SetupPhase::Load
            &&& loading(setup, image).1 == SetupStepView::Op(load_ops(image)[0])
            &&& loading(setup, image).0.script == load_ops(image).skip(1)
        },
        !(0 < image.len() < 256 * 256 * 256) ==> {
            &&& loading(setup, image).0.phase == SetupPhase::Finished
            &&& (loading(setup, image).1 matches SetupStepView::Done(Err(_)))
        },
        continued(setup, SetupReplyView::Image(Some(Ok(image)))) == loading(setup, image),
        continued(setup, SetupReplyView::Image(None)).0.phase == SetupPhase::Finished,
        continued(setup, SetupReplyView::Image(None)).1 matches SetupStepView::Done(Err(_)),
        continued(setup, SetupReplyView::Image(Some(Err(error)))).1 == SetupStepView::Done(
            Err(error),
        ),
{
}

/// The bytes that a transfer sent to the device.
pub open spec fn sent_bytes(transfer: Transfer) -> Option<Seq<u8>> {
    match transfer {
        Transfer::ControlWrite { data, .. } => Some(data),
        Transfer::BulkWrite { data, .. } => Some(data),
        _ => None,
    }
}

/// The bytes that a request asks to send.
pub open spec fn bytes_to_send(request: RequestView) -> Option<Seq<u8>> {
    match request {
        RequestView::ControlWrite { data, .. } => Some(data),
        RequestView::BulkWrite { data } => Some(data),
        _ => None,
    }
}

/// A transfer that carries out a request sends just the bytes that the request asks to send, and
/// the reply reports what the transfer brought. Bytes go out to an endpoint of the device and come
/// in from one of the other direction.
pub proof fn law_transfers_carry_out_requests(
    request: RequestView,
    reply: UsbReply,
    transfer: Transfer,
)
    requires
        carried_out(request, reply, transfer),
    ensures
        sent_bytes(transfer) == bytes_to_send(request),
        answers(request, reply),
        transfer matches Transfer::BulkWrite { endpoint, timeout_ms, .. } ==> endpoint == 0x02
            && timeout_ms == 1_000,
        transfer matches Transfer::BulkRead { endpoint, .. } ==> endpoint == 0x86,
        transfer matches Transfer::ControlWrite { timeout_ms, index, .. } ==> timeout_ms == 3_000
            && index == 0,
        transfer matches Transfer::ControlRead { timeout_ms, index, .. } ==> timeout_ms == 3_000
            && index == 0,
        reply matches UsbReply::Read(Ok((buffer, count))) ==> match transfer {
            Transfer::ControlRead { data, result, .. } => buffer@ == data && result == Ok::<
                usize,
                UsbError,
            >(count),
            Transfer::BulkRead { data, result, .. } => buffer@ == data && result == Ok::<
                usize,
                UsbError,
            >(count),
            _ => false,
        },
{
}

/// A transfer that did not end in time is reported as a timeout and any other failure as one of the
/// transport, each with what was being done.
pub proof fn law_timeouts_are_told_apart(action: Seq<char>)
    ensures
        usb_failure(UsbError::Timeout, action) == ErrorView::Timeout(action),
        usb_failure(UsbError::Other, action) == ErrorView::Transport(action),
{
}

} // verus!
