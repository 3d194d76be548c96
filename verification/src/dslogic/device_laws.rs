//! What the operations on the device come to.

use vstd::prelude::*;

use super::capture::DriverView;
use super::fetch::{
    data_failed, fetch_begun, fetch_continued, fetching, moved, reading, received, with_header,
    FetchReply, FetchStage, FetchStepView,
};
use super::ops::{
    after_upload, begun, command_bytes, read_back_bytes, resumed, status_reached, written_length,
    OpReply, OpStage, OpStepView, OpView,
};
use super::packet::PACKET_BYTES;
use super::plan::{LinkSpeed, SettingsView};
use super::setup::{
    clock_ops, firmware_count, firmware_ops, firmware_part, firmware_parts, load_ops, operated,
    preparation, send_ops, ArmView, SetupPhase, SetupStepView, SetupView,
};
use super::usb::{RequestView, UsbError, UsbReply};
use crate::bit_laws::{bytes_number, law_byte_has_binary_digits, law_two_bytes, number_bit};
use crate::bits::byte_bit;
use crate::logic_analyzer::config::{CaptureMode, Threshold};
use crate::logic_analyzer::error::ErrorView;

verus! {

/// A runtime command is its number, its offset as two little-endian bytes, the number of its data
/// bytes, and these bytes; and just so many bytes have to be written.
pub proof fn law_command_payload(command: u8, offset: u16, data: Seq<u8>)
    requires
        data.len() <= 60,
    ensures
        ({
            let bytes = command_bytes(command, offset, data);
            &&& bytes[0] == command
            &&& bytes_number(bytes.subrange(1, 3)) == offset
            &&& bytes[3] == data.len()
            &&& bytes.skip(4) == data
            &&& bytes.len() == written_length(OpView::Command { command, offset, data })
        }),
        ({
            let bytes = read_back_bytes(command, offset, data.len() as int);
            &&& bytes.len() == 4
            &&& bytes[0] == command
            &&& bytes_number(bytes.subrange(1, 3)) == offset
            &&& bytes[3] == data.len()
        }),
{
    law_two_bytes(offset);
    let bytes = command_bytes(command, offset, data);
    assert(bytes.subrange(1, 3) =~= crate::little_endian::bytes16(offset));
    assert(bytes.skip(4) =~= data);
    let asked = read_back_bytes(command, offset, data.len() as int);
    assert(asked.subrange(1, 3) =~= crate::little_endian::bytes16(offset));
}

proof fn lemma_masked_bv(status: u8, bits: u8, j: u8)
    by (bit_vector)
    requires
        j < 8,
    ensures
        status & bits == bits ==> ((bits >> j) & 1u8 == 1u8 ==> (status >> j) & 1u8 == 1u8),
        status & bits == 0 ==> ((bits >> j) & 1u8 == 1u8 ==> (status >> j) & 1u8 != 1u8),
{
}

proof fn lemma_unmasked_bv(status: u8, bits: u8)
    by (bit_vector)
    ensures
        status & bits != bits ==> ((bits >> 0u8) & 1u8 == 1u8 && (status >> 0u8) & 1u8 != 1u8) || ((bits >> 1u8)
            & 1u8 == 1u8 && (status >> 1u8) & 1u8 != 1u8) || ((bits >> 2u8) & 1u8 == 1u8 && (status >> 2u8)
            & 1u8 != 1u8) || ((bits >> 3u8) & 1u8 == 1u8 && (status >> 3u8) & 1u8 != 1u8) || ((bits >> 4u8)
            & 1u8 == 1u8 && (status >> 4u8) & 1u8 != 1u8) || ((bits >> 5u8) & 1u8 == 1u8 && (status >> 5u8)
            & 1u8 != 1u8) || ((bits >> 6u8) & 1u8 == 1u8 && (status >> 6u8) & 1u8 != 1u8) || ((bits >> 7u8)
            & 1u8 == 1u8 && (status >> 7u8) & 1u8 != 1u8),
        status & bits != 0 ==> ((bits >> 0u8) & 1u8 == 1u8 && (status >> 0u8) & 1u8 == 1u8) || ((bits >> 1u8)
            & 1u8 == 1u8 && (status >> 1u8) & 1u8 == 1u8) || ((bits >> 2u8) & 1u8 == 1u8 && (status >> 2u8)
            & 1u8 == 1u8) || ((bits >> 3u8) & 1u8 == 1u8 && (status >> 3u8) & 1u8 == 1u8) || ((bits >> 4u8)
            & 1u8 == 1u8 && (status >> 4u8) & 1u8 == 1u8) || ((bits >> 5u8) & 1u8 == 1u8 && (status >> 5u8)
            & 1u8 == 1u8) || ((bits >> 6u8) & 1u8 == 1u8 && (status >> 6u8) & 1u8 == 1u8) || ((bits >> 7u8)
            & 1u8 == 1u8 && (status >> 7u8) & 1u8 == 1u8),
{
}

/// A status is reached where all the bits that are asked for are set, or where all of them are clear.
pub proof fn law_status_is_reached_bit_by_bit(status: u8, bits: u8)
    ensures
        status_reached(status, bits, true) <==> forall|j: int|
            0 <= j < 8 && #[trigger] byte_bit(bits, j) ==> byte_bit(status, j),
        status_reached(status, bits, false) <==> forall|j: int|
            0 <= j < 8 && #[trigger] byte_bit(bits, j) ==> !byte_bit(status, j),
        forall|j: int|
            0 <= j < 8 ==> (#[trigger] byte_bit(bits, j) <==> number_bit(bits as int, j as nat)),
{
    assert forall|j: int| 0 <= j < 8 implies (status & bits == bits ==> (#[trigger] byte_bit(bits, j)
        ==> byte_bit(status, j))) && (status & bits == 0 ==> (byte_bit(bits, j) ==> !byte_bit(
        status,
        j,
    ))) && (byte_bit(bits, j) <==> number_bit(bits as int, j as nat)) by {
        lemma_masked_bv(status, bits, j as u8);
        law_byte_has_binary_digits(bits, j);
    }
    lemma_unmasked_bv(status, bits);
    assert(byte_bit(bits, 0) == ((bits >> 0u8) & 1u8 == 1u8));
    assert(byte_bit(bits, 1) == ((bits >> 1u8) & 1u8 == 1u8));
    assert(byte_bit(bits, 2) == ((bits >> 2u8) & 1u8 == 1u8));
    assert(byte_bit(bits, 3) == ((bits >> 3u8) & 1u8 == 1u8));
    assert(byte_bit(bits, 4) == ((bits >> 4u8) & 1u8 == 1u8));
    assert(byte_bit(bits, 5) == ((bits >> 5u8) & 1u8 == 1u8));
    assert(byte_bit(bits, 6) == ((bits >> 6u8) & 1u8 == 1u8));
    assert(byte_bit(bits, 7) == ((bits >> 7u8) & 1u8 == 1u8));
}

/// An upload goes on until all is sent: what has been acknowledged and what is sent next make up the
/// data, and the upload ends well exactly where nothing is left. An exact upload is one transfer.
pub proof fn law_upload_sends_everything(data: Seq<u8>, sent: usize, count: usize)
    requires
        sent + count <= data.len() <= usize::MAX,
        count > 0,
    ensures
        ({
            let (stage, step) = after_upload(data, false, sent as int, Ok(count));
            &&& sent + count == data.len() <==> stage is Finished
            &&& stage is Finished ==> step == OpStepView::Done(Ok(Seq::empty()))
            &&& !(stage is Finished) ==> {
                &&& stage matches OpStage::Uploading { sent: now } && now == sent + count
                &&& step matches OpStepView::Ask(RequestView::BulkWrite { data: next })
                    && data.take(sent + count) + next == data
            }
        }),
        after_upload(data, false, sent as int, Ok(0)).1 matches OpStepView::Done(Err(_)),
        (after_upload(data, true, 0, Ok(count)).1 matches OpStepView::Done(Ok(_))) <==> count
            == data.len(),
{
    assert(data.take(sent + count) + data.skip(sent + count) =~= data);
}

/// A read-back is asked for, left to settle and fetched, and its answer is the bytes that were read,
/// where they are as many as were asked for. A write of another length is an error.
pub proof fn law_course_of_a_read_back(
    command: u8,
    offset: u16,
    length: usize,
    buffer: Vec<u8>,
    count: usize,
)
    requires
        length <= 255,
        buffer@.len() == length,
    ensures
        ({
            let op = OpView::ReadBack { command, offset, length };
            let (writing, ask) = begun(op);
            let (settling, pause) = resumed(
                op,
                writing,
                OpReply::Usb(UsbReply::Written(Ok(4))),
            );
            let (fetch, read) = resumed(op, settling, OpReply::Elapsed);
            let (end, done) = resumed(
                op,
                fetch,
                OpReply::Usb(UsbReply::Read(Ok((buffer, count)))),
            );
            &&& ask == OpStepView::Ask(
                RequestView::ControlWrite {
                    request_type: 0x40,
                    request: 0xb1,
                    value: 0,
                    data: read_back_bytes(command, offset, length as int),
                },
            )
            &&& pause == OpStepView::Pause { milliseconds: 10 }
            &&& read == OpStepView::Ask(
                RequestView::ControlRead { request_type: 0xc0, request: 0xb2, value: 0, length },
            )
            &&& end == OpStage::Finished
            &&& count == length ==> done == OpStepView::Done(Ok(buffer@))
            &&& count != length ==> (done matches OpStepView::Done(Err(_)))
            &&& count != 4 ==> (resumed(
                op,
                writing,
                OpReply::Usb(UsbReply::Written(Ok(count))),
            ).1 matches OpStepView::Done(Err(_)))
        }),
{
}

/// A wait for the status reads it again and again while its time runs: it ends with the status where
/// that is reached, and with an error once the time is over.
pub proof fn law_course_of_a_status_wait(
    bits: u8,
    set: bool,
    timeout_ms: u64,
    buffer: Vec<u8>,
    status: u8,
)
    requires
        buffer@.len() == 1,
    ensures
        ({
            let op = OpView::AwaitStatus { bits, set, timeout_ms };
            let (starting, timer) = begun(op);
            let (timing, check) = resumed(op, starting, OpReply::Elapsed);
            let (writing, ask) = resumed(
                op,
                OpStage::Timing { status },
                OpReply::Timer { running: true },
            );
            let (late, error) = resumed(
                op,
                OpStage::Timing { status },
                OpReply::Timer { running: false },
            );
            let (next, step) = resumed(
                op,
                OpStage::Reading,
                OpReply::Usb(UsbReply::Read(Ok((buffer, 1)))),
            );
            &&& timer == OpStepView::StartTimer { milliseconds: timeout_ms }
            &&& check == OpStepView::CheckTimer
            &&& timing is Timing
            &&& writing == OpStage::Writing
            &&& ask == OpStepView::Ask(
                RequestView::ControlWrite {
                    request_type: 0x40,
                    request: 0xb1,
                    value: 0,
                    data: read_back_bytes(2, 0, 1),
                },
            )
            &&& late == OpStage::Finished
            &&& error matches OpStepView::Done(Err(ErrorView::Timeout(_)))
            &&& status_reached(buffer@[0], bits, set) ==> step == OpStepView::Done(Ok(buffer@))
            &&& !status_reached(buffer@[0], bits, set) ==> next == (OpStage::Timing {
                status: buffer@[0],
            }) && step == OpStepView::CheckTimer
        }),
{
}

/// The load of an image announces its length as a little-endian number and sends the image as it is.
pub proof fn law_load_announces_the_image(image: Seq<u8>)
    requires
        0 < image.len() <= 0xff_ffff,
    ensures
        load_ops(image).len() == 12,
        load_ops(image)[6] matches OpView::Command { command, data, .. } && command == 10
            && bytes_number(data) == image.len() && data.len() == 3,
        load_ops(image)[7] == (OpView::Upload { data: image, exact: true }),
{
    reveal_with_fuel(bytes_number, 4);
    let data = seq![
        (image.len() % 256) as u8,
        (image.len() / 256 % 256) as u8,
        (image.len() / 0x1_0000 % 256) as u8,
    ];
    let a = data.skip(1);
    let b = a.skip(1);
    assert(a[0] == data[1] && b[0] == data[2] && b.skip(1).len() == 0);
    let len = image.len() as int;
    assert(len == len % 256 + 256 * (len / 256 % 256) + 0x1_0000 * (len / 0x1_0000 % 256));
}

/// The settings are sent behind the end of any capture: the length of the packet is announced in words
/// of two bytes, the packet follows once the device is ready for it, and a slower link is told first.
pub proof fn law_settings_are_announced_and_sent(speed: LinkSpeed, packet: Seq<u8>)
    ensures
        ({
            let ops = send_ops(speed, packet);
            let first: int = if speed == LinkSpeed::High {
                2
            } else {
                1
            };
            &&& ops.len() == first + 5
            &&& ops[0] == (OpView::Command { command: 9, offset: 0, data: Seq::empty() })
            &&& speed == LinkSpeed::High ==> ops[1] == (OpView::Command {
                command: 7,
                offset: 0,
                data: seq![1],
            })
            &&& ops[first] matches OpView::Command { command, data, .. } && command == 10 && 2
                * bytes_number(data) == PACKET_BYTES
            &&& ops[first + 1] matches OpView::AwaitStatus { bits, set, .. } && bits == 8 && set
            &&& ops[first + 2] == (OpView::Upload { data: packet, exact: false })
        }),
{
    reveal_with_fuel(bytes_number, 4);
    let data: Seq<u8> = seq![0x50, 0x01, 0];
    let a = data.skip(1);
    let b = a.skip(1);
    assert(a[0] == data[1] && b[0] == data[2] && b.skip(1).len() == 0);
    assert(bytes_number(data) == 0x150);
}

/// Before the settings the internal clock is started, where it is used, and the threshold is set, where
/// one is asked for.
pub proof fn law_preparation(settings: SettingsView, code: u8)
    ensures
        ({
            let ops = preparation(settings);
            let clock: nat = if settings.external_clock {
                0
            } else {
                clock_ops().len()
            };
            &&& !settings.external_clock ==> clock_ops().is_prefix_of(ops)
            &&& settings.threshold is None ==> ops.len() == clock
            &&& settings.threshold == Some(Threshold::Code(code)) ==> ops.len() == clock + 1
                && ops.last() == (OpView::Command { command: 14, offset: 0x78, data: seq![code] })
        }),
        clock_ops().len() == 14,
{
}

/// The data of writes to the memory of the controller, one behind the other.
pub open spec fn written_data(ops: Seq<OpView>) -> Seq<u8>
    decreases ops.len(),
{
    if ops.len() == 0 {
        Seq::empty()
    } else {
        written_data(ops.drop_last()) + ops.last()->FirmwareWrite_data
    }
}

proof fn lemma_firmware_parts(image: Seq<u8>, count: nat)
    requires
        count <= firmware_count(image),
        image.len() <= 0x1_0000,
    ensures
        written_data(firmware_parts(image, count)) == image.take(
            if count * 4096 < image.len() {
                (count * 4096) as int
            } else {
                image.len() as int
            },
        ),
    decreases count,
{
    let parts = firmware_parts(image, count);
    if count == 0 {
        assert(image.take(0) =~= Seq::<u8>::empty());
    } else {
        let less = (count - 1) as nat;
        lemma_firmware_parts(image, less);
        assert(parts.drop_last() =~= firmware_parts(image, less));
        let end = if count * 4096 < image.len() {
            (count * 4096) as int
        } else {
            image.len() as int
        };
        assert(less * 4096 < image.len());
        assert(image.take((less * 4096) as int) + firmware_part(image, less as int) =~= image.take(end));
    }
}

/// A firmware image is written whole, in parts that follow each other from address zero on, while the
/// controller is held in reset.
pub proof fn law_firmware_is_written_whole(image: Seq<u8>, part: int)
    requires
        0 < image.len() <= 0x1_0000,
        0 <= part < firmware_count(image),
    ensures
        ({
            let ops = firmware_ops(image);
            let parts = firmware_parts(image, firmware_count(image));
            &&& ops == seq![ops[0]] + parts + seq![ops.last()]
            &&& ops[0] == (OpView::FirmwareWrite { address: 0xe600, data: seq![1] })
            &&& ops.last() == (OpView::FirmwareWrite { address: 0xe600, data: seq![0] })
            &&& written_data(parts) == image
            &&& parts[part] matches OpView::FirmwareWrite { address, data } && address
                == written_data(parts.take(part)).len() && data.len() <= 4096
        }),
{
    let count = firmware_count(image);
    let parts = firmware_parts(image, count);
    lemma_firmware_parts(image, count);
    lemma_firmware_parts(image, part as nat);
    assert(parts.take(part) =~= firmware_parts(image, part as nat));
    assert(image.take(image.len() as int) =~= image);
    assert(part * 4096 < image.len());
    let ops = firmware_ops(image);
    assert(ops =~= seq![ops[0]] + parts + seq![ops.last()]);
}

proof fn lemma_status_bit_bv(status: u8)
    by (bit_vector)
    ensures
        (status & 0x40 != 0) == ((status >> 6u8) & 1u8 == 1u8),
        (status & 0x10 != 0) == ((status >> 4u8) & 1u8 == 1u8),
{
}

/// A device whose capture logic runs in the right version is not loaded again: the version is read
/// twice, once as it is and once behind a cleared acquisition, then the firmware is checked and the
/// settings are sent. Without capture logic an image is looked for.
pub proof fn law_course_of_a_setup(
    arm: ArmView,
    status: Seq<u8>,
    firmware: Seq<u8>,
    cleared: Seq<u8>,
    version: Seq<u8>,
)
    requires
        status.len() == 1,
        firmware.len() == 2,
        version.len() == 5,
        arm.ops.len() > 0,
    ensures
        ({
            let start = SetupView {
                phase: SetupPhase::Status,
                script: Seq::empty(),
                failure: None,
                arm: Some(arm),
            };
            let (s1, _) = operated(start, Ok(status));
            let (s2, step2) = operated(s1, Ok(firmware));
            let (s3, step3) = operated(s2, Ok(cleared));
            let (s4, step4) = operated(s3, Ok(version));
            let (s5, step5) = operated(s4, Ok(cleared));
            let (s6, step6) = operated(s5, Ok(version));
            let (s7, step7) = operated(s6, Ok(firmware));
            let running = number_bit(status[0] as int, 6);
            &&& !running ==> step2 == SetupStepView::FindImage
            &&& running ==> step2 == SetupStepView::Op(
                OpView::Command { command: 14, offset: 0x70, data: seq![0] },
            ) && step3 == SetupStepView::Op(
                OpView::ReadBack { command: 15, offset: 0, length: 5 },
            )
            &&& running && version[4] != 0 && version[4] != 0x0e ==> step4 == SetupStepView::FindImage
            &&& running && version[4] == 0x0e ==> {
                &&& step4 == SetupStepView::Op(
                    OpView::Command { command: 14, offset: 0x70, data: seq![0] },
                )
                &&& step5 == step3
                &&& step6 == SetupStepView::Op(
                    OpView::ReadBack { command: 0, offset: 0, length: 2 },
                )
                &&& firmware[0] == 2 ==> step7 == SetupStepView::Op(arm.ops[0]) && s7.phase
                    == SetupPhase::Arm && s7.script == arm.ops.skip(1)
                &&& firmware[0] != 2 ==> (step7 matches SetupStepView::Done(Err(_)))
            }
        }),
{
    lemma_status_bit_bv(status[0]);
    law_byte_has_binary_digits(status[0], 6);
}

/// The bytes that a read moved are the first of its buffer.
pub proof fn law_moved_bytes(buffer: Seq<u8>, count: int)
    requires
        0 <= count,
    ensures
        moved(buffer, count).is_prefix_of(buffer),
        count <= buffer.len() ==> moved(buffer, count).len() == count,
        count > buffer.len() ==> moved(buffer, count) == buffer,
{
}

/// A finite capture reads what is left of it, up to a megabyte at a time; a stream reads one transfer
/// at a time. A driver that does not capture reads nothing.
pub proof fn law_data_reads(driver: DriverView, consumed: bool)
    requires
        driver.plan is Some,
    ensures
        reading(driver, consumed).step matches FetchStepView::Ask(
            RequestView::BulkRead { length, timeout_ms },
        ) && (driver.bytes_remaining matches Some(left) ==> length <= left && length <= 0x10_0000 && (
        length == left || length == 0x10_0000)) && (driver.bytes_remaining is None ==> length
            == driver.plan->0.stream_buffer) && timeout_ms == (if driver.settings.mode
            == CaptureMode::Finite {
            20u64
        } else {
            125
        }),
        reading(driver, consumed).driver == driver,
        !driver.active ==> fetch_begun(driver).step == FetchStepView::Done(
            Err(ErrorView::NotCapturing),
        ) && fetch_begun(driver).driver == driver,
{
}

/// A header that is late holds a finite capture up, which then hands out a chunk without data, but not
/// a stream, whose data is fetched all the same.
pub proof fn law_late_header(driver: DriverView)
    requires
        driver.plan is Some,
    ensures
        ({
            let fetched = fetch_continued(
                driver,
                FetchStage::Header,
                Seq::empty(),
                FetchReply::Taken(Err(UsbError::Timeout)),
            );
            &&& driver.settings.mode == CaptureMode::Finite ==> fetched.driver == driver && (
            fetched.step matches FetchStepView::Done(Ok(Some(chunk))) && chunk.data.len() == 0
                && chunk.start_bit == driver.bit_position)
            &&& driver.settings.mode == CaptureMode::Streaming ==> fetched == fetching(driver)
        }),
{
}

/// A stream keeps its receives: the one that was used up is replaced before its data is handed out, so
/// that afterwards as many are queued as before.
pub proof fn law_stream_keeps_its_receives(driver: DriverView, data: Vec<u8>)
    requires
        driver.plan is Some,
        driver.settings.mode == CaptureMode::Streaming,
        driver.queued_data_receives > 0,
        data@.len() > 0,
    ensures
        ({
            let taken = fetch_continued(
                driver,
                FetchStage::Data,
                Seq::empty(),
                FetchReply::Taken(Ok(Some(data))),
            );
            let replaced = fetch_continued(
                taken.driver,
                taken.stage,
                taken.held,
                FetchReply::Queued(Ok(true)),
            );
            &&& taken.step == FetchStepView::Ask(
                RequestView::QueueBulkRead { length: driver.plan->0.stream_buffer },
            )
            &&& taken.held == data@
            &&& taken.driver.queued_data_receives == driver.queued_data_receives - 1
            &&& replaced.driver.queued_data_receives == driver.queued_data_receives
        }),
{
}

/// A stream that is idle is asked whether it lost samples, and an answer with the overflow bit ends it
/// with an error; without that bit it goes on with a chunk without data. A finite capture that is idle
/// ends.
pub proof fn law_idle_stream_is_checked(driver: DriverView, status: Vec<u8>, consumed: bool)
    requires
        driver.plan is Some,
        status@.len() == 1,
    ensures
        driver.settings.mode == CaptureMode::Streaming ==> received(
            driver,
            Seq::empty(),
            consumed,
        ).step == FetchStepView::Op(OpView::ReadBack { command: 2, offset: 0, length: 1 }),
        driver.settings.mode == CaptureMode::Finite ==> received(
            driver,
            Seq::empty(),
            consumed,
        ).step == FetchStepView::Done(Ok(None)),
        driver.settings.mode == CaptureMode::Streaming ==> data_failed(
            driver,
            UsbError::Timeout,
            Seq::empty(),
        ) == received(driver, Seq::empty(), consumed),
        ({
            let fetched = fetch_continued(
                driver,
                FetchStage::Integrity,
                Seq::empty(),
                FetchReply::Op(Ok(status)),
            );
            &&& fetched.driver == driver
            &&& number_bit(status@[0] as int, 4) <==> (fetched.step matches FetchStepView::Done(
                Err(ErrorView::Integrity(_)),
            ))
            &&& !number_bit(status@[0] as int, 4) ==> (fetched.step matches FetchStepView::Done(
                Ok(Some(chunk)),
            ) && chunk.data.len() == 0)
        }),
{
    lemma_status_bit_bv(status@[0]);
    law_byte_has_binary_digits(status@[0], 4);
}

/// A header that arrives is noted before any data is fetched, and of a finite capture it says how much
/// there is to fetch. One of another length, or that makes no sense, ends the fetch.
pub proof fn law_header_is_noted(driver: DriverView, bytes: Seq<u8>)
    requires
        driver.plan is Some,
    ensures
        ({
            let fetched = with_header(driver, bytes);
            let header = super::header::translated(bytes, driver.settings.mode, driver.plan->0);
            &&& !fetched.driver.header_receive_queued
            &&& bytes.len() != 1024 ==> (fetched.step matches FetchStepView::Done(Err(_)))
            &&& bytes.len() == 1024 && header is Err ==> fetched.step == FetchStepView::Done(
                Err(header->Err_0),
            ) && fetched.driver.header_pending == driver.header_pending
            &&& bytes.len() == 1024 && header is Ok && driver.settings.mode
                == CaptureMode::Streaming ==> !fetched.driver.header_pending
                && fetched.driver.trigger_header == Some(header->Ok_0)
            &&& bytes.len() == 1024 && header is Ok && driver.settings.mode == CaptureMode::Finite
                && super::header::delivery(header->Ok_0, driver.plan->0) is Ok
                ==> !fetched.driver.header_pending && fetched.driver.trigger_header == Some(
                header->Ok_0,
            ) && fetched.driver.bytes_remaining == Some(
                super::header::delivered(header->Ok_0, driver.plan->0) as usize,
            )
        }),
{
}

/// Starting the clock enables the register of the clock synthesizer, writes eight bytes to it, waits
/// ten milliseconds, and writes four more.
pub proof fn law_clock_is_started_in_two_steps(i: int)
    requires
        0 <= i < 14,
        i != 9,
    ensures
        ({
            let bytes: Seq<u8> = seq![
                0x01,
                0x01,
                0x61,
                0x00,
                0x30,
                0x01,
                0x40,
                0xf1,
                0x46,
                0x00,
                0x01,
                0x62,
                0x3d,
                0x40,
            ];
            &&& clock_ops().len() == bytes.len()
            &&& clock_ops()[9] == (OpView::Pause { milliseconds: 10 })
            &&& clock_ops()[i] == (OpView::Command {
                command: 14,
                offset: if i == 0 {
                    0x4a
                } else {
                    0x48
                },
                data: seq![bytes[i]],
            })
        }),
{
}

} // verus!
