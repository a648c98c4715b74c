//! Events that userspace writes to `/dev/uhid`, byte-exact with the C structs.

use vstd::prelude::*;

use crate::bytes;
use crate::bytes::{put_bytes, put_cstr, put_u16, put_u32, UHID_EVENT_SIZE};
use crate::error::UhidError;

verus! {

pub const UHID_PATH: &'static str = "/dev/uhid";

pub const UHID_DATA_MAX: usize = 4096;

pub const UHID_DESTROY: u32 = 1;

pub const UHID_START: u32 = 2;

pub const UHID_STOP: u32 = 3;

pub const UHID_OPEN: u32 = 4;

pub const UHID_CLOSE: u32 = 5;

pub const UHID_OUTPUT: u32 = 6;

pub const UHID_GET_REPORT: u32 = 9;

pub const UHID_GET_REPORT_REPLY: u32 = 10;

pub const UHID_CREATE2: u32 = 11;

pub const UHID_INPUT2: u32 = 12;

pub const UHID_SET_REPORT: u32 = 13;

pub const UHID_SET_REPORT_REPLY: u32 = 14;

pub const UHID_DEV_NUMBERED_FEATURE_REPORTS: u64 = 1;

pub const UHID_DEV_NUMBERED_OUTPUT_REPORTS: u64 = 2;

pub const UHID_DEV_NUMBERED_INPUT_REPORTS: u64 = 4;

pub const UHID_FEATURE_REPORT: u8 = 0;

pub const UHID_OUTPUT_REPORT: u8 = 1;

pub const UHID_INPUT_REPORT: u8 = 2;

pub const BUS_USB: u16 = 0x03;

pub const BUS_BLUETOOTH: u16 = 0x05;

pub const BUS_VIRTUAL: u16 = 0x06;

// Offsets of the packed `uhid_create2_req` fields inside `uhid_event`.
pub const OFF_CREATE_NAME: usize = 4;

pub const OFF_CREATE_PHYS: usize = 132;

pub const OFF_CREATE_UNIQ: usize = 196;

pub const OFF_CREATE_RD_SIZE: usize = 260;

pub const OFF_CREATE_BUS: usize = 262;

pub const OFF_CREATE_VENDOR: usize = 264;

pub const OFF_CREATE_PRODUCT: usize = 268;

pub const OFF_CREATE_VERSION: usize = 272;

pub const OFF_CREATE_COUNTRY: usize = 276;

pub const OFF_CREATE_RD_DATA: usize = 280;

/// What a new HID device is registered with.
#[derive(Debug, Clone)]
pub struct CreateParams {
    pub name: Vec<u8>,
    pub phys: Vec<u8>,
    pub uniq: Vec<u8>,
    pub bus: u16,
    pub vendor: u32,
    pub product: u32,
    pub version: u32,
    pub country: u32,
    pub descriptor: Vec<u8>,
}

/// The `UHID_CREATE2` event for `p`: the fields of the packed struct in order.
pub open spec fn create2_frame(p: CreateParams) -> Seq<u8> {
    bytes::padded(
        bytes::le32(UHID_CREATE2) + bytes::c_field(p.name@, 128)
            + bytes::c_field(p.phys@, 64) + bytes::c_field(p.uniq@, 64)
            + bytes::le16(p.descriptor@.len() as u16) + bytes::le16(p.bus)
            + bytes::le32(p.vendor) + bytes::le32(p.product) + bytes::le32(
            p.version,
        ) + bytes::le32(p.country) + p.descriptor@,
        UHID_EVENT_SIZE as nat,
    )
}

/// The `UHID_INPUT2` event that carries `data`.
pub open spec fn input2_frame(data: Seq<u8>) -> Seq<u8> {
    bytes::padded(
        bytes::le32(UHID_INPUT2) + bytes::le16(data.len() as u16) + data,
        UHID_EVENT_SIZE as nat,
    )
}

/// The `UHID_DESTROY` event.
pub open spec fn destroy_frame() -> Seq<u8> {
    bytes::padded(bytes::le32(UHID_DESTROY), UHID_EVENT_SIZE as nat)
}

/// The `UHID_GET_REPORT_REPLY` event that answers request `id`.
pub open spec fn get_report_reply_frame(id: u32, err: u16, data: Seq<u8>) -> Seq<u8> {
    bytes::padded(
        bytes::le32(UHID_GET_REPORT_REPLY) + bytes::le32(id) + bytes::le16(err)
            + bytes::le16(data.len() as u16) + data,
        UHID_EVENT_SIZE as nat,
    )
}

/// The `UHID_SET_REPORT_REPLY` event that answers request `id`.
pub open spec fn set_report_reply_frame(id: u32, err: u16) -> Seq<u8> {
    bytes::padded(
        bytes::le32(UHID_SET_REPORT_REPLY) + bytes::le32(id) + bytes::le16(
            err,
        ),
        UHID_EVENT_SIZE as nat,
    )
}

/// Every event is one whole `uhid_event`, whatever it carries.
pub proof fn law_events_are_whole(p: CreateParams, id: u32, err: u16, data: Seq<u8>)
    requires
        p.descriptor@.len() <= UHID_DATA_MAX,
        data.len() <= UHID_DATA_MAX,
    ensures
        create2_frame(p).len() == UHID_EVENT_SIZE,
        input2_frame(data).len() == UHID_EVENT_SIZE,
        destroy_frame().len() == UHID_EVENT_SIZE,
        get_report_reply_frame(id, err, data).len() == UHID_EVENT_SIZE,
        set_report_reply_frame(id, err).len() == UHID_EVENT_SIZE,
{
    bytes::lemma_text_end(p.name@);
    bytes::lemma_text_end(p.phys@);
    bytes::lemma_text_end(p.uniq@);
}

/// Every field of a create event reads back from its offset in the C struct,
/// and the bytes behind the descriptor are zero.
pub proof fn law_create2_reads_back(p: CreateParams)
    requires
        p.descriptor@.len() <= UHID_DATA_MAX,
    ensures
        ({
            let frame = create2_frame(p);
            let rd = OFF_CREATE_RD_DATA as int;
            &&& bytes::le32_at(frame, 0) == UHID_CREATE2
            &&& frame.subrange(OFF_CREATE_NAME as int, OFF_CREATE_PHYS as int) == bytes::c_field(
                p.name@,
                128,
            )
            &&& frame.subrange(OFF_CREATE_PHYS as int, OFF_CREATE_UNIQ as int) == bytes::c_field(
                p.phys@,
                64,
            )
            &&& frame.subrange(OFF_CREATE_UNIQ as int, OFF_CREATE_RD_SIZE as int)
                == bytes::c_field(p.uniq@, 64)
            &&& bytes::le16_at(frame, OFF_CREATE_RD_SIZE as int) == p.descriptor@.len()
            &&& bytes::le16_at(frame, OFF_CREATE_BUS as int) == p.bus
            &&& bytes::le32_at(frame, OFF_CREATE_VENDOR as int) == p.vendor
            &&& bytes::le32_at(frame, OFF_CREATE_PRODUCT as int) == p.product
            &&& bytes::le32_at(frame, OFF_CREATE_VERSION as int) == p.version
            &&& bytes::le32_at(frame, OFF_CREATE_COUNTRY as int) == p.country
            &&& frame.subrange(rd, rd + p.descriptor@.len()) == p.descriptor@
            &&& forall|i: int| rd + p.descriptor@.len() <= i < UHID_EVENT_SIZE ==> frame[i] == 0
        }),
{
    bytes::lemma_text_end(p.name@);
    bytes::lemma_text_end(p.phys@);
    bytes::lemma_text_end(p.uniq@);
    let frame = create2_frame(p);
    let rd = OFF_CREATE_RD_DATA as int;
    assert(frame.subrange(0, 4) =~= bytes::le32(UHID_CREATE2));
    assert(frame.subrange(4, 132) =~= bytes::c_field(p.name@, 128));
    assert(frame.subrange(132, 196) =~= bytes::c_field(p.phys@, 64));
    assert(frame.subrange(196, 260) =~= bytes::c_field(p.uniq@, 64));
    assert(frame.subrange(260, 262) =~= bytes::le16(p.descriptor@.len() as u16));
    assert(frame.subrange(262, 264) =~= bytes::le16(p.bus));
    assert(frame.subrange(264, 268) =~= bytes::le32(p.vendor));
    assert(frame.subrange(268, 272) =~= bytes::le32(p.product));
    assert(frame.subrange(272, 276) =~= bytes::le32(p.version));
    assert(frame.subrange(276, 280) =~= bytes::le32(p.country));
    assert(frame.subrange(rd, rd + p.descriptor@.len()) =~= p.descriptor@);
    bytes::lemma_le32_in(frame, 0, UHID_CREATE2);
    bytes::lemma_le16_in(frame, 260, p.descriptor@.len() as u16);
    bytes::lemma_le16_in(frame, 262, p.bus);
    bytes::lemma_le32_in(frame, 264, p.vendor);
    bytes::lemma_le32_in(frame, 268, p.product);
    bytes::lemma_le32_in(frame, 272, p.version);
    bytes::lemma_le32_in(frame, 276, p.country);
}

/// The report inside an input event reads back as it was given.
pub proof fn law_input2_reads_back(data: Seq<u8>)
    requires
        data.len() <= UHID_DATA_MAX,
    ensures
        bytes::le32_at(input2_frame(data), 0) == UHID_INPUT2,
        bytes::le16_at(input2_frame(data), 4) == data.len(),
        input2_frame(data).subrange(6, 6int + data.len()) == data,
{
}

/// The answer to a `GetReport` reads back as it was given.
pub proof fn law_get_report_reply_reads_back(id: u32, err: u16, data: Seq<u8>)
    requires
        data.len() <= UHID_DATA_MAX,
    ensures
        ({
            let frame = get_report_reply_frame(id, err, data);
            &&& bytes::le32_at(frame, 0) == UHID_GET_REPORT_REPLY
            &&& bytes::le32_at(frame, 4) == id
            &&& bytes::le16_at(frame, 8) == err
            &&& bytes::le16_at(frame, 10) == data.len()
            &&& frame.subrange(12, 12int + data.len()) == data
        }),
{
}

/// The answer to a `SetReport` reads back as it was given.
pub proof fn law_set_report_reply_reads_back(id: u32, err: u16)
    ensures
        bytes::le32_at(set_report_reply_frame(id, err), 0) == UHID_SET_REPORT_REPLY,
        bytes::le32_at(set_report_reply_frame(id, err), 4) == id,
        bytes::le16_at(set_report_reply_frame(id, err), 8) == err,
{
}

/// The create event registers a device; a descriptor over `UHID_DATA_MAX`
/// bytes is refused.
pub fn encode_create2(p: &CreateParams) -> (r: Result<[u8; UHID_EVENT_SIZE], UhidError>)
    ensures
        match r {
            Ok(ev) => p.descriptor@.len() <= UHID_DATA_MAX && ev@ == create2_frame(*p),
            Err(e) => p.descriptor@.len() > UHID_DATA_MAX && e == UhidError::DescriptorTooLarge(
                p.descriptor@.len() as usize,
            ),
        },
{
    if p.descriptor.len() > UHID_DATA_MAX {
        return Err(UhidError::DescriptorTooLarge(p.descriptor.len()));
    }
    proof {
        bytes::lemma_text_end(p.name@);
        bytes::lemma_text_end(p.phys@);
        bytes::lemma_text_end(p.uniq@);
    }
    let mut ev = [0u8; UHID_EVENT_SIZE];
    put_u32(&mut ev, 0, UHID_CREATE2);
    put_cstr(&mut ev, OFF_CREATE_NAME, 128, p.name.as_slice());
    put_cstr(&mut ev, OFF_CREATE_PHYS, 64, p.phys.as_slice());
    put_cstr(&mut ev, OFF_CREATE_UNIQ, 64, p.uniq.as_slice());
    put_u16(&mut ev, OFF_CREATE_RD_SIZE, p.descriptor.len() as u16);
    put_u16(&mut ev, OFF_CREATE_BUS, p.bus);
    put_u32(&mut ev, OFF_CREATE_VENDOR, p.vendor);
    put_u32(&mut ev, OFF_CREATE_PRODUCT, p.product);
    put_u32(&mut ev, OFF_CREATE_VERSION, p.version);
    put_u32(&mut ev, OFF_CREATE_COUNTRY, p.country);
    put_bytes(&mut ev, OFF_CREATE_RD_DATA, p.descriptor.as_slice());
    assert(ev@ =~= create2_frame(*p));
    Ok(ev)
}

/// The input event delivers one report; over `UHID_DATA_MAX` bytes are refused.
pub fn encode_input2(data: &[u8]) -> (r: Result<[u8; UHID_EVENT_SIZE], UhidError>)
    ensures
        match r {
            Ok(ev) => data@.len() <= UHID_DATA_MAX && ev@ == input2_frame(data@),
            Err(e) => data@.len() > UHID_DATA_MAX && e == UhidError::InputTooLarge(
                data@.len() as usize,
            ),
        },
{
    if data.len() > UHID_DATA_MAX {
        return Err(UhidError::InputTooLarge(data.len()));
    }
    let mut ev = [0u8; UHID_EVENT_SIZE];
    put_u32(&mut ev, 0, UHID_INPUT2);
    put_u16(&mut ev, 4, data.len() as u16);
    put_bytes(&mut ev, 6, data);
    assert(ev@ =~= input2_frame(data@));
    Ok(ev)
}

/// The destroy event unregisters the device.
pub fn encode_destroy() -> (ev: [u8; UHID_EVENT_SIZE])
    ensures
        ev@ == destroy_frame(),
{
    let mut ev = [0u8; UHID_EVENT_SIZE];
    put_u32(&mut ev, 0, UHID_DESTROY);
    assert(ev@ =~= destroy_frame());
    ev
}

/// Answers a `GetReport`; over `UHID_DATA_MAX` bytes are refused.
pub fn encode_get_report_reply(id: u32, err: u16, data: &[u8]) -> (r: Result<
    [u8; UHID_EVENT_SIZE],
    UhidError,
>)
    ensures
        match r {
            Ok(ev) => data@.len() <= UHID_DATA_MAX && ev@ == get_report_reply_frame(id, err, data@),
            Err(e) => data@.len() > UHID_DATA_MAX && e == UhidError::ReplyTooLarge,
        },
{
    if data.len() > UHID_DATA_MAX {
        return Err(UhidError::ReplyTooLarge);
    }
    let mut ev = [0u8; UHID_EVENT_SIZE];
    put_u32(&mut ev, 0, UHID_GET_REPORT_REPLY);
    put_u32(&mut ev, 4, id);
    put_u16(&mut ev, 8, err);
    put_u16(&mut ev, 10, data.len() as u16);
    put_bytes(&mut ev, 12, data);
    assert(ev@ =~= get_report_reply_frame(id, err, data@));
    Ok(ev)
}

/// Answers a `SetReport`.
pub fn encode_set_report_reply(id: u32, err: u16) -> (ev: [u8; UHID_EVENT_SIZE])
    ensures
        ev@ == set_report_reply_frame(id, err),
{
    let mut ev = [0u8; UHID_EVENT_SIZE];
    put_u32(&mut ev, 0, UHID_SET_REPORT_REPLY);
    put_u32(&mut ev, 4, id);
    put_u16(&mut ev, 8, err);
    assert(ev@ =~= set_report_reply_frame(id, err));
    ev
}

/// A create event lies in memory as the kernel's struct: type 11, the name at
/// 4, the physical path at 132, the unique id at 196, the descriptor's length
/// at 260, then bus, vendor, product, version and country, and the descriptor
/// at 280.
pub proof fn law_create2_layout(p: CreateParams)
    requires
        p.descriptor@.len() <= 4096,
    ensures
        ({
            let frame = create2_frame(p);
            &&& frame.len() == 4376
            &&& frame.subrange(0, 4) == seq![11u8, 0, 0, 0]
            &&& frame.subrange(4, 132) == bytes::c_field(p.name@, 128)
            &&& frame.subrange(132, 196) == bytes::c_field(p.phys@, 64)
            &&& frame.subrange(196, 260) == bytes::c_field(p.uniq@, 64)
            &&& frame.subrange(260, 262) == bytes::le16(p.descriptor@.len() as u16)
            &&& frame.subrange(262, 264) == bytes::le16(p.bus)
            &&& frame.subrange(264, 268) == bytes::le32(p.vendor)
            &&& frame.subrange(268, 272) == bytes::le32(p.product)
            &&& frame.subrange(272, 276) == bytes::le32(p.version)
            &&& frame.subrange(276, 280) == bytes::le32(p.country)
            &&& frame.subrange(280, 280int + p.descriptor@.len()) == p.descriptor@
            &&& forall|i: int| 280int + p.descriptor@.len() <= i < 4376 ==> frame[i] == 0
        }),
{
    bytes::lemma_text_end(p.name@);
    bytes::lemma_text_end(p.phys@);
    bytes::lemma_text_end(p.uniq@);
    let frame = create2_frame(p);
    assert(frame.subrange(0, 4) =~= seq![11u8, 0, 0, 0]);
    assert(frame.subrange(4, 132) =~= bytes::c_field(p.name@, 128));
    assert(frame.subrange(132, 196) =~= bytes::c_field(p.phys@, 64));
    assert(frame.subrange(196, 260) =~= bytes::c_field(p.uniq@, 64));
    assert(frame.subrange(260, 262) =~= bytes::le16(p.descriptor@.len() as u16));
    assert(frame.subrange(262, 264) =~= bytes::le16(p.bus));
    assert(frame.subrange(264, 268) =~= bytes::le32(p.vendor));
    assert(frame.subrange(268, 272) =~= bytes::le32(p.product));
    assert(frame.subrange(272, 276) =~= bytes::le32(p.version));
    assert(frame.subrange(276, 280) =~= bytes::le32(p.country));
    assert(frame.subrange(280, 280int + p.descriptor@.len()) =~= p.descriptor@);
}

/// The other events lie in memory as the kernel's structs: type 12 with length
/// and report, type 1 alone, type 10 with request, error, length and data, and
/// type 14 with request and error; zeros stand behind them.
pub proof fn law_other_layouts(id: u32, err: u16, data: Seq<u8>)
    requires
        data.len() <= 4096,
    ensures
        ({
            let input = input2_frame(data);
            &&& input.len() == 4376
            &&& input.subrange(0, 4) == seq![12u8, 0, 0, 0]
            &&& input.subrange(4, 6) == bytes::le16(data.len() as u16)
            &&& input.subrange(6, 6int + data.len()) == data
            &&& forall|i: int| 6int + data.len() <= i < 4376 ==> input[i] == 0
        }),
        ({
            let destroy = destroy_frame();
            &&& destroy.len() == 4376
            &&& destroy[0] == 1
            &&& forall|i: int| 1 <= i < 4376 ==> destroy[i] == 0
        }),
        ({
            let get = get_report_reply_frame(id, err, data);
            &&& get.len() == 4376
            &&& get.subrange(0, 4) == seq![10u8, 0, 0, 0]
            &&& get.subrange(4, 8) == bytes::le32(id)
            &&& get.subrange(8, 10) == bytes::le16(err)
            &&& get.subrange(10, 12) == bytes::le16(data.len() as u16)
            &&& get.subrange(12, 12int + data.len()) == data
            &&& forall|i: int| 12int + data.len() <= i < 4376 ==> get[i] == 0
        }),
        ({
            let set = set_report_reply_frame(id, err);
            &&& set.len() == 4376
            &&& set.subrange(0, 4) == seq![14u8, 0, 0, 0]
            &&& set.subrange(4, 8) == bytes::le32(id)
            &&& set.subrange(8, 10) == bytes::le16(err)
            &&& forall|i: int| 10 <= i < 4376 ==> set[i] == 0
        }),
{
    let input = input2_frame(data);
    assert(input.subrange(0, 4) =~= seq![12u8, 0, 0, 0]);
    assert(input.subrange(4, 6) =~= bytes::le16(data.len() as u16));
    assert(input.subrange(6, 6int + data.len()) =~= data);
    let get = get_report_reply_frame(id, err, data);
    assert(get.subrange(0, 4) =~= seq![10u8, 0, 0, 0]);
    assert(get.subrange(4, 8) =~= bytes::le32(id));
    assert(get.subrange(8, 10) =~= bytes::le16(err));
    assert(get.subrange(10, 12) =~= bytes::le16(data.len() as u16));
    assert(get.subrange(12, 12int + data.len()) =~= data);
    let set = set_report_reply_frame(id, err);
    assert(set.subrange(0, 4) =~= seq![14u8, 0, 0, 0]);
    assert(set.subrange(4, 8) =~= bytes::le32(id));
    assert(set.subrange(8, 10) =~= bytes::le16(err));
}

} // verus!
