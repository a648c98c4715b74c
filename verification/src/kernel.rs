//! Events that the kernel hands to userspace.

use vstd::prelude::*;

use crate::bytes;
use crate::bytes::{get_u16, get_u32, get_u64, UHID_EVENT_SIZE};
use crate::event::{
    UHID_CLOSE, UHID_DATA_MAX, UHID_GET_REPORT, UHID_OPEN, UHID_OUTPUT, UHID_SET_REPORT,
    UHID_START, UHID_STOP,
};

verus! {

/// One event read from `/dev/uhid`.
#[derive(Debug, Clone, PartialEq, Eq)]
pub enum KernelEvent {
    Start { dev_flags: u64 },
    Stop,
    Open,
    Close,
    Output { rtype: u8, data: Vec<u8> },
    GetReport { id: u32, rnum: u8, rtype: u8 },
    SetReport { id: u32, rnum: u8, rtype: u8, data: Vec<u8> },
    Unknown { ty: u32 },
}

/// What an event says, with its payload as a sequence of bytes.
pub enum KernelEventView {
    Start { dev_flags: u64 },
    Stop,
    Open,
    Close,
    Output { rtype: u8, data: Seq<u8> },
    GetReport { id: u32, rnum: u8, rtype: u8 },
    SetReport { id: u32, rnum: u8, rtype: u8, data: Seq<u8> },
    Unknown { ty: u32 },
}

impl View for KernelEvent {
    type V = KernelEventView;

    open spec fn view(&self) -> KernelEventView {
        match *self {
            KernelEvent::Start { dev_flags } => KernelEventView::Start { dev_flags },
            KernelEvent::Stop => KernelEventView::Stop,
            KernelEvent::Open => KernelEventView::Open,
            KernelEvent::Close => KernelEventView::Close,
            KernelEvent::Output { rtype, data } => KernelEventView::Output { rtype, data: data@ },
            KernelEvent::GetReport { id, rnum, rtype } => KernelEventView::GetReport {
                id,
                rnum,
                rtype,
            },
            KernelEvent::SetReport { id, rnum, rtype, data } => KernelEventView::SetReport {
                id,
                rnum,
                rtype,
                data: data@,
            },
            KernelEvent::Unknown { ty } => KernelEventView::Unknown { ty },
        }
    }
}

/// Where an output event keeps the length of its data.
pub const OFF_OUTPUT_SIZE: usize = 4100;

/// Where an output event keeps its report type.
pub const OFF_OUTPUT_RTYPE: usize = 4102;

/// Whether `buf` is long enough for the fixed fields of the event it announces.
pub open spec fn fields_present(buf: Seq<u8>) -> bool {
    buf.len() >= 12 && bytes::le32_at(buf, 0) == UHID_OUTPUT ==> buf.len() >= OFF_OUTPUT_SIZE + 2
}

/// The event that `buf` holds, if it holds a whole one.
pub open spec fn event_in(buf: Seq<u8>) -> Option<KernelEventView> {
    let ty = bytes::le32_at(buf, 0);
    if buf.len() < 12 {
        None
    } else if ty == UHID_START {
        Some(KernelEventView::Start { dev_flags: bytes::le64_at(buf, 4) })
    } else if ty == UHID_STOP {
        Some(KernelEventView::Stop)
    } else if ty == UHID_OPEN {
        Some(KernelEventView::Open)
    } else if ty == UHID_CLOSE {
        Some(KernelEventView::Close)
    } else if ty == UHID_OUTPUT {
        let size = bytes::le16_at(buf, OFF_OUTPUT_SIZE as int) as int;
        if buf.len() <= OFF_OUTPUT_RTYPE || buf.len() < 4 + size {
            None
        } else {
            Some(
                KernelEventView::Output {
                    rtype: buf[OFF_OUTPUT_RTYPE as int],
                    data: buf.subrange(4, 4 + size),
                },
            )
        }
    } else if ty == UHID_GET_REPORT {
        Some(
            KernelEventView::GetReport { id: bytes::le32_at(buf, 4), rnum: buf[8], rtype: buf[9] },
        )
    } else if ty == UHID_SET_REPORT {
        let size = bytes::le16_at(buf, 10) as int;
        if buf.len() < 12 + size {
            None
        } else {
            Some(
                KernelEventView::SetReport {
                    id: bytes::le32_at(buf, 4),
                    rnum: buf[8],
                    rtype: buf[9],
                    data: buf.subrange(12, 12 + size),
                },
            )
        }
    } else {
        Some(KernelEventView::Unknown { ty })
    }
}

/// Whether the kernel can send `event`: its payload fits, and `Unknown` is
/// kept for types that have no other meaning.
pub open spec fn sendable(event: KernelEventView) -> bool {
    match event {
        KernelEventView::Output { rtype, data } => data.len() <= UHID_DATA_MAX,
        KernelEventView::SetReport { id, rnum, rtype, data } => data.len() <= UHID_DATA_MAX,
        KernelEventView::Unknown { ty } => ty != UHID_START && ty != UHID_STOP && ty != UHID_OPEN
            && ty != UHID_CLOSE && ty != UHID_OUTPUT && ty != UHID_GET_REPORT && ty
            != UHID_SET_REPORT,
        _ => true,
    }
}

/// The `uhid_event` that the kernel lays out for `event`.
pub open spec fn kernel_frame(event: KernelEventView) -> Seq<u8> {
    let body = match event {
        KernelEventView::Start { dev_flags } => bytes::le32(UHID_START) + bytes::le64(dev_flags),
        KernelEventView::Stop => bytes::le32(UHID_STOP),
        KernelEventView::Open => bytes::le32(UHID_OPEN),
        KernelEventView::Close => bytes::le32(UHID_CLOSE),
        KernelEventView::Output { rtype, data } => bytes::le32(UHID_OUTPUT) + bytes::padded(
            data,
            UHID_DATA_MAX as nat,
        ) + bytes::le16(data.len() as u16) + seq![rtype],
        KernelEventView::GetReport { id, rnum, rtype } => bytes::le32(UHID_GET_REPORT)
            + bytes::le32(id) + seq![rnum, rtype],
        KernelEventView::SetReport { id, rnum, rtype, data } => bytes::le32(UHID_SET_REPORT)
            + bytes::le32(id) + seq![rnum, rtype] + bytes::le16(data.len() as u16) + data,
        KernelEventView::Unknown { ty } => bytes::le32(ty),
    };
    bytes::padded(body, UHID_EVENT_SIZE as nat)
}

/// Every event that the kernel can send is read back as what it says.
pub proof fn law_kernel_events_read_back(event: KernelEventView)
    requires
        sendable(event),
    ensures
        fields_present(kernel_frame(event)),
        event_in(kernel_frame(event)) == Some(event),
{
    let frame = kernel_frame(event);
    match event {
        KernelEventView::Start { dev_flags } => {
            assert(frame.subrange(0, 4) =~= bytes::le32(UHID_START));
            assert(frame.subrange(4, 12) =~= bytes::le64(dev_flags));
            bytes::lemma_le32_in(frame, 0, UHID_START);
            bytes::lemma_le64_in(frame, 4, dev_flags);
        },
        KernelEventView::Stop => {
            assert(frame.subrange(0, 4) =~= bytes::le32(UHID_STOP));
            bytes::lemma_le32_in(frame, 0, UHID_STOP);
        },
        KernelEventView::Open => {
            assert(frame.subrange(0, 4) =~= bytes::le32(UHID_OPEN));
            bytes::lemma_le32_in(frame, 0, UHID_OPEN);
        },
        KernelEventView::Close => {
            assert(frame.subrange(0, 4) =~= bytes::le32(UHID_CLOSE));
            bytes::lemma_le32_in(frame, 0, UHID_CLOSE);
        },
        KernelEventView::Output { rtype, data } => {
            assert(frame.subrange(0, 4) =~= bytes::le32(UHID_OUTPUT));
            assert(frame.subrange(4100, 4102) =~= bytes::le16(data.len() as u16));
            assert(frame.subrange(4, 4int + data.len()) =~= data);
            bytes::lemma_le32_in(frame, 0, UHID_OUTPUT);
            bytes::lemma_le16_in(frame, 4100, data.len() as u16);
        },
        KernelEventView::GetReport { id, rnum, rtype } => {
            assert(frame.subrange(0, 4) =~= bytes::le32(UHID_GET_REPORT));
            assert(frame.subrange(4, 8) =~= bytes::le32(id));
            bytes::lemma_le32_in(frame, 0, UHID_GET_REPORT);
            bytes::lemma_le32_in(frame, 4, id);
        },
        KernelEventView::SetReport { id, rnum, rtype, data } => {
            assert(frame.subrange(0, 4) =~= bytes::le32(UHID_SET_REPORT));
            assert(frame.subrange(4, 8) =~= bytes::le32(id));
            assert(frame.subrange(10, 12) =~= bytes::le16(data.len() as u16));
            assert(frame.subrange(12, 12int + data.len()) =~= data);
            bytes::lemma_le32_in(frame, 0, UHID_SET_REPORT);
            bytes::lemma_le32_in(frame, 4, id);
            bytes::lemma_le16_in(frame, 10, data.len() as u16);
        },
        KernelEventView::Unknown { ty } => {
            assert(frame.subrange(0, 4) =~= bytes::le32(ty));
            bytes::lemma_le32_in(frame, 0, ty);
        },
    }
}

fn copy_range(buf: &[u8], from: usize, to: usize) -> (data: Vec<u8>)
    requires
        from <= to <= buf@.len(),
    ensures
        data@ == buf@.subrange(from as int, to as int),
{
    let mut data: Vec<u8> = Vec::new();
    let mut i: usize = from;
    while i < to
        invariant
            from <= i <= to <= buf@.len(),
            data@ == buf@.subrange(from as int, i as int),
        decreases to - i,
    {
        data.push(buf[i]);
        i += 1;
    }
    data
}

/// Reads one kernel event: `None` for less than one whole event.
pub fn parse_event(buf: &[u8]) -> (r: Option<KernelEvent>)
    requires
        fields_present(buf@),
    ensures
        match r {
            Some(event) => event_in(buf@) == Some(event@),
            None => event_in(buf@) is None,
        },
{
    if buf.len() < 12 {
        return None;
    }
    let ty = get_u32(buf, 0);
    Some(
        if ty == UHID_START {
            KernelEvent::Start { dev_flags: get_u64(buf, 4) }
        } else if ty == UHID_STOP {
            KernelEvent::Stop
        } else if ty == UHID_OPEN {
            KernelEvent::Open
        } else if ty == UHID_CLOSE {
            KernelEvent::Close
        } else if ty == UHID_OUTPUT {
            let size = get_u16(buf, OFF_OUTPUT_SIZE) as usize;
            if buf.len() <= OFF_OUTPUT_RTYPE || 4 + size > buf.len() {
                return None;
            }
            KernelEvent::Output { rtype: buf[OFF_OUTPUT_RTYPE], data: copy_range(buf, 4, 4 + size) }
        } else if ty == UHID_GET_REPORT {
            KernelEvent::GetReport { id: get_u32(buf, 4), rnum: buf[8], rtype: buf[9] }
        } else if ty == UHID_SET_REPORT {
            let size = get_u16(buf, 10) as usize;
            if buf.len() < 12 + size {
                return None;
            }
            KernelEvent::SetReport {
                id: get_u32(buf, 4),
                rnum: buf[8],
                rtype: buf[9],
                data: copy_range(buf, 12, 12 + size),
            }
        } else {
            KernelEvent::Unknown { ty }
        },
    )
}

/// What the kernel sends is read by the type in its first four bytes: 2 with
/// the flags at 4; 3, 4 and 5 alone; 6 with the data from 4 on, its length at
/// 4100 and its report type at 4102; 9 and 13 with the request at 4, the report
/// number at 8 and its type at 9, and 13 also with a length at 10 and the data
/// from 12 on. An event whose data do not fit is none, and any other type is
/// handed on as it is.
pub proof fn law_events_are_read_by_type(buf: Seq<u8>)
    requires
        buf.len() >= 12,
        buf[1] == 0 && buf[2] == 0 && buf[3] == 0,
    ensures
        buf[0] == 2 ==> event_in(buf) == Some(
            KernelEventView::Start { dev_flags: bytes::le64_at(buf, 4) },
        ),
        buf[0] == 3 ==> event_in(buf) == Some(KernelEventView::Stop),
        buf[0] == 4 ==> event_in(buf) == Some(KernelEventView::Open),
        buf[0] == 5 ==> event_in(buf) == Some(KernelEventView::Close),
        buf[0] == 6 && buf.len() >= 4103 && 4 + bytes::le16_at(buf, 4100) <= buf.len()
            ==> event_in(buf) == Some(
            KernelEventView::Output {
                rtype: buf[4102],
                data: buf.subrange(4, 4 + bytes::le16_at(buf, 4100)),
            },
        ),
        buf[0] == 6 && (buf.len() < 4103 || 4 + bytes::le16_at(buf, 4100) > buf.len())
            ==> event_in(buf) is None,
        buf[0] == 9 ==> event_in(buf) == Some(
            KernelEventView::GetReport { id: bytes::le32_at(buf, 4), rnum: buf[8], rtype: buf[9] },
        ),
        buf[0] == 13 && 12 + bytes::le16_at(buf, 10) <= buf.len() ==> event_in(buf) == Some(
            KernelEventView::SetReport {
                id: bytes::le32_at(buf, 4),
                rnum: buf[8],
                rtype: buf[9],
                data: buf.subrange(12, 12 + bytes::le16_at(buf, 10)),
            },
        ),
        buf[0] == 13 && 12 + bytes::le16_at(buf, 10) > buf.len() ==> event_in(buf) is None,
        buf[0] < 2 || buf[0] == 7 || buf[0] == 8 || 10 <= buf[0] <= 12 || buf[0] > 13 ==> event_in(
            buf,
        ) == Some(KernelEventView::Unknown { ty: buf[0] as u32 }),
{
    assert(bytes::le32_at(buf, 0) == buf[0]);
}

/// A type beyond one byte is handed on, and less than twelve bytes are no event.
pub proof fn law_other_buffers(buf: Seq<u8>)
    ensures
        buf.len() < 12 ==> event_in(buf) is None,
        buf.len() >= 12 && (buf[1] != 0 || buf[2] != 0 || buf[3] != 0) ==> event_in(buf) == Some(
            KernelEventView::Unknown {
                ty: (buf[0] + 256 * buf[1] + 65536 * buf[2] + 16777216 * buf[3]) as u32,
            },
        ),
{
}

/// Numbers inside an event are read least significant byte first.
pub proof fn law_numbers_in_events(buf: Seq<u8>, off: int)
    requires
        0 <= off,
        off + 8 <= buf.len(),
    ensures
        bytes::le16_at(buf, off) == buf[off] + 256 * buf[off + 1],
        bytes::le32_at(buf, off) == buf[off] + 256 * buf[off + 1] + 65536 * buf[off + 2] + 16777216
            * buf[off + 3],
        bytes::le64_at(buf, off) == bytes::le32_at(buf, off) + 4294967296 * bytes::le32_at(
            buf,
            off + 4,
        ),
{
}

} // verus!
