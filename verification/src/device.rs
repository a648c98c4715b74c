//! One open `/dev/uhid` descriptor: what is written to it and read from it.

use vstd::prelude::*;

use crate::bytes::UHID_EVENT_SIZE;
use crate::error::UhidError;
use crate::event;
use crate::event::{
    encode_create2, encode_destroy, encode_get_report_reply, encode_input2,
    encode_set_report_reply, CreateParams, UHID_DATA_MAX,
};
use crate::kernel;
use crate::kernel::{parse_event, KernelEvent};

verus! {

/// An open descriptor, or -1 once it is released.
#[derive(Debug)]
pub struct UhidDevice {
    fd: i32,
}

/// What came of one read.
#[derive(Debug)]
pub enum ReadOutcome {
    /// A kernel event.
    Event(KernelEvent),
    /// Nothing is queued, or what came is no whole event.
    Empty,
    /// The read failed.
    Failed,
}

/// How a transfer stands after one write.
#[derive(Debug, Clone, Copy, PartialEq, Eq, Structural)]
pub enum WriteStep {
    /// Part of the event is still to be written.
    More,
    /// The whole event is written.
    Done,
    /// The write failed.
    Failed,
}

/// One event on its way to a descriptor.
pub struct Transfer {
    fd: i32,
    ev: [u8; UHID_EVENT_SIZE],
    done: usize,
}

impl Transfer {
    /// Where the event goes.
    pub closed spec fn spec_fd(self) -> i32 {
        self.fd
    }

    /// The event.
    pub closed spec fn event(self) -> Seq<u8> {
        self.ev@
    }

    /// How many of its bytes are written.
    pub closed spec fn sent(self) -> int {
        self.done as int
    }

    /// Whether bytes are left to write.
    pub open spec fn unfinished(self) -> bool {
        self.sent() < UHID_EVENT_SIZE && self.event().len() == UHID_EVENT_SIZE
    }

    fn new(fd: i32, ev: [u8; UHID_EVENT_SIZE]) -> (t: Self)
        ensures
            t.spec_fd() == fd,
            t.event() == ev@,
            t.sent() == 0,
            t.unfinished(),
    {
        Transfer { fd, ev, done: 0 }
    }

    /// Where the event goes.
    pub fn fd(&self) -> (fd: i32)
        ensures
            fd == self.spec_fd(),
    {
        self.fd
    }

    /// What is left to write.
    pub fn rest(&self) -> (bytes: &[u8])
        requires
            self.unfinished(),
        ensures
            bytes@ == self.event().skip(self.sent()),
    {
        let bytes = self.ev.as_slice();
        let left = &bytes[self.done..UHID_EVENT_SIZE];
        assert(left@ =~= self.event().skip(self.sent()));
        left
    }

    /// Takes note that a write of the rest returned `n`: nothing or an error
    /// fails the transfer, and anything else moves it on by as many bytes.
    pub fn wrote(&mut self, n: isize) -> (step: WriteStep)
        requires
            old(self).unfinished(),
        ensures
            final(self).spec_fd() == old(self).spec_fd(),
            final(self).event() == old(self).event(),
            final(self).sent() == old(self).sent() + (if n > 0 {
                n as int
            } else {
                0
            }),
            step == if n <= 0 {
                WriteStep::Failed
            } else if final(self).sent() < UHID_EVENT_SIZE {
                WriteStep::More
            } else {
                WriteStep::Done
            },
            step == WriteStep::Done <==> n > 0 && !final(self).unfinished(),
    {
        if n <= 0 {
            return WriteStep::Failed;
        }
        self.done = self.done + n as usize;
        if self.done < UHID_EVENT_SIZE {
            WriteStep::More
        } else {
            WriteStep::Done
        }
    }
}

impl UhidDevice {
    /// The descriptor.
    pub closed spec fn spec_fd(self) -> i32 {
        self.fd
    }

    /// The device behind what opening the node returned, unless that failed.
    pub fn open(fd: i32) -> (r: Option<Self>)
        ensures
            match r {
                Some(device) => fd >= 0 && device.spec_fd() == fd,
                None => fd < 0,
            },
    {
        if fd < 0 {
            return None;
        }
        Some(UhidDevice { fd })
    }

    /// The descriptor.
    pub fn fd(&self) -> (fd: i32)
        ensures
            fd == self.spec_fd(),
    {
        self.fd
    }

    /// Gives the descriptor up for closing, once.
    pub fn release(&mut self) -> (r: Option<i32>)
        ensures
            r == if old(self).spec_fd() >= 0 {
                Some(old(self).spec_fd())
            } else {
                None
            },
            final(self).spec_fd() == if old(self).spec_fd() >= 0 {
                -1i32
            } else {
                old(self).spec_fd()
            },
    {
        if self.fd >= 0 {
            let fd = self.fd;
            self.fd = -1;
            Some(fd)
        } else {
            None
        }
    }

    /// What a read that returned `n` gave, `buf` being what it filled.
    pub fn read_event(n: isize, would_block: bool, buf: &[u8; UHID_EVENT_SIZE]) -> (r: ReadOutcome)
        requires
            n <= UHID_EVENT_SIZE,
            n >= 0 ==> kernel::fields_present(buf@.take(n as int)),
        ensures
            match r {
                ReadOutcome::Event(event) => n >= 0 && kernel::event_in(buf@.take(n as int))
                    == Some(event@),
                ReadOutcome::Empty => if n < 0 {
                    would_block
                } else {
                    kernel::event_in(buf@.take(n as int)) is None
                },
                ReadOutcome::Failed => n < 0 && !would_block,
            },
    {
        if n < 0 {
            if would_block {
                return ReadOutcome::Empty;
            }
            return ReadOutcome::Failed;
        }
        let bytes = buf.as_slice();
        let got = &bytes[0..n as usize];
        assert(got@ =~= buf@.take(n as int));
        match parse_event(got) {
            Some(event) => ReadOutcome::Event(event),
            None => ReadOutcome::Empty,
        }
    }

    /// Registers the device with the kernel.
    pub fn create(&self, params: &CreateParams) -> (r: Result<Transfer, UhidError>)
        ensures
            match r {
                Ok(t) => params.descriptor@.len() <= UHID_DATA_MAX && t.spec_fd() == self.spec_fd()
                    && t.event() == event::create2_frame(*params) && t.sent() == 0
                    && t.unfinished(),
                Err(e) => params.descriptor@.len() > UHID_DATA_MAX && e
                    == UhidError::DescriptorTooLarge(params.descriptor@.len() as usize),
            },
    {
        match encode_create2(params) {
            Ok(ev) => Ok(Transfer::new(self.fd, ev)),
            Err(e) => Err(e),
        }
    }

    /// Sends one input report.
    pub fn input(&self, data: &[u8]) -> (r: Result<Transfer, UhidError>)
        ensures
            match r {
                Ok(t) => data@.len() <= UHID_DATA_MAX && t.spec_fd() == self.spec_fd()
                    && t.event() == event::input2_frame(data@) && t.sent() == 0 && t.unfinished(),
                Err(e) => data@.len() > UHID_DATA_MAX && e == UhidError::InputTooLarge(
                    data@.len() as usize,
                ),
            },
    {
        match encode_input2(data) {
            Ok(ev) => Ok(Transfer::new(self.fd, ev)),
            Err(e) => Err(e),
        }
    }

    /// Unregisters the device.
    pub fn destroy(&self) -> (t: Transfer)
        ensures
            t.spec_fd() == self.spec_fd(),
            t.event() == event::destroy_frame(),
            t.sent() == 0,
            t.unfinished(),
    {
        Transfer::new(self.fd, encode_destroy())
    }

    /// Answers a `GetReport`.
    pub fn get_report_reply(&self, id: u32, err: u16, data: &[u8]) -> (r: Result<
        Transfer,
        UhidError,
    >)
        ensures
            match r {
                Ok(t) => data@.len() <= UHID_DATA_MAX && t.spec_fd() == self.spec_fd()
                    && t.event() == event::get_report_reply_frame(id, err, data@) && t.sent() == 0
                    && t.unfinished(),
                Err(e) => data@.len() > UHID_DATA_MAX && e == UhidError::ReplyTooLarge,
            },
    {
        match encode_get_report_reply(id, err, data) {
            Ok(ev) => Ok(Transfer::new(self.fd, ev)),
            Err(e) => Err(e),
        }
    }

    /// Answers a `SetReport`.
    pub fn set_report_reply(&self, id: u32, err: u16) -> (t: Transfer)
        ensures
            t.spec_fd() == self.spec_fd(),
            t.event() == event::set_report_reply_frame(id, err),
            t.sent() == 0,
            t.unfinished(),
    {
        Transfer::new(self.fd, encode_set_report_reply(id, err))
    }
}

/// The bytes that go out where the writes of a transfer that stands at `sent`
/// return `counts` in turn, each write being handed the whole rest.
pub open spec fn written(event: Seq<u8>, sent: int, counts: Seq<int>) -> Seq<u8>
    decreases counts.len(),
{
    if counts.len() == 0 {
        Seq::empty()
    } else {
        event.skip(sent).take(counts[0]) + written(event, sent + counts[0], counts.drop_first())
    }
}

/// The sum of `counts`.
pub open spec fn total(counts: Seq<int>) -> int
    decreases counts.len(),
{
    if counts.len() == 0 {
        0
    } else {
        counts[0] + total(counts.drop_first())
    }
}

proof fn lemma_written(event: Seq<u8>, sent: int, counts: Seq<int>)
    requires
        0 <= sent,
        forall|i: int| 0 <= i < counts.len() ==> counts[i] > 0,
        sent + total(counts) <= event.len(),
    ensures
        total(counts) >= 0,
        written(event, sent, counts) == event.subrange(sent, sent + total(counts)),
    decreases counts.len(),
{
    if counts.len() != 0 {
        let rest = counts.drop_first();
        assert forall|i: int| 0 <= i < rest.len() implies rest[i] > 0 by {
            assert(rest[i] == counts[i + 1]);
        }
        lemma_written(event, sent + counts[0], rest);
        assert(written(event, sent, counts) =~= event.subrange(sent, sent + total(counts)));
    } else {
        assert(written(event, sent, counts) =~= event.subrange(sent, sent + total(counts)));
    }
}

/// However the writes of a transfer cut the event, its bytes go out in order,
/// none lost and none repeated.
pub proof fn law_transfer_sends_the_event(event: Seq<u8>, counts: Seq<int>)
    requires
        forall|i: int| 0 <= i < counts.len() ==> counts[i] > 0,
        total(counts) == event.len(),
    ensures
        written(event, 0, counts) == event,
{
    lemma_written(event, 0, counts);
    assert(event.subrange(0, event.len() as int) =~= event);
}

} // verus!
