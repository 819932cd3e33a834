use vstd::prelude::*;

use crate::flash::{addr_to_sector, sector_of, sector_size, sector_start};
use crate::types::{BootError, APP_BASE, MAX_IMAGE_SIZE};

verus! {

/// Replies that the recovery protocol sends to the host.
#[derive(Clone, Copy, Debug, PartialEq, Eq, Structural)]
pub enum Message {
    /// Greeting sent once when recovery mode starts.
    Banner,
    /// The announced size is zero or larger than `MAX_IMAGE_SIZE`.
    InvalidSize,
    /// Erasing the sectors of the image failed.
    EraseError,
    /// The whole image was received and written.
    ImageWritten,
    /// Writing a chunk to flash failed.
    FlashError,
}

/// What the machine asks its driver to do next.
#[derive(Debug, PartialEq, Eq)]
pub enum Action {
    /// Receive one byte from the UART and report it with `Event::Byte`.
    Receive,
    /// Send a reply, then report `Event::Completed`.
    Send(Message),
    /// Erase the flash sectors `first..=last`, then report the outcome.
    Erase { first: u8, last: u8 },
    /// Program `data` into flash at `addr`, then report the outcome.
    Write { addr: u32, data: Vec<u8> },
}

/// What the driver reports back after performing an action.
#[derive(Clone, Copy, Debug, PartialEq, Eq)]
pub enum Event {
    /// The byte received for `Action::Receive`.
    Byte(u8),
    /// The outcome of `Send`, `Erase` or `Write`.
    Completed(Result<(), BootError>),
}

/// Where the protocol stands.
#[derive(Clone, Copy, Debug, PartialEq, Eq, Structural)]
pub enum Phase {
    /// A reply is being sent.
    Reply,
    /// The four big-endian bytes of the image size are being received.
    Size,
    /// The sectors of an image of `size` bytes are being erased.
    Erase { size: u32 },
    /// Image bytes are being received.
    Data { size: u32 },
    /// A chunk of the image is being written to flash.
    Write { size: u32 },
}

/// The state of the recovery protocol.
pub struct Recovery {
    phase: Phase,
    /// The size bytes received so far (`Size`), or the image bytes received
    /// and not yet written (`Data`, `Write`).
    buffer: Vec<u8>,
    /// Image bytes already written to flash in the current session.
    written: u32,
    /// Image bytes received in the current session.
    received: Ghost<Seq<u8>>,
}

/// Abstract state of `Recovery`.
pub struct RecoveryView {
    pub phase: Phase,
    pub buffer: Seq<u8>,
    pub written: nat,
    pub received: Seq<u8>,
}

/// Abstract form of `Action`.
pub enum ActionView {
    Receive,
    Send(Message),
    Erase(u8, u8),
    Write(u32, Seq<u8>),
}

impl View for Recovery {
    type V = RecoveryView;

    closed spec fn view(&self) -> RecoveryView {
        RecoveryView {
            phase: self.phase,
            buffer: self.buffer@,
            written: self.written as nat,
            received: self.received@,
        }
    }
}

impl View for Action {
    type V = ActionView;

    open spec fn view(&self) -> ActionView {
        match self {
            Action::Receive => ActionView::Receive,
            Action::Send(m) => ActionView::Send(*m),
            Action::Erase { first, last } => ActionView::Erase(*first, *last),
            Action::Write { addr, data } => ActionView::Write(*addr, data@),
        }
    }
}

/// The big-endian number held in the four bytes of `s`.
pub open spec fn spec_u32_be(s: Seq<u8>) -> int {
    s[0] * 16777216 + s[1] * 65536 + s[2] * 256 + s[3]
}

/// An image size that the protocol accepts.
pub open spec fn size_acceptable(size: int) -> bool {
    1 <= size <= MAX_IMAGE_SIZE
}

/// The sectors erased for an image of `size` bytes: from the sector that
/// holds `APP_BASE` to the one that holds the last image byte.
pub open spec fn erase_range(size: int) -> (int, int) {
    (sector_of(APP_BASE as int), sector_of(APP_BASE + size - 1))
}

/// The end of the flash erased for an image of `size` bytes.
pub open spec fn erased_end(size: int) -> int {
    sector_start(erase_range(size).1) + sector_size(erase_range(size).1)
}

/// The erased sectors of an acceptable image start at `APP_BASE` and reach
/// past its last byte.
pub proof fn lemma_erase_range_covers(size: int)
    requires
        size_acceptable(size),
    ensures
        2 == erase_range(size).0 <= erase_range(size).1 <= 7,
        sector_start(erase_range(size).0) == APP_BASE,
        APP_BASE + size <= erased_end(size),
{
}

/// A chunk of an image of `size` bytes ends at `offset`: a full chunk of
/// 256 bytes, or the end of the image.
pub open spec fn chunk_ends_at(offset: int, size: int) -> bool {
    offset % 256 == 0 || offset == size
}

impl RecoveryView {
    /// The pending action is `Receive`.
    pub open spec fn expects_byte(self) -> bool {
        self.phase is Size || self.phase is Data
    }

    /// `e` answers the pending action.
    pub open spec fn accepts(self, e: Event) -> bool {
        match e {
            Event::Byte(_) => self.expects_byte(),
            Event::Completed(_) => !self.expects_byte(),
        }
    }

    /// The bookkeeping of an image session of `size` bytes: all received
    /// bytes are either written (a prefix of whole 256-byte chunks) or held
    /// in the buffer, in order.
    pub open spec fn session_wf(self, size: u32) -> bool {
        &&& size_acceptable(size as int)
        &&& self.written % 256 == 0
        &&& self.received.len() == self.written + self.buffer.len()
        &&& self.buffer == self.received.subrange(self.written as int, self.received.len() as int)
    }

    /// Well-formedness of the protocol state.
    pub open spec fn wf(self) -> bool {
        match self.phase {
            Phase::Reply => self.buffer.len() == 0,
            Phase::Size => self.buffer.len() < 4,
            Phase::Erase { size } => size_acceptable(size as int) && self.buffer.len() == 0,
            Phase::Data { size } => {
                &&& self.session_wf(size)
                &&& self.buffer.len() < 256
                &&& self.received.len() < size
            },
            Phase::Write { size } => {
                &&& self.session_wf(size)
                &&& 1 <= self.buffer.len() <= 256
                &&& self.received.len() <= size
                &&& chunk_ends_at(self.received.len() as int, size as int)
            },
        }
    }
}

/// The state with phase `phase` and all other parts as in `v`, except
/// `buffer`.
pub open spec fn with_phase(v: RecoveryView, phase: Phase, buffer: Seq<u8>) -> RecoveryView {
    RecoveryView { phase, buffer, written: v.written, received: v.received }
}

/// One transition of the protocol: the next state and action after event
/// `e` in state `v`.
pub open spec fn recovery_next(v: RecoveryView, e: Event) -> (RecoveryView, ActionView) {
    match e {
        Event::Byte(b) => match v.phase {
            Phase::Size => {
                let buf = v.buffer.push(b);
                if buf.len() < 4 {
                    (with_phase(v, Phase::Size, buf), ActionView::Receive)
                } else if size_acceptable(spec_u32_be(buf)) {
                    (
                        with_phase(v, Phase::Erase { size: spec_u32_be(buf) as u32 }, Seq::empty()),
                        ActionView::Erase(
                            erase_range(spec_u32_be(buf)).0 as u8,
                            erase_range(spec_u32_be(buf)).1 as u8,
                        ),
                    )
                } else {
                    (
                        with_phase(v, Phase::Reply, Seq::empty()),
                        ActionView::Send(Message::InvalidSize),
                    )
                }
            },
            Phase::Data { size } => {
                let buf = v.buffer.push(b);
                let next = RecoveryView {
                    phase: v.phase,
                    buffer: buf,
                    written: v.written,
                    received: v.received.push(b),
                };
                if chunk_ends_at((v.written + buf.len()) as int, size as int) {
                    (
                        with_phase(next, Phase::Write { size }, buf),
                        ActionView::Write((APP_BASE + v.written) as u32, buf),
                    )
                } else {
                    (next, ActionView::Receive)
                }
            },
            _ => (v, ActionView::Receive),
        },
        Event::Completed(res) => match v.phase {
            Phase::Reply => (with_phase(v, Phase::Size, Seq::empty()), ActionView::Receive),
            Phase::Erase { size } => {
                if res is Ok {
                    (
                        RecoveryView {
                            phase: Phase::Data { size },
                            buffer: Seq::empty(),
                            written: 0,
                            received: Seq::empty(),
                        },
                        ActionView::Receive,
                    )
                } else {
                    (
                        with_phase(v, Phase::Reply, Seq::empty()),
                        ActionView::Send(Message::EraseError),
                    )
                }
            },
            Phase::Write { size } => {
                if res is Ok {
                    let w = v.written + v.buffer.len();
                    let next = RecoveryView {
                        phase: v.phase,
                        buffer: Seq::empty(),
                        written: w,
                        received: v.received,
                    };
                    if w == size {
                        (
                            with_phase(next, Phase::Reply, Seq::empty()),
                            ActionView::Send(Message::ImageWritten),
                        )
                    } else {
                        (with_phase(next, Phase::Data { size }, Seq::empty()), ActionView::Receive)
                    }
                } else {
                    (
                        with_phase(v, Phase::Reply, Seq::empty()),
                        ActionView::Send(Message::FlashError),
                    )
                }
            },
            _ => (v, ActionView::Receive),
        },
    }
}

/// `accepts` holds exactly for the events that answer the action just
/// issued: after every transition, a byte is accepted if and only if the
/// action is `Receive`, and a completion if and only if it is a `Send`, an
/// `Erase` or a `Write`.
pub proof fn lemma_accepts_answers_action(
    v: RecoveryView,
    e: Event,
    b: u8,
    res: Result<(), BootError>,
)
    requires
        v.wf(),
        v.accepts(e),
    ensures
        ({
            let s = recovery_next(v, e);
            &&& s.0.accepts(Event::Byte(b)) <==> s.1 is Receive
            &&& s.0.accepts(Event::Completed(res)) <==> (s.1 is Send || s.1 is Erase
                || s.1 is Write)
        }),
{
}

/// Decodes the image size sent by the host: four bytes, most significant
/// first.
pub fn recv_u32(bytes: &[u8]) -> (r: u32)
    requires
        bytes@.len() == 4,
    ensures
        r as int == spec_u32_be(bytes@),
{
    let b0 = bytes[0] as u32;
    let b1 = bytes[1] as u32;
    let b2 = bytes[2] as u32;
    let b3 = bytes[3] as u32;
    b0 * 16777216 + b1 * 65536 + b2 * 256 + b3
}

impl Recovery {
    /// Enters recovery mode: the first action sends the banner.
    pub fn start() -> (r: (Recovery, Action))
        ensures
            r.0@.wf(),
            r.0@.phase == Phase::Reply,
            r.1@ == ActionView::Send(Message::Banner),
            forall|res: Result<(), BootError>| #[trigger] r.0@.accepts(Event::Completed(res)),
            forall|b: u8| !#[trigger] r.0@.accepts(Event::Byte(b)),
    {
        let state = Recovery {
            phase: Phase::Reply,
            buffer: Vec::new(),
            written: 0,
            received: Ghost(Seq::empty()),
        };
        (state, Action::Send(Message::Banner))
    }

    /// The current phase.
    pub fn phase(&self) -> (p: Phase)
        ensures
            p == self@.phase,
    {
        self.phase
    }

    /// Whether `event` answers the pending action (a byte while receiving,
    /// a completion otherwise).
    pub fn accepts(&self, event: &Event) -> (b: bool)
        ensures
            b == self@.accepts(*event),
    {
        let expects_byte = match self.phase {
            Phase::Size => true,
            Phase::Data { .. } => true,
            _ => false,
        };
        match event {
            Event::Byte(_) => expects_byte,
            Event::Completed(_) => !expects_byte,
        }
    }
}

/// Advances the recovery protocol by one event: `event` answers the
/// pending action, and the result is the next action to perform.
///
/// The protocol repeats: receive the image size (four bytes, big-endian);
/// refuse a size of zero or above `MAX_IMAGE_SIZE`; erase the flash sectors
/// that the image will occupy; receive the image, writing it to flash from `APP_BASE` on in
/// chunks of 256 bytes (the last one possibly shorter); acknowledge. A
/// failed erase or write is reported and the protocol starts over.
pub fn recovery_mode(state: &mut Recovery, event: Event) -> (action: Action)
    requires
        old(state)@.wf(),
        old(state)@.accepts(event),
    ensures
        final(state)@.wf(),
        (final(state)@, action@) == recovery_next(old(state)@, event),
        action@ matches ActionView::Write(addr, data) ==> {
            &&& addr == APP_BASE + old(state)@.written
            &&& data == final(state)@.received.subrange(
                old(state)@.written as int,
                final(state)@.received.len() as int,
            )
            &&& final(state)@.phase matches Phase::Write { size } && (data.len() == 256
                || old(state)@.written + data.len() == size) && APP_BASE <= addr && addr
                + data.len() <= APP_BASE + size <= erased_end(size as int)
        },
        action@ == ActionView::Send(Message::ImageWritten) ==> {
            &&& old(state)@.phase matches Phase::Write { size } && final(state)@.written == size
            &&& final(state)@.received.len() == final(state)@.written
        },
        action@ matches ActionView::Erase(first, last) ==> {
            &&& event matches Event::Byte(b) && final(state)@.phase == Phase::Erase {
                size: spec_u32_be(old(state)@.buffer.push(b)) as u32,
            }
            &&& size_acceptable(spec_u32_be(old(state)@.buffer.push(event->Byte_0)))
            &&& first == 2 && first <= last <= 7
            &&& sector_start(first as int) == APP_BASE
            &&& APP_BASE + spec_u32_be(old(state)@.buffer.push(event->Byte_0)) <= sector_start(
                last as int,
            ) + sector_size(last as int)
        },
{
    match event {
        Event::Byte(b) => {
            match state.phase {
                Phase::Size => {
                    state.buffer.push(b);
                    if state.buffer.len() < 4 {
                        Action::Receive
                    } else {
                        let size = recv_u32(state.buffer.as_slice());
                        state.buffer = Vec::new();
                        if size == 0 || size > MAX_IMAGE_SIZE {
                            state.phase = Phase::Reply;
                            Action::Send(Message::InvalidSize)
                        } else {
                            proof {
                                lemma_erase_range_covers(size as int);
                            }
                            let first = addr_to_sector(APP_BASE);
                            let last = addr_to_sector(APP_BASE + (size - 1));
                            match (first, last) {
                                (Ok(first), Ok(last)) => {
                                    state.phase = Phase::Erase { size };
                                    Action::Erase { first, last }
                                },
                                _ => {
                                    proof {
                                        assert(false);
                                    }
                                    state.phase = Phase::Reply;
                                    Action::Send(Message::EraseError)
                                },
                            }
                        }
                    }
                },
                Phase::Data { size } => {
                    let ghost old_buffer = state.buffer@;
                    state.buffer.push(b);
                    state.received = Ghost(state.received@.push(b));
                    let offset: u32 = state.written + state.buffer.len() as u32;
                    proof {
                        assert(state.received@.subrange(
                            state.written as int,
                            state.received@.len() as int,
                        ) =~= old_buffer.push(b));
                        assert((state.written + 256) % 256 == 0);
                    }
                    if offset % 256 == 0 || offset == size {
                        state.phase = Phase::Write { size };
                        let data = state.buffer.clone();
                        proof {
                            assert(data@ =~= state.buffer@);
                        }
                        Action::Write { addr: APP_BASE + state.written, data }
                    } else {
                        Action::Receive
                    }
                },
                _ => Action::Receive,
            }
        },
        Event::Completed(res) => {
            match state.phase {
                Phase::Reply => {
                    state.phase = Phase::Size;
                    state.buffer = Vec::new();
                    Action::Receive
                },
                Phase::Erase { size } => {
                    match res {
                        Ok(()) => {
                            state.phase = Phase::Data { size };
                            state.buffer = Vec::new();
                            state.written = 0;
                            state.received = Ghost(Seq::empty());
                            proof {
                                assert(state@.received.subrange(0, 0) =~= state@.buffer);
                            }
                            Action::Receive
                        },
                        Err(_) => {
                            state.phase = Phase::Reply;
                            state.buffer = Vec::new();
                            Action::Send(Message::EraseError)
                        },
                    }
                },
                Phase::Write { size } => {
                    match res {
                        Ok(()) => {
                            let w: u32 = state.written + state.buffer.len() as u32;
                            state.written = w;
                            state.buffer = Vec::new();
                            if w == size {
                                state.phase = Phase::Reply;
                                Action::Send(Message::ImageWritten)
                            } else {
                                state.phase = Phase::Data { size };
                                proof {
                                    assert(state.received@.subrange(w as int, w as int)
                                        =~= Seq::<u8>::empty());
                                }
                                Action::Receive
                            }
                        },
                        Err(_) => {
                            state.phase = Phase::Reply;
                            state.buffer = Vec::new();
                            Action::Send(Message::FlashError)
                        },
                    }
                },
                _ => Action::Receive,
            }
        },
    }
}

} // verus!
