use vstd::prelude::*;

use crate::flash::{sector_size, sector_start};
use crate::recovery::{
    chunk_ends_at, erase_range, erased_end, lemma_erase_range_covers, recovery_next,
    size_acceptable, spec_u32_be, ActionView, Event, Message, Phase, RecoveryView,
};
use crate::types::{BootError, APP_BASE, MAX_IMAGE_SIZE};

verus! {

/// The states and actions of the protocol when `events` are fed in order
/// from state `v`: the final state and the actions, one per event.
pub open spec fn recovery_run(v: RecoveryView, events: Seq<Event>) -> (RecoveryView, Seq<ActionView>)
    decreases events.len(),
{
    if events.len() == 0 {
        (v, Seq::empty())
    } else {
        let step = recovery_next(v, events[0]);
        let rest = recovery_run(step.0, events.drop_first());
        (rest.0, seq![step.1] + rest.1)
    }
}

/// The bytes that the `Write` actions of `acts` program, in order.
pub open spec fn written_bytes(acts: Seq<ActionView>) -> Seq<u8>
    decreases acts.len(),
{
    if acts.len() == 0 {
        Seq::empty()
    } else {
        match acts[0] {
            ActionView::Write(_, data) => data + written_bytes(acts.drop_first()),
            _ => written_bytes(acts.drop_first()),
        }
    }
}

/// The replies that the `Send` actions of `acts` send, in order.
pub open spec fn replies(acts: Seq<ActionView>) -> Seq<Message>
    decreases acts.len(),
{
    if acts.len() == 0 {
        Seq::empty()
    } else {
        match acts[0] {
            ActionView::Send(m) => seq![m] + replies(acts.drop_first()),
            _ => replies(acts.drop_first()),
        }
    }
}

/// Each `Write` of `acts` programs its bytes right after those of the
/// previous writes, the first one at `APP_BASE + offset`.
pub open spec fn writes_in_place(acts: Seq<ActionView>, offset: int) -> bool
    decreases acts.len(),
{
    if acts.len() == 0 {
        true
    } else {
        match acts[0] {
            ActionView::Write(addr, data) => addr == APP_BASE + offset && writes_in_place(
                acts.drop_first(),
                offset + data.len(),
            ),
            _ => writes_in_place(acts.drop_first(), offset),
        }
    }
}

/// No action of `acts` touches the flash.
pub open spec fn no_flash_access(acts: Seq<ActionView>) -> bool {
    forall|i: int|
        0 <= i < acts.len() ==> !(#[trigger] acts[i] is Write) && !(acts[i] is Erase)
}

/// The four bytes, most significant first, by which the host announces
/// the size `n`.
pub open spec fn size_bytes(n: u32) -> Seq<u8> {
    seq![
        (n / 16777216) as u8,
        ((n / 65536) % 256) as u8,
        ((n / 256) % 256) as u8,
        (n % 256) as u8,
    ]
}

/// The events of receiving the four bytes that announce size `n`.
pub open spec fn size_byte_events(n: u32) -> Seq<Event> {
    seq![
        Event::Byte(size_bytes(n)[0]),
        Event::Byte(size_bytes(n)[1]),
        Event::Byte(size_bytes(n)[2]),
        Event::Byte(size_bytes(n)[3]),
    ]
}

/// The events of receiving the bytes of `s`, one by one.
pub open spec fn byte_events(s: Seq<u8>) -> Seq<Event>
    decreases s.len(),
{
    if s.len() == 0 {
        Seq::empty()
    } else {
        seq![Event::Byte(s[0])] + byte_events(s.drop_first())
    }
}

/// The successful completion of an action.
pub open spec fn done() -> Event {
    Event::Completed(Ok(()))
}

/// The events of receiving `rest`, the image bytes after the first
/// `offset` of an image of `size` bytes, where every flash write succeeds:
/// each byte, followed by a successful completion wherever a chunk ends.
pub open spec fn image_events(offset: nat, size: nat, rest: Seq<u8>) -> Seq<Event>
    decreases rest.len(),
{
    if rest.len() == 0 {
        Seq::empty()
    } else {
        let tail = image_events(offset + 1, size, rest.drop_first());
        if chunk_ends_at((offset + 1) as int, size as int) {
            seq![Event::Byte(rest[0]), done()] + tail
        } else {
            seq![Event::Byte(rest[0])] + tail
        }
    }
}

/// The events of a successful upload frame for `image`: the size, the
/// completed erase, the image with every write completed, and the
/// completed acknowledgement.
pub open spec fn upload_events(image: Seq<u8>) -> Seq<Event> {
    size_byte_events(image.len() as u32) + (seq![done()] + (image_events(0, image.len(), image)
        + seq![done()]))
}

/// The state after the four bytes that announce `n`, from a state `v`
/// that waits for a size: erasing for an acceptable size, replying
/// otherwise.
pub open spec fn after_size(v: RecoveryView, n: u32) -> RecoveryView {
    RecoveryView {
        phase: if size_acceptable(n as int) {
            Phase::Erase { size: n }
        } else {
            Phase::Reply
        },
        buffer: Seq::empty(),
        written: v.written,
        received: v.received,
    }
}

/// The action after the four bytes that announce `n`.
pub open spec fn size_reaction(n: u32) -> ActionView {
    if size_acceptable(n as int) {
        ActionView::Erase(erase_range(n as int).0 as u8, erase_range(n as int).1 as u8)
    } else {
        ActionView::Send(Message::InvalidSize)
    }
}

/// Every transition keeps the protocol state well formed.
pub proof fn lemma_next_wf(v: RecoveryView, e: Event)
    requires
        v.wf(),
        v.accepts(e),
    ensures
        recovery_next(v, e).0.wf(),
{
    let n = recovery_next(v, e).0;
    match e {
        Event::Byte(b) => {
            if v.phase is Data {
                assert(n.received.subrange(v.written as int, n.received.len() as int) =~= v.buffer.push(b));
                assert((v.written + 256) % 256 == 0);
            }
        },
        Event::Completed(res) => {
            if v.phase is Erase && res is Ok {
                assert(n.received.subrange(0, 0) =~= n.buffer);
            }
            if v.phase is Write && res is Ok {
                assert(n.received.subrange(n.written as int, n.written as int) =~= n.buffer);
            }
        },
    }
}

/// Running `e` then `rest` is one step followed by the run of `rest`.
pub proof fn lemma_run_cons(v: RecoveryView, e: Event, rest: Seq<Event>)
    ensures
        recovery_run(v, seq![e] + rest) == ({
            let step = recovery_next(v, e);
            let r = recovery_run(step.0, rest);
            (r.0, seq![step.1] + r.1)
        }),
{
    assert((seq![e] + rest).drop_first() =~= rest);
    assert((seq![e] + rest)[0] == e);
}

/// Running `e1 + e2` is running `e1`, then `e2` from where it ended.
pub proof fn lemma_run_concat(v: RecoveryView, e1: Seq<Event>, e2: Seq<Event>)
    ensures
        recovery_run(v, e1 + e2) == ({
            let r1 = recovery_run(v, e1);
            let r2 = recovery_run(r1.0, e2);
            (r2.0, r1.1 + r2.1)
        }),
    decreases e1.len(),
{
    if e1.len() == 0 {
        assert(e1 + e2 =~= e2);
        assert(Seq::<ActionView>::empty() + recovery_run(v, e2).1 =~= recovery_run(v, e2).1);
    } else {
        let e = e1[0];
        let t = e1.drop_first();
        assert(e1 + e2 =~= seq![e] + (t + e2));
        assert(e1 =~= seq![e] + t);
        lemma_run_cons(v, e, t + e2);
        lemma_run_cons(v, e, t);
        let s = recovery_next(v, e);
        lemma_run_concat(s.0, t, e2);
        let r1 = recovery_run(s.0, t);
        let r2 = recovery_run(r1.0, e2);
        assert(seq![s.1] + (r1.1 + r2.1) =~= (seq![s.1] + r1.1) + r2.1);
    }
}

/// `written_bytes`, `replies` and `writes_in_place` of an action followed
/// by others.
pub proof fn lemma_actions_cons(a: ActionView, rest: Seq<ActionView>, offset: int)
    ensures
        written_bytes(seq![a] + rest) == (match a {
            ActionView::Write(_, data) => data + written_bytes(rest),
            _ => written_bytes(rest),
        }),
        replies(seq![a] + rest) == (match a {
            ActionView::Send(m) => seq![m] + replies(rest),
            _ => replies(rest),
        }),
        writes_in_place(seq![a] + rest, offset) == (match a {
            ActionView::Write(addr, data) => addr == APP_BASE + offset && writes_in_place(
                rest,
                offset + data.len(),
            ),
            _ => writes_in_place(rest, offset),
        }),
{
    assert((seq![a] + rest).drop_first() =~= rest);
    assert((seq![a] + rest)[0] == a);
}

/// `written_bytes`, `replies` and `writes_in_place` of two runs of actions
/// one after the other.
pub proof fn lemma_actions_concat(a: Seq<ActionView>, b: Seq<ActionView>, offset: int)
    ensures
        written_bytes(a + b) == written_bytes(a) + written_bytes(b),
        replies(a + b) == replies(a) + replies(b),
        writes_in_place(a + b, offset) == (writes_in_place(a, offset) && writes_in_place(
            b,
            offset + written_bytes(a).len(),
        )),
    decreases a.len(),
{
    if a.len() == 0 {
        assert(a + b =~= b);
        assert(Seq::<u8>::empty() + written_bytes(b) =~= written_bytes(b));
        assert(Seq::<Message>::empty() + replies(b) =~= replies(b));
    } else {
        let x = a[0];
        let t = a.drop_first();
        assert(a + b =~= seq![x] + (t + b));
        assert(a =~= seq![x] + t);
        lemma_actions_cons(x, t + b, offset);
        lemma_actions_cons(x, t, offset);
        match x {
            ActionView::Write(addr, data) => {
                lemma_actions_concat(t, b, offset + data.len());
                assert(data + (written_bytes(t) + written_bytes(b)) =~= (data + written_bytes(t))
                    + written_bytes(b));
            },
            ActionView::Send(m) => {
                lemma_actions_concat(t, b, offset);
                assert(seq![m] + (replies(t) + replies(b)) =~= (seq![m] + replies(t)) + replies(
                    b,
                ));
            },
            _ => {
                lemma_actions_concat(t, b, offset);
            },
        }
    }
}

/// The four announced bytes decode to the announced size.
pub proof fn lemma_size_bytes(n: u32)
    ensures
        spec_u32_be(size_bytes(n)) == n,
{
    let sb = size_bytes(n);
    assert(sb[0] * 16777216 + sb[1] * 65536 + sb[2] * 256 + sb[3] == n) by (nonlinear_arith)
        requires
            sb[0] == n / 16777216,
            sb[1] == (n / 65536) % 256,
            sb[2] == (n / 256) % 256,
            sb[3] == n % 256,
            0 <= n < 0x1_0000_0000,
    ;
}

/// Three receives and an action `x`: no bytes written, the reply of `x`
/// if it is one, and nothing written out of place.
proof fn lemma_prefix4(x: ActionView, rest: Seq<ActionView>, offset: int)
    requires
        !(x is Write),
    ensures
        ({
            let p = seq![ActionView::Receive, ActionView::Receive, ActionView::Receive, x];
            &&& written_bytes(p + rest) == written_bytes(rest)
            &&& replies(p + rest) == (match x {
                ActionView::Send(m) => seq![m] + replies(rest),
                _ => replies(rest),
            })
            &&& writes_in_place(p + rest, offset) == writes_in_place(rest, offset)
        }),
{
    let p = seq![ActionView::Receive, ActionView::Receive, ActionView::Receive, x];
    let t3 = seq![x] + rest;
    let t2 = seq![ActionView::Receive] + t3;
    let t1 = seq![ActionView::Receive] + t2;
    assert(p + rest =~= seq![ActionView::Receive] + t1);
    lemma_actions_cons(ActionView::Receive, t1, offset);
    lemma_actions_cons(ActionView::Receive, t2, offset);
    lemma_actions_cons(ActionView::Receive, t3, offset);
    lemma_actions_cons(x, rest, offset);
}

/// The four size bytes of `n`, fed to a state that waits for a size.
pub proof fn lemma_size_run(v: RecoveryView, n: u32)
    requires
        v.wf(),
        v.phase == Phase::Size,
        v.buffer.len() == 0,
    ensures
        after_size(v, n).wf(),
        recovery_run(v, size_byte_events(n)) == (
            after_size(v, n),
            seq![ActionView::Receive, ActionView::Receive, ActionView::Receive, size_reaction(n)],
        ),
{
    let sb = size_bytes(n);
    lemma_size_bytes(n);
    let e = size_byte_events(n);
    let t3 = seq![Event::Byte(sb[3])] + Seq::<Event>::empty();
    let t2 = seq![Event::Byte(sb[2])] + t3;
    let t1 = seq![Event::Byte(sb[1])] + t2;
    assert(e =~= seq![Event::Byte(sb[0])] + t1);
    let v1 = recovery_next(v, Event::Byte(sb[0])).0;
    let v2 = recovery_next(v1, Event::Byte(sb[1])).0;
    let v3 = recovery_next(v2, Event::Byte(sb[2])).0;
    let s3 = recovery_next(v3, Event::Byte(sb[3]));
    lemma_run_cons(v, Event::Byte(sb[0]), t1);
    lemma_run_cons(v1, Event::Byte(sb[1]), t2);
    lemma_run_cons(v2, Event::Byte(sb[2]), t3);
    lemma_run_cons(v3, Event::Byte(sb[3]), Seq::empty());
    lemma_next_wf(v, Event::Byte(sb[0]));
    lemma_next_wf(v1, Event::Byte(sb[1]));
    lemma_next_wf(v2, Event::Byte(sb[2]));
    lemma_next_wf(v3, Event::Byte(sb[3]));
    assert(v3.buffer.push(sb[3]) =~= sb);
    assert(s3.0 == after_size(v, n));
    assert(seq![ActionView::Receive] + (seq![ActionView::Receive] + (seq![ActionView::Receive] + (
    seq![s3.1] + Seq::<ActionView>::empty()))) =~= seq![
        ActionView::Receive,
        ActionView::Receive,
        ActionView::Receive,
        s3.1,
    ]);
}

/// Receiving `rest`, image bytes that end on a chunk boundary, with every
/// write succeeding: the held bytes and `rest` are written, in order and
/// in place. At the end of the image the acknowledgement is the one reply;
/// before it there is no reply and the state waits for the next byte with
/// everything written.
pub proof fn lemma_image_chunks(v: RecoveryView, rest: Seq<u8>)
    requires
        v.wf(),
        v.phase is Data,
        rest.len() > 0,
        v.received.len() + rest.len() <= v.phase->Data_size,
        chunk_ends_at((v.received.len() + rest.len()) as int, v.phase->Data_size as int),
    ensures
        ({
            let size = v.phase->Data_size;
            let r = recovery_run(v, image_events(v.received.len(), size as nat, rest));
            &&& written_bytes(r.1) == v.buffer + rest
            &&& writes_in_place(r.1, v.written as int)
            &&& r.1.len() > 0
            &&& r.0.wf()
            &&& if v.received.len() + rest.len() == size {
                &&& replies(r.1) == seq![Message::ImageWritten]
                &&& r.1.last() == ActionView::Send(Message::ImageWritten)
                &&& r.0.phase == Phase::Reply
            } else {
                &&& replies(r.1) == Seq::<Message>::empty()
                &&& r.0 == RecoveryView {
                    phase: Phase::Data { size },
                    buffer: Seq::empty(),
                    written: (v.received.len() + rest.len()) as nat,
                    received: v.received + rest,
                }
            }
        }),
    decreases rest.len(),
{
    let size = v.phase->Data_size;
    let o0 = v.received.len();
    let o = o0 + 1;
    let b = rest[0];
    let rest1 = rest.drop_first();
    let tail = image_events(o, size as nat, rest1);
    let s1 = recovery_next(v, Event::Byte(b));
    let v1 = s1.0;
    lemma_next_wf(v, Event::Byte(b));
    if chunk_ends_at(o as int, size as int) {
        assert(image_events(o0, size as nat, rest) == seq![Event::Byte(b)] + (seq![done()] + tail))
            by {
            assert(seq![Event::Byte(b), done()] + tail =~= seq![Event::Byte(b)] + (seq![done()]
                + tail));
        }
        lemma_run_cons(v, Event::Byte(b), seq![done()] + tail);
        lemma_run_cons(v1, done(), tail);
        lemma_next_wf(v1, done());
        let s2 = recovery_next(v1, done());
        let v2 = s2.0;
        let r2 = recovery_run(v2, tail);
        lemma_actions_cons(s1.1, seq![s2.1] + r2.1, v.written as int);
        lemma_actions_cons(s2.1, r2.1, o as int);
        if rest1.len() == 0 {
            assert(tail == Seq::<Event>::empty());
            assert(r2.1 == Seq::<ActionView>::empty());
            assert(v.buffer.push(b) + Seq::<u8>::empty() =~= v.buffer + rest);
            assert(v.received.push(b) =~= v.received + rest);
            assert(seq![Message::ImageWritten] + Seq::<Message>::empty() =~= seq![
                Message::ImageWritten,
            ]);
        } else {
            lemma_image_chunks(v2, rest1);
            assert(v.buffer.push(b) + (Seq::<u8>::empty() + rest1) =~= v.buffer + rest);
            assert(v.received.push(b) + rest1 =~= v.received + rest);
        }
    } else {
        assert(image_events(o0, size as nat, rest) == seq![Event::Byte(b)] + tail);
        lemma_run_cons(v, Event::Byte(b), tail);
        lemma_image_chunks(v1, rest1);
        let r1 = recovery_run(v1, tail);
        lemma_actions_cons(s1.1, r1.1, v.written as int);
        assert(v.buffer.push(b) + rest1 =~= v.buffer + rest);
        assert(v.received.push(b) + rest1 =~= v.received + rest);
    }
}

/// Receiving `chunk`, the bytes that complete the current chunk, whose
/// write then fails with `err`, and completing the reply: the one reply is
/// `FlashError`, and the protocol waits for a new size.
pub proof fn lemma_chunk_fails(v: RecoveryView, chunk: Seq<u8>, err: BootError)
    requires
        v.wf(),
        v.phase is Data,
        chunk.len() > 0,
        v.received.len() + chunk.len() <= v.phase->Data_size,
        chunk_ends_at((v.received.len() + chunk.len()) as int, v.phase->Data_size as int),
        forall|k: int|
            1 <= k < chunk.len() ==> !#[trigger] chunk_ends_at(
                v.received.len() + k,
                v.phase->Data_size as int,
            ),
    ensures
        ({
            let r = recovery_run(
                v,
                byte_events(chunk) + seq![Event::Completed(Err(err)), done()],
            );
            &&& written_bytes(r.1) == v.buffer + chunk
            &&& writes_in_place(r.1, v.written as int)
            &&& replies(r.1) == seq![Message::FlashError]
            &&& r.0.phase == Phase::Size
            &&& r.0.buffer.len() == 0
            &&& r.0.wf()
        }),
    decreases chunk.len(),
{
    let size = v.phase->Data_size;
    let o0 = v.received.len();
    let b = chunk[0];
    let c1 = chunk.drop_first();
    let fail = seq![Event::Completed(Err(err)), done()];
    assert(byte_events(chunk) == seq![Event::Byte(b)] + byte_events(c1));
    assert(byte_events(chunk) + fail =~= seq![Event::Byte(b)] + (byte_events(c1) + fail));
    lemma_run_cons(v, Event::Byte(b), byte_events(c1) + fail);
    lemma_next_wf(v, Event::Byte(b));
    let s1 = recovery_next(v, Event::Byte(b));
    let v1 = s1.0;
    if c1.len() == 0 {
        assert(byte_events(c1) =~= Seq::<Event>::empty());
        assert(byte_events(c1) + fail =~= seq![Event::Completed(Err(err))] + (seq![done()]
            + Seq::<Event>::empty()));
        lemma_run_cons(v1, Event::Completed(Err(err)), seq![done()] + Seq::<Event>::empty());
        let s2 = recovery_next(v1, Event::Completed(Err(err)));
        lemma_run_cons(s2.0, done(), Seq::<Event>::empty());
        let s3 = recovery_next(s2.0, done());
        lemma_actions_cons(s1.1, seq![s2.1] + (seq![s3.1] + Seq::<ActionView>::empty()), v.written as int);
        lemma_actions_cons(s2.1, seq![s3.1] + Seq::<ActionView>::empty(), (v.written + v.buffer.len() + 1) as int);
        lemma_actions_cons(s3.1, Seq::<ActionView>::empty(), (v.written + v.buffer.len() + 1) as int);
        assert(v.buffer.push(b) + Seq::<u8>::empty() =~= v.buffer + chunk);
        assert(seq![Message::FlashError] + Seq::<Message>::empty() =~= seq![Message::FlashError]);
    } else {
        assert(!chunk_ends_at((o0 + 1) as int, size as int));
        assert forall|k: int| 1 <= k < c1.len() implies !#[trigger] chunk_ends_at(
            v1.received.len() + k,
            size as int,
        ) by {
            assert(!chunk_ends_at(o0 + (k + 1), size as int));
        }
        lemma_chunk_fails(v1, c1, err);
        let r1 = recovery_run(v1, byte_events(c1) + fail);
        lemma_actions_cons(s1.1, r1.1, v.written as int);
        assert(v.buffer.push(b) + c1 =~= v.buffer + chunk);
    }
}

/// A successful upload frame: from a state that waits for an image size,
/// the host announces `image.len()` (acceptable) and sends `image`, and
/// every erase, write and reply completes. Then the sectors from the one at
/// `APP_BASE` to the one holding the last image byte are erased before
/// anything is written, the writes program exactly `image`, in order, from
/// `APP_BASE` on (so within the erased sectors), the one reply is the
/// acknowledgement, and the protocol waits for the next size.
pub proof fn lemma_upload_writes_image(v: RecoveryView, image: Seq<u8>)
    requires
        v.wf(),
        v.phase == Phase::Size,
        v.buffer.len() == 0,
        1 <= image.len() <= MAX_IMAGE_SIZE,
    ensures
        ({
            let r = recovery_run(v, upload_events(image));
            let er = erase_range(image.len() as int);
            &&& r.1.subrange(0, 5) == seq![
                ActionView::Receive,
                ActionView::Receive,
                ActionView::Receive,
                ActionView::Erase(er.0 as u8, er.1 as u8),
                ActionView::Receive,
            ]
            &&& sector_start(er.0) == APP_BASE
            &&& APP_BASE + image.len() <= erased_end(image.len() as int)
            &&& written_bytes(r.1) == image
            &&& writes_in_place(r.1, 0)
            &&& replies(r.1) == seq![Message::ImageWritten]
            &&& r.1.last() == ActionView::Receive
            &&& r.0.phase == Phase::Size
            &&& r.0.buffer.len() == 0
        }),
{
    let n = image.len() as u32;
    lemma_erase_range_covers(n as int);
    let sbe = size_byte_events(n);
    let img = image_events(0, image.len(), image);
    let rest0 = seq![done()] + (img + seq![done()]);
    lemma_size_run(v, n);
    lemma_run_concat(v, sbe, rest0);
    let v4 = after_size(v, n);
    lemma_run_cons(v4, done(), img + seq![done()]);
    lemma_next_wf(v4, done());
    let v5 = recovery_next(v4, done()).0;
    lemma_run_concat(v5, img, seq![done()]);
    lemma_image_chunks(v5, image);
    let ri = recovery_run(v5, img);
    let v6 = ri.0;
    lemma_run_cons(v6, done(), Seq::empty());
    let s7 = recovery_next(v6, done());
    let tail = seq![s7.1] + Seq::<ActionView>::empty();
    let acts_after = seq![ActionView::Receive] + (ri.1 + tail);
    lemma_prefix4(size_reaction(n), acts_after, 0);
    lemma_actions_cons(ActionView::Receive, ri.1 + tail, 0);
    lemma_actions_concat(ri.1, tail, 0);
    lemma_actions_cons(s7.1, Seq::empty(), image.len() as int);
    assert(Seq::<u8>::empty() + image =~= image);
    assert(image + Seq::<u8>::empty() =~= image);
    assert(seq![Message::ImageWritten] + Seq::<Message>::empty() =~= seq![Message::ImageWritten]);
    let acts = seq![ActionView::Receive, ActionView::Receive, ActionView::Receive, size_reaction(n)]
        + acts_after;
    assert(acts.subrange(0, 5) =~= seq![
        ActionView::Receive,
        ActionView::Receive,
        ActionView::Receive,
        size_reaction(n),
        ActionView::Receive,
    ]);
    assert(acts.last() == s7.1);
}

/// A refused size frame: from a state that waits for an image size, the
/// host announces a size of zero or above `MAX_IMAGE_SIZE`. The one reply
/// is `InvalidSize`, the flash is not touched, and once the reply is sent
/// the protocol waits for a size again, in the state it started from.
pub proof fn lemma_refused_size(v: RecoveryView, n: u32)
    requires
        v.wf(),
        v.phase == Phase::Size,
        v.buffer.len() == 0,
        !size_acceptable(n as int),
    ensures
        ({
            let r = recovery_run(v, size_byte_events(n) + seq![done()]);
            &&& r.1 == seq![
                ActionView::Receive,
                ActionView::Receive,
                ActionView::Receive,
                ActionView::Send(Message::InvalidSize),
                ActionView::Receive,
            ]
            &&& replies(r.1) == seq![Message::InvalidSize]
            &&& no_flash_access(r.1)
            &&& r.0 == v
        }),
{
    lemma_size_run(v, n);
    lemma_run_concat(v, size_byte_events(n), seq![done()]);
    let v4 = after_size(v, n);
    lemma_run_cons(v4, done(), Seq::empty());
    let s5 = recovery_next(v4, done());
    assert(s5.0.buffer =~= v.buffer);
    let tail = seq![s5.1] + Seq::<ActionView>::empty();
    lemma_prefix4(size_reaction(n), tail, 0);
    lemma_actions_cons(s5.1, Seq::empty(), 0);
    let acts = seq![
        ActionView::Receive,
        ActionView::Receive,
        ActionView::Receive,
        ActionView::Send(Message::InvalidSize),
        ActionView::Receive,
    ];
    assert(seq![ActionView::Receive, ActionView::Receive, ActionView::Receive, size_reaction(n)]
        + tail =~= acts);
    assert(seq![Message::InvalidSize] + Seq::<Message>::empty() =~= seq![Message::InvalidSize]);
    assert(no_flash_access(acts));
}

/// An erase failure frame: from a state that waits for an image size, the
/// host announces an acceptable size, and the erase fails with `err`. The
/// one reply is `EraseError`, nothing is written, and once the reply is
/// sent the protocol waits for a size again, in the state it started from.
pub proof fn lemma_erase_failure(v: RecoveryView, n: u32, err: BootError)
    requires
        v.wf(),
        v.phase == Phase::Size,
        v.buffer.len() == 0,
        size_acceptable(n as int),
    ensures
        ({
            let r = recovery_run(
                v,
                size_byte_events(n) + seq![Event::Completed(Err(err)), done()],
            );
            let er = erase_range(n as int);
            &&& r.1 == seq![
                ActionView::Receive,
                ActionView::Receive,
                ActionView::Receive,
                ActionView::Erase(er.0 as u8, er.1 as u8),
                ActionView::Send(Message::EraseError),
                ActionView::Receive,
            ]
            &&& replies(r.1) == seq![Message::EraseError]
            &&& written_bytes(r.1) == Seq::<u8>::empty()
            &&& r.0 == v
        }),
{
    let fail = seq![Event::Completed(Err(err)), done()];
    lemma_size_run(v, n);
    lemma_run_concat(v, size_byte_events(n), fail);
    let v4 = after_size(v, n);
    assert(fail =~= seq![Event::Completed(Err(err))] + (seq![done()] + Seq::<Event>::empty()));
    lemma_run_cons(v4, Event::Completed(Err(err)), seq![done()] + Seq::<Event>::empty());
    let s5 = recovery_next(v4, Event::Completed(Err(err)));
    lemma_run_cons(s5.0, done(), Seq::empty());
    let s6 = recovery_next(s5.0, done());
    assert(s6.0.buffer =~= v.buffer);
    let t6 = seq![s6.1] + Seq::<ActionView>::empty();
    let t5 = seq![s5.1] + t6;
    lemma_prefix4(size_reaction(n), t5, 0);
    lemma_actions_cons(s5.1, t6, 0);
    lemma_actions_cons(s6.1, Seq::empty(), 0);
    assert(seq![ActionView::Receive, ActionView::Receive, ActionView::Receive, size_reaction(n)]
        + t5 =~= seq![
        ActionView::Receive,
        ActionView::Receive,
        ActionView::Receive,
        size_reaction(n),
        ActionView::Send(Message::EraseError),
        ActionView::Receive,
    ]);
    assert(seq![Message::EraseError] + Seq::<Message>::empty() =~= seq![Message::EraseError]);
}

/// A write failure frame: from a state that waits for an image size, the
/// host announces an acceptable size `n`, the erase succeeds, the whole
/// chunks `good` are received and written, then the bytes `bad` that
/// complete the next chunk are received and its write fails with `err`.
/// Every write is in place, the one reply is `FlashError`, and once it is
/// sent the protocol waits for a new size.
pub proof fn lemma_write_failure(
    v: RecoveryView,
    n: u32,
    good: Seq<u8>,
    bad: Seq<u8>,
    err: BootError,
)
    requires
        v.wf(),
        v.phase == Phase::Size,
        v.buffer.len() == 0,
        size_acceptable(n as int),
        good.len() % 256 == 0,
        bad.len() > 0,
        good.len() + bad.len() <= n,
        chunk_ends_at((good.len() + bad.len()) as int, n as int),
        forall|k: int| 1 <= k < bad.len() ==> !#[trigger] chunk_ends_at(good.len() + k, n as int),
    ensures
        ({
            let r = recovery_run(
                v,
                size_byte_events(n) + (seq![done()] + (image_events(0, n as nat, good) + (
                byte_events(bad) + seq![Event::Completed(Err(err)), done()]))),
            );
            let er = erase_range(n as int);
            &&& r.1[3] == ActionView::Erase(er.0 as u8, er.1 as u8)
            &&& written_bytes(r.1) == good + bad
            &&& writes_in_place(r.1, 0)
            &&& replies(r.1) == seq![Message::FlashError]
            &&& r.0.phase == Phase::Size
            &&& r.0.buffer.len() == 0
        }),
{
    let fail = seq![Event::Completed(Err(err)), done()];
    let img = image_events(0, n as nat, good);
    let tail_events = byte_events(bad) + fail;
    let rest0 = seq![done()] + (img + tail_events);
    lemma_size_run(v, n);
    lemma_run_concat(v, size_byte_events(n), rest0);
    let v4 = after_size(v, n);
    lemma_run_cons(v4, done(), img + tail_events);
    lemma_next_wf(v4, done());
    let v5 = recovery_next(v4, done()).0;
    lemma_run_concat(v5, img, tail_events);
    let ri = recovery_run(v5, img);
    let v6 = ri.0;
    if good.len() == 0 {
        assert(img == Seq::<Event>::empty());
        assert(ri.1 == Seq::<ActionView>::empty());
        assert(Seq::<u8>::empty() + good =~= good);
    } else {
        lemma_image_chunks(v5, good);
        assert(Seq::<u8>::empty() + good =~= good);
    }
    assert(v6.received.len() == good.len());
    assert(v6.wf() && v6.phase is Data && v6.buffer.len() == 0 && v6.written == good.len());
    lemma_chunk_fails(v6, bad, err);
    let rb = recovery_run(v6, tail_events);
    let acts_after = seq![ActionView::Receive] + (ri.1 + rb.1);
    lemma_prefix4(size_reaction(n), acts_after, 0);
    lemma_actions_cons(ActionView::Receive, ri.1 + rb.1, 0);
    lemma_actions_concat(ri.1, rb.1, 0);
    assert(v6.buffer + bad =~= bad);
    assert(Seq::<Message>::empty() + replies(rb.1) =~= replies(rb.1));
    let acts = seq![ActionView::Receive, ActionView::Receive, ActionView::Receive, size_reaction(n)]
        + acts_after;
    assert(acts[3] == size_reaction(n));
}

} // verus!
