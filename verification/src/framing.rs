use vstd::prelude::*;

use crate::report::{decodes_to, MyKeyboardReport, REPORT_LEN};

verus! {

/// What one received byte does to the bytes held so far: the next buffer,
/// and the frame handed to the decoder when a whole report is in.
pub open spec fn step(buf: Seq<u8>, byte: u8) -> (Seq<u8>, Option<Seq<u8>>) {
    let grown = buf.push(byte);
    if grown.len() >= REPORT_LEN {
        (Seq::empty(), Some(grown))
    } else {
        (grown, None)
    }
}

/// Feeding a stream of bytes one by one: the buffer left at the end and the
/// frames completed on the way, in order.
pub open spec fn feed(buf: Seq<u8>, stream: Seq<u8>) -> (Seq<u8>, Seq<Seq<u8>>)
    decreases stream.len(),
{
    if stream.len() == 0 {
        (buf, Seq::empty())
    } else {
        let (next, frame) = step(buf, stream[0]);
        let (last, rest) = feed(next, stream.drop_first());
        match frame {
            Some(f) => (last, seq![f] + rest),
            None => (last, rest),
        }
    }
}

/// The first `n` consecutive nine-byte frames of `all`.
pub open spec fn frames_of(all: Seq<u8>, n: nat) -> Seq<Seq<u8>> {
    Seq::new(n, |i: int| all.subrange(REPORT_LEN * i, REPORT_LEN * i + REPORT_LEN))
}

/// The bytes a sender puts on the line for the reports `rs`, one after the
/// other.
pub open spec fn stream_of(rs: Seq<MyKeyboardReport>) -> Seq<u8>
    decreases rs.len(),
{
    if rs.len() == 0 {
        Seq::empty()
    } else {
        stream_of(rs.drop_last()) + rs.last().encoding()
    }
}

/// Collects the bytes of a serial stream until they make up a whole report.
pub struct ReportAssembler {
    buffer: Vec<u8>,
}

impl View for ReportAssembler {
    type V = Seq<u8>;

    closed spec fn view(&self) -> Seq<u8> {
        self.buffer@
    }
}



impl ReportAssembler {
    /// The bytes held never make up a whole report: a whole one is handed
    /// out at once.
    #[verifier::type_invariant]
    spec fn holds_partial_report(self) -> bool {
        self.buffer@.len() < REPORT_LEN
    }

    /// An assembler that holds no bytes.
    pub fn new() -> (res: Self)
        ensures
            res@ == Seq::<u8>::empty(),
    {
        ReportAssembler { buffer: Vec::new() }
    }

    /// Takes one received byte. Once the held bytes make up a report, the
    /// report is returned and the buffer is emptied; until then the byte is
    /// kept and nothing is returned.
    pub fn push_byte(&mut self, byte: u8) -> (res: Option<MyKeyboardReport>)
        ensures
            final(self)@ == step(old(self)@, byte).0,
            res is Some <==> step(old(self)@, byte).1 is Some,
            res matches Some(r) ==> r.encoding() == step(old(self)@, byte).1->0,
            res matches Some(r) ==> decodes_to(old(self)@.push(byte), r),
            res matches Some(r) ==> {
                &&& r.modifier == old(self)@.push(byte)[0]
                &&& r.reserved == old(self)@.push(byte)[1]
                &&& r.leds == old(self)@.push(byte)[2]
                &&& r.keycodes@ == old(self)@.push(byte).subrange(3, 9)
            },
            old(self)@.len() < REPORT_LEN,
            final(self)@.len() < REPORT_LEN,
    {
        proof {
            use_type_invariant(&*self);
        }
        let mut held: Vec<u8> = Vec::new();
        std::mem::swap(&mut held, &mut self.buffer);
        held.push(byte);
        match MyKeyboardReport::new(held.as_slice()) {
            Ok(rep) => {
                held.clear();
                self.buffer = held;
                proof {
                    crate::report::lemma_encoding_len(rep);
                    crate::report::lemma_decoded_fields(old(self)@.push(byte), rep);
                    assert(old(self)@.push(byte).take(REPORT_LEN as int) =~= old(self)@.push(byte));
                }
                Some(rep)
            },
            Err(_) => {
                self.buffer = held;
                None
            },
        }
    }
}

/// Re-framing a serial stream: starting from a partial report `buf`, the
/// frames handed out are the consecutive nine-byte pieces of everything
/// received so far, and the bytes left over stay held.
pub proof fn lemma_feed(buf: Seq<u8>, stream: Seq<u8>)
    requires
        buf.len() < REPORT_LEN,
    ensures
        ({
            let all = buf + stream;
            let n = all.len() / (REPORT_LEN as nat);
            &&& feed(buf, stream).0 == all.skip(REPORT_LEN * n)
            &&& feed(buf, stream).1 == frames_of(all, n)
        }),
    decreases stream.len(),
{
    let all = buf + stream;
    let n = all.len() / (REPORT_LEN as nat);
    if stream.len() == 0 {
        assert(all =~= buf);
        assert(n == 0);
        assert(all.skip(0) =~= all);
        assert(frames_of(all, n) =~= Seq::<Seq<u8>>::empty());
    } else {
        let grown = buf.push(stream[0]);
        let rest = stream.drop_first();
        assert(all =~= grown + rest);
        if grown.len() >= REPORT_LEN {
            lemma_feed(Seq::empty(), rest);
            let m = rest.len() / (REPORT_LEN as nat);
            assert(Seq::<u8>::empty() + rest =~= rest);
            assert(grown.len() == REPORT_LEN);
            assert(n == m + 1) by (nonlinear_arith)
                requires
                    all.len() == rest.len() + 9,
                    n == all.len() / 9,
                    m == rest.len() / 9,
            ;
            assert(all.skip(REPORT_LEN * n) =~= rest.skip(REPORT_LEN * m));
            let fr = frames_of(all, n);
            let fr_rest = frames_of(rest, m);
            assert forall|i: int| 0 <= i < n implies #[trigger] fr[i] == (seq![grown] + fr_rest)[i] by {
                if i == 0 {
                    assert(fr[0] =~= grown);
                } else {
                    assert(fr[i] =~= fr_rest[i - 1]);
                }
            }
            assert(fr =~= seq![grown] + fr_rest);
        } else {
            lemma_feed(grown, rest);
        }
    }
}

/// The line carries each report's wire form in its own nine-byte slot.
pub proof fn lemma_stream_of_slots(rs: Seq<MyKeyboardReport>)
    ensures
        stream_of(rs).len() == REPORT_LEN * rs.len(),
        forall|i: int|
            0 <= i < rs.len() ==> #[trigger] stream_of(rs).subrange(
                REPORT_LEN * i,
                REPORT_LEN * i + REPORT_LEN,
            ) == rs[i].encoding(),
    decreases rs.len(),
{
    if rs.len() > 0 {
        let front = rs.drop_last();
        lemma_stream_of_slots(front);
        crate::report::lemma_encoding_len(rs.last());
        let s = stream_of(rs);
        assert forall|i: int| 0 <= i < rs.len() implies #[trigger] s.subrange(
            REPORT_LEN * i,
            REPORT_LEN * i + REPORT_LEN,
        ) == rs[i].encoding() by {
            if i < front.len() {
                assert(s.subrange(REPORT_LEN * i, REPORT_LEN * i + REPORT_LEN) =~= stream_of(
                    front,
                ).subrange(REPORT_LEN * i, REPORT_LEN * i + REPORT_LEN));
                assert(front[i] == rs[i]);
            } else {
                assert(s.subrange(REPORT_LEN * i, REPORT_LEN * i + REPORT_LEN) =~= rs.last().encoding());
            }
        }
    }
}

/// What a sender writes is what the receiver hands out: feeding the wire
/// forms of the reports `rs` to an empty assembler completes exactly one
/// frame per report, in order, each decoding to that report and to no
/// other, and leaves the assembler empty.
pub proof fn lemma_reports_received_in_order(rs: Seq<MyKeyboardReport>)
    ensures
        feed(Seq::empty(), stream_of(rs)).0 == Seq::<u8>::empty(),
        feed(Seq::empty(), stream_of(rs)).1.len() == rs.len(),
        forall|i: int, r: MyKeyboardReport|
            0 <= i < rs.len() && #[trigger] decodes_to(feed(Seq::empty(), stream_of(rs)).1[i], r)
                ==> r == rs[i],
        forall|i: int|
            0 <= i < rs.len() ==> #[trigger] feed(Seq::empty(), stream_of(rs)).1[i] == rs[i].encoding(),
{
    let stream = stream_of(rs);
    lemma_stream_of_slots(rs);
    lemma_feed(Seq::empty(), stream);
    assert(Seq::<u8>::empty() + stream =~= stream);
    let n = stream.len() / (REPORT_LEN as nat);
    assert(n == rs.len()) by (nonlinear_arith)
        requires
            stream.len() == 9 * rs.len(),
            n == stream.len() / 9,
    ;
    assert(stream.skip(REPORT_LEN * n) =~= Seq::<u8>::empty());
    let frames = feed(Seq::empty(), stream).1;
    assert forall|i: int| 0 <= i < rs.len() implies #[trigger] frames[i] == rs[i].encoding() by {
        assert(frames[i] == stream.subrange(REPORT_LEN * i, REPORT_LEN * i + REPORT_LEN));
    }
    assert forall|i: int, r: MyKeyboardReport|
        0 <= i < rs.len() && #[trigger] decodes_to(frames[i], r) implies r == rs[i] by {
        assert(frames[i] == rs[i].encoding());
        crate::report::lemma_roundtrip(rs[i], r);
    }
}

} // verus!
