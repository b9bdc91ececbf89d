use vstd::prelude::*;

verus! {

/// Size of the line buffer; one slot stays free, so a line holds at most
/// `LINE_CAPACITY - 1` bytes.
pub const LINE_CAPACITY: usize = 32;

/// Byte that ends a line.
pub const LINE_TERMINATOR: u8 = 0x0a;

/// One step of framing: the bytes held after `byte` arrives while `pending`
/// is held, and the line completed by it, if any. A terminator, or any byte
/// that arrives with the buffer full, completes the held bytes as a line and
/// is itself dropped.
pub open spec fn frame_step(pending: Seq<u8>, byte: u8) -> (Seq<u8>, Option<Seq<u8>>) {
    if byte != LINE_TERMINATOR && pending.len() < LINE_CAPACITY - 1 {
        (pending.push(byte), None)
    } else {
        (Seq::empty(), Some(pending))
    }
}

/// Framing a whole byte sequence: the bytes held at the end, and what each
/// byte completed, in order.
pub open spec fn frame_all(pending: Seq<u8>, bytes: Seq<u8>) -> (Seq<u8>, Seq<Option<Seq<u8>>>)
    decreases bytes.len(),
{
    if bytes.len() == 0 {
        (pending, Seq::empty())
    } else {
        let (held, lines) = frame_all(pending, bytes.drop_last());
        let (next, line) = frame_step(held, bytes.last());
        (next, lines.push(line))
    }
}

/// Splits a byte stream into lines, holding the bytes of the current line.
pub struct LineFramer {
    buf: Vec<u8>,
}

impl View for LineFramer {
    type V = Seq<u8>;

    /// The bytes of the line under way.
    closed spec fn view(&self) -> Seq<u8> {
        self.buf@
    }
}

impl LineFramer {
    pub open spec fn wf(&self) -> bool {
        self@.len() < LINE_CAPACITY
    }

    pub fn new() -> (r: LineFramer)
        ensures
            r.wf(),
            r@ == Seq::<u8>::empty(),
    {
        LineFramer { buf: Vec::new() }
    }

    /// Takes one byte; returns the line that it completes, if any.
    pub fn feed(&mut self, byte: u8) -> (r: Option<Vec<u8>>)
        requires
            old(self).wf(),
        ensures
            final(self).wf(),
            final(self)@ == frame_step(old(self)@, byte).0,
            match r {
                Some(line) => frame_step(old(self)@, byte).1 == Some(line@),
                None => frame_step(old(self)@, byte).1 is None,
            },
    {
        if byte != LINE_TERMINATOR && self.buf.len() < LINE_CAPACITY - 1 {
            self.buf.push(byte);
            None
        } else {
            let mut line = Vec::new();
            std::mem::swap(&mut line, &mut self.buf);
            Some(line)
        }
    }
}

/// Framing `bytes`, none of them a terminator, onto `pending` holds them all
/// and completes nothing while they fit in the buffer.
proof fn lemma_frame_all_fits(pending: Seq<u8>, bytes: Seq<u8>)
    requires
        pending.len() + bytes.len() <= LINE_CAPACITY - 1,
        forall|i: int| 0 <= i < bytes.len() ==> #[trigger] bytes[i] != LINE_TERMINATOR,
    ensures
        frame_all(pending, bytes).0 == pending + bytes,
        frame_all(pending, bytes).1 == Seq::new(bytes.len(), |i: int| None::<Seq<u8>>),
    decreases bytes.len(),
{
    if bytes.len() > 0 {
        let front = bytes.drop_last();
        assert forall|i: int| 0 <= i < front.len() implies #[trigger] front[i] != LINE_TERMINATOR by {
            assert(front[i] == bytes[i]);
        }
        lemma_frame_all_fits(pending, front);
        assert(bytes[bytes.len() - 1] != LINE_TERMINATOR);
        assert(pending + front.push(bytes.last()) =~= pending + bytes);
        assert((pending + front).push(bytes.last()) =~= pending + bytes);
        assert(Seq::new(front.len(), |i: int| None::<Seq<u8>>).push(None) =~= Seq::new(
            bytes.len(),
            |i: int| None::<Seq<u8>>,
        ));
    } else {
        assert(pending + bytes =~= pending);
        assert(Seq::new(0, |i: int| None::<Seq<u8>>) =~= Seq::<Option<Seq<u8>>>::empty());
    }
}

/// A full buffer is a line: feeding `LINE_CAPACITY` bytes without a
/// terminator to an empty framer completes exactly one line, on the last
/// byte, holding the first `LINE_CAPACITY - 1` bytes; the last byte is
/// dropped and the framer is left empty.
pub proof fn lemma_full_buffer_completes_one_line(bytes: Seq<u8>)
    requires
        bytes.len() == LINE_CAPACITY,
        forall|i: int| 0 <= i < bytes.len() ==> #[trigger] bytes[i] != LINE_TERMINATOR,
    ensures
        frame_all(Seq::empty(), bytes).0 == Seq::<u8>::empty(),
        frame_all(Seq::empty(), bytes).1.len() == LINE_CAPACITY,
        forall|i: int|
            0 <= i < LINE_CAPACITY - 1 ==> #[trigger] frame_all(Seq::empty(), bytes).1[i] is None,
        frame_all(Seq::empty(), bytes).1[LINE_CAPACITY - 1] == Some(
            bytes.subrange(0, LINE_CAPACITY - 1),
        ),
{
    let front = bytes.drop_last();
    assert forall|i: int| 0 <= i < front.len() implies #[trigger] front[i] != LINE_TERMINATOR by {
        assert(front[i] == bytes[i]);
    }
    lemma_frame_all_fits(Seq::empty(), front);
    assert(Seq::<u8>::empty() + front =~= bytes.subrange(0, LINE_CAPACITY - 1));
}

} // verus!
