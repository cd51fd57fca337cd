use vstd::prelude::*;
use vstd::utf8::{valid_utf8, decode_utf8};
use crate::line::{Origin, OutputLine};

verus! {

/// The byte that ends a line.
pub const NEWLINE: u8 = 10;

/// A carriage return, dropped when it stands just before a newline.
pub const CARRIAGE_RETURN: u8 = 13;

/// The complete lines of a byte stream, each without its newline, in the order written.
pub open spec fn lines_of(s: Seq<u8>) -> Seq<Seq<u8>>
    decreases s.len(),
{
    if s.len() == 0 {
        seq![]
    } else if s.last() == NEWLINE {
        lines_of(s.drop_last()).push(tail_of(s.drop_last()))
    } else {
        lines_of(s.drop_last())
    }
}

/// The bytes after the last newline of a stream: a line not yet complete.
pub open spec fn tail_of(s: Seq<u8>) -> Seq<u8>
    decreases s.len(),
{
    if s.len() == 0 {
        seq![]
    } else if s.last() == NEWLINE {
        seq![]
    } else {
        tail_of(s.drop_last()).push(s.last())
    }
}

pub open spec fn has_no_newline(s: Seq<u8>) -> bool {
    forall|i: int| 0 <= i < s.len() ==> s[i] != NEWLINE
}

/// A raw line without the carriage return of a CRLF ending.
pub open spec fn strip_cr(raw: Seq<u8>) -> Seq<u8> {
    if raw.len() > 0 && raw.last() == CARRIAGE_RETURN {
        raw.drop_last()
    } else {
        raw
    }
}

/// The text of a raw line, or `None` where its bytes are not UTF-8 (such a line is skipped).
pub open spec fn line_text(raw: Seq<u8>) -> Option<Seq<char>> {
    let b = strip_cr(raw);
    if valid_utf8(b) {
        Some(decode_utf8(b))
    } else {
        None
    }
}

/// The texts of the lines that are forwarded, malformed lines left out, order kept.
pub open spec fn texts_of(lines: Seq<Seq<u8>>) -> Seq<Seq<char>>
    decreases lines.len(),
{
    if lines.len() == 0 {
        seq![]
    } else {
        let rest = texts_of(lines.drop_last());
        match line_text(lines.last()) {
            Some(t) => rest.push(t),
            None => rest,
        }
    }
}

/// The contents of a sequence of forwarded lines.
pub open spec fn contents(out: Seq<OutputLine>) -> Seq<Seq<char>> {
    out.map_values(|l: OutputLine| l.content@)
}

/// Relies on `std::str::from_utf8`: it accepts exactly the valid UTF-8 byte sequences
/// and decodes them.
#[verifier::external_body]
fn utf8_text(bytes: &[u8]) -> (r: Option<String>)
    ensures
        r is Some <==> valid_utf8(bytes@),
        r is Some ==> r->0@ == decode_utf8(bytes@),
{
    std::str::from_utf8(bytes).ok().map(|s| s.to_string())
}

/// Decodes one raw line into its text, dropping a trailing carriage return.
pub fn decode_line(raw: Vec<u8>) -> (r: Option<String>)
    ensures
        match r {
            Some(s) => line_text(raw@) == Some(s@),
            None => line_text(raw@) is None,
        },
{
    let ghost given = raw@;
    let mut raw = raw;
    let n = raw.len();
    if n > 0 && raw[n - 1] == CARRIAGE_RETURN {
        raw.pop();
    }
    assert(raw@ =~= strip_cr(given));
    utf8_text(raw.as_slice())
}


proof fn lemma_no_newline_tail(s: Seq<u8>)
    requires
        has_no_newline(s),
    ensures
        lines_of(s) == Seq::<Seq<u8>>::empty(),
        tail_of(s) == s,
    decreases s.len(),
{
    if s.len() > 0 {
        lemma_no_newline_tail(s.drop_last());
        assert(s.drop_last().push(s.last()) =~= s);
    }
}

proof fn lemma_tail_has_no_newline(s: Seq<u8>)
    ensures
        has_no_newline(tail_of(s)),
    decreases s.len(),
{
    if s.len() > 0 {
        lemma_tail_has_no_newline(s.drop_last());
    }
}

/// Appending one byte to a stream: how its lines and its tail change.
proof fn lemma_push_byte(s: Seq<u8>, b: u8)
    ensures
        b == NEWLINE ==> lines_of(s.push(b)) == lines_of(s).push(tail_of(s)),
        b == NEWLINE ==> tail_of(s.push(b)) == Seq::<u8>::empty(),
        b != NEWLINE ==> lines_of(s.push(b)) == lines_of(s),
        b != NEWLINE ==> tail_of(s.push(b)) == tail_of(s).push(b),
{
    assert(s.push(b).drop_last() =~= s);
}

proof fn lemma_texts_push(lines: Seq<Seq<u8>>, l: Seq<u8>)
    ensures
        texts_of(lines.push(l)) == match line_text(l) {
            Some(t) => texts_of(lines).push(t),
            None => texts_of(lines),
        },
{
    assert(lines.push(l).drop_last() =~= lines);
}

/// The lines of a stream split in two: those of the first part, then those that the
/// unfinished tail of the first part completes in the second.
pub proof fn lemma_lines_concat(a: Seq<u8>, b: Seq<u8>)
    ensures
        lines_of(a + b) == lines_of(a) + lines_of(tail_of(a) + b),
        tail_of(a + b) == tail_of(tail_of(a) + b),
    decreases b.len(),
{
    let t = tail_of(a);
    lemma_tail_has_no_newline(a);
    if b.len() == 0 {
        assert(a + b =~= a);
        assert(t + b =~= t);
        lemma_no_newline_tail(t);
        assert(lines_of(a) + lines_of(t) =~= lines_of(a));
    } else {
        let b0 = b.drop_last();
        let x = b.last();
        lemma_lines_concat(a, b0);
        assert(a + b =~= (a + b0).push(x));
        assert(t + b =~= (t + b0).push(x));
        lemma_push_byte(a + b0, x);
        lemma_push_byte(t + b0, x);
        if x == NEWLINE {
            assert((lines_of(a) + lines_of(t + b0)).push(tail_of(t + b0)) =~= lines_of(a) + lines_of(
                t + b0,
            ).push(tail_of(t + b0)));
        }
    }
}

/// The texts of two runs of lines, one after the other.
pub proof fn lemma_texts_concat(x: Seq<Seq<u8>>, y: Seq<Seq<u8>>)
    ensures
        texts_of(x + y) == texts_of(x) + texts_of(y),
    decreases y.len(),
{
    if y.len() == 0 {
        assert(x + y =~= x);
        assert(texts_of(x) + texts_of(y) =~= texts_of(x));
    } else {
        let y0 = y.drop_last();
        lemma_texts_concat(x, y0);
        assert(x + y =~= (x + y0).push(y.last()));
        assert(y0.push(y.last()) =~= y);
        lemma_texts_push(x + y0, y.last());
        lemma_texts_push(y0, y.last());
        match line_text(y.last()) {
            Some(t) => {
                assert((texts_of(x) + texts_of(y0)).push(t) =~= texts_of(x) + texts_of(y0).push(t));
            },
            None => {},
        }
    }
}

/// The bytes of a stream on which the given lines were written, each followed by a newline.
pub open spec fn written(ls: Seq<Seq<u8>>) -> Seq<u8>
    decreases ls.len(),
{
    if ls.len() == 0 {
        seq![]
    } else {
        written(ls.drop_last()) + ls.last().push(NEWLINE)
    }
}

/// Lines written to a stream, none holding a newline, are read back as the same lines in
/// the same order, with nothing left over: a line written before another is forwarded
/// before it.
pub proof fn lemma_written_lines_read_back(ls: Seq<Seq<u8>>)
    requires
        forall|i: int| 0 <= i < ls.len() ==> has_no_newline(#[trigger] ls[i]),
    ensures
        lines_of(written(ls)) == ls,
        tail_of(written(ls)) == Seq::<u8>::empty(),
    decreases ls.len(),
{
    if ls.len() > 0 {
        let rest = ls.drop_last();
        let l = ls.last();
        lemma_written_lines_read_back(rest);
        lemma_lines_concat(written(rest), l.push(NEWLINE));
        assert(Seq::<u8>::empty() + l.push(NEWLINE) =~= l.push(NEWLINE));
        assert(has_no_newline(l)) by {
            assert(ls[ls.len() - 1] == l);
        }
        lemma_no_newline_tail(l);
        lemma_push_byte(l, NEWLINE);
        assert(rest + seq![l] =~= ls);
        assert(Seq::<Seq<u8>>::empty().push(l) =~= seq![l]);
    }
}

/// A line whose text is forwarded as it stands: no newline in it, UTF-8, and no carriage
/// return at its end (one there is taken for part of a CRLF ending and dropped).
pub open spec fn plain_line(l: Seq<u8>) -> bool {
    &&& has_no_newline(l)
    &&& valid_utf8(l)
    &&& !(l.len() > 0 && l.last() == CARRIAGE_RETURN)
}

proof fn lemma_texts_of_plain(ls: Seq<Seq<u8>>)
    requires
        forall|i: int| 0 <= i < ls.len() ==> plain_line(#[trigger] ls[i]),
    ensures
        texts_of(ls) == ls.map_values(|l: Seq<u8>| decode_utf8(l)),
    decreases ls.len(),
{
    if ls.len() > 0 {
        let rest = ls.drop_last();
        lemma_texts_of_plain(rest);
        assert(plain_line(ls[ls.len() - 1]));
        assert(strip_cr(ls.last()) == ls.last());
        assert(rest.push(ls.last()) =~= ls);
        lemma_texts_push(rest, ls.last());
        assert(rest.map_values(|l: Seq<u8>| decode_utf8(l)).push(decode_utf8(ls.last()))
            =~= ls.map_values(|l: Seq<u8>| decode_utf8(l)));
    }
}

/// Plain lines written to a stream are forwarded as their texts, each once and in the order
/// written, with nothing left over.
pub proof fn lemma_written_texts_read_back(ls: Seq<Seq<u8>>)
    requires
        forall|i: int| 0 <= i < ls.len() ==> plain_line(#[trigger] ls[i]),
    ensures
        texts_of(lines_of(written(ls))) == ls.map_values(|l: Seq<u8>| decode_utf8(l)),
        tail_of(written(ls)) == Seq::<u8>::empty(),
{
    assert forall|i: int| 0 <= i < ls.len() implies has_no_newline(#[trigger] ls[i]) by {
        assert(plain_line(ls[i]));
    }
    lemma_written_lines_read_back(ls);
    lemma_texts_of_plain(ls);
}

/// Feeding a stream to a reader in two pieces forwards the same lines, in the same order,
/// and leaves the same unfinished line, as feeding both pieces at once.
pub proof fn lemma_feed_in_pieces(p: Seq<u8>, a: Seq<u8>, b: Seq<u8>)
    ensures
        texts_of(lines_of(p + a)) + texts_of(lines_of(tail_of(p + a) + b)) == texts_of(
            lines_of(p + a + b),
        ),
        tail_of(tail_of(p + a) + b) == tail_of(p + a + b),
{
    lemma_lines_concat(p + a, b);
    lemma_texts_concat(lines_of(p + a), lines_of(tail_of(p + a) + b));
}

/// Splits one of the child's output streams into lines as its bytes arrive.
///
/// `pending` holds the bytes of the line not yet complete; `next_ordinal` numbers the
/// next line forwarded.
pub struct StreamReader {
    origin: Origin,
    pending: Vec<u8>,
    next_ordinal: u64,
}

impl StreamReader {
    pub closed spec fn spec_origin(&self) -> Origin {
        self.origin
    }

    pub closed spec fn spec_pending(&self) -> Seq<u8> {
        self.pending@
    }

    pub closed spec fn spec_next_ordinal(&self) -> u64 {
        self.next_ordinal
    }

    /// The unfinished line holds no newline, and the reader is for one of the child's
    /// output streams: what it forwards is never a lifecycle event.
    pub open spec fn well_formed(&self) -> bool {
        &&& has_no_newline(self.spec_pending())
        &&& self.spec_origin() != Origin::Lifecycle
    }

    /// A reader for the stream of the given origin, with nothing read yet.
    pub fn new(origin: Origin) -> (r: StreamReader)
        requires
            origin != Origin::Lifecycle,
        ensures
            r.well_formed(),
            r.spec_origin() == origin,
            r.spec_pending() == Seq::<u8>::empty(),
            r.spec_next_ordinal() == 0,
    {
        StreamReader { origin, pending: Vec::new(), next_ordinal: 0 }
    }

    pub fn origin(&self) -> (r: Origin)
        ensures
            r == self.spec_origin(),
    {
        self.origin
    }

    pub fn next_ordinal(&self) -> (r: u64)
        ensures
            r == self.spec_next_ordinal(),
    {
        self.next_ordinal
    }

    /// Takes the next bytes read from the stream and returns the lines they complete, in
    /// order, tagged with this reader's origin and numbered one after another. Lines that
    /// are not UTF-8 are skipped.
    pub fn feed(&mut self, chunk: &[u8]) -> (r: Vec<OutputLine>)
        requires
            old(self).well_formed(),
            old(self).spec_next_ordinal() + chunk@.len() <= u64::MAX,
        ensures
            final(self).well_formed(),
            final(self).spec_origin() == old(self).spec_origin(),
            final(self).spec_pending() == tail_of(old(self).spec_pending() + chunk@),
            contents(r@) == texts_of(lines_of(old(self).spec_pending() + chunk@)),
            final(self).spec_next_ordinal() == old(self).spec_next_ordinal() + r@.len(),
            forall|i: int|
                0 <= i < r@.len() ==> (#[trigger] r@[i]).origin == old(self).spec_origin()
                    && r@[i].ordinal == old(self).spec_next_ordinal() + i,
    {
        let ghost start = self.pending@;
        let ghost first = self.next_ordinal;
        proof {
            lemma_no_newline_tail(start);
            assert(start + chunk@.subrange(0, 0) =~= start);
        }
        let mut out: Vec<OutputLine> = Vec::new();
        let mut i: usize = 0;
        while i < chunk.len()
            invariant
                0 <= i <= chunk@.len(),
                first + chunk@.len() <= u64::MAX,
                self.origin == old(self).origin,
                has_no_newline(self.pending@),
                self.pending@ == tail_of(start + chunk@.subrange(0, i as int)),
                contents(out@) == texts_of(lines_of(start + chunk@.subrange(0, i as int))),
                out@.len() <= i,
                self.next_ordinal == first + out@.len(),
                forall|k: int|
                    0 <= k < out@.len() ==> (#[trigger] out@[k]).origin == self.origin
                        && out@[k].ordinal == first + k,
            decreases chunk@.len() - i,
        {
            let b = chunk[i];
            let ghost seen = start + chunk@.subrange(0, i as int);
            proof {
                assert(start + chunk@.subrange(0, i + 1) =~= seen.push(b));
                lemma_push_byte(seen, b);
                lemma_texts_push(lines_of(seen), tail_of(seen));
            }
            if b == NEWLINE {
                let mut raw: Vec<u8> = Vec::new();
                std::mem::swap(&mut raw, &mut self.pending);
                match decode_line(raw) {
                    Some(text) => {
                        let ghost before = out@;
                        out.push(OutputLine::new(self.origin, self.next_ordinal, text));
                        self.next_ordinal = self.next_ordinal + 1;
                        assert(contents(out@) =~= contents(before).push(text@));
                    },
                    None => {},
                }
            } else {
                self.pending.push(b);
            }
            i = i + 1;
        }
        assert(start + chunk@.subrange(0, i as int) =~= start + chunk@);
        out
    }

    /// Ends the stream: the bytes after the last newline form a last line, forwarded
    /// when there are any and they are UTF-8.
    pub fn finish(self) -> (r: Option<OutputLine>)
        ensures
            match r {
                Some(l) => {
                    &&& self.spec_pending().len() > 0
                    &&& line_text(self.spec_pending()) == Some(l.content@)
                    &&& l.origin == self.spec_origin()
                    &&& l.ordinal == self.spec_next_ordinal()
                },
                None => self.spec_pending().len() == 0 || line_text(self.spec_pending()) is None,
            },
    {
        if self.pending.len() == 0 {
            return None;
        }
        match decode_line(self.pending) {
            Some(text) => Some(OutputLine::new(self.origin, self.next_ordinal, text)),
            None => None,
        }
    }
}

} // verus!
