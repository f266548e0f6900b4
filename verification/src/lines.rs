//! Cutting a stream of bytes into lines. A line ends at a line feed; a
//! carriage return just before the line feed belongs to the terminator.
//! Bytes come in chunks of any size, and the lines do not depend on where
//! the chunks were cut.

use vstd::prelude::*;

verus! {

/// The line feed.
pub const LF: u8 = 10;

/// The carriage return.
pub const CR: u8 = 13;

/// The bytes after the last line feed: the beginning of a line that has
/// not ended yet.
pub open spec fn rest(bytes: Seq<u8>) -> Seq<u8>
    decreases bytes.len(),
{
    if bytes.len() == 0 {
        Seq::empty()
    } else if bytes.last() == LF {
        Seq::empty()
    } else {
        rest(bytes.drop_last()).push(bytes.last())
    }
}

/// The lines that have ended, each without its line feed.
pub open spec fn raw_lines(bytes: Seq<u8>) -> Seq<Seq<u8>>
    decreases bytes.len(),
{
    if bytes.len() == 0 {
        Seq::empty()
    } else if bytes.last() == LF {
        raw_lines(bytes.drop_last()).push(rest(bytes.drop_last()))
    } else {
        raw_lines(bytes.drop_last())
    }
}

/// A line without the carriage return at its end, if it has one.
pub open spec fn chomp(line: Seq<u8>) -> Seq<u8> {
    if line.len() > 0 && line.last() == CR {
        line.drop_last()
    } else {
        line
    }
}

/// The lines that have ended, each without its terminator.
pub open spec fn lines(bytes: Seq<u8>) -> Seq<Seq<u8>> {
    raw_lines(bytes).map_values(|line: Seq<u8>| chomp(line))
}

/// The lines, each followed by a line feed, one after the other.
pub open spec fn joined(lines: Seq<Seq<u8>>) -> Seq<u8>
    decreases lines.len(),
{
    if lines.len() == 0 {
        Seq::empty()
    } else {
        joined(lines.drop_last()) + lines.last().push(LF)
    }
}

/// The text of `bytes` read as UTF-8, where every sequence of bytes that
/// is not valid UTF-8 is replaced by U+FFFD.
pub uninterp spec fn lossy_text(bytes: Seq<u8>) -> Seq<char>;

/// The texts of the lines.
pub open spec fn decoded(lines: Seq<Seq<u8>>) -> Seq<Seq<char>> {
    lines.map_values(|line: Seq<u8>| lossy_text(line))
}

/// Reads bytes as text with `String::from_utf8_lossy`. Trusted: the text
/// is the lossy reading of exactly these bytes.
#[verifier::external_body]
fn text_of(bytes: &Vec<u8>) -> (text: String)
    ensures
        text@ == lossy_text(bytes@),
{
    String::from_utf8_lossy(bytes.as_slice()).into_owned()
}

/// The lines are the bytes cut at the line feeds, and nothing else: put
/// together again, with what is left over, they give the bytes back; no
/// line holds a line feed, nor does what is left over.
pub proof fn lines_cut_at_line_feeds(bytes: Seq<u8>)
    ensures
        joined(raw_lines(bytes)) + rest(bytes) == bytes,
        !rest(bytes).contains(LF),
        forall|i: int| 0 <= i < raw_lines(bytes).len() ==> !(#[trigger] raw_lines(bytes)[i]).contains(LF),
        rest(bytes).len() <= bytes.len(),
    decreases bytes.len(),
{
    if bytes.len() == 0 {
        assert(joined(raw_lines(bytes)) + rest(bytes) =~= bytes);
    } else {
        let front = bytes.drop_last();
        lines_cut_at_line_feeds(front);
        if bytes.last() == LF {
            let cut = raw_lines(bytes);
            assert(cut.drop_last() =~= raw_lines(front));
            assert(joined(cut) == joined(raw_lines(front)) + rest(front).push(LF));
            assert(joined(cut) + rest(bytes) =~= (joined(raw_lines(front)) + rest(front)).push(
                LF,
            ));
            assert(bytes =~= front.push(LF));
        } else {
            assert(joined(raw_lines(bytes)) + rest(bytes) =~= (joined(raw_lines(front)) + rest(
                front,
            )).push(bytes.last()));
            assert(bytes =~= front.push(bytes.last()));
            assert(!rest(bytes).contains(LF)) by {
                if rest(bytes).contains(LF) {
                    let at = choose|at: int| 0 <= at < rest(bytes).len() && rest(bytes)[at] == LF;
                    if at < rest(front).len() {
                        assert(rest(front)[at] == LF);
                    }
                }
            }
        }
    }
}

/// Bytes without a line feed hold no line that has ended.
proof fn lemma_no_line_yet(bytes: Seq<u8>)
    requires
        !bytes.contains(LF),
    ensures
        raw_lines(bytes) == Seq::<Seq<u8>>::empty(),
        rest(bytes) == bytes,
    decreases bytes.len(),
{
    if bytes.len() > 0 {
        let front = bytes.drop_last();
        assert(bytes[bytes.len() - 1] != LF);
        assert(!front.contains(LF)) by {
            if front.contains(LF) {
                let at = choose|at: int| 0 <= at < front.len() && front[at] == LF;
                assert(bytes[at] == LF);
            }
        }
        lemma_no_line_yet(front);
        assert(rest(bytes) =~= bytes);
    } else {
        assert(rest(bytes) =~= bytes);
    }
}

/// The lines do not depend on how the bytes were cut into chunks: the
/// lines of two chunks are the lines of the first, and then the lines of
/// what the first left over followed by the second.
pub proof fn lines_ignore_chunking(first: Seq<u8>, second: Seq<u8>)
    ensures
        raw_lines(first + second) == raw_lines(first) + raw_lines(rest(first) + second),
        lines(first + second) == lines(first) + lines(rest(first) + second),
        rest(first + second) == rest(rest(first) + second),
    decreases second.len(),
{
    let whole = first + second;
    let tail = rest(first) + second;
    if second.len() == 0 {
        assert(whole =~= first);
        assert(tail =~= rest(first));
        lines_cut_at_line_feeds(first);
        lemma_no_line_yet(rest(first));
        assert(raw_lines(whole) =~= raw_lines(first) + raw_lines(tail));
    } else {
        let shorter = second.drop_last();
        lines_ignore_chunking(first, shorter);
        assert(whole.drop_last() =~= first + shorter);
        assert(tail.drop_last() =~= rest(first) + shorter);
        assert(whole.last() == second.last());
        assert(tail.last() == second.last());
        assert(raw_lines(whole) =~= raw_lines(first) + raw_lines(tail));
    }
    assert(lines(whole) =~= lines(first) + lines(tail));
}

/// The state of reading one stream by lines: the bytes of the line that
/// has not ended yet.
#[derive(Debug)]
pub struct LineReader {
    partial: Vec<u8>,
}

impl LineReader {
    /// What holds of every reader: it keeps no line that has ended.
    pub closed spec fn wf(&self) -> bool {
        !self.partial@.contains(LF)
    }

    /// The bytes read since the last line ended.
    pub closed spec fn pending(&self) -> Seq<u8> {
        self.partial@
    }

    /// A reader that has read nothing.
    pub fn new() -> (r: Self)
        ensures
            r.wf(),
            r.pending() == Seq::<u8>::empty(),
    {
        LineReader { partial: Vec::new() }
    }

    /// Reads one more chunk, and answers the lines that end in it, in
    /// order: each is the text between two line feeds, without a carriage
    /// return at its end, read as UTF-8 with replacement of what is not.
    /// What follows the last line feed is kept for the next chunk.
    pub fn feed(&mut self, chunk: &[u8]) -> (r: Vec<String>)
        requires
            old(self).wf(),
        ensures
            final(self).wf(),
            crate::tasks::texts(r@) == decoded(lines(old(self).pending() + chunk@)),
            final(self).pending() == rest(old(self).pending() + chunk@),
    {
        proof {
            lemma_no_line_yet(self.partial@);
        }
        let ghost before = self.partial@;
        let mut found: Vec<String> = Vec::new();
        let mut i: usize = 0;
        assert(before + chunk@.take(0) =~= before);
        assert(crate::tasks::texts(found@) =~= decoded(lines(before)));
        while i < chunk.len()
            invariant
                i <= chunk.len(),
                before == old(self).pending(),
                !self.partial@.contains(LF),
                self.partial@ == rest(before + chunk@.take(i as int)),
                crate::tasks::texts(found@) == decoded(lines(before + chunk@.take(i as int))),
            decreases chunk.len() - i,
        {
            let byte = chunk[i];
            proof {
                let seen = before + chunk@.take(i as int);
                let next = before + chunk@.take(i as int + 1);
                assert(next.drop_last() =~= seen);
                assert(next.last() == byte);
            }
            if byte == LF {
                let ghost raw = self.partial@;
                let length = self.partial.len();
                if length > 0 && self.partial[length - 1] == CR {
                    self.partial.pop();
                }
                assert(self.partial@ =~= chomp(raw));
                let text = text_of(&self.partial);
                let ghost so_far = found@;
                found.push(text);
                self.partial.clear();
                proof {
                    let seen = before + chunk@.take(i as int);
                    let next = before + chunk@.take(i as int + 1);
                    assert(raw_lines(next) == raw_lines(seen).push(raw));
                    assert(lines(next) =~= lines(seen).push(chomp(raw)));
                    assert(decoded(lines(next)) =~= decoded(lines(seen)).push(
                        lossy_text(chomp(raw)),
                    ));
                    assert(crate::tasks::texts(found@) =~= crate::tasks::texts(so_far).push(text@));
                }
            } else {
                let ghost raw = self.partial@;
                self.partial.push(byte);
                assert(!self.partial@.contains(LF)) by {
                    if self.partial@.contains(LF) {
                        let at = choose|at: int|
                            0 <= at < self.partial@.len() && self.partial@[at] == LF;
                        if at < raw.len() {
                            assert(raw[at] == LF);
                        }
                    }
                }
            }
            i = i + 1;
        }
        assert(chunk@.take(i as int) =~= chunk@);
        found
    }

    /// Ends the stream, and answers what was read after the last line
    /// feed as one more line, if there was anything; a carriage return at
    /// its end stays. The reader is then as new.
    pub fn finish(&mut self) -> (r: Option<String>)
        ensures
            final(self).wf(),
            final(self).pending() == Seq::<u8>::empty(),
            old(self).pending().len() == 0 ==> r is None,
            old(self).pending().len() > 0 ==> r is Some && r->0@ == lossy_text(
                old(self).pending(),
            ),
    {
        if self.partial.len() == 0 {
            return None;
        }
        let text = text_of(&self.partial);
        self.partial.clear();
        Some(text)
    }
}

} // verus!
