//! The bytes of a formatted stream that arrives in chunks while it is being
//! decoded (an upload), and a cursor that reads and seeks in them.
use vstd::prelude::*;

verus! {

/// The chunks laid end to end.
pub open spec fn flat(chunks: Seq<Seq<u8>>) -> Seq<u8>
    decreases chunks.len(),
{
    if chunks.len() == 0 {
        Seq::empty()
    } else {
        flat(chunks.drop_last()) + chunks.last()
    }
}

/// Where chunk `i` starts.
pub open spec fn chunk_start(chunks: Seq<Seq<u8>>, i: int) -> nat {
    flat(chunks.subrange(0, i)).len()
}

proof fn lemma_flat_step(chunks: Seq<Seq<u8>>, i: int)
    requires
        0 <= i < chunks.len(),
    ensures
        flat(chunks.subrange(0, i + 1)) == flat(chunks.subrange(0, i)) + chunks[i],
{
    assert(chunks.subrange(0, i + 1).drop_last() =~= chunks.subrange(0, i));
}

proof fn lemma_flat_prefix(chunks: Seq<Seq<u8>>, i: int)
    requires
        0 <= i <= chunks.len(),
    ensures
        flat(chunks.subrange(0, i)).len() <= flat(chunks).len(),
        flat(chunks) == flat(chunks.subrange(0, i)) + flat(chunks).subrange(
            flat(chunks.subrange(0, i)).len() as int,
            flat(chunks).len() as int,
        ),
    decreases chunks.len(),
{
    if i == chunks.len() {
        assert(chunks.subrange(0, i) =~= chunks);
        assert(flat(chunks) =~= flat(chunks) + flat(chunks).subrange(
            flat(chunks).len() as int,
            flat(chunks).len() as int,
        ));
    } else {
        let init = chunks.drop_last();
        assert(chunks.subrange(0, i) =~= init.subrange(0, i));
        lemma_flat_prefix(init, i);
        assert(flat(chunks) =~= flat(chunks.subrange(0, i)) + flat(chunks).subrange(
            flat(chunks.subrange(0, i)).len() as int,
            flat(chunks).len() as int,
        ));
    }
}

/// Byte `off` of chunk `i` is byte `chunk_start(i) + off` of the stream.
proof fn lemma_flat_index(chunks: Seq<Seq<u8>>, i: int, off: int)
    requires
        0 <= i < chunks.len(),
        0 <= off < chunks[i].len(),
    ensures
        chunk_start(chunks, i) + off < flat(chunks).len(),
        flat(chunks)[chunk_start(chunks, i) + off] == chunks[i][off],
{
    lemma_flat_step(chunks, i);
    lemma_flat_prefix(chunks, i + 1);
    let pre = flat(chunks.subrange(0, i + 1));
    assert(pre[chunk_start(chunks, i) + off] == chunks[i][off]);
    assert(flat(chunks)[chunk_start(chunks, i) + off] == pre[chunk_start(chunks, i) + off]);
}

/// The chunks received so far, their total size and whether the stream is
/// complete. No chunk is empty.
pub struct DataContainer {
    eof: bool,
    size: u64,
    bufs: Vec<Vec<u8>>,
}

impl DataContainer {
    pub closed spec fn chunks(&self) -> Seq<Seq<u8>> {
        self.bufs@.map_values(|b: Vec<u8>| b@)
    }

    pub closed spec fn is_eof(&self) -> bool {
        self.eof
    }

    /// The stream's bytes received so far.
    pub open spec fn bytes(&self) -> Seq<u8> {
        flat(self.chunks())
    }

    pub closed spec fn wf(&self) -> bool {
        &&& self.size as nat == flat(self.chunks()).len()
        &&& forall|i: int| 0 <= i < self.chunks().len() ==> (#[trigger] self.chunks()[i]).len() > 0
    }

    pub fn new() -> (r: Self)
        ensures
            r.wf(),
            r.bytes().len() == 0,
            r.chunks().len() == 0,
            !r.is_eof(),
    {
        let r = DataContainer { eof: false, size: 0, bufs: Vec::new() };
        proof {
            assert(r.chunks() =~= Seq::<Seq<u8>>::empty());
        }
        r
    }

    /// Appends a received chunk; an empty one changes nothing.
    pub fn add_buf(&mut self, buf: Vec<u8>)
        requires
            old(self).wf(),
            !old(self).is_eof(),
            old(self).bytes().len() + buf@.len() <= u64::MAX,
        ensures
            final(self).wf(),
            !final(self).is_eof(),
            final(self).bytes() == old(self).bytes() + buf@,
            buf@.len() > 0 ==> final(self).chunks() == old(self).chunks().push(buf@),
            buf@.len() == 0 ==> final(self).chunks() == old(self).chunks(),
    {
        if buf.len() == 0 {
            proof {
                assert(old(self).bytes() + buf@ =~= old(self).bytes());
            }
            return ;
        }
        let ghost b = buf@;
        self.size = self.size + buf.len() as u64;
        self.bufs.push(buf);
        proof {
            assert(self.chunks() =~= old(self).chunks().push(b));
            assert(self.chunks().drop_last() =~= old(self).chunks());
        }
    }

    /// Marks the stream complete.
    pub fn set_eof(&mut self)
        requires
            old(self).wf(),
        ensures
            final(self).wf(),
            final(self).is_eof(),
            final(self).chunks() == old(self).chunks(),
    {
        self.eof = true;
    }

    pub fn size(&self) -> (r: u64)
        requires
            self.wf(),
        ensures
            r == self.bytes().len(),
    {
        self.size
    }

    pub fn eof(&self) -> (r: bool)
        ensures
            r == self.is_eof(),
    {
        self.eof
    }

    /// The length of the stream, known once it is complete.
    pub fn byte_len(&self) -> (r: Option<u64>)
        requires
            self.wf(),
        ensures
            r == if self.is_eof() {
                Some(self.bytes().len() as u64)
            } else {
                None
            },
    {
        if self.eof {
            Some(self.size)
        } else {
            None
        }
    }

    pub fn chunk_count(&self) -> (r: usize)
        ensures
            r == self.chunks().len(),
    {
        self.bufs.len()
    }

    /// The chunk and offset of byte `pos`; the end of the stream is
    /// `(chunk count, 0)`. `None` past the end.
    pub fn locate(&self, pos: u64) -> (r: Option<(usize, usize)>)
        requires
            self.wf(),
        ensures
            pos > self.bytes().len() <==> r is None,
            r matches Some((i, off)) ==> {
                &&& i <= self.chunks().len()
                &&& chunk_start(self.chunks(), i as int) + off == pos
                &&& i < self.chunks().len() ==> off < self.chunks()[i as int].len()
                &&& i == self.chunks().len() ==> off == 0
            },
    {
        let ghost ch = self.chunks();
        let n = self.bufs.len();
        let mut acc: u64 = 0;
        let mut i: usize = 0;
        while i < n
            invariant
                i <= n,
                n == ch.len(),
                ch == self.chunks(),
                self.wf(),
                acc as nat == chunk_start(ch, i as int),
                acc <= pos,
            decreases n - i,
        {
            proof {
                lemma_flat_step(ch, i as int);
                lemma_flat_prefix(ch, i + 1);
                assert(ch[i as int] == self.bufs@[i as int]@);
            }
            let len = self.bufs[i].len() as u64;
            if pos - acc < len {
                return Some((i, (pos - acc) as usize));
            }
            acc = acc + len;
            i += 1;
        }
        proof {
            assert(ch.subrange(0, n as int) =~= ch);
        }
        if acc == pos {
            Some((n, 0))
        } else {
            None
        }
    }

    /// Up to `max` bytes of chunk `i` from offset `off`, to the chunk's end
    /// at most.
    pub fn read_chunk(&self, i: usize, off: usize, max: usize) -> (r: Vec<u8>)
        requires
            self.wf(),
            i < self.chunks().len(),
            off <= self.chunks()[i as int].len(),
        ensures
            r@ == self.chunks()[i as int].subrange(
                off as int,
                off + if max < self.chunks()[i as int].len() - off {
                    max as int
                } else {
                    self.chunks()[i as int].len() - off
                },
            ),
    {
        let buf = &self.bufs[i];
        proof {
            assert(self.chunks()[i as int] == buf@);
        }
        let blen = buf.len();
        let avail = blen - off;
        let k = if max < avail {
            max
        } else {
            avail
        };
        let mut out: Vec<u8> = Vec::new();
        let mut j: usize = 0;
        while j < k
            invariant
                j <= k,
                off + k <= buf@.len(),
                buf@.len() == blen,
                out@ == buf@.subrange(off as int, off + j),
            decreases k - j,
        {
            out.push(buf[off + j]);
            j += 1;
            proof {
                assert(out@ =~= buf@.subrange(off as int, off + j));
            }
        }
        out
    }
}

/// A read position in a `DataContainer`: the byte offset, and the chunk and
/// offset within it that the position falls on.
pub struct DynCursor {
    current_pos: u64,
    idx: usize,
    buf_idx: usize,
}

impl DynCursor {
    pub closed spec fn pos(&self) -> u64 {
        self.current_pos
    }

    /// The cursor points into `c` (or at its end).
    pub closed spec fn within(&self, c: DataContainer) -> bool {
        &&& self.idx <= c.chunks().len()
        &&& chunk_start(c.chunks(), self.idx as int) + self.buf_idx == self.current_pos
        &&& self.idx < c.chunks().len() ==> self.buf_idx < c.chunks()[self.idx as int].len()
        &&& self.idx == c.chunks().len() ==> self.buf_idx == 0
    }

    pub fn new() -> (r: Self)
        ensures
            r.pos() == 0,
            forall|c: DataContainer| c.chunks().len() == 0 ==> r.within(c),
    {
        let r = DynCursor { current_pos: 0, idx: 0, buf_idx: 0 };
        proof {
            assert forall|c: DataContainer| c.chunks().len() == 0 implies r.within(c) by {
                assert(c.chunks().subrange(0, 0) =~= Seq::<Seq<u8>>::empty());
            }
        }
        r
    }

    pub fn position(&self) -> (r: u64)
        ensures
            r == self.pos(),
    {
        self.current_pos
    }

    /// A cursor stays valid as chunks arrive.
    pub proof fn lemma_within_grows(&self, c: DataContainer, d: DataContainer, b: Seq<u8>)
        requires
            self.within(c),
            c.wf(),
            d.chunks() == c.chunks().push(b),
            b.len() > 0,
        ensures
            self.within(d),
    {
        assert(d.chunks().subrange(0, self.idx as int) =~= c.chunks().subrange(0, self.idx as int));
        if self.idx == c.chunks().len() {
            assert(d.chunks()[self.idx as int] == b);
        } else {
            assert(d.chunks()[self.idx as int] == c.chunks()[self.idx as int]);
        }
    }

    /// Reads up to `max` bytes, never past the chunk the cursor is in.
    /// `None` when the cursor is at the end of what was received.
    pub fn read(&mut self, c: &DataContainer, max: usize) -> (r: Option<Vec<u8>>)
        requires
            c.wf(),
            old(self).within(*c),
        ensures
            final(self).within(*c),
            old(self).pos() == c.bytes().len() <==> r is None,
            r is None ==> *final(self) == *old(self),
            r matches Some(v) ==> {
                &&& final(self).pos() == old(self).pos() + v@.len()
                &&& v@.len() <= max
                &&& (max > 0 ==> v@.len() > 0)
                &&& v@ == c.bytes().subrange(old(self).pos() as int, final(self).pos() as int)
            },
    {
        let n = c.chunk_count();
        proof {
            lemma_flat_prefix(c.chunks(), self.idx as int);
            if self.idx < n {
                lemma_flat_index(c.chunks(), self.idx as int, self.buf_idx as int);
            } else {
                assert(c.chunks().subrange(0, n as int) =~= c.chunks());
            }
        }
        if self.idx == n {
            return None;
        }
        let ghost ch = c.chunks();
        let ghost start = chunk_start(ch, self.idx as int);
        let clen = c.bufs[self.idx].len();
        proof {
            assert(ch[self.idx as int] == c.bufs@[self.idx as int]@);
        }
        let v = c.read_chunk(self.idx, self.buf_idx, max);
        let k = v.len();
        proof {
            lemma_flat_step(ch, self.idx as int);
            lemma_flat_prefix(ch, self.idx + 1);
            assert forall|j: int| 0 <= j < k implies v@[j] == c.bytes()[self.current_pos + j] by {
                lemma_flat_index(ch, self.idx as int, self.buf_idx + j);
            }
            assert(v@ =~= c.bytes().subrange(self.current_pos as int, self.current_pos + k));
        }
        self.current_pos = self.current_pos + k as u64;
        self.buf_idx = self.buf_idx + k;
        if self.buf_idx == c.bufs[self.idx].len() {
            proof {
                assert(ch[self.idx as int] == c.bufs@[self.idx as int]@);
            }
            self.idx = self.idx + 1;
            self.buf_idx = 0;
        }
        proof {
            assert(ch[old(self).idx as int] == c.bufs@[old(self).idx as int]@);
        }
        Some(v)
    }

    /// Moves to byte `start`, which must be a byte received; `None`, and no
    /// move, at or past the end of what was received.
    pub fn seek_from_start(&mut self, c: &DataContainer, start: u64) -> (r: Option<u64>)
        requires
            c.wf(),
            old(self).within(*c),
        ensures
            final(self).within(*c),
            start < c.bytes().len() ==> r == Some(start) && final(self).pos() == start,
            start >= c.bytes().len() ==> r is None && *final(self) == *old(self),
    {
        if start >= c.size() {
            return None;
        }
        match c.locate(start) {
            Some((i, off)) => {
                self.idx = i;
                self.buf_idx = off;
                self.current_pos = start;
                Some(start)
            },
            None => None,
        }
    }

    /// Moves to `offset` bytes before the end of what was received; `None`,
    /// and no move, when that is not a byte received (`offset` is zero or
    /// passes the start).
    pub fn seek_from_end(&mut self, c: &DataContainer, offset: u64) -> (r: Option<u64>)
        requires
            c.wf(),
            old(self).within(*c),
        ensures
            final(self).within(*c),
            (offset == 0 || offset > c.bytes().len()) ==> r is None && *final(self) == *old(self),
            (0 < offset <= c.bytes().len()) ==> r == Some((c.bytes().len() - offset) as u64)
                && final(self).pos() == c.bytes().len() - offset,
    {
        let size = c.size();
        if size < offset {
            return None;
        }
        self.seek_from_start(c, size - offset)
    }
}

} // verus!
