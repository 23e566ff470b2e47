use vstd::prelude::*;
use vstd::slice::slice_to_vec;

verus! {

/// A span of one buffer: `len` bytes of buffer `buf` starting at `start`.
#[derive(Clone, Copy, Debug, PartialEq, Eq, Structural)]
pub struct Piece {
    pub buf: usize,
    pub start: usize,
    pub len: usize,
}

/// The bytes that a piece stands for.
pub open spec fn piece_bytes(bufs: Seq<Seq<u8>>, p: Piece) -> Seq<u8> {
    bufs[p.buf as int].subrange(p.start as int, p.start + p.len)
}

/// A piece lies inside an existing buffer.
pub open spec fn piece_ok(bufs: Seq<Seq<u8>>, p: Piece) -> bool {
    p.buf < bufs.len() && p.start + p.len <= bufs[p.buf as int].len()
}

pub open spec fn pieces_ok(bufs: Seq<Seq<u8>>, ps: Seq<Piece>) -> bool {
    forall|i: int| 0 <= i < ps.len() ==> #[trigger] piece_ok(bufs, ps[i])
}

/// The logical bytes of a sequence of pieces, read in order.
pub open spec fn content(bufs: Seq<Seq<u8>>, ps: Seq<Piece>) -> Seq<u8>
    decreases ps.len(),
{
    if ps.len() == 0 {
        Seq::empty()
    } else {
        content(bufs, ps.drop_last()) + piece_bytes(bufs, ps.last())
    }
}

/// `ins` put in place of the `del` bytes of `doc` that start at `off`.
pub open spec fn spliced(doc: Seq<u8>, off: int, del: int, ins: Seq<u8>) -> Seq<u8> {
    doc.subrange(0, off) + ins + doc.subrange(off + del, doc.len() as int)
}

/// A document length that offsets (`i64`) and memory (`usize`) can both hold.
pub open spec fn fits(n: int) -> bool {
    0 <= n <= i64::MAX && n <= usize::MAX
}

/// What a window of `len` bytes at `off` shows of `doc`: cut at the end of the document.
pub open spec fn window(doc: Seq<u8>, off: int, len: int) -> Seq<u8> {
    let lo = if off < doc.len() { off } else { doc.len() as int };
    let hi = if off + len < doc.len() { off + len } else { doc.len() as int };
    doc.subrange(lo, hi)
}

pub proof fn lemma_content_push(bufs: Seq<Seq<u8>>, ps: Seq<Piece>, p: Piece)
    ensures
        content(bufs, ps.push(p)) == content(bufs, ps) + piece_bytes(bufs, p),
{
    assert(ps.push(p).drop_last() =~= ps);
}

pub proof fn lemma_content_append(bufs: Seq<Seq<u8>>, a: Seq<Piece>, b: Seq<Piece>)
    ensures
        content(bufs, a + b) == content(bufs, a) + content(bufs, b),
    decreases b.len(),
{
    if b.len() == 0 {
        assert(a + b =~= a);
        assert(content(bufs, a) + content(bufs, b) =~= content(bufs, a));
    } else {
        lemma_content_append(bufs, a, b.drop_last());
        assert((a + b).drop_last() =~= a + b.drop_last());
        assert((a + b).last() == b.last());
        assert(content(bufs, a + b) =~= content(bufs, a) + content(bufs, b));
    }
}

/// Adding a buffer changes nothing for pieces that lie in the old ones.
pub proof fn lemma_content_more_bufs(bufs: Seq<Seq<u8>>, ps: Seq<Piece>, extra: Seq<u8>)
    requires
        pieces_ok(bufs, ps),
    ensures
        content(bufs.push(extra), ps) == content(bufs, ps),
        pieces_ok(bufs.push(extra), ps),
    decreases ps.len(),
{
    assert forall|i: int| 0 <= i < ps.len() implies #[trigger] piece_ok(bufs.push(extra), ps[i])
        && piece_bytes(bufs.push(extra), ps[i]) == piece_bytes(bufs, ps[i]) by {
        assert(piece_ok(bufs, ps[i]));
        assert(bufs.push(extra)[ps[i].buf as int] == bufs[ps[i].buf as int]);
    }
    if ps.len() > 0 {
        lemma_content_more_bufs(bufs, ps.drop_last(), extra);
        assert(piece_ok(bufs, ps.last()));
    }
}

pub proof fn lemma_prefix_len(bufs: Seq<Seq<u8>>, ps: Seq<Piece>, i: int)
    requires
        0 <= i <= ps.len(),
    ensures
        content(bufs, ps.take(i)).len() <= content(bufs, ps).len(),
    decreases ps.len() - i,
{
    if i < ps.len() {
        lemma_prefix_len(bufs, ps, i + 1);
        assert(ps.take(i + 1) =~= ps.take(i).push(ps[i]));
        lemma_content_push(bufs, ps.take(i), ps[i]);
    } else {
        assert(ps.take(i) =~= ps);
    }
}

/// Clipping `a + b` to `[lo, hi)` clips each part in turn.
proof fn lemma_clip_concat(a: Seq<u8>, b: Seq<u8>, lo: int, hi: int)
    requires
        0 <= lo <= hi,
    ensures
        ({
            let n = a.len() as int;
            let m = n + b.len();
            let x = if lo < n { n } else { lo };
            let y = if hi < m { hi } else { m };
            let pa = (a + b).subrange(if lo < m { lo } else { m }, if hi < m { hi } else { m });
            let qa = a.subrange(if lo < n { lo } else { n }, if hi < n { hi } else { n });
            x < y ==> pa == qa + b.subrange(x - n, y - n)
        }),
        ({
            let n = a.len() as int;
            let m = n + b.len();
            let x = if lo < n { n } else { lo };
            let y = if hi < m { hi } else { m };
            let pa = (a + b).subrange(if lo < m { lo } else { m }, if hi < m { hi } else { m });
            let qa = a.subrange(if lo < n { lo } else { n }, if hi < n { hi } else { n });
            !(x < y) ==> pa == qa
        }),
{
    let n = a.len() as int;
    let m = n + b.len();
    let x = if lo < n { n } else { lo };
    let y = if hi < m { hi } else { m };
    let pa = (a + b).subrange(if lo < m { lo } else { m }, if hi < m { hi } else { m });
    let qa = a.subrange(if lo < n { lo } else { n }, if hi < n { hi } else { n });
    if x < y {
        assert(pa =~= qa + b.subrange(x - n, y - n));
    } else {
        assert(pa =~= qa);
    }
}

/// A window that a splice does not reach shows the same bytes after it: the
/// splice changes nothing, or the window ends at or before the splice's
/// offset, or the splice overwrites in place and ends at or before the
/// window's start.
pub proof fn lemma_window_untouched(doc: Seq<u8>, off: int, del: int, ins: Seq<u8>, vo: int, vl: int)
    requires
        0 <= off,
        0 <= del,
        off + del <= doc.len(),
        0 <= vo,
        0 <= vl,
        (del == 0 && ins.len() == 0) || vo + vl <= off || (ins.len() == del && off + del <= vo),
    ensures
        window(spliced(doc, off, del, ins), vo, vl) == window(doc, vo, vl),
{
    let d2 = spliced(doc, off, del, ins);
    if del == 0 && ins.len() == 0 {
        assert(d2 =~= doc);
    } else {
        assert(window(d2, vo, vl) =~= window(doc, vo, vl));
    }
}

/// A document held as pieces of buffers; buffer 0 is the original bytes.
pub struct PieceTable {
    pub buffers: Vec<Vec<u8>>,
    pub pieces: Vec<Piece>,
    pub len: usize,
}

impl PieceTable {
    pub open spec fn bufs(&self) -> Seq<Seq<u8>> {
        Seq::new(self.buffers@.len(), |i: int| self.buffers@[i]@)
    }

    /// The logical document.
    pub open spec fn doc(&self) -> Seq<u8> {
        content(self.bufs(), self.pieces@)
    }

    pub open spec fn wf(&self) -> bool {
        &&& self.buffers@.len() >= 1
        &&& pieces_ok(self.bufs(), self.pieces@)
        &&& self.len as int == self.doc().len()
        &&& fits(self.len as int)
    }

    /// A table whose document is `source`.
    pub fn from_source(source: Vec<u8>) -> (r: PieceTable)
        requires
            fits(source@.len() as int),
        ensures
            r.wf(),
            r.doc() == source@,
    {
        let n = source.len();
        let mut buffers: Vec<Vec<u8>> = Vec::new();
        buffers.push(source);
        let mut pieces: Vec<Piece> = Vec::new();
        if n > 0 {
            pieces.push(Piece { buf: 0, start: 0, len: n });
        }
        let r = PieceTable { buffers, pieces, len: n };
        proof {
            let bufs = r.bufs();
            if n > 0 {
                lemma_content_push(bufs, Seq::empty(), r.pieces@[0]);
                assert(Seq::<Piece>::empty().push(r.pieces@[0]) =~= r.pieces@);
                assert(piece_bytes(bufs, r.pieces@[0]) =~= bufs[0]);
                assert(content(bufs, Seq::<Piece>::empty()) + bufs[0] =~= bufs[0]);
            } else {
                assert(r.doc() =~= source@);
            }
        }
        r
    }

    /// Pieces whose content is the document's bytes in `[lo, hi)`.
    pub fn slice(&self, lo: usize, hi: usize) -> (out: Vec<Piece>)
        requires
            self.wf(),
            lo <= hi <= self.len,
        ensures
            pieces_ok(self.bufs(), out@),
            content(self.bufs(), out@) == self.doc().subrange(lo as int, hi as int),
    {
        let ghost bufs = self.bufs();
        let ghost ps = self.pieces@;
        let mut out: Vec<Piece> = Vec::new();
        let mut pos: usize = 0;
        let mut i: usize = 0;
        proof {
            assert(ps.take(0) =~= Seq::<Piece>::empty());
            assert(content(bufs, out@) =~= content(bufs, ps.take(0)).subrange(0, 0));
        }
        while i < self.pieces.len()
            invariant
                self.wf(),
                bufs == self.bufs(),
                ps == self.pieces@,
                lo <= hi <= self.len,
                i <= ps.len(),
                pos as int == content(bufs, ps.take(i as int)).len(),
                pieces_ok(bufs, out@),
                content(bufs, out@) == content(bufs, ps.take(i as int)).subrange(
                    if lo < pos { lo as int } else { pos as int },
                    if hi < pos { hi as int } else { pos as int },
                ),
            decreases ps.len() - i,
        {
            let p = self.pieces[i];
            proof {
                assert(ps.take(i + 1) =~= ps.take(i as int).push(p));
                lemma_content_push(bufs, ps.take(i as int), p);
                lemma_prefix_len(bufs, ps, i + 1);
                assert(piece_ok(bufs, ps[i as int]));
                lemma_clip_concat(
                    content(bufs, ps.take(i as int)),
                    piece_bytes(bufs, p),
                    lo as int,
                    hi as int,
                );
            }
            let end = pos + p.len;
            let x = if lo < pos { pos } else { lo };
            let y = if hi < end { hi } else { end };
            if x < y {
                let blen = self.buffers[p.buf].len();
                let q = Piece { buf: p.buf, start: p.start + (x - pos), len: y - x };
                proof {
                    lemma_content_push(bufs, out@, q);
                    assert(piece_bytes(bufs, q) =~= piece_bytes(bufs, p).subrange(
                        x - pos,
                        y - pos,
                    ));
                }
                out.push(q);
                proof {
                    assert forall|k: int| 0 <= k < out@.len() implies #[trigger] piece_ok(
                        bufs,
                        out@[k],
                    ) by {
                        if k < out@.len() - 1 {
                            assert(out@[k] == out@.drop_last()[k]);
                        }
                    }
                }
            }
            pos = end;
            i = i + 1;
        }
        proof {
            assert(ps.take(i as int) =~= ps);
        }
        out
    }

    /// Puts `ins` in place of the `del` bytes at `off`.
    pub fn splice(&mut self, off: usize, del: usize, ins: &[u8])
        requires
            old(self).wf(),
            off + del <= old(self).len,
            fits(old(self).len - del + ins@.len()),
        ensures
            final(self).wf(),
            final(self).doc() == spliced(old(self).doc(), off as int, del as int, ins@),
            final(self).len == old(self).len - del + ins@.len(),
    {
        let ghost d0 = self.doc();
        let n = self.len;
        let mut left = self.slice(0, off);
        let mut right = self.slice(off + del, n);
        let ghost b0 = self.bufs();
        let ghost l0 = left@;
        let ghost r0 = right@;
        if ins.len() > 0 {
            let idx = self.buffers.len();
            let v = slice_to_vec(ins);
            self.buffers.push(v);
            let q = Piece { buf: idx, start: 0, len: ins.len() };
            proof {
                assert(self.bufs() =~= b0.push(ins@));
                lemma_content_more_bufs(b0, l0, ins@);
                lemma_content_more_bufs(b0, r0, ins@);
                lemma_content_push(self.bufs(), l0, q);
                assert(piece_bytes(self.bufs(), q) =~= ins@);
            }
            left.push(q);
        }
        let ghost bufs = self.bufs();
        let ghost l1 = left@;
        proof {
            assert(content(bufs, l1) == d0.subrange(0, off as int) + ins@) by {
                if ins@.len() == 0 {
                    assert(d0.subrange(0, off as int) + ins@ =~= d0.subrange(0, off as int));
                }
            }
            assert(pieces_ok(bufs, l1));
        }
        left.append(&mut right);
        self.pieces = left;
        self.len = n - del + ins.len();
        proof {
            assert(self.pieces@ == l1 + r0);
            lemma_content_append(bufs, l1, r0);
            assert(pieces_ok(bufs, self.pieces@)) by {
                assert forall|i: int| 0 <= i < self.pieces@.len() implies #[trigger] piece_ok(
                    bufs,
                    self.pieces@[i],
                ) by {
                    if i < l1.len() {
                        assert(self.pieces@[i] == l1[i]);
                    } else {
                        assert(self.pieces@[i] == r0[i - l1.len()]);
                    }
                }
            }
        }
    }

    /// The document's bytes in `[lo, hi)`.
    pub fn read(&self, lo: usize, hi: usize) -> (r: Vec<u8>)
        requires
            self.wf(),
            lo <= hi <= self.len,
        ensures
            r@ == self.doc().subrange(lo as int, hi as int),
    {
        let ps = self.slice(lo, hi);
        let ghost bufs = self.bufs();
        let mut out: Vec<u8> = Vec::new();
        let mut i: usize = 0;
        proof {
            assert(ps@.take(0) =~= Seq::<Piece>::empty());
        }
        while i < ps.len()
            invariant
                self.wf(),
                bufs == self.bufs(),
                i <= ps@.len(),
                pieces_ok(bufs, ps@),
                out@ == content(bufs, ps@.take(i as int)),
            decreases ps@.len() - i,
        {
            let p = ps[i];
            proof {
                assert(piece_ok(bufs, ps@[i as int]));
            }
            let b = &self.buffers[p.buf];
            let ghost base = out@;
            let blen = b.len();
            let mut j: usize = 0;
            while j < p.len
                invariant
                    piece_ok(bufs, p),
                    b@ == bufs[p.buf as int],
                    blen == b@.len(),
                    j <= p.len,
                    out@ == base + b@.subrange(p.start as int, p.start + j),
                decreases p.len - j,
            {
                out.push(b[p.start + j]);
                j = j + 1;
                proof {
                    assert(out@ =~= base + b@.subrange(p.start as int, p.start + j));
                }
            }
            proof {
                assert(ps@.take(i + 1) =~= ps@.take(i as int).push(p));
                lemma_content_push(bufs, ps@.take(i as int), p);
            }
            i = i + 1;
        }
        proof {
            assert(ps@.take(i as int) =~= ps@);
        }
        out
    }
}

} // verus!
