//! Bounded tailing of an append-only log file.
//!
//! The last `n` lines of a file are retrieved by scanning backward from the
//! end in fixed-size chunks, so memory stays bounded by the chunk size times
//! the number of chunks scanned instead of the file size.  The scanning
//! decisions live in [`TailScanner`]; the caller only seeks and reads the
//! byte ranges the scanner asks for and hands the bytes back.
//!
//! A line is a maximal newline-free run of bytes; a trailing run not closed
//! by a newline counts as one line, and the empty file has no lines.

use vstd::prelude::*;

verus! {

/// Newline byte: lines are delimited by 0x0a alone.
pub const NEWLINE: u8 = 10;

/// How many bytes one backward read covers at most.
pub const CHUNK_SIZE: usize = 4096;

/// Number of newline bytes in `s`.
pub open spec fn newlines(s: Seq<u8>) -> nat
    decreases s.len(),
{
    if s.len() == 0 {
        0
    } else {
        newlines(s.drop_last()) + (if s.last() == NEWLINE {
            1nat
        } else {
            0
        })
    }
}

/// `s` split at newline bytes: always one more segment than newlines, with
/// the delimiters dropped.  The split of the empty sequence is one empty
/// segment.
pub open spec fn segs(s: Seq<u8>) -> Seq<Seq<u8>>
    decreases s.len(),
{
    if s.len() == 0 {
        seq![Seq::<u8>::empty()]
    } else if s.last() == NEWLINE {
        segs(s.drop_last()).push(Seq::<u8>::empty())
    } else {
        let p = segs(s.drop_last());
        p.update(p.len() - 1, p.last().push(s.last()))
    }
}

/// The lines of `s`: its segments, except that the empty segment after a
/// final newline is no line, and the empty file has no lines.
pub open spec fn lines_of(s: Seq<u8>) -> Seq<Seq<u8>> {
    if s.len() == 0 {
        Seq::<Seq<u8>>::empty()
    } else if s.last() == NEWLINE {
        segs(s).drop_last()
    } else {
        segs(s)
    }
}

/// The last `n` elements of `s`, or all of `s` when it is shorter.
pub open spec fn lastn<T>(s: Seq<T>, n: nat) -> Seq<T> {
    if s.len() <= n {
        s
    } else {
        s.skip(s.len() - n)
    }
}

/// What tailing must return: the last `min(n, L)` lines of the file, in
/// file order.
pub open spec fn tail_lines(s: Seq<u8>, n: nat) -> Seq<Seq<u8>> {
    lastn(lines_of(s), n)
}

/// Newlines of `s` that close a line strictly before the end of the file:
/// a suffix holding this many closed lines is guaranteed to contain the
/// last `eff_newlines(s)` whole lines of the file.
pub open spec fn eff_newlines(s: Seq<u8>) -> nat {
    if s.len() > 0 && s.last() == NEWLINE {
        (newlines(s) - 1) as nat
    } else {
        newlines(s)
    }
}

/// What assembling a scanned suffix yields: its lines, minus the leading
/// segment when the scan stopped short of the file start (that segment may
/// be the tail of a cut line), clipped to the last `n`.
pub open spec fn finish_lines(buf: Seq<u8>, from_start: bool, n: nat) -> Seq<Seq<u8>> {
    let ls = lines_of(buf);
    let kept = if from_start || ls.len() == 0 {
        ls
    } else {
        ls.drop_first()
    };
    lastn(kept, n)
}

pub proof fn lemma_newlines_le(s: Seq<u8>)
    ensures
        newlines(s) <= s.len(),
    decreases s.len(),
{
    if s.len() > 0 {
        lemma_newlines_le(s.drop_last());
    }
}

pub proof fn lemma_segs_len(s: Seq<u8>)
    ensures
        segs(s).len() == newlines(s) + 1,
    decreases s.len(),
{
    if s.len() > 0 {
        lemma_segs_len(s.drop_last());
    }
}

pub proof fn lemma_newlines_append(a: Seq<u8>, b: Seq<u8>)
    ensures
        newlines(a + b) == newlines(a) + newlines(b),
    decreases b.len(),
{
    if b.len() == 0 {
        assert(a + b =~= a);
    } else {
        lemma_newlines_append(a, b.drop_last());
        assert((a + b).drop_last() =~= a + b.drop_last());
        assert((a + b).last() == b.last());
    }
}

/// Splitting a suffix of `f` gives the same segments as splitting `f`,
/// after the first: the segment boundaries inside the suffix are segment
/// boundaries of the whole file.
pub proof fn lemma_segs_suffix(f: Seq<u8>, pos: int)
    requires
        0 < pos <= f.len(),
    ensures
        segs(f.skip(pos)).drop_first() == segs(f).skip((newlines(f.take(pos)) + 1) as int),
    decreases f.len(),
{
    lemma_segs_len(f);
    lemma_segs_len(f.skip(pos));
    lemma_newlines_append(f.take(pos), f.skip(pos));
    assert(f.take(pos) + f.skip(pos) =~= f);
    let m = newlines(f.take(pos)) as int;
    let k: int = m + 1;
    if pos == f.len() {
        assert(f.take(pos) =~= f);
        assert(f.skip(pos) =~= Seq::<u8>::empty());
        assert(segs(f.skip(pos)).drop_first() =~= Seq::<Seq<u8>>::empty());
        assert(segs(f).skip(k) =~= Seq::<Seq<u8>>::empty());
    } else {
        let g = f.drop_last();
        let x = f.last();
        lemma_segs_suffix(g, pos);
        lemma_segs_len(g);
        lemma_segs_len(g.skip(pos));
        lemma_newlines_append(g.take(pos), g.skip(pos));
        assert(g.take(pos) + g.skip(pos) =~= g);
        assert(f.take(pos) =~= g.take(pos));
        assert(f.skip(pos) =~= g.skip(pos).push(x));
        assert(f.skip(pos).drop_last() =~= g.skip(pos));
        let pg = segs(g);
        let pbg = segs(g.skip(pos));
        if x == NEWLINE {
            assert(segs(f) =~= pg.push(Seq::<u8>::empty()));
            assert(segs(f.skip(pos)) =~= pbg.push(Seq::<u8>::empty()));
            assert(segs(f.skip(pos)).drop_first() =~= pbg.drop_first().push(
                Seq::<u8>::empty(),
            ));
            assert(segs(f).skip(k) =~= pg.skip(k).push(Seq::<u8>::empty()));
        } else {
            assert(segs(f) =~= pg.update(pg.len() - 1, pg.last().push(x)));
            assert(segs(f.skip(pos)) =~= pbg.update(pbg.len() - 1, pbg.last().push(x)));
            if pbg.len() == 1 {
                // the suffix holds no newline, so every newline of g lies
                // before pos and the whole-file split past k is empty
                assert(newlines(g.skip(pos)) == 0);
                assert(k == pg.len());
                assert(segs(f.skip(pos)).drop_first() =~= Seq::<Seq<u8>>::empty());
                assert(segs(f).skip(k) =~= Seq::<Seq<u8>>::empty());
            } else {
                assert(pbg.drop_first() == pg.skip(k));
                assert(pbg.last() == pbg.drop_first().last());
                assert(pbg.last() == pg.last());
                assert(segs(f.skip(pos)).drop_first() =~= pbg.drop_first().update(
                    pbg.len() - 2,
                    pbg.last().push(x),
                ));
                assert(segs(f).skip(k) =~= pg.skip(k).update(pg.len() - 1 - k, pg.last().push(x)));
                assert(segs(f.skip(pos)).drop_first() =~= segs(f).skip(k));
            }
        }
    }
}

/// Clipping to the last `n` elements ignores anything dropped from the
/// front, as long as at least `n` elements remain.
pub proof fn lemma_lastn_skip<T>(s: Seq<T>, j: int, n: nat)
    requires
        0 <= j <= s.len(),
        s.len() - j >= n,
    ensures
        lastn(s.skip(j), n) == lastn(s, n),
{
    if s.len() - j == n {
        assert(lastn(s.skip(j), n) =~= s.skip(j));
        if s.len() > n {
            assert(lastn(s, n) =~= s.skip(j));
        } else {
            assert(j == 0);
            assert(s.skip(0) =~= s);
        }
    } else {
        assert(lastn(s.skip(j), n) =~= s.skip(s.len() - n));
        assert(lastn(s, n) =~= s.skip(s.len() - n));
    }
}

/// Assembling a scanned suffix yields exactly the tail of the whole file:
/// the backward scan may stop as soon as it has seen `n` line-closing
/// newlines, or the start of the file.
pub proof fn lemma_tail_from_suffix(f: Seq<u8>, pos: int, n: nat)
    requires
        0 <= pos <= f.len(),
        pos == 0 || n == 0 || eff_newlines(f.skip(pos)) >= n,
    ensures
        finish_lines(f.skip(pos), pos == 0, n) == tail_lines(f, n),
{
    let buf = f.skip(pos);
    if pos == 0 {
        assert(buf =~= f);
    } else if n == 0 {
        let ls = lines_of(buf);
        let kept = if ls.len() == 0 {
            ls
        } else {
            ls.drop_first()
        };
        assert(lastn(kept, 0) =~= Seq::<Seq<u8>>::empty());
        assert(lastn(lines_of(f), 0) =~= Seq::<Seq<u8>>::empty());
    } else if buf.len() == 0 {
        // an empty suffix can only satisfy the newline bound when n == 0
        assert(eff_newlines(buf) == 0);
        assert(false);
    } else {
        lemma_segs_suffix(f, pos);
        lemma_segs_len(f);
        lemma_segs_len(buf);
        lemma_newlines_append(f.take(pos), buf);
        assert(f.take(pos) + buf =~= f);
        let k: int = newlines(f.take(pos)) as int + 1;
        assert(buf.last() == f.last());
        if f.last() == NEWLINE {
            assert(newlines(buf) >= 1);
            assert(lines_of(buf).drop_first() =~= segs(buf).drop_first().drop_last());
            assert(segs(buf).drop_first().drop_last() =~= segs(f).skip(k).drop_last());
            assert(segs(f).skip(k).drop_last() =~= segs(f).drop_last().skip(k));
            assert(lines_of(buf).drop_first() =~= lines_of(f).skip(k));
            assert(lines_of(buf).len() == segs(buf).len() - 1);
            assert(lines_of(buf).drop_first().len() == newlines(buf) - 1);
            assert(lines_of(buf).drop_first().len() >= n);
            assert(lines_of(buf).len() != 0);
            lemma_lastn_skip(lines_of(f), k, n);
            assert(finish_lines(buf, false, n) == lastn(lines_of(buf).drop_first(), n));
            assert(lastn(lines_of(f).skip(k), n) == lastn(lines_of(f), n));
        } else {
            assert(lines_of(buf).drop_first() =~= lines_of(f).skip(k));
            assert(lines_of(buf).drop_first().len() == newlines(buf));
            assert(lines_of(buf).drop_first().len() >= n);
            lemma_lastn_skip(lines_of(f), k, n);
        }
    }
}


fn count_newlines(v: &Vec<u8>) -> (r: usize)
    ensures
        r == newlines(v@),
{
    let mut i: usize = 0;
    let mut c: usize = 0;
    while i < v.len()
        invariant
            i <= v@.len(),
            c == newlines(v@.take(i as int)),
            c <= i,
        decreases v@.len() - i,
    {
        proof {
            assert(v@.take(i + 1).drop_last() =~= v@.take(i as int));
            assert(v@.take(i + 1).last() == v@[i as int]);
        }
        if v[i] == NEWLINE {
            c = c + 1;
        }
        i = i + 1;
    }
    proof {
        assert(v@.take(v@.len() as int) =~= v@);
    }
    c
}

/// Backward scanning state for one tail retrieval.
///
/// The scanner never touches the file itself.  `next_request` names the
/// byte range to read next; the caller reads exactly that range and hands
/// the bytes to `feed`.  When no range is left to read, `finish` assembles
/// the collected suffix into the last `want` lines.
pub struct TailScanner {
    pub file_len: usize,
    pub pos: usize,
    pub want: usize,
    pub nl: usize,
    pub buf: Vec<u8>,
}

impl TailScanner {
    /// The collected bytes cover exactly the file range `pos..file_len`,
    /// and `nl` counts their newlines.
    pub open spec fn wf(self) -> bool {
        &&& self.pos <= self.file_len
        &&& self.buf@.len() == self.file_len - self.pos
        &&& self.nl == newlines(self.buf@)
    }

    /// No further read is needed: nothing was asked for, the whole file is
    /// in hand, or the suffix already closes `want` whole lines.
    pub open spec fn done(self) -> bool {
        self.want == 0 || self.pos == 0 || eff_newlines(self.buf@) >= self.want
    }

    /// Whether the scanned suffix is the whole file.
    pub open spec fn from_start(self) -> bool {
        self.pos == 0
    }

    /// A scanner for the last `want` lines of a file of `file_len` bytes;
    /// nothing is read yet.
    pub fn new(file_len: usize, want: usize) -> (s: Self)
        ensures
            s.wf(),
            s.file_len == file_len,
            s.want == want,
            s.pos == file_len,
            s.buf@ == Seq::<u8>::empty(),
            want == 0 ==> s.done(),
    {
        let s = Self { file_len, pos: file_len, want, nl: 0, buf: Vec::new() };
        proof {
            assert(s.buf@ =~= Seq::<u8>::empty());
        }
        s
    }

    fn eff_count(&self) -> (r: usize)
        requires
            self.wf(),
        ensures
            r == eff_newlines(self.buf@),
    {
        if self.buf.len() == 0 {
            0
        } else if self.buf[self.buf.len() - 1] == NEWLINE {
            proof {
                assert(newlines(self.buf@) == newlines(self.buf@.drop_last()) + 1);
            }
            self.nl - 1
        } else {
            self.nl
        }
    }

    /// Whether the scan needs no further read.
    pub fn is_done(&self) -> (r: bool)
        requires
            self.wf(),
        ensures
            r == self.done(),
    {
        self.want == 0 || self.pos == 0 || self.eff_count() >= self.want
    }

    /// The byte range to read next, as `(offset, length)`: one chunk ending
    /// where the collected suffix begins, clamped at the file start.
    /// `None` exactly when no read is needed; in particular, asking for
    /// zero lines reads nothing at all.
    pub fn next_request(&self) -> (r: Option<(usize, usize)>)
        requires
            self.wf(),
        ensures
            r is None <==> self.done(),
            r matches Some(req) ==> ({
                let (p, l) = req;
                &&& l == (if self.pos < CHUNK_SIZE {
                    self.pos as int
                } else {
                    CHUNK_SIZE as int
                })
                &&& p == self.pos - l
                &&& l > 0
            }),
    {
        if self.is_done() {
            None
        } else {
            let l = if self.pos < CHUNK_SIZE {
                self.pos
            } else {
                CHUNK_SIZE
            };
            Some((self.pos - l, l))
        }
    }

    /// Accept the bytes of the range that `next_request` asked for.  They
    /// extend the collected suffix toward the file start.
    pub fn feed(&mut self, chunk: Vec<u8>)
        requires
            old(self).wf(),
            !old(self).done(),
            chunk@.len() == (if old(self).pos < CHUNK_SIZE {
                old(self).pos as int
            } else {
                CHUNK_SIZE as int
            }),
        ensures
            final(self).wf(),
            final(self).file_len == old(self).file_len,
            final(self).want == old(self).want,
            final(self).pos == old(self).pos - chunk@.len(),
            final(self).buf@ == chunk@ + old(self).buf@,
    {
        let l = chunk.len();
        let c = count_newlines(&chunk);
        proof {
            lemma_newlines_append(chunk@, self.buf@);
            lemma_newlines_le(chunk@ + self.buf@);
        }
        let mut nb = chunk;
        nb.append(&mut self.buf);
        self.buf = nb;
        self.nl = self.nl + c;
        self.pos = self.pos - l;
    }

    /// Assemble the collected suffix into whole lines: split at newlines,
    /// drop the leading segment when the scan stopped short of the file
    /// start, and keep the last `want` lines.
    pub fn finish(self) -> (r: Vec<Vec<u8>>)
        requires
            self.wf(),
            self.done(),
        ensures
            r.deep_view() == finish_lines(self.buf@, self.from_start(), self.want as nat),
    {
        let from_start = self.pos == 0;
        let want = self.want;
        let buf = self.buf;
        let mut out: Vec<Vec<u8>> = Vec::new();
        let mut cur: Vec<u8> = Vec::new();
        let mut i: usize = 0;
        proof {
            assert(buf@.take(0) =~= Seq::<u8>::empty());
            assert(segs(buf@.take(0)) =~= out.deep_view().push(cur@));
        }
        while i < buf.len()
            invariant
                i <= buf@.len(),
                segs(buf@.take(i as int)) == out.deep_view().push(cur@),
            decreases buf@.len() - i,
        {
            proof {
                assert(buf@.take(i + 1).drop_last() =~= buf@.take(i as int));
                assert(buf@.take(i + 1).last() == buf@[i as int]);
            }
            let ghost prev_out = out.deep_view();
            let ghost prev_cur = cur@;
            if buf[i] == NEWLINE {
                out.push(cur);
                cur = Vec::new();
                proof {
                    assert(out.deep_view() =~~= prev_out.push(prev_cur));
                    assert(segs(buf@.take(i + 1)) =~~= out.deep_view().push(cur@));
                }
            } else {
                let b = buf[i];
                cur.push(b);
                proof {
                    let p = segs(buf@.take(i as int));
                    assert(p.update(p.len() - 1, p.last().push(b)) =~= prev_out.push(
                        prev_cur.push(b),
                    ));
                    assert(segs(buf@.take(i + 1)) =~~= out.deep_view().push(cur@));
                }
            }
            i = i + 1;
        }
        proof {
            assert(buf@.take(buf@.len() as int) =~= buf@);
        }
        let mut ls: Vec<Vec<u8>>;
        if buf.len() == 0 {
            ls = Vec::new();
            proof {
                assert(ls.deep_view() =~~= lines_of(buf@));
            }
        } else if buf[buf.len() - 1] == NEWLINE {
            proof {
                assert(buf@.last() == NEWLINE);
                assert(segs(buf@).drop_last() =~~= out.deep_view());
            }
            ls = out;
        } else {
            out.push(cur);
            ls = out;
            proof {
                assert(ls.deep_view() =~~= segs(buf@));
            }
        }
        proof {
            assert(ls.deep_view() == lines_of(buf@));
        }
        let ghost kept = if from_start || lines_of(buf@).len() == 0 {
            lines_of(buf@)
        } else {
            lines_of(buf@).drop_first()
        };
        if !from_start && ls.len() > 0 {
            let ghost before = ls.deep_view();
            ls.remove(0);
            proof {
                assert(ls.deep_view() =~~= before.drop_first());
            }
        }
        proof {
            assert(ls.deep_view() == kept);
        }
        while ls.len() > want
            invariant
                lastn(ls.deep_view(), want as nat) == lastn(kept, want as nat),
            decreases ls@.len(),
        {
            let ghost before = ls.deep_view();
            ls.remove(0);
            proof {
                assert(ls.deep_view() =~~= before.drop_first());
                assert(lastn(before.drop_first(), want as nat) =~= before.skip(
                    before.len() - want,
                ));
                assert(lastn(before, want as nat) =~= before.skip(before.len() - want));
            }
        }
        proof {
            assert(ls.deep_view() =~~= lastn(ls.deep_view(), want as nat));
        }
        ls
    }
}

/// The last `n` lines of a byte sequence held in memory, by the same
/// backward scan that a file goes through.
pub fn tail_bytes(content: &Vec<u8>, n: usize) -> (r: Vec<Vec<u8>>)
    ensures
        r.deep_view() == tail_lines(content@, n as nat),
{
    let mut sc = TailScanner::new(content.len(), n);
    proof {
        assert(sc.buf@ =~= content@.subrange(sc.pos as int, content@.len() as int));
    }
    while !sc.is_done()
        invariant
            sc.wf(),
            sc.file_len == content@.len(),
            sc.want == n,
            sc.buf@ == content@.subrange(sc.pos as int, content@.len() as int),
        decreases sc.pos,
    {
        let req = sc.next_request();
        let (p, l) = req.unwrap();
        let mut chunk: Vec<u8> = Vec::new();
        let mut j: usize = p;
        let end: usize = p + l;
        proof {
            assert(chunk@ =~= content@.subrange(p as int, p as int));
        }
        while j < end
            invariant
                p <= j <= end,
                end <= content@.len(),
                chunk@ == content@.subrange(p as int, j as int),
            decreases end - j,
        {
            let b = content[j];
            chunk.push(b);
            proof {
                assert(content@.subrange(p as int, j + 1) =~= content@.subrange(
                    p as int,
                    j as int,
                ).push(content@[j as int]));
            }
            j = j + 1;
        }
        sc.feed(chunk);
        proof {
            assert(sc.buf@ =~= content@.subrange(sc.pos as int, content@.len() as int));
        }
    }
    proof {
        lemma_tail_from_suffix(content@, sc.pos as int, n as nat);
        assert(sc.buf@ =~= content@.skip(sc.pos as int));
    }
    sc.finish()
}


/// Law: asking for zero lines yields the empty tail of every file; a
/// scanner created for zero lines is done before any read, by `new` and
/// `next_request`.
pub proof fn lemma_tail_zero_lines(f: Seq<u8>)
    ensures
        tail_lines(f, 0) == Seq::<Seq<u8>>::empty(),
{
    assert(lastn(lines_of(f), 0) =~= Seq::<Seq<u8>>::empty());
}

/// Law: an empty file has no lines, so its tail is empty for every
/// requested count.
pub proof fn lemma_tail_of_empty_file(n: nat)
    ensures
        tail_lines(Seq::<u8>::empty(), n) == Seq::<Seq<u8>>::empty(),
{
}

} // verus!
