use vstd::prelude::*;

use crate::text::{
    lemma_split_on_append, lemma_split_on_concat, lemma_split_on_len, lemma_split_on_pieces_lack_sep,
    lemma_split_on_without_sep, nonempty_pieces, split_on,
};

verus! {

/// The byte that ends a frame in a newline-delimited body.
pub const LINE_FEED: u8 = 0x0a;

/// The frames that `body` has completed: its newline-terminated lines, without the
/// newline, skipping empty ones. The bytes after the last newline are not a frame yet.
pub open spec fn complete_frames(body: Seq<u8>) -> Seq<Seq<u8>> {
    nonempty_pieces(split_on(body, LINE_FEED).drop_last())
}

/// The bytes of `body` after its last newline, still waiting for their terminator.
pub open spec fn pending_bytes(body: Seq<u8>) -> Seq<u8> {
    split_on(body, LINE_FEED).last()
}

/// Every frame of a finished body: its non-empty lines, the last one whether or not
/// a newline ends it.
pub open spec fn body_frames(body: Seq<u8>) -> Seq<Seq<u8>> {
    nonempty_pieces(split_on(body, LINE_FEED))
}

/// Splits a newline-delimited byte stream into frames as its chunks arrive, holding
/// back only the bytes of the line that has not ended yet.
pub struct LineFramer {
    buf: Vec<u8>,
}

impl View for LineFramer {
    type V = Seq<u8>;

    /// The bytes received since the last newline.
    closed spec fn view(&self) -> Seq<u8> {
        self.buf@
    }
}

impl LineFramer {
    #[verifier::type_invariant]
    closed spec fn holds_no_line_feed(self) -> bool {
        !self.buf@.contains(LINE_FEED)
    }

    /// A framer that has received nothing.
    pub fn new() -> (framer: Self)
        ensures
            framer@ == Seq::<u8>::empty(),
    {
        LineFramer { buf: Vec::new() }
    }

    /// Takes the next chunk of the body and returns, in order, the frames that it
    /// completes; the bytes after its last newline are kept for the next chunk.
    pub fn push_chunk(&mut self, chunk: &[u8]) -> (frames: Vec<Vec<u8>>)
        ensures
            frames@.map_values(|f: Vec<u8>| f@) == complete_frames(old(self)@ + chunk@),
            final(self)@ == pending_bytes(old(self)@ + chunk@),
    {
        proof {
            use_type_invariant(&*self);
        }
        let ghost start = self.buf@;
        let mut buf: Vec<u8> = Vec::new();
        std::mem::swap(&mut buf, &mut self.buf);
        let mut frames: Vec<Vec<u8>> = Vec::new();
        proof {
            reveal(Seq::filter);
            assert(start + chunk@.take(0) =~= start);
            lemma_split_on_without_sep(start, LINE_FEED);
            assert(split_on(start, LINE_FEED).drop_last() =~= Seq::<Seq<u8>>::empty());
            assert(frames@.map_values(|f: Vec<u8>| f@) =~= Seq::<Seq<u8>>::empty());
        }
        let n = chunk.len();
        let mut i: usize = 0;
        while i < n
            invariant
                n == chunk@.len(),
                i <= n,
                buf@ == pending_bytes(start + chunk@.take(i as int)),
                frames@.map_values(|f: Vec<u8>| f@) == complete_frames(start + chunk@.take(i as int)),
            decreases n - i,
        {
            let ghost s = start + chunk@.take(i as int);
            let ghost prev = split_on(s, LINE_FEED);
            proof {
                lemma_split_on_len(s, LINE_FEED);
                reveal(Seq::filter);
                assert((start + chunk@.take(i + 1)).drop_last() =~= s);
                assert((start + chunk@.take(i + 1)).last() == chunk@[i as int]);
            }
            let b = chunk[i];
            if b == LINE_FEED {
                proof {
                    let next = split_on(start + chunk@.take(i + 1), LINE_FEED);
                    assert(next =~= prev.push(Seq::<u8>::empty()));
                    assert(next.drop_last() =~= prev);
                    assert(prev.drop_last().push(prev.last()) =~= prev);
                }
                if buf.len() > 0 {
                    let mut line: Vec<u8> = Vec::new();
                    std::mem::swap(&mut line, &mut buf);
                    let ghost before = frames@;
                    frames.push(line);
                    proof {
                        assert(frames@.map_values(|f: Vec<u8>| f@) =~= before.map_values(
                            |f: Vec<u8>| f@,
                        ).push(prev.last()));
                    }
                }
            } else {
                buf.push(b);
                proof {
                    let next = split_on(start + chunk@.take(i + 1), LINE_FEED);
                    assert(next =~= prev.update(prev.len() - 1, prev.last().push(b)));
                    assert(next.drop_last() =~= prev.drop_last());
                }
            }
            i = i + 1;
        }
        proof {
            assert(chunk@.take(n as int) =~= chunk@);
            lemma_split_on_pieces_lack_sep(start + chunk@, LINE_FEED);
            lemma_split_on_len(start + chunk@, LINE_FEED);
        }
        self.buf = buf;
        frames
    }

    /// Ends the body: the bytes held back form a last frame when there are any.
    pub fn finish(self) -> (last: Option<Vec<u8>>)
        ensures
            last matches Some(f) ==> f@ == self@,
            last is Some <==> self@.len() > 0,
    {
        if self.buf.len() > 0 {
            Some(self.buf)
        } else {
            None
        }
    }
}


/// How a body is cut into chunks does not change its frames: the frames completed
/// by `x`, then those completed by what `x` left pending followed by `y`, are the
/// frames completed by `x + y`, and the same bytes are left pending.
pub proof fn lemma_frames_independent_of_chunking(x: Seq<u8>, y: Seq<u8>)
    ensures
        complete_frames(x) + complete_frames(pending_bytes(x) + y) == complete_frames(x + y),
        pending_bytes(pending_bytes(x) + y) == pending_bytes(x + y),
{
    let px = split_on(x, LINE_FEED);
    let q = split_on(pending_bytes(x) + y, LINE_FEED);
    lemma_split_on_append(x, y, LINE_FEED);
    lemma_split_on_len(pending_bytes(x) + y, LINE_FEED);
    assert((px.drop_last() + q).drop_last() =~= px.drop_last() + q.drop_last());
    Seq::filter_distributes_over_add(px.drop_last(), q.drop_last(), |p: Seq<u8>| p.len() > 0);
}

/// Once a body has ended, its frames are the frames it completed followed by the
/// pending bytes when there are any: what the framer returns and then `finish` yields.
pub proof fn lemma_finished_body_frames(body: Seq<u8>)
    ensures
        body_frames(body) == complete_frames(body) + (if pending_bytes(body).len() > 0 {
            seq![pending_bytes(body)]
        } else {
            Seq::<Seq<u8>>::empty()
        }),
{
    reveal(Seq::filter);
    lemma_split_on_len(body, LINE_FEED);
    let pieces = split_on(body, LINE_FEED);
    assert(pieces.drop_last().push(pieces.last()) =~= pieces);
    let done = complete_frames(body);
    assert(done.push(pieces.last()) =~= done + seq![pieces.last()]);
    assert(done + Seq::<Seq<u8>>::empty() =~= done);
}

/// Every frame of a body is a non-empty run of bytes that holds no newline.
pub proof fn lemma_frames_are_nonempty_lines(body: Seq<u8>)
    ensures
        forall|i: int|
            0 <= i < body_frames(body).len() ==> (#[trigger] body_frames(body)[i]).len() > 0
                && !body_frames(body)[i].contains(LINE_FEED),
{
    let pieces = split_on(body, LINE_FEED);
    let pred = |p: Seq<u8>| p.len() > 0;
    lemma_split_on_pieces_lack_sep(body, LINE_FEED);
    assert forall|i: int| 0 <= i < body_frames(body).len() implies (
    #[trigger] body_frames(body)[i]).len() > 0 && !body_frames(body)[i].contains(LINE_FEED) by {
        let f = body_frames(body)[i];
        pieces.lemma_filter_pred(pred, i);
        assert(pieces.filter(pred).contains(f));
        pieces.lemma_filter_contains_rev(pred, f);
        let j = choose|j: int| 0 <= j < pieces.len() && pieces[j] == f;
        assert(!pieces[j].contains(LINE_FEED));
    }
}


/// What a framer holding `pending` returns when fed `chunks` one after another:
/// the frames, in order, and the bytes it holds back at the end.
pub open spec fn feed_chunks(pending: Seq<u8>, chunks: Seq<Seq<u8>>) -> (Seq<Seq<u8>>, Seq<u8>)
    decreases chunks.len(),
{
    if chunks.len() == 0 {
        (Seq::<Seq<u8>>::empty(), pending)
    } else {
        let (frames, rest) = feed_chunks(pending, chunks.drop_last());
        (
            frames + complete_frames(rest + chunks.last()),
            pending_bytes(rest + chunks.last()),
        )
    }
}

/// However a body is cut into chunks, and into however many, a fresh framer fed
/// the chunks returns the frames that the whole body completes and holds back the
/// same bytes.
pub proof fn lemma_any_chunking_gives_body_frames(chunks: Seq<Seq<u8>>)
    ensures
        feed_chunks(Seq::<u8>::empty(), chunks) == (
            complete_frames(chunks.flatten()),
            pending_bytes(chunks.flatten()),
        ),
    decreases chunks.len(),
{
    if chunks.len() == 0 {
        reveal(Seq::filter);
        let pieces = split_on(Seq::<u8>::empty(), LINE_FEED);
        assert(pieces.drop_last() =~= Seq::<Seq<u8>>::empty());
        assert(complete_frames(Seq::<u8>::empty()) =~= Seq::<Seq<u8>>::empty());
    } else {
        let init = chunks.drop_last();
        lemma_any_chunking_gives_body_frames(init);
        lemma_frames_independent_of_chunking(init.flatten(), chunks.last());
        init.lemma_flatten_push(chunks.last());
        assert(init.push(chunks.last()) =~= chunks);
    }
}


/// A line without a newline is no complete frame yet: it stays pending, and once
/// the body ends it is one frame when it is not empty.
pub proof fn lemma_unterminated_line(line: Seq<u8>)
    requires
        !line.contains(LINE_FEED),
    ensures
        complete_frames(line) == Seq::<Seq<u8>>::empty(),
        pending_bytes(line) == line,
        body_frames(line) == (if line.len() > 0 {
            seq![line]
        } else {
            Seq::<Seq<u8>>::empty()
        }),
{
    reveal(Seq::filter);
    lemma_split_on_without_sep(line, LINE_FEED);
    let pieces = split_on(line, LINE_FEED);
    assert(pieces.drop_last() =~= Seq::<Seq<u8>>::empty());
    assert(pieces.drop_last().filter(|p: Seq<u8>| p.len() > 0) =~= Seq::<Seq<u8>>::empty());
    assert(Seq::<Seq<u8>>::empty().push(line) =~= seq![line]);
}

/// A newline-terminated line is one frame, whatever its length, when it is not
/// empty, and no frame when it is; the frames of the rest of the body follow it.
pub proof fn lemma_terminated_line_then_rest(line: Seq<u8>, rest: Seq<u8>)
    requires
        !line.contains(LINE_FEED),
    ensures
        complete_frames(line + seq![LINE_FEED] + rest) == (if line.len() > 0 {
            seq![line]
        } else {
            Seq::<Seq<u8>>::empty()
        }) + complete_frames(rest),
        body_frames(line + seq![LINE_FEED] + rest) == (if line.len() > 0 {
            seq![line]
        } else {
            Seq::<Seq<u8>>::empty()
        }) + body_frames(rest),
        pending_bytes(line + seq![LINE_FEED] + rest) == pending_bytes(rest),
{
    reveal(Seq::filter);
    let pred = |p: Seq<u8>| p.len() > 0;
    lemma_split_on_concat(line, rest, LINE_FEED);
    lemma_split_on_without_sep(line, LINE_FEED);
    lemma_split_on_len(rest, LINE_FEED);
    let r = split_on(rest, LINE_FEED);
    let all = split_on(line + seq![LINE_FEED] + rest, LINE_FEED);
    assert(all == seq![line] + r);
    assert(all.drop_last() =~= seq![line] + r.drop_last());
    assert(all.last() == r.last());
    Seq::filter_distributes_over_add(seq![line], r.drop_last(), pred);
    Seq::filter_distributes_over_add(seq![line], r, pred);
    let one = seq![line];
    assert(one.drop_last() =~= Seq::<Seq<u8>>::empty());
    assert(Seq::<Seq<u8>>::empty().filter(pred) =~= Seq::<Seq<u8>>::empty());
    assert(Seq::<Seq<u8>>::empty().push(line) =~= seq![line]);
}

/// A single non-empty line followed by a newline gives exactly that line as its
/// one frame and leaves nothing pending.
pub proof fn lemma_one_line_one_frame(line: Seq<u8>)
    requires
        line.len() > 0,
        !line.contains(LINE_FEED),
    ensures
        complete_frames(line.push(LINE_FEED)) == seq![line],
        pending_bytes(line.push(LINE_FEED)) == Seq::<u8>::empty(),
{
    let empty = Seq::<u8>::empty();
    assert(line + seq![LINE_FEED] + empty =~= line.push(LINE_FEED));
    lemma_terminated_line_then_rest(line, empty);
    lemma_unterminated_line(empty);
    assert(seq![line] + Seq::<Seq<u8>>::empty() =~= seq![line]);
}

} // verus!
