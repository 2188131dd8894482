//! Laws of the connection state machine across whole event sequences.
//!
//! The single-step contracts of `readable` and `writable` pin each
//! transition down; these proofs chain them over arbitrarily split I/O:
//! a request delimiter may arrive one byte at a time, and a response may
//! leave in any number of partial writes, without changing what the peer
//! observes.

use crate::conn::read_step;
use crate::conn::write_step;
use crate::conn::ConnState;
use crate::conn::ConnView;
use crate::protocol::contains_delim;
use crate::protocol::delim_at;
use crate::protocol::response_spec;
use crate::protocol::RESPONSE_LEN;
use crate::RBUF_CAP;
use vstd::prelude::*;

verus! {

/// The state after reading `chunks`, one read attempt each, in order.
pub open spec fn read_steps(c: ConnView, chunks: Seq<Seq<u8>>) -> ConnView
    decreases chunks.len(),
{
    if chunks.len() == 0 {
        c
    } else {
        read_steps(read_step(c, chunks.first()), chunks.drop_first())
    }
}

/// All of `chunks`, in arrival order, as one byte sequence.
pub open spec fn concat_chunks(chunks: Seq<Seq<u8>>) -> Seq<u8>
    decreases chunks.len(),
{
    if chunks.len() == 0 {
        Seq::empty()
    } else {
        chunks.first() + concat_chunks(chunks.drop_first())
    }
}

/// The state after writing `ns`, one write attempt each, in order.
pub open spec fn write_steps(c: ConnView, ns: Seq<usize>) -> ConnView
    decreases ns.len(),
{
    if ns.len() == 0 {
        c
    } else {
        write_steps(write_step(c, ns.first() as int), ns.drop_first())
    }
}

/// The bytes those write attempts hand to the peer, in order: each attempt
/// sends the next `n` bytes of the pending response tail.
pub open spec fn written_bytes(c: ConnView, ns: Seq<usize>) -> Seq<u8>
    decreases ns.len(),
{
    if ns.len() == 0 {
        Seq::empty()
    } else {
        response_spec().subrange(c.wpos, c.wpos + ns.first()) + written_bytes(
            write_step(c, ns.first() as int),
            ns.drop_first(),
        )
    }
}

/// The total byte count of a sequence of write counts.
pub open spec fn count_sum(ns: Seq<usize>) -> int
    decreases ns.len(),
{
    if ns.len() == 0 {
        0int
    } else {
        ns.first() + count_sum(ns.drop_first())
    }
}

/// Bytes already present stay found: the delimiter search never loses a
/// match when more bytes are appended after it.
pub proof fn lemma_contains_delim_extend(s: Seq<u8>, t: Seq<u8>)
    requires
        contains_delim(s),
    ensures
        contains_delim(s + t),
{
    let i = choose|i: int| delim_at(s, i);
    assert((s + t).subrange(i, i + 4) =~= s.subrange(i, i + 4));
    assert(delim_at(s + t, i));
}

/// Reads are inert once a connection stopped reading.
proof fn lemma_read_steps_stable(c: ConnView, chunks: Seq<Seq<u8>>)
    requires
        c.state != ConnState::Reading,
    ensures
        read_steps(c, chunks) == c,
    decreases chunks.len(),
{
    if chunks.len() > 0 {
        lemma_read_steps_stable(c, chunks.drop_first());
    }
}

/// Writes are inert once a connection stopped writing.
proof fn lemma_write_steps_stable(c: ConnView, ns: Seq<usize>)
    requires
        c.state != ConnState::Writing,
    ensures
        write_steps(c, ns) == c,
    decreases ns.len(),
{
    if ns.len() > 0 {
        lemma_write_steps_stable(c, ns.drop_first());
    }
}

/// All-positive write counts sum to at least one byte per write.
proof fn lemma_count_sum_at_least(ns: Seq<usize>)
    requires
        forall|k: int| 0 <= k < ns.len() ==> ns[k] > 0,
    ensures
        count_sum(ns) >= ns.len(),
    decreases ns.len(),
{
    if ns.len() > 0 {
        assert(forall|k: int| 0 <= k < ns.drop_first().len() ==> ns.drop_first()[k] == ns[k + 1]);
        lemma_count_sum_at_least(ns.drop_first());
    }
}

/// Law: a request delimiter split across any number of reads still turns
/// the connection `Writing`. Accumulation is order-preserving, so as long
/// as every read brings at least one byte, the whole fits the fixed
/// buffer, and the accumulated bytes eventually contain the delimiter, the
/// machine reaches the `Writing` state — the delimiter never has to arrive
/// within a single I/O event.
pub proof fn lemma_split_reads_reach_writing(c: ConnView, chunks: Seq<Seq<u8>>)
    requires
        c.state == ConnState::Reading,
        !contains_delim(c.rbuf),
        forall|k: int| 0 <= k < chunks.len() ==> #[trigger] chunks[k].len() > 0,
        c.rbuf.len() + concat_chunks(chunks).len() <= RBUF_CAP,
        contains_delim(c.rbuf + concat_chunks(chunks)),
    ensures
        read_steps(c, chunks).state == ConnState::Writing,
    decreases chunks.len(),
{
    if chunks.len() == 0 {
        assert(c.rbuf + concat_chunks(chunks) =~= c.rbuf);
        assert(false);
    } else {
        let b = chunks.first();
        let rest = chunks.drop_first();
        assert(chunks[0].len() > 0);
        assert(forall|k: int| 0 <= k < rest.len() ==> rest[k] == chunks[k + 1]);
        let nb = c.rbuf + b;
        assert(c.rbuf + concat_chunks(chunks) =~= nb + concat_chunks(rest));
        let c1 = read_step(c, b);
        if contains_delim(nb) {
            assert(c1.state == ConnState::Writing);
            lemma_read_steps_stable(c1, rest);
        } else {
            if nb.len() == RBUF_CAP {
                // the later chunks would overrun the buffer unless there
                // are none, and then the delimiter would already be here
                if rest.len() > 0 {
                    assert(concat_chunks(rest).len() >= rest.first().len());
                    assert(false);
                } else {
                    assert(nb + concat_chunks(rest) =~= nb);
                    assert(false);
                }
            }
            assert(c1 == (ConnView { rbuf: nb, ..c }));
            lemma_split_reads_reach_writing(c1, rest);
        }
    }
}

/// Law: reads accumulate in arrival order. While no delimiter has arrived
/// and the buffer is not exhausted, the buffer after any sequence of reads
/// is exactly the bytes before plus every chunk, concatenated in order.
pub proof fn lemma_reads_accumulate_in_order(c: ConnView, chunks: Seq<Seq<u8>>)
    requires
        c.state == ConnState::Reading,
        forall|k: int| 0 <= k < chunks.len() ==> #[trigger] chunks[k].len() > 0,
        c.rbuf.len() + concat_chunks(chunks).len() < RBUF_CAP,
        !contains_delim(c.rbuf + concat_chunks(chunks)),
    ensures
        read_steps(c, chunks).state == ConnState::Reading,
        read_steps(c, chunks).rbuf == c.rbuf + concat_chunks(chunks),
        read_steps(c, chunks).interest == c.interest,
        read_steps(c, chunks).timer == c.timer,
    decreases chunks.len(),
{
    if chunks.len() == 0 {
        assert(c.rbuf + concat_chunks(chunks) =~= c.rbuf);
    } else {
        let b = chunks.first();
        let rest = chunks.drop_first();
        assert(chunks[0].len() > 0);
        assert(forall|k: int| 0 <= k < rest.len() ==> rest[k] == chunks[k + 1]);
        let nb = c.rbuf + b;
        assert(c.rbuf + concat_chunks(chunks) =~= nb + concat_chunks(rest));
        if contains_delim(nb) {
            lemma_contains_delim_extend(nb, concat_chunks(rest));
            assert(false);
        }
        let c1 = read_step(c, b);
        assert(c1 == (ConnView { rbuf: nb, ..c }));
        lemma_reads_accumulate_in_order(c1, rest);
    }
}

/// Law: a response split into any number of positive partial writes is
/// delivered byte-exactly, in order, and then the connection closes: the
/// peer receives precisely the pending tail of the canned response before
/// the socket goes away.
pub proof fn lemma_partial_writes_round_trip(c: ConnView, ns: Seq<usize>)
    requires
        c.state == ConnState::Writing,
        0 <= c.wpos,
        ns.len() > 0,
        forall|k: int| 0 <= k < ns.len() ==> ns[k] > 0,
        c.wpos + count_sum(ns) == RESPONSE_LEN,
    ensures
        write_steps(c, ns).state == ConnState::Closed,
        write_steps(c, ns).wpos == RESPONSE_LEN,
        written_bytes(c, ns) == response_spec().subrange(c.wpos, RESPONSE_LEN as int),
    decreases ns.len(),
{
    let n = ns.first();
    let rest = ns.drop_first();
    assert(ns[0] > 0);
    assert(forall|k: int| 0 <= k < rest.len() ==> rest[k] == ns[k + 1]);
    lemma_count_sum_at_least(rest);
    let c1 = write_step(c, n as int);
    if c.wpos + n == RESPONSE_LEN {
        // the remaining counts sum to zero, so there are none
        assert(count_sum(rest) == 0);
        if rest.len() > 0 {
            assert(false);
        }
        lemma_write_steps_stable(c1, rest);
        assert(written_bytes(c1, rest) == Seq::<u8>::empty());
        assert(written_bytes(c, ns) == response_spec().subrange(c.wpos, c.wpos + n)
            + written_bytes(c1, rest));
        assert(written_bytes(c, ns) =~= response_spec().subrange(c.wpos, RESPONSE_LEN as int));
    } else {
        assert(c1 == (ConnView { wpos: c.wpos + n, ..c }));
        assert(rest.len() > 0);
        lemma_partial_writes_round_trip(c1, rest);
        assert(written_bytes(c, ns) =~= response_spec().subrange(c.wpos, c.wpos + n)
            + response_spec().subrange(c.wpos + n, RESPONSE_LEN as int));
        assert(written_bytes(c, ns) =~= response_spec().subrange(c.wpos, RESPONSE_LEN as int));
    }
}

} // verus!
