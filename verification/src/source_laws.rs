//! Laws of the source: how data is split over universes, how universe
//! discovery pages cover the universes, and how packets are numbered.
use vstd::prelude::*;

use crate::packet::{DISCOVERY_UNI_PER_PAGE, UNIVERSE_CHANNEL_CAPACITY};
use crate::source::{
    advance, chunk, current_sequence, discovery_pages, is_universe, next_sequence, occurrences_before, page_universes,
    required_universes,
};

verus! {

/// The chunks `0 .. k` of `data`, one after the other.
pub open spec fn chunks_upto(data: Seq<u8>, k: nat) -> Seq<u8>
    decreases k,
{
    if k == 0 {
        Seq::empty()
    } else {
        chunks_upto(data, (k - 1) as nat) + chunk(data, k - 1)
    }
}

/// The first `k` chunks are the first `k * UNIVERSE_CHANNEL_CAPACITY` bytes of the data.
proof fn lemma_chunks_upto(data: Seq<u8>, k: nat)
    requires
        k <= required_universes(data.len()),
    ensures
        chunks_upto(data, k) == data.take(
            if k * UNIVERSE_CHANNEL_CAPACITY <= data.len() {
                (k * UNIVERSE_CHANNEL_CAPACITY) as int
            } else {
                data.len() as int
            },
        ),
    decreases k,
{
    if k > 0 {
        lemma_chunks_upto(data, (k - 1) as nat);
        assert((k - 1) * 513 < data.len()) by (nonlinear_arith)
            requires
                k <= (data.len() + 512) / 513,
                k > 0,
        {}
        assert(k * 513 == (k - 1) * 513 + 513) by (nonlinear_arith);
        assert(chunks_upto(data, k) =~= data.take(
            if k * UNIVERSE_CHANNEL_CAPACITY <= data.len() {
                (k * UNIVERSE_CHANNEL_CAPACITY) as int
            } else {
                data.len() as int
            },
        ));
    }
}

/// The block of data for the universe at position `i` of a send fits a universe.
pub proof fn lemma_chunk_fits(data: Seq<u8>, i: int)
    requires
        0 <= i < required_universes(data.len()),
    ensures
        chunk(data, i).len() <= UNIVERSE_CHANNEL_CAPACITY,
{
    assert(i * 513 < data.len()) by (nonlinear_arith)
        requires
            i < (data.len() + 512) / 513,
            0 <= i,
    {}
    assert((i + 1) * 513 == i * 513 + 513) by (nonlinear_arith);
}

/// Data sent to several universes is split into chunks of
/// UNIVERSE_CHANNEL_CAPACITY bytes, the last shorter where the data runs out:
/// each chunk is nonempty and fits a universe, and the chunks, one after the
/// other, are the data.
pub proof fn lemma_chunks_are_data(data: Seq<u8>)
    ensures
        chunks_upto(data, required_universes(data.len())) == data,
        forall|i: int|
            0 <= i < required_universes(data.len()) ==> 0 < #[trigger] chunk(data, i).len()
                <= UNIVERSE_CHANNEL_CAPACITY,
{
    let n = required_universes(data.len());
    lemma_chunks_upto(data, n);
    assert(n * 513 >= data.len()) by (nonlinear_arith)
        requires
            n == (data.len() + 512) / 513,
    {}
    assert(data.take(data.len() as int) =~= data);
    assert forall|i: int| 0 <= i < n implies 0 < #[trigger] chunk(data, i).len() <= UNIVERSE_CHANNEL_CAPACITY by {
        assert(i * 513 < data.len()) by (nonlinear_arith)
            requires
                0 <= i < n,
                n == (data.len() + 512) / 513,
        {}
        assert((i + 1) * 513 == i * 513 + 513) by (nonlinear_arith);
    }
}

/// The pages `0 .. k` of a universe discovery advert of `us`, one after the other.
pub open spec fn pages_upto(us: Seq<u16>, k: nat) -> Seq<u16>
    decreases k,
{
    if k == 0 {
        Seq::empty()
    } else {
        pages_upto(us, (k - 1) as nat) + page_universes(us, k - 1)
    }
}

/// The first `k` pages list the first `k * DISCOVERY_UNI_PER_PAGE` universes.
proof fn lemma_pages_upto(us: Seq<u16>, k: nat)
    requires
        k <= discovery_pages(us.len()),
    ensures
        pages_upto(us, k) == us.take(
            if k * DISCOVERY_UNI_PER_PAGE <= us.len() {
                (k * DISCOVERY_UNI_PER_PAGE) as int
            } else {
                us.len() as int
            },
        ),
    decreases k,
{
    if k > 0 {
        lemma_pages_upto(us, (k - 1) as nat);
        assert((k - 1) * 512 <= us.len()) by (nonlinear_arith)
            requires
                k <= us.len() / 512 + 1,
                k > 0,
        {}
        assert(k * 512 == (k - 1) * 512 + 512) by (nonlinear_arith);
        assert(pages_upto(us, k) =~= us.take(
            if k * DISCOVERY_UNI_PER_PAGE <= us.len() {
                (k * DISCOVERY_UNI_PER_PAGE) as int
            } else {
                us.len() as int
            },
        ));
    }
}

/// A universe discovery advert lists every universe registered, in order, at
/// most DISCOVERY_UNI_PER_PAGE per page.
pub proof fn lemma_discovery_pages_cover(us: Seq<u16>)
    ensures
        pages_upto(us, discovery_pages(us.len())) == us,
        forall|p: int|
            0 <= p < discovery_pages(us.len()) ==> #[trigger] page_universes(us, p).len() <= DISCOVERY_UNI_PER_PAGE,
{
    let n = discovery_pages(us.len());
    lemma_pages_upto(us, n);
    assert(n * 512 >= us.len()) by (nonlinear_arith)
        requires
            n == us.len() / 512 + 1,
    {}
    assert(us.take(us.len() as int) =~= us);
    assert forall|p: int| 0 <= p < n implies #[trigger] page_universes(us, p).len() <= DISCOVERY_UNI_PER_PAGE by {
        assert(p * 512 <= us.len()) by (nonlinear_arith)
            requires
                0 <= p < n,
                n == us.len() / 512 + 1,
        {}
        assert((p + 1) * 512 == p * 512 + 512) by (nonlinear_arith);
    }
}

/// The sequence numbers after the packets at positions `0 .. k` of `us` have
/// been sent and recorded one by one, each numbered as a send numbers it.
pub open spec fn recorded(m: Map<u16, u8>, us: Seq<u16>, k: nat) -> Map<u16, u8>
    decreases k,
{
    if k == 0 {
        m
    } else {
        recorded(m, us, (k - 1) as nat).insert(
            us[k - 1],
            next_sequence(advance(current_sequence(m, us[k - 1]), occurrences_before(us, k - 1))),
        )
    }
}

/// The number after `advance(s, c)` is `advance(s, c + 1)`.
proof fn lemma_next_advance(s: u8, c: nat)
    ensures
        next_sequence(advance(s, c)) == advance(s, c + 1),
{
    let x = (s + c) % 256;
    assert((s + c + 1) % 256 == (x + 1) % 256) by (nonlinear_arith)
        requires
            x == (s + c) % 256,
    {}
}

/// After the packets at positions `0 .. k` have been recorded, a universe's
/// number has moved on once for each of them on that universe.
proof fn lemma_recorded(m: Map<u16, u8>, us: Seq<u16>, k: nat, u: u16)
    requires
        k <= us.len(),
    ensures
        current_sequence(recorded(m, us, k), u) == advance(current_sequence(m, u), us.take(k as int).filter(is_universe(u)).len()),
    decreases k,
{
    reveal(Seq::filter);
    if k == 0 {
        assert(us.take(0).filter(is_universe(u)) =~= Seq::<u16>::empty());
    } else {
        lemma_recorded(m, us, (k - 1) as nat, u);
        let w = us[k - 1];
        assert(us.take(k as int).drop_last() =~= us.take(k - 1));
        if w == u {
            assert(is_universe(u) =~= is_universe(us[k - 1]));
            lemma_next_advance(current_sequence(m, u), us.take(k - 1).filter(is_universe(u)).len());
        }
    }
}

/// The numbers that a send gives its packets are those that sending them one
/// by one would give: with the packets before it sent and recorded in order,
/// a packet's universe stands at the number that the send gave it.
pub proof fn lemma_send_numbers_consecutive(m: Map<u16, u8>, us: Seq<u16>, i: int)
    requires
        0 <= i < us.len(),
    ensures
        current_sequence(recorded(m, us, i as nat), us[i]) == advance(current_sequence(m, us[i]), occurrences_before(us, i)),
{
    lemma_recorded(m, us, i as nat, us[i]);
}

/// Sequence numbers run 0 to 255 and then start again at 0; each packet
/// recorded sent moves its universe's number on by one.
pub proof fn lemma_sequence_wraps(m: Map<u16, u8>, u: u16, s: u8)
    ensures
        next_sequence(255) == 0,
        s < 255 ==> next_sequence(s) == s + 1,
        current_sequence(m.insert(u, next_sequence(s)), u) == next_sequence(s),
        forall|v: u16| v != u ==> current_sequence(m.insert(u, next_sequence(s)), v) == current_sequence(m, v),
{
}

} // verus!
