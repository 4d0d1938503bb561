//! The law of universe discovery: a source whose pages have all come, in
//! whatever order, is discovered with the universes of its pages in page order.
use vstd::prelude::*;

use crate::packet::DiscoveryPacketModel;
use crate::receive::{
    all_pages_present, discovery_packet_step, first_named, has_page, lemma_first_named, lemma_first_named_le,
    lemma_sort_by_page_len, upper_bound, lemma_sort_by_page_sorted,
    lemma_sort_distinct, lemma_sort_keeps_pages, lemma_sort_sorted_unchanged, sort_by_page,
    update_sources, PageModel, ReceiverModel, SourceModel,
};

verus! {

/// The universe discovery packets `fs` handled one after the other, packet
/// `i` at the time `ts[i]`.
pub open spec fn run_discovery(m: ReceiverModel, fs: Seq<DiscoveryPacketModel>, ts: Seq<u64>) -> ReceiverModel
    decreases fs.len(),
{
    if fs.len() == 0 {
        m
    } else {
        discovery_packet_step(run_discovery(m, fs.drop_last(), ts), fs.last(), ts[fs.len() - 1])
    }
}

/// The page that the packet `f` carries.
pub open spec fn page_of(f: DiscoveryPacketModel) -> PageModel {
    PageModel { page: f.data.page, universes: f.data.universes }
}

/// The pages that the packets `fs` carry, in the order they came.
pub open spec fn pages_of(fs: Seq<DiscoveryPacketModel>) -> Seq<PageModel> {
    fs.map_values(|f: DiscoveryPacketModel| page_of(f))
}

/// Some packet of `fs` carries page `p`.
pub open spec fn carries_page(fs: Seq<DiscoveryPacketModel>, p: int) -> bool {
    exists|j: int| 0 <= j < fs.len() && #[trigger] fs[j].data.page == p
}

/// The index of the packet of `fs` that carries page `p`.
pub open spec fn packet_with_page(fs: Seq<DiscoveryPacketModel>, p: int) -> int {
    choose|j: int| 0 <= j < fs.len() && fs[j].data.page == p
}

/// The pages 0 to `last_page` that the packets `fs` carry, in page order.
pub open spec fn pages_in_order(fs: Seq<DiscoveryPacketModel>, last_page: u8) -> Seq<PageModel> {
    Seq::new(last_page as nat + 1, |p: int| page_of(fs[packet_with_page(fs, p)]))
}

/// The packets `fs` are all the universe discovery packets of one round of
/// the source named `name`: each announces `last_page` as the last page, and
/// each page from 0 to `last_page` comes exactly once.
pub open spec fn one_round(fs: Seq<DiscoveryPacketModel>, name: Seq<char>, last_page: u8) -> bool {
    &&& forall|j: int| 0 <= j < fs.len() ==> (#[trigger] fs[j]).source_name == name
    &&& forall|j: int| 0 <= j < fs.len() ==> (#[trigger] fs[j]).data.last_page == last_page
    &&& forall|j: int| 0 <= j < fs.len() ==> (#[trigger] fs[j]).data.page <= last_page
    &&& forall|i: int, j: int| 0 <= i < j < fs.len() ==> fs[i].data.page != fs[j].data.page
    &&& forall|p: int| 0 <= p <= last_page ==> #[trigger] carries_page(fs, p)
}

/// The partially discovered source after the first `n` packets of the round.
spec fn partial_after(fs: Seq<DiscoveryPacketModel>, name: Seq<char>, last_page: u8, ts: Seq<u64>, n: int) -> SourceModel {
    SourceModel { name, last_page, pages: sort_by_page(pages_of(fs.take(n))), last_updated: ts[n - 1] }
}

/// Sorting a single page gives it back.
proof fn lemma_sort_single(x: PageModel)
    ensures
        sort_by_page(seq![x]) == seq![x],
{
    let e = Seq::<PageModel>::empty();
    assert(seq![x].drop_last() =~= e);
    assert(sort_by_page(e) == e);
    assert(upper_bound(e, x.page) == 0);
    assert(e.insert(0, x) =~= seq![x]);
}

/// A page that some packet carries is among the pages of the packets.
proof fn lemma_page_among(fs: Seq<DiscoveryPacketModel>, n: int, j: int)
    requires
        0 <= j < n <= fs.len(),
    ensures
        has_page(pages_of(fs.take(n)), fs[j].data.page as int),
{
    assert(pages_of(fs.take(n))[j].page == fs[j].data.page);
}

/// Before the last packet of a round, the first `n` packets leave the source
/// partially discovered, with its pages so far sorted by page number.
proof fn lemma_round_prefix(
    m: ReceiverModel,
    fs: Seq<DiscoveryPacketModel>,
    ts: Seq<u64>,
    name: Seq<char>,
    last_page: u8,
    n: int,
)
    requires
        one_round(fs, name, last_page),
        fs.len() == last_page + 1,
        ts.len() == fs.len(),
        first_named(m.partially_discovered_sources, name) == m.partially_discovered_sources.len(),
        1 <= n <= last_page,
    ensures
        run_discovery(m, fs.take(n), ts) == (ReceiverModel {
            partially_discovered_sources: m.partially_discovered_sources.push(
                partial_after(fs, name, last_page, ts, n),
            ),
            ..m
        }),
    decreases n,
{
    let ps = m.partially_discovered_sources;
    let f = fs[n - 1];
    assert(fs.take(n).drop_last() =~= fs.take(n - 1));
    assert(fs.take(n).last() == f);
    let x = page_of(f);
    assert(pages_of(fs.take(n)) =~= pages_of(fs.take(n - 1)).push(x));
    assert(run_discovery(m, fs.take(n), ts) == discovery_packet_step(run_discovery(m, fs.take(n - 1), ts), f, ts[n - 1]));
    if n == 1 {
        assert(fs.take(0) =~= Seq::<DiscoveryPacketModel>::empty());
        assert(run_discovery(m, fs.take(0), ts) == m);
        assert(pages_of(fs.take(0)) =~= Seq::<PageModel>::empty());
        lemma_sort_single(x);
        lemma_first_named_le(ps, name);
        assert(f.source_name == name);
        assert(f.data.last_page == last_page);
        assert(pages_of(fs.take(1)) =~= seq![x]);
    } else {
        lemma_round_prefix(m, fs, ts, name, last_page, n - 1);
        let prev = partial_after(fs, name, last_page, ts, n - 1);
        let ps1 = ps.push(prev);
        lemma_first_named_le(ps, name);
        lemma_first_named(ps1, name, ps.len() as int);
        let sorted_prev = sort_by_page(pages_of(fs.take(n - 1)));
        lemma_sort_by_page_sorted(pages_of(fs.take(n - 1)));
        lemma_sort_by_page_len(pages_of(fs.take(n - 1)));
        lemma_sort_sorted_unchanged(sorted_prev);
        assert(sorted_prev.push(x).drop_last() =~= sorted_prev);
        assert(pages_of(fs.take(n)).drop_last() =~= pages_of(fs.take(n - 1)));
        // the page of the last packet of the round is still missing
        let q = fs[last_page as int].data.page;
        lemma_sort_keeps_pages(pages_of(fs.take(n - 1)));
        if has_page(sorted_prev.push(x), q as int) {
            let j = choose|j: int| 0 <= j < sorted_prev.push(x).len() && #[trigger] sorted_prev.push(x)[j].page == q;
            if j < sorted_prev.len() {
                assert(sorted_prev[j].page == q);
                assert(has_page(sorted_prev, q as int));
                assert(has_page(pages_of(fs.take(n - 1)), q as int));
                let i = choose|i: int| 0 <= i < pages_of(fs.take(n - 1)).len() && #[trigger] pages_of(fs.take(n - 1))[i].page == q;
                assert(fs[i].data.page == q);
            }
            assert(false);
        }
        assert(!all_pages_present(sorted_prev.push(x), last_page));
        assert(ps1.update(ps.len() as int, partial_after(fs, name, last_page, ts, n)) =~= ps.push(
            partial_after(fs, name, last_page, ts, n),
        ));
    }
}

/// Strictly ascending page numbers below `n`, `n` of them, are 0 to `n - 1`.
proof fn lemma_ascending_pages(t: Seq<PageModel>, i: int)
    requires
        forall|a: int, b: int| 0 <= a < b < t.len() ==> t[a].page < t[b].page,
        forall|a: int| 0 <= a < t.len() ==> t[a].page < t.len(),
        0 <= i < t.len(),
    ensures
        t[i].page == i,
{
    lemma_ascending_lower(t, i);
    lemma_ascending_upper(t, i);
}

proof fn lemma_ascending_lower(t: Seq<PageModel>, i: int)
    requires
        forall|a: int, b: int| 0 <= a < b < t.len() ==> t[a].page < t[b].page,
        0 <= i < t.len(),
    ensures
        t[i].page >= i,
    decreases i,
{
    if i > 0 {
        lemma_ascending_lower(t, i - 1);
    }
}

proof fn lemma_ascending_upper(t: Seq<PageModel>, i: int)
    requires
        forall|a: int, b: int| 0 <= a < b < t.len() ==> t[a].page < t[b].page,
        forall|a: int| 0 <= a < t.len() ==> t[a].page < t.len(),
        0 <= i < t.len(),
    ensures
        t[i].page <= i,
    decreases t.len() - i,
{
    if i < t.len() - 1 {
        lemma_ascending_upper(t, i + 1);
    }
}

/// The pages of a whole round, sorted by page number, are its pages in page order.
proof fn lemma_round_sorted(fs: Seq<DiscoveryPacketModel>, name: Seq<char>, last_page: u8)
    requires
        one_round(fs, name, last_page),
        fs.len() == last_page + 1,
    ensures
        sort_by_page(pages_of(fs)) == pages_in_order(fs, last_page),
{
    let s = pages_of(fs);
    assert forall|i: int, j: int| 0 <= i < j < s.len() implies s[i].page != s[j].page by {
        assert(s[i].page == fs[i].data.page && s[j].page == fs[j].data.page);
    }
    lemma_sort_distinct(s);
    let t = sort_by_page(s);
    assert forall|a: int| 0 <= a < t.len() implies t[a].page < t.len() by {
        let j = choose|j: int| #![trigger s[j]] 0 <= j < s.len() && t[a] == s[j];
        assert(s[j].page == fs[j].data.page);
    }
    let w = pages_in_order(fs, last_page);
    assert forall|p: int| 0 <= p < t.len() implies t[p] == w[p] by {
        lemma_ascending_pages(t, p);
        let j = choose|j: int| #![trigger s[j]] 0 <= j < s.len() && t[p] == s[j];
        assert(s[j] == page_of(fs[j]));
        assert(carries_page(fs, p));
        let k = packet_with_page(fs, p);
        assert(fs[k].data.page == p);
        if j != k {
            if j < k {
                assert(fs[j].data.page != fs[k].data.page);
            } else {
                assert(fs[k].data.page != fs[j].data.page);
            }
        }
    }
    assert(t =~= w);
}

/// Universe discovery: once every page from 0 to the last page of a source
/// has come, each exactly once and in whatever order, the source is
/// discovered, and the pages of the discovered source are its pages in page
/// order, so that its universes are those of page 0, then page 1, and so on.
///
/// Where the receiver knew no partially discovered source of that name, the
/// round leaves the partially discovered sources as they were and records
/// the source among the discovered sources (replacing an earlier one of the
/// same name), stamped with the time of the last packet.
pub proof fn lemma_round_discovers_source(
    m: ReceiverModel,
    fs: Seq<DiscoveryPacketModel>,
    ts: Seq<u64>,
    name: Seq<char>,
    last_page: u8,
)
    requires
        one_round(fs, name, last_page),
        fs.len() == last_page + 1,
        ts.len() == fs.len(),
        first_named(m.partially_discovered_sources, name) == m.partially_discovered_sources.len(),
    ensures
        run_discovery(m, fs, ts) == (ReceiverModel {
            discovered_sources: update_sources(
                m.discovered_sources,
                SourceModel {
                    name,
                    last_page,
                    pages: pages_in_order(fs, last_page),
                    last_updated: ts[last_page as int],
                },
            ),
            ..m
        }),
{
    let k = last_page as int;
    let ps = m.partially_discovered_sources;
    lemma_round_sorted(fs, name, last_page);
    assert(fs.take(k + 1) =~= fs);
    assert(fs.drop_last() =~= fs.take(k));
    let f = fs[k];
    let x = page_of(f);
    if k == 0 {
        assert(fs.take(0) =~= Seq::<DiscoveryPacketModel>::empty());
        assert(run_discovery(m, fs.drop_last(), ts) == m);
        assert(pages_of(fs) =~= seq![x]);
        lemma_sort_single(x);
        assert(f.data.page == 0);
    } else {
        lemma_round_prefix(m, fs, ts, name, last_page, k);
        let prev = partial_after(fs, name, last_page, ts, k);
        let ps1 = ps.push(prev);
        lemma_first_named_le(ps, name);
        lemma_first_named(ps1, name, ps.len() as int);
        let sorted_prev = sort_by_page(pages_of(fs.take(k)));
        lemma_sort_by_page_sorted(pages_of(fs.take(k)));
        lemma_sort_by_page_len(pages_of(fs.take(k)));
        lemma_sort_sorted_unchanged(sorted_prev);
        assert(sorted_prev.push(x).drop_last() =~= sorted_prev);
        assert(pages_of(fs).drop_last() =~= pages_of(fs.take(k)));
        assert(pages_of(fs).last() == x);
        lemma_sort_keeps_pages(pages_of(fs.take(k)));
        assert forall|p: int| 0 <= p <= last_page implies #[trigger] has_page(sorted_prev.push(x), p) by {
            assert(carries_page(fs, p));
            let j = choose|j: int| 0 <= j < fs.len() && #[trigger] fs[j].data.page == p;
            if j < k {
                lemma_page_among(fs, k, j);
                assert(has_page(sorted_prev, p));
                let i = choose|i: int| 0 <= i < sorted_prev.len() && #[trigger] sorted_prev[i].page == p;
                assert(sorted_prev.push(x)[i].page == p);
            } else {
                assert(sorted_prev.push(x)[sorted_prev.len() as int].page == p);
            }
        }
        assert(ps1.remove(ps.len() as int) =~= ps);
    }
}

} // verus!
