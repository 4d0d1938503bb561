//! Laws of the receiver: universe synchronisation, the waiting data and
//! universe discovery, stated over the steps that handling a packet takes.
use vstd::prelude::*;

use crate::packet::{DataPacketModel, SynchronizationPacketFramingLayer};
use crate::packet::DiscoveryPacketModel;
use crate::receive::{
    discovery_packet_step, all_pages_present, has_page, terminate_in,
    all_universes, data_packet_step, first_named, first_waiting, htp_merge, htp_mergeable, htp_values,
    lemma_first_named_le, pages_without,
    store_waiting, sync_packet_step, syncs_elsewhere, syncs_on, update_sources, DmxModel, PageModel,
    ReceiverModel, SourceModel, NO_SYNC_ADDR,
};

verus! {

/// No two pieces of waiting data share a universe and a synchronisation universe.
pub open spec fn waiting_keys_unique(w: Seq<DmxModel>) -> bool {
    forall|i: int, j: int|
        0 <= i < j < w.len() ==> !(w[i].universe == w[j].universe && w[i].sync_uni == w[j].sync_uni)
}

/// No two sources share a name.
pub open spec fn names_unique(s: Seq<SourceModel>) -> bool {
    forall|i: int, j: int| 0 <= i < j < s.len() ==> s[i].name != s[j].name
}

/// `first_waiting` is a position of the sequence, or its length, and the
/// data there has the universe and synchronisation universe looked for.
proof fn lemma_first_waiting_le(w: Seq<DmxModel>, universe: u16, sync_uni: u16)
    ensures
        first_waiting(w, universe, sync_uni) <= w.len(),
        first_waiting(w, universe, sync_uni) < w.len() ==> w[first_waiting(w, universe, sync_uni) as int].universe
            == universe && w[first_waiting(w, universe, sync_uni) as int].sync_uni == sync_uni,
        forall|j: int|
            0 <= j < first_waiting(w, universe, sync_uni) ==> !(w[j].universe == universe && w[j].sync_uni
                == sync_uni),
    decreases w.len(),
{
    if w.len() > 0 && !(w[0].universe == universe && w[0].sync_uni == sync_uni) {
        lemma_first_waiting_le(w.drop_first(), universe, sync_uni);
        assert forall|j: int|
            0 <= j < first_waiting(w, universe, sync_uni) implies !(w[j].universe == universe && w[j].sync_uni
            == sync_uni) by {
            if j > 0 {
                assert(w[j] == w.drop_first()[j - 1]);
            }
        }
    }
}

/// Storing data for synchronisation keeps at most one piece of waiting data
/// per universe and synchronisation universe: new data of a universe already
/// waiting for the same synchronisation universe is merged into it.
pub proof fn lemma_store_keeps_keys_unique(w: Seq<DmxModel>, d: DmxModel)
    requires
        waiting_keys_unique(w),
    ensures
        waiting_keys_unique(store_waiting(w, d)),
{
    lemma_first_waiting_le(w, d.universe, d.sync_uni);
}

/// Releasing on a synchronization packet keeps at most one piece of waiting
/// data per universe and synchronisation universe.
pub proof fn lemma_sync_keeps_keys_unique(m: ReceiverModel, s: SynchronizationPacketFramingLayer)
    requires
        waiting_keys_unique(m.waiting_data),
    ensures
        waiting_keys_unique(sync_packet_step(m, s).0.waiting_data),
{
    let w = m.waiting_data;
    let f = syncs_elsewhere(s.synchronization_address);
    let kept = w.filter(f);
    assert forall|i: int, j: int| 0 <= i < j < kept.len() implies !(kept[i].universe == kept[j].universe
        && kept[i].sync_uni == kept[j].sync_uni) by {
        lemma_filter_index_order(w, f, i, j);
    }
}

/// Two positions of a filtered sequence come from two positions of the
/// sequence in the same order.
proof fn lemma_filter_index_order(w: Seq<DmxModel>, f: spec_fn(DmxModel) -> bool, i: int, j: int)
    requires
        0 <= i < j < w.filter(f).len(),
    ensures
        exists|a: int, b: int| 0 <= a < b < w.len() && w[a] == w.filter(f)[i] && w[b] == w.filter(f)[j],
    decreases w.len(),
{
    reveal(Seq::filter);
    let p = w.drop_last().filter(f);
    if f(w.last()) {
        assert(w.filter(f) == p.push(w.last()));
        if j == p.len() {
            w.drop_last().lemma_filter_contains_rev(f, p[i]);
            assert(p.contains(p[i]));
            let a = choose|a: int| 0 <= a < w.drop_last().len() && w.drop_last()[a] == p[i];
            assert(w[a] == w.filter(f)[i]);
            assert(w[w.len() - 1] == w.filter(f)[j]);
        } else {
            lemma_filter_index_order(w.drop_last(), f, i, j);
            let (a, b) = choose|a: int, b: int|
                0 <= a < b < w.drop_last().len() && w.drop_last()[a] == p[i] && w.drop_last()[b] == p[j];
            assert(w[a] == w.filter(f)[i] && w[b] == w.filter(f)[j]);
        }
    } else {
        assert(w.filter(f) == p);
        lemma_filter_index_order(w.drop_last(), f, i, j);
        let (a, b) = choose|a: int, b: int|
            0 <= a < b < w.drop_last().len() && w.drop_last()[a] == p[i] && w.drop_last()[b] == p[j];
        assert(w[a] == w.filter(f)[i] && w[b] == w.filter(f)[j]);
    }
}

/// After a synchronization packet nothing waits for its universe any more,
/// and all that it released was waiting for it.
pub proof fn lemma_sync_releases_all(m: ReceiverModel, s: SynchronizationPacketFramingLayer)
    ensures
        forall|i: int|
            0 <= i < sync_packet_step(m, s).0.waiting_data.len() ==> sync_packet_step(m, s).0.waiting_data[i].sync_uni
                != s.synchronization_address,
        sync_packet_step(m, s).1 matches Some(r) ==> forall|i: int|
            0 <= i < r.len() ==> r[i].sync_uni == s.synchronization_address,
{
    let w = m.waiting_data;
    let kept = w.filter(syncs_elsewhere(s.synchronization_address));
    let rel = w.filter(syncs_on(s.synchronization_address));
    assert forall|i: int| 0 <= i < kept.len() implies kept[i].sync_uni != s.synchronization_address by {
        w.lemma_filter_pred(syncs_elsewhere(s.synchronization_address), i);
    }
    assert forall|i: int| 0 <= i < rel.len() implies rel[i].sync_uni == s.synchronization_address by {
        w.lemma_filter_pred(syncs_on(s.synchronization_address), i);
    }
}

/// Data that waits for a synchronisation universe is released by the next
/// synchronization packet on that universe: where no data of its universe
/// waited for that synchronisation universe before, exactly its values come
/// out, and where some did, the highest-takes-precedence merge of the two.
pub proof fn lemma_data_released_by_sync(m: ReceiverModel, d: DataPacketModel, s: SynchronizationPacketFramingLayer)
    requires
        !(d.preview_data && !m.process_preview_data),
        !d.stream_terminated,
        d.synchronization_address != NO_SYNC_ADDR,
        s.synchronization_address == d.synchronization_address,
    ensures
        ({
            let new = DmxModel { universe: d.universe, sync_uni: d.synchronization_address, values: d.property_values };
            let i = first_waiting(m.waiting_data, d.universe, d.synchronization_address);
            let expected = if i < m.waiting_data.len() {
                htp_merge(m.waiting_data[i as int], new)
            } else {
                new
            };
            &&& data_packet_step(m, d).1 is None
            &&& sync_packet_step(data_packet_step(m, d).0, s).1 matches Some(r) && r.contains(expected)
        }),
{
    let new = DmxModel { universe: d.universe, sync_uni: d.synchronization_address, values: d.property_values };
    let w = m.waiting_data;
    let i = first_waiting(w, d.universe, d.synchronization_address);
    lemma_first_waiting_le(w, d.universe, d.synchronization_address);
    let w2 = store_waiting(w, new);
    let expected = if i < w.len() {
        htp_merge(w[i as int], new)
    } else {
        new
    };
    let k = if i < w.len() {
        i as int
    } else {
        w.len() as int
    };
    assert(w2[k] == expected);
    assert(syncs_on(s.synchronization_address)(w2[k]));
    w2.lemma_filter_contains(syncs_on(s.synchronization_address), k);
}

/// Data that needs no synchronisation is released at once, and all the data
/// waiting until then is discarded.
pub proof fn lemma_unsynchronised_data_released(m: ReceiverModel, d: DataPacketModel)
    requires
        !(d.preview_data && !m.process_preview_data),
        !d.stream_terminated,
        d.synchronization_address == NO_SYNC_ADDR,
    ensures
        data_packet_step(m, d).0.waiting_data.len() == 0,
        data_packet_step(m, d).1 == Some(
            seq![DmxModel { universe: d.universe, sync_uni: NO_SYNC_ADDR, values: d.property_values }],
        ),
{
}

/// Recording a discovered source keeps the names of the discovered sources
/// unique, and the source is then the one discovered under its name.
pub proof fn lemma_update_sources_unique(s: Seq<SourceModel>, src: SourceModel)
    requires
        names_unique(s),
    ensures
        names_unique(update_sources(s, src)),
        update_sources(s, src).last() == src,
        first_named(update_sources(s, src), src.name) == update_sources(s, src).len() - 1,
{
    lemma_first_named_le(s, src.name);
    let j = first_named(s, src.name);
    let base = if j < s.len() {
        s.remove(j as int)
    } else {
        s
    };
    assert forall|k: int| 0 <= k < base.len() implies base[k].name != src.name by {
        if j < s.len() {
            if k < j {
                lemma_first_named_prefix(s, src.name, k);
            } else {
                assert(base[k] == s[k + 1]);
                assert(s[j as int].name == src.name);
            }
        } else {
            lemma_first_named_prefix(s, src.name, k);
        }
    }
    let r = base.push(src);
    assert(r == update_sources(s, src));
    lemma_first_named_at(r, src.name, r.len() - 1);
}

/// The sources before `first_named` have other names.
proof fn lemma_first_named_prefix(s: Seq<SourceModel>, name: Seq<char>, k: int)
    requires
        0 <= k < first_named(s, name),
        first_named(s, name) <= s.len(),
    ensures
        s[k].name != name,
    decreases s.len(),
{
    if k > 0 {
        lemma_first_named_prefix(s.drop_first(), name, k - 1);
    }
}

/// A source named `name` preceded only by other names is the first so named.
proof fn lemma_first_named_at(s: Seq<SourceModel>, name: Seq<char>, n: int)
    requires
        0 <= n < s.len(),
        s[n].name == name,
        forall|k: int| 0 <= k < n ==> s[k].name != name,
    ensures
        first_named(s, name) == n,
    decreases s.len(),
{
    if n > 0 {
        lemma_first_named_at(s.drop_first(), name, n - 1);
    }
}

/// After a source stops sending on a universe, none of its pages lists it.
pub proof fn lemma_terminated_universe_gone(pages: Seq<PageModel>, universe: u16)
    ensures
        !all_universes(pages_without(pages, universe)).contains(universe),
    decreases pages.len(),
{
    if pages.len() > 0 {
        let pw = pages_without(pages, universe);
        assert(pw.drop_last() =~= pages_without(pages.drop_last(), universe));
        lemma_terminated_universe_gone(pages.drop_last(), universe);
        let last = pw.last().universes;
        assert(last == pages.last().universes.filter(crate::receive::other_than(universe)));
        if last.contains(universe) {
            let k = last.index_of(universe);
            pages.last().universes.lemma_filter_pred(crate::receive::other_than(universe), k);
        }
        let all = all_universes(pw);
        assert(all == all_universes(pw.drop_last()) + last);
        if all.contains(universe) {
            let k = all.index_of(universe);
            if k < all_universes(pw.drop_last()).len() {
                assert(all_universes(pw.drop_last())[k] == universe);
            } else {
                assert(last[k - all_universes(pw.drop_last()).len()] == universe);
            }
        }
    }
}

/// Every page of a source, from 0 to its last page, has been received.
pub open spec fn source_complete(s: SourceModel) -> bool {
    all_pages_present(s.pages, s.last_page)
}

/// Every source of `s` is complete.
pub open spec fn all_complete(s: Seq<SourceModel>) -> bool {
    forall|i: int| 0 <= i < s.len() ==> source_complete(#[trigger] s[i])
}

/// Removing a universe from pages keeps their page numbers.
proof fn lemma_pages_without_numbers(ps: Seq<PageModel>, universe: u16, last_page: u8)
    requires
        all_pages_present(ps, last_page),
    ensures
        all_pages_present(pages_without(ps, universe), last_page),
{
    let pt = pages_without(ps, universe);
    assert forall|p: int| 0 <= p <= last_page implies #[trigger] has_page(pt, p) by {
        assert(has_page(ps, p));
        let j = choose|j: int| 0 <= j < ps.len() && #[trigger] ps[j].page == p;
        assert(pt[j].page == p);
    }
}

/// Recording a complete source keeps every discovered source complete.
proof fn lemma_update_sources_complete(s: Seq<SourceModel>, src: SourceModel)
    requires
        all_complete(s),
        source_complete(src),
    ensures
        all_complete(update_sources(s, src)),
{
    lemma_first_named_le(s, src.name);
    let j = first_named(s, src.name);
    let r = update_sources(s, src);
    assert forall|i: int| 0 <= i < r.len() implies source_complete(#[trigger] r[i]) by {
        if i < r.len() - 1 {
            if j < s.len() && i >= j {
                assert(r[i] == s[i + 1]);
            } else {
                assert(r[i] == s[i]);
            }
        }
    }
}

/// A source is discovered only once all its pages have been received: a
/// universe discovery packet keeps every discovered source complete.
pub proof fn lemma_discovered_sources_complete(m: ReceiverModel, f: DiscoveryPacketModel, now: u64)
    requires
        all_complete(m.discovered_sources),
    ensures
        all_complete(discovery_packet_step(m, f, now).discovered_sources),
{
    let page = PageModel { page: f.data.page, universes: f.data.universes };
    let i = first_named(m.partially_discovered_sources, f.source_name);
    if i < m.partially_discovered_sources.len() {
        let s = m.partially_discovered_sources[i as int];
        let pages = crate::receive::sort_by_page(s.pages.push(page));
        let s2 = SourceModel { name: s.name, last_page: s.last_page, pages, last_updated: now };
        if all_pages_present(s.pages.push(page), s.last_page) {
            crate::receive::lemma_sort_keeps_pages(s.pages.push(page));
            assert forall|p: int| 0 <= p <= s.last_page implies #[trigger] has_page(pages, p) by {
                assert(has_page(s.pages.push(page), p));
            }
            lemma_update_sources_complete(m.discovered_sources, s2);
        }
    } else {
        let s2 = SourceModel { name: f.source_name, last_page: f.data.last_page, pages: seq![page], last_updated: now };
        if f.data.page == 0 && f.data.page == f.data.last_page {
            assert(s2.pages[0].page == 0);
            assert(has_page(s2.pages, 0));
            lemma_update_sources_complete(m.discovered_sources, s2);
        }
    }
}

/// A stream termination keeps every discovered source complete: it removes
/// universes from pages, never pages.
pub proof fn lemma_termination_keeps_complete(m: ReceiverModel, d: DataPacketModel)
    requires
        all_complete(m.discovered_sources),
    ensures
        all_complete(data_packet_step(m, d).0.discovered_sources),
{
    if !(d.preview_data && !m.process_preview_data) && d.stream_terminated {
        let s = m.discovered_sources;
        let j = first_named(s, d.source_name);
        lemma_first_named_le(s, d.source_name);
        let t = terminate_in(s, d.source_name, d.universe);
        assert forall|i: int| 0 <= i < t.len() implies source_complete(#[trigger] t[i]) by {
            assert(source_complete(s[i]));
            if i == j {
                let ps = s[i].pages;
                let pt = t[i].pages;
                assert(pt == pages_without(ps, d.universe));
                assert(pt.len() == ps.len());
                assert(t[i].last_page == s[i].last_page);
                lemma_pages_without_numbers(ps, d.universe, s[i].last_page);
            } else {
                assert(t[i] == s[i]);
            }
        }
    }
}

/// Highest-takes-precedence merging does not depend on which of two mergeable
/// pieces of data came first, and merging data with itself gives it back.
pub proof fn lemma_htp_merge_order_free(i: DmxModel, n: DmxModel)
    requires
        htp_mergeable(i, n),
    ensures
        htp_mergeable(n, i),
        htp_merge(i, n) == htp_merge(n, i),
        htp_merge(i, i) == i,
{
    assert(htp_values(i.values, n.values) =~= htp_values(n.values, i.values));
    assert(htp_values(i.values, i.values) =~= i.values);
}

/// A synchronization packet for address `s` keeps, in order, exactly the
/// waiting data whose synchronisation universe is another one, releases, in
/// order, exactly the data waiting for `s` (or nothing where none waits), and
/// changes nothing else.
pub proof fn lemma_sync_keeps_other_data(m: ReceiverModel, s: SynchronizationPacketFramingLayer)
    ensures
        sync_packet_step(m, s).0 == (ReceiverModel {
            waiting_data: m.waiting_data.filter(|d: DmxModel| d.sync_uni != s.synchronization_address),
            ..m
        }),
        sync_packet_step(m, s).1 is None <==> forall|i: int|
            0 <= i < m.waiting_data.len() ==> m.waiting_data[i].sync_uni != s.synchronization_address,
        sync_packet_step(m, s).1 matches Some(r) ==> r == m.waiting_data.filter(
            |d: DmxModel| d.sync_uni == s.synchronization_address,
        ),
{
    let a = s.synchronization_address;
    let w = m.waiting_data;
    assert(syncs_elsewhere(a) =~= (|d: DmxModel| d.sync_uni != a));
    assert(syncs_on(a) =~= (|d: DmxModel| d.sync_uni == a));
    let rel = w.filter(syncs_on(a));
    if rel.len() == 0 {
        assert forall|i: int| 0 <= i < w.len() implies w[i].sync_uni != a by {
            if w[i].sync_uni == a {
                w.lemma_filter_contains(syncs_on(a), i);
                assert(rel.contains(w[i]));
            }
        }
    } else {
        let x = rel[0];
        w.lemma_filter_pred(syncs_on(a), 0);
        assert(rel.contains(x));
        w.lemma_filter_contains_rev(syncs_on(a), x);
        let j = choose|j: int| 0 <= j < w.len() && w[j] == x;
        assert(w[j].sync_uni == a);
    }
}

/// Highest-takes-precedence merging of mergeable data: the result is of the
/// same universe and synchronisation universe, as long as the longer of the
/// two, and where both have a value it holds the higher of the two; beyond
/// the end of the shorter it holds the values of the longer.
pub proof fn lemma_htp_merge_takes_highest(i: DmxModel, n: DmxModel)
    requires
        htp_mergeable(i, n),
    ensures
        htp_merge(i, n).universe == i.universe,
        htp_merge(i, n).sync_uni == i.sync_uni,
        htp_merge(i, n).values.len() == if i.values.len() >= n.values.len() {
            i.values.len()
        } else {
            n.values.len()
        },
        forall|k: int|
            0 <= k < i.values.len() && k < n.values.len() ==> {
                let v = #[trigger] htp_merge(i, n).values[k];
                &&& v >= i.values[k]
                &&& v >= n.values[k]
                &&& (v == i.values[k] || v == n.values[k])
            },
        forall|k: int| n.values.len() <= k < i.values.len() ==> #[trigger] htp_merge(i, n).values[k] == i.values[k],
        forall|k: int| i.values.len() <= k < n.values.len() ==> #[trigger] htp_merge(i, n).values[k] == n.values[k],
{
}

} // verus!
