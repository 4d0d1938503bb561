//! The receiver side of sACN: what is done with each received packet.
//!
//! Data waits here for universe synchronisation, universe discovery packets
//! build up the list of discovered sources, and stream termination removes a
//! universe from a discovered source. The socket work is left to the caller,
//! which hands each parsed packet to [`SacnReceiverInternal::handle_packet`].
use vstd::prelude::*;

use crate::error::SacnError;
use crate::packet::{
    strictly_ascending, universe_in_range, AcnRootLayerProtocol, DataPacketFramingLayer, DataPacketModel,
    DiscoveryPacketModel, E131RootLayerData, PacketModel, RootDataModel, SynchronizationPacketFramingLayer,
    UniverseDiscoveryPacketFramingLayer, UniverseDiscoveryPacketUniverseDiscoveryLayer, E131_DISCOVERY_UNIVERSE,
    E131_MAX_MULTICAST_UNIVERSE, UNIVERSE_DISCOVERY_SOURCE_TIMEOUT,
};
use crate::universe_set::insert_universe;

verus! {

/// The size of the buffer used to receive E1.31 packets: the largest packet
/// of ANSI E1.31-2018 Section 8 (1143 bytes) aligned to 64 bits.
pub const RCV_BUF_DEFAULT_SIZE: usize = 1144;

/// The synchronisation address that marks data as needing no synchronisation.
pub const NO_SYNC_ADDR: u16 = 0;

/// The DMX payload size in bytes: 512 slots and the start code.
pub const DMX_PAYLOAD_SIZE: usize = 513;

/// Whether packets sent using unicast are checked for by default.
pub const CHECK_UNICAST_DEFAULT: bool = false;

/// Whether packets sent using multicast are checked for by default.
pub const CHECK_MUTLICAST_DEFAULT: bool = true;

/// Whether packets sent using broadcast are checked for by default.
pub const CHECK_BROADCAST_DEFAULT: bool = false;

/// The default poll period of the receiver, in milliseconds.
pub const DEFAULT_RECV_POLL_PERIOD: u64 = 1000;

/// Whether preview data is processed by default.
pub const PROCESS_PREVIEW_DATA_DEFAULT: bool = false;

/// The default read timeout of a receiving socket, in milliseconds.
pub const DEFAULT_RECV_TIMEOUT: u64 = 500;

/// The data of one universe as received.
///
/// Ordered by universe, then synchronisation universe, then values.
#[derive(Debug, Clone, PartialEq, Eq, PartialOrd, Ord)]
pub struct DMXData {
    /// The universe the data was sent on.
    pub universe: u16,
    /// The universe the data waits for a synchronisation packet on; 0 when it waits for none.
    pub sync_uni: u16,
    /// The values: the start code and the DMX slots.
    pub values: Vec<u8>,
}

/// The model of a universe's data.
pub struct DmxModel {
    pub universe: u16,
    pub sync_uni: u16,
    pub values: Seq<u8>,
}

impl View for DMXData {
    type V = DmxModel;

    open spec fn view(&self) -> DmxModel {
        DmxModel { universe: self.universe, sync_uni: self.sync_uni, values: self.values@ }
    }
}

/// The models of a sequence of universe data.
pub open spec fn dmx_models(s: Seq<DMXData>) -> Seq<DmxModel> {
    s.map_values(|d: DMXData| d@)
}

/// Two pieces of data can be merged highest-takes-precedence: both hold a
/// start code, and the universe, start code and synchronisation universe agree.
pub open spec fn htp_mergeable(i: DmxModel, n: DmxModel) -> bool {
    &&& i.values.len() >= 1
    &&& n.values.len() >= 1
    &&& i.universe == n.universe
    &&& i.values[0] == n.values[0]
    &&& i.sync_uni == n.sync_uni
}

/// The highest-takes-precedence merge of two value sequences: slot by slot
/// the higher value, and the values of the longer beyond the end of the shorter.
pub open spec fn htp_values(a: Seq<u8>, b: Seq<u8>) -> Seq<u8> {
    Seq::new(
        if a.len() >= b.len() { a.len() } else { b.len() },
        |k: int|
            if k < a.len() && k < b.len() {
                if a[k] >= b[k] { a[k] } else { b[k] }
            } else if k < a.len() {
                a[k]
            } else {
                b[k]
            },
    )
}

/// The highest-takes-precedence merge of existing data `i` with new data `n`.
pub open spec fn htp_merge(i: DmxModel, n: DmxModel) -> DmxModel {
    DmxModel { universe: i.universe, sync_uni: i.sync_uni, values: htp_values(i.values, n.values) }
}

/// Performs a highest-takes-precedence (HTP) merge of DMX data.
///
/// `i` is the existing data and `n` the new data; the result holds, slot by
/// slot, the higher of the two values, and the values of the longer beyond
/// the end of the shorter.
///
/// # Errors
/// InvalidInput: returned if either holds no values, or the universes, start
/// codes or synchronisation universes differ.
pub fn htp_dmx_merge(i: &DMXData, n: &DMXData) -> (r: Result<DMXData, SacnError>)
    ensures
        r is Ok <==> htp_mergeable(i@, n@),
        r is Err ==> r == Err::<DMXData, SacnError>(SacnError::InvalidInput),
        r matches Ok(m) ==> m@ == htp_merge(i@, n@),
{
    if i.values.len() < 1 || n.values.len() < 1 || i.universe != n.universe || i.values[0] != n.values[0]
        || i.sync_uni != n.sync_uni {
        return Err(SacnError::InvalidInput);
    }
    let ghost target = htp_values(i.values@, n.values@);
    let il = i.values.len();
    let nl = n.values.len();
    let total = if il >= nl { il } else { nl };
    let mut values: Vec<u8> = Vec::with_capacity(total);
    let mut k: usize = 0;
    while k < total
        invariant
            0 <= k <= total,
            il == i.values@.len(),
            nl == n.values@.len(),
            total == target.len(),
            target == htp_values(i.values@, n.values@),
            values@ == target.take(k as int),
        decreases total - k,
    {
        let v = if k < il && k < nl {
            let a = i.values[k];
            let b = n.values[k];
            if a >= b { a } else { b }
        } else if k < il {
            i.values[k]
        } else {
            n.values[k]
        };
        values.push(v);
        k = k + 1;
        assert(values@ =~= target.take(k as int));
    }
    assert(values@ =~= target);
    Ok(DMXData { universe: i.universe, sync_uni: i.sync_uni, values })
}

/// One page of the universes that a source announced in universe discovery.
#[derive(Debug, Clone, PartialEq, Eq, PartialOrd, Ord)]
pub struct UniversePage {
    /// The page number.
    pub page: u8,
    /// The universes that the source transmits, as listed on this page.
    pub universes: Vec<u16>,
}

/// A source found through universe discovery.
#[derive(Debug, Clone)]
pub struct DiscoveredSacnSource {
    /// The name of the source; the protocol does not guarantee that it is unique.
    pub name: String,
    /// The last page that the source sends.
    pub last_page: u8,
    /// The pages received from the source.
    pub pages: Vec<UniversePage>,
    /// When the source was last heard of, in milliseconds of a monotonic clock.
    pub last_updated: u64,
}

/// The model of a universe page.
pub struct PageModel {
    pub page: u8,
    pub universes: Seq<u16>,
}

impl View for UniversePage {
    type V = PageModel;

    open spec fn view(&self) -> PageModel {
        PageModel { page: self.page, universes: self.universes@ }
    }
}

/// The model of a discovered source.
pub struct SourceModel {
    pub name: Seq<char>,
    pub last_page: u8,
    pub pages: Seq<PageModel>,
    pub last_updated: u64,
}

/// The models of a sequence of universe pages.
pub open spec fn page_models(s: Seq<UniversePage>) -> Seq<PageModel> {
    s.map_values(|p: UniversePage| p@)
}

impl View for DiscoveredSacnSource {
    type V = SourceModel;

    open spec fn view(&self) -> SourceModel {
        SourceModel {
            name: self.name@,
            last_page: self.last_page,
            pages: page_models(self.pages@),
            last_updated: self.last_updated,
        }
    }
}

/// The models of a sequence of discovered sources.
pub open spec fn source_models(s: Seq<DiscoveredSacnSource>) -> Seq<SourceModel> {
    s.map_values(|d: DiscoveredSacnSource| d@)
}

/// The number of pages at the start of `s` numbered at most `p`, up to the
/// first page numbered higher.
pub open spec fn upper_bound(s: Seq<PageModel>, p: u8) -> nat
    decreases s.len(),
{
    if s.len() == 0 {
        0
    } else if s[0].page > p {
        0
    } else {
        1 + upper_bound(s.drop_first(), p)
    }
}

/// `x` inserted into `s` after the pages numbered at most its own page.
pub open spec fn insert_by_page(s: Seq<PageModel>, x: PageModel) -> Seq<PageModel> {
    s.insert(upper_bound(s, x.page) as int, x)
}

/// `s` sorted by page number, pages of equal number kept in the order they came in.
pub open spec fn sort_by_page(s: Seq<PageModel>) -> Seq<PageModel>
    decreases s.len(),
{
    if s.len() == 0 {
        Seq::empty()
    } else {
        insert_by_page(sort_by_page(s.drop_last()), s.last())
    }
}

/// Some page of `pages` is numbered `p`.
pub open spec fn has_page(pages: Seq<PageModel>, p: int) -> bool {
    exists|j: int| 0 <= j < pages.len() && #[trigger] pages[j].page == p
}

/// Every page number from 0 to `last_page` occurs among `pages`; pages that
/// came more than once, and pages past the last, do not matter.
pub open spec fn all_pages_present(pages: Seq<PageModel>, last_page: u8) -> bool {
    forall|p: int| 0 <= p <= last_page ==> #[trigger] has_page(pages, p)
}

/// The universes of a sequence of pages, page after page.
pub open spec fn all_universes(pages: Seq<PageModel>) -> Seq<u16>
    decreases pages.len(),
{
    if pages.len() == 0 {
        Seq::empty()
    } else {
        all_universes(pages.drop_last()) + pages.last().universes
    }
}

/// The test that keeps every universe but `universe`.
pub open spec fn other_than(universe: u16) -> spec_fn(u16) -> bool {
    |x: u16| x != universe
}

/// The pages with `universe` removed from each.
pub open spec fn pages_without(pages: Seq<PageModel>, universe: u16) -> Seq<PageModel> {
    pages.map_values(|p: PageModel| PageModel { page: p.page, universes: p.universes.filter(other_than(universe)) })
}

/// `upper_bound` is the first position whose page is numbered higher.
proof fn lemma_upper_bound(s: Seq<PageModel>, p: u8, n: int)
    requires
        0 <= n <= s.len(),
        forall|j: int| 0 <= j < n ==> s[j].page <= p,
        n < s.len() ==> s[n].page > p,
    ensures
        upper_bound(s, p) == n,
    decreases s.len(),
{
    if n > 0 {
        lemma_upper_bound(s.drop_first(), p, n - 1);
    }
}

/// Sorting by page keeps the pages: the same length and the same pages.
pub proof fn lemma_sort_by_page_len(s: Seq<PageModel>)
    ensures
        sort_by_page(s).len() == s.len(),
        sort_by_page(s).to_multiset() == s.to_multiset(),
    decreases s.len(),
{
    broadcast use vstd::seq_lib::group_to_multiset_ensures;

    if s.len() > 0 {
        lemma_sort_by_page_len(s.drop_last());
        let t = sort_by_page(s.drop_last());
        lemma_upper_bound_le(t, s.last().page);
        vstd::seq_lib::lemma_seq_union_to_multiset_commutative(t.take(upper_bound(t, s.last().page) as int), t.skip(upper_bound(t, s.last().page) as int));
        assert(s =~= s.drop_last().push(s.last()));
        let k = upper_bound(t, s.last().page) as int;
        assert(t.insert(k, s.last()) =~= t.take(k).push(s.last()) + t.skip(k));
        assert(t =~= t.take(k) + t.skip(k));
        vstd::seq_lib::lemma_multiset_commutative(t.take(k).push(s.last()), t.skip(k));
        vstd::seq_lib::lemma_multiset_commutative(t.take(k), t.skip(k));
    }
}

/// `upper_bound` is a position of the sequence.
proof fn lemma_upper_bound_le(s: Seq<PageModel>, p: u8)
    ensures
        upper_bound(s, p) <= s.len(),
    decreases s.len(),
{
    if s.len() > 0 {
        lemma_upper_bound_le(s.drop_first(), p);
    }
}

/// Sorting by page gives pages in ascending order of page number.
pub proof fn lemma_sort_by_page_sorted(s: Seq<PageModel>)
    ensures
        forall|i: int, j: int| 0 <= i <= j < s.len() ==> sort_by_page(s)[i].page <= sort_by_page(s)[j].page,
    decreases s.len(),
{
    if s.len() > 0 {
        lemma_sort_by_page_sorted(s.drop_last());
        lemma_sort_by_page_len(s.drop_last());
        let t = sort_by_page(s.drop_last());
        let x = s.last();
        lemma_upper_bound_le(t, x.page);
        lemma_upper_bound_split(t, x.page);
    }
}

/// In a sequence sorted by page, the pages before `upper_bound` are numbered
/// at most `p` and those after it higher.
proof fn lemma_upper_bound_split(t: Seq<PageModel>, p: u8)
    requires
        forall|i: int, j: int| 0 <= i <= j < t.len() ==> t[i].page <= t[j].page,
    ensures
        forall|j: int| 0 <= j < upper_bound(t, p) ==> t[j].page <= p,
        forall|j: int| upper_bound(t, p) <= j < t.len() ==> t[j].page > p,
    decreases t.len(),
{
    if t.len() > 0 {
        lemma_upper_bound_split(t.drop_first(), p);
        lemma_upper_bound_le(t, p);
        assert forall|j: int| 0 <= j < upper_bound(t, p) implies t[j].page <= p by {
            if j > 0 {
                assert(t[j] == t.drop_first()[j - 1]);
            }
        }
        assert forall|j: int| upper_bound(t, p) <= j < t.len() implies t[j].page > p by {
            if t[0].page > p {
                assert(t[0].page <= t[j].page);
            } else {
                assert(upper_bound(t, p) == 1 + upper_bound(t.drop_first(), p));
                assert(t[j] == t.drop_first()[j - 1]);
            }
        }
    }
}

/// Pages in ascending order of page number.
pub open spec fn sorted_by_page(t: Seq<PageModel>) -> bool {
    forall|i: int, j: int| 0 <= i <= j < t.len() ==> t[i].page <= t[j].page
}

/// Sorting pages that are sorted already leaves them as they are.
pub proof fn lemma_sort_sorted_unchanged(t: Seq<PageModel>)
    requires
        sorted_by_page(t),
    ensures
        sort_by_page(t) == t,
    decreases t.len(),
{
    if t.len() > 0 {
        let u = t.drop_last();
        lemma_sort_sorted_unchanged(u);
        lemma_upper_bound(u, t.last().page, u.len() as int);
        assert(u.insert(u.len() as int, t.last()) =~= t);
    }
}

/// Sorting pages whose page numbers all differ gives strictly ascending page
/// numbers, each page being one of the pages sorted.
pub proof fn lemma_sort_distinct(s: Seq<PageModel>)
    requires
        forall|i: int, j: int| 0 <= i < j < s.len() ==> s[i].page != s[j].page,
    ensures
        sort_by_page(s).len() == s.len(),
        forall|i: int, j: int| 0 <= i < j < s.len() ==> sort_by_page(s)[i].page < sort_by_page(s)[j].page,
        forall|i: int| #![trigger sort_by_page(s)[i]] 0 <= i < s.len() ==> exists|j: int| #![trigger s[j]] 0 <= j < s.len() && sort_by_page(s)[i] == s[j],
    decreases s.len(),
{
    lemma_sort_by_page_len(s);
    if s.len() > 0 {
        let s1 = s.drop_last();
        let x = s.last();
        lemma_sort_distinct(s1);
        let t1 = sort_by_page(s1);
        lemma_sort_by_page_sorted(s1);
        lemma_upper_bound_le(t1, x.page);
        lemma_upper_bound_split(t1, x.page);
        let u = upper_bound(t1, x.page) as int;
        let t = sort_by_page(s);
        assert(t == t1.insert(u, x));
        assert forall|a: int| 0 <= a < t1.len() implies t1[a].page != x.page by {
            let j = choose|j: int| #![trigger s1[j]] 0 <= j < s1.len() && t1[a] == s1[j];
            assert(s[j] == s1[j]);
        }
        assert forall|i: int| #![trigger t[i]] 0 <= i < s.len() implies exists|j: int| #![trigger s[j]] 0 <= j < s.len() && t[i] == s[j] by {
            if i < u {
                let j = choose|j: int| #![trigger s1[j]] 0 <= j < s1.len() && t1[i] == s1[j];
                assert(t[i] == s[j]);
            } else if i == u {
                assert(t[i] == s[s.len() - 1]);
            } else {
                let j = choose|j: int| #![trigger s1[j]] 0 <= j < s1.len() && t1[i - 1] == s1[j];
                assert(t[i] == s[j]);
            }
        }
        assert forall|i: int, j: int| 0 <= i < j < s.len() implies t[i].page < t[j].page by {
            if j < u {
                assert(t[i] == t1[i] && t[j] == t1[j]);
            } else if j == u {
                assert(t[i] == t1[i]);
                assert(t1[i].page <= x.page && t1[i].page != x.page);
            } else if i < u {
                assert(t[i] == t1[i] && t[j] == t1[j - 1]);
            } else if i == u {
                assert(t[j] == t1[j - 1]);
            } else {
                assert(t[i] == t1[i - 1] && t[j] == t1[j - 1]);
            }
        }
    }
}

/// Sorting the first `i + 1` pages inserts page `i` into the sorted first `i`.
proof fn lemma_sort_by_page_step(s: Seq<PageModel>, i: int)
    requires
        0 <= i < s.len(),
    ensures
        sort_by_page(s.take(i + 1)) == insert_by_page(sort_by_page(s.take(i)), s[i]),
{
    assert(s.take(i + 1).drop_last() =~= s.take(i));
}

/// The number of pages at the start of `s` numbered at most `p`.
fn upper_bound_exec(s: &Vec<UniversePage>, p: u8) -> (r: usize)
    ensures
        r == upper_bound(page_models(s@), p),
{
    let mut j: usize = 0;
    while j < s.len() && s[j].page <= p
        invariant
            0 <= j <= s@.len(),
            forall|k: int| 0 <= k < j ==> s@[k].page <= p,
        decreases s@.len() - j,
    {
        j = j + 1;
    }
    proof {
        lemma_upper_bound(page_models(s@), p, j as int);
    }
    j
}

/// The universes of the given pages, page after page.
fn universes_of_pages(pages: &Vec<UniversePage>) -> (r: Vec<u16>)
    ensures
        r@ == all_universes(page_models(pages@)),
{
    let mut uni: Vec<u16> = Vec::new();
    let mut i: usize = 0;
    while i < pages.len()
        invariant
            0 <= i <= pages@.len(),
            uni@ == all_universes(page_models(pages@.take(i as int))),
        decreases pages@.len() - i,
    {
        let us = &pages[i].universes;
        let ghost before = uni@;
        let mut j: usize = 0;
        while j < us.len()
            invariant
                0 <= j <= us@.len(),
                uni@ == before + us@.take(j as int),
            decreases us@.len() - j,
        {
            uni.push(us[j]);
            j = j + 1;
            assert(uni@ =~= before + us@.take(j as int));
        }
        proof {
            let ms = page_models(pages@.take(i + 1));
            assert(ms.drop_last() =~= page_models(pages@.take(i as int)));
            assert(us@.take(us@.len() as int) =~= us@);
        }
        i = i + 1;
    }
    assert(pages@.take(pages@.len() as int) =~= pages@);
    uni
}

/// `v` without the occurrences of `universe`.
fn without_universe(v: &Vec<u16>, universe: u16) -> (r: Vec<u16>)
    ensures
        r@ == v@.filter(other_than(universe)),
{
    let mut out: Vec<u16> = Vec::new();
    let mut j: usize = 0;
    while j < v.len()
        invariant
            0 <= j <= v@.len(),
            out@ == v@.take(j as int).filter(other_than(universe)),
        decreases v@.len() - j,
    {
        let x = v[j];
        proof {
            reveal(Seq::filter);
            assert(v@.take(j + 1).drop_last() =~= v@.take(j as int));
        }
        if x != universe {
            out.push(x);
        }
        j = j + 1;
    }
    assert(v@.take(v@.len() as int) =~= v@);
    out
}

/// The pages sorted by page number, pages of equal number kept in the order they came.
fn sort_pages(v: Vec<UniversePage>) -> (r: Vec<UniversePage>)
    ensures
        page_models(r@) == sort_by_page(page_models(v@)),
{
    let mut rest = v;
    let ghost orig = rest@;
    let ghost models = page_models(orig);
    let mut sorted: Vec<UniversePage> = Vec::new();
    let ghost mut i: int = 0;
    assert(models.take(0) =~= Seq::<PageModel>::empty());
    assert(page_models(sorted@) =~= Seq::<PageModel>::empty());
    while rest.len() > 0
        invariant
            0 <= i <= orig.len(),
            models == page_models(orig),
            page_models(sorted@) == sort_by_page(models.take(i)),
            rest@ == orig.skip(i),
        decreases rest@.len(),
    {
        let x = rest.remove(0);
        let k = upper_bound_exec(&sorted, x.page);
        let ghost before = sorted@;
        proof {
            lemma_upper_bound_le(page_models(sorted@), x.page);
            lemma_sort_by_page_step(models, i);
        }
        sorted.insert(k, x);
        proof {
            assert(page_models(sorted@) =~= page_models(before).insert(k as int, x@));
            i = i + 1;
        }
        assert(rest@ =~= orig.skip(i));
    }
    assert(models.take(i) =~= models);
    sorted
}

/// Sorting by page keeps the page numbers that occur.
pub proof fn lemma_sort_keeps_pages(s: Seq<PageModel>)
    ensures
        forall|p: int| #[trigger] has_page(sort_by_page(s), p) <==> has_page(s, p),
{
    broadcast use vstd::seq_lib::group_to_multiset_ensures;

    lemma_sort_by_page_len(s);
    let t = sort_by_page(s);
    assert forall|p: int| #[trigger] has_page(t, p) <==> has_page(s, p) by {
        if has_page(t, p) {
            let j = choose|j: int| 0 <= j < t.len() && #[trigger] t[j].page == p;
            assert(t.contains(t[j]));
            assert(t.to_multiset().count(t[j]) > 0);
            assert(s.contains(t[j]));
        }
        if has_page(s, p) {
            let j = choose|j: int| 0 <= j < s.len() && #[trigger] s[j].page == p;
            assert(s.contains(s[j]));
            assert(s.to_multiset().count(s[j]) > 0);
            assert(t.contains(s[j]));
        }
    }
}

/// Whether some page of `pages` is numbered `p`.
fn contains_page(pages: &Vec<UniversePage>, p: u8) -> (r: bool)
    ensures
        r == has_page(page_models(pages@), p as int),
{
    let mut j: usize = 0;
    while j < pages.len()
        invariant
            0 <= j <= pages@.len(),
            forall|k: int| 0 <= k < j ==> pages@[k].page != p,
        decreases pages@.len() - j,
    {
        if pages[j].page == p {
            assert(page_models(pages@)[j as int].page == p);
            return true;
        }
        j = j + 1;
    }
    proof {
        if has_page(page_models(pages@), p as int) {
            let k = choose|k: int| 0 <= k < page_models(pages@).len() && #[trigger] page_models(pages@)[k].page == p;
            assert(pages@[k].page == p);
        }
    }
    false
}

/// Whether every page number from 0 to `last_page` occurs among `pages`.
fn pages_present(pages: &Vec<UniversePage>, last_page: u8) -> (r: bool)
    ensures
        r == all_pages_present(page_models(pages@), last_page),
{
    let mut p: u16 = 0;
    while p <= last_page as u16
        invariant
            p <= last_page as u16 + 1,
            forall|q: int| 0 <= q < p ==> #[trigger] has_page(page_models(pages@), q),
        decreases last_page as u16 + 1 - p,
    {
        if !contains_page(pages, p as u8) {
            return false;
        }
        p = p + 1;
    }
    true
}

impl DiscoveredSacnSource {
    /// Sorts the pages by page number and tells whether every page number
    /// from 0 to the last page has been received.
    ///
    /// The pages stay sorted (pages with equal numbers in the order they
    /// came). A page received more than once counts once.
    pub fn has_all_pages(&mut self) -> (r: bool)
        ensures
            final(self)@.pages == sort_by_page(old(self)@.pages),
            final(self).name == old(self).name,
            final(self).last_page == old(self).last_page,
            final(self).last_updated == old(self).last_updated,
            r == all_pages_present(old(self)@.pages, old(self).last_page),
    {
        let r = pages_present(&self.pages, self.last_page);
        let mut rest: Vec<UniversePage> = Vec::new();
        core::mem::swap(&mut rest, &mut self.pages);
        self.pages = sort_pages(rest);
        r
    }

    /// The universes of all the pages received, page after page.
    pub fn get_all_universes(&self) -> (r: Vec<u16>)
        ensures
            r@ == all_universes(self@.pages),
    {
        universes_of_pages(&self.pages)
    }

    /// Removes the given universe from every page.
    #[verifier::loop_isolation(false)]
    pub fn terminate_universe(&mut self, universe: u16)
        ensures
            final(self)@.pages == pages_without(old(self)@.pages, universe),
            final(self).name == old(self).name,
            final(self).last_page == old(self).last_page,
            final(self).last_updated == old(self).last_updated,
    {
        let mut rest: Vec<UniversePage> = Vec::new();
        core::mem::swap(&mut rest, &mut self.pages);
        let ghost orig = rest@;
        let mut done: Vec<UniversePage> = Vec::new();
        let mut i: usize = 0;
        let n = rest.len();
        while i < n
            invariant
                0 <= i <= n,
                n == orig.len(),
                page_models(done@) == pages_without(page_models(orig.take(i as int)), universe),
            decreases n - i,
        {
            let p = &rest[i];
            let universes = without_universe(&p.universes, universe);
            let ghost prev = done@;
            let np = UniversePage { page: p.page, universes };
            done.push(np);
            proof {
                let q = PageModel { page: orig[i as int].page, universes: orig[i as int].universes@.filter(other_than(universe)) };
                assert(np@ == q);
                assert(page_models(done@) =~= page_models(prev).push(np@));
                assert(page_models(orig.take(i + 1)) =~= page_models(orig.take(i as int)).push(orig[i as int]@));
                assert(pages_without(page_models(orig.take(i + 1)), universe) =~= pages_without(
                    page_models(orig.take(i as int)),
                    universe,
                ).push(q));
            }
            i = i + 1;
        }
        assert(orig.take(n as int) =~= orig);
        self.pages = done;
    }
}

/// The index of the first source named `name` in `s`, or the length of `s` where none is.
pub open spec fn first_named(s: Seq<SourceModel>, name: Seq<char>) -> nat
    decreases s.len(),
{
    if s.len() == 0 {
        0
    } else if s[0].name == name {
        0
    } else {
        1 + first_named(s.drop_first(), name)
    }
}

/// `first_named` is the first position holding a source of that name.
pub proof fn lemma_first_named(s: Seq<SourceModel>, name: Seq<char>, n: int)
    requires
        0 <= n <= s.len(),
        forall|j: int| 0 <= j < n ==> s[j].name != name,
        n < s.len() ==> s[n].name == name,
    ensures
        first_named(s, name) == n,
    decreases s.len(),
{
    if n > 0 {
        lemma_first_named(s.drop_first(), name, n - 1);
    }
}

/// `first_named` is a position of the sequence, or its length.
pub proof fn lemma_first_named_le(s: Seq<SourceModel>, name: Seq<char>)
    ensures
        first_named(s, name) <= s.len(),
        first_named(s, name) < s.len() ==> s[first_named(s, name) as int].name == name,
        forall|j: int| 0 <= j < first_named(s, name) ==> s[j].name != name,
    decreases s.len(),
{
    if s.len() > 0 && s[0].name != name {
        lemma_first_named_le(s.drop_first(), name);
        assert forall|j: int| 0 <= j < first_named(s, name) implies s[j].name != name by {
            if j > 0 {
                assert(s[j] == s.drop_first()[j - 1]);
            }
        }
    }
}

/// Searches for the discovered source with the given name and returns its
/// index, or `None` if there is none.
pub fn find_discovered_src(srcs: &Vec<DiscoveredSacnSource>, name: &String) -> (r: Option<usize>)
    ensures
        match r {
            Some(i) => i == first_named(source_models(srcs@), name@) && i < srcs@.len(),
            None => first_named(source_models(srcs@), name@) == srcs@.len(),
        },
{
    let mut i: usize = 0;
    while i < srcs.len()
        invariant
            0 <= i <= srcs@.len(),
            forall|j: int| 0 <= j < i ==> srcs@[j].name@ != name@,
        decreases srcs@.len() - i,
    {
        if srcs[i].name == *name {
            proof {
                lemma_first_named(source_models(srcs@), name@, i as int);
            }
            return Some(i);
        }
        i = i + 1;
    }
    proof {
        lemma_first_named(source_models(srcs@), name@, i as int);
    }
    None
}

/// The index of the first waiting data of `universe` waiting for `sync_uni`,
/// or the length of `w` where none is.
pub open spec fn first_waiting(w: Seq<DmxModel>, universe: u16, sync_uni: u16) -> nat
    decreases w.len(),
{
    if w.len() == 0 {
        0
    } else if w[0].universe == universe && w[0].sync_uni == sync_uni {
        0
    } else {
        1 + first_waiting(w.drop_first(), universe, sync_uni)
    }
}

/// `first_waiting` is the first position holding data of that universe and synchronisation universe.
proof fn lemma_first_waiting(w: Seq<DmxModel>, universe: u16, sync_uni: u16, n: int)
    requires
        0 <= n <= w.len(),
        forall|j: int| 0 <= j < n ==> !(w[j].universe == universe && w[j].sync_uni == sync_uni),
        n < w.len() ==> w[n].universe == universe && w[n].sync_uni == sync_uni,
    ensures
        first_waiting(w, universe, sync_uni) == n,
    decreases w.len(),
{
    if n > 0 {
        lemma_first_waiting(w.drop_first(), universe, sync_uni, n - 1);
    }
}

/// The waiting data after `d` is stored: merged into the first data of the
/// same universe and synchronisation universe, or added at the end.
pub open spec fn store_waiting(w: Seq<DmxModel>, d: DmxModel) -> Seq<DmxModel> {
    let i = first_waiting(w, d.universe, d.sync_uni);
    if i < w.len() {
        w.update(i as int, htp_merge(w[i as int], d))
    } else {
        w.push(d)
    }
}

/// Storing `d` meets waiting data that it cannot be merged with.
pub open spec fn store_refused(w: Seq<DmxModel>, d: DmxModel) -> bool {
    let i = first_waiting(w, d.universe, d.sync_uni);
    i < w.len() && !htp_mergeable(w[i as int], d)
}

/// The data waiting for `sync_uni`.
pub open spec fn syncs_on(sync_uni: u16) -> spec_fn(DmxModel) -> bool {
    |d: DmxModel| d.sync_uni == sync_uni
}

/// The data waiting for another universe than `sync_uni`.
pub open spec fn syncs_elsewhere(sync_uni: u16) -> spec_fn(DmxModel) -> bool {
    |d: DmxModel| d.sync_uni != sync_uni
}

/// The discovered sources after `src` is recorded: an earlier source of the
/// same name is dropped and `src` is added at the end.
pub open spec fn update_sources(s: Seq<SourceModel>, src: SourceModel) -> Seq<SourceModel> {
    let j = first_named(s, src.name);
    (if j < s.len() {
        s.remove(j as int)
    } else {
        s
    }).push(src)
}

/// The discovered sources after the source named `name` stopped sending on `universe`.
pub open spec fn terminate_in(s: Seq<SourceModel>, name: Seq<char>, universe: u16) -> Seq<SourceModel> {
    let j = first_named(s, name);
    if j < s.len() {
        s.update(
            j as int,
            SourceModel {
                name: s[j as int].name,
                last_page: s[j as int].last_page,
                pages: pages_without(s[j as int].pages, universe),
                last_updated: s[j as int].last_updated,
            },
        )
    } else {
        s
    }
}

/// The state of a receiver: the data waiting for synchronisation, the
/// universes listened to, the sources discovered completely and partially,
/// and the two flags.
pub struct ReceiverModel {
    pub waiting_data: Seq<DmxModel>,
    pub universes: Seq<u16>,
    pub discovered_sources: Seq<SourceModel>,
    pub partially_discovered_sources: Seq<SourceModel>,
    pub running: bool,
    pub process_preview_data: bool,
}

/// The models of an optional sequence of data.
pub open spec fn option_models(o: Option<Vec<DMXData>>) -> Option<Seq<DmxModel>> {
    match o {
        Some(v) => Some(dmx_models(v@)),
        None => None,
    }
}

/// What a data packet does to the receiver, and the data it releases.
///
/// Preview data is ignored unless the receiver processes preview data; a
/// stream termination removes the universe from the discovered source of
/// that name; data that needs no synchronisation discards the waiting data
/// and is released at once; other data waits for its synchronisation universe.
pub open spec fn data_packet_step(m: ReceiverModel, d: DataPacketModel) -> (ReceiverModel, Option<Seq<DmxModel>>) {
    if d.preview_data && !m.process_preview_data {
        (m, None)
    } else if d.stream_terminated {
        (ReceiverModel { discovered_sources: terminate_in(m.discovered_sources, d.source_name, d.universe), ..m }, None)
    } else if d.synchronization_address == NO_SYNC_ADDR {
        (
            ReceiverModel { waiting_data: Seq::empty(), ..m },
            Some(seq![DmxModel { universe: d.universe, sync_uni: d.synchronization_address, values: d.property_values }]),
        )
    } else {
        (
            ReceiverModel {
                waiting_data: store_waiting(
                    m.waiting_data,
                    DmxModel { universe: d.universe, sync_uni: d.synchronization_address, values: d.property_values },
                ),
                ..m
            },
            None,
        )
    }
}

/// The data packet is refused: its data waits for synchronisation and
/// cannot be merged with the data already waiting for the same universe and
/// synchronisation universe.
pub open spec fn data_packet_refused(m: ReceiverModel, d: DataPacketModel) -> bool {
    &&& !(d.preview_data && !m.process_preview_data)
    &&& !d.stream_terminated
    &&& d.synchronization_address != NO_SYNC_ADDR
    &&& store_refused(
        m.waiting_data,
        DmxModel { universe: d.universe, sync_uni: d.synchronization_address, values: d.property_values },
    )
}

/// What a synchronization packet does to the receiver, and the data it
/// releases: all the data waiting for its universe, in the order it came.
pub open spec fn sync_packet_step(m: ReceiverModel, s: SynchronizationPacketFramingLayer) -> (ReceiverModel, Option<Seq<DmxModel>>) {
    let released = m.waiting_data.filter(syncs_on(s.synchronization_address));
    (
        ReceiverModel { waiting_data: m.waiting_data.filter(syncs_elsewhere(s.synchronization_address)), ..m },
        if released.len() == 0 {
            None
        } else {
            Some(released)
        },
    )
}

/// What a universe discovery packet received at `now` does to the receiver.
///
/// The page is added to the partially discovered source of that name, whose
/// pages are then sorted; once every page up to its last has come, the source
/// moves to the discovered sources. A source not seen before is discovered at
/// once where the packet is its only page, and is partially discovered otherwise.
pub open spec fn discovery_packet_step(m: ReceiverModel, f: DiscoveryPacketModel, now: u64) -> ReceiverModel {
    let page = PageModel { page: f.data.page, universes: f.data.universes };
    let i = first_named(m.partially_discovered_sources, f.source_name);
    if i < m.partially_discovered_sources.len() {
        let s = m.partially_discovered_sources[i as int];
        let pages = sort_by_page(s.pages.push(page));
        let s2 = SourceModel { name: s.name, last_page: s.last_page, pages, last_updated: now };
        if all_pages_present(s.pages.push(page), s.last_page) {
            ReceiverModel {
                partially_discovered_sources: m.partially_discovered_sources.remove(i as int),
                discovered_sources: update_sources(m.discovered_sources, s2),
                ..m
            }
        } else {
            ReceiverModel { partially_discovered_sources: m.partially_discovered_sources.update(i as int, s2), ..m }
        }
    } else {
        let s2 = SourceModel { name: f.source_name, last_page: f.data.last_page, pages: seq![page], last_updated: now };
        if f.data.page == 0 && f.data.page == f.data.last_page {
            ReceiverModel { discovered_sources: update_sources(m.discovered_sources, s2), ..m }
        } else {
            ReceiverModel { partially_discovered_sources: m.partially_discovered_sources.push(s2), ..m }
        }
    }
}

/// What a packet received at `now` does to the receiver, and the data it releases.
pub open spec fn packet_step(m: ReceiverModel, p: PacketModel, now: u64) -> (ReceiverModel, Option<Seq<DmxModel>>) {
    match p.data {
        RootDataModel::DataPacket(d) => data_packet_step(m, d),
        RootDataModel::SynchronizationPacket(s) => sync_packet_step(m, s),
        RootDataModel::UniverseDiscoveryPacket(f) => (discovery_packet_step(m, f, now), None),
    }
}

/// The packet is refused: it is a data packet whose data cannot be merged
/// with the data waiting (see [`data_packet_refused`]).
pub open spec fn packet_refused(m: ReceiverModel, p: PacketModel) -> bool {
    match p.data {
        RootDataModel::DataPacket(d) => data_packet_refused(m, d),
        _ => false,
    }
}

/// The time since `t` at `now`, on a clock that never runs backwards.
pub open spec fn elapsed(now: u64, t: u64) -> int {
    if now >= t {
        now - t
    } else {
        0
    }
}

/// The source has been heard of within UNIVERSE_DISCOVERY_SOURCE_TIMEOUT of `now`.
pub open spec fn source_current(now: u64) -> spec_fn(SourceModel) -> bool {
    |s: SourceModel| elapsed(now, s.last_updated) < UNIVERSE_DISCOVERY_SOURCE_TIMEOUT
}

/// The protocol state of an sACN receiver.
///
/// The receiver listens to the universes it holds (always in ascending order,
/// without repeats); the caller joins the network groups of those universes
/// and hands every packet received to [`SacnReceiverInternal::handle_packet`].
#[derive(Debug)]
pub struct SacnReceiverInternal {
    waiting_data: Vec<DMXData>,
    universes: Vec<u16>,
    discovered_sources: Vec<DiscoveredSacnSource>,
    partially_discovered_sources: Vec<DiscoveredSacnSource>,
    running: bool,
    process_preview_data: bool,
}

impl View for SacnReceiverInternal {
    type V = ReceiverModel;

    closed spec fn view(&self) -> ReceiverModel {
        ReceiverModel {
            waiting_data: dmx_models(self.waiting_data@),
            universes: self.universes@,
            discovered_sources: source_models(self.discovered_sources@),
            partially_discovered_sources: source_models(self.partially_discovered_sources@),
            running: self.running,
            process_preview_data: self.process_preview_data,
        }
    }
}

impl SacnReceiverInternal {
    /// The universes listened to are in strictly ascending order.
    pub open spec fn wf(&self) -> bool {
        strictly_ascending(self@.universes)
    }

    /// A new receiver: running, listening to the universe discovery universe
    /// only, with nothing waiting or discovered, and not processing preview data.
    pub fn new() -> (r: SacnReceiverInternal)
        ensures
            r.wf(),
            r@ == (ReceiverModel {
                waiting_data: Seq::empty(),
                universes: seq![E131_DISCOVERY_UNIVERSE],
                discovered_sources: Seq::empty(),
                partially_discovered_sources: Seq::empty(),
                running: true,
                process_preview_data: PROCESS_PREVIEW_DATA_DEFAULT,
            }),
    {
        let mut universes: Vec<u16> = Vec::new();
        universes.push(E131_DISCOVERY_UNIVERSE);
        let r = SacnReceiverInternal {
            waiting_data: Vec::new(),
            universes,
            discovered_sources: Vec::new(),
            partially_discovered_sources: Vec::new(),
            running: true,
            process_preview_data: PROCESS_PREVIEW_DATA_DEFAULT,
        };
        assert(r@.waiting_data =~= Seq::<DmxModel>::empty());
        assert(r@.discovered_sources =~= Seq::<SourceModel>::empty());
        assert(r@.partially_discovered_sources =~= Seq::<SourceModel>::empty());
        r
    }

    /// Discards all the data waiting for synchronisation.
    pub fn clear_waiting_data(&mut self)
        ensures
            final(self)@ == (ReceiverModel { waiting_data: Seq::empty(), ..old(self)@ }),
            final(self).wf() == old(self).wf(),
    {
        self.waiting_data.clear();
        assert(self@.waiting_data =~= Seq::<DmxModel>::empty());
    }

    /// Starts listening to the given universes, in addition to those listened
    /// to already, and returns those that are new, in the order given, for
    /// the caller to join their multicast groups.
    ///
    /// # Errors
    /// InvalidInput: returned, with nothing changed, if a universe is outwith
    /// the allowed range of universes (see [`crate::packet::is_universe_in_range`]).
    #[verifier::loop_isolation(false)]
    pub fn listen_universes(&mut self, universes: &[u16]) -> (r: Result<Vec<u16>, SacnError>)
        requires
            old(self).wf(),
        ensures
            final(self).wf(),
            r is Ok <==> (forall|i: int| 0 <= i < universes@.len() ==> universe_in_range(universes@[i])),
            r is Err ==> r == Err::<Vec<u16>, SacnError>(SacnError::InvalidInput) && final(self)@ == old(self)@,
            r is Ok ==> final(self)@.universes.to_set() == old(self)@.universes.to_set() + universes@.to_set(),
            r is Ok ==> final(self)@ == (ReceiverModel { universes: final(self)@.universes, ..old(self)@ }),
            r matches Ok(added) ==> added@ == newly_listened(old(self)@.universes.to_set(), universes@),
    {
        let mut i: usize = 0;
        while i < universes.len()
            invariant
                0 <= i <= universes@.len(),
                forall|j: int| 0 <= j < i ==> universe_in_range(universes@[j]),
            decreases universes@.len() - i,
        {
            let u = universes[i];
            if u != E131_DISCOVERY_UNIVERSE && (u == 0 || u > E131_MAX_MULTICAST_UNIVERSE) {
                return Err(SacnError::InvalidInput);
            }
            i = i + 1;
        }
        let ghost start = self.universes@.to_set();
        let mut added: Vec<u16> = Vec::new();
        let mut k: usize = 0;
        proof {
            assert(universes@.skip(0) =~= universes@);
            assert(added@ + newly_listened(start, universes@) =~= newly_listened(start, universes@));
            assert(universes@.take(0).to_set() =~= Set::<u16>::empty()) by {
                broadcast use vstd::seq_lib::group_seq_properties;
            }
            assert(start + Set::<u16>::empty() =~= start);
        }
        while k < universes.len()
            invariant
                0 <= k <= universes@.len(),
                strictly_ascending(self.universes@),
                self.waiting_data == old(self).waiting_data,
                self.discovered_sources == old(self).discovered_sources,
                self.partially_discovered_sources == old(self).partially_discovered_sources,
                self.running == old(self).running,
                self.process_preview_data == old(self).process_preview_data,
                self.universes@.to_set() == start + universes@.take(k as int).to_set(),
                added@ + newly_listened(self.universes@.to_set(), universes@.skip(k as int)) == newly_listened(
                    start,
                    universes@,
                ),
            decreases universes@.len() - k,
        {
            let u = universes[k];
            let ghost before = self.universes@.to_set();
            let ghost rest = universes@.skip(k as int);
            let is_new = insert_universe(&mut self.universes, u);
            if is_new {
                added.push(u);
            }
            proof {
                assert(rest[0] == u);
                assert(rest.drop_first() =~= universes@.skip(k + 1));
                vstd::seq_lib::seq_to_set_distributes_over_add(universes@.take(k as int), seq![u]);
                assert(universes@.take(k + 1) =~= universes@.take(k as int) + seq![u]);
                assert(seq![u].to_set() =~= set![u]) by {
                    broadcast use vstd::seq_lib::group_seq_properties;
                }
                assert(self.universes@.to_set() =~= start + universes@.take(k + 1).to_set());
                if is_new {
                    assert(!before.contains(u));
                } else {
                    assert(before.contains(u)) by {
                        broadcast use vstd::seq_lib::group_seq_properties;
                    }
                }
            }
            k = k + 1;
        }
        proof {
            assert(universes@.take(k as int) =~= universes@);
            assert(universes@.skip(k as int) =~= Seq::<u16>::empty());
            assert(added@ + Seq::<u16>::empty() =~= added@);
        }
        Ok(added)
    }
}

impl SacnReceiverInternal {
    /// Whether preview data is processed.
    pub fn process_preview_data(&self) -> (r: bool)
        ensures
            r == self@.process_preview_data,
    {
        self.process_preview_data
    }

    /// Sets whether data packets marked as preview data are processed.
    pub fn set_process_preview_data(&mut self, val: bool)
        ensures
            final(self)@ == (ReceiverModel { process_preview_data: val, ..old(self)@ }),
            final(self).wf() == old(self).wf(),
    {
        self.process_preview_data = val;
    }

    /// Whether the receiver is running.
    pub fn is_running(&self) -> (r: bool)
        ensures
            r == self@.running,
    {
        self.running
    }

    /// Terminates the receiver.
    pub fn terminate(&mut self)
        ensures
            final(self)@ == (ReceiverModel { running: false, ..old(self)@ }),
            final(self).wf() == old(self).wf(),
    {
        self.running = false;
    }

    /// The data waiting for synchronisation.
    pub fn waiting_data(&self) -> (r: &Vec<DMXData>)
        ensures
            dmx_models(r@) == self@.waiting_data,
    {
        &self.waiting_data
    }

    /// The universes listened to, in ascending order.
    pub fn universes(&self) -> (r: &Vec<u16>)
        ensures
            r@ == self@.universes,
    {
        &self.universes
    }

    /// The sources discovered completely.
    pub fn discovered_sources(&self) -> (r: &Vec<DiscoveredSacnSource>)
        ensures
            source_models(r@) == self@.discovered_sources,
    {
        &self.discovered_sources
    }

    /// The sources of which some pages of universe discovery have come.
    pub fn partially_discovered_sources(&self) -> (r: &Vec<DiscoveredSacnSource>)
        ensures
            source_models(r@) == self@.partially_discovered_sources,
    {
        &self.partially_discovered_sources
    }

    /// Stores the given data to wait for synchronisation: it is merged
    /// highest-takes-precedence into the first waiting data of the same
    /// universe and synchronisation universe, or added after the others.
    ///
    /// Data of one universe waiting for different synchronisation universes
    /// is kept apart.
    ///
    /// # Errors
    /// The error of the merge (InvalidInput, see [`htp_dmx_merge`]) where the
    /// data cannot be merged with the data waiting (see [`store_refused`]);
    /// the waiting data is then left as it was.
    #[verifier::loop_isolation(false)]
    pub fn store_waiting_data(&mut self, data: DMXData) -> (r: Result<(), SacnError>)
        ensures
            r is Err <==> store_refused(old(self)@.waiting_data, data@),
            r is Err ==> r == Err::<(), SacnError>(SacnError::InvalidInput) && *final(self) == *old(self),
            r is Ok ==> final(self)@ == (ReceiverModel {
                waiting_data: store_waiting(old(self)@.waiting_data, data@),
                ..old(self)@
            }),
            final(self).wf() == old(self).wf(),
    {
        let ghost w = self@.waiting_data;
        let mut i: usize = 0;
        while i < self.waiting_data.len()
            invariant
                0 <= i <= self.waiting_data@.len(),
                *self == *old(self),
                w == dmx_models(self.waiting_data@),
                forall|j: int|
                    0 <= j < i ==> !(w[j].universe == data.universe && w[j].sync_uni == data.sync_uni),
            decreases self.waiting_data@.len() - i,
        {
            if self.waiting_data[i].universe == data.universe && self.waiting_data[i].sync_uni == data.sync_uni {
                proof {
                    lemma_first_waiting(w, data.universe, data.sync_uni, i as int);
                }
                let merged = match htp_dmx_merge(&self.waiting_data[i], &data) {
                    Ok(m) => m,
                    Err(e) => {
                        return Err(e);
                    },
                };
                self.waiting_data.set(i, merged);
                assert(self@.waiting_data =~= store_waiting(w, data@));
                return Ok(());
            }
            i = i + 1;
        }
        proof {
            lemma_first_waiting(w, data.universe, data.sync_uni, i as int);
        }
        self.waiting_data.push(data);
        assert(self@.waiting_data =~= store_waiting(w, data@));
        Ok(())
    }

    /// Retrieves and removes all the data waiting for the given
    /// synchronisation universe, in the order it came.
    #[verifier::loop_isolation(false)]
    pub fn rtrv_waiting_data(&mut self, sync_uni: u16) -> (r: Result<Vec<DMXData>, SacnError>)
        ensures
            r matches Ok(v) && dmx_models(v@) == old(self)@.waiting_data.filter(syncs_on(sync_uni)),
            final(self)@ == (ReceiverModel {
                waiting_data: old(self)@.waiting_data.filter(syncs_elsewhere(sync_uni)),
                ..old(self)@
            }),
            final(self).wf() == old(self).wf(),
    {
        let mut rest: Vec<DMXData> = Vec::new();
        core::mem::swap(&mut rest, &mut self.waiting_data);
        let ghost orig = dmx_models(rest@);
        let ghost rest0 = rest@;
        let mut res: Vec<DMXData> = Vec::new();
        let mut kept: Vec<DMXData> = Vec::new();
        let n = rest.len();
        let mut i: usize = 0;
        while i < n
            invariant
                0 <= i <= n,
                n == rest@.len(),
                rest@ == rest0,
                orig == dmx_models(rest0),
                dmx_models(res@) == orig.take(i as int).filter(syncs_on(sync_uni)),
                dmx_models(kept@) == orig.take(i as int).filter(syncs_elsewhere(sync_uni)),
            decreases n - i,
        {
            let ghost res0 = res@;
            let ghost kept0 = kept@;
            let d = &rest[i];
            let copy = DMXData { universe: d.universe, sync_uni: d.sync_uni, values: copy_values(&d.values) };
            proof {
                reveal(Seq::filter);
                assert(orig.take(i + 1).drop_last() =~= orig.take(i as int));
                assert(copy@ == orig[i as int]);
            }
            if d.sync_uni == sync_uni {
                res.push(copy);
                assert(dmx_models(res@) =~= dmx_models(res0).push(copy@));
            } else {
                kept.push(copy);
                assert(dmx_models(kept@) =~= dmx_models(kept0).push(copy@));
            }
            i = i + 1;
        }
        assert(orig.take(n as int) =~= orig);
        self.waiting_data = kept;
        Ok(res)
    }

    /// Handles a data packet, as [`data_packet_step`] says: returns the data
    /// released by it, or `None` where there is none.
    ///
    /// # Errors
    /// InvalidInput where the data cannot be merged with the data waiting
    /// (see [`data_packet_refused`]); the receiver is then left as it was.
    pub fn handle_data_packet(&mut self, data_pkt: DataPacketFramingLayer) -> (r: Result<Option<Vec<DMXData>>, SacnError>)
        ensures
            data_packet_refused(old(self)@, data_pkt@) ==> r == Err::<Option<Vec<DMXData>>, SacnError>(
                SacnError::InvalidInput,
            ) && final(self)@ == old(self)@,
            !data_packet_refused(old(self)@, data_pkt@) ==> (r matches Ok(o) && (final(self)@, option_models(o))
                == data_packet_step(old(self)@, data_pkt@)),
            final(self).wf() == old(self).wf(),
    {
        if data_pkt.preview_data && !self.process_preview_data {
            return Ok(None);
        }
        if data_pkt.stream_terminated {
            self.terminate_stream(&data_pkt.source_name, data_pkt.universe);
            return Ok(None);
        }
        let ghost d = data_pkt@;
        let universe = data_pkt.universe;
        let sync_uni = data_pkt.synchronization_address;
        let dmx_data = DMXData { universe, sync_uni, values: data_pkt.data.property_values };
        if sync_uni == NO_SYNC_ADDR {
            self.clear_waiting_data();
            let mut out: Vec<DMXData> = Vec::new();
            out.push(dmx_data);
            assert(dmx_models(out@) =~= seq![
                DmxModel { universe: d.universe, sync_uni: d.synchronization_address, values: d.property_values },
            ]);
            Ok(Some(out))
        } else {
            self.store_waiting_data(dmx_data)?;
            Ok(None)
        }
    }

    /// Handles a synchronization packet: releases the data waiting for its
    /// universe, or returns `None` where none waits.
    pub fn handle_sync_packet(&mut self, sync_pkt: SynchronizationPacketFramingLayer) -> (r: Result<Option<Vec<DMXData>>, SacnError>)
        ensures
            r matches Ok(o) && (final(self)@, option_models(o)) == sync_packet_step(old(self)@, sync_pkt),
            final(self).wf() == old(self).wf(),
    {
        let res = self.rtrv_waiting_data(sync_pkt.synchronization_address)?;
        if res.len() == 0 {
            Ok(None)
        } else {
            Ok(Some(res))
        }
    }

    /// Removes the given universe from the discovered source of the given name, if there is one.
    pub fn terminate_stream(&mut self, source_name: &String, universe: u16)
        ensures
            final(self)@ == (ReceiverModel {
                discovered_sources: terminate_in(old(self)@.discovered_sources, source_name@, universe),
                ..old(self)@
            }),
            final(self).wf() == old(self).wf(),
    {
        match find_discovered_src(&self.discovered_sources, source_name) {
            Some(index) => {
                let ghost before = self.discovered_sources@;
                let mut src = self.discovered_sources.remove(index);
                src.terminate_universe(universe);
                self.discovered_sources.insert(index, src);
                proof {
                    lemma_first_named_le(source_models(before), source_name@);
                    assert(self.discovered_sources@ =~= before.update(index as int, src));
                    assert(self@.discovered_sources =~= terminate_in(source_models(before), source_name@, universe));
                }
            },
            None => {},
        }
    }

    /// Records a completely discovered source: an earlier one of the same
    /// name is dropped and the new one added after the others.
    pub fn update_discovered_srcs(&mut self, src: DiscoveredSacnSource)
        ensures
            final(self)@ == (ReceiverModel {
                discovered_sources: update_sources(old(self)@.discovered_sources, src@),
                ..old(self)@
            }),
            final(self).wf() == old(self).wf(),
    {
        let ghost before = self.discovered_sources@;
        match find_discovered_src(&self.discovered_sources, &src.name) {
            Some(index) => {
                self.discovered_sources.remove(index);
                proof {
                    assert(source_models(self.discovered_sources@) =~= source_models(before).remove(index as int));
                }
            },
            None => {},
        }
        let ghost mid = self.discovered_sources@;
        let ghost j = first_named(source_models(before), src@.name);
        assert(source_models(mid) == (if j < before.len() {
            source_models(before).remove(j as int)
        } else {
            source_models(before)
        }));
        self.discovered_sources.push(src);
        assert(source_models(self.discovered_sources@) =~= source_models(mid).push(src@));
    }
}

impl SacnReceiverInternal {
    /// Handles a universe discovery packet received at `now`, as
    /// [`discovery_packet_step`] says. No data is released by it.
    pub fn handle_universe_discovery_packet(
        &mut self,
        discovery_pkt: UniverseDiscoveryPacketFramingLayer,
        now: u64,
    ) -> (r: Result<Option<Vec<DMXData>>, SacnError>)
        ensures
            r matches Ok(o) && o is None,
            final(self)@ == discovery_packet_step(old(self)@, discovery_pkt@, now),
            final(self).wf() == old(self).wf(),
    {
        let ghost f = discovery_pkt@;
        let UniverseDiscoveryPacketFramingLayer { source_name, data } = discovery_pkt;
        let UniverseDiscoveryPacketUniverseDiscoveryLayer { page, last_page, universes } = data;
        let uni_page = UniversePage { page, universes };
        let ghost pm = uni_page@;
        assert(pm == PageModel { page: f.data.page, universes: f.data.universes });
        let ghost before = self.partially_discovered_sources@;
        match find_discovered_src(&self.partially_discovered_sources, &source_name) {
            Some(index) => {
                let mut src = self.partially_discovered_sources.remove(index);
                let ghost s0 = src@;
                assert(s0 == source_models(before)[index as int]);
                let ghost mid = self.partially_discovered_sources@;
                assert(source_models(mid) =~= source_models(before).remove(index as int));
                src.pages.push(uni_page);
                src.last_updated = now;
                assert(src@.pages =~= s0.pages.push(pm));
                if src.has_all_pages() {
                    self.update_discovered_srcs(src);
                } else {
                    self.partially_discovered_sources.insert(index, src);
                    assert(source_models(self.partially_discovered_sources@) =~= source_models(before).update(
                        index as int,
                        src@,
                    ));
                }
            },
            None => {
                let mut pages: Vec<UniversePage> = Vec::new();
                pages.push(uni_page);
                let src = DiscoveredSacnSource { name: source_name, last_page, pages, last_updated: now };
                assert(src@.pages =~= seq![pm]);
                if page == 0 && page == last_page {
                    self.update_discovered_srcs(src);
                } else {
                    self.partially_discovered_sources.push(src);
                    assert(source_models(self.partially_discovered_sources@) =~= source_models(before).push(src@));
                }
            },
        }
        Ok(None)
    }

    /// Handles a received packet at `now`, as [`packet_step`] says: returns
    /// the data ready to act on, or `None` where the packet released none.
    ///
    /// # Errors
    /// InvalidInput where the packet is refused (see [`packet_refused`]); the
    /// receiver is then left as it was.
    pub fn handle_packet(&mut self, pkt: AcnRootLayerProtocol, now: u64) -> (r: Result<Option<Vec<DMXData>>, SacnError>)
        ensures
            packet_refused(old(self)@, pkt@) ==> r == Err::<Option<Vec<DMXData>>, SacnError>(SacnError::InvalidInput)
                && final(self)@ == old(self)@,
            !packet_refused(old(self)@, pkt@) ==> (r matches Ok(o) && (final(self)@, option_models(o))
                == packet_step(old(self)@, pkt@, now)),
            final(self).wf() == old(self).wf(),
    {
        match pkt.pdu.data {
            E131RootLayerData::DataPacket(d) => self.handle_data_packet(d),
            E131RootLayerData::SynchronizationPacket(s) => self.handle_sync_packet(s),
            E131RootLayerData::UniverseDiscoveryPacket(u) => self.handle_universe_discovery_packet(u, now),
        }
    }

    /// Drops the sources, discovered completely or partially, that have not
    /// been heard of within UNIVERSE_DISCOVERY_SOURCE_TIMEOUT of `now`.
    pub fn remove_expired_sources(&mut self, now: u64)
        ensures
            final(self)@ == (ReceiverModel {
                discovered_sources: old(self)@.discovered_sources.filter(source_current(now)),
                partially_discovered_sources: old(self)@.partially_discovered_sources.filter(source_current(now)),
                ..old(self)@
            }),
            final(self).wf() == old(self).wf(),
    {
        let mut a: Vec<DiscoveredSacnSource> = Vec::new();
        core::mem::swap(&mut a, &mut self.partially_discovered_sources);
        self.partially_discovered_sources = retain_current(a, now);
        let mut b: Vec<DiscoveredSacnSource> = Vec::new();
        core::mem::swap(&mut b, &mut self.discovered_sources);
        self.discovered_sources = retain_current(b, now);
    }

    /// Drops the sources that have timed out at `now`, then returns a copy of
    /// the discovered sources.
    pub fn get_discovered_sources(&mut self, now: u64) -> (r: Vec<DiscoveredSacnSource>)
        ensures
            final(self)@ == (ReceiverModel {
                discovered_sources: old(self)@.discovered_sources.filter(source_current(now)),
                partially_discovered_sources: old(self)@.partially_discovered_sources.filter(source_current(now)),
                ..old(self)@
            }),
            source_models(r@) == final(self)@.discovered_sources,
            final(self).wf() == old(self).wf(),
    {
        self.remove_expired_sources(now);
        copy_sources(&self.discovered_sources)
    }
}

/// The sources of `v` heard of within UNIVERSE_DISCOVERY_SOURCE_TIMEOUT of `now`.
fn retain_current(v: Vec<DiscoveredSacnSource>, now: u64) -> (r: Vec<DiscoveredSacnSource>)
    ensures
        source_models(r@) == source_models(v@).filter(source_current(now)),
{
    let mut rest = v;
    let ghost orig = source_models(rest@);
    let ghost rest0 = rest@;
    let mut kept: Vec<DiscoveredSacnSource> = Vec::new();
    let ghost mut i: int = 0;
    assert(orig.take(0).filter(source_current(now)) =~= Seq::<SourceModel>::empty()) by {
        reveal(Seq::filter);
    }
    while rest.len() > 0
        invariant
            0 <= i <= rest0.len(),
            orig == source_models(rest0),
            rest@ == rest0.skip(i),
            source_models(kept@) == orig.take(i).filter(source_current(now)),
        decreases rest@.len(),
    {
        let s = rest.remove(0);
        let ghost kept0 = kept@;
        proof {
            reveal(Seq::filter);
            assert(orig.take(i + 1).drop_last() =~= orig.take(i));
            assert(s@ == orig[i]);
        }
        let age = if now >= s.last_updated { now - s.last_updated } else { 0 };
        if age < UNIVERSE_DISCOVERY_SOURCE_TIMEOUT {
            kept.push(s);
            assert(source_models(kept@) =~= source_models(kept0).push(orig[i]));
        }
        proof {
            i = i + 1;
        }
        assert(rest@ =~= rest0.skip(i));
    }
    assert(orig.take(i) =~= orig);
    kept
}

/// A copy of the given universes.
fn copy_universes(v: &Vec<u16>) -> (r: Vec<u16>)
    ensures
        r@ == v@,
{
    let mut out: Vec<u16> = Vec::with_capacity(v.len());
    let mut i: usize = 0;
    while i < v.len()
        invariant
            0 <= i <= v@.len(),
            out@ == v@.take(i as int),
        decreases v@.len() - i,
    {
        out.push(v[i]);
        i = i + 1;
        assert(out@ =~= v@.take(i as int));
    }
    assert(v@.take(v@.len() as int) =~= v@);
    out
}

/// A copy of the given sources.
fn copy_sources(v: &Vec<DiscoveredSacnSource>) -> (r: Vec<DiscoveredSacnSource>)
    ensures
        source_models(r@) == source_models(v@),
{
    let mut out: Vec<DiscoveredSacnSource> = Vec::new();
    let mut i: usize = 0;
    while i < v.len()
        invariant
            0 <= i <= v@.len(),
            source_models(out@) == source_models(v@.take(i as int)),
        decreases v@.len() - i,
    {
        let s = &v[i];
        let mut pages: Vec<UniversePage> = Vec::new();
        let mut j: usize = 0;
        while j < s.pages.len()
            invariant
                0 <= j <= s.pages@.len(),
                page_models(pages@) == page_models(s.pages@.take(j as int)),
            decreases s.pages@.len() - j,
        {
            let p = &s.pages[j];
            let ghost pages0 = pages@;
            pages.push(UniversePage { page: p.page, universes: copy_universes(&p.universes) });
            j = j + 1;
            assert(page_models(pages@) =~= page_models(pages0).push(p@));
            assert(page_models(s.pages@.take(j as int)) =~= page_models(s.pages@.take(j - 1)).push(p@));
        }
        assert(s.pages@.take(s.pages@.len() as int) =~= s.pages@);
        let c = DiscoveredSacnSource { name: s.name.clone(), last_page: s.last_page, pages, last_updated: s.last_updated };
        let ghost out0 = out@;
        out.push(c);
        i = i + 1;
        assert(source_models(out@) =~= source_models(out0).push(c@));
        assert(source_models(v@.take(i as int)) =~= source_models(v@.take(i - 1)).push(v@[i - 1]@));
    }
    assert(v@.take(v@.len() as int) =~= v@);
    out
}

impl SacnReceiverInternal {
    /// Whether a data packet is stored to wait for synchronisation: it is not
    /// ignored preview data, not a stream termination, and has a
    /// synchronisation address.
    pub fn data_packet_waits(&self, data_pkt: &DataPacketFramingLayer) -> (r: bool)
        ensures
            r == (!(data_pkt.preview_data && !self@.process_preview_data) && !data_pkt.stream_terminated
                && data_pkt.synchronization_address != NO_SYNC_ADDR),
    {
        !(data_pkt.preview_data && !self.process_preview_data) && !data_pkt.stream_terminated
            && data_pkt.synchronization_address != NO_SYNC_ADDR
    }

    /// The position of the first waiting data of `universe` waiting for
    /// `sync_uni`, into which new data of theirs is merged.
    pub fn waiting_position(&self, universe: u16, sync_uni: u16) -> (r: Option<usize>)
        ensures
            match r {
                Some(i) => i == first_waiting(self@.waiting_data, universe, sync_uni) && i < self@.waiting_data.len(),
                None => first_waiting(self@.waiting_data, universe, sync_uni) == self@.waiting_data.len(),
            },
    {
        let ghost w = self@.waiting_data;
        let mut i: usize = 0;
        while i < self.waiting_data.len()
            invariant
                0 <= i <= self.waiting_data@.len(),
                w == dmx_models(self.waiting_data@),
                forall|j: int| 0 <= j < i ==> !(w[j].universe == universe && w[j].sync_uni == sync_uni),
            decreases self.waiting_data@.len() - i,
        {
            if self.waiting_data[i].universe == universe && self.waiting_data[i].sync_uni == sync_uni {
                proof {
                    lemma_first_waiting(w, universe, sync_uni, i as int);
                }
                return Some(i);
            }
            i = i + 1;
        }
        proof {
            lemma_first_waiting(w, universe, sync_uni, i as int);
        }
        None
    }

    /// Replaces the waiting data at position `i` with `data`: the result of a
    /// merge made by a merge function of the caller's.
    pub fn replace_waiting_data(&mut self, i: usize, data: DMXData)
        requires
            i < old(self)@.waiting_data.len(),
        ensures
            final(self)@ == (ReceiverModel { waiting_data: old(self)@.waiting_data.update(i as int, data@), ..old(self)@ }),
            final(self).wf() == old(self).wf(),
    {
        let ghost w = self@.waiting_data;
        self.waiting_data.set(i, data);
        assert(self@.waiting_data =~= w.update(i as int, data@));
    }
}

/// A copy of the given values.
fn copy_values(v: &Vec<u8>) -> (r: Vec<u8>)
    ensures
        r@ == v@,
{
    let mut out: Vec<u8> = Vec::with_capacity(v.len());
    let mut i: usize = 0;
    while i < v.len()
        invariant
            0 <= i <= v@.len(),
            out@ == v@.take(i as int),
        decreases v@.len() - i,
    {
        out.push(v[i]);
        i = i + 1;
        assert(out@ =~= v@.take(i as int));
    }
    assert(v@.take(v@.len() as int) =~= v@);
    out
}

/// The universes of `us` that are not yet in `listened`, in order and each
/// once: those a receiver joins when it starts listening to `us`.
pub open spec fn newly_listened(listened: Set<u16>, us: Seq<u16>) -> Seq<u16>
    decreases us.len(),
{
    if us.len() == 0 {
        Seq::empty()
    } else if listened.contains(us[0]) {
        newly_listened(listened, us.drop_first())
    } else {
        seq![us[0]] + newly_listened(listened.insert(us[0]), us.drop_first())
    }
}

/// Whether a receive with the timeout `timeout`, in nanoseconds (`None`: no
/// timeout), gives up at once without waiting: a zero timeout.
pub fn receive_gives_up_at_once(timeout: Option<u128>) -> (b: bool)
    ensures
        b == (timeout == Some(0u128)),
{
    match timeout {
        Some(t) => t == 0,
        None => false,
    }
}

/// The timeout, in nanoseconds, left for a receive with the timeout `timeout`
/// (`None`: no timeout) after a packet that released no data came `elapsed`
/// nanoseconds into it: `None` where the time is up, else the timeout of the
/// next wait.
pub fn remaining_timeout(timeout: Option<u128>, elapsed: u128) -> (r: Option<Option<u128>>)
    ensures
        match timeout {
            None => r == Some(None::<u128>),
            Some(t) => if elapsed <= t {
                r == Some(Some((t - elapsed) as u128))
            } else {
                r is None
            },
        },
{
    match timeout {
        None => Some(None),
        Some(t) => if elapsed <= t {
            Some(Some(t - elapsed))
        } else {
            None
        },
    }
}

} // verus!
