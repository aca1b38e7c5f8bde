//! olx.uz watcher: state, page addresses, the initial crawl over categories
//! and polling for new offers.
use vstd::prelude::*;
use std::collections::{HashSet, VecDeque};
use crate::json::JsonValue;
use crate::numtext::{append_chars, decimal, decimal_chars};
use crate::olx::ApiResponse;
use crate::text::chars_of;
use crate::watermark::{
    IdKey,
    ids_of, lemma_ids_push, lemma_max_with, lemma_max_with_push, lemma_newer_push, max_with,
    newer_positions, offer_id,
};

verus! {

broadcast use vstd::std_specs::hash::group_hash_axioms;

/// Base address of the offers listing.
pub const API: &'static str = "https://www.olx.uz/api/v1/offers";

/// Offers asked for per page.
pub const PAGE_SIZE: u64 = 50;

/// Offset after which a category's paging stops.
pub const MAX_OFFSET: u64 = 1000;

/// The state file's format version when the file does not give one.
pub fn default_version() -> (r: u64)
    ensures
        r == 1,
{
    1
}

/// What the watcher remembers between runs.
#[derive(Debug)]
pub struct State {
    pub version: u64,
    pub max_id: u64,
    pub initial_complete: bool,
    pub known_categories: Vec<u64>,
}

impl Default for State {
    fn default() -> (r: Self)
        ensures
            r.version == 1,
            r.max_id == 0,
            !r.initial_complete,
            r.known_categories@ == Seq::<u64>::empty(),
    {
        State { version: 1, max_id: 0, initial_complete: false, known_categories: Vec::new() }
    }
}

/// The id of an offer's category, when it has one.
pub open spec fn category_id(v: JsonValue) -> Option<u64> {
    match v.spec_get("category"@) {
        Some(c) => c.spec_u64_at("id"@),
        None => None,
    }
}

/// Extract the numeric ID from an offer.
pub fn extract_id(offer: &JsonValue) -> (r: Option<u64>)
    ensures
        r == offer_id(*offer),
{
    offer.u64_at("id")
}

/// Extract the category ID from an offer.
pub fn extract_category_id(offer: &JsonValue) -> (r: Option<u64>)
    ensures
        r == category_id(*offer),
{
    match offer.get("category") {
        Some(c) => c.u64_at("id"),
        None => None,
    }
}

/// The address of a listing page, newest first: all offers, or one category.
pub open spec fn page_url_text(category: Option<u64>, offset: u64) -> Seq<char> {
    let head = API@ + "/?offset="@ + decimal(offset as nat) + "&limit="@ + decimal(PAGE_SIZE as nat);
    match category {
        Some(cid) => head + "&category_id="@ + decimal(cid as nat) + "&sort_by=created_at:desc"@,
        None => head + "&sort_by=created_at:desc"@,
    }
}

/// The address of a listing page (the request part of `fetch_page`).
pub fn page_url(category: Option<u64>, offset: u64) -> (r: String)
    ensures
        r@ == page_url_text(category, offset),
{
    let mut v = chars_of(API);
    append_chars(&mut v, chars_of("/?offset=").as_slice());
    append_chars(&mut v, decimal_chars(offset).as_slice());
    append_chars(&mut v, chars_of("&limit=").as_slice());
    append_chars(&mut v, decimal_chars(PAGE_SIZE).as_slice());
    match category {
        Some(cid) => {
            append_chars(&mut v, chars_of("&category_id=").as_slice());
            append_chars(&mut v, decimal_chars(cid).as_slice());
        },
        None => {},
    }
    append_chars(&mut v, chars_of("&sort_by=created_at:desc").as_slice());
    crate::text::string_of(v.as_slice())
}

/// The offers of a listing reply and whether another page may follow: a
/// full page of 50 means more may follow; an unreadable reply gives nothing.
pub open spec fn page_of(resp: Option<ApiResponse>) -> (Seq<JsonValue>, bool) {
    let offers = match resp {
        Some(r) => match r.data {
            Some(d) => d@,
            None => Seq::empty(),
        },
        None => Seq::empty(),
    };
    (offers, offers.len() >= PAGE_SIZE)
}

/// The offers of a listing reply and the next-page flag (the end of `fetch_page`).
pub fn page_offers(resp: Option<ApiResponse>) -> (r: (Vec<JsonValue>, bool))
    ensures
        (r.0@, r.1) == page_of(resp),
{
    let offers = match resp {
        Some(r) => match r.data {
            Some(d) => d,
            None => Vec::new(),
        },
        None => Vec::new(),
    };
    let has_more = offers.len() >= 50;
    (offers, has_more)
}

} // verus!

verus! {

// ── Phase 1: initial collection over the default listing and categories ──

/// What one page does to the crawl's seen ids, discovered categories, the
/// high-water mark, and which offers it writes: an offer with an id not seen
/// before is written, its id is marked seen and raises the mark, and its
/// category, if new, is discovered.
pub open spec fn crawl_fold(seen: Set<u64>, disc: Seq<u64>, mark: u64, offers: Seq<JsonValue>)
    -> (Set<u64>, Seq<u64>, u64, Seq<usize>)
    decreases offers.len(),
{
    if offers.len() == 0 {
        (seen, disc, mark, Seq::empty())
    } else {
        let prev = crawl_fold(seen, disc, mark, offers.drop_last());
        let o = offers.last();
        match offer_id(o) {
            None => prev,
            Some(id) => if prev.0.contains(id) {
                prev
            } else {
                let d = match category_id(o) {
                    Some(c) => if prev.1.contains(c) { prev.1 } else { prev.1.push(c) },
                    None => prev.1,
                };
                (prev.0.insert(id), d, if id > prev.2 { id } else { prev.2 }, prev.3.push((offers.len() - 1) as usize))
            },
        }
    }
}

/// What a crawl page does, over all pages: it writes offers in page order,
/// each position once; the category of every written offer is discovered
/// afterwards; categories discovered before stay discovered, in place; and
/// the mark never goes down. (A page is a `Vec`, so its length fits `usize`.)
pub proof fn lemma_crawl_discovers_written_categories(
    seen: Set<u64>,
    disc: Seq<u64>,
    mark: u64,
    offers: Seq<JsonValue>,
)
    requires
        offers.len() <= usize::MAX,
    ensures
        ({
            let f = crawl_fold(seen, disc, mark, offers);
            &&& forall|j: int| 0 <= j < f.3.len() ==> 0 <= #[trigger] f.3[j] < offers.len()
            &&& forall|a: int, b: int| 0 <= a < b < f.3.len() ==> f.3[a] < f.3[b]
            &&& forall|j: int| 0 <= j < f.3.len() ==>
                (category_id(offers[#[trigger] f.3[j] as int]) matches Some(c) ==> f.1.contains(c))
            &&& disc.is_prefix_of(f.1)
            &&& f.2 >= mark
        }),
    decreases offers.len(),
{
    if offers.len() > 0 {
        let init = offers.drop_last();
        lemma_crawl_discovers_written_categories(seen, disc, mark, init);
        let prev = crawl_fold(seen, disc, mark, init);
        let f = crawl_fold(seen, disc, mark, offers);
        let o = offers.last();
        assert forall|j: int| 0 <= j < prev.3.len() implies offers[prev.3[j] as int] == init[prev.3[j] as int] by {
            assert(0 <= prev.3[j] < init.len());
        }
        match offer_id(o) {
            None => {
                assert(f == prev);
            },
            Some(id) => if prev.0.contains(id) {
                assert(f == prev);
            } else {
                let n = (offers.len() - 1) as usize;
                assert(f.3 == prev.3.push(n));
                assert(f.2 == (if id > prev.2 { id } else { prev.2 }));
                assert(f.1 == (match category_id(o) {
                    Some(c) => if prev.1.contains(c) { prev.1 } else { prev.1.push(c) },
                    None => prev.1,
                }));
                assert(prev.1.is_prefix_of(f.1));
                assert(disc.is_prefix_of(f.1));
                assert forall|x: u64| prev.1.contains(x) implies f.1.contains(x) by {
                    let k = choose|k: int| 0 <= k < prev.1.len() && prev.1[k] == x;
                    assert(f.1[k] == x);
                }
                assert forall|j: int| 0 <= j < f.3.len() implies 0 <= #[trigger] f.3[j] < offers.len() by {
                    if j < prev.3.len() {
                        assert(f.3[j] == prev.3[j]);
                    }
                }
                assert forall|a: int, b: int| 0 <= a < b < f.3.len() implies f.3[a] < f.3[b] by {
                    if b < prev.3.len() {
                        assert(f.3[a] == prev.3[a] && f.3[b] == prev.3[b]);
                    } else {
                        assert(f.3[a] == prev.3[a]);
                        assert(0 <= prev.3[a] < init.len());
                    }
                }
                assert forall|j: int| 0 <= j < f.3.len() implies
                    (category_id(offers[#[trigger] f.3[j] as int]) matches Some(c) ==> f.1.contains(c)) by {
                    if category_id(offers[f.3[j] as int]) is Some {
                        let c = category_id(offers[f.3[j] as int])->0;
                        if j < prev.3.len() {
                            assert(f.3[j] == prev.3[j]);
                            assert(category_id(init[prev.3[j] as int]) == Some(c));
                            assert(prev.1.contains(c));
                        } else {
                            assert(f.3[j] == n);
                            assert(offers[n as int] == o);
                            if !prev.1.contains(c) {
                                assert(f.1 == prev.1.push(c));
                                assert(f.1[prev.1.len() as int] == c);
                            }
                        }
                    }
                }
            },
        }
    }
}

/// The initial collection: the default listing is paged first; then each
/// discovered category is paged once, in the order in which it was
/// discovered, until no undiscovered-and-unpaged category is left.
#[derive(Debug)]
pub struct CategoryCrawl {
    seen_ids: HashSet<u64>,
    known: HashSet<u64>,
    discovered: Vec<u64>,
    queue: VecDeque<u64>,
    current: Option<u64>,
    offset: u64,
    done: bool,
}

impl CategoryCrawl {
    /// Offer ids written so far.
    pub closed spec fn seen(&self) -> Set<u64> {
        self.seen_ids@
    }

    /// Categories discovered so far, in order of discovery.
    pub closed spec fn discovered(&self) -> Seq<u64> {
        self.discovered@
    }

    /// How many discovered categories have been taken up for paging.
    pub closed spec fn crawled(&self) -> int {
        self.discovered@.len() - self.queue@.len()
    }

    /// The listing being paged: `None` for the default listing.
    pub closed spec fn current(&self) -> Option<u64> {
        self.current
    }

    /// The offset of the next page to ask for.
    pub closed spec fn offset(&self) -> u64 {
        self.offset
    }

    /// Whether the crawl is over.
    pub closed spec fn done(&self) -> bool {
        self.done
    }

    /// The crawl's invariant: categories are discovered once each and are
    /// taken up in discovery order; the one being paged is the last one taken up.
    pub closed spec fn wf(&self) -> bool {
        &&& self.known@ == self.discovered@.to_set()
        &&& self.discovered@.no_duplicates()
        &&& self.queue@.len() <= self.discovered@.len()
        &&& self.queue@ == self.discovered@.skip(self.crawled())
        &&& self.current is None ==> self.crawled() == 0
        &&& self.current is Some ==> self.crawled() >= 1
            && self.current == Some(self.discovered@[self.crawled() - 1])
        &&& self.done ==> self.queue@.len() == 0
    }

    /// A crawl that starts with the default listing at offset 0.
    pub fn new() -> (r: CategoryCrawl)
        ensures
            r.wf(),
            r.seen() == Set::<u64>::empty(),
            r.discovered() == Seq::<u64>::empty(),
            r.current() is None,
            r.offset() == 0,
            !r.done(),
    {
        let r = CategoryCrawl {
            seen_ids: HashSet::new(),
            known: HashSet::new(),
            discovered: Vec::new(),
            queue: VecDeque::new(),
            current: None,
            offset: 0,
            done: false,
        };
        assert(r.discovered@.to_set() =~= Set::<u64>::empty());
        assert(r.discovered@.skip(0) =~= r.queue@);
        r
    }

    /// The page to ask for next: the listing (`None` = default) and offset;
    /// `None` once the crawl is over.
    pub fn next_request(&self) -> (r: Option<(Option<u64>, u64)>)
        ensures
            r == (if self.done() { None } else { Some((self.current(), self.offset())) }),
    {
        if self.done {
            None
        } else {
            Some((self.current, self.offset))
        }
    }

    /// The number of categories discovered so far.
    pub fn discovered_count(&self) -> (r: usize)
        ensures
            r == self.discovered().len(),
    {
        self.discovered.len()
    }

    /// The number of distinct offers written so far.
    pub fn seen_count(&self) -> (r: usize)
        ensures
            r == self.seen().len(),
    {
        self.seen_ids.len()
    }

    /// Whether paging of the current listing stops after a page.
    pub open spec fn listing_ends(current: Option<u64>, offset: u64, empty: bool, has_more: bool) -> bool {
        ||| empty
        ||| !has_more
        ||| (current is Some && offset >= MAX_OFFSET)
        ||| (current is None && offset > u64::MAX - PAGE_SIZE)
    }

    /// Takes the reply for the page just asked for: writes the offers whose
    /// ids were not seen before (in order), raises `max_id` over them, records
    /// new categories, and moves on to the next page, the next category, or
    /// the end.
    pub fn absorb(&mut self, state: &mut State, offers: &Vec<JsonValue>, has_more: bool) -> (r: Vec<usize>)
        requires
            old(self).wf(),
            !old(self).done(),
        ensures
            final(self).wf(),
            (final(self).seen(), final(self).discovered(), final(state).max_id, r@)
                == crawl_fold(old(self).seen(), old(self).discovered(), old(state).max_id, offers@),
            forall|j: int| 0 <= j < r@.len() ==> (category_id(offers@[#[trigger] r@[j] as int]) matches Some(c)
                ==> final(self).discovered().contains(c)),
            final(state).version == old(state).version,
            final(state).initial_complete == old(state).initial_complete,
            final(state).known_categories@ == old(state).known_categories@,
            !Self::listing_ends(old(self).current(), old(self).offset(), offers@.len() == 0, has_more) ==> {
                &&& final(self).current() == old(self).current()
                &&& final(self).offset() == old(self).offset() + PAGE_SIZE
                &&& final(self).crawled() == old(self).crawled()
                &&& !final(self).done()
            },
            Self::listing_ends(old(self).current(), old(self).offset(), offers@.len() == 0, has_more) ==> {
                if old(self).crawled() < final(self).discovered().len() {
                    &&& final(self).crawled() == old(self).crawled() + 1
                    &&& final(self).current() == Some(final(self).discovered()[old(self).crawled()])
                    &&& final(self).offset() == 0
                    &&& !final(self).done()
                } else {
                    &&& final(self).crawled() == old(self).crawled()
                    &&& final(self).done()
                }
            },
    {
        let ghost s0 = self.seen_ids@;
        let ghost d0 = self.discovered@;
        let ghost m0 = state.max_id;
        let ghost k = self.crawled();
        let mut written: Vec<usize> = Vec::new();
        let mut i: usize = 0;
        assert(offers@.take(0) =~= Seq::<JsonValue>::empty());
        while i < offers.len()
            invariant
                0 <= i <= offers@.len(),
                k == old(self).crawled(),
                s0 == old(self).seen(),
                d0 == old(self).discovered(),
                m0 == old(state).max_id,
                (self.seen_ids@, self.discovered@, state.max_id, written@)
                    == crawl_fold(s0, d0, m0, offers@.take(i as int)),
                self.known@ == self.discovered@.to_set(),
                self.discovered@.no_duplicates(),
                0 <= k <= self.discovered@.len(),
                self.queue@ == self.discovered@.skip(k),
                d0.is_prefix_of(self.discovered@),
                self.current == old(self).current,
                self.offset == old(self).offset,
                self.done == old(self).done,
                state.version == old(state).version,
                state.initial_complete == old(state).initial_complete,
                state.known_categories@ == old(state).known_categories@,
            decreases offers@.len() - i,
        {
            let ghost before_d = self.discovered@;
            assert(offers@.take(i + 1).drop_last() =~= offers@.take(i as int));
            assert(offers@.take(i + 1).last() == offers@[i as int]);
            let offer = &offers[i];
            match extract_id(offer) {
                None => {},
                Some(oid) => {
                    if self.seen_ids.insert(oid) {
                        match extract_category_id(offer) {
                            Some(cid) => {
                                if self.known.insert(cid) {
                                    proof {
                                        assert(!before_d.contains(cid));
                                        before_d.lemma_push_to_set_commute(cid);
                                    }
                                    self.discovered.push(cid);
                                    self.queue.push_back(cid);
                                    proof {
                                        assert(self.discovered@ =~= before_d.push(cid));
                                        assert(self.queue@ =~= self.discovered@.skip(k));
                                        assert forall|a: int, b: int|
                                            0 <= a < self.discovered@.len() && 0 <= b < self.discovered@.len() && a != b
                                            implies self.discovered@[a] != self.discovered@[b] by {
                                            if a < before_d.len() && b < before_d.len() {
                                                assert(before_d[a] != before_d[b]);
                                            } else if a == before_d.len() {
                                                assert(before_d.contains(before_d[b]));
                                            } else {
                                                assert(before_d.contains(before_d[a]));
                                            }
                                        }
                                        assert(d0.is_prefix_of(self.discovered@));
                                    }
                                } else {
                                    assert(before_d.contains(cid));
                                }
                            },
                            None => {},
                        }
                        if oid > state.max_id {
                            state.max_id = oid;
                        }
                        written.push(i);
                    }
                },
            }
            i = i + 1;
        }
        assert(offers@.take(offers@.len() as int) =~= offers@);
        proof { lemma_crawl_discovers_written_categories(s0, d0, m0, offers@); }
        assert(self.crawled() == k);
        assert(self.current is Some ==> self.discovered@[k - 1] == d0[k - 1]);
        let ends = if offers.len() == 0 || !has_more {
            true
        } else {
            match self.current {
                Some(_) => self.offset >= MAX_OFFSET,
                None => self.offset > u64::MAX - PAGE_SIZE,
            }
        };
        if ends {
            match self.queue.pop_front() {
                Some(cid) => {
                    proof {
                        assert(self.discovered@.skip(k)[0] == self.discovered@[k]);
                        assert(self.queue@ =~= self.discovered@.skip(k + 1));
                    }
                    self.current = Some(cid);
                    self.offset = 0;
                },
                None => {
                    self.done = true;
                    proof {
                        if old(self).current is None {
                            assert(k == 0);
                        }
                    }
                },
            }
        } else {
            self.offset = self.offset + PAGE_SIZE;
        }
        written
    }
}

} // verus!

verus! {

/// Strictly increasing.
pub open spec fn strictly_sorted(s: Seq<u64>) -> bool {
    forall|a: int, b: int| 0 <= a < b < s.len() ==> s[a] < s[b]
}

/// The distinct values of `v` in increasing order.
pub fn sorted_distinct(v: &Vec<u64>) -> (r: Vec<u64>)
    requires
        v@.no_duplicates(),
    ensures
        strictly_sorted(r@),
        r@.to_set() == v@.to_set(),
        r@.len() == v@.len(),
{
    let mut out: Vec<u64> = Vec::new();
    let mut i: usize = 0;
    while i < v.len()
        invariant
            0 <= i <= v@.len(),
            v@.no_duplicates(),
            strictly_sorted(out@),
            out@.to_set() == v@.take(i as int).to_set(),
            out@.len() == i,
        decreases v@.len() - i,
    {
        let x = v[i];
        let mut pos: usize = 0;
        while pos < out.len() && out[pos] < x
            invariant
                0 <= pos <= out@.len(),
                strictly_sorted(out@),
                forall|j: int| 0 <= j < pos ==> out@[j] < x,
            decreases out@.len() - pos,
        {
            pos = pos + 1;
        }
        proof {
            assert(!v@.take(i as int).contains(x)) by {
                if v@.take(i as int).contains(x) {
                    let j = choose|j: int| 0 <= j < i && v@.take(i as int)[j] == x;
                    assert(v@[j] == v@[i as int]);
                }
            }
            assert(!out@.to_set().contains(x));
            assert(!out@.contains(x));
            if pos < out@.len() {
                assert(out@[pos as int] != x);
                assert(out@[pos as int] > x);
            }
        }
        let ghost before = out@;
        out.insert(pos, x);
        proof {
            assert(out@ =~= before.insert(pos as int, x));
            assert forall|a: int, b: int| 0 <= a < b < out@.len() implies out@[a] < out@[b] by {
                if b < pos {
                    assert(out@[a] == before[a] && out@[b] == before[b]);
                } else if b == pos {
                    assert(out@[a] == before[a]);
                } else if a < pos {
                    assert(out@[a] == before[a] && out@[b] == before[b - 1]);
                    if pos < before.len() {
                        assert(before[pos as int] > x);
                        if b - 1 > pos {
                            assert(before[pos as int] < before[b - 1]);
                        }
                    }
                } else if a == pos {
                    assert(out@[b] == before[b - 1]);
                    assert(before[pos as int] > x);
                    if b - 1 > pos {
                        assert(before[pos as int] < before[b - 1]);
                    }
                } else {
                    assert(out@[a] == before[a - 1] && out@[b] == before[b - 1]);
                }
            }
            assert(v@.take(i + 1) =~= v@.take(i as int).push(x));
            v@.take(i as int).lemma_push_to_set_commute(x);
            assert forall|y: u64| out@.to_set().contains(y) <==> before.to_set().insert(x).contains(y) by {
                if out@.contains(y) {
                    let j = choose|j: int| 0 <= j < out@.len() && out@[j] == y;
                    if j < pos {
                        assert(before[j] == y);
                    } else if j > pos {
                        assert(before[j - 1] == y);
                    }
                }
                if before.contains(y) {
                    let j = choose|j: int| 0 <= j < before.len() && before[j] == y;
                    if j < pos {
                        assert(out@[j] == y);
                    } else {
                        assert(out@[j + 1] == y);
                    }
                }
                if y == x {
                    assert(out@[pos as int] == x);
                }
            }
            assert(out@.to_set() =~= v@.take(i + 1).to_set());
        }
        i = i + 1;
    }
    assert(v@.take(v@.len() as int) =~= v@);
    out
}

impl CategoryCrawl {
    /// Ends the initial collection: the state is marked complete and keeps
    /// every discovered category, in increasing order.
    pub fn finish(self, state: &mut State)
        requires
            self.wf(),
        ensures
            final(state).initial_complete,
            final(state).max_id == old(state).max_id,
            final(state).version == old(state).version,
            strictly_sorted(final(state).known_categories@),
            final(state).known_categories@.to_set() == self.discovered().to_set(),
    {
        state.initial_complete = true;
        state.known_categories = sorted_distinct(&self.discovered);
    }
}

/// The ids written by a page of the crawl, one per written position.
pub open spec fn written_ids(offers: Seq<JsonValue>, w: Seq<usize>) -> Seq<u64> {
    w.map_values(|p: usize| offer_id(offers[p as int]).unwrap())
}

/// A page of the crawl writes each id at most once, and only ids not seen
/// before; afterwards the seen ids are the earlier ones and the written ones.
/// Discovered categories are kept, in order, and stay free of repeats; the
/// high-water mark is at least every written id.
pub proof fn lemma_crawl_writes_each_id_once(seen: Set<u64>, disc: Seq<u64>, mark: u64, offers: Seq<JsonValue>)
    requires
        disc.no_duplicates(),
        offers.len() <= usize::MAX,
    ensures
        ({
            let (s, d, m, w) = crawl_fold(seen, disc, mark, offers);
            &&& forall|j: int| 0 <= j < w.len() ==> 0 <= w[j] < offers.len()
                && offer_id(offers[w[j] as int]) is Some
            &&& forall|j: int| 0 <= j < w.len() ==> !seen.contains(#[trigger] written_ids(offers, w)[j])
            &&& written_ids(offers, w).no_duplicates()
            &&& forall|x: u64| s.contains(x) <==> (seen.contains(x) || written_ids(offers, w).contains(x))
            &&& disc.is_prefix_of(d)
            &&& d.no_duplicates()
            &&& m >= mark
            &&& forall|j: int| 0 <= j < w.len() ==> #[trigger] written_ids(offers, w)[j] <= m
        }),
    decreases offers.len(),
{
    if offers.len() > 0 {
        let init = offers.drop_last();
        lemma_crawl_writes_each_id_once(seen, disc, mark, init);
        let prev = crawl_fold(seen, disc, mark, init);
        let (ps, pd, pm, pw) = prev;
        assert forall|j: int| 0 <= j < pw.len() implies written_ids(offers, pw)[j] == written_ids(init, pw)[j] by {
            assert(offers[pw[j] as int] == init[pw[j] as int]);
        }
        assert(written_ids(offers, pw) =~= written_ids(init, pw));
        let o = offers.last();
        match offer_id(o) {
            None => {},
            Some(id) => {
                if !ps.contains(id) {
                    let w = pw.push((offers.len() - 1) as usize);
                    assert(offers[offers.len() - 1] == o);
                    assert(written_ids(offers, w) =~= written_ids(offers, pw).push(id));
                    assert(!written_ids(offers, pw).contains(id));
                    assert(!seen.contains(id));
                    let d = match category_id(o) {
                        Some(c) => if pd.contains(c) { pd } else { pd.push(c) },
                        None => pd,
                    };
                    match category_id(o) {
                        Some(c) => {
                            if !pd.contains(c) {
                                assert forall|a: int, b: int| 0 <= a < d.len() && 0 <= b < d.len() && a != b
                                    implies d[a] != d[b] by {
                                    if a < pd.len() && b < pd.len() {
                                    } else if a == pd.len() {
                                        assert(pd.contains(pd[b]));
                                    } else {
                                        assert(pd.contains(pd[a]));
                                    }
                                }
                                assert(disc.is_prefix_of(d));
                            }
                        },
                        None => {},
                    }
                    let ids = written_ids(offers, w);
                    assert forall|a: int, b: int| 0 <= a < ids.len() && 0 <= b < ids.len() && a != b
                        implies ids[a] != ids[b] by {
                        if a < pw.len() && b < pw.len() {
                            assert(ids[a] == written_ids(offers, pw)[a]);
                            assert(ids[b] == written_ids(offers, pw)[b]);
                        } else if a == pw.len() {
                            assert(ids[b] == written_ids(offers, pw)[b]);
                            assert(written_ids(offers, pw).contains(ids[b]));
                        } else {
                            assert(ids[a] == written_ids(offers, pw)[a]);
                            assert(written_ids(offers, pw).contains(ids[a]));
                        }
                    }
                    assert forall|x: u64| ps.insert(id).contains(x) <==> (seen.contains(x) || ids.contains(x)) by {
                        if written_ids(offers, pw).contains(x) {
                            let j = choose|j: int| 0 <= j < pw.len() && written_ids(offers, pw)[j] == x;
                            assert(ids[j] == x);
                        }
                        if ids.contains(x) && x != id {
                            let j = choose|j: int| 0 <= j < ids.len() && ids[j] == x;
                            assert(j < pw.len());
                            assert(written_ids(offers, pw)[j] == x);
                        }
                        if x == id {
                            assert(ids[ids.len() - 1] == id);
                        }
                    }
                }
            },
        }
    }
}

// ── Phase 2: polling for new offers ────────────────────────────────────

/// One poll cycle of the default listing: pages are read from offset 0 on
/// while they hold offers newer than the mark the cycle started with.
#[derive(Debug)]
pub struct Poll {
    /// `max_id` when the cycle started; offers above it are new.
    pub mark: u64,
    /// The largest id seen in this cycle (at least `mark`).
    pub cycle_max: u64,
    /// Offset of the next page.
    pub offset: u64,
    /// New offers written so far.
    pub new_count: u64,
    /// Whether the cycle is over.
    pub done: bool,
}

/// A poll cycle ends after a page that is empty, holds no new offer, is the
/// last one (the listing has no more), or reaches the offset limit; it goes
/// on after any other page.
pub proof fn lemma_poll_cycle_stops(offset: u64, empty: bool, all_old: bool, has_more: bool)
    ensures
        !has_more ==> Poll::cycle_ends(offset, empty, all_old, has_more),
        empty ==> Poll::cycle_ends(offset, empty, all_old, has_more),
        all_old ==> Poll::cycle_ends(offset, empty, all_old, has_more),
        offset >= MAX_OFFSET ==> Poll::cycle_ends(offset, empty, all_old, has_more),
        (has_more && !empty && !all_old && offset < MAX_OFFSET) ==> !Poll::cycle_ends(offset, empty, all_old, has_more),
{
}

/// Paging of a crawl listing stops after an empty page or a page without a
/// next one, and a category listing stops at the offset limit.
pub proof fn lemma_listing_stops(current: Option<u64>, offset: u64, empty: bool, has_more: bool)
    ensures
        !has_more ==> CategoryCrawl::listing_ends(current, offset, empty, has_more),
        empty ==> CategoryCrawl::listing_ends(current, offset, empty, has_more),
        (current is Some && offset >= MAX_OFFSET) ==> CategoryCrawl::listing_ends(current, offset, empty, has_more),
        (has_more && !empty && offset < MAX_OFFSET) ==> !CategoryCrawl::listing_ends(current, offset, empty, has_more),
{
}

impl Poll {
    /// A cycle starting from the state's `max_id`.
    pub fn new(state: &State) -> (r: Poll)
        ensures
            r.mark == state.max_id,
            r.cycle_max == state.max_id,
            r.offset == 0,
            r.new_count == 0,
            !r.done,
    {
        Poll { mark: state.max_id, cycle_max: state.max_id, offset: 0, new_count: 0, done: false }
    }

    /// Whether paging stops after a page.
    pub open spec fn cycle_ends(offset: u64, empty: bool, all_old: bool, has_more: bool) -> bool {
        empty || all_old || !has_more || offset >= MAX_OFFSET
    }

    /// Takes a page: writes the offers newer than the mark, in order.
    pub fn absorb(&mut self, offers: &Vec<JsonValue>, has_more: bool) -> (r: Vec<usize>)
        requires
            !old(self).done,
            old(self).cycle_max >= old(self).mark,
            old(self).new_count + offers@.len() <= u64::MAX,
        ensures
            r@ == newer_positions(IdKey::Offer, offers@, old(self).mark),
            final(self).mark == old(self).mark,
            final(self).cycle_max == max_with(old(self).cycle_max, ids_of(IdKey::Offer, offers@)),
            final(self).cycle_max >= final(self).mark,
            final(self).new_count == old(self).new_count + r@.len(),
            final(self).done == Self::cycle_ends(old(self).offset, offers@.len() == 0, r@.len() == 0, has_more),
            !final(self).done ==> final(self).offset == old(self).offset + PAGE_SIZE,
            final(self).done ==> final(self).offset == old(self).offset,
            !has_more ==> final(self).done,
            offers@.len() == 0 ==> final(self).done,
            r@.len() == 0 ==> final(self).done,
    {
        let mark = self.mark;
        let c0 = self.cycle_max;
        let mut written: Vec<usize> = Vec::new();
        let mut i: usize = 0;
        assert(offers@.take(0) =~= Seq::<JsonValue>::empty());
        while i < offers.len()
            invariant
                0 <= i <= offers@.len(),
                mark == old(self).mark,
                c0 == old(self).cycle_max,
                c0 >= mark,
                self.mark == mark,
                self.offset == old(self).offset,
                self.done == old(self).done,
                self.new_count == old(self).new_count,
                written@ == newer_positions(IdKey::Offer, offers@.take(i as int), mark),
                written@.len() <= i,
                self.cycle_max == max_with(c0, ids_of(IdKey::Offer, offers@.take(i as int))),
            decreases offers@.len() - i,
        {
            proof {
                lemma_ids_push(IdKey::Offer, offers@, i as int);
                lemma_newer_push(IdKey::Offer, offers@, mark, i as int);
            }
            match extract_id(&offers[i]) {
                Some(oid) => {
                    proof {
                        lemma_max_with_push(c0, ids_of(IdKey::Offer, offers@.take(i as int)), oid);
                        lemma_max_with(c0, ids_of(IdKey::Offer, offers@.take(i as int)));
                    }
                    if oid > mark {
                        if oid > self.cycle_max {
                            self.cycle_max = oid;
                        }
                        written.push(i);
                    }
                },
                None => {},
            }
            i = i + 1;
        }
        assert(offers@.take(offers@.len() as int) =~= offers@);
        proof { lemma_max_with(c0, ids_of(IdKey::Offer, offers@)); }
        self.new_count = self.new_count + written.len() as u64;
        let all_old = written.len() == 0;
        if offers.len() == 0 || all_old || !has_more || self.offset >= MAX_OFFSET {
            self.done = true;
        } else {
            self.offset = self.offset + PAGE_SIZE;
        }
        written
    }

    /// Ends the cycle: `max_id` becomes the largest id seen when new offers
    /// were written, and stays otherwise. Returns the number of new offers.
    pub fn finish(&self, state: &mut State) -> (r: u64)
        ensures
            r == self.new_count,
            final(state).max_id == (if self.new_count > 0 { self.cycle_max } else { old(state).max_id }),
            final(state).version == old(state).version,
            final(state).initial_complete == old(state).initial_complete,
            final(state).known_categories@ == old(state).known_categories@,
    {
        if self.new_count > 0 {
            state.max_id = self.cycle_max;
        }
        self.new_count
    }
}

} // verus!

verus! {

impl CategoryCrawl {
    /// When the crawl is over, every discovered category has been taken up
    /// for paging, each once and in discovery order.
    pub proof fn lemma_done_covers_all(&self)
        requires
            self.wf(),
            self.done(),
        ensures
            self.crawled() == self.discovered().len(),
            self.discovered().no_duplicates(),
    {
    }
}

} // verus!
