//! uzum.uz collector: token refresh cookies, GraphQL replies, scope discovery
//! and the per-scope incremental collection.
use vstd::prelude::*;
use crate::json::JsonValue;
use crate::numtext::append_chars;
use crate::text::{chars_of, has_prefix, split, split_chars, string_of, trim, trim_chars};
use crate::watermark::{
    ids_of, lemma_ids_below_mark, lemma_ids_push, lemma_max_with_push, lemma_newer_push,
    lemma_none_newer, max_with, newer_positions, product_id, IdKey,
};

verus! {

/// Items asked for per search page.
pub const BATCH_SIZE: u64 = 100;

/// The search API refuses offsets past this; a category with more products
/// is split into its children when it has any.
pub const OFFSET_CAP: u64 = 9900;

/// A category id.
#[derive(Debug, Clone, Copy, PartialEq, Eq, Structural)]
pub struct CategoryId(pub u64);

/// A product id; products are ordered by it, newer ones having larger ids.
#[derive(Debug, Clone, Copy, PartialEq, Eq, Structural)]
pub struct ProductId(pub u64);

impl Default for ProductId {
    fn default() -> (r: Self)
        ensures
            r.0 == 0,
    {
        ProductId(0)
    }
}

#[verifier::external_type_specification]
#[verifier::external_body]
pub struct ExIoError(std::io::Error);

#[verifier::external_type_specification]
#[verifier::external_body]
pub struct ExSerdeJsonError(serde_json::Error);

/// Why a collection run stops.
#[derive(Debug)]
pub enum UzumError {
    Io(std::io::Error),
    Json(serde_json::Error),
    Http(String),
    Auth(String),
    GraphQl(String),
    State(String),
    Locked(String),
}

/// Credentials taken from the environment.
#[derive(Debug)]
pub struct Auth {
    pub token: Option<String>,
    pub install_id: Option<String>,
}

/// A node of the category tree.
#[derive(Debug)]
pub struct CategoryNode {
    pub id: CategoryId,
    pub title: Option<String>,
    pub children: Option<Vec<CategoryNode>>,
}

/// One error of a GraphQL reply.
#[derive(Debug)]
pub struct GqlError {
    pub message: String,
}

/// A page of search results and the category's total.
#[derive(Debug)]
pub struct MakeSearchInner {
    pub total: u64,
    pub items: Vec<JsonValue>,
}

/// What the collector remembers of a category it collects.
#[derive(Debug, Clone, Copy, PartialEq, Eq, Structural)]
pub struct ScopeState {
    pub category_id: CategoryId,
    pub total: u64,
    pub max_product_id: ProductId,
}

/// The state file.
#[derive(Debug)]
pub struct StateFile {
    pub version: u64,
    pub scopes: Vec<ScopeState>,
    pub item_count: u64,
    pub updated_at: String,
}

impl Default for StateFile {
    fn default() -> (r: Self)
        ensures
            r.version == 1,
            r.scopes@ == Seq::<ScopeState>::empty(),
            r.item_count == 0,
            r.updated_at@ == Seq::<char>::empty(),
    {
        StateFile { version: 1, scopes: Vec::new(), item_count: 0, updated_at: String::new() }
    }
}

// ── Token refresh: the access_token cookie ───────────────────────────────

/// The first `;`-separated part of a cookie header, trimmed, of the form
/// `access_token=<value>` with a non-empty value.
pub open spec fn access_token_in_parts(parts: Seq<Seq<char>>) -> Option<Seq<char>>
    decreases parts.len(),
{
    if parts.len() == 0 {
        None
    } else {
        let p = trim(parts[0]);
        if has_prefix(p, "access_token="@) && p.len() > "access_token="@.len() {
            Some(p.skip("access_token="@.len() as int))
        } else {
            access_token_in_parts(parts.drop_first())
        }
    }
}

/// What `access_token_from_set_cookies` gives: the access token of the first
/// `Set-Cookie` header that holds one, the error text of the first header
/// that is not text before that, or a not-found error.
pub open spec fn refreshed_token(headers: Seq<Result<String, String>>) -> Result<Seq<char>, Seq<char>>
    decreases headers.len(),
{
    if headers.len() == 0 {
        Err("access_token not found in refresh set-cookie"@)
    } else {
        match headers[0] {
            Err(e) => Err("invalid set-cookie header: "@ + e@),
            Ok(h) => match access_token_in_parts(split(h@, ';')) {
                Some(t) => Ok(t),
                None => refreshed_token(headers.drop_first()),
            },
        }
    }
}

/// A refresh reply whose first `Set-Cookie` header begins with the part
/// `access_token=<v>` (blanks around the part allowed, `v` non-empty, the
/// part ended by `;` or by the header's end) gives the token `v`, whatever
/// follows it in the header and in later headers.
pub proof fn lemma_first_cookie_part_gives_token(
    headers: Seq<Result<String, String>>,
    first_part: Seq<char>,
    rest: Seq<char>,
    v: Seq<char>,
)
    requires
        headers.len() > 0,
        headers[0] matches Ok(h) && h@ == first_part + rest,
        !first_part.contains(';'),
        rest.len() == 0 || rest[0] == ';',
        trim(first_part) == "access_token="@ + v,
        v.len() > 0,
    ensures
        refreshed_token(headers) == Ok::<Seq<char>, Seq<char>>(v),
{
    let h = headers[0]->Ok_0;
    crate::text::lemma_split_first(first_part, rest, ';', Seq::empty());
    assert(Seq::<char>::empty() + first_part =~= first_part);
    let parts = split(h@, ';');
    assert(parts[0] == first_part);
    let p = trim(parts[0]);
    let key = "access_token="@;
    assert(p.take(key.len() as int) =~= key);
    assert(p.skip(key.len() as int) =~= v);
}

/// The access token in the `Set-Cookie` headers of a token refresh reply
/// (the part of `refresh_access_token` after the request). Each header is
/// its text, or the error text where it is not visible ASCII.
pub fn access_token_from_set_cookies(headers: &Vec<Result<String, String>>) -> (r: Result<String, UzumError>)
    ensures
        match r {
            Ok(t) => refreshed_token(headers@) == Ok::<Seq<char>, Seq<char>>(t@),
            Err(UzumError::Auth(m)) => refreshed_token(headers@) == Err::<Seq<char>, Seq<char>>(m@),
            Err(_) => false,
        },
{
    let key = chars_of("access_token=");
    let mut i: usize = 0;
    assert(headers@.skip(0) =~= headers@);
    while i < headers.len()
        invariant
            0 <= i <= headers@.len(),
            key@ == "access_token="@,
            refreshed_token(headers@) == refreshed_token(headers@.skip(i as int)),
        decreases headers@.len() - i,
    {
        let ghost rest = headers@.skip(i as int);
        assert(rest[0] == headers@[i as int]);
        assert(rest.drop_first() =~= headers@.skip(i + 1));
        match &headers[i] {
            Err(e) => {
                let mut msg = chars_of("invalid set-cookie header: ");
                append_chars(&mut msg, chars_of(e.as_str()).as_slice());
                return Err(UzumError::Auth(string_of(msg.as_slice())));
            },
            Ok(h) => {
                let hs = chars_of(h.as_str());
                let parts = split_chars(hs.as_slice(), ';');
                let ghost ps = crate::text::views(parts@);
                let mut j: usize = 0;
                assert(ps.skip(0) =~= ps);
                assert(refreshed_token(headers@) == (match access_token_in_parts(split(h@, ';')) {
                    Some(t) => Ok(t),
                    None => refreshed_token(headers@.skip(i + 1)),
                }));
                while j < parts.len()
                    invariant
                        0 <= j <= parts@.len(),
                        ps == crate::text::views(parts@),
                        ps == split(h@, ';'),
                        key@ == "access_token="@,
                        access_token_in_parts(ps) == access_token_in_parts(ps.skip(j as int)),
                        refreshed_token(headers@) == (match access_token_in_parts(ps) {
                            Some(t) => Ok(t),
                            None => refreshed_token(headers@.skip(i + 1)),
                        }),
                    decreases parts@.len() - j,
                {
                    let ghost prest = ps.skip(j as int);
                    assert(prest[0] == parts@[j as int]@);
                    assert(prest.drop_first() =~= ps.skip(j + 1));
                    let part = trim_chars(parts[j].as_slice());
                    match crate::text::strip_prefix(part.as_slice(), key.as_slice()) {
                        Some(val) => {
                            if val.len() > 0 {
                                return Ok(string_of(val.as_slice()));
                            }
                        },
                        None => {},
                    }
                    j = j + 1;
                }
                assert(ps.skip(parts@.len() as int) =~= Seq::<Seq<char>>::empty());
            },
        }
        i = i + 1;
    }
    assert(headers@.skip(headers@.len() as int) =~= Seq::<Result<String, String>>::empty());
    Err(UzumError::Auth("access_token not found in refresh set-cookie".to_owned()))
}

// ── GraphQL replies ──────────────────────────────────────────────────────

/// Texts joined with a separator between neighbours (`[..].join(sep)`).
pub open spec fn joined(parts: Seq<Seq<char>>, sep: Seq<char>) -> Seq<char>
    decreases parts.len(),
{
    if parts.len() == 0 {
        Seq::empty()
    } else if parts.len() == 1 {
        parts[0]
    } else {
        joined(parts.drop_last(), sep) + sep + parts.last()
    }
}

/// The messages of GraphQL errors.
pub open spec fn messages(errs: Seq<GqlError>) -> Seq<Seq<char>> {
    errs.map_values(|e: GqlError| e.message@)
}

/// The messages of GraphQL errors joined by `; `.
pub fn join_messages(errs: &Vec<GqlError>) -> (r: String)
    ensures
        r@ == joined(messages(errs@), "; "@),
{
    let sep = chars_of("; ");
    let mut out: Vec<char> = Vec::new();
    let mut i: usize = 0;
    assert(messages(errs@.take(0)) =~= Seq::<Seq<char>>::empty());
    while i < errs.len()
        invariant
            0 <= i <= errs@.len(),
            sep@ == "; "@,
            out@ == joined(messages(errs@.take(i as int)), "; "@),
        decreases errs@.len() - i,
    {
        let ghost before = messages(errs@.take(i as int));
        assert(messages(errs@.take(i + 1)) =~= before.push(errs@[i as int].message@));
        assert(before.push(errs@[i as int].message@).drop_last() =~= before);
        if i > 0 {
            append_chars(&mut out, sep.as_slice());
        }
        append_chars(&mut out, chars_of(errs[i].message.as_str()).as_slice());
        proof {
            if i == 0 {
                assert(Seq::<char>::empty() + errs@[0].message@ =~= errs@[0].message@);
            }
        }
        i = i + 1;
    }
    assert(errs@.take(errs@.len() as int) =~= errs@);
    string_of(out.as_slice())
}

/// The category tree of a categories reply: nothing unless its status is
/// 200; with 200, the payload's nodes, or no nodes when the payload is null.
pub fn category_tree_of(status: u16, payload: Option<Vec<CategoryNode>>) -> (r: Option<Vec<CategoryNode>>)
    ensures
        status != 200 ==> r is None,
        status == 200 ==> r is Some && r.unwrap()@ == (match payload {
            Some(p) => p@,
            None => Seq::<CategoryNode>::empty(),
        }),
{
    if status != 200 {
        None
    } else {
        match payload {
            Some(p) => Some(p),
            None => Some(Vec::new()),
        }
    }
}

/// The body of a product search request: the operation
/// `MakeSearch_ItemsAndFilters` with its variables and query text.
pub fn graphql_body(query: &str, variables: JsonValue) -> (r: JsonValue)
    ensures
        r matches JsonValue::Object(m) && m@.len() == 3,
        r.spec_str_at("operationName"@) == Some("MakeSearch_ItemsAndFilters"@),
        r.spec_get("variables"@) == Some(variables),
        r.spec_str_at("query"@) == Some(query@),
{
    let mut members: Vec<(String, JsonValue)> = Vec::new();
    members.push(("operationName".to_owned(), JsonValue::Str("MakeSearch_ItemsAndFilters".to_owned())));
    members.push(("variables".to_owned(), variables));
    members.push(("query".to_owned(), JsonValue::Str(query.to_owned())));
    proof {
        reveal_strlit("operationName");
        reveal_strlit("variables");
        reveal_strlit("query");
        let m = members@;
        let m1 = m.drop_first();
        let m2 = m1.drop_first();
        assert(m[0].0@ == "operationName"@);
        assert(m1[0].0@ == "variables"@);
        assert(m2[0].0@ == "query"@);
        assert("operationName"@.len() == 13 && "variables"@.len() == 9 && "query"@.len() == 5);
        assert(crate::json::lookup(m, "variables"@) == crate::json::lookup(m1, "variables"@));
        assert(crate::json::lookup(m, "query"@) == crate::json::lookup(m1, "query"@));
        assert(crate::json::lookup(m1, "query"@) == crate::json::lookup(m2, "query"@));
    }
    JsonValue::Object(members)
}

/// The outcome of a GraphQL reply: its errors joined by `; ` when it has an
/// `errors` list (even an empty one), else its data, else a "No data" error.
pub fn gql_result<T>(errors: Option<Vec<GqlError>>, data: Option<T>) -> (r: Result<T, UzumError>)
    ensures
        match errors {
            Some(errs) => r matches Err(UzumError::GraphQl(m)) && m@ == joined(messages(errs@), "; "@),
            None => match data {
                Some(d) => r matches Ok(v) && v == d,
                None => r matches Err(UzumError::GraphQl(m)) && m@ == "No data"@,
            },
        },
{
    match errors {
        Some(errs) => Err(UzumError::GraphQl(join_messages(&errs))),
        None => match data {
            Some(d) => Ok(d),
            None => Err(UzumError::GraphQl("No data".to_owned())),
        },
    }
}

/// After a reply with `status` on attempt `attempt` (from 0): whether to
/// refresh the token and send again. Only a first 401 with a token does.
pub fn refresh_on_status(attempt: u64, status: u16, has_token: bool) -> (r: bool)
    ensures
        r == (status == 401 && attempt == 0 && has_token),
{
    status == 401 && attempt == 0 && has_token
}

/// The search item's product id (`catalogCard.productId`).
pub fn extract_product_id(value: &JsonValue) -> (r: Option<ProductId>)
    ensures
        match r {
            Some(p) => product_id(*value) == Some(p.0),
            None => product_id(*value) is None,
        },
{
    match value.get("catalogCard") {
        Some(c) => match c.u64_at("productId") {
            Some(n) => Some(ProductId(n)),
            None => None,
        },
        None => None,
    }
}

} // verus!

verus! {

// ── Collecting one scope ──────────────────────────────────────────────

/// Where the collection of a scope stands.
#[derive(Debug, Clone, Copy, PartialEq, Eq, Structural)]
pub enum Stage {
    /// The first page (offset 0) is due.
    First,
    /// The page at `page * BATCH_SIZE` is due.
    Paging,
    /// Nothing more is asked for this scope.
    Done,
}

/// How the collection of a scope ended.
#[derive(Debug, Clone, Copy, PartialEq, Eq, Structural)]
pub enum ScopeOutcome {
    /// The first search failed; the scope is left as it was.
    Failed,
    /// The category has no products; the scope is left as it was.
    Empty,
    /// Pages were read.
    Collected,
}

/// What the run reports after a scope.
#[derive(Debug, Clone, Copy, PartialEq, Eq, Structural)]
pub enum Progress {
    /// Nothing to report.
    Quiet,
    /// Log progress and persist the state.
    LogAndPersist,
}

/// The collection of one scope: the newest pages are read until a page
/// holds no product newer than the saved high-water mark, the page is empty,
/// or the offset cap is reached.
#[derive(Debug)]
pub struct ScopeRun {
    pub category_id: CategoryId,
    pub incremental: bool,
    /// Products with ids above this are new.
    pub saved_max: u64,
    /// The largest product id seen so far (at least `saved_max`).
    pub cat_max: u64,
    pub found_new: bool,
    pub api_total: u64,
    /// `min(api_total, OFFSET_CAP)`: offsets from here on are not asked.
    pub limit: u64,
    /// The index of the next page while paging.
    pub page: u64,
    pub stage: Stage,
    pub outcome: Option<ScopeOutcome>,
}

impl ScopeRun {
    /// The states a scope run can reach: the offset due is below the cap.
    pub open spec fn wf(self) -> bool {
        &&& self.cat_max >= self.saved_max
        &&& self.limit <= OFFSET_CAP
        &&& self.stage == Stage::Paging ==> 1 <= self.page && self.page * BATCH_SIZE < self.limit
            && self.found_new
        &&& self.outcome is Some <==> self.stage == Stage::Done
        &&& self.stage == Stage::First ==> !self.found_new && self.cat_max == self.saved_max
        &&& (self.outcome == Some(ScopeOutcome::Failed) || self.outcome == Some(ScopeOutcome::Empty))
            ==> !self.found_new
    }

    /// The offset of the page due next.
    pub open spec fn spec_next_offset(self) -> Option<u64> {
        match self.stage {
            Stage::First => Some(0u64),
            Stage::Paging => Some((self.page * BATCH_SIZE) as u64),
            Stage::Done => None,
        }
    }

    /// Starts a scope; in incremental mode products up to the scope's saved
    /// `max_product_id` count as already collected.
    pub fn start(scope: &ScopeState, incremental: bool) -> (r: ScopeRun)
        ensures
            r.wf(),
            r.category_id == scope.category_id,
            r.incremental == incremental,
            r.saved_max == (if incremental { scope.max_product_id.0 } else { 0 }),
            r.cat_max == r.saved_max,
            !r.found_new,
            r.stage == Stage::First,
    {
        let saved_max = if incremental { scope.max_product_id.0 } else { 0 };
        ScopeRun {
            category_id: scope.category_id,
            incremental,
            saved_max,
            cat_max: saved_max,
            found_new: false,
            api_total: 0,
            limit: 0,
            page: 0,
            stage: Stage::First,
            outcome: None,
        }
    }

    /// The offset of the page due next; `None` when the scope is done.
    pub fn next_offset(&self) -> (r: Option<u64>)
        requires
            self.wf(),
        ensures
            r == self.spec_next_offset(),
            r matches Some(o) ==> o < OFFSET_CAP || o == 0,
    {
        match self.stage {
            Stage::First => Some(0),
            Stage::Paging => Some(self.page * BATCH_SIZE),
            Stage::Done => None,
        }
    }

    /// Takes the reply for the first page (`None`: the search failed).
    /// Writes the products newer than the saved mark, in order.
    pub fn on_first(&mut self, reply: Option<&MakeSearchInner>) -> (r: Vec<usize>)
        requires
            old(self).wf(),
            old(self).stage == Stage::First,
        ensures
            final(self).wf(),
            final(self).saved_max == old(self).saved_max,
            final(self).incremental == old(self).incremental,
            final(self).category_id == old(self).category_id,
            match reply {
                None => r@.len() == 0 && final(self).stage == Stage::Done
                    && final(self).outcome == Some(ScopeOutcome::Failed)
                    && final(self).cat_max == old(self).cat_max && !final(self).found_new,
                Some(first) => if first.total == 0 {
                    r@.len() == 0 && final(self).stage == Stage::Done
                        && final(self).outcome == Some(ScopeOutcome::Empty)
                        && final(self).cat_max == old(self).cat_max && !final(self).found_new
                } else {
                    &&& r@ == newer_positions(IdKey::Product, first.items@, old(self).saved_max)
                    &&& final(self).api_total == first.total
                    &&& final(self).limit == (if first.total < OFFSET_CAP { first.total } else { OFFSET_CAP })
                    &&& final(self).cat_max == max_with(old(self).cat_max, ids_of(IdKey::Product, first.items@))
                    &&& final(self).found_new == (r@.len() > 0)
                    &&& if r@.len() > 0 && BATCH_SIZE < final(self).limit {
                        final(self).stage == Stage::Paging && final(self).page == 1
                    } else {
                        final(self).stage == Stage::Done && final(self).outcome == Some(ScopeOutcome::Collected)
                    }
                },
            },
    {
        match reply {
            None => {
                self.stage = Stage::Done;
                self.outcome = Some(ScopeOutcome::Failed);
                Vec::new()
            },
            Some(first) => {
                if first.total == 0 {
                    self.stage = Stage::Done;
                    self.outcome = Some(ScopeOutcome::Empty);
                    return Vec::new();
                }
                self.api_total = first.total;
                self.limit = if first.total < OFFSET_CAP { first.total } else { OFFSET_CAP };
                let written = self.absorb_items(&first.items);
                self.found_new = written.len() > 0;
                if self.found_new && BATCH_SIZE < self.limit {
                    self.page = 1;
                    self.stage = Stage::Paging;
                } else {
                    self.stage = Stage::Done;
                    self.outcome = Some(ScopeOutcome::Collected);
                }
                written
            },
        }
    }

    /// Takes the reply for the page due (`None`: the search failed, which
    /// ends the scope). Writes the products newer than the saved mark.
    pub fn on_page(&mut self, reply: Option<&MakeSearchInner>) -> (r: Vec<usize>)
        requires
            old(self).wf(),
            old(self).stage == Stage::Paging,
        ensures
            final(self).wf(),
            final(self).saved_max == old(self).saved_max,
            final(self).incremental == old(self).incremental,
            final(self).category_id == old(self).category_id,
            final(self).found_new == old(self).found_new,
            final(self).api_total == old(self).api_total,
            final(self).limit == old(self).limit,
            match reply {
                None => r@.len() == 0 && final(self).stage == Stage::Done
                    && final(self).outcome == Some(ScopeOutcome::Collected)
                    && final(self).cat_max == old(self).cat_max,
                Some(page) => {
                    &&& r@ == newer_positions(IdKey::Product, page.items@, old(self).saved_max)
                    &&& final(self).cat_max == max_with(old(self).cat_max, ids_of(IdKey::Product, page.items@))
                    &&& if r@.len() > 0 && (old(self).page + 1) * BATCH_SIZE < old(self).limit {
                        final(self).stage == Stage::Paging && final(self).page == old(self).page + 1
                    } else {
                        final(self).stage == Stage::Done && final(self).outcome == Some(ScopeOutcome::Collected)
                    }
                },
            },
    {
        match reply {
            None => {
                self.stage = Stage::Done;
                self.outcome = Some(ScopeOutcome::Collected);
                Vec::new()
            },
            Some(page) => {
                let written = self.absorb_items(&page.items);
                if written.len() > 0 && (self.page + 1) * BATCH_SIZE < self.limit {
                    self.page = self.page + 1;
                } else {
                    self.stage = Stage::Done;
                    self.outcome = Some(ScopeOutcome::Collected);
                }
                written
            },
        }
    }

    /// Writes the items newer than the saved mark and raises `cat_max`.
    fn absorb_items(&mut self, items: &Vec<JsonValue>) -> (r: Vec<usize>)
        requires
            old(self).cat_max >= old(self).saved_max,
        ensures
            r@ == newer_positions(IdKey::Product, items@, old(self).saved_max),
            final(self).cat_max == max_with(old(self).cat_max, ids_of(IdKey::Product, items@)),
            final(self).cat_max >= final(self).saved_max,
            *final(self) == (ScopeRun { cat_max: final(self).cat_max, ..*old(self) }),
    {
        let mark = self.saved_max;
        let c0 = self.cat_max;
        let mut written: Vec<usize> = Vec::new();
        let mut i: usize = 0;
        assert(items@.take(0) =~= Seq::<JsonValue>::empty());
        while i < items.len()
            invariant
                0 <= i <= items@.len(),
                mark == old(self).saved_max,
                c0 == old(self).cat_max,
                c0 >= mark,
                *self == (ScopeRun { cat_max: self.cat_max, ..*old(self) }),
                written@ == newer_positions(IdKey::Product, items@.take(i as int), mark),
                self.cat_max == max_with(c0, ids_of(IdKey::Product, items@.take(i as int))),
            decreases items@.len() - i,
        {
            proof {
                lemma_ids_push(IdKey::Product, items@, i as int);
                lemma_newer_push(IdKey::Product, items@, mark, i as int);
            }
            match extract_product_id(&items[i]) {
                Some(pid) => {
                    proof {
                        lemma_max_with_push(c0, ids_of(IdKey::Product, items@.take(i as int)), pid.0);
                    }
                    if pid.0 > mark {
                        written.push(i);
                    }
                    if pid.0 > self.cat_max {
                        self.cat_max = pid.0;
                    }
                },
                None => {},
            }
            i = i + 1;
        }
        assert(items@.take(items@.len() as int) =~= items@);
        proof { lemma_ids_below_mark(IdKey::Product, c0, items@); }
        written
    }

    /// Records the scope's new high-water mark and total, when it was read
    /// and either held new products or this is a fresh run.
    pub fn finish(&self, scope: &mut ScopeState)
        requires
            self.wf(),
        ensures
            if self.outcome == Some(ScopeOutcome::Collected) && (self.found_new || !self.incremental) {
                *final(scope) == (ScopeState {
                    max_product_id: ProductId(self.cat_max),
                    total: self.api_total,
                    ..*old(scope)
                })
            } else {
                *final(scope) == *old(scope)
            },
    {
        match self.outcome {
            Some(ScopeOutcome::Collected) => {
                if self.found_new || !self.incremental {
                    scope.max_product_id = ProductId(self.cat_max);
                    scope.total = self.api_total;
                }
            },
            _ => {},
        }
    }

    /// What to report after the scope numbered `processed` (from 1) of `total`:
    /// every 50th scope and the last one log progress and persist the state,
    /// whatever the scope found.
    pub fn progress_after(&self, processed: u64, total: u64) -> (r: Progress)
        requires
            self.stage == Stage::Done,
        ensures
            r == (if processed % 50 == 0 || processed == total {
                Progress::LogAndPersist
            } else {
                Progress::Quiet
            }),
    {
        if progress_due(processed, total) {
            Progress::LogAndPersist
        } else {
            Progress::Quiet
        }
    }
}

/// Whether progress is logged and the state persisted after the scope
/// numbered `processed` of `total`: every 50th scope and the last one
/// (the check of `log_progress_if_needed`).
pub fn progress_due(processed: u64, total: u64) -> (r: bool)
    ensures
        r == (processed % 50 == 0 || processed == total),
{
    processed % 50 == 0 || processed == total
}

/// The page offsets a scope run asks for stay below the offset cap.
pub proof fn lemma_offsets_below_cap(run: ScopeRun)
    requires
        run.wf(),
    ensures
        run.spec_next_offset() matches Some(o) ==> o < OFFSET_CAP || (o == 0 && run.stage == Stage::First),
{
}

/// A scope collected again from the saved mark finds nothing new on a page
/// it has already read: the mark is at least every product id seen.
pub proof fn lemma_rerun_finds_nothing_new(saved_max: u64, items: Seq<JsonValue>)
    ensures
        newer_positions(IdKey::Product, items, max_with(saved_max, ids_of(IdKey::Product, items)))
            == Seq::<usize>::empty(),
        max_with(saved_max, ids_of(IdKey::Product, items)) >= saved_max,
{
    lemma_ids_below_mark(IdKey::Product, saved_max, items);
    lemma_none_newer(IdKey::Product, items, max_with(saved_max, ids_of(IdKey::Product, items)));
}

} // verus!

verus! {

// ── Scope discovery over the category tree ─────────────────────────────

/// What discovery does with a category after asking for its total.
#[derive(Debug, Clone, Copy, PartialEq, Eq, Structural)]
pub enum ScopeDecision {
    /// No products, or the search failed: the category is passed over.
    Skip,
    /// The category is collected as one scope.
    Take,
    /// The category has more products than the offset cap allows and has
    /// children: its children are discovered in its place.
    Drill,
}

/// Whether a node has a non-empty list of children.
pub open spec fn has_children(node: CategoryNode) -> bool {
    match node.children {
        Some(c) => c@.len() > 0,
        None => false,
    }
}

/// The children of a node, in order.
pub open spec fn children_of(node: CategoryNode) -> Seq<CategoryNode> {
    match node.children {
        Some(c) => c@,
        None => Seq::empty(),
    }
}

/// The decision for a category with the given search total (`None`: the
/// search failed).
pub open spec fn decide_scope(total: Option<u64>, children: bool) -> ScopeDecision {
    match total {
        None => ScopeDecision::Skip,
        Some(t) => if t == 0 {
            ScopeDecision::Skip
        } else if t <= OFFSET_CAP || !children {
            ScopeDecision::Take
        } else {
            ScopeDecision::Drill
        },
    }
}

/// The decision for a category with the given search total.
pub fn scope_decision(total: Option<u64>, children: bool) -> (r: ScopeDecision)
    ensures
        r == decide_scope(total, children),
{
    match total {
        None => ScopeDecision::Skip,
        Some(t) => if t == 0 {
            ScopeDecision::Skip
        } else if t <= OFFSET_CAP || !children {
            ScopeDecision::Take
        } else {
            ScopeDecision::Drill
        },
    }
}

/// Discovery of the scopes to collect: categories are taken in depth-first
/// order; each is asked for its total once, and then skipped, taken as a
/// scope, or replaced by its children.
#[derive(Debug)]
pub struct ScopeWalk {
    /// Categories still to decide, the next one last.
    stack: Vec<CategoryNode>,
    scopes: Vec<ScopeState>,
}

impl ScopeWalk {
    /// The categories still to decide, the next one first.
    pub closed spec fn pending(&self) -> Seq<CategoryNode> {
        self.stack@.reverse()
    }

    /// The scopes found so far, in order.
    pub closed spec fn found(&self) -> Seq<ScopeState> {
        self.scopes@
    }

    /// Discovery over the given top-level categories.
    pub fn new(tree: Vec<CategoryNode>) -> (r: ScopeWalk)
        ensures
            r.pending() == tree@,
            r.found() == Seq::<ScopeState>::empty(),
    {
        let mut tree = tree;
        let ghost t0 = tree@;
        let mut stack: Vec<CategoryNode> = Vec::new();
        while tree.len() > 0
            invariant
                t0 == tree@ + stack@.reverse(),
            decreases tree@.len(),
        {
            let ghost before = tree@;
            let n = tree.pop().unwrap();
            assert(before == tree@.push(n));
            let ghost s0 = stack@;
            stack.push(n);
            assert(stack@.reverse() =~= seq![n] + s0.reverse());
            assert(t0 =~= tree@ + stack@.reverse());
        }
        assert(t0 =~= stack@.reverse());
        ScopeWalk { stack, scopes: Vec::new() }
    }

    /// The category to ask about next; `None` when discovery is over.
    pub fn next_category(&self) -> (r: Option<CategoryId>)
        ensures
            match r {
                Some(id) => self.pending().len() > 0 && self.pending()[0].id == id,
                None => self.pending().len() == 0,
            },
    {
        if self.stack.len() == 0 {
            None
        } else {
            let n = self.stack.len() - 1;
            assert(self.stack@.reverse()[0] == self.stack@[n as int]);
            Some(self.stack[n].id)
        }
    }

    /// Takes the total of the category just asked about (`None`: the search
    /// failed) and decides it.
    pub fn on_total(&mut self, total: Option<u64>) -> (r: ScopeDecision)
        requires
            old(self).pending().len() > 0,
        ensures
            r == decide_scope(total, has_children(old(self).pending()[0])),
            r == ScopeDecision::Skip ==> final(self).pending() == old(self).pending().drop_first()
                && final(self).found() == old(self).found(),
            r == ScopeDecision::Take ==> final(self).pending() == old(self).pending().drop_first()
                && final(self).found() == old(self).found().push(ScopeState {
                    category_id: old(self).pending()[0].id,
                    total: total.unwrap(),
                    max_product_id: ProductId(0),
                }),
            r == ScopeDecision::Drill ==> final(self).pending()
                == children_of(old(self).pending()[0]) + old(self).pending().drop_first()
                && final(self).found() == old(self).found(),
    {
        let ghost p0 = self.stack@.reverse();
        let node = self.stack.pop().unwrap();
        proof {
            assert(old(self).stack@ == self.stack@.push(node));
            assert(p0[0] == node);
            assert(self.stack@.reverse() =~= p0.drop_first());
        }
        let children = match &node.children {
            Some(c) => c.len() > 0,
            None => false,
        };
        assert(children == has_children(node));
        let d = scope_decision(total, children);
        let ghost node_v = node;
        assert(node_v == old(self).pending()[0]);
        match d {
            ScopeDecision::Skip => {},
            ScopeDecision::Take => {
                let t = match total { Some(t) => t, None => 0 };
                self.scopes.push(ScopeState {
                    category_id: node.id,
                    total: t,
                    max_product_id: ProductId(0),
                });
            },
            ScopeDecision::Drill => {
                let ghost rest = self.stack@.reverse();
                let mut kids = match node.children {
                    Some(c) => c,
                    None => Vec::new(),
                };
                let ghost k0 = kids@;
                assert(k0 == children_of(node));
                while kids.len() > 0
                    invariant
                        k0 + rest == kids@ + self.stack@.reverse(),
                        self.scopes@ == old(self).scopes@,
                    decreases kids@.len(),
                {
                    let ghost before = kids@;
                    let c = kids.pop().unwrap();
                    assert(before == kids@.push(c));
                    let ghost s0 = self.stack@;
                    self.stack.push(c);
                    assert(self.stack@.reverse() =~= seq![c] + s0.reverse());
                    assert(k0 + rest =~= kids@ + self.stack@.reverse());
                }
                assert(k0 + rest =~= self.stack@.reverse());
                assert(self.pending() == children_of(node_v) + old(self).pending().drop_first());
            },
        }
        d
    }

    /// The scopes found, in order.
    pub fn into_scopes(self) -> (r: Vec<ScopeState>)
        ensures
            r@ == self.found(),
    {
        self.scopes
    }
}

} // verus!

verus! {

/// What recursive discovery (`discover_scopes`) finds among `nodes`, when
/// the search for the `k`-th category asked about answers `answers(k)`,
/// counting from `first`: the scopes in order, and the number of the next
/// category to be asked. Each category is asked once; one that is drilled
/// into is followed at once by its children, before its next sibling.
pub open spec fn discover(nodes: Seq<CategoryNode>, answers: spec_fn(int) -> Option<u64>, first: int)
    -> (Seq<ScopeState>, int)
    decreases nodes,
{
    if nodes.len() == 0 {
        (Seq::empty(), first)
    } else {
        let n = nodes[0];
        let a = answers(first);
        let (head, next) = match decide_scope(a, has_children(n)) {
            ScopeDecision::Skip => (Seq::<ScopeState>::empty(), first + 1),
            ScopeDecision::Take => (
                seq![ScopeState { category_id: n.id, total: a.unwrap(), max_product_id: ProductId(0) }],
                first + 1,
            ),
            ScopeDecision::Drill => {
                let kids = match n.children {
                    Some(c) => c@,
                    None => Seq::empty(),
                };
                proof {
                    assert(decreases_to!(nodes => nodes[0]));
                }
                discover(kids, answers, first + 1)
            },
        };
        let (tail, last) = discover(nodes.drop_first(), answers, next);
        (head + tail, last)
    }
}

/// Discovery over two lists one after the other is discovery over the first
/// and then over the second, from the category number the first ends at.
pub proof fn lemma_discover_concat(
    a: Seq<CategoryNode>,
    b: Seq<CategoryNode>,
    answers: spec_fn(int) -> Option<u64>,
    first: int,
)
    ensures
        ({
            let (sa, ka) = discover(a, answers, first);
            let (sb, kb) = discover(b, answers, ka);
            discover(a + b, answers, first) == (sa + sb, kb)
        }),
    decreases a.len(),
{
    if a.len() == 0 {
        assert(a + b =~= b);
        let (sb, kb) = discover(b, answers, first);
        assert(Seq::<ScopeState>::empty() + sb =~= sb);
    } else {
        let ab = a + b;
        assert(ab[0] == a[0]);
        assert(ab.drop_first() =~= a.drop_first() + b);
        let n = a[0];
        let ans = answers(first);
        let next = match decide_scope(ans, has_children(n)) {
            ScopeDecision::Drill => discover(children_of(n), answers, first + 1).1,
            _ => first + 1,
        };
        lemma_discover_concat(a.drop_first(), b, answers, next);
        let (head, nx) = match decide_scope(ans, has_children(n)) {
            ScopeDecision::Skip => (Seq::<ScopeState>::empty(), first + 1),
            ScopeDecision::Take => (
                seq![ScopeState { category_id: n.id, total: ans.unwrap(), max_product_id: ProductId(0) }],
                first + 1,
            ),
            ScopeDecision::Drill => discover(children_of(n), answers, first + 1),
        };
        assert(nx == next);
        let (ta, ka) = discover(a.drop_first(), answers, next);
        let (tb, kb) = discover(b, answers, ka);
        assert(head + (ta + tb) =~= (head + ta) + tb);
    }
}

/// One step of `ScopeWalk` follows recursive discovery: the scopes that
/// discovery finds among the pending categories are the step's own scope,
/// if any, followed by those it finds among the categories pending after
/// the step. With `ScopeWalk::on_total`, the scopes found so far followed by
/// what discovery finds among the pending categories stay the same at every
/// step; so a walk that answers each query as `answers` does ends with the
/// scopes of `discover(tree, answers, 0)`.
pub proof fn lemma_walk_step_follows_discovery(
    pending: Seq<CategoryNode>,
    answers: spec_fn(int) -> Option<u64>,
    k: int,
)
    requires
        pending.len() > 0,
    ensures
        ({
            let n = pending[0];
            let a = answers(k);
            let d = decide_scope(a, has_children(n));
            let head = if d == ScopeDecision::Take {
                seq![ScopeState { category_id: n.id, total: a.unwrap(), max_product_id: ProductId(0) }]
            } else {
                Seq::<ScopeState>::empty()
            };
            let next_pending = if d == ScopeDecision::Drill {
                children_of(n) + pending.drop_first()
            } else {
                pending.drop_first()
            };
            discover(pending, answers, k).0 == head + discover(next_pending, answers, k + 1).0
        }),
{
    let n = pending[0];
    let a = answers(k);
    if decide_scope(a, has_children(n)) == ScopeDecision::Drill {
        lemma_discover_concat(children_of(n), pending.drop_first(), answers, k + 1);
        let (s, _) = discover(children_of(n), answers, k + 1);
        assert(Seq::<ScopeState>::empty() + s =~= s);
        let (s2, _) = discover(children_of(n) + pending.drop_first(), answers, k + 1);
        assert(Seq::<ScopeState>::empty() + s2 =~= s2);
    }
}

/// Discovery over no categories finds nothing.
pub proof fn lemma_discover_empty(answers: spec_fn(int) -> Option<u64>, k: int)
    ensures
        discover(Seq::empty(), answers, k) == (Seq::<ScopeState>::empty(), k),
{
}

} // verus!

verus! {

/// The search API refuses `offset + limit > 10000`: every page a scope run
/// asks for keeps within it.
pub proof fn lemma_requests_within_api_window(run: ScopeRun)
    requires
        run.wf(),
    ensures
        run.spec_next_offset() matches Some(o) ==> o + BATCH_SIZE <= 10000,
{
}

} // verus!
