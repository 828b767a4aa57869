//! The credential discovery pipeline: decode each cache row's header blob,
//! locate the header map inside it, build a credential candidate, drop
//! duplicate bearer tokens, and rank what is left by endpoint priority and
//! recency.

use vstd::prelude::*;
use vstd::string::*;

use crate::doc::{
    decode_plist, doc_get, doc_has_key, docs_view, lemma_docs_view, plist_doc_of, spec_get,
    spec_opt_value_string, value_as_string, DocValue, DocView,
};
use crate::model::{spec_device_name, KakaoCredentials};
use crate::text::{
    find_char, parse_i64_or_zero, spec_contains, spec_find, spec_parse_i64, str_contains,
    str_eq,
};

verus! {

// ---------------------------------------------------------------------------
// Views
// ---------------------------------------------------------------------------

/// Mathematical shape of recovered credentials.
pub struct CredView {
    pub oauth_token: Seq<char>,
    pub user_id: int,
    pub device_uuid: Seq<char>,
    pub device_name: Seq<char>,
    pub app_version: Seq<char>,
    pub user_agent: Seq<char>,
    pub a_header: Seq<char>,
}

impl View for KakaoCredentials {
    type V = CredView;

    open spec fn view(&self) -> CredView {
        CredView {
            oauth_token: self.oauth_token@,
            user_id: self.user_id as int,
            device_uuid: self.device_uuid@,
            device_name: self.device_name@,
            app_version: self.app_version@,
            user_agent: self.user_agent@,
            a_header: self.a_header@,
        }
    }
}

/// One matched cache entry: the opaque header blob, the request key (the
/// URL that was cached) and its timestamp.
pub struct CacheRow {
    pub request_object: Vec<u8>,
    pub request_key: String,
    pub timestamp: i64,
}

/// Mathematical shape of a cache row.
pub struct RowView {
    pub request_object: Seq<u8>,
    pub request_key: Seq<char>,
    pub timestamp: i64,
}

impl View for CacheRow {
    type V = RowView;

    open spec fn view(&self) -> RowView {
        RowView {
            request_object: self.request_object@,
            request_key: self.request_key@,
            timestamp: self.timestamp,
        }
    }
}

/// A credential candidate together with the evidence it was ranked by.
pub struct ExtractedCredential {
    pub creds: KakaoCredentials,
    pub timestamp: i64,
    pub source_url: String,
    pub priority: u8,
}

/// Mathematical shape of a ranked candidate.
pub struct CandView {
    pub creds: CredView,
    pub timestamp: i64,
    pub source_url: Seq<char>,
    pub priority: u8,
}

impl View for ExtractedCredential {
    type V = CandView;

    open spec fn view(&self) -> CandView {
        CandView {
            creds: self.creds@,
            timestamp: self.timestamp,
            source_url: self.source_url@,
            priority: self.priority,
        }
    }
}

impl Clone for ExtractedCredential {
    /// Field-for-field copy.
    fn clone(&self) -> (c: Self)
        ensures
            c == *self,
    {
        ExtractedCredential {
            creds: self.creds.clone(),
            timestamp: self.timestamp,
            source_url: self.source_url.clone(),
            priority: self.priority,
        }
    }
}

pub open spec fn rows_view(rows: Seq<CacheRow>) -> Seq<RowView> {
    rows.map_values(|r: CacheRow| r@)
}

pub open spec fn cands_view(cands: Seq<ExtractedCredential>) -> Seq<CandView> {
    cands.map_values(|c: ExtractedCredential| c@)
}

// ---------------------------------------------------------------------------
// Endpoint priority
// ---------------------------------------------------------------------------

/// Priority tier of the endpoint a candidate was observed against:
/// account settings above chat list and own profile, above everything else.
pub open spec fn spec_url_priority(url: Seq<char>) -> u8 {
    if spec_contains(url, "/mac/account/more_settings.json"@) {
        3u8
    } else if spec_contains(url, "/messaging/chats"@) || spec_contains(
        url,
        "/mac/profile3/me.json"@,
    ) {
        2u8
    } else {
        1u8
    }
}

/// Classify a request URL into its priority tier.
pub fn url_priority(url: &str) -> (p: u8)
    ensures
        p == spec_url_priority(url@),
{
    if str_contains(url, "/mac/account/more_settings.json") {
        3
    } else if str_contains(url, "/messaging/chats") || str_contains(url, "/mac/profile3/me.json") {
        2
    } else {
        1
    }
}

// ---------------------------------------------------------------------------
// Locating the header map inside a decoded blob
// ---------------------------------------------------------------------------

/// First element that is a map holding an Authorization key.
pub open spec fn spec_first_headers(items: Seq<DocView>) -> Option<DocView>
    decreases items.len(),
{
    if items.len() == 0 {
        None
    } else if spec_get(items[0], "Authorization"@) is Some {
        Some(items[0])
    } else {
        spec_first_headers(items.drop_first())
    }
}

/// The header map inside a decoded blob: the first element of the root
/// map's "Array" property that itself is a map holding an Authorization
/// key.
pub open spec fn spec_find_headers(doc: DocView) -> Option<DocView> {
    match spec_get(doc, "Array"@) {
        Some(DocView::Arr(items)) => spec_first_headers(items),
        _ => None,
    }
}

/// Locate the header map inside a decoded blob, if any element qualifies.
#[verifier::loop_isolation(false)]
pub fn find_headers_map<'a>(doc: &'a DocValue) -> (r: Option<&'a DocValue>)
    ensures
        match r {
            Some(h) => spec_find_headers(doc@) == Some(h@),
            None => spec_find_headers(doc@) is None,
        },
{
    match doc_get(doc, "Array") {
        Some(arr) => match arr {
            DocValue::Arr(items) => {
                let ghost ms = docs_view(items@);
                proof {
                    lemma_docs_view(items@);
                    assert(ms.skip(0) =~= ms);
                }
                let mut i: usize = 0;
                while i < items.len()
                    invariant
                        i <= items@.len(),
                        spec_first_headers(ms) == spec_first_headers(ms.skip(i as int)),
                    decreases items@.len() - i,
                {
                    proof {
                        assert(ms.skip(i as int)[0] == ms[i as int]);
                    }
                    if doc_has_key(&items[i], "Authorization") {
                        return Some(&items[i]);
                    }
                    proof {
                        assert(ms.skip(i as int).drop_first() =~= ms.skip(i + 1));
                    }
                    i += 1;
                }
                proof {
                    assert(ms.skip(i as int) =~= Seq::<DocView>::empty());
                }
                None
            },
            _ => None,
        },
        None => None,
    }
}

// ---------------------------------------------------------------------------
// Field derivation
// ---------------------------------------------------------------------------

/// The device id a token carries: everything after its first '-', or empty
/// when it has none.
pub open spec fn spec_device_id(token: Seq<char>) -> Seq<char> {
    let f = spec_find(token, '-');
    if f == -1 {
        Seq::empty()
    } else {
        token.subrange(f + 1, token.len() as int)
    }
}

/// Derive the device id from a bearer token.
pub fn derive_device_id(token: &str) -> (r: String)
    ensures
        r@ == spec_device_id(token@),
{
    match find_char(token, '-') {
        Some(i) => {
            let len = token.unicode_len();
            token.substring_char(i + 1, len).to_owned()
        },
        None => String::new(),
    }
}

/// The app version an `A` header carries: its second slash-delimited
/// segment, or the fixed default when it has no slash.
pub open spec fn spec_app_version(a: Seq<char>) -> Seq<char> {
    let f = spec_find(a, '/');
    if f == -1 {
        "3.7.0"@
    } else {
        let rest = a.subrange(f + 1, a.len() as int);
        let g = spec_find(rest, '/');
        if g == -1 {
            rest
        } else {
            rest.subrange(0, g)
        }
    }
}

/// Derive the app version from an `A` header value.
pub fn app_version_from_a(a: &str) -> (r: String)
    ensures
        r@ == spec_app_version(a@),
{
    match find_char(a, '/') {
        Some(f) => {
            let len = a.unicode_len();
            let rest = a.substring_char(f + 1, len);
            match find_char(rest, '/') {
                Some(g) => rest.substring_char(0, g).to_owned(),
                None => rest.to_owned(),
            }
        },
        None => "3.7.0".to_owned(),
    }
}

/// A header's value coerced to a string, or empty when absent.
pub open spec fn spec_header_string(h: DocView, key: Seq<char>) -> Seq<char> {
    match spec_opt_value_string(spec_get(h, key)) {
        Some(s) => s,
        None => Seq::empty(),
    }
}

// ---------------------------------------------------------------------------
// One row's candidate
// ---------------------------------------------------------------------------

/// The candidate a single cache row yields: the decoded blob's header map
/// turned into credentials, or nothing when the blob does not decode, no
/// header map is found, or the Authorization value is absent or empty.
pub open spec fn spec_row_candidate(row: RowView) -> Option<CandView> {
    match plist_doc_of(row.request_object) {
        None => None,
        Some(doc) => match spec_find_headers(doc) {
            None => None,
            Some(h) => match spec_opt_value_string(spec_get(h, "Authorization"@)) {
                None => None,
                Some(token) => if token.len() == 0 {
                    None
                } else {
                    Some(
                        CandView {
                            creds: CredView {
                                oauth_token: token,
                                user_id: match spec_opt_value_string(
                                    spec_get(h, "talk-user-id"@),
                                ) {
                                    Some(s) => spec_parse_i64(s),
                                    None => 0,
                                },
                                device_uuid: spec_device_id(token),
                                device_name: spec_device_name(),
                                app_version: spec_app_version(spec_header_string(h, "A"@)),
                                user_agent: spec_header_string(h, "User-Agent"@),
                                a_header: spec_header_string(h, "A"@),
                            },
                            timestamp: row.timestamp,
                            source_url: row.request_key,
                            priority: spec_url_priority(row.request_key),
                        },
                    )
                },
            },
        },
    }
}

/// The candidates of a row sequence, in row order, rows that yield nothing
/// dropped.
pub open spec fn spec_row_candidates(rows: Seq<RowView>) -> Seq<CandView>
    decreases rows.len(),
{
    if rows.len() == 0 {
        Seq::empty()
    } else {
        let rest = spec_row_candidates(rows.drop_last());
        match spec_row_candidate(rows.last()) {
            Some(c) => rest.push(c),
            None => rest,
        }
    }
}

// ---------------------------------------------------------------------------
// Deduplication by bearer token
// ---------------------------------------------------------------------------

/// Some candidate carries this token.
pub open spec fn spec_has_token(cands: Seq<CandView>, token: Seq<char>) -> bool {
    exists|i: int| 0 <= i < cands.len() && (#[trigger] cands[i]).creds.oauth_token == token
}

/// Keep the first candidate of each distinct bearer token, in order.
pub open spec fn spec_dedup(cands: Seq<CandView>) -> Seq<CandView>
    decreases cands.len(),
{
    if cands.len() == 0 {
        Seq::empty()
    } else {
        let rest = spec_dedup(cands.drop_last());
        if spec_has_token(rest, cands.last().creds.oauth_token) {
            rest
        } else {
            rest.push(cands.last())
        }
    }
}

/// Whether a candidate with this token was already kept.
#[verifier::loop_isolation(false)]
fn has_token(cands: &Vec<ExtractedCredential>, token: &str) -> (r: bool)
    ensures
        r <==> spec_has_token(cands_view(cands@), token@),
{
    let mut i: usize = 0;
    while i < cands.len()
        invariant
            i <= cands@.len(),
            forall|k: int|
                0 <= k < i ==> (#[trigger] cands_view(cands@)[k]).creds.oauth_token != token@,
        decreases cands@.len() - i,
    {
        if str_eq(cands[i].creds.oauth_token.as_str(), token) {
            proof {
                assert(cands_view(cands@)[i as int].creds.oauth_token == token@);
            }
            return true;
        }
        i += 1;
    }
    false
}

// ---------------------------------------------------------------------------
// Ranking
// ---------------------------------------------------------------------------

/// `a` must come strictly before `b`: higher priority first, then more
/// recent first.
pub open spec fn spec_rank_before(a: CandView, b: CandView) -> bool {
    a.priority > b.priority || (a.priority == b.priority && a.timestamp > b.timestamp)
}

/// Insert `x` behind every element it need not precede; among equals the
/// newcomer goes last, which keeps the ranking stable.
pub open spec fn spec_insert_ranked(x: CandView, s: Seq<CandView>) -> Seq<CandView>
    decreases s.len(),
{
    if s.len() == 0 {
        seq![x]
    } else if spec_rank_before(x, s[0]) {
        seq![x] + s
    } else {
        seq![s[0]] + spec_insert_ranked(x, s.drop_first())
    }
}

/// Stable ranking of candidates: priority descending, then timestamp
/// descending, ties keeping their original relative order.
pub open spec fn spec_rank_sort(s: Seq<CandView>) -> Seq<CandView>
    decreases s.len(),
{
    if s.len() == 0 {
        Seq::empty()
    } else {
        spec_insert_ranked(s.last(), spec_rank_sort(s.drop_last()))
    }
}

/// `a` must come strictly before `b` in the ranking.
fn rank_before(a: &ExtractedCredential, b: &ExtractedCredential) -> (r: bool)
    ensures
        r == spec_rank_before(a@, b@),
{
    a.priority > b.priority || (a.priority == b.priority && a.timestamp > b.timestamp)
}

proof fn lemma_insert_ranked_at(x: CandView, s: Seq<CandView>, j: int)
    requires
        0 <= j <= s.len(),
        forall|k: int| 0 <= k < j ==> !spec_rank_before(x, #[trigger] s[k]),
        j < s.len() ==> spec_rank_before(x, s[j]),
    ensures
        spec_insert_ranked(x, s) == s.take(j) + seq![x] + s.skip(j),
    decreases j,
{
    if s.len() == 0 {
        assert(s.take(0) + seq![x] + s.skip(0) =~= seq![x]);
    } else if j == 0 {
        assert(s.take(0) + seq![x] + s.skip(0) =~= seq![x] + s);
    } else {
        assert(!spec_rank_before(x, s[0]));
        lemma_insert_ranked_at(x, s.drop_first(), j - 1);
        assert(s.drop_first().take(j - 1) =~= s.take(j).drop_first());
        assert(s.drop_first().skip(j - 1) =~= s.skip(j));
        assert(seq![s[0]] + (s.drop_first().take(j - 1) + seq![x] + s.drop_first().skip(j - 1))
            =~= s.take(j) + seq![x] + s.skip(j));
    }
}

/// Rank candidates: a stable insertion sort by priority descending, then
/// timestamp descending.
#[verifier::loop_isolation(false)]
pub fn rank_sort(cands: Vec<ExtractedCredential>) -> (out: Vec<ExtractedCredential>)
    ensures
        cands_view(out@) == spec_rank_sort(cands_view(cands@)),
{
    let mut out: Vec<ExtractedCredential> = Vec::new();
    let mut i: usize = 0;
    proof {
        assert(cands_view(cands@).take(0) =~= Seq::<CandView>::empty());
    }
    while i < cands.len()
        invariant
            i <= cands@.len(),
            cands_view(out@) == spec_rank_sort(cands_view(cands@).take(i as int)),
        decreases cands@.len() - i,
    {
        let c = cands[i].clone();
        let mut j: usize = 0;
        while j < out.len()
            invariant
                j <= out@.len(),
                forall|k: int|
                    0 <= k < j ==> !spec_rank_before(c@, (#[trigger] cands_view(out@)[k])),
            decreases out@.len() - j,
        {
            if rank_before(&c, &out[j]) {
                break;
            }
            proof {
                assert(cands_view(out@)[j as int] == out@[j as int]@);
            }
            j += 1;
        }
        proof {
            let ghost ov = cands_view(out@);
            if j < out@.len() {
                assert(ov[j as int] == out@[j as int]@);
            }
            lemma_insert_ranked_at(c@, ov, j as int);
        }
        out.insert(j, c);
        proof {
            let ghost cv = cands_view(cands@);
            assert(cv.take(i + 1).drop_last() =~= cv.take(i as int));
            assert(cv.take(i + 1).last() == cv[i as int]);
            assert(cv[i as int] == cands@[i as int]@);
            assert(cands_view(out@) =~= spec_rank_sort(cv.take(i + 1)));
        }
        i += 1;
    }
    proof {
        assert(cands_view(cands@).take(i as int) =~= cands_view(cands@));
    }
    out
}

// ---------------------------------------------------------------------------
// Laws of deduplication and ranking
// ---------------------------------------------------------------------------

/// No two kept candidates share a bearer token.
pub open spec fn spec_distinct_tokens(s: Seq<CandView>) -> bool {
    forall|i: int, j: int|
        0 <= i < j < s.len() ==> (#[trigger] s[i]).creds.oauth_token != (
        #[trigger] s[j]).creds.oauth_token
}

/// Deduplication leaves no duplicate tokens behind.
pub proof fn lemma_dedup_distinct(s: Seq<CandView>)
    ensures
        spec_distinct_tokens(spec_dedup(s)),
    decreases s.len(),
{
    if s.len() > 0 {
        lemma_dedup_distinct(s.drop_last());
        let rest = spec_dedup(s.drop_last());
        if !spec_has_token(rest, s.last().creds.oauth_token) {
            let out = rest.push(s.last());
            assert forall|i: int, j: int|
                0 <= i < j < out.len() implies (#[trigger] out[i]).creds.oauth_token != (
            #[trigger] out[j]).creds.oauth_token by {
                if j == out.len() - 1 {
                    assert(out[i] == rest[i]);
                }
            }
        }
    }
}

/// Deduplication does not touch a list already free of duplicate tokens.
pub proof fn lemma_dedup_of_distinct(s: Seq<CandView>)
    requires
        spec_distinct_tokens(s),
    ensures
        spec_dedup(s) == s,
    decreases s.len(),
{
    if s.len() > 0 {
        assert forall|i: int, j: int|
            0 <= i < j < s.drop_last().len() implies (
        #[trigger] s.drop_last()[i]).creds.oauth_token != (
        #[trigger] s.drop_last()[j]).creds.oauth_token by {
            assert(s.drop_last()[i] == s[i] && s.drop_last()[j] == s[j]);
        }
        lemma_dedup_of_distinct(s.drop_last());
        if spec_has_token(s.drop_last(), s.last().creds.oauth_token) {
            let i = choose|i: int|
                0 <= i < s.drop_last().len() && (#[trigger] s.drop_last()[i]).creds.oauth_token
                    == s.last().creds.oauth_token;
            assert(s[i].creds.oauth_token == s[s.len() - 1].creds.oauth_token);
            assert(false);
        }
        assert(spec_dedup(s) =~= s);
    }
}

/// Law: deduplication by bearer token is idempotent. Running it a second
/// time over an already deduplicated candidate list changes nothing, so
/// extraction over any row set, duplicates included, yields a fixed point.
pub proof fn lemma_dedup_idempotent(s: Seq<CandView>)
    ensures
        spec_dedup(spec_dedup(s)) == spec_dedup(s),
{
    lemma_dedup_distinct(s);
    lemma_dedup_of_distinct(spec_dedup(s));
}

/// The ranking order is in force: no candidate must come strictly before
/// an earlier one.
pub open spec fn spec_ranked(s: Seq<CandView>) -> bool {
    forall|i: int, j: int|
        0 <= i < j < s.len() ==> !spec_rank_before(#[trigger] s[j], #[trigger] s[i])
}

/// Every element of an insertion is the inserted one or one of the old
/// ones.
proof fn lemma_insert_ranked_elems(x: CandView, s: Seq<CandView>)
    ensures
        spec_insert_ranked(x, s).len() == s.len() + 1,
        forall|k: int|
            0 <= k < spec_insert_ranked(x, s).len() ==> (#[trigger] spec_insert_ranked(x, s)[k]
                == x || exists|m: int| 0 <= m < s.len() && spec_insert_ranked(x, s)[k] == s[m]),
    decreases s.len(),
{
    if s.len() > 0 && !spec_rank_before(x, s[0]) {
        lemma_insert_ranked_elems(x, s.drop_first());
        let out = seq![s[0]] + spec_insert_ranked(x, s.drop_first());
        assert forall|k: int| 0 <= k < out.len() implies (#[trigger] out[k] == x || exists|m: int|
            0 <= m < s.len() && out[k] == s[m]) by {
            if k == 0 {
                assert(out[0] == s[0]);
            } else {
                let inner = spec_insert_ranked(x, s.drop_first());
                assert(out[k] == inner[k - 1]);
                if inner[k - 1] != x {
                    let m = choose|m: int|
                        0 <= m < s.drop_first().len() && inner[k - 1] == s.drop_first()[m];
                    assert(out[k] == s[m + 1]);
                }
            }
        }
    }
}

/// Inserting into a ranked list keeps it ranked.
proof fn lemma_insert_ranked_sorted(x: CandView, s: Seq<CandView>)
    requires
        spec_ranked(s),
    ensures
        spec_ranked(spec_insert_ranked(x, s)),
    decreases s.len(),
{
    if s.len() == 0 {
    } else if spec_rank_before(x, s[0]) {
        let out = seq![x] + s;
        assert forall|i: int, j: int| 0 <= i < j < out.len() implies !spec_rank_before(
            #[trigger] out[j],
            #[trigger] out[i],
        ) by {
            if i == 0 {
                assert(out[j] == s[j - 1]);
                if j > 1 {
                    assert(!spec_rank_before(s[j - 1], s[0]));
                }
            } else {
                assert(out[i] == s[i - 1] && out[j] == s[j - 1]);
            }
        }
    } else {
        assert forall|i: int, j: int|
            0 <= i < j < s.drop_first().len() implies !spec_rank_before(
            #[trigger] s.drop_first()[j],
            #[trigger] s.drop_first()[i],
        ) by {
            assert(s.drop_first()[i] == s[i + 1] && s.drop_first()[j] == s[j + 1]);
        }
        lemma_insert_ranked_sorted(x, s.drop_first());
        lemma_insert_ranked_elems(x, s.drop_first());
        let inner = spec_insert_ranked(x, s.drop_first());
        let out = seq![s[0]] + inner;
        assert forall|i: int, j: int| 0 <= i < j < out.len() implies !spec_rank_before(
            #[trigger] out[j],
            #[trigger] out[i],
        ) by {
            if i == 0 {
                assert(out[j] == inner[j - 1]);
                if inner[j - 1] != x {
                    let m = choose|m: int|
                        0 <= m < s.drop_first().len() && inner[j - 1] == s.drop_first()[m];
                    assert(s.drop_first()[m] == s[m + 1]);
                    assert(!spec_rank_before(s[m + 1], s[0]));
                }
            } else {
                assert(out[i] == inner[i - 1] && out[j] == inner[j - 1]);
            }
        }
    }
}

/// Law, first half: the ranking is a total preorder actually in force on
/// the output — every candidate sits at or below the rank of each one
/// before it.
pub proof fn lemma_rank_sort_ranked(s: Seq<CandView>)
    ensures
        spec_ranked(spec_rank_sort(s)),
    decreases s.len(),
{
    if s.len() > 0 {
        lemma_rank_sort_ranked(s.drop_last());
        lemma_insert_ranked_sorted(s.last(), spec_rank_sort(s.drop_last()));
    }
}

/// The candidates of one rank, in order: same priority and same
/// timestamp.
pub open spec fn spec_rank_class(s: Seq<CandView>, p: u8, t: i64) -> Seq<CandView>
    decreases s.len(),
{
    if s.len() == 0 {
        Seq::empty()
    } else {
        let rest = spec_rank_class(s.drop_last(), p, t);
        if s.last().priority == p && s.last().timestamp == t {
            rest.push(s.last())
        } else {
            rest
        }
    }
}

proof fn lemma_rank_class_add(a: Seq<CandView>, b: Seq<CandView>, p: u8, t: i64)
    ensures
        spec_rank_class(a + b, p, t) == spec_rank_class(a, p, t) + spec_rank_class(b, p, t),
    decreases b.len(),
{
    if b.len() == 0 {
        assert(a + b =~= a);
        assert(spec_rank_class(a, p, t) + spec_rank_class(b, p, t) =~= spec_rank_class(
            a,
            p,
            t,
        ));
    } else {
        assert((a + b).drop_last() =~= a + b.drop_last());
        assert((a + b).last() == b.last());
        lemma_rank_class_add(a, b.drop_last(), p, t);
        if b.last().priority == p && b.last().timestamp == t {
            assert(spec_rank_class(a + b, p, t) =~= spec_rank_class(a, p, t) + spec_rank_class(
                b,
                p,
                t,
            ));
        }
    }
}

proof fn lemma_rank_class_empty(s: Seq<CandView>, p: u8, t: i64)
    requires
        forall|k: int|
            0 <= k < s.len() ==> !((#[trigger] s[k]).priority == p && s[k].timestamp == t),
    ensures
        spec_rank_class(s, p, t) == Seq::<CandView>::empty(),
    decreases s.len(),
{
    if s.len() > 0 {
        assert forall|k: int| 0 <= k < s.drop_last().len() implies !((
        #[trigger] s.drop_last()[k]).priority == p && s.drop_last()[k].timestamp == t) by {
            assert(s.drop_last()[k] == s[k]);
        }
        lemma_rank_class_empty(s.drop_last(), p, t);
    }
}

proof fn lemma_rank_class_single(x: CandView, p: u8, t: i64)
    ensures
        spec_rank_class(seq![x], p, t) == if x.priority == p && x.timestamp == t {
            seq![x]
        } else {
            Seq::<CandView>::empty()
        },
{
    assert(seq![x].drop_last() =~= Seq::<CandView>::empty());
    assert(seq![x].last() == x);
    assert(spec_rank_class(Seq::<CandView>::empty(), p, t) =~= Seq::<CandView>::empty());
    if x.priority == p && x.timestamp == t {
        assert(spec_rank_class(seq![x], p, t) =~= seq![x]);
    }
}

/// Inserting into a ranked list appends the newcomer to its own rank
/// class and touches no other class.
proof fn lemma_insert_ranked_class(x: CandView, s: Seq<CandView>, p: u8, t: i64)
    requires
        spec_ranked(s),
    ensures
        spec_rank_class(spec_insert_ranked(x, s), p, t) == if x.priority == p && x.timestamp
            == t {
            spec_rank_class(s, p, t).push(x)
        } else {
            spec_rank_class(s, p, t)
        },
    decreases s.len(),
{
    let matches = x.priority == p && x.timestamp == t;
    lemma_rank_class_single(x, p, t);
    if s.len() == 0 {
        assert(spec_insert_ranked(x, s) =~= seq![x]);
        if matches {
            assert(spec_rank_class(s, p, t).push(x) =~= seq![x]);
        }
    } else if spec_rank_before(x, s[0]) {
        lemma_rank_class_add(seq![x], s, p, t);
        if matches {
            assert forall|k: int| 0 <= k < s.len() implies !((#[trigger] s[k]).priority == p
                && s[k].timestamp == t) by {
                assert(!spec_rank_before(s[k], s[0]) || k == 0);
            }
            lemma_rank_class_empty(s, p, t);
            assert(spec_rank_class(seq![x] + s, p, t) =~= spec_rank_class(s, p, t).push(x));
        } else {
            assert(spec_rank_class(seq![x] + s, p, t) =~= spec_rank_class(s, p, t));
        }
    } else {
        assert forall|i: int, j: int|
            0 <= i < j < s.drop_first().len() implies !spec_rank_before(
            #[trigger] s.drop_first()[j],
            #[trigger] s.drop_first()[i],
        ) by {
            assert(s.drop_first()[i] == s[i + 1] && s.drop_first()[j] == s[j + 1]);
        }
        lemma_insert_ranked_class(x, s.drop_first(), p, t);
        lemma_rank_class_add(seq![s[0]], spec_insert_ranked(x, s.drop_first()), p, t);
        lemma_rank_class_add(seq![s[0]], s.drop_first(), p, t);
        assert(seq![s[0]] + s.drop_first() =~= s);
        assert(seq![s[0]].drop_last() =~= Seq::<CandView>::empty());
        if matches {
            assert(spec_rank_class(spec_insert_ranked(x, s), p, t) =~= spec_rank_class(
                s,
                p,
                t,
            ).push(x));
        } else {
            assert(spec_rank_class(spec_insert_ranked(x, s), p, t) =~= spec_rank_class(
                s,
                p,
                t,
            ));
        }
    }
}

/// Law, second half: the ranking is stable. For every rank — a priority
/// and timestamp pair — the candidates of that rank come out in exactly
/// the relative order they went in.
pub proof fn lemma_rank_sort_stable(s: Seq<CandView>, p: u8, t: i64)
    ensures
        spec_rank_class(spec_rank_sort(s), p, t) == spec_rank_class(s, p, t),
    decreases s.len(),
{
    if s.len() > 0 {
        lemma_rank_sort_stable(s.drop_last(), p, t);
        lemma_rank_sort_ranked(s.drop_last());
        lemma_insert_ranked_class(s.last(), spec_rank_sort(s.drop_last()), p, t);
    }
}

/// Law, third half: ranking only reorders — it keeps exactly the
/// candidates it was given.
pub proof fn lemma_rank_sort_permutes(s: Seq<CandView>)
    ensures
        spec_rank_sort(s).to_multiset() == s.to_multiset(),
    decreases s.len(),
{
    broadcast use vstd::seq_lib::group_to_multiset_ensures;

    if s.len() > 0 {
        lemma_rank_sort_permutes(s.drop_last());
        lemma_insert_ranked_multiset(s.last(), spec_rank_sort(s.drop_last()));
        assert(s.drop_last().push(s.last()) =~= s);
    }
}

proof fn lemma_insert_ranked_multiset(x: CandView, s: Seq<CandView>)
    ensures
        spec_insert_ranked(x, s).to_multiset() == s.push(x).to_multiset(),
    decreases s.len(),
{
    broadcast use vstd::seq_lib::group_to_multiset_ensures;

    if s.len() == 0 {
        assert(Seq::<CandView>::empty().push(x) =~= seq![x]);
    } else if spec_rank_before(x, s[0]) {
        vstd::seq_lib::lemma_multiset_commutative(seq![x], s);
        vstd::seq_lib::lemma_multiset_commutative(s, seq![x]);
        assert(s + seq![x] =~= s.push(x));
        assert((seq![x] + s).to_multiset() =~= s.push(x).to_multiset());
    } else {
        lemma_insert_ranked_multiset(x, s.drop_first());
        let inner = spec_insert_ranked(x, s.drop_first());
        vstd::seq_lib::lemma_multiset_commutative(seq![s[0]], inner);
        vstd::seq_lib::lemma_multiset_commutative(seq![s[0]], s.drop_first().push(x));
        assert(seq![s[0]] + s.drop_first().push(x) =~= s.push(x));
        assert((seq![s[0]] + inner).to_multiset() =~= s.push(x).to_multiset());
    }
}

/// Every kept candidate carries a non-empty bearer token.
pub open spec fn spec_tokens_nonempty(s: Seq<CandView>) -> bool {
    forall|i: int| 0 <= i < s.len() ==> (#[trigger] s[i]).creds.oauth_token.len() > 0
}

proof fn lemma_row_candidates_tokens_nonempty(rows: Seq<RowView>)
    ensures
        spec_tokens_nonempty(spec_row_candidates(rows)),
    decreases rows.len(),
{
    if rows.len() > 0 {
        lemma_row_candidates_tokens_nonempty(rows.drop_last());
    }
}

proof fn lemma_dedup_preserves_nonempty(s: Seq<CandView>)
    requires
        spec_tokens_nonempty(s),
    ensures
        spec_tokens_nonempty(spec_dedup(s)),
    decreases s.len(),
{
    if s.len() > 0 {
        assert forall|i: int| 0 <= i < s.drop_last().len() implies (
        #[trigger] s.drop_last()[i]).creds.oauth_token.len() > 0 by {
            assert(s.drop_last()[i] == s[i]);
        }
        lemma_dedup_preserves_nonempty(s.drop_last());
    }
}

/// Ranking, being a reordering, keeps both halves of the candidate-set
/// invariant: tokens stay distinct and non-empty.
proof fn lemma_sort_preserves_token_invariant(s: Seq<CandView>)
    requires
        spec_distinct_tokens(s),
        spec_tokens_nonempty(s),
    ensures
        spec_distinct_tokens(spec_rank_sort(s)),
        spec_tokens_nonempty(spec_rank_sort(s)),
{
    broadcast use vstd::seq_lib::group_to_multiset_ensures;

    lemma_rank_sort_permutes(s);
    let out = spec_rank_sort(s);
    assert(s.no_duplicates()) by {
        assert forall|i: int, j: int|
            0 <= i < s.len() && 0 <= j < s.len() && i != j implies s[i] != s[j] by {
            if i < j {
                assert(s[i].creds.oauth_token != s[j].creds.oauth_token);
            } else {
                assert(s[j].creds.oauth_token != s[i].creds.oauth_token);
            }
        }
    }
    s.lemma_multiset_has_no_duplicates();
    out.lemma_multiset_has_no_duplicates_conv();
    assert forall|i: int| 0 <= i < out.len() implies (#[trigger] out[i]).creds.oauth_token.len()
        > 0 by {
        assert(out.contains(out[i]));
        assert(out.to_multiset().count(out[i]) > 0);
        assert(s.to_multiset().count(out[i]) > 0);
        assert(s.contains(out[i]));
        let a = choose|a: int| 0 <= a < s.len() && s[a] == out[i];
        assert(s[a].creds.oauth_token.len() > 0);
    }
    assert forall|i: int, j: int| 0 <= i < j < out.len() implies (
    #[trigger] out[i]).creds.oauth_token != (#[trigger] out[j]).creds.oauth_token by {
        if out[i].creds.oauth_token == out[j].creds.oauth_token {
            assert(out[i] != out[j]);
            assert(out.contains(out[i]));
            assert(out.contains(out[j]));
            assert(out.to_multiset().count(out[i]) > 0);
            assert(out.to_multiset().count(out[j]) > 0);
            assert(s.to_multiset().count(out[i]) > 0);
            assert(s.to_multiset().count(out[j]) > 0);
            assert(s.contains(out[i]));
            assert(s.contains(out[j]));
            let a = choose|a: int| 0 <= a < s.len() && s[a] == out[i];
            let b = choose|b: int| 0 <= b < s.len() && s[b] == out[j];
            assert(a != b);
            if a < b {
                assert(s[a].creds.oauth_token != s[b].creds.oauth_token);
            } else {
                assert(s[b].creds.oauth_token != s[a].creds.oauth_token);
            }
            assert(false);
        }
    }
}

/// Law: what extraction hands out satisfies the candidate-set invariant —
/// every candidate's bearer token is non-empty and no token appears
/// twice — and stands in ranked order.
pub proof fn lemma_extracted_invariant(rows: Seq<RowView>)
    ensures
        spec_distinct_tokens(spec_extracted(rows)),
        spec_tokens_nonempty(spec_extracted(rows)),
        spec_ranked(spec_extracted(rows)),
{
    let cands = spec_row_candidates(rows);
    lemma_row_candidates_tokens_nonempty(rows);
    lemma_dedup_preserves_nonempty(cands);
    lemma_dedup_distinct(cands);
    lemma_sort_preserves_token_invariant(spec_dedup(cands));
    lemma_rank_sort_ranked(spec_dedup(cands));
}

// ---------------------------------------------------------------------------
// The pipeline
// ---------------------------------------------------------------------------

/// What extraction yields for a row sequence: each row's candidate,
/// duplicate bearer tokens dropped keeping the first (most recent)
/// occurrence, ranked by priority then recency.
pub open spec fn spec_extracted(rows: Seq<RowView>) -> Seq<CandView> {
    spec_rank_sort(spec_dedup(spec_row_candidates(rows)))
}

/// Run the discovery pipeline over the matched cache rows, which arrive
/// ordered by descending timestamp: decode, extract, deduplicate, rank.
#[verifier::loop_isolation(false)]
pub fn extract_candidates(rows: &Vec<CacheRow>) -> (out: Vec<ExtractedCredential>)
    ensures
        cands_view(out@) == spec_extracted(rows_view(rows@)),
{
    let mut cands: Vec<ExtractedCredential> = Vec::new();
    let mut i: usize = 0;
    proof {
        assert(rows_view(rows@).take(0) =~= Seq::<RowView>::empty());
    }
    while i < rows.len()
        invariant
            i <= rows@.len(),
            cands_view(cands@) == spec_dedup(
                spec_row_candidates(rows_view(rows@).take(i as int)),
            ),
        decreases rows@.len() - i,
    {
        let ghost rv = rows_view(rows@);
        let ghost pre = spec_row_candidates(rv.take(i as int));
        proof {
            assert(rv.take(i + 1).drop_last() =~= rv.take(i as int));
            assert(rv.take(i + 1).last() == rv[i as int]);
            assert(rv[i as int] == rows@[i as int]@);
        }
        let row = &rows[i];
        i += 1;
        let doc = match decode_plist(row.request_object.as_slice()) {
            Some(d) => d,
            None => {
                continue ;
            },
        };
        let headers = match find_headers_map(&doc) {
            Some(h) => h,
            None => {
                continue ;
            },
        };
        let auth_token = match value_as_string(doc_get(headers, "Authorization")) {
            Some(t) => t,
            None => {
                continue ;
            },
        };
        if auth_token.as_str().is_empty() {
            continue ;
        }
        let ghost cand = spec_row_candidate(rows@[i - 1]@)->Some_0;
        if has_token(&cands, auth_token.as_str()) {
            proof {
                assert(cand.creds.oauth_token == auth_token@);
                assert(spec_dedup(pre.push(cand)) =~= spec_dedup(pre)) by {
                    assert(pre.push(cand).drop_last() =~= pre);
                }
            }
            continue ;
        }
        let user_id = match value_as_string(doc_get(headers, "talk-user-id")) {
            Some(s) => parse_i64_or_zero(s.as_str()),
            None => 0,
        };
        let user_agent = match value_as_string(doc_get(headers, "User-Agent")) {
            Some(s) => s,
            None => String::new(),
        };
        let a_header = match value_as_string(doc_get(headers, "A")) {
            Some(s) => s,
            None => String::new(),
        };
        let app_version = app_version_from_a(a_header.as_str());
        let device_uuid = derive_device_id(auth_token.as_str());
        let priority = url_priority(row.request_key.as_str());
        let creds = KakaoCredentials::new(
            auth_token,
            user_id,
            device_uuid,
            app_version,
            user_agent,
            a_header,
        );
        let next = ExtractedCredential {
            creds,
            timestamp: row.timestamp,
            source_url: row.request_key.clone(),
            priority,
        };
        proof {
            assert(next@ == cand);
            assert(pre.push(cand).drop_last() =~= pre);
            assert(cands_view(cands@.push(next)) =~= cands_view(cands@).push(next@));
        }
        cands.push(next);
    }
    proof {
        assert(rows_view(rows@).take(i as int) =~= rows_view(rows@));
    }
    rank_sort(cands)
}

/// Build credentials from manually supplied values: the token verbatim,
/// the user id parsed with the default-to-zero policy, the device id
/// derived from the token, and the fixed default app version.
pub fn credentials_from_manual(oauth_token: String, user_id_raw: &str) -> (c: KakaoCredentials)
    ensures
        c.oauth_token == oauth_token,
        c.user_id as int == spec_parse_i64(user_id_raw@),
        c.device_uuid@ == spec_device_id(oauth_token@),
        c.device_name@ == spec_device_name(),
        c.app_version@ == "3.7.0"@,
        c.user_agent@.len() == 0,
        c.a_header@.len() == 0,
{
    let user_id = parse_i64_or_zero(user_id_raw);
    let device_uuid = derive_device_id(oauth_token.as_str());
    KakaoCredentials::new(
        oauth_token,
        user_id,
        device_uuid,
        "3.7.0".to_owned(),
        String::new(),
        String::new(),
    )
}

/// Cap the ranked candidate list at the caller's budget (at least one) and
/// strip it down to the credentials themselves.
#[verifier::loop_isolation(false)]
pub fn top_candidates(extracted: Vec<ExtractedCredential>, max_candidates: usize) -> (out: Vec<
    KakaoCredentials,
>)
    ensures
        out@.len() == vstd::math::min(
            vstd::math::max(max_candidates as int, 1),
            extracted@.len() as int,
        ),
        forall|k: int| 0 <= k < out@.len() ==> (#[trigger] out@[k])@ == extracted@[k].creds@,
{
    let cap = if max_candidates < 1 {
        1
    } else {
        max_candidates
    };
    let mut out: Vec<KakaoCredentials> = Vec::new();
    let mut i: usize = 0;
    while i < extracted.len() && i < cap
        invariant
            i <= extracted@.len(),
            i <= cap,
            out@.len() == i,
            forall|k: int| 0 <= k < i ==> (#[trigger] out@[k])@ == extracted@[k].creds@,
        decreases extracted@.len() - i,
    {
        out.push(extracted[i].creds.clone());
        i += 1;
    }
    out
}

} // verus!
