//! The query engine: a full scan of the media namespace filtered by author,
//! content type, visibility and tag intersection, with an optional ranking
//! by download count; and the collection of every tag in use.

use vstd::prelude::*;

use crate::catalog::{lemma_enumerations_agree, records_enumerate, scan_media_records, views_of};
use crate::codec::media_map;
use crate::error::ApiError;
use crate::records::{ContentType, MediaRecord, MediaView};
use crate::store::{ns_contents, Namespace};
use crate::tags::{lower_of, lowercase, vec_contains_string};

verus! {

/// A search request. `api_key` is consumed by the excluded authentication
/// layer, which resolves it into the `authed` signal the engine takes.
#[derive(Clone, Debug)]
pub struct SearchQuery {
    pub username: Option<String>,
    pub content_type: Option<ContentType>,
    pub api_key: Option<String>,
    pub tags: Option<Vec<String>>,
    pub downloads: Option<bool>,
}

/// The identifiers a search found.
#[derive(Clone, Debug)]
pub struct ContentFound {
    pub ids: Vec<String>,
}

/// An empty tag filter matches everything; a non-empty one matches only
/// records that carry tags and hold the lower-cased form of every requested
/// tag. A record with no tags never matches a non-empty filter.
pub open spec fn spec_tag_filter(m: MediaView, ts: Seq<Seq<char>>) -> bool {
    ts.len() == 0 || (match m.tags {
        None => false,
        Some(mts) => mts.len() > 0 && forall|i: int|
            0 <= i < ts.len() ==> mts.contains(lower_of(#[trigger] ts[i])),
    })
}

/// A record matches the query: each given filter agrees with the record,
/// and an unlisted record is visible only to an authenticated caller.
pub open spec fn spec_matches_query(m: MediaView, q: SearchQuery, authed: bool) -> bool {
    &&& (q.username matches Some(u) ==> m.author_username == u@)
    &&& (q.content_type matches Some(t) ==> m.data_type == t)
    &&& (authed || !m.unlisted)
    &&& (q.tags matches Some(ts) ==> spec_tag_filter(m, ts.deep_view()))
}

/// Some stored record carries this tag.
pub open spec fn tag_in_store(mm: Map<Seq<u8>, MediaView>, t: Seq<char>) -> bool {
    exists|k: Seq<u8>| #[trigger] mm.contains_key(k) && record_tags(mm[k]).contains(t)
}

/// The records of a record/key pairing, position by position.
pub open spec fn pair_views(ps: Seq<(MediaRecord, Ghost<Seq<u8>>)>) -> Seq<MediaView> {
    Seq::new(ps.len(), |i: int| ps[i].0@)
}

/// The keys of a record/key pairing, position by position.
pub open spec fn pair_keys(ps: Seq<(MediaRecord, Ghost<Seq<u8>>)>) -> Seq<Seq<u8>> {
    Seq::new(ps.len(), |i: int| ps[i].1@)
}

/// The records `rs` are exactly the matching records of `mm`, each entry
/// once: position by position `fks` names a stored key carrying that
/// record, which matches the query; no key is named twice; and every
/// matching key of the store is named.
pub open spec fn filtered_enumerate(
    mm: Map<Seq<u8>, MediaView>,
    q: SearchQuery,
    authed: bool,
    rs: Seq<MediaView>,
    fks: Seq<Seq<u8>>,
) -> bool {
    &&& fks.len() == rs.len()
    &&& forall|i: int|
        #![trigger rs[i]]
        #![trigger fks[i]]
        0 <= i < rs.len() ==> mm.contains_key(fks[i]) && mm[fks[i]] == rs[i]
            && spec_matches_query(rs[i], q, authed)
    &&& forall|i: int, j: int| 0 <= i < j < fks.len() ==> fks[i] != fks[j]
    &&& forall|k: Seq<u8>|
        #![trigger mm.contains_key(k)]
        mm.contains_key(k) && spec_matches_query(mm[k], q, authed) ==> fks.contains(k)
}

/// The result of a search over `mm`: the ids of the records `rs`, which are
/// exactly the matching records of the store, each stored entry reported
/// once, ranked by download count when the query asks for it.
pub open spec fn search_results_ok(
    mm: Map<Seq<u8>, MediaView>,
    q: SearchQuery,
    authed: bool,
    ids: Seq<Seq<char>>,
    rs: Seq<MediaView>,
    fks: Seq<Seq<u8>>,
) -> bool {
    &&& rs.len() == ids.len()
    &&& forall|i: int|
        #![trigger rs[i]]
        0 <= i < rs.len() ==> rs[i].id == ids[i]
    &&& filtered_enumerate(mm, q, authed, rs, fks)
    &&& (q.downloads == Some(true) ==> forall|i: int, j: int|
        #![trigger rs[i], rs[j]]
        0 <= i < j < rs.len() ==> rs[i].downloads >= rs[j].downloads)
}

/// Some record sequence and key list certify the ids as a correct search
/// result.
pub open spec fn search_found(
    mm: Map<Seq<u8>, MediaView>,
    q: SearchQuery,
    authed: bool,
    ids: Seq<Seq<char>>,
) -> bool {
    exists|rs: Seq<MediaView>, fks: Seq<Seq<u8>>| search_results_ok(mm, q, authed, ids, rs, fks)
}

/// Decides the tag clause of the filter for one record.
fn tag_filter_matches(m: &MediaRecord, ts: &Vec<String>) -> (r: bool)
    ensures
        r == spec_tag_filter(m@, ts.deep_view()),
{
    if ts.len() == 0 {
        return true;
    }
    proof {
        assert(ts.deep_view().len() == ts@.len());
    }
    match &m.tags {
        None => false,
        Some(mts) => {
            if mts.len() == 0 {
                return false;
            }
            let mut i: usize = 0;
            while i < ts.len()
                invariant
                    i <= ts@.len(),
                    ts.deep_view().len() == ts@.len(),
                    mts.deep_view().len() > 0,
                    m@.tags == Some(mts.deep_view()),
                    forall|j: int|
                        0 <= j < i ==> mts.deep_view().contains(
                            lower_of(#[trigger] ts.deep_view()[j]),
                        ),
                decreases ts@.len() - i,
            {
                let lowered = lowercase(&ts[i]);
                if !vec_contains_string(mts, &lowered) {
                    proof {
                        assert(!spec_tag_filter(m@, ts.deep_view())) by {
                            if spec_tag_filter(m@, ts.deep_view()) {
                                assert(mts.deep_view().contains(
                                    lower_of(ts.deep_view()[i as int]),
                                ));
                            }
                        }
                    }
                    return false;
                }
                i += 1;
            }
            true
        },
    }
}

/// Decides the whole filter for one record.
fn query_matches(m: &MediaRecord, q: &SearchQuery, authed: bool) -> (r: bool)
    ensures
        r == spec_matches_query(m@, *q, authed),
{
    let username_ok = match &q.username {
        None => true,
        Some(u) => m.author_username.eq(u),
    };
    let type_ok = match q.content_type {
        None => true,
        Some(t) => t == m.data_type,
    };
    let visible = authed || !m.unlisted;
    let tags_ok = match &q.tags {
        None => true,
        Some(ts) => tag_filter_matches(m, ts),
    };
    username_ok && type_ok && visible && tags_ok
}

/// Sorts record/key pairs by download count, descending, consuming the
/// input front to back and inserting each pair after its equals, so ties
/// keep their incoming order; the pairs themselves are kept, only
/// reordered.
#[verifier::rlimit(60)]
#[verifier::spinoff_prover]
fn sort_by_downloads(v: Vec<(MediaRecord, Ghost<Seq<u8>>)>) -> (r: Vec<
    (MediaRecord, Ghost<Seq<u8>>),
>)
    ensures
        r@.to_multiset() == v@.to_multiset(),
        forall|i: int, j: int|
            #![trigger r@[i], r@[j]]
            0 <= i < j < r@.len() ==> r@[i].0.downloads >= r@[j].0.downloads,
{
    broadcast use vstd::multiset::group_multiset_axioms;
    broadcast use vstd::seq_lib::group_to_multiset_ensures;

    let ghost orig = v@;
    let mut rest = v;
    let mut out: Vec<(MediaRecord, Ghost<Seq<u8>>)> = Vec::new();
    proof {
        assert(out@.to_multiset().add(rest@.to_multiset()) =~= orig.to_multiset());
    }
    while rest.len() > 0
        invariant
            out@.to_multiset().add(rest@.to_multiset()) == orig.to_multiset(),
            forall|i: int, j: int|
                #![trigger out@[i], out@[j]]
                0 <= i < j < out@.len() ==> out@[i].0.downloads >= out@[j].0.downloads,
        decreases rest@.len(),
    {
        let ghost rest_before = rest@;
        let ghost out_before = out@;
        let x = rest.remove(0);
        let mut p: usize = 0;
        while p < out.len() && out[p].0.downloads >= x.0.downloads
            invariant
                p <= out@.len(),
                out@ == out_before,
                forall|qi: int| 0 <= qi < p ==> (#[trigger] out@[qi]).0.downloads >= x.0.downloads,
            decreases out@.len() - p,
        {
            p += 1;
        }
        out.insert(p, x);
        proof {
            assert(rest_before.contains(x)) by {
                assert(rest_before[0] == x);
            }
            vstd::seq_lib::to_multiset_remove(rest_before, 0);
            vstd::seq_lib::to_multiset_contains(rest_before, x);
            assert(rest_before.to_multiset().count(x) > 0);
            assert(rest@.to_multiset().insert(x) =~= rest_before.to_multiset());
            vstd::seq_lib::to_multiset_insert(out_before, p as int, x);
            assert(out@.to_multiset().add(rest@.to_multiset()) =~= orig.to_multiset());
            assert forall|i: int, j: int| 0 <= i < j < out@.len() implies (#[trigger] out@[i]).0.downloads
                >= (#[trigger] out@[j]).0.downloads by {
                if j == p && i < p {
                    assert(out@[i] == out_before[i]);
                } else if i == p && p < j {
                    assert(out@[j] == out_before[j - 1]);
                    assert(p < out_before.len() ==> out_before[p as int].0.downloads
                        < x.0.downloads);
                }
            }
        }
    }
    out
}

/// Reordering the record/key pairs (as a value multiset) keeps them exactly
/// the matching entries of the store, each once.
#[verifier::rlimit(100)]
#[verifier::spinoff_prover]
proof fn lemma_enumerate_perm(
    mm: Map<Seq<u8>, MediaView>,
    q: SearchQuery,
    authed: bool,
    a: Seq<(MediaRecord, Ghost<Seq<u8>>)>,
    b: Seq<(MediaRecord, Ghost<Seq<u8>>)>,
)
    requires
        filtered_enumerate(mm, q, authed, pair_views(a), pair_keys(a)),
        a.to_multiset() == b.to_multiset(),
    ensures
        filtered_enumerate(mm, q, authed, pair_views(b), pair_keys(b)),
{
    broadcast use vstd::multiset::group_multiset_axioms;
    broadcast use vstd::seq_lib::group_to_multiset_ensures;

    assert(a.len() == b.len()) by {
        vstd::seq_lib::to_multiset_len(a);
        vstd::seq_lib::to_multiset_len(b);
    }
    assert forall|i: int| 0 <= i < pair_views(b).len() implies (mm.contains_key(
        #[trigger] pair_keys(b)[i],
    ) && mm[pair_keys(b)[i]] == #[trigger] pair_views(b)[i] && spec_matches_query(
        pair_views(b)[i],
        q,
        authed,
    )) by {
        assert(b.contains(b[i]));
        assert(b.to_multiset().count(b[i]) > 0);
        assert(a.to_multiset().count(b[i]) > 0);
        assert(a.contains(b[i]));
        let w = choose|w: int| 0 <= w < a.len() && a[w] == b[i];
        assert(pair_views(a)[w] == pair_views(b)[i] && pair_keys(a)[w] == pair_keys(b)[i]);
    }
    assert forall|i: int, j: int| 0 <= i < j < pair_keys(b).len() implies pair_keys(b)[i]
        != pair_keys(b)[j] by {
        if pair_keys(b)[i] == pair_keys(b)[j] {
            if b[i] == b[j] {
                let bri = b.remove(i);
                assert(bri.contains(b[i])) by {
                    assert(bri[j - 1] == b[j]);
                }
                vstd::seq_lib::to_multiset_remove(b, i);
                assert(bri.to_multiset().count(b[i]) > 0);
                assert(b.to_multiset().count(b[i]) >= 2);
                assert(a.to_multiset().count(b[i]) >= 2);
                assert(a.contains(b[i]));
                let w1 = choose|w1: int| 0 <= w1 < a.len() && a[w1] == b[i];
                let ari = a.remove(w1);
                vstd::seq_lib::to_multiset_remove(a, w1);
                assert(ari.to_multiset().count(b[i]) > 0);
                assert(ari.contains(b[i]));
                let w2r = choose|w2r: int| 0 <= w2r < ari.len() && ari[w2r] == b[i];
                let w2: int = if w2r < w1 {
                    w2r
                } else {
                    w2r + 1
                };
                assert(a[w2] == b[i]) by {
                    assert(ari =~= a.subrange(0, w1) + a.subrange(w1 + 1, a.len() as int));
                }
                assert(pair_keys(a)[w1] == pair_keys(a)[w2]);
                assert(false);
            } else {
                assert(b.contains(b[i]) && b.contains(b[j]));
                assert(a.to_multiset().count(b[i]) > 0 && a.to_multiset().count(b[j]) > 0);
                assert(a.contains(b[i]) && a.contains(b[j]));
                let w1 = choose|w1: int| 0 <= w1 < a.len() && a[w1] == b[i];
                let w2 = choose|w2: int| 0 <= w2 < a.len() && a[w2] == b[j];
                assert(pair_keys(a)[w1] == pair_keys(a)[w2]);
                assert(false);
            }
        }
    }
    assert forall|k: Seq<u8>|
        #[trigger] mm.contains_key(k) && spec_matches_query(mm[k], q, authed) implies pair_keys(
        b,
    ).contains(k) by {
        assert(pair_keys(a).contains(k));
        let w = choose|w: int| 0 <= w < pair_keys(a).len() && pair_keys(a)[w] == k;
        assert(a.contains(a[w]));
        assert(b.to_multiset().count(a[w]) > 0);
        assert(b.contains(a[w]));
        let v = choose|v: int| 0 <= v < b.len() && b[v] == a[w];
        assert(pair_keys(b)[v] == k);
    }
    assert forall|i: int| 0 <= i < pair_views(b).len() implies mm.contains_key(
        #[trigger] pair_keys(b)[i],
    ) by {
        assert(b.contains(b[i]));
        assert(b.to_multiset().count(b[i]) > 0);
        assert(a.to_multiset().count(b[i]) > 0);
        assert(a.contains(b[i]));
        let w = choose|w: int| 0 <= w < a.len() && a[w] == b[i];
        assert(pair_keys(a)[w] == pair_keys(b)[i]);
        assert(mm.contains_key(pair_keys(a)[w]));
    }
}

/// Searches the media namespace: a full scan filtered by the query, ranked
/// by download count when requested, reported as a list of ids, one per
/// matching stored entry.
#[verifier::rlimit(60)]
#[verifier::spinoff_prover]
pub fn search(media_ns: &Namespace, q: &SearchQuery, authed: bool) -> (r: Result<
    ContentFound,
    ApiError,
>)
    ensures
        r matches Ok(found) ==> search_found(
            media_map(ns_contents(media_ns)),
            *q,
            authed,
            found.ids.deep_view(),
        ),
        r matches Err(e) ==> e == ApiError::Internal,
{
    let ghost mm = media_map(ns_contents(media_ns));
    let all = scan_media_records(media_ns)?;
    let ghost ks = choose|ks: Seq<Seq<u8>>| records_enumerate(mm, views_of(all@), ks);
    let mut matched: Vec<(MediaRecord, Ghost<Seq<u8>>)> = Vec::new();
    let ghost mut fts: Seq<int> = Seq::empty();
    let mut i: usize = 0;
    while i < all.len()
        invariant
            i <= all@.len(),
            mm == media_map(ns_contents(media_ns)),
            records_enumerate(mm, views_of(all@), ks),
            pair_keys(matched@).len() == pair_views(matched@).len(),
            forall|j: int|
                #![trigger pair_views(matched@)[j]]
                #![trigger pair_keys(matched@)[j]]
                0 <= j < pair_views(matched@).len() ==> mm.contains_key(pair_keys(matched@)[j])
                    && mm[pair_keys(matched@)[j]] == pair_views(matched@)[j]
                    && spec_matches_query(pair_views(matched@)[j], *q, authed),
            fts.len() == pair_keys(matched@).len(),
            forall|j: int|
                #![trigger fts[j]]
                0 <= j < fts.len() ==> 0 <= fts[j] < i && ks[fts[j]] == pair_keys(matched@)[j],
            forall|a: int, b: int|
                0 <= a < b < pair_keys(matched@).len() ==> pair_keys(matched@)[a] != pair_keys(
                    matched@,
                )[b],
            forall|t: int|
                0 <= t < i && spec_matches_query(views_of(all@)[t], *q, authed) ==> pair_keys(
                    matched@,
                ).contains(#[trigger] ks[t]),
        decreases all@.len() - i,
    {
        let keep = query_matches(&all[i], q, authed);
        if keep {
            let ghost before = matched@;
            matched.push((all[i].duplicate(), Ghost(ks[i as int])));
            proof {
                let ghost fts_before = fts;
                fts = fts.push(i as int);
                assert(ks.len() == views_of(all@).len());
                assert(mm.contains_key(ks[i as int]) && mm[ks[i as int]] == views_of(all@)[
                    i as int
                ]);
                assert(pair_views(matched@) =~= pair_views(before).push(all@[i as int]@));
                assert(pair_keys(matched@) =~= pair_keys(before).push(ks[i as int]));
                let n = pair_views(matched@).len() - 1;
                assert(pair_views(matched@)[n] == views_of(all@)[i as int]);
                assert(pair_keys(matched@)[n] == ks[i as int]);
                assert forall|a: int, b: int|
                    0 <= a < b < pair_keys(matched@).len() implies pair_keys(matched@)[a]
                    != pair_keys(matched@)[b] by {
                    if b == n {
                        assert(pair_keys(matched@)[a] == ks[fts_before[a]]);
                        assert(fts_before[a] < i);
                        assert(ks[fts_before[a]] != ks[i as int]);
                    }
                }
                assert forall|j: int| 0 <= j < fts.len() implies 0 <= #[trigger] fts[j] < i + 1
                    && ks[fts[j]] == pair_keys(matched@)[j] by {
                    if j < n {
                        assert(fts[j] == fts_before[j]);
                        assert(pair_keys(matched@)[j] == pair_keys(before)[j]);
                    } else {
                        assert(fts[j] == i as int);
                        assert(pair_keys(matched@)[j] == ks[i as int]);
                    }
                }
                assert forall|t: int|
                    0 <= t < i + 1 && spec_matches_query(
                        views_of(all@)[t],
                        *q,
                        authed,
                    ) implies pair_keys(matched@).contains(#[trigger] ks[t]) by {
                    if t < i {
                        let w = choose|w: int|
                            0 <= w < pair_keys(before).len() && pair_keys(before)[w] == ks[t];
                        assert(pair_keys(matched@)[w] == ks[t]);
                    } else {
                        assert(pair_keys(matched@)[n] == ks[t]);
                    }
                }
            }
        }
        i += 1;
    }
    proof {
        assert(filtered_enumerate(mm, *q, authed, pair_views(matched@), pair_keys(matched@)))
            by {
            assert forall|k: Seq<u8>|
                #[trigger] mm.contains_key(k) && spec_matches_query(mm[k], *q, authed) implies
                pair_keys(matched@).contains(k) by {
                assert(ks.contains(k));
                let t = choose|t: int| 0 <= t < ks.len() && ks[t] == k;
                assert(views_of(all@)[t] == mm[k]);
                assert(pair_keys(matched@).contains(ks[t]));
            }
        }
    }
    let sort_requested = matches!(q.downloads, Some(true));
    let ranked: Vec<(MediaRecord, Ghost<Seq<u8>>)>;
    if sort_requested {
        let ghost mseq = matched@;
        let sorted = sort_by_downloads(matched);
        proof {
            lemma_enumerate_perm(mm, *q, authed, mseq, sorted@);
        }
        ranked = sorted;
    } else {
        ranked = matched;
    }
    let mut ids: Vec<String> = Vec::new();
    let mut i2: usize = 0;
    while i2 < ranked.len()
        invariant
            i2 <= ranked@.len(),
            ids.deep_view().len() == i2 as int,
            forall|j: int| 0 <= j < i2 ==> ids.deep_view()[j] == (#[trigger] ranked@[j]).0@.id,
        decreases ranked@.len() - i2,
    {
        let ghost ids_before = ids.deep_view();
        ids.push(ranked[i2].0.id.clone());
        proof {
            assert(ids.deep_view() =~= ids_before.push(ranked@[i2 as int].0@.id));
        }
        i2 += 1;
    }
    proof {
        let rsv = pair_views(ranked@);
        let fksv = pair_keys(ranked@);
        assert forall|j: int| 0 <= j < rsv.len() implies (#[trigger] rsv[j]).id
            == ids.deep_view()[j] by {
            assert(rsv[j] == ranked@[j].0@);
        }
        if q.downloads == Some(true) {
            assert forall|a: int, b: int| 0 <= a < b < rsv.len() implies (#[trigger] rsv[a]).downloads
                >= (#[trigger] rsv[b]).downloads by {
                assert(rsv[a] == ranked@[a].0@ && rsv[b] == ranked@[b].0@);
                assert(ranked@[a].0.downloads >= ranked@[b].0.downloads);
            }
        }
        assert(search_results_ok(mm, *q, authed, ids.deep_view(), rsv, fksv));
        assert(search_found(mm, *q, authed, ids.deep_view())) by {
            assert(search_results_ok(
                mm,
                *q,
                authed,
                ids.deep_view(),
                pair_views(ranked@),
                pair_keys(ranked@),
            ));
        }
    }
    Ok(ContentFound { ids })
}

/// The stored entries that match the query, as a map of their own.
pub open spec fn matching_map(
    mm: Map<Seq<u8>, MediaView>,
    q: SearchQuery,
    authed: bool,
) -> Map<Seq<u8>, MediaView> {
    Map::new(
        |k: Seq<u8>| mm.contains_key(k) && spec_matches_query(mm[k], q, authed),
        |k: Seq<u8>| mm[k],
    )
}

/// A certified filter result is exactly an enumeration of the matching
/// entries' map.
proof fn lemma_filtered_is_enumeration(
    mm: Map<Seq<u8>, MediaView>,
    q: SearchQuery,
    authed: bool,
    rs: Seq<MediaView>,
    fks: Seq<Seq<u8>>,
)
    requires
        filtered_enumerate(mm, q, authed, rs, fks),
    ensures
        records_enumerate(matching_map(mm, q, authed), rs, fks),
{
    let sub = matching_map(mm, q, authed);
    assert forall|i: int| 0 <= i < fks.len() implies sub.contains_key(#[trigger] fks[i])
        && sub[fks[i]] == rs[i] by {
        assert(mm.contains_key(fks[i]) && mm[fks[i]] == rs[i] && spec_matches_query(
            rs[i],
            q,
            authed,
        ));
    }
    assert forall|k: Seq<u8>| #[trigger] sub.contains_key(k) implies fks.contains(k) by {
        assert(mm.contains_key(k) && spec_matches_query(mm[k], q, authed));
    }
}

/// Position-by-position ids of multiset-equal record lists are themselves
/// multiset-equal.
proof fn lemma_ids_of_multiset(
    rs1: Seq<MediaView>,
    ids1: Seq<Seq<char>>,
    rs2: Seq<MediaView>,
    ids2: Seq<Seq<char>>,
)
    requires
        rs1.to_multiset() == rs2.to_multiset(),
        rs1.len() == ids1.len(),
        rs2.len() == ids2.len(),
        forall|i: int| #![trigger rs1[i]] 0 <= i < rs1.len() ==> rs1[i].id == ids1[i],
        forall|i: int| #![trigger rs2[i]] 0 <= i < rs2.len() ==> rs2[i].id == ids2[i],
    ensures
        ids1.to_multiset() == ids2.to_multiset(),
    decreases rs1.len(),
{
    broadcast use vstd::multiset::group_multiset_axioms;
    broadcast use vstd::seq_lib::group_to_multiset_ensures;

    vstd::seq_lib::to_multiset_len(rs1);
    vstd::seq_lib::to_multiset_len(rs2);
    if rs1.len() == 0 {
        assert(ids1.to_multiset() =~= ids2.to_multiset());
    } else {
        let n = rs1.len() - 1;
        let v = rs1.last();
        assert(rs1.contains(v));
        assert(rs1.to_multiset().count(v) > 0);
        assert(rs2.to_multiset().count(v) > 0);
        assert(rs2.contains(v));
        let j = choose|j: int| 0 <= j < rs2.len() && rs2[j] == v;
        assert(ids2[j] == v.id && ids1[n] == v.id);
        let rs1p = rs1.drop_last();
        let ids1p = ids1.drop_last();
        let rs2p = rs2.remove(j);
        let ids2p = ids2.remove(j);
        vstd::seq_lib::to_multiset_remove(rs1, n);
        vstd::seq_lib::to_multiset_remove(rs2, j);
        assert(rs1.remove(n) =~= rs1p);
        assert(rs1p.to_multiset() == rs2p.to_multiset());
        assert forall|i: int| 0 <= i < rs2p.len() implies (#[trigger] rs2p[i]).id == ids2p[i] by {
            if i < j {
                assert(rs2p[i] == rs2[i] && ids2p[i] == ids2[i]);
            } else {
                assert(rs2p[i] == rs2[i + 1] && ids2p[i] == ids2[i + 1]);
            }
        }
        lemma_ids_of_multiset(rs1p, ids1p, rs2p, ids2p);
        assert(ids1.to_multiset() == ids1p.to_multiset().insert(v.id)) by {
            vstd::seq_lib::to_multiset_remove(ids1, n);
            assert(ids1.remove(n) =~= ids1p);
            assert(ids1[n] == v.id);
            assert(ids1.contains(ids1[n]));
            assert(ids1.to_multiset().count(v.id) > 0);
            assert(ids1p.to_multiset().insert(v.id) =~= ids1.to_multiset());
        }
        assert(ids2.to_multiset() == ids2p.to_multiset().insert(v.id)) by {
            vstd::seq_lib::to_multiset_remove(ids2, j);
            assert(ids2[j] == v.id);
            assert(ids2.contains(ids2[j]));
            assert(ids2.to_multiset().count(v.id) > 0);
            assert(ids2p.to_multiset().insert(v.id) =~= ids2.to_multiset());
        }
    }
}

/// Two certified results of the same search over the same store report the
/// same ids as a multiset: each matching stored entry is reported exactly
/// once, however the results are ordered or ranked.
pub proof fn lemma_search_reports_each_entry_once(
    mm: Map<Seq<u8>, MediaView>,
    q: SearchQuery,
    authed: bool,
    ids1: Seq<Seq<char>>,
    rs1: Seq<MediaView>,
    fks1: Seq<Seq<u8>>,
    ids2: Seq<Seq<char>>,
    rs2: Seq<MediaView>,
    fks2: Seq<Seq<u8>>,
)
    requires
        search_results_ok(mm, q, authed, ids1, rs1, fks1),
        search_results_ok(mm, q, authed, ids2, rs2, fks2),
    ensures
        ids1.to_multiset() == ids2.to_multiset(),
{
    lemma_filtered_is_enumeration(mm, q, authed, rs1, fks1);
    lemma_filtered_is_enumeration(mm, q, authed, rs2, fks2);
    lemma_enumerations_agree(matching_map(mm, q, authed), rs1, fks1, rs2, fks2);
    lemma_ids_of_multiset(rs1, ids1, rs2, ids2);
}

/// Visibility: an unauthenticated search never reports an id on behalf of
/// an unlisted record; every record certifying its result is listed.
pub proof fn lemma_search_visibility(
    mm: Map<Seq<u8>, MediaView>,
    q: SearchQuery,
    ids: Seq<Seq<char>>,
    rs: Seq<MediaView>,
    fks: Seq<Seq<u8>>,
)
    requires
        search_results_ok(mm, q, false, ids, rs, fks),
    ensures
        forall|i: int| #![trigger rs[i]] 0 <= i < rs.len() ==> !rs[i].unlisted,
{
    assert forall|i: int| 0 <= i < rs.len() implies !(#[trigger] rs[i]).unlisted by {
        assert(spec_matches_query(rs[i], q, false));
    }
}

/// Visibility: an authenticated search reports every matching record,
/// unlisted or not — any valid identity sees unlisted records system-wide.
pub proof fn lemma_search_authenticated_sees_all(
    mm: Map<Seq<u8>, MediaView>,
    q: SearchQuery,
    ids: Seq<Seq<char>>,
    rs: Seq<MediaView>,
    fks: Seq<Seq<u8>>,
    k: Seq<u8>,
)
    requires
        search_results_ok(mm, q, true, ids, rs, fks),
        mm.contains_key(k),
        spec_matches_query(mm[k], q, true),
    ensures
        exists|i: int| 0 <= i < ids.len() && ids[i] == mm[k].id,
{
    assert(fks.contains(k));
    let w = choose|w: int| 0 <= w < fks.len() && fks[w] == k;
    assert(rs[w] == mm[k]);
    assert(rs[w].id == ids[w]);
    assert(ids[w] == mm[k].id);
}

/// Tag filtering: under a non-empty tag filter, every record certifying the
/// result carries tags and holds the lower-cased form of every requested
/// tag; a record with no tags never matches such a filter.
pub proof fn lemma_search_tag_filter(
    mm: Map<Seq<u8>, MediaView>,
    q: SearchQuery,
    authed: bool,
    ids: Seq<Seq<char>>,
    rs: Seq<MediaView>,
    fks: Seq<Seq<u8>>,
    ts: Seq<Seq<char>>,
)
    requires
        search_results_ok(mm, q, authed, ids, rs, fks),
        q.tags matches Some(tv) && tv.deep_view() == ts,
        ts.len() > 0,
    ensures
        forall|i: int|
            #![trigger rs[i]]
            0 <= i < rs.len() ==> (rs[i].tags matches Some(mts) && mts.len() > 0 && (forall|j: int|
            0 <= j < ts.len() ==> mts.contains(lower_of(#[trigger] ts[j])))),
        forall|i: int| #![trigger rs[i]] 0 <= i < rs.len() ==> !(rs[i].tags is None),
{
    assert forall|i: int| 0 <= i < rs.len() implies ((#[trigger] rs[i]).tags matches Some(mts)
        && mts.len() > 0 && (forall|j: int|
        0 <= j < ts.len() ==> mts.contains(lower_of(#[trigger] ts[j])))) by {
        assert(spec_matches_query(rs[i], q, authed));
        assert(spec_tag_filter(rs[i], ts));
    }
}

/// Every tag in use across the namespace, reported once.
#[derive(Clone, Debug)]
pub struct ContentTags {
    pub tags: Vec<String>,
}

/// The tag list of a record, absent read as empty.
pub open spec fn record_tags(m: MediaView) -> Seq<Seq<char>> {
    match m.tags {
        None => Seq::empty(),
        Some(ts) => ts,
    }
}

/// `out` holds exactly the distinct tags of the records of `mm`: each
/// reported tag is carried by some record, every tag of every record is
/// reported, and nothing is reported twice.
pub open spec fn tags_collected(mm: Map<Seq<u8>, MediaView>, out: Seq<Seq<char>>) -> bool {
    &&& forall|i: int|
        #![trigger out[i]]
        0 <= i < out.len() ==> tag_in_store(mm, out[i])
    &&& forall|k: Seq<u8>, j: int|
        #![trigger record_tags(mm[k])[j]]
        mm.contains_key(k) && 0 <= j < record_tags(mm[k]).len() ==> out.contains(
            record_tags(mm[k])[j],
        )
    &&& forall|i: int, j: int|
        #![trigger out[i], out[j]]
        0 <= i < j < out.len() ==> out[i] != out[j]
}

/// Collects every tag in use on the instance, each once, skipping records
/// that do not decode.
#[verifier::rlimit(60)]
#[verifier::spinoff_prover]
pub fn all_tags(media_ns: &Namespace) -> (r: Result<ContentTags, ApiError>)
    ensures
        r matches Ok(ct) ==> tags_collected(media_map(ns_contents(media_ns)), ct.tags.deep_view()),
        r matches Err(e) ==> e == ApiError::Internal,
{
    let ghost mm = media_map(ns_contents(media_ns));
    let all = scan_media_records(media_ns)?;
    let ghost ks = choose|ks: Seq<Seq<u8>>| records_enumerate(mm, views_of(all@), ks);
    let mut out: Vec<String> = Vec::new();
    let mut i: usize = 0;
    while i < all.len()
        invariant
            i <= all@.len(),
            mm == media_map(ns_contents(media_ns)),
            records_enumerate(mm, views_of(all@), ks),
            forall|a: int|
                #![trigger out.deep_view()[a]]
                0 <= a < out.deep_view().len() ==> tag_in_store(mm, out.deep_view()[a]),
            forall|t: int, j: int|
                #![trigger record_tags(views_of(all@)[t])[j]]
                0 <= t < i && 0 <= j < record_tags(views_of(all@)[t]).len() ==> out.deep_view()
                    .contains(record_tags(views_of(all@)[t])[j]),
            forall|a: int, b: int|
                #![trigger out.deep_view()[a], out.deep_view()[b]]
                0 <= a < b < out.deep_view().len() ==> out.deep_view()[a] != out.deep_view()[b],
        decreases all@.len() - i,
    {
        let ghost rv = views_of(all@)[i as int];
        match &all[i].tags {
            None => {
                proof {
                    assert(record_tags(rv).len() == 0);
                }
            },
            Some(ts) => {
                proof {
                    assert(ks.len() == views_of(all@).len());
                    assert(mm.contains_key(ks[i as int]) && mm[ks[i as int]] == rv);
                    assert(record_tags(rv) == ts.deep_view());
                }
                let mut j: usize = 0;
                while j < ts.len()
                    invariant
                        j <= ts@.len(),
                        i < all@.len(),
                        mm.contains_key(ks[i as int]),
                        mm[ks[i as int]] == rv,
                        record_tags(rv) == ts.deep_view(),
                        ts.deep_view().len() == ts@.len(),
                        forall|a: int|
                            #![trigger out.deep_view()[a]]
                            0 <= a < out.deep_view().len() ==> tag_in_store(
                                mm,
                                out.deep_view()[a],
                            ),
                        forall|t: int, jj: int|
                            #![trigger record_tags(views_of(all@)[t])[jj]]
                            0 <= t < i && 0 <= jj < record_tags(views_of(all@)[t]).len()
                                ==> out.deep_view().contains(record_tags(views_of(all@)[t])[jj]),
                        forall|jj: int|
                            0 <= jj < j ==> out.deep_view().contains(
                                #[trigger] ts.deep_view()[jj],
                            ),
                        forall|a: int, b: int|
                            #![trigger out.deep_view()[a], out.deep_view()[b]]
                            0 <= a < b < out.deep_view().len() ==> out.deep_view()[a]
                                != out.deep_view()[b],
                    decreases ts@.len() - j,
                {
                    let ghost out_before = out.deep_view();
                    let present = vec_contains_string(&out, &ts[j]);
                    if !present {
                        out.push(ts[j].clone());
                        proof {
                            assert(out.deep_view() =~= out_before.push(ts.deep_view()[j as int]));
                            assert forall|a: int|
                                0 <= a < out.deep_view().len() implies tag_in_store(
                                mm,
                                #[trigger] out.deep_view()[a],
                            ) by {
                                if a < out.deep_view().len() - 1 {
                                    assert(out.deep_view()[a] == out_before[a]);
                                    assert(tag_in_store(mm, out_before[a]));
                                } else {
                                    assert(record_tags(rv)[j as int] == out.deep_view()[a]);
                                    assert(record_tags(rv).contains(out.deep_view()[a]));
                                    assert(tag_in_store(mm, out.deep_view()[a])) by {
                                        assert(mm.contains_key(ks[i as int]) && record_tags(
                                            mm[ks[i as int]],
                                        ).contains(out.deep_view()[a]));
                                    }
                                }
                            }
                            assert forall|t: int, jj: int|
                                0 <= t < i && 0 <= jj < record_tags(views_of(all@)[t]).len()
                                    implies out.deep_view().contains(
                                #[trigger] record_tags(views_of(all@)[t])[jj],
                            ) by {
                                let w = choose|w: int|
                                    0 <= w < out_before.len() && out_before[w] == record_tags(
                                        views_of(all@)[t],
                                    )[jj];
                                assert(out.deep_view()[w] == record_tags(views_of(all@)[t])[jj]);
                            }
                            assert forall|jj: int| 0 <= jj < j + 1 implies out.deep_view().contains(
                                #[trigger] ts.deep_view()[jj],
                            ) by {
                                if jj < j {
                                    let w = choose|w: int|
                                        0 <= w < out_before.len() && out_before[w]
                                            == ts.deep_view()[jj];
                                    assert(out.deep_view()[w] == ts.deep_view()[jj]);
                                } else {
                                    assert(out.deep_view()[out.deep_view().len() - 1]
                                        == ts.deep_view()[jj]);
                                }
                            }
                        }
                    }
                    j += 1;
                }
                proof {
                    assert forall|t: int, jj: int|
                        0 <= t < i + 1 && 0 <= jj < record_tags(views_of(all@)[t]).len()
                            implies out.deep_view().contains(
                        #[trigger] record_tags(views_of(all@)[t])[jj],
                    ) by {
                        if t == i {
                            assert(record_tags(views_of(all@)[t]) == ts.deep_view());
                        }
                    }
                }
            },
        }
        i += 1;
    }
    proof {
        assert forall|k: Seq<u8>, j: int|
            mm.contains_key(k) && 0 <= j < record_tags(mm[k]).len() implies out.deep_view()
            .contains(#[trigger] record_tags(mm[k])[j]) by {
            assert(ks.contains(k));
            let t = choose|t: int| 0 <= t < ks.len() && ks[t] == k;
            assert(views_of(all@)[t] == mm[k]);
        }
        assert(tags_collected(mm, out.deep_view()));
    }
    Ok(ContentTags { tags: out })
}

} // verus!
