//! Reading and writing whole records against a raw namespace: key lookups,
//! full scans that silently skip undecodable entries, and the well-keyedness
//! invariant that every stored record lives under the key derived from its
//! own identifier.

use vstd::prelude::*;

use crate::codec::{account_map, decode_account, decode_media, enc_account, enc_media,
    encode_account, encode_media, lemma_account_map_insert, lemma_media_map_insert,
    lemma_media_map_remove, key_bytes, media_map, parse_media, spec_key};
use crate::error::ApiError;
use crate::records::{Account, AccountView, MediaRecord, MediaView};
use crate::store::{ns_contents, Namespace};

verus! {

/// `rs` and `ks` enumerate the decoded records of `mm`: position by
/// position, each key is present, carries that record, occurs once, and
/// every key of `mm` is listed.
pub open spec fn records_enumerate(
    mm: Map<Seq<u8>, MediaView>,
    rs: Seq<MediaView>,
    ks: Seq<Seq<u8>>,
) -> bool {
    &&& ks.len() == rs.len()
    &&& forall|i: int| 0 <= i < ks.len() ==> mm.contains_key(#[trigger] ks[i]) && mm[ks[i]] == rs[i]
    &&& forall|i: int, j: int| 0 <= i < j < ks.len() ==> ks[i] != ks[j]
    &&& forall|k: Seq<u8>| #[trigger] mm.contains_key(k) ==> ks.contains(k)
}

/// Some key list enumerates `mm` as `rs`.
pub open spec fn lists_media(mm: Map<Seq<u8>, MediaView>, rs: Seq<MediaView>) -> bool {
    exists|ks: Seq<Seq<u8>>| records_enumerate(mm, rs, ks)
}

/// The views of a vector of records, position by position.
pub open spec fn views_of(rs: Seq<MediaRecord>) -> Seq<MediaView> {
    Seq::new(rs.len(), |i: int| rs[i]@)
}

/// Every stored record lives under the key derived from its own identifier.
pub open spec fn well_keyed(mm: Map<Seq<u8>, MediaView>) -> bool {
    forall|k: Seq<u8>| #[trigger] mm.contains_key(k) ==> k == spec_key(mm[k].id)
}

/// Scans the media namespace and decodes every entry, skipping entries whose
/// bytes do not form a record.
#[verifier::rlimit(60)]
#[verifier::spinoff_prover]
pub fn scan_media_records(ns: &Namespace) -> (r: Result<Vec<MediaRecord>, ApiError>)
    ensures
        r matches Ok(rs) ==> lists_media(media_map(ns_contents(ns)), views_of(rs@)),
        r matches Err(e) ==> e == ApiError::Internal,
{
    let ghost raw = ns_contents(ns);
    let ghost mm = media_map(raw);
    let entries = match ns.scan() {
        Ok(es) => es,
        Err(e) => {
            return Err(e);
        },
    };
    let mut rs: Vec<MediaRecord> = Vec::new();
    let ghost mut ks: Seq<Seq<u8>> = Seq::empty();
    let mut i: usize = 0;
    while i < entries.len()
        invariant
            i <= entries@.len(),
            raw == ns_contents(ns),
            mm == media_map(raw),
            crate::store::scan_matches(raw, entries@),
            ks.len() == rs@.len(),
            forall|j: int|
                0 <= j < ks.len() ==> mm.contains_key(#[trigger] ks[j]) && mm[ks[j]] == views_of(
                    rs@,
                )[j],
            forall|j: int|
                0 <= j < ks.len() ==> exists|t: int|
                    0 <= t < i && (#[trigger] entries@[t]).0@ == #[trigger] ks[j],
            forall|a: int, b: int| 0 <= a < b < ks.len() ==> ks[a] != ks[b],
            forall|t: int|
                0 <= t < i && parse_media(raw[(#[trigger] entries@[t]).0@]) is Some ==> ks.contains(
                    entries@[t].0@,
                ),
        decreases entries@.len() - i,
    {
        let ghost key = entries@[i as int].0@;
        let ghost old_ks = ks;
        match decode_media(&entries[i].1) {
            Some(m) => {
                rs.push(m);
                proof {
                    ks = ks.push(key);
                    assert forall|a: int, b: int| 0 <= a < b < ks.len() implies ks[a] != ks[b] by {
                        if b == ks.len() - 1 {
                            let t = choose|t: int|
                                0 <= t < i && (#[trigger] entries@[t]).0@ == ks[a];
                            assert(entries@[t].0@ != entries@[i as int].0@);
                        }
                    }
                    assert forall|t: int|
                        0 <= t < i + 1 && parse_media(
                            raw[(#[trigger] entries@[t]).0@],
                        ) is Some implies ks.contains(entries@[t].0@) by {
                        if t < i {
                            let idx = choose|idx: int|
                                0 <= idx < old_ks.len() && old_ks[idx] == entries@[t].0@;
                            assert(ks[idx] == entries@[t].0@);
                        } else {
                            assert(ks[ks.len() - 1] == key);
                        }
                    }
                }
            },
            None => {
                proof {
                    assert(!mm.contains_key(key));
                    assert forall|t: int|
                        0 <= t < i + 1 && parse_media(
                            raw[(#[trigger] entries@[t]).0@],
                        ) is Some implies ks.contains(entries@[t].0@) by {
                        if t < i {
                            let idx = choose|idx: int|
                                0 <= idx < old_ks.len() && old_ks[idx] == entries@[t].0@;
                            assert(ks[idx] == entries@[t].0@);
                        }
                    }
                }
            },
        }
        i += 1;
    }
    proof {
        assert forall|k: Seq<u8>| #[trigger] mm.contains_key(k) implies ks.contains(k) by {
            let t = choose|t: int| 0 <= t < entries@.len() && (#[trigger] entries@[t]).0@ == k;
            assert(parse_media(raw[entries@[t].0@]) is Some);
        }
        assert(records_enumerate(mm, views_of(rs@), ks));
        assert(lists_media(media_map(ns_contents(ns)), views_of(rs@))) by {
            assert(records_enumerate(media_map(ns_contents(ns)), views_of(rs@), ks));
        }
    }
    Ok(rs)
}

/// Looks the media record for an identifier up under its key.
pub fn get_media_by_key(ns: &Namespace, id: &String) -> (r: Result<MediaRecord, ApiError>)
    ensures
        r matches Ok(m) ==> media_map(ns_contents(ns)).contains_key(spec_key(id@)) && media_map(
            ns_contents(ns),
        )[spec_key(id@)] == m@,
        !media_map(ns_contents(ns)).contains_key(spec_key(id@)) ==> r is Err,
        r matches Err(e) ==> e == ApiError::Internal,
{
    let key = key_bytes(id);
    match ns.get(&key) {
        Err(e) => Err(e),
        Ok(None) => Err(ApiError::Internal),
        Ok(Some(bytes)) => match decode_media(&bytes) {
            None => Err(ApiError::Internal),
            Some(m) => Ok(m),
        },
    }
}

/// Looks an account's upload index up under its key; a missing or
/// undecodable entry reads as no account.
pub fn get_account(ns: &Namespace, username: &String) -> (r: Result<Option<Account>, ApiError>)
    ensures
        r matches Ok(Some(a)) ==> account_map(ns_contents(ns)).contains_key(spec_key(username@))
            && account_map(ns_contents(ns))[spec_key(username@)] == a@,
        r matches Ok(None) ==> !account_map(ns_contents(ns)).contains_key(spec_key(username@)),
        r matches Err(e) ==> e == ApiError::Internal,
{
    let key = key_bytes(username);
    match ns.get(&key) {
        Err(e) => Err(e),
        Ok(None) => Ok(None),
        Ok(Some(bytes)) => match decode_account(&bytes) {
            None => Ok(None),
            Some(a) => Ok(Some(a)),
        },
    }
}

/// Inserts a media record under the key of its identifier.
pub fn store_media(ns: &mut Namespace, m: &MediaRecord) -> (r: Result<(), ApiError>)
    ensures
        r is Ok ==> ns_contents(final(ns)) == ns_contents(old(ns)).insert(
            spec_key(m.id@),
            enc_media(m@),
        ) && media_map(ns_contents(final(ns))) == media_map(ns_contents(old(ns))).insert(
            spec_key(m.id@),
            m@,
        ),
        r matches Err(e) ==> e == ApiError::Internal,
{
    let key = key_bytes(&m.id);
    let bytes = encode_media(m);
    let r = ns.set(&key, bytes);
    proof {
        if r is Ok {
            lemma_media_map_insert(ns_contents(old(ns)), spec_key(m.id@), enc_media(m@), m@);
        }
    }
    r
}

/// Atomically replaces the record stored under the key of its identifier.
pub fn replace_media(ns: &mut Namespace, m: &MediaRecord) -> (r: Result<(), ApiError>)
    ensures
        r is Ok ==> ns_contents(final(ns)) == ns_contents(old(ns)).insert(
            spec_key(m.id@),
            enc_media(m@),
        ) && media_map(ns_contents(final(ns))) == media_map(ns_contents(old(ns))).insert(
            spec_key(m.id@),
            m@,
        ),
        r matches Err(e) ==> e == ApiError::Internal,
{
    let key = key_bytes(&m.id);
    let bytes = encode_media(m);
    let r = ns.update(&key, bytes);
    proof {
        if r is Ok {
            lemma_media_map_insert(ns_contents(old(ns)), spec_key(m.id@), enc_media(m@), m@);
        }
    }
    r
}

/// Removes the record stored under an identifier's key.
pub fn remove_media(ns: &mut Namespace, id: &String) -> (r: Result<(), ApiError>)
    ensures
        r is Ok ==> ns_contents(final(ns)) == ns_contents(old(ns)).remove(spec_key(id@))
            && media_map(ns_contents(final(ns))) == media_map(ns_contents(old(ns))).remove(
            spec_key(id@),
        ),
        r matches Err(e) ==> e == ApiError::Internal,
{
    let key = key_bytes(id);
    let r = ns.remove(&key);
    proof {
        if r is Ok {
            lemma_media_map_remove(ns_contents(old(ns)), spec_key(id@));
        }
    }
    r
}

/// Atomically replaces an account's upload index under its key.
pub fn put_account(ns: &mut Namespace, account: &Account) -> (r: Result<(), ApiError>)
    ensures
        r is Ok ==> ns_contents(final(ns)) == ns_contents(old(ns)).insert(
            spec_key(account.username@),
            enc_account(account@),
        ) && account_map(ns_contents(final(ns))) == account_map(ns_contents(old(ns))).insert(
            spec_key(account.username@),
            account@,
        ),
        r matches Err(e) ==> e == ApiError::Internal,
{
    let key = key_bytes(&account.username);
    let bytes = encode_account(account);
    let r = ns.update(&key, bytes);
    proof {
        if r is Ok {
            lemma_account_map_insert(
                ns_contents(old(ns)),
                spec_key(account.username@),
                enc_account(account@),
                account@,
            );
        }
    }
    r
}

/// Any two enumerations of the same decoded store list the same records,
/// as a multiset: the listing's order is the only freedom.
pub proof fn lemma_enumerations_agree(
    mm: Map<Seq<u8>, MediaView>,
    rs1: Seq<MediaView>,
    ks1: Seq<Seq<u8>>,
    rs2: Seq<MediaView>,
    ks2: Seq<Seq<u8>>,
)
    requires
        records_enumerate(mm, rs1, ks1),
        records_enumerate(mm, rs2, ks2),
    ensures
        rs1.to_multiset() == rs2.to_multiset(),
    decreases ks1.len(),
{
    broadcast use vstd::multiset::group_multiset_axioms;
    broadcast use vstd::seq_lib::group_to_multiset_ensures;

    if ks1.len() == 0 {
        assert(ks2.len() == 0) by {
            if ks2.len() > 0 {
                assert(mm.contains_key(ks2[0]));
                assert(ks1.contains(ks2[0]));
            }
        }
        assert(rs1.to_multiset() =~= rs2.to_multiset());
    } else {
        let k = ks1[0];
        let v = mm[k];
        assert(mm.contains_key(k) && rs1[0] == v);
        assert(ks2.contains(k));
        let j = choose|j: int| 0 <= j < ks2.len() && ks2[j] == k;
        assert(rs2[j] == v);

        let mm2 = mm.remove(k);
        let ks1p = ks1.drop_first();
        let rs1p = rs1.drop_first();
        let ks2p = ks2.remove(j);
        let rs2p = rs2.remove(j);

        assert(records_enumerate(mm2, rs1p, ks1p)) by {
            assert forall|i: int| 0 <= i < ks1p.len() implies mm2.contains_key(#[trigger] ks1p[i])
                && mm2[ks1p[i]] == rs1p[i] by {
                assert(ks1p[i] == ks1[i + 1] && rs1p[i] == rs1[i + 1]);
                assert(ks1[i + 1] != ks1[0]);
            }
            assert forall|kk: Seq<u8>| #[trigger] mm2.contains_key(kk) implies ks1p.contains(
                kk,
            ) by {
                assert(mm.contains_key(kk) && kk != k);
                assert(ks1.contains(kk));
                let t = choose|t: int| 0 <= t < ks1.len() && ks1[t] == kk;
                assert(t != 0);
                assert(ks1p[t - 1] == kk);
            }
        }
        assert(records_enumerate(mm2, rs2p, ks2p)) by {
            assert(ks2p =~= ks2.subrange(0, j) + ks2.subrange(j + 1, ks2.len() as int));
            assert(rs2p =~= rs2.subrange(0, j) + rs2.subrange(j + 1, rs2.len() as int));
            assert forall|i: int| 0 <= i < ks2p.len() implies mm2.contains_key(#[trigger] ks2p[i])
                && mm2[ks2p[i]] == rs2p[i] by {
                if i < j {
                    assert(ks2p[i] == ks2[i] && rs2p[i] == rs2[i]);
                    assert(ks2[i] != ks2[j]);
                } else {
                    assert(ks2p[i] == ks2[i + 1] && rs2p[i] == rs2[i + 1]);
                    assert(ks2[i + 1] != ks2[j]);
                }
            }
            assert forall|a: int, b: int| 0 <= a < b < ks2p.len() implies ks2p[a] != ks2p[b] by {
                if b < j {
                } else if a < j && j <= b {
                    assert(ks2p[a] == ks2[a] && ks2p[b] == ks2[b + 1]);
                } else {
                    assert(ks2p[a] == ks2[a + 1] && ks2p[b] == ks2[b + 1]);
                }
            }
            assert forall|kk: Seq<u8>| #[trigger] mm2.contains_key(kk) implies ks2p.contains(
                kk,
            ) by {
                assert(mm.contains_key(kk) && kk != k);
                assert(ks2.contains(kk));
                let t = choose|t: int| 0 <= t < ks2.len() && ks2[t] == kk;
                assert(t != j);
                if t < j {
                    assert(ks2p[t] == kk);
                } else {
                    assert(ks2p[t - 1] == kk);
                }
            }
        }
        lemma_enumerations_agree(mm2, rs1p, ks1p, rs2p, ks2p);

        assert(rs1.to_multiset() == rs1p.to_multiset().insert(v)) by {
            vstd::seq_lib::to_multiset_remove(rs1, 0);
            assert(rs1.remove(0) =~= rs1p);
            assert(rs1.contains(rs1[0]));
            assert(rs1.to_multiset().count(v) > 0);
            assert(rs1p.to_multiset().insert(v) =~= rs1.to_multiset());
        }
        assert(rs2.to_multiset() == rs2p.to_multiset().insert(v)) by {
            vstd::seq_lib::to_multiset_remove(rs2, j);
            assert(rs2.contains(rs2[j]));
            assert(rs2.to_multiset().count(v) > 0);
            assert(rs2p.to_multiset().insert(v) =~= rs2.to_multiset());
        }
    }
}

/// Identifier keys are injective: equal keys mean equal identifiers.
pub proof fn lemma_key_injective(a: Seq<char>, b: Seq<char>)
    requires
        spec_key(a) == spec_key(b),
    ensures
        a == b,
{
    vstd::utf8::encode_utf8_decode_utf8(a);
    vstd::utf8::encode_utf8_decode_utf8(b);
}

/// In a well-keyed store, an identifier missing under its key is missing
/// altogether: no entry anywhere carries it.
pub proof fn lemma_absent_id_unreachable(mm: Map<Seq<u8>, MediaView>, id: Seq<char>)
    requires
        well_keyed(mm),
        !mm.contains_key(spec_key(id)),
    ensures
        forall|k: Seq<u8>| #[trigger] mm.contains_key(k) ==> mm[k].id != id,
{
    assert forall|k: Seq<u8>| #[trigger] mm.contains_key(k) implies mm[k].id != id by {
        if mm[k].id == id {
            assert(k == spec_key(mm[k].id));
        }
    }
}

/// Inserting a record under its own key preserves well-keyedness.
pub proof fn lemma_well_keyed_insert(mm: Map<Seq<u8>, MediaView>, v: MediaView)
    requires
        well_keyed(mm),
    ensures
        well_keyed(mm.insert(spec_key(v.id), v)),
{
}

/// Removing an entry preserves well-keyedness.
pub proof fn lemma_well_keyed_remove(mm: Map<Seq<u8>, MediaView>, k: Seq<u8>)
    requires
        well_keyed(mm),
    ensures
        well_keyed(mm.remove(k)),
{
}

} // verus!
