//! The central consistency concern of the two-writer protocol: every id
//! reachable from an account's upload index denotes a live record authored
//! by that account, and every live record is listed in its author's index.
//! The two namespace writes are not atomic, so the store guarantees this
//! only when both succeed; the lemmas here prove that the success paths of
//! ingestion and deletion preserve it.

use vstd::prelude::*;

use crate::catalog::{lemma_key_injective, well_keyed};
use crate::codec::spec_key;
use crate::mutate::spec_without_id;
use crate::records::{AccountView, MediaView};

verus! {

/// Every stored account lives under the key derived from its username.
pub open spec fn accounts_well_keyed(am: Map<Seq<u8>, AccountView>) -> bool {
    forall|k: Seq<u8>| #[trigger] am.contains_key(k) ==> k == spec_key(am[k].username)
}

/// The bidirectional invariant between the media namespace and the upload
/// indexes: listed ids denote live records of the listing account, and live
/// records are listed by their author.
pub open spec fn index_consistent(
    mm: Map<Seq<u8>, MediaView>,
    am: Map<Seq<u8>, AccountView>,
) -> bool {
    &&& forall|uk: Seq<u8>, i: int|
        #![trigger am[uk].uploads[i]]
        am.contains_key(uk) && 0 <= i < am[uk].uploads.len() ==> mm.contains_key(
            spec_key(am[uk].uploads[i]),
        ) && mm[spec_key(am[uk].uploads[i])].author_username == am[uk].username && mm[spec_key(
            am[uk].uploads[i],
        )].id == am[uk].uploads[i]
    &&& forall|k: Seq<u8>|
        #![trigger mm.contains_key(k)]
        mm.contains_key(k) ==> am.contains_key(spec_key(mm[k].author_username)) && am[spec_key(
            mm[k].author_username,
        )].uploads.contains(mm[k].id)
}

/// Appending keeps every old element and adds the new one, and nothing
/// else.
proof fn lemma_push_contains<A>(l: Seq<A>, x: A, y: A)
    ensures
        l.push(x).contains(y) <==> (l.contains(y) || y == x),
{
    if l.push(x).contains(y) {
        let i = choose|i: int| 0 <= i < l.push(x).len() && l.push(x)[i] == y;
        if i < l.len() {
            assert(l[i] == y);
        }
    }
    if l.contains(y) {
        let i = choose|i: int| 0 <= i < l.len() && l[i] == y;
        assert(l.push(x)[i] == y);
    }
    assert(l.push(x)[l.len() as int] == x);
}

/// Removing an id keeps exactly the other elements.
proof fn lemma_without_id_contains(l: Seq<Seq<char>>, id: Seq<char>, x: Seq<char>)
    ensures
        spec_without_id(l, id).contains(x) <==> (l.contains(x) && x != id),
    decreases l.len(),
{
    if l.len() == 0 {
    } else {
        lemma_without_id_contains(l.drop_first(), id, x);
        assert forall|y: Seq<char>| l.drop_first().contains(y) implies l.contains(y) by {
            let i = choose|i: int| 0 <= i < l.drop_first().len() && l.drop_first()[i] == y;
            assert(l[i + 1] == y);
        }
        if l.contains(x) && x != id {
            let i = choose|i: int| 0 <= i < l.len() && l[i] == x;
            if i == 0 {
                assert(spec_without_id(l, id)[0] == x);
            } else {
                assert(l.drop_first()[i - 1] == x);
                if l[0] != id {
                    let rest = spec_without_id(l.drop_first(), id);
                    let j = choose|j: int| 0 <= j < rest.len() && rest[j] == x;
                    assert(spec_without_id(l, id)[j + 1] == x);
                }
            }
        }
        if spec_without_id(l, id).contains(x) {
            let i = choose|i: int|
                0 <= i < spec_without_id(l, id).len() && spec_without_id(l, id)[i] == x;
            if l[0] != id && i == 0 {
                assert(l[0] == x);
            } else if l[0] != id {
                assert(spec_without_id(l.drop_first(), id)[i - 1] == x);
            }
        }
    }
}

/// A successful ingestion preserves the invariant: inserting a fresh record
/// authored by the owner and appending its id to the owner's index leaves
/// every listed id live and every live record listed.
pub proof fn lemma_upload_preserves_consistency(
    mm: Map<Seq<u8>, MediaView>,
    am: Map<Seq<u8>, AccountView>,
    rec: MediaView,
    owner: Seq<char>,
)
    requires
        index_consistent(mm, am),
        accounts_well_keyed(am),
        am.contains_key(spec_key(owner)),
        am[spec_key(owner)].username == owner,
        rec.author_username == owner,
        !mm.contains_key(spec_key(rec.id)),
    ensures
        index_consistent(
            mm.insert(spec_key(rec.id), rec),
            am.insert(
                spec_key(owner),
                AccountView { username: owner, uploads: am[spec_key(owner)].uploads.push(rec.id) },
            ),
        ),
        accounts_well_keyed(
            am.insert(
                spec_key(owner),
                AccountView { username: owner, uploads: am[spec_key(owner)].uploads.push(rec.id) },
            ),
        ),
{
    let okey = spec_key(owner);
    let mm2 = mm.insert(spec_key(rec.id), rec);
    let acct2 = AccountView { username: owner, uploads: am[okey].uploads.push(rec.id) };
    let am2 = am.insert(okey, acct2);

    assert forall|uk: Seq<u8>, i: int|
        am2.contains_key(uk) && 0 <= i < am2[uk].uploads.len() implies mm2.contains_key(
        spec_key(#[trigger] am2[uk].uploads[i]),
    ) && mm2[spec_key(am2[uk].uploads[i])].author_username == am2[uk].username && mm2[spec_key(
        am2[uk].uploads[i],
    )].id == am2[uk].uploads[i] by {
        if uk == okey && i == am[okey].uploads.len() {
            assert(am2[uk].uploads[i] == rec.id);
            assert(mm2[spec_key(rec.id)] == rec);
        } else {
            let x = if uk == okey {
                am[okey].uploads[i]
            } else {
                am[uk].uploads[i]
            };
            assert(am.contains_key(uk) && am[uk].uploads[i] == x);
            assert(mm.contains_key(spec_key(x)));
            assert(spec_key(x) != spec_key(rec.id));
            assert(mm2[spec_key(x)] == mm[spec_key(x)]);
        }
    }
    assert forall|k: Seq<u8>| #[trigger] mm2.contains_key(k) implies am2.contains_key(
        spec_key(mm2[k].author_username),
    ) && am2[spec_key(mm2[k].author_username)].uploads.contains(mm2[k].id) by {
        if k == spec_key(rec.id) {
            assert(mm2[k] == rec);
            lemma_push_contains(am[okey].uploads, rec.id, rec.id);
        } else {
            assert(mm.contains_key(k) && mm2[k] == mm[k]);
            let author = mm[k].author_username;
            assert(am.contains_key(spec_key(author)) && am[spec_key(author)].uploads.contains(
                mm[k].id,
            ));
            if spec_key(author) == okey {
                lemma_key_injective(author, owner);
                lemma_push_contains(am[okey].uploads, rec.id, mm[k].id);
            }
        }
    }
}

/// A successful deletion preserves the invariant: removing the record and
/// detaching its id from the caller's index leaves every listed id live and
/// every live record listed.
pub proof fn lemma_delete_preserves_consistency(
    mm: Map<Seq<u8>, MediaView>,
    am: Map<Seq<u8>, AccountView>,
    id: Seq<char>,
    caller: Seq<char>,
)
    requires
        index_consistent(mm, am),
        well_keyed(mm),
        accounts_well_keyed(am),
        am.contains_key(spec_key(caller)),
        am[spec_key(caller)].username == caller,
        mm.contains_key(spec_key(id)),
        mm[spec_key(id)].author_username == caller,
    ensures
        index_consistent(
            mm.remove(spec_key(id)),
            am.insert(
                spec_key(caller),
                AccountView {
                    username: caller,
                    uploads: spec_without_id(am[spec_key(caller)].uploads, id),
                },
            ),
        ),
{
    let ckey = spec_key(caller);
    let key = spec_key(id);
    let mm2 = mm.remove(key);
    let acct2 = AccountView {
        username: caller,
        uploads: spec_without_id(am[ckey].uploads, id),
    };
    let am2 = am.insert(ckey, acct2);
    assert(mm[key].id == id) by {
        lemma_key_injective(mm[key].id, id);
    }

    assert forall|uk: Seq<u8>, i: int|
        am2.contains_key(uk) && 0 <= i < am2[uk].uploads.len() implies mm2.contains_key(
        spec_key(#[trigger] am2[uk].uploads[i]),
    ) && mm2[spec_key(am2[uk].uploads[i])].author_username == am2[uk].username && mm2[spec_key(
        am2[uk].uploads[i],
    )].id == am2[uk].uploads[i] by {
        let x = am2[uk].uploads[i];
        if uk == ckey {
            lemma_without_id_contains(am[ckey].uploads, id, x);
            assert(am[ckey].uploads.contains(x) && x != id);
            let j = choose|j: int| 0 <= j < am[ckey].uploads.len() && am[ckey].uploads[j] == x;
            assert(am[ckey].uploads[j] == x);
            assert(mm.contains_key(spec_key(x)));
            assert(spec_key(x) != key) by {
                if spec_key(x) == key {
                    lemma_key_injective(x, id);
                }
            }
        } else {
            assert(am.contains_key(uk) && am[uk].uploads[i] == x);
            assert(mm.contains_key(spec_key(x)));
            assert(spec_key(x) != key) by {
                if spec_key(x) == key {
                    assert(mm[key].author_username == am[uk].username);
                    assert(uk == spec_key(am[uk].username));
                }
            }
        }
    }
    assert forall|k: Seq<u8>| #[trigger] mm2.contains_key(k) implies am2.contains_key(
        spec_key(mm2[k].author_username),
    ) && am2[spec_key(mm2[k].author_username)].uploads.contains(mm2[k].id) by {
        assert(mm.contains_key(k) && mm2[k] == mm[k]);
        let author = mm[k].author_username;
        assert(am.contains_key(spec_key(author)) && am[spec_key(author)].uploads.contains(
            mm[k].id,
        ));
        if spec_key(author) == ckey {
            lemma_key_injective(author, caller);
            assert(mm[k].id != id) by {
                if mm[k].id == id {
                    assert(k == spec_key(mm[k].id));
                }
            }
            lemma_without_id_contains(am[ckey].uploads, id, mm[k].id);
        }
    }
}

} // verus!
