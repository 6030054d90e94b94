//! The mutation path: in-place edits of a record's name, visibility and
//! tags, and deletion with ownership enforcement. Deletion mirrors
//! ingestion's two-namespace update in reverse — remove the record, then
//! detach its id from the owner's upload index — with the same caveat that
//! a failure between the writes leaves the index pointing at nothing.

use vstd::prelude::*;

use vstd::utf8::encode_utf8;

use crate::catalog::{get_account, get_media_by_key, lemma_absent_id_unreachable,
    lemma_well_keyed_remove, put_account, remove_media, replace_media, well_keyed};
use crate::codec::{account_map, enc_media, media_map, spec_key};
use crate::config::Config;
use crate::error::ApiError;
use crate::records::{Account, AccountView, MediaRecord, MediaView};
use crate::retrieve::find_media;
use crate::store::{ns_contents, Namespace};
use crate::tags::{normalize_tags, spec_normalize_tags};

verus! {

/// A deletion request.
#[derive(Clone, Debug)]
pub struct DeleteMedia {
    pub id: String,
    pub api_key: String,
}

/// An edit request: unset fields keep their stored value; tags are replaced
/// only when `edit_tags` is set.
#[derive(Clone, Debug)]
pub struct EditMedia {
    pub id: String,
    pub api_key: String,
    pub name: Option<String>,
    pub unlisted: Option<bool>,
    pub tags: Option<Vec<String>>,
    pub edit_tags: Option<bool>,
}

/// The record after an edit request is applied: the name and visibility are
/// overwritten where given, and the tag set is re-normalized and replaced
/// where tag editing was requested.
pub open spec fn spec_edited(
    cfg: Config,
    m: MediaView,
    name: Option<Seq<char>>,
    unlisted: Option<bool>,
    tags: Option<Seq<Seq<char>>>,
    edit_tags: Option<bool>,
) -> MediaView {
    let m1 = match name {
        Some(n) => MediaView { name: n, ..m },
        None => m,
    };
    let m2 = match unlisted {
        Some(u) => MediaView { unlisted: u, ..m1 },
        None => m1,
    };
    if edit_tags == Some(true) {
        MediaView {
            tags: spec_normalize_tags(
                cfg.tags_default.deep_view(),
                cfg.tags_allow_custom,
                cfg.tags_max_name_length,
                tags,
            ),
            ..m2
        }
    } else {
        m2
    }
}

/// Some stored record carries the requested id, and the store now holds its
/// edited form in place of it.
pub open spec fn spec_edit_applied(
    cfg: Config,
    raw_old: Map<Seq<u8>, Seq<u8>>,
    raw_new: Map<Seq<u8>, Seq<u8>>,
    body_id: Seq<char>,
    name: Option<Seq<char>>,
    unlisted: Option<bool>,
    tags: Option<Seq<Seq<char>>>,
    edit_tags: Option<bool>,
) -> bool {
    exists|k: Seq<u8>|
        {
            let orig = media_map(raw_old)[k];
            let new = spec_edited(cfg, orig, name, unlisted, tags, edit_tags);
            &&& #[trigger] media_map(raw_old).contains_key(k)
            &&& orig.id == body_id
            &&& raw_new == raw_old.insert(spec_key(orig.id), enc_media(new))
            &&& media_map(raw_new) == media_map(raw_old).insert(spec_key(orig.id), new)
        }
}

/// Edits a record in place. Editing must be enabled on the instance and the
/// caller authenticated; ownership is not re-checked against the caller.
pub fn edit(cfg: &Config, media_ns: &mut Namespace, body: &EditMedia, authed: bool) -> (r: Result<
    (),
    ApiError,
>)
    ensures
        !cfg.media_allow_editing ==> r == Err::<(), ApiError>(ApiError::Forbidden) && ns_contents(
            final(media_ns),
        ) == ns_contents(old(media_ns)),
        cfg.media_allow_editing && !authed ==> r == Err::<(), ApiError>(ApiError::Unauthorized)
            && ns_contents(final(media_ns)) == ns_contents(old(media_ns)),
        r == Err::<(), ApiError>(ApiError::BadRequestNameLength) ==> (body.name matches Some(n)
            && encode_utf8(n@).len() > cfg.media_max_name_length) && ns_contents(final(media_ns))
            == ns_contents(old(media_ns)),
        r matches Ok(_) ==> cfg.media_allow_editing && authed && (body.name matches Some(n) ==> !(
        encode_utf8(n@).len() > cfg.media_max_name_length)) && spec_edit_applied(
            *cfg,
            ns_contents(old(media_ns)),
            ns_contents(final(media_ns)),
            body.id@,
            body.name.deep_view(),
            body.unlisted,
            body.tags.deep_view(),
            body.edit_tags,
        ),
        r matches Err(e) ==> (e == ApiError::Internal || e == ApiError::Unauthorized || e
            == ApiError::Forbidden || e == ApiError::BadRequestNameLength),
        r == Err::<(), ApiError>(ApiError::Forbidden) ==> !cfg.media_allow_editing,
        r == Err::<(), ApiError>(ApiError::Unauthorized) ==> cfg.media_allow_editing && !authed,
        // A stored record carrying the id plus an oversize name is owed the
        // refusal, with the namespace untouched; only a store failure,
        // reported as internal, may pre-empt the kind.
        (cfg.media_allow_editing && authed && (exists|k: Seq<u8>|
            #[trigger] media_map(ns_contents(old(media_ns))).contains_key(k) && media_map(
                ns_contents(old(media_ns)),
            )[k].id == body.id@) && (body.name matches Some(n) && encode_utf8(n@).len()
            > cfg.media_max_name_length)) ==> (r == Err::<(), ApiError>(
            ApiError::BadRequestNameLength,
        ) || r == Err::<(), ApiError>(ApiError::Internal)) && ns_contents(final(media_ns))
            == ns_contents(old(media_ns)),
        // When no stored record carries the id, the edit fails as an
        // internal error and changes nothing.
        (cfg.media_allow_editing && authed && (forall|k: Seq<u8>|
            #[trigger] media_map(ns_contents(old(media_ns))).contains_key(k) ==> media_map(
                ns_contents(old(media_ns)),
            )[k].id != body.id@)) ==> r == Err::<(), ApiError>(ApiError::Internal) && ns_contents(
            final(media_ns),
        ) == ns_contents(old(media_ns)),
{
    if !cfg.media_allow_editing {
        return Err(ApiError::Forbidden);
    }
    if !authed {
        return Err(ApiError::Unauthorized);
    }
    let ghost raw_old = ns_contents(media_ns);
    let media = find_media(media_ns, &body.id)?;
    let mut edited = media;
    if let Some(name) = &body.name {
        let name_bytes = name.as_str().as_bytes_vec();
        if name_bytes.len() as u64 > cfg.media_max_name_length {
            return Err(ApiError::BadRequestNameLength);
        }
        edited.name = name.clone();
    }
    if let Some(u) = body.unlisted {
        edited.unlisted = u;
    }
    if let Some(et) = body.edit_tags {
        if et {
            edited.tags = normalize_tags(cfg, &body.tags);
        }
    }
    proof {
        assert(edited@ == spec_edited(
            *cfg,
            media@,
            body.name.deep_view(),
            body.unlisted,
            body.tags.deep_view(),
            body.edit_tags,
        ));
    }
    replace_media(media_ns, &edited)?;
    proof {
        let k = choose|k: Seq<u8>|
            #[trigger] media_map(raw_old).contains_key(k) && media_map(raw_old)[k] == media@;
        assert(spec_edit_applied(
            *cfg,
            raw_old,
            ns_contents(media_ns),
            body.id@,
            body.name.deep_view(),
            body.unlisted,
            body.tags.deep_view(),
            body.edit_tags,
        )) by {
            assert(media_map(raw_old).contains_key(spec_key(media@.id)) || media_map(
                raw_old,
            ).contains_key(k));
        }
    }
    Ok(())
}

/// The upload list with every occurrence of the id removed.
pub open spec fn spec_without_id(l: Seq<Seq<char>>, id: Seq<char>) -> Seq<Seq<char>>
    decreases l.len(),
{
    if l.len() == 0 {
        Seq::empty()
    } else if l[0] == id {
        spec_without_id(l.drop_first(), id)
    } else {
        seq![l[0]] + spec_without_id(l.drop_first(), id)
    }
}

/// Keeps the upload entries that do not name the deleted id.
fn without_id(l: &Vec<String>, id: &String) -> (r: Vec<String>)
    ensures
        r.deep_view() == spec_without_id(l.deep_view(), id@),
{
    let ghost lv = l.deep_view();
    let mut kept: Vec<String> = Vec::new();
    let mut i: usize = 0;
    proof {
        assert(lv.skip(0) =~= lv);
        assert(kept.deep_view() =~= Seq::<Seq<char>>::empty());
    }
    while i < l.len()
        invariant
            i <= l@.len(),
            lv == l.deep_view(),
            lv.len() == l@.len(),
            spec_without_id(lv, id@) == kept.deep_view() + spec_without_id(lv.skip(i as int), id@),
        decreases l@.len() - i,
    {
        let ghost keptv = kept.deep_view();
        proof {
            assert(lv.skip(i as int)[0] == lv[i as int]);
            assert(lv.skip(i as int).drop_first() =~= lv.skip(i as int + 1));
        }
        if !l[i].eq(id) {
            kept.push(l[i].clone());
            proof {
                assert(kept.deep_view() =~= keptv + seq![lv[i as int]]);
                vstd::seq_lib::lemma_concat_associative(
                    keptv,
                    seq![lv[i as int]],
                    spec_without_id(lv.skip(i as int + 1), id@),
                );
            }
        }
        i += 1;
    }
    proof {
        assert(lv.skip(l@.len() as int) =~= Seq::<Seq<char>>::empty());
        assert(kept.deep_view() + Seq::<Seq<char>>::empty() =~= kept.deep_view());
    }
    kept
}

/// Deletes a record. Only the record's author may delete it; on success the
/// record leaves the media namespace and its id leaves the caller's upload
/// index. The blob file is not removed.
pub fn delete(
    media_ns: &mut Namespace,
    user_ns: &mut Namespace,
    body: &DeleteMedia,
    caller: &String,
) -> (r: Result<(), ApiError>)
    ensures
        r matches Ok(_) ==> {
            let key = spec_key(body.id@);
            let ckey = spec_key(caller@);
            let mm_old = media_map(ns_contents(old(media_ns)));
            let am_old = account_map(ns_contents(old(user_ns)));
            &&& mm_old.contains_key(key)
            &&& mm_old[key].author_username == caller@
            &&& ns_contents(final(media_ns)) == ns_contents(old(media_ns)).remove(key)
            &&& media_map(ns_contents(final(media_ns))) == mm_old.remove(key)
            &&& am_old.contains_key(ckey)
            &&& account_map(ns_contents(final(user_ns))) == am_old.insert(
                spec_key(am_old[ckey].username),
                AccountView {
                    username: am_old[ckey].username,
                    uploads: spec_without_id(am_old[ckey].uploads, body.id@),
                },
            )
        },
        r == Err::<(), ApiError>(ApiError::Unauthorized) ==> {
            let key = spec_key(body.id@);
            let ckey = spec_key(caller@);
            let mm_old = media_map(ns_contents(old(media_ns)));
            let am_old = account_map(ns_contents(old(user_ns)));
            &&& ns_contents(final(media_ns)) == ns_contents(old(media_ns))
            &&& ns_contents(final(user_ns)) == ns_contents(old(user_ns))
            &&& (!am_old.contains_key(ckey) || (mm_old.contains_key(key) && mm_old[key].author_username
                != caller@))
        },
        r matches Err(e) ==> (e == ApiError::Internal || e == ApiError::Unauthorized),
        // Refusals are owed, and they leave both namespaces untouched; only
        // a store failure, reported as internal, may pre-empt the kind.
        !account_map(ns_contents(old(user_ns))).contains_key(spec_key(caller@)) ==> (r == Err::<
            (),
            ApiError,
        >(ApiError::Unauthorized) || r == Err::<(), ApiError>(ApiError::Internal)) && ns_contents(
            final(media_ns),
        ) == ns_contents(old(media_ns)) && ns_contents(final(user_ns)) == ns_contents(
            old(user_ns),
        ),
        ({
            let key = spec_key(body.id@);
            let mm_old = media_map(ns_contents(old(media_ns)));
            let am_old = account_map(ns_contents(old(user_ns)));
            am_old.contains_key(spec_key(caller@)) && mm_old.contains_key(key)
                && mm_old[key].author_username != caller@
        }) ==> (r == Err::<(), ApiError>(ApiError::Unauthorized) || r == Err::<(), ApiError>(
            ApiError::Internal,
        )) && ns_contents(final(media_ns)) == ns_contents(old(media_ns)) && ns_contents(
            final(user_ns),
        ) == ns_contents(old(user_ns)),
        ({
            let key = spec_key(body.id@);
            let mm_old = media_map(ns_contents(old(media_ns)));
            let am_old = account_map(ns_contents(old(user_ns)));
            am_old.contains_key(spec_key(caller@)) && !mm_old.contains_key(key)
        }) ==> r == Err::<(), ApiError>(ApiError::Internal) && ns_contents(final(media_ns))
            == ns_contents(old(media_ns)) && ns_contents(final(user_ns)) == ns_contents(
            old(user_ns),
        ),
{
    let account = match get_account(user_ns, caller)? {
        Some(a) => a,
        None => {
            return Err(ApiError::Unauthorized);
        },
    };
    let media = get_media_by_key(media_ns, &body.id)?;
    if !media.author_username.eq(caller) {
        return Err(ApiError::Unauthorized);
    }
    remove_media(media_ns, &body.id)?;
    let uploads = without_id(&account.uploads, &body.id);
    let updated = Account { username: account.username, uploads };
    put_account(user_ns, &updated)?;
    Ok(())
}

/// After a successful delete of an id from a well-keyed store, the record is
/// unreachable: its key is gone, and no remaining entry carries the id, so a
/// keyed projection and a scanning lookup of that id both fail.
pub proof fn lemma_deleted_media_gone(mm_old: Map<Seq<u8>, MediaView>, id: Seq<char>)
    requires
        well_keyed(mm_old),
    ensures
        !mm_old.remove(spec_key(id)).contains_key(spec_key(id)),
        forall|k: Seq<u8>| #[trigger]
            mm_old.remove(spec_key(id)).contains_key(k) ==> mm_old.remove(spec_key(id))[k].id
                != id,
{
    lemma_well_keyed_remove(mm_old, spec_key(id));
    lemma_absent_id_unreachable(mm_old.remove(spec_key(id)), id);
}

} // verus!
