//! Tag normalization: a tag survives if it is in the configured default
//! vocabulary (compared case-insensitively) or custom tags are allowed and it
//! is within the configured length; survivors are stored lower-cased, each
//! kept once at its first occurrence, and an empty survivor set is stored as
//! absent.

use vstd::prelude::*;

use crate::config::Config;

verus! {

/// What `str::to_lowercase` returns for the given characters.
pub uninterp spec fn lower_of(s: Seq<char>) -> Seq<char>;

/// Relies on `str::to_lowercase`: the result depends on the characters
/// alone.
#[verifier::external_body]
pub(crate) fn lowercase(s: &String) -> (r: String)
    ensures
        r@ == lower_of(s@),
{
    s.to_lowercase()
}

/// A tag survives normalization: its lower-cased form is in the default
/// vocabulary, or custom tags are allowed and it is short enough.
pub open spec fn spec_keep_tag(
    defaults: Seq<Seq<char>>,
    allow_custom: bool,
    max_len: u64,
    t: Seq<char>,
) -> bool {
    defaults.contains(lower_of(t)) || (allow_custom && t.len() <= max_len)
}

/// The surviving tags of `l` whose lower-cased form is not already in
/// `seen`, first occurrence first, lower-cased.
pub open spec fn spec_norm_acc(
    defaults: Seq<Seq<char>>,
    allow_custom: bool,
    max_len: u64,
    l: Seq<Seq<char>>,
    seen: Seq<Seq<char>>,
) -> Seq<Seq<char>>
    decreases l.len(),
{
    if l.len() == 0 {
        Seq::empty()
    } else {
        let low = lower_of(l[0]);
        if spec_keep_tag(defaults, allow_custom, max_len, l[0]) && !seen.contains(low) {
            seq![low] + spec_norm_acc(defaults, allow_custom, max_len, l.drop_first(), seen.push(low))
        } else {
            spec_norm_acc(defaults, allow_custom, max_len, l.drop_first(), seen)
        }
    }
}

/// The surviving tags, lower-cased, each kept once at its first occurrence:
/// the stored tag collection is a set.
pub open spec fn spec_norm_list(
    defaults: Seq<Seq<char>>,
    allow_custom: bool,
    max_len: u64,
    l: Seq<Seq<char>>,
) -> Seq<Seq<char>> {
    spec_norm_acc(defaults, allow_custom, max_len, l, Seq::empty())
}

/// Normalization yields no duplicates: what `seen` already holds is never
/// emitted, and no tag is emitted twice.
proof fn lemma_norm_acc_distinct(
    defaults: Seq<Seq<char>>,
    allow_custom: bool,
    max_len: u64,
    l: Seq<Seq<char>>,
    seen: Seq<Seq<char>>,
)
    ensures
        ({
            let res = spec_norm_acc(defaults, allow_custom, max_len, l, seen);
            &&& forall|x: Seq<char>| #[trigger] res.contains(x) ==> !seen.contains(x)
            &&& forall|a: int, b: int| 0 <= a < b < res.len() ==> res[a] != res[b]
        }),
    decreases l.len(),
{
    let res = spec_norm_acc(defaults, allow_custom, max_len, l, seen);
    if l.len() == 0 {
        assert forall|x: Seq<char>| #[trigger] res.contains(x) implies !seen.contains(x) by {
            let i = choose|i: int| 0 <= i < res.len() && res[i] == x;
        }
    } else {
        let low = lower_of(l[0]);
        if spec_keep_tag(defaults, allow_custom, max_len, l[0]) && !seen.contains(low) {
            let seen2 = seen.push(low);
            lemma_norm_acc_distinct(defaults, allow_custom, max_len, l.drop_first(), seen2);
            let rest = spec_norm_acc(defaults, allow_custom, max_len, l.drop_first(), seen2);
            assert(res == seq![low] + rest);
            assert forall|x: Seq<char>| #[trigger] seen.contains(x) implies seen2.contains(x) by {
                let i = choose|i: int| 0 <= i < seen.len() && seen[i] == x;
                assert(seen2[i] == x);
            }
            assert(seen2[seen.len() as int] == low);
            assert(seen2.contains(low));
            assert forall|x: Seq<char>| #[trigger] res.contains(x) implies !seen.contains(x) by {
                let i = choose|i: int| 0 <= i < res.len() && res[i] == x;
                if i == 0 {
                    assert(res[0] == low);
                } else {
                    assert(rest[i - 1] == x);
                    assert(rest.contains(x));
                    assert(!seen2.contains(x));
                }
            }
            assert forall|a: int, b: int| 0 <= a < b < res.len() implies res[a] != res[b] by {
                if a == 0 {
                    assert(res[0] == low);
                    assert(rest[b - 1] == res[b]);
                    assert(rest.contains(res[b]));
                    assert(!seen2.contains(res[b]));
                } else {
                    assert(rest[a - 1] == res[a] && rest[b - 1] == res[b]);
                }
            }
        } else {
            lemma_norm_acc_distinct(defaults, allow_custom, max_len, l.drop_first(), seen);
            let rest = spec_norm_acc(defaults, allow_custom, max_len, l.drop_first(), seen);
            assert(res == rest);
            assert forall|x: Seq<char>| #[trigger] res.contains(x) implies !seen.contains(x) by {
                assert(rest.contains(x));
            }
        }
    }
}

/// The stored tag collection is a set: when tags survive, the stored list
/// is non-empty and holds no tag twice.
pub proof fn lemma_normalized_tags_distinct(
    defaults: Seq<Seq<char>>,
    allow_custom: bool,
    max_len: u64,
    tags: Option<Seq<Seq<char>>>,
)
    ensures
        match spec_normalize_tags(defaults, allow_custom, max_len, tags) {
            None => true,
            Some(ts) => ts.len() > 0 && forall|a: int, b: int|
                0 <= a < b < ts.len() ==> ts[a] != ts[b],
        },
{
    match tags {
        None => {},
        Some(l) => {
            lemma_norm_acc_distinct(defaults, allow_custom, max_len, l, Seq::empty());
        },
    }
}

/// The stored form of a requested tag list: absent stays absent, and an
/// empty survivor set becomes absent.
pub open spec fn spec_normalize_tags(
    defaults: Seq<Seq<char>>,
    allow_custom: bool,
    max_len: u64,
    tags: Option<Seq<Seq<char>>>,
) -> Option<Seq<Seq<char>>> {
    match tags {
        None => None,
        Some(l) => {
            let kept = spec_norm_list(defaults, allow_custom, max_len, l);
            if kept.len() == 0 {
                None
            } else {
                Some(kept)
            }
        },
    }
}

/// Looks a string up in a vocabulary.
pub(crate) fn vec_contains_string(v: &Vec<String>, s: &String) -> (r: bool)
    ensures
        r == v.deep_view().contains(s@),
{
    let mut i: usize = 0;
    while i < v.len()
        invariant
            i <= v@.len(),
            forall|k: int| 0 <= k < i ==> v.deep_view()[k] != s@,
        decreases v@.len() - i,
    {
        if v[i].eq(s) {
            assert(v.deep_view()[i as int] == s@);
            return true;
        }
        i += 1;
    }
    assert(!v.deep_view().contains(s@));
    false
}

/// Applies the normalization rule of the configuration to a requested tag
/// list.
pub fn normalize_tags(cfg: &Config, tags: &Option<Vec<String>>) -> (r: Option<Vec<String>>)
    ensures
        r.deep_view() == spec_normalize_tags(
            cfg.tags_default.deep_view(),
            cfg.tags_allow_custom,
            cfg.tags_max_name_length,
            tags.deep_view(),
        ),
{
    match tags {
        None => None,
        Some(l) => {
            let ghost defaults = cfg.tags_default.deep_view();
            let ghost lv = l.deep_view();
            let mut kept: Vec<String> = Vec::new();
            let mut i: usize = 0;
            proof {
                assert(lv.skip(0) =~= lv);
                assert(kept.deep_view() =~= Seq::<Seq<char>>::empty());
            }
            while i < l.len()
                invariant
                    i <= l@.len(),
                    lv == l.deep_view(),
                    lv.len() == l@.len(),
                    defaults == cfg.tags_default.deep_view(),
                    spec_norm_list(defaults, cfg.tags_allow_custom, cfg.tags_max_name_length, lv)
                        == kept.deep_view() + spec_norm_acc(
                        defaults,
                        cfg.tags_allow_custom,
                        cfg.tags_max_name_length,
                        lv.skip(i as int),
                        kept.deep_view(),
                    ),
                decreases l@.len() - i,
            {
                let ghost keptv = kept.deep_view();
                let tag = &l[i];
                let lowered = lowercase(tag);
                let keep = vec_contains_string(&cfg.tags_default, &lowered) || (cfg.tags_allow_custom
                    && tag.unicode_len() as u64 <= cfg.tags_max_name_length);
                proof {
                    assert(lv.skip(i as int)[0] == lv[i as int]);
                    assert(lv.skip(i as int).drop_first() =~= lv.skip(i as int + 1));
                    assert(keep == spec_keep_tag(
                        defaults,
                        cfg.tags_allow_custom,
                        cfg.tags_max_name_length,
                        lv[i as int],
                    ));
                }
                if keep && !vec_contains_string(&kept, &lowered) {
                    kept.push(lowered);
                    proof {
                        assert(kept.deep_view() =~= keptv.push(lower_of(lv[i as int])));
                        assert(kept.deep_view() =~= keptv + seq![lower_of(lv[i as int])]);
                        vstd::seq_lib::lemma_concat_associative(
                            keptv,
                            seq![lower_of(lv[i as int])],
                            spec_norm_acc(
                                defaults,
                                cfg.tags_allow_custom,
                                cfg.tags_max_name_length,
                                lv.skip(i as int + 1),
                                keptv.push(lower_of(lv[i as int])),
                            ),
                        );
                    }
                }
                i += 1;
            }
            proof {
                assert(lv.skip(l@.len() as int) =~= Seq::<Seq<char>>::empty());
                assert(kept.deep_view() + Seq::<Seq<char>>::empty() =~= kept.deep_view());
            }
            if kept.is_empty() {
                None
            } else {
                Some(kept)
            }
        },
    }
}

} // verus!
