//! The byte format of the durable records.
//!
//! Records are framed as length-prefixed fields: a `u64` little-endian length
//! followed by that many UTF-8 bytes for a string, a single byte for flags and
//! category codes, and a count-prefixed run of strings for a list. The
//! functions here prove that the format round-trips: decoding an encoded
//! record yields the record, and a scan that skips undecodable values keeps
//! exactly the well-formed entries.

use vstd::prelude::*;

use vstd::bytes::{spec_u64_from_le_bytes, spec_u64_to_le_bytes, lemma_auto_spec_u64_to_from_le_bytes, u64_from_le_bytes, u64_to_le_bytes};
use vstd::utf8::{valid_utf8, decode_utf8, encode_utf8, encode_utf8_valid_utf8, encode_utf8_decode_utf8};
use vstd::slice::{slice_subrange, slice_to_vec};

use crate::records::{ContentType, MediaRecord, MediaView, Account, AccountView};

verus! {

// ---------------------------------------------------------------------------
// Spec-level encoders
// ---------------------------------------------------------------------------

/// A length-prefixed run of raw bytes.
pub open spec fn enc_bytes(data: Seq<u8>) -> Seq<u8> {
    spec_u64_to_le_bytes(data.len() as u64) + data
}

/// A length-prefixed UTF-8 string.
pub open spec fn enc_str(s: Seq<char>) -> Seq<u8> {
    enc_bytes(encode_utf8(s))
}

/// The concatenation of the encodings of each string, in order.
pub open spec fn enc_strs(l: Seq<Seq<char>>) -> Seq<u8>
    decreases l.len(),
{
    if l.len() == 0 {
        Seq::empty()
    } else {
        enc_str(l[0]) + enc_strs(l.drop_first())
    }
}

/// One byte for a boolean flag.
pub open spec fn enc_bool(x: bool) -> Seq<u8> {
    seq![if x { 1u8 } else { 0u8 }]
}

/// One byte for the content category.
pub open spec fn enc_ctype(t: ContentType) -> Seq<u8> {
    match t {
        ContentType::Video => seq![0u8],
        ContentType::Image => seq![1u8],
        ContentType::Other => seq![2u8],
    }
}

/// An absence byte, or a presence byte followed by a count-prefixed run of
/// strings.
pub open spec fn enc_opt_strs(t: Option<Seq<Seq<char>>>) -> Seq<u8> {
    match t {
        None => seq![0u8],
        Some(l) => seq![1u8] + spec_u64_to_le_bytes(l.len() as u64) + enc_strs(l),
    }
}

/// The byte encoding of a media record.
pub open spec fn enc_media(v: MediaView) -> Seq<u8> {
    enc_str(v.id) + enc_str(v.name) + enc_str(v.extension) + enc_ctype(v.data_type)
        + spec_u64_to_le_bytes(v.data_size) + enc_str(v.data_path) + enc_bool(v.data_compressed)
        + spec_u64_to_le_bytes(v.upload_date) + enc_str(v.author_username) + enc_bool(v.unlisted)
        + enc_opt_strs(v.tags) + spec_u64_to_le_bytes(v.downloads)
}

/// The byte encoding of an account's upload index.
pub open spec fn enc_account(v: AccountView) -> Seq<u8> {
    enc_str(v.username) + spec_u64_to_le_bytes(v.uploads.len() as u64) + enc_strs(v.uploads)
}

/// The byte length of a string's encoding stays within the length prefix.
pub open spec fn str_fits(s: Seq<char>) -> bool {
    encode_utf8(s).len() <= u64::MAX
}

/// Every string of the list fits its length prefix, and so does the count.
pub open spec fn strs_fit(l: Seq<Seq<char>>) -> bool {
    &&& l.len() <= u64::MAX
    &&& forall|i: int| 0 <= i < l.len() ==> str_fits(#[trigger] l[i])
}

/// All length prefixes of the record's encoding are faithful.
pub open spec fn media_fits(v: MediaView) -> bool {
    &&& str_fits(v.id)
    &&& str_fits(v.name)
    &&& str_fits(v.extension)
    &&& str_fits(v.data_path)
    &&& str_fits(v.author_username)
    &&& match v.tags {
        None => true,
        Some(l) => strs_fit(l),
    }
}

/// All length prefixes of the account's encoding are faithful.
pub open spec fn account_fits(v: AccountView) -> bool {
    str_fits(v.username) && strs_fit(v.uploads)
}

// ---------------------------------------------------------------------------
// Spec-level parsers
// ---------------------------------------------------------------------------

/// Reads a little-endian `u64` at offset `i`.
pub open spec fn parse_u64(b: Seq<u8>, i: int) -> Option<(u64, int)> {
    if 0 <= i && i + 8 <= b.len() {
        Some((spec_u64_from_le_bytes(b.subrange(i, i + 8)), i + 8))
    } else {
        None
    }
}

/// Reads one byte at offset `i`.
pub open spec fn parse_u8(b: Seq<u8>, i: int) -> Option<(u8, int)> {
    if 0 <= i && i + 1 <= b.len() {
        Some((b[i], i + 1))
    } else {
        None
    }
}

/// Reads a length-prefixed run of raw bytes at offset `i`.
pub open spec fn parse_bytes(b: Seq<u8>, i: int) -> Option<(Seq<u8>, int)> {
    match parse_u64(b, i) {
        None => None,
        Some((n, j)) => if j + n <= b.len() {
            Some((b.subrange(j, j + n), j + n))
        } else {
            None
        },
    }
}

/// Reads a length-prefixed UTF-8 string at offset `i`.
pub open spec fn parse_str(b: Seq<u8>, i: int) -> Option<(Seq<char>, int)> {
    match parse_bytes(b, i) {
        None => None,
        Some((bs, j)) => if valid_utf8(bs) {
            Some((decode_utf8(bs), j))
        } else {
            None
        },
    }
}

/// Reads `n` consecutive strings at offset `i`.
pub open spec fn parse_strs(b: Seq<u8>, i: int, n: nat) -> Option<(Seq<Seq<char>>, int)>
    decreases n,
{
    if n == 0 {
        Some((Seq::empty(), i))
    } else {
        match parse_str(b, i) {
            None => None,
            Some((s, j)) => match parse_strs(b, j, (n - 1) as nat) {
                None => None,
                Some((rest, k)) => Some((seq![s] + rest, k)),
            },
        }
    }
}

/// Reads a boolean flag byte at offset `i`; any byte above one is refused.
pub open spec fn parse_bool(b: Seq<u8>, i: int) -> Option<(bool, int)> {
    match parse_u8(b, i) {
        None => None,
        Some((x, j)) => if x == 0 {
            Some((false, j))
        } else if x == 1 {
            Some((true, j))
        } else {
            None
        },
    }
}

/// Reads a category byte at offset `i`; any byte above two is refused.
pub open spec fn parse_ctype(b: Seq<u8>, i: int) -> Option<(ContentType, int)> {
    match parse_u8(b, i) {
        None => None,
        Some((x, j)) => if x == 0 {
            Some((ContentType::Video, j))
        } else if x == 1 {
            Some((ContentType::Image, j))
        } else if x == 2 {
            Some((ContentType::Other, j))
        } else {
            None
        },
    }
}

/// Reads an optional count-prefixed run of strings at offset `i`.
pub open spec fn parse_opt_strs(b: Seq<u8>, i: int) -> Option<(Option<Seq<Seq<char>>>, int)> {
    match parse_u8(b, i) {
        None => None,
        Some((x, j)) => if x == 0 {
            Some((None, j))
        } else if x == 1 {
            match parse_u64(b, j) {
                None => None,
                Some((n, k)) => match parse_strs(b, k, n as nat) {
                    None => None,
                    Some((l, m)) => Some((Some(l), m)),
                },
            }
        } else {
            None
        },
    }
}

/// Parses a whole media record; the buffer must be consumed exactly.
pub open spec fn parse_media(b: Seq<u8>) -> Option<MediaView> {
    match parse_str(b, 0) {
        None => None,
        Some((id, i1)) => match parse_str(b, i1) {
            None => None,
            Some((name, i2)) => match parse_str(b, i2) {
                None => None,
                Some((extension, i3)) => match parse_ctype(b, i3) {
                    None => None,
                    Some((data_type, i4)) => match parse_u64(b, i4) {
                        None => None,
                        Some((data_size, i5)) => match parse_str(b, i5) {
                            None => None,
                            Some((data_path, i6)) => match parse_bool(b, i6) {
                                None => None,
                                Some((data_compressed, i7)) => match parse_u64(b, i7) {
                                    None => None,
                                    Some((upload_date, i8r)) => match parse_str(b, i8r) {
                                        None => None,
                                        Some((author_username, i9)) => match parse_bool(b, i9) {
                                            None => None,
                                            Some((unlisted, i10)) => match parse_opt_strs(b, i10) {
                                                None => None,
                                                Some((tags, i11)) => match parse_u64(b, i11) {
                                                    None => None,
                                                    Some((downloads, i12)) => if i12 == b.len() {
                                                        Some(
                                                            MediaView {
                                                                id,
                                                                name,
                                                                extension,
                                                                data_type,
                                                                data_size,
                                                                data_path,
                                                                data_compressed,
                                                                upload_date,
                                                                author_username,
                                                                unlisted,
                                                                tags,
                                                                downloads,
                                                            },
                                                        )
                                                    } else {
                                                        None
                                                    },
                                                },
                                            },
                                        },
                                    },
                                },
                            },
                        },
                    },
                },
            },
        },
    }
}

/// Parses a whole account record; the buffer must be consumed exactly.
pub open spec fn parse_account(b: Seq<u8>) -> Option<AccountView> {
    match parse_str(b, 0) {
        None => None,
        Some((username, i1)) => match parse_u64(b, i1) {
            None => None,
            Some((n, i2)) => match parse_strs(b, i2, n as nat) {
                None => None,
                Some((uploads, i3)) => if i3 == b.len() {
                    Some(AccountView { username, uploads })
                } else {
                    None
                },
            },
        },
    }
}

// ---------------------------------------------------------------------------
// Parse-what-was-printed lemmas
// ---------------------------------------------------------------------------

pub proof fn lemma_parse_u64_at(pre: Seq<u8>, x: u64, suf: Seq<u8>)
    ensures
        parse_u64(pre + spec_u64_to_le_bytes(x) + suf, pre.len() as int) == Some(
            (x, pre.len() as int + 8),
        ),
{
    lemma_auto_spec_u64_to_from_le_bytes();
    let b = pre + spec_u64_to_le_bytes(x) + suf;
    assert(b.subrange(pre.len() as int, pre.len() as int + 8) =~= spec_u64_to_le_bytes(x));
}

pub proof fn lemma_parse_u8_at(pre: Seq<u8>, x: u8, suf: Seq<u8>)
    ensures
        parse_u8(pre + seq![x] + suf, pre.len() as int) == Some((x, pre.len() as int + 1)),
{
    let b = pre + seq![x] + suf;
    assert(b[pre.len() as int] == x);
}

pub proof fn lemma_parse_bool_at(pre: Seq<u8>, x: bool, suf: Seq<u8>)
    ensures
        parse_bool(pre + enc_bool(x) + suf, pre.len() as int) == Some((x, pre.len() as int + 1)),
{
    lemma_parse_u8_at(pre, if x { 1u8 } else { 0u8 }, suf);
}

pub proof fn lemma_parse_ctype_at(pre: Seq<u8>, t: ContentType, suf: Seq<u8>)
    ensures
        parse_ctype(pre + enc_ctype(t) + suf, pre.len() as int) == Some((t, pre.len() as int + 1)),
{
    match t {
        ContentType::Video => lemma_parse_u8_at(pre, 0u8, suf),
        ContentType::Image => lemma_parse_u8_at(pre, 1u8, suf),
        ContentType::Other => lemma_parse_u8_at(pre, 2u8, suf),
    }
}

pub proof fn lemma_parse_bytes_at(pre: Seq<u8>, data: Seq<u8>, suf: Seq<u8>)
    requires
        data.len() <= u64::MAX,
    ensures
        parse_bytes(pre + enc_bytes(data) + suf, pre.len() as int) == Some(
            (data, pre.len() as int + enc_bytes(data).len() as int),
        ),
{
    lemma_auto_spec_u64_to_from_le_bytes();
    let n = data.len() as u64;
    let b = pre + enc_bytes(data) + suf;
    assert(b =~= pre + spec_u64_to_le_bytes(n) + (data + suf));
    lemma_parse_u64_at(pre, n, data + suf);
    let j = pre.len() + 8;
    assert(b.subrange(j as int, j as int + data.len() as int) =~= data);
}

pub proof fn lemma_parse_str_at(pre: Seq<u8>, s: Seq<char>, suf: Seq<u8>)
    requires
        str_fits(s),
    ensures
        parse_str(pre + enc_str(s) + suf, pre.len() as int) == Some(
            (s, pre.len() as int + enc_str(s).len() as int),
        ),
{
    encode_utf8_valid_utf8(s);
    encode_utf8_decode_utf8(s);
    lemma_parse_bytes_at(pre, encode_utf8(s), suf);
}

pub proof fn lemma_parse_strs_at(pre: Seq<u8>, l: Seq<Seq<char>>, suf: Seq<u8>)
    requires
        forall|i: int| 0 <= i < l.len() ==> str_fits(#[trigger] l[i]),
    ensures
        parse_strs(pre + enc_strs(l) + suf, pre.len() as int, l.len()) == Some(
            (l, pre.len() as int + enc_strs(l).len() as int),
        ),
    decreases l.len(),
{
    if l.len() == 0 {
        assert(pre + enc_strs(l) + suf =~= pre + suf);
        assert(l =~= Seq::<Seq<char>>::empty());
    } else {
        let b = pre + enc_strs(l) + suf;
        let rest = l.drop_first();
        assert(b =~= pre + enc_str(l[0]) + (enc_strs(rest) + suf));
        lemma_parse_str_at(pre, l[0], enc_strs(rest) + suf);
        let pre2 = pre + enc_str(l[0]);
        assert(b =~= pre2 + enc_strs(rest) + suf);
        lemma_parse_strs_at(pre2, rest, suf);
        assert(seq![l[0]] + rest =~= l);
        assert(parse_str(b, pre.len() as int) == Some::<(Seq<char>, int)>(
            (l[0], pre2.len() as int),
        ));
    }
}

pub proof fn lemma_parse_opt_strs_at(pre: Seq<u8>, t: Option<Seq<Seq<char>>>, suf: Seq<u8>)
    requires
        match t {
            None => true,
            Some(l) => strs_fit(l),
        },
    ensures
        parse_opt_strs(pre + enc_opt_strs(t) + suf, pre.len() as int) == Some(
            (t, pre.len() as int + enc_opt_strs(t).len() as int),
        ),
{
    lemma_auto_spec_u64_to_from_le_bytes();
    match t {
        None => {
            assert(pre + enc_opt_strs(t) + suf =~= pre + seq![0u8] + suf);
            lemma_parse_u8_at(pre, 0u8, suf);
        },
        Some(l) => {
            let b = pre + enc_opt_strs(t) + suf;
            assert(b =~= pre + seq![1u8] + (spec_u64_to_le_bytes(l.len() as u64) + enc_strs(l)
                + suf));
            lemma_parse_u8_at(pre, 1u8, spec_u64_to_le_bytes(l.len() as u64) + enc_strs(l) + suf);
            let pre2 = pre + seq![1u8];
            assert(b =~= pre2 + spec_u64_to_le_bytes(l.len() as u64) + (enc_strs(l) + suf));
            lemma_parse_u64_at(pre2, l.len() as u64, enc_strs(l) + suf);
            let pre3 = pre2 + spec_u64_to_le_bytes(l.len() as u64);
            assert(b =~= pre3 + enc_strs(l) + suf);
            lemma_parse_strs_at(pre3, l, suf);
            assert((l.len() as u64) as nat == l.len());
        },
    }
}

/// Concatenation on byte sequences is associative.
proof fn lemma_cat_assoc(a: Seq<u8>, b: Seq<u8>, c: Seq<u8>)
    ensures
        (a + b) + c == a + (b + c),
{
    assert((a + b) + c =~= a + (b + c));
}

/// Decoding inverts encoding: the byte form of a record parses back to it.
pub proof fn lemma_media_round_trip(v: MediaView)
    requires
        media_fits(v),
    ensures
        parse_media(enc_media(v)) == Some(v),
{
    let s1 = enc_str(v.id);
    let s2 = enc_str(v.name);
    let s3 = enc_str(v.extension);
    let s4 = enc_ctype(v.data_type);
    let s5 = spec_u64_to_le_bytes(v.data_size);
    let s6 = enc_str(v.data_path);
    let s7 = enc_bool(v.data_compressed);
    let s8 = spec_u64_to_le_bytes(v.upload_date);
    let s9 = enc_str(v.author_username);
    let s10 = enc_bool(v.unlisted);
    let s11 = enc_opt_strs(v.tags);
    let s12 = spec_u64_to_le_bytes(v.downloads);
    let b = enc_media(v);
    lemma_auto_spec_u64_to_from_le_bytes();

    // Right-associated suffixes of the encoding.
    let r12 = s12 + Seq::<u8>::empty();
    let r11 = s11 + r12;
    let r10 = s10 + r11;
    let r9 = s9 + r10;
    let r8 = s8 + r9;
    let r7 = s7 + r8;
    let r6 = s6 + r7;
    let r5 = s5 + r6;
    let r4 = s4 + r5;
    let r3 = s3 + r4;
    let r2 = s2 + r3;

    // Left-associated prefixes, as the parser will reach them.
    let p1 = s1;
    let p2 = p1 + s2;
    let p3 = p2 + s3;
    let p4 = p3 + s4;
    let p5 = p4 + s5;
    let p6 = p5 + s6;
    let p7 = p6 + s7;
    let p8 = p7 + s8;
    let p9 = p8 + s9;
    let p10 = p9 + s10;
    let p11 = p10 + s11;
    let p12 = p11 + s12;

    // b equals every mixed association p_k + r_{k+1}.
    assert(s12 =~= r12);
    lemma_cat_assoc(p10, s11, s12);  // p11 + s12 == p10 + (s11 + s12)
    assert(p11 + s12 == p10 + r11) by { assert(s11 + s12 =~= r11); }
    lemma_cat_assoc(p9, s10, r11);
    lemma_cat_assoc(p8, s9, r10);
    lemma_cat_assoc(p7, s8, r9);
    lemma_cat_assoc(p6, s7, r8);
    lemma_cat_assoc(p5, s6, r7);
    lemma_cat_assoc(p4, s5, r6);
    lemma_cat_assoc(p3, s4, r5);
    lemma_cat_assoc(p2, s3, r4);
    lemma_cat_assoc(p1, s2, r3);
    assert(b == p12) by { assert(b =~= p12); }
    assert(p12 == p11 + s12 + Seq::<u8>::empty()) by {
        assert(p11 + s12 + Seq::<u8>::empty() =~= p12);
    }

    lemma_parse_str_at(Seq::<u8>::empty(), v.id, r2);
    assert(Seq::<u8>::empty() + s1 + r2 == b) by { assert(Seq::<u8>::empty() + s1 + r2 =~= p1 + r2); }
    lemma_parse_str_at(p1, v.name, r3);
    lemma_parse_str_at(p2, v.extension, r4);
    lemma_parse_ctype_at(p3, v.data_type, r5);
    lemma_parse_u64_at(p4, v.data_size, r6);
    lemma_parse_str_at(p5, v.data_path, r7);
    lemma_parse_bool_at(p6, v.data_compressed, r8);
    lemma_parse_u64_at(p7, v.upload_date, r9);
    lemma_parse_str_at(p8, v.author_username, r10);
    lemma_parse_bool_at(p9, v.unlisted, r11);
    lemma_parse_opt_strs_at(p10, v.tags, r12);
    lemma_parse_u64_at(p11, v.downloads, Seq::<u8>::empty());
    assert(p11.len() as int + 8 == b.len());
}

/// Decoding inverts encoding for account records.
pub proof fn lemma_account_round_trip(v: AccountView)
    requires
        account_fits(v),
    ensures
        parse_account(enc_account(v)) == Some(v),
{
    let s1 = enc_str(v.username);
    let s2 = spec_u64_to_le_bytes(v.uploads.len() as u64);
    let s3 = enc_strs(v.uploads);
    let b = enc_account(v);
    lemma_auto_spec_u64_to_from_le_bytes();

    let p0 = Seq::<u8>::empty();
    let p1 = s1;
    let p2 = p1 + s2;

    assert(b =~= p0 + s1 + (s2 + s3));
    lemma_parse_str_at(p0, v.username, s2 + s3);
    assert(parse_str(b, 0) == Some::<(Seq<char>, int)>((v.username, p1.len() as int)));

    assert(b =~= p1 + s2 + s3);
    lemma_parse_u64_at(p1, v.uploads.len() as u64, s3);

    assert(b =~= p2 + s3 + Seq::<u8>::empty());
    lemma_parse_strs_at(p2, v.uploads, Seq::<u8>::empty());
    assert((v.uploads.len() as u64) as nat == v.uploads.len());
    assert(p2.len() + s3.len() == b.len());
}


// ---------------------------------------------------------------------------
// Executable encoding
// ---------------------------------------------------------------------------

/// Relies on `String::from_utf8`: it succeeds exactly on valid UTF-8 and
/// yields its decoding.
#[verifier::external_body]
fn bytes_to_string(b: Vec<u8>) -> (r: Option<String>)
    ensures
        r is Some <==> valid_utf8(b@),
        r matches Some(s) ==> s@ == decode_utf8(b@),
{
    String::from_utf8(b).ok()
}

/// The store key under which a record with this identifier or username lives.
pub open spec fn spec_key(s: Seq<char>) -> Seq<u8> {
    encode_utf8(s)
}

/// Computes the store key of an identifier or username.
pub fn key_bytes(s: &String) -> (r: Vec<u8>)
    ensures
        r@ == spec_key(s@),
{
    s.as_str().as_bytes_vec()
}

fn emit_u64(out: &mut Vec<u8>, x: u64)
    ensures
        final(out)@ == old(out)@ + spec_u64_to_le_bytes(x),
{
    let mut bs = u64_to_le_bytes(x);
    out.append(&mut bs);
}

fn emit_u8(out: &mut Vec<u8>, x: u8)
    ensures
        final(out)@ == old(out)@ + seq![x],
{
    out.push(x);
    proof {
        assert(out@ =~= old(out)@ + seq![x]);
    }
}

fn emit_bool(out: &mut Vec<u8>, x: bool)
    ensures
        final(out)@ == old(out)@ + enc_bool(x),
{
    emit_u8(out, if x { 1 } else { 0 });
}

fn emit_ctype(out: &mut Vec<u8>, t: ContentType)
    ensures
        final(out)@ == old(out)@ + enc_ctype(t),
{
    match t {
        ContentType::Video => emit_u8(out, 0),
        ContentType::Image => emit_u8(out, 1),
        ContentType::Other => emit_u8(out, 2),
    }
}

fn emit_str(out: &mut Vec<u8>, s: &String)
    ensures
        final(out)@ == old(out)@ + enc_str(s@),
        str_fits(s@),
{
    let mut bs = s.as_str().as_bytes_vec();
    emit_u64(out, bs.len() as u64);
    out.append(&mut bs);
    proof {
        assert(out@ =~= old(out)@ + enc_str(s@));
    }
}

proof fn lemma_enc_strs_app(a: Seq<Seq<char>>, b: Seq<Seq<char>>)
    ensures
        enc_strs(a + b) == enc_strs(a) + enc_strs(b),
    decreases a.len(),
{
    if a.len() == 0 {
        assert(a + b =~= b);
        assert(enc_strs(a) + enc_strs(b) =~= enc_strs(b));
    } else {
        assert((a + b).drop_first() =~= a.drop_first() + b);
        assert((a + b)[0] == a[0]);
        assert((a + b).len() != 0);
        lemma_enc_strs_app(a.drop_first(), b);
        lemma_cat_assoc(enc_str(a[0]), enc_strs(a.drop_first()), enc_strs(b));
    }
}

proof fn lemma_enc_strs_snoc(l: Seq<Seq<char>>, i: int)
    requires
        0 <= i < l.len(),
    ensures
        enc_strs(l.take(i + 1)) == enc_strs(l.take(i)) + enc_str(l[i]),
{
    assert(l.take(i + 1) =~= l.take(i) + seq![l[i]]);
    lemma_enc_strs_app(l.take(i), seq![l[i]]);
    assert(seq![l[i]].drop_first() =~= Seq::<Seq<char>>::empty());
    assert(seq![l[i]][0] == l[i]);
    assert(enc_strs(Seq::<Seq<char>>::empty()) =~= Seq::<u8>::empty());
    assert(enc_strs(seq![l[i]]) =~= enc_str(l[i]) + enc_strs(seq![l[i]].drop_first()));
    assert(enc_strs(seq![l[i]]) =~= enc_str(l[i]));
}

fn emit_strs(out: &mut Vec<u8>, l: &Vec<String>)
    ensures
        final(out)@ == old(out)@ + enc_strs(l.deep_view()),
        strs_fit(l.deep_view()),
{
    let ghost lv = l.deep_view();
    let mut i: usize = 0;
    proof {
        assert(lv.take(0) =~= Seq::<Seq<char>>::empty());
    }
    while i < l.len()
        invariant
            i <= l@.len(),
            lv == l.deep_view(),
            lv.len() == l@.len(),
            out@ == old(out)@ + enc_strs(lv.take(i as int)),
            forall|k: int| 0 <= k < i ==> str_fits(#[trigger] lv[k]),
        decreases l@.len() - i,
    {
        emit_str(out, &l[i]);
        proof {
            lemma_enc_strs_snoc(lv, i as int);
            lemma_cat_assoc(old(out)@, enc_strs(lv.take(i as int)), enc_str(lv[i as int]));
        }
        i += 1;
    }
    proof {
        assert(lv.take(l@.len() as int) =~= lv);
    }
}

/// Encodes a media record; the result parses back to the record.
pub fn encode_media(m: &MediaRecord) -> (r: Vec<u8>)
    ensures
        r@ == enc_media(m@),
        parse_media(r@) == Some(m@),
        media_fits(m@),
{
    let mut out: Vec<u8> = Vec::new();
    emit_str(&mut out, &m.id);
    emit_str(&mut out, &m.name);
    emit_str(&mut out, &m.extension);
    emit_ctype(&mut out, m.data_type);
    emit_u64(&mut out, m.data_size);
    emit_str(&mut out, &m.data_path);
    emit_bool(&mut out, m.data_compressed);
    emit_u64(&mut out, m.upload_date);
    emit_str(&mut out, &m.author_username);
    emit_bool(&mut out, m.unlisted);
    match &m.tags {
        None => emit_u8(&mut out, 0),
        Some(ts) => {
            emit_u8(&mut out, 1);
            emit_u64(&mut out, ts.len() as u64);
            emit_strs(&mut out, ts);
        },
    }
    emit_u64(&mut out, m.downloads);
    proof {
        assert(out@ =~= enc_media(m@));
        lemma_media_round_trip(m@);
    }
    out
}

/// Encodes an account's upload index; the result parses back to it.
pub fn encode_account(a: &Account) -> (r: Vec<u8>)
    ensures
        r@ == enc_account(a@),
        parse_account(r@) == Some(a@),
        account_fits(a@),
{
    let mut out: Vec<u8> = Vec::new();
    emit_str(&mut out, &a.username);
    emit_u64(&mut out, a.uploads.len() as u64);
    emit_strs(&mut out, &a.uploads);
    proof {
        assert(out@ =~= enc_account(a@));
        lemma_account_round_trip(a@);
    }
    out
}

// ---------------------------------------------------------------------------
// Executable decoding
// ---------------------------------------------------------------------------

fn read_u64(b: &Vec<u8>, i: usize) -> (r: Option<(u64, usize)>)
    ensures
        match r {
            Some((x, j)) => parse_u64(b@, i as int) == Some((x, j as int)) && i <= j <= b@.len(),
            None => parse_u64(b@, i as int) is None,
        },
{
    if b.len() >= 8 && i <= b.len() - 8 {
        let s = slice_subrange(b.as_slice(), i, i + 8);
        let x = u64_from_le_bytes(s);
        Some((x, i + 8))
    } else {
        None
    }
}

fn read_u8(b: &Vec<u8>, i: usize) -> (r: Option<(u8, usize)>)
    ensures
        match r {
            Some((x, j)) => parse_u8(b@, i as int) == Some((x, j as int)) && i <= j <= b@.len(),
            None => parse_u8(b@, i as int) is None,
        },
{
    if i < b.len() {
        Some((b[i], i + 1))
    } else {
        None
    }
}

fn read_bool(b: &Vec<u8>, i: usize) -> (r: Option<(bool, usize)>)
    ensures
        match r {
            Some((x, j)) => parse_bool(b@, i as int) == Some((x, j as int)) && i <= j <= b@.len(),
            None => parse_bool(b@, i as int) is None,
        },
{
    match read_u8(b, i) {
        None => None,
        Some((x, j)) => if x == 0 {
            Some((false, j))
        } else if x == 1 {
            Some((true, j))
        } else {
            None
        },
    }
}

fn read_ctype(b: &Vec<u8>, i: usize) -> (r: Option<(ContentType, usize)>)
    ensures
        match r {
            Some((x, j)) => parse_ctype(b@, i as int) == Some((x, j as int)) && i <= j <= b@.len(),
            None => parse_ctype(b@, i as int) is None,
        },
{
    match read_u8(b, i) {
        None => None,
        Some((x, j)) => if x == 0 {
            Some((ContentType::Video, j))
        } else if x == 1 {
            Some((ContentType::Image, j))
        } else if x == 2 {
            Some((ContentType::Other, j))
        } else {
            None
        },
    }
}

fn read_bytes(b: &Vec<u8>, i: usize) -> (r: Option<(Vec<u8>, usize)>)
    ensures
        match r {
            Some((v, j)) => parse_bytes(b@, i as int) == Some((v@, j as int)) && i <= j
                <= b@.len(),
            None => parse_bytes(b@, i as int) is None,
        },
{
    match read_u64(b, i) {
        None => None,
        Some((n, j)) => {
            if n <= (b.len() - j) as u64 {
                let nn = n as usize;
                let s = slice_subrange(b.as_slice(), j, j + nn);
                Some((slice_to_vec(s), j + nn))
            } else {
                None
            }
        },
    }
}

fn read_str(b: &Vec<u8>, i: usize) -> (r: Option<(String, usize)>)
    ensures
        match r {
            Some((s, j)) => parse_str(b@, i as int) == Some((s@, j as int)) && i <= j <= b@.len(),
            None => parse_str(b@, i as int) is None,
        },
{
    match read_bytes(b, i) {
        None => None,
        Some((bs, j)) => {
            let ghost bsv = bs@;
            match bytes_to_string(bs) {
                None => None,
                Some(s) => Some((s, j)),
            }
        },
    }
}

fn read_strs(b: &Vec<u8>, start: usize, n: u64) -> (r: Option<(Vec<String>, usize)>)
    requires
        start <= b@.len(),
    ensures
        match r {
            Some((v, end)) => parse_strs(b@, start as int, n as nat) == Some(
                (v.deep_view(), end as int),
            ) && start <= end <= b@.len(),
            None => parse_strs(b@, start as int, n as nat) is None,
        },
{
    let mut acc: Vec<String> = Vec::new();
    let mut cur: usize = start;
    let mut k: u64 = 0;
    proof {
        assert(acc.deep_view() =~= Seq::<Seq<char>>::empty());
    }
    while k < n
        invariant
            start <= b@.len(),
            start <= cur <= b@.len(),
            k <= n,
            acc.deep_view().len() == k as int,
            parse_strs(b@, start as int, n as nat) == (match parse_strs(
                b@,
                cur as int,
                (n - k) as nat,
            ) {
                None => None::<(Seq<Seq<char>>, int)>,
                Some((rest, e)) => Some((acc.deep_view() + rest, e)),
            }),
        decreases n - k,
    {
        let ghost accv = acc.deep_view();
        match read_str(b, cur) {
            None => {
                return None;
            },
            Some((s, j)) => {
                acc.push(s);
                proof {
                    assert(acc.deep_view() =~= accv + seq![s@]);
                    if let Some((rest2, e)) = parse_strs(b@, j as int, (n - k - 1) as nat) {
                        vstd::seq_lib::lemma_concat_associative(accv, seq![s@], rest2);
                    }
                }
                cur = j;
                k = k + 1;
            },
        }
    }
    proof {
        assert(acc.deep_view() + Seq::<Seq<char>>::empty() =~= acc.deep_view());
    }
    Some((acc, cur))
}

fn read_opt_strs(b: &Vec<u8>, i: usize) -> (r: Option<(Option<Vec<String>>, usize)>)
    ensures
        match r {
            Some((t, j)) => parse_opt_strs(b@, i as int) == Some((t.deep_view(), j as int)) && i
                <= j <= b@.len(),
            None => parse_opt_strs(b@, i as int) is None,
        },
{
    match read_u8(b, i) {
        None => None,
        Some((x, j)) => if x == 0 {
            Some((None, j))
        } else if x == 1 {
            match read_u64(b, j) {
                None => None,
                Some((n, k)) => match read_strs(b, k, n) {
                    None => None,
                    Some((l, m)) => Some((Some(l), m)),
                },
            }
        } else {
            None
        },
    }
}

/// Decodes a media record; failure means the bytes are not a record.
pub fn decode_media(b: &Vec<u8>) -> (r: Option<MediaRecord>)
    ensures
        match r {
            Some(m) => parse_media(b@) == Some(m@),
            None => parse_media(b@) is None,
        },
{
    let (id, i1) = match read_str(b, 0) {
        None => { return None; },
        Some(x) => x,
    };
    let (name, i2) = match read_str(b, i1) {
        None => { return None; },
        Some(x) => x,
    };
    let (extension, i3) = match read_str(b, i2) {
        None => { return None; },
        Some(x) => x,
    };
    let (data_type, i4) = match read_ctype(b, i3) {
        None => { return None; },
        Some(x) => x,
    };
    let (data_size, i5) = match read_u64(b, i4) {
        None => { return None; },
        Some(x) => x,
    };
    let (data_path, i6) = match read_str(b, i5) {
        None => { return None; },
        Some(x) => x,
    };
    let (data_compressed, i7) = match read_bool(b, i6) {
        None => { return None; },
        Some(x) => x,
    };
    let (upload_date, i8r) = match read_u64(b, i7) {
        None => { return None; },
        Some(x) => x,
    };
    let (author_username, i9) = match read_str(b, i8r) {
        None => { return None; },
        Some(x) => x,
    };
    let (unlisted, i10) = match read_bool(b, i9) {
        None => { return None; },
        Some(x) => x,
    };
    let (tags, i11) = match read_opt_strs(b, i10) {
        None => { return None; },
        Some(x) => x,
    };
    let (downloads, i12) = match read_u64(b, i11) {
        None => { return None; },
        Some(x) => x,
    };
    if i12 != b.len() {
        return None;
    }
    Some(
        MediaRecord {
            id,
            name,
            extension,
            data_type,
            data_size,
            data_path,
            data_compressed,
            upload_date,
            author_username,
            unlisted,
            tags,
            downloads,
        },
    )
}

/// Decodes an account's upload index.
pub fn decode_account(b: &Vec<u8>) -> (r: Option<Account>)
    ensures
        match r {
            Some(a) => parse_account(b@) == Some(a@),
            None => parse_account(b@) is None,
        },
{
    let (username, i1) = match read_str(b, 0) {
        None => { return None; },
        Some(x) => x,
    };
    let (n, i2) = match read_u64(b, i1) {
        None => { return None; },
        Some(x) => x,
    };
    let (uploads, i3) = match read_strs(b, i2, n) {
        None => { return None; },
        Some(x) => x,
    };
    if i3 != b.len() {
        return None;
    }
    Some(Account { username, uploads })
}

// ---------------------------------------------------------------------------
// The decoded views of a raw namespace
// ---------------------------------------------------------------------------

/// The media records of a raw namespace: entries whose value decodes, keyed
/// as stored. Undecodable entries are dropped, never reported.
pub open spec fn media_map(m: Map<Seq<u8>, Seq<u8>>) -> Map<Seq<u8>, MediaView> {
    Map::new(
        |k: Seq<u8>| m.contains_key(k) && parse_media(m[k]) is Some,
        |k: Seq<u8>| parse_media(m[k]).unwrap(),
    )
}

/// The account records of a raw namespace, on the same terms.
pub open spec fn account_map(m: Map<Seq<u8>, Seq<u8>>) -> Map<Seq<u8>, AccountView> {
    Map::new(
        |k: Seq<u8>| m.contains_key(k) && parse_account(m[k]) is Some,
        |k: Seq<u8>| parse_account(m[k]).unwrap(),
    )
}

/// Storing an encoded record updates the decoded view pointwise.
pub proof fn lemma_media_map_insert(m: Map<Seq<u8>, Seq<u8>>, k: Seq<u8>, b: Seq<u8>, v: MediaView)
    requires
        parse_media(b) == Some(v),
    ensures
        media_map(m.insert(k, b)) == media_map(m).insert(k, v),
{
    assert(media_map(m.insert(k, b)) =~= media_map(m).insert(k, v));
}

/// Removing an entry removes it from the decoded view.
pub proof fn lemma_media_map_remove(m: Map<Seq<u8>, Seq<u8>>, k: Seq<u8>)
    ensures
        media_map(m.remove(k)) == media_map(m).remove(k),
{
    assert(media_map(m.remove(k)) =~= media_map(m).remove(k));
}

/// Storing an encoded account updates the decoded view pointwise.
pub proof fn lemma_account_map_insert(
    m: Map<Seq<u8>, Seq<u8>>,
    k: Seq<u8>,
    b: Seq<u8>,
    v: AccountView,
)
    requires
        parse_account(b) == Some(v),
    ensures
        account_map(m.insert(k, b)) == account_map(m).insert(k, v),
{
    assert(account_map(m.insert(k, b)) =~= account_map(m).insert(k, v));
}

} // verus!
