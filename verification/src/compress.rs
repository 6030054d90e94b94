//! The compress-or-store-raw decision: attempt a best-level DEFLATE (zlib)
//! compression and keep it only if it is strictly smaller than the payload,
//! so the stored size never exceeds the payload size.

use vstd::prelude::*;

verus! {

/// What the zlib encoder at best level produces for the given bytes: a
/// function of the bytes alone.
pub uninterp spec fn deflate_of(b: Seq<u8>) -> Seq<u8>;

/// What the zlib decoder recovers from the given bytes; `None` on data that
/// is not a well-formed zlib stream.
pub uninterp spec fn inflate_of(b: Seq<u8>) -> Option<Seq<u8>>;

/// Relies on `flate2::write::ZlibEncoder` at `Compression::best`: the output
/// depends on the input bytes alone, encoding into a `Vec` sink cannot fail,
/// and `flate2::write::ZlibDecoder` recovers the input from it.
#[verifier::external_body]
fn zlib_compress(data: &Vec<u8>) -> (r: Vec<u8>)
    ensures
        r@ == deflate_of(data@),
        inflate_of(r@) == Some(data@),
{
    let mut enc = flate2::write::ZlibEncoder::new(Vec::new(), flate2::Compression::best());
    std::io::Write::write_all(&mut enc, data).expect("a Vec sink does not fail");
    enc.finish().expect("a Vec sink does not fail")
}

/// Relies on `flate2::write::ZlibDecoder`: decoding succeeds exactly on
/// well-formed zlib data and yields the decoded bytes.
#[verifier::external_body]
fn zlib_decompress(data: &Vec<u8>) -> (r: Option<Vec<u8>>)
    ensures
        r matches Some(d) ==> inflate_of(data@) == Some(d@),
        r is None ==> inflate_of(data@) is None,
{
    let mut dec = flate2::write::ZlibDecoder::new(Vec::new());
    if std::io::Write::write_all(&mut dec, data).is_err() {
        return None;
    }
    dec.finish().ok()
}

/// The stored bytes can be served back as the payload: they are the payload
/// itself, or a zlib form that decodes to it.
pub open spec fn stored_form_of(payload: Seq<u8>, stored: Seq<u8>, compressed: bool) -> bool {
    if compressed {
        inflate_of(stored) == Some(payload)
    } else {
        stored == payload
    }
}

/// Applies the compression policy: the compressed form is kept exactly when
/// compression is configured and it is strictly smaller than the payload.
/// The first component is what to store, the second whether it is
/// compressed; the stored size never exceeds the payload size, and the
/// stored bytes always serve back the payload.
pub fn prepare_payload(data: Vec<u8>, store_compressed: bool) -> (r: (Vec<u8>, bool))
    ensures
        r.1 == (store_compressed && deflate_of(data@).len() < data@.len()),
        r.1 ==> r.0@ == deflate_of(data@) && inflate_of(r.0@) == Some(data@),
        !r.1 ==> r.0@ == data@,
        r.0@.len() <= data@.len(),
        stored_form_of(data@, r.0@, r.1),
{
    if store_compressed {
        let c = zlib_compress(&data);
        if c.len() < data.len() {
            (c, true)
        } else {
            (data, false)
        }
    } else {
        (data, false)
    }
}

/// Recovers the payload served to a downloader from the stored bytes.
pub fn recover_payload(stored: Vec<u8>, compressed: bool) -> (r: Option<Vec<u8>>)
    ensures
        r matches Some(p) ==> (if compressed {
            inflate_of(stored@) == Some(p@)
        } else {
            p@ == stored@
        }),
        r is None ==> compressed && inflate_of(stored@) is None,
        forall|payload: Seq<u8>|
            stored_form_of(payload, stored@, compressed) ==> (r matches Some(p) && p@ == payload),
{
    if compressed {
        zlib_decompress(&stored)
    } else {
        Some(stored)
    }
}

/// What a download serves from the stored bytes: their zlib decoding when
/// the record is compressed, the bytes themselves otherwise.
pub open spec fn spec_served_payload(stored: Seq<u8>, compressed: bool) -> Option<Seq<u8>> {
    if compressed {
        inflate_of(stored)
    } else {
        Some(stored)
    }
}

/// Round trip of the storage policy: whatever the policy stored for a
/// payload, a download serves the payload back, whether or not compression
/// was applied.
pub proof fn lemma_payload_round_trip(payload: Seq<u8>, stored: Seq<u8>, compressed: bool)
    requires
        stored_form_of(payload, stored, compressed),
    ensures
        spec_served_payload(stored, compressed) == Some(payload),
{
}

} // verus!
