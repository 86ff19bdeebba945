//! Compression of archive bytes through the configured codec.
//!
//! The codecs themselves are outside crates; each is reached through a
//! pair of trusted wrappers whose contracts are stated over one name
//! per codec: what decoding a byte string yields. The wrappers promise
//! exactly the documented round trip — a stream the encoder produced
//! decodes back to the bytes written — and nothing about the encoded
//! bytes themselves. The encoders also promise success: they write
//! into in-memory buffers, which cannot fail.

use std::io::Write;

use vstd::prelude::*;

use crate::configuration::ArchiveCompression;
use crate::error::Error;

verus! {

/// What gzip decoding yields for `b`: the decompressed bytes where `b`
/// is a well-formed gzip stream, nothing otherwise.
pub uninterp spec fn gunzip_of(b: Seq<u8>) -> Option<Seq<u8>>;

/// What xz decoding yields for `b`.
pub uninterp spec fn unxz_of(b: Seq<u8>) -> Option<Seq<u8>>;

/// What bzip2 decoding yields for `b`.
pub uninterp spec fn unbzip2_of(b: Seq<u8>) -> Option<Seq<u8>>;

/// What zstd decoding yields for `b`.
pub uninterp spec fn unzstd_of(b: Seq<u8>) -> Option<Seq<u8>>;

/// What decoding `b` with `codec` yields.
pub open spec fn decode_of(codec: ArchiveCompression, b: Seq<u8>) -> Option<Seq<u8>> {
    match codec {
        ArchiveCompression::Gzip => gunzip_of(b),
        ArchiveCompression::Xz => unxz_of(b),
        ArchiveCompression::Bzip2 => unbzip2_of(b),
        ArchiveCompression::Zstd => unzstd_of(b),
    }
}

/// Relies on flate2's write-side gzip encoder (`GzEncoder::new`,
/// `write_all`, `finish`): the finished stream decodes back to exactly
/// the bytes written; levels zero to nine are accepted, and encoding
/// into an in-memory buffer succeeds, since writes to a `Vec` cannot
/// fail.
#[verifier::external_body]
fn gzip_compress(data: &Vec<u8>, level: u32) -> (r: Result<Vec<u8>, Error>)
    requires
        level <= 9,
    ensures
        r is Ok,
        gunzip_of(r->Ok_0@) == Some(data@),
{
    let mut enc = flate2::write::GzEncoder::new(Vec::new(), flate2::Compression::new(level));
    if let Err(e) = enc.write_all(data.as_slice()) {
        return Err(Error::Io(e.to_string()));
    }
    match enc.finish() {
        Ok(v) => Ok(v),
        Err(e) => Err(Error::Io(e.to_string())),
    }
}

/// Relies on flate2's write-side gzip decoder (`GzDecoder::new`,
/// `write_all`, `finish`): it succeeds exactly on a well-formed gzip
/// stream, yielding the bytes that were encoded.
#[verifier::external_body]
fn gzip_decompress(data: &Vec<u8>) -> (r: Result<Vec<u8>, Error>)
    ensures
        r is Ok ==> gunzip_of(data@) == Some(r->Ok_0@),
        r is Err ==> gunzip_of(data@) is None,
        r is Err ==> r->Err_0 is Io,
{
    let mut dec = flate2::write::GzDecoder::new(Vec::new());
    if let Err(e) = dec.write_all(data.as_slice()) {
        return Err(Error::Io(e.to_string()));
    }
    match dec.finish() {
        Ok(v) => Ok(v),
        Err(e) => Err(Error::Io(e.to_string())),
    }
}

/// Relies on xz2's write-side encoder (`XzEncoder::new`, `write_all`,
/// `finish`): the finished stream decodes back to exactly the bytes
/// written; levels zero to nine are accepted (the constructor panics
/// above nine), and encoding into an in-memory buffer succeeds, since
/// writes to a `Vec` cannot fail.
#[verifier::external_body]
fn xz_compress(data: &Vec<u8>, level: u32) -> (r: Result<Vec<u8>, Error>)
    requires
        level <= 9,
    ensures
        r is Ok,
        unxz_of(r->Ok_0@) == Some(data@),
{
    let mut enc = xz2::write::XzEncoder::new(Vec::new(), level);
    if let Err(e) = enc.write_all(data.as_slice()) {
        return Err(Error::Io(e.to_string()));
    }
    match enc.finish() {
        Ok(v) => Ok(v),
        Err(e) => Err(Error::Io(e.to_string())),
    }
}

/// Relies on xz2's write-side decoder (`XzDecoder::new`, `write_all`,
/// `finish`): it succeeds exactly on a well-formed xz stream, yielding
/// the bytes that were encoded.
#[verifier::external_body]
fn xz_decompress(data: &Vec<u8>) -> (r: Result<Vec<u8>, Error>)
    ensures
        r is Ok ==> unxz_of(data@) == Some(r->Ok_0@),
        r is Err ==> unxz_of(data@) is None,
        r is Err ==> r->Err_0 is Io,
{
    let mut dec = xz2::write::XzDecoder::new(Vec::new());
    if let Err(e) = dec.write_all(data.as_slice()) {
        return Err(Error::Io(e.to_string()));
    }
    match dec.finish() {
        Ok(v) => Ok(v),
        Err(e) => Err(Error::Io(e.to_string())),
    }
}

/// Relies on bzip2's write-side encoder (`BzEncoder::new`, `write_all`,
/// `finish`): the finished stream decodes back to exactly the bytes
/// written; `Compression::new` accepts levels one to nine only (it
/// panics elsewhere), and encoding into an in-memory buffer succeeds,
/// since writes to a `Vec` cannot fail.
#[verifier::external_body]
fn bzip2_compress(data: &Vec<u8>, level: u32) -> (r: Result<Vec<u8>, Error>)
    requires
        1 <= level <= 9,
    ensures
        r is Ok,
        unbzip2_of(r->Ok_0@) == Some(data@),
{
    let mut enc = bzip2::write::BzEncoder::new(Vec::new(), bzip2::Compression::new(level));
    if let Err(e) = enc.write_all(data.as_slice()) {
        return Err(Error::Io(e.to_string()));
    }
    match enc.finish() {
        Ok(v) => Ok(v),
        Err(e) => Err(Error::Io(e.to_string())),
    }
}

/// Relies on bzip2's write-side decoder (`BzDecoder::new`, `write_all`,
/// `finish`): it succeeds exactly on a well-formed bzip2 stream,
/// yielding the bytes that were encoded.
#[verifier::external_body]
fn bzip2_decompress(data: &Vec<u8>) -> (r: Result<Vec<u8>, Error>)
    ensures
        r is Ok ==> unbzip2_of(data@) == Some(r->Ok_0@),
        r is Err ==> unbzip2_of(data@) is None,
        r is Err ==> r->Err_0 is Io,
{
    let mut dec = bzip2::write::BzDecoder::new(Vec::new());
    if let Err(e) = dec.write_all(data.as_slice()) {
        return Err(Error::Io(e.to_string()));
    }
    match dec.finish() {
        Ok(v) => Ok(v),
        Err(e) => Err(Error::Io(e.to_string())),
    }
}

/// Relies on zstd's `stream::encode_all`: the produced frame decodes
/// back to exactly the input bytes; levels up to twenty-two are
/// accepted, zero meaning the codec's own default, and encoding into
/// the in-memory buffer succeeds at an accepted level.
#[verifier::external_body]
fn zstd_compress(data: &Vec<u8>, level: u32) -> (r: Result<Vec<u8>, Error>)
    requires
        level <= 22,
    ensures
        r is Ok,
        unzstd_of(r->Ok_0@) == Some(data@),
{
    match zstd::stream::encode_all(data.as_slice(), level as i32) {
        Ok(v) => Ok(v),
        Err(e) => Err(Error::Io(e.to_string())),
    }
}

/// Relies on zstd's `stream::decode_all`: it succeeds exactly on a
/// well-formed zstd frame, yielding the bytes that were encoded.
#[verifier::external_body]
fn zstd_decompress(data: &Vec<u8>) -> (r: Result<Vec<u8>, Error>)
    ensures
        r is Ok ==> unzstd_of(data@) == Some(r->Ok_0@),
        r is Err ==> unzstd_of(data@) is None,
        r is Err ==> r->Err_0 is Io,
{
    match zstd::stream::decode_all(data.as_slice()) {
        Ok(v) => Ok(v),
        Err(e) => Err(Error::Io(e.to_string())),
    }
}

/// Compresses `data` with `codec` at `level`; compression into memory
/// at an accepted level always succeeds. Bzip2 accepts no level below
/// one, so zero is raised to one there; every other codec takes the
/// level as given.
pub fn compress(codec: &ArchiveCompression, level: u32, data: &Vec<u8>) -> (r: Result<
    Vec<u8>,
    Error,
>)
    requires
        level <= codec.spec_max_level(),
    ensures
        r is Ok,
        decode_of(*codec, r->Ok_0@) == Some(data@),
{
    match codec {
        ArchiveCompression::Gzip => gzip_compress(data, level),
        ArchiveCompression::Xz => xz_compress(data, level),
        ArchiveCompression::Bzip2 => bzip2_compress(
            data,
            if level < 1 {
                1
            } else {
                level
            },
        ),
        ArchiveCompression::Zstd => zstd_compress(data, level),
    }
}

/// Decompresses `data` with `codec`, succeeding exactly when the bytes
/// are a well-formed stream of that codec.
pub fn decompress(codec: &ArchiveCompression, data: &Vec<u8>) -> (r: Result<Vec<u8>, Error>)
    ensures
        r is Ok ==> decode_of(*codec, data@) == Some(r->Ok_0@),
        r is Err ==> decode_of(*codec, data@) is None,
        r is Err ==> r->Err_0 is Io,
{
    match codec {
        ArchiveCompression::Gzip => gzip_decompress(data),
        ArchiveCompression::Xz => xz_decompress(data),
        ArchiveCompression::Bzip2 => bzip2_decompress(data),
        ArchiveCompression::Zstd => zstd_decompress(data),
    }
}

} // verus!
