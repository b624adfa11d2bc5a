//! Content sniffing and decompression of metadata payloads: a payload is
//! gzip-compressed XML or plain XML, and nothing else.
use vstd::prelude::*;

use crate::error::SyncError;

verus! {

#[verifier::external_type_specification]
#[verifier::external_body]
pub struct ExIoError(std::io::Error);

/// Whether tree_magic's built-in type database recognises `data` as the
/// MIME type `mime`.
pub uninterp spec fn mime_matches(mime: Seq<char>, data: Seq<u8>) -> bool;

/// The bytes that gzip decompression of `data` yields, or `None` where
/// `data` is not a complete, well-formed gzip stream.
pub uninterp spec fn gunzip_of(data: Seq<u8>) -> Option<Seq<u8>>;

/// The MIME type of gzip data.
pub const GZIP_MIME: &'static str = "application/gzip";

/// The MIME type of XML documents.
pub const XML_MIME: &'static str = "application/xml";

/// Relies on `tree_magic::match_u8`, built with its own database
/// (`staticmime`): whether the bytes match the MIME type.
#[verifier::external_body]
fn sniff(mime: &str, data: &[u8]) -> (r: bool)
    ensures
        r == mime_matches(mime@, data@),
{
    tree_magic::match_u8(mime, data)
}

/// Relies on `flate2::read::GzDecoder` read to the end: the decompressed
/// bytes, or the error met in a corrupt or truncated stream.
#[verifier::external_body]
fn gunzip(data: &[u8]) -> (r: Result<Vec<u8>, std::io::Error>)
    ensures
        match gunzip_of(data@) {
            Some(x) => r matches Ok(v) && v@ == x,
            None => r is Err,
        },
{
    let mut out = Vec::new();
    std::io::Read::read_to_end(&mut flate2::read::GzDecoder::new(data), &mut out).map(|_| out)
}

/// Copies a byte slice.
fn copy_bytes(data: &[u8]) -> (r: Vec<u8>)
    ensures
        r@ == data@,
{
    let mut out: Vec<u8> = Vec::new();
    let mut i: usize = 0;
    while i < data.len()
        invariant
            0 <= i <= data.len(),
            out@ == data@.subrange(0, i as int),
        decreases data.len() - i,
    {
        out.push(data[i]);
        assert(data@.subrange(0, i + 1) =~= data@.subrange(0, i as int).push(data@[i as int]));
        i += 1;
    }
    assert(data@.subrange(0, data.len() as int) =~= data@);
    out
}

/// The XML text of a metadata payload: gzip data is decompressed, XML is
/// taken as it is, anything else is refused.
pub fn decode_payload(source: &[u8]) -> (r: Result<Vec<u8>, SyncError>)
    ensures
        mime_matches(GZIP_MIME@, source@) ==> match gunzip_of(source@) {
            Some(x) => r matches Ok(xml) && xml@ == x,
            None => r matches Err(SyncError::Decode(_)),
        },
        !mime_matches(GZIP_MIME@, source@) && mime_matches(XML_MIME@, source@) ==> (r matches Ok(
            xml,
        ) && xml@ == source@),
        !mime_matches(GZIP_MIME@, source@) && !mime_matches(XML_MIME@, source@) ==> r == Err::<
            Vec<u8>,
            SyncError,
        >(SyncError::IncompatibleFiletype),
{
    if sniff(GZIP_MIME, source) {
        match gunzip(source) {
            Ok(xml) => Ok(xml),
            Err(_) => Err(SyncError::Decode("corrupt gzip stream".to_owned())),
        }
    } else if sniff(XML_MIME, source) {
        Ok(copy_bytes(source))
    } else {
        Err(SyncError::IncompatibleFiletype)
    }
}

} // verus!
