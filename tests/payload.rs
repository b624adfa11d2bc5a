use std::io::Write;

use flate2::write::GzEncoder;
use flate2::Compression;
use reposync::error::SyncError;
use reposync::payload::decode_payload;

const XML: &str = "<?xml version=\"1.0\" encoding=\"UTF-8\"?>\n<metadata xmlns=\"http://linux.duke.edu/metadata/common\" packages=\"1\">\n<package type=\"rpm\"><name>bash</name><location href=\"Packages/b/bash.rpm\"/></package>\n</metadata>\n";

fn gzip(data: &[u8]) -> Vec<u8> {
    let mut enc = GzEncoder::new(Vec::new(), Compression::default());
    enc.write_all(data).unwrap();
    enc.finish().unwrap()
}

#[test]
fn gzip_and_plain_xml_decode_alike() {
    let plain = decode_payload(XML.as_bytes()).unwrap();
    let packed = decode_payload(&gzip(XML.as_bytes())).unwrap();
    assert_eq!(plain, XML.as_bytes());
    assert_eq!(packed, plain);
}

#[test]
fn other_payloads_are_incompatible() {
    assert_eq!(
        decode_payload(b"\x89PNG\r\n\x1a\n\0\0\0\rIHDR"),
        Err(SyncError::IncompatibleFiletype)
    );
}

#[test]
fn gzip_of_empty_input_decodes_to_nothing() {
    assert_eq!(decode_payload(&gzip(b"")), Ok(Vec::new()));
}

#[test]
fn truncated_gzip_is_a_decode_error() {
    let mut packed = gzip(XML.as_bytes());
    packed.truncate(packed.len() / 2);
    assert!(matches!(decode_payload(&packed), Err(SyncError::Decode(_))));
}
