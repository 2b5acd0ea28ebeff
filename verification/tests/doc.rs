use tome::doc::{
    base64_encode, confinement_error, doc_extensions, doc_read_bytes, doc_refusal, extension_of, extname_lower,
};

// ---- base64 ----

#[test]
fn base64_encode_matches_rfc_4648_test_vectors() {
    assert_eq!(base64_encode(b""), "");
    assert_eq!(base64_encode(b"f"), "Zg==");
    assert_eq!(base64_encode(b"fo"), "Zm8=");
    assert_eq!(base64_encode(b"foo"), "Zm9v");
    assert_eq!(base64_encode(b"foob"), "Zm9vYg==");
    assert_eq!(base64_encode(b"fooba"), "Zm9vYmE=");
    assert_eq!(base64_encode(b"foobar"), "Zm9vYmFy");
}

#[test]
fn base64_encode_round_trips_every_byte_value() {
    let bytes: Vec<u8> = (0..=255).collect();
    let encoded = base64_encode(&bytes);
    assert_eq!(decode_for_test(&encoded), bytes);
}

fn digit_value(c: u8) -> u32 {
    match c {
        b'A'..=b'Z' => (c - b'A') as u32,
        b'a'..=b'z' => (c - b'a' + 26) as u32,
        b'0'..=b'9' => (c - b'0' + 52) as u32,
        b'+' => 62,
        b'/' => 63,
        _ => 0,
    }
}

fn decode_for_test(s: &str) -> Vec<u8> {
    let clean: Vec<u8> = s.bytes().filter(|&b| b != b'=').collect();
    let mut out = Vec::new();
    for chunk in clean.chunks(4) {
        let mut n = 0u32;
        for (i, &c) in chunk.iter().enumerate() {
            n |= digit_value(c) << (18 - 6 * i);
        }
        out.push((n >> 16) as u8);
        if chunk.len() > 2 {
            out.push((n >> 8) as u8);
        }
        if chunk.len() > 3 {
            out.push(n as u8);
        }
    }
    out
}

#[test]
fn base64_uses_both_signs_of_the_alphabet() {
    assert_eq!(base64_encode(&[0xfb, 0xff, 0xbf]), "+/+/");
    assert_eq!(base64_encode(&[0, 0, 0]), "AAAA");
    assert_eq!(base64_encode(&[255]), "/w==");
}

// ---- extensions ----

#[test]
fn extname_lower_includes_the_dot_and_lowercases() {
    assert_eq!(extname_lower("/a/b/Report.DOCX"), ".docx");
    assert_eq!(extname_lower("/a/b/data.xlsx"), ".xlsx");
}

#[test]
fn extname_lower_is_empty_for_no_extension() {
    assert_eq!(extname_lower("/a/b/Makefile"), "");
}

#[test]
fn extname_lower_takes_the_last_segment_of_a_compound_extension() {
    assert_eq!(extname_lower("archive.tar.gz"), ".gz");
}

#[test]
fn hidden_files_and_parents_have_no_extension() {
    assert_eq!(extension_of("/home/u/.bashrc"), None);
    assert_eq!(extension_of("/home/u.d/.."), None);
    assert_eq!(extension_of("/"), None);
    assert_eq!(extension_of("/a/b."), Some("".to_string()));
    assert_eq!(extension_of("/a.b/c.d/"), Some("d".to_string()));
    assert_eq!(extname_lower("/a/ÜBER.ÄÖ"), ".äö");
}

#[test]
fn doc_extensions_covers_exactly_what_the_original_handler_served() {
    let extensions = doc_extensions();
    assert!(extensions.contains(&".docx".to_string()));
    assert!(extensions.contains(&".xlsx".to_string()));
    assert!(extensions.contains(&".xls".to_string()));
    assert_eq!(extensions.len(), 3);
}

#[test]
fn only_documents_have_a_viewer() {
    for ext in doc_extensions() {
        assert_eq!(doc_refusal(&ext), None);
    }
    assert_eq!(doc_refusal(".pdf"), Some("No viewer for .pdf".to_string()));
    assert_eq!(doc_refusal(""), Some("No viewer for ".to_string()));
}

// ---- confinement ----

#[test]
fn confinement_error_distinguishes_not_synced_from_outside() {
    assert_eq!(
        confinement_error("doc:readBytes", true),
        "doc:readBytes: path is outside the open workspace folders"
    );
    assert_eq!(
        confinement_error("doc:readBytes", false),
        "doc:readBytes: workspace folders have not been reported yet"
    );
}

#[test]
fn documents_are_read_where_they_really_are() {
    assert_eq!(doc_read_bytes(Some("/ws/Plan.XLSX".to_string()), true), Ok("/ws/Plan.XLSX".to_string()));
    assert_eq!(doc_read_bytes(Some("/ws/run.sh".to_string()), true), Err("No viewer for .sh".to_string()));
    assert_eq!(
        doc_read_bytes(None, true),
        Err("doc:readBytes: path is outside the open workspace folders".to_string())
    );
    assert_eq!(
        doc_read_bytes(None, false),
        Err("doc:readBytes: workspace folders have not been reported yet".to_string())
    );
}
