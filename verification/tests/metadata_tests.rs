use cewl::metadata::{classify_file, docx_metadata, exif_metadata, file_kind, pdf_metadata, push_nonempty, FileKind};
use std::io::Write;

#[test]
fn pdf_byte_regex() {
    let bytes = b"pdf:Author='Jane Doe'\ndc:creator='Bob'\n";
    let results = pdf_metadata(bytes);
    assert!(results.contains(&"Jane Doe".to_string()), "{results:?}");
    assert!(results.contains(&"Bob".to_string()), "{results:?}");
}

#[test]
fn pdf_patterns_in_order_per_line() {
    let bytes = b"<xap:Author> Ann </xap:Author> /Author (Zed)\nXAP:AUTHOR='x'\n\xff\xfe/Author(Q)\n";
    assert_eq!(
        pdf_metadata(bytes),
        vec!["Zed".to_string(), "Ann".to_string(), "x".to_string(), "Q".to_string()]
    );
}

#[test]
fn pdf_case_sensitive_first_pattern() {
    // `pdf:Author='..'` is matched only in that case; the tag form ignores case
    assert!(pdf_metadata(b"PDF:AUTHOR='nope'\n").is_empty());
    assert_eq!(pdf_metadata(b"<PDF:AUTHOR>yes</pdf:author>\n"), vec!["yes".to_string()]);
}

#[test]
fn exif_lines() {
    let out = "Author                          : Jane\nLast Saved By  :   Bob  \nno colon here\n: empty name\nCreator : \n";
    assert_eq!(exif_metadata(out), vec!["Jane".to_string(), "Bob".to_string()]);
}

#[test]
fn push_nonempty_trims() {
    let mut v = Vec::new();
    push_nonempty(&mut v, "  a b ");
    push_nonempty(&mut v, " \t ");
    assert_eq!(v, vec!["a b".to_string()]);
}

fn docx_with_core(xml: &str) -> Vec<u8> {
    let mut w = zip::ZipWriter::new(std::io::Cursor::new(Vec::new()));
    w.start_file("docProps/core.xml", zip::write::SimpleFileOptions::default()).unwrap();
    w.write_all(xml.as_bytes()).unwrap();
    w.finish().unwrap().into_inner()
}

#[test]
fn docx_core_properties() {
    let xml = r#"<?xml version="1.0"?><cp:coreProperties xmlns:cp="http://schemas.openxmlformats.org/package/2006/metadata/core-properties" xmlns:dc="http://purl.org/dc/elements/1.1/"><dc:creator> Jane Doe </dc:creator><dc:title>T</dc:title><cp:lastModifiedBy>Bob</cp:lastModifiedBy></cp:coreProperties>"#;
    let bytes = docx_with_core(xml);
    assert_eq!(docx_metadata(&bytes), vec!["Jane Doe".to_string(), "Bob".to_string()]);
}

#[test]
fn docx_not_an_archive() {
    assert!(docx_metadata(b"plain text").is_empty());
    assert!(docx_metadata(&docx_with_core("<not xml")).is_empty());
}

#[test]
fn file_kinds_by_mime_and_name() {
    assert_eq!(classify_file("x.bin", None), FileKind::NoMimeType);
    assert_eq!(classify_file("x.doc", Some("application/msword")), FileKind::LegacyOffice);
    assert_eq!(classify_file("x.pdf", Some("application/pdf")), FileKind::Pdf);
    assert_eq!(classify_file("Report.DOCX", Some("application/zip")), FileKind::Office2007);
    assert_eq!(classify_file("index.PHP", Some("text/plain")), FileKind::Ignored);
    assert_eq!(classify_file("a.txt", Some("text/plain")), FileKind::Unknown);
}

#[test]
fn file_kind_guesses_mime() {
    assert_eq!(file_kind("/tmp/a.pdf"), FileKind::Pdf);
    assert_eq!(file_kind("/tmp/a.xls"), FileKind::LegacyOffice);
    assert_eq!(file_kind("/tmp/a.docx"), FileKind::Office2007);
    assert_eq!(file_kind("/tmp/noextension"), FileKind::NoMimeType);
}
