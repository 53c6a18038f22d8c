//! Tests of the element, object and structural encoders on concrete values.

use textpdf::doc::{render_header, render_obj, PDFObj};
use textpdf::elem::{new_dict, render_elem, PDFElem};
use textpdf::xref::{
    render_trailer, render_xref, render_xref_entry, render_xref_entry_use, PDFXrefEntry,
    PdfTrailer, PdfXrefEntryUse,
};

fn render_str(e: &PDFElem) -> String {
    String::from_utf8(render_elem(e)).unwrap()
}

#[test]
fn null_bool_int() {
    assert_eq!(render_str(&PDFElem::Null), "null");
    assert_eq!(render_str(&PDFElem::Bool(true)), "true");
    assert_eq!(render_str(&PDFElem::Bool(false)), "false");
    assert_eq!(render_str(&PDFElem::Int(0)), "0");
    assert_eq!(render_str(&PDFElem::Int(12345)), "12345");
    assert_eq!(render_str(&PDFElem::Int(-42)), "-42");
    assert_eq!(render_str(&PDFElem::Int(i64::MIN)), "-9223372036854775808");
    assert_eq!(render_str(&PDFElem::Int(i64::MAX)), "9223372036854775807");
}

#[test]
fn string_escaping() {
    assert_eq!(render_str(&PDFElem::String("hello".to_string())), "(hello)");
    assert_eq!(
        render_str(&PDFElem::String(r"a\b(c)d".to_string())),
        r"(a\\b\(c\)d)"
    );
    assert_eq!(render_str(&PDFElem::String("".to_string())), "()");
}

/// Reverses the three literal-string substitutions.
fn unescape_string(s: &[u8]) -> Vec<u8> {
    let mut out = Vec::new();
    let mut i = 0;
    while i < s.len() {
        if i + 1 < s.len() && s[i] == b'\\' && (s[i + 1] == b'\\' || s[i + 1] == b'(' || s[i + 1] == b')') {
            out.push(s[i + 1]);
            i += 2;
        } else {
            out.push(s[i]);
            i += 1;
        }
    }
    out
}

#[test]
fn string_escaping_round_trip() {
    let original = r"mixed \ ( ) \\ (( )) text";
    let rendered = render_elem(&PDFElem::String(original.to_string()));
    let inner = &rendered[1..rendered.len() - 1];
    assert_eq!(unescape_string(inner), original.as_bytes());
}

/// Reverses the hexadecimal escapes of a name.
fn unescape_name(s: &[u8]) -> Vec<u8> {
    let mut out = Vec::new();
    let mut i = 0;
    while i < s.len() {
        if s[i] == b'#' && i + 2 < s.len() {
            let hex = std::str::from_utf8(&s[i + 1..i + 3]).unwrap();
            out.push(u8::from_str_radix(hex, 16).unwrap());
            i += 3;
        } else {
            out.push(s[i]);
            i += 1;
        }
    }
    out
}

#[test]
fn name_escaping() {
    assert_eq!(render_str(&PDFElem::Name("Catalog".to_string())), "/Catalog");
    assert_eq!(
        render_str(&PDFElem::Name("a b#c".to_string())),
        "/a#20b#23c"
    );
    assert_eq!(render_str(&PDFElem::Name("\x7f\x01".to_string())), "/#7f#01");
}

#[test]
fn name_escaping_printable_and_round_trip() {
    let original = "odd name\twith#specials\x7f";
    let rendered = render_elem(&PDFElem::Name(original.to_string()));
    let inner = &rendered[1..];
    for (k, &b) in inner.iter().enumerate() {
        assert!((0x21..=0x7e).contains(&b));
        if b == b'#' {
            assert!(k + 2 < inner.len());
            assert!(inner[k + 1].is_ascii_hexdigit());
            assert!(inner[k + 2].is_ascii_hexdigit());
        }
    }
    assert_eq!(unescape_name(inner), original.as_bytes());
}

#[test]
fn refs_arrays_dicts() {
    assert_eq!(render_str(&PDFElem::Ref(7)), "7 0 R");
    assert_eq!(render_str(&PDFElem::Array(vec![])), "[]");
    assert_eq!(
        render_str(&PDFElem::Array(vec![
            PDFElem::Int(1),
            PDFElem::Ref(4),
            PDFElem::Null,
        ])),
        "[1 4 0 R null]"
    );
    let d = vec![
        new_dict("Type", PDFElem::Name("Pages".to_string())),
        new_dict("Count", PDFElem::Int(0)),
    ];
    assert_eq!(
        render_str(&PDFElem::Dict(d)),
        "<<\n/Type /Pages\n/Count 0\n>>"
    );
    assert_eq!(render_str(&PDFElem::Dict(vec![])), "<<\n>>");
}

#[test]
fn streams() {
    assert_eq!(
        render_str(&PDFElem::Stream(b"BT ET".to_vec())),
        "<<\n/Length 5\n>>\nstream\nBT ET\nendstream"
    );
    assert_eq!(
        render_str(&PDFElem::Stream(Vec::new())),
        "<<\n/Length 0\n>>\nstream\n\nendstream"
    );
}

#[test]
fn objects() {
    let o = PDFObj { n: 1, elem: PDFElem::Null };
    assert_eq!(
        String::from_utf8(render_obj(&o)).unwrap(),
        "1 0 obj\nnull\nendobj\n"
    );
}

#[test]
fn header_bytes() {
    let h = render_header(1, 7);
    let mut expected = b"%PDF-1.7\n%".to_vec();
    expected.extend_from_slice(&[0xe2, 0xe3, 0xcf, 0xd3]);
    expected.push(b'\n');
    assert_eq!(h, expected);
}

#[test]
fn xref_entries() {
    assert_eq!(render_xref_entry_use(PdfXrefEntryUse::FreeEntry), b"f");
    assert_eq!(render_xref_entry_use(PdfXrefEntryUse::InUseEntry), b"n");
    let free = PDFXrefEntry { offset: 0, generation: 65535, entry_use: PdfXrefEntryUse::FreeEntry };
    assert_eq!(
        String::from_utf8(render_xref_entry(free)).unwrap(),
        "0000000000 65535 f \n"
    );
    let used = PDFXrefEntry { offset: 14, generation: 0, entry_use: PdfXrefEntryUse::InUseEntry };
    assert_eq!(
        String::from_utf8(render_xref_entry(used)).unwrap(),
        "0000000014 00000 n \n"
    );
}

#[test]
fn xref_table() {
    let xs = vec![
        PDFXrefEntry { offset: 0, generation: 65535, entry_use: PdfXrefEntryUse::FreeEntry },
        PDFXrefEntry { offset: 14, generation: 0, entry_use: PdfXrefEntryUse::InUseEntry },
    ];
    assert_eq!(
        String::from_utf8(render_xref(xs)).unwrap(),
        "xref\n0 3\n0000000000 65535 f \n0000000014 00000 n \n"
    );
}

#[test]
fn trailer_block() {
    let t = PdfTrailer { root: 1, size: 6, startxref: 414 };
    assert_eq!(
        String::from_utf8(render_trailer(t)).unwrap(),
        "trailer\n<<\n/Size 6\n/Root 1 0 R\n>>\nstartxref\n414\n%%EOF\n"
    );
}
