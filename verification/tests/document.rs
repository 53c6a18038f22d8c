//! End-to-end tests: building documents from pages of text and rendering
//! them whole, with the cross-reference offsets checked against the bytes.

use textpdf::builder::text_to_pdf;
use textpdf::doc::{render_pdf, PDFFile, PDFObj};
use textpdf::elem::PDFElem;

fn find(haystack: &[u8], needle: &[u8]) -> Option<usize> {
    if needle.is_empty() || haystack.len() < needle.len() {
        return None;
    }
    (0..=haystack.len() - needle.len()).find(|&i| &haystack[i..i + needle.len()] == needle)
}

fn starts_with_at(doc: &[u8], offset: usize, prefix: &[u8]) -> bool {
    offset + prefix.len() <= doc.len() && &doc[offset..offset + prefix.len()] == prefix
}

/// The 10-digit offsets of the table's in-use rows, and the startxref value.
fn parse_xref(doc: &[u8]) -> (Vec<usize>, usize) {
    let count_at = find(doc, b"xref\n0 ").unwrap() + b"xref\n0 ".len();
    let after_header = count_at + find(&doc[count_at..], b"\n").unwrap() + 1;
    let mut offsets = Vec::new();
    let mut pos = after_header;
    while doc[pos..].len() >= 20 && doc[pos..pos + 20].iter().all(|&b| b != b'x' && b != b't') {
        let row = std::str::from_utf8(&doc[pos..pos + 20]).unwrap();
        let off: usize = row[0..10].parse().unwrap();
        let flag = &row[17..18];
        if flag == "n" {
            offsets.push(off);
        }
        pos += 20;
    }
    let sx_at = find(doc, b"startxref\n").unwrap() + b"startxref\n".len();
    let sx_end = sx_at + find(&doc[sx_at..], b"\n").unwrap();
    let startxref: usize = std::str::from_utf8(&doc[sx_at..sx_end]).unwrap().parse().unwrap();
    (offsets, startxref)
}

#[test]
fn one_page_two_lines_structure() {
    let file = text_to_pdf(vec![vec!["hello".to_string(), "world".to_string()]]);
    assert_eq!(file.objlist.len(), 5);
    for (k, obj) in file.objlist.iter().enumerate() {
        assert_eq!(obj.n, k as i64 + 1);
    }
    assert_eq!(file.catalog_number, 1);
    assert_eq!(file.version, (1, 7));
    // Object 2 is the page tree: Kids = [4 0 R], Count = 1.
    let tree = &file.objlist[1].elem;
    let entries = match tree {
        PDFElem::Dict(d) => d,
        _ => panic!("page tree is not a dictionary"),
    };
    assert_eq!(entries.len(), 3);
    assert_eq!(entries[1].key, "Kids");
    match &entries[1].value {
        PDFElem::Array(kids) => {
            assert_eq!(kids.len(), 1);
            assert!(matches!(kids[0], PDFElem::Ref(4)));
        },
        _ => panic!("Kids is not an array"),
    }
    assert_eq!(entries[2].key, "Count");
    assert!(matches!(entries[2].value, PDFElem::Int(1)));
    // Object 4 is the page, its contents in object 5.
    match &file.objlist[3].elem {
        PDFElem::Dict(d) => {
            assert_eq!(d[4].key, "Contents");
            assert!(matches!(d[4].value, PDFElem::Ref(5)));
        },
        _ => panic!("page is not a dictionary"),
    }
    // Object 5 is the content stream showing both lines.
    match &file.objlist[4].elem {
        PDFElem::Stream(s) => {
            let expected = b"1. 0. 0. 1. 50. 770. cm\nBT\n/F0 12 Tf\n16 TL\n\
                             (hello) Tj T*\n(world) Tj T*\nET";
            assert_eq!(s, &expected.to_vec());
        },
        _ => panic!("contents are not a stream"),
    }
}

#[test]
fn one_page_two_lines_rendered() {
    let doc = render_pdf(text_to_pdf(vec![vec![
        "hello".to_string(),
        "world".to_string(),
    ]]));
    assert!(find(&doc, b"(hello) Tj T*\n(world) Tj T*\nET").is_some());
    assert!(find(&doc, b"/Size 6\n").is_some());
    assert!(find(&doc, b"xref\n0 6\n").is_some());
    let (offsets, startxref) = parse_xref(&doc);
    // One in-use row per object except the last rendered one.
    assert_eq!(offsets.len(), 4);
    for (k, &off) in offsets.iter().enumerate() {
        let label = format!("{} 0 obj\n", k + 1);
        assert!(starts_with_at(&doc, off, label.as_bytes()));
    }
    // The last object's start offset is published as startxref instead.
    assert!(starts_with_at(&doc, startxref, b"5 0 obj\n"));
}

#[test]
fn empty_input() {
    let file = text_to_pdf(Vec::new());
    assert_eq!(file.objlist.len(), 3);
    let tree = match &file.objlist[1].elem {
        PDFElem::Dict(d) => d,
        _ => panic!("page tree is not a dictionary"),
    };
    match &tree[1].value {
        PDFElem::Array(kids) => assert!(kids.is_empty()),
        _ => panic!("Kids is not an array"),
    }
    assert!(matches!(tree[2].value, PDFElem::Int(0)));
    let doc = render_pdf(file);
    // Three fixed objects: the table declares 4 rows and Size is 4.
    assert!(find(&doc, b"xref\n0 4\n").is_some());
    assert!(find(&doc, b"/Size 4\n").is_some());
    let (offsets, startxref) = parse_xref(&doc);
    assert_eq!(offsets.len(), 2);
    assert!(starts_with_at(&doc, offsets[0], b"1 0 obj\n"));
    assert!(starts_with_at(&doc, offsets[1], b"2 0 obj\n"));
    assert!(starts_with_at(&doc, startxref, b"3 0 obj\n"));
}

#[test]
fn page_with_no_lines() {
    let doc = render_pdf(text_to_pdf(vec![Vec::new()]));
    assert!(find(&doc, b"BT\n/F0 12 Tf\n16 TL\nET").is_some());
    assert!(find(&doc, b"/Count 1\n").is_some());
}

#[test]
fn awkward_text_does_not_break_rendering() {
    let pages = vec![vec![
        "line with (parens) and \\slashes\\".to_string(),
        "control\u{1}char and non-ascii: \u{e9}\u{4e16}".to_string(),
    ]];
    let doc = render_pdf(text_to_pdf(pages));
    assert!(find(&doc, b"line with \\(parens\\) and \\\\slashes\\\\").is_some());
    let (offsets, _) = parse_xref(&doc);
    for (k, &off) in offsets.iter().enumerate() {
        let label = format!("{} 0 obj\n", k + 1);
        assert!(starts_with_at(&doc, off, label.as_bytes()));
    }
}

#[test]
fn xref_offsets_across_sizes() {
    for n in 0..6 {
        let pages: Vec<Vec<String>> = (0..n)
            .map(|p| (0..p + 1).map(|l| format!("page {p} line {l}")).collect())
            .collect();
        let doc = render_pdf(text_to_pdf(pages));
        let (offsets, startxref) = parse_xref(&doc);
        assert_eq!(offsets.len(), 3 + 2 * n - 1);
        for (k, &off) in offsets.iter().enumerate() {
            let label = format!("{} 0 obj\n", k + 1);
            assert!(starts_with_at(&doc, off, label.as_bytes()));
        }
        let last = format!("{} 0 obj\n", 3 + 2 * n);
        assert!(starts_with_at(&doc, startxref, last.as_bytes()));
        let size = format!("/Size {}\n", 3 + 2 * n + 1);
        assert!(find(&doc, size.as_bytes()).is_some());
        let declared = format!("xref\n0 {}\n", 3 + 2 * n + 1);
        assert!(find(&doc, declared.as_bytes()).is_some());
    }
}

#[test]
fn rendering_is_idempotent() {
    let pages = vec![
        vec!["alpha".to_string(), "beta (x)".to_string()],
        vec!["gamma \\ delta".to_string()],
    ];
    let first = render_pdf(text_to_pdf(pages.clone()));
    let second = render_pdf(text_to_pdf(pages));
    assert_eq!(first, second);
}

#[test]
fn single_null_object_golden() {
    let file = PDFFile {
        version: (1, 7),
        catalog_number: 1,
        objlist: vec![PDFObj { n: 1, elem: PDFElem::Null }],
    };
    let doc = render_pdf(file);
    let mut expected = b"%PDF-1.7\n%".to_vec();
    expected.extend_from_slice(&[0xe2, 0xe3, 0xcf, 0xd3]);
    expected.extend_from_slice(b"\n1 0 obj\nnull\nendobj\n");
    expected.extend_from_slice(b"xref\n0 2\n0000000000 65535 f \n");
    expected.extend_from_slice(b"trailer\n<<\n/Size 2\n/Root 1 0 R\n>>\nstartxref\n15\n%%EOF\n");
    assert_eq!(doc, expected);
}
