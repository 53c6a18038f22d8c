//! The document builder: from pages of text lines to the full object graph.
//!
//! For N pages the object numbering is fixed: 1 the catalog, 2 the page-tree
//! root, 3 the font resource, 4..4+N the page objects, 4+N..4+2N the content
//! streams, in the same relative order as the pages.

use vstd::prelude::*;
use vstd::utf8::encode_utf8;
use crate::elem::new_dict;
use crate::elem::push_lit;
use crate::elem::Dict;
use crate::elem::PDFElem;
use crate::escape::escape_string_bytes;
use crate::escape::spec_escape_string;
use crate::doc::PDFFile;
use crate::doc::PDFObj;

verus! {

/// A4 page width in points.
pub const PAGE_WIDTH: i64 = 595;

/// A4 page height in points.
pub const PAGE_HEIGHT: i64 = 842;

/// The fixed preamble of every content stream: text matrix offset to
/// (50, 770) points, a text object in font F0 at size 12, 16-point leading.
pub open spec fn spec_content_preamble() -> Seq<u8> {
    encode_utf8("1. 0. 0. 1. 50. 770. cm\nBT\n/F0 12 Tf\n16 TL\n"@)
}

/// One shown line: the text as an escaped literal string, then the show-text
/// and move-to-next-line operators.
pub open spec fn spec_content_line(line: Seq<char>) -> Seq<u8> {
    encode_utf8("("@) + spec_escape_string(encode_utf8(line)) + encode_utf8(") Tj T*\n"@)
}

/// The shown lines of one page, in order.
pub open spec fn spec_content_lines(lines: Seq<Seq<char>>) -> Seq<u8>
    decreases lines.len(),
{
    if lines.len() == 0 {
        Seq::empty()
    } else {
        spec_content_lines(lines.drop_last()) + spec_content_line(lines.last())
    }
}

/// A page's whole content stream: preamble, the shown lines, end of text.
pub open spec fn spec_page_stream(lines: Seq<Seq<char>>) -> Seq<u8> {
    spec_content_preamble() + spec_content_lines(lines) + encode_utf8("ET"@)
}

/// Whether `e` is a name with the given text.
pub open spec fn spec_is_name(e: PDFElem, name: Seq<char>) -> bool {
    &&& e is Name
    &&& e->Name_0@ == name
}

/// The catalog object: number 1, `/Type /Catalog`, `/Pages 2 0 R`.
pub open spec fn spec_is_catalog(o: PDFObj) -> bool {
    &&& o.n == 1
    &&& o.elem is Dict
    &&& {
        let d = o.elem->Dict_0@;
        &&& d.len() == 2
        &&& d[0].key@ == "Type"@
        &&& spec_is_name(d[0].value, "Catalog"@)
        &&& d[1].key@ == "Pages"@
        &&& d[1].value == PDFElem::Ref(2)
    }
}

/// The page-tree root: number 2, one `Kids` reference per page, numbered
/// from 4, and `/Count` the page count.
pub open spec fn spec_is_page_tree(o: PDFObj, n: int) -> bool {
    &&& o.n == 2
    &&& o.elem is Dict
    &&& {
        let d = o.elem->Dict_0@;
        &&& d.len() == 3
        &&& d[0].key@ == "Type"@
        &&& spec_is_name(d[0].value, "Pages"@)
        &&& d[1].key@ == "Kids"@
        &&& d[1].value is Array
        &&& d[1].value->Array_0@.len() == n
        &&& forall|i: int|
            0 <= i < n ==> #[trigger] d[1].value->Array_0@[i] == PDFElem::Ref((4 + i) as i64)
        &&& d[2].key@ == "Count"@
        &&& d[2].value == PDFElem::Int(n as i64)
    }
}

/// The font resource: number 3, one font `F0`, base font Times-Roman,
/// subtype Type1 — the document's only font.
pub open spec fn spec_is_font(o: PDFObj) -> bool {
    &&& o.n == 3
    &&& o.elem is Dict
    &&& {
        let d = o.elem->Dict_0@;
        &&& d.len() == 1
        &&& d[0].key@ == "Font"@
        &&& d[0].value is Dict
        &&& {
            let fd = d[0].value->Dict_0@;
            &&& fd.len() == 1
            &&& fd[0].key@ == "F0"@
            &&& fd[0].value is Dict
            &&& {
                let f0 = fd[0].value->Dict_0@;
                &&& f0.len() == 3
                &&& f0[0].key@ == "Type"@
                &&& spec_is_name(f0[0].value, "Font"@)
                &&& f0[1].key@ == "BaseFont"@
                &&& spec_is_name(f0[1].value, "Times-Roman"@)
                &&& f0[2].key@ == "Subtype"@
                &&& spec_is_name(f0[2].value, "Type1"@)
            }
        }
    }
}

/// Page object `i` of `n`: number 4+i, parented in the tree, sharing the
/// resource dictionary, an A4 media box, contents in object 4+n+i.
pub open spec fn spec_is_page(o: PDFObj, i: int, n: int) -> bool {
    &&& o.n == 4 + i
    &&& o.elem is Dict
    &&& {
        let d = o.elem->Dict_0@;
        &&& d.len() == 5
        &&& d[0].key@ == "Type"@
        &&& spec_is_name(d[0].value, "Page"@)
        &&& d[1].key@ == "Parent"@
        &&& d[1].value == PDFElem::Ref(2)
        &&& d[2].key@ == "Resources"@
        &&& d[2].value == PDFElem::Ref(3)
        &&& d[3].key@ == "MediaBox"@
        &&& d[3].value is Array
        &&& {
            let mb = d[3].value->Array_0@;
            &&& mb.len() == 4
            &&& mb[0] == PDFElem::Int(0)
            &&& mb[1] == PDFElem::Int(0)
            &&& mb[2] == PDFElem::Int(PAGE_WIDTH)
            &&& mb[3] == PDFElem::Int(PAGE_HEIGHT)
        }
        &&& d[4].key@ == "Contents"@
        &&& d[4].value == PDFElem::Ref((4 + n + i) as i64)
    }
}

/// Content-stream object `i` of `n`: number 4+n+i, holding the page's
/// rendered stream bytes.
pub open spec fn spec_is_content(o: PDFObj, i: int, n: int, lines: Seq<Seq<char>>) -> bool {
    &&& o.n == 4 + n + i
    &&& o.elem is Stream
    &&& o.elem->Stream_0@ == spec_page_stream(lines)
}

/// The document built for the given pages: version 1.7, catalog number 1,
/// the three fixed objects, then one page object and one content stream per
/// page, in numeric order.
pub open spec fn spec_built_pdf(texts: Seq<Seq<Seq<char>>>, f: PDFFile) -> bool {
    let n = texts.len() as int;
    &&& f.version == (1u32, 7u32)
    &&& f.catalog_number == 1
    &&& f.objlist@.len() == 3 + 2 * n
    &&& spec_is_catalog(f.objlist@[0])
    &&& spec_is_page_tree(f.objlist@[1], n)
    &&& spec_is_font(f.objlist@[2])
    &&& forall|i: int| 0 <= i < n ==> spec_is_page(#[trigger] f.objlist@[3 + i], i, n)
    &&& forall|i: int|
        0 <= i < n ==> spec_is_content(#[trigger] f.objlist@[3 + n + i], i, n, texts[i])
}

/// The content stream of one page's lines.
fn build_page_stream(page: &Vec<String>) -> (r: Vec<u8>)
    ensures
        r@ == spec_page_stream(page.deep_view()),
{
    let mut s: Vec<u8> = Vec::new();
    push_lit(&mut s, "1. 0. 0. 1. 50. 770. cm\nBT\n/F0 12 Tf\n16 TL\n");
    let mut j: usize = 0;
    while j < page.len()
        invariant
            j <= page@.len(),
            s@ == spec_content_preamble() + spec_content_lines(page.deep_view().take(j as int)),
        decreases page@.len() - j,
    {
        push_lit(&mut s, "(");
        let mut esc = escape_string_bytes(page[j].as_str().as_bytes());
        s.append(&mut esc);
        push_lit(&mut s, ") Tj T*\n");
        proof {
            let tv = page.deep_view();
            assert(tv.take(j + 1).drop_last() =~= tv.take(j as int));
            assert(tv.take(j + 1).last() == tv[j as int]);
            assert(tv[j as int] == page@[j as int]@);
        }
        j = j + 1;
    }
    push_lit(&mut s, "ET");
    proof {
        assert(page.deep_view().take(page@.len() as int) =~= page.deep_view());
        assert(s@ =~= spec_page_stream(page.deep_view()));
    }
    s
}

/// The full document for the given pages of text lines. Pages arrive
/// already chunked to the caller's capacity; zero pages and empty pages are
/// both taken as they are.
pub fn text_to_pdf(texts: Vec<Vec<String>>) -> (r: PDFFile)
    requires
        2 * texts@.len() + 4 <= usize::MAX,
        2 * texts@.len() + 4 <= i64::MAX,
    ensures
        spec_built_pdf(texts.deep_view(), r),
        r.objlist@.len() == 3 + 2 * texts@.len(),
{
    let n = texts.len();
    let ghost tv = texts.deep_view();

    let mut cat_dict: Vec<Dict> = Vec::new();
    cat_dict.push(new_dict("Type", PDFElem::Name("Catalog".to_owned())));
    cat_dict.push(new_dict("Pages", PDFElem::Ref(2)));
    let catalog = PDFObj { n: 1, elem: PDFElem::Dict(cat_dict) };
    proof {
        assert(spec_is_catalog(catalog));
    }

    let mut kids: Vec<PDFElem> = Vec::new();
    let mut i: usize = 0;
    while i < n
        invariant
            i <= n,
            n == texts@.len(),
            2 * n + 4 <= usize::MAX,
            2 * n + 4 <= i64::MAX,
            kids@.len() == i as int,
            forall|j: int| 0 <= j < i ==> #[trigger] kids@[j] == PDFElem::Ref((4 + j) as i64),
        decreases n - i,
    {
        kids.push(PDFElem::Ref((4 + i) as i64));
        i = i + 1;
    }
    let mut tree_dict: Vec<Dict> = Vec::new();
    tree_dict.push(new_dict("Type", PDFElem::Name("Pages".to_owned())));
    tree_dict.push(new_dict("Kids", PDFElem::Array(kids)));
    tree_dict.push(new_dict("Count", PDFElem::Int(n as i64)));
    let top_page = PDFObj { n: 2, elem: PDFElem::Dict(tree_dict) };
    proof {
        assert(spec_is_page_tree(top_page, n as int));
    }

    let mut font_dict_f0: Vec<Dict> = Vec::new();
    font_dict_f0.push(new_dict("Type", PDFElem::Name("Font".to_owned())));
    font_dict_f0.push(new_dict("BaseFont", PDFElem::Name("Times-Roman".to_owned())));
    font_dict_f0.push(new_dict("Subtype", PDFElem::Name("Type1".to_owned())));
    let mut font_dict: Vec<Dict> = Vec::new();
    font_dict.push(new_dict("F0", PDFElem::Dict(font_dict_f0)));
    let mut font_outer: Vec<Dict> = Vec::new();
    font_outer.push(new_dict("Font", PDFElem::Dict(font_dict)));
    let font = PDFObj { n: 3, elem: PDFElem::Dict(font_outer) };
    proof {
        assert(spec_is_font(font));
    }

    let mut pages: Vec<PDFObj> = Vec::new();
    let mut i: usize = 0;
    while i < n
        invariant
            i <= n,
            n == texts@.len(),
            2 * n + 4 <= usize::MAX,
            2 * n + 4 <= i64::MAX,
            pages@.len() == i as int,
            forall|j: int| 0 <= j < i ==> spec_is_page(#[trigger] pages@[j], j, n as int),
        decreases n - i,
    {
        let mut mb: Vec<PDFElem> = Vec::new();
        mb.push(PDFElem::Int(0));
        mb.push(PDFElem::Int(0));
        mb.push(PDFElem::Int(PAGE_WIDTH));
        mb.push(PDFElem::Int(PAGE_HEIGHT));
        let mut d: Vec<Dict> = Vec::new();
        d.push(new_dict("Type", PDFElem::Name("Page".to_owned())));
        d.push(new_dict("Parent", PDFElem::Ref(2)));
        d.push(new_dict("Resources", PDFElem::Ref(3)));
        d.push(new_dict("MediaBox", PDFElem::Array(mb)));
        d.push(new_dict("Contents", PDFElem::Ref((4 + n + i) as i64)));
        let page_obj = PDFObj { n: (4 + i) as i64, elem: PDFElem::Dict(d) };
        proof {
            assert(spec_is_page(page_obj, i as int, n as int));
        }
        pages.push(page_obj);
        i = i + 1;
    }

    let mut contents: Vec<PDFObj> = Vec::new();
    let mut i: usize = 0;
    while i < n
        invariant
            i <= n,
            n == texts@.len(),
            tv == texts.deep_view(),
            2 * n + 4 <= usize::MAX,
            2 * n + 4 <= i64::MAX,
            contents@.len() == i as int,
            forall|j: int|
                0 <= j < i ==> spec_is_content(#[trigger] contents@[j], j, n as int, tv[j]),
        decreases n - i,
    {
        let stream_bytes = build_page_stream(&texts[i]);
        let content_obj = PDFObj { n: (4 + n + i) as i64, elem: PDFElem::Stream(stream_bytes) };
        proof {
            assert(tv[i as int] == texts@[i as int].deep_view());
            assert(spec_is_content(content_obj, i as int, n as int, tv[i as int]));
        }
        contents.push(content_obj);
        i = i + 1;
    }

    let mut objlist: Vec<PDFObj> = Vec::new();
    objlist.push(catalog);
    objlist.push(top_page);
    objlist.push(font);
    let ghost pages_seq = pages@;
    let ghost contents_seq = contents@;
    objlist.append(&mut pages);
    objlist.append(&mut contents);
    let file = PDFFile { version: (1, 7), catalog_number: 1, objlist };
    proof {
        let fl = file.objlist@;
        assert(fl.len() == 3 + 2 * (n as int));
        assert(forall|j: int| 0 <= j < n ==> #[trigger] fl[3 + j] == pages_seq[j]);
        assert(forall|j: int| 0 <= j < n ==> #[trigger] fl[3 + n + j] == contents_seq[j]);
        assert(spec_built_pdf(tv, file));
    }
    file
}

} // verus!
