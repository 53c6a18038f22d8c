//! Numbered objects, the file header, and the whole-document encoder.
//!
//! `render_pdf` concatenates the header, every object in list order, the
//! cross-reference table and the trailer. Offsets are a running total of the
//! header's length plus the lengths of the objects already rendered, so the
//! table's entry for an object records the byte at which that object begins.
//! The table carries one in-use row per object except the last rendered one,
//! whose start offset is published as `startxref` instead.

use vstd::prelude::*;
use vstd::utf8::encode_utf8;
use crate::elem::push_lit;
use crate::elem::render_elem;
use crate::elem::spec_render_elem;
use crate::elem::PDFElem;
use crate::num::render_i64;
use crate::num::render_u32;
use crate::num::spec_dec;
use crate::num::spec_render_int;
use crate::xref::render_trailer;
use crate::xref::render_xref;
use crate::xref::spec_render_trailer;
use crate::xref::spec_xref_entry_line;
use crate::xref::spec_xref_rows_bytes;
use crate::xref::PDFXrefEntry;
use crate::xref::PdfTrailer;
use crate::xref::PdfXrefEntryUse;

verus! {

/// An indirect object: a 1-based object number paired with its value.
#[derive(Debug)]
pub struct PDFObj {
    pub n: i64,
    pub elem: PDFElem,
}

/// The bytes of one object: `<n> 0 obj`, the value, `endobj`.
pub open spec fn spec_render_obj(o: PDFObj) -> Seq<u8> {
    spec_render_int(o.n as int) + encode_utf8(" 0 obj\n"@) + spec_render_elem(o.elem)
        + encode_utf8("\nendobj\n"@)
}

pub fn render_obj(obj: &PDFObj) -> (r: Vec<u8>)
    ensures
        r@ == spec_render_obj(*obj),
{
    let mut r = render_i64(obj.n);
    push_lit(&mut r, " 0 obj\n");
    let mut body = render_elem(&obj.elem);
    r.append(&mut body);
    push_lit(&mut r, "\nendobj\n");
    proof {
        assert(r@ =~= spec_render_obj(*obj));
    }
    r
}

/// The four high-bit marker bytes on the header's second line, emitted raw
/// so that transports treat the file as binary.
pub open spec fn spec_marker_bytes() -> Seq<u8> {
    seq![0xe2u8, 0xe3u8, 0xcfu8, 0xd3u8]
}

/// The file header: `%PDF-<major>.<minor>`, then a comment line holding the
/// binary marker bytes.
pub open spec fn spec_render_header(major: u32, minor: u32) -> Seq<u8> {
    encode_utf8("%PDF-"@) + spec_dec(major as nat) + encode_utf8("."@) + spec_dec(minor as nat)
        + encode_utf8("\n%"@) + spec_marker_bytes() + encode_utf8("\n"@)
}

pub fn render_header(n: u32, m: u32) -> (r: Vec<u8>)
    ensures
        r@ == spec_render_header(n, m),
{
    let mut r: Vec<u8> = Vec::new();
    push_lit(&mut r, "%PDF-");
    let mut major = render_u32(n);
    r.append(&mut major);
    push_lit(&mut r, ".");
    let mut minor = render_u32(m);
    r.append(&mut minor);
    push_lit(&mut r, "\n%");
    r.push(0xe2);
    r.push(0xe3);
    r.push(0xcf);
    r.push(0xd3);
    push_lit(&mut r, "\n");
    proof {
        assert(r@ =~= spec_render_header(n, m));
    }
    r
}

/// The whole document: version pair, catalog object number, and the objects
/// in numeric order.
#[derive(Debug)]
pub struct PDFFile {
    pub version: (u32, u32),
    pub catalog_number: i64,
    pub objlist: Vec<PDFObj>,
}

/// The rendered objects of a list, concatenated in order.
pub open spec fn spec_objs_bytes(objs: Seq<PDFObj>) -> Seq<u8>
    decreases objs.len(),
{
    if objs.len() == 0 {
        Seq::empty()
    } else {
        spec_objs_bytes(objs.drop_last()) + spec_render_obj(objs.last())
    }
}

/// The byte offset at which object `i` begins in the rendered document: the
/// header's length plus the lengths of all objects rendered before it.
pub open spec fn spec_obj_offset(f: PDFFile, i: int) -> int {
    spec_render_header(f.version.0, f.version.1).len() + spec_objs_bytes(
        f.objlist@.take(i),
    ).len() as int
}

/// The cross-reference line of object `i`: its start offset, generation 0,
/// in use.
pub open spec fn spec_xref_line_at(f: PDFFile, i: int) -> Seq<u8> {
    spec_xref_entry_line(spec_obj_offset(f, i) as nat, 0, PdfXrefEntryUse::InUseEntry)
}

/// The first `k` in-use cross-reference lines, in object order.
pub open spec fn spec_xref_lines(f: PDFFile, k: int) -> Seq<u8>
    decreases k,
{
    if k <= 0 {
        Seq::empty()
    } else {
        spec_xref_lines(f, k - 1) + spec_xref_line_at(f, k - 1)
    }
}

/// How many rows the document's table holds: the free head entry, then one
/// per object except the last rendered one.
pub open spec fn spec_pdf_xref_row_count(f: PDFFile) -> int {
    1 + if f.objlist@.len() >= 1 {
        f.objlist@.len() - 1
    } else {
        0
    }
}

/// The rows of the document's table.
pub open spec fn spec_pdf_xref_rows(f: PDFFile) -> Seq<u8> {
    spec_xref_entry_line(0, 65535, PdfXrefEntryUse::FreeEntry) + spec_xref_lines(
        f,
        f.objlist@.len() - 1,
    )
}

/// The `/Size` the trailer declares: the object count plus one, counting the
/// implicit free head entry.
pub open spec fn spec_pdf_size(f: PDFFile) -> int {
    f.objlist@.len() + 1 as int
}

/// The byte offset published as `startxref`: where the last rendered object
/// begins.
pub open spec fn spec_pdf_startxref(f: PDFFile) -> int {
    if f.objlist@.len() >= 1 {
        spec_obj_offset(f, f.objlist@.len() - 1)
    } else {
        spec_render_header(f.version.0, f.version.1).len() as int
    }
}

/// The bytes of the whole document: header, objects in order, the
/// cross-reference table, the trailer.
pub open spec fn spec_render_pdf(f: PDFFile) -> Seq<u8> {
    spec_render_header(f.version.0, f.version.1) + spec_objs_bytes(f.objlist@) + (encode_utf8(
        "xref\n0 "@,
    ) + spec_dec((spec_pdf_xref_row_count(f) + 1) as nat) + encode_utf8("\n"@) + spec_pdf_xref_rows(
        f,
    )) + spec_render_trailer(
        f.catalog_number as int,
        spec_pdf_size(f),
        spec_pdf_startxref(f) as nat,
    )
}

/// Law: `/Size` in the trailer and the count the table's subsection header
/// declares both equal the object count plus one, the free head entry
/// included.
pub proof fn lemma_object_count_invariant(f: PDFFile)
    requires
        f.objlist@.len() >= 1,
    ensures
        spec_pdf_size(f) == f.objlist@.len() + 1,
        spec_pdf_xref_row_count(f) + 1 == f.objlist@.len() + 1,
{
}

/// Rendering is a function of the document value alone, so rendering the
/// same `PDFFile` twice yields byte-identical output.
pub proof fn lemma_render_pdf_deterministic(f: PDFFile, r1: Seq<u8>, r2: Seq<u8>)
    requires
        r1 == spec_render_pdf(f),
        r2 == spec_render_pdf(f),
    ensures
        r1 == r2,
{
}

/// A prefix of the object list renders to a prefix of the objects' bytes.
proof fn lemma_objs_bytes_prefix(objs: Seq<PDFObj>, k: int)
    requires
        0 <= k <= objs.len(),
    ensures
        spec_objs_bytes(objs.take(k)).len() <= spec_objs_bytes(objs).len(),
        spec_objs_bytes(objs).subrange(0, spec_objs_bytes(objs.take(k)).len() as int)
            == spec_objs_bytes(objs.take(k)),
    decreases objs.len() - k,
{
    if k == objs.len() {
        assert(objs.take(k) =~= objs);
        assert(spec_objs_bytes(objs).subrange(0, spec_objs_bytes(objs).len() as int)
            =~= spec_objs_bytes(objs));
    } else {
        lemma_objs_bytes_prefix(objs, k + 1);
        assert(objs.take(k + 1).drop_last() =~= objs.take(k));
        assert(objs.take(k + 1).last() == objs[k]);
        let b = spec_objs_bytes(objs);
        let bk = spec_objs_bytes(objs.take(k));
        let bk1 = spec_objs_bytes(objs.take(k + 1));
        assert(bk1 == bk + spec_render_obj(objs[k]));
        assert(b.subrange(0, bk.len() as int) =~= bk1.subrange(0, bk.len() as int));
        assert(bk1.subrange(0, bk.len() as int) =~= bk);
    }
}

/// Law: the byte offset recorded for object `i` lands exactly on the first
/// byte of its `<n> 0 obj` line: the document's bytes from that offset on
/// begin with the object's rendering, which itself begins with the object
/// number. This holds for every object; the table records the offsets of all
/// but the last rendered object, whose offset `startxref` publishes instead.
pub proof fn lemma_xref_offset_correct(f: PDFFile, i: int)
    requires
        f.objlist@.len() >= 1,
        0 <= i < f.objlist@.len(),
    ensures
        spec_obj_offset(f, i) + spec_render_obj(f.objlist@[i]).len() <= spec_render_pdf(f).len(),
        spec_render_pdf(f).subrange(
            spec_obj_offset(f, i),
            spec_obj_offset(f, i) + spec_render_obj(f.objlist@[i]).len() as int,
        ) == spec_render_obj(f.objlist@[i]),
        spec_render_obj(f.objlist@[i]) == spec_render_int(f.objlist@[i].n as int) + encode_utf8(
            " 0 obj\n"@,
        ) + spec_render_elem(f.objlist@[i].elem) + encode_utf8("\nendobj\n"@),
{
    let objs = f.objlist@;
    let header = spec_render_header(f.version.0, f.version.1);
    let body = spec_objs_bytes(objs);
    lemma_objs_bytes_prefix(objs, i);
    lemma_objs_bytes_prefix(objs, i + 1);
    assert(objs.take(i + 1).drop_last() =~= objs.take(i));
    assert(objs.take(i + 1).last() == objs[i]);
    let bk = spec_objs_bytes(objs.take(i));
    let ob = spec_render_obj(objs[i]);
    assert(spec_objs_bytes(objs.take(i + 1)) == bk + ob);
    assert(body.subrange(bk.len() as int, bk.len() + ob.len() as int) =~= ob) by {
        assert(body.subrange(0, bk.len() + ob.len() as int) == bk + ob);
        assert(forall|j: int|
            0 <= j < ob.len() ==> body[bk.len() + j] == #[trigger] (bk + ob)[bk.len() + j]);
        assert(forall|j: int| 0 <= j < ob.len() ==> (bk + ob)[bk.len() + j] == #[trigger] ob[j]);
    }
    let doc = spec_render_pdf(f);
    let off = spec_obj_offset(f, i);
    assert(off == header.len() + bk.len());
    assert(doc.subrange(off, off + ob.len() as int) =~= ob) by {
        assert(forall|j: int| 0 <= j < ob.len() ==> #[trigger] doc[off + j] == body[bk.len() + j]);
    }
}

/// The rows a document's cross-reference table is built from: the free head
/// entry, then in-use rows carrying the recorded object offsets.
proof fn lemma_rows_match(f: PDFFile, entries: Seq<PDFXrefEntry>, k: int)
    requires
        0 <= k,
        entries.len() == k + 1,
        entries[0].offset == 0,
        entries[0].generation == 65535,
        entries[0].entry_use is FreeEntry,
        forall|j: int|
            0 <= j < k ==> (#[trigger] entries[j + 1]).offset as int == spec_obj_offset(f, j)
                && entries[j + 1].generation == 0 && entries[j + 1].entry_use is InUseEntry,
    ensures
        spec_xref_rows_bytes(entries) == spec_xref_entry_line(0, 65535, PdfXrefEntryUse::FreeEntry)
            + spec_xref_lines(f, k),
    decreases k,
{
    if k == 0 {
        assert(entries.drop_last() =~= Seq::<PDFXrefEntry>::empty());
        assert(spec_xref_rows_bytes(entries.drop_last()) =~= Seq::<u8>::empty());
        assert(entries.last() == entries[0]);
        assert(spec_xref_lines(f, 0) =~= Seq::<u8>::empty());
        assert(spec_xref_entry_line(
            entries[0].offset as nat,
            entries[0].generation as nat,
            entries[0].entry_use,
        ) == spec_xref_entry_line(0, 65535, PdfXrefEntryUse::FreeEntry));
        assert(spec_xref_rows_bytes(entries) =~= spec_xref_entry_line(
            0,
            65535,
            PdfXrefEntryUse::FreeEntry,
        ) + spec_xref_lines(f, k));
    } else {
        assert(entries.drop_last()[0] == entries[0]);
        lemma_rows_match(f, entries.drop_last(), k - 1);
        assert(entries.last() == entries[k]);
        assert(spec_xref_entry_line(
            entries[k].offset as nat,
            entries[k].generation as nat,
            entries[k].entry_use,
        ) == spec_xref_line_at(f, k - 1));
        assert(spec_xref_rows_bytes(entries) =~= spec_xref_entry_line(
            0,
            65535,
            PdfXrefEntryUse::FreeEntry,
        ) + spec_xref_lines(f, k));
    }
}

/// The whole document as one byte vector: header, objects, table, trailer,
/// with every recorded offset computed from the bytes actually emitted.
#[verifier::rlimit(50)]
pub fn render_pdf(pdf_file: PDFFile) -> (r: Vec<u8>)
    requires
        pdf_file.objlist@.len() >= 1,
        pdf_file.objlist@.len() < usize::MAX,
        pdf_file.objlist@.len() + 1 <= i64::MAX,
    ensures
        r@ == spec_render_pdf(pdf_file),
{
    let mut doc = render_header(pdf_file.version.0, pdf_file.version.1);
    let ghost header = doc@;
    let mut offsets: Vec<usize> = Vec::new();
    let mut i: usize = 0;
    while i < pdf_file.objlist.len()
        invariant
            i <= pdf_file.objlist@.len(),
            header == spec_render_header(pdf_file.version.0, pdf_file.version.1),
            doc@ == header + spec_objs_bytes(pdf_file.objlist@.take(i as int)),
            offsets@.len() == i as int,
            forall|j: int|
                0 <= j < i ==> (#[trigger] offsets@[j]) as int == spec_obj_offset(pdf_file, j),
        decreases pdf_file.objlist@.len() - i,
    {
        offsets.push(doc.len());
        let mut ob = render_obj(&pdf_file.objlist[i]);
        doc.append(&mut ob);
        proof {
            assert(pdf_file.objlist@.take(i + 1).drop_last() =~= pdf_file.objlist@.take(i as int));
            assert(pdf_file.objlist@.take(i + 1).last() == pdf_file.objlist@[i as int]);
        }
        i = i + 1;
    }
    proof {
        assert(pdf_file.objlist@.take(pdf_file.objlist@.len() as int) =~= pdf_file.objlist@);
    }
    let n = pdf_file.objlist.len();
    let mut xs: Vec<PDFXrefEntry> = Vec::new();
    xs.push(
        PDFXrefEntry { offset: 0, generation: 65535, entry_use: PdfXrefEntryUse::FreeEntry },
    );
    let mut i: usize = 0;
    while i < n - 1
        invariant
            n == pdf_file.objlist@.len(),
            1 <= n,
            offsets@.len() == n as int,
            forall|j: int|
                0 <= j < n ==> (#[trigger] offsets@[j]) as int == spec_obj_offset(pdf_file, j),
            i <= n - 1,
            xs@.len() == i + 1,
            xs@[0].offset == 0 && xs@[0].generation == 65535 && xs@[0].entry_use is FreeEntry,
            forall|j: int|
                0 <= j < i ==> (#[trigger] xs@[j + 1]).offset == offsets@[j] && xs@[j
                    + 1].generation == 0 && xs@[j + 1].entry_use is InUseEntry,
        decreases n - 1 - i,
    {
        xs.push(
            PDFXrefEntry {
                offset: offsets[i],
                generation: 0,
                entry_use: PdfXrefEntryUse::InUseEntry,
            },
        );
        i = i + 1;
    }
    let startxref = offsets[n - 1];
    let ghost xsv = xs@;
    proof {
        lemma_rows_match(pdf_file, xsv, n - 1);
    }
    let mut xref_bytes = render_xref(xs);
    doc.append(&mut xref_bytes);
    let trailer_bytes_src = PdfTrailer {
        root: pdf_file.catalog_number,
        size: (n as i64) + 1,
        startxref,
    };
    let mut trailer_bytes = render_trailer(trailer_bytes_src);
    doc.append(&mut trailer_bytes);
    proof {
        assert(xsv.len() == n as int);
        assert(xsv.len() + 1 == (spec_pdf_xref_row_count(pdf_file) + 1) as nat);
        assert(spec_xref_rows_bytes(xsv) == spec_pdf_xref_rows(pdf_file));
        assert(startxref as int == spec_obj_offset(pdf_file, n - 1));
        assert(startxref as nat == spec_pdf_startxref(pdf_file) as nat);
        assert(((n as i64) + 1) as int == spec_pdf_size(pdf_file));
        assert(doc@ =~= spec_render_pdf(pdf_file));
    }
    doc
}

} // verus!
