//! The cross-reference table and the trailer.
//!
//! A cross-reference row is a 10-digit zero-padded byte offset, a 5-digit
//! zero-padded generation, and a free/in-use flag. The trailer carries the
//! document's object count plus one as `/Size`, a reference to the catalog as
//! `/Root`, and the `startxref` byte offset.

use vstd::prelude::*;
use vstd::utf8::encode_utf8;
use crate::elem::new_dict;
use crate::elem::push_lit;
use crate::elem::render_elem;
use crate::elem::spec_render_elem;
use crate::elem::PDFElem;
use crate::num::render_usize;
use crate::num::render_zero_padded;
use crate::num::spec_dec;
use crate::num::spec_render_int;
use crate::num::spec_zero_pad;

verus! {

/// Whether a cross-reference row marks its object free or in use.
#[derive(Debug, Clone, Copy)]
pub enum PdfXrefEntryUse {
    FreeEntry,
    InUseEntry,
}

/// One cross-reference row: byte offset, generation, free/in-use flag.
#[derive(Debug, Clone, Copy)]
pub struct PDFXrefEntry {
    pub offset: usize,
    pub generation: u64,
    pub entry_use: PdfXrefEntryUse,
}

pub type PdfXref = Vec<PDFXrefEntry>;

/// The one-letter flag of a row: `f` for free, `n` for in use.
pub open spec fn spec_render_entry_use(u: PdfXrefEntryUse) -> Seq<u8> {
    match u {
        PdfXrefEntryUse::FreeEntry => encode_utf8("f"@),
        PdfXrefEntryUse::InUseEntry => encode_utf8("n"@),
    }
}

/// One cross-reference line: 10-digit offset, space, 5-digit generation,
/// space, flag, space, newline.
pub open spec fn spec_xref_entry_line(offset: nat, generation: nat, u: PdfXrefEntryUse) -> Seq<
    u8,
> {
    spec_zero_pad(offset, 10) + encode_utf8(" "@) + spec_zero_pad(generation, 5) + encode_utf8(" "@)
        + spec_render_entry_use(u) + encode_utf8(" \n"@)
}

/// The concatenated lines of a table's rows, in order.
pub open spec fn spec_xref_rows_bytes(entries: Seq<PDFXrefEntry>) -> Seq<u8>
    decreases entries.len(),
{
    if entries.len() == 0 {
        Seq::empty()
    } else {
        spec_xref_rows_bytes(entries.drop_last()) + spec_xref_entry_line(
            entries.last().offset as nat,
            entries.last().generation as nat,
            entries.last().entry_use,
        )
    }
}

/// The whole table: `xref`, the declared row count (one more than the rows
/// given, for the table's subsection header), then the rows.
pub open spec fn spec_render_xref(entries: Seq<PDFXrefEntry>) -> Seq<u8> {
    encode_utf8("xref\n0 "@) + spec_dec(entries.len() + 1) + encode_utf8("\n"@)
        + spec_xref_rows_bytes(entries)
}

pub fn render_xref_entry_use(u: PdfXrefEntryUse) -> (r: Vec<u8>)
    ensures
        r@ == spec_render_entry_use(u),
{
    let mut r: Vec<u8> = Vec::new();
    match u {
        PdfXrefEntryUse::FreeEntry => push_lit(&mut r, "f"),
        PdfXrefEntryUse::InUseEntry => push_lit(&mut r, "n"),
    }
    r
}

pub fn render_xref_entry(entry: PDFXrefEntry) -> (r: Vec<u8>)
    ensures
        r@ == spec_xref_entry_line(entry.offset as nat, entry.generation as nat, entry.entry_use),
{
    let mut r = render_zero_padded(entry.offset as u64, 10);
    push_lit(&mut r, " ");
    let mut gen = render_zero_padded(entry.generation, 5);
    r.append(&mut gen);
    push_lit(&mut r, " ");
    let mut flag = render_xref_entry_use(entry.entry_use);
    r.append(&mut flag);
    push_lit(&mut r, " \n");
    proof {
        assert(r@ =~= spec_xref_entry_line(
            entry.offset as nat,
            entry.generation as nat,
            entry.entry_use,
        ));
    }
    r
}

pub fn render_xref(xs: PdfXref) -> (r: Vec<u8>)
    requires
        xs@.len() < usize::MAX,
    ensures
        r@ == spec_render_xref(xs@),
{
    let mut r: Vec<u8> = Vec::new();
    push_lit(&mut r, "xref\n0 ");
    let mut count = render_usize(xs.len() + 1);
    r.append(&mut count);
    push_lit(&mut r, "\n");
    let ghost head = r@;
    let mut i: usize = 0;
    while i < xs.len()
        invariant
            i <= xs@.len(),
            r@ == head + spec_xref_rows_bytes(xs@.take(i as int)),
        decreases xs@.len() - i,
    {
        let mut line = render_xref_entry(xs[i]);
        r.append(&mut line);
        proof {
            assert(xs@.take(i + 1).drop_last() =~= xs@.take(i as int));
            assert(xs@.take(i + 1).last() == xs@[i as int]);
        }
        i = i + 1;
    }
    proof {
        assert(xs@.take(xs@.len() as int) =~= xs@);
        assert(r@ =~= spec_render_xref(xs@));
    }
    r
}

/// The trailer's state: root object number, declared size (object count plus
/// one), and the byte offset published as `startxref`.
#[derive(Debug, Clone, Copy)]
pub struct PdfTrailer {
    pub root: i64,
    pub size: i64,
    pub startxref: usize,
}

/// One rendered dictionary line, `/<key> <value>`, as the trailer uses it.
pub open spec fn spec_dict_line(key: Seq<char>, value: Seq<u8>) -> Seq<u8> {
    encode_utf8("/"@) + encode_utf8(key) + encode_utf8(" "@) + value + encode_utf8("\n"@)
}

/// The trailer block: the keyword, a two-entry dictionary with `/Size` and
/// `/Root`, then `startxref`, its offset, and the end-of-file marker.
pub open spec fn spec_render_trailer(root: int, size: int, startxref: nat) -> Seq<u8> {
    encode_utf8("trailer\n"@) + (encode_utf8("<<\n"@) + spec_dict_line(
        "Size"@,
        spec_render_int(size),
    ) + spec_dict_line("Root"@, spec_render_int(root) + encode_utf8(" 0 R"@)) + encode_utf8(">>"@))
        + encode_utf8("\nstartxref\n"@) + spec_dec(startxref) + encode_utf8("\n%%EOF\n"@)
}

pub fn render_trailer(trailer: PdfTrailer) -> (r: Vec<u8>)
    ensures
        r@ == spec_render_trailer(trailer.root as int, trailer.size as int, trailer.startxref as nat),
{
    let mut dict: Vec<crate::elem::Dict> = Vec::new();
    dict.push(new_dict("Size", PDFElem::Int(trailer.size)));
    dict.push(new_dict("Root", PDFElem::Ref(trailer.root)));
    let mut r: Vec<u8> = Vec::new();
    push_lit(&mut r, "trailer\n");
    let ghost dseq = dict@;
    let mut body = render_elem(&PDFElem::Dict(dict));
    r.append(&mut body);
    push_lit(&mut r, "\nstartxref\n");
    let mut off = render_usize(trailer.startxref);
    r.append(&mut off);
    push_lit(&mut r, "\n%%EOF\n");
    proof {
        assert(dseq.len() == 2);
        assert(dseq.drop_first() =~= seq![dseq[1]]);
        assert(dseq.drop_first().drop_first() =~= Seq::<crate::elem::Dict>::empty());
        assert(spec_render_elem(dseq[0].value) == spec_render_int(trailer.size as int));
        assert(spec_render_elem(dseq[1].value) == spec_render_int(trailer.root as int)
            + encode_utf8(" 0 R"@));
        assert(crate::elem::spec_render_entries(dseq.drop_first().drop_first())
            =~= Seq::<u8>::empty());
        assert(crate::elem::spec_render_entries(dseq.drop_first()) =~= spec_dict_line(
            "Root"@,
            spec_render_int(trailer.root as int) + encode_utf8(" 0 R"@),
        ));
        assert(crate::elem::spec_render_entries(dseq) =~= spec_dict_line(
            "Size"@,
            spec_render_int(trailer.size as int),
        ) + spec_dict_line("Root"@, spec_render_int(trailer.root as int) + encode_utf8(" 0 R"@)));
        assert(r@ =~= spec_render_trailer(
            trailer.root as int,
            trailer.size as int,
            trailer.startxref as nat,
        ));
    }
    r
}

} // verus!
