//! The PDF value model and its textual rendering.
//!
//! A `PDFElem` is any value storable in a PDF object: null, a boolean, an
//! integer, a literal string, a name, an indirect reference, an array, a
//! dictionary, or a raw byte stream. `render_elem` turns one into the exact
//! bytes the file format asks for.

use vstd::prelude::*;
use vstd::utf8::encode_utf8;
use crate::escape::escape_name_bytes;
use crate::escape::escape_string_bytes;
use crate::escape::spec_escape_name;
use crate::escape::spec_escape_string;
use crate::num::render_i64;
use crate::num::render_usize;
use crate::num::spec_dec;
use crate::num::spec_render_int;

verus! {

/// A value storable in a PDF object. A dictionary's entries render in the
/// order supplied; a stream's bytes pass through verbatim, with `/Length`
/// computed from their count.
#[derive(Debug)]
pub enum PDFElem {
    Null,
    Bool(bool),
    Int(i64),
    String(String),
    Name(String),
    Ref(i64),
    Array(Vec<PDFElem>),
    Dict(Vec<Dict>),
    Stream(Vec<u8>),
}

/// One key–value entry of a dictionary.
#[derive(Debug)]
pub struct Dict {
    pub key: String,
    pub value: PDFElem,
}

pub fn new_dict(key: &str, value: PDFElem) -> (r: Dict)
    ensures
        r.key@ == key@,
        r.value == value,
{
    Dict { key: key.to_owned(), value }
}

/// The bytes `render_elem` produces for `e`.
pub open spec fn spec_render_elem(e: PDFElem) -> Seq<u8>
    decreases e,
{
    match e {
        PDFElem::Null => encode_utf8("null"@),
        PDFElem::Bool(b) => if b {
            encode_utf8("true"@)
        } else {
            encode_utf8("false"@)
        },
        PDFElem::Int(i) => spec_render_int(i as int),
        PDFElem::String(s) => encode_utf8("("@) + spec_escape_string(encode_utf8(s@)) + encode_utf8(
            ")"@,
        ),
        PDFElem::Name(s) => encode_utf8("/"@) + spec_escape_name(encode_utf8(s@)),
        PDFElem::Ref(n) => spec_render_int(n as int) + encode_utf8(" 0 R"@),
        PDFElem::Array(l) => encode_utf8("["@) + spec_render_array(l@) + encode_utf8("]"@),
        PDFElem::Dict(d) => encode_utf8("<<\n"@) + spec_render_entries(d@) + encode_utf8(">>"@),
        PDFElem::Stream(s) => encode_utf8("<<\n/Length "@) + spec_dec(s@.len()) + encode_utf8(
            "\n>>\nstream\n"@,
        ) + s@ + encode_utf8("\nendstream"@),
    }
}

/// An array's elements rendered and joined with single spaces.
pub open spec fn spec_render_array(l: Seq<PDFElem>) -> Seq<u8>
    decreases l,
{
    if l.len() == 0 {
        Seq::empty()
    } else {
        spec_render_elem(l[0]) + spec_render_array_rest(l.drop_first())
    }
}

/// The elements after an array's first one, each preceded by a space.
pub open spec fn spec_render_array_rest(l: Seq<PDFElem>) -> Seq<u8>
    decreases l,
{
    if l.len() == 0 {
        Seq::empty()
    } else {
        encode_utf8(" "@) + spec_render_elem(l[0]) + spec_render_array_rest(l.drop_first())
    }
}

/// A dictionary's entries, one `/<key> <value>` line each, in order.
pub open spec fn spec_render_entries(d: Seq<Dict>) -> Seq<u8>
    decreases d,
{
    if d.len() == 0 {
        Seq::empty()
    } else {
        encode_utf8("/"@) + encode_utf8(d[0].key@) + encode_utf8(" "@) + spec_render_elem(
            d[0].value,
        ) + encode_utf8("\n"@) + spec_render_entries(d.drop_first())
    }
}

/// Appending an element to an array's tail appends its space-led rendering.
pub proof fn lemma_render_array_rest_push(l: Seq<PDFElem>, x: PDFElem)
    ensures
        spec_render_array_rest(l.push(x)) == spec_render_array_rest(l) + encode_utf8(" "@)
            + spec_render_elem(x),
    decreases l.len(),
{
    if l.len() == 0 {
        assert(l.push(x)[0] == x);
        assert(l.push(x).drop_first() =~= Seq::<PDFElem>::empty());
        assert(spec_render_array_rest(l.push(x).drop_first()) =~= Seq::<u8>::empty());
        assert(spec_render_array_rest(l.push(x)) =~= spec_render_array_rest(l) + encode_utf8(" "@)
            + spec_render_elem(x));
    } else {
        assert(l.push(x)[0] == l[0]);
        assert(l.push(x).drop_first() =~= l.drop_first().push(x));
        lemma_render_array_rest_push(l.drop_first(), x);
        assert(spec_render_array_rest(l.push(x)) =~= spec_render_array_rest(l) + encode_utf8(" "@)
            + spec_render_elem(x));
    }
}

/// Appending an entry to a dictionary appends its rendered line.
pub proof fn lemma_render_entries_push(d: Seq<Dict>, x: Dict)
    ensures
        spec_render_entries(d.push(x)) == spec_render_entries(d) + (encode_utf8("/"@) + encode_utf8(
            x.key@,
        ) + encode_utf8(" "@) + spec_render_elem(x.value) + encode_utf8("\n"@)),
    decreases d.len(),
{
    if d.len() == 0 {
        assert(d.push(x)[0] == x);
        assert(d.push(x).drop_first() =~= Seq::<Dict>::empty());
        assert(spec_render_entries(d.push(x).drop_first()) =~= Seq::<u8>::empty());
        assert(spec_render_entries(d.push(x)) =~= spec_render_entries(d) + (encode_utf8("/"@)
            + encode_utf8(x.key@) + encode_utf8(" "@) + spec_render_elem(x.value) + encode_utf8(
            "\n"@,
        )));
    } else {
        assert(d.push(x)[0] == d[0]);
        assert(d.push(x).drop_first() =~= d.drop_first().push(x));
        lemma_render_entries_push(d.drop_first(), x);
        assert(spec_render_entries(d.push(x)) =~= spec_render_entries(d) + (encode_utf8("/"@)
            + encode_utf8(x.key@) + encode_utf8(" "@) + spec_render_elem(x.value) + encode_utf8(
            "\n"@,
        )));
    }
}

/// The UTF-8 bytes of a literal, appended to `v`.
pub fn push_lit(v: &mut Vec<u8>, s: &str)
    ensures
        final(v)@ == old(v)@ + encode_utf8(s@),
{
    v.extend_from_slice(s.as_bytes());
}

/// The exact textual PDF form of `e`: a pure, total encoding with no failure
/// conditions.
pub fn render_elem(e: &PDFElem) -> (r: Vec<u8>)
    ensures
        r@ == spec_render_elem(*e),
    decreases *e,
{
    match e {
        PDFElem::Null => {
            let mut r: Vec<u8> = Vec::new();
            push_lit(&mut r, "null");
            r
        },
        PDFElem::Bool(b) => {
            let mut r: Vec<u8> = Vec::new();
            if *b {
                push_lit(&mut r, "true");
            } else {
                push_lit(&mut r, "false");
            }
            r
        },
        PDFElem::Int(i) => render_i64(*i),
        PDFElem::String(s) => {
            let mut r: Vec<u8> = Vec::new();
            push_lit(&mut r, "(");
            let mut esc = escape_string_bytes(s.as_str().as_bytes());
            r.append(&mut esc);
            push_lit(&mut r, ")");
            r
        },
        PDFElem::Name(s) => {
            let mut r: Vec<u8> = Vec::new();
            push_lit(&mut r, "/");
            let mut esc = escape_name_bytes(s.as_str().as_bytes());
            r.append(&mut esc);
            r
        },
        PDFElem::Ref(n) => {
            let mut r = render_i64(*n);
            push_lit(&mut r, " 0 R");
            r
        },
        PDFElem::Array(l) => {
            let mut r: Vec<u8> = Vec::new();
            push_lit(&mut r, "[");
            if l.len() > 0 {
                proof {
                    assert(decreases_to!(*e => l@[0]));
                }
                let mut first = render_elem(&l[0]);
                r.append(&mut first);
                let mut i: usize = 1;
                while i < l.len()
                    invariant
                        1 <= i <= l@.len(),
                        spec_render_elem(*e) == encode_utf8("["@) + spec_render_array(l@)
                            + encode_utf8("]"@),
                        forall|j: int| 0 <= j < l@.len() ==> (decreases_to!(*e => l@[j])),
                        r@ == encode_utf8("["@) + spec_render_elem(l@[0])
                            + spec_render_array_rest(l@.subrange(1, i as int)),
                    decreases l@.len() - i,
                {
                    push_lit(&mut r, " ");
                    proof {
                        assert(decreases_to!(*e => l@[i as int]));
                    }
                    let mut next = render_elem(&l[i]);
                    r.append(&mut next);
                    proof {
                        assert(l@.subrange(1, i as int).push(l@[i as int]) =~= l@.subrange(
                            1,
                            i + 1,
                        ));
                        lemma_render_array_rest_push(l@.subrange(1, i as int), l@[i as int]);
                    }
                    i = i + 1;
                }
                proof {
                    assert(l@.subrange(1, l@.len() as int) =~= l@.drop_first());
                }
            }
            push_lit(&mut r, "]");
            proof {
                assert(r@ =~= spec_render_elem(*e));
            }
            r
        },
        PDFElem::Dict(d) => {
            let mut r: Vec<u8> = Vec::new();
            push_lit(&mut r, "<<\n");
            let mut i: usize = 0;
            while i < d.len()
                invariant
                    i <= d@.len(),
                    forall|j: int| 0 <= j < d@.len() ==> (decreases_to!(*e => d@[j].value)),
                    r@ == encode_utf8("<<\n"@) + spec_render_entries(d@.take(i as int)),
                decreases d@.len() - i,
            {
                push_lit(&mut r, "/");
                push_lit(&mut r, d[i].key.as_str());
                push_lit(&mut r, " ");
                proof {
                    assert(decreases_to!(*e => d@[i as int].value));
                }
                let mut val = render_elem(&d[i].value);
                r.append(&mut val);
                push_lit(&mut r, "\n");
                proof {
                    assert(d@.take(i as int).push(d@[i as int]) =~= d@.take(i + 1));
                    lemma_render_entries_push(d@.take(i as int), d@[i as int]);
                }
                i = i + 1;
            }
            push_lit(&mut r, ">>");
            proof {
                assert(d@.take(d@.len() as int) =~= d@);
                assert(r@ =~= spec_render_elem(*e));
            }
            r
        },
        PDFElem::Stream(s) => {
            let mut r: Vec<u8> = Vec::new();
            push_lit(&mut r, "<<\n/Length ");
            let mut len = render_usize(s.len());
            r.append(&mut len);
            push_lit(&mut r, "\n>>\nstream\n");
            let mut body = s.clone();
            r.append(&mut body);
            push_lit(&mut r, "\nendstream");
            proof {
                assert(r@ =~= spec_render_elem(*e));
            }
            r
        },
    }
}

} // verus!
