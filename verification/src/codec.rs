//! The byte form of a document, which is what gets sealed: the id, then the
//! title and the content, each as its length in bytes and its UTF-8 text, all
//! integers as eight big-endian bytes.

use crate::bytes::{be64, be64_at, get_be64, lemma_be64_at_window, lemma_be64_round_trip, put_be64};
use crate::index::{Document, DocumentView};
use vstd::prelude::*;
use vstd::slice::{slice_subrange, slice_to_vec};
use vstd::utf8::{decode_utf8, encode_utf8, encode_utf8_decode_utf8, encode_utf8_valid_utf8, valid_utf8};

verus! {

/// Bytes of a document's byte form that are not text.
pub const HEADER_LEN: usize = 24;

/// The byte form of a document.
pub open spec fn document_bytes(d: DocumentView) -> Seq<u8> {
    be64(d.id) + be64(encode_utf8(d.title).len() as u64) + encode_utf8(d.title) + be64(
        encode_utf8(d.content).len() as u64,
    ) + encode_utf8(d.content)
}

/// The document that `bytes` is the byte form of, if it is one.
pub open spec fn parse_document(bytes: Seq<u8>) -> Option<DocumentView> {
    if bytes.len() < HEADER_LEN {
        None
    } else {
        let title_len = be64_at(bytes, 8) as int;
        if bytes.len() < HEADER_LEN + title_len {
            None
        } else {
            let content_len = be64_at(bytes, 16 + title_len) as int;
            let title = bytes.subrange(16, 16 + title_len);
            let content = bytes.subrange(24 + title_len, bytes.len() as int);
            if bytes.len() != HEADER_LEN + title_len + content_len || !valid_utf8(title)
                || !valid_utf8(content) {
                None
            } else {
                Some(
                    DocumentView {
                        id: be64_at(bytes, 0),
                        title: decode_utf8(title),
                        content: decode_utf8(content),
                    },
                )
            }
        }
    }
}

/// The byte form of a document is parsed back to the same document, provided
/// the two texts are short enough for their lengths to be written down.
pub proof fn lemma_document_round_trip(d: DocumentView)
    requires
        encode_utf8(d.title).len() <= u64::MAX,
        encode_utf8(d.content).len() <= u64::MAX,
    ensures
        document_bytes(d).len() == HEADER_LEN + encode_utf8(d.title).len() + encode_utf8(
            d.content,
        ).len(),
        parse_document(document_bytes(d)) == Some(d),
{
    let t = encode_utf8(d.title);
    let c = encode_utf8(d.content);
    let tl = t.len() as u64;
    let cl = c.len() as u64;
    let b = document_bytes(d);
    lemma_be64_round_trip(d.id);
    lemma_be64_round_trip(tl);
    lemma_be64_round_trip(cl);
    assert(b.len() == 24 + t.len() + c.len());
    assert(b.subrange(0, 8) =~= be64(d.id));
    assert(b.subrange(8, 16) =~= be64(tl));
    lemma_be64_at_window(b, 0, be64(d.id));
    lemma_be64_at_window(b, 8, be64(tl));
    let n: int = t.len() as int;
    let off: int = 16 + n;
    assert(b.subrange(off, off + 8) =~= be64(cl));
    lemma_be64_at_window(b, off, be64(cl));
    assert(b.subrange(16, 16 + n) =~= t);
    assert(b.subrange(24 + n, b.len() as int) =~= c);
    encode_utf8_valid_utf8(d.title);
    encode_utf8_valid_utf8(d.content);
    encode_utf8_decode_utf8(d.title);
    encode_utf8_decode_utf8(d.content);
}

/// Calls `String::from_utf8` of std and drops the error's detail. Trusted:
/// the call succeeds on exactly the valid UTF-8 byte strings, and the string
/// is then the text that the bytes encode.
#[verifier::external_body]
fn string_from_utf8(bytes: Vec<u8>) -> (out: Option<String>)
    ensures
        out is Some <==> valid_utf8(bytes@),
        out is Some ==> out->0@ == decode_utf8(bytes@),
{
    String::from_utf8(bytes).ok()
}

/// Writes a document in its byte form.
pub fn encode_document(document: &Document) -> (out: Vec<u8>)
    ensures
        out@ == document_bytes(document@),
        out@.len() == HEADER_LEN + encode_utf8(document.title@).len() + encode_utf8(
            document.content@,
        ).len(),
        parse_document(out@) == Some(document@),
{
    let title = document.title.as_str().as_bytes();
    let content = document.content.as_str().as_bytes();
    let mut out: Vec<u8> = Vec::new();
    put_be64(&mut out, document.id);
    put_be64(&mut out, title.len() as u64);
    out.extend_from_slice(title);
    put_be64(&mut out, content.len() as u64);
    out.extend_from_slice(content);
    proof {
        lemma_document_round_trip(document@);
    }
    out
}

/// Reads a document from its byte form; `None` where `bytes` is not the byte
/// form of any document.
pub fn decode_document(bytes: &[u8]) -> (out: Option<Document>)
    ensures
        match out {
            Some(d) => parse_document(bytes@) == Some(d@),
            None => parse_document(bytes@) is None,
        },
{
    if bytes.len() < HEADER_LEN {
        return None;
    }
    let id = get_be64(bytes, 0);
    let title_len = get_be64(bytes, 8);
    if title_len > (bytes.len() - HEADER_LEN) as u64 {
        return None;
    }
    let title_end: usize = 16 + title_len as usize;
    let content_len = get_be64(bytes, title_end);
    if content_len != (bytes.len() - title_end - 8) as u64 {
        return None;
    }
    let title = string_from_utf8(slice_to_vec(slice_subrange(bytes, 16, title_end)));
    let content = string_from_utf8(slice_to_vec(slice_subrange(bytes, title_end + 8, bytes.len())));
    match (title, content) {
        (Some(title), Some(content)) => Some(Document { id, title, content }),
        _ => None,
    }
}

} // verus!
