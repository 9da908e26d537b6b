//! The persisted form of a [`VectorStore`]: a self-describing byte stream,
//! and the round trip between a store and its stream.
//!
//! The stream starts with a four-byte header, then holds the dimension, the
//! model tag, and the documents in insertion order. Every integer is eight
//! bytes little-endian; every text is its UTF-8 byte length followed by its
//! UTF-8 bytes; every embedding component is a sign byte followed by its
//! magnitude. Decoding revalidates everything it reads — lengths, UTF-8,
//! component range, and (at the store level) the dimension of every
//! embedding — since the stream may have been hand-edited or produced
//! elsewhere.

use vstd::prelude::*;
use vstd::bytes::{
    lemma_auto_spec_u64_to_from_le_bytes, spec_u64_from_le_bytes, spec_u64_to_le_bytes,
    u64_from_le_bytes, u64_to_le_bytes,
};
use vstd::slice::{slice_subrange, slice_to_vec};
use vstd::utf8::{
    decode_utf8, encode_utf8, encode_utf8_decode_utf8, encode_utf8_valid_utf8, valid_utf8,
};
use crate::error::{PersistenceFault, StoreError};
use crate::similarity::{bounded, COMPONENT_LIMIT, MAX_DIMENSION};
use crate::store::{StoredDocument, StoredDocumentView, VectorStore, VectorStoreView};

verus! {

/// The four header bytes every store stream begins with.
pub open spec fn header() -> Seq<u8> {
    seq![118u8, 115u8, 102u8, 49u8]
}

/// An integer, as eight little-endian bytes.
pub open spec fn enc_u64(x: u64) -> Seq<u8> {
    spec_u64_to_le_bytes(x)
}

/// A text, as its UTF-8 byte length then its UTF-8 bytes.
pub open spec fn enc_str(s: Seq<char>) -> Seq<u8> {
    enc_u64(encode_utf8(s).len() as u64) + encode_utf8(s)
}

/// An embedding component, as a sign byte (one for negative) then the
/// magnitude.
pub open spec fn enc_component(x: i64) -> Seq<u8> {
    if x < 0 {
        seq![1u8] + enc_u64((-(x as int)) as u64)
    } else {
        seq![0u8] + enc_u64(x as u64)
    }
}

/// The components of an embedding, in order.
pub open spec fn enc_components(s: Seq<i64>) -> Seq<u8>
    decreases s.len(),
{
    if s.len() == 0 {
        Seq::empty()
    } else {
        enc_component(s[0]) + enc_components(s.drop_first())
    }
}

/// One metadata pair: key then value.
pub open spec fn enc_pair(p: (Seq<char>, Seq<char>)) -> Seq<u8> {
    enc_str(p.0) + enc_str(p.1)
}

/// The metadata pairs of a document, in order.
pub open spec fn enc_pairs(s: Seq<(Seq<char>, Seq<char>)>) -> Seq<u8>
    decreases s.len(),
{
    if s.len() == 0 {
        Seq::empty()
    } else {
        enc_pair(s[0]) + enc_pairs(s.drop_first())
    }
}

/// One document: id, content, timestamp, counted metadata, counted embedding.
pub open spec fn enc_doc(d: StoredDocumentView) -> Seq<u8> {
    enc_str(d.id) + enc_str(d.content) + enc_u64(d.created_at) + enc_u64(d.metadata.len() as u64)
        + enc_pairs(d.metadata) + enc_u64(d.embedding.len() as u64) + enc_components(d.embedding)
}

/// The documents of a store, in insertion order.
pub open spec fn enc_docs(s: Seq<StoredDocumentView>) -> Seq<u8>
    decreases s.len(),
{
    if s.len() == 0 {
        Seq::empty()
    } else {
        enc_doc(s[0]) + enc_docs(s.drop_first())
    }
}

/// The whole stream of a store.
pub open spec fn spec_save(m: VectorStoreView) -> Seq<u8> {
    header() + enc_u64(m.dimension as u64) + enc_str(m.model_name) + enc_u64(
        m.documents.len() as u64,
    ) + enc_docs(m.documents)
}

/// A text whose UTF-8 byte length fits the length field.
pub open spec fn str_encodable(s: Seq<char>) -> bool {
    encode_utf8(s).len() < 0x1_0000_0000_0000_0000
}

/// A document every field of which fits the stream's counters and ranges.
pub open spec fn doc_encodable(d: StoredDocumentView) -> bool {
    &&& str_encodable(d.id)
    &&& str_encodable(d.content)
    &&& d.metadata.len() < 0x1_0000_0000_0000_0000
    &&& forall|i: int| 0 <= i < d.metadata.len() ==> str_encodable(
        (#[trigger] d.metadata[i]).0,
    ) && str_encodable(d.metadata[i].1)
    &&& d.embedding.len() < 0x1_0000_0000_0000_0000
    &&& bounded(d.embedding)
}

/// A store every part of which fits the stream's counters and ranges.
pub open spec fn store_encodable(m: VectorStoreView) -> bool {
    &&& 0 <= m.dimension < 0x1_0000_0000_0000_0000
    &&& str_encodable(m.model_name)
    &&& m.documents.len() < 0x1_0000_0000_0000_0000
    &&& forall|i: int| 0 <= i < m.documents.len() ==> doc_encodable(#[trigger] m.documents[i])
}

/// Read an integer: eight little-endian bytes.
pub open spec fn parse_u64(b: Seq<u8>) -> Option<(u64, Seq<u8>)> {
    if b.len() < 8 {
        None
    } else {
        Some((spec_u64_from_le_bytes(b.take(8)), b.skip(8)))
    }
}

/// Read a text: a byte length, then that many bytes of valid UTF-8.
pub open spec fn parse_str(b: Seq<u8>) -> Option<(Seq<char>, Seq<u8>)> {
    match parse_u64(b) {
        Some((l, r)) => if r.len() < l {
            None
        } else if valid_utf8(r.take(l as int)) {
            Some((decode_utf8(r.take(l as int)), r.skip(l as int)))
        } else {
            None
        },
        None => None,
    }
}

/// Read one embedding component: a sign byte, then a magnitude no larger than
/// [`COMPONENT_LIMIT`].
pub open spec fn parse_component(b: Seq<u8>) -> Option<(i64, Seq<u8>)> {
    if b.len() < 1 {
        None
    } else {
        let sign = b[0];
        match parse_u64(b.skip(1)) {
            Some((m, r)) => if m > COMPONENT_LIMIT as u64 {
                None
            } else if sign == 0 {
                Some((m as i64, r))
            } else if sign == 1 {
                Some(((-(m as int)) as i64, r))
            } else {
                None
            },
            None => None,
        }
    }
}

/// Read `n` embedding components.
pub open spec fn parse_components(b: Seq<u8>, n: nat) -> Option<(Seq<i64>, Seq<u8>)>
    decreases n,
{
    if n == 0 {
        Some((Seq::empty(), b))
    } else {
        match parse_component(b) {
            Some((x, r)) => match parse_components(r, (n - 1) as nat) {
                Some((tail, rest)) => Some((seq![x] + tail, rest)),
                None => None,
            },
            None => None,
        }
    }
}

/// Read one metadata pair: key then value.
pub open spec fn parse_pair(b: Seq<u8>) -> Option<((Seq<char>, Seq<char>), Seq<u8>)> {
    match parse_str(b) {
        Some((k, r)) => match parse_str(r) {
            Some((v, rest)) => Some(((k, v), rest)),
            None => None,
        },
        None => None,
    }
}

/// Read `n` metadata pairs.
pub open spec fn parse_pairs(b: Seq<u8>, n: nat) -> Option<(Seq<(Seq<char>, Seq<char>)>, Seq<u8>)>
    decreases n,
{
    if n == 0 {
        Some((Seq::empty(), b))
    } else {
        match parse_pair(b) {
            Some((p, r)) => match parse_pairs(r, (n - 1) as nat) {
                Some((tail, rest)) => Some((seq![p] + tail, rest)),
                None => None,
            },
            None => None,
        }
    }
}

/// Read one document.
pub open spec fn parse_doc(b: Seq<u8>) -> Option<(StoredDocumentView, Seq<u8>)> {
    match parse_str(b) {
        Some((id, b1)) => match parse_str(b1) {
            Some((content, b2)) => match parse_u64(b2) {
                Some((created_at, b3)) => match parse_u64(b3) {
                    Some((nmeta, b4)) => match parse_pairs(b4, nmeta as nat) {
                        Some((metadata, b5)) => match parse_u64(b5) {
                            Some((nemb, b6)) => match parse_components(b6, nemb as nat) {
                                Some((embedding, b7)) => Some(
                                    (
                                        StoredDocumentView {
                                            id,
                                            content,
                                            embedding,
                                            metadata,
                                            created_at,
                                        },
                                        b7,
                                    ),
                                ),
                                None => None,
                            },
                            None => None,
                        },
                        None => None,
                    },
                    None => None,
                },
                None => None,
            },
            None => None,
        },
        None => None,
    }
}

/// Read `n` documents.
pub open spec fn parse_docs(b: Seq<u8>, n: nat) -> Option<(Seq<StoredDocumentView>, Seq<u8>)>
    decreases n,
{
    if n == 0 {
        Some((Seq::empty(), b))
    } else {
        match parse_doc(b) {
            Some((d, r)) => match parse_docs(r, (n - 1) as nat) {
                Some((tail, rest)) => Some((seq![d] + tail, rest)),
                None => None,
            },
            None => None,
        }
    }
}

/// Read a whole stream back into a store value: the header, the dimension,
/// the model tag, and exactly the promised documents, with nothing left over.
pub open spec fn spec_load(b: Seq<u8>) -> Option<VectorStoreView> {
    if b.len() < 4 || b.take(4) != header() {
        None
    } else {
        match parse_u64(b.skip(4)) {
            Some((dim, b1)) => match parse_str(b1) {
                Some((model_name, b2)) => match parse_u64(b2) {
                    Some((ndocs, b3)) => match parse_docs(b3, ndocs as nat) {
                        Some((documents, rest)) => if rest.len() == 0 {
                            Some(
                                VectorStoreView {
                                    documents,
                                    dimension: dim as int,
                                    model_name,
                                },
                            )
                        } else {
                            None
                        },
                        None => None,
                    },
                    None => None,
                },
                None => None,
            },
            None => None,
        }
    }
}

/// A loaded store value is acceptable: a dimension in range and every
/// embedding of exactly that dimension. (Component bounds are enforced by the
/// component parser itself.)
pub open spec fn load_valid(m: VectorStoreView) -> bool {
    &&& 0 < m.dimension <= MAX_DIMENSION as int
    &&& forall|i: int| 0 <= i < m.documents.len() ==> (#[trigger] m.documents[i]).embedding.len()
        == m.dimension
}

/// Reading an integer back from its encoding yields the integer and the rest.
pub proof fn lemma_parse_u64_round(x: u64, rest: Seq<u8>)
    ensures
        parse_u64(enc_u64(x) + rest) == Some((x, rest)),
{
    lemma_auto_spec_u64_to_from_le_bytes();
    assert((enc_u64(x) + rest).take(8) =~= enc_u64(x));
    assert((enc_u64(x) + rest).skip(8) =~= rest);
}

/// Reading a text back from its encoding yields the text and the rest.
pub proof fn lemma_parse_str_round(s: Seq<char>, rest: Seq<u8>)
    requires
        str_encodable(s),
    ensures
        parse_str(enc_str(s) + rest) == Some((s, rest)),
{
    let bytes = encode_utf8(s);
    let l = bytes.len() as u64;
    assert(enc_str(s) + rest =~= enc_u64(l) + (bytes + rest));
    lemma_parse_u64_round(l, bytes + rest);
    assert((bytes + rest).take(l as int) =~= bytes);
    assert((bytes + rest).skip(l as int) =~= rest);
    encode_utf8_valid_utf8(s);
    encode_utf8_decode_utf8(s);
}

/// Reading a component back from its encoding yields the component and the
/// rest.
pub proof fn lemma_parse_component_round(x: i64, rest: Seq<u8>)
    requires
        -COMPONENT_LIMIT <= x <= COMPONENT_LIMIT,
    ensures
        parse_component(enc_component(x) + rest) == Some((x, rest)),
{
    if x < 0 {
        let m = (-(x as int)) as u64;
        assert(enc_component(x) + rest =~= seq![1u8] + (enc_u64(m) + rest));
        assert((seq![1u8] + (enc_u64(m) + rest)).skip(1) =~= enc_u64(m) + rest);
        lemma_parse_u64_round(m, rest);
    } else {
        let m = x as u64;
        assert(enc_component(x) + rest =~= seq![0u8] + (enc_u64(m) + rest));
        assert((seq![0u8] + (enc_u64(m) + rest)).skip(1) =~= enc_u64(m) + rest);
        lemma_parse_u64_round(m, rest);
    }
}

/// Reading `s.len()` components back from their encoding yields them in
/// order, and the rest.
pub proof fn lemma_parse_components_round(s: Seq<i64>, rest: Seq<u8>)
    requires
        bounded(s),
    ensures
        parse_components(enc_components(s) + rest, s.len()) == Some((s, rest)),
    decreases s.len(),
{
    if s.len() == 0 {
        assert(enc_components(s) + rest =~= rest);
        assert(s =~= Seq::<i64>::empty());
    } else {
        let tail = s.drop_first();
        assert(bounded(tail)) by {
            assert(forall|i: int| 0 <= i < tail.len() ==> tail[i] == s[i + 1]);
        }
        assert(enc_components(s) + rest =~= enc_component(s[0]) + (enc_components(tail) + rest));
        lemma_parse_component_round(s[0], enc_components(tail) + rest);
        lemma_parse_components_round(tail, rest);
        assert(seq![s[0]] + tail =~= s);
    }
}

/// Reading a pair back from its encoding yields the pair and the rest.
pub proof fn lemma_parse_pair_round(p: (Seq<char>, Seq<char>), rest: Seq<u8>)
    requires
        str_encodable(p.0),
        str_encodable(p.1),
    ensures
        parse_pair(enc_pair(p) + rest) == Some((p, rest)),
{
    assert(enc_pair(p) + rest =~= enc_str(p.0) + (enc_str(p.1) + rest));
    lemma_parse_str_round(p.0, enc_str(p.1) + rest);
    lemma_parse_str_round(p.1, rest);
}

/// Reading `s.len()` pairs back from their encoding yields them in order, and
/// the rest.
pub proof fn lemma_parse_pairs_round(s: Seq<(Seq<char>, Seq<char>)>, rest: Seq<u8>)
    requires
        forall|i: int| 0 <= i < s.len() ==> str_encodable((#[trigger] s[i]).0) && str_encodable(
            s[i].1,
        ),
    ensures
        parse_pairs(enc_pairs(s) + rest, s.len()) == Some((s, rest)),
    decreases s.len(),
{
    if s.len() == 0 {
        assert(enc_pairs(s) + rest =~= rest);
        assert(s =~= Seq::<(Seq<char>, Seq<char>)>::empty());
    } else {
        let tail = s.drop_first();
        assert(enc_pairs(s) + rest =~= enc_pair(s[0]) + (enc_pairs(tail) + rest));
        lemma_parse_pair_round(s[0], enc_pairs(tail) + rest);
        assert(forall|i: int| 0 <= i < tail.len() ==> tail[i] == s[i + 1]);
        lemma_parse_pairs_round(tail, rest);
        assert(seq![s[0]] + tail =~= s);
    }
}

/// Reading a document back from its encoding yields the document and the
/// rest.
pub proof fn lemma_parse_doc_round(d: StoredDocumentView, rest: Seq<u8>)
    requires
        doc_encodable(d),
    ensures
        parse_doc(enc_doc(d) + rest) == Some((d, rest)),
{
    let t6 = enc_components(d.embedding) + rest;
    let t5 = enc_u64(d.embedding.len() as u64) + t6;
    let t4 = enc_pairs(d.metadata) + t5;
    let t3 = enc_u64(d.metadata.len() as u64) + t4;
    let t2 = enc_u64(d.created_at) + t3;
    let t1 = enc_str(d.content) + t2;
    assert(enc_doc(d) + rest =~= enc_str(d.id) + t1);
    lemma_parse_str_round(d.id, t1);
    assert(t1 =~= enc_str(d.content) + t2);
    lemma_parse_str_round(d.content, t2);
    lemma_parse_u64_round(d.created_at, t3);
    lemma_parse_u64_round(d.metadata.len() as u64, t4);
    lemma_parse_pairs_round(d.metadata, t5);
    lemma_parse_u64_round(d.embedding.len() as u64, t6);
    lemma_parse_components_round(d.embedding, rest);
}

/// Reading `s.len()` documents back from their encoding yields them in
/// order, and the rest.
pub proof fn lemma_parse_docs_round(s: Seq<StoredDocumentView>, rest: Seq<u8>)
    requires
        forall|i: int| 0 <= i < s.len() ==> doc_encodable(#[trigger] s[i]),
    ensures
        parse_docs(enc_docs(s) + rest, s.len()) == Some((s, rest)),
    decreases s.len(),
{
    if s.len() == 0 {
        assert(enc_docs(s) + rest =~= rest);
        assert(s =~= Seq::<StoredDocumentView>::empty());
    } else {
        let tail = s.drop_first();
        assert(enc_docs(s) + rest =~= enc_doc(s[0]) + (enc_docs(tail) + rest));
        lemma_parse_doc_round(s[0], enc_docs(tail) + rest);
        assert(forall|i: int| 0 <= i < tail.len() ==> tail[i] == s[i + 1]);
        lemma_parse_docs_round(tail, rest);
        assert(seq![s[0]] + tail =~= s);
    }
}

/// The round trip: a saved store loads back to exactly the same value — the
/// same dimension, the same model tag, and the same document sequence in the
/// same order.
pub proof fn lemma_save_load_round_trip(m: VectorStoreView)
    requires
        store_encodable(m),
    ensures
        spec_load(spec_save(m)) == Some(m),
{
    let b = spec_save(m);
    let t3 = enc_docs(m.documents);
    let t2 = enc_u64(m.documents.len() as u64) + t3;
    let t1 = enc_str(m.model_name) + t2;
    let t0 = enc_u64(m.dimension as u64) + t1;
    assert(b =~= header() + t0);
    assert(b.take(4) =~= header());
    assert(b.skip(4) =~= t0);
    lemma_parse_u64_round(m.dimension as u64, t1);
    lemma_parse_str_round(m.model_name, t2);
    lemma_parse_u64_round(m.documents.len() as u64, t3);
    assert(t3 =~= enc_docs(m.documents) + Seq::<u8>::empty());
    lemma_parse_docs_round(m.documents, Seq::<u8>::empty());
    assert(spec_load(b) == Some(
        VectorStoreView {
            documents: m.documents,
            dimension: m.dimension as u64 as int,
            model_name: m.model_name,
        },
    ));
}

/// Appending to a component encoding extends it at the end.
proof fn lemma_enc_components_push(s: Seq<i64>, x: i64)
    ensures
        enc_components(s.push(x)) == enc_components(s) + enc_component(x),
    decreases s.len(),
{
    if s.len() == 0 {
        assert(s.push(x)[0] == x);
        assert(s.push(x).drop_first() =~= s);
        assert(enc_components(s) =~= Seq::<u8>::empty());
        assert(enc_components(s.push(x)) =~= enc_components(s) + enc_component(x));
    } else {
        assert(s.push(x)[0] == s[0]);
        assert(s.push(x).drop_first() =~= s.drop_first().push(x));
        lemma_enc_components_push(s.drop_first(), x);
        assert(enc_components(s.push(x)) =~= enc_components(s) + enc_component(x));
    }
}

/// Appending to a pair encoding extends it at the end.
proof fn lemma_enc_pairs_push(s: Seq<(Seq<char>, Seq<char>)>, p: (Seq<char>, Seq<char>))
    ensures
        enc_pairs(s.push(p)) == enc_pairs(s) + enc_pair(p),
    decreases s.len(),
{
    if s.len() == 0 {
        assert(s.push(p)[0] == p);
        assert(s.push(p).drop_first() =~= s);
        assert(enc_pairs(s) =~= Seq::<u8>::empty());
        assert(enc_pairs(s.push(p)) =~= enc_pairs(s) + enc_pair(p));
    } else {
        assert(s.push(p)[0] == s[0]);
        assert(s.push(p).drop_first() =~= s.drop_first().push(p));
        lemma_enc_pairs_push(s.drop_first(), p);
        assert(enc_pairs(s.push(p)) =~= enc_pairs(s) + enc_pair(p));
    }
}

/// Appending to a document encoding extends it at the end.
proof fn lemma_enc_docs_push(s: Seq<StoredDocumentView>, d: StoredDocumentView)
    ensures
        enc_docs(s.push(d)) == enc_docs(s) + enc_doc(d),
    decreases s.len(),
{
    if s.len() == 0 {
        assert(s.push(d)[0] == d);
        assert(s.push(d).drop_first() =~= s);
        assert(enc_docs(s) =~= Seq::<u8>::empty());
        assert(enc_docs(s.push(d)) =~= enc_docs(s) + enc_doc(d));
    } else {
        assert(s.push(d)[0] == s[0]);
        assert(s.push(d).drop_first() =~= s.drop_first().push(d));
        lemma_enc_docs_push(s.drop_first(), d);
        assert(enc_docs(s.push(d)) =~= enc_docs(s) + enc_doc(d));
    }
}

/// Write an integer to the stream.
fn push_u64(out: &mut Vec<u8>, x: u64)
    ensures
        final(out)@ == old(out)@ + enc_u64(x),
{
    let mut b = u64_to_le_bytes(x);
    out.append(&mut b);
}

/// Write a text to the stream.
fn push_str(out: &mut Vec<u8>, s: &String)
    ensures
        final(out)@ == old(out)@ + enc_str(s@),
        str_encodable(s@),
{
    let bytes = s.as_str().as_bytes_vec();
    push_u64(out, bytes.len() as u64);
    let mut b = bytes;
    out.append(&mut b);
    proof {
        assert(final(out)@ =~= old(out)@ + enc_str(s@));
    }
}

/// Write one embedding component to the stream.
fn push_component(out: &mut Vec<u8>, x: i64)
    requires
        -COMPONENT_LIMIT <= x <= COMPONENT_LIMIT,
    ensures
        final(out)@ == old(out)@ + enc_component(x),
{
    if x < 0 {
        out.push(1u8);
        push_u64(out, (-x) as u64);
        proof {
            assert(final(out)@ =~= old(out)@ + enc_component(x));
        }
    } else {
        out.push(0u8);
        push_u64(out, x as u64);
        proof {
            assert(final(out)@ =~= old(out)@ + enc_component(x));
        }
    }
}

/// Write one document to the stream.
fn push_doc(out: &mut Vec<u8>, d: &StoredDocument)
    requires
        bounded(d.embedding@),
    ensures
        final(out)@ == old(out)@ + enc_doc(d@),
        doc_encodable(d@),
{
    push_str(out, &d.id);
    push_str(out, &d.content);
    push_u64(out, d.created_at);
    push_u64(out, d.metadata.len() as u64);
    let ghost mdv = d@.metadata;
    let ghost base = out@;
    let nmeta = d.metadata.len();
    let mut i: usize = 0;
    while i < nmeta
        invariant
            0 <= i <= nmeta,
            nmeta == d.metadata@.len(),
            mdv == d@.metadata,
            mdv.len() == nmeta as int,
            out@ == base + enc_pairs(mdv.take(i as int)),
            forall|j: int| 0 <= j < i as int ==> str_encodable((#[trigger] mdv[j]).0)
                && str_encodable(mdv[j].1),
        decreases nmeta - i,
    {
        let pair = &d.metadata[i];
        proof {
            assert(mdv[i as int] == (d.metadata@[i as int].0@, d.metadata@[i as int].1@));
        }
        push_str(out, &pair.0);
        push_str(out, &pair.1);
        proof {
            assert(mdv.take(i + 1) =~= mdv.take(i as int).push(mdv[i as int]));
            lemma_enc_pairs_push(mdv.take(i as int), mdv[i as int]);
            assert(out@ =~= base + enc_pairs(mdv.take(i + 1)));
        }
        i = i + 1;
    }
    proof {
        assert(mdv.take(nmeta as int) =~= mdv);
    }
    push_u64(out, d.embedding.len() as u64);
    let ghost ev = d@.embedding;
    let ghost base2 = out@;
    let nemb = d.embedding.len();
    let mut j: usize = 0;
    while j < nemb
        invariant
            0 <= j <= nemb,
            nemb == d.embedding@.len(),
            ev == d@.embedding,
            ev.len() == nemb as int,
            bounded(ev),
            out@ == base2 + enc_components(ev.take(j as int)),
        decreases nemb - j,
    {
        push_component(out, d.embedding[j]);
        proof {
            assert(ev.take(j + 1) =~= ev.take(j as int).push(ev[j as int]));
            lemma_enc_components_push(ev.take(j as int), ev[j as int]);
            assert(out@ =~= base2 + enc_components(ev.take(j + 1)));
        }
        j = j + 1;
    }
    proof {
        assert(ev.take(nemb as int) =~= ev);
        assert(final(out)@ =~= old(out)@ + enc_doc(d@));
    }
}

/// Serialize a whole store to its byte stream.
///
/// The result is exactly [`spec_save`] of the store's value, and that value
/// is encodable, so [`lemma_save_load_round_trip`] applies to it: loading the
/// stream yields the identical store value back.
pub fn save(st: &VectorStore) -> (out: Vec<u8>)
    requires
        st.wf(),
    ensures
        out@ == spec_save(st@),
        store_encodable(st@),
{
    let mut out: Vec<u8> = Vec::new();
    out.push(118u8);
    out.push(115u8);
    out.push(102u8);
    out.push(49u8);
    proof {
        assert(out@ =~= header());
    }
    push_u64(&mut out, st.dimension() as u64);
    push_str(&mut out, st.model_name());
    push_u64(&mut out, st.len() as u64);
    let ghost docs = st@.documents;
    let ghost base = out@;
    let n = st.len();
    let mut i: usize = 0;
    while i < n
        invariant
            0 <= i <= n,
            st.wf(),
            docs == st@.documents,
            docs.len() == n as int,
            out@ == base + enc_docs(docs.take(i as int)),
            forall|j: int| 0 <= j < i as int ==> doc_encodable(#[trigger] docs[j]),
        decreases n - i,
    {
        let d = st.document(i);
        proof {
            assert(bounded(st@.documents[i as int].embedding));
            assert(d@.embedding == d.embedding@);
        }
        push_doc(&mut out, d);
        proof {
            assert(docs.take(i + 1) =~= docs.take(i as int).push(docs[i as int]));
            lemma_enc_docs_push(docs.take(i as int), docs[i as int]);
            assert(out@ =~= base + enc_docs(docs.take(i + 1)));
        }
        i = i + 1;
    }
    proof {
        assert(docs.take(n as int) =~= docs);
        assert(out@ =~= spec_save(st@));
    }
    out
}

/// Relies on `String::from_utf8`: it succeeds exactly when its input is valid
/// UTF-8, and then returns the string those bytes encode.
#[verifier::external_body]
fn bytes_to_string(bytes: Vec<u8>) -> (r: Option<String>)
    ensures
        match r {
            Some(s) => valid_utf8(bytes@) && s@ == decode_utf8(bytes@),
            None => !valid_utf8(bytes@),
        },
{
    match String::from_utf8(bytes) {
        Ok(s) => Some(s),
        Err(_) => None,
    }
}

/// Read an integer at `pos`.
fn read_u64(bytes: &Vec<u8>, pos: usize) -> (r: Result<(u64, usize), PersistenceFault>)
    requires
        pos <= bytes@.len(),
    ensures
        match r {
            Ok((x, np)) => {
                &&& parse_u64(bytes@.skip(pos as int)) == Some((x, bytes@.skip(np as int)))
                &&& pos <= np <= bytes@.len()
            },
            Err(f) => parse_u64(bytes@.skip(pos as int)) is None,
        },
{
    if bytes.len() - pos < 8 {
        return Err(PersistenceFault::Truncated);
    }
    let sl = slice_subrange(bytes.as_slice(), pos, pos + 8);
    let x = u64_from_le_bytes(sl);
    proof {
        assert(bytes@.skip(pos as int).take(8) =~= bytes@.subrange(pos as int, pos as int + 8));
        assert(bytes@.skip(pos as int).skip(8) =~= bytes@.skip(pos as int + 8));
    }
    Ok((x, pos + 8))
}

/// Read a text at `pos`.
fn read_str(bytes: &Vec<u8>, pos: usize) -> (r: Result<(String, usize), PersistenceFault>)
    requires
        pos <= bytes@.len(),
    ensures
        match r {
            Ok((s, np)) => {
                &&& parse_str(bytes@.skip(pos as int)) == Some((s@, bytes@.skip(np as int)))
                &&& pos <= np <= bytes@.len()
            },
            Err(f) => parse_str(bytes@.skip(pos as int)) is None,
        },
{
    let (l, p1) = match read_u64(bytes, pos) {
        Ok(v) => v,
        Err(f) => {
            return Err(f);
        },
    };
    let rem = bytes.len() - p1;
    if l > rem as u64 {
        return Err(PersistenceFault::Truncated);
    }
    let lu = l as usize;
    let sl = slice_subrange(bytes.as_slice(), p1, p1 + lu);
    let v = slice_to_vec(sl);
    proof {
        assert(bytes@.skip(p1 as int).take(l as int) =~= bytes@.subrange(
            p1 as int,
            p1 as int + l as int,
        ));
        assert(bytes@.skip(p1 as int).skip(l as int) =~= bytes@.skip(p1 as int + l as int));
    }
    match bytes_to_string(v) {
        Some(s) => Ok((s, p1 + lu)),
        None => Err(PersistenceFault::BadText),
    }
}

/// Read one embedding component at `pos`.
fn read_component(bytes: &Vec<u8>, pos: usize) -> (r: Result<(i64, usize), PersistenceFault>)
    requires
        pos <= bytes@.len(),
    ensures
        match r {
            Ok((x, np)) => {
                &&& parse_component(bytes@.skip(pos as int)) == Some((x, bytes@.skip(np as int)))
                &&& pos <= np <= bytes@.len()
                &&& -COMPONENT_LIMIT <= x <= COMPONENT_LIMIT
            },
            Err(f) => parse_component(bytes@.skip(pos as int)) is None,
        },
{
    if bytes.len() - pos < 1 {
        return Err(PersistenceFault::Truncated);
    }
    let sign = bytes[pos];
    proof {
        assert(bytes@.skip(pos as int)[0] == bytes@[pos as int]);
        assert(bytes@.skip(pos as int).skip(1) =~= bytes@.skip(pos as int + 1));
    }
    let (m, np) = match read_u64(bytes, pos + 1) {
        Ok(v) => v,
        Err(f) => {
            return Err(f);
        },
    };
    if m > (COMPONENT_LIMIT as u64) {
        return Err(PersistenceFault::ComponentOutOfRange);
    }
    if sign == 0 {
        Ok((m as i64, np))
    } else if sign == 1 {
        Ok((-(m as i64), np))
    } else {
        Err(PersistenceFault::ComponentOutOfRange)
    }
}

/// Read `n` embedding components at `pos`.
fn read_components(bytes: &Vec<u8>, pos: usize, n: u64) -> (r: Result<
    (Vec<i64>, usize),
    PersistenceFault,
>)
    requires
        pos <= bytes@.len(),
    ensures
        match r {
            Ok((v, np)) => {
                &&& parse_components(bytes@.skip(pos as int), n as nat) == Some(
                    (v@, bytes@.skip(np as int)),
                )
                &&& pos <= np <= bytes@.len()
                &&& bounded(v@)
            },
            Err(f) => parse_components(bytes@.skip(pos as int), n as nat) is None,
        },
{
    let mut acc: Vec<i64> = Vec::new();
    let mut cur: usize = pos;
    let mut i: u64 = 0;
    while i < n
        invariant
            0 <= i <= n,
            pos <= cur <= bytes@.len(),
            bounded(acc@),
            match parse_components(bytes@.skip(cur as int), (n - i) as nat) {
                Some(t) => parse_components(bytes@.skip(pos as int), n as nat) == Some(
                    (acc@ + t.0, t.1),
                ),
                None => parse_components(bytes@.skip(pos as int), n as nat) is None,
            },
        decreases n - i,
    {
        match read_component(bytes, cur) {
            Ok((x, np)) => {
                proof {
                    let b = bytes@.skip(cur as int);
                    assert(parse_component(b) == Some((x, bytes@.skip(np as int))));
                    match parse_components(bytes@.skip(np as int), (n - i - 1) as nat) {
                        Some(t) => {
                            assert(acc@ + (seq![x] + t.0) =~= acc@.push(x) + t.0);
                        },
                        None => {},
                    }
                }
                acc.push(x);
                cur = np;
                i = i + 1;
            },
            Err(f) => {
                return Err(f);
            },
        }
    }
    proof {
        assert(acc@ + Seq::<i64>::empty() =~= acc@);
    }
    Ok((acc, cur))
}

/// Read `n` metadata pairs at `pos`.
fn read_pairs(bytes: &Vec<u8>, pos: usize, n: u64) -> (r: Result<
    (Vec<(String, String)>, usize),
    PersistenceFault,
>)
    requires
        pos <= bytes@.len(),
    ensures
        match r {
            Ok((v, np)) => {
                &&& parse_pairs(bytes@.skip(pos as int), n as nat) == Some(
                    (v.deep_view(), bytes@.skip(np as int)),
                )
                &&& pos <= np <= bytes@.len()
            },
            Err(f) => parse_pairs(bytes@.skip(pos as int), n as nat) is None,
        },
{
    let mut acc: Vec<(String, String)> = Vec::new();
    let mut cur: usize = pos;
    let mut i: u64 = 0;
    while i < n
        invariant
            0 <= i <= n,
            pos <= cur <= bytes@.len(),
            match parse_pairs(bytes@.skip(cur as int), (n - i) as nat) {
                Some(t) => parse_pairs(bytes@.skip(pos as int), n as nat) == Some(
                    (acc.deep_view() + t.0, t.1),
                ),
                None => parse_pairs(bytes@.skip(pos as int), n as nat) is None,
            },
        decreases n - i,
    {
        let (k, p1) = match read_str(bytes, cur) {
            Ok(v) => v,
            Err(f) => {
                return Err(f);
            },
        };
        let (v, p2) = match read_str(bytes, p1) {
            Ok(v) => v,
            Err(f) => {
                return Err(f);
            },
        };
        proof {
            let b = bytes@.skip(cur as int);
            assert(parse_pair(b) == Some(((k@, v@), bytes@.skip(p2 as int))));
            let ghost before = acc.deep_view();
            match parse_pairs(bytes@.skip(p2 as int), (n - i - 1) as nat) {
                Some(t) => {
                    assert(before + (seq![(k@, v@)] + t.0) =~= before.push((k@, v@)) + t.0);
                },
                None => {},
            }
        }
        let ghost before = acc.deep_view();
        acc.push((k, v));
        proof {
            assert(acc.deep_view() =~= before.push((k@, v@)));
        }
        cur = p2;
        i = i + 1;
    }
    proof {
        assert(acc.deep_view() + Seq::<(Seq<char>, Seq<char>)>::empty() =~= acc.deep_view());
    }
    Ok((acc, cur))
}

/// Read one document at `pos`.
fn read_doc(bytes: &Vec<u8>, pos: usize) -> (r: Result<
    (StoredDocument, usize),
    PersistenceFault,
>)
    requires
        pos <= bytes@.len(),
    ensures
        match r {
            Ok((d, np)) => {
                &&& parse_doc(bytes@.skip(pos as int)) == Some((d@, bytes@.skip(np as int)))
                &&& pos <= np <= bytes@.len()
                &&& bounded(d.embedding@)
            },
            Err(f) => parse_doc(bytes@.skip(pos as int)) is None,
        },
{
    let (id, p1) = match read_str(bytes, pos) {
        Ok(v) => v,
        Err(f) => {
            return Err(f);
        },
    };
    let (content, p2) = match read_str(bytes, p1) {
        Ok(v) => v,
        Err(f) => {
            return Err(f);
        },
    };
    let (created_at, p3) = match read_u64(bytes, p2) {
        Ok(v) => v,
        Err(f) => {
            return Err(f);
        },
    };
    let (nmeta, p4) = match read_u64(bytes, p3) {
        Ok(v) => v,
        Err(f) => {
            return Err(f);
        },
    };
    let (metadata, p5) = match read_pairs(bytes, p4, nmeta) {
        Ok(v) => v,
        Err(f) => {
            return Err(f);
        },
    };
    let (nemb, p6) = match read_u64(bytes, p5) {
        Ok(v) => v,
        Err(f) => {
            return Err(f);
        },
    };
    let (embedding, p7) = match read_components(bytes, p6, nemb) {
        Ok(v) => v,
        Err(f) => {
            return Err(f);
        },
    };
    let d = StoredDocument { id, content, embedding, metadata, created_at };
    Ok((d, p7))
}

/// Read `n` documents at `pos`.
fn read_docs(bytes: &Vec<u8>, pos: usize, n: u64) -> (r: Result<
    (Vec<StoredDocument>, usize),
    PersistenceFault,
>)
    requires
        pos <= bytes@.len(),
    ensures
        match r {
            Ok((v, np)) => {
                &&& parse_docs(bytes@.skip(pos as int), n as nat) == Some(
                    (v.deep_view(), bytes@.skip(np as int)),
                )
                &&& pos <= np <= bytes@.len()
                &&& forall|i: int| 0 <= i < v@.len() ==> bounded(
                    (#[trigger] v@[i]).embedding@,
                )
            },
            Err(f) => parse_docs(bytes@.skip(pos as int), n as nat) is None,
        },
{
    let mut acc: Vec<StoredDocument> = Vec::new();
    let mut cur: usize = pos;
    let mut i: u64 = 0;
    while i < n
        invariant
            0 <= i <= n,
            pos <= cur <= bytes@.len(),
            forall|j: int| 0 <= j < acc@.len() ==> bounded((#[trigger] acc@[j]).embedding@),
            match parse_docs(bytes@.skip(cur as int), (n - i) as nat) {
                Some(t) => parse_docs(bytes@.skip(pos as int), n as nat) == Some(
                    (acc.deep_view() + t.0, t.1),
                ),
                None => parse_docs(bytes@.skip(pos as int), n as nat) is None,
            },
        decreases n - i,
    {
        let (d, np) = match read_doc(bytes, cur) {
            Ok(v) => v,
            Err(f) => {
                return Err(f);
            },
        };
        proof {
            let ghost before = acc.deep_view();
            match parse_docs(bytes@.skip(np as int), (n - i - 1) as nat) {
                Some(t) => {
                    assert(before + (seq![d@] + t.0) =~= before.push(d@) + t.0);
                },
                None => {},
            }
        }
        let ghost before = acc.deep_view();
        let ghost dv = d@;
        acc.push(d);
        proof {
            assert(acc.deep_view() =~= before.push(dv));
        }
        cur = np;
        i = i + 1;
    }
    proof {
        assert(acc.deep_view() + Seq::<StoredDocumentView>::empty() =~= acc.deep_view());
    }
    Ok((acc, cur))
}

/// Deserialize a store from its byte stream, revalidating everything.
///
/// Succeeds exactly when the stream is a structurally valid store — see
/// [`spec_load`] — whose dimension is in range and whose every document has
/// an embedding of exactly that dimension. A structurally invalid stream
/// fails with `PersistenceError`; a structurally valid one with an embedding
/// of the wrong length fails with `DimensionMismatch`.
pub fn load(bytes: &Vec<u8>) -> (r: Result<VectorStore, StoreError>)
    ensures
        match r {
            Ok(st) => spec_load(bytes@) == Some(st@) && st.wf() && load_valid(st@),
            Err(e) => match spec_load(bytes@) {
                None => e is PersistenceError,
                Some(m) => {
                    &&& !load_valid(m)
                    &&& if 0 < m.dimension <= MAX_DIMENSION as int {
                        e is DimensionMismatch
                    } else {
                        e is PersistenceError
                    }
                },
            },
        },
{
    if bytes.len() < 4 {
        return Err(StoreError::PersistenceError { cause: PersistenceFault::Truncated });
    }
    if bytes[0] != 118 || bytes[1] != 115 || bytes[2] != 102 || bytes[3] != 49 {
        proof {
            assert(header()[0] == 118u8 && header()[1] == 115u8 && header()[2] == 102u8
                && header()[3] == 49u8);
            assert(bytes@.take(4) != header());
        }
        return Err(StoreError::PersistenceError { cause: PersistenceFault::BadHeader });
    }
    proof {
        assert(bytes@.take(4) =~= header());
    }
    let (dim, p1) = match read_u64(bytes, 4) {
        Ok(v) => v,
        Err(f) => {
            return Err(StoreError::PersistenceError { cause: f });
        },
    };
    let (model_name, p2) = match read_str(bytes, p1) {
        Ok(v) => v,
        Err(f) => {
            return Err(StoreError::PersistenceError { cause: f });
        },
    };
    let (ndocs, p3) = match read_u64(bytes, p2) {
        Ok(v) => v,
        Err(f) => {
            return Err(StoreError::PersistenceError { cause: f });
        },
    };
    let (documents, p4) = match read_docs(bytes, p3, ndocs) {
        Ok(v) => v,
        Err(f) => {
            return Err(StoreError::PersistenceError { cause: f });
        },
    };
    if p4 != bytes.len() {
        proof {
            assert(bytes@.skip(p4 as int).len() != 0);
        }
        return Err(StoreError::PersistenceError { cause: PersistenceFault::TrailingBytes });
    }
    proof {
        assert(bytes@.skip(p4 as int).len() == 0);
    }
    if dim == 0 || dim > (MAX_DIMENSION as u64) {
        return Err(StoreError::PersistenceError { cause: PersistenceFault::InvalidDimension });
    }
    let dimension = dim as usize;
    let ghost m = VectorStoreView {
        documents: documents.deep_view(),
        dimension: dim as int,
        model_name: model_name@,
    };
    proof {
        assert(spec_load(bytes@) == Some(m));
    }
    match VectorStore::from_parts(dimension, model_name, documents) {
        Ok(st) => {
            proof {
                assert(st@ == m);
                assert forall|i: int| 0 <= i < m.documents.len() implies (
                #[trigger] m.documents[i]).embedding.len() == m.dimension by {
                    assert(m.documents[i] == st@.documents[i]);
                }
                assert(load_valid(st@));
            }
            Ok(st)
        },
        Err(e) => Err(e),
    }
}

} // verus!
