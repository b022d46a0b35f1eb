//! The in-memory model of OCI images: descriptors, manifests, the blob
//! store of an image layout, and the loader that turns a layout into
//! [`Image`] values.
//!
//! The manifest digest is computed over a canonical JSON encoding --
//! object keys in lexicographic order, no insignificant whitespace --
//! so that the digest is a function of the manifest value alone.

use vstd::prelude::*;
use crate::canon::{kv_map, kv_sorted, kv_view, lemma_sorted_kv_unique};
use crate::digest::{spec_sha256_digest, sha256_digest};
use crate::json::Json;
use crate::text::{append_bytes, lit, lit_bytes};

verus! {

/// A content descriptor: what the manifest says about one blob.
pub struct Descriptor {
    pub media_type: Vec<u8>,
    pub digest: Vec<u8>,
    pub size: u64,
    pub annotations: Option<Vec<(Vec<u8>, Vec<u8>)>>,
}

/// An image manifest: the config descriptor and the ordered layers.
pub struct Manifest {
    pub schema_version: u64,
    pub media_type: Option<Vec<u8>>,
    pub config: Descriptor,
    pub layers: Vec<Descriptor>,
    pub annotations: Option<Vec<(Vec<u8>, Vec<u8>)>>,
}

/// The platform an image is built for.
pub struct Platform {
    pub os: Vec<u8>,
    pub architecture: Vec<u8>,
    pub variant: Option<Vec<u8>>,
}

/// One entry of the image index: a manifest descriptor, optionally
/// tagged with a platform.
pub struct IndexEntry {
    pub media_type: Vec<u8>,
    pub digest: Vec<u8>,
    pub size: u64,
    pub platform: Option<Platform>,
}

/// A loaded layer: raw bytes plus the descriptor data carried through
/// unmodified.
pub struct ImageLayer {
    pub data: Vec<u8>,
    pub media_type: Vec<u8>,
    pub annotations: Option<Vec<(Vec<u8>, Vec<u8>)>>,
}

/// The loaded config blob.
pub struct ConfigBlob {
    pub data: Vec<u8>,
    pub media_type: Vec<u8>,
    pub annotations: Option<Vec<(Vec<u8>, Vec<u8>)>>,
}

/// A loaded image: the unit a builder produces and the publisher
/// consumes.
pub struct Image {
    pub digest: Vec<u8>,
    pub config: ConfigBlob,
    pub manifest: Manifest,
    pub platform: Option<Platform>,
    pub layers: Vec<ImageLayer>,
}

// ------------------------------------------------------------------
// Canonical JSON encoding of a manifest.
// ------------------------------------------------------------------

/// The escape of one byte inside a JSON string: quote and backslash are
/// escaped, control bytes become `\u00XX`, everything else is copied.
pub open spec fn esc_byte(b: u8) -> Seq<u8> {
    if b == 34 {
        seq![92u8, 34u8]
    } else if b == 92 {
        seq![92u8, 92u8]
    } else if b < 32 {
        seq![92u8, 117u8, 48u8, 48u8, crate::digest::hex_digit(b / 16), crate::digest::hex_digit(
            b % 16,
        )]
    } else {
        seq![b]
    }
}

/// The escaped form of a whole string body.
pub open spec fn escape(s: Seq<u8>) -> Seq<u8>
    decreases s.len(),
{
    if s.len() == 0 {
        Seq::empty()
    } else {
        esc_byte(s[0]) + escape(s.skip(1))
    }
}

/// Escaping distributes over concatenation.
pub proof fn lemma_escape_app(a: Seq<u8>, b: Seq<u8>)
    ensures
        escape(a + b) == escape(a) + escape(b),
    decreases a.len(),
{
    if a.len() == 0 {
        assert(a + b =~= b);
        assert(escape(a) + escape(b) =~= escape(b));
    } else {
        assert((a + b).skip(1) =~= a.skip(1) + b);
        lemma_escape_app(a.skip(1), b);
        assert((a + b)[0] == a[0]);
        assert(esc_byte(a[0]) + (escape(a.skip(1)) + escape(b)) =~= (esc_byte(a[0]) + escape(
            a.skip(1),
        )) + escape(b));
    }
}

/// A quoted, escaped JSON string.
pub open spec fn quoted(s: Seq<u8>) -> Seq<u8> {
    seq![34u8] + escape(s) + seq![34u8]
}

/// The decimal digits of a number.
pub open spec fn dec_of(n: nat) -> Seq<u8>
    decreases n,
{
    if n < 10 {
        seq![(48 + n) as u8]
    } else {
        dec_of(n / 10) + seq![(48 + n % 10) as u8]
    }
}

/// One `"key":"value"` annotation member.
pub open spec fn canon_kv(k: Seq<u8>, v: Seq<u8>) -> Seq<u8> {
    quoted(k) + seq![58u8] + quoted(v)
}

/// The members of an annotation object after the first, each preceded
/// by a comma.
pub open spec fn canon_ann_rest(s: Seq<(Seq<u8>, Seq<u8>)>, i: int) -> Seq<u8>
    decreases s.len() - i,
{
    if i < 0 || i >= s.len() {
        Seq::empty()
    } else {
        seq![44u8] + canon_kv(s[i].0, s[i].1) + canon_ann_rest(s, i + 1)
    }
}

/// An annotation object, keys in stored order.
pub open spec fn canon_ann(s: Seq<(Seq<u8>, Seq<u8>)>) -> Seq<u8> {
    if s.len() == 0 {
        lit("{}")
    } else {
        seq![123u8] + canon_kv(s[0].0, s[0].1) + canon_ann_rest(s, 1) + seq![125u8]
    }
}

/// The canonical form of one descriptor: keys `annotations`, `digest`,
/// `mediaType`, `size` in lexicographic order; `annotations` only when
/// present.
pub open spec fn canon_descriptor(d: Descriptor) -> Seq<u8> {
    seq![123u8] + (match d.annotations {
        Some(a) => lit("\"annotations\":") + canon_ann(kv_view(a@)) + seq![44u8],
        None => Seq::empty(),
    }) + lit("\"digest\":") + quoted(d.digest@) + lit(",\"mediaType\":") + quoted(d.media_type@)
        + lit(",\"size\":") + dec_of(d.size as nat) + seq![125u8]
}

/// The layer descriptors after the first, each preceded by a comma.
pub open spec fn canon_layers_rest(s: Seq<Descriptor>, i: int) -> Seq<u8>
    decreases s.len() - i,
{
    if i < 0 || i >= s.len() {
        Seq::empty()
    } else {
        seq![44u8] + canon_descriptor(s[i]) + canon_layers_rest(s, i + 1)
    }
}

/// The canonical layer array.
pub open spec fn canon_layers(s: Seq<Descriptor>) -> Seq<u8> {
    if s.len() == 0 {
        lit("[]")
    } else {
        seq![91u8] + canon_descriptor(s[0]) + canon_layers_rest(s, 1) + seq![93u8]
    }
}

/// The canonical form of a whole manifest: keys `annotations`, `config`,
/// `layers`, `mediaType`, `schemaVersion` in lexicographic order;
/// optional keys only when present.
pub open spec fn canon_manifest(m: Manifest) -> Seq<u8> {
    seq![123u8] + (match m.annotations {
        Some(a) => lit("\"annotations\":") + canon_ann(kv_view(a@)) + seq![44u8],
        None => Seq::empty(),
    }) + lit("\"config\":") + canon_descriptor(m.config) + lit(",\"layers\":") + canon_layers(
        m.layers@,
    ) + (match m.media_type {
        Some(mt) => lit(",\"mediaType\":") + quoted(mt@),
        None => Seq::empty(),
    }) + lit(",\"schemaVersion\":") + dec_of(m.schema_version as nat) + seq![125u8]
}

/// The digest of a manifest: SHA-256 over its canonical encoding.
pub open spec fn spec_manifest_digest(m: Manifest) -> Seq<u8> {
    spec_sha256_digest(canon_manifest(m))
}

// ------------------------------------------------------------------
// Executable emitters, each proved to append its spec form.
// ------------------------------------------------------------------

pub(crate) fn emit_lit(out: &mut Vec<u8>, s: &str)
    ensures
        final(out)@ == old(out)@ + lit(s),
{
    let v = lit_bytes(s);
    append_bytes(out, v.as_slice());
}

/// Appends the escaped form of one byte.
fn emit_esc_byte(out: &mut Vec<u8>, b: u8)
    ensures
        final(out)@ == old(out)@ + esc_byte(b),
{
    if b == 34 {
        out.push(92);
        out.push(34);
        proof {
            assert(out@ =~= old(out)@ + esc_byte(b));
        }
    } else if b == 92 {
        out.push(92);
        out.push(92);
        proof {
            assert(out@ =~= old(out)@ + esc_byte(b));
        }
    } else if b < 32 {
        out.push(92);
        out.push(117);
        out.push(48);
        out.push(48);
        let hi = b / 16;
        let lo = b % 16;
        out.push(if hi < 10 {
            hi + 48
        } else {
            hi + 87
        });
        out.push(if lo < 10 {
            lo + 48
        } else {
            lo + 87
        });
        proof {
            assert(out@ =~= old(out)@ + esc_byte(b));
        }
    } else {
        out.push(b);
        proof {
            assert(out@ =~= old(out)@ + esc_byte(b));
        }
    }
}

/// Appends a quoted, escaped JSON string.
pub(crate) fn emit_quoted(out: &mut Vec<u8>, s: &[u8])
    ensures
        final(out)@ == old(out)@ + quoted(s@),
{
    out.push(34);
    let mut i: usize = 0;
    while i < s.len()
        invariant
            i <= s@.len(),
            out@ == old(out)@ + seq![34u8] + escape(s@.subrange(0, i as int)),
        decreases s@.len() - i,
    {
        emit_esc_byte(out, s[i]);
        proof {
            assert(s@.subrange(0, i + 1) =~= s@.subrange(0, i as int) + seq![s@[i as int]]);
            lemma_escape_app(s@.subrange(0, i as int), seq![s@[i as int]]);
            assert(seq![s@[i as int]].skip(1) =~= Seq::<u8>::empty());
            assert(escape(seq![s@[i as int]]) =~= esc_byte(s@[i as int]) + escape(
                Seq::<u8>::empty(),
            ));
            assert(escape(seq![s@[i as int]]) =~= esc_byte(s@[i as int]));
            assert(old(out)@ + seq![34u8] + escape(s@.subrange(0, i as int)) + esc_byte(
                s@[i as int],
            ) =~= old(out)@ + seq![34u8] + escape(s@.subrange(0, i + 1)));
        }
        i = i + 1;
    }
    out.push(34);
    proof {
        assert(s@.subrange(0, s@.len() as int) =~= s@);
        assert(out@ =~= old(out)@ + quoted(s@));
    }
}

/// Appends the decimal digits of `n`.
pub(crate) fn emit_dec(out: &mut Vec<u8>, n: u64)
    ensures
        final(out)@ == old(out)@ + dec_of(n as nat),
    decreases n,
{
    if n < 10 {
        out.push(48 + n as u8);
        proof {
            assert(out@ =~= old(out)@ + dec_of(n as nat));
        }
    } else {
        emit_dec(out, n / 10);
        out.push(48 + (n % 10) as u8);
        proof {
            assert(out@ =~= old(out)@ + dec_of(n as nat));
        }
    }
}

/// Appends one `"key":"value"` member.
fn emit_kv(out: &mut Vec<u8>, k: &[u8], v: &[u8])
    ensures
        final(out)@ == old(out)@ + canon_kv(k@, v@),
{
    emit_quoted(out, k);
    out.push(58);
    emit_quoted(out, v);
    proof {
        assert(out@ =~= old(out)@ + canon_kv(k@, v@));
    }
}

/// Appends an annotation object with the stored key order.
fn emit_ann(out: &mut Vec<u8>, anns: &Vec<(Vec<u8>, Vec<u8>)>)
    ensures
        final(out)@ == old(out)@ + canon_ann(kv_view(anns@)),
{
    let ghost vv = kv_view(anns@);
    if anns.len() == 0 {
        emit_lit(out, "{}");
        return ;
    }
    out.push(123);
    emit_kv(out, anns[0].0.as_slice(), anns[0].1.as_slice());
    let mut i: usize = 1;
    while i < anns.len()
        invariant
            1 <= i <= anns@.len(),
            vv == kv_view(anns@),
            vv.len() == anns@.len(),
            out@ + canon_ann_rest(vv, i as int) + seq![125u8] == old(out)@ + canon_ann(vv),
        decreases anns@.len() - i,
    {
        out.push(44);
        emit_kv(out, anns[i].0.as_slice(), anns[i].1.as_slice());
        proof {
            assert(canon_ann_rest(vv, i - 1 + 1) == seq![44u8] + canon_kv(vv[i as int].0, vv[
                i as int].1) + canon_ann_rest(vv, i + 1));
            assert(out@ + canon_ann_rest(vv, i + 1) + seq![125u8] =~= old(out)@ + canon_ann(vv));
        }
        i = i + 1;
    }
    out.push(125);
    proof {
        assert(canon_ann_rest(vv, anns@.len() as int) =~= Seq::empty());
        assert(out@ =~= old(out)@ + canon_ann(vv));
    }
}

/// Appends the canonical form of one descriptor.
fn emit_descriptor(out: &mut Vec<u8>, d: &Descriptor)
    ensures
        final(out)@ == old(out)@ + canon_descriptor(*d),
{
    out.push(123);
    match &d.annotations {
        Some(a) => {
            emit_lit(out, "\"annotations\":");
            emit_ann(out, a);
            out.push(44);
        },
        None => {},
    }
    emit_lit(out, "\"digest\":");
    emit_quoted(out, d.digest.as_slice());
    emit_lit(out, ",\"mediaType\":");
    emit_quoted(out, d.media_type.as_slice());
    emit_lit(out, ",\"size\":");
    emit_dec(out, d.size);
    out.push(125);
    proof {
        assert(out@ =~= old(out)@ + canon_descriptor(*d));
    }
}

/// Appends the canonical layer array.
fn emit_layers(out: &mut Vec<u8>, layers: &Vec<Descriptor>)
    ensures
        final(out)@ == old(out)@ + canon_layers(layers@),
{
    if layers.len() == 0 {
        emit_lit(out, "[]");
        return ;
    }
    out.push(91);
    emit_descriptor(out, &layers[0]);
    let mut i: usize = 1;
    while i < layers.len()
        invariant
            1 <= i <= layers@.len(),
            out@ + canon_layers_rest(layers@, i as int) + seq![93u8] == old(out)@ + canon_layers(
                layers@,
            ),
        decreases layers@.len() - i,
    {
        out.push(44);
        emit_descriptor(out, &layers[i]);
        proof {
            assert(canon_layers_rest(layers@, i - 1 + 1) == seq![44u8] + canon_descriptor(
                layers@[i as int],
            ) + canon_layers_rest(layers@, i + 1));
            assert(out@ + canon_layers_rest(layers@, i + 1) + seq![93u8] =~= old(out)@
                + canon_layers(layers@));
        }
        i = i + 1;
    }
    out.push(93);
    proof {
        assert(canon_layers_rest(layers@, layers@.len() as int) =~= Seq::empty());
        assert(out@ =~= old(out)@ + canon_layers(layers@));
    }
}

/// The canonical JSON encoding of a manifest.
#[verifier::rlimit(60)]
pub fn canonical_manifest_bytes(m: &Manifest) -> (r: Vec<u8>)
    ensures
        r@ == canon_manifest(*m),
{
    let mut out: Vec<u8> = Vec::new();
    out.push(123);
    match &m.annotations {
        Some(a) => {
            emit_lit(&mut out, "\"annotations\":");
            emit_ann(&mut out, a);
            out.push(44);
        },
        None => {},
    }
    emit_lit(&mut out, "\"config\":");
    emit_descriptor(&mut out, &m.config);
    emit_lit(&mut out, ",\"layers\":");
    emit_layers(&mut out, &m.layers);
    match &m.media_type {
        Some(mt) => {
            emit_lit(&mut out, ",\"mediaType\":");
            emit_quoted(&mut out, mt.as_slice());
        },
        None => {},
    }
    emit_lit(&mut out, ",\"schemaVersion\":");
    emit_dec(&mut out, m.schema_version);
    out.push(125);
    proof {
        assert(out@ =~= canon_manifest(*m));
    }
    out
}

/// Computes the manifest digest: SHA-256 over the canonical encoding,
/// rendered as `sha256:<hex>`.
pub fn compute_digest(m: &Manifest) -> (r: Vec<u8>)
    ensures
        r@ == spec_manifest_digest(*m),
{
    let bytes = canonical_manifest_bytes(m);
    sha256_digest(bytes.as_slice())
}

// ------------------------------------------------------------------
// Well-formedness and digest determinism.
// ------------------------------------------------------------------

/// Annotations, when present, are strictly sorted by key.
pub open spec fn anns_sorted(a: Option<Vec<(Vec<u8>, Vec<u8>)>>) -> bool {
    match a {
        Some(v) => kv_sorted(kv_view(v@)),
        None => true,
    }
}

/// A descriptor is well formed when its annotations are sorted.
pub open spec fn descriptor_wf(d: Descriptor) -> bool {
    anns_sorted(d.annotations)
}

/// A manifest is well formed when every annotation map in it is sorted.
pub open spec fn manifest_wf(m: Manifest) -> bool {
    &&& descriptor_wf(m.config)
    &&& anns_sorted(m.annotations)
    &&& forall|i: int| 0 <= i < m.layers@.len() ==> descriptor_wf(#[trigger] m.layers@[i])
}

/// Two annotation fields carry the same map.
pub open spec fn anns_equiv(
    a: Option<Vec<(Vec<u8>, Vec<u8>)>>,
    b: Option<Vec<(Vec<u8>, Vec<u8>)>>,
) -> bool {
    match (a, b) {
        (Option::None, Option::None) => true,
        (Option::Some(x), Option::Some(y)) => kv_map(kv_view(x@)) == kv_map(kv_view(y@)),
        _ => false,
    }
}

/// Two descriptors are structurally equal: same contents, with
/// annotations compared as maps rather than as lists.
pub open spec fn descriptor_equiv(c: Descriptor, d: Descriptor) -> bool {
    &&& c.media_type@ == d.media_type@
    &&& c.digest@ == d.digest@
    &&& c.size == d.size
    &&& anns_equiv(c.annotations, d.annotations)
}

/// Two manifests are structurally equal: same contents, annotation maps
/// compared as maps.
pub open spec fn manifest_equiv(m1: Manifest, m2: Manifest) -> bool {
    &&& m1.schema_version == m2.schema_version
    &&& match (m1.media_type, m2.media_type) {
        (Option::None, Option::None) => true,
        (Option::Some(x), Option::Some(y)) => x@ == y@,
        _ => false,
    }
    &&& descriptor_equiv(m1.config, m2.config)
    &&& m1.layers@.len() == m2.layers@.len()
    &&& forall|i: int|
        0 <= i < m1.layers@.len() ==> descriptor_equiv(
            #[trigger] m1.layers@[i],
            m2.layers@[i],
        )
    &&& anns_equiv(m1.annotations, m2.annotations)
}

/// Equal annotation maps have equal canonical encodings once sorted.
proof fn lemma_ann_canon(x: Vec<(Vec<u8>, Vec<u8>)>, y: Vec<(Vec<u8>, Vec<u8>)>)
    requires
        kv_sorted(kv_view(x@)),
        kv_sorted(kv_view(y@)),
        kv_map(kv_view(x@)) == kv_map(kv_view(y@)),
    ensures
        canon_ann(kv_view(x@)) == canon_ann(kv_view(y@)),
{
    lemma_sorted_kv_unique(kv_view(x@), kv_view(y@));
}

/// Structurally equal well-formed descriptors encode identically.
proof fn lemma_descriptor_canon(c: Descriptor, d: Descriptor)
    requires
        descriptor_wf(c),
        descriptor_wf(d),
        descriptor_equiv(c, d),
    ensures
        canon_descriptor(c) == canon_descriptor(d),
{
    match (c.annotations, d.annotations) {
        (Option::Some(x), Option::Some(y)) => {
            lemma_ann_canon(x, y);
        },
        _ => {},
    }
}

/// Layer lists whose members encode identically encode identically.
proof fn lemma_layers_rest_canon(s1: Seq<Descriptor>, s2: Seq<Descriptor>, i: int)
    requires
        s1.len() == s2.len(),
        forall|j: int|
            0 <= j < s1.len() ==> canon_descriptor(#[trigger] s1[j]) == canon_descriptor(s2[j]),
    ensures
        canon_layers_rest(s1, i) == canon_layers_rest(s2, i),
    decreases s1.len() - i,
{
    if 0 <= i < s1.len() {
        lemma_layers_rest_canon(s1, s2, i + 1);
    }
}

/// Digest determinism: two well-formed manifests that are structurally
/// equal -- however their annotation lists happen to be ordered before
/// sorting, and wherever their byte strings are stored -- have the same
/// canonical encoding and therefore the same digest.
pub proof fn lemma_digest_deterministic(m1: Manifest, m2: Manifest)
    requires
        manifest_wf(m1),
        manifest_wf(m2),
        manifest_equiv(m1, m2),
    ensures
        canon_manifest(m1) == canon_manifest(m2),
        spec_manifest_digest(m1) == spec_manifest_digest(m2),
{
    match (m1.annotations, m2.annotations) {
        (Option::Some(x), Option::Some(y)) => {
            lemma_ann_canon(x, y);
        },
        _ => {},
    }
    lemma_descriptor_canon(m1.config, m2.config);
    assert forall|j: int|
        0 <= j < m1.layers@.len() implies canon_descriptor(#[trigger] m1.layers@[j])
        == canon_descriptor(m2.layers@[j]) by {
        lemma_descriptor_canon(m1.layers@[j], m2.layers@[j]);
    }
    lemma_layers_rest_canon(m1.layers@, m2.layers@, 1);
    if m1.layers@.len() > 0 {
        assert(canon_layers(m1.layers@) == canon_layers(m2.layers@));
    }
}

/// Two descriptors loaded from the same object are structurally equal
/// and well formed.
proof fn lemma_descriptor_of_document(d1: Descriptor, d2: Descriptor, j: Json)
    requires
        descriptor_matches(d1, j),
        descriptor_matches(d2, j),
    ensures
        descriptor_wf(d1),
        descriptor_wf(d2),
        descriptor_equiv(d1, d2),
{
}

/// Digest determinism against the document: any two manifests loaded
/// from the same JSON value -- whatever incidental ordering the bytes
/// carried -- have the same canonical encoding and digest.
pub proof fn lemma_digest_of_document(m1: Manifest, m2: Manifest, j: Json)
    requires
        manifest_matches(m1, j),
        manifest_matches(m2, j),
    ensures
        spec_manifest_digest(m1) == spec_manifest_digest(m2),
{
    match spec_obj_get(j->Obj_0@, lit("config")) {
        Some(cv) => {
            lemma_descriptor_of_document(m1.config, m2.config, cv);
        },
        None => {
            assert(false);
        },
    }
    match spec_obj_get(j->Obj_0@, lit("layers")) {
        Some(lv) => {
            let items = lv->Arr_0;
            assert forall|i: int|
                0 <= i < m1.layers@.len() implies descriptor_equiv(
                #[trigger] m1.layers@[i],
                m2.layers@[i],
            ) && descriptor_wf(m1.layers@[i]) && descriptor_wf(m2.layers@[i]) by {
                lemma_descriptor_of_document(m1.layers@[i], m2.layers@[i], items@[i]);
            }
        },
        None => {
            assert(false);
        },
    }
    assert(manifest_wf(m1));
    assert(manifest_wf(m2));
    assert(manifest_equiv(m1, m2));
    lemma_digest_deterministic(m1, m2);
}

// ------------------------------------------------------------------
// Errors.
// ------------------------------------------------------------------

/// Why loading an image layout failed. Every failure is fatal for the
/// load: the loader returns no partial result.
#[derive(Debug)]
pub enum ImageError {
    /// The document is not well-formed JSON; carries the byte offset.
    Parse { at: usize },
    /// A document misses a required field or holds one of the wrong
    /// shape.
    Malformed,
    /// Two annotation keys or two index fields collide.
    DuplicateKey,
    /// A blob referenced by digest is not present in the layout.
    MissingBlob,
    /// A layer blob's byte length differs from its descriptor's
    /// `size`.
    SizeMismatch { layer: usize },
    /// A layer blob's computed digest differs from its descriptor's
    /// `digest`.
    DigestMismatch { layer: usize },
    /// The config blob's byte length differs from its descriptor's
    /// `size`.
    ConfigSizeMismatch,
    /// The config blob's computed digest differs from its descriptor's
    /// `digest`.
    ConfigDigestMismatch,
}

// ------------------------------------------------------------------
// Interpreting parsed JSON as manifests and indexes.
// ------------------------------------------------------------------

/// The value of the first member of a JSON object with this key.
pub open spec fn spec_obj_get(ms: Seq<(Vec<u8>, Json)>, key: Seq<u8>) -> Option<Json>
    decreases ms.len(),
{
    if ms.len() == 0 {
        None
    } else if ms[0].0@ == key {
        Some(ms[0].1)
    } else {
        spec_obj_get(ms.skip(1), key)
    }
}

/// The first member with this key, when its value is a string.
pub open spec fn spec_text_field(ms: Seq<(Vec<u8>, Json)>, key: Seq<u8>) -> Option<Seq<u8>> {
    match spec_obj_get(ms, key) {
        Some(Json::Text(t)) => Some(t@),
        _ => None,
    }
}

/// The first member with this key, when its value is an integer.
pub open spec fn spec_u64_field(ms: Seq<(Vec<u8>, Json)>, key: Seq<u8>) -> Option<u64> {
    match spec_obj_get(ms, key) {
        Some(Json::UInt(n)) => Some(n),
        _ => None,
    }
}

/// Looks up the first member of a JSON object with the given key.
pub(crate) fn obj_get<'a>(members: &'a Vec<(Vec<u8>, Json)>, key: &str) -> (r: Option<&'a Json>)
    ensures
        match r {
            Some(v) => spec_obj_get(members@, lit(key)) == Some(*v),
            None => spec_obj_get(members@, lit(key)) is None,
        },
{
    let ghost ms = members@;
    proof {
        assert(ms.skip(0) =~= ms);
    }
    let k = lit_bytes(key);
    let mut i: usize = 0;
    while i < members.len()
        invariant
            i <= ms.len(),
            members@ == ms,
            k@ == lit(key),
            spec_obj_get(ms, lit(key)) == spec_obj_get(ms.skip(i as int), lit(key)),
        decreases ms.len() - i,
    {
        proof {
            assert(ms.skip(i as int)[0] == ms[i as int]);
            assert(ms.skip(i as int).skip(1) =~= ms.skip(i + 1));
        }
        if crate::text::bytes_eq(members[i].0.as_slice(), k.as_slice()) {
            return Some(&members[i].1);
        }
        i = i + 1;
    }
    proof {
        assert(ms.skip(ms.len() as int) =~= Seq::<(Vec<u8>, Json)>::empty());
    }
    None
}

/// Reads a JSON string value.
fn as_text(j: &Json) -> (r: Option<Vec<u8>>)
    ensures
        match r {
            Some(t) => *j matches Json::Text(tt) && t@ == tt@,
            None => !(*j is Text),
        },
{
    match j {
        Json::Text(t) => Some(crate::text::copy_bytes(t.as_slice())),
        _ => None,
    }
}

/// Reads a JSON integer value.
fn as_u64(j: &Json) -> (r: Option<u64>)
    ensures
        match r {
            Some(n) => *j == Json::UInt(n),
            None => !(*j is UInt),
        },
{
    match j {
        Json::UInt(n) => Some(*n),
        _ => None,
    }
}

/// The string entries of an annotations object, in document order.
pub open spec fn spec_ann_kvs(ms: Seq<(Vec<u8>, Json)>) -> Seq<(Seq<u8>, Seq<u8>)>
    decreases ms.len(),
{
    if ms.len() == 0 {
        Seq::empty()
    } else {
        (match ms[0].1 {
            Json::Text(t) => seq![(ms[0].0@, t@)],
            _ => Seq::empty(),
        }) + spec_ann_kvs(ms.skip(1))
    }
}

/// Every annotation value is a string.
pub open spec fn ann_values_ok(ms: Seq<(Vec<u8>, Json)>) -> bool {
    forall|i: int| 0 <= i < ms.len() ==> (#[trigger] ms[i].1) is Text
}

/// No two annotation keys collide.
pub open spec fn ann_keys_unique(ms: Seq<(Vec<u8>, Json)>) -> bool {
    forall|i: int, k: int| 0 <= i < k < ms.len() ==> ms[i].0@ != ms[k].0@
}

/// The shape an annotations object must have: an object whose values
/// are all strings and whose keys are pairwise distinct.
pub open spec fn ann_shape_ok(j: Json) -> bool {
    j matches Json::Obj(ms) && ann_values_ok(ms@) && ann_keys_unique(ms@)
}

/// A loaded annotation list against its source object: sorted, and
/// denoting exactly the document's map.
pub open spec fn ann_matches(anns: Vec<(Vec<u8>, Vec<u8>)>, j: Json) -> bool {
    &&& kv_sorted(kv_view(anns@))
    &&& j matches Json::Obj(ms) && kv_map(kv_view(anns@)) == kv_map(spec_ann_kvs(ms@))
}

/// Interprets an annotations object: every value must be a string; the
/// keys are sorted and must be distinct. The result denotes exactly
/// the document's map.
fn interp_annotations(j: &Json) -> (r: Result<Vec<(Vec<u8>, Vec<u8>)>, ImageError>)
    ensures
        r matches Ok(v) ==> ann_matches(v, *j),
        r is Ok <==> ann_shape_ok(*j),
        r matches Err(e) ==> e is Malformed || e is DuplicateKey,
{
    let members = match j {
        Json::Obj(members) => members,
        _ => {
            return Err(ImageError::Malformed);
        },
    };
    let ghost ms = members@;
    proof {
        assert(ms.skip(0) =~= ms);
        assert((*j)->Obj_0@ == ms);
    }
    let mut kvs: Vec<(Vec<u8>, Vec<u8>)> = Vec::new();
    let mut i: usize = 0;
    while i < members.len()
        invariant
            i <= ms.len(),
            members@ == ms,
            *j is Obj && (*j)->Obj_0@ == ms,
            kvs@.len() == i,
            forall|k: int| #![trigger ms[k]]
                0 <= k < i ==> ms[k].1 is Text && kvs@[k].0@ == ms[k].0@,
            kv_view(kvs@) + spec_ann_kvs(ms.skip(i as int)) == spec_ann_kvs(ms),
        decreases ms.len() - i,
    {
        proof {
            assert(ms.skip(i as int)[0] == ms[i as int]);
            assert(ms.skip(i as int).skip(1) =~= ms.skip(i + 1));
        }
        let v = match as_text(&members[i].1) {
            Some(v) => v,
            None => {
                proof {
                    assert(!(ms[i as int].1 is Text));
                    assert(!ann_values_ok(ms));
                    assert((*j)->Obj_0@ == ms);
                    assert(!ann_values_ok((*j)->Obj_0@));
                    assert(!ann_shape_ok(*j));
                }
                return Err(ImageError::Malformed);
            },
        };
        let ghost vv = v@;
        let ghost prev = kv_view(kvs@);
        kvs.push((crate::text::copy_bytes(members[i].0.as_slice()), v));
        proof {
            match ms[i as int].1 {
                Json::Text(t) => {
                    assert(vv == t@);
                    assert(kv_view(kvs@) =~= prev + seq![(ms[i as int].0@, t@)]);
                    assert(kv_view(kvs@) + spec_ann_kvs(ms.skip(i + 1)) =~= prev + spec_ann_kvs(
                        ms.skip(i as int),
                    ));
                },
                _ => {
                    assert(false);
                },
            }
        }
        i = i + 1;
    }
    proof {
        assert(ms.skip(ms.len() as int) =~= Seq::<(Vec<u8>, Json)>::empty());
        assert(kv_view(kvs@) =~= kv_view(kvs@) + spec_ann_kvs(ms.skip(ms.len() as int)));
    }
    let ghost kvsv = kvs@;
    match crate::canon::sort_kvs(kvs) {
        Some(sorted) => {
            proof {
                assert forall|a: int, b: int|
                    0 <= a < b < ms.len() implies ms[a].0@ != ms[b].0@ by {
                    assert(kvsv[a].0@ == ms[a].0@ && kvsv[b].0@ == ms[b].0@);
                }
                assert(ann_keys_unique(ms));
                assert(ann_shape_ok(*j));
            }
            Ok(sorted)
        },
        None => {
            proof {
                let (a, b) = choose|a: int, b: int|
                    0 <= a < b < kvsv.len() && kvsv[a].0@ == kvsv[b].0@;
                assert(ms[a].0@ == ms[b].0@);
                assert(!ann_keys_unique(ms));
                assert(!ann_shape_ok(*j));
            }
            Err(ImageError::DuplicateKey)
        },
    }
}

/// The shape an annotations member must have, when present.
pub open spec fn opt_ann_shape_ok(ms: Seq<(Vec<u8>, Json)>) -> bool {
    match spec_obj_get(ms, lit("annotations")) {
        Some(av) => ann_shape_ok(av),
        None => true,
    }
}

/// The shape a descriptor object must have: `mediaType` and `digest`
/// string members, a `size` integer member, and well-shaped
/// annotations when present.
pub open spec fn descriptor_shape_ok(j: Json) -> bool {
    &&& j matches Json::Obj(ms)
    &&& spec_text_field(ms@, lit("mediaType")) is Some
    &&& spec_text_field(ms@, lit("digest")) is Some
    &&& spec_u64_field(ms@, lit("size")) is Some
    &&& opt_ann_shape_ok(ms@)
}

/// A loaded descriptor against its source object: each field is
/// exactly the document's, and the annotations denote the document's
/// map.
pub open spec fn descriptor_matches(d: Descriptor, j: Json) -> bool {
    &&& j matches Json::Obj(ms)
    &&& spec_text_field(ms@, lit("mediaType")) == Some(d.media_type@)
    &&& spec_text_field(ms@, lit("digest")) == Some(d.digest@)
    &&& spec_u64_field(ms@, lit("size")) == Some(d.size)
    &&& match spec_obj_get(ms@, lit("annotations")) {
        Some(av) => d.annotations matches Some(anns) && ann_matches(anns, av),
        None => d.annotations is None,
    }
}

/// Interprets a descriptor object: `mediaType`, `digest` and `size` are
/// required; `annotations` is optional. Every field of the result is
/// exactly the document's.
fn interp_descriptor(j: &Json) -> (r: Result<Descriptor, ImageError>)
    ensures
        r matches Ok(d) ==> descriptor_wf(d) && descriptor_matches(d, *j),
        r is Ok <==> descriptor_shape_ok(*j),
        r matches Err(e) ==> e is Malformed || e is DuplicateKey,
{
    let members = match j {
        Json::Obj(members) => members,
        _ => {
            return Err(ImageError::Malformed);
        },
    };
    let media_type = match obj_get(members, "mediaType") {
        Some(v) => match as_text(v) {
            Some(t) => t,
            None => {
                return Err(ImageError::Malformed);
            },
        },
        None => {
            return Err(ImageError::Malformed);
        },
    };
    let digest = match obj_get(members, "digest") {
        Some(v) => match as_text(v) {
            Some(t) => t,
            None => {
                return Err(ImageError::Malformed);
            },
        },
        None => {
            return Err(ImageError::Malformed);
        },
    };
    let size = match obj_get(members, "size") {
        Some(v) => match as_u64(v) {
            Some(n) => n,
            None => {
                return Err(ImageError::Malformed);
            },
        },
        None => {
            return Err(ImageError::Malformed);
        },
    };
    let annotations = match obj_get(members, "annotations") {
        Some(v) => match interp_annotations(v) {
            Ok(a) => Some(a),
            Err(e) => {
                return Err(e);
            },
        },
        None => None,
    };
    Ok(Descriptor { media_type, digest, size, annotations })
}

/// The shape a manifest object must have: an integer `schemaVersion`,
/// a string `mediaType` when present, a `config` descriptor, a
/// `layers` array of descriptors, and well-shaped annotations when
/// present.
pub open spec fn manifest_shape_ok(j: Json) -> bool {
    &&& j matches Json::Obj(ms)
    &&& spec_u64_field(ms@, lit("schemaVersion")) is Some
    &&& match spec_obj_get(ms@, lit("mediaType")) {
        Some(v) => v is Text,
        None => true,
    }
    &&& match spec_obj_get(ms@, lit("config")) {
        Some(cv) => descriptor_shape_ok(cv),
        None => false,
    }
    &&& match spec_obj_get(ms@, lit("layers")) {
        Some(lv) => lv matches Json::Arr(items) && (forall|i: int|
            0 <= i < items@.len() ==> descriptor_shape_ok(#[trigger] items@[i])),
        None => false,
    }
    &&& opt_ann_shape_ok(ms@)
}

/// A loaded manifest against its source object: each field is exactly
/// the document's, the layers in document order.
pub open spec fn manifest_matches(m: Manifest, j: Json) -> bool {
    &&& j matches Json::Obj(ms)
    &&& spec_u64_field(ms@, lit("schemaVersion")) == Some(m.schema_version)
    &&& match spec_obj_get(ms@, lit("mediaType")) {
        Some(v) => v matches Json::Text(t) && m.media_type matches Some(mt) && mt@ == t@,
        None => m.media_type is None,
    }
    &&& match spec_obj_get(ms@, lit("config")) {
        Some(cv) => descriptor_matches(m.config, cv),
        None => false,
    }
    &&& match spec_obj_get(ms@, lit("layers")) {
        Some(lv) => lv matches Json::Arr(items) && m.layers@.len() == items@.len() && (forall|
            i: int,
        |
            0 <= i < items@.len() ==> descriptor_matches(
                #[trigger] m.layers@[i],
                items@[i],
            )),
        None => false,
    }
    &&& match spec_obj_get(ms@, lit("annotations")) {
        Some(av) => m.annotations matches Some(anns) && ann_matches(anns, av),
        None => m.annotations is None,
    }
}

/// Interprets an image manifest document. Every field of the result is
/// exactly the document's.
pub fn manifest_from_json(j: &Json) -> (r: Result<Manifest, ImageError>)
    ensures
        r matches Ok(m) ==> manifest_wf(m) && manifest_matches(m, *j),
        r is Ok <==> manifest_shape_ok(*j),
        r matches Err(e) ==> e is Malformed || e is DuplicateKey,
{
    let members = match j {
        Json::Obj(members) => members,
        _ => {
            return Err(ImageError::Malformed);
        },
    };
    let schema_version = match obj_get(members, "schemaVersion") {
        Some(v) => match as_u64(v) {
            Some(n) => n,
            None => {
                return Err(ImageError::Malformed);
            },
        },
        None => {
            return Err(ImageError::Malformed);
        },
    };
    let media_type = match obj_get(members, "mediaType") {
        Some(v) => match as_text(v) {
            Some(t) => Some(t),
            None => {
                return Err(ImageError::Malformed);
            },
        },
        None => None,
    };
    let config = match obj_get(members, "config") {
        Some(v) => match interp_descriptor(v) {
            Ok(d) => d,
            Err(e) => {
                return Err(e);
            },
        },
        None => {
            return Err(ImageError::Malformed);
        },
    };
    let layer_items = match obj_get(members, "layers") {
        Some(Json::Arr(items)) => items,
        _ => {
            return Err(ImageError::Malformed);
        },
    };
    let mut layers: Vec<Descriptor> = Vec::new();
    let mut i: usize = 0;
    while i < layer_items.len()
        invariant
            i <= layer_items@.len(),
            *j is Obj && (*j)->Obj_0 == *members,
            match spec_obj_get(members@, lit("layers")) {
                Some(lv) => lv == Json::Arr(*layer_items),
                _ => false,
            },
            layers@.len() == i,
            forall|k: int|
                0 <= k < i ==> descriptor_wf(#[trigger] layers@[k]) && descriptor_matches(
                    layers@[k],
                    layer_items@[k],
                ),
            forall|k: int| 0 <= k < i ==> descriptor_shape_ok(#[trigger] layer_items@[k]),
        decreases layer_items@.len() - i,
    {
        match interp_descriptor(&layer_items[i]) {
            Ok(d) => layers.push(d),
            Err(e) => {
                proof {
                    assert(!descriptor_shape_ok(layer_items@[i as int]));
                    match spec_obj_get((*j)->Obj_0@, lit("layers")) {
                        Some(lv) => {
                            assert(lv == Json::Arr(*layer_items));
                            assert(!descriptor_shape_ok(lv->Arr_0@[i as int]));
                        },
                        _ => {
                            assert(false);
                        },
                    }
                    assert(!manifest_shape_ok(*j));
                }
                return Err(e);
            },
        }
        i = i + 1;
    }
    let annotations = match obj_get(members, "annotations") {
        Some(v) => match interp_annotations(v) {
            Ok(a) => Some(a),
            Err(e) => {
                return Err(e);
            },
        },
        None => None,
    };
    Ok(Manifest { schema_version, media_type, config, layers, annotations })
}

/// Parses an image manifest from raw bytes.
pub fn parse_manifest(bytes: &[u8]) -> (r: Result<Manifest, ImageError>)
    ensures
        r matches Ok(m) ==> manifest_wf(m) && exists|jd: Json| #![trigger manifest_matches(m, jd)]
            crate::json::doc_repr(bytes@, jd) && manifest_shape_ok(jd) && manifest_matches(m, jd),
        r matches Err(e) ==> e is Parse || e is Malformed || e is DuplicateKey,
{
    let j = match crate::json::parse_json(bytes) {
        Ok(j) => j,
        Err(e) => {
            return Err(ImageError::Parse { at: e.at });
        },
    };
    let ghost jd = j;
    let r = manifest_from_json(&j);
    proof {
        if r is Ok {
            let m = r->Ok_0;
            assert(crate::json::doc_repr(bytes@, jd) && manifest_shape_ok(jd)
                && manifest_matches(m, jd));
        }
    }
    r
}

/// The shape a platform object must have: `os` and `architecture`
/// string members, and a string `variant` when present.
pub open spec fn platform_shape_ok(j: Json) -> bool {
    &&& j matches Json::Obj(ms)
    &&& spec_text_field(ms@, lit("os")) is Some
    &&& spec_text_field(ms@, lit("architecture")) is Some
    &&& match spec_obj_get(ms@, lit("variant")) {
        Some(v) => v is Text,
        None => true,
    }
}

/// A loaded platform against its source object.
pub open spec fn platform_matches(p: Platform, j: Json) -> bool {
    &&& j matches Json::Obj(ms)
    &&& spec_text_field(ms@, lit("os")) == Some(p.os@)
    &&& spec_text_field(ms@, lit("architecture")) == Some(p.architecture@)
    &&& match spec_obj_get(ms@, lit("variant")) {
        Some(v) => v matches Json::Text(t) && p.variant matches Some(pv) && pv@ == t@,
        None => p.variant is None,
    }
}

/// Interprets a platform object: `os` and `architecture` are required,
/// `variant` is optional. Every field of the result is exactly the
/// document's.
fn interp_platform(j: &Json) -> (r: Result<Platform, ImageError>)
    ensures
        r matches Ok(p) ==> platform_matches(p, *j),
        r is Ok <==> platform_shape_ok(*j),
        r matches Err(e) ==> e is Malformed,
{
    let members = match j {
        Json::Obj(members) => members,
        _ => {
            return Err(ImageError::Malformed);
        },
    };
    let os = match obj_get(members, "os") {
        Some(v) => match as_text(v) {
            Some(t) => t,
            None => {
                return Err(ImageError::Malformed);
            },
        },
        None => {
            return Err(ImageError::Malformed);
        },
    };
    let architecture = match obj_get(members, "architecture") {
        Some(v) => match as_text(v) {
            Some(t) => t,
            None => {
                return Err(ImageError::Malformed);
            },
        },
        None => {
            return Err(ImageError::Malformed);
        },
    };
    let variant = match obj_get(members, "variant") {
        Some(v) => match as_text(v) {
            Some(t) => Some(t),
            None => {
                return Err(ImageError::Malformed);
            },
        },
        None => None,
    };
    Ok(Platform { os, architecture, variant })
}

/// The shape an index entry must have: `mediaType` and `digest`
/// string members, a `size` integer member, and a well-shaped
/// platform when present.
pub open spec fn entry_shape_ok(j: Json) -> bool {
    &&& j matches Json::Obj(ms)
    &&& spec_text_field(ms@, lit("mediaType")) is Some
    &&& spec_text_field(ms@, lit("digest")) is Some
    &&& spec_u64_field(ms@, lit("size")) is Some
    &&& match spec_obj_get(ms@, lit("platform")) {
        Some(pv) => platform_shape_ok(pv),
        None => true,
    }
}

/// The shape an index document must have: an object with a
/// `manifests` array of well-shaped entries.
pub open spec fn index_shape_ok(j: Json) -> bool {
    &&& j matches Json::Obj(ms)
    &&& match spec_obj_get(ms@, lit("manifests")) {
        Some(mv) => mv matches Json::Arr(items) && (forall|i: int|
            0 <= i < items@.len() ==> entry_shape_ok(#[trigger] items@[i])),
        None => false,
    }
}

/// One loaded index entry against its source object.
pub open spec fn index_entry_matches(e: IndexEntry, j: Json) -> bool {
    &&& j matches Json::Obj(ms)
    &&& spec_text_field(ms@, lit("mediaType")) == Some(e.media_type@)
    &&& spec_text_field(ms@, lit("digest")) == Some(e.digest@)
    &&& spec_u64_field(ms@, lit("size")) == Some(e.size)
    &&& match spec_obj_get(ms@, lit("platform")) {
        Some(pv) => e.platform matches Some(p) && platform_matches(p, pv),
        None => e.platform is None,
    }
}

/// A loaded index against its source document: one entry per member
/// of its `manifests` array, in document order.
pub open spec fn index_matches(es: Seq<IndexEntry>, j: Json) -> bool {
    &&& j matches Json::Obj(ms)
    &&& match spec_obj_get(ms@, lit("manifests")) {
        Some(mv) => mv matches Json::Arr(items) && es.len() == items@.len() && (forall|i: int|
            0 <= i < items@.len() ==> index_entry_matches(#[trigger] es[i], items@[i])),
        None => false,
    }
}

/// Interprets the top-level image index document. Every entry of the
/// result is exactly the document's.
pub fn index_from_json(j: &Json) -> (r: Result<Vec<IndexEntry>, ImageError>)
    ensures
        r matches Ok(es) ==> index_matches(es@, *j),
        r is Ok <==> index_shape_ok(*j),
        r matches Err(e) ==> e is Malformed,
{
    let members = match j {
        Json::Obj(members) => members,
        _ => {
            return Err(ImageError::Malformed);
        },
    };
    let items = match obj_get(members, "manifests") {
        Some(Json::Arr(items)) => items,
        _ => {
            return Err(ImageError::Malformed);
        },
    };
    let mut entries: Vec<IndexEntry> = Vec::new();
    let mut i: usize = 0;
    while i < items.len()
        invariant
            i <= items@.len(),
            *j is Obj && (*j)->Obj_0 == *members,
            match spec_obj_get(members@, lit("manifests")) {
                Some(mv) => mv == Json::Arr(*items),
                _ => false,
            },
            entries@.len() == i,
            forall|k: int|
                0 <= k < i ==> index_entry_matches(#[trigger] entries@[k], items@[k]),
            forall|k: int| 0 <= k < i ==> entry_shape_ok(#[trigger] items@[k]),
        decreases items@.len() - i,
    {
        match interp_index_entry(&items[i]) {
            Ok(e) => entries.push(e),
            Err(e) => {
                proof {
                    assert(!entry_shape_ok(items@[i as int]));
                    match spec_obj_get((*j)->Obj_0@, lit("manifests")) {
                        Some(mv) => {
                            assert(mv == Json::Arr(*items));
                            assert(!entry_shape_ok(mv->Arr_0@[i as int]));
                        },
                        _ => {
                            assert(false);
                        },
                    }
                    assert(!index_shape_ok(*j));
                }
                return Err(e);
            },
        }
        i = i + 1;
    }
    Ok(entries)
}

/// Interprets one index entry: `mediaType`, `digest` and `size` are
/// required; `platform` is optional. Every field of the result is
/// exactly the document's.
fn interp_index_entry(j: &Json) -> (r: Result<IndexEntry, ImageError>)
    ensures
        r matches Ok(e) ==> index_entry_matches(e, *j),
        r is Ok <==> entry_shape_ok(*j),
        r matches Err(e) ==> e is Malformed,
{
    let emembers = match j {
        Json::Obj(m) => m,
        _ => {
            return Err(ImageError::Malformed);
        },
    };
    let media_type = match obj_get(emembers, "mediaType") {
        Some(v) => match as_text(v) {
            Some(t) => t,
            None => {
                return Err(ImageError::Malformed);
            },
        },
        None => {
            return Err(ImageError::Malformed);
        },
    };
    let digest = match obj_get(emembers, "digest") {
        Some(v) => match as_text(v) {
            Some(t) => t,
            None => {
                return Err(ImageError::Malformed);
            },
        },
        None => {
            return Err(ImageError::Malformed);
        },
    };
    let size = match obj_get(emembers, "size") {
        Some(v) => match as_u64(v) {
            Some(n) => n,
            None => {
                return Err(ImageError::Malformed);
            },
        },
        None => {
            return Err(ImageError::Malformed);
        },
    };
    let platform = match obj_get(emembers, "platform") {
        Some(v) => match interp_platform(v) {
            Ok(p) => Some(p),
            Err(e) => {
                return Err(e);
            },
        },
        None => None,
    };
    Ok(IndexEntry { media_type, digest, size, platform })
}

/// Parses the top-level image index: its `manifests` array of
/// descriptors, each optionally tagged with a platform.
pub fn parse_index(bytes: &[u8]) -> (r: Result<Vec<IndexEntry>, ImageError>)
    ensures
        r matches Ok(es) ==> exists|jd: Json| #![trigger index_matches(es@, jd)]
            crate::json::doc_repr(bytes@, jd) && index_shape_ok(jd) && index_matches(es@, jd),
        r matches Err(e) ==> e is Parse || e is Malformed,
{
    let j = match crate::json::parse_json(bytes) {
        Ok(j) => j,
        Err(e) => {
            return Err(ImageError::Parse { at: e.at });
        },
    };
    let ghost jd = j;
    let r = index_from_json(&j);
    proof {
        if r is Ok {
            let es = r->Ok_0;
            assert(crate::json::doc_repr(bytes@, jd) && index_shape_ok(jd) && index_matches(
                es@,
                jd,
            ));
        }
    }
    r
}

// ------------------------------------------------------------------
// The blob store of one image layout.
// ------------------------------------------------------------------

/// The content-addressed blobs of one image layout, keyed by their
/// `algorithm:hash` digest string.
pub struct BlobStore {
    entries: Vec<(Vec<u8>, Vec<u8>)>,
}

impl View for BlobStore {
    type V = Map<Seq<u8>, Seq<u8>>;

    closed spec fn view(&self) -> Map<Seq<u8>, Seq<u8>> {
        kv_map(kv_view(self.entries@))
    }
}

impl BlobStore {
    /// An empty store.
    pub fn new() -> (r: BlobStore)
        ensures
            r@ == Map::<Seq<u8>, Seq<u8>>::empty(),
    {
        let r = BlobStore { entries: Vec::new() };
        proof {
            assert(kv_view(r.entries@) =~= Seq::<(Seq<u8>, Seq<u8>)>::empty());
        }
        r
    }

    /// Adds a blob under its digest; a blob already stored under the
    /// same digest is replaced.
    pub fn insert(&mut self, digest: Vec<u8>, data: Vec<u8>)
        ensures
            final(self)@ == old(self)@.insert(digest@, data@),
    {
        let ghost olds = self.entries@;
        let ghost d = digest@;
        let ghost b = data@;
        self.entries.insert(0, (digest, data));
        proof {
            assert(kv_view(self.entries@).skip(1) =~= kv_view(olds));
            assert(kv_view(self.entries@)[0] == (d, b));
            assert(kv_map(kv_view(self.entries@)) =~= kv_map(kv_view(olds)).insert(d, b));
        }
    }

    /// Reads the blob stored under a digest; a digest not present is a
    /// missing-blob failure.
    pub fn read_blob(&self, digest: &[u8]) -> (r: Result<Vec<u8>, ImageError>)
        ensures
            match r {
                Ok(b) => self@.contains_key(digest@) && b@ == self@[digest@],
                Err(e) => !self@.contains_key(digest@) && e is MissingBlob,
            },
    {
        let mut i: usize = 0;
        while i < self.entries.len()
            invariant
                i <= self.entries@.len(),
                forall|j: int| 0 <= j < i ==> kv_view(self.entries@)[j].0 != digest@,
            decreases self.entries@.len() - i,
        {
            if crate::text::bytes_eq(self.entries[i].0.as_slice(), digest) {
                proof {
                    crate::canon::lemma_kv_lookup(kv_view(self.entries@), digest@, i as int);
                }
                return Ok(crate::text::copy_bytes(self.entries[i].1.as_slice()));
            }
            i = i + 1;
        }
        proof {
            crate::canon::lemma_kv_map_dom(kv_view(self.entries@), digest@);
        }
        Err(ImageError::MissingBlob)
    }
}

/// An OCI image layout held in memory: the bytes of `index.json` and
/// the blobs of its `blobs/<algorithm>/<hash>` tree.
pub struct OciLayout {
    pub index_json: Vec<u8>,
    pub blobs: BlobStore,
}

// ------------------------------------------------------------------
// Loading images from a layout.
// ------------------------------------------------------------------

/// Annotation fields equal as key/value lists.
pub open spec fn opt_kvs_eq(
    a: Option<Vec<(Vec<u8>, Vec<u8>)>>,
    b: Option<Vec<(Vec<u8>, Vec<u8>)>>,
) -> bool {
    match (a, b) {
        (Option::None, Option::None) => true,
        (Option::Some(x), Option::Some(y)) => kv_view(x@) == kv_view(y@),
        _ => false,
    }
}

/// A loaded layer agrees with its manifest descriptor: exact byte
/// length, exact content digest, media type and annotations carried
/// through unmodified.
pub open spec fn layer_consistent(l: ImageLayer, d: Descriptor) -> bool {
    &&& l.data@.len() == d.size
    &&& spec_sha256_digest(l.data@) == d.digest@
    &&& l.media_type@ == d.media_type@
    &&& opt_kvs_eq(l.annotations, d.annotations)
}

/// A loaded image is internally consistent: every layer and the config
/// blob match their descriptors, and the digest is the manifest's
/// canonical digest.
pub open spec fn image_consistent(img: Image) -> bool {
    &&& manifest_wf(img.manifest)
    &&& img.layers@.len() == img.manifest.layers@.len()
    &&& forall|i: int|
        0 <= i < img.layers@.len() ==> layer_consistent(
            #[trigger] img.layers@[i],
            img.manifest.layers@[i],
        )
    &&& img.config.data@.len() == img.manifest.config.size
    &&& spec_sha256_digest(img.config.data@) == img.manifest.config.digest@
    &&& img.config.media_type@ == img.manifest.config.media_type@
    &&& img.digest@ == spec_manifest_digest(img.manifest)
}

/// Copies a key/value list.
fn copy_kvs(v: &Vec<(Vec<u8>, Vec<u8>)>) -> (r: Vec<(Vec<u8>, Vec<u8>)>)
    ensures
        kv_view(r@) == kv_view(v@),
{
    let mut out: Vec<(Vec<u8>, Vec<u8>)> = Vec::new();
    let mut i: usize = 0;
    while i < v.len()
        invariant
            i <= v@.len(),
            out@.len() == i,
            forall|j: int| 0 <= j < i ==> kv_view(out@)[j] == kv_view(v@)[j],
        decreases v@.len() - i,
    {
        let k = crate::text::copy_bytes(v[i].0.as_slice());
        let d = crate::text::copy_bytes(v[i].1.as_slice());
        out.push((k, d));
        i = i + 1;
    }
    proof {
        assert(kv_view(out@) =~= kv_view(v@));
    }
    out
}

/// Copies an optional annotation list.
fn copy_opt_kvs(v: &Option<Vec<(Vec<u8>, Vec<u8>)>>) -> (r: Option<Vec<(Vec<u8>, Vec<u8>)>>)
    ensures
        opt_kvs_eq(r, *v),
{
    match v {
        Some(a) => Some(copy_kvs(a)),
        None => None,
    }
}

/// Loads and checks the blob a descriptor names: it must be present,
/// its length must equal the declared size, and its digest must equal
/// the declared digest. A mismatch is reported for the named layer,
/// or for the config when the descriptor is the config's.
fn load_checked_blob(store: &BlobStore, d: &Descriptor, layer: usize, config: bool) -> (r: Result<
    Vec<u8>,
    ImageError,
>)
    ensures
        match r {
            Ok(b) => b@.len() == d.size && spec_sha256_digest(b@) == d.digest@
                && store@.contains_key(d.digest@) && b@ == store@[d.digest@],
            Err(e) => {
                &&& config ==> e is MissingBlob || e is ConfigSizeMismatch
                    || e is ConfigDigestMismatch
                &&& !config ==> e is MissingBlob || (e matches ImageError::SizeMismatch {
                    layer: l,
                } && l == layer) || (e matches ImageError::DigestMismatch { layer: l } && l
                    == layer)
            },
        },
{
    let data = match store.read_blob(d.digest.as_slice()) {
        Ok(b) => b,
        Err(_) => {
            return Err(ImageError::MissingBlob);
        },
    };
    if data.len() as u64 != d.size {
        if config {
            return Err(ImageError::ConfigSizeMismatch);
        }
        return Err(ImageError::SizeMismatch { layer });
    }
    let computed = sha256_digest(data.as_slice());
    if !crate::text::bytes_eq(computed.as_slice(), d.digest.as_slice()) {
        if config {
            return Err(ImageError::ConfigDigestMismatch);
        }
        return Err(ImageError::DigestMismatch { layer });
    }
    Ok(data)
}

/// Optional platforms equal field by field.
pub open spec fn platform_opt_eq(a: Option<Platform>, b: Option<Platform>) -> bool {
    match (a, b) {
        (Option::None, Option::None) => true,
        (Option::Some(p), Option::Some(q)) => p.os@ == q.os@ && p.architecture@
            == q.architecture@ && (match (p.variant, q.variant) {
            (Option::None, Option::None) => true,
            (Option::Some(v), Option::Some(w)) => v@ == w@,
            _ => false,
        }),
        _ => false,
    }
}

/// Copies an optional platform.
fn copy_platform(p: &Option<Platform>) -> (r: Option<Platform>)
    ensures
        platform_opt_eq(r, *p),
{
    match p {
        Some(q) => Some(
            Platform {
                os: crate::text::copy_bytes(q.os.as_slice()),
                architecture: crate::text::copy_bytes(q.architecture.as_slice()),
                variant: match &q.variant {
                    Some(v) => Some(crate::text::copy_bytes(v.as_slice())),
                    None => None,
                },
            },
        ),
        None => None,
    }
}

/// What loading one image from one index entry guarantees: the image
/// is internally consistent, its platform is the entry's, its manifest
/// blob was resolved from the store under the entry's digest, and
/// every layer's and the config's bytes are the store's blob for the
/// manifest's digest.
pub open spec fn image_from_entry(img: Image, e: IndexEntry, store: Map<Seq<u8>, Seq<u8>>) -> bool {
    &&& image_consistent(img)
    &&& platform_opt_eq(img.platform, e.platform)
    &&& store.contains_key(e.digest@)
    &&& exists|jd: Json| #![trigger manifest_matches(img.manifest, jd)]
        crate::json::doc_repr(store[e.digest@], jd) && manifest_shape_ok(jd) && manifest_matches(
            img.manifest,
            jd,
        )
    &&& forall|i: int|
        0 <= i < img.manifest.layers@.len() ==> store.contains_key(
            (#[trigger] img.manifest.layers@[i]).digest@,
        ) && img.layers@[i].data@ == store[img.manifest.layers@[i].digest@]
    &&& store.contains_key(img.manifest.config.digest@)
    &&& img.config.data@ == store[img.manifest.config.digest@]
}

/// Loads one image: the manifest named by an index entry, its layers in
/// manifest order, and its config blob.
#[verifier::rlimit(60)]
pub fn load_image(store: &BlobStore, entry: &IndexEntry) -> (r: Result<Image, ImageError>)
    ensures
        r matches Ok(img) ==> image_from_entry(img, *entry, store@),
{
    let mbytes = match store.read_blob(entry.digest.as_slice()) {
        Ok(b) => b,
        Err(e) => {
            return Err(e);
        },
    };
    let manifest = match parse_manifest(mbytes.as_slice()) {
        Ok(m) => m,
        Err(e) => {
            return Err(e);
        },
    };
    let mut layers: Vec<ImageLayer> = Vec::new();
    let mut i: usize = 0;
    while i < manifest.layers.len()
        invariant
            i <= manifest.layers@.len(),
            layers@.len() == i,
            forall|k: int|
                0 <= k < i ==> layer_consistent(
                    #[trigger] layers@[k],
                    manifest.layers@[k],
                ),
            forall|k: int|
                0 <= k < i ==> store@.contains_key(
                    (#[trigger] manifest.layers@[k]).digest@,
                ) && layers@[k].data@ == store@[manifest.layers@[k].digest@],
        decreases manifest.layers@.len() - i,
    {
        let d = &manifest.layers[i];
        let data = match load_checked_blob(store, d, i, false) {
            Ok(b) => b,
            Err(e) => {
                return Err(e);
            },
        };
        let media_type = crate::text::copy_bytes(d.media_type.as_slice());
        let annotations = copy_opt_kvs(&d.annotations);
        layers.push(ImageLayer { data, media_type, annotations });
        i = i + 1;
    }
    let config_data = match load_checked_blob(store, &manifest.config, 0, true) {
        Ok(b) => b,
        Err(e) => {
            return Err(e);
        },
    };
    let config = ConfigBlob {
        data: config_data,
        media_type: crate::text::copy_bytes(manifest.config.media_type.as_slice()),
        annotations: copy_opt_kvs(&manifest.config.annotations),
    };
    let digest = compute_digest(&manifest);
    let platform = copy_platform(&entry.platform);
    Ok(Image { digest, config, manifest, platform, layers })
}

/// Loads one image per index entry, in index order; any failure fails
/// the whole load with no partial result.
pub fn load_images(store: &BlobStore, entries: &Vec<IndexEntry>) -> (r: Result<
    Vec<Image>,
    ImageError,
>)
    ensures
        r matches Ok(images) ==> images@.len() == entries@.len() && forall|k: int|
            0 <= k < entries@.len() ==> image_from_entry(
                #[trigger] images@[k],
                entries@[k],
                store@,
            ),
{
    let mut images: Vec<Image> = Vec::new();
    let n = entries.len();
    let mut i: usize = 0;
    while i < n
        invariant
            i <= n,
            n == entries@.len(),
            images@.len() == i,
            forall|k: int|
                0 <= k < i ==> image_from_entry(#[trigger] images@[k], entries@[k], store@),
        decreases n - i,
    {
        match load_image(store, &entries[i]) {
            Ok(img) => images.push(img),
            Err(e) => {
                return Err(e);
            },
        }
        i = i + 1;
    }
    Ok(images)
}

/// Loads every image of an OCI image layout: the parsed index names
/// the manifests, one image per index entry in index order; each
/// manifest's layers and config are resolved through the blob store
/// and checked against their descriptors. Any missing blob, malformed
/// document or content mismatch fails the whole load; no partial
/// result is ever returned.
pub fn load_from_path(layout: &OciLayout) -> (r: Result<Vec<Image>, ImageError>)
    ensures
        r matches Ok(images) ==> exists|entries: Seq<IndexEntry>| #![trigger entries.len()]
            images@.len() == entries.len() && (forall|k: int|
                0 <= k < entries.len() ==> image_from_entry(
                    images@[k],
                    entries[k],
                    layout.blobs@,
                )) && (exists|jd: Json| #![trigger index_matches(entries, jd)]
                crate::json::doc_repr(layout.index_json@, jd) && index_shape_ok(jd)
                    && index_matches(entries, jd)),
{
    let entries = match parse_index(layout.index_json.as_slice()) {
        Ok(e) => e,
        Err(e) => {
            return Err(e);
        },
    };
    let r = load_images(&layout.blobs, &entries);
    proof {
        if r is Ok {
            let images = r->Ok_0;
            assert(images@.len() == entries@.len() && (forall|k: int|
                0 <= k < entries@.len() ==> image_from_entry(
                    #[trigger] images@[k],
                    entries@[k],
                    layout.blobs@,
                )));
        }
    }
    r
}

// ------------------------------------------------------------------
// Selecting the image for a platform.
// ------------------------------------------------------------------

/// The `os/arch` string of a platform.
pub open spec fn spec_platform_str(p: Platform) -> Seq<u8> {
    p.os@ + seq![47u8] + p.architecture@
}

/// True when the image is tagged with exactly this `os/arch` platform.
pub open spec fn img_matches(img: Image, plat: Seq<u8>) -> bool {
    match img.platform {
        Option::Some(p) => spec_platform_str(p) == plat,
        Option::None => false,
    }
}

/// The first image tagged with exactly this platform, if any.
pub open spec fn spec_first_match(ms: Seq<Image>, plat: Seq<u8>) -> Option<Image>
    decreases ms.len(),
{
    if ms.len() == 0 {
        None
    } else if img_matches(ms[0], plat) {
        Some(ms[0])
    } else {
        spec_first_match(ms.skip(1), plat)
    }
}

/// The first platform-independent image, if any.
pub open spec fn spec_first_free(ms: Seq<Image>) -> Option<Image>
    decreases ms.len(),
{
    if ms.len() == 0 {
        None
    } else if ms[0].platform is None {
        Some(ms[0])
    } else {
        spec_first_free(ms.skip(1))
    }
}

/// What image selection returns: the first image tagged with exactly
/// the requested platform; failing that, the first image with no
/// platform tag; failing that, nothing.
pub open spec fn spec_find_image(ms: Seq<Image>, plat: Seq<u8>) -> Option<Image> {
    match spec_first_match(ms, plat) {
        Some(img) => Some(img),
        None => spec_first_free(ms),
    }
}

/// Renders a platform as its `os/arch` string.
pub fn platform_str(p: &Platform) -> (r: Vec<u8>)
    ensures
        r@ == spec_platform_str(*p),
{
    let mut s = crate::text::copy_bytes(p.os.as_slice());
    s.push(47);
    append_bytes(&mut s, p.architecture.as_slice());
    proof {
        assert(s@ =~= spec_platform_str(*p));
    }
    s
}

/// Picks the image for a requested platform: the first image tagged
/// with exactly that platform, else the first platform-independent
/// image, else nothing.
pub fn find_image(images: Vec<Image>, platform: &[u8]) -> (r: Option<Image>)
    ensures
        r == spec_find_image(images@, platform@),
{
    let ghost ms = images@;
    let n = images.len();
    proof {
        assert(ms.skip(0) =~= ms);
    }
    let mut i: usize = 0;
    while i < n
        invariant
            i <= n,
            n == ms.len(),
            images@ == ms,
            spec_first_match(ms, platform@) == spec_first_match(ms.skip(i as int), platform@),
        decreases n - i,
    {
        let matched = img_matches_exec(&images[i], platform);
        proof {
            assert(ms.skip(i as int)[0] == ms[i as int]);
            assert(ms.skip(i as int).skip(1) =~= ms.skip(i + 1));
        }
        if matched {
            proof {
                assert(spec_first_match(ms, platform@) == Some(ms[i as int]));
            }
            let mut imgs = images;
            let img = imgs.remove(i);
            return Some(img);
        }
        i = i + 1;
    }
    proof {
        assert(ms.skip(n as int) =~= Seq::<Image>::empty());
        assert(spec_first_match(ms, platform@) is None);
        assert(ms.skip(0) =~= ms);
    }
    let mut k: usize = 0;
    while k < n
        invariant
            k <= n,
            n == ms.len(),
            images@ == ms,
            spec_first_match(ms, platform@) is None,
            spec_first_free(ms) == spec_first_free(ms.skip(k as int)),
        decreases n - k,
    {
        let free = images[k].platform.is_none();
        proof {
            assert(ms.skip(k as int)[0] == ms[k as int]);
            assert(ms.skip(k as int).skip(1) =~= ms.skip(k + 1));
        }
        if free {
            proof {
                assert(spec_first_free(ms) == Some(ms[k as int]));
            }
            let mut imgs = images;
            let img = imgs.remove(k);
            return Some(img);
        }
        k = k + 1;
    }
    proof {
        assert(ms.skip(n as int) =~= Seq::<Image>::empty());
    }
    None
}

/// Decides whether an image is tagged with exactly this platform.
fn img_matches_exec(img: &Image, platform: &[u8]) -> (r: bool)
    ensures
        r == img_matches(*img, platform@),
{
    match &img.platform {
        Some(p) => {
            let s = platform_str(p);
            crate::text::bytes_eq(s.as_slice(), platform)
        },
        None => false,
    }
}

} // verus!
