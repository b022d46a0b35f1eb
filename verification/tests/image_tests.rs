use steiger::digest::sha256_digest;
use steiger::image::{
    canonical_manifest_bytes, compute_digest, find_image, load_from_path, parse_index,
    parse_manifest, BlobStore, ConfigBlob, Descriptor, Image, ImageError, Manifest, OciLayout,
    Platform,
};

fn s(text: &str) -> Vec<u8> {
    text.as_bytes().to_vec()
}

fn digest_str(data: &[u8]) -> String {
    String::from_utf8(sha256_digest(data)).unwrap()
}

/// A small valid layout: one image, one layer, one config.
fn make_layout(layer_data: &[u8], config_data: &[u8]) -> (OciLayout, String) {
    let layer_digest = digest_str(layer_data);
    let config_digest = digest_str(config_data);
    let manifest_text = format!(
        "{{\"schemaVersion\":2,\"mediaType\":\"application/vnd.oci.image.manifest.v1+json\",\"config\":{{\"mediaType\":\"application/vnd.oci.image.config.v1+json\",\"digest\":\"{config}\",\"size\":{config_len}}},\"layers\":[{{\"mediaType\":\"application/vnd.oci.image.layer.v1.tar\",\"digest\":\"{layer}\",\"size\":{layer_len}}}]}}",
        config = config_digest,
        config_len = config_data.len(),
        layer = layer_digest,
        layer_len = layer_data.len(),
    );
    let manifest_bytes = manifest_text.into_bytes();
    let manifest_digest = digest_str(&manifest_bytes);
    let index_text = format!(
        "{{\"schemaVersion\":2,\"manifests\":[{{\"mediaType\":\"application/vnd.oci.image.manifest.v1+json\",\"digest\":\"{md}\",\"size\":{mlen},\"platform\":{{\"os\":\"linux\",\"architecture\":\"amd64\"}}}}]}}",
        md = manifest_digest,
        mlen = manifest_bytes.len(),
    );
    let mut blobs = BlobStore::new();
    blobs.insert(manifest_digest.clone().into_bytes(), manifest_bytes);
    blobs.insert(config_digest.into_bytes(), config_data.to_vec());
    blobs.insert(layer_digest.into_bytes(), layer_data.to_vec());
    (OciLayout { index_json: index_text.into_bytes(), blobs }, manifest_digest)
}

#[test]
fn loads_a_valid_layout() {
    let (layout, _) = make_layout(b"layer bytes", b"{\"cfg\":true}");
    let images = load_from_path(&layout).unwrap();
    assert_eq!(images.len(), 1);
    let img = &images[0];
    assert_eq!(img.layers.len(), 1);
    assert_eq!(img.layers[0].data, b"layer bytes".to_vec());
    assert_eq!(img.config.data, b"{\"cfg\":true}".to_vec());
    let p = img.platform.as_ref().unwrap();
    assert_eq!(p.os, s("linux"));
    assert_eq!(p.architecture, s("amd64"));
    assert!(String::from_utf8(img.digest.clone()).unwrap().starts_with("sha256:"));
}

#[test]
fn content_mismatch_fails_the_load() {
    // A corrupted layer blob: same digest key, different bytes.
    let (mut layout, _) = make_layout(b"layer bytes", b"cfg");
    let layer_digest = digest_str(b"layer bytes");
    layout.blobs.insert(layer_digest.into_bytes(), b"tampered!!!".to_vec());
    match load_from_path(&layout) {
        Err(ImageError::SizeMismatch { .. }) | Err(ImageError::DigestMismatch { .. }) => {},
        other => panic!("expected a content mismatch, got {:?}", other.is_ok()),
    }
}

#[test]
fn equal_length_corruption_is_a_digest_mismatch() {
    let (mut layout, _) = make_layout(b"layer bytes", b"cfg");
    let layer_digest = digest_str(b"layer bytes");
    layout.blobs.insert(layer_digest.into_bytes(), b"layer bytez".to_vec());
    match load_from_path(&layout) {
        Err(ImageError::DigestMismatch { .. }) => {},
        _ => panic!("expected a digest mismatch"),
    }
}

#[test]
fn missing_blob_fails_the_load() {
    let (layout, _) = make_layout(b"layer bytes", b"cfg");
    let mut blobs = BlobStore::new();
    // Keep only the manifest blob.
    let manifest_digest = {
        let entries = parse_index(&layout.index_json).unwrap();
        entries[0].digest.clone()
    };
    let manifest_bytes = layout.blobs.read_blob(&manifest_digest).unwrap();
    blobs.insert(manifest_digest, manifest_bytes);
    let broken = OciLayout { index_json: layout.index_json.clone(), blobs };
    match load_from_path(&broken) {
        Err(ImageError::MissingBlob) => {},
        _ => panic!("expected a missing blob"),
    }
}

#[test]
fn digest_ignores_key_order_and_whitespace() {
    // Two spellings of the same manifest: keys reordered, whitespace
    // added; their computed digests must agree.
    let a = br#"{"schemaVersion":2,"config":{"mediaType":"c","digest":"sha256:aa","size":2},"layers":[]}"#;
    let b = br#"{
        "layers": [],
        "config": {"size": 2, "digest": "sha256:aa", "mediaType": "c"},
        "schemaVersion": 2
    }"#;
    let ma = parse_manifest(a).unwrap();
    let mb = parse_manifest(b).unwrap();
    assert_eq!(compute_digest(&ma), compute_digest(&mb));
}

#[test]
fn digest_ignores_annotation_order() {
    let a = br#"{"schemaVersion":2,"annotations":{"x":"1","a":"2"},"config":{"mediaType":"c","digest":"sha256:aa","size":2},"layers":[]}"#;
    let b = br#"{"schemaVersion":2,"annotations":{"a":"2","x":"1"},"config":{"mediaType":"c","digest":"sha256:aa","size":2},"layers":[]}"#;
    let ma = parse_manifest(a).unwrap();
    let mb = parse_manifest(b).unwrap();
    assert_eq!(compute_digest(&ma), compute_digest(&mb));
}

#[test]
fn digests_differ_for_different_manifests() {
    let a = br#"{"schemaVersion":2,"config":{"mediaType":"c","digest":"sha256:aa","size":2},"layers":[]}"#;
    let b = br#"{"schemaVersion":2,"config":{"mediaType":"c","digest":"sha256:ab","size":2},"layers":[]}"#;
    let ma = parse_manifest(a).unwrap();
    let mb = parse_manifest(b).unwrap();
    assert_ne!(compute_digest(&ma), compute_digest(&mb));
}

#[test]
fn canonical_encoding_is_sorted_and_compact() {
    let text = br#"{
        "layers": [],
        "mediaType": "m",
        "annotations": {"z": "1", "b": "2"},
        "config": {"size": 3, "digest": "sha256:aa", "mediaType": "c"},
        "schemaVersion": 2
    }"#;
    let m = parse_manifest(text).unwrap();
    let canon = canonical_manifest_bytes(&m);
    let expected = "{\"annotations\":{\"b\":\"2\",\"z\":\"1\"},\"config\":{\"digest\":\"sha256:aa\",\"mediaType\":\"c\",\"size\":3},\"layers\":[],\"mediaType\":\"m\",\"schemaVersion\":2}";
    assert_eq!(String::from_utf8(canon).unwrap(), expected);
}

#[test]
fn config_blob_corruption_is_reported_for_the_config() {
    let (mut layout, _) = make_layout(b"layer bytes", b"cfg");
    let config_digest = digest_str(b"cfg");
    layout.blobs.insert(config_digest.into_bytes(), b"bad".to_vec());
    match load_from_path(&layout) {
        Err(ImageError::ConfigDigestMismatch) => {},
        _ => panic!("expected a config digest mismatch"),
    }
}

#[test]
fn missing_required_fields_are_malformed() {
    assert!(matches!(
        parse_manifest(br#"{"schemaVersion":2,"layers":[]}"#),
        Err(ImageError::Malformed)
    ));
    assert!(matches!(parse_manifest(b"not json"), Err(ImageError::Parse { .. })));
}

#[test]
fn duplicate_annotation_keys_are_rejected() {
    let text = br#"{"schemaVersion":2,"annotations":{"a":"1","a":"2"},"config":{"mediaType":"c","digest":"sha256:aa","size":2},"layers":[]}"#;
    match parse_manifest(text) {
        Err(ImageError::DuplicateKey) => {},
        _ => panic!("expected a duplicate key error"),
    }
}

fn plain_image(os: &str, arch: &str) -> Image {
    Image {
        digest: s("sha256:00"),
        config: ConfigBlob { data: vec![], media_type: s("c"), annotations: None },
        manifest: Manifest {
            schema_version: 2,
            media_type: None,
            config: Descriptor {
                media_type: s("c"),
                digest: s("sha256:00"),
                size: 0,
                annotations: None,
            },
            layers: vec![],
            annotations: None,
        },
        platform: if os.is_empty() {
            None
        } else {
            Some(Platform { os: s(os), architecture: s(arch), variant: None })
        },
        layers: vec![],
    }
}

#[test]
fn selects_the_matching_platform_first() {
    let images = vec![plain_image("linux", "arm64"), plain_image("linux", "amd64")];
    let img = find_image(images, b"linux/amd64").unwrap();
    let p = img.platform.unwrap();
    assert_eq!(p.architecture, s("amd64"));
}

#[test]
fn falls_back_to_platform_free_image() {
    let images = vec![plain_image("linux", "arm64"), plain_image("", "")];
    let img = find_image(images, b"linux/amd64").unwrap();
    assert!(img.platform.is_none());
}

#[test]
fn no_matching_image_yields_nothing() {
    let images = vec![plain_image("linux", "arm64")];
    assert!(find_image(images, b"linux/amd64").is_none());
}

#[test]
fn blob_store_replaces_on_reinsert() {
    let mut store = BlobStore::new();
    store.insert(s("sha256:k"), b"one".to_vec());
    store.insert(s("sha256:k"), b"two".to_vec());
    assert_eq!(store.read_blob(b"sha256:k").unwrap(), b"two".to_vec());
    assert!(store.read_blob(b"sha256:other").is_err());
}
