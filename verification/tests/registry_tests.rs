use steiger::digest::sha256_digest;
use steiger::image::{ConfigBlob, Descriptor, Image, Manifest, Platform};
use steiger::registry::{
    make_pinned_reference, make_reference, parse_host, resolve_auth, try_resolve_digest,
    CredentialError, CredentialLookup, ManifestFetch, PushMachine, PushOutcome, PushPhase,
    Registry, RegistryAuth,
};

fn s(text: &str) -> Vec<u8> {
    text.as_bytes().to_vec()
}

#[test]
fn parse_host_takes_the_part_before_the_slash() {
    assert_eq!(parse_host(b"registry.example/org/app"), s("registry.example"));
    assert_eq!(parse_host(b"localhost:5000/app"), s("localhost:5000"));
    assert_eq!(parse_host(b"plainhost"), s("plainhost"));
}

#[test]
fn username_password_resolves_to_basic_auth() {
    match resolve_auth(CredentialLookup::UserPass(s("user"), s("pass"))) {
        Ok(RegistryAuth::Basic(u, p)) => {
            assert_eq!(u, s("user"));
            assert_eq!(p, s("pass"));
        },
        _ => panic!("expected basic auth"),
    }
}

#[test]
fn missing_configuration_falls_back_to_anonymous() {
    assert!(matches!(
        resolve_auth(CredentialLookup::ConfigNotFound),
        Ok(RegistryAuth::Anonymous)
    ));
    assert!(matches!(
        resolve_auth(CredentialLookup::NoCredentialConfigured),
        Ok(RegistryAuth::Anonymous)
    ));
    assert!(matches!(
        resolve_auth(CredentialLookup::HelperFailure(s("h"), s("o"), s("e"))),
        Ok(RegistryAuth::Anonymous)
    ));
}

#[test]
fn other_retrieval_failures_are_errors() {
    assert!(matches!(
        resolve_auth(CredentialLookup::Token(s("t"))),
        Err(CredentialError::TokenUnsupported)
    ));
    assert!(matches!(
        resolve_auth(CredentialLookup::ConfigReadError),
        Err(CredentialError::Retrieval(CredentialLookup::ConfigReadError))
    ));
}

#[test]
fn localhost_is_always_insecure() {
    let registry = Registry::with_config(RegistryAuth::Anonymous, &vec![s("internal.example")]);
    assert!(registry.is_insecure(b"localhost"));
    assert!(registry.is_insecure(b"internal.example"));
    assert!(!registry.is_insecure(b"registry.example"));
}

#[test]
fn references_embed_tag_and_digest() {
    assert_eq!(
        make_reference(b"registry.example/org", b"web", b"v1"),
        s("registry.example/org/web:v1")
    );
    assert_eq!(
        make_pinned_reference(b"registry.example/org", b"web", b"v1", b"sha256:abc"),
        s("registry.example/org/web:v1@sha256:abc")
    );
}

#[test]
fn not_found_means_no_digest_yet() {
    assert!(matches!(try_resolve_digest(ManifestFetch::NotFound), Ok(None)));
    assert!(matches!(try_resolve_digest(ManifestFetch::ManifestUnknown), Ok(None)));
    match try_resolve_digest(ManifestFetch::Digest(s("sha256:aa"))) {
        Ok(Some(d)) => assert_eq!(d, s("sha256:aa")),
        _ => panic!("expected the digest"),
    }
    assert!(try_resolve_digest(ManifestFetch::Failed(s("boom"))).is_err());
}

/// An image with `n` one-byte layers and a fixed platform.
fn stub_image(n: usize) -> Image {
    let mut layers = Vec::new();
    let mut descs = Vec::new();
    for i in 0..n {
        let data = vec![i as u8];
        let digest = sha256_digest(&data);
        descs.push(Descriptor {
            media_type: s("application/vnd.oci.image.layer.v1.tar"),
            digest: digest.clone(),
            size: 1,
            annotations: None,
        });
        layers.push(steiger::image::ImageLayer {
            data,
            media_type: s("application/vnd.oci.image.layer.v1.tar"),
            annotations: None,
        });
    }
    let manifest = Manifest {
        schema_version: 2,
        media_type: None,
        config: Descriptor {
            media_type: s("application/vnd.oci.image.config.v1+json"),
            digest: sha256_digest(b"{}"),
            size: 2,
            annotations: None,
        },
        layers: descs,
        annotations: None,
    };
    let digest = steiger::image::compute_digest(&manifest);
    Image {
        digest,
        config: ConfigBlob { data: s("{}"), media_type: s("c"), annotations: None },
        manifest,
        platform: Some(Platform { os: s("linux"), architecture: s("amd64"), variant: None }),
        layers,
    }
}

/// Drives one push against a stub registry that holds nothing,
/// counting the operations performed. Returns (probes, uploads,
/// config pushes, manifest pushes, the finished machine).
fn drive_full_push(mut machine: PushMachine) -> (usize, usize, usize, usize, PushMachine) {
    let mut probes = 0;
    let mut uploads = 0;
    let mut configs = 0;
    let mut manifests = 0;
    machine.on_authenticated();
    let skipped = machine.on_digest_resolved(None);
    assert!(!skipped);
    loop {
        match machine.start_blob_op() {
            Some(layer) => {
                probes += 1;
                // The stub registry holds no blob: probe misses, an
                // upload follows and succeeds.
                machine.on_probe_missing(layer);
                uploads += 1;
                machine.on_blob_uploaded(layer);
            },
            None => break,
        }
    }
    assert!(machine.blobs_settled());
    machine.on_config_pushed(s("https://registry.example/c"));
    configs += 1;
    machine.on_manifest_pushed(s("https://registry.example/m"));
    manifests += 1;
    (probes, uploads, configs, manifests, machine)
}

#[test]
fn end_to_end_publish_then_skip() {
    // First publish: an empty registry takes one blob, the config and
    // the manifest.
    let image = stub_image(1);
    let digest = image.digest.clone();
    let registry = Registry::with_config(RegistryAuth::Anonymous, &vec![]);
    let reference = make_reference(b"registry.example/org", b"web", b"v1");
    let machine = registry.plan_push(reference.clone(), image);
    let (probes, uploads, configs, manifests, machine) = drive_full_push(machine);
    assert_eq!((probes, uploads, configs, manifests), (1, 1, 1, 1));
    assert!(matches!(machine.phase, PushPhase::Done(PushOutcome::Pushed { .. })));

    // The deployable reference pins the digest.
    let pinned = make_pinned_reference(b"registry.example/org", b"web", b"v1", &digest);
    let expected_prefix = b"registry.example/org/web:v1@sha256:";
    assert_eq!(&pinned[..expected_prefix.len()], &expected_prefix[..]);

    // Second publish of the identical image: the remote digest now
    // matches, so nothing at all is transferred.
    let image2 = stub_image(1);
    assert_eq!(image2.digest, digest);
    let mut machine2 = registry.plan_push(reference, image2);
    machine2.on_authenticated();
    let skipped = machine2.on_digest_resolved(Some(digest.clone()));
    assert!(skipped);
    assert!(machine2.start_blob_op().is_none());
    assert!(matches!(machine2.phase, PushPhase::Done(PushOutcome::Skipped { .. })));
    let pinned2 = make_pinned_reference(b"registry.example/org", b"web", b"v1", &digest);
    assert_eq!(pinned, pinned2);
}

#[test]
fn a_different_remote_digest_is_not_a_skip() {
    let image = stub_image(1);
    let registry = Registry::with_config(RegistryAuth::Anonymous, &vec![]);
    let mut machine = registry.plan_push(s("r/a:t"), image);
    machine.on_authenticated();
    let skipped = machine.on_digest_resolved(Some(s("sha256:somethingelse")));
    assert!(!skipped);
    assert!(matches!(machine.phase, PushPhase::Blobs));
}

#[test]
fn in_flight_blob_operations_never_exceed_sixteen() {
    let image = stub_image(40);
    let registry = Registry::with_config(RegistryAuth::Anonymous, &vec![]);
    let mut machine = registry.plan_push(s("r/a:t"), image);
    machine.on_authenticated();
    machine.on_digest_resolved(None);
    let mut max_in_flight = 0;
    let mut pending_ops: Vec<usize> = Vec::new();
    // Start as many operations as the machine allows before finishing
    // any: the machine stops handing out work at the bound.
    loop {
        match machine.start_blob_op() {
            Some(layer) => {
                pending_ops.push(layer);
                if machine.in_flight > max_in_flight {
                    max_in_flight = machine.in_flight;
                }
            },
            None => break,
        }
    }
    assert_eq!(max_in_flight, 16);
    // Finishing one operation frees exactly one slot.
    machine.on_probe_found(pending_ops.pop().unwrap());
    assert_eq!(machine.in_flight, 15);
    assert!(machine.start_blob_op().is_some());
    assert_eq!(machine.in_flight, 16);
    assert!(machine.start_blob_op().is_none());
}

#[test]
fn a_failed_blob_aborts_the_push() {
    let image = stub_image(2);
    let registry = Registry::with_config(RegistryAuth::Anonymous, &vec![]);
    let mut machine = registry.plan_push(s("r/a:t"), image);
    machine.on_authenticated();
    machine.on_digest_resolved(None);
    let layer = machine.start_blob_op().unwrap();
    machine.on_blob_failed(layer);
    assert!(matches!(machine.phase, PushPhase::Failed));
    assert!(machine.start_blob_op().is_none());
}

#[test]
fn probes_that_find_blobs_skip_their_uploads() {
    let image = stub_image(3);
    let registry = Registry::with_config(RegistryAuth::Anonymous, &vec![]);
    let mut machine = registry.plan_push(s("r/a:t"), image);
    machine.on_authenticated();
    machine.on_digest_resolved(None);
    let mut uploads = 0;
    loop {
        match machine.start_blob_op() {
            Some(layer) => {
                if layer == 1 {
                    // This blob is already on the registry.
                    machine.on_probe_found(layer);
                } else {
                    machine.on_probe_missing(layer);
                    uploads += 1;
                    machine.on_blob_uploaded(layer);
                }
            },
            None => break,
        }
    }
    assert_eq!(uploads, 2);
    assert!(machine.blobs_settled());
}
