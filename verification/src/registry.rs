//! The registry publisher: credential resolution, reference strings,
//! and the push protocol.
//!
//! The protocol itself is a state machine. A driver performs the
//! registry I/O -- resolving the remote digest, probing and uploading
//! blobs, pushing the config and the manifest -- and reports each
//! outcome to the machine, which decides every step: whether the push
//! can be skipped, which blob operation may start next (never more than
//! 16 in flight), and when the config and manifest may follow.

use vstd::prelude::*;
use docker_credential::CredentialRetrievalError as RetrievalError;
use docker_credential::DockerCredential;
use crate::image::Image;
use crate::text::{append_bytes, copy_bytes, find_byte, spec_find_byte, sub_bytes};

verus! {

// ------------------------------------------------------------------
// Credentials.
// ------------------------------------------------------------------

/// How the publisher authenticates against a registry.
pub enum RegistryAuth {
    Anonymous,
    Basic(Vec<u8>, Vec<u8>),
}

/// The outcome of looking up a credential for a registry host, one
/// case per outcome of the credential store.
#[derive(Debug)]
pub enum CredentialLookup {
    Token(Vec<u8>),
    UserPass(Vec<u8>, Vec<u8>),
    HelperCommunicationError,
    MalformedHelperResponse,
    HelperFailure(Vec<u8>, Vec<u8>, Vec<u8>),
    CredentialDecodingError,
    CredentialMismatchError,
    NoCredentialConfigured,
    ConfigNotFound,
    ConfigReadError,
}

/// Why credentials could not be resolved.
#[derive(Debug)]
pub enum CredentialError {
    TokenUnsupported,
    Retrieval(CredentialLookup),
}

/// How a lookup outcome resolves: a username/password pair becomes
/// basic authentication; a missing configuration or a failing helper
/// falls back to anonymous access, which is valid and not an error;
/// everything else is a failure.
pub open spec fn spec_resolve_auth(l: CredentialLookup) -> Result<RegistryAuth, CredentialError> {
    match l {
        CredentialLookup::UserPass(u, p) => Ok(RegistryAuth::Basic(u, p)),
        CredentialLookup::HelperFailure(h, o, e) => Ok(RegistryAuth::Anonymous),
        CredentialLookup::ConfigNotFound => Ok(RegistryAuth::Anonymous),
        CredentialLookup::NoCredentialConfigured => Ok(RegistryAuth::Anonymous),
        CredentialLookup::Token(t) => Err(CredentialError::TokenUnsupported),
        other => Err(CredentialError::Retrieval(other)),
    }
}

/// Resolves a lookup outcome to the authentication to use.
pub fn resolve_auth(lookup: CredentialLookup) -> (r: Result<RegistryAuth, CredentialError>)
    ensures
        r == spec_resolve_auth(lookup),
{
    match lookup {
        CredentialLookup::UserPass(u, p) => Ok(RegistryAuth::Basic(u, p)),
        CredentialLookup::HelperFailure(h, o, e) => Ok(RegistryAuth::Anonymous),
        CredentialLookup::ConfigNotFound => Ok(RegistryAuth::Anonymous),
        CredentialLookup::NoCredentialConfigured => Ok(RegistryAuth::Anonymous),
        CredentialLookup::Token(t) => Err(CredentialError::TokenUnsupported),
        other => Err(CredentialError::Retrieval(other)),
    }
}

/// The registry host of a repository string: the part before the first
/// `/`, or the whole string if it holds none.
pub fn parse_host(repo: &[u8]) -> (r: Vec<u8>)
    ensures
        match spec_find_byte(repo@, 47u8) {
            Some(i) => r@ == repo@.subrange(0, i),
            None => r@ == repo@,
        },
{
    match find_byte(repo, 47) {
        Some(i) => sub_bytes(repo, 0, i),
        None => copy_bytes(repo),
    }
}

/// Relies on docker_credential::get_credential: queries the Docker
/// configuration and credential helpers for the host. The outcome
/// depends on the machine's configuration, so nothing is promised of
/// it; each of the store's outcomes maps to one `CredentialLookup`
/// case.
#[verifier::external_body]
fn lookup_credential(host: &[u8]) -> (r: CredentialLookup) {
    match docker_credential::get_credential(&String::from_utf8_lossy(host)) {
        Ok(DockerCredential::IdentityToken(t)) => CredentialLookup::Token(t.into_bytes()),
        Ok(DockerCredential::UsernamePassword(u, p)) => CredentialLookup::UserPass(u.into_bytes(), p.into_bytes()),
        Err(RetrievalError::HelperCommunicationError) => CredentialLookup::HelperCommunicationError,
        Err(RetrievalError::MalformedHelperResponse) => CredentialLookup::MalformedHelperResponse,
        Err(RetrievalError::HelperFailure { helper, stdout, stderr }) => CredentialLookup::HelperFailure(helper.into_bytes(), stdout.into_bytes(), stderr.into_bytes()),
        Err(RetrievalError::CredentialDecodingError) => CredentialLookup::CredentialDecodingError,
        Err(RetrievalError::CredentialMismatchError) => CredentialLookup::CredentialMismatchError,
        Err(RetrievalError::NoCredentialConfigured) => CredentialLookup::NoCredentialConfigured,
        Err(RetrievalError::ConfigNotFound) => CredentialLookup::ConfigNotFound,
        Err(RetrievalError::ConfigReadError) => CredentialLookup::ConfigReadError,
    }
}

/// Loads the credentials for a repository's registry host: whatever
/// the lookup returns is resolved by [`spec_resolve_auth`].
pub fn load_credentials(repo: &[u8]) -> (r: Result<RegistryAuth, CredentialError>)
    ensures
        exists|l: CredentialLookup| r == spec_resolve_auth(l),
{
    let host = parse_host(repo);
    let lookup = lookup_credential(host.as_slice());
    let ghost lk = lookup;
    let r = resolve_auth(lookup);
    proof {
        assert(r == spec_resolve_auth(lk));
    }
    r
}

/// Why a push failed.
#[derive(Debug)]
pub enum PushError {
    /// The registry answered a required operation with a failure;
    /// carries its message.
    Oci(Vec<u8>),
}

/// The outcome of asking the registry for a manifest digest, one case
/// per response class.
#[derive(Debug)]
pub enum ManifestFetch {
    /// The manifest exists and carries this digest.
    Digest(Vec<u8>),
    /// The registry reports no such manifest.
    NotFound,
    /// The registry reports the manifest as unknown.
    ManifestUnknown,
    /// Any other failure; carries its message.
    Failed(Vec<u8>),
}

/// Interprets a manifest-digest fetch: a missing or unknown manifest
/// means the image does not exist yet, which is not an error; any
/// other failure is fatal.
pub fn try_resolve_digest(outcome: ManifestFetch) -> (r: Result<Option<Vec<u8>>, PushError>)
    ensures
        match outcome {
            ManifestFetch::Digest(d) => r matches Ok(Some(rd)) && rd == d,
            ManifestFetch::NotFound => r matches Ok(o) && o is None,
            ManifestFetch::ManifestUnknown => r matches Ok(o) && o is None,
            ManifestFetch::Failed(m) => r matches Err(PushError::Oci(rm)) && rm == m,
        },
{
    match outcome {
        ManifestFetch::Digest(d) => Ok(Some(d)),
        ManifestFetch::NotFound => Ok(None),
        ManifestFetch::ManifestUnknown => Ok(None),
        ManifestFetch::Failed(m) => Err(PushError::Oci(m)),
    }
}

// ------------------------------------------------------------------
// The registry handle.
// ------------------------------------------------------------------

/// A registry client configuration: the authentication to use and the
/// hosts spoken to over plain HTTP.
pub struct Registry {
    pub auth: RegistryAuth,
    pub https_except: Vec<Vec<u8>>,
}

impl Registry {
    /// Builds a registry handle: the given hosts, and always
    /// `localhost`, are exempt from HTTPS.
    pub fn with_config(auth: RegistryAuth, insecure_registries: &Vec<Vec<u8>>) -> (r: Registry)
        ensures
            r.auth == auth,
            r.https_except@.len() == insecure_registries@.len() + 1,
            forall|i: int|
                0 <= i < insecure_registries@.len() ==> r.https_except@[i]@
                    == insecure_registries@[i]@,
            r.https_except@[insecure_registries@.len() as int]@ == crate::text::lit("localhost"),
    {
        let mut hosts: Vec<Vec<u8>> = Vec::new();
        let mut i: usize = 0;
        while i < insecure_registries.len()
            invariant
                i <= insecure_registries@.len(),
                hosts@.len() == i,
                forall|j: int| 0 <= j < i ==> hosts@[j]@ == insecure_registries@[j]@,
            decreases insecure_registries@.len() - i,
        {
            hosts.push(copy_bytes(insecure_registries[i].as_slice()));
            i = i + 1;
        }
        hosts.push(crate::text::lit_bytes("localhost"));
        Registry { auth, https_except: hosts }
    }

    /// True when the host is on the plain-HTTP list.
    pub fn is_insecure(&self, host: &[u8]) -> (r: bool)
        ensures
            r == exists|i: int|
                0 <= i < self.https_except@.len() && (#[trigger] self.https_except@[i])@ == host@,
    {
        let mut i: usize = 0;
        while i < self.https_except.len()
            invariant
                i <= self.https_except@.len(),
                forall|j: int| 0 <= j < i ==> (#[trigger] self.https_except@[j])@ != host@,
            decreases self.https_except@.len() - i,
        {
            if crate::text::bytes_eq(self.https_except[i].as_slice(), host) {
                return true;
            }
            i = i + 1;
        }
        false
    }
}

// ------------------------------------------------------------------
// Reference strings.
// ------------------------------------------------------------------

/// The reference string `repo/artifact:tag`.
pub open spec fn spec_reference(repo: Seq<u8>, artifact: Seq<u8>, tag: Seq<u8>) -> Seq<u8> {
    repo + seq![47u8] + artifact + seq![58u8] + tag
}

/// Builds the reference string `repo/artifact:tag`.
pub fn make_reference(repo: &[u8], artifact: &[u8], tag: &[u8]) -> (r: Vec<u8>)
    ensures
        r@ == spec_reference(repo@, artifact@, tag@),
{
    let mut out = copy_bytes(repo);
    out.push(47);
    append_bytes(&mut out, artifact);
    out.push(58);
    append_bytes(&mut out, tag);
    proof {
        assert(out@ =~= spec_reference(repo@, artifact@, tag@));
    }
    out
}

/// The digest-pinned reference string `repo/artifact:tag@digest`.
pub open spec fn spec_pinned_reference(
    repo: Seq<u8>,
    artifact: Seq<u8>,
    tag: Seq<u8>,
    digest: Seq<u8>,
) -> Seq<u8> {
    spec_reference(repo, artifact, tag) + seq![64u8] + digest
}

/// Builds the reference string `repo/artifact:tag@digest`, which pins
/// a deployment to an exact content version.
pub fn make_pinned_reference(repo: &[u8], artifact: &[u8], tag: &[u8], digest: &[u8]) -> (r: Vec<
    u8,
>)
    ensures
        r@ == spec_pinned_reference(repo@, artifact@, tag@, digest@),
{
    let mut out = make_reference(repo, artifact, tag);
    out.push(64);
    append_bytes(&mut out, digest);
    proof {
        assert(out@ =~= spec_pinned_reference(repo@, artifact@, tag@, digest@));
    }
    out
}

// ------------------------------------------------------------------
// The push protocol.
// ------------------------------------------------------------------

/// The most blob operations allowed in flight at once for one image.
pub open spec fn blob_concurrency_bound() -> int {
    16
}

/// What has happened to one layer's blob so far.
pub enum BlobState {
    /// Not yet looked at.
    Pending,
    /// An existence probe is in flight.
    Probing,
    /// The probe found nothing; an upload is in flight.
    Uploading,
    /// The probe found the blob on the registry; nothing was sent.
    Found,
    /// The upload completed.
    Uploaded,
}

/// Where the push stands.
pub enum PushPhase {
    /// Credentials are being associated with the registry host.
    Authenticating,
    /// The remote manifest digest is being resolved.
    Resolving,
    /// Blobs are being probed and uploaded.
    Blobs,
    /// All blobs are present and the config blob was pushed; only the
    /// manifest remains.
    AwaitManifest { config_url: Vec<u8> },
    /// The push finished.
    Done(PushOutcome),
    /// A blob operation failed; the push is aborted.
    Failed,
}

/// How a finished push ended.
pub enum PushOutcome {
    /// The registry already held this digest; nothing was transferred.
    Skipped { remote: Vec<u8> },
    /// Blobs, config and manifest were pushed.
    Pushed { config_url: Vec<u8>, manifest_url: Vec<u8> },
}

/// A blob operation is in flight.
pub open spec fn blob_active(b: BlobState) -> bool {
    b is Probing || b is Uploading
}

/// The blob is known to be present on the registry.
pub open spec fn blob_settled(b: BlobState) -> bool {
    b is Found || b is Uploaded
}

/// How many entries of `s` satisfy `p`.
pub open spec fn count_where(s: Seq<BlobState>, p: spec_fn(BlobState) -> bool) -> int
    decreases s.len(),
{
    if s.len() == 0 {
        0
    } else {
        (if p(s[0]) {
            1int
        } else {
            0int
        }) + count_where(s.skip(1), p)
    }
}

/// The count is between zero and the length.
pub proof fn lemma_count_bounds(s: Seq<BlobState>, p: spec_fn(BlobState) -> bool)
    ensures
        0 <= count_where(s, p) <= s.len(),
    decreases s.len(),
{
    if s.len() > 0 {
        lemma_count_bounds(s.skip(1), p);
    }
}

/// Updating one entry changes the count by the difference at that
/// entry.
pub proof fn lemma_count_update(
    s: Seq<BlobState>,
    p: spec_fn(BlobState) -> bool,
    i: int,
    v: BlobState,
)
    requires
        0 <= i < s.len(),
    ensures
        count_where(s.update(i, v), p) == count_where(s, p) - (if p(s[i]) {
            1int
        } else {
            0int
        }) + (if p(v) {
            1int
        } else {
            0int
        }),
    decreases i,
{
    if i == 0 {
        assert(s.update(0, v).skip(1) =~= s.skip(1));
        assert(s.update(0, v)[0] == v);
    } else {
        assert(s.update(i, v)[0] == s[0]);
        assert(s.update(i, v).skip(1) =~= s.skip(1).update(i - 1, v));
        assert(s.skip(1)[i - 1] == s[i]);
        lemma_count_update(s.skip(1), p, i - 1, v);
    }
}

/// An entry that satisfies `p` puts the count at one or more.
pub proof fn lemma_count_at_least_one(s: Seq<BlobState>, p: spec_fn(BlobState) -> bool, i: int)
    requires
        0 <= i < s.len(),
        p(s[i]),
    ensures
        count_where(s, p) >= 1,
    decreases i,
{
    lemma_count_bounds(s.skip(1), p);
    if i > 0 {
        assert(s.skip(1)[i - 1] == s[i]);
        lemma_count_at_least_one(s.skip(1), p, i - 1);
    }
}

/// When no entry satisfies `p` the count is zero; when every entry
/// does, it is the length.
pub proof fn lemma_count_uniform(s: Seq<BlobState>, p: spec_fn(BlobState) -> bool)
    ensures
        (forall|j: int| 0 <= j < s.len() ==> !p(s[j])) ==> count_where(s, p) == 0,
        (forall|j: int| 0 <= j < s.len() ==> p(s[j])) ==> count_where(s, p) == s.len(),
    decreases s.len(),
{
    if s.len() > 0 {
        lemma_count_uniform(s.skip(1), p);
        assert(forall|j: int| 0 <= j < s.skip(1).len() ==> #[trigger] s.skip(1)[j] == s[j + 1]);
    }
}

/// The active-operation predicate, as one shared value.
pub open spec fn active_pred() -> spec_fn(BlobState) -> bool {
    |b: BlobState| blob_active(b)
}

/// The untouched-layer predicate, as one shared value.
pub open spec fn pending_pred() -> spec_fn(BlobState) -> bool {
    |b: BlobState| b is Pending
}

/// The upload-started predicate, as one shared value.
pub open spec fn upload_pred() -> spec_fn(BlobState) -> bool {
    |b: BlobState| b is Uploading || b is Uploaded
}

/// The push protocol for one image against one reference.
pub struct PushMachine {
    /// The image being published; consumed by the push.
    pub image: Image,
    /// The target reference string.
    pub reference: Vec<u8>,
    /// Where the push stands.
    pub phase: PushPhase,
    /// Per-layer blob progress; same order as the image's layers.
    pub blob_state: Vec<BlobState>,
    /// How many blob operations are in flight right now.
    pub in_flight: usize,
}

impl PushMachine {
    /// The machine's invariant: one state per layer, `in_flight`
    /// counts exactly the active blob operations and never exceeds the
    /// bound, and before the digest decision -- or after a skip -- no
    /// blob has been touched.
    pub open spec fn wf(&self) -> bool {
        &&& self.blob_state@.len() == self.image.layers@.len()
        &&& self.in_flight as int == count_where(self.blob_state@, active_pred())
        &&& self.in_flight as int <= blob_concurrency_bound()
        &&& (self.phase is Authenticating || self.phase is Resolving || self.skipped()
            ==> forall|j: int|
            0 <= j < self.blob_state@.len() ==> (#[trigger] self.blob_state@[j]) is Pending)
    }

    /// The push was skipped because the registry already held the
    /// digest.
    pub open spec fn skipped(&self) -> bool {
        self.phase matches PushPhase::Done(PushOutcome::Skipped { .. })
    }

    /// How many blob probes were started.
    pub open spec fn probes_started(&self) -> int {
        self.blob_state@.len() - count_where(self.blob_state@, pending_pred())
    }

    /// How many blob uploads were started.
    pub open spec fn uploads_started(&self) -> int {
        count_where(self.blob_state@, upload_pred())
    }

    /// The config blob was pushed.
    pub open spec fn config_pushed(&self) -> bool {
        self.phase is AwaitManifest || self.phase matches PushPhase::Done(
            PushOutcome::Pushed { .. },
        )
    }

    /// The manifest was pushed.
    pub open spec fn manifest_pushed(&self) -> bool {
        self.phase matches PushPhase::Done(PushOutcome::Pushed { .. })
    }

    /// The fields a transition never touches.
    pub open spec fn same_subject(&self, other: &PushMachine) -> bool {
        self.image == other.image && self.reference == other.reference
    }

    /// Records that credentials were associated with the registry
    /// host; the remote digest may be resolved next.
    pub fn on_authenticated(&mut self)
        requires
            old(self).wf(),
            old(self).phase is Authenticating,
        ensures
            final(self).wf(),
            final(self).same_subject(old(self)),
            final(self).blob_state == old(self).blob_state,
            final(self).in_flight == old(self).in_flight,
            final(self).phase is Resolving,
    {
        self.phase = PushPhase::Resolving;
    }

    /// Decides on the remote digest: when the registry already holds
    /// the image's digest the push is skipped outright -- no blob,
    /// config or manifest operation will ever start; otherwise the
    /// blob phase begins.
    pub fn on_digest_resolved(&mut self, remote: Option<Vec<u8>>) -> (skip: bool)
        requires
            old(self).wf(),
            old(self).phase is Resolving,
        ensures
            final(self).wf(),
            final(self).same_subject(old(self)),
            final(self).blob_state == old(self).blob_state,
            final(self).in_flight == old(self).in_flight,
            skip == (remote matches Some(d) && d@ == old(self).image.digest@),
            match remote {
                Some(d) => if d@ == old(self).image.digest@ {
                    final(self).phase == PushPhase::Done(PushOutcome::Skipped { remote: d })
                } else {
                    final(self).phase is Blobs
                },
                None => final(self).phase is Blobs,
            },
            final(self).probes_started() == 0,
            final(self).uploads_started() == 0,
    {
        proof {
            lemma_count_uniform(self.blob_state@, pending_pred());
            lemma_count_uniform(self.blob_state@, upload_pred());
        }
        match remote {
            Some(d) => {
                if crate::text::bytes_eq(d.as_slice(), self.image.digest.as_slice()) {
                    self.phase = PushPhase::Done(PushOutcome::Skipped { remote: d });
                    true
                } else {
                    self.phase = PushPhase::Blobs;
                    false
                }
            },
            None => {
                self.phase = PushPhase::Blobs;
                false
            },
        }
    }

    /// Starts the next blob operation if one may start: the first
    /// untouched layer, and only while fewer than 16 operations are in
    /// flight. The caller probes the returned layer's blob with a
    /// one-byte ranged fetch.
    pub fn start_blob_op(&mut self) -> (r: Option<usize>)
        requires
            old(self).wf(),
        ensures
            final(self).wf(),
            final(self).same_subject(old(self)),
            final(self).in_flight as int <= blob_concurrency_bound(),
            match r {
                Some(i) => {
                    &&& old(self).phase is Blobs
                    &&& old(self).in_flight < 16
                    &&& 0 <= i < old(self).blob_state@.len()
                    &&& old(self).blob_state@[i as int] is Pending
                    &&& forall|j: int| 0 <= j < i ==> !(old(self).blob_state@[j] is Pending)
                    &&& final(self).blob_state@ == old(self).blob_state@.update(
                        i as int,
                        BlobState::Probing,
                    )
                    &&& final(self).in_flight == old(self).in_flight + 1
                    &&& final(self).phase == old(self).phase
                    &&& final(self).probes_started() == old(self).probes_started() + 1
                    &&& final(self).uploads_started() == old(self).uploads_started()
                },
                None => {
                    &&& *final(self) == *old(self)
                    &&& (old(self).phase is Blobs && old(self).in_flight < 16 ==> forall|j: int|
                        0 <= j < old(self).blob_state@.len() ==> !(
                        #[trigger] old(self).blob_state@[j] is Pending))
                },
            },
    {
        if !matches!(self.phase, PushPhase::Blobs) {
            return None;
        }
        if self.in_flight >= 16 {
            return None;
        }
        let n = self.blob_state.len();
        let mut i: usize = 0;
        while i < n
            invariant
                i <= n,
                n == self.blob_state@.len(),
                *self == *old(self),
                self.in_flight < 16,
                self.wf(),
                self.phase is Blobs,
                forall|j: int| 0 <= j < i ==> !(#[trigger] self.blob_state@[j] is Pending),
            decreases n - i,
        {
            let pending = matches!(self.blob_state[i], BlobState::Pending);
            if pending {
                proof {
                    lemma_count_update(
                        self.blob_state@,
                        active_pred(),
                        i as int,
                        BlobState::Probing,
                    );
                    lemma_count_update(
                        self.blob_state@,
                        pending_pred(),
                        i as int,
                        BlobState::Probing,
                    );
                    lemma_count_update(
                        self.blob_state@,
                        upload_pred(),
                        i as int,
                        BlobState::Probing,
                    );
                }
                self.blob_state[i] = BlobState::Probing;
                self.in_flight = self.in_flight + 1;
                return Some(i);
            }
            i = i + 1;
        }
        None
    }

    /// Records a successful probe: the blob is already on the
    /// registry, so nothing is uploaded for this layer.
    pub fn on_probe_found(&mut self, layer: usize)
        requires
            old(self).wf(),
            old(self).phase is Blobs,
            layer < old(self).blob_state@.len(),
            old(self).blob_state@[layer as int] is Probing,
        ensures
            final(self).wf(),
            final(self).same_subject(old(self)),
            final(self).phase == old(self).phase,
            final(self).blob_state@ == old(self).blob_state@.update(
                layer as int,
                BlobState::Found,
            ),
            final(self).in_flight == old(self).in_flight - 1,
            final(self).uploads_started() == old(self).uploads_started(),
    {
        proof {
            lemma_count_at_least_one(self.blob_state@, active_pred(), layer as int);
            lemma_count_update(self.blob_state@, active_pred(), layer as int, BlobState::Found);
            lemma_count_update(self.blob_state@, upload_pred(), layer as int, BlobState::Found);
        }
        self.blob_state[layer] = BlobState::Found;
        self.in_flight = self.in_flight - 1;
    }

    /// Records a probe that found nothing: a full upload of this
    /// layer's blob starts, within the same in-flight slot.
    pub fn on_probe_missing(&mut self, layer: usize)
        requires
            old(self).wf(),
            old(self).phase is Blobs,
            layer < old(self).blob_state@.len(),
            old(self).blob_state@[layer as int] is Probing,
        ensures
            final(self).wf(),
            final(self).same_subject(old(self)),
            final(self).phase == old(self).phase,
            final(self).blob_state@ == old(self).blob_state@.update(
                layer as int,
                BlobState::Uploading,
            ),
            final(self).in_flight == old(self).in_flight,
            final(self).uploads_started() == old(self).uploads_started() + 1,
    {
        proof {
            lemma_count_update(self.blob_state@, active_pred(), layer as int, BlobState::Uploading);
            lemma_count_update(self.blob_state@, upload_pred(), layer as int, BlobState::Uploading);
        }
        self.blob_state[layer] = BlobState::Uploading;
    }

    /// Records a finished upload.
    pub fn on_blob_uploaded(&mut self, layer: usize)
        requires
            old(self).wf(),
            old(self).phase is Blobs,
            layer < old(self).blob_state@.len(),
            old(self).blob_state@[layer as int] is Uploading,
        ensures
            final(self).wf(),
            final(self).same_subject(old(self)),
            final(self).phase == old(self).phase,
            final(self).blob_state@ == old(self).blob_state@.update(
                layer as int,
                BlobState::Uploaded,
            ),
            final(self).in_flight == old(self).in_flight - 1,
            final(self).uploads_started() == old(self).uploads_started(),
    {
        proof {
            lemma_count_at_least_one(self.blob_state@, active_pred(), layer as int);
            lemma_count_update(self.blob_state@, active_pred(), layer as int, BlobState::Uploaded);
            lemma_count_update(self.blob_state@, upload_pred(), layer as int, BlobState::Uploaded);
        }
        self.blob_state[layer] = BlobState::Uploaded;
        self.in_flight = self.in_flight - 1;
    }

    /// Records a failed blob operation: the push for this image is
    /// aborted; sibling images publishing concurrently are unaffected.
    pub fn on_blob_failed(&mut self, layer: usize)
        requires
            old(self).wf(),
            old(self).phase is Blobs,
            layer < old(self).blob_state@.len(),
            blob_active(old(self).blob_state@[layer as int]),
        ensures
            final(self).wf(),
            final(self).same_subject(old(self)),
            final(self).phase is Failed,
            final(self).in_flight == old(self).in_flight - 1,
    {
        proof {
            lemma_count_at_least_one(self.blob_state@, active_pred(), layer as int);
            lemma_count_update(self.blob_state@, active_pred(), layer as int, BlobState::Found);
        }
        self.blob_state[layer] = BlobState::Found;
        self.in_flight = self.in_flight - 1;
        self.phase = PushPhase::Failed;
    }

    /// True when every layer's blob is known present and no operation
    /// is in flight: only then may the config blob be pushed.
    pub fn blobs_settled(&self) -> (r: bool)
        requires
            self.wf(),
        ensures
            r == (self.phase is Blobs && self.in_flight == 0 && forall|j: int|
                0 <= j < self.blob_state@.len() ==> blob_settled(#[trigger] self.blob_state@[j])),
    {
        if !matches!(self.phase, PushPhase::Blobs) {
            return false;
        }
        if self.in_flight != 0 {
            return false;
        }
        let n = self.blob_state.len();
        let mut i: usize = 0;
        while i < n
            invariant
                i <= n,
                n == self.blob_state@.len(),
                forall|j: int| 0 <= j < i ==> blob_settled(#[trigger] self.blob_state@[j]),
            decreases n - i,
        {
            let settled = matches!(self.blob_state[i], BlobState::Found | BlobState::Uploaded);
            if !settled {
                return false;
            }
            i = i + 1;
        }
        true
    }

    /// Records that the config blob was pushed. It is pushed
    /// unconditionally, but only once every layer blob is settled.
    pub fn on_config_pushed(&mut self, config_url: Vec<u8>)
        requires
            old(self).wf(),
            old(self).phase is Blobs,
            old(self).in_flight == 0,
            forall|j: int|
                0 <= j < old(self).blob_state@.len() ==> blob_settled(
                    #[trigger] old(self).blob_state@[j],
                ),
        ensures
            final(self).wf(),
            final(self).same_subject(old(self)),
            final(self).blob_state == old(self).blob_state,
            final(self).in_flight == 0,
            final(self).phase == (PushPhase::AwaitManifest { config_url }),
            final(self).uploads_started() == old(self).uploads_started(),
    {
        self.phase = PushPhase::AwaitManifest { config_url };
    }

    /// Records that the manifest was pushed -- strictly after all of
    /// its blobs and the config, since registries validate the
    /// manifest's references when it arrives. The push is complete.
    pub fn on_manifest_pushed(&mut self, manifest_url: Vec<u8>)
        requires
            old(self).wf(),
            old(self).phase is AwaitManifest,
        ensures
            final(self).wf(),
            final(self).same_subject(old(self)),
            final(self).blob_state == old(self).blob_state,
            final(self).in_flight == old(self).in_flight,
            match old(self).phase {
                PushPhase::AwaitManifest { config_url } => final(self).phase == PushPhase::Done(
                    PushOutcome::Pushed { config_url, manifest_url },
                ),
                _ => false,
            },
            final(self).manifest_pushed(),
            final(self).uploads_started() == old(self).uploads_started(),
    {
        let mut taken = PushPhase::Failed;
        core::mem::swap(&mut taken, &mut self.phase);
        match taken {
            PushPhase::AwaitManifest { config_url } => {
                self.phase = PushPhase::Done(PushOutcome::Pushed { config_url, manifest_url });
            },
            _ => {
                proof {
                    assert(false);
                }
            },
        }
    }
}

impl Registry {
    /// Plans the push of one image to one reference. The machine
    /// starts before any registry traffic: credentials first, then the
    /// digest decision, then blobs, config and manifest in that order.
    pub fn plan_push(&self, reference: Vec<u8>, image: Image) -> (m: PushMachine)
        ensures
            m.wf(),
            m.phase is Authenticating,
            m.image == image,
            m.reference == reference,
            m.in_flight == 0,
            m.probes_started() == 0,
            m.uploads_started() == 0,
    {
        let n = image.layers.len();
        let mut blob_state: Vec<BlobState> = Vec::new();
        let mut i: usize = 0;
        while i < n
            invariant
                i <= n,
                blob_state@.len() == i,
                forall|j: int| 0 <= j < i ==> (#[trigger] blob_state@[j]) is Pending,
            decreases n - i,
        {
            blob_state.push(BlobState::Pending);
            i = i + 1;
        }
        proof {
            lemma_count_uniform(blob_state@, active_pred());
            lemma_count_uniform(blob_state@, pending_pred());
            lemma_count_uniform(blob_state@, upload_pred());
        }
        PushMachine { image, reference, phase: PushPhase::Authenticating, blob_state, in_flight: 0 }
    }
}

/// Bounded concurrency: a well-formed machine never has more than 16
/// blob operations in flight.
pub proof fn lemma_bounded_concurrency(m: PushMachine)
    requires
        m.wf(),
    ensures
        m.in_flight <= 16,
{
}

/// Ordering: the manifest is pushed only after the config blob, which
/// in turn is pushed only once every layer blob is settled -- the
/// transitions demand it, and the phases record it.
pub proof fn lemma_manifest_strictly_last(m: PushMachine)
    requires
        m.wf(),
        m.manifest_pushed(),
    ensures
        m.config_pushed(),
{
}

/// Idempotent publish: a push that was skipped because the remote
/// digest matched has started no probe, no upload, no config push and
/// no manifest push.
pub proof fn lemma_skipped_no_transfers(m: PushMachine)
    requires
        m.wf(),
        m.skipped(),
    ensures
        m.probes_started() == 0,
        m.uploads_started() == 0,
        !m.config_pushed(),
        !m.manifest_pushed(),
{
    lemma_count_uniform(m.blob_state@, pending_pred());
    lemma_count_uniform(m.blob_state@, upload_pred());
}

} // verus!
