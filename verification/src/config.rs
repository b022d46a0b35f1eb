//! The declarative configuration of one run: the named build targets,
//! each bound to exactly one backend, and the named releases to
//! deploy. Loading, templating and profiles are a caller's concern;
//! the library consumes the loaded values.

use vstd::prelude::*;
use crate::canon::kv_view;
use crate::git::State;
use crate::text::{lit, sub_bytes};

verus! {

/// A bazel target set: artifact names mapped to bazel labels, and
/// platform strings mapped to bazel platform labels.
pub struct Bazel {
    pub targets: Vec<(Vec<u8>, Vec<u8>)>,
    pub platforms: Vec<(Vec<u8>, Vec<u8>)>,
}

/// A docker build: a context directory, an optional dockerfile, build
/// arguments and extra hosts.
pub struct Docker {
    pub context: Vec<u8>,
    pub dockerfile: Option<Vec<u8>>,
    pub build_args: Vec<(Vec<u8>, Vec<u8>)>,
    pub hosts: Vec<(Vec<u8>, Vec<u8>)>,
}

/// A ko build: an import path, defaulting to the current directory.
pub struct Ko {
    pub import_path: Option<Vec<u8>>,
}

/// A nix build: artifact names mapped to flake attribute paths, and an
/// optional flake directory.
pub struct Nix {
    pub packages: Vec<(Vec<u8>, Vec<u8>)>,
    pub flake: Option<Vec<u8>>,
}

/// One build target's configuration: exactly one backend kind.
pub enum Build {
    Ko(Ko),
    Bazel(Bazel),
    Docker(Docker),
    Nix(Nix),
}

/// A helm release: chart path, optional namespace and timeout, value
/// overrides and value files.
pub struct Helm {
    pub path: Vec<u8>,
    pub namespace: Option<Vec<u8>>,
    pub timeout: Option<Vec<u8>>,
    pub values: Vec<(Vec<u8>, Vec<u8>)>,
    pub values_files: Vec<Vec<u8>>,
}

/// One release's configuration.
pub enum Release {
    Helm(Helm),
}

/// A configuration profile: extra template variables.
pub struct Profile {
    pub vars: Vec<(Vec<u8>, Vec<u8>)>,
}

/// The whole configuration of a run. Fixed once loaded.
pub struct Config {
    pub build: Vec<(Vec<u8>, Build)>,
    pub deploy: Vec<(Vec<u8>, Release)>,
    pub insecure_registries: Vec<Vec<u8>>,
    pub default_repo: Option<Vec<u8>>,
    pub tag_format: Vec<u8>,
}

impl Config {
    /// True when no two build targets share a name. Two targets with
    /// one name would silently shadow each other when outputs merge,
    /// so a configuration is rejected unless this holds.
    pub fn targets_unique(&self) -> (r: bool)
        ensures
            r == forall|i: int, j: int|
                0 <= i < j < self.build@.len() ==> (#[trigger] self.build@[i]).0@ != (
                #[trigger] self.build@[j]).0@,
    {
        let n = self.build.len();
        let mut i: usize = 0;
        while i < n
            invariant
                i <= n,
                n == self.build@.len(),
                forall|a: int, b: int|
                    0 <= a < b < self.build@.len() && b < i ==> (#[trigger] self.build@[a]).0@
                        != (#[trigger] self.build@[b]).0@,
            decreases n - i,
        {
            let mut j: usize = 0;
            while j < i
                invariant
                    j <= i < n,
                    n == self.build@.len(),
                    forall|a: int, b: int|
                        0 <= a < b < self.build@.len() && b < i ==> (#[trigger] self.build@[
                        a]).0@ != (#[trigger] self.build@[b]).0@,
                    forall|a: int|
                        0 <= a < j ==> (#[trigger] self.build@[a]).0@ != self.build@[i as int].0@,
                decreases i - j,
            {
                if crate::text::bytes_eq(
                    self.build[j].0.as_slice(),
                    self.build[i].0.as_slice(),
                ) {
                    return false;
                }
                j = j + 1;
            }
            i = i + 1;
        }
        true
    }
}

/// The template variables the repository state provides, in order:
/// the short commit, the full commit, the tag when the head carries
/// one, and the dirty marker when the tree is dirty.
pub open spec fn spec_git_vars(state: State) -> Seq<(Seq<u8>, Seq<u8>)> {
    seq![
        (lit("gitShortCommit"), state.commit@.take(6)),
        (lit("gitCommit"), state.commit@),
    ] + (match state.tag {
        Option::Some(t) => seq![(lit("gitTag"), t@)],
        Option::None => Seq::empty(),
    }) + (if state.dirty {
        seq![(lit("gitDirty"), lit("-dirty"))]
    } else {
        Seq::empty()
    })
}

/// Extracts the template variables from the repository state.
pub fn extract_git_vars(state: State) -> (r: Vec<(Vec<u8>, Vec<u8>)>)
    requires
        state.commit@.len() >= 6,
    ensures
        kv_view(r@) == spec_git_vars(state),
{
    let ghost st = state;
    let mut out: Vec<(Vec<u8>, Vec<u8>)> = Vec::new();
    let short = sub_bytes(state.commit.as_slice(), 0, 6);
    out.push((crate::text::lit_bytes("gitShortCommit"), short));
    out.push((crate::text::lit_bytes("gitCommit"), state.commit));
    match state.tag {
        Some(t) => {
            out.push((crate::text::lit_bytes("gitTag"), t));
        },
        None => {},
    }
    if state.dirty {
        out.push((crate::text::lit_bytes("gitDirty"), crate::text::lit_bytes("-dirty")));
    }
    proof {
        assert(st.commit@.take(6) =~= st.commit@.subrange(0, 6));
        assert(kv_view(out@) =~= spec_git_vars(st));
    }
    out
}

} // verus!
