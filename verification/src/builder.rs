//! The build dispatcher: the contract every backend satisfies, the
//! merged build output, and the aggregation of per-target results.
//!
//! The dispatcher's driver runs one task per configured target. Each
//! task's result -- an output or a failure -- is collected here: all
//! failures are reported together, and outputs are merged by artifact
//! name, a later result replacing an earlier one for the same name.

use vstd::prelude::*;
use crate::config::{Build, Config};
use crate::image::Image;

verus! {

/// The backend kinds a target can be bound to.
#[derive(Clone, Copy, Debug)]
pub enum BuilderKind {
    Ko,
    Bazel,
    Docker,
    Nix,
}

/// Which backend a target configuration selects.
pub open spec fn spec_kind_of(b: Build) -> BuilderKind {
    match b {
        Build::Ko(ko) => BuilderKind::Ko,
        Build::Bazel(bz) => BuilderKind::Bazel,
        Build::Docker(d) => BuilderKind::Docker,
        Build::Nix(n) => BuilderKind::Nix,
    }
}

/// Selects the backend kind for a target configuration.
pub fn kind_of(b: &Build) -> (r: BuilderKind)
    ensures
        r == spec_kind_of(*b),
{
    match b {
        Build::Ko(_) => BuilderKind::Ko,
        Build::Bazel(_) => BuilderKind::Bazel,
        Build::Docker(_) => BuilderKind::Docker,
        Build::Nix(_) => BuilderKind::Nix,
    }
}

/// A build failure of one target, with the backend kind that failed
/// and its message.
#[derive(Debug)]
pub struct BuildFailure {
    pub kind: BuilderKind,
    pub message: Vec<u8>,
}

/// The per-invocation parameters handed to a backend.
pub struct Context {
    pub service_name: Vec<u8>,
    pub platform: Vec<u8>,
}

impl Context {
    /// Builds the context for one target.
    pub fn new(service_name: Vec<u8>, platform: Vec<u8>) -> (r: Context)
        ensures
            r.service_name == service_name,
            r.platform == platform,
    {
        Context { service_name, platform }
    }
}

// ------------------------------------------------------------------
// Build output and its merge.
// ------------------------------------------------------------------

/// A build output: artifact names mapped to the images produced for
/// them.
pub struct Output {
    pub artifacts: Vec<(Vec<u8>, Vec<Image>)>,
}

/// The artifact list as sequences.
pub open spec fn art_view(s: Seq<(Vec<u8>, Vec<Image>)>) -> Seq<(Seq<u8>, Seq<Image>)> {
    Seq::new(s.len(), |i: int| (s[i].0@, s[i].1@))
}

/// The artifact map an entry list denotes; a later entry wins over an
/// earlier one with the same name.
pub open spec fn art_map(s: Seq<(Seq<u8>, Seq<Image>)>) -> Map<Seq<u8>, Seq<Image>>
    decreases s.len(),
{
    if s.len() == 0 {
        Map::empty()
    } else {
        art_map(s.drop_last()).insert(s.last().0, s.last().1)
    }
}

impl View for Output {
    type V = Map<Seq<u8>, Seq<Image>>;

    open spec fn view(&self) -> Map<Seq<u8>, Seq<Image>> {
        art_map(art_view(self.artifacts@))
    }
}

impl Output {
    /// Artifact names are unique.
    pub open spec fn wf(&self) -> bool {
        forall|i: int, j: int|
            0 <= i < j < self.artifacts@.len() ==> art_view(self.artifacts@)[i].0 != art_view(
                self.artifacts@,
            )[j].0
    }

    /// An empty output.
    pub fn new() -> (r: Output)
        ensures
            r.wf(),
            r@ == Map::<Seq<u8>, Seq<Image>>::empty(),
            r.artifacts@.len() == 0,
    {
        let r = Output { artifacts: Vec::new() };
        r
    }

    /// Adds one artifact's images; an artifact already present under
    /// the same name is replaced in full.
    pub fn put(&mut self, name: Vec<u8>, images: Vec<Image>)
        requires
            old(self).wf(),
        ensures
            final(self).wf(),
            final(self)@ == old(self)@.insert(name@, images@),
    {
        let ghost olds = self.artifacts@;
        let ghost nm = name@;
        let ghost ims = images@;
        proof {
            assert(forall|a: int, b: int|
                0 <= a < b < olds.len() ==> art_view(olds)[a].0 != art_view(olds)[b].0);
        }
        let n = self.artifacts.len();
        let mut i: usize = 0;
        while i < n
            invariant
                i <= n,
                n == self.artifacts@.len(),
                self.artifacts@ == olds,
                old(self).artifacts@ == olds,
                name@ == nm,
                images@ == ims,
                forall|a: int, b: int|
                    0 <= a < b < olds.len() ==> art_view(olds)[a].0 != art_view(olds)[b].0,
                forall|j: int| 0 <= j < i ==> art_view(olds)[j].0 != nm,
            decreases n - i,
        {
            if crate::text::bytes_eq(self.artifacts[i].0.as_slice(), name.as_slice()) {
                let ghost idx = i as int;
                proof {
                    assert(art_view(olds)[idx].0 == nm);
                }
                self.artifacts[i] = (name, images);
                proof {
                    assert(art_view(self.artifacts@) =~= art_view(olds).update(idx, (nm, ims)));
                    lemma_art_map_update_rec(art_view(olds), idx, nm, ims);
                    assert(self@ == art_map(art_view(olds)).insert(nm, ims));
                    assert forall|a: int, b: int|
                        0 <= a < b < self.artifacts@.len() implies art_view(
                        self.artifacts@,
                    )[a].0 != art_view(self.artifacts@)[b].0 by {
                        assert(art_view(self.artifacts@)[a].0 == art_view(olds)[a].0);
                        assert(art_view(self.artifacts@)[b].0 == art_view(olds)[b].0);
                    }
                }
                return ;
            }
            i = i + 1;
        }
        self.artifacts.push((name, images));
        proof {
            assert(art_view(self.artifacts@).drop_last() =~= art_view(olds));
            assert(art_view(self.artifacts@).last() == (nm, ims));
            assert(self@ == art_map(art_view(olds)).insert(nm, ims));
            assert forall|a: int, b: int|
                0 <= a < b < self.artifacts@.len() implies art_view(self.artifacts@)[a].0
                != art_view(self.artifacts@)[b].0 by {
                if b < olds.len() {
                    assert(art_view(self.artifacts@)[a].0 == art_view(olds)[a].0);
                    assert(art_view(self.artifacts@)[b].0 == art_view(olds)[b].0);
                } else {
                    assert(art_view(self.artifacts@)[a].0 == art_view(olds)[a].0);
                    assert(art_view(self.artifacts@)[b].0 == nm);
                }
            }
        }
    }

    /// Merges another output into this one: every artifact of `other`
    /// is taken over, replacing an artifact of the same name in full.
    pub fn merge(&mut self, other: Output)
        requires
            old(self).wf(),
            other.wf(),
        ensures
            final(self).wf(),
            final(self)@ == old(self)@.union_prefer_right(other@),
    {
        let ghost oview = other@;
        let ghost os = other.artifacts@;
        let mut rest = other.artifacts;
        let n = rest.len();
        let mut i: usize = 0;
        // Entries are taken in order; with unique names the denoted
        // map grows by exactly one binding per step.
        while i < n
            invariant
                i <= n,
                n == os.len(),
                forall|k: int| i <= k < n ==> rest@[k] == os[k],
                rest@.len() == n,
                self.wf(),
                self@ == old(self)@.union_prefer_right(art_map(art_view(os).take(i as int))),
            decreases n - i,
        {
            let ghost before = self@;
            let entry = rest.remove(i);
            // Putting the entry back keeps the later entries in place.
            rest.insert(i, (Vec::new(), Vec::new()));
            let (name, images) = entry;
            let ghost nm = name@;
            let ghost ims = images@;
            self.put(name, images);
            proof {
                assert(art_view(os).take(i + 1).drop_last() =~= art_view(os).take(i as int));
                assert(art_view(os).take(i + 1).last() == (os[i as int].0@, os[i as int].1@));
                assert(os[i as int].0@ == nm && os[i as int].1@ == ims);
                assert(old(self)@.union_prefer_right(art_map(art_view(os).take(i as int))).insert(
                    nm,
                    ims,
                ) =~= old(self)@.union_prefer_right(
                    art_map(art_view(os).take(i as int)).insert(nm, ims),
                ));
            }
            i = i + 1;
        }
        proof {
            assert(art_view(os).take(n as int) =~= art_view(os));
            assert(self@ == old(self)@.union_prefer_right(oview));
        }
    }
}

/// Updating the entry that carries a name denotes an insert, when no
/// other entry carries it.
proof fn lemma_art_map_update_rec(s: Seq<(Seq<u8>, Seq<Image>)>, idx: int, name: Seq<u8>, images: Seq<Image>)
    requires
        0 <= idx < s.len(),
        s[idx].0 == name,
        forall|i: int, j: int| 0 <= i < j < s.len() ==> s[i].0 != s[j].0,
    ensures
        art_map(s.update(idx, (name, images))) == art_map(s).insert(name, images),
    decreases s.len(),
{
    let t = s.update(idx, (name, images));
    if idx == s.len() - 1 {
        assert(t.drop_last() =~= s.drop_last());
        assert(t.last() == (name, images));
        assert(art_map(t) =~= art_map(s).insert(name, images));
    } else {
        assert(t.drop_last() =~= s.drop_last().update(idx, (name, images)));
        assert(t.last() == s.last());
        assert(forall|i: int, j: int|
            0 <= i < j < s.drop_last().len() ==> s.drop_last()[i].0 != s.drop_last()[j].0);
        assert(s.drop_last()[idx].0 == name);
        lemma_art_map_update_rec(s.drop_last(), idx, name, images);
        assert(s.last().0 != name);
        assert(art_map(s.drop_last()).insert(name, images).insert(s.last().0, s.last().1)
            =~= art_map(s.drop_last()).insert(s.last().0, s.last().1).insert(name, images));
    }
}

/// Merge correctness: for outputs with disjoint artifact names, the
/// merged map is the union of both, no artifact lost, whichever
/// completes first.
pub proof fn lemma_merge_order_irrelevant(a: Output, b: Output)
    requires
        a.wf(),
        b.wf(),
        a@.dom().disjoint(b@.dom()),
    ensures
        a@.union_prefer_right(b@) == b@.union_prefer_right(a@),
        a@.union_prefer_right(b@).dom() == a@.dom() + b@.dom(),
{
    assert(a@.union_prefer_right(b@) =~= b@.union_prefer_right(a@));
    assert(a@.union_prefer_right(b@).dom() =~= a@.dom() + b@.dom());
}

// ------------------------------------------------------------------
// Aggregating per-target results.
// ------------------------------------------------------------------

/// The failures among a result list, in order: the targets whose
/// builds failed, each with its failure.
pub open spec fn spec_failures(rs: Seq<(Vec<u8>, Result<Output, BuildFailure>)>) -> Seq<
    (Vec<u8>, BuildFailure),
>
    decreases rs.len(),
{
    if rs.len() == 0 {
        Seq::empty()
    } else {
        (match rs[0].1 {
            Result::Err(e) => seq![(rs[0].0, e)],
            Result::Ok(o) => Seq::empty(),
        }) + spec_failures(rs.skip(1))
    }
}

/// Every successful output in the list is well formed.
pub open spec fn all_outputs_wf(rs: Seq<(Vec<u8>, Result<Output, BuildFailure>)>) -> bool
    decreases rs.len(),
{
    if rs.len() == 0 {
        true
    } else {
        (match rs[0].1 {
            Result::Ok(o) => o.wf(),
            Result::Err(e) => true,
        }) && all_outputs_wf(rs.skip(1))
    }
}

/// The merge of the successful outputs, in order, later targets
/// replacing earlier ones artifact by artifact.
pub open spec fn spec_merged(rs: Seq<(Vec<u8>, Result<Output, BuildFailure>)>) -> Map<
    Seq<u8>,
    Seq<Image>,
>
    decreases rs.len(),
{
    if rs.len() == 0 {
        Map::empty()
    } else {
        match rs.last().1 {
            Result::Ok(o) => spec_merged(rs.drop_last()).union_prefer_right(o@),
            Result::Err(e) => spec_merged(rs.drop_last()),
        }
    }
}

/// Collecting failures distributes over concatenation.
proof fn lemma_failures_app(
    a: Seq<(Vec<u8>, Result<Output, BuildFailure>)>,
    b: Seq<(Vec<u8>, Result<Output, BuildFailure>)>,
)
    ensures
        spec_failures(a + b) == spec_failures(a) + spec_failures(b),
    decreases a.len(),
{
    if a.len() == 0 {
        assert(a + b =~= b);
        assert(spec_failures(a) + spec_failures(b) =~= spec_failures(b));
    } else {
        assert((a + b).skip(1) =~= a.skip(1) + b);
        lemma_failures_app(a.skip(1), b);
        assert((a + b)[0] == a[0]);
        match a[0].1 {
            Result::Err(e) => {
                assert(seq![(a[0].0, e)] + (spec_failures(a.skip(1)) + spec_failures(b)) =~= (
                seq![(a[0].0, e)] + spec_failures(a.skip(1))) + spec_failures(b));
            },
            Result::Ok(o) => {
                assert(Seq::<(Vec<u8>, BuildFailure)>::empty() + (spec_failures(a.skip(1))
                    + spec_failures(b)) =~= (Seq::<(Vec<u8>, BuildFailure)>::empty()
                    + spec_failures(a.skip(1))) + spec_failures(b));
            },
        }
    }
}

/// Collects the results of all build tasks after every task has
/// finished: if any target failed, every failure is reported together,
/// in target order; if all succeeded, the outputs are merged in order.
pub fn collect_build_results(results: Vec<(Vec<u8>, Result<Output, BuildFailure>)>) -> (r: Result<
    Output,
    Vec<(Vec<u8>, BuildFailure)>,
>)
    requires
        all_outputs_wf(results@),
    ensures
        match r {
            Ok(out) => spec_failures(results@).len() == 0 && out.wf() && out@ == spec_merged(
                results@,
            ),
            Err(fails) => fails@.len() > 0 && fails@ == spec_failures(results@),
        },
{
    let ghost rs = results@;
    proof {
        assert(rs.skip(0) =~= rs);
        assert(all_outputs_wf(rs.skip(0)));
    }
    let mut output = Output::new();
    let mut failures: Vec<(Vec<u8>, BuildFailure)> = Vec::new();
    let n = results.len();
    let mut rest = results;
    let mut i: usize = 0;
    while i < n
        invariant
            i <= n,
            n == rs.len(),
            rest@.len() == n,
            forall|k: int| i <= k < n ==> rest@[k] == rs[k],
            output.wf(),
            output@ == spec_merged(rs.take(i as int)),
            failures@ == spec_failures(rs.take(i as int)),
            all_outputs_wf(rs.skip(i as int)),
        decreases n - i,
    {
        proof {
            assert(rs.skip(i as int)[0] == rs[i as int]);
            assert(rs.skip(i as int).skip(1) =~= rs.skip(i + 1));
        }
        let entry = rest.remove(i);
        rest.insert(i, (Vec::new(), Err(BuildFailure { kind: BuilderKind::Ko, message: Vec::new() })));
        let (name, result) = entry;
        proof {
            assert(rs.take(i + 1).drop_last() =~= rs.take(i as int));
            assert(rs.take(i + 1).last() == rs[i as int]);
            assert(rs.take(i + 1) =~= rs.take(i as int) + seq![rs[i as int]]);
            lemma_failures_app(rs.take(i as int), seq![rs[i as int]]);
            assert(seq![rs[i as int]].skip(1) =~= Seq::<
                (Vec<u8>, Result<Output, BuildFailure>),
            >::empty());
            assert(spec_failures(
                Seq::<(Vec<u8>, Result<Output, BuildFailure>)>::empty(),
            ) =~= Seq::<(Vec<u8>, BuildFailure)>::empty());
            assert((name, result) == rs[i as int]);
            assert(match rs[i as int].1 {
                Result::Ok(o) => o.wf(),
                Result::Err(e) => true,
            });
        }
        match result {
            Ok(o) => {
                output.merge(o);
                proof {
                    match rs[i as int].1 {
                        Result::Ok(oo) => {
                            assert(spec_failures(seq![rs[i as int]]) =~= Seq::<
                                (Vec<u8>, BuildFailure),
                            >::empty());
                            assert(failures@ =~= spec_failures(rs.take(i + 1)));
                        },
                        Result::Err(e) => {
                            assert(false);
                        },
                    }
                }
            },
            Err(e) => {
                failures.push((name, e));
                proof {
                    match rs[i as int].1 {
                        Result::Err(ee) => {
                            assert(spec_failures(seq![rs[i as int]]) =~= seq![(
                                rs[i as int].0,
                                ee,
                            )]);
                            assert(failures@ =~= spec_failures(rs.take(i + 1)));
                        },
                        Result::Ok(o) => {
                            assert(false);
                        },
                    }
                }
            },
        }
        i = i + 1;
    }
    proof {
        assert(rs.take(n as int) =~= rs);
    }
    if failures.len() > 0 {
        Err(failures)
    } else {
        Ok(output)
    }
}

/// Partial-failure isolation: when exactly one target fails, the
/// aggregate reports exactly one failure, naming that target.
pub proof fn lemma_single_failure(rs: Seq<(Vec<u8>, Result<Output, BuildFailure>)>, i: int)
    requires
        0 <= i < rs.len(),
        rs[i].1 is Err,
        forall|j: int| 0 <= j < rs.len() && j != i ==> (#[trigger] rs[j].1) is Ok,
    ensures
        spec_failures(rs).len() == 1,
        spec_failures(rs)[0].0 == rs[i].0,
    decreases i,
{
    if i == 0 {
        assert forall|j: int| 0 <= j < rs.skip(1).len() implies (#[trigger] rs.skip(1)[j].1)
            is Ok by {
            assert(rs.skip(1)[j] == rs[j + 1]);
        }
        lemma_failures_none(rs.skip(1));
    } else {
        assert(rs[0].1 is Ok);
        assert(rs.skip(1)[i - 1] == rs[i]);
        assert forall|j: int|
            0 <= j < rs.skip(1).len() && j != i - 1 implies (#[trigger] rs.skip(1)[j].1)
            is Ok by {
            assert(rs.skip(1)[j] == rs[j + 1]);
        }
        lemma_single_failure(rs.skip(1), i - 1);
    }
}

/// A result list with no failed target collects no failures.
proof fn lemma_failures_none(rs: Seq<(Vec<u8>, Result<Output, BuildFailure>)>)
    requires
        forall|j: int| 0 <= j < rs.len() ==> (#[trigger] rs[j].1) is Ok,
    ensures
        spec_failures(rs).len() == 0,
    decreases rs.len(),
{
    if rs.len() > 0 {
        assert forall|j: int| 0 <= j < rs.skip(1).len() implies (#[trigger] rs.skip(1)[j].1)
            is Ok by {
            assert(rs.skip(1)[j] == rs[j + 1]);
        }
        lemma_failures_none(rs.skip(1));
    }
}

// ------------------------------------------------------------------
// The dispatcher.
// ------------------------------------------------------------------

/// The dispatcher: one cached backend handle per kind, created at most
/// once per run and reused by every target of that kind.
pub struct MetaBuild {
    pub config: Config,
    pub ko: Option<crate::ko::KoBuilder>,
    pub bazel: Option<crate::bazel::BazelBuilder>,
    pub docker: Option<crate::docker::DockerBuilder>,
    pub nix: Option<crate::nix::NixBuilder>,
}

/// A backend handle of any kind.
pub enum BackendHandle {
    Ko(crate::ko::KoBuilder),
    Bazel(crate::bazel::BazelBuilder),
    Docker(crate::docker::DockerBuilder),
    Nix(crate::nix::NixBuilder),
}

impl MetaBuild {
    /// A dispatcher with no backend initialized yet.
    pub fn new(config: Config) -> (r: MetaBuild)
        ensures
            r.config == config,
            r.ko is None,
            r.bazel is None,
            r.docker is None,
            r.nix is None,
    {
        MetaBuild { config, ko: None, bazel: None, docker: None, nix: None }
    }

    /// True when the backend of this kind is already initialized.
    pub fn has_backend(&self, kind: &BuilderKind) -> (r: bool)
        ensures
            r == match *kind {
                BuilderKind::Ko => self.ko is Some,
                BuilderKind::Bazel => self.bazel is Some,
                BuilderKind::Docker => self.docker is Some,
                BuilderKind::Nix => self.nix is Some,
            },
    {
        match kind {
            BuilderKind::Ko => self.ko.is_some(),
            BuilderKind::Bazel => self.bazel.is_some(),
            BuilderKind::Docker => self.docker.is_some(),
            BuilderKind::Nix => self.nix.is_some(),
        }
    }

    /// Caches an initialized backend handle; each kind is registered
    /// at most once per run and then reused by every target of that
    /// kind.
    pub fn register_backend(&mut self, handle: BackendHandle)
        requires
            match handle {
                BackendHandle::Ko(h) => old(self).ko is None,
                BackendHandle::Bazel(h) => old(self).bazel is None,
                BackendHandle::Docker(h) => old(self).docker is None,
                BackendHandle::Nix(h) => old(self).nix is None,
            },
        ensures
            final(self).config == old(self).config,
            match handle {
                BackendHandle::Ko(h) => final(self).ko == Some(h) && final(self).bazel == old(
                    self,
                ).bazel && final(self).docker == old(self).docker && final(self).nix == old(
                    self,
                ).nix,
                BackendHandle::Bazel(h) => final(self).bazel == Some(h) && final(self).ko == old(
                    self,
                ).ko && final(self).docker == old(self).docker && final(self).nix == old(self).nix,
                BackendHandle::Docker(h) => final(self).docker == Some(h) && final(self).ko == old(
                    self,
                ).ko && final(self).bazel == old(self).bazel && final(self).nix == old(self).nix,
                BackendHandle::Nix(h) => final(self).nix == Some(h) && final(self).ko == old(
                    self,
                ).ko && final(self).bazel == old(self).bazel && final(self).docker == old(
                    self,
                ).docker,
            },
    {
        match handle {
            BackendHandle::Ko(h) => {
                self.ko = Some(h);
            },
            BackendHandle::Bazel(h) => {
                self.bazel = Some(h);
            },
            BackendHandle::Docker(h) => {
                self.docker = Some(h);
            },
            BackendHandle::Nix(h) => {
                self.nix = Some(h);
            },
        }
    }

    /// The dispatch plan: one entry per configured target, in
    /// configuration order, naming the target and the backend kind
    /// that must run it.
    pub fn plan(&self) -> (r: Vec<(Vec<u8>, BuilderKind)>)
        ensures
            r@.len() == self.config.build@.len(),
            forall|i: int|
                0 <= i < r@.len() ==> (#[trigger] r@[i]).0@ == self.config.build@[i].0@ && r@[i].1
                    == spec_kind_of(self.config.build@[i].1),
    {
        let mut out: Vec<(Vec<u8>, BuilderKind)> = Vec::new();
        let n = self.config.build.len();
        let mut i: usize = 0;
        while i < n
            invariant
                i <= n,
                n == self.config.build@.len(),
                out@.len() == i,
                forall|j: int|
                    0 <= j < i ==> (#[trigger] out@[j]).0@ == self.config.build@[j].0@
                        && out@[j].1 == spec_kind_of(self.config.build@[j].1),
            decreases n - i,
        {
            let name = crate::text::copy_bytes(self.config.build[i].0.as_slice());
            let kind = kind_of(&self.config.build[i].1);
            out.push((name, kind));
            i = i + 1;
        }
        out
    }
}

} // verus!
