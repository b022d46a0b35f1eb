//! The deploy stage: the helm adapter's command-line construction and
//! the aggregation of per-release results. The helm processes run
//! outside the library; every decision about what to run stands here.

use vstd::prelude::*;
use crate::config::Helm;
use crate::text::{argv_view, lit, lit_bytes, copy_bytes, append_bytes};

verus! {

/// Why a helm release failed.
#[derive(Debug)]
pub enum HelmError {
    /// The `helm` binary was not found.
    Path,
    /// The chart path could not be read; carries the reason.
    Chart(Vec<u8>),
    /// The chart path is not a directory.
    NotADir(Vec<u8>),
    /// `helm upgrade` exited with this code.
    Install { code: i64 },
}

/// What looking at a release's chart path found.
pub enum ChartPath {
    /// The path is a directory.
    Directory,
    /// The path exists but is not a directory.
    NotDirectory,
    /// The path could not be read; carries the reason.
    Unreadable(Vec<u8>),
}

/// One deployment failure.
#[derive(Debug)]
pub enum DeployError {
    /// A helm release failed.
    Helm(HelmError),
    /// Several releases failed; all failures are reported together.
    Multi(MultiError),
}

/// Every failed release of one deployment, in release order.
#[derive(Debug)]
pub struct MultiError {
    pub errors: Vec<(Vec<u8>, HelmError)>,
}

/// What a deployer consumes for one release: its configuration and
/// the build stage's handoff document.
pub struct Context {
    pub input: Helm,
    pub output: crate::outputdoc::Output,
}

impl Context {
    /// Builds the context for one release.
    pub fn new(input: Helm, output: crate::outputdoc::Output) -> (r: Context)
        ensures
            r.input == input,
            r.output == output,
    {
        Context { input, output }
    }
}

/// The camel-cased form of an artifact name. Named, not defined: the
/// value is computed by the `change-case` crate and depends on the
/// input bytes alone.
pub uninterp spec fn camel_of(s: Seq<u8>) -> Seq<u8>;

/// Relies on change_case::camel_case: the camel-cased name is a
/// function of the input bytes alone.
#[verifier::external_body]
fn camel_case(s: &[u8]) -> (r: Vec<u8>)
    ensures
        r@ == camel_of(s@),
{
    change_case::camel_case(&String::from_utf8_lossy(s)).into_bytes()
}

/// A resolved helm backend: the path of its binary.
pub struct HelmDeployer {
    pub binary: Vec<u8>,
}

/// One `--set steiger.<camel name>.image=<reference>` pair per built
/// artifact, from position `i` on.
pub open spec fn spec_image_sets(builds: Seq<crate::outputdoc::Build>, i: int) -> Seq<Seq<u8>>
    decreases builds.len() - i,
{
    if i < 0 || i >= builds.len() {
        Seq::empty()
    } else {
        seq![
            lit("--set"),
            lit("steiger.") + camel_of(builds[i].image_name@) + lit(".image=") + builds[i].tag@,
        ] + spec_image_sets(builds, i + 1)
    }
}

/// One `--set key=value` pair per configured override, from position
/// `i` on.
pub open spec fn spec_value_sets(values: Seq<(Vec<u8>, Vec<u8>)>, i: int) -> Seq<Seq<u8>>
    decreases values.len() - i,
{
    if i < 0 || i >= values.len() {
        Seq::empty()
    } else {
        seq![lit("--set"), values[i].0@ + seq![61u8] + values[i].1@] + spec_value_sets(
            values,
            i + 1,
        )
    }
}

/// One `--values <file>` pair per configured values file, from
/// position `i` on.
pub open spec fn spec_value_files(files: Seq<Vec<u8>>, i: int) -> Seq<Seq<u8>>
    decreases files.len() - i,
{
    if i < 0 || i >= files.len() {
        Seq::empty()
    } else {
        seq![lit("--values"), files[i]@] + spec_value_files(files, i + 1)
    }
}

/// The whole `helm upgrade --install` argument list for one release:
/// an image override per built artifact, the optional timeout and
/// namespace, the configured overrides and values files, and finally
/// the release name and chart path.
pub open spec fn spec_upgrade_args(release: Seq<u8>, ctx: Context) -> Seq<Seq<u8>> {
    spec_image_sets(ctx.output.builds@, 0) + (match ctx.input.timeout {
        Option::Some(t) => seq![lit("--timeout"), t@],
        Option::None => Seq::<Seq<u8>>::empty(),
    }) + (match ctx.input.namespace {
        Option::Some(ns) => seq![lit("--namespace"), ns@],
        Option::None => Seq::<Seq<u8>>::empty(),
    }) + spec_value_sets(ctx.input.values@, 0) + spec_value_files(ctx.input.values_files@, 0)
        + seq![lit("upgrade"), lit("--install"), release, ctx.input.path@]
}

impl HelmDeployer {
    /// Builds the argument list for upgrading or installing one
    /// release.
    pub fn upgrade_args(&self, release: &[u8], ctx: &Context) -> (r: Vec<Vec<u8>>)
        ensures
            argv_view(r@) == spec_upgrade_args(release@, *ctx),
    {
        let mut out: Vec<Vec<u8>> = Vec::new();
        let builds = &ctx.output.builds;
        let bn = builds.len();
        let mut i: usize = 0;
        while i < bn
            invariant
                i <= bn,
                bn == builds@.len(),
                builds@ == ctx.output.builds@,
                argv_view(out@) + spec_image_sets(builds@, i as int) == spec_image_sets(
                    builds@,
                    0,
                ),
            decreases bn - i,
        {
            let ghost prev = argv_view(out@);
            out.push(lit_bytes("--set"));
            let mut arg = lit_bytes("steiger.");
            let camel = camel_case(builds[i].image_name.as_slice());
            append_bytes(&mut arg, camel.as_slice());
            let mid = lit_bytes(".image=");
            append_bytes(&mut arg, mid.as_slice());
            append_bytes(&mut arg, builds[i].tag.as_slice());
            proof {
                assert(arg@ =~= lit("steiger.") + camel_of(builds@[i as int].image_name@) + lit(
                    ".image=",
                ) + builds@[i as int].tag@);
            }
            out.push(arg);
            proof {
                assert(argv_view(out@) =~= prev + seq![
                    lit("--set"),
                    lit("steiger.") + camel_of(builds@[i as int].image_name@) + lit(".image=")
                        + builds@[i as int].tag@,
                ]);
                assert(argv_view(out@) + spec_image_sets(builds@, i + 1) =~= prev
                    + spec_image_sets(builds@, i as int));
            }
            i = i + 1;
        }
        proof {
            assert(spec_image_sets(builds@, bn as int) =~= Seq::<Seq<u8>>::empty());
            assert(argv_view(out@) =~= argv_view(out@) + spec_image_sets(builds@, bn as int));
        }
        let ghost sets_view = argv_view(out@);
        match &ctx.input.timeout {
            Some(t) => {
                out.push(lit_bytes("--timeout"));
                out.push(copy_bytes(t.as_slice()));
                proof {
                    assert(argv_view(out@) =~= sets_view + seq![lit("--timeout"), t@]);
                }
            },
            None => {},
        }
        let ghost after_timeout = argv_view(out@);
        proof {
            assert(after_timeout =~= sets_view + (match ctx.input.timeout {
                Option::Some(t) => seq![lit("--timeout"), t@],
                Option::None => Seq::<Seq<u8>>::empty(),
            }));
        }
        match &ctx.input.namespace {
            Some(ns) => {
                out.push(lit_bytes("--namespace"));
                out.push(copy_bytes(ns.as_slice()));
                proof {
                    assert(argv_view(out@) =~= after_timeout + seq![lit("--namespace"), ns@]);
                }
            },
            None => {},
        }
        let ghost mid_view = argv_view(out@);
        proof {
            assert(mid_view =~= after_timeout + (match ctx.input.namespace {
                Option::Some(ns) => seq![lit("--namespace"), ns@],
                Option::None => Seq::<Seq<u8>>::empty(),
            }));
        }
        let values = &ctx.input.values;
        let vn = values.len();
        let mut k: usize = 0;
        while k < vn
            invariant
                k <= vn,
                vn == values@.len(),
                values@ == ctx.input.values@,
                argv_view(out@) + spec_value_sets(values@, k as int) == mid_view + spec_value_sets(
                    values@,
                    0,
                ),
            decreases vn - k,
        {
            let ghost prev = argv_view(out@);
            out.push(lit_bytes("--set"));
            let mut arg = copy_bytes(values[k].0.as_slice());
            arg.push(61);
            append_bytes(&mut arg, values[k].1.as_slice());
            proof {
                assert(arg@ =~= values@[k as int].0@ + seq![61u8] + values@[k as int].1@);
            }
            out.push(arg);
            proof {
                assert(argv_view(out@) =~= prev + seq![
                    lit("--set"),
                    values@[k as int].0@ + seq![61u8] + values@[k as int].1@,
                ]);
                assert(argv_view(out@) + spec_value_sets(values@, k + 1) =~= prev
                    + spec_value_sets(values@, k as int));
            }
            k = k + 1;
        }
        proof {
            assert(spec_value_sets(values@, vn as int) =~= Seq::<Seq<u8>>::empty());
            assert(argv_view(out@) =~= argv_view(out@) + spec_value_sets(values@, vn as int));
        }
        let ghost files_base = argv_view(out@);
        let files = &ctx.input.values_files;
        let fn_ = files.len();
        let mut f: usize = 0;
        while f < fn_
            invariant
                f <= fn_,
                fn_ == files@.len(),
                files@ == ctx.input.values_files@,
                argv_view(out@) + spec_value_files(files@, f as int) == files_base
                    + spec_value_files(files@, 0),
            decreases fn_ - f,
        {
            let ghost prev = argv_view(out@);
            out.push(lit_bytes("--values"));
            out.push(copy_bytes(files[f].as_slice()));
            proof {
                assert(argv_view(out@) =~= prev + seq![lit("--values"), files@[f as int]@]);
                assert(argv_view(out@) + spec_value_files(files@, f + 1) =~= prev
                    + spec_value_files(files@, f as int));
            }
            f = f + 1;
        }
        proof {
            assert(spec_value_files(files@, fn_ as int) =~= Seq::<Seq<u8>>::empty());
            assert(argv_view(out@) =~= argv_view(out@) + spec_value_files(files@, fn_ as int));
        }
        let ghost before_final = argv_view(out@);
        out.push(lit_bytes("upgrade"));
        out.push(lit_bytes("--install"));
        out.push(copy_bytes(release));
        out.push(copy_bytes(ctx.input.path.as_slice()));
        proof {
            assert(argv_view(out@) =~= before_final + seq![
                lit("upgrade"),
                lit("--install"),
                release@,
                ctx.input.path@,
            ]);
            assert(argv_view(out@) =~= spec_upgrade_args(release@, *ctx));
        }
        out
    }
}

/// Decides whether a release's chart path is usable: only a directory
/// is; a file is rejected as such, and an unreadable path keeps its
/// own reason.
pub fn validate_chart_path(state: ChartPath, path: &[u8]) -> (r: Result<(), HelmError>)
    ensures
        r is Ok <==> state is Directory,
        state is NotDirectory ==> (r matches Err(HelmError::NotADir(p)) && p@ == path@),
        match state {
            ChartPath::Unreadable(reason) => r matches Err(HelmError::Chart(m)) && m == reason,
            _ => true,
        },
{
    match state {
        ChartPath::Directory => Ok(()),
        ChartPath::NotDirectory => Err(HelmError::NotADir(copy_bytes(path))),
        ChartPath::Unreadable(reason) => Err(HelmError::Chart(reason)),
    }
}

/// The deployer: the cached helm handle, created at most once per run.
pub struct MetaDeployer {
    pub config: crate::config::Config,
    pub output: crate::outputdoc::Output,
    pub helm: Option<HelmDeployer>,
}

impl MetaDeployer {
    /// A deployer with no backend initialized yet.
    pub fn new(config: crate::config::Config, output: crate::outputdoc::Output) -> (r:
        MetaDeployer)
        ensures
            r.config == config,
            r.output == output,
            r.helm is None,
    {
        MetaDeployer { config, output, helm: None }
    }
}

/// The failures among the per-release results, in order.
pub open spec fn spec_deploy_failures(rs: Seq<(Vec<u8>, Result<(), HelmError>)>) -> Seq<
    (Vec<u8>, HelmError),
>
    decreases rs.len(),
{
    if rs.len() == 0 {
        Seq::empty()
    } else {
        (match rs[0].1 {
            Result::Err(e) => seq![(rs[0].0, e)],
            Result::Ok(u) => Seq::empty(),
        }) + spec_deploy_failures(rs.skip(1))
    }
}

/// Collecting failures distributes over concatenation.
proof fn lemma_deploy_failures_app(
    a: Seq<(Vec<u8>, Result<(), HelmError>)>,
    b: Seq<(Vec<u8>, Result<(), HelmError>)>,
)
    ensures
        spec_deploy_failures(a + b) == spec_deploy_failures(a) + spec_deploy_failures(b),
    decreases a.len(),
{
    if a.len() == 0 {
        assert(a + b =~= b);
        assert(spec_deploy_failures(a) + spec_deploy_failures(b) =~= spec_deploy_failures(b));
    } else {
        assert((a + b).skip(1) =~= a.skip(1) + b);
        lemma_deploy_failures_app(a.skip(1), b);
        assert((a + b)[0] == a[0]);
        match a[0].1 {
            Result::Err(e) => {
                assert(seq![(a[0].0, e)] + (spec_deploy_failures(a.skip(1))
                    + spec_deploy_failures(b)) =~= (seq![(a[0].0, e)] + spec_deploy_failures(
                    a.skip(1),
                )) + spec_deploy_failures(b));
            },
            Result::Ok(u) => {
                assert(Seq::<(Vec<u8>, HelmError)>::empty() + (spec_deploy_failures(a.skip(1))
                    + spec_deploy_failures(b)) =~= (Seq::<(Vec<u8>, HelmError)>::empty()
                    + spec_deploy_failures(a.skip(1))) + spec_deploy_failures(b));
            },
        }
    }
}

/// Collects the results of all releases after every release has
/// finished: a failing release does not stop its siblings, and every
/// failure is reported together.
pub fn collect_deploy_results(results: Vec<(Vec<u8>, Result<(), HelmError>)>) -> (r: Result<
    (),
    DeployError,
>)
    ensures
        match r {
            Ok(u) => spec_deploy_failures(results@).len() == 0,
            Err(e) => e matches DeployError::Multi(m) && m.errors@.len() > 0 && m.errors@
                == spec_deploy_failures(results@),
        },
{
    let ghost rs = results@;
    let mut failures: Vec<(Vec<u8>, HelmError)> = Vec::new();
    let n = results.len();
    let mut rest = results;
    let mut i: usize = 0;
    while i < n
        invariant
            i <= n,
            n == rs.len(),
            rest@.len() == n,
            forall|k: int| i <= k < n ==> rest@[k] == rs[k],
            failures@ == spec_deploy_failures(rs.take(i as int)),
        decreases n - i,
    {
        let entry = rest.remove(i);
        rest.insert(i, (Vec::new(), Ok(())));
        let (name, result) = entry;
        proof {
            assert(rs.take(i + 1).drop_last() =~= rs.take(i as int));
            assert(rs.take(i + 1) =~= rs.take(i as int) + seq![rs[i as int]]);
            lemma_deploy_failures_app(rs.take(i as int), seq![rs[i as int]]);
            assert(seq![rs[i as int]].skip(1) =~= Seq::<
                (Vec<u8>, Result<(), HelmError>),
            >::empty());
            assert(spec_deploy_failures(
                Seq::<(Vec<u8>, Result<(), HelmError>)>::empty(),
            ) =~= Seq::<(Vec<u8>, HelmError)>::empty());
            assert((name, result) == rs[i as int]);
        }
        match result {
            Ok(u) => {
                proof {
                    match rs[i as int].1 {
                        Result::Ok(uu) => {
                            assert(failures@ =~= spec_deploy_failures(rs.take(i + 1)));
                        },
                        Result::Err(e) => {
                            assert(false);
                        },
                    }
                }
            },
            Err(e) => {
                failures.push((name, e));
                proof {
                    match rs[i as int].1 {
                        Result::Err(ee) => {
                            assert(spec_deploy_failures(seq![rs[i as int]]) =~= seq![(
                                rs[i as int].0,
                                ee,
                            )]);
                            assert(failures@ =~= spec_deploy_failures(rs.take(i + 1)));
                        },
                        Result::Ok(u) => {
                            assert(false);
                        },
                    }
                }
            },
        }
        i = i + 1;
    }
    proof {
        assert(rs.take(n as int) =~= rs);
    }
    if failures.len() > 0 {
        Err(DeployError::Multi(MultiError { errors: failures }))
    } else {
        Ok(())
    }
}

} // verus!
