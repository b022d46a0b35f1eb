//! The docker backend: buildkit builder management decisions and
//! command-line construction for `docker buildx build` into an OCI
//! layout. The processes themselves run outside the library.

use vstd::prelude::*;
use crate::json::Json;
use crate::text::{argv_view, lit, lit_bytes, copy_bytes, append_bytes};

verus! {

/// Why a docker build failed.
#[derive(Debug)]
pub enum DockerError {
    /// The `docker` binary was not found.
    Path,
    /// Listing the buildkit builders failed.
    ListBuilders(crate::exec::ExitError),
    /// Creating the buildkit builder failed.
    CreateBuilder(crate::exec::ExitError),
    /// Reading the tool's streams failed.
    Io,
    /// No destination directory could be created.
    TempDir,
    /// The produced layout could not be loaded.
    Image(crate::image::ImageError),
    /// The builder list was not the expected JSON.
    Serde,
    /// `docker buildx build` exited with this code.
    Build { code: i64 },
}

/// Each map entry rendered as `name`, the separator, `value`.
pub open spec fn spec_fmt_map(map: Seq<(Vec<u8>, Vec<u8>)>, sep: u8) -> Seq<Seq<u8>> {
    Seq::new(map.len(), |i: int| map[i].0@ + seq![sep] + map[i].1@)
}

/// Renders each map entry as `name`, the separator, `value`.
pub fn fmt_map(map: Vec<(Vec<u8>, Vec<u8>)>, sep: u8) -> (r: Vec<Vec<u8>>)
    ensures
        r@.len() == map@.len(),
        argv_view(r@) == spec_fmt_map(map@, sep),
{
    let mut out: Vec<Vec<u8>> = Vec::new();
    let n = map.len();
    let mut i: usize = 0;
    while i < n
        invariant
            i <= n,
            n == map@.len(),
            out@.len() == i,
            forall|j: int|
                0 <= j < i ==> argv_view(out@)[j] == map@[j].0@ + seq![sep] + map@[j].1@,
        decreases n - i,
    {
        let mut entry = copy_bytes(map[i].0.as_slice());
        entry.push(sep);
        append_bytes(&mut entry, map[i].1.as_slice());
        proof {
            assert(entry@ =~= map@[i as int].0@ + seq![sep] + map@[i as int].1@);
        }
        let ghost prev = out@;
        out.push(entry);
        i = i + 1;
        proof {
            assert forall|j: int|
                0 <= j < i implies argv_view(out@)[j] == map@[j].0@ + seq![sep] + map@[j].1@ by {
                if j < i - 1 {
                    assert(out@[j] == prev[j]);
                    assert(argv_view(out@)[j] == argv_view(prev)[j]);
                } else {
                    assert(j == i - 1);
                    assert(argv_view(out@)[j] == map@[j].0@ + seq![sep] + map@[j].1@);
                }
            }
        }
    }
    proof {
        assert(argv_view(out@) =~= spec_fmt_map(map@, sep));
    }
    out
}

/// A resolved docker backend: the path of its binary.
pub struct DockerBuilder {
    pub binary: Vec<u8>,
}

/// The name of the buildkit builder instance the build uses.
pub open spec fn spec_builder_name() -> Seq<u8> {
    lit("steiger")
}

impl DockerBuilder {
    /// The arguments that list the buildkit builders as JSON lines.
    pub fn list_builders_args(&self) -> (r: Vec<Vec<u8>>)
        ensures
            r@.len() == 3,
            argv_view(r@) =~= seq![lit("buildx"), lit("ls"), lit("--format=json")],
    {
        let mut out: Vec<Vec<u8>> = Vec::new();
        out.push(lit_bytes("buildx"));
        out.push(lit_bytes("ls"));
        out.push(lit_bytes("--format=json"));
        out
    }

    /// The arguments that create the buildkit builder instance.
    pub fn create_builder_args(&self) -> (r: Vec<Vec<u8>>)
        ensures
            r@.len() == 4,
            argv_view(r@) =~= seq![
                lit("buildx"),
                lit("create"),
                lit("--driver=docker-container"),
                lit("--name=steiger"),
            ],
    {
        let mut out: Vec<Vec<u8>> = Vec::new();
        out.push(lit_bytes("buildx"));
        out.push(lit_bytes("create"));
        out.push(lit_bytes("--driver=docker-container"));
        out.push(lit_bytes("--name=steiger"));
        out
    }
}

/// True when no listed builder carries the expected name, so one must
/// be created.
pub fn needs_builder_creation(names: &Vec<Vec<u8>>) -> (r: bool)
    ensures
        r == !exists|i: int|
            0 <= i < names@.len() && (#[trigger] names@[i])@ == spec_builder_name(),
{
    let expected = lit_bytes("steiger");
    let mut i: usize = 0;
    while i < names.len()
        invariant
            i <= names@.len(),
            expected@ == spec_builder_name(),
            forall|j: int| 0 <= j < i ==> (#[trigger] names@[j])@ != spec_builder_name(),
        decreases names@.len() - i,
    {
        if crate::text::bytes_eq(names[i].as_slice(), expected.as_slice()) {
            return false;
        }
        i = i + 1;
    }
    true
}

/// True when a failed builder creation may be tolerated: the tool
/// exits with code 1 and reports an existing instance, which happens
/// with a remote buildkit driver.
pub fn tolerate_create_failure(code: i64, stderr: &[u8]) -> (r: bool)
    ensures
        r == (code == 1 && crate::text::spec_contains(
            stderr@,
            lit("ERROR: existing instance for"),
        )),
{
    if code != 1 {
        return false;
    }
    let needle = lit_bytes("ERROR: existing instance for");
    crate::text::contains_bytes(stderr, needle.as_slice())
}

/// Reads the builder names out of the JSON lines that listing the
/// builders prints: one object per line, each with a `Name` member.
pub fn parse_builder_names(output: &[u8]) -> (r: Result<Vec<Vec<u8>>, DockerError>) {
    let mut names: Vec<Vec<u8>> = Vec::new();
    let n = output.len();
    let mut start: usize = 0;
    while start < n
        invariant
            start <= n,
            n == output@.len(),
        decreases n - start,
    {
        let mut end: usize = start;
        while end < n && output[end] != 10
            invariant
                start <= end <= n,
                n == output@.len(),
            decreases n - end,
        {
            end = end + 1;
        }
        if end > start {
            let line = crate::text::sub_bytes(output, start, end);
            let j = match crate::json::parse_json(line.as_slice()) {
                Ok(j) => j,
                Err(_) => {
                    return Err(DockerError::Serde);
                },
            };
            let members = match &j {
                Json::Obj(members) => members,
                _ => {
                    return Err(DockerError::Serde);
                },
            };
            let mut found: Option<Vec<u8>> = None;
            let mut k: usize = 0;
            let key = lit_bytes("Name");
            while k < members.len()
                invariant
                    k <= members@.len(),
                decreases members@.len() - k,
            {
                if crate::text::bytes_eq(members[k].0.as_slice(), key.as_slice()) {
                    match &members[k].1 {
                        Json::Text(t) => {
                            found = Some(copy_bytes(t.as_slice()));
                        },
                        _ => {
                            return Err(DockerError::Serde);
                        },
                    }
                }
                k = k + 1;
            }
            match found {
                Some(name) => names.push(name),
                None => {
                    return Err(DockerError::Serde);
                },
            }
        }
        start = if end < n {
            end + 1
        } else {
            end
        };
    }
    Ok(names)
}

/// The flag/value pairs contributed by a formatted map: `flag`,
/// then the entry, for each entry in order.
pub open spec fn spec_flag_pairs(flag: Seq<u8>, items: Seq<Seq<u8>>, i: int) -> Seq<Seq<u8>>
    decreases items.len() - i,
{
    if i < 0 || i >= items.len() {
        Seq::empty()
    } else {
        seq![flag, items[i]] + spec_flag_pairs(flag, items, i + 1)
    }
}

/// The `--output` argument for an OCI layout destination.
pub open spec fn spec_output_arg(dest: Seq<u8>) -> Seq<u8> {
    lit("type=oci,dest=") + dest + lit(",tar=false")
}

/// The `docker buildx build` arguments for one target: the formatted
/// build arguments and extra hosts, then the builder, platform,
/// output, dockerfile -- the configured one, or `Dockerfile` under the
/// context -- and the context directory.
pub open spec fn spec_docker_build_args(
    input: crate::config::Docker,
    platform: Seq<u8>,
    dest: Seq<u8>,
) -> Seq<Seq<u8>> {
    seq![lit("buildx"), lit("build")] + spec_flag_pairs(
        lit("--build-arg"),
        spec_fmt_map(input.build_args@, 61),
        0,
    ) + spec_flag_pairs(lit("--add-host"), spec_fmt_map(input.hosts@, 58), 0) + seq![
        lit("--builder"),
        spec_builder_name(),
        lit("--platform"),
        platform,
        lit("--output"),
        spec_output_arg(dest),
        lit("--file"),
        match input.dockerfile {
            Option::Some(f) => f@,
            Option::None => input.context@ + lit("/Dockerfile"),
        },
        input.context@,
    ]
}

/// Appends `flag`, entry for every entry.
fn emit_flag_pairs(out: &mut Vec<Vec<u8>>, flag: &str, items: &Vec<Vec<u8>>)
    ensures
        argv_view(final(out)@) == argv_view(old(out)@) + spec_flag_pairs(
            lit(flag),
            argv_view(items@),
            0,
        ),
{
    let ghost iv = argv_view(items@);
    let n = items.len();
    let mut i: usize = 0;
    while i < n
        invariant
            i <= n,
            n == items@.len(),
            iv == argv_view(items@),
            argv_view(out@) + spec_flag_pairs(lit(flag), iv, i as int) == argv_view(old(out)@)
                + spec_flag_pairs(lit(flag), iv, 0),
        decreases n - i,
    {
        let ghost prev = out@;
        out.push(lit_bytes(flag));
        out.push(copy_bytes(items[i].as_slice()));
        proof {
            assert(argv_view(out@) =~= argv_view(prev) + seq![lit(flag), iv[i as int]]);
            assert(spec_flag_pairs(lit(flag), iv, i as int) == seq![lit(flag), iv[i as int]]
                + spec_flag_pairs(lit(flag), iv, i + 1));
            assert((argv_view(prev) + seq![lit(flag), iv[i as int]]) + spec_flag_pairs(
                lit(flag),
                iv,
                i + 1,
            ) =~= argv_view(prev) + spec_flag_pairs(lit(flag), iv, i as int));
        }
        i = i + 1;
    }
    proof {
        assert(spec_flag_pairs(lit(flag), iv, n as int) =~= Seq::<Seq<u8>>::empty());
        assert(argv_view(out@) =~= argv_view(out@) + spec_flag_pairs(lit(flag), iv, n as int));
    }
}

impl DockerBuilder {
    /// The arguments of one `docker buildx build` invocation for a
    /// target, building into the destination layout directory.
    pub fn build_args(&self, input: &crate::config::Docker, platform: &[u8], dest: &[u8]) -> (r:
        Vec<Vec<u8>>)
        ensures
            argv_view(r@) == spec_docker_build_args(*input, platform@, dest@),
    {
        let build_args = fmt_map(copy_kv_list(&input.build_args), 61);
        let hosts = fmt_map(copy_kv_list(&input.hosts), 58);
        proof {
            assert(argv_view(build_args@) =~= spec_fmt_map(input.build_args@, 61));
            assert(argv_view(hosts@) =~= spec_fmt_map(input.hosts@, 58));
        }
        let mut out: Vec<Vec<u8>> = Vec::new();
        out.push(lit_bytes("buildx"));
        out.push(lit_bytes("build"));
        let ghost head = argv_view(out@);
        proof {
            assert(head =~= seq![lit("buildx"), lit("build")]);
        }
        emit_flag_pairs(&mut out, "--build-arg", &build_args);
        emit_flag_pairs(&mut out, "--add-host", &hosts);
        out.push(lit_bytes("--builder"));
        out.push(lit_bytes("steiger"));
        out.push(lit_bytes("--platform"));
        out.push(copy_bytes(platform));
        out.push(lit_bytes("--output"));
        let mut output_arg = lit_bytes("type=oci,dest=");
        append_bytes(&mut output_arg, dest);
        let tail = lit_bytes(",tar=false");
        append_bytes(&mut output_arg, tail.as_slice());
        proof {
            assert(output_arg@ =~= spec_output_arg(dest@));
        }
        out.push(output_arg);
        out.push(lit_bytes("--file"));
        match &input.dockerfile {
            Some(f) => {
                out.push(copy_bytes(f.as_slice()));
            },
            None => {
                let mut df = copy_bytes(input.context.as_slice());
                let suffix = lit_bytes("/Dockerfile");
                append_bytes(&mut df, suffix.as_slice());
                proof {
                    assert(df@ =~= input.context@ + lit("/Dockerfile"));
                }
                out.push(df);
            },
        }
        out.push(copy_bytes(input.context.as_slice()));
        proof {
            assert(argv_view(out@) =~= spec_docker_build_args(*input, platform@, dest@));
        }
        out
    }
}

/// Copies a key/value list.
fn copy_kv_list(v: &Vec<(Vec<u8>, Vec<u8>)>) -> (r: Vec<(Vec<u8>, Vec<u8>)>)
    ensures
        r@.len() == v@.len(),
        forall|i: int|
            0 <= i < v@.len() ==> (#[trigger] r@[i]).0@ == v@[i].0@ && r@[i].1@ == v@[i].1@,
{
    let mut out: Vec<(Vec<u8>, Vec<u8>)> = Vec::new();
    let mut i: usize = 0;
    while i < v.len()
        invariant
            i <= v@.len(),
            out@.len() == i,
            forall|j: int|
                0 <= j < i ==> (#[trigger] out@[j]).0@ == v@[j].0@ && out@[j].1@ == v@[j].1@,
        decreases v@.len() - i,
    {
        out.push((copy_bytes(v[i].0.as_slice()), copy_bytes(v[i].1.as_slice())));
        i = i + 1;
    }
    out
}

} // verus!
