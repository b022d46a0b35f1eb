//! The bazel backend: command-line construction for `bazel build` and
//! `bazel cquery`, and the interpretation of the cquery output that
//! maps targets to the files they produced.

use vstd::prelude::*;
use crate::json::Json;
use crate::text::{argv_view, lit, lit_bytes, copy_bytes, append_bytes};

verus! {

/// Why a bazel build failed.
#[derive(Debug)]
pub enum BazelError {
    /// The `bazel` binary was not found.
    Path,
    /// Reading the tool's streams failed.
    Io,
    /// `bazel build` exited with this code.
    Build { code: i64 },
    /// The produced layout could not be loaded.
    Image(crate::image::ImageError),
    /// Querying for the outputs failed.
    Exit(crate::exec::ExitError),
    /// The cquery output was not the expected JSON.
    Serde,
    /// No configured target produced this label.
    MissingArtifact(Vec<u8>),
}

/// A resolved bazel backend: the path of its binary.
pub struct BazelBuilder {
    pub binary: Vec<u8>,
}

/// A bazel label in double quotes.
pub open spec fn spec_quoted_label(v: Seq<u8>) -> Seq<u8> {
    seq![34u8] + v + seq![34u8]
}

/// The labels after the first, each preceded by ` union `.
pub open spec fn spec_union_rest(ts: Seq<(Vec<u8>, Vec<u8>)>, i: int) -> Seq<u8>
    decreases ts.len() - i,
{
    if i < 0 || i >= ts.len() {
        Seq::empty()
    } else {
        lit(" union ") + spec_quoted_label(ts[i].1@) + spec_union_rest(ts, i + 1)
    }
}

/// The cquery expression that selects every configured label: the
/// quoted labels joined with ` union `.
pub open spec fn spec_union_expr(ts: Seq<(Vec<u8>, Vec<u8>)>) -> Seq<u8> {
    if ts.len() == 0 {
        Seq::empty()
    } else {
        spec_quoted_label(ts[0].1@) + spec_union_rest(ts, 1)
    }
}

/// The starlark expression that prints each target's label and first
/// output file as a JSON pair.
pub open spec fn spec_starlark_expr() -> Seq<u8> {
    lit(
        "--starlark:expr=json.encode(['{}:{}'.format(target.label.package, target.label.name), [f.path for f in target.files.to_list()][0]])",
    )
}

impl BazelBuilder {
    /// The arguments of the cquery that locates each configured
    /// target's output file.
    pub fn cquery_args(&self, targets: &Vec<(Vec<u8>, Vec<u8>)>) -> (r: Vec<Vec<u8>>)
        ensures
            r@.len() == 4,
            argv_view(r@) == seq![
                lit("cquery"),
                spec_union_expr(targets@),
                lit("--output=starlark"),
                spec_starlark_expr(),
            ],
    {
        let mut expr: Vec<u8> = Vec::new();
        let n = targets.len();
        if n > 0 {
            expr.push(34);
            append_bytes(&mut expr, targets[0].1.as_slice());
            expr.push(34);
            proof {
                assert(expr@ =~= spec_quoted_label(targets@[0].1@));
            }
            let mut i: usize = 1;
            while i < n
                invariant
                    1 <= i <= n,
                    n == targets@.len(),
                    expr@ + spec_union_rest(targets@, i as int) == spec_union_expr(targets@),
                decreases n - i,
            {
                let ghost prev = expr@;
                let sep = lit_bytes(" union ");
                append_bytes(&mut expr, sep.as_slice());
                expr.push(34);
                append_bytes(&mut expr, targets[i].1.as_slice());
                expr.push(34);
                proof {
                    assert(expr@ =~= prev + lit(" union ") + spec_quoted_label(
                        targets@[i as int].1@,
                    ));
                    assert(spec_union_rest(targets@, i as int) == lit(" union ")
                        + spec_quoted_label(targets@[i as int].1@) + spec_union_rest(
                        targets@,
                        i + 1,
                    ));
                    assert(expr@ + spec_union_rest(targets@, i + 1) =~= prev + spec_union_rest(
                        targets@,
                        i as int,
                    ));
                }
                i = i + 1;
            }
            proof {
                assert(spec_union_rest(targets@, n as int) =~= Seq::<u8>::empty());
                assert(expr@ =~= expr@ + spec_union_rest(targets@, n as int));
            }
        }
        let mut out: Vec<Vec<u8>> = Vec::new();
        out.push(lit_bytes("cquery"));
        out.push(expr);
        out.push(lit_bytes("--output=starlark"));
        out.push(
            lit_bytes(
                "--starlark:expr=json.encode(['{}:{}'.format(target.label.package, target.label.name), [f.path for f in target.files.to_list()][0]])",
            ),
        );
        proof {
            assert(argv_view(out@) =~= seq![
                lit("cquery"),
                spec_union_expr(targets@),
                lit("--output=starlark"),
                spec_starlark_expr(),
            ]);
        }
        out
    }

    /// The arguments of one `bazel build` invocation: the platform
    /// flag when the requested platform is configured, then every
    /// configured label in order.
    pub fn build_args(&self, input: &crate::config::Bazel, platform_label: &Option<Vec<u8>>) -> (r:
        Vec<Vec<u8>>)
        ensures
            argv_view(r@) == seq![lit("build")] + (match *platform_label {
                Option::Some(p) => seq![lit("--platforms=") + p@],
                Option::None => Seq::<Seq<u8>>::empty(),
            }) + spec_labels(input.targets@, 0),
    {
        let mut out: Vec<Vec<u8>> = Vec::new();
        out.push(lit_bytes("build"));
        match platform_label {
            Some(p) => {
                let mut arg = lit_bytes("--platforms=");
                append_bytes(&mut arg, p.as_slice());
                out.push(arg);
            },
            None => {},
        }
        let ghost head = argv_view(out@);
        let n = input.targets.len();
        let mut i: usize = 0;
        while i < n
            invariant
                i <= n,
                n == input.targets@.len(),
                argv_view(out@) + spec_labels(input.targets@, i as int) == head + spec_labels(
                    input.targets@,
                    0,
                ),
            decreases n - i,
        {
            let ghost prev = argv_view(out@);
            out.push(copy_bytes(input.targets[i].1.as_slice()));
            proof {
                assert(argv_view(out@) =~= prev + seq![input.targets@[i as int].1@]);
                assert(spec_labels(input.targets@, i as int) == seq![input.targets@[i as int].1@]
                    + spec_labels(input.targets@, i + 1));
                assert(argv_view(out@) + spec_labels(input.targets@, i + 1) =~= prev
                    + spec_labels(input.targets@, i as int));
            }
            i = i + 1;
        }
        proof {
            assert(spec_labels(input.targets@, n as int) =~= Seq::<Seq<u8>>::empty());
            assert(argv_view(out@) =~= argv_view(out@) + spec_labels(input.targets@, n as int));
        }
        out
    }
}

/// The configured labels from position `i` on.
pub open spec fn spec_labels(ts: Seq<(Vec<u8>, Vec<u8>)>, i: int) -> Seq<Seq<u8>>
    decreases ts.len() - i,
{
    if i < 0 || i >= ts.len() {
        Seq::empty()
    } else {
        seq![ts[i].1@] + spec_labels(ts, i + 1)
    }
}

/// The artifact that owns a built label: the first configured target
/// whose label is the one produced; a label no target names is a
/// missing artifact.
pub fn artifact_for_target(targets: &Vec<(Vec<u8>, Vec<u8>)>, label: &[u8]) -> (r: Result<
    Vec<u8>,
    BazelError,
>)
    ensures
        match crate::text::spec_assoc_by_value(targets@, label@) {
            Some(k) => r matches Ok(key) && key@ == k,
            None => r matches Err(BazelError::MissingArtifact(t)) && t@ == label@,
        },
{
    match crate::text::find_key_by_value(targets, label) {
        Some(key) => Ok(key),
        None => Err(BazelError::MissingArtifact(copy_bytes(label))),
    }
}

/// Reads the cquery output: one JSON array per non-empty line, each
/// holding a target label and the path of its first output file.
pub fn parse_cquery_output(output: &[u8]) -> (r: Result<Vec<(Vec<u8>, Vec<u8>)>, BazelError>) {
    let mut pairs: Vec<(Vec<u8>, Vec<u8>)> = Vec::new();
    let n = output.len();
    let mut start: usize = 0;
    while start < n
        invariant
            start <= n,
            n == output@.len(),
        decreases n - start,
    {
        let mut end: usize = start;
        while end < n && output[end] != 10
            invariant
                start <= end <= n,
                n == output@.len(),
            decreases n - end,
        {
            end = end + 1;
        }
        if is_blank(output, start, end) {
            start = if end < n {
                end + 1
            } else {
                end
            };
            continue ;
        }
        let line = crate::text::sub_bytes(output, start, end);
        let j = match crate::json::parse_json(line.as_slice()) {
            Ok(j) => j,
            Err(_) => {
                return Err(BazelError::Serde);
            },
        };
        let items = match &j {
            Json::Arr(items) => items,
            _ => {
                return Err(BazelError::Serde);
            },
        };
        if items.len() != 2 {
            return Err(BazelError::Serde);
        }
        let target = match &items[0] {
            Json::Text(t) => copy_bytes(t.as_slice()),
            _ => {
                return Err(BazelError::Serde);
            },
        };
        let path = match &items[1] {
            Json::Text(t) => copy_bytes(t.as_slice()),
            _ => {
                return Err(BazelError::Serde);
            },
        };
        pairs.push((target, path));
        start = if end < n {
            end + 1
        } else {
            end
        };
    }
    Ok(pairs)
}

/// True when the byte range holds only whitespace.
fn is_blank(s: &[u8], from: usize, to: usize) -> (r: bool)
    requires
        from <= to <= s@.len(),
{
    let mut i: usize = from;
    while i < to
        invariant
            from <= i <= to <= s@.len(),
        decreases to - i,
    {
        let b = s[i];
        if b != 32 && b != 9 && b != 13 {
            return false;
        }
        i = i + 1;
    }
    true
}

} // verus!
