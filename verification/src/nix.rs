//! The nix backend: platform conversion, command-line construction for
//! evaluation and builds, and the interpretation of the tool's JSON
//! event lines into progress reports.

use vstd::prelude::*;
use crate::json::Json;
use crate::text::{
    argv_view, lit, lit_bytes, copy_bytes, append_bytes, sub_bytes, spec_find_byte, find_byte,
    spec_starts_at, starts_at, spec_assoc,
};

verus! {

/// Why a nix build failed.
#[derive(Debug)]
pub enum NixError {
    /// A nix binary was not found.
    Path,
    /// Reading the tool's streams failed.
    Io,
    /// The produced layout could not be loaded.
    Image(crate::image::ImageError),
    /// Querying for output failed.
    Exit(crate::exec::ExitError),
    /// A tool message was not the expected JSON.
    Serde,
    /// Evaluation reported this error.
    Eval(Vec<u8>),
    /// `nix build` exited with this code.
    Build { code: i64 },
    /// The platform string holds no `/`.
    InvalidPlatform(Vec<u8>),
    /// The platform's architecture has no nix system equivalent.
    UnsupportedPlatform(Vec<u8>),
    /// No configured package produced this attribute.
    MissingArtifact(Vec<u8>),
}

/// Converts an `os/arch` platform to a nix system string `arch-os`,
/// mapping `arm64` to `aarch64` and `amd64` to `x86_64`. A platform
/// without `/` is invalid; any other architecture is unsupported.
pub fn try_system(platform: &[u8]) -> (r: Result<Vec<u8>, NixError>)
    ensures
        match spec_find_byte(platform@, 47u8) {
            None => r matches Err(NixError::InvalidPlatform(p)) && p@ == platform@,
            Some(i) => {
                let os = platform@.subrange(0, i);
                let arch = platform@.subrange(i + 1, platform@.len() as int);
                if arch == lit("arm64") {
                    r matches Ok(s) && s@ == lit("aarch64") + seq![45u8] + os
                } else if arch == lit("amd64") {
                    r matches Ok(s) && s@ == lit("x86_64") + seq![45u8] + os
                } else {
                    r matches Err(NixError::UnsupportedPlatform(p)) && p@ == platform@
                }
            },
        },
{
    let i = match find_byte(platform, 47) {
        Some(i) => i,
        None => {
            return Err(NixError::InvalidPlatform(copy_bytes(platform)));
        },
    };
    let n = platform.len();
    assert(i < n);
    let os = sub_bytes(platform, 0, i);
    let arch = sub_bytes(platform, i + 1, n);
    let arm = lit_bytes("arm64");
    let amd = lit_bytes("amd64");
    let mapped: Vec<u8> = if crate::text::bytes_eq(arch.as_slice(), arm.as_slice()) {
        lit_bytes("aarch64")
    } else if crate::text::bytes_eq(arch.as_slice(), amd.as_slice()) {
        lit_bytes("x86_64")
    } else {
        return Err(NixError::UnsupportedPlatform(copy_bytes(platform)));
    };
    let ghost mspec = mapped@;
    let mut out = mapped;
    out.push(45);
    append_bytes(&mut out, os.as_slice());
    proof {
        assert(out@ =~= mspec + seq![45u8] + os@);
    }
    Ok(out)
}

/// The spelling `\u001b`, as bytes.
pub open spec fn pat_unicode() -> Seq<u8> {
    seq![92u8, 117u8, 48u8, 48u8, 49u8, 98u8]
}

/// The spelling `\033`, as bytes.
pub open spec fn pat_octal() -> Seq<u8> {
    seq![92u8, 48u8, 51u8, 51u8]
}

/// The spelling `\x1b`, as bytes.
pub open spec fn pat_hex() -> Seq<u8> {
    seq![92u8, 120u8, 49u8, 98u8]
}

/// The spelling `\e`, as bytes.
pub open spec fn pat_short() -> Seq<u8> {
    seq![92u8, 101u8]
}

/// The unescaped form of a log line: each of the textual escape
/// spellings of the ANSI escape byte -- `\u001b`, `\033`, `\x1b`,
/// `\e` -- becomes the byte itself; everything else is copied.
pub open spec fn spec_unescape(s: Seq<u8>) -> Seq<u8>
    decreases s.len(),
{
    if s.len() == 0 {
        Seq::empty()
    } else if spec_starts_at(s, 0, pat_unicode()) {
        seq![27u8] + spec_unescape(s.skip(6))
    } else if spec_starts_at(s, 0, pat_octal()) {
        seq![27u8] + spec_unescape(s.skip(4))
    } else if spec_starts_at(s, 0, pat_hex()) {
        seq![27u8] + spec_unescape(s.skip(4))
    } else if spec_starts_at(s, 0, pat_short()) {
        seq![27u8] + spec_unescape(s.skip(2))
    } else {
        seq![s[0]] + spec_unescape(s.skip(1))
    }
}

/// Replaces the textual spellings of the ANSI escape byte with the
/// byte itself.
pub fn unescape_ansi(text: &[u8]) -> (r: Vec<u8>)
    ensures
        r@ == spec_unescape(text@),
{
    let mut pat_u: Vec<u8> = Vec::new();
    pat_u.push(92);
    pat_u.push(117);
    pat_u.push(48);
    pat_u.push(48);
    pat_u.push(49);
    pat_u.push(98);
    let mut pat_o: Vec<u8> = Vec::new();
    pat_o.push(92);
    pat_o.push(48);
    pat_o.push(51);
    pat_o.push(51);
    let mut pat_x: Vec<u8> = Vec::new();
    pat_x.push(92);
    pat_x.push(120);
    pat_x.push(49);
    pat_x.push(98);
    let mut pat_e: Vec<u8> = Vec::new();
    pat_e.push(92);
    pat_e.push(101);
    proof {
        assert(pat_u@ =~= pat_unicode());
        assert(pat_o@ =~= pat_octal());
        assert(pat_x@ =~= pat_hex());
        assert(pat_e@ =~= pat_short());
    }
    let mut out: Vec<u8> = Vec::new();
    let n = text.len();
    let mut p: usize = 0;
    proof {
        assert(text@.skip(0) =~= text@);
    }
    while p < n
        invariant
            p <= n,
            n == text@.len(),
            pat_u@ == pat_unicode(),
            pat_o@ == pat_octal(),
            pat_x@ == pat_hex(),
            pat_e@ == pat_short(),
            out@ + spec_unescape(text@.skip(p as int)) == spec_unescape(text@),
        decreases n - p,
    {
        let ghost rem = text@.skip(p as int);
        proof {
            crate::text::lemma_starts_at_shift(text@, p as int, pat_unicode());
            crate::text::lemma_starts_at_shift(text@, p as int, pat_octal());
            crate::text::lemma_starts_at_shift(text@, p as int, pat_hex());
            crate::text::lemma_starts_at_shift(text@, p as int, pat_short());
            assert(rem.len() == n - p);
            assert(rem[0] == text@[p as int]);
        }
        if starts_at(text, p, pat_u.as_slice()) {
            out.push(27);
            proof {
                assert(spec_starts_at(rem, 0, pat_unicode()));
                assert(rem.skip(6) =~= text@.skip(p + 6));
                assert(out@ + spec_unescape(text@.skip(p + 6)) =~= spec_unescape(text@));
            }
            p = p + 6;
        } else if starts_at(text, p, pat_o.as_slice()) {
            out.push(27);
            proof {
                assert(spec_starts_at(rem, 0, pat_octal()));
                assert(!spec_starts_at(rem, 0, pat_unicode()));
                assert(rem.skip(4) =~= text@.skip(p + 4));
                assert(out@ + spec_unescape(text@.skip(p + 4)) =~= spec_unescape(text@));
            }
            p = p + 4;
        } else if starts_at(text, p, pat_x.as_slice()) {
            out.push(27);
            proof {
                assert(spec_starts_at(rem, 0, pat_hex()));
                assert(!spec_starts_at(rem, 0, pat_unicode()));
                assert(!spec_starts_at(rem, 0, pat_octal()));
                assert(rem.skip(4) =~= text@.skip(p + 4));
                assert(out@ + spec_unescape(text@.skip(p + 4)) =~= spec_unescape(text@));
            }
            p = p + 4;
        } else if starts_at(text, p, pat_e.as_slice()) {
            out.push(27);
            proof {
                assert(spec_starts_at(rem, 0, pat_short()));
                assert(!spec_starts_at(rem, 0, pat_unicode()));
                assert(!spec_starts_at(rem, 0, pat_octal()));
                assert(!spec_starts_at(rem, 0, pat_hex()));
                assert(rem.skip(2) =~= text@.skip(p + 2));
                assert(out@ + spec_unescape(text@.skip(p + 2)) =~= spec_unescape(text@));
            }
            p = p + 2;
        } else {
            out.push(text[p]);
            proof {
                assert(!spec_starts_at(rem, 0, pat_unicode()));
                assert(!spec_starts_at(rem, 0, pat_octal()));
                assert(!spec_starts_at(rem, 0, pat_hex()));
                assert(!spec_starts_at(rem, 0, pat_short()));
                assert(rem.skip(1) =~= text@.skip(p + 1));
                assert(out@ + spec_unescape(text@.skip(p + 1)) =~= spec_unescape(text@));
            }
            p = p + 1;
        }
    }
    proof {
        assert(text@.skip(n as int) =~= Seq::<u8>::empty());
    }
    out
}

// ------------------------------------------------------------------
// Evaluation results and build planning.
// ------------------------------------------------------------------

/// One evaluated attribute, as the evaluator reports it.
pub struct EvalResult {
    pub attr: Vec<u8>,
    pub attr_path: Vec<Vec<u8>>,
    pub drv_path: Option<Vec<u8>>,
    pub error: Option<Vec<u8>>,
    pub outputs: Option<Vec<(Vec<u8>, Vec<u8>)>>,
}

/// The `nix build` arguments for a derivation path.
pub open spec fn spec_nix_build_args(drv: Seq<u8>) -> Seq<Seq<u8>> {
    seq![
        lit("build"),
        lit("--no-link"),
        lit("--log-format"),
        lit("internal-json"),
        drv + lit("^out"),
    ]
}

impl EvalResult {
    /// Decides what to do for this attribute: an evaluation error is
    /// fatal; an attribute with a derivation path and an `out` output
    /// is built with exactly these arguments, its `out` path recorded;
    /// anything else builds nothing.
    pub fn build_plan(&self) -> (r: Result<Option<(Vec<Vec<u8>>, Vec<u8>)>, NixError>)
        ensures
            match self.error {
                Some(e) => r matches Err(NixError::Eval(m)) && m@ == e@,
                None => match (self.drv_path, self.outputs) {
                    (Option::Some(drv), Option::Some(outs)) => match spec_assoc(
                        outs@,
                        lit("out"),
                    ) {
                        Some(path) => r matches Ok(Some((args, out_path)))
                            && argv_view(args@) == spec_nix_build_args(drv@) && out_path@ == path,
                        None => r matches Ok(o) && o is None,
                    },
                    _ => r matches Ok(o) && o is None,
                },
            },
    {
        match &self.error {
            Some(e) => {
                return Err(NixError::Eval(copy_bytes(e.as_slice())));
            },
            None => {},
        }
        let drv = match &self.drv_path {
            Some(d) => d,
            None => {
                return Ok(None);
            },
        };
        let outs = match &self.outputs {
            Some(o) => o,
            None => {
                return Ok(None);
            },
        };
        let key = lit_bytes("out");
        let path = match crate::text::find_value_by_key(outs, key.as_slice()) {
            Some(p) => p,
            None => {
                return Ok(None);
            },
        };
        let mut args: Vec<Vec<u8>> = Vec::new();
        args.push(lit_bytes("build"));
        args.push(lit_bytes("--no-link"));
        args.push(lit_bytes("--log-format"));
        args.push(lit_bytes("internal-json"));
        let mut target = copy_bytes(drv.as_slice());
        let suffix = lit_bytes("^out");
        append_bytes(&mut target, suffix.as_slice());
        args.push(target);
        proof {
            assert(argv_view(args@) =~= spec_nix_build_args(drv@));
        }
        Ok(Some((args, path)))
    }
}

/// The attribute path joined with dots.
pub open spec fn spec_attr_path_rest(parts: Seq<Vec<u8>>, i: int) -> Seq<u8>
    decreases parts.len() - i,
{
    if i < 0 || i >= parts.len() {
        Seq::empty()
    } else {
        seq![46u8] + parts[i]@ + spec_attr_path_rest(parts, i + 1)
    }
}

/// The attribute path joined with dots.
pub open spec fn spec_attr_path_join(parts: Seq<Vec<u8>>) -> Seq<u8> {
    if parts.len() == 0 {
        Seq::empty()
    } else {
        parts[0]@ + spec_attr_path_rest(parts, 1)
    }
}

/// Joins an attribute path with dots.
pub fn attr_path_join(parts: &Vec<Vec<u8>>) -> (r: Vec<u8>)
    ensures
        r@ == spec_attr_path_join(parts@),
{
    let mut out: Vec<u8> = Vec::new();
    let n = parts.len();
    if n == 0 {
        return out;
    }
    append_bytes(&mut out, parts[0].as_slice());
    proof {
        assert(out@ =~= parts@[0]@);
    }
    let mut i: usize = 1;
    while i < n
        invariant
            1 <= i <= n,
            n == parts@.len(),
            out@ + spec_attr_path_rest(parts@, i as int) == spec_attr_path_join(parts@),
        decreases n - i,
    {
        let ghost prev = out@;
        out.push(46);
        append_bytes(&mut out, parts[i].as_slice());
        proof {
            assert(out@ =~= prev + (seq![46u8] + parts@[i as int]@));
            assert(spec_attr_path_rest(parts@, i as int) == seq![46u8] + parts@[i as int]@
                + spec_attr_path_rest(parts@, i + 1));
            assert(out@ + spec_attr_path_rest(parts@, i + 1) =~= prev + spec_attr_path_rest(
                parts@,
                i as int,
            ));
        }
        i = i + 1;
    }
    proof {
        assert(spec_attr_path_rest(parts@, n as int) =~= Seq::<u8>::empty());
        assert(out@ =~= out@ + spec_attr_path_rest(parts@, n as int));
    }
    out
}

// ------------------------------------------------------------------
// Build event lines.
// ------------------------------------------------------------------

/// One event the build tool logs, as parsed from a `@nix ` line.
pub enum BuildAction {
    /// A typed result record with its raw fields.
    ResultAction { ty: u64, fields: Vec<Json> },
    /// A leveled message.
    Msg { level: u64, msg: Vec<u8> },
    Start,
    Stop,
}

/// What a progress sink is asked to do for one event.
pub enum ProgressDirective {
    Info(Vec<u8>),
    DoneMsg(Vec<u8>),
    FailMsg(Vec<u8>),
    SetPhase(Vec<u8>),
}

/// A directive with its text as a sequence, for specifications.
pub enum SpecDirective {
    Info(Seq<u8>),
    DoneMsg(Seq<u8>),
    FailMsg(Seq<u8>),
    SetPhase(Seq<u8>),
}

/// Directives as their specification form.
pub open spec fn directive_view(s: Seq<ProgressDirective>) -> Seq<SpecDirective> {
    Seq::new(s.len(), |i: int| match s[i] {
        ProgressDirective::Info(t) => SpecDirective::Info(t@),
        ProgressDirective::DoneMsg(t) => SpecDirective::DoneMsg(t@),
        ProgressDirective::FailMsg(t) => SpecDirective::FailMsg(t@),
        ProgressDirective::SetPhase(t) => SpecDirective::SetPhase(t@),
    })
}

/// The text of a result record's field, if it is a string.
pub open spec fn spec_field_text(fields: Seq<Json>, i: int) -> Option<Seq<u8>> {
    if 0 <= i < fields.len() {
        match fields[i] {
            Json::Text(t) => Some(t@),
            _ => None,
        }
    } else {
        None
    }
}

/// What one build event asks the progress sink to do: log lines are
/// unescaped and reported, linked files and phase changes are
/// announced, untrusted or corrupted paths fail, and messages at
/// informational level or below are logged when non-empty.
pub open spec fn spec_report(a: BuildAction) -> Seq<SpecDirective> {
    match a {
        BuildAction::ResultAction { ty, fields } => {
            if ty == 101 || ty == 107 {
                match spec_field_text(fields@, 0) {
                    Some(t) => seq![SpecDirective::Info(spec_unescape(t))],
                    None => Seq::empty(),
                }
            } else if ty == 100 {
                match (spec_field_text(fields@, 0), spec_field_text(fields@, 1)) {
                    (Some(out_path), Some(store_path)) => seq![
                        SpecDirective::DoneMsg(
                            lit("\u{2713} Linked ") + out_path + lit(" \u{2192} ") + store_path,
                        ),
                    ],
                    _ => Seq::empty(),
                }
            } else if ty == 102 {
                match spec_field_text(fields@, 0) {
                    Some(p) => seq![SpecDirective::FailMsg(lit("\u{26a0} Untrusted: ") + p)],
                    None => Seq::empty(),
                }
            } else if ty == 103 {
                match spec_field_text(fields@, 0) {
                    Some(p) => seq![SpecDirective::FailMsg(lit("\u{2717} Corrupted: ") + p)],
                    None => Seq::empty(),
                }
            } else if ty == 104 {
                match spec_field_text(fields@, 0) {
                    Some(p) => seq![
                        SpecDirective::SetPhase(p),
                        SpecDirective::Info(lit("\u{2192} Entering ") + p),
                    ],
                    None => Seq::empty(),
                }
            } else {
                Seq::empty()
            }
        },
        BuildAction::Msg { level, msg } => {
            if msg@.len() > 0 && level <= 3 {
                seq![SpecDirective::Info(msg@)]
            } else {
                Seq::empty()
            }
        },
        _ => Seq::empty(),
    }
}

/// Reads a string field of a result record.
fn field_text(fields: &Vec<Json>, i: usize) -> (r: Option<Vec<u8>>)
    ensures
        match r {
            Some(t) => spec_field_text(fields@, i as int) == Some(t@),
            None => spec_field_text(fields@, i as int) is None,
        },
{
    if i >= fields.len() {
        return None;
    }
    match &fields[i] {
        Json::Text(t) => Some(copy_bytes(t.as_slice())),
        _ => None,
    }
}

impl BuildAction {
    /// Decides what the progress sink is asked to do for this event.
    pub fn report(&self) -> (r: Vec<ProgressDirective>)
        ensures
            directive_view(r@) == spec_report(*self),
    {
        let mut out: Vec<ProgressDirective> = Vec::new();
        match self {
            BuildAction::ResultAction { ty, fields } => {
                if *ty == 101 || *ty == 107 {
                    match field_text(fields, 0) {
                        Some(t) => out.push(
                            ProgressDirective::Info(unescape_ansi(t.as_slice())),
                        ),
                        None => {},
                    }
                } else if *ty == 100 {
                    let a = field_text(fields, 0);
                    let b = field_text(fields, 1);
                    match (a, b) {
                        (Some(out_path), Some(store_path)) => {
                            let mut msg = lit_bytes("\u{2713} Linked ");
                            append_bytes(&mut msg, out_path.as_slice());
                            let mid = lit_bytes(" \u{2192} ");
                            append_bytes(&mut msg, mid.as_slice());
                            append_bytes(&mut msg, store_path.as_slice());
                            proof {
                                assert(msg@ =~= lit("\u{2713} Linked ") + out_path@ + lit(
                                    " \u{2192} ",
                                ) + store_path@);
                            }
                            out.push(ProgressDirective::DoneMsg(msg));
                        },
                        _ => {},
                    }
                } else if *ty == 102 {
                    match field_text(fields, 0) {
                        Some(p) => {
                            let mut msg = lit_bytes("\u{26a0} Untrusted: ");
                            append_bytes(&mut msg, p.as_slice());
                            out.push(ProgressDirective::FailMsg(msg));
                        },
                        None => {},
                    }
                } else if *ty == 103 {
                    match field_text(fields, 0) {
                        Some(p) => {
                            let mut msg = lit_bytes("\u{2717} Corrupted: ");
                            append_bytes(&mut msg, p.as_slice());
                            out.push(ProgressDirective::FailMsg(msg));
                        },
                        None => {},
                    }
                } else if *ty == 104 {
                    match field_text(fields, 0) {
                        Some(p) => {
                            let mut msg = lit_bytes("\u{2192} Entering ");
                            append_bytes(&mut msg, p.as_slice());
                            out.push(ProgressDirective::SetPhase(copy_bytes(p.as_slice())));
                            out.push(ProgressDirective::Info(msg));
                        },
                        None => {},
                    }
                }
            },
            BuildAction::Msg { level, msg } => {
                if msg.len() > 0 && *level <= 3 {
                    out.push(ProgressDirective::Info(copy_bytes(msg.as_slice())));
                }
            },
            _ => {},
        }
        proof {
            assert(directive_view(out@) =~= spec_report(*self));
        }
        out
    }
}

/// The prefix `@nix `, as bytes.
pub open spec fn pat_nix() -> Seq<u8> {
    seq![64u8, 110u8, 105u8, 120u8, 32u8]
}

/// Strips the `@nix ` prefix a build event line carries; a line
/// without it is not an event.
pub fn strip_nix_prefix(line: &[u8]) -> (r: Option<Vec<u8>>)
    ensures
        match r {
            Some(rest) => spec_starts_at(line@, 0, pat_nix()) && rest@ == line@.subrange(
                5,
                line@.len() as int,
            ),
            None => !spec_starts_at(line@, 0, pat_nix()),
        },
{
    let mut pat: Vec<u8> = Vec::new();
    pat.push(64);
    pat.push(110);
    pat.push(105);
    pat.push(120);
    pat.push(32);
    proof {
        assert(pat@ =~= pat_nix());
    }
    if starts_at(line, 0, pat.as_slice()) {
        Some(sub_bytes(line, 5, line.len()))
    } else {
        None
    }
}

/// Reads one build event out of a JSON line.
pub fn parse_build_action(json: &[u8]) -> (r: Result<BuildAction, NixError>) {
    let j = match crate::json::parse_json(json) {
        Ok(j) => j,
        Err(_) => {
            return Err(NixError::Serde);
        },
    };
    let members = match &j {
        Json::Obj(members) => members,
        _ => {
            return Err(NixError::Serde);
        },
    };
    let action = match obj_text(members, "action") {
        Some(a) => a,
        None => {
            return Err(NixError::Serde);
        },
    };
    let result_lit = lit_bytes("result");
    let msg_lit = lit_bytes("msg");
    let start_lit = lit_bytes("start");
    let stop_lit = lit_bytes("stop");
    if crate::text::bytes_eq(action.as_slice(), result_lit.as_slice()) {
        let ty = match obj_u64(members, "type") {
            Some(t) => t,
            None => {
                return Err(NixError::Serde);
            },
        };
        let fields = match obj_arr(members, "fields") {
            Some(f) => f,
            None => {
                return Err(NixError::Serde);
            },
        };
        Ok(BuildAction::ResultAction { ty, fields })
    } else if crate::text::bytes_eq(action.as_slice(), msg_lit.as_slice()) {
        let level = match obj_u64(members, "level") {
            Some(l) => l,
            None => {
                return Err(NixError::Serde);
            },
        };
        let msg = match obj_text(members, "msg") {
            Some(m) => m,
            None => {
                return Err(NixError::Serde);
            },
        };
        Ok(BuildAction::Msg { level, msg })
    } else if crate::text::bytes_eq(action.as_slice(), start_lit.as_slice()) {
        Ok(BuildAction::Start)
    } else if crate::text::bytes_eq(action.as_slice(), stop_lit.as_slice()) {
        Ok(BuildAction::Stop)
    } else {
        Err(NixError::Serde)
    }
}

/// Reads one evaluator line: the attribute, its path, and when present
/// the derivation path, the evaluation error and the outputs.
pub fn parse_eval_result(json: &[u8]) -> (r: Result<EvalResult, NixError>) {
    let j = match crate::json::parse_json(json) {
        Ok(j) => j,
        Err(_) => {
            return Err(NixError::Serde);
        },
    };
    let members = match &j {
        Json::Obj(members) => members,
        _ => {
            return Err(NixError::Serde);
        },
    };
    let attr = match obj_text(members, "attr") {
        Some(a) => a,
        None => {
            return Err(NixError::Serde);
        },
    };
    let path_items = match obj_arr(members, "attrPath") {
        Some(p) => p,
        None => {
            return Err(NixError::Serde);
        },
    };
    let mut attr_path: Vec<Vec<u8>> = Vec::new();
    let mut i: usize = 0;
    while i < path_items.len()
        invariant
            i <= path_items@.len(),
        decreases path_items@.len() - i,
    {
        match &path_items[i] {
            Json::Text(t) => attr_path.push(copy_bytes(t.as_slice())),
            _ => {
                return Err(NixError::Serde);
            },
        }
        i = i + 1;
    }
    let drv_path = obj_text(members, "drvPath");
    let error = obj_text(members, "error");
    let outputs = match obj_get_ref(members, "outputs") {
        Some(Json::Obj(out_members)) => {
            let mut outs: Vec<(Vec<u8>, Vec<u8>)> = Vec::new();
            let mut k: usize = 0;
            while k < out_members.len()
                invariant
                    k <= out_members@.len(),
                decreases out_members@.len() - k,
            {
                match &out_members[k].1 {
                    Json::Text(t) => outs.push(
                        (copy_bytes(out_members[k].0.as_slice()), copy_bytes(t.as_slice())),
                    ),
                    _ => {
                        return Err(NixError::Serde);
                    },
                }
                k = k + 1;
            }
            Some(outs)
        },
        Some(Json::Null) => None,
        Some(_) => {
            return Err(NixError::Serde);
        },
        None => None,
    };
    Ok(EvalResult { attr, attr_path, drv_path, error, outputs })
}

/// Looks up a member of a JSON object.
fn obj_get_ref<'a>(members: &'a Vec<(Vec<u8>, Json)>, key: &str) -> (r: Option<&'a Json>) {
    let k = lit_bytes(key);
    let mut i: usize = 0;
    while i < members.len()
        invariant
            i <= members@.len(),
        decreases members@.len() - i,
    {
        if crate::text::bytes_eq(members[i].0.as_slice(), k.as_slice()) {
            return Some(&members[i].1);
        }
        i = i + 1;
    }
    None
}

/// Reads a string member of a JSON object.
fn obj_text(members: &Vec<(Vec<u8>, Json)>, key: &str) -> (r: Option<Vec<u8>>) {
    match obj_get_ref(members, key) {
        Some(Json::Text(t)) => Some(copy_bytes(t.as_slice())),
        _ => None,
    }
}

/// Reads an integer member of a JSON object.
fn obj_u64(members: &Vec<(Vec<u8>, Json)>, key: &str) -> (r: Option<u64>) {
    match obj_get_ref(members, key) {
        Some(Json::UInt(n)) => Some(*n),
        _ => None,
    }
}

/// Reads an array member of a JSON object, copying its items.
fn obj_arr(members: &Vec<(Vec<u8>, Json)>, key: &str) -> (r: Option<Vec<Json>>) {
    match obj_get_ref(members, key) {
        Some(Json::Arr(items)) => {
            let mut out: Vec<Json> = Vec::new();
            let mut i: usize = 0;
            while i < items.len()
                invariant
                    i <= items@.len(),
                decreases items@.len() - i,
            {
                out.push(copy_json(&items[i]));
                i = i + 1;
            }
            Some(out)
        },
        _ => None,
    }
}

/// Copies a JSON value.
fn copy_json(j: &Json) -> (r: Json)
    decreases *j,
{
    match j {
        Json::Null => Json::Null,
        Json::Bool(b) => Json::Bool(*b),
        Json::UInt(n) => Json::UInt(*n),
        Json::Text(t) => Json::Text(copy_bytes(t.as_slice())),
        Json::Arr(items) => {
            let mut out: Vec<Json> = Vec::new();
            let mut i: usize = 0;
            while i < items.len()
                invariant
                    i <= items@.len(),
                    *j matches Json::Arr(its) && its == *items,
                decreases items@.len() - i,
            {
                proof {
                    assert(decreases_to!(*j => items@[i as int]));
                }
                out.push(copy_json(&items[i]));
                i = i + 1;
            }
            Json::Arr(out)
        },
        Json::Obj(ms) => {
            let mut out: Vec<(Vec<u8>, Json)> = Vec::new();
            let mut i: usize = 0;
            while i < ms.len()
                invariant
                    i <= ms@.len(),
                    *j matches Json::Obj(mss) && mss == *ms,
                decreases ms@.len() - i,
            {
                proof {
                    assert(decreases_to!(*j => ms@[i as int].1));
                }
                out.push((copy_bytes(ms[i].0.as_slice()), copy_json(&ms[i].1)));
                i = i + 1;
            }
            Json::Obj(out)
        },
    }
}

// ------------------------------------------------------------------
// The resolved backend and its invocations.
// ------------------------------------------------------------------

/// A resolved nix backend: the `nix` binary and the evaluator binary.
pub struct NixBuilder {
    pub nix_binary: Vec<u8>,
    pub eval_binary: Vec<u8>,
}

impl NixBuilder {
    /// The evaluator arguments for one system: verbose JSON logging,
    /// garbage-collection roots under the given directory, evaluating
    /// the flake's packages for the system.
    pub fn eval_args(&self, gc_roots_dir: &[u8], system: &[u8]) -> (r: Vec<Vec<u8>>)
        ensures
            r@.len() == 7,
            argv_view(r@) == seq![
                lit("--verbose"),
                lit("--log-format"),
                lit("internal-json"),
                lit("--gc-roots-dir"),
                gc_roots_dir@,
                lit("--flake"),
                lit(".#packages.") + system@,
            ],
    {
        let mut out: Vec<Vec<u8>> = Vec::new();
        out.push(lit_bytes("--verbose"));
        out.push(lit_bytes("--log-format"));
        out.push(lit_bytes("internal-json"));
        out.push(lit_bytes("--gc-roots-dir"));
        out.push(copy_bytes(gc_roots_dir));
        out.push(lit_bytes("--flake"));
        let mut flake = lit_bytes(".#packages.");
        append_bytes(&mut flake, system);
        out.push(flake);
        proof {
            assert(argv_view(out@) =~= seq![
                lit("--verbose"),
                lit("--log-format"),
                lit("internal-json"),
                lit("--gc-roots-dir"),
                gc_roots_dir@,
                lit("--flake"),
                lit(".#packages.") + system@,
            ]);
        }
        out
    }

    /// The arguments that list the systems a flake's packages cover.
    pub fn detect_systems_args(&self, flake_path: &[u8]) -> (r: Vec<Vec<u8>>)
        ensures
            r@.len() == 5,
            argv_view(r@) == seq![
                lit("eval"),
                flake_path@ + lit("#packages"),
                lit("--apply"),
                lit("builtins.attrNames"),
                lit("--json"),
            ],
    {
        let mut out: Vec<Vec<u8>> = Vec::new();
        out.push(lit_bytes("eval"));
        let mut target = copy_bytes(flake_path);
        let suffix = lit_bytes("#packages");
        append_bytes(&mut target, suffix.as_slice());
        out.push(target);
        out.push(lit_bytes("--apply"));
        out.push(lit_bytes("builtins.attrNames"));
        out.push(lit_bytes("--json"));
        proof {
            assert(argv_view(out@) =~= seq![
                lit("eval"),
                flake_path@ + lit("#packages"),
                lit("--apply"),
                lit("builtins.attrNames"),
                lit("--json"),
            ]);
        }
        out
    }
}

/// The artifact that owns a built attribute: the first configured
/// package whose attribute path is the target; a target no package
/// names is a missing artifact.
pub fn artifact_for_target(packages: &Vec<(Vec<u8>, Vec<u8>)>, target: &[u8]) -> (r: Result<
    Vec<u8>,
    NixError,
>)
    ensures
        match crate::text::spec_assoc_by_value(packages@, target@) {
            Some(k) => r matches Ok(key) && key@ == k,
            None => r matches Err(NixError::MissingArtifact(t)) && t@ == target@,
        },
{
    match crate::text::find_key_by_value(packages, target) {
        Some(key) => Ok(key),
        None => Err(NixError::MissingArtifact(copy_bytes(target))),
    }
}

/// True when the detected systems include this one.
pub fn systems_contain(systems: &Vec<Vec<u8>>, system: &[u8]) -> (r: bool)
    ensures
        r == exists|i: int|
            0 <= i < systems@.len() && (#[trigger] systems@[i])@ == system@,
{
    let mut i: usize = 0;
    while i < systems.len()
        invariant
            i <= systems@.len(),
            forall|j: int| 0 <= j < i ==> (#[trigger] systems@[j])@ != system@,
        decreases systems@.len() - i,
    {
        if crate::text::bytes_eq(systems[i].as_slice(), system) {
            return true;
        }
        i = i + 1;
    }
    false
}

/// Reads the JSON array of system strings the detection prints.
pub fn parse_systems(output: &[u8]) -> (r: Result<Vec<Vec<u8>>, NixError>) {
    let j = match crate::json::parse_json(output) {
        Ok(j) => j,
        Err(_) => {
            return Err(NixError::Serde);
        },
    };
    let items = match &j {
        Json::Arr(items) => items,
        _ => {
            return Err(NixError::Serde);
        },
    };
    let mut out: Vec<Vec<u8>> = Vec::new();
    let mut i: usize = 0;
    while i < items.len()
        invariant
            i <= items@.len(),
        decreases items@.len() - i,
    {
        match &items[i] {
            Json::Text(t) => out.push(copy_bytes(t.as_slice())),
            _ => {
                return Err(NixError::Serde);
            },
        }
        i = i + 1;
    }
    Ok(out)
}

} // verus!
