//! Build events: the documents a build-events API consumes, rendered
//! as JSON, and the repository tags attached to a build. The HTTP
//! transport lives outside the library.

use vstd::prelude::*;
use crate::image::{quoted, emit_quoted, emit_lit, emit_dec, dec_of};
use crate::json::Json;
use crate::text::{lit, copy_bytes, append_bytes};

verus! {

/// The repository tags attached to a created build.
pub struct Tags {
    pub git_rev: Vec<u8>,
    pub git_refname: Vec<u8>,
    pub github_repo: Option<Vec<u8>>,
    pub github_workflow: Option<Vec<u8>>,
}

/// The request that creates a build.
pub struct CreateBuildRequest {
    pub target: Vec<u8>,
    pub tags: Tags,
}

/// The identifier a created build was assigned.
pub struct CreateBuildResponse {
    pub id: Vec<u8>,
}

/// One event of a running build.
pub enum Event {
    Progress { phase: Vec<u8>, total: u64, current: u64 },
    Artifact { uri: Vec<u8> },
    Completed { secs: u64, nanos: u64 },
}

/// The request that records one event.
pub struct CreateEventRequest {
    pub event: Event,
}

/// The error document the API returns.
pub struct ErrorResponse {
    pub error: Vec<u8>,
}

/// An optional string member value: the string, or `null`.
pub open spec fn spec_opt_text(v: Option<Vec<u8>>) -> Seq<u8> {
    match v {
        Option::Some(t) => quoted(t@),
        Option::None => lit("null"),
    }
}

/// The tags document, members in declared order.
pub open spec fn spec_tags_json(t: Tags) -> Seq<u8> {
    lit("{\"git.rev\":") + quoted(t.git_rev@) + lit(",\"git.refname\":") + quoted(t.git_refname@)
        + lit(",\"github.repo\":") + spec_opt_text(t.github_repo) + lit(",\"github.workflow\":")
        + spec_opt_text(t.github_workflow) + seq![125u8]
}

/// The create-build request document.
pub open spec fn spec_create_build_json(r: CreateBuildRequest) -> Seq<u8> {
    lit("{\"target\":") + quoted(r.target@) + lit(",\"tags\":") + spec_tags_json(r.tags) + seq![
        125u8,
    ]
}

/// One event document, tagged by its kind.
pub open spec fn spec_event_json(e: Event) -> Seq<u8> {
    match e {
        Event::Progress { phase, total, current } => lit("{\"kind\":\"progress\",\"phase\":")
            + quoted(phase@) + lit(",\"total\":") + dec_of(total as nat) + lit(",\"current\":")
            + dec_of(current as nat) + seq![125u8],
        Event::Artifact { uri } => lit("{\"kind\":\"artifact\",\"uri\":") + quoted(uri@) + seq![
            125u8,
        ],
        Event::Completed { secs, nanos } => lit("{\"kind\":\"completed\",\"elapsed\":{\"secs\":")
            + dec_of(secs as nat) + lit(",\"nanos\":") + dec_of(nanos as nat) + lit("}}"),
    }
}

/// The create-event request document.
pub open spec fn spec_create_event_json(r: CreateEventRequest) -> Seq<u8> {
    lit("{\"event\":") + spec_event_json(r.event) + seq![125u8]
}

/// Appends an optional string member value.
fn emit_opt_text(out: &mut Vec<u8>, v: &Option<Vec<u8>>)
    ensures
        final(out)@ == old(out)@ + spec_opt_text(*v),
{
    match v {
        Some(t) => emit_quoted(out, t.as_slice()),
        None => emit_lit(out, "null"),
    }
}

impl Tags {
    /// Renders the tags as their JSON bytes.
    pub fn render_json(&self) -> (r: Vec<u8>)
        ensures
            r@ == spec_tags_json(*self),
    {
        let mut out: Vec<u8> = Vec::new();
        emit_lit(&mut out, "{\"git.rev\":");
        emit_quoted(&mut out, self.git_rev.as_slice());
        emit_lit(&mut out, ",\"git.refname\":");
        emit_quoted(&mut out, self.git_refname.as_slice());
        emit_lit(&mut out, ",\"github.repo\":");
        emit_opt_text(&mut out, &self.github_repo);
        emit_lit(&mut out, ",\"github.workflow\":");
        emit_opt_text(&mut out, &self.github_workflow);
        out.push(125);
        proof {
            assert(out@ =~= spec_tags_json(*self));
        }
        out
    }
}

impl CreateBuildRequest {
    /// Renders the request as its JSON bytes.
    pub fn render_json(&self) -> (r: Vec<u8>)
        ensures
            r@ == spec_create_build_json(*self),
    {
        let mut out: Vec<u8> = Vec::new();
        emit_lit(&mut out, "{\"target\":");
        emit_quoted(&mut out, self.target.as_slice());
        emit_lit(&mut out, ",\"tags\":");
        let tags = self.tags.render_json();
        append_bytes(&mut out, tags.as_slice());
        out.push(125);
        proof {
            assert(out@ =~= spec_create_build_json(*self));
        }
        out
    }
}

impl Event {
    /// Renders the event as its JSON bytes.
    pub fn render_json(&self) -> (r: Vec<u8>)
        ensures
            r@ == spec_event_json(*self),
    {
        let mut out: Vec<u8> = Vec::new();
        match self {
            Event::Progress { phase, total, current } => {
                emit_lit(&mut out, "{\"kind\":\"progress\",\"phase\":");
                emit_quoted(&mut out, phase.as_slice());
                emit_lit(&mut out, ",\"total\":");
                emit_dec(&mut out, *total);
                emit_lit(&mut out, ",\"current\":");
                emit_dec(&mut out, *current);
                out.push(125);
            },
            Event::Artifact { uri } => {
                emit_lit(&mut out, "{\"kind\":\"artifact\",\"uri\":");
                emit_quoted(&mut out, uri.as_slice());
                out.push(125);
            },
            Event::Completed { secs, nanos } => {
                emit_lit(&mut out, "{\"kind\":\"completed\",\"elapsed\":{\"secs\":");
                emit_dec(&mut out, *secs);
                emit_lit(&mut out, ",\"nanos\":");
                emit_dec(&mut out, *nanos);
                emit_lit(&mut out, "}}");
            },
        }
        proof {
            assert(out@ =~= spec_event_json(*self));
        }
        out
    }
}

impl CreateEventRequest {
    /// Renders the request as its JSON bytes.
    pub fn render_json(&self) -> (r: Vec<u8>)
        ensures
            r@ == spec_create_event_json(*self),
    {
        let mut out: Vec<u8> = Vec::new();
        emit_lit(&mut out, "{\"event\":");
        let ev = self.event.render_json();
        append_bytes(&mut out, ev.as_slice());
        out.push(125);
        proof {
            assert(out@ =~= spec_create_event_json(*self));
        }
        out
    }
}

/// The URL that creates builds: the base, then `/builds`.
pub fn builds_url(base: &[u8]) -> (r: Vec<u8>)
    ensures
        r@ == base@ + lit("/builds"),
{
    let mut out = copy_bytes(base);
    emit_lit(&mut out, "/builds");
    out
}

/// The URL that records events for a build: the base, then
/// `/builds/<id>/events`.
pub fn events_url(base: &[u8], id: &[u8]) -> (r: Vec<u8>)
    ensures
        r@ == base@ + lit("/builds/") + id@ + lit("/events"),
{
    let mut out = copy_bytes(base);
    emit_lit(&mut out, "/builds/");
    append_bytes(&mut out, id);
    emit_lit(&mut out, "/events");
    proof {
        assert(out@ =~= base@ + lit("/builds/") + id@ + lit("/events"));
    }
    out
}

/// Reads the identifier out of a create-build response.
pub fn parse_build_response(bytes: &[u8]) -> (r: Option<CreateBuildResponse>) {
    let j = match crate::json::parse_json(bytes) {
        Ok(j) => j,
        Err(_) => {
            return None;
        },
    };
    let members = match &j {
        Json::Obj(members) => members,
        _ => {
            return None;
        },
    };
    let key = crate::text::lit_bytes("id");
    let mut k: usize = 0;
    while k < members.len()
        invariant
            k <= members@.len(),
        decreases members@.len() - k,
    {
        if crate::text::bytes_eq(members[k].0.as_slice(), key.as_slice()) {
            match &members[k].1 {
                Json::Text(t) => {
                    return Some(CreateBuildResponse { id: copy_bytes(t.as_slice()) });
                },
                _ => {
                    return None;
                },
            }
        }
        k = k + 1;
    }
    None
}

/// Reads the error document the API returns on failure.
pub fn parse_error_response(bytes: &[u8]) -> (r: Option<ErrorResponse>) {
    let j = match crate::json::parse_json(bytes) {
        Ok(j) => j,
        Err(_) => {
            return None;
        },
    };
    let members = match &j {
        Json::Obj(members) => members,
        _ => {
            return None;
        },
    };
    let key = crate::text::lit_bytes("error");
    let mut k: usize = 0;
    while k < members.len()
        invariant
            k <= members@.len(),
        decreases members@.len() - k,
    {
        if crate::text::bytes_eq(members[k].0.as_slice(), key.as_slice()) {
            match &members[k].1 {
                Json::Text(t) => {
                    return Some(ErrorResponse { error: copy_bytes(t.as_slice()) });
                },
                _ => {
                    return None;
                },
            }
        }
        k = k + 1;
    }
    None
}

} // verus!
