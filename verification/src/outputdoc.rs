//! The deploy handoff document: the flat JSON file that maps each
//! built artifact to the reference it was published under. It is the
//! sole contract between the build stage and deployment tooling.

use vstd::prelude::*;
use crate::image::{quoted, emit_quoted, emit_lit};
use crate::json::Json;
use crate::text::{lit, copy_bytes};

verus! {

/// One published artifact: its name and the reference to deploy.
pub struct Build {
    pub image_name: Vec<u8>,
    pub tag: Vec<u8>,
}

/// The whole handoff document.
pub struct Output {
    pub builds: Vec<Build>,
}

/// Why reading a handoff document failed.
#[derive(Debug)]
pub enum InputError {
    /// The document is not well-formed JSON; carries the byte offset.
    Parse { at: usize },
    /// The document misses a required member or holds one of the
    /// wrong shape.
    Malformed,
}

/// One document entry: `{"imageName":"...","tag":"..."}`.
pub open spec fn spec_build_json(b: Build) -> Seq<u8> {
    lit("{\"imageName\":") + quoted(b.image_name@) + lit(",\"tag\":") + quoted(b.tag@) + seq![
        125u8,
    ]
}

/// The entries after the first, each preceded by a comma.
pub open spec fn spec_builds_rest(s: Seq<Build>, i: int) -> Seq<u8>
    decreases s.len() - i,
{
    if i < 0 || i >= s.len() {
        Seq::empty()
    } else {
        seq![44u8] + spec_build_json(s[i]) + spec_builds_rest(s, i + 1)
    }
}

/// The whole document: `{"builds":[...]}`.
pub open spec fn spec_output_json(o: Output) -> Seq<u8> {
    lit("{\"builds\":[") + (if o.builds@.len() == 0 {
        Seq::empty()
    } else {
        spec_build_json(o.builds@[0]) + spec_builds_rest(o.builds@, 1)
    }) + lit("]}")
}

impl Output {
    /// Renders the document as its JSON bytes.
    pub fn render_json(&self) -> (r: Vec<u8>)
        ensures
            r@ == spec_output_json(*self),
    {
        let mut out: Vec<u8> = Vec::new();
        emit_lit(&mut out, "{\"builds\":[");
        let n = self.builds.len();
        if n > 0 {
            emit_build(&mut out, &self.builds[0]);
            let mut i: usize = 1;
            while i < n
                invariant
                    1 <= i <= n,
                    n == self.builds@.len(),
                    out@ + spec_builds_rest(self.builds@, i as int) == lit("{\"builds\":[")
                        + spec_build_json(self.builds@[0]) + spec_builds_rest(self.builds@, 1),
                decreases n - i,
            {
                let ghost prev = out@;
                out.push(44);
                emit_build(&mut out, &self.builds[i]);
                proof {
                    assert(out@ =~= prev + (seq![44u8] + spec_build_json(self.builds@[i as int])));
                    assert(spec_builds_rest(self.builds@, i as int) == seq![44u8]
                        + spec_build_json(self.builds@[i as int]) + spec_builds_rest(
                        self.builds@,
                        i + 1,
                    ));
                    assert(out@ + spec_builds_rest(self.builds@, i + 1) =~= prev
                        + spec_builds_rest(self.builds@, i as int));
                }
                i = i + 1;
            }
            proof {
                assert(spec_builds_rest(self.builds@, n as int) =~= Seq::<u8>::empty());
                assert(out@ =~= out@ + spec_builds_rest(self.builds@, n as int));
            }
        }
        emit_lit(&mut out, "]}");
        proof {
            assert(out@ =~= spec_output_json(*self));
        }
        out
    }

    /// The artifact name and reference of each entry, in order.
    pub fn pairs(&self) -> (r: Vec<(Vec<u8>, Vec<u8>)>)
        ensures
            r@.len() == self.builds@.len(),
            forall|i: int|
                0 <= i < r@.len() ==> (#[trigger] r@[i]).0@ == self.builds@[i].image_name@
                    && r@[i].1@ == self.builds@[i].tag@,
    {
        let mut out: Vec<(Vec<u8>, Vec<u8>)> = Vec::new();
        let n = self.builds.len();
        let mut i: usize = 0;
        while i < n
            invariant
                i <= n,
                n == self.builds@.len(),
                out@.len() == i,
                forall|j: int|
                    0 <= j < i ==> (#[trigger] out@[j]).0@ == self.builds@[j].image_name@
                        && out@[j].1@ == self.builds@[j].tag@,
            decreases n - i,
        {
            out.push(
                (
                    copy_bytes(self.builds[i].image_name.as_slice()),
                    copy_bytes(self.builds[i].tag.as_slice()),
                ),
            );
            i = i + 1;
        }
        out
    }
}

/// Appends one entry's JSON.
fn emit_build(out: &mut Vec<u8>, b: &Build)
    ensures
        final(out)@ == old(out)@ + spec_build_json(*b),
{
    emit_lit(out, "{\"imageName\":");
    emit_quoted(out, b.image_name.as_slice());
    emit_lit(out, ",\"tag\":");
    emit_quoted(out, b.tag.as_slice());
    out.push(125);
    proof {
        assert(out@ =~= old(out)@ + spec_build_json(*b));
    }
}

/// One document entry against its source object.
pub open spec fn build_matches(b: Build, j: Json) -> bool {
    &&& j matches Json::Obj(ms)
    &&& crate::image::spec_text_field(ms@, lit("imageName")) == Some(b.image_name@)
    &&& crate::image::spec_text_field(ms@, lit("tag")) == Some(b.tag@)
}

/// A parsed handoff document against its source object: one entry per
/// member of its `builds` array, in document order.
pub open spec fn output_matches(o: Output, j: Json) -> bool {
    &&& j matches Json::Obj(ms)
    &&& match crate::image::spec_obj_get(ms@, lit("builds")) {
        Some(bv) => bv matches Json::Arr(items) && o.builds@.len() == items@.len() && (forall|
            i: int,
        |
            0 <= i < items@.len() ==> build_matches(#[trigger] o.builds@[i], items@[i])),
        None => false,
    }
}

/// Reads a handoff document back from its JSON bytes. Every entry of
/// the result is exactly the document's.
pub fn parse_output(bytes: &[u8]) -> (r: Result<Output, InputError>)
    ensures
        r matches Ok(o) ==> exists|jd: Json| #![trigger output_matches(o, jd)]
            crate::json::doc_repr(bytes@, jd) && output_matches(o, jd),
{
    let j = match crate::json::parse_json(bytes) {
        Ok(j) => j,
        Err(e) => {
            return Err(InputError::Parse { at: e.at });
        },
    };
    let ghost jd = j;
    let members = match &j {
        Json::Obj(members) => members,
        _ => {
            return Err(InputError::Malformed);
        },
    };
    let items = match crate::image::obj_get(members, "builds") {
        Some(Json::Arr(a)) => a,
        _ => {
            return Err(InputError::Malformed);
        },
    };
    let mut builds: Vec<Build> = Vec::new();
    let mut i: usize = 0;
    while i < items.len()
        invariant
            i <= items@.len(),
            builds@.len() == i,
            forall|k: int| 0 <= k < i ==> build_matches(#[trigger] builds@[k], items@[k]),
        decreases items@.len() - i,
    {
        let emembers = match &items[i] {
            Json::Obj(m) => m,
            _ => {
                return Err(InputError::Malformed);
            },
        };
        let image_name = match crate::image::obj_get(emembers, "imageName") {
            Some(Json::Text(t)) => copy_bytes(t.as_slice()),
            _ => {
                return Err(InputError::Malformed);
            },
        };
        let tag = match crate::image::obj_get(emembers, "tag") {
            Some(Json::Text(t)) => copy_bytes(t.as_slice()),
            _ => {
                return Err(InputError::Malformed);
            },
        };
        builds.push(Build { image_name, tag });
        i = i + 1;
    }
    let out = Output { builds };
    let r: Result<Output, InputError> = Ok(out);
    proof {
        if r is Ok {
            let o = r->Ok_0;
            assert(crate::json::doc_repr(bytes@, jd) && output_matches(o, jd));
        }
    }
    r
}

} // verus!
