//! The ko backend: command-line construction for `ko build` against an
//! OCI layout destination. The process itself runs outside the
//! library.

use vstd::prelude::*;
use crate::text::lit;

verus! {

/// Why a ko build failed.
#[derive(Debug)]
pub enum KoError {
    /// Reading the tool's streams failed.
    Io,
    /// The `ko` binary was not found.
    Path,
    /// No destination directory could be created.
    TempDir,
    /// The produced layout could not be loaded.
    Image(crate::image::ImageError),
    /// `ko build` exited with this code.
    Build { code: i64 },
}

/// A resolved ko backend: the path of its binary.
pub struct KoBuilder {
    pub binary: Vec<u8>,
}

impl KoBuilder {
    /// The arguments of one `ko build` invocation: build without
    /// pushing, for the requested platform, into the destination
    /// layout directory, from the configured import path or the
    /// current directory.
    pub fn build_args(&self, platform: &[u8], dest: &[u8], import_path: &Option<Vec<u8>>) -> (r:
        Vec<Vec<u8>>)
        ensures
            r@.len() == 7,
            r@[0]@ == lit("build"),
            r@[1]@ == lit("--push=false"),
            r@[2]@ == lit("--platform"),
            r@[3]@ == platform@,
            r@[4]@ == lit("--oci-layout-path"),
            r@[5]@ == dest@,
            r@[6]@ == match *import_path {
                Option::Some(p) => p@,
                Option::None => lit("."),
            },
    {
        let mut out: Vec<Vec<u8>> = Vec::new();
        out.push(crate::text::lit_bytes("build"));
        out.push(crate::text::lit_bytes("--push=false"));
        out.push(crate::text::lit_bytes("--platform"));
        out.push(crate::text::copy_bytes(platform));
        out.push(crate::text::lit_bytes("--oci-layout-path"));
        out.push(crate::text::copy_bytes(dest));
        match import_path {
            Some(p) => out.push(crate::text::copy_bytes(p.as_slice())),
            None => out.push(crate::text::lit_bytes(".")),
        }
        out
    }
}

} // verus!
