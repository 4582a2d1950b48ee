//! The header that every written report starts with.

use crate::text::{decimal, push_decimal};
use vstd::prelude::*;
use vstd::string::StringExecFns;

verus! {

/// The version of the report layout.
pub const VISION_ARTIFACT_SCHEMA_VERSION: u32 = 1;

/// What a report is, and in which layout it is written.
#[derive(Clone, Copy, Debug)]
pub struct VisionArtifactHeader {
    pub artifact_kind: &'static str,
    pub schema_version: u32,
}

impl VisionArtifactHeader {
    /// A header of the current layout.
    pub fn new(artifact_kind: &'static str) -> (header: Self)
        ensures
            header.artifact_kind@ == artifact_kind@,
            header.schema_version == VISION_ARTIFACT_SCHEMA_VERSION,
    {
        Self { artifact_kind, schema_version: VISION_ARTIFACT_SCHEMA_VERSION }
    }
}

/// The title and header lines of a report.
pub open spec fn markdown_prelude(title: Seq<char>, artifact: VisionArtifactHeader) -> Seq<char> {
    "# "@ + title + "\n\n- artifact kind: `"@ + artifact.artifact_kind@
        + "`\n- schema version: `"@ + decimal(artifact.schema_version as nat) + "`\n"@
}

/// Appends the title and the header lines of a report.
pub fn push_vision_artifact_markdown_prelude(
    out: &mut String,
    title: &str,
    artifact: &VisionArtifactHeader,
)
    ensures
        final(out)@ == old(out)@ + markdown_prelude(title@, *artifact),
{
    out.append("# ");
    out.append(title);
    out.append("\n\n- artifact kind: `");
    out.append(artifact.artifact_kind);
    out.append("`\n- schema version: `");
    push_decimal(out, artifact.schema_version as u64);
    out.append("`\n");
    assert(out@ =~= old(out)@ + markdown_prelude(title@, *artifact));
}

} // verus!
