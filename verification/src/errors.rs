use vstd::prelude::*;

verus! {

/// Why a run fails. Every failure aborts the run that met it: there is no
/// retry and no compensation of earlier stages.
#[derive(Debug)]
pub enum PipelineError {
    /// The source page could not be retrieved or read as text.
    SourceFetch { detail: String },
    /// A local artifact could not be read or written.
    ArtifactIo { detail: String },
    /// The search backend answered outside the success class; the status and
    /// the backend's verbatim response body are kept for the operator.
    BackendRequest { status: u16, body: String },
    /// The corpus artifact did not hold the expected array of records.
    MalformedCorpus { detail: String },
}

} // verus!
