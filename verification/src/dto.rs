//! Plain data carried across the pipeline's outer boundary: who answers the
//! challenge, what the service hands out, and what is submitted back.

use vstd::prelude::*;

verus! {

/// Contains information about the applicant answering the challenge.
pub struct ApplicantInfo {
    pub applicant_name: String,
    pub email: String,
}

/// Error reporting a missing environment variable. It contains the name of
/// the missing variable.
pub struct EnvMissingError(pub String);

/// The data structure containing the final challenge submission: the
/// applicant's identity and the computed secret digest.
pub struct ChallengeResult {
    pub applicant_name: String,
    pub email: String,
    pub secret: String,
}

/// The data structure containing the final secret for the challenge.
pub struct FinalSecret {
    pub secret: String,
}

/// Contains the challenge information: the cipher-encoded instruction text.
pub struct Instructions {
    pub instructions: String,
}

} // verus!
