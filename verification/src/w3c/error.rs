//! What can go wrong with a credential.
use vstd::prelude::*;

verus! {

/// The errors of the library.
#[derive(Debug)]
pub enum CredentialError {
    SetupFailed(String),
    ProofGenerationFailed(String),
    VerificationFailed(String),
    InvalidCredential(String),
    SerializationError(String),
    IoError(String),
    ConstraintUnsatisfied(String),
}

impl CredentialError {
    /// The error in words.
    pub open spec fn text(self) -> Seq<char> {
        match self {
            CredentialError::SetupFailed(m) => "Setup failed: "@ + m@,
            CredentialError::ProofGenerationFailed(m) => "Proof generation failed: "@ + m@,
            CredentialError::VerificationFailed(m) => "Verification failed: "@ + m@,
            CredentialError::InvalidCredential(m) => "Invalid credential format: "@ + m@,
            CredentialError::SerializationError(m) => "Serialization error: "@ + m@,
            CredentialError::IoError(m) => "IO error: "@ + m@,
            CredentialError::ConstraintUnsatisfied(m) => "Constraint not satisfied: "@ + m@,
        }
    }

    /// The error in words.
    pub fn message(&self) -> (r: String)
        ensures
            r@ == self.text(),
    {
        let (lead, detail) = match self {
            CredentialError::SetupFailed(m) => ("Setup failed: ", m),
            CredentialError::ProofGenerationFailed(m) => ("Proof generation failed: ", m),
            CredentialError::VerificationFailed(m) => ("Verification failed: ", m),
            CredentialError::InvalidCredential(m) => ("Invalid credential format: ", m),
            CredentialError::SerializationError(m) => ("Serialization error: ", m),
            CredentialError::IoError(m) => ("IO error: ", m),
            CredentialError::ConstraintUnsatisfied(m) => ("Constraint not satisfied: ", m),
        };
        let mut text = lead.to_string();
        text.push_str(detail.as_str());
        text
    }
}

/// The text of an error ends in its detail, and what stands before it tells the kinds of
/// errors apart.
pub proof fn lemma_text(e: CredentialError)
    ensures
        match e {
            CredentialError::SetupFailed(m) => e.text() == "Setup failed: "@ + m@,
            CredentialError::ProofGenerationFailed(m) => e.text() == "Proof generation failed: "@
                + m@,
            CredentialError::VerificationFailed(m) => e.text() == "Verification failed: "@ + m@,
            CredentialError::InvalidCredential(m) => e.text() == "Invalid credential format: "@
                + m@,
            CredentialError::SerializationError(m) => e.text() == "Serialization error: "@ + m@,
            CredentialError::IoError(m) => e.text() == "IO error: "@ + m@,
            CredentialError::ConstraintUnsatisfied(m) => e.text() == "Constraint not satisfied: "@
                + m@,
        },
{
}

} // verus!
