//! What can go wrong with a credential.
use crate::text;
use vstd::prelude::*;

verus! {

/// The errors of the suite.
#[derive(Debug)]
pub enum CredentialError {
    SetupFailed(String),
    ProofGenerationFailed(String),
    VerificationFailed(String),
    SerializationError(String),
    IoError(String),
    ConstraintUnsatisfied(String),
    UnknownAttribute(String),
    InvalidPredicate(String),
    TooManyPredicates(usize, usize),
    InvalidTimestamp(String),
    ProofExpired(u64),
    ProofNotYetValid(u64),
}

impl CredentialError {
    /// The error in words.
    pub open spec fn text(self) -> Seq<char> {
        match self {
            CredentialError::SetupFailed(m) => "Setup failed: "@ + m@,
            CredentialError::ProofGenerationFailed(m) => "Proof generation failed: "@ + m@,
            CredentialError::VerificationFailed(m) => "Verification failed: "@ + m@,
            CredentialError::SerializationError(m) => "Serialization error: "@ + m@,
            CredentialError::IoError(m) => "IO error: "@ + m@,
            CredentialError::ConstraintUnsatisfied(m) => "Constraint not satisfied: "@ + m@,
            CredentialError::UnknownAttribute(m) => "Unknown attribute: "@ + m@,
            CredentialError::InvalidPredicate(m) => "Invalid predicate: "@ + m@,
            CredentialError::TooManyPredicates(max, got) => "Too many predicates: max "@
                + text::decimal(max as nat) + ", got "@ + text::decimal(got as nat),
            CredentialError::InvalidTimestamp(m) => "Invalid timestamp: "@ + m@,
            CredentialError::ProofExpired(t) => "Proof expired at "@ + text::decimal(t as nat),
            CredentialError::ProofNotYetValid(t) => "Proof not yet valid until "@ + text::decimal(
                t as nat,
            ),
        }
    }

    /// The error in words.
    pub fn message(&self) -> (r: String)
        ensures
            r@ == self.text(),
    {
        match self {
            CredentialError::SetupFailed(m) => labelled("Setup failed: ", m.as_str()),
            CredentialError::ProofGenerationFailed(m) => {
                labelled("Proof generation failed: ", m.as_str())
            },
            CredentialError::VerificationFailed(m) => {
                labelled("Verification failed: ", m.as_str())
            },
            CredentialError::SerializationError(m) => {
                labelled("Serialization error: ", m.as_str())
            },
            CredentialError::IoError(m) => labelled("IO error: ", m.as_str()),
            CredentialError::ConstraintUnsatisfied(m) => {
                labelled("Constraint not satisfied: ", m.as_str())
            },
            CredentialError::UnknownAttribute(m) => labelled("Unknown attribute: ", m.as_str()),
            CredentialError::InvalidPredicate(m) => labelled("Invalid predicate: ", m.as_str()),
            CredentialError::TooManyPredicates(max, got) => {
                let mut text = labelled(
                    "Too many predicates: max ",
                    text::decimal_text(*max as u64).as_str(),
                );
                text.push_str(", got ");
                text.push_str(text::decimal_text(*got as u64).as_str());
                text
            },
            CredentialError::InvalidTimestamp(m) => labelled("Invalid timestamp: ", m.as_str()),
            CredentialError::ProofExpired(t) => {
                labelled("Proof expired at ", text::decimal_text(*t).as_str())
            },
            CredentialError::ProofNotYetValid(t) => {
                labelled("Proof not yet valid until ", text::decimal_text(*t).as_str())
            },
        }
    }
}

fn labelled(lead: &str, detail: &str) -> (r: String)
    ensures
        r@ == lead@ + detail@,
{
    let mut text = lead.to_string();
    text.push_str(detail);
    text
}

/// The text of an error names its kind and then its detail; numbers read back.
pub proof fn lemma_text(e: CredentialError)
    ensures
        match e {
            CredentialError::SetupFailed(m) => e.text() == "Setup failed: "@ + m@,
            CredentialError::ProofGenerationFailed(m) => e.text() == "Proof generation failed: "@
                + m@,
            CredentialError::VerificationFailed(m) => e.text() == "Verification failed: "@ + m@,
            CredentialError::SerializationError(m) => e.text() == "Serialization error: "@ + m@,
            CredentialError::IoError(m) => e.text() == "IO error: "@ + m@,
            CredentialError::ConstraintUnsatisfied(m) => e.text() == "Constraint not satisfied: "@
                + m@,
            CredentialError::UnknownAttribute(m) => e.text() == "Unknown attribute: "@ + m@,
            CredentialError::InvalidPredicate(m) => e.text() == "Invalid predicate: "@ + m@,
            CredentialError::TooManyPredicates(max, got) => {
                let s = e.text();
                let n = 25 + text::decimal(max as nat).len() as int;
                &&& s.take(25) == "Too many predicates: max "@
                &&& text::digits_value(s.subrange(25, n)) == max
                &&& s.subrange(n, n + 6) == ", got "@
                &&& text::digits_value(s.skip(n + 6)) == got
            },
            CredentialError::InvalidTimestamp(m) => e.text() == "Invalid timestamp: "@ + m@,
            CredentialError::ProofExpired(t) => {
                &&& e.text().take(17) == "Proof expired at "@
                &&& text::digits_value(e.text().skip(17)) == t
            },
            CredentialError::ProofNotYetValid(t) => {
                &&& e.text().take(26) == "Proof not yet valid until "@
                &&& text::digits_value(e.text().skip(26)) == t
            },
        },
{
    reveal_strlit("Too many predicates: max ");
    reveal_strlit(", got ");
    reveal_strlit("Proof expired at ");
    reveal_strlit("Proof not yet valid until ");
    let s = e.text();
    match e {
        CredentialError::TooManyPredicates(max, got) => {
            let n = 25 + text::decimal(max as nat).len() as int;
            text::lemma_decimal(max as nat);
            text::lemma_decimal(got as nat);
            assert(s.take(25) =~= "Too many predicates: max "@);
            assert(s.subrange(25, n) =~= text::decimal(max as nat));
            assert(s.subrange(n, n + 6) =~= ", got "@);
            assert(s.skip(n + 6) =~= text::decimal(got as nat));
        },
        CredentialError::ProofExpired(t) => {
            text::lemma_decimal(t as nat);
            assert(s.take(17) =~= "Proof expired at "@);
            assert(s.skip(17) =~= text::decimal(t as nat));
        },
        CredentialError::ProofNotYetValid(t) => {
            text::lemma_decimal(t as nat);
            assert(s.take(26) =~= "Proof not yet valid until "@);
            assert(s.skip(26) =~= text::decimal(t as nat));
        },
        _ => {},
    }
}

} // verus!
