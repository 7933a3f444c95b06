//! Credentials as JSON text.
use crate::biometric::suite::PoseidonGroth16Suite;
use crate::biometric::types;
use crate::biometric::types::{Claim, ClaimValue, VerifiableCredential};
use crate::text;
use vstd::prelude::*;

verus! {

pub const HEAD: &'static str = "{\n  \"@context\": [\n    \"https://www.w3.org/ns/credentials/v2\",\n    \"https://w3id.org/security/data-integrity/v2\",\n    \"https://w3id.org/security/poseidon-groth16-bn254-2026/v1\"\n  ],\n  \"id\": \"";

pub const ISSUER: &'static str = "\",\n  \"type\": [\"VerifiableCredential\"],\n  \"issuer\": \"";

pub const CLAIMS: &'static str = "\",\n  \"credentialSubject\": {\n    \"claims\": [\n";

pub const COMMITMENT: &'static str = "\n    ],\n    \"commitment\": \"";

pub const PROOF: &'static str = "\"\n  },\n  \"proof\": {\n    \"type\": \"DataIntegrityProof\",\n    \"cryptosuite\": \"poseidon-groth16-bn254-2026\",\n    \"proofValue\": \"";

pub const START: &'static str = "\",\n    \"windowStart\": ";

pub const EXPIRES: &'static str = ",\n    \"windowExpires\": ";

pub const SHOWN: &'static str = ",\n    \"revealedAttributes\": [";

pub const PREDICATES: &'static str = "],\n    \"predicates\": [";

pub const TAIL: &'static str = "]\n  }\n}";

/// A text between quotes, as it is.
pub open spec fn plain_quoted(s: Seq<char>) -> Seq<char> {
    "\""@ + s + "\""@
}

/// The value of a claim.
pub open spec fn value_json(value: types::Stated) -> Seq<char> {
    match value {
        types::Stated::Text(s) => plain_quoted(s),
        types::Stated::Number(n) => text::decimal(n),
        types::Stated::Boolean(b) => types::truth_text(b),
    }
}

/// A claim on a line of its own.
pub open spec fn claim_json(claim: types::Statement) -> Seq<char> {
    "      {\"label\": \""@ + claim.label + "\", \"value\": "@ + value_json(claim.value) + "}"@
}

pub open spec fn claim_lines(claims: Seq<types::Statement>) -> Seq<Seq<char>> {
    Seq::new(claims.len(), |i: int| claim_json(claims[i]))
}

pub open spec fn quoted_lines(s: Seq<Seq<char>>) -> Seq<Seq<char>> {
    Seq::new(s.len(), |i: int| plain_quoted(s[i]))
}

/// A credential as JSON text. Texts are written as they are, without escapes.
pub open spec fn credential_json(c: VerifiableCredential) -> Seq<char> {
    HEAD@ + c.credential_id@ + ISSUER@ + c.issuer_did@ + CLAIMS@ + text::joined(
        claim_lines(types::statements(c.claims@)),
        ",\n"@,
    ) + COMMITMENT@ + c.commitment@ + PROOF@ + c.proof_value@ + START@ + text::decimal(
        c.window_start as nat,
    ) + EXPIRES@ + text::decimal(c.window_expires as nat) + SHOWN@ + text::joined(
        quoted_lines(text::texts(c.revealed_labels@)),
        ", "@,
    ) + PREDICATES@ + text::joined(
        quoted_lines(text::texts(c.predicates_described@)),
        ", "@,
    ) + TAIL@
}

fn between_quotes(s: &str) -> (r: String)
    ensures
        r@ == plain_quoted(s@),
{
    let mut out = "\"".to_string();
    out.push_str(s);
    out.push_str("\"");
    out
}

fn value_text(value: &ClaimValue) -> (r: String)
    ensures
        r@ == value_json(value@),
{
    match value {
        ClaimValue::Text(s) => between_quotes(s.as_str()),
        ClaimValue::Number(n) => text::decimal_text(*n),
        ClaimValue::Boolean(b) => if *b {
            "true".to_string()
        } else {
            "false".to_string()
        },
    }
}

fn claim_text(claim: &Claim) -> (r: String)
    ensures
        r@ == claim_json(claim@),
{
    let mut out = "      {\"label\": \"".to_string();
    out.push_str(claim.label.as_str());
    out.push_str("\", \"value\": ");
    out.push_str(value_text(&claim.value).as_str());
    out.push_str("}");
    out
}

fn claim_texts(claims: &Vec<Claim>) -> (r: Vec<String>)
    ensures
        text::texts(r@) == claim_lines(types::statements(claims@)),
{
    let mut out: Vec<String> = Vec::new();
    let ghost all = claim_lines(types::statements(claims@));
    assert(text::texts(out@) =~= all.take(0));
    for i in 0..claims.len()
        invariant
            all == claim_lines(types::statements(claims@)),
            text::texts(out@) == all.take(i as int),
    {
        let ghost before = out@;
        out.push(claim_text(&claims[i]));
        assert(text::texts(out@) =~= text::texts(before).push(all[i as int]));
        assert(all.take(i + 1) =~= all.take(i as int).push(all[i as int]));
    }
    assert(all.take(all.len() as int) =~= all);
    out
}

fn quoted_texts(v: &Vec<String>) -> (r: Vec<String>)
    ensures
        text::texts(r@) == quoted_lines(text::texts(v@)),
{
    let mut out: Vec<String> = Vec::new();
    let ghost all = quoted_lines(text::texts(v@));
    assert(text::texts(out@) =~= all.take(0));
    for i in 0..v.len()
        invariant
            all == quoted_lines(text::texts(v@)),
            text::texts(out@) == all.take(i as int),
    {
        let ghost before = out@;
        out.push(between_quotes(v[i].as_str()));
        assert(text::texts(out@) =~= text::texts(before).push(all[i as int]));
        assert(all.take(i + 1) =~= all.take(i as int).push(all[i as int]));
    }
    assert(all.take(all.len() as int) =~= all);
    out
}

impl PoseidonGroth16Suite {
    /// A credential as JSON text.
    pub fn export_w3c_json(&self, credential: &VerifiableCredential) -> (r: String)
        ensures
            r@ == credential_json(*credential),
    {
        let mut out = HEAD.to_string();
        out.push_str(credential.credential_id.as_str());
        out.push_str(ISSUER);
        out.push_str(credential.issuer_did.as_str());
        out.push_str(CLAIMS);
        out.push_str(text::join(&claim_texts(&credential.claims), ",\n").as_str());
        out.push_str(COMMITMENT);
        out.push_str(credential.commitment.as_str());
        out.push_str(PROOF);
        out.push_str(credential.proof_value.as_str());
        out.push_str(START);
        out.push_str(text::decimal_text(credential.window_start).as_str());
        out.push_str(EXPIRES);
        out.push_str(text::decimal_text(credential.window_expires).as_str());
        out.push_str(SHOWN);
        out.push_str(text::join(&quoted_texts(&credential.revealed_labels), ", ").as_str());
        out.push_str(PREDICATES);
        out.push_str(text::join(&quoted_texts(&credential.predicates_described), ", ").as_str());
        out.push_str(TAIL);
        out
    }
}

} // verus!
