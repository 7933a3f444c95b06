//! Claims, predicates and credentials.
use crate::biometric::crypto;
use crate::field::Fr;
use crate::order;
use crate::text;
use vstd::prelude::*;

verus! {

/// A labelled value.
#[derive(Clone, Debug)]
pub struct Claim {
    pub label: String,
    pub value: ClaimValue,
}

impl Claim {
    /// A claim with a label and a value.
    pub fn new(label: &str, value: ClaimValue) -> (r: Claim)
        ensures
            r.label@ == label@,
            r.value == value,
    {
        Claim { label: label.to_string(), value }
    }
}

/// The value of a claim.
#[derive(Clone, Debug)]
pub enum ClaimValue {
    Text(String),
    Number(u64),
    Boolean(bool),
}

/// The value of a claim as it reads.
pub enum Stated {
    Text(Seq<char>),
    Number(nat),
    Boolean(bool),
}

/// A claim as it reads.
pub struct Statement {
    pub label: Seq<char>,
    pub value: Stated,
}

impl View for ClaimValue {
    type V = Stated;

    open spec fn view(&self) -> Stated {
        match *self {
            ClaimValue::Text(s) => Stated::Text(s@),
            ClaimValue::Number(n) => Stated::Number(n as nat),
            ClaimValue::Boolean(b) => Stated::Boolean(b),
        }
    }
}

impl View for Claim {
    type V = Statement;

    open spec fn view(&self) -> Statement {
        Statement { label: self.label@, value: self.value@ }
    }
}

/// Claims as they read.
pub open spec fn statements(claims: Seq<Claim>) -> Seq<Statement> {
    Seq::new(claims.len(), |i: int| claims[i]@)
}

/// The name of a truth value.
pub open spec fn truth_text(b: bool) -> Seq<char> {
    if b {
        "true"@
    } else {
        "false"@
    }
}

/// The field element of a claim's value: a number stands for itself, a text and
/// the name of a truth value for their hash.
pub open spec fn claim_element(value: Stated) -> nat {
    match value {
        Stated::Text(s) => crypto::attribute_value(s),
        Stated::Number(n) => n,
        Stated::Boolean(b) => crypto::attribute_value(truth_text(b)),
    }
}

/// Copies a claim.
pub(crate) fn copied_claim(claim: &Claim) -> (r: Claim)
    ensures
        r@ == claim@,
{
    let value = match &claim.value {
        ClaimValue::Text(s) => ClaimValue::Text(s.clone()),
        ClaimValue::Number(n) => ClaimValue::Number(*n),
        ClaimValue::Boolean(b) => ClaimValue::Boolean(*b),
    };
    Claim { label: claim.label.clone(), value }
}

/// Copies claims.
pub(crate) fn copied_claims(claims: &[Claim]) -> (r: Vec<Claim>)
    ensures
        statements(r@) == statements(claims@),
{
    let mut out: Vec<Claim> = Vec::new();
    assert(statements(out@) =~= statements(claims@).take(0));
    for i in 0..claims.len()
        invariant
            statements(out@) == statements(claims@).take(i as int),
    {
        let ghost before = out@;
        out.push(copied_claim(&claims[i]));
        assert(statements(out@) =~= statements(before).push(claims@[i as int]@));
        assert(statements(claims@).take(i + 1) =~= statements(claims@).take(i as int).push(
            claims@[i as int]@,
        ));
    }
    assert(statements(claims@).take(claims@.len() as int) =~= statements(claims@));
    out
}

impl ClaimValue {
    /// The value as a field element.
    pub fn to_fr(&self) -> (r: Fr)
        ensures
            r@ == claim_element(self@),
    {
        match self {
            ClaimValue::Text(s) => crypto::hash_attribute(s.as_str()),
            ClaimValue::Number(n) => Fr::from_u64(*n),
            ClaimValue::Boolean(b) => crypto::hash_attribute(
                if *b {
                    "true"
                } else {
                    "false"
                },
            ),
        }
    }
}

/// What is to be proved of an attribute without showing it.
#[derive(Clone, Debug)]
pub enum PredicateType {
    GreaterThanOrEqual { attribute: String, threshold: u64 },
    GreaterThan { attribute: String, threshold: u64 },
    LessThan { attribute: String, threshold: u64 },
    LessThanOrEqual { attribute: String, threshold: u64 },
    Equality { attribute: String, value: String },
    NotEqual { attribute: String, value: String },
    Range { attribute: String, min: u64, max: u64 },
    InSet { attribute: String, allowed_values: Vec<String> },
    FaceMatch { min_similarity: u64 },
    DepthCheck { min_depth_variance: u64 },
    LivenessCheck { min_confidence: u64 },
}

/// Texts in quotes.
pub open spec fn quoted_all(s: Seq<Seq<char>>) -> Seq<Seq<char>> {
    Seq::new(s.len(), |i: int| text::in_quotes(s[i]))
}

/// A predicate in words. The values of a set are in order.
pub open spec fn description(p: PredicateType) -> Seq<char> {
    match p {
        PredicateType::GreaterThanOrEqual { attribute, threshold } => attribute@ + " >= "@
            + text::decimal(threshold as nat),
        PredicateType::GreaterThan { attribute, threshold } => attribute@ + " > "@ + text::decimal(
            threshold as nat,
        ),
        PredicateType::LessThan { attribute, threshold } => attribute@ + " < "@ + text::decimal(
            threshold as nat,
        ),
        PredicateType::LessThanOrEqual { attribute, threshold } => attribute@ + " <= "@
            + text::decimal(threshold as nat),
        PredicateType::Equality { attribute, value } => attribute@ + " = \""@ + value@ + "\""@,
        PredicateType::NotEqual { attribute, value } => attribute@ + " != \""@ + value@ + "\""@,
        PredicateType::Range { attribute, min, max } => attribute@ + " BETWEEN "@ + text::decimal(
            min as nat,
        ) + " AND "@ + text::decimal(max as nat),
        PredicateType::InSet { attribute, allowed_values } => attribute@ + " IN "@ + "["@
            + text::joined(
            quoted_all(text::texts(allowed_values@).sort_by(order::text_order())),
            ", "@,
        ) + "]"@,
        PredicateType::FaceMatch { min_similarity } => "face_match >= "@ + text::decimal(
            min_similarity as nat,
        ),
        PredicateType::DepthCheck { min_depth_variance } => "depth_variance >= "@ + text::decimal(
            min_depth_variance as nat,
        ),
        PredicateType::LivenessCheck { min_confidence } => "liveness >= "@ + text::decimal(
            min_confidence as nat,
        ),
    }
}

/// The number of a predicate's kind.
pub open spec fn opcode(p: PredicateType) -> u8 {
    match p {
        PredicateType::GreaterThanOrEqual { .. } => 1,
        PredicateType::GreaterThan { .. } => 2,
        PredicateType::LessThan { .. } => 3,
        PredicateType::LessThanOrEqual { .. } => 4,
        PredicateType::Equality { .. } => 5,
        PredicateType::NotEqual { .. } => 6,
        PredicateType::Range { .. } => 7,
        PredicateType::InSet { .. } => 8,
        PredicateType::FaceMatch { .. } => 9,
        PredicateType::DepthCheck { .. } => 10,
        PredicateType::LivenessCheck { .. } => 11,
    }
}

/// Two texts and a number.
fn compared(left: &str, relation: &str, bound: u64) -> (r: String)
    ensures
        r@ == left@ + relation@ + text::decimal(bound as nat),
{
    let mut out = left.to_string();
    out.push_str(relation);
    out.push_str(text::decimal_text(bound).as_str());
    out
}

/// Two texts and a third in plain quotes.
fn matched(left: &str, relation: &str, value: &str) -> (r: String)
    ensures
        r@ == left@ + relation@ + value@ + "\""@,
{
    let mut out = left.to_string();
    out.push_str(relation);
    out.push_str(value);
    out.push_str("\"");
    out
}

/// Puts texts in quotes.
fn quote_all(v: &Vec<String>) -> (r: Vec<String>)
    ensures
        text::texts(r@) == quoted_all(text::texts(v@)),
{
    let mut out: Vec<String> = Vec::new();
    let ghost all = text::texts(v@);
    assert(text::texts(out@) =~= quoted_all(all.take(0)));
    for i in 0..v.len()
        invariant
            all == text::texts(v@),
            text::texts(out@) == quoted_all(all.take(i as int)),
    {
        let ghost before = out@;
        out.push(text::quoted_text(v[i].as_str()));
        proof {
            let q = text::in_quotes(v@[i as int]@);
            assert(text::texts(out@) =~= text::texts(before).push(q));
            assert(quoted_all(all.take(i + 1)) =~= quoted_all(all.take(i as int)).push(q));
        }
    }
    assert(all.take(all.len() as int) =~= all);
    out
}

impl PredicateType {
    /// The predicate in words.
    pub fn describe(&self) -> (r: String)
        ensures
            r@ == description(*self),
    {
        match self {
            PredicateType::GreaterThanOrEqual { attribute, threshold } => {
                compared(attribute.as_str(), " >= ", *threshold)
            },
            PredicateType::GreaterThan { attribute, threshold } => {
                compared(attribute.as_str(), " > ", *threshold)
            },
            PredicateType::LessThan { attribute, threshold } => {
                compared(attribute.as_str(), " < ", *threshold)
            },
            PredicateType::LessThanOrEqual { attribute, threshold } => {
                compared(attribute.as_str(), " <= ", *threshold)
            },
            PredicateType::Equality { attribute, value } => {
                matched(attribute.as_str(), " = \"", value.as_str())
            },
            PredicateType::NotEqual { attribute, value } => {
                matched(attribute.as_str(), " != \"", value.as_str())
            },
            PredicateType::Range { attribute, min, max } => {
                let mut out = compared(attribute.as_str(), " BETWEEN ", *min);
                out.push_str(" AND ");
                out.push_str(text::decimal_text(*max).as_str());
                out
            },
            PredicateType::InSet { attribute, allowed_values } => {
                let mut out = attribute.clone();
                out.push_str(" IN ");
                out.push_str("[");
                let values = order::sorted(allowed_values);
                out.push_str(text::join(&quote_all(&values), ", ").as_str());
                out.push_str("]");
                out
            },
            PredicateType::FaceMatch { min_similarity } => {
                labelled("face_match >= ", *min_similarity)
            },
            PredicateType::DepthCheck { min_depth_variance } => {
                labelled("depth_variance >= ", *min_depth_variance)
            },
            PredicateType::LivenessCheck { min_confidence } => {
                labelled("liveness >= ", *min_confidence)
            },
        }
    }

    /// The number of the predicate's kind.
    pub fn to_opcode(&self) -> (r: u8)
        ensures
            r == opcode(*self),
            self is GreaterThanOrEqual <==> r == 1,
            self is GreaterThan <==> r == 2,
            self is LessThan <==> r == 3,
            self is LessThanOrEqual <==> r == 4,
            self is Equality <==> r == 5,
            self is NotEqual <==> r == 6,
            self is Range <==> r == 7,
            self is InSet <==> r == 8,
            self is FaceMatch <==> r == 9,
            self is DepthCheck <==> r == 10,
            self is LivenessCheck <==> r == 11,
    {
        match self {
            PredicateType::GreaterThanOrEqual { .. } => 1,
            PredicateType::GreaterThan { .. } => 2,
            PredicateType::LessThan { .. } => 3,
            PredicateType::LessThanOrEqual { .. } => 4,
            PredicateType::Equality { .. } => 5,
            PredicateType::NotEqual { .. } => 6,
            PredicateType::Range { .. } => 7,
            PredicateType::InSet { .. } => 8,
            PredicateType::FaceMatch { .. } => 9,
            PredicateType::DepthCheck { .. } => 10,
            PredicateType::LivenessCheck { .. } => 11,
        }
    }
}

fn labelled(lead: &str, bound: u64) -> (r: String)
    ensures
        r@ == lead@ + text::decimal(bound as nat),
{
    let mut out = lead.to_string();
    out.push_str(text::decimal_text(bound).as_str());
    out
}

/// Which claims are to be shown.
#[derive(Clone, Debug)]
pub struct RevealRequest {
    pub reveal_labels: Vec<String>,
}

/// A credential, with a proof once one has been made.
#[derive(Clone, Debug)]
pub struct VerifiableCredential {
    pub credential_id: String,
    pub issuer_did: String,
    pub claims: Vec<Claim>,
    pub commitment: String,
    pub proof_value: String,
    pub revealed_labels: Vec<String>,
    pub predicates_described: Vec<String>,
    pub cryptosuite: String,
    pub window_start: u64,
    pub window_expires: u64,
}

/// The result of checking a credential.
#[derive(Debug)]
pub struct VerificationResult {
    pub valid: bool,
    pub revealed_claims: Vec<Claim>,
    pub predicates_verified: Vec<String>,
    pub errors: Vec<String>,
}

/// The number of predicates that one proof has room for.
pub const MAX_PREDICATES: usize = 8;

/// The number of values that a set in a predicate has room for.
pub const MAX_INSET_VALUES: usize = 6;

/// A predicate as the circuit takes it.
#[derive(Clone, Copy)]
pub struct PredicateSlot {
    pub active: bool,
    pub pred_type: u8,
    pub attr_index: usize,
    pub val1: Fr,
    pub val2: Fr,
    pub inset_values: [Fr; MAX_INSET_VALUES],
    pub inset_count: usize,
}

impl Default for PredicateSlot {
    fn default() -> (r: PredicateSlot)
        ensures
            !r.active,
            r.pred_type == 0,
            r.attr_index == 0,
            r.val1@ == 0,
            r.val2@ == 0,
            forall|i: int| 0 <= i < 6 ==> (#[trigger] r.inset_values@[i])@ == 0,
            r.inset_count == 0,
    {
        let zero = Fr::zero();
        PredicateSlot {
            active: false,
            pred_type: 0,
            attr_index: 0,
            val1: zero,
            val2: zero,
            inset_values: [zero, zero, zero, zero, zero, zero],
            inset_count: 0,
        }
    }
}

/// The lowest 64 bits of a number.
pub open spec fn low_part(x: nat) -> nat {
    x % 0x1_0000_0000_0000_0000nat
}

/// The lowest 64 bits of a field element.
pub fn fr_to_u64(f: &Fr) -> (r: u64)
    ensures
        r == low_part(f@),
        r == f@ % 0x1_0000_0000_0000_0000nat,
{
    f.low_u64()
}

/// A number as a field element.
pub fn u64_to_fr(n: u64) -> (r: Fr)
    ensures
        r@ == n,
{
    Fr::from_u64(n)
}

/// What a description reads as: the attribute and then the relation of the predicate,
/// and behind it the bound, the text in quotes, the two bounds, or the values in
/// brackets, each value as often as it is in the set.
pub proof fn lemma_described(p: PredicateType)
    ensures
        ({
            let d = description(p);
            match p {
                PredicateType::GreaterThanOrEqual { attribute, threshold } => {
                    let n = attribute@.len() as int;
                    &&& d.take(n) == attribute@
                    &&& d.subrange(n, n + 4) == seq![' ', '>', '=', ' ']
                    &&& text::parsed_u64(d.skip(n + 4)) == Some(threshold as nat)
                },
                PredicateType::GreaterThan { attribute, threshold } => {
                    let n = attribute@.len() as int;
                    &&& d.take(n) == attribute@
                    &&& d.subrange(n, n + 3) == seq![' ', '>', ' ']
                    &&& text::parsed_u64(d.skip(n + 3)) == Some(threshold as nat)
                },
                PredicateType::LessThan { attribute, threshold } => {
                    let n = attribute@.len() as int;
                    &&& d.take(n) == attribute@
                    &&& d.subrange(n, n + 3) == seq![' ', '<', ' ']
                    &&& text::parsed_u64(d.skip(n + 3)) == Some(threshold as nat)
                },
                PredicateType::LessThanOrEqual { attribute, threshold } => {
                    let n = attribute@.len() as int;
                    &&& d.take(n) == attribute@
                    &&& d.subrange(n, n + 4) == seq![' ', '<', '=', ' ']
                    &&& text::parsed_u64(d.skip(n + 4)) == Some(threshold as nat)
                },
                PredicateType::Equality { attribute, value } => {
                    let n = attribute@.len() as int;
                    &&& d.take(n) == attribute@
                    &&& d.subrange(n, n + 4) == seq![' ', '=', ' ', '"']
                    &&& d.skip(n + 4) == value@.push('"')
                },
                PredicateType::NotEqual { attribute, value } => {
                    let n = attribute@.len() as int;
                    &&& d.take(n) == attribute@
                    &&& d.subrange(n, n + 5) == seq![' ', '!', '=', ' ', '"']
                    &&& d.skip(n + 5) == value@.push('"')
                },
                PredicateType::Range { attribute, min, max } => {
                    let n = attribute@.len() as int;
                    let m = n + 9 + text::decimal(min as nat).len();
                    &&& d.take(n) == attribute@
                    &&& d.subrange(n, n + 9) == " BETWEEN "@
                    &&& text::parsed_u64(d.subrange(n + 9, m)) == Some(min as nat)
                    &&& d.subrange(m, m + 5) == " AND "@
                    &&& text::parsed_u64(d.skip(m + 5)) == Some(max as nat)
                },
                PredicateType::InSet { attribute, allowed_values } => {
                    let n = attribute@.len() as int;
                    let values = text::texts(allowed_values@).sort_by(order::text_order());
                    let listed = Seq::new(values.len(), |i: int| text::in_quotes(values[i]));
                    &&& d.take(n) == attribute@
                    &&& d.subrange(n, n + 5) == seq![' ', 'I', 'N', ' ', '[']
                    &&& d.skip(n + 5) == text::joined(listed, seq![',', ' ']).push(']')
                    &&& values.to_multiset() == text::texts(allowed_values@).to_multiset()
                },
                PredicateType::FaceMatch { min_similarity } => {
                    &&& d.take(14) == "face_match >= "@
                    &&& text::parsed_u64(d.skip(14)) == Some(min_similarity as nat)
                },
                PredicateType::DepthCheck { min_depth_variance } => {
                    &&& d.take(18) == "depth_variance >= "@
                    &&& text::parsed_u64(d.skip(18)) == Some(min_depth_variance as nat)
                },
                PredicateType::LivenessCheck { min_confidence } => {
                    &&& d.take(12) == "liveness >= "@
                    &&& text::parsed_u64(d.skip(12)) == Some(min_confidence as nat)
                },
            }
        }),
{
    reveal_strlit(" >= ");
    reveal_strlit(" > ");
    reveal_strlit(" < ");
    reveal_strlit(" <= ");
    reveal_strlit(" = \"");
    reveal_strlit(" != \"");
    reveal_strlit("\"");
    reveal_strlit(" BETWEEN ");
    reveal_strlit(" AND ");
    reveal_strlit(" IN ");
    reveal_strlit("[");
    reveal_strlit("]");
    reveal_strlit(", ");
    reveal_strlit("face_match >= ");
    reveal_strlit("depth_variance >= ");
    reveal_strlit("liveness >= ");
    let d = description(p);
    match p {
        PredicateType::GreaterThanOrEqual { attribute, threshold }
        | PredicateType::LessThanOrEqual { attribute, threshold } => {
            let n = attribute@.len() as int;
            lemma_number_behind(threshold);
            assert(d.take(n) =~= attribute@);
            assert(d.skip(n + 4) =~= text::decimal(threshold as nat));
        },
        PredicateType::GreaterThan { attribute, threshold }
        | PredicateType::LessThan { attribute, threshold } => {
            let n = attribute@.len() as int;
            lemma_number_behind(threshold);
            assert(d.take(n) =~= attribute@);
            assert(d.skip(n + 3) =~= text::decimal(threshold as nat));
        },
        PredicateType::Equality { attribute, value } => {
            let n = attribute@.len() as int;
            assert(d.take(n) =~= attribute@);
            assert(d.skip(n + 4) =~= value@.push('"'));
        },
        PredicateType::NotEqual { attribute, value } => {
            let n = attribute@.len() as int;
            assert(d.take(n) =~= attribute@);
            assert(d.skip(n + 5) =~= value@.push('"'));
        },
        PredicateType::Range { attribute, min, max } => {
            let n = attribute@.len() as int;
            let m = n + 9 + text::decimal(min as nat).len();
            lemma_number_behind(min);
            lemma_number_behind(max);
            assert(d.take(n) =~= attribute@);
            assert(d.subrange(n, n + 9) =~= " BETWEEN "@);
            assert(d.subrange(n + 9, m) =~= text::decimal(min as nat));
            assert(d.subrange(m, m + 5) =~= " AND "@);
            assert(d.skip(m + 5) =~= text::decimal(max as nat));
        },
        PredicateType::InSet { attribute, allowed_values } => {
            let n = attribute@.len() as int;
            let values = text::texts(allowed_values@).sort_by(order::text_order());
            let listed = Seq::new(values.len(), |i: int| text::in_quotes(values[i]));
            order::lemma_text_order();
            text::texts(allowed_values@).lemma_sort_by_ensures(order::text_order());
            assert(listed =~= quoted_all(values));
            assert(", "@ =~= seq![',', ' ']);
            assert(d.take(n) =~= attribute@);
            assert(d.skip(n + 5) =~= text::joined(listed, seq![',', ' ']).push(']'));
        },
        PredicateType::FaceMatch { min_similarity } => {
            lemma_number_behind(min_similarity);
            assert(d.take(14) =~= "face_match >= "@);
            assert(d.skip(14) =~= text::decimal(min_similarity as nat));
        },
        PredicateType::DepthCheck { min_depth_variance } => {
            lemma_number_behind(min_depth_variance);
            assert(d.take(18) =~= "depth_variance >= "@);
            assert(d.skip(18) =~= text::decimal(min_depth_variance as nat));
        },
        PredicateType::LivenessCheck { min_confidence } => {
            lemma_number_behind(min_confidence);
            assert(d.take(12) =~= "liveness >= "@);
            assert(d.skip(12) =~= text::decimal(min_confidence as nat));
        },
    }
}

proof fn lemma_number_behind(n: u64)
    ensures
        text::parsed_u64(text::decimal(n as nat)) == Some(n as nat),
{
    text::lemma_decimal(n as nat);
    assert(text::is_digit(text::decimal(n as nat)[0]));
}

} // verus!
