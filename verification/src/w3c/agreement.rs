//! What issuers and verifiers agree on.
use crate::base64url;
use crate::disclosure;
use crate::field;
use crate::gates;
use crate::groth16;
use crate::text;
use crate::w3c::credential;
use crate::w3c::credential::{Draft, Info, W3CCredential};
use crate::w3c::cryptosuite;
use crate::w3c::cryptosuite::{Issuer, Verifier};
use crate::w3c::error::CredentialError;
use crate::w3c::primitives;
use crate::w3c::primitives::TrustedSetup;
use vstd::prelude::*;

verus! {

// What a mapping says.

/// Decimal text is read as the number that it writes.
pub proof fn lemma_number_read(n: nat)
    requires
        n <= u64::MAX,
    ensures
        text::parsed_u64(text::decimal(n)) == Some(n),
{
    text::lemma_decimal(n);
    assert(text::is_digit(text::decimal(n)[0]));
}

/// What a verifier takes an attribute for is what the mapping says of its place
/// last: the number that a text writes, and the hash of any other text. A place
/// that the mapping does not name is taken for zero.
pub proof fn lemma_mapping(mapping: Seq<(usize, &str)>, k: int)
    ensures
        credential::claimed_attributes(mapping).len() == 16,
        0 <= k < mapping.len() && mapping[k].0 < 16 && (forall|l: int|
            k < l < mapping.len() ==> (#[trigger] mapping[l]).0 != mapping[k].0) ==> {
            let taken = credential::claimed_attributes(mapping)[mapping[k].0 as int];
            &&& forall|n: nat|
                n <= u64::MAX && mapping[k].1@ == #[trigger] text::decimal(n) ==> taken == n
            &&& text::parsed_u64(mapping[k].1@) matches Some(n) ==> taken == n
            &&& text::parsed_u64(mapping[k].1@) is None ==> taken == primitives::attribute_value(
                mapping[k].1@,
            )
        },
        forall|i: int|
            0 <= i < 16 && (forall|l: int|
                0 <= l < mapping.len() ==> (#[trigger] mapping[l]).0 != i)
                ==> #[trigger] credential::claimed_attributes(mapping)[i] == 0,
    decreases mapping.len(),
{
    if mapping.len() > 0 {
        let before = mapping.drop_last();
        let last = mapping.len() - 1;
        lemma_mapping(before, k);
        if 0 <= k < mapping.len() && mapping[k].0 < 16 && (forall|l: int|
            k < l < mapping.len() ==> (#[trigger] mapping[l]).0 != mapping[k].0) {
            assert forall|n: nat|
                n <= u64::MAX && mapping[k].1@ == #[trigger] text::decimal(n) implies credential::claimed_attributes(
            mapping)[mapping[k].0 as int] == n by {
                lemma_number_read(n);
                if k < last {
                    assert(mapping[last].0 != mapping[k].0);
                    lemma_last_kept(mapping, k);
                }
            }
            if k < last {
                assert(mapping[last].0 != mapping[k].0);
                lemma_last_kept(mapping, k);
            }
        }
        assert forall|i: int|
            0 <= i < 16 && (forall|l: int|
                0 <= l < mapping.len() ==> (#[trigger] mapping[l]).0
                    != i) implies #[trigger] credential::claimed_attributes(mapping)[i] == 0 by {
            assert forall|l: int| 0 <= l < before.len() implies (#[trigger] before[l]).0 != i by {
                assert(mapping[l] == before[l]);
            }
            assert(mapping[last].0 != i);
        }
    }
}

proof fn lemma_last_kept(mapping: Seq<(usize, &str)>, k: int)
    requires
        0 <= k < mapping.len() - 1,
        forall|l: int| k < l < mapping.len() ==> (#[trigger] mapping[l]).0 != mapping[k].0,
    ensures
        mapping.drop_last()[k] == mapping[k],
        forall|l: int|
            k < l < mapping.drop_last().len() ==> (#[trigger] mapping.drop_last()[l]).0
                != mapping.drop_last()[k].0,
{
    let before = mapping.drop_last();
    assert forall|l: int| k < l < before.len() implies (#[trigger] before[l]).0
        != before[k].0 by {
        assert(mapping[l] == before[l]);
    }
}

// What a draft commits to.

/// An attribute that was added last at its place.
pub open spec fn is_last_at(infos: Seq<Info>, j: int) -> bool {
    &&& 0 <= j < infos.len()
    &&& forall|l: int| j < l < infos.len() ==> (#[trigger] infos[l]).index != infos[j].index
}

/// A draft commits at each place to what was added there last, an age as its
/// number and any other attribute as the hash of its text, and to zero where
/// nothing was added.
pub proof fn lemma_committed(infos: Seq<Info>, j: int)
    ensures
        credential::committed_attributes(infos).len() == 16,
        is_last_at(infos, j) && infos[j].index < 16 ==> {
            let committed = credential::committed_attributes(infos)[infos[j].index as int];
            &&& !infos[j].is_age ==> committed == primitives::attribute_value(infos[j].value)
            &&& forall|n: nat|
                infos[j].is_age && n <= u64::MAX && infos[j].value == #[trigger] text::decimal(n)
                    ==> committed == n
        },
        forall|i: int|
            0 <= i < 16 && (forall|l: int|
                0 <= l < infos.len() ==> (#[trigger] infos[l]).index != i)
                ==> #[trigger] credential::committed_attributes(infos)[i] == 0,
    decreases infos.len(),
{
    if infos.len() > 0 {
        let before = infos.drop_last();
        let last = infos.len() - 1;
        lemma_committed(before, j);
        if is_last_at(infos, j) && infos[j].index < 16 {
            if j < last {
                assert(infos[last].index != infos[j].index);
                assert(is_last_at(before, j)) by {
                    assert forall|l: int| j < l < before.len() implies (#[trigger] before[l]).index
                        != before[j].index by {
                        assert(infos[l] == before[l]);
                    }
                }
                assert(before[j] == infos[j]);
            } else {
                assert forall|n: nat|
                    infos[j].is_age && n <= u64::MAX && infos[j].value == #[trigger] text::decimal(
                        n,
                    ) implies credential::committed_attributes(infos)[infos[j].index as int]
                    == n by {
                    lemma_number_read(n);
                }
            }
        }
        assert forall|i: int|
            0 <= i < 16 && (forall|l: int|
                0 <= l < infos.len() ==> (#[trigger] infos[l]).index
                    != i) implies #[trigger] credential::committed_attributes(infos)[i] == 0 by {
            assert forall|l: int| 0 <= l < before.len() implies (#[trigger] before[l]).index
                != i by {
                assert(infos[l] == before[l]);
            }
            assert(infos[last].index != i);
        }
    }
}

/// The place of an attribute that was added has one that was added last.
proof fn lemma_has_last(infos: Seq<Info>, j: int) -> (k: int)
    requires
        0 <= j < infos.len(),
    ensures
        is_last_at(infos, k),
        infos[k].index == infos[j].index,
        k >= j,
    decreases infos.len() - j,
{
    if forall|l: int| j < l < infos.len() ==> (#[trigger] infos[l]).index != infos[j].index {
        j
    } else {
        let l = choose|l: int|
            j < l < infos.len() && (#[trigger] infos[l]).index == infos[j].index;
        lemma_has_last(infos, l)
    }
}

/// The last entry of a mapping for a place.
proof fn lemma_has_last_entry(mapping: Seq<(usize, &str)>, j: int) -> (k: int)
    requires
        0 <= j < mapping.len(),
    ensures
        0 <= k < mapping.len(),
        mapping[k].0 == mapping[j].0,
        forall|l: int| k < l < mapping.len() ==> (#[trigger] mapping[l]).0 != mapping[k].0,
    decreases mapping.len() - j,
{
    if forall|l: int| j < l < mapping.len() ==> (#[trigger] mapping[l]).0 != mapping[j].0 {
        j
    } else {
        let l = choose|l: int|
            j < l < mapping.len() && (#[trigger] mapping[l]).0 == mapping[j].0;
        lemma_has_last_entry(mapping, l)
    }
}

/// An attribute reads the same to the builder and to a verifier: an age, or a
/// text that is no number.
pub open spec fn is_readable(info: Info) -> bool {
    if info.is_age {
        exists|n: nat| n <= u64::MAX && info.value == #[trigger] text::decimal(n)
    } else {
        text::parsed_u64(info.value) is None
    }
}

/// A mapping names the shown attributes of a draft, and nothing else: every entry
/// has the text that was added last at its place, and every shown place where
/// something was added has an entry.
pub open spec fn names_shown(mapping: Seq<(usize, &str)>, d: Draft) -> bool {
    &&& forall|k: int|
        0 <= k < mapping.len() ==> {
            &&& (#[trigger] mapping[k]).0 < 16
            &&& d.config.mask@[mapping[k].0 as int]
            &&& exists|j: int|
                {
                    &&& #[trigger] is_last_at(d.infos, j)
                    &&& d.infos[j].index == mapping[k].0
                    &&& d.infos[j].value == mapping[k].1@
                    &&& is_readable(d.infos[j])
                }
        }
    &&& forall|j: int|
        0 <= j < d.infos.len() && (#[trigger] d.infos[j]).index < 16
            && d.config.mask@[d.infos[j].index as int] ==> exists|k: int|
            0 <= k < mapping.len() && (#[trigger] mapping[k]).0 == d.infos[j].index
}

/// What a mapping of the shown attributes says is what the draft shows.
proof fn lemma_mapping_shown(mapping: Seq<(usize, &str)>, d: Draft)
    requires
        names_shown(mapping, d),
    ensures
        credential::claimed_attributes(mapping) == disclosure::shown_values(
            credential::committed_attributes(d.infos),
            d.config.mask@,
            16,
        ),
{
    let taken = credential::claimed_attributes(mapping);
    let committed = credential::committed_attributes(d.infos);
    let shown = disclosure::shown_values(committed, d.config.mask@, 16);
    lemma_mapping(mapping, 0);
    lemma_committed(d.infos, 0);
    assert forall|i: int| 0 <= i < 16 implies #[trigger] taken[i] == shown[i] by {
        if exists|k: int| 0 <= k < mapping.len() && (#[trigger] mapping[k]).0 == i {
            let k0 = choose|k: int| 0 <= k < mapping.len() && (#[trigger] mapping[k]).0 == i;
            let k = lemma_has_last_entry(mapping, k0);
            assert(mapping[k].0 == i);
            let j = choose|j: int|
                {
                    &&& #[trigger] is_last_at(d.infos, j)
                    &&& d.infos[j].index == mapping[k].0
                    &&& d.infos[j].value == mapping[k].1@
                    &&& is_readable(d.infos[j])
                };
            lemma_mapping(mapping, k);
            lemma_committed(d.infos, j);
            if d.infos[j].is_age {
                let n = choose|n: nat|
                    n <= u64::MAX && d.infos[j].value == #[trigger] text::decimal(n);
                assert(mapping[k].1@ == text::decimal(n));
            }
        } else {
            if d.config.mask@[i] {
                assert forall|l: int| 0 <= l < d.infos.len() implies (
                #[trigger] d.infos[l]).index != i by {
                    if d.infos[l].index == i {
                        let k = choose|k: int|
                            0 <= k < mapping.len() && (#[trigger] mapping[k]).0
                                == d.infos[l].index;
                        assert(mapping[k].0 == i);
                    }
                }
            }
        }
    }
    assert(taken =~= shown);
}

/// A built credential is valid to a verifier that names each shown place with the
/// text that was added there, asks for the same threshold and expects the
/// credential's domain or none. The keys must be for the configuration, and a
/// commitment of zero is left out, as its text does not read back.
pub proof fn lemma_built_verifies_by_text(
    d: Draft,
    secret: Seq<u8>,
    setup: TrustedSetup,
    c: W3CCredential,
    expected_domain: Option<&str>,
    mapping: Seq<(usize, &str)>,
)
    requires
        credential::built(d, secret, setup, Ok(c)),
        setup.is_for(d.config),
        credential::draft_commitment(d, secret) != 0,
        expected_domain matches Some(e) ==> e@ == d.domain,
        names_shown(mapping, d),
    ensures
        ({
            let outcome = credential::verification(
                c,
                setup,
                expected_domain,
                credential::claimed_attributes(mapping),
                d.config.age_threshold,
            );
            outcome.valid && outcome.reason is None && outcome.revealed == d.revealed
        }),
{
    lemma_mapping_shown(mapping, d);
    credential::lemma_built_verifies(
        d,
        secret,
        setup,
        c,
        expected_domain,
        credential::claimed_attributes(mapping),
    );
}

// What checking a credential tells.

/// A credential is valid exactly when it is for the expected domain, its
/// commitment and its proof can be read, and the proof verifies with what the
/// verifier takes the attributes for, the commitment and the threshold. Only then
/// no reason is given.
pub proof fn lemma_valid(
    c: W3CCredential,
    setup: TrustedSetup,
    expected_domain: Option<&str>,
    shown: Seq<nat>,
    age_threshold: Option<u64>,
)
    ensures
        ({
            let outcome = credential::verification(
                c,
                setup,
                expected_domain,
                shown,
                age_threshold,
            );
            let commitment = field::field_of_text(c.credential_subject.commitment@);
            let bytes = base64url::decoded(c.proof.proof_value@);
            let threshold = match age_threshold {
                Some(t) => t as nat,
                None => 0,
            };
            &&& outcome.valid <==> {
                &&& expected_domain matches Some(e) ==> c.proof.domain@ == e@
                &&& commitment is Some
                &&& bytes is Some
                &&& groth16::decoded_proof(bytes->0) is Ok
                &&& groth16::verdict(
                    setup.keys.verifying_key(),
                    shown + seq![commitment->0, threshold],
                    groth16::decoded_proof(bytes->0)->Ok_0,
                ) == Ok::<bool, gates::SynthesisError>(true)
            }
            &&& outcome.valid <==> outcome.reason is None
            &&& outcome.valid ==> outcome.revealed == text::texts(
                c.credential_subject.revealed_attributes@,
            )
        }),
{
    let commitment = field::field_of_text(c.credential_subject.commitment@);
    let threshold = match age_threshold {
        Some(t) => t as nat,
        None => 0,
    };
    if commitment is Some {
        assert(primitives::verifier_inputs(shown, commitment->0, age_threshold) =~= shown + seq![
            commitment->0,
            threshold,
        ]);
    }
}

/// A built credential has the identifier, the subject, the issuer, the domain and
/// the shown texts of its draft, and the commitment to its attributes.
pub proof fn lemma_built_content(
    d: Draft,
    secret: Seq<u8>,
    setup: TrustedSetup,
    c: W3CCredential,
)
    requires
        credential::built(d, secret, setup, Ok(c)),
    ensures
        c.id@ == d.id,
        c.credential_subject.id@ == d.subject,
        d.subject.len() > 0,
        c.issuer@ == d.issuer,
        c.proof.domain@ == d.domain,
        c.proof.verification_method@ == d.issuer + "#poseidon-groth16-key-1"@,
        c.credential_subject.revealed_attributes@.len() == d.revealed.len(),
        forall|i: int|
            0 <= i < d.revealed.len() ==> (
            #[trigger] c.credential_subject.revealed_attributes@[i])@ == d.revealed[i],
        c.credential_subject.commitment@ == field::field_text(
            primitives::commitment_value(
                credential::committed_attributes(d.infos),
                primitives::credential_blinding(secret, d.id),
            ),
        ),
        base64url::decoded(c.proof.proof_value@) matches Some(proof) && proof.len() == 128,
        c.proof.cryptosuite@ == "poseidon-groth16-2026"@,
        c.proof.proof_type@ == "DataIntegrityProof"@,
{
    let shown = text::texts(c.credential_subject.revealed_attributes@);
    assert(shown.len() == c.credential_subject.revealed_attributes@.len());
    assert forall|i: int| 0 <= i < d.revealed.len() implies (
    #[trigger] c.credential_subject.revealed_attributes@[i])@ == d.revealed[i] by {
        assert(shown[i] == d.revealed[i]);
    }
}

/// A draft whose age was added last at its place is built only if the age reaches
/// the threshold by less than two to the power of 32, and with keys for the
/// configuration it is built then.
pub proof fn lemma_age_decides(
    d: Draft,
    secret: Seq<u8>,
    setup: TrustedSetup,
    r: Result<W3CCredential, CredentialError>,
    j: int,
    age: nat,
    threshold: u64,
)
    requires
        credential::built(d, secret, setup, r),
        d.subject.len() > 0,
        is_last_at(d.infos, j),
        d.infos[j].is_age,
        age <= u64::MAX,
        d.infos[j].value == text::decimal(age),
        d.infos[j].index < 16,
        d.config.age_index == Some(d.infos[j].index as usize),
        d.config.age_threshold == Some(threshold),
    ensures
        r is Ok ==> threshold <= age < threshold + 0x1_0000_0000,
        age < threshold ==> (r matches Err(CredentialError::ConstraintUnsatisfied(m)) && m@
            == "Age "@ + field::field_text(age) + " is less than threshold "@ + text::decimal(
            threshold as nat,
        )),
        setup.is_for(d.config) && threshold <= age < threshold + 0x1_0000_0000 ==> r is Ok,
{
    lemma_committed(d.infos, j);
    assert(credential::committed_attributes(d.infos)[d.infos[j].index as int] == age);
}

/// Nothing is built without a threshold or without a subject.
pub proof fn lemma_needed(
    d: Draft,
    secret: Seq<u8>,
    setup: TrustedSetup,
    r: Result<W3CCredential, CredentialError>,
)
    requires
        credential::built(d, secret, setup, r),
        d.subject.len() == 0 || d.config.age_threshold is None,
    ensures
        r is Err,
{
}

// What an issuer promises.

/// The attributes of an issued credential are at the places that they are listed
/// at, as far as there are places.
proof fn lemma_listed(attributes: Seq<(&str, &str)>)
    ensures
        cryptosuite::listed(attributes).len() == if attributes.len() < 16 {
            attributes.len()
        } else {
            16
        },
        forall|i: int|
            0 <= i < cryptosuite::listed(attributes).len() ==> #[trigger] cryptosuite::listed(
                attributes,
            )[i] == (Info {
                index: i as nat,
                name: attributes[i].0@,
                value: attributes[i].1@,
                is_age: false,
            }),
    decreases attributes.len(),
{
    if attributes.len() > 0 {
        let before = attributes.drop_last();
        lemma_listed(before);
        let all = cryptosuite::listed(attributes);
        assert forall|i: int| 0 <= i < all.len() implies #[trigger] all[i] == (Info {
            index: i as nat,
            name: attributes[i].0@,
            value: attributes[i].1@,
            is_age: false,
        }) by {
            if i < cryptosuite::listed(before).len() {
                assert(all[i] == cryptosuite::listed(before)[i]);
                assert(before[i] == attributes[i]);
            }
        }
    }
}

/// An issued draft has the listed attributes at their places, and the age behind
/// them.
pub proof fn lemma_issued_attributes(
    d: Draft,
    issuer: Seq<char>,
    secret: Seq<u8>,
    subject: Seq<char>,
    attributes: Seq<(&str, &str)>,
    age: Option<u64>,
    names: Seq<&str>,
)
    requires
        cryptosuite::issued_draft(d, issuer, secret, subject, attributes, age, names),
    ensures
        d.subject == subject,
        d.issuer == issuer,
        forall|i: int|
            0 <= i < 16 && i < attributes.len() ==> #[trigger] credential::committed_attributes(
                d.infos,
            )[i] == primitives::attribute_value(attributes[i].1@),
        age is Some && attributes.len() < 16 ==> credential::committed_attributes(
            d.infos,
        )[attributes.len() as int] == age->0,
        forall|i: int|
            attributes.len() < i < 16 || (i == attributes.len() && i < 16 && age is None)
                ==> #[trigger] credential::committed_attributes(d.infos)[i] == 0,
{
    lemma_listed(attributes);
    let listed = cryptosuite::listed(attributes);
    let infos = d.infos;
    assert forall|l: int| 0 <= l < infos.len() implies (#[trigger] infos[l]).index == l by {
        if l < listed.len() {
            assert(infos[l] == listed[l]);
        }
    }
    lemma_committed(infos, 0);
    assert forall|i: int|
        0 <= i < 16 && i < attributes.len() implies #[trigger] credential::committed_attributes(
        infos,
    )[i] == primitives::attribute_value(attributes[i].1@) by {
        assert(infos[i] == listed[i]);
        assert(is_last_at(infos, i));
        lemma_committed(infos, i);
    }
    if age is Some && attributes.len() < 16 {
        let i = attributes.len() as int;
        assert(is_last_at(infos, i));
        lemma_committed(infos, i);
        assert(infos[i].value == text::decimal(age->0 as nat));
    }
}

/// The texts that an issued credential shows are the values of the attributes
/// that some requested name names, in their order, as far as there are places.
pub proof fn lemma_issued_texts(attributes: Seq<(&str, &str)>, names: Seq<&str>)
    ensures
        cryptosuite::shown_texts(attributes, names) == attributes.take(
            if attributes.len() < 16 {
                attributes.len() as int
            } else {
                16
            },
        ).filter(
            |a: (&str, &str)| exists|j: int| 0 <= j < names.len() && (#[trigger] names[j])@ == a.0@,
        ).map_values(|a: (&str, &str)| a.1@),
    decreases attributes.len(),
{
    reveal(Seq::filter);
    let wanted = |a: (&str, &str)|
        exists|j: int| 0 <= j < names.len() && (#[trigger] names[j])@ == a.0@;
    let value = |a: (&str, &str)| a.1@;
    if attributes.len() > 0 {
        let before = attributes.drop_last();
        lemma_issued_texts(before, names);
        if attributes.len() <= 16 {
            assert(attributes.take(attributes.len() as int) =~= attributes);
            assert(before.take(before.len() as int) =~= before);
            let kept = before.filter(wanted);
            assert(kept.push(attributes.last()).map_values(value) =~= kept.map_values(value).push(
                attributes.last().1@,
            ));
        } else {
            assert(attributes.take(16) =~= before.take(16));
        }
    } else {
        assert(attributes.take(0) =~= attributes);
        assert(attributes.map_values(value) =~= Seq::empty());
    }
}

/// A mapping names the attributes that requested names name, each with its text,
/// and nothing else.
pub open spec fn names_requested(
    mapping: Seq<(usize, &str)>,
    attributes: Seq<(&str, &str)>,
    names: Seq<&str>,
) -> bool {
    &&& forall|k: int|
        0 <= k < mapping.len() ==> {
            &&& (#[trigger] mapping[k]).0 < 16
            &&& mapping[k].0 < attributes.len()
            &&& mapping[k].1@ == attributes[mapping[k].0 as int].1@
            &&& text::parsed_u64(mapping[k].1@) is None
            &&& exists|j: int|
                0 <= j < names.len() && (#[trigger] names[j])@ == attributes[mapping[k].0 as int].0@
        }
    &&& forall|i: int, j: int|
        0 <= i < 16 && i < attributes.len() && 0 <= j < names.len() && (#[trigger] names[j])@ == (
        #[trigger] attributes[i]).0@ ==> exists|k: int|
            0 <= k < mapping.len() && (#[trigger] mapping[k]).0 == i
}

/// An issued credential is valid to a verifier with the issuer's verifying key
/// that names each requested attribute with its text and asks for eighteen years,
/// where the texts are no numbers, the keys are for the credential's
/// configuration and the commitment is not zero.
pub proof fn lemma_issued_verifies_by_text(
    issuer: Issuer,
    verifier: Verifier,
    d: Draft,
    c: W3CCredential,
    subject: Seq<char>,
    attributes: Seq<(&str, &str)>,
    age: u64,
    names: Seq<&str>,
    expected_domain: Option<&str>,
    mapping: Seq<(usize, &str)>,
)
    requires
        cryptosuite::issued_draft(
            d,
            issuer.issuer_did(),
            issuer.secret(),
            subject,
            attributes,
            Some(age),
            names,
        ),
        credential::built(d, issuer.secret(), issuer.cryptosuite().setup(), Ok(c)),
        issuer.cryptosuite().setup().is_for(d.config),
        verifier.cryptosuite().setup().keys.verifying_key()
            == issuer.cryptosuite().setup().keys.verifying_key(),
        credential::draft_commitment(d, issuer.secret()) != 0,
        expected_domain matches Some(e) ==> e@ == "https://verifier.example"@,
        names_requested(mapping, attributes, names),
    ensures
        cryptosuite::suite_verification(
            c,
            verifier.cryptosuite().setup(),
            expected_domain,
            credential::claimed_attributes(mapping),
            Some(18),
        ).valid,
{
    lemma_listed(attributes);
    let listed = cryptosuite::listed(attributes);
    let infos = d.infos;
    assert forall|l: int| 0 <= l < infos.len() implies (#[trigger] infos[l]).index == l by {
        if l < listed.len() {
            assert(infos[l] == listed[l]);
        }
    }
    cryptosuite::lemma_all_names(d, attributes, names);
    assert forall|k: int| 0 <= k < mapping.len() implies {
        &&& (#[trigger] mapping[k]).0 < 16
        &&& d.config.mask@[mapping[k].0 as int]
        &&& exists|j: int|
            {
                &&& #[trigger] is_last_at(infos, j)
                &&& infos[j].index == mapping[k].0
                &&& infos[j].value == mapping[k].1@
                &&& is_readable(infos[j])
            }
    } by {
        let i = mapping[k].0 as int;
        let j = choose|j: int|
            0 <= j < names.len() && (#[trigger] names[j])@ == attributes[i].0@;
        assert(names[j]@ == attributes[i].0@);
        assert(infos[i] == listed[i]);
        assert(is_last_at(infos, i));
    }
    assert forall|j: int|
        0 <= j < infos.len() && (#[trigger] infos[j]).index < 16
            && d.config.mask@[infos[j].index as int] implies exists|k: int|
        0 <= k < mapping.len() && (#[trigger] mapping[k]).0 == infos[j].index by {
        assert(infos[j].index == j);
        assert(d.config.mask@[j]);
        let l = choose|l: int|
            0 <= l < names.len() && (#[trigger] names[l])@ == attributes[j].0@;
        assert(names[l]@ == attributes[j].0@);
    }
    assert(names_shown(mapping, d));
    lemma_mapping_shown(mapping, d);
    cryptosuite::lemma_issued_verifies(
        issuer,
        verifier,
        d,
        c,
        expected_domain,
        credential::claimed_attributes(mapping),
    );
}

/// What an age comes to when a credential is issued: below eighteen nothing is
/// issued, and from eighteen on a credential is, for a subject and with keys for
/// the configuration. Without an age nothing is issued.
pub proof fn lemma_issued_age(
    d: Draft,
    issuer: Seq<char>,
    secret: Seq<u8>,
    setup: TrustedSetup,
    subject: Seq<char>,
    attributes: Seq<(&str, &str)>,
    age: Option<u64>,
    names: Seq<&str>,
    r: Result<W3CCredential, CredentialError>,
)
    requires
        cryptosuite::issued_draft(d, issuer, secret, subject, attributes, age, names),
        credential::built(d, secret, setup, r),
        attributes.len() < 16,
    ensures
        age is None ==> r is Err,
        age is Some && age->0 < 18 ==> r is Err,
        subject.len() == 0 ==> r is Err,
        setup.is_for(d.config) && subject.len() > 0 && age is Some && 18 <= age->0
            < 0x1_0000_0000 ==> r is Ok,
{
    lemma_issued_attributes(d, issuer, secret, subject, attributes, age, names);
}

/// What a suite accepts: the credentials of its own suite and type of proof that are
/// valid as credentials. Another suite or another type of proof is refused whatever the
/// proof.
pub proof fn lemma_suite_valid(
    c: W3CCredential,
    setup: TrustedSetup,
    expected_domain: Option<&str>,
    shown: Seq<nat>,
    age_threshold: Option<u64>,
)
    ensures
        ({
            let outcome = cryptosuite::suite_verification(
                c,
                setup,
                expected_domain,
                shown,
                age_threshold,
            );
            let own = c.proof.cryptosuite@ == "poseidon-groth16-2026"@;
            let typed = c.proof.proof_type@ == "DataIntegrityProof"@;
            &&& outcome.valid <==> own && typed && credential::verification(
                c,
                setup,
                expected_domain,
                shown,
                age_threshold,
            ).valid
            &&& !own ==> outcome.reason == Some(
                "Unsupported cryptosuite: "@ + c.proof.cryptosuite@,
            )
            &&& own && !typed ==> outcome.reason == Some("Invalid proof type"@)
            &&& !own || !typed ==> outcome.revealed.len() == 0
        }),
{
}

/// Why a credential is refused: for another domain, whatever else holds; then for a
/// commitment that is no number, for a proof that is not in the alphabet, for bytes that
/// are no proof, and for a proof that does not verify. Nothing is shown of a credential
/// that was not checked to the end.
pub proof fn lemma_reasons(
    c: W3CCredential,
    setup: TrustedSetup,
    expected_domain: Option<&str>,
    shown: Seq<nat>,
    age_threshold: Option<u64>,
)
    ensures
        ({
            let outcome = credential::verification(
                c,
                setup,
                expected_domain,
                shown,
                age_threshold,
            );
            let elsewhere = expected_domain is Some && c.proof.domain@ != expected_domain->0@;
            let commitment = field::field_of_text(c.credential_subject.commitment@);
            let bytes = base64url::decoded(c.proof.proof_value@);
            let proof = groth16::decoded_proof(bytes->0);
            &&& elsewhere ==> outcome.reason == Some(
                "Domain mismatch: expected '"@ + expected_domain->0@ + "', got '"@
                    + c.proof.domain@ + "'"@,
            )
            &&& !elsewhere && commitment is None ==> outcome.reason == Some(
                "Invalid commitment format"@,
            )
            &&& !elsewhere && commitment is Some && bytes is None ==> outcome.reason == Some(
                "Invalid proof encoding"@,
            )
            &&& !elsewhere && commitment is Some && bytes is Some && proof is Err
                ==> outcome.reason == Some("Invalid proof format"@)
            &&& elsewhere || commitment is None || bytes is None || proof is Err
                ==> !outcome.valid && outcome.revealed.len() == 0
        }),
{
}

/// Why nothing is built: for want of a subject; for an age below the threshold; for
/// want of a threshold; or for an age that is more than 32 bits above it.
pub proof fn lemma_refused_build(
    d: Draft,
    secret: Seq<u8>,
    setup: TrustedSetup,
    r: Result<W3CCredential, CredentialError>,
)
    requires
        credential::built(d, secret, setup, r),
    ensures
        ({
            let attrs = credential::committed_attributes(d.infos);
            let at = d.config.age_index;
            let threshold = d.config.age_threshold;
            let low = at is Some && threshold is Some && at->0 < 16 && attrs[at->0 as int]
                < threshold->0;
            let first = if at is Some {
                at->0 as int
            } else {
                0
            };
            let high = threshold is Some && first < 16 && attrs[first] >= threshold->0
                + 0x1_0000_0000;
            let below = threshold is Some && at is None && attrs[0] < threshold->0;
            &&& d.subject.len() == 0 ==> (r matches Err(CredentialError::InvalidCredential(m))
                && m@ == "Subject ID is required"@)
            &&& d.subject.len() > 0 && low ==> (r matches Err(
                CredentialError::ConstraintUnsatisfied(m),
            ) && m@ == "Age "@ + field::field_text(attrs[at->0 as int])
                + " is less than threshold "@ + text::decimal(threshold->0 as nat))
            &&& d.subject.len() > 0 && threshold is None ==> (r matches Err(
                CredentialError::ProofGenerationFailed(m),
            ) && m@ == "an assignment for a variable could not be computed"@)
            &&& d.subject.len() > 0 && !low && (high || below) ==> (r matches Err(
                CredentialError::ConstraintUnsatisfied(m),
            ) && m@ == "Constraint not satisfied (this usually means age < threshold)"@)
            &&& d.subject.len() > 0 && threshold is Some && !low && !high && !below
                && setup.is_for(d.config) ==> r is Ok
        }),
{
}

} // verus!
