//! The hash and the commitment of the policy suite.
use crate::digest;
use crate::disclosure;
use crate::field;
use crate::field::Fr;
use crate::hashing;
use crate::permutation;
use crate::permutation::PoseidonParams;
use vstd::prelude::*;
use vstd::utf8::*;

verus! {

/// The number of rounds: eight full ones and 57 partial ones.
pub const TOTAL_ROUNDS: usize = 65;

const DOMAIN_SEP: &'static str = "poseidon-groth16-bn254-2026::v1.0::";

/// The tag of hashes in a Merkle tree.
pub const MERKLE_TAG: &'static str = "MerkleTree";

/// The text that every digest of this suite begins with.
pub closed spec fn separator() -> Seq<char> {
    DOMAIN_SEP@
}

/// The mixing matrix.
pub open spec fn field_matrix() -> Seq<Seq<nat>> {
    seq![
        seq![
            7511745149465107256748700652201246547602992235352608707588321460060273774987nat,
            10370080108974718697676803824769673834027675643658433702615832153489009608534nat,
            2247018858599093217859970495009051563819427767762690988670290948678852528196nat,
        ],
        seq![
            5033565915563690820580567202807588651538325596187477184920018811527875071748nat,
            18074065906835475064835156336879540604893904755395273315655774488823457430521nat,
            3440549930539707988491890165107846936137217605690897747816099052853729545684nat,
        ],
        seq![
            12156014185717070888739623349817386944685944276518514522568756219038368551066nat,
            17767583942672469234254451547756734174605356148134126728095427093827817762744nat,
            21817835364522886695600891450979518808105980352498506988579764218888993825396nat,
        ],
    ]
}

/// The schedule of the hash.
pub open spec fn schedule() -> permutation::Schedule {
    permutation::Schedule {
        constants: permutation::round_constants(encode_utf8(permutation::SEED@), 65),
        mds: field_matrix(),
    }
}

/// The parameters of the hash.
pub fn get_params() -> (r: PoseidonParams)
    ensures
        r@ == schedule(),
        permutation::well_formed(r@),
{
    let row0 = vec![
        Fr::from_limbs([18364386637727142283, 10718140578549479307, 12877775606795118513, 1196690043610129609]),
        Fr::from_limbs([902204568765531990, 10598338402256349803, 7701464610378726588, 1652049073940316358]),
        Fr::from_limbs([11188729390724270148, 3388886913788019228, 3054717087994817839, 357970756779629096]),
    ];
    let row1 = vec![
        Fr::from_limbs([17400673414771707652, 3104926776503384301, 15980831117993101054, 801893314423653211]),
        Fr::from_limbs([11713755956242070521, 5462133055650614072, 15055315447997206757, 2879364819745442611]),
        Fr::from_limbs([15325801756817477076, 1064819687373713841, 6087521326567692464, 548111226419012933]),
    ];
    let row2 = vec![
        Fr::from_limbs([11493882104559194266, 4683505080077007089, 10991072582079513379, 1936564787087720912]),
        Fr::from_limbs([17144742994624311224, 5887569051543145572, 18439128858195245538, 2830539425943835540]),
        Fr::from_limbs([13864770287449072244, 14531290039731109416, 5540642984070198842, 3475781703764096914]),
    ];
    let mds = vec![row0, row1, row2];
    proof {
        assert(field::values(row0@) =~= field_matrix()[0]);
        assert(field::values(row1@) =~= field_matrix()[1]);
        assert(field::values(row2@) =~= field_matrix()[2]);
        assert(permutation::row_values(mds@) =~= field_matrix());
    }
    PoseidonParams::derive(permutation::SEED.as_bytes(), TOTAL_ROUNDS, mds)
}

/// The sponge over any number of inputs.
pub fn sponge_n(inputs: &[Fr]) -> (r: Fr)
    ensures
        r@ == permutation::sponge(schedule(), field::values(inputs@)),
{
    get_params().sponge_hash(inputs)
}

/// The field element of a tag.
pub open spec fn tag_element(tag: Seq<char>) -> nat {
    hashing::tag_value(separator(), encode_utf8(tag))
}

/// The field element of a tag.
pub fn domain_fr(tag: &str) -> (r: Fr)
    ensures
        r@ == tag_element(tag@),
{
    hashing::tag_element(DOMAIN_SEP, tag.as_bytes())
}

/// The field element of an attribute's text.
pub open spec fn attribute_value(value: Seq<char>) -> nat {
    hashing::tagged_text_value(separator(), hashing::ATTRIBUTE_HASH_DOMAIN@, value)
}

/// Hashes the text of an attribute.
pub fn hash_attribute(v: &str) -> (r: Fr)
    ensures
        r@ == attribute_value(v@),
{
    hashing::tagged_text_element(DOMAIN_SEP, hashing::ATTRIBUTE_HASH_DOMAIN, v)
}

/// The domain element of commitments.
pub open spec fn commitment_domain() -> nat {
    tag_element(hashing::COMMITMENT_DOMAIN@)
}

/// The commitment to attributes under a blinding factor.
pub open spec fn commitment_value(attrs: Seq<nat>, blinding: nat) -> nat {
    permutation::sponge(
        schedule(),
        disclosure::opening(commitment_domain(), attrs, blinding),
    )
}

/// Commits to attributes.
pub fn commit(attrs: &[Fr; 16], blinding: &Fr) -> (r: Fr)
    ensures
        r@ == commitment_value(field::values(attrs@), blinding@),
{
    let values = hashing::with_blinding(attrs.as_slice(), blinding);
    let inputs = hashing::prepend(domain_fr(hashing::COMMITMENT_DOMAIN), values.as_slice());
    assert(field::values(inputs@) =~= disclosure::opening(
        commitment_domain(),
        field::values(attrs@),
        blinding@,
    ));
    sponge_n(inputs.as_slice())
}

/// Derives the blinding factor of a credential from a secret.
pub fn derive_blinding(secret: &[u8; 32], id: &str) -> (r: Fr)
    ensures
        r@ == hashing::blinding_value(separator(), secret@, encode_utf8(id@)),
{
    hashing::blinding_element(DOMAIN_SEP, secret, id.as_bytes())
}

/// The lowest 64 bits of a field element.
pub fn fr_to_u64(f: &Fr) -> (r: u64)
    ensures
        r == f@ % 0x1_0000_0000_0000_0000nat,
{
    f.low_u64()
}

/// A number as a field element.
pub fn u64_to_fr(n: u64) -> (r: Fr)
    ensures
        r@ == n,
{
    Fr::from_u64(n)
}

/// What the hashes of this suite are digests of: an attribute of its text behind
/// the suite's name and a tag, and a blinding factor of the secret and the
/// credential's name. A commitment is the sponge of the tag's element, the
/// attributes in their order and the blinding.
pub proof fn lemma_recipes(
    value: Seq<char>,
    secret: Seq<u8>,
    credential_id: Seq<char>,
    attrs: Seq<nat>,
    blinding: nat,
)
    ensures
        attribute_value(value) == field::be_value(
            digest::sha256(encode_utf8("poseidon-groth16-bn254-2026::v1.0::AttributeHash"@ + value)),
        ) % field::modulus(),
        hashing::blinding_value(separator(), secret, encode_utf8(credential_id)) == field::be_value(
            digest::sha256(
                encode_utf8("poseidon-groth16-bn254-2026::v1.0::BlindingDerivation"@) + secret
                    + encode_utf8(credential_id),
            ),
        ) % field::modulus(),
        commitment_value(attrs, blinding) == permutation::sponge(
            schedule(),
            seq![
                field::be_value(digest::sha256(encode_utf8("poseidon-groth16-bn254-2026::v1.0::Commitment"@)))
                    % field::modulus(),
            ] + attrs + seq![blinding],
        ),
        tag_element("MerkleTree"@) == field::be_value(
            digest::sha256(encode_utf8("poseidon-groth16-bn254-2026::v1.0::MerkleTree"@)),
        ) % field::modulus(),
{
    reveal_strlit("poseidon-groth16-bn254-2026::v1.0::");
    reveal_strlit("AttributeHash");
    reveal_strlit("BlindingDerivation");
    reveal_strlit("Commitment");
    reveal_strlit("poseidon-groth16-bn254-2026::v1.0::AttributeHash");
    reveal_strlit("poseidon-groth16-bn254-2026::v1.0::BlindingDerivation");
    reveal_strlit("poseidon-groth16-bn254-2026::v1.0::Commitment");
    let name = "poseidon-groth16-bn254-2026::v1.0::"@;
    let attribute = "AttributeHash"@;
    assert("poseidon-groth16-bn254-2026::v1.0::AttributeHash"@ =~= name + attribute);
    assert("poseidon-groth16-bn254-2026::v1.0::BlindingDerivation"@ =~= name + "BlindingDerivation"@);
    assert("poseidon-groth16-bn254-2026::v1.0::Commitment"@ =~= name + "Commitment"@);
    hashing::lemma_bytes_of_both(name, attribute);
    hashing::lemma_bytes_of_both(name + attribute, value);
    hashing::lemma_bytes_of_both(name, "BlindingDerivation"@);
    hashing::lemma_bytes_of_both(name, "Commitment"@);
    assert(disclosure::opening(commitment_domain(), attrs, blinding) =~= seq![commitment_domain()] + attrs
        + seq![blinding]);
    reveal_strlit("MerkleTree");
    reveal_strlit("poseidon-groth16-bn254-2026::v1.0::MerkleTree");
    assert("poseidon-groth16-bn254-2026::v1.0::MerkleTree"@ =~= name + "MerkleTree"@);
    hashing::lemma_bytes_of_both(name, "MerkleTree"@);
}

/// The hash of this suite has 65 rounds, whose constants come from the same seed as
/// those of the others.
pub proof fn lemma_schedule()
    ensures
        schedule().constants.len() == 65,
        schedule().constants == permutation::round_constants(
            encode_utf8("PoseidonBN254Constants"@),
            65,
        ),
        schedule().mds.len() == 3,
        forall|i: int| 0 <= i < 3 ==> (#[trigger] schedule().mds[i]).len() == 3,
{
}

} // verus!
