use std::collections::HashSet;
use std::time::Instant;
use zk_credentials::digest::digest_bytes;
use zk_credentials::field::Fr;
use zk_credentials::hashing::COMMITMENT_DOMAIN;
use zk_credentials::poseidon::{
    create_commitment, derive_blinding, full_hex_fr, full_round, full_round_traced, get_params,
    hash_attribute, hash_to_field, hex_fr, inverse_sbox, partial_round, partial_round_traced,
    poseidon_hash, poseidon_hash_traced, poseidon_permutation, poseidon_permutation_traced,
    poseidon_sponge_hash, poseidon_sponge_hash_traced, sbox, PoseidonExplainer, PoseidonParams,
    RoundTrace, RoundType, STATE_WIDTH, TOTAL_ROUNDS,
};
use zk_credentials::text::hex_text;
use zk_credentials::walkthrough::{print_operation_breakdown, print_round_trace};

fn number(n: u64) -> Fr {
    Fr::from_u64(n)
}

fn blank_trace() -> RoundTrace {
    let zero = [Fr::zero(), Fr::zero(), Fr::zero()];
    RoundTrace { initial_state: zero, rounds: Vec::new(), final_state: zero }
}

#[test]
fn test_basic_hash_properties() {
    let a = number(7);
    let hash1 = poseidon_hash(&[a], b"TestDomain");
    let hash2 = poseidon_hash(&[a], b"TestDomain");
    assert_eq!(hash1, hash2, "Determinism failed!");
    let hash3 = poseidon_hash(&[a], b"DifferentDomain");
    assert_ne!(hash1, hash3, "Domain separation failed!");
    let b = number(8);
    let hash4 = poseidon_hash(&[b], b"TestDomain");
    assert_ne!(hash1, hash4, "Collision resistance hint failed!");
    assert!(!hash1.is_zero(), "Hash is zero!");
}

#[test]
fn test_mds_matrix_properties() {
    let params = get_params();
    assert!(params.verify_mds_properties(), "MDS matrix is not invertible!");
    assert_eq!(params.mds_matrix[0][1], params.mds_matrix[1][0]);
    assert_eq!(params.mds_matrix[0][2], params.mds_matrix[2][0]);
    assert_eq!(params.mds_matrix[1][2], params.mds_matrix[2][1]);
    for i in 0..STATE_WIDTH {
        for j in 0..STATE_WIDTH {
            assert!(
                !params.mds_matrix[i][j].is_zero(),
                "MDS matrix has zero entry at [{},{}]",
                i,
                j
            );
        }
    }
    for i in 0..STATE_WIDTH {
        for j in 0..STATE_WIDTH {
            let entry = params.mds_matrix[i][j];
            assert!(
                entry == number(1) || entry == number(2) || entry == number(3),
                "MDS matrix has non-small entry"
            );
        }
    }
}

#[test]
fn test_sbox_properties() {
    let zero = Fr::zero();
    assert!(sbox(&zero).is_zero(), "S-box(0) is not 0");
    let one = number(1);
    assert_eq!(sbox(&one), one, "S-box(1) is not 1");
    let x = number(5);
    let y = number(7);
    let sum_sbox = sbox(&x.plus(y));
    let sbox_sum = sbox(&x).plus(sbox(&y));
    assert_ne!(sum_sbox, sbox_sum, "S-box is linear!");
    let x = number(42);
    let y = sbox(&x);
    let x_recovered = inverse_sbox(&y);
    assert_eq!(x, x_recovered, "S-box is not invertible!");
}

#[test]
fn test_round_constants() {
    let params = get_params();
    assert_eq!(params.round_constants.len(), TOTAL_ROUNDS, "Wrong number of round constants");
    assert!(params.verify_constants(), "Invalid round constants");
    let mut unique_rounds = HashSet::new();
    for round in &params.round_constants {
        let key = format!("{:?}", round);
        unique_rounds.insert(key);
    }
    assert_eq!(unique_rounds.len(), TOTAL_ROUNDS, "Some rounds have duplicate constants!");
}

#[test]
fn test_permutation_properties() {
    let mut state1 = [number(1), number(2), number(3)];
    let mut state2 = [number(1), number(2), number(3).plus(number(1))];
    poseidon_permutation(&mut state1);
    poseidon_permutation(&mut state2);
    for i in 0..STATE_WIDTH {
        assert_ne!(state1[i], state2[i], "Avalanche effect failed at position {}", i);
    }
    let mut state3 = [number(1), number(2), number(3)];
    poseidon_permutation(&mut state3);
    assert_eq!(state1, state3, "Permutation is not deterministic!");
}

#[test]
fn test_educational_walkthrough() {
    let attr = hash_attribute("Amir");
    println!("Attribute 'Amir' hashed to field: {}\n", hex_fr(&attr));
    let explainer = PoseidonExplainer::explain_hash(&[attr], COMMITMENT_DOMAIN.as_bytes());
    println!("{}", explainer.print_educational_walkthrough());
    assert!(explainer.statistics.total_rounds > 0, "Explainer should have rounds");
}

#[test]
fn test_commitment_scheme() {
    let mut attrs = Vec::new();
    for i in 0..16 {
        attrs.push(number(i as u64));
    }
    let blinding = number(999);
    let commitment = create_commitment(&attrs, &blinding);
    let commitment2 = create_commitment(&attrs, &blinding);
    assert_eq!(commitment, commitment2, "Commitment not deterministic!");
    let blinding2 = number(1000);
    let commitment3 = create_commitment(&attrs, &blinding2);
    assert_ne!(commitment, commitment3, "Different blinding should give different commitment");
    let mut attrs2 = attrs.clone();
    attrs2[0] = attrs2[0].plus(number(1));
    let commitment4 = create_commitment(&attrs2, &blinding);
    assert_ne!(commitment, commitment4, "Different attribute should give different commitment");
}

#[test]
fn test_blinding_derivation() {
    let master_secret = [42u8; 32];
    let credential_id = "test-credential-1";
    let b1 = derive_blinding(&master_secret, credential_id, 0);
    let b2 = derive_blinding(&master_secret, credential_id, 0);
    assert_eq!(b1, b2, "Blinding not deterministic!");
    let b3 = derive_blinding(&master_secret, credential_id, 1);
    assert_ne!(b1, b3, "Different index should give different blinding");
    let b4 = derive_blinding(&master_secret, "different-id", 0);
    assert_ne!(b1, b4, "Different ID should give different blinding");
}

#[test]
fn test_performance() {
    let x = number(12345);
    let start = Instant::now();
    for _ in 0..1000 {
        let _ = sbox(&x);
    }
    println!("S-Box:            {:?} per 1000 ops", start.elapsed());

    let mut state = [number(1), number(2), number(3)];
    let params = get_params();
    let start = Instant::now();
    for _ in 0..1000 {
        full_round(&mut state, 0, &params);
    }
    println!("Full round:       {:?} per 1000 ops", start.elapsed());

    let start = Instant::now();
    for _ in 0..1000 {
        partial_round(&mut state, 4, &params);
    }
    println!("Partial round:    {:?} per 1000 ops", start.elapsed());

    let start = Instant::now();
    for _ in 0..100 {
        poseidon_permutation(&mut state);
    }
    println!("Full permutation: {:?} per 100 ops", start.elapsed());

    let inputs = vec![number(1), number(2)];
    let start = Instant::now();
    for _ in 0..100 {
        let _ = poseidon_hash(&inputs, COMMITMENT_DOMAIN.as_bytes());
    }
    println!("Full hash:        {:?} per 100 ops", start.elapsed());
}

#[test]
fn test_comprehensive_verification() {
    let params = get_params();
    assert!(params.verify_mds_properties(), "MDS properties failed");
    assert!(params.verify_constants(), "Constant properties failed");
    for size in 0..10 {
        let inputs: Vec<Fr> = (0..size).map(|i| number(i as u64)).collect();
        let h1 = poseidon_hash(&inputs, b"Test");
        let h2 = poseidon_hash(&inputs, b"Test");
        assert_eq!(h1, h2, "Consistency failed for size {}", size);
    }
    let input = vec![number(42)];
    let h1 = poseidon_hash(&input, b"Domain1");
    let h2 = poseidon_hash(&input, b"Domain2");
    assert_ne!(h1, h2, "Domain separation failed");
    let mut hashes = HashSet::new();
    for i in 0..1000 {
        let inputs = vec![number(i as u64), number((i + 1) as u64)];
        let hash = poseidon_hash(&inputs, b"Test");
        assert!(hashes.insert(hash.to_bytes_be()), "Collision found at i={}", i);
    }
    let attr = hash_attribute("TestAttribute");
    let hash1 = poseidon_hash(&[attr], COMMITMENT_DOMAIN.as_bytes());
    let explainer = PoseidonExplainer::explain_hash(&[attr], COMMITMENT_DOMAIN.as_bytes());
    assert_eq!(
        hash1, explainer.rounds.final_state[0],
        "Explainer produces different hash!"
    );
}

#[test]
fn sha256_gives_the_known_digest() {
    assert_eq!(
        hex_text(&digest_bytes(b"abc")),
        "ba7816bf8f01cfea414140de5dae2223b00361a396177a9cb410ff61f20015ad"
    );
}

#[test]
fn fifth_power_of_two_is_thirty_two() {
    assert_eq!(sbox(&number(2)), number(32));
    assert_eq!(inverse_sbox(&number(32)), number(2));
    assert_eq!(inverse_sbox(&Fr::zero()), Fr::zero());
}

#[test]
fn every_traced_variant_gives_the_plain_result() {
    let params = get_params();
    let start = [number(5), number(6), number(7)];

    let (mut plain, mut traced, mut trace) = (start, start, blank_trace());
    full_round(&mut plain, 3, &params);
    full_round_traced(&mut traced, 3, &params, &mut trace);
    assert_eq!(plain, traced);
    assert_eq!(trace.rounds.len(), 1);
    assert_eq!(trace.rounds[0].round_number, 3);
    assert!(trace.rounds[0].round_type == RoundType::Full);
    assert_eq!(trace.rounds[0].before_constants, start);
    assert_eq!(trace.rounds[0].after_matrix, plain);

    let (mut plain, mut traced, mut trace) = (start, start, blank_trace());
    partial_round(&mut plain, 10, &params);
    partial_round_traced(&mut traced, 10, &params, &mut trace);
    assert_eq!(plain, traced);
    assert!(trace.rounds[0].round_type == RoundType::Partial);
    assert_eq!(trace.rounds[0].after_sbox[1], trace.rounds[0].after_constants[1]);

    let (mut plain, mut traced, mut trace) = (start, start, blank_trace());
    poseidon_permutation(&mut plain);
    poseidon_permutation_traced(&mut traced, &mut trace);
    assert_eq!(plain, traced);
    assert_eq!(trace.rounds.len(), 64);
    assert_eq!(trace.initial_state, start);
    assert_eq!(trace.final_state, plain);

    let inputs = [number(1), number(2), number(3)];
    let mut trace = blank_trace();
    assert_eq!(poseidon_sponge_hash(&inputs), poseidon_sponge_hash_traced(&inputs, &mut trace));
    assert_eq!(trace.rounds.len(), 128);
    let mut trace = blank_trace();
    assert_eq!(poseidon_hash(&inputs, b"tag"), poseidon_hash_traced(&inputs, b"tag", &mut trace));
    assert_eq!(trace.rounds.len(), 128);
}

#[test]
fn a_hash_is_the_sponge_of_its_tag_and_inputs() {
    let inputs = [number(1), number(2)];
    let all = [hash_to_field(b"tag"), number(1), number(2)];
    assert_eq!(poseidon_hash(&inputs, b"tag"), poseidon_sponge_hash(&all));
    assert_eq!(poseidon_sponge_hash(&[]), Fr::zero());
}

#[test]
fn an_explained_hash_counts_its_operations() {
    let inputs = [number(1), number(2), number(3), number(4)];
    let explainer = PoseidonExplainer::explain_hash(&inputs, COMMITMENT_DOMAIN.as_bytes());
    assert_eq!(explainer.statistics.total_rounds, 192);
    assert_eq!(explainer.statistics.full_rounds, 24);
    assert_eq!(explainer.statistics.partial_rounds, 168);
    assert_eq!(explainer.statistics.sbox_operations, 240);
    assert_eq!(explainer.statistics.multiplications, 1728);
    assert_eq!(explainer.statistics.additions, 1728);
}

#[test]
fn hexadecimal_forms() {
    assert_eq!(hex_fr(&number(0x1234)), "0x3412...");
    assert_eq!(
        full_hex_fr(&number(0x1234)),
        "0000000000000000000000000000000000000000000000000000000000001234"
    );
}

#[test]
fn other_seeds_give_other_constants() {
    let params = PoseidonParams::new(b"another seed");
    assert!(params.verify_mds_properties());
    assert!(params.verify_constants());
    assert_ne!(params.round_constants[0], get_params().round_constants[0]);
}

#[test]
fn bad_parameters_are_recognised() {
    let mut params = get_params();
    params.mds_matrix[1] = params.mds_matrix[0];
    assert!(!params.verify_mds_properties());
    let mut params = get_params();
    params.round_constants[5] = [Fr::zero(), Fr::zero(), Fr::zero()];
    assert!(!params.verify_constants());
}

#[test]
fn the_walkthrough_shows_three_rounds_and_the_hash() {
    let explainer = PoseidonExplainer::explain_hash(&[number(1)], b"tag");
    let text = explainer.print_educational_walkthrough();
    assert!(text.contains("  S-Box operations:    80\n  Matrix mults:        576\n"));
    assert!(text.contains("  Additions:           576\n  Total field ops:     1232\n"));
    assert!(text.contains("\n  Round 0 (Full):\n"));
    assert!(text.contains("\n  Round 2 (Full):\n"));
    assert!(!text.contains("\n  Round 3 (Full):\n"));
    assert!(text.contains("\n  ... (61 more rounds) ...\n"));
    let hash = hex_fr(&poseidon_hash(&[number(1)], b"tag"));
    assert!(text.contains(&format!("\nFINAL HASH: {}\n", hash)));

    let mut short = explainer.clone();
    short.rounds.rounds.truncate(2);
    let text = short.print_educational_walkthrough();
    assert!(text.contains("\n  Round 1 (Full):\n"));
    assert!(!text.contains("more rounds"));
}

#[test]
fn the_trace_shows_every_round() {
    let explainer = PoseidonExplainer::explain_hash(&[number(1)], b"tag");
    let text = print_round_trace(&explainer.rounds);
    assert!(text.contains("ROUND 3 - Full\n"));
    assert!(text.contains("ROUND 4 - Partial\n"));
    assert!(text.contains("ROUND 63 - Full\n"));
    assert_eq!(text.matches("Applied to: ALL 3 state elements").count(), 8);
    assert_eq!(text.matches("Applied to: ONLY State[0]").count(), 56);
    let hash = full_hex_fr(&poseidon_hash(&[number(1)], b"tag"));
    assert!(text.ends_with(&format!("FINAL HASH OUTPUT:\n  Hash = {}\n\n", hash)));
}

#[test]
fn the_breakdown_counts_permutations() {
    let explainer = PoseidonExplainer::explain_hash(&[number(1), number(2)], b"tag");
    let text = print_operation_breakdown(&explainer.statistics, &explainer.rounds);
    assert!(text.contains("  Full permutations:     2\n  Total rounds traced:   128\n"));
    assert!(text.ends_with("  Grand total:           2464\n\n"));
}

#[test]
fn known_hash_values() {
    let constant = get_params().round_constants[0][0];
    assert_eq!(
        constant.to_text(),
        "5933019112217201907674015470368651966928416526154579080115333049160070331533"
    );
    let mut state = [number(1), number(2), number(3)];
    poseidon_permutation(&mut state);
    assert_eq!(
        [state[0].to_text(), state[1].to_text(), state[2].to_text()],
        [
            "9743338660404426793077657655994270311977481054815678971252555811314449094571",
            "18654942370343577401537875141188987465667145744934410023891807123555876381425",
            "14676932334931017771167724476392726442413431552738047765478345884024659212421",
        ]
    );
    assert_eq!(
        poseidon_hash(&[number(7)], b"TestDomain").to_text(),
        "14730949892357397158934509578395279672524788850522196637570732340992253117079"
    );
    assert_eq!(
        hash_attribute("Amir").to_text(),
        "13799549937030888898077742404553969859526670936440140205414787390419737270710"
    );
    let attrs: Vec<Fr> = (0..16).map(number).collect();
    assert_eq!(
        create_commitment(&attrs, &number(999)).to_text(),
        "8976462296531751020106031947088334975311326960499661501986663122456007896215"
    );
    assert_eq!(
        derive_blinding(&[42; 32], "test-credential-1", 0).to_text(),
        "4041165382617337840471076259586255661905255124533634181841403374050401102580"
    );
}
