//! The account of a hash, in words.
use crate::field;
use crate::field::Fr;
use crate::poseidon;
use crate::poseidon::{HashStatistics, PoseidonExplainer, RoundSnapshot, RoundTrace, RoundType};
use crate::text;
use vstd::prelude::*;

verus! {

// The walkthrough.

pub const INTRO: &'static str = "╔══════════════════════════════════════════════════════════════════╗\n║                        POSEIDON HASH                             ║\n╚══════════════════════════════════════════════════════════════════╝\n\nMATHEMATICAL FOUNDATION\n━━━━━━━━━━━━━━━━━━━━━━━━━━━━━━━━━━━━━━━━━━━━━━━━━━━━━━━━━━━━━━\n  Field:        BLS12-381 scalar field (Fr)\n  Field size:   ≈ 2^255\n  S-Box:        f(x) = x^5\n  State width:  t = 3 (three field elements)\n  Rate:         r = 2 (two inputs per permutation)\n  Capacity:     c = 1 (security margin)\n\nROUND STRUCTURE\n━━━━━━━━━━━━━━━━━━━━━━━━━━━━━━━━━━━━━━━━━━━━━━━━━━━━━━━━━━━━━━\n  First half full rounds:  4 rounds (all elements x⁵)\n  Partial rounds:          56 rounds (only element 0 x⁵)\n  Second half full rounds: 4 rounds (all elements x⁵)\n  Total:                   64 rounds\n\nOPERATIONS BREAKDOWN\n━━━━━━━━━━━━━━━━━━━━━━━━━━━━━━━━━━━━━━━━━━━━━━━━━━━━━━━━━━━━━━\n  S-Box operations:    ";

pub const FIRST_ROUNDS: &'static str = "\n\nROUND-BY-ROUND TRACE (showing first few)\n━━━━━━━━━━━━━━━━━━━━━━━━━━━━━━━━━━━━━━━━━━━━━━━━━━━━━━━━━━━━━━\n";

pub const OUTRO: &'static str = "\n\nSECURITY PROPERTIES\n━━━━━━━━━━━━━━━━━━━━━━━━━━━━━━━━━━━━━━━━━━━━━━━━━━━━━━━━━━━━━━\n  Collision resistance:  2^128 operations\n  Preimage resistance:   2^128 operations\n  Differential security: 2^-128 probability\n  Algebraic degree:      High (due to 64 rounds)\n\n";

/// The name of a kind of round.
pub open spec fn round_name(full: bool) -> Seq<char> {
    if full {
        "Full"@
    } else {
        "Partial"@
    }
}

fn round_type_name(t: &RoundType) -> (r: String)
    ensures
        r@ == round_name(*t is Full),
{
    match t {
        RoundType::Full => "Full".to_string(),
        RoundType::Partial => "Partial".to_string(),
    }
}

/// Three elements in short, in brackets.
pub open spec fn short_state(s: Seq<nat>) -> Seq<char> {
    "["@ + poseidon::short_hex(s[0]) + ", "@ + poseidon::short_hex(s[1]) + ", "@
        + poseidon::short_hex(s[2]) + "]\n"@
}

fn push_short_state(out: &mut String, s: &[Fr; 3])
    ensures
        final(out)@ == old(out)@ + short_state(field::values(s@)),
{
    let ghost before = out@;
    let ghost v = field::values(s@);
    out.push_str("[");
    out.push_str(poseidon::hex_fr(&s[0]).as_str());
    out.push_str(", ");
    out.push_str(poseidon::hex_fr(&s[1]).as_str());
    out.push_str(", ");
    out.push_str(poseidon::hex_fr(&s[2]).as_str());
    out.push_str("]\n");
    proof {
        assert(v[0] == s@[0]@ && v[1] == s@[1]@ && v[2] == s@[2]@);
        assert(out@ =~= before + short_state(v));
    }
}

/// A round in short.
pub open spec fn short_round(s: poseidon::Snapshot) -> Seq<char> {
    "\n  Round "@ + text::decimal(s.number) + " ("@ + round_name(s.full)
        + "):\n    Before constants:  "@ + short_state(s.before) + "    After constants:   "@
        + short_state(s.shifted) + (if s.full {
        "    S-Box applied to:  ALL 3 elements\n"@
    } else {
        "    S-Box applied to:  ONLY element 0\n"@
    }) + "    After MDS matrix:  "@ + short_state(s.mixed)
}

fn push_short_round(out: &mut String, round: &RoundSnapshot)
    ensures
        final(out)@ == old(out)@ + short_round(round@),
{
    let ghost before = out@;
    out.push_str("\n  Round ");
    out.push_str(text::decimal_text(round.round_number as u64).as_str());
    out.push_str(" (");
    out.push_str(round_type_name(&round.round_type).as_str());
    out.push_str("):\n    Before constants:  ");
    push_short_state(out, &round.before_constants);
    out.push_str("    After constants:   ");
    push_short_state(out, &round.after_constants);
    match round.round_type {
        RoundType::Full => out.push_str("    S-Box applied to:  ALL 3 elements\n"),
        RoundType::Partial => out.push_str("    S-Box applied to:  ONLY element 0\n"),
    }
    out.push_str("    After MDS matrix:  ");
    push_short_state(out, &round.after_matrix);
    assert(out@ =~= before + short_round(round@));
}

/// The first rounds in short.
pub open spec fn short_rounds(s: Seq<poseidon::Snapshot>, count: nat) -> Seq<char>
    decreases count,
{
    if count == 0 {
        Seq::empty()
    } else {
        short_rounds(s, (count - 1) as nat) + short_round(s[count - 1])
    }
}

/// The counts of operations, with their sum.
pub open spec fn counts(
    sbox: nat,
    multiplications: nat,
    additions: nat,
    labels: (Seq<char>, Seq<char>, Seq<char>),
) -> Seq<char> {
    text::decimal(sbox) + labels.0 + text::decimal(multiplications) + labels.1 + text::decimal(
        additions,
    ) + labels.2 + text::decimal(sbox + multiplications + additions)
}

fn push_counts(out: &mut String, stats: &HashStatistics, first: &str, second: &str, third: &str)
    requires
        stats.sbox_operations + stats.multiplications + stats.additions <= usize::MAX,
    ensures
        final(out)@ == old(out)@ + counts(
            stats.sbox_operations as nat,
            stats.multiplications as nat,
            stats.additions as nat,
            (first@, second@, third@),
        ),
{
    let ghost before = out@;
    let total = stats.sbox_operations + stats.multiplications + stats.additions;
    out.push_str(text::decimal_text(stats.sbox_operations as u64).as_str());
    out.push_str(first);
    out.push_str(text::decimal_text(stats.multiplications as u64).as_str());
    out.push_str(second);
    out.push_str(text::decimal_text(stats.additions as u64).as_str());
    out.push_str(third);
    out.push_str(text::decimal_text(total as u64).as_str());
    assert(out@ =~= before + counts(
        stats.sbox_operations as nat,
        stats.multiplications as nat,
        stats.additions as nat,
        (first@, second@, third@),
    ));
}

/// How many of the rounds the walkthrough shows.
pub open spec fn shown_rounds(count: nat) -> nat {
    if count < 3 {
        count
    } else {
        3
    }
}

/// The rounds that the walkthrough leaves out.
pub open spec fn omitted(count: nat) -> Seq<char> {
    if count > 3 {
        "\n  ... ("@ + text::decimal((count - 3) as nat) + " more rounds) ...\n"@
    } else {
        Seq::empty()
    }
}

/// The walkthrough of a hash: the counts of its operations, its first three
/// rounds and the hash.
pub open spec fn walkthrough(
    rounds: Seq<poseidon::Snapshot>,
    hash: nat,
    stats: HashStatistics,
) -> Seq<char> {
    INTRO@ + counts(
        stats.sbox_operations as nat,
        stats.multiplications as nat,
        stats.additions as nat,
        (
            "\n  Matrix mults:        "@,
            "\n  Additions:           "@,
            "\n  Total field ops:     "@,
        ),
    ) + FIRST_ROUNDS@ + short_rounds(rounds, shown_rounds(rounds.len())) + omitted(rounds.len())
        + "\nFINAL HASH: "@ + poseidon::short_hex(hash) + OUTRO@
}

impl PoseidonExplainer {
    /// The walkthrough of the hash, for printing.
    pub fn print_educational_walkthrough(&self) -> (r: String)
        requires
            self.statistics.sbox_operations + self.statistics.multiplications
                + self.statistics.additions <= usize::MAX,
        ensures
            r@ == walkthrough(
                poseidon::snapshots(self.rounds.rounds@),
                self.rounds.final_state@[0]@,
                self.statistics,
            ),
    {
        let ghost all = poseidon::snapshots(self.rounds.rounds@);
        let mut out = INTRO.to_string();
        push_counts(
            &mut out,
            &self.statistics,
            "\n  Matrix mults:        ",
            "\n  Additions:           ",
            "\n  Total field ops:     ",
        );
        out.push_str(FIRST_ROUNDS);
        let ghost head = out@;
        let count = self.rounds.rounds.len();
        let shown = if count < 3 {
            count
        } else {
            3
        };
        assert(head + short_rounds(all, 0) =~= head);
        for i in 0..shown
            invariant
                all == poseidon::snapshots(self.rounds.rounds@),
                shown <= self.rounds.rounds@.len(),
                out@ == head + short_rounds(all, i as nat),
        {
            push_short_round(&mut out, &self.rounds.rounds[i]);
            assert(out@ =~= head + short_rounds(all, (i + 1) as nat));
        }
        let ghost middle = out@;
        if count > 3 {
            out.push_str("\n  ... (");
            out.push_str(text::decimal_text((count - 3) as u64).as_str());
            out.push_str(" more rounds) ...\n");
        }
        assert(out@ =~= middle + omitted(count as nat));
        out.push_str("\nFINAL HASH: ");
        out.push_str(poseidon::hex_fr(&self.rounds.final_state[0]).as_str());
        out.push_str(OUTRO);
        assert(out@ =~= walkthrough(all, self.rounds.final_state@[0]@, self.statistics));
        out
    }
}

// The full trace.

pub const TRACE_HEAD: &'static str = "COMPLETE ROUND-BY-ROUND STATE TRACE\n================================================================\n\nINITIAL STATE:\n";

pub const RULE: &'static str = "────────────────────────────────────────────────────────────────\n";

pub const FULL_SBOX: &'static str = "  S-BOX OPERATION:\n    Applied to: ALL 3 state elements (x^5)\n    State[0] = State[0]^5\n    State[1] = State[1]^5\n    State[2] = State[2]^5\n";

pub const PARTIAL_SBOX: &'static str = "  S-BOX OPERATION:\n    Applied to: ONLY State[0] (x^5)\n    State[0] = State[0]^5\n    State[1] = unchanged\n    State[2] = unchanged\n";

pub const MIXING: &'static str = "  MDS MATRIX MULTIPLICATION:\n    Matrix = [[2,3,1], [3,1,2], [1,2,3]]\n    New[0] = 2*State[0] + 3*State[1] + 1*State[2]\n    New[1] = 3*State[0] + 1*State[1] + 2*State[2]\n    New[2] = 1*State[0] + 2*State[1] + 3*State[2]\n  AFTER MDS MATRIX:\n";

pub const TRACE_TAIL: &'static str = "================================================================\n\nFINAL HASH OUTPUT:\n  Hash = ";

/// Three elements in full, on a line each, with an empty line behind them.
pub open spec fn full_state(indent: Seq<char>, s: Seq<nat>) -> Seq<char> {
    indent + "State[0]: "@ + poseidon::full_hex(s[0]) + "\n"@ + indent + "State[1]: "@
        + poseidon::full_hex(s[1]) + "\n"@ + indent + "State[2]: "@ + poseidon::full_hex(s[2])
        + "\n\n"@
}

fn push_full_state(out: &mut String, indent: &str, s: &[Fr; 3])
    ensures
        final(out)@ == old(out)@ + full_state(indent@, field::values(s@)),
{
    let ghost before = out@;
    let ghost v = field::values(s@);
    out.push_str(indent);
    out.push_str("State[0]: ");
    out.push_str(poseidon::full_hex_fr(&s[0]).as_str());
    out.push_str("\n");
    out.push_str(indent);
    out.push_str("State[1]: ");
    out.push_str(poseidon::full_hex_fr(&s[1]).as_str());
    out.push_str("\n");
    out.push_str(indent);
    out.push_str("State[2]: ");
    out.push_str(poseidon::full_hex_fr(&s[2]).as_str());
    out.push_str("\n\n");
    proof {
        assert(v[0] == s@[0]@ && v[1] == s@[1]@ && v[2] == s@[2]@);
        assert(out@ =~= before + full_state(indent@, v));
    }
}

/// The number and the kind of a round.
pub open spec fn round_title(s: poseidon::Snapshot) -> Seq<char> {
    RULE@ + "ROUND "@ + text::decimal(s.number) + " - "@ + round_name(s.full) + "\n"@ + RULE@
}

/// The states of a round up to the S-box.
pub open spec fn upper_states(s: poseidon::Snapshot) -> Seq<char> {
    "  BEFORE ADDING CONSTANTS:\n"@ + full_state("    "@, s.before)
        + "  AFTER ADDING CONSTANTS:\n"@ + full_state("    "@, s.shifted)
}

/// The states of a round from the S-box on.
pub open spec fn lower_states(s: poseidon::Snapshot) -> Seq<char> {
    (if s.full {
        FULL_SBOX@
    } else {
        PARTIAL_SBOX@
    }) + "  AFTER S-BOX:\n"@ + full_state("    "@, s.boxed) + MIXING@ + full_state(
        "    "@,
        s.mixed,
    )
}

/// A round in full.
pub open spec fn full_round(s: poseidon::Snapshot) -> Seq<char> {
    round_title(s) + upper_states(s) + lower_states(s)
}

fn push_round_title(out: &mut String, round: &RoundSnapshot)
    ensures
        final(out)@ == old(out)@ + round_title(round@),
{
    let ghost before = out@;
    out.push_str(RULE);
    out.push_str("ROUND ");
    out.push_str(text::decimal_text(round.round_number as u64).as_str());
    out.push_str(" - ");
    out.push_str(round_type_name(&round.round_type).as_str());
    out.push_str("\n");
    out.push_str(RULE);
    assert(out@ =~= before + round_title(round@));
}

fn push_upper_states(out: &mut String, round: &RoundSnapshot)
    ensures
        final(out)@ == old(out)@ + upper_states(round@),
{
    let ghost before = out@;
    out.push_str("  BEFORE ADDING CONSTANTS:\n");
    push_full_state(out, "    ", &round.before_constants);
    out.push_str("  AFTER ADDING CONSTANTS:\n");
    push_full_state(out, "    ", &round.after_constants);
    assert(out@ =~= before + upper_states(round@));
}

fn push_lower_states(out: &mut String, round: &RoundSnapshot)
    ensures
        final(out)@ == old(out)@ + lower_states(round@),
{
    let ghost before = out@;
    match round.round_type {
        RoundType::Full => out.push_str(FULL_SBOX),
        RoundType::Partial => out.push_str(PARTIAL_SBOX),
    }
    out.push_str("  AFTER S-BOX:\n");
    push_full_state(out, "    ", &round.after_sbox);
    out.push_str(MIXING);
    push_full_state(out, "    ", &round.after_matrix);
    assert(out@ =~= before + lower_states(round@));
}

fn push_full_round(out: &mut String, round: &RoundSnapshot)
    ensures
        final(out)@ == old(out)@ + full_round(round@),
{
    let ghost before = out@;
    push_round_title(out, round);
    push_upper_states(out, round);
    push_lower_states(out, round);
    assert(out@ =~= before + full_round(round@));
}

/// The first rounds in full.
pub open spec fn full_rounds(s: Seq<poseidon::Snapshot>, count: nat) -> Seq<char>
    decreases count,
{
    if count == 0 {
        Seq::empty()
    } else {
        full_rounds(s, (count - 1) as nat) + full_round(s[count - 1])
    }
}

/// The trace of a hash: the state before the last permutation, every round, and
/// the hash.
pub open spec fn trace_text(trace: RoundTrace) -> Seq<char> {
    let rounds = poseidon::snapshots(trace.rounds@);
    TRACE_HEAD@ + full_state("  "@, field::values(trace.initial_state@)) + full_rounds(
        rounds,
        rounds.len(),
    ) + TRACE_TAIL@ + poseidon::full_hex(trace.final_state@[0]@) + "\n\n"@
}

/// The trace of a hash, for printing.
pub fn print_round_trace(trace: &RoundTrace) -> (r: String)
    ensures
        r@ == trace_text(*trace),
{
    let ghost all = poseidon::snapshots(trace.rounds@);
    let mut out = TRACE_HEAD.to_string();
    push_full_state(&mut out, "  ", &trace.initial_state);
    let ghost head = out@;
    assert(head + full_rounds(all, 0) =~= head);
    for i in 0..trace.rounds.len()
        invariant
            all == poseidon::snapshots(trace.rounds@),
            out@ == head + full_rounds(all, i as nat),
    {
        push_full_round(&mut out, &trace.rounds[i]);
        assert(out@ =~= head + full_rounds(all, (i + 1) as nat));
    }
    out.push_str(TRACE_TAIL);
    out.push_str(poseidon::full_hex_fr(&trace.final_state[0]).as_str());
    out.push_str("\n\n");
    assert(out@ =~= trace_text(*trace));
    out
}

// The breakdown of the operations.

pub const BREAKDOWN_HEAD: &'static str = "DETAILED OPERATION BREAKDOWN\n================================================================\n\nROUND COMPOSITION:\n  First full rounds:     4\n  Partial rounds:        56\n  Final full rounds:     4\n  Total rounds:          64\n\nPERMUTATION COUNT:\n  Full permutations:     ";

pub const BREAKDOWN_COUNTS: &'static str = "\n\nOPERATION COUNTS (per permutation):\n  S-Box operations:\n    Full rounds:         4 * 3 = 12\n    Partial rounds:      56 * 1 = 56\n    Final full rounds:   4 * 3 = 12\n    Total per perm:      80\n\n  Matrix multiplications:\n    Each round:          3x3 matrix * vec = 9 multiplications\n    Total per perm:      64 * 9 = 576\n\n  Field additions:\n    Constants per round: 3\n    Matrix per round:    6\n    Total per perm:      64 * 9 = 576\n\nTOTAL FOR THIS HASH:\n  S-Box operations:      ";

/// The breakdown of the operations of a hash. A permutation has 64 rounds.
pub open spec fn breakdown(stats: HashStatistics, rounds: nat) -> Seq<char> {
    BREAKDOWN_HEAD@ + text::decimal(rounds / 64) + "\n  Total rounds traced:   "@ + text::decimal(
        rounds,
    ) + BREAKDOWN_COUNTS@ + counts(
        stats.sbox_operations as nat,
        stats.multiplications as nat,
        stats.additions as nat,
        (
            "\n  Multiplications:       "@,
            "\n  Additions:             "@,
            "\n  Grand total:           "@,
        ),
    ) + "\n\n"@
}

/// The breakdown of the operations of a hash, for printing.
pub fn print_operation_breakdown(stats: &HashStatistics, trace: &RoundTrace) -> (r: String)
    requires
        stats.sbox_operations + stats.multiplications + stats.additions <= usize::MAX,
    ensures
        r@ == breakdown(*stats, trace.rounds@.len()),
{
    let rounds = trace.rounds.len();
    let permutations = rounds / 64;
    let mut out = BREAKDOWN_HEAD.to_string();
    out.push_str(text::decimal_text(permutations as u64).as_str());
    out.push_str("\n  Total rounds traced:   ");
    out.push_str(text::decimal_text(rounds as u64).as_str());
    out.push_str(BREAKDOWN_COUNTS);
    push_counts(
        &mut out,
        stats,
        "\n  Multiplications:       ",
        "\n  Additions:             ",
        "\n  Grand total:           ",
    );
    out.push_str("\n\n");
    assert(out@ =~= breakdown(*stats, rounds as nat));
    out
}

} // verus!
