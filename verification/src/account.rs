//! What the account of a hash says.
use crate::field;
use crate::poseidon;
use crate::poseidon::{HashStatistics, RoundTrace};
use crate::text;
use crate::walkthrough;
use vstd::prelude::*;

verus! {

proof fn lemma_extended(s: Seq<char>, t: Seq<char>, part: Seq<char>)
    requires
        text::holds(s, part),
    ensures
        text::holds(s + t, part),
{
    let none = Seq::<char>::empty();
    text::lemma_holds(s + t, none, s, t);
    text::lemma_holds_within(s + t, s, part);
}

/// What stands behind a piece that ends in a label is in the text under the label.
proof fn lemma_labelled(
    before: Seq<char>,
    piece: Seq<char>,
    start: Seq<char>,
    label: Seq<char>,
    x: Seq<char>,
)
    requires
        piece == start + label,
    ensures
        text::holds(before + piece + x, label + x),
{
    text::lemma_holds(before + piece + x, before + start, label + x, Seq::empty());
}

/// The same with the beginning of what comes behind it.
proof fn lemma_labelled_line(
    before: Seq<char>,
    piece: Seq<char>,
    start: Seq<char>,
    label: Seq<char>,
    x: Seq<char>,
    next: Seq<char>,
    end: Seq<char>,
    rest: Seq<char>,
)
    requires
        piece == start + label,
        next == end + rest,
    ensures
        text::holds(before + piece + x + next, label + x + end),
{
    text::lemma_holds(before + piece + x + next, before + start, label + x + end, rest);
}

proof fn lemma_short_rounds_hold(s: Seq<poseidon::Snapshot>, count: nat, i: int)
    requires
        0 <= i < count,
    ensures
        text::holds(walkthrough::short_rounds(s, count), walkthrough::short_round(s[i])),
    decreases count,
{
    let none = Seq::<char>::empty();
    let before = walkthrough::short_rounds(s, (count - 1) as nat);
    let all = walkthrough::short_rounds(s, count);
    if i == count - 1 {
        text::lemma_holds(all, before, walkthrough::short_round(s[i]), none);
    } else {
        lemma_short_rounds_hold(s, (count - 1) as nat, i);
        text::lemma_holds(all, none, before, walkthrough::short_round(s[count - 1]));
        text::lemma_holds_within(all, before, walkthrough::short_round(s[i]));
    }
}

proof fn lemma_full_rounds_hold(s: Seq<poseidon::Snapshot>, count: nat, i: int)
    requires
        0 <= i < count,
    ensures
        text::holds(walkthrough::full_rounds(s, count), walkthrough::full_round(s[i])),
    decreases count,
{
    let none = Seq::<char>::empty();
    let before = walkthrough::full_rounds(s, (count - 1) as nat);
    let all = walkthrough::full_rounds(s, count);
    if i == count - 1 {
        text::lemma_holds(all, before, walkthrough::full_round(s[i]), none);
    } else {
        lemma_full_rounds_hold(s, (count - 1) as nat, i);
        text::lemma_holds(all, none, before, walkthrough::full_round(s[count - 1]));
        text::lemma_holds_within(all, before, walkthrough::full_round(s[i]));
    }
}

/// The walkthrough shows each of the first three rounds with its number, its kind and
/// the states that it went through, says how many rounds it leaves out, and gives the
/// hash.
pub proof fn lemma_walkthrough_says(
    rounds: Seq<poseidon::Snapshot>,
    hash: nat,
    stats: HashStatistics,
    i: int,
)
    ensures
        ({
            let w = walkthrough::walkthrough(rounds, hash, stats);
            let one = rounds[i];
            let shown = 0 <= i < 3 && i < rounds.len();
            &&& shown && one.full ==> text::holds(
                w,
                "Round "@ + text::decimal(one.number) + " (Full)"@,
            )
            &&& shown && !one.full ==> text::holds(
                w,
                "Round "@ + text::decimal(one.number) + " (Partial)"@,
            )
            &&& shown ==> text::holds(w, "Before constants:  "@ + walkthrough::short_state(one.before))
            &&& shown ==> text::holds(w, "After constants:   "@ + walkthrough::short_state(one.shifted))
            &&& shown ==> text::holds(w, "After MDS matrix:  "@ + walkthrough::short_state(one.mixed))
            &&& rounds.len() > 3 ==> text::holds(
                w,
                "("@ + text::decimal((rounds.len() - 3) as nat) + " more rounds)"@,
            )
            &&& text::holds(w, "FINAL HASH: "@ + poseidon::short_hex(hash))
            &&& text::holds(
                w,
                "Matrix mults:        "@ + text::decimal(stats.multiplications as nat) + "\n"@,
            )
            &&& text::holds(
                w,
                "Additions:           "@ + text::decimal(stats.additions as nat) + "\n"@,
            )
            &&& text::holds(
                w,
                "Total field ops:     "@ + text::decimal(
                    (stats.sbox_operations + stats.multiplications + stats.additions) as nat,
                ) + "\n"@,
            )
        }),
{
    let tally = walkthrough::counts(
        stats.sbox_operations as nat,
        stats.multiplications as nat,
        stats.additions as nat,
        (
            "\n  Matrix mults:        "@,
            "\n  Additions:           "@,
            "\n  Total field ops:     "@,
        ),
    );
    let listed = walkthrough::short_rounds(rounds, walkthrough::shown_rounds(rounds.len()));
    let left = walkthrough::omitted(rounds.len());
    let hex = poseidon::short_hex(hash);
    let p1 = walkthrough::INTRO@ + tally + walkthrough::FIRST_ROUNDS@;
    let p2 = p1 + listed;
    let p3 = p2 + left;
    let p5 = p3 + "\nFINAL HASH: "@ + hex;
    assert forall|part: Seq<char>| #[trigger] text::holds(p3, part) implies text::holds(
        walkthrough::walkthrough(rounds, hash, stats),
        part,
    ) by {
        lemma_extended(p3, "\nFINAL HASH: "@, part);
        lemma_extended(p3 + "\nFINAL HASH: "@, hex, part);
        lemma_extended(p5, walkthrough::OUTRO@, part);
    }
    assert forall|part: Seq<char>| #[trigger] text::holds(p1, part) implies text::holds(
        p3,
        part,
    ) by {
        lemma_extended(p1, listed, part);
        lemma_extended(p2, left, part);
    }
    lemma_final_hash(p3, hash);
    lemma_extended(p5, walkthrough::OUTRO@, "FINAL HASH: "@ + hex);
    if rounds.len() > 3 {
        let part = "("@ + text::decimal((rounds.len() - 3) as nat) + " more rounds)"@;
        lemma_left_out(rounds.len());
        text::lemma_holds(p3, p2, left, Seq::empty());
        text::lemma_holds_within(p3, left, part);
    }
    lemma_tally(stats);
    let counted = tally + walkthrough::FIRST_ROUNDS@;
    text::lemma_holds(p1, walkthrough::INTRO@, counted, Seq::empty());
    let line1 = "Matrix mults:        "@ + text::decimal(stats.multiplications as nat) + "\n"@;
    let line2 = "Additions:           "@ + text::decimal(stats.additions as nat) + "\n"@;
    let line3 = "Total field ops:     "@ + text::decimal(
        (stats.sbox_operations + stats.multiplications + stats.additions) as nat,
    ) + "\n"@;
    text::lemma_holds_within(p1, counted, line1);
    text::lemma_holds_within(p1, counted, line2);
    text::lemma_holds_within(p1, counted, line3);
    if 0 <= i < 3 && i < rounds.len() {
        let one = rounds[i];
        let r = walkthrough::short_round(one);
        lemma_short_rounds_hold(rounds, walkthrough::shown_rounds(rounds.len()), i);
        text::lemma_holds(p2, p1, listed, Seq::empty());
        text::lemma_holds_within(p2, listed, r);
        lemma_extended(p2, left, r);
        lemma_short_round(one);
        assert forall|part: Seq<char>| #[trigger] text::holds(r, part) implies text::holds(
            p3,
            part,
        ) by {
            text::lemma_holds_within(p3, r, part);
        }
    }
}

proof fn lemma_final_hash(before: Seq<char>, hash: nat)
    ensures
        text::holds(
            before + "\nFINAL HASH: "@ + poseidon::short_hex(hash),
            "FINAL HASH: "@ + poseidon::short_hex(hash),
        ),
{
    reveal_strlit("\nFINAL HASH: ");
    reveal_strlit("FINAL HASH: ");
    let whole = "\nFINAL HASH: "@;
    assert(whole =~= whole.take(1) + "FINAL HASH: "@);
    lemma_labelled(
        before,
        whole,
        whole.take(1),
        "FINAL HASH: "@,
        poseidon::short_hex(hash),
    );
}

proof fn lemma_left_out(count: nat)
    requires
        count > 3,
    ensures
        text::holds(
            walkthrough::omitted(count),
            "("@ + text::decimal((count - 3) as nat) + " more rounds)"@,
        ),
{
    reveal_strlit("\n  ... (");
    reveal_strlit("(");
    reveal_strlit(" more rounds) ...\n");
    reveal_strlit(" more rounds)");
    let a = "\n  ... ("@;
    let b = " more rounds) ...\n"@;
    assert(a =~= a.take(7) + "("@);
    assert(b =~= " more rounds)"@ + b.skip(13));
    text::lemma_holds(
        walkthrough::omitted(count),
        a.take(7),
        "("@ + text::decimal((count - 3) as nat) + " more rounds)"@,
        b.skip(13),
    );
}

proof fn lemma_tally(stats: HashStatistics)
    ensures
        ({
            let s = walkthrough::counts(
                stats.sbox_operations as nat,
                stats.multiplications as nat,
                stats.additions as nat,
                (
                    "\n  Matrix mults:        "@,
                    "\n  Additions:           "@,
                    "\n  Total field ops:     "@,
                ),
            ) + walkthrough::FIRST_ROUNDS@;
            &&& text::holds(
                s,
                "Matrix mults:        "@ + text::decimal(stats.multiplications as nat) + "\n"@,
            )
            &&& text::holds(
                s,
                "Additions:           "@ + text::decimal(stats.additions as nat) + "\n"@,
            )
            &&& text::holds(
                s,
                "Total field ops:     "@ + text::decimal(
                    (stats.sbox_operations + stats.multiplications + stats.additions) as nat,
                ) + "\n"@,
            )
        }),
{
    reveal_strlit("\n  Matrix mults:        ");
    reveal_strlit("\n  Additions:           ");
    reveal_strlit("\n  Total field ops:     ");
    reveal_strlit("Matrix mults:        ");
    reveal_strlit("Additions:           ");
    reveal_strlit("Total field ops:     ");
    reveal_strlit("\n");
    reveal_strlit(
        "\n\nROUND-BY-ROUND TRACE (showing first few)\n━━━━━━━━━━━━━━━━━━━━━━━━━━━━━━━━━━━━━━━━━━━━━━━━━━━━━━━━━━━━━━\n",
    );
    let a = "\n  Matrix mults:        "@;
    let b = "\n  Additions:           "@;
    let c = "\n  Total field ops:     "@;
    let n = "\n"@;
    let f = walkthrough::FIRST_ROUNDS@;
    let x = text::decimal(stats.sbox_operations as nat);
    let y = text::decimal(stats.multiplications as nat);
    let z = text::decimal(stats.additions as nat);
    let t = text::decimal(
        (stats.sbox_operations + stats.multiplications + stats.additions) as nat,
    );
    assert(a =~= a.take(3) + "Matrix mults:        "@);
    assert(b =~= b.take(3) + "Additions:           "@);
    assert(c =~= c.take(3) + "Total field ops:     "@);
    assert(b =~= n + b.skip(1));
    assert(c =~= n + c.skip(1));
    assert(f =~= n + f.skip(1));
    let s = x + a + y + b + z + c + t + f;
    text::lemma_holds(s, x + a.take(3), "Matrix mults:        "@ + y + n, b.skip(1) + z + c + t + f);
    text::lemma_holds(s, x + a + y + b.take(3), "Additions:           "@ + z + n, c.skip(1) + t + f);
    text::lemma_holds(
        s,
        x + a + y + b + z + c.take(3),
        "Total field ops:     "@ + t + n,
        f.skip(1),
    );
}

proof fn lemma_short_round(s: poseidon::Snapshot)
    ensures
        ({
            let r = walkthrough::short_round(s);
            &&& s.full ==> text::holds(r, "Round "@ + text::decimal(s.number) + " (Full)"@)
            &&& !s.full ==> text::holds(r, "Round "@ + text::decimal(s.number) + " (Partial)"@)
            &&& text::holds(r, "Before constants:  "@ + walkthrough::short_state(s.before))
            &&& text::holds(r, "After constants:   "@ + walkthrough::short_state(s.shifted))
            &&& text::holds(r, "After MDS matrix:  "@ + walkthrough::short_state(s.mixed))
        }),
{
    let n = text::decimal(s.number);
    let b = "):\n    Before constants:  "@;
    let c = "    After constants:   "@;
    let box_line = if s.full {
        "    S-Box applied to:  ALL 3 elements\n"@
    } else {
        "    S-Box applied to:  ONLY element 0\n"@
    };
    let d = "    After MDS matrix:  "@;
    let (x, y, z) = (walkthrough::short_state(s.before), walkthrough::short_state(s.shifted), walkthrough::short_state(s.mixed));
    let p1 = "\n  Round "@ + n + " ("@ + walkthrough::round_name(s.full);
    let p2 = p1 + b;
    let p3 = p2 + x;
    let p4 = p3 + c;
    let p5 = p4 + y;
    let p6 = p5 + box_line;
    let p7 = p6 + d;
    assert(walkthrough::short_round(s) == p7 + z);
    assert forall|part: Seq<char>| #[trigger] text::holds(p5, part) implies text::holds(
        walkthrough::short_round(s),
        part,
    ) by {
        lemma_extended(p5, box_line, part);
        lemma_extended(p6, d, part);
        lemma_extended(p7, z, part);
    }
    assert forall|part: Seq<char>| #[trigger] text::holds(p3, part) implies text::holds(
        p5,
        part,
    ) by {
        lemma_extended(p3, c, part);
        lemma_extended(p4, y, part);
    }
    lemma_round_named(s);
    if s.full {
        lemma_extended(p2, x, "Round "@ + n + " (Full)"@);
    } else {
        lemma_extended(p2, x, "Round "@ + n + " (Partial)"@);
    }
    lemma_short_labels();
    lemma_labelled(p1, b, b.take(7), "Before constants:  "@, x);
    lemma_labelled(p3, c, c.take(4), "After constants:   "@, y);
    lemma_labelled(p6, d, d.take(4), "After MDS matrix:  "@, z);
}

proof fn lemma_short_labels()
    ensures
        "):\n    Before constants:  "@ == "):\n    Before constants:  "@.take(7)
            + "Before constants:  "@,
        "    After constants:   "@ == "    After constants:   "@.take(4)
            + "After constants:   "@,
        "    After MDS matrix:  "@ == "    After MDS matrix:  "@.take(4)
            + "After MDS matrix:  "@,
{
    reveal_strlit("):\n    Before constants:  ");
    reveal_strlit("Before constants:  ");
    reveal_strlit("    After constants:   ");
    reveal_strlit("After constants:   ");
    reveal_strlit("    After MDS matrix:  ");
    reveal_strlit("After MDS matrix:  ");
}

proof fn lemma_round_named(s: poseidon::Snapshot)
    ensures
        ({
            let p = "\n  Round "@ + text::decimal(s.number) + " ("@ + walkthrough::round_name(s.full)
                + "):\n    Before constants:  "@;
            &&& s.full ==> text::holds(p, "Round "@ + text::decimal(s.number) + " (Full)"@)
            &&& !s.full ==> text::holds(p, "Round "@ + text::decimal(s.number) + " (Partial)"@)
        }),
{
    reveal_strlit("\n  Round ");
    reveal_strlit("Round ");
    reveal_strlit(" (");
    reveal_strlit("Full");
    reveal_strlit("Partial");
    reveal_strlit(" (Full)");
    reveal_strlit(" (Partial)");
    reveal_strlit("):\n    Before constants:  ");
    let a = "\n  Round "@;
    let n = text::decimal(s.number);
    let b = "):\n    Before constants:  "@;
    let close = b.take(1);
    assert(a =~= a.take(3) + "Round "@);
    assert(b =~= close + b.skip(1));
    let k = " ("@ + walkthrough::round_name(s.full) + close;
    assert(s.full ==> k =~= " (Full)"@);
    assert(!s.full ==> k =~= " (Partial)"@);
    let p = a + n + " ("@ + walkthrough::round_name(s.full) + b;
    text::lemma_holds(p, a.take(3), "Round "@ + n + k, b.skip(1));
}

/// The trace gives every round with its number and its kind, and each of its four states
/// in full under its own heading, and the hash.
pub proof fn lemma_trace_says(trace: RoundTrace, i: int)
    ensures
        ({
            let t = walkthrough::trace_text(trace);
            let all = poseidon::snapshots(trace.rounds@);
            let one = all[i];
            let shown = 0 <= i < trace.rounds@.len();
            &&& shown && one.full ==> text::holds(
                t,
                "ROUND "@ + text::decimal(one.number) + " - Full\n"@,
            )
            &&& shown && !one.full ==> text::holds(
                t,
                "ROUND "@ + text::decimal(one.number) + " - Partial\n"@,
            )
            &&& shown ==> text::holds(t, "BEFORE ADDING CONSTANTS:\n"@ + walkthrough::full_state("    "@, one.before))
            &&& shown ==> text::holds(t, "AFTER ADDING CONSTANTS:\n"@ + walkthrough::full_state("    "@, one.shifted))
            &&& shown ==> text::holds(t, "AFTER S-BOX:\n"@ + walkthrough::full_state("    "@, one.boxed))
            &&& shown ==> text::holds(t, "AFTER MDS MATRIX:\n"@ + walkthrough::full_state("    "@, one.mixed))
            &&& text::holds(t, "Hash = "@ + poseidon::full_hex(trace.final_state@[0]@))
        }),
{
    let t = walkthrough::trace_text(trace);
    let all = poseidon::snapshots(trace.rounds@);
    let listed = walkthrough::full_rounds(all, all.len());
    let head = walkthrough::TRACE_HEAD@ + walkthrough::full_state(
        "  "@,
        field::values(trace.initial_state@),
    );
    let hash = poseidon::full_hex(trace.final_state@[0]@);
    let p1 = head + listed;
    let p2 = p1 + walkthrough::TRACE_TAIL@ + hash;
    lemma_trace_hash(p1, hash);
    lemma_extended(p2, "\n\n"@, "Hash = "@ + hash);
    if 0 <= i < trace.rounds@.len() {
        let r = walkthrough::full_round(all[i]);
        lemma_full_rounds_hold(all, all.len(), i);
        text::lemma_holds(p1, head, listed, Seq::empty());
        text::lemma_holds_within(p1, listed, r);
        lemma_extended(p1, walkthrough::TRACE_TAIL@, r);
        lemma_extended(p1 + walkthrough::TRACE_TAIL@, hash, r);
        lemma_extended(p2, "\n\n"@, r);
        lemma_full_round(all[i]);
        assert forall|part: Seq<char>| #[trigger] text::holds(r, part) implies text::holds(
            t,
            part,
        ) by {
            text::lemma_holds_within(t, r, part);
        }
    }
}

proof fn lemma_trace_hash(before: Seq<char>, hash: Seq<char>)
    ensures
        text::holds(before + walkthrough::TRACE_TAIL@ + hash, "Hash = "@ + hash),
{
    reveal_strlit(
        "================================================================\n\nFINAL HASH OUTPUT:\n  Hash = ",
    );
    reveal_strlit("Hash = ");
    let a = walkthrough::TRACE_TAIL@;
    let start = a.take(a.len() - 7);
    assert(a =~= start + "Hash = "@);
    lemma_labelled(before, a, start, "Hash = "@, hash);
}

proof fn lemma_full_round(s: poseidon::Snapshot)
    ensures
        ({
            let r = walkthrough::full_round(s);
            &&& s.full ==> text::holds(r, "ROUND "@ + text::decimal(s.number) + " - Full\n"@)
            &&& !s.full ==> text::holds(r, "ROUND "@ + text::decimal(s.number) + " - Partial\n"@)
            &&& text::holds(r, "BEFORE ADDING CONSTANTS:\n"@ + walkthrough::full_state("    "@, s.before))
            &&& text::holds(r, "AFTER ADDING CONSTANTS:\n"@ + walkthrough::full_state("    "@, s.shifted))
            &&& text::holds(r, "AFTER S-BOX:\n"@ + walkthrough::full_state("    "@, s.boxed))
            &&& text::holds(r, "AFTER MDS MATRIX:\n"@ + walkthrough::full_state("    "@, s.mixed))
        }),
{
    let indent = "    "@;
    let (b, c, d, m) = (
        "  BEFORE ADDING CONSTANTS:\n"@,
        "  AFTER ADDING CONSTANTS:\n"@,
        "  AFTER S-BOX:\n"@,
        walkthrough::MIXING@,
    );
    let box_part = if s.full {
        walkthrough::FULL_SBOX@
    } else {
        walkthrough::PARTIAL_SBOX@
    };
    let none = Seq::<char>::empty();
    let (x, y, z, w) = (
        walkthrough::full_state(indent, s.before),
        walkthrough::full_state(indent, s.shifted),
        walkthrough::full_state(indent, s.boxed),
        walkthrough::full_state(indent, s.mixed),
    );
    let r = walkthrough::full_round(s);
    let (title, upper, lower) = (walkthrough::round_title(s), walkthrough::upper_states(s), walkthrough::lower_states(s));
    text::lemma_holds(r, none, title, upper + lower);
    text::lemma_holds(r, title, upper, lower);
    text::lemma_holds(r, title + upper, lower, none);
    lemma_round_titled(s);
    lemma_full_labels();
    if s.full {
        text::lemma_holds_within(
            r,
            title,
            "ROUND "@ + text::decimal(s.number) + " - Full\n"@,
        );
    } else {
        text::lemma_holds_within(
            r,
            title,
            "ROUND "@ + text::decimal(s.number) + " - Partial\n"@,
        );
    }
    assert(none + b + x =~= b + x);
    lemma_labelled(none, b, b.take(2), "BEFORE ADDING CONSTANTS:\n"@, x);
    lemma_extended(b + x, c, "BEFORE ADDING CONSTANTS:\n"@ + x);
    lemma_extended(b + x + c, y, "BEFORE ADDING CONSTANTS:\n"@ + x);
    text::lemma_holds_within(r, upper, "BEFORE ADDING CONSTANTS:\n"@ + x);
    lemma_labelled(b + x, c, c.take(2), "AFTER ADDING CONSTANTS:\n"@, y);
    text::lemma_holds_within(r, upper, "AFTER ADDING CONSTANTS:\n"@ + y);
    lemma_labelled(box_part, d, d.take(2), "AFTER S-BOX:\n"@, z);
    lemma_extended(box_part + d + z, m, "AFTER S-BOX:\n"@ + z);
    lemma_extended(box_part + d + z + m, w, "AFTER S-BOX:\n"@ + z);
    text::lemma_holds_within(r, lower, "AFTER S-BOX:\n"@ + z);
    lemma_labelled(box_part + d + z, m, m.take(m.len() - 18), "AFTER MDS MATRIX:\n"@, w);
    text::lemma_holds_within(r, lower, "AFTER MDS MATRIX:\n"@ + w);
}

proof fn lemma_full_labels()
    ensures
        "  BEFORE ADDING CONSTANTS:\n"@ == "  BEFORE ADDING CONSTANTS:\n"@.take(2)
            + "BEFORE ADDING CONSTANTS:\n"@,
        "  AFTER ADDING CONSTANTS:\n"@ == "  AFTER ADDING CONSTANTS:\n"@.take(2)
            + "AFTER ADDING CONSTANTS:\n"@,
        "  AFTER S-BOX:\n"@ == "  AFTER S-BOX:\n"@.take(2) + "AFTER S-BOX:\n"@,
        walkthrough::MIXING@ == walkthrough::MIXING@.take(walkthrough::MIXING@.len() - 18) + "AFTER MDS MATRIX:\n"@,
{
    reveal_strlit("  BEFORE ADDING CONSTANTS:\n");
    reveal_strlit("BEFORE ADDING CONSTANTS:\n");
    reveal_strlit("  AFTER ADDING CONSTANTS:\n");
    reveal_strlit("AFTER ADDING CONSTANTS:\n");
    reveal_strlit("  AFTER S-BOX:\n");
    reveal_strlit("AFTER S-BOX:\n");
    reveal_strlit(
        "  MDS MATRIX MULTIPLICATION:\n    Matrix = [[2,3,1], [3,1,2], [1,2,3]]\n    New[0] = 2*State[0] + 3*State[1] + 1*State[2]\n    New[1] = 3*State[0] + 1*State[1] + 2*State[2]\n    New[2] = 1*State[0] + 2*State[1] + 3*State[2]\n  AFTER MDS MATRIX:\n",
    );
    reveal_strlit("AFTER MDS MATRIX:\n");
}

proof fn lemma_round_titled(s: poseidon::Snapshot)
    ensures
        s.full ==> text::holds(
            walkthrough::round_title(s),
            "ROUND "@ + text::decimal(s.number) + " - Full\n"@,
        ),
        !s.full ==> text::holds(
            walkthrough::round_title(s),
            "ROUND "@ + text::decimal(s.number) + " - Partial\n"@,
        ),
{
    reveal_strlit(" - ");
    reveal_strlit("Full");
    reveal_strlit("Partial");
    reveal_strlit("\n");
    reveal_strlit(" - Full\n");
    reveal_strlit(" - Partial\n");
    let n = text::decimal(s.number);
    let k = " - "@ + walkthrough::round_name(s.full) + "\n"@;
    assert(s.full ==> k =~= " - Full\n"@);
    assert(!s.full ==> k =~= " - Partial\n"@);
    text::lemma_holds(walkthrough::round_title(s), walkthrough::RULE@, "ROUND "@ + n + k, walkthrough::RULE@);
}

/// The breakdown gives the number of permutations, of which each has 64 rounds, the
/// number of rounds, and the three counts with their sum.
pub proof fn lemma_breakdown_says(stats: HashStatistics, rounds: nat)
    ensures
        ({
            let s = walkthrough::breakdown(stats, rounds);
            &&& text::holds(
                s,
                "Full permutations:     "@ + text::decimal(rounds / 64) + "\n"@,
            )
            &&& text::holds(s, "Total rounds traced:   "@ + text::decimal(rounds) + "\n"@)
            &&& text::holds(
                s,
                "Multiplications:       "@ + text::decimal(stats.multiplications as nat) + "\n"@,
            )
            &&& text::holds(
                s,
                "Additions:             "@ + text::decimal(stats.additions as nat) + "\n"@,
            )
            &&& text::holds(
                s,
                "Grand total:           "@ + text::decimal(
                    (stats.sbox_operations + stats.multiplications + stats.additions) as nat,
                ) + "\n"@,
            )
        }),
{
    let (h, l, o) = (walkthrough::BREAKDOWN_HEAD@, "\n  Total rounds traced:   "@, walkthrough::BREAKDOWN_COUNTS@);
    let (a, b, c) = (
        "\n  Multiplications:       "@,
        "\n  Additions:             "@,
        "\n  Grand total:           "@,
    );
    let (e, n) = ("\n\n"@, "\n"@);
    let none = Seq::<char>::empty();
    let (p, q) = (text::decimal(rounds / 64), text::decimal(rounds));
    let x = text::decimal(stats.sbox_operations as nat);
    let y = text::decimal(stats.multiplications as nat);
    let z = text::decimal(stats.additions as nat);
    let t = text::decimal(
        (stats.sbox_operations + stats.multiplications + stats.additions) as nat,
    );
    let tally = x + a + y + b + z + c + t;
    let head = h + p + l + q + o;
    let s = head + tally + e;
    assert(walkthrough::breakdown(stats, rounds) == s);
    lemma_breakdown_labels();
    assert(none + h + p + l =~= h + p + l);
    let part1 = "Full permutations:     "@ + p + n;
    let part2 = "Total rounds traced:   "@ + q + n;
    lemma_labelled_line(
        none,
        h,
        h.take(h.len() - 23),
        "Full permutations:     "@,
        p,
        l,
        n,
        l.skip(1),
    );
    lemma_extended(h + p + l, q, part1);
    lemma_extended(h + p + l + q, o, part1);
    lemma_labelled_line(h + p, l, l.take(3), "Total rounds traced:   "@, q, o, n, o.skip(1));
    lemma_extended(head, tally, part1);
    lemma_extended(head, tally, part2);
    lemma_extended(head + tally, e, part1);
    lemma_extended(head + tally, e, part2);
    let part3 = "Multiplications:       "@ + y + n;
    let part4 = "Additions:             "@ + z + n;
    let part5 = "Grand total:           "@ + t + n;
    lemma_labelled_line(x, a, a.take(3), "Multiplications:       "@, y, b, n, b.skip(1));
    lemma_extended(x + a + y + b, z, part3);
    lemma_extended(x + a + y + b + z, c, part3);
    lemma_labelled_line(x + a + y, b, b.take(3), "Additions:             "@, z, c, n, c.skip(1));
    lemma_labelled_line(
        x + a + y + b + z,
        c,
        c.take(3),
        "Grand total:           "@,
        t,
        e,
        n,
        e.skip(1),
    );
    lemma_extended(x + a + y + b + z + c, t, part3);
    lemma_extended(x + a + y + b + z + c, t, part4);
    lemma_extended(tally, e, part3);
    lemma_extended(tally, e, part4);
    text::lemma_holds(s, head, tally + e, none);
    text::lemma_holds_within(s, tally + e, part3);
    text::lemma_holds_within(s, tally + e, part4);
    text::lemma_holds_within(s, tally + e, part5);
}

proof fn lemma_breakdown_labels()
    ensures
        walkthrough::BREAKDOWN_HEAD@ == walkthrough::BREAKDOWN_HEAD@.take(walkthrough::BREAKDOWN_HEAD@.len() - 23)
            + "Full permutations:     "@,
        "\n  Total rounds traced:   "@ == "\n  Total rounds traced:   "@.take(3)
            + "Total rounds traced:   "@,
        "\n  Multiplications:       "@ == "\n  Multiplications:       "@.take(3)
            + "Multiplications:       "@,
        "\n  Additions:             "@ == "\n  Additions:             "@.take(3)
            + "Additions:             "@,
        "\n  Grand total:           "@ == "\n  Grand total:           "@.take(3)
            + "Grand total:           "@,
        "\n  Total rounds traced:   "@ == "\n"@ + "\n  Total rounds traced:   "@.skip(1),
        walkthrough::BREAKDOWN_COUNTS@ == "\n"@ + walkthrough::BREAKDOWN_COUNTS@.skip(1),
        "\n  Additions:             "@ == "\n"@ + "\n  Additions:             "@.skip(1),
        "\n  Grand total:           "@ == "\n"@ + "\n  Grand total:           "@.skip(1),
        "\n\n"@ == "\n"@ + "\n\n"@.skip(1),
{
    reveal_strlit(
        "DETAILED OPERATION BREAKDOWN\n================================================================\n\nROUND COMPOSITION:\n  First full rounds:     4\n  Partial rounds:        56\n  Final full rounds:     4\n  Total rounds:          64\n\nPERMUTATION COUNT:\n  Full permutations:     ",
    );
    reveal_strlit("Full permutations:     ");
    reveal_strlit("\n  Total rounds traced:   ");
    reveal_strlit("Total rounds traced:   ");
    reveal_strlit(
        "\n\nOPERATION COUNTS (per permutation):\n  S-Box operations:\n    Full rounds:         4 * 3 = 12\n    Partial rounds:      56 * 1 = 56\n    Final full rounds:   4 * 3 = 12\n    Total per perm:      80\n\n  Matrix multiplications:\n    Each round:          3x3 matrix * vec = 9 multiplications\n    Total per perm:      64 * 9 = 576\n\n  Field additions:\n    Constants per round: 3\n    Matrix per round:    6\n    Total per perm:      64 * 9 = 576\n\nTOTAL FOR THIS HASH:\n  S-Box operations:      ",
    );
    reveal_strlit("\n  Multiplications:       ");
    reveal_strlit("\n  Additions:             ");
    reveal_strlit("\n  Grand total:           ");
    reveal_strlit("Multiplications:       ");
    reveal_strlit("Additions:             ");
    reveal_strlit("Grand total:           ");
    reveal_strlit("\n\n");
    reveal_strlit("\n");
}

/// Three elements are shown in brackets, each by its two lowest bytes, and in full on
/// three lines that name their places.
pub proof fn lemma_states_say(indent: Seq<char>, s: Seq<nat>)
    ensures
        walkthrough::short_state(s) == "["@ + ("0x"@ + text::hex(
            seq![(s[0] % 256) as u8, (s[0] / 256 % 256) as u8],
        ) + "..."@) + ", "@ + ("0x"@ + text::hex(
            seq![(s[1] % 256) as u8, (s[1] / 256 % 256) as u8],
        ) + "..."@) + ", "@ + ("0x"@ + text::hex(
            seq![(s[2] % 256) as u8, (s[2] / 256 % 256) as u8],
        ) + "..."@) + "]\n"@,
        text::holds(
            walkthrough::full_state(indent, s),
            "State[0]: "@ + text::hex(field::be_bytes(s[0], 32)) + "\n"@,
        ),
        text::holds(
            walkthrough::full_state(indent, s),
            "State[1]: "@ + text::hex(field::be_bytes(s[1], 32)) + "\n"@,
        ),
        text::holds(
            walkthrough::full_state(indent, s),
            "State[2]: "@ + text::hex(field::be_bytes(s[2], 32)) + "\n\n"@,
        ),
{
    let n = "\n"@;
    let (a, b, c) = (
        text::hex(field::be_bytes(s[0], 32)),
        text::hex(field::be_bytes(s[1], 32)),
        text::hex(field::be_bytes(s[2], 32)),
    );
    let p1 = indent + "State[0]: "@ + a + n;
    let p2 = p1 + indent;
    let p3 = p2 + "State[1]: "@ + b + n;
    let p4 = p3 + indent;
    let none = Seq::<char>::empty();
    let part1 = "State[0]: "@ + a + n;
    let part2 = "State[1]: "@ + b + n;
    let part3 = "State[2]: "@ + c + "\n\n"@;
    text::lemma_holds(p1, indent, part1, none);
    text::lemma_holds(p3, p2, part2, none);
    text::lemma_holds(p4 + "State[2]: "@ + c + "\n\n"@, p4, part3, none);
    lemma_extended(p1, indent, part1);
    lemma_extended(p2, "State[1]: "@, part1);
    lemma_extended(p2 + "State[1]: "@, b, part1);
    lemma_extended(p2 + "State[1]: "@ + b, n, part1);
    assert forall|part: Seq<char>| #[trigger] text::holds(p3, part) implies text::holds(
        walkthrough::full_state(indent, s),
        part,
    ) by {
        lemma_extended(p3, indent, part);
        lemma_extended(p4, "State[2]: "@, part);
        lemma_extended(p4 + "State[2]: "@, c, part);
        lemma_extended(p4 + "State[2]: "@ + c, "\n\n"@, part);
    }
}

} // verus!
