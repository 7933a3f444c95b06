//! What an exported credential can be read back as.
use crate::biometric::export;
use crate::biometric::types;
use crate::biometric::types::VerifiableCredential;
use crate::text;
use vstd::prelude::*;

verus! {

/// A text without quotes.
pub open spec fn unquoted(s: Seq<char>) -> bool {
    forall|i: int| 0 <= i < s.len() ==> #[trigger] s[i] != '"'
}

/// A text without quotes that stands behind a quote can be read back.
proof fn lemma_same_text(a: Seq<char>, x: Seq<char>, b: Seq<char>, y: Seq<char>)
    requires
        a + x == b + y,
        a.len() > 0,
        b.len() > 0,
        a.last() == '"',
        b.last() == '"',
        unquoted(x),
        unquoted(y),
    ensures
        a == b,
        x == y,
{
    text::lemma_same_run(a, x, b, y, |c: char| c != '"');
}

/// A number that stands behind a blank can be read back.
proof fn lemma_same_number(a: Seq<char>, m: nat, b: Seq<char>, n: nat)
    requires
        a + text::decimal(m) == b + text::decimal(n),
        a.len() > 0,
        b.len() > 0,
        a.last() == ' ',
        b.last() == ' ',
    ensures
        a == b,
        m == n,
{
    text::lemma_decimal(m);
    text::lemma_decimal(n);
    text::lemma_same_run(a, text::decimal(m), b, text::decimal(n), |c: char| text::is_digit(c));
}

// Lists of texts in quotes.

/// A list of texts in quotes, behind a bracket, can be read back.
proof fn lemma_same_list(a: Seq<char>, x: Seq<Seq<char>>, b: Seq<char>, y: Seq<Seq<char>>)
    requires
        a + text::joined(export::quoted_lines(x), ", "@) == b + text::joined(
            export::quoted_lines(y),
            ", "@,
        ),
        a.len() > 0,
        b.len() > 0,
        a.last() == '[',
        b.last() == '[',
        forall|i: int| 0 <= i < x.len() ==> unquoted(#[trigger] x[i]),
        forall|i: int| 0 <= i < y.len() ==> unquoted(#[trigger] y[i]),
    ensures
        a == b,
        x == y,
    decreases x.len(),
{
    reveal_strlit("\"");
    reveal_strlit(", ");
    let q = "\""@;
    let lx = text::joined(export::quoted_lines(x), ", "@);
    let ly = text::joined(export::quoted_lines(y), ", "@);
    if x.len() == 0 {
        assert(a + lx =~= a);
        if y.len() > 0 {
            lemma_list_end(b, y);
        } else {
            assert(b + ly =~= b);
            assert(x =~= y);
        }
    } else if y.len() == 0 {
        assert(b + ly =~= b);
        lemma_list_end(a, x);
    } else {
        let u = lemma_list_end(a, x);
        let v = lemma_list_end(b, y);
        assert(u + x.last() + q == v + y.last() + q);
        text::lemma_same_end(u + x.last(), v + y.last(), q);
        assert(unquoted(x[x.len() - 1]));
        assert(unquoted(y[y.len() - 1]));
        lemma_same_text(u, x.last(), v, y.last());
        let fx = x.drop_last();
        let fy = y.drop_last();
        assert(export::quoted_lines(x).drop_last() =~= export::quoted_lines(fx));
        assert(export::quoted_lines(y).drop_last() =~= export::quoted_lines(fy));
        let jx = text::joined(export::quoted_lines(fx), ", "@);
        let jy = text::joined(export::quoted_lines(fy), ", "@);
        let sx = if fx.len() == 0 {
            a
        } else {
            a + jx + ", "@
        };
        let sy = if fy.len() == 0 {
            b
        } else {
            b + jy + ", "@
        };
        assert(u == sx + q);
        assert(v == sy + q);
        text::lemma_same_end(sx, sy, q);
        assert((a + jx + ", "@).last() == ' ');
        assert((b + jy + ", "@).last() == ' ');
        assert(fx.len() == 0 <==> fy.len() == 0);
        if fx.len() > 0 {
            text::lemma_same_end(a + jx, b + jy, ", "@);
        } else {
            assert(a + jx =~= a);
            assert(b + jy =~= b);
        }
        assert forall|i: int| 0 <= i < fx.len() implies unquoted(#[trigger] fx[i]) by {
            assert(x[i] == fx[i]);
        }
        assert forall|i: int| 0 <= i < fy.len() implies unquoted(#[trigger] fy[i]) by {
            assert(y[i] == fy[i]);
        }
        lemma_same_list(a, fx, b, fy);
        assert(x =~= fx.push(x.last()));
        assert(y =~= fy.push(y.last()));
    }
}

/// The end of a list: its last text in quotes, behind what comes before it.
proof fn lemma_list_end(a: Seq<char>, x: Seq<Seq<char>>) -> (u: Seq<char>)
    requires
        x.len() > 0,
    ensures
        a + text::joined(export::quoted_lines(x), ", "@) == u + x.last() + "\""@,
        u.len() > 0,
        u.last() == '"',
        u == if x.len() == 1 {
            a + "\""@
        } else {
            a + text::joined(export::quoted_lines(x.drop_last()), ", "@) + ", "@ + "\""@
        },
        (a + text::joined(export::quoted_lines(x), ", "@)).last() == '"',
{
    reveal_strlit("\"");
    let lines = export::quoted_lines(x);
    let q = "\""@;
    assert(lines.last() == q + x.last() + q);
    assert(lines.drop_last() =~= export::quoted_lines(x.drop_last()));
    if x.len() == 1 {
        let u = a + q;
        assert(a + lines[0] =~= u + x.last() + q);
        u
    } else {
        let j = text::joined(export::quoted_lines(x.drop_last()), ", "@);
        let u = a + j + ", "@ + q;
        assert(a + (j + ", "@ + lines.last()) =~= u + x.last() + q);
        u
    }
}

// Claims.

/// The value of a claim without quotes.
pub open spec fn unquoted_value(value: types::Stated) -> bool {
    value matches types::Stated::Text(s) ==> unquoted(s)
}

/// The last character of a value tells what kind of value it is.
proof fn lemma_value_end(a: Seq<char>, value: types::Stated)
    ensures
        ({
            let s = a + export::value_json(value);
            &&& s.len() > 0
            &&& value is Text <==> s.last() == '"'
            &&& value is Number <==> text::is_digit(s.last())
            &&& value is Boolean <==> s.last() == 'e'
        }),
{
    reveal_strlit("\"");
    reveal_strlit("true");
    reveal_strlit("false");
    if let types::Stated::Number(n) = value {
        text::lemma_decimal(n);
        let d = text::decimal(n);
        assert(d.last() == d[d.len() - 1]);
    }
}

/// The value of a claim, behind a blank, can be read back.
proof fn lemma_same_value(a: Seq<char>, x: types::Stated, b: Seq<char>, y: types::Stated)
    requires
        a + export::value_json(x) == b + export::value_json(y),
        a.len() > 0,
        b.len() > 0,
        a.last() == ' ',
        b.last() == ' ',
        unquoted_value(x),
        unquoted_value(y),
    ensures
        a == b,
        x == y,
{
    lemma_value_end(a, x);
    lemma_value_end(b, y);
    match (x, y) {
        (types::Stated::Text(s), types::Stated::Text(t)) => {
            reveal_strlit("\"");
            let q = "\""@;
            assert(a + (q + s + q) =~= a + q + s + q);
            assert(b + (q + t + q) =~= b + q + t + q);
            text::lemma_same_end(a + q + s, b + q + t, q);
            lemma_same_text(a + q, s, b + q, t);
            text::lemma_same_end(a, b, q);
        },
        (types::Stated::Number(m), types::Stated::Number(n)) => {
            lemma_same_number(a, m, b, n);
        },
        (types::Stated::Boolean(_), types::Stated::Boolean(_)) => {
            reveal_strlit("true");
            reveal_strlit("false");
            let s = a + export::value_json(x);
            let t = b + export::value_json(y);
            assert(s[s.len() - 2] == t[t.len() - 2]);
            assert("true"@[2] == 'u');
            assert("false"@[3] == 's');
            text::lemma_same_end(a, b, export::value_json(x));
        },
        _ => {},
    }
}

/// A claim on its line can be read back.
proof fn lemma_same_claim(a: Seq<char>, x: types::Statement, b: Seq<char>, y: types::Statement)
    requires
        a + export::claim_json(x) == b + export::claim_json(y),
        unquoted(x.label),
        unquoted(y.label),
        unquoted_value(x.value),
        unquoted_value(y.value),
    ensures
        a == b,
        x == y,
{
    reveal_strlit("      {\"label\": \"");
    reveal_strlit("\", \"value\": ");
    reveal_strlit("}");
    let p = "      {\"label\": \""@;
    let m = "\", \"value\": "@;
    let e = "}"@;
    let vx = export::value_json(x.value);
    let vy = export::value_json(y.value);
    assert(a + (p + x.label + m + vx + e) =~= a + p + x.label + m + vx + e);
    assert(b + (p + y.label + m + vy + e) =~= b + p + y.label + m + vy + e);
    text::lemma_same_end(a + p + x.label + m + vx, b + p + y.label + m + vy, e);
    lemma_same_value(a + p + x.label + m, x.value, b + p + y.label + m, y.value);
    text::lemma_same_end(a + p + x.label, b + p + y.label, m);
    lemma_same_text(a + p, x.label, b + p, y.label);
    text::lemma_same_end(a, b, p);
}

/// Claims on their lines, behind a bracket and a new line, can be read back.
proof fn lemma_same_claims(
    a: Seq<char>,
    x: Seq<types::Statement>,
    b: Seq<char>,
    y: Seq<types::Statement>,
)
    requires
        a + text::joined(export::claim_lines(x), ",\n"@) == b + text::joined(
            export::claim_lines(y),
            ",\n"@,
        ),
        a.len() > 1,
        b.len() > 1,
        a.last() == '\n',
        b.last() == '\n',
        a[a.len() - 2] == '[',
        b[b.len() - 2] == '[',
        forall|i: int|
            0 <= i < x.len() ==> unquoted((#[trigger] x[i]).label) && unquoted_value(x[i].value),
        forall|i: int|
            0 <= i < y.len() ==> unquoted((#[trigger] y[i]).label) && unquoted_value(y[i].value),
    ensures
        a == b,
        x == y,
    decreases x.len(),
{
    reveal_strlit(",\n");
    let sep = ",\n"@;
    let lx = text::joined(export::claim_lines(x), sep);
    let ly = text::joined(export::claim_lines(y), sep);
    if x.len() == 0 {
        assert(a + lx =~= a);
        if y.len() > 0 {
            lemma_lines_end(b, y);
        } else {
            assert(b + ly =~= b);
            assert(x =~= y);
        }
    } else if y.len() == 0 {
        assert(b + ly =~= b);
        lemma_lines_end(a, x);
    } else {
        let u = lemma_lines_end(a, x);
        let v = lemma_lines_end(b, y);
        assert(unquoted(x[x.len() - 1].label));
        assert(unquoted(y[y.len() - 1].label));
        lemma_same_claim(u, x.last(), v, y.last());
        let fx = x.drop_last();
        let fy = y.drop_last();
        let jx = text::joined(export::claim_lines(fx), sep);
        let jy = text::joined(export::claim_lines(fy), sep);
        let sx = a + jx + sep;
        let sy = b + jy + sep;
        assert(sx[sx.len() - 2] == ',');
        assert(sy[sy.len() - 2] == ',');
        assert(fx.len() == 0 <==> fy.len() == 0);
        if fx.len() > 0 {
            text::lemma_same_end(a + jx, b + jy, sep);
        } else {
            assert(a + jx =~= a);
            assert(b + jy =~= b);
        }
        assert forall|i: int| 0 <= i < fx.len() implies unquoted((#[trigger] fx[i]).label)
            && unquoted_value(fx[i].value) by {
            assert(x[i] == fx[i]);
        }
        assert forall|i: int| 0 <= i < fy.len() implies unquoted((#[trigger] fy[i]).label)
            && unquoted_value(fy[i].value) by {
            assert(y[i] == fy[i]);
        }
        lemma_same_claims(a, fx, b, fy);
        assert(x =~= fx.push(x.last()));
        assert(y =~= fy.push(y.last()));
    }
}

proof fn lemma_lines_end(a: Seq<char>, x: Seq<types::Statement>) -> (u: Seq<char>)
    requires
        x.len() > 0,
    ensures
        a + text::joined(export::claim_lines(x), ",\n"@) == u + export::claim_json(x.last()),
        u == if x.len() == 1 {
            a
        } else {
            a + text::joined(export::claim_lines(x.drop_last()), ",\n"@) + ",\n"@
        },
        (a + text::joined(export::claim_lines(x), ",\n"@)).last() == '}',
{
    reveal_strlit("}");
    let lines = export::claim_lines(x);
    let last = export::claim_json(x.last());
    assert(lines.last() == last);
    assert(last.last() == '}');
    assert(lines.drop_last() =~= export::claim_lines(x.drop_last()));
    if x.len() == 1 {
        a
    } else {
        let j = text::joined(export::claim_lines(x.drop_last()), ",\n"@);
        let u = a + j + ",\n"@;
        assert(a + (j + ",\n"@ + last) =~= u + last);
        u
    }
}

// The whole credential.

/// Nothing that a credential says has quotes in it.
pub open spec fn unquoted_credential(c: VerifiableCredential) -> bool {
    &&& unquoted(c.credential_id@)
    &&& unquoted(c.issuer_did@)
    &&& unquoted(c.commitment@)
    &&& unquoted(c.proof_value@)
    &&& forall|i: int|
        0 <= i < c.claims@.len() ==> unquoted((#[trigger] c.claims@[i]).label@) && unquoted_value(
            c.claims@[i].value@,
        )
    &&& forall|i: int|
        0 <= i < c.revealed_labels@.len() ==> unquoted((#[trigger] c.revealed_labels@[i])@)
    &&& forall|i: int|
        0 <= i < c.predicates_described@.len() ==> unquoted(
            (#[trigger] c.predicates_described@[i])@,
        )
}

/// The text of a credential up to its claims.
spec fn claims_head(c: VerifiableCredential) -> Seq<char> {
    export::HEAD@ + c.credential_id@ + export::ISSUER@ + c.issuer_did@ + export::CLAIMS@
}

spec fn claims_part(c: VerifiableCredential) -> Seq<char> {
    claims_head(c) + text::joined(export::claim_lines(types::statements(c.claims@)), ",\n"@)
}

spec fn proof_part(c: VerifiableCredential) -> Seq<char> {
    claims_part(c) + export::COMMITMENT@ + c.commitment@ + export::PROOF@ + c.proof_value@
}

spec fn window_part(c: VerifiableCredential) -> Seq<char> {
    proof_part(c) + export::START@ + text::decimal(c.window_start as nat) + export::EXPIRES@
        + text::decimal(c.window_expires as nat)
}

spec fn shown_part(c: VerifiableCredential) -> Seq<char> {
    window_part(c) + export::SHOWN@ + text::joined(
        export::quoted_lines(text::texts(c.revealed_labels@)),
        ", "@,
    )
}

proof fn lemma_window_read(a: VerifiableCredential, b: VerifiableCredential)
    requires
        window_part(a) == window_part(b),
    ensures
        proof_part(a) == proof_part(b),
        a.window_start == b.window_start,
        a.window_expires == b.window_expires,
{
    reveal_strlit("\",\n    \"windowStart\": ");
    reveal_strlit(",\n    \"windowExpires\": ");
    let (sa, sb) = (proof_part(a) + export::START@, proof_part(b) + export::START@);
    assert(sa.last() == ' ' && sb.last() == ' ');
    let (ta, tb) = (
        sa + text::decimal(a.window_start as nat),
        sb + text::decimal(b.window_start as nat),
    );
    let (ea, eb) = (ta + export::EXPIRES@, tb + export::EXPIRES@);
    assert(ea.last() == ' ' && eb.last() == ' ');
    lemma_same_number(ea, a.window_expires as nat, eb, b.window_expires as nat);
    text::lemma_same_end(ta, tb, export::EXPIRES@);
    lemma_same_number(sa, a.window_start as nat, sb, b.window_start as nat);
    text::lemma_same_end(proof_part(a), proof_part(b), export::START@);
}

proof fn lemma_proof_read(a: VerifiableCredential, b: VerifiableCredential)
    requires
        proof_part(a) == proof_part(b),
        unquoted_credential(a),
        unquoted_credential(b),
    ensures
        claims_part(a) == claims_part(b),
        a.commitment@ == b.commitment@,
        a.proof_value@ == b.proof_value@,
{
    reveal_strlit("\n    ],\n    \"commitment\": \"");
    reveal_strlit(
        "\"\n  },\n  \"proof\": {\n    \"type\": \"DataIntegrityProof\",\n    \"cryptosuite\": \"poseidon-groth16-bn254-2026\",\n    \"proofValue\": \"",
    );
    let (sa, sb) = (claims_part(a) + export::COMMITMENT@, claims_part(b) + export::COMMITMENT@);
    assert(sa.last() == '"' && sb.last() == '"');
    let (ta, tb) = (sa + a.commitment@, sb + b.commitment@);
    let (pa, pb) = (ta + export::PROOF@, tb + export::PROOF@);
    assert(pa.last() == '"' && pb.last() == '"');
    lemma_same_text(pa, a.proof_value@, pb, b.proof_value@);
    text::lemma_same_end(ta, tb, export::PROOF@);
    lemma_same_text(sa, a.commitment@, sb, b.commitment@);
    text::lemma_same_end(claims_part(a), claims_part(b), export::COMMITMENT@);
}

proof fn lemma_head_read(a: VerifiableCredential, b: VerifiableCredential)
    requires
        claims_part(a) == claims_part(b),
        unquoted_credential(a),
        unquoted_credential(b),
    ensures
        a.credential_id@ == b.credential_id@,
        a.issuer_did@ == b.issuer_did@,
        types::statements(a.claims@) == types::statements(b.claims@),
{
    reveal_strlit("\",\n  \"type\": [\"VerifiableCredential\"],\n  \"issuer\": \"");
    reveal_strlit("\",\n  \"credentialSubject\": {\n    \"claims\": [\n");
    let (x, y) = (types::statements(a.claims@), types::statements(b.claims@));
    assert forall|i: int| 0 <= i < x.len() implies unquoted((#[trigger] x[i]).label)
        && unquoted_value(x[i].value) by {
        assert(unquoted(a.claims@[i].label@));
    }
    assert forall|i: int| 0 <= i < y.len() implies unquoted((#[trigger] y[i]).label)
        && unquoted_value(y[i].value) by {
        assert(unquoted(b.claims@[i].label@));
    }
    let (ha, hb) = (claims_head(a), claims_head(b));
    assert(ha.last() == '\n' && hb.last() == '\n');
    assert(ha[ha.len() - 2] == '[' && hb[hb.len() - 2] == '[');
    lemma_same_claims(ha, x, hb, y);
    let (ia, ib) = (
        export::HEAD@ + a.credential_id@ + export::ISSUER@,
        export::HEAD@ + b.credential_id@ + export::ISSUER@,
    );
    assert(ia.last() == '"' && ib.last() == '"');
    text::lemma_same_end(ia + a.issuer_did@, ib + b.issuer_did@, export::CLAIMS@);
    lemma_same_text(ia, a.issuer_did@, ib, b.issuer_did@);
    text::lemma_same_end(export::HEAD@ + a.credential_id@, export::HEAD@ + b.credential_id@, export::ISSUER@);
    text::lemma_same_start(export::HEAD@, a.credential_id@, b.credential_id@);
}

/// An exported text determines what the credential says: its identifier, issuer,
/// claims, commitment, proof, window, shown labels and described predicates, where
/// none of them has quotes.
pub proof fn lemma_export_determines(a: VerifiableCredential, b: VerifiableCredential)
    requires
        export::credential_json(a) == export::credential_json(b),
        unquoted_credential(a),
        unquoted_credential(b),
    ensures
        a.credential_id@ == b.credential_id@,
        a.issuer_did@ == b.issuer_did@,
        types::statements(a.claims@) == types::statements(b.claims@),
        a.commitment@ == b.commitment@,
        a.proof_value@ == b.proof_value@,
        a.window_start == b.window_start,
        a.window_expires == b.window_expires,
        text::texts(a.revealed_labels@) == text::texts(b.revealed_labels@),
        text::texts(a.predicates_described@) == text::texts(b.predicates_described@),
{
    reveal_strlit("],\n    \"predicates\": [");
    reveal_strlit(",\n    \"revealedAttributes\": [");
    let (pa, pb) = (text::texts(a.predicates_described@), text::texts(b.predicates_described@));
    let (ra, rb) = (text::texts(a.revealed_labels@), text::texts(b.revealed_labels@));
    assert forall|i: int| 0 <= i < pa.len() implies unquoted(#[trigger] pa[i]) by {
        assert(unquoted(a.predicates_described@[i]@));
    }
    assert forall|i: int| 0 <= i < pb.len() implies unquoted(#[trigger] pb[i]) by {
        assert(unquoted(b.predicates_described@[i]@));
    }
    assert forall|i: int| 0 <= i < ra.len() implies unquoted(#[trigger] ra[i]) by {
        assert(unquoted(a.revealed_labels@[i]@));
    }
    assert forall|i: int| 0 <= i < rb.len() implies unquoted(#[trigger] rb[i]) by {
        assert(unquoted(b.revealed_labels@[i]@));
    }
    let (ma, mb) = (shown_part(a) + export::PREDICATES@, shown_part(b) + export::PREDICATES@);
    assert(ma.last() == '[' && mb.last() == '[');
    let la = text::joined(export::quoted_lines(pa), ", "@);
    let lb = text::joined(export::quoted_lines(pb), ", "@);
    assert(export::credential_json(a) == ma + la + export::TAIL@);
    assert(export::credential_json(b) == mb + lb + export::TAIL@);
    text::lemma_same_end(ma + la, mb + lb, export::TAIL@);
    lemma_same_list(ma, pa, mb, pb);
    text::lemma_same_end(shown_part(a), shown_part(b), export::PREDICATES@);
    let (wa, wb) = (window_part(a) + export::SHOWN@, window_part(b) + export::SHOWN@);
    assert(wa.last() == '[' && wb.last() == '[');
    lemma_same_list(wa, ra, wb, rb);
    text::lemma_same_end(window_part(a), window_part(b), export::SHOWN@);
    lemma_window_read(a, b);
    lemma_proof_read(a, b);
    lemma_head_read(a, b);
}

/// Each of joined texts is in the whole.
proof fn lemma_joined_holds(s: Seq<Seq<char>>, separator: Seq<char>, k: int)
    requires
        0 <= k < s.len(),
    ensures
        text::holds(text::joined(s, separator), s[k]),
    decreases s.len(),
{
    let none = Seq::<char>::empty();
    if s.len() == 1 {
        text::lemma_holds(s[0], none, s[0], none);
    } else {
        let rest = text::joined(s.drop_last(), separator);
        let all = text::joined(s, separator);
        if k == s.len() - 1 {
            text::lemma_holds(all, rest + separator, s[k], none);
        } else {
            lemma_joined_holds(s.drop_last(), separator, k);
            text::lemma_holds(all, none, rest, separator + s.last());
            text::lemma_holds_within(all, rest, s.drop_last()[k]);
        }
    }
}

/// The parts of an exported text that name the credential and its issuer.
proof fn lemma_head_says(c: VerifiableCredential)
    ensures
        text::holds(claims_head(c), "\"id\": \""@ + c.credential_id@ + "\""@),
        text::holds(claims_head(c), "\"issuer\": \""@ + c.issuer_did@ + "\""@),
{
    reveal_strlit(
        "{\n  \"@context\": [\n    \"https://www.w3.org/ns/credentials/v2\",\n    \"https://w3id.org/security/data-integrity/v2\",\n    \"https://w3id.org/security/poseidon-groth16-bn254-2026/v1\"\n  ],\n  \"id\": \"",
    );
    reveal_strlit("\",\n  \"type\": [\"VerifiableCredential\"],\n  \"issuer\": \"");
    reveal_strlit("\",\n  \"credentialSubject\": {\n    \"claims\": [\n");
    reveal_strlit("\"id\": \"");
    reveal_strlit("\"issuer\": \"");
    reveal_strlit("\"");
    let h = export::HEAD@;
    let i = export::ISSUER@;
    let e = export::CLAIMS@;
    let q = "\""@;
    let n = "\"id\": \""@;
    let m = "\"issuer\": \""@;
    let h0 = h.take(h.len() - n.len());
    let i0 = i.take(i.len() - m.len());
    assert(h =~= h0 + n);
    assert(i =~= i0 + m);
    assert(i =~= q + i.skip(1));
    assert(e =~= q + e.skip(1));
    let rest = i.skip(1) + c.issuer_did@ + e;
    text::lemma_holds(claims_head(c), h0, n + c.credential_id@ + q, rest);
    text::lemma_holds(claims_head(c), h + c.credential_id@ + i0, m + c.issuer_did@ + q, e.skip(1));
}

proof fn lemma_proof_says(c: VerifiableCredential)
    ensures
        text::holds(proof_part(c) + export::START@, "\"commitment\": \""@ + c.commitment@ + "\""@),
        text::holds(proof_part(c) + export::START@, "\"proofValue\": \""@ + c.proof_value@ + "\""@),
        text::holds(proof_part(c) + export::START@, claims_part(c)),
{
    reveal_strlit("\n    ],\n    \"commitment\": \"");
    reveal_strlit(
        "\"\n  },\n  \"proof\": {\n    \"type\": \"DataIntegrityProof\",\n    \"cryptosuite\": \"poseidon-groth16-bn254-2026\",\n    \"proofValue\": \"",
    );
    reveal_strlit("\",\n    \"windowStart\": ");
    reveal_strlit("\"commitment\": \"");
    reveal_strlit("\"proofValue\": \"");
    reveal_strlit("\"");
    let none = Seq::<char>::empty();
    let a = claims_part(c);
    let k = export::COMMITMENT@;
    let p = export::PROOF@;
    let w = export::START@;
    let q = "\""@;
    let n = "\"commitment\": \""@;
    let m = "\"proofValue\": \""@;
    let k0 = k.take(k.len() - n.len());
    let p0 = p.take(p.len() - m.len());
    assert(k =~= k0 + n);
    assert(p =~= p0 + m);
    assert(p =~= q + p.skip(1));
    assert(w =~= q + w.skip(1));
    let all = proof_part(c) + w;
    text::lemma_holds(all, a + k0, n + c.commitment@ + q, p.skip(1) + c.proof_value@ + w);
    text::lemma_holds(all, a + k + c.commitment@ + p0, m + c.proof_value@ + q, w.skip(1));
    text::lemma_holds(all, none, a, k + c.commitment@ + p + c.proof_value@ + w);
}

/// The ends of the window in an exported text.
proof fn lemma_window_says(c: VerifiableCredential)
    ensures
        text::holds(
            window_part(c) + export::SHOWN@,
            "\"windowStart\": "@ + text::decimal(c.window_start as nat) + ","@,
        ),
        text::holds(
            window_part(c) + export::SHOWN@,
            "\"windowExpires\": "@ + text::decimal(c.window_expires as nat) + ","@,
        ),
        text::holds(window_part(c) + export::SHOWN@, proof_part(c) + export::START@),
{
    reveal_strlit("\",\n    \"windowStart\": ");
    reveal_strlit(",\n    \"windowExpires\": ");
    reveal_strlit(",\n    \"revealedAttributes\": [");
    reveal_strlit("\"windowStart\": ");
    reveal_strlit("\"windowExpires\": ");
    reveal_strlit(",");
    let none = Seq::<char>::empty();
    let a = proof_part(c);
    let s = export::START@;
    let e = export::EXPIRES@;
    let r = export::SHOWN@;
    let n = "\"windowStart\": "@;
    let m = "\"windowExpires\": "@;
    let q = ","@;
    let ds = text::decimal(c.window_start as nat);
    let de = text::decimal(c.window_expires as nat);
    let s0 = s.take(s.len() - n.len());
    let e0 = e.take(e.len() - m.len());
    assert(s =~= s0 + n);
    assert(e =~= e0 + m);
    assert(e =~= q + e.skip(1));
    assert(r =~= q + r.skip(1));
    let all = window_part(c) + r;
    text::lemma_holds(all, a + s0, n + ds + q, e.skip(1) + de + r);
    text::lemma_holds(all, a + s + ds + e0, m + de + q, r.skip(1));
    text::lemma_holds(all, none, a + s, ds + e + de + r);
}

/// The texts in quotes, behind one another with commas between them.
pub open spec fn is_list_of(list: Seq<char>, items: Seq<Seq<char>>) -> bool
    decreases items.len(),
{
    if items.len() == 0 {
        list.len() == 0
    } else if items.len() == 1 {
        list == seq!['"'] + items[0] + seq!['"']
    } else {
        let end = seq![',', ' ', '"'] + items.last() + seq!['"'];
        let n = list.len() - end.len();
        n >= 0 && list.skip(n) == end && is_list_of(list.take(n), items.drop_last())
    }
}

proof fn lemma_list(items: Seq<Seq<char>>)
    ensures
        is_list_of(text::joined(export::quoted_lines(items), ", "@), items),
    decreases items.len(),
{
    reveal_strlit("\"");
    reveal_strlit(", ");
    let lines = export::quoted_lines(items);
    assert("\""@ =~= seq!['"']);
    let list = text::joined(lines, ", "@);
    if items.len() == 0 {
        assert(is_list_of(list, items));
    } else if items.len() == 1 {
        assert(list == seq!['"'] + items[0] + seq!['"']);
        assert(is_list_of(list, items));
    } else {
        let front = text::joined(export::quoted_lines(items.drop_last()), ", "@);
        lemma_list(items.drop_last());
        assert(lines.drop_last() =~= export::quoted_lines(items.drop_last()));
        assert(text::joined(lines, ", "@) =~= front + seq![',', ' ', '"'] + items.last() + seq![
            '"',
        ]);
        let end = seq![',', ' ', '"'] + items.last() + seq!['"'];
        let n = list.len() - end.len();
        assert(list =~= front + end);
        assert(list.skip(n) =~= end);
        assert(list.take(n) =~= front);
        assert(is_list_of(list, items));
    }
}

/// An exported text says, each under its name, the credential's identifier,
/// issuer, commitment, proof and window, every claim, the shown labels and, at the
/// end, the described predicates.
pub proof fn lemma_export_says(c: VerifiableCredential)
    ensures
        ({
            let json = export::credential_json(c);
            &&& text::holds(json, "\"id\": \""@ + c.credential_id@ + "\""@)
            &&& text::holds(json, "\"issuer\": \""@ + c.issuer_did@ + "\""@)
            &&& text::holds(json, "\"commitment\": \""@ + c.commitment@ + "\""@)
            &&& text::holds(json, "\"proofValue\": \""@ + c.proof_value@ + "\""@)
            &&& text::holds(
                json,
                "\"windowStart\": "@ + text::decimal(c.window_start as nat) + ","@,
            )
            &&& text::holds(
                json,
                "\"windowExpires\": "@ + text::decimal(c.window_expires as nat) + ","@,
            )
            &&& forall|i: int|
                0 <= i < c.claims@.len() ==> text::holds(
                    json,
                    "{\"label\": \""@ + (#[trigger] c.claims@[i]).label@ + "\", \"value\": "@ + (
                    match c.claims@[i].value {
                        types::ClaimValue::Text(s) => "\""@ + s@ + "\""@,
                        types::ClaimValue::Number(n) => text::decimal(n as nat),
                        types::ClaimValue::Boolean(b) => if b {
                            "true"@
                        } else {
                            "false"@
                        },
                    }) + "}"@,
                )
            &&& exists|before: Seq<char>, shown: Seq<char>, predicates: Seq<char>|
                {
                    &&& json == #[trigger] (before + "\"revealedAttributes\": ["@ + shown
                        + "],\n    \"predicates\": ["@ + predicates + "]\n  }\n}"@)
                    &&& is_list_of(shown, text::texts(c.revealed_labels@))
                    &&& is_list_of(predicates, text::texts(c.predicates_described@))
                }
        }),
{
    let json = export::credential_json(c);
    let none = Seq::<char>::empty();
    let r = export::SHOWN@;
    let p = export::PREDICATES@;
    let shown = text::joined(export::quoted_lines(text::texts(c.revealed_labels@)), ", "@);
    let predicates = text::joined(
        export::quoted_lines(text::texts(c.predicates_described@)),
        ", "@,
    );
    let w = window_part(c) + r;
    let s = proof_part(c) + export::START@;
    let lines = text::joined(export::claim_lines(types::statements(c.claims@)), ",\n"@);
    assert(json == shown_part(c) + p + predicates + export::TAIL@);
    text::lemma_holds(json, none, w, shown + p + predicates + export::TAIL@);
    lemma_window_says(c);
    lemma_proof_says(c);
    lemma_head_says(c);
    text::lemma_holds(claims_part(c), none, claims_head(c), lines);
    text::lemma_holds(claims_part(c), claims_head(c), lines, none);
    text::lemma_holds_within(json, w, s);
    text::lemma_holds_within(json, s, claims_part(c));
    text::lemma_holds_within(json, claims_part(c), claims_head(c));
    text::lemma_holds_within(json, claims_part(c), lines);
    text::lemma_holds_within(json, claims_head(c), "\"id\": \""@ + c.credential_id@ + "\""@);
    text::lemma_holds_within(json, claims_head(c), "\"issuer\": \""@ + c.issuer_did@ + "\""@);
    text::lemma_holds_within(json, s, "\"commitment\": \""@ + c.commitment@ + "\""@);
    text::lemma_holds_within(json, s, "\"proofValue\": \""@ + c.proof_value@ + "\""@);
    text::lemma_holds_within(
        json,
        w,
        "\"windowStart\": "@ + text::decimal(c.window_start as nat) + ","@,
    );
    text::lemma_holds_within(
        json,
        w,
        "\"windowExpires\": "@ + text::decimal(c.window_expires as nat) + ","@,
    );
    assert forall|i: int| 0 <= i < c.claims@.len() implies text::holds(
        json,
        "{\"label\": \""@ + (#[trigger] c.claims@[i]).label@ + "\", \"value\": "@ + (
        match c.claims@[i].value {
            types::ClaimValue::Text(s) => "\""@ + s@ + "\""@,
            types::ClaimValue::Number(n) => text::decimal(n as nat),
            types::ClaimValue::Boolean(b) => if b {
                "true"@
            } else {
                "false"@
            },
        }) + "}"@,
    ) by {
        reveal_strlit("      {\"label\": \"");
        reveal_strlit("{\"label\": \"");
        let x = c.claims@[i]@;
        let line = export::claim_json(x);
        let all = export::claim_lines(types::statements(c.claims@));
        let lead = "      {\"label\": \""@;
        let mark = "{\"label\": \""@;
        let end = "\", \"value\": "@;
        let part = mark + x.label + end + export::value_json(x.value) + "}"@;
        assert(lead =~= lead.take(6) + mark);
        assert(line == lead + x.label + end + export::value_json(x.value) + "}"@);
        text::lemma_holds(line, lead.take(6), part, none);
        assert(all[i] == line);
        lemma_joined_holds(all, ",\n"@, i);
        text::lemma_holds_within(json, lines, line);
        text::lemma_holds_within(json, line, part);
    }
    reveal_strlit(",\n    \"revealedAttributes\": [");
    reveal_strlit("\"revealedAttributes\": [");
    reveal_strlit("]\n  }\n}");
    let mark = "\"revealedAttributes\": ["@;
    let r0 = r.take(r.len() - mark.len());
    assert(r =~= r0 + mark);
    let before = window_part(c) + r0;
    lemma_list(text::texts(c.revealed_labels@));
    lemma_list(text::texts(c.predicates_described@));
    assert(window_part(c) + r =~= before + mark);
    assert(json == before + mark + shown + "],\n    \"predicates\": ["@ + predicates
        + "]\n  }\n}"@);
}

} // verus!
