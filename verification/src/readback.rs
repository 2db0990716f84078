//! A line of the sink determines its record.
//!
//! Nothing is lost on the way to the sink: two records with the same line
//! have the same block number, state root, time and subnets. Every number is
//! written with all its digits, and every field ends where its text says it
//! does.

use crate::digits::{
    all_digits, decimal, is_digit, lemma_decimal_is_digits, lemma_decimal_round_trip,
};
use crate::hexadecimal::{hex_encoded, lemma_hex_round_trip};
use crate::record::{
    record_json, record_line, subnet_json, subnets_json, BlockMetricsRecord, SubnetMetric,
};
use vstd::prelude::*;
use vstd::string::StringSliceAdditionalSpecFns;
use vstd::utf8::{is_ascii_chars, is_ascii_chars_encode_utf8};

verus! {

/// ASCII text has one byte for each character, the character's own code.
proof fn lemma_text_bytes(text: &str)
    requires
        is_ascii_chars(text@),
    ensures
        text.spec_bytes().len() == text@.len(),
        forall|i: int| 0 <= i < text@.len() ==> #[trigger] text.spec_bytes()[i] == text@[i] as u8,
{
    is_ascii_chars_encode_utf8(text@);
}

/// Two texts that begin with fields of one length agree field by field.
proof fn lemma_split_fixed(f1: Seq<u8>, r1: Seq<u8>, f2: Seq<u8>, r2: Seq<u8>)
    requires
        f1.len() == f2.len(),
        f1 + r1 == f2 + r2,
    ensures
        f1 == f2,
        r1 == r2,
{
    let whole = f1 + r1;
    assert(f1 =~= whole.take(f1.len() as int));
    assert(f2 =~= (f2 + r2).take(f2.len() as int));
    assert(r1 =~= whole.skip(f1.len() as int));
    assert(r2 =~= (f2 + r2).skip(f2.len() as int));
}

/// A run of digits ends at the first byte that is no digit: two texts that
/// begin with digits and go on with something else agree on the digits and
/// on what follows.
proof fn lemma_split_digits(d1: Seq<u8>, r1: Seq<u8>, d2: Seq<u8>, r2: Seq<u8>)
    requires
        all_digits(d1),
        all_digits(d2),
        r1.len() > 0,
        r2.len() > 0,
        !is_digit(r1[0]),
        !is_digit(r2[0]),
        d1 + r1 == d2 + r2,
    ensures
        d1 == d2,
        r1 == r2,
{
    let whole = d1 + r1;
    if d1.len() < d2.len() {
        assert(whole[d1.len() as int] == r1[0]);
        assert((d2 + r2)[d1.len() as int] == d2[d1.len() as int]);
        assert(is_digit(d2[d1.len() as int]));
    }
    if d2.len() < d1.len() {
        assert((d2 + r2)[d2.len() as int] == r2[0]);
        assert(whole[d2.len() as int] == d1[d2.len() as int]);
        assert(is_digit(d1[d2.len() as int]));
    }
    lemma_split_fixed(d1, r1, d2, r2);
}

/// Two numbers with the same decimal text, each followed by something that
/// is no digit, are the same number and are followed by the same.
proof fn lemma_split_decimal(n1: nat, r1: Seq<u8>, n2: nat, r2: Seq<u8>)
    requires
        r1.len() > 0,
        r2.len() > 0,
        !is_digit(r1[0]),
        !is_digit(r2[0]),
        decimal(n1) + r1 == decimal(n2) + r2,
    ensures
        n1 == n2,
        r1 == r2,
{
    lemma_decimal_is_digits(n1);
    lemma_decimal_is_digits(n2);
    lemma_split_digits(decimal(n1), r1, decimal(n2), r2);
    lemma_decimal_round_trip(n1);
    lemma_decimal_round_trip(n2);
}

/// Ten pieces joined one after the other make the same text, however the
/// joins are grouped.
proof fn lemma_regroup(
    s1: Seq<u8>,
    s2: Seq<u8>,
    s3: Seq<u8>,
    s4: Seq<u8>,
    s5: Seq<u8>,
    s6: Seq<u8>,
    s7: Seq<u8>,
    s8: Seq<u8>,
    s9: Seq<u8>,
    s10: Seq<u8>,
)
    ensures
        s1 + s2 + s3 + s4 + s5 + s6 + s7 + s8 + s9 + s10 == s1 + (s2 + (s3 + (s4 + (s5 + (s6 + (s7
            + (s8 + (s9 + s10)))))))),
{
    assert(s1 + s2 + s3 + s4 + s5 + s6 + s7 + s8 + s9 + s10 =~= s1 + (s2 + (s3 + (s4 + (s5 + (s6
        + (s7 + (s8 + (s9 + s10)))))))));
}

/// What begins with a piece that begins with a byte that is no digit begins
/// with that byte.
proof fn lemma_begins(piece: Seq<u8>, rest: Seq<u8>)
    requires
        piece.len() > 0,
    ensures
        (piece + rest).len() > 0,
        (piece + rest)[0] == piece[0],
{
}

/// Four numbers between five fixed pieces, and what follows them, can be
/// read back from the text if each number is followed by a byte that is no
/// digit.
proof fn lemma_four_numbers(
    k1: Seq<u8>,
    k2: Seq<u8>,
    k3: Seq<u8>,
    k4: Seq<u8>,
    k5: Seq<u8>,
    a: (nat, nat, nat, nat),
    ra: Seq<u8>,
    b: (nat, nat, nat, nat),
    rb: Seq<u8>,
)
    requires
        k2.len() > 0 && !is_digit(k2[0]),
        k3.len() > 0 && !is_digit(k3[0]),
        k4.len() > 0 && !is_digit(k4[0]),
        k5.len() > 0 && !is_digit(k5[0]),
        k1 + (decimal(a.0) + (k2 + (decimal(a.1) + (k3 + (decimal(a.2) + (k4 + (decimal(a.3) + (k5
            + ra)))))))) == k1 + (decimal(b.0) + (k2 + (decimal(b.1) + (k3 + (decimal(b.2) + (k4
            + (decimal(b.3) + (k5 + rb)))))))),
    ensures
        a == b,
        ra == rb,
{
    let a4 = k4 + (decimal(a.3) + (k5 + ra));
    let a3 = k3 + (decimal(a.2) + a4);
    let a2 = k2 + (decimal(a.1) + a3);
    let b4 = k4 + (decimal(b.3) + (k5 + rb));
    let b3 = k3 + (decimal(b.2) + b4);
    let b2 = k2 + (decimal(b.1) + b3);
    lemma_split_fixed(k1, decimal(a.0) + a2, k1, decimal(b.0) + b2);
    lemma_begins(k2, decimal(a.1) + a3);
    lemma_begins(k2, decimal(b.1) + b3);
    lemma_split_decimal(a.0, a2, b.0, b2);
    lemma_split_fixed(k2, decimal(a.1) + a3, k2, decimal(b.1) + b3);
    lemma_begins(k3, decimal(a.2) + a4);
    lemma_begins(k3, decimal(b.2) + b4);
    lemma_split_decimal(a.1, a3, b.1, b3);
    lemma_split_fixed(k3, decimal(a.2) + a4, k3, decimal(b.2) + b4);
    lemma_begins(k4, decimal(a.3) + (k5 + ra));
    lemma_begins(k4, decimal(b.3) + (k5 + rb));
    lemma_split_decimal(a.2, a4, b.2, b4);
    lemma_split_fixed(k4, decimal(a.3) + (k5 + ra), k4, decimal(b.3) + (k5 + rb));
    lemma_begins(k5, ra);
    lemma_begins(k5, rb);
    lemma_split_decimal(a.3, k5 + ra, b.3, k5 + rb);
    lemma_split_fixed(k5, ra, k5, rb);
}

/// The fixed pieces of the JSON object of a subnet, but for the first, begin
/// with a byte that is no digit.
proof fn lemma_subnet_pieces()
    ensures
        ",\"stake_total\":\"".spec_bytes().len() > 0,
        ",\"stake_total\":\"".spec_bytes()[0] == 44,
        "\",\"emission_per_block\":\"".spec_bytes().len() > 0,
        "\",\"emission_per_block\":\"".spec_bytes()[0] == 34,
        "\",\"participants\":".spec_bytes().len() > 0,
        "\",\"participants\":".spec_bytes()[0] == 34,
        "}".spec_bytes().len() > 0,
        "}".spec_bytes()[0] == 125,
        "{\"netuid\":".spec_bytes().len() > 0,
        "{\"netuid\":".spec_bytes()[0] == 123,
        ",".spec_bytes().len() == 1,
        ",".spec_bytes()[0] == 44,
{
    reveal_strlit("{\"netuid\":");
    reveal_strlit(",\"stake_total\":\"");
    reveal_strlit("\",\"emission_per_block\":\"");
    reveal_strlit("\",\"participants\":");
    reveal_strlit("}");
    reveal_strlit(",");
    lemma_text_bytes("{\"netuid\":");
    lemma_text_bytes(",\"stake_total\":\"");
    lemma_text_bytes("\",\"emission_per_block\":\"");
    lemma_text_bytes("\",\"participants\":");
    lemma_text_bytes("}");
    lemma_text_bytes(",");
}

/// Two subnets with the same JSON object, whatever follows it, are the same
/// subnet and are followed by the same.
proof fn lemma_subnet_read_back(a: SubnetMetric, ra: Seq<u8>, b: SubnetMetric, rb: Seq<u8>)
    requires
        subnet_json(a) + ra == subnet_json(b) + rb,
    ensures
        a == b,
        ra == rb,
{
    lemma_subnet_pieces();
    let k1 = "{\"netuid\":".spec_bytes();
    let k2 = ",\"stake_total\":\"".spec_bytes();
    let k3 = "\",\"emission_per_block\":\"".spec_bytes();
    let k4 = "\",\"participants\":".spec_bytes();
    let k5 = "}".spec_bytes();
    lemma_regroup(
        k1,
        decimal(a.id as nat),
        k2,
        decimal(a.stake_total as nat),
        k3,
        decimal(a.emission_per_block as nat),
        k4,
        decimal(a.participant_count as nat),
        k5,
        ra,
    );
    lemma_regroup(
        k1,
        decimal(b.id as nat),
        k2,
        decimal(b.stake_total as nat),
        k3,
        decimal(b.emission_per_block as nat),
        k4,
        decimal(b.participant_count as nat),
        k5,
        rb,
    );
    lemma_four_numbers(
        k1,
        k2,
        k3,
        k4,
        k5,
        (
            a.id as nat,
            a.stake_total as nat,
            a.emission_per_block as nat,
            a.participant_count as nat,
        ),
        ra,
        (
            b.id as nat,
            b.stake_total as nat,
            b.emission_per_block as nat,
            b.participant_count as nat,
        ),
        rb,
    );
}

/// What follows the first subnet of a list that is followed by `tail`.
spec fn after_first(subnets: Seq<SubnetMetric>, tail: Seq<u8>) -> Seq<u8> {
    if subnets.len() == 1 {
        tail
    } else {
        ",".spec_bytes() + (subnets_json(subnets.skip(1)) + tail)
    }
}

/// The text of a list of subnets, read from its first subnet on.
proof fn lemma_subnets_from_first(subnets: Seq<SubnetMetric>)
    requires
        subnets.len() >= 2,
    ensures
        subnets_json(subnets) == subnet_json(subnets[0]) + (",".spec_bytes() + subnets_json(
            subnets.skip(1),
        )),
    decreases subnets.len(),
{
    let comma = ",".spec_bytes();
    let front = subnets.drop_last();
    let rest = subnets.skip(1);
    let first = subnet_json(subnets[0]);
    let last = subnet_json(subnets.last());
    assert(rest.drop_last() =~= front.skip(1));
    assert(rest.last() == subnets.last());
    assert(front[0] == subnets[0]);
    assert(subnets_json(subnets) == subnets_json(front) + comma + last);
    if subnets.len() == 2 {
        assert(rest[0] == subnets[1]);
        assert(subnets_json(front) == first);
        assert(subnets_json(rest) == last);
        assert(first + comma + last =~= first + (comma + last));
    } else {
        lemma_subnets_from_first(front);
        let middle = subnets_json(front.skip(1));
        assert(subnets_json(front) == first + (comma + middle));
        assert(subnets_json(rest) == middle + comma + last);
        assert((first + (comma + middle)) + comma + last =~= first + (comma + (middle + comma
            + last)));
    }
}

/// A list of subnets that is not empty, followed by `tail`, is its first
/// subnet followed by the rest.
proof fn lemma_subnets_head(subnets: Seq<SubnetMetric>, tail: Seq<u8>)
    requires
        subnets.len() >= 1,
        tail.len() > 0,
    ensures
        subnets_json(subnets) + tail == subnet_json(subnets[0]) + after_first(subnets, tail),
        (subnets_json(subnets) + tail)[0] == 123,
        after_first(subnets, tail).len() > 0,
        after_first(subnets, tail)[0] == (if subnets.len() == 1 {
            tail[0]
        } else {
            44u8
        }),
{
    lemma_subnet_pieces();
    let comma = ",".spec_bytes();
    let first = subnet_json(subnets[0]);
    lemma_begins("{\"netuid\":".spec_bytes(), Seq::<u8>::empty());
    assert(first.len() > 0 && first[0] == 123) by {
        lemma_regroup(
            "{\"netuid\":".spec_bytes(),
            decimal(subnets[0].id as nat),
            ",\"stake_total\":\"".spec_bytes(),
            decimal(subnets[0].stake_total as nat),
            "\",\"emission_per_block\":\"".spec_bytes(),
            decimal(subnets[0].emission_per_block as nat),
            "\",\"participants\":".spec_bytes(),
            decimal(subnets[0].participant_count as nat),
            "}".spec_bytes(),
            Seq::<u8>::empty(),
        );
        assert(first + Seq::<u8>::empty() =~= first);
    }
    if subnets.len() == 1 {
        assert(subnets_json(subnets) == first);
    } else {
        lemma_subnets_from_first(subnets);
        let rest = subnets_json(subnets.skip(1));
        assert((first + (comma + rest)) + tail =~= first + (comma + (rest + tail)));
        lemma_begins(comma, rest + tail);
    }
    lemma_begins(first, after_first(subnets, tail));
}

/// Two lists of subnets with the same text, each followed by the bracket
/// that closes the list, are the same list.
proof fn lemma_subnets_read_back(a: Seq<SubnetMetric>, b: Seq<SubnetMetric>, tail: Seq<u8>)
    requires
        tail.len() > 0,
        tail[0] == 93,
        subnets_json(a) + tail == subnets_json(b) + tail,
    ensures
        a == b,
    decreases a.len(),
{
    if a.len() == 0 || b.len() == 0 {
        if a.len() > 0 {
            lemma_subnets_head(a, tail);
            assert(subnets_json(b) + tail =~= tail);
        }
        if b.len() > 0 {
            lemma_subnets_head(b, tail);
            assert(subnets_json(a) + tail =~= tail);
        }
        assert(a =~= b);
    } else {
        lemma_subnets_head(a, tail);
        lemma_subnets_head(b, tail);
        lemma_subnet_read_back(a[0], after_first(a, tail), b[0], after_first(b, tail));
        if a.len() == 1 && b.len() == 1 {
            assert(a =~= b);
        } else if a.len() == 1 || b.len() == 1 {
            assert(after_first(a, tail)[0] != after_first(b, tail)[0]);
        } else {
            lemma_split_fixed(
                ",".spec_bytes(),
                subnets_json(a.skip(1)) + tail,
                ",".spec_bytes(),
                subnets_json(b.skip(1)) + tail,
            );
            lemma_subnets_read_back(a.skip(1), b.skip(1), tail);
            assert(a =~= seq![a[0]] + a.skip(1));
            assert(b =~= seq![b[0]] + b.skip(1));
        }
    }
}

/// The fixed pieces of the JSON object of a record that follow a number
/// begin with a byte that is no digit, and the end of the line begins with
/// the bracket that closes the list of subnets.
proof fn lemma_record_pieces()
    ensures
        ",\"state_root\":\"".spec_bytes().len() > 0,
        ",\"state_root\":\"".spec_bytes()[0] == 44,
        ",\"subnets\":[".spec_bytes().len() > 0,
        ",\"subnets\":[".spec_bytes()[0] == 44,
        "]}".spec_bytes().len() > 0,
        "]}".spec_bytes()[0] == 93,
{
    reveal_strlit(",\"state_root\":\"");
    reveal_strlit(",\"subnets\":[");
    reveal_strlit("]}");
    lemma_text_bytes(",\"state_root\":\"");
    lemma_text_bytes(",\"subnets\":[");
    lemma_text_bytes("]}");
}

/// Two numbers, a field of fixed length between them, and what follows
/// them, can be read back from the text if each number is followed by a
/// byte that is no digit.
proof fn lemma_record_fields(
    r1: Seq<u8>,
    r2: Seq<u8>,
    r3: Seq<u8>,
    r4: Seq<u8>,
    a: (nat, Seq<u8>, nat),
    xa: Seq<u8>,
    b: (nat, Seq<u8>, nat),
    xb: Seq<u8>,
)
    requires
        r2.len() > 0 && !is_digit(r2[0]),
        r4.len() > 0 && !is_digit(r4[0]),
        a.1.len() == b.1.len(),
        r1 + (decimal(a.0) + (r2 + (a.1 + (r3 + (decimal(a.2) + (r4 + xa)))))) == r1 + (decimal(
            b.0,
        ) + (r2 + (b.1 + (r3 + (decimal(b.2) + (r4 + xb)))))),
    ensures
        a == b,
        xa == xb,
{
    let a3 = r3 + (decimal(a.2) + (r4 + xa));
    let a2 = r2 + (a.1 + a3);
    let b3 = r3 + (decimal(b.2) + (r4 + xb));
    let b2 = r2 + (b.1 + b3);
    lemma_split_fixed(r1, decimal(a.0) + a2, r1, decimal(b.0) + b2);
    lemma_begins(r2, a.1 + a3);
    lemma_begins(r2, b.1 + b3);
    lemma_split_decimal(a.0, a2, b.0, b2);
    lemma_split_fixed(r2, a.1 + a3, r2, b.1 + b3);
    lemma_split_fixed(a.1, a3, b.1, b3);
    lemma_split_fixed(r3, decimal(a.2) + (r4 + xa), r3, decimal(b.2) + (r4 + xb));
    lemma_begins(r4, xa);
    lemma_begins(r4, xb);
    lemma_split_decimal(a.2, r4 + xa, b.2, r4 + xb);
    lemma_split_fixed(r4, xa, r4, xb);
}

/// A line determines its record: two records with the same line have the
/// same block number, the same state root, the same time and the same
/// subnets in the same order.
pub proof fn lemma_line_determines_record(a: BlockMetricsRecord, b: BlockMetricsRecord)
    requires
        record_line(a) == record_line(b),
    ensures
        a.block_number == b.block_number,
        a.state_root == b.state_root,
        a.timestamp_ms == b.timestamp_ms,
        a.subnets@ == b.subnets@,
{
    lemma_record_pieces();
    let r1 = "{\"block_number\":".spec_bytes();
    let r2 = ",\"state_root\":\"".spec_bytes();
    let r3 = "\",\"timestamp_ms\":".spec_bytes();
    let r4 = ",\"subnets\":[".spec_bytes();
    let r5 = "]}".spec_bytes();
    let end = "\n".spec_bytes();
    let tail = r5 + end;
    lemma_begins(r5, end);
    lemma_hex_round_trip(a.state_root.bytes@);
    lemma_hex_round_trip(b.state_root.bytes@);
    let xa = subnets_json(a.subnets@) + tail;
    let xb = subnets_json(b.subnets@) + tail;
    assert(record_line(a) == r1 + (decimal(a.block_number as nat) + (r2 + (a.state_root.text() + (
    r3 + (decimal(a.timestamp_ms as nat) + (r4 + xa))))))) by {
        lemma_regroup(
            r1,
            decimal(a.block_number as nat),
            r2,
            a.state_root.text(),
            r3,
            decimal(a.timestamp_ms as nat),
            r4,
            subnets_json(a.subnets@),
            r5,
            end,
        );
        assert(subnets_json(a.subnets@) + (r5 + end) == xa);
    }
    assert(record_line(b) == r1 + (decimal(b.block_number as nat) + (r2 + (b.state_root.text() + (
    r3 + (decimal(b.timestamp_ms as nat) + (r4 + xb))))))) by {
        lemma_regroup(
            r1,
            decimal(b.block_number as nat),
            r2,
            b.state_root.text(),
            r3,
            decimal(b.timestamp_ms as nat),
            r4,
            subnets_json(b.subnets@),
            r5,
            end,
        );
        assert(subnets_json(b.subnets@) + (r5 + end) == xb);
    }
    lemma_record_fields(
        r1,
        r2,
        r3,
        r4,
        (a.block_number as nat, a.state_root.text(), a.timestamp_ms as nat),
        xa,
        (b.block_number as nat, b.state_root.text(), b.timestamp_ms as nat),
        xb,
    );
    lemma_split_fixed(
        seq![48u8, 120u8],
        hex_encoded(a.state_root.bytes@),
        seq![48u8, 120u8],
        hex_encoded(b.state_root.bytes@),
    );
    assert(a.state_root.bytes@ =~= b.state_root.bytes@);
    assert(a.state_root.bytes == b.state_root.bytes);
    lemma_subnets_read_back(a.subnets@, b.subnets@, tail);
}

} // verus!
