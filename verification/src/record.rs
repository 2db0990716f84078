//! The record of one produced block and its line in the sink.
//!
//! A record goes to the sink as one JSON object on a line of its own:
//!
//! ```text
//! {"block_number":7,"state_root":"0x...","timestamp_ms":42,"subnets":[{"netuid":1,
//! "stake_total":"1000","emission_per_block":"5","participants":3}]}
//! ```
//!
//! (one line; broken here to fit). The state root is `0x` and 64 lower-case
//! hexadecimal digits. Stake and emission are decimal text inside quotes, so
//! that no reader rounds them; the other numbers are plain JSON numbers. The
//! subnets keep the order in which they were reported.

use crate::digits::{decimal, lemma_decimal_is_digits, push_decimal};
use crate::hexadecimal::hex_encoded;
use crate::start::BlockHash;
use vstd::prelude::*;
use vstd::string::StringSliceAdditionalSpecFns;
use vstd::utf8::{is_ascii_chars, is_ascii_chars_encode_utf8};

verus! {

/// The economic figures of one subnet after a block.
#[derive(Clone, Copy, Debug, PartialEq, Eq)]
pub struct SubnetMetric {
    /// The subnet's identifier (`netuid`).
    pub id: u16,
    /// Total stake in the subnet.
    pub stake_total: u128,
    /// Emission that the subnet receives with each block.
    pub emission_per_block: u128,
    /// Number of participants registered in the subnet.
    pub participant_count: u64,
}

/// What the metrics query reports of one produced block.
#[derive(Clone, Debug, PartialEq, Eq)]
pub struct BlockMetricsRecord {
    /// Height of the block.
    pub block_number: u64,
    /// Hash of the state after the block.
    pub state_root: BlockHash,
    /// The time that the block carries, in milliseconds.
    pub timestamp_ms: u64,
    /// The subnets, in the order in which the query reported them.
    pub subnets: Vec<SubnetMetric>,
}

/// The JSON object of one subnet.
pub open spec fn subnet_json(metric: SubnetMetric) -> Seq<u8> {
    "{\"netuid\":".spec_bytes() + decimal(metric.id as nat)
        + ",\"stake_total\":\"".spec_bytes() + decimal(metric.stake_total as nat)
        + "\",\"emission_per_block\":\"".spec_bytes() + decimal(metric.emission_per_block as nat)
        + "\",\"participants\":".spec_bytes() + decimal(metric.participant_count as nat)
        + "}".spec_bytes()
}

/// The JSON objects of the subnets in their order, with a comma between
/// each two.
pub open spec fn subnets_json(subnets: Seq<SubnetMetric>) -> Seq<u8>
    decreases subnets.len(),
{
    if subnets.len() == 0 {
        Seq::empty()
    } else if subnets.len() == 1 {
        subnet_json(subnets[0])
    } else {
        subnets_json(subnets.drop_last()) + ",".spec_bytes() + subnet_json(subnets.last())
    }
}

/// The JSON object of a record.
pub open spec fn record_json(record: BlockMetricsRecord) -> Seq<u8> {
    "{\"block_number\":".spec_bytes() + decimal(record.block_number as nat)
        + ",\"state_root\":\"".spec_bytes() + record.state_root.text()
        + "\",\"timestamp_ms\":".spec_bytes() + decimal(record.timestamp_ms as nat)
        + ",\"subnets\":[".spec_bytes() + subnets_json(record.subnets@) + "]}".spec_bytes()
}

/// The line of a record in the sink: its JSON object and a line feed.
pub open spec fn record_line(record: BlockMetricsRecord) -> Seq<u8> {
    record_json(record) + "\n".spec_bytes()
}

/// Whether every byte of `text` is a printable ASCII character. Such text
/// holds no line feed and no other control character.
pub open spec fn is_printable(text: Seq<u8>) -> bool {
    forall|i: int| 0 <= i < text.len() ==> 32 <= #[trigger] text[i] < 127
}

/// Text made of printable ASCII characters keeps them as its bytes.
proof fn lemma_printable_text(text: &str)
    requires
        forall|i: int| 0 <= i < text@.len() ==> ' ' <= #[trigger] text@[i] <= '~',
    ensures
        is_printable(text.spec_bytes()),
{
    assert(is_ascii_chars(text@));
    is_ascii_chars_encode_utf8(text@);
    assert forall|i: int| 0 <= i < text.spec_bytes().len() implies 32 <= #[trigger] text.spec_bytes()[i] < 127 by {
        assert(' ' <= text@[i] <= '~');
    }
}

proof fn lemma_decimal_printable(n: nat)
    ensures
        is_printable(decimal(n)),
{
    lemma_decimal_is_digits(n);
}

proof fn lemma_subnet_printable(metric: SubnetMetric)
    ensures
        is_printable(subnet_json(metric)),
{
    reveal_strlit("{\"netuid\":");
    reveal_strlit(",\"stake_total\":\"");
    reveal_strlit("\",\"emission_per_block\":\"");
    reveal_strlit("\",\"participants\":");
    reveal_strlit("}");
    lemma_printable_text("{\"netuid\":");
    lemma_printable_text(",\"stake_total\":\"");
    lemma_printable_text("\",\"emission_per_block\":\"");
    lemma_printable_text("\",\"participants\":");
    lemma_printable_text("}");
    lemma_decimal_printable(metric.id as nat);
    lemma_decimal_printable(metric.stake_total as nat);
    lemma_decimal_printable(metric.emission_per_block as nat);
    lemma_decimal_printable(metric.participant_count as nat);
}

proof fn lemma_subnets_printable(subnets: Seq<SubnetMetric>)
    ensures
        is_printable(subnets_json(subnets)),
    decreases subnets.len(),
{
    if subnets.len() == 1 {
        lemma_subnet_printable(subnets[0]);
    } else if subnets.len() > 1 {
        reveal_strlit(",");
        lemma_printable_text(",");
        lemma_subnets_printable(subnets.drop_last());
        lemma_subnet_printable(subnets.last());
    }
}

/// A record takes exactly one line: its JSON object is made of printable
/// ASCII characters only, and the one line feed of its line is the last
/// byte. So a sink that holds the lines of `n` records holds `n` lines.
pub proof fn lemma_record_line_is_one_line(record: BlockMetricsRecord)
    ensures
        is_printable(record_json(record)),
        record_line(record) == record_json(record).push(10u8),
{
    reveal_strlit("{\"block_number\":");
    reveal_strlit(",\"state_root\":\"");
    reveal_strlit("\",\"timestamp_ms\":");
    reveal_strlit(",\"subnets\":[");
    reveal_strlit("]}");
    reveal_strlit("\n");
    lemma_printable_text("{\"block_number\":");
    lemma_printable_text(",\"state_root\":\"");
    lemma_printable_text("\",\"timestamp_ms\":");
    lemma_printable_text(",\"subnets\":[");
    lemma_printable_text("]}");
    lemma_decimal_printable(record.block_number as nat);
    lemma_decimal_printable(record.timestamp_ms as nat);
    lemma_subnets_printable(record.subnets@);
    let root = record.state_root.text();
    assert forall|i: int| 0 <= i < root.len() implies 32 <= #[trigger] root[i] < 127 by {
        if i >= 2 {
            let b = record.state_root.bytes@[(i - 2) / 2];
            assert(0 <= b / 16 < 16 && 0 <= b % 16 < 16);
            assert(root[i] == hex_encoded(record.state_root.bytes@)[i - 2]);
        }
    }
    assert(is_ascii_chars("\n"@));
    is_ascii_chars_encode_utf8("\n"@);
    assert("\n".spec_bytes() =~= seq![10u8]);
    assert(record_line(record) =~= record_json(record).push(10u8));
}

/// Appends the bytes of `text` to `out`.
fn push_text(out: &mut Vec<u8>, text: &str)
    ensures
        final(out)@ == old(out)@ + text.spec_bytes(),
{
    out.extend_from_slice(text.as_bytes());
    assert(out@ =~= old(out)@ + text.spec_bytes());
}

/// Appends the JSON object of one subnet to `out`.
fn push_subnet(out: &mut Vec<u8>, metric: &SubnetMetric)
    ensures
        final(out)@ == old(out)@ + subnet_json(*metric),
{
    push_text(out, "{\"netuid\":");
    push_decimal(out, metric.id as u128);
    push_text(out, ",\"stake_total\":\"");
    push_decimal(out, metric.stake_total);
    push_text(out, "\",\"emission_per_block\":\"");
    push_decimal(out, metric.emission_per_block);
    push_text(out, "\",\"participants\":");
    push_decimal(out, metric.participant_count as u128);
    push_text(out, "}");
    assert(out@ =~= old(out)@ + subnet_json(*metric));
}

impl BlockMetricsRecord {
    /// The line that holds this record in the sink, line feed included.
    pub fn to_json_line(&self) -> (line: Vec<u8>)
        ensures
            line@ == record_line(*self),
    {
        let mut out: Vec<u8> = Vec::new();
        push_text(&mut out, "{\"block_number\":");
        push_decimal(&mut out, self.block_number as u128);
        push_text(&mut out, ",\"state_root\":\"");
        let mut root: Vec<u8> = self.state_root.to_text();
        out.append(&mut root);
        push_text(&mut out, "\",\"timestamp_ms\":");
        push_decimal(&mut out, self.timestamp_ms as u128);
        push_text(&mut out, ",\"subnets\":[");
        let ghost head = out@;
        let count: usize = self.subnets.len();
        let mut i: usize = 0;
        while i < count
            invariant
                0 <= i <= count,
                count == self.subnets@.len(),
                out@ == head + subnets_json(self.subnets@.take(i as int)),
            decreases count - i,
        {
            let ghost before = self.subnets@.take(i as int);
            let ghost after = self.subnets@.take(i + 1);
            proof {
                assert(after.drop_last() =~= before);
                assert(after.last() == self.subnets@[i as int]);
            }
            if i > 0 {
                push_text(&mut out, ",");
            }
            push_subnet(&mut out, &self.subnets[i]);
            proof {
                if i == 0 {
                    assert(before =~= Seq::<SubnetMetric>::empty());
                    assert(out@ =~= head + subnets_json(after));
                } else {
                    assert(out@ =~= head + subnets_json(after));
                }
            }
            i = i + 1;
        }
        proof {
            assert(self.subnets@.take(count as int) =~= self.subnets@);
        }
        push_text(&mut out, "]}");
        push_text(&mut out, "\n");
        assert(out@ =~= record_line(*self));
        out
    }
}

} // verus!
