//! What a node reports about itself: its place among the validators, the work it
//! has done since the last report, and the blocks and chunks that each validator
//! produced.

use vstd::prelude::*;
use vstd::string::StringExecFns;
use crate::text::{append_chars, decimal_digits, format_decimal, pad_left, padded};

verus! {

/// Whether this node validates, and how many validators there are.
pub struct ValidatorInfoHelper {
    pub is_validator: bool,
    pub num_validators: usize,
}

/// The ending of a noun for `num` things: none for one, `s` for any other
/// number.
pub fn plural_suffix(num: usize) -> (suffix: &'static str)
    ensures
        suffix@ == if num == 1 {
            ""@
        } else {
            "s"@
        },
{
    if num == 1 {
        ""
    } else {
        "s"
    }
}

/// What the summary says of the validators: a blank, `Validator | ` where this
/// node is one, the number of validators, and `validator` or `validators`.
pub fn validator_info_log(info: &ValidatorInfoHelper) -> (log: String)
    ensures
        log@ == " "@ + (if info.is_validator {
            "Validator | "@
        } else {
            ""@
        }) + decimal_digits(info.num_validators as nat) + " validator"@ + (if info.num_validators
            == 1 {
            ""@
        } else {
            "s"@
        }),
{
    let mut log = " ".to_owned();
    log.append(if info.is_validator { "Validator | " } else { "" });
    append_chars(&mut log, &format_decimal(info.num_validators as u64));
    log.append(" validator");
    log.append(plural_suffix(info.num_validators));
    log
}

/// The work done since the last report.
pub struct ProcessedBlocks {
    /// Total number of blocks processed.
    pub num_blocks_processed: u64,
    /// Total number of chunks in the blocks processed.
    pub num_chunks_in_blocks_processed: u64,
    /// Total gas used.
    pub gas_used: u64,
}

impl ProcessedBlocks {
    /// Nothing processed yet.
    pub fn new() -> (counts: ProcessedBlocks)
        ensures
            counts.num_blocks_processed == 0,
            counts.num_chunks_in_blocks_processed == 0,
            counts.gas_used == 0,
    {
        ProcessedBlocks { num_blocks_processed: 0, num_chunks_in_blocks_processed: 0, gas_used: 0 }
    }

    /// Whether one more block with `num_chunks` chunks and `gas_used` gas can be
    /// counted without leaving the range of the counters.
    pub open spec fn has_room(&self, gas_used: u64, num_chunks: u64) -> bool {
        &&& self.num_blocks_processed < u64::MAX
        &&& self.num_chunks_in_blocks_processed + num_chunks <= u64::MAX
        &&& self.gas_used + gas_used <= u64::MAX
    }

    /// Whether one more block can be counted; see `has_room`.
    pub fn can_count(&self, gas_used: u64, num_chunks: u64) -> (fits: bool)
        ensures
            fits == self.has_room(gas_used, num_chunks),
    {
        self.num_blocks_processed < u64::MAX && num_chunks <= u64::MAX
            - self.num_chunks_in_blocks_processed && gas_used <= u64::MAX - self.gas_used
    }

    /// Counts one block with its chunks and the gas it used.
    pub fn block_processed(&mut self, gas_used: u64, num_chunks: u64)
        requires
            old(self).has_room(gas_used, num_chunks),
        ensures
            final(self).num_blocks_processed == old(self).num_blocks_processed + 1,
            final(self).num_chunks_in_blocks_processed == old(self).num_chunks_in_blocks_processed
                + num_chunks,
            final(self).gas_used == old(self).gas_used + gas_used,
    {
        self.num_blocks_processed = self.num_blocks_processed + 1;
        self.num_chunks_in_blocks_processed = self.num_chunks_in_blocks_processed + num_chunks;
        self.gas_used = self.gas_used + gas_used;
    }
}

/// How a quantity is printed: as it is where `decimals` is 0, else divided by
/// `divisor` and with `decimals` digits behind the point; the unit follows.
pub struct PrettyNumber {
    pub divisor: u64,
    pub decimals: u8,
    pub unit: &'static str,
}

/// How a number of bytes per second is printed: below 100 in bytes, below one
/// MiB in kiB with one decimal, and from there on in MiB with one decimal.
pub fn pretty_bytes_per_sec(num: u64) -> (pretty: PrettyNumber)
    ensures
        num < 100 ==> pretty.divisor == 1 && pretty.decimals == 0 && pretty.unit@ == " B/s"@,
        100 <= num < 0x10_0000 ==> pretty.divisor == 1024 && pretty.decimals == 1 && pretty.unit@
            == "kiB/s"@,
        0x10_0000 <= num ==> pretty.divisor == 0x10_0000 && pretty.decimals == 1 && pretty.unit@
            == "MiB/s"@,
{
    if num < 100 {
        // Under 0.1 kiB, display in bytes.
        PrettyNumber { divisor: 1, decimals: 0, unit: " B/s" }
    } else if num < 0x10_0000 {
        // Under 1.0 MiB/sec display in kiB/sec.
        PrettyNumber { divisor: 1024, decimals: 1, unit: "kiB/s" }
    } else {
        PrettyNumber { divisor: 0x10_0000, decimals: 1, unit: "MiB/s" }
    }
}

/// How a number of bytes is printed: below 1024 in bytes, then in kiB, MiB or
/// GiB with one decimal, in the largest of these units that the number reaches.
pub fn pretty_bytes(num: u64) -> (pretty: PrettyNumber)
    ensures
        num < 1024 ==> pretty.divisor == 1 && pretty.decimals == 0 && pretty.unit@ == " B"@,
        1024 <= num < 0x10_0000 ==> pretty.divisor == 1024 && pretty.decimals == 1 && pretty.unit@
            == " kiB"@,
        0x10_0000 <= num < 0x4000_0000 ==> pretty.divisor == 0x10_0000 && pretty.decimals == 1
            && pretty.unit@ == " MiB"@,
        0x4000_0000 <= num ==> pretty.divisor == 0x4000_0000 && pretty.decimals == 1
            && pretty.unit@ == " GiB"@,
{
    if num < 1024 {
        PrettyNumber { divisor: 1, decimals: 0, unit: " B" }
    } else if num < 0x10_0000 {
        PrettyNumber { divisor: 1024, decimals: 1, unit: " kiB" }
    } else if num < 0x4000_0000 {
        PrettyNumber { divisor: 0x10_0000, decimals: 1, unit: " MiB" }
    } else {
        PrettyNumber { divisor: 0x4000_0000, decimals: 1, unit: " GiB" }
    }
}

/// How an amount of gas per second is printed: below 1000 as it is, then in
/// thousands, millions, billions or trillions of gas with two decimals, in the
/// largest of these units that the amount reaches.
pub fn gas_used_per_sec(num: u64) -> (pretty: PrettyNumber)
    ensures
        num < 1000 ==> pretty.divisor == 1 && pretty.decimals == 0 && pretty.unit@ == " gas/s"@,
        1000 <= num < 1_000_000 ==> pretty.divisor == 1000 && pretty.decimals == 2
            && pretty.unit@ == " Kgas/s"@,
        1_000_000 <= num < 1_000_000_000 ==> pretty.divisor == 1_000_000 && pretty.decimals == 2
            && pretty.unit@ == " Mgas/s"@,
        1_000_000_000 <= num < 1_000_000_000_000 ==> pretty.divisor == 1_000_000_000
            && pretty.decimals == 2 && pretty.unit@ == " Ggas/s"@,
        1_000_000_000_000 <= num ==> pretty.divisor == 1_000_000_000_000 && pretty.decimals == 2
            && pretty.unit@ == " Tgas/s"@,
{
    if num < 1000 {
        PrettyNumber { divisor: 1, decimals: 0, unit: " gas/s" }
    } else if num < 1_000_000 {
        PrettyNumber { divisor: 1000, decimals: 2, unit: " Kgas/s" }
    } else if num < 1_000_000_000 {
        PrettyNumber { divisor: 1_000_000, decimals: 2, unit: " Mgas/s" }
    } else if num < 1_000_000_000_000 {
        PrettyNumber { divisor: 1_000_000_000, decimals: 2, unit: " Ggas/s" }
    } else {
        PrettyNumber { divisor: 1_000_000_000_000, decimals: 2, unit: " Tgas/s" }
    }
}

/// The summary line of a node that waits for peers: `#`, the height of the head
/// at the right end of a field of 8 characters, and the words.
pub fn awaiting_peers_line(height: u64) -> (line: String)
    ensures
        line@ == "#"@ + padded(decimal_digits(height as nat), 8) + " Waiting for peers"@,
{
    let mut line = "#".to_owned();
    append_chars(&mut line, &pad_left(&format_decimal(height), 8));
    line.append(" Waiting for peers");
    line
}

/// The summary line of a node that syncs epochs: the number of the epoch at the
/// right end of a field of 5 characters, between the words.
pub fn epoch_sync_line(epoch_ord: u64) -> (line: String)
    ensures
        line@ == "[EPOCH: "@ + padded(decimal_digits(epoch_ord as nat), 5)
            + "] Getting to a recent epoch"@,
{
    let mut line = "[EPOCH: ".to_owned();
    append_chars(&mut line, &pad_left(&format_decimal(epoch_ord), 5));
    line.append("] Getting to a recent epoch");
    line
}

/// How far a download has come: the part that is done, a hundredfold, and the
/// whole, as the two terms of a ratio, where there is anything to download; and
/// the number of heights that are left.
pub struct SyncProgress {
    pub ratio: Option<(u64, u64)>,
    pub left: u64,
}

/// The smaller of two heights.
pub open spec fn lower(a: u64, b: u64) -> u64 {
    if a <= b {
        a
    } else {
        b
    }
}

/// The progress of a download of headers from `genesis_height` towards
/// `highest_height` that has reached `current_height`.
///
/// The part that is done is counted up to the highest height and no further.
/// There is no ratio where the highest height is not above the genesis. Returns
/// `None` where the numbers do not fit: the current height is above the highest,
/// or below the genesis, or the hundredfold of the part done is out of range.
pub fn header_sync_progress(current_height: u64, highest_height: u64, genesis_height: u64) -> (progress:
    Option<SyncProgress>)
    ensures
        progress is Some <==> current_height <= highest_height && (highest_height > genesis_height
            ==> genesis_height <= current_height && (lower(current_height, highest_height)
            - genesis_height) * 100 <= u64::MAX),
        progress matches Some(p) ==> p.left == highest_height - current_height && p.ratio == (
        if highest_height <= genesis_height {
            None::<(u64, u64)>
        } else {
            Some(
                (
                    ((lower(current_height, highest_height) - genesis_height) * 100) as u64,
                    (highest_height - genesis_height) as u64,
                ),
            )
        }),
{
    let reached = if current_height <= highest_height {
        current_height
    } else {
        highest_height
    };
    let ratio = if highest_height <= genesis_height {
        None
    } else {
        if reached < genesis_height || reached - genesis_height > u64::MAX / 100 {
            return None;
        }
        Some(((reached - genesis_height) * 100, highest_height - genesis_height))
    };
    if current_height > highest_height {
        return None;
    }
    Some(SyncProgress { ratio, left: highest_height - current_height })
}

/// The progress of a download of blocks from `genesis_height` towards
/// `highest_height` that has reached `current_height`.
///
/// There is no ratio where the highest height is not above the genesis. Returns
/// `None` where the numbers do not fit: the current height is above the highest,
/// or below the genesis, or the hundredfold of the part done is out of range.
pub fn body_sync_progress(current_height: u64, highest_height: u64, genesis_height: u64) -> (progress:
    Option<SyncProgress>)
    ensures
        progress is Some <==> current_height <= highest_height && (highest_height > genesis_height
            ==> genesis_height <= current_height && (current_height - genesis_height) * 100
            <= u64::MAX),
        progress matches Some(p) ==> p.left == highest_height - current_height && p.ratio == (
        if highest_height <= genesis_height {
            None::<(u64, u64)>
        } else {
            Some(
                (
                    ((current_height - genesis_height) * 100) as u64,
                    (highest_height - genesis_height) as u64,
                ),
            )
        }),
{
    let ratio = if highest_height <= genesis_height {
        None
    } else {
        if current_height < genesis_height || current_height - genesis_height > u64::MAX / 100 {
            return None;
        }
        Some(((current_height - genesis_height) * 100, highest_height - genesis_height))
    };
    if current_height > highest_height {
        return None;
    }
    Some(SyncProgress { ratio, left: highest_height - current_height })
}

/// What a shard is doing while the state is synced.
#[derive(Clone, Copy, Debug, PartialEq, Eq, Structural)]
pub enum ShardSyncStatus {
    StateDownloadHeader,
    StateDownloadParts,
    StateDownloadScheduling,
    StateDownloadApplying,
    StateDownloadComplete,
    StateSplitScheduling,
    StateSplitApplying,
    StateSyncDone,
}

/// The word that the summary has for what a shard is doing.
pub fn shard_sync_status_name(status: ShardSyncStatus) -> (name: &'static str)
    ensures
        name@ == match status {
            ShardSyncStatus::StateDownloadHeader => "header"@,
            ShardSyncStatus::StateDownloadParts => "parts"@,
            ShardSyncStatus::StateDownloadScheduling => "scheduling"@,
            ShardSyncStatus::StateDownloadApplying => "applying"@,
            ShardSyncStatus::StateDownloadComplete => "download complete"@,
            ShardSyncStatus::StateSplitScheduling => "split scheduling"@,
            ShardSyncStatus::StateSplitApplying => "split applying"@,
            ShardSyncStatus::StateSyncDone => "done"@,
        },
{
    match status {
        ShardSyncStatus::StateDownloadHeader => "header",
        ShardSyncStatus::StateDownloadParts => "parts",
        ShardSyncStatus::StateDownloadScheduling => "scheduling",
        ShardSyncStatus::StateDownloadApplying => "applying",
        ShardSyncStatus::StateDownloadComplete => "download complete",
        ShardSyncStatus::StateSplitScheduling => "split scheduling",
        ShardSyncStatus::StateSplitApplying => "split applying",
        ShardSyncStatus::StateSyncDone => "done",
    }
}

/// Whether the shards of a list stand in the order of their numbers.
pub open spec fn ordered_by_shard(statuses: Seq<(u64, ShardSyncStatus)>) -> bool {
    forall|i: int, j: int| 0 <= i < j < statuses.len() ==> statuses[i].0 <= statuses[j].0
}

/// The shards of a list in the order of their numbers.
pub fn sort_by_shard_id(statuses: &Vec<(u64, ShardSyncStatus)>) -> (sorted: Vec<
    (u64, ShardSyncStatus),
>)
    ensures
        ordered_by_shard(sorted@),
        sorted@.to_multiset() == statuses@.to_multiset(),
{
    let mut sorted: Vec<(u64, ShardSyncStatus)> = Vec::new();
    let mut i: usize = 0;
    assert(statuses@.take(0) =~= Seq::<(u64, ShardSyncStatus)>::empty());
    while i < statuses.len()
        invariant
            i <= statuses.len(),
            ordered_by_shard(sorted@),
            sorted@.to_multiset() == statuses@.take(i as int).to_multiset(),
        decreases statuses.len() - i,
    {
        let item = statuses[i];
        let mut at: usize = sorted.len();
        while at > 0 && sorted[at - 1].0 > item.0
            invariant
                at <= sorted.len(),
                forall|k: int| at <= k < sorted.len() ==> sorted[k].0 > item.0,
            decreases at,
        {
            at -= 1;
        }
        proof {
            vstd::seq_lib::to_multiset_insert(sorted@, at as int, item);
            vstd::seq_lib::to_multiset_build(statuses@.take(i as int), item);
            assert(statuses@.take(i + 1) =~= statuses@.take(i as int).push(item));
        }
        sorted.insert(at, item);
        i += 1;
    }
    assert(statuses@.take(i as int) =~= statuses@);
    sorted
}

/// A validator that was kicked out at the end of the previous epoch.
pub struct ValidatorKickoutView {
    pub account_id: String,
}

/// What a validator of the current epoch produced and was expected to produce.
pub struct CurrentEpochValidatorInfo {
    pub account_id: String,
    pub num_produced_blocks: u64,
    pub num_expected_blocks: u64,
    pub num_produced_chunks: u64,
    pub num_expected_chunks: u64,
}

/// The validators of the current epoch and those kicked out before it.
pub struct EpochValidatorInfo {
    pub current_validators: Vec<CurrentEpochValidatorInfo>,
    pub prev_epoch_kickout: Vec<ValidatorKickoutView>,
}

/// Number of blocks and chunks produced and expected by a certain validator.
pub struct ValidatorProductionStats {
    pub account_id: String,
    pub num_produced_blocks: u64,
    pub num_expected_blocks: u64,
    pub num_produced_chunks: u64,
    pub num_expected_chunks: u64,
}

/// The statistics of a validator with its name taken by its view: the account,
/// then the produced and expected blocks, then the produced and expected chunks.
pub open spec fn stats_of(stats: ValidatorProductionStats) -> (Seq<char>, u64, u64, u64, u64) {
    (
        stats.account_id@,
        stats.num_produced_blocks,
        stats.num_expected_blocks,
        stats.num_produced_chunks,
        stats.num_expected_chunks,
    )
}

/// The statistics that stand for the validators of an epoch: zeros for each
/// validator that was kicked out, then the numbers of each current validator.
pub open spec fn epoch_stats(
    kickouts: Seq<ValidatorKickoutView>,
    validators: Seq<CurrentEpochValidatorInfo>,
) -> Seq<(Seq<char>, u64, u64, u64, u64)> {
    Seq::new(kickouts.len(), |i: int| (kickouts[i].account_id@, 0u64, 0u64, 0u64, 0u64))
        + Seq::new(
        validators.len(),
        |i: int|
            (
                validators[i].account_id@,
                validators[i].num_produced_blocks,
                validators[i].num_expected_blocks,
                validators[i].num_produced_chunks,
                validators[i].num_expected_chunks,
            ),
    )
}

impl ValidatorProductionStats {
    /// The statistics of a validator that was kicked out: zeros.
    pub fn kickout(kickout: ValidatorKickoutView) -> (stats: ValidatorProductionStats)
        ensures
            stats_of(stats) == (kickout.account_id@, 0u64, 0u64, 0u64, 0u64),
    {
        ValidatorProductionStats {
            account_id: kickout.account_id,
            num_produced_blocks: 0,
            num_expected_blocks: 0,
            num_produced_chunks: 0,
            num_expected_chunks: 0,
        }
    }

    /// The statistics of a validator of the current epoch.
    pub fn validator(info: CurrentEpochValidatorInfo) -> (stats: ValidatorProductionStats)
        ensures
            stats_of(stats) == (
                info.account_id@,
                info.num_produced_blocks,
                info.num_expected_blocks,
                info.num_produced_chunks,
                info.num_expected_chunks,
            ),
    {
        ValidatorProductionStats {
            account_id: info.account_id,
            num_produced_blocks: info.num_produced_blocks,
            num_expected_blocks: info.num_expected_blocks,
            num_produced_chunks: info.num_produced_chunks,
            num_expected_chunks: info.num_expected_chunks,
        }
    }
}

/// Converts the validators of an epoch into their production statistics: first
/// those kicked out, with zeros, which replace what was last known of them, then
/// the current validators.
pub fn get_validator_epoch_stats(current_validator_epoch_info: EpochValidatorInfo) -> (stats: Vec<
    ValidatorProductionStats,
>)
    ensures
        Seq::new(stats.len() as nat, |i: int| stats_of(stats[i])) == epoch_stats(
            current_validator_epoch_info.prev_epoch_kickout@,
            current_validator_epoch_info.current_validators@,
        ),
{
    let ghost kickouts = current_validator_epoch_info.prev_epoch_kickout@;
    let ghost validators = current_validator_epoch_info.current_validators@;
    let mut stats: Vec<ValidatorProductionStats> = Vec::new();
    // Record kickouts to replace latest stats of kicked out validators with zeros.
    for kickout in it: current_validator_epoch_info.prev_epoch_kickout
        invariant
            it.seq() == kickouts,
            stats.len() == it.index(),
            forall|i: int|
                0 <= i < stats.len() ==> stats_of(#[trigger] stats[i]) == (
                    kickouts[i].account_id@,
                    0u64,
                    0u64,
                    0u64,
                    0u64,
                ),
    {
        stats.push(ValidatorProductionStats::kickout(kickout));
    }
    for validator in it: current_validator_epoch_info.current_validators
        invariant
            it.seq() == validators,
            stats.len() == kickouts.len() + it.index(),
            forall|i: int|
                0 <= i < stats.len() ==> stats_of(#[trigger] stats[i]) == epoch_stats(
                    kickouts,
                    validators,
                )[i],
    {
        stats.push(ValidatorProductionStats::validator(validator));
    }
    assert(Seq::new(stats.len() as nat, |i: int| stats_of(stats[i])) =~= epoch_stats(
        kickouts,
        validators,
    ));
    stats
}

} // verus!
