//! The server build: its files, settings and the decisions of its background jobs.
use vstd::prelude::*;
use crate::numeric::{decimal_text, is_multiple_of, push_decimal};
use crate::text::{
    append_str, chars_of, contains_str, has_infix, strip_start_char, string_of, to_lowercase,
    unicode_lowercase,
};

verus! {

/// Where the server keeps its files.
pub const DATA_DIR: &'static str = "/opt/hexfetch";

/// The file that holds the daily history.
pub fn hexjson_file_path() -> (r: String)
    ensures
        r@ == DATA_DIR@ + "/hexjson.json"@,
{
    let mut out = String::new();
    append_str(&mut out, DATA_DIR);
    append_str(&mut out, "/hexjson.json");
    assert(out@ =~= DATA_DIR@ + "/hexjson.json"@);
    out
}

/// The file that holds the settings.
pub fn config_file_path() -> (r: String)
    ensures
        r@ == DATA_DIR@ + "/config.json"@,
{
    let mut out = String::new();
    append_str(&mut out, DATA_DIR);
    append_str(&mut out, "/config.json");
    assert(out@ =~= DATA_DIR@ + "/config.json"@);
    out
}

/// The file that holds the miners.
pub fn miners_file_path() -> (r: String)
    ensures
        r@ == DATA_DIR@ + "/miners.json"@,
{
    let mut out = String::new();
    append_str(&mut out, DATA_DIR);
    append_str(&mut out, "/miners.json");
    assert(out@ =~= DATA_DIR@ + "/miners.json"@);
    out
}

/// The server's settings; `F` is the number type of the liquid HEX amount.
#[derive(Clone, Debug)]
pub struct Config<F> {
    /// Minutes between live data refreshes.
    pub live_data_frequency: u64,
    /// HEX held outside stakes.
    pub liquid_hex: F,
    /// The first day that the history backfill reads.
    pub historical_start_day: u64,
    /// Comma-separated wallet addresses to follow.
    pub wallet_addresses: String,
}

/// The refresh interval kept within one minute and one day.
pub open spec fn clamp_frequency(minutes: u64) -> u64 {
    if minutes < 1 {
        1
    } else if minutes > 1440 {
        1440
    } else {
        minutes
    }
}

/// The settings with the refresh interval clamped to `1..=1440` minutes and the start day
/// raised to at least 1. The liquid amount and the addresses pass through unchanged: the
/// check of the liquid amount, a float, is the caller's.
pub fn sanitize_config<F>(config: Config<F>) -> (r: Config<F>)
    ensures
        r.live_data_frequency == clamp_frequency(config.live_data_frequency),
        r.historical_start_day == (if config.historical_start_day < 1 {
            1
        } else {
            config.historical_start_day
        }),
        r.liquid_hex == config.liquid_hex,
        r.wallet_addresses == config.wallet_addresses,
{
    let freq = if config.live_data_frequency < 1 {
        1
    } else if config.live_data_frequency > 1440 {
        1440
    } else {
        config.live_data_frequency
    };
    let start = if config.historical_start_day < 1 {
        1
    } else {
        config.historical_start_day
    };
    Config {
        live_data_frequency: freq,
        liquid_hex: config.liquid_hex,
        historical_start_day: start,
        wallet_addresses: config.wallet_addresses,
    }
}

/// The asset that a request path names: the path without its leading slashes, `index.html`
/// for the root, and none for a path that holds `..`.
pub open spec fn asset_path_spec(path: Seq<char>) -> Option<Seq<char>> {
    let p = strip_start_char(path, '/');
    if p.len() == 0 {
        Some("index.html"@)
    } else if has_infix(p, ".."@) {
        None
    } else {
        Some(p)
    }
}

/// The asset that a request path names, if it may be served.
pub fn asset_path(path: &str) -> (r: Option<String>)
    ensures
        match asset_path_spec(path@) {
            Some(p) => r matches Some(s) && s@ == p,
            None => r is None,
        },
{
    let cs = chars_of(path);
    let n = cs.len();
    let mut lo: usize = 0;
    assert(cs@.subrange(0, n as int) =~= path@);
    while lo < n && cs[lo] == '/'
        invariant
            lo <= n == cs.len(),
            cs@ == path@,
            strip_start_char(path@, '/') == strip_start_char(cs@.subrange(lo as int, n as int), '/'),
        decreases n - lo,
    {
        assert(cs@.subrange(lo as int, n as int).drop_first() =~= cs@.subrange(lo + 1, n as int));
        lo = lo + 1;
    }
    assert(strip_start_char(cs@.subrange(lo as int, n as int), '/') == cs@.subrange(lo as int, n as int));
    let p = string_of(&cs, lo, n);
    if lo == n {
        let mut out = String::new();
        append_str(&mut out, "index.html");
        assert(out@ =~= "index.html"@);
        return Some(out);
    }
    if contains_str(p.as_str(), "..") {
        None
    } else {
        Some(p)
    }
}

// ---------------------------------------------------------------------------
// Retrying the live data

/// A lowercased error message that names a network failure.
pub open spec fn names_network_failure(lowered: Seq<char>) -> bool {
    ||| has_infix(lowered, "connection"@)
    ||| has_infix(lowered, "dns"@)
    ||| has_infix(lowered, "timeout"@)
    ||| has_infix(lowered, "request"@)
    ||| has_infix(lowered, "all rpc endpoints failed"@)
}

/// Whether a lowercased error message names a network failure.
pub fn mentions_network_failure(lowered: &str) -> (r: bool)
    ensures
        r == names_network_failure(lowered@),
{
    contains_str(lowered, "connection") || contains_str(lowered, "dns") || contains_str(
        lowered,
        "timeout",
    ) || contains_str(lowered, "request") || contains_str(lowered, "all rpc endpoints failed")
}

/// Whether a failed live data refresh failed for a network reason, which is worth
/// retrying.
pub fn is_network_error(message: &str) -> (r: bool)
    ensures
        r == names_network_failure(unicode_lowercase(message@)),
{
    let lowered = to_lowercase(message);
    mentions_network_failure(lowered.as_str())
}

/// Whether to give up on a failed live data refresh: the failure is not a network one, or
/// more than `max_elapsed` has passed since the first try.
pub fn live_retry_gives_up(network_error: bool, elapsed: u64, max_elapsed: u64) -> (r: bool)
    ensures
        r == (!network_error || elapsed > max_elapsed),
{
    !network_error || elapsed > max_elapsed
}

// ---------------------------------------------------------------------------
// Backfill

/// Consecutive failed days that abort the backfill.
pub const MAX_CONSECUTIVE_ERRORS: u32 = 50;

/// Fetched days between intermediate saves.
pub const BACKFILL_SAVE_INTERVAL: usize = 1000;

/// The progress of a backfill whose days complete one by one, in any order.
pub struct BackfillProgress {
    /// Days to fetch in all.
    pub total: usize,
    /// Days completed so far.
    pub fetched: usize,
    /// Failed days in a row.
    pub consecutive_errors: u32,
}

/// What to do after a day completes.
#[derive(Clone, Copy, PartialEq, Eq, Debug, Structural)]
pub struct BackfillStep {
    /// Too many failures in a row: stop here.
    pub abort: bool,
    /// Log this failure (the first three of a run, then every twentieth).
    pub warn: bool,
    /// Report the progress (every hundred days and at the end).
    pub report_progress: bool,
    /// Save what is there (every `BACKFILL_SAVE_INTERVAL` days).
    pub save: bool,
}

impl BackfillProgress {
    /// A backfill of `total` days.
    pub fn new(total: usize) -> (r: Self)
        ensures
            r.total == total,
            r.fetched == 0,
            r.consecutive_errors == 0,
    {
        BackfillProgress { total, fetched: 0, consecutive_errors: 0 }
    }

    /// Takes in the outcome of one day.
    pub fn record(&mut self, ok: bool) -> (r: BackfillStep)
        requires
            old(self).fetched < old(self).total,
            old(self).consecutive_errors < MAX_CONSECUTIVE_ERRORS,
        ensures
            final(self).total == old(self).total,
            final(self).consecutive_errors == (if ok {
                0
            } else {
                old(self).consecutive_errors + 1
            }),
            r.abort == (!ok && final(self).consecutive_errors >= MAX_CONSECUTIVE_ERRORS),
            r.warn == (!ok && !r.abort && (final(self).consecutive_errors <= 3
                || final(self).consecutive_errors % 20 == 0)),
            r.abort ==> final(self).fetched == old(self).fetched && !r.report_progress
                && !r.save,
            !r.abort ==> final(self).fetched == old(self).fetched + 1 && r.report_progress == (
            final(self).fetched % 100 == 0 || final(self).fetched == final(self).total) && r.save
                == (final(self).fetched % BACKFILL_SAVE_INTERVAL == 0),
    {
        let mut warn = false;
        if ok {
            self.consecutive_errors = 0;
        } else {
            self.consecutive_errors = self.consecutive_errors + 1;
            if self.consecutive_errors >= MAX_CONSECUTIVE_ERRORS {
                return BackfillStep { abort: true, warn: false, report_progress: false, save: false };
            }
            warn = self.consecutive_errors <= 3 || is_multiple_of(
                self.consecutive_errors as usize,
                20,
            );
        }
        self.fetched = self.fetched + 1;
        BackfillStep {
            abort: false,
            warn,
            report_progress: is_multiple_of(self.fetched, 100) || self.fetched == self.total,
            save: is_multiple_of(self.fetched, BACKFILL_SAVE_INTERVAL),
        }
    }
}

// ---------------------------------------------------------------------------
// Finding historical blocks

/// Seconds in a day.
pub const SECONDS_PER_DAY: u64 = 86400;

/// How long after a day's end its data is read, so that the day has settled.
pub const HISTORICAL_QUERY_OFFSET_SECS: u64 = 3700;

/// How far past the target a block's time may be and still count as found.
pub const HISTORICAL_TIMESTAMP_TOLERANCE_SECS: u64 = 30;

/// `a + b`, or the largest `u64` when that overflows.
pub open spec fn sat_add(a: int, b: int) -> int {
    if a + b > u64::MAX {
        u64::MAX as int
    } else {
        a + b
    }
}

/// `a * b`, or the largest `u64` when that overflows.
pub open spec fn sat_mul(a: int, b: int) -> int {
    if a * b > u64::MAX {
        u64::MAX as int
    } else {
        a * b
    }
}

/// `a - b`, or zero when that would be negative.
pub open spec fn sat_sub(a: int, b: int) -> int {
    if a < b {
        0
    } else {
        a - b
    }
}

/// The time at which day `day` is read: the end of the day counted from `day_zero`, plus
/// the settling offset, every step saturating.
pub open spec fn target_timestamp_spec(day_zero: u64, day: u64) -> int {
    sat_add(
        sat_add(day_zero as int, sat_mul(sat_add(day as int, 1), SECONDS_PER_DAY as int)),
        HISTORICAL_QUERY_OFFSET_SECS as int,
    )
}

/// `a * b`, or the largest `u64` when that overflows.
pub fn saturating_mul(a: u64, b: u64) -> (r: u64)
    ensures
        r == sat_mul(a as int, b as int),
{
    match a.checked_mul(b) {
        Some(v) => v,
        None => u64::MAX,
    }
}

/// The time at which day `day` is read.
pub fn target_timestamp_for_day(day_zero: u64, day: u64) -> (r: u64)
    ensures
        r == target_timestamp_spec(day_zero, day),
{
    let next = day.saturating_add(1);
    let span = saturating_mul(next, SECONDS_PER_DAY);
    day_zero.saturating_add(span).saturating_add(HISTORICAL_QUERY_OFFSET_SECS)
}

/// The start of day zero implied by the latest block: the start of that block's UTC day,
/// less one day for each HEX day counted, not below zero.
pub fn derived_day_zero(latest_timestamp: u64, current_hex_day: u64) -> (r: u64)
    ensures
        r == sat_sub(
            latest_timestamp - latest_timestamp % SECONDS_PER_DAY,
            sat_mul(current_hex_day as int, SECONDS_PER_DAY as int),
        ),
{
    let day_start = latest_timestamp - latest_timestamp % SECONDS_PER_DAY;
    day_start.saturating_sub(saturating_mul(current_hex_day, SECONDS_PER_DAY))
}

/// The day used to calibrate day zero: two before the current one, when there are at least
/// three.
pub fn calibration_day(current_hex_day: u64) -> (r: Option<u64>)
    ensures
        r == (if current_hex_day < 3 {
            None
        } else {
            Some((current_hex_day - 2) as u64)
        }),
{
    if current_hex_day < 3 {
        None
    } else {
        Some(current_hex_day - 2)
    }
}

/// The outcome of one calibration probe.
#[derive(Clone, Copy, PartialEq, Eq, Debug, Structural)]
pub enum Calibration {
    /// Move day zero to this time and probe again.
    Shift(u64),
    /// Day zero is right.
    Settled,
}

/// The outcome of a calibration probe of `test_day` that read `count_at_block` days.
pub open spec fn calibration_spec(day_zero: u64, count_at_block: u64, test_day: u64) -> Calibration {
    if count_at_block <= test_day {
        Calibration::Shift(sat_add(day_zero as int, SECONDS_PER_DAY as int) as u64)
    } else if count_at_block > sat_add(test_day as int, 1) {
        Calibration::Shift(sat_sub(day_zero as int, SECONDS_PER_DAY as int) as u64)
    } else {
        Calibration::Settled
    }
}

/// One calibration step: the block read for `test_day` had `count_at_block` days; too few
/// means day zero is a day too early, too many that it is a day too late.
pub fn calibration_step(day_zero: u64, count_at_block: u64, test_day: u64) -> (r: Calibration)
    ensures
        r == calibration_spec(day_zero, count_at_block, test_day),
{
    if count_at_block <= test_day {
        Calibration::Shift(day_zero.saturating_add(SECONDS_PER_DAY))
    } else if count_at_block > test_day.saturating_add(1) {
        Calibration::Shift(day_zero.saturating_sub(SECONDS_PER_DAY))
    } else {
        Calibration::Settled
    }
}

/// Where a probed block stands against the target time.
#[derive(Clone, Copy, PartialEq, Eq, Debug, Structural)]
pub enum Probe {
    /// The block is before the target, by this many seconds.
    Early(u64),
    /// The block is past the target and the tolerance, by this many seconds.
    Late(u64),
    /// The block is at the target, within the tolerance.
    Found,
}

/// Where a block with time `timestamp` stands against `target`.
pub open spec fn probe_spec(timestamp: u64, target: u64) -> Probe {
    if timestamp < target {
        Probe::Early((target - timestamp) as u64)
    } else if timestamp > target + HISTORICAL_TIMESTAMP_TOLERANCE_SECS {
        Probe::Late((timestamp - target) as u64)
    } else {
        Probe::Found
    }
}

/// Where a block with time `timestamp` stands against `target`.
pub fn probe_block(timestamp: u64, target: u64) -> (r: Probe)
    requires
        target + HISTORICAL_TIMESTAMP_TOLERANCE_SECS <= u64::MAX,
    ensures
        r == probe_spec(timestamp, target),
{
    if timestamp < target {
        Probe::Early(target - timestamp)
    } else if timestamp > target + HISTORICAL_TIMESTAMP_TOLERANCE_SECS {
        Probe::Late(timestamp - target)
    } else {
        Probe::Found
    }
}

/// A step of at least one block.
pub open spec fn step_at_least_one(step: u64) -> int {
    if step < 1 {
        1
    } else {
        step as int
    }
}

/// The block probed after a miss: `step` blocks (at least one) later for an early block,
/// earlier for a late one, never below block zero.
pub open spec fn next_probe_block_spec(block: u64, probe: Probe, step: u64) -> u64 {
    (match probe {
        Probe::Early(_) => sat_add(block as int, step_at_least_one(step)),
        Probe::Late(_) => block - (if step_at_least_one(step) > block {
            block as int
        } else {
            step_at_least_one(step)
        }),
        Probe::Found => block as int,
    }) as u64
}

/// The next block to probe after a miss: `step` blocks (at least one) later for an early
/// block, earlier for a late one, never below block zero.
pub fn next_probe_block(block: u64, probe: Probe, step: u64) -> (r: u64)
    ensures
        r == next_probe_block_spec(block, probe, step),
{
    let s = if step < 1 {
        1
    } else {
        step
    };
    match probe {
        Probe::Early(_) => block.saturating_add(s),
        Probe::Late(_) => block.saturating_sub(if s > block {
            block
        } else {
            s
        }),
        Probe::Found => block,
    }
}

/// How many times the search for a block probes by estimate.
pub const MAX_PROBES: u32 = 6;

/// How many single blocks the search then walks forward at most.
pub const MAX_WALK: u32 = 20;

/// What the block search does next.
#[derive(Clone, Copy, PartialEq, Eq, Debug, Structural)]
pub enum SearchAction {
    /// Read the time of this block and report it.
    Read(u64),
    /// The search ends on this block.
    Found(u64),
}

/// A search for the first block at a target time: up to `MAX_PROBES` probes that jump by
/// the estimated number of blocks, then a walk forward of up to `MAX_WALK` single blocks
/// while the block is still early.
pub struct BlockSearch {
    /// The block being read.
    pub block: u64,
    /// The target time.
    pub target: u64,
    /// Probes made so far.
    pub probes: u32,
    /// Single steps walked so far.
    pub walked: u32,
}

impl BlockSearch {
    /// A search that starts by reading `block`.
    pub fn new(block: u64, target: u64) -> (r: Self)
        ensures
            r.block == block,
            r.target == target,
            r.probes == 0,
            r.walked == 0,
    {
        BlockSearch { block, target, probes: 0, walked: 0 }
    }

    /// Takes in the time of the block just read. While probing: a block within the
    /// tolerance ends the search, a late block zero ends it on zero, and otherwise the
    /// search jumps `step` blocks (the caller's estimate for the time gap, at least one)
    /// and reads again. After the probes it walks forward one block at a time while the
    /// block is early, `MAX_WALK` times at most, and ends on the block it reached.
    pub fn on_timestamp(&mut self, timestamp: u64, step: u64) -> (r: SearchAction)
        requires
            old(self).probes <= MAX_PROBES,
            old(self).walked <= MAX_WALK,
            old(self).target + HISTORICAL_TIMESTAMP_TOLERANCE_SECS <= u64::MAX,
        ensures
            final(self).target == old(self).target,
            final(self).probes <= MAX_PROBES,
            final(self).walked <= MAX_WALK,
            old(self).probes < MAX_PROBES ==> {
                let p = probe_spec(timestamp, old(self).target);
                &&& final(self).walked == old(self).walked
                &&& if p == Probe::Found {
                    r == SearchAction::Found(old(self).block)
                } else if p is Late && old(self).block == 0 {
                    r == SearchAction::Found(0)
                } else {
                    &&& final(self).probes == old(self).probes + 1
                    &&& final(self).block == next_probe_block_spec(old(self).block, p, step)
                    &&& r == SearchAction::Read(final(self).block)
                }
            },
            old(self).probes == MAX_PROBES ==> final(self).probes == MAX_PROBES && if timestamp
                < old(self).target && old(self).walked < MAX_WALK {
                &&& final(self).walked == old(self).walked + 1
                &&& final(self).block == sat_add(old(self).block as int, 1)
                &&& r == SearchAction::Read(final(self).block)
            } else {
                r == SearchAction::Found(old(self).block)
            },
    {
        if self.probes < MAX_PROBES {
            let p = probe_block(timestamp, self.target);
            match p {
                Probe::Found => SearchAction::Found(self.block),
                Probe::Late(_) if self.block == 0 => SearchAction::Found(0),
                _ => {
                    self.block = next_probe_block(self.block, p, step);
                    self.probes = self.probes + 1;
                    SearchAction::Read(self.block)
                },
            }
        } else if timestamp < self.target && self.walked < MAX_WALK {
            self.block = self.block.saturating_add(1);
            self.walked = self.walked + 1;
            SearchAction::Read(self.block)
        } else {
            SearchAction::Found(self.block)
        }
    }
}

/// How many probes calibrating day zero makes at most.
pub const MAX_CALIBRATION_PROBES: u32 = 3;

/// The calibration of day zero: up to `MAX_CALIBRATION_PROBES` probes of `test_day`, each
/// shifting day zero by a day until the day count read at the probed block fits.
pub struct Calibrator {
    /// The current estimate of day zero.
    pub day_zero: u64,
    /// The day probed.
    pub test_day: u64,
    /// Probes started so far.
    pub tries: u32,
    /// The calibration has ended.
    pub done: bool,
}

impl Calibrator {
    /// A calibration of `day_zero` by probing `test_day`.
    pub fn new(day_zero: u64, test_day: u64) -> (r: Self)
        ensures
            r.day_zero == day_zero,
            r.test_day == test_day,
            r.tries == 0,
            !r.done,
    {
        Calibrator { day_zero, test_day, tries: 0, done: false }
    }

    /// The time to probe next, or none when the calibration has ended: after the last
    /// probe, or when the time to probe is not before the latest block's.
    pub fn next_target(&mut self, latest_timestamp: u64) -> (r: Option<u64>)
        ensures
            final(self).day_zero == old(self).day_zero,
            final(self).test_day == old(self).test_day,
            old(self).done || old(self).tries >= MAX_CALIBRATION_PROBES ==> r is None
                && final(self).tries == old(self).tries && final(self).done == old(self).done,
            !(old(self).done || old(self).tries >= MAX_CALIBRATION_PROBES) ==> {
                let t = target_timestamp_spec(old(self).day_zero, old(self).test_day);
                if t >= latest_timestamp {
                    r is None && final(self).done && final(self).tries == old(self).tries
                } else {
                    r == Some(t as u64) && !final(self).done && final(self).tries
                        == old(self).tries + 1
                }
            },
    {
        if self.done || self.tries >= MAX_CALIBRATION_PROBES {
            return None;
        }
        let t = target_timestamp_for_day(self.day_zero, self.test_day);
        if t >= latest_timestamp {
            self.done = true;
            None
        } else {
            self.tries = self.tries + 1;
            Some(t)
        }
    }

    /// Takes in the day count read at the probed block, or none when finding or reading the
    /// block failed (which ends the calibration).
    pub fn on_count(&mut self, count_at_block: Option<u64>)
        ensures
            final(self).test_day == old(self).test_day,
            final(self).tries == old(self).tries,
            match count_at_block {
                None => final(self).done && final(self).day_zero == old(self).day_zero,
                Some(c) => match calibration_spec(old(self).day_zero, c, old(self).test_day) {
                    Calibration::Shift(z) => final(self).day_zero == z && final(self).done
                        == old(self).done,
                    Calibration::Settled => final(self).done && final(self).day_zero == old(
                        self,
                    ).day_zero,
                },
            },
    {
        match count_at_block {
            None => {
                self.done = true;
            },
            Some(c) => match calibration_step(self.day_zero, c, self.test_day) {
                Calibration::Shift(z) => {
                    self.day_zero = z;
                },
                Calibration::Settled => {
                    self.done = true;
                },
            },
        }
    }
}

/// How many times the historical lookup tries a later time.
pub const MAX_HISTORICAL_TRIES: u32 = 3;

/// The lookup of a settled block for a past day: up to `MAX_HISTORICAL_TRIES` times, probe
/// the target time, and if the day count there does not yet include the day, try an hour
/// later.
pub struct HistoricalLookup {
    /// The day looked for.
    pub day: u64,
    /// The time probed next.
    pub target: u64,
    /// Tries started so far.
    pub tries: u32,
}

/// The refusal of a day that has not ended yet.
pub open spec fn not_finalized_text(day: u64) -> Seq<char> {
    "Day "@ + decimal_text(day as nat) + " is not finalized yet"@
}

/// The message refusing `day` as not finalized.
pub fn not_finalized_error(day: u64) -> (r: String)
    ensures
        r@ == not_finalized_text(day),
{
    let mut out = String::new();
    append_str(&mut out, "Day ");
    push_decimal(&mut out, day);
    append_str(&mut out, " is not finalized yet");
    assert(out@ =~= not_finalized_text(day));
    out
}

/// The block to answer with before any search: the latest block, when the target time is
/// not before the latest block's time.
pub fn latest_block_if_past(target_timestamp: u64, latest_timestamp: u64, latest_block: u64) -> (r:
    Option<u64>)
    ensures
        r == (if target_timestamp >= latest_timestamp {
            Some(latest_block)
        } else {
            None::<u64>
        }),
{
    if target_timestamp >= latest_timestamp {
        Some(latest_block)
    } else {
        None
    }
}

impl HistoricalLookup {
    /// A lookup of `day` when the current day is `current_hex_day` and day zero starts at
    /// `day_zero`: refused when the day has not ended, else first probed at the day's
    /// reading time.
    pub fn for_day(day: u64, current_hex_day: u64, day_zero: u64) -> (r: Result<Self, String>)
        ensures
            r is Err <==> day >= current_hex_day,
            r matches Err(e) ==> e@ == not_finalized_text(day),
            r matches Ok(l) ==> l.day == day && l.target == target_timestamp_spec(day_zero, day)
                && l.tries == 0,
    {
        if day >= current_hex_day {
            Err(not_finalized_error(day))
        } else {
            Ok(HistoricalLookup { day, target: target_timestamp_for_day(day_zero, day), tries: 0 })
        }
    }

    /// The time to probe next, or none when the tries are used up.
    pub fn next_target(&mut self) -> (r: Option<u64>)
        ensures
            final(self).day == old(self).day,
            final(self).target == old(self).target,
            old(self).tries >= MAX_HISTORICAL_TRIES ==> r is None && final(self).tries
                == old(self).tries,
            old(self).tries < MAX_HISTORICAL_TRIES ==> r == Some(old(self).target)
                && final(self).tries == old(self).tries + 1,
    {
        if self.tries >= MAX_HISTORICAL_TRIES {
            None
        } else {
            self.tries = self.tries + 1;
            Some(self.target)
        }
    }

    /// Takes in the day count read at the probed block (none when reading it failed):
    /// whether the day is settled there; if not, the next probe is an hour later.
    pub fn on_count(&mut self, count_at_block: Option<u64>) -> (settled: bool)
        ensures
            final(self).day == old(self).day,
            final(self).tries == old(self).tries,
            settled == (count_at_block matches Some(c) && c > old(self).day),
            settled ==> final(self).target == old(self).target,
            !settled ==> final(self).target == sat_add(old(self).target as int, 3600),
    {
        let settled = match count_at_block {
            Some(c) => c > self.day,
            None => false,
        };
        if !settled {
            self.target = self.target.saturating_add(3600);
        }
        settled
    }
}

} // verus!
