//! The ESP32 build: its files, settings, Wi-Fi status, log ring and the decisions of
//! its background jobs.
use vstd::prelude::*;
use crate::numeric::{decimal_text, push_decimal};
use crate::text::append_str;

verus! {

/// Where the device keeps its files.
pub const DATA_DIR: &'static str = "/spiffs";

/// The file that holds the daily history.
pub fn hexjson_file_path() -> (r: String)
    ensures
        r@ == DATA_DIR@ + "/hexjson.json"@,
{
    let mut out = String::new();
    append_str(&mut out, DATA_DIR);
    append_str(&mut out, "/hexjson.json");
    assert(out@ =~= DATA_DIR@ + "/hexjson.json"@);
    out
}

/// The file that holds the settings.
pub fn config_file_path() -> (r: String)
    ensures
        r@ == DATA_DIR@ + "/config.json"@,
{
    let mut out = String::new();
    append_str(&mut out, DATA_DIR);
    append_str(&mut out, "/config.json");
    assert(out@ =~= DATA_DIR@ + "/config.json"@);
    out
}

/// The file that holds the miners.
pub fn miners_file_path() -> (r: String)
    ensures
        r@ == DATA_DIR@ + "/miners.json"@,
{
    let mut out = String::new();
    append_str(&mut out, DATA_DIR);
    append_str(&mut out, "/miners.json");
    assert(out@ =~= DATA_DIR@ + "/miners.json"@);
    out
}

/// The file that holds the backfill checkpoint.
pub fn checkpoint_file_path() -> (r: String)
    ensures
        r@ == DATA_DIR@ + "/backfill_cp.json"@,
{
    let mut out = String::new();
    append_str(&mut out, DATA_DIR);
    append_str(&mut out, "/backfill_cp.json");
    assert(out@ =~= DATA_DIR@ + "/backfill_cp.json"@);
    out
}

/// How many days the backfill saves after, when the settings do not say.
pub const DEFAULT_BACKFILL_SAVE_INTERVAL: usize = 500;

/// The pause between backfill chunks, in milliseconds, when the settings do not say.
pub fn default_backfill_delay() -> (r: u64)
    ensures
        r == 100,
{
    100
}

/// How many days the backfill saves after, when the settings do not say.
pub fn default_backfill_save_interval() -> (r: usize)
    ensures
        r == DEFAULT_BACKFILL_SAVE_INTERVAL,
{
    DEFAULT_BACKFILL_SAVE_INTERVAL
}

/// The device's settings; `F` is the number type of the liquid HEX amount.
#[derive(Clone, Debug)]
pub struct Config<F> {
    /// Minutes between live data refreshes.
    pub live_data_frequency: u64,
    /// HEX held outside stakes.
    pub liquid_hex: F,
    /// The first day of history that matters.
    pub historical_start_day: u64,
    /// The pause between backfill chunks, in milliseconds.
    pub backfill_delay_ms: u64,
    /// How many backfilled days pass between intermediate saves.
    pub backfill_save_interval: usize,
}

/// `x` clamped to `lo..=hi`.
pub open spec fn clamp_spec(x: int, lo: int, hi: int) -> int {
    if x < lo {
        lo
    } else if x > hi {
        hi
    } else {
        x
    }
}

/// The settings with the refresh interval clamped to `1..=1440` minutes, the start day
/// raised to at least 1, the backfill pause clamped to `0..=5000` ms and the save interval
/// to `50..=5000` days. The liquid amount passes through unchanged: its check, on a float,
/// is the caller's.
pub fn sanitize_config<F>(config: Config<F>) -> (r: Config<F>)
    ensures
        r.live_data_frequency == clamp_spec(config.live_data_frequency as int, 1, 1440),
        r.historical_start_day == clamp_spec(
            config.historical_start_day as int,
            1,
            u64::MAX as int,
        ),
        r.backfill_delay_ms == clamp_spec(config.backfill_delay_ms as int, 0, 5000),
        r.backfill_save_interval == clamp_spec(config.backfill_save_interval as int, 50, 5000),
        r.liquid_hex == config.liquid_hex,
{
    let freq = if config.live_data_frequency < 1 {
        1
    } else if config.live_data_frequency > 1440 {
        1440
    } else {
        config.live_data_frequency
    };
    let start = if config.historical_start_day < 1 {
        1
    } else {
        config.historical_start_day
    };
    let delay = if config.backfill_delay_ms > 5000 {
        5000
    } else {
        config.backfill_delay_ms
    };
    let interval = if config.backfill_save_interval < 50 {
        50
    } else if config.backfill_save_interval > 5000 {
        5000
    } else {
        config.backfill_save_interval
    };
    Config {
        live_data_frequency: freq,
        liquid_hex: config.liquid_hex,
        historical_start_day: start,
        backfill_delay_ms: delay,
        backfill_save_interval: interval,
    }
}

// ---------------------------------------------------------------------------
// Wi-Fi status

/// What the device reports of its Wi-Fi link.
#[derive(Clone, Debug)]
pub struct WifiDiagnostics {
    pub connected: bool,
    pub rssi: i32,
    pub ip_addr: String,
    pub disconnect_count: u32,
    pub ssid: String,
}

/// The dotted spelling of an IPv4 address held with its first octet in the low byte.
pub open spec fn ipv4_text(addr: u32) -> Seq<char> {
    decimal_text((addr % 256) as nat) + "."@ + decimal_text(((addr / 256) % 256) as nat) + "."@
        + decimal_text(((addr / 65536) % 256) as nat) + "."@ + decimal_text(
        ((addr / 16777216) % 256) as nat,
    )
}

/// The dotted spelling of an IPv4 address held with its first octet in the low byte.
pub fn format_ipv4(addr: u32) -> (r: String)
    ensures
        r@ == ipv4_text(addr),
{
    let mut out = String::new();
    push_decimal(&mut out, (addr % 256) as u64);
    append_str(&mut out, ".");
    push_decimal(&mut out, ((addr / 256) % 256) as u64);
    append_str(&mut out, ".");
    push_decimal(&mut out, ((addr / 65536) % 256) as u64);
    append_str(&mut out, ".");
    push_decimal(&mut out, ((addr / 16777216) % 256) as u64);
    assert(out@ =~= ipv4_text(addr));
    out
}

impl Default for WifiDiagnostics {
    /// No link seen yet.
    fn default() -> (r: Self)
        ensures
            !r.connected,
            r.rssi == 0,
            r.ip_addr@.len() == 0,
            r.disconnect_count == 0,
            r.ssid@.len() == 0,
    {
        WifiDiagnostics::new()
    }
}

impl WifiDiagnostics {
    /// No link seen yet.
    pub fn new() -> (r: Self)
        ensures
            !r.connected,
            r.rssi == 0,
            r.ip_addr@.len() == 0,
            r.disconnect_count == 0,
            r.ssid@.len() == 0,
    {
        WifiDiagnostics {
            connected: false,
            rssi: 0,
            ip_addr: String::new(),
            disconnect_count: 0,
            ssid: String::new(),
        }
    }

    /// A check that found the link up with address `addr`: the address and network name
    /// are refreshed, and the signal strength where the access point reported one.
    pub fn record_connected(&mut self, addr: u32, ssid: &str, rssi: Option<i32>)
        ensures
            final(self).connected,
            final(self).ip_addr@ == ipv4_text(addr),
            final(self).ssid@ == ssid@,
            final(self).rssi == (match rssi {
                Some(v) => v,
                None => old(self).rssi,
            }),
            final(self).disconnect_count == old(self).disconnect_count,
    {
        self.connected = true;
        self.ip_addr = format_ipv4(addr);
        let mut name = String::new();
        append_str(&mut name, ssid);
        assert(name@ =~= ssid@);
        self.ssid = name;
        if let Some(v) = rssi {
            self.rssi = v;
        }
    }

    /// A check that found the link down: a link that was up counts one more disconnect.
    /// Returns whether it was up, which is when the drop is reported.
    pub fn record_disconnected(&mut self) -> (was_connected: bool)
        requires
            old(self).connected ==> old(self).disconnect_count < u32::MAX,
        ensures
            was_connected == old(self).connected,
            !final(self).connected,
            final(self).disconnect_count == old(self).disconnect_count + (if was_connected {
                1int
            } else {
                0int
            }),
            final(self).ip_addr == old(self).ip_addr,
            final(self).ssid == old(self).ssid,
            final(self).rssi == old(self).rssi,
    {
        let was = self.connected;
        self.connected = false;
        if was {
            self.disconnect_count = self.disconnect_count + 1;
        }
        was
    }
}

// ---------------------------------------------------------------------------
// Log ring

/// How many log lines the device keeps.
pub const LOG_RING_CAPACITY: usize = 100;

/// How many characters of a log line are kept.
pub const LOG_LINE_MAX: usize = 128;

/// The severity of a log record, most severe first.
#[derive(Clone, Copy, PartialEq, Eq, Debug, Structural)]
pub enum LogLevel {
    Error,
    Warn,
    Info,
    Debug,
    Trace,
}

/// The rank of a level, 1 for the most severe.
pub open spec fn level_rank(level: LogLevel) -> int {
    match level {
        LogLevel::Error => 1,
        LogLevel::Warn => 2,
        LogLevel::Info => 3,
        LogLevel::Debug => 4,
        LogLevel::Trace => 5,
    }
}

/// The name under which a level is written.
pub open spec fn level_name(level: LogLevel) -> Seq<char> {
    match level {
        LogLevel::Error => "ERROR"@,
        LogLevel::Warn => "WARN"@,
        LogLevel::Info => "INFO"@,
        LogLevel::Debug => "DEBUG"@,
        LogLevel::Trace => "TRACE"@,
    }
}

/// Whether records of this level are kept: those at least as severe as `Info`.
pub fn log_enabled(level: LogLevel) -> (r: bool)
    ensures
        r == (level_rank(level) <= 3),
{
    match level {
        LogLevel::Error | LogLevel::Warn | LogLevel::Info => true,
        _ => false,
    }
}

/// The name under which a level is written.
pub fn log_level_name(level: LogLevel) -> (r: &'static str)
    ensures
        r@ == level_name(level),
{
    match level {
        LogLevel::Error => "ERROR",
        LogLevel::Warn => "WARN",
        LogLevel::Info => "INFO",
        LogLevel::Debug => "DEBUG",
        LogLevel::Trace => "TRACE",
    }
}

/// `n` spaces.
pub open spec fn spaces(n: nat) -> Seq<char> {
    Seq::new(n, |i: int| ' ')
}

/// `s` right-aligned in a field of `width` characters.
pub open spec fn pad_left(s: Seq<char>, width: nat) -> Seq<char> {
    if s.len() < width {
        spaces((width - s.len()) as nat) + s
    } else {
        s
    }
}

/// `s` left-aligned in a field of `width` characters.
pub open spec fn pad_right(s: Seq<char>, width: nat) -> Seq<char> {
    if s.len() < width {
        s + spaces((width - s.len()) as nat)
    } else {
        s
    }
}

/// At most the first `n` characters of `s`.
pub open spec fn prefix_at_most(s: Seq<char>, n: nat) -> Seq<char> {
    if s.len() > n {
        s.take(n as int)
    } else {
        s
    }
}

/// A kept log line: the time in milliseconds right-aligned in eight places, the level
/// left-aligned in five, then the message, cut to `LOG_LINE_MAX` characters.
pub open spec fn log_line_spec(timestamp_ms: u32, level: LogLevel, message: Seq<char>) -> Seq<
    char,
> {
    prefix_at_most(
        "["@ + pad_left(decimal_text(timestamp_ms as nat), 8) + " ms] "@ + pad_right(
            level_name(level),
            5,
        ) + " "@ + message,
        LOG_LINE_MAX as nat,
    )
}

/// Appends `n` spaces.
fn push_spaces(out: &mut String, n: usize)
    ensures
        final(out)@ == old(out)@ + spaces(n as nat),
{
    let mut i: usize = 0;
    while i < n
        invariant
            i <= n,
            out@ == old(out)@ + spaces(i as nat),
        decreases n - i,
    {
        out.push(' ');
        assert(old(out)@ + spaces((i + 1) as nat) =~= (old(out)@ + spaces(i as nat)).push(' '));
        i = i + 1;
    }
}

/// The kept form of a log record.
pub fn format_log_line(timestamp_ms: u32, level: LogLevel, message: &str) -> (r: String)
    ensures
        r@ == log_line_spec(timestamp_ms, level, message@),
{
    let mut ts = String::new();
    push_decimal(&mut ts, timestamp_ms as u64);
    assert(ts@ =~= decimal_text(timestamp_ms as nat));
    let ts_len = crate::text::chars_of(ts.as_str()).len();
    let name = log_level_name(level);
    let name_len = crate::text::chars_of(name).len();
    let mut line = String::new();
    append_str(&mut line, "[");
    if ts_len < 8 {
        push_spaces(&mut line, 8 - ts_len);
    }
    append_str(&mut line, ts.as_str());
    append_str(&mut line, " ms] ");
    append_str(&mut line, name);
    if name_len < 5 {
        push_spaces(&mut line, 5 - name_len);
    }
    append_str(&mut line, " ");
    append_str(&mut line, message);
    let ghost full = "["@ + pad_left(decimal_text(timestamp_ms as nat), 8) + " ms] "@ + pad_right(
        level_name(level),
        5,
    ) + " "@ + message@;
    assert(line@ =~= full);
    let cs = crate::text::chars_of(line.as_str());
    if cs.len() > LOG_LINE_MAX {
        let r = crate::text::string_of(&cs, 0, LOG_LINE_MAX);
        assert(cs@.subrange(0, LOG_LINE_MAX as int) =~= full.take(LOG_LINE_MAX as int));
        r
    } else {
        line
    }
}

/// The last `LOG_RING_CAPACITY` log lines, oldest first.
pub struct LogRing {
    lines: Vec<String>,
}

/// The last `cap` elements of `s`.
pub open spec fn keep_last<T>(s: Seq<T>, cap: nat) -> Seq<T> {
    if s.len() > cap {
        s.subrange(s.len() - cap, s.len() as int)
    } else {
        s
    }
}

/// The text of each line followed by a newline.
pub open spec fn joined_lines(lines: Seq<Seq<char>>) -> Seq<char>
    decreases lines.len(),
{
    if lines.len() == 0 {
        Seq::empty()
    } else {
        joined_lines(lines.drop_last()) + lines.last() + seq!['\n']
    }
}

impl View for LogRing {
    type V = Seq<Seq<char>>;

    closed spec fn view(&self) -> Seq<Seq<char>> {
        self.lines@.map_values(|l: String| l@)
    }
}

impl LogRing {
    /// An empty ring.
    pub fn new() -> (r: Self)
        ensures
            r@ == Seq::<Seq<char>>::empty(),
    {
        let r = LogRing { lines: Vec::new() };
        assert(r@ =~= Seq::<Seq<char>>::empty());
        r
    }

    /// How many lines are kept.
    pub fn len(&self) -> (r: usize)
        ensures
            r == self@.len(),
    {
        self.lines.len()
    }

    /// Adds a line, dropping the oldest ones beyond the capacity.
    pub fn push(&mut self, line: String)
        ensures
            final(self)@ == keep_last(old(self)@.push(line@), LOG_RING_CAPACITY as nat),
    {
        let ghost all = old(self)@.push(line@);
        self.lines.push(line);
        assert(self@ =~= all);
        while self.lines.len() > LOG_RING_CAPACITY
            invariant
                all.len() > LOG_RING_CAPACITY ==> self@.len() >= LOG_RING_CAPACITY,
                all.len() <= LOG_RING_CAPACITY ==> self@.len() == all.len(),
                all.len() >= self@.len(),
                self@.len() == self.lines@.len(),
                self@ =~= all.subrange(all.len() - self@.len(), all.len() as int),
            decreases self.lines.len(),
        {
            let ghost before = self@;
            self.lines.remove(0);
            assert(self@ =~= before.drop_first());
        }
        assert(self@ =~= keep_last(all, LOG_RING_CAPACITY as nat));
    }

    /// The kept lines, each followed by a newline.
    pub fn render(&self) -> (r: String)
        ensures
            r@ == joined_lines(self@),
    {
        let mut out = String::new();
        let mut i: usize = 0;
        while i < self.lines.len()
            invariant
                i <= self.lines.len(),
                out@ == joined_lines(self@.take(i as int)),
            decreases self.lines.len() - i,
        {
            assert(self@.take(i + 1).drop_last() =~= self@.take(i as int));
            assert(self@.take(i + 1).last() == self.lines@[i as int]@);
            append_str(&mut out, self.lines[i].as_str());
            out.push('\n');
            assert(out@ =~= joined_lines(self@.take(i + 1)));
            i = i + 1;
        }
        assert(self@.take(i as int) =~= self@);
        out
    }
}

// ---------------------------------------------------------------------------
// Settings-change signal

/// A one-shot signal that a waiter consumes: raised by a settings change, taken by the
/// live data job when it wakes. The lock and condition variable around it are the
/// caller's; this holds the flag and decides each step of a wait.
pub struct EventFlag {
    fired: bool,
}

/// What a waiter does next.
#[derive(Clone, Copy, PartialEq, Eq, Debug, Structural)]
pub enum WaitStep {
    /// The signal was raised; it is now taken.
    Fired,
    /// The deadline passed without a signal.
    TimedOut,
    /// Sleep on the condition variable for at most this many milliseconds, then ask again.
    Wait(u64),
}

impl EventFlag {
    /// Whether the signal is raised and not yet taken.
    pub closed spec fn is_set(&self) -> bool {
        self.fired
    }

    /// A flag that is not raised.
    pub fn new() -> (r: Self)
        ensures
            !r.is_set(),
    {
        EventFlag { fired: false }
    }

    /// Raises the signal (the caller then wakes all waiters).
    pub fn notify(&mut self)
        ensures
            final(self).is_set(),
    {
        self.fired = true;
    }

    /// One step of waiting until `deadline`, both in milliseconds of a monotonic clock: a
    /// raised signal is taken and reported, a passed deadline ends the wait with the flag
    /// clear, and otherwise the caller sleeps for the time that is left.
    pub fn wait_timeout(&mut self, now: u64, deadline: u64) -> (r: WaitStep)
        ensures
            old(self).is_set() ==> r == WaitStep::Fired,
            !old(self).is_set() && now >= deadline ==> r == WaitStep::TimedOut,
            !old(self).is_set() && now < deadline ==> r == WaitStep::Wait(
                (deadline - now) as u64,
            ),
            r is Wait ==> final(self).is_set() == old(self).is_set(),
            !(r is Wait) ==> !final(self).is_set(),
    {
        if self.fired {
            self.fired = false;
            WaitStep::Fired
        } else if now >= deadline {
            WaitStep::TimedOut
        } else {
            WaitStep::Wait(deadline - now)
        }
    }
}

// ---------------------------------------------------------------------------
// Clock

/// A Unix time that can only come from a synchronised clock (later than November 2023).
pub open spec fn clock_is_set(unix_secs: i64) -> bool {
    unix_secs > 1_700_000_000
}

/// Whether the clock reads a time that it can only have from a time server.
pub fn time_is_synced(unix_secs: i64) -> (r: bool)
    ensures
        r == clock_is_set(unix_secs),
{
    unix_secs > 1_700_000_000
}

/// How the clock's state changed between two checks.
#[derive(Clone, Copy, PartialEq, Eq, Debug, Structural)]
pub enum SyncChange {
    Lost,
    Regained,
    Unchanged,
}

/// The clock's state after a periodic check, and how it changed.
pub fn resync_check(was_synced: bool, unix_secs: i64) -> (r: (bool, SyncChange))
    ensures
        r.0 == clock_is_set(unix_secs),
        r.1 == (if was_synced && !r.0 {
            SyncChange::Lost
        } else if !was_synced && r.0 {
            SyncChange::Regained
        } else {
            SyncChange::Unchanged
        }),
{
    let now_synced = time_is_synced(unix_secs);
    let change = if was_synced && !now_synced {
        SyncChange::Lost
    } else if !was_synced && now_synced {
        SyncChange::Regained
    } else {
        SyncChange::Unchanged
    };
    (now_synced, change)
}

// ---------------------------------------------------------------------------
// Backfill

/// How many days one batch request asks for.
pub const RPC_BATCH_SIZE: usize = 25;

/// How many empty chunks in a row pause the backfill.
pub const MAX_EMPTY_CHUNKS: u32 = 10;

/// Where an earlier backfill stopped.
#[derive(Clone, Copy, PartialEq, Eq, Debug, Structural)]
pub struct BackfillCheckpoint {
    pub last_backfilled_day: u64,
    pub total_days_known: u64,
}

/// The first day to backfill: the day after the checkpoint, or day 1 without one.
pub fn resume_day(checkpoint: Option<BackfillCheckpoint>) -> (r: u64)
    requires
        checkpoint matches Some(cp) ==> cp.last_backfilled_day < u64::MAX,
    ensures
        r == (match checkpoint {
            Some(cp) => cp.last_backfilled_day + 1,
            None => 1,
        }),
{
    match checkpoint {
        Some(cp) => cp.last_backfilled_day + 1,
        None => 1,
    }
}

/// The progress of a chunked backfill.
pub struct ChunkBackfill {
    /// Days to fetch in all.
    pub total: usize,
    /// Days asked for so far.
    pub fetched: usize,
    /// Chunks in a row that gave nothing.
    pub empty_chunks: u32,
    /// The latest day stored, the checkpoint to save.
    pub checkpoint_day: u64,
    /// How many fetched days pass between intermediate saves.
    pub save_interval: usize,
}

/// What to do after a chunk.
#[derive(Clone, Copy, PartialEq, Eq, Debug, Structural)]
pub struct ChunkStep {
    /// Too many empty chunks in a row: stop, storing nothing of this chunk.
    pub abort: bool,
    /// Report the progress.
    pub report_progress: bool,
    /// Save the history and the checkpoint.
    pub save: bool,
}

/// The largest of `start` and the elements of `days`.
pub open spec fn max_day(start: u64, days: Seq<u64>) -> u64
    decreases days.len(),
{
    if days.len() == 0 {
        start
    } else {
        let m = max_day(start, days.drop_last());
        if days.last() > m {
            days.last()
        } else {
            m
        }
    }
}

/// The backfill checkpoint only moves forward: after a chunk it is at least where it was
/// and at least every day stored, and it is one of those.
pub proof fn lemma_checkpoint_moves_forward(start: u64, days: Seq<u64>)
    ensures
        max_day(start, days) >= start,
        forall|i: int| 0 <= i < days.len() ==> max_day(start, days) >= #[trigger] days[i],
        max_day(start, days) == start || days.contains(max_day(start, days)),
    decreases days.len(),
{
    if days.len() > 0 {
        let p = days.drop_last();
        lemma_checkpoint_moves_forward(start, p);
        assert forall|i: int| 0 <= i < days.len() implies max_day(start, days) >= #[trigger] days[i] by {
            if i < p.len() {
                assert(p[i] == days[i]);
            }
        }
        if max_day(start, p) != start && days.last() <= max_day(start, p) {
            let j = choose|j: int| 0 <= j < p.len() && p[j] == max_day(start, p);
            assert(days[j] == p[j]);
        }
        assert(days[days.len() - 1] == days.last());
    }
}

impl ChunkBackfill {
    /// A backfill of `total` days starting at `resume_from`.
    pub fn new(total: usize, resume_from: u64, save_interval: usize) -> (r: Self)
        ensures
            r.total == total,
            r.fetched == 0,
            r.empty_chunks == 0,
            r.checkpoint_day == (if resume_from > 0 {
                resume_from - 1
            } else {
                0
            }),
            r.save_interval == save_interval,
    {
        ChunkBackfill {
            total,
            fetched: 0,
            empty_chunks: 0,
            checkpoint_day: if resume_from > 0 {
                resume_from - 1
            } else {
                0
            },
            save_interval,
        }
    }

    /// Takes in a chunk of `chunk_len` days of which the days `stored` came back: an
    /// empty answer to a non-empty chunk counts towards the pause, any other resets the
    /// count; the checkpoint moves to the latest stored day; progress is reported every
    /// hundred days and at the end, and a save is due every `save_interval` days.
    pub fn record_chunk(&mut self, chunk_len: usize, stored: &Vec<u64>) -> (r: ChunkStep)
        requires
            old(self).save_interval > 0,
            old(self).empty_chunks < MAX_EMPTY_CHUNKS,
            old(self).fetched + chunk_len <= usize::MAX,
        ensures
            final(self).total == old(self).total,
            final(self).save_interval == old(self).save_interval,
            final(self).empty_chunks == (if stored.len() == 0 && chunk_len > 0 {
                old(self).empty_chunks + 1
            } else {
                0
            }),
            r.abort == (final(self).empty_chunks >= MAX_EMPTY_CHUNKS),
            r.abort ==> final(self).fetched == old(self).fetched && final(self).checkpoint_day
                == old(self).checkpoint_day && !r.report_progress && !r.save,
            !r.abort ==> final(self).fetched == old(self).fetched + chunk_len
                && final(self).checkpoint_day == max_day(old(self).checkpoint_day, stored@)
                && r.report_progress == (final(self).fetched % 100 == 0 || final(self).fetched
                == final(self).total)
                && r.save == (final(self).fetched % final(self).save_interval == 0),
    {
        if stored.len() == 0 && chunk_len > 0 {
            self.empty_chunks = self.empty_chunks + 1;
            if self.empty_chunks >= MAX_EMPTY_CHUNKS {
                return ChunkStep { abort: true, report_progress: false, save: false };
            }
        } else {
            self.empty_chunks = 0;
        }
        let ghost start = self.checkpoint_day;
        let ghost errors = self.empty_chunks;
        let mut i: usize = 0;
        while i < stored.len()
            invariant
                i <= stored.len(),
                self.checkpoint_day == max_day(start, stored@.take(i as int)),
                self.fetched == old(self).fetched,
                self.total == old(self).total,
                self.save_interval == old(self).save_interval,
                self.empty_chunks == errors,
                old(self).save_interval > 0,
                old(self).fetched + chunk_len <= usize::MAX,
            decreases stored.len() - i,
        {
            assert(stored@.take(i + 1).drop_last() =~= stored@.take(i as int));
            if stored[i] > self.checkpoint_day {
                self.checkpoint_day = stored[i];
            }
            i = i + 1;
        }
        assert(stored@.take(i as int) =~= stored@);
        self.fetched = self.fetched + chunk_len;
        ChunkStep {
            abort: false,
            report_progress: self.fetched % 100 == 0 || self.fetched == self.total,
            save: self.fetched % self.save_interval == 0,
        }
    }
}

/// Which response of a batch answers request `i` (whose id is `i + 1`): the first one
/// carrying that id, else the one at position `i`, if there is one.
pub fn batch_response_index(ids: &Vec<Option<u64>>, i: usize) -> (r: Option<usize>)
    requires
        i + 1 <= u64::MAX,
    ensures
        match r {
            Some(j) => {
                ||| (j < ids.len() && ids@[j as int] == Some((i + 1) as u64) && forall|k: int|
                    0 <= k < j ==> ids@[k] != Some((i + 1) as u64))
                ||| (j == i && i < ids.len() && forall|k: int|
                    0 <= k < ids.len() ==> ids@[k] != Some((i + 1) as u64))
            },
            None => i >= ids.len() && forall|k: int|
                0 <= k < ids.len() ==> ids@[k] != Some((i + 1) as u64),
        },
{
    let want: u64 = (i as u64) + 1;
    let mut j: usize = 0;
    while j < ids.len()
        invariant
            j <= ids.len(),
            want == i + 1,
            forall|k: int| 0 <= k < j ==> ids@[k] != Some(want),
        decreases ids.len() - j,
    {
        if ids[j] == Some(want) {
            return Some(j);
        }
        j = j + 1;
    }
    if i < ids.len() {
        Some(i)
    } else {
        None
    }
}

} // verus!
