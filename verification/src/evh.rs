//! The bookkeeping of the event handler: its configuration, its statistics,
//! and the write state of a connection, with the decisions taken on each
//! write, close and write-readiness event. The system calls themselves are
//! made by the caller, which hands their results back.
use crate::config::{
    check_config, config_acceptable, find_option, first_named, lemma_first_named, option_name, ConfigName, ConfigOption,
};
use crate::error::{CoreErrorKind, ErrKind, Error};
use vstd::prelude::*;

verus! {

/// Data is waiting in the write buffer.
pub const WRITE_STATE_FLAG_PENDING: u8 = 1;
/// The connection is to be closed.
pub const WRITE_STATE_FLAG_CLOSE: u8 = 2;
/// A read callback was asked for.
pub const WRITE_STATE_FLAG_TRIGGER_ON_READ: u8 = 4;

/// The `errno` values that mean a write would block.
pub const EAGAIN: i32 = 11;
pub const ETEMPUNAVAILABLE: i32 = 35;
pub const WINNONBLOCKING: i32 = 10035;

/// The write side of a connection: flags and the data not written yet.
pub struct WriteState {
    pub flags: u8,
    pub write_buffer: Vec<u8>,
}

/// Whether `flag` is set in `flags`.
pub open spec fn flag_set(flags: u8, flag: u8) -> bool {
    flags & flag != 0
}

impl WriteState {
    /// No flags and nothing to write.
    pub fn new() -> (r: WriteState)
        ensures
            r.flags == 0,
            r.write_buffer@ == Seq::<u8>::empty(),
    {
        WriteState { flags: 0, write_buffer: Vec::new() }
    }

    /// Sets the bits of `flag`.
    pub fn set_flag(&mut self, flag: u8)
        ensures
            final(self).flags == old(self).flags | flag,
            final(self).write_buffer@ == old(self).write_buffer@,
    {
        self.flags = self.flags | flag;
    }

    /// Clears the bits of `flag`.
    pub fn unset_flag(&mut self, flag: u8)
        ensures
            final(self).flags == old(self).flags & !flag,
            final(self).write_buffer@ == old(self).write_buffer@,
    {
        self.flags = self.flags & !flag;
    }

    /// Whether any bit of `flag` is set.
    pub fn is_set(&self, flag: u8) -> (r: bool)
        ensures
            r == flag_set(self.flags, flag),
    {
        self.flags & flag != 0
    }
}

/// Setting a flag makes it set and leaves the other flags as they were;
/// clearing it makes it clear and leaves the others as they were.
pub proof fn law_flags(flags: u8, flag: u8, other: u8)
    requires
        flag == WRITE_STATE_FLAG_PENDING || flag == WRITE_STATE_FLAG_CLOSE || flag
            == WRITE_STATE_FLAG_TRIGGER_ON_READ,
        other == WRITE_STATE_FLAG_PENDING || other == WRITE_STATE_FLAG_CLOSE || other
            == WRITE_STATE_FLAG_TRIGGER_ON_READ,
        other != flag,
    ensures
        flag_set(flags | flag, flag),
        !flag_set(flags & !flag, flag),
        flag_set(flags | flag, other) == flag_set(flags, other),
        flag_set(flags & !flag, other) == flag_set(flags, other),
{
    assert(flag_set(flags | flag, flag)) by (bit_vector)
        requires
            flag == 1u8 || flag == 2u8 || flag == 4u8,
    ;
    assert(!flag_set(flags & !flag, flag)) by (bit_vector)
        requires
            flag == 1u8 || flag == 2u8 || flag == 4u8,
    ;
    assert(flag_set(flags | flag, other) == flag_set(flags, other)) by (bit_vector)
        requires
            flag == 1u8 || flag == 2u8 || flag == 4u8,
            other == 1u8 || other == 2u8 || other == 4u8,
            other != flag,
    ;
    assert(flag_set(flags & !flag, other) == flag_set(flags, other)) by (bit_vector)
        requires
            flag == 1u8 || flag == 2u8 || flag == 4u8,
            other == 1u8 || other == 2u8 || other == 4u8,
            other != flag,
    ;
}

/// How a write on a connection starts.
#[derive(Clone, Copy, Debug, PartialEq, Eq, Structural)]
pub enum WriteStart {
    /// Earlier data is still waiting: the data is queued behind it.
    Queue,
    /// The data is written to the socket now.
    Direct,
}

impl WriteState {
    /// How a write starts: on a closed connection it is an `IO` error;
    /// otherwise it is queued behind pending data, or made directly.
    pub fn begin_write(&self) -> (r: Result<WriteStart, Error>)
        ensures
            flag_set(self.flags, WRITE_STATE_FLAG_CLOSE) <==> r is Err,
            r matches Err(e) ==> e.is_io(),
            r matches Ok(w) ==> w == if flag_set(self.flags, WRITE_STATE_FLAG_PENDING) {
                WriteStart::Queue
            } else {
                WriteStart::Direct
            },
    {
        if self.is_set(WRITE_STATE_FLAG_CLOSE) {
            Err(Error::base(CoreErrorKind::IO(String::from_str("write on a closed handle"))))
        } else if self.is_set(WRITE_STATE_FLAG_PENDING) {
            Ok(WriteStart::Queue)
        } else {
            Ok(WriteStart::Direct)
        }
    }

    /// Finishes a write of `data` of which the socket took `written` bytes
    /// (zero when the write was queued, negative when it failed). A failed
    /// write is an `IO` error; what the socket did not take is appended to
    /// the write buffer and marks the connection pending. Returns whether
    /// data was queued.
    pub fn finish_write(&mut self, data: &[u8], written: isize) -> (r: Result<bool, Error>)
        requires
            written < 0 || written <= data@.len(),
        ensures
            written < 0 <==> r is Err,
            r matches Err(e) ==> e.is_io() && *final(self) == *old(self),
            r matches Ok(q) ==> q == (written < data@.len()),
            r matches Ok(q) ==> (q ==> final(self).write_buffer@ == old(self).write_buffer@ + data@.subrange(
                written as int,
                data@.len() as int,
            ) && final(self).flags == old(self).flags | WRITE_STATE_FLAG_PENDING),
            r matches Ok(q) ==> (!q ==> final(self).write_buffer@ == old(self).write_buffer@
                && final(self).flags == old(self).flags),
    {
        if written < 0 {
            return Err(Error::base(CoreErrorKind::IO(String::from_str("write I/O error"))));
        }
        let wlen = written as usize;
        let n = data.len();
        if wlen < n {
            self.set_flag(WRITE_STATE_FLAG_PENDING);
            let ghost before = self.write_buffer@;
            let ghost f = self.flags;
            let mut i = wlen;
            while i < n
                invariant
                    self.flags == f,
                    wlen <= i <= n,
                    n == data@.len(),
                    self.write_buffer@ == before + data@.subrange(wlen as int, i as int),
                decreases n - i,
            {
                self.write_buffer.push(data[i]);
                assert(self.write_buffer@ =~= before + data@.subrange(wlen as int, i + 1));
                i = i + 1;
            }
            Ok(true)
        } else {
            Ok(false)
        }
    }

    /// Marks the connection to be closed; closing a closed connection is an
    /// `IO` error.
    pub fn close(&mut self) -> (r: Result<(), Error>)
        ensures
            flag_set(old(self).flags, WRITE_STATE_FLAG_CLOSE) <==> r is Err,
            r matches Err(e) ==> e.is_io() && *final(self) == *old(self),
            r is Ok ==> final(self).flags == old(self).flags | WRITE_STATE_FLAG_CLOSE
                && final(self).write_buffer@ == old(self).write_buffer@,
    {
        if self.is_set(WRITE_STATE_FLAG_CLOSE) {
            return Err(
                Error::base(CoreErrorKind::IO(String::from_str("try to close a handle that is already closed"))),
            );
        }
        self.set_flag(WRITE_STATE_FLAG_CLOSE);
        Ok(())
    }

    /// Asks for a read callback; on a closed connection this is an `IO`
    /// error.
    pub fn trigger_on_read(&mut self) -> (r: Result<(), Error>)
        ensures
            flag_set(old(self).flags, WRITE_STATE_FLAG_CLOSE) <==> r is Err,
            r matches Err(e) ==> e.is_io() && *final(self) == *old(self),
            r is Ok ==> final(self).flags == old(self).flags | WRITE_STATE_FLAG_TRIGGER_ON_READ
                && final(self).write_buffer@ == old(self).write_buffer@,
    {
        if self.is_set(WRITE_STATE_FLAG_CLOSE) {
            return Err(Error::base(CoreErrorKind::IO(String::from_str("trigger_on_read on a closed handle"))));
        }
        self.set_flag(WRITE_STATE_FLAG_TRIGGER_ON_READ);
        Ok(())
    }
}

/// What the event loop does for a connection whose handle was queued for
/// writing.
#[derive(Clone, Copy, Debug, PartialEq, Eq, Structural)]
pub struct WriteQueueAction {
    /// Close the connection now.
    pub close: bool,
    /// Call the read callback.
    pub trigger_on_read: bool,
    /// Wait for the socket to accept the pending data.
    pub await_writable: bool,
}

impl WriteState {
    /// Takes the requests queued on the connection: a close is done once no
    /// data is pending, a read callback once (its flag is cleared), and
    /// pending data waits for the socket to be writable.
    pub fn take_requests(&mut self) -> (r: WriteQueueAction)
        ensures
            r.close == (flag_set(old(self).flags, WRITE_STATE_FLAG_CLOSE) && !flag_set(
                old(self).flags,
                WRITE_STATE_FLAG_PENDING,
            )),
            r.trigger_on_read == flag_set(old(self).flags, WRITE_STATE_FLAG_TRIGGER_ON_READ),
            r.await_writable == flag_set(old(self).flags, WRITE_STATE_FLAG_PENDING),
            final(self).flags == if r.trigger_on_read {
                old(self).flags & !WRITE_STATE_FLAG_TRIGGER_ON_READ
            } else {
                old(self).flags
            },
            final(self).write_buffer@ == old(self).write_buffer@,
    {
        let close = self.is_set(WRITE_STATE_FLAG_CLOSE);
        let trigger = self.is_set(WRITE_STATE_FLAG_TRIGGER_ON_READ);
        let pending = self.is_set(WRITE_STATE_FLAG_PENDING);
        if trigger {
            self.unset_flag(WRITE_STATE_FLAG_TRIGGER_ON_READ);
        }
        WriteQueueAction { close: close && !pending, trigger_on_read: trigger, await_writable: pending }
    }
}

/// What a step of writing the buffered data leads to.
#[derive(Clone, Copy, Debug, PartialEq, Eq, Structural)]
pub enum FlushStep {
    /// Some or none of the data was written; write again.
    Again,
    /// The socket would block; wait until it is writable.
    Blocked,
    /// The write failed; close the connection.
    Failed,
    /// Everything was written.
    Done,
}

/// A write result that means the socket would block.
pub open spec fn would_block(errno: i32) -> bool {
    errno == EAGAIN || errno == ETEMPUNAVAILABLE || errno == WINNONBLOCKING
}

/// How many writes of buffered data took bytes, and how many bytes they
/// took.
#[derive(Clone, Copy, Debug, PartialEq, Eq, Structural)]
pub struct WriteTally {
    pub count: usize,
    pub sum: u128,
}

impl WriteState {
    /// One step of writing the buffered data, given what the socket took
    /// (`written`, negative on failure with `errno`): written bytes leave
    /// the buffer and a write that took bytes is counted in `tally`; a
    /// failure other than one that would block closes the connection.
    pub fn flush_step(&mut self, written: isize, errno: i32, tally: &mut WriteTally) -> (r: FlushStep)
        requires
            written <= old(self).write_buffer@.len(),
            old(tally).count < usize::MAX,
            old(tally).sum + old(self).write_buffer@.len() <= u128::MAX,
        ensures
            *final(tally) == if written > 0 {
                WriteTally { count: (old(tally).count + 1) as usize, sum: (old(tally).sum + written) as u128 }
            } else {
                *old(tally)
            },
            written >= 0 ==> r == FlushStep::Again && final(self).write_buffer@ == old(
                self,
            ).write_buffer@.subrange(written as int, old(self).write_buffer@.len() as int),
            written < 0 ==> r == (if would_block(errno) {
                FlushStep::Blocked
            } else {
                FlushStep::Failed
            }) && final(self).write_buffer@ == old(self).write_buffer@,
            final(self).flags == old(self).flags,
    {
        if written < 0 {
            if errno != EAGAIN && errno != ETEMPUNAVAILABLE && errno != WINNONBLOCKING {
                FlushStep::Failed
            } else {
                FlushStep::Blocked
            }
        } else {
            let w = written as usize;
            let n = self.write_buffer.len();
            let mut rest: Vec<u8> = Vec::new();
            let mut i = w;
            while i < n
                invariant
                    w <= i <= n,
                    n == self.write_buffer@.len(),
                    rest@ == self.write_buffer@.subrange(w as int, i as int),
                decreases n - i,
            {
                rest.push(self.write_buffer[i]);
                assert(rest@ =~= self.write_buffer@.subrange(w as int, i + 1));
                i = i + 1;
            }
            self.write_buffer = rest;
            if w > 0 {
                tally.count = tally.count + 1;
                tally.sum = tally.sum + w as u128;
            }
            FlushStep::Again
        }
    }

    /// Ends writing the buffered data: when the buffer is empty the
    /// connection is no longer pending, and a requested close is due.
    /// Returns whether the connection is to be closed.
    pub fn finish_flush(&mut self) -> (r: bool)
        ensures
            old(self).write_buffer@.len() == 0 ==> final(self).flags == old(self).flags
                & !WRITE_STATE_FLAG_PENDING && r == flag_set(old(self).flags, WRITE_STATE_FLAG_CLOSE),
            old(self).write_buffer@.len() != 0 ==> final(self).flags == old(self).flags && !r,
            final(self).write_buffer@ == old(self).write_buffer@,
    {
        if self.write_buffer.len() == 0 {
            self.unset_flag(WRITE_STATE_FLAG_PENDING);
            let ghost f = self.flags;
            let r = self.is_set(WRITE_STATE_FLAG_CLOSE);
            assert(r == flag_set(old(self).flags, WRITE_STATE_FLAG_CLOSE)) by {
                law_flags(old(self).flags, WRITE_STATE_FLAG_PENDING, WRITE_STATE_FLAG_CLOSE);
            }
            r
        } else {
            false
        }
    }
}

/// The bytes of a write are sent in order: what the socket took first,
/// then what was queued behind the data already waiting, as the buffer is
/// flushed from its front.
pub proof fn law_write_keeps_order(data: Seq<u8>, written: int, waiting: Seq<u8>)
    requires
        0 <= written <= data.len(),
    ensures
        data.subrange(0, written) + data.subrange(written, data.len() as int) == data,
        (waiting + data.subrange(written, data.len() as int)).subrange(
            waiting.len() as int,
            waiting.len() + data.len() - written,
        ) == data.subrange(written, data.len() as int),
{
    assert(data.subrange(0, written) + data.subrange(written, data.len() as int) =~= data);
    assert((waiting + data.subrange(written, data.len() as int)).subrange(
        waiting.len() as int,
        waiting.len() + data.len() - written,
    ) =~= data.subrange(written, data.len() as int));
}

/// What a thread does on restarting after a callback panicked: the panic
/// came from the callback of the event it was working on, and that
/// connection is closed and its event skipped.
#[derive(Clone, Copy, Debug, PartialEq, Eq, Structural)]
pub enum PanicRecovery {
    /// Close the connection of the read callback asked for by handle, at
    /// this index of the list of handles to call back, and go on after it.
    CloseTriggered(usize),
    /// Close the connection of the event at this index of the events being
    /// processed, and go on after it.
    CloseEvent(usize),
    /// No event was being processed: nothing to close.
    Nothing,
}

/// What a thread does after a panic, and where it goes on in its list of
/// read callbacks asked for and in the events of the last poll.
#[derive(Clone, Copy, Debug, PartialEq, Eq, Structural)]
pub struct RecoveryPlan {
    pub close: PanicRecovery,
    pub trigger_itt: usize,
    pub event_itt: usize,
}

/// Chooses what to close after a panic, given how far the thread was in its
/// list of read callbacks asked for (`trigger_itt` of `trigger_count`) and
/// in the events of the last poll (`event_itt` of `event_count`): callbacks
/// asked for are handled first, so one of them is at fault while some are
/// left, otherwise the current event. The entry at fault is stepped over,
/// so that the rest of the list is processed.
pub fn panic_recovery(trigger_itt: usize, trigger_count: usize, event_itt: usize, event_count: usize) -> (r:
    RecoveryPlan)
    ensures
        r == if trigger_itt < trigger_count {
            RecoveryPlan {
                close: PanicRecovery::CloseTriggered(trigger_itt),
                trigger_itt: (trigger_itt + 1) as usize,
                event_itt,
            }
        } else if event_itt < event_count {
            RecoveryPlan {
                close: PanicRecovery::CloseEvent(event_itt),
                trigger_itt,
                event_itt: (event_itt + 1) as usize,
            }
        } else {
            RecoveryPlan { close: PanicRecovery::Nothing, trigger_itt, event_itt }
        },
{
    if trigger_itt < trigger_count {
        RecoveryPlan { close: PanicRecovery::CloseTriggered(trigger_itt), trigger_itt: trigger_itt + 1, event_itt }
    } else if event_itt < event_count {
        RecoveryPlan { close: PanicRecovery::CloseEvent(event_itt), trigger_itt, event_itt: event_itt + 1 }
    } else {
        RecoveryPlan { close: PanicRecovery::Nothing, trigger_itt, event_itt }
    }
}

/// How long a thread waits for events: not at all when it was asked to
/// wake up, otherwise until the next housekeeping is due, given the time of
/// its last poll (`last_poll`) and now, in milliseconds.
pub fn poll_sleep_millis(wakeup_requested: bool, housekeeping_millis: usize, now: u128, last_poll: u128) -> (r: u128)
    requires
        last_poll <= now,
    ensures
        r == if wakeup_requested || now - last_poll >= housekeeping_millis {
            0
        } else {
            housekeeping_millis - (now - last_poll)
        },
{
    let diff = now - last_poll;
    let h = housekeeping_millis as u128;
    if wakeup_requested || diff >= h {
        0
    } else {
        h - diff
    }
}

/// Counts of what the event handler did in a statistics interval.
#[derive(Clone, Copy, Debug, PartialEq, Eq, Structural)]
pub struct EvhStats {
    /// Connections accepted.
    pub accepts: usize,
    /// Connections closed.
    pub closes: usize,
    /// Reads completed.
    pub reads: usize,
    /// Writes that had to wait for the socket.
    pub delay_writes: usize,
    /// Passes through the event loop.
    pub event_loops: usize,
    /// Bytes read.
    pub bytes_read: u128,
    /// Bytes written after waiting for the socket.
    pub bytes_delay_write: u128,
}

/// All counts zero.
pub open spec fn zero_stats() -> EvhStats {
    EvhStats {
        accepts: 0,
        closes: 0,
        reads: 0,
        delay_writes: 0,
        event_loops: 0,
        bytes_read: 0,
        bytes_delay_write: 0,
    }
}

/// Adding the counts of `b` to those of `a` stays within their types.
pub open spec fn stats_addable(a: EvhStats, b: EvhStats) -> bool {
    &&& a.accepts + b.accepts <= usize::MAX
    &&& a.closes + b.closes <= usize::MAX
    &&& a.reads + b.reads <= usize::MAX
    &&& a.delay_writes + b.delay_writes <= usize::MAX
    &&& a.event_loops + b.event_loops <= usize::MAX
    &&& a.bytes_read + b.bytes_read <= u128::MAX
    &&& a.bytes_delay_write + b.bytes_delay_write <= u128::MAX
}

/// The counts of `a` and `b` added.
pub open spec fn stats_sum(a: EvhStats, b: EvhStats) -> EvhStats {
    EvhStats {
        accepts: (a.accepts + b.accepts) as usize,
        closes: (a.closes + b.closes) as usize,
        reads: (a.reads + b.reads) as usize,
        delay_writes: (a.delay_writes + b.delay_writes) as usize,
        event_loops: (a.event_loops + b.event_loops) as usize,
        bytes_read: (a.bytes_read + b.bytes_read) as u128,
        bytes_delay_write: (a.bytes_delay_write + b.bytes_delay_write) as u128,
    }
}

impl EvhStats {
    /// All counts zero.
    pub fn new() -> (r: EvhStats)
        ensures
            r == zero_stats(),
    {
        EvhStats {
            accepts: 0,
            closes: 0,
            reads: 0,
            delay_writes: 0,
            event_loops: 0,
            bytes_read: 0,
            bytes_delay_write: 0,
        }
    }

    /// Sets all counts to zero.
    pub fn reset(&mut self)
        ensures
            *final(self) == zero_stats(),
    {
        self.accepts = 0;
        self.closes = 0;
        self.reads = 0;
        self.delay_writes = 0;
        self.event_loops = 0;
        self.bytes_read = 0;
        self.bytes_delay_write = 0;
    }

    /// Adds the counts of `stats`.
    pub fn incr_stats(&mut self, stats: &EvhStats)
        requires
            stats_addable(*old(self), *stats),
        ensures
            *final(self) == stats_sum(*old(self), *stats),
    {
        self.accepts = self.accepts + stats.accepts;
        self.closes = self.closes + stats.closes;
        self.reads = self.reads + stats.reads;
        self.delay_writes = self.delay_writes + stats.delay_writes;
        self.event_loops = self.event_loops + stats.event_loops;
        self.bytes_read = self.bytes_read + stats.bytes_read;
        self.bytes_delay_write = self.bytes_delay_write + stats.bytes_delay_write;
    }
}

/// Adding zero counts changes nothing, and the order in which the counts of
/// two threads are added does not matter.
pub proof fn law_stats_sum(a: EvhStats, b: EvhStats, c: EvhStats)
    ensures
        stats_sum(a, zero_stats()) == a,
        stats_addable(a, b) ==> stats_sum(a, b) == stats_sum(b, a),
        stats_addable(a, b) && stats_addable(stats_sum(a, b), c) ==> stats_sum(stats_sum(a, b), c)
            == stats_sum(a, stats_sum(b, c)),
{
}

/// The statistics gathered from all threads, and how many threads reported
/// since they were last published.
pub struct GlobalStats {
    pub stats: EvhStats,
    pub update_counter: usize,
}

impl GlobalStats {
    /// Adds the counts a thread reports. Once as many reports as there are
    /// `threads` came in, the counter starts again and the statistics are
    /// to be published: the result says so.
    pub fn record(&mut self, thread_stats: &EvhStats, threads: usize) -> (r: bool)
        requires
            stats_addable(old(self).stats, *thread_stats),
            old(self).update_counter < usize::MAX,
        ensures
            final(self).stats == stats_sum(old(self).stats, *thread_stats),
            r == (old(self).update_counter + 1 >= threads),
            final(self).update_counter == if r {
                0
            } else {
                (old(self).update_counter + 1) as usize
            },
    {
        self.stats.incr_stats(thread_stats);
        self.update_counter = self.update_counter + 1;
        if self.update_counter >= threads {
            self.update_counter = 0;
            true
        } else {
            false
        }
    }
}

/// The configuration of an event handler.
#[derive(Clone, Copy, Debug, PartialEq, Eq, Structural)]
pub struct EventHandlerConfig {
    pub threads: usize,
    pub debug: bool,
    pub timeout: u16,
    pub read_slab_size: usize,
    pub read_slab_count: usize,
    pub housekeeping_frequency_millis: usize,
    pub stats_update_frequency_millis: usize,
}

/// The names an event handler may be configured with.
pub open spec fn evh_option_names() -> Seq<ConfigName> {
    seq![
        ConfigName::EvhReadSlabSize,
        ConfigName::EvhReadSlabCount,
        ConfigName::EvhTimeout,
        ConfigName::EvhThreads,
        ConfigName::EvhHouseKeeperFrequencyMillis,
        ConfigName::EvhStatsUpdateMillis,
        ConfigName::Debug,
    ]
}

/// The number an option holds, if it holds a `usize`.
pub open spec fn option_usize(o: ConfigOption) -> usize {
    match o {
        ConfigOption::EvhThreads(v) => v,
        ConfigOption::EvhReadSlabSize(v) => v,
        ConfigOption::EvhReadSlabCount(v) => v,
        ConfigOption::EvhHouseKeeperFrequencyMillis(v) => v,
        ConfigOption::EvhStatsUpdateMillis(v) => v,
        _ => 0,
    }
}

/// The `usize` of the first option named `n`, or `default`.
pub open spec fn usize_or(opts: Seq<ConfigOption>, n: ConfigName, default: usize) -> usize {
    match first_named(opts, n) {
        Some(i) => option_usize(opts[i]),
        None => default,
    }
}

/// The configuration the options describe: options other than those of an
/// event handler, or given twice, are a `Configuration` error, and so are
/// no read slabs, read slabs under 25 bytes, a zero timeout and a zero
/// housekeeping frequency. Unset options take their defaults: 4 threads,
/// a timeout of 1000 ms, 1000 read slabs of 512 bytes, housekeeping every
/// 10 s and statistics every 5 s.
pub open spec fn evh_config_spec(opts: Seq<ConfigOption>) -> Option<EventHandlerConfig> {
    let c = EventHandlerConfig {
        threads: usize_or(opts, ConfigName::EvhThreads, 4),
        debug: match first_named(opts, ConfigName::Debug) {
            Some(i) => match opts[i] {
                ConfigOption::Debug(b) => b,
                _ => false,
            },
            None => false,
        },
        timeout: match first_named(opts, ConfigName::EvhTimeout) {
            Some(i) => match opts[i] {
                ConfigOption::EvhTimeout(t) => t,
                _ => 0,
            },
            None => 1000,
        },
        read_slab_size: usize_or(opts, ConfigName::EvhReadSlabSize, 512),
        read_slab_count: usize_or(opts, ConfigName::EvhReadSlabCount, 1000),
        housekeeping_frequency_millis: usize_or(opts, ConfigName::EvhHouseKeeperFrequencyMillis, 10000),
        stats_update_frequency_millis: usize_or(opts, ConfigName::EvhStatsUpdateMillis, 5000),
    };
    if !config_acceptable(opts, evh_option_names(), Seq::empty()) || c.read_slab_count == 0
        || c.read_slab_size < 25 || c.timeout == 0 || c.housekeeping_frequency_millis == 0 {
        None
    } else {
        Some(c)
    }
}

/// An option given to an event handler is the value its configuration
/// takes: when the options are accepted and hold `EvhStatsUpdateMillis(v)`
/// (or another event handler option with value `v`), the configuration has
/// `v` there, whatever the other options are.
pub proof fn law_config_takes_given_values(opts: Seq<ConfigOption>, i: int)
    requires
        0 <= i < opts.len(),
        evh_config_spec(opts) is Some,
    ensures
        ({
            let c = evh_config_spec(opts)->0;
            &&& opts[i] matches ConfigOption::EvhStatsUpdateMillis(v) ==> c.stats_update_frequency_millis == v
            &&& opts[i] matches ConfigOption::EvhHouseKeeperFrequencyMillis(v) ==> c.housekeeping_frequency_millis == v
            &&& opts[i] matches ConfigOption::EvhThreads(v) ==> c.threads == v
            &&& opts[i] matches ConfigOption::EvhReadSlabSize(v) ==> c.read_slab_size == v
            &&& opts[i] matches ConfigOption::EvhReadSlabCount(v) ==> c.read_slab_count == v
            &&& opts[i] matches ConfigOption::EvhTimeout(v) ==> c.timeout == v
            &&& opts[i] matches ConfigOption::Debug(b) ==> c.debug == b
        }),
{
    let n = option_name(opts[i]);
    lemma_first_named(opts, n);
    assert(config_acceptable(opts, evh_option_names(), Seq::empty()));
    let k = first_named(opts, n)->0;
    assert(first_named(opts, n) is Some) by {
        if first_named(opts, n) is None {
            assert(option_name(opts[i]) != n);
        }
    }
    if k < i {
        assert(option_name(opts[k]) == option_name(opts[i]));
        assert(!Seq::<ConfigName>::empty().contains(option_name(opts[k])));
    }
    if k > i {
        assert(option_name(opts[i]) != n);
    }
    assert(k == i);
}

fn usize_option_or(opts: &[ConfigOption], n: ConfigName, default: usize) -> (r: usize)
    ensures
        r == usize_or(opts@, n, default),
{
    match find_option(opts, n) {
        Some(i) => match &opts[i] {
            ConfigOption::EvhThreads(v) => *v,
            ConfigOption::EvhReadSlabSize(v) => *v,
            ConfigOption::EvhReadSlabCount(v) => *v,
            ConfigOption::EvhHouseKeeperFrequencyMillis(v) => *v,
            ConfigOption::EvhStatsUpdateMillis(v) => *v,
            _ => 0,
        },
        None => default,
    }
}

fn config_error(text: &str) -> (e: Error)
    ensures
        e.spec_kind() is Configuration,
{
    Error::new(ErrKind::Configuration(String::from_str(text)))
}

impl EventHandlerConfig {
    /// Builds the configuration of an event handler from options (see
    /// `evh_config_spec`); an unacceptable one is a `Configuration` error.
    pub fn build(opts: &[ConfigOption]) -> (r: Result<EventHandlerConfig, Error>)
        ensures
            match evh_config_spec(opts@) {
                Some(c) => r == Ok::<EventHandlerConfig, Error>(c),
                None => r matches Err(e) && e.spec_kind() is Configuration,
            },
    {
        let allowed = vec![
            ConfigName::EvhReadSlabSize,
            ConfigName::EvhReadSlabCount,
            ConfigName::EvhTimeout,
            ConfigName::EvhThreads,
            ConfigName::EvhHouseKeeperFrequencyMillis,
            ConfigName::EvhStatsUpdateMillis,
            ConfigName::Debug,
        ];
        let dupes: Vec<ConfigName> = Vec::new();
        assert(allowed@ =~= evh_option_names());
        assert(dupes@ =~= Seq::<ConfigName>::empty());
        match check_config(opts, allowed.as_slice(), dupes.as_slice()) {
            Ok(()) => {},
            Err(e) => return Err(e),
        }
        let threads = usize_option_or(opts, ConfigName::EvhThreads, 4);
        let read_slab_count = usize_option_or(opts, ConfigName::EvhReadSlabCount, 1000);
        let read_slab_size = usize_option_or(opts, ConfigName::EvhReadSlabSize, 512);
        let debug = match find_option(opts, ConfigName::Debug) {
            Some(i) => match &opts[i] {
                ConfigOption::Debug(b) => *b,
                _ => false,
            },
            None => false,
        };
        let timeout: u16 = match find_option(opts, ConfigName::EvhTimeout) {
            Some(i) => match &opts[i] {
                ConfigOption::EvhTimeout(t) => *t,
                _ => 0,
            },
            None => 1000,
        };
        let housekeeping_frequency_millis = usize_option_or(
            opts,
            ConfigName::EvhHouseKeeperFrequencyMillis,
            10000,
        );
        let stats_update_frequency_millis = usize_option_or(opts, ConfigName::EvhStatsUpdateMillis, 5000);
        if read_slab_count == 0 {
            return Err(config_error("EvhReadSlabCount count must not be 0"));
        }
        if read_slab_size < 25 {
            return Err(config_error("EvhReadSlabSize must be at least 25"));
        }
        if timeout == 0 {
            return Err(config_error("EvhTimeout must not be 0"));
        }
        if housekeeping_frequency_millis == 0 {
            return Err(config_error("EvhHouseKeeperFrequencyMillis must not be 0"));
        }
        Ok(
            EventHandlerConfig {
                threads,
                debug,
                timeout,
                read_slab_size,
                read_slab_count,
                housekeeping_frequency_millis,
                stats_update_frequency_millis,
            },
        )
    }
}

/// What a thread's housekeeping pass does at time `now`: whether the
/// housekeeping callback is due and whether the statistics are published,
/// and the times of the last of each afterwards.
#[derive(Clone, Copy, Debug, PartialEq, Eq, Structural)]
pub struct HousekeepingPlan {
    pub call_housekeeper: bool,
    pub update_stats: bool,
    pub last_housekeeping: usize,
    pub last_stats_update: usize,
}

/// The housekeeping callback is due once more than the configured
/// housekeeping period has passed since it last ran, and the statistics are
/// published once more than their period has passed since they last were;
/// what runs is stamped with `now` (all in milliseconds).
pub fn housekeeping_step(now: usize, last_housekeeping: usize, last_stats_update: usize, config: &EventHandlerConfig) -> (r:
    HousekeepingPlan)
    ensures
        r.call_housekeeper == (now - last_housekeeping > config.housekeeping_frequency_millis),
        r.update_stats == (now - last_stats_update > config.stats_update_frequency_millis),
        r.last_housekeeping == if r.call_housekeeper {
            now
        } else {
            last_housekeeping
        },
        r.last_stats_update == if r.update_stats {
            now
        } else {
            last_stats_update
        },
{
    let hk = now.saturating_sub(last_housekeeping) > config.housekeeping_frequency_millis;
    let st = now.saturating_sub(last_stats_update) > config.stats_update_frequency_millis;
    HousekeepingPlan {
        call_housekeeper: hk,
        update_stats: st,
        last_housekeeping: if hk {
            now
        } else {
            last_housekeeping
        },
        last_stats_update: if st {
            now
        } else {
            last_stats_update
        },
    }
}

} // verus!
