//! Performance bookkeeping: plain counters that the drivers around the
//! library may fill in. The hardware and kernel hooks that would feed
//! them live outside the library; here the counters are exact data.

use vstd::prelude::*;

verus! {

/// Packet and byte counters for one network endpoint.
#[derive(Debug, Clone, Copy)]
pub struct NetworkStats {
    pub rx_packets: u64,
    pub tx_packets: u64,
    pub rx_bytes: u64,
    pub tx_bytes: u64,
    pub errors: u64,
    pub dropped: u64,
}

impl NetworkStats {
    /// All counters at zero.
    pub fn new() -> (r: NetworkStats)
        ensures
            r.rx_packets == 0,
            r.tx_packets == 0,
            r.rx_bytes == 0,
            r.tx_bytes == 0,
            r.errors == 0,
            r.dropped == 0,
    {
        NetworkStats {
            rx_packets: 0,
            tx_packets: 0,
            rx_bytes: 0,
            tx_bytes: 0,
            errors: 0,
            dropped: 0,
        }
    }
}

/// Latency and volume counters for the I/O layer.
#[derive(Debug, Clone, Copy)]
pub struct IoStats {
    pub total_bytes: u64,
    pub operations: u64,
    pub avg_latency_us: u64,
    pub max_latency_us: u64,
}

/// Counters for a pool of connections.
#[derive(Debug, Clone, Copy)]
pub struct ConnectionStats {
    pub total_connections: u64,
    pub active_connections: u64,
    pub reused_connections: u64,
    pub new_connections: u64,
    pub cleaned_connections: u64,
}

impl ConnectionStats {
    /// All counters at zero.
    pub fn new() -> (r: ConnectionStats)
        ensures
            r.total_connections == 0,
            r.active_connections == 0,
            r.reused_connections == 0,
            r.new_connections == 0,
            r.cleaned_connections == 0,
    {
        ConnectionStats {
            total_connections: 0,
            active_connections: 0,
            reused_connections: 0,
            new_connections: 0,
            cleaned_connections: 0,
        }
    }
}

/// Hardware performance counters; the sampling hooks are not wired, so
/// `start` and `stop` only bracket a measurement without changing it.
pub struct PerformanceCounter {
    cpu_cycles: u64,
    instructions: u64,
    cache_misses: u64,
    branch_misses: u64,
}

impl PerformanceCounter {
    /// A counter with every metric at zero.
    pub fn new() -> (r: PerformanceCounter)
        ensures
            r.spec_metrics() == (0u64, 0u64, 0u64, 0u64),
    {
        PerformanceCounter { cpu_cycles: 0, instructions: 0, cache_misses: 0, branch_misses: 0 }
    }

    /// The four metrics: cycles, instructions, cache misses, branch misses.
    pub closed spec fn spec_metrics(self) -> (u64, u64, u64, u64) {
        (self.cpu_cycles, self.instructions, self.cache_misses, self.branch_misses)
    }

    /// Begin a measurement; without a sampling hook the metrics hold.
    pub fn start(&mut self)
        ensures
            *final (self) == *old(self),
    {
    }

    /// End a measurement; without a sampling hook the metrics hold.
    pub fn stop(&mut self)
        ensures
            *final (self) == *old(self),
    {
    }

    /// The metrics by name.
    pub fn get_metrics(&self) -> (r: Vec<(String, u64)>)
        ensures
            r@.len() == 4,
            r@[0].0@ == "cpu_cycles"@ && r@[0].1 == self.spec_metrics().0,
            r@[1].0@ == "instructions"@ && r@[1].1 == self.spec_metrics().1,
            r@[2].0@ == "cache_misses"@ && r@[2].1 == self.spec_metrics().2,
            r@[3].0@ == "branch_misses"@ && r@[3].1 == self.spec_metrics().3,
    {
        let mut r: Vec<(String, u64)> = Vec::new();
        r.push(("cpu_cycles".to_owned(), self.cpu_cycles));
        r.push(("instructions".to_owned(), self.instructions));
        r.push(("cache_misses".to_owned(), self.cache_misses));
        r.push(("branch_misses".to_owned(), self.branch_misses));
        r
    }
}

/// Tuning knobs for the async I/O layer; applying them is the driver's
/// business, the values themselves are exact data.
pub struct AsyncIoOptimizer {
    io_threads: usize,
    buffer_size: usize,
    batch_size: usize,
}

impl AsyncIoOptimizer {
    /// Knobs for the given thread count, with a 64 KiB buffer and batches
    /// of 32 operations.
    pub fn new(io_threads: usize) -> (r: AsyncIoOptimizer)
        ensures
            r.spec_io_threads() == io_threads,
            r.spec_buffer_size() == 65536,
            r.spec_batch_size() == 32,
    {
        AsyncIoOptimizer { io_threads, buffer_size: 65536, batch_size: 32 }
    }

    pub closed spec fn spec_io_threads(self) -> usize {
        self.io_threads
    }

    pub closed spec fn spec_buffer_size(self) -> usize {
        self.buffer_size
    }

    pub closed spec fn spec_batch_size(self) -> usize {
        self.batch_size
    }

    /// Validate the knobs: a zero thread count or buffer size cannot be
    /// applied.
    pub fn optimize(&self) -> (r: Result<(), ()>)
        ensures
            r is Ok <==> self.spec_io_threads() > 0 && self.spec_buffer_size() > 0,
    {
        if self.io_threads > 0 && self.buffer_size > 0 {
            Ok(())
        } else {
            Err(())
        }
    }
}

} // verus!
