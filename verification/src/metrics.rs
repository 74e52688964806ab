//! The metrics snapshot: one sampling cycle's worth of resource
//! counters, its aggregation from per-device figures, and its
//! rendering as a report.

use vstd::prelude::*;

use crate::formatting::format_bytes;
use crate::formatting::format_percent;
use crate::formatting::spec_format_bytes;
use crate::formatting::spec_format_percent;
use crate::formatting::spec_round_div;

verus! {

/// Resource counters gathered over one sampling window. Gauges (CPU,
/// memory) are instantaneous readings; disk and network figures are
/// deltas over the window.
#[derive(Debug)]
pub struct MetricsSnapshot {
    /// Global CPU utilization over the sampling window, in tenths of a
    /// percent (503 means 50.3%; may exceed 1000 transiently on
    /// platforms with multi-core aggregation quirks).
    pub cpu_usage_tenths: u64,
    /// Resident memory in use, in bytes.
    pub memory_used_bytes: u64,
    /// Installed memory, in bytes.
    pub memory_total_bytes: u64,
    /// Bytes read across all storage devices during the window.
    pub disk_read_bytes: u64,
    /// Bytes written across all storage devices during the window.
    pub disk_write_bytes: u64,
    /// Bytes received across all network interfaces during the window.
    pub net_rx_bytes: u64,
    /// Bytes transmitted across all network interfaces during the
    /// window.
    pub net_tx_bytes: u64,
}

/// The eight display strings derived from a snapshot.
#[derive(Debug)]
pub struct FormattedMetrics {
    pub cpu_usage: String,
    pub memory_used: String,
    pub memory_total: String,
    pub memory_usage_percent: String,
    pub disk_read: String,
    pub disk_write: String,
    pub net_rx: String,
    pub net_tx: String,
}

/// What the memory percentage renders as: a percentage with one
/// decimal digit, rounded to the nearest tenth, or `"N/A"` when no
/// total is known (a zero total must not be divided by).
pub open spec fn spec_memory_percent(used: nat, total: nat) -> Seq<char> {
    if total == 0 {
        seq!['N', '/', 'A']
    } else {
        spec_format_percent(spec_round_div(1000 * used, total))
    }
}

/// Sum of the first components of a sequence of counter pairs.
pub open spec fn spec_sum_fst(s: Seq<(u64, u64)>) -> int
    decreases s.len(),
{
    if s.len() == 0 {
        0
    } else {
        spec_sum_fst(s.drop_last()) + s.last().0
    }
}

/// Sum of the second components of a sequence of counter pairs.
pub open spec fn spec_sum_snd(s: Seq<(u64, u64)>) -> int
    decreases s.len(),
{
    if s.len() == 0 {
        0
    } else {
        spec_sum_snd(s.drop_last()) + s.last().1
    }
}

/// `n` clamped to the largest 64-bit value.
pub open spec fn spec_clamp_u64(n: int) -> int {
    if n > 0xffff_ffff_ffff_ffff {
        0xffff_ffff_ffff_ffff
    } else {
        n
    }
}

/// Addition that clamps at the largest 64-bit value instead of
/// overflowing.
fn sat_add(a: u64, b: u64) -> (r: u64)
    ensures
        r as int == spec_clamp_u64(a as int + b as int),
{
    if a > 0xffff_ffff_ffff_ffffu64 - b {
        0xffff_ffff_ffff_ffffu64
    } else {
        a + b
    }
}

/// Reduces per-device counter pairs to one pair of totals, clamping
/// at the largest 64-bit value.
fn sum_pairs(counters: &Vec<(u64, u64)>) -> (r: (u64, u64))
    ensures
        r.0 as int == spec_clamp_u64(spec_sum_fst(counters@)),
        r.1 as int == spec_clamp_u64(spec_sum_snd(counters@)),
{
    let mut first: u64 = 0;
    let mut second: u64 = 0;
    let mut i: usize = 0;
    while i < counters.len()
        invariant
            i <= counters.len(),
            first as int == spec_clamp_u64(spec_sum_fst(counters@.take(i as int))),
            second as int == spec_clamp_u64(spec_sum_snd(counters@.take(i as int))),
        decreases counters.len() - i,
    {
        proof {
            assert(counters@.take(i as int + 1).drop_last() =~= counters@.take(i as int));
            assert(counters@.take(i as int + 1).last() == counters@[i as int]);
        }
        let pair = counters[i];
        first = sat_add(first, pair.0);
        second = sat_add(second, pair.1);
        i = i + 1;
    }
    proof {
        assert(counters@.take(counters@.len() as int) =~= counters@);
    }
    (first, second)
}

/// Builds a snapshot from the scalar gauges and the per-device delta
/// counters of one sampling window: disk and network figures are the
/// sums over all devices and interfaces, clamped at the largest
/// 64-bit value.
pub fn aggregate_metrics(
    cpu_usage_tenths: u64,
    memory_used_bytes: u64,
    memory_total_bytes: u64,
    disk_counters: &Vec<(u64, u64)>,
    net_counters: &Vec<(u64, u64)>,
) -> (r: MetricsSnapshot)
    requires
        memory_used_bytes <= memory_total_bytes,
    ensures
        r.wf(),
        r.cpu_usage_tenths == cpu_usage_tenths,
        r.memory_used_bytes == memory_used_bytes,
        r.memory_total_bytes == memory_total_bytes,
        r.disk_read_bytes as int == spec_clamp_u64(spec_sum_fst(disk_counters@)),
        r.disk_write_bytes as int == spec_clamp_u64(spec_sum_snd(disk_counters@)),
        r.net_rx_bytes as int == spec_clamp_u64(spec_sum_fst(net_counters@)),
        r.net_tx_bytes as int == spec_clamp_u64(spec_sum_snd(net_counters@)),
{
    let disk = sum_pairs(disk_counters);
    let net = sum_pairs(net_counters);
    MetricsSnapshot {
        cpu_usage_tenths,
        memory_used_bytes,
        memory_total_bytes,
        disk_read_bytes: disk.0,
        disk_write_bytes: disk.1,
        net_rx_bytes: net.0,
        net_tx_bytes: net.1,
    }
}

/// The memory percentage in tenths of a percent, rounded to nearest.
fn memory_percent_tenths(used: u64, total: u64) -> (r: u64)
    requires
        total > 0,
        used <= total,
    ensures
        r as nat == spec_round_div(1000 * used as nat, total as nat),
        r <= 1000,
{
    let n: u128 = (used as u128) * 1000;
    let t: u128 = total as u128;
    let q: u128 = n / t;
    let rem: u128 = n % t;
    proof {
        vstd::arithmetic::div_mod::lemma_mod_division_less_than_divisor(n as int, t as int);
        vstd::arithmetic::div_mod::lemma_multiply_divide_le(n as int, t as int, 1000);
        vstd::arithmetic::div_mod::lemma_fundamental_div_mod(n as int, t as int);
    }
    let r128: u128 = if 2 * rem >= t {
        q + 1
    } else {
        q
    };
    proof {
        if 2 * rem >= t {
            assert(rem >= 1);
            vstd::arithmetic::div_mod::lemma_multiply_divide_lt(
                (n - rem) as int,
                t as int,
                1000,
            );
        }
    }
    r128 as u64
}

impl MetricsSnapshot {
    /// Snapshot invariant: used memory cannot exceed installed memory.
    pub open spec fn wf(self) -> bool {
        self.memory_used_bytes <= self.memory_total_bytes
    }

    /// Derives the display strings: CPU and memory percentages with
    /// one decimal digit (the memory percentage is `"N/A"` when the
    /// total is zero), every byte counter scaled into its unit tier.
    pub fn format(&self) -> (r: FormattedMetrics)
        requires
            self.wf(),
        ensures
            r.cpu_usage@ == spec_format_percent(self.cpu_usage_tenths as nat),
            r.memory_used@ == spec_format_bytes(self.memory_used_bytes as nat),
            r.memory_total@ == spec_format_bytes(self.memory_total_bytes as nat),
            r.memory_usage_percent@ == spec_memory_percent(
                self.memory_used_bytes as nat,
                self.memory_total_bytes as nat,
            ),
            r.disk_read@ == spec_format_bytes(self.disk_read_bytes as nat),
            r.disk_write@ == spec_format_bytes(self.disk_write_bytes as nat),
            r.net_rx@ == spec_format_bytes(self.net_rx_bytes as nat),
            r.net_tx@ == spec_format_bytes(self.net_tx_bytes as nat),
    {
        let memory_usage_percent: String = if self.memory_total_bytes == 0 {
            let sentinel: String = "N/A".to_owned();
            proof {
                reveal_strlit("N/A");
                assert(sentinel@ =~= seq!['N', '/', 'A']);
            }
            sentinel
        } else {
            format_percent(memory_percent_tenths(self.memory_used_bytes, self.memory_total_bytes))
        };
        FormattedMetrics {
            cpu_usage: format_percent(self.cpu_usage_tenths),
            memory_used: format_bytes(self.memory_used_bytes),
            memory_total: format_bytes(self.memory_total_bytes),
            memory_usage_percent,
            disk_read: format_bytes(self.disk_read_bytes),
            disk_write: format_bytes(self.disk_write_bytes),
            net_rx: format_bytes(self.net_rx_bytes),
            net_tx: format_bytes(self.net_tx_bytes),
        }
    }
}

/// The fixed six-line report: a heading, then CPU, memory (used,
/// total and percentage on one line), disk read, disk write, network
/// RX and network TX, each under a fixed-width label.
pub open spec fn spec_report(f: FormattedMetrics) -> Seq<char> {
    "System Metrics:\n"@ + "  CPU Usage:       "@ + f.cpu_usage@ + "\n"@
        + "  Memory:          "@ + f.memory_used@ + " / "@ + f.memory_total@ + " ("@
        + f.memory_usage_percent@ + ")\n"@ + "  Disk Read:       "@ + f.disk_read@ + "\n"@
        + "  Disk Write:      "@ + f.disk_write@ + "\n"@ + "  Network RX:      "@ + f.net_rx@
        + "\n"@ + "  Network TX:      "@ + f.net_tx@ + "\n"@
}

impl FormattedMetrics {
    /// Assembles the six-line report text.
    pub fn render(&self) -> (r: String)
        ensures
            r@ == spec_report(*self),
    {
        let mut s = String::new();
        s.append("System Metrics:\n");
        s.append("  CPU Usage:       ");
        s.append(self.cpu_usage.as_str());
        s.append("\n");
        s.append("  Memory:          ");
        s.append(self.memory_used.as_str());
        s.append(" / ");
        s.append(self.memory_total.as_str());
        s.append(" (");
        s.append(self.memory_usage_percent.as_str());
        s.append(")\n");
        s.append("  Disk Read:       ");
        s.append(self.disk_read.as_str());
        s.append("\n");
        s.append("  Disk Write:      ");
        s.append(self.disk_write.as_str());
        s.append("\n");
        s.append("  Network RX:      ");
        s.append(self.net_rx.as_str());
        s.append("\n");
        s.append("  Network TX:      ");
        s.append(self.net_tx.as_str());
        s.append("\n");
        proof {
            assert(s@ =~= spec_report(*self));
        }
        s
    }
}

} // verus!
