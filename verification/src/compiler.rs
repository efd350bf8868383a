//! Bar layout and timing helpers of the compiler, and validation of the
//! canonical transform order.

use vstd::prelude::*;
use crate::ast::{
    Annotation, ArpPattern, CcValue, GlobalHeader, Inversion, StepCondition, StepToken, TimingValue,
    TsBlock, TsEntry, VoicingStrategy,
};
use crate::error::{CompileError, CompileResult, Span};
use crate::event::{MidiEvent, TimedEvent};
use crate::text::{contains_byte, copy_bytes};

verus! {

// ── Bar Layout ───────────────────────────────────────────────────────

/// Ticks of one bar in time signature `num/den` at `ppq` pulses per quarter.
pub open spec fn bar_ticks(ppq: u32, num: u8, den: u8) -> nat {
    ((ppq as nat * 4) / den as nat) * num as nat
}

/// Number of bars a `@ts` entry lasts.
pub open spec fn entry_bars(e: TsEntry) -> nat {
    match e.bars {
        Some(b) => b as nat,
        None => 1,
    }
}

/// Total ticks of a `@ts` timeline.
pub open spec fn ts_total(entries: Seq<TsEntry>, ppq: u32) -> nat
    decreases entries.len(),
{
    if entries.len() == 0 {
        0
    } else {
        let e = entries.last();
        ts_total(entries.drop_last(), ppq) + bar_ticks(ppq, e.numerator, e.denominator)
            * entry_bars(e)
    }
}

/// The bars of one `@ts` entry, starting at tick `start`.
pub open spec fn entry_bar_seq(start: nat, e: TsEntry, ppq: u32) -> Seq<(u64, u64, u8, u8)> {
    let tpb = bar_ticks(ppq, e.numerator, e.denominator);
    Seq::new(
        entry_bars(e),
        |i: int| ((start + i * tpb) as u64, tpb as u64, e.numerator, e.denominator),
    )
}

/// The bars of a `@ts` timeline: `(start tick, ticks, numerator, denominator)` per bar.
pub open spec fn ts_bar_seq(entries: Seq<TsEntry>, ppq: u32) -> Seq<(u64, u64, u8, u8)>
    decreases entries.len(),
{
    if entries.len() == 0 {
        Seq::empty()
    } else {
        ts_bar_seq(entries.drop_last(), ppq) + entry_bar_seq(
            ts_total(entries.drop_last(), ppq),
            entries.last(),
            ppq,
        )
    }
}

/// What a bar layout holds: the explicit bars of a `@ts` timeline, and the
/// bar length and time signature that repeat after them.
pub struct BarLayoutModel {
    /// `(start tick, ticks, numerator, denominator)` per explicit bar.
    pub bars: Seq<(u64, u64, u8, u8)>,
    /// Ticks of every bar after the explicit ones.
    pub default_ticks: u64,
    /// Numerator after the explicit bars.
    pub default_num: u8,
    /// Denominator after the explicit bars.
    pub default_den: u8,
}

/// Per-bar tick layout, supporting variable time signatures.
///
/// When a `@ts` timeline is present, each bar may have a different tick
/// length based on its time signature. When no timeline exists, all bars
/// share the same tick length derived from the header.
pub struct BarLayout {
    bars: Vec<(u64, u64, u8, u8)>,
    default_ticks_per_bar: u64,
    default_ts_num: u8,
    default_ts_den: u8,
}

/// Explicit bars follow each other without gaps from tick 0, and the bar
/// length after them is that of the last explicit bar.
pub open spec fn layout_wf(m: BarLayoutModel) -> bool {
    &&& (m.bars.len() > 0 ==> m.bars[0].0 == 0)
    &&& forall|i: int|
        0 < i < m.bars.len() ==> #[trigger] m.bars[i].0 == m.bars[i - 1].0 + m.bars[i - 1].1
    &&& (m.bars.len() > 0 ==> m.bars.last().0 + m.bars.last().1 <= u64::MAX)
    &&& (m.bars.len() > 0 ==> m.default_ticks == m.bars.last().1 && m.default_num
        == m.bars.last().2 && m.default_den == m.bars.last().3)
}

/// The tick where the explicit bars end.
pub open spec fn layout_end(m: BarLayoutModel) -> nat {
    if m.bars.len() > 0 {
        (m.bars.last().0 + m.bars.last().1) as nat
    } else {
        0
    }
}

/// Ticks of 1-indexed bar `bar`.
pub open spec fn spec_ticks_for_bar(m: BarLayoutModel, bar: int) -> u64 {
    if bar - 1 < m.bars.len() {
        m.bars[bar - 1].1
    } else {
        m.default_ticks
    }
}

/// Time signature of 1-indexed bar `bar`.
pub open spec fn spec_ts_for_bar(m: BarLayoutModel, bar: int) -> (u8, u8) {
    if bar - 1 < m.bars.len() {
        (m.bars[bar - 1].2, m.bars[bar - 1].3)
    } else {
        (m.default_num, m.default_den)
    }
}

/// Start tick of 1-indexed bar `bar`; bars after the explicit ones repeat the default length.
pub open spec fn spec_bar_start_tick(m: BarLayoutModel, bar: int) -> nat {
    if bar - 1 < m.bars.len() {
        m.bars[bar - 1].0 as nat
    } else {
        layout_end(m) + ((bar - 1 - m.bars.len()) * m.default_ticks) as nat
    }
}

/// The last explicit bar, at or before `i`, that starts at or before `tick`.
pub open spec fn last_bar_starting_by(bars: Seq<(u64, u64, u8, u8)>, i: int, tick: u64) -> int
    decreases i,
{
    if i <= 0 {
        0
    } else if bars[i].0 <= tick {
        i
    } else {
        last_bar_starting_by(bars, i - 1, tick)
    }
}

/// The 1-indexed bar containing `tick` and that bar's start tick.
pub open spec fn spec_bar_at_tick(m: BarLayoutModel, tick: u64) -> (u32, u64) {
    let fallback_bar = (tick as int / m.default_ticks as int) + 1;
    let fallback = (fallback_bar as u32, ((fallback_bar - 1) * m.default_ticks) as u64);
    if m.bars.len() > 0 {
        let i = last_bar_starting_by(m.bars, m.bars.len() - 1, tick);
        if tick < m.bars[i].0 + m.bars[i].1 {
            ((i + 1) as u32, m.bars[i].0)
        } else if tick >= layout_end(m) {
            let extra = (tick - layout_end(m)) / (m.default_ticks as int);
            ((m.bars.len() + 1 + extra) as u32, (layout_end(m) + extra * m.default_ticks) as u64)
        } else {
            fallback
        }
    } else {
        fallback
    }
}

impl BarLayout {
    /// Explicit bars chain without gaps and the default follows the last one.
    #[verifier::type_invariant]
    spec fn inv(self) -> bool {
        layout_wf(self@)
    }

    /// The layout's contents.
    pub closed spec fn view(&self) -> BarLayoutModel {
        BarLayoutModel {
            bars: self.bars@,
            default_ticks: self.default_ticks_per_bar,
            default_num: self.default_ts_num,
            default_den: self.default_ts_den,
        }
    }

    /// Build from a `@ts` timeline block.
    pub fn from_ts_block(ts_block: &TsBlock, ppq: u32, default_ts_num: u8, default_ts_den: u8) -> (r:
        Self)
        requires
            default_ts_den > 0,
            forall|i: int|
                0 <= i < ts_block.entries@.len() ==> #[trigger] ts_block.entries@[i].denominator
                    > 0,
            ts_total(ts_block.entries@, ppq) <= u64::MAX,
        ensures
            r@.bars == ts_bar_seq(ts_block.entries@, ppq),
            r@.bars.len() == 0 ==> r@.default_ticks == bar_ticks(
                ppq,
                default_ts_num,
                default_ts_den,
            ) && r@.default_num == default_ts_num && r@.default_den == default_ts_den,
            layout_wf(r@),
    {
        let default_ticks_per_bar = Self::compute_bar_ticks_for(ppq, default_ts_num, default_ts_den);
        let mut bars: Vec<(u64, u64, u8, u8)> = Vec::new();
        let mut current_tick: u64 = 0;
        let n = ts_block.entries.len();
        let ghost entries = ts_block.entries@;
        let mut k: usize = 0;
        while k < n
            invariant
                n == entries.len(),
                entries == ts_block.entries@,
                k <= n,
                forall|i: int| 0 <= i < entries.len() ==> #[trigger] entries[i].denominator > 0,
                ts_total(entries, ppq) <= u64::MAX,
                bars@ == ts_bar_seq(entries.take(k as int), ppq),
                current_tick == ts_total(entries.take(k as int), ppq),
            decreases n - k,
        {
            let entry = &ts_block.entries[k];
            let tpb = Self::compute_bar_ticks_for(ppq, entry.numerator, entry.denominator);
            let num_bars: u32 = match entry.bars {
                Some(b) => b,
                None => 1,
            };
            proof {
                lemma_ts_total_prefix_monotone(entries, ppq, k as int + 1);
                let t1 = entries.take(k + 1);
                assert(t1.drop_last() =~= entries.take(k as int));
                assert(t1.last() == entries[k as int]);
                assert(ts_total(t1, ppq) == current_tick + bar_ticks(
                    ppq,
                    entry.numerator,
                    entry.denominator,
                ) * entry_bars(*entry));
            }
            let ghost start = current_tick as nat;
            let ghost block = entry_bar_seq(start, *entry, ppq);
            let ghost prefix = bars@;
            let mut j: u32 = 0;
            while j < num_bars
                invariant
                    j <= num_bars,
                    num_bars == entry_bars(*entry),
                    tpb == bar_ticks(ppq, entry.numerator, entry.denominator),
                    block == entry_bar_seq(start, *entry, ppq),
                    start + tpb * num_bars <= u64::MAX,
                    current_tick == start + j * tpb,
                    bars@ == prefix + block.take(j as int),
                decreases num_bars - j,
            {
                proof {
                    assert(start + (j + 1) * tpb <= start + tpb * num_bars) by (nonlinear_arith)
                        requires
                            j < num_bars,
                    ;
                    assert((j + 1) * tpb == j * tpb + tpb) by (nonlinear_arith);
                }
                bars.push((current_tick, tpb, entry.numerator, entry.denominator));
                current_tick = current_tick + tpb;
                j = j + 1;
                assert(bars@ =~= prefix + block.take(j as int));
            }
            assert(block.take(j as int) =~= block);
            proof {
                let t1 = entries.take(k + 1);
                assert(t1.drop_last() =~= entries.take(k as int));
                assert(t1.last() == entries[k as int]);
                assert(j * tpb == tpb * num_bars) by (nonlinear_arith)
                    requires
                        j == num_bars,
                ;
                assert(ts_total(t1, ppq) == start + tpb * num_bars);
                assert(ts_bar_seq(t1, ppq) == prefix + block);
            }
            k = k + 1;
        }
        proof {
            assert(entries.take(n as int) =~= entries);
            lemma_ts_bar_seq_wf(entries, ppq);
        }
        let (final_tpb, final_num, final_den) = if bars.len() > 0 {
            let last = bars[bars.len() - 1];
            (last.1, last.2, last.3)
        } else {
            (default_ticks_per_bar, default_ts_num, default_ts_den)
        };
        BarLayout {
            bars,
            default_ticks_per_bar: final_tpb,
            default_ts_num: final_num,
            default_ts_den: final_den,
        }
    }

    /// Build from a fixed header (no timeline — all bars the same).
    pub fn from_header(header: &GlobalHeader) -> (r: Self)
        requires
            header.ts_denominator > 0,
        ensures
            r@.bars.len() == 0,
            r@.default_ticks == bar_ticks(header.ppq, header.ts_numerator, header.ts_denominator),
            r@.default_num == header.ts_numerator,
            r@.default_den == header.ts_denominator,
            layout_wf(r@),
    {
        let tpb = Self::compute_bar_ticks_for(
            header.ppq,
            header.ts_numerator,
            header.ts_denominator,
        );
        BarLayout {
            bars: Vec::new(),
            default_ticks_per_bar: tpb,
            default_ts_num: header.ts_numerator,
            default_ts_den: header.ts_denominator,
        }
    }

    /// Compute ticks for a single bar with the given time signature.
    pub fn compute_bar_ticks_for(ppq: u32, ts_num: u8, ts_den: u8) -> (r: u64)
        requires
            ts_den > 0,
        ensures
            r == bar_ticks(ppq, ts_num, ts_den),
    {
        let beat_ticks = ppq as u64 * 4 / ts_den as u64;
        assert(beat_ticks <= ppq as u64 * 4);
        assert(beat_ticks * ts_num as u64 <= ppq as u64 * 4 * 255) by (nonlinear_arith)
            requires
                beat_ticks <= ppq as u64 * 4,
                ts_num <= 255,
        ;
        beat_ticks * ts_num as u64
    }

    /// Get the tick at which bar `bar_num` (1-indexed) starts.
    pub fn bar_start_tick(&self, bar_num: u32) -> (r: u64)
        requires
            bar_num >= 1,
            spec_bar_start_tick(self@, bar_num as int) <= u64::MAX,
        ensures
            r == spec_bar_start_tick(self@, bar_num as int),
    {
        proof {
            use_type_invariant(self);
        }
        let idx = bar_num as usize - 1;
        if idx < self.bars.len() {
            self.bars[idx].0
        } else {
            let base_tick = if self.bars.len() > 0 {
                let last = self.bars[self.bars.len() - 1];
                last.0 + last.1
            } else {
                0
            };
            let extra_bars = idx - self.bars.len();
            proof {
                assert(extra_bars as u64 * self.default_ticks_per_bar <= u64::MAX - base_tick);
            }
            base_tick + extra_bars as u64 * self.default_ticks_per_bar
        }
    }

    /// Get ticks per bar for bar `bar_num` (1-indexed).
    pub fn ticks_for_bar(&self, bar_num: u32) -> (r: u64)
        requires
            bar_num >= 1,
        ensures
            r == spec_ticks_for_bar(self@, bar_num as int),
    {
        let idx = bar_num as usize - 1;
        if idx < self.bars.len() {
            self.bars[idx].1
        } else {
            self.default_ticks_per_bar
        }
    }

    /// Get the (ts_num, ts_den) for bar `bar_num` (1-indexed).
    pub fn ts_for_bar(&self, bar_num: u32) -> (r: (u8, u8))
        requires
            bar_num >= 1,
        ensures
            r == spec_ts_for_bar(self@, bar_num as int),
    {
        let idx = bar_num as usize - 1;
        if idx < self.bars.len() {
            (self.bars[idx].2, self.bars[idx].3)
        } else {
            (self.default_ts_num, self.default_ts_den)
        }
    }

    /// Find which bar a given tick falls in. Returns (bar_number_1indexed, bar_start_tick).
    pub fn bar_at_tick(&self, tick: u64) -> (r: (u32, u64))
        requires
            self@.default_ticks > 0,
            tick / self@.default_ticks + self@.bars.len() + 1 <= u32::MAX,
        ensures
            r == spec_bar_at_tick(self@, tick),
            r.0 >= 1,
            r.1 == spec_bar_start_tick(self@, r.0 as int),
            r.1 <= tick < r.1 + spec_ticks_for_bar(self@, r.0 as int),
    {
        proof {
            use_type_invariant(self);
            lemma_bar_at_tick_contains(self@, tick);
        }
        let len = self.bars.len();
        if len > 0 {
            let i = self.last_bar_starting_by(tick);
            let (bar_start, bar_ticks, _, _) = self.bars[i];
            if tick - bar_start < bar_ticks {
                return ((i + 1) as u32, bar_start);
            }
            let last = self.bars[len - 1];
            let base_tick = last.0 + last.1;
            if tick >= base_tick {
                let extra = (tick - base_tick) / self.default_ticks_per_bar;
                proof {
                    assert(extra <= tick / self.default_ticks_per_bar) by (nonlinear_arith)
                        requires
                            extra as int == (tick as int - base_tick as int) / (self.default_ticks_per_bar as int),
                            base_tick <= tick,
                            self.default_ticks_per_bar > 0,
                    ;
                    assert(extra * self.default_ticks_per_bar <= tick - base_tick) by (
                    nonlinear_arith)
                        requires
                            extra as int == (tick as int - base_tick as int) / (self.default_ticks_per_bar as int),
                            base_tick <= tick,
                            self.default_ticks_per_bar > 0,
                    ;
                }
                let bar_num = len as u32 + 1 + extra as u32;
                let start = base_tick + extra * self.default_ticks_per_bar;
                return (bar_num, start);
            }
        }
        let q = tick / self.default_ticks_per_bar;
        proof {
            assert(q * self.default_ticks_per_bar <= tick) by (nonlinear_arith)
                requires
                    q == tick / self.default_ticks_per_bar,
                    self.default_ticks_per_bar > 0,
            ;
        }
        let bar_num = q as u32 + 1;
        let bar_start = (bar_num as u64 - 1) * self.default_ticks_per_bar;
        (bar_num, bar_start)
    }

    fn last_bar_starting_by(&self, tick: u64) -> (r: usize)
        requires
            self@.bars.len() > 0,
        ensures
            r == last_bar_starting_by(self@.bars, self@.bars.len() - 1, tick),
            r < self@.bars.len(),
            self@.bars[r as int].0 <= tick,
    {
        proof {
            use_type_invariant(self);
            lemma_bar_starts_monotone(self@);
        }
        // Binary search for the last bar whose start is at or before `tick`.
        let mut lo: usize = 0;
        let mut hi: usize = self.bars.len() - 1;
        while lo < hi
            invariant
                self@.bars.len() > 0,
                lo <= hi < self@.bars.len(),
                self@.bars[lo as int].0 <= tick,
                forall|j: int| hi < j < self@.bars.len() ==> self@.bars[j].0 > tick,
                forall|a: int, b: int|
                    0 <= a <= b < self@.bars.len() ==> self@.bars[a].0 <= self@.bars[b].0,
            decreases hi - lo,
        {
            let mid = hi - (hi - lo) / 2;
            if self.bars[mid].0 <= tick {
                lo = mid;
            } else {
                hi = mid - 1;
            }
        }
        proof {
            lemma_last_bar_starting_by(self@.bars, self@.bars.len() - 1, tick, lo as int);
        }
        lo
    }

    /// Check if a tick is exactly at a bar boundary.
    pub fn is_bar_start(&self, tick: u64) -> (r: bool)
        requires
            self@.default_ticks > 0,
            tick / self@.default_ticks + self@.bars.len() + 1 <= u32::MAX,
        ensures
            r == (tick == spec_bar_at_tick(self@, tick).1),
    {
        let (_, bar_start) = self.bar_at_tick(tick);
        tick == bar_start
    }
}

/// Bars follow each other without gaps: bar 1 starts at tick 0, and each
/// bar starts where the one before it ends.
pub proof fn lemma_bar_starts_chain(m: BarLayoutModel, b: int)
    requires
        layout_wf(m),
        b >= 1,
    ensures
        spec_bar_start_tick(m, 1) == 0,
        spec_bar_start_tick(m, b + 1) == spec_bar_start_tick(m, b) + spec_ticks_for_bar(m, b),
{
    let n = m.bars.len() as int;
    let dt = m.default_ticks as int;
    assert(0 * dt == 0);
    if n > 0 {
        assert(m.bars[0].0 == 0);
    }
    if b < n {
        assert(m.bars[b].0 == m.bars[b - 1].0 + m.bars[b - 1].1);
    } else if b == n {
        assert(m.bars.last() == m.bars[b - 1]);
        assert((b - n) * dt == 0);
    } else {
        assert((b - n) * dt == (b - 1 - n) * dt + dt) by (nonlinear_arith);
        assert((b - 1 - n) * dt >= 0) by (nonlinear_arith)
            requires
                b - 1 - n >= 0,
                dt >= 0,
        ;
    }
}

/// The last time signature of a timeline repeats past its bars: every later
/// bar has its signature and its length (the default one when there are no
/// explicit bars).
pub proof fn lemma_last_signature_repeats(m: BarLayoutModel, b: int)
    requires
        layout_wf(m),
        b > m.bars.len(),
    ensures
        m.bars.len() > 0 ==> spec_ts_for_bar(m, b) == spec_ts_for_bar(m, m.bars.len() as int)
            && spec_ticks_for_bar(m, b) == spec_ticks_for_bar(m, m.bars.len() as int),
        m.bars.len() == 0 ==> spec_ts_for_bar(m, b) == (m.default_num, m.default_den)
            && spec_ticks_for_bar(m, b) == m.default_ticks,
{
}

/// Number of bars a `@ts` timeline lists.
pub open spec fn ts_bar_count(entries: Seq<TsEntry>) -> nat
    decreases entries.len(),
{
    if entries.len() == 0 {
        0
    } else {
        ts_bar_count(entries.drop_last()) + entry_bars(entries.last())
    }
}

/// A layout built from a `@ts` timeline has one explicit bar per listed bar.
pub proof fn lemma_ts_bar_count(entries: Seq<TsEntry>, ppq: u32)
    ensures
        ts_bar_seq(entries, ppq).len() == ts_bar_count(entries),
    decreases entries.len(),
{
    if entries.len() > 0 {
        lemma_ts_bar_count(entries.drop_last(), ppq);
    }
}

/// The bar `bar_at_tick` reports holds the tick: the bar starts where
/// `bar_start_tick` says, at or before the tick, and the tick comes before
/// the bar's end by `ticks_for_bar`.
pub proof fn lemma_bar_at_tick_contains(m: BarLayoutModel, tick: u64)
    requires
        layout_wf(m),
        m.default_ticks > 0,
        tick / m.default_ticks + m.bars.len() + 1 <= u32::MAX,
    ensures
        ({
            let (b, st) = spec_bar_at_tick(m, tick);
            &&& b >= 1
            &&& st == spec_bar_start_tick(m, b as int)
            &&& st <= tick < st + spec_ticks_for_bar(m, b as int)
        }),
{
    let dt = m.default_ticks as int;
    if m.bars.len() > 0 {
        lemma_bar_starts_monotone(m);
        let i = last_bar_starting_by(m.bars, m.bars.len() - 1, tick);
        lemma_last_bar_starting_by_spec(m.bars, m.bars.len() - 1, tick);
        assert(0 <= i < m.bars.len());
        if tick < m.bars[i].0 + m.bars[i].1 {
            assert(m.bars[i].0 <= tick) by {
                if i > 0 || m.bars[0].0 <= tick {
                } else {
                    assert(m.bars[0].0 == 0);
                }
            }
        } else {
            if i < m.bars.len() - 1 {
                assert(m.bars[i + 1].0 == m.bars[i].0 + m.bars[i].1);
                assert(false);
            }
            assert(m.bars.last() == m.bars[i]);
            let end = layout_end(m) as int;
            let extra = (tick - end) / dt;
            assert(extra * dt <= tick - end < extra * dt + dt) by (nonlinear_arith)
                requires
                    extra == (tick - end) / dt,
                    dt > 0,
                    tick - end >= 0,
            ;
            assert(0 <= extra <= tick as int / dt) by (nonlinear_arith)
                requires
                    extra == (tick - end) / dt,
                    dt > 0,
                    0 <= tick - end <= tick,
            ;
            assert((m.bars.len() + 1 + extra - 1 - m.bars.len()) * dt == extra * dt);
        }
    } else {
        let q = tick as int / dt;
        assert(q * dt <= tick < q * dt + dt) by (nonlinear_arith)
            requires
                q == tick as int / dt,
                dt > 0,
                tick >= 0,
        ;
        assert(q >= 0) by (nonlinear_arith)
            requires
                q == tick as int / dt,
                dt > 0,
                tick >= 0,
        ;
        assert(((q + 1) - 1) * dt == q * dt);
    }
}

proof fn lemma_last_bar_starting_by_spec(bars: Seq<(u64, u64, u8, u8)>, i: int, tick: u64)
    requires
        0 <= i < bars.len(),
    ensures
        0 <= last_bar_starting_by(bars, i, tick) <= i,
        last_bar_starting_by(bars, i, tick) > 0 ==> bars[last_bar_starting_by(bars, i, tick)].0
            <= tick,
        forall|j: int|
            last_bar_starting_by(bars, i, tick) < j <= i ==> #[trigger] bars[j].0 > tick,
    decreases i,
{
    if i > 0 && bars[i].0 > tick {
        lemma_last_bar_starting_by_spec(bars, i - 1, tick);
    }
}

proof fn lemma_ts_total_prefix_monotone(entries: Seq<TsEntry>, ppq: u32, k: int)
    requires
        0 <= k <= entries.len(),
    ensures
        ts_total(entries.take(k), ppq) <= ts_total(entries, ppq),
    decreases entries.len(),
{
    if k < entries.len() {
        assert(entries.drop_last().take(k) =~= entries.take(k));
        lemma_ts_total_prefix_monotone(entries.drop_last(), ppq, k);
    } else {
        assert(entries.take(k) =~= entries);
    }
}

proof fn lemma_ts_bar_seq_wf(entries: Seq<TsEntry>, ppq: u32)
    requires
        ts_total(entries, ppq) <= u64::MAX,
    ensures
        ({
            let bars = ts_bar_seq(entries, ppq);
            &&& (bars.len() > 0 ==> bars[0].0 == 0)
            &&& forall|i: int|
                0 < i < bars.len() ==> #[trigger] bars[i].0 == bars[i - 1].0 + bars[i - 1].1
            &&& (bars.len() > 0 ==> bars.last().0 + bars.last().1 == ts_total(entries, ppq))
            &&& (bars.len() == 0 ==> ts_total(entries, ppq) == 0)
            &&& forall|i: int| 0 <= i < bars.len() ==> bars[i].0 + bars[i].1 <= ts_total(entries, ppq)
        }),
    decreases entries.len(),
{
    if entries.len() > 0 {
        let pre = entries.drop_last();
        let e = entries.last();
        let tpb = bar_ticks(ppq, e.numerator, e.denominator);
        let n = entry_bars(e);
        let start = ts_total(pre, ppq);
        assert(start + tpb * n == ts_total(entries, ppq));
        assert(tpb * n >= 0) by (nonlinear_arith);
        if n == 0 {
            assert(tpb * n == 0) by (nonlinear_arith)
                requires
                    n == 0,
            ;
        }
        lemma_ts_bar_seq_wf(pre, ppq);
        let a = ts_bar_seq(pre, ppq);
        let b = entry_bar_seq(start, e, ppq);
        let bars = ts_bar_seq(entries, ppq);
        assert(bars == a + b);
        assert forall|i: int| 0 <= i < b.len() implies b[i].0 == start + i * tpb && b[i].1 == tpb
            && start + i * tpb + tpb <= ts_total(entries, ppq) by {
            assert(start + i * tpb + tpb <= start + tpb * n) by (nonlinear_arith)
                requires
                    0 <= i < n,
                    tpb >= 0,
            ;
            assert(i * tpb >= 0) by (nonlinear_arith)
                requires
                    i >= 0,
                    tpb >= 0,
            ;
        }
        assert forall|i: int| 0 < i < bars.len() implies #[trigger] bars[i].0 == bars[i - 1].0
            + bars[i - 1].1 by {
            if i < a.len() {
                assert(bars[i] == a[i]);
                assert(bars[i - 1] == a[i - 1]);
            } else if i == a.len() {
                assert(bars[i] == b[0]);
                assert(bars[i - 1] == a[i - 1]);
                assert(a[i - 1] == a.last());
            } else {
                let k = i - a.len();
                assert(bars[i] == b[k]);
                assert(bars[i - 1] == b[k - 1]);
                assert(b[k].0 == start + k * tpb);
                assert(b[k - 1].0 == start + (k - 1) * tpb);
                assert((k - 1) * tpb + tpb == k * tpb) by (nonlinear_arith);
            }
        }
        assert forall|i: int| 0 <= i < bars.len() implies bars[i].0 + bars[i].1 <= ts_total(
            entries,
            ppq,
        ) by {
            if i < a.len() {
                assert(bars[i] == a[i]);
            } else {
                assert(bars[i] == b[i - a.len()]);
            }
        }
        if b.len() > 0 {
            assert(bars.last() == b[b.len() - 1]);
            assert(b[n - 1].0 == start + (n - 1) * tpb);
            assert((n - 1) * tpb + tpb == tpb * n) by (nonlinear_arith)
                requires
                    n >= 1,
            ;
        } else {
            assert(bars =~= a);
        }
        if a.len() == 0 && b.len() > 0 {
            assert(bars[0] == b[0]);
            assert(b[0].0 == start + 0 * tpb);
        }
        if a.len() > 0 {
            assert(bars[0] == a[0]);
        }
    }
}

proof fn lemma_bar_starts_monotone(m: BarLayoutModel)
    requires
        layout_wf(m),
    ensures
        forall|a: int, b: int| 0 <= a <= b < m.bars.len() ==> m.bars[a].0 <= m.bars[b].0,
{
    assert forall|a: int, b: int| 0 <= a <= b < m.bars.len() implies m.bars[a].0
        <= m.bars[b].0 by {
        lemma_bar_starts_monotone_steps(m, a, b);
    }
}

proof fn lemma_bar_starts_monotone_steps(m: BarLayoutModel, a: int, b: int)
    requires
        layout_wf(m),
        0 <= a <= b < m.bars.len(),
    ensures
        m.bars[a].0 <= m.bars[b].0,
    decreases b - a,
{
    if a < b {
        lemma_bar_starts_monotone_steps(m, a, b - 1);
        assert(m.bars[b].0 == m.bars[b - 1].0 + m.bars[b - 1].1);
    }
}

proof fn lemma_last_bar_starting_by(bars: Seq<(u64, u64, u8, u8)>, i: int, tick: u64, r: int)
    requires
        0 <= r <= i < bars.len(),
        bars[r].0 <= tick,
        forall|j: int| r < j < bars.len() ==> bars[j].0 > tick,
    ensures
        last_bar_starting_by(bars, i, tick) == r,
    decreases i,
{
    if i > r {
        lemma_last_bar_starting_by(bars, i - 1, tick, r);
    }
}

// ── Time signature events ────────────────────────────────────────────

/// Ticks of the `n` bars starting at 1-indexed bar `first`.
pub open spec fn bars_ticks(m: BarLayoutModel, first: nat, n: nat) -> nat
    decreases n,
{
    if n == 0 {
        0
    } else {
        bars_ticks(m, first, (n - 1) as nat) + spec_ticks_for_bar(m, first + n - 1) as nat
    }
}

/// How far a `@ts` entry moves the timeline on from bar `bar`: its bars'
/// ticks and its bar count. An entry without a bar count moves nothing.
pub open spec fn ts_entry_advance(m: BarLayoutModel, e: TsEntry, bar: nat) -> (nat, nat) {
    match e.bars {
        Some(b) => (bars_ticks(m, bar, b as nat), b as nat),
        None => (0, 0),
    }
}

/// The tick and bar reached after the `@ts` entries, from tick `tick` and bar `bar`.
pub open spec fn ts_timeline_end(entries: Seq<TsEntry>, m: BarLayoutModel, tick: nat, bar: nat) -> (
    nat,
    nat,
)
    decreases entries.len(),
{
    if entries.len() == 0 {
        (tick, bar)
    } else {
        let (dt, db) = ts_entry_advance(m, entries[0], bar);
        ts_timeline_end(entries.skip(1), m, tick + dt, bar + db)
    }
}

/// The time signature events of `@ts` entries from tick `tick` and bar `bar`,
/// `prev` being the signature in force: one at the start of every entry whose
/// signature differs from the one before it, on track 0.
pub open spec fn ts_timeline_events(
    entries: Seq<TsEntry>,
    m: BarLayoutModel,
    tick: nat,
    bar: nat,
    prev: Option<(u8, u8)>,
) -> Seq<TimedEvent>
    decreases entries.len(),
{
    if entries.len() == 0 {
        Seq::empty()
    } else {
        let e = entries[0];
        let ts = (e.numerator, e.denominator);
        let head = if prev != Some(ts) {
            seq![
                TimedEvent {
                    tick: tick as u64,
                    track: 0,
                    event: MidiEvent::TimeSignature { numerator: e.numerator, denominator: e.denominator },
                    condition: None,
                    step_index: None,
                },
            ]
        } else {
            Seq::empty()
        };
        let (dt, db) = ts_entry_advance(m, e, bar);
        head + ts_timeline_events(entries.skip(1), m, tick + dt, bar + db, Some(ts))
    }
}

proof fn lemma_ts_timeline_end_grows(entries: Seq<TsEntry>, m: BarLayoutModel, tick: nat, bar: nat)
    ensures
        ts_timeline_end(entries, m, tick, bar).0 >= tick,
        ts_timeline_end(entries, m, tick, bar).1 >= bar,
        entries.len() > 0 ==> ts_timeline_end(entries, m, tick, bar).0 >= tick + ts_entry_advance(
            m,
            entries[0],
            bar,
        ).0,
        entries.len() > 0 ==> ts_timeline_end(entries, m, tick, bar).1 >= bar + ts_entry_advance(
            m,
            entries[0],
            bar,
        ).1,
    decreases entries.len(),
{
    if entries.len() > 0 {
        let (dt, db) = ts_entry_advance(m, entries[0], bar);
        lemma_ts_timeline_end_grows(entries.skip(1), m, tick + dt, bar + db);
    }
}

/// Emit time signature events from a `@ts` timeline block.
pub fn emit_ts_timeline(events: &mut Vec<TimedEvent>, ts_block: &TsBlock, bar_layout: &BarLayout)
    requires
        ts_timeline_end(ts_block.entries@, bar_layout@, 0, 1).0 <= u64::MAX,
        ts_timeline_end(ts_block.entries@, bar_layout@, 0, 1).1 <= u32::MAX,
    ensures
        final(events)@ == old(events)@ + ts_timeline_events(
            ts_block.entries@,
            bar_layout@,
            0,
            1,
            None,
        ),
{
    let ghost entries = ts_block.entries@;
    let ghost m = bar_layout@;
    let ghost end = ts_timeline_end(entries, m, 0, 1);
    let mut current_tick: u64 = 0;
    let mut current_bar: u32 = 1;
    let mut prev_ts: Option<(u8, u8)> = None;
    let mut k: usize = 0;
    assert(entries.skip(0) =~= entries);
    while k < ts_block.entries.len()
        invariant
            entries == ts_block.entries@,
            m == bar_layout@,
            end == ts_timeline_end(entries, m, 0, 1),
            end.0 <= u64::MAX,
            end.1 <= u32::MAX,
            k <= entries.len(),
            current_bar >= 1,
            ts_timeline_end(entries.skip(k as int), m, current_tick as nat, current_bar as nat)
                == end,
            old(events)@ + ts_timeline_events(entries, m, 0, 1, None) == events@
                + ts_timeline_events(
                entries.skip(k as int),
                m,
                current_tick as nat,
                current_bar as nat,
                prev_ts,
            ),
        decreases entries.len() - k,
    {
        let entry = &ts_block.entries[k];
        let ghost rest = entries.skip(k as int);
        assert(rest[0] == *entry);
        assert(rest.skip(1) =~= entries.skip(k + 1));
        proof {
            lemma_ts_timeline_end_grows(rest, m, current_tick as nat, current_bar as nat);
            lemma_ts_timeline_end_grows(
                rest.skip(1),
                m,
                (current_tick + ts_entry_advance(m, *entry, current_bar as nat).0) as nat,
                (current_bar + ts_entry_advance(m, *entry, current_bar as nat).1) as nat,
            );
        }
        let ts = (entry.numerator, entry.denominator);
        let differs = match prev_ts {
            Some(p) => p.0 != ts.0 || p.1 != ts.1,
            None => true,
        };
        let ghost before = events@;
        if differs {
            events.push(
                TimedEvent {
                    tick: current_tick,
                    track: 0,
                    event: MidiEvent::TimeSignature {
                        numerator: entry.numerator,
                        denominator: entry.denominator,
                    },
                    condition: None,
                    step_index: None,
                },
            );
        }
        prev_ts = Some(ts);
        if let Some(bars) = entry.bars {
            let mut segment_ticks: u64 = 0;
            let mut i: u32 = 0;
            while i < bars
                invariant
                    m == bar_layout@,
                    i <= bars,
                    current_bar >= 1,
                    current_bar + bars <= u32::MAX,
                    current_tick + bars_ticks(m, current_bar as nat, bars as nat) <= u64::MAX,
                    segment_ticks == bars_ticks(m, current_bar as nat, i as nat),
                decreases bars - i,
            {
                proof {
                    lemma_bars_ticks_grows(m, current_bar as nat, (i + 1) as nat, bars as nat);
                }
                segment_ticks = segment_ticks + bar_layout.ticks_for_bar(current_bar + i);
                i = i + 1;
            }
            current_tick = current_tick + segment_ticks;
            current_bar = current_bar + bars;
        }
        k = k + 1;
    }
    assert(entries.skip(k as int) =~= Seq::<TsEntry>::empty());
    assert(events@ =~= events@ + Seq::<TimedEvent>::empty());
}

proof fn lemma_bars_ticks_grows(m: BarLayoutModel, first: nat, a: nat, b: nat)
    requires
        a <= b,
    ensures
        bars_ticks(m, first, a) <= bars_ticks(m, first, b),
    decreases b - a,
{
    if a < b {
        lemma_bars_ticks_grows(m, first, a, (b - 1) as nat);
    }
}

// ── Active notes (tie tracking) ──────────────────────────────────────

/// A note that has been struck but whose NoteOff has not yet been emitted.
///
/// NoteOffs are deferred until the note's full extent is known: a `~` (tie)
/// step extends the note by one step, so the off tick can only be computed
/// once a non-extending token (note, rest, hard boundary, or end of track)
/// is reached.
#[derive(Debug, Clone)]
pub struct ActiveNote {
    /// MIDI note number.
    pub note: u8,
    /// Actual NoteOn tick (after shift).
    pub on_tick: u64,
    /// Slot identity: the step or subdivision start this note was emitted
    /// at. Simultaneous tokens joined with `+` share a slot and must not
    /// settle each other.
    pub slot: u64,
    /// Nominal (un-gated) duration: the owning step's unit ticks plus one
    /// unit per extending tie step.
    pub nominal_ticks: u64,
    /// The nominal duration scaled by the note's gate ratio.
    pub gated_ticks: u64,
    /// Whether the note's gate ratio applies; a `dur` annotation turns it off.
    pub gated: bool,
    /// Set when the note crosses a soft pattern boundary: a carried note
    /// sustains legato up to the next event's onset.
    pub carried: bool,
    /// Condition of the originating step, carried by the deferred NoteOff.
    pub condition: Option<StepCondition>,
    /// Step index of the originating step.
    pub step_index: Option<usize>,
}

/// The off tick implied by a note's current extent: the gated length
/// after its onset, or the nominal one when no gate applies.
pub open spec fn spec_scheduled_off(n: ActiveNote) -> int {
    if n.gated {
        n.on_tick + n.gated_ticks
    } else {
        n.on_tick + n.nominal_ticks
    }
}

impl ActiveNote {
    /// The off tick implied by the note's current extent.
    pub fn scheduled_off(&self) -> (r: u64)
        requires
            spec_scheduled_off(*self) <= u64::MAX,
        ensures
            r == spec_scheduled_off(*self),
    {
        if self.gated {
            self.on_tick + self.gated_ticks
        } else {
            self.on_tick + self.nominal_ticks
        }
    }
}

/// Per-track tie state threaded through step emission: the sounding notes,
/// in the order they were struck.
#[derive(Debug)]
pub struct TieState {
    /// Currently sounding notes, in emission order.
    pub active: Vec<ActiveNote>,
    /// Whether a `~` at the current position has a prior note context.
    pub tie_legal: bool,
    /// Name of the pattern instance currently being emitted.
    pub current_pattern: String,
    /// Span of the step line currently being emitted.
    pub current_span: Option<Span>,
}

impl TieState {
    /// Fresh state for a track that starts with pattern `pattern_name`.
    pub fn new(pattern_name: String) -> (r: Self)
        ensures
            r.active@.len() == 0,
            !r.tie_legal,
            r.current_pattern@ == pattern_name@,
            r.current_span is None,
    {
        TieState { active: Vec::new(), tie_legal: false, current_pattern: pattern_name, current_span: None }
    }
}

/// Whether a note stays sounding while the token at `current_slot` is
/// emitted: it is a simultaneous sibling of that token.
pub open spec fn stays_active(n: ActiveNote, current_slot: Option<u64>) -> bool {
    current_slot == Some(n.slot)
}

/// The off tick of a settled note: a carried note ends at the new onset
/// `cut`; a restruck pitch ends at `cut` if it would still sound there;
/// any other note at its scheduled off.
pub open spec fn settled_off_tick(n: ActiveNote, cut: Option<u64>, new_pitches: Option<Seq<u8>>) -> u64 {
    let scheduled = spec_scheduled_off(n) as u64;
    let restruck = match new_pitches {
        Some(ps) => ps.contains(n.note),
        None => false,
    };
    if n.carried {
        match cut {
            Some(c) => c,
            None => scheduled,
        }
    } else if restruck {
        match cut {
            Some(c) => if c < scheduled {
                c
            } else {
                scheduled
            },
            None => scheduled,
        }
    } else {
        scheduled
    }
}

/// The NoteOff that settles `n`.
pub open spec fn settled_note_off(
    n: ActiveNote,
    track: usize,
    channel: u8,
    cut: Option<u64>,
    new_pitches: Option<Seq<u8>>,
) -> TimedEvent {
    TimedEvent {
        tick: settled_off_tick(n, cut, new_pitches),
        track,
        event: MidiEvent::NoteOff { channel, note: n.note },
        condition: n.condition,
        step_index: n.step_index,
    }
}

/// The notes of `s` that stay sounding, in order.
pub open spec fn notes_kept(s: Seq<ActiveNote>, current_slot: Option<u64>) -> Seq<ActiveNote>
    decreases s.len(),
{
    if s.len() == 0 {
        Seq::empty()
    } else {
        let r = notes_kept(s.drop_last(), current_slot);
        if stays_active(s.last(), current_slot) {
            r.push(s.last())
        } else {
            r
        }
    }
}

/// The NoteOffs that settle the notes of `s` that do not stay sounding, in order.
pub open spec fn settle_events(
    s: Seq<ActiveNote>,
    current_slot: Option<u64>,
    track: usize,
    channel: u8,
    cut: Option<u64>,
    new_pitches: Option<Seq<u8>>,
) -> Seq<TimedEvent>
    decreases s.len(),
{
    if s.len() == 0 {
        Seq::empty()
    } else {
        let r = settle_events(s.drop_last(), current_slot, track, channel, cut, new_pitches);
        if stays_active(s.last(), current_slot) {
            r
        } else {
            r.push(settled_note_off(s.last(), track, channel, cut, new_pitches))
        }
    }
}

/// Settling with no current slot (a hard boundary or the end of a track)
/// ends every active note: none stays sounding, and each gets one NoteOff,
/// in the order the notes were struck.
pub proof fn lemma_settle_everything(
    s: Seq<ActiveNote>,
    track: usize,
    channel: u8,
    cut: Option<u64>,
    new_pitches: Option<Seq<u8>>,
)
    ensures
        notes_kept(s, None) == Seq::<ActiveNote>::empty(),
        settle_events(s, None, track, channel, cut, new_pitches).len() == s.len(),
        forall|i: int|
            0 <= i < s.len() ==> #[trigger] settle_events(s, None, track, channel, cut, new_pitches)[i]
                == settled_note_off(s[i], track, channel, cut, new_pitches),
    decreases s.len(),
{
    if s.len() > 0 {
        lemma_settle_everything(s.drop_last(), track, channel, cut, new_pitches);
        let r = settle_events(s.drop_last(), None, track, channel, cut, new_pitches);
        assert forall|i: int|
            0 <= i < s.len() implies #[trigger] settle_events(s, None, track, channel, cut, new_pitches)[i]
            == settled_note_off(s[i], track, channel, cut, new_pitches) by {
            if i < s.len() - 1 {
                assert(r[i] == settled_note_off(s.drop_last()[i], track, channel, cut, new_pitches));
            }
        }
    }
}

/// Settle (emit the deferred NoteOffs for) active notes.
///
/// - `current_slot`: notes registered at this slot are kept sounding — they
///   are simultaneous (`+`) siblings of the token currently being emitted.
///   Pass `None` to settle everything (hard boundary / end of track).
/// - `cut`: onset of the new event. Carried notes end here; a restruck
///   pitch (present in `new_pitches`) is truncated here if it would still
///   be sounding.
/// - `new_pitches`: pitches about to be struck, for restrike truncation.
pub fn settle_active_notes(
    events: &mut Vec<TimedEvent>,
    ties: &mut TieState,
    track_number: usize,
    channel: u8,
    current_slot: Option<u64>,
    cut: Option<u64>,
    new_pitches: Option<&[u8]>,
)
    requires
        forall|i: int|
            0 <= i < old(ties).active@.len() ==> spec_scheduled_off(#[trigger] old(ties).active@[i])
                <= u64::MAX,
    ensures
        final(ties).active@ == notes_kept(old(ties).active@, current_slot),
        final(ties).tie_legal == old(ties).tie_legal,
        final(ties).current_pattern == old(ties).current_pattern,
        final(ties).current_span == old(ties).current_span,
        final(events)@ == old(events)@ + settle_events(
            old(ties).active@,
            current_slot,
            track_number,
            channel,
            cut,
            match new_pitches {
                Some(ps) => Some(ps@),
                None => None,
            },
        ),
{
    let ghost orig = ties.active@;
    let ghost np = match new_pitches {
        Some(ps) => Some(ps@),
        None => None::<Seq<u8>>,
    };
    let ghost mut j: int = 0;
    let mut i: usize = 0;
    assert(orig.take(0) =~= Seq::<ActiveNote>::empty());
    assert(orig.skip(0) =~= orig);
    while i < ties.active.len()
        invariant
            0 <= j <= orig.len(),
            i == notes_kept(orig.take(j), current_slot).len(),
            ties.active@ == notes_kept(orig.take(j), current_slot) + orig.skip(j),
            events@ == old(events)@ + settle_events(
                orig.take(j),
                current_slot,
                track_number,
                channel,
                cut,
                np,
            ),
            np == match new_pitches {
                Some(ps) => Some(ps@),
                None => None::<Seq<u8>>,
            },
            forall|k: int| 0 <= k < orig.len() ==> spec_scheduled_off(#[trigger] orig[k]) <= u64::MAX,
            ties.tie_legal == old(ties).tie_legal,
            ties.current_pattern == old(ties).current_pattern,
            ties.current_span == old(ties).current_span,
        decreases ties.active@.len() - i,
    {
        let ghost kept_before = notes_kept(orig.take(j), current_slot);
        assert(ties.active@[i as int] == orig[j]);
        assert(orig.take(j + 1).drop_last() =~= orig.take(j));
        assert(orig.take(j + 1).last() == orig[j]);
        let keep = match current_slot {
            Some(sl) => sl == ties.active[i].slot,
            None => false,
        };
        if keep {
            proof {
                assert(notes_kept(orig.take(j + 1), current_slot) == kept_before.push(orig[j]));
                assert(kept_before.push(orig[j]) + orig.skip(j + 1) =~= kept_before + orig.skip(j));
                j = j + 1;
            }
            i = i + 1;
        } else {
            let an = ties.active.remove(i);
            let scheduled = an.scheduled_off();
            let restruck = match new_pitches {
                Some(ps) => contains_byte(ps, an.note),
                None => false,
            };
            let off_tick = if an.carried {
                match cut {
                    Some(c) => c,
                    None => scheduled,
                }
            } else if restruck {
                match cut {
                    Some(c) => if c < scheduled {
                        c
                    } else {
                        scheduled
                    },
                    None => scheduled,
                }
            } else {
                scheduled
            };
            events.push(
                TimedEvent {
                    tick: off_tick,
                    track: track_number,
                    event: MidiEvent::NoteOff { channel, note: an.note },
                    condition: an.condition,
                    step_index: an.step_index,
                },
            );
            proof {
                assert(notes_kept(orig.take(j + 1), current_slot) == kept_before);
                assert(ties.active@ =~= kept_before + orig.skip(j + 1));
                j = j + 1;
            }
        }
    }
    proof {
        assert(j == orig.len()) by {
            if j < orig.len() {
                assert(ties.active@.len() > i);
            }
        }
        assert(orig.take(j) =~= orig);
    }
}

// ── Compilation summaries ────────────────────────────────────────────

/// Summary of a pattern instance within a track's play expression.
#[derive(Debug, Clone)]
pub struct TrackPatternInstance {
    /// Pattern name.
    pub pattern_name: String,
    /// Start tick (absolute).
    pub start_tick: u64,
    /// End tick (absolute, exclusive).
    pub end_tick: u64,
    /// Start bar (1-indexed).
    pub start_bar: u32,
    /// End bar (1-indexed, inclusive of last bar containing events).
    pub end_bar: u32,
    /// Transform names applied to this instance.
    pub transforms: Vec<String>,
}

/// Per-track metadata summary.
#[derive(Debug, Clone)]
pub struct TrackSummary {
    /// Track name.
    pub name: String,
    /// MIDI channel (0-indexed).
    pub channel: u8,
    /// GM program number.
    pub program: Option<u8>,
    /// Name of the followed harmony block.
    pub follow: Option<String>,
    /// Voicing strategy.
    pub voice: VoicingStrategy,
    /// Inversion setting.
    pub inv: Inversion,
    /// Whether this is a drum track.
    pub is_drum: bool,
    /// Pattern instances in this track's arrangement.
    pub patterns: Vec<TrackPatternInstance>,
    /// Source span of the track block.
    pub span: Option<Span>,
}

// ── Timing helpers ───────────────────────────────────────────────────

/// Integer division with round-half-up.
pub fn round_div(numerator: u64, denominator: u64) -> (r: u64)
    requires
        denominator > 0,
        numerator + denominator / 2 <= u64::MAX,
    ensures
        r == (numerator + denominator / 2) / denominator as int,
{
    (numerator + denominator / 2) / denominator
}

/// Ticks of one step of `unit_num/unit_den` of a whole note at `ppq`
/// pulses per quarter note, rounded half up.
pub open spec fn unit_ticks(ppq: u32, unit_num: u32, unit_den: u32) -> int {
    (ppq * 4 * unit_num + unit_den / 2) / (unit_den as int)
}

/// Compute the number of ticks per step unit.
/// `unit_ticks = ppq * 4 * (numerator / denominator)`
pub fn compute_unit_ticks(ppq: u32, unit_num: u32, unit_den: u32) -> (r: u64)
    requires
        unit_den > 0,
        ppq * 4 * unit_num + unit_den / 2 <= u64::MAX,
    ensures
        r == unit_ticks(ppq, unit_num, unit_den),
{
    let numerator = ppq as u64 * 4 * unit_num as u64;
    round_div(numerator, unit_den as u64)
}

/// `tick` moved by `shift`, clamped to 0 (the tick read as a signed value).
pub open spec fn shifted_tick(tick: u64, shift: i64) -> u64 {
    let t = (tick as i64) + shift;
    if t < 0 {
        0
    } else {
        t as u64
    }
}

/// Apply a shift offset to a tick, clamping to 0.
pub fn apply_shift(tick: u64, shift: i64) -> (r: u64)
    requires
        i64::MIN <= (tick as i64) + shift <= i64::MAX,
    ensures
        r == shifted_tick(tick, shift),
{
    let shifted = tick as i64 + shift;
    if shifted < 0 {
        0
    } else {
        shifted as u64
    }
}

// ── Controller values ────────────────────────────────────────────────

/// The value `quarters` quarters of the way from `start` to `end`, rounded
/// half away from zero and clamped to 0–127.
pub open spec fn spec_lerp_quarters(start: u8, end: u8, quarters: u8) -> u8 {
    let n = (4 - quarters) * start + quarters * end;
    let v = (n + 2) / 4;
    if v > 127 {
        127
    } else {
        v as u8
    }
}

/// Linear interpolation between two u8 values, `quarters / 4` of the way
/// from `start` to `end`.
pub fn lerp_u8(start: u8, end: u8, quarters: u8) -> (r: u8)
    requires
        quarters <= 4,
    ensures
        r == spec_lerp_quarters(start, end, quarters),
{
    assert((4 - quarters as u32) * start as u32 <= 4 * 255) by (nonlinear_arith)
        requires
            quarters <= 4,
    ;
    assert(quarters as u32 * end as u32 <= 4 * 255) by (nonlinear_arith)
        requires
            quarters <= 4,
    ;
    let n: u32 = (4 - quarters as u32) * start as u32 + quarters as u32 * end as u32;
    let v = (n + 2) / 4;
    if v > 127 {
        127
    } else {
        v as u8
    }
}

/// Whether shifting `tick` by `shift` stays within `i64`.
pub open spec fn shift_fits(tick: u64, shift: i64) -> bool {
    i64::MIN <= (tick as i64) + shift <= i64::MAX
}

/// The `i`-th of the four sample ticks of a ramp over a step.
pub open spec fn ramp_sample_tick(step_start: u64, unit_ticks: u64, i: int) -> u64 {
    (step_start + unit_ticks * i / 4) as u64
}

/// A controller change at `tick`, outside any step.
pub open spec fn cc_event(tick: u64, track: usize, channel: u8, controller: u8, value: u8) -> TimedEvent {
    TimedEvent {
        tick,
        track,
        event: MidiEvent::CC { channel, controller, value },
        condition: None,
        step_index: None,
    }
}

/// The events of a controller value on a step starting at `step_start`: a
/// static value once at the (shifted) step start; a ramp at four sample
/// points, at 0, 1/4, 1/2 and 3/4 of the step, each with the value that
/// far along the ramp.
pub open spec fn cc_value_events(
    controller: u8,
    cv: CcValue,
    step_start: u64,
    unit_ticks: u64,
    lshift: i64,
    track: usize,
    channel: u8,
) -> Seq<TimedEvent> {
    match cv {
        CcValue::Static(v) => seq![cc_event(shifted_tick(step_start, lshift), track, channel, controller, v)],
        CcValue::Ramp { start, end } => Seq::new(
            4,
            |i: int|
                cc_event(
                    shifted_tick(ramp_sample_tick(step_start, unit_ticks, i), lshift),
                    track,
                    channel,
                    controller,
                    spec_lerp_quarters(start, end, i as u8),
                ),
        ),
    }
}

/// Emit a CC value — static or ramp (4 sample points).
pub fn emit_cc_value(
    events: &mut Vec<TimedEvent>,
    controller: u8,
    cv: &CcValue,
    step_start: u64,
    unit_ticks: u64,
    lshift: i64,
    track_number: usize,
    channel: u8,
)
    requires
        cc_fits(*cv, step_start, unit_ticks, lshift),
    ensures
        final(events)@ == old(events)@ + cc_value_events(
            controller,
            *cv,
            step_start,
            unit_ticks,
            lshift,
            track_number,
            channel,
        ),
{
    match cv {
        CcValue::Static(v) => {
            let tick = apply_shift(step_start, lshift);
            events.push(
                TimedEvent {
                    tick,
                    track: track_number,
                    event: MidiEvent::CC { channel, controller, value: *v },
                    condition: None,
                    step_index: None,
                },
            );
            assert(events@ =~= old(events)@ + cc_value_events(
                controller,
                *cv,
                step_start,
                unit_ticks,
                lshift,
                track_number,
                channel,
            ));
        },
        CcValue::Ramp { start, end } => {
            let ghost expected = cc_value_events(
                controller,
                *cv,
                step_start,
                unit_ticks,
                lshift,
                track_number,
                channel,
            );
            let mut i: u8 = 0;
            while i < 4
                invariant
                    i <= 4,
                    step_start + unit_ticks * 3 / 4 <= u64::MAX,
                    forall|k: int|
                        0 <= k < 4 ==> shift_fits(
                            #[trigger] ramp_sample_tick(step_start, unit_ticks, k),
                            lshift,
                        ),
                    expected.len() == 4,
                    expected == cc_value_events(
                        controller,
                        *cv,
                        step_start,
                        unit_ticks,
                        lshift,
                        track_number,
                        channel,
                    ),
                    *cv == (CcValue::Ramp { start: *start, end: *end }),
                    events@ == old(events)@ + expected.take(i as int),
                decreases 4 - i,
            {
                proof {
                    assert(unit_ticks * i <= unit_ticks * 3) by (nonlinear_arith)
                        requires
                            i <= 3,
                    ;
                    assert(unit_ticks * i / 4 <= unit_ticks * 3 / 4) by (nonlinear_arith)
                        requires
                            unit_ticks * i <= unit_ticks * 3,
                    ;
                }
                let offset: u128 = unit_ticks as u128 * i as u128 / 4;
                let sample_tick = step_start + offset as u64;
                assert(sample_tick == ramp_sample_tick(step_start, unit_ticks, i as int));
                let tick = apply_shift(sample_tick, lshift);
                let value = lerp_u8(*start, *end, i);
                events.push(
                    TimedEvent {
                        tick,
                        track: track_number,
                        event: MidiEvent::CC { channel, controller, value },
                        condition: None,
                        step_index: None,
                    },
                );
                assert(expected.take(i + 1) =~= expected.take(i as int).push(expected[i as int]));
                i = i + 1;
            }
            assert(expected.take(4) =~= expected);
        },
    }
}

// ── Annotation extraction ────────────────────────────────────────────

/// The kind of an annotation.
#[derive(Debug, Clone, Copy, PartialEq, Eq, Structural)]
pub enum AnnotationKind {
    /// See [`Annotation::Vel`].
    Vel,
    /// See [`Annotation::Gate`].
    Gate,
    /// See [`Annotation::Dur`].
    Dur,
    /// See [`Annotation::Shift`].
    Shift,
    /// See [`Annotation::LShift`].
    LShift,
    /// See [`Annotation::Oct`].
    Oct,
    /// See [`Annotation::Expr`].
    Expr,
    /// See [`Annotation::Dyn`].
    Dyn,
    /// See [`Annotation::Sus`].
    Sus,
    /// See [`Annotation::Pan`].
    Pan,
    /// See [`Annotation::Vol`].
    Vol,
    /// See [`Annotation::PitchBend`].
    PitchBend,
    /// See [`Annotation::Aftertouch`].
    Aftertouch,
    /// See [`Annotation::Cc`].
    Cc,
    /// See [`Annotation::Condition`].
    Condition,
    /// See [`Annotation::Ratch`].
    Ratch,
    /// See [`Annotation::RatchDecay`].
    RatchDecay,
    /// See [`Annotation::Prob`].
    Prob,
    /// See [`Annotation::Glide`].
    Glide,
}

/// The kind of annotation `a`.
pub open spec fn kind_of(a: Annotation) -> AnnotationKind {
    match a {
        Annotation::Vel(..) => AnnotationKind::Vel,
        Annotation::Gate(..) => AnnotationKind::Gate,
        Annotation::Dur(..) => AnnotationKind::Dur,
        Annotation::Shift(..) => AnnotationKind::Shift,
        Annotation::LShift(..) => AnnotationKind::LShift,
        Annotation::Oct(..) => AnnotationKind::Oct,
        Annotation::Expr(..) => AnnotationKind::Expr,
        Annotation::Dyn(..) => AnnotationKind::Dyn,
        Annotation::Sus(..) => AnnotationKind::Sus,
        Annotation::Pan(..) => AnnotationKind::Pan,
        Annotation::Vol(..) => AnnotationKind::Vol,
        Annotation::PitchBend(..) => AnnotationKind::PitchBend,
        Annotation::Aftertouch(..) => AnnotationKind::Aftertouch,
        Annotation::Cc(..) => AnnotationKind::Cc,
        Annotation::Condition(..) => AnnotationKind::Condition,
        Annotation::Ratch(..) => AnnotationKind::Ratch,
        Annotation::RatchDecay(..) => AnnotationKind::RatchDecay,
        Annotation::Prob(..) => AnnotationKind::Prob,
        Annotation::Glide(..) => AnnotationKind::Glide,
    }
}

/// The position of the first annotation of kind `k`, from `i` on.
pub open spec fn first_of_kind(anns: Seq<Annotation>, k: AnnotationKind, i: int) -> Option<int>
    decreases anns.len() - i,
{
    if i < 0 || i >= anns.len() {
        None
    } else if kind_of(anns[i]) == k {
        Some(i)
    } else {
        first_of_kind(anns, k, i + 1)
    }
}

proof fn lemma_first_of_kind(anns: Seq<Annotation>, k: AnnotationKind, i: int)
    ensures
        first_of_kind(anns, k, i) matches Some(j) ==> i <= j < anns.len() && kind_of(anns[j]) == k,
    decreases anns.len() - i,
{
    if 0 <= i < anns.len() && kind_of(anns[i]) != k {
        lemma_first_of_kind(anns, k, i + 1);
    }
}

/// Extract velocity override from annotations.
pub fn annotation_vel(annotations: &[Annotation]) -> (r: Option<u8>)
    ensures
        match first_of_kind(annotations@, AnnotationKind::Vel, 0) {
            Some(i) => (annotations@[i] matches Annotation::Vel(v) && r == Some(v)),
            None => r is None,
        },
{
    proof {
        lemma_first_of_kind(annotations@, AnnotationKind::Vel, 0);
    }
    let mut k: usize = 0;
    while k < annotations.len()
        invariant
            k <= annotations@.len(),
            first_of_kind(annotations@, AnnotationKind::Vel, 0) == first_of_kind(
                annotations@,
                AnnotationKind::Vel,
                k as int,
            ),
        decreases annotations@.len() - k,
    {
        match annotations[k] {
            Annotation::Vel(v) => {
                return Some(v);
            },
            _ => {},
        }
        k = k + 1;
    }
    None
}

/// Extract gate override from annotations (the bits of the ratio).
pub fn annotation_gate(annotations: &[Annotation]) -> (r: Option<u64>)
    ensures
        match first_of_kind(annotations@, AnnotationKind::Gate, 0) {
            Some(i) => (annotations@[i] matches Annotation::Gate(g) && r == Some(g)),
            None => r is None,
        },
{
    proof {
        lemma_first_of_kind(annotations@, AnnotationKind::Gate, 0);
    }
    let mut k: usize = 0;
    while k < annotations.len()
        invariant
            k <= annotations@.len(),
            first_of_kind(annotations@, AnnotationKind::Gate, 0) == first_of_kind(
                annotations@,
                AnnotationKind::Gate,
                k as int,
            ),
        decreases annotations@.len() - k,
    {
        match annotations[k] {
            Annotation::Gate(g) => {
                return Some(g);
            },
            _ => {},
        }
        k = k + 1;
    }
    None
}

/// Extract shift override from annotations.
pub fn annotation_shift(annotations: &[Annotation]) -> (r: Option<TimingValue>)
    ensures
        match first_of_kind(annotations@, AnnotationKind::Shift, 0) {
            Some(i) => (annotations@[i] matches Annotation::Shift(tv) && r == Some(tv)),
            None => r is None,
        },
{
    proof {
        lemma_first_of_kind(annotations@, AnnotationKind::Shift, 0);
    }
    let mut k: usize = 0;
    while k < annotations.len()
        invariant
            k <= annotations@.len(),
            first_of_kind(annotations@, AnnotationKind::Shift, 0) == first_of_kind(
                annotations@,
                AnnotationKind::Shift,
                k as int,
            ),
        decreases annotations@.len() - k,
    {
        match annotations[k] {
            Annotation::Shift(tv) => {
                return Some(tv);
            },
            _ => {},
        }
        k = k + 1;
    }
    None
}

/// Extract lshift override from annotations.
pub fn annotation_lshift(annotations: &[Annotation]) -> (r: Option<TimingValue>)
    ensures
        match first_of_kind(annotations@, AnnotationKind::LShift, 0) {
            Some(i) => (annotations@[i] matches Annotation::LShift(tv) && r == Some(tv)),
            None => r is None,
        },
{
    proof {
        lemma_first_of_kind(annotations@, AnnotationKind::LShift, 0);
    }
    let mut k: usize = 0;
    while k < annotations.len()
        invariant
            k <= annotations@.len(),
            first_of_kind(annotations@, AnnotationKind::LShift, 0) == first_of_kind(
                annotations@,
                AnnotationKind::LShift,
                k as int,
            ),
        decreases annotations@.len() - k,
    {
        match annotations[k] {
            Annotation::LShift(tv) => {
                return Some(tv);
            },
            _ => {},
        }
        k = k + 1;
    }
    None
}

/// Extract explicit duration from annotations.
pub fn annotation_dur(annotations: &[Annotation]) -> (r: Option<(u32, u32)>)
    ensures
        match first_of_kind(annotations@, AnnotationKind::Dur, 0) {
            Some(i) => (annotations@[i] matches Annotation::Dur(n, d) && r == Some((n, d))),
            None => r is None,
        },
{
    proof {
        lemma_first_of_kind(annotations@, AnnotationKind::Dur, 0);
    }
    let mut k: usize = 0;
    while k < annotations.len()
        invariant
            k <= annotations@.len(),
            first_of_kind(annotations@, AnnotationKind::Dur, 0) == first_of_kind(
                annotations@,
                AnnotationKind::Dur,
                k as int,
            ),
        decreases annotations@.len() - k,
    {
        match annotations[k] {
            Annotation::Dur(n, d) => {
                return Some((n, d));
            },
            _ => {},
        }
        k = k + 1;
    }
    None
}

/// Extract an octave override from annotations.
pub fn annotation_octave(annotations: &[Annotation]) -> (r: Option<u8>)
    ensures
        match first_of_kind(annotations@, AnnotationKind::Oct, 0) {
            Some(i) => (annotations@[i] matches Annotation::Oct(o) && r == Some(o)),
            None => r is None,
        },
{
    proof {
        lemma_first_of_kind(annotations@, AnnotationKind::Oct, 0);
    }
    let mut k: usize = 0;
    while k < annotations.len()
        invariant
            k <= annotations@.len(),
            first_of_kind(annotations@, AnnotationKind::Oct, 0) == first_of_kind(
                annotations@,
                AnnotationKind::Oct,
                k as int,
            ),
        decreases annotations@.len() - k,
    {
        match annotations[k] {
            Annotation::Oct(o) => {
                return Some(o);
            },
            _ => {},
        }
        k = k + 1;
    }
    None
}

/// Extract pitch bend from annotations.
pub fn annotation_pitch_bend(annotations: &[Annotation]) -> (r: Option<i16>)
    ensures
        match first_of_kind(annotations@, AnnotationKind::PitchBend, 0) {
            Some(i) => (annotations@[i] matches Annotation::PitchBend(pb) && r == Some(pb)),
            None => r is None,
        },
{
    proof {
        lemma_first_of_kind(annotations@, AnnotationKind::PitchBend, 0);
    }
    let mut k: usize = 0;
    while k < annotations.len()
        invariant
            k <= annotations@.len(),
            first_of_kind(annotations@, AnnotationKind::PitchBend, 0) == first_of_kind(
                annotations@,
                AnnotationKind::PitchBend,
                k as int,
            ),
        decreases annotations@.len() - k,
    {
        match annotations[k] {
            Annotation::PitchBend(pb) => {
                return Some(pb);
            },
            _ => {},
        }
        k = k + 1;
    }
    None
}

/// Extract step condition from annotations.
pub fn annotation_condition(annotations: &[Annotation]) -> (r: Option<StepCondition>)
    ensures
        match first_of_kind(annotations@, AnnotationKind::Condition, 0) {
            Some(i) => (annotations@[i] matches Annotation::Condition(c) && r == Some(c)),
            None => r is None,
        },
{
    proof {
        lemma_first_of_kind(annotations@, AnnotationKind::Condition, 0);
    }
    let mut k: usize = 0;
    while k < annotations.len()
        invariant
            k <= annotations@.len(),
            first_of_kind(annotations@, AnnotationKind::Condition, 0) == first_of_kind(
                annotations@,
                AnnotationKind::Condition,
                k as int,
            ),
        decreases annotations@.len() - k,
    {
        match annotations[k] {
            Annotation::Condition(c) => {
                return Some(c);
            },
            _ => {},
        }
        k = k + 1;
    }
    None
}

/// Extract aftertouch from annotations.
pub fn annotation_aftertouch(annotations: &[Annotation]) -> (r: Option<u8>)
    ensures
        match first_of_kind(annotations@, AnnotationKind::Aftertouch, 0) {
            Some(i) => (annotations@[i] matches Annotation::Aftertouch(at) && r == Some(at)),
            None => r is None,
        },
{
    proof {
        lemma_first_of_kind(annotations@, AnnotationKind::Aftertouch, 0);
    }
    let mut k: usize = 0;
    while k < annotations.len()
        invariant
            k <= annotations@.len(),
            first_of_kind(annotations@, AnnotationKind::Aftertouch, 0) == first_of_kind(
                annotations@,
                AnnotationKind::Aftertouch,
                k as int,
            ),
        decreases annotations@.len() - k,
    {
        match annotations[k] {
            Annotation::Aftertouch(at) => {
                return Some(at);
            },
            _ => {},
        }
        k = k + 1;
    }
    None
}

/// Extract ratchet count from annotations.
pub fn annotation_ratch(annotations: &[Annotation]) -> (r: Option<u32>)
    ensures
        match first_of_kind(annotations@, AnnotationKind::Ratch, 0) {
            Some(i) => (annotations@[i] matches Annotation::Ratch(n) && r == Some(n)),
            None => r is None,
        },
{
    proof {
        lemma_first_of_kind(annotations@, AnnotationKind::Ratch, 0);
    }
    let mut k: usize = 0;
    while k < annotations.len()
        invariant
            k <= annotations@.len(),
            first_of_kind(annotations@, AnnotationKind::Ratch, 0) == first_of_kind(
                annotations@,
                AnnotationKind::Ratch,
                k as int,
            ),
        decreases annotations@.len() - k,
    {
        match annotations[k] {
            Annotation::Ratch(n) => {
                return Some(n);
            },
            _ => {},
        }
        k = k + 1;
    }
    None
}

/// Extract probability from annotations (None = always play; the bits of the probability).
pub fn annotation_prob(annotations: &[Annotation]) -> (r: Option<u64>)
    ensures
        match first_of_kind(annotations@, AnnotationKind::Prob, 0) {
            Some(i) => (annotations@[i] matches Annotation::Prob(p) && r == Some(p)),
            None => r is None,
        },
{
    proof {
        lemma_first_of_kind(annotations@, AnnotationKind::Prob, 0);
    }
    let mut k: usize = 0;
    while k < annotations.len()
        invariant
            k <= annotations@.len(),
            first_of_kind(annotations@, AnnotationKind::Prob, 0) == first_of_kind(
                annotations@,
                AnnotationKind::Prob,
                k as int,
            ),
        decreases annotations@.len() - k,
    {
        match annotations[k] {
            Annotation::Prob(p) => {
                return Some(p);
            },
            _ => {},
        }
        k = k + 1;
    }
    None
}

/// Extract glide annotation (None = no glide, Some(None) = full-duration, Some(Some(f)) = fractional, `f` the bits of the fraction).
pub fn annotation_glide(annotations: &[Annotation]) -> (r: Option<Option<u64>>)
    ensures
        match first_of_kind(annotations@, AnnotationKind::Glide, 0) {
            Some(i) => (annotations@[i] matches Annotation::Glide(frac) && r == Some(frac)),
            None => r is None,
        },
{
    proof {
        lemma_first_of_kind(annotations@, AnnotationKind::Glide, 0);
    }
    let mut k: usize = 0;
    while k < annotations.len()
        invariant
            k <= annotations@.len(),
            first_of_kind(annotations@, AnnotationKind::Glide, 0) == first_of_kind(
                annotations@,
                AnnotationKind::Glide,
                k as int,
            ),
        decreases annotations@.len() - k,
    {
        match annotations[k] {
            Annotation::Glide(frac) => {
                return Some(frac);
            },
            _ => {},
        }
        k = k + 1;
    }
    None
}

/// The bits of the IEEE 754 double 1.0: a ratchet decay of no decay.
pub const NO_DECAY_BITS: u64 = 0x3ff0000000000000;

/// Extract ratchet decay from annotations (default 1.0), as the bits of the factor.
pub fn annotation_ratch_decay(annotations: &[Annotation]) -> (r: u64)
    ensures
        match first_of_kind(annotations@, AnnotationKind::RatchDecay, 0) {
            Some(i) => (annotations@[i] matches Annotation::RatchDecay(d) && r == d),
            None => r == NO_DECAY_BITS,
        },
{
    proof {
        lemma_first_of_kind(annotations@, AnnotationKind::RatchDecay, 0);
    }
    let mut k: usize = 0;
    while k < annotations.len()
        invariant
            k <= annotations@.len(),
            first_of_kind(annotations@, AnnotationKind::RatchDecay, 0) == first_of_kind(
                annotations@,
                AnnotationKind::RatchDecay,
                k as int,
            ),
        decreases annotations@.len() - k,
    {
        match annotations[k] {
            Annotation::RatchDecay(d) => {
                return d;
            },
            _ => {},
        }
        k = k + 1;
    }
    NO_DECAY_BITS
}

/// The annotations a step token carries (none for rests, ties,
/// subdivisions and variant pools).
pub open spec fn spec_token_annotations(token: StepToken) -> Seq<Annotation> {
    match token {
        StepToken::Degree { annotations, .. } => annotations@,
        StepToken::AbsolutePitch { annotations, .. } => annotations@,
        StepToken::MidiNumber { annotations, .. } => annotations@,
        StepToken::ChordStep { annotations, .. } => annotations@,
        StepToken::DrumHit { annotations, .. } => annotations@,
        StepToken::CurrentChord { annotations, .. } => annotations@,
        StepToken::ChordOrdinal { annotations, .. } => annotations@,
        StepToken::Rest => Seq::empty(),
        StepToken::Tie => Seq::empty(),
        StepToken::Subdivision { .. } => Seq::empty(),
        StepToken::Variant { .. } => Seq::empty(),
    }
}

/// Get annotations from a token (returns empty slice for tokens without annotations).
pub fn token_annotations(token: &StepToken) -> (r: &[Annotation])
    ensures
        r@ == spec_token_annotations(*token),
{
    match token {
        StepToken::Degree { annotations, .. } => annotations.as_slice(),
        StepToken::AbsolutePitch { annotations, .. } => annotations.as_slice(),
        StepToken::MidiNumber { annotations, .. } => annotations.as_slice(),
        StepToken::ChordStep { annotations, .. } => annotations.as_slice(),
        StepToken::DrumHit { annotations, .. } => annotations.as_slice(),
        StepToken::CurrentChord { annotations, .. } => annotations.as_slice(),
        StepToken::ChordOrdinal { annotations, .. } => annotations.as_slice(),
        StepToken::Rest | StepToken::Tie | StepToken::Subdivision { .. } | StepToken::Variant {
            ..
        } => {
            let empty: &[Annotation] = &[];
            assert(empty@ =~= Seq::<Annotation>::empty());
            empty
        },
    }
}

/// Whether the controller events of `cv` on a step fit: the ramp's sample
/// ticks fit in `u64`, and shifting each event's tick stays within `i64`.
pub open spec fn cc_fits(cv: CcValue, step_start: u64, unit_ticks: u64, lshift: i64) -> bool {
    &&& (cv is Static ==> shift_fits(step_start, lshift))
    &&& (cv is Ramp ==> step_start + unit_ticks * 3 / 4 <= u64::MAX)
    &&& (cv is Ramp ==> forall|i: int|
        0 <= i < 4 ==> shift_fits(#[trigger] ramp_sample_tick(step_start, unit_ticks, i), lshift))
}

/// Whether the controller events of annotation `a` on a step fit.
pub open spec fn annotation_fits(a: Annotation, step_start: u64, unit_ticks: u64, lshift: i64) -> bool {
    match a {
        Annotation::Expr(cv) => cc_fits(cv, step_start, unit_ticks, lshift),
        Annotation::Dyn(cv) => cc_fits(cv, step_start, unit_ticks, lshift),
        Annotation::Pan(cv) => cc_fits(cv, step_start, unit_ticks, lshift),
        Annotation::Vol(cv) => cc_fits(cv, step_start, unit_ticks, lshift),
        Annotation::Cc(_, cv) => cc_fits(cv, step_start, unit_ticks, lshift),
        Annotation::Sus(_) => shift_fits(step_start, lshift),
        _ => true,
    }
}

/// The controller events of one annotation: expression on CC11, modulation
/// on CC1, sustain on CC64, pan on CC10, volume on CC7, and `ccN` on N.
pub open spec fn annotation_cc(
    a: Annotation,
    step_start: u64,
    unit_ticks: u64,
    lshift: i64,
    track: usize,
    channel: u8,
) -> Seq<TimedEvent> {
    match a {
        Annotation::Expr(cv) => cc_value_events(11, cv, step_start, unit_ticks, lshift, track, channel),
        Annotation::Dyn(cv) => cc_value_events(1, cv, step_start, unit_ticks, lshift, track, channel),
        Annotation::Sus(v) => seq![cc_event(shifted_tick(step_start, lshift), track, channel, 64, v)],
        Annotation::Pan(cv) => cc_value_events(10, cv, step_start, unit_ticks, lshift, track, channel),
        Annotation::Vol(cv) => cc_value_events(7, cv, step_start, unit_ticks, lshift, track, channel),
        Annotation::Cc(n, cv) => cc_value_events(n, cv, step_start, unit_ticks, lshift, track, channel),
        _ => Seq::empty(),
    }
}

/// The controller events of the annotations, in order.
pub open spec fn annotations_cc(
    anns: Seq<Annotation>,
    step_start: u64,
    unit_ticks: u64,
    lshift: i64,
    track: usize,
    channel: u8,
) -> Seq<TimedEvent>
    decreases anns.len(),
{
    if anns.len() == 0 {
        Seq::empty()
    } else {
        annotations_cc(anns.drop_last(), step_start, unit_ticks, lshift, track, channel)
            + annotation_cc(anns.last(), step_start, unit_ticks, lshift, track, channel)
    }
}

/// Emit the controller events of a step's annotations.
pub fn emit_annotation_cc(
    events: &mut Vec<TimedEvent>,
    annotations: &[Annotation],
    step_start: u64,
    unit_ticks: u64,
    lshift: i64,
    track_number: usize,
    channel: u8,
)
    requires
        forall|i: int|
            0 <= i < annotations@.len() ==> annotation_fits(
                #[trigger] annotations@[i],
                step_start,
                unit_ticks,
                lshift,
            ),
    ensures
        final(events)@ == old(events)@ + annotations_cc(
            annotations@,
            step_start,
            unit_ticks,
            lshift,
            track_number,
            channel,
        ),
{
    let ghost anns = annotations@;
    let mut k: usize = 0;
    assert(anns.take(0) =~= Seq::<Annotation>::empty());
    assert(events@ =~= old(events)@ + annotations_cc(anns.take(0), step_start, unit_ticks, lshift, track_number, channel));
    while k < annotations.len()
        invariant
            anns == annotations@,
            k <= anns.len(),
            forall|i: int| 0 <= i < anns.len() ==> annotation_fits(#[trigger] anns[i], step_start, unit_ticks, lshift),
            events@ == old(events)@ + annotations_cc(
                anns.take(k as int),
                step_start,
                unit_ticks,
                lshift,
                track_number,
                channel,
            ),
        decreases anns.len() - k,
    {
        let ghost before = events@;
        let a = annotations[k];
        assert(annotation_fits(anns[k as int], step_start, unit_ticks, lshift));
        match a {
            Annotation::Expr(cv) => emit_cc_value(events, 11, &cv, step_start, unit_ticks, lshift, track_number, channel),
            Annotation::Dyn(cv) => emit_cc_value(events, 1, &cv, step_start, unit_ticks, lshift, track_number, channel),
            Annotation::Sus(v) => {
                let tick = apply_shift(step_start, lshift);
                events.push(
                    TimedEvent {
                        tick,
                        track: track_number,
                        event: MidiEvent::CC { channel, controller: 64, value: v },
                        condition: None,
                        step_index: None,
                    },
                );
            },
            Annotation::Pan(cv) => emit_cc_value(events, 10, &cv, step_start, unit_ticks, lshift, track_number, channel),
            Annotation::Vol(cv) => emit_cc_value(events, 7, &cv, step_start, unit_ticks, lshift, track_number, channel),
            Annotation::Cc(n, cv) => emit_cc_value(events, n, &cv, step_start, unit_ticks, lshift, track_number, channel),
            _ => {},
        }
        proof {
            let t = anns.take(k + 1);
            assert(t.drop_last() =~= anns.take(k as int));
            assert(t.last() == a);
            let one = annotation_cc(a, step_start, unit_ticks, lshift, track_number, channel);
            assert(events@ =~= before + one);
            assert(before + one =~= old(events)@ + annotations_cc(t, step_start, unit_ticks, lshift, track_number, channel));
        }
        k = k + 1;
    }
    assert(anns.take(k as int) =~= anns);
}

// ── Transform order ──────────────────────────────────────────────────

/// The kind of a transform call in a pattern pipeline.
#[derive(Debug, Clone, Copy, PartialEq, Eq, Structural)]
pub enum TransformKind {
    /// `reverse`
    Reverse,
    /// `invert`
    Invert,
    /// `retrograde`
    Retrograde,
    /// `rotate(n)`
    Rotate,
    /// `stretch(n/d)`
    Stretch,
    /// `compress(n/d)`
    Compress,
    /// `transpose(n)`
    Transpose,
    /// `shift_oct(n)`
    ShiftOct,
    /// `subset(indices)`
    Subset,
    /// `interleave(name)`
    Interleave,
    /// `mirror`
    Mirror,
    /// `humanize(timing, intensity)`
    Humanize,
    /// `vary(p)`
    Vary,
    /// `swing(ratio, unit)`
    Swing,
    /// `rubato(depth, curve)`
    Rubato,
    /// `ritardando(factor)`
    Ritardando,
    /// `accelerando(factor)`
    Accelerando,
    /// `agogic(steps)`
    Agogic,
    /// `breathe(position, duration)`
    Breathe,
    /// `swell(peak, curve)`
    Swell,
    /// `phrase(tension, release)`
    Phrase,
    /// `evolve(p)`
    Evolve,
    /// `euclid(pulses, steps)`
    EuclidGate,
    /// `echo(rate, repeats, decay)`
    Echo,
    /// `vel_curve(...)`
    VelCurve,
    /// `gate_curve(...)`
    GateCurve,
    /// `scale_lock(...)`
    ScaleLock,
    /// `arp(...)`
    Arp,
}

/// Canonical-order phase of a transform and its name: 1 = swing,
/// 2 = expressive performance transforms, 3 = humanize; none for the
/// transforms that the canonical order does not sequence.
pub open spec fn spec_order_phase(t: TransformKind) -> Option<(u8, Seq<char>)> {
    match t {
        TransformKind::Swing => Some((1u8, "swing"@)),
        TransformKind::Rubato => Some((2u8, "rubato"@)),
        TransformKind::Ritardando => Some((2u8, "ritardando"@)),
        TransformKind::Accelerando => Some((2u8, "accelerando"@)),
        TransformKind::Agogic => Some((2u8, "agogic"@)),
        TransformKind::Breathe => Some((2u8, "breathe"@)),
        TransformKind::Swell => Some((2u8, "swell"@)),
        TransformKind::Phrase => Some((2u8, "phrase"@)),
        TransformKind::Humanize => Some((3u8, "humanize"@)),
        _ => None,
    }
}

/// Canonical-order phase of a transform (1 = swing, 2 = expressive
/// performance transforms, 3 = humanize), or `None` for transforms that
/// are orthogonal to the canonical order.
pub fn transform_order_phase(t: TransformKind) -> (r: Option<(u8, &'static str)>)
    ensures
        match spec_order_phase(t) {
            Some((p, n)) => r matches Some((q, m)) && q == p && m@ == n,
            None => r is None,
        },
{
    match t {
        TransformKind::Swing => Some((1, "swing")),
        TransformKind::Rubato => Some((2, "rubato")),
        TransformKind::Ritardando => Some((2, "ritardando")),
        TransformKind::Accelerando => Some((2, "accelerando")),
        TransformKind::Agogic => Some((2, "agogic")),
        TransformKind::Breathe => Some((2, "breathe")),
        TransformKind::Swell => Some((2, "swell")),
        TransformKind::Phrase => Some((2, "phrase")),
        TransformKind::Humanize => Some((3, "humanize")),
        _ => None,
    }
}

/// The first misordered pair in `ts[i..]`, `(name, earlier name)`, given
/// the highest phase seen so far (the latest transform holding it).
pub open spec fn order_violation(
    ts: Seq<TransformKind>,
    i: int,
    max_seen: Option<(u8, Seq<char>)>,
) -> Option<(Seq<char>, Seq<char>)>
    decreases ts.len() - i,
{
    if i < 0 || i >= ts.len() {
        None
    } else {
        match spec_order_phase(ts[i]) {
            None => order_violation(ts, i + 1, max_seen),
            Some((p, name)) => match max_seen {
                Some((mp, mname)) => if p < mp {
                    Some((name, mname))
                } else {
                    order_violation(ts, i + 1, Some((p, name)))
                },
                None => order_violation(ts, i + 1, Some((p, name))),
            },
        }
    }
}

/// The message of a transform-order error.
pub open spec fn order_message(name: Seq<char>, prev: Seq<char>) -> Seq<char> {
    "transform pipeline order: '"@ + name + "' must come before '"@ + prev
        + "' — canonical order is swing → expressive transforms → humanize"@
}

/// Validate that one written transform pipeline follows the canonical
/// order swing → expressive → humanize. A violation is a compile error
/// naming the misordered pair — never a silent reorder.
pub fn validate_transform_order(transforms: &[TransformKind], span: Span) -> (r: CompileResult<()>)
    ensures
        match order_violation(transforms@, 0, None) {
            None => r is Ok,
            Some((name, prev)) => r matches Err(CompileError::ParseError { message, span: sp })
                && message@ == order_message(name, prev) && sp == span,
        },
{
    let mut max_phase: u8 = 0;
    let mut max_name: &'static str = "";
    let mut seen = false;
    let mut i: usize = 0;
    while i < transforms.len()
        invariant
            i <= transforms@.len(),
            order_violation(transforms@, 0, None) == order_violation(
                transforms@,
                i as int,
                if seen {
                    Some((max_phase, max_name@))
                } else {
                    None
                },
            ),
        decreases transforms@.len() - i,
    {
        match transform_order_phase(transforms[i]) {
            Some((phase, name)) => {
                if seen && phase < max_phase {
                    let mut message = String::from_str("transform pipeline order: '");
                    message.append(name);
                    message.append("' must come before '");
                    message.append(max_name);
                    message.append(
                        "' — canonical order is swing → expressive transforms → humanize",
                    );
                    return Err(CompileError::ParseError { message, span });
                }
                max_phase = phase;
                max_name = name;
                seen = true;
            },
            None => {},
        }
        i = i + 1;
    }
    Ok(())
}

/// Phase of a transform the canonical order sequences.
pub open spec fn phase_of(t: TransformKind) -> int {
    match spec_order_phase(t) {
        Some((p, _)) => p as int,
        None => 0,
    }
}

/// The sequenced transforms of `ts[k..]` never go back to an earlier phase,
/// nor below `floor`.
pub open spec fn phases_nondecreasing_from(ts: Seq<TransformKind>, k: int, floor: int) -> bool {
    &&& forall|j: int|
        k <= j < ts.len() && (#[trigger] spec_order_phase(ts[j])) is Some ==> floor <= phase_of(
            ts[j],
        )
    &&& forall|i: int, j: int|
        k <= i < j < ts.len() && (#[trigger] spec_order_phase(ts[i])) is Some && (
        #[trigger] spec_order_phase(ts[j])) is Some ==> phase_of(ts[i]) <= phase_of(ts[j])
}

proof fn lemma_order_violation_from(ts: Seq<TransformKind>, k: int, max_seen: Option<(u8, Seq<char>)>)
    requires
        0 <= k <= ts.len(),
    ensures
        order_violation(ts, k, max_seen) is None <==> phases_nondecreasing_from(
            ts,
            k,
            match max_seen {
                Some((p, _)) => p as int,
                None => 0,
            },
        ),
    decreases ts.len() - k,
{
    let floor = match max_seen {
        Some((p, _)) => p as int,
        None => 0,
    };
    if k < ts.len() {
        match spec_order_phase(ts[k]) {
            None => {
                lemma_order_violation_from(ts, k + 1, max_seen);
                if phases_nondecreasing_from(ts, k + 1, floor) {
                    assert(phases_nondecreasing_from(ts, k, floor));
                }
            },
            Some((p, name)) => {
                lemma_order_violation_from(ts, k + 1, Some((p, name)));
                let below = max_seen matches Some((mp, _)) && p < mp;
                if below {
                    assert(!phases_nondecreasing_from(ts, k, floor));
                } else {
                    assert(floor <= p);
                    if phases_nondecreasing_from(ts, k + 1, p as int) {
                        assert(phases_nondecreasing_from(ts, k, floor));
                    }
                    if phases_nondecreasing_from(ts, k, floor) {
                        assert forall|j: int|
                            k + 1 <= j < ts.len() && (#[trigger] spec_order_phase(
                                ts[j],
                            )) is Some implies p as int <= phase_of(ts[j]) by {
                            assert(phase_of(ts[k]) == p);
                        }
                        assert(phases_nondecreasing_from(ts, k + 1, p as int));
                    }
                }
            },
        }
    }
}

/// A transform pipeline is accepted exactly when the phases of the
/// transforms the canonical order sequences (swing, then the expressive
/// transforms, then humanize) never go back.
pub proof fn lemma_order_accepts_nondecreasing(ts: Seq<TransformKind>)
    ensures
        order_violation(ts, 0, None) is None <==> forall|i: int, j: int|
            0 <= i < j < ts.len() && (#[trigger] spec_order_phase(ts[i])) is Some && (
            #[trigger] spec_order_phase(ts[j])) is Some ==> phase_of(ts[i]) <= phase_of(ts[j]),
{
    lemma_order_violation_from(ts, 0, None);
    assert forall|j: int|
        0 <= j < ts.len() && (#[trigger] spec_order_phase(ts[j])) is Some implies 0 <= phase_of(
        ts[j],
    ) by {}
}

/// A pattern expression as the transform-order checks see it: references,
/// repetitions, concatenations and transform applications.
#[derive(Debug)]
pub enum PipelineExpr {
    /// Reference to a named pattern.
    Ref {
        /// Pattern name.
        name: String,
    },
    /// Repetition with hard boundary.
    Repeat {
        /// Repeated expression.
        pattern: Box<PipelineExpr>,
        /// Repeat count.
        count: u32,
    },
    /// Repetition with soft tie boundary.
    RepeatSoft {
        /// Repeated expression.
        pattern: Box<PipelineExpr>,
        /// Repeat count.
        count: u32,
    },
    /// Concatenation with hard boundary.
    Concat {
        /// First part.
        left: Box<PipelineExpr>,
        /// Second part.
        right: Box<PipelineExpr>,
    },
    /// Concatenation with soft tie boundary.
    ConcatSoft {
        /// First part.
        left: Box<PipelineExpr>,
        /// Second part.
        right: Box<PipelineExpr>,
    },
    /// Transform application.
    Transform {
        /// Transformed expression.
        pattern: Box<PipelineExpr>,
        /// The transform.
        transform: TransformKind,
    },
}

/// Height of an expression tree.
pub open spec fn expr_height(e: PipelineExpr) -> nat
    decreases e,
{
    match e {
        PipelineExpr::Ref { .. } => 0,
        PipelineExpr::Repeat { pattern, .. } => 1 + expr_height(*pattern),
        PipelineExpr::RepeatSoft { pattern, .. } => 1 + expr_height(*pattern),
        PipelineExpr::Concat { left, right } => 1 + if expr_height(*left) >= expr_height(*right) {
            expr_height(*left)
        } else {
            expr_height(*right)
        },
        PipelineExpr::ConcatSoft { left, right } => 1 + if expr_height(*left) >= expr_height(
            *right,
        ) {
            expr_height(*left)
        } else {
            expr_height(*right)
        },
        PipelineExpr::Transform { pattern, .. } => 1 + expr_height(*pattern),
    }
}

/// The contiguous `->` chain at the top of `e`, innermost transform first,
/// and the expression it applies to.
pub open spec fn transform_chain(e: PipelineExpr) -> (Seq<TransformKind>, PipelineExpr)
    decreases e,
{
    match e {
        PipelineExpr::Transform { pattern, transform } => {
            let (c, base) = transform_chain(*pattern);
            (c.push(transform), base)
        },
        _ => (Seq::empty(), e),
    }
}

/// The expression under a transform chain is lower than the chain.
pub proof fn lemma_chain_base_lower(e: PipelineExpr)
    ensures
        expr_height(transform_chain(e).1) <= expr_height(e),
        e is Transform ==> expr_height(transform_chain(e).1) < expr_height(e),
        !(transform_chain(e).1 is Transform),
    decreases e,
{
    match e {
        PipelineExpr::Transform { pattern, .. } => {
            lemma_chain_base_lower(*pattern);
        },
        _ => {},
    }
}

/// The first misordered pair in any `->` chain of `e`, chains checked from
/// the outside in and left to right; chains in different subexpressions
/// are independent pipelines.
pub open spec fn expr_order_violation(e: PipelineExpr) -> Option<(Seq<char>, Seq<char>)>
    decreases expr_height(e),
{
    match e {
        PipelineExpr::Transform { .. } => {
            let (c, base) = transform_chain(e);
            proof {
                lemma_chain_base_lower(e);
            }
            match order_violation(c, 0, None) {
                Some(v) => Some(v),
                None => expr_order_violation(base),
            }
        },
        PipelineExpr::Repeat { pattern, .. } => expr_order_violation(*pattern),
        PipelineExpr::RepeatSoft { pattern, .. } => expr_order_violation(*pattern),
        PipelineExpr::Concat { left, right } => match expr_order_violation(*left) {
            Some(v) => Some(v),
            None => expr_order_violation(*right),
        },
        PipelineExpr::ConcatSoft { left, right } => match expr_order_violation(*left) {
            Some(v) => Some(v),
            None => expr_order_violation(*right),
        },
        PipelineExpr::Ref { .. } => None,
    }
}

/// Validate canonical transform ordering for every contiguous `->` chain
/// in a pattern expression. Chains in different subexpressions (e.g. the
/// two sides of `>>`, or a parenthesized group) are independent pipelines
/// and are validated separately.
pub fn validate_expr_transform_order(expr: &PipelineExpr, span: Span) -> (r: CompileResult<()>)
    ensures
        match expr_order_violation(*expr) {
            None => r is Ok,
            Some((name, prev)) => r matches Err(CompileError::ParseError { message, span: sp })
                && message@ == order_message(name, prev) && sp == span,
        },
    decreases expr_height(*expr),
{
    match expr {
        PipelineExpr::Transform { .. } => {
            let mut rev: Vec<TransformKind> = Vec::new();
            let mut cur: &PipelineExpr = expr;
            proof {
                lemma_chain_base_lower(*expr);
            }
            while matches!(cur, PipelineExpr::Transform { .. })
                invariant
                    transform_chain(*expr) == (
                    transform_chain(*cur).0 + rev@.reverse(),
                    transform_chain(*cur).1,
                    ),
                decreases expr_height(*cur),
            {
                match cur {
                    PipelineExpr::Transform { pattern, transform } => {
                        proof {
                            assert(rev@.push(*transform).reverse() =~= seq![*transform]
                                + rev@.reverse());
                            assert(transform_chain(**pattern).0.push(*transform) + rev@.reverse()
                                =~= transform_chain(**pattern).0 + (seq![*transform]
                                + rev@.reverse()));
                        }
                        rev.push(*transform);
                        cur = &**pattern;
                    },
                    _ => {},
                }
            }
            proof {
                assert(transform_chain(*cur).0 =~= Seq::<TransformKind>::empty());
                assert(Seq::<TransformKind>::empty() + rev@.reverse() =~= rev@.reverse());
            }
            let mut chain: Vec<TransformKind> = Vec::new();
            let mut i: usize = rev.len();
            while i > 0
                invariant
                    i <= rev@.len(),
                    chain@ == rev@.reverse().take((rev@.len() - i) as int),
                decreases i,
            {
                i = i - 1;
                chain.push(rev[i]);
                assert(chain@ =~= rev@.reverse().take((rev@.len() - i) as int));
            }
            assert(rev@.reverse().take(rev@.len() as int) =~= rev@.reverse());
            match validate_transform_order(chain.as_slice(), span) {
                Ok(()) => {},
                Err(e) => return Err(e),
            }
            proof {
                lemma_chain_base_lower(*expr);
            }
            validate_expr_transform_order(cur, span)
        },
        PipelineExpr::Repeat { pattern, .. } => validate_expr_transform_order(pattern, span),
        PipelineExpr::RepeatSoft { pattern, .. } => validate_expr_transform_order(pattern, span),
        PipelineExpr::Concat { left, right } => {
            match validate_expr_transform_order(left, span) {
                Ok(()) => {},
                Err(e) => return Err(e),
            }
            validate_expr_transform_order(right, span)
        },
        PipelineExpr::ConcatSoft { left, right } => {
            match validate_expr_transform_order(left, span) {
                Ok(()) => {},
                Err(e) => return Err(e),
            }
            validate_expr_transform_order(right, span)
        },
        PipelineExpr::Ref { .. } => Ok(()),
    }
}

/// All transforms applied anywhere in `e`, innermost first, left to right.
pub open spec fn expr_transforms(e: PipelineExpr) -> Seq<TransformKind>
    decreases e,
{
    match e {
        PipelineExpr::Transform { pattern, transform } => expr_transforms(*pattern).push(
            transform,
        ),
        PipelineExpr::Repeat { pattern, .. } => expr_transforms(*pattern),
        PipelineExpr::RepeatSoft { pattern, .. } => expr_transforms(*pattern),
        PipelineExpr::Concat { left, right } => expr_transforms(*left) + expr_transforms(*right),
        PipelineExpr::ConcatSoft { left, right } => expr_transforms(*left) + expr_transforms(
            *right,
        ),
        PipelineExpr::Ref { .. } => Seq::empty(),
    }
}

/// Recursively collect transforms from a pattern expression.
pub fn collect_expr_transforms(expr: &PipelineExpr) -> (r: Vec<TransformKind>)
    ensures
        r@ == expr_transforms(*expr),
    decreases *expr,
{
    match expr {
        PipelineExpr::Transform { pattern, transform } => {
            let mut transforms = collect_expr_transforms(pattern);
            transforms.push(*transform);
            transforms
        },
        PipelineExpr::Repeat { pattern, .. } => collect_expr_transforms(pattern),
        PipelineExpr::RepeatSoft { pattern, .. } => collect_expr_transforms(pattern),
        PipelineExpr::Concat { left, right } => {
            let mut t = collect_expr_transforms(left);
            let mut r = collect_expr_transforms(right);
            t.append(&mut r);
            t
        },
        PipelineExpr::ConcatSoft { left, right } => {
            let mut t = collect_expr_transforms(left);
            let mut r = collect_expr_transforms(right);
            t.append(&mut r);
            t
        },
        PipelineExpr::Ref { .. } => Vec::new(),
    }
}

// ── Euclidean rhythms ────────────────────────────────────────────────

/// Number of pulses (`true`) in a rhythm.
pub open spec fn pulse_count(s: Seq<bool>) -> nat
    decreases s.len(),
{
    if s.len() == 0 {
        0
    } else {
        pulse_count(s.drop_last()) + if s.last() {
            1nat
        } else {
            0nat
        }
    }
}

/// Index of the first group, from `i` on, that differs from the first group
/// (`gs.len()` when none does).
pub open spec fn leading_same(gs: Seq<Seq<bool>>, i: int) -> int
    decreases gs.len() - i,
{
    if 0 <= i < gs.len() && gs[i] == gs[0] {
        leading_same(gs, i + 1)
    } else {
        i
    }
}

/// One round of Bjorklund's algorithm: each of the first `d` groups takes
/// one of the groups after the leading run of `same` equal groups; the
/// others keep their order.
pub open spec fn distribute_round(gs: Seq<Seq<bool>>, same: int, d: int) -> Seq<Seq<bool>> {
    Seq::new(d as nat, |i: int| gs[i] + gs[same + i]) + gs.subrange(d, same) + gs.subrange(
        same + d,
        gs.len() as int,
    )
}

/// The leading run of equal groups ends between `i` and the last group.
pub proof fn lemma_leading_same_bounds(gs: Seq<Seq<bool>>, i: int)
    requires
        0 <= i <= gs.len(),
    ensures
        i <= leading_same(gs, i) <= gs.len(),
    decreases gs.len() - i,
{
    if i < gs.len() && gs[i] == gs[0] {
        lemma_leading_same_bounds(gs, i + 1);
    }
}

/// Bjorklund's algorithm on groups: distribute the trailing groups over
/// the leading run until at most one group differs from the first.
pub open spec fn bjorklund_groups(gs: Seq<Seq<bool>>) -> Seq<Seq<bool>>
    decreases gs.len(),
{
    if gs.len() == 0 {
        gs
    } else {
        let same = leading_same(gs, 1);
        let rem = gs.len() - same;
        if rem <= 1 {
            gs
        } else {
            let d = if same < rem {
                same
            } else {
                rem
            };
            proof {
                lemma_leading_same_bounds(gs, 1);
            }
            bjorklund_groups(distribute_round(gs, same, d))
        }
    }
}

/// `pulses` one-pulse groups followed by rests, `steps` groups in all.
pub open spec fn initial_groups(pulses: nat, steps: nat) -> Seq<Seq<bool>> {
    Seq::new(steps, |i: int| seq![i < pulses])
}

/// The Euclidean rhythm of `pulses` pulses over `steps` steps, as
/// Bjorklund's algorithm distributes them.
pub open spec fn spec_bjorklund(pulses: u32, steps: u32) -> Seq<bool> {
    if steps == 0 {
        Seq::empty()
    } else if pulses >= steps {
        Seq::new(steps as nat, |i: int| true)
    } else if pulses == 0 {
        Seq::new(steps as nat, |i: int| false)
    } else {
        bjorklund_groups(initial_groups(pulses as nat, steps as nat)).flatten()
    }
}

/// The views of a vector of groups.
pub open spec fn group_views(v: Seq<Vec<bool>>) -> Seq<Seq<bool>> {
    Seq::new(v.len(), |i: int| v[i]@)
}

fn copy_bools(s: &[bool]) -> (r: Vec<bool>)
    ensures
        r@ == s@,
{
    let mut r: Vec<bool> = Vec::new();
    let mut i: usize = 0;
    while i < s.len()
        invariant
            i <= s.len(),
            r@ == s@.subrange(0, i as int),
        decreases s.len() - i,
    {
        r.push(s[i]);
        i = i + 1;
        assert(r@ =~= s@.subrange(0, i as int));
    }
    assert(s@.subrange(0, s@.len() as int) =~= s@);
    r
}

fn bools_eq(a: &[bool], b: &[bool]) -> (r: bool)
    ensures
        r == (a@ == b@),
{
    if a.len() != b.len() {
        return false;
    }
    let mut i: usize = 0;
    while i < a.len()
        invariant
            a.len() == b.len(),
            i <= a.len(),
            forall|j: int| 0 <= j < i ==> a@[j] == b@[j],
        decreases a.len() - i,
    {
        if a[i] != b[i] {
            return false;
        }
        i = i + 1;
    }
    assert(a@ =~= b@);
    true
}

fn filled(value: bool, n: u32) -> (r: Vec<bool>)
    ensures
        r@ == Seq::new(n as nat, |i: int| value),
{
    let mut r: Vec<bool> = Vec::new();
    let mut i: u32 = 0;
    while i < n
        invariant
            i <= n,
            r@ == Seq::new(i as nat, |k: int| value),
        decreases n - i,
    {
        r.push(value);
        i = i + 1;
        assert(r@ =~= Seq::new(i as nat, |k: int| value));
    }
    r
}

/// One distribution round on concrete groups.
fn distribute_groups(groups: &Vec<Vec<bool>>, same: usize, d: usize) -> (r: Vec<Vec<bool>>)
    requires
        1 <= d <= same,
        same + d <= groups@.len(),
    ensures
        group_views(r@) == distribute_round(group_views(groups@), same as int, d as int),
{
    let ghost gs = group_views(groups@);
    let ghost target = distribute_round(gs, same as int, d as int);
    let n = groups.len();
    let mut out: Vec<Vec<bool>> = Vec::new();
    let mut i: usize = 0;
    while i < d
        invariant
            gs == group_views(groups@),
            n == groups@.len(),
            1 <= d <= same,
            same + d <= n,
            i <= d,
            out@.len() == i,
            group_views(out@) == target.take(i as int),
            target == distribute_round(gs, same as int, d as int),
        decreases d - i,
    {
        let mut combined = copy_bools(groups[i].as_slice());
        let tail = copy_bools(groups[same + i].as_slice());
        let mut t = tail;
        combined.append(&mut t);
        assert(combined@ == gs[i as int] + gs[same + i]);
        let ghost before = out@;
        out.push(combined);
        i = i + 1;
        proof {
            assert(target[i - 1] == gs[i - 1] + gs[same + i - 1]);
            assert forall|j: int| 0 <= j < i implies #[trigger] group_views(out@)[j] == target.take(
                i as int,
            )[j] by {
                if j < i - 1 {
                    assert(out@[j] == before[j]);
                }
            }
        }
        assert(group_views(out@) =~= target.take(i as int));
    }
    let mut k: usize = d;
    while k < same
        invariant
            gs == group_views(groups@),
            n == groups@.len(),
            1 <= d <= same,
            same + d <= n,
            d <= k <= same,
            out@.len() == k,
            group_views(out@) == target.take(k as int),
            target == distribute_round(gs, same as int, d as int),
        decreases same - k,
    {
        let ghost before = out@;
        out.push(copy_bools(groups[k].as_slice()));
        k = k + 1;
        proof {
            assert(target[k - 1] == gs[k - 1]);
            assert forall|j: int| 0 <= j < k implies #[trigger] group_views(out@)[j] == target.take(
                k as int,
            )[j] by {
                if j < k - 1 {
                    assert(out@[j] == before[j]);
                }
            }
        }
        assert(group_views(out@) =~= target.take(k as int));
    }
    let mut m: usize = same + d;
    while m < n
        invariant
            gs == group_views(groups@),
            n == groups@.len(),
            1 <= d <= same,
            same + d <= m <= n,
            out@.len() == m - d,
            group_views(out@) == target.take(m - d),
            target == distribute_round(gs, same as int, d as int),
            target.len() == n - d,
        decreases n - m,
    {
        let ghost before = out@;
        out.push(copy_bools(groups[m].as_slice()));
        m = m + 1;
        proof {
            assert(target[m - 1 - d] == gs[m - 1]);
            assert forall|j: int| 0 <= j < m - d implies #[trigger] group_views(out@)[j]
                == target.take(m - d)[j] by {
                if j < m - 1 - d {
                    assert(out@[j] == before[j]);
                }
            }
        }
        assert(group_views(out@) =~= target.take(m - d));
    }
    assert(target.take(n - d) =~= target);
    out
}

/// Bjorklund's algorithm: distribute `pulses` evenly across `steps`.
/// Returns a Vec<bool> of length `steps` where true = pulse, false = rest.
pub fn bjorklund(pulses: u32, steps: u32) -> (r: Vec<bool>)
    ensures
        r@ == spec_bjorklund(pulses, steps),
{
    if steps == 0 {
        return Vec::new();
    }
    if pulses >= steps {
        return filled(true, steps);
    }
    if pulses == 0 {
        return filled(false, steps);
    }
    let ghost target = bjorklund_groups(initial_groups(pulses as nat, steps as nat));
    let mut groups: Vec<Vec<bool>> = Vec::new();
    let mut i: u32 = 0;
    while i < steps
        invariant
            i <= steps,
            groups@.len() == i,
            group_views(groups@) == initial_groups(pulses as nat, i as nat),
        decreases steps - i,
    {
        let mut g: Vec<bool> = Vec::new();
        g.push(i < pulses);
        assert(g@ =~= seq![i < pulses]);
        let ghost before = groups@;
        groups.push(g);
        i = i + 1;
        proof {
            assert forall|j: int| 0 <= j < i implies #[trigger] group_views(groups@)[j]
                == initial_groups(pulses as nat, i as nat)[j] by {
                if j < i - 1 {
                    assert(groups@[j] == before[j]);
                    assert(group_views(before)[j] == initial_groups(pulses as nat, (i - 1) as nat)[j]);
                }
            }
        }
        assert(group_views(groups@) =~= initial_groups(pulses as nat, i as nat));
    }
    loop
        invariant
            groups@.len() >= 1,
            bjorklund_groups(group_views(groups@)) == target,
        ensures
            group_views(groups@) == target,
        decreases groups@.len(),
    {
        let ghost gs = group_views(groups@);
        let group_count = groups.len();
        let mut same: usize = 1;
        while same < group_count && bools_eq(groups[same].as_slice(), groups[0].as_slice())
            invariant
                gs == group_views(groups@),
                group_count == groups@.len(),
                1 <= same <= group_count,
                leading_same(gs, 1) == leading_same(gs, same as int),
            decreases group_count - same,
        {
            same = same + 1;
        }
        proof {
            lemma_leading_same_bounds(gs, 1);
        }
        let remainder = group_count - same;
        if remainder <= 1 {
            break;
        }
        let distribute = if same < remainder {
            same
        } else {
            remainder
        };
        let next = distribute_groups(&groups, same, distribute);
        proof {
            assert(group_views(next@).len() == next@.len());
            assert(distribute_round(gs, same as int, distribute as int).len() == group_count
                - distribute);
        }
        groups = next;
    }
    let mut result: Vec<bool> = Vec::new();
    let mut j: usize = 0;
    while j < groups.len()
        invariant
            j <= groups@.len(),
            result@ == group_views(groups@).take(j as int).flatten(),
        decreases groups@.len() - j,
    {
        let mut g = copy_bools(groups[j].as_slice());
        result.append(&mut g);
        proof {
            let gv = group_views(groups@);
            assert(gv.take(j + 1) =~= gv.take(j as int).push(gv[j as int]));
            gv.take(j as int).lemma_flatten_push(gv[j as int]);
        }
        j = j + 1;
    }
    proof {
        assert(group_views(groups@).take(groups@.len() as int) =~= group_views(groups@));
    }
    result
}

/// Which of `step_count` steps sound: the Euclidean rhythm repeated over
/// them, or every step when the rhythm is empty.
pub open spec fn spec_euclid_mask(step_count: nat, pulses: u32, steps: u32) -> Seq<bool> {
    let p = spec_bjorklund(pulses, steps);
    if p.len() == 0 {
        Seq::new(step_count, |i: int| true)
    } else {
        Seq::new(step_count, |i: int| p[i % (p.len() as int)])
    }
}

/// Compute a euclidean gate mask for the step sequence.
/// Steps where the mask is false are silenced (treated as rests).
pub fn compute_euclid_gate_mask(step_count: usize, pulses: u32, euclid_steps: u32) -> (r: Vec<
    bool,
>)
    ensures
        r@ == spec_euclid_mask(step_count as nat, pulses, euclid_steps),
{
    let pattern = bjorklund(pulses, euclid_steps);
    let mut r: Vec<bool> = Vec::new();
    let mut i: usize = 0;
    while i < step_count
        invariant
            i <= step_count,
            pattern@ == spec_bjorklund(pulses, euclid_steps),
            r@ == spec_euclid_mask(step_count as nat, pulses, euclid_steps).take(i as int),
        decreases step_count - i,
    {
        if pattern.len() == 0 {
            r.push(true);
        } else {
            r.push(pattern[i % pattern.len()]);
        }
        i = i + 1;
        assert(r@ =~= spec_euclid_mask(step_count as nat, pulses, euclid_steps).take(i as int));
    }
    assert(spec_euclid_mask(step_count as nat, pulses, euclid_steps).take(step_count as int)
        =~= spec_euclid_mask(step_count as nat, pulses, euclid_steps));
    r
}

proof fn lemma_pulse_count_concat(a: Seq<bool>, b: Seq<bool>)
    ensures
        pulse_count(a + b) == pulse_count(a) + pulse_count(b),
    decreases b.len(),
{
    if b.len() == 0 {
        assert(a + b =~= a);
    } else {
        assert((a + b).drop_last() =~= a + b.drop_last());
        lemma_pulse_count_concat(a, b.drop_last());
    }
}

proof fn lemma_flatten_last(gs: Seq<Seq<bool>>)
    requires
        gs.len() > 0,
    ensures
        gs.flatten() == gs.drop_last().flatten() + gs.last(),
{
    assert(gs =~= gs.drop_last().push(gs.last()));
    gs.drop_last().lemma_flatten_push(gs.last());
}

proof fn lemma_flatten_concat_totals(a: Seq<Seq<bool>>, b: Seq<Seq<bool>>)
    ensures
        (a + b).flatten().len() == a.flatten().len() + b.flatten().len(),
        pulse_count((a + b).flatten()) == pulse_count(a.flatten()) + pulse_count(b.flatten()),
{
    vstd::seq_lib::lemma_flatten_concat(a, b);
    lemma_pulse_count_concat(a.flatten(), b.flatten());
}

proof fn lemma_zip_totals(x: Seq<Seq<bool>>, y: Seq<Seq<bool>>)
    requires
        x.len() == y.len(),
    ensures
        ({
            let z = Seq::new(x.len(), |i: int| x[i] + y[i]);
            &&& z.flatten().len() == x.flatten().len() + y.flatten().len()
            &&& pulse_count(z.flatten()) == pulse_count(x.flatten()) + pulse_count(y.flatten())
        }),
    decreases x.len(),
{
    let z = Seq::new(x.len(), |i: int| x[i] + y[i]);
    if x.len() > 0 {
        let x1 = x.drop_last();
        let y1 = y.drop_last();
        let z1 = Seq::new(x1.len(), |i: int| x1[i] + y1[i]);
        lemma_zip_totals(x1, y1);
        assert(z.drop_last() =~= z1);
        lemma_flatten_last(z);
        lemma_flatten_last(x);
        lemma_flatten_last(y);
        lemma_pulse_count_concat(z1.flatten(), z.last());
        lemma_pulse_count_concat(x1.flatten(), x.last());
        lemma_pulse_count_concat(y1.flatten(), y.last());
        lemma_pulse_count_concat(x.last(), y.last());
    } else {
        assert(z =~= Seq::<Seq<bool>>::empty());
        assert(x =~= Seq::<Seq<bool>>::empty());
        assert(y =~= Seq::<Seq<bool>>::empty());
    }
}

proof fn lemma_distribute_round_totals(gs: Seq<Seq<bool>>, same: int, d: int)
    requires
        1 <= d <= same,
        same + d <= gs.len(),
    ensures
        distribute_round(gs, same, d).flatten().len() == gs.flatten().len(),
        pulse_count(distribute_round(gs, same, d).flatten()) == pulse_count(gs.flatten()),
{
    let x = gs.subrange(0, d);
    let b = gs.subrange(d, same);
    let y = gs.subrange(same, same + d);
    let c = gs.subrange(same + d, gs.len() as int);
    let z = Seq::new(d as nat, |i: int| gs[i] + gs[same + i]);
    assert(z =~= Seq::new(x.len(), |i: int| x[i] + y[i]));
    lemma_zip_totals(x, y);
    lemma_flatten_concat_totals(z, b);
    lemma_flatten_concat_totals(z + b, c);
    assert(distribute_round(gs, same, d) =~= z + b + c);
    assert(gs =~= x + b + y + c);
    lemma_flatten_concat_totals(x, b);
    lemma_flatten_concat_totals(x + b, y);
    lemma_flatten_concat_totals(x + b + y, c);
}

proof fn lemma_bjorklund_groups_totals(gs: Seq<Seq<bool>>)
    ensures
        bjorklund_groups(gs).flatten().len() == gs.flatten().len(),
        pulse_count(bjorklund_groups(gs).flatten()) == pulse_count(gs.flatten()),
    decreases gs.len(),
{
    if gs.len() > 0 {
        let same = leading_same(gs, 1);
        let rem = gs.len() - same;
        lemma_leading_same_bounds(gs, 1);
        if rem > 1 {
            let d = if same < rem {
                same
            } else {
                rem
            };
            lemma_distribute_round_totals(gs, same, d);
            lemma_bjorklund_groups_totals(distribute_round(gs, same, d));
        }
    }
}

proof fn lemma_initial_groups_totals(pulses: nat, steps: nat)
    ensures
        initial_groups(pulses, steps).flatten().len() == steps,
        pulse_count(initial_groups(pulses, steps).flatten()) == if pulses < steps {
            pulses
        } else {
            steps
        },
    decreases steps,
{
    let gs = initial_groups(pulses, steps);
    if steps > 0 {
        lemma_initial_groups_totals(pulses, (steps - 1) as nat);
        assert(gs.drop_last() =~= initial_groups(pulses, (steps - 1) as nat));
        lemma_flatten_last(gs);
        lemma_pulse_count_concat(gs.drop_last().flatten(), gs.last());
        assert(gs.last() == seq![steps - 1 < pulses]);
        let one = seq![steps - 1 < pulses];
        assert(one.drop_last() =~= Seq::<bool>::empty());
        assert(one.last() == (steps - 1 < pulses));
        assert(pulse_count(one.drop_last()) == 0);
        assert(pulse_count(one) == if steps - 1 < pulses {
            1nat
        } else {
            0nat
        });
    } else {
        assert(gs =~= Seq::<Seq<bool>>::empty());
    }
}

proof fn lemma_constant_pulses(value: bool, n: nat)
    ensures
        pulse_count(Seq::new(n, |i: int| value)) == if value {
            n
        } else {
            0
        },
    decreases n,
{
    if n > 0 {
        lemma_constant_pulses(value, (n - 1) as nat);
        assert(Seq::new(n, |i: int| value).drop_last() =~= Seq::new((n - 1) as nat, |i: int| value));
    }
}

/// A Euclidean rhythm has exactly `steps` steps, and `pulses` of them are
/// pulses (all of them when `pulses >= steps`).
pub proof fn lemma_bjorklund_shape(pulses: u32, steps: u32)
    ensures
        spec_bjorklund(pulses, steps).len() == steps,
        pulse_count(spec_bjorklund(pulses, steps)) == if pulses < steps {
            pulses
        } else {
            steps
        },
{
    if steps == 0 {
    } else if pulses >= steps {
        lemma_constant_pulses(true, steps as nat);
    } else if pulses == 0 {
        lemma_constant_pulses(false, steps as nat);
    } else {
        lemma_initial_groups_totals(pulses as nat, steps as nat);
        lemma_bjorklund_groups_totals(initial_groups(pulses as nat, steps as nat));
    }
}

/// A pulse followed by `g` rests.
pub open spec fn pulse_block(g: nat) -> Seq<bool> {
    seq![true] + Seq::new(g, |i: int| false)
}

/// Pulses in turn, the `i`-th followed by `gaps[i]` rests.
pub open spec fn blocks(gaps: Seq<nat>) -> Seq<bool>
    decreases gaps.len(),
{
    if gaps.len() == 0 {
        Seq::empty()
    } else {
        blocks(gaps.drop_last()) + pulse_block(gaps.last())
    }
}

/// Whether every gap is `q` or `q + 1`.
pub open spec fn gaps_within(gaps: Seq<nat>, q: nat) -> bool {
    forall|i: int| 0 <= i < gaps.len() ==> #[trigger] gaps[i] == q || gaps[i] == q + 1
}

proof fn lemma_blocks_concat(a: Seq<nat>, b: Seq<nat>)
    ensures
        blocks(a + b) == blocks(a) + blocks(b),
    decreases b.len(),
{
    if b.len() == 0 {
        assert(a + b =~= a);
        assert(blocks(a) + blocks(b) =~= blocks(a));
    } else {
        assert((a + b).drop_last() =~= a + b.drop_last());
        lemma_blocks_concat(a, b.drop_last());
        assert(blocks(a + b) =~= blocks(a) + blocks(b));
    }
}

proof fn lemma_blocks_pulses(gaps: Seq<nat>)
    ensures
        pulse_count(blocks(gaps)) == gaps.len(),
    decreases gaps.len(),
{
    if gaps.len() > 0 {
        lemma_blocks_pulses(gaps.drop_last());
        let g = gaps.last();
        lemma_pulse_count_concat(blocks(gaps.drop_last()), pulse_block(g));
        assert(seq![true].drop_last() =~= Seq::<bool>::empty());
        assert(pulse_count(Seq::<bool>::empty()) == 0);
        assert(seq![true].last());
        assert(pulse_count(seq![true]) == 1);
        lemma_pulse_count_concat(seq![true], Seq::new(g, |i: int| false));
        lemma_constant_pulses(false, g);
    }
}

proof fn lemma_blocks_single(g: nat)
    ensures
        blocks(seq![g]) == pulse_block(g),
{
    assert(seq![g].drop_last() =~= Seq::<nat>::empty());
    assert(blocks(Seq::<nat>::empty()) == Seq::<bool>::empty());
    assert(Seq::<bool>::empty() + pulse_block(g) =~= pulse_block(g));
}

/// The gaps of groups laid end to end.
proof fn lemma_flatten_blocks(gs: Seq<Seq<bool>>, g: Seq<Seq<nat>>, q: nat)
    requires
        gs.len() == g.len(),
        forall|i: int| 0 <= i < gs.len() ==> #[trigger] gs[i] == blocks(g[i]),
        forall|i: int| 0 <= i < g.len() ==> gaps_within(#[trigger] g[i], q),
    ensures
        gs.flatten() == blocks(g.flatten()),
        gaps_within(g.flatten(), q),
    decreases gs.len(),
{
    if gs.len() == 0 {
        assert(g =~= Seq::<Seq<nat>>::empty());
    } else {
        let gs1 = gs.drop_last();
        let g1 = g.drop_last();
        lemma_flatten_blocks(gs1, g1, q);
        lemma_flatten_last(gs);
        assert(g =~= g1.push(g.last()));
        g1.lemma_flatten_push(g.last());
        lemma_blocks_concat(g1.flatten(), g.last());
        assert(gs.last() == blocks(g.last()));
        let f = g.flatten();
        assert forall|i: int| 0 <= i < f.len() implies #[trigger] f[i] == q || f[i] == q + 1 by {
            if i < g1.flatten().len() {
                assert(f[i] == g1.flatten()[i]);
            } else {
                assert(f[i] == g.last()[i - g1.flatten().len()]);
                assert(gaps_within(g.last(), q));
            }
        }
    }
}

/// `distribute_round` on the gaps of the groups.
pub open spec fn distribute_gaps(g: Seq<Seq<nat>>, same: int, d: int) -> Seq<Seq<nat>> {
    Seq::new(d as nat, |i: int| g[i] + g[same + i]) + g.subrange(d, same) + g.subrange(
        same + d,
        g.len() as int,
    )
}

/// Once every group is pulses each followed by `q` or `q + 1` rests,
/// Bjorklund's rounds keep it so.
proof fn lemma_groups_even_blocks(gs: Seq<Seq<bool>>, g: Seq<Seq<nat>>, q: nat) -> (h: Seq<nat>)
    requires
        gs.len() == g.len(),
        forall|i: int| 0 <= i < gs.len() ==> #[trigger] gs[i] == blocks(g[i]),
        forall|i: int| 0 <= i < g.len() ==> gaps_within(#[trigger] g[i], q),
    ensures
        bjorklund_groups(gs).flatten() == blocks(h),
        gaps_within(h, q),
    decreases gs.len(),
{
    if gs.len() == 0 {
        lemma_flatten_blocks(gs, g, q);
        g.flatten()
    } else {
        let same = leading_same(gs, 1);
        let rem = gs.len() - same;
        lemma_leading_same_bounds(gs, 1);
        if rem <= 1 {
            lemma_flatten_blocks(gs, g, q);
            g.flatten()
        } else {
            let d = if same < rem {
                same
            } else {
                rem
            };
            let gs2 = distribute_round(gs, same, d);
            let g2 = distribute_gaps(g, same, d);
            assert forall|i: int| 0 <= i < gs2.len() implies #[trigger] gs2[i] == blocks(g2[i]) && gaps_within(g2[i], q) by {
                if i < d {
                    lemma_blocks_concat(g[i], g[same + i]);
                    assert(gs2[i] == gs[i] + gs[same + i]);
                    assert(g2[i] == g[i] + g[same + i]);
                    assert(gaps_within(g[i], q));
                    assert(gaps_within(g[same + i], q));
                    let c = g[i] + g[same + i];
                    assert forall|j: int| 0 <= j < c.len() implies #[trigger] c[j] == q || c[j] == q + 1 by {
                        if j < g[i].len() {
                            assert(c[j] == g[i][j]);
                        } else {
                            assert(c[j] == g[same + i][j - g[i].len()]);
                        }
                    }
                } else if i < same {
                    assert(gs2[i] == gs[i]);
                    assert(g2[i] == g[i]);
                } else {
                    assert(gs2[i] == gs[i + d]);
                    assert(g2[i] == g[i + d]);
                }
            }
            lemma_groups_even_blocks(gs2, g2, q)
        }
    }
}

/// `a` groups of one pulse followed by `q` rests, then `b` rests.
pub open spec fn pulses_then_rests(a: nat, b: nat, q: nat) -> Seq<Seq<bool>> {
    Seq::new(a + b, |i: int| if i < a { pulse_block(q) } else { seq![false] })
}

proof fn lemma_leading_pulses(a: nat, b: nat, q: nat, i: int)
    requires
        1 <= i <= a,
    ensures
        leading_same(pulses_then_rests(a, b, q), i) == a,
    decreases a - i,
{
    let gs = pulses_then_rests(a, b, q);
    if i < a {
        assert(gs[i] == gs[0]);
        lemma_leading_pulses(a, b, q, i + 1);
    } else if i < gs.len() {
        assert(gs[i][0] != gs[0][0]);
    }
}

/// While rests are left over, each round appends one to every pulse group
/// (or to as many as there are rests), and Bjorklund's algorithm ends with
/// pulses each followed by the same number of rests give or take one.
proof fn lemma_groups_even_rests(a: nat, b: nat, q: nat) -> (r: (Seq<nat>, nat))
    requires
        a >= 1,
    ensures
        bjorklund_groups(pulses_then_rests(a, b, q)).flatten() == blocks(r.0),
        gaps_within(r.0, r.1),
    decreases a + b,
{
    let gs = pulses_then_rests(a, b, q);
    lemma_leading_pulses(a, b, q, 1);
    let one = single_gaps(a, q);
    assert forall|i: int| 0 <= i < a implies #[trigger] gs[i] == blocks(one[i]) by {
        lemma_blocks_single(q);
    }
    if b <= 1 {
        let first = gs.subrange(0, a as int);
        lemma_flatten_blocks(first, one, q);
        if b == 0 {
            assert(gs =~= first);
            (one.flatten(), q)
        } else {
            let rests = gs.subrange(a as int, (a + b) as int);
            assert(gs =~= first + rests);
            vstd::seq_lib::lemma_flatten_concat(first, rests);
            assert(rests =~= Seq::<Seq<bool>>::empty().push(seq![false]));
            Seq::<Seq<bool>>::empty().lemma_flatten_push(seq![false]);
            assert(rests.flatten() =~= seq![false]);
            let f = one.flatten();
            lemma_one_flatten(a, q);
            let h = f.drop_last().push(q + 1);
            assert(f =~= f.drop_last().push(f.last()));
            assert(h.drop_last() =~= f.drop_last());
            assert(pulse_block(q) + seq![false] =~= pulse_block(q + 1));
            assert(blocks(f) == blocks(f.drop_last()) + pulse_block(f.last()));
            assert(blocks(h) == blocks(f.drop_last()) + pulse_block(q + 1));
            assert(blocks(f) + seq![false] =~= blocks(h));
            assert forall|i: int| 0 <= i < h.len() implies #[trigger] h[i] == q || h[i] == q + 1 by {
                if i < h.len() - 1 {
                    assert(h[i] == f[i]);
                }
            }
            (h, q)
        }
    } else if a < b {
        let gs2 = distribute_round(gs, a as int, a as int);
        assert(gs2 =~= pulses_then_rests(a, (b - a) as nat, q + 1)) by {
            assert forall|i: int| 0 <= i < gs2.len() implies #[trigger] gs2[i] == pulses_then_rests(a, (b - a) as nat, q + 1)[i] by {
                if i < a {
                    assert(gs2[i] == gs[i] + gs[a + i]);
                    assert(pulse_block(q) + seq![false] =~= pulse_block(q + 1));
                } else {
                    assert(gs2[i] == gs[i + a]);
                }
            }
        }
        lemma_groups_even_rests(a, (b - a) as nat, q + 1)
    } else {
        let gs2 = distribute_round(gs, a as int, b as int);
        let g2 = Seq::new(a, |i: int| if i < b { seq![q + 1] } else { seq![q] });
        assert forall|i: int| 0 <= i < gs2.len() implies #[trigger] gs2[i] == blocks(g2[i]) && gaps_within(g2[i], q) by {
            lemma_blocks_single(q);
            lemma_blocks_single(q + 1);
            if i < b {
                assert(gs2[i] == gs[i] + gs[a + i]);
                assert(pulse_block(q) + seq![false] =~= pulse_block(q + 1));
            } else {
                assert(gs2[i] == gs[i]);
            }
        }
        (lemma_groups_even_blocks(gs2, g2, q), q)
    }
}

/// `a` groups of one gap `q` each.
pub open spec fn single_gaps(a: nat, q: nat) -> Seq<Seq<nat>> {
    Seq::new(a, |i: int| seq![q])
}

proof fn lemma_one_flatten(a: nat, q: nat)
    requires
        a >= 1,
    ensures
        single_gaps(a, q).flatten().len() == a,
        forall|i: int| 0 <= i < a ==> #[trigger] single_gaps(a, q).flatten()[i] == q,
    decreases a,
{
    let g = single_gaps(a, q);
    let g1 = single_gaps((a - 1) as nat, q);
    assert(g =~= g1.push(seq![q]));
    g1.lemma_flatten_push(seq![q]);
    if a > 1 {
        lemma_one_flatten((a - 1) as nat, q);
    } else {
        assert(g1 =~= Seq::<Seq<nat>>::empty());
    }
}

/// Total rests of the gaps.
pub open spec fn gap_sum(gaps: Seq<nat>) -> nat
    decreases gaps.len(),
{
    if gaps.len() == 0 {
        0
    } else {
        gap_sum(gaps.drop_last()) + gaps.last()
    }
}

proof fn lemma_blocks_len(gaps: Seq<nat>)
    ensures
        blocks(gaps).len() == gaps.len() + gap_sum(gaps),
    decreases gaps.len(),
{
    if gaps.len() > 0 {
        lemma_blocks_len(gaps.drop_last());
    }
}

proof fn lemma_gap_sum_bounds(gaps: Seq<nat>, q: nat)
    requires
        gaps_within(gaps, q),
    ensures
        gaps.len() * q <= gap_sum(gaps) <= gaps.len() * (q + 1),
        gap_sum(gaps) == gaps.len() * (q + 1) ==> forall|i: int|
            0 <= i < gaps.len() ==> #[trigger] gaps[i] == q + 1,
    decreases gaps.len(),
{
    if gaps.len() > 0 {
        let g1 = gaps.drop_last();
        assert forall|i: int| 0 <= i < g1.len() implies #[trigger] g1[i] == q || g1[i] == q + 1 by {
            assert(g1[i] == gaps[i]);
        }
        lemma_gap_sum_bounds(g1, q);
        let n = gaps.len();
        assert(gaps[n - 1] == q || gaps[n - 1] == q + 1);
        assert(n * q == (n - 1) * q + q) by (nonlinear_arith);
        assert(n * (q + 1) == (n - 1) * (q + 1) + (q + 1)) by (nonlinear_arith);
        if gap_sum(gaps) == n * (q + 1) {
            assert forall|i: int| 0 <= i < gaps.len() implies #[trigger] gaps[i] == q + 1 by {
                if i < n - 1 {
                    assert(g1[i] == gaps[i]);
                }
            }
        }
    }
}

/// Bjorklund's algorithm spreads the pulses evenly: with `0 < pulses <
/// steps`, the rhythm starts on a pulse, and every pulse is followed by
/// `q` or `q + 1` rests (`gaps[i]` rests after pulse `i`), `q` being the
/// number of rests per pulse rounded down.
pub proof fn lemma_bjorklund_even(pulses: u32, steps: u32) -> (gaps: Seq<nat>)
    requires
        0 < pulses < steps,
    ensures
        spec_bjorklund(pulses, steps) == blocks(gaps),
        gaps.len() == pulses,
        gaps_within(gaps, ((steps - pulses) / (pulses as int)) as nat),
{
    let p = pulses as nat;
    let n = steps as nat;
    let gs = pulses_then_rests(p, (n - p) as nat, 0);
    assert(gs =~= initial_groups(p, n)) by {
        assert forall|i: int| 0 <= i < gs.len() implies #[trigger] gs[i] == initial_groups(p, n)[i] by {
            if i < p {
                assert(pulse_block(0) =~= seq![true]);
            }
        }
    }
    let r = lemma_groups_even_rests(p, (n - p) as nat, 0);
    let gaps = r.0;
    let q = r.1;
    lemma_blocks_pulses(gaps);
    lemma_bjorklund_shape(pulses, steps);
    lemma_blocks_len(gaps);
    lemma_gap_sum_bounds(gaps, q);
    let sum = gap_sum(gaps);
    assert(sum == n - p);
    let k = (n - p) / (p as int);
    if sum == p * (q + 1) {
        assert(k == q + 1) by (nonlinear_arith)
            requires
                n - p == p * (q + 1),
                p > 0,
                k == (n - p) / (p as int),
        ;
        assert forall|i: int| 0 <= i < gaps.len() implies #[trigger] gaps[i] == k || gaps[i] == k + 1 by {}
    } else {
        assert(k == q) by (nonlinear_arith)
            requires
                p * q <= n - p < p * (q + 1),
                p > 0,
                k == (n - p) / (p as int),
        ;
    }
    gaps
}

// ── Arpeggio cycles ──────────────────────────────────────────────────

/// `v` with the entries at `i` and `j` exchanged.
pub open spec fn swap_at(v: Seq<u8>, i: int, j: int) -> Seq<u8> {
    v.update(i, v[j]).update(j, v[i])
}

/// Fisher–Yates shuffle of `v` from position `i` down to 1, the swap partner
/// of position `i` being `draws[k] % (i + 1)` for successive draws.
pub open spec fn shuffle_from(v: Seq<u8>, i: int, draws: Seq<u64>, k: int) -> Seq<u8>
    decreases i,
{
    if i < 1 {
        v
    } else {
        let j = (draws[k] % ((i + 1) as u64)) as int;
        shuffle_from(swap_at(v, i, j), i - 1, draws, k + 1)
    }
}

/// Up then down through `t` without repeating the top or the bottom tone.
pub open spec fn updown_cycle(t: Seq<u8>) -> Seq<u8> {
    if t.len() > 1 {
        t + t.subrange(1, t.len() - 1).reverse()
    } else {
        t
    }
}

/// The arpeggio cycle of chord tones `t` for a pattern; a random cycle is
/// the Fisher–Yates shuffle driven by `draws`.
pub open spec fn spec_arp_cycle(t: Seq<u8>, pattern: ArpPattern, draws: Seq<u64>) -> Seq<u8> {
    if t.len() == 0 {
        Seq::empty()
    } else {
        match pattern {
            ArpPattern::Up => t,
            ArpPattern::Down => t.reverse(),
            ArpPattern::UpDown => updown_cycle(t),
            ArpPattern::Random => shuffle_from(t, t.len() - 1, draws, 0),
        }
    }
}

/// Number of generator draws the arpeggio cycle of `n` tones takes: one per
/// swap of the shuffle for `Random`, none otherwise.
pub open spec fn arp_draw_count(n: nat, pattern: ArpPattern) -> nat {
    if pattern == ArpPattern::Random && n > 0 {
        (n - 1) as nat
    } else {
        0
    }
}

/// `draws` came from the seeded generator `next` started at `start`:
/// `states[k]` is the state before draw `k`, and one step of `next` on it
/// gave draw `k` and state `k + 1`.
pub open spec fn draws_follow<F: Fn(u64) -> (u64, u64)>(
    next: F,
    start: u64,
    draws: Seq<u64>,
    states: Seq<u64>,
) -> bool {
    &&& states.len() == draws.len() + 1
    &&& states[0] == start
    &&& forall|k: int|
        #![trigger draws[k]]
        0 <= k < draws.len() ==> call_ensures(next, (states[k],), (draws[k], states[k + 1]))
}

/// Generate an arp cycle from chord tones for the given pattern, drawing
/// from the seeded generator whose state is `rng_state` and one step of
/// which is `next` (the draw and the next state).
///
/// Returns a cycling sequence for use in `k % cycle.len()` indexing.
/// For `UpDown`: ascending then descending without repeating top or bottom.
/// For `Random`: a Fisher–Yates shuffle, one draw per swap, from the last
/// position down to 1; the other patterns leave the generator untouched.
pub fn generate_arp_cycle<F: Fn(u64) -> (u64, u64)>(
    tones: &[u8],
    pattern: ArpPattern,
    rng_state: &mut u64,
    next: &F,
) -> (r: Vec<u8>)
    requires
        forall|s: u64| call_requires(*next, (s,)),
    ensures
        exists|draws: Seq<u64>, states: Seq<u64>|
            #[trigger] draws_follow(*next, *old(rng_state), draws, states)
                && draws.len() == arp_draw_count(tones@.len(), pattern)
                && *final(rng_state) == states.last()
                && r@ == spec_arp_cycle(tones@, pattern, draws),
{
    let ghost start = *rng_state;
    let count: usize = match pattern {
        ArpPattern::Random => if tones.len() > 0 {
            tones.len() - 1
        } else {
            0
        },
        _ => 0,
    };
    let mut draws: Vec<u64> = Vec::new();
    let ghost mut states: Seq<u64> = seq![start];
    let mut k: usize = 0;
    while k < count
        invariant
            k <= count,
            count == arp_draw_count(tones@.len(), pattern),
            draws@.len() == k,
            forall|s: u64| call_requires(*next, (s,)),
            draws_follow(*next, start, draws@, states),
            *rng_state == states.last(),
        decreases count - k,
    {
        let (d, s2) = next(*rng_state);
        proof {
            let old_draws = draws@;
            let old_states = states;
            states = states.push(s2);
            assert forall|i: int| 0 <= i < old_draws.push(d).len() implies call_ensures(
                *next,
                (states[i],),
                (#[trigger] old_draws.push(d)[i], states[i + 1]),
            ) by {
                if i < old_draws.len() {
                    assert(old_draws.push(d)[i] == old_draws[i]);
                    assert(states[i] == old_states[i] && states[i + 1] == old_states[i + 1]);
                }
            }
        }
        draws.push(d);
        *rng_state = s2;
        k = k + 1;
    }
    let r = arp_cycle_from_draws(tones, pattern, draws.as_slice());
    proof {
        assert(draws_follow(*next, start, draws@, states));
    }
    r
}

/// The arp cycle of chord tones for a pattern, with the draws of its
/// shuffle given.
///
/// For `Random`: a Fisher–Yates shuffle whose swap at position `i` (from
/// the last down to 1) takes `draws` in order, one per swap.
pub fn arp_cycle_from_draws(tones: &[u8], pattern: ArpPattern, draws: &[u64]) -> (r: Vec<u8>)
    requires
        pattern == ArpPattern::Random && tones@.len() > 0 ==> draws@.len() >= tones@.len() - 1,
    ensures
        r@ == spec_arp_cycle(tones@, pattern, draws@),
{
    if tones.len() == 0 {
        return Vec::new();
    }
    let n = tones.len();
    match pattern {
        ArpPattern::Up => copy_bytes(tones),
        ArpPattern::Down => {
            let mut v: Vec<u8> = Vec::new();
            let mut i: usize = n;
            while i > 0
                invariant
                    i <= n,
                    n == tones@.len(),
                    v@ == tones@.reverse().take((n - i) as int),
                decreases i,
            {
                i = i - 1;
                v.push(tones[i]);
                assert(v@ =~= tones@.reverse().take((n - i) as int));
            }
            assert(tones@.reverse().take(n as int) =~= tones@.reverse());
            v
        },
        ArpPattern::UpDown => {
            let mut v = copy_bytes(tones);
            if n > 1 {
                let ghost mid = tones@.subrange(1, n - 1).reverse();
                let mut i: usize = n - 1;
                while i > 1
                    invariant
                        1 <= i <= n - 1,
                        n == tones@.len(),
                        n > 1,
                        mid == tones@.subrange(1, n - 1).reverse(),
                        v@ == tones@ + mid.take((n - 1 - i) as int),
                    decreases i,
                {
                    i = i - 1;
                    v.push(tones[i]);
                    assert(v@ =~= tones@ + mid.take((n - 1 - i) as int));
                }
                assert(mid.take((n - 2) as int) =~= mid);
            }
            v
        },
        ArpPattern::Random => {
            let mut v = copy_bytes(tones);
            let mut i: usize = n - 1;
            let mut k: usize = 0;
            while i >= 1
                invariant
                    n == tones@.len(),
                    n > 0,
                    i < n,
                    k == n - 1 - i,
                    draws@.len() >= n - 1,
                    v@.len() == n,
                    shuffle_from(tones@, n - 1, draws@, 0) == shuffle_from(v@, i as int, draws@, k as int),
                decreases i,
            {
                let j = (draws[k] % ((i + 1) as u64)) as usize;
                let ghost before = v@;
                let a = v[i];
                let b = v[j];
                v.set(i, b);
                v.set(j, a);
                assert(v@ =~= swap_at(before, i as int, j as int));
                i = i - 1;
                k = k + 1;
            }
            v
        },
    }
}

proof fn lemma_swap_multiset(v: Seq<u8>, i: int, j: int)
    requires
        0 <= i < v.len(),
        0 <= j < v.len(),
    ensures
        swap_at(v, i, j).len() == v.len(),
        swap_at(v, i, j).to_multiset() == v.to_multiset(),
{
    broadcast use vstd::multiset::group_multiset_properties;
    broadcast use vstd::multiset::group_multiset_axioms;

    let w = v.update(i, v[j]);
    vstd::seq_lib::to_multiset_update(v, i, v[j]);
    vstd::seq_lib::to_multiset_update(w, j, v[i]);
    vstd::seq_lib::to_multiset_contains(v, v[i]);
    vstd::seq_lib::to_multiset_contains(v, v[j]);
    if i == j {
        assert(swap_at(v, i, j) =~= v);
    } else {
        assert(w[j] == v[j]);
        assert(swap_at(v, i, j).to_multiset() =~= v.to_multiset());
    }
}

proof fn lemma_shuffle_permutes(v: Seq<u8>, i: int, draws: Seq<u64>, k: int)
    requires
        i < v.len(),
        v.len() <= u64::MAX,
    ensures
        shuffle_from(v, i, draws, k).to_multiset() == v.to_multiset(),
    decreases i,
{
    if i >= 1 {
        let j = (draws[k] % ((i + 1) as u64)) as int;
        assert(((i + 1) as u64) as int == i + 1);
        lemma_swap_multiset(v, i, j);
        lemma_shuffle_permutes(swap_at(v, i, j), i - 1, draws, k + 1);
    }
}

/// An arpeggio cycle going up, down or in random order plays each chord
/// tone exactly as often as the chord holds it.
pub proof fn lemma_arp_cycle_permutes(t: Seq<u8>, pattern: ArpPattern, draws: Seq<u64>)
    requires
        pattern != ArpPattern::UpDown,
        t.len() <= u64::MAX,
    ensures
        spec_arp_cycle(t, pattern, draws).to_multiset() == t.to_multiset(),
{
    if t.len() == 0 {
        assert(t =~= Seq::<u8>::empty());
    } else {
        match pattern {
            ArpPattern::Down => {
                t.lemma_reverse_to_multiset();
            },
            ArpPattern::Random => {
                lemma_shuffle_permutes(t, t.len() - 1, draws, 0);
            },
            _ => {},
        }
    }
}

} // verus!
