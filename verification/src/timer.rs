//! DIV, TIMA, TMA and TAC.
//!
//! One free-running 16-bit counter advances every cycle. DIV is its high byte.
//! TIMA counts the falling edges of the counter bit that TAC selects, while
//! TAC bit 2 enables it, and reloads from TMA when it overflows.
use vstd::prelude::*;

verus! {

pub struct Timer {
    pub(crate) counter: u16,
    pub tima: u8,
    pub tma: u8,
    pub tac: u8,
}

/// The counter bit whose falling edge clocks TIMA, for the rate bits of TAC.
pub open spec fn rate_bit(tac: u8) -> u16 {
    if tac & 3 == 0 {
        9
    } else if tac & 3 == 1 {
        3
    } else if tac & 3 == 2 {
        5
    } else {
        7
    }
}

/// Cycles per TIMA increment for the rate bits of TAC.
pub open spec fn rate_period(tac: u8) -> int {
    if tac & 3 == 0 {
        1024
    } else if tac & 3 == 1 {
        16
    } else if tac & 3 == 2 {
        64
    } else {
        256
    }
}

/// How many multiples of `p` lie in `(c, c + n]`: the falling edges of a
/// counter bit with period `p` while a counter at `c` advances `n` times.
pub open spec fn edges(c: int, n: int, p: int) -> int {
    (c + n) / p - c / p
}

/// The timer as plain values.
pub ghost struct TimerState {
    pub counter: u16,
    pub tima: u8,
    pub tma: u8,
    pub tac: u8,
}

impl TimerState {
    /// DIV: the high byte of the counter.
    pub open spec fn div(self) -> u8 {
        (self.counter / 256) as u8
    }

    /// The input to the TIMA edge detector.
    pub open spec fn timer_input(self) -> bool {
        self.tac & 4 != 0 && (self.counter >> rate_bit(self.tac)) & 1 != 0
    }

    /// One machine cycle: the counter advances, and a falling edge on the
    /// selected bit increments TIMA, which reloads from TMA when it overflows.
    /// The flag says whether TIMA overflowed.
    pub open spec fn cycle(self) -> (TimerState, bool) {
        let next = TimerState { counter: ((self.counter as int + 1) % 65536) as u16, ..self };
        if self.timer_input() && !next.timer_input() {
            if self.tima == 255 {
                (TimerState { tima: self.tma, ..next }, true)
            } else {
                (TimerState { tima: (self.tima + 1) as u8, ..next }, false)
            }
        } else {
            (next, false)
        }
    }

    /// `n` cycles in a row; the flag says whether TIMA overflowed in any of them.
    pub open spec fn run(self, n: nat) -> (TimerState, bool)
        decreases n,
    {
        if n == 0 {
            (self, false)
        } else {
            let (t, fired) = self.run((n - 1) as nat);
            let (t2, fired2) = t.cycle();
            (t2, fired || fired2)
        }
    }

    /// A write to DIV clears the whole counter.
    pub open spec fn reset_div(self) -> TimerState {
        TimerState { counter: 0, ..self }
    }
}

/// The view is the timer's fields.
pub(crate) broadcast proof fn lemma_timer_view(t: Timer)
    ensures
        #[trigger] t@ == (TimerState { counter: t.counter, tima: t.tima, tma: t.tma, tac: t.tac }),
{
}

impl Timer {
    pub closed spec fn view(&self) -> TimerState {
        TimerState { counter: self.counter, tima: self.tima, tma: self.tma, tac: self.tac }
    }

    pub fn new() -> (t: Self)
        ensures
            t@ == (TimerState { counter: 0, tima: 0, tma: 0, tac: 0 }),
    {
        Timer { counter: 0, tima: 0u8, tac: 0u8, tma: 0u8 }
    }

    /// Advances `cycles` machine cycles. Returns true when TIMA overflowed,
    /// which is the timer interrupt.
    pub fn tick(&mut self, cycles: u32) -> (fired: bool)
        ensures
            (final(self)@, fired) == old(self)@.run(cycles as nat),
    {
        let mut fired = false;
        let mut i: u32 = 0;
        while i < cycles
            invariant
                i <= cycles,
                (self@, fired) == old(self)@.run(i as nat),
            decreases cycles - i,
        {
            let before = self.timer_bit();
            self.counter = self.counter.wrapping_add(1);
            if before && !self.timer_bit() {
                let f = self.increment_tima();
                fired = fired || f;
            }
            i = i + 1;
        }
        fired
    }

    pub fn div(&self) -> (r: u8)
        ensures
            r == self@.div(),
    {
        proof {
            let c = self.counter;
            assert((c >> 8) as u8 == c / 256) by (bit_vector);
        }
        (self.counter >> 8) as u8
    }

    /// Any write to DIV clears the whole counter, not just the visible byte.
    pub fn reset_div(&mut self)
        ensures
            final(self)@ == old(self)@.reset_div(),
    {
        self.counter = 0;
    }

    fn timer_bit(&self) -> (r: bool)
        ensures
            r == self@.timer_input(),
    {
        let bit: u16 = match self.tac & 0b11 {
            0 => 9,
            1 => 3,
            2 => 5,
            _ => 7,
        };
        self.tac & 0b100 != 0 && (self.counter >> bit) & 1 != 0
    }

    fn increment_tima(&mut self) -> (overflow: bool)
        ensures
            overflow == (old(self).tima == 255),
            final(self).tima == if overflow { old(self).tma } else { (old(self).tima + 1) as u8 },
            final(self).counter == old(self).counter,
            final(self).tma == old(self).tma,
            final(self).tac == old(self).tac,
    {
        if self.tima == 255 {
            self.tima = self.tma;
            true
        } else {
            self.tima = self.tima + 1;
            false
        }
    }
}

/// Running `a + b` cycles at once is running `a` cycles and then `b` more:
/// the same state, and an overflow reported exactly when either part
/// reported one.
pub proof fn lemma_runs_compose(t: TimerState, a: nat, b: nat)
    ensures
        t.run(a + b) == (t.run(a).0.run(b).0, t.run(a).1 || t.run(a).0.run(b).1),
    decreases b,
{
    if b > 0 {
        lemma_runs_compose(t, a, (b - 1) as nat);
        assert((a + b - 1) as nat == a + (b - 1) as nat);
    }
}

/// DIV keeps time whatever TAC says: after `n` cycles the counter has advanced
/// by `n`, modulo its 16 bits, and TMA and TAC are untouched.
pub proof fn lemma_counter_advances(t: TimerState, n: nat)
    ensures
        t.run(n).0.counter == (t.counter as int + n) % 65536,
        t.run(n).0.tma == t.tma,
        t.run(n).0.tac == t.tac,
    decreases n,
{
    if n > 0 {
        lemma_counter_advances(t, (n - 1) as nat);
        let c = t.counter as int + n - 1;
        assert(((c % 65536) + 1) % 65536 == (c + 1) % 65536) by {
            vstd::arithmetic::div_mod::lemma_add_mod_noop(c, 1, 65536);
        }
    }
}

/// With TAC bit 2 clear, TIMA never moves and the interrupt never fires.
pub proof fn lemma_disabled_timer_is_silent(t: TimerState, n: nat)
    requires
        t.tac & 4 == 0,
    ensures
        t.run(n).0.tima == t.tima,
        !t.run(n).1,
    decreases n,
{
    if n > 0 {
        lemma_disabled_timer_is_silent(t, (n - 1) as nat);
        lemma_counter_advances(t, (n - 1) as nat);
    }
}

/// A falling edge on bit `rate_bit(tac)` between `x` and `x + 1` happens
/// exactly when `x + 1` is a multiple of the period.
proof fn lemma_falling_edge(x: u16, tac: u8)
    requires
        tac & 4 != 0,
    ensures
        ({
            let before = TimerState { counter: x, tima: 0, tma: 0, tac };
            let after = TimerState { counter: ((x as int + 1) % 65536) as u16, tima: 0, tma: 0, tac };
            (before.timer_input() && !after.timer_input()) <==> (x as int + 1) % rate_period(tac) == 0
        }),
{
    let y: u16 = ((x as int + 1) % 65536) as u16;
    assert(y == if x == 0xFFFF { 0u16 } else { (x + 1) as u16 });
    assert((((x >> 9u16) & 1 != 0 && !((y >> 9u16) & 1 != 0)) <==> (x as u32 + 1) % 1024 == 0) && (((x
        >> 3u16) & 1 != 0 && !((y >> 3u16) & 1 != 0)) <==> (x as u32 + 1) % 16 == 0) && (((x >> 5u16) & 1
        != 0 && !((y >> 5u16) & 1 != 0)) <==> (x as u32 + 1) % 64 == 0) && (((x >> 7u16) & 1 != 0 && !((y
        >> 7u16) & 1 != 0)) <==> (x as u32 + 1) % 256 == 0)) by (bit_vector)
        requires
            y == if x == 0xFFFF { 0u16 } else { (x + 1) as u16 },
    ;
}

/// Stepping past `m` adds one edge exactly when `m + 1` is a multiple of `p`.
proof fn lemma_edges_step(c: int, n: int, p: int)
    requires
        p > 0,
        c >= 0,
        n >= 0,
    ensures
        edges(c, n + 1, p) == edges(c, n, p) + if (c + n + 1) % p == 0 { 1int } else { 0int },
{
    let m = c + n;
    vstd::arithmetic::div_mod::lemma_fundamental_div_mod(m, p);
    vstd::arithmetic::div_mod::lemma_fundamental_div_mod(m + 1, p);
    assert((m + 1) / p == m / p + if (m + 1) % p == 0 { 1int } else { 0int }) by (nonlinear_arith)
        requires
            p > 0,
            m >= 0,
            m == p * (m / p) + m % p,
            m + 1 == p * ((m + 1) / p) + (m + 1) % p,
            0 <= m % p < p,
            0 <= (m + 1) % p < p,
    ;
}

/// The four TIMA rates TAC selects: with the timer enabled, TIMA counts one
/// for every 1024, 16, 64 or 256 cycles the counter crosses, for TAC rate bits
/// 00, 01, 10 and 11, as long as it does not overflow.
pub proof fn lemma_timer_rates(t: TimerState, n: nat)
    requires
        t.tac & 4 != 0,
    ensures
        (t.tac & 3 == 0 && t.tima + edges(t.counter as int, n as int, 1024) <= 255) ==> t.run(
            n,
        ).0.tima == t.tima + edges(t.counter as int, n as int, 1024),
        (t.tac & 3 == 1 && t.tima + edges(t.counter as int, n as int, 16) <= 255) ==> t.run(
            n,
        ).0.tima == t.tima + edges(t.counter as int, n as int, 16),
        (t.tac & 3 == 2 && t.tima + edges(t.counter as int, n as int, 64) <= 255) ==> t.run(
            n,
        ).0.tima == t.tima + edges(t.counter as int, n as int, 64),
        (t.tac & 3 == 3 && t.tima + edges(t.counter as int, n as int, 256) <= 255) ==> t.run(
            n,
        ).0.tima == t.tima + edges(t.counter as int, n as int, 256),
{
    if t.tima + edges(t.counter as int, n as int, rate_period(t.tac)) <= 255 {
        lemma_tima_counts_periods(t, n);
    }
}

/// While the timer is enabled and TIMA does not reach overflow, TIMA after
/// `n` cycles is TIMA plus the number of whole periods the counter crossed:
/// one increment per `rate_period(tac)` cycles, and no interrupt.
pub proof fn lemma_tima_counts_periods(t: TimerState, n: nat)
    requires
        t.tac & 4 != 0,
        t.tima + edges(t.counter as int, n as int, rate_period(t.tac)) <= 255,
    ensures
        t.run(n).0.tima == t.tima + edges(t.counter as int, n as int, rate_period(t.tac)),
        !t.run(n).1,
    decreases n,
{
    let p = rate_period(t.tac);
    if n > 0 {
        let k = (n - 1) as nat;
        lemma_edges_step(t.counter as int, k as int, p);
        assert(edges(t.counter as int, k as int, p) >= 0) by {
            vstd::arithmetic::div_mod::lemma_div_is_ordered(t.counter as int, t.counter + k, p);
        }
        lemma_tima_counts_periods(t, k);
        lemma_counter_advances(t, k);
        let mid = t.run(k).0;
        let x = mid.counter;
        lemma_falling_edge(x, t.tac);
        let before = TimerState { counter: x, tima: 0, tma: 0, tac: t.tac };
        let after = TimerState { counter: ((x as int + 1) % 65536) as u16, tima: 0, tma: 0, tac: t.tac };
        assert(before.timer_input() == mid.timer_input());
        assert((x as int + 1) % p == (t.counter as int + k + 1) % p) by {
            let c = t.counter as int + k;
            assert(x == c % 65536);
            assert(65536int == p * (65536int / p));
            vstd::arithmetic::div_mod::lemma_fundamental_div_mod(c, 65536);
            vstd::arithmetic::div_mod::lemma_mod_mod(c, p, 65536int / p);
            vstd::arithmetic::div_mod::lemma_add_mod_noop(c % 65536, 1, p);
            vstd::arithmetic::div_mod::lemma_add_mod_noop(c, 1, p);
        }
    }
}

} // verus!
