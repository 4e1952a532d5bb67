//! Fixed-window admission control for outbound provider calls.

use vstd::prelude::*;
use crate::gate::elapsed_ms;

verus! {

/// Length of one admission window, in milliseconds.
pub const WINDOW_MS: u64 = 60_000;

/// The state of a limiter, as plain values.
pub struct RateWindow {
    /// Start of the current window, in milliseconds.
    pub window_start_ms: u64,
    /// Calls admitted in the current window; zero before the first call.
    pub count: usize,
    /// Calls a window admits without waiting.
    pub max_requests: usize,
}

/// `a + b`, or `u64::MAX` where the sum does not fit.
pub open spec fn sat_add(a: u64, b: u64) -> u64 {
    if a + b <= u64::MAX {
        (a + b) as u64
    } else {
        u64::MAX
    }
}

/// Whether a call at `now` opens a new window: the first call, or one made
/// a full window or more after the current window began.
pub open spec fn opens_window(w: RateWindow, now: u64) -> bool {
    w.count == 0 || elapsed_ms(w.window_start_ms, now) >= WINDOW_MS
}

/// How long a call at `now` must wait before it proceeds.
///
/// Zero while the window has room; once `max_requests` calls were admitted,
/// the rest of the window.
pub open spec fn acquire_delay(w: RateWindow, now: u64) -> u64 {
    if opens_window(w, now) {
        if w.max_requests == 0 {
            WINDOW_MS
        } else {
            0
        }
    } else if w.count >= w.max_requests {
        (WINDOW_MS - elapsed_ms(w.window_start_ms, now)) as u64
    } else {
        0
    }
}

/// The limiter state after admitting a call at `now`.
///
/// A call that waited starts a fresh window at the moment it proceeds.
pub open spec fn acquire_next(w: RateWindow, now: u64) -> RateWindow {
    if opens_window(w, now) {
        if w.max_requests == 0 {
            RateWindow { window_start_ms: sat_add(now, WINDOW_MS), count: 1, ..w }
        } else {
            RateWindow { window_start_ms: now, count: 1, ..w }
        }
    } else if w.count >= w.max_requests {
        RateWindow { window_start_ms: sat_add(now, acquire_delay(w, now)), count: 1, ..w }
    } else {
        RateWindow { count: (w.count + 1) as usize, ..w }
    }
}

/// Rolling fixed-window admission control.
pub struct RateLimiter {
    last_request: u64,
    request_count: usize,
    max_requests: usize,
}

impl View for RateLimiter {
    type V = RateWindow;

    closed spec fn view(&self) -> RateWindow {
        RateWindow {
            window_start_ms: self.last_request,
            count: self.request_count,
            max_requests: self.max_requests,
        }
    }
}

impl RateLimiter {
    /// Well-formed: a window never holds more than `max_requests` calls, but
    /// for the one call that waited when `max_requests` is zero.
    pub open spec fn wf(&self) -> bool {
        self@.count <= self@.max_requests || self@.count == 1
    }

    /// A limiter admitting `max_requests` calls per window; the first window
    /// opens at the first call.
    pub fn new(max_requests: usize) -> (r: RateLimiter)
        ensures
            r.wf(),
            r@ == (RateWindow { window_start_ms: 0, count: 0, max_requests }),
    {
        RateLimiter { last_request: 0, request_count: 0, max_requests }
    }

    /// Admits one call made at time `now_ms` and returns how many milliseconds
    /// the caller must wait before making it.
    pub fn acquire(&mut self, now_ms: u64) -> (delay_ms: u64)
        requires
            old(self).wf(),
        ensures
            final(self).wf(),
            delay_ms == acquire_delay(old(self)@, now_ms),
            final(self)@ == acquire_next(old(self)@, now_ms),
    {
        let elapsed = now_ms.saturating_sub(self.last_request);
        if self.request_count == 0 || elapsed >= WINDOW_MS {
            self.request_count = 0;
            self.last_request = now_ms;
            if self.max_requests == 0 {
                self.last_request = now_ms.saturating_add(WINDOW_MS);
                self.request_count = 1;
                return WINDOW_MS;
            }
            self.request_count = 1;
            return 0;
        }
        if self.request_count >= self.max_requests {
            let delay = WINDOW_MS - elapsed;
            self.last_request = now_ms.saturating_add(delay);
            self.request_count = 1;
            return delay;
        }
        self.request_count = self.request_count + 1;
        0
    }

    /// Calls admitted in the current window.
    pub fn request_count(&self) -> (r: usize)
        ensures
            r == self@.count,
    {
        self.request_count
    }
}

/// A full window makes the next call wait until the window, measured from
/// the call that opened it, has elapsed; the call then proceeds at once, in a
/// fresh window that admits the remaining calls without delay.
pub proof fn lemma_full_window_waits(w: RateWindow, now: u64, later: u64)
    requires
        w.count >= 1,
        w.count >= w.max_requests,
        w.window_start_ms <= now < w.window_start_ms + WINDOW_MS,
        w.window_start_ms + 2 * WINDOW_MS <= u64::MAX,
    ensures
        acquire_delay(w, now) == w.window_start_ms + WINDOW_MS - now,
        acquire_next(w, now).window_start_ms == w.window_start_ms + WINDOW_MS,
        acquire_next(w, now).count == 1,
        w.max_requests >= 2 && acquire_next(w, now).window_start_ms <= later
            < acquire_next(w, now).window_start_ms + WINDOW_MS ==> acquire_delay(
            acquire_next(w, now),
            later,
        ) == 0,
{
}

/// In a window opened by a first call, the first `max_requests` calls
/// proceed without delay.
pub proof fn lemma_window_allows_max(w: RateWindow, now: u64)
    requires
        w.count < w.max_requests,
        w.count > 0 ==> w.window_start_ms <= now < w.window_start_ms + WINDOW_MS,
    ensures
        acquire_delay(w, now) == 0,
        acquire_next(w, now).count == w.count + 1,
{
}

/// The limiter state after calls at each of the given times, in order.
pub open spec fn state_after(w: RateWindow, times: Seq<u64>) -> RateWindow
    decreases times.len(),
{
    if times.len() == 0 {
        w
    } else {
        acquire_next(state_after(w, times.drop_last()), times.last())
    }
}

/// Calls made within a minute of the call that opened the window all proceed
/// without delay while the window has room; the window counts them from that
/// first call.
pub proof fn lemma_window_from_first_call(w: RateWindow, times: Seq<u64>)
    requires
        w.count == 0,
        1 <= times.len() <= w.max_requests,
        forall|k: int| 0 <= k < times.len() ==> times[0] <= #[trigger] times[k] < times[0] + WINDOW_MS,
    ensures
        state_after(w, times) == (RateWindow {
            window_start_ms: times[0],
            count: times.len() as usize,
            max_requests: w.max_requests,
        }),
        forall|k: int| 0 <= k < times.len() ==> acquire_delay(state_after(w, times.take(k)), #[trigger] times[k]) == 0,
    decreases times.len(),
{
    let n = times.len() - 1;
    let prefix = times.drop_last();
    if n == 0 {
        assert(state_after(w, prefix) == w);
        assert(times.take(0) =~= prefix);
    } else {
        assert(prefix[0] == times[0]);
        assert forall|k: int| 0 <= k < prefix.len() implies prefix[0] <= #[trigger] prefix[k] < prefix[0] + WINDOW_MS by {
            assert(prefix[k] == times[k]);
        }
        lemma_window_from_first_call(w, prefix);
        assert(times[n] == times.last());
        assert forall|k: int| 0 <= k < times.len() implies acquire_delay(state_after(w, times.take(k)), #[trigger] times[k]) == 0 by {
            if k < n {
                assert(times.take(k) =~= prefix.take(k));
                assert(prefix[k] == times[k]);
            } else {
                assert(times.take(k) =~= prefix);
            }
        }
    }
}

} // verus!
