use vstd::prelude::*;

verus! {

/// Time between two image changes, in milliseconds.
pub const INTERVAL_MS: u64 = 5000;

/// The deadline for the next draw when the last one happened at `now`.
pub open spec fn deadline_after(now: u64) -> u64 {
    if now as int + INTERVAL_MS as int > u64::MAX {
        u64::MAX
    } else {
        (now + INTERVAL_MS) as u64
    }
}

/// How long to sleep at time `now` before drawing at `deadline`: nothing
/// when the deadline has already passed, so no backlog accumulates.
pub fn wait_before_draw(now_ms: u64, deadline_ms: u64) -> (r: Option<u64>)
    ensures
        r == if now_ms < deadline_ms {
            Some((deadline_ms - now_ms) as u64)
        } else {
            None::<u64>
        },
{
    if now_ms < deadline_ms {
        Some(deadline_ms - now_ms)
    } else {
        None
    }
}

/// The rotation through a fixed list of images at a fixed cadence.
///
/// Times are milliseconds on a monotonic clock that the caller reads.
pub struct Slideshow {
    count: usize,
    current: usize,
    deadline_ms: u64,
}

impl Slideshow {
    /// Number of images in the rotation.
    pub closed spec fn count(&self) -> nat {
        self.count as nat
    }

    /// Position of the image to show next.
    pub closed spec fn current(&self) -> nat {
        self.current as nat
    }

    /// Time at which that image may be drawn.
    pub closed spec fn deadline(&self) -> u64 {
        self.deadline_ms
    }

    /// The rotation's invariant: the position is inside the list.
    pub closed spec fn wf(&self) -> bool {
        self.current < self.count
    }

    /// Starts a rotation over `count` images; the first is drawn at once.
    pub fn new(count: usize) -> (s: Slideshow)
        requires
            count > 0,
        ensures
            s.wf(),
            s.count() == count,
            s.current() == 0,
            s.deadline() == 0,
    {
        Slideshow { count, current: 0, deadline_ms: 0 }
    }

    /// Position of the image to decode and show next.
    pub fn image(&self) -> (i: usize)
        requires
            self.wf(),
        ensures
            i == self.current(),
            i < self.count(),
    {
        self.current
    }

    /// How long to sleep at `now_ms` before drawing the current image.
    pub fn wait_ms(&self, now_ms: u64) -> (r: Option<u64>)
        ensures
            r == if now_ms < self.deadline() {
                Some((self.deadline() - now_ms) as u64)
            } else {
                None::<u64>
            },
    {
        wait_before_draw(now_ms, self.deadline_ms)
    }

    /// Records that the current image was drawn at `now_ms`: the next one in
    /// cyclic order is due one interval later.
    pub fn drawn(&mut self, now_ms: u64)
        requires
            old(self).wf(),
        ensures
            final(self).wf(),
            final(self).count() == old(self).count(),
            final(self).current() == (old(self).current() + 1) % old(self).count(),
            final(self).deadline() == deadline_after(now_ms),
    {
        proof {
            let (c, n) = (self.current as nat + 1, self.count as nat);
            if c == n {
                vstd::arithmetic::div_mod::lemma_mod_self_0(n as int);
            } else {
                vstd::arithmetic::div_mod::lemma_small_mod(c, n);
            }
        }
        self.current = if self.current + 1 == self.count {
            0
        } else {
            self.current + 1
        };
        self.deadline_ms = now_ms.saturating_add(INTERVAL_MS);
    }
}

} // verus!
