//! Sliding-window anti-replay on 64-bit packet counters.
use vstd::prelude::*;

verus! {

/// Width of the window: a counter this far below the highest one seen is too old.
pub const WINDOW: u64 = 1024;

/// What the window remembers: the highest counter accepted so far and which
/// counters it has accepted among those still in reach.
pub struct Window {
    pub top: nat,
    pub seen: Set<nat>,
}

impl Window {
    /// Nothing accepted yet.
    pub open spec fn start() -> Window {
        Window { top: 0, seen: Set::empty() }
    }

    /// `n` is not too old.
    pub open spec fn in_reach(self, n: nat) -> bool {
        n + WINDOW > self.top
    }

    /// `n` would be accepted: it is in reach and was not accepted before.
    pub open spec fn accepts(self, n: nat) -> bool {
        self.in_reach(n) && !self.seen.contains(n)
    }

    /// The window after accepting `n`.
    pub open spec fn record(self, n: nat) -> Window {
        let top = if n > self.top {
            n
        } else {
            self.top
        };
        Window {
            top,
            seen: Set::new(|c: nat| c + WINDOW > top && (c == n || self.seen.contains(c))),
        }
    }

    /// The window after `n` was offered.
    pub open spec fn step(self, n: nat) -> Window {
        if self.accepts(n) {
            self.record(n)
        } else {
            self
        }
    }

    /// The window after the counters of `s` were offered in order.
    pub open spec fn run(self, s: Seq<nat>) -> Window
        decreases s.len(),
    {
        if s.len() == 0 {
            self
        } else {
            self.run(s.drop_last()).step(s.last())
        }
    }

    /// `n` can never be accepted again.
    pub open spec fn spent(self, n: nat) -> bool {
        self.seen.contains(n) || !self.in_reach(n)
    }

    /// A spent counter stays spent whatever is offered next.
    pub proof fn lemma_spent_step(self, n: nat, m: nat)
        requires
            self.spent(n),
        ensures
            self.step(m).spent(n),
            !self.step(m).accepts(n),
    {
    }

    /// A spent counter stays spent over any further run.
    pub proof fn lemma_spent_run(self, n: nat, s: Seq<nat>)
        requires
            self.spent(n),
        ensures
            self.run(s).spent(n),
        decreases s.len(),
    {
        if s.len() > 0 {
            self.lemma_spent_run(n, s.drop_last());
            self.run(s.drop_last()).lemma_spent_step(n, s.last());
        }
    }

    /// Running over `s` passes through the window reached after its first `i` counters.
    pub proof fn lemma_run_split(self, s: Seq<nat>, i: int)
        requires
            0 <= i <= s.len(),
        ensures
            self.run(s) == self.run(s.take(i)).run(s.skip(i)),
        decreases s.len() - i,
    {
        if i == s.len() {
            assert(s.take(i) =~= s);
            assert(s.skip(i) =~= Seq::<nat>::empty());
        } else {
            let t = s.skip(i);
            assert(t.drop_last() =~= s.drop_last().skip(i));
            assert(s.drop_last().take(i) =~= s.take(i));
            self.lemma_run_split(s.drop_last(), i);
        }
    }
}

/// Replay immunity: of two offers of the same counter in one sequence, at most
/// one is accepted.
pub proof fn lemma_accepted_at_most_once(s: Seq<nat>, i: int, j: int)
    requires
        0 <= i < j < s.len(),
        s[i] == s[j],
    ensures
        !(Window::start().run(s.take(i)).accepts(s[i]) && Window::start().run(s.take(j)).accepts(
            s[j],
        )),
{
    let w0 = Window::start();
    let wi = w0.run(s.take(i));
    if wi.accepts(s[i]) {
        let after = wi.step(s[i]);
        assert(after.spent(s[i]));
        let prefix = s.take(i + 1);
        assert(prefix.drop_last() =~= s.take(i));
        assert(prefix.last() == s[i]);
        assert(w0.run(prefix) == after);
        let upto = s.take(j);
        assert(upto.take(i + 1) =~= prefix);
        w0.lemma_run_split(upto, i + 1);
        after.lemma_spent_run(s[i], upto.skip(i + 1));
    }
}

/// Reordering inside the window: a counter that is in reach and has not been
/// accepted is accepted, wherever it lies below the highest one.
pub proof fn lemma_reordering_accepted(w: Window, n: nat)
    requires
        n + WINDOW > w.top,
        !w.seen.contains(n),
    ensures
        w.accepts(n),
        w.step(n).seen.contains(n),
{
}

/// A counter at or below `top - WINDOW` is rejected and changes nothing.
pub proof fn lemma_too_old_rejected(w: Window, n: nat)
    requires
        n + WINDOW <= w.top,
    ensures
        !w.accepts(n),
        w.step(n) == w,
{
}

/// Bit `b` of `w`.
pub open spec fn word_bit(w: u64, b: u64) -> bool {
    (w >> b) & 1 == 1
}

proof fn lemma_set_bit(w: u64, b: u64, c: u64)
    by (bit_vector)
    requires
        b < 64,
        c < 64,
    ensures
        (((w | (1u64 << b)) >> c) & 1 == 1) == (c == b || ((w >> c) & 1 == 1)),
{
}

proof fn lemma_clear_bit(w: u64, b: u64, c: u64)
    by (bit_vector)
    requires
        b < 64,
        c < 64,
    ensures
        (((w & !(1u64 << b)) >> c) & 1 == 1) == (c != b && ((w >> c) & 1 == 1)),
{
}

proof fn lemma_zero_bit(c: u64)
    by (bit_vector)
    requires
        c < 64,
    ensures
        !((0u64 >> c) & 1 == 1),
{
}

/// Bit `p` of a bitmap of sixteen words.
pub open spec fn bit_at(bitmap: Seq<u64>, p: int) -> bool {
    word_bit(bitmap[p / 64], (p % 64) as u64)
}

/// The bit of the slot that counter `c` falls into.
pub open spec fn slot_bit(bitmap: Seq<u64>, c: int) -> bool {
    bit_at(bitmap, c % (WINDOW as int))
}

/// Anti-replay state of one receiving session.
pub struct AntiReplay {
    top: u64,
    bitmap: [u64; 16],
}

impl View for AntiReplay {
    type V = Window;

    closed spec fn view(&self) -> Window {
        Window {
            top: self.top as nat,
            seen: Set::new(
                |c: nat|
                    c <= self.top && c + WINDOW > self.top && bit_at(
                        self.bitmap@,
                        (c % (WINDOW as nat)) as int,
                    ),
            ),
        }
    }
}

impl AntiReplay {
    /// A window that has accepted nothing.
    pub fn new() -> (r: AntiReplay)
        ensures
            r@ == Window::start(),
    {
        let r = AntiReplay { top: 0, bitmap: [0u64; 16] };
        proof {
            assert forall|c: nat| !r@.seen.contains(c) by {
                let p = (c % (WINDOW as nat)) as int;
                assert(r.bitmap@[p / 64] == 0);
                lemma_zero_bit((p % 64) as u64);
            }
            assert(r@.seen =~= Set::<nat>::empty());
        }
        r
    }

    fn test(&self, p: u64) -> (r: bool)
        requires
            p < WINDOW,
        ensures
            r == bit_at(self.bitmap@, p as int),
    {
        let w: u64 = self.bitmap[(p / 64) as usize];
        (w >> (p % 64)) & 1 == 1
    }

    fn set(&mut self, p: u64)
        requires
            p < WINDOW,
        ensures
            final(self).top == old(self).top,
            forall|q: int|
                0 <= q < WINDOW ==> bit_at(final(self).bitmap@, q) == (q == p || bit_at(
                    old(self).bitmap@,
                    q,
                )),
    {
        let i: usize = (p / 64) as usize;
        let b: u64 = p % 64;
        let w: u64 = self.bitmap[i];
        self.bitmap[i] = w | (1u64 << b);
        proof {
            assert forall|q: int| 0 <= q < WINDOW implies bit_at(self.bitmap@, q) == (q == p
                || bit_at(old(self).bitmap@, q)) by {
                if q / 64 == i as int {
                    lemma_set_bit(w, b, (q % 64) as u64);
                }
            }
        }
    }

    fn clear(&mut self, p: u64)
        requires
            p < WINDOW,
        ensures
            final(self).top == old(self).top,
            forall|q: int|
                0 <= q < WINDOW ==> bit_at(final(self).bitmap@, q) == (q != p && bit_at(
                    old(self).bitmap@,
                    q,
                )),
    {
        let i: usize = (p / 64) as usize;
        let b: u64 = p % 64;
        let w: u64 = self.bitmap[i];
        self.bitmap[i] = w & !(1u64 << b);
        proof {
            assert forall|q: int| 0 <= q < WINDOW implies bit_at(self.bitmap@, q) == (q != p
                && bit_at(old(self).bitmap@, q)) by {
                if q / 64 == i as int {
                    lemma_clear_bit(w, b, (q % 64) as u64);
                }
            }
        }
    }

    fn clear_all(&mut self)
        ensures
            final(self).top == old(self).top,
            forall|q: int| 0 <= q < WINDOW ==> !bit_at(final(self).bitmap@, q),
    {
        self.bitmap = [0u64; 16];
        proof {
            assert forall|q: int| 0 <= q < WINDOW implies !bit_at(self.bitmap@, q) by {
                assert(self.bitmap@[q / 64] == 0);
                lemma_zero_bit((q % 64) as u64);
            }
        }
    }

    /// Forget the slots that the counters above `top` up to and including `n`
    /// will reuse.
    fn advance(&mut self, n: u64)
        requires
            n > old(self).top,
            n - old(self).top < WINDOW,
        ensures
            final(self).top == old(self).top,
            forall|d: int|
                old(self).top < d <= n ==> !#[trigger] slot_bit(final(self).bitmap@, d),
            forall|e: int|
                0 <= e <= old(self).top && e + WINDOW > n ==> #[trigger] slot_bit(
                    final(self).bitmap@,
                    e,
                ) == slot_bit(old(self).bitmap@, e),
    {
        let top: u64 = self.top;
        let mut c: u64 = top;
        while c < n
            invariant
                top <= c <= n,
                n - top < WINDOW,
                self.top == top,
                top == old(self).top,
                forall|d: int| top < d <= c ==> !#[trigger] slot_bit(self.bitmap@, d),
                forall|e: int|
                    0 <= e <= top && e + WINDOW > c ==> #[trigger] slot_bit(self.bitmap@, e)
                        == slot_bit(old(self).bitmap@, e),
            decreases n - c,
        {
            c = c + 1;
            let ghost before = self.bitmap@;
            self.clear(c % WINDOW);
            proof {
                assert forall|d: int| top < d <= c implies !#[trigger] slot_bit(
                    self.bitmap@,
                    d,
                ) by {
                    let q = d % (WINDOW as int);
                    assert(bit_at(self.bitmap@, q) == (q != (c % WINDOW) && bit_at(before, q)));
                    assert(slot_bit(before, d) == bit_at(before, q));
                }
                assert forall|e: int| 0 <= e <= top && e + WINDOW > c implies #[trigger] slot_bit(
                    self.bitmap@,
                    e,
                ) == slot_bit(old(self).bitmap@, e) by {
                    let q = e % (WINDOW as int);
                    assert(bit_at(self.bitmap@, q) == (q != (c % WINDOW) && bit_at(before, q)));
                    assert(0 < c - e < WINDOW);
                    assert(q != c % WINDOW);
                    assert(slot_bit(before, e) == slot_bit(old(self).bitmap@, e));
                }
            }
        }
    }

    /// Offer counter `n`. It is accepted, and remembered, when it is not more
    /// than `WINDOW - 1` below the highest counter accepted so far and was not
    /// accepted before; otherwise nothing changes.
    pub fn check_and_update(&mut self, n: u64) -> (ok: bool)
        ensures
            ok == old(self)@.accepts(n as nat),
            final(self)@ == old(self)@.step(n as nat),
            !ok ==> *final(self) == *old(self),
    {
        let top: u64 = self.top;
        if n <= top {
            if top - n >= WINDOW {
                return false;
            }
            let p: u64 = n % WINDOW;
            if self.test(p) {
                return false;
            }
            self.set(p);
            proof {
                let w = old(self)@.record(n as nat);
                assert forall|c: nat| self@.seen.contains(c) == w.seen.contains(c) by {
                    let q = (c % (WINDOW as nat)) as int;
                    if c <= top && c + WINDOW > top && c != n {
                        let lo = if c < n { c } else { n as nat };
                        let hi = if c < n { n as nat } else { c };
                        assert(0 < hi - lo < WINDOW);
                        assert(q != p);
                    }
                }
                assert(self@.seen =~= w.seen);
            }
            true
        } else {
            if n - top >= WINDOW {
                self.clear_all();
            } else {
                self.advance(n);
            }
            self.top = n;
            let p: u64 = n % WINDOW;
            let ghost before = self.bitmap@;
            self.set(p);
            proof {
                let w = old(self)@.record(n as nat);
                assert(!old(self)@.seen.contains(n as nat));
                assert forall|c: nat| self@.seen.contains(c) == w.seen.contains(c) by {
                    let q = (c % (WINDOW as nat)) as int;
                    assert(bit_at(self.bitmap@, q) == (q == p || bit_at(before, q)));
                    if c < n && c + WINDOW > n {
                        assert(0 < n - c < WINDOW);
                        assert(q != p);
                        if n - top < WINDOW {
                            if c > top {
                                assert(!slot_bit(before, c as int));
                            } else {
                                assert(slot_bit(before, c as int) == slot_bit(
                                    old(self).bitmap@,
                                    c as int,
                                ));
                            }
                        }
                    }
                }
                assert(self@.seen =~= w.seen);
            }
            true
        }
    }

    /// The highest counter accepted so far.
    pub fn highest(&self) -> (r: u64)
        ensures
            r == self@.top,
    {
        self.top
    }
}

} // verus!
