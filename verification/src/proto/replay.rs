//! A sliding window over authenticated counters that refuses replayed datagrams.
use vstd::prelude::*;

verus! {

/// How many counters below the highest one are tracked.
pub const WINDOW_SIZE: u64 = 64;

/// What a replay window remembers: the highest accepted counter, and the accepted counters that
/// are still inside the window.
#[verifier::ext_equal]
pub struct WindowModel {
    pub highest: Option<u64>,
    pub seen: Set<u64>,
}

impl WindowModel {
    /// A window that has accepted nothing.
    pub open spec fn fresh() -> WindowModel {
        WindowModel { highest: None, seen: Set::empty() }
    }

    /// Is `counter` so far below the highest accepted one that nothing is known of it?
    pub open spec fn too_old(self, counter: u64) -> bool {
        match self.highest {
            Some(h) => h - counter > WINDOW_SIZE,
            None => false,
        }
    }

    /// Is `counter` to be accepted?
    pub open spec fn accepts(self, counter: u64) -> bool {
        !self.too_old(counter) && !self.seen.contains(counter)
    }

    /// The highest accepted counter once `counter` is accepted too.
    pub open spec fn raised(self, counter: u64) -> u64 {
        match self.highest {
            Some(h) => if h < counter {
                counter
            } else {
                h
            },
            None => counter,
        }
    }

    /// The window after `counter` has been offered to it.
    pub open spec fn offered(self, counter: u64) -> WindowModel {
        if self.accepts(counter) {
            let top = self.raised(counter);
            WindowModel {
                highest: Some(top),
                seen: self.seen.insert(counter).filter(|c: u64| top - c <= WINDOW_SIZE),
            }
        } else {
            self
        }
    }

    /// The window after a sequence of counters has been offered to it.
    pub open spec fn after(self, counters: Seq<u64>) -> WindowModel
        decreases counters.len(),
    {
        if counters.len() == 0 {
            self
        } else {
            self.after(counters.drop_last()).offered(counters.last())
        }
    }
}

/// Is bit `i` of `bits` set?
pub open spec fn bit_set(bits: u64, i: int) -> bool {
    0 <= i < 64 && (bits >> (i as u64)) & 1 == 1
}

/// A sliding-window replay filter: the highest accepted counter, and a bitmap of the 64 counters
/// below it.
#[derive(Clone, Copy, Debug)]
pub struct ReplayWindow {
    highest: Option<u64>,
    bitmap: u64,
}

impl View for ReplayWindow {
    type V = WindowModel;

    /// Bit `i` of the bitmap stands for the counter `highest - 1 - i`.
    closed spec fn view(&self) -> WindowModel {
        WindowModel {
            highest: self.highest,
            seen: match self.highest {
                None => Set::empty(),
                Some(h) => Set::new(|c: u64| c == h || (c < h && bit_set(self.bitmap, h - 1 - c))),
            },
        }
    }
}

proof fn lemma_bits_after_shift(bits: u64, shift: u64)
    requires
        1 <= shift < 64,
    ensures
        forall|i: int|
            #![trigger bit_set((bits << shift) | (1u64 << ((shift - 1) as u64)), i)]
            bit_set((bits << shift) | (1u64 << ((shift - 1) as u64)), i) <==> (i == shift - 1
                || bit_set(bits, i - shift)) && i < 64,
{
    let next = (bits << shift) | (1u64 << ((shift - 1) as u64));
    assert forall|i: int| #[trigger] bit_set(next, i) <==> (i == shift - 1 || bit_set(
        bits,
        i - shift,
    )) && i < 64 by {
        if 0 <= i < 64 {
            let j = i as u64;
            let low = (shift - 1) as u64;
            assert(((((bits << shift) | (1u64 << low)) >> j) & 1 == 1) <==> (j == low || (j >= shift
                && (bits >> ((j - shift) as u64)) & 1 == 1))) by (bit_vector)
                requires
                    1 <= shift < 64,
                    low == shift - 1,
                    j < 64,
            ;
        }
    }
}

proof fn lemma_top_bit()
    ensures
        forall|i: int| #[trigger] bit_set(1u64 << 63u64, i) <==> i == 63,
        forall|i: int| !(#[trigger] bit_set(0u64, i)),
{
    assert forall|i: int| #[trigger] bit_set(1u64 << 63u64, i) <==> i == 63 by {
        if 0 <= i < 64 {
            let j = i as u64;
            assert((((1u64 << 63u64) >> j) & 1 == 1) <==> j == 63) by (bit_vector)
                requires
                    j < 64,
            ;
        }
    }
    assert forall|i: int| !(#[trigger] bit_set(0u64, i)) by {
        if 0 <= i < 64 {
            let j = i as u64;
            assert((0u64 >> j) & 1 == 0) by (bit_vector);
        }
    }
}

proof fn lemma_bit_mask(bits: u64, at: u64)
    requires
        at < 64,
    ensures
        (bits & (1u64 << at) != 0) <==> bit_set(bits, at as int),
        forall|i: int|
            #[trigger] bit_set(bits | (1u64 << at), i) <==> (i == at || bit_set(bits, i)),
{
    assert((bits & (1u64 << at) != 0) <==> (bits >> at) & 1 == 1) by (bit_vector)
        requires
            at < 64,
    ;
    assert forall|i: int| #[trigger] bit_set(bits | (1u64 << at), i) <==> (i == at || bit_set(
        bits,
        i,
    )) by {
        if 0 <= i < 64 {
            let j = i as u64;
            assert((((bits | (1u64 << at)) >> j) & 1 == 1) <==> (j == at || (bits >> j) & 1 == 1))
                by (bit_vector)
                requires
                    at < 64,
                    j < 64,
            ;
        }
    }
}

impl ReplayWindow {
    /// A window that has accepted nothing.
    pub fn new() -> (w: ReplayWindow)
        ensures
            w@ == WindowModel::fresh(),
    {
        ReplayWindow { highest: None, bitmap: 0 }
    }

    /// Checks whether `counter` is acceptable, that is neither a replay nor older than the window,
    /// and if so records it.
    pub fn check_and_record(&mut self, counter: u64) -> (accepted: bool)
        ensures
            accepted == old(self)@.accepts(counter),
            final(self)@ == old(self)@.offered(counter),
    {
        let highest: u64 = match self.highest {
            Some(h) => h,
            None => {
                self.highest = Some(counter);
                self.bitmap = 0;
                proof {
                    lemma_top_bit();
                    assert(self@ =~= old(self)@.offered(counter));
                }
                return true;
            },
        };
        if counter > highest {
            // A new high-water mark: the bitmap moves up by the gap, and the old mark joins it.
            let shift: u64 = counter - highest;
            if shift < WINDOW_SIZE {
                proof {
                    lemma_bits_after_shift(self.bitmap, shift);
                }
                self.bitmap = (self.bitmap << shift) | (1u64 << (shift - 1));
            } else if shift == WINDOW_SIZE {
                proof {
                    lemma_top_bit();
                }
                self.bitmap = 1u64 << 63u64;
            } else {
                proof {
                    lemma_top_bit();
                }
                self.bitmap = 0;
            }
            self.highest = Some(counter);
            assert(self@ =~= old(self)@.offered(counter));
            return true;
        }
        if counter == highest {
            return false;
        }
        let offset: u64 = highest - counter;
        if offset > WINDOW_SIZE {
            return false;
        }
        let bit: u64 = 1u64 << (offset - 1);
        proof {
            lemma_bit_mask(self.bitmap, (offset - 1) as u64);
        }
        if self.bitmap & bit != 0 {
            return false;
        }
        self.bitmap = self.bitmap | bit;
        assert(self@ =~= old(self)@.offered(counter));
        true
    }
}

proof fn lemma_accepted_is_remembered(w: WindowModel, counters: Seq<u64>, i: int)
    requires
        0 <= i < counters.len(),
        w.after(counters.take(i)).accepts(counters[i]),
    ensures
        !w.after(counters).accepts(counters[i]),
    decreases counters.len(),
{
    let before = counters.drop_last();
    let c = counters[i];
    if i == counters.len() - 1 {
        assert(before =~= counters.take(i));
        let then = w.after(before);
        assert(then.offered(c).seen.contains(c));
    } else {
        assert(before.take(i) =~= counters.take(i));
        lemma_accepted_is_remembered(w, before, i);
        let then = w.after(before);
        let last = counters.last();
        if then.accepts(last) {
            let next = then.offered(last);
            if then.too_old(c) {
                assert(next.too_old(c));
            } else {
                assert(then.seen.contains(c));
                assert(next.too_old(c) || next.seen.contains(c));
            }
        }
    }
}

/// No counter is accepted twice: once the counter at `i` of a sequence has been accepted, an equal
/// one later in the sequence is refused.
pub proof fn law_no_counter_is_accepted_twice(w: WindowModel, counters: Seq<u64>, i: int, j: int)
    requires
        0 <= i < j < counters.len(),
        counters[i] == counters[j],
        w.after(counters.take(i)).accepts(counters[i]),
    ensures
        !w.after(counters.take(j)).accepts(counters[j]),
{
    assert(counters.take(j).take(i) =~= counters.take(i));
    lemma_accepted_is_remembered(w, counters.take(j), i);
}

/// A counter above every accepted one is always accepted, so a sender that counts upwards is
/// never locked out.
pub proof fn law_higher_counters_are_accepted(w: WindowModel, counter: u64)
    requires
        forall|c: u64| #[trigger] w.seen.contains(c) ==> c < counter,
        w.highest matches Some(h) ==> h < counter,
    ensures
        w.accepts(counter),
        w.offered(counter).highest == Some(counter),
{
}

/// A first arrival inside the window is accepted even when it arrives late.
pub proof fn law_late_first_arrival_is_accepted(w: WindowModel, counter: u64, h: u64)
    requires
        w.highest == Some(h),
        h - counter <= WINDOW_SIZE,
        !w.seen.contains(counter),
    ensures
        w.accepts(counter),
{
}

/// A counter is accepted if and only if it was not accepted before and is at most sixty-four below
/// the highest one.
pub proof fn law_accepted_counters(w: WindowModel, counter: u64)
    ensures
        w.highest is None ==> (w.accepts(counter) <==> !w.seen.contains(counter)),
        w.highest matches Some(h) ==> (w.accepts(counter) <==> h <= counter + 64 && !w.seen.contains(
            counter,
        )),
        WindowModel::fresh().accepts(counter),
{
}

/// An accepted counter is remembered, together with those before it that are still at most
/// sixty-four below the highest one; a refused one changes nothing.
pub proof fn law_window_slides(w: WindowModel, counter: u64, c: u64)
    ensures
        !w.accepts(counter) ==> w.offered(counter) == w,
        w.accepts(counter) ==> {
            let next = w.offered(counter);
            &&& next.highest matches Some(top) && {
                &&& top >= counter
                &&& w.highest matches Some(h) ==> top >= h
                &&& top == counter || w.highest == Some(top)
                &&& next.seen.contains(c) <==> (w.seen.contains(c) || c == counter) && top <= c + 64
            }
        },
{
}

/// Counters are offered one after the other.
pub proof fn law_counters_follow_each_other(w: WindowModel, a: Seq<u64>, b: Seq<u64>)
    ensures
        w.after(a + b) == w.after(a).after(b),
        a.len() == 1 ==> w.after(a) == w.offered(a[0]),
        a.len() == 0 ==> w.after(a) == w,
    decreases b.len(),
{
    reveal_with_fuel(WindowModel::after, 2);
    if b.len() == 0 {
        assert(a + b =~= a);
    } else {
        assert((a + b).drop_last() =~= a + b.drop_last());
        law_counters_follow_each_other(w, a, b.drop_last());
    }
}

} // verus!
