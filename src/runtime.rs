//! Playback: a fixed-step timer and, per playing instance, the current tag
//! and each layer's frame counter and visibility.

use vstd::prelude::*;
use vstd::arithmetic::div_mod::{
    lemma_add_mod_noop,
    lemma_mod_add_multiples_vanish,
    lemma_small_mod,
    lemma_sub_mod_noop,
};

use crate::index::{LayerAnimationIndex, LayerView};
use crate::tags::{AnimationLayerInfo, FrameRange};

verus! {

/// One step of a counter through the window `from..=to`:
/// `from + ((c - from + 1) mod (to - from + 1))`.
pub open spec fn step_counter(c: int, from: int, to: int) -> int {
    from + (c - from + 1) % (to - from + 1)
}

/// The counter after `k` steps through the window `from..=to`.
pub open spec fn steps(c: int, from: int, to: int, k: nat) -> int
    decreases k,
{
    if k == 0 {
        c
    } else {
        step_counter(steps(c, from, to, (k - 1) as nat), from, to)
    }
}

/// A step always lands inside the window.
pub proof fn lemma_step_in_window(c: int, from: int, to: int)
    requires
        from <= to,
    ensures
        from <= step_counter(c, from, to) <= to,
{
}

/// From inside the window, `k` steps move the counter `k` places on, cyclically.
proof fn lemma_steps_closed_form(c: int, from: int, to: int, k: nat)
    requires
        from <= c <= to,
    ensures
        steps(c, from, to, k) == from + (c - from + k) % (to - from + 1),
    decreases k,
{
    let len = to - from + 1;
    if k == 0 {
        lemma_small_mod((c - from) as nat, len as nat);
    } else {
        lemma_steps_closed_form(c, from, to, (k - 1) as nat);
        let prev = (c - from + k - 1) % len;
        assert(steps(c, from, to, k) == from + (prev + 1) % len);
        lemma_add_mod_noop(c - from + k - 1, 1, len);
        if len == 1 {
            assert((prev + 1) % len == 0);
            assert((c - from + k) % len == 0);
        } else {
            lemma_small_mod(1, len as nat);
            lemma_add_mod_noop(prev, 1, len);
            assert(prev % len == prev) by {
                lemma_small_mod(prev as nat, len as nat);
            }
        }
    }
}

/// The frame-range length is `to - from + 1`, and stepping that many times
/// from any counter inside the window brings the counter back to it.
pub proof fn lemma_full_cycle(c: int, from: int, to: int)
    requires
        from <= c <= to,
    ensures
        steps(c, from, to, (to - from + 1) as nat) == c,
{
    let len = to - from + 1;
    lemma_steps_closed_form(c, from, to, len as nat);
    lemma_mod_add_multiples_vanish(c - from, len);
    lemma_small_mod((c - from) as nat, len as nat);
}

/// Steps `c` once through the window of `r`.
pub fn advance_counter(c: usize, r: FrameRange) -> (n: usize)
    requires
        r.from <= r.to,
    ensures
        n == step_counter(c as int, r.from as int, r.to as int),
{
    let len: u128 = r.length();
    let a: u128 = (c as u128 + 1) % len;
    let b: u128 = r.from as u128 % len;
    let x: u128 = if a >= b {
        a - b
    } else {
        a + len - b
    };
    proof {
        let li = len as int;
        lemma_sub_mod_noop(c + 1, r.from as int, li);
        assert((c - r.from + 1) % li == (a - b) % li);
        if a >= b {
            lemma_small_mod((a - b) as nat, li as nat);
        } else {
            lemma_mod_add_multiples_vanish(a - b, li);
            lemma_small_mod((a + li - b) as nat, li as nat);
        }
    }
    (r.from as u128 + x) as usize
}


/// The default advance period: 100 ms, in nanoseconds.
pub const DEFAULT_PERIOD_NANOS: u64 = 100_000_000;

/// A repeating timer with a fixed period; time is counted in nanoseconds.
pub struct AnimationTimer {
    period: u64,
    elapsed: u64,
}

impl AnimationTimer {
    pub closed spec fn spec_period(&self) -> int {
        self.period as int
    }

    /// The time accumulated since the last period was consumed.
    pub closed spec fn spec_elapsed(&self) -> int {
        self.elapsed as int
    }

    pub open spec fn wf(&self) -> bool {
        0 <= self.spec_elapsed() < self.spec_period()
    }

    /// A timer with the given period and nothing accumulated.
    pub fn new(period: u64) -> (r: AnimationTimer)
        requires
            period > 0,
        ensures
            r.wf(),
            r.spec_period() == period,
            r.spec_elapsed() == 0,
    {
        AnimationTimer { period, elapsed: 0 }
    }

    pub fn period(&self) -> (r: u64)
        ensures
            r == self.spec_period(),
    {
        self.period
    }

    pub fn elapsed(&self) -> (r: u64)
        ensures
            r == self.spec_elapsed(),
    {
        self.elapsed
    }

    /// Accumulates `delta` and consumes every whole period in it; returns
    /// how many periods were consumed.
    pub fn tick(&mut self, delta: u64) -> (fired: u128)
        requires
            old(self).wf(),
        ensures
            final(self).wf(),
            final(self).spec_period() == old(self).spec_period(),
            fired == (old(self).spec_elapsed() + delta) / old(self).spec_period(),
            final(self).spec_elapsed() == (old(self).spec_elapsed() + delta) % old(
                self,
            ).spec_period(),
    {
        let total: u128 = self.elapsed as u128 + delta as u128;
        let p: u128 = self.period as u128;
        let fired = total / p;
        let rest = total % p;
        self.elapsed = rest as u64;
        fired
    }
}

impl Default for AnimationTimer {
    /// A timer of the default period, 100 ms.
    fn default() -> (r: AnimationTimer)
        ensures
            r.wf(),
            r.spec_period() == DEFAULT_PERIOD_NANOS,
            r.spec_elapsed() == 0,
    {
        AnimationTimer::new(DEFAULT_PERIOD_NANOS)
    }
}

/// Whether layer `l` takes part in the animation of tag `t`.
pub open spec fn layer_supports(l: LayerView, t: int) -> bool {
    0 <= t < l.frames.len() && l.frames[t].len() > 0
}

/// The playback state of one instance.
pub struct RuntimeView {
    pub current: int,
    pub counters: Seq<usize>,
    pub visible: Seq<bool>,
}

/// One advance event: every layer that takes part in the current tag is
/// shown and its counter stepped through the tag's window; every other
/// layer is hidden and keeps its counter, to resume from it once the layer
/// is shown again.
pub open spec fn advance_spec(
    layers: Seq<LayerView>,
    reg: Seq<Option<FrameRange>>,
    s: RuntimeView,
) -> RuntimeView {
    let r = reg[s.current]->0;
    RuntimeView {
        current: s.current,
        counters: Seq::new(
            s.counters.len(),
            |i: int|
                if layer_supports(layers[i], s.current) {
                    step_counter(s.counters[i] as int, r.from as int, r.to as int) as usize
                } else {
                    s.counters[i]
                },
        ),
        visible: Seq::new(s.counters.len(), |i: int| layer_supports(layers[i], s.current)),
    }
}

/// The state after `n` advance events.
pub open spec fn advance_n(
    layers: Seq<LayerView>,
    reg: Seq<Option<FrameRange>>,
    s: RuntimeView,
    n: nat,
) -> RuntimeView
    decreases n,
{
    if n == 0 {
        s
    } else {
        advance_spec(layers, reg, advance_n(layers, reg, s, (n - 1) as nat))
    }
}

/// While the tag stays `s.current`, a layer that does not take part in it is
/// hidden after every advance event and keeps its counter; a layer that takes
/// part in it is shown and its counter moves one step through the tag's
/// window per event.
pub proof fn lemma_visibility_follows_tag(
    layers: Seq<LayerView>,
    reg: Seq<Option<FrameRange>>,
    s: RuntimeView,
    i: int,
    n: nat,
)
    requires
        s.counters.len() == layers.len(),
        0 <= i < layers.len(),
        has_window(reg, s.current),
        reg[s.current]->0.from <= reg[s.current]->0.to,
        n > 0,
    ensures
        advance_n(layers, reg, s, n).current == s.current,
        advance_n(layers, reg, s, n).counters.len() == layers.len(),
        !layer_supports(layers[i], s.current) ==> {
            &&& !advance_n(layers, reg, s, n).visible[i]
            &&& advance_n(layers, reg, s, n).counters[i] == s.counters[i]
        },
        layer_supports(layers[i], s.current) ==> {
            &&& advance_n(layers, reg, s, n).visible[i]
            &&& advance_n(layers, reg, s, n).counters[i] as int == steps(
                s.counters[i] as int,
                reg[s.current]->0.from as int,
                reg[s.current]->0.to as int,
                n,
            )
        },
    decreases n,
{
    let r = reg[s.current]->0;
    if n > 1 {
        lemma_visibility_follows_tag(layers, reg, s, i, (n - 1) as nat);
    }
    let prev = advance_n(layers, reg, s, (n - 1) as nat);
    let c = s.counters[i] as int;
    if n == 1 {
        assert(prev == s);
        assert(steps(c, r.from as int, r.to as int, 0) == c);
    }
    assert(prev.current == s.current);
    assert(advance_n(layers, reg, s, n) == advance_spec(layers, reg, prev));
    if layer_supports(layers[i], s.current) {
        lemma_step_in_window(prev.counters[i] as int, r.from as int, r.to as int);
        assert(prev.counters[i] as int == steps(c, r.from as int, r.to as int, (n - 1) as nat));
        assert(steps(c, r.from as int, r.to as int, n) == step_counter(
            steps(c, r.from as int, r.to as int, (n - 1) as nat),
            r.from as int,
            r.to as int,
        ));
    }
}

/// The playback state of one instance: the current tag, the timer, and per
/// layer of the index a frame counter and a visibility flag.
pub struct AnimationRuntime {
    current: usize,
    timer: AnimationTimer,
    counters: Vec<usize>,
    visible: Vec<bool>,
}

impl View for AnimationRuntime {
    type V = RuntimeView;

    closed spec fn view(&self) -> RuntimeView {
        RuntimeView { current: self.current as int, counters: self.counters@, visible: self.visible@ }
    }
}

/// Tag `t` has a frame window in `reg`.
pub open spec fn has_window(reg: Seq<Option<FrameRange>>, t: int) -> bool {
    0 <= t < reg.len() && reg[t] is Some
}

impl AnimationRuntime {
    pub closed spec fn spec_timer(&self) -> AnimationTimer {
        self.timer
    }

    /// The state fits the index `layers` and the registry `reg`.
    pub open spec fn wf(&self, layers: Seq<LayerView>, reg: Seq<Option<FrameRange>>) -> bool {
        &&& self@.counters.len() == layers.len()
        &&& self@.visible.len() == layers.len()
        &&& has_window(reg, self@.current)
        &&& crate::tags::ranges_valid(reg)
        &&& self.spec_timer().wf()
    }

    /// A new instance playing tag `start`: each layer's counter starts at the
    /// tag's first frame, or at 0 where the layer does not take part in the
    /// tag; every layer starts hidden.
    pub fn new(index: &LayerAnimationIndex, reg: &AnimationLayerInfo, start: usize) -> (r: AnimationRuntime)
        requires
            reg.wf(),
            has_window(reg@, start as int),
        ensures
            r.wf(index@, reg@),
            r@.current == start,
            r.spec_timer().spec_period() == DEFAULT_PERIOD_NANOS,
            r.spec_timer().spec_elapsed() == 0,
            forall|i: int|
                0 <= i < index@.len() ==> #[trigger] r@.counters[i] == if layer_supports(
                    index@[i],
                    start as int,
                ) {
                    reg@[start as int]->0.from
                } else {
                    0
                },
            forall|i: int| 0 <= i < index@.len() ==> !#[trigger] r@.visible[i],
    {
        let range = reg.get(start).unwrap();
        let n = index.len();
        let mut counters: Vec<usize> = Vec::new();
        let mut visible: Vec<bool> = Vec::new();
        let mut i: usize = 0;
        while i < n
            invariant
                n == index@.len(),
                i <= n,
                range == reg@[start as int]->0,
                counters@.len() == i,
                visible@.len() == i,
                forall|k: int|
                    0 <= k < i ==> #[trigger] counters@[k] == if layer_supports(index@[k], start as int) {
                        range.from
                    } else {
                        0
                    },
                forall|k: int| 0 <= k < i ==> !#[trigger] visible@[k],
            decreases n - i,
        {
            if index.layer(i).supports(start) {
                counters.push(range.from);
            } else {
                counters.push(0);
            }
            visible.push(false);
            i = i + 1;
        }
        AnimationRuntime { current: start, timer: AnimationTimer::default(), counters, visible }
    }

    /// The tag being played.
    pub fn current_tag(&self) -> (r: usize)
        ensures
            r == self@.current,
    {
        self.current
    }

    /// The frame counter of layer `i`.
    pub fn counter(&self, i: usize) -> (r: usize)
        requires
            i < self@.counters.len(),
        ensures
            r == self@.counters[i as int],
    {
        self.counters[i]
    }

    /// Whether layer `i` is shown.
    pub fn is_visible(&self, i: usize) -> (r: bool)
        requires
            i < self@.visible.len(),
        ensures
            r == self@.visible[i as int],
    {
        self.visible[i]
    }

    /// The document position of the frame that layer `i` shows: the entry of
    /// its frame list for the current tag at the counter's offset from the
    /// tag's first frame; `None` where the layer is hidden or the list holds
    /// no such entry.
    pub fn shown_frame(&self, index: &LayerAnimationIndex, reg: &AnimationLayerInfo, i: usize) -> (r: Option<usize>)
        requires
            self.wf(index@, reg@),
            i < index@.len(),
        ensures
            ({
                let list = index@[i as int].frames[self@.current];
                let off = self@.counters[i as int] - reg@[self@.current]->0.from;
                r == if self@.visible[i as int] && layer_supports(index@[i as int], self@.current) && 0 <= off < list.len() {
                    Some(list[off])
                } else {
                    None::<usize>
                }
            }),
    {
        if !self.visible[i] || !index.layer(i).supports(self.current) {
            return None;
        }
        let from = reg.get(self.current).unwrap().from;
        let c = self.counters[i];
        let list = index.layer(i).frames(self.current);
        if c < from || c - from >= list.len() {
            None
        } else {
            Some(list[c - from])
        }
    }

    /// The timer's accumulated time.
    pub fn timer(&self) -> (r: &AnimationTimer)
        ensures
            r == self.spec_timer(),
    {
        &self.timer
    }

    /// Switches to tag `t`. Counters and visibility change only at the next
    /// advance event.
    pub fn set_tag(&mut self, reg: &AnimationLayerInfo, t: usize)
        requires
            has_window(reg@, t as int),
        ensures
            final(self)@ == (RuntimeView { current: t as int, ..old(self)@ }),
            final(self).spec_timer() == old(self).spec_timer(),
    {
        self.current = t;
    }

    /// One advance event.
    pub fn advance(&mut self, index: &LayerAnimationIndex, reg: &AnimationLayerInfo)
        requires
            old(self).wf(index@, reg@),
        ensures
            final(self).wf(index@, reg@),
            final(self)@ == advance_spec(index@, reg@, old(self)@),
            final(self).spec_timer() == old(self).spec_timer(),
    {
        let range = reg.get(self.current).unwrap();
        let ghost start = self@;
        let n = self.counters.len();
        let mut i: usize = 0;
        while i < n
            invariant
                n == index@.len(),
                n == start.counters.len(),
                i <= n,
                range == reg@[start.current]->0,
                range.from <= range.to,
                self@.current == start.current,
                self.spec_timer() == old(self).spec_timer(),
                self@.counters.len() == n,
                self@.visible.len() == n,
                forall|k: int|
                    0 <= k < i ==> #[trigger] self@.counters[k] == advance_spec(index@, reg@, start).counters[k],
                forall|k: int|
                    0 <= k < i ==> #[trigger] self@.visible[k] == advance_spec(index@, reg@, start).visible[k],
                forall|k: int| i <= k < n ==> #[trigger] self@.counters[k] == start.counters[k],
            decreases n - i,
        {
            if index.layer(i).supports(self.current) {
                let c = advance_counter(self.counters[i], range);
                self.counters.set(i, c);
                self.visible.set(i, true);
            } else {
                self.visible.set(i, false);
            }
            i = i + 1;
        }
        proof {
            let want = advance_spec(index@, reg@, start);
            assert(self@.counters =~= want.counters);
            assert(self@.visible =~= want.visible);
        }
    }
}

/// One tick of playback: `delta` nanoseconds pass on the instance's timer,
/// and one advance event runs for every whole period consumed; returns the
/// number of advance events.
pub fn animate_sprite_system(
    rt: &mut AnimationRuntime,
    index: &LayerAnimationIndex,
    reg: &AnimationLayerInfo,
    delta: u64,
) -> (fired: u128)
    requires
        old(rt).wf(index@, reg@),
    ensures
        final(rt).wf(index@, reg@),
        fired == (old(rt).spec_timer().spec_elapsed() + delta) / old(rt).spec_timer().spec_period(),
        final(rt).spec_timer().spec_period() == old(rt).spec_timer().spec_period(),
        final(rt).spec_timer().spec_elapsed() == (old(rt).spec_timer().spec_elapsed() + delta) % old(
            rt,
        ).spec_timer().spec_period(),
        final(rt)@ == advance_n(index@, reg@, old(rt)@, fired as nat),
{
    let fired = rt.timer.tick(delta);
    let ghost start = rt@;
    let mut k: u128 = 0;
    while k < fired
        invariant
            k <= fired,
            rt.wf(index@, reg@),
            rt@ == advance_n(index@, reg@, start, k as nat),
            rt.spec_timer().spec_period() == old(rt).spec_timer().spec_period(),
            rt.spec_timer().spec_elapsed() == (old(rt).spec_timer().spec_elapsed() + delta) % old(
                rt,
            ).spec_timer().spec_period(),
        decreases fired - k,
    {
        rt.advance(index, reg);
        k = k + 1;
    }
    fired
}

} // verus!
