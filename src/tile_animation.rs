//! Flipbook animation of a tile: a fixed list of atlas rectangles shown one
//! after another, each for its own duration.
use vstd::prelude::*;
use crate::tile::Rect;
use crate::tilemap::Tilemap;

verus! {

/// How many frames after frame `j` frame `c` comes, going round the cycle of
/// `n` frames.
pub open spec fn frames_between(j: int, c: int, n: int) -> int {
    if c >= j {
        c - j
    } else {
        c + n - j
    }
}

/// The time spent in the `s` frames from frame `c` on, going round a cycle
/// of `n` frames with durations `durs`.
pub open spec fn time_of_steps(durs: Seq<u64>, n: int, c: int, s: nat) -> int
    decreases s,
{
    if s == 0 {
        0
    } else {
        time_of_steps(durs, n, c, (s - 1) as nat) + durs[(c + s - 1) % n] as int
    }
}

/// Whether the animation moves on from frame `c` with `t` of time on it: the
/// frame's duration has passed, and the animation repeats or `c` is not the
/// last frame.
pub open spec fn moves_on(durs: Seq<u64>, n: int, repeating: bool, c: int, t: int) -> bool {
    t >= durs[c] && (repeating || c < n - 1)
}

/// What an animation holds: the frames' rectangles, their durations in
/// nanoseconds, the frame shown, the time spent on it, and whether it
/// starts over after the last frame.
pub struct AnimationView {
    pub frames: Seq<Rect>,
    pub durations: Seq<u64>,
    pub current_frame: nat,
    pub timer: nat,
    pub repeating: bool,
}

impl AnimationView {
    /// Whether `s` steps from the current frame are what advancing with `t`
    /// of time on it makes: the animation moves on at each of the first `s`
    /// steps and not at the next.
    pub open spec fn advances_by_steps(&self, t: int, s: nat) -> bool {
        let n = self.frames.len() as int;
        let c = self.current_frame as int;
        &&& forall|i: nat| i < s ==> #[trigger] moves_on(
            self.durations,
            n,
            self.repeating,
            (c + i) % n,
            t - time_of_steps(self.durations, n, c, i),
        )
        &&& !moves_on(self.durations, n, self.repeating, (c + s) % n, t - time_of_steps(self.durations, n, c, s))
    }
}

/// Whether `after` is `v` advanced by `delta` nanoseconds in `s` steps: the
/// `s` steps are those that the time calls for, and an animation that
/// plays once and ends on its last frame holds the time there to that
/// frame's duration.
pub open spec fn advanced(v: AnimationView, after: AnimationView, delta: int, s: nat) -> bool {
    let n = v.frames.len() as int;
    let t = v.timer + delta - time_of_steps(v.durations, n, v.current_frame as int, s);
    let c = (v.current_frame as int + s as int) % n;
    &&& v.advances_by_steps(v.timer + delta, s)
    &&& after.current_frame == c
    &&& after.timer == if !v.repeating && c == n - 1 && t > v.durations[c] {
        v.durations[c] as int
    } else {
        t
    }
}

/// An animation that plays once and shows its last frame stays there,
/// whatever time passes, and the time on that frame is held to its duration.
pub proof fn lemma_once_stays_on_last(v: AnimationView, after: AnimationView, delta: int, s: nat)
    requires
        !v.repeating,
        v.frames.len() > 0,
        v.current_frame == v.frames.len() - 1,
        v.durations.len() >= v.frames.len(),
        delta >= 0,
        advanced(v, after, delta, s),
    ensures
        after.current_frame == v.current_frame,
        after.timer == if v.timer + delta > v.durations[v.current_frame as int] {
            v.durations[v.current_frame as int] as int
        } else {
            v.timer + delta
        },
{
    let n = v.frames.len() as int;
    let c = v.current_frame as int;
    vstd::arithmetic::div_mod::lemma_small_mod(c as nat, n as nat);
    if s > 0 {
        assert(moves_on(v.durations, n, v.repeating, (c + 0) % n, v.timer + delta - time_of_steps(v.durations, n, c, 0)));
    }
    assert(s == 0);
}

/// A tile animation, holding its own copy of the atlas rectangles so that
/// later edits of the tilemap do not reach it.
#[derive(Debug)]
pub struct TileAnimation {
    frames: Vec<Rect>,
    tile_durations: Vec<u64>,
    current_frame: usize,
    timer: u64,
    repeating: bool,
}

impl View for TileAnimation {
    type V = AnimationView;

    closed spec fn view(&self) -> AnimationView {
        AnimationView {
            frames: self.frames@,
            durations: self.tile_durations@,
            current_frame: self.current_frame as nat,
            timer: self.timer as nat,
            repeating: self.repeating,
        }
    }
}

/// Whether some of the first `n` durations is not zero.
pub open spec fn some_time_passes(durs: Seq<u64>, n: int) -> bool {
    exists|j: int| 0 <= j < n && #[trigger] durs[j] > 0
}

impl TileAnimation {
    /// At least one frame, a duration for each, the current frame among
    /// them; a repeating animation spends time on some frame.
    pub open spec fn wf(&self) -> bool {
        let n = self@.frames.len() as int;
        &&& n > 0
        &&& self@.durations.len() >= n
        &&& self@.current_frame < n
        &&& self@.repeating ==> some_time_passes(self@.durations, n)
    }

    /// The durations `tile_durations`, lengthened to `n` with copies of the
    /// first one.
    pub open spec fn padded(tile_durations: Seq<u64>, n: int) -> Seq<u64> {
        if tile_durations.len() >= n {
            tile_durations
        } else {
            tile_durations + Seq::new((n - tile_durations.len()) as nat, |i: int| tile_durations[0])
        }
    }

    /// A repeating animation of the atlas rectangles of `tile_ids`, frame
    /// `i` shown for `tile_durations[i]` nanoseconds; missing durations are
    /// the first one. Nothing when an id has no rectangle.
    pub fn new(tilemap: &Tilemap, tile_ids: &[u32], tile_durations: Vec<u64>) -> (r: Option<TileAnimation>)
        requires
            tile_ids@.len() > 0,
            tile_durations@.len() > 0,
            some_time_passes(TileAnimation::padded(tile_durations@, tile_ids@.len() as int), tile_ids@.len() as int),
        ensures
            r is Some == (forall|i: int| 0 <= i < tile_ids@.len() ==> #[trigger] tile_ids@[i] < tilemap@.rects.len()),
            r is Some ==> {
                let a = r.unwrap();
                &&& a.wf()
                &&& a@.frames == tile_ids@.map_values(|id: u32| tilemap@.rects[id as int])
                &&& a@.durations == TileAnimation::padded(tile_durations@, tile_ids@.len() as int)
                &&& a@.current_frame == 0
                &&& a@.timer == 0
                &&& a@.repeating
            },
    {
        let mut durations = tile_durations;
        let first: u64 = durations[0];
        let ghost orig = durations@;
        while durations.len() < tile_ids.len()
            invariant
                orig.len() > 0,
                first == orig[0],
                orig.len() <= durations@.len(),
                durations@.len() <= tile_ids@.len() || durations@ == orig,
                durations@ == orig + Seq::new((durations@.len() - orig.len()) as nat, |i: int| orig[0]),
            decreases tile_ids@.len() - durations@.len(),
        {
            durations.push(first);
            proof {
                assert(durations@ =~= orig + Seq::new((durations@.len() - orig.len()) as nat, |i: int| orig[0]));
            }
        }
        proof {
            assert(durations@ =~= TileAnimation::padded(orig, tile_ids@.len() as int));
        }
        match tilemap.get_frames_from_ids(tile_ids) {
            Some(frames) => Some(
                TileAnimation { frames, tile_durations: durations, current_frame: 0, timer: 0, repeating: true },
            ),
            None => None,
        }
    }

    /// An animation of the atlas rectangles of `tile_ids` that plays once
    /// and stays on its last frame. Nothing when an id has no rectangle.
    pub fn once(tilemap: &Tilemap, tile_ids: &[u32], tile_durations: Vec<u64>) -> (r: Option<TileAnimation>)
        requires
            tile_ids@.len() > 0,
            tile_durations@.len() >= tile_ids@.len(),
        ensures
            r is Some == (forall|i: int| 0 <= i < tile_ids@.len() ==> #[trigger] tile_ids@[i] < tilemap@.rects.len()),
            r is Some ==> {
                let a = r.unwrap();
                &&& a.wf()
                &&& a@.frames == tile_ids@.map_values(|id: u32| tilemap@.rects[id as int])
                &&& a@.durations == tile_durations@
                &&& a@.current_frame == 0
                &&& a@.timer == 0
                &&& !a@.repeating
            },
    {
        match tilemap.get_frames_from_ids(tile_ids) {
            Some(frames) => Some(
                TileAnimation { frames, tile_durations, current_frame: 0, timer: 0, repeating: false },
            ),
            None => None,
        }
    }

    /// Adds `duration` nanoseconds to the time on the current frame, then
    /// moves on frame by frame while the current frame's duration has passed,
    /// taking that duration off the time each step; after the last frame a
    /// repeating animation starts over. An animation that plays once stops on
    /// its last frame, with the time there held to that frame's duration.
    pub fn advance_by(&mut self, duration: u64)
        requires
            old(self).wf(),
            old(self)@.timer + duration <= u64::MAX,
        ensures
            final(self).wf(),
            final(self)@.frames == old(self)@.frames,
            final(self)@.durations == old(self)@.durations,
            final(self)@.repeating == old(self)@.repeating,
            exists|s: nat| advanced(old(self)@, final(self)@, duration as int, s),
    {
        let ghost v = self@;
        let n: usize = self.frames.len();
        let ghost c0 = self.current_frame as int;
        let ghost t0 = self.timer + duration;
        self.timer = self.timer + duration;
        let ghost mut steps: nat = 0;
        let ghost mut zrun: int = 0;
        proof {
            assert((c0 + 0) % (n as int) == c0) by {
                vstd::arithmetic::div_mod::lemma_small_mod(c0 as nat, n as nat);
            }
        }
        while self.timer >= self.tile_durations[self.current_frame] && (self.repeating || self.current_frame < n - 1)
            invariant
                n == v.frames.len(),
                self.wf(),
                self@.frames == v.frames,
                self@.durations == v.durations,
                self@.repeating == v.repeating,
                0 <= c0 < n,
                self.current_frame == (c0 + steps) % (n as int),
                self.timer == t0 - time_of_steps(v.durations, n as int, c0, steps),
                !v.repeating ==> c0 + steps < n,
                0 <= zrun < n,
                v.repeating ==> forall|j: int|
                    0 <= j < n && 0 < frames_between(j, self.current_frame as int, n as int) <= zrun ==> #[trigger] v.durations[j]
                        == 0,
                forall|i: nat| i < steps ==> #[trigger] moves_on(
                    v.durations,
                    n as int,
                    v.repeating,
                    (c0 + i) % (n as int),
                    t0 - time_of_steps(v.durations, n as int, c0, i),
                ),
            decreases self.timer, if self.repeating {
                n - zrun
            } else {
                n - self.current_frame
            },
        {
            let d: u64 = self.tile_durations[self.current_frame];
            let ghost cur = self.current_frame as int;
            proof {
                assert(moves_on(v.durations, n as int, v.repeating, (c0 + steps) % (n as int), t0 - time_of_steps(v.durations, n as int, c0, steps)));
                if v.repeating && d == 0 {
                    if zrun + 1 >= n {
                        assert forall|j: int| 0 <= j < n implies #[trigger] v.durations[j] == 0 by {
                            if j != cur {
                                assert(0 < frames_between(j, cur, n as int) <= zrun);
                            }
                        }
                        assert(false);
                    }
                }
            }
            self.current_frame = if self.current_frame + 1 == n {
                0
            } else {
                self.current_frame + 1
            };
            self.timer = self.timer - d;
            proof {
                let old_steps = steps;
                steps = steps + 1;
                assert(time_of_steps(v.durations, n as int, c0, steps) == time_of_steps(v.durations, n as int, c0, old_steps)
                    + v.durations[(c0 + steps - 1) % (n as int)]);
                let x = c0 + old_steps;
                let q = x / (n as int);
                vstd::arithmetic::div_mod::lemma_fundamental_div_mod(x, n as int);
                assert(x == (n as int) * q + cur);
                if cur + 1 < n {
                    assert(x + 1 == q * (n as int) + (cur + 1)) by (nonlinear_arith)
                        requires
                            x == (n as int) * q + cur,
                    ;
                    vstd::arithmetic::div_mod::lemma_fundamental_div_mod_converse(x + 1, n as int, q, cur + 1);
                } else {
                    assert(x + 1 == (q + 1) * (n as int) + 0) by (nonlinear_arith)
                        requires
                            x == (n as int) * q + cur,
                            cur + 1 == n,
                    ;
                    vstd::arithmetic::div_mod::lemma_fundamental_div_mod_converse(x + 1, n as int, q + 1, 0);
                }
                assert(self.current_frame == (c0 + steps) % (n as int));
                if !v.repeating {
                    assert(c0 + old_steps < n);
                    vstd::arithmetic::div_mod::lemma_small_mod((c0 + old_steps) as nat, n as nat);
                }
                if v.repeating && d == 0 {
                    zrun = zrun + 1;
                } else {
                    zrun = 0;
                }
                assert forall|i: nat| i < steps implies #[trigger] moves_on(
                    v.durations,
                    n as int,
                    v.repeating,
                    (c0 + i) % (n as int),
                    t0 - time_of_steps(v.durations, n as int, c0, i),
                ) by {
                    if i < old_steps {
                    }
                }
            }
        }
        let ghost t_end = self.timer as int;
        let last = self.current_frame;
        if !self.repeating && last == n - 1 && self.timer > self.tile_durations[last] {
            self.timer = self.tile_durations[last];
        }
        proof {
            assert(v.advances_by_steps(t0, steps));
            assert(advanced(v, self@, duration as int, steps));
        }
    }

    /// Goes back to the first frame with no time spent on it.
    pub fn restart(&mut self)
        requires
            old(self).wf(),
        ensures
            final(self).wf(),
            final(self)@ == (AnimationView { current_frame: 0, timer: 0, ..old(self)@ }),
    {
        self.current_frame = 0;
        self.timer = 0;
    }

    /// The atlas rectangle of the frame shown.
    pub fn draw(&self) -> (r: Rect)
        requires
            self.wf(),
        ensures
            r == self@.frames[self@.current_frame as int],
    {
        self.frames[self.current_frame]
    }

    /// The number of the frame shown.
    pub fn current_frame(&self) -> (r: usize)
        ensures
            r == self@.current_frame,
    {
        self.current_frame
    }

    /// The time spent on the frame shown, in nanoseconds.
    pub fn timer(&self) -> (r: u64)
        ensures
            r == self@.timer,
    {
        self.timer
    }
}

} // verus!
