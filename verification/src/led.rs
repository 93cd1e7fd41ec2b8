use vstd::prelude::*;

verus! {

/// Number of pixels on the ring.
pub const PIXEL_COUNT: usize = 24;

/// Tick at which a previewed colour is sent on and the lamp returns to its own colour.
pub const PREVIEW_TICKS: i32 = 512;

/// An 8-bit-per-channel colour.
#[derive(Clone, Copy, Debug, PartialEq, Eq, Structural)]
pub struct Rgb8 {
    pub r: u8,
    pub g: u8,
    pub b: u8,
}

impl Rgb8 {
    /// The colour with the given channels.
    pub fn new(r: u8, g: u8, b: u8) -> (c: Rgb8)
        ensures
            c == (Rgb8 { r, g, b }),
    {
        Rgb8 { r, g, b }
    }
}

/// What the lamp is doing.
#[derive(Clone, Copy, Debug, PartialEq, Eq, Structural)]
pub enum LedState {
    /// Waiting for the network: a dot runs round the ring.
    Connecting,
    /// Waiting to be configured: the ring breathes in blue.
    Setup,
    /// Showing its own colour.
    Color(Rgb8),
    /// Showing a chosen colour (second) for a while before returning to its own (first).
    PreviewColor(Rgb8, Rgb8),
}

/// Unlit pixel.
pub open spec fn black() -> Rgb8 {
    Rgb8 { r: 0, g: 0, b: 0 }
}

/// The colour reported when the lamp has no colour of its own.
pub open spec fn white() -> Rgb8 {
    Rgb8 { r: 255, g: 255, b: 255 }
}

/// The head of the running dot.
pub open spec fn dot_bright() -> Rgb8 {
    Rgb8 { r: 25, g: 102, b: 255 }
}

/// The two neighbours of the running dot.
pub open spec fn dot_dim() -> Rgb8 {
    Rgb8 { r: 0, g: 77, b: 230 }
}

/// The colour of the lamp itself in a state: its own colour while showing or
/// previewing one, white otherwise.
pub open spec fn state_color(state: LedState) -> Rgb8 {
    match state {
        LedState::Color(c) => c,
        LedState::PreviewColor(c, _) => c,
        _ => white(),
    }
}

/// Position of the running dot at a tick.
pub open spec fn dot_position(tick: int) -> int {
    (tick / 4) % 24
}

/// Pixel `i` of the ring while connecting: the dot, its two neighbours
/// (wrapping round the ring), and black elsewhere.
pub open spec fn connecting_pixel(tick: int, i: int) -> Rgb8 {
    let p = dot_position(tick);
    if i == p {
        dot_bright()
    } else if i == (p + 23) % 24 || i == (p + 1) % 24 {
        dot_dim()
    } else {
        black()
    }
}

/// The whole ring while connecting.
pub open spec fn connecting_frame(tick: int) -> Seq<Rgb8> {
    Seq::new(24, |i: int| connecting_pixel(tick, i))
}

/// Every pixel of the ring in one colour.
pub open spec fn solid_frame(c: Rgb8) -> Seq<Rgb8> {
    Seq::new(24, |i: int| c)
}

/// What a tick does to the state and its tick count, and what it sends: a
/// preview that has run `PREVIEW_TICKS` ticks gives way to the lamp's own colour
/// (counted as its first tick) and sends the previewed colour; every other tick
/// only counts.
pub open spec fn step(state: LedState, tick: int) -> (LedState, int, Option<Rgb8>) {
    match state {
        LedState::PreviewColor(own, preview) => {
            if tick == 512 {
                (LedState::Color(own), 1, Some(preview))
            } else {
                (state, tick + 1, None)
            }
        },
        _ => (state, tick + 1, None),
    }
}

/// The state and tick count after `n` ticks.
pub open spec fn run(state: LedState, tick: int, n: nat) -> (LedState, int)
    decreases n,
{
    if n == 0 {
        (state, tick)
    } else {
        let next = step(state, tick);
        run(next.0, next.1, (n - 1) as nat)
    }
}

/// Connecting, set-up and colour states only count ticks: they never change by themselves.
pub proof fn lemma_steady_states(state: LedState, tick: int, n: nat)
    requires
        !(state is PreviewColor),
    ensures
        run(state, tick, n) == (state, tick + n),
    decreases n,
{
    if n > 0 {
        lemma_steady_states(state, tick + 1, (n - 1) as nat);
    }
}

/// A preview written at tick 0 stays on for ticks 0 to 512 and sends nothing.
pub proof fn lemma_preview_holds(own: Rgb8, preview: Rgb8, tick: int, n: nat)
    requires
        0 <= tick,
        tick + n <= 512,
    ensures
        run(LedState::PreviewColor(own, preview), tick, n) == (
            LedState::PreviewColor(own, preview),
            tick + n,
        ),
        forall|k: nat|
            k < n ==> (#[trigger] step(
                LedState::PreviewColor(own, preview),
                tick + k,
            )).2 == None::<Rgb8>,
    decreases n,
{
    if n > 0 {
        lemma_preview_holds(own, preview, tick + 1, (n - 1) as nat);
        assert forall|k: nat| k < n implies (#[trigger] step(
            LedState::PreviewColor(own, preview),
            tick + k,
        )).2 == None::<Rgb8> by {
            if k > 0 {
                let j = (k - 1) as nat;
                assert(step(LedState::PreviewColor(own, preview), (tick + 1) + j).2 == None::<Rgb8>);
                assert(tick + k == (tick + 1) + j);
            }
        }
    }
}

/// A preview written at tick 0 ends on the 513th tick: the lamp shows its own
/// colour again, at tick 1, and that tick sends the previewed colour.
pub proof fn lemma_preview_ends(own: Rgb8, preview: Rgb8)
    ensures
        run(LedState::PreviewColor(own, preview), 0, 513) == (LedState::Color(own), 1int),
        step(LedState::PreviewColor(own, preview), 512) == (
            LedState::Color(own),
            1int,
            Some(preview),
        ),
{
    lemma_preview_ends_from(own, preview, 0);
}

proof fn lemma_preview_ends_from(own: Rgb8, preview: Rgb8, tick: int)
    requires
        0 <= tick <= 512,
    ensures
        run(LedState::PreviewColor(own, preview), tick, (513 - tick) as nat) == (
            LedState::Color(own),
            1int,
        ),
    decreases 512 - tick,
{
    if tick < 512 {
        lemma_preview_ends_from(own, preview, tick + 1);
    } else {
        assert(run(LedState::Color(own), 1, 0) == (LedState::Color(own), 1int));
    }
}

/// The lamp's own colour: a preview keeps the colour it previews over, and a
/// lamp without a colour of its own (connecting or being set up) reports white.
pub proof fn lemma_own_color(state: LedState)
    ensures
        state matches LedState::Color(c) ==> state_color(state) == c,
        state matches LedState::PreviewColor(own, preview) ==> state_color(state) == state_color(
            LedState::Color(own),
        ),
        !(state is Color) && !(state is PreviewColor) ==> state_color(state) == (Rgb8 {
            r: 255,
            g: 255,
            b: 255,
        }),
{
}

/// The connecting ring starts with the dot on pixel 0 and its neighbours on
/// pixels 23 and 1, all other pixels black.
pub proof fn lemma_connecting_start()
    ensures
        connecting_frame(0)[0] == (Rgb8 { r: 25, g: 102, b: 255 }),
        connecting_frame(0)[1] == (Rgb8 { r: 0, g: 77, b: 230 }),
        connecting_frame(0)[23] == (Rgb8 { r: 0, g: 77, b: 230 }),
        forall|i: int| 2 <= i < 23 ==> #[trigger] connecting_frame(0)[i] == (Rgb8 { r: 0, g: 0, b: 0 }),
{
}

/// The connecting ring keeps its picture for four ticks, then turns by one pixel:
/// what pixel `i` shows at tick `t`, pixel `i + 1` (round the ring) shows at
/// tick `t + 4`. So the dot visits every pixel once every 96 ticks.
pub proof fn lemma_connecting_dot_moves(t: int)
    requires
        t >= 0,
    ensures
        connecting_frame(t).len() == 24,
        t % 4 != 3 ==> connecting_frame(t + 1) == connecting_frame(t),
        forall|i: int|
            0 <= i < 24 ==> #[trigger] connecting_frame(t + 4)[(i + 1) % 24] == connecting_frame(
                t,
            )[i],
{
    assert((t + 4) / 4 == t / 4 + 1);
    let p = dot_position(t);
    assert(dot_position(t + 4) == (p + 1) % 24);
    if t % 4 != 3 {
        assert((t + 1) / 4 == t / 4);
        assert(connecting_frame(t + 1) == connecting_frame(t));
    }
    assert forall|i: int| 0 <= i < 24 implies #[trigger] connecting_frame(t + 4)[(i + 1) % 24]
        == connecting_frame(t)[i] by {
        let j = (i + 1) % 24;
        assert(0 <= j < 24);
        assert(connecting_frame(t + 4)[j] == connecting_pixel(t + 4, j));
    }
}

/// What one tick shows on the ring.
#[derive(Debug, PartialEq, Eq)]
pub enum Frame {
    /// These colours, one per pixel.
    Pixels(Vec<Rgb8>),
    /// The breathing animation at this phase (`0..255`): every pixel shows blue
    /// scaled by `(1 - cos(2π·phase/255)) / 4`.
    Breathing(u8),
}

/// What a tick asks of the outside world.
#[derive(Debug, PartialEq, Eq)]
pub struct TickOutput {
    /// The frame to show on the ring.
    pub frame: Frame,
    /// A colour to send to the partner lamp, if any.
    pub publish: Option<Rgb8>,
}

/// The frame a state shows at a tick.
pub open spec fn frame_matches(frame: Frame, state: LedState, tick: int) -> bool {
    match state {
        LedState::Connecting => frame matches Frame::Pixels(p) && p@ == connecting_frame(tick),
        LedState::Setup => frame == Frame::Breathing((tick % 255) as u8),
        LedState::Color(c) => frame matches Frame::Pixels(p) && p@ == solid_frame(c),
        LedState::PreviewColor(_, preview) => frame matches Frame::Pixels(p) && p@ == solid_frame(
            preview,
        ),
    }
}

/// The animation state of the lamp: what it shows and for how many ticks it has shown it.
pub struct LedController {
    state: LedState,
    tick: i32,
}

impl LedController {
    #[verifier::type_invariant]
    spec fn wf(self) -> bool {
        self.tick >= 0
    }

    /// The current state.
    pub closed spec fn led_state(self) -> LedState {
        self.state
    }

    /// Ticks since the state was last written.
    pub closed spec fn ticks(self) -> int {
        self.tick as int
    }

    /// A controller that starts out connecting.
    pub fn new() -> (lc: LedController)
        ensures
            lc.led_state() == LedState::Connecting,
            lc.ticks() == 0,
    {
        LedController { state: LedState::Connecting, tick: 0 }
    }

    /// The current state.
    pub fn get(&self) -> (s: LedState)
        ensures
            s == self.led_state(),
    {
        self.state
    }

    /// Ticks since the state was last written.
    pub fn tick_count(&self) -> (t: i32)
        ensures
            t == self.ticks(),
            t >= 0,
    {
        proof {
            use_type_invariant(self);
        }
        self.tick
    }

    /// Switches to `state` and restarts its animation.
    pub fn write(&mut self, state: LedState)
        ensures
            final(self).led_state() == state,
            final(self).ticks() == 0,
    {
        *self = LedController { state, tick: 0 };
    }

    /// The lamp's own colour: the colour shown or previewed over, white otherwise.
    pub fn get_current_color(&self) -> (c: Rgb8)
        ensures
            c == state_color(self.led_state()),
            !(self.led_state() is Color) && !(self.led_state() is PreviewColor) ==> c == (Rgb8 {
                r: 255,
                g: 255,
                b: 255,
            }),
    {
        proof {
            lemma_own_color(self.led_state());
        }
        match self.state {
            LedState::Color(color) => color,
            LedState::PreviewColor(color, _) => color,
            _ => Rgb8::new(255, 255, 255),
        }
    }

    /// Advances the animation by one tick: returns the frame to show, and, when
    /// a preview has run for `PREVIEW_TICKS` ticks, switches back to the lamp's
    /// own colour and hands out the previewed colour to be sent.
    pub fn tick(&mut self) -> (out: TickOutput)
        requires
            old(self).ticks() < i32::MAX,
        ensures
            frame_matches(out.frame, old(self).led_state(), old(self).ticks()),
            (final(self).led_state(), final(self).ticks(), out.publish) == step(
                old(self).led_state(),
                old(self).ticks(),
            ),
    {
        proof {
            use_type_invariant(&*self);
        }
        let mut publish: Option<Rgb8> = None;
        let frame = match self.state {
            LedState::Connecting => Frame::Pixels(connecting_pixels(self.tick)),
            LedState::Setup => Frame::Breathing((self.tick % 255) as u8),
            LedState::Color(color) => Frame::Pixels(solid_pixels(color)),
            LedState::PreviewColor(own, preview) => {
                let pixels = solid_pixels(preview);
                if self.tick == PREVIEW_TICKS {
                    self.write(LedState::Color(own));
                    publish = Some(preview);
                }
                Frame::Pixels(pixels)
            },
        };
        self.tick = self.tick + 1;
        TickOutput { frame, publish }
    }
}

/// The ring while connecting, at a non-negative tick.
pub fn connecting_pixels(tick: i32) -> (pixels: Vec<Rgb8>)
    requires
        tick >= 0,
    ensures
        pixels@ == connecting_frame(tick as int),
{
    let p: usize = ((tick / 4) % 24) as usize;
    let before: usize = if p == 0 { 23 } else { p - 1 };
    let after: usize = if p == 23 { 0 } else { p + 1 };
    let mut pixels: Vec<Rgb8> = Vec::new();
    let mut i: usize = 0;
    while i < PIXEL_COUNT
        invariant
            i <= 24,
            p == dot_position(tick as int),
            before == (p + 23) % 24,
            after == (p + 1) % 24,
            pixels@ == connecting_frame(tick as int).take(i as int),
        decreases 24 - i,
    {
        let c = if i == p {
            Rgb8::new(25, 102, 255)
        } else if i == before || i == after {
            Rgb8::new(0, 77, 230)
        } else {
            Rgb8::new(0, 0, 0)
        };
        pixels.push(c);
        assert(connecting_frame(tick as int).take(i + 1) == connecting_frame(tick as int).take(
            i as int,
        ).push(c));
        i = i + 1;
    }
    assert(connecting_frame(tick as int).take(24) == connecting_frame(tick as int));
    pixels
}

/// Every pixel of the ring in colour `c`.
pub fn solid_pixels(c: Rgb8) -> (pixels: Vec<Rgb8>)
    ensures
        pixels@ == solid_frame(c),
{
    let mut pixels: Vec<Rgb8> = Vec::new();
    let mut i: usize = 0;
    while i < PIXEL_COUNT
        invariant
            i <= 24,
            pixels@ == solid_frame(c).take(i as int),
        decreases 24 - i,
    {
        pixels.push(c);
        assert(solid_frame(c).take(i + 1) == solid_frame(c).take(i as int).push(c));
        i = i + 1;
    }
    assert(solid_frame(c).take(24) == solid_frame(c));
    pixels
}

} // verus!
