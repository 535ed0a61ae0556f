use vstd::prelude::*;

verus! {

/// A source of raw key state, implemented by the front end.
pub trait InputProvider {
    /// Called once at the start of a tick, before any key is read.
    fn peek(&mut self);

    /// Called once at the end of a tick, after every key was read.
    fn consume(&mut self);

    /// Whether the key went down since the last `consume`.
    fn key_just_pressed(&self, input: Input) -> bool;

    /// Whether the key is down now.
    fn key_down(&self, input: Input) -> bool;
}

/// A logical game input.
#[derive(Debug, Copy, Clone, Eq, PartialEq, Structural, Hash)]
pub enum Input {
    Up,
    Down,
    Left,
    Right,
    CW,
    CCW,
    DebugLevel,
}

/// Number of distinct inputs.
pub const INPUT_COUNT: usize = 7;

/// Every input, in the order in which a tick polls them.
pub const INPUTS: [Input; INPUT_COUNT] = [
    Input::Up,
    Input::Down,
    Input::Left,
    Input::Right,
    Input::CCW,
    Input::CW,
    Input::DebugLevel,
];

/// The inputs that a replay records: every input but the debug key.
pub const RECORDABLE_INPUTS: [Input; 6] = [
    Input::Up,
    Input::Down,
    Input::Left,
    Input::Right,
    Input::CCW,
    Input::CW,
];

/// The input in slot `k` of `INPUTS`.
pub open spec fn input_at(k: int) -> Input {
    if k == 0 {
        Input::Up
    } else if k == 1 {
        Input::Down
    } else if k == 2 {
        Input::Left
    } else if k == 3 {
        Input::Right
    } else if k == 4 {
        Input::CCW
    } else if k == 5 {
        Input::CW
    } else {
        Input::DebugLevel
    }
}

/// The slot in which an input's counters are kept.
pub open spec fn slot(input: Input) -> int {
    match input {
        Input::Up => 0,
        Input::Down => 1,
        Input::Left => 2,
        Input::Right => 3,
        Input::CCW => 4,
        Input::CW => 5,
        Input::DebugLevel => 6,
    }
}

pub open spec fn is_direction(input: Input) -> bool {
    input == Input::Up || input == Input::Down || input == Input::Left || input == Input::Right
}

/// The slot of an input in an `InputSnapshot` and in the counters.
pub fn slot_of(input: Input) -> (k: usize)
    ensures
        k == slot(input),
        k < INPUT_COUNT,
{
    match input {
        Input::Up => 0,
        Input::Down => 1,
        Input::Left => 2,
        Input::Right => 3,
        Input::CCW => 4,
        Input::CW => 5,
        Input::DebugLevel => 6,
    }
}

fn input_of(k: usize) -> (input: Input)
    requires
        k < INPUT_COUNT,
    ensures
        input == input_at(k as int),
        slot(input) == k,
{
    if k == 0 {
        Input::Up
    } else if k == 1 {
        Input::Down
    } else if k == 2 {
        Input::Left
    } else if k == 3 {
        Input::Right
    } else if k == 4 {
        Input::CCW
    } else if k == 5 {
        Input::CW
    } else {
        Input::DebugLevel
    }
}

/// What a provider reported for every input during one tick, by slot.
#[derive(Copy, Clone, Debug)]
pub struct InputSnapshot {
    pub just_pressed: [bool; INPUT_COUNT],
    pub down: [bool; INPUT_COUNT],
}

impl InputSnapshot {
    /// Slot `k` of each array holds what the provider answered for the input
    /// in slot `k`.
    pub open spec fn answers_of<P: InputProvider>(self, provider: &P) -> bool {
        &&& forall|k: int|
            0 <= k < INPUT_COUNT ==> call_ensures(
                P::key_just_pressed,
                (provider, input_at(k)),
                #[trigger] self.just_pressed@[k],
            )
        &&& forall|k: int|
            0 <= k < INPUT_COUNT ==> call_ensures(P::key_down, (provider, input_at(k)), #[trigger] self.down@[k])
    }

    /// Asks the provider which inputs were just pressed, then which are
    /// down, each in the order of `INPUTS`.
    pub fn read<P: InputProvider>(provider: &P) -> (s: InputSnapshot)
        ensures
            s.answers_of(provider),
    {
        let mut just_pressed = [false;INPUT_COUNT];
        let mut down = [false;INPUT_COUNT];
        let mut k: usize = 0;
        while k < INPUT_COUNT
            invariant
                k <= INPUT_COUNT,
                forall|j: int|
                    0 <= j < k ==> call_ensures(
                        P::key_just_pressed,
                        (provider, input_at(j)),
                        #[trigger] just_pressed@[j],
                    ),
            decreases INPUT_COUNT - k,
        {
            let input = input_of(k);
            just_pressed[k] = provider.key_just_pressed(input);
            k += 1;
        }
        let mut k: usize = 0;
        while k < INPUT_COUNT
            invariant
                k <= INPUT_COUNT,
                forall|j: int|
                    0 <= j < INPUT_COUNT ==> call_ensures(
                        P::key_just_pressed,
                        (provider, input_at(j)),
                        #[trigger] just_pressed@[j],
                    ),
                forall|j: int|
                    0 <= j < k ==> call_ensures(P::key_down, (provider, input_at(j)), #[trigger] down@[j]),
            decreases INPUT_COUNT - k,
        {
            let input = input_of(k);
            down[k] = provider.key_down(input);
            k += 1;
        }
        InputSnapshot { just_pressed, down }
    }
}

/// Per-input counters: ticks held, ticks released and the tick of the last
/// press.
pub struct Inputs {
    inputs: [u16; INPUT_COUNT],
    inputs_up: [u16; INPUT_COUNT],
    inputs_tickstamps: [u64; INPUT_COUNT],
}

impl Inputs {
    /// Ticks for which the input has been held, 0 when released.
    pub closed spec fn held(self, input: Input) -> u16 {
        self.inputs[slot(input)]
    }

    /// Ticks for which the input has been released, 0 when held.
    pub closed spec fn released(self, input: Input) -> u16 {
        self.inputs_up[slot(input)]
    }

    /// The tick of the input's last press, 0 if never pressed.
    pub closed spec fn stamp(self, input: Input) -> u64 {
        self.inputs_tickstamps[slot(input)]
    }

    pub open spec fn spec_key_pressed(self, input: Input) -> bool {
        self.held(input) > 0
    }

    pub open spec fn spec_key_just_pressed(self, input: Input) -> bool {
        self.held(input) == 1
    }

    pub open spec fn spec_key_just_released(self, input: Input) -> bool {
        self.released(input) == 1
    }

    pub open spec fn spec_key_press_or_das(self, input: Input, das: u16) -> bool {
        self.held(input) == 1 || self.held(input) > das
    }

    /// No counter is at its limit, so the next tick cannot overflow one.
    pub open spec fn counters_ok(self) -> bool {
        forall|i: Input| self.held(i) < u16::MAX && self.released(i) < u16::MAX
    }

    /// The press tick of `input` after a tick at `tick` with snapshot `s`.
    pub open spec fn next_stamp(self, tick: u64, s: InputSnapshot, input: Input) -> u64 {
        if s.just_pressed[slot(input)] {
            tick
        } else {
            self.stamp(input)
        }
    }

    /// Whether `input` counts as held in a tick at `tick` with snapshot `s`:
    /// the provider reports it down and, for the four directions, no other
    /// direction was pressed more recently.
    pub open spec fn counts_down(self, tick: u64, s: InputSnapshot, input: Input) -> bool {
        &&& s.down[slot(input)]
        &&& is_direction(input) ==> forall|other: Input|
            is_direction(other) ==> #[trigger] self.next_stamp(tick, s, other) <= self.next_stamp(
                tick,
                s,
                input,
            )
    }

    pub open spec fn ticked(self, next: Inputs, tick: u64, s: InputSnapshot) -> bool {
        forall|i: Input|
            {
                &&& #[trigger] next.stamp(i) == self.next_stamp(tick, s, i)
                &&& next.held(i) == if self.counts_down(tick, s, i) {
                    self.held(i) + 1
                } else {
                    0
                }
                &&& next.released(i) == if self.counts_down(tick, s, i) {
                    0
                } else {
                    self.released(i) + 1
                }
            }
    }

    pub fn new() -> (r: Inputs)
        ensures
            forall|i: Input| r.held(i) == 0 && r.released(i) == 0 && r.stamp(i) == 0,
    {
        Inputs {
            inputs: [0;INPUT_COUNT],
            inputs_up: [0;INPUT_COUNT],
            inputs_tickstamps: [0;INPUT_COUNT],
        }
    }

    /// Whether the next tick is safe from counter overflow.
    pub fn counters_below_limit(&self) -> (b: bool)
        ensures
            b == self.counters_ok(),
    {
        let mut k: usize = 0;
        while k < INPUT_COUNT
            invariant
                k <= INPUT_COUNT,
                forall|j: int|
                    0 <= j < k ==> self.inputs[j] < u16::MAX && self.inputs_up[j] < u16::MAX,
            decreases INPUT_COUNT - k,
        {
            if self.inputs[k] == u16::MAX || self.inputs_up[k] == u16::MAX {
                assert(!(self.held(input_at(k as int)) < u16::MAX && self.released(
                    input_at(k as int),
                ) < u16::MAX));
                return false;
            }
            k += 1;
        }
        assert forall|i: Input| self.held(i) < u16::MAX && self.released(i) < u16::MAX by {
            assert(0 <= slot(i) < INPUT_COUNT);
        }
        true
    }

    fn key_down(&self, code: Input, snapshot: &InputSnapshot) -> (b: bool)
        ensures
            b == self.counts_down_now(code, snapshot),
    {
        let k = slot_of(code);
        if !snapshot.down[k] {
            return false;
        }
        match code {
            Input::Left | Input::Right | Input::Up | Input::Down => {
                let left = self.inputs_tickstamps[2];
                let right = self.inputs_tickstamps[3];
                let up = self.inputs_tickstamps[0];
                let down = self.inputs_tickstamps[1];
                let mine = self.inputs_tickstamps[k];
                mine >= left && mine >= right && mine >= up && mine >= down
            },
            _ => true,
        }
    }

    /// `counts_down` read against stamps already updated for this tick.
    closed spec fn counts_down_now(self, input: Input, s: &InputSnapshot) -> bool {
        &&& s.down[slot(input)]
        &&& is_direction(input) ==> {
            &&& self.inputs_tickstamps[0] <= self.inputs_tickstamps[slot(input)]
            &&& self.inputs_tickstamps[1] <= self.inputs_tickstamps[slot(input)]
            &&& self.inputs_tickstamps[2] <= self.inputs_tickstamps[slot(input)]
            &&& self.inputs_tickstamps[3] <= self.inputs_tickstamps[slot(input)]
        }
    }

    /// Advances the counters by one tick from what the provider reported.
    pub fn tick_with(&mut self, tick: u64, snapshot: &InputSnapshot)
        requires
            old(self).counters_ok(),
        ensures
            old(self).ticked(*final(self), tick, *snapshot),
    {
        let ghost start = *self;
        let mut k: usize = 0;
        while k < INPUT_COUNT
            invariant
                k <= INPUT_COUNT,
                self.inputs == start.inputs,
                self.inputs_up == start.inputs_up,
                forall|j: int|
                    0 <= j < INPUT_COUNT ==> #[trigger] self.inputs_tickstamps[j] == if j < k
                        && snapshot.just_pressed[j] {
                        tick
                    } else {
                        start.inputs_tickstamps[j]
                    },
            decreases INPUT_COUNT - k,
        {
            if snapshot.just_pressed[k] {
                self.inputs_tickstamps[k] = tick;
            }
            k += 1;
        }
        let ghost stamped = *self;
        assert forall|i: Input| #[trigger] stamped.stamp(i) == start.next_stamp(tick, *snapshot, i) by {
            assert(0 <= slot(i) < INPUT_COUNT);
        }
        let mut k: usize = 0;
        while k < INPUT_COUNT
            invariant
                k <= INPUT_COUNT,
                start.counters_ok(),
                self.inputs_tickstamps == stamped.inputs_tickstamps,
                forall|i: Input| #[trigger] stamped.stamp(i) == start.next_stamp(tick, *snapshot, i),
                forall|j: int|
                    0 <= j < INPUT_COUNT ==> #[trigger] self.inputs[j] == if j < k {
                        if stamped.counts_down_now(input_at(j), snapshot) {
                            (start.inputs[j] + 1) as u16
                        } else {
                            0
                        }
                    } else {
                        start.inputs[j]
                    },
                forall|j: int|
                    0 <= j < INPUT_COUNT ==> #[trigger] self.inputs_up[j] == if j < k {
                        if stamped.counts_down_now(input_at(j), snapshot) {
                            0
                        } else {
                            (start.inputs_up[j] + 1) as u16
                        }
                    } else {
                        start.inputs_up[j]
                    },
            decreases INPUT_COUNT - k,
        {
            let input = input_of(k);
            proof {
                assert(start.held(input) < u16::MAX && start.released(input) < u16::MAX);
            }
            if self.key_down(input, snapshot) {
                self.inputs[k] = self.inputs[k] + 1;
                self.inputs_up[k] = 0;
            } else {
                self.inputs_up[k] = self.inputs_up[k] + 1;
                self.inputs[k] = 0;
            }
            k += 1;
        }
        proof {
            assert forall|i: Input| #![trigger slot(i)]
                stamped.counts_down_now(i, snapshot) == start.counts_down(tick, *snapshot, i) by {
                if is_direction(i) {
                    assert(stamped.stamp(Input::Up) == stamped.inputs_tickstamps[0]);
                    assert(stamped.stamp(Input::Down) == stamped.inputs_tickstamps[1]);
                    assert(stamped.stamp(Input::Left) == stamped.inputs_tickstamps[2]);
                    assert(stamped.stamp(Input::Right) == stamped.inputs_tickstamps[3]);
                    if stamped.counts_down_now(i, snapshot) {
                        assert forall|other: Input| is_direction(other) implies #[trigger] start.next_stamp(
                            tick,
                            *snapshot,
                            other,
                        ) <= start.next_stamp(tick, *snapshot, i) by {
                            assert(stamped.stamp(other) == start.next_stamp(tick, *snapshot, other));
                        }
                    }
                    if start.counts_down(tick, *snapshot, i) {
                        assert(start.next_stamp(tick, *snapshot, Input::Up) <= start.next_stamp(tick, *snapshot, i));
                        assert(start.next_stamp(tick, *snapshot, Input::Down) <= start.next_stamp(tick, *snapshot, i));
                        assert(start.next_stamp(tick, *snapshot, Input::Left) <= start.next_stamp(tick, *snapshot, i));
                        assert(start.next_stamp(tick, *snapshot, Input::Right) <= start.next_stamp(tick, *snapshot, i));
                    }
                }
            }
            assert forall|i: Input| #![trigger slot(i)] input_at(slot(i)) == i by {}
        }
    }

    /// Polls the provider once and advances the counters by one tick: the
    /// provider is peeked, asked about every input, and consumed; the
    /// snapshot applied holds its answers after the peek.
    pub fn tick<P: InputProvider>(&mut self, tick: u64, provider: &mut P)
        requires
            old(self).counters_ok(),
        ensures
            exists|s: InputSnapshot, peeked: &mut P, consumed: &mut P|
                #![trigger call_ensures(P::peek, (peeked,), ()), call_ensures(P::consume, (consumed,), ()), old(self).ticked(*final(self), tick, s)]
                {
                    &&& call_ensures(P::peek, (peeked,), ())
                    &&& *peeked == *old(provider)
                    &&& s.answers_of(&*final(peeked))
                    &&& call_ensures(P::consume, (consumed,), ())
                    &&& *consumed == *final(peeked)
                    &&& *final(consumed) == *final(provider)
                    &&& old(self).ticked(*final(self), tick, s)
                },
    {
        let ghost before = *provider;
        provider.peek();
        let ghost asked = *provider;
        assert(exists|m: &mut P| #[trigger] call_ensures(P::peek, (m,), ()) && *m == before && *final(m) == asked);
        let snapshot = InputSnapshot::read(provider);
        assert(snapshot.answers_of(&asked));
        self.tick_with(tick, &snapshot);
        provider.consume();
        proof {
            assert(exists|m: &mut P| #[trigger] call_ensures(P::consume, (m,), ()) && *m == asked && *final(m) == *provider);
            let p1 = choose|m: &mut P| #[trigger] call_ensures(P::peek, (m,), ()) && *m == before && *final(m) == asked;
            let p2 = choose|m: &mut P| #[trigger] call_ensures(P::consume, (m,), ()) && *m == asked && *final(m) == *provider;
            assert(snapshot.answers_of(&*final(p1)));
            assert(old(self).ticked(*self, tick, snapshot));
        }
    }

    /// The most recently pressed direction wins: a direction pressed this
    /// tick and held counts as held, and a direction pressed earlier no
    /// longer does, though it is still down.
    pub proof fn lemma_latest_direction_wins(self, next: Inputs, tick: u64, s: InputSnapshot, d: Input, o: Input)
        requires
            self.ticked(next, tick, s),
            forall|i: Input| #[trigger] self.stamp(i) < tick,
            is_direction(d),
            is_direction(o),
            s.just_pressed[slot(d)],
            s.down[slot(d)],
            !s.just_pressed[slot(o)],
        ensures
            next.spec_key_pressed(d),
            !next.spec_key_pressed(o),
    {
        assert(next.stamp(d) == self.next_stamp(tick, s, d));
        assert(next.stamp(o) == self.next_stamp(tick, s, o));
        assert forall|other: Input| is_direction(other) implies #[trigger] self.next_stamp(tick, s, other)
            <= self.next_stamp(tick, s, d) by {
            assert(self.stamp(other) < tick);
        }
        assert(self.counts_down(tick, s, d));
        assert(self.stamp(o) < tick);
        assert(!self.counts_down(tick, s, o));
    }

    pub fn key_pressed(&self, input: Input) -> (b: bool)
        ensures
            b == self.spec_key_pressed(input),
    {
        self.inputs[slot_of(input)] > 0
    }

    pub fn key_just_pressed(&self, input: Input) -> (b: bool)
        ensures
            b == self.spec_key_just_pressed(input),
    {
        self.inputs[slot_of(input)] == 1
    }

    pub fn key_just_released(&self, input: Input) -> (b: bool)
        ensures
            b == self.spec_key_just_released(input),
    {
        self.inputs_up[slot_of(input)] == 1
    }

    fn key_press_duration(&self, input: Input) -> (d: u16)
        ensures
            d == self.held(input),
    {
        self.inputs[slot_of(input)]
    }

    /// True on the tick the key goes down and, after `das` ticks held, on
    /// every tick while it stays down.
    pub fn key_press_or_das(&self, input: Input, das: u16) -> (b: bool)
        ensures
            b == self.spec_key_press_or_das(input, das),
    {
        self.key_just_pressed(input) || self.key_press_duration(input) > das
    }
}

} // verus!
