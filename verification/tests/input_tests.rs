use edrefis::input::{slot_of, Input, InputProvider, InputSnapshot, Inputs, INPUTS, RECORDABLE_INPUTS};

struct Keys {
    down: Vec<Input>,
    just: Vec<Input>,
    peeks: usize,
    consumes: usize,
}

impl Keys {
    fn new() -> Keys {
        Keys { down: vec![], just: vec![], peeks: 0, consumes: 0 }
    }
    fn push(&mut self, input: Input) {
        self.down.push(input);
        self.just.push(input);
    }
    fn release(&mut self, input: Input) {
        self.down.retain(|i| *i != input);
        self.just.retain(|i| *i != input);
    }
}

impl InputProvider for Keys {
    fn peek(&mut self) {
        self.peeks += 1;
    }
    fn consume(&mut self) {
        self.consumes += 1;
        self.just.clear();
    }
    fn key_just_pressed(&self, input: Input) -> bool {
        self.just.contains(&input)
    }
    fn key_down(&self, input: Input) -> bool {
        self.down.contains(&input)
    }
}

const ALL: [Input; 7] = [Input::Up, Input::Down, Input::Left, Input::Right, Input::CW, Input::CCW, Input::DebugLevel];

#[test]
fn new_inputs_report_nothing() {
    let inputs = Inputs::new();
    for i in ALL {
        assert!(!inputs.key_pressed(i));
        assert!(!inputs.key_just_pressed(i));
        assert!(!inputs.key_just_released(i));
        assert!(!inputs.key_press_or_das(i, 16));
    }
    assert!(inputs.counters_below_limit());
}

#[test]
fn press_hold_release() {
    let mut inputs = Inputs::new();
    let mut keys = Keys::new();
    keys.push(Input::CW);
    inputs.tick(1, &mut keys);
    assert!(inputs.key_pressed(Input::CW));
    assert!(inputs.key_just_pressed(Input::CW));
    assert!(!inputs.key_just_released(Input::CW));
    assert!(inputs.key_just_released(Input::CCW));
    inputs.tick(2, &mut keys);
    assert!(inputs.key_pressed(Input::CW));
    assert!(!inputs.key_just_pressed(Input::CW));
    assert!(!inputs.key_just_released(Input::CCW));
    keys.release(Input::CW);
    inputs.tick(3, &mut keys);
    assert!(!inputs.key_pressed(Input::CW));
    assert!(inputs.key_just_released(Input::CW));
    assert_eq!(keys.peeks, 3);
    assert_eq!(keys.consumes, 3);
}

#[test]
fn latest_direction_wins() {
    let mut inputs = Inputs::new();
    let mut keys = Keys::new();
    keys.push(Input::Left);
    inputs.tick(1, &mut keys);
    assert!(inputs.key_pressed(Input::Left));
    keys.push(Input::Right);
    inputs.tick(5, &mut keys);
    assert!(inputs.key_pressed(Input::Right));
    assert!(!inputs.key_pressed(Input::Left));
    assert!(inputs.key_just_released(Input::Left));
    keys.release(Input::Right);
    inputs.tick(6, &mut keys);
    assert!(!inputs.key_pressed(Input::Right));
    assert!(!inputs.key_pressed(Input::Left));
}

#[test]
fn simultaneous_directions_both_count() {
    let mut inputs = Inputs::new();
    let mut keys = Keys::new();
    keys.push(Input::Up);
    keys.push(Input::Down);
    inputs.tick(3, &mut keys);
    assert!(inputs.key_pressed(Input::Up));
    assert!(inputs.key_pressed(Input::Down));
}

#[test]
fn turn_keys_ignore_directions() {
    let mut inputs = Inputs::new();
    let mut keys = Keys::new();
    keys.push(Input::CCW);
    inputs.tick(1, &mut keys);
    keys.push(Input::Left);
    inputs.tick(2, &mut keys);
    assert!(inputs.key_pressed(Input::CCW));
    assert!(inputs.key_pressed(Input::Left));
}

#[test]
fn auto_repeat_after_delay() {
    let mut inputs = Inputs::new();
    let mut keys = Keys::new();
    keys.push(Input::Down);
    let mut fired = vec![];
    for t in 1..=20u64 {
        inputs.tick(t, &mut keys);
        fired.push(inputs.key_press_or_das(Input::Down, 16));
    }
    assert!(fired[0]);
    assert!(fired[1..16].iter().all(|f| !f));
    assert!(fired[16..].iter().all(|f| *f));
}

#[test]
fn tick_with_a_snapshot() {
    let mut inputs = Inputs::new();
    let mut snapshot = InputSnapshot { just_pressed: [false; 7], down: [false; 7] };
    snapshot.just_pressed[slot_of(Input::Up)] = true;
    snapshot.down[slot_of(Input::Up)] = true;
    inputs.tick_with(7, &snapshot);
    assert!(inputs.key_just_pressed(Input::Up));
    assert!(!inputs.key_pressed(Input::Down));
}

#[test]
fn slots_are_distinct() {
    let mut seen = vec![];
    for i in ALL {
        let s = slot_of(i);
        assert!(s < 7);
        assert!(!seen.contains(&s));
        seen.push(s);
    }
}

#[test]
fn a_later_press_takes_over_a_held_direction() {
    let mut inputs = Inputs::new();
    let mut keys = Keys::new();
    keys.push(Input::Left);
    inputs.tick(1, &mut keys);
    assert!(inputs.key_pressed(Input::Left));
    keys.push(Input::Right);
    inputs.tick(2, &mut keys);
    assert!(inputs.key_pressed(Input::Right));
    assert!(!inputs.key_pressed(Input::Left));
}

#[test]
fn input_tables() {
    assert_eq!(INPUTS.len(), 7);
    assert_eq!(RECORDABLE_INPUTS.len(), 6);
    for (k, i) in INPUTS.iter().enumerate() {
        assert_eq!(slot_of(*i), k);
    }
    assert!(!RECORDABLE_INPUTS.contains(&Input::DebugLevel));
}
