//! Controller state kept from input events, with the keyboard as an extra
//! controller.
use crate::config::InputConfig;
use std::collections::VecDeque;
use vstd::prelude::*;

verus! {

/// The instance id of a controller.
pub type ID = i32;

/// The instance id under which the keyboard acts as a controller.
pub const KEYBOARD_ID: ID = -1;

/// A controller came or went.
#[derive(Clone, Copy, Debug, PartialEq, Eq, Structural)]
pub enum InputEvent {
    InputAdded(ID),
    InputRemoved(ID),
}

#[derive(Clone, Copy, Debug, PartialEq, Eq, Structural)]
pub enum Button {
    X,
    Y,
    A,
    B,
    LeftShoulder,
    RightShoulder,
    Guide,
    Back,
    Start,
    LeftStick,
    RightStick,
    DPadUp,
    DPadDown,
    DPadLeft,
    DPadRight,
}

#[derive(Clone, Copy, Debug, PartialEq, Eq, Structural)]
pub enum Axis {
    TriggerLeft,
    TriggerRight,
    LeftX,
    LeftY,
    RightX,
    RightY,
}

/// The keys that steer the keyboard controller.
#[derive(Clone, Copy, Debug, PartialEq, Eq, Structural)]
pub enum Key {
    W,
    A,
    S,
    D,
    Other,
}

/// What an input device reported.
pub enum ControllerEvent {
    ButtonDown { which: ID, button: Button },
    ButtonUp { which: ID, button: Button },
    AxisMotion { which: ID, axis: Axis, value: i16 },
    /// A controller was opened; its buttons as they were read then.
    DeviceAdded(ControllerState),
    DeviceRemoved { which: ID },
    KeyDown(Key),
    KeyUp(Key),
    Other,
}

/// The buttons and axes of one controller.
#[derive(Debug)]
pub struct ControllerState {
    pub id: u32,
    pub inst_id: ID,
    pub guid: String,
    pub button_x: bool,
    pub button_y: bool,
    pub button_a: bool,
    pub button_b: bool,
    pub button_l_shoulder: bool,
    pub button_r_shoulder: bool,
    pub button_guide: bool,
    pub button_back: bool,
    pub button_start: bool,
    pub button_l_stick: bool,
    pub button_r_stick: bool,
    pub button_up: bool,
    pub button_down: bool,
    pub button_left: bool,
    pub button_right: bool,
    pub axis_l_trigger: i16,
    pub axis_r_trigger: i16,
    pub axis_l_x: i16,
    pub axis_l_y: i16,
    pub axis_r_x: i16,
    pub axis_r_y: i16,
}

impl Default for ControllerState {
    /// Every button up, every axis at rest, every id zero.
    fn default() -> (r: Self)
        ensures
            r.id == 0,
            r.inst_id == 0,
            r.guid@ == Seq::<char>::empty(),
            forall|b: Button| !#[trigger] r.button(b),
            forall|a: Axis| #[trigger] r.axis(a) == 0,
    {
        let r = ControllerState {
            id: 0,
            inst_id: 0,
            guid: String::new(),
            button_x: false,
            button_y: false,
            button_a: false,
            button_b: false,
            button_l_shoulder: false,
            button_r_shoulder: false,
            button_guide: false,
            button_back: false,
            button_start: false,
            button_l_stick: false,
            button_r_stick: false,
            button_up: false,
            button_down: false,
            button_left: false,
            button_right: false,
            axis_l_trigger: 0,
            axis_r_trigger: 0,
            axis_l_x: 0,
            axis_l_y: 0,
            axis_r_x: 0,
            axis_r_y: 0,
        };
        r
    }
}

impl ControllerState {
    /// Whether `b` is held.
    pub open spec fn button(&self, b: Button) -> bool {
        match b {
            Button::X => self.button_x,
            Button::Y => self.button_y,
            Button::A => self.button_a,
            Button::B => self.button_b,
            Button::LeftShoulder => self.button_l_shoulder,
            Button::RightShoulder => self.button_r_shoulder,
            Button::Guide => self.button_guide,
            Button::Back => self.button_back,
            Button::Start => self.button_start,
            Button::LeftStick => self.button_l_stick,
            Button::RightStick => self.button_r_stick,
            Button::DPadUp => self.button_up,
            Button::DPadDown => self.button_down,
            Button::DPadLeft => self.button_left,
            Button::DPadRight => self.button_right,
        }
    }

    /// The position of axis `a`.
    pub open spec fn axis(&self, a: Axis) -> i16 {
        match a {
            Axis::TriggerLeft => self.axis_l_trigger,
            Axis::TriggerRight => self.axis_r_trigger,
            Axis::LeftX => self.axis_l_x,
            Axis::LeftY => self.axis_l_y,
            Axis::RightX => self.axis_r_x,
            Axis::RightY => self.axis_r_y,
        }
    }

    /// The ids and guid are those of `other`.
    pub open spec fn same_ids(&self, other: &Self) -> bool {
        self.id == other.id && self.inst_id == other.inst_id && self.guid@ == other.guid@
    }

    /// Every button is as in `other`.
    pub open spec fn same_buttons(&self, other: &Self) -> bool {
        &&& self.button_x == other.button_x
        &&& self.button_y == other.button_y
        &&& self.button_a == other.button_a
        &&& self.button_b == other.button_b
        &&& self.button_l_shoulder == other.button_l_shoulder
        &&& self.button_r_shoulder == other.button_r_shoulder
        &&& self.button_guide == other.button_guide
        &&& self.button_back == other.button_back
        &&& self.button_start == other.button_start
        &&& self.button_l_stick == other.button_l_stick
        &&& self.button_r_stick == other.button_r_stick
        &&& self.button_up == other.button_up
        &&& self.button_down == other.button_down
        &&& self.button_left == other.button_left
        &&& self.button_right == other.button_right
    }

    /// Every axis is as in `other`.
    pub open spec fn same_axes(&self, other: &Self) -> bool {
        &&& self.axis_l_trigger == other.axis_l_trigger
        &&& self.axis_r_trigger == other.axis_r_trigger
        &&& self.axis_l_x == other.axis_l_x
        &&& self.axis_l_y == other.axis_l_y
        &&& self.axis_r_x == other.axis_r_x
        &&& self.axis_r_y == other.axis_r_y
    }

    /// Each button is as in `other` but `b`, which is `v`.
    pub open spec fn buttons_but(&self, other: &Self, b: Button, v: bool) -> bool {
        &&& self.button_x == if b == Button::X { v } else { other.button_x }
        &&& self.button_y == if b == Button::Y { v } else { other.button_y }
        &&& self.button_a == if b == Button::A { v } else { other.button_a }
        &&& self.button_b == if b == Button::B { v } else { other.button_b }
        &&& self.button_l_shoulder == if b == Button::LeftShoulder { v } else { other.button_l_shoulder }
        &&& self.button_r_shoulder == if b == Button::RightShoulder { v } else { other.button_r_shoulder }
        &&& self.button_guide == if b == Button::Guide { v } else { other.button_guide }
        &&& self.button_back == if b == Button::Back { v } else { other.button_back }
        &&& self.button_start == if b == Button::Start { v } else { other.button_start }
        &&& self.button_l_stick == if b == Button::LeftStick { v } else { other.button_l_stick }
        &&& self.button_r_stick == if b == Button::RightStick { v } else { other.button_r_stick }
        &&& self.button_up == if b == Button::DPadUp { v } else { other.button_up }
        &&& self.button_down == if b == Button::DPadDown { v } else { other.button_down }
        &&& self.button_left == if b == Button::DPadLeft { v } else { other.button_left }
        &&& self.button_right == if b == Button::DPadRight { v } else { other.button_right }
    }

    /// Each axis is as in `other` but `a`, which is `v`.
    pub open spec fn axes_but(&self, other: &Self, a: Axis, v: i16) -> bool {
        &&& self.axis_l_trigger == if a == Axis::TriggerLeft { v } else { other.axis_l_trigger }
        &&& self.axis_r_trigger == if a == Axis::TriggerRight { v } else { other.axis_r_trigger }
        &&& self.axis_l_x == if a == Axis::LeftX { v } else { other.axis_l_x }
        &&& self.axis_l_y == if a == Axis::LeftY { v } else { other.axis_l_y }
        &&& self.axis_r_x == if a == Axis::RightX { v } else { other.axis_r_x }
        &&& self.axis_r_y == if a == Axis::RightY { v } else { other.axis_r_y }
    }

    pub fn set_button(&mut self, button: Button, value: bool)
        ensures
            final(self).same_ids(&*old(self)),
            final(self).buttons_but(&*old(self), button, value),
            final(self).same_axes(&*old(self)),
    {
        if button == Button::X {
            self.button_x = value;
        }
        if button == Button::Y {
            self.button_y = value;
        }
        if button == Button::A {
            self.button_a = value;
        }
        if button == Button::B {
            self.button_b = value;
        }
        if button == Button::LeftShoulder {
            self.button_l_shoulder = value;
        }
        if button == Button::RightShoulder {
            self.button_r_shoulder = value;
        }
        if button == Button::Guide {
            self.button_guide = value;
        }
        if button == Button::Back {
            self.button_back = value;
        }
        if button == Button::Start {
            self.button_start = value;
        }
        if button == Button::LeftStick {
            self.button_l_stick = value;
        }
        if button == Button::RightStick {
            self.button_r_stick = value;
        }
        if button == Button::DPadUp {
            self.button_up = value;
        }
        if button == Button::DPadDown {
            self.button_down = value;
        }
        if button == Button::DPadLeft {
            self.button_left = value;
        }
        if button == Button::DPadRight {
            self.button_right = value;
        }
    }

    #[verifier::rlimit(30)]
    pub fn set_axis(&mut self, axis: Axis, value: i16)
        ensures
            final(self).same_ids(&*old(self)),
            final(self).axes_but(&*old(self), axis, value),
            final(self).same_buttons(&*old(self)),
    {
        match axis {
            Axis::TriggerLeft => self.axis_l_trigger = value,
            Axis::TriggerRight => self.axis_r_trigger = value,
            Axis::LeftX => self.axis_l_x = value,
            Axis::LeftY => self.axis_l_y = value,
            Axis::RightX => self.axis_r_x = value,
            Axis::RightY => self.axis_r_y = value,
        }
    }
}

/// The stick value kept for a reading `v`: readings inside the dead zone
/// count as rest.
pub open spec fn deadzoned(v: i16, deadzone: u16) -> i16 {
    if (if v < 0 { -v } else { v as int }) > deadzone as int {
        v
    } else {
        0
    }
}

/// `states` without the controllers whose instance id is `which`, in
/// order.
pub open spec fn without_instance(states: Seq<ControllerState>, which: ID) -> Seq<ControllerState>
    decreases states.len(),
{
    if states.len() == 0 {
        states
    } else {
        let rest = without_instance(states.drop_last(), which);
        if states.last().inst_id != which {
            rest.push(states.last())
        } else {
            rest
        }
    }
}

/// The axis a key steers, and in which direction.
pub open spec fn spec_key_axis(key: Key) -> Option<(Axis, i16)> {
    match key {
        Key::W => Some((Axis::LeftY, -1i16)),
        Key::S => Some((Axis::LeftY, 1i16)),
        Key::A => Some((Axis::LeftX, -1i16)),
        Key::D => Some((Axis::LeftX, 1i16)),
        Key::Other => None,
    }
}

/// The axis a key steers, and in which direction.
pub fn map_key_to_axis(key: Key) -> (r: Option<(Axis, i16)>)
    ensures
        r == spec_key_axis(key),
{
    match key {
        Key::W => Some((Axis::LeftY, -1)),
        Key::S => Some((Axis::LeftY, 1)),
        Key::A => Some((Axis::LeftX, -1)),
        Key::D => Some((Axis::LeftX, 1)),
        Key::Other => None,
    }
}

/// `later` is `states` with button `b` of every controller `which` set to
/// `v`.
pub open spec fn buttons_pressed(states: Seq<ControllerState>, later: Seq<ControllerState>, which: ID, b: Button, v: bool) -> bool {
    &&& later.len() == states.len()
    &&& forall|i: int|
        0 <= i < states.len() ==> if states[i].inst_id == which {
            &&& (#[trigger] later[i]).same_ids(&states[i])
            &&& later[i].buttons_but(&states[i], b, v)
            &&& later[i].same_axes(&states[i])
        } else {
            later[i] == states[i]
        }
}

/// `later` is `states` with axis `a` of every controller `which` set to
/// `v`.
pub open spec fn axes_moved(states: Seq<ControllerState>, later: Seq<ControllerState>, which: ID, a: Axis, v: i16) -> bool {
    &&& later.len() == states.len()
    &&& forall|i: int|
        0 <= i < states.len() ==> if states[i].inst_id == which {
            &&& (#[trigger] later[i]).same_ids(&states[i])
            &&& later[i].axes_but(&states[i], a, v)
            &&& later[i].same_buttons(&states[i])
        } else {
            later[i] == states[i]
        }
}

/// The controller states kept from input events, and the queue of
/// controllers that came and went.
pub struct InputSystem {
    config: InputConfig,
    controller_states: Vec<ControllerState>,
    pub event_queue: VecDeque<InputEvent>,
}

impl InputSystem {
    pub closed spec fn states(&self) -> Seq<ControllerState> {
        self.controller_states@
    }

    pub closed spec fn queue(&self) -> Seq<InputEvent> {
        self.event_queue@
    }

    pub closed spec fn spec_deadzone(&self) -> u16 {
        self.config.deadzone
    }

    pub closed spec fn spec_keyboard(&self) -> bool {
        self.config.keyboard
    }

    /// With the keyboard enabled, it is the first controller, announced on
    /// the queue.
    pub fn new(config: InputConfig) -> (r: Self)
        ensures
            r.spec_deadzone() == config.deadzone,
            r.spec_keyboard() == config.keyboard,
            config.keyboard ==> r.states().len() == 1 && r.states()[0].inst_id == KEYBOARD_ID
                && r.states()[0].id == 0 && (forall|b: Button| !#[trigger] r.states()[0].button(b))
                && (forall|a: Axis| #[trigger] r.states()[0].axis(a) == 0)
                && r.queue() == seq![InputEvent::InputAdded(KEYBOARD_ID)],
            !config.keyboard ==> r.states().len() == 0 && r.queue().len() == 0,
    {
        let mut controller_states: Vec<ControllerState> = Vec::new();
        let mut event_queue: VecDeque<InputEvent> = VecDeque::new();
        if config.keyboard {
            let mut keyboard_controller = ControllerState::default();
            let ghost blank = keyboard_controller;
            keyboard_controller.inst_id = KEYBOARD_ID;
            proof {
                assert forall|b: Button| !#[trigger] keyboard_controller.button(b) by {
                    assert(!blank.button(b));
                }
                assert forall|a: Axis| #[trigger] keyboard_controller.axis(a) == 0 by {
                    assert(blank.axis(a) == 0);
                }
            }
            controller_states.push(keyboard_controller);
            event_queue.push_back(InputEvent::InputAdded(KEYBOARD_ID));
        }
        let r = InputSystem { config, controller_states, event_queue };
        proof {
            if config.keyboard {
                assert(r.queue() =~= seq![InputEvent::InputAdded(KEYBOARD_ID)]);
                let c = r.states()[0];
                assert forall|b: Button| !#[trigger] c.button(b) by {
                }
                assert forall|a: Axis| #[trigger] c.axis(a) == 0 by {
                }
            } else {
                assert(r.queue().len() == 0);
            }
        }
        r
    }

    fn press(&mut self, which: ID, button: Button, value: bool)
        ensures
            buttons_pressed(old(self).states(), final(self).states(), which, button, value),
            final(self).queue() == old(self).queue(),
            final(self).spec_deadzone() == old(self).spec_deadzone(),
            final(self).spec_keyboard() == old(self).spec_keyboard(),
    {
        let ghost before = self.controller_states@;
        let mut i: usize = 0;
        while i < self.controller_states.len()
            invariant
                i <= self.controller_states@.len(),
                self.controller_states@.len() == before.len(),
                self.event_queue@ == old(self).event_queue@,
                self.config == old(self).config,
                forall|k: int|
                    0 <= k < before.len() ==> if k < i && before[k].inst_id == which {
                        &&& (#[trigger] self.controller_states@[k]).same_ids(&before[k])
                        &&& self.controller_states@[k].buttons_but(&before[k], button, value)
                        &&& self.controller_states@[k].same_axes(&before[k])
                    } else {
                        self.controller_states@[k] == before[k]
                    },
            decreases before.len() - i,
        {
            if self.controller_states[i].inst_id == which {
                self.controller_states[i].set_button(button, value);
            }
            i += 1;
        }
    }

    fn move_axis(&mut self, which: ID, axis: Axis, value: i16)
        ensures
            axes_moved(old(self).states(), final(self).states(), which, axis, value),
            final(self).queue() == old(self).queue(),
            final(self).spec_deadzone() == old(self).spec_deadzone(),
            final(self).spec_keyboard() == old(self).spec_keyboard(),
    {
        let ghost before = self.controller_states@;
        let mut i: usize = 0;
        while i < self.controller_states.len()
            invariant
                i <= self.controller_states@.len(),
                self.controller_states@.len() == before.len(),
                self.event_queue@ == old(self).event_queue@,
                self.config == old(self).config,
                forall|k: int|
                    0 <= k < before.len() ==> if k < i && before[k].inst_id == which {
                        &&& (#[trigger] self.controller_states@[k]).same_ids(&before[k])
                        &&& self.controller_states@[k].axes_but(&before[k], axis, value)
                        &&& self.controller_states@[k].same_buttons(&before[k])
                    } else {
                        self.controller_states@[k] == before[k]
                    },
            decreases before.len() - i,
        {
            if self.controller_states[i].inst_id == which {
                self.controller_states[i].set_axis(axis, value);
            }
            i += 1;
        }
    }

    fn remove_controller(&mut self, which: ID)
        ensures
            final(self).states() == without_instance(old(self).states(), which),
            final(self).queue() == old(self).queue(),
            final(self).spec_deadzone() == old(self).spec_deadzone(),
            final(self).spec_keyboard() == old(self).spec_keyboard(),
    {
        let mut kept: Vec<ControllerState> = Vec::new();
        let mut rest: Vec<ControllerState> = Vec::new();
        std::mem::swap(&mut rest, &mut self.controller_states);
        let ghost before = rest@;
        proof {
            assert(before.len() == rest.len());
        }
        let mut taken: usize = 0;
        while rest.len() > 0
            invariant
                taken + rest@.len() == before.len(),
                before.len() <= usize::MAX,
                rest@ == before.subrange(taken as int, before.len() as int),
                kept@ == without_instance(before.subrange(0, taken as int), which),
                self.event_queue@ == old(self).event_queue@,
                self.config == old(self).config,
            decreases rest@.len(),
        {
            let s = rest.remove(0);
            proof {
                assert(s == before[taken as int]);
                let next = before.subrange(0, taken + 1);
                assert(next.drop_last() =~= before.subrange(0, taken as int));
                assert(next.last() == s);
            }
            let ghost kept_before = kept@;
            let keep = s.inst_id != which;
            if keep {
                kept.push(s);
            }
            proof {
                let next = before.subrange(0, taken + 1);
                assert(kept@ == without_instance(next, which));
            }
            taken += 1;
            proof {
                assert(rest@ =~= before.subrange(taken as int, before.len() as int));
            }
        }
        proof {
            assert(before.subrange(0, before.len() as int) =~= before);
        }
        self.controller_states = kept;
    }

    fn handle_axis_key(&mut self, key: Key, value: i16)
        requires
            value == 0 || value == i16::MAX,
        ensures
            match spec_key_axis(key) {
                Some((axis, dir)) => axes_moved(old(self).states(), final(self).states(), KEYBOARD_ID, axis, (value * dir) as i16),
                None => final(self).states() == old(self).states(),
            },
            final(self).queue() == old(self).queue(),
            final(self).spec_deadzone() == old(self).spec_deadzone(),
            final(self).spec_keyboard() == old(self).spec_keyboard(),
    {
        if let Some((axis, direction)) = map_key_to_axis(key) {
            self.move_axis(KEYBOARD_ID, axis, value * direction);
        }
    }

    /// Takes one event into the controller states: button presses and
    /// stick motion go to the controllers with that instance id (stick
    /// readings inside the dead zone count as rest), controllers are added
    /// and removed with a notice on the queue, and with the keyboard
    /// enabled, W, A, S and D push the keyboard controller's left stick
    /// fully, and releasing them brings it back to rest.
    pub fn update(&mut self, event: ControllerEvent)
        ensures
            final(self).spec_deadzone() == old(self).spec_deadzone(),
            final(self).spec_keyboard() == old(self).spec_keyboard(),
            match event {
                ControllerEvent::ButtonDown { which, button } => buttons_pressed(
                    old(self).states(),
                    final(self).states(),
                    which,
                    button,
                    true,
                ) && final(self).queue() == old(self).queue(),
                ControllerEvent::ButtonUp { which, button } => buttons_pressed(
                    old(self).states(),
                    final(self).states(),
                    which,
                    button,
                    false,
                ) && final(self).queue() == old(self).queue(),
                ControllerEvent::AxisMotion { which, axis, value } => axes_moved(
                    old(self).states(),
                    final(self).states(),
                    which,
                    axis,
                    deadzoned(value, old(self).spec_deadzone()),
                ) && final(self).queue() == old(self).queue(),
                ControllerEvent::DeviceAdded(state) => final(self).states() == old(self).states().push(state)
                    && final(self).queue() == old(self).queue().push(InputEvent::InputAdded(state.inst_id)),
                ControllerEvent::DeviceRemoved { which } => final(self).states() == without_instance(old(self).states(), which) && final(self).queue() == old(self).queue().push(InputEvent::InputRemoved(which)),
                ControllerEvent::KeyDown(key) => final(self).queue() == old(self).queue() && if old(self).spec_keyboard() {
                    match spec_key_axis(key) {
                        Some((axis, dir)) => axes_moved(
                            old(self).states(),
                            final(self).states(),
                            KEYBOARD_ID,
                            axis,
                            (i16::MAX * dir) as i16,
                        ),
                        None => final(self).states() == old(self).states(),
                    }
                } else {
                    final(self).states() == old(self).states()
                },
                ControllerEvent::KeyUp(key) => final(self).queue() == old(self).queue() && if old(self).spec_keyboard() {
                    match spec_key_axis(key) {
                        Some((axis, dir)) => axes_moved(old(self).states(), final(self).states(), KEYBOARD_ID, axis, 0),
                        None => final(self).states() == old(self).states(),
                    }
                } else {
                    final(self).states() == old(self).states()
                },
                ControllerEvent::Other => final(self).states() == old(self).states() && final(self).queue()
                    == old(self).queue(),
            },
    {
        match event {
            ControllerEvent::ButtonDown { which, button } => self.press(which, button, true),
            ControllerEvent::ButtonUp { which, button } => self.press(which, button, false),
            ControllerEvent::AxisMotion { which, axis, value } => {
                let magnitude: i32 = if value < 0 {
                    -(value as i32)
                } else {
                    value as i32
                };
                let kept = if magnitude > self.config.deadzone as i32 {
                    value
                } else {
                    0
                };
                self.move_axis(which, axis, kept);
            },
            ControllerEvent::DeviceAdded(state) => {
                let id = state.inst_id;
                self.controller_states.push(state);
                self.event_queue.push_back(InputEvent::InputAdded(id));
            },
            ControllerEvent::DeviceRemoved { which } => {
                self.remove_controller(which);
                self.event_queue.push_back(InputEvent::InputRemoved(which));
            },
            ControllerEvent::KeyDown(key) => {
                if self.config.keyboard {
                    self.handle_axis_key(key, i16::MAX);
                }
            },
            ControllerEvent::KeyUp(key) => {
                if self.config.keyboard {
                    self.handle_axis_key(key, 0);
                }
            },
            ControllerEvent::Other => {},
        }
    }

    /// The instance ids of the controllers, in the order they were added.
    pub fn controller_ids(&self) -> (r: Vec<ID>)
        ensures
            r@ == self.states().map_values(|s: ControllerState| s.inst_id),
    {
        let mut r: Vec<ID> = Vec::new();
        let mut i: usize = 0;
        while i < self.controller_states.len()
            invariant
                i <= self.controller_states@.len(),
                r@ == self.controller_states@.subrange(0, i as int).map_values(|s: ControllerState| s.inst_id),
            decreases self.controller_states@.len() - i,
        {
            r.push(self.controller_states[i].inst_id);
            i += 1;
            proof {
                assert(r@ =~= self.controller_states@.subrange(0, i as int).map_values(|s: ControllerState| s.inst_id));
            }
        }
        proof {
            assert(self.controller_states@.subrange(0, i as int) =~= self.controller_states@);
        }
        r
    }

    /// The first controller with instance id `id`, if any.
    pub fn get_controller_state(&self, id: ID) -> (r: Option<&ControllerState>)
        ensures
            r is None <==> forall|k: int| 0 <= k < self.states().len() ==> #[trigger] self.states()[k].inst_id != id,
            r matches Some(s) ==> exists|k: int|
                0 <= k < self.states().len() && *s == #[trigger] self.states()[k] && s.inst_id == id && forall|m: int|
                    0 <= m < k ==> #[trigger] self.states()[m].inst_id != id,
    {
        let mut i: usize = 0;
        while i < self.controller_states.len()
            invariant
                i <= self.controller_states@.len(),
                forall|m: int| 0 <= m < i ==> #[trigger] self.controller_states@[m].inst_id != id,
            decreases self.controller_states@.len() - i,
        {
            if self.controller_states[i].inst_id == id {
                proof {
                    assert(self.states()[i as int].inst_id == id);
                }
                return Some(&self.controller_states[i]);
            }
            i += 1;
        }
        None
    }

    /// Takes the oldest notice off the queue.
    pub fn event(&mut self) -> (r: Option<InputEvent>)
        ensures
            old(self).queue().len() == 0 ==> r is None && final(self).queue() == old(self).queue(),
            old(self).queue().len() > 0 ==> r == Some(old(self).queue()[0]) && final(self).queue()
                == old(self).queue().drop_first(),
            final(self).states() == old(self).states(),
    {
        self.event_queue.pop_front()
    }
}

} // verus!
