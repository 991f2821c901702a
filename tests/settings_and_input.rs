use zoo_spree::config::{Config, InputConfig, VideoConfig};
use zoo_spree::input::{
    map_key_to_axis, Axis, Button, ControllerEvent, ControllerState, InputEvent, InputSystem, Key,
    KEYBOARD_ID,
};

fn video(resolution: &str, scale: u32, x: Option<u32>, y: Option<u32>) -> VideoConfig {
    VideoConfig::new(false, resolution.to_string(), scale, x, y)
}

#[test]
fn automatic_resolution_divides_by_scale() {
    let v = video("auto", 2, Some(1920), Some(1080));
    assert!(v.auto_resolution());
    assert_eq!(v.x_resolution(), 960);
    assert_eq!(v.y_resolution(), 540);
}

#[test]
fn fixed_resolution_uses_defaults() {
    let v = video("1024x768", 2, Some(1920), Some(1080));
    assert!(!v.auto_resolution());
    assert_eq!(v.x_resolution(), 800);
    assert_eq!(v.y_resolution(), 600);
}

#[test]
fn automatic_resolution_without_detection_uses_defaults() {
    let mut v = video("auto", 3, None, None);
    assert_eq!(v.x_resolution(), 800);
    assert_eq!(v.y_resolution(), 600);
    v.set_auto_resolution(2560, 1440);
    assert_eq!(v.x_resolution(), 853);
    assert_eq!(v.y_resolution(), 480);
}

#[test]
fn whole_config_holds_both_parts() {
    let c = Config { video: video("auto", 1, Some(640), Some(480)), input: InputConfig { deadzone: 10, keyboard: true } };
    assert_eq!(c.video.x_resolution(), 640);
    assert_eq!(c.input.deadzone, 10);
}

fn pad(inst_id: i32) -> ControllerState {
    let mut s = ControllerState::default();
    s.inst_id = inst_id;
    s
}

#[test]
fn keyboard_is_announced_as_a_controller() {
    let mut input = InputSystem::new(InputConfig { deadzone: 100, keyboard: true });
    assert_eq!(input.controller_ids(), vec![KEYBOARD_ID]);
    assert_eq!(input.event(), Some(InputEvent::InputAdded(-1)));
    assert_eq!(input.event(), None);
}

#[test]
fn without_keyboard_there_are_no_controllers() {
    let mut input = InputSystem::new(InputConfig { deadzone: 100, keyboard: false });
    assert!(input.controller_ids().is_empty());
    assert_eq!(input.event(), None);
    input.update(ControllerEvent::KeyDown(Key::W));
    assert!(input.controller_ids().is_empty());
}

#[test]
fn controllers_come_and_go() {
    let mut input = InputSystem::new(InputConfig { deadzone: 100, keyboard: false });
    input.update(ControllerEvent::DeviceAdded(pad(3)));
    input.update(ControllerEvent::DeviceAdded(pad(5)));
    assert_eq!(input.controller_ids(), vec![3, 5]);
    input.update(ControllerEvent::DeviceRemoved { which: 3 });
    assert_eq!(input.controller_ids(), vec![5]);
    assert!(input.get_controller_state(3).is_none());
    assert_eq!(input.event(), Some(InputEvent::InputAdded(3)));
    assert_eq!(input.event(), Some(InputEvent::InputAdded(5)));
    assert_eq!(input.event(), Some(InputEvent::InputRemoved(3)));
    assert_eq!(input.event(), None);
}

#[test]
fn buttons_follow_presses() {
    let mut input = InputSystem::new(InputConfig { deadzone: 100, keyboard: false });
    input.update(ControllerEvent::DeviceAdded(pad(3)));
    input.update(ControllerEvent::DeviceAdded(pad(4)));
    input.update(ControllerEvent::ButtonDown { which: 3, button: Button::A });
    assert!(input.get_controller_state(3).unwrap().button_a);
    assert!(!input.get_controller_state(4).unwrap().button_a);
    input.update(ControllerEvent::ButtonDown { which: 4, button: Button::DPadLeft });
    assert!(input.get_controller_state(4).unwrap().button_left);
    input.update(ControllerEvent::ButtonUp { which: 3, button: Button::A });
    assert!(!input.get_controller_state(3).unwrap().button_a);
}

#[test]
fn stick_readings_inside_the_deadzone_are_rest() {
    let mut input = InputSystem::new(InputConfig { deadzone: 100, keyboard: false });
    input.update(ControllerEvent::DeviceAdded(pad(2)));
    input.update(ControllerEvent::AxisMotion { which: 2, axis: Axis::LeftX, value: 250 });
    assert_eq!(input.get_controller_state(2).unwrap().axis_l_x, 250);
    input.update(ControllerEvent::AxisMotion { which: 2, axis: Axis::LeftX, value: 100 });
    assert_eq!(input.get_controller_state(2).unwrap().axis_l_x, 0);
    input.update(ControllerEvent::AxisMotion { which: 2, axis: Axis::RightY, value: -101 });
    assert_eq!(input.get_controller_state(2).unwrap().axis_r_y, -101);
    input.update(ControllerEvent::AxisMotion { which: 2, axis: Axis::RightY, value: -100 });
    assert_eq!(input.get_controller_state(2).unwrap().axis_r_y, 0);
    input.update(ControllerEvent::AxisMotion { which: 2, axis: Axis::TriggerLeft, value: i16::MIN });
    assert_eq!(input.get_controller_state(2).unwrap().axis_l_trigger, i16::MIN);
}

#[test]
fn keys_steer_the_keyboard_stick() {
    let mut input = InputSystem::new(InputConfig { deadzone: 100, keyboard: true });
    input.update(ControllerEvent::KeyDown(Key::W));
    assert_eq!(input.get_controller_state(KEYBOARD_ID).unwrap().axis_l_y, -i16::MAX);
    input.update(ControllerEvent::KeyUp(Key::W));
    assert_eq!(input.get_controller_state(KEYBOARD_ID).unwrap().axis_l_y, 0);
    input.update(ControllerEvent::KeyDown(Key::D));
    assert_eq!(input.get_controller_state(KEYBOARD_ID).unwrap().axis_l_x, i16::MAX);
    input.update(ControllerEvent::KeyDown(Key::Other));
    assert_eq!(input.get_controller_state(KEYBOARD_ID).unwrap().axis_l_y, 0);
}

#[test]
fn key_map_covers_wasd() {
    assert_eq!(map_key_to_axis(Key::W), Some((Axis::LeftY, -1)));
    assert_eq!(map_key_to_axis(Key::S), Some((Axis::LeftY, 1)));
    assert_eq!(map_key_to_axis(Key::A), Some((Axis::LeftX, -1)));
    assert_eq!(map_key_to_axis(Key::D), Some((Axis::LeftX, 1)));
    assert_eq!(map_key_to_axis(Key::Other), None);
}

#[test]
fn setting_one_axis_leaves_the_others() {
    let mut s = pad(1);
    s.set_axis(Axis::RightX, 77);
    s.set_button(Button::Start, true);
    assert_eq!(s.axis_r_x, 77);
    assert_eq!(s.axis_l_x, 0);
    assert!(s.button_start);
    assert!(!s.button_back);
    assert_eq!(s.inst_id, 1);
}
