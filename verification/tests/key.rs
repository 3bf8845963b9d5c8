use dispatcher::key::{Key, Pressed, ALT, CTRL, DIGITS, LETTERS, SHIFT, SLOTS, SUPER};

fn names(list: &[&str]) -> Vec<String> {
    list.iter().map(|name| name.to_string()).collect()
}

fn chord(list: &[&str]) -> u64 {
    Key::from_names(names(list)).repr
}

fn nothing_pressed() -> Pressed {
    Pressed {
        ctrl: false,
        shift: false,
        alt: false,
        meta: false,
        letters: [false; 26],
        digits: [false; 10],
    }
}

#[test]
fn order_and_case_do_not_matter() {
    assert_eq!(Key::from_names(names(&["ctrl", "A"])), Key::from_names(names(&["A", "Ctrl"])));
}

#[test]
fn a_name_twice_is_the_name_once() {
    assert_eq!(chord(&["shift", "x", "SHIFT", "X"]), chord(&["x", "shift"]));
}

#[test]
fn modifiers_take_the_first_four_bits() {
    assert_eq!(chord(&["ctrl"]), 1);
    assert_eq!(chord(&["shift"]), 2);
    assert_eq!(chord(&["alt"]), 4);
    assert_eq!(chord(&["super"]), 8);
    assert_eq!(chord(&["ctrl", "shift", "alt", "super"]), 15);
}

#[test]
fn modifiers_have_other_names() {
    assert_eq!(chord(&["control"]), 1);
    assert_eq!(chord(&["alternate"]), 4);
    assert_eq!(chord(&["option"]), 4);
    assert_eq!(chord(&["win"]), 8);
    assert_eq!(chord(&["windows"]), 8);
    assert_eq!(chord(&["cmd"]), 8);
    assert_eq!(chord(&["command"]), 8);
}

#[test]
fn letters_take_twenty_six_bits() {
    assert_eq!(chord(&["a"]), 1 << 4);
    assert_eq!(chord(&["b"]), 1 << 5);
    assert_eq!(chord(&["z"]), 1 << 29);
    assert_eq!(chord(&["Q"]), 1 << 20);
}

#[test]
fn digits_take_ten_bits() {
    assert_eq!(chord(&["0"]), 1 << 30);
    assert_eq!(chord(&["1"]), 1 << 31);
    assert_eq!(chord(&["9"]), 1 << 39);
}

#[test]
fn example_chord() {
    assert_eq!(chord(&["Ctrl", "Shift", "A"]), 0b10011);
}

#[test]
fn white_space_around_a_name_does_not_matter() {
    assert_eq!(chord(&[" ctrl ", "\ta\n"]), 0b10001);
}

#[test]
fn unknown_names_are_passed_over() {
    assert_eq!(chord(&["hyper"]), 0);
    assert_eq!(chord(&["ctrl", "f1", "a"]), 0b10001);
    assert_eq!(chord(&["-"]), 0);
    assert_eq!(chord(&["ab"]), 0);
    assert_eq!(chord(&[""]), 0);
    assert_eq!(chord(&["\u{e9}"]), 0);
    assert_eq!(chord(&["c t r l"]), 0);
    assert_eq!(chord(&["{", "`", "/", ":", "@", "["]), 0);
}

#[test]
fn no_names_no_keys() {
    assert_eq!(Key::from_names(Vec::new()), Key { repr: 0 });
    assert_eq!(Key::none(), Key { repr: 0 });
}

#[test]
fn slot_of_names() {
    assert_eq!(Key::slot_of("ctrl"), Some(CTRL));
    assert_eq!(Key::slot_of("Shift"), Some(SHIFT));
    assert_eq!(Key::slot_of("ALT"), Some(ALT));
    assert_eq!(Key::slot_of("Cmd"), Some(SUPER));
    assert_eq!(Key::slot_of("a"), Some(LETTERS));
    assert_eq!(Key::slot_of("z"), Some(LETTERS + 25));
    assert_eq!(Key::slot_of("0"), Some(DIGITS));
    assert_eq!(Key::slot_of("9"), Some(SLOTS - 1));
    assert_eq!(Key::slot_of("esc"), None);
    assert_eq!(Key::slot_of(""), None);
}

#[test]
fn holds_reads_one_bit() {
    let key = Key { repr: 0b10001 };
    assert!(key.holds(CTRL));
    assert!(!key.holds(SHIFT));
    assert!(key.holds(LETTERS));
    assert!(!key.holds(63));
    assert!(!key.holds(64));
    assert!(!key.holds(1000));
    assert!(Key { repr: 1 << 63 }.holds(63));
}

#[test]
fn from_pressed_sets_the_bit_of_each_key() {
    let mut state = nothing_pressed();
    assert_eq!(Key::from_pressed(&state).repr, 0);
    state.ctrl = true;
    state.letters[0] = true;
    assert_eq!(Key::from_pressed(&state).repr, 0b10001);
    state.meta = true;
    state.digits[9] = true;
    state.letters[25] = true;
    assert_eq!(Key::from_pressed(&state).repr, 0b10001 | 8 | (1 << 39) | (1 << 29));
}

#[test]
fn from_pressed_and_from_names_agree() {
    let mut state = nothing_pressed();
    state.shift = true;
    state.alt = true;
    state.letters[10] = true;
    assert_eq!(Key::from_pressed(&state), Key::from_names(names(&["alt", "k", "shift"])));
}

#[test]
fn modifiers_with_at_most_one_key_come_back() {
    for modifiers in 0..16u32 {
        for key in 0..37usize {
            let mut state = nothing_pressed();
            state.ctrl = modifiers & 1 != 0;
            state.shift = modifiers & 2 != 0;
            state.alt = modifiers & 4 != 0;
            state.meta = modifiers & 8 != 0;
            if key < 26 {
                state.letters[key] = true;
            } else if key < 36 {
                state.digits[key - 26] = true;
            }
            let chord = Key::from_pressed(&state);
            assert_eq!(chord.pressed(), state);
            assert_eq!(chord.repr.count_ones(), modifiers.count_ones() + u32::from(key < 36));
        }
    }
}

#[test]
fn several_keys_come_back_too() {
    let mut state = nothing_pressed();
    state.letters[3] = true;
    state.letters[4] = true;
    state.digits[0] = true;
    state.digits[5] = true;
    state.shift = true;
    assert_eq!(Key::from_pressed(&state).pressed(), state);
}

#[test]
fn pressed_passes_over_bits_beyond_the_slots() {
    assert_eq!(Key { repr: u64::MAX << 40 }.pressed(), nothing_pressed());
    let all = Key { repr: u64::MAX }.pressed();
    assert!(all.ctrl && all.shift && all.alt && all.meta);
    assert!(all.letters.iter().all(|held| *held));
    assert!(all.digits.iter().all(|held| *held));
    assert_eq!(Key::from_pressed(&all).repr, (1 << 40) - 1);
}

#[test]
fn top_bit_of_the_state_word_says_down() {
    assert!(Key::is_down(i16::MIN));
    assert!(Key::is_down(-1));
    assert!(Key::is_down(0x8001u16 as i16));
    assert!(!Key::is_down(0));
    assert!(!Key::is_down(1));
    assert!(!Key::is_down(i16::MAX));
}

#[test]
fn either_super_key_is_the_super_key() {
    assert!(Key::either_down(-1, 0));
    assert!(Key::either_down(0, i16::MIN));
    assert!(Key::either_down(-1, -1));
    assert!(!Key::either_down(0, 0));
    assert!(!Key::either_down(1, i16::MAX));
}
