//! What a key press or a process signal asks the visualizer to do.

use vstd::prelude::*;

verus! {

/// An action requested by the user or the environment.
#[derive(Debug, Clone, Copy, PartialEq, Eq, Structural)]
pub enum ActionEvent {
    Quit,
    Resize,
    ReloadConfig,
    ReloadColors,
    IncreaseSensitivity,
    DecreaseSensitivity,
    DecreaseBars,
    IncreaseBars,
    CycleForegroundColor,
    CycleBackgroundColor,
    CycleOrientation,
    OpenMenu,
}

/// The keys the visualizer tells apart.
#[derive(Debug, Clone, Copy, PartialEq, Eq, Structural)]
pub enum Key {
    Char(char),
    Esc,
    Enter,
    Backspace,
    Up,
    Down,
    Left,
    Right,
    Home,
    End,
    PageUp,
    PageDown,
    Other,
}

/// The process signals the visualizer listens for.
#[derive(Debug, Clone, Copy, PartialEq, Eq, Structural)]
pub enum Signal {
    Interrupt,
    Terminate,
    WindowChange,
    User1,
    User2,
}

/// The action bound to a key press while the visualizer runs.
pub open spec fn key_action(key: Key, ctrl: bool, release: bool) -> Option<ActionEvent> {
    if release {
        None
    } else if ctrl && key == Key::Char('c') {
        Some(ActionEvent::Quit)
    } else {
        match key {
            Key::Char('q') | Key::Esc => Some(ActionEvent::Quit),
            Key::Up => Some(ActionEvent::IncreaseSensitivity),
            Key::Down => Some(ActionEvent::DecreaseSensitivity),
            Key::Left => Some(ActionEvent::DecreaseBars),
            Key::Right => Some(ActionEvent::IncreaseBars),
            Key::Char('r') => Some(ActionEvent::ReloadConfig),
            Key::Char('c') => Some(ActionEvent::ReloadColors),
            Key::Char('f') => Some(ActionEvent::CycleForegroundColor),
            Key::Char('b') => Some(ActionEvent::CycleBackgroundColor),
            Key::Char('o') => Some(ActionEvent::CycleOrientation),
            Key::Char('m') => Some(ActionEvent::OpenMenu),
            _ => None,
        }
    }
}

/// Maps a key event to its action. Key releases are ignored so that
/// terminals reporting both press and release do not trigger twice; Ctrl+C
/// quits.
pub fn action_for_key(key: Key, ctrl: bool, release: bool) -> (r: Option<ActionEvent>)
    ensures
        r == key_action(key, ctrl, release),
{
    if release {
        return None;
    }
    if ctrl && key == Key::Char('c') {
        return Some(ActionEvent::Quit);
    }
    match key {
        Key::Char('q') | Key::Esc => Some(ActionEvent::Quit),
        Key::Up => Some(ActionEvent::IncreaseSensitivity),
        Key::Down => Some(ActionEvent::DecreaseSensitivity),
        Key::Left => Some(ActionEvent::DecreaseBars),
        Key::Right => Some(ActionEvent::IncreaseBars),
        Key::Char('r') => Some(ActionEvent::ReloadConfig),
        Key::Char('c') => Some(ActionEvent::ReloadColors),
        Key::Char('f') => Some(ActionEvent::CycleForegroundColor),
        Key::Char('b') => Some(ActionEvent::CycleBackgroundColor),
        Key::Char('o') => Some(ActionEvent::CycleOrientation),
        Key::Char('m') => Some(ActionEvent::OpenMenu),
        _ => None,
    }
}

/// Maps a signal to its action: interrupt and terminate quit, a window
/// change re-lays the bars out, and the two user signals reload the whole
/// configuration or only its colours.
pub fn action_for_signal(sig: Signal) -> (r: ActionEvent)
    ensures
        r == action_for_signal_spec(sig),
{
    match sig {
        Signal::Interrupt | Signal::Terminate => ActionEvent::Quit,
        Signal::WindowChange => ActionEvent::Resize,
        Signal::User1 => ActionEvent::ReloadConfig,
        Signal::User2 => ActionEvent::ReloadColors,
    }
}

/// Whether the signal listener stops after forwarding this signal's action.
pub fn ends_listening(sig: Signal) -> (r: bool)
    ensures
        r == (action_for_signal_spec(sig) == ActionEvent::Quit),
{
    match sig {
        Signal::Interrupt | Signal::Terminate => true,
        _ => false,
    }
}

pub open spec fn action_for_signal_spec(sig: Signal) -> ActionEvent {
    match sig {
        Signal::Interrupt | Signal::Terminate => ActionEvent::Quit,
        Signal::WindowChange => ActionEvent::Resize,
        Signal::User1 => ActionEvent::ReloadConfig,
        Signal::User2 => ActionEvent::ReloadColors,
    }
}

/// Every signal is answered with an action, and only a request to stop the
/// process quits; a released key never acts.
pub proof fn lemma_only_stop_signals_quit(sig: Signal, key: Key, ctrl: bool)
    ensures
        (action_for_signal_spec(sig) == ActionEvent::Quit) <==> (sig == Signal::Interrupt || sig
            == Signal::Terminate),
        key_action(key, ctrl, true) is None,
{
}

/// Which way an arrow key points on the vertical axis: up is `1`, down is
/// `-1`, anything else `0`.
pub open spec fn vertical_direction(key: Key) -> int {
    if key == Key::Up { 1 } else if key == Key::Down { -1 } else { 0 }
}

/// Which way an arrow key points on the horizontal axis: right is `1`,
/// left is `-1`, anything else `0`.
pub open spec fn horizontal_direction(key: Key) -> int {
    if key == Key::Right { 1 } else if key == Key::Left { -1 } else { 0 }
}

/// How an action moves the sensitivity: up `1`, down `-1`, not at all `0`.
pub open spec fn sensitivity_change(a: Option<ActionEvent>) -> int {
    if a == Some(ActionEvent::IncreaseSensitivity) {
        1
    } else if a == Some(ActionEvent::DecreaseSensitivity) {
        -1
    } else {
        0
    }
}

/// How an action moves the bar count: more `1`, fewer `-1`, not at all `0`.
pub open spec fn bar_change(a: Option<ActionEvent>) -> int {
    if a == Some(ActionEvent::IncreaseBars) {
        1
    } else if a == Some(ActionEvent::DecreaseBars) {
        -1
    } else {
        0
    }
}

/// The letter of the key that asks for an action, if a letter asks for it:
/// each is the initial of what it does (quit, reload, colours, foreground,
/// background, orientation, menu).
pub open spec fn action_letter(a: ActionEvent) -> Option<char> {
    match a {
        ActionEvent::Quit => Some('q'),
        ActionEvent::ReloadConfig => Some('r'),
        ActionEvent::ReloadColors => Some('c'),
        ActionEvent::CycleForegroundColor => Some('f'),
        ActionEvent::CycleBackgroundColor => Some('b'),
        ActionEvent::CycleOrientation => Some('o'),
        ActionEvent::OpenMenu => Some('m'),
        _ => None,
    }
}

/// The arrow keys: pressed (not released), up raises the sensitivity and
/// down lowers it, right asks for more bars and left for fewer, whether or
/// not Ctrl is held; no other key changes the sensitivity or the bar count.
pub proof fn lemma_arrows_move_in_their_direction(key: Key, ctrl: bool)
    ensures
        sensitivity_change(key_action(key, ctrl, false)) == vertical_direction(key),
        bar_change(key_action(key, ctrl, false)) == horizontal_direction(key),
        vertical_direction(key) != 0 ==> key_action(key, ctrl, false) is Some,
        horizontal_direction(key) != 0 ==> key_action(key, ctrl, false) is Some,
{
}

/// The lettered keys: pressing the initial letter of an action (without
/// Ctrl) asks for that action, a letter asks for nothing else, Ctrl
/// changes nothing but makes Ctrl+C quit, and Esc quits; the keys that are
/// neither letters, arrows nor Esc ask for nothing.
pub proof fn lemma_letters_name_their_actions(a: ActionEvent, c: char, key: Key, ctrl: bool)
    ensures
        action_letter(a) matches Some(l) ==> key_action(Key::Char(l), false, false) == Some(a),
        key_action(Key::Char(c), false, false) matches Some(b) ==> action_letter(b) == Some(c),
        key != Key::Char('c') ==> key_action(key, true, false) == key_action(key, false, false),
        key_action(Key::Char('c'), true, false) == Some(ActionEvent::Quit),
        key_action(Key::Esc, false, false) == Some(ActionEvent::Quit),
        !(key is Char) && key != Key::Esc && vertical_direction(key) == 0 && horizontal_direction(key) == 0
            ==> key_action(key, ctrl, false) is None,
{
}

/// Each signal asks for what a key asks for: the stop signals for what `q`
/// does, the first user signal for what `r` does, the second for what `c`
/// does; a window change asks for a new layout, which no key does.
pub proof fn lemma_signals_match_keys(key: Key, ctrl: bool)
    ensures
        Some(action_for_signal_spec(Signal::Interrupt)) == key_action(Key::Char('q'), false, false),
        Some(action_for_signal_spec(Signal::Terminate)) == key_action(Key::Char('q'), false, false),
        Some(action_for_signal_spec(Signal::User1)) == key_action(Key::Char('r'), false, false),
        Some(action_for_signal_spec(Signal::User2)) == key_action(Key::Char('c'), false, false),
        action_for_signal_spec(Signal::WindowChange) == ActionEvent::Resize,
        key_action(key, ctrl, false) != Some(ActionEvent::Resize),
{
}

} // verus!
