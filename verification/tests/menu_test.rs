use zava::config::{InputMethod, Orientation, OutputMethod, TerminalColor, WaveformStyle};
use zava::control::BarSettings;
use zava::events::Key;
use zava::menu::{
    click_to_index, current_palette, menu_step, palette_colors, palette_name, push_typed, reset_bars_row,
    row_takes_value, set_bars_row, set_framerate, set_spacing, set_width_row, step_background,
    step_bars_row, step_foreground, step_framerate, step_input_method, step_noise_percent, step_orientation,
    step_output_method, step_palette, step_spacing, step_waveform_style, step_width_row, ListArea, MenuAction,
    MenuDir, MenuEvent, MenuState, DISCARD_EXIT, ITEM_COUNT, SAVE_EXIT,
};

/// Same parse as the menu's typed-value entry.
fn parse_typed(buf: &str) -> Option<f64> {
    if buf.is_empty() {
        None
    } else {
        buf.parse::<f64>().ok()
    }
}

fn defaults() -> BarSettings {
    BarSettings { bars: 0, bar_width: 2, bar_spacing: 1, wrap_bars: false }
}

#[test]
fn click_positions_map_to_list_rows() {
    let area = ListArea::new(2, 7, 72, 21);
    assert_eq!(click_to_index(&area, 0, 3, 8), Some(0));
    assert_eq!(click_to_index(&area, 0, 5, 18), Some(10));
    assert_eq!(click_to_index(&area, 0, 100, 18), None);
    assert_eq!(click_to_index(&area, 0, 3, 7), None);
    assert_eq!(click_to_index(&area, 0, 3, 27), None);
    assert_eq!(click_to_index(&area, 0, 3, 100), None);
}

#[test]
fn click_to_index_respects_scroll_offset() {
    let area = ListArea::new(2, 7, 72, 21);
    assert_eq!(click_to_index(&area, 5, 3, 8), Some(5));
    assert_eq!(click_to_index(&area, 5, 3, 10), Some(7));
}

#[test]
fn typed_entry_accepts_digits_and_one_dot() {
    let mut buf = String::new();
    assert!(push_typed(&mut buf, '1'));
    assert!(push_typed(&mut buf, '2'));
    assert!(push_typed(&mut buf, '.'));
    assert!(push_typed(&mut buf, '5'));
    assert!(!push_typed(&mut buf, '.'), "a second dot must be rejected");
    assert!(!push_typed(&mut buf, 'x'), "letters must be rejected");
    assert_eq!(buf, "12.5");
    assert_eq!(parse_typed(&buf), Some(12.5));
    assert_eq!(parse_typed(""), None);
    assert_eq!(parse_typed("."), None);
}

#[test]
fn typed_zero_means_auto_bars() {
    let s = BarSettings { bars: 40, ..defaults() };
    let r = set_bars_row(&s, 100, true, 0);
    assert_eq!(r.bars, 0);
}

#[test]
fn set_rows_clamp_typed_values() {
    // Bar Spacing, typed 99.
    assert_eq!(set_spacing(99), 16);
    // Framerate, typed 1 and 9999.
    assert_eq!(set_framerate(1), 10);
    assert_eq!(set_framerate(9999), 240);
    // Non-numeric rows (Autosens, Waveform) are not type-editable.
    assert!(!row_takes_value(1));
    assert!(!row_takes_value(15));
    // The numeric rows are.
    for i in [0usize, 2, 3, 4, 5, 16, 17, 18] {
        assert!(row_takes_value(i), "row {i} should take a typed value");
    }
}

#[test]
fn reset_restores_the_selected_rows_default() {
    let s = BarSettings { bars: 24, bar_width: 8, bar_spacing: 3, wrap_bars: false };
    let r = reset_bars_row(&s);
    assert_eq!(r.bars, 0);
    assert_eq!(r.bar_width, 2);
    assert_eq!(r.bar_spacing, 1);

    // The Gradient Palette row resets to the first palette.
    let ocean = palette_colors(2);
    assert_eq!(current_palette(&ocean), 2);
    assert_eq!(palette_colors(0)[0], TerminalColor::Rgb(0x59, 0xcc, 0x33));
}

#[test]
fn bars_row_in_auto_mode_moves_the_width() {
    let s = defaults();
    // Right widens, Left narrows.
    assert_eq!(step_bars_row(&s, 100, false, MenuDir::Inc).bar_width, 3);
    assert_eq!(step_bars_row(&s, 100, false, MenuDir::Dec).bar_width, 1);
    // At width 1 without wrapping nothing changes.
    let one = BarSettings { bar_width: 1, ..s };
    assert_eq!(step_bars_row(&one, 100, false, MenuDir::Dec), one);
    // With wrapping it jumps to the widest sane width (100 cells: 24).
    let wrap = BarSettings { bar_width: 1, wrap_bars: true, ..s };
    assert_eq!(step_bars_row(&wrap, 100, false, MenuDir::Dec).bar_width, 24);
}

#[test]
fn bars_row_with_a_fixed_count_stays_within_the_fit() {
    let s = BarSettings { bars: 33, bar_width: 2, bar_spacing: 1, wrap_bars: false };
    // 100 cells hold 33 bars; stereo keeps it even (32).
    assert_eq!(step_bars_row(&s, 100, false, MenuDir::Inc).bars, 33);
    assert_eq!(step_bars_row(&s, 100, true, MenuDir::Inc).bars, 32);
    let wrap = BarSettings { wrap_bars: true, ..s };
    assert_eq!(step_bars_row(&wrap, 100, false, MenuDir::Inc).bars, 1);
    let one = BarSettings { bars: 1, wrap_bars: true, ..s };
    assert_eq!(step_bars_row(&one, 100, false, MenuDir::Dec).bars, 33);
    // A typed count is capped to what fits and kept at least 1.
    assert_eq!(set_bars_row(&s, 100, false, 500).bars, 33);
    assert_eq!(set_bars_row(&s, 100, false, 7).bars, 7);
}

#[test]
fn width_row_is_clamped_and_refits_the_count() {
    let s = BarSettings { bars: 33, bar_width: 2, bar_spacing: 1, wrap_bars: false };
    let wider = step_width_row(&s, 100, false, MenuDir::Inc);
    assert_eq!(wider.bar_width, 3);
    // 3-cell bars: (100 + 1) / 4 = 25 fit.
    assert_eq!(wider.bars, 25);
    let narrow = step_width_row(&BarSettings { bar_width: 1, ..s }, 100, false, MenuDir::Dec);
    assert_eq!(narrow.bar_width, 1);
    // A typed width above the widest sane width is clamped to it.
    assert_eq!(set_width_row(&defaults(), 100, false, 500).bar_width, 24);
    assert_eq!(set_width_row(&defaults(), 100, false, -3).bar_width, 1);
}

#[test]
fn spacing_framerate_and_noise_steps_clamp() {
    assert_eq!(step_spacing(16, MenuDir::Inc), 16);
    assert_eq!(step_spacing(0, MenuDir::Dec), 0);
    assert_eq!(step_spacing(5, MenuDir::Inc), 6);
    assert_eq!(step_spacing(isize::MAX as usize, MenuDir::Dec), 16);
    assert_eq!(step_spacing(usize::MAX, MenuDir::Inc), 0);
    assert_eq!(step_spacing(usize::MAX, MenuDir::Dec), 0);
    assert_eq!(step_framerate(240, MenuDir::Inc), 240);
    assert_eq!(step_framerate(12, MenuDir::Dec), 10);
    assert_eq!(step_framerate(60, MenuDir::Inc), 65);
    assert_eq!(step_noise_percent(98, MenuDir::Inc), 100);
    assert_eq!(step_noise_percent(3, MenuDir::Dec), 0);
    assert_eq!(set_spacing(-4), 0);
}

#[test]
fn cycles_wrap_in_both_directions() {
    assert_eq!(step_orientation(Orientation::Horizontal, MenuDir::Inc), Orientation::Bottom);
    assert_eq!(step_orientation(Orientation::Bottom, MenuDir::Dec), Orientation::Horizontal);
    assert_eq!(step_input_method(InputMethod::Test, MenuDir::Inc), InputMethod::Pipewire);
    assert_eq!(step_input_method(InputMethod::Pipewire, MenuDir::Inc), InputMethod::Pulse);
    // On a terminal `raw` is not offered.
    assert_eq!(step_output_method(OutputMethod::Ncurses, MenuDir::Inc, true), OutputMethod::Noncurses);
    assert_eq!(step_output_method(OutputMethod::Ncurses, MenuDir::Inc, false), OutputMethod::Raw);
    assert_eq!(step_foreground(&TerminalColor::Default, MenuDir::Inc), TerminalColor::White);
    assert_eq!(step_foreground(&TerminalColor::Rgb(1, 2, 3), MenuDir::Dec), TerminalColor::Cyan);
    assert_eq!(step_background(&TerminalColor::White, MenuDir::Inc), TerminalColor::Default);
    assert_eq!(step_waveform_style(WaveformStyle::Line, MenuDir::Inc), WaveformStyle::Area);
    assert_eq!(step_waveform_style(WaveformStyle::Line, MenuDir::Dec), WaveformStyle::Line);
}

#[test]
fn palette_row_cycles_the_palettes() {
    let cava = palette_colors(0);
    assert_eq!(palette_name(current_palette(&cava)), "cava");
    assert_eq!(step_palette(&cava, MenuDir::Inc), palette_colors(1));
    assert_eq!(step_palette(&cava, MenuDir::Dec), palette_colors(5));
    // A custom gradient counts as the first palette.
    assert_eq!(current_palette(&[TerminalColor::Red]), 0);
    assert_eq!(palette_name(5), "twilight");
}

fn key(k: Key) -> MenuEvent {
    MenuEvent::Key { key: k, ctrl: false, press: true }
}

#[test]
fn menu_navigation_and_actions() {
    let mut st = MenuState { selected: 0, edit: None };
    assert!(matches!(menu_step(&mut st, key(Key::Up)), MenuAction::Nothing));
    assert_eq!(st.selected, 0);
    menu_step(&mut st, key(Key::Down));
    assert_eq!(st.selected, 1);
    assert!(matches!(menu_step(&mut st, key(Key::Right)), MenuAction::Adjust(1, MenuDir::Inc)));
    assert!(matches!(menu_step(&mut st, key(Key::Char('r'))), MenuAction::Reset(1)));
    menu_step(&mut st, key(Key::End));
    assert_eq!(st.selected, ITEM_COUNT - 1);
    assert!(matches!(menu_step(&mut st, key(Key::Enter)), MenuAction::Discard));
    menu_step(&mut st, key(Key::Up));
    assert_eq!(st.selected, SAVE_EXIT);
    assert!(matches!(menu_step(&mut st, key(Key::Enter)), MenuAction::Close));
    assert!(matches!(menu_step(&mut st, key(Key::Left)), MenuAction::Nothing));
    assert!(matches!(menu_step(&mut st, key(Key::Esc)), MenuAction::Close));
    assert!(matches!(
        menu_step(&mut st, MenuEvent::Key { key: Key::Char('c'), ctrl: true, press: true }),
        MenuAction::Close
    ));
    // Releases are ignored.
    assert!(matches!(
        menu_step(&mut st, MenuEvent::Key { key: Key::Esc, ctrl: false, press: false }),
        MenuAction::Nothing
    ));
    assert_eq!(DISCARD_EXIT, ITEM_COUNT - 1);
}

#[test]
fn menu_typed_value_flow() {
    let mut st = MenuState { selected: 5, edit: None };
    menu_step(&mut st, key(Key::Char('1')));
    assert_eq!(st.edit.as_deref(), Some("1"));
    menu_step(&mut st, key(Key::Char('2')));
    menu_step(&mut st, key(Key::Char('x')));
    menu_step(&mut st, key(Key::Char('0')));
    menu_step(&mut st, key(Key::Backspace));
    assert_eq!(st.edit.as_deref(), Some("12"));
    match menu_step(&mut st, key(Key::Enter)) {
        MenuAction::Apply(i, t) => {
            assert_eq!(i, 5);
            assert_eq!(t, "12");
        }
        _ => panic!("Enter must apply the typed value"),
    }
    assert!(st.edit.is_none());
    // A row without a typed value ignores digits.
    let mut st = MenuState { selected: 1, edit: None };
    menu_step(&mut st, key(Key::Char('3')));
    assert!(st.edit.is_none());
    // Esc cancels an entry without closing the menu.
    let mut st = MenuState { selected: 2, edit: None };
    menu_step(&mut st, key(Key::Char('.')));
    assert!(matches!(menu_step(&mut st, key(Key::Esc)), MenuAction::Nothing));
    assert!(st.edit.is_none());
}

#[test]
fn menu_clicks_select_and_nudge() {
    let area = ListArea::new(2, 7, 72, 40);
    let mut st = MenuState { selected: 0, edit: None };
    // A click on the label of row 3 only selects it.
    let a = menu_step(&mut st, MenuEvent::Click { column: 5, row: 11, area, offset: 0 });
    assert!(matches!(a, MenuAction::Nothing));
    assert_eq!(st.selected, 3);
    // A click in the value column nudges it up.
    let a = menu_step(&mut st, MenuEvent::Click { column: 30, row: 11, area, offset: 0 });
    assert!(matches!(a, MenuAction::Adjust(3, MenuDir::Inc)));
    // Clicking the Save row leaves.
    let a = menu_step(&mut st, MenuEvent::Click { column: 5, row: 8 + SAVE_EXIT as u16, area, offset: 0 });
    assert!(matches!(a, MenuAction::Close));
    // Blank space below the list selects nothing.
    let before = st.selected;
    let a = menu_step(&mut st, MenuEvent::Click { column: 5, row: 45, area, offset: 0 });
    assert!(matches!(a, MenuAction::Nothing));
    assert_eq!(st.selected, before);
    menu_step(&mut st, MenuEvent::ScrollDown);
    assert_eq!(st.selected, (before + 1).min(ITEM_COUNT - 1));
}
