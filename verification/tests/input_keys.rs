use sqwok::tui::input::{
    chat_command, command_bar_command, editing_command, picker_command, route, BarCommand, ChatCommand,
    EditCommand, InputEvent, KeyCode, KeyInput, Modifiers, PickerCommand, Route,
};

fn mods(shift: bool, ctrl: bool, alt: bool) -> Modifiers {
    Modifiers { shift, ctrl, alt, other: false }
}

fn k(code: KeyCode) -> InputEvent {
    InputEvent::Key(KeyInput { code, mods: mods(false, false, false) })
}

fn km(code: KeyCode, m: Modifiers) -> InputEvent {
    InputEvent::Key(KeyInput { code, mods: m })
}

#[test]
fn routing_priority() {
    assert_eq!(route(true, true, true, true), Route::CommandBar);
    assert_eq!(route(false, true, true, true), Route::Modal);
    assert_eq!(route(false, false, false, true), Route::Picker);
    assert_eq!(route(false, false, true, true), Route::Editing);
    assert_eq!(route(false, false, true, false), Route::Chat);
}

#[test]
fn picker_keys() {
    assert_eq!(picker_command(km(KeyCode::Char('c'), mods(false, true, false))), PickerCommand::Quit);
    assert_eq!(picker_command(k(KeyCode::Char('i'))), PickerCommand::AcceptFirstInvitation);
    assert_eq!(picker_command(k(KeyCode::Char('/'))), PickerCommand::OpenCommandBar);
    assert_eq!(picker_command(k(KeyCode::Up)), PickerCommand::SelectPrev);
    assert_eq!(picker_command(k(KeyCode::Down)), PickerCommand::SelectNext);
    assert_eq!(picker_command(k(KeyCode::Enter)), PickerCommand::JoinSelected);
    assert_eq!(picker_command(k(KeyCode::Char('x'))), PickerCommand::Nothing);
    assert_eq!(picker_command(InputEvent::Other), PickerCommand::Nothing);
}

#[test]
fn chat_keys() {
    let alt = mods(false, false, true);
    assert_eq!(chat_command(km(KeyCode::Char('c'), mods(false, true, false))), ChatCommand::Quit);
    assert_eq!(chat_command(km(KeyCode::Char('\\'), alt)), ChatCommand::SplitVertical);
    assert_eq!(chat_command(km(KeyCode::Char('-'), alt)), ChatCommand::SplitHorizontal);
    assert_eq!(chat_command(km(KeyCode::Char('w'), alt)), ChatCommand::ClosePane);
    assert_eq!(chat_command(km(KeyCode::Right, alt)), ChatCommand::FocusNextPane);
    assert_eq!(chat_command(km(KeyCode::Left, alt)), ChatCommand::FocusPrevPane);
    assert_eq!(chat_command(k(KeyCode::Right)), ChatCommand::ExpandThread);
    assert_eq!(chat_command(k(KeyCode::Left)), ChatCommand::CollapseThread);
    assert_eq!(chat_command(k(KeyCode::Enter)), ChatCommand::Activate);
    assert_eq!(chat_command(k(KeyCode::End)), ChatCommand::JumpToLatest);
    assert_eq!(chat_command(k(KeyCode::Char('/'))), ChatCommand::OpenCommandBar);
    assert_eq!(chat_command(k(KeyCode::Up)), ChatCommand::ScrollUp);
    assert_eq!(chat_command(km(KeyCode::Up, mods(true, false, false))), ChatCommand::Nothing);
}

#[test]
fn editing_keys() {
    let ctrl = mods(false, true, false);
    let alt = mods(false, false, true);
    assert_eq!(editing_command(km(KeyCode::Char('c'), ctrl), false), EditCommand::Quit);
    assert_eq!(editing_command(km(KeyCode::Char('a'), ctrl), false), EditCommand::CursorToStart);
    assert_eq!(editing_command(km(KeyCode::Char('e'), ctrl), false), EditCommand::CursorToEnd);
    assert_eq!(editing_command(km(KeyCode::Char('b'), alt), false), EditCommand::WordBack);
    assert_eq!(editing_command(km(KeyCode::Char('d'), ctrl), false), EditCommand::DeleteForward);
    assert_eq!(editing_command(km(KeyCode::Backspace, alt), false), EditCommand::DeleteWordBack);
    assert_eq!(editing_command(k(KeyCode::Char('x')), false), EditCommand::Type('x'));
    assert_eq!(editing_command(km(KeyCode::Char('X'), mods(true, false, false)), false), EditCommand::Type('X'));
    assert_eq!(editing_command(km(KeyCode::Char('x'), ctrl), false), EditCommand::Nothing);
    assert_eq!(editing_command(k(KeyCode::Up), false), EditCommand::MoveSelectionUp);
    assert_eq!(editing_command(k(KeyCode::Up), true), EditCommand::PopupUp);
    assert_eq!(editing_command(k(KeyCode::Enter), false), EditCommand::Send);
    assert_eq!(editing_command(k(KeyCode::Enter), true), EditCommand::CompleteMention);
    assert_eq!(editing_command(k(KeyCode::Tab), true), EditCommand::CompleteMention);
    assert_eq!(editing_command(k(KeyCode::Tab), false), EditCommand::Nothing);
    assert_eq!(editing_command(k(KeyCode::Esc), true), EditCommand::ClosePopup);
    assert_eq!(editing_command(k(KeyCode::Esc), false), EditCommand::StopEditing);
    assert_eq!(editing_command(k(KeyCode::End), false), EditCommand::JumpToLatest);
}

#[test]
fn command_bar_keys() {
    assert_eq!(command_bar_command(k(KeyCode::Esc)), BarCommand::Close);
    assert_eq!(command_bar_command(k(KeyCode::Enter)), BarCommand::Execute);
    assert_eq!(command_bar_command(k(KeyCode::Tab)), BarCommand::Complete);
    assert_eq!(command_bar_command(k(KeyCode::Char('q'))), BarCommand::Type('q'));
    assert_eq!(command_bar_command(km(KeyCode::Char('q'), mods(false, true, false))), BarCommand::Nothing);
    assert_eq!(command_bar_command(k(KeyCode::Backspace)), BarCommand::Backspace);
}
