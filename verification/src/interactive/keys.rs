//! What a key press does in the interactive view.
//!
//! The decision is a function from the element in focus, the key and what the
//! view currently shows to the next element in focus and an action. Running
//! the action on the tree and binary widgets is left to the caller; the
//! history table is handled here.
use vstd::prelude::*;

use crate::interactive::ui::ElementInFocus;

verus! {

/// A key, as far as the interactive view tells keys apart.
#[derive(Clone, Copy, Debug, PartialEq, Eq)]
pub enum Key {
    Char(char),
    Tab,
    BackTab,
    Esc,
    Enter,
    Up,
    Down,
    Left,
    Right,
    Home,
    End,
    PageUp,
    PageDown,
    Backspace,
    Delete,
    Other,
}

/// Whether a key event reports the key going down, held down or let go.
#[derive(Clone, Copy, Debug, PartialEq, Eq)]
pub enum KeyKind {
    Press,
    Repeat,
    Release,
}

/// A key event: the key, whether the control modifier was held, and its kind.
#[derive(Clone, Copy, Debug, PartialEq, Eq)]
pub struct KeyPress {
    pub key: Key,
    pub control: bool,
    pub kind: KeyKind,
}

/// What kind of payload the selected history entry holds.
#[derive(Clone, Copy, Debug, PartialEq, Eq)]
pub enum PayloadKind {
    Binary,
    Json,
    MessagePack,
    String,
    /// No topic or no entry is selected.
    Missing,
}

/// What the view shows at the moment of the key press.
#[derive(Clone, Debug)]
pub struct KeyContext {
    /// The topic selected in the topic overview.
    pub selected_topic: Option<String>,
    /// Whether the selected entry has a payload with its own view.
    pub can_switch_to_payload: bool,
    /// Whether the selected topic has at least two entries.
    pub can_switch_to_history_table: bool,
    /// The kind of the selected payload.
    pub payload: PayloadKind,
    /// Height of the area the topic overview was last drawn in.
    pub overview_height: u16,
}

/// Which match a search step selects, relative to the selected topic.
#[derive(Clone, Copy, Debug, PartialEq, Eq)]
pub enum SearchSelection {
    Before,
    Stay,
    After,
}

/// A command for a tree widget (the topic overview or a JSON payload).
#[derive(Clone, Copy, Debug, PartialEq, Eq)]
pub enum TreeCommand {
    Unselect,
    ToggleSelected,
    Down,
    Up,
    Left,
    Right,
    First,
    Last,
    ScrollUp(usize),
    ScrollDown(usize),
}

/// A command for the binary payload widget.
#[derive(Clone, Copy, Debug, PartialEq, Eq)]
pub enum BinaryCommand {
    Unselect,
    Down,
    Up,
    Left,
    Right,
    SelectAddress(usize),
    FirstInRow,
    LastInRow,
    ScrollUp(usize),
    ScrollDown(usize),
}

/// A command for the history table.
#[derive(Clone, Copy, Debug, PartialEq, Eq)]
pub enum TableCommand {
    Unselect,
    Next,
    Previous,
    First,
    Last,
    ScrollUp(usize),
    ScrollDown(usize),
}

/// What a key press asks for.
#[derive(Clone, Debug, PartialEq, Eq)]
pub enum KeyAction {
    /// Leave the interactive view.
    Quit,
    /// Draw again; nothing else to do.
    Redraw,
    /// Nothing changed.
    Ignore,
    /// Run a command on the topic overview tree.
    Overview(TreeCommand),
    /// Run a command on the JSON or MessagePack payload tree.
    PayloadTree(TreeCommand),
    /// Run a command on the binary payload view.
    Binary(BinaryCommand),
    /// Run a command on the history table.
    Table(TableCommand),
    /// Remove the history entry the table shows as selected, unless it is the newest.
    RemoveHistoryEntry,
    /// Open every known topic and each of its parents in the topic overview.
    OpenAllTopics,
    /// Close every topic in the topic overview.
    CloseAllTopics,
    /// Append the lowercase form of the character to the search and select a match.
    SearchType(char),
    /// Remove the last character of the search and select a match.
    SearchDelete,
    /// Select another match of the search.
    SearchStep(SearchSelection),
    /// Select the next match, close the tree and open every match.
    SearchOpenAll,
    /// Empty the search.
    SearchClear,
    /// Clean the retained messages of the topic and every topic below it;
    /// the focus leaves the popup once that succeeded.
    CleanBelow(String),
}

/// Whether the view is drawn again, skipped or left.
#[derive(Clone, Copy, Debug, PartialEq, Eq)]
pub enum Refresh {
    Update,
    Skip,
    Quit,
}

/// The rows a page key scrolls the topic overview by.
pub open spec fn page_jump(height: u16) -> usize {
    (height / 3) as usize
}

/// The arrow keys and their vim counterparts on a tree.
pub open spec fn tree_navigation(key: Key) -> Option<TreeCommand> {
    if key == Key::Down || key == Key::Char('j') {
        Some(TreeCommand::Down)
    } else if key == Key::Up || key == Key::Char('k') {
        Some(TreeCommand::Up)
    } else if key == Key::Left || key == Key::Char('h') {
        Some(TreeCommand::Left)
    } else if key == Key::Right || key == Key::Char('l') {
        Some(TreeCommand::Right)
    } else {
        None
    }
}

/// Page up: the key itself or control and `u`.
pub open spec fn is_page_up(press: KeyPress) -> bool {
    press.key == Key::PageUp || (press.key == Key::Char('u') && press.control)
}

/// Page down: the key itself or control and `d`.
pub open spec fn is_page_down(press: KeyPress) -> bool {
    press.key == Key::PageDown || (press.key == Key::Char('d') && press.control)
}

/// A key in the topic overview.
pub open spec fn overview_key(press: KeyPress, ctx: KeyContext) -> (ElementInFocus, KeyAction) {
    let key = press.key;
    let stay = ElementInFocus::TopicOverview;
    let jump = page_jump(ctx.overview_height);
    if key == Key::Char('q') {
        (stay, KeyAction::Quit)
    } else if key == Key::Tab && ctx.can_switch_to_payload {
        (ElementInFocus::Payload, KeyAction::Redraw)
    } else if (key == Key::Tab || key == Key::BackTab) && ctx.can_switch_to_history_table {
        (ElementInFocus::HistoryTable, KeyAction::Redraw)
    } else if key == Key::Char('/') {
        (ElementInFocus::TopicSearch, KeyAction::Redraw)
    } else if key == Key::Esc {
        (stay, KeyAction::Overview(TreeCommand::Unselect))
    } else if key == Key::Enter || key == Key::Char(' ') {
        (stay, KeyAction::Overview(TreeCommand::ToggleSelected))
    } else if tree_navigation(key) is Some {
        (stay, KeyAction::Overview(tree_navigation(key)->0))
    } else if key == Key::Home {
        (stay, KeyAction::Overview(TreeCommand::First))
    } else if key == Key::End {
        (stay, KeyAction::Overview(TreeCommand::Last))
    } else if is_page_up(press) {
        (stay, KeyAction::Overview(TreeCommand::ScrollUp(jump)))
    } else if is_page_down(press) {
        (stay, KeyAction::Overview(TreeCommand::ScrollDown(jump)))
    } else if key == Key::Char('o') {
        (stay, KeyAction::OpenAllTopics)
    } else if key == Key::Char('O') {
        (stay, KeyAction::CloseAllTopics)
    } else if key == Key::Backspace || key == Key::Delete {
        match ctx.selected_topic {
            Some(topic) => (ElementInFocus::CleanRetainedPopup(topic), KeyAction::Redraw),
            None => (stay, KeyAction::Ignore),
        }
    } else {
        (stay, KeyAction::Ignore)
    }
}

/// A key while typing a search.
pub open spec fn search_key(press: KeyPress, ctx: KeyContext) -> (ElementInFocus, KeyAction) {
    let stay = ElementInFocus::TopicSearch;
    let jump = page_jump(ctx.overview_height);
    match press.key {
        Key::Char(c) => (stay, KeyAction::SearchType(c)),
        Key::Backspace => (stay, KeyAction::SearchDelete),
        Key::Up => (stay, KeyAction::SearchStep(SearchSelection::Before)),
        Key::Down => (stay, KeyAction::SearchStep(SearchSelection::After)),
        Key::Enter => (stay, KeyAction::SearchOpenAll),
        Key::Esc => (ElementInFocus::TopicOverview, KeyAction::SearchClear),
        Key::PageUp => (stay, KeyAction::Overview(TreeCommand::ScrollUp(jump))),
        Key::PageDown => (stay, KeyAction::Overview(TreeCommand::ScrollDown(jump))),
        Key::Tab => (ElementInFocus::TopicOverview, KeyAction::Redraw),
        _ => (stay, KeyAction::Ignore),
    }
}

/// A key on a binary payload.
pub open spec fn binary_key(press: KeyPress) -> KeyAction {
    let key = press.key;
    if key == Key::Esc {
        KeyAction::Binary(BinaryCommand::Unselect)
    } else if key == Key::Down || key == Key::Char('j') {
        KeyAction::Binary(BinaryCommand::Down)
    } else if key == Key::Up || key == Key::Char('k') {
        KeyAction::Binary(BinaryCommand::Up)
    } else if key == Key::Left || key == Key::Char('h') {
        KeyAction::Binary(BinaryCommand::Left)
    } else if key == Key::Right || key == Key::Char('l') {
        KeyAction::Binary(BinaryCommand::Right)
    } else if key == Key::Home && press.control {
        KeyAction::Binary(BinaryCommand::SelectAddress(0))
    } else if key == Key::End && press.control {
        KeyAction::Binary(BinaryCommand::SelectAddress(usize::MAX))
    } else if key == Key::Home {
        KeyAction::Binary(BinaryCommand::FirstInRow)
    } else if key == Key::End {
        KeyAction::Binary(BinaryCommand::LastInRow)
    } else if is_page_up(press) {
        KeyAction::Binary(BinaryCommand::ScrollUp(3))
    } else if is_page_down(press) {
        KeyAction::Binary(BinaryCommand::ScrollDown(3))
    } else {
        KeyAction::Ignore
    }
}

/// A key on a JSON or MessagePack payload.
pub open spec fn payload_tree_key(press: KeyPress) -> KeyAction {
    let key = press.key;
    if key == Key::Esc {
        KeyAction::PayloadTree(TreeCommand::Unselect)
    } else if key == Key::Enter || key == Key::Char(' ') {
        KeyAction::PayloadTree(TreeCommand::ToggleSelected)
    } else if tree_navigation(key) is Some {
        KeyAction::PayloadTree(tree_navigation(key)->0)
    } else if key == Key::Home {
        KeyAction::PayloadTree(TreeCommand::First)
    } else if key == Key::End {
        KeyAction::PayloadTree(TreeCommand::Last)
    } else if is_page_up(press) {
        KeyAction::PayloadTree(TreeCommand::ScrollUp(3))
    } else if is_page_down(press) {
        KeyAction::PayloadTree(TreeCommand::ScrollDown(3))
    } else {
        KeyAction::Ignore
    }
}

/// A key in the payload view.
pub open spec fn payload_key(press: KeyPress, ctx: KeyContext) -> (ElementInFocus, KeyAction) {
    let key = press.key;
    let stay = ElementInFocus::Payload;
    if key == Key::Char('q') {
        (stay, KeyAction::Quit)
    } else if key == Key::Tab && ctx.can_switch_to_history_table {
        (ElementInFocus::HistoryTable, KeyAction::Redraw)
    } else if key == Key::Tab || key == Key::BackTab {
        (ElementInFocus::TopicOverview, KeyAction::Redraw)
    } else {
        match ctx.payload {
            PayloadKind::Binary => (stay, binary_key(press)),
            PayloadKind::Json | PayloadKind::MessagePack => (stay, payload_tree_key(press)),
            PayloadKind::String | PayloadKind::Missing => (stay, KeyAction::Ignore),
        }
    }
}

/// A key in the history table.
pub open spec fn table_key(press: KeyPress, ctx: KeyContext) -> (ElementInFocus, KeyAction) {
    let key = press.key;
    let stay = ElementInFocus::HistoryTable;
    if key == Key::Char('q') {
        (stay, KeyAction::Quit)
    } else if key == Key::BackTab && ctx.can_switch_to_payload {
        (ElementInFocus::Payload, KeyAction::Redraw)
    } else if key == Key::Tab || key == Key::BackTab {
        (ElementInFocus::TopicOverview, KeyAction::Redraw)
    } else if key == Key::Esc {
        (stay, KeyAction::Table(TableCommand::Unselect))
    } else if key == Key::Down || key == Key::Char('j') {
        (stay, KeyAction::Table(TableCommand::Next))
    } else if key == Key::Up || key == Key::Char('k') {
        (stay, KeyAction::Table(TableCommand::Previous))
    } else if key == Key::Home {
        (stay, KeyAction::Table(TableCommand::First))
    } else if key == Key::End {
        (stay, KeyAction::Table(TableCommand::Last))
    } else if is_page_up(press) {
        (stay, KeyAction::Table(TableCommand::ScrollUp(3)))
    } else if is_page_down(press) {
        (stay, KeyAction::Table(TableCommand::ScrollDown(3)))
    } else if key == Key::Backspace || key == Key::Delete {
        (stay, KeyAction::RemoveHistoryEntry)
    } else {
        (stay, KeyAction::Ignore)
    }
}

/// A key while the popup asks whether to clean the retained topics below `topic`.
///
/// Confirming keeps the popup until the cleaning has run (see [`after_cleaning`]).
pub open spec fn popup_key(press: KeyPress, topic: String) -> (ElementInFocus, KeyAction) {
    if press.key == Key::Enter || press.key == Key::Char(' ') {
        (ElementInFocus::CleanRetainedPopup(topic), KeyAction::CleanBelow(topic))
    } else {
        (ElementInFocus::TopicOverview, KeyAction::Redraw)
    }
}

/// The element in focus after a key press and the action it asks for.
pub open spec fn key_outcome(focus: ElementInFocus, press: KeyPress, ctx: KeyContext) -> (
    ElementInFocus,
    KeyAction,
) {
    if press.kind == KeyKind::Release {
        (focus, KeyAction::Ignore)
    } else if press.key == Key::Char('c') && press.control {
        (focus, KeyAction::Quit)
    } else {
        match focus {
            ElementInFocus::TopicOverview => overview_key(press, ctx),
            ElementInFocus::TopicSearch => search_key(press, ctx),
            ElementInFocus::Payload => payload_key(press, ctx),
            ElementInFocus::HistoryTable => table_key(press, ctx),
            ElementInFocus::CleanRetainedPopup(topic) => popup_key(press, topic),
        }
    }
}

fn same_focus(focus: &ElementInFocus) -> (copy: ElementInFocus)
    ensures
        copy == *focus,
{
    match focus {
        ElementInFocus::TopicOverview => ElementInFocus::TopicOverview,
        ElementInFocus::TopicSearch => ElementInFocus::TopicSearch,
        ElementInFocus::Payload => ElementInFocus::Payload,
        ElementInFocus::HistoryTable => ElementInFocus::HistoryTable,
        ElementInFocus::CleanRetainedPopup(topic) => ElementInFocus::CleanRetainedPopup(topic.clone()),
    }
}

fn navigation(key: Key) -> (command: Option<TreeCommand>)
    ensures
        command == tree_navigation(key),
{
    match key {
        Key::Down => Some(TreeCommand::Down),
        Key::Up => Some(TreeCommand::Up),
        Key::Left => Some(TreeCommand::Left),
        Key::Right => Some(TreeCommand::Right),
        Key::Char(c) => {
            if c == 'j' {
                Some(TreeCommand::Down)
            } else if c == 'k' {
                Some(TreeCommand::Up)
            } else if c == 'h' {
                Some(TreeCommand::Left)
            } else if c == 'l' {
                Some(TreeCommand::Right)
            } else {
                None
            }
        },
        _ => None,
    }
}

fn page_up(press: KeyPress) -> (is_it: bool)
    ensures
        is_it == is_page_up(press),
{
    match press.key {
        Key::PageUp => true,
        Key::Char(c) => c == 'u' && press.control,
        _ => false,
    }
}

fn page_down(press: KeyPress) -> (is_it: bool)
    ensures
        is_it == is_page_down(press),
{
    match press.key {
        Key::PageDown => true,
        Key::Char(c) => c == 'd' && press.control,
        _ => false,
    }
}

fn is_char(key: Key, expected: char) -> (is_it: bool)
    ensures
        is_it == (key == Key::Char(expected)),
{
    match key {
        Key::Char(c) => c == expected,
        _ => false,
    }
}

fn on_overview_key(press: KeyPress, ctx: &KeyContext) -> (outcome: (ElementInFocus, KeyAction))
    ensures
        outcome == overview_key(press, *ctx),
{
    let key = press.key;
    let stay = ElementInFocus::TopicOverview;
    let jump = (ctx.overview_height / 3) as usize;
    let tab = matches!(key, Key::Tab);
    let back_tab = matches!(key, Key::BackTab);
    if is_char(key, 'q') {
        (stay, KeyAction::Quit)
    } else if tab && ctx.can_switch_to_payload {
        (ElementInFocus::Payload, KeyAction::Redraw)
    } else if (tab || back_tab) && ctx.can_switch_to_history_table {
        (ElementInFocus::HistoryTable, KeyAction::Redraw)
    } else if is_char(key, '/') {
        (ElementInFocus::TopicSearch, KeyAction::Redraw)
    } else if matches!(key, Key::Esc) {
        (stay, KeyAction::Overview(TreeCommand::Unselect))
    } else if matches!(key, Key::Enter) || is_char(key, ' ') {
        (stay, KeyAction::Overview(TreeCommand::ToggleSelected))
    } else if let Some(command) = navigation(key) {
        (stay, KeyAction::Overview(command))
    } else if matches!(key, Key::Home) {
        (stay, KeyAction::Overview(TreeCommand::First))
    } else if matches!(key, Key::End) {
        (stay, KeyAction::Overview(TreeCommand::Last))
    } else if page_up(press) {
        (stay, KeyAction::Overview(TreeCommand::ScrollUp(jump)))
    } else if page_down(press) {
        (stay, KeyAction::Overview(TreeCommand::ScrollDown(jump)))
    } else if is_char(key, 'o') {
        (stay, KeyAction::OpenAllTopics)
    } else if is_char(key, 'O') {
        (stay, KeyAction::CloseAllTopics)
    } else if matches!(key, Key::Backspace) || matches!(key, Key::Delete) {
        match &ctx.selected_topic {
            Some(topic) => (ElementInFocus::CleanRetainedPopup(topic.clone()), KeyAction::Redraw),
            None => (stay, KeyAction::Ignore),
        }
    } else {
        (stay, KeyAction::Ignore)
    }
}

fn on_search_key(press: KeyPress, ctx: &KeyContext) -> (outcome: (ElementInFocus, KeyAction))
    ensures
        outcome == search_key(press, *ctx),
{
    let stay = ElementInFocus::TopicSearch;
    let jump = (ctx.overview_height / 3) as usize;
    match press.key {
        Key::Char(c) => (stay, KeyAction::SearchType(c)),
        Key::Backspace => (stay, KeyAction::SearchDelete),
        Key::Up => (stay, KeyAction::SearchStep(SearchSelection::Before)),
        Key::Down => (stay, KeyAction::SearchStep(SearchSelection::After)),
        Key::Enter => (stay, KeyAction::SearchOpenAll),
        Key::Esc => (ElementInFocus::TopicOverview, KeyAction::SearchClear),
        Key::PageUp => (stay, KeyAction::Overview(TreeCommand::ScrollUp(jump))),
        Key::PageDown => (stay, KeyAction::Overview(TreeCommand::ScrollDown(jump))),
        Key::Tab => (ElementInFocus::TopicOverview, KeyAction::Redraw),
        _ => (stay, KeyAction::Ignore),
    }
}

fn on_binary_key(press: KeyPress) -> (action: KeyAction)
    ensures
        action == binary_key(press),
{
    let key = press.key;
    if matches!(key, Key::Esc) {
        KeyAction::Binary(BinaryCommand::Unselect)
    } else if let Some(command) = navigation(key) {
        proof {
            assert(tree_navigation(key) is Some);
        }
        match command {
            TreeCommand::Down => KeyAction::Binary(BinaryCommand::Down),
            TreeCommand::Up => KeyAction::Binary(BinaryCommand::Up),
            TreeCommand::Left => KeyAction::Binary(BinaryCommand::Left),
            _ => KeyAction::Binary(BinaryCommand::Right),
        }
    } else if matches!(key, Key::Home) && press.control {
        KeyAction::Binary(BinaryCommand::SelectAddress(0))
    } else if matches!(key, Key::End) && press.control {
        KeyAction::Binary(BinaryCommand::SelectAddress(usize::MAX))
    } else if matches!(key, Key::Home) {
        KeyAction::Binary(BinaryCommand::FirstInRow)
    } else if matches!(key, Key::End) {
        KeyAction::Binary(BinaryCommand::LastInRow)
    } else if page_up(press) {
        KeyAction::Binary(BinaryCommand::ScrollUp(3))
    } else if page_down(press) {
        KeyAction::Binary(BinaryCommand::ScrollDown(3))
    } else {
        KeyAction::Ignore
    }
}

fn on_payload_tree_key(press: KeyPress) -> (action: KeyAction)
    ensures
        action == payload_tree_key(press),
{
    let key = press.key;
    if matches!(key, Key::Esc) {
        KeyAction::PayloadTree(TreeCommand::Unselect)
    } else if matches!(key, Key::Enter) || is_char(key, ' ') {
        KeyAction::PayloadTree(TreeCommand::ToggleSelected)
    } else if let Some(command) = navigation(key) {
        KeyAction::PayloadTree(command)
    } else if matches!(key, Key::Home) {
        KeyAction::PayloadTree(TreeCommand::First)
    } else if matches!(key, Key::End) {
        KeyAction::PayloadTree(TreeCommand::Last)
    } else if page_up(press) {
        KeyAction::PayloadTree(TreeCommand::ScrollUp(3))
    } else if page_down(press) {
        KeyAction::PayloadTree(TreeCommand::ScrollDown(3))
    } else {
        KeyAction::Ignore
    }
}

fn on_payload_key(press: KeyPress, ctx: &KeyContext) -> (outcome: (ElementInFocus, KeyAction))
    ensures
        outcome == payload_key(press, *ctx),
{
    let key = press.key;
    let tab = matches!(key, Key::Tab);
    if is_char(key, 'q') {
        (ElementInFocus::Payload, KeyAction::Quit)
    } else if tab && ctx.can_switch_to_history_table {
        (ElementInFocus::HistoryTable, KeyAction::Redraw)
    } else if tab || matches!(key, Key::BackTab) {
        (ElementInFocus::TopicOverview, KeyAction::Redraw)
    } else {
        let action = match ctx.payload {
            PayloadKind::Binary => on_binary_key(press),
            PayloadKind::Json | PayloadKind::MessagePack => on_payload_tree_key(press),
            PayloadKind::String | PayloadKind::Missing => KeyAction::Ignore,
        };
        (ElementInFocus::Payload, action)
    }
}

fn on_table_key(press: KeyPress, ctx: &KeyContext) -> (outcome: (ElementInFocus, KeyAction))
    ensures
        outcome == table_key(press, *ctx),
{
    let key = press.key;
    let stay = ElementInFocus::HistoryTable;
    let back_tab = matches!(key, Key::BackTab);
    if is_char(key, 'q') {
        (stay, KeyAction::Quit)
    } else if back_tab && ctx.can_switch_to_payload {
        (ElementInFocus::Payload, KeyAction::Redraw)
    } else if matches!(key, Key::Tab) || back_tab {
        (ElementInFocus::TopicOverview, KeyAction::Redraw)
    } else if matches!(key, Key::Esc) {
        (stay, KeyAction::Table(TableCommand::Unselect))
    } else if matches!(key, Key::Down) || is_char(key, 'j') {
        (stay, KeyAction::Table(TableCommand::Next))
    } else if matches!(key, Key::Up) || is_char(key, 'k') {
        (stay, KeyAction::Table(TableCommand::Previous))
    } else if matches!(key, Key::Home) {
        (stay, KeyAction::Table(TableCommand::First))
    } else if matches!(key, Key::End) {
        (stay, KeyAction::Table(TableCommand::Last))
    } else if page_up(press) {
        (stay, KeyAction::Table(TableCommand::ScrollUp(3)))
    } else if page_down(press) {
        (stay, KeyAction::Table(TableCommand::ScrollDown(3)))
    } else if matches!(key, Key::Backspace) || matches!(key, Key::Delete) {
        (stay, KeyAction::RemoveHistoryEntry)
    } else {
        (stay, KeyAction::Ignore)
    }
}

/// Decides what a key event does: the element in focus afterwards and the
/// action to run.
///
/// Only key presses (and their repeats) are handled: a released key changes
/// nothing. Control and `c` quits wherever the focus is; `q` quits everywhere
/// but while typing a search; Enter or Space in the clean retained popup ask
/// for the cleaning and keep the popup until it has run, any other key closes
/// the popup.
pub fn on_key(focus: &ElementInFocus, press: KeyPress, ctx: &KeyContext) -> (outcome: (
    ElementInFocus,
    KeyAction,
))
    ensures
        outcome == key_outcome(*focus, press, *ctx),
        press.kind == KeyKind::Release ==> outcome == (*focus, KeyAction::Ignore),
        press.kind != KeyKind::Release && press.key == Key::Char('c') && press.control
            ==> outcome.1 == KeyAction::Quit,
        press.kind != KeyKind::Release && press.key == Key::Char('q') && !(*focus is TopicSearch)
            && !(*focus is CleanRetainedPopup) ==> outcome.1 == KeyAction::Quit,
        *focus is CleanRetainedPopup && press.kind != KeyKind::Release && !(press.key == Key::Char('c')
            && press.control) ==> if outcome.1 is CleanBelow {
            outcome.0 == *focus
        } else {
            outcome.0 == ElementInFocus::TopicOverview
        },
        outcome.1 is CleanBelow ==> *focus == ElementInFocus::CleanRetainedPopup(outcome.1->CleanBelow_0),
        outcome.0 is CleanRetainedPopup ==> (*focus == outcome.0 || ctx.selected_topic == Some(
            outcome.0->CleanRetainedPopup_0,
        )),
        outcome.0 is Payload && !(*focus is Payload) ==> ctx.can_switch_to_payload,
        outcome.0 is HistoryTable && !(*focus is HistoryTable) ==> ctx.can_switch_to_history_table,
        outcome.1 is RemoveHistoryEntry ==> *focus is HistoryTable,
        outcome.1 is OpenAllTopics || outcome.1 is CloseAllTopics ==> *focus is TopicOverview,
{
    if matches!(press.kind, KeyKind::Release) {
        return (same_focus(focus), KeyAction::Ignore);
    }
    let is_c = is_char(press.key, 'c');
    if is_c && press.control {
        return (same_focus(focus), KeyAction::Quit);
    }
    match focus {
        ElementInFocus::TopicOverview => on_overview_key(press, ctx),
        ElementInFocus::TopicSearch => on_search_key(press, ctx),
        ElementInFocus::Payload => on_payload_key(press, ctx),
        ElementInFocus::HistoryTable => on_table_key(press, ctx),
        ElementInFocus::CleanRetainedPopup(topic) => {
            if matches!(press.key, Key::Enter) || is_char(press.key, ' ') {
                (ElementInFocus::CleanRetainedPopup(topic.clone()), KeyAction::CleanBelow(topic.clone()))
            } else {
                (ElementInFocus::TopicOverview, KeyAction::Redraw)
            }
        },
    }
}

/// The element in focus once the cleaning asked for in the popup has run:
/// the topic overview when it succeeded, the popup as it was when it failed.
pub open spec fn spec_after_cleaning(focus: ElementInFocus, cleaned: bool) -> ElementInFocus {
    if cleaned {
        ElementInFocus::TopicOverview
    } else {
        focus
    }
}

/// Where the focus goes after the cleaning of [`KeyAction::CleanBelow`] ran.
pub fn after_cleaning(focus: &ElementInFocus, cleaned: bool) -> (next: ElementInFocus)
    ensures
        next == spec_after_cleaning(*focus, cleaned),
{
    if cleaned {
        ElementInFocus::TopicOverview
    } else {
        same_focus(focus)
    }
}

/// In the topic overview each arrow key and its vim letter move the tree in
/// their own direction: left and `h` left, right and `l` right, up and `k`
/// up, down and `j` down; the focus stays on the overview.
pub proof fn lemma_overview_arrows(press: KeyPress, ctx: KeyContext)
    requires
        press.kind != KeyKind::Release,
    ensures
        press.key == Key::Left || press.key == Key::Char('h') ==> key_outcome(
            ElementInFocus::TopicOverview,
            press,
            ctx,
        ) == (ElementInFocus::TopicOverview, KeyAction::Overview(TreeCommand::Left)),
        press.key == Key::Right || press.key == Key::Char('l') ==> key_outcome(
            ElementInFocus::TopicOverview,
            press,
            ctx,
        ) == (ElementInFocus::TopicOverview, KeyAction::Overview(TreeCommand::Right)),
        press.key == Key::Up || press.key == Key::Char('k') ==> key_outcome(
            ElementInFocus::TopicOverview,
            press,
            ctx,
        ) == (ElementInFocus::TopicOverview, KeyAction::Overview(TreeCommand::Up)),
        press.key == Key::Down || press.key == Key::Char('j') ==> key_outcome(
            ElementInFocus::TopicOverview,
            press,
            ctx,
        ) == (ElementInFocus::TopicOverview, KeyAction::Overview(TreeCommand::Down)),
{
}

/// On a JSON or MessagePack payload each arrow key and its vim letter move
/// the payload tree in their own direction; on a binary payload they move
/// the selected byte the same way.
pub proof fn lemma_payload_arrows(press: KeyPress, ctx: KeyContext)
    requires
        press.kind != KeyKind::Release,
    ensures
        (ctx.payload == PayloadKind::Json || ctx.payload == PayloadKind::MessagePack) ==> {
            &&& press.key == Key::Left || press.key == Key::Char('h') ==> key_outcome(ElementInFocus::Payload, press, ctx)
                == (ElementInFocus::Payload, KeyAction::PayloadTree(TreeCommand::Left))
            &&& press.key == Key::Right || press.key == Key::Char('l') ==> key_outcome(ElementInFocus::Payload, press, ctx)
                == (ElementInFocus::Payload, KeyAction::PayloadTree(TreeCommand::Right))
            &&& press.key == Key::Up || press.key == Key::Char('k') ==> key_outcome(ElementInFocus::Payload, press, ctx)
                == (ElementInFocus::Payload, KeyAction::PayloadTree(TreeCommand::Up))
            &&& press.key == Key::Down || press.key == Key::Char('j') ==> key_outcome(ElementInFocus::Payload, press, ctx)
                == (ElementInFocus::Payload, KeyAction::PayloadTree(TreeCommand::Down))
        },
        ctx.payload == PayloadKind::Binary ==> {
            &&& press.key == Key::Left || press.key == Key::Char('h') ==> key_outcome(ElementInFocus::Payload, press, ctx)
                == (ElementInFocus::Payload, KeyAction::Binary(BinaryCommand::Left))
            &&& press.key == Key::Right || press.key == Key::Char('l') ==> key_outcome(ElementInFocus::Payload, press, ctx)
                == (ElementInFocus::Payload, KeyAction::Binary(BinaryCommand::Right))
            &&& press.key == Key::Up || press.key == Key::Char('k') ==> key_outcome(ElementInFocus::Payload, press, ctx)
                == (ElementInFocus::Payload, KeyAction::Binary(BinaryCommand::Up))
            &&& press.key == Key::Down || press.key == Key::Char('j') ==> key_outcome(ElementInFocus::Payload, press, ctx)
                == (ElementInFocus::Payload, KeyAction::Binary(BinaryCommand::Down))
        },
{
}

/// In the history table down and `j` select the next entry, up and `k` the
/// previous one; while searching, up and down step to the match before and
/// after.
pub proof fn lemma_table_and_search_arrows(press: KeyPress, ctx: KeyContext)
    requires
        press.kind != KeyKind::Release,
    ensures
        press.key == Key::Down || press.key == Key::Char('j') ==> key_outcome(ElementInFocus::HistoryTable, press, ctx)
            == (ElementInFocus::HistoryTable, KeyAction::Table(TableCommand::Next)),
        press.key == Key::Up || press.key == Key::Char('k') ==> key_outcome(ElementInFocus::HistoryTable, press, ctx)
            == (ElementInFocus::HistoryTable, KeyAction::Table(TableCommand::Previous)),
        press.key == Key::Up ==> key_outcome(ElementInFocus::TopicSearch, press, ctx) == (
            ElementInFocus::TopicSearch,
            KeyAction::SearchStep(SearchSelection::Before),
        ),
        press.key == Key::Down ==> key_outcome(ElementInFocus::TopicSearch, press, ctx) == (
            ElementInFocus::TopicSearch,
            KeyAction::SearchStep(SearchSelection::After),
        ),
{
}

/// In the topic overview: `q` quits, `/` starts a search, Esc clears the
/// selection, Enter and Space open or close the selected topic, Home and
/// End select the first and last topic, page up and down scroll by a third
/// of the overview's height, `o` opens and `O` closes every topic, and
/// Delete or Backspace on a selected topic ask whether to clean it.
pub proof fn lemma_overview_keys(press: KeyPress, ctx: KeyContext)
    requires
        press.kind != KeyKind::Release,
    ensures
        ({
            let out = key_outcome(ElementInFocus::TopicOverview, press, ctx);
            let stay = ElementInFocus::TopicOverview;
            &&& press.key == Key::Char('q') ==> out == (stay, KeyAction::Quit)
            &&& press.key == Key::Char('/') ==> out == (ElementInFocus::TopicSearch, KeyAction::Redraw)
            &&& press.key == Key::Esc ==> out == (stay, KeyAction::Overview(TreeCommand::Unselect))
            &&& (press.key == Key::Enter || press.key == Key::Char(' ')) ==> out == (
                stay,
                KeyAction::Overview(TreeCommand::ToggleSelected),
            )
            &&& press.key == Key::Home ==> out == (stay, KeyAction::Overview(TreeCommand::First))
            &&& press.key == Key::End ==> out == (stay, KeyAction::Overview(TreeCommand::Last))
            &&& press.key == Key::PageUp ==> out == (
                stay,
                KeyAction::Overview(TreeCommand::ScrollUp((ctx.overview_height / 3) as usize)),
            )
            &&& press.key == Key::PageDown ==> out == (
                stay,
                KeyAction::Overview(TreeCommand::ScrollDown((ctx.overview_height / 3) as usize)),
            )
            &&& press.key == Key::Char('o') ==> out == (stay, KeyAction::OpenAllTopics)
            &&& press.key == Key::Char('O') ==> out == (stay, KeyAction::CloseAllTopics)
            &&& (press.key == Key::Delete || press.key == Key::Backspace) ==> out == match ctx.selected_topic {
                Some(topic) => (ElementInFocus::CleanRetainedPopup(topic), KeyAction::Redraw),
                None => (stay, KeyAction::Ignore),
            }
        }),
{
}

/// In the history table: Esc clears the selection, Home and End select the
/// first and last entry, page up and down scroll by three rows, Delete and
/// Backspace remove the selected entry, Tab goes back to the topics.
pub proof fn lemma_table_keys(press: KeyPress, ctx: KeyContext)
    requires
        press.kind != KeyKind::Release,
    ensures
        ({
            let out = key_outcome(ElementInFocus::HistoryTable, press, ctx);
            let stay = ElementInFocus::HistoryTable;
            &&& press.key == Key::Esc ==> out == (stay, KeyAction::Table(TableCommand::Unselect))
            &&& press.key == Key::Home ==> out == (stay, KeyAction::Table(TableCommand::First))
            &&& press.key == Key::End ==> out == (stay, KeyAction::Table(TableCommand::Last))
            &&& press.key == Key::PageUp ==> out == (stay, KeyAction::Table(TableCommand::ScrollUp(3)))
            &&& press.key == Key::PageDown ==> out == (stay, KeyAction::Table(TableCommand::ScrollDown(3)))
            &&& (press.key == Key::Delete || press.key == Key::Backspace) ==> out == (
                stay,
                KeyAction::RemoveHistoryEntry,
            )
            &&& press.key == Key::Tab ==> out == (ElementInFocus::TopicOverview, KeyAction::Redraw)
        }),
{
}

/// On a JSON or MessagePack payload Esc clears the selection, Enter and
/// Space open or close the selected part, Home and End select the first and
/// last part and page up and down scroll by three rows. On a binary payload
/// Esc clears the selection, control with Home or End selects the first or
/// the last byte, Home and End the first or last byte of the row, and page
/// up and down scroll by three rows. Tab goes on to the history table when
/// there is one to show, otherwise back to the topics.
pub proof fn lemma_payload_keys(press: KeyPress, ctx: KeyContext)
    requires
        press.kind != KeyKind::Release,
        !(press.key == Key::Char('c') && press.control),
    ensures
        ({
            let out = key_outcome(ElementInFocus::Payload, press, ctx);
            let stay = ElementInFocus::Payload;
            &&& press.key == Key::Tab ==> out == (if ctx.can_switch_to_history_table {
                ElementInFocus::HistoryTable
            } else {
                ElementInFocus::TopicOverview
            }, KeyAction::Redraw)
            &&& (ctx.payload == PayloadKind::Json || ctx.payload == PayloadKind::MessagePack) ==> {
                &&& press.key == Key::Esc ==> out == (stay, KeyAction::PayloadTree(TreeCommand::Unselect))
                &&& (press.key == Key::Enter || press.key == Key::Char(' ')) ==> out == (
                    stay,
                    KeyAction::PayloadTree(TreeCommand::ToggleSelected),
                )
                &&& press.key == Key::Home ==> out == (stay, KeyAction::PayloadTree(TreeCommand::First))
                &&& press.key == Key::End ==> out == (stay, KeyAction::PayloadTree(TreeCommand::Last))
                &&& press.key == Key::PageUp ==> out == (stay, KeyAction::PayloadTree(TreeCommand::ScrollUp(3)))
                &&& press.key == Key::PageDown ==> out == (stay, KeyAction::PayloadTree(TreeCommand::ScrollDown(3)))
            }
            &&& ctx.payload == PayloadKind::Binary ==> {
                &&& press.key == Key::Esc ==> out == (stay, KeyAction::Binary(BinaryCommand::Unselect))
                &&& press.key == Key::Home ==> out == (stay, if press.control {
                    KeyAction::Binary(BinaryCommand::SelectAddress(0))
                } else {
                    KeyAction::Binary(BinaryCommand::FirstInRow)
                })
                &&& press.key == Key::End ==> out == (stay, if press.control {
                    KeyAction::Binary(BinaryCommand::SelectAddress(usize::MAX))
                } else {
                    KeyAction::Binary(BinaryCommand::LastInRow)
                })
                &&& press.key == Key::PageUp ==> out == (stay, KeyAction::Binary(BinaryCommand::ScrollUp(3)))
                &&& press.key == Key::PageDown ==> out == (stay, KeyAction::Binary(BinaryCommand::ScrollDown(3)))
            }
        }),
{
}

/// While searching, a character is added to the search, Backspace removes
/// the last one, Enter opens every match, Esc clears the search and goes
/// back to the topics, and Tab goes back to the topics keeping the search.
pub proof fn lemma_search_keys(press: KeyPress, ctx: KeyContext)
    requires
        press.kind != KeyKind::Release,
        !(press.key == Key::Char('c') && press.control),
    ensures
        ({
            let out = key_outcome(ElementInFocus::TopicSearch, press, ctx);
            let stay = ElementInFocus::TopicSearch;
            &&& press.key matches Key::Char(c) ==> out == (stay, KeyAction::SearchType(c))
            &&& press.key == Key::Backspace ==> out == (stay, KeyAction::SearchDelete)
            &&& press.key == Key::Enter ==> out == (stay, KeyAction::SearchOpenAll)
            &&& press.key == Key::Esc ==> out == (ElementInFocus::TopicOverview, KeyAction::SearchClear)
            &&& press.key == Key::Tab ==> out == (ElementInFocus::TopicOverview, KeyAction::Redraw)
        }),
{
}

} // verus!
