//! The terminal client's key bindings: which command a key press stands for
//! in each input mode.
use vstd::prelude::*;

use crate::browse::InputMode;

verus! {

/// A key press, as the terminal reports it.
#[derive(Debug, Clone, Copy, PartialEq, Eq, Structural)]
pub enum Key {
    Char(char),
    Up,
    Down,
    Left,
    Right,
    Home,
    End,
    PageUp,
    PageDown,
    Enter,
    Backspace,
    Delete,
    Tab,
    Esc,
    Other,
}

/// An edit of a line being typed.
#[derive(Debug, Clone, Copy, PartialEq, Eq, Structural)]
pub enum LineEdit {
    MoveLeft,
    MoveRight,
    Home,
    End,
    Backspace,
    Delete,
    Insert(char),
}

/// What the client does in answer to a key.
#[derive(Debug, Clone, Copy, PartialEq, Eq, Structural)]
pub enum Command {
    Nothing,
    Quit,
    BrowseUp,
    Previous,
    Next,
    First,
    Last,
    ViewDetail,
    Refresh,
    ConfirmDelete,
    StoreMode,
    SearchMode,
    SearchNext,
    TogglePanel,
    Back,
    /// Leave the current mode for the normal one.
    ToNormal,
    RunSearch,
    CancelSearch,
    SearchPush(char),
    SearchPop,
    PathPrevious,
    PathNext,
    PathFirst,
    PathLast,
    PathEnter,
    PathUp,
    NewDirMode,
    ToFileBrowser,
    ConfirmNewDir,
    ToPathBrowser,
    Edit(LineEdit),
    StoreFile,
    CancelStore,
    ToBrowser,
    CancelFileBrowser,
    BrowserPrevious,
    BrowserNext,
    BrowserFirst,
    BrowserLast,
    /// Move down or up by this many rows.
    BrowserPageDown(usize),
    BrowserPageUp(usize),
    BrowserUp,
    BrowserEnter,
    ChooseFile,
    ReloadDir,
    RunDelete,
}

/// What the bindings look at besides the key.
#[derive(Debug, Clone, Copy, PartialEq, Eq, Structural)]
pub struct KeyContext {
    /// Whether the listing shows the top level (no prefix).
    pub at_top: bool,
    /// Whether the Control key is held.
    pub control: bool,
    /// Whether the selected entry of the current browser is a directory.
    pub selected_dir: bool,
    /// Whether the selected entry of the file browser is a file.
    pub selected_file: bool,
    /// Whether a key is typed and a file chosen, so that a store can start.
    pub can_store: bool,
}

/// The rows a page key moves in the file browser.
pub const PAGE_ROWS: usize = 20;

/// The binding of `key` in the normal mode.
pub open spec fn normal_command(key: Key, ctx: KeyContext) -> Command {
    match key {
        Key::Char('q') => if ctx.at_top {
            Command::Quit
        } else {
            Command::BrowseUp
        },
        Key::Char('c') => if ctx.control {
            Command::Quit
        } else {
            Command::Nothing
        },
        Key::Up | Key::Char('k') => Command::Previous,
        Key::Down | Key::Char('j') => Command::Next,
        Key::Home | Key::Char('g') => Command::First,
        Key::End | Key::Char('G') => Command::Last,
        Key::Enter | Key::Right | Key::Char('l') => Command::ViewDetail,
        Key::Left | Key::Backspace => Command::BrowseUp,
        Key::Char('r') => Command::Refresh,
        Key::Char('d') => Command::ConfirmDelete,
        Key::Char('s') => Command::StoreMode,
        Key::Char('/') => Command::SearchMode,
        Key::Char('n') => Command::SearchNext,
        Key::Tab => Command::TogglePanel,
        Key::Esc => Command::Back,
        _ => Command::Nothing,
    }
}

/// The binding of `key` while a search is typed.
pub open spec fn search_command(key: Key) -> Command {
    match key {
        Key::Enter => Command::RunSearch,
        Key::Esc => Command::CancelSearch,
        Key::Char(c) => Command::SearchPush(c),
        Key::Backspace => Command::SearchPop,
        _ => Command::Nothing,
    }
}

/// The binding of `key` in the browser of stored paths.
pub open spec fn path_command(key: Key, ctx: KeyContext) -> Command {
    match key {
        Key::Esc => Command::ToNormal,
        Key::Up | Key::Char('k') => Command::PathPrevious,
        Key::Down | Key::Char('j') => Command::PathNext,
        Key::Home | Key::Char('g') => Command::PathFirst,
        Key::End | Key::Char('G') => Command::PathLast,
        Key::Enter | Key::Right => if ctx.selected_dir {
            Command::PathEnter
        } else {
            Command::Nothing
        },
        Key::Left | Key::Backspace => Command::PathUp,
        Key::Char('n') => Command::NewDirMode,
        Key::Tab | Key::Char('f') => Command::ToFileBrowser,
        _ => Command::Nothing,
    }
}

/// The binding of `key` while a new directory's name is typed.
pub open spec fn new_dir_command(key: Key) -> Command {
    match key {
        Key::Enter => Command::ConfirmNewDir,
        Key::Esc => Command::ToPathBrowser,
        Key::Left => Command::Edit(LineEdit::MoveLeft),
        Key::Right => Command::Edit(LineEdit::MoveRight),
        Key::Backspace => Command::Edit(LineEdit::Backspace),
        Key::Delete => Command::Edit(LineEdit::Delete),
        Key::Char(c) => Command::Edit(LineEdit::Insert(c)),
        _ => Command::Nothing,
    }
}

/// The binding of `key` while the key to store under is typed.
pub open spec fn store_key_command(key: Key, ctx: KeyContext) -> Command {
    match key {
        Key::Enter => if ctx.can_store {
            Command::StoreFile
        } else {
            Command::Nothing
        },
        Key::Esc => Command::CancelStore,
        Key::Tab => Command::ToBrowser,
        Key::Left => Command::Edit(LineEdit::MoveLeft),
        Key::Right => Command::Edit(LineEdit::MoveRight),
        Key::Home => Command::Edit(LineEdit::Home),
        Key::End => Command::Edit(LineEdit::End),
        Key::Backspace => Command::Edit(LineEdit::Backspace),
        Key::Delete => Command::Edit(LineEdit::Delete),
        Key::Char(c) => Command::Edit(LineEdit::Insert(c)),
        _ => Command::Nothing,
    }
}

/// The binding of `key` in the browser of local files.
pub open spec fn file_browser_command(key: Key, ctx: KeyContext) -> Command {
    match key {
        Key::Esc => Command::CancelFileBrowser,
        Key::Tab => Command::ToPathBrowser,
        Key::Up | Key::Char('k') => Command::BrowserPrevious,
        Key::Down | Key::Char('j') => Command::BrowserNext,
        Key::Home | Key::Char('g') => Command::BrowserFirst,
        Key::End | Key::Char('G') => Command::BrowserLast,
        Key::PageDown => Command::BrowserPageDown(PAGE_ROWS),
        Key::PageUp => Command::BrowserPageUp(PAGE_ROWS),
        Key::Left | Key::Backspace => Command::BrowserUp,
        Key::Right => if ctx.selected_dir {
            Command::BrowserEnter
        } else {
            Command::Nothing
        },
        Key::Enter => if ctx.selected_file {
            Command::ChooseFile
        } else {
            Command::BrowserEnter
        },
        Key::Char('.') => Command::ReloadDir,
        _ => Command::Nothing,
    }
}

/// The binding of `key` while a delete waits for confirmation.
pub open spec fn delete_confirm_command(key: Key) -> Command {
    match key {
        Key::Char('y') | Key::Char('Y') => Command::RunDelete,
        _ => Command::ToNormal,
    }
}

/// The binding of `key` in the detail view.
pub open spec fn detail_command(key: Key) -> Command {
    match key {
        Key::Esc | Key::Char('q') | Key::Backspace => Command::ToNormal,
        Key::Char('d') => Command::ConfirmDelete,
        _ => Command::Nothing,
    }
}

/// The command `key` stands for in `mode`. The modes that the rename,
/// directory and upload dialogs use take no key through this table.
pub open spec fn key_command_spec(mode: InputMode, key: Key, ctx: KeyContext) -> Command {
    match mode {
        InputMode::Normal => normal_command(key, ctx),
        InputMode::Search => search_command(key),
        InputMode::PathBrowser => path_command(key, ctx),
        InputMode::NewDirInput => new_dir_command(key),
        InputMode::StoreKey => store_key_command(key, ctx),
        InputMode::FileBrowser => file_browser_command(key, ctx),
        InputMode::DeleteConfirm => delete_confirm_command(key),
        InputMode::Detail => detail_command(key),
        _ => Command::Nothing,
    }
}

fn normal_key(key: Key, ctx: KeyContext) -> (r: Command)
    ensures
        r == normal_command(key, ctx),
{
    match key {
        Key::Char('q') => if ctx.at_top {
            Command::Quit
        } else {
            Command::BrowseUp
        },
        Key::Char('c') => if ctx.control {
            Command::Quit
        } else {
            Command::Nothing
        },
        Key::Up | Key::Char('k') => Command::Previous,
        Key::Down | Key::Char('j') => Command::Next,
        Key::Home | Key::Char('g') => Command::First,
        Key::End | Key::Char('G') => Command::Last,
        Key::Enter | Key::Right | Key::Char('l') => Command::ViewDetail,
        Key::Left | Key::Backspace => Command::BrowseUp,
        Key::Char('r') => Command::Refresh,
        Key::Char('d') => Command::ConfirmDelete,
        Key::Char('s') => Command::StoreMode,
        Key::Char('/') => Command::SearchMode,
        Key::Char('n') => Command::SearchNext,
        Key::Tab => Command::TogglePanel,
        Key::Esc => Command::Back,
        _ => Command::Nothing,
    }
}

fn browser_key(mode: InputMode, key: Key, ctx: KeyContext) -> (r: Command)
    requires
        mode == InputMode::PathBrowser || mode == InputMode::FileBrowser,
    ensures
        r == key_command_spec(mode, key, ctx),
{
    if mode == InputMode::PathBrowser {
        match key {
            Key::Esc => Command::ToNormal,
            Key::Up | Key::Char('k') => Command::PathPrevious,
            Key::Down | Key::Char('j') => Command::PathNext,
            Key::Home | Key::Char('g') => Command::PathFirst,
            Key::End | Key::Char('G') => Command::PathLast,
            Key::Enter | Key::Right => if ctx.selected_dir {
                Command::PathEnter
            } else {
                Command::Nothing
            },
            Key::Left | Key::Backspace => Command::PathUp,
            Key::Char('n') => Command::NewDirMode,
            Key::Tab | Key::Char('f') => Command::ToFileBrowser,
            _ => Command::Nothing,
        }
    } else {
        match key {
            Key::Esc => Command::CancelFileBrowser,
            Key::Tab => Command::ToPathBrowser,
            Key::Up | Key::Char('k') => Command::BrowserPrevious,
            Key::Down | Key::Char('j') => Command::BrowserNext,
            Key::Home | Key::Char('g') => Command::BrowserFirst,
            Key::End | Key::Char('G') => Command::BrowserLast,
            Key::PageDown => Command::BrowserPageDown(PAGE_ROWS),
            Key::PageUp => Command::BrowserPageUp(PAGE_ROWS),
            Key::Left | Key::Backspace => Command::BrowserUp,
            Key::Right => if ctx.selected_dir {
                Command::BrowserEnter
            } else {
                Command::Nothing
            },
            Key::Enter => if ctx.selected_file {
                Command::ChooseFile
            } else {
                Command::BrowserEnter
            },
            Key::Char('.') => Command::ReloadDir,
            _ => Command::Nothing,
        }
    }
}

fn typing_key(mode: InputMode, key: Key, ctx: KeyContext) -> (r: Command)
    requires
        mode == InputMode::Search || mode == InputMode::NewDirInput || mode
            == InputMode::StoreKey,
    ensures
        r == key_command_spec(mode, key, ctx),
{
    match mode {
        InputMode::Search => match key {
            Key::Enter => Command::RunSearch,
            Key::Esc => Command::CancelSearch,
            Key::Char(c) => Command::SearchPush(c),
            Key::Backspace => Command::SearchPop,
            _ => Command::Nothing,
        },
        InputMode::NewDirInput => match key {
            Key::Enter => Command::ConfirmNewDir,
            Key::Esc => Command::ToPathBrowser,
            Key::Left => Command::Edit(LineEdit::MoveLeft),
            Key::Right => Command::Edit(LineEdit::MoveRight),
            Key::Backspace => Command::Edit(LineEdit::Backspace),
            Key::Delete => Command::Edit(LineEdit::Delete),
            Key::Char(c) => Command::Edit(LineEdit::Insert(c)),
            _ => Command::Nothing,
        },
        _ => match key {
            Key::Enter => if ctx.can_store {
                Command::StoreFile
            } else {
                Command::Nothing
            },
            Key::Esc => Command::CancelStore,
            Key::Tab => Command::ToBrowser,
            Key::Left => Command::Edit(LineEdit::MoveLeft),
            Key::Right => Command::Edit(LineEdit::MoveRight),
            Key::Home => Command::Edit(LineEdit::Home),
            Key::End => Command::Edit(LineEdit::End),
            Key::Backspace => Command::Edit(LineEdit::Backspace),
            Key::Delete => Command::Edit(LineEdit::Delete),
            Key::Char(c) => Command::Edit(LineEdit::Insert(c)),
            _ => Command::Nothing,
        },
    }
}

/// The command a key press stands for in the given mode.
pub fn key_command(mode: InputMode, key: Key, ctx: KeyContext) -> (r: Command)
    ensures
        r == key_command_spec(mode, key, ctx),
{
    match mode {
        InputMode::Normal => normal_key(key, ctx),
        InputMode::Search | InputMode::NewDirInput | InputMode::StoreKey => typing_key(
            mode,
            key,
            ctx,
        ),
        InputMode::PathBrowser | InputMode::FileBrowser => browser_key(mode, key, ctx),
        InputMode::DeleteConfirm => match key {
            Key::Char('y') | Key::Char('Y') => Command::RunDelete,
            _ => Command::ToNormal,
        },
        InputMode::Detail => match key {
            Key::Esc | Key::Char('q') | Key::Backspace => Command::ToNormal,
            Key::Char('d') => Command::ConfirmDelete,
            _ => Command::Nothing,
        },
        _ => Command::Nothing,
    }
}

/// The mode a command leaves the client in, where the command itself
/// decides it; `None` where the mode stays or the command's own work sets it.
pub open spec fn mode_after_spec(c: Command) -> Option<InputMode> {
    match c {
        Command::ToNormal | Command::RunSearch | Command::CancelSearch | Command::CancelStore
        | Command::CancelFileBrowser | Command::RunDelete | Command::StoreFile => Some(
            InputMode::Normal,
        ),
        Command::ToPathBrowser => Some(InputMode::PathBrowser),
        Command::ChooseFile => Some(InputMode::StoreKey),
        _ => None,
    }
}

/// The mode to switch to after carrying out `c`.
pub fn mode_after(c: Command) -> (r: Option<InputMode>)
    ensures
        r == mode_after_spec(c),
{
    match c {
        Command::ToNormal | Command::RunSearch | Command::CancelSearch | Command::CancelStore
        | Command::CancelFileBrowser | Command::RunDelete | Command::StoreFile => Some(
            InputMode::Normal,
        ),
        Command::ToPathBrowser => Some(InputMode::PathBrowser),
        Command::ChooseFile => Some(InputMode::StoreKey),
        _ => None,
    }
}

} // verus!
