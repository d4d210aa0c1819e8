//! What the terminal front end decides on a key press: which pane has the
//! focus, which row and tab are selected, and which event to raise.
use vstd::prelude::*;

verus! {

pub enum CurrentScreen {
    Main,
}

/// Events that the front end raises for the client.
#[derive(Debug, PartialEq, Eq)]
pub enum AppEventType {
    /// Start the torrent with this info hash key.
    Download(String),
    Exit,
}

#[derive(Clone, Copy, Debug, PartialEq, Eq, Structural)]
pub enum NavDirection {
    Up,
    Right,
    Down,
    Left,
}

#[derive(Clone, Copy, Debug, PartialEq, Eq, Structural)]
pub enum FocusedPane {
    Left,
    Right,
}

/// The keys the front end reacts to.
#[derive(Clone, Copy, Debug, PartialEq, Eq)]
pub enum KeyInput {
    Up,
    Down,
    Left,
    Right,
    Enter,
    Esc,
    Char(char),
    Other,
}

pub struct TorrentsTable {
    pub selected: usize,
}

pub struct TorrentDetails {
    pub selected: usize,
    pub selected_tab: usize,
}

/// The selection state of the front end.
pub struct TuiState {
    pub torrents_table: TorrentsTable,
    pub torrent_details: TorrentDetails,
    pub focused_pane: FocusedPane,
}

/// The row above `s` in a table of `n > 0` rows, as the table computes it:
/// one less, modulo `n`, where one less than zero wraps around `usize`.
pub open spec fn row_above(s: usize, n: usize) -> usize {
    if s == 0 {
        (usize::MAX as int % n as int) as usize
    } else {
        ((s - 1) as int % n as int) as usize
    }
}

pub open spec fn row_below(s: usize, n: usize) -> usize {
    if s < usize::MAX {
        ((s + 1) as int % n as int) as usize
    } else {
        0
    }
}

impl TuiState {
    /// The torrents table has the focus, on its first row, and the details
    /// show the peers tab.
    pub fn new() -> (r: TuiState)
        ensures
            r.torrents_table.selected == 0,
            r.torrent_details.selected == 0,
            r.torrent_details.selected_tab == 0,
            r.focused_pane == FocusedPane::Left,
    {
        TuiState {
            torrents_table: TorrentsTable { selected: 0 },
            torrent_details: TorrentDetails { selected: 0, selected_tab: 0 },
            focused_pane: FocusedPane::Left,
        }
    }

    /// Moves the selection in the focused pane, or the focus itself.
    /// `item_count` is the number of torrents listed.
    pub fn navigate(&mut self, direction: NavDirection, item_count: usize)
        ensures
            final(self).torrent_details.selected_tab == old(self).torrent_details.selected_tab,
            direction == NavDirection::Right ==> final(self).focused_pane == FocusedPane::Right,
            direction == NavDirection::Left ==> final(self).focused_pane == FocusedPane::Left,
            (direction == NavDirection::Up || direction == NavDirection::Down)
                ==> final(self).focused_pane == old(self).focused_pane,
            (direction == NavDirection::Up && old(self).focused_pane == FocusedPane::Left
                && item_count > 0) ==> final(self).torrents_table.selected == row_above(
                old(self).torrents_table.selected,
                item_count,
            ),
            (direction == NavDirection::Down && old(self).focused_pane == FocusedPane::Left
                && item_count > 0) ==> final(self).torrents_table.selected == row_below(
                old(self).torrents_table.selected,
                item_count,
            ),
            !((direction == NavDirection::Up || direction == NavDirection::Down)
                && old(self).focused_pane == FocusedPane::Left && item_count > 0)
                ==> final(self).torrents_table.selected == old(self).torrents_table.selected,
            (direction == NavDirection::Up && old(self).focused_pane == FocusedPane::Right)
                ==> final(self).torrent_details.selected == if old(self).torrent_details.selected
                > 0 {
                (old(self).torrent_details.selected - 1) as usize
            } else {
                0
            },
            (direction == NavDirection::Down && old(self).focused_pane == FocusedPane::Right)
                ==> final(self).torrent_details.selected == if old(self).torrent_details.selected
                < usize::MAX {
                (old(self).torrent_details.selected + 1) as usize
            } else {
                usize::MAX
            },
            !((direction == NavDirection::Up || direction == NavDirection::Down)
                && old(self).focused_pane == FocusedPane::Right)
                ==> final(self).torrent_details.selected == old(self).torrent_details.selected,
    {
        match direction {
            NavDirection::Up => match self.focused_pane {
                FocusedPane::Left => {
                    if item_count > 0 {
                        let s = self.torrents_table.selected;
                        self.torrents_table.selected = if s == 0 {
                            usize::MAX % item_count
                        } else {
                            (s - 1) % item_count
                        };
                    }
                },
                FocusedPane::Right => {
                    self.torrent_details.selected = self.torrent_details.selected.saturating_sub(1);
                },
            },
            NavDirection::Down => match self.focused_pane {
                FocusedPane::Left => {
                    if item_count > 0 {
                        let s = self.torrents_table.selected;
                        self.torrents_table.selected = if s < usize::MAX {
                            (s + 1) % item_count
                        } else {
                            0
                        };
                    }
                },
                FocusedPane::Right => {
                    self.torrent_details.selected = self.torrent_details.selected.saturating_add(1);
                },
            },
            NavDirection::Right => self.focused_pane = FocusedPane::Right,
            NavDirection::Left => self.focused_pane = FocusedPane::Left,
        }
    }

    /// Acts on a key: arrows and `j`/`k`/`l`/`h` navigate, Enter asks to start
    /// the selected torrent (`keys` holds each listed torrent's key), Esc and
    /// `q` exit, `P` and `F` focus the details on the peers or files tab, `T`
    /// focuses the torrents table.
    pub fn handle_key(&mut self, key: KeyInput, keys: &Vec<String>) -> (r: Option<AppEventType>)
        ensures
            (key == KeyInput::Enter && old(self).torrents_table.selected < keys@.len()) ==> (r matches Some(
                AppEventType::Download(k),
            ) && k@ == keys@[old(self).torrents_table.selected as int]@),
            (key == KeyInput::Esc || key == KeyInput::Char('q')) ==> r == Some(AppEventType::Exit),
            key == KeyInput::Char('P') ==> final(self).focused_pane == FocusedPane::Right
                && final(self).torrent_details.selected_tab == 0 && r is None,
            key == KeyInput::Char('F') ==> final(self).focused_pane == FocusedPane::Right
                && final(self).torrent_details.selected_tab == 1 && r is None,
            key == KeyInput::Char('T') ==> final(self).focused_pane == FocusedPane::Left && r is None,
            (key == KeyInput::Right || key == KeyInput::Char('l')) ==> final(self).focused_pane
                == FocusedPane::Right && r is None,
            (key == KeyInput::Left || key == KeyInput::Char('h')) ==> final(self).focused_pane
                == FocusedPane::Left && r is None,
            (key == KeyInput::Up || key == KeyInput::Char('j')) && old(self).focused_pane
                == FocusedPane::Left && keys@.len() > 0 ==> final(self).torrents_table.selected
                == row_above(old(self).torrents_table.selected, keys@.len() as usize) && r is None,
            (key == KeyInput::Down || key == KeyInput::Char('k')) && old(self).focused_pane
                == FocusedPane::Left && keys@.len() > 0 ==> final(self).torrents_table.selected
                == row_below(old(self).torrents_table.selected, keys@.len() as usize) && r is None,
    {
        match key {
            KeyInput::Up => {
                self.navigate(NavDirection::Up, keys.len());
                None
            },
            KeyInput::Down => {
                self.navigate(NavDirection::Down, keys.len());
                None
            },
            KeyInput::Right => {
                self.navigate(NavDirection::Right, keys.len());
                None
            },
            KeyInput::Left => {
                self.navigate(NavDirection::Left, keys.len());
                None
            },
            KeyInput::Enter => {
                let s = self.torrents_table.selected;
                if s < keys.len() {
                    Some(AppEventType::Download(keys[s].clone()))
                } else {
                    None
                }
            },
            KeyInput::Esc => Some(AppEventType::Exit),
            KeyInput::Char(c) => {
                if c == 'j' {
                    self.navigate(NavDirection::Up, keys.len());
                    None
                } else if c == 'k' {
                    self.navigate(NavDirection::Down, keys.len());
                    None
                } else if c == 'l' {
                    self.navigate(NavDirection::Right, keys.len());
                    None
                } else if c == 'h' {
                    self.navigate(NavDirection::Left, keys.len());
                    None
                } else if c == 'q' {
                    Some(AppEventType::Exit)
                } else if c == 'P' {
                    self.focused_pane = FocusedPane::Right;
                    self.torrent_details.selected_tab = 0;
                    None
                } else if c == 'F' {
                    self.focused_pane = FocusedPane::Right;
                    self.torrent_details.selected_tab = 1;
                    None
                } else if c == 'T' {
                    self.focused_pane = FocusedPane::Left;
                    None
                } else {
                    None
                }
            },
            KeyInput::Other => None,
        }
    }
}

} // verus!
