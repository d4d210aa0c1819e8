use btrs::controller::{peers_to_start, MAX_PEERS};
use btrs::identity::{generate_peer_id, peer_id_from, peer_id_text};
use btrs::nav::{AppEventType, FocusedPane, KeyInput, NavDirection, TuiState};
use btrs::peer_list::Peer;

fn peer(ip: &str, port: u64) -> Peer {
    Peer { ip: ip.to_string(), port }
}

#[test]
fn new_sessions_for_unknown_peers_only() {
    let known = vec![peer("10.0.0.1", 1), peer("10.0.0.2", 2), peer("10.0.0.1", 1), peer("10.0.0.3", 3)];
    let active = vec![peer("10.0.0.2", 2)];
    let start = peers_to_start(&known, &active);
    assert_eq!(start, vec![peer("10.0.0.1", 1), peer("10.0.0.3", 3)]);
}

#[test]
fn full_pool_starts_nothing() {
    let active: Vec<Peer> = (0..MAX_PEERS as u64).map(|i| peer("10.0.0.9", i)).collect();
    let known = vec![peer("10.0.0.1", 1)];
    assert!(peers_to_start(&known, &active).is_empty());
}

#[test]
fn peer_id_has_prefix_and_random_part() {
    let id = generate_peer_id();
    assert_eq!(&id[..8], b"-RS0001-");
    assert!(id[8..].iter().all(|b| b.is_ascii_alphanumeric()));
    let fixed = peer_id_from(b"kONXltkhXIr5");
    assert_eq!(&fixed, b"-RS0001-kONXltkhXIr5");
    assert_eq!(peer_id_text(&fixed), "-RS0001-kONXltkhXIr5");
    let mut odd = fixed;
    odd[19] = b' ';
    assert_eq!(peer_id_text(&odd), "-RS0001-kONXltkhXIr%20");
}

#[test]
fn navigation_wraps_and_saturates() {
    let mut ui = TuiState::new();
    ui.navigate(NavDirection::Down, 3);
    ui.navigate(NavDirection::Down, 3);
    assert_eq!(ui.torrents_table.selected, 2);
    ui.navigate(NavDirection::Down, 3);
    assert_eq!(ui.torrents_table.selected, 0);
    ui.navigate(NavDirection::Right, 3);
    assert_eq!(ui.focused_pane, FocusedPane::Right);
    ui.navigate(NavDirection::Up, 3);
    assert_eq!(ui.torrent_details.selected, 0);
    ui.navigate(NavDirection::Down, 3);
    assert_eq!(ui.torrent_details.selected, 1);
    assert_eq!(ui.torrents_table.selected, 0);
}

#[test]
fn keys_raise_events() {
    let mut ui = TuiState::new();
    let keys = vec!["first".to_string(), "second".to_string()];
    assert_eq!(ui.handle_key(KeyInput::Char('k'), &keys), None);
    assert_eq!(ui.handle_key(KeyInput::Enter, &keys), Some(AppEventType::Download("second".to_string())));
    assert_eq!(ui.handle_key(KeyInput::Char('F'), &keys), None);
    assert_eq!(ui.focused_pane, FocusedPane::Right);
    assert_eq!(ui.torrent_details.selected_tab, 1);
    assert_eq!(ui.handle_key(KeyInput::Char('T'), &keys), None);
    assert_eq!(ui.focused_pane, FocusedPane::Left);
    assert_eq!(ui.handle_key(KeyInput::Esc, &keys), Some(AppEventType::Exit));
    assert_eq!(ui.handle_key(KeyInput::Char('q'), &keys), Some(AppEventType::Exit));
    assert_eq!(ui.handle_key(KeyInput::Enter, &vec![]), None);
}
