use sortify::model::{Playlist, Track};
use sortify::reconcile::{StoreCommand, StoreEvent};
use sortify::session::{Command, ImageCache, SessionEvent, TrackSession};

fn track(id: Option<&str>) -> Track {
    Track {
        id: id.map(String::from),
        name: String::from("Song"),
        artists: vec![String::from("Artist")],
        preview_url: None,
        album_art_url: None,
    }
}

fn targets() -> Vec<Playlist> {
    vec![
        Playlist { id: String::from("A"), name: String::from("First"), owner: String::from("me") },
        Playlist { id: String::from("B"), name: String::from("Second"), owner: String::from("me") },
    ]
}

fn store(cmds: &[Command]) -> &StoreCommand {
    match cmds {
        [Command::Store(c)] => c,
        _ => panic!("expected exactly one store command"),
    }
}

fn line(text: &str) -> SessionEvent {
    SessionEvent::Line(String::from(text))
}

#[test]
fn a_track_without_identifier_causes_no_work_at_all() {
    let mut session =
        TrackSession::new(track(None), targets(), String::from("SRC"), 48, false);
    let cache = ImageCache::new();
    let cmds = session.start(&cache);
    assert!(cmds.is_empty());
    assert!(session.is_done());
    assert!(!session.quit_requested());
}

#[test]
fn quitting_stops_the_preview_and_reconciles_nothing() {
    let mut session =
        TrackSession::new(track(Some("T1")), targets(), String::from("SRC"), 48, false);
    let mut cache = ImageCache::new();
    let cmds = session.start(&cache);
    assert!(matches!(cmds.as_slice(), [Command::Display { .. }]));
    let cmds = session.step(&mut cache, &line("q"));
    assert!(matches!(cmds.as_slice(), [Command::StopPreview]));
    assert!(session.is_done());
    assert!(session.quit_requested());
}

#[test]
fn one_selected_target_is_sorted_removed_and_liked() {
    let mut session =
        TrackSession::new(track(Some("T1")), targets(), String::from("SRC"), 48, false);
    let mut cache = ImageCache::new();
    session.start(&cache);
    let cmds = session.step(&mut cache, &line("1"));
    assert!(matches!(cmds.as_slice(), [Command::Display { .. }]));
    let cmds = session.step(&mut cache, &line("a"));
    match store(&cmds) {
        StoreCommand::AddItem { playlist_id } => assert_eq!(playlist_id, "A"),
        _ => panic!("expected an add to A"),
    }
    let cmds = session.step(&mut cache, &SessionEvent::Store(StoreEvent::AddResult(true)));
    match store(&cmds) {
        StoreCommand::RemoveItem { playlist_id } => assert_eq!(playlist_id, "SRC"),
        _ => panic!("expected the source removal"),
    }
    let cmds = session.step(&mut cache, &SessionEvent::Store(StoreEvent::RemoveResult(true)));
    assert!(matches!(store(&cmds), StoreCommand::IsLiked));
    let cmds = session.step(&mut cache, &SessionEvent::Store(StoreEvent::LikedResult(false)));
    assert!(matches!(store(&cmds), StoreCommand::Like));
    let cmds = session.step(&mut cache, &SessionEvent::Store(StoreEvent::LikeResult(true)));
    match cmds.as_slice() {
        [Command::ShowFeedback { message }, Command::StopPreview] => {
            assert_eq!(message, "Sucessfully sorted Song - Artist");
        },
        _ => panic!("expected the feedback and the preview stop"),
    }
    assert!(session.is_done());
    assert!(!session.quit_requested());
}

#[test]
fn a_failed_add_with_the_track_listed_still_succeeds() {
    let mut session =
        TrackSession::new(track(Some("T1")), targets(), String::from("SRC"), 48, false);
    let mut cache = ImageCache::new();
    session.start(&cache);
    session.step(&mut cache, &line("1"));
    session.step(&mut cache, &line("a"));
    let cmds = session.step(&mut cache, &SessionEvent::Store(StoreEvent::AddResult(false)));
    match store(&cmds) {
        StoreCommand::ListContains { playlist_id } => assert_eq!(playlist_id, "A"),
        _ => panic!("expected a listing check of A"),
    }
    let cmds = session.step(&mut cache, &SessionEvent::Store(StoreEvent::ListResult(true)));
    match store(&cmds) {
        StoreCommand::RemoveItem { playlist_id } => assert_eq!(playlist_id, "SRC"),
        _ => panic!("expected the source removal"),
    }
    session.step(&mut cache, &SessionEvent::Store(StoreEvent::RemoveResult(true)));
    let cmds = session.step(&mut cache, &SessionEvent::Store(StoreEvent::LikedResult(true)));
    match cmds.as_slice() {
        [Command::ShowFeedback { message }, Command::StopPreview] => {
            assert_eq!(message, "Sucessfully sorted Song - Artist");
        },
        _ => panic!("expected a success feedback"),
    }
}

#[test]
fn volume_keys_adjust_the_gain_and_stay_in_the_menu() {
    let mut with_preview = track(Some("T1"));
    with_preview.preview_url = Some(String::from("http://preview"));
    let mut session =
        TrackSession::new(with_preview, targets(), String::from("SRC"), 48, true);
    let mut cache = ImageCache::new();
    let cmds = session.start(&cache);
    match cmds.as_slice() {
        [Command::StartPreview { url }, Command::Display { .. }] => {
            assert_eq!(url, "http://preview");
        },
        _ => panic!("expected the preview start and the menu"),
    }
    let cmds = session.step(&mut cache, &line("u"));
    match cmds.as_slice() {
        [Command::SetVolume { tenths }, Command::Display { .. }] => assert_eq!(*tenths, 11),
        _ => panic!("expected a volume change and a re-render"),
    }
    let cmds = session.step(&mut cache, &line("d"));
    match cmds.as_slice() {
        [Command::SetVolume { tenths }, Command::Display { .. }] => assert_eq!(*tenths, 10),
        _ => panic!("expected a volume change and a re-render"),
    }
    assert!(!session.is_done());
    match session.step(&mut cache, &line("a")).as_slice() {
        [Command::Store(StoreCommand::RemoveItem { playlist_id })] => {
            assert_eq!(playlist_id, "SRC");
        },
        _ => panic!("an empty add goes straight to the source removal"),
    }
}

#[test]
fn declining_a_removal_skips_without_any_store_mutation() {
    let mut session =
        TrackSession::new(track(Some("T1")), targets(), String::from("SRC"), 48, false);
    let mut cache = ImageCache::new();
    session.start(&cache);
    let cmds = session.step(&mut cache, &line("r"));
    match store(&cmds) {
        StoreCommand::Confirm { prompt } => {
            assert_eq!(prompt, "Do you wish to remove Song - Artist from the source playlist?");
        },
        _ => panic!("expected a confirmation question"),
    }
    let cmds = session.step(&mut cache, &SessionEvent::Store(StoreEvent::ConfirmAnswer(false)));
    match cmds.as_slice() {
        [Command::ShowFeedback { message }, Command::StopPreview] => {
            assert_eq!(message, "Skipped Song - Artist");
        },
        _ => panic!("expected the skip feedback"),
    }
    assert!(session.is_done());
    assert!(!session.quit_requested());
}

#[test]
fn fetched_art_is_cached_and_reused_but_failures_are_not() {
    let mut with_art = track(Some("T1"));
    with_art.album_art_url = Some(String::from("http://img"));
    let mut cache = ImageCache::new();
    let mut session =
        TrackSession::new(with_art.clone(), targets(), String::from("SRC"), 48, false);
    let cmds = session.start(&cache);
    match cmds.as_slice() {
        [Command::FetchArt { url }] => assert_eq!(url, "http://img"),
        _ => panic!("expected an art fetch"),
    }
    let cmds = session.step(
        &mut cache,
        &SessionEvent::ArtFetched(Some(String::from("ART"))),
    );
    assert!(matches!(cmds.as_slice(), [Command::Display { .. }]));
    assert_eq!(cache.lookup(&String::from("http://img")), Some(String::from("ART")));

    let mut second =
        TrackSession::new(with_art, targets(), String::from("SRC"), 48, false);
    let cmds = second.start(&cache);
    assert!(matches!(cmds.as_slice(), [Command::Display { .. }]));

    let mut other = track(Some("T2"));
    other.album_art_url = Some(String::from("http://other"));
    let mut third = TrackSession::new(other, targets(), String::from("SRC"), 48, false);
    third.start(&cache);
    let cmds = third.step(&mut cache, &SessionEvent::ArtFetched(None));
    assert!(matches!(cmds.as_slice(), [Command::Display { .. }]));
    assert_eq!(cache.lookup(&String::from("http://other")), None);
}

#[test]
fn the_menu_lists_targets_legend_and_prompt() {
    let mut session =
        TrackSession::new(track(Some("T1")), targets(), String::from("SRC"), 48, true);
    let cache = ImageCache::new();
    let cmds = session.start(&cache);
    let screen = match cmds.as_slice() {
        [Command::Display { screen }] => screen.clone(),
        _ => panic!("expected the menu"),
    };
    assert!(screen.contains("Choose playlists to add track to"));
    assert!(screen.contains("1 - First"));
    assert!(screen.contains("2 - Second"));
    assert!(screen.contains("a - Confirm and add to playlists"));
    assert!(screen.contains("s - Skip track"));
    assert!(screen.contains("r - Remove from source without adding"));
    assert!(screen.contains("u - Volume up | d - Volume down | Current volume: 1.0"));
    assert!(screen.contains("q - Quit"));
    assert!(screen.ends_with("Choice: "));
    assert!(screen.contains("no album art"));
}
