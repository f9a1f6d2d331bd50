use sortify::menu;
use sortify::model::Playlist;
use sortify::reconcile::{
    from_ui_track_action, track_action_feedback, AppliedAction, Reconciler, SpotifyPlaylistsError,
    StoreCommand, StoreEvent, TrackAction,
};

fn playlist(id: &str, name: &str) -> Playlist {
    Playlist { id: String::from(id), name: String::from(name), owner: String::from("me") }
}

fn add_decision(ids: &[&str]) -> TrackAction {
    TrackAction::Add(ids.iter().map(|s| String::from(*s)).collect())
}

fn expect_add_item(cmd: &Option<StoreCommand>, id: &str) {
    match cmd {
        Some(StoreCommand::AddItem { playlist_id }) => assert_eq!(playlist_id, id),
        _ => panic!("expected an add for {}", id),
    }
}

fn expect_remove_item(cmd: &Option<StoreCommand>, id: &str) {
    match cmd {
        Some(StoreCommand::RemoveItem { playlist_id }) => assert_eq!(playlist_id, id),
        _ => panic!("expected a removal of {}", id),
    }
}

#[test]
fn menu_outcomes_resolve_to_concrete_decisions() {
    let playlists = vec![playlist("A", "First"), playlist("B", "Second")];
    let picked = menu::TrackAction::Add(vec![1]);
    match from_ui_track_action(&picked, &playlists, String::from("SRC")) {
        TrackAction::Add(ids) => assert_eq!(ids, vec![String::from("B")]),
        _ => panic!("expected an add"),
    }
    match from_ui_track_action(&menu::TrackAction::Remove, &playlists, String::from("SRC")) {
        TrackAction::Remove(p) => assert_eq!(p, "SRC"),
        _ => panic!("expected a removal"),
    }
    assert!(matches!(
        from_ui_track_action(&menu::TrackAction::Skip, &playlists, String::from("SRC")),
        TrackAction::Skip
    ));
}

#[test]
fn a_skip_settles_at_once_with_no_calls() {
    let (rec, first) = Reconciler::new(
        TrackAction::Skip,
        String::from("SRC"),
        &String::from("Song - Artist"),
    );
    assert!(first.is_none());
    assert!(rec.is_done());
    assert!(matches!(rec.outcome(), Some(Ok(AppliedAction::Skip))));
}

#[test]
fn each_target_is_added_once_then_source_removed_then_liked() {
    let (mut rec, first) = Reconciler::new(
        add_decision(&["A", "B"]),
        String::from("SRC"),
        &String::from("Song - Artist"),
    );
    expect_add_item(&first, "A");
    let c2 = rec.step(&StoreEvent::AddResult(true));
    expect_add_item(&c2, "B");
    let c3 = rec.step(&StoreEvent::AddResult(true));
    expect_remove_item(&c3, "SRC");
    let c4 = rec.step(&StoreEvent::RemoveResult(true));
    assert!(matches!(c4, Some(StoreCommand::IsLiked)));
    let c5 = rec.step(&StoreEvent::LikedResult(false));
    assert!(matches!(c5, Some(StoreCommand::Like)));
    let c6 = rec.step(&StoreEvent::LikeResult(true));
    assert!(c6.is_none());
    assert!(rec.is_done());
    assert!(matches!(rec.outcome(), Some(Ok(AppliedAction::Add))));
}

#[test]
fn a_failed_add_with_the_track_already_present_is_no_error() {
    let (mut rec, first) = Reconciler::new(
        add_decision(&["A"]),
        String::from("SRC"),
        &String::from("Song - Artist"),
    );
    expect_add_item(&first, "A");
    let c2 = rec.step(&StoreEvent::AddResult(false));
    match c2 {
        Some(StoreCommand::ListContains { playlist_id }) => assert_eq!(playlist_id, "A"),
        _ => panic!("expected a listing check"),
    }
    let c3 = rec.step(&StoreEvent::ListResult(true));
    expect_remove_item(&c3, "SRC");
    rec.step(&StoreEvent::RemoveResult(true));
    let c5 = rec.step(&StoreEvent::LikedResult(true));
    assert!(c5.is_none());
    assert!(rec.is_done());
    assert!(matches!(rec.outcome(), Some(Ok(AppliedAction::Add))));
}

#[test]
fn a_failed_add_confirmed_absent_names_the_playlist() {
    let (mut rec, _) = Reconciler::new(
        add_decision(&["A"]),
        String::from("SRC"),
        &String::from("Song - Artist"),
    );
    rec.step(&StoreEvent::AddResult(false));
    let c = rec.step(&StoreEvent::ListResult(false));
    match c {
        Some(StoreCommand::GetName { playlist_id }) => assert_eq!(playlist_id, "A"),
        _ => panic!("expected a name lookup"),
    }
    rec.step(&StoreEvent::NameResult(Some(String::from("First"))));
    rec.step(&StoreEvent::RemoveResult(false));
    rec.step(&StoreEvent::LikedResult(true));
    assert!(rec.is_done());
    match rec.outcome() {
        Some(Err(SpotifyPlaylistsError::Add(names))) => {
            assert_eq!(names, &vec![String::from("First")]);
        },
        _ => panic!("expected an add failure naming First"),
    }
}

#[test]
fn a_nameless_playlist_is_reported_by_identifier() {
    let (mut rec, _) = Reconciler::new(
        add_decision(&["A"]),
        String::from("SRC"),
        &String::from("Song - Artist"),
    );
    rec.step(&StoreEvent::AddResult(false));
    rec.step(&StoreEvent::ListResult(false));
    rec.step(&StoreEvent::NameResult(None));
    rec.step(&StoreEvent::RemoveResult(true));
    rec.step(&StoreEvent::LikedResult(true));
    match rec.outcome() {
        Some(Err(SpotifyPlaylistsError::Add(names))) => {
            assert_eq!(names, &vec![String::from("Playlist with ID A")]);
        },
        _ => panic!("expected an add failure with the fallback name"),
    }
}

#[test]
fn a_failed_like_is_reported_under_liked_songs() {
    let (mut rec, _) = Reconciler::new(
        add_decision(&["A"]),
        String::from("SRC"),
        &String::from("Song - Artist"),
    );
    rec.step(&StoreEvent::AddResult(true));
    rec.step(&StoreEvent::RemoveResult(true));
    rec.step(&StoreEvent::LikedResult(false));
    rec.step(&StoreEvent::LikeResult(false));
    assert!(rec.is_done());
    match rec.outcome() {
        Some(Err(SpotifyPlaylistsError::Add(names))) => {
            assert_eq!(names, &vec![String::from("Liked Songs")]);
        },
        _ => panic!("expected a liked-songs failure"),
    }
}

#[test]
fn an_empty_add_only_removes_from_source_and_likes() {
    let (mut rec, first) = Reconciler::new(
        add_decision(&[]),
        String::from("SRC"),
        &String::from("Song - Artist"),
    );
    expect_remove_item(&first, "SRC");
    let c2 = rec.step(&StoreEvent::RemoveResult(false));
    assert!(matches!(c2, Some(StoreCommand::IsLiked)));
    let c3 = rec.step(&StoreEvent::LikedResult(true));
    assert!(c3.is_none());
    assert!(rec.is_done());
    assert!(matches!(rec.outcome(), Some(Ok(AppliedAction::Add))));
}

#[test]
fn a_removal_asks_for_confirmation_first() {
    let (mut rec, first) = Reconciler::new(
        TrackAction::Remove(String::from("SRC")),
        String::from("SRC"),
        &String::from("Song - Artist"),
    );
    match first {
        Some(StoreCommand::Confirm { prompt }) => {
            assert_eq!(
                prompt,
                "Do you wish to remove Song - Artist from the source playlist?"
            );
        },
        _ => panic!("expected a confirmation question"),
    }
    let c2 = rec.step(&StoreEvent::ConfirmAnswer(true));
    expect_remove_item(&c2, "SRC");
    let c3 = rec.step(&StoreEvent::RemoveResult(true));
    assert!(c3.is_none());
    assert!(rec.is_done());
    assert!(matches!(rec.outcome(), Some(Ok(AppliedAction::Remove))));
}

#[test]
fn a_declined_removal_is_a_successful_skip_with_no_removal_call() {
    let (mut rec, first) = Reconciler::new(
        TrackAction::Remove(String::from("SRC")),
        String::from("SRC"),
        &String::from("Song - Artist"),
    );
    assert!(matches!(first, Some(StoreCommand::Confirm { .. })));
    let c2 = rec.step(&StoreEvent::ConfirmAnswer(false));
    assert!(c2.is_none());
    assert!(rec.is_done());
    assert!(matches!(rec.outcome(), Some(Ok(AppliedAction::Skip))));
}

#[test]
fn a_failed_removal_names_the_source_playlist() {
    let (mut rec, _) = Reconciler::new(
        TrackAction::Remove(String::from("SRC")),
        String::from("SRC"),
        &String::from("Song - Artist"),
    );
    rec.step(&StoreEvent::ConfirmAnswer(true));
    let c = rec.step(&StoreEvent::RemoveResult(false));
    match c {
        Some(StoreCommand::GetName { playlist_id }) => assert_eq!(playlist_id, "SRC"),
        _ => panic!("expected a name lookup"),
    }
    rec.step(&StoreEvent::NameResult(None));
    match rec.outcome() {
        Some(Err(SpotifyPlaylistsError::Remove(names))) => {
            assert_eq!(names, &vec![String::from("Playlist with ID SRC")]);
        },
        _ => panic!("expected a removal failure with the fallback name"),
    }
}

#[test]
fn feedback_lines_match_the_outcome() {
    let s = String::from("Song - Artist");
    assert_eq!(track_action_feedback(&s, &Ok(AppliedAction::Add)), "Sucessfully sorted Song - Artist");
    assert_eq!(
        track_action_feedback(&s, &Ok(AppliedAction::Remove)),
        "Removed Song - Artist from source playlist without sorting it"
    );
    assert_eq!(track_action_feedback(&s, &Ok(AppliedAction::Skip)), "Skipped Song - Artist");
    assert_eq!(
        track_action_feedback(
            &s,
            &Err(SpotifyPlaylistsError::Add(vec![String::from("First"), String::from("Liked Songs")]))
        ),
        "Failed to add Song - Artist to the playlist(s) First, Liked Songs"
    );
    assert_eq!(
        track_action_feedback(&s, &Err(SpotifyPlaylistsError::Remove(vec![String::from("First")]))),
        "Failed to remove Song - Artist from the playlist(s) First"
    );
}
