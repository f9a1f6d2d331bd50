use sortify::model::{
    artists, contains_track, display_at, has_id, owned_playlists, summary, Playlist, Track,
};

fn track(id: Option<&str>, name: &str, artist_names: &[&str]) -> Track {
    Track {
        id: id.map(String::from),
        name: String::from(name),
        artists: artist_names.iter().map(|a| String::from(*a)).collect(),
        preview_url: None,
        album_art_url: None,
    }
}

#[test]
fn summaries_join_name_and_artists() {
    let t = track(Some("T1"), "Song", &["A", "B"]);
    assert_eq!(artists(&t), "A, B");
    assert_eq!(summary(&t), "Song - A, B");
    let solo = track(None, "Tune", &["Solo"]);
    assert_eq!(summary(&solo), "Tune - Solo");
    let nobody = track(None, "Tune", &[]);
    assert_eq!(summary(&nobody), "Tune - ");
}

#[test]
fn the_display_block_stacks_art_name_and_artists() {
    let t = track(Some("T1"), "ab", &["cd"]);
    let block = display_at(&t, &String::from("ART"), 6);
    assert_eq!(block, "ART\n\u{1b}[1m  ab  \u{1b}[0m\n\u{1b}[3m  cd  \u{1b}[0m");
}

#[test]
fn only_the_owners_playlists_are_kept() {
    let ps = vec![
        Playlist { id: String::from("A"), name: String::from("Mine"), owner: String::from("me") },
        Playlist {
            id: String::from("B"),
            name: String::from("Theirs"),
            owner: String::from("them"),
        },
        Playlist { id: String::from("C"), name: String::from("Also"), owner: String::from("me") },
    ];
    let kept = owned_playlists(&ps, &String::from("me"));
    let names: Vec<String> = kept.iter().map(|p| p.name.clone()).collect();
    assert_eq!(names, vec![String::from("Mine"), String::from("Also")]);
}

#[test]
fn track_lists_are_searched_by_identifier() {
    let tracks = vec![
        track(None, "x", &[]),
        track(Some("T2"), "y", &[]),
        track(Some("T3"), "z", &[]),
    ];
    assert!(contains_track(&tracks, &String::from("T2")));
    assert!(!contains_track(&tracks, &String::from("T9")));
    assert!(has_id(&tracks[1], &String::from("T2")));
    assert!(!has_id(&tracks[0], &String::from("T2")));
}
