//! The data the sorter works on: tracks and playlists as plain values, and the
//! text blocks derived from them for the track display.

use vstd::prelude::*;
use crate::text::{
    center_spec, center_string_at, join_spec, join_with, screen_width, style_bold, style_italic,
    styled_spec, MAX_SCREEN_WIDTH,
};

verus! {

/// One track of the source playlist. A track with no identifier cannot be
/// sorted and is skipped outright.
#[derive(Clone)]
pub struct Track {
    pub id: Option<String>,
    pub name: String,
    pub artists: Vec<String>,
    pub preview_url: Option<String>,
    pub album_art_url: Option<String>,
}

/// One playlist of the operator's library.
#[derive(Clone)]
pub struct Playlist {
    pub id: String,
    pub name: String,
    pub owner: String,
}

/// A playlist as its contracts see it: each field as a character sequence.
pub struct PlaylistView {
    pub id: Seq<char>,
    pub name: Seq<char>,
    pub owner: Seq<char>,
}

impl View for Playlist {
    type V = PlaylistView;

    open spec fn view(&self) -> PlaylistView {
        PlaylistView { id: self.id@, name: self.name@, owner: self.owner@ }
    }
}

impl DeepView for Playlist {
    type V = PlaylistView;

    open spec fn deep_view(&self) -> PlaylistView {
        self.view()
    }
}

impl Playlist {
    /// An owned copy of the playlist, equal in every field.
    pub fn duplicate(&self) -> (r: Playlist)
        ensures
            r@ == self@,
    {
        Playlist { id: self.id.clone(), name: self.name.clone(), owner: self.owner.clone() }
    }
}

/// The track's artist names joined by a comma.
pub open spec fn artists_spec(t: Track) -> Seq<char> {
    join_spec(t.artists.deep_view(), seq![',', ' '])
}

/// The one-line summary of a track: its name, a dash, its artists.
pub open spec fn summary_spec(t: Track) -> Seq<char> {
    t.name@ + seq![' ', '-', ' '] + artists_spec(t)
}

/// The track's artist names joined by a comma.
pub fn artists(track: &Track) -> (r: String)
    ensures
        r@ == artists_spec(*track),
{
    proof {
        reveal_strlit(", ");
        assert((", ")@ =~= seq![',', ' ']);
    }
    join_with(&track.artists, ", ")
}

/// The one-line summary of a track: its name, a dash, its artists.
pub fn summary(track: &Track) -> (r: String)
    ensures
        r@ == summary_spec(*track),
{
    proof {
        reveal_strlit(" - ");
    }
    let mut r = track.name.clone();
    r.append(" - ");
    let a = artists(track);
    r.append(a.as_str());
    proof {
        assert(r@ =~= summary_spec(*track));
    }
    r
}

/// The track display block: the album art in text form, then the centered name
/// in bold and the centered artist line in italics.
pub open spec fn display_spec(t: Track, art: Seq<char>, w: nat) -> Seq<char> {
    art + seq!['\n'] + styled_spec(center_spec(t.name@, w), seq!['1']) + seq!['\n'] + styled_spec(
        center_spec(artists_spec(t), w),
        seq!['3'],
    )
}

/// The track display block for a screen of the given width.
pub fn display_at(track: &Track, art: &String, w: usize) -> (r: String)
    ensures
        r@ == display_spec(*track, art@, w as nat),
{
    proof {
        reveal_strlit("\n");
    }
    let mut r = art.clone();
    r.append("\n");
    let name = style_bold(center_string_at(&track.name, w).as_str());
    r.append(name.as_str());
    r.append("\n");
    let artist_names = artists(track);
    let artist_line = style_italic(center_string_at(&artist_names, w).as_str());
    r.append(artist_line.as_str());
    proof {
        assert(r@ =~= display_spec(*track, art@, w as nat));
    }
    r
}

/// The track display block for the current screen.
pub fn display(track: &Track, art: &String) -> (r: String)
    ensures
        exists|w: nat| w <= MAX_SCREEN_WIDTH && r@ == display_spec(*track, art@, w),
{
    let w = screen_width();
    let r = display_at(track, art, w);
    proof {
        assert(w as nat <= MAX_SCREEN_WIDTH && r@ == display_spec(*track, art@, w as nat));
    }
    r
}

/// Whether the playlist belongs to the given owner.
pub open spec fn owned_by(p: PlaylistView, owner: Seq<char>) -> bool {
    p.owner == owner
}

/// The playlists of `ps` that belong to `owner`, in their original order.
pub fn owned_playlists(ps: &Vec<Playlist>, owner: &String) -> (r: Vec<Playlist>)
    ensures
        r.deep_view() == ps.deep_view().filter(|p: PlaylistView| owned_by(p, owner@)),
{
    let ghost pred = |p: PlaylistView| owned_by(p, owner@);
    let ghost pv = ps.deep_view();
    let mut r: Vec<Playlist> = Vec::new();
    let mut i: usize = 0;
    proof {
        reveal(Seq::filter);
        assert(pv.take(0) =~= Seq::<PlaylistView>::empty());
        assert(r.deep_view() =~= pv.take(0).filter(pred));
    }
    while i < ps.len()
        invariant
            i <= ps.len(),
            pred == (|p: PlaylistView| owned_by(p, owner@)),
            pv == ps.deep_view(),
            r.deep_view() == pv.take(i as int).filter(pred),
        decreases ps.len() - i,
    {
        proof {
            reveal(Seq::filter);
            assert(pv.take(i + 1).drop_last() =~= pv.take(i as int));
            assert(pv.take(i + 1).last() == pv[i as int]);
        }
        if ps[i].owner == *owner {
            let ghost prev = r.deep_view();
            let copy = ps[i].duplicate();
            r.push(copy);
            proof {
                assert(r.deep_view() =~= prev.push(pv[i as int]));
            }
        }
        i = i + 1;
    }
    proof {
        assert(pv.take(ps.len() as int) =~= pv);
    }
    r
}

/// Whether the track carries exactly the given identifier.
pub open spec fn track_id_is(t: Track, id: Seq<char>) -> bool {
    match t.id {
        Some(s) => s@ == id,
        None => false,
    }
}

/// Whether some track of the list carries the given identifier.
pub open spec fn list_has_track(tracks: Seq<Track>, id: Seq<char>) -> bool {
    exists|i: int| 0 <= i < tracks.len() && track_id_is(#[trigger] tracks[i], id)
}

/// Whether the track carries exactly the given identifier.
pub fn has_id(track: &Track, id: &String) -> (r: bool)
    ensures
        r == track_id_is(*track, id@),
{
    match &track.id {
        Some(t) => *t == *id,
        None => false,
    }
}

/// Whether the track list contains a track with the given identifier.
pub fn contains_track(tracks: &Vec<Track>, id: &String) -> (r: bool)
    ensures
        r == list_has_track(tracks@, id@),
{
    let mut i: usize = 0;
    while i < tracks.len()
        invariant
            i <= tracks.len(),
            forall|j: int| 0 <= j < i ==> !track_id_is(#[trigger] tracks@[j], id@),
        decreases tracks.len() - i,
    {
        if has_id(&tracks[i], id) {
            proof {
                assert(track_id_is(tracks@[i as int], id@));
            }
            return true;
        }
        i = i + 1;
    }
    false
}

} // verus!
