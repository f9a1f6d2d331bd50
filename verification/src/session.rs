//! The per-track decision orchestrator.
//!
//! A [`TrackSession`] walks one track through its whole life: start the audio
//! preview, show the menu until the operator settles on an action, hand the
//! action to the [`crate::reconcile::Reconciler`], show the one feedback line,
//! and stop the preview. Like the reconciler it never performs terminal,
//! audio or network work itself: it emits [`Command`]s for the shell and
//! consumes [`SessionEvent`]s.

use vstd::prelude::*;
use crate::menu::{
    self, apply_tokens, is_command, menu_screen, menu_screen_spec, names_of, trim_spec,
    SelectionState,
};
use crate::model::{display_at, display_spec, summary, summary_spec, Playlist, PlaylistView, Track};
use crate::reconcile::{
    cmd_calls, confirm_prompt_spec, decision_targets, distinct_seqs, feedback_spec,
    from_ui_track_action, step_rel, track_action_feedback, AppliedAction, DecisionView,
    ErrorView, Reconciler, StoreCall, StoreCommand, StoreEvent,
};

verus! {

/// Remembers each album-art URL's rendered text form for the life of the
/// process. Only successful renders are remembered: a placeholder is never
/// cached, so a failed render is retried on the next look.
pub struct ImageCache {
    entries: Vec<(String, String)>,
}

/// The text block cached for `url`: the first entry that carries it.
pub open spec fn cache_lookup(entries: Seq<(String, String)>, url: Seq<char>) -> Option<Seq<char>>
    decreases entries.len(),
{
    if entries.len() == 0 {
        None
    } else if entries[0].0@ == url {
        Some(entries[0].1@)
    } else {
        cache_lookup(entries.skip(1), url)
    }
}

proof fn lemma_cache_lookup_at(entries: Seq<(String, String)>, url: Seq<char>, i: int)
    requires
        0 <= i <= entries.len(),
        forall|j: int| 0 <= j < i ==> (#[trigger] entries[j]).0@ != url,
    ensures
        cache_lookup(entries, url) == if i < entries.len() && entries[i].0@ == url {
            Some(entries[i].1@)
        } else {
            cache_lookup(entries.skip(i), url)
        },
    decreases i,
{
    if i > 0 {
        assert(entries[0].0@ != url);
        assert forall|j: int| 0 <= j < i - 1 implies (#[trigger] entries.skip(1)[j]).0@ != url by {
            assert(entries.skip(1)[j] == entries[j + 1]);
        }
        lemma_cache_lookup_at(entries.skip(1), url, i - 1);
        if i < entries.len() {
            assert(entries.skip(1)[i - 1] == entries[i]);
        }
        assert(entries.skip(1).skip(i - 1) =~= entries.skip(i));
    } else {
        assert(entries.skip(0) =~= entries);
    }
}

impl ImageCache {
    /// The cached entries, in insertion order.
    pub closed spec fn entries_view(&self) -> Seq<(String, String)> {
        self.entries@
    }

    /// An empty cache.
    pub fn new() -> (r: ImageCache)
        ensures
            r.entries_view() == Seq::<(String, String)>::empty(),
    {
        ImageCache { entries: Vec::new() }
    }

    /// The rendered text cached for `url`, if any.
    pub fn lookup(&self, url: &String) -> (r: Option<String>)
        ensures
            match r {
                Some(text) => cache_lookup(self.entries_view(), url@) == Some(text@),
                None => cache_lookup(self.entries_view(), url@) is None,
            },
    {
        let mut i: usize = 0;
        while i < self.entries.len()
            invariant
                i <= self.entries@.len(),
                forall|j: int| 0 <= j < i ==> (#[trigger] self.entries@[j]).0@ != url@,
            decreases self.entries@.len() - i,
        {
            if self.entries[i].0.eq(url) {
                proof {
                    lemma_cache_lookup_at(self.entries@, url@, i as int);
                }
                return Some(self.entries[i].1.clone());
            }
            i = i + 1;
        }
        proof {
            lemma_cache_lookup_at(self.entries@, url@, self.entries@.len() as int);
            assert(self.entries@.skip(self.entries@.len() as int) =~= Seq::<(
                String,
                String,
            )>::empty());
        }
        None
    }

    /// Remember `text` for `url`, unless the URL is already cached: an entry,
    /// once made, is never replaced.
    pub fn insert(&mut self, url: &String, text: String)
        ensures
            cache_lookup(final(self).entries_view(), url@) == Some(
                match cache_lookup(old(self).entries_view(), url@) {
                    Some(t) => t,
                    None => text@,
                },
            ),
    {
        match self.lookup(url) {
            Some(_) => {},
            None => {
                let ghost pre = self.entries@;
                let ghost tv = text@;
                let key = url.clone();
                self.entries.push((key, text));
                proof {
                    lemma_cache_lookup_none(pre, url@);
                    assert forall|j: int| 0 <= j < pre.len() implies (
                    #[trigger] self.entries@[j]).0@ != url@ by {
                        assert(self.entries@[j] == pre[j]);
                    }
                    lemma_cache_lookup_at(self.entries@, url@, pre.len() as int);
                    assert((self.entries@[pre.len() as int]).0@ == url@);
                    assert((self.entries@[pre.len() as int]).1@ == tv);
                }
            },
        }
    }
}

/// One piece of outside work the session asks the shell to perform.
pub enum Command {
    /// Start looping the track's audio preview from this URL, without
    /// delaying anything else.
    StartPreview { url: String },
    /// Stop the preview; safe even if playback never started.
    StopPreview,
    /// Set the preview gain to `tenths` tenths of the full volume.
    SetVolume { tenths: u8 },
    /// Fetch the album art behind this URL and render it as text.
    FetchArt { url: String },
    /// Clear the screen, print this menu, and read one line of input.
    Display { screen: String },
    /// Clear the screen and print this feedback line.
    ShowFeedback { message: String },
    /// Perform this remote store operation (or confirmation question).
    Store(StoreCommand),
}

/// A command as contracts see it.
pub enum CommandView {
    StartPreview(Seq<char>),
    StopPreview,
    SetVolume(u8),
    FetchArt(Seq<char>),
    Display(Seq<char>),
    ShowFeedback(Seq<char>),
    Store(StoreCall),
}

impl View for Command {
    type V = CommandView;

    open spec fn view(&self) -> CommandView {
        match self {
            Command::StartPreview { url } => CommandView::StartPreview(url@),
            Command::StopPreview => CommandView::StopPreview,
            Command::SetVolume { tenths } => CommandView::SetVolume(*tenths),
            Command::FetchArt { url } => CommandView::FetchArt(url@),
            Command::Display { screen } => CommandView::Display(screen@),
            Command::ShowFeedback { message } => CommandView::ShowFeedback(message@),
            Command::Store(c) => CommandView::Store(c@),
        }
    }
}

/// The views of a batch of commands, in order.
pub open spec fn views_of(cmds: Seq<Command>) -> Seq<CommandView> {
    cmds.map_values(|c: Command| c@)
}

/// What the shell hands back to the session.
pub enum SessionEvent {
    /// The rendered album art, or nothing when fetching or rendering failed.
    ArtFetched(Option<String>),
    /// One line of operator input, answering a `Display` command.
    Line(String),
    /// The store's answer to a `Store` command.
    Store(StoreEvent),
}

/// Where the session stands.
#[derive(Clone, Copy)]
pub enum SessionPhase {
    /// Created, nothing emitted yet.
    Ready,
    /// The album art fetch is out.
    AwaitArt,
    /// The menu is on screen; a line of input is awaited.
    AwaitLine,
    /// A decision is being applied by the reconciler.
    Reconciling,
    /// The track is dealt with; the caller moves on to the next one.
    DoneNext,
    /// The operator quit; the caller ends the whole run.
    DoneQuit,
}

/// The identifiers of the playlists, in order.
pub open spec fn playlist_ids(ps: Seq<PlaylistView>) -> Seq<Seq<char>> {
    ps.map_values(|p: PlaylistView| p.id)
}

/// Whether a history has no store call in it.
pub open spec fn no_store(h: Seq<CommandView>) -> bool {
    forall|j: int| 0 <= j < h.len() ==> !(#[trigger] h[j] is Store)
}

/// Whether the phase comes before any reconciliation (or forgoes it).
pub open spec fn pre_store_phase(p: SessionPhase) -> bool {
    p is Ready || p is AwaitArt || p is AwaitLine || p is DoneQuit
}

/// The fixed text block standing in for album art that could not be
/// rendered, picked by screen width; it is never cached.
pub open spec fn placeholder_spec(w: nat) -> Seq<char> {
    if w >= 48 {
        "+----------------------------------------------+\n|                 no album art                 |\n+----------------------------------------------+"@
    } else {
        "+------------------------------+\n|         no album art         |\n+------------------------------+"@
    }
}

/// The placeholder art block for a screen `w` wide.
pub fn placeholder_art(w: usize) -> (r: String)
    ensures
        r@ == placeholder_spec(w as nat),
{
    if w >= 48 {
        "+----------------------------------------------+\n|                 no album art                 |\n+----------------------------------------------+".to_owned()
    } else {
        "+------------------------------+\n|         no album art         |\n+------------------------------+".to_owned()
    }
}

/// Walks one track through preview, menu, reconciliation and feedback.
pub struct TrackSession {
    track: Track,
    playlists: Vec<Playlist>,
    source_id: String,
    width: usize,
    audio_available: bool,
    volume_tenths: u8,
    selection: SelectionState,
    art: Option<String>,
    rec: Option<Reconciler>,
    phase: SessionPhase,
    history: Ghost<Seq<CommandView>>,
}

/// The preview gain after one volume keypress, clamped to the fixed range.
pub open spec fn bump_volume(t: u8, up: bool) -> u8 {
    if up {
        if t < 20 {
            (t + 1) as u8
        } else {
            t
        }
    } else {
        if t > 0 {
            (t - 1) as u8
        } else {
            t
        }
    }
}

impl TrackSession {
    /// Every command emitted so far, oldest first.
    pub closed spec fn calls(&self) -> Seq<CommandView> {
        self.history@
    }

    /// Where the session stands.
    pub closed spec fn phase(&self) -> SessionPhase {
        self.phase
    }

    /// The track being decided on.
    pub closed spec fn track_view(&self) -> Track {
        self.track
    }

    /// The target playlists, in their fixed session order.
    pub closed spec fn playlists_view(&self) -> Seq<PlaylistView> {
        self.playlists.deep_view()
    }

    /// The source playlist's identifier.
    pub closed spec fn source(&self) -> Seq<char> {
        self.source_id@
    }

    /// The screen width the session renders for.
    pub closed spec fn screen_w(&self) -> nat {
        self.width as nat
    }

    /// Whether an audio player exists, so that the menu offers volume keys.
    pub closed spec fn audio(&self) -> bool {
        self.audio_available
    }

    /// The preview gain, in tenths of full volume.
    pub closed spec fn volume(&self) -> u8 {
        self.volume_tenths
    }

    /// The tick marks of the target selection.
    pub closed spec fn selection_view(&self) -> Seq<bool> {
        self.selection@
    }

    /// The resolved album-art text block, once there is one.
    pub closed spec fn art_view(&self) -> Option<Seq<char>> {
        match self.art {
            Some(ref a) => Some(a@),
            None => None,
        }
    }

    /// The reconciler applying the settled decision, while one runs.
    pub closed spec fn rec_view(&self) -> Option<Reconciler> {
        self.rec
    }

    /// What every reachable session satisfies.
    pub closed spec fn inv(&self) -> bool {
        &&& self.selection@.len() == self.playlists@.len()
        &&& self.playlists@.len() < usize::MAX
        &&& distinct_seqs(playlist_ids(self.playlists.deep_view()))
        &&& self.volume_tenths <= 20
        &&& (self.track.id is None ==> (self.phase is Ready || self.phase is DoneNext)
            && self.history@ == Seq::<CommandView>::empty())
        &&& (pre_store_phase(self.phase) ==> no_store(self.history@))
        &&& (self.phase is Ready ==> self.history@ == Seq::<CommandView>::empty())
        &&& (self.phase is DoneQuit ==> self.history@.len() > 0
            && self.history@.last() is StopPreview)
        &&& (self.phase is Reconciling ==> (self.rec matches Some(rc) && rc.inv() && !(rc.phase() is Done)))
        &&& (self.phase is AwaitLine ==> self.art matches Some(_))
    }

    /// A fresh session for one track, before anything has been emitted.
    ///
    /// The target list is fixed for the whole session — selections are
    /// positions into it — and its playlists are pairwise distinct.
    pub fn new(
        track: Track,
        playlists: Vec<Playlist>,
        source_id: String,
        width: usize,
        audio_available: bool,
    ) -> (r: TrackSession)
        requires
            distinct_seqs(playlist_ids(playlists.deep_view())),
            playlists@.len() < usize::MAX,
        ensures
            r.inv(),
            r.phase() is Ready,
            r.calls() == Seq::<CommandView>::empty(),
            r.track_view() == track,
            r.playlists_view() == playlists.deep_view(),
            r.source() == source_id@,
            r.screen_w() == width as nat,
            r.audio() == audio_available,
            r.volume() == 10u8,
            r.selection_view() == Seq::new(playlists@.len(), |i: int| false),
    {
        let n = playlists.len();
        let selection = SelectionState::new(n);
        let ghost e: Seq<CommandView> = Seq::empty();
        TrackSession {
            track,
            playlists,
            source_id,
            width,
            audio_available,
            volume_tenths: 10,
            selection,
            art: None,
            rec: None,
            phase: SessionPhase::Ready,
            history: Ghost(e),
        }
    }

    /// Whether the session is finished with this track.
    pub fn is_done(&self) -> (r: bool)
        ensures
            r == (self.phase() is DoneNext || self.phase() is DoneQuit),
    {
        match self.phase {
            SessionPhase::DoneNext => true,
            SessionPhase::DoneQuit => true,
            _ => false,
        }
    }

    /// Whether the operator asked to end the whole run.
    pub fn quit_requested(&self) -> (r: bool)
        ensures
            r == (self.phase() is DoneQuit),
    {
        match self.phase {
            SessionPhase::DoneQuit => true,
            _ => false,
        }
    }
}

/// The track, target list, source, screen width and audio availability are
/// fixed for the whole session.
pub open spec fn same_setting(pre: TrackSession, post: TrackSession) -> bool {
    &&& post.track_view() == pre.track_view()
    &&& post.playlists_view() == pre.playlists_view()
    &&& post.source() == pre.source()
    &&& post.screen_w() == pre.screen_w()
    &&& post.audio() == pre.audio()
}

/// The preview command a track warrants: one start when an audio player
/// exists and the track has a preview URL, none otherwise.
pub open spec fn preview_cmds(t: Track, audio: bool) -> Seq<CommandView> {
    match t.preview_url {
        Some(u) => if audio {
            seq![CommandView::StartPreview(u@)]
        } else {
            Seq::empty()
        },
        None => Seq::empty(),
    }
}

impl TrackSession {
    /// The menu prompt the session would show right now.
    pub open spec fn menu_screen_now(&self) -> Seq<char> {
        menu_screen_spec(
            display_spec(
                self.track_view(),
                match self.art_view() {
                    Some(a) => a,
                    None => Seq::empty(),
                },
                self.screen_w(),
            ),
            names_of(self.playlists_view()),
            self.selection_view(),
            if self.audio() {
                Some(self.volume())
            } else {
                None
            },
            self.screen_w(),
        )
    }

    fn render_menu(&self) -> (r: String)
        requires
            self.selection_view().len() == self.playlists_view().len(),
            self.playlists_view().len() < usize::MAX,
            self.art_view() is Some,
        ensures
            r@ == self.menu_screen_now(),
    {
        proof {
            assert(self.playlists.deep_view().len() == self.playlists@.len());
        }
        let art_ref: &String = match &self.art {
            Some(a) => a,
            None => {
                proof {
                    assert(false);
                }
                &self.source_id
            },
        };
        let disp = display_at(&self.track, art_ref, self.width);
        let vol: Option<u8> = if self.audio_available {
            Some(self.volume_tenths)
        } else {
            None
        };
        menu_screen(&disp, &self.playlists, &self.selection, vol, self.width)
    }

    /// Begin the track: nothing at all for a track without an identifier;
    /// otherwise the preview start (when possible), then either the cached
    /// menu render or the album-art fetch.
    pub fn start(&mut self, cache: &ImageCache) -> (cmds: Vec<Command>)
        requires
            old(self).inv(),
            old(self).phase() is Ready,
        ensures
            final(self).inv(),
            same_setting(*old(self), *final(self)),
            final(self).calls() == old(self).calls() + views_of(cmds@),
            final(self).selection_view() == old(self).selection_view(),
            final(self).volume() == old(self).volume(),
            old(self).track_view().id is None ==> views_of(cmds@) == Seq::<CommandView>::empty()
                && final(self).phase() is DoneNext,
            old(self).track_view().id is Some ==> ({
                let t = old(self).track_view();
                let pre = preview_cmds(t, old(self).audio());
                match t.album_art_url {
                    Some(ref url) => match cache_lookup(cache.entries_view(), url@) {
                        Some(text) => {
                            &&& views_of(cmds@) == pre + seq![
                                CommandView::Display(final(self).menu_screen_now()),
                            ]
                            &&& final(self).phase() is AwaitLine
                            &&& final(self).art_view() == Some(text)
                        },
                        None => {
                            &&& views_of(cmds@) == pre + seq![CommandView::FetchArt(url@)]
                            &&& final(self).phase() is AwaitArt
                        },
                    },
                    None => {
                        &&& views_of(cmds@) == pre + seq![
                            CommandView::Display(final(self).menu_screen_now()),
                        ]
                        &&& final(self).phase() is AwaitLine
                        &&& final(self).art_view() == Some(placeholder_spec(old(self).screen_w()))
                    },
                }
            }),
    {
        let mut cmds: Vec<Command> = Vec::new();
        let has_id = match &self.track.id {
            Some(_) => true,
            None => false,
        };
        if !has_id {
            self.phase = SessionPhase::DoneNext;
            proof {
                assert(views_of(cmds@) =~= Seq::<CommandView>::empty());
                assert(self.history@ =~= self.history@ + views_of(cmds@));
            }
            return cmds;
        }
        if self.audio_available {
            match &self.track.preview_url {
                Some(url) => {
                    cmds.push(Command::StartPreview { url: url.clone() });
                },
                None => {},
            }
        }
        proof {
            assert(views_of(cmds@) =~= preview_cmds(self.track, self.audio_available));
        }
        let art_url: Option<String> = match &self.track.album_art_url {
            Some(url) => Some(url.clone()),
            None => None,
        };
        match art_url {
            Some(url) => {
                match cache.lookup(&url) {
                    Some(text) => {
                        self.art = Some(text);
                        self.phase = SessionPhase::AwaitLine;
                        let screen = self.render_menu();
                        let ghost before = cmds@;
                        cmds.push(Command::Display { screen });
                        proof {
                            assert(views_of(cmds@) =~= views_of(before) + seq![
                                CommandView::Display(self.menu_screen_now()),
                            ]);
                        }
                    },
                    None => {
                        self.phase = SessionPhase::AwaitArt;
                        let ghost before = cmds@;
                        cmds.push(Command::FetchArt { url });
                        proof {
                            assert(views_of(cmds@) =~= views_of(before) + seq![
                                CommandView::FetchArt(
                                    match self.track.album_art_url {
                                        Some(u) => u@,
                                        None => Seq::empty(),
                                    },
                                ),
                            ]);
                        }
                    },
                }
            },
            None => {
                self.art = Some(placeholder_art(self.width));
                self.phase = SessionPhase::AwaitLine;
                let screen = self.render_menu();
                let ghost before = cmds@;
                cmds.push(Command::Display { screen });
                proof {
                    assert(views_of(cmds@) =~= views_of(before) + seq![
                        CommandView::Display(self.menu_screen_now()),
                    ]);
                }
            },
        }
        self.history = Ghost(self.history@ + views_of(cmds@));
        proof {
            assert(no_store(views_of(cmds@)));
            assert(no_store(self.history@));
        }
        cmds
    }
}

impl TrackSession {
    /// Hand a terminal menu action to a fresh reconciler. A decision that
    /// settles at once (a skip) produces the feedback and preview stop right
    /// away; any other decision leaves the session reconciling, with the
    /// reconciler's first store command out.
    fn begin_reconcile(&mut self, action: menu::TrackAction) -> (cmds: Vec<Command>)
        requires
            old(self).inv(),
            old(self).phase() is AwaitLine,
            !(action matches menu::TrackAction::Quit),
            !(action matches menu::TrackAction::ChangeVolume(_)),
            action matches menu::TrackAction::Add(idx) ==> idx@ == menu::selected_indices_spec(
                old(self).selection_view(),
            ),
        ensures
            final(self).inv(),
            same_setting(*old(self), *final(self)),
            final(self).calls() == old(self).calls() + views_of(cmds@),
            final(self).selection_view() == old(self).selection_view(),
            final(self).volume() == old(self).volume(),
            match action {
                menu::TrackAction::Skip => {
                    &&& final(self).phase() is DoneNext
                    &&& views_of(cmds@) == seq![
                        CommandView::ShowFeedback(
                            feedback_spec(
                                summary_spec(old(self).track_view()),
                                Result::<AppliedAction, ErrorView>::Ok(AppliedAction::Skip),
                            ),
                        ),
                        CommandView::StopPreview,
                    ]
                },
                menu::TrackAction::Remove => {
                    &&& final(self).phase() is Reconciling
                    &&& views_of(cmds@) == seq![
                        CommandView::Store(
                            StoreCall::Confirm(
                                confirm_prompt_spec(summary_spec(old(self).track_view())),
                            ),
                        ),
                    ]
                    &&& (final(self).rec_view() matches Some(rc) && rc.decision_view()
                        == DecisionView::Remove(old(self).source()) && rc.phase() is Confirming)
                },
                menu::TrackAction::Add(_) => ({
                    let ids = menu::selected_indices_spec(old(self).selection_view()).map_values(
                        |i: usize| old(self).playlists_view()[i as int].id,
                    );
                    &&& (final(self).rec_view() matches Some(rc) && rc.decision_view()
                        == DecisionView::Add(ids))
                    &&& if ids.len() == 0 {
                        &&& final(self).phase() is Reconciling
                        &&& views_of(cmds@) == seq![
                            CommandView::Store(StoreCall::RemoveItem(old(self).source())),
                        ]
                    } else {
                        &&& final(self).phase() is Reconciling
                        &&& views_of(cmds@) == seq![
                            CommandView::Store(StoreCall::AddItem(ids[0])),
                        ]
                    }
                }),
                _ => false,
            },
    {
        proof {
            assert(self.playlists.deep_view().len() == self.playlists@.len());
            menu::lemma_selected_indices_bounds(self.selection@);
        }
        let track_summary = summary(&self.track);
        let decision = from_ui_track_action(&action, &self.playlists, self.source_id.clone());
        let ghost gdec = decision;
        proof {
            match action {
                menu::TrackAction::Add(ref idx) => {
                    let ids_expected = menu::selected_indices_spec(
                        old(self).selection_view(),
                    ).map_values(|i: usize| old(self).playlists_view()[i as int].id);
                    assert(decision_targets(gdec) =~~= ids_expected);
                },
                _ => {},
            }
        }
        proof {
            match action {
                menu::TrackAction::Add(ref idx) => {
                    let ids = decision_targets(decision);
                    let pv = self.playlists.deep_view();
                    assert forall|m1: int, m2: int|
                        #![trigger ids[m1], ids[m2]]
                        0 <= m1 < m2 < ids.len() implies ids[m1] != ids[m2] by {
                        assert(ids[m1] == pv[idx@[m1] as int].id);
                        assert(ids[m2] == pv[idx@[m2] as int].id);
                        assert(idx@[m1] < idx@[m2] < pv.len());
                        assert(playlist_ids(pv)[idx@[m1] as int] == pv[idx@[m1] as int].id);
                        assert(playlist_ids(pv)[idx@[m2] as int] == pv[idx@[m2] as int].id);
                    }
                    assert(distinct_seqs(decision_targets(decision)));
                },
                _ => {
                    assert(decision_targets(decision) =~= Seq::<Seq<char>>::empty());
                },
            }
        }
        let (rc, first) = Reconciler::new(decision, self.source_id.clone(), &track_summary);
        let mut cmds: Vec<Command> = Vec::new();
        if rc.is_done() {
            let msg = match rc.outcome() {
                Some(res) => track_action_feedback(&track_summary, res),
                None => String::new(),
            };
            self.rec = Some(rc);
            self.phase = SessionPhase::DoneNext;
            cmds.push(Command::ShowFeedback { message: msg });
            cmds.push(Command::StopPreview);
            proof {
                assert(views_of(cmds@) =~= seq![
                    CommandView::ShowFeedback(
                        feedback_spec(
                            summary_spec(self.track),
                            Result::<AppliedAction, ErrorView>::Ok(AppliedAction::Skip),
                        ),
                    ),
                    CommandView::StopPreview,
                ]);
            }
        } else {
            self.rec = Some(rc);
            self.phase = SessionPhase::Reconciling;
            let ghost gfirst = first;
            match first {
                Some(c) => {
                    let ghost cv = c@;
                    cmds.push(Command::Store(c));
                    proof {
                        assert(cmd_calls(gfirst) =~= seq![cv]);
                        assert(cmd_calls(gfirst)[0] == cv);
                        assert(views_of(cmds@) =~= seq![CommandView::Store(cv)]);
                        assert(views_of(cmds@) == seq![CommandView::Store(cmd_calls(gfirst)[0])]);
                    }
                },
                None => {},
            }
        }
        self.history = Ghost(self.history@ + views_of(cmds@));
        cmds
    }

    /// Consume one answer from the shell and say what to do next.
    ///
    /// While the menu is up: a volume keypress adjusts the gain and shows the
    /// menu again without touching the selection; a toggle line flips the
    /// named targets and shows the menu again; `q` stops the preview and ends
    /// the run with nothing reconciled; the other commands settle a decision
    /// and hand it to the reconciler. While reconciling, store answers drive
    /// the reconciler until its outcome is settled, and the one feedback line
    /// and the preview stop follow.
    pub fn step(&mut self, cache: &mut ImageCache, event: &SessionEvent) -> (cmds: Vec<Command>)
        requires
            old(self).inv(),
        ensures
            final(self).inv(),
            same_setting(*old(self), *final(self)),
            final(self).calls() == old(self).calls() + views_of(cmds@),
            (old(self).phase() is DoneNext || old(self).phase() is DoneQuit) ==> (views_of(cmds@)
                == Seq::<CommandView>::empty() && final(self).phase() == old(self).phase()
                && final(self).selection_view() == old(self).selection_view()),
            event matches SessionEvent::ArtFetched(opt) ==> old(self).phase() is AwaitArt ==> ({
                &&& final(self).phase() is AwaitLine
                &&& views_of(cmds@) == seq![CommandView::Display(final(self).menu_screen_now())]
                &&& final(self).art_view() == Some(
                    match opt {
                        Some(t) => t@,
                        None => placeholder_spec(old(self).screen_w()),
                    },
                )
                &&& final(self).selection_view() == old(self).selection_view()
            }),
            event matches SessionEvent::Line(l) ==> old(self).phase() is AwaitLine ==> ({
                let t = trim_spec(l@);
                &&& (t == "q"@ ==> final(self).phase() is DoneQuit && views_of(cmds@) == seq![
                    CommandView::StopPreview,
                ] && final(self).selection_view() == old(self).selection_view())
                &&& ((t == "u"@ || t == "d"@) && old(self).audio() ==> ({
                    &&& final(self).phase() is AwaitLine
                    &&& final(self).selection_view() == old(self).selection_view()
                    &&& final(self).volume() == bump_volume(old(self).volume(), t == "u"@)
                    &&& views_of(cmds@) == seq![
                        CommandView::SetVolume(final(self).volume()),
                        CommandView::Display(final(self).menu_screen_now()),
                    ]
                }))
                &&& (!is_command(t, old(self).audio()) ==> ({
                    &&& final(self).phase() is AwaitLine
                    &&& final(self).selection_view() == apply_tokens(
                        old(self).selection_view(),
                        crate::text::words_spec(l@),
                    )
                    &&& views_of(cmds@) == seq![
                        CommandView::Display(final(self).menu_screen_now()),
                    ]
                }))
                &&& (t == "s"@ ==> final(self).phase() is DoneNext && views_of(cmds@) == seq![
                    CommandView::ShowFeedback(
                        feedback_spec(
                            summary_spec(old(self).track_view()),
                            Result::<AppliedAction, ErrorView>::Ok(AppliedAction::Skip),
                        ),
                    ),
                    CommandView::StopPreview,
                ])
                &&& (t == "r"@ ==> final(self).phase() is Reconciling && views_of(cmds@) == seq![
                    CommandView::Store(
                        StoreCall::Confirm(
                            confirm_prompt_spec(summary_spec(old(self).track_view())),
                        ),
                    ),
                ])
                &&& (t == "a"@ ==> ({
                    let ids = menu::selected_indices_spec(old(self).selection_view()).map_values(
                        |i: usize| old(self).playlists_view()[i as int].id,
                    );
                    &&& final(self).phase() is Reconciling
                    &&& (final(self).rec_view() matches Some(rc) && rc.decision_view()
                        == DecisionView::Add(ids))
                    &&& views_of(cmds@) == (if ids.len() == 0 {
                        seq![CommandView::Store(StoreCall::RemoveItem(old(self).source()))]
                    } else {
                        seq![CommandView::Store(StoreCall::AddItem(ids[0]))]
                    })
                }))
            }),
            event matches SessionEvent::Store(ev) ==> old(self).phase() is Reconciling ==> ({
                let rc0 = old(self).rec_view()->Some_0;
                &&& (final(self).phase() is Reconciling || final(self).phase() is DoneNext)
                &&& (final(self).phase() is Reconciling ==> (final(self).rec_view() matches Some(
                    rc1,
                ) && exists|c: Option<StoreCommand>|
                    step_rel(rc0, rc1, *ev, c) && views_of(cmds@) == cmd_calls(c).map_values(
                        |sc: StoreCall| CommandView::Store(sc),
                    )))
                &&& (final(self).phase() is DoneNext ==> (final(self).rec_view() matches Some(rc1)
                    && exists|c: Option<StoreCommand>|
                    step_rel(rc0, rc1, *ev, c) && rc1.phase() is Done && (
                    rc1.outcome_view() matches Some(res) && views_of(cmds@) == seq![
                        CommandView::ShowFeedback(
                            feedback_spec(summary_spec(old(self).track_view()), res),
                        ),
                        CommandView::StopPreview,
                    ])))
            }),
    {
        let ph = self.phase;
        match (ph, event) {
            (SessionPhase::AwaitArt, SessionEvent::ArtFetched(opt)) => {
                let text: String = match opt {
                    Some(t) => {
                        match &self.track.album_art_url {
                            Some(url) => {
                                cache.insert(url, t.clone());
                            },
                            None => {},
                        }
                        t.clone()
                    },
                    None => placeholder_art(self.width),
                };
                self.art = Some(text);
                self.phase = SessionPhase::AwaitLine;
                let screen = self.render_menu();
                let mut cmds: Vec<Command> = Vec::new();
                cmds.push(Command::Display { screen });
                self.history = Ghost(self.history@ + views_of(cmds@));
                proof {
                    assert(views_of(cmds@) =~= seq![
                        CommandView::Display(self.menu_screen_now()),
                    ]);
                    assert(no_store(self.history@));
                }
                cmds
            },
            (SessionPhase::AwaitLine, SessionEvent::Line(l)) => {
                proof {
                    menu::lemma_distinct_commands();
                }
                let resolved = menu::resolve_input(l, &mut self.selection, self.audio_available);
                match resolved {
                    Some(menu::TrackAction::Quit) => {
                        self.phase = SessionPhase::DoneQuit;
                        let mut cmds: Vec<Command> = Vec::new();
                        cmds.push(Command::StopPreview);
                        self.history = Ghost(self.history@ + views_of(cmds@));
                        proof {
                            assert(views_of(cmds@) =~= seq![CommandView::StopPreview]);
                            assert(no_store(self.history@));
                            assert(self.history@.last() is StopPreview);
                        }
                        cmds
                    },
                    Some(menu::TrackAction::ChangeVolume(up)) => {
                        let nv: u8 = if up {
                            if self.volume_tenths < 20 {
                                self.volume_tenths + 1
                            } else {
                                self.volume_tenths
                            }
                        } else {
                            if self.volume_tenths > 0 {
                                self.volume_tenths - 1
                            } else {
                                self.volume_tenths
                            }
                        };
                        self.volume_tenths = nv;
                        let screen = self.render_menu();
                        let mut cmds: Vec<Command> = Vec::new();
                        cmds.push(Command::SetVolume { tenths: nv });
                        cmds.push(Command::Display { screen });
                        self.history = Ghost(self.history@ + views_of(cmds@));
                        proof {
                            assert(views_of(cmds@) =~= seq![
                                CommandView::SetVolume(nv),
                                CommandView::Display(self.menu_screen_now()),
                            ]);
                            assert(no_store(self.history@));
                        }
                        cmds
                    },
                    Some(other) => {
                        let cmds = self.begin_reconcile(other);
                        cmds
                    },
                    None => {
                        let screen = self.render_menu();
                        let mut cmds: Vec<Command> = Vec::new();
                        cmds.push(Command::Display { screen });
                        self.history = Ghost(self.history@ + views_of(cmds@));
                        proof {
                            assert(views_of(cmds@) =~= seq![
                                CommandView::Display(self.menu_screen_now()),
                            ]);
                            assert(no_store(self.history@));
                        }
                        cmds
                    },
                }
            },
            (SessionPhase::Reconciling, SessionEvent::Store(ev)) => {
                let taken = self.rec.take();
                match taken {
                    Some(mut r0) => {
                        let ghost rc0 = r0;
                        proof {
                            assert(old(self).rec_view() == Some(rc0));
                        }
                        let c = r0.step(ev);
                        let ghost gc = c;
                        let ghost rc1 = r0;
                        if r0.is_done() {
                            proof {
                                crate::reconcile::lemma_done_has_outcome(&r0);
                            }
                            proof {
                                assert(c is None);
                            }
                            let track_summary = summary(&self.track);
                            let msg = match r0.outcome() {
                                Some(res) => track_action_feedback(&track_summary, res),
                                None => String::new(),
                            };
                            self.rec = Some(r0);
                            self.phase = SessionPhase::DoneNext;
                            let mut cmds: Vec<Command> = Vec::new();
                            cmds.push(Command::ShowFeedback { message: msg });
                            cmds.push(Command::StopPreview);
                            self.history = Ghost(self.history@ + views_of(cmds@));
                            proof {
                                assert(views_of(cmds@) =~= seq![
                                    views_of(cmds@)[0],
                                    CommandView::StopPreview,
                                ]);
                                let res0 = rc1.outcome_view()->Some_0;
                                assert(views_of(cmds@) =~= seq![
                                    CommandView::ShowFeedback(
                                        feedback_spec(summary_spec(self.track), res0),
                                    ),
                                    CommandView::StopPreview,
                                ]);
                                assert(exists|c2: Option<StoreCommand>|
                                    step_rel(rc0, rc1, *ev, c2) && rc1.phase() is Done && (
                                    rc1.outcome_view() matches Some(res) && views_of(cmds@)
                                        == seq![
                                        CommandView::ShowFeedback(
                                            feedback_spec(
                                                summary_spec(old(self).track_view()),
                                                res,
                                            ),
                                        ),
                                        CommandView::StopPreview,
                                    ])) by {
                                    assert(step_rel(rc0, rc1, *ev, gc));
                                }
                            }
                            cmds
                        } else {
                            self.rec = Some(r0);
                            let ghost gc = c;
                            let mut cmds: Vec<Command> = Vec::new();
                            match c {
                                Some(x) => {
                                    cmds.push(Command::Store(x));
                                    proof {
                                        assert(views_of(cmds@) =~= seq![views_of(cmds@)[0]]);
                                    }
                                },
                                None => {},
                            }
                            self.history = Ghost(self.history@ + views_of(cmds@));
                            proof {
                                assert(views_of(cmds@) =~= cmd_calls(gc).map_values(
                                    |sc: StoreCall| CommandView::Store(sc),
                                ));
                                assert(exists|c2: Option<StoreCommand>|
                                    step_rel(rc0, rc1, *ev, c2) && views_of(cmds@) == cmd_calls(
                                        c2,
                                    ).map_values(|sc: StoreCall| CommandView::Store(sc))) by {
                                    assert(step_rel(rc0, rc1, *ev, gc));
                                }
                            }
                            cmds
                        }
                    },
                    None => {
                        let cmds: Vec<Command> = Vec::new();
                        proof {
                            assert(false);
                        }
                        cmds
                    },
                }
            },
            _ => {
                let cmds: Vec<Command> = Vec::new();
                proof {
                    assert(views_of(cmds@) =~= Seq::<CommandView>::empty());
                    assert(self.history@ =~= self.history@ + views_of(cmds@));
                }
                cmds
            },
        }
    }
}

/// A track without an identifier has caused no command at all: no menu
/// render, no preview, no remote call.
pub proof fn lemma_no_id_no_work(s: &TrackSession)
    requires
        s.inv(),
        s.track_view().id is None,
    ensures
        s.calls() == Seq::<CommandView>::empty(),
{
}

/// After the operator quits, the whole session has issued no store call: the
/// preview was stopped, the termination signalled, and nothing reconciled.
pub proof fn lemma_quit_no_reconciliation(s: &TrackSession)
    requires
        s.inv(),
        s.phase() is DoneQuit,
    ensures
        no_store(s.calls()),
        s.calls().len() > 0 && s.calls().last() is StopPreview,
{
}

proof fn lemma_cache_lookup_none(entries: Seq<(String, String)>, url: Seq<char>)
    requires
        cache_lookup(entries, url) is None,
    ensures
        forall|j: int| 0 <= j < entries.len() ==> (#[trigger] entries[j]).0@ != url,
    decreases entries.len(),
{
    if entries.len() > 0 {
        lemma_cache_lookup_none(entries.skip(1), url);
        assert forall|j: int| 0 <= j < entries.len() implies (#[trigger] entries[j]).0@ != url by {
            if j > 0 {
                assert(entries.skip(1)[j - 1] == entries[j]);
            }
        }
    }
}

} // verus!
