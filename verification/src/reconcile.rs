//! The playlist reconciler: applying one resolved decision against the remote
//! playlist store.
//!
//! The store is reached over the network, so the reconciler never calls it
//! directly: it is a state machine that emits one [`StoreCommand`] at a time
//! and consumes the store's answer as a [`StoreEvent`]. The shell around the
//! library performs each command and feeds the answer back. Every decision the
//! reconciler takes — which calls to make, in what order, and what counts as
//! an error — is therefore verified, whatever the store answers.

use vstd::prelude::*;
use crate::menu;
use crate::text::{join_spec, join_with};

verus! {

/// A resolved sorting decision, with targets as concrete playlist
/// identifiers.
pub enum TrackAction {
    /// Add the track to these playlists, then remove it from the source.
    Add(Vec<String>),
    /// Remove the track from this (source) playlist.
    Remove(String),
    /// Do nothing.
    Skip,
}

/// The kind of decision that was actually applied; a cancelled removal
/// downgrades to `Skip`.
#[derive(Clone, Copy, Debug, PartialEq, Eq, Structural)]
pub enum AppliedAction {
    Add,
    Remove,
    Skip,
}

/// Which playlists could not be updated, by display name.
pub enum SpotifyPlaylistsError {
    /// Adding failed for these playlists (or for the liked-songs collection).
    Add(Vec<String>),
    /// Removing from these playlists failed.
    Remove(Vec<String>),
}

/// A playlist error as contracts see it.
pub enum ErrorView {
    Add(Seq<Seq<char>>),
    Remove(Seq<Seq<char>>),
}

impl View for SpotifyPlaylistsError {
    type V = ErrorView;

    open spec fn view(&self) -> ErrorView {
        match self {
            SpotifyPlaylistsError::Add(names) => ErrorView::Add(names.deep_view()),
            SpotifyPlaylistsError::Remove(names) => ErrorView::Remove(names.deep_view()),
        }
    }
}

/// The result of applying a decision, as contracts see it.
pub open spec fn result_view(r: Result<AppliedAction, SpotifyPlaylistsError>) -> Result<
    AppliedAction,
    ErrorView,
> {
    match r {
        Ok(a) => Ok(a),
        Err(e) => Err(e@),
    }
}

/// The playlist identifiers a decision distributes the track into: empty for
/// anything but an `Add`.
pub open spec fn decision_targets(d: TrackAction) -> Seq<Seq<char>> {
    match d {
        TrackAction::Add(ids) => ids.deep_view(),
        TrackAction::Remove(_) => Seq::empty(),
        TrackAction::Skip => Seq::empty(),
    }
}

/// Whether every target position the menu outcome names lies within the
/// session's target list.
pub open spec fn indices_in_range(a: menu::TrackAction, n: nat) -> bool {
    match a {
        menu::TrackAction::Add(idx) => forall|k: int|
            0 <= k < idx@.len() ==> #[trigger] idx@[k] < n,
        _ => true,
    }
}

/// Resolve a menu outcome into a concrete decision: selected target positions
/// become the identifiers of those playlists, a removal names the source
/// playlist. The volume and quit outcomes never reach this point.
pub fn from_ui_track_action(
    ui_track_action: &menu::TrackAction,
    playlists: &Vec<crate::model::Playlist>,
    source_playlist_id: String,
) -> (r: TrackAction)
    requires
        !(ui_track_action matches menu::TrackAction::Quit),
        !(ui_track_action matches menu::TrackAction::ChangeVolume(_)),
        indices_in_range(*ui_track_action, playlists@.len()),
    ensures
        ({
            match *ui_track_action {
                menu::TrackAction::Add(ref idx) => r matches TrackAction::Add(ids)
                    && ids.deep_view() == idx@.map_values(
                    |i: usize| playlists.deep_view()[i as int].id,
                ),
                menu::TrackAction::Remove => r matches TrackAction::Remove(p) && p@
                    == source_playlist_id@,
                menu::TrackAction::Skip => r matches TrackAction::Skip,
                _ => false,
            }
        }),
{
    match ui_track_action {
        menu::TrackAction::Add(indices) => {
            let mut ids: Vec<String> = Vec::new();
            let mut k: usize = 0;
            let ghost mapped = indices@.map_values(|i: usize| playlists.deep_view()[i as int].id);
            while k < indices.len()
                invariant
                    k <= indices@.len(),
                    mapped == indices@.map_values(
                        |i: usize| playlists.deep_view()[i as int].id,
                    ),
                    indices_in_range(*ui_track_action, playlists@.len()),
                    ui_track_action matches menu::TrackAction::Add(ref ii) && ii@ == indices@,
                    ids.deep_view() == mapped.take(k as int),
                decreases indices@.len() - k,
            {
                let ghost prevd = ids.deep_view();
                let ghost prevv = ids@;
                let x = playlists[indices[k]].id.clone();
                proof {
                    assert(x.deep_view() == playlists.deep_view()[indices@[k as int] as int].id);
                    assert(mapped[k as int] == playlists.deep_view()[indices@[k as int] as int].id);
                }
                ids.push(x);
                proof {
                    assert(mapped.len() == indices@.len());
                    assert(prevd.len() == k as int);
                    assert(prevv.len() == k as int);
                    assert forall|j: int| 0 <= j < k + 1 implies ids.deep_view()[j] == mapped.take(
                        k + 1,
                    )[j] by {
                        if j < k {
                            assert(ids@[j] == prevv[j]);
                            assert(prevd[j] == mapped.take(k as int)[j]);
                            assert(prevd[j] == prevv[j].deep_view());
                        } else {
                            assert(ids@[j] == x);
                        }
                    }
                    assert(ids.deep_view() =~= mapped.take(k + 1));
                }
                k = k + 1;
            }
            proof {
                assert(mapped.take(indices@.len() as int) =~~= mapped);
            }
            TrackAction::Add(ids)
        },
        menu::TrackAction::Remove => TrackAction::Remove(source_playlist_id),
        menu::TrackAction::Skip => TrackAction::Skip,
        // the quit and volume outcomes never resolve to a decision
        menu::TrackAction::Quit => TrackAction::Skip,
        menu::TrackAction::ChangeVolume(_) => TrackAction::Skip,
    }
}

/// One remote operation the reconciler asks the shell to perform.
pub enum StoreCommand {
    /// Add the track to this playlist.
    AddItem { playlist_id: String },
    /// Remove the track from this playlist.
    RemoveItem { playlist_id: String },
    /// Report whether this playlist's track listing contains the track.
    ListContains { playlist_id: String },
    /// Look up this playlist's display name.
    GetName { playlist_id: String },
    /// Report whether the track is already in the liked-songs collection.
    IsLiked,
    /// Add the track to the liked-songs collection.
    Like,
    /// Ask the operator the given yes/no question.
    Confirm { prompt: String },
}

/// A store command as contracts see it.
pub enum StoreCall {
    AddItem(Seq<char>),
    RemoveItem(Seq<char>),
    ListContains(Seq<char>),
    GetName(Seq<char>),
    IsLiked,
    Like,
    Confirm(Seq<char>),
}

impl View for StoreCommand {
    type V = StoreCall;

    open spec fn view(&self) -> StoreCall {
        match self {
            StoreCommand::AddItem { playlist_id } => StoreCall::AddItem(playlist_id@),
            StoreCommand::RemoveItem { playlist_id } => StoreCall::RemoveItem(playlist_id@),
            StoreCommand::ListContains { playlist_id } => StoreCall::ListContains(playlist_id@),
            StoreCommand::GetName { playlist_id } => StoreCall::GetName(playlist_id@),
            StoreCommand::IsLiked => StoreCall::IsLiked,
            StoreCommand::Like => StoreCall::Like,
            StoreCommand::Confirm { prompt } => StoreCall::Confirm(prompt@),
        }
    }
}

/// What came back from one store command.
pub enum StoreEvent {
    /// Whether the add call succeeded.
    AddResult(bool),
    /// Whether the remove call succeeded.
    RemoveResult(bool),
    /// Whether the listing contains the track.
    ListResult(bool),
    /// The playlist's display name, or nothing when the lookup itself failed.
    NameResult(Option<String>),
    /// Whether the track is already liked.
    LikedResult(bool),
    /// Whether liking the track succeeded.
    LikeResult(bool),
    /// The operator's answer to a confirmation question.
    ConfirmAnswer(bool),
}

/// Where the reconciler stands while applying a decision.
#[derive(Clone, Copy)]
pub enum ReconcilePhase {
    /// An add for target number `i` is out.
    Adding(usize),
    /// Target `i`'s add failed; its listing is being checked.
    CheckingPresence(usize),
    /// Target `i` is confirmed missing the track; its name is being fetched
    /// for the error report.
    NamingTarget(usize),
    /// All targets processed; the best-effort source removal is out.
    RemovingSource,
    /// The liked-songs membership check is out.
    CheckingLiked,
    /// The liked-songs add is out.
    Liking,
    /// The removal decision awaits the operator's confirmation.
    Confirming,
    /// The confirmed removal from the source is out.
    RemovingForDecision,
    /// The failed removal's playlist name is being fetched.
    NamingSource,
    /// The outcome is settled.
    Done,
}

/// A decision as contracts see it.
pub enum DecisionView {
    Add(Seq<Seq<char>>),
    Remove(Seq<char>),
    Skip,
}

/// The decision's contract-level form.
pub open spec fn decision_view_of(d: TrackAction) -> DecisionView {
    match d {
        TrackAction::Add(ids) => DecisionView::Add(ids.deep_view()),
        TrackAction::Remove(p) => DecisionView::Remove(p@),
        TrackAction::Skip => DecisionView::Skip,
    }
}

/// The calls a command answers for: none, or exactly the one emitted.
pub open spec fn cmd_calls(cmd: Option<StoreCommand>) -> Seq<StoreCall> {
    match cmd {
        None => Seq::empty(),
        Some(c) => seq![c@],
    }
}

/// Whether the call names one of the add decision's targets.
pub open spec fn is_target_call(c: StoreCall) -> bool {
    c is AddItem || c is ListContains || c is GetName
}

/// The playlist a call is about (empty for the calls that name none).
pub open spec fn call_target(c: StoreCall) -> Seq<char> {
    match c {
        StoreCall::AddItem(p) => p,
        StoreCall::RemoveItem(p) => p,
        StoreCall::ListContains(p) => p,
        StoreCall::GetName(p) => p,
        StoreCall::IsLiked => Seq::empty(),
        StoreCall::Like => Seq::empty(),
        StoreCall::Confirm(p) => p,
    }
}

/// Whether the playlist identifiers are pairwise distinct.
pub open spec fn distinct_seqs(ts: Seq<Seq<char>>) -> bool {
    forall|m1: int, m2: int|
        #![trigger ts[m1], ts[m2]]
        0 <= m1 < m2 < ts.len() ==> ts[m1] != ts[m2]
}

/// How many targets have had their add call issued in this phase.
pub open spec fn add_progress(p: ReconcilePhase, total: nat) -> nat {
    match p {
        ReconcilePhase::Adding(i) => (i + 1) as nat,
        ReconcilePhase::CheckingPresence(i) => (i + 1) as nat,
        ReconcilePhase::NamingTarget(i) => (i + 1) as nat,
        ReconcilePhase::RemovingSource => total,
        ReconcilePhase::CheckingLiked => total,
        ReconcilePhase::Liking => total,
        ReconcilePhase::Done => total,
        _ => 0,
    }
}

/// Whether the phase lies beyond the per-target add calls.
pub open spec fn past_adds(p: ReconcilePhase) -> bool {
    p is RemovingSource || p is CheckingLiked || p is Liking || p is Done
}

/// What the call history of an add decision always satisfies: target calls
/// only for targets already reached, no target added twice, every reached
/// target added once, at most one source removal and only after all adds,
/// and no confirmation question.
pub open spec fn add_history_inv(
    h: Seq<StoreCall>,
    t: Seq<Seq<char>>,
    source: Seq<char>,
    prog: nat,
    past: bool,
) -> bool {
    &&& (forall|j: int|
        0 <= j < h.len() && is_target_call(#[trigger] h[j]) ==> exists|m: int|
            0 <= m < prog && t[m] == call_target(h[j]))
    &&& (forall|j: int, k: int|
        #![trigger h[j], h[k]]
        0 <= j < k < h.len() && h[j] is AddItem && h[k] is AddItem ==> call_target(h[j])
            != call_target(h[k]))
    &&& (forall|m: int| 0 <= m < prog ==> #[trigger] h.contains(StoreCall::AddItem(t[m])))
    &&& (!past ==> forall|j: int| 0 <= j < h.len() ==> !(#[trigger] h[j] is RemoveItem))
    &&& (past ==> h.contains(StoreCall::RemoveItem(source)))
    &&& (forall|j: int, k: int|
        #![trigger h[j], h[k]]
        0 <= j < h.len() && 0 <= k < h.len() && j != k ==> !(h[j] is RemoveItem
            && h[k] is RemoveItem))
    &&& (forall|j: int|
        0 <= j < h.len() && #[trigger] h[j] is RemoveItem ==> h[j] == StoreCall::RemoveItem(
            source,
        ))
    &&& (forall|j: int, k: int|
        #![trigger h[j], h[k]]
        0 <= j < h.len() && 0 <= k < h.len() && h[j] is AddItem && h[k] is RemoveItem ==> j < k)
    &&& (forall|j: int| 0 <= j < h.len() ==> !(#[trigger] h[j] is Confirm))
}

/// The confirmation question asked before a removal.
pub open spec fn confirm_prompt_spec(summary: Seq<char>) -> Seq<char> {
    "Do you wish to remove "@ + summary + " from the source playlist?"@
}

/// The display name the store answered with, or the fixed fallback naming the
/// playlist by identifier.
pub open spec fn display_name_or_fallback(opt: Option<String>, id: Seq<char>) -> Seq<char> {
    match opt {
        Some(name) => name@,
        None => "Playlist with ID "@ + id,
    }
}

/// Applies one decision against the remote store, one command at a time.
///
/// Per-playlist failures are collected, never aborted on: a failed add whose
/// target already lists the track is no failure at all, the source removal is
/// best-effort, and a failure to like the track is reported under the fixed
/// `Liked Songs` name. The outcome is success exactly when the error list
/// stays empty.
pub struct Reconciler {
    decision: TrackAction,
    source_id: String,
    prompt: String,
    errors: Vec<String>,
    phase: ReconcilePhase,
    outcome: Option<Result<AppliedAction, SpotifyPlaylistsError>>,
    history: Ghost<Seq<StoreCall>>,
}

impl Reconciler {
    /// Every store call issued so far, oldest first.
    pub closed spec fn calls(&self) -> Seq<StoreCall> {
        self.history@
    }

    /// The phase the machine is in.
    pub closed spec fn phase(&self) -> ReconcilePhase {
        self.phase
    }

    /// The display names collected for the failed updates, oldest first.
    pub closed spec fn errors_view(&self) -> Seq<Seq<char>> {
        self.errors.deep_view()
    }

    /// The source playlist's identifier.
    pub closed spec fn source(&self) -> Seq<char> {
        self.source_id@
    }

    /// The confirmation question used for a removal.
    pub closed spec fn prompt_view(&self) -> Seq<char> {
        self.prompt@
    }

    /// The decision being applied.
    pub closed spec fn decision_view(&self) -> DecisionView {
        decision_view_of(self.decision)
    }

    /// The add decision's target identifiers.
    pub closed spec fn targets(&self) -> Seq<Seq<char>> {
        decision_targets(self.decision)
    }

    /// The settled outcome, once the machine is done.
    pub closed spec fn outcome_view(&self) -> Option<Result<AppliedAction, ErrorView>> {
        match self.outcome {
            None => None,
            Some(r) => Some(result_view(r)),
        }
    }

    /// What every reachable reconciler satisfies.
    pub closed spec fn inv(&self) -> bool {
        let h = self.history@;
        match self.decision {
            TrackAction::Skip => {
                &&& self.phase is Done
                &&& h == Seq::<StoreCall>::empty()
                &&& self.errors@.len() == 0
                &&& self.outcome_view() == Some(Result::<AppliedAction, ErrorView>::Ok(
                    AppliedAction::Skip,
                ))
            },
            TrackAction::Remove(ref p) => {
                &&& p@ == self.source_id@
                &&& self.errors@.len() == 0
                &&& match self.phase {
                    ReconcilePhase::Confirming => h == seq![
                        StoreCall::Confirm(self.prompt@),
                    ] && self.outcome is None,
                    ReconcilePhase::RemovingForDecision => h == seq![
                        StoreCall::Confirm(self.prompt@),
                        StoreCall::RemoveItem(self.source_id@),
                    ] && self.outcome is None,
                    ReconcilePhase::NamingSource => h == seq![
                        StoreCall::Confirm(self.prompt@),
                        StoreCall::RemoveItem(self.source_id@),
                        StoreCall::GetName(self.source_id@),
                    ] && self.outcome is None,
                    ReconcilePhase::Done => {
                        ||| (self.outcome_view() == Some(Result::<AppliedAction, ErrorView>::Ok(
                            AppliedAction::Skip,
                        )) && h == seq![StoreCall::Confirm(self.prompt@)])
                        ||| (self.outcome_view() == Some(Result::<AppliedAction, ErrorView>::Ok(
                            AppliedAction::Remove,
                        )) && h == seq![
                            StoreCall::Confirm(self.prompt@),
                            StoreCall::RemoveItem(self.source_id@),
                        ])
                        ||| ((self.outcome_view() matches Some(Err(ErrorView::Remove(names)))
                            && names.len() == 1) && h == seq![
                            StoreCall::Confirm(self.prompt@),
                            StoreCall::RemoveItem(self.source_id@),
                            StoreCall::GetName(self.source_id@),
                        ])
                    },
                    _ => false,
                }
            },
            TrackAction::Add(ref ids) => {
                let t = ids.deep_view();
                &&& distinct_seqs(t)
                &&& match self.phase {
                    ReconcilePhase::Adding(i) => i < t.len() && self.outcome is None,
                    ReconcilePhase::CheckingPresence(i) => i < t.len() && self.outcome is None,
                    ReconcilePhase::NamingTarget(i) => i < t.len() && self.outcome is None,
                    ReconcilePhase::RemovingSource => self.outcome is None,
                    ReconcilePhase::CheckingLiked => self.outcome is None,
                    ReconcilePhase::Liking => self.outcome is None,
                    ReconcilePhase::Done => {
                        &&& (self.errors@.len() == 0 ==> self.outcome_view() == Some(Result::<
                            AppliedAction,
                            ErrorView,
                        >::Ok(AppliedAction::Add)))
                        &&& (self.errors@.len() > 0 ==> self.outcome_view() == Some(Result::<
                            AppliedAction,
                            ErrorView,
                        >::Err(ErrorView::Add(self.errors.deep_view()))))
                    },
                    _ => false,
                }
                &&& add_history_inv(
                    h,
                    t,
                    self.source_id@,
                    add_progress(self.phase, t.len()),
                    past_adds(self.phase),
                )
            },
        }
    }

    /// Whether the outcome is settled.
    pub fn is_done(&self) -> (r: bool)
        ensures
            r == (self.phase() is Done),
    {
        match self.phase {
            ReconcilePhase::Done => true,
            _ => false,
        }
    }

    /// The settled outcome; nothing before the machine is done.
    pub fn outcome(&self) -> (r: &Option<Result<AppliedAction, SpotifyPlaylistsError>>)
        ensures
            match r {
                Some(x) => self.outcome_view() == Some(result_view(*x)),
                None => self.outcome_view() is None,
            },
    {
        &self.outcome
    }
}

impl Reconciler {
    /// Start applying `decision`. The second component is the first store
    /// command to perform, if the decision needs any.
    ///
    /// A skip settles at once; a removal first asks for confirmation; an add
    /// begins with the first target, or — with no targets at all — goes
    /// straight to the best-effort source removal.
    pub fn new(decision: TrackAction, source_id: String, track_summary: &String) -> (r: (
        Reconciler,
        Option<StoreCommand>,
    ))
        requires
            distinct_seqs(decision_targets(decision)),
            decision matches TrackAction::Remove(p) ==> p@ == source_id@,
        ensures
            r.0.inv(),
            r.0.calls() == cmd_calls(r.1),
            r.0.source() == source_id@,
            r.0.decision_view() == decision_view_of(decision),
            r.0.targets() == decision_targets(decision),
            r.0.prompt_view() == confirm_prompt_spec(track_summary@),
            r.0.errors_view() == Seq::<Seq<char>>::empty(),
            match decision_view_of(decision) {
                DecisionView::Skip => {
                    &&& r.0.phase() is Done
                    &&& r.0.outcome_view() == Some(Result::<AppliedAction, ErrorView>::Ok(
                        AppliedAction::Skip,
                    ))
                    &&& r.1 is None
                },
                DecisionView::Remove(_) => {
                    &&& r.0.phase() is Confirming
                    &&& cmd_calls(r.1) == seq![
                        StoreCall::Confirm(confirm_prompt_spec(track_summary@)),
                    ]
                },
                DecisionView::Add(t) => {
                    if t.len() == 0 {
                        &&& r.0.phase() is RemovingSource
                        &&& cmd_calls(r.1) == seq![StoreCall::RemoveItem(source_id@)]
                    } else {
                        &&& r.0.phase() == ReconcilePhase::Adding(0usize)
                        &&& cmd_calls(r.1) == seq![StoreCall::AddItem(t[0])]
                    }
                },
            },
    {
        let mut prompt = "Do you wish to remove ".to_owned();
        prompt.append(track_summary.as_str());
        prompt.append(" from the source playlist?");
        proof {
            assert(prompt@ =~= confirm_prompt_spec(track_summary@));
        }
        let is_skip = match &decision {
            TrackAction::Skip => true,
            _ => false,
        };
        let is_remove = match &decision {
            TrackAction::Remove(_) => true,
            _ => false,
        };
        if is_skip {
            let r = Reconciler {
                decision,
                source_id,
                prompt,
                errors: Vec::new(),
                phase: ReconcilePhase::Done,
                outcome: Some(Ok(AppliedAction::Skip)),
                history: Ghost(Seq::empty()),
            };
            proof {
                assert(r.errors.deep_view() =~= Seq::<Seq<char>>::empty());
            }
            (r, None)
        } else if is_remove {
            let cmd = StoreCommand::Confirm { prompt: prompt.clone() };
            let ghost h0: Seq<StoreCall> = seq![cmd@];
            let r = Reconciler {
                decision,
                source_id,
                prompt,
                errors: Vec::new(),
                phase: ReconcilePhase::Confirming,
                outcome: None,
                history: Ghost(h0),
            };
            proof {
                assert(r.errors.deep_view() =~= Seq::<Seq<char>>::empty());
                assert(r.history@ =~= cmd_calls(Some(cmd)));
            }
            (r, Some(cmd))
        } else {
            let (first_id, empty) = match &decision {
                TrackAction::Add(ids) => {
                    if ids.len() == 0 {
                        (source_id.clone(), true)
                    } else {
                        (ids[0].clone(), false)
                    }
                },
                _ => (source_id.clone(), true),
            };
            let ghost t = decision_targets(decision);
            if empty {
                let cmd = StoreCommand::RemoveItem { playlist_id: first_id };
                let ghost h0: Seq<StoreCall> = seq![cmd@];
                let r = Reconciler {
                    decision,
                    source_id,
                    prompt,
                    errors: Vec::new(),
                    phase: ReconcilePhase::RemovingSource,
                    outcome: None,
                    history: Ghost(h0),
                };
                proof {
                    assert(r.errors.deep_view() =~= Seq::<Seq<char>>::empty());
                    assert(r.history@ =~= Seq::<StoreCall>::empty().push(cmd@));
                    lemma_add_hist_push_remove(Seq::empty(), t, r.source_id@, 0);
                    assert(r.history@ =~= cmd_calls(Some(cmd)));
                }
                (r, Some(cmd))
            } else {
                let cmd = StoreCommand::AddItem { playlist_id: first_id };
                let ghost h0: Seq<StoreCall> = seq![cmd@];
                let r = Reconciler {
                    decision,
                    source_id,
                    prompt,
                    errors: Vec::new(),
                    phase: ReconcilePhase::Adding(0),
                    outcome: None,
                    history: Ghost(h0),
                };
                proof {
                    assert(r.errors.deep_view() =~= Seq::<Seq<char>>::empty());
                    assert(r.history@ =~= Seq::<StoreCall>::empty().push(cmd@));
                    assert(cmd@ == StoreCall::AddItem(t[0]));
                    lemma_add_hist_push_add(Seq::empty(), t, r.source_id@, 0);
                    assert(r.history@ =~= cmd_calls(Some(cmd)));
                }
                (r, Some(cmd))
            }
        }
    }

    /// The number of add targets.
    fn target_count(&self) -> (r: usize)
        requires
            self.decision_view() is Add,
        ensures
            r == self.targets().len(),
    {
        match &self.decision {
            TrackAction::Add(ids) => {
                let n = ids.len();
                proof {
                    assert(ids.deep_view().len() == ids@.len());
                }
                n
            },
            _ => {
                proof {
                    assert(false);
                }
                0
            },
        }
    }

    /// A copy of target `i`'s identifier.
    fn target_id(&self, i: usize) -> (r: String)
        requires
            self.decision_view() is Add,
            i < self.targets().len(),
        ensures
            r@ == self.targets()[i as int],
    {
        match &self.decision {
            TrackAction::Add(ids) => {
                proof {
                    assert(ids.deep_view().len() == ids@.len());
                    assert(ids.deep_view()[i as int] == ids@[i as int].deep_view());
                }
                ids[i].clone()
            },
            _ => {
                proof {
                    assert(false);
                }
                String::new()
            },
        }
    }

    /// Move past target `i`: issue the next target's add, or — all targets
    /// processed — the best-effort source removal.
    fn advance_target(&mut self, i: usize) -> (cmd: Option<StoreCommand>)
        requires
            old(self).inv(),
            old(self).decision_view() is Add,
            old(self).phase() == ReconcilePhase::Adding(i) || old(self).phase()
                == ReconcilePhase::CheckingPresence(i) || old(self).phase()
                == ReconcilePhase::NamingTarget(i),
        ensures
            final(self).inv(),
            same_job(*old(self), *final(self)),
            final(self).calls() == old(self).calls() + cmd_calls(cmd),
            final(self).errors_view() == old(self).errors_view(),
            advance_rel(*old(self), *final(self), cmd, i as int),
    {
        let ghost t = self.targets();
        let ghost h = self.history@;
        let n = self.target_count();
        proof {
            assert(add_progress(self.phase, t.len()) == i + 1);
        }
        if i + 1 < n {
            let pid = self.target_id(i + 1);
            self.phase = ReconcilePhase::Adding(i + 1);
            let cmd = StoreCommand::AddItem { playlist_id: pid };
            self.history = Ghost(self.history@.push(cmd@));
            proof {
                lemma_add_hist_push_add(h, t, self.source_id@, (i + 1) as nat);
                assert(self.history@ =~= h + cmd_calls(Some(cmd)));
            }
            Some(cmd)
        } else {
            let pid = self.source_id.clone();
            self.phase = ReconcilePhase::RemovingSource;
            let cmd = StoreCommand::RemoveItem { playlist_id: pid };
            self.history = Ghost(self.history@.push(cmd@));
            proof {
                lemma_add_hist_push_remove(h, t, self.source_id@, (i + 1) as nat);
                assert(add_progress(self.phase, t.len()) == t.len());
                assert(self.history@ =~= h + cmd_calls(Some(cmd)));
            }
            Some(cmd)
        }
    }

    /// Settle an add decision: success exactly when the error list is empty.
    fn finish_add(&mut self)
        requires
            old(self).inv(),
            old(self).decision_view() is Add,
            old(self).phase() == ReconcilePhase::CheckingLiked || old(self).phase()
                == ReconcilePhase::Liking,
        ensures
            final(self).inv(),
            same_job(*old(self), *final(self)),
            final(self).calls() == old(self).calls(),
            final(self).errors_view() == old(self).errors_view(),
            finish_add_rel(*final(self)),
    {
        self.phase = ReconcilePhase::Done;
        if self.errors.len() == 0 {
            self.outcome = Some(Ok(AppliedAction::Add));
            proof {
                assert(self.errors.deep_view() =~= Seq::<Seq<char>>::empty());
            }
        } else {
            let errs = clone_strings(&self.errors);
            proof {
                assert(self.errors.deep_view().len() == self.errors@.len());
            }
            self.outcome = Some(Err(SpotifyPlaylistsError::Add(errs)));
        }
    }

    /// Consume one store answer and say what to do next.
    ///
    /// Every transition is given by [`step_rel`]. In particular: a failed add
    /// whose target turns out to list the track already records no error and
    /// moves on, and a declined confirmation settles at once as a successful
    /// skip without any removal call.
    pub fn step(&mut self, event: &StoreEvent) -> (cmd: Option<StoreCommand>)
        requires
            old(self).inv(),
        ensures
            final(self).inv(),
            final(self).calls() == old(self).calls() + cmd_calls(cmd),
            step_rel(*old(self), *final(self), *event, cmd),
    {
        let ph = self.phase;
        let ghost t = self.targets();
        let ghost h = self.history@;
        match (ph, event) {
            (ReconcilePhase::Adding(i), StoreEvent::AddResult(ok)) => {
                if *ok {
                    self.advance_target(i)
                } else {
                    let pid = self.target_id(i);
                    self.phase = ReconcilePhase::CheckingPresence(i);
                    let cmd = StoreCommand::ListContains { playlist_id: pid };
                    self.history = Ghost(self.history@.push(cmd@));
                    proof {
                        lemma_add_hist_push_check(h, t, self.source_id@, (i + 1) as nat, cmd@);
                        assert(self.history@ =~= h + cmd_calls(Some(cmd)));
                    }
                    Some(cmd)
                }
            },
            (ReconcilePhase::CheckingPresence(i), StoreEvent::ListResult(present)) => {
                if *present {
                    self.advance_target(i)
                } else {
                    let pid = self.target_id(i);
                    self.phase = ReconcilePhase::NamingTarget(i);
                    let cmd = StoreCommand::GetName { playlist_id: pid };
                    self.history = Ghost(self.history@.push(cmd@));
                    proof {
                        lemma_add_hist_push_check(h, t, self.source_id@, (i + 1) as nat, cmd@);
                        assert(self.history@ =~= h + cmd_calls(Some(cmd)));
                    }
                    Some(cmd)
                }
            },
            (ReconcilePhase::NamingTarget(i), StoreEvent::NameResult(opt)) => {
                let name = match opt {
                    Some(n) => n.clone(),
                    None => {
                        let tid = self.target_id(i);
                        fallback_name(&tid)
                    },
                };
                let ghost prev = self.errors@;
                let ghost prevd = self.errors.deep_view();
                proof {
                    lemma_vec_deep_view_is_deep_of(&self.errors);
                    lemma_deep_of_push(prev, name);
                }
                let ghost nv = name@;
                self.errors.push(name);
                proof {
                    lemma_vec_deep_view_is_deep_of(&self.errors);
                    assert(self.errors.deep_view() == prevd.push(nv));
                    assert(nv == display_name_or_fallback(*opt, t[i as int]));
                }
                self.advance_target(i)
            },
            (ReconcilePhase::RemovingSource, StoreEvent::RemoveResult(_)) => {
                self.phase = ReconcilePhase::CheckingLiked;
                let cmd = StoreCommand::IsLiked;
                self.history = Ghost(self.history@.push(cmd@));
                proof {
                    lemma_add_hist_push_plain(h, t, self.source_id@, t.len(), true, cmd@);
                    assert(self.history@ =~= h + cmd_calls(Some(cmd)));
                }
                Some(cmd)
            },
            (ReconcilePhase::CheckingLiked, StoreEvent::LikedResult(liked)) => {
                if *liked {
                    self.finish_add();
                    proof {
                        assert(self.history@ =~= h + cmd_calls(None::<StoreCommand>));
                    }
                    None
                } else {
                    self.phase = ReconcilePhase::Liking;
                    let cmd = StoreCommand::Like;
                    self.history = Ghost(self.history@.push(cmd@));
                    proof {
                        lemma_add_hist_push_plain(h, t, self.source_id@, t.len(), true, cmd@);
                        assert(self.history@ =~= h + cmd_calls(Some(cmd)));
                    }
                    Some(cmd)
                }
            },
            (ReconcilePhase::Liking, StoreEvent::LikeResult(ok)) => {
                if !*ok {
                    let name = "Liked Songs".to_owned();
                    let ghost prev = self.errors@;
                    let ghost prevd = self.errors.deep_view();
                    proof {
                        lemma_vec_deep_view_is_deep_of(&self.errors);
                        lemma_deep_of_push(prev, name);
                    }
                    let ghost nv = name@;
                    self.errors.push(name);
                    proof {
                        lemma_vec_deep_view_is_deep_of(&self.errors);
                        assert(self.errors.deep_view() == prevd.push(nv));
                    }
                }
                self.finish_add();
                proof {
                    assert(self.history@ =~= h + cmd_calls(None::<StoreCommand>));
                }
                None
            },
            (ReconcilePhase::Confirming, StoreEvent::ConfirmAnswer(yes)) => {
                if *yes {
                    let pid = self.source_id.clone();
                    self.phase = ReconcilePhase::RemovingForDecision;
                    let cmd = StoreCommand::RemoveItem { playlist_id: pid };
                    self.history = Ghost(self.history@.push(cmd@));
                    proof {
                        assert(self.history@ =~= h + cmd_calls(Some(cmd)));
                        assert(self.history@ =~= seq![
                            StoreCall::Confirm(self.prompt@),
                            StoreCall::RemoveItem(self.source_id@),
                        ]);
                    }
                    Some(cmd)
                } else {
                    self.phase = ReconcilePhase::Done;
                    self.outcome = Some(Ok(AppliedAction::Skip));
                    proof {
                        assert(self.history@ =~= h + cmd_calls(None::<StoreCommand>));
                    }
                    None
                }
            },
            (ReconcilePhase::RemovingForDecision, StoreEvent::RemoveResult(ok)) => {
                if *ok {
                    self.phase = ReconcilePhase::Done;
                    self.outcome = Some(Ok(AppliedAction::Remove));
                    proof {
                        assert(self.history@ =~= h + cmd_calls(None::<StoreCommand>));
                    }
                    None
                } else {
                    let pid = self.source_id.clone();
                    self.phase = ReconcilePhase::NamingSource;
                    let cmd = StoreCommand::GetName { playlist_id: pid };
                    self.history = Ghost(self.history@.push(cmd@));
                    proof {
                        assert(self.history@ =~= h + cmd_calls(Some(cmd)));
                        assert(self.history@ =~= seq![
                            StoreCall::Confirm(self.prompt@),
                            StoreCall::RemoveItem(self.source_id@),
                            StoreCall::GetName(self.source_id@),
                        ]);
                    }
                    Some(cmd)
                }
            },
            (ReconcilePhase::NamingSource, StoreEvent::NameResult(opt)) => {
                let name = match opt {
                    Some(n) => n.clone(),
                    None => fallback_name(&self.source_id),
                };
                let ghost nv = name@;
                let mut names: Vec<String> = Vec::new();
                names.push(name);
                proof {
                    assert(names.deep_view() =~= seq![nv]);
                }
                self.phase = ReconcilePhase::Done;
                self.outcome = Some(Err(SpotifyPlaylistsError::Remove(names)));
                proof {
                    assert(self.history@ =~= h + cmd_calls(None::<StoreCommand>));
                }
                None
            },
            _ => {
                proof {
                    assert(self.history@ =~= h + cmd_calls(None::<StoreCommand>));
                }
                None
            },
        }
    }
}

/// For an add decision the store never sees the same target added twice,
/// every add call names one of the decision's targets, at most one
/// source-removal call is ever issued — and once the machine has moved past
/// the targets, exactly one has been, after every add call, with every target
/// added exactly once before it.
pub proof fn lemma_add_calls_bounded(r: &Reconciler)
    requires
        r.inv(),
        r.decision_view() is Add,
    ensures
        forall|j: int|
            0 <= j < r.calls().len() && #[trigger] r.calls()[j] is AddItem ==> exists|m: int|
                0 <= m < r.targets().len() && r.targets()[m] == call_target(r.calls()[j]),
        forall|j: int, k: int|
            #![trigger r.calls()[j], r.calls()[k]]
            0 <= j < k < r.calls().len() && r.calls()[j] is AddItem && r.calls()[k] is AddItem
                ==> call_target(r.calls()[j]) != call_target(r.calls()[k]),
        forall|j: int, k: int|
            #![trigger r.calls()[j], r.calls()[k]]
            0 <= j < r.calls().len() && 0 <= k < r.calls().len() && j != k ==> !(
            r.calls()[j] is RemoveItem && r.calls()[k] is RemoveItem),
        past_adds(r.phase()) ==> r.calls().contains(StoreCall::RemoveItem(r.source())),
        past_adds(r.phase()) ==> forall|m: int|
            0 <= m < r.targets().len() ==> #[trigger] r.calls().contains(
                StoreCall::AddItem(r.targets()[m]),
            ),
        forall|j: int, k: int|
            #![trigger r.calls()[j], r.calls()[k]]
            0 <= j < r.calls().len() && 0 <= k < r.calls().len() && r.calls()[j] is AddItem
                && r.calls()[k] is RemoveItem ==> j < k,
{
    let t = r.targets();
    let prog = add_progress(r.phase(), t.len());
    assert(prog <= t.len());
}

/// A finished reconciler always carries a settled outcome.
pub proof fn lemma_done_has_outcome(r: &Reconciler)
    requires
        r.inv(),
        r.phase() is Done,
    ensures
        r.outcome_view() is Some,
{
}

/// A removal whose confirmation was declined has settled as a successful
/// skip, and the store saw nothing beyond the confirmation question: in
/// particular, no removal call was ever issued.
pub proof fn lemma_declined_remove_no_calls(r: &Reconciler)
    requires
        r.inv(),
        r.decision_view() is Remove,
        r.phase() is Done,
        r.outcome_view() == Some(Result::<AppliedAction, ErrorView>::Ok(AppliedAction::Skip)),
    ensures
        r.calls() == seq![StoreCall::Confirm(r.prompt_view())],
{
}

/// When an add had failed but the target's listing already contains the
/// track, the next step records no error, asks for no name, and simply moves
/// on to the next target or to the source removal.
pub proof fn lemma_presence_check_clears(
    pre: Reconciler,
    post: Reconciler,
    e: StoreEvent,
    cmd: Option<StoreCommand>,
)
    requires
        step_rel(pre, post, e, cmd),
        pre.phase() matches ReconcilePhase::CheckingPresence(i),
        e matches StoreEvent::ListResult(true),
    ensures
        post.errors_view() == pre.errors_view(),
        forall|j: int|
            0 <= j < cmd_calls(cmd).len() ==> !(#[trigger] cmd_calls(cmd)[j] is GetName),
{
}

/// An add with no targets at all performs only the source-removal and
/// liked-songs steps: no add, listing, naming or confirmation call ever runs.
pub proof fn lemma_empty_add_calls(r: &Reconciler)
    requires
        r.inv(),
        r.decision_view() is Add,
        r.targets().len() == 0,
    ensures
        forall|j: int|
            0 <= j < r.calls().len() ==> (#[trigger] r.calls()[j] is RemoveItem
                || r.calls()[j] is IsLiked || r.calls()[j] is Like),
{
    let h = r.calls();
    let t = r.targets();
    let prog = add_progress(r.phase(), t.len());
    assert forall|j: int| 0 <= j < h.len() implies (#[trigger] h[j] is RemoveItem
        || h[j] is IsLiked || h[j] is Like) by {
        if is_target_call(h[j]) {
            let m = choose|m: int| 0 <= m < prog && t[m] == call_target(h[j]);
            assert(false);
        }
        assert(!(h[j] is Confirm));
    }
}

/// The character-sequence form of each string of `v`.
pub open spec fn deep_of(v: Seq<String>) -> Seq<Seq<char>> {
    Seq::new(v.len(), |i: int| v[i].deep_view())
}

proof fn lemma_vec_deep_view_is_deep_of(v: &Vec<String>)
    ensures
        v.deep_view() == deep_of(v@),
{
    assert(v.deep_view() =~= deep_of(v@));
}

proof fn lemma_deep_of_push(v: Seq<String>, x: String)
    ensures
        deep_of(v.push(x)) == deep_of(v).push(x@),
{
    assert(deep_of(v.push(x)) =~= deep_of(v).push(x@));
}

proof fn lemma_add_hist_push_plain(
    h: Seq<StoreCall>,
    t: Seq<Seq<char>>,
    source: Seq<char>,
    prog: nat,
    past: bool,
    c: StoreCall,
)
    requires
        add_history_inv(h, t, source, prog, past),
        c is IsLiked || c is Like,
    ensures
        add_history_inv(h.push(c), t, source, prog, past),
{
    let h2 = h.push(c);
    assert forall|j: int| 0 <= j < h2.len() && is_target_call(#[trigger] h2[j]) implies exists|
        m: int,
    | 0 <= m < prog && t[m] == call_target(h2[j]) by {
        assert(h2[j] == h[j]);
    }
    assert forall|m: int| 0 <= m < prog implies #[trigger] h2.contains(
        StoreCall::AddItem(t[m]),
    ) by {
        let x = StoreCall::AddItem(t[m]);
        assert(h.contains(x));
        let w = choose|w: int| 0 <= w < h.len() && h[w] == x;
        assert(h2[w] == x);
    }
    if past {
        let x = StoreCall::RemoveItem(source);
        assert(h.contains(x));
        let w = choose|w: int| 0 <= w < h.len() && h[w] == x;
        assert(h2[w] == x);
    }
}

proof fn lemma_add_hist_push_check(
    h: Seq<StoreCall>,
    t: Seq<Seq<char>>,
    source: Seq<char>,
    prog: nat,
    c: StoreCall,
)
    requires
        add_history_inv(h, t, source, prog, false),
        c is ListContains || c is GetName,
        exists|m: int| 0 <= m < prog && t[m] == call_target(c),
    ensures
        add_history_inv(h.push(c), t, source, prog, false),
{
    let h2 = h.push(c);
    assert forall|j: int| 0 <= j < h2.len() && is_target_call(#[trigger] h2[j]) implies exists|
        m: int,
    | 0 <= m < prog && t[m] == call_target(h2[j]) by {
        if j < h.len() {
            assert(h2[j] == h[j]);
        } else {
            assert(h2[j] == c);
        }
    }
    assert forall|m: int| 0 <= m < prog implies #[trigger] h2.contains(
        StoreCall::AddItem(t[m]),
    ) by {
        let x = StoreCall::AddItem(t[m]);
        assert(h.contains(x));
        let w = choose|w: int| 0 <= w < h.len() && h[w] == x;
        assert(h2[w] == x);
    }
}

proof fn lemma_add_hist_push_add(
    h: Seq<StoreCall>,
    t: Seq<Seq<char>>,
    source: Seq<char>,
    prog: nat,
)
    requires
        add_history_inv(h, t, source, prog, false),
        distinct_seqs(t),
        prog < t.len(),
    ensures
        add_history_inv(
            h.push(StoreCall::AddItem(t[prog as int])),
            t,
            source,
            (prog + 1) as nat,
            false,
        ),
{
    let c = StoreCall::AddItem(t[prog as int]);
    let h2 = h.push(c);
    assert forall|j: int| 0 <= j < h2.len() && is_target_call(#[trigger] h2[j]) implies exists|
        m: int,
    | 0 <= m < prog + 1 && t[m] == call_target(h2[j]) by {
        if j < h.len() {
            assert(h2[j] == h[j]);
            let m = choose|m: int| 0 <= m < prog && t[m] == call_target(h[j]);
            assert(0 <= m < prog + 1 && t[m] == call_target(h2[j]));
        } else {
            assert(h2[j] == c);
            assert(t[prog as int] == call_target(c));
        }
    }
    assert forall|j: int, k: int|
        0 <= j < k < h2.len() && #[trigger] h2[j] is AddItem && #[trigger] h2[k] is AddItem implies
        call_target(h2[j]) != call_target(h2[k]) by {
        assert(h2[j] == h[j]);
        if k < h.len() {
            assert(h2[k] == h[k]);
        } else {
            assert(h2[k] == c);
            let m = choose|m: int| 0 <= m < prog && t[m] == call_target(h[j]);
            assert(t[m] != t[prog as int]);
        }
    }
    assert forall|m: int| 0 <= m < prog + 1 implies #[trigger] h2.contains(
        StoreCall::AddItem(t[m]),
    ) by {
        let x = StoreCall::AddItem(t[m]);
        if m < prog {
            assert(h.contains(x));
            let w = choose|w: int| 0 <= w < h.len() && h[w] == x;
            assert(h2[w] == x);
        } else {
            assert(h2[h.len() as int] == x);
        }
    }
}

proof fn lemma_add_hist_push_remove(
    h: Seq<StoreCall>,
    t: Seq<Seq<char>>,
    source: Seq<char>,
    prog: nat,
)
    requires
        add_history_inv(h, t, source, prog, false),
    ensures
        add_history_inv(h.push(StoreCall::RemoveItem(source)), t, source, prog, true),
{
    let c = StoreCall::RemoveItem(source);
    let h2 = h.push(c);
    assert forall|j: int| 0 <= j < h2.len() && is_target_call(#[trigger] h2[j]) implies exists|
        m: int,
    | 0 <= m < prog && t[m] == call_target(h2[j]) by {
        assert(h2[j] == h[j]);
    }
    assert forall|m: int| 0 <= m < prog implies #[trigger] h2.contains(
        StoreCall::AddItem(t[m]),
    ) by {
        let x = StoreCall::AddItem(t[m]);
        assert(h.contains(x));
        let w = choose|w: int| 0 <= w < h.len() && h[w] == x;
        assert(h2[w] == x);
    }
    assert(h2[h.len() as int] == c);
    assert(h2.contains(c));
}

/// A stand-still: an event the phase was not waiting for changes nothing and
/// emits nothing.
pub open spec fn stutter(pre: Reconciler, post: Reconciler, cmd: Option<StoreCommand>) -> bool {
    &&& post.phase() == pre.phase()
    &&& post.calls() == pre.calls()
    &&& post.errors_view() == pre.errors_view()
    &&& post.outcome_view() == pre.outcome_view()
    &&& cmd is None
}

/// The decision, source and prompt never change while a decision is applied.
pub open spec fn same_job(pre: Reconciler, post: Reconciler) -> bool {
    &&& post.decision_view() == pre.decision_view()
    &&& post.source() == pre.source()
    &&& post.prompt_view() == pre.prompt_view()
    &&& post.targets() == pre.targets()
}

/// Moving past target `i`: the next target's add goes out, or — all targets
/// processed — the best-effort source removal.
pub open spec fn advance_rel(
    pre: Reconciler,
    post: Reconciler,
    cmd: Option<StoreCommand>,
    i: int,
) -> bool {
    let t = pre.targets();
    if i + 1 < t.len() {
        &&& post.phase() == ReconcilePhase::Adding((i + 1) as usize)
        &&& cmd_calls(cmd) == seq![StoreCall::AddItem(t[i + 1])]
        &&& post.outcome_view() is None
    } else {
        &&& post.phase() == ReconcilePhase::RemovingSource
        &&& cmd_calls(cmd) == seq![StoreCall::RemoveItem(pre.source())]
        &&& post.outcome_view() is None
    }
}

/// Settling an add decision: success exactly when the error list is empty.
pub open spec fn finish_add_rel(post: Reconciler) -> bool {
    &&& post.phase() == ReconcilePhase::Done
    &&& (post.errors_view().len() == 0 ==> post.outcome_view() == Some(
        Result::<AppliedAction, ErrorView>::Ok(AppliedAction::Add),
    ))
    &&& (post.errors_view().len() > 0 ==> post.outcome_view() == Some(
        Result::<AppliedAction, ErrorView>::Err(ErrorView::Add(post.errors_view())),
    ))
}

/// How one event moves the reconciler. The emitted command is appended to the
/// call history; everything else is dictated by the phase and the event.
pub open spec fn step_rel(
    pre: Reconciler,
    post: Reconciler,
    e: StoreEvent,
    cmd: Option<StoreCommand>,
) -> bool {
    &&& same_job(pre, post)
    &&& post.calls() == pre.calls() + cmd_calls(cmd)
    &&& match pre.phase() {
        ReconcilePhase::Adding(i) => match e {
            StoreEvent::AddResult(ok) => if ok {
                advance_rel(pre, post, cmd, i as int) && post.errors_view() == pre.errors_view()
            } else {
                &&& post.phase() == ReconcilePhase::CheckingPresence(i)
                &&& cmd_calls(cmd) == seq![StoreCall::ListContains(pre.targets()[i as int])]
                &&& post.errors_view() == pre.errors_view()
                &&& post.outcome_view() is None
            },
            _ => stutter(pre, post, cmd),
        },
        ReconcilePhase::CheckingPresence(i) => match e {
            StoreEvent::ListResult(present) => if present {
                advance_rel(pre, post, cmd, i as int) && post.errors_view() == pre.errors_view()
            } else {
                &&& post.phase() == ReconcilePhase::NamingTarget(i)
                &&& cmd_calls(cmd) == seq![StoreCall::GetName(pre.targets()[i as int])]
                &&& post.errors_view() == pre.errors_view()
                &&& post.outcome_view() is None
            },
            _ => stutter(pre, post, cmd),
        },
        ReconcilePhase::NamingTarget(i) => match e {
            StoreEvent::NameResult(opt) => {
                &&& advance_rel(pre, post, cmd, i as int)
                &&& post.errors_view() == pre.errors_view().push(
                    display_name_or_fallback(opt, pre.targets()[i as int]),
                )
            },
            _ => stutter(pre, post, cmd),
        },
        ReconcilePhase::RemovingSource => match e {
            StoreEvent::RemoveResult(_) => {
                &&& post.phase() == ReconcilePhase::CheckingLiked
                &&& cmd_calls(cmd) == seq![StoreCall::IsLiked]
                &&& post.errors_view() == pre.errors_view()
                &&& post.outcome_view() is None
            },
            _ => stutter(pre, post, cmd),
        },
        ReconcilePhase::CheckingLiked => match e {
            StoreEvent::LikedResult(liked) => if liked {
                finish_add_rel(post) && cmd is None && post.errors_view() == pre.errors_view()
            } else {
                &&& post.phase() == ReconcilePhase::Liking
                &&& cmd_calls(cmd) == seq![StoreCall::Like]
                &&& post.errors_view() == pre.errors_view()
                &&& post.outcome_view() is None
            },
            _ => stutter(pre, post, cmd),
        },
        ReconcilePhase::Liking => match e {
            StoreEvent::LikeResult(ok) => if ok {
                finish_add_rel(post) && cmd is None && post.errors_view() == pre.errors_view()
            } else {
                finish_add_rel(post) && cmd is None && post.errors_view() == pre.errors_view().push(
                    "Liked Songs"@,
                )
            },
            _ => stutter(pre, post, cmd),
        },
        ReconcilePhase::Confirming => match e {
            StoreEvent::ConfirmAnswer(yes) => if yes {
                &&& post.phase() == ReconcilePhase::RemovingForDecision
                &&& cmd_calls(cmd) == seq![StoreCall::RemoveItem(pre.source())]
                &&& post.errors_view() == pre.errors_view()
                &&& post.outcome_view() is None
            } else {
                &&& post.phase() == ReconcilePhase::Done
                &&& cmd is None
                &&& post.outcome_view() == Some(Result::<AppliedAction, ErrorView>::Ok(
                    AppliedAction::Skip,
                ))
            },
            _ => stutter(pre, post, cmd),
        },
        ReconcilePhase::RemovingForDecision => match e {
            StoreEvent::RemoveResult(ok) => if ok {
                &&& post.phase() == ReconcilePhase::Done
                &&& cmd is None
                &&& post.outcome_view() == Some(Result::<AppliedAction, ErrorView>::Ok(
                    AppliedAction::Remove,
                ))
            } else {
                &&& post.phase() == ReconcilePhase::NamingSource
                &&& cmd_calls(cmd) == seq![StoreCall::GetName(pre.source())]
                &&& post.outcome_view() is None
            },
            _ => stutter(pre, post, cmd),
        },
        ReconcilePhase::NamingSource => match e {
            StoreEvent::NameResult(opt) => {
                &&& post.phase() == ReconcilePhase::Done
                &&& cmd is None
                &&& post.outcome_view() == Some(Result::<AppliedAction, ErrorView>::Err(
                    ErrorView::Remove(seq![display_name_or_fallback(opt, pre.source())]),
                ))
            },
            _ => stutter(pre, post, cmd),
        },
        ReconcilePhase::Done => stutter(pre, post, cmd),
    }
}

fn clone_strings(v: &Vec<String>) -> (r: Vec<String>)
    ensures
        r.deep_view() == v.deep_view(),
{
    let mut r: Vec<String> = Vec::new();
    let mut i: usize = 0;
    while i < v.len()
        invariant
            i <= v@.len(),
            r.deep_view() == v.deep_view().take(i as int),
        decreases v@.len() - i,
    {
        let ghost prevd = r.deep_view();
        let ghost prevv = r@;
        let x = v[i].clone();
        r.push(x);
        proof {
            assert(prevd.len() == i as int);
            assert(prevv.len() == i as int);
            assert forall|j: int| 0 <= j < i + 1 implies r.deep_view()[j] == v.deep_view().take(
                i + 1,
            )[j] by {
                if j < i {
                    assert(r@[j] == prevv[j]);
                    assert(prevd[j] == v.deep_view().take(i as int)[j]);
                    assert(prevd[j] == prevv[j].deep_view());
                } else {
                    assert(r@[j] == x);
                    assert(v.deep_view()[j] == v@[j].deep_view());
                }
            }
            assert(r.deep_view() =~= v.deep_view().take(i + 1));
        }
        i = i + 1;
    }
    proof {
        assert(v.deep_view().take(v@.len() as int) =~= v.deep_view());
    }
    r
}

fn fallback_name(id: &String) -> (r: String)
    ensures
        r@ == "Playlist with ID "@ + id@,
{
    let mut r = "Playlist with ID ".to_owned();
    r.append(id.as_str());
    proof {
        assert(r@ =~= "Playlist with ID "@ + id@);
    }
    r
}

/// The one feedback line shown after a decision is applied: success wording
/// by the kind of applied action, failure wording naming the playlists that
/// could not be updated.
pub open spec fn feedback_spec(summary: Seq<char>, result: Result<AppliedAction, ErrorView>) -> Seq<
    char,
> {
    match result {
        Ok(AppliedAction::Add) => "Sucessfully sorted "@ + summary,
        Ok(AppliedAction::Remove) => "Removed "@ + summary
            + " from source playlist without sorting it"@,
        Ok(AppliedAction::Skip) => "Skipped "@ + summary,
        Err(ErrorView::Add(names)) => "Failed to add "@ + summary + " to the playlist(s) "@
            + join_spec(names, seq![',', ' ']),
        Err(ErrorView::Remove(names)) => "Failed to remove "@ + summary + " from the playlist(s) "@
            + join_spec(names, seq![',', ' ']),
    }
}

/// The feedback line for the given track summary and outcome.
pub fn track_action_feedback(summary: &String, result: &Result<
    AppliedAction,
    SpotifyPlaylistsError,
>) -> (r: String)
    ensures
        r@ == feedback_spec(summary@, result_view(*result)),
{
    proof {
        reveal_strlit(", ");
        assert((", ")@ =~= seq![',', ' ']);
    }
    let mut r = String::new();
    match result {
        Ok(AppliedAction::Add) => {
            r.append("Sucessfully sorted ");
            r.append(summary.as_str());
        },
        Ok(AppliedAction::Remove) => {
            r.append("Removed ");
            r.append(summary.as_str());
            r.append(" from source playlist without sorting it");
        },
        Ok(AppliedAction::Skip) => {
            r.append("Skipped ");
            r.append(summary.as_str());
        },
        Err(SpotifyPlaylistsError::Add(names)) => {
            r.append("Failed to add ");
            r.append(summary.as_str());
            r.append(" to the playlist(s) ");
            let joined = join_with(names, ", ");
            r.append(joined.as_str());
        },
        Err(SpotifyPlaylistsError::Remove(names)) => {
            r.append("Failed to remove ");
            r.append(summary.as_str());
            r.append(" from the playlist(s) ");
            let joined = join_with(names, ", ");
            r.append(joined.as_str());
        },
    }
    proof {
        assert(r@ =~= feedback_spec(summary@, result_view(*result)));
    }
    r
}

} // verus!
