//! The per-track menu: the selection of target playlists and the resolution
//! of one line of operator input into an action.

use vstd::prelude::*;
use crate::model::PlaylistView;
use crate::text::{
    decimal_spec, digit_char, half_screen_spec, is_space_spec, parse_nat_spec, parse_toggle,
    split_words, string_to_half_screen_at, style_green, styled_spec, usize_to_string, words_spec,
};

verus! {

/// What one pass of the menu resolves to. The volume variants and `Quit`
/// never reach the playlist reconciler.
pub enum TrackAction {
    /// Distribute the track into the selected target playlists.
    Add(Vec<usize>),
    /// Remove the track from the source playlist.
    Remove,
    /// Leave the track alone.
    Skip,
    /// Raise (`true`) or lower (`false`) the preview volume and show the menu again.
    ChangeVolume(bool),
    /// End the session.
    Quit,
}

/// Which target playlists are currently ticked, by their position in the
/// session's fixed target list.
pub struct SelectionState {
    selected: Vec<bool>,
}

/// The tick marks after toggling position `i`.
pub open spec fn toggle_spec(sel: Seq<bool>, i: int) -> Seq<bool> {
    sel.update(i, !sel[i])
}

/// The positions of the ticked entries, in increasing order, considering only
/// the first `n` entries.
pub open spec fn selected_indices_rec(sel: Seq<bool>, n: int) -> Seq<usize>
    decreases n,
{
    if n <= 0 {
        Seq::empty()
    } else if sel[n - 1] {
        selected_indices_rec(sel, n - 1).push((n - 1) as usize)
    } else {
        selected_indices_rec(sel, n - 1)
    }
}

/// The positions of the ticked entries, in increasing order.
pub open spec fn selected_indices_spec(sel: Seq<bool>) -> Seq<usize> {
    selected_indices_rec(sel, sel.len() as int)
}

impl View for SelectionState {
    type V = Seq<bool>;

    /// The tick marks, one per target playlist.
    closed spec fn view(&self) -> Seq<bool> {
        self.selected@
    }
}

impl SelectionState {
    /// A fresh selection over `n` targets, none ticked.
    pub fn new(n: usize) -> (r: SelectionState)
        ensures
            r@ == Seq::new(n as nat, |i: int| false),
    {
        let mut selected: Vec<bool> = Vec::new();
        let mut i: usize = 0;
        while i < n
            invariant
                i <= n,
                selected@ == Seq::new(i as nat, |j: int| false),
            decreases n - i,
        {
            let ghost prev = selected@;
            selected.push(false);
            i = i + 1;
            proof {
                assert(selected@ =~= Seq::new(i as nat, |j: int| false));
            }
        }
        SelectionState { selected }
    }

    /// How many targets the selection ranges over.
    pub fn len(&self) -> (r: usize)
        ensures
            r == self@.len(),
    {
        self.selected.len()
    }

    /// Whether target `i` is ticked.
    pub fn is_selected(&self, i: usize) -> (r: bool)
        requires
            i < self@.len(),
        ensures
            r == self@[i as int],
    {
        self.selected[i]
    }

    /// Invert the tick of target `i`.
    pub fn toggle(&mut self, i: usize)
        requires
            i < old(self)@.len(),
        ensures
            final(self)@ == toggle_spec(old(self)@, i as int),
    {
        let v = self.selected[i];
        self.selected.set(i, !v);
    }

    /// The positions of all ticked targets, in increasing order.
    pub fn selected_indices(&self) -> (r: Vec<usize>)
        ensures
            r@ == selected_indices_spec(self@),
    {
        let mut r: Vec<usize> = Vec::new();
        let mut i: usize = 0;
        while i < self.selected.len()
            invariant
                i <= self@.len(),
                r@ == selected_indices_rec(self@, i as int),
            decreases self@.len() - i,
        {
            if self.selected[i] {
                r.push(i);
            }
            i = i + 1;
        }
        r
    }
}

/// The number of leading whitespace characters of `s`.
pub open spec fn leading_space_len(s: Seq<char>) -> nat
    decreases s.len(),
{
    if s.len() == 0 || !is_space_spec(s[0]) {
        0
    } else {
        (1 + leading_space_len(s.skip(1))) as nat
    }
}

/// The number of trailing whitespace characters of `s`.
pub open spec fn trailing_space_len(s: Seq<char>) -> nat
    decreases s.len(),
{
    if s.len() == 0 || !is_space_spec(s.last()) {
        0
    } else {
        (1 + trailing_space_len(s.drop_last())) as nat
    }
}

/// `s` without leading and trailing whitespace.
pub open spec fn trim_spec(s: Seq<char>) -> Seq<char> {
    let t = s.skip(leading_space_len(s) as int);
    t.take((t.len() - trailing_space_len(t)) as int)
}

proof fn lemma_leading_space_len_run(s: Seq<char>, j: int)
    requires
        0 <= j <= s.len(),
        forall|i: int| 0 <= i < j ==> is_space_spec(#[trigger] s[i]),
        j == s.len() || !is_space_spec(s[j]),
    ensures
        leading_space_len(s) == j,
    decreases j,
{
    if j > 0 {
        assert(is_space_spec(s[0]));
        assert forall|i: int| 0 <= i < j - 1 implies is_space_spec(#[trigger] s.skip(1)[i]) by {
            assert(s.skip(1)[i] == s[i + 1]);
        }
        if j - 1 < s.skip(1).len() {
            assert(s.skip(1)[j - 1] == s[j]);
        }
        lemma_leading_space_len_run(s.skip(1), j - 1);
    }
}

proof fn lemma_trailing_space_len_run(s: Seq<char>, j: int)
    requires
        0 <= j <= s.len(),
        forall|i: int| j <= i < s.len() ==> is_space_spec(#[trigger] s[i]),
        j == 0 || !is_space_spec(s[j - 1]),
    ensures
        trailing_space_len(s) == s.len() - j,
    decreases s.len() - j,
{
    if j < s.len() {
        assert(is_space_spec(s.last()));
        assert forall|i: int| j <= i < s.drop_last().len() implies is_space_spec(
            #[trigger] s.drop_last()[i],
        ) by {
            assert(s.drop_last()[i] == s[i]);
        }
        if j > 0 {
            assert(s.drop_last()[j - 1] == s[j - 1]);
        }
        lemma_trailing_space_len_run(s.drop_last(), j);
    }
}

/// `line` without leading and trailing whitespace.
pub fn trim(line: &String) -> (r: String)
    ensures
        r@ == trim_spec(line@),
{
    let s = line.as_str();
    let n = s.unicode_len();
    let mut a: usize = 0;
    while a < n && is_space_exec(s.get_char(a))
        invariant
            a <= n,
            n == s@.len(),
            forall|i: int| 0 <= i < a ==> is_space_spec(#[trigger] s@[i]),
        decreases n - a,
    {
        a = a + 1;
    }
    proof {
        lemma_leading_space_len_run(s@, a as int);
    }
    let mut b: usize = n;
    while b > a && is_space_exec(s.get_char(b - 1))
        invariant
            a <= b <= n,
            n == s@.len(),
            forall|i: int| b <= i < n ==> is_space_spec(#[trigger] s@[i]),
        decreases b,
    {
        b = b - 1;
    }
    let r = s.substring_char(a, b).to_owned();
    proof {
        let t = s@.skip(a as int);
        assert forall|i: int| b - a <= i < t.len() implies is_space_spec(#[trigger] t[i]) by {
            assert(t[i] == s@[i + a]);
        }
        if b > a {
            assert(t[b - a - 1] == s@[b - 1]);
            assert(!is_space_spec(t[b - a - 1]));
        }
        lemma_trailing_space_len_run(t, b - a);
        assert(t.take((t.len() - trailing_space_len(t)) as int) =~= s@.subrange(
            a as int,
            b as int,
        ));
    }
    r
}

fn is_space_exec(c: char) -> (r: bool)
    ensures
        r == is_space_spec(c),
{
    c == ' ' || c == '\t' || c == '\n' || c == '\r' || c == '\u{b}' || c == '\u{c}'
}

/// Whether `s` reads exactly as the given text.
fn string_is(s: &String, lit: &str) -> (r: bool)
    ensures
        r == (s@ == lit@),
{
    let o = lit.to_owned();
    o.eq(s)
}

/// The tick marks after an input line's whitespace-separated tokens are
/// applied in order: each token naming a target by its one-based number
/// inverts that target's tick, and every other token changes nothing.
pub open spec fn apply_tokens(sel: Seq<bool>, tokens: Seq<Seq<char>>) -> Seq<bool>
    decreases tokens.len(),
{
    if tokens.len() == 0 {
        sel
    } else {
        let rest = apply_tokens(sel, tokens.drop_last());
        match parse_nat_spec(tokens.last()) {
            Some(v) => if 1 <= v <= sel.len() {
                rest.update(v - 1, !rest[v - 1])
            } else {
                rest
            },
            None => rest,
        }
    }
}

proof fn lemma_apply_tokens_len(sel: Seq<bool>, tokens: Seq<Seq<char>>)
    ensures
        apply_tokens(sel, tokens).len() == sel.len(),
    decreases tokens.len(),
{
    if tokens.len() > 0 {
        lemma_apply_tokens_len(sel, tokens.drop_last());
    }
}

/// Whether the trimmed line is one of the menu's terminal commands, given
/// whether volume control is on the menu.
pub open spec fn is_command(t: Seq<char>, volume_available: bool) -> bool {
    t == "r"@ || t == "s"@ || t == "q"@ || t == "a"@ || ((t == "u"@ || t == "d"@)
        && volume_available)
}

/// Resolve one line of operator input against the current selection.
///
/// The commands `r`, `s`, `q` and `a` end the menu with an action and leave
/// the selection alone; `u` and `d` ask for a volume change when volume
/// control is shown, and also leave the selection alone. Any other line only
/// toggles the targets its numeric tokens name, and the menu is shown again.
pub fn resolve_input(line: &String, selection: &mut SelectionState, volume_available: bool) -> (r:
    Option<TrackAction>)
    ensures
        final(selection)@.len() == old(selection)@.len(),
        ({
            let t = trim_spec(line@);
            &&& (t == "r"@ ==> (r matches Some(TrackAction::Remove)) && final(selection)@ == old(
                selection,
            )@)
            &&& (t == "s"@ ==> (r matches Some(TrackAction::Skip)) && final(selection)@ == old(
                selection,
            )@)
            &&& (t == "q"@ ==> (r matches Some(TrackAction::Quit)) && final(selection)@ == old(
                selection,
            )@)
            &&& (t == "u"@ && volume_available ==> (r matches Some(
                TrackAction::ChangeVolume(up),
            ) && up == true) && final(selection)@ == old(selection)@)
            &&& (t == "d"@ && volume_available ==> (r matches Some(
                TrackAction::ChangeVolume(up),
            ) && up == false) && final(selection)@ == old(selection)@)
            &&& (t == "a"@ ==> (r matches Some(TrackAction::Add(idx)) && idx@
                == selected_indices_spec(old(selection)@)) && final(selection)@ == old(
                selection,
            )@)
            &&& (!is_command(t, volume_available) ==> r is None && final(selection)@
                == apply_tokens(old(selection)@, words_spec(line@)))
        }),
{
    proof {
        lemma_distinct_commands();
    }
    let trimmed = trim(line);
    if string_is(&trimmed, "r") {
        return Some(TrackAction::Remove);
    }
    if string_is(&trimmed, "s") {
        return Some(TrackAction::Skip);
    }
    if string_is(&trimmed, "q") {
        return Some(TrackAction::Quit);
    }
    if volume_available && string_is(&trimmed, "u") {
        return Some(TrackAction::ChangeVolume(true));
    }
    if volume_available && string_is(&trimmed, "d") {
        return Some(TrackAction::ChangeVolume(false));
    }
    if string_is(&trimmed, "a") {
        return Some(TrackAction::Add(selection.selected_indices()));
    }
    let tokens = split_words(line.as_str());
    let ghost toks = tokens.deep_view();
    let count = selection.len();
    let mut k: usize = 0;
    proof {
        assert(toks.take(0) =~= Seq::<Seq<char>>::empty());
    }
    while k < tokens.len()
        invariant
            k <= tokens.len(),
            toks == tokens.deep_view(),
            count == old(selection)@.len(),
            selection@ == apply_tokens(old(selection)@, toks.take(k as int)),
        decreases tokens.len() - k,
    {
        proof {
            lemma_apply_tokens_len(old(selection)@, toks.take(k as int));
            assert(toks.take(k + 1).drop_last() =~= toks.take(k as int));
            assert(toks.take(k + 1).last() == toks[k as int]);
        }
        match parse_toggle(&tokens[k], count) {
            Some(i) => {
                selection.toggle(i);
            },
            None => {},
        }
        k = k + 1;
    }
    proof {
        assert(toks.take(tokens.len() as int) =~= toks);
        lemma_apply_tokens_len(old(selection)@, toks);
    }
    None
}

/// The five one-letter commands read differently, so at most one of the
/// command branches can ever be taken for a given line.
pub proof fn lemma_distinct_commands()
    ensures
        "r"@ != "s"@ && "r"@ != "q"@ && "r"@ != "u"@ && "r"@ != "d"@ && "r"@ != "a"@,
        "s"@ != "q"@ && "s"@ != "u"@ && "s"@ != "d"@ && "s"@ != "a"@,
        "q"@ != "u"@ && "q"@ != "d"@ && "q"@ != "a"@,
        "u"@ != "d"@ && "u"@ != "a"@,
        "d"@ != "a"@,
{
    reveal_strlit("r");
    reveal_strlit("s");
    reveal_strlit("q");
    reveal_strlit("u");
    reveal_strlit("d");
    reveal_strlit("a");
    assert("r"@[0] == 'r' && "s"@[0] == 's' && "q"@[0] == 'q' && "u"@[0] == 'u' && "d"@[0] == 'd'
        && "a"@[0] == 'a');
}

/// The volume level, in tenths of the full gain, written with one decimal.
pub open spec fn volume_value_spec(tenths: u8) -> Seq<char> {
    decimal_spec((tenths / 10) as nat) + seq!['.', digit_char((tenths % 10) as nat)]
}

/// The volume level written with one decimal, as shown on the menu.
pub fn volume_value(tenths: u8) -> (r: String)
    ensures
        r@ == volume_value_spec(tenths),
{
    let mut r = usize_to_string((tenths / 10) as usize);
    proof {
        reveal_strlit(".");
    }
    r.append(".");
    let frac = usize_to_string((tenths % 10) as usize);
    r.append(frac.as_str());
    proof {
        assert(r@ =~= volume_value_spec(tenths));
    }
    r
}

/// The names of the playlists, in order.
pub open spec fn names_of(ps: Seq<PlaylistView>) -> Seq<Seq<char>> {
    ps.map_values(|p: PlaylistView| p.name)
}

/// One entry of the target grid: the one-based number and name, ticked
/// entries marked and painted green, fit to half the screen, with a trailing
/// space.
pub open spec fn grid_entry_spec(i: int, name: Seq<char>, ticked: bool, w: nat) -> Seq<char> {
    let label = if ticked {
        "[\u{2713}] "@ + decimal_spec((i + 1) as nat) + " - "@ + name
    } else {
        decimal_spec((i + 1) as nat) + " - "@ + name
    };
    let fitted = half_screen_spec(label, w);
    (if ticked {
        styled_spec(fitted, seq!['3', '2'])
    } else {
        fitted
    }) + seq![' ']
}

/// The first `n` entries of the target grid, two to a line.
pub open spec fn grid_rec(names: Seq<Seq<char>>, sel: Seq<bool>, w: nat, n: int) -> Seq<char>
    decreases n,
{
    if n <= 0 {
        Seq::empty()
    } else {
        grid_rec(names, sel, w, n - 1) + grid_entry_spec(n - 1, names[n - 1], sel[n - 1], w) + (
        if (n - 1) % 2 != 0 || n == names.len() {
            seq!['\n']
        } else {
            Seq::empty()
        })
    }
}

/// The whole menu prompt under the track display: the target grid, the action
/// legend, the volume line when volume control is available, and the choice
/// prompt.
pub open spec fn menu_screen_spec(
    display: Seq<char>,
    names: Seq<Seq<char>>,
    sel: Seq<bool>,
    volume: Option<u8>,
    w: nat,
) -> Seq<char> {
    display + "\n\nChoose playlists to add track to\n\n"@ + grid_rec(
        names,
        sel,
        w,
        names.len() as int,
    ) + "\na - Confirm and add to playlists\ns - Skip track\nr - Remove from source without adding\n"@
        + (match volume {
        Some(t) => "\nu - Volume up | d - Volume down | Current volume: "@ + volume_value_spec(t)
            + "\n\n"@,
        None => Seq::empty(),
    }) + "q - Quit\n\nChoice: "@
}

/// The menu prompt for the given track display block, targets and selection.
pub fn menu_screen(
    display: &String,
    playlists: &Vec<crate::model::Playlist>,
    selection: &SelectionState,
    volume: Option<u8>,
    w: usize,
) -> (r: String)
    requires
        selection@.len() == playlists@.len(),
        playlists@.len() < usize::MAX,
    ensures
        r@ == menu_screen_spec(
            display@,
            names_of(playlists.deep_view()),
            selection@,
            volume,
            w as nat,
        ),
{
    let ghost names = names_of(playlists.deep_view());
    let mut r = display.clone();
    r.append("\n\nChoose playlists to add track to\n\n");
    let n = playlists.len();
    let mut i: usize = 0;
    proof {
        assert(r@ =~= display@ + "\n\nChoose playlists to add track to\n\n"@ + grid_rec(
            names,
            selection@,
            w as nat,
            0,
        ));
    }
    while i < n
        invariant
            i <= n,
            n == playlists@.len(),
            n < usize::MAX,
            selection@.len() == n,
            names == names_of(playlists.deep_view()),
            r@ == display@ + "\n\nChoose playlists to add track to\n\n"@ + grid_rec(
                names,
                selection@,
                w as nat,
                i as int,
            ),
        decreases n - i,
    {
        let ticked = selection.is_selected(i);
        let num = usize_to_string(i + 1);
        let mut label = String::new();
        if ticked {
            label.append("[\u{2713}] ");
        }
        label.append(num.as_str());
        label.append(" - ");
        label.append(playlists[i].name.as_str());
        proof {
            assert(names[i as int] == playlists.deep_view()[i as int].name);
            if ticked {
                assert(label@ =~= "[\u{2713}] "@ + decimal_spec((i + 1) as nat) + " - "@
                    + names[i as int]);
            } else {
                assert(label@ =~= decimal_spec((i + 1) as nat) + " - "@ + names[i as int]);
            }
        }
        let fitted = string_to_half_screen_at(&label, w);
        if ticked {
            let painted = style_green(fitted.as_str());
            r.append(painted.as_str());
        } else {
            r.append(fitted.as_str());
        }
        r.append(" ");
        proof {
            reveal_strlit(" ");
            reveal_strlit("\n");
        }
        if i % 2 != 0 || i == n - 1 {
            r.append("\n");
            proof {
                assert(r@ =~= display@ + "\n\nChoose playlists to add track to\n\n"@ + grid_rec(
                    names,
                    selection@,
                    w as nat,
                    i + 1,
                ));
            }
        } else {
            proof {
                assert(r@ =~= display@ + "\n\nChoose playlists to add track to\n\n"@ + grid_rec(
                    names,
                    selection@,
                    w as nat,
                    i + 1,
                ));
            }
        }
        i = i + 1;
    }
    r.append(
        "\na - Confirm and add to playlists\ns - Skip track\nr - Remove from source without adding\n",
    );
    match volume {
        Some(t) => {
            r.append("\nu - Volume up | d - Volume down | Current volume: ");
            let v = volume_value(t);
            r.append(v.as_str());
            r.append("\n\n");
        },
        None => {},
    }
    r.append("q - Quit\n\nChoice: ");
    proof {
        assert(r@ =~= menu_screen_spec(
            display@,
            names,
            selection@,
            volume,
            w as nat,
        ));
    }
    r
}

proof fn lemma_selected_indices_rec_bounds(sel: Seq<bool>, n: int)
    requires
        0 <= n <= sel.len(),
        sel.len() <= usize::MAX,
    ensures
        forall|k: int|
            0 <= k < selected_indices_rec(sel, n).len() ==> #[trigger] selected_indices_rec(
                sel,
                n,
            )[k] < n,
        forall|k1: int, k2: int|
            #![trigger selected_indices_rec(sel, n)[k1], selected_indices_rec(sel, n)[k2]]
            0 <= k1 < k2 < selected_indices_rec(sel, n).len() ==> selected_indices_rec(sel, n)[k1]
                < selected_indices_rec(sel, n)[k2],
    decreases n,
{
    if n > 0 {
        lemma_selected_indices_rec_bounds(sel, n - 1);
        let prev = selected_indices_rec(sel, n - 1);
        let cur = selected_indices_rec(sel, n);
        if sel[n - 1] {
            assert(cur == prev.push((n - 1) as usize));
        } else {
            assert(cur == prev);
        }
        assert forall|k: int| 0 <= k < cur.len() implies #[trigger] cur[k] < n by {
            if k < prev.len() {
                assert(cur[k] == prev[k]);
            }
        }
        assert forall|k1: int, k2: int|
            #![trigger cur[k1], cur[k2]]
            0 <= k1 < k2 < cur.len() implies cur[k1] < cur[k2] by {
            assert(cur[k1] == prev[k1]);
            if k2 < prev.len() {
                assert(cur[k2] == prev[k2]);
            } else {
                assert(cur[k2] == (n - 1) as usize);
                assert(prev[k1] < n - 1);
            }
        }
    }
}

/// The selected target positions are strictly increasing and all lie within
/// the selection.
pub proof fn lemma_selected_indices_bounds(sel: Seq<bool>)
    requires
        sel.len() <= usize::MAX,
    ensures
        forall|k: int|
            0 <= k < selected_indices_spec(sel).len() ==> #[trigger] selected_indices_spec(
                sel,
            )[k] < sel.len(),
        forall|k1: int, k2: int|
            #![trigger selected_indices_spec(sel)[k1], selected_indices_spec(sel)[k2]]
            0 <= k1 < k2 < selected_indices_spec(sel).len() ==> selected_indices_spec(sel)[k1]
                < selected_indices_spec(sel)[k2],
{
    lemma_selected_indices_rec_bounds(sel, sel.len() as int);
}

/// Toggling the same target twice in sequence restores the selection.
pub proof fn lemma_toggle_twice(sel: Seq<bool>, i: int)
    requires
        0 <= i < sel.len(),
    ensures
        toggle_spec(toggle_spec(sel, i), i) == sel,
{
    assert(toggle_spec(toggle_spec(sel, i), i) =~= sel);
}

/// With no target ticked, confirming the menu yields the empty target set.
pub proof fn lemma_empty_selection_empty_add(sel: Seq<bool>)
    requires
        forall|i: int| 0 <= i < sel.len() ==> !sel[i],
    ensures
        selected_indices_spec(sel).len() == 0,
{
    lemma_empty_selection_rec(sel, sel.len() as int);
}

proof fn lemma_empty_selection_rec(sel: Seq<bool>, n: int)
    requires
        n <= sel.len(),
        forall|i: int| 0 <= i < sel.len() ==> !sel[i],
    ensures
        selected_indices_rec(sel, n).len() == 0,
    decreases n,
{
    if n > 0 {
        lemma_empty_selection_rec(sel, n - 1);
    }
}

/// What the account screen's keystroke asks for.
pub enum AccountChoice {
    /// Log out and end the run.
    LogOut,
    /// End the run, staying logged in.
    Quit,
    /// Go on to choosing the source playlist.
    Continue,
}

/// How the account screen's keystroke reads: `l` logs out, `q` quits, and any
/// other key continues into the session.
pub fn account_choice(c: char) -> (r: AccountChoice)
    ensures
        c == 'l' ==> r is LogOut,
        c == 'q' ==> r is Quit,
        c != 'l' && c != 'q' ==> r is Continue,
{
    if c == 'l' {
        AccountChoice::LogOut
    } else if c == 'q' {
        AccountChoice::Quit
    } else {
        AccountChoice::Continue
    }
}

/// How a confirmation keystroke reads: `y` confirms, `n` cancels, anything
/// else is not an answer and the question is asked again.
pub fn interpret_confirmation(c: char) -> (r: Option<bool>)
    ensures
        c == 'y' ==> r == Some(true),
        c == 'n' ==> r == Some(false),
        c != 'y' && c != 'n' ==> r is None,
{
    if c == 'y' {
        Some(true)
    } else if c == 'n' {
        Some(false)
    } else {
        None
    }
}

/// How a one-based choice of one of `n` items reads: in range it names an
/// item by zero-based index, out of range it is no choice at all.
pub fn validate_choice(input: usize, n: usize) -> (r: Option<usize>)
    ensures
        1 <= input <= n ==> r == Some((input - 1) as usize),
        !(1 <= input <= n) ==> r is None,
{
    if 1 <= input && input <= n {
        Some(input - 1)
    } else {
        None
    }
}

} // verus!
