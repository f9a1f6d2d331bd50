//! Terminal text layout: centering, padding, clipping and wrapping of lines
//! for a screen of a known (bounded) width.

use vstd::prelude::*;

verus! {

/// Widest screen the layout uses; wider terminals are treated as this wide.
pub const MAX_SCREEN_WIDTH: usize = 48;

/// A run of `n` spaces.
pub open spec fn spaces(n: nat) -> Seq<char> {
    Seq::new(n, |i: int| ' ')
}

/// `s` centered on a line of width `width`: the same padding on both sides,
/// rounding down, and no padding at all when `s` already fills the line.
pub open spec fn center_spec(s: Seq<char>, width: nat) -> Seq<char> {
    let pad = if s.len() <= width {
        ((width - s.len()) as nat) / 2
    } else {
        0
    };
    spaces(pad) + s + spaces(pad)
}

/// `s` padded with spaces on the right up to `n` characters.
pub open spec fn pad_right_spec(s: Seq<char>, n: nat) -> Seq<char> {
    let pad = if s.len() <= n {
        (n - s.len()) as nat
    } else {
        0
    };
    s + spaces(pad)
}

/// The first characters of `s` followed by an ellipsis, fitting `n`
/// characters when `s` is long enough to be clipped at all.
pub open spec fn clip_spec(s: Seq<char>, n: nat) -> Seq<char> {
    let keep = if n <= 3 {
        0
    } else {
        (n - 3) as nat
    };
    let keep = if keep <= s.len() {
        keep
    } else {
        s.len()
    };
    s.take(keep as int) + seq!['.', '.', '.']
}

/// `s` fit to half a screen of width `w`: padded when it fits, clipped when not.
pub open spec fn half_screen_spec(s: Seq<char>, w: nat) -> Seq<char> {
    let half = w / 2;
    if s.len() > half {
        clip_spec(s, half)
    } else {
        pad_right_spec(s, half)
    }
}

/// Relies on terminal_size::terminal_size: asks the terminal for its column and
/// row counts. The answer depends on the environment, so nothing is promised
/// of the value; `None` stands for "no terminal".
#[verifier::external_body]
fn query_terminal_size() -> (r: Option<(u16, u16)>) {
    terminal_size::terminal_size().map(|wh| ((wh.0).0, (wh.1).0))
}

/// The width the layout works with: the terminal's width capped at
/// [`MAX_SCREEN_WIDTH`], or the cap itself when there is no terminal.
pub fn screen_width() -> (w: usize)
    ensures
        w <= MAX_SCREEN_WIDTH,
{
    match query_terminal_size() {
        Some((tw, _)) => {
            if (tw as usize) < MAX_SCREEN_WIDTH {
                tw as usize
            } else {
                MAX_SCREEN_WIDTH
            }
        },
        None => MAX_SCREEN_WIDTH,
    }
}

/// A string of `n` spaces.
pub fn make_spaces(n: usize) -> (r: String)
    ensures
        r@ == spaces(n as nat),
{
    let mut r = String::new();
    let mut i: usize = 0;
    while i < n
        invariant
            i <= n,
            r@ == spaces(i as nat),
        decreases n - i,
    {
        proof {
            reveal_strlit(" ");
        }
        r.append(" ");
        i = i + 1;
        proof {
            assert(r@ =~= spaces(i as nat));
        }
    }
    r
}

/// `s` centered on a line of the given width.
pub fn center_string_at(s: &String, width: usize) -> (r: String)
    ensures
        r@ == center_spec(s@, width as nat),
{
    let len = s.as_str().unicode_len();
    let pad_size: usize = if len <= width {
        (width - len) / 2
    } else {
        0
    };
    let pad = make_spaces(pad_size);
    let mut r = pad.clone();
    r.append(s.as_str());
    r.append(pad.as_str());
    proof {
        assert(r@ =~= center_spec(s@, width as nat));
    }
    r
}

/// `s` centered on the current screen.
pub fn center_string(s: &String) -> (r: String)
    ensures
        exists|w: nat| w <= MAX_SCREEN_WIDTH && r@ == center_spec(s@, w),
{
    let w = screen_width();
    let r = center_string_at(s, w);
    proof {
        assert(w as nat <= MAX_SCREEN_WIDTH && r@ == center_spec(s@, w as nat));
    }
    r
}

/// `s` padded with spaces on the right up to `n` characters.
pub fn pad_string_right(s: &String, n: usize) -> (r: String)
    ensures
        r@ == pad_right_spec(s@, n as nat),
{
    let len = s.as_str().unicode_len();
    let pad_size: usize = if len <= n {
        n - len
    } else {
        0
    };
    let pad = make_spaces(pad_size);
    let mut r = s.clone();
    r.append(pad.as_str());
    proof {
        assert(r@ =~= pad_right_spec(s@, n as nat));
    }
    r
}

/// The first characters of `s` followed by `...`, fitting `n` characters when
/// `s` is long enough to be clipped at all.
pub fn clip_string(s: &String, n: usize) -> (r: String)
    ensures
        r@ == clip_spec(s@, n as nat),
{
    let len = s.as_str().unicode_len();
    let keep: usize = if n <= 3 {
        0
    } else {
        n - 3
    };
    let keep: usize = if keep <= len {
        keep
    } else {
        len
    };
    let mut r = s.as_str().substring_char(0, keep).to_owned();
    proof {
        reveal_strlit("...");
    }
    r.append("...");
    proof {
        assert(r@ =~= clip_spec(s@, n as nat));
    }
    r
}

/// `s` fit to half a screen of the given full width.
pub fn string_to_half_screen_at(s: &String, w: usize) -> (r: String)
    ensures
        r@ == half_screen_spec(s@, w as nat),
{
    let half = w / 2;
    let len = s.as_str().unicode_len();
    if len > half {
        clip_string(s, half)
    } else {
        pad_string_right(s, half)
    }
}

/// The decimal digit character for `d`.
pub open spec fn digit_char(d: nat) -> char {
    if d == 0 {
        '0'
    } else if d == 1 {
        '1'
    } else if d == 2 {
        '2'
    } else if d == 3 {
        '3'
    } else if d == 4 {
        '4'
    } else if d == 5 {
        '5'
    } else if d == 6 {
        '6'
    } else if d == 7 {
        '7'
    } else if d == 8 {
        '8'
    } else {
        '9'
    }
}

/// The decimal rendering of `n`, most significant digit first.
pub open spec fn decimal_spec(n: nat) -> Seq<char>
    decreases n,
{
    if n < 10 {
        seq![digit_char(n)]
    } else {
        decimal_spec(n / 10).push(digit_char(n % 10))
    }
}

fn digit_to_string(d: usize) -> (r: String)
    requires
        d < 10,
    ensures
        r@ == seq![digit_char(d as nat)],
{
    let s: &str = if d == 0 {
        "0"
    } else if d == 1 {
        "1"
    } else if d == 2 {
        "2"
    } else if d == 3 {
        "3"
    } else if d == 4 {
        "4"
    } else if d == 5 {
        "5"
    } else if d == 6 {
        "6"
    } else if d == 7 {
        "7"
    } else if d == 8 {
        "8"
    } else {
        "9"
    };
    proof {
        reveal_strlit("0");
        reveal_strlit("1");
        reveal_strlit("2");
        reveal_strlit("3");
        reveal_strlit("4");
        reveal_strlit("5");
        reveal_strlit("6");
        reveal_strlit("7");
        reveal_strlit("8");
        reveal_strlit("9");
    }
    let r = s.to_owned();
    proof {
        assert(r@ =~= seq![digit_char(d as nat)]);
    }
    r
}

/// `n` written in decimal.
pub fn usize_to_string(n: usize) -> (r: String)
    ensures
        r@ == decimal_spec(n as nat),
    decreases n,
{
    if n < 10 {
        digit_to_string(n)
    } else {
        let mut r = usize_to_string(n / 10);
        let d = digit_to_string(n % 10);
        r.append(d.as_str());
        proof {
            assert(r@ =~= decimal_spec(n as nat));
        }
        r
    }
}

/// Whether `c` counts as whitespace when a line is split into tokens.
pub open spec fn is_space_spec(c: char) -> bool {
    c == ' ' || c == '\t' || c == '\n' || c == '\r' || c == '\u{b}' || c == '\u{c}'
}

fn is_space(c: char) -> (r: bool)
    ensures
        r == is_space_spec(c),
{
    c == ' ' || c == '\t' || c == '\n' || c == '\r' || c == '\u{b}' || c == '\u{c}'
}

/// The numeric value of a run of decimal digit characters, empty meaning zero.
pub open spec fn digits_value(s: Seq<char>) -> nat
    decreases s.len(),
{
    if s.len() == 0 {
        0
    } else {
        digits_value(s.drop_last()) * 10 + digit_value(s.last())
    }
}

/// The numeric value of one digit character (unspecified off the digits).
pub open spec fn digit_value(c: char) -> nat {
    if c == '0' {
        0
    } else if c == '1' {
        1
    } else if c == '2' {
        2
    } else if c == '3' {
        3
    } else if c == '4' {
        4
    } else if c == '5' {
        5
    } else if c == '6' {
        6
    } else if c == '7' {
        7
    } else if c == '8' {
        8
    } else {
        9
    }
}

/// Whether `c` is a decimal digit character.
pub open spec fn is_digit_spec(c: char) -> bool {
    c == '0' || c == '1' || c == '2' || c == '3' || c == '4' || c == '5' || c == '6' || c == '7'
        || c == '8' || c == '9'
}

fn is_digit(c: char) -> (r: bool)
    ensures
        r == is_digit_spec(c),
{
    c == '0' || c == '1' || c == '2' || c == '3' || c == '4' || c == '5' || c == '6' || c == '7'
        || c == '8' || c == '9'
}

fn digit_of(c: char) -> (r: usize)
    requires
        is_digit_spec(c),
    ensures
        r == digit_value(c),
{
    if c == '0' {
        0
    } else if c == '1' {
        1
    } else if c == '2' {
        2
    } else if c == '3' {
        3
    } else if c == '4' {
        4
    } else if c == '5' {
        5
    } else if c == '6' {
        6
    } else if c == '7' {
        7
    } else if c == '8' {
        8
    } else {
        9
    }
}

/// `s` with one leading `+` sign removed, if it has one.
pub open spec fn plus_stripped(s: Seq<char>) -> Seq<char> {
    if s.len() > 0 && s[0] == '+' {
        s.skip(1)
    } else {
        s
    }
}

/// Whether every character of `t` is a decimal digit.
pub open spec fn all_digits(t: Seq<char>) -> bool {
    forall|i: int| 0 <= i < t.len() ==> is_digit_spec(#[trigger] t[i])
}

/// How a token reads as a non-negative integer: an optional leading `+`, then
/// at least one digit. The value is unbounded; a malformed token has none.
pub open spec fn parse_nat_spec(s: Seq<char>) -> Option<nat> {
    if plus_stripped(s).len() > 0 && all_digits(plus_stripped(s)) {
        Some(digits_value(plus_stripped(s)))
    } else {
        None
    }
}

proof fn lemma_digits_value_grows(s: Seq<char>, i: int)
    requires
        0 <= i <= s.len(),
    ensures
        digits_value(s.take(i)) <= digits_value(s),
    decreases s.len() - i,
{
    if i < s.len() {
        lemma_digits_value_grows(s, i + 1);
        assert(s.take(i + 1).drop_last() =~= s.take(i));
        assert(digits_value(s.take(i)) <= digits_value(s.take(i + 1)));
    } else {
        assert(s.take(i) =~= s);
    }
}

/// Reads `token` as a one-based choice of one of `count` items and returns the
/// zero-based index; any token that is not a number between 1 and `count` is
/// not a choice.
pub fn parse_toggle(token: &String, count: usize) -> (r: Option<usize>)
    ensures
        match r {
            Some(i) => {
                &&& i < count
                &&& parse_nat_spec(token@) == Some((i + 1) as nat)
            },
            None => match parse_nat_spec(token@) {
                Some(v) => !(1 <= v <= count),
                None => true,
            },
        },
{
    let n = token.as_str().unicode_len();
    if n == 0 {
        return None;
    }
    let start: usize = if token.as_str().get_char(0) == '+' {
        1
    } else {
        0
    };
    if start == n {
        return None;
    }
    let ghost t = plus_stripped(token@);
    let mut value: usize = 0;
    let mut i: usize = start;
    proof {
        assert(t =~= token@.subrange(start as int, n as int));
        assert(t.take(0) =~= Seq::<char>::empty());
    }
    while i < n
        invariant
            start <= i <= n,
            n == token@.len(),
            start == 0 || start == 1,
            start == 1 ==> token@[0] == '+',
            t == plus_stripped(token@),
            t == token@.subrange(start as int, n as int),
            t.len() == n - start,
            value == digits_value(t.take(i - start)),
            value <= count,
            forall|j: int| 0 <= j < i - start ==> is_digit_spec(#[trigger] t[j]),
        decreases n - i,
    {
        let c = token.as_str().get_char(i);
        proof {
            assert(t[i - start] == token@[i as int]);
        }
        if !is_digit(c) {
            proof {
                let k: int = i - start;
                assert(0 <= k < t.len());
                assert(t[k] == token@[i as int]);
                assert(!is_digit_spec(t[k]));
                assert(!all_digits(t));
                assert(parse_nat_spec(token@) is None);
            }
            return None;
        }
        let d = digit_of(c);
        proof {
            assert(t.take(i - start + 1).drop_last() =~= t.take(i - start));
            assert(digits_value(t.take(i - start + 1)) == value * 10 + d);
        }
        if value > count / 10 {
            // the value can only grow with further digits, so it is out of range
            proof {
                assert(value * 10 + d > count) by (nonlinear_arith)
                    requires
                        value > count / 10,
                        d >= 0,
                ;
                lemma_digits_value_grows(t, i - start + 1);
                assert(digits_value(t) >= value * 10 + d);
            }
            return None;
        }
        proof {
            assert(value * 10 <= count) by (nonlinear_arith)
                requires
                    value <= count / 10,
            ;
        }
        let v10 = value * 10;
        if d > count - v10 {
            proof {
                lemma_digits_value_grows(t, i - start + 1);
                assert(digits_value(t) >= v10 + d);
            }
            return None;
        }
        value = v10 + d;
        i = i + 1;
    }
    proof {
        assert(t.take(n - start) =~= t);
        assert(parse_nat_spec(token@) == Some(digits_value(t)));
    }
    if value == 0 {
        None
    } else {
        Some(value - 1)
    }
}

/// Length of the leading run of non-space characters of `s`.
pub open spec fn leading_word_len(s: Seq<char>) -> nat
    decreases s.len(),
{
    if s.len() == 0 || is_space_spec(s[0]) {
        0
    } else {
        (1 + leading_word_len(s.skip(1))) as nat
    }
}

proof fn lemma_leading_word_len(s: Seq<char>)
    ensures
        leading_word_len(s) <= s.len(),
        forall|i: int| 0 <= i < leading_word_len(s) ==> !is_space_spec(#[trigger] s[i]),
        leading_word_len(s) < s.len() ==> is_space_spec(s[leading_word_len(s) as int]),
    decreases s.len(),
{
    if s.len() > 0 && !is_space_spec(s[0]) {
        lemma_leading_word_len(s.skip(1));
        assert forall|i: int| 0 <= i < leading_word_len(s) implies !is_space_spec(#[trigger] s[i]) by {
            if i > 0 {
                assert(s[i] == s.skip(1)[i - 1]);
            }
        }
    }
}

/// The whitespace-separated words of `s`, in order.
pub open spec fn words_spec(s: Seq<char>) -> Seq<Seq<char>>
    decreases s.len()
        via words_spec_decreases
{
    if s.len() == 0 {
        Seq::empty()
    } else if is_space_spec(s[0]) {
        words_spec(s.skip(1))
    } else {
        seq![s.take(leading_word_len(s) as int)] + words_spec(s.skip(leading_word_len(s) as int))
    }
}

#[via_fn]
proof fn words_spec_decreases(s: Seq<char>) {
    if s.len() > 0 && !is_space_spec(s[0]) {
        lemma_leading_word_len(s);
    }
}

proof fn lemma_words_skip_space(s: Seq<char>, i: int)
    requires
        0 <= i < s.len(),
        is_space_spec(s[i]),
    ensures
        words_spec(s.skip(i)) == words_spec(s.skip(i + 1)),
{
    assert(s.skip(i)[0] == s[i]);
    assert(s.skip(i).skip(1) =~= s.skip(i + 1));
}

proof fn lemma_leading_word_len_run(s: Seq<char>, j: int)
    requires
        0 <= j <= s.len(),
        forall|i: int| 0 <= i < j ==> !is_space_spec(#[trigger] s[i]),
        j == s.len() || is_space_spec(s[j]),
    ensures
        leading_word_len(s) == j,
    decreases j,
{
    if j > 0 {
        assert(!is_space_spec(s[0]));
        assert forall|i: int| 0 <= i < j - 1 implies !is_space_spec(#[trigger] s.skip(1)[i]) by {
            assert(s.skip(1)[i] == s[i + 1]);
        }
        if j - 1 < s.skip(1).len() {
            assert(s.skip(1)[j - 1] == s[j]);
        }
        lemma_leading_word_len_run(s.skip(1), j - 1);
    }
}

proof fn lemma_words_word(s: Seq<char>, i: int, j: int)
    requires
        0 <= i < j <= s.len(),
        forall|k: int| i <= k < j ==> !is_space_spec(#[trigger] s[k]),
        j == s.len() || is_space_spec(s[j]),
    ensures
        words_spec(s.skip(i)) == seq![s.subrange(i, j)] + words_spec(s.skip(j)),
{
    let t = s.skip(i);
    assert forall|k: int| 0 <= k < j - i implies !is_space_spec(#[trigger] t[k]) by {
        assert(t[k] == s[k + i]);
    }
    if j - i < t.len() {
        assert(t[j - i] == s[j]);
    }
    lemma_leading_word_len_run(t, j - i);
    assert(!is_space_spec(t[0]));
    assert(t.take(j - i) =~= s.subrange(i, j));
    assert(t.skip(j - i) =~= s.skip(j));
}

/// The whitespace-separated words of `s`, each an owned string.
pub fn split_words(s: &str) -> (r: Vec<String>)
    ensures
        r.deep_view() == words_spec(s@),
{
    let n = s.unicode_len();
    let mut r: Vec<String> = Vec::new();
    let mut i: usize = 0;
    proof {
        assert(s@.skip(0) =~= s@);
    }
    while i < n
        invariant
            i <= n,
            n == s@.len(),
            r.deep_view() + words_spec(s@.skip(i as int)) == words_spec(s@),
        decreases n - i,
    {
        let c = s.get_char(i);
        if is_space(c) {
            proof {
                lemma_words_skip_space(s@, i as int);
            }
            i = i + 1;
        } else {
            let mut j: usize = i + 1;
            while j < n
                invariant
                    i < j <= n,
                    n == s@.len(),
                    forall|k: int| i <= k < j ==> !is_space_spec(#[trigger] s@[k]),
                ensures
                    i < j <= n,
                    forall|k: int| i <= k < j ==> !is_space_spec(#[trigger] s@[k]),
                    j == n || is_space_spec(s@[j as int]),
                decreases n - j,
            {
                let c2 = s.get_char(j);
                if is_space(c2) {
                    break ;
                }
                j = j + 1;
            }
            let word = s.substring_char(i, j).to_owned();
            proof {
                lemma_words_word(s@, i as int, j as int);
                let old_r = r.deep_view();
                assert((r.deep_view().push(word@)) + words_spec(s@.skip(j as int)) =~= r.deep_view()
                    + words_spec(s@.skip(i as int)));
            }
            let ghost prev = r.deep_view();
            r.push(word);
            proof {
                assert(r.deep_view() =~= prev.push(word@));
            }
            i = j;
        }
    }
    proof {
        assert(s@.skip(n as int) =~= Seq::<char>::empty());
        assert(r.deep_view() =~= r.deep_view() + words_spec(s@.skip(n as int)));
    }
    r
}

/// One step of greedy word wrapping: the text so far and the length of its
/// last line, extended by one word on a screen `max` wide.
pub open spec fn wrap_step(acc: (Seq<char>, nat), word: Seq<char>, max: nat) -> (Seq<char>, nat) {
    if acc.1 + word.len() + 1 > max {
        if acc.1 > 0 {
            (acc.0.push('\n') + word, word.len())
        } else {
            (acc.0 + word, word.len())
        }
    } else {
        if acc.1 > 0 {
            (acc.0.push(' ') + word, (acc.1 + 1 + word.len()) as nat)
        } else {
            (acc.0 + word, (acc.1 + word.len()) as nat)
        }
    }
}

/// Greedy word wrapping of a word list on a screen `max` wide.
pub open spec fn wrap_rec(ws: Seq<Seq<char>>, max: nat) -> (Seq<char>, nat)
    decreases ws.len(),
{
    if ws.len() == 0 {
        (Seq::empty(), 0)
    } else {
        wrap_step(wrap_rec(ws.drop_last(), max), ws.last(), max)
    }
}

/// `s` re-flowed so that no line grows beyond `max` characters unless a single
/// word does; words are separated by one space or a line break.
pub open spec fn wrap_text_spec(s: Seq<char>, max: nat) -> Seq<char> {
    wrap_rec(words_spec(s), max).0
}

/// `text` wrapped to lines of at most `max` characters (single long words excepted).
pub fn wrap_text_at(text: &str, max: usize) -> (r: String)
    ensures
        r@ == wrap_text_spec(text@, max as nat),
{
    let words = split_words(text);
    let ghost ws = words.deep_view();
    let mut result = String::new();
    let mut line_len: usize = 0;
    let mut k: usize = 0;
    proof {
        assert(ws.take(0) =~= Seq::<Seq<char>>::empty());
    }
    while k < words.len()
        invariant
            k <= words.len(),
            ws == words.deep_view(),
            ws == words_spec(text@),
            (result@, line_len as nat) == wrap_rec(ws.take(k as int), max as nat),
        decreases words.len() - k,
    {
        let word = &words[k];
        let wl = word.as_str().unicode_len();
        proof {
            assert(ws.take(k + 1).drop_last() =~= ws.take(k as int));
            assert(ws.take(k + 1).last() == word@);
        }
        let over: bool = if line_len >= max || wl >= max {
            true
        } else {
            line_len + 1 > max - wl
        };
        proof {
            assert(over == (line_len + word@.len() + 1 > max));
        }
        if over {
            if line_len > 0 {
                proof {
                    reveal_strlit("\n");
                }
                result.append("\n");
                result.append(word.as_str());
                proof {
                    assert(result@ =~= wrap_rec(ws.take(k + 1), max as nat).0);
                }
            } else {
                result.append(word.as_str());
            }
            line_len = wl;
        } else {
            if line_len > 0 {
                proof {
                    reveal_strlit(" ");
                }
                result.append(" ");
                result.append(word.as_str());
                proof {
                    assert(result@ =~= wrap_rec(ws.take(k + 1), max as nat).0);
                }
                line_len = line_len + 1 + wl;
            } else {
                result.append(word.as_str());
                line_len = line_len + wl;
            }
        }
        k = k + 1;
    }
    proof {
        assert(ws.take(words.len() as int) =~= ws);
    }
    result
}

/// `text` wrapped to the current screen width.
pub fn wrap_text_to_screen(text: &str) -> (r: String)
    ensures
        exists|w: nat| w <= MAX_SCREEN_WIDTH && r@ == wrap_text_spec(text@, w),
{
    let w = screen_width();
    let r = wrap_text_at(text, w);
    proof {
        assert(w as nat <= MAX_SCREEN_WIDTH && r@ == wrap_text_spec(text@, w as nat));
    }
    r
}

/// The ANSI reset sequence that ends a styled span.
pub open spec fn ansi_reset() -> Seq<char> {
    seq!['\u{1b}', '[', '0', 'm']
}

/// `s` wrapped in the ANSI style given by `code` and a trailing reset.
pub open spec fn styled_spec(s: Seq<char>, code: Seq<char>) -> Seq<char> {
    seq!['\u{1b}', '['] + code + seq!['m'] + s + ansi_reset()
}

fn style_wrap(s: &str, code: &str) -> (r: String)
    ensures
        r@ == styled_spec(s@, code@),
{
    proof {
        reveal_strlit("\u{1b}[");
        reveal_strlit("m");
        reveal_strlit("\u{1b}[0m");
    }
    let mut r = String::new();
    r.append("\u{1b}[");
    r.append(code);
    r.append("m");
    r.append(s);
    r.append("\u{1b}[0m");
    proof {
        assert(r@ =~= styled_spec(s@, code@));
    }
    r
}

/// `s` styled green.
pub fn style_green(s: &str) -> (r: String)
    ensures
        r@ == styled_spec(s@, seq!['3', '2']),
{
    proof {
        reveal_strlit("32");
    }
    let r = style_wrap(s, "32");
    proof {
        assert(r@ =~= styled_spec(s@, seq!['3', '2']));
    }
    r
}

/// `s` styled bold.
pub fn style_bold(s: &str) -> (r: String)
    ensures
        r@ == styled_spec(s@, seq!['1']),
{
    proof {
        reveal_strlit("1");
    }
    let r = style_wrap(s, "1");
    proof {
        assert(r@ =~= styled_spec(s@, seq!['1']));
    }
    r
}

/// `s` styled italic.
pub fn style_italic(s: &str) -> (r: String)
    ensures
        r@ == styled_spec(s@, seq!['3']),
{
    proof {
        reveal_strlit("3");
    }
    let r = style_wrap(s, "3");
    proof {
        assert(r@ =~= styled_spec(s@, seq!['3']));
    }
    r
}

/// `s` styled dim.
pub fn style_dim(s: &str) -> (r: String)
    ensures
        r@ == styled_spec(s@, seq!['2']),
{
    proof {
        reveal_strlit("2");
    }
    let r = style_wrap(s, "2");
    proof {
        assert(r@ =~= styled_spec(s@, seq!['2']));
    }
    r
}

/// The parts joined by the separator: empty for no parts, and no separator
/// around a single part.
pub open spec fn join_spec(parts: Seq<Seq<char>>, sep: Seq<char>) -> Seq<char>
    decreases parts.len(),
{
    if parts.len() == 0 {
        Seq::empty()
    } else if parts.len() == 1 {
        parts[0]
    } else {
        join_spec(parts.drop_last(), sep) + sep + parts.last()
    }
}

/// The parts joined by `sep`.
pub fn join_with(parts: &Vec<String>, sep: &str) -> (r: String)
    ensures
        r@ == join_spec(parts.deep_view(), sep@),
{
    let ghost ps = parts.deep_view();
    let mut r = String::new();
    let mut k: usize = 0;
    proof {
        assert(ps.take(0) =~= Seq::<Seq<char>>::empty());
    }
    while k < parts.len()
        invariant
            k <= parts.len(),
            ps == parts.deep_view(),
            r@ == join_spec(ps.take(k as int), sep@),
        decreases parts.len() - k,
    {
        proof {
            assert(ps.take(k + 1).drop_last() =~= ps.take(k as int));
            assert(ps.take(k + 1).last() == ps[k as int]);
        }
        if k > 0 {
            r.append(sep);
        }
        r.append(parts[k].as_str());
        proof {
            if k == 0 {
                assert(r@ =~= join_spec(ps.take(1), sep@));
            } else {
                assert(r@ =~= join_spec(ps.take(k + 1), sep@));
            }
        }
        k = k + 1;
    }
    proof {
        assert(ps.take(parts.len() as int) =~= ps);
    }
    r
}

/// `s` fit to half of the current screen.
pub fn string_to_half_screen(s: &String) -> (r: String)
    ensures
        exists|w: nat| w <= MAX_SCREEN_WIDTH && r@ == half_screen_spec(s@, w),
{
    let w = screen_width();
    let r = string_to_half_screen_at(s, w);
    proof {
        assert(w as nat <= MAX_SCREEN_WIDTH && r@ == half_screen_spec(s@, w as nat));
    }
    r
}

} // verus!
