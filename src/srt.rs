//! Rendering of text subtitles as SubRip: an event sweep over the begin and end
//! of each subtitle, one block for each interval in which some text is visible.

use vstd::prelude::*;
use vstd::string::{StrSliceExecFns, StringExecFns};

use crate::timeline::{open_end, Duration, TimeRange};

verus! {

/// A subtitle whose bitmap has been read as text.
#[derive(Debug, Clone)]
pub struct TextSubtitle {
    pub range: TimeRange,
    pub text: String,
}

/// The model of a [`TextSubtitle`].
pub struct TextSubtitleView {
    pub range: TimeRange,
    pub text: Seq<char>,
}

impl View for TextSubtitle {
    type V = TextSubtitleView;

    open spec fn view(&self) -> TextSubtitleView {
        TextSubtitleView { range: self.range, text: self.text@ }
    }
}

#[derive(Debug, Clone, Copy, PartialEq, Eq, Structural)]
pub enum ActionKind {
    Add,
    Remove,
}

/// A subtitle appearing or leaving at a time.
#[derive(Debug, Clone, Copy, PartialEq, Eq, Structural)]
pub struct Action {
    pub kind: ActionKind,
    pub subtitle: usize,
    pub timestamp: Duration,
}

/// `a` comes before `b`: durations order by seconds, then by nanoseconds.
pub open spec fn earlier(a: Duration, b: Duration) -> bool {
    a.secs < b.secs || (a.secs == b.secs && a.nanos < b.nanos)
}

/// The decimal digit `d`.
pub open spec fn digit_char(d: nat) -> char {
    if d == 0 {
        '0'
    } else if d == 1 {
        '1'
    } else if d == 2 {
        '2'
    } else if d == 3 {
        '3'
    } else if d == 4 {
        '4'
    } else if d == 5 {
        '5'
    } else if d == 6 {
        '6'
    } else if d == 7 {
        '7'
    } else if d == 8 {
        '8'
    } else {
        '9'
    }
}

/// The decimal digits of `n`, without leading zeros.
pub open spec fn decimal(n: nat) -> Seq<char>
    decreases n,
{
    if n < 10 {
        seq![digit_char(n)]
    } else {
        decimal(n / 10).push(digit_char(n % 10))
    }
}

/// The decimal digits of `n`, with zeros in front up to `width` characters.
pub open spec fn padded_decimal(n: nat, width: nat) -> Seq<char> {
    let d = decimal(n);
    if d.len() >= width {
        d
    } else {
        Seq::new((width - d.len()) as nat, |i: int| '0') + d
    }
}

/// A character with the Unicode `White_Space` property.
pub open spec fn is_white_space(c: char) -> bool {
    let u = c as u32;
    (0x09 <= u <= 0x0D) || u == 0x20 || u == 0x85 || u == 0xA0 || u == 0x1680 || (0x2000 <= u
        <= 0x200A) || u == 0x2028 || u == 0x2029 || u == 0x202F || u == 0x205F || u == 0x3000
}

/// `s` without its leading white space.
pub open spec fn trim_start_of(s: Seq<char>) -> Seq<char>
    decreases s.len(),
{
    if s.len() > 0 && is_white_space(s[0]) {
        trim_start_of(s.drop_first())
    } else {
        s
    }
}

/// `s` without its trailing white space.
pub open spec fn trim_end_of(s: Seq<char>) -> Seq<char>
    decreases s.len(),
{
    if s.len() > 0 && is_white_space(s.last()) {
        trim_end_of(s.drop_last())
    } else {
        s
    }
}

/// The characters of `s` without leading and trailing white space.
pub open spec fn trim_of(s: Seq<char>) -> Seq<char> {
    trim_end_of(trim_start_of(s))
}

/// The one-character string of the decimal digit `d`.
fn digit_str(d: u64) -> (r: &'static str)
    requires
        d < 10,
    ensures
        r@ == seq![digit_char(d as nat)],
{
    proof {
        reveal_strlit("0");
        reveal_strlit("1");
        reveal_strlit("2");
        reveal_strlit("3");
        reveal_strlit("4");
        reveal_strlit("5");
        reveal_strlit("6");
        reveal_strlit("7");
        reveal_strlit("8");
        reveal_strlit("9");
    }
    if d == 0 {
        "0"
    } else if d == 1 {
        "1"
    } else if d == 2 {
        "2"
    } else if d == 3 {
        "3"
    } else if d == 4 {
        "4"
    } else if d == 5 {
        "5"
    } else if d == 6 {
        "6"
    } else if d == 7 {
        "7"
    } else if d == 8 {
        "8"
    } else {
        "9"
    }
}

/// The decimal digits of `n`.
fn decimal_string(n: u64) -> (r: String)
    ensures
        r@ == decimal(n as nat),
    decreases n,
{
    if n < 10 {
        String::from_str(digit_str(n))
    } else {
        let mut s = decimal_string(n / 10);
        s.append(digit_str(n % 10));
        s
    }
}

/// The decimal digits of `n`, with zeros in front up to `width` characters.
fn padded(n: u64, width: usize) -> (r: String)
    ensures
        r@ == padded_decimal(n as nat, width as nat),
{
    let digits = decimal_string(n);
    let len = digits.as_str().unicode_len();
    if len >= width {
        return digits;
    }
    let mut out = String::new();
    let mut i: usize = 0;
    proof {
        reveal_strlit("0");
        assert(out@ =~= Seq::new(0, |j: int| '0'));
    }
    while i < width - len
        invariant
            i <= width - len,
            out@ == Seq::new(i as nat, |j: int| '0'),
        decreases width - len - i,
    {
        out.append("0");
        i = i + 1;
        proof {
            reveal_strlit("0");
            assert(out@ =~= Seq::new(i as nat, |j: int| '0'));
        }
    }
    out.append(digits.as_str());
    out
}

/// Relies on `str::trim`: the text without leading and trailing characters of
/// the Unicode `White_Space` property.
#[verifier::external_body]
fn trimmed(s: &str) -> (r: String)
    ensures
        r@ == trim_of(s@),
{
    s.trim().to_string()
}

/// `HH:MM:SS,mmm`: hours, minutes and seconds of two digits at least, and
/// milliseconds of three.
pub open spec fn srt_timestamp(d: Duration) -> Seq<char> {
    padded_decimal((d.secs / 3600) as nat, 2) + seq![':'] + padded_decimal(((d.secs / 60) % 60) as nat, 2)
        + seq![':'] + padded_decimal((d.secs % 60) as nat, 2) + seq![','] + padded_decimal(
        (d.nanos / 1_000_000) as nat,
        3,
    )
}

/// Renders a duration as a SubRip timestamp.
pub fn srt_duration_display(duration: Duration) -> (r: String)
    requires
        duration.wf(),
    ensures
        r@ == srt_timestamp(duration),
{
    let total_secs = duration.secs;
    let hours = total_secs / 3600;
    let minutes = (total_secs / 60) % 60;
    let seconds = total_secs % 60;
    let millis = (duration.nanos / 1_000_000) as u64;
    let mut s = padded(hours, 2);
    s.append(":");
    s.append(padded(minutes, 2).as_str());
    s.append(":");
    s.append(padded(seconds, 2).as_str());
    s.append(",");
    s.append(padded(millis, 3).as_str());
    proof {
        reveal_strlit(":");
        reveal_strlit(",");
    }
    s
}

/// The begin and end actions of each subtitle, in subtitle order.
pub open spec fn actions_of(subs: Seq<TextSubtitleView>) -> Seq<Action> {
    Seq::new(
        2 * subs.len(),
        |k: int|
            if k % 2 == 0 {
                Action { kind: ActionKind::Add, subtitle: (k / 2) as usize, timestamp: subs[k / 2].range.begin }
            } else {
                Action { kind: ActionKind::Remove, subtitle: (k / 2) as usize, timestamp: subs[k / 2].range.end }
            },
    )
}

/// Where `a` goes in the sorted `s` to come after every action not later than it.
pub open spec fn insert_position(s: Seq<Action>, a: Action) -> nat
    decreases s.len(),
{
    if s.len() == 0 {
        0
    } else if !earlier(a.timestamp, s.last().timestamp) {
        s.len()
    } else {
        insert_position(s.drop_last(), a)
    }
}

/// The actions `s` in time order; actions at the same time keep their order.
pub open spec fn sort_actions(s: Seq<Action>) -> Seq<Action>
    decreases s.len(),
{
    if s.len() == 0 {
        s
    } else {
        let sorted = sort_actions(s.drop_last());
        sorted.insert(insert_position(sorted, s.last()) as int, s.last())
    }
}

/// `screen` without the subtitle `idx`.
pub open spec fn without(screen: Seq<usize>, idx: usize) -> Seq<usize>
    decreases screen.len(),
{
    if screen.len() == 0 {
        screen
    } else if screen.last() == idx {
        without(screen.drop_last(), idx)
    } else {
        without(screen.drop_last(), idx).push(screen.last())
    }
}

/// The subtitles on screen after the first `k` actions, in the order they came.
pub open spec fn screen_after(actions: Seq<Action>, k: nat) -> Seq<usize>
    decreases k,
{
    if k == 0 {
        seq![]
    } else {
        let before = screen_after(actions, (k - 1) as nat);
        let a = actions[k - 1];
        match a.kind {
            ActionKind::Add => before.push(a.subtitle),
            ActionKind::Remove => without(before, a.subtitle),
        }
    }
}

/// The texts of the subtitles on `screen`, each followed by a line break.
pub open spec fn screen_text(subs: Seq<TextSubtitleView>, screen: Seq<usize>) -> Seq<char>
    decreases screen.len(),
{
    if screen.len() == 0 {
        seq![]
    } else {
        screen_text(subs, screen.drop_last()) + subs[screen.last() as int].text + seq!['\n']
    }
}

/// One SubRip block: its number, its interval, its text and a blank line.
pub open spec fn srt_block(n: nat, begin: Duration, end: Duration, text: Seq<char>) -> Seq<char> {
    decimal(n) + seq!['\n'] + srt_timestamp(begin) + seq![' ', '-', '-', '>', ' '] + srt_timestamp(end)
        + seq!['\n'] + text + seq!['\n', '\n']
}

/// The text written after the first `k` actions, and the number of the next block.
/// After each action the visible texts, trimmed, make a block when not empty; the
/// block lasts until the next action, or without end after the last one.
pub open spec fn srt_after(subs: Seq<TextSubtitleView>, actions: Seq<Action>, k: nat) -> (Seq<char>, nat)
    decreases k,
{
    if k == 0 {
        (seq![], 1)
    } else {
        let (out, n) = srt_after(subs, actions, (k - 1) as nat);
        let text = trim_of(screen_text(subs, screen_after(actions, k)));
        if text.len() == 0 {
            (out, n)
        } else {
            let end = if k < actions.len() { actions[k as int].timestamp } else { open_end() };
            (out + srt_block(n, actions[k - 1].timestamp, end, text), n + 1)
        }
    }
}

/// The SubRip text of `subs`.
pub open spec fn srt_of(subs: Seq<TextSubtitleView>) -> Seq<char> {
    let actions = sort_actions(actions_of(subs));
    srt_after(subs, actions, actions.len()).0
}

pub open spec fn subs_view(subs: Seq<TextSubtitle>) -> Seq<TextSubtitleView> {
    subs.map_values(|t: TextSubtitle| t@)
}

fn is_earlier(a: Duration, b: Duration) -> (r: bool)
    ensures
        r == earlier(a, b),
{
    a.secs < b.secs || (a.secs == b.secs && a.nanos < b.nanos)
}

/// Inserts `a` into the sorted actions `v` after every action not later than it.
fn insert_action(v: &mut Vec<Action>, a: Action)
    ensures
        final(v)@ == old(v)@.insert(insert_position(old(v)@, a) as int, a),
{
    let mut j = v.len();
    proof {
        assert(v@.take(j as int) =~= v@);
    }
    while j > 0 && is_earlier(a.timestamp, v[j - 1].timestamp)
        invariant
            j <= v@.len(),
            insert_position(v@, a) == insert_position(v@.take(j as int), a),
        decreases j,
    {
        proof {
            assert(v@.take(j as int).drop_last() =~= v@.take(j - 1));
        }
        j = j - 1;
    }
    v.insert(j, a);
}

proof fn lemma_sort_bounded(s: Seq<Action>, m: int)
    requires
        forall|i: int| 0 <= i < s.len() ==> (#[trigger] s[i]).subtitle < m && s[i].timestamp.wf(),
    ensures
        sort_actions(s).len() == s.len(),
        forall|i: int|
            0 <= i < sort_actions(s).len() ==> (#[trigger] sort_actions(s)[i]).subtitle < m
                && sort_actions(s)[i].timestamp.wf(),
    decreases s.len(),
{
    if s.len() > 0 {
        let sorted = sort_actions(s.drop_last());
        lemma_sort_bounded(s.drop_last(), m);
        let pos = insert_position(sorted, s.last());
        lemma_insert_position_bound(sorted, s.last());
        sorted.insert_ensures(pos as int, s.last());
    }
}

proof fn lemma_insert_position_bound(s: Seq<Action>, a: Action)
    ensures
        insert_position(s, a) <= s.len(),
    decreases s.len(),
{
    if s.len() > 0 {
        lemma_insert_position_bound(s.drop_last(), a);
    }
}

proof fn lemma_without_bounded(screen: Seq<usize>, idx: usize, m: int)
    requires
        forall|i: int| 0 <= i < screen.len() ==> #[trigger] screen[i] < m,
    ensures
        forall|i: int| 0 <= i < without(screen, idx).len() ==> #[trigger] without(screen, idx)[i] < m,
    decreases screen.len(),
{
    if screen.len() > 0 {
        let prev = screen.drop_last();
        assert forall|i: int| 0 <= i < prev.len() implies #[trigger] prev[i] < m by {
            assert(prev[i] == screen[i]);
        }
        lemma_without_bounded(prev, idx, m);
        assert(screen[screen.len() - 1] < m);
        let w = without(prev, idx);
        if screen.last() != idx {
            assert forall|i: int| 0 <= i < w.len() + 1 implies #[trigger] w.push(screen.last())[i] < m by {
                if i < w.len() {
                    assert(w.push(screen.last())[i] == w[i]);
                }
            }
        }
    }
}

/// The begin and end actions of every subtitle, sorted by time.
fn sorted_actions(subtitles: &Vec<TextSubtitle>) -> (r: Vec<Action>)
    ensures
        r@ == sort_actions(actions_of(subs_view(subtitles@))),
{
    let ghost all = actions_of(subs_view(subtitles@));
    let mut actions: Vec<Action> = Vec::new();
    let mut idx: usize = 0;
    proof {
        assert(all.take(0) =~= seq![]);
    }
    while idx < subtitles.len()
        invariant
            idx <= subtitles@.len(),
            all == actions_of(subs_view(subtitles@)),
            actions@ == sort_actions(all.take(2 * idx)),
        decreases subtitles@.len() - idx,
    {
        let range = subtitles[idx].range;
        proof {
            assert(all.take(2 * idx + 1).drop_last() =~= all.take(2 * idx));
            assert(all[2 * idx] == Action { kind: ActionKind::Add, subtitle: idx, timestamp: range.begin });
        }
        insert_action(&mut actions, Action { kind: ActionKind::Add, subtitle: idx, timestamp: range.begin });
        proof {
            assert(actions@ == sort_actions(all.take(2 * idx + 1)));
            assert(all.take(2 * idx + 2).drop_last() =~= all.take(2 * idx + 1));
            assert(all[2 * idx + 1] == Action { kind: ActionKind::Remove, subtitle: idx, timestamp: range.end });
        }
        insert_action(&mut actions, Action { kind: ActionKind::Remove, subtitle: idx, timestamp: range.end });
        proof {
            assert(actions@ == sort_actions(all.take(2 * idx + 2)));
        }
        idx = idx + 1;
    }
    proof {
        assert(all.take(2 * idx) =~= all);
    }
    actions
}

fn remove_subtitle(screen: &Vec<usize>, idx: usize) -> (r: Vec<usize>)
    ensures
        r@ == without(screen@, idx),
{
    let mut out: Vec<usize> = Vec::new();
    let mut i: usize = 0;
    proof {
        assert(screen@.take(0) =~= seq![]);
    }
    while i < screen.len()
        invariant
            i <= screen@.len(),
            out@ == without(screen@.take(i as int), idx),
        decreases screen@.len() - i,
    {
        proof {
            assert(screen@.take(i + 1).drop_last() =~= screen@.take(i as int));
        }
        if screen[i] != idx {
            out.push(screen[i]);
        }
        i = i + 1;
    }
    proof {
        assert(screen@.take(i as int) =~= screen@);
    }
    out
}

fn visible_text(subtitles: &Vec<TextSubtitle>, screen: &Vec<usize>) -> (r: String)
    requires
        forall|i: int| 0 <= i < screen@.len() ==> #[trigger] screen@[i] < subtitles@.len(),
    ensures
        r@ == screen_text(subs_view(subtitles@), screen@),
{
    let mut text = String::new();
    let mut i: usize = 0;
    proof {
        assert(screen@.take(0) =~= seq![]);
        reveal_strlit("\n");
    }
    while i < screen.len()
        invariant
            i <= screen@.len(),
            forall|j: int| 0 <= j < screen@.len() ==> #[trigger] screen@[j] < subtitles@.len(),
            text@ == screen_text(subs_view(subtitles@), screen@.take(i as int)),
        decreases screen@.len() - i,
    {
        proof {
            assert(screen@.take(i + 1).drop_last() =~= screen@.take(i as int));
            reveal_strlit("\n");
        }
        text.append(subtitles[screen[i]].text.as_str());
        text.append("\n");
        i = i + 1;
    }
    proof {
        assert(screen@.take(i as int) =~= screen@);
    }
    text
}

fn push_block(srt: &mut String, number: u64, begin: Duration, end: Duration, text: &String)
    requires
        begin.wf(),
        end.wf(),
    ensures
        final(srt)@ == old(srt)@ + srt_block(number as nat, begin, end, text@),
{
    let ghost before = srt@;
    srt.append(padded(number, 0).as_str());
    srt.append("\n");
    srt.append(srt_duration_display(begin).as_str());
    srt.append(" --> ");
    srt.append(srt_duration_display(end).as_str());
    srt.append("\n");
    srt.append(text.as_str());
    srt.append("\n\n");
    proof {
        reveal_strlit("\n");
        reveal_strlit(" --> ");
        reveal_strlit("\n\n");
        assert(padded_decimal(number as nat, 0) == decimal(number as nat));
        assert(srt@ =~= before + srt_block(number as nat, begin, end, text@));
    }
}

/// Renders text subtitles as SubRip. The begin and end of every subtitle are
/// swept in time order; after each, the texts on screen, trimmed, make a
/// numbered block that lasts until the next begin or end.
pub fn subtitles_to_srt(subtitles: &Vec<TextSubtitle>) -> (r: String)
    requires
        forall|i: int|
            0 <= i < subtitles@.len() ==> (#[trigger] subtitles@[i]).range.begin.wf()
                && subtitles@[i].range.end.wf(),
    ensures
        r@ == srt_of(subs_view(subtitles@)),
{
    let ghost subs = subs_view(subtitles@);
    let actions = sorted_actions(subtitles);
    proof {
        let all = actions_of(subs);
        assert forall|i: int| 0 <= i < all.len() implies (#[trigger] all[i]).subtitle < subtitles@.len()
            && all[i].timestamp.wf() by {
            assert(subtitles@[i / 2].range.begin.wf() && subtitles@[i / 2].range.end.wf());
        }
        lemma_sort_bounded(all, subtitles@.len() as int);
    }
    let mut on_screen: Vec<usize> = Vec::new();
    let mut srt = String::new();
    let mut blocks: usize = 0;
    let mut k: usize = 0;
    while k < actions.len()
        invariant
            k <= actions@.len(),
            subs == subs_view(subtitles@),
            actions@ == sort_actions(actions_of(subs)),
            forall|i: int|
                0 <= i < actions@.len() ==> (#[trigger] actions@[i]).subtitle < subtitles@.len()
                    && actions@[i].timestamp.wf(),
            on_screen@ == screen_after(actions@, k as nat),
            forall|i: int| 0 <= i < on_screen@.len() ==> #[trigger] on_screen@[i] < subtitles@.len(),
            srt_after(subs, actions@, k as nat) == (srt@, (blocks + 1) as nat),
            blocks <= k,
        decreases actions@.len() - k,
    {
        let action = actions[k];
        match action.kind {
            ActionKind::Add => on_screen.push(action.subtitle),
            ActionKind::Remove => {
                proof {
                    lemma_without_bounded(on_screen@, action.subtitle, subtitles@.len() as int);
                }
                on_screen = remove_subtitle(&on_screen, action.subtitle);
            },
        }
        let text = trimmed(visible_text(subtitles, &on_screen).as_str());
        if !text.as_str().is_empty() {
            let end = if k + 1 < actions.len() {
                assert(actions@[k + 1].timestamp.wf());
                actions[k + 1].timestamp
            } else {
                Duration::max_value()
            };
            let number = blocks as u64 + 1;
            push_block(&mut srt, number, action.timestamp, end, &text);
            blocks = blocks + 1;
        }
        k = k + 1;
    }
    srt
}

} // verus!
