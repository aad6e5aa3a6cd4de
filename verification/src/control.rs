//! The text protocol of the control socket: what one command line asks for.
//! The state it answers with is `game::report::state_json`.
//!
//! Commands:
//!   `state`                    -> current state, changing nothing
//!   `play <action> [action…]`  -> apply actions in order, then report state
//!   `pause` / `resume`         -> set the paused flag explicitly
//!
//! Action names: left right soft drop cw ccw flip hold

use vstd::prelude::*;
use vstd::string::*;
use crate::game::Action;
use crate::tetromino::Spin;
use crate::text::same_text;

verus! {

/// What a client asked for.
#[derive(Debug, PartialEq, Eq)]
pub enum Kind {
    State,
    Play(Vec<Action>),
    SetPaused(bool),
}

/// The plain-value picture of a command.
pub enum KindView {
    State,
    Play(Seq<Action>),
    SetPaused(bool),
}

impl View for Kind {
    type V = KindView;

    open spec fn view(&self) -> KindView {
        match self {
            Kind::State => KindView::State,
            Kind::Play(actions) => KindView::Play(actions@),
            Kind::SetPaused(p) => KindView::SetPaused(*p),
        }
    }
}

/// Characters with the Unicode `White_Space` property, which is what
/// `char::is_whitespace` and `str::split_whitespace` go by.
pub open spec fn is_space(c: char) -> bool {
    let u = c as u32;
    (9 <= u <= 13) || u == 32 || u == 0x85 || u == 0xa0 || u == 0x1680 || (0x2000 <= u <= 0x200a) || u == 0x2028
        || u == 0x2029 || u == 0x202f || u == 0x205f || u == 0x3000
}

/// End of the run of non-space characters starting at `i`.
pub open spec fn word_end(s: Seq<char>, i: int) -> int
    decreases s.len() - i,
{
    if i < 0 || i >= s.len() || is_space(s[i]) {
        i
    } else {
        word_end(s, i + 1)
    }
}

/// A word starting at `i` ends at or after `i`, holds no space, is
/// non-empty when it starts on a non-space, and stops at a space or the end.
pub proof fn lemma_word_end_bounds(s: Seq<char>, i: int)
    requires
        0 <= i <= s.len(),
    ensures
        i <= word_end(s, i) <= s.len(),
        i < s.len() && !is_space(s[i]) ==> word_end(s, i) > i,
        word_end(s, i) < s.len() ==> is_space(s[word_end(s, i)]),
        forall|k: int| i <= k < word_end(s, i) ==> !is_space(#[trigger] s[k]),
    decreases s.len() - i,
{
    if i < s.len() && !is_space(s[i]) {
        lemma_word_end_bounds(s, i + 1);
    }
}

/// The whitespace-separated words of `s` from position `i` on.
pub open spec fn words_from(s: Seq<char>, i: int) -> Seq<Seq<char>>
    decreases s.len() - i,
{
    if i < 0 || i >= s.len() {
        Seq::empty()
    } else if is_space(s[i]) {
        words_from(s, i + 1)
    } else {
        let j = word_end(s, i);
        proof {
            lemma_word_end_bounds(s, i);
        }
        seq![s.subrange(i, j)].add(words_from(s, j))
    }
}

/// The whitespace-separated words of `s`, as `str::split_whitespace` yields them.
pub open spec fn words(s: Seq<char>) -> Seq<Seq<char>> {
    words_from(s, 0)
}

/// The action a name stands for.
pub open spec fn action_named(name: Seq<char>) -> Option<Action> {
    if name == "left"@ {
        Some(Action::MoveLeft)
    } else if name == "right"@ {
        Some(Action::MoveRight)
    } else if name == "soft"@ {
        Some(Action::SoftDrop)
    } else if name == "drop"@ {
        Some(Action::HardDrop)
    } else if name == "cw"@ {
        Some(Action::Rotate(Spin::Cw))
    } else if name == "ccw"@ {
        Some(Action::Rotate(Spin::Ccw))
    } else if name == "flip"@ {
        Some(Action::Rotate(Spin::Flip))
    } else if name == "hold"@ {
        Some(Action::Hold)
    } else {
        None
    }
}

/// The actions named by `names`, or nothing if any name is unknown.
pub open spec fn actions_named(names: Seq<Seq<char>>) -> Option<Seq<Action>>
    decreases names.len(),
{
    if names.len() == 0 {
        Some(Seq::empty())
    } else {
        match action_named(names[0]) {
            None => None,
            Some(a) => match actions_named(names.drop_first()) {
                None => None,
                Some(rest) => Some(seq![a].add(rest)),
            },
        }
    }
}

/// Naming actions keeps one action per name.
proof fn lemma_actions_named_len(names: Seq<Seq<char>>)
    ensures
        actions_named(names) matches Some(a) ==> a.len() == names.len(),
    decreases names.len(),
{
    if names.len() > 0 {
        lemma_actions_named_len(names.drop_first());
    }
}

/// The command a line stands for: decided by its first word; `play` needs
/// at least one later word, and every later word to name an action.
pub open spec fn command_of(line: Seq<char>) -> Option<KindView> {
    let ws = words(line);
    if ws.len() == 0 {
        None
    } else if ws[0] == "state"@ {
        Some(KindView::State)
    } else if ws[0] == "pause"@ {
        Some(KindView::SetPaused(true))
    } else if ws[0] == "resume"@ {
        Some(KindView::SetPaused(false))
    } else if ws[0] == "play"@ && ws.len() >= 2 {
        match actions_named(ws.drop_first()) {
            Some(actions) => Some(KindView::Play(actions)),
            None => None,
        }
    } else {
        None
    }
}

/// Is `c` whitespace?
fn is_space_char(c: char) -> (space: bool)
    ensures
        space == is_space(c),
{
    let u = c as u32;
    (9 <= u && u <= 13) || u == 32 || u == 0x85 || u == 0xa0 || u == 0x1680 || (0x2000 <= u && u <= 0x200a) || u
        == 0x2028 || u == 0x2029 || u == 0x202f || u == 0x205f || u == 0x3000
}

/// The action named `name`, if any.
pub fn action(name: &str) -> (action: Option<Action>)
    ensures
        action == action_named(name@),
{
    if same_text(name, "left") {
        Some(Action::MoveLeft)
    } else if same_text(name, "right") {
        Some(Action::MoveRight)
    } else if same_text(name, "soft") {
        Some(Action::SoftDrop)
    } else if same_text(name, "drop") {
        Some(Action::HardDrop)
    } else if same_text(name, "cw") {
        Some(Action::Rotate(Spin::Cw))
    } else if same_text(name, "ccw") {
        Some(Action::Rotate(Spin::Ccw))
    } else if same_text(name, "flip") {
        Some(Action::Rotate(Spin::Flip))
    } else if same_text(name, "hold") {
        Some(Action::Hold)
    } else {
        None
    }
}

/// Position of the first non-space character at or after `i`, or `n`.
fn skip_spaces(line: &str, i: usize, n: usize) -> (j: usize)
    requires
        n == line@.len(),
        i <= n,
    ensures
        i <= j <= n,
        j < n ==> !is_space(line@[j as int]),
        words_from(line@, i as int) == words_from(line@, j as int),
{
    let mut j = i;
    while j < n && is_space_char(line.get_char(j))
        invariant
            n == line@.len(),
            i <= j <= n,
            words_from(line@, i as int) == words_from(line@, j as int),
        decreases n - j,
    {
        j += 1;
    }
    j
}

/// End of the word starting at `i`.
fn find_word_end(line: &str, i: usize, n: usize) -> (j: usize)
    requires
        n == line@.len(),
        i < n,
        !is_space(line@[i as int]),
    ensures
        j == word_end(line@, i as int),
        i < j <= n,
{
    proof {
        lemma_word_end_bounds(line@, i as int);
    }
    let mut j = i;
    while j < n && !is_space_char(line.get_char(j))
        invariant
            n == line@.len(),
            i <= j <= n,
            word_end(line@, i as int) == word_end(line@, j as int),
        decreases n - j,
    {
        j += 1;
    }
    j
}

/// Read one command line.
pub fn parse(line: &str) -> (command: Option<Kind>)
    ensures
        match command {
            Some(c) => command_of(line@) == Some(c@),
            None => command_of(line@) is None,
        },
{
    proof {
        reveal_strlit("state");
        reveal_strlit("pause");
        reveal_strlit("resume");
        reveal_strlit("play");
    }
    let n = line.unicode_len();
    let start = skip_spaces(line, 0, n);
    if start == n {
        return None;
    }
    let end = find_word_end(line, start, n);
    proof {
        lemma_word_end_bounds(line@, start as int);
    }
    let first = line.substring_char(start, end);
    let ghost rest_words = words_from(line@, end as int);
    assert(words(line@) == seq![first@].add(rest_words));
    assert(words(line@).drop_first() =~= rest_words);
    if same_text(first, "state") {
        return Some(Kind::State);
    }
    if same_text(first, "pause") {
        return Some(Kind::SetPaused(true));
    }
    if same_text(first, "resume") {
        return Some(Kind::SetPaused(false));
    }
    if !same_text(first, "play") {
        return None;
    }
    let mut actions: Vec<Action> = Vec::new();
    let mut pos = end;
    while pos < n
        invariant
            n == line@.len(),
            end <= pos <= n,
            rest_words == words_from(line@, end as int),
            words(line@).len() > 0,
            words(line@)[0] == "play"@,
            words(line@).drop_first() == rest_words,
            match actions_named(words_from(line@, pos as int)) {
                Some(tail) => actions_named(rest_words) == Some(actions@.add(tail)),
                None => actions_named(rest_words) is None,
            },
        decreases n - pos,
    {
        let word_start = skip_spaces(line, pos, n);
        if word_start == n {
            pos = n;
        } else {
            let word_stop = find_word_end(line, word_start, n);
            let word = line.substring_char(word_start, word_stop);
            proof {
                lemma_word_end_bounds(line@, word_start as int);
                let ws = words_from(line@, word_start as int);
                assert(ws == seq![word@].add(words_from(line@, word_stop as int)));
                assert(ws.drop_first() =~= words_from(line@, word_stop as int));
            }
            match action(word) {
                Some(a) => {
                    let ghost before = actions@;
                    actions.push(a);
                    proof {
                        match actions_named(words_from(line@, word_stop as int)) {
                            Some(tail) => {
                                assert(before.add(seq![a].add(tail)) =~= actions@.add(tail));
                            },
                            None => {},
                        }
                    }
                    pos = word_stop;
                },
                None => {
                    proof {
                        reveal_strlit("state");
                        reveal_strlit("pause");
                        reveal_strlit("resume");
                        reveal_strlit("play");
                        let ws = words_from(line@, word_start as int);
                        assert(ws[0] == word@);
                        assert(actions_named(ws) is None);
                        assert(actions_named(words_from(line@, pos as int)) is None);
                        assert(actions_named(rest_words) is None);
                        assert(words(line@)[0] == "play"@);
                        assert("play"@.len() == 4);
                        assert("state"@.len() == 5);
                        assert("pause"@.len() == 5);
                        assert("resume"@.len() == 6);
                        assert("play"@ != "state"@);
                        assert("play"@ != "pause"@);
                        assert("play"@ != "resume"@);
                        assert(command_of(line@) is None);
                    }
                    return None;
                },
            }
        }
    }
    assert(words_from(line@, pos as int) =~= Seq::<Seq<char>>::empty());
    assert(actions@.add(Seq::<Action>::empty()) =~= actions@);
    if actions.len() == 0 {
        proof {
            lemma_actions_named_len(rest_words);
            assert(words(line@).len() == 1);
            assert("play"@ != "state"@);
            assert("play"@ != "pause"@);
            assert("play"@ != "resume"@);
        }
        // A bare `play` names no action.
        return None;
    }
    proof {
        lemma_actions_named_len(rest_words);
    }
    Some(Kind::Play(actions))
}

} // verus!
