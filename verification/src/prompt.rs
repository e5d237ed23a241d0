//! What is asked of the user: the password, the paths, the direction, and the
//! output directory.

use crate::chunk::wipe;
use crate::text::{same_text, split, trim};
use vstd::prelude::*;

verus! {

// ---------------------------------------------------------------------------
// The password
// ---------------------------------------------------------------------------
/// What a key leads to on the screen, and whether the prompt goes on.
#[derive(Debug, Clone, Copy, PartialEq, Eq, Structural)]
pub enum KeyAction {
    /// One more star is shown.
    Show,
    /// So many stars are taken back.
    Erase(usize),
    /// The password is complete.
    Accept,
    /// The program ends.
    Interrupt,
    /// Nothing happens.
    Ignore,
}

/// Whether a key stands for a character of a password: printable ASCII.
pub open spec fn is_printable(key: u8) -> bool {
    0x20 <= key <= 0x7e
}

/// The password after a key. Backspace and delete take the last character,
/// and Ctrl-U takes all.
pub open spec fn after_key(password: Seq<char>, key: u8) -> Seq<char> {
    if (key == 0x7f || key == 0x08) && password.len() > 0 {
        password.drop_last()
    } else if key == 0x15 {
        Seq::empty()
    } else if is_printable(key) {
        password.push(key as char)
    } else {
        password
    }
}

/// What a key leads to. Enter and Ctrl-D complete the password, and Ctrl-C
/// ends the program.
pub open spec fn action_of(password: Seq<char>, key: u8) -> KeyAction {
    if key == 0x0a || key == 0x0d || key == 0x04 {
        KeyAction::Accept
    } else if key == 0x7f || key == 0x08 {
        if password.len() > 0 {
            KeyAction::Erase(1)
        } else {
            KeyAction::Ignore
        }
    } else if key == 0x15 {
        KeyAction::Erase(password.len() as usize)
    } else if key == 0x03 {
        KeyAction::Interrupt
    } else if is_printable(key) {
        KeyAction::Show
    } else {
        KeyAction::Ignore
    }
}

/// The password after a run of keys.
pub open spec fn typed(keys: Seq<u8>) -> Seq<char>
    decreases keys.len(),
{
    if keys.len() == 0 {
        Seq::empty()
    } else {
        after_key(typed(keys.drop_last()), keys.last())
    }
}

/// How many stars the screen shows after a run of keys.
pub open spec fn stars(keys: Seq<u8>) -> int
    decreases keys.len(),
{
    if keys.len() == 0 {
        0
    } else {
        let before = stars(keys.drop_last());
        match action_of(typed(keys.drop_last()), keys.last()) {
            KeyAction::Show => before + 1,
            KeyAction::Erase(n) => before - n,
            _ => before,
        }
    }
}

/// After any run of keys the screen shows a star for each character of the
/// password, and the password is printable ASCII.
pub proof fn law_a_star_per_character(keys: Seq<u8>)
    requires
        keys.len() <= usize::MAX,
    ensures
        stars(keys) == typed(keys).len(),
        typed(keys).len() <= keys.len(),
        forall|i: int|
            0 <= i < typed(keys).len() ==> 0x20 <= #[trigger] typed(keys)[i] as u32 <= 0x7e,
    decreases keys.len(),
{
    if keys.len() > 0 {
        law_a_star_per_character(keys.drop_last());
    }
}

/// A run of printable keys is the password, character for character.
pub proof fn law_password_is_what_was_typed(keys: Seq<u8>)
    requires
        forall|i: int| 0 <= i < keys.len() ==> 0x20 <= #[trigger] keys[i] <= 0x7e,
    ensures
        typed(keys).len() == keys.len(),
        forall|i: int|
            0 <= i < keys.len() ==> #[trigger] typed(keys)[i] as int == keys[i] as int,
    decreases keys.len(),
{
    if keys.len() > 0 {
        let front = keys.drop_last();
        assert forall|i: int| 0 <= i < front.len() implies 0x20 <= #[trigger] front[i] <= 0x7e by {
            assert(front[i] == keys[i]);
        }
        law_password_is_what_was_typed(front);
        let last = keys.last();
        assert(keys[keys.len() - 1] == last);
        assert forall|i: int| 0 <= i < keys.len() implies #[trigger] typed(keys)[i] as int
            == keys[i] as int by {
            if i < front.len() {
                assert(typed(front)[i] as int == front[i] as int);
            }
        }
    }
}

/// What one more key does, after any run of keys: a printable one appends the
/// character that it stands for; backspace and delete undo the last character,
/// and only that; Ctrl-U undoes all; every other key leaves the password alone.
pub proof fn law_what_a_key_does(keys: Seq<u8>, key: u8, shown: u8)
    requires
        0x20 <= shown <= 0x7e,
    ensures
        typed(keys.push(shown)).len() == typed(keys).len() + 1,
        typed(keys.push(shown)).drop_last() == typed(keys),
        typed(keys.push(shown)).last() as int == shown as int,
        typed(keys.push(shown).push(0x7f)) == typed(keys),
        typed(keys.push(shown).push(0x08)) == typed(keys),
        typed(keys).len() == 0 ==> typed(keys.push(0x7f)).len() == 0 && typed(
            keys.push(0x08),
        ).len() == 0,
        typed(keys.push(0x15)).len() == 0,
        key != 0x7f && key != 0x08 && key != 0x15 && !(0x20 <= key <= 0x7e) ==> typed(
            keys.push(key),
        ) == typed(keys),
{
    assert(keys.push(key).drop_last() =~= keys);
    assert(keys.push(shown).drop_last() =~= keys);
    assert(keys.push(0x15).drop_last() =~= keys);
    assert(keys.push(0x7f).drop_last() =~= keys);
    assert(keys.push(0x08).drop_last() =~= keys);
    let longer = keys.push(shown);
    assert(longer.push(0x7f).drop_last() =~= longer);
    assert(longer.push(0x08).drop_last() =~= longer);
    assert(typed(longer).drop_last() =~= typed(keys));
}

/// What each key leads to: line feed, carriage return and Ctrl-D accept, Ctrl-C
/// interrupts, a printable key shows one star, Ctrl-U takes back as many as
/// there are characters, backspace and delete take back one where there is one.
pub proof fn law_what_a_key_leads_to(password: Seq<char>, key: u8)
    requires
        password.len() <= usize::MAX,
    ensures
        action_of(password, key) is Accept <==> key == 10 || key == 13 || key == 4,
        action_of(password, key) is Interrupt <==> key == 3,
        action_of(password, key) is Show <==> 32 <= key <= 126,
        action_of(password, key) matches KeyAction::Erase(n) ==> (key == 21 && n == password.len())
            || ((key == 8 || key == 127) && password.len() > 0 && n == 1),
        key == 21 ==> action_of(password, key) is Erase,
        (key == 8 || key == 127) && password.len() > 0 ==> action_of(password, key) is Erase,
{
}

/// A password as it is typed.
pub struct PasswordEditor {
    bytes: Vec<u8>,
}

impl View for PasswordEditor {
    type V = Seq<char>;

    closed spec fn view(&self) -> Seq<char> {
        self.bytes@.map_values(|b: u8| b as char)
    }
}

impl PasswordEditor {
    /// An editor before the first key.
    pub fn new() -> (e: PasswordEditor)
        ensures
            e@ == Seq::<char>::empty(),
    {
        let e = PasswordEditor { bytes: Vec::new() };
        assert(e@ =~= Seq::<char>::empty());
        e
    }

    /// Takes in a key.
    pub fn on_key(&mut self, key: u8) -> (action: KeyAction)
        ensures
            final(self)@ == after_key(old(self)@, key),
            action == action_of(old(self)@, key),
    {
        if key == 0x0a || key == 0x0d || key == 0x04 {
            return KeyAction::Accept;
        }
        if key == 0x7f || key == 0x08 {
            return match self.bytes.pop() {
                Some(_) => {
                    assert(self@ =~= old(self)@.drop_last());
                    KeyAction::Erase(1)
                },
                None => {
                    assert(self@ =~= old(self)@);
                    KeyAction::Ignore
                },
            };
        }
        if key == 0x15 {
            let n = self.bytes.len();
            self.bytes.clear();
            assert(self@ =~= Seq::<char>::empty());
            return KeyAction::Erase(n);
        }
        if key == 0x03 {
            return KeyAction::Interrupt;
        }
        if 0x20 <= key && key <= 0x7e {
            self.bytes.push(key);
            assert(self@ =~= old(self)@.push(key as char));
            return KeyAction::Show;
        }
        KeyAction::Ignore
    }

    /// The password. What was typed is overwritten.
    pub fn finish(self) -> (password: String)
        ensures
            password@ == self@,
    {
        let mut bytes = self.bytes;
        let mut password = String::new();
        let mut i: usize = 0;
        let ghost all = self@;
        while i < bytes.len()
            invariant
                i <= bytes@.len(),
                all == bytes@.map_values(|b: u8| b as char),
                password@ == all.take(i as int),
            decreases bytes@.len() - i,
        {
            password.push(bytes[i] as char);
            assert(password@ =~= all.take(i + 1));
            i = i + 1;
        }
        assert(all.take(i as int) =~= all);
        wipe(&mut bytes);
        password
    }
}

// ---------------------------------------------------------------------------
// The paths
// ---------------------------------------------------------------------------
/// What a line at the prompt for paths leads to.
#[derive(Debug, Clone, Copy, PartialEq, Eq, Structural)]
pub enum PathStep {
    /// Another line is asked for.
    More,
    /// The paths are complete.
    Done,
}

/// What was entered so far, after a line: one path per line, trimmed. A blank
/// line adds nothing.
pub open spec fn after_line(entered: Seq<char>, line: Seq<char>) -> Seq<char> {
    if crate::text::trimmed(line).len() == 0 {
        entered
    } else {
        (entered + crate::text::trimmed(line)).push('\n')
    }
}

/// What a line leads to: a blank line ends the paths, but not before the first
/// of them.
pub open spec fn step_of(entered: Seq<char>, line: Seq<char>) -> PathStep {
    if crate::text::trimmed(line).len() == 0 && entered.len() > 0 {
        PathStep::Done
    } else {
        PathStep::More
    }
}

/// What was entered after a run of lines.
pub open spec fn after_lines(lines: Seq<Seq<char>>) -> Seq<char>
    decreases lines.len(),
{
    if lines.len() == 0 {
        Seq::empty()
    } else {
        after_line(after_lines(lines.drop_last()), lines.last())
    }
}

/// The texts of `parts` that are not blank, trimmed.
pub open spec fn not_blank(parts: Seq<Seq<char>>) -> Seq<Seq<char>>
    decreases parts.len(),
{
    if parts.len() == 0 {
        Seq::empty()
    } else {
        let before = not_blank(parts.drop_last());
        let last = crate::text::trimmed(parts.last());
        if last.len() == 0 {
            before
        } else {
            before.push(last)
        }
    }
}

/// The paths in what was entered.
pub open spec fn paths_in(entered: Seq<char>) -> Seq<Seq<char>> {
    not_blank(crate::text::pieces(entered, '\n'))
}

proof fn lemma_after_lines_joined(lines: Seq<Seq<char>>)
    requires
        forall|i: int| 0 <= i < lines.len() ==> crate::text::trimmed(#[trigger] lines[i]).len() > 0,
    ensures
        after_lines(lines) == crate::text::joined(
            lines.map_values(|l: Seq<char>| crate::text::trimmed(l)).push(Seq::empty()),
            '\n',
        ),
    decreases lines.len(),
{
    let trim_all = |l: Seq<char>| crate::text::trimmed(l);
    let parts = lines.map_values(trim_all);
    let whole = parts.push(Seq::empty());
    if lines.len() == 0 {
        assert(whole.len() == 1);
        assert(after_lines(lines) =~= crate::text::joined(whole, '\n'));
    } else {
        let front = lines.drop_last();
        assert forall|i: int| 0 <= i < front.len() implies crate::text::trimmed(
            #[trigger] front[i],
        ).len() > 0 by {
            assert(front[i] == lines[i]);
        }
        lemma_after_lines_joined(front);
        let last = crate::text::trimmed(lines.last());
        assert(lines[lines.len() - 1] == lines.last());
        let earlier = front.map_values(trim_all);
        assert(parts =~= earlier.push(last));
        assert(whole.drop_last() =~= parts);
        assert(crate::text::joined(whole, '\n') =~= crate::text::joined(parts, '\n').push('\n'));
        crate::text::lemma_joined_fill_last(earlier, last, '\n');
        assert(after_lines(lines) =~= crate::text::joined(whole, '\n'));
    }
}

proof fn lemma_not_blank_of_trimmed(lines: Seq<Seq<char>>)
    requires
        forall|i: int| 0 <= i < lines.len() ==> crate::text::trimmed(#[trigger] lines[i]).len() > 0,
    ensures
        not_blank(lines.map_values(|l: Seq<char>| crate::text::trimmed(l))) == lines.map_values(
            |l: Seq<char>| crate::text::trimmed(l),
        ),
    decreases lines.len(),
{
    let trim_all = |l: Seq<char>| crate::text::trimmed(l);
    let parts = lines.map_values(trim_all);
    if lines.len() > 0 {
        let front = lines.drop_last();
        assert forall|i: int| 0 <= i < front.len() implies crate::text::trimmed(
            #[trigger] front[i],
        ).len() > 0 by {
            assert(front[i] == lines[i]);
        }
        lemma_not_blank_of_trimmed(front);
        assert(lines[lines.len() - 1] == lines.last());
        crate::text::law_trim_once(lines.last());
        assert(parts.drop_last() =~= front.map_values(trim_all));
        assert(parts.last() == crate::text::trimmed(lines.last()));
        assert(not_blank(parts) =~= parts);
    } else {
        assert(not_blank(parts) =~= parts);
    }
}

/// The paths are the lines that were entered, trimmed, in order.
pub proof fn law_paths_are_the_lines(lines: Seq<Seq<char>>)
    requires
        forall|i: int|
            0 <= i < lines.len() ==> crate::text::trimmed(#[trigger] lines[i]).len() > 0
                && !crate::text::trimmed(lines[i]).contains('\n'),
    ensures
        paths_in(after_lines(lines)) == lines.map_values(
            |l: Seq<char>| crate::text::trimmed(l),
        ),
{
    let trim_all = |l: Seq<char>| crate::text::trimmed(l);
    let parts = lines.map_values(trim_all);
    let end: Seq<char> = Seq::empty();
    let whole = parts.push(end);
    lemma_after_lines_joined(lines);
    assert forall|i: int| 0 <= i < whole.len() implies !(#[trigger] whole[i]).contains('\n') by {
        if i < parts.len() {
            assert(whole[i] == crate::text::trimmed(lines[i]));
        }
    }
    crate::text::law_split_undoes_join(whole, '\n');
    lemma_not_blank_of_trimmed(lines);
    assert(whole.drop_last() =~= parts);
    assert(crate::text::trimmed(end).len() == 0);
    assert(not_blank(whole) =~= parts);
}

/// Blank lines add nothing. They end the paths exactly where something was
/// entered before; a line that is not blank never does.
pub proof fn law_blank_lines(entered: Seq<char>, line: Seq<char>)
    ensures
        (forall|k: int| 0 <= k < line.len() ==> crate::text::is_white_space(#[trigger] line[k]))
            ==> after_line(entered, line) == entered && (step_of(entered, line) == PathStep::Done
            <==> entered.len() > 0),
        (exists|k: int| 0 <= k < line.len() && !crate::text::is_white_space(#[trigger] line[k]))
            ==> step_of(entered, line) == PathStep::More && after_line(entered, line).len()
            > entered.len() && after_line(entered, line).take(entered.len() as int) == entered,
{
    let place = crate::text::law_trim_takes_white_space_alone(line);
    if forall|k: int| 0 <= k < line.len() ==> crate::text::is_white_space(#[trigger] line[k]) {
        if place.0 < place.1 {
            assert(crate::text::is_white_space(line[place.0]));
        }
        assert(crate::text::trimmed(line).len() == 0);
    } else {
        let k = choose|k: int|
            0 <= k < line.len() && !crate::text::is_white_space(#[trigger] line[k]);
        assert(place.0 <= k < place.1);
        assert(crate::text::trimmed(line).len() > 0);
        assert(after_line(entered, line).take(entered.len() as int) =~= entered);
    }
}

/// The paths as they are entered.
pub struct PathPrompt {
    entered: String,
}

impl View for PathPrompt {
    type V = Seq<char>;

    closed spec fn view(&self) -> Seq<char> {
        self.entered@
    }
}

impl PathPrompt {
    /// A prompt before the first line.
    pub fn new() -> (p: PathPrompt)
        ensures
            p@ == Seq::<char>::empty(),
    {
        PathPrompt { entered: String::new() }
    }

    /// Takes in a line.
    pub fn on_line(&mut self, line: &str) -> (step: PathStep)
        ensures
            final(self)@ == after_line(old(self)@, line@),
            step == step_of(old(self)@, line@),
    {
        let trimmed = trim(line);
        if trimmed.as_str().is_empty() {
            if self.entered.as_str().is_empty() {
                return PathStep::More;
            }
            return PathStep::Done;
        }
        self.entered.append(trimmed.as_str());
        self.entered.push('\n');
        PathStep::More
    }

    /// The paths that were entered.
    pub fn paths(&self) -> (paths: Vec<String>)
        ensures
            crate::text::texts(paths@) == paths_in(self@),
    {
        let parts = split(self.entered.as_str(), '\n');
        let mut paths: Vec<String> = Vec::new();
        let mut i: usize = 0;
        let ghost all = crate::text::texts(parts@);
        assert(crate::text::texts(paths@) =~= not_blank(all.take(0)));
        while i < parts.len()
            invariant
                i <= parts@.len(),
                all == crate::text::texts(parts@),
                crate::text::texts(paths@) == not_blank(all.take(i as int)),
            decreases parts@.len() - i,
        {
            let trimmed = trim(parts[i].as_str());
            let ghost before = paths@;
            assert(all.take(i + 1).drop_last() =~= all.take(i as int));
            assert(all.take(i + 1).last() == parts@[i as int]@);
            if !trimmed.as_str().is_empty() {
                paths.push(trimmed);
                assert(crate::text::texts(paths@) =~= crate::text::texts(before).push(trimmed@));
            }
            i = i + 1;
        }
        assert(all.take(i as int) =~= all);
        paths
    }
}

// ---------------------------------------------------------------------------
// The direction and the output directory
// ---------------------------------------------------------------------------
/// What the answer to the question for the direction is taken for.
#[derive(Debug, Clone, Copy, PartialEq, Eq, Structural)]
pub enum Choice {
    Encrypt,
    Decrypt,
    /// The answer is blank: the question is put again.
    Blank,
    /// The answer is none of the two: the user is told, and asked again.
    Invalid,
}

/// What `line` is taken for: `e` or `d`, trimmed.
pub open spec fn choice_of(line: Seq<char>) -> Choice {
    let answer = crate::text::trimmed(line);
    if answer == seq!['e'] {
        Choice::Encrypt
    } else if answer == seq!['d'] {
        Choice::Decrypt
    } else if answer.len() == 0 {
        Choice::Blank
    } else {
        Choice::Invalid
    }
}

/// A single `e` encrypts and a single `d` decrypts, with any white space around
/// it; white space alone is no answer; everything else is invalid.
pub proof fn law_choice(before: Seq<char>, answer: Seq<char>, after: Seq<char>)
    requires
        forall|k: int| 0 <= k < before.len() ==> crate::text::is_white_space(#[trigger] before[k]),
        forall|k: int| 0 <= k < after.len() ==> crate::text::is_white_space(#[trigger] after[k]),
        answer.len() > 0 ==> !crate::text::is_white_space(answer[0])
            && !crate::text::is_white_space(answer.last()),
    ensures
        choice_of(before + answer + after) == (if answer.len() == 1 && answer[0] == 'e' {
            Choice::Encrypt
        } else if answer.len() == 1 && answer[0] == 'd' {
            Choice::Decrypt
        } else if answer.len() == 0 {
            Choice::Blank
        } else {
            Choice::Invalid
        }),
{
    let line = before + answer + after;
    let n = before.len() as int;
    let m = n + answer.len();
    let place = crate::text::law_trim_takes_white_space_alone(line);
    assert(crate::text::trimmed(line) =~= answer) by {
        assert forall|k: int| 0 <= k < n implies crate::text::is_white_space(
            #[trigger] line[k],
        ) by {
            assert(line[k] == before[k]);
        }
        assert forall|k: int| m <= k < line.len() implies crate::text::is_white_space(
            #[trigger] line[k],
        ) by {
            assert(line[k] == after[k - m]);
        }
        if answer.len() > 0 {
            assert(line[n] == answer[0]);
            assert(line[m - 1] == answer.last());
            assert(place.0 == n);
            assert(place.1 == m);
        } else if place.0 < place.1 {
            assert(crate::text::is_white_space(line[place.0]));
        }
    }
    if answer.len() == 1 {
        assert(answer =~= seq![answer[0]]);
        if answer[0] == 'e' {
            assert(answer =~= seq!['e']);
        }
        if answer[0] == 'd' {
            assert(answer =~= seq!['d']);
            assert(answer[0] != seq!['e'][0]);
        }
    }
    if answer == seq!['e'] {
        assert(answer[0] == 'e' && answer.len() == 1);
    }
    if answer == seq!['d'] {
        assert(answer[0] == 'd' && answer.len() == 1);
    }
}

/// What the answer is taken for.
pub fn read_choice(line: &str) -> (c: Choice)
    ensures
        c == choice_of(line@),
{
    let answer = trim(line);
    proof {
        reveal_strlit("e");
        reveal_strlit("d");
        assert("e"@ =~= seq!['e']);
        assert("d"@ =~= seq!['d']);
    }
    if same_text(answer.as_str(), "e") {
        return Choice::Encrypt;
    }
    if same_text(answer.as_str(), "d") {
        return Choice::Decrypt;
    }
    if answer.as_str().is_empty() {
        return Choice::Blank;
    }
    Choice::Invalid
}

/// The directory that was answered, and none where the answer is blank.
pub fn read_output_dir(line: &str) -> (dir: Option<String>)
    ensures
        dir is None <==> crate::text::trimmed(line@).len() == 0,
        dir matches Some(d) ==> d@ == crate::text::trimmed(line@),
{
    let answer = trim(line);
    if answer.as_str().is_empty() {
        None
    } else {
        Some(answer)
    }
}

} // verus!
