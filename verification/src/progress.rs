//! The progress bar.

use vstd::prelude::*;

verus! {

/// Cells in the bar.
pub const BAR_WIDTH: usize = 50;

/// What stands in cell `i` of a bar with `filled` cells done: all of the bar
/// where the work is finished, and else the done cells with an arrow head
/// behind them.
pub open spec fn bar_cell(i: int, filled: int, finished: bool) -> char {
    if finished || i < filled {
        '='
    } else if i == filled {
        '>'
    } else {
        '.'
    }
}

/// The bar between its ends, drawn over the line before.
pub open spec fn bar(filled: int, finished: bool) -> Seq<char> {
    seq!['\r', '|'] + Seq::new(BAR_WIDTH as nat, |i: int| bar_cell(i, filled, finished)) + seq!['|']
}

/// A bar has fifty cells between its ends. They are all done once the work is;
/// before that the first are, one shows the arrow head, and the rest are open.
pub proof fn law_bar(filled: int, finished: bool)
    requires
        0 <= filled <= 50,
    ensures
        bar(filled, finished).len() == 53,
        bar(filled, finished)[0] == '\r',
        bar(filled, finished)[1] == '|',
        bar(filled, finished)[52] == '|',
        forall|i: int|
            0 <= i < 50 && (finished || i < filled) ==> #[trigger] bar(filled, finished)[2 + i]
                == '=',
        !finished && filled < 50 ==> bar(filled, finished)[2 + filled] == '>',
        forall|i: int|
            filled < i < 50 && !finished ==> #[trigger] bar(filled, finished)[2 + i] == '.',
{
}

/// The bar with `filled` cells done; more than there are count as all.
pub fn render_bar(filled: usize, finished: bool) -> (s: String)
    ensures
        s@ == bar(
            if filled > BAR_WIDTH {
                BAR_WIDTH as int
            } else {
                filled as int
            },
            finished,
        ),
{
    let done: usize = if filled > BAR_WIDTH {
        BAR_WIDTH
    } else {
        filled
    };
    let mut s = String::new();
    s.push('\r');
    s.push('|');
    let mut i: usize = 0;
    let ghost cells = Seq::new(BAR_WIDTH as nat, |k: int| bar_cell(k, done as int, finished));
    assert(s@ =~= seq!['\r', '|'] + cells.take(0));
    while i < BAR_WIDTH
        invariant
            i <= BAR_WIDTH,
            cells == Seq::new(BAR_WIDTH as nat, |k: int| bar_cell(k, done as int, finished)),
            s@ == seq!['\r', '|'] + cells.take(i as int),
        decreases BAR_WIDTH - i,
    {
        let c: char = if finished || i < done {
            '='
        } else if i == done {
            '>'
        } else {
            '.'
        };
        s.push(c);
        assert(s@ =~= seq!['\r', '|'] + cells.take(i + 1));
        i = i + 1;
    }
    assert(cells.take(BAR_WIDTH as int) =~= cells);
    s.push('|');
    assert(s@ =~= bar(done as int, finished));
    s
}

/// What the watcher of the progress does at a tick.
#[derive(Debug, Clone, Copy, PartialEq, Eq, Structural)]
pub enum Tick {
    /// The work is finished: the full bar is drawn, and the watcher ends.
    Finish,
    /// The bar is drawn.
    Draw,
    /// Nothing was done yet, and nothing is drawn.
    Wait,
}

/// What the watcher does at a tick.
pub fn on_tick(done: bool, current: u64) -> (t: Tick)
    ensures
        t == if done {
            Tick::Finish
        } else if current > 0 {
            Tick::Draw
        } else {
            Tick::Wait
        },
{
    if done {
        Tick::Finish
    } else if current > 0 {
        Tick::Draw
    } else {
        Tick::Wait
    }
}

} // verus!
