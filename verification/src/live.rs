//! The keys of a live run, the frame that fits its window, and the line that a
//! run of no table prints for a round.
//!
//! A live run holds the terminal in raw mode, so Ctrl-C arrives here as a key
//! press and never as a signal. That is the reason this module classifies the
//! keys itself: it is the one part of the live run that can stop a run that
//! the user asked to stop.

use crate::clock::Clock;
use crate::period::{duration_text, render_duration, Period};
use crate::record::{NameRecord, RoundRecord};
use crate::text::{counted, counted_text, decimal, decimal_text, push_char};
use vstd::prelude::*;
use vstd::string::StringExecFns;

verus! {

/// What one key press asks for.
#[derive(Clone, Copy, Debug, PartialEq, Eq, Structural)]
pub enum Command {
    /// Stop the run.
    Quit,
    /// Hold the display where it stands, or let it move again.
    Pause,
    /// Show the names of the addresses, or show the addresses.
    Names,
    /// Empty the table of the display, and count the rounds again from zero.
    Reset,
    /// Show the list of the keys, or hide it.
    Help,
}

/// The key of a key event: a character, or any other key.
#[derive(Clone, Copy, Debug, PartialEq, Eq, Structural)]
pub enum KeyCode {
    /// A key that writes this character.
    Char(char),
    /// Any key that writes no character.
    Other,
}

/// One key event of the terminal, as the logic reads it.
#[derive(Clone, Copy, Debug, PartialEq, Eq, Structural)]
pub struct Key {
    /// The key.
    pub code: KeyCode,
    /// True when the control modifier was held.
    pub control: bool,
    /// True for the release of a key; a press and a repeat are no release.
    pub release: bool,
}

/// What one key event means, or nothing.
pub open spec fn command_of(key: Key) -> Option<Command> {
    if key.release {
        None
    } else if key.control && key.code == KeyCode::Char('c') {
        Some(Command::Quit)
    } else {
        match key.code {
            KeyCode::Char('q') => Some(Command::Quit),
            KeyCode::Char('p') => Some(Command::Pause),
            KeyCode::Char('n') => Some(Command::Names),
            KeyCode::Char('r') => Some(Command::Reset),
            KeyCode::Char('?') => Some(Command::Help),
            _ => None,
        }
    }
}

/// What one key press means, or nothing.
///
/// A key release means nothing: a kitty terminal and a Windows terminal both
/// report a release, and only a press acts. Ctrl-C stops the run, and `q`
/// stops it too. `p` holds the display, `n` turns the names on or off, `r`
/// empties the table of the display, and `?` shows the list of the keys.
/// Every other key means nothing.
pub fn classify(key: Key) -> (c: Option<Command>)
    ensures
        c == command_of(key),
{
    if key.release {
        return None;
    }
    if key.control && key.code == KeyCode::Char('c') {
        return Some(Command::Quit);
    }
    match key.code {
        KeyCode::Char('q') => Some(Command::Quit),
        KeyCode::Char('p') => Some(Command::Pause),
        KeyCode::Char('n') => Some(Command::Names),
        KeyCode::Char('r') => Some(Command::Reset),
        KeyCode::Char('?') => Some(Command::Help),
        _ => None,
    }
}

/// The key that shows the list of the keys, and hides it again.
pub const KEY_THAT_LISTS_THE_KEYS: &'static str = "?";

/// The text between a key and what that key does.
pub const KEY_GAP: &'static str = "  ";

/// Each key of a live table, and what that key does.
pub open spec fn keys() -> Seq<(Seq<char>, Seq<char>)> {
    seq![
        ("q, Ctrl-C"@, "stop the run"@),
        ("p"@, "hold the table, or let it move"@),
        ("n"@, "show the names, or show the addresses"@),
        ("r"@, "empty the table"@),
        (KEY_THAT_LISTS_THE_KEYS@, "show these keys, or hide them"@),
    ]
}

/// The widest key of the list, in terminal columns.
pub open spec fn widest_key_of(keys: Seq<(Seq<char>, Seq<char>)>) -> nat
    decreases keys.len(),
{
    if keys.len() == 0 {
        0
    } else {
        let before = widest_key_of(keys.drop_last());
        if keys.last().0.len() > before {
            keys.last().0.len()
        } else {
            before
        }
    }
}

/// A text padded with spaces on its right to a width.
pub open spec fn padded_right(t: Seq<char>, width: nat) -> Seq<char> {
    if t.len() >= width {
        t
    } else {
        t + Seq::new((width - t.len()) as nat, |_i: int| ' ')
    }
}

/// The lines of the list of the keys: every key takes the columns of the
/// widest key, so the text of each of them starts at one column.
pub open spec fn key_lines_text() -> Seq<Seq<char>> {
    let w = widest_key_of(keys());
    keys().map_values(|k: (Seq<char>, Seq<char>)| padded_right(k.0, w) + KEY_GAP@ + k.1)
}

/// Each key of a live table, and what that key does.
fn key_list() -> (list: Vec<(String, String)>)
    ensures
        list@.map_values(|k: (String, String)| (k.0@, k.1@)) == keys(),
{
    let list = vec![
        ("q, Ctrl-C".to_owned(), "stop the run".to_owned()),
        ("p".to_owned(), "hold the table, or let it move".to_owned()),
        ("n".to_owned(), "show the names, or show the addresses".to_owned()),
        ("r".to_owned(), "empty the table".to_owned()),
        (KEY_THAT_LISTS_THE_KEYS.to_owned(), "show these keys, or hide them".to_owned()),
    ];
    assert(list@.map_values(|k: (String, String)| (k.0@, k.1@)) =~= keys());
    list
}

/// The lines of the list of the keys.
///
/// Every key takes the columns of the widest key, so the text of each of them
/// starts at one column and the list reads as two columns.
pub fn key_lines() -> (lines: Vec<String>)
    ensures
        lines@.map_values(|s: String| s@) == key_lines_text(),
{
    let list = key_list();
    let ghost kv = list@.map_values(|k: (String, String)| (k.0@, k.1@));
    let mut width: usize = 0;
    let mut k: usize = 0;
    while k < list.len()
        invariant
            0 <= k <= list@.len(),
            kv == list@.map_values(|k: (String, String)| (k.0@, k.1@)),
            width as nat == widest_key_of(kv.subrange(0, k as int)),
        decreases list@.len() - k,
    {
        proof {
            assert(kv.subrange(0, k + 1).drop_last() =~= kv.subrange(0, k as int));
            assert(kv.subrange(0, k + 1).last() == kv[k as int]);
        }
        let w = list[k].0.as_str().unicode_len();
        if w > width {
            width = w;
        }
        k = k + 1;
    }
    proof {
        assert(kv.subrange(0, list@.len() as int) =~= kv);
    }
    let mut lines: Vec<String> = Vec::new();
    let mut k: usize = 0;
    while k < list.len()
        invariant
            0 <= k <= list@.len(),
            kv == list@.map_values(|k: (String, String)| (k.0@, k.1@)),
            kv == keys(),
            width as nat == widest_key_of(kv),
            lines@.len() == k,
            forall|q: int|
                0 <= q < k ==> (#[trigger] lines@[q])@ == padded_right(kv[q].0, width as nat) + KEY_GAP@
                    + kv[q].1,
        decreases list@.len() - k,
    {
        let mut line = list[k].0.clone();
        let len = list[k].0.as_str().unicode_len();
        let mut fill: usize = len;
        while fill < width
            invariant
                len <= fill <= width || (fill == len && len >= width),
                len == kv[k as int].0.len(),
                line@ == kv[k as int].0 + Seq::new((fill - len) as nat, |_i: int| ' '),
            decreases width - fill,
        {
            push_char(&mut line, ' ');
            fill = fill + 1;
            proof {
                assert(line@ =~= kv[k as int].0 + Seq::new((fill - len) as nat, |_i: int| ' '));
            }
        }
        proof {
            assert(kv[k as int].0 == list@[k as int].0@);
            if len >= width {
                assert(line@ =~= kv[k as int].0);
            }
            assert(line@ =~= padded_right(kv[k as int].0, width as nat));
        }
        line.append(KEY_GAP);
        line.append(list[k].1.as_str());
        lines.push(line);
        k = k + 1;
    }
    proof {
        assert(lines@.map_values(|s: String| s@) =~= key_lines_text());
    }
    lines
}

/// The mark that opens the line which counts the rows that a frame left out.
pub const MORE_MARK: &'static str = "+";

/// The lines of one frame that a window holds, and the number of rows of the
/// path that reached that frame.
#[derive(Debug)]
pub struct Fitted {
    /// The lines of the frame, head first.
    pub lines: Vec<String>,
    /// The number of rows of the path that the frame holds.
    pub rows: usize,
}

/// The number of lines that a window of a number of rows holds: every line
/// for a window that no probe measured.
pub open spec fn budget_of(rows: Option<u16>) -> nat {
    match rows {
        Some(r) => r as nat,
        None => usize::MAX as nat,
    }
}

/// The number of rows of the path that a frame keeps.
pub open spec fn kept_rows(head: nat, body: nat, footer: nat, budget: nat) -> nat {
    if head + body + footer <= budget {
        body
    } else {
        let kept = if budget >= head + footer + 1 {
            (budget - (head + footer + 1)) as nat
        } else {
            0
        };
        if kept < body {
            kept
        } else {
            body
        }
    }
}

/// The lines of one frame that fit a window.
pub open spec fn fitted_lines(
    head: Seq<Seq<char>>,
    body: Seq<Seq<char>>,
    footer: Seq<Seq<char>>,
    budget: nat,
) -> Seq<Seq<char>> {
    if head.len() + body.len() + footer.len() <= budget {
        head + body + footer
    } else {
        let kept = kept_rows(head.len(), body.len(), footer.len(), budget);
        let dropped = (body.len() - kept) as nat;
        let more = if dropped > 0 {
            seq![MORE_MARK@ + counted_text(dropped, "row"@)]
        } else {
            Seq::empty()
        };
        let all = head + body.subrange(0, kept as int) + more + footer;
        if all.len() > budget {
            all.subrange(0, budget as int)
        } else {
            all
        }
    }
}

/// The views of a list of lines.
pub open spec fn line_views(v: Seq<String>) -> Seq<Seq<char>> {
    v.map_values(|s: String| s@)
}

/// The lines of one frame that fit a window of `rows` rows.
///
/// The head and the footer stand at every height. The rows of the path take
/// the lines that those two leave, and one line then says how many rows went
/// out of the frame; the frame drops the TTLs farthest from the source. A
/// window that no probe measured holds every line. A window too short even for
/// the head and the footer cuts the frame at its foot.
///
/// The count of the rows that reached the frame travels with the lines, so a
/// caller that draws an image over one row of the path draws none for a row
/// that went out of the frame.
pub fn fitted(head: Vec<String>, body: Vec<String>, footer: Vec<String>, rows: Option<u16>) -> (f: Fitted)
    requires
        head@.len() + body@.len() + footer@.len() + 1 <= usize::MAX,
    ensures
        line_views(f.lines@) == fitted_lines(
            line_views(head@),
            line_views(body@),
            line_views(footer@),
            budget_of(rows),
        ),
        f.rows as nat == kept_rows(head@.len(), body@.len(), footer@.len(), budget_of(rows)),
        f.lines@.len() <= budget_of(rows),
{
    let budget: usize = match rows {
        Some(r) => r as usize,
        None => usize::MAX,
    };
    let ghost hv = line_views(head@);
    let ghost bv = line_views(body@);
    let ghost fv = line_views(footer@);
    let hl = head.len();
    let bl = body.len();
    let fl = footer.len();
    if hl + bl + fl <= budget {
        let mut lines = head;
        let mut body = body;
        let mut footer = footer;
        lines.append(&mut body);
        lines.append(&mut footer);
        proof {
            assert(line_views(lines@) =~= hv + bv + fv);
        }
        return Fitted { lines, rows: bl };
    }
    let kept = if budget >= hl + fl + 1 {
        budget - (hl + fl + 1)
    } else {
        0
    };
    let keep = if kept < bl {
        kept
    } else {
        bl
    };
    let dropped = bl - keep;
    let mut lines = head;
    let mut k: usize = 0;
    while k < keep
        invariant
            0 <= k <= keep <= bl,
            bl == body@.len(),
            hl == hv.len(),
            bv == line_views(body@),
            line_views(lines@) == hv + bv.subrange(0, k as int),
        decreases keep - k,
    {
        let ghost before = line_views(lines@);
        let row = body[k].clone();
        lines.push(row);
        proof {
            assert(bv[k as int] == body@[k as int]@);
            assert(line_views(lines@) =~= before.push(row@));
            assert(line_views(lines@) =~= hv + bv.subrange(0, k + 1));
        }
        k = k + 1;
    }
    let ghost more = if dropped > 0 {
        seq![MORE_MARK@ + counted_text(dropped as nat, "row"@)]
    } else {
        Seq::<Seq<char>>::empty()
    };
    if dropped > 0 {
        let mut line = String::from_str(MORE_MARK);
        let c = counted(dropped, "row");
        line.append(c.as_str());
        lines.push(line);
    }
    proof {
        assert(line_views(lines@) =~= hv + bv.subrange(0, keep as int) + more);
    }
    let mut footer = footer;
    let ghost before = line_views(lines@);
    lines.append(&mut footer);
    proof {
        assert(line_views(lines@) =~= before + fv);
    }
    let ghost all = line_views(lines@);
    if lines.len() > budget {
        lines.truncate(budget);
        proof {
            assert(line_views(lines@) =~= all.subrange(0, budget as int));
        }
    }
    Fitted { lines, rows: keep }
}

/// The window that a live table draws its frames in: its columns, and its
/// rows, with none for a window that no probe measured.
#[derive(Clone, Copy, Debug, PartialEq, Eq, Structural)]
pub struct Window {
    /// The number of terminal columns that a frame draws in.
    pub columns: u16,
    /// The number of rows that the window holds.
    pub rows: Option<u16>,
}

impl Window {
    /// A window of these columns, and of these rows.
    pub fn new(columns: u16, rows: Option<u16>) -> (w: Window)
        ensures
            w == (Window { columns, rows }),
    {
        Window { columns, rows }
    }
}

/// The word that a table which holds where it stands writes under itself.
pub const PAUSED: &'static str = "paused";

/// The switches of a live table that the keys of its reader turn, and the
/// count of the rounds that the table folded.
#[derive(Clone, Copy, Debug, PartialEq, Eq, Structural)]
pub struct Controls {
    /// The number of rounds that the table folded since it started, or since
    /// the reader emptied it.
    pub rounds: usize,
    /// Whether the table holds where it stands.
    pub paused: bool,
    /// Whether the hosts read as names.
    pub named: bool,
    /// Whether the list of the keys stands under the table.
    pub help: bool,
}

/// The switches after one command, and whether the command stops the run.
pub open spec fn applied(c: Controls, command: Command) -> (Controls, bool) {
    match command {
        Command::Pause => (Controls { paused: !c.paused, ..c }, false),
        Command::Names => (Controls { named: !c.named, ..c }, false),
        Command::Reset => (Controls { rounds: 0, ..c }, false),
        Command::Help => (Controls { help: !c.help, ..c }, false),
        Command::Quit => (c, true),
    }
}

/// The switches after a list of commands, and whether one of them stops the
/// run. Every command acts: a turn that took `p` and then `q` holds the
/// table and stops the run.
pub open spec fn applied_all(c: Controls, commands: Seq<Command>) -> (Controls, bool)
    decreases commands.len(),
{
    if commands.len() == 0 {
        (c, false)
    } else {
        let (before, quit) = applied_all(c, commands.drop_last());
        let (after, stop) = applied(before, commands.last());
        (after, quit || stop)
    }
}

/// The lines that stand under the rows of the path: the mark of the pause,
/// and the list of the keys, each held off the lines above by a blank line.
pub open spec fn footer_text(c: Controls) -> Seq<Seq<char>> {
    let pause = if c.paused {
        seq![Seq::<char>::empty(), PAUSED@]
    } else {
        Seq::empty()
    };
    let help = if c.help {
        seq![Seq::<char>::empty()] + key_lines_text()
    } else {
        Seq::empty()
    };
    pause + help
}

impl Controls {
    /// The switches of a table that starts: no round, the names on, and
    /// nothing held or shown.
    pub fn new() -> (c: Controls)
        ensures
            c == (Controls { rounds: 0, paused: false, named: true, help: false }),
    {
        Controls { rounds: 0, paused: false, named: true, help: false }
    }

    /// Acts on one command, and answers whether that command stops the run.
    ///
    /// No switch holds the stop: the run loop owns it, because the loop is
    /// what closes the recorded file with its record.
    pub fn apply(&mut self, command: Command) -> (quit: bool)
        ensures
            (*final(self), quit) == applied(*old(self), command),
    {
        match command {
            Command::Pause => self.paused = !self.paused,
            Command::Names => self.named = !self.named,
            Command::Reset => self.rounds = 0,
            Command::Help => self.help = !self.help,
            Command::Quit => {
                return true;
            },
        }
        false
    }

    /// Acts on every command of one turn, and answers whether one of them
    /// stops the run.
    pub fn apply_all(&mut self, commands: &Vec<Command>) -> (quit: bool)
        ensures
            (*final(self), quit) == applied_all(*old(self), commands@),
    {
        let mut quit = false;
        let mut k: usize = 0;
        while k < commands.len()
            invariant
                0 <= k <= commands@.len(),
                (*self, quit) == applied_all(*old(self), commands@.subrange(0, k as int)),
            decreases commands@.len() - k,
        {
            proof {
                assert(commands@.subrange(0, k + 1).drop_last() =~= commands@.subrange(0, k as int));
            }
            let stop = self.apply(commands[k]);
            quit = stop || quit;
            k = k + 1;
        }
        proof {
            assert(commands@.subrange(0, commands@.len() as int) =~= commands@);
        }
        quit
    }

    /// Counts one round that the table folded, and answers whether the
    /// table draws it: a table that holds draws nothing.
    pub fn round(&mut self) -> (draw: bool)
        requires
            old(self).rounds < usize::MAX,
        ensures
            *final(self) == (Controls { rounds: (old(self).rounds + 1) as usize, ..*old(self) }),
            draw == !old(self).paused,
    {
        self.rounds = self.rounds + 1;
        !self.paused
    }

    /// The lines that stand under the rows of the path.
    pub fn footer(&self) -> (lines: Vec<String>)
        ensures
            line_views(lines@) == footer_text(*self),
    {
        let mut lines: Vec<String> = Vec::new();
        if self.paused {
            lines.push(String::new());
            lines.push(PAUSED.to_owned());
        }
        let ghost pause = line_views(lines@);
        if self.help {
            lines.push(String::new());
            let mut keys = key_lines();
            lines.append(&mut keys);
        }
        proof {
            assert(line_views(lines@) =~= footer_text(*self));
        }
        lines
    }
}

/// The text between two fields of the status line of a round.
pub const STATUS_SEPARATOR: &'static str = "  ";

/// The one line that a run of no live table prints for one round.
pub open spec fn status_text(round: RoundRecord) -> Seq<char> {
    "round "@ + decimal(round.seq as nat) + STATUS_SEPARATOR@ + counted_text(round.hops@.len(), "hop"@)
        + STATUS_SEPARATOR@ + (if round.reached {
        "reached"@
    } else {
        "never reached"@
    }) + STATUS_SEPARATOR@ + duration_text(Period::of_millis(round.dur_ms as nat))
}

/// Writes the one line that a run of no live table prints for one round.
///
/// The line holds the number of the round, the number of hops that answered,
/// whether the round reached the target, and the time that the round took.
/// A hop that did not answer is absent from the record, so the count is the
/// number of hops that answered and not the length of the path.
pub fn status_line(round: &RoundRecord) -> (s: String)
    ensures
        s@ == status_text(*round),
{
    let mut s = String::from_str("round ");
    let seq = decimal_text(round.seq as u128);
    s.append(seq.as_str());
    s.append(STATUS_SEPARATOR);
    let hops = counted(round.hops.len(), "hop");
    s.append(hops.as_str());
    s.append(STATUS_SEPARATOR);
    if round.reached {
        s.append("reached");
    } else {
        s.append("never reached");
    }
    s.append(STATUS_SEPARATOR);
    let took = render_duration(Period::from_millis(round.dur_ms));
    s.append(took.as_str());
    s
}

} // verus!

verus! {

/// `Instant::duration_since`: the time from an earlier moment to a later
/// one, or zero where the moment handed over is not earlier. The moments are
/// opaque here, so nothing is said of the answer.
pub assume_specification[ std::time::Instant::duration_since ](
    instant: &std::time::Instant,
    earlier: std::time::Instant,
) -> std::time::Duration;

/// The nanoseconds between two lines of a run that draws no table: one
/// minute.
pub const LINE_PERIOD_NANOS: u128 = 60_000_000_000;

/// Whether the line of a round that arrives `now` nanoseconds into the run
/// prints, after a last line at `last`: always before the first line, and
/// after it once a whole minute passed since the last line.
pub open spec fn line_due(last: Option<u128>, now: u128) -> bool {
    match last {
        None => true,
        Some(t) => now >= t + LINE_PERIOD_NANOS,
    }
}

/// What one round does to a headless screen that it reaches at `now`: the
/// round prints its status line exactly when the line is due, and the moment
/// of the last line becomes `now`; a round that prints nothing leaves the
/// screen as it stood.
pub open spec fn round_outcome(
    last: Option<u128>,
    now: u128,
    round: RoundRecord,
    line: Option<String>,
    after: Option<u128>,
) -> bool {
    &&& (line is Some <==> line_due(last, now))
    &&& (line matches Some(s) ==> s@ == status_text(round) && after == Some(now))
    &&& (line is None ==> after == last)
}

/// The display of a run that draws no table.
///
/// Such a run clears no screen and reads no key. It writes one status line at
/// its first round, and one more each time a whole minute passed since the
/// line before it: a run that printed nothing for a whole minute reads as a
/// run that died, and one line each minute says the same as one line each
/// round.
///
/// The screen counts time in nanoseconds since the moment it was made, which
/// is when its clock read first.
pub struct Headless<C: Clock> {
    /// The clock that times the lines.
    clock: C,
    /// The moment that the screen was made, from which it counts.
    origin: std::time::Instant,
    /// The nanoseconds since `origin` of the last line, and nothing before
    /// the first one.
    last: Option<u128>,
}

impl<C: Clock> Headless<C> {
    /// The nanoseconds into the run of the last line that printed, and
    /// nothing before the first one.
    pub closed spec fn last_line(&self) -> Option<u128> {
        self.last
    }

    /// True before the first line.
    pub open spec fn before_first_line(&self) -> bool {
        self.last_line() is None
    }

    /// A headless screen that times its lines by `clock`.
    pub fn new(clock: C) -> (h: Headless<C>)
        ensures
            h.before_first_line(),
    {
        let origin = clock.now();
        Headless { clock, origin, last: None }
    }

    /// The nanoseconds from the making of the screen to `moment`, and zero
    /// for a moment before it.
    ///
    /// The moments come from the clock, so nothing is said of the answer.
    pub fn since_start(&self, moment: std::time::Instant) -> u128 {
        moment.duration_since(self.origin).as_nanos()
    }

    /// Whether the line of a round that arrives `now` nanoseconds into the run
    /// prints.
    ///
    /// The first round of a run prints, and every round after it prints when
    /// a whole minute passed since the last line.
    pub fn due(&self, now: u128) -> (d: bool)
        ensures
            d == line_due(self.last_line(), now),
    {
        match self.last {
            None => true,
            Some(t) => now >= t && now - t >= LINE_PERIOD_NANOS,
        }
    }

    /// A headless run holds no terminal, so no key of it reaches the
    /// process, and no turn asks for a stop.
    pub fn poll(&mut self) -> (quit: bool)
        ensures
            !quit,
            final(self).last_line() == old(self).last_line(),
    {
        false
    }

    /// The status line of a round that arrived `now` nanoseconds into the run,
    /// when it is due.
    pub fn round_at(&mut self, round: &RoundRecord, now: u128) -> (line: Option<String>)
        ensures
            round_outcome(old(self).last_line(), now, *round, line, final(self).last_line()),
    {
        if !self.due(now) {
            return None;
        }
        self.last = Some(now);
        Some(status_line(round))
    }

    /// The status line of a round that arrived, when it is due.
    ///
    /// The moment of the round is the one the clock reads now; which moment
    /// that is rests on the clock, and for whatever it reads the round goes
    /// as `round_at` says.
    pub fn round(&mut self, round: &RoundRecord) -> (line: Option<String>)
        ensures
            exists|now: u128|
                #[trigger] round_outcome(
                    old(self).last_line(),
                    now,
                    *round,
                    line,
                    final(self).last_line(),
                ),
    {
        let moment = self.clock.now();
        let now = self.since_start(moment);
        let line = self.round_at(round, now);
        assert(round_outcome(old(self).last_line(), now, *round, line, self.last_line()));
        line
    }

    /// A name belongs to a row of a table, and this screen draws no table,
    /// so the names that arrive change nothing.
    pub fn names(&mut self, names: &Vec<NameRecord>)
        ensures
            final(self).last_line() == old(self).last_line(),
    {
    }
}

} // verus!
