//! What a hunt found, and the table that ranks it: the shortest path, the
//! longest path, the fastest path, and the slowest path.

use crate::addr::{ipv4_string, ipv4_text};
use crate::period::{duration_text, render_duration, Period};
use crate::record::{is_white_space, trailing_space, RunId, Stamp};
use crate::text::{decimal, decimal_text, push_char};
use vstd::prelude::*;
use vstd::string::StringExecFns;

verus! {

/// Whether the destination of one round of a hunt answered.
#[derive(Clone, Copy, Debug, PartialEq, Eq, Structural)]
pub enum PathKind {
    /// The destination answered, and the path ends at it.
    Reached,
    /// The destination answered nothing, and the path ends at the last hop
    /// that did answer.
    Partial,
}

/// The word of a kind of path.
pub open spec fn kind_text(k: PathKind) -> Seq<char> {
    match k {
        PathKind::Reached => "reached"@,
        PathKind::Partial => "partial"@,
    }
}

impl PathKind {
    /// The word of the kind of path.
    pub fn text(&self) -> (s: String)
        ensures
            s@ == kind_text(*self),
    {
        match self {
            PathKind::Reached => "reached".to_owned(),
            PathKind::Partial => "partial".to_owned(),
        }
    }
}

/// What one destination of a hunt gave.
///
/// The mean time and the loss of the last hop are floating-point numbers. The
/// score holds the key that orders the time, the bits of that non-negative
/// number, and the two cells that the caller wrote of them.
#[derive(Clone, Debug)]
pub struct Score {
    /// The address that the hunt traced.
    pub addr: u32,
    /// The name of that address, when a reverse lookup gave one.
    pub host: Option<String>,
    /// The run that recorded the trace.
    pub run: RunId,
    /// Whether the destination answered.
    pub kind: PathKind,
    /// The length of the path.
    pub length: u8,
    /// The key that orders the mean time of the last hop that answered: the
    /// bits of that non-negative number. A path that no hop answered holds
    /// none.
    pub time_key: Option<u64>,
    /// The cell of the mean time, as the caller wrote it.
    pub avg_cell: String,
    /// The cell of the loss, as the caller wrote it.
    pub loss_cell: String,
    /// The number of TTLs at or below the length that answered nothing.
    pub gaps: usize,
}

/// The cell of the host of a score: the name with the address beside it, or
/// the address alone.
pub open spec fn host_text(s: Score) -> Seq<char> {
    match s.host {
        Some(h) => h@ + " ("@ + ipv4_text(s.addr) + ")"@,
        None => ipv4_text(s.addr),
    }
}

impl Score {
    /// The name of the destination with its address beside it, or the
    /// address alone.
    pub fn host_text(&self) -> (t: String)
        ensures
            t@ == host_text(*self),
    {
        match &self.host {
            Some(h) => {
                let mut t = h.clone();
                t.append(" (");
                let a = ipv4_string(self.addr);
                t.append(a.as_str());
                t.append(")");
                t
            },
            None => ipv4_string(self.addr),
        }
    }
}

/// The two numbers that stop one hunt.
#[derive(Clone, Copy, Debug, PartialEq, Eq, Structural)]
pub struct Bounds {
    /// The number of destinations that must answer before the hunt stops
    /// drawing.
    pub rounds: u64,
    /// The number of destinations that the hunt traces before it gives up.
    pub max_targets: u64,
}

/// The four rows of the summary table.
#[derive(Clone, Copy, Debug, PartialEq, Eq, Structural)]
pub enum Rank {
    /// The shortest path.
    Shortest,
    /// The longest path.
    Longest,
    /// The fastest path.
    Fastest,
    /// The slowest path.
    Slowest,
}

/// The label of a row of the summary.
pub open spec fn rank_text(r: Rank) -> Seq<char> {
    match r {
        Rank::Shortest => "shortest"@,
        Rank::Longest => "longest"@,
        Rank::Fastest => "fastest"@,
        Rank::Slowest => "slowest"@,
    }
}

/// The label of a row of the summary.
fn rank_label(r: Rank) -> (s: String)
    ensures
        s@ == rank_text(r),
{
    match r {
        Rank::Shortest => "shortest".to_owned(),
        Rank::Longest => "longest".to_owned(),
        Rank::Fastest => "fastest".to_owned(),
        Rank::Slowest => "slowest".to_owned(),
    }
}

/// The key of the time of a score; a score of no time ranks after every
/// score of one.
pub open spec fn time_of(s: Score) -> int {
    match s.time_key {
        Some(k) => k as int,
        None => u64::MAX as int + 1,
    }
}

/// True when the first score beats the second one for a row.
pub open spec fn beats(rank: Rank, a: Score, b: Score) -> bool {
    match rank {
        Rank::Shortest => a.length < b.length,
        Rank::Longest => a.length > b.length,
        Rank::Fastest => time_of(a) < time_of(b),
        Rank::Slowest => time_of(a) > time_of(b),
    }
}

/// True when the first score beats the second one for a row.
fn beats_exec(rank: Rank, a: &Score, b: &Score) -> (r: bool)
    ensures
        r == beats(rank, *a, *b),
{
    let ta: u128 = match a.time_key {
        Some(k) => k as u128,
        None => u64::MAX as u128 + 1,
    };
    let tb: u128 = match b.time_key {
        Some(k) => k as u128,
        None => u64::MAX as u128 + 1,
    };
    match rank {
        Rank::Shortest => a.length < b.length,
        Rank::Longest => a.length > b.length,
        Rank::Fastest => ta < tb,
        Rank::Slowest => ta > tb,
    }
}

/// The first score of the candidates that beats every other one.
///
/// The beat is strict, so the first of two scores that tie keeps the row: a
/// hunt therefore ranks the destination it traced first, and two runs of one
/// seed print the same table.
pub fn pick(scores: &Vec<Score>, candidates: &Vec<usize>, rank: Rank) -> (best: Option<usize>)
    requires
        forall|i: int| 0 <= i < candidates@.len() ==> #[trigger] candidates@[i] < scores@.len(),
    ensures
        candidates@.len() == 0 <==> best is None,
        best matches Some(b) ==> exists|i: int|
            0 <= i < candidates@.len() && candidates@[i] == b && (forall|j: int|
                0 <= j < candidates@.len() ==> !beats(
                    rank,
                    #[trigger] scores@[candidates@[j] as int],
                    scores@[b as int],
                )) && (forall|j: int|
                0 <= j < i ==> beats(rank, scores@[b as int], #[trigger] scores@[candidates@[j] as int])),
{
    let mut best: Option<usize> = None;
    let ghost mut place: int = 0;
    let mut k: usize = 0;
    while k < candidates.len()
        invariant
            0 <= k <= candidates@.len(),
            forall|i: int| 0 <= i < candidates@.len() ==> #[trigger] candidates@[i] < scores@.len(),
            k == 0 <==> best is None,
            best matches Some(b) ==> {
                &&& 0 <= place < k
                &&& candidates@[place] == b
                &&& forall|j: int|
                    0 <= j < k ==> !beats(rank, #[trigger] scores@[candidates@[j] as int], scores@[b as int])
                &&& forall|j: int|
                    0 <= j < place ==> beats(rank, scores@[b as int], #[trigger] scores@[candidates@[j] as int])
            },
        decreases candidates@.len() - k,
    {
        let c = candidates[k];
        let take = match best {
            None => true,
            Some(b) => beats_exec(rank, &scores[c], &scores[b]),
        };
        if take {
            proof {
                place = k as int;
            }
            best = Some(c);
        }
        k = k + 1;
    }
    best
}

/// The indices of the scores that compete for a row: every score of a hunt
/// that included partial paths, and the reached ones of any other hunt.
pub open spec fn competes(s: Score, include_partial: bool) -> bool {
    include_partial || s.kind == PathKind::Reached
}

/// What a hunt found, and what it cost.
pub struct Summary {
    /// The score of each destination, in the order the hunt traced them.
    scores: Vec<Score>,
    /// The time that the whole hunt took.
    elapsed: Period,
    /// The number of destinations whose tracer started.
    targets: u64,
    /// The two numbers that stopped the hunt.
    bounds: Bounds,
    /// True when a partial path competes for a row of the table.
    include_partial: bool,
}

/// The words of the summary of a hunt that ranked no path.
pub const NOTHING_TO_RANK: &'static str = "no destination gave a path to rank";

/// The text between two fields of the line that counts the hunt.
pub const FIELD_SEPARATOR: &'static str = "   ";

/// The number of scores of a list that reached their destination.
pub open spec fn reached_count(scores: Seq<Score>) -> nat
    decreases scores.len(),
{
    if scores.len() == 0 {
        0
    } else {
        reached_count(scores.drop_last()) + if scores.last().kind == PathKind::Reached {
            1nat
        } else {
            0nat
        }
    }
}

/// The line that counts what the hunt did.
pub open spec fn counts_text(scores: Seq<Score>, elapsed: Period, targets: u64, bounds: Bounds) -> Seq<char> {
    decimal(reached_count(scores)) + seq!['/'] + decimal(bounds.rounds as nat) + " reached"@
        + FIELD_SEPARATOR@ + decimal(targets as nat) + seq!['/'] + decimal(bounds.max_targets as nat)
        + " targets"@ + FIELD_SEPARATOR@ + decimal((scores.len() - reached_count(scores)) as nat)
        + " partial"@ + FIELD_SEPARATOR@ + duration_text(elapsed)
}

/// The count of the destinations that answered is the number of scores
/// whose path reached its destination.
pub proof fn law_reached_count_counts_reached_paths(scores: Seq<Score>)
    ensures
        Set::new(|i: int| 0 <= i < scores.len() && scores[i].kind == PathKind::Reached).finite(),
        reached_count(scores) == Set::new(|i: int| 0 <= i < scores.len() && scores[i].kind == PathKind::Reached).len(),
    decreases scores.len(),
{
    let all = Set::new(|i: int| 0 <= i < scores.len() && scores[i].kind == PathKind::Reached);
    if scores.len() == 0 {
        assert(all =~= Set::<int>::empty());
    } else {
        let rest = scores.drop_last();
        let n = scores.len() - 1;
        law_reached_count_counts_reached_paths(rest);
        let before = Set::new(|i: int| 0 <= i < rest.len() && rest[i].kind == PathKind::Reached);
        assert(scores[n] == scores.last());
        assert forall|i: int| 0 <= i < n implies #[trigger] scores[i] == rest[i] by {}
        assert(!before.contains(n));
        if scores.last().kind == PathKind::Reached {
            assert(all =~= before.insert(n));
        } else {
            assert(all =~= before);
        }
    }
}

proof fn lemma_reached_count_bound(scores: Seq<Score>)
    ensures
        reached_count(scores) <= scores.len(),
    decreases scores.len(),
{
    if scores.len() > 0 {
        lemma_reached_count_bound(scores.drop_last());
    }
}

impl Summary {
    /// The scores of the summary.
    pub closed spec fn scores_view(&self) -> Seq<Score> {
        self.scores@
    }

    /// The time that the hunt took.
    pub closed spec fn elapsed_view(&self) -> Period {
        self.elapsed
    }

    /// The number of destinations whose tracer started.
    pub closed spec fn targets_view(&self) -> u64 {
        self.targets
    }

    /// The two numbers that stopped the hunt.
    pub closed spec fn bounds_view(&self) -> Bounds {
        self.bounds
    }

    /// True when a partial path competes for a row.
    pub closed spec fn include_partial_view(&self) -> bool {
        self.include_partial
    }

    /// Builds the summary of one hunt.
    pub fn new(scores: Vec<Score>, elapsed: Period, targets: u64, bounds: Bounds, include_partial: bool) -> (s:
        Summary)
        ensures
            s.scores_view() == scores@,
            s.elapsed_view() == elapsed,
            s.targets_view() == targets,
            s.bounds_view() == bounds,
            s.include_partial_view() == include_partial,
    {
        Summary { scores, elapsed, targets, bounds, include_partial }
    }

    /// The line that counts what the hunt did: the destinations that answered
    /// against the rounds the hunt wanted, the destinations it started against
    /// the cap, the partial paths, and the time it took.
    pub fn counts(&self) -> (t: String)
        requires
            self.elapsed_view().wf(),
        ensures
            t@ == counts_text(self.scores_view(), self.elapsed_view(), self.targets_view(), self.bounds_view()),
    {
        let mut reached: usize = 0;
        let mut k: usize = 0;
        while k < self.scores.len()
            invariant
                0 <= k <= self.scores@.len(),
                reached as nat == reached_count(self.scores@.subrange(0, k as int)),
                reached <= k,
            decreases self.scores@.len() - k,
        {
            proof {
                assert(self.scores@.subrange(0, k + 1).drop_last() =~= self.scores@.subrange(0, k as int));
            }
            if self.scores[k].kind == PathKind::Reached {
                reached = reached + 1;
            }
            k = k + 1;
        }
        proof {
            assert(self.scores@.subrange(0, self.scores@.len() as int) =~= self.scores@);
        }
        let mut t = decimal_text(reached as u128);
        push_char(&mut t, '/');
        let r = decimal_text(self.bounds.rounds as u128);
        t.append(r.as_str());
        t.append(" reached");
        t.append(FIELD_SEPARATOR);
        let targets = decimal_text(self.targets as u128);
        t.append(targets.as_str());
        push_char(&mut t, '/');
        let max = decimal_text(self.bounds.max_targets as u128);
        t.append(max.as_str());
        t.append(" targets");
        t.append(FIELD_SEPARATOR);
        let partial = decimal_text((self.scores.len() - reached) as u128);
        t.append(partial.as_str());
        t.append(" partial");
        t.append(FIELD_SEPARATOR);
        let elapsed = render_duration(self.elapsed);
        t.append(elapsed.as_str());
        t
    }
}

} // verus!

verus! {

/// The one column that a row of the summary stands in from the left edge.
pub const ROW_START: &'static str = " ";

/// The text between two columns of the summary table.
pub const COLUMN_GAP: &'static str = "  ";

/// Whether a character is drawn two terminal columns wide: the blocks of the
/// East Asian wide and full-width characters (Hangul Jamo, CJK, Hiragana,
/// Katakana, Hangul syllables, full-width forms) and the pictographs of the
/// emoji blocks.
pub open spec fn is_wide(c: char) -> bool {
    let v = c as int;
    ||| 0x1100 <= v <= 0x115F
    ||| 0x2329 <= v <= 0x232A
    ||| 0x2E80 <= v <= 0x303E
    ||| 0x3041 <= v <= 0x33FF
    ||| 0x3400 <= v <= 0x4DBF
    ||| 0x4E00 <= v <= 0x9FFF
    ||| 0xA000 <= v <= 0xA4CF
    ||| 0xAC00 <= v <= 0xD7A3
    ||| 0xF900 <= v <= 0xFAFF
    ||| 0xFE30 <= v <= 0xFE4F
    ||| 0xFF00 <= v <= 0xFF60
    ||| 0xFFE0 <= v <= 0xFFE6
    ||| 0x1F300 <= v <= 0x1F64F
    ||| 0x1F900 <= v <= 0x1F9FF
    ||| 0x20000 <= v <= 0x2FFFD
    ||| 0x30000 <= v <= 0x3FFFD
}

/// The terminal columns that one character takes.
pub open spec fn char_columns(c: char) -> nat {
    if is_wide(c) {
        2
    } else {
        1
    }
}

/// The terminal columns that a text takes, character by character.
pub open spec fn columns_of(t: Seq<char>) -> nat
    decreases t.len(),
{
    if t.len() == 0 {
        0
    } else {
        columns_of(t.drop_last()) + char_columns(t.last())
    }
}

/// The number of terminal columns that a text takes: two for a wide glyph,
/// one for any other character.
///
/// The count stops at `usize::MAX`, which no text that fits in memory
/// reaches: it holds at most `isize::MAX` bytes, and a wide glyph takes at
/// least two of them.
pub open spec fn width_of(t: Seq<char>) -> nat {
    if columns_of(t) > usize::MAX {
        usize::MAX as nat
    } else {
        columns_of(t)
    }
}

/// Whether a character is drawn two terminal columns wide.
pub fn is_wide_char(c: char) -> (b: bool)
    ensures
        b == is_wide(c),
{
    let v = c as u32;
    (0x1100 <= v && v <= 0x115F) || (0x2329 <= v && v <= 0x232A) || (0x2E80 <= v && v
        <= 0x303E) || (0x3041 <= v && v <= 0x33FF) || (0x3400 <= v && v <= 0x4DBF) || (0x4E00
        <= v && v <= 0x9FFF) || (0xA000 <= v && v <= 0xA4CF) || (0xAC00 <= v && v <= 0xD7A3)
        || (0xF900 <= v && v <= 0xFAFF) || (0xFE30 <= v && v <= 0xFE4F) || (0xFF00 <= v && v
        <= 0xFF60) || (0xFFE0 <= v && v <= 0xFFE6) || (0x1F300 <= v && v <= 0x1F64F) || (
    0x1F900 <= v && v <= 0x1F9FF) || (0x20000 <= v && v <= 0x2FFFD) || (0x30000 <= v && v
        <= 0x3FFFD)
}

/// The number of terminal columns that a text takes.
pub fn display_width(text: &str) -> (w: usize)
    ensures
        w as nat == width_of(text@),
{
    let len = text.unicode_len();
    let mut w: usize = 0;
    let mut i: usize = 0;
    while i < len
        invariant
            0 <= i <= len,
            len == text@.len(),
            w as nat == width_of(text@.subrange(0, i as int)),
        decreases len - i,
    {
        let c = text.get_char(i);
        let step: usize = if is_wide_char(c) {
            2
        } else {
            1
        };
        proof {
            let t = text@.subrange(0, i + 1);
            assert(t.drop_last() =~= text@.subrange(0, i as int));
            assert(t.last() == c);
            assert(columns_of(t) == columns_of(text@.subrange(0, i as int)) + char_columns(c));
        }
        w = w.saturating_add(step);
        i = i + 1;
    }
    proof {
        assert(text@.subrange(0, len as int) =~= text@);
    }
    w
}

/// One cell, padded to the width of its column: spaces in front of a cell
/// that stands against the right edge, and behind any other cell.
pub open spec fn padded_cell(cell: Seq<char>, width: nat, right: bool) -> Seq<char> {
    let spaces = Seq::new(
        if width > width_of(cell) {
            (width - width_of(cell)) as nat
        } else {
            0
        },
        |_i: int| ' ',
    );
    if right {
        spaces + cell
    } else {
        cell + spaces
    }
}

/// One cell, padded to the width of its column.
///
/// The measure is in terminal columns, not in bytes or characters: a name
/// that holds a wide glyph keeps its column.
pub fn pad(cell: &str, width: usize, right: bool) -> (s: String)
    ensures
        s@ == padded_cell(cell@, width as nat, right),
{
    let len = display_width(cell);
    let count = if width > len {
        width - len
    } else {
        0
    };
    let mut spaces = String::new();
    let mut k: usize = 0;
    while k < count
        invariant
            0 <= k <= count,
            spaces@ == Seq::new(k as nat, |_i: int| ' '),
        decreases count - k,
    {
        push_char(&mut spaces, ' ');
        k = k + 1;
        proof {
            assert(spaces@ =~= Seq::new(k as nat, |_i: int| ' '));
        }
    }
    if right {
        spaces.append(cell);
        return spaces;
    }
    let mut s = cell.to_owned();
    s.append(spaces.as_str());
    s
}

/// A text without the white space at its end.
pub open spec fn trimmed_end(t: Seq<char>) -> Seq<char> {
    t.subrange(0, t.len() - trailing_space(t))
}

/// The text of a line without the white space at its end.
///
/// The call is `str::trim_end`, whose documentation removes the characters of
/// the Unicode property `White_Space` from the end; the contract says that.
#[verifier::external_body]
fn trim_end_text(text: &str) -> (t: String)
    ensures
        t@ == trimmed_end(text@),
{
    text.trim_end().to_owned()
}

/// The columns of the summary table that stand against their right edge:
/// the length, the mean time, the loss, and the gaps.
pub open spec fn column_right(c: int) -> bool {
    c == 2 || c == 4 || c == 5 || c == 6
}

/// Whether a column of the summary table stands against its right edge.
fn is_right(c: usize) -> (r: bool)
    ensures
        r == column_right(c as int),
{
    c == 2 || c == 4 || c == 5 || c == 6
}

/// The number of columns of the summary table.
pub const COLUMN_COUNT: usize = 8;

/// The padded cells of a line, from the first up to `n`, with the gap of the
/// columns between two of them.
pub open spec fn joined_cells(cells: Seq<Seq<char>>, widths: Seq<usize>, n: int) -> Seq<char>
    decreases n,
{
    if n <= 0 {
        Seq::empty()
    } else if n == 1 {
        padded_cell(cells[0], widths[0] as nat, column_right(0))
    } else {
        joined_cells(cells, widths, n - 1) + COLUMN_GAP@ + padded_cell(
            cells[n - 1],
            widths[n - 1] as nat,
            column_right(n - 1),
        )
    }
}

/// The number of cells that a line holds: the cells that have a width and a
/// column.
pub open spec fn line_cells(cells: Seq<Seq<char>>, widths: Seq<usize>) -> int {
    let n = if cells.len() < widths.len() {
        cells.len()
    } else {
        widths.len()
    };
    if n < 8 {
        n as int
    } else {
        8
    }
}

/// One line of the table: every cell, padded to the width of its column,
/// after the one column of the left edge, and without the spaces that follow
/// the last cell.
pub open spec fn line_text(cells: Seq<Seq<char>>, widths: Seq<usize>) -> Seq<char> {
    trimmed_end(ROW_START@ + joined_cells(cells, widths, line_cells(cells, widths)))
}

/// The views of a list of strings.
pub open spec fn cell_views(v: Seq<String>) -> Seq<Seq<char>> {
    v.map_values(|s: String| s@)
}

/// One line of the table: every cell, padded to the width of its column.
///
/// The line loses the spaces that follow its last cell. A trailing space says
/// nothing, and it turns a copy of the table into text that a reader must
/// clean.
pub fn line_of(cells: &Vec<String>, widths: &Vec<usize>) -> (s: String)
    ensures
        s@ == line_text(cell_views(cells@), widths@),
{
    let n: usize = if cells.len() < widths.len() {
        cells.len()
    } else {
        widths.len()
    };
    let n: usize = if n < COLUMN_COUNT {
        n
    } else {
        COLUMN_COUNT
    };
    let ghost cv = cell_views(cells@);
    let mut line = String::from_str(ROW_START);
    let ghost head = line@;
    let mut k: usize = 0;
    while k < n
        invariant
            0 <= k <= n,
            n as int == line_cells(cv, widths@),
            n <= cells@.len(),
            n <= widths@.len(),
            cv == cell_views(cells@),
            line@ == head + joined_cells(cv, widths@, k as int),
        decreases n - k,
    {
        if k > 0 {
            line.append(COLUMN_GAP);
        }
        let cell = pad(cells[k].as_str(), widths[k], is_right(k));
        line.append(cell.as_str());
        proof {
            assert(cv[k as int] == cells@[k as int]@);
            if k == 0 {
                assert(joined_cells(cv, widths@, 0) =~= Seq::<char>::empty());
            }
            assert(line@ =~= head + joined_cells(cv, widths@, k + 1));
        }
        k = k + 1;
    }
    trim_end_text(line.as_str())
}

} // verus!

verus! {

/// True when a score competes for a row: a score that the hunt lets compete,
/// and for the rows of the time, a score that holds a time.
pub open spec fn eligible(s: Score, include_partial: bool, rank: Rank) -> bool {
    &&& competes(s, include_partial)
    &&& (rank == Rank::Fastest || rank == Rank::Slowest ==> s.time_key is Some)
}

/// True when the score at this place holds the row: it competes, no score
/// that competes beats it, and it beats every score that competes in front of
/// it.
pub open spec fn holds_row(scores: Seq<Score>, include_partial: bool, rank: Rank, i: int) -> bool {
    &&& 0 <= i < scores.len()
    &&& eligible(scores[i], include_partial, rank)
    &&& forall|j: int|
        0 <= j < scores.len() && eligible(#[trigger] scores[j], include_partial, rank) ==> !beats(
            rank,
            scores[j],
            scores[i],
        )
    &&& forall|j: int|
        0 <= j < i && eligible(#[trigger] scores[j], include_partial, rank) ==> beats(
            rank,
            scores[i],
            scores[j],
        )
}

/// True when the score at place `i` stands at the extreme that a row reads.
///
/// It competes, and the measure of the row, the length of the path for the
/// shortest and the longest rows and the key of the mean time for the
/// fastest and the slowest rows, is no worse at `i` than at any score that
/// competes, and strictly better than at every score that competes in front
/// of it. A score of no time competes for neither row of the time.
pub open spec fn is_row_extreme(scores: Seq<Score>, include_partial: bool, rank: Rank, i: int) -> bool {
    &&& 0 <= i < scores.len()
    &&& competes(scores[i], include_partial)
    &&& match rank {
        Rank::Shortest => forall|j: int|
            0 <= j < scores.len() && competes(#[trigger] scores[j], include_partial) ==> scores[i].length
                <= scores[j].length && (j < i ==> scores[i].length < scores[j].length),
        Rank::Longest => forall|j: int|
            0 <= j < scores.len() && competes(#[trigger] scores[j], include_partial) ==> scores[i].length
                >= scores[j].length && (j < i ==> scores[i].length > scores[j].length),
        Rank::Fastest => {
            &&& scores[i].time_key is Some
            &&& forall|j: int|
                0 <= j < scores.len() && competes(#[trigger] scores[j], include_partial)
                    && scores[j].time_key is Some ==> scores[i].time_key.unwrap() <= scores[j].time_key.unwrap()
                    && (j < i ==> scores[i].time_key.unwrap() < scores[j].time_key.unwrap())
        },
        Rank::Slowest => {
            &&& scores[i].time_key is Some
            &&& forall|j: int|
                0 <= j < scores.len() && competes(#[trigger] scores[j], include_partial)
                    && scores[j].time_key is Some ==> scores[i].time_key.unwrap() >= scores[j].time_key.unwrap()
                    && (j < i ==> scores[i].time_key.unwrap() > scores[j].time_key.unwrap())
        },
    }
}

/// The score that holds a row stands at the extreme of that row: the
/// shortest row holds the shortest competing path, the longest row the
/// longest, the fastest row the smallest key of the mean time among the
/// competing scores that hold a time, and the slowest row the largest; of
/// scores that tie, the one the hunt traced first.
pub proof fn law_row_holds_the_extreme(scores: Seq<Score>, include_partial: bool, rank: Rank, i: int)
    requires
        holds_row(scores, include_partial, rank, i),
    ensures
        is_row_extreme(scores, include_partial, rank, i),
{
    assert forall|j: int|
        0 <= j < scores.len() && competes(#[trigger] scores[j], include_partial) && (rank == Rank::Shortest
            || rank == Rank::Longest || scores[j].time_key is Some) implies !beats(rank, scores[j], scores[i])
        && (j < i ==> beats(rank, scores[i], scores[j])) by {
        assert(eligible(scores[j], include_partial, rank));
    }
}

/// True when some score competes for a row.
pub open spec fn row_held(scores: Seq<Score>, include_partial: bool, rank: Rank) -> bool {
    exists|j: int| 0 <= j < scores.len() && eligible(#[trigger] scores[j], include_partial, rank)
}

/// The four rows, in the order they print, that some score holds.
pub open spec fn held_ranks(scores: Seq<Score>, include_partial: bool) -> Seq<Rank> {
    let all = seq![Rank::Shortest, Rank::Longest, Rank::Fastest, Rank::Slowest];
    all.filter(|r: Rank| row_held(scores, include_partial, r))
}

/// The places of the scores that compete for a row, in order.
fn eligible_places(scores: &Vec<Score>, include_partial: bool, rank: Rank) -> (places: Vec<usize>)
    ensures
        forall|p: int| 0 <= p < places@.len() ==> #[trigger] places@[p] < scores@.len() && eligible(
            scores@[places@[p] as int],
            include_partial,
            rank,
        ),
        forall|p: int, q: int| 0 <= p < q < places@.len() ==> #[trigger] places@[p] < #[trigger] places@[q],
        forall|j: int|
            0 <= j < scores@.len() && eligible(#[trigger] scores@[j], include_partial, rank) ==> exists|
                p: int,
            | 0 <= p < places@.len() && places@[p] == j,
{
    let mut places: Vec<usize> = Vec::new();
    let mut k: usize = 0;
    while k < scores.len()
        invariant
            0 <= k <= scores@.len(),
            forall|p: int| 0 <= p < places@.len() ==> #[trigger] places@[p] < k && eligible(
                scores@[places@[p] as int],
                include_partial,
                rank,
            ),
            forall|p: int, q: int| 0 <= p < q < places@.len() ==> #[trigger] places@[p] < #[trigger] places@[q],
            forall|j: int|
                0 <= j < k && eligible(#[trigger] scores@[j], include_partial, rank) ==> exists|p: int|
                    0 <= p < places@.len() && places@[p] == j,
        decreases scores@.len() - k,
    {
        let s = &scores[k];
        let competing = include_partial || s.kind == PathKind::Reached;
        let timed = s.time_key.is_some();
        let fits = match rank {
            Rank::Fastest => competing && timed,
            Rank::Slowest => competing && timed,
            _ => competing,
        };
        if fits {
            let ghost before = places@;
            places.push(k);
            proof {
                assert forall|j: int|
                    0 <= j < k + 1 && eligible(#[trigger] scores@[j], include_partial, rank) implies exists|
                    p: int,
                | 0 <= p < places@.len() && places@[p] == j by {
                    if j == k {
                        assert(places@[before.len() as int] == k);
                    } else {
                        let p = choose|p: int| 0 <= p < before.len() && before[p] == j;
                        assert(places@[p] == j);
                    }
                }
            }
        }
        k = k + 1;
    }
    places
}

/// The score that holds one row, when some score competes for it.
fn row_of(scores: &Vec<Score>, include_partial: bool, rank: Rank) -> (r: Option<usize>)
    ensures
        r is None <==> !row_held(scores@, include_partial, rank),
        r matches Some(i) ==> holds_row(scores@, include_partial, rank, i as int),
{
    let places = eligible_places(scores, include_partial, rank);
    let best = pick(scores, &places, rank);
    match best {
        Some(b) => {
            proof {
                let i = choose|i: int|
                    0 <= i < places@.len() && places@[i] == b && (forall|j: int|
                        0 <= j < places@.len() ==> !beats(
                            rank,
                            #[trigger] scores@[places@[j] as int],
                            scores@[b as int],
                        )) && (forall|j: int|
                        0 <= j < i ==> beats(
                            rank,
                            scores@[b as int],
                            #[trigger] scores@[places@[j] as int],
                        ));
                assert forall|j: int|
                    0 <= j < scores@.len() && eligible(#[trigger] scores@[j], include_partial, rank) implies !beats(
                    rank,
                    scores@[j],
                    scores@[b as int],
                ) by {
                    let p = choose|p: int| 0 <= p < places@.len() && places@[p] == j;
                    assert(scores@[places@[p] as int] == scores@[j]);
                }
                assert forall|j: int|
                    0 <= j < b && eligible(#[trigger] scores@[j], include_partial, rank) implies beats(
                    rank,
                    scores@[b as int],
                    scores@[j],
                ) by {
                    let p = choose|p: int| 0 <= p < places@.len() && places@[p] == j;
                    if p >= i {
                        if p > i {
                            assert(places@[i] < places@[p]);
                        }
                    }
                    assert(p < i);
                    assert(scores@[places@[p] as int] == scores@[j]);
                }
            }
            Some(b)
        },
        None => {
            proof {
                if row_held(scores@, include_partial, rank) {
                    let j = choose|j: int| 0 <= j < scores@.len() && eligible(#[trigger] scores@[j], include_partial, rank);
                    let p = choose|p: int| 0 <= p < places@.len() && places@[p] == j;
                }
            }
            None
        },
    }
}

impl Summary {
    /// The rows of the table, in the order they print: each row that some
    /// score holds, with the place of the score that holds it.
    ///
    /// A row that no destination holds is absent. The fastest and the slowest
    /// rows read the scores that hold a time alone.
    pub fn ranked(&self) -> (rows: Vec<(Rank, usize)>)
        ensures
            forall|k: int|
                0 <= k < rows@.len() ==> is_row_extreme(
                    self.scores_view(),
                    self.include_partial_view(),
                    (#[trigger] rows@[k]).0,
                    rows@[k].1 as int,
                ),
            rows@.map_values(|r: (Rank, usize)| r.0) == held_ranks(self.scores_view(), self.include_partial_view()),
            forall|k: int|
                0 <= k < rows@.len() ==> holds_row(
                    self.scores_view(),
                    self.include_partial_view(),
                    (#[trigger] rows@[k]).0,
                    rows@[k].1 as int,
                ),
    {
        let mut rows: Vec<(Rank, usize)> = Vec::new();
        let ranks = [Rank::Shortest, Rank::Longest, Rank::Fastest, Rank::Slowest];
        let ghost all = seq![Rank::Shortest, Rank::Longest, Rank::Fastest, Rank::Slowest];
        proof {
            assert(ranks@ =~= all);
        }
        let mut k: usize = 0;
        while k < 4
            invariant
                0 <= k <= 4,
                ranks@ == all,
                all == seq![Rank::Shortest, Rank::Longest, Rank::Fastest, Rank::Slowest],
                rows@.map_values(|r: (Rank, usize)| r.0) == all.subrange(0, k as int).filter(
                    |r: Rank| row_held(self.scores@, self.include_partial, r),
                ),
                forall|q: int|
                    0 <= q < rows@.len() ==> holds_row(
                        self.scores@,
                        self.include_partial,
                        (#[trigger] rows@[q]).0,
                        rows@[q].1 as int,
                    ),
            decreases 4 - k,
        {
            let rank = ranks[k];
            let ghost f = |r: Rank| row_held(self.scores@, self.include_partial, r);
            proof {
                assert(all.subrange(0, k + 1) =~= all.subrange(0, k as int).push(rank));
                reveal(Seq::filter);
                assert(all.subrange(0, k + 1).drop_last() =~= all.subrange(0, k as int));
                assert(all.subrange(0, k + 1).last() == rank);
            }
            match row_of(&self.scores, self.include_partial, rank) {
                Some(i) => {
                    rows.push((rank, i));
                    proof {
                        assert(rows@.map_values(|r: (Rank, usize)| r.0) =~= all.subrange(0, k as int).filter(
                            f,
                        ).push(rank));
                    }
                },
                None => {},
            }
            k = k + 1;
        }
        proof {
            assert(all.subrange(0, 4) =~= all);
        }
        assert(rows@.map_values(|r: (Rank, usize)| r.0) == held_ranks(self.scores@, self.include_partial));
        proof {
            assert forall|k: int| 0 <= k < rows@.len() implies is_row_extreme(
                self.scores@,
                self.include_partial,
                (#[trigger] rows@[k]).0,
                rows@[k].1 as int,
            ) by {
                law_row_holds_the_extreme(self.scores@, self.include_partial, rows@[k].0, rows@[k].1 as int);
            }
        }
        rows
    }
}

} // verus!

verus! {

/// The headings of the columns of the summary table.
pub open spec fn headings() -> Seq<Seq<char>> {
    seq!["Row"@, "Host"@, "Len"@, "Path"@, "Avg"@, "Loss%"@, "Gaps"@, "Run"@]
}

/// The cells of one row of the summary table.
pub open spec fn row_cells(scores: Seq<Score>, row: (Rank, usize)) -> Seq<Seq<char>> {
    let s = scores[row.1 as int];
    seq![
        rank_text(row.0),
        host_text(s),
        decimal(s.length as nat),
        kind_text(s.kind),
        s.avg_cell@,
        s.loss_cell@,
        decimal(s.gaps as nat),
        s.run@,
    ]
}

/// The width of one column: the widest cell it holds, and its own heading.
pub open spec fn column_width(cells: Seq<Seq<Seq<char>>>, heading: Seq<char>, c: int) -> nat
    decreases cells.len(),
{
    if cells.len() == 0 {
        width_of(heading)
    } else {
        let before = column_width(cells.drop_last(), heading, c);
        let here = width_of(cells.last()[c]);
        if here > before {
            here
        } else {
            before
        }
    }
}

/// The cells of every row of the table.
pub open spec fn table_cells(scores: Seq<Score>, rows: Seq<(Rank, usize)>) -> Seq<Seq<Seq<char>>> {
    rows.map_values(|r: (Rank, usize)| row_cells(scores, r))
}

/// The lines of the table: the line of the headings, and one line for each
/// row, each column as wide as its widest cell.
pub open spec fn table_text(scores: Seq<Score>, rows: Seq<(Rank, usize)>, widths: Seq<usize>) -> Seq<Seq<char>> {
    seq![line_text(headings(), widths)] + table_cells(scores, rows).map_values(
        |cells: Seq<Seq<char>>| line_text(cells, widths),
    )
}

/// The widths of the columns of a table of these rows.
pub open spec fn widths_of(scores: Seq<Score>, rows: Seq<(Rank, usize)>, widths: Seq<usize>) -> bool {
    &&& widths.len() == 8
    &&& forall|c: int|
        0 <= c < 8 ==> #[trigger] widths[c] as nat == column_width(
            table_cells(scores, rows),
            headings()[c],
            c,
        )
}

/// The headings of the columns of the summary table.
fn heading_strings() -> (h: Vec<String>)
    ensures
        cell_views(h@) == headings(),
{
    let h = vec![
        "Row".to_owned(),
        "Host".to_owned(),
        "Len".to_owned(),
        "Path".to_owned(),
        "Avg".to_owned(),
        "Loss%".to_owned(),
        "Gaps".to_owned(),
        "Run".to_owned(),
    ];
    assert(cell_views(h@) =~= headings());
    h
}

/// The cells of one row of the summary table.
fn cells_of(scores: &Vec<Score>, row: (Rank, usize)) -> (cells: Vec<String>)
    requires
        row.1 < scores@.len(),
    ensures
        cell_views(cells@) == row_cells(scores@, row),
{
    let s = &scores[row.1];
    let cells = vec![
        rank_label(row.0),
        s.host_text(),
        decimal_text(s.length as u128),
        s.kind.text(),
        s.avg_cell.clone(),
        s.loss_cell.clone(),
        decimal_text(s.gaps as u128),
        s.run.to_text(),
    ];
    assert(cell_views(cells@) =~= row_cells(scores@, row));
    cells
}

/// The lines of the table: the column header, and one line for each row.
///
/// Each column takes the width of the widest cell it holds, and of its own
/// heading, so no cell lands under the heading of another column.
pub fn table(scores: &Vec<Score>, rows: &Vec<(Rank, usize)>) -> (lines: Vec<String>)
    requires
        forall|k: int| 0 <= k < rows@.len() ==> (#[trigger] rows@[k]).1 < scores@.len(),
    ensures
        exists|widths: Seq<usize>|
            widths_of(scores@, rows@, widths) && cell_views(lines@) == table_text(scores@, rows@, widths),
{
    let ghost tc = table_cells(scores@, rows@);
    let mut cells: Vec<Vec<String>> = Vec::new();
    let mut k: usize = 0;
    while k < rows.len()
        invariant
            0 <= k <= rows@.len(),
            forall|q: int| 0 <= q < rows@.len() ==> (#[trigger] rows@[q]).1 < scores@.len(),
            cells@.len() == k,
            forall|q: int| 0 <= q < k ==> cell_views(#[trigger] cells@[q]@) == row_cells(scores@, rows@[q]),
        decreases rows@.len() - k,
    {
        cells.push(cells_of(scores, rows[k]));
        k = k + 1;
    }
    let heads = heading_strings();
    proof {
        assert(heads@.len() == cell_views(heads@).len());
    }
    let mut widths: Vec<usize> = Vec::new();
    let mut c: usize = 0;
    while c < 8
        invariant
            0 <= c <= 8,
            heads@.len() == 8,
            cells@.len() == rows@.len(),
            forall|q: int| 0 <= q < rows@.len() ==> cell_views(#[trigger] cells@[q]@) == row_cells(scores@, rows@[q]),
            tc == table_cells(scores@, rows@),
            cell_views(heads@) == headings(),
            widths@.len() == c,
            forall|d: int| 0 <= d < c ==> #[trigger] widths@[d] as nat == column_width(tc, headings()[d], d),
        decreases 8 - c,
    {
        let mut width = display_width(heads[c].as_str());
        let mut r: usize = 0;
        proof {
            assert(tc.subrange(0, 0) =~= Seq::<Seq<Seq<char>>>::empty());
            assert(heads@[c as int]@ == headings()[c as int]);
        }
        while r < cells.len()
            invariant
                0 <= r <= cells@.len(),
                0 <= c < 8,
                cells@.len() == rows@.len(),
                forall|q: int| 0 <= q < rows@.len() ==> cell_views(#[trigger] cells@[q]@) == row_cells(scores@, rows@[q]),
                tc == table_cells(scores@, rows@),
                width as nat == column_width(tc.subrange(0, r as int), headings()[c as int], c as int),
            decreases cells@.len() - r,
        {
            proof {
                assert(tc.subrange(0, r + 1).drop_last() =~= tc.subrange(0, r as int));
                assert(tc.subrange(0, r + 1).last() == row_cells(scores@, rows@[r as int]));
                assert(cell_views(cells@[r as int]@)[c as int] == cells@[r as int]@[c as int]@);
            }
            let here = display_width(cells[r][c].as_str());
            if here > width {
                width = here;
            }
            r = r + 1;
        }
        proof {
            assert(tc.subrange(0, cells@.len() as int) =~= tc);
        }
        widths.push(width);
        c = c + 1;
    }
    let mut lines: Vec<String> = Vec::new();
    lines.push(line_of(&heads, &widths));
    let mut k: usize = 0;
    while k < cells.len()
        invariant
            0 <= k <= cells@.len(),
            cells@.len() == rows@.len(),
            forall|q: int| 0 <= q < rows@.len() ==> cell_views(#[trigger] cells@[q]@) == row_cells(scores@, rows@[q]),
            lines@.len() == k + 1,
            cell_views(lines@)[0] == line_text(headings(), widths@),
            forall|q: int| 0 <= q < k ==> (#[trigger] cell_views(lines@)[q + 1]) == line_text(
                row_cells(scores@, rows@[q]),
                widths@,
            ),
        decreases cells@.len() - k,
    {
        let line = line_of(&cells[k], &widths);
        let ghost before = cell_views(lines@);
        proof {
            assert(cell_views(cells@[k as int]@) == row_cells(scores@, rows@[k as int]));
        }
        lines.push(line);
        proof {
            assert(cell_views(lines@) =~= before.push(line@));
            assert forall|q: int| 0 <= q < k + 1 implies (#[trigger] cell_views(lines@)[q + 1]) == line_text(
                row_cells(scores@, rows@[q]),
                widths@,
            ) by {
                if q < k {
                    assert(cell_views(lines@)[q + 1] == before[q + 1]);
                } else {
                    assert(cell_views(lines@)[q + 1] == line@);
                }
            }
        }
        k = k + 1;
    }
    proof {
        let tt = table_text(scores@, rows@, widths@);
        assert(tt.len() == rows@.len() + 1);
        assert forall|q: int| 0 <= q < tt.len() implies #[trigger] tt[q] == cell_views(lines@)[q] by {
            if q > 0 {
                assert(tt[q] == line_text(table_cells(scores@, rows@)[q - 1], widths@));
                assert(table_cells(scores@, rows@)[q - 1] == row_cells(scores@, rows@[q - 1]));
                assert(cell_views(lines@)[(q - 1) + 1] == line_text(row_cells(scores@, rows@[q - 1]), widths@));
            }
        }
        assert(cell_views(lines@) =~= tt);
        assert(widths_of(scores@, rows@, widths@));
    }
    lines
}

/// The lines of the summary: the table, a blank line, and the counts; a hunt
/// that ranked no path says so in the place of the table.
pub open spec fn summary_text(
    scores: Seq<Score>,
    rows: Seq<(Rank, usize)>,
    widths: Seq<usize>,
    counts: Seq<char>,
) -> Seq<Seq<char>> {
    let head = if rows.len() == 0 {
        seq![ROW_START@ + NOTHING_TO_RANK@]
    } else {
        table_text(scores, rows, widths)
    };
    head + seq![Seq::<char>::empty(), counts]
}

/// The lines of a summary, out of the rows that it ranked and the widths of
/// its columns.
pub open spec fn summary_fits(
    scores: Seq<Score>,
    include_partial: bool,
    counts: Seq<char>,
    rows: Seq<(Rank, usize)>,
    widths: Seq<usize>,
    lines: Seq<Seq<char>>,
) -> bool {
    &&& rows.map_values(|r: (Rank, usize)| r.0) == held_ranks(scores, include_partial)
    &&& forall|k: int|
        0 <= k < rows.len() ==> holds_row(scores, include_partial, (#[trigger] rows[k]).0, rows[k].1 as int)
    &&& forall|k: int|
        0 <= k < rows.len() ==> is_row_extreme(scores, include_partial, (#[trigger] rows[k]).0, rows[k].1 as int)
    &&& rows.len() > 0 ==> widths_of(scores, rows, widths)
    &&& lines == summary_text(scores, rows, widths, counts)
}

impl Summary {
    /// The lines of the summary: the table, a blank line, and the counts.
    ///
    /// The table takes the width that its cells need, and it cuts no name.
    pub fn lines(&self) -> (lines: Vec<String>)
        requires
            self.elapsed_view().wf(),
        ensures
            exists|rows: Seq<(Rank, usize)>, widths: Seq<usize>|
                summary_fits(
                    self.scores_view(),
                    self.include_partial_view(),
                    counts_text(self.scores_view(), self.elapsed_view(), self.targets_view(), self.bounds_view()),
                    rows,
                    widths,
                    cell_views(lines@),
                ),
    {
        let ranked = self.ranked();
        let mut lines = if ranked.len() == 0 {
            let mut only = String::from_str(ROW_START);
            only.append(NOTHING_TO_RANK);
            let v = vec![only];
            proof {
                assert(cell_views(v@) =~= seq![ROW_START@ + NOTHING_TO_RANK@]);
            }
            v
        } else {
            proof {
                assert forall|k: int| 0 <= k < ranked@.len() implies (#[trigger] ranked@[k]).1 < self.scores@.len() by {
                    assert(holds_row(self.scores@, self.include_partial, ranked@[k].0, ranked@[k].1 as int));
                }
            }
            table(&self.scores, &ranked)
        };
        let ghost head = cell_views(lines@);
        lines.push(String::new());
        lines.push(self.counts());
        proof {
            assert(cell_views(lines@) =~= head + seq![Seq::<char>::empty(), counts_text(self.scores@, self.elapsed, self.targets, self.bounds)]);
            if ranked@.len() > 0 {
                let widths = choose|widths: Seq<usize>|
                    widths_of(self.scores@, ranked@, widths) && head == table_text(self.scores@, ranked@, widths);
                assert(summary_fits(self.scores@, self.include_partial, counts_text(self.scores@, self.elapsed, self.targets, self.bounds), ranked@, widths, cell_views(lines@)));
            } else {
                assert(summary_fits(self.scores@, self.include_partial, counts_text(self.scores@, self.elapsed, self.targets, self.bounds), ranked@, Seq::<usize>::empty(), cell_views(lines@)));
            }
        }
        lines
    }
}

} // verus!
