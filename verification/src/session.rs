//! The decisions that stand around the probes of one run: which address a
//! destination gives, which screen the run shows, the lines that it prints when
//! it stops, and which run of a recorded file a replay folds.

use crate::addr::{Addr, Family};
use crate::config::{family_text, AddressFamily};
use crate::period::Period;
use crate::record::{
    holds_run, ids_of, law_rounds_are_the_round_records_of_the_run, lemma_run_ids_name_each_run_once,
    places_rounds, rounds_of, EndReason, Record, Recording, Run, RunId, SourceKind, SourceLabel, Target, Truncated,
    truncated_text,
};
use crate::text::{counted, counted_text, push_char, push_quoted};
use crate::order::views;
use vstd::prelude::*;
use vstd::string::StringExecFns;

verus! {

/// The message of a destination that names no address to probe.
pub open spec fn no_address_text(destination: Seq<char>, family: AddressFamily) -> Seq<char> {
    match family {
        AddressFamily::Auto => seq!['`'] + destination + seq!['`']
            + " names no address: name a destination that resolves to one"@,
        AddressFamily::Version4 => seq!['`'] + destination + seq!['`'] + " names no "@ + family_text(
            family,
        ) + " address: drop `"@ + "-4"@ + "`, or name a destination that holds one"@,
        AddressFamily::Version6 => seq!['`'] + destination + seq!['`'] + " names no "@ + family_text(
            family,
        ) + " address: drop `"@ + "-6"@ + "`, or name a destination that holds one"@,
    }
}

/// Writes the reason that a destination names no address to probe.
///
/// A run that asked for one version names that version and the flag that
/// asks for it, so the user reads one line and corrects the command line. A
/// run that asked for no version names no flag.
pub fn no_address_message(destination: &str, family: AddressFamily) -> (s: String)
    ensures
        s@ == no_address_text(destination@, family),
{
    let mut s = String::new();
    push_quoted(&mut s, destination);
    match family {
        AddressFamily::Auto => {
            s.append(" names no address: name a destination that resolves to one");
        },
        AddressFamily::Version4 => {
            s.append(" names no ");
            let f = family.name();
            s.append(f.as_str());
            s.append(" address: drop `");
            s.append("-4");
            s.append("`, or name a destination that holds one");
        },
        AddressFamily::Version6 => {
            s.append(" names no ");
            let f = family.name();
            s.append(f.as_str());
            s.append(" address: drop `");
            s.append("-6");
            s.append("`, or name a destination that holds one");
        },
    }
    s
}

/// Why a destination names no address to probe.
#[derive(Clone, Debug, PartialEq, Eq)]
pub enum ResolveError {
    /// The resolver refused the destination.
    Lookup {
        /// The destination as the user typed it.
        destination: String,
        /// The reason that the resolver gave.
        reason: String,
    },
    /// The destination names no address of the version that the run asked
    /// for.
    NoAddress {
        /// The destination as the user typed it.
        destination: String,
        /// The IP version that the run asked for.
        family: AddressFamily,
    },
}

/// The message of a destination that names no address.
pub open spec fn resolve_error_text(e: ResolveError) -> Seq<char> {
    match e {
        ResolveError::Lookup { destination, reason } => seq!['`'] + destination@ + seq!['`']
            + " does not resolve: "@ + reason@,
        ResolveError::NoAddress { destination, family } => no_address_text(destination@, family),
    }
}

impl ResolveError {
    /// The message of the fault, as the user reads it.
    pub fn message(&self) -> (s: String)
        ensures
            s@ == resolve_error_text(*self),
    {
        match self {
            ResolveError::Lookup { destination, reason } => {
                let mut s = String::new();
                push_quoted(&mut s, destination.as_str());
                s.append(" does not resolve: ");
                s.append(reason.as_str());
                s
            },
            ResolveError::NoAddress { destination, family } => no_address_message(
                destination.as_str(),
                *family,
            ),
        }
    }
}

/// True when an address is of the version that the run asked for.
pub open spec fn fits_family(a: Addr, family: AddressFamily) -> bool {
    match family {
        AddressFamily::Auto => true,
        AddressFamily::Version4 => a is V4,
        AddressFamily::Version6 => a is V6,
    }
}

/// Picks the address of the version that the run asked for.
///
/// The `auto` family takes the first address that the resolver named,
/// whatever its version; the other two take the first address of their
/// version.
pub fn pick_address(found: &Vec<Addr>, family: AddressFamily) -> (r: Option<Addr>)
    ensures
        match r {
            Some(a) => exists|i: int|
                0 <= i < found@.len() && found@[i] == a && fits_family(a, family) && forall|j: int|
                    0 <= j < i ==> !fits_family(#[trigger] found@[j], family),
            None => forall|j: int| 0 <= j < found@.len() ==> !fits_family(#[trigger] found@[j], family),
        },
{
    let mut i: usize = 0;
    while i < found.len()
        invariant
            0 <= i <= found@.len(),
            forall|j: int| 0 <= j < i ==> !fits_family(#[trigger] found@[j], family),
        decreases found@.len() - i,
    {
        let a = found[i];
        let fits = match family {
            AddressFamily::Auto => true,
            AddressFamily::Version4 => a.is_ipv4(),
            AddressFamily::Version6 => a.is_ipv6(),
        };
        if fits {
            return Some(a);
        }
        i = i + 1;
    }
    None
}

/// The destination of a run, out of the answer that the resolver gave for
/// it.
///
/// A resolver that refused the destination gives its reason. A destination
/// that names no address of the version that the run asked for is a fault of
/// its own. Every other destination takes the address that
/// [`pick_address`] picks, and the version of that address.
pub fn target_from(destination: &str, found: Result<Vec<Addr>, String>, family: AddressFamily) -> (r:
    Result<Target, ResolveError>)
    ensures
        match found {
            Err(reason) => r matches Err(ResolveError::Lookup { destination: d, reason: why }) && d@
                == destination@ && why == reason,
            Ok(addrs) => match r {
                Ok(t) => t.arg@ == destination@ && t.family == t.addr.family_of() && exists|i: int|
                    0 <= i < addrs@.len() && addrs@[i] == t.addr && fits_family(t.addr, family)
                        && forall|j: int| 0 <= j < i ==> !fits_family(#[trigger] addrs@[j], family),
                Err(e) => e matches ResolveError::NoAddress { destination: d, family: f } && d@
                    == destination@ && f == family && forall|j: int|
                    0 <= j < addrs@.len() ==> !fits_family(#[trigger] addrs@[j], family),
            },
        },
{
    let addrs = match found {
        Ok(addrs) => addrs,
        Err(reason) => {
            return Err(ResolveError::Lookup { destination: destination.to_owned(), reason });
        },
    };
    match pick_address(&addrs, family) {
        Some(addr) => Ok(Target { arg: destination.to_owned(), addr, family: addr.family() }),
        None => Err(ResolveError::NoAddress { destination: destination.to_owned(), family }),
    }
}

/// The unspecified address of the family of an address.
pub fn unspecified_of(target: Addr) -> (a: Addr)
    ensures
        a == match target {
            Addr::V4(_) => Addr::V4(0),
            Addr::V6(_) => Addr::V6(0),
        },
{
    match target {
        Addr::V4(_) => Addr::V4(0),
        Addr::V6(_) => Addr::V6(0),
    }
}

/// What the search for the source address of a run found: the label that
/// the record carries, and a warning about it, when the search wrote one.
#[derive(Clone, Debug)]
pub struct Discovery {
    /// The source address, and how it was found.
    pub label: SourceLabel,
    /// The warning that the search wrote.
    pub note: Option<String>,
}

/// What the warning of an unread source address says after the reason.
pub const SOURCE_FALLBACK: &'static str = "The run records the unspecified address of the family in its place.";

/// The warning of a source address that did not read.
pub open spec fn source_warning_text(reason: Seq<char>) -> Seq<char> {
    "the source address did not read: "@ + reason + ". "@ + SOURCE_FALLBACK@
}

/// The label that the record carries, and the one line that standard error
/// takes before the display starts.
///
/// A machine that names no route to the target still records: a search that
/// read no address at all leaves the unspecified address of the family of the
/// target in the record, and the warning names the fault.
pub fn source_from(found: Result<Discovery, String>, target: Addr) -> (r: (SourceLabel, Option<String>))
    ensures
        match found {
            Ok(d) => r.0 == d.label && r.1 == d.note,
            Err(reason) => {
                &&& r.0 == (SourceLabel { addr: unspecified_of_spec(target), kind: SourceKind::Local })
                &&& r.1 matches Some(w) && w@ == source_warning_text(reason@)
            },
        },
{
    match found {
        Ok(discovery) => (discovery.label, discovery.note),
        Err(reason) => {
            let mut s = String::from_str("the source address did not read: ");
            s.append(reason.as_str());
            s.append(". ");
            s.append(SOURCE_FALLBACK);
            (SourceLabel { addr: unspecified_of(target), kind: SourceKind::Local }, Some(s))
        },
    }
}

/// The unspecified address of the family of an address.
pub open spec fn unspecified_of_spec(target: Addr) -> Addr {
    match target {
        Addr::V4(_) => Addr::V4(0),
        Addr::V6(_) => Addr::V6(0),
    }
}

/// The screen that a run shows.
#[derive(Clone, Copy, Debug, PartialEq, Eq, Structural)]
pub enum Display {
    /// The live table of the path, which holds the terminal and reads its
    /// keys.
    Table,
    /// One status line each minute, and no table.
    Headless,
}

/// The screen that a run shows, from the `--headless` flag and from whether
/// standard output is a terminal.
///
/// A run whose standard output is a pipe or a file has no terminal to hold,
/// so it takes the headless screen, and `--headless` asks for that same
/// screen from a run that does hold a terminal.
pub fn display_of(headless: bool, is_terminal: bool) -> (d: Display)
    ensures
        d == (if headless || !is_terminal {
            Display::Headless
        } else {
            Display::Table
        }),
{
    if headless || !is_terminal {
        return Display::Headless;
    }
    Display::Table
}

/// The pixel size of one character cell, when the run draws the Recent
/// column as an image of the whole history.
///
/// The answer is the size of a cell only when the reader asked for the
/// image, the terminal draws images and named itself, and the terminal
/// reports a pixel size.
pub fn graphics_of(asked: bool, draws_images_by_name: bool, cell: Option<(u32, u32)>) -> (r: Option<
    (u32, u32),
>)
    ensures
        r == (if asked && draws_images_by_name {
            cell
        } else {
            None
        }),
{
    if !asked || !draws_images_by_name {
        return None;
    }
    cell
}

/// Whether the frames of a live table carry the color of a terminal.
#[derive(Clone, Copy, Debug, PartialEq, Eq, Structural)]
pub enum Paint {
    /// The glyphs alone.
    Plain,
    /// The glyphs, and the red of a lost probe.
    Colored,
}

/// Whether the frames of a live table carry the color of a terminal, from
/// whether the reader set `NO_COLOR`.
pub fn paint_of(no_color: bool) -> (p: Paint)
    ensures
        p == (if no_color {
            Paint::Plain
        } else {
            Paint::Colored
        }),
{
    if no_color {
        return Paint::Plain;
    }
    Paint::Colored
}

/// The words of why a run stopped.
pub open spec fn stop_text(reason: EndReason) -> Seq<char> {
    match reason {
        EndReason::Quit => "the user stopped the run"@,
        EndReason::Duration => "the time limit stopped the run"@,
        EndReason::Rounds => "the round limit stopped the run"@,
        EndReason::Error => "a fault stopped the run"@,
    }
}

/// Names why a run stopped, for the line that a trace prints when it stops.
pub fn stop_reason(reason: EndReason) -> (s: &'static str)
    ensures
        s@ == stop_text(reason),
{
    match reason {
        EndReason::Quit => "the user stopped the run",
        EndReason::Duration => "the time limit stopped the run",
        EndReason::Rounds => "the round limit stopped the run",
        EndReason::Error => "a fault stopped the run",
    }
}

/// No two reasons that stop a run share their words, so a reader of the
/// closing line tells every reason apart.
pub proof fn lemma_stop_reasons_differ(a: EndReason, b: EndReason)
    ensures
        stop_text(a) == stop_text(b) ==> a == b,
{
    reveal_strlit("the user stopped the run");
    reveal_strlit("the time limit stopped the run");
    reveal_strlit("the round limit stopped the run");
    reveal_strlit("a fault stopped the run");
    assert("the user stopped the run"@.len() == 24);
    assert("the time limit stopped the run"@.len() == 30);
    assert("the round limit stopped the run"@.len() == 31);
    assert("a fault stopped the run"@.len() == 23);
    if a != b {
        assert(stop_text(a).len() != stop_text(b).len());
    }
}

/// How a run ended: the rounds it recorded, and why it stopped.
#[derive(Clone, Copy, Debug, PartialEq, Eq, Structural)]
pub struct Outcome {
    /// The number of rounds that the run recorded.
    pub rounds: u64,
    /// Why the run stopped.
    pub reason: EndReason,
}

/// The text between two fields of the closing line.
pub const SUMMARY_SEPARATOR: &'static str = "  ";

/// The one line that a trace prints when it stops.
pub open spec fn closing_text(outcome: Outcome, path: Seq<char>) -> Seq<char> {
    let rounds = if outcome.rounds > usize::MAX {
        usize::MAX as nat
    } else {
        outcome.rounds as nat
    };
    "recorded "@ + counted_text(rounds, "round"@) + SUMMARY_SEPARATOR@ + path + SUMMARY_SEPARATOR@
        + stop_text(outcome.reason)
}

/// Writes the one line that a trace prints when it stops.
///
/// The line holds the number of rounds that the run recorded, the file that
/// holds them, and why the run stopped. Two spaces separate the fields.
pub fn closing_line(outcome: &Outcome, path: &str) -> (s: String)
    ensures
        s@ == closing_text(*outcome, path@),
{
    let rounds: usize = if outcome.rounds > usize::MAX as u64 {
        usize::MAX
    } else {
        outcome.rounds as usize
    };
    let mut s = String::from_str("recorded ");
    let c = counted(rounds, "round");
    s.append(c.as_str());
    s.append(SUMMARY_SEPARATOR);
    s.append(path);
    s.append(SUMMARY_SEPARATOR);
    s.append(stop_reason(outcome.reason));
    s
}

/// The fault that stopped a trace, and the code that names its kind.
#[derive(Clone, Debug, PartialEq, Eq)]
pub struct TraceFailure {
    /// The reason, as the user reads it.
    pub reason: String,
    /// The exit code of that kind of fault.
    pub code: i32,
}

impl TraceFailure {
    /// Builds the fault from a reason and the code of its kind.
    pub fn new(reason: &str, code: i32) -> (f: TraceFailure)
        ensures
            f.reason@ == reason@,
            f.code == code,
    {
        TraceFailure { reason: reason.to_owned(), code }
    }
}

/// The exit code of a failure.
pub const EXIT_FAILURE: i32 = 1;

/// The exit code of a platform that needs raw socket privileges and does not
/// hold them.
pub const EXIT_NO_PRIVILEGES: i32 = 2;

/// The exit code of a run whose recorded file did not take a record.
pub const EXIT_WRITE_FAILED: i32 = 3;

/// The exit code of a run whose tracer stopped, or never started.
pub const EXIT_TRACER_FAILED: i32 = 4;

/// The reverse resolver that one run asks.
#[derive(Clone, Copy, Debug, PartialEq, Eq, Structural)]
pub enum Lookups {
    /// The system resolver of the platform.
    System,
    /// The resolver that looks nothing up.
    Off,
}

/// The reverse resolver of one run: `--no-dns` gives the resolver that looks
/// nothing up, so no lookup of such a run leaves the machine, and every other
/// run takes the system resolver of the platform.
pub fn resolver_of(reverse_dns: bool) -> (l: Lookups)
    ensures
        l == (if reverse_dns {
            Lookups::System
        } else {
            Lookups::Off
        }),
{
    if reverse_dns {
        Lookups::System
    } else {
        Lookups::Off
    }
}

/// The grace that a run gives its names after its last round: the timeout of
/// the reverse resolver, so every lookup that can still answer lands.
pub fn name_grace(resolver_timeout: Period) -> (grace: Period)
    ensures
        grace == resolver_timeout,
{
    resolver_timeout
}

/// The name of a path without its directory, as `Path::file_name` gives it:
/// the final component, or none for a path that ends in `..` or names the
/// root alone.
pub uninterp spec fn final_component(path: Seq<char>) -> Option<Seq<char>>;

/// The final component of a path, as `std::path::Path::file_name` gives it.
///
/// The contract names that component and says no more of it.
#[verifier::external_body]
fn path_file_name(path: &str) -> (r: Option<String>)
    ensures
        match r {
            Some(n) => final_component(path@) == Some(n@),
            None => final_component(path@) is None,
        },
{
    match std::path::Path::new(path).file_name() {
        Some(name) => Some(name.to_string_lossy().into_owned()),
        None => None,
    }
}

/// The name of a recorded file, without its directory.
///
/// A path that ends in no name keeps every part of itself, because a header
/// line that named no file at all would tell a reader less.
pub fn file_name(path: &str) -> (name: String)
    ensures
        name@ == match final_component(path@) {
            Some(n) => n,
            None => path@,
        },
{
    match path_file_name(path) {
        Some(name) => name,
        None => path.to_owned(),
    }
}

/// The reason of a file that holds no run to fold.
pub const NO_RUN: &'static str = "the file holds no run";

/// The text of the identifiers of the runs of a file, each one quoted, with a
/// comma between two.
pub open spec fn run_list_text(ids: Seq<Seq<char>>) -> Seq<char>
    decreases ids.len(),
{
    if ids.len() == 0 {
        Seq::empty()
    } else if ids.len() == 1 {
        seq!['`'] + ids[0] + seq!['`']
    } else {
        run_list_text(ids.drop_last()) + ", "@ + seq!['`'] + ids.last() + seq!['`']
    }
}

/// The identifiers of a list of runs.
pub open spec fn id_views(ids: Seq<RunId>) -> Seq<Seq<char>> {
    ids.map_values(|i: RunId| i@)
}

/// The reason of a file that holds no run to fold.
pub open spec fn no_run_text(path: Seq<char>, wanted: Option<Seq<char>>, held: Seq<Seq<char>>) -> Seq<char> {
    let reason = path + ": "@ + NO_RUN@;
    match wanted {
        Some(w) => if held.len() > 0 {
            reason + " "@ + seq!['`'] + w + seq!['`'] + ". "@ + "The runs of this file are"@ + " "@
                + run_list_text(held)
        } else {
            reason
        },
        None => reason,
    }
}

/// Writes the reason of a file that holds no run to fold.
///
/// A `--run` that names a run the file does not hold adds that identifier and
/// every run that the file does hold, so the user reads one line and corrects
/// the flag. A file that holds no run at all stops the message at the reason.
pub fn no_run_message(path: &str, wanted: Option<&str>, held: &Vec<RunId>) -> (s: String)
    ensures
        s@ == no_run_text(
            path@,
            match wanted {
                Some(w) => Some(w@),
                None => None,
            },
            id_views(held@),
        ),
{
    let mut s = path.to_owned();
    s.append(": ");
    s.append(NO_RUN);
    match wanted {
        Some(w) => {
            if held.len() > 0 {
                s.append(" ");
                push_quoted(&mut s, w);
                s.append(". ");
                s.append("The runs of this file are");
                s.append(" ");
                let mut k: usize = 0;
                let ghost base = s@;
                while k < held.len()
                    invariant
                        0 <= k <= held@.len(),
                        s@ == base + run_list_text(id_views(held@.subrange(0, k as int))),
                    decreases held@.len() - k,
                {
                    proof {
                        assert(id_views(held@.subrange(0, k + 1)).drop_last() =~= id_views(
                            held@.subrange(0, k as int),
                        ));
                        assert(id_views(held@.subrange(0, k + 1)).last() == held@[k as int]@);
                    }
                    if k > 0 {
                        s.append(", ");
                    }
                    push_quoted(&mut s, held[k].as_str());
                    proof {
                        if k == 0 {
                            assert(id_views(held@.subrange(0, 1)) =~= seq![held@[0]@]);
                        }
                        assert(s@ =~= base + run_list_text(id_views(held@.subrange(0, k + 1))));
                    }
                    k = k + 1;
                }
                proof {
                    assert(held@.subrange(0, held@.len() as int) =~= held@);
                }
            }
        },
        None => {},
    }
    s
}

/// The note that names the run that the frame folded.
pub open spec fn folded_text(path: Seq<char>, runs: nat, folded: Seq<char>) -> Seq<char> {
    path + ": "@ + "the file holds"@ + " "@ + counted_text(runs, "run"@) + ". "@
        + "This frame folds the run"@ + " "@ + seq!['`'] + folded + seq!['`'] + "."@
}

/// Writes the note that names the run that the frame folded.
///
/// A file of two runs would leave a reader unable to tell which of the two
/// the frame folded, so the note says it.
pub fn folded_run_message(path: &str, runs: usize, folded: &RunId) -> (s: String)
    ensures
        s@ == folded_text(path@, runs as nat, folded@),
{
    let mut s = path.to_owned();
    s.append(": ");
    s.append("the file holds");
    s.append(" ");
    let c = counted(runs, "run");
    s.append(c.as_str());
    s.append(". ");
    s.append("This frame folds the run");
    s.append(" ");
    push_quoted(&mut s, folded.as_str());
    s.append(".");
    s
}

/// What a warning says about the rounds before a cut final line.
pub const RECORDS_BEFORE_THE_CUT: &'static str = "The records before the cut still read.";

/// The warning of a file whose final line was cut short.
pub open spec fn cut_warning_text(path: Seq<char>, cut: Truncated) -> Seq<char> {
    path + ": "@ + truncated_text(cut.line_of() as nat, cut.bytes_of() as nat) + ". "@
        + RECORDS_BEFORE_THE_CUT@
}

/// The warning of a recorded file, when its final line was cut short.
///
/// Every round before the cut still reads, so the replay reports the cut and
/// goes on.
pub fn cut_warning(path: &str, truncated: Option<Truncated>) -> (w: Option<String>)
    ensures
        match truncated {
            Some(t) => w matches Some(text) && text@ == cut_warning_text(path@, t),
            None => w is None,
        },
{
    match truncated {
        Some(t) => {
            let mut s = path.to_owned();
            s.append(": ");
            let text = t.text();
            s.append(text.as_str());
            s.append(". ");
            s.append(RECORDS_BEFORE_THE_CUT);
            Some(s)
        },
        None => None,
    }
}

/// What a replay folded out of one run: the run, and the note that names it
/// when the file holds more than one run.
#[derive(Debug)]
pub struct Folded<'a> {
    /// The records of the folded run.
    pub run: Run<'a>,
    /// The note that names the folded run, when the file holds more than one.
    pub note: Option<String>,
}

/// The run that a replay folds: the run that `--run` names, or the last run
/// of the file when the flag is absent.
pub open spec fn chosen_run(records: Seq<crate::record::Record>, wanted: Option<Seq<char>>) -> Option<
    Seq<char>,
> {
    match wanted {
        Some(w) => if holds_run(records, w) {
            Some(w)
        } else {
            None
        },
        None => if ids_of(records).len() > 0 {
            Some(ids_of(records).last())
        } else {
            None
        },
    }
}

/// True when the record at place `i` is the first record of its run.
pub open spec fn opens_run_at(records: Seq<Record>, i: int) -> bool {
    &&& 0 <= i < records.len()
    &&& records[i].id_of() is Some
    &&& forall|j: int| 0 <= j < i ==> records[j].id_of() != records[i].id_of()
}

/// True when `id` is the run that started last in the records: the first
/// record of that run comes after the first record of every other run.
pub open spec fn started_last(records: Seq<Record>, id: Seq<char>) -> bool {
    exists|i: int|
        opens_run_at(records, i) && records[i].id_of() == Some(id) && forall|k: int|
            #[trigger] opens_run_at(records, k) ==> k <= i
}

/// Of records of which some belongs to a run, the last identifier of the
/// list of the runs is the run that started last.
proof fn lemma_last_id_started_last(records: Seq<Record>)
    requires
        ids_of(records).len() > 0,
    ensures
        started_last(records, ids_of(records).last()),
    decreases records.len(),
{
    let n = records.len() as int;
    let rest = records.drop_last();
    let r = records[n - 1];
    assert(r == records.last());
    lemma_run_ids_name_each_run_once(rest);
    if r.id_of() is Some && !ids_of(rest).contains(r.id_of().unwrap()) {
        let x = r.id_of().unwrap();
        assert(ids_of(records).last() == x);
        assert forall|j: int| 0 <= j < n - 1 implies (#[trigger] records[j]).id_of() != records[n - 1].id_of() by {
            assert(records[j] == rest[j]);
            if rest[j].id_of() == Some(x) {
                assert(ids_of(rest).contains(rest[j].id_of().unwrap()));
            }
        }
        assert(opens_run_at(records, n - 1));
    } else {
        assert(ids_of(records) == ids_of(rest));
        lemma_last_id_started_last(rest);
        let id = ids_of(rest).last();
        let i = choose|i: int|
            opens_run_at(rest, i) && rest[i].id_of() == Some(id) && forall|k: int|
                #[trigger] opens_run_at(rest, k) ==> k <= i;
        assert forall|j: int| 0 <= j < i implies (#[trigger] records[j]).id_of() != records[i].id_of() by {
            assert(records[j] == rest[j]);
            assert(records[i] == rest[i]);
        }
        assert(opens_run_at(records, i));
        assert forall|k: int| #[trigger] opens_run_at(records, k) implies k <= i by {
            if k < n - 1 {
                assert forall|j: int| 0 <= j < k implies (#[trigger] rest[j]).id_of() != rest[k].id_of() by {
                    assert(records[j] == rest[j]);
                    assert(records[k] == rest[k]);
                }
                assert(records[k] == rest[k]);
                assert(opens_run_at(rest, k));
            } else {
                let x = r.id_of().unwrap();
                let m = choose|m: int| 0 <= m < ids_of(rest).len() && ids_of(rest)[m] == x;
                assert(holds_run(rest, ids_of(rest)[m]));
                let j = choose|j: int| 0 <= j < rest.len() && #[trigger] rest[j].id_of() == Some(x);
                assert(records[j] == rest[j]);
                assert(records[j].id_of() == records[k].id_of());
            }
        }
    }
}

/// A replay that names no run folds the run that started last in the file:
/// the run whose first record comes after the first record of every other
/// run, whichever run wrote the last record. A file of no record that
/// belongs to a run has nothing to fold.
pub proof fn law_default_run_started_last(records: Seq<Record>)
    ensures
        chosen_run(records, None) is Some <==> exists|i: int|
            0 <= i < records.len() && (#[trigger] records[i].id_of()) is Some,
        chosen_run(records, None) matches Some(id) ==> started_last(records, id),
{
    lemma_run_ids_name_each_run_once(records);
    if ids_of(records).len() > 0 {
        lemma_last_id_started_last(records);
        assert(holds_run(records, ids_of(records)[0]));
    } else {
        assert forall|i: int| 0 <= i < records.len() implies !((#[trigger] records[i].id_of()) is Some) by {
            if records[i].id_of() is Some {
                assert(ids_of(records).contains(records[i].id_of().unwrap()));
            }
        }
    }
}

/// Picks the run of a recorded file that a replay folds.
///
/// The run that `--run` names is the run to fold, and the last run of the
/// file is the run to fold when the flag is absent. A file that holds no run
/// to fold gives the reason, and a file of more than one run gives the note
/// that names the run it folded.
pub fn fold_run<'a>(recording: &'a Recording, path: &str, wanted: Option<&str>) -> (r: Result<
    Folded<'a>,
    String,
>)
    ensures
        match chosen_run(
            recording.records_view(),
            match wanted {
                Some(w) => Some(w@),
                None => None,
            },
        ) {
            Some(id) => r matches Ok(f) && {
                &&& f.run.folds(recording.records_view(), id)
                &&& ids_of(recording.records_view()).len() > 1 ==> (f.note matches Some(n) && n@
                    == folded_text(path@, ids_of(recording.records_view()).len(), id))
                &&& ids_of(recording.records_view()).len() <= 1 ==> f.note is None
            },
            None => r matches Err(m) && m@ == no_run_text(
                path@,
                match wanted {
                    Some(w) => Some(w@),
                    None => None,
                },
                ids_of(recording.records_view()),
            ),
        },
        r matches Ok(f) ==> exists|idx: Seq<int>|
            places_rounds(recording.records_view(), f.run.id_view(), f.run.rounds_view(), idx),
        wanted is None ==> match r {
            Ok(f) => started_last(recording.records_view(), f.run.id_view()),
            Err(_) => forall|i: int|
                0 <= i < recording.records_view().len() ==> (#[trigger] recording.records_view()[i].id_of()) is None,
        },
{
    let held = recording.run_ids();
    let found = match wanted {
        Some(w) => {
            let id = RunId::from(w);
            recording.run(&id)
        },
        None => recording.last_run(),
    };
    proof {
        assert(id_views(held@) == ids_of(recording.records_view()));
        law_default_run_started_last(recording.records_view());
    }
    match found {
        Some(run) => {
            proof {
                assert(run.rounds_view() == rounds_of(recording.records_view(), run.id_view()));
                law_rounds_are_the_round_records_of_the_run(recording.records_view(), run.id_view());
            }
            let ghost idx = choose|idx: Seq<int>|
                places_rounds(recording.records_view(), run.id_view(), rounds_of(recording.records_view(), run.id_view()), idx);
            let note = if held.len() > 1 {
                Some(folded_run_message(path, held.len(), run.id()))
            } else {
                None
            };
            let folded = Folded { run, note };
            assert(places_rounds(recording.records_view(), folded.run.id_view(), folded.run.rounds_view(), idx));
            Ok(folded)
        },
        None => Err(no_run_message(path, wanted, &held)),
    }
}

} // verus!
