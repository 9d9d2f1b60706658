//! The records of a recorded file, and the recording that a whole file folds
//! into.
//!
//! A recorded file holds one JSON object per line. The `type` field names the
//! record, and every record carries the identifier of the run it belongs to.
//! The text of one line becomes a record outside this module; this module
//! holds the records, the rules that pick the records of one run out of a
//! recording, and the reader that walks the lines of a file and decides what
//! each line is.

use crate::addr::{Addr, Family};
use crate::text::{decimal, decimal_text, push_char};
use vstd::prelude::*;
use vstd::string::StringExecFns;
use vstd::utf8::{decode_utf8, valid_utf8};

verus! {

/// A moment, as nanoseconds since the start of 1970 in UTC.
#[derive(Clone, Copy, Debug, PartialEq, Eq, Structural)]
pub struct Stamp {
    /// The nanoseconds since the start of 1970 in UTC.
    pub nanos: i64,
}

/// The RFC 3339 text of a moment, to the millisecond, in UTC, as `chrono`
/// writes it.
pub uninterp spec fn rfc3339_millis(nanos: int) -> Seq<char>;

/// Writes a moment as RFC 3339, to the millisecond, in UTC.
///
/// The text comes from `chrono::DateTime::to_rfc3339_opts` with three
/// fractional digits and the `Z` of UTC; the contract names that text and
/// says no more of it.
#[verifier::external_body]
fn format_millis(ts: Stamp) -> (s: String)
    ensures
        s@ == rfc3339_millis(ts.nanos as int),
{
    chrono::DateTime::from_timestamp_nanos(ts.nanos).to_rfc3339_opts(
        chrono::SecondsFormat::Millis,
        true,
    )
}

/// The identifier of one run: the RFC 3339 start time, to the millisecond, in
/// UTC.
///
/// The identifier is text, and every comparison is an exact text comparison,
/// so a run keeps the identifier that the file holds.
#[derive(Clone, Debug, Hash)]
pub struct RunId(String);

impl View for RunId {
    type V = Seq<char>;

    closed spec fn view(&self) -> Seq<char> {
        self.0@
    }
}

impl PartialEq for RunId {
    fn eq(&self, other: &Self) -> (r: bool) {
        self.0 == other.0
    }
}

impl vstd::std_specs::cmp::PartialEqSpecImpl for RunId {
    open spec fn obeys_eq_spec() -> bool {
        true
    }

    open spec fn eq_spec(&self, other: &Self) -> bool {
        self@ == other@
    }
}

impl Eq for RunId {
}

impl RunId {
    /// The identifier of the run that starts at this moment.
    pub fn at(start: Stamp) -> (id: RunId)
        ensures
            id@ == rfc3339_millis(start.nanos as int),
    {
        RunId(format_millis(start))
    }

    /// The identifier as text.
    pub fn as_str(&self) -> (s: &str)
        ensures
            s@ == self@,
    {
        self.0.as_str()
    }

    /// The identifier as text, for a message.
    pub fn to_text(&self) -> (s: String)
        ensures
            s@ == self@,
    {
        self.0.clone()
    }

    /// The identifier of this text.
    pub fn from(text: &str) -> (id: RunId)
        ensures
            id@ == text@,
    {
        RunId(text.to_owned())
    }

    /// True when the two identifiers hold one text.
    pub fn same(&self, other: &RunId) -> (b: bool)
        ensures
            b == (self@ == other@),
    {
        self.0 == other.0
    }

    /// A copy of the identifier.
    pub fn copy(&self) -> (id: RunId)
        ensures
            id@ == self@,
    {
        RunId(self.0.clone())
    }
}

/// The protocol of a probe.
#[derive(Clone, Copy, Debug, PartialEq, Eq, Structural)]
pub enum Protocol {
    /// ICMP echo requests.
    Icmp,
    /// UDP datagrams.
    Udp,
    /// TCP packets.
    Tcp,
}

/// The way a probe keeps or varies the flow of a packet.
#[derive(Clone, Copy, Debug, PartialEq, Eq, Structural)]
pub enum Multipath {
    /// Each probe takes its own flow, as traceroute always did.
    Classic,
    /// One flow for each round, with the probe number in the UDP checksum.
    Paris,
    /// One flow for each round, with the probe number in the IP header.
    Dublin,
}

/// How `krt` found the source address.
#[derive(Clone, Copy, Debug, PartialEq, Eq, Structural)]
pub enum SourceKind {
    /// The user named the address on the command line.
    Override,
    /// The address is the public address of the machine.
    Public,
    /// The address is an address of a local interface.
    Local,
}

/// The privilege mode of a run.
#[derive(Clone, Copy, Debug, PartialEq, Eq, Structural)]
pub enum Privilege {
    /// The run sends its probes through a datagram socket.
    Unprivileged,
    /// The run sends its probes through a raw socket.
    Privileged,
}

/// Why a run stopped.
#[derive(Clone, Copy, Debug, PartialEq, Eq, Structural)]
pub enum EndReason {
    /// The user stopped the run.
    Quit,
    /// The run reached the time limit.
    Duration,
    /// The run reached the round limit.
    Rounds,
    /// A fault stopped the run.
    Error,
}

/// The source address of a run, and how `krt` found it.
#[derive(Clone, Copy, Debug, PartialEq, Eq, Structural)]
pub struct SourceLabel {
    /// The source address.
    pub addr: Addr,
    /// How `krt` found the address.
    pub kind: SourceKind,
}

/// The destination of a run.
#[derive(Clone, Debug, PartialEq)]
pub struct Target {
    /// The destination as the user typed it.
    pub arg: String,
    /// The address that the destination resolved to.
    pub addr: Addr,
    /// The IP version of the address.
    pub family: Family,
}

/// The configuration of one run, as the run records it.
#[derive(Clone, Copy, Debug, PartialEq, Eq, Structural)]
pub struct RunConfig {
    /// The period of one round, in milliseconds.
    pub interval_ms: u64,
    /// The protocol of a probe.
    pub protocol: Protocol,
    /// The first TTL that the run probes.
    pub first_ttl: u8,
    /// The last TTL that the run probes.
    pub max_ttl: u8,
    /// The way a probe keeps or varies the flow of a packet.
    pub multipath: Multipath,
    /// The privilege mode of the run.
    pub privilege: Privilege,
    /// True when the run reads the name of each hop.
    pub dns: bool,
}

/// The record that opens a run. It states what the run traces, and how.
#[derive(Clone, Debug, PartialEq)]
pub struct RunRecord {
    /// The identifier of the run.
    pub run: RunId,
    /// The build string of the `krt` that made the run.
    pub krt: String,
    /// The address that the probes leave from.
    pub source: SourceLabel,
    /// The destination of the run.
    pub target: Target,
    /// The configuration of the run.
    pub config: RunConfig,
    /// The name of the machine that made the run.
    pub host: String,
}

/// The name of one address, from reverse DNS.
#[derive(Clone, Debug, PartialEq)]
pub struct NameRecord {
    /// The identifier of the run.
    pub run: RunId,
    /// The moment that the name arrived.
    pub ts: Stamp,
    /// The address that the name belongs to.
    pub addr: Addr,
    /// The name of the address.
    pub host: String,
}

/// One hop that answered a probe.
#[derive(Clone, Debug, PartialEq)]
pub struct Hop {
    /// The TTL of the probe that this hop answered.
    pub ttl: u8,
    /// The address of the hop.
    pub addr: Addr,
    /// The round trip time in milliseconds, as the bits of an IEEE 754
    /// binary64 number.
    pub rtt_bits: u64,
    /// The name of the ICMP message that answered.
    pub icmp: String,
}

/// One round of probes.
#[derive(Clone, Debug, PartialEq)]
pub struct RoundRecord {
    /// The identifier of the run.
    pub run: RunId,
    /// The number of the round. The first round of a run is round one.
    pub seq: u64,
    /// The moment that the round started.
    pub ts: Stamp,
    /// The time that the round took, in milliseconds.
    pub dur_ms: u64,
    /// The TTLs that the round probed.
    pub ttl_range: TtlRange,
    /// True when one probe of the round reached the target.
    pub reached: bool,
    /// The hops that answered. A hop that did not answer is absent.
    pub hops: Vec<Hop>,
}

/// The record that closes a run.
#[derive(Clone, Debug, PartialEq)]
pub struct EndRecord {
    /// The identifier of the run.
    pub run: RunId,
    /// The moment that the run stopped.
    pub ts: Stamp,
    /// The number of rounds that the run made.
    pub rounds: u64,
    /// Why the run stopped.
    pub reason: EndReason,
}

/// One line of a recorded file.
#[derive(Clone, Debug, PartialEq)]
pub enum Record {
    /// The record that opens a run.
    Run(RunRecord),
    /// The name of one address, from reverse DNS.
    Name(NameRecord),
    /// One round of probes.
    Round(RoundRecord),
    /// The record that closes a run.
    End(EndRecord),
    /// A `type` value that this build does not know.
    Unknown,
}

impl Record {
    /// The identifier of the run that a record belongs to; an unknown record
    /// has none.
    pub open spec fn id_of(self) -> Option<Seq<char>> {
        match self {
            Record::Run(r) => Some(r.run@),
            Record::Name(r) => Some(r.run@),
            Record::Round(r) => Some(r.run@),
            Record::End(r) => Some(r.run@),
            Record::Unknown => None,
        }
    }

    /// The identifier of the run that this record belongs to. An unknown
    /// record has none.
    pub fn run_id(&self) -> (id: Option<&RunId>)
        ensures
            match id {
                Some(i) => self.id_of() == Some(i@),
                None => self.id_of() is None,
            },
    {
        match self {
            Record::Run(record) => Some(&record.run),
            Record::Name(record) => Some(&record.run),
            Record::Round(record) => Some(&record.run),
            Record::End(record) => Some(&record.run),
            Record::Unknown => None,
        }
    }
}

/// The TTLs that one round probed: a first one at or below a last one.
#[derive(Clone, Copy, Debug, PartialEq, Eq, Structural)]
pub struct TtlRange {
    /// The first TTL of the round.
    first: u8,
    /// The last TTL of the round.
    last: u8,
}

/// The fault of a range of TTLs that runs backward.
#[derive(Clone, Copy, Debug, PartialEq, Eq, Structural)]
pub struct TtlRangeError {
    /// The first TTL of the range.
    pub first: u8,
    /// The last TTL of the range.
    pub last: u8,
}

/// The message of a range of TTLs that runs backward.
pub open spec fn backward_range_text(first: u8, last: u8) -> Seq<char> {
    "the ttl range ["@ + decimal(first as nat) + ", "@ + decimal(last as nat)
        + "] runs backward: the first ttl is above the last one"@
}

impl TtlRangeError {
    /// The message of the fault.
    pub fn message(&self) -> (s: String)
        ensures
            s@ == backward_range_text(self.first, self.last),
    {
        let mut s = String::from_str("the ttl range [");
        let first = decimal_text(self.first as u128);
        s.append(first.as_str());
        s.append(", ");
        let last = decimal_text(self.last as u128);
        s.append(last.as_str());
        s.append("] runs backward: the first ttl is above the last one");
        s
    }
}

impl TtlRange {
    /// The first TTL of the range.
    pub closed spec fn first_of(self) -> u8 {
        self.first
    }

    /// The last TTL of the range.
    pub closed spec fn last_of(self) -> u8 {
        self.last
    }

    /// A range holds its first TTL at or below its last one.
    pub open spec fn wf(self) -> bool {
        self.first_of() <= self.last_of()
    }

    /// Builds the range of the TTLs that one round probed.
    ///
    /// A first TTL above the last one is a fault.
    pub fn new(first: u8, last: u8) -> (r: Result<TtlRange, TtlRangeError>)
        ensures
            first <= last ==> (r matches Ok(range) && range.first_of() == first
                && range.last_of() == last),
            first > last ==> r == Err::<TtlRange, TtlRangeError>(TtlRangeError { first, last }),
    {
        if first > last {
            return Err(TtlRangeError { first, last });
        }
        Ok(TtlRange { first, last })
    }

    /// The range of the two numbers of a JSON array.
    pub fn try_from_pair(pair: [u8; 2]) -> (r: Result<TtlRange, TtlRangeError>)
        ensures
            pair[0] <= pair[1] ==> (r matches Ok(range) && range.first_of() == pair[0]
                && range.last_of() == pair[1]),
            pair[0] > pair[1] ==> r == Err::<TtlRange, TtlRangeError>(
                TtlRangeError { first: pair[0], last: pair[1] },
            ),
    {
        TtlRange::new(pair[0], pair[1])
    }

    /// The two numbers of the JSON array of the range.
    pub fn pair(self) -> (pair: [u8; 2])
        ensures
            pair[0] == self.first_of(),
            pair[1] == self.last_of(),
    {
        [self.first, self.last]
    }

    /// The first TTL of the round.
    pub fn first(self) -> (t: u8)
        ensures
            t == self.first_of(),
    {
        self.first
    }

    /// The last TTL of the round.
    pub fn last(self) -> (t: u8)
        ensures
            t == self.last_of(),
    {
        self.last
    }

    /// True when the round probed this TTL.
    pub fn contains(self, ttl: u8) -> (b: bool)
        ensures
            b == (self.first_of() <= ttl && ttl <= self.last_of()),
    {
        self.first <= ttl && ttl <= self.last
    }
}

/// A final line that no newline ended and that no parse read.
#[derive(Clone, Copy, Debug, PartialEq, Eq, Structural)]
pub struct Truncated {
    /// The number of the line. The first line of a file is line one.
    line: usize,
    /// The number of bytes that the line holds.
    bytes: usize,
}

/// The text of a cut line: its number and its length.
pub open spec fn truncated_text(line: nat, bytes: nat) -> Seq<char> {
    "line "@ + decimal(line) + " is cut short at "@ + decimal(bytes) + " bytes"@
}

impl Truncated {
    /// The number of the line of the cut.
    pub closed spec fn line_of(self) -> usize {
        self.line
    }

    /// The length of the cut line.
    pub closed spec fn bytes_of(self) -> usize {
        self.bytes
    }

    /// The cut of one line of this length.
    pub closed spec fn new_spec(line: usize, bytes: usize) -> Truncated {
        Truncated { line, bytes }
    }

    /// The cut of one line of this length.
    pub fn new(line: usize, bytes: usize) -> (t: Truncated)
        ensures
            t == Truncated::new_spec(line, bytes),
            t.line_of() == line,
            t.bytes_of() == bytes,
    {
        Truncated { line, bytes }
    }

    /// The number of the line that was cut short.
    pub fn line(self) -> (n: usize)
        ensures
            n == self.line_of(),
    {
        self.line
    }

    /// The number of bytes that the cut line holds.
    pub fn bytes(self) -> (n: usize)
        ensures
            n == self.bytes_of(),
    {
        self.bytes
    }

    /// The text that names the cut: the line and the bytes it holds.
    pub fn text(self) -> (s: String)
        ensures
            s@ == truncated_text(self.line_of() as nat, self.bytes_of() as nat),
    {
        let mut s = String::from_str("line ");
        let line = decimal_text(self.line as u128);
        s.append(line.as_str());
        s.append(" is cut short at ");
        let bytes = decimal_text(self.bytes as u128);
        s.append(bytes.as_str());
        s.append(" bytes");
        s
    }
}

} // verus!

verus! {

/// The identifier of every run that the records hold, in the order that the
/// runs first appear, each one once.
pub open spec fn ids_of(records: Seq<Record>) -> Seq<Seq<char>>
    decreases records.len(),
{
    if records.len() == 0 {
        Seq::empty()
    } else {
        let before = ids_of(records.drop_last());
        match records.last().id_of() {
            Some(id) => if before.contains(id) {
                before
            } else {
                before.push(id)
            },
            None => before,
        }
    }
}

/// True when some record belongs to this run.
pub open spec fn holds_run(records: Seq<Record>, id: Seq<char>) -> bool {
    exists|i: int| 0 <= i < records.len() && #[trigger] records[i].id_of() == Some(id)
}

/// The names of one run, in the order that the records hold them.
pub open spec fn names_of(records: Seq<Record>, id: Seq<char>) -> Seq<NameRecord>
    decreases records.len(),
{
    if records.len() == 0 {
        Seq::empty()
    } else {
        let before = names_of(records.drop_last(), id);
        match records.last() {
            Record::Name(r) => if r.run@ == id {
                before.push(r)
            } else {
                before
            },
            _ => before,
        }
    }
}

/// The rounds of one run, in the order that the records hold them.
pub open spec fn rounds_of(records: Seq<Record>, id: Seq<char>) -> Seq<RoundRecord>
    decreases records.len(),
{
    if records.len() == 0 {
        Seq::empty()
    } else {
        let before = rounds_of(records.drop_last(), id);
        match records.last() {
            Record::Round(r) => if r.run@ == id {
                before.push(r)
            } else {
                before
            },
            _ => before,
        }
    }
}

/// The last record that opens this run, when the records hold one.
pub open spec fn start_of(records: Seq<Record>, id: Seq<char>) -> Option<RunRecord>
    decreases records.len(),
{
    if records.len() == 0 {
        None
    } else {
        match records.last() {
            Record::Run(r) => if r.run@ == id {
                Some(r)
            } else {
                start_of(records.drop_last(), id)
            },
            _ => start_of(records.drop_last(), id),
        }
    }
}

/// The last record that closes this run, when the records hold one.
pub open spec fn end_of(records: Seq<Record>, id: Seq<char>) -> Option<EndRecord>
    decreases records.len(),
{
    if records.len() == 0 {
        None
    } else {
        match records.last() {
            Record::End(r) => if r.run@ == id {
                Some(r)
            } else {
                end_of(records.drop_last(), id)
            },
            _ => end_of(records.drop_last(), id),
        }
    }
}

/// True when `idx` gives, for each round of a run in order, the place in the
/// records of the round record it came from: the places rise, and every round
/// record of the run has its place among them.
pub open spec fn places_rounds(records: Seq<Record>, id: Seq<char>, rounds: Seq<RoundRecord>, idx: Seq<int>) -> bool {
    &&& idx.len() == rounds.len()
    &&& forall|k: int|
        0 <= k < idx.len() ==> 0 <= #[trigger] idx[k] < records.len() && records[idx[k]] == Record::Round(rounds[k])
            && rounds[k].run@ == id
    &&& forall|k: int, m: int| 0 <= k < m < idx.len() ==> #[trigger] idx[k] < #[trigger] idx[m]
    &&& forall|i: int|
        0 <= i < records.len() && (#[trigger] records[i] matches Record::Round(r) && r.run@ == id) ==> exists|k: int|
            0 <= k < idx.len() && idx[k] == i
}

/// The rounds of a run are the round records of that run, each one once and
/// in the order of the file, and nothing else.
pub proof fn law_rounds_are_the_round_records_of_the_run(records: Seq<Record>, id: Seq<char>)
    ensures
        exists|idx: Seq<int>| places_rounds(records, id, rounds_of(records, id), idx),
    decreases records.len(),
{
    if records.len() == 0 {
        assert(places_rounds(records, id, rounds_of(records, id), Seq::<int>::empty()));
    } else {
        let rest = records.drop_last();
        let n = records.len() - 1;
        law_rounds_are_the_round_records_of_the_run(rest, id);
        let idx0 = choose|idx: Seq<int>| places_rounds(rest, id, rounds_of(rest, id), idx);
        assert(records[n] == records.last());
        assert forall|i: int| 0 <= i < n implies #[trigger] records[i] == rest[i] by {}
        let last_is_ours = records.last() matches Record::Round(r) && r.run@ == id;
        let idx = if last_is_ours {
            idx0.push(n)
        } else {
            idx0
        };
        assert forall|k: int| 0 <= k < idx.len() implies 0 <= #[trigger] idx[k] < records.len() && records[idx[k]]
            == Record::Round(rounds_of(records, id)[k]) && rounds_of(records, id)[k].run@ == id by {
            if k < idx0.len() {
                assert(idx[k] == idx0[k]);
                assert(records[idx0[k]] == rest[idx0[k]]);
            }
        }
        assert forall|i: int|
            0 <= i < records.len() && (#[trigger] records[i] matches Record::Round(r) && r.run@ == id) implies exists|
            k: int,
        | 0 <= k < idx.len() && idx[k] == i by {
            if i < n {
                assert(rest[i] == records[i]);
                let k = choose|k: int| 0 <= k < idx0.len() && idx0[k] == i;
                assert(idx[k] == i);
            } else {
                assert(idx[idx0.len() as int] == i);
            }
        }
        assert(places_rounds(records, id, rounds_of(records, id), idx));
    }
}

/// The record that opens a run, as the records give it, is the last record of
/// the file that opens that run, and none when no record opens it.
pub proof fn law_start_is_the_last_opening_record(records: Seq<Record>, id: Seq<char>)
    ensures
        start_of(records, id) is None <==> forall|i: int|
            0 <= i < records.len() ==> !(#[trigger] records[i] matches Record::Run(r) && r.run@ == id),
        start_of(records, id) matches Some(s) ==> exists|i: int|
            0 <= i < records.len() && #[trigger] records[i] == Record::Run(s) && s.run@ == id && forall|j: int|
                i < j < records.len() ==> !(#[trigger] records[j] matches Record::Run(r) && r.run@ == id),
    decreases records.len(),
{
    if records.len() > 0 {
        let rest = records.drop_last();
        let n = records.len() - 1;
        law_start_is_the_last_opening_record(rest, id);
        assert(records[n] == records.last());
        assert forall|i: int| 0 <= i < n implies #[trigger] records[i] == rest[i] by {}
        if let Some(s) = start_of(records, id) {
            if !(records.last() matches Record::Run(r) && r.run@ == id) {
                let i = choose|i: int|
                    0 <= i < rest.len() && #[trigger] rest[i] == Record::Run(s) && s.run@ == id && forall|j: int|
                        i < j < rest.len() ==> !(#[trigger] rest[j] matches Record::Run(r) && r.run@ == id);
                assert(records[i] == rest[i]);
                assert forall|j: int| i < j < records.len() implies !(#[trigger] records[j] matches Record::Run(r)
                    && r.run@ == id) by {
                    if j < n {
                        assert(records[j] == rest[j]);
                    }
                }
            } else {
                assert(records[n] == Record::Run(s));
            }
        } else {
            assert forall|i: int| 0 <= i < records.len() implies !(#[trigger] records[i] matches Record::Run(r)
                && r.run@ == id) by {
                if i < n {
                    assert(records[i] == rest[i]);
                }
            }
        }
        if forall|i: int| 0 <= i < records.len() ==> !(#[trigger] records[i] matches Record::Run(r) && r.run@ == id) {
            assert forall|i: int| 0 <= i < rest.len() implies !(#[trigger] rest[i] matches Record::Run(r) && r.run@ == id) by {
                assert(records[i] == rest[i]);
            }
        }
    }
}

/// True when `idx` gives, for each name of a run in order, the place in the
/// records of the name record it came from: the places rise, and every name
/// record of the run has its place among them.
pub open spec fn places_names(records: Seq<Record>, id: Seq<char>, names: Seq<NameRecord>, idx: Seq<int>) -> bool {
    &&& idx.len() == names.len()
    &&& forall|k: int|
        0 <= k < idx.len() ==> 0 <= #[trigger] idx[k] < records.len() && records[idx[k]] == Record::Name(names[k])
            && names[k].run@ == id
    &&& forall|k: int, m: int| 0 <= k < m < idx.len() ==> #[trigger] idx[k] < #[trigger] idx[m]
    &&& forall|i: int|
        0 <= i < records.len() && (#[trigger] records[i] matches Record::Name(r) && r.run@ == id) ==> exists|k: int|
            0 <= k < idx.len() && idx[k] == i
}

/// The names of a run are the name records of that run, each one once and in
/// the order of the file, and nothing else.
pub proof fn law_names_are_the_name_records_of_the_run(records: Seq<Record>, id: Seq<char>)
    ensures
        exists|idx: Seq<int>| places_names(records, id, names_of(records, id), idx),
    decreases records.len(),
{
    if records.len() == 0 {
        assert(places_names(records, id, names_of(records, id), Seq::<int>::empty()));
    } else {
        let rest = records.drop_last();
        let n = records.len() - 1;
        law_names_are_the_name_records_of_the_run(rest, id);
        let idx0 = choose|idx: Seq<int>| places_names(rest, id, names_of(rest, id), idx);
        assert(records[n] == records.last());
        assert forall|i: int| 0 <= i < n implies #[trigger] records[i] == rest[i] by {}
        let last_is_ours = records.last() matches Record::Name(r) && r.run@ == id;
        let idx = if last_is_ours {
            idx0.push(n)
        } else {
            idx0
        };
        assert forall|k: int| 0 <= k < idx.len() implies 0 <= #[trigger] idx[k] < records.len() && records[idx[k]]
            == Record::Name(names_of(records, id)[k]) && names_of(records, id)[k].run@ == id by {
            if k < idx0.len() {
                assert(idx[k] == idx0[k]);
                assert(records[idx0[k]] == rest[idx0[k]]);
            }
        }
        assert forall|i: int|
            0 <= i < records.len() && (#[trigger] records[i] matches Record::Name(r) && r.run@ == id) implies exists|
            k: int,
        | 0 <= k < idx.len() && idx[k] == i by {
            if i < n {
                assert(rest[i] == records[i]);
                let k = choose|k: int| 0 <= k < idx0.len() && idx0[k] == i;
                assert(idx[k] == i);
            } else {
                assert(idx[idx0.len() as int] == i);
            }
        }
        assert(places_names(records, id, names_of(records, id), idx));
    }
}

/// The record that closes a run, as the records give it, is the last record
/// of the file that closes that run, and none when no record closes it.
pub proof fn law_end_is_the_last_closing_record(records: Seq<Record>, id: Seq<char>)
    ensures
        end_of(records, id) is None <==> forall|i: int|
            0 <= i < records.len() ==> !(#[trigger] records[i] matches Record::End(r) && r.run@ == id),
        end_of(records, id) matches Some(s) ==> exists|i: int|
            0 <= i < records.len() && #[trigger] records[i] == Record::End(s) && s.run@ == id && forall|j: int|
                i < j < records.len() ==> !(#[trigger] records[j] matches Record::End(r) && r.run@ == id),
    decreases records.len(),
{
    if records.len() > 0 {
        let rest = records.drop_last();
        let n = records.len() - 1;
        law_end_is_the_last_closing_record(rest, id);
        assert(records[n] == records.last());
        assert forall|i: int| 0 <= i < n implies #[trigger] records[i] == rest[i] by {}
        if let Some(s) = end_of(records, id) {
            if !(records.last() matches Record::End(r) && r.run@ == id) {
                let i = choose|i: int|
                    0 <= i < rest.len() && #[trigger] rest[i] == Record::End(s) && s.run@ == id && forall|j: int|
                        i < j < rest.len() ==> !(#[trigger] rest[j] matches Record::End(r) && r.run@ == id);
                assert(records[i] == rest[i]);
                assert forall|j: int| i < j < records.len() implies !(#[trigger] records[j] matches Record::End(r)
                    && r.run@ == id) by {
                    if j < n {
                        assert(records[j] == rest[j]);
                    }
                }
            } else {
                assert(records[n] == Record::End(s));
            }
        } else {
            assert forall|i: int| 0 <= i < records.len() implies !(#[trigger] records[i] matches Record::End(r)
                && r.run@ == id) by {
                if i < n {
                    assert(records[i] == rest[i]);
                }
            }
        }
        if forall|i: int| 0 <= i < records.len() ==> !(#[trigger] records[i] matches Record::End(r) && r.run@ == id) {
            assert forall|i: int| 0 <= i < rest.len() implies !(#[trigger] rest[i] matches Record::End(r) && r.run@ == id) by {
                assert(records[i] == rest[i]);
            }
        }
    }
}

/// Every identifier that the list of runs names belongs to some record.
pub proof fn lemma_ids_are_held(records: Seq<Record>, k: int)
    requires
        0 <= k < ids_of(records).len(),
    ensures
        holds_run(records, ids_of(records)[k]),
    decreases records.len(),
{
    if records.len() > 0 {
        let before = ids_of(records.drop_last());
        let rest = records.drop_last();
        if k < before.len() {
            lemma_ids_are_held(rest, k);
            let i = choose|i: int| 0 <= i < rest.len() && #[trigger] rest[i].id_of() == Some(before[k]);
            assert(records[i] == rest[i]);
            assert(ids_of(records)[k] == before[k]);
        } else {
            assert(records[records.len() - 1] == records.last());
        }
    }
}

/// The list of the runs of a recording names each run once, and it names every
/// run that some record belongs to.
pub proof fn lemma_run_ids_name_each_run_once(records: Seq<Record>)
    ensures
        ids_of(records).no_duplicates(),
        forall|i: int|
            0 <= i < records.len() && (#[trigger] records[i].id_of()) is Some ==> ids_of(
                records,
            ).contains(records[i].id_of().unwrap()),
        forall|k: int| 0 <= k < ids_of(records).len() ==> holds_run(records, #[trigger] ids_of(records)[k]),
    decreases records.len(),
{
    if records.len() > 0 {
        let rest = records.drop_last();
        lemma_run_ids_name_each_run_once(rest);
        let before = ids_of(rest);
        assert forall|i: int|
            0 <= i < records.len() && (#[trigger] records[i].id_of()) is Some implies ids_of(
                records,
            ).contains(records[i].id_of().unwrap()) by {
            if i < records.len() - 1 {
                assert(records[i] == rest[i]);
                let id = records[i].id_of().unwrap();
                let m = choose|m: int| 0 <= m < before.len() && before[m] == id;
                if ids_of(records) != before {
                    assert(ids_of(records)[m] == before[m]);
                }
            } else {
                assert(records[i] == records.last());
                let id = records[i].id_of().unwrap();
                if !before.contains(id) {
                    assert(ids_of(records)[before.len() as int] == id);
                }
            }
        }
    }
    assert forall|k: int| 0 <= k < ids_of(records).len() implies holds_run(
        records,
        #[trigger] ids_of(records)[k],
    ) by {
        lemma_ids_are_held(records, k);
    }
}

/// Every record that one file holds, in the order that the file holds them,
/// and the final line that was cut short, when the file holds one.
#[derive(Debug)]
pub struct Recording {
    /// The records of the file, in the order that the file holds them.
    records: Vec<Record>,
    /// The final line that was cut short, when the file holds one.
    truncated: Option<Truncated>,
}

/// The records of one run inside a recording.
#[derive(Debug)]
pub struct Run<'a> {
    /// The identifier of the run.
    id: RunId,
    /// The record that opened the run.
    start: Option<&'a RunRecord>,
    /// The names that the run read.
    names: Vec<&'a NameRecord>,
    /// The rounds that the run made.
    rounds: Vec<&'a RoundRecord>,
    /// The record that closed the run.
    end: Option<&'a EndRecord>,
}

impl<'a> Run<'a> {
    /// The identifier of the run.
    pub closed spec fn id_view(&self) -> Seq<char> {
        self.id@
    }

    /// The record that opened the run.
    pub closed spec fn start_view(&self) -> Option<RunRecord> {
        match self.start {
            Some(r) => Some(*r),
            None => None,
        }
    }

    /// The names that the run read.
    pub closed spec fn names_view(&self) -> Seq<NameRecord> {
        self.names@.map_values(|r: &NameRecord| *r)
    }

    /// The rounds that the run made.
    pub closed spec fn rounds_view(&self) -> Seq<RoundRecord> {
        self.rounds@.map_values(|r: &RoundRecord| *r)
    }

    /// The record that closed the run.
    pub closed spec fn end_view(&self) -> Option<EndRecord> {
        match self.end {
            Some(r) => Some(*r),
            None => None,
        }
    }

    /// The run is the fold of the records of one identifier.
    pub open spec fn folds(&self, records: Seq<Record>, id: Seq<char>) -> bool {
        &&& self.id_view() == id
        &&& self.start_view() == start_of(records, id)
        &&& self.names_view() == names_of(records, id)
        &&& self.rounds_view() == rounds_of(records, id)
        &&& self.end_view() == end_of(records, id)
    }

    /// The identifier of the run.
    pub fn id(&self) -> (id: &RunId)
        ensures
            id@ == self.id_view(),
    {
        &self.id
    }

    /// The record that opened the run. A file that starts in the middle of a
    /// run holds none.
    pub fn start(&self) -> (r: Option<&'a RunRecord>)
        ensures
            match r {
                Some(s) => self.start_view() == Some(*s),
                None => self.start_view() is None,
            },
    {
        self.start
    }

    /// The names that the run read.
    pub fn names(&self) -> (r: &Vec<&'a NameRecord>)
        ensures
            r@.map_values(|n: &NameRecord| *n) == self.names_view(),
    {
        &self.names
    }

    /// The rounds that the run made.
    pub fn rounds(&self) -> (r: &Vec<&'a RoundRecord>)
        ensures
            r@.map_values(|n: &RoundRecord| *n) == self.rounds_view(),
    {
        &self.rounds
    }

    /// The record that closed the run. A run that still goes holds none.
    pub fn end(&self) -> (r: Option<&'a EndRecord>)
        ensures
            match r {
                Some(e) => self.end_view() == Some(*e),
                None => self.end_view() is None,
            },
    {
        self.end
    }
}

impl Recording {
    /// The records of the recording.
    pub closed spec fn records_view(&self) -> Seq<Record> {
        self.records@
    }

    /// The cut line of the recording.
    pub closed spec fn truncated_view(&self) -> Option<Truncated> {
        self.truncated
    }

    /// A recording of these records, and of this cut line.
    pub fn new(records: Vec<Record>, truncated: Option<Truncated>) -> (r: Recording)
        ensures
            r.records_view() == records@,
            r.truncated_view() == truncated,
    {
        Recording { records, truncated }
    }

    /// Every record that the file holds.
    pub fn records(&self) -> (r: &Vec<Record>)
        ensures
            r@ == self.records_view(),
    {
        &self.records
    }

    /// The final line that was cut short, when the file holds one.
    pub fn truncated(&self) -> (t: Option<Truncated>)
        ensures
            t == self.truncated_view(),
    {
        self.truncated
    }

    /// The identifier of every run that the file holds, in the order that the
    /// runs start, each one once.
    pub fn run_ids(&self) -> (ids: Vec<RunId>)
        ensures
            ids@.map_values(|i: RunId| i@) == ids_of(self.records_view()),
    {
        let mut ids: Vec<RunId> = Vec::new();
        let mut k: usize = 0;
        while k < self.records.len()
            invariant
                0 <= k <= self.records@.len(),
                ids@.map_values(|i: RunId| i@) == ids_of(self.records@.subrange(0, k as int)),
            decreases self.records@.len() - k,
        {
            let ghost before = ids@.map_values(|i: RunId| i@);
            proof {
                assert(self.records@.subrange(0, k + 1).drop_last() =~= self.records@.subrange(
                    0,
                    k as int,
                ));
                assert(self.records@.subrange(0, k + 1).last() == self.records@[k as int]);
            }
            match self.records[k].run_id() {
                Some(id) => {
                    let mut seen = false;
                    let mut j: usize = 0;
                    while j < ids.len()
                        invariant
                            0 <= j <= ids@.len(),
                            before == ids@.map_values(|i: RunId| i@),
                            seen == (exists|m: int| 0 <= m < j && #[trigger] before[m] == id@),
                        decreases ids@.len() - j,
                    {
                        proof {
                            assert(before[j as int] == ids@[j as int]@);
                        }
                        if ids[j].same(id) {
                            seen = true;
                        }
                        j = j + 1;
                        proof {
                            if !seen {
                                assert forall|m: int| 0 <= m < j implies #[trigger] before[m]
                                    != id@ by {
                                    if m < j - 1 {
                                    } else {
                                        assert(m == j - 1);
                                    }
                                }
                            }
                        }
                    }
                    proof {
                        if before.contains(id@) {
                            let m = choose|m: int| 0 <= m < before.len() && before[m] == id@;
                            assert(before[m] == id@);
                        }
                    }
                    if !seen {
                        ids.push(id.copy());
                        proof {
                            assert(ids@.map_values(|i: RunId| i@) =~= before.push(id@));
                        }
                    }
                },
                None => {},
            }
            k = k + 1;
        }
        proof {
            assert(self.records@.subrange(0, self.records@.len() as int) =~= self.records@);
        }
        ids
    }

    /// The records of one run. A run that the file does not hold gives none.
    pub fn run(&self, id: &RunId) -> (found: Option<Run<'_>>)
        ensures
            match found {
                Some(run) => holds_run(self.records_view(), id@) && run.folds(
                    self.records_view(),
                    id@,
                ),
                None => !holds_run(self.records_view(), id@),
            },
    {
        let mut run = Run {
            id: id.copy(),
            start: None,
            names: Vec::new(),
            rounds: Vec::new(),
            end: None,
        };
        let mut held = false;
        let mut k: usize = 0;
        proof {
            assert(self.records@.subrange(0, 0) =~= Seq::<Record>::empty());
            assert(run.names@.map_values(|r: &NameRecord| *r) =~= Seq::<NameRecord>::empty());
            assert(run.rounds@.map_values(|r: &RoundRecord| *r) =~= Seq::<RoundRecord>::empty());
        }
        while k < self.records.len()
            invariant
                0 <= k <= self.records@.len(),
                run.id@ == id@,
                run.folds(self.records@.subrange(0, k as int), id@),
                held == holds_run(self.records@.subrange(0, k as int), id@),
            decreases self.records@.len() - k,
        {
            let ghost prefix = self.records@.subrange(0, k as int);
            let ghost next = self.records@.subrange(0, k + 1);
            proof {
                assert(next.drop_last() =~= prefix);
                assert(next.last() == self.records@[k as int]);
            }
            let record = &self.records[k];
            let belongs = match record.run_id() {
                Some(r) => r.same(id),
                None => false,
            };
            if belongs {
                held = true;
                match record {
                    Record::Run(start) => {
                        run.start = Some(start);
                    },
                    Record::Name(name) => {
                        run.names.push(name);
                        proof {
                            assert(run.names@.map_values(|r: &NameRecord| *r) =~= names_of(
                                prefix,
                                id@,
                            ).push(*name));
                        }
                    },
                    Record::Round(round) => {
                        run.rounds.push(round);
                        proof {
                            assert(run.rounds@.map_values(|r: &RoundRecord| *r) =~= rounds_of(
                                prefix,
                                id@,
                            ).push(*round));
                        }
                    },
                    Record::End(end) => {
                        run.end = Some(end);
                    },
                    Record::Unknown => {},
                }
                proof {
                    assert(next[k as int] == self.records@[k as int]);
                }
            } else {
                proof {
                    assert forall|i: int| 0 <= i < next.len() && #[trigger] next[i].id_of() == Some(
                        id@,
                    ) implies 0 <= i < prefix.len() && prefix[i].id_of() == Some(id@) by {
                        if i == k {
                            assert(next[i] == self.records@[k as int]);
                        } else {
                            assert(prefix[i] == next[i]);
                        }
                    }
                    if holds_run(prefix, id@) {
                        let i = choose|i: int| 0 <= i < prefix.len() && #[trigger] prefix[i].id_of() == Some(id@);
                        assert(next[i] == prefix[i]);
                    }
                }
            }
            proof {
                if belongs && !holds_run(prefix, id@) {
                    assert(next[k as int].id_of() == Some(id@));
                }
                if holds_run(prefix, id@) {
                    let i = choose|i: int| 0 <= i < prefix.len() && #[trigger] prefix[i].id_of() == Some(id@);
                    assert(next[i] == prefix[i]);
                }
            }
            k = k + 1;
        }
        proof {
            assert(self.records@.subrange(0, self.records@.len() as int) =~= self.records@);
        }
        if held {
            Some(run)
        } else {
            None
        }
    }

    /// The last run that the file holds: the run whose first record comes
    /// last.
    pub fn last_run(&self) -> (found: Option<Run<'_>>)
        ensures
            match found {
                Some(run) => ids_of(self.records_view()).len() > 0 && run.folds(
                    self.records_view(),
                    ids_of(self.records_view()).last(),
                ),
                None => ids_of(self.records_view()).len() == 0,
            },
    {
        let mut ids = self.run_ids();
        let last = ids.pop();
        match last {
            Some(id) => {
                let ghost all = ids_of(self.records_view());
                proof {
                    assert(all.last() == id@);
                    lemma_ids_are_held(self.records_view(), all.len() - 1);
                }
                self.run(&id)
            },
            None => None,
        }
    }
}

} // verus!

verus! {

/// The byte that ends one line of a recorded file.
pub const NEWLINE: u8 = 10u8;

/// True for a character of the Unicode property `White_Space`.
pub open spec fn is_white_space(c: char) -> bool {
    ('\u{9}' <= c && c <= '\u{d}') || c == ' ' || c == '\u{85}' || c == '\u{a0}' || c
        == '\u{1680}' || ('\u{2000}' <= c && c <= '\u{200a}') || c == '\u{2028}' || c
        == '\u{2029}' || c == '\u{202f}' || c == '\u{205f}' || c == '\u{3000}'
}

/// The number of characters of white space at the front of a text.
pub open spec fn leading_space(t: Seq<char>) -> nat
    decreases t.len(),
{
    if t.len() > 0 && is_white_space(t[0]) {
        1 + leading_space(t.drop_first())
    } else {
        0
    }
}

/// The number of characters of white space at the end of a text.
pub open spec fn trailing_space(t: Seq<char>) -> nat
    decreases t.len(),
{
    if t.len() > 0 && is_white_space(t.last()) {
        1 + trailing_space(t.drop_last())
    } else {
        0
    }
}

/// A text without the white space at its two ends.
pub open spec fn trimmed(t: Seq<char>) -> Seq<char> {
    if leading_space(t) == t.len() {
        Seq::empty()
    } else {
        t.subrange(leading_space(t) as int, t.len() - trailing_space(t))
    }
}

/// The text of a line without the white space at its two ends.
///
/// The call is `str::trim`, whose documentation removes the characters of the
/// Unicode property `White_Space` from both ends; the contract says that.
#[verifier::external_body]
fn trim_text(text: &str) -> (t: String)
    ensures
        t@ == trimmed(text@),
{
    text.trim().to_owned()
}

/// The text of a run of bytes, when the bytes are UTF-8.
///
/// The call is `String::from_utf8`, which gives the text exactly when the
/// bytes are well formed UTF-8; the contract says that, and that the text is
/// what the bytes encode.
#[verifier::external_body]
fn utf8_text(bytes: Vec<u8>) -> (t: Option<String>)
    ensures
        t is Some <==> valid_utf8(bytes@),
        t matches Some(s) ==> s@ == decode_utf8(bytes@),
{
    String::from_utf8(bytes).ok()
}

/// Why a recorded file does not read.
#[derive(Clone, Debug, PartialEq, Eq)]
pub enum ReadError {
    /// The file does not open, or a read of the file fails.
    Io {
        /// The path of the file.
        path: String,
        /// The fault that the operating system reported.
        reason: String,
    },
    /// A complete line does not parse.
    Corrupt {
        /// The path of the file.
        path: String,
        /// The number of the line. The first line of a file is line one.
        line: usize,
        /// The fault that the parser reported.
        reason: String,
    },
    /// A complete line is not UTF-8 text.
    NotText {
        /// The path of the file.
        path: String,
        /// The number of the line. The first line of a file is line one.
        line: usize,
    },
}

/// The message of a fault of a recorded file.
pub open spec fn read_error_text(e: ReadError) -> Seq<char> {
    match e {
        ReadError::Io { path, reason } => path@ + ": "@ + reason@,
        ReadError::Corrupt { path, line, reason } => path@ + ": line "@ + decimal(line as nat)
            + " is not one record: "@ + reason@,
        ReadError::NotText { path, line } => path@ + ": line "@ + decimal(line as nat)
            + " is not utf-8 text"@,
    }
}

impl ReadError {
    /// The message of the fault, as the user reads it.
    pub fn message(&self) -> (s: String)
        ensures
            s@ == read_error_text(*self),
    {
        match self {
            ReadError::Io { path, reason } => {
                let mut s = path.clone();
                s.append(": ");
                s.append(reason.as_str());
                s
            },
            ReadError::Corrupt { path, line, reason } => {
                let mut s = path.clone();
                s.append(": line ");
                let n = decimal_text(*line as u128);
                s.append(n.as_str());
                s.append(" is not one record: ");
                s.append(reason.as_str());
                s
            },
            ReadError::NotText { path, line } => {
                let mut s = path.clone();
                s.append(": line ");
                let n = decimal_text(*line as u128);
                s.append(n.as_str());
                s.append(" is not utf-8 text");
                s
            },
        }
    }
}

/// What the reader of a file does next.
#[derive(Debug)]
pub enum Next {
    /// Read the next line of the file.
    Read,
    /// Parse this text into a record, and hand the outcome back.
    Parse(String),
    /// Stop reading: the final line was cut short, and the file is done.
    Stop,
    /// Stop reading: the file does not read, for this reason.
    Fail(ReadError),
}

/// The walk through the lines of one recorded file.
///
/// The caller reads each line of the file up to and with its newline, and
/// hands it over. A line that holds text to parse comes back as
/// [`Next::Parse`]; the caller parses it and hands the outcome to
/// [`Reader::parsed`]. A line whose `type` this build does not know is
/// skipped. A final line that no newline ended and that is not text, or that
/// no parse read, is the cut of the file: it stops the walk, and every record
/// before it still loads.
#[derive(Debug)]
pub struct Reader {
    /// The path of the file, for the messages of its faults.
    path: String,
    /// The records read so far, in the order that the file holds them.
    records: Vec<Record>,
    /// The final line that was cut short, when the walk met one.
    truncated: Option<Truncated>,
    /// The number of lines read so far.
    line: usize,
    /// Whether the line that waits for its parse ended with a newline, and
    /// its length, while one waits.
    pending: Option<(bool, usize)>,
}

/// Whether a line that the reader took ends with the newline of a record.
pub open spec fn is_complete(chunk: Seq<u8>) -> bool {
    chunk.len() > 0 && chunk.last() == NEWLINE
}

impl Reader {
    /// The records read so far.
    pub closed spec fn records_view(&self) -> Seq<Record> {
        self.records@
    }

    /// The cut line that the walk met, if any.
    pub closed spec fn truncated_view(&self) -> Option<Truncated> {
        self.truncated
    }

    /// The number of lines read so far.
    pub closed spec fn line_view(&self) -> nat {
        self.line as nat
    }

    /// The path of the file.
    pub closed spec fn path_view(&self) -> Seq<char> {
        self.path@
    }

    /// Whether a line waits for its parse, and if so whether it ended with a
    /// newline and how long it is.
    pub closed spec fn pending_view(&self) -> Option<(bool, usize)> {
        self.pending
    }

    /// The walk of the file at this path, before its first line.
    pub fn new(path: &str) -> (r: Reader)
        ensures
            r.path_view() == path@,
            r.records_view() == Seq::<Record>::empty(),
            r.truncated_view() is None,
            r.line_view() == 0,
            r.pending_view() is None,
    {
        Reader {
            path: path.to_owned(),
            records: Vec::new(),
            truncated: None,
            line: 0,
            pending: None,
        }
    }

    /// Takes one line of the file, with its newline when it has one.
    pub fn line(&mut self, chunk: Vec<u8>) -> (next: Next)
        requires
            old(self).pending_view() is None,
            old(self).line_view() < usize::MAX,
        ensures
            final(self).path_view() == old(self).path_view(),
            final(self).line_view() == old(self).line_view() + 1,
            final(self).records_view() == old(self).records_view(),
            !valid_utf8(chunk@) && is_complete(chunk@) ==> {
                &&& next matches Next::Fail(e)
                &&& e == ReadError::NotText { path: e->NotText_path, line: final(self).line_view() as usize }
                &&& e->NotText_path@ == old(self).path_view()
                &&& final(self).pending_view() is None
                &&& final(self).truncated_view() == old(self).truncated_view()
            },
            !valid_utf8(chunk@) && !is_complete(chunk@) ==> {
                &&& next is Stop
                &&& final(self).truncated_view() == Some(
                    Truncated::new_spec(final(self).line_view() as usize, chunk@.len() as usize),
                )
                &&& final(self).pending_view() is None
            },
            valid_utf8(chunk@) && trimmed(decode_utf8(chunk@)).len() == 0 ==> {
                &&& next is Read
                &&& final(self).pending_view() is None
                &&& final(self).truncated_view() == old(self).truncated_view()
            },
            valid_utf8(chunk@) && trimmed(decode_utf8(chunk@)).len() > 0 ==> {
                &&& next matches Next::Parse(body)
                &&& body@ == trimmed(decode_utf8(chunk@))
                &&& final(self).pending_view() == Some((is_complete(chunk@), chunk@.len() as usize))
                &&& final(self).truncated_view() == old(self).truncated_view()
            },
    {
        self.line = self.line + 1;
        let n = chunk.len();
        let complete = n > 0 && chunk[n - 1] == NEWLINE;
        match utf8_text(chunk) {
            None => {
                if complete {
                    Next::Fail(ReadError::NotText { path: self.path.clone(), line: self.line })
                } else {
                    self.truncated = Some(Truncated { line: self.line, bytes: n });
                    Next::Stop
                }
            },
            Some(text) => {
                let body = trim_text(text.as_str());
                if body.unicode_len() == 0 {
                    Next::Read
                } else {
                    self.pending = Some((complete, n));
                    Next::Parse(body)
                }
            },
        }
    }

    /// Takes the outcome of the parse of the line that waits for one: a
    /// record, no record for a `type` that this build does not know, or the
    /// fault that the parser named.
    pub fn parsed(&mut self, outcome: Result<Option<Record>, String>) -> (next: Next)
        requires
            old(self).pending_view() is Some,
        ensures
            final(self).path_view() == old(self).path_view(),
            final(self).line_view() == old(self).line_view(),
            final(self).pending_view() is None,
            match outcome {
                Ok(Some(record)) => {
                    &&& next is Read
                    &&& final(self).records_view() == old(self).records_view().push(record)
                    &&& final(self).truncated_view() == old(self).truncated_view()
                },
                Ok(None) => {
                    &&& next is Read
                    &&& final(self).records_view() == old(self).records_view()
                    &&& final(self).truncated_view() == old(self).truncated_view()
                },
                Err(reason) => {
                    &&& final(self).records_view() == old(self).records_view()
                    &&& old(self).pending_view().unwrap().0 ==> {
                        &&& next matches Next::Fail(e)
                        &&& e == ReadError::Corrupt {
                            path: e->Corrupt_path,
                            line: old(self).line_view() as usize,
                            reason,
                        }
                        &&& e->Corrupt_path@ == old(self).path_view()
                        &&& final(self).truncated_view() == old(self).truncated_view()
                    }
                    &&& !old(self).pending_view().unwrap().0 ==> {
                        &&& next is Stop
                        &&& final(self).truncated_view() == Some(
                            Truncated::new_spec(
                                old(self).line_view() as usize,
                                old(self).pending_view().unwrap().1,
                            ),
                        )
                    }
                },
            },
    {
        let (complete, bytes) = match self.pending {
            Some(p) => p,
            None => (true, 0),
        };
        self.pending = None;
        match outcome {
            Ok(Some(record)) => {
                self.records.push(record);
                Next::Read
            },
            Ok(None) => Next::Read,
            Err(reason) => {
                if complete {
                    Next::Fail(ReadError::Corrupt { path: self.path.clone(), line: self.line, reason })
                } else {
                    self.truncated = Some(Truncated { line: self.line, bytes });
                    Next::Stop
                }
            },
        }
    }

    /// The recording of the lines that the walk read.
    pub fn finish(self) -> (r: Recording)
        ensures
            r.records_view() == self.records_view(),
            r.truncated_view() == self.truncated_view(),
    {
        Recording { records: self.records, truncated: self.truncated }
    }
}

} // verus!

verus! {

/// The number of nanoseconds in one millisecond.
pub const NANOS_PER_MILLI: i64 = 1_000_000;

/// The moment that names the run of the next destination of a hunt.
///
/// A run identifier holds the moment of the start to the millisecond, and a
/// hunt starts two destinations inside one millisecond whenever its pool
/// fills. So the moment of a destination stands at least one millisecond
/// after the moment of the destination in front of it, and it is the moment
/// now when that already holds.
pub fn next_moment(previous: Option<Stamp>, now: Stamp) -> (m: Stamp)
    requires
        previous matches Some(p) ==> p.nanos + NANOS_PER_MILLI <= i64::MAX,
    ensures
        m == match previous {
            None => now,
            Some(p) => if now.nanos > p.nanos + NANOS_PER_MILLI {
                now
            } else {
                Stamp { nanos: (p.nanos + NANOS_PER_MILLI) as i64 }
            },
        },
        m.nanos >= now.nanos,
        previous matches Some(p) ==> m.nanos >= p.nanos + NANOS_PER_MILLI,
{
    match previous {
        None => now,
        Some(p) => {
            let least = Stamp { nanos: p.nanos + NANOS_PER_MILLI };
            if now.nanos > least.nanos {
                now
            } else {
                least
            }
        },
    }
}

} // verus!
