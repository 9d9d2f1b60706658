//! The command line of `krt`, after the parser read it, and the configuration
//! of one run that it resolves into.
//!
//! The parser itself stands outside the library. What reaches this module is
//! the plain value of each flag, and the shape of the parser: the names of its
//! commands and the flags that each of them takes. The rules that make one
//! configuration out of those values stand here: the checks of two flags that
//! contradict each other, and the block that a run prints before it probes.

use crate::addr::{addr_string, addr_text, Addr};
use crate::clock::seed_from_clock;
use crate::order::{sort_texts, sorted_texts, text_lt, views};
use crate::period::{duration_text, interval_millis, probe_time, probe_time_of, render_duration, Period};
use crate::record::{Multipath, Privilege, Protocol, RunConfig};
use crate::text::{decimal, decimal_text, push_char, push_quoted, same_text};
use vstd::prelude::*;
use vstd::string::StringExecFns;

verus! {

broadcast use vstd::seq_lib::group_to_multiset_ensures;

/// The name that starts every message that `krt` writes to standard error.
pub const PROGRAM: &'static str = "krt";

/// The value of a flag that holds no limit and no file.
pub const ABSENT: &'static str = "none";

/// The value of the output, when the user names no file.
pub const OUTPUT_DERIVED: &'static str = "derived at run time";

/// The value of the source, when the user names no address.
pub const SOURCE_DISCOVERED: &'static str = "discovered at run time";

/// What the refusal of a target timeout names in the place of a time that no
/// duration holds.
pub const TIME_BEYOND_A_DURATION: &'static str = "more time than a duration holds";

/// The IP version of a probe, after the two flags of the command line
/// resolve.
#[derive(Clone, Copy, Debug, PartialEq, Eq, Structural)]
pub enum AddressFamily {
    /// Let the resolver pick the version.
    Auto,
    /// Force IP version 4.
    Version4,
    /// Force IP version 6.
    Version6,
}

/// The word of an address family.
pub open spec fn family_text(f: AddressFamily) -> Seq<char> {
    match f {
        AddressFamily::Auto => "auto"@,
        AddressFamily::Version4 => "ipv4"@,
        AddressFamily::Version6 => "ipv6"@,
    }
}

impl AddressFamily {
    /// The word of the address family.
    pub fn name(&self) -> (s: String)
        ensures
            s@ == family_text(*self),
    {
        match self {
            AddressFamily::Auto => "auto".to_owned(),
            AddressFamily::Version4 => "ipv4".to_owned(),
            AddressFamily::Version6 => "ipv6".to_owned(),
        }
    }
}

/// The word of a protocol, as the command line writes it.
pub open spec fn protocol_text(p: Protocol) -> Seq<char> {
    match p {
        Protocol::Icmp => "icmp"@,
        Protocol::Udp => "udp"@,
        Protocol::Tcp => "tcp"@,
    }
}

/// The word of a multipath mode, as the command line writes it.
pub open spec fn multipath_text(m: Multipath) -> Seq<char> {
    match m {
        Multipath::Classic => "classic"@,
        Multipath::Paris => "paris"@,
        Multipath::Dublin => "dublin"@,
    }
}

/// The word of a protocol, as the command line writes it.
pub fn protocol_name(p: Protocol) -> (s: String)
    ensures
        s@ == protocol_text(p),
{
    match p {
        Protocol::Icmp => "icmp".to_owned(),
        Protocol::Udp => "udp".to_owned(),
        Protocol::Tcp => "tcp".to_owned(),
    }
}

/// The word of a multipath mode, as the command line writes it.
pub fn multipath_name(m: Multipath) -> (s: String)
    ensures
        s@ == multipath_text(m),
{
    match m {
        Multipath::Classic => "classic".to_owned(),
        Multipath::Paris => "paris".to_owned(),
        Multipath::Dublin => "dublin".to_owned(),
    }
}

/// The flags that a trace and a hunt both take.
#[derive(Clone, Debug)]
pub struct SharedArgs {
    /// The path of the recorded file, when the user named one.
    pub output: Option<String>,
    /// The period of one round.
    pub interval: Period,
    /// The first TTL to probe.
    pub first_ttl: u8,
    /// The last TTL to probe.
    pub max_ttl: u8,
    /// The protocol of a probe.
    pub protocol: Protocol,
    /// True when the run reads no name.
    pub no_dns: bool,
    /// The source address that the user named.
    pub source: Option<Addr>,
}

/// The flags of the `hunt` command.
#[derive(Clone, Debug)]
pub struct HuntArgs {
    /// The number of destinations that must answer.
    pub rounds: u64,
    /// The number of destinations that the hunt traces before it gives up.
    pub max_targets: u64,
    /// The number of destinations that the hunt traces at one moment.
    pub concurrency: usize,
    /// The number of probe rounds that each destination takes.
    pub probes_per_round: u64,
    /// The longest that one destination takes.
    pub target_timeout: Period,
    /// The seed of the draw, when the user named one.
    pub seed: Option<u64>,
    /// True when a partial path competes for a row of the summary.
    pub include_partial: bool,
    /// True when the hunt mines the near space of the longest path.
    pub mine: bool,
    /// The number of addresses that one mine probes.
    pub mine_depth: usize,
    /// The length of the block that one mine stays inside.
    pub mine_prefix: u8,
    /// The number of addresses that one mine probes of any one /24.
    pub mine_per_prefix: usize,
    /// The wait between two addresses of one mine.
    pub mine_delay: Period,
    /// The flags that a trace and a hunt both take.
    pub shared: SharedArgs,
}

/// A command that reads recorded work, or hunts, in the place of a trace.
#[derive(Clone, Debug)]
pub enum Command {
    /// Fold a recorded file and print what it holds.
    Replay {
        /// The recorded file to fold.
        file: String,
        /// The run in the file to fold.
        run: Option<String>,
    },
    /// Hunt for the longest path.
    Hunt(HuntArgs),
}

/// The command line, as the parser read it.
#[derive(Clone, Debug)]
pub struct Cli {
    /// The host or the address to trace.
    pub destination: Option<String>,
    /// The multipath mode.
    pub multipath: Multipath,
    /// True when the line forces IP version 4.
    pub ipv4: bool,
    /// True when the line forces IP version 6.
    pub ipv6: bool,
    /// True when the run prints status lines and no table.
    pub headless: bool,
    /// True when the live table draws an image of the whole history.
    pub graphics: bool,
    /// The time that stops the run.
    pub duration: Option<Period>,
    /// The number of rounds that stops the run.
    pub rounds: Option<u64>,
    /// The flags that a trace and a hunt both take.
    pub shared: SharedArgs,
    /// The command, when the line names one.
    pub command: Option<Command>,
}

/// The numbers that bound one mine of the near space of a long path.
#[derive(Clone, Copy, Debug, PartialEq, Eq, Structural)]
pub struct MinePlan {
    /// The number of addresses that one mine probes.
    pub depth: usize,
    /// The length of the block that one mine stays inside.
    pub prefix: u8,
    /// The number of addresses that one mine probes of any one /24.
    pub per_prefix: usize,
    /// The wait between two addresses of one mine.
    pub delay: Period,
}

/// The configuration of one hunt, after the command line resolves.
#[derive(Clone, Copy, Debug, PartialEq, Eq, Structural)]
pub struct HuntConfig {
    /// The number of destinations that must answer before the hunt stops.
    pub rounds: u64,
    /// The number of destinations that the hunt traces before it gives up.
    pub max_targets: u64,
    /// The number of destinations that the hunt traces at one moment.
    pub concurrency: usize,
    /// The number of probe rounds that each destination takes.
    pub probes_per_round: u64,
    /// The longest that one destination takes, whether it answers or not.
    pub target_timeout: Period,
    /// The seed of the draw of the addresses.
    pub seed: u64,
    /// True when a partial path competes for a row of the summary.
    pub include_partial: bool,
    /// The mine of the near space, when the user asked for one.
    pub mine: Option<MinePlan>,
}

/// The configuration of one run, after the command line resolves.
#[derive(Clone, Debug)]
pub struct ResolvedConfig {
    /// The host or the address to trace.
    pub destination: Option<String>,
    /// The path of the recorded file that the user named.
    pub output: Option<String>,
    /// The period of one round.
    pub interval: Period,
    /// The first TTL to probe.
    pub first_ttl: u8,
    /// The last TTL to probe.
    pub max_ttl: u8,
    /// The protocol of a probe.
    pub protocol: Protocol,
    /// The way a probe keeps or varies the flow of a packet.
    pub multipath: Multipath,
    /// The IP version of a probe.
    pub address_family: AddressFamily,
    /// True when the tool reads the name of each hop.
    pub reverse_dns: bool,
    /// The source address the user named for the derived filename.
    pub source: Option<Addr>,
    /// True when the tool prints status lines and no table.
    pub headless: bool,
    /// True when the live table draws the Recent column as an image.
    pub graphics: bool,
    /// The time that stops the run.
    pub duration: Option<Period>,
    /// The number of rounds that stops the run.
    pub rounds: Option<u64>,
    /// The recorded file to fold and print.
    pub replay: Option<String>,
    /// The run in the recorded file to fold.
    pub run: Option<String>,
    /// The configuration of the hunt.
    pub hunt: Option<HuntConfig>,
}

/// One argument of the parser: its name, and the long and the short name that
/// a user writes.
#[derive(Clone, Debug)]
pub struct Flag {
    /// The name that the parser gives the argument.
    pub id: String,
    /// The long name, without its two dashes.
    pub long: Option<String>,
    /// The short name, without its dash.
    pub short: Option<char>,
}

/// One command of the parser, and the arguments that it takes.
#[derive(Clone, Debug)]
pub struct Subcommand {
    /// The name of the command.
    pub name: String,
    /// The arguments of the command.
    pub flags: Vec<Flag>,
}

/// The shape of the parser, once it is built: the arguments of the top
/// level, and each command with its own.
#[derive(Clone, Debug)]
pub struct ParserShape {
    /// The arguments of the top level.
    pub flags: Vec<Flag>,
    /// The commands.
    pub commands: Vec<Subcommand>,
}

/// True when one of the commands of the parser carries this name.
pub open spec fn names_command(shape: ParserShape, name: Seq<char>) -> bool {
    exists|i: int| 0 <= i < shape.commands@.len() && #[trigger] shape.commands@[i].name@ == name
}

/// The command that a destination names, when the destination is the name of
/// one.
///
/// A line that names a flag in front of a command reads the command as the
/// destination, because the parser takes the first free word as the
/// destination. Such a line would trace a host named after the command.
pub fn command_named(shape: &ParserShape, destination: &str) -> (r: Option<String>)
    ensures
        r is Some <==> names_command(*shape, destination@),
        r matches Some(name) ==> name@ == destination@,
{
    let mut i: usize = 0;
    while i < shape.commands.len()
        invariant
            0 <= i <= shape.commands@.len(),
            forall|j: int| 0 <= j < i ==> #[trigger] shape.commands@[j].name@ != destination@,
        decreases shape.commands@.len() - i,
    {
        if same_text(shape.commands[i].name.as_str(), destination) {
            return Some(shape.commands[i].name.clone());
        }
        i = i + 1;
    }
    None
}

/// The first command of this name, when the parser holds one.
pub open spec fn find_command(commands: Seq<Subcommand>, name: Seq<char>) -> Option<Subcommand>
    decreases commands.len(),
{
    if commands.len() == 0 {
        None
    } else if commands[0].name@ == name {
        Some(commands[0])
    } else {
        find_command(commands.drop_first(), name)
    }
}

/// True when the flag carries this long name.
pub open spec fn long_is(f: Flag, long: Seq<char>) -> bool {
    match f.long {
        Some(l) => l@ == long,
        None => false,
    }
}

/// True when some flag of the list carries this long name.
pub open spec fn has_long(flags: Seq<Flag>, long: Seq<char>) -> bool {
    exists|i: int| 0 <= i < flags.len() && long_is(#[trigger] flags[i], long)
}

/// True when some flag of the list carries this short name.
pub open spec fn has_short(flags: Seq<Flag>, short: char) -> bool {
    exists|i: int| 0 <= i < flags.len() && #[trigger] flags[i].short == Some(short)
}

/// True for the two arguments that the parser writes itself as it builds.
pub open spec fn is_generated(id: Seq<char>) -> bool {
    id == "help"@ || id == "version"@
}

/// The flags of the top level that a command does not take, as a user writes
/// them, in the order of the top level.
pub open spec fn outside_of(top: Seq<Flag>, inner: Seq<Flag>) -> Seq<Seq<char>>
    decreases top.len(),
{
    if top.len() == 0 {
        Seq::empty()
    } else {
        let rest = outside_of(top.drop_last(), inner);
        let f = top.last();
        if is_generated(f.id@) {
            rest
        } else {
            match f.long {
                Some(l) => if has_long(inner, l@) {
                    rest
                } else {
                    rest.push("--"@ + l@)
                },
                None => match f.short {
                    Some(c) => if has_short(inner, c) {
                        rest
                    } else {
                        rest.push(seq!['-', c])
                    },
                    None => rest,
                },
            }
        }
    }
}

/// The flags of the top level that a command does not take, before they are
/// sorted; a command that the parser does not hold takes every flag.
pub open spec fn outside_flags(shape: ParserShape, command: Seq<char>) -> Seq<Seq<char>> {
    match find_command(shape.commands@, command) {
        Some(inner) => outside_of(shape.flags@, inner.flags@),
        None => Seq::empty(),
    }
}

/// True when the flag list carries this long name.
fn takes_long(flags: &Vec<Flag>, long: &str) -> (r: bool)
    ensures
        r == has_long(flags@, long@),
{
    let mut i: usize = 0;
    while i < flags.len()
        invariant
            0 <= i <= flags@.len(),
            forall|j: int| 0 <= j < i ==> !long_is(#[trigger] flags@[j], long@),
        decreases flags@.len() - i,
    {
        match &flags[i].long {
            Some(l) => {
                if same_text(l.as_str(), long) {
                    return true;
                }
            },
            None => {},
        }
        i = i + 1;
    }
    false
}

/// True when the flag list carries this short name.
fn takes_short(flags: &Vec<Flag>, short: char) -> (r: bool)
    ensures
        r == has_short(flags@, short),
{
    let mut i: usize = 0;
    while i < flags.len()
        invariant
            0 <= i <= flags@.len(),
            forall|j: int| 0 <= j < i ==> #[trigger] flags@[j].short != Some(short),
        decreases flags@.len() - i,
    {
        if flags[i].short == Some(short) {
            return true;
        }
        i = i + 1;
    }
    false
}

/// The place of the first command of this name, when the parser holds one.
fn command_index(shape: &ParserShape, command: &str) -> (r: Option<usize>)
    ensures
        match r {
            Some(k) => k < shape.commands@.len() && find_command(shape.commands@, command@) == Some(
                shape.commands@[k as int],
            ),
            None => find_command(shape.commands@, command@) is None,
        },
{
    let mut i: usize = 0;
    proof {
        assert(shape.commands@.subrange(0, shape.commands@.len() as int) =~= shape.commands@);
    }
    while i < shape.commands.len()
        invariant
            0 <= i <= shape.commands@.len(),
            find_command(shape.commands@, command@) == find_command(
                shape.commands@.subrange(i as int, shape.commands@.len() as int),
                command@,
            ),
        decreases shape.commands@.len() - i,
    {
        let ghost rest = shape.commands@.subrange(i as int, shape.commands@.len() as int);
        proof {
            assert(rest[0] == shape.commands@[i as int]);
            assert(rest.drop_first() =~= shape.commands@.subrange(i + 1, shape.commands@.len() as int));
        }
        if same_text(shape.commands[i].name.as_str(), command) {
            return Some(i);
        }
        i = i + 1;
    }
    None
}

/// The flags of the top level that a command does not take, as a user writes
/// them, sorted.
///
/// The message of a command read as a destination tells the reader to write
/// the command first, and that repair fails for a flag that stands on the top
/// level alone. A flag with a long name reads by its long name, a flag with a
/// short name alone reads by its short name, and the two arguments that the
/// parser writes itself are no flags of a probe.
pub fn flags_outside(shape: &ParserShape, command: &str) -> (r: Vec<String>)
    ensures
        sorted_texts(views(r@)),
        views(r@).to_multiset() == outside_flags(*shape, command@).to_multiset(),
{
    let inner = match command_index(shape, command) {
        Some(k) => k,
        None => {
            return Vec::new();
        },
    };
    assert(find_command(shape.commands@, command@) == Some(shape.commands@[inner as int]));
    let inner_flags = &shape.commands[inner].flags;
    let mut outside: Vec<String> = Vec::new();
    let mut k: usize = 0;
    while k < shape.flags.len()
        invariant
            0 <= k <= shape.flags@.len(),
            inner_flags@ == shape.commands@[inner as int].flags@,
            views(outside@) == outside_of(shape.flags@.subrange(0, k as int), inner_flags@),
        decreases shape.flags@.len() - k,
    {
        let f = &shape.flags[k];
        let ghost before = shape.flags@.subrange(0, k as int);
        proof {
            assert(shape.flags@.subrange(0, k + 1).drop_last() =~= before);
            assert(shape.flags@.subrange(0, k + 1).last() == shape.flags@[k as int]);
        }
        let generated = same_text(f.id.as_str(), "help") || same_text(f.id.as_str(), "version");
        if !generated {
            match &f.long {
                Some(l) => {
                    if !takes_long(inner_flags, l.as_str()) {
                        let mut name = String::from_str("--");
                        name.append(l.as_str());
                        outside.push(name);
                        proof {
                            assert(views(outside@) =~= outside_of(before, inner_flags@).push(
                                "--"@ + l@,
                            ));
                        }
                    }
                },
                None => match f.short {
                    Some(c) => {
                        if !takes_short(inner_flags, c) {
                            let mut name = String::new();
                            push_char(&mut name, '-');
                            push_char(&mut name, c);
                            outside.push(name);
                            proof {
                                assert(name@ =~= seq!['-', c]);
                                assert(views(outside@) =~= outside_of(before, inner_flags@).push(
                                    seq!['-', c],
                                ));
                            }
                        }
                    },
                    None => {},
                },
            }
        }
        k = k + 1;
    }
    proof {
        assert(shape.flags@.subrange(0, shape.flags@.len() as int) =~= shape.flags@);
    }
    sort_texts(outside)
}

} // verus!

verus! {

/// A count that a message quotes, between two backticks.
pub open spec fn ticked(t: Seq<char>) -> Seq<char> {
    seq!['`'] + t + seq!['`']
}

/// The reason of a hunt whose cap of the targets stands below its rounds.
pub open spec fn targets_below_message(max_targets: u64, rounds: u64) -> Seq<char> {
    "`--max-targets "@ + decimal(max_targets as nat) + "` is below `--rounds "@ + decimal(
        rounds as nat,
    ) + "`: a hunt that traces "@ + decimal(max_targets as nat) + " destinations never holds "@
        + decimal(rounds as nat) + " that answered"@
}

/// The text of the time that a timeout must hold, or the words of a time
/// that no duration holds.
pub open spec fn needed_text(needed: Option<Period>) -> Seq<char> {
    match needed {
        Some(n) => duration_text(n),
        None => TIME_BEYOND_A_DURATION@,
    }
}

/// The reason of a hunt whose target timeout cannot hold its probe rounds.
pub open spec fn timeout_message(
    timeout: Period,
    probes: u64,
    interval: Period,
    needed: Option<Period>,
) -> Seq<char> {
    "`--target-timeout "@ + duration_text(timeout) + "` cannot hold `--probes-per-round "@
        + decimal(probes as nat) + "` at an interval of "@ + duration_text(interval)
        + ". The last round lands past the time of the rounds, so the timeout must hold one round more, which is "@
        + needed_text(needed) + ": raise the timeout or lower the probe rounds"@
}

/// One more than a count, held at the width of a `u64`.
pub open spec fn one_more(n: u64) -> nat {
    if n == u64::MAX {
        n as nat
    } else {
        (n + 1) as nat
    }
}

/// The time that a timeout must hold: one probe round more than the line
/// asks for, at the interval of one round.
pub open spec fn needed_time(interval: Period, probes: u64) -> Option<Period> {
    probe_time_of(interval, one_more(probes))
}

/// The reason that the flags of one hunt contradict each other, when they do.
pub open spec fn contradiction_of(command: Option<Command>, interval: Period) -> Option<Seq<char>> {
    match command {
        Some(Command::Hunt(h)) => if h.max_targets < h.rounds {
            Some(targets_below_message(h.max_targets, h.rounds))
        } else {
            let needed = needed_time(interval, h.probes_per_round);
            if needed is None || h.target_timeout.total_millis() <= needed.unwrap().total_millis() {
                Some(timeout_message(h.target_timeout, h.probes_per_round, interval, needed))
            } else {
                None
            }
        },
        _ => None,
    }
}

/// The periods of a command are periods that hold fewer than a thousand
/// milliseconds past their seconds.
pub open spec fn command_wf(command: Option<Command>) -> bool {
    match command {
        Some(Command::Hunt(h)) => h.target_timeout.wf() && h.mine_delay.wf()
            && h.shared.interval.wf(),
        _ => true,
    }
}

/// The reason that the flags of one hunt contradict each other, when they do.
///
/// A cap of the targets below the rounds of the same line gives up before the
/// hunt can hold the rounds it wants. A target timeout that the probe rounds of
/// the same line run past cuts every destination short of its last round: the
/// last of N rounds lands past N intervals, so the timeout must hold one probe
/// round more than the line asks for. A line that names no hunt holds no such
/// pair.
pub fn hunt_contradiction(command: Option<&Command>, interval: Period) -> (r: Option<String>)
    requires
        interval.wf(),
        command matches Some(c) ==> command_wf(Some(*c)),
    ensures
        match command {
            Some(c) => match (r, contradiction_of(Some(*c), interval)) {
                (Some(m), Some(t)) => m@ == t,
                (None, None) => true,
                _ => false,
            },
            None => r is None,
        },
{
    let h = match command {
        Some(Command::Hunt(h)) => h,
        _ => {
            return None;
        },
    };
    if h.max_targets < h.rounds {
        let mut s = String::from_str("`--max-targets ");
        let mt = decimal_text(h.max_targets as u128);
        s.append(mt.as_str());
        s.append("` is below `--rounds ");
        let rounds = decimal_text(h.rounds as u128);
        s.append(rounds.as_str());
        s.append("`: a hunt that traces ");
        s.append(mt.as_str());
        s.append(" destinations never holds ");
        s.append(rounds.as_str());
        s.append(" that answered");
        return Some(s);
    }
    let more = if h.probes_per_round == u64::MAX {
        h.probes_per_round
    } else {
        h.probes_per_round + 1
    };
    let needed = probe_time(interval, more);
    let refused = match needed {
        None => true,
        Some(n) => {
            h.target_timeout.secs < n.secs || (h.target_timeout.secs == n.secs
                && h.target_timeout.millis <= n.millis)
        },
    };
    if refused {
        let needs = match needed {
            Some(n) => render_duration(n),
            None => TIME_BEYOND_A_DURATION.to_owned(),
        };
        let mut s = String::from_str("`--target-timeout ");
        let tt = render_duration(h.target_timeout);
        s.append(tt.as_str());
        s.append("` cannot hold `--probes-per-round ");
        let probes = decimal_text(h.probes_per_round as u128);
        s.append(probes.as_str());
        s.append("` at an interval of ");
        let iv = render_duration(interval);
        s.append(iv.as_str());
        s.append(
            ". The last round lands past the time of the rounds, so the timeout must hold one round more, which is ",
        );
        s.append(needs.as_str());
        s.append(": raise the timeout or lower the probe rounds");
        return Some(s);
    }
    None
}

/// The flags of a probe that a command line resolves with: the copy of a
/// hunt, or the flags of the top level for every other line.
pub open spec fn probe_of(cli: Cli) -> SharedArgs {
    match cli.command {
        Some(Command::Hunt(h)) => h.shared,
        _ => cli.shared,
    }
}

/// The flags of a command line, each one quoted, with a comma between two.
pub open spec fn quoted_list(names: Seq<Seq<char>>) -> Seq<char>
    decreases names.len(),
{
    if names.len() == 0 {
        Seq::empty()
    } else if names.len() == 1 {
        ticked(names[0])
    } else {
        quoted_list(names.drop_last()) + ", "@ + ticked(names.last())
    }
}

/// The reason of a line that reads the name of a command as its destination.
pub open spec fn command_message(name: Seq<char>, outside: Seq<Seq<char>>) -> Seq<char> {
    ticked(name)
        + " is the name of a command, and this line reads it as a destination: write `krt "@
        + name + "` first, because every flag of a probe stands behind the command."@ + if outside.len()
        == 0 {
        Seq::empty()
    } else {
        " "@ + ticked(name) + " takes none of these flags: "@ + quoted_list(outside) + "."@
    }
}

/// The reason of a first TTL above the max TTL.
pub open spec fn ttl_message(first: u8, max: u8) -> Seq<char> {
    "`--first-ttl "@ + decimal(first as nat) + "` is above `--max-ttl "@ + decimal(max as nat)
        + "`: the first TTL starts the probe and the max TTL ends it"@
}

/// The reason of a multipath mode that the protocol cannot carry.
pub open spec fn multipath_message(m: Multipath, p: Protocol) -> Seq<char> {
    "`--multipath "@ + multipath_text(m) + "` needs `--protocol udp`, but the protocol is `"@
        + protocol_text(p) + "`"@
}

/// True when the destination of the line is the name of a command.
pub open spec fn reads_command(cli: Cli, shape: ParserShape) -> bool {
    cli.destination matches Some(d) && names_command(shape, d@)
}

/// True when the first TTL of the line stands above its max TTL.
pub open spec fn ttl_backward(cli: Cli) -> bool {
    probe_of(cli).first_ttl > probe_of(cli).max_ttl
}

/// True when the line names a multipath mode that its protocol cannot carry.
pub open spec fn mode_refused(cli: Cli) -> bool {
    cli.multipath != Multipath::Classic && probe_of(cli).protocol != Protocol::Udp
}

/// The address family of the two flags of a command line.
pub open spec fn family_of(ipv4: bool, ipv6: bool) -> AddressFamily {
    if ipv4 {
        AddressFamily::Version4
    } else if ipv6 {
        AddressFamily::Version6
    } else {
        AddressFamily::Auto
    }
}

/// The hunt that the flags of a `hunt` command resolve into.
pub open spec fn hunt_from(h: HuntArgs, c: HuntConfig) -> bool {
    &&& c.rounds == h.rounds
    &&& c.max_targets == h.max_targets
    &&& c.concurrency == h.concurrency
    &&& c.probes_per_round == h.probes_per_round
    &&& c.target_timeout == h.target_timeout
    &&& (h.seed matches Some(s) ==> c.seed == s)
    &&& c.include_partial == h.include_partial
    &&& c.mine == if h.mine {
        Some(
            MinePlan {
                depth: h.mine_depth,
                prefix: h.mine_prefix,
                per_prefix: h.mine_per_prefix,
                delay: h.mine_delay,
            },
        )
    } else {
        None::<MinePlan>
    }
}

/// The configuration that a command line resolves into.
pub open spec fn resolved_from(cli: Cli, c: ResolvedConfig) -> bool {
    let shared = probe_of(cli);
    &&& c.destination == cli.destination
    &&& c.output == shared.output
    &&& c.interval == shared.interval
    &&& c.first_ttl == shared.first_ttl
    &&& c.max_ttl == shared.max_ttl
    &&& c.protocol == shared.protocol
    &&& c.multipath == cli.multipath
    &&& c.address_family == family_of(cli.ipv4, cli.ipv6)
    &&& c.reverse_dns == !shared.no_dns
    &&& c.source == shared.source
    &&& c.headless == cli.headless
    &&& c.graphics == cli.graphics
    &&& c.duration == cli.duration
    &&& c.rounds == cli.rounds
    &&& match cli.command {
        Some(Command::Replay { file, run }) => c.replay == Some(file) && c.run == run
            && c.hunt is None,
        Some(Command::Hunt(h)) => {
            &&& c.replay is None
            &&& c.run is None
            &&& c.hunt matches Some(hc) && hunt_from(h, hc)
        },
        None => c.replay is None && c.run is None && c.hunt is None,
    }
}

/// The periods of a command line hold fewer than a thousand milliseconds past
/// their seconds, as every period that the parser reads does.
pub open spec fn cli_wf(cli: Cli) -> bool {
    &&& cli.shared.interval.wf()
    &&& command_wf(cli.command)
    &&& (cli.duration matches Some(d) ==> d.wf())
}

/// Writes the flags of a command line, each one quoted, with a comma between
/// two.
fn push_quoted_list(s: &mut String, names: &Vec<String>)
    ensures
        final(s)@ == old(s)@ + quoted_list(views(names@)),
{
    let mut k: usize = 0;
    while k < names.len()
        invariant
            0 <= k <= names@.len(),
            s@ == old(s)@ + quoted_list(views(names@.subrange(0, k as int))),
        decreases names@.len() - k,
    {
        let ghost before = s@;
        proof {
            assert(views(names@.subrange(0, k + 1)).drop_last() =~= views(
                names@.subrange(0, k as int),
            ));
            assert(views(names@.subrange(0, k + 1)).last() == names@[k as int]@);
        }
        if k > 0 {
            s.append(", ");
        }
        push_quoted(s, names[k].as_str());
        proof {
            if k == 0 {
                assert(views(names@.subrange(0, 1)) =~= seq![names@[0]@]);
                assert(views(names@.subrange(0, 0)) =~= Seq::<Seq<char>>::empty());
            }
            assert(s@ =~= old(s)@ + quoted_list(views(names@.subrange(0, k + 1))));
        }
        k = k + 1;
    }
    proof {
        assert(names@.subrange(0, names@.len() as int) =~= names@);
    }
}

/// The configuration of the hunt that a command line names, and the flags of
/// a probe that the run then reads.
///
/// A hunt carries its own copy of the shared flags, because the parser
/// rejects a flag of a probe in front of a command, so the hunt wins over the
/// flags of the line in front of it. `outside` is that outer copy, and a line
/// that names no hunt reads it. A hunt that named no seed takes one off the
/// clock, so every hunt resolves to a seed that the block of the
/// configuration prints.
pub fn hunt_config(command: Option<Command>, outside: SharedArgs) -> (r: (Option<HuntConfig>, SharedArgs))
    ensures
        match command {
            Some(Command::Hunt(h)) => r.0 matches Some(c) && hunt_from(h, c) && r.1 == h.shared,
            _ => r.0 is None && r.1 == outside,
        },
{
    let h = match command {
        Some(Command::Hunt(h)) => h,
        _ => {
            return (None, outside);
        },
    };
    let HuntArgs {
        rounds,
        max_targets,
        concurrency,
        probes_per_round,
        target_timeout,
        seed,
        include_partial,
        mine,
        mine_depth,
        mine_prefix,
        mine_per_prefix,
        mine_delay,
        shared,
    } = h;
    let seed = match seed {
        Some(s) => s,
        None => seed_from_clock(),
    };
    let mine = if mine {
        Some(MinePlan { depth: mine_depth, prefix: mine_prefix, per_prefix: mine_per_prefix, delay: mine_delay })
    } else {
        None
    };
    (
        Some(
            HuntConfig {
                rounds,
                max_targets,
                concurrency,
                probes_per_round,
                target_timeout,
                seed,
                include_partial,
                mine,
            },
        ),
        shared,
    )
}

impl Cli {
    /// The shared flags of the side of the command line that probes: the copy
    /// of a hunt, and the flags of the top level for every other line.
    pub fn probe_args(&self) -> (shared: &SharedArgs)
        ensures
            *shared == probe_of(*self),
    {
        match &self.command {
            Some(Command::Hunt(h)) => &h.shared,
            _ => &self.shared,
        }
    }

    /// Resolves the command line into the configuration of one run.
    ///
    /// A destination that is the name of a command stops the line first: such
    /// a line holds flags in front of the command, and a message about one of
    /// them would send the reader after the wrong flag. A first TTL above the
    /// max TTL leaves no hop to probe. A multipath mode other than `classic`
    /// needs UDP. The flags of a hunt that contradict each other come last.
    ///
    /// The two flags of the address family collapse into one value, `--no-dns`
    /// becomes the behavior it controls, the `replay` command becomes the file
    /// and the run to fold, and a hunt that named no seed takes one off the
    /// clock.
    pub fn resolve(self, shape: &ParserShape) -> (r: Result<ResolvedConfig, String>)
        requires
            cli_wf(self),
        ensures
            reads_command(self, *shape) ==> (r matches Err(m) && exists|o: Seq<Seq<char>>|
                sorted_texts(o) && o.to_multiset() == outside_flags(
                    *shape,
                    self.destination.unwrap()@,
                ).to_multiset() && m@ == command_message(self.destination.unwrap()@, o)),
            !reads_command(self, *shape) && ttl_backward(self) ==> (r matches Err(m) && m@
                == ttl_message(probe_of(self).first_ttl, probe_of(self).max_ttl)),
            !reads_command(self, *shape) && !ttl_backward(self) && mode_refused(self) ==> (r matches Err(
                m,
            ) && m@ == multipath_message(self.multipath, probe_of(self).protocol)),
            !reads_command(self, *shape) && !ttl_backward(self) && !mode_refused(self)
                && contradiction_of(self.command, probe_of(self).interval) is Some ==> (r matches Err(
                m,
            ) && Some(m@) == contradiction_of(self.command, probe_of(self).interval)),
            !reads_command(self, *shape) && !ttl_backward(self) && !mode_refused(self)
                && contradiction_of(self.command, probe_of(self).interval) is None ==> (r matches Ok(
                c,
            ) && resolved_from(self, c)),
    {
        let ghost cli = self;
        match &self.destination {
            Some(destination) => {
                match command_named(shape, destination.as_str()) {
                    Some(command) => {
                        let outside = flags_outside(shape, command.as_str());
                        let mut s = String::new();
                        push_quoted(&mut s, destination.as_str());
                        s.append(
                            " is the name of a command, and this line reads it as a destination: write `krt ",
                        );
                        s.append(command.as_str());
                        s.append("` first, because every flag of a probe stands behind the command.");
                        if outside.len() > 0 {
                            s.append(" ");
                            push_quoted(&mut s, command.as_str());
                            s.append(" takes none of these flags: ");
                            push_quoted_list(&mut s, &outside);
                            s.append(".");
                        }
                        proof {
                            let o = views(outside@);
                            assert(o.len() == outside@.len());
                            assert(s@ =~= command_message(destination@, o));
                        }
                        return Err(s);
                    },
                    None => {},
                }
            },
            None => {},
        }
        let (first_ttl, max_ttl, protocol, interval) = match &self.command {
            Some(Command::Hunt(h)) => (
                h.shared.first_ttl,
                h.shared.max_ttl,
                h.shared.protocol,
                h.shared.interval,
            ),
            _ => (self.shared.first_ttl, self.shared.max_ttl, self.shared.protocol, self.shared.interval),
        };
        if first_ttl > max_ttl {
            let mut s = String::from_str("`--first-ttl ");
            let f = decimal_text(first_ttl as u128);
            s.append(f.as_str());
            s.append("` is above `--max-ttl ");
            let m = decimal_text(max_ttl as u128);
            s.append(m.as_str());
            s.append("`: the first TTL starts the probe and the max TTL ends it");
            return Err(s);
        }
        let carries_a_mode = protocol == Protocol::Udp;
        if self.multipath != Multipath::Classic && !carries_a_mode {
            let mut s = String::from_str("`--multipath ");
            let m = multipath_name(self.multipath);
            s.append(m.as_str());
            s.append("` needs `--protocol udp`, but the protocol is `");
            let p = protocol_name(protocol);
            s.append(p.as_str());
            s.append("`");
            return Err(s);
        }
        match hunt_contradiction(self.command.as_ref(), interval) {
            Some(reason) => {
                return Err(reason);
            },
            None => {},
        }
        let address_family = if self.ipv4 {
            AddressFamily::Version4
        } else if self.ipv6 {
            AddressFamily::Version6
        } else {
            AddressFamily::Auto
        };
        let Cli {
            destination,
            multipath,
            ipv4: _,
            ipv6: _,
            headless,
            graphics,
            duration,
            rounds,
            shared,
            command,
        } = self;
        let (replay, run) = match &command {
            Some(Command::Replay { file, run }) => (Some(file.clone()), run.clone()),
            _ => (None, None),
        };
        let (hunt, shared) = hunt_config(command, shared);
        Ok(
            ResolvedConfig {
                destination,
                output: shared.output,
                interval: shared.interval,
                first_ttl: shared.first_ttl,
                max_ttl: shared.max_ttl,
                protocol: shared.protocol,
                multipath,
                address_family,
                reverse_dns: !shared.no_dns,
                source: shared.source,
                headless,
                graphics,
                duration,
                rounds,
                replay,
                run,
                hunt,
            },
        )
    }
}

} // verus!

verus! {

/// The number of spaces between the longest key of the block and its value.
pub const CONFIG_KEY_GAP: usize = 1;

/// The words of a switch.
pub open spec fn on_off(b: bool) -> Seq<char> {
    if b {
        "on"@
    } else {
        "off"@
    }
}

/// The text of a value that may be absent.
pub open spec fn or_text(o: Option<String>, absent: Seq<char>) -> Seq<char> {
    match o {
        Some(t) => t@,
        None => absent,
    }
}

/// The text of the source of a run.
pub open spec fn source_text(source: Option<Addr>) -> Seq<char> {
    match source {
        Some(a) => addr_text(a),
        None => SOURCE_DISCOVERED@,
    }
}

/// The text of a time limit.
pub open spec fn limit_text(d: Option<Period>) -> Seq<char> {
    match d {
        Some(p) => duration_text(p),
        None => ABSENT@,
    }
}

/// The text of a round limit.
pub open spec fn count_limit_text(r: Option<u64>) -> Seq<char> {
    match r {
        Some(n) => decimal(n as nat),
        None => ABSENT@,
    }
}

/// The rows of the block of a trace.
pub open spec fn trace_rows(c: ResolvedConfig) -> Seq<(Seq<char>, Seq<char>)> {
    seq![
        ("destination"@, or_text(c.destination, ABSENT@)),
        ("output"@, or_text(c.output, OUTPUT_DERIVED@)),
        ("interval"@, duration_text(c.interval)),
        ("first ttl"@, decimal(c.first_ttl as nat)),
        ("max ttl"@, decimal(c.max_ttl as nat)),
        ("protocol"@, protocol_text(c.protocol)),
        ("multipath"@, multipath_text(c.multipath)),
        ("address family"@, family_text(c.address_family)),
        ("reverse dns"@, on_off(c.reverse_dns)),
        ("source"@, source_text(c.source)),
        ("display"@, if c.headless {
            "headless"@
        } else {
            "table"@
        }),
        ("duration limit"@, limit_text(c.duration)),
        ("round limit"@, count_limit_text(c.rounds)),
    ]
}

/// The rows of the block of a hunt.
pub open spec fn hunt_rows(c: ResolvedConfig, h: HuntConfig) -> Seq<(Seq<char>, Seq<char>)> {
    let rows = seq![
        ("output"@, or_text(c.output, OUTPUT_DERIVED@)),
        ("interval"@, duration_text(c.interval)),
        ("first ttl"@, decimal(c.first_ttl as nat)),
        ("max ttl"@, decimal(c.max_ttl as nat)),
        ("protocol"@, protocol_text(c.protocol)),
        ("multipath"@, multipath_text(c.multipath)),
        ("reverse dns"@, on_off(c.reverse_dns)),
        ("source"@, source_text(c.source)),
        ("rounds"@, decimal(h.rounds as nat)),
        ("max targets"@, decimal(h.max_targets as nat)),
        ("at once"@, decimal(h.concurrency as nat)),
        ("probes per round"@, decimal(h.probes_per_round as nat)),
        ("target timeout"@, duration_text(h.target_timeout)),
        ("seed"@, decimal(h.seed as nat)),
        ("include partial"@, on_off(h.include_partial)),
        ("mine"@, on_off(h.mine is Some)),
    ];
    match h.mine {
        Some(m) => rows + seq![
            ("mine depth"@, decimal(m.depth as nat)),
            ("mine prefix"@, seq!['/'] + decimal(m.prefix as nat)),
            ("mine per prefix"@, decimal(m.per_prefix as nat)),
            ("mine delay"@, duration_text(m.delay)),
        ],
        None => rows,
    }
}

/// The rows of the block that a run prints before it probes.
pub open spec fn config_rows(c: ResolvedConfig) -> Seq<(Seq<char>, Seq<char>)> {
    match c.hunt {
        Some(h) => hunt_rows(c, h),
        None => trace_rows(c),
    }
}

/// The views of the rows of a block.
pub open spec fn row_views(rows: Seq<(String, String)>) -> Seq<(Seq<char>, Seq<char>)> {
    rows.map_values(|r: (String, String)| (r.0@, r.1@))
}

/// The periods of a configuration hold fewer than a thousand milliseconds
/// past their seconds.
pub open spec fn config_wf(c: ResolvedConfig) -> bool {
    &&& c.interval.wf()
    &&& (c.duration matches Some(d) ==> d.wf())
    &&& (c.hunt matches Some(h) ==> h.target_timeout.wf() && (h.mine matches Some(m) ==> m.delay.wf()))
}

/// Appends one row to the rows of a block.
fn push_row(rows: &mut Vec<(String, String)>, key: &str, value: String)
    ensures
        row_views(final(rows)@) == row_views(old(rows)@).push((key@, value@)),
{
    rows.push((key.to_owned(), value));
    proof {
        assert(row_views(rows@) =~= row_views(old(rows)@).push((key@, value@)));
    }
}

/// The text of a value that may be absent.
fn or_string(o: &Option<String>, absent: &str) -> (s: String)
    ensures
        s@ == or_text(*o, absent@),
{
    match o {
        Some(t) => t.clone(),
        None => absent.to_owned(),
    }
}

/// The words of a switch.
fn on_off_string(b: bool) -> (s: String)
    ensures
        s@ == on_off(b),
{
    if b {
        "on".to_owned()
    } else {
        "off".to_owned()
    }
}

/// The text of the source of a run.
fn source_string(source: Option<Addr>) -> (s: String)
    ensures
        s@ == source_text(source),
{
    match source {
        Some(a) => addr_string(a),
        None => SOURCE_DISCOVERED.to_owned(),
    }
}

/// The widest key of the rows, with its colon.
pub open spec fn widest_key(rows: Seq<(Seq<char>, Seq<char>)>) -> nat
    decreases rows.len(),
{
    if rows.len() == 0 {
        0
    } else {
        let before = widest_key(rows.drop_last());
        let here = rows.last().0.len() + 1;
        if here > before {
            here
        } else {
            before
        }
    }
}

/// The widest key holds every key of the rows, with its colon.
proof fn lemma_widest_key_holds(rows: Seq<(Seq<char>, Seq<char>)>, i: int)
    requires
        0 <= i < rows.len(),
    ensures
        rows[i].0.len() + 1 <= widest_key(rows),
    decreases rows.len(),
{
    if i < rows.len() - 1 {
        lemma_widest_key_holds(rows.drop_last(), i);
        assert(rows.drop_last()[i] == rows[i]);
    }
}

/// Every value of a block stands in one column: the key of each row, with
/// its colon, pads to one width, and at least one space stands between that
/// colon and the value.
pub proof fn lemma_values_line_up(rows: Seq<(Seq<char>, Seq<char>)>, i: int)
    requires
        0 <= i < rows.len(),
    ensures
        padded(rows[i].0 + seq![':'], widest_key(rows) + 1).len() == widest_key(rows) + 1,
        (rows[i].0 + seq![':']).len() < widest_key(rows) + 1,
{
    lemma_widest_key_holds(rows, i);
}

/// A run of spaces.
pub open spec fn spaces(n: nat) -> Seq<char> {
    Seq::new(n, |_i: int| ' ')
}

/// A text, padded with spaces on its right to a width.
pub open spec fn padded(t: Seq<char>, width: nat) -> Seq<char> {
    if t.len() >= width {
        t
    } else {
        t + spaces((width - t.len()) as nat)
    }
}

/// The lines of the rows of a block, each key padded to one width.
pub open spec fn row_lines(rows: Seq<(Seq<char>, Seq<char>)>, width: nat) -> Seq<char>
    decreases rows.len(),
{
    if rows.len() == 0 {
        Seq::empty()
    } else {
        row_lines(rows.drop_last(), width) + "  "@ + padded(rows.last().0 + seq![':'], width)
            + rows.last().1 + "\n"@
    }
}

/// The block that a run prints before it probes: a head line, and one line
/// for each row, whose values stand in one column one space clear of the
/// longest key.
pub open spec fn block_text(rows: Seq<(Seq<char>, Seq<char>)>) -> Seq<char> {
    "resolved configuration:\n"@ + row_lines(rows, widest_key(rows) + 1)
}

/// Appends spaces.
fn push_spaces(s: &mut String, n: usize)
    ensures
        final(s)@ == old(s)@ + spaces(n as nat),
{
    let mut k: usize = 0;
    while k < n
        invariant
            0 <= k <= n,
            s@ == old(s)@ + spaces(k as nat),
        decreases n - k,
    {
        push_char(s, ' ');
        k = k + 1;
        proof {
            assert(s@ =~= old(s)@ + spaces(k as nat));
        }
    }
}

/// Writes the block of these rows.
pub fn block_of(rows: &Vec<(String, String)>) -> (s: String)
    requires
        rows@.len() < usize::MAX,
        forall|i: int| 0 <= i < rows@.len() ==> (#[trigger] rows@[i]).0@.len() < usize::MAX - 2,
    ensures
        s@ == block_text(row_views(rows@)),
{
    let ghost rv = row_views(rows@);
    let mut widest: usize = 0;
    let mut k: usize = 0;
    while k < rows.len()
        invariant
            0 <= k <= rows@.len(),
            rv == row_views(rows@),
            forall|i: int| 0 <= i < rows@.len() ==> (#[trigger] rows@[i]).0@.len() < usize::MAX - 2,
            widest as nat == widest_key(rv.subrange(0, k as int)),
            widest < usize::MAX - 1,
        decreases rows@.len() - k,
    {
        proof {
            assert(rv.subrange(0, k + 1).drop_last() =~= rv.subrange(0, k as int));
            assert(rv.subrange(0, k + 1).last() == rv[k as int]);
            assert(rv[k as int].0 == rows@[k as int].0@);
        }
        let here = rows[k].0.as_str().unicode_len() + 1;
        if here > widest {
            widest = here;
        }
        k = k + 1;
    }
    proof {
        assert(rv.subrange(0, rows@.len() as int) =~= rv);
    }
    let width = widest + CONFIG_KEY_GAP;
    let mut s = String::from_str("resolved configuration:\n");
    let ghost head = s@;
    let mut k: usize = 0;
    while k < rows.len()
        invariant
            0 <= k <= rows@.len(),
            rv == row_views(rows@),
            width as nat == widest_key(rv) + 1,
            s@ == head + row_lines(rv.subrange(0, k as int), width as nat),
            forall|i: int| 0 <= i < rows@.len() ==> (#[trigger] rows@[i]).0@.len() < usize::MAX - 2,
        decreases rows@.len() - k,
    {
        proof {
            assert(rv.subrange(0, k + 1).drop_last() =~= rv.subrange(0, k as int));
            assert(rv.subrange(0, k + 1).last() == rv[k as int]);
            assert(rv[k as int].0 == rows@[k as int].0@);
            assert(rv[k as int].1 == rows@[k as int].1@);
        }
        s.append("  ");
        let ghost before = s@;
        s.append(rows[k].0.as_str());
        push_char(&mut s, ':');
        let key_len = rows[k].0.as_str().unicode_len() + 1;
        if key_len < width {
            push_spaces(&mut s, width - key_len);
        }
        proof {
            let key = rows@[k as int].0@ + seq![':'];
            assert(key.len() == key_len);
            assert(s@ =~= before + padded(key, width as nat));
        }
        s.append(rows[k].1.as_str());
        s.append("\n");
        k = k + 1;
    }
    proof {
        assert(rv.subrange(0, rows@.len() as int) =~= rv);
    }
    s
}

/// Every key of the block is a short word.
proof fn lemma_row_keys_short(c: ResolvedConfig)
    ensures
        config_rows(c).len() <= 20,
        forall|i: int| 0 <= i < config_rows(c).len() ==> (#[trigger] config_rows(c)[i]).0.len() <= 16,
{
    reveal_strlit("destination");
    reveal_strlit("output");
    reveal_strlit("interval");
    reveal_strlit("first ttl");
    reveal_strlit("max ttl");
    reveal_strlit("protocol");
    reveal_strlit("multipath");
    reveal_strlit("address family");
    reveal_strlit("reverse dns");
    reveal_strlit("source");
    reveal_strlit("display");
    reveal_strlit("duration limit");
    reveal_strlit("round limit");
    reveal_strlit("rounds");
    reveal_strlit("max targets");
    reveal_strlit("at once");
    reveal_strlit("probes per round");
    reveal_strlit("target timeout");
    reveal_strlit("seed");
    reveal_strlit("include partial");
    reveal_strlit("mine");
    reveal_strlit("mine depth");
    reveal_strlit("mine prefix");
    reveal_strlit("mine per prefix");
    reveal_strlit("mine delay");
}

impl ResolvedConfig {
    /// The rows of the block that a run prints before it probes.
    ///
    /// A hunt and a trace hold different rows, because a hunt draws its own
    /// destination, draws addresses of ip version 4 alone, and draws no live
    /// table. A hunt that mines nothing names no bound of a mine.
    pub fn rows(&self) -> (rows: Vec<(String, String)>)
        requires
            config_wf(*self),
        ensures
            row_views(rows@) == config_rows(*self),
    {
        let mut rows: Vec<(String, String)> = Vec::new();
        match &self.hunt {
            None => {
                push_row(&mut rows, "destination", or_string(&self.destination, ABSENT));
                push_row(&mut rows, "output", or_string(&self.output, OUTPUT_DERIVED));
                push_row(&mut rows, "interval", render_duration(self.interval));
                push_row(&mut rows, "first ttl", decimal_text(self.first_ttl as u128));
                push_row(&mut rows, "max ttl", decimal_text(self.max_ttl as u128));
                push_row(&mut rows, "protocol", protocol_name(self.protocol));
                push_row(&mut rows, "multipath", multipath_name(self.multipath));
                push_row(&mut rows, "address family", self.address_family.name());
                push_row(&mut rows, "reverse dns", on_off_string(self.reverse_dns));
                push_row(&mut rows, "source", source_string(self.source));
                let display = if self.headless {
                    "headless".to_owned()
                } else {
                    "table".to_owned()
                };
                push_row(&mut rows, "display", display);
                let limit = match self.duration {
                    Some(d) => render_duration(d),
                    None => ABSENT.to_owned(),
                };
                push_row(&mut rows, "duration limit", limit);
                let round_limit = match self.rounds {
                    Some(n) => decimal_text(n as u128),
                    None => ABSENT.to_owned(),
                };
                push_row(&mut rows, "round limit", round_limit);
                proof {
                    assert(row_views(rows@) =~= trace_rows(*self));
                }
            },
            Some(h) => {
                push_row(&mut rows, "output", or_string(&self.output, OUTPUT_DERIVED));
                push_row(&mut rows, "interval", render_duration(self.interval));
                push_row(&mut rows, "first ttl", decimal_text(self.first_ttl as u128));
                push_row(&mut rows, "max ttl", decimal_text(self.max_ttl as u128));
                push_row(&mut rows, "protocol", protocol_name(self.protocol));
                push_row(&mut rows, "multipath", multipath_name(self.multipath));
                push_row(&mut rows, "reverse dns", on_off_string(self.reverse_dns));
                push_row(&mut rows, "source", source_string(self.source));
                push_row(&mut rows, "rounds", decimal_text(h.rounds as u128));
                push_row(&mut rows, "max targets", decimal_text(h.max_targets as u128));
                push_row(&mut rows, "at once", decimal_text(h.concurrency as u128));
                push_row(&mut rows, "probes per round", decimal_text(h.probes_per_round as u128));
                push_row(&mut rows, "target timeout", render_duration(h.target_timeout));
                push_row(&mut rows, "seed", decimal_text(h.seed as u128));
                push_row(&mut rows, "include partial", on_off_string(h.include_partial));
                push_row(&mut rows, "mine", on_off_string(h.mine.is_some()));
                let ghost base = row_views(rows@);
                match h.mine {
                    Some(m) => {
                        push_row(&mut rows, "mine depth", decimal_text(m.depth as u128));
                        let mut prefix = String::new();
                        push_char(&mut prefix, '/');
                        let p = decimal_text(m.prefix as u128);
                        prefix.append(p.as_str());
                        push_row(&mut rows, "mine prefix", prefix);
                        push_row(&mut rows, "mine per prefix", decimal_text(m.per_prefix as u128));
                        push_row(&mut rows, "mine delay", render_duration(m.delay));
                    },
                    None => {},
                }
                proof {
                    assert(row_views(rows@) =~= hunt_rows(*self, *h));
                }
            },
        }
        rows
    }

    /// The block that a run prints before it probes.
    pub fn block(&self) -> (s: String)
        requires
            config_wf(*self),
        ensures
            s@ == block_text(config_rows(*self)),
    {
        let rows = self.rows();
        proof {
            lemma_row_keys_short(*self);
            assert forall|i: int| 0 <= i < rows@.len() implies (#[trigger] rows@[i]).0@.len()
                < usize::MAX - 2 by {
                assert(row_views(rows@)[i].0 == rows@[i].0@);
            }
        }
        block_of(&rows)
    }
}

/// Reads the configuration that one run records, out of the command line
/// that the run resolved and the privilege mode that the platform gave.
pub fn run_config(config: &ResolvedConfig, privilege: Privilege) -> (r: RunConfig)
    requires
        config.interval.wf(),
    ensures
        r == (RunConfig {
            interval_ms: if config.interval.total_millis() > u64::MAX {
                u64::MAX
            } else {
                config.interval.total_millis() as u64
            },
            protocol: config.protocol,
            first_ttl: config.first_ttl,
            max_ttl: config.max_ttl,
            multipath: config.multipath,
            privilege,
            dns: config.reverse_dns,
        }),
{
    RunConfig {
        interval_ms: interval_millis(config.interval),
        protocol: config.protocol,
        first_ttl: config.first_ttl,
        max_ttl: config.max_ttl,
        multipath: config.multipath,
        privilege,
        dns: config.reverse_dns,
    }
}

} // verus!
