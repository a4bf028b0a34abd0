//! The target enumerator: from a compact description to the sequence of
//! targets. Enumeration never waits on the network and fails only on malformed
//! input.

use vstd::prelude::*;
use vstd::string::*;
use crate::config::ConfigError;
use crate::outcome::{ProbeTarget, TargetView};
use crate::ports::{port_spec_meaning, ports_between, PortRange};

verus! {

/// The mathematical values of a sequence of targets.
pub open spec fn target_views(targets: Seq<ProbeTarget>) -> Seq<TargetView> {
    targets.map_values(|target: ProbeTarget| target@)
}

/// The mathematical values of the lines of a word list.
pub open spec fn line_views(lines: Seq<String>) -> Seq<Seq<char>> {
    lines.map_values(|line: String| line@)
}

/// The target that one line of a word list stands for: the line as path under
/// the base URL. An empty line stands for none.
pub open spec fn http_target_of(base_url: Seq<char>, line: Seq<char>) -> Option<TargetView> {
    if line.len() == 0 {
        None
    } else {
        Some(TargetView::Http { address: base_url, path: line })
    }
}

/// The targets of a word list: one for each line that is not empty, in the
/// order of the lines. Nothing is deduplicated: a line that occurs twice is
/// probed twice.
pub open spec fn http_targets(base_url: Seq<char>, lines: Seq<Seq<char>>) -> Seq<TargetView> {
    lines.filter_map(|line: Seq<char>| http_target_of(base_url, line))
}

/// The targets of a port scan: one for each port from `first` to `last`, in
/// ascending order.
pub open spec fn tcp_targets(address: Seq<char>, first: u16, last: u16) -> Seq<TargetView> {
    ports_between(first, last).map_values(|port: u16| TargetView::Tcp { address, port })
}

/// The target that `line` stands for under `base_url`, or `None` for an empty
/// line. This is the enumerator for a word list that is read line by line.
pub fn http_target(base_url: &str, line: &str) -> (target: Option<ProbeTarget>)
    ensures
        match http_target_of(base_url@, line@) {
            Some(view) => target.is_some() && target.unwrap()@ == view,
            None => target.is_none(),
        },
{
    if line.is_empty() {
        None
    } else {
        Some(ProbeTarget::Http { address: base_url.to_owned(), path: line.to_owned() })
    }
}

/// Enumerates the targets of a whole word list. `wordlist` is what the reader
/// made of the file: `None` where it could not be read, which is a fault of the
/// configuration.
pub fn enumerate_http(base_url: &str, wordlist: Option<&Vec<String>>) -> (targets: Result<
    Vec<ProbeTarget>,
    ConfigError,
>)
    ensures
        match wordlist {
            Some(lines) => targets.is_ok() && target_views(targets.unwrap()@) == http_targets(
                base_url@,
                line_views(lines@),
            ),
            None => targets == Err::<Vec<ProbeTarget>, ConfigError>(
                ConfigError::UnreadableWordlist,
            ),
        },
{
    let lines = match wordlist {
        Some(lines) => lines,
        None => {
            return Err(ConfigError::UnreadableWordlist);
        },
    };
    let ghost words = line_views(lines@);
    let ghost pick = |line: Seq<char>| http_target_of(base_url@, line);
    let mut targets: Vec<ProbeTarget> = Vec::new();
    let mut at: usize = 0;
    while at < lines.len()
        invariant
            at <= lines.len(),
            words == line_views(lines@),
            pick == |line: Seq<char>| http_target_of(base_url@, line),
            target_views(targets@) == words.take(at as int).filter_map(pick),
        decreases lines.len() - at,
    {
        proof {
            words.lemma_filter_map_take_succ(pick, at as int);
        }
        let ghost before = targets@;
        match http_target(base_url, lines[at].as_str()) {
            Some(target) => {
                targets.push(target);
                assert(target_views(targets@) =~= target_views(before).push(target@));
            },
            None => {},
        }
        at = at + 1;
    }
    assert(words.take(at as int) =~= words);
    Ok(targets)
}

/// A port scan that passed every check of its configuration: an address that
/// the transport accepts and a range of ports that is not empty.
#[derive(Debug)]
pub struct TcpPlan {
    address: String,
    range: PortRange,
}

impl TcpPlan {
    /// The address to connect to.
    pub closed spec fn address(self) -> Seq<char> {
        self.address@
    }

    /// The lowest port to scan.
    pub closed spec fn first_port(self) -> u16 {
        self.range.start()
    }

    /// The highest port to scan.
    pub closed spec fn last_port(self) -> u16 {
        self.range.end()
    }

    /// The targets of the scan in the order in which they are enumerated.
    pub open spec fn targets(self) -> Seq<TargetView> {
        tcp_targets(self.address(), self.first_port(), self.last_port())
    }

    /// Checks the configuration of a port scan.
    ///
    /// `address_is_valid` is the verdict of the transport on `address`. The
    /// port specification is read first: where it is faulty its error is
    /// returned, whatever the address. Nothing is probed by this function.
    pub fn new(address: &str, address_is_valid: bool, port_spec: &str) -> (plan: Result<
        TcpPlan,
        ConfigError,
    >)
        ensures
            match port_spec_meaning(port_spec@) {
                Err(error) => plan == Err::<TcpPlan, ConfigError>(error),
                Ok((first, last)) => if address_is_valid {
                    &&& plan.is_ok()
                    &&& plan.unwrap().address() == address@
                    &&& plan.unwrap().first_port() == first
                    &&& plan.unwrap().last_port() == last
                    &&& first <= last
                } else {
                    plan == Err::<TcpPlan, ConfigError>(ConfigError::UnparsableAddress)
                },
            },
    {
        let range = match PortRange::parse(port_spec) {
            Ok(range) => range,
            Err(error) => {
                return Err(error);
            },
        };
        if !address_is_valid {
            return Err(ConfigError::UnparsableAddress);
        }
        Ok(TcpPlan { address: address.to_owned(), range })
    }

    /// The number of targets: one for each port, so at least one.
    pub fn len(&self) -> (count: u32)
        ensures
            count == self.targets().len(),
            count == self.last_port() - self.first_port() + 1,
            count >= 1,
    {
        self.range.len()
    }

    /// The range of ports to scan.
    pub fn range(&self) -> (range: PortRange)
        ensures
            range.start() == self.first_port(),
            range.end() == self.last_port(),
    {
        self.range
    }

    /// The target enumerated at position `index`, counted from zero, or `None`
    /// behind the last one.
    pub fn target(&self, index: u32) -> (target: Option<ProbeTarget>)
        ensures
            index < self.targets().len() ==> target.is_some() && target.unwrap()@
                == self.targets()[index as int],
            index >= self.targets().len() ==> target.is_none(),
    {
        match self.range.port(index) {
            Some(port) => Some(ProbeTarget::Tcp { address: self.address.clone(), port }),
            None => None,
        }
    }
}

} // verus!
