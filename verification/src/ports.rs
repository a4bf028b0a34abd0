//! Port specifications: a single port, or a range written `<start>-<end>`.

use vstd::prelude::*;
use vstd::string::*;
use crate::config::ConfigError;
use crate::decimal::{
    all_digits, decimal_text, decimal_value, is_digit, lemma_decimal_text,
    lemma_decimal_value_prefix, lemma_decimal_value_step,
};

verus! {

/// The largest port number.
pub const MAX_PORT: u16 = 65535;

/// The ASCII codes of the characters that a port specification is made of.
const PLUS: u8 = 43;

const HYPHEN: u8 = 45;

const DIGIT_ZERO: u8 = 48;

const DIGIT_NINE: u8 = 57;

/// The digits of a numeral, without the plus sign that may stand before them.
pub open spec fn unsigned_part(s: Seq<char>) -> Seq<char> {
    if s.len() > 0 && s[0] == '+' {
        s.drop_first()
    } else {
        s
    }
}

/// The port that `s` names, if it names one: at least one decimal digit,
/// optionally after one plus sign, with a value of at most 65535.
pub open spec fn port_value(s: Seq<char>) -> Option<u16> {
    let digits = unsigned_part(s);
    if digits.len() > 0 && all_digits(digits) && decimal_value(digits) <= MAX_PORT {
        Some(decimal_value(digits) as u16)
    } else {
        None
    }
}

/// The least index at which `c` stands in `s`, or the length of `s` where it
/// does not occur.
pub open spec fn first_index_of(s: Seq<char>, c: char) -> int
    decreases s.len(),
{
    if s.len() == 0 {
        0
    } else if s[0] == c {
        0
    } else {
        1 + first_index_of(s.drop_first(), c)
    }
}

/// What a port specification means: the first and last port to scan, or the
/// reason why it names none.
///
/// Without a hyphen the text is a single port. With one, what stands before the
/// first hyphen is the start and everything after it the end, so a text with
/// two hyphens has no end that is a number.
pub open spec fn port_spec_meaning(s: Seq<char>) -> Result<(u16, u16), ConfigError> {
    let dash = first_index_of(s, '-');
    if dash == s.len() {
        match port_value(s) {
            Some(port) => Ok((port, port)),
            None => Err(ConfigError::UnparsablePort),
        }
    } else {
        match (port_value(s.subrange(0, dash)), port_value(s.subrange(dash + 1, s.len() as int))) {
            (Some(start), Some(end)) => if start <= end {
                Ok((start, end))
            } else {
                Err(ConfigError::InvalidPortRange)
            },
            _ => Err(ConfigError::UnparsablePort),
        }
    }
}

/// The ports from `first` to `last`, both included, in ascending order.
pub open spec fn ports_between(first: u16, last: u16) -> Seq<u16> {
    Seq::new((last - first + 1) as nat, |i: int| (first + i) as u16)
}

/// `first_index_of` is the index before which `c` does not occur and at which,
/// unless it is the length, `c` stands.
pub proof fn lemma_first_index_of(s: Seq<char>, c: char, i: int)
    requires
        0 <= i <= s.len(),
        forall|j: int| 0 <= j < i ==> s[j] != c,
        i < s.len() ==> s[i] == c,
    ensures
        first_index_of(s, c) == i,
    decreases s.len(),
{
    if s.len() > 0 && s[0] != c {
        let rest = s.drop_first();
        assert forall|j: int| 0 <= j < i - 1 implies rest[j] != c by {
            assert(rest[j] == s[j + 1]);
        }
        lemma_first_index_of(rest, c, i - 1);
    }
}

/// Reads the port that the characters of `text` from `from` up to `to` name.
fn port_between(text: &str, from: usize, to: usize) -> (port: Option<u16>)
    requires
        text.is_ascii(),
        from <= to <= text@.len(),
    ensures
        port == port_value(text@.subrange(from as int, to as int)),
{
    let ghost s = text@.subrange(from as int, to as int);
    let mut at: usize = from;
    if at < to && text.get_ascii(at) == PLUS {
        at = at + 1;
    }
    let ghost digits = unsigned_part(s);
    assert(digits =~= text@.subrange(at as int, to as int));
    if at == to {
        return None;
    }
    let start: usize = at;
    let mut value: u32 = 0;
    while at < to
        invariant
            text.is_ascii(),
            from <= start <= at <= to <= text@.len(),
            start < to,
            digits == unsigned_part(text@.subrange(from as int, to as int)),
            digits == text@.subrange(start as int, to as int),
            forall|j: int| 0 <= j < at - start ==> is_digit(#[trigger] digits[j]),
            value == decimal_value(digits.take(at - start)),
            value <= MAX_PORT,
        decreases to - at,
    {
        let byte: u8 = text.get_ascii(at);
        assert(digits[at - start] == text@[at as int]);
        if byte < DIGIT_ZERO || byte > DIGIT_NINE {
            assert(!is_digit(digits[at - start]));
            return None;
        }
        proof {
            lemma_decimal_value_step(digits, at - start);
        }
        value = value * 10 + (byte - DIGIT_ZERO) as u32;
        at = at + 1;
        if value > MAX_PORT as u32 {
            proof {
                if all_digits(digits) {
                    lemma_decimal_value_prefix(digits, at - start);
                }
            }
            return None;
        }
    }
    assert(digits.take(at - start) =~= digits);
    Some(value as u16)
}

/// A range of ports to scan, never empty: it starts at or below its end.
#[derive(Clone, Copy, Debug)]
pub struct PortRange {
    first: u16,
    last: u16,
}

impl PortRange {
    #[verifier::type_invariant]
    spec fn ordered(self) -> bool {
        self.first <= self.last
    }

    /// The lowest port of the range.
    pub closed spec fn start(self) -> u16 {
        self.first
    }

    /// The highest port of the range.
    pub closed spec fn end(self) -> u16 {
        self.last
    }

    /// The ports of the range in the order in which they are enumerated.
    pub open spec fn ports(self) -> Seq<u16> {
        ports_between(self.start(), self.end())
    }

    /// The range from `first` to `last`, both included. A start above the end
    /// is refused.
    pub fn new(first: u16, last: u16) -> (made: Result<PortRange, ConfigError>)
        ensures
            first > last ==> made == Err::<PortRange, ConfigError>(ConfigError::InvalidPortRange),
            first <= last ==> made is Ok && made->Ok_0.start() == first && made->Ok_0.end() == last,
    {
        if first > last {
            Err(ConfigError::InvalidPortRange)
        } else {
            Ok(PortRange { first, last })
        }
    }

    /// Reads a port specification: a single port, or `<start>-<end>`.
    ///
    /// Fails with `UnparsablePort` where a port is not a decimal number up to
    /// 65535, and with `InvalidPortRange` where both are but the start lies
    /// above the end.
    pub fn parse(text: &str) -> (parsed: Result<PortRange, ConfigError>)
        ensures
            match port_spec_meaning(text@) {
                Ok((first, last)) => parsed is Ok && parsed->Ok_0.start() == first
                    && parsed->Ok_0.end() == last,
                Err(error) => parsed == Err::<PortRange, ConfigError>(error),
            },
    {
        if !text.is_ascii() {
            proof {
                lemma_not_ascii_is_unparsable(text@);
            }
            return Err(ConfigError::UnparsablePort);
        }
        let len: usize = text.unicode_len();
        let mut dash: usize = 0;
        while dash < len && text.get_ascii(dash) != HYPHEN
            invariant
                text.is_ascii(),
                len == text@.len(),
                dash <= len,
                forall|j: int| 0 <= j < dash ==> text@[j] != '-',
            decreases len - dash,
        {
            dash = dash + 1;
        }
        proof {
            lemma_first_index_of(text@, '-', dash as int);
        }
        if dash == len {
            assert(text@.subrange(0, len as int) =~= text@);
            match port_between(text, 0, len) {
                Some(port) => Ok(PortRange { first: port, last: port }),
                None => Err(ConfigError::UnparsablePort),
            }
        } else {
            let start = port_between(text, 0, dash);
            let end = port_between(text, dash + 1, len);
            match (start, end) {
                (Some(first), Some(last)) => {
                    if first <= last {
                        Ok(PortRange { first, last })
                    } else {
                        Err(ConfigError::InvalidPortRange)
                    }
                },
                _ => Err(ConfigError::UnparsablePort),
            }
        }
    }

    /// The lowest port of the range.
    pub fn first(&self) -> (port: u16)
        ensures
            port == self.start(),
            port <= self.end(),
    {
        proof {
            use_type_invariant(self);
        }
        self.first
    }

    /// The highest port of the range.
    pub fn last(&self) -> (port: u16)
        ensures
            port == self.end(),
            port >= self.start(),
    {
        proof {
            use_type_invariant(self);
        }
        self.last
    }

    /// The number of ports in the range: at least one, at most 65536.
    pub fn len(&self) -> (count: u32)
        ensures
            count == self.ports().len(),
            count == self.end() - self.start() + 1,
            count >= 1,
    {
        proof {
            use_type_invariant(self);
        }
        (self.last - self.first) as u32 + 1
    }

    /// The port enumerated at position `index`, counted from zero.
    pub fn port(&self, index: u32) -> (port: Option<u16>)
        ensures
            index < self.ports().len() ==> port == Some(self.ports()[index as int]),
            index >= self.ports().len() ==> port is None,
    {
        proof {
            use_type_invariant(self);
        }
        if index <= (self.last - self.first) as u32 {
            Some((self.first as u32 + index) as u16)
        } else {
            None
        }
    }

    /// Whether `port` is one of the range.
    pub fn contains(&self, port: u16) -> (inside: bool)
        ensures
            inside == (self.start() <= port <= self.end()),
            inside == self.ports().contains(port),
    {
        proof {
            use_type_invariant(self);
            if self.first <= port <= self.last {
                assert(self.ports()[port - self.first] == port);
            }
        }
        self.first <= port && port <= self.last
    }
}

/// A text with a character outside ASCII names no port and no range.
proof fn lemma_not_ascii_is_unparsable(s: Seq<char>)
    requires
        !vstd::utf8::is_ascii_chars(s),
    ensures
        port_spec_meaning(s) == Err::<(u16, u16), ConfigError>(ConfigError::UnparsablePort),
{
    let k = choose|k: int| 0 <= k < s.len() && !('\0' <= #[trigger] s[k] <= '\u{7f}');
    let dash = first_index_of(s, '-');
    lemma_first_index_bounds(s, '-');
    if dash == s.len() {
        lemma_foreign_char_is_no_port(s, k);
    } else if k < dash {
        let head = s.subrange(0, dash);
        assert(head[k] == s[k]);
        lemma_foreign_char_is_no_port(head, k);
    } else {
        let tail = s.subrange(dash + 1, s.len() as int);
        assert(tail[k - dash - 1] == s[k]);
        lemma_foreign_char_is_no_port(tail, k - dash - 1);
    }
}

/// `first_index_of` lies within the text, and where it lies inside, `c` stands
/// there.
pub proof fn lemma_first_index_bounds(s: Seq<char>, c: char)
    ensures
        0 <= first_index_of(s, c) <= s.len(),
        first_index_of(s, c) < s.len() ==> s[first_index_of(s, c)] == c,
        forall|j: int| 0 <= j < first_index_of(s, c) ==> s[j] != c,
    decreases s.len(),
{
    if s.len() > 0 && s[0] != c {
        let rest = s.drop_first();
        lemma_first_index_bounds(rest, c);
        assert forall|j: int| 0 <= j < first_index_of(s, c) implies s[j] != c by {
            if j > 0 {
                assert(rest[j - 1] == s[j]);
            }
        }
    }
}

/// A text that holds a character which is neither a digit nor a plus sign
/// names no port.
proof fn lemma_foreign_char_is_no_port(s: Seq<char>, k: int)
    requires
        0 <= k < s.len(),
        !is_digit(s[k]),
        s[k] != '+',
    ensures
        port_value(s) is None,
{
    let digits = unsigned_part(s);
    if s[0] == '+' {
        assert(digits[k - 1] == s[k]);
    } else {
        assert(digits[k] == s[k]);
    }
}

/// The text of a range: the numerals of its two ports with a hyphen between.
pub open spec fn range_text(first: u16, last: u16) -> Seq<char> {
    decimal_text(first as nat) + seq!['-'] + decimal_text(last as nat)
}

/// The numeral of a port is read back as that port.
pub proof fn lemma_port_text_round_trip(port: u16)
    ensures
        port_value(decimal_text(port as nat)) == Some(port),
        first_index_of(decimal_text(port as nat), '-') == decimal_text(port as nat).len(),
{
    let text = decimal_text(port as nat);
    lemma_decimal_text(port as nat);
    assert(is_digit(text[0]));
    lemma_first_index_of(text, '-', text.len() as int);
}

/// The numeral of a port, taken as a port specification, means that port
/// alone.
pub proof fn lemma_single_port_meaning(port: u16)
    ensures
        port_spec_meaning(decimal_text(port as nat)) == Ok::<(u16, u16), ConfigError>(
            (port, port),
        ),
{
    lemma_port_text_round_trip(port);
}

/// Boundary rejection, for every pair of ports: the text of a range means that
/// range where its start is not above its end, and is refused as an invalid
/// range where it is.
pub proof fn lemma_range_text_meaning(first: u16, last: u16)
    ensures
        first <= last ==> port_spec_meaning(range_text(first, last)) == Ok::<
            (u16, u16),
            ConfigError,
        >((first, last)),
        first > last ==> port_spec_meaning(range_text(first, last)) == Err::<
            (u16, u16),
            ConfigError,
        >(ConfigError::InvalidPortRange),
{
    let head = decimal_text(first as nat);
    let tail = decimal_text(last as nat);
    let text = range_text(first, last);
    lemma_port_text_round_trip(first);
    lemma_port_text_round_trip(last);
    lemma_decimal_text(first as nat);
    assert forall|j: int| 0 <= j < head.len() implies text[j] != '-' by {
        assert(text[j] == head[j]);
        assert(is_digit(head[j]));
    }
    assert(text[head.len() as int] == '-');
    lemma_first_index_of(text, '-', head.len() as int);
    assert(text.subrange(0, head.len() as int) =~= head);
    assert(text.subrange(head.len() as int + 1, text.len() as int) =~= tail);
}

} // verus!
