//! The command line.

use vstd::prelude::*;
use vstd::string::*;

use crate::bytes;
use crate::protocol::ConnectMode;
use crate::text;
use crate::text::push_hex;

verus! {

/// Scrollback history size of a new session.
pub const DEFAULT_HISTORY: usize = 10000;

/// Largest scrollback history size.
pub const MAX_HISTORY: usize = 1_000_000;

/// What reading digits one after the other leads to.
pub enum Scan {
    /// A number.
    Value(nat),
    /// A byte that is no digit.
    Invalid,
    /// A number that is too large.
    Overflow,
}

/// Read digits one after the other into a number of at most `max`.
pub open spec fn scan(digits: Seq<u8>, max: nat) -> Scan
    decreases digits.len(),
{
    if digits.len() == 0 {
        Scan::Value(0)
    } else {
        match scan(digits.drop_last(), max) {
            Scan::Value(v) => if !bytes::is_digit(digits.last()) {
                Scan::Invalid
            } else if v * 10 + (digits.last() - 48) > max {
                Scan::Overflow
            } else {
                Scan::Value((v * 10 + (digits.last() - 48)) as nat)
            },
            other => other,
        }
    }
}

/// What a history size is read as: an optional plus sign and digits, for a number of
/// at most [`MAX_HISTORY`].
pub open spec fn history_of(arg: Seq<u8>) -> Result<nat, Seq<char>> {
    let digits = bytes::number_digits(arg);
    if arg.len() == 0 {
        Err("cannot parse integer from empty string"@)
    } else if digits.len() == 0 {
        Err("invalid digit found in string"@)
    } else {
        match scan(digits, usize::MAX as nat) {
            Scan::Invalid => Err("invalid digit found in string"@),
            Scan::Overflow => Err("number too large to fit in target type"@),
            Scan::Value(v) => if v > MAX_HISTORY {
                Err("history size must be at most 1000000"@)
            } else {
                Ok(v)
            },
        }
    }
}

/// Once reading failed it stays failed.
proof fn lemma_scan_failed(digits: Seq<u8>, max: nat, n: int)
    requires
        0 <= n <= digits.len(),
        !(scan(digits.take(n), max) is Value),
    ensures
        scan(digits, max) == scan(digits.take(n), max),
    decreases digits.len() - n,
{
    if n < digits.len() {
        assert(digits.take(n + 1).drop_last() =~= digits.take(n));
        lemma_scan_failed(digits, max, n + 1);
    } else {
        assert(digits.take(n) =~= digits);
    }
}

/// Read a history size.
pub fn parse_history(s: &str) -> (res: Result<usize, String>)
    ensures
        match history_of(s.spec_bytes()) {
            Ok(v) => res matches Ok(n) && n == v,
            Err(e) => res matches Err(t) && t@ == e,
        },
{
    let arg: &[u8] = s.as_bytes();
    if arg.len() == 0 {
        return Err("cannot parse integer from empty string".to_owned());
    }
    let start: usize = if arg[0] == 43 {
        1
    } else {
        0
    };
    let ghost digits = bytes::number_digits(arg@);
    assert(digits =~= arg@.skip(start as int));
    if arg.len() == start {
        return Err("invalid digit found in string".to_owned());
    }
    let mut value: usize = 0;
    let mut i: usize = start;
    assert(digits.take(0) =~= seq![]);
    while i < arg.len()
        invariant
            start <= i <= arg@.len(),
            arg@ == s.spec_bytes(),
            arg@.len() > 0,
            digits == bytes::number_digits(arg@),
            digits == arg@.skip(start as int),
            digits.len() > 0,
            scan(digits.take(i - start), usize::MAX as nat) == Scan::Value(value as nat),
        decreases arg@.len() - i,
    {
        let b: u8 = arg[i];
        proof {
            assert(digits[i - start] == b);
            assert(digits.take(i - start + 1).drop_last() =~= digits.take(i - start));
            assert(digits.take(i - start + 1).last() == b);
        }
        if b < 48 || b > 57 {
            proof {
                lemma_scan_failed(digits, usize::MAX as nat, i - start + 1);
            }
            return Err("invalid digit found in string".to_owned());
        }
        let next: u128 = value as u128 * 10 + (b - 48) as u128;
        if next > usize::MAX as u128 {
            proof {
                lemma_scan_failed(digits, usize::MAX as nat, i - start + 1);
            }
            return Err("number too large to fit in target type".to_owned());
        }
        value = next as usize;
        i += 1;
    }
    assert(digits.take(i - start) =~= digits);
    if value > MAX_HISTORY {
        return Err("history size must be at most 1000000".to_owned());
    }
    Ok(value)
}

/// The parsed command line.
#[derive(Debug)]
pub struct Cli {
    pub command: Command,
}

/// What the program is asked to do.
#[allow(inconsistent_fields)]
#[derive(Debug)]
pub enum Command {
    /// Open a session: attach if it exists, create if not
    Open { name: String, history: usize },
    /// Create a new session
    New { name: Option<String>, history: usize },
    /// Attach to an existing session
    Attach { name: String },
    /// List active sessions
    List,
    /// Kill a session
    Kill { name: String },
    /// Start the server (internal)
    Server,
}

/// What the program does.
#[derive(Debug)]
pub enum Task {
    /// Connect to a session.
    Connect { name: String, history: usize, mode: ConnectMode },
    /// List the sessions.
    List,
    /// Kill a session.
    Kill { name: String },
    /// Be the server.
    Serve,
}

/// The name for a new session, from a random number: `s-` and its sixteen
/// hexadecimal digits.
pub fn generate_name(random: u64) -> (res: String)
    ensures
        res@ == "s-"@ + text::hex_text(random as nat, 16),
{
    let mut res: String = "s-".to_owned();
    push_hex(&mut res, random, 16);
    res
}

impl Cli {
    /// Decide what a command line asks for. A new session without a name gets one from
    /// a random number.
    pub fn task(self, random: u64) -> (res: Task)
        ensures
            match self.command {
                Command::Open { name, history } => res == (Task::Connect {
                    name,
                    history,
                    mode: ConnectMode::CreateOrAttach,
                }),
                Command::New { name: Some(name), history } => res == (Task::Connect {
                    name,
                    history,
                    mode: ConnectMode::CreateOnly,
                }),
                Command::New { name: None, history } => {
                    &&& res matches Task::Connect { name: n, history: h, mode: m }
                    &&& n@ == "s-"@ + text::hex_text(random as nat, 16)
                    &&& h == history
                    &&& m == ConnectMode::CreateOnly
                },
                Command::Attach { name } => res == (Task::Connect {
                    name,
                    history: 0,
                    mode: ConnectMode::AttachOnly,
                }),
                Command::List => res is List,
                Command::Kill { name } => res == (Task::Kill { name }),
                Command::Server => res is Serve,
            },
    {
        match self.command {
            Command::Open { name, history } => Task::Connect {
                name,
                history,
                mode: ConnectMode::CreateOrAttach,
            },
            Command::New { name, history } => {
                let name: String = match name {
                    Some(name) => name,
                    None => generate_name(random),
                };
                Task::Connect { name, history, mode: ConnectMode::CreateOnly }
            },
            Command::Attach { name } => Task::Connect {
                name,
                history: 0,
                mode: ConnectMode::AttachOnly,
            },
            Command::List => Task::List,
            Command::Kill { name } => Task::Kill { name },
            Command::Server => Task::Serve,
        }
    }
}

proof fn lemma_hex_len(n: nat, width: nat)
    ensures
        text::hex_text(n, width).len() == width,
    decreases width,
{
    if width > 0 {
        lemma_hex_len(n / 16, (width - 1) as nat);
    }
}

proof fn lemma_hex_injective(a: nat, b: nat, width: nat)
    requires
        a < vstd::arithmetic::power::pow(16, width),
        b < vstd::arithmetic::power::pow(16, width),
        text::hex_text(a, width) == text::hex_text(b, width),
    ensures
        a == b,
    decreases width,
{
    reveal(vstd::arithmetic::power::pow);
    if width > 0 {
        let w = (width - 1) as nat;
        let p = vstd::arithmetic::power::pow(16, w);
        assert(vstd::arithmetic::power::pow(16, width) == 16 * p);
        let (x, y) = (text::hex_text(a, width), text::hex_text(b, width));
        assert(x.last() == y.last());
        assert(a % 16 == b % 16);
        assert(x.drop_last() =~= text::hex_text(a / 16, w));
        assert(y.drop_last() =~= text::hex_text(b / 16, w));
        lemma_hex_injective(a / 16, b / 16, w);
    }
}

/// Different random numbers give different names, all of the same length.
pub proof fn law_names_are_distinct(a: u64, b: u64)
    ensures
        text::hex_text(a as nat, 16).len() == 16,
        text::hex_text(a as nat, 16) == text::hex_text(b as nat, 16) ==> a == b,
{
    lemma_hex_len(a as nat, 16);
    assert(vstd::arithmetic::power::pow(16, 16) == 0x1_0000_0000_0000_0000) by {
        reveal_with_fuel(vstd::arithmetic::power::pow, 17);
    }
    if text::hex_text(a as nat, 16) == text::hex_text(b as nat, 16) {
        lemma_hex_injective(a as nat, b as nat, 16);
    }
}

proof fn lemma_scan_value(digits: Seq<u8>, max: nat)
    requires
        forall|i: int| 0 <= i < digits.len() ==> 0x30 <= #[trigger] digits[i] <= 0x39,
    ensures
        bytes::digits_value(digits) <= max ==> scan(digits, max) == Scan::Value(
            bytes::digits_value(digits),
        ),
        bytes::digits_value(digits) > max ==> scan(digits, max) == Scan::Overflow,
    decreases digits.len(),
{
    if digits.len() > 0 {
        let rest = digits.drop_last();
        assert forall|i: int| 0 <= i < rest.len() implies 0x30 <= #[trigger] rest[i] <= 0x39 by {
            assert(rest[i] == digits[i]);
        }
        lemma_scan_value(rest, max);
        assert(digits[digits.len() - 1] == digits.last());
    }
}

/// A history size of digits is the number that it says, up to a million; more is refused,
/// and so is what no machine word holds. A plus sign may stand before it.
pub proof fn law_history_size(arg: Seq<u8>)
    requires
        arg.len() > 0,
        forall|i: int| 0 <= i < arg.len() ==> 0x30 <= #[trigger] arg[i] <= 0x39,
    ensures
        ({
            let n = bytes::number_value(arg);
            &&& n <= 1_000_000 ==> history_of(arg) == Ok::<nat, Seq<char>>(n)
            &&& 1_000_000 < n <= usize::MAX ==> history_of(arg) == Err::<nat, Seq<char>>(
                "history size must be at most 1000000"@,
            )
            &&& n > usize::MAX ==> history_of(arg) == Err::<nat, Seq<char>>(
                "number too large to fit in target type"@,
            )
            &&& history_of(seq![0x2bu8] + arg) == history_of(arg)
        }),
{
    lemma_scan_value(arg, usize::MAX as nat);
    assert(arg[0] != 0x2b);
    assert(bytes::number_digits(arg) == arg);
    assert((seq![0x2bu8] + arg).skip(1) =~= arg);
}

/// What is no number is refused: nothing at all, a sign alone, and digits, if few enough,
/// followed by anything else.
pub proof fn law_history_is_a_number(digits: Seq<u8>, b: u8, rest: Seq<u8>)
    requires
        forall|i: int| 0 <= i < digits.len() ==> 0x30 <= #[trigger] digits[i] <= 0x39,
        bytes::digits_value(digits) <= usize::MAX,
        b < 0x30 || b > 0x39,
        digits.len() > 0 || b != 0x2b,
    ensures
        history_of(seq![]) == Err::<nat, Seq<char>>("cannot parse integer from empty string"@),
        history_of(seq![0x2bu8]) == Err::<nat, Seq<char>>("invalid digit found in string"@),
        history_of(digits + seq![b] + rest) == Err::<nat, Seq<char>>(
            "invalid digit found in string"@,
        ),
{
    let arg = digits + seq![b] + rest;
    let n = digits.len() as int;
    assert(seq![0x2bu8].skip(1) =~= seq![]);
    assert(digits.len() > 0 ==> 0x30 <= digits[0] <= 0x39);
    assert(arg[0] != 0x2b);
    assert(bytes::number_digits(arg) == arg);
    lemma_scan_value(digits, usize::MAX as nat);
    assert(arg.take(n + 1).drop_last() =~= digits);
    assert(arg.take(n + 1).last() == b);
    lemma_scan_failed(arg, usize::MAX as nat, n + 1);
}

/// A new session keeps ten thousand lines where nothing else is asked for.
pub proof fn law_history_limits()
    ensures
        DEFAULT_HISTORY == 10_000,
        MAX_HISTORY == 1_000_000,
{
}

} // verus!
