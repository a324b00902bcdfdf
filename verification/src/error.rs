use vstd::prelude::*;

verus! {

/// Why a channel identifier could not be resolved.
#[derive(Clone, Copy, Debug, PartialEq, Eq, Structural)]
pub enum ChannelIdentifierError {
    Invalid,
    Ambiguous,
}

/// Errors that the daemon reports to its controller.
#[derive(Clone, Debug, PartialEq, Eq)]
pub enum Error {
    DisconnectedError,
    AlreadyConnectedError,
    ChannelIdentifierError(String, ChannelIdentifierError),
    InvalidServerAddrError(String, u16),
    InvalidUsernameError(String),
}

impl ChannelIdentifierError {
    /// The text shown for this error.
    pub fn message(&self) -> (s: &'static str)
        ensures
            *self == ChannelIdentifierError::Invalid ==> s@ == "Invalid channel identifier"@,
            *self == ChannelIdentifierError::Ambiguous ==> s@ == "Ambiguous channel identifier"@,
    {
        match self {
            ChannelIdentifierError::Invalid => "Invalid channel identifier",
            ChannelIdentifierError::Ambiguous => "Ambiguous channel identifier",
        }
    }
}

/// The character of a decimal digit.
pub open spec fn digit_char(d: nat) -> char {
    if d == 0 { '0' } else if d == 1 { '1' } else if d == 2 { '2' } else if d == 3 { '3' }
    else if d == 4 { '4' } else if d == 5 { '5' } else if d == 6 { '6' } else if d == 7 { '7' }
    else if d == 8 { '8' } else { '9' }
}

/// The decimal representation of `n`, without leading zeros.
pub open spec fn decimal(n: nat) -> Seq<char>
    decreases n,
{
    if n < 10 {
        seq![digit_char(n)]
    } else {
        decimal(n / 10).push(digit_char(n % 10))
    }
}

/// The value of a decimal digit character.
pub open spec fn digit_value(c: char) -> int {
    c as int - '0' as int
}

/// The number that a string of decimal digits denotes.
pub open spec fn decimal_value(s: Seq<char>) -> int
    decreases s.len(),
{
    if s.len() == 0 {
        0
    } else {
        decimal_value(s.drop_last()) * 10 + digit_value(s.last())
    }
}

proof fn lemma_digit_char(d: nat)
    requires
        d < 10,
    ensures
        '0' <= digit_char(d) <= '9',
        digit_value(digit_char(d)) == d,
{
}

/// The decimal representation is right: it consists of digits only, has no
/// leading zero (unless the number is 0), and reads back as the number.
pub proof fn lemma_decimal_reads_back(n: nat)
    ensures
        decimal(n).len() >= 1,
        forall|i: int| 0 <= i < decimal(n).len() ==> '0' <= #[trigger] decimal(n)[i] <= '9',
        decimal(n)[0] != '0' || n == 0,
        decimal_value(decimal(n)) == n,
    decreases n,
{
    if n < 10 {
        lemma_digit_char(n);
        assert(decimal(n).drop_last() =~= Seq::<char>::empty());
        assert(decimal_value(Seq::<char>::empty()) == 0);
        assert(decimal(n).last() == digit_char(n));
    } else {
        lemma_decimal_reads_back(n / 10);
        lemma_digit_char(n % 10);
        let d = decimal(n);
        assert(d.drop_last() =~= decimal(n / 10));
        assert(d[0] == decimal(n / 10)[0]);
        assert(n == (n / 10) * 10 + n % 10) by (nonlinear_arith);
        assert(d.last() == digit_char(n % 10));
        assert(decimal_value(d) == decimal_value(decimal(n / 10)) * 10 + digit_value(d.last()));
        assert forall|i: int| 0 <= i < d.len() implies '0' <= #[trigger] d[i] <= '9' by {
            if i < d.len() - 1 {
                assert(d[i] == decimal(n / 10)[i]);
            }
        }
    }
}

fn digit_str(d: u16) -> (s: &'static str)
    requires
        d < 10,
    ensures
        s@ == seq![digit_char(d as nat)],
{
    proof {
        reveal_strlit("0");
        reveal_strlit("1");
        reveal_strlit("2");
        reveal_strlit("3");
        reveal_strlit("4");
        reveal_strlit("5");
        reveal_strlit("6");
        reveal_strlit("7");
        reveal_strlit("8");
        reveal_strlit("9");
    }
    if d == 0 { "0" } else if d == 1 { "1" } else if d == 2 { "2" } else if d == 3 { "3" }
    else if d == 4 { "4" } else if d == 5 { "5" } else if d == 6 { "6" } else if d == 7 { "7" }
    else if d == 8 { "8" } else { "9" }
}

/// `n` written in decimal.
pub fn decimal_string(n: u16) -> (s: String)
    ensures
        s@ == decimal(n as nat),
    decreases n,
{
    if n < 10 {
        String::from_str(digit_str(n))
    } else {
        let head = decimal_string(n / 10);
        head.concat(digit_str(n % 10))
    }
}

impl Error {
    /// The text shown for this error.
    pub fn message(&self) -> (s: String)
        ensures
            match self {
                Error::DisconnectedError => s@ == "Not connected to a server"@,
                Error::AlreadyConnectedError => s@ == "Already connected to a server"@,
                Error::ChannelIdentifierError(id, kind) => s@ == (match kind {
                    ChannelIdentifierError::Invalid => "Invalid channel identifier"@,
                    ChannelIdentifierError::Ambiguous => "Ambiguous channel identifier"@,
                }) + ": "@ + id@,
                Error::InvalidServerAddrError(addr, port) => s@ == "Invalid server address: "@ + addr@ + ": "@ + decimal(*port as nat),
                Error::InvalidUsernameError(username) => s@ == "Invalid username: "@ + username@,
            },
    {
        match self {
            Error::DisconnectedError => String::from_str("Not connected to a server"),
            Error::AlreadyConnectedError => String::from_str("Already connected to a server"),
            Error::ChannelIdentifierError(id, kind) => {
                String::from_str(kind.message()).concat(": ").concat(id.as_str())
            },
            Error::InvalidServerAddrError(addr, port) => {
                let p = decimal_string(*port);
                String::from_str("Invalid server address: ").concat(addr.as_str()).concat(": ").concat(p.as_str())
            },
            Error::InvalidUsernameError(username) => {
                String::from_str("Invalid username: ").concat(username.as_str())
            },
        }
    }
}

/// The severity of a log record.
#[derive(Clone, Copy, Debug, PartialEq, Eq, Structural)]
pub enum LogLevel {
    Error,
    Warn,
    Info,
    Debug,
    Trace,
}

/// The label that a log line starts with, padded to five characters.
pub fn level_label(level: LogLevel) -> (s: &'static str)
    ensures
        level == LogLevel::Error ==> s@ == "ERROR"@,
        level == LogLevel::Warn ==> s@ == "WARN "@,
        level == LogLevel::Info ==> s@ == "INFO "@,
        level == LogLevel::Debug ==> s@ == "DEBUG"@,
        level == LogLevel::Trace ==> s@ == "TRACE"@,
{
    match level {
        LogLevel::Error => "ERROR",
        LogLevel::Warn => "WARN ",
        LogLevel::Info => "INFO ",
        LogLevel::Debug => "DEBUG",
        LogLevel::Trace => "TRACE",
    }
}

/// The colours that log labels are shown in.
#[derive(Clone, Copy, Debug, PartialEq, Eq, Structural)]
pub enum LogColor {
    Red,
    Yellow,
    Green,
    Normal,
}

/// The colour of a log line's label when colours are on: errors red,
/// warnings yellow, debug green, the rest plain.
pub fn level_color(level: LogLevel) -> (c: LogColor)
    ensures
        c == (match level {
            LogLevel::Error => LogColor::Red,
            LogLevel::Warn => LogColor::Yellow,
            LogLevel::Info => LogColor::Normal,
            LogLevel::Debug => LogColor::Green,
            LogLevel::Trace => LogColor::Normal,
        }),
{
    match level {
        LogLevel::Error => LogColor::Red,
        LogLevel::Warn => LogColor::Yellow,
        LogLevel::Info => LogColor::Normal,
        LogLevel::Debug => LogColor::Green,
        LogLevel::Trace => LogColor::Normal,
    }
}

/// What goes between a log line's location and its message: a line break
/// when the message spans several lines, a space otherwise.
pub fn message_separator(message: &str) -> (s: &'static str)
    ensures
        message@.contains('\n') ==> s@ == "\n"@,
        !message@.contains('\n') ==> s@ == " "@,
{
    for c in it: message.chars()
        invariant
            it.seq() == message@,
            forall|j: int| 0 <= j < it.index() ==> message@[j] != '\n',
    {
        if c == '\n' {
            return "\n";
        }
    }
    " "
}

} // verus!
