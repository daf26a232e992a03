use vstd::prelude::*;
use vstd::string::StringSliceAdditionalSpecFns;

verus! {

/// The port bound when none is given.
pub const DEFAULT_PORT: u16 = 49152;

/// The listen backlog used when none is given; handed to the OS as it is.
pub const DEFAULT_BACKLOG: i32 = 0;

/// ASCII `0`.
pub const DIGIT_ZERO: u8 = 0x30;

/// ASCII `9`.
pub const DIGIT_NINE: u8 = 0x39;

/// ASCII `+`.
pub const PLUS_SIGN: u8 = 0x2b;

/// ASCII `-`.
pub const MINUS_SIGN: u8 = 0x2d;

/// Magnitudes at or above this bound are out of range for every option.
pub const MAGNITUDE_CAP: u64 = 0x1_0000_0000;

/// Why an option's text was rejected.
#[derive(Clone, Copy, Debug, PartialEq, Eq, Structural)]
pub enum ConfigError {
    /// The text is not an optionally signed decimal numeral.
    NotANumber,
    /// The text is a numeral whose value lies outside the option's range.
    OutOfRange,
}

/// The resolved startup configuration of the server.
#[derive(Clone, Copy, Debug, PartialEq, Eq, Structural)]
pub struct Config {
    /// TCP port on the loopback address, never 0.
    pub port: u16,
    /// Listen backlog, never negative.
    pub backlog: i32,
}

impl Config {
    /// Each field within the range that option parsing admits.
    pub open spec fn valid(&self) -> bool {
        self.port >= 1 && self.backlog >= 0
    }
}

impl Default for Config {
    fn default() -> (r: Config)
        ensures
            r.port == DEFAULT_PORT,
            r.backlog == DEFAULT_BACKLOG,
            r.valid(),
    {
        Config { port: DEFAULT_PORT, backlog: DEFAULT_BACKLOG }
    }
}

/// An ASCII decimal digit.
pub open spec fn is_digit(b: u8) -> bool {
    DIGIT_ZERO <= b <= DIGIT_NINE
}

/// An ASCII `+` or `-`.
pub open spec fn is_sign(b: u8) -> bool {
    b == PLUS_SIGN || b == MINUS_SIGN
}

/// Length of the sign in front of the digits: 0 or 1.
pub open spec fn sign_len(s: Seq<u8>) -> int {
    if s.len() > 0 && is_sign(s[0]) {
        1
    } else {
        0
    }
}

/// The digits of a numeral, the sign taken off.
pub open spec fn digits_of(s: Seq<u8>) -> Seq<u8> {
    s.subrange(sign_len(s), s.len() as int)
}

/// An optional `+` or `-` followed by one or more decimal digits.
pub open spec fn is_numeral(s: Seq<u8>) -> bool {
    &&& digits_of(s).len() > 0
    &&& forall|i: int| 0 <= i < digits_of(s).len() ==> is_digit(#[trigger] digits_of(s)[i])
}

/// The value of a string of decimal digits, most significant first.
pub open spec fn digits_value(d: Seq<u8>) -> nat
    decreases d.len(),
{
    if d.len() == 0 {
        0
    } else {
        digits_value(d.drop_last()) * 10 + (d.last() - DIGIT_ZERO) as nat
    }
}

/// The signed value of a numeral.
pub open spec fn numeral_value(s: Seq<u8>) -> int {
    if s.len() > 0 && s[0] == MINUS_SIGN {
        -digits_value(digits_of(s))
    } else {
        digits_value(digits_of(s)) as int
    }
}

/// What the text of the port option resolves to.
pub open spec fn port_of(s: Seq<u8>) -> Result<u16, ConfigError> {
    if !is_numeral(s) {
        Err(ConfigError::NotANumber)
    } else if 1 <= numeral_value(s) <= u16::MAX {
        Ok(numeral_value(s) as u16)
    } else {
        Err(ConfigError::OutOfRange)
    }
}

/// What the text of the backlog option resolves to.
pub open spec fn backlog_of(s: Seq<u8>) -> Result<i32, ConfigError> {
    if !is_numeral(s) {
        Err(ConfigError::NotANumber)
    } else if 0 <= numeral_value(s) <= i32::MAX {
        Ok(numeral_value(s) as i32)
    } else {
        Err(ConfigError::OutOfRange)
    }
}

proof fn lemma_digits_value_grows(d: Seq<u8>, b: u8)
    requires
        is_digit(b),
    ensures
        digits_value(d.push(b)) == digits_value(d) * 10 + (b - DIGIT_ZERO) as nat,
        digits_value(d.push(b)) >= digits_value(d),
{
    assert(d.push(b).drop_last() =~= d);
}

/// Reads an optionally signed decimal numeral: whether it is negative, and its
/// magnitude, saturated at `MAGNITUDE_CAP`.
fn read_numeral(text: &[u8]) -> (r: Option<(bool, u64)>)
    ensures
        r.is_some() == is_numeral(text@),
        r matches Some((negative, magnitude)) ==> {
            &&& negative == (text@[0] == MINUS_SIGN)
            &&& magnitude as nat == if digits_value(digits_of(text@)) < MAGNITUDE_CAP {
                digits_value(digits_of(text@))
            } else {
                MAGNITUDE_CAP as nat
            }
        },
{
    let n = text.len();
    let start: usize = if n > 0 && (text[0] == PLUS_SIGN || text[0] == MINUS_SIGN) {
        1
    } else {
        0
    };
    assert(start == sign_len(text@));
    if start >= n {
        return None;
    }
    let ghost s = text@;
    let mut magnitude: u64 = 0;
    let mut i: usize = start;
    while i < n
        invariant
            start <= i <= n,
            n == s.len(),
            s == text@,
            start == sign_len(s),
            forall|j: int| start <= j < i ==> is_digit(#[trigger] s[j]),
            magnitude as nat == if digits_value(s.subrange(start as int, i as int)) < MAGNITUDE_CAP {
                digits_value(s.subrange(start as int, i as int))
            } else {
                MAGNITUDE_CAP as nat
            },
        decreases n - i,
    {
        let b = text[i];
        if b < DIGIT_ZERO || b > DIGIT_NINE {
            assert(digits_of(s)[i - start] == b);
            return None;
        }
        let ghost before = s.subrange(start as int, i as int);
        proof {
            assert(s.subrange(start as int, i + 1) =~= before.push(b));
            lemma_digits_value_grows(before, b);
        }
        if magnitude < MAGNITUDE_CAP {
            let next = magnitude * 10 + (b - DIGIT_ZERO) as u64;
            magnitude = if next < MAGNITUDE_CAP {
                next
            } else {
                MAGNITUDE_CAP
            };
        }
        i = i + 1;
    }
    assert(s.subrange(start as int, n as int) =~= digits_of(s));
    assert forall|j: int| 0 <= j < digits_of(s).len() implies is_digit(#[trigger] digits_of(s)[j]) by {
        assert(digits_of(s)[j] == s[j + start]);
    }
    Some((n > 0 && text[0] == MINUS_SIGN, magnitude))
}

/// Parses the text of the port option: a decimal numeral from 1 to 65535.
pub fn parse_port(text: &str) -> (r: Result<u16, ConfigError>)
    ensures
        r == port_of(text.spec_bytes()),
{
    match read_numeral(text.as_bytes()) {
        None => Err(ConfigError::NotANumber),
        Some((negative, magnitude)) => {
            if !negative && 1 <= magnitude && magnitude <= 65535 {
                Ok(magnitude as u16)
            } else {
                Err(ConfigError::OutOfRange)
            }
        },
    }
}

/// Parses the text of the backlog option: a decimal numeral from 0 to `i32::MAX`.
pub fn parse_backlog(text: &str) -> (r: Result<i32, ConfigError>)
    ensures
        r == backlog_of(text.spec_bytes()),
{
    match read_numeral(text.as_bytes()) {
        None => Err(ConfigError::NotANumber),
        Some((negative, magnitude)) => {
            if negative && magnitude != 0 {
                Err(ConfigError::OutOfRange)
            } else if magnitude <= 0x7fff_ffff {
                Ok(magnitude as i32)
            } else {
                Err(ConfigError::OutOfRange)
            }
        },
    }
}

} // verus!
