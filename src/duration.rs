//! Whole-second durations, their compact text form (`1d12h1m1s`) and its parser.

use vstd::prelude::*;
use vstd::utf8::*;
use vstd::string::*;
use crate::clock::now_unix_seconds;

verus! {

pub const SECONDS_PER_DAY: i64 = 86400;

pub const SECONDS_PER_HOUR: i64 = 3600;

pub const SECONDS_PER_MINUTE: i64 = 60;

/// Rust's `/` on integers: the quotient rounded toward zero.
pub open spec fn trunc_div(a: int, b: int) -> int
    recommends
        b > 0,
{
    if a >= 0 {
        a / b
    } else {
        -((-a) / b)
    }
}

pub open spec fn abs(a: int) -> int {
    if a < 0 {
        -a
    } else {
        a
    }
}

/// How far apart two second counts are, capped at `i64::MAX`.
pub open spec fn distance(a: int, b: int) -> int {
    if abs(a - b) <= i64::MAX {
        abs(a - b)
    } else {
        i64::MAX as int
    }
}

/// The character of a decimal digit.
pub open spec fn digit_char(d: nat) -> char
    recommends
        d < 10,
{
    ((d + 48) as u32) as char
}

/// The decimal notation of `n`, without sign or leading zeros.
pub open spec fn decimal(n: nat) -> Seq<char>
    decreases n,
{
    if n < 10 {
        seq![digit_char(n)]
    } else {
        decimal(n / 10).push(digit_char(n % 10))
    }
}

/// `n` followed by its unit letter, or nothing when `n` is zero.
pub open spec fn component(n: nat, unit: char) -> Seq<char> {
    if n > 0 {
        decimal(n).push(unit)
    } else {
        Seq::empty()
    }
}

/// The compact text of a span of `secs` seconds: days, hours, minutes and
/// seconds, each only when it is not zero, and `0s` for an empty span.
pub open spec fn duration_text(secs: nat) -> Seq<char> {
    let body = component(secs / 86400, 'd') + component((secs % 86400) / 3600, 'h') + component(
        (secs % 3600) / 60,
        'm',
    ) + component(secs % 60, 's');
    if body.len() == 0 {
        seq!['0', 's']
    } else {
        body
    }
}

/// Relies on the `Display` impl of `u64` (through `ToString`): plain decimal
/// digits, no sign, no leading zeros.
#[verifier::external_body]
fn decimal_text(n: u64) -> (r: String)
    ensures
        r@ == decimal(n as nat),
{
    n.to_string()
}

pub open spec fn is_digit(c: char) -> bool {
    '0' <= c <= '9'
}

pub open spec fn digit_value(c: char) -> int {
    c as int - 48
}

/// How many decimal digits `s` starts with.
pub open spec fn leading_digits(s: Seq<char>) -> nat
    decreases s.len(),
{
    if s.len() > 0 && is_digit(s[0]) {
        1 + leading_digits(s.drop_first())
    } else {
        0
    }
}

/// The number that a run of decimal digits stands for.
pub open spec fn digits_value(s: Seq<char>) -> int
    decreases s.len(),
{
    if s.len() == 0 {
        0
    } else {
        digits_value(s.drop_last()) * 10 + digit_value(s.last())
    }
}

/// The place of a unit letter in the order d, h, m, s; -1 for any other character.
pub open spec fn unit_rank(c: char) -> int {
    if c == 'd' {
        0
    } else if c == 'h' {
        1
    } else if c == 'm' {
        2
    } else if c == 's' {
        3
    } else {
        -1
    }
}

/// Seconds in one of the unit of a given rank.
pub open spec fn unit_seconds(rank: int) -> int {
    if rank == 0 {
        86400
    } else if rank == 1 {
        3600
    } else if rank == 2 {
        60
    } else {
        1
    }
}

/// The seconds that `s` stands for when it is a run of components, each one
/// or more digits followed by a unit letter, whose units come in the order
/// d, h, m, s, each at most once, none ranked below `first`; `None` otherwise.
pub open spec fn components_total(s: Seq<char>, first: int) -> Option<int>
    decreases s.len(),
{
    if s.len() == 0 {
        Some(0)
    } else {
        let n = leading_digits(s);
        if n == 0 || n >= s.len() {
            None
        } else {
            let rank = unit_rank(s[n as int]);
            if rank < first {
                None
            } else {
                match components_total(s.subrange(n + 1int, s.len() as int), rank + 1) {
                    Some(t) => Some(digits_value(s.subrange(0, n as int)) * unit_seconds(rank) + t),
                    None => None,
                }
            }
        }
    }
}

/// Why a text is not a duration.
#[derive(Debug, Clone, Copy, PartialEq, Eq, Structural)]
pub enum DurationParseError {
    Empty,
    InvalidFormat,
    OutOfRange,
}

/// What the text `s` reads as: its seconds, or the reason it is refused.
pub open spec fn parse_result(s: Seq<char>) -> Result<int, DurationParseError> {
    if s.len() == 0 {
        Err(DurationParseError::Empty)
    } else {
        match components_total(s, 0) {
            None => Err(DurationParseError::InvalidFormat),
            Some(t) => if t <= i64::MAX {
                Ok(t)
            } else {
                Err(DurationParseError::OutOfRange)
            },
        }
    }
}

impl DurationParseError {
    /// The message that describes the error.
    pub fn to_string(&self) -> (r: String)
        ensures
            r@ == self.message(),
    {
        match self {
            DurationParseError::Empty => String::from_str("received empty string"),
            DurationParseError::InvalidFormat => String::from_str(
                "invalid string repr of FiniteDuration. expected format is XXdXXhXXmXXs",
            ),
            DurationParseError::OutOfRange => String::from_str(
                "duration does not fit in 64-bit seconds",
            ),
        }
    }

    pub open spec fn message(&self) -> Seq<char> {
        match self {
            DurationParseError::Empty => "received empty string"@,
            DurationParseError::InvalidFormat => "invalid string repr of FiniteDuration. expected format is XXdXXhXXmXXs"@,
            DurationParseError::OutOfRange => "duration does not fit in 64-bit seconds"@,
        }
    }
}

proof fn lemma_digits_run(s: Seq<char>, i: int, j: int)
    requires
        0 <= i <= j <= s.len(),
        forall|k: int| i <= k < j ==> is_digit(#[trigger] s[k]),
        j == s.len() || !is_digit(s[j]),
    ensures
        leading_digits(s.subrange(i, s.len() as int)) == j - i,
    decreases j - i,
{
    let t = s.subrange(i, s.len() as int);
    if i < j {
        lemma_digits_run(s, i + 1, j);
        assert(t.drop_first() =~= s.subrange(i + 1, s.len() as int));
    }
}

proof fn lemma_total_ascii(s: Seq<char>, first: int)
    requires
        first >= 0,
        components_total(s, first) is Some,
    ensures
        is_ascii_chars(s),
    decreases s.len(),
{
    if s.len() > 0 {
        let n = leading_digits(s);
        let rest = s.subrange(n + 1int, s.len() as int);
        lemma_total_ascii(rest, unit_rank(s[n as int]) + 1);
        lemma_digits_run_back(s, n as int);
        assert forall|k: int| 0 <= k < s.len() implies '\0' <= #[trigger] s[k] <= '\u{7f}' by {
            if k > n {
                assert(s[k] == rest[k - n - 1]);
            } else if k == n {
                assert(unit_rank(s[k]) >= 0);
            }
        }
    }
}

proof fn lemma_digits_run_back(s: Seq<char>, n: int)
    requires
        n == leading_digits(s),
    ensures
        n <= s.len(),
        forall|k: int| 0 <= k < n ==> is_digit(#[trigger] s[k]),
    decreases s.len(),
{
    if s.len() > 0 && is_digit(s[0]) {
        lemma_digits_run_back(s.drop_first(), n - 1);
        assert forall|k: int| 0 <= k < n implies is_digit(#[trigger] s[k]) by {
            if k > 0 {
                assert(s[k] == s.drop_first()[k - 1]);
            }
        }
    }
}

/// `a` brought into the range of `i64` by saturation.
pub open spec fn clamp_i64(a: int) -> int {
    if a > i64::MAX {
        i64::MAX as int
    } else if a < i64::MIN {
        i64::MIN as int
    } else {
        a
    }
}

/// `now - then` in seconds, saturated to the range of `i64`.
pub fn seconds_between(now: i64, then: i64) -> (r: i64)
    ensures
        r == clamp_i64(now - then),
{
    let d: i128 = now as i128 - then as i128;
    if d > i64::MAX as i128 {
        i64::MAX
    } else if d < i64::MIN as i128 {
        i64::MIN
    } else {
        d as i64
    }
}

/// A span of time counted in whole seconds.
#[derive(Debug, Clone, Copy, PartialEq, Eq, Structural)]
pub struct FiniteDuration {
    pub seconds: i64,
}

impl FiniteDuration {
    pub fn from_days(days: i64) -> (r: FiniteDuration)
        requires
            i64::MIN <= days * 86400 <= i64::MAX,
        ensures
            r.seconds == days * 86400,
    {
        FiniteDuration { seconds: days * SECONDS_PER_DAY }
    }

    pub fn from_hours(hours: i64) -> (r: FiniteDuration)
        requires
            i64::MIN <= hours * 3600 <= i64::MAX,
        ensures
            r.seconds == hours * 3600,
    {
        FiniteDuration { seconds: hours * SECONDS_PER_HOUR }
    }

    pub fn from_minutes(minutes: i64) -> (r: FiniteDuration)
        requires
            i64::MIN <= minutes * 60 <= i64::MAX,
        ensures
            r.seconds == minutes * 60,
    {
        FiniteDuration { seconds: minutes * SECONDS_PER_MINUTE }
    }

    pub fn from_seconds(seconds: i64) -> (r: FiniteDuration)
        ensures
            r.seconds == seconds,
    {
        FiniteDuration { seconds }
    }

    /// The span from `then` to `now` (seconds since the epoch); negative
    /// when `then` lies after `now`.
    pub fn between(now: i64, then: i64) -> (r: FiniteDuration)
        ensures
            r.seconds == clamp_i64(now - then),
    {
        FiniteDuration { seconds: seconds_between(now, then) }
    }

    /// The span from `then` (seconds since the epoch) to the current time;
    /// it is `between` applied to whatever the clock reads.
    pub fn between_now_and(then: i64) -> (r: FiniteDuration) {
        let now = now_unix_seconds();
        FiniteDuration::between(now, then)
    }

    /// Whole days, rounded toward zero.
    pub fn as_days(&self) -> (r: i64)
        ensures
            r == trunc_div(self.seconds as int, 86400),
    {
        self.seconds / SECONDS_PER_DAY
    }

    /// Whole hours, rounded toward zero.
    pub fn as_hours(&self) -> (r: i64)
        ensures
            r == trunc_div(self.seconds as int, 3600),
    {
        self.seconds / SECONDS_PER_HOUR
    }

    /// Whole minutes, rounded toward zero.
    pub fn as_minutes(&self) -> (r: i64)
        ensures
            r == trunc_div(self.seconds as int, 60),
    {
        self.seconds / SECONDS_PER_MINUTE
    }

    /// The distance between two spans, capped at `i64::MAX` seconds.
    pub fn difference(&self, other: &FiniteDuration) -> (r: FiniteDuration)
        ensures
            r.seconds == distance(self.seconds as int, other.seconds as int),
    {
        let d: i128 = self.seconds as i128 - other.seconds as i128;
        let m: i128 = if d < 0 {
            -d
        } else {
            d
        };
        if m > i64::MAX as i128 {
            FiniteDuration { seconds: i64::MAX }
        } else {
            FiniteDuration { seconds: m as i64 }
        }
    }

    /// The compact text of the span's length, e.g. `1d12h1s`; `0s` when empty.
    pub fn to_string(&self) -> (r: String)
        ensures
            r@ == duration_text(abs(self.seconds as int) as nat),
    {
        render(magnitude(self.seconds))
    }
}

impl core::ops::Sub<FiniteDuration> for FiniteDuration {
    type Output = FiniteDuration;

    fn sub(self, other: FiniteDuration) -> FiniteDuration {
        self.difference(&other)
    }
}

impl vstd::std_specs::ops::SubSpecImpl<FiniteDuration> for FiniteDuration {
    open spec fn obeys_sub_spec() -> bool {
        true
    }

    open spec fn sub_req(self, other: FiniteDuration) -> bool {
        true
    }

    open spec fn sub_spec(self, other: FiniteDuration) -> FiniteDuration {
        FiniteDuration { seconds: distance(self.seconds as int, other.seconds as int) as i64 }
    }
}

impl FiniteDuration {
    /// Reads the compact text form: components such as `10d`, `2h`, `30m`,
    /// `15s`, in that order, each at most once.
    pub fn parse(text: &str) -> (r: Result<FiniteDuration, DurationParseError>)
        ensures
            match parse_result(text@) {
                Ok(t) => r matches Ok(d) && d.seconds == t,
                Err(e) => r == Err::<FiniteDuration, DurationParseError>(e),
            },
    {
        if text.is_empty() {
            return Err(DurationParseError::Empty);
        }
        if !text.is_ascii() {
            proof {
                if components_total(text@, 0) is Some {
                    lemma_total_ascii(text@, 0);
                }
            }
            return Err(DurationParseError::InvalidFormat);
        }
        proof {
            is_ascii_chars_encode_utf8(text@);
        }
        let ghost s = text@;
        let bytes = text.as_bytes();
        let len = bytes.len();
        assert(len == s.len());
        assert(s.subrange(0, len as int) =~= s);
        let mut i: usize = 0;
        let mut first: i64 = 0;
        let mut total: i64 = 0;
        let mut overflow = false;
        let ghost mut acc: int = 0;
        while i < len
            invariant
                len == s.len(),
                bytes@ == encode_utf8(s),
                s == text@,
                is_ascii_chars(s),
                bytes@.len() == len,
                forall|k: int| 0 <= k < len ==> s[k] as u8 == #[trigger] bytes@[k],
                0 <= i <= len,
                0 <= first <= 4,
                acc >= 0,
                components_total(s, 0) == add_to(components_total(s.subrange(i as int, len as int), first as int), acc),
                !overflow ==> total == acc,
                overflow ==> acc > i64::MAX,
            decreases len - i,
        {
            let ghost t = s.subrange(i as int, len as int);
            let mut j: usize = i;
            let mut value: i64 = 0;
            let mut big = false;
            while j < len && bytes[j] >= 48 && bytes[j] <= 57
                invariant
                    len == s.len(),
                    bytes@ == encode_utf8(s),
                    is_ascii_chars(s),
                    bytes@.len() == len,
                    forall|k: int| 0 <= k < len ==> s[k] as u8 == #[trigger] bytes@[k],
                    i <= j <= len,
                    forall|k: int| i <= k < j ==> is_digit(#[trigger] s[k]),
                    !big ==> value == digits_value(s.subrange(i as int, j as int)),
                    big ==> digits_value(s.subrange(i as int, j as int)) > i64::MAX,
                    digits_value(s.subrange(i as int, j as int)) >= 0,
                decreases len - j,
            {
                let ghost prev = s.subrange(i as int, j as int);
                let d = (bytes[j] - 48) as i64;
                proof {
                    ascii_digit(s[j as int], bytes[j as int]);
                    assert(s.subrange(i as int, j + 1).drop_last() =~= prev);
                }
                if !big && value <= (i64::MAX - d) / 10 {
                    value = value * 10 + d;
                } else {
                    big = true;
                }
                j = j + 1;
            }
            proof {
                if j < len {
                    ascii_digit(s[j as int], bytes[j as int]);
                }
                lemma_digits_run(s, i as int, j as int);
            }
            if j == i || j == len {
                return Err(DurationParseError::InvalidFormat);
            }
            proof {
                assert(t.subrange(0, (j - i) as int) =~= s.subrange(i as int, j as int));
                assert(t.subrange((j - i) + 1, t.len() as int) =~= s.subrange(j + 1, len as int));
            }
            let c = bytes[j];
            let rank: i64 = if c == 100 {
                0
            } else if c == 104 {
                1
            } else if c == 109 {
                2
            } else if c == 115 {
                3
            } else {
                -1
            };
            proof {
                ascii_letter(s[j as int], c);
                assert(t[(j - i) as int] == s[j as int]);
            }
            if rank < first {
                return Err(DurationParseError::InvalidFormat);
            }
            let unit: i64 = if rank == 0 {
                SECONDS_PER_DAY
            } else if rank == 1 {
                SECONDS_PER_HOUR
            } else if rank == 2 {
                SECONDS_PER_MINUTE
            } else {
                1
            };
            let ghost part = digits_value(s.subrange(i as int, j as int)) * unit_seconds(rank as int);
            proof {
                assert(part >= 0) by (nonlinear_arith)
                    requires
                        digits_value(s.subrange(i as int, j as int)) >= 0,
                        unit_seconds(rank as int) >= 1,
                        part == digits_value(s.subrange(i as int, j as int)) * unit_seconds(rank as int),
                ;
            }
            if !overflow && !big && value <= i64::MAX / unit && total <= i64::MAX - value * unit {
                total = total + value * unit;
            } else {
                proof {
                    if !overflow && !big {
                        if value > i64::MAX / unit {
                            assert(value * unit > i64::MAX) by (nonlinear_arith)
                                requires
                                    value > i64::MAX / unit,
                                    unit >= 1,
                            ;
                        }
                    } else if big {
                        assert(part >= digits_value(s.subrange(i as int, j as int))) by (nonlinear_arith)
                            requires
                                digits_value(s.subrange(i as int, j as int)) >= 0,
                                unit_seconds(rank as int) >= 1,
                                part == digits_value(s.subrange(i as int, j as int)) * unit_seconds(rank as int),
                        ;
                    }
                }
                overflow = true;
            }
            proof {
                acc = acc + part;
            }
            i = j + 1;
            first = rank + 1;
        }
        proof {
            assert(s.subrange(i as int, len as int) =~= Seq::<char>::empty());
        }
        if overflow {
            Err(DurationParseError::OutOfRange)
        } else {
            Ok(FiniteDuration { seconds: total })
        }
    }
}

/// Adds `a` to a total that may be absent.
pub open spec fn add_to(o: Option<int>, a: int) -> Option<int> {
    match o {
        Some(t) => Some(a + t),
        None => None,
    }
}

proof fn ascii_digit(c: char, b: u8)
    requires
        '\0' <= c <= '\u{7f}',
        c as u8 == b,
    ensures
        is_digit(c) <==> (48 <= b <= 57),
        is_digit(c) ==> digit_value(c) == b - 48,
{
}

proof fn ascii_letter(c: char, b: u8)
    requires
        '\0' <= c <= '\u{7f}',
        c as u8 == b,
    ensures
        (c == 'd') <==> (b == 100),
        (c == 'h') <==> (b == 104),
        (c == 'm') <==> (b == 109),
        (c == 's') <==> (b == 115),
{
}

/// The absolute value of `s`, which always fits in a `u64`.
pub fn magnitude(s: i64) -> (r: u64)
    ensures
        r == abs(s as int),
{
    if s < 0 {
        (-(s as i128)) as u64
    } else {
        s as u64
    }
}

/// Appends `n` and its unit letter to `out` when `n` is not zero.
fn push_component(out: &mut String, n: u64, unit: &str)
    requires
        unit@.len() == 1,
    ensures
        final(out)@ == old(out)@ + component(n as nat, unit@[0]),
{
    if n > 0 {
        let digits = decimal_text(n);
        out.append(digits.as_str());
        out.append(unit);
        assert(unit@ =~= seq![unit@[0]]);
        assert(final(out)@ =~= old(out)@ + component(n as nat, unit@[0]));
    } else {
        assert(component(n as nat, unit@[0]) =~= Seq::<char>::empty());
        assert(old(out)@ + component(n as nat, unit@[0]) =~= old(out)@);
    }
}

/// The compact text of a span of `secs` seconds.
pub fn render(secs: u64) -> (r: String)
    ensures
        r@ == duration_text(secs as nat),
{
    let days = secs / 86400;
    let hours = (secs % 86400) / 3600;
    let mins = (secs % 3600) / 60;
    let rest = secs % 60;
    let mut out = String::new();
    proof {
        reveal_strlit("d");
        reveal_strlit("h");
        reveal_strlit("m");
        reveal_strlit("s");
    }
    push_component(&mut out, days, "d");
    push_component(&mut out, hours, "h");
    push_component(&mut out, mins, "m");
    push_component(&mut out, rest, "s");
    assert(out@ =~= Seq::<char>::empty() + component(days as nat, 'd') + component(hours as nat, 'h')
        + component(mins as nat, 'm') + component(rest as nat, 's'));
    if out.as_str().is_empty() {
        proof {
            reveal_strlit("0s");
        }
        String::from_str("0s")
    } else {
        out
    }
}

} // verus!
