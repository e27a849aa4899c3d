use vstd::prelude::*;

use crate::calendar::{
    civil_from_days, days_to_civil, floor_div, micros_to_components, timestamp_components,
};
use crate::row_writer::CompactValue;
use crate::text::{
    digit_chars, digits_of, digits_value, first_index, lemma_digits_value, lemma_first_index,
    lemma_zeros_value, hex_of, hyphenated_hex, padded_digits, push_char, push_hex,
    push_padded, push_range, push_signed, push_zeros, signed_digits, zeros,
};

verus! {

/// A value as the host runtime builds it from primitive components.
#[allow(inconsistent_fields)]
#[derive(Debug, PartialEq)]
pub enum HostValue {
    Null,
    Bool(bool),
    Int(i64),
    /// The bit pattern of a 64-bit float.
    Float(u64),
    Text(String),
    Bytes(Vec<u8>),
    Date { year: i32, month: u32, day: u32 },
    Time { hour: i64, minute: u32, second: u32, microsecond: u32 },
    DateTime {
        year: i32,
        month: u32,
        day: u32,
        hour: u32,
        minute: u32,
        second: u32,
        microsecond: u32,
    },
    /// Local wall-clock components and the UTC offset in seconds.
    DateTimeOffset {
        year: i32,
        month: u32,
        day: u32,
        hour: u32,
        minute: u32,
        second: u32,
        microsecond: u32,
        offset_seconds: i32,
    },
    /// Exact fixed-point text of a decimal.
    Decimal(String),
    /// Canonical text of a unique identifier.
    Uuid(String),
}

/// Fixed-point text of `mantissa / 10^scale`.
pub open spec fn decimal_text(mantissa: int, scale: nat) -> Seq<char> {
    let digits = digits_of(if mantissa < 0 { -mantissa } else { mantissa } as nat);
    let body = if scale == 0 {
        digits
    } else if digits.len() <= scale {
        seq!['0', '.'] + zeros((scale - digits.len()) as nat) + digits
    } else {
        digits.subrange(0, digits.len() - scale) + seq!['.'] + digits.subrange(
            digits.len() - scale,
            digits.len() as int,
        )
    };
    if mantissa < 0 {
        seq!['-'] + body
    } else {
        body
    }
}

/// Mantissa and scale read back from fixed-point text: an optional `-`, then
/// digits with at most one `.`; the scale is the number of digits after it.
pub open spec fn read_decimal_text(t: Seq<char>) -> (int, nat) {
    let neg = t.len() > 0 && t[0] == '-';
    let u = if neg {
        t.subrange(1, t.len() as int)
    } else {
        t
    };
    let (digits, scale) = match first_index(u, '.') {
        Some(i) => (u.subrange(0, i) + u.subrange(i + 1, u.len() as int), (u.len() - i - 1) as nat),
        None => (u, 0nat),
    };
    (if neg {
        -(digits_value(digits) as int)
    } else {
        digits_value(digits) as int
    }, scale)
}

/// Reading the fixed-point text of a decimal back gives its mantissa and scale.
pub proof fn lemma_decimal_text_round_trip(mantissa: int, scale: nat)
    ensures
        read_decimal_text(decimal_text(mantissa, scale)) == (mantissa, scale),
{
    let a: nat = if mantissa < 0 {
        (-mantissa) as nat
    } else {
        mantissa as nat
    };
    let digits = digits_of(a);
    lemma_digits_value(a);
    let t = decimal_text(mantissa, scale);
    let body = if mantissa < 0 {
        t.subrange(1, t.len() as int)
    } else {
        t
    };
    assert(digits.len() >= 1) by {
        if a >= 10 {
            assert(digits =~= digits_of(a / 10).push(crate::text::digit_char(a % 10)));
        }
    }
    if scale == 0 {
        assert(body =~= digits);
        assert(first_index(body, '.') is None) by {
            if exists|i: int| 0 <= i < body.len() && body[i] == '.' {
                let i = choose|i: int| 0 <= i < body.len() && body[i] == '.';
                assert('0' <= digits[i] <= '9');
            }
        }
    } else if digits.len() <= scale {
        let k = (scale - digits.len()) as nat;
        assert(body =~= seq!['0', '.'] + zeros(k) + digits);
        lemma_first_index(body, '.', 1);
        assert(body.subrange(0, 1) + body.subrange(2, body.len() as int) =~= zeros(k + 1) + digits);
        lemma_zeros_value(k + 1, digits);
    } else {
        let p = digits.len() - scale;
        assert(body =~= digits.subrange(0, p) + seq!['.'] + digits.subrange(p, digits.len() as int));
        assert forall|j: int| 0 <= j < p implies body[j] != '.' by {
            assert(body[j] == digits[j]);
            assert('0' <= digits[j] <= '9');
        }
        lemma_first_index(body, '.', p);
        assert(body.subrange(0, p) + body.subrange(p + 1, body.len() as int) =~= digits);
    }
    if mantissa >= 0 {
        assert(body.len() == 0 || body[0] != '-') by {
            if scale == 0 || digits.len() > scale {
                assert('0' <= digits[0] <= '9');
            }
        }
    }
}

/// Relies on `uuid::Uuid::from_bytes` and the `Display` of `uuid::Uuid`: the 16
/// bytes in order as lowercase hex digits, hyphenated in groups of 8-4-4-4-12.
#[verifier::external_body]
fn guid_text(bytes: [u8; 16]) -> (r: String)
    ensures
        r@ == hyphenated_hex(bytes@),
{
    uuid::Uuid::from_bytes(bytes).to_string()
}

/// Renders `mantissa / 10^scale` exactly, in base 10.
pub fn decimal_i128_to_string(value: i128, scale: u8) -> (r: String)
    ensures
        r@ == decimal_text(value as int, scale as nat),
{
    let abs: u128 = if value < 0 {
        (-(value + 1)) as u128 + 1
    } else {
        value as u128
    };
    let digits = digit_chars(abs);
    let n = digits.len();
    let sc = scale as usize;
    let mut out = String::new();
    if value < 0 {
        push_char(&mut out, '-');
    }
    if sc == 0 {
        push_range(&mut out, &digits, 0, n);
        proof {
            assert(digits@.subrange(0, n as int) =~= digits@);
        }
    } else if n <= sc {
        push_char(&mut out, '0');
        push_char(&mut out, '.');
        push_zeros(&mut out, sc - n);
        push_range(&mut out, &digits, 0, n);
        proof {
            assert(digits@.subrange(0, n as int) =~= digits@);
        }
    } else {
        push_range(&mut out, &digits, 0, n - sc);
        push_char(&mut out, '.');
        push_range(&mut out, &digits, n - sc, n);
    }
    proof {
        assert(out@ =~= decimal_text(value as int, scale as nat));
    }
    out
}

/// Wall-clock components `(hour, minute, second, microsecond)` of nanoseconds since
/// midnight, by floor division.
pub open spec fn time_components(nanos: int) -> (int, int, int, int) {
    let secs = nanos / 1_000_000_000;
    (secs / 3600, (secs % 3600) / 60, secs % 60, (nanos % 1_000_000_000) / 1000)
}

/// The host value that a wire value decodes to.
pub open spec fn decodes_to(val: CompactValue, r: HostValue) -> bool {
    match val {
        CompactValue::Null => r == HostValue::Null,
        CompactValue::Bool(b) => r == HostValue::Bool(b),
        CompactValue::I64(v) => r == HostValue::Int(v),
        CompactValue::F64(bits) => r == HostValue::Float(bits),
        CompactValue::Str(s) => r == HostValue::Text(s),
        CompactValue::Bytes(b) => r == HostValue::Bytes(b),
        CompactValue::Date(days) => {
            let c = civil_from_days(days as int);
            r matches HostValue::Date { year, month, day } && (year as int, month as int, day as int)
                == c
        },
        CompactValue::Time(nanos) => {
            let c = time_components(nanos as int);
            r matches HostValue::Time { hour, minute, second, microsecond } && (
            hour as int,
            minute as int,
            second as int,
            microsecond as int,
            ) == c
        },
        CompactValue::DateTime(micros) => {
            let c = timestamp_components(micros as int);
            r matches HostValue::DateTime {
                year,
                month,
                day,
                hour,
                minute,
                second,
                microsecond,
            } && (
            year as int,
            month as int,
            day as int,
            hour as int,
            minute as int,
            second as int,
            microsecond as int,
            ) == c
        },
        CompactValue::DateTimeOffset(micros, offset) => {
            let c = timestamp_components(micros + offset * 60_000_000);
            r matches HostValue::DateTimeOffset {
                year,
                month,
                day,
                hour,
                minute,
                second,
                microsecond,
                offset_seconds,
            } && (
            year as int,
            month as int,
            day as int,
            hour as int,
            minute as int,
            second as int,
            microsecond as int,
            ) == c && offset_seconds == offset * 60
        },
        CompactValue::Decimal(mantissa, _precision, scale) => r matches HostValue::Decimal(t)
            && t@ == decimal_text(mantissa as int, scale as nat),
        CompactValue::Guid(bytes) => r matches HostValue::Uuid(t) && t@ == hyphenated_hex(bytes@),
    }
}

/// Converts a wire value to the host value it stands for.
pub fn compact_value_to_py(val: CompactValue) -> (r: HostValue)
    ensures
        decodes_to(val, r),
{
    match val {
        CompactValue::Null => HostValue::Null,
        CompactValue::Bool(b) => HostValue::Bool(b),
        CompactValue::I64(v) => HostValue::Int(v),
        CompactValue::F64(bits) => HostValue::Float(bits),
        CompactValue::Str(s) => HostValue::Text(s),
        CompactValue::Bytes(b) => HostValue::Bytes(b),
        CompactValue::Guid(bytes) => HostValue::Uuid(guid_text(bytes)),
        CompactValue::Decimal(mantissa, _precision, scale) => HostValue::Decimal(
            decimal_i128_to_string(mantissa, scale),
        ),
        CompactValue::Date(days) => {
            let (year, month, day) = days_to_civil(days as i64);
            HostValue::Date { year: year as i32, month, day }
        },
        CompactValue::Time(nanos) => {
            let secs = floor_div(nanos as i128, 1_000_000_000);
            let sub = nanos as i128 - secs * 1_000_000_000;
            proof {
                vstd::arithmetic::div_mod::lemma_fundamental_div_mod(nanos as int, 1_000_000_000);
                vstd::arithmetic::div_mod::lemma_fundamental_div_mod(secs as int, 3600);
            }
            let hour = floor_div(secs, 3600);
            let in_hour = (secs - hour * 3600) as u32;
            HostValue::Time {
                hour: hour as i64,
                minute: in_hour / 60,
                second: in_hour % 60,
                microsecond: (sub / 1000) as u32,
            }
        },
        CompactValue::DateTime(micros) => {
            let (year, month, day, hour, minute, second, microsecond) = micros_to_components(
                micros as i128,
            );
            HostValue::DateTime { year, month, day, hour, minute, second, microsecond }
        },
        CompactValue::DateTimeOffset(micros, offset) => {
            let local = micros as i128 + offset as i128 * 60_000_000;
            let (year, month, day, hour, minute, second, microsecond) = micros_to_components(
                local,
            );
            HostValue::DateTimeOffset {
                year,
                month,
                day,
                hour,
                minute,
                second,
                microsecond,
                offset_seconds: offset as i32 * 60,
            }
        },
    }
}

/// A parameter value handed in by the host, to be rendered as SQL literal text.
#[derive(Debug, PartialEq)]
pub enum HostParam {
    Null,
    Bool(bool),
    Int(i128),
    /// The host's decimal text of an integer beyond 128 bits.
    BigInt(String),
    /// The host's own text of a floating-point number.
    Float(String),
    /// The string form of a host decimal object.
    Decimal(String),
    DateTime {
        year: u32,
        month: u32,
        day: u32,
        hour: u32,
        minute: u32,
        second: u32,
        microsecond: u32,
    },
    Date { year: u32, month: u32, day: u32 },
    Time { hour: u32, minute: u32, second: u32, microsecond: u32 },
    Uuid([u8; 16]),
    Bytes(Vec<u8>),
    Text(String),
    /// The string form of a host object of any other type.
    Other(String),
}

/// `s` with every single quote doubled.
pub open spec fn escape_quotes(s: Seq<char>) -> Seq<char>
    decreases s.len(),
{
    if s.len() == 0 {
        Seq::empty()
    } else {
        escape_quotes(s.drop_last()) + if s.last() == '\'' {
            seq!['\'', '\'']
        } else {
            seq![s.last()]
        }
    }
}

/// Escaped text read back: each doubled single quote stands for one.
pub open spec fn unescape_quotes(t: Seq<char>) -> Seq<char>
    decreases t.len(),
{
    if t.len() == 0 {
        Seq::empty()
    } else if t.len() >= 2 && t.last() == '\'' && t[t.len() - 2] == '\'' {
        unescape_quotes(t.subrange(0, t.len() - 2)).push('\'')
    } else {
        unescape_quotes(t.drop_last()).push(t.last())
    }
}

/// Doubling the quotes of a text loses nothing: reading the escaped text back
/// gives the text.
pub proof fn lemma_escape_round_trip(s: Seq<char>)
    ensures
        unescape_quotes(escape_quotes(s)) == s,
    decreases s.len(),
{
    if s.len() > 0 {
        lemma_escape_round_trip(s.drop_last());
        let e = escape_quotes(s.drop_last());
        if s.last() == '\'' {
            let t = e + seq!['\'', '\''];
            assert(t.subrange(0, t.len() - 2) =~= e);
        } else {
            let t = e + seq![s.last()];
            assert(t.drop_last() =~= e);
        }
        assert(s.drop_last().push(s.last()) =~= s);
    }
}

/// `N'...'` text literal of `s`.
pub open spec fn text_literal(s: Seq<char>) -> Seq<char> {
    seq!['N', '\''] + escape_quotes(s) + seq!['\'']
}

/// ISO text `YYYY-MM-DD` of a date.
pub open spec fn iso_date(year: nat, month: nat, day: nat) -> Seq<char> {
    padded_digits(year, 4) + seq!['-'] + padded_digits(month, 2) + seq!['-'] + padded_digits(day, 2)
}

/// ISO text `HH:MM:SS` of a time of day, without fraction.
pub open spec fn iso_hms(hour: nat, minute: nat, second: nat) -> Seq<char> {
    padded_digits(hour, 2) + seq![':'] + padded_digits(minute, 2) + seq![':'] + padded_digits(
        second,
        2,
    )
}

/// ISO text of a time of day: a six-digit fraction only when the microsecond is not zero.
pub open spec fn iso_time(hour: nat, minute: nat, second: nat, microsecond: nat) -> Seq<char> {
    iso_hms(hour, minute, second) + if microsecond == 0 {
        Seq::empty()
    } else {
        seq!['.'] + padded_digits(microsecond, 6)
    }
}

/// SQL literal text of a host parameter.
pub open spec fn sql_literal(p: HostParam) -> Seq<char> {
    match p {
        HostParam::Null => "NULL"@,
        HostParam::Bool(b) => if b { "1"@ } else { "0"@ },
        HostParam::Int(v) => signed_digits(v as int),
        HostParam::BigInt(t) => t@,
        HostParam::Float(t) => "CAST("@ + t@ + " AS FLOAT)"@,
        HostParam::Decimal(t) => t@,
        HostParam::DateTime { year, month, day, hour, minute, second, microsecond } => {
            let stamp = iso_date(year as nat, month as nat, day as nat) + seq![' '] + iso_hms(
                hour as nat,
                minute as nat,
                second as nat,
            );
            if microsecond > 0 {
                "CAST('"@ + stamp + seq!['.'] + padded_digits(microsecond as nat * 10, 7)
                    + "' AS DATETIME2(7))"@
            } else {
                seq!['\''] + stamp + seq!['\'']
            }
        },
        HostParam::Date { year, month, day } => seq!['\''] + iso_date(
            year as nat,
            month as nat,
            day as nat,
        ) + seq!['\''],
        HostParam::Time { hour, minute, second, microsecond } => seq!['\''] + iso_time(
            hour as nat,
            minute as nat,
            second as nat,
            microsecond as nat,
        ) + seq!['\''],
        HostParam::Uuid(bytes) => seq!['\''] + hyphenated_hex(bytes@) + seq!['\''],
        HostParam::Bytes(b) => "0x"@ + hex_of(b@, true),
        HostParam::Text(t) => text_literal(t@),
        HostParam::Other(t) => text_literal(t@),
    }
}

/// Appends `s` with every single quote doubled.
fn push_escaped(out: &mut String, s: &str)
    ensures
        final(out)@ == old(out)@ + escape_quotes(s@),
{
    let ghost start = out@;
    for c in it: s.chars()
        invariant
            it.seq() == s@,
            it.index() <= s@.len(),
            out@ == start + escape_quotes(s@.subrange(0, it.index() as int)),
    {
        let ghost k = it.index();
        if c == '\'' {
            push_char(out, '\'');
            push_char(out, '\'');
        } else {
            push_char(out, c);
        }
        proof {
            let t = s@.subrange(0, k + 1);
            assert(t.drop_last() =~= s@.subrange(0, k as int));
            assert(out@ =~= start + escape_quotes(t));
        }
    }
    proof {
        assert(s@.subrange(0, s@.len() as int) =~= s@);
    }
}

/// Appends the `YYYY-MM-DD` text of a date.
fn push_iso_date(out: &mut String, year: u32, month: u32, day: u32)
    ensures
        final(out)@ == old(out)@ + iso_date(year as nat, month as nat, day as nat),
{
    push_padded(out, year as u64, 4);
    push_char(out, '-');
    push_padded(out, month as u64, 2);
    push_char(out, '-');
    push_padded(out, day as u64, 2);
    proof {
        assert(final(out)@ =~= old(out)@ + iso_date(year as nat, month as nat, day as nat));
    }
}

/// Appends the `HH:MM:SS` text of a time of day.
fn push_iso_hms(out: &mut String, hour: u32, minute: u32, second: u32)
    ensures
        final(out)@ == old(out)@ + iso_hms(hour as nat, minute as nat, second as nat),
{
    push_padded(out, hour as u64, 2);
    push_char(out, ':');
    push_padded(out, minute as u64, 2);
    push_char(out, ':');
    push_padded(out, second as u64, 2);
    proof {
        assert(final(out)@ =~= old(out)@ + iso_hms(hour as nat, minute as nat, second as nat));
    }
}

/// Renders a host parameter as SQL literal text for substitution into a statement.
pub fn py_to_sql_literal(param: &HostParam) -> (r: String)
    ensures
        r@ == sql_literal(*param),
{
    let mut out = String::new();
    match param {
        HostParam::Null => {
            out.append("NULL");
        },
        HostParam::Bool(b) => {
            if *b {
                out.append("1");
            } else {
                out.append("0");
            }
        },
        HostParam::Int(v) => {
            push_signed(&mut out, *v);
        },
        HostParam::Float(t) => {
            out.append("CAST(");
            out.append(t.as_str());
            out.append(" AS FLOAT)");
        },
        HostParam::Decimal(t) | HostParam::BigInt(t) => {
            out.append(t.as_str());
        },
        HostParam::DateTime { year, month, day, hour, minute, second, microsecond } => {
            if *microsecond > 0 {
                out.append("CAST('");
            } else {
                push_char(&mut out, '\'');
            }
            push_iso_date(&mut out, *year, *month, *day);
            push_char(&mut out, ' ');
            push_iso_hms(&mut out, *hour, *minute, *second);
            if *microsecond > 0 {
                push_char(&mut out, '.');
                push_padded(&mut out, *microsecond as u64 * 10, 7);
                out.append("' AS DATETIME2(7))");
            } else {
                push_char(&mut out, '\'');
            }
        },
        HostParam::Date { year, month, day } => {
            push_char(&mut out, '\'');
            push_iso_date(&mut out, *year, *month, *day);
            push_char(&mut out, '\'');
        },
        HostParam::Time { hour, minute, second, microsecond } => {
            push_char(&mut out, '\'');
            push_iso_hms(&mut out, *hour, *minute, *second);
            if *microsecond != 0 {
                push_char(&mut out, '.');
                push_padded(&mut out, *microsecond as u64, 6);
            }
            push_char(&mut out, '\'');
        },
        HostParam::Uuid(bytes) => {
            push_char(&mut out, '\'');
            let t = guid_text(*bytes);
            out.append(t.as_str());
            push_char(&mut out, '\'');
        },
        HostParam::Bytes(b) => {
            out.append("0x");
            push_hex(&mut out, b.as_slice(), true);
        },
        HostParam::Text(t) | HostParam::Other(t) => {
            push_char(&mut out, 'N');
            push_char(&mut out, '\'');
            push_escaped(&mut out, t.as_str());
            push_char(&mut out, '\'');
        },
    }
    proof {
        assert(out@ =~= sql_literal(*param));
    }
    out
}

} // verus!
