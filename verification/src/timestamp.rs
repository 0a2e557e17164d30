//! Calendar timestamps as plain values, their RFC 3339 text form, and the
//! age display derived from a difference in seconds.
//!
//! The clock itself lives outside this crate; everything here is a function
//! of the field values alone.

use vstd::prelude::*;

use crate::text::{
    char_digit, digit_char, is_digit_char, spec_char_digit, spec_digit_char, spec_u64_chars,
    string_from_chars, u64_to_chars, matches_at,
};

verus! {

/// A UTC calendar timestamp, second precision.
#[derive(Debug, Clone, Copy, PartialEq, Eq, Structural)]
pub struct Timestamp {
    /// Calendar year, four digits.
    pub year: u16,
    /// Calendar month, 1 to 12.
    pub month: u8,
    /// Day of month, 1 to 31.
    pub day: u8,
    /// Hour of day, 0 to 23.
    pub hour: u8,
    /// Minute, 0 to 59.
    pub minute: u8,
    /// Second, 0 to 59.
    pub second: u8,
}

impl Timestamp {
    /// The ranges every stored timestamp keeps.
    pub open spec fn valid(self) -> bool {
        &&& 1970 <= self.year <= 9999
        &&& 1 <= self.month <= 12
        &&& 1 <= self.day <= 31
        &&& self.hour <= 23
        &&& self.minute <= 59
        &&& self.second <= 59
    }

    /// Executable form of `valid`.
    pub fn check_valid(&self) -> (r: bool)
        ensures
            r == self.valid(),
    {
        1970 <= self.year && self.year <= 9999 && 1 <= self.month && self.month <= 12 && 1
            <= self.day && self.day <= 31 && self.hour <= 23 && self.minute <= 59 && self.second
            <= 59
    }

    /// The twenty characters of the RFC 3339 form,
    /// `YYYY-MM-DDTHH:MM:SSZ`.
    pub open spec fn spec_rfc3339(self) -> Seq<char> {
        seq![
            spec_digit_char(self.year as int / 1000),
            spec_digit_char((self.year as int / 100) % 10),
            spec_digit_char((self.year as int / 10) % 10),
            spec_digit_char(self.year as int % 10),
            '-',
            spec_digit_char(self.month as int / 10),
            spec_digit_char(self.month as int % 10),
            '-',
            spec_digit_char(self.day as int / 10),
            spec_digit_char(self.day as int % 10),
            'T',
            spec_digit_char(self.hour as int / 10),
            spec_digit_char(self.hour as int % 10),
            ':',
            spec_digit_char(self.minute as int / 10),
            spec_digit_char(self.minute as int % 10),
            ':',
            spec_digit_char(self.second as int / 10),
            spec_digit_char(self.second as int % 10),
            'Z',
        ]
    }

    /// Render the timestamp in its RFC 3339 form.
    pub fn rfc3339_chars(&self) -> (r: Vec<char>)
        requires
            self.valid(),
        ensures
            r@ == self.spec_rfc3339(),
    {
        let mut r: Vec<char> = Vec::new();
        let y = self.year as u64;
        r.push(digit_char(y / 1000));
        r.push(digit_char((y / 100) % 10));
        r.push(digit_char((y / 10) % 10));
        r.push(digit_char(y % 10));
        r.push('-');
        let mo = self.month as u64;
        r.push(digit_char(mo / 10));
        r.push(digit_char(mo % 10));
        r.push('-');
        let d = self.day as u64;
        r.push(digit_char(d / 10));
        r.push(digit_char(d % 10));
        r.push('T');
        let h = self.hour as u64;
        r.push(digit_char(h / 10));
        r.push(digit_char(h % 10));
        r.push(':');
        let mi = self.minute as u64;
        r.push(digit_char(mi / 10));
        r.push(digit_char(mi % 10));
        r.push(':');
        let s = self.second as u64;
        r.push(digit_char(s / 10));
        r.push(digit_char(s % 10));
        r.push('Z');
        proof {
            assert(r@ =~= self.spec_rfc3339());
        }
        r
    }
}

/// Read two decimal digits at `p`.
fn two_digits_at(v: &Vec<char>, p: usize) -> (r: Option<u64>)
    requires
        p + 2 <= v@.len(),
    ensures
        match r {
            Some(n) => {
                &&& is_digit_char(v@[p as int]) && is_digit_char(v@[p as int + 1])
                &&& n == spec_char_digit(v@[p as int]) * 10 + spec_char_digit(v@[p as int + 1])
                &&& n < 100
            },
            None => !is_digit_char(v@[p as int]) || !is_digit_char(v@[p as int + 1]),
        },
{
    let n = v.len();
    let a = match char_digit(v[p]) {
        Some(a) => a,
        None => {
            return None;
        },
    };
    let b = match char_digit(v[p + 1]) {
        Some(b) => b,
        None => {
            return None;
        },
    };
    Some(a * 10 + b)
}

/// Read four decimal digits at `p`.
fn four_digits_at(v: &Vec<char>, p: usize) -> (r: Option<u64>)
    requires
        p + 4 <= v@.len(),
    ensures
        match r {
            Some(n) => {
                &&& forall|k: int| p <= k < p + 4 ==> is_digit_char(#[trigger] v@[k])
                &&& n == spec_char_digit(v@[p as int]) * 1000 + spec_char_digit(
                    v@[p as int + 1],
                ) * 100 + spec_char_digit(v@[p as int + 2]) * 10 + spec_char_digit(
                    v@[p as int + 3],
                )
                &&& n < 10000
            },
            None => exists|k: int| p <= k < p + 4 && !is_digit_char(#[trigger] v@[k]),
        },
{
    let n = v.len();
    let a = match char_digit(v[p]) {
        Some(a) => a,
        None => {
            return None;
        },
    };
    let b = match char_digit(v[p + 1]) {
        Some(b) => b,
        None => {
            return None;
        },
    };
    let c = match char_digit(v[p + 2]) {
        Some(c) => c,
        None => {
            return None;
        },
    };
    let d = match char_digit(v[p + 3]) {
        Some(d) => d,
        None => {
            return None;
        },
    };
    Some(a * 1000 + b * 100 + c * 10 + d)
}

/// Read an RFC 3339 timestamp at `pos`: exactly the twenty-character form
/// `spec_rfc3339` gives, with its fields in range.  Reading back what
/// `rfc3339_chars` wrote yields the written value and stops right after it.
#[verifier::rlimit(80)]
pub fn parse_rfc3339_at(v: &Vec<char>, pos: usize) -> (r: Option<(Timestamp, usize)>)
    requires
        pos <= v@.len(),
    ensures
        forall|t0: Timestamp|
            t0.valid() && matches_at(v@, t0.spec_rfc3339(), pos as int) ==> r == Some(
                (t0, (pos + 20) as usize),
            ),
        match r {
            Some(p) => p.0.valid() && p.1 == pos + 20 && pos + 20 <= v@.len(),
            None => true,
        },
{
    let n = v.len();
    if n - pos < 20 || pos > n {
        proof {
            assert forall|t0: Timestamp|
                t0.valid() && matches_at(v@, t0.spec_rfc3339(), pos as int) implies false by {
                assert(t0.spec_rfc3339().len() == 20);
            }
        }
        return None;
    }
    let year = four_digits_at(v, pos);
    let month = two_digits_at(v, pos + 5);
    let day = two_digits_at(v, pos + 8);
    let hour = two_digits_at(v, pos + 11);
    let minute = two_digits_at(v, pos + 14);
    let second = two_digits_at(v, pos + 17);
    let seps = {
        let s0 = v[pos + 4];
        let s1 = v[pos + 7];
        let s2 = v[pos + 10];
        let s3 = v[pos + 13];
        let s4 = v[pos + 16];
        let s5 = v[pos + 19];
        s0 == '-' && s1 == '-' && s2 == 'T' && s3 == ':' && s4 == ':' && s5 == 'Z'
    };
    let built: Option<Timestamp> = match (year, month, day, hour, minute, second) {
        (Some(y), Some(mo), Some(d), Some(h), Some(mi), Some(s)) => {
            if seps {
                let t = Timestamp {
                    year: y as u16,
                    month: mo as u8,
                    day: d as u8,
                    hour: h as u8,
                    minute: mi as u8,
                    second: s as u8,
                };
                if t.check_valid() {
                    Some(t)
                } else {
                    None
                }
            } else {
                None
            }
        },
        _ => None,
    };
    proof {
        assert forall|t0: Timestamp|
            t0.valid() && matches_at(v@, t0.spec_rfc3339(), pos as int) implies built == Some(t0)
            && pos + 20 <= v@.len() by {
            let pat = t0.spec_rfc3339();
            let sub = v@.subrange(pos as int, pos as int + 20);
            assert(sub == pat);
            assert forall|k: int| 0 <= k < 20 implies v@[pos + k] == pat[k] by {
                assert(sub[k] == v@[pos + k]);
            }
            lemma_split_value(t0.year as int, 10000);
            lemma_split_value(t0.month as int, 100);
            lemma_split_value(t0.day as int, 100);
            lemma_split_value(t0.hour as int, 100);
            lemma_split_value(t0.minute as int, 100);
            lemma_split_value(t0.second as int, 100);
            assert(v@[pos as int] == spec_digit_char(t0.year as int / 1000));
            assert(spec_char_digit(spec_digit_char(t0.year as int / 1000)) == t0.year as int
                / 1000);
            assert(spec_char_digit(spec_digit_char((t0.year as int / 100) % 10)) == (t0.year as int
                / 100) % 10);
            assert(spec_char_digit(spec_digit_char((t0.year as int / 10) % 10)) == (t0.year as int
                / 10) % 10);
            assert(spec_char_digit(spec_digit_char(t0.year as int % 10)) == t0.year as int % 10);
            assert(spec_char_digit(spec_digit_char(t0.month as int / 10)) == t0.month as int / 10);
            assert(spec_char_digit(spec_digit_char(t0.month as int % 10)) == t0.month as int % 10);
            assert(spec_char_digit(spec_digit_char(t0.day as int / 10)) == t0.day as int / 10);
            assert(spec_char_digit(spec_digit_char(t0.day as int % 10)) == t0.day as int % 10);
            assert(spec_char_digit(spec_digit_char(t0.hour as int / 10)) == t0.hour as int / 10);
            assert(spec_char_digit(spec_digit_char(t0.hour as int % 10)) == t0.hour as int % 10);
            assert(spec_char_digit(spec_digit_char(t0.minute as int / 10)) == t0.minute as int
                / 10);
            assert(spec_char_digit(spec_digit_char(t0.minute as int % 10)) == t0.minute as int
                % 10);
            assert(spec_char_digit(spec_digit_char(t0.second as int / 10)) == t0.second as int
                / 10);
            assert(spec_char_digit(spec_digit_char(t0.second as int % 10)) == t0.second as int
                % 10);
        }
    }
    match built {
        Some(t) => Some((t, pos + 20)),
        None => None,
    }
}

/// A number below the bound splits into its decimal digits and rebuilds
/// from them.
proof fn lemma_split_value(x: int, bound: int)
    requires
        0 <= x < bound,
        bound == 100 || bound == 10000,
    ensures
        bound == 100 ==> (x / 10) * 10 + x % 10 == x && x / 10 < 10,
        bound == 10000 ==> (x / 1000) * 1000 + ((x / 100) % 10) * 100 + ((x / 10) % 10) * 10 + x
            % 10 == x && x / 1000 < 10,
{
    if bound == 100 {
        assert((x / 10) * 10 + x % 10 == x) by (nonlinear_arith)
            requires
                0 <= x < 100,
        ;
        assert(x / 10 < 10) by (nonlinear_arith)
            requires
                0 <= x < 100,
        ;
    } else {
        assert((x / 1000) * 1000 + ((x / 100) % 10) * 100 + ((x / 10) % 10) * 10 + x % 10 == x)
            by (nonlinear_arith)
            requires
                0 <= x < 10000,
        ;
        assert(x / 1000 < 10) by (nonlinear_arith)
            requires
                0 <= x < 10000,
        ;
    }
}

/// The age display: whole days when at least one, else whole hours when at
/// least one, else whole minutes, each with its unit letter.
pub open spec fn spec_format_age(seconds: int) -> Seq<char> {
    if seconds / 86400 > 0 {
        spec_u64_chars((seconds / 86400) as nat) + seq!['d']
    } else if seconds / 3600 > 0 {
        spec_u64_chars((seconds / 3600) as nat) + seq!['h']
    } else {
        spec_u64_chars((seconds / 60) as nat) + seq!['m']
    }
}

/// Render an age, given in whole seconds, as the operator sees it.
pub fn format_age(seconds: u64) -> (r: String)
    ensures
        r@ == spec_format_age(seconds as int),
{
    let days = seconds / 86400;
    let hours = seconds / 3600;
    let minutes = seconds / 60;
    let mut chars: Vec<char>;
    if days > 0 {
        chars = u64_to_chars(days);
        chars.push('d');
        proof {
            assert(chars@ =~= spec_format_age(seconds as int));
        }
    } else if hours > 0 {
        chars = u64_to_chars(hours);
        chars.push('h');
        proof {
            assert(chars@ =~= spec_format_age(seconds as int));
        }
    } else {
        chars = u64_to_chars(minutes);
        chars.push('m');
        proof {
            assert(chars@ =~= spec_format_age(seconds as int));
        }
    }
    string_from_chars(&chars)
}

} // verus!
