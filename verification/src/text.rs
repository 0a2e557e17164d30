//! Character-level helpers: decimal rendering and parsing, substring
//! search, and whitespace tokenization of command output.

use vstd::prelude::*;

verus! {

/// ASCII whitespace, as the command-output parsers treat it.
pub open spec fn is_space_char(c: char) -> bool {
    c == ' ' || c == '\t' || c == '\n' || c == '\r'
}

/// Executable form of `is_space_char`.
pub fn is_space(c: char) -> (r: bool)
    ensures
        r == is_space_char(c),
{
    c == ' ' || c == '\t' || c == '\n' || c == '\r'
}

/// The character for one decimal digit.
pub open spec fn spec_digit_char(d: int) -> char {
    if d == 0 {
        '0'
    } else if d == 1 {
        '1'
    } else if d == 2 {
        '2'
    } else if d == 3 {
        '3'
    } else if d == 4 {
        '4'
    } else if d == 5 {
        '5'
    } else if d == 6 {
        '6'
    } else if d == 7 {
        '7'
    } else if d == 8 {
        '8'
    } else {
        '9'
    }
}

/// The value of one decimal digit character, or -1.
pub open spec fn spec_char_digit(c: char) -> int {
    if c == '0' {
        0
    } else if c == '1' {
        1
    } else if c == '2' {
        2
    } else if c == '3' {
        3
    } else if c == '4' {
        4
    } else if c == '5' {
        5
    } else if c == '6' {
        6
    } else if c == '7' {
        7
    } else if c == '8' {
        8
    } else if c == '9' {
        9
    } else {
        -1
    }
}

/// Whether `c` is a decimal digit.
pub open spec fn is_digit_char(c: char) -> bool {
    spec_char_digit(c) >= 0
}

/// Executable digit test.
pub fn is_digit(c: char) -> (r: bool)
    ensures
        r == is_digit_char(c),
{
    c == '0' || c == '1' || c == '2' || c == '3' || c == '4' || c == '5' || c == '6' || c == '7'
        || c == '8' || c == '9'
}

/// Executable digit-to-character table.
pub fn digit_char(d: u64) -> (r: char)
    requires
        d < 10,
    ensures
        r == spec_digit_char(d as int),
{
    if d == 0 {
        '0'
    } else if d == 1 {
        '1'
    } else if d == 2 {
        '2'
    } else if d == 3 {
        '3'
    } else if d == 4 {
        '4'
    } else if d == 5 {
        '5'
    } else if d == 6 {
        '6'
    } else if d == 7 {
        '7'
    } else if d == 8 {
        '8'
    } else {
        '9'
    }
}

/// Executable character-to-digit table.
pub fn char_digit(c: char) -> (r: Option<u64>)
    ensures
        match r {
            Some(d) => d < 10 && d as int == spec_char_digit(c),
            None => !is_digit_char(c),
        },
{
    if c == '0' {
        Some(0)
    } else if c == '1' {
        Some(1)
    } else if c == '2' {
        Some(2)
    } else if c == '3' {
        Some(3)
    } else if c == '4' {
        Some(4)
    } else if c == '5' {
        Some(5)
    } else if c == '6' {
        Some(6)
    } else if c == '7' {
        Some(7)
    } else if c == '8' {
        Some(8)
    } else if c == '9' {
        Some(9)
    } else {
        None
    }
}

/// The decimal rendering of `n`, most significant digit first, no sign and
/// no leading zeros (the single digit `0` for zero).
pub open spec fn spec_u64_chars(n: nat) -> Seq<char>
    decreases n,
{
    if n < 10 {
        seq![spec_digit_char(n as int)]
    } else {
        spec_u64_chars(n / 10) + seq![spec_digit_char((n % 10) as int)]
    }
}

/// Render `n` in decimal.
pub fn u64_to_chars(n: u64) -> (r: Vec<char>)
    ensures
        r@ == spec_u64_chars(n as nat),
{
    let mut digits: Vec<char> = Vec::new();
    if n < 10 {
        digits.push(digit_char(n));
        return digits;
    }
    let mut m: u64 = n;
    while m >= 10
        invariant
            spec_u64_chars(n as nat) == spec_u64_chars(m as nat) + digits@,
        decreases m,
    {
        let d = digit_char(m % 10);
        digits.insert(0, d);
        m = m / 10;
    }
    let d = digit_char(m);
    digits.insert(0, d);
    proof {
        assert(spec_u64_chars(m as nat) =~= seq![spec_digit_char(m as int)]);
        assert(digits@ =~= spec_u64_chars(n as nat));
    }
    digits
}

/// The number a digit sequence denotes, most significant digit first.
pub open spec fn digits_value(s: Seq<char>) -> int
    decreases s.len(),
{
    if s.len() == 0 {
        0
    } else {
        digits_value(s.drop_last()) * 10 + spec_char_digit(s.last())
    }
}

/// Rendering and reading a decimal number are inverse: the rendering is all
/// digits and denotes the number itself.
pub proof fn lemma_u64_chars_value(n: nat)
    ensures
        spec_u64_chars(n).len() >= 1,
        forall|k: int|
            0 <= k < spec_u64_chars(n).len() ==> is_digit_char(#[trigger] spec_u64_chars(n)[k]),
        digits_value(spec_u64_chars(n)) == n,
    decreases n,
{
    if n < 10 {
        assert(spec_u64_chars(n) =~= seq![spec_digit_char(n as int)]);
        assert(spec_u64_chars(n).drop_last() =~= Seq::<char>::empty());
        assert(spec_char_digit(spec_digit_char(n as int)) == n);
        assert(digits_value(Seq::<char>::empty()) == 0);
        assert(digits_value(spec_u64_chars(n)) == digits_value(spec_u64_chars(n).drop_last()) * 10
            + spec_char_digit(spec_u64_chars(n).last()));
    } else {
        lemma_u64_chars_value(n / 10);
        let s = spec_u64_chars(n);
        assert(s.drop_last() =~= spec_u64_chars(n / 10));
        assert(s.last() == spec_digit_char((n % 10) as int));
        assert(spec_char_digit(spec_digit_char((n % 10) as int)) == n % 10);
        assert(digits_value(s) == (n / 10) * 10 + (n % 10));
        assert(n / 10 * 10 + n % 10 == n) by (nonlinear_arith);
        assert forall|k: int| 0 <= k < s.len() implies is_digit_char(#[trigger] s[k]) by {
            if k < s.len() - 1 {
                assert(s[k] == spec_u64_chars(n / 10)[k]);
            } else {
                assert(s[k] == s.last());
            }
        }
    }
}

/// Where the run of digits starting at `pos` ends.
pub open spec fn digit_run_end(s: Seq<char>, pos: int) -> int
    decreases s.len() - pos,
{
    if pos < 0 || pos >= s.len() || !is_digit_char(s[pos]) {
        pos
    } else {
        digit_run_end(s, pos + 1)
    }
}

/// Basic bounds of `digit_run_end`: it never moves backwards, stays in the
/// sequence, covers digits only, and stops at a non-digit.
pub proof fn lemma_digit_run_end(s: Seq<char>, pos: int)
    requires
        0 <= pos <= s.len(),
    ensures
        pos <= digit_run_end(s, pos) <= s.len(),
        forall|k: int| pos <= k < digit_run_end(s, pos) ==> is_digit_char(#[trigger] s[k]),
        digit_run_end(s, pos) < s.len() ==> !is_digit_char(s[digit_run_end(s, pos)]),
    decreases s.len() - pos,
{
    if pos < s.len() && is_digit_char(s[pos]) {
        lemma_digit_run_end(s, pos + 1);
    }
}

/// A longer digit string never denotes a smaller number.
pub proof fn lemma_digits_value_monotone(s: Seq<char>, m: int)
    requires
        0 <= m <= s.len(),
        forall|k: int| 0 <= k < s.len() ==> is_digit_char(#[trigger] s[k]),
    ensures
        digits_value(s.take(m)) <= digits_value(s),
        digits_value(s) >= 0,
    decreases s.len() - m,
{
    if m == s.len() {
        assert(s.take(m) =~= s);
        lemma_digits_value_nonneg(s);
    } else {
        lemma_digits_value_monotone(s, m + 1);
        lemma_digits_value_nonneg(s.take(m));
        assert(s.take(m + 1).drop_last() =~= s.take(m));
        assert(digits_value(s.take(m + 1)) == digits_value(s.take(m)) * 10 + spec_char_digit(
            s.take(m + 1).last(),
        ));
    }
}

/// A digit string denotes a number, never a negative value.
pub proof fn lemma_digits_value_nonneg(s: Seq<char>)
    requires
        forall|k: int| 0 <= k < s.len() ==> is_digit_char(#[trigger] s[k]),
    ensures
        digits_value(s) >= 0,
    decreases s.len(),
{
    if s.len() > 0 {
        lemma_digits_value_nonneg(s.drop_last());
    }
}

/// Read the decimal number at `pos`: the whole run of digits there.
/// `None` when no digit stands at `pos` or the run denotes more than a
/// 64-bit number holds.
pub fn parse_u64(v: &Vec<char>, pos: usize) -> (r: Option<(u64, usize)>)
    requires
        pos <= v@.len(),
    ensures
        match r {
            Some(p) => {
                &&& p.1 == digit_run_end(v@, pos as int)
                &&& pos < p.1 <= v@.len()
                &&& p.0 as int == digits_value(v@.subrange(pos as int, p.1 as int))
            },
            None => digit_run_end(v@, pos as int) == pos || digits_value(
                v@.subrange(pos as int, digit_run_end(v@, pos as int)),
            ) > u64::MAX,
        },
{
    proof {
        lemma_digit_run_end(v@, pos as int);
    }
    let ghost end = digit_run_end(v@, pos as int);
    if pos == v.len() {
        return None;
    }
    let mut i: usize = pos;
    let mut value: u64 = 0;
    let mut any: bool = false;
    while i < v.len()
        invariant
            pos <= i <= v@.len(),
            end == digit_run_end(v@, pos as int),
            pos <= end <= v@.len(),
            i <= end,
            forall|k: int| pos <= k < end ==> is_digit_char(#[trigger] v@[k]),
            end < v@.len() ==> !is_digit_char(v@[end as int]),
            value as int == digits_value(v@.subrange(pos as int, i as int)),
            any == (i > pos),
        decreases v@.len() - i,
    {
        let d = match char_digit(v[i]) {
            Some(d) => d,
            None => {
                proof {
                    assert(i == end) by {
                        if i < end {
                            assert(is_digit_char(v@[i as int]));
                        }
                    }
                }
                if any {
                    return Some((value, i));
                } else {
                    return None;
                }
            },
        };
        proof {
            assert(i < end) by {
                if i == end {
                    assert(!is_digit_char(v@[end as int]));
                }
            }
        }
        if value > (u64::MAX - d) / 10 {
            proof {
                let run = v@.subrange(pos as int, end as int);
                assert(forall|k: int| 0 <= k < run.len() ==> is_digit_char(#[trigger] run[k]));
                lemma_digits_value_monotone(run, i + 1 - pos);
                assert(run.take(i + 1 - pos) =~= v@.subrange(pos as int, i as int + 1));
                assert(v@.subrange(pos as int, i as int + 1).drop_last() =~= v@.subrange(
                    pos as int,
                    i as int,
                ));
                assert(digits_value(v@.subrange(pos as int, i as int + 1)) == value * 10 + d);
                assert(value * 10 + d > u64::MAX) by (nonlinear_arith)
                    requires
                        value > (u64::MAX - d) / 10,
                        d < 10,
                ;
            }
            return None;
        }
        proof {
            assert(value * 10 + d <= u64::MAX) by (nonlinear_arith)
                requires
                    value <= (u64::MAX - d) / 10,
                    d < 10,
            ;
            assert(v@.subrange(pos as int, i as int + 1).drop_last() =~= v@.subrange(
                pos as int,
                i as int,
            ));
            assert(v@.subrange(pos as int, i as int + 1).last() == v@[i as int]);
        }
        value = value * 10 + d;
        i += 1;
        any = true;
    }
    proof {
        assert(i == end) by {
            if i < end {
                assert(is_digit_char(v@[i as int]));
            }
        }
    }
    if any {
        Some((value, i))
    } else {
        None
    }
}

/// Whether `pat` stands in `s` at position `i`.
pub open spec fn matches_at(s: Seq<char>, pat: Seq<char>, i: int) -> bool {
    0 <= i && i + pat.len() <= s.len() && s.subrange(i, i + pat.len()) == pat
}

/// Whether `pat` stands anywhere in `s`.
pub open spec fn spec_contains_seq(s: Seq<char>, pat: Seq<char>) -> bool {
    exists|i: int| matches_at(s, pat, i)
}

/// Whether `s` ends with `suffix`.
pub open spec fn spec_ends_with(s: Seq<char>, suffix: Seq<char>) -> bool {
    suffix.len() <= s.len() && s.subrange(s.len() - suffix.len(), s.len() as int) == suffix
}

/// Whether `pat` stands in `v` at position `i` (executable).
fn matches_here(v: &Vec<char>, pat: &Vec<char>, i: usize) -> (r: bool)
    requires
        i + pat@.len() <= v@.len(),
    ensures
        r == matches_at(v@, pat@, i as int),
{
    let n = v.len();
    let mut k: usize = 0;
    while k < pat.len()
        invariant
            n == v@.len(),
            i + pat@.len() <= v@.len(),
            k <= pat@.len(),
            forall|j: int| 0 <= j < k ==> v@[i + j] == pat@[j],
        decreases pat@.len() - k,
    {
        if v[i + k] != pat[k] {
            proof {
                assert(v@.subrange(i as int, i + pat@.len()) != pat@) by {
                    assert(v@.subrange(i as int, i + pat@.len())[k as int] != pat@[k as int]);
                }
            }
            return false;
        }
        k += 1;
    }
    proof {
        assert(v@.subrange(i as int, i + pat@.len()) =~= pat@);
    }
    true
}

/// Whether `pat` stands anywhere in `v`.
pub fn contains_chars(v: &Vec<char>, pat: &Vec<char>) -> (r: bool)
    ensures
        r == spec_contains_seq(v@, pat@),
{
    if pat.len() > v.len() {
        proof {
            assert(!spec_contains_seq(v@, pat@)) by {
                if spec_contains_seq(v@, pat@) {
                    let i = choose|i: int| matches_at(v@, pat@, i);
                }
            }
        }
        return false;
    }
    if pat.len() == 0 {
        proof {
            assert(v@.subrange(0, 0) =~= pat@);
            assert(matches_at(v@, pat@, 0));
        }
        return true;
    }
    let mut i: usize = 0;
    while i <= v.len() - pat.len()
        invariant
            1 <= pat@.len() <= v@.len(),
            i <= v@.len() - pat@.len() + 1,
            forall|j: int| 0 <= j < i ==> !matches_at(v@, pat@, j),
        decreases v@.len() - pat@.len() + 1 - i,
    {
        if matches_here(v, pat, i) {
            return true;
        }
        i += 1;
    }
    proof {
        assert(!spec_contains_seq(v@, pat@)) by {
            if spec_contains_seq(v@, pat@) {
                let j = choose|j: int| matches_at(v@, pat@, j);
                assert(j < i);
            }
        }
    }
    false
}

/// Whether `v` ends with `suffix`.
pub fn ends_with_chars(v: &Vec<char>, suffix: &Vec<char>) -> (r: bool)
    ensures
        r == spec_ends_with(v@, suffix@),
{
    if suffix.len() > v.len() {
        return false;
    }
    let start = v.len() - suffix.len();
    let r = matches_here(v, suffix, start);
    proof {
        assert(matches_at(v@, suffix@, start as int) == spec_ends_with(v@, suffix@));
    }
    r
}

/// The characters of a string slice, in order.
pub fn chars_of(s: &str) -> (r: Vec<char>)
    ensures
        r@ == s@,
{
    let n = s.unicode_len();
    let mut r: Vec<char> = Vec::new();
    let mut i: usize = 0;
    while i < n
        invariant
            n == s@.len(),
            i <= n,
            r@ == s@.take(i as int),
        decreases n - i,
    {
        let c = s.get_char(i);
        r.push(c);
        proof {
            assert(r@ =~= s@.take(i as int + 1));
        }
        i += 1;
    }
    proof {
        assert(s@.take(n as int) =~= s@);
    }
    r
}

/// A `String` with exactly the given characters.
///
/// Relies on `core::iter::Iterator::collect` for `String`: collecting
/// characters yields the string of those characters in order.
#[verifier::external_body]
pub(crate) fn string_from_chars(v: &Vec<char>) -> (r: String)
    ensures
        r@ == v@,
{
    v.iter().collect()
}

/// A character vector's deep view is its view.
pub proof fn lemma_vec_char_deep(v: Vec<char>)
    ensures
        v.deep_view() == v@,
{
    assert(v.deep_view() =~= v@);
}

/// An entry of a split result, seen deeply, is that entry's view.
pub proof fn lemma_lines_entry(vv: Vec<Vec<char>>, k: int)
    requires
        0 <= k < vv@.len(),
    ensures
        vv.deep_view()[k] == vv@[k]@,
{
    assert(vv.deep_view()[k] == vv@[k].deep_view());
    lemma_vec_char_deep(vv@[k]);
}

/// Whether two string slices hold the same characters.
pub fn str_eq(a: &str, b: &str) -> (r: bool)
    ensures
        r == (a@ == b@),
{
    let n = a.unicode_len();
    let m = b.unicode_len();
    if n != m {
        proof {
            assert(a@ != b@);
        }
        return false;
    }
    let mut i: usize = 0;
    while i < n
        invariant
            n == a@.len(),
            n == b@.len(),
            i <= n,
            forall|j: int| 0 <= j < i ==> a@[j] == b@[j],
        decreases n - i,
    {
        if a.get_char(i) != b.get_char(i) {
            proof {
                assert(a@[i as int] != b@[i as int]);
            }
            return false;
        }
        i += 1;
    }
    proof {
        assert(a@ =~= b@);
    }
    true
}

/// The whitespace-separated tokens of a line, built from the end: a
/// non-space character either extends the token it adjoins or opens a new
/// one.
pub open spec fn spec_tokens(s: Seq<char>) -> Seq<Seq<char>>
    decreases s.len(),
{
    if s.len() == 0 {
        Seq::empty()
    } else {
        let rest = spec_tokens(s.drop_last());
        let c = s.last();
        if is_space_char(c) {
            rest
        } else if s.len() >= 2 && !is_space_char(s[s.len() - 2]) {
            rest.update(rest.len() - 1, rest.last().push(c))
        } else {
            rest.push(seq![c])
        }
    }
}

/// Split a line into its whitespace-separated tokens.
pub fn split_tokens(v: &Vec<char>) -> (r: Vec<Vec<char>>)
    ensures
        r.deep_view() == spec_tokens(v@),
{
    let mut done: Vec<Vec<char>> = Vec::new();
    let mut cur: Vec<char> = Vec::new();
    let mut i: usize = 0;
    while i < v.len()
        invariant
            i <= v@.len(),
            cur@.len() > 0 ==> i > 0 && !is_space_char(v@[i - 1]),
            cur@.len() == 0 ==> i == 0 || is_space_char(v@[i - 1]),
            spec_tokens(v@.take(i as int)) == if cur@.len() > 0 {
                done.deep_view().push(cur@)
            } else {
                done.deep_view()
            },
        decreases v@.len() - i,
    {
        let c = v[i];
        let ghost pre_done = done.deep_view();
        let ghost pre_cur = cur@;
        proof {
            assert(v@.take(i as int + 1).drop_last() =~= v@.take(i as int));
            assert(v@.take(i as int + 1).last() == v@[i as int]);
        }
        if is_space(c) {
            if cur.len() > 0 {
                done.push(cur);
                cur = Vec::new();
                proof {
                    assert(done.deep_view() =~~= pre_done.push(pre_cur));
                }
            }
        } else {
            if cur.len() > 0 {
                cur.push(c);
                proof {
                    let t = v@.take(i as int + 1);
                    assert(t.len() >= 2 && !is_space_char(t[t.len() - 2]));
                    let rest = spec_tokens(t.drop_last());
                    assert(rest == pre_done.push(pre_cur));
                    assert(rest.update(rest.len() - 1, rest.last().push(c)) =~~= pre_done.push(
                        pre_cur.push(c),
                    ));
                }
            } else {
                cur.push(c);
                proof {
                    let t = v@.take(i as int + 1);
                    if t.len() >= 2 {
                        assert(is_space_char(t[t.len() - 2]));
                    }
                    assert(spec_tokens(t) == spec_tokens(t.drop_last()).push(seq![c]));
                    assert(cur@ =~= seq![c]);
                }
            }
        }
        i += 1;
    }
    proof {
        assert(v@.take(v@.len() as int) =~= v@);
    }
    if cur.len() > 0 {
        let ghost pre_done = done.deep_view();
        let ghost pre_cur = cur@;
        done.push(cur);
        proof {
            assert(done.deep_view() =~~= pre_done.push(pre_cur));
        }
    }
    done
}

/// Split text into its lines: maximal runs separated by newline characters.
/// A final newline closes the last line without opening a new one, as the
/// line-by-line readers of command output expect.
pub open spec fn spec_lines(s: Seq<char>) -> Seq<Seq<char>>
    decreases s.len(),
{
    if s.len() == 0 {
        Seq::empty()
    } else {
        let rest = spec_lines(s.drop_last());
        let c = s.last();
        if c == '\n' {
            if s.len() >= 2 && s[s.len() - 2] != '\n' {
                rest
            } else {
                rest.push(Seq::empty())
            }
        } else if s.len() >= 2 && s[s.len() - 2] != '\n' {
            rest.update(rest.len() - 1, rest.last().push(c))
        } else {
            rest.push(seq![c])
        }
    }
}

/// Split text into lines at newline characters.
pub fn split_lines(v: &Vec<char>) -> (r: Vec<Vec<char>>)
    ensures
        r.deep_view() == spec_lines(v@),
{
    let mut done: Vec<Vec<char>> = Vec::new();
    let mut cur: Vec<char> = Vec::new();
    let mut open: bool = false;
    let mut i: usize = 0;
    while i < v.len()
        invariant
            i <= v@.len(),
            open == (i > 0 && v@[i - 1] != '\n'),
            !open ==> cur@.len() == 0,
            spec_lines(v@.take(i as int)) == if open {
                done.deep_view().push(cur@)
            } else {
                done.deep_view()
            },
        decreases v@.len() - i,
    {
        let c = v[i];
        let ghost pre_done = done.deep_view();
        let ghost pre_cur = cur@;
        proof {
            assert(v@.take(i as int + 1).drop_last() =~= v@.take(i as int));
            assert(v@.take(i as int + 1).last() == v@[i as int]);
        }
        if c == '\n' {
            if open {
                done.push(cur);
                cur = Vec::new();
                open = false;
                proof {
                    assert(done.deep_view() =~~= pre_done.push(pre_cur));
                }
            } else {
                done.push(cur);
                cur = Vec::new();
                proof {
                    assert(pre_cur =~= Seq::<char>::empty());
                    assert(done.deep_view() =~~= pre_done.push(Seq::<char>::empty()));
                }
            }
        } else {
            if open {
                cur.push(c);
                proof {
                    let t = v@.take(i as int + 1);
                    let rest = spec_lines(t.drop_last());
                    assert(rest == pre_done.push(pre_cur));
                    assert(rest.update(rest.len() - 1, rest.last().push(c)) =~~= pre_done.push(
                        pre_cur.push(c),
                    ));
                }
            } else {
                cur.push(c);
                open = true;
                proof {
                    let t = v@.take(i as int + 1);
                    assert(spec_lines(t) == spec_lines(t.drop_last()).push(seq![c]));
                    assert(cur@ =~= seq![c]);
                }
            }
        }
        i += 1;
    }
    proof {
        assert(v@.take(v@.len() as int) =~= v@);
    }
    if open {
        let ghost pre_done = done.deep_view();
        let ghost pre_cur = cur@;
        done.push(cur);
        proof {
            assert(done.deep_view() =~~= pre_done.push(pre_cur));
        }
    }
    done
}

} // verus!
