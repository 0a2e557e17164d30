//! The exact text form of the configuration document: one JSON object,
//! written compactly in a fixed field order, and the reader that accepts
//! exactly what the writer produces.
//!
//! Reading back a written document yields the written values, so saving,
//! loading and saving again gives byte-identical text.

use vstd::prelude::*;

use crate::config::{Approach, Branch, Config, PostgresConfig};
use crate::errors::AppError;
use crate::text::{
    chars_of, digit_run_end, digits_value, is_digit_char, lemma_digit_run_end,
    lemma_u64_chars_value, matches_at, parse_u64, spec_u64_chars, string_from_chars, u64_to_chars,
};
use crate::timestamp::{Timestamp, parse_rfc3339_at};

verus! {

/// One character of a string body, escaped when the text form needs it:
/// a backslash before a quote or a backslash, and the character itself
/// otherwise.
pub open spec fn esc_piece(c: char) -> Seq<char> {
    if c == '"' || c == '\\' {
        seq!['\\', c]
    } else {
        seq![c]
    }
}

/// The escaped body of a string.
pub open spec fn spec_escape(s: Seq<char>) -> Seq<char>
    decreases s.len(),
{
    if s.len() == 0 {
        Seq::empty()
    } else {
        esc_piece(s[0]) + spec_escape(s.drop_first())
    }
}

/// The text form of a string value: the escaped body in quotes.
pub open spec fn spec_emit_string(s: Seq<char>) -> Seq<char> {
    seq!['"'] + spec_escape(s) + seq!['"']
}

/// The text form of an optional string: `null` when absent.
pub open spec fn spec_emit_opt_string(o: Option<String>) -> Seq<char> {
    match o {
        Some(s) => spec_emit_string(s@),
        None => "null"@,
    }
}

/// The text form of a truth value.
pub open spec fn spec_emit_bool(b: bool) -> Seq<char> {
    if b {
        "true"@
    } else {
        "false"@
    }
}

/// The text form of a timestamp value: its RFC 3339 form in quotes.
pub open spec fn spec_emit_ts(t: Timestamp) -> Seq<char> {
    seq!['"'] + t.spec_rfc3339() + seq!['"']
}

/// The text form of the provisioning approach: its spelling in quotes.
pub open spec fn spec_emit_approach(a: Approach) -> Seq<char> {
    seq!['"'] + a.spec_spelling() + seq!['"']
}

/// The text form of the credentials object.
pub open spec fn spec_emit_pg(p: PostgresConfig) -> Seq<char> {
    "{\"user\":"@ + spec_emit_string(p.user@) + ",\"password\":"@ + spec_emit_string(p.password@)
        + ",\"database\":"@ + spec_emit_opt_string(p.database) + seq!['}']
}

/// The text form of the optional credentials.
pub open spec fn spec_emit_opt_pg(o: Option<PostgresConfig>) -> Seq<char> {
    match o {
        Some(p) => spec_emit_pg(p),
        None => "null"@,
    }
}

/// The text form of one branch object.
pub open spec fn spec_emit_branch(b: Branch) -> Seq<char> {
    "{\"name\":"@ + spec_emit_string(b.name@) + ",\"port\":"@ + spec_u64_chars(b.port as nat)
        + ",\"is_main\":"@ + spec_emit_bool(b.is_main) + ",\"created_at\":"@ + spec_emit_ts(
        b.created_at,
    ) + seq!['}']
}

/// The comma-separated branch objects, without the brackets.
pub open spec fn spec_emit_branch_list(bs: Seq<Branch>) -> Seq<char>
    decreases bs.len(),
{
    if bs.len() == 0 {
        Seq::empty()
    } else if bs.len() == 1 {
        spec_emit_branch(bs[0])
    } else {
        spec_emit_branch(bs[0]) + seq![','] + spec_emit_branch_list(bs.drop_first())
    }
}

/// The whole document: one object, compact, fields in a fixed order.
pub open spec fn spec_emit_config(c: Config) -> Seq<char> {
    "{\"name\":"@ + spec_emit_string(c.name@) + ",\"api_port\":"@ + spec_u64_chars(
        c.api_port as nat,
    ) + ",\"proxy_port\":"@ + spec_u64_chars(c.proxy_port as nat) + ",\"created_at\":"@
        + spec_emit_ts(c.created_at) + ",\"approach\":"@ + spec_emit_approach(c.approach)
        + ",\"port_min\":"@ + spec_u64_chars(c.port_min as nat) + ",\"port_max\":"@
        + spec_u64_chars(c.port_max as nat) + ",\"mount_point\":"@ + spec_emit_string(
        c.mount_point@,
    ) + ",\"active_branch\":"@ + spec_emit_opt_string(c.active_branch)
        + ",\"postgres_config\":"@ + spec_emit_opt_pg(c.postgres_config) + ",\"branches\":["@
        + spec_emit_branch_list(c.branches@) + "]}"@
}

/// Append a literal piece of the text form.
fn emit_lit_into(out: &mut Vec<char>, lit: &str)
    ensures
        final(out)@ == old(out)@ + lit@,
{
    let mut piece = chars_of(lit);
    out.append(&mut piece);
}

/// Append the text form of a string value.
fn emit_string_into(out: &mut Vec<char>, s: &str)
    ensures
        final(out)@ == old(out)@ + spec_emit_string(s@),
{
    out.push('"');
    let body = chars_of(s);
    let mut i: usize = 0;
    proof {
        assert(s@.skip(0) =~= s@);
    }
    while i < body.len()
        invariant
            i <= body@.len(),
            body@ == s@,
            old(out)@ + seq!['"'] + spec_escape(s@) == out@ + spec_escape(s@.skip(i as int)),
        decreases body@.len() - i,
    {
        let c = body[i];
        proof {
            assert(s@.skip(i as int)[0] == s@[i as int]);
            assert(s@.skip(i as int).drop_first() =~= s@.skip(i as int + 1));
            assert(spec_escape(s@.skip(i as int)) == esc_piece(s@[i as int]) + spec_escape(
                s@.skip(i as int + 1),
            ));
        }
        if c == '"' || c == '\\' {
            out.push('\\');
            out.push(c);
            proof {
                assert(out@ + spec_escape(s@.skip(i as int + 1)) =~= old(out)@ + seq!['"']
                    + spec_escape(s@));
            }
        } else {
            out.push(c);
            proof {
                assert(out@ + spec_escape(s@.skip(i as int + 1)) =~= old(out)@ + seq!['"']
                    + spec_escape(s@));
            }
        }
        i += 1;
    }
    proof {
        assert(s@.skip(s@.len() as int) =~= Seq::<char>::empty());
        assert(spec_escape(s@.skip(s@.len() as int)) =~= Seq::<char>::empty());
        assert(out@ =~= old(out)@ + seq!['"'] + spec_escape(s@));
    }
    out.push('"');
    proof {
        assert(out@ =~= old(out)@ + spec_emit_string(s@));
    }
}

/// Append the text form of a number.
fn emit_u64_into(out: &mut Vec<char>, n: u64)
    ensures
        final(out)@ == old(out)@ + spec_u64_chars(n as nat),
{
    let mut digits = u64_to_chars(n);
    out.append(&mut digits);
}

/// Append the text form of an optional string.
fn emit_opt_string_into(out: &mut Vec<char>, o: &Option<String>)
    ensures
        final(out)@ == old(out)@ + spec_emit_opt_string(*o),
{
    match o {
        Some(s) => emit_string_into(out, s.as_str()),
        None => emit_lit_into(out, "null"),
    }
}

/// Append the text form of a timestamp.
fn emit_ts_into(out: &mut Vec<char>, t: &Timestamp)
    requires
        t.valid(),
    ensures
        final(out)@ == old(out)@ + spec_emit_ts(*t),
{
    out.push('"');
    let mut body = t.rfc3339_chars();
    out.append(&mut body);
    out.push('"');
    proof {
        assert(out@ =~= old(out)@ + spec_emit_ts(*t));
    }
}

/// Append the text form of one branch object.
fn emit_branch_into(out: &mut Vec<char>, b: &Branch)
    requires
        b.created_at.valid(),
    ensures
        final(out)@ == old(out)@ + spec_emit_branch(*b),
{
    emit_lit_into(out, "{\"name\":");
    emit_string_into(out, b.name.as_str());
    emit_lit_into(out, ",\"port\":");
    emit_u64_into(out, b.port as u64);
    emit_lit_into(out, ",\"is_main\":");
    if b.is_main {
        emit_lit_into(out, "true");
    } else {
        emit_lit_into(out, "false");
    }
    emit_lit_into(out, ",\"created_at\":");
    emit_ts_into(out, &b.created_at);
    out.push('}');
    proof {
        assert(out@ =~= old(out)@ + spec_emit_branch(*b));
    }
}

/// Append the text form of the provisioning approach.
fn emit_approach_into(out: &mut Vec<char>, a: &Approach)
    ensures
        final(out)@ == old(out)@ + spec_emit_approach(*a),
{
    out.push('"');
    emit_lit_into(out, a.spelling());
    out.push('"');
    proof {
        assert(out@ =~= old(out)@ + spec_emit_approach(*a));
    }
}

/// Append the text form of the optional credentials.
fn emit_opt_pg_into(out: &mut Vec<char>, o: &Option<PostgresConfig>)
    ensures
        final(out)@ == old(out)@ + spec_emit_opt_pg(*o),
{
    match o {
        Some(p) => {
            emit_lit_into(out, "{\"user\":");
            emit_string_into(out, p.user.as_str());
            emit_lit_into(out, ",\"password\":");
            emit_string_into(out, p.password.as_str());
            emit_lit_into(out, ",\"database\":");
            emit_opt_string_into(out, &p.database);
            out.push('}');
            proof {
                assert(out@ =~= old(out)@ + spec_emit_opt_pg(*o));
            }
        },
        None => {
            emit_lit_into(out, "null");
        },
    }
}

/// Render the whole document, compactly, fields in the fixed order.
#[verifier::rlimit(100)]
pub fn to_json(c: &Config) -> (r: String)
    requires
        c.created_at.valid(),
        forall|i: int| 0 <= i < c.branches@.len() ==> (#[trigger] c.branches@[i]).created_at.valid(),
    ensures
        r@ == spec_emit_config(*c),
{
    let mut out: Vec<char> = Vec::new();
    emit_lit_into(&mut out, "{\"name\":");
    emit_string_into(&mut out, c.name.as_str());
    emit_lit_into(&mut out, ",\"api_port\":");
    emit_u64_into(&mut out, c.api_port as u64);
    emit_lit_into(&mut out, ",\"proxy_port\":");
    emit_u64_into(&mut out, c.proxy_port as u64);
    emit_lit_into(&mut out, ",\"created_at\":");
    emit_ts_into(&mut out, &c.created_at);
    emit_lit_into(&mut out, ",\"approach\":");
    emit_approach_into(&mut out, &c.approach);
    emit_lit_into(&mut out, ",\"port_min\":");
    emit_u64_into(&mut out, c.port_min as u64);
    emit_lit_into(&mut out, ",\"port_max\":");
    emit_u64_into(&mut out, c.port_max as u64);
    emit_lit_into(&mut out, ",\"mount_point\":");
    emit_string_into(&mut out, c.mount_point.as_str());
    emit_lit_into(&mut out, ",\"active_branch\":");
    emit_opt_string_into(&mut out, &c.active_branch);
    emit_lit_into(&mut out, ",\"postgres_config\":");
    emit_opt_pg_into(&mut out, &c.postgres_config);
    emit_lit_into(&mut out, ",\"branches\":[");
    let ghost before_list = out@;
    let mut i: usize = 0;
    proof {
        assert(c.branches@.skip(0) =~= c.branches@);
    }
    while i < c.branches.len()
        invariant
            i <= c.branches@.len(),
            forall|k: int|
                0 <= k < c.branches@.len() ==> (#[trigger] c.branches@[k]).created_at.valid(),
            before_list + spec_emit_branch_list(c.branches@) == out@ + spec_emit_branch_list(
                c.branches@.skip(i as int),
            ),
        decreases c.branches@.len() - i,
    {
        proof {
            let rest = c.branches@.skip(i as int);
            assert(rest[0] == c.branches@[i as int]);
            assert(rest.drop_first() =~= c.branches@.skip(i as int + 1));
        }
        emit_branch_into(&mut out, &c.branches[i]);
        if i + 1 < c.branches.len() {
            out.push(',');
            proof {
                assert(out@ + spec_emit_branch_list(c.branches@.skip(i as int + 1)) =~= before_list
                    + spec_emit_branch_list(c.branches@));
            }
        } else {
            proof {
                assert(c.branches@.skip(i as int).len() == 1);
                assert(spec_emit_branch_list(c.branches@.skip(i as int)) == spec_emit_branch(
                    c.branches@[i as int],
                ));
                assert(c.branches@.skip(i as int + 1).len() == 0);
                assert(out@ + spec_emit_branch_list(c.branches@.skip(i as int + 1)) =~= before_list
                    + spec_emit_branch_list(c.branches@));
            }
        }
        i += 1;
    }
    proof {
        assert(c.branches@.skip(c.branches@.len() as int) =~= Seq::<Branch>::empty());
        assert(out@ =~= before_list + spec_emit_branch_list(c.branches@));
    }
    emit_lit_into(&mut out, "]}");
    proof {
        assert(out@ =~= spec_emit_config(*c));
    }
    string_from_chars(&out)
}


/// Matching a concatenation splits into matching each part in turn.
pub proof fn lemma_matches_split(v: Seq<char>, a: Seq<char>, b: Seq<char>, pos: int)
    requires
        matches_at(v, a + b, pos),
    ensures
        matches_at(v, a, pos),
        matches_at(v, b, pos + a.len()),
{
    assert forall|k: int| 0 <= k < a.len() implies v.subrange(pos, pos + a.len())[k] == a[k] by {
        assert(v.subrange(pos, pos + (a + b).len())[k] == v[pos + k]);
        assert((a + b)[k] == a[k]);
    }
    assert(v.subrange(pos, pos + a.len()) =~= a);
    assert forall|k: int|
        0 <= k < b.len() implies v.subrange(pos + a.len(), pos + a.len() + b.len())[k] == b[k] by {
        assert(v.subrange(pos, pos + (a + b).len())[a.len() + k] == v[pos + a.len() + k]);
        assert((a + b)[a.len() + k] == b[k]);
    }
    assert(v.subrange(pos + a.len(), pos + a.len() + b.len()) =~= b);
}

/// One character of a pattern stands in the text where the pattern
/// matches.
pub proof fn lemma_matches_index(v: Seq<char>, pat: Seq<char>, pos: int, k: int)
    requires
        matches_at(v, pat, pos),
        0 <= k < pat.len(),
    ensures
        v[pos + k] == pat[k],
{
    assert(v.subrange(pos, pos + pat.len())[k] == v[pos + k]);
}

/// Read a literal piece: the position after it exactly when it stands at
/// `pos`.
fn expect_lit(v: &Vec<char>, pos: usize, lit: &str) -> (r: Option<usize>)
    requires
        pos <= v@.len(),
    ensures
        match r {
            Some(e) => matches_at(v@, lit@, pos as int) && e == pos + lit@.len() && e <= v@.len(),
            None => !matches_at(v@, lit@, pos as int),
        },
{
    let pat = chars_of(lit);
    let n = v.len();
    if pat.len() > n - pos {
        return None;
    }
    let mut k: usize = 0;
    while k < pat.len()
        invariant
            pat@ == lit@,
            n == v@.len(),
            pos + pat@.len() <= n,
            k <= pat@.len(),
            forall|j: int| 0 <= j < k ==> v@[pos + j] == pat@[j],
        decreases pat@.len() - k,
    {
        if v[pos + k] != pat[k] {
            proof {
                assert(!matches_at(v@, lit@, pos as int)) by {
                    if matches_at(v@, lit@, pos as int) {
                        lemma_matches_index(v@, lit@, pos as int, k as int);
                    }
                }
            }
            return None;
        }
        k += 1;
    }
    proof {
        assert(v@.subrange(pos as int, pos + lit@.len()) =~= lit@);
    }
    Some(pos + pat.len())
}

/// The body of a string value read from `i`: the characters up to the
/// closing quote, with escapes undone, and the position after the quote.
pub open spec fn sp_sbody(v: Seq<char>, i: int) -> Option<(Seq<char>, int)>
    decreases v.len() - i,
{
    if i < 0 || i >= v.len() {
        None
    } else if v[i] == '"' {
        Some((Seq::empty(), i + 1))
    } else if v[i] == '\\' {
        if i + 1 < v.len() && (v[i + 1] == '"' || v[i + 1] == '\\') {
            match sp_sbody(v, i + 2) {
                Some(p) => Some((seq![v[i + 1]] + p.0, p.1)),
                None => None,
            }
        } else {
            None
        }
    } else {
        match sp_sbody(v, i + 1) {
            Some(p) => Some((seq![v[i]] + p.0, p.1)),
            None => None,
        }
    }
}

/// A string value read from `pos`: an opening quote, then the body.
pub open spec fn sp_string(v: Seq<char>, pos: int) -> Option<(Seq<char>, int)> {
    if 0 <= pos < v.len() && v[pos] == '"' {
        sp_sbody(v, pos + 1)
    } else {
        None
    }
}

/// Read a string body, as `sp_sbody` describes it.
fn parse_sbody(v: &Vec<char>, i: usize) -> (r: Option<(Vec<char>, usize)>)
    requires
        i <= v@.len(),
    ensures
        match r {
            Some(p) => sp_sbody(v@, i as int) matches Some(q) && p.0@ == q.0 && p.1 == q.1 && i
                < p.1 <= v@.len(),
            None => sp_sbody(v@, i as int) is None,
        },
    decreases v@.len() - i,
{
    if i >= v.len() {
        return None;
    }
    let c = v[i];
    if c == '"' {
        return Some((Vec::new(), i + 1));
    }
    if c == '\\' {
        if i + 1 < v.len() {
            let d = v[i + 1];
            if d == '"' || d == '\\' {
                match parse_sbody(v, i + 2) {
                    Some(p) => {
                        let mut body = p.0;
                        body.insert(0, d);
                        proof {
                            assert(body@ =~= seq![v@[i + 1]] + sp_sbody(
                                v@,
                                i as int + 2,
                            )->Some_0.0);
                        }
                        return Some((body, p.1));
                    },
                    None => {
                        return None;
                    },
                }
            }
        }
        return None;
    }
    match parse_sbody(v, i + 1) {
        Some(p) => {
            let mut body = p.0;
            body.insert(0, c);
            proof {
                assert(body@ =~= seq![v@[i as int]] + sp_sbody(v@, i as int + 1)->Some_0.0);
            }
            Some((body, p.1))
        },
        None => None,
    }
}

/// Read a string value, as `sp_string` describes it.
fn parse_string_at(v: &Vec<char>, pos: usize) -> (r: Option<(String, usize)>)
    requires
        pos <= v@.len(),
    ensures
        match r {
            Some(p) => sp_string(v@, pos as int) matches Some(q) && p.0@ == q.0 && p.1 == q.1
                && pos < p.1 <= v@.len(),
            None => sp_string(v@, pos as int) is None,
        },
{
    if pos >= v.len() {
        return None;
    }
    if v[pos] != '"' {
        return None;
    }
    match parse_sbody(v, pos + 1) {
        Some(p) => Some((string_from_chars(&p.0), p.1)),
        None => None,
    }
}

/// Reading back an emitted string body yields the written characters and
/// stops right after the closing quote.
proof fn lemma_rt_sbody(s: Seq<char>, v: Seq<char>, i: int)
    requires
        matches_at(v, spec_escape(s) + seq!['"'], i),
    ensures
        sp_sbody(v, i) == Some((s, i + spec_escape(s).len() + 1)),
    decreases s.len(),
{
    if s.len() == 0 {
        assert(spec_escape(s) + seq!['"'] =~= seq!['"']);
        lemma_matches_index(v, seq!['"'], i, 0);
    } else {
        let rest = s.drop_first();
        let piece = esc_piece(s[0]);
        assert(spec_escape(s) == piece + spec_escape(rest));
        assert(spec_escape(s) + seq!['"'] =~= piece + (spec_escape(rest) + seq!['"']));
        lemma_matches_split(v, piece, spec_escape(rest) + seq!['"'], i);
        lemma_rt_sbody(rest, v, i + piece.len());
        if s[0] == '"' || s[0] == '\\' {
            lemma_matches_index(v, piece, i, 0);
            lemma_matches_index(v, piece, i, 1);
            assert(v[i] == '\\' && v[i + 1] == s[0]);
            assert(sp_sbody(v, i)->Some_0.0 =~= s);
        } else {
            lemma_matches_index(v, piece, i, 0);
            assert(v[i] == s[0]);
            assert(sp_sbody(v, i)->Some_0.0 =~= s);
        }
    }
}

/// Reading back an emitted string value yields the written characters.
proof fn lemma_rt_string(s: Seq<char>, v: Seq<char>, pos: int)
    requires
        matches_at(v, spec_emit_string(s), pos),
    ensures
        sp_string(v, pos) == Some((s, pos + spec_emit_string(s).len())),
{
    assert(spec_emit_string(s) =~= seq!['"'] + (spec_escape(s) + seq!['"']));
    lemma_matches_split(v, seq!['"'], spec_escape(s) + seq!['"'], pos);
    lemma_matches_index(v, seq!['"'], pos, 0);
    lemma_rt_sbody(s, v, pos + 1);
}

/// A run of digits bounded by a non-digit is exactly what the digit
/// scanner covers.
proof fn lemma_run_stops(v: Seq<char>, pos: int, end: int)
    requires
        0 <= pos <= end <= v.len(),
        forall|k: int| pos <= k < end ==> is_digit_char(#[trigger] v[k]),
        end == v.len() || !is_digit_char(v[end]),
    ensures
        digit_run_end(v, pos) == end,
    decreases end - pos,
{
    if pos < end {
        lemma_run_stops(v, pos + 1, end);
    }
}

/// Reading back an emitted number yields the written value and stops at
/// the non-digit that follows it.
proof fn lemma_rt_number(n: nat, v: Seq<char>, pos: int)
    requires
        n <= u64::MAX,
        matches_at(v, spec_u64_chars(n), pos),
        pos + spec_u64_chars(n).len() == v.len() || !is_digit_char(
            v[pos + spec_u64_chars(n).len()],
        ),
    ensures
        digit_run_end(v, pos) == pos + spec_u64_chars(n).len(),
        digits_value(v.subrange(pos, pos + spec_u64_chars(n).len())) == n,
{
    lemma_u64_chars_value(n);
    let len = spec_u64_chars(n).len();
    assert forall|k: int| pos <= k < pos + len implies is_digit_char(#[trigger] v[k]) by {
        lemma_matches_index(v, spec_u64_chars(n), pos, k - pos);
    }
    lemma_run_stops(v, pos, pos + len);
    assert(v.subrange(pos, pos + len) == spec_u64_chars(n));
}

/// Read a port-sized number: the whole run of digits at `pos`, when it
/// denotes a 16-bit value.
fn parse_u16_at(v: &Vec<char>, pos: usize) -> (r: Option<(u16, usize)>)
    requires
        pos <= v@.len(),
    ensures
        match r {
            Some(p) => {
                &&& p.1 == digit_run_end(v@, pos as int)
                &&& pos < p.1 <= v@.len()
                &&& p.0 as int == digits_value(v@.subrange(pos as int, p.1 as int))
            },
            None => digit_run_end(v@, pos as int) == pos || digits_value(
                v@.subrange(pos as int, digit_run_end(v@, pos as int)),
            ) > u16::MAX,
        },
{
    proof {
        lemma_digit_run_end(v@, pos as int);
    }
    match parse_u64(v, pos) {
        Some(p) => {
            if p.0 <= 65535 {
                Some((p.0 as u16, p.1))
            } else {
                None
            }
        },
        None => {
            proof {
                let end = digit_run_end(v@, pos as int);
                if end != pos {
                    crate::text::lemma_digits_value_monotone(
                        v@.subrange(pos as int, end),
                        end - pos,
                    );
                }
            }
            None
        },
    }
}


/// Whether two optional strings hold the same characters.
pub open spec fn opt_string_equiv(a: Option<String>, b: Option<String>) -> bool {
    match (a, b) {
        (Option::None, Option::None) => true,
        (Option::Some(x), Option::Some(y)) => x@ == y@,
        _ => false,
    }
}

/// Whether two credential objects hold the same values.
pub open spec fn pg_equiv(a: PostgresConfig, b: PostgresConfig) -> bool {
    a.user@ == b.user@ && a.password@ == b.password@ && opt_string_equiv(a.database, b.database)
}

/// Whether two optional credential objects hold the same values.
pub open spec fn opt_pg_equiv(a: Option<PostgresConfig>, b: Option<PostgresConfig>) -> bool {
    match (a, b) {
        (Option::None, Option::None) => true,
        (Option::Some(x), Option::Some(y)) => pg_equiv(x, y),
        _ => false,
    }
}

/// Whether two branch records hold the same values.
pub open spec fn branch_equiv(a: Branch, b: Branch) -> bool {
    a.name@ == b.name@ && a.port == b.port && a.is_main == b.is_main && a.created_at
        == b.created_at
}

/// Whether two branch lists hold the same values, in the same order.
pub open spec fn branches_equiv(a: Seq<Branch>, b: Seq<Branch>) -> bool {
    a.len() == b.len() && forall|i: int| 0 <= i < a.len() ==> branch_equiv(#[trigger] a[i], b[i])
}

/// Whether two documents hold the same stored values.
pub open spec fn config_equiv(a: Config, b: Config) -> bool {
    &&& a.name@ == b.name@
    &&& a.api_port == b.api_port
    &&& a.proxy_port == b.proxy_port
    &&& a.created_at == b.created_at
    &&& a.approach == b.approach
    &&& a.port_min == b.port_min
    &&& a.port_max == b.port_max
    &&& a.mount_point@ == b.mount_point@
    &&& opt_string_equiv(a.active_branch, b.active_branch)
    &&& opt_pg_equiv(a.postgres_config, b.postgres_config)
    &&& branches_equiv(a.branches@, b.branches@)
}

/// Read a timestamp value: the RFC 3339 form in quotes.
fn parse_ts_at(v: &Vec<char>, pos: usize) -> (r: Option<(Timestamp, usize)>)
    requires
        pos <= v@.len(),
    ensures
        forall|t0: Timestamp|
            t0.valid() && matches_at(v@, spec_emit_ts(t0), pos as int) ==> (r matches Some(p)
                && p.0 == t0 && p.1 == pos + spec_emit_ts(t0).len()),
        r matches Some(p) ==> pos < p.1 <= v@.len() && p.0.valid(),
{
    proof {
        assert forall|t0: Timestamp|
            t0.valid() && matches_at(v@, spec_emit_ts(t0), pos as int) implies v@[pos as int]
            == '"' && matches_at(v@, t0.spec_rfc3339(), pos as int + 1) && v@[pos as int + 21]
            == '"' && pos + 22 <= v@.len() by {
            assert(spec_emit_ts(t0) =~= seq!['"'] + (t0.spec_rfc3339() + seq!['"']));
            lemma_matches_split(v@, seq!['"'], t0.spec_rfc3339() + seq!['"'], pos as int);
            lemma_matches_index(v@, seq!['"'], pos as int, 0);
            lemma_matches_split(v@, t0.spec_rfc3339(), seq!['"'], pos as int + 1);
            lemma_matches_index(v@, seq!['"'], pos as int + 21, 0);
        }
    }
    if pos >= v.len() {
        return None;
    }
    if v[pos] != '"' {
        return None;
    }
    match parse_rfc3339_at(v, pos + 1) {
        Some(p) => {
            if p.1 < v.len() {
                let c = v[p.1];
                if c == '"' {
                    return Some((p.0, p.1 + 1));
                }
            }
            None
        },
        None => None,
    }
}

/// Read an optional string value: `null` or a string.
fn parse_opt_string_at(v: &Vec<char>, pos: usize) -> (r: Option<(Option<String>, usize)>)
    requires
        pos <= v@.len(),
    ensures
        forall|o: Option<String>|
            matches_at(v@, spec_emit_opt_string(o), pos as int) ==> (r matches Some(p)
                && opt_string_equiv(p.0, o) && p.1 == pos + spec_emit_opt_string(o).len()),
        r matches Some(p) ==> pos < p.1 <= v@.len(),
{
    proof {
        reveal_strlit("null");
    }
    match expect_lit(v, pos, "null") {
        Some(e) => {
            proof {
                assert forall|o: Option<String>|
                    matches_at(v@, spec_emit_opt_string(o), pos as int) implies o is None by {
                    match o {
                        Option::Some(s0) => {
                            lemma_matches_index(v@, spec_emit_string(s0@), pos as int, 0);
                            lemma_matches_index(v@, "null"@, pos as int, 0);
                        },
                        Option::None => {},
                    }
                }
            }
            Some((None, e))
        },
        None => {
            match parse_string_at(v, pos) {
                Some(p) => {
                    proof {
                        assert forall|o: Option<String>|
                            matches_at(v@, spec_emit_opt_string(o), pos as int) implies (
                        o matches Some(s0) && p.0@ == s0@ && p.1 == pos + spec_emit_opt_string(
                            o,
                        ).len()) by {
                            match o {
                                Option::Some(s0) => {
                                    lemma_rt_string(s0@, v@, pos as int);
                                },
                                Option::None => {},
                            }
                        }
                    }
                    Some((Some(p.0), p.1))
                },
                None => {
                    proof {
                        assert forall|o: Option<String>|
                            matches_at(v@, spec_emit_opt_string(o), pos as int) implies false by {
                            match o {
                                Option::Some(s0) => {
                                    lemma_rt_string(s0@, v@, pos as int);
                                },
                                Option::None => {},
                            }
                        }
                    }
                    None
                },
            }
        },
    }
}

/// Read the provisioning approach: one of its two spellings, in quotes.
/// Any other spelling is rejected.
fn parse_approach_at(v: &Vec<char>, pos: usize) -> (r: Option<(Approach, usize)>)
    requires
        pos <= v@.len(),
    ensures
        forall|a0: Approach|
            matches_at(v@, spec_emit_approach(a0), pos as int) ==> (r matches Some(p) && p.0 == a0
                && p.1 == pos + spec_emit_approach(a0).len()),
        r matches Some(p) ==> pos < p.1 <= v@.len(),
{
    proof {
        reveal_strlit("\"NEW_DISK\"");
        reveal_strlit("\"EXISTING_DISK\"");
        reveal_strlit("NEW_DISK");
        reveal_strlit("EXISTING_DISK");
        assert forall|a0: Approach|
            matches_at(v@, spec_emit_approach(a0), pos as int) implies matches_at(
            v@,
            if a0 is NewDisk {
                "\"NEW_DISK\""@
            } else {
                "\"EXISTING_DISK\""@
            },
            pos as int,
        ) by {
            if a0 is NewDisk {
                assert(spec_emit_approach(a0) =~= "\"NEW_DISK\""@);
            } else {
                assert(spec_emit_approach(a0) =~= "\"EXISTING_DISK\""@);
            }
        }
    }
    match expect_lit(v, pos, "\"NEW_DISK\"") {
        Some(e) => {
            proof {
                assert forall|a0: Approach|
                    matches_at(v@, spec_emit_approach(a0), pos as int) implies a0
                    is NewDisk by {
                    if a0 is ExistingDisk {
                        lemma_matches_index(v@, "\"EXISTING_DISK\""@, pos as int, 1);
                        lemma_matches_index(v@, "\"NEW_DISK\""@, pos as int, 1);
                    }
                }
            }
            Some((Approach::NewDisk, e))
        },
        None => {
            match expect_lit(v, pos, "\"EXISTING_DISK\"") {
                Some(e) => Some((Approach::ExistingDisk, e)),
                None => None,
            }
        },
    }
}


/// Where each piece of an emitted branch object stands, and what reading
/// it back gives.
#[verifier::rlimit(100)]
proof fn lemma_branch_readback(b0: Branch, v: Seq<char>, pos: int)
    requires
        b0.created_at.valid(),
        matches_at(v, spec_emit_branch(b0), pos),
    ensures
        ({
            let l1 = "{\"name\":"@;
            let s1 = spec_emit_string(b0.name@);
            let l2 = ",\"port\":"@;
            let n1 = spec_u64_chars(b0.port as nat);
            let l3 = ",\"is_main\":"@;
            let bl = spec_emit_bool(b0.is_main);
            let l4 = ",\"created_at\":"@;
            let ts = spec_emit_ts(b0.created_at);
            let o1 = pos + l1.len();
            let o2 = o1 + s1.len();
            let o3 = o2 + l2.len();
            let o4 = o3 + n1.len();
            let o5 = o4 + l3.len();
            let o6 = o5 + bl.len();
            let o7 = o6 + l4.len();
            let o8 = o7 + ts.len();
            &&& matches_at(v, l1, pos)
            &&& sp_string(v, o1) == Some((b0.name@, o2))
            &&& matches_at(v, l2, o2)
            &&& digit_run_end(v, o3) == o4
            &&& digits_value(v.subrange(o3, o4)) == b0.port
            &&& matches_at(v, l3, o4)
            &&& (matches_at(v, "true"@, o5) <==> b0.is_main)
            &&& (matches_at(v, "false"@, o5) <==> !b0.is_main)
            &&& matches_at(v, l4, o6)
            &&& matches_at(v, ts, o7)
            &&& matches_at(v, seq!['}'], o8)
            &&& pos + spec_emit_branch(b0).len() == o8 + 1
            &&& 0 <= pos && o8 + 1 <= v.len()
        }),
{
    let l1 = "{\"name\":"@;
    let s1 = spec_emit_string(b0.name@);
    let l2 = ",\"port\":"@;
    let n1 = spec_u64_chars(b0.port as nat);
    let l3 = ",\"is_main\":"@;
    let bl = spec_emit_bool(b0.is_main);
    let l4 = ",\"created_at\":"@;
    let ts = spec_emit_ts(b0.created_at);
    lemma_matches_split(v, l1 + s1 + l2 + n1 + l3 + bl + l4 + ts, seq!['}'], pos);
    lemma_matches_split(v, l1 + s1 + l2 + n1 + l3 + bl + l4, ts, pos);
    lemma_matches_split(v, l1 + s1 + l2 + n1 + l3 + bl, l4, pos);
    lemma_matches_split(v, l1 + s1 + l2 + n1 + l3, bl, pos);
    lemma_matches_split(v, l1 + s1 + l2 + n1, l3, pos);
    lemma_matches_split(v, l1 + s1 + l2, n1, pos);
    lemma_matches_split(v, l1 + s1, l2, pos);
    lemma_matches_split(v, l1, s1, pos);
    let o1 = pos + l1.len();
    let o2 = o1 + s1.len();
    let o3 = o2 + l2.len();
    let o4 = o3 + n1.len();
    let o5 = o4 + l3.len();
    lemma_rt_string(b0.name@, v, o1);
    reveal_strlit(",\"is_main\":");
    lemma_matches_index(v, l3, o4, 0);
    assert(v[o4] == ',');
    lemma_rt_number(b0.port as nat, v, o3);
    reveal_strlit("true");
    reveal_strlit("false");
    if b0.is_main {
        assert(matches_at(v, "true"@, o5));
        if matches_at(v, "false"@, o5) {
            lemma_matches_index(v, "true"@, o5, 0);
            lemma_matches_index(v, "false"@, o5, 0);
        }
    } else {
        assert(matches_at(v, "false"@, o5));
        if matches_at(v, "true"@, o5) {
            lemma_matches_index(v, "true"@, o5, 0);
            lemma_matches_index(v, "false"@, o5, 0);
        }
    }
}

/// Read one branch object, as the writer lays it out.
#[verifier::rlimit(100)]
fn parse_branch_at(v: &Vec<char>, pos: usize) -> (r: Option<(Branch, usize)>)
    requires
        pos <= v@.len(),
    ensures
        forall|b0: Branch|
            b0.created_at.valid() && matches_at(v@, spec_emit_branch(b0), pos as int) ==> (
            r matches Some(p) && branch_equiv(p.0, b0) && p.1 == pos + spec_emit_branch(b0).len()),
        r matches Some(p) ==> pos < p.1 <= v@.len(),
{
    let e1 = match expect_lit(v, pos, "{\"name\":") {
        Some(e) => e,
        None => {
            proof {
                assert forall|b0: Branch|
                    b0.created_at.valid() && matches_at(
                        v@,
                        spec_emit_branch(b0),
                        pos as int,
                    ) implies false by {
                    lemma_branch_readback(b0, v@, pos as int);
                }
            }
            return None;
        },
    };
    let (nm, e2) = match parse_string_at(v, e1) {
        Some(p) => p,
        None => {
            proof {
                assert forall|b0: Branch|
                    b0.created_at.valid() && matches_at(
                        v@,
                        spec_emit_branch(b0),
                        pos as int,
                    ) implies false by {
                    lemma_branch_readback(b0, v@, pos as int);
                }
            }
            return None;
        },
    };
    let e3 = match expect_lit(v, e2, ",\"port\":") {
        Some(e) => e,
        None => {
            proof {
                assert forall|b0: Branch|
                    b0.created_at.valid() && matches_at(
                        v@,
                        spec_emit_branch(b0),
                        pos as int,
                    ) implies false by {
                    lemma_branch_readback(b0, v@, pos as int);
                }
            }
            return None;
        },
    };
    let (port, e4) = match parse_u16_at(v, e3) {
        Some(p) => p,
        None => {
            proof {
                assert forall|b0: Branch|
                    b0.created_at.valid() && matches_at(
                        v@,
                        spec_emit_branch(b0),
                        pos as int,
                    ) implies false by {
                    lemma_branch_readback(b0, v@, pos as int);
                }
            }
            return None;
        },
    };
    let e5 = match expect_lit(v, e4, ",\"is_main\":") {
        Some(e) => e,
        None => {
            proof {
                assert forall|b0: Branch|
                    b0.created_at.valid() && matches_at(
                        v@,
                        spec_emit_branch(b0),
                        pos as int,
                    ) implies false by {
                    lemma_branch_readback(b0, v@, pos as int);
                }
            }
            return None;
        },
    };
    let true_end = expect_lit(v, e5, "true");
    let (is_main, e6): (bool, usize) = match true_end {
        Some(e) => (true, e),
        None => {
            match expect_lit(v, e5, "false") {
                Some(e) => (false, e),
                None => {
                    proof {
                        assert forall|b0: Branch|
                            b0.created_at.valid() && matches_at(
                                v@,
                                spec_emit_branch(b0),
                                pos as int,
                            ) implies false by {
                            lemma_branch_readback(b0, v@, pos as int);
                        }
                    }
                    return None;
                },
            }
        },
    };
    let e7 = match expect_lit(v, e6, ",\"created_at\":") {
        Some(e) => e,
        None => {
            proof {
                assert forall|b0: Branch|
                    b0.created_at.valid() && matches_at(
                        v@,
                        spec_emit_branch(b0),
                        pos as int,
                    ) implies false by {
                    lemma_branch_readback(b0, v@, pos as int);
                    reveal_strlit("true");
                    reveal_strlit("false");
                }
            }
            return None;
        },
    };
    let (ts, e8) = match parse_ts_at(v, e7) {
        Some(p) => p,
        None => {
            proof {
                assert forall|b0: Branch|
                    b0.created_at.valid() && matches_at(
                        v@,
                        spec_emit_branch(b0),
                        pos as int,
                    ) implies false by {
                    lemma_branch_readback(b0, v@, pos as int);
                    reveal_strlit("true");
                    reveal_strlit("false");
                }
            }
            return None;
        },
    };
    let e9 = match expect_lit(v, e8, "}") {
        Some(e) => e,
        None => {
            proof {
                assert forall|b0: Branch|
                    b0.created_at.valid() && matches_at(
                        v@,
                        spec_emit_branch(b0),
                        pos as int,
                    ) implies false by {
                    lemma_branch_readback(b0, v@, pos as int);
                    reveal_strlit("true");
                    reveal_strlit("false");
                    reveal_strlit("}");
                    assert("}"@ =~= seq!['}']);
                    assert(matches_at(v@, seq!['}'], e8 as int));
                }
            }
            return None;
        },
    };
    let branch = Branch { name: nm, port, is_main, created_at: ts };
    proof {
        assert forall|b0: Branch|
            b0.created_at.valid() && matches_at(v@, spec_emit_branch(b0), pos as int) implies (
        branch_equiv(branch, b0) && e9 == pos + spec_emit_branch(b0).len()) by {
            lemma_branch_readback(b0, v@, pos as int);
            reveal_strlit("true");
            reveal_strlit("false");
            reveal_strlit("}");
            assert("}"@ =~= seq!['}']);
        }
    }
    Some((branch, e9))
}

/// Where the head of an emitted branch list stands, and what follows it.
proof fn lemma_list_peel(bs: Seq<Branch>, v: Seq<char>, pos: int)
    requires
        bs.len() >= 1,
        matches_at(v, spec_emit_branch_list(bs) + seq![']'], pos),
    ensures
        ({
            let blen = spec_emit_branch(bs[0]).len();
            &&& matches_at(v, spec_emit_branch(bs[0]), pos)
            &&& 0 <= pos && pos + blen < v.len()
            &&& (bs.len() == 1 ==> v[pos + blen] == ']' && spec_emit_branch_list(bs).len() == blen)
            &&& (bs.len() > 1 ==> v[pos + blen] == ',' && matches_at(
                v,
                spec_emit_branch_list(bs.drop_first()) + seq![']'],
                pos + blen + 1,
            ) && spec_emit_branch_list(bs).len() == blen + 1 + spec_emit_branch_list(
                bs.drop_first(),
            ).len())
        }),
{
    let b = spec_emit_branch(bs[0]);
    if bs.len() == 1 {
        assert(spec_emit_branch_list(bs) + seq![']'] =~= b + seq![']']);
        lemma_matches_split(v, b, seq![']'], pos);
        lemma_matches_index(v, seq![']'], pos + b.len(), 0);
    } else {
        let rest = spec_emit_branch_list(bs.drop_first());
        assert(spec_emit_branch_list(bs) + seq![']'] =~= b + (seq![','] + (rest + seq![']'])));
        lemma_matches_split(v, b, seq![','] + (rest + seq![']']), pos);
        lemma_matches_split(v, seq![','], rest + seq![']'], pos + b.len());
        lemma_matches_index(v, seq![','], pos + b.len(), 0);
    }
}

/// Read the branch objects and the closing bracket after them.
#[verifier::rlimit(100)]
fn parse_branch_tail(v: &Vec<char>, pos: usize) -> (r: Option<(Vec<Branch>, usize)>)
    requires
        pos <= v@.len(),
    ensures
        forall|bs: Seq<Branch>|
            #![trigger spec_emit_branch_list(bs)]
            bs.len() >= 1 && (forall|i: int|
                0 <= i < bs.len() ==> (#[trigger] bs[i]).created_at.valid()) && matches_at(
                v@,
                spec_emit_branch_list(bs) + seq![']'],
                pos as int,
            ) ==> (r matches Some(p) && branches_equiv(p.0@, bs) && p.1 == pos
                + spec_emit_branch_list(bs).len() + 1),
        r matches Some(p) ==> pos < p.1 <= v@.len(),
    decreases v@.len() - pos,
{
    let (b, e1) = match parse_branch_at(v, pos) {
        Some(p) => p,
        None => {
            proof {
                assert forall|bs: Seq<Branch>|
                    #![trigger spec_emit_branch_list(bs)]
                    bs.len() >= 1 && (forall|i: int|
                        0 <= i < bs.len() ==> (#[trigger] bs[i]).created_at.valid()) && matches_at(
                        v@,
                        spec_emit_branch_list(bs) + seq![']'],
                        pos as int,
                    ) implies false by {
                    lemma_list_peel(bs, v@, pos as int);
                    assert(bs[0].created_at.valid());
                }
            }
            return None;
        },
    };
    if e1 >= v.len() {
        proof {
            assert forall|bs: Seq<Branch>|
                #![trigger spec_emit_branch_list(bs)]
                bs.len() >= 1 && (forall|i: int|
                    0 <= i < bs.len() ==> (#[trigger] bs[i]).created_at.valid()) && matches_at(
                    v@,
                    spec_emit_branch_list(bs) + seq![']'],
                    pos as int,
                ) implies false by {
                lemma_list_peel(bs, v@, pos as int);
                assert(bs[0].created_at.valid());
            }
        }
        return None;
    }
    let c = v[e1];
    if c == ']' {
        let mut out: Vec<Branch> = Vec::new();
        out.push(b);
        proof {
            assert forall|bs: Seq<Branch>|
                #![trigger spec_emit_branch_list(bs)]
                bs.len() >= 1 && (forall|i: int|
                    0 <= i < bs.len() ==> (#[trigger] bs[i]).created_at.valid()) && matches_at(
                    v@,
                    spec_emit_branch_list(bs) + seq![']'],
                    pos as int,
                ) implies (branches_equiv(out@, bs) && e1 + 1 == pos + spec_emit_branch_list(
                bs,
            ).len() + 1) by {
                lemma_list_peel(bs, v@, pos as int);
                assert(bs[0].created_at.valid());
                if bs.len() > 1 {
                    assert(v@[e1 as int] == ',');
                }
                assert(bs.len() == 1);
                assert(out@ =~= seq![b]);
            }
        }
        return Some((out, e1 + 1));
    }
    if c != ',' {
        proof {
            assert forall|bs: Seq<Branch>|
                #![trigger spec_emit_branch_list(bs)]
                bs.len() >= 1 && (forall|i: int|
                    0 <= i < bs.len() ==> (#[trigger] bs[i]).created_at.valid()) && matches_at(
                    v@,
                    spec_emit_branch_list(bs) + seq![']'],
                    pos as int,
                ) implies false by {
                lemma_list_peel(bs, v@, pos as int);
                assert(bs[0].created_at.valid());
            }
        }
        return None;
    }
    match parse_branch_tail(v, e1 + 1) {
        Some(p) => {
            let mut rest = p.0;
            let ghost pre_rest = rest@;
            rest.insert(0, b);
            proof {
                assert forall|bs: Seq<Branch>|
                    #![trigger spec_emit_branch_list(bs)]
                    bs.len() >= 1 && (forall|i: int|
                        0 <= i < bs.len() ==> (#[trigger] bs[i]).created_at.valid()) && matches_at(
                        v@,
                        spec_emit_branch_list(bs) + seq![']'],
                        pos as int,
                    ) implies (branches_equiv(rest@, bs) && p.1 == pos + spec_emit_branch_list(
                    bs,
                ).len() + 1) by {
                    lemma_list_peel(bs, v@, pos as int);
                    assert(bs[0].created_at.valid());
                    if bs.len() == 1 {
                        assert(v@[e1 as int] == ']');
                    }
                    assert(bs.len() > 1);
                    let drop = bs.drop_first();
                    assert(forall|i: int|
                        0 <= i < drop.len() ==> (#[trigger] drop[i]).created_at.valid()) by {
                        assert forall|i: int|
                            0 <= i < drop.len() implies (#[trigger] drop[i]).created_at.valid() by {
                            assert(drop[i] == bs[i + 1]);
                        }
                    }
                    assert(branches_equiv(pre_rest, drop));
                    assert(rest@ =~= seq![b] + pre_rest);
                    assert forall|i: int| 0 <= i < rest@.len() implies branch_equiv(
                        #[trigger] rest@[i],
                        bs[i],
                    ) by {
                        if i > 0 {
                            assert(rest@[i] == pre_rest[i - 1]);
                            assert(drop[i - 1] == bs[i]);
                        }
                    }
                }
            }
            Some((rest, p.1))
        },
        None => {
            proof {
                assert forall|bs: Seq<Branch>|
                    #![trigger spec_emit_branch_list(bs)]
                    bs.len() >= 1 && (forall|i: int|
                        0 <= i < bs.len() ==> (#[trigger] bs[i]).created_at.valid()) && matches_at(
                        v@,
                        spec_emit_branch_list(bs) + seq![']'],
                        pos as int,
                    ) implies false by {
                    lemma_list_peel(bs, v@, pos as int);
                    assert(bs[0].created_at.valid());
                    if bs.len() == 1 {
                        assert(v@[e1 as int] == ']');
                    }
                    assert(bs.len() > 1);
                    let drop = bs.drop_first();
                    assert forall|i: int|
                        0 <= i < drop.len() implies (#[trigger] drop[i]).created_at.valid() by {
                        assert(drop[i] == bs[i + 1]);
                    }
                }
            }
            None
        },
    }
}


/// Matching each part in turn joins into matching the concatenation.
proof fn lemma_matches_join(v: Seq<char>, a: Seq<char>, b: Seq<char>, pos: int)
    requires
        matches_at(v, a, pos),
        matches_at(v, b, pos + a.len()),
    ensures
        matches_at(v, a + b, pos),
{
    assert forall|k: int|
        0 <= k < (a + b).len() implies v.subrange(pos, pos + (a + b).len())[k] == (a + b)[k] by {
        if k < a.len() {
            assert(v.subrange(pos, pos + a.len())[k] == v[pos + k]);
        } else {
            assert(v.subrange(pos + a.len(), pos + a.len() + b.len())[k - a.len()] == v[pos + k]);
        }
    }
    assert(v.subrange(pos, pos + (a + b).len()) =~= a + b);
}

/// Where each piece of an emitted credentials object stands, and what
/// reading it back gives.
#[verifier::rlimit(100)]
proof fn lemma_pg_readback(p0: PostgresConfig, v: Seq<char>, pos: int)
    requires
        matches_at(v, spec_emit_pg(p0), pos),
    ensures
        ({
            let l1 = "{\"user\":"@;
            let s1 = spec_emit_string(p0.user@);
            let l2 = ",\"password\":"@;
            let s2 = spec_emit_string(p0.password@);
            let l3 = ",\"database\":"@;
            let os = spec_emit_opt_string(p0.database);
            let q1 = pos + l1.len();
            let q2 = q1 + s1.len();
            let q3 = q2 + l2.len();
            let q4 = q3 + s2.len();
            let q5 = q4 + l3.len();
            let q6 = q5 + os.len();
            &&& matches_at(v, l1, pos)
            &&& sp_string(v, q1) == Some((p0.user@, q2))
            &&& matches_at(v, l2, q2)
            &&& sp_string(v, q3) == Some((p0.password@, q4))
            &&& matches_at(v, l3, q4)
            &&& matches_at(v, os, q5)
            &&& matches_at(v, seq!['}'], q6)
            &&& pos + spec_emit_pg(p0).len() == q6 + 1
            &&& 0 <= pos && q6 + 1 <= v.len()
        }),
{
    let l1 = "{\"user\":"@;
    let s1 = spec_emit_string(p0.user@);
    let l2 = ",\"password\":"@;
    let s2 = spec_emit_string(p0.password@);
    let l3 = ",\"database\":"@;
    let os = spec_emit_opt_string(p0.database);
    lemma_matches_split(v, l1 + s1 + l2 + s2 + l3 + os, seq!['}'], pos);
    lemma_matches_split(v, l1 + s1 + l2 + s2 + l3, os, pos);
    lemma_matches_split(v, l1 + s1 + l2 + s2, l3, pos);
    lemma_matches_split(v, l1 + s1 + l2, s2, pos);
    lemma_matches_split(v, l1 + s1, l2, pos);
    lemma_matches_split(v, l1, s1, pos);
    lemma_rt_string(p0.user@, v, pos + l1.len());
    lemma_rt_string(p0.password@, v, pos + l1.len() + s1.len() + l2.len());
}

/// Read one credentials object, as the writer lays it out.
#[verifier::rlimit(100)]
fn parse_pg_at(v: &Vec<char>, pos: usize) -> (r: Option<(PostgresConfig, usize)>)
    requires
        pos <= v@.len(),
    ensures
        forall|p0: PostgresConfig|
            #![trigger spec_emit_pg(p0)]
            matches_at(v@, spec_emit_pg(p0), pos as int) ==> (r matches Some(p) && pg_equiv(
                p.0,
                p0,
            ) && p.1 == pos + spec_emit_pg(p0).len()),
        r matches Some(p) ==> pos < p.1 <= v@.len(),
{
    let e1 = match expect_lit(v, pos, "{\"user\":") {
        Some(e) => e,
        None => {
            proof {
                assert forall|p0: PostgresConfig|
                    #![trigger spec_emit_pg(p0)]
                    matches_at(v@, spec_emit_pg(p0), pos as int) implies false by {
                    lemma_pg_readback(p0, v@, pos as int);
                }
            }
            return None;
        },
    };
    let (user, e2) = match parse_string_at(v, e1) {
        Some(p) => p,
        None => {
            proof {
                assert forall|p0: PostgresConfig|
                    #![trigger spec_emit_pg(p0)]
                    matches_at(v@, spec_emit_pg(p0), pos as int) implies false by {
                    lemma_pg_readback(p0, v@, pos as int);
                }
            }
            return None;
        },
    };
    let e3 = match expect_lit(v, e2, ",\"password\":") {
        Some(e) => e,
        None => {
            proof {
                assert forall|p0: PostgresConfig|
                    #![trigger spec_emit_pg(p0)]
                    matches_at(v@, spec_emit_pg(p0), pos as int) implies false by {
                    lemma_pg_readback(p0, v@, pos as int);
                }
            }
            return None;
        },
    };
    let (password, e4) = match parse_string_at(v, e3) {
        Some(p) => p,
        None => {
            proof {
                assert forall|p0: PostgresConfig|
                    #![trigger spec_emit_pg(p0)]
                    matches_at(v@, spec_emit_pg(p0), pos as int) implies false by {
                    lemma_pg_readback(p0, v@, pos as int);
                }
            }
            return None;
        },
    };
    let e5 = match expect_lit(v, e4, ",\"database\":") {
        Some(e) => e,
        None => {
            proof {
                assert forall|p0: PostgresConfig|
                    #![trigger spec_emit_pg(p0)]
                    matches_at(v@, spec_emit_pg(p0), pos as int) implies false by {
                    lemma_pg_readback(p0, v@, pos as int);
                }
            }
            return None;
        },
    };
    let (database, e6) = match parse_opt_string_at(v, e5) {
        Some(p) => p,
        None => {
            proof {
                assert forall|p0: PostgresConfig|
                    #![trigger spec_emit_pg(p0)]
                    matches_at(v@, spec_emit_pg(p0), pos as int) implies false by {
                    lemma_pg_readback(p0, v@, pos as int);
                }
            }
            return None;
        },
    };
    let e7 = match expect_lit(v, e6, "}") {
        Some(e) => e,
        None => {
            proof {
                assert forall|p0: PostgresConfig|
                    #![trigger spec_emit_pg(p0)]
                    matches_at(v@, spec_emit_pg(p0), pos as int) implies false by {
                    lemma_pg_readback(p0, v@, pos as int);
                    reveal_strlit("}");
                    assert("}"@ =~= seq!['}']);
                }
            }
            return None;
        },
    };
    let pg = PostgresConfig { user, password, database };
    proof {
        assert forall|p0: PostgresConfig|
            #![trigger spec_emit_pg(p0)]
            matches_at(v@, spec_emit_pg(p0), pos as int) implies (pg_equiv(pg, p0) && e7 == pos
            + spec_emit_pg(p0).len()) by {
            lemma_pg_readback(p0, v@, pos as int);
            reveal_strlit("}");
            assert("}"@ =~= seq!['}']);
        }
    }
    Some((pg, e7))
}

/// Read an optional credentials object: `null` or the object.
fn parse_opt_pg_at(v: &Vec<char>, pos: usize) -> (r: Option<(Option<PostgresConfig>, usize)>)
    requires
        pos <= v@.len(),
    ensures
        forall|o: Option<PostgresConfig>|
            #![trigger spec_emit_opt_pg(o)]
            matches_at(v@, spec_emit_opt_pg(o), pos as int) ==> (r matches Some(p) && opt_pg_equiv(
                p.0,
                o,
            ) && p.1 == pos + spec_emit_opt_pg(o).len()),
        r matches Some(p) ==> pos < p.1 <= v@.len(),
{
    proof {
        reveal_strlit("null");
        reveal_strlit("{\"user\":");
    }
    match expect_lit(v, pos, "null") {
        Some(e) => {
            proof {
                assert forall|o: Option<PostgresConfig>|
                    #![trigger spec_emit_opt_pg(o)]
                    matches_at(v@, spec_emit_opt_pg(o), pos as int) implies o is None by {
                    match o {
                        Option::Some(p0) => {
                            lemma_pg_readback(p0, v@, pos as int);
                            lemma_matches_index(v@, "{\"user\":"@, pos as int, 0);
                            lemma_matches_index(v@, "null"@, pos as int, 0);
                        },
                        Option::None => {},
                    }
                }
            }
            Some((None, e))
        },
        None => {
            match parse_pg_at(v, pos) {
                Some(p) => {
                    proof {
                        assert forall|o: Option<PostgresConfig>|
                            #![trigger spec_emit_opt_pg(o)]
                            matches_at(v@, spec_emit_opt_pg(o), pos as int) implies (
                        o matches Some(p0) && pg_equiv(p.0, p0) && p.1 == pos + spec_emit_opt_pg(
                            o,
                        ).len()) by {
                            match o {
                                Option::Some(p0) => {},
                                Option::None => {},
                            }
                        }
                    }
                    Some((Some(p.0), p.1))
                },
                None => {
                    proof {
                        assert forall|o: Option<PostgresConfig>|
                            #![trigger spec_emit_opt_pg(o)]
                            matches_at(v@, spec_emit_opt_pg(o), pos as int) implies false by {
                            match o {
                                Option::Some(p0) => {},
                                Option::None => {},
                            }
                        }
                    }
                    None
                },
            }
        },
    }
}


/// Whether every stored timestamp of a document is in range.
pub open spec fn stamps_valid(c: Config) -> bool {
    c.created_at.valid() && forall|i: int|
        0 <= i < c.branches@.len() ==> (#[trigger] c.branches@[i]).created_at.valid()
}

/// The document's opening run: name, ports, creation time and approach.
pub open spec fn spec_emit_cfg_front(c: Config) -> Seq<char> {
    "{\"name\":"@ + spec_emit_string(c.name@) + ",\"api_port\":"@ + spec_u64_chars(
        c.api_port as nat,
    ) + ",\"proxy_port\":"@ + spec_u64_chars(c.proxy_port as nat) + ",\"created_at\":"@
        + spec_emit_ts(c.created_at) + ",\"approach\":"@ + spec_emit_approach(c.approach)
}

/// The document's middle run: the port window, the mount root and the
/// active branch.
pub open spec fn spec_emit_cfg_mid(c: Config) -> Seq<char> {
    ",\"port_min\":"@ + spec_u64_chars(c.port_min as nat) + ",\"port_max\":"@ + spec_u64_chars(
        c.port_max as nat,
    ) + ",\"mount_point\":"@ + spec_emit_string(c.mount_point@) + ",\"active_branch\":"@
        + spec_emit_opt_string(c.active_branch)
}

/// The document's closing run: the credentials, the branches, and the
/// closing braces.
pub open spec fn spec_emit_cfg_back(c: Config) -> Seq<char> {
    ",\"postgres_config\":"@ + spec_emit_opt_pg(c.postgres_config) + ",\"branches\":["@
        + spec_emit_branch_list(c.branches@) + "]}"@
}

/// The whole document is its three runs in order.
proof fn lemma_config_parts(c0: Config, v: Seq<char>, pos: int)
    requires
        matches_at(v, spec_emit_config(c0), pos),
    ensures
        matches_at(v, spec_emit_cfg_front(c0), pos),
        matches_at(v, spec_emit_cfg_mid(c0), pos + spec_emit_cfg_front(c0).len()),
        matches_at(
            v,
            spec_emit_cfg_back(c0),
            pos + spec_emit_cfg_front(c0).len() + spec_emit_cfg_mid(c0).len(),
        ),
        spec_emit_config(c0).len() == spec_emit_cfg_front(c0).len() + spec_emit_cfg_mid(
            c0,
        ).len() + spec_emit_cfg_back(c0).len(),
{
    assert(spec_emit_config(c0) =~= spec_emit_cfg_front(c0) + spec_emit_cfg_mid(c0)
        + spec_emit_cfg_back(c0));
    lemma_matches_split(
        v,
        spec_emit_cfg_front(c0) + spec_emit_cfg_mid(c0),
        spec_emit_cfg_back(c0),
        pos,
    );
    lemma_matches_split(v, spec_emit_cfg_front(c0), spec_emit_cfg_mid(c0), pos);
}

/// Where each piece of the opening run stands, and what reading it back
/// gives.
#[verifier::rlimit(100)]
proof fn lemma_front_readback(c0: Config, v: Seq<char>, pos: int)
    requires
        c0.created_at.valid(),
        matches_at(v, spec_emit_cfg_front(c0), pos),
    ensures
        ({
            let l1 = "{\"name\":"@;
            let s1 = spec_emit_string(c0.name@);
            let l2 = ",\"api_port\":"@;
            let n1 = spec_u64_chars(c0.api_port as nat);
            let l3 = ",\"proxy_port\":"@;
            let n2 = spec_u64_chars(c0.proxy_port as nat);
            let l4 = ",\"created_at\":"@;
            let t1 = spec_emit_ts(c0.created_at);
            let l5 = ",\"approach\":"@;
            let a1 = spec_emit_approach(c0.approach);
            let o1 = pos + l1.len();
            let o2 = o1 + s1.len();
            let o3 = o2 + l2.len();
            let o4 = o3 + n1.len();
            let o5 = o4 + l3.len();
            let o6 = o5 + n2.len();
            let o7 = o6 + l4.len();
            let o8 = o7 + t1.len();
            let o9 = o8 + l5.len();
            let o10 = o9 + a1.len();
            &&& matches_at(v, l1, pos)
            &&& sp_string(v, o1) == Some((c0.name@, o2))
            &&& matches_at(v, l2, o2)
            &&& digit_run_end(v, o3) == o4 && digits_value(v.subrange(o3, o4)) == c0.api_port
            &&& matches_at(v, l3, o4)
            &&& digit_run_end(v, o5) == o6 && digits_value(v.subrange(o5, o6)) == c0.proxy_port
            &&& matches_at(v, l4, o6)
            &&& matches_at(v, t1, o7)
            &&& matches_at(v, l5, o8)
            &&& matches_at(v, a1, o9)
            &&& pos + spec_emit_cfg_front(c0).len() == o10
            &&& 0 <= pos && o10 <= v.len()
        }),
{
    let l1 = "{\"name\":"@;
    let s1 = spec_emit_string(c0.name@);
    let l2 = ",\"api_port\":"@;
    let n1 = spec_u64_chars(c0.api_port as nat);
    let l3 = ",\"proxy_port\":"@;
    let n2 = spec_u64_chars(c0.proxy_port as nat);
    let l4 = ",\"created_at\":"@;
    let t1 = spec_emit_ts(c0.created_at);
    let l5 = ",\"approach\":"@;
    let a1 = spec_emit_approach(c0.approach);
    lemma_matches_split(v, l1 + s1 + l2 + n1 + l3 + n2 + l4 + t1 + l5, a1, pos);
    lemma_matches_split(v, l1 + s1 + l2 + n1 + l3 + n2 + l4 + t1, l5, pos);
    lemma_matches_split(v, l1 + s1 + l2 + n1 + l3 + n2 + l4, t1, pos);
    lemma_matches_split(v, l1 + s1 + l2 + n1 + l3 + n2, l4, pos);
    lemma_matches_split(v, l1 + s1 + l2 + n1 + l3, n2, pos);
    lemma_matches_split(v, l1 + s1 + l2 + n1, l3, pos);
    lemma_matches_split(v, l1 + s1 + l2, n1, pos);
    lemma_matches_split(v, l1 + s1, l2, pos);
    lemma_matches_split(v, l1, s1, pos);
    let o1 = pos + l1.len();
    let o3 = o1 + s1.len() + l2.len();
    let o5 = o3 + n1.len() + l3.len();
    lemma_rt_string(c0.name@, v, o1);
    reveal_strlit(",\"proxy_port\":");
    reveal_strlit(",\"created_at\":");
    lemma_matches_index(v, l3, o3 + n1.len(), 0);
    lemma_rt_number(c0.api_port as nat, v, o3);
    lemma_matches_index(v, l4, o5 + n2.len(), 0);
    lemma_rt_number(c0.proxy_port as nat, v, o5);
}

/// Where each piece of the middle run stands, and what reading it back
/// gives.
#[verifier::rlimit(100)]
proof fn lemma_mid_readback(c0: Config, v: Seq<char>, pos: int)
    requires
        matches_at(v, spec_emit_cfg_mid(c0), pos),
    ensures
        ({
            let l6 = ",\"port_min\":"@;
            let n3 = spec_u64_chars(c0.port_min as nat);
            let l7 = ",\"port_max\":"@;
            let n4 = spec_u64_chars(c0.port_max as nat);
            let l8 = ",\"mount_point\":"@;
            let s2 = spec_emit_string(c0.mount_point@);
            let l9 = ",\"active_branch\":"@;
            let os1 = spec_emit_opt_string(c0.active_branch);
            let o11 = pos + l6.len();
            let o12 = o11 + n3.len();
            let o13 = o12 + l7.len();
            let o14 = o13 + n4.len();
            let o15 = o14 + l8.len();
            let o16 = o15 + s2.len();
            let o17 = o16 + l9.len();
            let o18 = o17 + os1.len();
            &&& matches_at(v, l6, pos)
            &&& digit_run_end(v, o11) == o12 && digits_value(v.subrange(o11, o12)) == c0.port_min
            &&& matches_at(v, l7, o12)
            &&& digit_run_end(v, o13) == o14 && digits_value(v.subrange(o13, o14)) == c0.port_max
            &&& matches_at(v, l8, o14)
            &&& sp_string(v, o15) == Some((c0.mount_point@, o16))
            &&& matches_at(v, l9, o16)
            &&& matches_at(v, os1, o17)
            &&& pos + spec_emit_cfg_mid(c0).len() == o18
            &&& 0 <= pos && o18 <= v.len()
        }),
{
    let l6 = ",\"port_min\":"@;
    let n3 = spec_u64_chars(c0.port_min as nat);
    let l7 = ",\"port_max\":"@;
    let n4 = spec_u64_chars(c0.port_max as nat);
    let l8 = ",\"mount_point\":"@;
    let s2 = spec_emit_string(c0.mount_point@);
    let l9 = ",\"active_branch\":"@;
    let os1 = spec_emit_opt_string(c0.active_branch);
    lemma_matches_split(v, l6 + n3 + l7 + n4 + l8 + s2 + l9, os1, pos);
    lemma_matches_split(v, l6 + n3 + l7 + n4 + l8 + s2, l9, pos);
    lemma_matches_split(v, l6 + n3 + l7 + n4 + l8, s2, pos);
    lemma_matches_split(v, l6 + n3 + l7 + n4, l8, pos);
    lemma_matches_split(v, l6 + n3 + l7, n4, pos);
    lemma_matches_split(v, l6 + n3, l7, pos);
    lemma_matches_split(v, l6, n3, pos);
    let o11 = pos + l6.len();
    let o13 = o11 + n3.len() + l7.len();
    let o15 = o13 + n4.len() + l8.len();
    lemma_rt_string(c0.mount_point@, v, o15);
    reveal_strlit(",\"port_max\":");
    reveal_strlit(",\"mount_point\":");
    lemma_matches_index(v, l7, o11 + n3.len(), 0);
    lemma_rt_number(c0.port_min as nat, v, o11);
    lemma_matches_index(v, l8, o13 + n4.len(), 0);
    lemma_rt_number(c0.port_max as nat, v, o13);
}

/// Where each piece of the closing run stands, and what reading it back
/// gives.
#[verifier::rlimit(100)]
proof fn lemma_back_readback(c0: Config, v: Seq<char>, pos: int)
    requires
        matches_at(v, spec_emit_cfg_back(c0), pos),
    ensures
        ({
            let l10 = ",\"postgres_config\":"@;
            let pg1 = spec_emit_opt_pg(c0.postgres_config);
            let l11 = ",\"branches\":["@;
            let bl1 = spec_emit_branch_list(c0.branches@);
            let o19 = pos + l10.len();
            let o20 = o19 + pg1.len();
            let o21 = o20 + l11.len();
            let o22 = o21 + bl1.len();
            &&& matches_at(v, l10, pos)
            &&& matches_at(v, pg1, o19)
            &&& matches_at(v, l11, o20)
            &&& matches_at(v, bl1 + seq![']'], o21)
            &&& matches_at(v, seq!['}'], o22 + 1)
            &&& pos + spec_emit_cfg_back(c0).len() == o22 + 2
            &&& 0 <= pos && o22 + 2 <= v.len()
        }),
{
    let l10 = ",\"postgres_config\":"@;
    let pg1 = spec_emit_opt_pg(c0.postgres_config);
    let l11 = ",\"branches\":["@;
    let bl1 = spec_emit_branch_list(c0.branches@);
    lemma_matches_split(v, l10 + pg1 + l11 + bl1, "]}"@, pos);
    lemma_matches_split(v, l10 + pg1 + l11, bl1, pos);
    lemma_matches_split(v, l10 + pg1, l11, pos);
    lemma_matches_split(v, l10, pg1, pos);
    let o21 = pos + l10.len() + pg1.len() + l11.len();
    reveal_strlit("]}");
    assert("]}"@ =~= seq![']'] + seq!['}']);
    lemma_matches_split(v, seq![']'], seq!['}'], o21 + bl1.len());
    lemma_matches_join(v, bl1, seq![']'], o21);
}

/// Read the document's opening run.
#[verifier::rlimit(100)]
fn parse_cfg_front(v: &Vec<char>, pos: usize) -> (r: Option<
    ((String, u16, u16, Timestamp, Approach), usize),
>)
    requires
        pos <= v@.len(),
    ensures
        forall|c0: Config|
            #![trigger spec_emit_cfg_front(c0)]
            c0.created_at.valid() && matches_at(v@, spec_emit_cfg_front(c0), pos as int) ==> (
            r matches Some(p) && p.0.0@ == c0.name@ && p.0.1 == c0.api_port && p.0.2
                == c0.proxy_port && p.0.3 == c0.created_at && p.0.4 == c0.approach && p.1 == pos
                + spec_emit_cfg_front(c0).len()),
        r matches Some(p) ==> pos < p.1 <= v@.len(),
{
    let e1 = match expect_lit(v, pos, "{\"name\":") {
        Some(e) => e,
        None => {
            proof {
                assert forall|c0: Config|
                    #![trigger spec_emit_cfg_front(c0)]
                    c0.created_at.valid() && matches_at(
                        v@,
                        spec_emit_cfg_front(c0),
                        pos as int,
                    ) implies false by {
                    lemma_front_readback(c0, v@, pos as int);
                }
            }
            return None;
        },
    };
    let (name, e2) = match parse_string_at(v, e1) {
        Some(p) => p,
        None => {
            proof {
                assert forall|c0: Config|
                    #![trigger spec_emit_cfg_front(c0)]
                    c0.created_at.valid() && matches_at(
                        v@,
                        spec_emit_cfg_front(c0),
                        pos as int,
                    ) implies false by {
                    lemma_front_readback(c0, v@, pos as int);
                }
            }
            return None;
        },
    };
    let e3 = match expect_lit(v, e2, ",\"api_port\":") {
        Some(e) => e,
        None => {
            proof {
                assert forall|c0: Config|
                    #![trigger spec_emit_cfg_front(c0)]
                    c0.created_at.valid() && matches_at(
                        v@,
                        spec_emit_cfg_front(c0),
                        pos as int,
                    ) implies false by {
                    lemma_front_readback(c0, v@, pos as int);
                }
            }
            return None;
        },
    };
    let (api_port, e4) = match parse_u16_at(v, e3) {
        Some(p) => p,
        None => {
            proof {
                assert forall|c0: Config|
                    #![trigger spec_emit_cfg_front(c0)]
                    c0.created_at.valid() && matches_at(
                        v@,
                        spec_emit_cfg_front(c0),
                        pos as int,
                    ) implies false by {
                    lemma_front_readback(c0, v@, pos as int);
                }
            }
            return None;
        },
    };
    let e5 = match expect_lit(v, e4, ",\"proxy_port\":") {
        Some(e) => e,
        None => {
            proof {
                assert forall|c0: Config|
                    #![trigger spec_emit_cfg_front(c0)]
                    c0.created_at.valid() && matches_at(
                        v@,
                        spec_emit_cfg_front(c0),
                        pos as int,
                    ) implies false by {
                    lemma_front_readback(c0, v@, pos as int);
                }
            }
            return None;
        },
    };
    let (proxy_port, e6) = match parse_u16_at(v, e5) {
        Some(p) => p,
        None => {
            proof {
                assert forall|c0: Config|
                    #![trigger spec_emit_cfg_front(c0)]
                    c0.created_at.valid() && matches_at(
                        v@,
                        spec_emit_cfg_front(c0),
                        pos as int,
                    ) implies false by {
                    lemma_front_readback(c0, v@, pos as int);
                }
            }
            return None;
        },
    };
    let e7 = match expect_lit(v, e6, ",\"created_at\":") {
        Some(e) => e,
        None => {
            proof {
                assert forall|c0: Config|
                    #![trigger spec_emit_cfg_front(c0)]
                    c0.created_at.valid() && matches_at(
                        v@,
                        spec_emit_cfg_front(c0),
                        pos as int,
                    ) implies false by {
                    lemma_front_readback(c0, v@, pos as int);
                }
            }
            return None;
        },
    };
    let (created_at, e8) = match parse_ts_at(v, e7) {
        Some(p) => p,
        None => {
            proof {
                assert forall|c0: Config|
                    #![trigger spec_emit_cfg_front(c0)]
                    c0.created_at.valid() && matches_at(
                        v@,
                        spec_emit_cfg_front(c0),
                        pos as int,
                    ) implies false by {
                    lemma_front_readback(c0, v@, pos as int);
                }
            }
            return None;
        },
    };
    let e9 = match expect_lit(v, e8, ",\"approach\":") {
        Some(e) => e,
        None => {
            proof {
                assert forall|c0: Config|
                    #![trigger spec_emit_cfg_front(c0)]
                    c0.created_at.valid() && matches_at(
                        v@,
                        spec_emit_cfg_front(c0),
                        pos as int,
                    ) implies false by {
                    lemma_front_readback(c0, v@, pos as int);
                }
            }
            return None;
        },
    };
    let (approach, e10) = match parse_approach_at(v, e9) {
        Some(p) => p,
        None => {
            proof {
                assert forall|c0: Config|
                    #![trigger spec_emit_cfg_front(c0)]
                    c0.created_at.valid() && matches_at(
                        v@,
                        spec_emit_cfg_front(c0),
                        pos as int,
                    ) implies false by {
                    lemma_front_readback(c0, v@, pos as int);
                }
            }
            return None;
        },
    };
    proof {
        assert forall|c0: Config|
            #![trigger spec_emit_cfg_front(c0)]
            c0.created_at.valid() && matches_at(
                v@,
                spec_emit_cfg_front(c0),
                pos as int,
            ) implies (name@ == c0.name@ && api_port == c0.api_port && proxy_port == c0.proxy_port
            && created_at == c0.created_at && approach == c0.approach && e10 == pos
            + spec_emit_cfg_front(c0).len()) by {
            lemma_front_readback(c0, v@, pos as int);
        }
    }
    Some(((name, api_port, proxy_port, created_at, approach), e10))
}

/// Read the document's middle run.
#[verifier::rlimit(100)]
fn parse_cfg_mid(v: &Vec<char>, pos: usize) -> (r: Option<
    ((u16, u16, String, Option<String>), usize),
>)
    requires
        pos <= v@.len(),
    ensures
        forall|c0: Config|
            #![trigger spec_emit_cfg_mid(c0)]
            matches_at(v@, spec_emit_cfg_mid(c0), pos as int) ==> (r matches Some(p) && p.0.0
                == c0.port_min && p.0.1 == c0.port_max && p.0.2@ == c0.mount_point@
                && opt_string_equiv(p.0.3, c0.active_branch) && p.1 == pos + spec_emit_cfg_mid(
                c0,
            ).len()),
        r matches Some(p) ==> pos < p.1 <= v@.len(),
{
    let e11 = match expect_lit(v, pos, ",\"port_min\":") {
        Some(e) => e,
        None => {
            proof {
                assert forall|c0: Config|
                    #![trigger spec_emit_cfg_mid(c0)]
                    matches_at(v@, spec_emit_cfg_mid(c0), pos as int) implies false by {
                    lemma_mid_readback(c0, v@, pos as int);
                }
            }
            return None;
        },
    };
    let (port_min, e12) = match parse_u16_at(v, e11) {
        Some(p) => p,
        None => {
            proof {
                assert forall|c0: Config|
                    #![trigger spec_emit_cfg_mid(c0)]
                    matches_at(v@, spec_emit_cfg_mid(c0), pos as int) implies false by {
                    lemma_mid_readback(c0, v@, pos as int);
                }
            }
            return None;
        },
    };
    let e13 = match expect_lit(v, e12, ",\"port_max\":") {
        Some(e) => e,
        None => {
            proof {
                assert forall|c0: Config|
                    #![trigger spec_emit_cfg_mid(c0)]
                    matches_at(v@, spec_emit_cfg_mid(c0), pos as int) implies false by {
                    lemma_mid_readback(c0, v@, pos as int);
                }
            }
            return None;
        },
    };
    let (port_max, e14) = match parse_u16_at(v, e13) {
        Some(p) => p,
        None => {
            proof {
                assert forall|c0: Config|
                    #![trigger spec_emit_cfg_mid(c0)]
                    matches_at(v@, spec_emit_cfg_mid(c0), pos as int) implies false by {
                    lemma_mid_readback(c0, v@, pos as int);
                }
            }
            return None;
        },
    };
    let e15 = match expect_lit(v, e14, ",\"mount_point\":") {
        Some(e) => e,
        None => {
            proof {
                assert forall|c0: Config|
                    #![trigger spec_emit_cfg_mid(c0)]
                    matches_at(v@, spec_emit_cfg_mid(c0), pos as int) implies false by {
                    lemma_mid_readback(c0, v@, pos as int);
                }
            }
            return None;
        },
    };
    let (mount_point, e16) = match parse_string_at(v, e15) {
        Some(p) => p,
        None => {
            proof {
                assert forall|c0: Config|
                    #![trigger spec_emit_cfg_mid(c0)]
                    matches_at(v@, spec_emit_cfg_mid(c0), pos as int) implies false by {
                    lemma_mid_readback(c0, v@, pos as int);
                }
            }
            return None;
        },
    };
    let e17 = match expect_lit(v, e16, ",\"active_branch\":") {
        Some(e) => e,
        None => {
            proof {
                assert forall|c0: Config|
                    #![trigger spec_emit_cfg_mid(c0)]
                    matches_at(v@, spec_emit_cfg_mid(c0), pos as int) implies false by {
                    lemma_mid_readback(c0, v@, pos as int);
                }
            }
            return None;
        },
    };
    let (active_branch, e18) = match parse_opt_string_at(v, e17) {
        Some(p) => p,
        None => {
            proof {
                assert forall|c0: Config|
                    #![trigger spec_emit_cfg_mid(c0)]
                    matches_at(v@, spec_emit_cfg_mid(c0), pos as int) implies false by {
                    lemma_mid_readback(c0, v@, pos as int);
                }
            }
            return None;
        },
    };
    proof {
        assert forall|c0: Config|
            #![trigger spec_emit_cfg_mid(c0)]
            matches_at(v@, spec_emit_cfg_mid(c0), pos as int) implies (port_min == c0.port_min
            && port_max == c0.port_max && mount_point@ == c0.mount_point@ && opt_string_equiv(
            active_branch,
            c0.active_branch,
        ) && e18 == pos + spec_emit_cfg_mid(c0).len()) by {
            lemma_mid_readback(c0, v@, pos as int);
        }
    }
    Some(((port_min, port_max, mount_point, active_branch), e18))
}

/// Read the document's closing run.
#[verifier::rlimit(100)]
fn parse_cfg_back(v: &Vec<char>, pos: usize) -> (r: Option<
    ((Option<PostgresConfig>, Vec<Branch>), usize),
>)
    requires
        pos <= v@.len(),
    ensures
        forall|c0: Config|
            #![trigger spec_emit_cfg_back(c0)]
            c0.branches@.len() >= 1 && (forall|i: int|
                0 <= i < c0.branches@.len() ==> (#[trigger] c0.branches@[i]).created_at.valid())
                && matches_at(v@, spec_emit_cfg_back(c0), pos as int) ==> (r matches Some(p)
                && opt_pg_equiv(p.0.0, c0.postgres_config) && branches_equiv(
                p.0.1@,
                c0.branches@,
            ) && p.1 == pos + spec_emit_cfg_back(c0).len()),
        r matches Some(p) ==> pos < p.1 <= v@.len(),
{
    let e19 = match expect_lit(v, pos, ",\"postgres_config\":") {
        Some(e) => e,
        None => {
            proof {
                assert forall|c0: Config|
                    #![trigger spec_emit_cfg_back(c0)]
                    c0.branches@.len() >= 1 && (forall|i: int|
                        0 <= i < c0.branches@.len() ==> (
                        #[trigger] c0.branches@[i]).created_at.valid()) && matches_at(
                        v@,
                        spec_emit_cfg_back(c0),
                        pos as int,
                    ) implies false by {
                    lemma_back_readback(c0, v@, pos as int);
                }
            }
            return None;
        },
    };
    let (postgres_config, e20) = match parse_opt_pg_at(v, e19) {
        Some(p) => p,
        None => {
            proof {
                assert forall|c0: Config|
                    #![trigger spec_emit_cfg_back(c0)]
                    c0.branches@.len() >= 1 && (forall|i: int|
                        0 <= i < c0.branches@.len() ==> (
                        #[trigger] c0.branches@[i]).created_at.valid()) && matches_at(
                        v@,
                        spec_emit_cfg_back(c0),
                        pos as int,
                    ) implies false by {
                    lemma_back_readback(c0, v@, pos as int);
                }
            }
            return None;
        },
    };
    let e21 = match expect_lit(v, e20, ",\"branches\":[") {
        Some(e) => e,
        None => {
            proof {
                assert forall|c0: Config|
                    #![trigger spec_emit_cfg_back(c0)]
                    c0.branches@.len() >= 1 && (forall|i: int|
                        0 <= i < c0.branches@.len() ==> (
                        #[trigger] c0.branches@[i]).created_at.valid()) && matches_at(
                        v@,
                        spec_emit_cfg_back(c0),
                        pos as int,
                    ) implies false by {
                    lemma_back_readback(c0, v@, pos as int);
                }
            }
            return None;
        },
    };
    let (branches, e22) = match parse_branch_tail(v, e21) {
        Some(p) => p,
        None => {
            proof {
                assert forall|c0: Config|
                    #![trigger spec_emit_cfg_back(c0)]
                    c0.branches@.len() >= 1 && (forall|i: int|
                        0 <= i < c0.branches@.len() ==> (
                        #[trigger] c0.branches@[i]).created_at.valid()) && matches_at(
                        v@,
                        spec_emit_cfg_back(c0),
                        pos as int,
                    ) implies false by {
                    lemma_back_readback(c0, v@, pos as int);
                }
            }
            return None;
        },
    };
    let e23 = match expect_lit(v, e22, "}") {
        Some(e) => e,
        None => {
            proof {
                assert forall|c0: Config|
                    #![trigger spec_emit_cfg_back(c0)]
                    c0.branches@.len() >= 1 && (forall|i: int|
                        0 <= i < c0.branches@.len() ==> (
                        #[trigger] c0.branches@[i]).created_at.valid()) && matches_at(
                        v@,
                        spec_emit_cfg_back(c0),
                        pos as int,
                    ) implies false by {
                    lemma_back_readback(c0, v@, pos as int);
                    reveal_strlit("}");
                    assert("}"@ =~= seq!['}']);
                }
            }
            return None;
        },
    };
    proof {
        assert forall|c0: Config|
            #![trigger spec_emit_cfg_back(c0)]
            c0.branches@.len() >= 1 && (forall|i: int|
                0 <= i < c0.branches@.len() ==> (#[trigger] c0.branches@[i]).created_at.valid())
                && matches_at(v@, spec_emit_cfg_back(c0), pos as int) implies (opt_pg_equiv(
            postgres_config,
            c0.postgres_config,
        ) && branches_equiv(branches@, c0.branches@) && e23 == pos + spec_emit_cfg_back(
            c0,
        ).len()) by {
            lemma_back_readback(c0, v@, pos as int);
            reveal_strlit("}");
            assert("}"@ =~= seq!['}']);
        }
    }
    Some(((postgres_config, branches), e23))
}

/// Read a whole document, as the writer lays it out.
#[verifier::rlimit(100)]
fn parse_config_at(v: &Vec<char>, pos: usize) -> (r: Option<(Config, usize)>)
    requires
        pos <= v@.len(),
    ensures
        forall|c0: Config|
            #![trigger spec_emit_config(c0)]
            stamps_valid(c0) && c0.branches@.len() >= 1 && matches_at(
                v@,
                spec_emit_config(c0),
                pos as int,
            ) ==> (r matches Some(p) && config_equiv(p.0, c0) && p.1 == pos + spec_emit_config(
                c0,
            ).len()),
        r matches Some(p) ==> pos < p.1 <= v@.len(),
{
    let (front, e1) = match parse_cfg_front(v, pos) {
        Some(p) => p,
        None => {
            proof {
                assert forall|c0: Config|
                    #![trigger spec_emit_config(c0)]
                    stamps_valid(c0) && c0.branches@.len() >= 1 && matches_at(
                        v@,
                        spec_emit_config(c0),
                        pos as int,
                    ) implies false by {
                    lemma_config_parts(c0, v@, pos as int);
                }
            }
            return None;
        },
    };
    let (mid, e2) = match parse_cfg_mid(v, e1) {
        Some(p) => p,
        None => {
            proof {
                assert forall|c0: Config|
                    #![trigger spec_emit_config(c0)]
                    stamps_valid(c0) && c0.branches@.len() >= 1 && matches_at(
                        v@,
                        spec_emit_config(c0),
                        pos as int,
                    ) implies false by {
                    lemma_config_parts(c0, v@, pos as int);
                }
            }
            return None;
        },
    };
    let (back, e3) = match parse_cfg_back(v, e2) {
        Some(p) => p,
        None => {
            proof {
                assert forall|c0: Config|
                    #![trigger spec_emit_config(c0)]
                    stamps_valid(c0) && c0.branches@.len() >= 1 && matches_at(
                        v@,
                        spec_emit_config(c0),
                        pos as int,
                    ) implies false by {
                    lemma_config_parts(c0, v@, pos as int);
                }
            }
            return None;
        },
    };
    let (name, api_port, proxy_port, created_at, approach) = front;
    let (port_min, port_max, mount_point, active_branch) = mid;
    let (postgres_config, branches) = back;
    let config = Config {
        name,
        api_port,
        proxy_port,
        created_at,
        approach,
        port_min,
        port_max,
        mount_point,
        active_branch,
        postgres_config,
        branches,
    };
    proof {
        assert forall|c0: Config|
            #![trigger spec_emit_config(c0)]
            stamps_valid(c0) && c0.branches@.len() >= 1 && matches_at(
                v@,
                spec_emit_config(c0),
                pos as int,
            ) implies (config_equiv(config, c0) && e3 == pos + spec_emit_config(c0).len()) by {
            lemma_config_parts(c0, v@, pos as int);
        }
    }
    Some((config, e3))
}

/// Load a document from its text.  Reading back what `to_json` wrote
/// yields the written values; anything else the reader does not accept is
/// reported as a parse failure.
pub fn from_json(text: &str) -> (r: Result<Config, AppError>)
    ensures
        forall|c0: Config|
            #![trigger spec_emit_config(c0)]
            stamps_valid(c0) && c0.branches@.len() >= 1 && text@ == spec_emit_config(c0) ==> (
            r matches Ok(c) && config_equiv(c, c0)),
        r matches Err(e) ==> e is ConfigParsing,
{
    let v = chars_of(text);
    proof {
        assert forall|c0: Config|
            stamps_valid(c0) && c0.branches@.len() >= 1 && text@ == spec_emit_config(
                c0,
            ) implies matches_at(
            v@,
            spec_emit_config(c0),
            0,
        ) by {
            assert(v@.subrange(0, spec_emit_config(c0).len() as int) =~= v@);
        }
    }
    match parse_config_at(&v, 0) {
        Some(p) => {
            if p.1 == v.len() {
                Ok(p.0)
            } else {
                Err(
                    AppError::ConfigParsing {
                        message: String::from_str("unread text after the document"),
                    },
                )
            }
        },
        None => Err(
            AppError::ConfigParsing { message: String::from_str("malformed document") },
        ),
    }
}

/// Branch lists that agree value for value have the same text form.
proof fn lemma_equiv_emit_list(a: Seq<Branch>, b: Seq<Branch>)
    requires
        branches_equiv(a, b),
    ensures
        spec_emit_branch_list(a) == spec_emit_branch_list(b),
    decreases a.len(),
{
    if a.len() > 0 {
        assert(branch_equiv(a[0], b[0]));
        assert(spec_emit_branch(a[0]) == spec_emit_branch(b[0]));
        if a.len() > 1 {
            assert forall|i: int| 0 <= i < a.drop_first().len() implies branch_equiv(
                #[trigger] a.drop_first()[i],
                b.drop_first()[i],
            ) by {
                assert(a.drop_first()[i] == a[i + 1]);
                assert(b.drop_first()[i] == b[i + 1]);
            }
            lemma_equiv_emit_list(a.drop_first(), b.drop_first());
        }
    }
}

/// Saving, loading and saving again yields byte-identical text: two
/// documents that agree on every stored value — as a loaded document
/// agrees with the saved one — have the same text form.
pub proof fn lemma_save_load_save(c: Config, c2: Config)
    requires
        config_equiv(c2, c),
    ensures
        spec_emit_config(c2) == spec_emit_config(c),
{
    lemma_equiv_emit_list(c2.branches@, c.branches@);
    match (c2.active_branch, c.active_branch) {
        (Option::Some(x), Option::Some(y)) => {
            assert(spec_emit_opt_string(c2.active_branch) == spec_emit_opt_string(c.active_branch));
        },
        _ => {},
    }
    match (c2.postgres_config, c.postgres_config) {
        (Option::Some(x), Option::Some(y)) => {
            match (x.database, y.database) {
                (Option::Some(dx), Option::Some(dy)) => {
                    assert(spec_emit_opt_string(x.database) == spec_emit_opt_string(y.database));
                },
                _ => {},
            }
            assert(spec_emit_opt_pg(c2.postgres_config) == spec_emit_opt_pg(c.postgres_config));
        },
        _ => {},
    }
}

} // verus!
