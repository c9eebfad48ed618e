//! The usage file: one `id|{"count":N,"last_used":T,"first_used":T}` line
//! per action (times in RFC 3339), most used first, after two comment lines.
use vstd::prelude::*;
use crate::text::{
    chars_of, dec_digit, dec_of, has_prefix, is_space, push_decimal, string_of, string_of_range,
    trim, trim_chars, trim_end, trim_start,
};
use crate::usage::{entry_of, unique_keys, with_entry, UsageEntry, UsageService, UsageTable};

verus! {

/// 0000-01-01T00:00:00Z, the first second with a four-digit year.
pub const EARLIEST_STORED_TIME: i64 = -62167219200;

/// 9999-12-31T23:59:59Z, the last second with a four-digit year.
pub const LATEST_STORED_TIME: i64 = 253402300799;

/// A time that the file writes with a four-digit year.
pub open spec fn storable_time(t: i64) -> bool {
    EARLIEST_STORED_TIME <= t <= LATEST_STORED_TIME
}

/// What chrono's `to_rfc3339` writes for a second since the epoch.
pub uninterp spec fn rfc3339_of(secs: i64) -> Seq<char>;

/// What chrono's `parse_from_rfc3339` reads from a text, as seconds since
/// the epoch.
pub uninterp spec fn time_read_of(text: Seq<char>) -> Option<i64>;

/// JSON's white space.
pub open spec fn is_json_ws(c: char) -> bool {
    c == ' ' || c == '\t' || c == '\n' || c == '\r'
}

/// `s` holds no double quote and no white space.
pub open spec fn plain_text(s: Seq<char>) -> bool {
    forall|i: int| 0 <= i < s.len() ==> s[i] != '"' && !is_json_ws(s[i])
}

/// `s` holds no white space.
pub open spec fn ws_free(s: Seq<char>) -> bool {
    forall|i: int| 0 <= i < s.len() ==> !is_json_ws(s[i])
}

/// JSON text without the white space between its tokens: white space
/// outside double-quoted strings is dropped; `in_string` says whether the
/// text starts inside a string.
pub open spec fn compact(s: Seq<char>, in_string: bool) -> Seq<char>
    decreases s.len(),
{
    if s.len() == 0 {
        s
    } else if in_string {
        seq![s[0]] + compact(s.drop_first(), s[0] != '"')
    } else if is_json_ws(s[0]) {
        compact(s.drop_first(), false)
    } else {
        seq![s[0]] + compact(s.drop_first(), s[0] == '"')
    }
}

proof fn lemma_compact_ws_free(s: Seq<char>, in_string: bool)
    requires
        ws_free(s),
    ensures
        compact(s, in_string) == s,
    decreases s.len(),
{
    if s.len() > 0 {
        let t = s.drop_first();
        assert(ws_free(t)) by {
            assert forall|i: int| 0 <= i < t.len() implies !is_json_ws(t[i]) by {
                assert(t[i] == s[i + 1]);
            }
        }
        assert(!is_json_ws(s[0]));
        lemma_compact_ws_free(t, s[0] != '"');
        lemma_compact_ws_free(t, s[0] == '"');
        assert(seq![s[0]] + t =~= s);
    }
}

proof fn lemma_entry_json_ws_free(e: UsageEntry)
    requires
        plain_text(rfc3339_of(e.last_used)),
        plain_text(rfc3339_of(e.first_used)),
    ensures
        ws_free(entry_json(e)),
{
    lemma_dec_digits(e.count as nat);
    let d = dec_of(e.count as nat);
    let parts = seq![
        count_key(), d, last_used_key(), rfc3339_of(e.last_used), first_used_key(),
        rfc3339_of(e.first_used), closing(),
    ];
    assert forall|k: int| 0 <= k < parts.len() implies ws_free(#[trigger] parts[k]) by {
        if k == 1 {
            assert forall|i: int| 0 <= i < d.len() implies !is_json_ws(d[i]) by {
                assert(is_digit(d[i]));
            }
        }
    }
    assert(entry_json(e) =~= parts[0] + parts[1] + parts[2] + parts[3] + parts[4] + parts[5]
        + parts[6]);
    lemma_concat_ws_free(parts[0], parts[1]);
    lemma_concat_ws_free(parts[0] + parts[1], parts[2]);
    lemma_concat_ws_free(parts[0] + parts[1] + parts[2], parts[3]);
    lemma_concat_ws_free(parts[0] + parts[1] + parts[2] + parts[3], parts[4]);
    lemma_concat_ws_free(parts[0] + parts[1] + parts[2] + parts[3] + parts[4], parts[5]);
    lemma_concat_ws_free(parts[0] + parts[1] + parts[2] + parts[3] + parts[4] + parts[5], parts[6]);
}

proof fn lemma_concat_ws_free(a: Seq<char>, b: Seq<char>)
    requires
        ws_free(a),
        ws_free(b),
    ensures
        ws_free(a + b),
{
    assert forall|i: int| 0 <= i < (a + b).len() implies !is_json_ws((a + b)[i]) by {
        if i < a.len() {
            assert((a + b)[i] == a[i]);
        } else {
            assert((a + b)[i] == b[i - a.len()]);
        }
    }
}

/// Drops the white space between the JSON tokens of `v[from..]`.
fn compact_exec(v: &Vec<char>, from: usize) -> (r: Vec<char>)
    requires
        from <= v@.len(),
    ensures
        r@ == compact(v@.subrange(from as int, v@.len() as int), false),
{
    let n = v.len();
    let mut out: Vec<char> = Vec::new();
    let mut in_string = false;
    let mut i = from;
    assert(out@ + compact(v@.subrange(i as int, n as int), in_string) =~= compact(
        v@.subrange(from as int, n as int),
        false,
    ));
    while i < n
        invariant
            from <= i <= n == v@.len(),
            out@ + compact(v@.subrange(i as int, n as int), in_string) == compact(
                v@.subrange(from as int, n as int),
                false,
            ),
        decreases n - i,
    {
        let c = v[i];
        let ghost rest = v@.subrange(i as int, n as int);
        let ghost before = out@;
        assert(rest.drop_first() =~= v@.subrange(i + 1, n as int));
        assert(rest[0] == c);
        if in_string {
            out.push(c);
            in_string = c != '"';
            assert(before + (seq![c] + compact(rest.drop_first(), in_string)) =~= out@ + compact(
                rest.drop_first(),
                in_string,
            ));
        } else if c == ' ' || c == '\t' || c == '\n' || c == '\r' {
        } else {
            out.push(c);
            in_string = c == '"';
            assert(before + (seq![c] + compact(rest.drop_first(), in_string)) =~= out@ + compact(
                rest.drop_first(),
                in_string,
            ));
        }
        i = i + 1;
    }
    assert(out@ + Seq::<char>::empty() =~= out@);
    out
}

/// `s` holds no line break.
pub open spec fn line_free(s: Seq<char>) -> bool {
    forall|i: int| 0 <= i < s.len() ==> s[i] != '\n'
}

/// Relies on `DateTime::<Utc>::from_timestamp` (every second of the years 0
/// to 9999 is in range) and `DateTime::to_rfc3339` (digits, dashes, `T`,
/// colons and the offset: no quote or white space; it reads back as the
/// same second).
#[verifier::external_body]
fn format_time(secs: i64) -> (r: Option<String>)
    ensures
        r is None ==> !storable_time(secs),
        r matches Some(s) ==> s@ == rfc3339_of(secs),
        r matches Some(s) ==> plain_text(s@),
        r matches Some(s) ==> (storable_time(secs) ==> time_read_of(s@) == Some(secs)),
{
    match chrono::DateTime::from_timestamp(secs, 0) {
        Some(d) => Some(d.to_rfc3339()),
        None => None,
    }
}

/// Relies on `DateTime::parse_from_rfc3339` and `DateTime::timestamp`.
#[verifier::external_body]
fn read_time(text: &str) -> (r: Option<i64>)
    ensures
        r == time_read_of(text@),
{
    match chrono::DateTime::parse_from_rfc3339(text) {
        Ok(d) => Some(d.timestamp()),
        Err(_) => None,
    }
}

pub open spec fn is_digit(c: char) -> bool {
    '0' <= c && c <= '9'
}

pub open spec fn digit_value(c: char) -> nat {
    (c as u32 - '0' as u32) as nat
}

/// The number of decimal digits at the start of `s`.
pub open spec fn leading_digits(s: Seq<char>) -> nat
    decreases s.len(),
{
    if s.len() > 0 && is_digit(s[0]) {
        1 + leading_digits(s.drop_first())
    } else {
        0
    }
}

/// The number that a sequence of decimal digits writes.
pub open spec fn digits_value(s: Seq<char>) -> nat
    decreases s.len(),
{
    if s.len() == 0 {
        0
    } else {
        digits_value(s.drop_last()) * 10 + digit_value(s.last())
    }
}

/// Where the first `c` of `s` stands, or -1.
pub open spec fn position_of(s: Seq<char>, c: char) -> int
    decreases s.len(),
{
    if s.len() == 0 {
        -1
    } else if s[0] == c {
        0
    } else {
        let r = position_of(s.drop_first(), c);
        if r < 0 {
            -1
        } else {
            r + 1
        }
    }
}

pub open spec fn count_key() -> Seq<char> {
    seq!['{', '"', 'c', 'o', 'u', 'n', 't', '"', ':']
}

pub open spec fn last_used_key() -> Seq<char> {
    seq![',', '"', 'l', 'a', 's', 't', '_', 'u', 's', 'e', 'd', '"', ':', '"']
}

pub open spec fn first_used_key() -> Seq<char> {
    seq!['"', ',', '"', 'f', 'i', 'r', 's', 't', '_', 'u', 's', 'e', 'd', '"', ':', '"']
}

pub open spec fn closing() -> Seq<char> {
    seq!['"', '}']
}

/// The JSON text of an entry.
pub open spec fn entry_json(e: UsageEntry) -> Seq<char> {
    count_key() + dec_of(e.count as nat) + last_used_key() + rfc3339_of(e.last_used)
        + first_used_key() + rfc3339_of(e.first_used) + closing()
}

/// The line of an action.
pub open spec fn usage_line_text(id: Seq<char>, e: UsageEntry) -> Seq<char> {
    id + seq!['|'] + entry_json(e)
}

/// The two times of an entry, each up to its closing quote.
pub open spec fn read_times(rest: Seq<char>, count: u32) -> Option<UsageEntry> {
    let q1 = position_of(rest, '"');
    if q1 < 0 {
        None
    } else {
        let t1 = rest.subrange(0, q1);
        let rest2 = rest.subrange(q1, rest.len() as int);
        if !has_prefix(rest2, first_used_key()) {
            None
        } else {
            let rest3 = rest2.subrange(first_used_key().len() as int, rest2.len() as int);
            let q2 = position_of(rest3, '"');
            if q2 < 0 || rest3.subrange(q2, rest3.len() as int) != closing() {
                None
            } else {
                match (time_read_of(t1), time_read_of(rest3.subrange(0, q2))) {
                    (Some(a), Some(b)) => Some(UsageEntry { count, last_used: a, first_used: b }),
                    _ => None,
                }
            }
        }
    }
}

/// The entry a JSON text holds, in the form the file is written in: the
/// count (one to ten digits, at most `u32::MAX`), then the two times.
pub open spec fn read_entry(json: Seq<char>) -> Option<UsageEntry> {
    if !has_prefix(json, count_key()) {
        None
    } else {
        let rest = json.subrange(count_key().len() as int, json.len() as int);
        let nd = leading_digits(rest);
        if nd == 0 || nd > 10 || digits_value(rest.subrange(0, nd as int)) > u32::MAX {
            None
        } else {
            let rest2 = rest.subrange(nd as int, rest.len() as int);
            if !has_prefix(rest2, last_used_key()) {
                None
            } else {
                read_times(
                    rest2.subrange(last_used_key().len() as int, rest2.len() as int),
                    digits_value(rest.subrange(0, nd as int)) as u32,
                )
            }
        }
    }
}

/// The action and entry of one line of the file: none for blank lines,
/// comments, and lines that do not read.
pub open spec fn read_line(raw: Seq<char>) -> Option<(Seq<char>, UsageEntry)> {
    let line = trim(raw);
    if line.len() == 0 || line[0] == '#' {
        None
    } else {
        let k = position_of(line, '|');
        if k < 0 {
            None
        } else {
            match read_entry(compact(line.subrange(k + 1, line.len() as int), false)) {
                Some(e) => Some((line.subrange(0, k), e)),
                None => None,
            }
        }
    }
}

/// An id that a line keeps apart from the rest: no `|` or line break in
/// it, and no white space or `#` at its start.
pub open spec fn line_safe(id: Seq<char>) -> bool {
    &&& forall|i: int| 0 <= i < id.len() ==> id[i] != '|' && id[i] != '\n'
    &&& id.len() > 0 ==> !is_space(id[0]) && id[0] != '#'
}

proof fn lemma_dec_digits(n: nat)
    ensures
        dec_of(n).len() >= 1,
        forall|i: int| 0 <= i < dec_of(n).len() ==> is_digit(#[trigger] dec_of(n)[i]),
        digits_value(dec_of(n)) == n,
        n < 10_000_000_000 ==> dec_of(n).len() <= 10,
    decreases n,
{
    lemma_digit_value(n % 10);
    if n >= 10 {
        lemma_dec_digits(n / 10);
        let d = dec_of(n / 10);
        assert(dec_of(n) == d.push(dec_digit(n % 10)));
        assert(dec_of(n).drop_last() =~= d);
        assert forall|i: int| 0 <= i < dec_of(n).len() implies is_digit(#[trigger] dec_of(n)[i]) by {
            if i < d.len() {
                assert(dec_of(n)[i] == d[i]);
            }
        }
        assert(dec_of(n).last() == dec_digit(n % 10));
        assert(digits_value(dec_of(n)) == digits_value(dec_of(n).drop_last()) * 10 + digit_value(
            dec_of(n).last(),
        ));
        assert(n == (n / 10) * 10 + n % 10);
        if n < 10_000_000_000 {
            lemma_pow10_ten();
            lemma_dec_len_bound(n / 10, 9);
        }
    } else {
        assert(dec_of(n).drop_last() =~= Seq::<char>::empty());
        assert(dec_of(n).last() == dec_digit(n));
        assert(digits_value(dec_of(n)) == digits_value(dec_of(n).drop_last()) * 10 + digit_value(
            dec_of(n).last(),
        ));
        assert(digits_value(Seq::<char>::empty()) == 0);
    }
}

proof fn lemma_dec_len_bound(n: nat, k: nat)
    requires
        k >= 1,
        n < pow10(k),
    ensures
        dec_of(n).len() <= k,
    decreases n,
{
    if n >= 10 {
        assert(k >= 2) by {
            if k == 1 {
                assert(pow10(1) == 10 * pow10(0));
            }
        }
        assert(pow10(k) == 10 * pow10((k - 1) as nat));
        assert(n / 10 < pow10((k - 1) as nat)) by (nonlinear_arith)
            requires
                n < pow10(k),
                pow10(k) == 10 * pow10((k - 1) as nat),
        ;
        lemma_dec_len_bound(n / 10, (k - 1) as nat);
    }
}

pub open spec fn pow10(k: nat) -> nat
    decreases k,
{
    if k == 0 {
        1
    } else {
        10 * pow10((k - 1) as nat)
    }
}

proof fn lemma_leading_digits(a: Seq<char>, b: Seq<char>)
    requires
        forall|i: int| 0 <= i < a.len() ==> is_digit(a[i]),
        b.len() > 0 ==> !is_digit(b[0]),
    ensures
        leading_digits(a + b) == a.len(),
    decreases a.len(),
{
    if a.len() > 0 {
        assert((a + b).drop_first() =~= a.drop_first() + b);
        lemma_leading_digits(a.drop_first(), b);
    } else {
        assert(a + b =~= b);
    }
}

proof fn lemma_position(a: Seq<char>, b: Seq<char>, c: char)
    requires
        forall|i: int| 0 <= i < a.len() ==> a[i] != c,
        b.len() > 0,
        b[0] == c,
    ensures
        position_of(a + b, c) == a.len(),
    decreases a.len(),
{
    if a.len() > 0 {
        assert((a + b).drop_first() =~= a.drop_first() + b);
        lemma_position(a.drop_first(), b, c);
    } else {
        assert(a + b =~= b);
    }
}

proof fn lemma_times_round_trip(t1: Seq<char>, t2: Seq<char>, count: u32, a: i64, b: i64)
    requires
        plain_text(t1),
        plain_text(t2),
        time_read_of(t1) == Some(a),
        time_read_of(t2) == Some(b),
    ensures
        read_times(t1 + first_used_key() + t2 + closing(), count) == Some(
            UsageEntry { count, last_used: a, first_used: b },
        ),
{
    let rest3 = t1 + first_used_key() + t2 + closing();
    let after1 = first_used_key() + t2 + closing();
    assert(rest3 =~= t1 + after1);
    lemma_position(t1, after1, '"');
    assert(rest3.subrange(0, t1.len() as int) =~= t1);
    let rest4 = rest3.subrange(t1.len() as int, rest3.len() as int);
    assert(rest4 =~= after1);
    assert(rest4.subrange(0, first_used_key().len() as int) =~= first_used_key());
    let rest5 = rest4.subrange(first_used_key().len() as int, rest4.len() as int);
    assert(rest5 =~= t2 + closing());
    lemma_position(t2, closing(), '"');
    assert(rest5.subrange(0, t2.len() as int) =~= t2);
    assert(rest5.subrange(t2.len() as int, rest5.len() as int) =~= closing());
}

proof fn lemma_entry_round_trip(e: UsageEntry)
    requires
        plain_text(rfc3339_of(e.last_used)),
        plain_text(rfc3339_of(e.first_used)),
        time_read_of(rfc3339_of(e.last_used)) == Some(e.last_used),
        time_read_of(rfc3339_of(e.first_used)) == Some(e.first_used),
    ensures
        read_entry(entry_json(e)) == Some(e),
{
    let json = entry_json(e);
    let t1 = rfc3339_of(e.last_used);
    let t2 = rfc3339_of(e.first_used);
    let d = dec_of(e.count as nat);
    lemma_dec_digits(e.count as nat);
    let rest = json.subrange(count_key().len() as int, json.len() as int);
    let after = last_used_key() + t1 + first_used_key() + t2 + closing();
    assert(json =~= count_key() + (d + after));
    assert(json.subrange(0, count_key().len() as int) =~= count_key());
    assert(rest =~= d + after);
    lemma_leading_digits(d, after);
    assert(rest.subrange(0, d.len() as int) =~= d);
    let rest2 = rest.subrange(d.len() as int, rest.len() as int);
    assert(rest2 =~= after);
    assert(rest2.subrange(0, last_used_key().len() as int) =~= last_used_key());
    let rest3 = rest2.subrange(last_used_key().len() as int, rest2.len() as int);
    assert(rest3 =~= t1 + first_used_key() + t2 + closing());
    lemma_times_round_trip(t1, t2, e.count, e.last_used, e.first_used);
}

/// A line read back gives the action and entry it was written from.
pub proof fn lemma_line_round_trip(id: Seq<char>, e: UsageEntry)
    requires
        line_safe(id),
        plain_text(rfc3339_of(e.last_used)),
        plain_text(rfc3339_of(e.first_used)),
        time_read_of(rfc3339_of(e.last_used)) == Some(e.last_used),
        time_read_of(rfc3339_of(e.first_used)) == Some(e.first_used),
    ensures
        read_line(usage_line_text(id, e)) == Some((id, e)),
{
    let line = usage_line_text(id, e);
    let json = entry_json(e);
    assert(line.len() > 0 && !is_space(line[0]) && line[0] != '#') by {
        if id.len() > 0 {
            assert(line[0] == id[0]);
        } else {
            assert(line[0] == '|');
        }
    }
    assert(trim_start(line) == line);
    assert(line.last() == '}');
    assert(trim_end(line) == line);
    assert(line =~= id + (seq!['|'] + json));
    lemma_position(id, seq!['|'] + json, '|');
    assert(line.subrange(0, id.len() as int) =~= id);
    assert(line.subrange(id.len() as int + 1, line.len() as int) =~= json);
    lemma_entry_round_trip(e);
    lemma_entry_json_ws_free(e);
    lemma_compact_ws_free(json, false);
}

proof fn lemma_line_text_free(id: Seq<char>, e: UsageEntry)
    requires
        line_safe(id),
        plain_text(rfc3339_of(e.last_used)),
        plain_text(rfc3339_of(e.first_used)),
    ensures
        line_free(usage_line_text(id, e)),
{
    lemma_dec_digits(e.count as nat);
    let d = dec_of(e.count as nat);
    let t1 = rfc3339_of(e.last_used);
    let t2 = rfc3339_of(e.first_used);
    let parts = seq![
        id, seq!['|'], count_key(), d, last_used_key(), t1, first_used_key(), t2, closing(),
    ];
    assert forall|k: int| 0 <= k < parts.len() implies line_free(#[trigger] parts[k]) by {
        if k == 3 {
            assert forall|i: int| 0 <= i < d.len() implies d[i] != '\n' by {
                assert(is_digit(d[i]));
            }
        }
    }
    let line = usage_line_text(id, e);
    assert(line =~= parts[0] + parts[1] + parts[2] + parts[3] + parts[4] + parts[5] + parts[6]
        + parts[7] + parts[8]);
    lemma_concat_line_free(parts[0], parts[1]);
    lemma_concat_line_free(parts[0] + parts[1], parts[2]);
    lemma_concat_line_free(parts[0] + parts[1] + parts[2], parts[3]);
    lemma_concat_line_free(parts[0] + parts[1] + parts[2] + parts[3], parts[4]);
    lemma_concat_line_free(parts[0] + parts[1] + parts[2] + parts[3] + parts[4], parts[5]);
    lemma_concat_line_free(parts[0] + parts[1] + parts[2] + parts[3] + parts[4] + parts[5], parts[6]);
    lemma_concat_line_free(
        parts[0] + parts[1] + parts[2] + parts[3] + parts[4] + parts[5] + parts[6],
        parts[7],
    );
    lemma_concat_line_free(
        parts[0] + parts[1] + parts[2] + parts[3] + parts[4] + parts[5] + parts[6] + parts[7],
        parts[8],
    );
}

proof fn lemma_concat_line_free(a: Seq<char>, b: Seq<char>)
    requires
        line_free(a),
        line_free(b),
    ensures
        line_free(a + b),
{
    assert forall|i: int| 0 <= i < (a + b).len() implies (a + b)[i] != '\n' by {
        if i < a.len() {
            assert((a + b)[i] == a[i]);
        } else {
            assert((a + b)[i] == b[i - a.len()]);
        }
    }
}

/// The line of an action, where its times can be written.
pub fn usage_line(id: &str, e: UsageEntry) -> (r: Option<String>)
    ensures
        r matches Some(s) ==> s@ == usage_line_text(id@, e),
        storable_time(e.last_used) && storable_time(e.first_used) ==> r is Some,
        storable_time(e.last_used) && storable_time(e.first_used) && line_safe(id@) ==> (r matches Some(
            s,
        ) && read_line(s@) == Some((id@, e)) && line_free(s@)),
{
    let last = match format_time(e.last_used) {
        Some(t) => t,
        None => {
            return None;
        },
    };
    let first = match format_time(e.first_used) {
        Some(t) => t,
        None => {
            return None;
        },
    };
    let mut v: Vec<char> = chars_of(id);
    v.push('|');
    v.push('{');
    v.push('"');
    v.push('c');
    v.push('o');
    v.push('u');
    v.push('n');
    v.push('t');
    v.push('"');
    v.push(':');
    push_decimal(e.count as u64, &mut v);
    let mut w: Vec<char> = chars_of(",\"last_used\":\"");
    let mut x: Vec<char> = chars_of("\",\"first_used\":\"");
    proof {
        reveal_strlit(",\"last_used\":\"");
        reveal_strlit("\",\"first_used\":\"");
        assert(w@ =~= last_used_key());
        assert(x@ =~= first_used_key());
    }
    v.append(&mut w);
    let mut t1 = chars_of(last.as_str());
    v.append(&mut t1);
    v.append(&mut x);
    let mut t2 = chars_of(first.as_str());
    v.append(&mut t2);
    v.push('"');
    v.push('}');
    assert(v@ =~= usage_line_text(id@, e));
    proof {
        if storable_time(e.last_used) && storable_time(e.first_used) && line_safe(id@) {
            lemma_line_round_trip(id@, e);
            lemma_line_text_free(id@, e);
        }
    }
    Some(string_of(&v))
}

pub fn position_exec(s: &Vec<char>, from: usize, c: char) -> (r: Option<usize>)
    requires
        from <= s@.len(),
    ensures
        r matches Some(k) ==> from <= k < s@.len() && position_of(
            s@.subrange(from as int, s@.len() as int),
            c,
        ) == k - from,
        r is None ==> position_of(s@.subrange(from as int, s@.len() as int), c) < 0,
{
    let mut i = from;
    let ghost whole = s@.subrange(from as int, s@.len() as int);
    assert(s@.subrange(i as int, s@.len() as int) =~= whole);
    while i < s.len()
        invariant
            from <= i <= s@.len(),
            whole == s@.subrange(from as int, s@.len() as int),
            position_of(whole, c) == if position_of(s@.subrange(i as int, s@.len() as int), c) < 0 {
                -1
            } else {
                position_of(s@.subrange(i as int, s@.len() as int), c) + (i - from)
            },
        decreases s@.len() - i,
    {
        if s[i] == c {
            return Some(i);
        }
        assert(s@.subrange(i as int, s@.len() as int).drop_first() =~= s@.subrange(
            i + 1,
            s@.len() as int,
        ));
        i = i + 1;
    }
    None
}

fn digit_exec(c: char) -> (r: bool)
    ensures
        r == is_digit(c),
{
    '0' <= c && c <= '9'
}

/// Reads the count at `from`: its value and where it ends.
fn read_count(s: &Vec<char>, from: usize) -> (r: Option<(u32, usize)>)
    requires
        from <= s@.len(),
    ensures
        ({
            let rest = s@.subrange(from as int, s@.len() as int);
            let nd = leading_digits(rest);
            match r {
                Some((n, end)) => end <= s@.len() && nd != 0 && nd <= 10 && digits_value(rest.subrange(0, nd as int))
                    <= u32::MAX && n == digits_value(rest.subrange(0, nd as int)) && end == from
                    + nd,
                None => nd == 0 || nd > 10 || digits_value(rest.subrange(0, nd as int)) > u32::MAX,
            }
        }),
{
    let ghost rest = s@.subrange(from as int, s@.len() as int);
    let mut i = from;
    let mut value: u64 = 0;
    assert(s@.subrange(from as int, s@.len() as int) =~= rest);
    assert(rest.subrange(0, 0) =~= Seq::<char>::empty());
    while i < s.len() && i - from < 10 && digit_exec(s[i])
        invariant
            from <= i <= s@.len(),
            i - from <= 10,
            rest == s@.subrange(from as int, s@.len() as int),
            leading_digits(rest) == (i - from) + leading_digits(s@.subrange(i as int, s@.len() as int)),
            value == digits_value(rest.subrange(0, i - from)),
            value < pow10((i - from) as nat),
            forall|j: int| 0 <= j < i - from ==> is_digit(rest[j]),
        decreases s@.len() - i,
    {
        assert(s@.subrange(i as int, s@.len() as int).drop_first() =~= s@.subrange(
            i + 1,
            s@.len() as int,
        ));
        let d = (s[i] as u32 - '0' as u32) as u64;
        assert(rest.subrange(0, i + 1 - from).drop_last() =~= rest.subrange(0, i - from));
        assert(pow10((i + 1 - from) as nat) == 10 * pow10((i - from) as nat));
        assert(pow10((i - from) as nat) <= 10_000_000_000) by {
            lemma_pow10_ten();
            lemma_pow10_monotone((i - from) as nat, 10);
        }
        assert(value * 10 + d < pow10((i + 1 - from) as nat)) by (nonlinear_arith)
            requires
                value < pow10((i - from) as nat),
                d < 10,
                pow10((i + 1 - from) as nat) == 10 * pow10((i - from) as nat),
        ;
        value = value * 10 + d;
        i = i + 1;
    }
    let nd = i - from;
    if i < s.len() && digit_exec(s[i]) {
        // an eleventh digit
        assert(leading_digits(s@.subrange(i as int, s@.len() as int)) >= 1);
        return None;
    }
    proof {
        if i < s@.len() {
            assert(leading_digits(s@.subrange(i as int, s@.len() as int)) == 0);
        }
        assert(leading_digits(rest) == nd);
    }
    if nd == 0 || value > u32::MAX as u64 {
        return None;
    }
    Some((value as u32, i))
}

proof fn lemma_pow10_monotone(j: nat, k: nat)
    requires
        j <= k,
    ensures
        1 <= pow10(j) <= pow10(k),
    decreases k,
{
    if k > 0 {
        if j < k {
            lemma_pow10_monotone(j, (k - 1) as nat);
        } else {
            lemma_pow10_monotone((k - 1) as nat, (k - 1) as nat);
        }
        assert(pow10(k) == 10 * pow10((k - 1) as nat));
    }
}

proof fn lemma_pow10_ten()
    ensures
        pow10(9) == 1_000_000_000,
        pow10(10) == 10_000_000_000,
{
    reveal_with_fuel(pow10, 11);
}

proof fn lemma_digit_value(d: nat)
    requires
        d < 10,
    ensures
        digit_value(dec_digit(d)) == d,
        is_digit(dec_digit(d)),
{
    assert(digit_value('0') == 0);
    assert(digit_value('1') == 1);
    assert(digit_value('2') == 2);
    assert(digit_value('3') == 3);
    assert(digit_value('4') == 4);
    assert(digit_value('5') == 5);
    assert(digit_value('6') == 6);
    assert(digit_value('7') == 7);
    assert(digit_value('8') == 8);
    assert(digit_value('9') == 9);
}

fn literal_chars(s: &str) -> (r: Vec<char>)
    ensures
        r@ == s@,
{
    chars_of(s)
}

/// Reads the entry in `v[from..]`.
#[verifier::rlimit(40)]
fn parse_entry(v: &Vec<char>, from: usize) -> (r: Option<UsageEntry>)
    requires
        from <= v@.len(),
    ensures
        r == read_entry(v@.subrange(from as int, v@.len() as int)),
{
    let ghost json = v@.subrange(from as int, v@.len() as int);
    let n = v.len();
    let ck = literal_chars("{\"count\":");
    let lk = literal_chars(",\"last_used\":\"");
    proof {
        reveal_strlit("{\"count\":");
        reveal_strlit(",\"last_used\":\"");
        assert(ck@ =~= count_key());
        assert(lk@ =~= last_used_key());
    }
    // the count key
    if !crate::text::occurs_at_exec(v, &ck, from) {
        proof {
            if has_prefix(json, count_key()) {
                assert(v@.subrange(from as int, from + ck@.len()) =~= json.subrange(0, ck@.len() as int));
            }
        }
        return None;
    }
    assert(json.subrange(0, ck@.len() as int) =~= v@.subrange(from as int, from + ck@.len()));
    let a = from + ck.len();
    let ghost rest = json.subrange(count_key().len() as int, json.len() as int);
    assert(rest =~= v@.subrange(a as int, n as int));
    let (count, b) = match read_count(v, a) {
        Some(x) => x,
        None => {
            return None;
        },
    };
    let ghost nd = (b - a) as nat;
    assert(rest.subrange(nd as int, rest.len() as int) =~= v@.subrange(b as int, n as int));
    let ghost rest2 = v@.subrange(b as int, n as int);
    // the last-used key
    if !crate::text::occurs_at_exec(v, &lk, b) {
        proof {
            if has_prefix(rest2, last_used_key()) {
                assert(v@.subrange(b as int, b + lk@.len()) =~= rest2.subrange(0, lk@.len() as int));
            }
        }
        return None;
    }
    assert(rest2.subrange(0, lk@.len() as int) =~= v@.subrange(b as int, b + lk@.len()));
    let c = b + lk.len();
    let ghost rest3 = v@.subrange(c as int, n as int);
    assert(rest2.subrange(last_used_key().len() as int, rest2.len() as int) =~= rest3);
    parse_times(v, c, count)
}

/// Reads the two times in `v[c..]`.
#[verifier::rlimit(40)]
fn parse_times(v: &Vec<char>, c: usize, count: u32) -> (r: Option<UsageEntry>)
    requires
        c <= v@.len(),
    ensures
        r == read_times(v@.subrange(c as int, v@.len() as int), count),
{
    let n = v.len();
    let ghost rest3 = v@.subrange(c as int, n as int);
    let fk = literal_chars("\",\"first_used\":\"");
    proof {
        reveal_strlit("\",\"first_used\":\"");
        assert(fk@ =~= first_used_key());
    }
    // the first time, up to its quote
    let q1 = match position_exec(v, c, '"') {
        Some(q) => q,
        None => {
            return None;
        },
    };
    assert(rest3.subrange(0, q1 - c) =~= v@.subrange(c as int, q1 as int));
    let ghost rest4 = v@.subrange(q1 as int, n as int);
    assert(rest3.subrange(q1 - c, rest3.len() as int) =~= rest4);
    if !crate::text::occurs_at_exec(v, &fk, q1) {
        proof {
            if has_prefix(rest4, first_used_key()) {
                assert(v@.subrange(q1 as int, q1 + fk@.len()) =~= rest4.subrange(0, fk@.len() as int));
            }
        }
        return None;
    }
    assert(rest4.subrange(0, fk@.len() as int) =~= v@.subrange(q1 as int, q1 + fk@.len()));
    let d = q1 + fk.len();
    let ghost rest5 = v@.subrange(d as int, n as int);
    assert(rest4.subrange(first_used_key().len() as int, rest4.len() as int) =~= rest5);
    let q2 = match position_exec(v, d, '"') {
        Some(q) => q,
        None => {
            return None;
        },
    };
    assert(rest5.subrange(0, q2 - d) =~= v@.subrange(d as int, q2 as int));
    assert(rest5.subrange(q2 - d, rest5.len() as int) =~= v@.subrange(q2 as int, n as int));
    // the closing quote and brace, and nothing after them
    if !(n - q2 == 2 && v[q2] == '"' && v[q2 + 1] == '}') {
        proof {
            if v@.subrange(q2 as int, n as int) == closing() {
                assert(v@.subrange(q2 as int, n as int)[0] == '"');
                assert(v@.subrange(q2 as int, n as int)[1] == '}');
            }
        }
        return None;
    }
    assert(v@.subrange(q2 as int, n as int) =~= closing());
    let t1 = string_of_range(v, c, q1);
    let t2 = string_of_range(v, d, q2);
    match (read_time(t1.as_str()), read_time(t2.as_str())) {
        (Some(last), Some(first)) => Some(UsageEntry { count, last_used: last, first_used: first }),
        _ => None,
    }
}

/// Reads one line of the usage file (see `read_line`).
pub fn parse_usage_line(raw: &str) -> (r: Option<(String, UsageEntry)>)
    ensures
        match r {
            Some((id, e)) => read_line(raw@) == Some((id@, e)),
            None => read_line(raw@) is None,
        },
{
    let line = trim_chars(&chars_of(raw));
    if line.len() == 0 || line[0] == '#' {
        return None;
    }
    let k = match position_exec(&line, 0, '|') {
        Some(k) => k,
        None => {
            assert(line@.subrange(0, line@.len() as int) =~= line@);
            return None;
        },
    };
    assert(line@.subrange(0, line@.len() as int) =~= line@);
    let json = compact_exec(&line, k + 1);
    assert(json@.subrange(0, json@.len() as int) =~= json@);
    match parse_entry(&json, 0) {
        Some(e) => Some((string_of_range(&line, 0, k), e)),
        None => None,
    }
}

/// The table after reading lines into `start`: each line that reads sets
/// the entry of its action; a later line for the same action wins.
pub open spec fn fold_lines(start: UsageTable, lines: Seq<Seq<char>>) -> UsageTable
    decreases lines.len(),
{
    if lines.len() == 0 {
        start
    } else {
        let before = fold_lines(start, lines.drop_last());
        match read_line(lines.last()) {
            Some((id, e)) => with_entry(before, id, e),
            None => before,
        }
    }
}

/// The store that the lines of a file give.
pub open spec fn loaded(lines: Seq<Seq<char>>) -> UsageTable {
    fold_lines(Seq::empty(), lines)
}

/// The store that the text of a usage file describes.
pub fn load_usage_file(text: &str) -> (r: UsageService)
    ensures
        r@ == loaded(crate::desktop::split_on(text@, '\n')),
        unique_keys(r@),
{
    let chars = chars_of(text);
    let lines = crate::desktop::split_chars(&chars, '\n');
    let ghost ls = crate::desktop::views_of(lines@);
    let mut store = UsageService::new();
    let mut i: usize = 0;
    assert(ls.subrange(0, 0) =~= Seq::<Seq<char>>::empty());
    while i < lines.len()
        invariant
            i <= lines@.len(),
            ls == crate::desktop::views_of(lines@),
            store@ == loaded(ls.subrange(0, i as int)),
            unique_keys(store@),
        decreases lines@.len() - i,
    {
        proof {
            let t = ls.subrange(0, i + 1);
            assert(t.drop_last() =~= ls.subrange(0, i as int));
        }
        let line = string_of(&lines[i]);
        match parse_usage_line(line.as_str()) {
            Some((id, e)) => {
                store.set_entry(id.as_str(), e);
            },
            None => {},
        }
        i = i + 1;
    }
    assert(ls.subrange(0, lines@.len() as int) =~= ls);
    store
}

/// The entries by use count, highest first; equal counts keep their order.
pub open spec fn by_count(s: UsageTable) -> UsageTable
    decreases s.len(),
{
    if s.len() == 0 {
        s
    } else {
        let r = by_count(s.drop_last());
        r.insert(count_pos(r, s.last()) as int, s.last())
    }
}

/// Where an entry goes among entries ordered by count: before the first
/// with a smaller count.
pub open spec fn count_pos(r: UsageTable, x: (Seq<char>, UsageEntry)) -> nat
    decreases r.len(),
{
    if r.len() == 0 || x.1.count > r[0].1.count {
        0
    } else {
        1 + count_pos(r.drop_first(), x)
    }
}

proof fn lemma_count_pos_bound(r: UsageTable, x: (Seq<char>, UsageEntry))
    ensures
        count_pos(r, x) <= r.len(),
    decreases r.len(),
{
    if r.len() > 0 && x.1.count <= r[0].1.count {
        lemma_count_pos_bound(r.drop_first(), x);
    }
}

proof fn lemma_by_count_len(s: UsageTable)
    ensures
        by_count(s).len() == s.len(),
    decreases s.len(),
{
    if s.len() > 0 {
        lemma_by_count_len(s.drop_last());
        lemma_count_pos_bound(by_count(s.drop_last()), s.last());
    }
}

pub open spec fn record_views(v: Seq<(String, UsageEntry)>) -> UsageTable {
    v.map_values(|p: (String, UsageEntry)| (p.0@, p.1))
}

/// The histories of a store, most used first.
pub fn sorted_by_count(store: &UsageService) -> (r: Vec<(String, UsageEntry)>)
    ensures
        record_views(r@) == by_count(store@),
        unique_keys(store@),
{
    let mut out: Vec<(String, UsageEntry)> = Vec::new();
    let mut i: usize = 0;
    let n = store.len();
    assert(store@.subrange(0, 0) =~= Seq::<(Seq<char>, UsageEntry)>::empty());
    assert(record_views(out@) =~= Seq::<(Seq<char>, UsageEntry)>::empty());
    while i < n
        invariant
            n == store@.len(),
            i <= n,
            record_views(out@) == by_count(store@.subrange(0, i as int)),
        decreases n - i,
    {
        let (id, e) = store.record_at(i);
        let ghost x = (id@, e);
        let ghost before = record_views(out@);
        proof {
            lemma_by_count_len(store@.subrange(0, i as int));
            assert(before.subrange(0, before.len() as int) =~= before);
        }
        let mut p: usize = 0;
        while p < out.len() && !(e.count > out[p].1.count)
            invariant
                record_views(out@) == before,
                x == (id@, e),
                p <= out@.len(),
                out@.len() == before.len(),
                count_pos(before, x) == p + count_pos(before.subrange(p as int, before.len() as int), x),
            decreases out@.len() - p,
        {
            assert(before[p as int].1 == out@[p as int].1);
            assert(before.subrange(p as int, before.len() as int)[0] == before[p as int]);
            assert(before.subrange(p as int, before.len() as int).drop_first() =~= before.subrange(
                p + 1,
                before.len() as int,
            ));
            assert(!(x.1.count > before.subrange(p as int, before.len() as int)[0].1.count));
            assert(count_pos(before.subrange(p as int, before.len() as int), x) == 1 + count_pos(
                before.subrange(p + 1, before.len() as int),
                x,
            ));
            p = p + 1;
        }
        proof {
            if p < out@.len() {
                assert(before[p as int].1 == out@[p as int].1);
            }
        }
        let ghost old_out = out@;
        out.insert(p, (id.clone(), e));
        proof {
            let t = store@.subrange(0, i + 1);
            assert(t.drop_last() =~= store@.subrange(0, i as int));
            assert(t.last() == x);
            assert(record_views(out@) =~= before.insert(p as int, x));
        }
        i = i + 1;
    }
    assert(store@.subrange(0, n as int) =~= store@);
    out
}

/// The first lines of the file.
pub open spec fn file_header() -> Seq<char> {
    "# Wayfindr Usage Statistics\n# Format: action_id|json_data\n\n"@
}

/// The lines of the entries whose times can be written, in order, each
/// ended by a line break.
pub open spec fn entry_lines(s: UsageTable) -> Seq<char>
    decreases s.len(),
{
    if s.len() == 0 {
        Seq::empty()
    } else {
        let e = s.last().1;
        let before = entry_lines(s.drop_last());
        if storable_time(e.last_used) && storable_time(e.first_used) {
            before + usage_line_text(s.last().0, e) + seq!['\n']
        } else {
            before
        }
    }
}

/// The text of the usage file for a store: the header, then one line per
/// action, most used first. An action whose times fall outside the years
/// 0 to 9999 is left out. Where no action repeats and every entry can be
/// written, reading the text back gives every action the entry it had.
pub fn render_usage_file(store: &UsageService) -> (r: String)
    ensures
        r@ == file_header() + entry_lines(by_count(store@)),
        writable(store@) ==> forall|k: Seq<char>|
            #[trigger] entry_of(loaded(crate::desktop::split_on(r@, '\n')), k) == entry_of(
                store@,
                k,
            ),
{
    let sorted = sorted_by_count(store);
    let ghost sv = record_views(sorted@);
    let mut text: String = String::from_str("# Wayfindr Usage Statistics\n# Format: action_id|json_data\n\n");
    let mut i: usize = 0;
    assert(sv.subrange(0, 0) =~= Seq::<(Seq<char>, UsageEntry)>::empty());
    assert(text@ =~= file_header() + entry_lines(sv.subrange(0, 0)));
    while i < sorted.len()
        invariant
            i <= sorted@.len(),
            sv == record_views(sorted@),
            sv == by_count(store@),
            text@ == file_header() + entry_lines(sv.subrange(0, i as int)),
            forall|j: int|
                0 <= j < i && line_safe(sv[j].0) && storable_time(sv[j].1.last_used) && storable_time(
                    sv[j].1.first_used,
                ) ==> read_line(#[trigger] usage_line_text(sv[j].0, sv[j].1)) == Some(sv[j])
                    && line_free(usage_line_text(sv[j].0, sv[j].1)),
        decreases sorted@.len() - i,
    {
        proof {
            let t = sv.subrange(0, i + 1);
            assert(t.drop_last() =~= sv.subrange(0, i as int));
            assert(t.last() == (sorted@[i as int].0@, sorted@[i as int].1));
        }
        let e = sorted[i].1;
        let time_ok = EARLIEST_STORED_TIME <= e.last_used && e.last_used <= LATEST_STORED_TIME
            && EARLIEST_STORED_TIME <= e.first_used && e.first_used <= LATEST_STORED_TIME;
        if time_ok {
            match usage_line(sorted[i].0.as_str(), e) {
                Some(line) => {
                    text.append(line.as_str());
                    text.append("\n");
                    proof {
                        reveal_strlit("\n");
                    }
                    assert(text@ =~= file_header() + entry_lines(sv.subrange(0, i + 1)));
                },
                None => {},
            }
        }
        assert(sv[i as int] == (sorted@[i as int].0@, sorted@[i as int].1));
        i = i + 1;
    }
    assert(sv.subrange(0, sorted@.len() as int) =~= sv);
    proof {
        if writable(store@) {
            lemma_by_count_members(store@);
            lemma_writable_members(store@, sv);
            assert forall|j: int| 0 <= j < sv.len() implies read_line(
                #[trigger] usage_line_text(sv[j].0, sv[j].1),
            ) == Some(sv[j]) && line_free(usage_line_text(sv[j].0, sv[j].1)) by {
                assert(line_safe(sv[j].0));
            }
            assert forall|k: Seq<char>|
                #[trigger] entry_of(loaded(crate::desktop::split_on(text@, '\n')), k) == entry_of(
                    store@,
                    k,
                ) by {
                lemma_file_round_trip(store@, k);
            }
        }
    }
    text
}


/// Every entry of `s` gets a line that reads back: its id is line-safe and
/// its times have four-digit years.
pub open spec fn writable(s: UsageTable) -> bool {
    forall|i: int|
        0 <= i < s.len() ==> line_safe(#[trigger] s[i].0) && storable_time(s[i].1.last_used)
            && storable_time(s[i].1.first_used)
}

/// The lines of the entries, in order.
pub open spec fn line_texts(t: UsageTable) -> Seq<Seq<char>> {
    t.map_values(|p: (Seq<char>, UsageEntry)| usage_line_text(p.0, p.1))
}

/// Each entry's line reads back as the entry and holds no line break.
pub open spec fn lines_read_back(t: UsageTable) -> bool {
    forall|j: int|
        0 <= j < t.len() ==> read_line(#[trigger] usage_line_text(t[j].0, t[j].1)) == Some(t[j])
            && line_free(usage_line_text(t[j].0, t[j].1))
}

/// The table that setting each entry of `t` in turn gives.
pub open spec fn set_all(t: UsageTable) -> UsageTable
    decreases t.len(),
{
    if t.len() == 0 {
        t
    } else {
        with_entry(set_all(t.drop_last()), t.last().0, t.last().1)
    }
}

proof fn lemma_split_nonempty(s: Seq<char>)
    ensures
        crate::desktop::split_on(s, '\n').len() >= 1,
    decreases s.len(),
{
    if s.len() > 0 {
        lemma_split_nonempty(s.drop_last());
    }
}

proof fn lemma_split_free(x: Seq<char>)
    requires
        line_free(x),
    ensures
        crate::desktop::split_on(x, '\n') == seq![x],
    decreases x.len(),
{
    if x.len() > 0 {
        assert(line_free(x.drop_last())) by {
            assert forall|i: int| 0 <= i < x.drop_last().len() implies x.drop_last()[i] != '\n' by {
                assert(x.drop_last()[i] == x[i]);
            }
        }
        lemma_split_free(x.drop_last());
        assert(x.last() != '\n');
        assert(x.drop_last().push(x.last()) =~= x);
        assert(seq![x.drop_last()].update(0, x.drop_last().push(x.last())) =~= seq![x]);
    } else {
        assert(x =~= Seq::<char>::empty());
    }
}

proof fn lemma_split_append_free(x: Seq<char>, y: Seq<char>)
    requires
        line_free(y),
    ensures
        ({
            let sx = crate::desktop::split_on(x, '\n');
            crate::desktop::split_on(x + y, '\n') == sx.update(sx.len() - 1, sx.last() + y)
        }),
    decreases y.len(),
{
    let sx = crate::desktop::split_on(x, '\n');
    lemma_split_nonempty(x);
    if y.len() == 0 {
        assert(x + y =~= x);
        assert(sx.update(sx.len() - 1, sx.last() + y) =~= sx);
    } else {
        let y1 = y.drop_last();
        assert(line_free(y1)) by {
            assert forall|i: int| 0 <= i < y1.len() implies y1[i] != '\n' by {
                assert(y1[i] == y[i]);
            }
        }
        lemma_split_append_free(x, y1);
        assert((x + y).drop_last() =~= x + y1);
        assert((x + y).last() == y.last());
        assert(y.last() != '\n');
        let s1 = sx.update(sx.len() - 1, sx.last() + y1);
        assert(s1.last() == sx.last() + y1);
        assert((sx.last() + y1).push(y.last()) =~= sx.last() + y);
        assert(s1.update(s1.len() - 1, s1.last().push(y.last())) =~= sx.update(
            sx.len() - 1,
            sx.last() + y,
        ));
    }
}

proof fn lemma_split_concat(a: Seq<char>, b: Seq<char>)
    ensures
        crate::desktop::split_on(a + seq!['\n'] + b, '\n') == crate::desktop::split_on(a, '\n')
            + crate::desktop::split_on(b, '\n'),
    decreases b.len(),
{
    let sa = crate::desktop::split_on(a, '\n');
    if b.len() == 0 {
        assert((a + seq!['\n'] + b).drop_last() =~= a);
        assert(sa.push(Seq::<char>::empty()) =~= sa + crate::desktop::split_on(b, '\n'));
    } else {
        let b1 = b.drop_last();
        lemma_split_concat(a, b1);
        lemma_split_nonempty(b1);
        assert((a + seq!['\n'] + b).drop_last() =~= a + seq!['\n'] + b1);
        assert((a + seq!['\n'] + b).last() == b.last());
        let sb1 = crate::desktop::split_on(b1, '\n');
        if b.last() == '\n' {
            assert((sa + sb1).push(Seq::<char>::empty()) =~= sa + sb1.push(Seq::<char>::empty()));
        } else {
            let whole = sa + sb1;
            assert(whole.update(whole.len() - 1, whole.last().push(b.last())) =~= sa + sb1.update(
                sb1.len() - 1,
                sb1.last().push(b.last()),
            ));
        }
    }
}

proof fn lemma_prefix_writable(t: UsageTable)
    requires
        t.len() > 0,
        writable(t),
        lines_read_back(t),
    ensures
        writable(t.drop_last()),
        lines_read_back(t.drop_last()),
        line_free(usage_line_text(t.last().0, t.last().1)),
        line_safe(t.last().0),
        storable_time(t.last().1.last_used) && storable_time(t.last().1.first_used),
{
    let t1 = t.drop_last();
    assert forall|i: int| 0 <= i < t1.len() implies line_safe(#[trigger] t1[i].0)
        && storable_time(t1[i].1.last_used) && storable_time(t1[i].1.first_used) by {
        assert(t1[i] == t[i]);
        assert(line_safe(t[i].0));
    }
    assert forall|j: int| 0 <= j < t1.len() implies read_line(
        #[trigger] usage_line_text(t1[j].0, t1[j].1),
    ) == Some(t1[j]) && line_free(usage_line_text(t1[j].0, t1[j].1)) by {
        assert(t1[j] == t[j]);
        assert(read_line(usage_line_text(t[j].0, t[j].1)) == Some(t[j]));
    }
    assert(line_safe(t[t.len() - 1].0));
    assert(usage_line_text(t[t.len() - 1].0, t[t.len() - 1].1) == usage_line_text(t.last().0, t.last().1));
}

#[verifier::rlimit(50)]
proof fn lemma_entry_lines_split(t: UsageTable)
    requires
        writable(t),
        lines_read_back(t),
    ensures
        crate::desktop::split_on(entry_lines(t), '\n') == line_texts(t).push(Seq::<char>::empty()),
    decreases t.len(),
{
    if t.len() == 0 {
        assert(line_texts(t).push(Seq::<char>::empty()) =~= seq![Seq::<char>::empty()]);
    } else {
        let t1 = t.drop_last();
        lemma_prefix_writable(t);
        lemma_entry_lines_split(t1);
        let x = t.last();
        let line = usage_line_text(x.0, x.1);
        let e1 = entry_lines(t1);
        assert(entry_lines(t) == e1 + line + seq!['\n']);
        assert(e1 + line + seq!['\n'] =~= (e1 + line).push('\n'));
        assert((e1 + line).push('\n').drop_last() =~= e1 + line);
        lemma_split_append_free(e1, line);
        let s1 = line_texts(t1).push(Seq::<char>::empty());
        assert(s1.update(s1.len() - 1, s1.last() + line).push(Seq::<char>::empty()) =~= line_texts(
            t,
        ).push(Seq::<char>::empty()));
    }
}

proof fn lemma_fold_concat(start: UsageTable, a: Seq<Seq<char>>, b: Seq<Seq<char>>)
    ensures
        fold_lines(start, a + b) == fold_lines(fold_lines(start, a), b),
    decreases b.len(),
{
    if b.len() == 0 {
        assert(a + b =~= a);
    } else {
        lemma_fold_concat(start, a, b.drop_last());
        assert((a + b).drop_last() =~= a + b.drop_last());
        assert((a + b).last() == b.last());
    }
}

proof fn lemma_fold_entries(t: UsageTable)
    requires
        lines_read_back(t),
    ensures
        fold_lines(Seq::empty(), line_texts(t)) == set_all(t),
    decreases t.len(),
{
    if t.len() > 0 {
        let t1 = t.drop_last();
        assert forall|j: int| 0 <= j < t1.len() implies read_line(
            #[trigger] usage_line_text(t1[j].0, t1[j].1),
        ) == Some(t1[j]) && line_free(usage_line_text(t1[j].0, t1[j].1)) by {
            assert(t1[j] == t[j]);
        }
        lemma_fold_entries(t1);
        assert(line_texts(t).drop_last() =~= line_texts(t1));
        assert(line_texts(t).last() == usage_line_text(t[t.len() - 1].0, t[t.len() - 1].1));
    }
}

proof fn lemma_set_all_unique(t: UsageTable, k: Seq<char>)
    requires
        unique_keys(t),
    ensures
        entry_of(set_all(t), k) == entry_of(t, k),
    decreases t.len(),
{
    if t.len() > 0 {
        let t1 = t.drop_last();
        let x = t.last();
        assert(unique_keys(t1)) by {
            assert forall|i: int, j: int| 0 <= i < j < t1.len() implies t1[i].0 != t1[j].0 by {
                assert(t1[i] == t[i] && t1[j] == t[j]);
            }
        }
        lemma_set_all_unique(t1, k);
        crate::usage::lemma_with_entry(set_all(t1), x.0, x.1, k);
        if k == x.0 {
            assert forall|j: int| 0 <= j < t.len() - 1 implies t[j].0 != k by {
                assert(t[j].0 != t[t.len() - 1].0);
            }
            crate::usage::lemma_index_of(t, k, t.len() - 1);
        } else {
            crate::usage::lemma_index_of_first(t1, k);
            let i = crate::usage::index_of(t1, k);
            if i >= 0 {
                assert forall|j: int| 0 <= j < i implies t[j].0 != k by {
                    assert(t[j] == t1[j]);
                }
                assert(t[i] == t1[i]);
                crate::usage::lemma_index_of(t, k, i);
            } else {
                assert forall|j: int| 0 <= j < t.len() implies t[j].0 != k by {
                    if j < t1.len() {
                        assert(t[j] == t1[j]);
                    }
                }
                crate::usage::lemma_index_of(t, k, t.len() as int);
            }
        }
    }
}

/// In a table without repeated actions, the entry of `k` is the one the
/// table holds for it.
proof fn lemma_entry_of_unique(u: UsageTable, k: Seq<char>)
    requires
        unique_keys(u),
    ensures
        forall|e: UsageEntry| entry_of(u, k) == Some(e) <==> u.contains((k, e)),
        entry_of(u, k) is None <==> (forall|j: int| 0 <= j < u.len() ==> u[j].0 != k),
{
    crate::usage::lemma_index_of_first(u, k);
    let i = crate::usage::index_of(u, k);
    assert forall|e: UsageEntry| entry_of(u, k) == Some(e) <==> u.contains((k, e)) by {
        if u.contains((k, e)) {
            let j = choose|j: int| 0 <= j < u.len() && u[j] == (k, e);
            if i >= 0 && i != j {
                assert(u[i].0 == u[j].0);
            }
            assert(i == j);
        }
        if entry_of(u, k) == Some(e) {
            assert(u[i] == (k, e));
        }
    }
}

proof fn lemma_insert_members(r: UsageTable, p: int, x: (Seq<char>, UsageEntry))
    requires
        0 <= p <= r.len(),
    ensures
        forall|y: (Seq<char>, UsageEntry)| r.insert(p, x).contains(y) <==> (r.contains(y) || y == x),
{
    let q = r.insert(p, x);
    assert forall|y: (Seq<char>, UsageEntry)| q.contains(y) <==> (r.contains(y) || y == x) by {
        if q.contains(y) {
            let j = choose|j: int| 0 <= j < q.len() && q[j] == y;
            if j < p {
                assert(r[j] == y);
            } else if j > p {
                assert(r[j - 1] == y);
            }
        }
        if r.contains(y) {
            let j = choose|j: int| 0 <= j < r.len() && r[j] == y;
            if j < p {
                assert(q[j] == y);
            } else {
                assert(q[j + 1] == y);
            }
        }
        if y == x {
            assert(q[p] == y);
        }
    }
}

/// Ordering by count keeps the entries and their distinct actions.
proof fn lemma_by_count_members(s: UsageTable)
    requires
        unique_keys(s),
    ensures
        unique_keys(by_count(s)),
        forall|y: (Seq<char>, UsageEntry)| by_count(s).contains(y) <==> s.contains(y),
    decreases s.len(),
{
    if s.len() > 0 {
        let s1 = s.drop_last();
        let x = s.last();
        assert(unique_keys(s1)) by {
            assert forall|i: int, j: int| 0 <= i < j < s1.len() implies s1[i].0 != s1[j].0 by {
                assert(s1[i] == s[i] && s1[j] == s[j]);
            }
        }
        lemma_by_count_members(s1);
        let r = by_count(s1);
        lemma_by_count_len(s1);
        lemma_count_pos_bound(r, x);
        let p = count_pos(r, x) as int;
        lemma_insert_members(r, p, x);
        assert forall|y: (Seq<char>, UsageEntry)| by_count(s).contains(y) <==> s.contains(y) by {
            if s.contains(y) {
                let j = choose|j: int| 0 <= j < s.len() && s[j] == y;
                if j < s1.len() {
                    assert(s1[j] == y);
                }
            }
            if s1.contains(y) {
                let j = choose|j: int| 0 <= j < s1.len() && s1[j] == y;
                assert(s[j] == y);
            }
            if y == x {
                assert(s[s.len() - 1] == y);
            }
        }
        // no entry of r is for x's action
        assert forall|j: int| 0 <= j < r.len() implies r[j].0 != x.0 by {
            assert(r.contains(r[j]));
            assert(s1.contains(r[j]));
            let m = choose|m: int| 0 <= m < s1.len() && s1[m] == r[j];
            assert(s[m] == s1[m]);
            assert(s[m].0 != s[s.len() - 1].0);
        }
        let q = r.insert(p, x);
        assert forall|i: int, j: int| 0 <= i < j < q.len() implies q[i].0 != q[j].0 by {
            if j < p {
                assert(q[i] == r[i] && q[j] == r[j]);
            } else if j == p {
                assert(q[i] == r[i]);
            } else if i < p {
                assert(q[i] == r[i] && q[j] == r[j - 1]);
            } else if i == p {
                assert(q[j] == r[j - 1]);
            } else {
                assert(q[i] == r[i - 1] && q[j] == r[j - 1]);
            }
        }
    }
}

proof fn lemma_by_count_entries(s: UsageTable, k: Seq<char>)
    requires
        unique_keys(s),
    ensures
        entry_of(by_count(s), k) == entry_of(s, k),
        unique_keys(by_count(s)),
{
    lemma_by_count_members(s);
    let u = by_count(s);
    lemma_entry_of_unique(u, k);
    lemma_entry_of_unique(s, k);
    match entry_of(s, k) {
        Some(e) => {
            assert(s.contains((k, e)));
            assert(u.contains((k, e)));
        },
        None => {
            assert forall|j: int| 0 <= j < u.len() implies u[j].0 != k by {
                assert(u.contains(u[j]));
                assert(s.contains(u[j]));
                let m = choose|m: int| 0 <= m < s.len() && s[m] == u[j];
                assert(s[m].0 != k);
            }
        },
    }
}

proof fn lemma_writable_members(s: UsageTable, u: UsageTable)
    requires
        writable(s),
        forall|y: (Seq<char>, UsageEntry)| u.contains(y) ==> s.contains(y),
    ensures
        writable(u),
{
    assert forall|i: int| 0 <= i < u.len() implies line_safe(#[trigger] u[i].0)
        && storable_time(u[i].1.last_used) && storable_time(u[i].1.first_used) by {
        assert(u.contains(u[i]));
        let m = choose|m: int| 0 <= m < s.len() && s[m] == u[i];
        assert(line_safe(s[m].0));
    }
}

proof fn lemma_header_lines()
    ensures
        ({
            let h1 = "# Wayfindr Usage Statistics"@;
            let h2 = "# Format: action_id|json_data"@;
            &&& read_line(h1) is None
            &&& read_line(h2) is None
            &&& read_line(Seq::<char>::empty()) is None
            &&& line_free(h1)
            &&& line_free(h2)
            &&& forall|e: Seq<char>| #![auto]
                file_header() + e == h1 + seq!['\n'] + (h2 + seq!['\n'] + (Seq::<char>::empty()
                    + seq!['\n'] + e))
        }),
{
    let h1 = "# Wayfindr Usage Statistics"@;
    let h2 = "# Format: action_id|json_data"@;
    reveal_strlit("# Wayfindr Usage Statistics");
    reveal_strlit("# Format: action_id|json_data");
    reveal_strlit("# Wayfindr Usage Statistics\n# Format: action_id|json_data\n\n");
    assert(trim_start(h1) == h1);
    assert(trim_end(h1) == h1);
    assert(trim_start(h2) == h2);
    assert(trim_end(h2) == h2);
    assert(trim(Seq::<char>::empty()) == Seq::<char>::empty());
    assert forall|e: Seq<char>| #![auto]
        file_header() + e == h1 + seq!['\n'] + (h2 + seq!['\n'] + (Seq::<char>::empty() + seq![
            '\n',
        ] + e)) by {
        assert(file_header() + e =~= h1 + seq!['\n'] + (h2 + seq!['\n'] + (Seq::<char>::empty()
            + seq!['\n'] + e)));
    }
}

/// Rendering a store without repeated actions and reading the text back
/// gives every action the entry it had.
proof fn lemma_file_round_trip(s: UsageTable, k: Seq<char>)
    requires
        unique_keys(s),
        writable(s),
        lines_read_back(by_count(s)),
    ensures
        entry_of(loaded(crate::desktop::split_on(file_header() + entry_lines(by_count(s)), '\n')), k)
            == entry_of(s, k),
{
    let u = by_count(s);
    lemma_by_count_members(s);
    lemma_writable_members(s, u);
    lemma_entry_lines_split(u);
    lemma_header_lines();
    let h1 = "# Wayfindr Usage Statistics"@;
    let h2 = "# Format: action_id|json_data"@;
    let e = entry_lines(u);
    let empty = Seq::<char>::empty();
    lemma_split_concat(empty, e);
    lemma_split_concat(h2, empty + seq!['\n'] + e);
    lemma_split_concat(h1, h2 + seq!['\n'] + (empty + seq!['\n'] + e));
    lemma_split_free(h1);
    lemma_split_free(h2);
    assert(crate::desktop::split_on(empty, '\n') == seq![empty]);
    let head = seq![h1, h2, empty];
    let body = line_texts(u).push(empty);
    let lines = crate::desktop::split_on(file_header() + e, '\n');
    assert(lines =~= head + body);
    lemma_fold_concat(Seq::empty(), head, body);
    assert(read_line(h1) is None);
    assert(read_line(h2) is None);
    assert(read_line(empty) is None);
    assert(fold_lines(Seq::empty(), Seq::<Seq<char>>::empty()) == Seq::<(Seq<char>, UsageEntry)>::empty());
    assert(fold_lines(Seq::empty(), seq![h1]) == Seq::<(Seq<char>, UsageEntry)>::empty()) by {
        assert(seq![h1].drop_last() =~= Seq::<Seq<char>>::empty());
        assert(seq![h1].last() == h1);
    }
    assert(fold_lines(Seq::empty(), seq![h1, h2]) == Seq::<(Seq<char>, UsageEntry)>::empty()) by {
        assert(seq![h1, h2].drop_last() =~= seq![h1]);
        assert(seq![h1, h2].last() == h2);
    }
    assert(fold_lines(Seq::empty(), head) == Seq::<(Seq<char>, UsageEntry)>::empty()) by {
        assert(head.drop_last() =~= seq![h1, h2]);
        assert(head.last() == empty);
    }
    assert(body.drop_last() =~= line_texts(u));
    lemma_fold_entries(u);
    lemma_set_all_unique(u, k);
    lemma_by_count_entries(s, k);
}

} // verus!
