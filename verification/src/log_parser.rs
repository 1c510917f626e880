use vstd::prelude::*;
use crate::models::{entries_view, pairs_view, LogEntry, LogEntryV};

verus! {

// ---------------------------------------------------------------------------
// Trusted boundary: timestamp and details parsing.
// ---------------------------------------------------------------------------

/// Whether a string is a well-formed RFC 3339 timestamp and, if so, which
/// UTC second it denotes. Both depend on the characters alone.
pub uninterp spec fn rfc3339_utc_seconds(s: Seq<char>) -> Option<int>;

/// Relies on chrono's `DateTime::parse_from_rfc3339` (and `timestamp`, which
/// reads the already-normalized instant): the outcome is a pure function of
/// the input string.
#[verifier::external_body]
fn parse_rfc3339(s: &str) -> (r: Option<i64>)
    ensures
        (r is Some) <==> (rfc3339_utc_seconds(s@) is Some),
        r matches Option::Some(t) ==> rfc3339_utc_seconds(s@) == Option::Some(t as int),
{
    match chrono::DateTime::parse_from_rfc3339(s) {
        Ok(dt) => Option::Some(dt.timestamp()),
        Err(_) => Option::None,
    }
}

/// Whether a string is a flat JSON object of string values and, if so, which
/// key/value pairs it holds, in sorted key order. Both depend on the
/// characters alone.
pub uninterp spec fn json_string_pairs(s: Seq<char>) -> Option<Seq<(Seq<char>, Seq<char>)>>;

/// Relies on serde_json's `from_str` into a `BTreeMap<String, String>`: the
/// outcome is a pure function of the input string, and a `BTreeMap` iterates
/// in sorted key order, so the pair order is deterministic too.
#[verifier::external_body]
fn parse_details(s: &str) -> (r: Option<Vec<(String, String)>>)
    ensures
        (r is Some) <==> (json_string_pairs(s@) is Some),
        r matches Option::Some(v) ==> (json_string_pairs(s@) matches Option::Some(w)
            && pairs_view(v@) == w),
{
    let parsed: Result<std::collections::BTreeMap<String, String>, serde_json::Error> =
        serde_json::from_str(s);
    match parsed {
        Ok(m) => Option::Some(m.into_iter().collect()),
        Err(_) => Option::None,
    }
}

// ---------------------------------------------------------------------------
// The line grammar:
//   [<RFC3339 timestamp>] <segment> ] <ip> user_id=<id> event=<type> details=<json>
// Tokens after the IP are optional and unordered; unknown tokens are skipped;
// tokens are separated by ASCII whitespace.
// ---------------------------------------------------------------------------

/// Unicode whitespace (the White_Space property, as std's
/// `char::is_whitespace` defines it), written out so it can stand in specs.
pub open spec fn is_space(c: char) -> bool {
    c == ' ' || c == '\t' || c == '\n' || c == '\u{b}' || c == '\u{c}' || c == '\r' || c
        == '\u{85}' || c == '\u{a0}' || c == '\u{1680}' || c == '\u{2000}' || c == '\u{2001}' || c
        == '\u{2002}' || c == '\u{2003}' || c == '\u{2004}' || c == '\u{2005}' || c == '\u{2006}'
        || c == '\u{2007}' || c == '\u{2008}' || c == '\u{2009}' || c == '\u{200a}' || c
        == '\u{2028}' || c == '\u{2029}' || c == '\u{202f}' || c == '\u{205f}' || c == '\u{3000}'
}

fn is_space_char(c: char) -> (b: bool)
    ensures
        b == is_space(c),
{
    c == ' ' || c == '\t' || c == '\n' || c == '\u{b}' || c == '\u{c}' || c == '\r' || c
        == '\u{85}' || c == '\u{a0}' || c == '\u{1680}' || c == '\u{2000}' || c == '\u{2001}' || c
        == '\u{2002}' || c == '\u{2003}' || c == '\u{2004}' || c == '\u{2005}' || c == '\u{2006}'
        || c == '\u{2007}' || c == '\u{2008}' || c == '\u{2009}' || c == '\u{200a}' || c
        == '\u{2028}' || c == '\u{2029}' || c == '\u{202f}' || c == '\u{205f}' || c == '\u{3000}'
}

/// The position of the first `"] "` separator at or after `from`.
pub open spec fn find_sep_from(s: Seq<char>, from: int) -> Option<int>
    decreases s.len() - from,
{
    if from < 0 || from + 1 >= s.len() {
        Option::None
    } else if s[from] == ']' && s[from + 1] == ' ' {
        Option::Some(from)
    } else {
        find_sep_from(s, from + 1)
    }
}

pub open spec fn has_prefix(s: Seq<char>, p: Seq<char>) -> bool {
    p.len() <= s.len() && s.subrange(0, p.len() as int) == p
}

/// The fields gathered from the tokens after the IP address.
pub struct FieldsV {
    pub user_id: Option<Seq<char>>,
    pub event_type: Option<Seq<char>>,
    pub details: Seq<(Seq<char>, Seq<char>)>,
}

pub open spec fn empty_fields() -> FieldsV {
    FieldsV { user_id: Option::None, event_type: Option::None, details: Seq::empty() }
}

/// What one whitespace-separated token contributes: a recognized prefix sets
/// its field, a `details=` payload that is not a flat JSON string object is
/// ignored (it does not invalidate the record), unknown tokens are skipped.
pub open spec fn apply_token(f: FieldsV, tok: Seq<char>) -> FieldsV {
    if has_prefix(tok, ("user_id=")@) {
        FieldsV {
            user_id: Option::Some(tok.subrange(("user_id=")@.len() as int, tok.len() as int)),
            ..f
        }
    } else if has_prefix(tok, ("event=")@) {
        FieldsV {
            event_type: Option::Some(tok.subrange(("event=")@.len() as int, tok.len() as int)),
            ..f
        }
    } else if has_prefix(tok, ("details=")@) {
        match json_string_pairs(tok.subrange(("details=")@.len() as int, tok.len() as int)) {
            Option::Some(ps) => FieldsV { details: ps, ..f },
            Option::None => f,
        }
    } else {
        f
    }
}

/// The first whitespace-separated token of `s` starting at `i`, accumulated
/// in `cur`, and the position scanning should continue from.
pub open spec fn first_token_from(cur: Seq<char>, s: Seq<char>, i: int) -> (Seq<char>, int)
    decreases s.len() - i,
{
    if i < 0 || i >= s.len() {
        (cur, i)
    } else if is_space(s[i]) {
        if cur.len() > 0 {
            (cur, i)
        } else {
            first_token_from(cur, s, i + 1)
        }
    } else {
        first_token_from(cur.push(s[i]), s, i + 1)
    }
}

/// Folds `apply_token` over the whitespace-separated tokens of `s` from `i`.
pub open spec fn scan_tokens(f: FieldsV, cur: Seq<char>, s: Seq<char>, i: int) -> FieldsV
    decreases s.len() - i,
{
    if i < 0 || i >= s.len() {
        if cur.len() > 0 {
            apply_token(f, cur)
        } else {
            f
        }
    } else if is_space(s[i]) {
        if cur.len() > 0 {
            scan_tokens(apply_token(f, cur), Seq::empty(), s, i + 1)
        } else {
            scan_tokens(f, cur, s, i + 1)
        }
    } else {
        scan_tokens(f, cur.push(s[i]), s, i + 1)
    }
}

/// The meaning of one raw line: `None` is the `MalformedLine` outcome — the
/// caller drops the line and continues.
pub open spec fn spec_parse_line(s: Seq<char>) -> Option<LogEntryV> {
    match find_sep_from(s, 0) {
        Option::None => Option::None,
        Option::Some(i) => match find_sep_from(s, i + 2) {
            Option::None => Option::None,
            Option::Some(j) => {
                if i == 0 {
                    // An empty first segment has no timestamp content at all.
                    Option::None
                } else {
                    match rfc3339_utc_seconds(s.subrange(1, i)) {
                        Option::None => Option::None,
                        Option::Some(ts) => {
                            let rest = s.subrange(j + 2, s.len() as int);
                            let tok = first_token_from(Seq::empty(), rest, 0);
                            if tok.0.len() == 0 {
                                // No IP address token.
                                Option::None
                            } else {
                                let flds = scan_tokens(empty_fields(), Seq::empty(), rest, tok.1);
                                Option::Some(
                                    LogEntryV {
                                        timestamp: ts,
                                        ip_address: tok.0,
                                        user_id: flds.user_id,
                                        event_type: match flds.event_type {
                                            Option::Some(e) => e,
                                            Option::None => ("unknown")@,
                                        },
                                        details: flds.details,
                                    },
                                )
                            }
                        },
                    }
                }
            },
        },
    }
}

// ---------------------------------------------------------------------------
// Executable parser.
// ---------------------------------------------------------------------------

fn find_sep(s: &str, from: usize) -> (r: Option<usize>)
    requires
        from <= s@.len(),
    ensures
        (r is Some) <==> (find_sep_from(s@, from as int) is Some),
        r matches Option::Some(i) ==> find_sep_from(s@, from as int) == Option::Some(i as int)
            && from <= i && i + 1 < s@.len(),
{
    let n = s.unicode_len();
    if n < 2 {
        return Option::None;
    }
    let mut i: usize = from;
    while i < n - 1
        invariant
            from <= i <= s@.len(),
            n == s@.len(),
            2 <= n,
            find_sep_from(s@, from as int) == find_sep_from(s@, i as int),
        decreases s@.len() - i,
    {
        let a = s.get_char(i);
        let b = s.get_char(i + 1);
        if a == ']' && b == ' ' {
            return Option::Some(i);
        }
        i = i + 1;
    }
    Option::None
}

fn str_has_prefix(s: &str, p: &str) -> (r: bool)
    ensures
        r == has_prefix(s@, p@),
{
    let n = p.unicode_len();
    let m = s.unicode_len();
    if n > m {
        return false;
    }
    let mut i: usize = 0;
    while i < n
        invariant
            i <= n,
            n == p@.len(),
            n <= s@.len(),
            m == s@.len(),
            forall|k: int| 0 <= k < i ==> s@[k] == p@[k],
        decreases n - i,
    {
        if s.get_char(i) != p.get_char(i) {
            proof {
                assert(s@.subrange(0, p@.len() as int)[i as int] != p@[i as int]);
            }
            return false;
        }
        i = i + 1;
    }
    proof {
        assert(s@.subrange(0, p@.len() as int) =~= p@);
    }
    true
}

fn is_space_at(s: &str, i: usize) -> (b: bool)
    requires
        i < s@.len(),
    ensures
        b == is_space(s@[i as int]),
{
    let c = s.get_char(i);
    is_space_char(c)
}

struct Fields {
    user_id: Option<String>,
    event_type: Option<String>,
    details: Vec<(String, String)>,
}

impl View for Fields {
    type V = FieldsV;

    closed spec fn view(&self) -> FieldsV {
        FieldsV {
            user_id: crate::models::opt_str_view(self.user_id),
            event_type: crate::models::opt_str_view(self.event_type),
            details: pairs_view(self.details@),
        }
    }
}

fn apply_token_to(f: &mut Fields, tok: &str)
    ensures
        (*final(f))@ == apply_token((*old(f))@, tok@),
{
    proof {
        reveal_strlit("user_id=");
        reveal_strlit("event=");
        reveal_strlit("details=");
    }
    let n = tok.unicode_len();
    if str_has_prefix(tok, "user_id=") {
        let v = tok.substring_char(8, n);
        f.user_id = Option::Some(v.to_owned());
    } else if str_has_prefix(tok, "event=") {
        let v = tok.substring_char(6, n);
        f.event_type = Option::Some(v.to_owned());
    } else if str_has_prefix(tok, "details=") {
        let v = tok.substring_char(8, n);
        match parse_details(v) {
            Option::Some(ps) => {
                f.details = ps;
            },
            Option::None => {},
        }
    }
}

/// Parses one raw log line into a `LogEntry`, or rejects it as malformed.
/// The outcome is a pure function of the line, so parsing the same line
/// twice yields identical records.
pub fn parse_log_entry(line: &str) -> (r: Option<LogEntry>)
    ensures
        (r is Some) <==> (spec_parse_line(line@) is Some),
        r matches Option::Some(e) ==> spec_parse_line(line@) == Option::Some(e@),
{
    let sv = line;
    let n = sv.unicode_len();
    let i = match find_sep(sv, 0) {
        Option::Some(i) => i,
        Option::None => {
            return Option::None;
        },
    };
    let j = match find_sep(sv, i + 2) {
        Option::Some(j) => j,
        Option::None => {
            return Option::None;
        },
    };
    if i == 0 {
        return Option::None;
    }
    let ts_str = sv.substring_char(1, i);
    let ts = match parse_rfc3339(ts_str) {
        Option::Some(t) => t,
        Option::None => {
            return Option::None;
        },
    };
    let rest = sv.substring_char(j + 2, n);
    let ghost restv = line@.subrange(j as int + 2, line@.len() as int);
    proof {
        assert(rest@ == restv);
    }
    // First token: the IP address (required).
    let m = rest.unicode_len();
    let mut k: usize = 0;
    while k < m && is_space_at(rest, k)
        invariant
            k <= m,
            m == restv.len(),
            rest@ == restv,
            first_token_from(Seq::empty(), restv, 0) == first_token_from(
                Seq::empty(),
                restv,
                k as int,
            ),
        decreases m - k,
    {
        k = k + 1;
    }
    let ip_start = k;
    proof {
        assert(restv.subrange(k as int, k as int) =~= Seq::<char>::empty());
    }
    while k < m && !is_space_at(rest, k)
        invariant
            ip_start <= k <= m,
            m == restv.len(),
            rest@ == restv,
            first_token_from(Seq::empty(), restv, 0) == first_token_from(
                restv.subrange(ip_start as int, k as int),
                restv,
                k as int,
            ),
        decreases m - k,
    {
        proof {
            assert(restv.subrange(ip_start as int, k as int).push(restv[k as int])
                =~= restv.subrange(ip_start as int, k as int + 1));
        }
        k = k + 1;
    }
    if k == ip_start {
        // No IP token at all.
        proof {
            assert(restv.subrange(ip_start as int, ip_start as int) =~= Seq::<char>::empty());
        }
        return Option::None;
    }
    let ip = rest.substring_char(ip_start, k).to_owned();
    proof {
        assert(first_token_from(Seq::empty(), restv, 0) == (
            restv.subrange(ip_start as int, k as int),
            k as int,
        ));
    }
    // Remaining tokens.
    let mut fields = Fields {
        user_id: Option::None,
        event_type: Option::None,
        details: Vec::new(),
    };
    proof {
        assert(pairs_view(fields.details@) =~= Seq::<(Seq<char>, Seq<char>)>::empty());
        assert(fields@ == empty_fields());
    }
    let ghost f0 = fields@;
    let mut in_tok: bool = false;
    let mut start: usize = 0;
    let mut idx: usize = k;
    while idx < m
        invariant
            k <= idx <= m,
            m == restv.len(),
            rest@ == restv,
            in_tok ==> k <= start as int && start < idx,
            !in_tok ==> scan_tokens(empty_fields(), Seq::empty(), restv, k as int) == scan_tokens(
                fields@,
                Seq::empty(),
                restv,
                idx as int,
            ),
            in_tok ==> scan_tokens(empty_fields(), Seq::empty(), restv, k as int) == scan_tokens(
                fields@,
                restv.subrange(start as int, idx as int),
                restv,
                idx as int,
            ),
        decreases m - idx,
    {
        let c = rest.get_char(idx);
        let space = is_space_char(c);
        if space {
            if in_tok {
                let tok = rest.substring_char(start, idx);
                proof {
                    assert(restv.subrange(start as int, idx as int).len() > 0);
                }
                apply_token_to(&mut fields, tok);
                in_tok = false;
            }
        } else {
            if !in_tok {
                start = idx;
                in_tok = true;
                proof {
                    assert(restv.subrange(start as int, start as int) =~= Seq::<char>::empty());
                }
            }
            proof {
                assert(restv.subrange(start as int, idx as int).push(restv[idx as int])
                    =~= restv.subrange(start as int, idx as int + 1));
            }
        }
        idx = idx + 1;
    }
    if in_tok {
        let tok = rest.substring_char(start, m);
        proof {
            assert(restv.subrange(start as int, m as int).len() > 0);
        }
        apply_token_to(&mut fields, tok);
    }
    proof {
        assert(fields@ == scan_tokens(empty_fields(), Seq::empty(), restv, k as int));
    }
    let event_type = match fields.event_type {
        Option::Some(e) => e,
        Option::None => ("unknown").to_owned(),
    };
    let entry = LogEntry {
        timestamp: ts,
        ip_address: ip,
        user_id: fields.user_id,
        event_type,
        details: fields.details,
    };
    Option::Some(entry)
}

// ---------------------------------------------------------------------------
// Batch parsing.
// ---------------------------------------------------------------------------

/// The records of a batch of raw lines: malformed lines are dropped and do
/// not count.
pub open spec fn spec_parse_batch(lines: Seq<Seq<char>>) -> Seq<LogEntryV>
    decreases lines.len(),
{
    if lines.len() == 0 {
        Seq::empty()
    } else {
        let rest = spec_parse_batch(lines.drop_last());
        match spec_parse_line(lines.last()) {
            Option::Some(e) => rest.push(e),
            Option::None => rest,
        }
    }
}

pub open spec fn lines_view(lines: Seq<String>) -> Seq<Seq<char>> {
    lines.map_values(|l: String| l@)
}

/// Parses a whole batch of raw lines, dropping malformed ones. The length of
/// the result is the count of well-formed lines: exactly what
/// `total_logs_processed` reports after a run over this batch.
pub fn parse_batch(lines: &Vec<String>) -> (records: Vec<LogEntry>)
    ensures
        entries_view(records@) == spec_parse_batch(lines_view(lines@)),
{
    let ghost lv = lines_view(lines@);
    let mut records: Vec<LogEntry> = Vec::new();
    let mut i: usize = 0;
    proof {
        assert(entries_view(records@) =~= Seq::<LogEntryV>::empty());
        assert(lv.take(0) =~= Seq::<Seq<char>>::empty());
    }
    while i < lines.len()
        invariant
            i <= lines@.len(),
            lv == lines_view(lines@),
            lv.len() == lines@.len(),
            entries_view(records@) == spec_parse_batch(lv.take(i as int)),
        decreases lines@.len() - i,
    {
        proof {
            assert(lv.take(i as int + 1).drop_last() =~= lv.take(i as int));
            assert(lv.take(i as int + 1).last() == lv[i as int]);
            assert(lv[i as int] == lines@[i as int]@);
        }
        let ghost before = entries_view(records@);
        match parse_log_entry(lines[i].as_str()) {
            Option::Some(e) => {
                records.push(e);
                proof {
                    assert(entries_view(records@) =~= before.push(records@.last()@));
                }
            },
            Option::None => {},
        }
        i = i + 1;
    }
    proof {
        assert(lv.take(lv.len() as int) =~= lv);
    }
    records
}

} // verus!
