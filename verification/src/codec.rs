use vstd::prelude::*;
use crate::models::{rules_view, Rule, RuleLoadError, RuleType, RuleTypeV, RuleV};
use crate::text::{
    all_digits, dec_render_fixed, dec_val, is_digit, lemma_dec_render_fixed_ok,
    lemma_dec_val_bound, pow10, u64_to_dec_fixed, NUM_WIDTH,
};

verus! {

// ---------------------------------------------------------------------------
// The transport format for rules: a plain text record that carries the field
// names, with every string length-prefixed by a fixed-width decimal so that
// it parses back without any escaping:
//
//   name:<len:20><name>description:<len:20><description>
//   rule_type:<tag:1><len:20><custom tag>threshold:<n:20>time_window:<n:20>
//
// with tag one of 'B' (BruteForce), 'H' (HighFrequencyRequest),
// 'S' (SuspiciousIp), 'C' (Custom; only then is the custom tag non-empty).
// A rule set is "rules:" followed by a count and that many rules.
// ---------------------------------------------------------------------------

/// Whether the literal `lit` stands in `s` at offset `off`.
pub open spec fn lit_at(s: Seq<char>, off: int, lit: Seq<char>) -> bool {
    0 <= off && off + lit.len() <= s.len() && s.subrange(off, off + lit.len()) == lit
}

pub open spec fn tag_char_of(rt: RuleTypeV) -> char {
    match rt {
        RuleTypeV::BruteForce => 'B',
        RuleTypeV::HighFrequencyRequest => 'H',
        RuleTypeV::SuspiciousIp => 'S',
        RuleTypeV::Custom(_) => 'C',
    }
}

pub open spec fn tag_payload_of(rt: RuleTypeV) -> Seq<char> {
    match rt {
        RuleTypeV::Custom(t) => t,
        _ => Seq::empty(),
    }
}

pub open spec fn num_field(n: nat) -> Seq<char> {
    dec_render_fixed(n, NUM_WIDTH as nat)
}

pub open spec fn spec_serialize_rule(r: RuleV) -> Seq<char> {
    ("name:")@ + num_field(r.name.len()) + r.name + ("description:")@ + num_field(
        r.description.len(),
    ) + r.description + ("rule_type:")@ + seq![tag_char_of(r.rule_type)] + num_field(
        tag_payload_of(r.rule_type).len(),
    ) + tag_payload_of(r.rule_type) + ("threshold:")@ + num_field(r.threshold as nat) + (
    "time_window:")@ + num_field(r.time_window_seconds as nat)
}

/// The fixed-width decimal field starting at `off`, if it is all digits.
pub open spec fn parse_num_at(s: Seq<char>, off: int) -> Option<int> {
    if 0 <= off && off + NUM_WIDTH <= s.len() && all_digits(
        s.subrange(off, off + NUM_WIDTH),
    ) {
        Option::Some(dec_val(s.subrange(off, off + NUM_WIDTH)))
    } else {
        Option::None
    }
}

pub open spec fn rule_type_of_tag(tc: char, payload: Seq<char>) -> Option<RuleTypeV> {
    if tc == 'B' {
        Option::Some(RuleTypeV::BruteForce)
    } else if tc == 'H' {
        Option::Some(RuleTypeV::HighFrequencyRequest)
    } else if tc == 'S' {
        Option::Some(RuleTypeV::SuspiciousIp)
    } else if tc == 'C' {
        Option::Some(RuleTypeV::Custom(payload))
    } else {
        Option::None
    }
}

/// Parses one serialized rule starting at `off`; returns the rule and the
/// offset just past it. Every field must be introduced by its name.
pub open spec fn parse_rule_at(s: Seq<char>, off: int) -> Option<(RuleV, int)> {
    if !lit_at(s, off, ("name:")@) {
        Option::None
    } else {
        let n0 = off + ("name:")@.len();
        match parse_num_at(s, n0) {
            Option::None => Option::None,
            Option::Some(nl) => {
                let name_start = n0 + NUM_WIDTH;
                if name_start + nl > s.len() {
                    Option::None
                } else {
                    let name = s.subrange(name_start, name_start + nl);
                    if !lit_at(s, name_start + nl, ("description:")@) {
                        Option::None
                    } else {
                        let d0 = name_start + nl + ("description:")@.len();
                        match parse_num_at(s, d0) {
                            Option::None => Option::None,
                            Option::Some(dl) => {
                                let desc_start = d0 + NUM_WIDTH;
                                if desc_start + dl > s.len() {
                                    Option::None
                                } else {
                                    let desc = s.subrange(desc_start, desc_start + dl);
                                    if !lit_at(s, desc_start + dl, ("rule_type:")@) {
                                        Option::None
                                    } else {
                                        let tag_at = desc_start + dl + ("rule_type:")@.len();
                                        if tag_at >= s.len() {
                                            Option::None
                                        } else {
                                            let tc = s[tag_at];
                                            match parse_num_at(s, tag_at + 1) {
                                                Option::None => Option::None,
                                                Option::Some(tl) => {
                                                    let pay_start = tag_at + 1 + NUM_WIDTH;
                                                    if pay_start + tl > s.len() {
                                                        Option::None
                                                    } else {
                                                        let payload = s.subrange(
                                                            pay_start,
                                                            pay_start + tl,
                                                        );
                                                        match rule_type_of_tag(tc, payload) {
                                                            Option::None => Option::None,
                                                            Option::Some(rt) => {
                                                                if !lit_at(
                                                                    s,
                                                                    pay_start + tl,
                                                                    ("threshold:")@,
                                                                ) {
                                                                    Option::None
                                                                } else {
                                                                    let th_at = pay_start + tl + (
                                                                    "threshold:")@.len();
                                                                    match parse_num_at(s, th_at) {
                                                                        Option::None => Option::None,
                                                                        Option::Some(th) => {
                                                                            if !lit_at(
                                                                                s,
                                                                                th_at + NUM_WIDTH,
                                                                                ("time_window:")@,
                                                                            ) {
                                                                                Option::None
                                                                            } else {
                                                                                let tw_at = th_at
                                                                                    + NUM_WIDTH + (
                                                                                "time_window:")@.len();
                                                                                match parse_num_at(
                                                                                    s,
                                                                                    tw_at,
                                                                                ) {
                                                                                    Option::None => Option::None,
                                                                                    Option::Some(
                                                                                        tw,
                                                                                    ) => {
                                                                                        if th
                                                                                            <= usize::MAX
                                                                                            && tw
                                                                                            <= u64::MAX {
                                                                                            Option::Some(
                                                                                                (
                                                                                                    RuleV {
                                                                                                        name,
                                                                                                        description: desc,
                                                                                                        rule_type: rt,
                                                                                                        threshold: th,
                                                                                                        time_window_seconds: tw,
                                                                                                    },
                                                                                                    tw_at
                                                                                                        + NUM_WIDTH,
                                                                                                ),
                                                                                            )
                                                                                        } else {
                                                                                            Option::None
                                                                                        }
                                                                                    },
                                                                                }
                                                                            }
                                                                        },
                                                                    }
                                                                }
                                                            },
                                                        }
                                                    }
                                                },
                                            }
                                        }
                                    }
                                }
                            },
                        }
                    }
                }
            },
        }
    }
}

/// The meaning of one whole serialized rule string.
pub open spec fn spec_deserialize_rule(s: Seq<char>) -> Option<RuleV> {
    match parse_rule_at(s, 0) {
        Option::Some(p) => if p.1 == s.len() {
            Option::Some(p.0)
        } else {
            Option::None
        },
        Option::None => Option::None,
    }
}

proof fn lemma_pow10_mono(a: nat, b: nat)
    requires
        a <= b,
    ensures
        pow10(a) <= pow10(b),
    decreases b,
{
    if a < b {
        lemma_pow10_mono(a, (b - 1) as nat);
    }
}

/// Round-trip: a rule serialized and deserialized again is field-for-field
/// the original. The bounds are the validity of any rule the executable
/// types can hold (string lengths and counts fit the machine).
#[verifier::rlimit(100)]
pub proof fn lemma_rule_round_trip(r: RuleV)
    requires
        r.name.len() <= usize::MAX,
        r.description.len() <= usize::MAX,
        tag_payload_of(r.rule_type).len() <= usize::MAX,
        0 <= r.threshold <= usize::MAX,
        0 <= r.time_window_seconds <= u64::MAX,
    ensures
        spec_deserialize_rule(spec_serialize_rule(r)) == Option::Some(r),
{
    reveal_with_fuel(pow10, 21);
    assert(pow10(20) == 100000000000000000000nat);
    reveal_strlit("name:");
    reveal_strlit("description:");
    reveal_strlit("rule_type:");
    reveal_strlit("threshold:");
    reveal_strlit("time_window:");
    let w = NUM_WIDTH as int;
    let nl = r.name.len() as int;
    let dl = r.description.len() as int;
    let pay = tag_payload_of(r.rule_type);
    let tl = pay.len() as int;
    lemma_dec_render_fixed_ok(r.name.len(), NUM_WIDTH as nat);
    lemma_dec_render_fixed_ok(r.description.len(), NUM_WIDTH as nat);
    lemma_dec_render_fixed_ok(pay.len(), NUM_WIDTH as nat);
    lemma_dec_render_fixed_ok(r.threshold as nat, NUM_WIDTH as nat);
    lemma_dec_render_fixed_ok(r.time_window_seconds as nat, NUM_WIDTH as nat);
    let s = spec_serialize_rule(r);
    // Field offsets: each label, then a 20-digit number, then the payload.
    let n0: int = 5;
    let o1 = n0 + w + nl;
    let d0 = o1 + 12;
    let o2 = d0 + w + dl;
    let tag_at = o2 + 10;
    let o3 = tag_at + 1 + w + tl;
    let th_at = o3 + 10;
    let tw_at = th_at + w + 12;
    assert(s.len() == tw_at + w);
    assert(s.subrange(0, 5) =~= ("name:")@);
    assert(s.subrange(n0, n0 + w) =~= num_field(r.name.len()));
    assert(s.subrange(n0 + w, o1) =~= r.name);
    assert(s.subrange(o1, o1 + 12) =~= ("description:")@);
    assert(s.subrange(d0, d0 + w) =~= num_field(r.description.len()));
    assert(s.subrange(d0 + w, o2) =~= r.description);
    assert(s.subrange(o2, o2 + 10) =~= ("rule_type:")@);
    assert(s[tag_at] == tag_char_of(r.rule_type));
    assert(s.subrange(tag_at + 1, tag_at + 1 + w) =~= num_field(pay.len()));
    assert(s.subrange(tag_at + 1 + w, o3) =~= pay);
    assert(s.subrange(o3, o3 + 10) =~= ("threshold:")@);
    assert(s.subrange(th_at, th_at + w) =~= num_field(r.threshold as nat));
    assert(s.subrange(th_at + w, th_at + w + 12) =~= ("time_window:")@);
    assert(s.subrange(tw_at, tw_at + w) =~= num_field(r.time_window_seconds as nat));
    assert(lit_at(s, 0, ("name:")@));
    assert(parse_num_at(s, n0) == Option::Some(nl));
    assert(lit_at(s, o1, ("description:")@));
    assert(parse_num_at(s, d0) == Option::Some(dl));
    assert(lit_at(s, o2, ("rule_type:")@));
    assert(parse_num_at(s, tag_at + 1) == Option::Some(tl));
    assert(lit_at(s, o3, ("threshold:")@));
    assert(parse_num_at(s, th_at) == Option::Some(r.threshold));
    assert(lit_at(s, th_at + w, ("time_window:")@));
    assert(parse_num_at(s, tw_at) == Option::Some(r.time_window_seconds));
    assert(rule_type_of_tag(tag_char_of(r.rule_type), pay) == Option::Some(r.rule_type));
    assert(parse_rule_at(s, 0) == Option::Some((r, s.len() as int)));
}

// ---------------------------------------------------------------------------
// Executable codec.
// ---------------------------------------------------------------------------

/// Serializes one rule into the transport format.
pub fn serialize_rule(rule: &Rule) -> (out: String)
    ensures
        out@ == spec_serialize_rule(rule@),
{
    proof {
        reveal_strlit("B");
        reveal_strlit("H");
        reveal_strlit("S");
        reveal_strlit("C");
        assert(("B")@ =~= seq!['B']);
        assert(("H")@ =~= seq!['H']);
        assert(("S")@ =~= seq!['S']);
        assert(("C")@ =~= seq!['C']);
    }
    let mut out = String::new();
    out.append("name:");
    let nl = rule.name.as_str().unicode_len();
    let f = u64_to_dec_fixed(nl as u64);
    out.append(f.as_str());
    out.append(rule.name.as_str());
    out.append("description:");
    let dl = rule.description.as_str().unicode_len();
    let f = u64_to_dec_fixed(dl as u64);
    out.append(f.as_str());
    out.append(rule.description.as_str());
    out.append("rule_type:");
    match &rule.rule_type {
        RuleType::BruteForce => {
            out.append("B");
            let f = u64_to_dec_fixed(0);
            out.append(f.as_str());
        },
        RuleType::HighFrequencyRequest => {
            out.append("H");
            let f = u64_to_dec_fixed(0);
            out.append(f.as_str());
        },
        RuleType::SuspiciousIp => {
            out.append("S");
            let f = u64_to_dec_fixed(0);
            out.append(f.as_str());
        },
        RuleType::Custom(t) => {
            out.append("C");
            let tl = t.as_str().unicode_len();
            let f = u64_to_dec_fixed(tl as u64);
            out.append(f.as_str());
            out.append(t.as_str());
        },
    }
    out.append("threshold:");
    let f = u64_to_dec_fixed(rule.threshold as u64);
    out.append(f.as_str());
    out.append("time_window:");
    let f = u64_to_dec_fixed(rule.time_window_seconds);
    out.append(f.as_str());
    proof {
        assert(tag_payload_of(rule@.rule_type).len() == 0 ==> tag_payload_of(rule@.rule_type)
            =~= Seq::<char>::empty());
        assert(out@ =~= spec_serialize_rule(rule@));
    }
    out
}

fn digit_at(s: &str, i: usize) -> (r: Option<u64>)
    requires
        i < s@.len(),
    ensures
        (r is Some) <==> is_digit(s@[i as int]),
        r matches Option::Some(d) ==> d < 10 && d as int == crate::text::digit_val(s@[i as int]),
{
    let c = s.get_char(i);
    if c == '0' {
        Option::Some(0)
    } else if c == '1' {
        Option::Some(1)
    } else if c == '2' {
        Option::Some(2)
    } else if c == '3' {
        Option::Some(3)
    } else if c == '4' {
        Option::Some(4)
    } else if c == '5' {
        Option::Some(5)
    } else if c == '6' {
        Option::Some(6)
    } else if c == '7' {
        Option::Some(7)
    } else if c == '8' {
        Option::Some(8)
    } else if c == '9' {
        Option::Some(9)
    } else {
        Option::None
    }
}

fn parse_num_field(s: &str, off: usize) -> (r: Option<u128>)
    ensures
        (r is Some) <==> (parse_num_at(s@, off as int) is Some),
        r matches Option::Some(v) ==> parse_num_at(s@, off as int) == Option::Some(v as int),
{
    let n = s.unicode_len();
    if off > n || n - off < NUM_WIDTH {
        return Option::None;
    }
    proof {
        reveal_with_fuel(pow10, 21);
        assert(pow10(20) == 100000000000000000000nat);
        assert(s@.subrange(off as int, off as int) =~= Seq::<char>::empty());
    }
    let mut acc: u128 = 0;
    let mut i: usize = 0;
    while i < NUM_WIDTH
        invariant
            i <= NUM_WIDTH,
            off + NUM_WIDTH <= s@.len(),
            s@.len() <= usize::MAX,
            all_digits(s@.subrange(off as int, off as int + i)),
            acc as int == dec_val(s@.subrange(off as int, off as int + i)),
            (acc as int) < pow10(i as nat),
            pow10(20) == 100000000000000000000nat,
        decreases NUM_WIDTH - i,
    {
        proof {
            lemma_pow10_mono(i as nat, 20);
        }
        match digit_at(s, off + i) {
            Option::Some(d) => {
                proof {
                    let sub1 = s@.subrange(off as int, off as int + i + 1);
                    assert(sub1.drop_last() =~= s@.subrange(off as int, off as int + i));
                    assert(sub1.last() == s@[off as int + i]);
                    assert(forall|k: int|
                        0 <= k < sub1.len() ==> is_digit(#[trigger] sub1[k]));
                }
                acc = acc * 10 + (d as u128);
                i = i + 1;
            },
            Option::None => {
                proof {
                    assert(s@.subrange(off as int, off as int + NUM_WIDTH)[i as int] == s@[off
                        as int + i]);
                }
                return Option::None;
            },
        }
    }
    proof {
        lemma_dec_val_bound(s@.subrange(off as int, off as int + NUM_WIDTH));
    }
    Option::Some(acc)
}

/// Parses one serialized rule starting at `off`, returning it and the offset
/// just past it.
fn has_lit_at(s: &str, off: usize, lit: &str) -> (r: bool)
    ensures
        r == lit_at(s@, off as int, lit@),
{
    let n = s.unicode_len();
    let m = lit.unicode_len();
    if off > n || n - off < m {
        return false;
    }
    let mut i: usize = 0;
    while i < m
        invariant
            i <= m,
            m == lit@.len(),
            off + m <= s@.len(),
            n == s@.len(),
            forall|k: int| 0 <= k < i ==> s@[off + k] == #[trigger] lit@[k],
        decreases m - i,
    {
        if s.get_char(off + i) != lit.get_char(i) {
            proof {
                assert(s@.subrange(off as int, off as int + lit@.len())[i as int] != lit@[
                    i as int]);
            }
            return false;
        }
        i = i + 1;
    }
    proof {
        assert(s@.subrange(off as int, off as int + lit@.len()) =~= lit@);
    }
    true
}

fn parse_rule_field(s: &str, off: usize) -> (r: Option<(Rule, usize)>)
    requires
        off <= s@.len(),
    ensures
        (r is Some) <==> (parse_rule_at(s@, off as int) is Some),
        r matches Option::Some(p) ==> parse_rule_at(s@, off as int) == Option::Some(
            (p.0@, p.1 as int),
        ) && off < p.1 <= s@.len(),
{
    proof {
        reveal_strlit("name:");
        reveal_strlit("description:");
        reveal_strlit("rule_type:");
        reveal_strlit("threshold:");
        reveal_strlit("time_window:");
    }
    let n = s.unicode_len();
    if !has_lit_at(s, off, "name:") {
        return Option::None;
    }
    let nl = match parse_num_field(s, off + 5) {
        Option::Some(v) => v,
        Option::None => {
            return Option::None;
        },
    };
    let name_start = off + 5 + NUM_WIDTH;
    if nl > (n as u128) - (name_start as u128) {
        return Option::None;
    }
    let nlu = nl as usize;
    let name = s.substring_char(name_start, name_start + nlu).to_owned();
    if !has_lit_at(s, name_start + nlu, "description:") {
        return Option::None;
    }
    let dl = match parse_num_field(s, name_start + nlu + 12) {
        Option::Some(v) => v,
        Option::None => {
            return Option::None;
        },
    };
    let desc_start = name_start + nlu + 12 + NUM_WIDTH;
    if dl > (n as u128) - (desc_start as u128) {
        return Option::None;
    }
    let dlu = dl as usize;
    let desc = s.substring_char(desc_start, desc_start + dlu).to_owned();
    if !has_lit_at(s, desc_start + dlu, "rule_type:") {
        return Option::None;
    }
    let tag_at = desc_start + dlu + 10;
    if tag_at >= n {
        return Option::None;
    }
    let tc = s.get_char(tag_at);
    let tl = match parse_num_field(s, tag_at + 1) {
        Option::Some(v) => v,
        Option::None => {
            return Option::None;
        },
    };
    let pay_start = tag_at + 1 + NUM_WIDTH;
    if tl > (n as u128) - (pay_start as u128) {
        return Option::None;
    }
    let tlu = tl as usize;
    let payload = s.substring_char(pay_start, pay_start + tlu).to_owned();
    let rule_type = if tc == 'B' {
        RuleType::BruteForce
    } else if tc == 'H' {
        RuleType::HighFrequencyRequest
    } else if tc == 'S' {
        RuleType::SuspiciousIp
    } else if tc == 'C' {
        RuleType::Custom(payload)
    } else {
        return Option::None;
    };
    if !has_lit_at(s, pay_start + tlu, "threshold:") {
        return Option::None;
    }
    let th_at = pay_start + tlu + 10;
    let th = match parse_num_field(s, th_at) {
        Option::Some(v) => v,
        Option::None => {
            return Option::None;
        },
    };
    if !has_lit_at(s, th_at + NUM_WIDTH, "time_window:") {
        return Option::None;
    }
    let tw_at = th_at + NUM_WIDTH + 12;
    let tw = match parse_num_field(s, tw_at) {
        Option::Some(v) => v,
        Option::None => {
            return Option::None;
        },
    };
    if th > (usize::MAX as u128) || tw > (u64::MAX as u128) {
        return Option::None;
    }
    let rule = Rule {
        name,
        description: desc,
        rule_type,
        threshold: th as usize,
        time_window_seconds: tw as u64,
    };
    Option::Some((rule, tw_at + NUM_WIDTH))
}

/// Deserializes one whole serialized rule string.
pub fn deserialize_rule(s: &str) -> (r: Option<Rule>)
    ensures
        (r is Some) <==> (spec_deserialize_rule(s@) is Some),
        r matches Option::Some(rr) ==> spec_deserialize_rule(s@) == Option::Some(rr@),
{
    let n = s.unicode_len();
    match parse_rule_field(s, 0) {
        Option::Some(p) => {
            if p.1 == n {
                Option::Some(p.0)
            } else {
                Option::None
            }
        },
        Option::None => Option::None,
    }
}

// ---------------------------------------------------------------------------
// Rule sets: a count followed by that many serialized rules.
// ---------------------------------------------------------------------------

pub open spec fn spec_serialize_rules(rs: Seq<RuleV>) -> Seq<char>
    decreases rs.len(),
{
    if rs.len() == 0 {
        Seq::empty()
    } else {
        spec_serialize_rules(rs.drop_last()) + spec_serialize_rule(rs.last())
    }
}

pub open spec fn spec_serialize_rule_set(rs: Seq<RuleV>) -> Seq<char> {
    ("rules:")@ + num_field(rs.len()) + spec_serialize_rules(rs)
}

/// Parses `cnt` serialized rules starting at `off`.
pub open spec fn parse_rules_from(s: Seq<char>, off: int, cnt: int) -> Option<(Seq<RuleV>, int)>
    decreases cnt,
{
    if cnt <= 0 {
        Option::Some((Seq::empty(), off))
    } else {
        match parse_rule_at(s, off) {
            Option::None => Option::None,
            Option::Some(p) => match parse_rules_from(s, p.1, cnt - 1) {
                Option::None => Option::None,
                Option::Some(q) => Option::Some((seq![p.0] + q.0, q.1)),
            },
        }
    }
}

/// The meaning of a serialized rule set.
pub open spec fn spec_parse_rule_set(s: Seq<char>) -> Option<Seq<RuleV>> {
    if !lit_at(s, 0, ("rules:")@) {
        Option::None
    } else {
        match parse_num_at(s, ("rules:")@.len() as int) {
            Option::None => Option::None,
            Option::Some(c) => match parse_rules_from(
                s,
                ("rules:")@.len() + NUM_WIDTH,
                c,
            ) {
                Option::None => Option::None,
                Option::Some(q) => if q.1 == s.len() {
                    Option::Some(q.0)
                } else {
                    Option::None
                },
            },
        }
    }
}

spec fn extend_parsed(prefix: Seq<RuleV>, r: Option<(Seq<RuleV>, int)>) -> Option<
    (Seq<RuleV>, int),
> {
    match r {
        Option::None => Option::None,
        Option::Some(q) => Option::Some((prefix + q.0, q.1)),
    }
}

/// Serializes a whole rule set for transport.
pub fn serialize_rule_set(rules: &Vec<Rule>) -> (out: String)
    ensures
        out@ == spec_serialize_rule_set(rules_view(rules@)),
{
    let ghost rsv = rules_view(rules@);
    let mut out = ("rules:").to_owned();
    let f = u64_to_dec_fixed(rules.len() as u64);
    out.append(f.as_str());
    let mut i: usize = 0;
    proof {
        assert(rsv.take(0) =~= Seq::<RuleV>::empty());
        assert(out@ + Seq::<char>::empty() =~= out@);
    }
    while i < rules.len()
        invariant
            i <= rules@.len(),
            rsv == rules_view(rules@),
            rsv.len() == rules@.len(),
            out@ == ("rules:")@ + num_field(rsv.len()) + spec_serialize_rules(rsv.take(i as int)),
        decreases rules@.len() - i,
    {
        proof {
            assert(rsv.take(i as int + 1).drop_last() =~= rsv.take(i as int));
            assert(rsv.take(i as int + 1).last() == rsv[i as int]);
            assert(rsv[i as int] == rules@[i as int]@);
        }
        let piece = serialize_rule(&rules[i]);
        let ghost before = out@;
        out.append(piece.as_str());
        proof {
            assert(out@ =~= ("rules:")@ + num_field(rsv.len()) + spec_serialize_rules(
                rsv.take(i as int + 1),
            ));
        }
        i = i + 1;
    }
    proof {
        assert(rsv.take(rsv.len() as int) =~= rsv);
    }
    out
}

/// Parses a serialized rule set and checks the rule invariant. The whole
/// load is rejected if the content is malformed (`Malformed`) or if any rule
/// violates the invariant (`Invalid`): a partial rule set would change
/// detection semantics silently.
pub fn parse_rule_set(content: &str) -> (r: Result<Vec<Rule>, RuleLoadError>)
    ensures
        (r is Ok) <==> (spec_parse_rule_set(content@) matches Option::Some(rs)
            && crate::models::rules_wf(rs)),
        r matches Result::Ok(v) ==> spec_parse_rule_set(content@) == Option::Some(
            rules_view(v@),
        ),
        spec_parse_rule_set(content@) is None ==> r matches Result::Err(
            RuleLoadError::Malformed(_),
        ),
        (spec_parse_rule_set(content@) matches Option::Some(rs) && !crate::models::rules_wf(rs))
            ==> r matches Result::Err(RuleLoadError::Invalid(_)),
{
    let n = content.unicode_len();
    if !has_lit_at(content, 0, "rules:") {
        return Result::Err(
            RuleLoadError::Malformed(("rule set does not begin with its field name").to_owned()),
        );
    }
    proof {
        reveal_strlit("rules:");
        assert(("rules:")@.len() == 6);
    }
    let cnt = match parse_num_field(content, 6) {
        Option::Some(v) => v,
        Option::None => {
            return Result::Err(
                RuleLoadError::Malformed(("rule set has no leading count").to_owned()),
            );
        },
    };
    let mut rules: Vec<Rule> = Vec::new();
    let mut cur: usize = 6 + NUM_WIDTH;
    let mut rem: u128 = cnt;
    proof {
        assert(parse_num_at(content@, ("rules:")@.len() as int) is Some);
        assert(6 + NUM_WIDTH <= content@.len());
        assert(rules_view(rules@) =~= Seq::<RuleV>::empty());
    }
    while rem > 0
        invariant
            cur <= content@.len(),
            content@.len() <= usize::MAX,
            rem <= cnt,
            lit_at(content@, 0, ("rules:")@),
            parse_num_at(content@, ("rules:")@.len() as int) == Option::Some(cnt as int),
            parse_rules_from(content@, ("rules:")@.len() + NUM_WIDTH, cnt as int) == extend_parsed(
                rules_view(rules@),
                parse_rules_from(content@, cur as int, rem as int),
            ),
        decreases rem,
    {
        match parse_rule_field(content, cur) {
            Option::Some(p) => {
                let (rule, next) = p;
                let ghost before = rules_view(rules@);
                proof {
                    match parse_rules_from(content@, next as int, rem as int - 1) {
                        Option::Some(q) => {
                            assert(before + (seq![rule@] + q.0) =~= before.push(rule@) + q.0);
                        },
                        Option::None => {},
                    }
                }
                rules.push(rule);
                proof {
                    assert(rules_view(rules@) =~= before.push(rules@.last()@));
                }
                cur = next;
                rem = rem - 1;
            },
            Option::None => {
                return Result::Err(
                    RuleLoadError::Malformed(("rule set entry does not parse").to_owned()),
                );
            },
        }
    }
    proof {
        assert(rules_view(rules@) + Seq::<RuleV>::empty() =~= rules_view(rules@));
    }
    if cur != n {
        return Result::Err(
            RuleLoadError::Malformed(("rule set has trailing content").to_owned()),
        );
    }
    let ghost rsv = rules_view(rules@);
    proof {
        assert(spec_parse_rule_set(content@) == Option::Some(rsv));
    }
    let mut i: usize = 0;
    while i < rules.len()
        invariant
            i <= rules@.len(),
            rsv == rules_view(rules@),
            rsv.len() == rules@.len(),
            spec_parse_rule_set(content@) == Option::Some(rsv),
            forall|k: int| 0 <= k < i ==> crate::models::rule_wf(#[trigger] rsv[k]),
        decreases rules@.len() - i,
    {
        if !rules[i].is_valid() {
            proof {
                assert(!crate::models::rule_wf(rsv[i as int]));
            }
            return Result::Err(
                RuleLoadError::Invalid(("a rule has a zero threshold").to_owned()),
            );
        }
        i = i + 1;
    }
    let mut a: usize = 0;
    while a < rules.len()
        invariant
            a <= rules@.len(),
            rsv == rules_view(rules@),
            rsv.len() == rules@.len(),
            spec_parse_rule_set(content@) == Option::Some(rsv),
            forall|k: int| 0 <= k < rsv.len() ==> crate::models::rule_wf(#[trigger] rsv[k]),
            forall|x: int, y: int|
                #![trigger rsv[x], rsv[y]]
                0 <= x < a && x < y < rsv.len() ==> rsv[x].name != rsv[y].name,
        decreases rules@.len() - a,
    {
        let mut b: usize = a + 1;
        while b < rules.len()
            invariant
                a < b <= rules@.len() || (a + 1 > rules@.len() && b == a + 1),
                a < rules@.len(),
                rsv == rules_view(rules@),
                rsv.len() == rules@.len(),
                spec_parse_rule_set(content@) == Option::Some(rsv),
                forall|y: int| a < y < b ==> rsv[a as int].name != #[trigger] rsv[y].name,
            decreases rules@.len() - b,
        {
            if rules[a].name == rules[b].name {
                proof {
                    assert(rsv[a as int].name == rsv[b as int].name);
                    assert(!crate::models::rule_names_unique(rsv));
                }
                return Result::Err(
                    RuleLoadError::Invalid(("two rules share one name").to_owned()),
                );
            }
            b = b + 1;
        }
        a = a + 1;
    }
    proof {
        assert(crate::models::rule_names_unique(rsv));
    }
    Result::Ok(rules)
}

/// Interprets the outcome of the external rule-generation collaborator: its
/// payload must be one serialized rule obeying the rule invariant.
pub fn accept_generated_rule(payload: &str) -> (r: Result<Rule, RuleLoadError>)
    ensures
        (r is Ok) <==> (spec_deserialize_rule(payload@) matches Option::Some(rv)
            && crate::models::rule_wf(rv)),
        r matches Result::Ok(rr) ==> spec_deserialize_rule(payload@) == Option::Some(rr@),
        spec_deserialize_rule(payload@) is None ==> r matches Result::Err(
            RuleLoadError::Malformed(_),
        ),
        (spec_deserialize_rule(payload@) matches Option::Some(rv) && !crate::models::rule_wf(rv))
            ==> r matches Result::Err(RuleLoadError::Invalid(_)),
{
    match deserialize_rule(payload) {
        Option::Some(rule) => {
            if rule.is_valid() {
                Result::Ok(rule)
            } else {
                Result::Err(RuleLoadError::Invalid(("generated rule has a zero threshold").to_owned()))
            }
        },
        Option::None => Result::Err(
            RuleLoadError::Malformed(("generated payload is not a serialized rule").to_owned()),
        ),
    }
}

} // verus!
