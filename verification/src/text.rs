use vstd::prelude::*;

verus! {

/// The character for one decimal digit.
pub open spec fn digit_char(d: int) -> char {
    if d == 0 {
        '0'
    } else if d == 1 {
        '1'
    } else if d == 2 {
        '2'
    } else if d == 3 {
        '3'
    } else if d == 4 {
        '4'
    } else if d == 5 {
        '5'
    } else if d == 6 {
        '6'
    } else if d == 7 {
        '7'
    } else if d == 8 {
        '8'
    } else {
        '9'
    }
}

pub open spec fn is_digit(c: char) -> bool {
    c == '0' || c == '1' || c == '2' || c == '3' || c == '4' || c == '5' || c == '6' || c == '7'
        || c == '8' || c == '9'
}

pub open spec fn digit_val(c: char) -> int {
    if c == '0' {
        0
    } else if c == '1' {
        1
    } else if c == '2' {
        2
    } else if c == '3' {
        3
    } else if c == '4' {
        4
    } else if c == '5' {
        5
    } else if c == '6' {
        6
    } else if c == '7' {
        7
    } else if c == '8' {
        8
    } else {
        9
    }
}

pub open spec fn all_digits(s: Seq<char>) -> bool {
    forall|i: int| 0 <= i < s.len() ==> is_digit(#[trigger] s[i])
}

/// Decimal rendering, most significant digit first, no leading zeros
/// (except for zero itself).
pub open spec fn dec_render(n: nat) -> Seq<char>
    decreases n,
{
    if n < 10 {
        seq![digit_char(n as int)]
    } else {
        dec_render(n / 10).push(digit_char((n % 10) as int))
    }
}

/// The number a digit string denotes, most significant digit first.
pub open spec fn dec_val(s: Seq<char>) -> int
    decreases s.len(),
{
    if s.len() == 0 {
        0
    } else {
        10 * dec_val(s.drop_last()) + digit_val(s.last())
    }
}

/// Fixed-width decimal rendering, zero-padded on the left.
pub open spec fn dec_render_fixed(n: nat, w: nat) -> Seq<char>
    decreases w,
{
    if w == 0 {
        Seq::empty()
    } else {
        dec_render_fixed(n / 10, (w - 1) as nat).push(digit_char((n % 10) as int))
    }
}

pub open spec fn pow10(w: nat) -> nat
    decreases w,
{
    if w == 0 {
        1
    } else {
        10 * pow10((w - 1) as nat)
    }
}

/// Width used for every number inside the serialized rule format: wide enough
/// for any 64-bit count.
pub const NUM_WIDTH: usize = 20;

pub proof fn lemma_dec_val_bound(s: Seq<char>)
    requires
        all_digits(s),
    ensures
        0 <= dec_val(s) < pow10(s.len()),
    decreases s.len(),
{
    if s.len() > 0 {
        assert(all_digits(s.drop_last())) by {
            assert(forall|i: int|
                0 <= i < s.drop_last().len() ==> s.drop_last()[i] == #[trigger] s[i]);
        }
        lemma_dec_val_bound(s.drop_last());
        assert(is_digit(s.last()));
    }
}

pub proof fn lemma_dec_render_ok(n: nat)
    ensures
        dec_val(dec_render(n)) == n,
        all_digits(dec_render(n)),
        dec_render(n).len() >= 1,
    decreases n,
{
    if n < 10 {
        let s = dec_render(n);
        assert(s.drop_last() =~= Seq::<char>::empty());
        assert(dec_val(s) == 10 * dec_val(s.drop_last()) + digit_val(s.last()));
        assert(digit_val(digit_char(n as int)) == n);
    } else {
        lemma_dec_render_ok(n / 10);
        let s = dec_render(n);
        assert(s.drop_last() =~= dec_render(n / 10));
        assert(dec_val(s) == 10 * dec_val(dec_render(n / 10)) + digit_val(s.last()));
        assert(digit_val(digit_char((n % 10) as int)) == n % 10);
        vstd::arithmetic::div_mod::lemma_fundamental_div_mod(n as int, 10);
    }
}

pub proof fn lemma_dec_render_fixed_ok(n: nat, w: nat)
    requires
        n < pow10(w),
    ensures
        dec_val(dec_render_fixed(n, w)) == n,
        all_digits(dec_render_fixed(n, w)),
        dec_render_fixed(n, w).len() == w,
    decreases w,
{
    if w > 0 {
        assert(n / 10 < pow10((w - 1) as nat)) by {
            vstd::arithmetic::div_mod::lemma_fundamental_div_mod(n as int, 10);
        }
        lemma_dec_render_fixed_ok(n / 10, (w - 1) as nat);
        let s = dec_render_fixed(n, w);
        assert(s.drop_last() =~= dec_render_fixed(n / 10, (w - 1) as nat));
        vstd::arithmetic::div_mod::lemma_fundamental_div_mod(n as int, 10);
    } else {
        assert(dec_render_fixed(n, w) =~= Seq::<char>::empty());
    }
}

fn digit_str(d: u64) -> (r: &'static str)
    requires
        d < 10,
    ensures
        r@ =~= seq![digit_char(d as int)],
{
    proof {
        reveal_strlit("0");
        reveal_strlit("1");
        reveal_strlit("2");
        reveal_strlit("3");
        reveal_strlit("4");
        reveal_strlit("5");
        reveal_strlit("6");
        reveal_strlit("7");
        reveal_strlit("8");
        reveal_strlit("9");
    }
    if d == 0 {
        "0"
    } else if d == 1 {
        "1"
    } else if d == 2 {
        "2"
    } else if d == 3 {
        "3"
    } else if d == 4 {
        "4"
    } else if d == 5 {
        "5"
    } else if d == 6 {
        "6"
    } else if d == 7 {
        "7"
    } else if d == 8 {
        "8"
    } else {
        "9"
    }
}

/// Renders a u64 in decimal, shortest form.
pub fn u64_to_dec(n: u64) -> (r: String)
    ensures
        r@ == dec_render(n as nat),
    decreases n,
{
    if n < 10 {
        digit_str(n).to_owned()
    } else {
        let mut s = u64_to_dec(n / 10);
        s.append(digit_str(n % 10));
        assert(s@ =~= dec_render(n as nat));
        s
    }
}

/// Renders a u64 in decimal, zero-padded to `NUM_WIDTH` digits.
pub fn u64_to_dec_fixed(n: u64) -> (r: String)
    ensures
        r@ == dec_render_fixed(n as nat, NUM_WIDTH as nat),
{
    let mut s = String::new();
    let mut w: usize = 0;
    let mut digits: Vec<u64> = Vec::new();
    let mut m: u64 = n;
    // Collect the digits least significant first, then emit them reversed.
    while w < NUM_WIDTH
        invariant
            w <= NUM_WIDTH,
            digits@.len() == w,
            forall|i: int| 0 <= i < w ==> #[trigger] digits@[i] < 10,
            dec_render_fixed(n as nat, NUM_WIDTH as nat) == dec_render_fixed(
                m as nat,
                (NUM_WIDTH - w) as nat,
            ) + Seq::new(w as nat, |i: int| digit_char(digits@[w - 1 - i] as int)),
        decreases NUM_WIDTH - w,
    {
        proof {
            let rest = (NUM_WIDTH - w) as nat;
            assert(dec_render_fixed(m as nat, rest) =~= dec_render_fixed(
                (m / 10) as nat,
                (rest - 1) as nat,
            ).push(digit_char((m % 10) as int)));
            assert(dec_render_fixed((m / 10) as nat, (rest - 1) as nat).push(
                digit_char((m % 10) as int),
            ) + Seq::new(w as nat, |i: int| digit_char(digits@[w - 1 - i] as int))
                =~= dec_render_fixed((m / 10) as nat, (rest - 1) as nat) + Seq::new(
                (w + 1) as nat,
                |i: int| digit_char(digits@.push(m % 10)[w - i] as int),
            ));
        }
        digits.push(m % 10);
        m = m / 10;
        w = w + 1;
    }
    let mut k: usize = NUM_WIDTH;
    while k > 0
        invariant
            k <= NUM_WIDTH,
            digits@.len() == NUM_WIDTH,
            forall|i: int| 0 <= i < NUM_WIDTH ==> #[trigger] digits@[i] < 10,
            dec_render_fixed(n as nat, NUM_WIDTH as nat) == Seq::new(
                NUM_WIDTH as nat,
                |i: int| digit_char(digits@[NUM_WIDTH - 1 - i] as int),
            ),
            s@ =~= Seq::new(
                NUM_WIDTH as nat,
                |i: int| digit_char(digits@[NUM_WIDTH - 1 - i] as int),
            ).take((NUM_WIDTH - k) as int),
        decreases k,
    {
        let d = digits[k - 1];
        s.append(digit_str(d));
        k = k - 1;
        assert(s@ =~= Seq::new(
            NUM_WIDTH as nat,
            |i: int| digit_char(digits@[NUM_WIDTH - 1 - i] as int),
        ).take((NUM_WIDTH - k) as int));
    }
    proof {
        assert(s@ =~= dec_render_fixed(n as nat, NUM_WIDTH as nat));
    }
    s
}

/// Renders a usize in decimal, shortest form.
pub fn usize_to_dec(n: usize) -> (r: String)
    ensures
        r@ == dec_render(n as nat),
{
    proof {
        assert(n as nat == (n as u64) as nat);
    }
    u64_to_dec(n as u64)
}

/// Renders a signed timestamp in decimal, with a leading minus sign when
/// negative.
pub fn i64_to_dec(t: i64) -> (r: String)
    ensures
        t >= 0 ==> r@ == dec_render(t as nat),
        t < 0 ==> r@ == seq!['-'] + dec_render((-(t as int)) as nat),
{
    if t >= 0 {
        u64_to_dec(t as u64)
    } else {
        // Avoid overflow at i64::MIN: negate t + 1, which always fits, then
        // add the one back on the unsigned side.
        let mag: u64 = ((-(t + 1)) as u64) + 1;
        proof {
            reveal_strlit("-");
        }
        let mut s = ("-").to_owned();
        let rest = u64_to_dec(mag);
        s.append(rest.as_str());
        assert(s@ =~= seq!['-'] + dec_render((-(t as int)) as nat));
        s
    }
}

} // verus!
