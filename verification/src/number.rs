//! Numbers as decimal text, and decimal text as numbers.

use vstd::prelude::*;
use vstd::string::*;

use crate::text;

verus! {

/// The character of the digit `d`.
pub open spec fn digit(d: nat) -> char {
    (48 + d) as char
}

/// `n` in decimal, without leading zeros.
pub open spec fn dec(n: nat) -> Seq<char>
    decreases n,
{
    if n < 10 {
        seq![digit(n)]
    } else {
        dec(n / 10).push(digit(n % 10))
    }
}

/// `n` in decimal, with a zero in front where it has one digit only.
pub open spec fn dec2(n: nat) -> Seq<char> {
    if n < 10 {
        seq!['0'] + dec(n)
    } else {
        dec(n)
    }
}

/// `n` in decimal, with a minus sign in front where it is negative.
pub open spec fn signed_dec(n: int) -> Seq<char> {
    if n < 0 {
        seq!['-'] + dec((-n) as nat)
    } else {
        dec(n as nat)
    }
}

fn digit_char(d: u64) -> (r: char)
    requires
        d < 10,
    ensures
        r == digit(d as nat),
{
    (48 + d as u8) as char
}

/// `n` in decimal.
pub fn dec_text(n: u64) -> (r: String)
    ensures
        r@ == dec(n as nat),
    decreases n,
{
    let mut out = if n < 10 {
        String::new()
    } else {
        dec_text(n / 10)
    };
    out.push(digit_char(n % 10));
    proof {
        assert(Seq::<char>::empty().push(digit(n as nat)) =~= seq![digit(n as nat)]);
    }
    out
}

/// `n` in decimal.
pub fn size_text(n: usize) -> (r: String)
    ensures
        r@ == dec(n as nat),
{
    dec_text(n as u64)
}

/// `n` in decimal with at least two digits.
pub fn dec2_text(n: u64) -> (r: String)
    ensures
        r@ == dec2(n as nat),
{
    if n < 10 {
        let mut out = String::new();
        out.push('0');
        out.append(dec_text(n).as_str());
        proof {
            assert(Seq::<char>::empty().push('0') =~= seq!['0']);
        }
        out
    } else {
        dec_text(n)
    }
}

/// `n` in decimal with its sign.
pub fn signed_text(n: i64) -> (r: String)
    ensures
        r@ == signed_dec(n as int),
{
    if n < 0 {
        let mut out = String::new();
        out.push('-');
        let size: u64 = (-(n as i128)) as u64;
        out.append(dec_text(size).as_str());
        proof {
            assert(Seq::<char>::empty().push('-') =~= seq!['-']);
        }
        out
    } else {
        dec_text(n as u64)
    }
}

// ─── Reading ───────────────────────────────────────────────────────────

/// Whether `c` is one of the ten ASCII digits.
pub open spec fn is_digit(c: char) -> bool {
    '0' <= c <= '9'
}

/// The value of the digit `c`.
pub open spec fn digit_value(c: char) -> nat {
    (c as int - 48) as nat
}

/// `s` is made of ASCII digits only.
pub open spec fn all_digits(s: Seq<char>) -> bool {
    forall|i: int| 0 <= i < s.len() ==> is_digit(#[trigger] s[i])
}

/// What the digits of `s` stand for.
pub open spec fn value_of(s: Seq<char>) -> nat
    decreases s.len(),
{
    if s.len() == 0 {
        0
    } else {
        value_of(s.drop_last()) * 10 + digit_value(s.last())
    }
}

/// `s` without a leading plus sign.
pub open spec fn unsigned_part(s: Seq<char>) -> Seq<char> {
    if s.len() > 0 && s[0] == '+' {
        s.skip(1)
    } else {
        s
    }
}

/// The number that `s` spells: at least one digit, with a plus sign in front if
/// any, and no more than `max`.
pub open spec fn number_of(s: Seq<char>, max: nat) -> Option<nat> {
    let d = unsigned_part(s);
    if d.len() > 0 && all_digits(d) && value_of(d) <= max {
        Some(value_of(d))
    } else {
        None
    }
}

proof fn lemma_value_grows(s: Seq<char>, i: int)
    requires
        0 <= i <= s.len(),
    ensures
        value_of(s.take(i)) <= value_of(s),
    decreases s.len(),
{
    if i == s.len() {
        assert(s.take(i) =~= s);
    } else {
        lemma_value_grows(s.drop_last(), i);
        assert(s.drop_last().take(i) =~= s.take(i));
    }
}

/// The number that `s` spells, if it is one and fits.
pub fn parse_number(s: &str) -> (r: Option<u64>)
    ensures
        match r {
            Some(n) => number_of(s@, u64::MAX as nat) == Some(n as nat),
            None => number_of(s@, u64::MAX as nat) is None,
        },
{
    let chars = text::chars_of(s);
    let len: usize = chars.len();
    let from: usize = if len > 0 && chars[0] == '+' {
        1
    } else {
        0
    };
    let ghost d = unsigned_part(s@);
    proof {
        assert(s@.skip(from as int) =~= d);
        assert(d.take(0) =~= Seq::<char>::empty());
    }
    if from == len {
        return None;
    }
    let mut n: u64 = 0;
    let mut i: usize = from;
    while i < len
        invariant
            from <= i <= len,
            chars@ == s@,
            len == s@.len(),
            d == s@.skip(from as int),
            d == unsigned_part(s@),
            d.len() == len - from,
            d.len() > 0,
            n == value_of(d.take(i - from)),
            forall|j: int| 0 <= j < i - from ==> is_digit(#[trigger] d[j]),
        decreases len - i,
    {
        let c: char = chars[i];
        proof {
            assert(d[i - from] == c);
        }
        if !('0' <= c && c <= '9') {
            return None;
        }
        let v: u64 = (c as u32 - 48) as u64;
        proof {
            let t = d.take(i + 1 - from);
            assert(t.drop_last() =~= d.take(i - from));
            assert(t.last() == c);
            lemma_value_grows(d, i + 1 - from);
        }
        n = match n.checked_mul(10) {
            Some(m) => match m.checked_add(v) {
                Some(k) => k,
                None => return None,
            },
            None => return None,
        };
        i = i + 1;
    }
    proof {
        assert(d.take(d.len() as int) =~= d);
    }
    Some(n)
}

/// The number that `s` spells, if it is one and fits a `usize`.
pub fn parse_size(s: &str) -> (r: Option<usize>)
    ensures
        match r {
            Some(n) => number_of(s@, usize::MAX as nat) == Some(n as nat),
            None => number_of(s@, usize::MAX as nat) is None,
        },
{
    match parse_number(s) {
        Some(n) => if n <= usize::MAX as u64 {
            Some(n as usize)
        } else {
            None
        },
        None => None,
    }
}

// ─── Laws ──────────────────────────────────────────────────────────────

/// Reading a number that was written gives it back.
pub proof fn law_reads_what_it_writes(n: nat, max: nat)
    requires
        n <= max,
    ensures
        number_of(dec(n), max) == Some(n),
        number_of(dec2(n), max) == Some(n),
        dec2(n).len() >= 2,
{
    lemma_dec(n);
    let d = dec2(n);
    if n < 10 {
        assert(d =~= seq!['0', digit(n)]);
        assert(d.drop_last() =~= seq!['0']);
        assert(seq!['0'].drop_last() =~= Seq::<char>::empty());
        reveal_with_fuel(value_of, 3);
    } else {
        lemma_dec(n / 10);
    }
}

proof fn lemma_dec(n: nat)
    ensures
        dec(n).len() > 0,
        all_digits(dec(n)),
        value_of(dec(n)) == n,
        dec(n)[0] != '+',
    decreases n,
{
    if n < 10 {
        assert(dec(n).drop_last() =~= Seq::<char>::empty());
        assert(value_of(Seq::<char>::empty()) == 0);
    } else {
        lemma_dec(n / 10);
        assert(dec(n).drop_last() =~= dec(n / 10));
    }
}

/// A number below ten is its digit, and any other goes on with one digit behind
/// the number of its tens.
pub proof fn law_decimal_digits(tens: nat, d: nat)
    requires
        d < 10,
    ensures
        dec(d) == seq!["0123456789"@[d as int]],
        tens > 0 ==> dec(10 * tens + d) == dec(tens).push("0123456789"@[d as int]),
        dec2(d) == seq!['0', "0123456789"@[d as int]],
        tens > 0 ==> dec2(10 * tens + d) == dec(10 * tens + d),
        signed_dec(d as int) == dec(d),
        tens > 0 ==> signed_dec(-(tens as int)) == seq!['-'] + dec(tens),
        tens > 0 ==> signed_dec(tens as int) == dec(tens),
{
    reveal_strlit("0123456789");
    let all = "0123456789"@;
    assert(all[0] == '0' && all[1] == '1' && all[2] == '2' && all[3] == '3' && all[4] == '4');
    assert(all[5] == '5' && all[6] == '6' && all[7] == '7' && all[8] == '8' && all[9] == '9');
    assert(digit(d) == all[d as int]);
    assert(dec2(d) =~= seq!['0', digit(d)]);
}

/// A text of digits stands for what its digits say, with or without a plus sign;
/// nothing else spells a number, and no number above the largest is spelled.
pub proof fn law_digits_spell_a_number(s: Seq<char>, d: nat, max: nat)
    requires
        d < 10,
        s.len() > 0 ==> number_of(s, max) is Some && s[0] != '+',
    ensures
        ({
            let before = if s.len() == 0 {
                0
            } else {
                number_of(s, max)->0
            };
            let more = s.push("0123456789"@[d as int]);
            let value = before * 10 + d;
            &&& value <= max ==> number_of(more, max) == Some(value)
            &&& value > max ==> number_of(more, max) is None
            &&& number_of(seq!['+'] + more, max) == number_of(more, max)
        }),
{
    reveal_strlit("0123456789");
    let all = "0123456789"@;
    assert(all[0] == '0' && all[1] == '1' && all[2] == '2' && all[3] == '3' && all[4] == '4');
    assert(all[5] == '5' && all[6] == '6' && all[7] == '7' && all[8] == '8' && all[9] == '9');
    let c = all[d as int];
    assert(c == digit(d));
    let more = s.push(c);
    assert(more.drop_last() =~= s);
    assert(is_digit(c));
    assert(all_digits(more)) by {
        assert(all_digits(s));
    }
    assert((seq!['+'] + more).skip(1) =~= more);
    assert(more[0] != '+');
}

/// A text that holds anything but digits behind its sign, or none, spells no
/// number.
pub proof fn law_other_text_spells_no_number(s: Seq<char>, i: int, max: nat)
    requires
        s.len() == 0 || s == seq!['+'] || (0 <= i < s.len() && (i > 0 || s[0] != '+') && !(48
            <= s[i] as u32 <= 57)),
    ensures
        number_of(s, max) is None,
{
    let d = unsigned_part(s);
    if s.len() > 0 && s[0] == '+' {
        assert(d =~= s.skip(1));
        if s.len() > 1 {
            assert(d[i - 1] == s[i]);
        }
    } else if s.len() > 0 {
        assert(d[i] == s[i]);
    }
}

} // verus!
