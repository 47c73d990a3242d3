//! Numbers as text: the integers that a text spells, and their digits.

use vstd::prelude::*;

verus! {

/// The value of a digit in a base up to sixteen.
pub open spec fn digit_value(c: char, radix: nat) -> Option<nat> {
    let value: int = if '0' <= c <= '9' {
        c as int - '0' as int
    } else if 'a' <= c <= 'f' {
        c as int - 'a' as int + 10
    } else if 'A' <= c <= 'F' {
        c as int - 'A' as int + 10
    } else {
        radix as int
    };
    if value < radix {
        Some(value as nat)
    } else {
        None
    }
}

/// The value of a string of digits; nothing where some character is no digit.
pub open spec fn digits_value(s: Seq<char>, radix: nat) -> Option<nat>
    decreases s.len(),
{
    if s.len() == 0 {
        Some(0)
    } else {
        match (digits_value(s.drop_last(), radix), digit_value(s.last(), radix)) {
            (Some(head), Some(digit)) => Some(head * radix + digit),
            _ => None,
        }
    }
}

/// The digits of a number behind one plus sign, if it has one.
pub open spec fn after_plus(s: Seq<char>) -> Seq<char> {
    if s.len() > 0 && s[0] == '+' {
        s.skip(1)
    } else {
        s
    }
}

/// The natural number that a text spells: at least one digit, and one plus sign
/// before them at most.
pub open spec fn natural_text(s: Seq<char>, radix: nat) -> Option<nat> {
    if after_plus(s).len() == 0 {
        None
    } else {
        digits_value(after_plus(s), radix)
    }
}

/// The integer that a decimal text spells, with one sign at most.
pub open spec fn integer_text(s: Seq<char>) -> Option<int> {
    if s.len() > 0 && s[0] == '-' {
        if s.len() == 1 {
            None
        } else {
            match digits_value(s.skip(1), 10) {
                Some(n) => Some(-(n as int)),
                None => None,
            }
        }
    } else {
        match natural_text(s, 10) {
            Some(n) => Some(n as int),
            None => None,
        }
    }
}

proof fn lemma_prefix_value(s: Seq<char>, i: int, radix: nat)
    requires
        0 <= i <= s.len(),
        radix >= 1,
        digits_value(s, radix) is Some,
    ensures
        digits_value(s.take(i), radix) is Some,
        digits_value(s.take(i), radix)->0 <= digits_value(s, radix)->0,
    decreases s.len() - i,
{
    if i == s.len() {
        assert(s.take(i) =~= s);
    } else {
        lemma_prefix_value(s, i + 1, radix);
        assert(s.take(i + 1).drop_last() =~= s.take(i));
        let head = digits_value(s.take(i), radix)->0;
        assert(head <= head * radix) by (nonlinear_arith)
            requires
                radix >= 1,
        ;
    }
}

/// The value of a digit.
pub fn digit(c: char, radix: u32) -> (value: Option<u32>)
    requires
        radix <= 16,
    ensures
        match value {
            Some(v) => digit_value(c, radix as nat) == Some(v as nat),
            None => digit_value(c, radix as nat) is None,
        },
{
    let code: u32 = c as u32;
    let value: u32 = if '0' <= c && c <= '9' {
        code - 48
    } else if 'a' <= c && c <= 'f' {
        code - 97 + 10
    } else if 'A' <= c && c <= 'F' {
        code - 65 + 10
    } else {
        radix
    };
    if value < radix {
        Some(value)
    } else {
        None
    }
}

/// The value of a string of digits, where it is at most `max`.
pub fn parse_digits(s: &[char], radix: u32, max: u64) -> (value: Option<u64>)
    requires
        1 <= radix <= 16,
    ensures
        match value {
            Some(v) => digits_value(s@, radix as nat) == Some(v as nat) && v <= max,
            None => digits_value(s@, radix as nat) is None || digits_value(s@, radix as nat)->0
                > max,
        },
{
    let mut value: u64 = 0;
    let mut i: usize = 0;
    assert(s@.take(0) =~= Seq::<char>::empty());
    while i < s.len()
        invariant
            1 <= radix <= 16,
            i <= s@.len(),
            value <= max,
            digits_value(s@.take(i as int), radix as nat) == Some(value as nat),
        decreases s@.len() - i,
    {
        proof {
            if digits_value(s@, radix as nat) is Some {
                lemma_prefix_value(s@, i + 1, radix as nat);
            }
            assert(s@.take(i + 1).drop_last() =~= s@.take(i as int));
            assert(s@.take(i + 1).last() == s@[i as int]);
        }
        let d: u64 = match digit(s[i], radix) {
            Some(d) => d as u64,
            None => {
                return None;
            },
        };
        let scaled: u64 = match value.checked_mul(radix as u64) {
            Some(scaled) => scaled,
            None => {
                return None;
            },
        };
        let next: u64 = match scaled.checked_add(d) {
            Some(next) => next,
            None => {
                return None;
            },
        };
        if next > max {
            return None;
        }
        value = next;
        i = i + 1;
    }
    assert(s@.take(i as int) =~= s@);
    Some(value)
}

/// The natural number that a text spells, where it is at most `max`.
pub fn parse_natural(s: &[char], radix: u32, max: u64) -> (value: Option<u64>)
    requires
        1 <= radix <= 16,
    ensures
        match value {
            Some(v) => natural_text(s@, radix as nat) == Some(v as nat) && v <= max,
            None => natural_text(s@, radix as nat) is None || natural_text(s@, radix as nat)->0
                > max,
        },
{
    let from: usize = if s.len() > 0 && s[0] == '+' {
        1
    } else {
        0
    };
    let body = crate::text::cut(s, from, s.len());
    assert(body@ =~= after_plus(s@));
    if body.len() == 0 {
        return None;
    }
    parse_digits(&body, radix, max)
}

/// Whether a decimal text spells an integer between `-negative` and `positive`.
pub fn spells_integer(s: &[char], negative: u64, positive: u64) -> (answer: bool)
    ensures
        answer == (integer_text(s@) matches Some(n) && -negative <= n <= positive),
{
    if s.len() > 0 && s[0] == '-' {
        if s.len() == 1 {
            return false;
        }
        let body = crate::text::cut(s, 1, s.len());
        assert(body@ =~= s@.skip(1));
        return parse_digits(&body, 10, negative).is_some();
    }
    parse_natural(s, 10, positive).is_some()
}

/// A hexadecimal digit.
pub open spec fn hex_digit(n: nat) -> char {
    if n < 10 {
        ('0' as u32 + n) as char
    } else {
        ('a' as u32 + (n - 10)) as char
    }
}

/// A number in lower-case hexadecimal, with no digit for zero.
pub open spec fn hex_digits(n: nat) -> Seq<char>
    decreases n,
{
    if n == 0 {
        Seq::empty()
    } else {
        hex_digits(n / 16).push(hex_digit(n % 16))
    }
}

/// A string behind as many zeros as fill it to `width`.
pub open spec fn zero_filled(s: Seq<char>, width: nat) -> Seq<char> {
    if s.len() >= width {
        s
    } else {
        Seq::new((width - s.len()) as nat, |i: int| '0') + s
    }
}

/// A number in lower-case hexadecimal, filled with zeros to at least `width`
/// digits.
pub open spec fn hex_text(n: nat, width: nat) -> Seq<char> {
    zero_filled(hex_digits(n), width)
}

/// One hexadecimal digit.
fn hex_char(d: u8) -> (c: char)
    requires
        d < 16,
    ensures
        c == hex_digit(d as nat),
{
    if d < 10 {
        (48 + d) as char
    } else {
        (87 + d) as char
    }
}

fn hex_of(n: u64) -> (out: Vec<char>)
    ensures
        out@ == hex_digits(n as nat),
    decreases n,
{
    if n == 0 {
        return Vec::new();
    }
    let mut out = hex_of(n / 16);
    out.push(hex_char((n % 16) as u8));
    out
}

/// A number in lower-case hexadecimal, filled with zeros to at least `width`
/// digits.
pub fn hex(n: u64, width: usize) -> (out: Vec<char>)
    ensures
        out@ == hex_text(n as nat, width as nat),
{
    let digits = hex_of(n);
    if digits.len() >= width {
        return digits;
    }
    let mut out: Vec<char> = Vec::new();
    let fill: usize = width - digits.len();
    while out.len() < fill
        invariant
            out@.len() <= fill,
            forall|i: int| 0 <= i < out@.len() ==> out@[i] == '0',
        decreases fill - out@.len(),
    {
        out.push('0');
    }
    assert(out@ =~= Seq::new(fill as nat, |i: int| '0'));
    crate::text::joined(&out, &digits)
}

/// A number in decimal.
pub open spec fn decimal_text(n: nat) -> Seq<char>
    decreases n,
{
    if n < 10 {
        seq![hex_digit(n)]
    } else {
        decimal_text(n / 10).push(hex_digit(n % 10))
    }
}

fn decimal_chars(n: u128) -> (out: Vec<char>)
    ensures
        out@ == decimal_text(n as nat),
    decreases n,
{
    if n < 10 {
        let mut out: Vec<char> = Vec::new();
        out.push(hex_char(n as u8));
        assert(out@ =~= seq![hex_digit(n as nat)]);
        return out;
    }
    let mut out = decimal_chars(n / 10);
    out.push(hex_char((n % 10) as u8));
    out
}

/// A number in decimal.
pub fn decimal(n: u64) -> (out: String)
    ensures
        out@ == decimal_text(n as nat),
{
    crate::text::string_of(&decimal_chars(n as u128))
}

/// A large number in decimal.
pub fn decimal_large(n: u128) -> (out: String)
    ensures
        out@ == decimal_text(n as nat),
{
    crate::text::string_of(&decimal_chars(n))
}

/// An integer in decimal.
pub open spec fn signed_text(n: int) -> Seq<char> {
    if n < 0 {
        seq!['-'] + decimal_text((-n) as nat)
    } else {
        decimal_text(n as nat)
    }
}

/// An integer in decimal.
pub fn signed_decimal(n: i64) -> (out: String)
    ensures
        out@ == signed_text(n as int),
{
    if n < 0 {
        let digits = decimal_chars((-(n as i128)) as u128);
        let mut out: Vec<char> = Vec::new();
        out.push('-');
        assert(out@ =~= seq!['-']);
        crate::text::string_of(&crate::text::joined(&out, &digits))
    } else {
        crate::text::string_of(&decimal_chars(n as u128))
    }
}

proof fn lemma_digit_char(d: nat)
    requires
        d < 16,
    ensures
        digit_value(hex_digit(d), 16) == Some(d),
        d < 10 ==> digit_value(hex_digit(d), 10) == Some(d) && '0' <= hex_digit(d) <= '9',
        hex_digit(d) != '+' && hex_digit(d) != '-',
{
}

/// The digits of a base: `0` to `9` count from nought, and in base sixteen `a` to `f`, of
/// either case, go on from ten. No other character is a digit.
pub proof fn law_digits(c: char, radix: nat)
    requires
        radix == 10 || radix == 16,
    ensures
        '0' <= c <= '9' ==> digit_value(c, radix) == Some((c as int - 0x30) as nat),
        radix == 16 && 'a' <= c <= 'f' ==> digit_value(c, radix) == Some((c as int - 0x57) as nat),
        radix == 16 && 'A' <= c <= 'F' ==> digit_value(c, radix) == Some((c as int - 0x37) as nat),
        digit_value(c, radix) is Some ==> '0' <= c <= '9' || (radix == 16 && ('a' <= c <= 'f' || 'A'
            <= c <= 'F')),
{
}

/// A text of digits is a number in its base: each further digit multiplies what stands
/// before it by the base and adds itself; a character that is no digit spoils it. A plus
/// sign may stand before them, and a minus sign makes the number negative.
pub proof fn law_text_is_positional(s: Seq<char>, c: char, radix: nat)
    ensures
        digits_value(seq![], radix) == Some(0nat),
        digits_value(s.push(c), radix) == (match (digits_value(s, radix), digit_value(c, radix)) {
            (Some(head), Some(digit)) => Some(head * radix + digit),
            _ => None,
        }),
        natural_text(seq![], radix) is None,
        s.len() > 0 && s[0] != '+' ==> natural_text(s, radix) == digits_value(s, radix),
        s.len() > 0 ==> natural_text(seq!['+'] + s, radix) == digits_value(s, radix),
        natural_text(seq!['+'], radix) is None,
        s.len() > 0 ==> integer_text(seq!['-'] + s) == (match digits_value(s, 10) {
            Some(n) => Some(-(n as int)),
            None => None,
        }),
        s.len() > 0 && s[0] != '-' ==> integer_text(s) == (match natural_text(s, 10) {
            Some(n) => Some(n as int),
            None => None,
        }),
        integer_text(seq!['-']) is None,
{
    assert(s.push(c).drop_last() =~= s);
    assert((seq!['+'] + s).skip(1) =~= s);
    assert((seq!['-'] + s).skip(1) =~= s);
    assert(seq!['+'].skip(1).len() == 0);
}

/// A number's decimal text reads back as that number, and is the shortest that does: it has
/// digits only, and no zero before others. A negative number's has one minus sign.
pub proof fn law_decimal_reads_back(n: nat)
    ensures
        natural_text(decimal_text(n), 10) == Some(n),
        integer_text(signed_text(n as int)) == Some(n as int),
        n > 0 ==> integer_text(signed_text(-(n as int))) == Some(-(n as int)),
        decimal_text(n).len() > 0,
        forall|i: int|
            0 <= i < decimal_text(n).len() ==> '0' <= #[trigger] decimal_text(n)[i] && decimal_text(
                n,
            )[i] <= '9',
        n > 0 ==> decimal_text(n)[0] != '0',
        n == 0 ==> decimal_text(n).len() == 1,
{
    lemma_decimal(n);
    let s = decimal_text(n);
    assert('0' <= s[0]);
    if n > 0 {
        assert((seq!['-'] + s).skip(1) =~= s);
        assert((seq!['-'] + s)[0] == '-');
    }
}

proof fn lemma_decimal(n: nat)
    ensures
        digits_value(decimal_text(n), 10) == Some(n),
        decimal_text(n).len() > 0,
        forall|i: int|
            0 <= i < decimal_text(n).len() ==> '0' <= #[trigger] decimal_text(n)[i] && decimal_text(
                n,
            )[i] <= '9',
        n > 0 ==> decimal_text(n)[0] != '0',
        n == 0 ==> decimal_text(n).len() == 1,
    decreases n,
{
    reveal_with_fuel(digits_value, 2);
    lemma_digit_char(n % 10);
    if n < 10 {
        assert(decimal_text(n).drop_last() =~= Seq::<char>::empty());
        assert(decimal_text(n).last() == hex_digit(n));
    } else {
        lemma_decimal(n / 10);
        let head = decimal_text(n / 10);
        assert(decimal_text(n).drop_last() =~= head);
        assert(decimal_text(n)[0] == head[0]);
    }
}

/// A number's hexadecimal text reads back as that number, has at least the width that was
/// asked for, and is filled with zeros up to it only.
pub proof fn law_hex_reads_back(n: nat, width: nat)
    ensures
        digits_value(hex_text(n, width), 16) == Some(n),
        hex_text(n, width).len() >= width,
        hex_text(n, width).len() > width ==> hex_text(n, width)[0] != '0',
        forall|i: int|
            0 <= i < hex_text(n, width).len() ==> {
                let c = #[trigger] hex_text(n, width)[i];
                '0' <= c <= '9' || 'a' <= c <= 'f'
            },
{
    lemma_hex(n);
    let s = hex_digits(n);
    if s.len() < width {
        let k = (width - s.len()) as nat;
        lemma_zeros(k, s);
        assert(hex_text(n, width) =~= Seq::new(k, |i: int| '0') + s);
    }
}

proof fn lemma_hex(n: nat)
    ensures
        digits_value(hex_digits(n), 16) == Some(n),
        n > 0 ==> hex_digits(n).len() > 0 && hex_digits(n)[0] != '0',
        forall|i: int|
            0 <= i < hex_digits(n).len() ==> {
                let c = #[trigger] hex_digits(n)[i];
                '0' <= c <= '9' || 'a' <= c <= 'f'
            },
    decreases n,
{
    if n > 0 {
        lemma_hex(n / 16);
        lemma_digit_char(n % 16);
        let head = hex_digits(n / 16);
        assert(hex_digits(n).drop_last() =~= head);
        if n / 16 > 0 {
            assert(hex_digits(n)[0] == head[0]);
        }
    }
}

proof fn lemma_zeros(k: nat, s: Seq<char>)
    ensures
        digits_value(Seq::new(k, |i: int| '0') + s, 16) == digits_value(s, 16),
    decreases k + s.len(),
{
    let zeros = Seq::new(k, |i: int| '0');
    let all = zeros + s;
    if s.len() > 0 {
        lemma_zeros(k, s.drop_last());
        assert(all.drop_last() =~= zeros + s.drop_last());
        assert(all.last() == s.last());
    } else if k > 0 {
        lemma_zeros((k - 1) as nat, s);
        assert(all.drop_last() =~= Seq::new((k - 1) as nat, |i: int| '0') + s);
        assert(all.last() == '0');
    } else {
        assert(all =~= s);
    }
}

} // verus!
