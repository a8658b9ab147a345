//! Text: digits, padding, trimming, and the integers that text spells.
use vstd::prelude::*;
use vstd::slice::slice_subrange;

verus! {

/// [`String::push`] appends one character to the end of the string.
pub assume_specification[ String::push ](s: &mut String, ch: char)
    ensures
        final(s)@ == old(s)@.push(ch),
;

// ---------------------------------------------------------------------------
// Strings and their characters

/// The characters of `s`, in order.
pub fn chars_of(s: &str) -> (v: Vec<char>)
    ensures
        v@ == s@,
{
    let mut v: Vec<char> = Vec::new();
    for c in it: s.chars()
        invariant
            it.seq() == s@,
            v@ == s@.take(it.index() as int),
    {
        v.push(c);
    }
    assert(s@.take(s@.len() as int) == s@);
    v
}

/// The string made of the characters `cs`.
pub fn string_of(cs: &[char]) -> (s: String)
    ensures
        s@ == cs@,
{
    let mut s = String::new();
    for i in 0..cs.len()
        invariant
            s@ == cs@.take(i as int),
    {
        s.push(cs[i]);
    }
    assert(cs@.take(cs@.len() as int) == cs@);
    s
}

/// Whether two sequences of characters are the same.
pub fn same_chars(a: &[char], b: &[char]) -> (r: bool)
    ensures
        r == (a@ == b@),
{
    if a.len() != b.len() {
        return false;
    }
    for i in 0..a.len()
        invariant
            a@.len() == b@.len(),
            forall|j: int| 0 <= j < i ==> a@[j] == b@[j],
    {
        if a[i] != b[i] {
            return false;
        }
    }
    assert(a@ == b@);
    true
}

/// Whether `a` spells `b`.
pub fn same_text(a: &str, b: &str) -> (r: bool)
    ensures
        r == (a@ == b@),
{
    let x = chars_of(a);
    let y = chars_of(b);
    same_chars(x.as_slice(), y.as_slice())
}

/// Whether `a` comes before `b` in the order of characters, or is `b`.
pub open spec fn text_le(a: Seq<char>, b: Seq<char>) -> bool
    decreases a.len(),
{
    if a.len() == 0 {
        true
    } else if b.len() == 0 {
        false
    } else if a[0] != b[0] {
        (a[0] as int) < (b[0] as int)
    } else {
        text_le(a.skip(1), b.skip(1))
    }
}

/// Of two texts, one comes before the other or they are the same.
pub proof fn law_text_order_is_total(a: Seq<char>, b: Seq<char>)
    ensures
        text_le(a, b) || text_le(b, a),
        text_le(a, b) && text_le(b, a) ==> a == b,
    decreases a.len(),
{
    if a.len() > 0 && b.len() > 0 && a[0] == b[0] {
        law_text_order_is_total(a.skip(1), b.skip(1));
        if a.skip(1) == b.skip(1) {
            assert(a =~= seq![a[0]] + a.skip(1));
            assert(b =~= seq![b[0]] + b.skip(1));
        }
    } else if a.len() == 0 && b.len() == 0 {
        assert(a =~= b);
    }
}

/// The order of texts is transitive.
pub proof fn law_text_order_is_transitive(a: Seq<char>, b: Seq<char>, c: Seq<char>)
    requires
        text_le(a, b),
        text_le(b, c),
    ensures
        text_le(a, c),
    decreases a.len(),
{
    if a.len() > 0 && b.len() > 0 && c.len() > 0 && a[0] == b[0] && b[0] == c[0] {
        law_text_order_is_transitive(a.skip(1), b.skip(1), c.skip(1));
    }
}

/// Whether `a` comes before `b` in the order of characters, or is `b`.
pub fn is_text_le(a: &[char], b: &[char]) -> (r: bool)
    ensures
        r == text_le(a@, b@),
{
    let mut i: usize = 0;
    assert(a@.skip(0) =~= a@);
    assert(b@.skip(0) =~= b@);
    while i < a.len() && i < b.len()
        invariant
            i <= a@.len(),
            i <= b@.len(),
            text_le(a@, b@) == text_le(a@.skip(i as int), b@.skip(i as int)),
        decreases a@.len() - i,
    {
        let x: char = a[i];
        let y: char = b[i];
        if x != y {
            return x < y;
        }
        assert(a@.skip(i as int).skip(1) =~= a@.skip(i + 1));
        assert(b@.skip(i as int).skip(1) =~= b@.skip(i + 1));
        i = i + 1;
    }
    i == a.len()
}

// ---------------------------------------------------------------------------
// Digits

/// The upper-case hexadecimal digit of a value below sixteen.
pub open spec fn hex_digit(d: int) -> char {
    if d < 10 {
        ('0' as int + d) as char
    } else {
        ('A' as int + (d - 10)) as char
    }
}

/// The hexadecimal digits of `v`, without leading zeros.
pub open spec fn hex_digits(v: nat) -> Seq<char>
    decreases v,
{
    if v < 16 {
        seq![hex_digit(v as int)]
    } else {
        hex_digits(v / 16).push(hex_digit((v % 16) as int))
    }
}

/// The decimal digits of `v`, without leading zeros.
pub open spec fn dec_digits(v: nat) -> Seq<char>
    decreases v,
{
    if v < 10 {
        seq![hex_digit(v as int)]
    } else {
        dec_digits(v / 10).push(hex_digit((v % 10) as int))
    }
}

/// `s` with zeros put in front until it is `width` characters long.
pub open spec fn zero_padded(s: Seq<char>, width: nat) -> Seq<char> {
    if s.len() >= width {
        s
    } else {
        Seq::new((width - s.len()) as nat, |i: int| '0') + s
    }
}

/// The hexadecimal digits of `v`, at least `width` of them.
pub open spec fn hex_text(v: nat, width: nat) -> Seq<char> {
    zero_padded(hex_digits(v), width)
}

/// Two hexadecimal digits for each byte.
pub open spec fn hex_dump(data: Seq<u8>) -> Seq<char> {
    Seq::new(
        2 * data.len(),
        |i: int|
            if i % 2 == 0 {
                hex_digit(data[i / 2] as int / 16)
            } else {
                hex_digit(data[i / 2] as int % 16)
            },
    )
}

/// The bytes as text: themselves where they are printable ASCII, a dot where
/// they are not.
pub open spec fn printable(data: Seq<u8>) -> Seq<char> {
    data.map_values(
        |b: u8|
            if 0x20 <= b <= 0x7E {
                b as char
            } else {
                '.'
            },
    )
}

fn digit_char(d: u8) -> (c: char)
    requires
        d < 16,
    ensures
        c == hex_digit(d as int),
{
    if d < 10 {
        (48u8 + d) as char
    } else {
        (65u8 + (d - 10)) as char
    }
}

fn push_hex_digits(out: &mut String, v: u64)
    ensures
        final(out)@ == old(out)@ + hex_digits(v as nat),
    decreases v,
{
    if v >= 16 {
        push_hex_digits(out, v / 16);
    }
    out.push(digit_char((v % 16) as u8));
}

fn hex_digit_count(v: u64) -> (n: u64)
    ensures
        n == hex_digits(v as nat).len(),
{
    let mut n: u64 = 1;
    let mut rest = v;
    while rest >= 16
        invariant
            hex_digits(v as nat).len() == hex_digits(rest as nat).len() + n - 1,
            n + rest <= v + 1,
        decreases rest,
    {
        rest = rest / 16;
        n = n + 1;
    }
    n
}

/// Appends the hexadecimal digits of `v`, at least `width` of them.
pub fn push_hex(out: &mut String, v: u64, width: u64)
    ensures
        final(out)@ == old(out)@ + hex_text(v as nat, width as nat),
{
    let ghost before = out@;
    let n = hex_digit_count(v);
    let mut k = n;
    while k < width
        invariant
            n <= k,
            k == n || k <= width,
            out@ == before + Seq::new((k - n) as nat, |i: int| '0'),
        decreases width - k,
    {
        out.push('0');
        k = k + 1;
        assert(out@ =~= before + Seq::new((k - n) as nat, |i: int| '0'));
    }
    push_hex_digits(out, v);
    assert(out@ =~= before + hex_text(v as nat, width as nat));
}

/// Appends the decimal digits of `v`.
pub fn push_dec(out: &mut String, v: u64)
    ensures
        final(out)@ == old(out)@ + dec_digits(v as nat),
    decreases v,
{
    if v >= 10 {
        push_dec(out, v / 10);
    }
    out.push(digit_char((v % 10) as u8));
}

/// Appends two hexadecimal digits for each byte of `data`.
pub fn push_hex_dump(out: &mut String, data: &[u8])
    ensures
        final(out)@ == old(out)@ + hex_dump(data@),
{
    let ghost before = out@;
    for i in 0..data.len()
        invariant
            out@ == before + hex_dump(data@.take(i as int)),
    {
        let b = data[i];
        out.push(digit_char(b / 16));
        out.push(digit_char(b % 16));
        assert(out@ =~= before + hex_dump(data@.take(i + 1)));
    }
    assert(data@.take(data@.len() as int) == data@);
}

/// Two hexadecimal digits for each byte of `data`.
pub fn hex_string(data: &[u8]) -> (s: String)
    ensures
        s@ == hex_dump(data@),
{
    let mut s = String::new();
    push_hex_dump(&mut s, data);
    assert(s@ =~= hex_dump(data@));
    s
}

/// The bytes as text, with a dot for each byte that is not printable ASCII.
pub fn printable_string(data: &[u8]) -> (s: String)
    ensures
        s@ == printable(data@),
{
    let mut s = String::new();
    for i in 0..data.len()
        invariant
            s@ == printable(data@.take(i as int)),
    {
        let b = data[i];
        if 0x20 <= b && b <= 0x7E {
            s.push(b as char);
        } else {
            s.push('.');
        }
        assert(s@ =~= printable(data@.take(i + 1)));
    }
    assert(data@.take(data@.len() as int) == data@);
    s
}

// ---------------------------------------------------------------------------
// Numbers

/// Why text is not a number.
#[derive(Clone, Copy, Debug, PartialEq, Eq, Structural)]
pub enum NumberError {
    /// There is nothing to read.
    Empty,
    /// A character is not a digit.
    InvalidDigit,
    /// The number is too large.
    Overflow,
}

impl NumberError {
    /// What [`NumberError::message`] says.
    pub open spec fn text(self) -> Seq<char> {
        match self {
            NumberError::Empty => "cannot parse integer from empty string"@,
            NumberError::InvalidDigit => "invalid digit found in string"@,
            NumberError::Overflow => "number too large to fit in target type"@,
        }
    }

    /// The error as a sentence.
    pub fn message(self) -> (s: &'static str)
        ensures
            s@ == self.text(),
    {
        match self {
            NumberError::Empty => "cannot parse integer from empty string",
            NumberError::InvalidDigit => "invalid digit found in string",
            NumberError::Overflow => "number too large to fit in target type",
        }
    }
}

/// The value of a digit, of either case.
pub open spec fn digit_value(c: char, radix: nat) -> Option<nat> {
    let v = if '0' <= c <= '9' {
        (c as int - '0' as int) as nat
    } else if 'a' <= c <= 'f' {
        (c as int - 'a' as int + 10) as nat
    } else if 'A' <= c <= 'F' {
        (c as int - 'A' as int + 10) as nat
    } else {
        radix
    };
    if v < radix {
        Some(v)
    } else {
        None
    }
}

/// The number that the digits `s` spell. What goes wrong first, reading from
/// the left, decides the error.
pub open spec fn digits_value(s: Seq<char>, radix: nat, max: nat) -> Result<nat, NumberError>
    decreases s.len(),
{
    if s.len() == 0 {
        Ok(0)
    } else {
        match digits_value(s.drop_last(), radix, max) {
            Err(e) => Err(e),
            Ok(high) => match digit_value(s.last(), radix) {
                None => Err(NumberError::InvalidDigit),
                Some(d) => if high * radix + d > max {
                    Err(NumberError::Overflow)
                } else {
                    Ok(high * radix + d)
                },
            },
        }
    }
}

/// The number, at most `max`, that `s` spells. It takes at least one digit, and
/// nothing but digits: a sign is none.
pub open spec fn number_of(s: Seq<char>, radix: nat, max: nat) -> Result<nat, NumberError> {
    if s.len() == 0 {
        Err(NumberError::Empty)
    } else {
        digits_value(s, radix, max)
    }
}

/// The value of a digit, of either case.
pub fn value_of_digit(c: char, radix: u64) -> (r: Option<u64>)
    requires
        radix == 10 || radix == 16,
    ensures
        match (r, digit_value(c, radix as nat)) {
            (Some(v), Some(w)) => v == w,
            (None, None) => true,
            _ => false,
        },
{
    let v: u32 = if '0' <= c && c <= '9' {
        c as u32 - 48
    } else if 'a' <= c && c <= 'f' {
        c as u32 - 97 + 10
    } else if 'A' <= c && c <= 'F' {
        c as u32 - 65 + 10
    } else {
        16
    };
    if (v as u64) < radix {
        Some(v as u64)
    } else {
        None
    }
}

proof fn lemma_error_stays(s: Seq<char>, n: int, radix: nat, max: nat)
    requires
        0 <= n <= s.len(),
        digits_value(s.take(n), radix, max) is Err,
    ensures
        digits_value(s, radix, max) == digits_value(s.take(n), radix, max),
    decreases s.len() - n,
{
    if n == s.len() {
        assert(s.take(n) =~= s);
    } else {
        assert(s.take(n + 1).drop_last() =~= s.take(n));
        lemma_error_stays(s, n + 1, radix, max);
    }
}

/// Reads a number of at most `max`: digits in radix 10 or 16, and nothing else.
pub fn parse_number(s: &[char], radix: u64, max: u64) -> (r: Result<u64, NumberError>)
    requires
        radix == 10 || radix == 16,
        max <= 0xFFFF_FFFF,
    ensures
        match (r, number_of(s@, radix as nat, max as nat)) {
            (Ok(v), Ok(w)) => v == w,
            (Err(e), Err(f)) => e == f,
            _ => false,
        },
        r matches Ok(v) ==> v <= max,
{
    if s.len() == 0 {
        return Err(NumberError::Empty);
    }
    let mut value: u64 = 0;
    let mut i: usize = 0;
    assert(s@.take(0) =~= Seq::<char>::empty());
    while i < s.len()
        invariant
            radix == 10 || radix == 16,
            max <= 0xFFFF_FFFF,
            s@.len() > 0,
            i <= s@.len(),
            value <= max,
            digits_value(s@.take(i as int), radix as nat, max as nat) == Ok::<nat, NumberError>(
                value as nat,
            ),
        decreases s@.len() - i,
    {
        proof {
            assert(s@.take(i + 1).drop_last() =~= s@.take(i as int));
            assert(s@.take(i + 1).last() == s@[i as int]);
        }
        match value_of_digit(s[i], radix) {
            None => {
                proof {
                    lemma_error_stays(s@, i + 1, radix as nat, max as nat);
                }
                return Err(NumberError::InvalidDigit);
            },
            Some(d) => {
                proof {
                    assert(value * radix <= 0xFFFF_FFFF * 16) by (nonlinear_arith)
                        requires
                            value <= 0xFFFF_FFFF,
                            radix <= 16,
                    ;
                }
                let next = value * radix + d;
                if next > max {
                    proof {
                        lemma_error_stays(s@, i + 1, radix as nat, max as nat);
                    }
                    return Err(NumberError::Overflow);
                }
                value = next;
            },
        }
        i = i + 1;
    }
    assert(s@.take(s@.len() as int) =~= s@);
    Ok(value)
}

proof fn lemma_hex_digit_value(d: nat)
    requires
        d < 16,
    ensures
        digit_value(hex_digit(d as int), 16) == Some(d),
{
}

proof fn lemma_hex_digits_value(v: nat, max: nat)
    requires
        v <= max,
    ensures
        hex_digits(v).len() >= 1,
        digits_value(hex_digits(v), 16, max) == Ok::<nat, NumberError>(v),
    decreases v,
{
    let s = hex_digits(v);
    lemma_hex_digit_value(v % 16);
    if v < 16 {
        assert(s.drop_last() =~= Seq::<char>::empty());
        assert(digits_value(s.drop_last(), 16, max) == Ok::<nat, NumberError>(0));
    } else {
        lemma_hex_digits_value(v / 16, max);
        assert(s.drop_last() =~= hex_digits(v / 16));
    }
}

proof fn lemma_leading_zeros(zeros: Seq<char>, s: Seq<char>, max: nat)
    requires
        forall|i: int| 0 <= i < zeros.len() ==> zeros[i] == '0',
    ensures
        digits_value(zeros + s, 16, max) == digits_value(s, 16, max),
    decreases zeros.len() + s.len(),
{
    if s.len() > 0 {
        assert((zeros + s).drop_last() =~= zeros + s.drop_last());
        lemma_leading_zeros(zeros, s.drop_last(), max);
    } else {
        assert(zeros + s =~= zeros);
        if zeros.len() > 0 {
            lemma_leading_zeros(zeros.drop_last(), s, max);
            assert(zeros.drop_last() + s =~= zeros.drop_last());
            assert(digit_value('0', 16) == Some(0nat));
            assert(digits_value(s, 16, max) == Ok::<nat, NumberError>(0));
            assert(digits_value(zeros.drop_last(), 16, max) == Ok::<nat, NumberError>(0));
        } else {
            assert(zeros =~= s);
        }
    }
}

proof fn lemma_hex_digits_are_digits(v: nat)
    ensures
        forall|i: int|
            0 <= i < hex_digits(v).len() ==> '0' <= #[trigger] hex_digits(v)[i] <= 'F',
    decreases v,
{
    if v >= 16 {
        lemma_hex_digits_are_digits(v / 16);
        let s = hex_digits(v / 16);
        assert forall|i: int| 0 <= i < hex_digits(v).len() implies '0' <= #[trigger] hex_digits(
            v,
        )[i] <= 'F' by {
            if i < s.len() {
                assert(hex_digits(v)[i] == s[i]);
            }
        }
    }
}

/// Whether every character is a digit.
pub open spec fn all_digits(s: Seq<char>, radix: nat) -> bool {
    forall|i: int| 0 <= i < s.len() ==> digit_value(#[trigger] s[i], radix) is Some
}

/// The number that digits spell, the first of them the highest.
pub open spec fn place_value(s: Seq<char>, radix: nat) -> nat
    decreases s.len(),
{
    if s.len() == 0 {
        0
    } else {
        place_value(s.drop_last(), radix) * radix + digit_value(s.last(), radix).unwrap_or(0)
    }
}

proof fn lemma_digits_value(s: Seq<char>, radix: nat, max: nat)
    requires
        radix > 0,
    ensures
        digits_value(s, radix, max) is Ok <==> all_digits(s, radix) && place_value(s, radix)
            <= max,
        digits_value(s, radix, max) matches Ok(v) ==> v == place_value(s, radix),
    decreases s.len(),
{
    if s.len() > 0 {
        let s0 = s.drop_last();
        lemma_digits_value(s0, radix, max);
        assert(all_digits(s, radix) == (all_digits(s0, radix) && digit_value(
            s.last(),
            radix,
        ) is Some)) by {
            assert(forall|i: int| 0 <= i < s0.len() ==> #[trigger] s0[i] == s[i]);
            if all_digits(s, radix) {
                assert forall|i: int| 0 <= i < s0.len() implies digit_value(
                    #[trigger] s0[i],
                    radix,
                ) is Some by {
                    assert(digit_value(s[i], radix) is Some);
                }
            }
            if all_digits(s0, radix) && digit_value(s.last(), radix) is Some {
                assert forall|i: int| 0 <= i < s.len() implies digit_value(
                    #[trigger] s[i],
                    radix,
                ) is Some by {
                    assert(i == s.len() - 1 || digit_value(s0[i], radix) is Some);
                }
            }
        }
        let high = place_value(s0, radix);
        assert(high * radix >= high) by (nonlinear_arith)
            requires
                high >= 0,
                radix >= 1,
        ;
    } else {
        assert(digits_value(s, radix, max) == Ok::<nat, NumberError>(0));
        assert(place_value(s, radix) == 0);
    }
}

/// Text spells a number if and only if it is not empty, holds nothing but digits,
/// and the number is not too large.
pub proof fn law_numbers_are_digits(s: Seq<char>, radix: nat, max: nat)
    requires
        radix > 0,
    ensures
        number_of(s, radix, max) is Ok <==> s.len() > 0 && all_digits(s, radix) && place_value(
            s,
            radix,
        ) <= max,
        number_of(s, radix, max) matches Ok(v) ==> v == place_value(s, radix),
{
    lemma_digits_value(s, radix, max);
}

/// The hexadecimal text of a number, of whatever width, holds only digits and
/// capital letters, and reads back as the number.
pub proof fn law_hex_round_trip(v: nat, width: nat, max: nat)
    requires
        v <= max,
    ensures
        number_of(hex_text(v, width), 16, max) == Ok::<nat, NumberError>(v),
        forall|i: int|
            0 <= i < hex_text(v, width).len() ==> '0' <= #[trigger] hex_text(v, width)[i] <= 'F',
{
    let s = hex_digits(v);
    lemma_hex_digits_value(v, max);
    lemma_hex_digits_are_digits(v);
    if s.len() < width {
        let zeros = Seq::new((width - s.len()) as nat, |i: int| '0');
        lemma_leading_zeros(zeros, s, max);
        let t = hex_text(v, width);
        assert forall|i: int| 0 <= i < t.len() implies '0' <= #[trigger] t[i] <= 'F' by {
            if i >= zeros.len() {
                assert(t[i] == s[i - zeros.len()]);
            }
        }
    }
}

// ---------------------------------------------------------------------------
// Parts of text

/// Whether a character is white space in the sense of Unicode.
pub open spec fn is_white(c: char) -> bool {
    let n = c as u32;
    ||| 0x09 <= n <= 0x0D
    ||| n == 0x20
    ||| n == 0x85
    ||| n == 0xA0
    ||| n == 0x1680
    ||| 0x2000 <= n <= 0x200A
    ||| n == 0x2028
    ||| n == 0x2029
    ||| n == 0x202F
    ||| n == 0x205F
    ||| n == 0x3000
}

/// `s` without the white space at its start.
pub open spec fn trimmed_start(s: Seq<char>) -> Seq<char>
    decreases s.len(),
{
    if s.len() > 0 && is_white(s[0]) {
        trimmed_start(s.skip(1))
    } else {
        s
    }
}

/// `s` without the white space at its end.
pub open spec fn trimmed_end(s: Seq<char>) -> Seq<char>
    decreases s.len(),
{
    if s.len() > 0 && is_white(s.last()) {
        trimmed_end(s.drop_last())
    } else {
        s
    }
}

/// `s` without the white space at either end.
pub open spec fn trimmed(s: Seq<char>) -> Seq<char> {
    trimmed_end(trimmed_start(s))
}

fn white(c: char) -> (r: bool)
    ensures
        r == is_white(c),
{
    let n = c as u32;
    (0x09 <= n && n <= 0x0D) || n == 0x20 || n == 0x85 || n == 0xA0 || n == 0x1680 || (0x2000 <= n
        && n <= 0x200A) || n == 0x2028 || n == 0x2029 || n == 0x202F || n == 0x205F || n == 0x3000
}

/// `s` without the white space at either end.
pub fn trim(s: &[char]) -> (r: &[char])
    ensures
        r@ == trimmed(s@),
{
    let mut start: usize = 0;
    assert(s@.skip(0) =~= s@);
    while start < s.len() && white(s[start])
        invariant
            start <= s@.len(),
            trimmed_start(s@) == trimmed_start(s@.skip(start as int)),
        decreases s@.len() - start,
    {
        assert(s@.skip(start as int).skip(1) =~= s@.skip(start + 1));
        start = start + 1;
    }
    let mut end: usize = s.len();
    assert(s@.subrange(start as int, end as int) =~= s@.skip(start as int));
    while start < end && white(s[end - 1])
        invariant
            start <= end <= s@.len(),
            trimmed(s@) == trimmed_end(s@.subrange(start as int, end as int)),
        decreases end,
    {
        assert(s@.subrange(start as int, end as int).drop_last() =~= s@.subrange(
            start as int,
            end - 1,
        ));
        end = end - 1;
    }
    slice_subrange(s, start, end)
}

/// `s` without the prefix `0x` (with the given letter), if it has it.
pub open spec fn without_prefix(s: Seq<char>, x: char) -> Seq<char> {
    if s.len() >= 2 && s[0] == '0' && s[1] == x {
        s.skip(2)
    } else {
        s
    }
}

/// `s` without the prefix `0x` (with the given letter), if it has it.
pub fn strip_prefix(s: &[char], x: char) -> (r: &[char])
    ensures
        r@ == without_prefix(s@, x),
{
    if s.len() >= 2 && s[0] == '0' && s[1] == x {
        let r = slice_subrange(s, 2, s.len());
        assert(r@ =~= s@.skip(2));
        r
    } else {
        s
    }
}

/// `s` without any number of prefixes `0x` (with the given letter).
pub open spec fn without_prefixes(s: Seq<char>, x: char) -> Seq<char>
    decreases s.len(),
{
    if s.len() >= 2 && s[0] == '0' && s[1] == x {
        without_prefixes(s.skip(2), x)
    } else {
        s
    }
}

/// `s` without any number of prefixes `0x` (with the given letter).
pub fn strip_prefixes(s: &[char], x: char) -> (r: &[char])
    ensures
        r@ == without_prefixes(s@, x),
{
    let mut r = s;
    while r.len() >= 2 && r[0] == '0' && r[1] == x
        invariant
            without_prefixes(r@, x) == without_prefixes(s@, x),
        decreases r@.len(),
    {
        r = strip_prefix(r, x);
    }
    r
}

/// What is left without the prefixes is a part of the text, up to its end.
pub proof fn lemma_without_prefixes(s: Seq<char>, x: char)
    ensures
        exists|k: int| 0 <= k <= s.len() && without_prefixes(s, x) == #[trigger] s.skip(k),
    decreases s.len(),
{
    if s.len() >= 2 && s[0] == '0' && s[1] == x {
        let t = s.skip(2);
        lemma_without_prefixes(t, x);
        let k = choose|k: int| 0 <= k <= t.len() && without_prefixes(t, x) == #[trigger] t.skip(k);
        assert(t.skip(k) =~= s.skip(k + 2));
    } else {
        assert(s.skip(0) =~= s);
    }
}

/// `s` without a leading plus sign, if anything follows it.
pub open spec fn without_plus(s: Seq<char>) -> Seq<char> {
    if s.len() >= 2 && s[0] == '+' {
        s.skip(1)
    } else {
        s
    }
}

/// `s` without a leading plus sign, if anything follows it.
pub fn strip_plus(s: &[char]) -> (r: &[char])
    ensures
        r@ == without_plus(s@),
{
    if s.len() >= 2 && s[0] == '+' {
        let r = slice_subrange(s, 1, s.len());
        assert(r@ =~= s@.skip(1));
        r
    } else {
        s
    }
}

/// The parts of `s` between commas.
pub open spec fn comma_parts(s: Seq<char>) -> Seq<Seq<char>>
    decreases s.len(),
{
    if s.len() == 0 {
        seq![Seq::<char>::empty()]
    } else {
        let parts = comma_parts(s.drop_last());
        if s.last() == ',' {
            parts.push(Seq::<char>::empty())
        } else {
            parts.update(parts.len() - 1, parts.last().push(s.last()))
        }
    }
}

/// The texts in `v`.
pub open spec fn texts_of(v: Seq<Vec<char>>) -> Seq<Seq<char>> {
    v.map_values(|t: Vec<char>| t@)
}

/// The parts of `s` between commas.
pub fn split_at_commas(s: &[char]) -> (v: Vec<Vec<char>>)
    ensures
        texts_of(v@) == comma_parts(s@),
{
    let mut done: Vec<Vec<char>> = Vec::new();
    let mut part: Vec<char> = Vec::new();
    assert(s@.take(0) =~= Seq::<char>::empty());
    assert(texts_of(done@).push(part@) =~= seq![Seq::<char>::empty()]);
    for i in 0..s.len()
        invariant
            texts_of(done@).push(part@) == comma_parts(s@.take(i as int)),
    {
        let ghost parts = comma_parts(s@.take(i as int));
        assert(s@.take(i + 1).drop_last() =~= s@.take(i as int));
        if s[i] == ',' {
            done.push(part);
            part = Vec::new();
            assert(texts_of(done@).push(part@) =~= parts.push(Seq::<char>::empty()));
        } else {
            part.push(s[i]);
            assert(texts_of(done@).push(part@) =~= parts.update(
                parts.len() - 1,
                parts.last().push(s@[i as int]),
            ));
        }
    }
    assert(s@.take(s@.len() as int) =~= s@);
    let ghost before = texts_of(done@).push(part@);
    done.push(part);
    assert(texts_of(done@) =~= before);
    done
}

/// `s` with ASCII capitals turned into small letters.
pub open spec fn lower_case(s: Seq<char>) -> Seq<char> {
    s.map_values(
        |c: char|
            if 'A' <= c <= 'Z' {
                (c as int + 32) as char
            } else {
                c
            },
    )
}

/// `s` with ASCII capitals turned into small letters.
pub fn to_lower_case(s: &[char]) -> (r: Vec<char>)
    ensures
        r@ == lower_case(s@),
{
    let mut r: Vec<char> = Vec::new();
    for i in 0..s.len()
        invariant
            r@ == lower_case(s@.take(i as int)),
    {
        let c = s[i];
        if 'A' <= c && c <= 'Z' {
            r.push((c as u8 + 32) as char);
        } else {
            r.push(c);
        }
        assert(r@ =~= lower_case(s@.take(i + 1)));
    }
    assert(s@.take(s@.len() as int) =~= s@);
    r
}

/// Whether `key` stands in `s` at `at`.
pub open spec fn stands_at(s: Seq<char>, key: Seq<char>, at: int) -> bool {
    0 <= at && at + key.len() <= s.len() && s.subrange(at, at + key.len()) == key
}

/// Where `key` stands in `s` for the first time, from `from` on.
pub open spec fn first_place(s: Seq<char>, key: Seq<char>, from: nat) -> Option<nat>
    decreases s.len() + 1 - from,
{
    if from + key.len() > s.len() {
        None
    } else if stands_at(s, key, from as int) {
        Some(from)
    } else {
        first_place(s, key, from + 1)
    }
}

/// Finds `key` in `s`.
pub fn find(s: &[char], key: &[char]) -> (r: Option<usize>)
    requires
        key@.len() > 0,
    ensures
        match (r, first_place(s@, key@, 0)) {
            (Some(i), Some(j)) => i == j,
            (None, None) => true,
            _ => false,
        },
        r matches Some(i) ==> stands_at(s@, key@, i as int),
{
    let mut at: usize = 0;
    while at <= s.len() && s.len() - at >= key.len()
        invariant
            key@.len() > 0,
            at <= s@.len(),
            first_place(s@, key@, 0) == first_place(s@, key@, at as nat),
        decreases s@.len() - at,
    {
        let part = slice_subrange(s, at, at + key.len());
        if same_chars(part, key) {
            return Some(at);
        }
        at = at + 1;
    }
    None
}

/// How many decimal digits `s` starts with.
pub open spec fn digit_run(s: Seq<char>) -> nat
    decreases s.len(),
{
    if s.len() > 0 && '0' <= s[0] <= '9' {
        1 + digit_run(s.skip(1))
    } else {
        0
    }
}

/// The decimal digits that `s` starts with.
pub fn leading_digits(s: &[char]) -> (r: &[char])
    ensures
        r@ == s@.take(digit_run(s@) as int),
{
    let mut n: usize = 0;
    assert(s@.skip(0) =~= s@);
    while n < s.len() && '0' <= s[n] && s[n] <= '9'
        invariant
            n <= s@.len(),
            digit_run(s@) == n + digit_run(s@.skip(n as int)),
        decreases s@.len() - n,
    {
        assert(s@.skip(n as int).skip(1) =~= s@.skip(n + 1));
        n = n + 1;
    }
    let r = slice_subrange(s, 0, n);
    assert(r@ =~= s@.take(n as int));
    r
}

// ---------------------------------------------------------------------------
// Laws

/// The digits are `0` to `9` and, where sixteen are wanted, the letters up to F of
/// either case, with the values that they have in ASCII order.
pub proof fn law_digits_have_their_values(c: char)
    ensures
        digit_value(c, 10) == if 48 <= c as int <= 57 {
            Some((c as int - 48) as nat)
        } else {
            None
        },
        digit_value(c, 16) == if 48 <= c as int <= 57 {
            Some((c as int - 48) as nat)
        } else if 65 <= c as int <= 70 {
            Some((c as int - 55) as nat)
        } else if 97 <= c as int <= 102 {
            Some((c as int - 87) as nat)
        } else {
            None
        },
{
}

/// What goes wrong first decides: nothing to read, a character that is no digit, or
/// a digit that makes the number too large.
pub proof fn law_first_trouble_decides(s: Seq<char>, radix: nat, max: nat, k: int)
    requires
        radix > 0,
        0 <= k <= s.len(),
        all_digits(s.take(k), radix),
        place_value(s.take(k), radix) <= max,
    ensures
        s.len() == 0 ==> number_of(s, radix, max) == Err::<nat, NumberError>(NumberError::Empty),
        k < s.len() && digit_value(s[k], radix) is None ==> number_of(s, radix, max) == Err::<
            nat,
            NumberError,
        >(NumberError::InvalidDigit),
        k < s.len() && digit_value(s[k], radix) is Some && place_value(s.take(k + 1), radix) > max
            ==> number_of(s, radix, max) == Err::<nat, NumberError>(NumberError::Overflow),
{
    if k < s.len() {
        let t = s.take(k + 1);
        assert(t.drop_last() =~= s.take(k));
        assert(t.last() == s[k]);
        lemma_digits_value(s.take(k), radix, max);
        if digit_value(s[k], radix) is None || place_value(t, radix) > max {
            assert(digits_value(t, radix, max) is Err);
            lemma_error_stays(s, k + 1, radix, max);
        }
    }
}

proof fn lemma_dec_digits_value(v: nat, max: nat)
    requires
        v <= max,
    ensures
        dec_digits(v).len() >= 1,
        digits_value(dec_digits(v), 10, max) == Ok::<nat, NumberError>(v),
        v > 0 ==> dec_digits(v)[0] != '0',
        forall|i: int|
            0 <= i < dec_digits(v).len() ==> '0' <= #[trigger] dec_digits(v)[i] <= '9',
    decreases v,
{
    let s = dec_digits(v);
    if v < 10 {
        assert(s.drop_last() =~= Seq::<char>::empty());
        assert(digits_value(s.drop_last(), 10, max) == Ok::<nat, NumberError>(0));
    } else {
        lemma_dec_digits_value(v / 10, max);
        let t = dec_digits(v / 10);
        assert(s.drop_last() =~= t);
        assert forall|i: int| 0 <= i < s.len() implies '0' <= #[trigger] s[i] <= '9' by {
            if i < t.len() {
                assert(s[i] == t[i]);
            }
        }
        assert(s[0] == t[0]);
    }
}

/// The decimal text of a number holds only digits, has no zero in front (but for
/// zero itself), and reads back as the number.
pub proof fn law_decimal_round_trip(v: nat, max: nat)
    requires
        v <= max,
    ensures
        number_of(dec_digits(v), 10, max) == Ok::<nat, NumberError>(v),
        v > 0 ==> dec_digits(v)[0] != '0',
        v == 0 ==> dec_digits(v) == seq!['0'],
        forall|i: int|
            0 <= i < dec_digits(v).len() ==> '0' <= #[trigger] dec_digits(v)[i] <= '9',
{
    lemma_dec_digits_value(v, max);
}

proof fn lemma_hex_digits_length(v: nat, width: nat)
    requires
        width >= 1,
        v < vstd::arithmetic::power::pow(16, width),
    ensures
        hex_digits(v).len() <= width,
    decreases v,
{
    if v >= 16 {
        let p = vstd::arithmetic::power::pow(16, (width - 1) as nat);
        vstd::arithmetic::power::lemma_pow0(16);
        vstd::arithmetic::power::lemma_pow1(16);
        assert(vstd::arithmetic::power::pow(16, width) == 16 * p) by {
            reveal(vstd::arithmetic::power::pow);
        }
        assert(width >= 2);
        assert(v / 16 < p);
        lemma_hex_digits_length(v / 16, (width - 1) as nat);
    }
}

/// The hexadecimal text of a number that fits a width has just that width.
pub proof fn law_hex_text_fills_its_width(v: nat, width: nat)
    requires
        width >= 1,
        v < vstd::arithmetic::power::pow(16, width),
    ensures
        hex_text(v, width).len() == width,
{
    lemma_hex_digits_length(v, width);
}

/// Each byte is told by two digits, the high one first, and letters are capitals.
pub proof fn law_hex_dump_tells_every_byte(data: Seq<u8>)
    ensures
        hex_dump(data).len() == 2 * data.len(),
        forall|i: int|
            0 <= i < hex_dump(data).len() ==> '0' <= #[trigger] hex_dump(data)[i] <= '9' || 'A'
                <= hex_dump(data)[i] <= 'F',
        forall|i: int|
            0 <= i < data.len() ==> #[trigger] data[i] == 16 * digit_value(
                hex_dump(data)[2 * i],
                16,
            )->Some_0 + digit_value(hex_dump(data)[2 * i + 1], 16)->Some_0,
{
    let t = hex_dump(data);
    assert forall|i: int| 0 <= i < data.len() implies #[trigger] data[i] == 16 * digit_value(
        t[2 * i],
        16,
    )->Some_0 + digit_value(t[2 * i + 1], 16)->Some_0 by {
        assert(t[2 * i] == hex_digit(data[i] as int / 16));
        assert(t[2 * i + 1] == hex_digit(data[i] as int % 16));
    }
}

/// Bytes from the space to the tilde are shown as they are, all others as dots.
pub proof fn law_printable_shows_ascii(data: Seq<u8>)
    ensures
        printable(data).len() == data.len(),
        forall|i: int|
            0 <= i < data.len() ==> #[trigger] printable(data)[i] as int == if 32 <= data[i]
                <= 126 {
                data[i] as int
            } else {
                46
            },
{
}

/// White space is what Unicode says it is.
pub proof fn law_white_space(c: char)
    ensures
        is_white(c) == ({
            let n = c as int;
            9 <= n <= 13 || n == 32 || n == 133 || n == 160 || n == 5760 || 8192 <= n <= 8202 || n
                == 8232 || n == 8233 || n == 8239 || n == 8287 || n == 12288
        }),
{
}

proof fn lemma_trimmed_start(s: Seq<char>) -> (k: int)
    ensures
        0 <= k <= s.len(),
        trimmed_start(s) == s.skip(k),
        forall|i: int| 0 <= i < k ==> is_white(#[trigger] s[i]),
        k < s.len() ==> !is_white(s[k]),
    decreases s.len(),
{
    if s.len() > 0 && is_white(s[0]) {
        let t = s.skip(1);
        let k = lemma_trimmed_start(t);
        assert(t.skip(k) =~= s.skip(k + 1));
        assert forall|i: int| 0 <= i < k + 1 implies is_white(#[trigger] s[i]) by {
            if i > 0 {
                assert(t[i - 1] == s[i]);
            }
        }
        if k < t.len() {
            assert(t[k] == s[k + 1]);
        }
        k + 1
    } else {
        assert(s.skip(0) =~= s);
        0
    }
}

proof fn lemma_trimmed_end(s: Seq<char>) -> (k: int)
    ensures
        0 <= k <= s.len(),
        trimmed_end(s) == s.take(k),
        forall|i: int| k <= i < s.len() ==> is_white(#[trigger] s[i]),
        k > 0 ==> !is_white(s[k - 1]),
    decreases s.len(),
{
    if s.len() > 0 && is_white(s.last()) {
        let t = s.drop_last();
        let k = lemma_trimmed_end(t);
        assert(t.take(k) =~= s.take(k));
        assert forall|i: int| k <= i < s.len() implies is_white(#[trigger] s[i]) by {
            if i < t.len() {
                assert(t[i] == s[i]);
            }
        }
        if k > 0 {
            assert(t[k - 1] == s[k - 1]);
        }
        k
    } else {
        assert(s.take(s.len() as int) =~= s);
        s.len() as int
    }
}

/// Trimming takes away white space at the ends, all of it, and nothing else: `s` is
/// what is left with white space around it if and only if that neither starts nor
/// ends with any.
pub proof fn law_trimming_takes_white_space(before: Seq<char>, middle: Seq<char>, after: Seq<char>)
    requires
        forall|i: int| 0 <= i < before.len() ==> is_white(#[trigger] before[i]),
        forall|i: int| 0 <= i < after.len() ==> is_white(#[trigger] after[i]),
        middle.len() > 0 ==> !is_white(middle[0]) && !is_white(middle.last()),
    ensures
        trimmed(before + middle + after) == middle,
{
    let s = before + middle + after;
    let k = lemma_trimmed_start(s);
    let t = s.skip(k);
    let m = lemma_trimmed_end(t);
    assert(trimmed(s) == t.take(m));
    if middle.len() == 0 {
        assert forall|i: int| 0 <= i < s.len() implies is_white(#[trigger] s[i]) by {
            if i < before.len() {
                assert(s[i] == before[i]);
            } else {
                assert(s[i] == after[i - before.len()]);
            }
        }
        assert(k == s.len());
        assert(t.take(m) =~= middle);
    } else {
        let b = before.len() as int;
        let e = (before.len() + middle.len()) as int;
        assert(s[b] == middle[0]);
        assert(s[e - 1] == middle.last());
        assert(k == b) by {
            if k < b {
                assert(s[k] == before[k]);
            }
            if k > b {
                assert(is_white(s[b]));
            }
        }
        assert(m == middle.len()) by {
            if m > middle.len() {
                assert(t[m - 1] == after[m - 1 - middle.len()]);
            }
            if m < middle.len() {
                assert(t[middle.len() - 1] == s[e - 1]);
                assert(is_white(t[middle.len() - 1]));
            }
        }
        assert(t.take(m) =~= middle);
    }
}

/// The order of texts is that of a dictionary: where they first differ, the lower
/// character comes first, and a text comes before those that go on from it.
pub proof fn law_text_order_is_that_of_a_dictionary(a: Seq<char>, b: Seq<char>, k: int)
    requires
        0 <= k <= a.len(),
        k <= b.len(),
        a.take(k) == b.take(k),
    ensures
        k == a.len() ==> text_le(a, b),
        k == b.len() && k < a.len() ==> !text_le(a, b),
        k < a.len() && k < b.len() && a[k] != b[k] ==> text_le(a, b) == ((a[k] as int) < (
        b[k] as int)),
    decreases k,
{
    if k > 0 {
        assert forall|i: int| 0 <= i < k implies #[trigger] a[i] == b[i] by {
            assert(a.take(k)[i] == a[i]);
            assert(b.take(k)[i] == b[i]);
        }
        assert(a[0] == b[0]);
        let x = a.skip(1);
        let y = b.skip(1);
        assert forall|i: int| 0 <= i < k - 1 implies #[trigger] x[i] == y[i] by {
            assert(x[i] == a[i + 1] && y[i] == b[i + 1]);
        }
        assert(x.take(k - 1) =~= y.take(k - 1));
        law_text_order_is_that_of_a_dictionary(x, y, k - 1);
        assert(text_le(a, b) == text_le(x, y));
        assert(k < a.len() ==> x[k - 1] == a[k]);
        assert(k < b.len() ==> y[k - 1] == b[k]);
    }
}

/// Capitals become small letters one by one, and nothing else changes.
pub proof fn law_lower_case_letter_by_letter(s: Seq<char>)
    ensures
        lower_case(s).len() == s.len(),
        forall|i: int|
            0 <= i < s.len() ==> #[trigger] lower_case(s)[i] as int == if 65 <= s[i] as int
                <= 90 {
                s[i] as int + 32
            } else {
                s[i] as int
            },
{
}

/// The texts with commas between them.
pub open spec fn with_commas(parts: Seq<Seq<char>>) -> Seq<char>
    decreases parts.len(),
{
    if parts.len() == 0 {
        Seq::<char>::empty()
    } else if parts.len() == 1 {
        parts[0]
    } else {
        with_commas(parts.drop_last()) + seq![','] + parts.last()
    }
}

proof fn lemma_comma_parts_more(s: Seq<char>, more: Seq<char>)
    requires
        !more.contains(','),
    ensures
        comma_parts(s).len() >= 1,
        comma_parts(s + more) == comma_parts(s).update(
            comma_parts(s).len() - 1,
            comma_parts(s).last() + more,
        ),
    decreases s.len() + more.len(),
{
    if s.len() > 0 {
        lemma_comma_parts_more(s.drop_last(), Seq::<char>::empty());
    }
    let parts = comma_parts(s);
    let n = parts.len() - 1;
    if more.len() == 0 {
        assert(s + more =~= s);
        assert(parts.last() + more =~= parts.last());
        assert(parts.update(n, parts.last() + more) =~= parts);
    } else {
        let m = more.drop_last();
        assert(!m.contains(',')) by {
            if m.contains(',') {
                let i = choose|i: int| 0 <= i < m.len() && m[i] == ',';
                assert(more[i] == ',');
            }
        }
        lemma_comma_parts_more(s, m);
        assert(more[more.len() - 1] != ',');
        assert((s + more).drop_last() =~= s + m);
        assert((s + more).last() == more.last());
        assert((parts.last() + m).push(more.last()) =~= parts.last() + more);
        assert(comma_parts(s + more) =~= parts.update(n, parts.last() + more));
    }
}

/// Texts without commas, put together with commas between them, come apart as they
/// were.
pub proof fn law_commas_part_texts(parts: Seq<Seq<char>>)
    requires
        parts.len() > 0,
        forall|i: int| 0 <= i < parts.len() ==> !(#[trigger] parts[i]).contains(','),
    ensures
        comma_parts(with_commas(parts)) == parts,
    decreases parts.len(),
{
    let nothing = Seq::<char>::empty();
    if parts.len() == 1 {
        assert(comma_parts(nothing) =~= seq![nothing]);
        lemma_comma_parts_more(nothing, parts[0]);
        assert(nothing + parts[0] =~= parts[0]);
        assert(comma_parts(parts[0]) =~= parts);
    } else {
        let p0 = parts.drop_last();
        assert forall|i: int| 0 <= i < p0.len() implies !(#[trigger] p0[i]).contains(',') by {
            assert(p0[i] == parts[i]);
        }
        law_commas_part_texts(p0);
        let s = with_commas(p0);
        let t = s + seq![','];
        assert(t.drop_last() =~= s);
        assert(comma_parts(t) == p0.push(nothing));
        assert(!parts[parts.len() - 1].contains(','));
        lemma_comma_parts_more(t, parts.last());
        assert(nothing + parts.last() =~= parts.last());
        assert(comma_parts(with_commas(parts)) =~= parts);
    }
}

/// The first place of a key is one where it stands, and it stands at none before;
/// where there is no such place it stands nowhere.
pub proof fn law_first_place_is_the_first(s: Seq<char>, key: Seq<char>, from: nat)
    ensures
        match first_place(s, key, from) {
            Some(k) => from <= k && stands_at(s, key, k as int) && forall|j: int|
                from <= j < k ==> !#[trigger] stands_at(s, key, j),
            None => forall|j: int| from <= j ==> !#[trigger] stands_at(s, key, j),
        },
    decreases s.len() + 1 - from,
{
    if from + key.len() <= s.len() && !stands_at(s, key, from as int) {
        law_first_place_is_the_first(s, key, from + 1);
    }
}

/// A run of digits goes up to the first character that is none.
pub proof fn law_digit_run_is_the_longest(s: Seq<char>)
    ensures
        digit_run(s) <= s.len(),
        forall|i: int| 0 <= i < digit_run(s) ==> '0' <= #[trigger] s[i] <= '9',
        digit_run(s) < s.len() ==> !('0' <= s[digit_run(s) as int] <= '9'),
    decreases s.len(),
{
    if s.len() > 0 && '0' <= s[0] <= '9' {
        let t = s.skip(1);
        law_digit_run_is_the_longest(t);
        assert forall|i: int| 0 <= i < digit_run(s) implies '0' <= #[trigger] s[i] <= '9' by {
            if i > 0 {
                assert(t[i - 1] == s[i]);
            }
        }
    }
}

/// Any number of prefixes may stand in front of digits, and all of them are taken
/// away (one of them, where only one is looked for); digits themselves stay.
pub proof fn law_prefixes_are_taken_away(digits: Seq<char>, rest: Seq<char>, x: char)
    requires
        x == 'x' || x == 'X',
        all_digits(digits, 16),
    ensures
        without_prefixes(digits, x) == digits,
        without_prefix(digits, x) == digits,
        without_prefix(seq!['0', x] + rest, x) == rest,
        without_prefixes(seq!['0', x] + rest, x) == without_prefixes(rest, x),
{
    if digits.len() >= 2 {
        assert(digit_value(digits[1], 16) is Some);
    }
    assert((seq!['0', x] + rest).skip(2) =~= rest);
}

} // verus!
