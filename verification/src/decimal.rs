//! Decimal text for integers: the spelling that `to_string` gives an integer,
//! and the reading that `str::parse` gives a decimal text.
use vstd::prelude::*;

verus! {

/// The character of a decimal digit `d` (0 ..= 9).
pub open spec fn digit_char(d: int) -> char {
    ('0' as int + d) as char
}

pub open spec fn is_digit(c: char) -> bool {
    '0' <= c && c <= '9'
}

pub open spec fn digit_value(c: char) -> int {
    c as int - '0' as int
}

pub open spec fn all_digits(s: Seq<char>) -> bool {
    forall|i: int| 0 <= i < s.len() ==> is_digit(#[trigger] s[i])
}

/// The number that a run of decimal digits spells, most significant first.
pub open spec fn digits_value(s: Seq<char>) -> nat
    decreases s.len(),
{
    if s.len() == 0 {
        0
    } else {
        (digits_value(s.drop_last()) * 10 + digit_value(s.last())) as nat
    }
}

/// The shortest decimal spelling of `n`: no sign and no leading zero.
pub open spec fn decimal(n: nat) -> Seq<char>
    decreases n,
{
    if n < 10 {
        seq![digit_char(n as int)]
    } else {
        decimal(n / 10).push(digit_char((n % 10) as int))
    }
}

/// The decimal spelling of a signed integer: a `-` before the magnitude of a negative one.
pub open spec fn signed_decimal(i: int) -> Seq<char> {
    if i < 0 {
        seq!['-'] + decimal((-i) as nat)
    } else {
        decimal(i as nat)
    }
}

/// What follows an optional leading `+`.
pub open spec fn after_plus(s: Seq<char>) -> Seq<char> {
    if s.len() > 0 && s[0] == '+' {
        s.drop_first()
    } else {
        s
    }
}

/// A non-empty run of decimal digits whose value is at most `max`.
pub open spec fn digits_within(d: Seq<char>, max: int) -> bool {
    d.len() > 0 && all_digits(d) && digits_value(d) <= max
}

/// What `str::parse` reads from `s` into an unsigned integer type whose largest value
/// is `max`: an optional `+`, then one or more decimal digits, and nothing else; no
/// blank is skipped, and a value over `max` is refused.
pub open spec fn parse_unsigned(s: Seq<char>, max: int) -> Option<int> {
    let d = after_plus(s);
    if digits_within(d, max) {
        Some(digits_value(d) as int)
    } else {
        None
    }
}

/// What `str::parse` reads from `s` into a signed integer type ranging over
/// `min ..= max`: an optional `+` or `-`, then one or more decimal digits, and nothing else.
pub open spec fn parse_signed(s: Seq<char>, min: int, max: int) -> Option<int> {
    if s.len() > 0 && s[0] == '-' {
        let d = s.drop_first();
        if digits_within(d, -min) {
            Some(-(digits_value(d) as int))
        } else {
            None
        }
    } else {
        parse_unsigned(s, max)
    }
}

pub open spec fn parse_u32_spec(s: Seq<char>) -> Option<u32> {
    match parse_unsigned(s, u32::MAX as int) {
        Some(v) => Some(v as u32),
        None => None,
    }
}

pub open spec fn parse_usize_spec(s: Seq<char>) -> Option<usize> {
    match parse_unsigned(s, usize::MAX as int) {
        Some(v) => Some(v as usize),
        None => None,
    }
}

pub open spec fn parse_i16_spec(s: Seq<char>) -> Option<i16> {
    match parse_signed(s, i16::MIN as int, i16::MAX as int) {
        Some(v) => Some(v as i16),
        None => None,
    }
}

pub open spec fn parse_i32_spec(s: Seq<char>) -> Option<i32> {
    match parse_signed(s, i32::MIN as int, i32::MAX as int) {
        Some(v) => Some(v as i32),
        None => None,
    }
}

/// A prefix of a run of digits spells no more than the whole run.
pub proof fn lemma_digits_value_prefix(s: Seq<char>, k: int)
    requires
        all_digits(s),
        0 <= k <= s.len(),
    ensures
        digits_value(s.subrange(0, k)) <= digits_value(s),
    decreases s.len(),
{
    if k < s.len() {
        assert(s.drop_last().subrange(0, k) =~= s.subrange(0, k));
        lemma_digits_value_prefix(s.drop_last(), k);
        assert(is_digit(s[s.len() - 1]));
    } else {
        assert(s.subrange(0, k) =~= s);
    }
}

/// The decimal spelling of `n` is a non-empty run of digits that spells `n`.
pub proof fn lemma_decimal_digits(n: nat)
    ensures
        decimal(n).len() > 0,
        all_digits(decimal(n)),
        digits_value(decimal(n)) == n,
    decreases n,
{
    let c = digit_char((n % 10) as int);
    assert(digit_value(c) == n % 10);
    if n < 10 {
        let s = decimal(n);
        assert(s.drop_last() =~= Seq::<char>::empty());
        assert(s.last() == c);
        assert(digits_value(s) == digits_value(s.drop_last()) * 10 + digit_value(c));
        assert(n % 10 == n);
    } else {
        lemma_decimal_digits(n / 10);
        let d = decimal(n / 10);
        let s = decimal(n);
        assert(s =~= d.push(digit_char((n % 10) as int)));
        assert(s.drop_last() =~= d);
        assert(s.last() == c);
        assert(digits_value(s) == digits_value(d) * 10 + digit_value(c));
        assert((n / 10) * 10 + n % 10 == n);
        assert forall|i: int| 0 <= i < s.len() implies is_digit(#[trigger] s[i]) by {
            if i < d.len() {
                assert(s[i] == d[i]);
            }
        }
    }
}

/// Different numbers have different decimal spellings, and a spelling holds only digits.
pub proof fn lemma_decimal_injective(m: nat, n: nat)
    ensures
        decimal(m) == decimal(n) ==> m == n,
        forall|c: char| !is_digit(c) ==> !decimal(m).contains(c),
{
    lemma_decimal_digits(m);
    lemma_decimal_digits(n);
    assert forall|c: char| !is_digit(c) implies !decimal(m).contains(c) by {
        if decimal(m).contains(c) {
            let i = choose|i: int| 0 <= i < decimal(m).len() && decimal(m)[i] == c;
            assert(is_digit(decimal(m)[i]));
        }
    }
}

/// Reading back the decimal spelling of an unsigned number gives the number.
pub proof fn lemma_parse_unsigned_decimal(n: nat, max: int)
    requires
        n <= max,
    ensures
        parse_unsigned(decimal(n), max) == Some(n as int),
{
    lemma_decimal_digits(n);
    let s = decimal(n);
    assert(is_digit(s[0]));
    assert(after_plus(s) == s);
}

/// Reading back the decimal spelling of a signed number gives the number.
pub proof fn lemma_parse_signed_decimal(i: int, min: int, max: int)
    requires
        min <= i <= max,
        min <= 0,
    ensures
        parse_signed(signed_decimal(i), min, max) == Some(i),
{
    if i < 0 {
        let m = (-i) as nat;
        lemma_decimal_digits(m);
        let s = signed_decimal(i);
        assert(s.drop_first() =~= decimal(m));
    } else {
        lemma_decimal_digits(i as nat);
        let s = decimal(i as nat);
        assert(is_digit(s[0]));
        lemma_parse_unsigned_decimal(i as nat, max);
    }
}

/// The one-character text of the digit `d`.
fn digit_text(d: u64) -> (t: &'static str)
    requires
        d < 10,
    ensures
        t@ == seq![digit_char(d as int)],
{
    proof {
        reveal_strlit("0");
        reveal_strlit("1");
        reveal_strlit("2");
        reveal_strlit("3");
        reveal_strlit("4");
        reveal_strlit("5");
        reveal_strlit("6");
        reveal_strlit("7");
        reveal_strlit("8");
        reveal_strlit("9");
    }
    if d == 0 {
        "0"
    } else if d == 1 {
        "1"
    } else if d == 2 {
        "2"
    } else if d == 3 {
        "3"
    } else if d == 4 {
        "4"
    } else if d == 5 {
        "5"
    } else if d == 6 {
        "6"
    } else if d == 7 {
        "7"
    } else if d == 8 {
        "8"
    } else {
        "9"
    }
}

/// The decimal text of `n`, as `n.to_string()` writes it.
pub fn format_unsigned(n: u64) -> (s: String)
    ensures
        s@ == decimal(n as nat),
    decreases n,
{
    if n < 10 {
        String::from_str(digit_text(n))
    } else {
        let mut s = format_unsigned(n / 10);
        s.append(digit_text(n % 10));
        s
    }
}

/// The decimal text of `n`, as `n.to_string()` writes it.
pub fn format_signed(n: i64) -> (s: String)
    ensures
        s@ == signed_decimal(n as int),
{
    if n < 0 {
        let magnitude: u64 = (0i128 - n as i128) as u64;
        let mut s = String::from_str("-");
        proof {
            reveal_strlit("-");
        }
        let digits = format_unsigned(magnitude);
        s.append(digits.as_str());
        s
    } else {
        format_unsigned(n as u64)
    }
}

/// Reads the characters of `s` from `start` on as a run of decimal digits whose
/// value is at most `max`.
fn read_digits(s: &str, start: usize, max: u64) -> (r: Option<u64>)
    requires
        start <= s@.len(),
    ensures
        ({
            let d = s@.subrange(start as int, s@.len() as int);
            match r {
                Some(v) => digits_within(d, max as int) && v == digits_value(d),
                None => !digits_within(d, max as int),
            }
        }),
{
    let len = s.unicode_len();
    if start == len {
        return None;
    }
    let ghost d = s@.subrange(start as int, s@.len() as int);
    let mut acc: u64 = 0;
    let mut i: usize = start;
    while i < len
        invariant
            start <= i <= len,
            len == s@.len(),
            d == s@.subrange(start as int, s@.len() as int),
            acc <= max,
            all_digits(d.subrange(0, i - start)),
            acc == digits_value(d.subrange(0, i - start)),
        decreases len - i,
    {
        let c = s.get_char(i);
        let ghost k = i - start;
        assert(d[k] == c);
        if c < '0' || c > '9' {
            assert(!all_digits(d));
            return None;
        }
        let dv: u64 = (c as u32 - '0' as u32) as u64;
        assert(d.subrange(0, k + 1).drop_last() =~= d.subrange(0, k));
        assert(d.subrange(0, k + 1).last() == c);
        assert(all_digits(d.subrange(0, k + 1))) by {
            assert forall|j: int| 0 <= j < k + 1 implies is_digit(#[trigger] d.subrange(0, k + 1)[j]) by {
                if j < k {
                    assert(d.subrange(0, k + 1)[j] == d.subrange(0, k)[j]);
                }
            }
        }
        if dv > max || acc > (max - dv) / 10 {
            proof {
                assert(digits_value(d.subrange(0, k + 1)) == acc * 10 + dv);
                assert(acc * 10 + dv > max) by (nonlinear_arith)
                    requires
                        dv > max || acc > (max - dv) / 10,
                        acc >= 0,
                ;
                if all_digits(d) {
                    lemma_digits_value_prefix(d, k + 1);
                }
            }
            return None;
        }
        proof {
            assert(acc * 10 + dv <= max) by (nonlinear_arith)
                requires
                    acc <= (max - dv) / 10,
                    dv <= max,
            ;
        }
        acc = acc * 10 + dv;
        i = i + 1;
    }
    assert(d.subrange(0, len - start) =~= d);
    Some(acc)
}

/// `s.parse::<u32>()`, with the error dropped.
pub fn parse_u32(s: &str) -> (r: Option<u32>)
    ensures
        r == parse_u32_spec(s@),
{
    let len = s.unicode_len();
    let start: usize = if len > 0 && s.get_char(0) == '+' { 1 } else { 0 };
    proof {
        let d = after_plus(s@);
        assert(d =~= s@.subrange(start as int, s@.len() as int));
    }
    match read_digits(s, start, u32::MAX as u64) {
        Some(v) => Some(v as u32),
        None => None,
    }
}

/// `s.parse::<usize>()`, with the error dropped.
pub fn parse_usize(s: &str) -> (r: Option<usize>)
    ensures
        r == parse_usize_spec(s@),
{
    let len = s.unicode_len();
    let start: usize = if len > 0 && s.get_char(0) == '+' { 1 } else { 0 };
    proof {
        assert(after_plus(s@) =~= s@.subrange(start as int, s@.len() as int));
    }
    match read_digits(s, start, usize::MAX as u64) {
        Some(v) => Some(v as usize),
        None => None,
    }
}

/// Reads a signed decimal text whose value lies in `-neg_limit ..= pos_limit`.
fn parse_signed_in(s: &str, neg_limit: u64, pos_limit: u64) -> (r: Option<i64>)
    requires
        neg_limit <= u32::MAX as u64 + 1,
        pos_limit <= u32::MAX as u64,
    ensures
        match r {
            Some(v) => parse_signed(s@, -(neg_limit as int), pos_limit as int) == Some(v as int),
            None => parse_signed(s@, -(neg_limit as int), pos_limit as int) is None,
        },
{
    let len = s.unicode_len();
    if len > 0 && s.get_char(0) == '-' {
        proof {
            assert(s@.drop_first() =~= s@.subrange(1, s@.len() as int));
        }
        match read_digits(s, 1, neg_limit) {
            Some(v) => Some(0i64 - v as i64),
            None => None,
        }
    } else {
        let start: usize = if len > 0 && s.get_char(0) == '+' { 1 } else { 0 };
        proof {
            assert(after_plus(s@) =~= s@.subrange(start as int, s@.len() as int));
        }
        match read_digits(s, start, pos_limit) {
            Some(v) => Some(v as i64),
            None => None,
        }
    }
}

/// `s.parse::<i16>()`, with the error dropped.
pub fn parse_i16(s: &str) -> (r: Option<i16>)
    ensures
        r == parse_i16_spec(s@),
{
    match parse_signed_in(s, 32768, 32767) {
        Some(v) => Some(v as i16),
        None => None,
    }
}

/// `s.parse::<i32>()`, with the error dropped.
pub fn parse_i32(s: &str) -> (r: Option<i32>)
    ensures
        r == parse_i32_spec(s@),
{
    match parse_signed_in(s, 2147483648, 2147483647) {
        Some(v) => Some(v as i32),
        None => None,
    }
}


/// Whether `c` is a hexadecimal digit (either case).
pub open spec fn is_hex_digit(c: char) -> bool {
    ('0' <= c && c <= '9') || ('a' <= c && c <= 'f') || ('A' <= c && c <= 'F')
}

pub open spec fn hex_digit_value(c: char) -> int {
    if '0' <= c && c <= '9' {
        c as int - '0' as int
    } else if 'a' <= c && c <= 'f' {
        c as int - 'a' as int + 10
    } else {
        c as int - 'A' as int + 10
    }
}

pub open spec fn all_hex_digits(s: Seq<char>) -> bool {
    forall|i: int| 0 <= i < s.len() ==> is_hex_digit(#[trigger] s[i])
}

/// The number that a run of hexadecimal digits spells, most significant first.
pub open spec fn hex_value(s: Seq<char>) -> nat
    decreases s.len(),
{
    if s.len() == 0 {
        0
    } else {
        (hex_value(s.drop_last()) * 16 + hex_digit_value(s.last())) as nat
    }
}

/// What `u32::from_str_radix(s, 16)` reads: one or more hexadecimal digits (after an
/// optional `+`) whose value fits in a `u32`.
pub open spec fn parse_hex_u32_spec(s: Seq<char>) -> Option<u32> {
    let d = after_plus(s);
    if d.len() > 0 && all_hex_digits(d) && hex_value(d) <= u32::MAX {
        Some(hex_value(d) as u32)
    } else {
        None
    }
}

/// A prefix of a run of hexadecimal digits spells no more than the whole run.
pub proof fn lemma_hex_value_prefix(s: Seq<char>, k: int)
    requires
        all_hex_digits(s),
        0 <= k <= s.len(),
    ensures
        hex_value(s.subrange(0, k)) <= hex_value(s),
    decreases s.len(),
{
    if k < s.len() {
        assert(s.drop_last().subrange(0, k) =~= s.subrange(0, k));
        lemma_hex_value_prefix(s.drop_last(), k);
        assert(is_hex_digit(s[s.len() - 1]));
    } else {
        assert(s.subrange(0, k) =~= s);
    }
}

/// `u32::from_str_radix(s, 16)`, with the error dropped.
pub fn parse_hex_u32(s: &str) -> (r: Option<u32>)
    ensures
        r == parse_hex_u32_spec(s@),
{
    let len = s.unicode_len();
    let start: usize = if len > 0 && s.get_char(0) == '+' { 1 } else { 0 };
    let ghost d = s@.subrange(start as int, s@.len() as int);
    proof {
        assert(after_plus(s@) =~= d);
    }
    if start == len {
        return None;
    }
    let mut acc: u64 = 0;
    let mut i: usize = start;
    while i < len
        invariant
            start <= i <= len,
            len == s@.len(),
            d == s@.subrange(start as int, s@.len() as int),
            after_plus(s@) == d,
            acc <= u32::MAX,
            all_hex_digits(d.subrange(0, i - start)),
            acc == hex_value(d.subrange(0, i - start)),
        decreases len - i,
    {
        let c = s.get_char(i);
        let ghost k = i - start;
        assert(d[k] == c);
        let dv: u64 = if '0' <= c && c <= '9' {
            (c as u32 - '0' as u32) as u64
        } else if 'a' <= c && c <= 'f' {
            (c as u32 - 'a' as u32 + 10) as u64
        } else if 'A' <= c && c <= 'F' {
            (c as u32 - 'A' as u32 + 10) as u64
        } else {
            assert(!all_hex_digits(d));
            return None;
        };
        assert(d.subrange(0, k + 1).drop_last() =~= d.subrange(0, k));
        assert(d.subrange(0, k + 1).last() == c);
        assert(all_hex_digits(d.subrange(0, k + 1))) by {
            assert forall|j: int| 0 <= j < k + 1 implies is_hex_digit(#[trigger] d.subrange(0, k + 1)[j]) by {
                if j < k {
                    assert(d.subrange(0, k + 1)[j] == d.subrange(0, k)[j]);
                }
            }
        }
        let next: u64 = acc * 16 + dv;
        assert(hex_value(d.subrange(0, k + 1)) == next);
        if next > 0xffff_ffff {
            proof {
                if all_hex_digits(d) {
                    lemma_hex_value_prefix(d, k + 1);
                }
            }
            return None;
        }
        acc = next;
        i = i + 1;
    }
    assert(d.subrange(0, len - start) =~= d);
    Some(acc as u32)
}


/// The upper-case hexadecimal digit of `d` (0 ..= 15).
pub open spec fn hex_char(d: int) -> char {
    if d < 10 {
        digit_char(d)
    } else {
        ('A' as int + (d - 10)) as char
    }
}

/// The last `n` hexadecimal digits of `v`, upper case, most significant first.
pub open spec fn hex_text(v: nat, n: nat) -> Seq<char>
    decreases n,
{
    if n == 0 {
        Seq::empty()
    } else {
        hex_text(v / 16, (n - 1) as nat).push(hex_char((v % 16) as int))
    }
}

fn hex_digit_text(d: u64) -> (t: &'static str)
    requires
        d < 16,
    ensures
        t@ == seq![hex_char(d as int)],
{
    proof {
        reveal_strlit("0");
        reveal_strlit("1");
        reveal_strlit("2");
        reveal_strlit("3");
        reveal_strlit("4");
        reveal_strlit("5");
        reveal_strlit("6");
        reveal_strlit("7");
        reveal_strlit("8");
        reveal_strlit("9");
        reveal_strlit("A");
        reveal_strlit("B");
        reveal_strlit("C");
        reveal_strlit("D");
        reveal_strlit("E");
        reveal_strlit("F");
    }
    if d == 0 {
        "0"
    } else if d == 1 {
        "1"
    } else if d == 2 {
        "2"
    } else if d == 3 {
        "3"
    } else if d == 4 {
        "4"
    } else if d == 5 {
        "5"
    } else if d == 6 {
        "6"
    } else if d == 7 {
        "7"
    } else if d == 8 {
        "8"
    } else if d == 9 {
        "9"
    } else if d == 10 {
        "A"
    } else if d == 11 {
        "B"
    } else if d == 12 {
        "C"
    } else if d == 13 {
        "D"
    } else if d == 14 {
        "E"
    } else {
        "F"
    }
}

/// `format!("{:0width$X}", v)` for a `v` below `16^width`: `width` upper-case
/// hexadecimal digits.
pub fn format_hex_upper(v: u64, width: u64) -> (s: String)
    ensures
        s@ == hex_text(v as nat, width as nat),
    decreases width,
{
    if width == 0 {
        String::new()
    } else {
        let mut s = format_hex_upper(v / 16, width - 1);
        s.append(hex_digit_text(v % 16));
        s
    }
}

} // verus!
