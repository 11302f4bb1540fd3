//! Text as sequences of characters: comparing, searching, trimming, and
//! writing and reading decimal numbers.
use vstd::prelude::*;
use vstd::string::*;

verus! {

/// `String::push` appends one character at the end.
pub assume_specification[ String::push ](s: &mut String, c: char)
    ensures
        final(s)@ == old(s)@.push(c),
;

/// The text of an optional string.
pub open spec fn opt_text(o: Option<String>) -> Option<Seq<char>> {
    match o {
        Some(s) => Some(s@),
        None => None,
    }
}

/// The text of an optional string slice.
pub open spec fn opt_str(o: Option<&str>) -> Option<Seq<char>> {
    match o {
        Some(s) => Some(s@),
        None => None,
    }
}

/// The texts of a list of strings.
pub open spec fn texts(v: Seq<String>) -> Seq<Seq<char>> {
    v.map_values(|s: String| s@)
}

/// The characters of `s`, in order.
pub fn chars_of(s: &str) -> (r: Vec<char>)
    ensures
        r@ == s@,
{
    let mut out: Vec<char> = Vec::new();
    for c in it: s.chars()
        invariant
            it.seq() == s@,
            out@ == it.seq().take(it.index()),
    {
        out.push(c);
    }
    out
}

/// The string made of `chars[from..to]`.
pub fn string_from(chars: &Vec<char>, from: usize, to: usize) -> (r: String)
    requires
        from <= to <= chars@.len(),
    ensures
        r@ == chars@.subrange(from as int, to as int),
{
    let mut out = String::new();
    let mut i: usize = from;
    while i < to
        invariant
            from <= i <= to <= chars@.len(),
            out@ == chars@.subrange(from as int, i as int),
        decreases to - i,
    {
        out.push(chars[i]);
        i += 1;
    }
    out
}

/// Whether two texts hold the same characters.
pub fn same(a: &str, b: &str) -> (r: bool)
    ensures
        r == (a@ == b@),
{
    let x = a.as_bytes();
    let y = b.as_bytes();
    if x.len() != y.len() {
        return false;
    }
    let mut i: usize = 0;
    while i < x.len()
        invariant
            x@ == a.spec_bytes(),
            y@ == b.spec_bytes(),
            x@.len() == y@.len(),
            i <= x@.len(),
            x@.take(i as int) == y@.take(i as int),
        decreases x@.len() - i,
    {
        if x[i] != y[i] {
            return false;
        }
        proof {
            assert(x@.take(i + 1) =~= x@.take(i as int).push(x@[i as int]));
            assert(y@.take(i + 1) =~= y@.take(i as int).push(y@[i as int]));
        }
        i += 1;
    }
    proof {
        assert(x@ =~= x@.take(i as int));
        assert(y@ =~= y@.take(i as int));
        vstd::utf8::encode_utf8_decode_utf8(a@);
        vstd::utf8::encode_utf8_decode_utf8(b@);
    }
    true
}

/// Whether two optional texts are equal.
pub fn same_opt(a: &Option<String>, b: &Option<String>) -> (r: bool)
    ensures
        r == (opt_text(*a) == opt_text(*b)),
{
    match (a, b) {
        (Some(x), Some(y)) => same(x.as_str(), y.as_str()),
        (None, None) => true,
        _ => false,
    }
}

/// Copies of the strings.
pub fn copy_texts(parts: &Vec<String>) -> (r: Vec<String>)
    ensures
        texts(r@) == texts(parts@),
{
    let mut out: Vec<String> = Vec::new();
    let mut i: usize = 0;
    while i < parts.len()
        invariant
            i <= parts@.len(),
            out@ == parts@.take(i as int),
        decreases parts@.len() - i,
    {
        out.push(parts[i].clone());
        i += 1;
    }
    proof {
        assert(parts@.take(i as int) =~= parts@);
    }
    out
}

/// The digit character of `d`.
pub open spec fn digit_char(d: nat) -> char
    recommends
        d < 10,
{
    (('0' as nat) + d) as char
}

/// The decimal digits of `n`, without leading zeros.
pub open spec fn decimal(n: nat) -> Seq<char>
    decreases n,
{
    if n < 10 {
        seq![digit_char(n)]
    } else {
        decimal(n / 10).push(digit_char(n % 10))
    }
}

/// The decimal digits of `n`, after a `-` where it is negative.
pub open spec fn signed_decimal(n: int) -> Seq<char> {
    if n < 0 {
        seq!['-'] + decimal((-n) as nat)
    } else {
        decimal(n as nat)
    }
}

/// Appends the decimal digits of `n`.
pub fn push_decimal(out: &mut String, n: u64)
    ensures
        final(out)@ == old(out)@ + decimal(n as nat),
    decreases n,
{
    if n >= 10 {
        push_decimal(out, n / 10);
    }
    let digit: u8 = (n % 10) as u8;
    out.push((48 + digit) as char);
    proof {
        if n >= 10 {
            assert(final(out)@ =~= old(out)@ + decimal(n as nat));
        }
    }
}

/// Appends `n` in decimal, with its sign where it is negative.
pub fn push_signed(out: &mut String, n: i64)
    ensures
        final(out)@ == old(out)@ + signed_decimal(n as int),
{
    if n < 0 {
        out.push('-');
        let magnitude: u64 = (-(n + 1)) as u64 + 1;
        push_decimal(out, magnitude);
    } else {
        push_decimal(out, n as u64);
    }
}

/// The first position from `from` on that holds `x`; the length where none does.
pub open spec fn seek<T>(s: Seq<T>, x: T, from: int) -> int
    decreases s.len() - from,
{
    if from >= s.len() {
        s.len() as int
    } else if s[from] == x {
        from
    } else {
        seek(s, x, from + 1)
    }
}

/// What [`seek`] gives: no `x` before it, and `x` there unless it is the length.
pub proof fn seek_is_first<T>(s: Seq<T>, x: T, from: int)
    requires
        0 <= from <= s.len(),
    ensures
        from <= seek(s, x, from) <= s.len(),
        seek(s, x, from) < s.len() ==> s[seek(s, x, from)] == x,
        forall|i: int| from <= i < seek(s, x, from) ==> s[i] != x,
    decreases s.len() - from,
{
    if from < s.len() && s[from] != x {
        seek_is_first(s, x, from + 1);
    }
}

/// The last position before `to` that holds `x`; `-1` where none does.
pub open spec fn seek_back<T>(s: Seq<T>, x: T, to: int) -> int
    decreases to,
{
    if to <= 0 {
        -1
    } else if s[to - 1] == x {
        to - 1
    } else {
        seek_back(s, x, to - 1)
    }
}

/// What [`seek_back`] gives lies before where the search started.
pub proof fn seek_back_lies_before<T>(s: Seq<T>, x: T, to: int)
    requires
        0 <= to,
    ensures
        -1 <= seek_back(s, x, to) < to || (to == 0 && seek_back(s, x, to) == -1),
    decreases to,
{
    if to > 0 && s[to - 1] != x {
        seek_back_lies_before(s, x, to - 1);
    }
}

/// Finds `c` from `from` on.
pub fn find_char(s: &Vec<char>, c: char, from: usize) -> (r: usize)
    requires
        from <= s@.len(),
    ensures
        r == seek(s@, c, from as int),
        from <= r <= s@.len(),
        r < s@.len() ==> s@[r as int] == c,
        forall|i: int| from <= i < r ==> s@[i] != c,
{
    let mut i: usize = from;
    while i < s.len() && s[i] != c
        invariant
            from <= i <= s@.len(),
            seek(s@, c, from as int) == seek(s@, c, i as int),
            forall|j: int| from <= j < i ==> s@[j] != c,
        decreases s@.len() - i,
    {
        i += 1;
    }
    i
}

/// Finds `b` from `from` on.
pub fn find_byte(s: &[u8], b: u8, from: usize) -> (r: usize)
    requires
        from <= s@.len(),
    ensures
        r == seek(s@, b, from as int),
        from <= r <= s@.len(),
        r < s@.len() ==> s@[r as int] == b,
        forall|i: int| from <= i < r ==> s@[i] != b,
{
    let mut i: usize = from;
    while i < s.len() && s[i] != b
        invariant
            from <= i <= s@.len(),
            seek(s@, b, from as int) == seek(s@, b, i as int),
            forall|j: int| from <= j < i ==> s@[j] != b,
        decreases s@.len() - i,
    {
        i += 1;
    }
    i
}

/// Finds the last `c`; `None` where there is none.
pub fn find_last_char(s: &Vec<char>, c: char) -> (r: Option<usize>)
    ensures
        match r {
            Some(k) => k < s@.len() && k == seek_back(s@, c, s@.len() as int),
            None => seek_back(s@, c, s@.len() as int) == -1,
        },
{
    let mut i: usize = s.len();
    while i > 0
        invariant
            i <= s@.len(),
            seek_back(s@, c, s@.len() as int) == seek_back(s@, c, i as int),
        decreases i,
    {
        if s[i - 1] == c {
            return Some(i - 1);
        }
        i -= 1;
    }
    None
}

/// The pieces of `s` between occurrences of `sep`, empty ones kept.
pub open spec fn pieces<T>(s: Seq<T>, sep: T) -> Seq<Seq<T>>
    decreases s.len(),
{
    let k = seek(s, sep, 0);
    if 0 <= k < s.len() {
        seq![s.take(k)] + pieces(s.skip(k + 1), sep)
    } else {
        seq![s]
    }
}

/// The pieces of `s` between occurrences of `sep`, each a string of its own.
pub fn pieces_of(s: &str, sep: char) -> (r: Vec<String>)
    ensures
        texts(r@) == pieces(s@, sep),
{
    let chars = chars_of(s);
    let mut out: Vec<String> = Vec::new();
    let mut start: usize = 0;
    proof {
        assert(s@.skip(0) =~= s@);
    }
    loop
        invariant
            start <= chars@.len(),
            chars@ == s@,
            pieces(s@, sep) == texts(out@) + pieces(s@.skip(start as int), sep),
        decreases chars@.len() - start,
    {
        let k: usize = find_char(&chars, sep, start);
        let ghost rest = s@.skip(start as int);
        let ghost before = texts(out@);
        out.push(string_from(&chars, start, k));
        proof {
            seek_in_suffix(s@, sep, start as int, 0);
            assert(rest.take(k - start) =~= s@.subrange(start as int, k as int));
            assert(texts(out@) =~= before.push(rest.take(k - start)));
            if k < s@.len() {
                assert(rest.skip(k - start + 1) =~= s@.skip(k + 1));
                assert(before + (seq![rest.take(k - start)] + pieces(s@.skip(k + 1), sep))
                    =~= before.push(rest.take(k - start)) + pieces(s@.skip(k + 1), sep));
            } else {
                assert(rest.take(k - start) =~= rest);
                assert(before + seq![rest] =~= before.push(rest));
            }
        }
        if k >= chars.len() {
            return out;
        }
        start = k + 1;
    }
}

/// How often `x` occurs in `s`.
pub open spec fn count<T>(s: Seq<T>, x: T) -> nat
    decreases s.len(),
{
    if s.len() == 0 {
        0
    } else {
        count(s.drop_last(), x) + if s.last() == x {
            1nat
        } else {
            0nat
        }
    }
}

/// How often `c` occurs in `s`.
pub fn count_char(s: &str, c: char) -> (r: usize)
    ensures
        r == count(s@, c),
{
    let chars = chars_of(s);
    let mut n: usize = 0;
    let mut i: usize = 0;
    while i < chars.len()
        invariant
            i <= chars@.len(),
            chars@ == s@,
            n <= i,
            n == count(s@.take(i as int), c),
        decreases chars@.len() - i,
    {
        proof {
            assert(s@.take(i + 1).drop_last() =~= s@.take(i as int));
        }
        if chars[i] == c {
            n += 1;
        }
        i += 1;
    }
    proof {
        assert(s@.take(i as int) =~= s@);
    }
    n
}

/// A line without the `\r` of a `\r\n` that ended it.
pub open spec fn without_return(line: Seq<char>) -> Seq<char> {
    if line.len() > 0 && line.last() == '\r' {
        line.drop_last()
    } else {
        line
    }
}

/// The lines of `s`: each ends with `\n` or `\r\n`, the last one perhaps with
/// neither.
pub open spec fn lines(s: Seq<char>) -> Seq<Seq<char>>
    decreases s.len(),
{
    let k = seek(s, '\n', 0);
    if s.len() == 0 {
        Seq::empty()
    } else if 0 <= k < s.len() {
        seq![without_return(s.take(k))] + lines(s.skip(k + 1))
    } else {
        seq![s]
    }
}

/// Searching a suffix is searching the whole from where the suffix starts.
pub proof fn seek_in_suffix<T>(s: Seq<T>, x: T, start: int, from: int)
    requires
        0 <= start,
        0 <= from,
        start + from <= s.len(),
    ensures
        seek(s.skip(start), x, from) == seek(s, x, start + from) - start,
    decreases s.len() - start - from,
{
    if start + from < s.len() {
        assert(s.skip(start)[from] == s[start + from]);
        if s[start + from] != x {
            seek_in_suffix(s, x, start, from + 1);
        }
    }
}

/// The lines of `s`, each a string of its own.
pub fn lines_of(s: &str) -> (r: Vec<String>)
    ensures
        texts(r@) == lines(s@),
{
    let chars = chars_of(s);
    let mut out: Vec<String> = Vec::new();
    let mut start: usize = 0;
    proof {
        assert(s@.skip(0) =~= s@);
    }
    while start < chars.len()
        invariant
            start <= chars@.len(),
            chars@ == s@,
            lines(s@) == texts(out@) + lines(s@.skip(start as int)),
        decreases chars@.len() - start,
    {
        let k: usize = find_char(&chars, '\n', start);
        let ghost rest = s@.skip(start as int);
        let ghost before = texts(out@);
        proof {
            seek_in_suffix(s@, '\n', start as int, 0);
        }
        if k >= chars.len() {
            out.push(string_from(&chars, start, k));
            proof {
                assert(rest =~= s@.subrange(start as int, k as int));
                assert(texts(out@) =~= before.push(rest));
                assert(lines(s@.skip(k as int)) =~= Seq::empty());
                assert(before + seq![rest] =~= before.push(rest));
            }
            start = k;
        } else {
            let end: usize = if k > start && chars[k - 1] == '\r' {
                k - 1
            } else {
                k
            };
            out.push(string_from(&chars, start, end));
            proof {
                let line = without_return(rest.take(k - start));
                assert(line =~= s@.subrange(start as int, end as int));
                assert(rest.skip(k - start + 1) =~= s@.skip(k + 1));
                assert(texts(out@) =~= before.push(line));
                assert(before + (seq![line] + lines(s@.skip(k + 1))) =~= before.push(line)
                    + lines(s@.skip(k + 1)));
            }
            start = k + 1;
        }
    }
    proof {
        assert(lines(s@.skip(start as int)) =~= Seq::empty());
    }
    out
}

/// Whether `c` is white space by the Unicode property of that name.
pub open spec fn is_space(c: char) -> bool {
    ||| c == ' '
    ||| '\x09' <= c <= '\x0d'
    ||| c == '\u{85}'
    ||| c == '\u{a0}'
    ||| c == '\u{1680}'
    ||| '\u{2000}' <= c <= '\u{200a}'
    ||| c == '\u{2028}'
    ||| c == '\u{2029}'
    ||| c == '\u{202f}'
    ||| c == '\u{205f}'
    ||| c == '\u{3000}'
}

/// Whether `c` is white space.
pub fn space(c: char) -> (r: bool)
    ensures
        r == is_space(c),
{
    c == ' ' || ('\x09' <= c && c <= '\x0d') || c == '\u{85}' || c == '\u{a0}' || c == '\u{1680}'
        || ('\u{2000}' <= c && c <= '\u{200a}') || c == '\u{2028}' || c == '\u{2029}' || c
        == '\u{202f}' || c == '\u{205f}' || c == '\u{3000}'
}

/// `s` without its leading white space.
pub open spec fn trim_start(s: Seq<char>) -> Seq<char>
    decreases s.len(),
{
    if s.len() > 0 && is_space(s[0]) {
        trim_start(s.skip(1))
    } else {
        s
    }
}

/// `s` without its trailing white space.
pub open spec fn trim_end(s: Seq<char>) -> Seq<char>
    decreases s.len(),
{
    if s.len() > 0 && is_space(s.last()) {
        trim_end(s.drop_last())
    } else {
        s
    }
}

/// `s` without its leading and trailing white space.
pub open spec fn trimmed(s: Seq<char>) -> Seq<char> {
    trim_end(trim_start(s))
}

/// Where the trimmed part of `chars[from..to]` starts and ends.
pub fn trim_bounds(chars: &Vec<char>, from: usize, to: usize) -> (r: (usize, usize))
    requires
        from <= to <= chars@.len(),
    ensures
        from <= r.0 <= r.1 <= to,
        chars@.subrange(r.0 as int, r.1 as int) == trimmed(
            chars@.subrange(from as int, to as int),
        ),
{
    let ghost whole = chars@.subrange(from as int, to as int);
    let mut start: usize = from;
    while start < to && space(chars[start])
        invariant
            from <= start <= to <= chars@.len(),
            trim_start(whole) == trim_start(chars@.subrange(start as int, to as int)),
        decreases to - start,
    {
        proof {
            assert(chars@.subrange(start as int, to as int).skip(1) =~= chars@.subrange(
                start + 1,
                to as int,
            ));
        }
        start += 1;
    }
    let ghost body = chars@.subrange(start as int, to as int);
    let mut end: usize = to;
    while end > start && space(chars[end - 1])
        invariant
            start <= end <= to <= chars@.len(),
            trim_end(body) == trim_end(chars@.subrange(start as int, end as int)),
        decreases end - start,
    {
        proof {
            assert(chars@.subrange(start as int, end as int).drop_last() =~= chars@.subrange(
                start as int,
                end - 1,
            ));
        }
        end -= 1;
    }
    (start, end)
}

/// `s` without its leading and trailing white space.
pub fn trim(s: &str) -> (r: String)
    ensures
        r@ == trimmed(s@),
{
    let chars = chars_of(s);
    let (start, end): (usize, usize) = trim_bounds(&chars, 0, chars.len());
    proof {
        assert(chars@.subrange(0, chars@.len() as int) =~= s@);
    }
    string_from(&chars, start, end)
}

/// Whether `s` is empty or white space only.
pub fn is_blank(s: &str) -> (r: bool)
    ensures
        r == (trimmed(s@).len() == 0),
{
    let t = trim(s);
    t.as_str().is_empty()
}

/// Whether `c` is a digit in base `base`, at most ten.
pub open spec fn is_digit(c: char, base: nat) -> bool {
    '0' <= c && (c as int) < '0' as int + base
}

/// The number that digits in base `base` write.
pub open spec fn digits_value(s: Seq<char>, base: nat) -> nat
    decreases s.len(),
{
    if s.len() == 0 {
        0
    } else {
        (digits_value(s.drop_last(), base) * base + (s.last() as int - '0' as int)) as nat
    }
}

/// Whether `s` is digits in base `base` only.
pub open spec fn all_digits(s: Seq<char>, base: nat) -> bool {
    forall|i: int| 0 <= i < s.len() ==> #[trigger] is_digit(s[i], base)
}

/// `s` without a leading `+`.
pub open spec fn without_plus(s: Seq<char>) -> Seq<char> {
    if s.len() > 0 && s[0] == '+' {
        s.skip(1)
    } else {
        s
    }
}

/// The unsigned number that a text gives: digits, at least one, perhaps after a
/// `+`; `None` for any other text and for a number over `max`.
pub open spec fn unsigned_of(s: Seq<char>, base: nat, max: nat) -> Option<nat> {
    let digits = without_plus(s);
    if digits.len() > 0 && all_digits(digits, base) && digits_value(digits, base) <= max {
        Some(digits_value(digits, base))
    } else {
        None
    }
}

/// The value of a decimal digit.
fn digit_of(c: char) -> (r: u64)
    requires
        is_digit(c, 10),
    ensures
        r == c as int - '0' as int,
{
    match c {
        '0' => 0,
        '1' => 1,
        '2' => 2,
        '3' => 3,
        '4' => 4,
        '5' => 5,
        '6' => 6,
        '7' => 7,
        '8' => 8,
        _ => 9,
    }
}

/// More digits never write a smaller number.
proof fn digits_value_grows(s: Seq<char>, base: nat, i: int)
    requires
        0 <= i <= s.len(),
        1 <= base <= 10,
        all_digits(s, base),
    ensures
        digits_value(s.take(i), base) <= digits_value(s, base),
    decreases s.len(),
{
    if i < s.len() {
        let shorter = s.drop_last();
        assert forall|j: int| 0 <= j < shorter.len() implies #[trigger] is_digit(
            shorter[j],
            base,
        ) by {
            assert(is_digit(s[j], base));
        }
        digits_value_grows(shorter, base, i);
        assert(shorter.take(i) =~= s.take(i));
        assert(is_digit(s[s.len() - 1], base));
        let v = digits_value(shorter, base);
        assert(v * base >= v) by (nonlinear_arith)
            requires
                base >= 1,
        ;
    } else {
        assert(s.take(i) =~= s);
    }
}

/// Reads the unsigned number of `chars[from..to]` in base eight or ten.
pub fn parse_unsigned(chars: &Vec<char>, from: usize, to: usize, base: u64, max: u64) -> (r: Option<
    u64,
>)
    requires
        from <= to <= chars@.len(),
        base == 8 || base == 10,
    ensures
        match unsigned_of(chars@.subrange(from as int, to as int), base as nat, max as nat) {
            Some(v) => r == Some(v as u64) && v <= max,
            None => r is None,
        },
{
    let ghost whole = chars@.subrange(from as int, to as int);
    let start: usize = if from < to && chars[from] == '+' {
        from + 1
    } else {
        from
    };
    let ghost digits = chars@.subrange(start as int, to as int);
    proof {
        if start > from {
            assert(digits =~= whole.skip(1));
        }
    }
    if start == to {
        return None;
    }
    let mut i: usize = start;
    let mut value: u128 = 0;
    while i < to
        invariant
            from <= start <= i <= to <= chars@.len(),
            start < to,
            base == 8 || base == 10,
            whole == chars@.subrange(from as int, to as int),
            digits == chars@.subrange(start as int, to as int),
            digits == without_plus(whole),
            forall|j: int| 0 <= j < i - start ==> #[trigger] is_digit(digits[j], base as nat),
            value == digits_value(digits.take(i - start), base as nat),
            value <= max,
        decreases to - i,
    {
        let c = chars[i];
        proof {
            assert(digits[i - start] == c);
            assert(digits.take(i + 1 - start).drop_last() =~= digits.take(i - start));
        }
        if c < '0' || c > '9' || (base == 8 && c > '7') {
            proof {
                assert(!is_digit(digits[i - start], base as nat));
            }
            return None;
        }
        let shifted: u128 = if base == 8 {
            value * 8
        } else {
            value * 10
        };
        value = shifted + digit_of(c) as u128;
        i += 1;
        if value > max as u128 {
            proof {
                if all_digits(digits, base as nat) {
                    digits_value_grows(digits, base as nat, i - start);
                }
            }
            return None;
        }
    }
    proof {
        assert(digits.take(i - start) =~= digits);
    }
    Some(value as u64)
}

/// Reads a number that fits 32 bits from the trimmed text.
pub fn parse_trimmed_u32(s: &str) -> (r: Option<u32>)
    ensures
        match unsigned_of(trimmed(s@), 10, u32::MAX as nat) {
            Some(v) => r == Some(v as u32) && v <= u32::MAX,
            None => r is None,
        },
{
    let chars = chars_of(s);
    let (start, end): (usize, usize) = trim_bounds(&chars, 0, chars.len());
    proof {
        assert(chars@.subrange(0, chars@.len() as int) =~= s@);
    }
    match parse_unsigned(&chars, start, end, 10, u32::MAX as u64) {
        Some(v) => Some(v as u32),
        None => None,
    }
}

/// Whether `c` is ASCII white space.
pub open spec fn is_ascii_space(c: char) -> bool {
    c == ' ' || c == '\t' || c == '\n' || c == '\x0c' || c == '\r'
}

/// Whether `c` parts words: any white space, or only that of ASCII.
pub open spec fn parts_words(c: char, ascii: bool) -> bool {
    if ascii {
        is_ascii_space(c)
    } else {
        is_space(c)
    }
}

/// How many characters from `from` on part words, or do not part them.
pub open spec fn run_end(s: Seq<char>, ascii: bool, parting: bool, from: int) -> int
    decreases s.len() - from,
{
    if from < s.len() && parts_words(s[from], ascii) == parting {
        run_end(s, ascii, parting, from + 1)
    } else {
        from
    }
}

/// The words of `s` from `from` on: the longest runs that hold no white space.
pub open spec fn words_from(s: Seq<char>, ascii: bool, from: int) -> Seq<Seq<char>>
    decreases s.len() - from,
{
    let start = run_end(s, ascii, true, from);
    let end = run_end(s, ascii, false, start);
    if 0 <= from <= start < end <= s.len() {
        seq![s.subrange(start, end)] + words_from(s, ascii, end)
    } else {
        Seq::empty()
    }
}

/// The words of `s`.
pub open spec fn words(s: Seq<char>, ascii: bool) -> Seq<Seq<char>> {
    words_from(s, ascii, 0)
}

fn skip_run(chars: &Vec<char>, ascii: bool, parting: bool, from: usize) -> (r: usize)
    requires
        from <= chars@.len(),
    ensures
        from <= r <= chars@.len(),
        r == run_end(chars@, ascii, parting, from as int),
        r < chars@.len() ==> parts_words(chars@[r as int], ascii) != parting,
{
    let mut i: usize = from;
    while i < chars.len()
        invariant
            from <= i <= chars@.len(),
            run_end(chars@, ascii, parting, from as int) == run_end(
                chars@,
                ascii,
                parting,
                i as int,
            ),
        decreases chars@.len() - i,
    {
        let c = chars[i];
        let parts: bool = if ascii {
            c == ' ' || c == '\t' || c == '\n' || c == '\x0c' || c == '\r'
        } else {
            space(c)
        };
        if parts != parting {
            return i;
        }
        i += 1;
    }
    i
}

/// The words of `s`, each a string of its own.
pub fn words_of(s: &str, ascii: bool) -> (r: Vec<String>)
    ensures
        texts(r@) == words(s@, ascii),
{
    let chars = chars_of(s);
    let mut out: Vec<String> = Vec::new();
    let mut i: usize = 0;
    loop
        invariant
            i <= chars@.len(),
            chars@ == s@,
            words(s@, ascii) == texts(out@) + words_from(s@, ascii, i as int),
        decreases chars@.len() - i,
    {
        let start: usize = skip_run(&chars, ascii, true, i);
        let end: usize = skip_run(&chars, ascii, false, start);
        if start >= end {
            proof {
                assert(words_from(s@, ascii, i as int) =~= Seq::empty());
                assert(words(s@, ascii) =~= texts(out@));
            }
            return out;
        }
        let ghost before = texts(out@);
        out.push(string_from(&chars, start, end));
        proof {
            let word = s@.subrange(start as int, end as int);
            assert(texts(out@) =~= before.push(word));
            assert(before + (seq![word] + words_from(s@, ascii, end as int)) =~= before.push(word)
                + words_from(s@, ascii, end as int));
        }
        i = end;
    }
}

/// Whether `pattern` stands in `s` at position `at`.
pub open spec fn stands_at(s: Seq<char>, pattern: Seq<char>, at: int) -> bool {
    0 <= at && at + pattern.len() <= s.len() && s.subrange(at, at + pattern.len()) == pattern
}

/// Whether `pattern` occurs in `s`.
pub open spec fn contains_text(s: Seq<char>, pattern: Seq<char>) -> bool {
    exists|at: int| stands_at(s, pattern, at)
}

/// Whether `pattern` stands in `chars` at position `at`.
pub fn standing_at(chars: &Vec<char>, pattern: &Vec<char>, at: usize) -> (r: bool)
    ensures
        r == stands_at(chars@, pattern@, at as int),
{
    if at > chars.len() || pattern.len() > chars.len() - at {
        return false;
    }
    let length: usize = chars.len();
    let mut i: usize = 0;
    while i < pattern.len()
        invariant
            i <= pattern@.len(),
            length == chars@.len(),
            at + pattern@.len() <= chars@.len(),
            forall|j: int| 0 <= j < i ==> chars@[at + j] == pattern@[j],
        decreases pattern@.len() - i,
    {
        if chars[at + i] != pattern[i] {
            proof {
                assert(chars@.subrange(at as int, at + pattern@.len())[i as int] != pattern@[i as int]);
            }
            return false;
        }
        i += 1;
    }
    proof {
        assert(chars@.subrange(at as int, at + pattern@.len()) =~= pattern@);
    }
    true
}

/// Whether `pattern` occurs in `s`.
pub fn contains(s: &str, pattern: &str) -> (r: bool)
    ensures
        r == contains_text(s@, pattern@),
{
    let chars = chars_of(s);
    let wanted = chars_of(pattern);
    let mut at: usize = 0;
    while at <= chars.len()
        invariant
            at <= chars@.len() + 1,
            chars@ == s@,
            wanted@ == pattern@,
            forall|j: int| 0 <= j < at ==> !stands_at(s@, pattern@, j),
        decreases chars@.len() + 1 - at,
    {
        if standing_at(&chars, &wanted, at) {
            return true;
        }
        if at == chars.len() {
            return false;
        }
        at += 1;
    }
    false
}

/// Whether `s` starts with `pattern`.
pub fn starts_with(s: &str, pattern: &str) -> (r: bool)
    ensures
        r == stands_at(s@, pattern@, 0),
{
    let chars = chars_of(s);
    let wanted = chars_of(pattern);
    standing_at(&chars, &wanted, 0)
}

/// `n` spaces.
pub open spec fn spaces(n: int) -> Seq<char> {
    Seq::new(if n > 0 { n as nat } else { 0 }, |i: int| ' ')
}

/// `s`, followed by as many spaces as `width` characters ask for.
pub open spec fn padded(s: Seq<char>, width: int) -> Seq<char> {
    s + spaces(width - s.len())
}

/// Appends `n` spaces.
pub fn push_spaces(out: &mut String, n: usize)
    ensures
        final(out)@ == old(out)@ + spaces(n as int),
{
    let ghost before = out@;
    let mut i: usize = 0;
    proof {
        assert(before + spaces(0) =~= before);
    }
    while i < n
        invariant
            i <= n,
            out@ == before + spaces(i as int),
        decreases n - i,
    {
        out.push(' ');
        proof {
            assert(spaces(i as int).push(' ') =~= spaces(i + 1));
            assert(before + spaces(i + 1) =~= (before + spaces(i as int)).push(' '));
        }
        i += 1;
    }
}

/// Appends `s` and the spaces that bring it to `width` characters.
pub fn push_padded(out: &mut String, s: &str, width: usize)
    ensures
        final(out)@ == old(out)@ + padded(s@, width as int),
{
    let length: usize = s.unicode_len();
    out.append(s);
    let ghost before = out@;
    if length < width {
        push_spaces(out, width - length);
    } else {
        proof {
            assert(spaces(width - length) =~= Seq::empty());
        }
    }
    proof {
        assert(final(out)@ =~= old(out)@ + padded(s@, width as int));
    }
}

/// The texts with `sep` between neighbours.
pub open spec fn joined(parts: Seq<Seq<char>>, sep: Seq<char>) -> Seq<char>
    decreases parts.len(),
{
    if parts.len() == 0 {
        Seq::empty()
    } else if parts.len() == 1 {
        parts[0]
    } else {
        joined(parts.drop_last(), sep) + sep + parts.last()
    }
}

/// The strings with `sep` between neighbours.
pub fn join(parts: &Vec<String>, sep: &str) -> (r: String)
    ensures
        r@ == joined(texts(parts@), sep@),
{
    let mut out = String::new();
    let mut i: usize = 0;
    while i < parts.len()
        invariant
            i <= parts@.len(),
            out@ == joined(texts(parts@).take(i as int), sep@),
        decreases parts@.len() - i,
    {
        proof {
            assert(texts(parts@).take(i + 1).drop_last() =~= texts(parts@).take(i as int));
        }
        if i > 0 {
            out.append(sep);
        }
        out.append(parts[i].as_str());
        proof {
            if i == 0 {
                assert(out@ =~= texts(parts@).take(1)[0]);
            }
        }
        i += 1;
    }
    proof {
        assert(texts(parts@).take(i as int) =~= texts(parts@));
    }
    out
}

/// The texts one behind the other.
pub open spec fn concat(parts: Seq<Seq<char>>) -> Seq<char>
    decreases parts.len(),
{
    if parts.len() == 0 {
        Seq::empty()
    } else {
        concat(parts.drop_last()) + parts.last()
    }
}

/// `s` behind as many spaces as bring it to `width` characters.
pub open spec fn right_aligned(s: Seq<char>, width: int) -> Seq<char> {
    spaces(width - s.len()) + s
}

/// Appends `n` in decimal, right-aligned to `width` characters.
pub fn push_right_aligned(out: &mut String, n: i64, width: usize)
    ensures
        final(out)@ == old(out)@ + right_aligned(signed_decimal(n as int), width as int),
{
    let mut digits = String::new();
    push_signed(&mut digits, n);
    proof {
        assert(digits@ =~= signed_decimal(n as int));
    }
    let length: usize = digits.as_str().unicode_len();
    if length < width {
        push_spaces(out, width - length);
    } else {
        proof {
            assert(spaces(width - length) =~= Seq::empty());
        }
    }
    out.append(digits.as_str());
    proof {
        assert(final(out)@ =~= old(out)@ + right_aligned(signed_decimal(n as int), width as int));
    }
}

/// Appends `n` in decimal, right-aligned to `width` characters.
pub fn push_right_aligned_count(out: &mut String, n: usize, width: usize)
    ensures
        final(out)@ == old(out)@ + right_aligned(decimal(n as nat), width as int),
{
    let mut digits = String::new();
    push_decimal(&mut digits, n as u64);
    proof {
        assert(digits@ =~= decimal(n as nat));
    }
    let length: usize = digits.as_str().unicode_len();
    if length < width {
        push_spaces(out, width - length);
    } else {
        proof {
            assert(spaces(width - length) =~= Seq::empty());
        }
    }
    out.append(digits.as_str());
    proof {
        assert(final(out)@ =~= old(out)@ + right_aligned(decimal(n as nat), width as int));
    }
}

/// The text of the first `k` bytes of `s`.
pub open spec fn byte_prefix(s: Seq<char>, k: int) -> Seq<char> {
    vstd::utf8::decode_utf8(vstd::utf8::encode_utf8(s).take(k))
}

/// Whether `s` can be cut behind its first `k` bytes: it has as many, and the cut
/// falls between two characters.
pub open spec fn cuts_at(s: Seq<char>, k: int) -> bool {
    vstd::utf8::is_char_boundary(vstd::utf8::encode_utf8(s), k)
}

/// The text of the first `k` bytes of `s`.
pub fn prefix_bytes(s: &str, k: usize) -> (r: String)
    requires
        cuts_at(s@, k as int),
    ensures
        r@ == byte_prefix(s@, k as int),
{
    let (front, back) = s.split_at(k);
    proof {
        vstd::utf8::encode_utf8_decode_utf8(front@);
        cut_lies_within(s@, k as int);
        assert(s.spec_bytes().subrange(0, k as int) =~= s.spec_bytes().take(k as int));
    }
    front.to_owned()
}

/// A text is cut within its bytes only.
proof fn cut_lies_within(s: Seq<char>, k: int)
    requires
        cuts_at(s, k),
    ensures
        0 <= k <= vstd::utf8::encode_utf8(s).len(),
{
    vstd::utf8::encode_utf8_valid_utf8(s);
}

/// The bytes of two texts, one behind the other, are their bytes one behind the
/// other.
pub proof fn bytes_of_a_concatenation(a: Seq<char>, b: Seq<char>)
    ensures
        vstd::utf8::encode_utf8(a + b) == vstd::utf8::encode_utf8(a) + vstd::utf8::encode_utf8(b),
    decreases a.len(),
{
    if a.len() == 0 {
        assert(a + b =~= b);
        assert(vstd::utf8::encode_utf8(a) =~= Seq::empty());
    } else {
        assert((a + b).drop_first() =~= a.drop_first() + b);
        bytes_of_a_concatenation(a.drop_first(), b);
        assert((a + b)[0] == a[0]);
        assert(vstd::utf8::encode_utf8(a + b) =~= vstd::utf8::encode_utf8(a)
            + vstd::utf8::encode_utf8(b));
    }
}

/// The bytes of a text cut behind `k` bytes are the first `k`.
pub proof fn bytes_of_a_prefix(s: Seq<char>, k: int)
    requires
        cuts_at(s, k),
    ensures
        vstd::utf8::encode_utf8(byte_prefix(s, k)) == vstd::utf8::encode_utf8(s).take(k),
        0 <= k <= vstd::utf8::encode_utf8(s).len(),
{
    let bytes = vstd::utf8::encode_utf8(s);
    cut_lies_within(s, k);
    vstd::utf8::encode_utf8_valid_utf8(s);
    vstd::utf8::valid_utf8_split(bytes, k);
    assert(bytes.subrange(0, k) =~= bytes.take(k));
    vstd::utf8::decode_utf8_encode_utf8(bytes.take(k));
}

/// `s` where it has at most `max` bytes, and otherwise its start and three dots,
/// `max` bytes in all.
pub open spec fn shortened(s: Seq<char>, max: int) -> Seq<char> {
    if vstd::utf8::encode_utf8(s).len() <= max {
        s
    } else {
        byte_prefix(s, if max > 3 { max - 3 } else { 0 }) + "..."@
    }
}

/// Whether [`shortened`] cuts `s` between two characters, if at all.
pub open spec fn can_shorten(s: Seq<char>, max: int) -> bool {
    vstd::utf8::encode_utf8(s).len() > max ==> cuts_at(s, if max > 3 { max - 3 } else { 0 })
}

/// A shortened text has no more bytes than asked for, from three on.
pub proof fn shortened_texts_fit(s: Seq<char>, max: int)
    requires
        can_shorten(s, max),
        max >= 3,
    ensures
        vstd::utf8::encode_utf8(shortened(s, max)).len() <= max,
{
    if vstd::utf8::encode_utf8(s).len() > max {
        let cut = if max > 3 {
            max - 3
        } else {
            0
        };
        bytes_of_a_prefix(s, cut);
        bytes_of_a_concatenation(byte_prefix(s, cut), "..."@);
        reveal_strlit("...");
        assert(vstd::utf8::is_ascii_chars("..."@));
        vstd::utf8::is_ascii_chars_encode_utf8("..."@);
    }
}

/// Whether `s` is short enough or can be cut between two characters.
pub fn is_shortenable(s: &str, max: usize) -> (r: bool)
    ensures
        r == can_shorten(s@, max as int),
{
    let cut: usize = if max > 3 {
        max - 3
    } else {
        0
    };
    s.as_bytes().len() <= max || s.is_char_boundary(cut)
}

/// The digits of a number are digits, and their value is the number.
pub proof fn digits_read_back(n: nat)
    ensures
        decimal(n).len() > 0,
        all_digits(decimal(n), 10),
        digits_value(decimal(n), 10) == n,
    decreases n,
{
    let d = decimal(n);
    if n < 10 {
        assert(d.drop_last() =~= Seq::empty());
        assert(digits_value(d.drop_last(), 10) == 0);
    } else {
        digits_read_back(n / 10);
        assert(d.drop_last() =~= decimal(n / 10));
        assert forall|i: int| 0 <= i < d.len() implies #[trigger] is_digit(d[i], 10) by {
            if i < d.len() - 1 {
                assert(is_digit(decimal(n / 10)[i], 10));
            }
        }
    }
}

/// Whether a text is empty or starts with no digit.
pub open spec fn starts_undigit(s: Seq<char>) -> bool {
    s.len() > 0 ==> !is_digit(s[0], 10)
}

/// A number that a text starts with ends where its digits do, so that the text tells
/// the number and what follows it.
pub proof fn leading_numbers_are_told(n: nat, a: Seq<char>, m: nat, b: Seq<char>)
    requires
        decimal(n) + a == decimal(m) + b,
        starts_undigit(a),
        starts_undigit(b),
    ensures
        n == m,
        a == b,
{
    let whole = decimal(n) + a;
    let (k, j) = (decimal(n).len() as int, decimal(m).len() as int);
    digits_read_back(n);
    digits_read_back(m);
    assert(whole.len() == k + a.len() && whole.len() == j + b.len());
    if k < j {
        assert(whole[k] == a[0]);
        assert(whole[k] == decimal(m)[k]);
        assert(is_digit(decimal(m)[k], 10));
    }
    if j < k {
        assert(whole[j] == b[0]);
        assert(whole[j] == decimal(n)[j]);
        assert(is_digit(decimal(n)[j], 10));
    }
    assert(whole.take(k) =~= decimal(n));
    assert(whole.take(j) =~= decimal(m));
    assert(whole.skip(k) =~= a);
    assert(whole.skip(j) =~= b);
}

/// A number that a text ends with starts where its digits do, so that the text tells
/// the number and what comes before it.
pub proof fn final_numbers_are_told(a: Seq<char>, n: nat, b: Seq<char>, m: nat)
    requires
        a + decimal(n) == b + decimal(m),
        a.len() > 0 && !is_digit(a.last(), 10),
        b.len() > 0 && !is_digit(b.last(), 10),
    ensures
        a == b,
        n == m,
{
    let whole = a + decimal(n);
    let (k, j) = (a.len() as int, b.len() as int);
    digits_read_back(n);
    digits_read_back(m);
    assert(whole.len() == k + decimal(n).len() && whole.len() == j + decimal(m).len());
    if k < j {
        assert(whole[j - 1] == b.last());
        assert(whole[j - 1] == decimal(n)[j - 1 - k]);
        assert(is_digit(decimal(n)[j - 1 - k], 10));
    }
    if j < k {
        assert(whole[k - 1] == a.last());
        assert(whole[k - 1] == decimal(m)[k - 1 - j]);
        assert(is_digit(decimal(m)[k - 1 - j], 10));
    }
    assert(whole.take(k) =~= a);
    assert(whole.take(j) =~= b);
    assert(whole.skip(k) =~= decimal(n));
    assert(whole.skip(j) =~= decimal(m));
}

/// A number up to `max` is read back from its digits.
pub proof fn numbers_read_back(n: nat, max: nat)
    requires
        n <= max,
    ensures
        unsigned_of(decimal(n), 10, max) == Some(n),
{
    digits_read_back(n);
    assert(is_digit(decimal(n)[0], 10));
    assert(without_plus(decimal(n)) == decimal(n));
}

/// No line holds a newline.
pub proof fn lines_hold_no_newline(s: Seq<char>, i: int)
    requires
        0 <= i < lines(s).len(),
    ensures
        !lines(s)[i].contains('\n'),
    decreases s.len(),
{
    let k = seek(s, '\n', 0);
    seek_is_first(s, '\n', 0);
    if 0 <= k < s.len() {
        if i == 0 {
            assert forall|j: int| 0 <= j < lines(s)[0].len() implies lines(s)[0][j] != '\n' by {
                assert(s[j] != '\n');
            }
        } else {
            lines_hold_no_newline(s.skip(k + 1), i - 1);
            assert(lines(s)[i] == lines(s.skip(k + 1))[i - 1]);
        }
    } else {
        assert(lines(s)[i] == s);
    }
}

/// Whether a text can stand on a line of its own and be read back from it.
pub open spec fn is_line(s: Seq<char>) -> bool {
    &&& s.len() > 0
    &&& !s.contains('\n')
    &&& s.last() != '\r'
}

proof fn joined_from_front(parts: Seq<Seq<char>>, sep: Seq<char>)
    requires
        parts.len() >= 2,
    ensures
        joined(parts, sep) == parts[0] + sep + joined(parts.skip(1), sep),
    decreases parts.len(),
{
    let rest = parts.skip(1);
    if parts.len() == 2 {
        assert(joined(parts.drop_last(), sep) == parts[0]);
        assert(joined(rest, sep) == parts[1]);
    } else {
        joined_from_front(parts.drop_last(), sep);
        assert(parts.drop_last().skip(1) =~= rest.drop_last());
        assert(rest.last() == parts.last());
        let mid = joined(rest.drop_last(), sep);
        assert(joined(parts, sep) == (parts[0] + sep + mid) + sep + parts.last());
        assert(joined(rest, sep) == mid + sep + parts.last());
        assert((parts[0] + sep + mid) + sep + parts.last() =~= parts[0] + sep + (mid + sep
            + parts.last()));
    }
}

proof fn seek_newline_at(a: Seq<char>, b: Seq<char>, from: int)
    requires
        !a.contains('\n'),
        b.len() > 0,
        b[0] == '\n',
        0 <= from <= a.len(),
    ensures
        seek(a + b, '\n', from) == a.len(),
    decreases a.len() - from,
{
    if from < a.len() {
        assert((a + b)[from] == a[from]);
        assert(a.contains(a[from]));
        seek_newline_at(a, b, from + 1);
    } else {
        assert((a + b)[from] == b[0]);
    }
}

proof fn seek_finds_nothing(a: Seq<char>, from: int)
    requires
        !a.contains('\n'),
        0 <= from <= a.len(),
    ensures
        seek(a, '\n', from) == a.len(),
    decreases a.len() - from,
{
    if from < a.len() {
        assert(a.contains(a[from]));
        seek_finds_nothing(a, from + 1);
    }
}

/// Texts joined by newlines are read back as the lines.
pub proof fn lines_read_back(parts: Seq<Seq<char>>)
    requires
        forall|i: int| 0 <= i < parts.len() ==> is_line(#[trigger] parts[i]),
    ensures
        lines(joined(parts, seq!['\n'])) == parts,
    decreases parts.len(),
{
    let sep = seq!['\n'];
    if parts.len() == 0 {
        assert(lines(joined(parts, sep)) =~= parts);
    } else if parts.len() == 1 {
        assert(is_line(parts[0]));
        seek_finds_nothing(parts[0], 0);
        assert(lines(parts[0]) =~= parts);
    } else {
        let rest = parts.skip(1);
        assert forall|i: int| 0 <= i < rest.len() implies is_line(#[trigger] rest[i]) by {
            assert(is_line(parts[i + 1]));
        }
        joined_from_front(parts, sep);
        lines_read_back(rest);
        let whole = joined(parts, sep);
        let tail = sep + joined(rest, sep);
        assert(is_line(parts[0]));
        assert(whole =~= parts[0] + tail);
        seek_newline_at(parts[0], tail, 0);
        assert(whole.take(parts[0].len() as int) =~= parts[0]);
        assert(whole.skip(parts[0].len() as int + 1) =~= joined(rest, sep));
        assert(without_return(parts[0]) == parts[0]);
        assert(lines(whole) == seq![parts[0]] + rest);
        assert(seq![parts[0]] + rest =~= parts);
    }
}

/// Calls `String::from_utf8`: the text that the bytes encode, and `None` where
/// they are not UTF-8.
#[verifier::external_body]
pub(crate) fn utf8_text(bytes: Vec<u8>) -> (r: Option<String>)
    ensures
        match r {
            Some(s) => vstd::utf8::valid_utf8(bytes@) && s@ == vstd::utf8::decode_utf8(bytes@),
            None => !vstd::utf8::valid_utf8(bytes@),
        },
{
    String::from_utf8(bytes).ok()
}

/// A text that is cut behind `k` bytes is the start of what it was, in `k` bytes.
pub proof fn cuts_give_prefixes(s: Seq<char>, k: int)
    requires
        cuts_at(s, k),
    ensures
        byte_prefix(s, k).len() <= s.len(),
        byte_prefix(s, k) == s.take(byte_prefix(s, k).len() as int),
        vstd::utf8::encode_utf8(byte_prefix(s, k)).len() == k,
{
    let bytes = vstd::utf8::encode_utf8(s);
    bytes_of_a_prefix(s, k);
    vstd::utf8::encode_utf8_valid_utf8(s);
    vstd::utf8::valid_utf8_split(bytes, k);
    assert(bytes.subrange(0, k) =~= bytes.take(k));
    let front = byte_prefix(s, k);
    let back = vstd::utf8::decode_utf8(bytes.subrange(k, bytes.len() as int));
    vstd::utf8::decode_utf8_encode_utf8(bytes.subrange(k, bytes.len() as int));
    bytes_of_a_concatenation(front, back);
    assert(bytes.take(k) + bytes.subrange(k, bytes.len() as int) =~= bytes);
    vstd::utf8::encode_utf8_decode_utf8(front + back);
    vstd::utf8::encode_utf8_decode_utf8(s);
    assert(s == front + back);
    assert(s.take(front.len() as int) =~= front);
}

/// A shortened text is whole where it fits, and otherwise the start of what it was, with
/// three dots behind it.
pub proof fn shortened_texts_keep_their_start(s: Seq<char>, max: int)
    requires
        can_shorten(s, max),
        max >= 3,
    ensures
        vstd::utf8::encode_utf8(s).len() <= max ==> shortened(s, max) == s,
        vstd::utf8::encode_utf8(s).len() > max ==> ({
            let start = shortened(s, max).len() - 3;
            &&& 0 <= start <= s.len()
            &&& shortened(s, max) == s.take(start) + seq!['.', '.', '.']
            &&& vstd::utf8::encode_utf8(s.take(start)).len() == max - 3
        }),
{
    if vstd::utf8::encode_utf8(s).len() > max {
        cuts_give_prefixes(
            s,
            if max > 3 {
                max - 3
            } else {
                0
            },
        );
        reveal_strlit("...");
        assert("..."@ =~= seq!['.', '.', '.']);
    }
}

/// Whether a part stands somewhere in a text.
pub open spec fn stands_in(part: Seq<char>, s: Seq<char>) -> bool {
    exists|before: Seq<char>, after: Seq<char>| s == #[trigger] (before + part + after)
}

/// Texts one behind the other, up to one more.
pub proof fn concat_grows(parts: Seq<Seq<char>>, i: int)
    requires
        0 <= i < parts.len(),
    ensures
        concat(parts.take(i + 1)) == concat(parts.take(i)) + parts[i],
{
    assert(parts.take(i + 1).drop_last() =~= parts.take(i));
}

/// Each of the texts that stand one behind the other stands in the whole.
pub proof fn part_stands_in(parts: Seq<Seq<char>>, i: int)
    requires
        0 <= i < parts.len(),
    ensures
        stands_in(parts[i], concat(parts)),
    decreases parts.len(),
{
    let earlier = parts.drop_last();
    if i == parts.len() - 1 {
        assert(concat(parts) =~= concat(earlier) + parts[i] + Seq::empty());
    } else {
        part_stands_in(earlier, i);
        let (before, after) = choose|before: Seq<char>, after: Seq<char>|
            concat(earlier) == #[trigger] (before + earlier[i] + after);
        assert(concat(parts) =~= before + parts[i] + (after + parts.last()));
    }
}

/// What stands in a text stands in it with others around.
pub proof fn part_stays_in(part: Seq<char>, s: Seq<char>, before: Seq<char>, after: Seq<char>)
    requires
        stands_in(part, s),
    ensures
        stands_in(part, before + s + after),
{
    let (b, a) = choose|b: Seq<char>, a: Seq<char>| s == #[trigger] (b + part + a);
    assert(before + s + after =~= (before + b) + part + (a + after));
}

proof fn trimmed_start(s: Seq<char>) -> (a: int)
    ensures
        0 <= a <= s.len(),
        trim_start(s) == s.skip(a),
        forall|i: int| 0 <= i < a ==> is_space(#[trigger] s[i]),
        a < s.len() ==> !is_space(s[a]),
    decreases s.len(),
{
    if s.len() > 0 && is_space(s[0]) {
        let a = trimmed_start(s.skip(1));
        assert(s.skip(1).skip(a) =~= s.skip(a + 1));
        assert forall|i: int| 0 <= i < a + 1 implies is_space(#[trigger] s[i]) by {
            if i > 0 {
                assert(is_space(s.skip(1)[i - 1]));
            }
        }
        if a + 1 < s.len() {
            assert(s.skip(1)[a] == s[a + 1]);
        }
        a + 1
    } else {
        assert(s.skip(0) =~= s);
        0
    }
}

proof fn trimmed_end(s: Seq<char>) -> (b: int)
    ensures
        0 <= b <= s.len(),
        trim_end(s) == s.take(b),
        forall|i: int| b <= i < s.len() ==> is_space(#[trigger] s[i]),
        b > 0 ==> !is_space(s[b - 1]),
    decreases s.len(),
{
    if s.len() > 0 && is_space(s.last()) {
        let b = trimmed_end(s.drop_last());
        assert(s.drop_last().take(b) =~= s.take(b));
        assert forall|i: int| b <= i < s.len() implies is_space(#[trigger] s[i]) by {
            if i < s.len() - 1 {
                assert(is_space(s.drop_last()[i]));
            }
        }
        b
    } else {
        assert(s.take(s.len() as int) =~= s);
        s.len() as int
    }
}

/// Trimming takes away white space at both ends and nothing else: what is left neither
/// starts nor ends with any. It lies in the text from `r.0` to `r.1`.
pub proof fn trimming_takes_the_ends(s: Seq<char>) -> (r: (int, int))
    ensures
        0 <= r.0 <= r.1 <= s.len(),
        trimmed(s) == s.subrange(r.0, r.1),
        forall|i: int| 0 <= i < r.0 ==> is_space(#[trigger] s[i]),
        forall|i: int| r.1 <= i < s.len() ==> is_space(#[trigger] s[i]),
        trimmed(s).len() > 0 ==> !is_space(trimmed(s)[0]) && !is_space(trimmed(s).last()),
{
    let a = trimmed_start(s);
    let rest = s.skip(a);
    let b = trimmed_end(rest);
    assert(rest.take(b) =~= s.subrange(a, a + b));
    assert forall|i: int| a + b <= i < s.len() implies is_space(#[trigger] s[i]) by {
        assert(is_space(rest[i - a]));
    }
    if b > 0 {
        assert(!is_space(rest[b - 1]));
        if is_space(rest[0]) {
            assert(s[a] == rest[0]);
        }
    }
    (a, a + b)
}

/// A text that neither starts nor ends with white space is trimmed already.
pub proof fn trimmed_texts_stay(s: Seq<char>)
    requires
        s.len() > 0 ==> !is_space(s[0]) && !is_space(s.last()),
    ensures
        trimmed(s) == s,
{
}

proof fn seek_passes<T>(a: Seq<T>, b: Seq<T>, sep: T, from: int)
    requires
        0 <= from <= a.len(),
    ensures
        seek(a, sep, from) < a.len() ==> seek(a + seq![sep] + b, sep, from) == seek(a, sep, from),
        seek(a, sep, from) == a.len() ==> seek(a + seq![sep] + b, sep, from) == a.len(),
    decreases a.len() - from,
{
    let whole = a + seq![sep] + b;
    if from < a.len() {
        assert(whole[from] == a[from]);
        if a[from] != sep {
            seek_passes(a, b, sep, from + 1);
            seek_is_first(a, sep, from + 1);
        }
    } else {
        assert(whole[from] == sep);
    }
}

/// A text falls into pieces at every separator and nowhere else: without one it is one
/// piece, and with one the pieces before it are followed by those behind it.
pub proof fn texts_fall_into_pieces<T>(a: Seq<T>, b: Seq<T>, sep: T)
    ensures
        pieces(a + seq![sep] + b, sep) == pieces(a, sep) + pieces(b, sep),
        (forall|i: int| 0 <= i < a.len() ==> a[i] != sep) ==> pieces(a, sep) == seq![a],
    decreases a.len(),
{
    let whole = a + seq![sep] + b;
    let k = seek(a, sep, 0);
    seek_is_first(a, sep, 0);
    seek_passes(a, b, sep, 0);
    if k < a.len() {
        texts_fall_into_pieces(a.skip(k + 1), b, sep);
        assert(whole.take(k) =~= a.take(k));
        assert(whole.skip(k + 1) =~= a.skip(k + 1) + seq![sep] + b);
        assert(a[k] == sep);
        assert(pieces(whole, sep) =~= pieces(a, sep) + pieces(b, sep));
    } else {
        assert(whole.take(k) =~= a);
        assert(whole.skip(k + 1) =~= b);
        assert(pieces(a, sep) =~= seq![a]);
        assert(pieces(whole, sep) =~= pieces(a, sep) + pieces(b, sep));
    }
}

proof fn runs_end_behind(x: Seq<char>, y: Seq<char>, ascii: bool, parting: bool, i: int)
    requires
        0 <= i <= y.len(),
    ensures
        run_end(x + y, ascii, parting, x.len() + i) == x.len() + run_end(y, ascii, parting, i),
        i <= run_end(y, ascii, parting, i) <= y.len(),
    decreases y.len() - i,
{
    if i < y.len() {
        assert((x + y)[x.len() + i] == y[i]);
        if parts_words(y[i], ascii) == parting {
            runs_end_behind(x, y, ascii, parting, i + 1);
        }
    }
}

proof fn words_stand_behind(x: Seq<char>, y: Seq<char>, ascii: bool, i: int)
    requires
        0 <= i <= y.len(),
    ensures
        words_from(x + y, ascii, x.len() + i) == words_from(y, ascii, i),
    decreases y.len() - i,
{
    runs_end_behind(x, y, ascii, true, i);
    let start = run_end(y, ascii, true, i);
    runs_end_behind(x, y, ascii, false, start);
    let end = run_end(y, ascii, false, start);
    if start < end {
        words_stand_behind(x, y, ascii, end);
        assert((x + y).subrange(x.len() + start, x.len() + end) =~= y.subrange(start, end));
    }
}

proof fn run_of_a_word(w: Seq<char>, rest: Seq<char>, ascii: bool, from: int)
    requires
        0 <= from <= w.len(),
        forall|i: int| 0 <= i < w.len() ==> !parts_words(#[trigger] w[i], ascii),
        rest.len() > 0 ==> parts_words(rest[0], ascii),
    ensures
        run_end(w + rest, ascii, false, from) == w.len(),
        from < w.len() ==> run_end(w + rest, ascii, true, from) == from,
    decreases w.len() - from,
{
    if from < w.len() {
        assert((w + rest)[from] == w[from]);
        run_of_a_word(w, rest, ascii, from + 1);
    } else if rest.len() > 0 {
        assert((w + rest)[from] == rest[0]);
    }
}

/// A text falls into words at white space: what stands before it up to there is a word,
/// the words behind it follow, and white space at the start gives none. Without any the
/// text is one word.
pub proof fn texts_fall_into_words(w: Seq<char>, c: char, rest: Seq<char>, ascii: bool)
    requires
        forall|i: int| 0 <= i < w.len() ==> !parts_words(#[trigger] w[i], ascii),
        parts_words(c, ascii),
    ensures
        words(seq![c] + rest, ascii) == words(rest, ascii),
        w.len() > 0 ==> words(w, ascii) == seq![w],
        w.len() > 0 ==> words(w + (seq![c] + rest), ascii) == seq![w] + words(rest, ascii),
        words(Seq::empty(), ascii).len() == 0,
{
    let tail = seq![c] + rest;
    words_stand_behind(seq![c], rest, ascii, 0);
    assert(words_from(tail, ascii, 1) == words(rest, ascii));
    runs_end_behind(seq![c], rest, ascii, true, 0);
    assert(tail[0] == c);
    assert(run_end(tail, ascii, true, 0) == run_end(tail, ascii, true, 1));
    assert(words_from(tail, ascii, 0) == words_from(tail, ascii, 1));
    if w.len() > 0 {
        run_of_a_word(w, Seq::empty(), ascii, 0);
        assert(w + Seq::empty() =~= w);
        assert(w.subrange(0, w.len() as int) =~= w);
        assert(run_end(w, ascii, true, w.len() as int) == w.len());
        assert(run_end(w, ascii, false, w.len() as int) == w.len());
        assert(words_from(w, ascii, w.len() as int) =~= Seq::empty());
        assert(words(w, ascii) =~= seq![w]);
        run_of_a_word(w, tail, ascii, 0);
        words_stand_behind(w, tail, ascii, 0);
        assert((w + tail).subrange(0, w.len() as int) =~= w);
        assert(words(w + tail, ascii) == seq![w] + words_from(w + tail, ascii, w.len() as int));
    }
}

/// What is padded stands at the start of its field, and what is aligned to the right at
/// its end; the rest of the field is spaces, and a text that is longer is not cut.
pub proof fn fields_are_filled_with_spaces(s: Seq<char>, width: int)
    requires
        width >= 0,
    ensures
        padded(s, width).len() == (if s.len() >= width {
            s.len() as int
        } else {
            width
        }),
        padded(s, width).take(s.len() as int) == s,
        forall|i: int| s.len() <= i < padded(s, width).len() ==> #[trigger] padded(s, width)[i]
            == ' ',
        right_aligned(s, width).len() == padded(s, width).len(),
        right_aligned(s, width).skip(right_aligned(s, width).len() - s.len()) == s,
        forall|i: int|
            0 <= i < right_aligned(s, width).len() - s.len() ==> #[trigger] right_aligned(
                s,
                width,
            )[i] == ' ',
{
    assert(padded(s, width).take(s.len() as int) =~= s);
    assert(right_aligned(s, width).skip(right_aligned(s, width).len() - s.len()) =~= s);
}

/// Texts are joined with the separator between neighbours, and nowhere else.
pub proof fn separators_stand_between(parts: Seq<Seq<char>>, part: Seq<char>, sep: Seq<char>)
    ensures
        joined(seq![part], sep) == part,
        parts.len() > 0 ==> joined(parts.push(part), sep) == joined(parts, sep) + sep + part,
        joined(Seq::empty(), sep).len() == 0,
        concat(parts.push(part)) == concat(parts) + part,
{
    assert(parts.push(part).drop_last() =~= parts);
}

/// A digit more multiplies what was written by the base and adds the digit.
pub proof fn digits_write_numbers(s: Seq<char>, d: char, base: nat)
    requires
        2 <= base <= 10,
        is_digit(d, base),
    ensures
        digits_value(s.push(d), base) == digits_value(s, base) * base + (d as int - '0' as int),
        digits_value(Seq::empty(), base) == 0,
{
    assert(s.push(d).drop_last() =~= s);
    assert(digits_value(s, base) * base >= 0) by (nonlinear_arith)
        requires
            digits_value(s, base) >= 0,
            base >= 0,
    ;
}

/// Digits give a number exactly where there are any, with a plus or without, and the
/// number is no larger than asked for; any other character spoils it.
pub proof fn only_digits_give_numbers(s: Seq<char>, base: nat, max: nat)
    requires
        2 <= base <= 10,
        s.len() > 0 ==> s[0] != '+',
    ensures
        unsigned_of(s, base, max) is Some <==> s.len() > 0 && all_digits(s, base) && digits_value(
            s,
            base,
        ) <= max,
        unsigned_of(s, base, max) matches Some(n) ==> n == digits_value(s, base),
        s.len() > 0 ==> unsigned_of(seq!['+'] + s, base, max) == unsigned_of(s, base, max),
        unsigned_of(Seq::empty(), base, max) is None,
{
    if s.len() > 0 {
        assert((seq!['+'] + s).skip(1) =~= s);
    }
}

/// A character is counted wherever it stands.
pub proof fn occurrences_are_counted<T>(a: Seq<T>, b: Seq<T>, x: T, y: T)
    ensures
        count(a + b, x) == count(a, x) + count(b, x),
        count(seq![y], x) == (if y == x {
            1nat
        } else {
            0
        }),
    decreases b.len(),
{
    assert(seq![y].drop_last() =~= Seq::empty());
    assert(count(Seq::<T>::empty(), x) == 0);
    if b.len() > 0 {
        assert((a + b).drop_last() =~= a + b.drop_last());
        occurrences_are_counted(a, b.drop_last(), x, y);
    } else {
        assert(a + b =~= a);
    }
}

/// A number below zero is written with a sign and one that is not without; what is
/// written is the number.
pub proof fn signs_are_written(n: int)
    ensures
        n >= 0 ==> signed_decimal(n) == decimal(n as nat),
        n < 0 ==> signed_decimal(n)[0] == '-' && signed_decimal(n).skip(1) == decimal((-n) as nat),
{
    if n < 0 {
        assert(signed_decimal(n).skip(1) =~= decimal((-n) as nat));
    }
}

} // verus!
