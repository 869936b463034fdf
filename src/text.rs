//! Character-level helpers shared by the parsers: whitespace, splitting,
//! decimal numbers and escape sequences.

use vstd::prelude::*;

verus! {

/// Whether `c` has the Unicode `White_Space` property (as `char::is_whitespace`).
pub open spec fn is_ws(c: char) -> bool {
    ('\u{9}' <= c && c <= '\u{d}') || c == ' ' || c == '\u{85}' || c == '\u{a0}'
        || c == '\u{1680}' || ('\u{2000}' <= c && c <= '\u{200a}') || c == '\u{2028}'
        || c == '\u{2029}' || c == '\u{202f}' || c == '\u{205f}' || c == '\u{3000}'
}

pub fn is_ws_char(c: char) -> (r: bool)
    ensures
        r == is_ws(c),
{
    ('\u{9}' <= c && c <= '\u{d}') || c == ' ' || c == '\u{85}' || c == '\u{a0}'
        || c == '\u{1680}' || ('\u{2000}' <= c && c <= '\u{200a}') || c == '\u{2028}'
        || c == '\u{2029}' || c == '\u{202f}' || c == '\u{205f}' || c == '\u{3000}'
}

/// Index of the first `c` in `s`, or `s.len()` when there is none.
pub open spec fn index_of(s: Seq<char>, c: char) -> int
    decreases s.len(),
{
    if s.len() == 0 {
        0
    } else if s[0] == c {
        0
    } else {
        1 + index_of(s.drop_first(), c)
    }
}

/// The pieces of `s` between occurrences of `c` (as `str::split` with a char).
pub open spec fn split_on(s: Seq<char>, c: char) -> Seq<Seq<char>>
    decreases s.len(),
{
    let i = index_of(s, c);
    if 0 <= i < s.len() {
        seq![s.take(i)] + split_on(s.skip(i + 1), c)
    } else {
        seq![s]
    }
}

/// Length of the leading run of non-whitespace characters of `s`.
pub open spec fn run_len(s: Seq<char>) -> int
    decreases s.len(),
{
    if s.len() == 0 || is_ws(s[0]) {
        0
    } else {
        1 + run_len(s.drop_first())
    }
}

/// The maximal runs of non-whitespace characters of `s`, in order
/// (as `str::split_whitespace`).
pub open spec fn ws_tokens(s: Seq<char>) -> Seq<Seq<char>>
    decreases s.len(),
{
    if s.len() == 0 {
        seq![]
    } else if is_ws(s[0]) {
        ws_tokens(s.drop_first())
    } else {
        let n = run_len(s);
        if 0 < n <= s.len() {
            seq![s.take(n)] + ws_tokens(s.skip(n))
        } else {
            seq![]
        }
    }
}

/// `s` without its leading and trailing whitespace (as `str::trim`).
pub open spec fn trim(s: Seq<char>) -> Seq<char>
    decreases s.len(),
{
    if s.len() == 0 {
        s
    } else if is_ws(s[0]) {
        trim(s.drop_first())
    } else if is_ws(s.last()) {
        trim(s.drop_last())
    } else {
        s
    }
}

/// The views of a vector of character vectors.
pub open spec fn views(v: Seq<Vec<char>>) -> Seq<Seq<char>> {
    v.map_values(|x: Vec<char>| x@)
}

pub proof fn lemma_index_of(s: Seq<char>, c: char, j: int)
    requires
        0 <= j <= s.len(),
        forall|k: int| 0 <= k < j ==> s[k] != c,
        j == s.len() || s[j] == c,
    ensures
        index_of(s, c) == j,
    decreases s.len(),
{
    if s.len() > 0 && s[0] != c {
        lemma_index_of(s.drop_first(), c, j - 1);
    }
}

proof fn lemma_run_len(s: Seq<char>, j: int)
    requires
        0 <= j <= s.len(),
        forall|k: int| 0 <= k < j ==> !is_ws(s[k]),
        j == s.len() || is_ws(s[j]),
    ensures
        run_len(s) == j,
    decreases s.len(),
{
    if s.len() > 0 && !is_ws(s[0]) {
        lemma_run_len(s.drop_first(), j - 1);
    }
}

/// The characters of `s`, in order.
pub fn chars_of(s: &str) -> (r: Vec<char>)
    ensures
        r@ == s@,
{
    let mut r: Vec<char> = Vec::new();
    for c in it: s.chars()
        invariant
            r@ == it.seq().take(it.index() as int),
    {
        r.push(c);
    }
    r
}

/// Relies on `String::push`: appends one character.
#[verifier::external_body]
pub(crate) fn push_char(s: &mut String, c: char)
    ensures
        final(s)@ == old(s)@.push(c),
{
    s.push(c)
}

/// A string holding the characters `v[a..b]`.
pub fn string_of(v: &Vec<char>, a: usize, b: usize) -> (r: String)
    requires
        a <= b <= v.len(),
    ensures
        r@ == v@.subrange(a as int, b as int),
{
    let mut r = String::new();
    let mut i = a;
    while i < b
        invariant
            a <= i <= b <= v.len(),
            r@ == v@.subrange(a as int, i as int),
        decreases b - i,
    {
        push_char(&mut r, v[i]);
        assert(v@.subrange(a as int, i + 1) == v@.subrange(a as int, i as int).push(v@[i as int]));
        i += 1;
    }
    r
}

/// A copy of `v[a..b]`.
pub fn sub_chars(v: &Vec<char>, a: usize, b: usize) -> (r: Vec<char>)
    requires
        a <= b <= v.len(),
    ensures
        r@ == v@.subrange(a as int, b as int),
{
    let mut r: Vec<char> = Vec::new();
    let mut i = a;
    while i < b
        invariant
            a <= i <= b <= v.len(),
            r@ == v@.subrange(a as int, i as int),
        decreases b - i,
    {
        r.push(v[i]);
        assert(v@.subrange(a as int, i + 1) == v@.subrange(a as int, i as int).push(v@[i as int]));
        i += 1;
    }
    r
}

/// Whether the characters of `v` are those of `s`.
pub fn same_chars(v: &Vec<char>, s: &str) -> (r: bool)
    ensures
        r == (v@ == s@),
{
    let n = s.unicode_len();
    if n != v.len() {
        return false;
    }
    let mut i: usize = 0;
    while i < n
        invariant
            n == v.len() == s@.len(),
            i <= n,
            forall|k: int| 0 <= k < i ==> v@[k] == s@[k],
        decreases n - i,
    {
        if v[i] != s.get_char(i) {
            return false;
        }
        i += 1;
    }
    assert(v@ == s@);
    true
}

/// Whether `v` begins with the characters of `s`.
pub fn starts_with(v: &Vec<char>, s: &str) -> (r: bool)
    ensures
        r == (s@.len() <= v@.len() && v@.take(s@.len() as int) == s@),
{
    let n = s.unicode_len();
    if n > v.len() {
        return false;
    }
    let mut i: usize = 0;
    while i < n
        invariant
            n == s@.len(),
            n <= v.len(),
            i <= n,
            forall|k: int| 0 <= k < i ==> v@[k] == s@[k],
        decreases n - i,
    {
        if v[i] != s.get_char(i) {
            assert(v@.take(n as int)[i as int] != s@[i as int]);
            return false;
        }
        i += 1;
    }
    assert(v@.take(n as int) == s@);
    true
}

/// Whether `v` contains `c`.
pub fn contains_char(v: &Vec<char>, c: char) -> (r: bool)
    ensures
        r == v@.contains(c),
{
    let mut i: usize = 0;
    while i < v.len()
        invariant
            i <= v.len(),
            forall|k: int| 0 <= k < i ==> v@[k] != c,
        decreases v.len() - i,
    {
        if v[i] == c {
            return true;
        }
        i += 1;
    }
    false
}

/// Position of the first `c` in `v` at or after `from`, or `v.len()`.
pub fn find_char(v: &Vec<char>, from: usize, c: char) -> (r: usize)
    requires
        from <= v.len(),
    ensures
        from <= r <= v.len(),
        forall|k: int| from <= k < r ==> v@[k] != c,
        r == v.len() || v@[r as int] == c,
        r - from == index_of(v@.skip(from as int), c),
{
    let mut i = from;
    while i < v.len() && v[i] != c
        invariant
            from <= i <= v.len(),
            forall|k: int| from <= k < i ==> v@[k] != c,
        decreases v.len() - i,
    {
        i += 1;
    }
    proof {
        lemma_index_of(v@.skip(from as int), c, i - from);
    }
    i
}

/// The pieces of `v` between occurrences of `c`.
pub fn split_chars(v: &Vec<char>, c: char) -> (r: Vec<Vec<char>>)
    ensures
        views(r@) == split_on(v@, c),
{
    let mut r: Vec<Vec<char>> = Vec::new();
    let mut start: usize = 0;
    assert(views(r@) + split_on(v@.skip(0), c) == split_on(v@, c)) by {
        assert(v@.skip(0) == v@);
        assert(views(r@) + split_on(v@, c) == split_on(v@, c));
    }
    loop
        invariant
            start <= v.len(),
            views(r@) + split_on(v@.skip(start as int), c) == split_on(v@, c),
        decreases v.len() - start,
    {
        let ghost prev = r@;
        let j = find_char(v, start, c);
        let piece = sub_chars(v, start, j);
        let ghost rest = v@.skip(start as int);
        assert(piece@ == rest.take(j - start));
        r.push(piece);
        assert(views(r@) == views(prev).push(piece@));
        if j == v.len() {
            assert(rest.take(j - start) == rest);
            assert(views(r@) == views(prev) + split_on(rest, c));
            return r;
        }
        assert(rest.skip(j - start + 1) == v@.skip(j + 1));
        assert(split_on(rest, c) == seq![piece@] + split_on(v@.skip(j + 1), c));
        assert(views(r@) + split_on(v@.skip(j + 1), c) == views(prev) + split_on(rest, c));
        start = j + 1;
    }
}

/// The maximal runs of non-whitespace characters of `v`.
pub fn ws_split(v: &Vec<char>) -> (r: Vec<Vec<char>>)
    ensures
        views(r@) == ws_tokens(v@),
{
    let mut r: Vec<Vec<char>> = Vec::new();
    let mut i: usize = 0;
    assert(views(r@) + ws_tokens(v@.skip(0)) == ws_tokens(v@)) by {
        assert(v@.skip(0) == v@);
        assert(views(r@) + ws_tokens(v@) == ws_tokens(v@));
    }
    while i < v.len()
        invariant
            i <= v.len(),
            views(r@) + ws_tokens(v@.skip(i as int)) == ws_tokens(v@),
        decreases v.len() - i,
    {
        let ghost rest = v@.skip(i as int);
        if is_ws_char(v[i]) {
            assert(rest.drop_first() == v@.skip(i + 1));
            i += 1;
        } else {
            let mut j = i + 1;
            while j < v.len() && !is_ws_char(v[j])
                invariant
                    i < j <= v.len(),
                    forall|k: int| i <= k < j ==> !is_ws(v@[k]),
                decreases v.len() - j,
            {
                j += 1;
            }
            proof {
                lemma_run_len(rest, j - i);
            }
            let ghost prev = r@;
            let token = sub_chars(v, i, j);
            assert(token@ == rest.take(j - i));
            r.push(token);
            assert(views(r@) == views(prev).push(token@));
            assert(rest.skip(j - i) == v@.skip(j as int));
            assert(ws_tokens(rest) == seq![token@] + ws_tokens(v@.skip(j as int)));
            assert(views(r@) + ws_tokens(v@.skip(j as int)) == views(prev) + ws_tokens(rest));
            i = j;
        }
    }
    assert(v@.skip(i as int) == Seq::<char>::empty());
    assert(views(r@) + ws_tokens(Seq::<char>::empty()) == views(r@));
    r
}

proof fn lemma_trim(s: Seq<char>, a: int, b: int)
    requires
        0 <= a <= b <= s.len(),
        forall|k: int| 0 <= k < a ==> is_ws(s[k]),
        forall|k: int| b <= k < s.len() ==> is_ws(s[k]),
        a == b || (!is_ws(s[a]) && !is_ws(s[b - 1])),
    ensures
        trim(s) == s.subrange(a, b),
    decreases s.len(),
{
    if s.len() == 0 {
        assert(s.subrange(a, b) == s);
    } else if is_ws(s[0]) {
        if a > 0 {
            lemma_trim(s.drop_first(), a - 1, b - 1);
            assert(s.drop_first().subrange(a - 1, b - 1) == s.subrange(a, b));
        } else {
            lemma_trim(s.drop_first(), 0, 0);
            assert(s.drop_first().subrange(0, 0) == s.subrange(a, b));
        }
    } else if is_ws(s.last()) {
        lemma_trim(s.drop_last(), a, b);
        assert(s.drop_last().subrange(a, b) == s.subrange(a, b));
    } else {
        assert(s.subrange(a, b) == s);
    }
}

/// `v` without its leading and trailing whitespace.
pub fn trim_chars(v: &Vec<char>) -> (r: Vec<char>)
    ensures
        r@ == trim(v@),
{
    let mut a: usize = 0;
    while a < v.len() && is_ws_char(v[a])
        invariant
            a <= v.len(),
            forall|k: int| 0 <= k < a ==> is_ws(v@[k]),
        decreases v.len() - a,
    {
        a += 1;
    }
    let mut b: usize = v.len();
    while b > a && is_ws_char(v[b - 1])
        invariant
            a <= b <= v.len(),
            forall|k: int| b <= k < v.len() ==> is_ws(v@[k]),
        decreases b,
    {
        b -= 1;
    }
    proof {
        lemma_trim(v@, a as int, b as int);
    }
    sub_chars(v, a, b)
}

/// Whether `c` is an ASCII decimal digit.
pub open spec fn is_digit(c: char) -> bool {
    '0' <= c && c <= '9'
}

/// Value of the decimal digit `c`.
pub open spec fn digit_of(c: char) -> nat {
    (c as u32 - '0' as u32) as nat
}

/// The decimal digit for `d < 10`.
pub open spec fn digit_char(d: nat) -> char {
    ((d + 48) as u8) as char
}

/// Value of a sequence of decimal digits.
pub open spec fn digits_value(s: Seq<char>) -> nat
    decreases s.len(),
{
    if s.len() == 0 {
        0
    } else {
        digits_value(s.drop_last()) * 10 + digit_of(s.last())
    }
}

pub open spec fn all_digits(s: Seq<char>) -> bool {
    forall|i: int| 0 <= i < s.len() ==> is_digit(#[trigger] s[i])
}

/// What an unsigned decimal number written as in Rust's integer parsing
/// (an optional `+`, then at least one digit) stands for.
pub open spec fn decimal_value(s: Seq<char>) -> Option<nat> {
    let d = if s.len() > 0 && s[0] == '+' { s.drop_first() } else { s };
    if d.len() > 0 && all_digits(d) {
        Some(digits_value(d))
    } else {
        None
    }
}

/// The shortest decimal writing of `n`.
pub open spec fn decimal(n: nat) -> Seq<char>
    decreases n,
{
    if n < 10 {
        seq![digit_char(n)]
    } else {
        decimal(n / 10).push(digit_char(n % 10))
    }
}

proof fn lemma_digits_prefix(d: Seq<char>, k: int)
    requires
        0 <= k <= d.len(),
    ensures
        digits_value(d.take(k)) <= digits_value(d),
    decreases d.len(),
{
    if k < d.len() {
        lemma_digits_prefix(d.drop_last(), k);
        assert(d.drop_last().take(k) == d.take(k));
    } else {
        assert(d.take(k) == d);
    }
}

/// Reads an unsigned decimal number that fits in `u64`.
pub fn parse_u64(v: &Vec<char>) -> (r: Option<u64>)
    ensures
        r is Some <==> (decimal_value(v@) is Some && decimal_value(v@)->0 <= u64::MAX),
        r is Some ==> r->0 == decimal_value(v@)->0,
{
    let start: usize = if v.len() > 0 && v[0] == '+' { 1 } else { 0 };
    let ghost d = v@.skip(start as int);
    assert(start == 1 ==> d == v@.drop_first());
    assert(start == 0 ==> d == v@);
    if start == v.len() {
        return None;
    }
    let mut acc: u64 = 0;
    let mut i = start;
    while i < v.len()
        invariant
            start <= i <= v.len(),
            d == v@.skip(start as int),
            d == (if v@.len() > 0 && v@[0] == '+' { v@.drop_first() } else { v@ }),
            all_digits(d.take(i - start)),
            acc == digits_value(d.take(i - start)),
        decreases v.len() - i,
    {
        let c = v[i];
        if !('0' <= c && c <= '9') {
            assert(d[i - start] == c);
            return None;
        }
        let dv = (c as u32 - '0' as u32) as u64;
        assert(d.take(i - start + 1).drop_last() == d.take(i - start));
        if acc > (u64::MAX - dv) / 10 {
            proof {
                let m = u64::MAX as int;
                assert(acc * 10 + dv > m) by (nonlinear_arith)
                    requires acc > (m - dv) / 10, dv <= 9, m > 9;
                if all_digits(d) {
                    lemma_digits_prefix(d, i - start + 1);
                }
            }
            return None;
        }
        acc = acc * 10 + dv;
        assert(all_digits(d.take(i - start + 1)));
        i += 1;
    }
    assert(d.take(i - start) == d);
    Some(acc)
}

/// Appends the decimal writing of `n` to `s`.
pub fn push_decimal(s: &mut String, n: u32)
    ensures
        final(s)@ == old(s)@ + decimal(n as nat),
    decreases n,
{
    if n >= 10 {
        push_decimal(s, n / 10);
    }
    let c = ((n % 10) as u8 + 48u8) as char;
    push_char(s, c);
    assert(n >= 10 ==> decimal(n as nat) == decimal((n / 10) as nat).push(digit_char((n % 10) as nat)));
}

pub proof fn lemma_digit_char(d: nat)
    requires
        d < 10,
    ensures
        is_digit(digit_char(d)),
        digit_of(digit_char(d)) == d,
{
}

/// Reading back the decimal writing of a number gives the number.
pub proof fn lemma_decimal_round_trip(n: nat)
    ensures
        decimal_value(decimal(n)) == Some(n),
        all_digits(decimal(n)),
        decimal(n).len() > 0,
    decreases n,
{
    lemma_digit_char(n % 10);
    let s = decimal(n);
    if n >= 10 {
        lemma_decimal_round_trip(n / 10);
        assert(s.drop_last() == decimal(n / 10));
        assert(s[0] == decimal(n / 10)[0]);
        assert(all_digits(s)) by {
            assert forall|i: int| 0 <= i < s.len() implies is_digit(#[trigger] s[i]) by {
                if i < s.len() - 1 {
                    assert(s[i] == decimal(n / 10)[i]);
                }
            }
        }
    } else {
        assert(digits_value(s) == digits_value(s.drop_last()) * 10 + digit_of(s.last()));
        assert(s.drop_last().len() == 0);
    }
    assert(s[0] != '+');
}

pub open spec fn is_octal(c: char) -> bool {
    '0' <= c && c <= '7'
}

pub open spec fn is_hex(c: char) -> bool {
    is_digit(c) || ('a' <= c && c <= 'f') || ('A' <= c && c <= 'F')
}

/// Value of the hexadecimal digit `c`.
pub open spec fn hex_of(c: char) -> nat {
    if is_digit(c) {
        digit_of(c)
    } else if 'a' <= c && c <= 'f' {
        (c as u32 - 'a' as u32 + 10) as nat
    } else {
        (c as u32 - 'A' as u32 + 10) as nat
    }
}

/// Whether `s` starts with `\NNN`, three octal digits standing for one byte.
pub open spec fn octal_escape_at(s: Seq<char>) -> bool {
    s.len() >= 4 && s[0] == '\\' && '0' <= s[1] && s[1] <= '3' && is_octal(s[2]) && is_octal(
        s[3],
    )
}

/// Whether `s` starts with `\xHH`, two hexadecimal digits standing for one byte.
pub open spec fn hex_escape_at(s: Seq<char>) -> bool {
    s.len() >= 4 && s[0] == '\\' && s[1] == 'x' && is_hex(s[2]) && is_hex(s[3])
}

/// `s` with each octal escape replaced by the character of its byte.
pub open spec fn decode_octal(s: Seq<char>) -> Seq<char>
    decreases s.len(),
{
    if s.len() == 0 {
        s
    } else if octal_escape_at(s) {
        seq![((digit_of(s[1]) * 64 + digit_of(s[2]) * 8 + digit_of(s[3])) as u8) as char]
            + decode_octal(s.skip(4))
    } else {
        seq![s[0]] + decode_octal(s.drop_first())
    }
}

/// `s` with each hexadecimal escape replaced by the character of its byte.
pub open spec fn decode_hex(s: Seq<char>) -> Seq<char>
    decreases s.len(),
{
    if s.len() == 0 {
        s
    } else if hex_escape_at(s) {
        seq![((hex_of(s[2]) * 16 + hex_of(s[3])) as u8) as char] + decode_hex(s.skip(4))
    } else {
        seq![s[0]] + decode_hex(s.drop_first())
    }
}

/// `s` with its octal escapes decoded, then its hexadecimal escapes.
pub open spec fn decode_escapes(s: Seq<char>) -> Seq<char> {
    decode_hex(decode_octal(s))
}

fn octal_digit(c: char) -> (r: u8)
    requires
        is_octal(c),
    ensures
        r == digit_of(c),
{
    (c as u32 - '0' as u32) as u8
}

fn hex_digit(c: char) -> (r: u8)
    requires
        is_hex(c),
    ensures
        r == hex_of(c),
{
    if '0' <= c && c <= '9' {
        (c as u32 - '0' as u32) as u8
    } else if 'a' <= c && c <= 'f' {
        (c as u32 - 'a' as u32 + 10) as u8
    } else {
        (c as u32 - 'A' as u32 + 10) as u8
    }
}

fn is_octal_char(c: char) -> (r: bool)
    ensures
        r == is_octal(c),
{
    '0' <= c && c <= '7'
}

fn is_hex_char(c: char) -> (r: bool)
    ensures
        r == is_hex(c),
{
    ('0' <= c && c <= '9') || ('a' <= c && c <= 'f') || ('A' <= c && c <= 'F')
}

fn decode_octal_chars(v: &Vec<char>) -> (r: Vec<char>)
    ensures
        r@ == decode_octal(v@),
{
    let mut r: Vec<char> = Vec::new();
    let mut i: usize = 0;
    assert(v@.skip(0) == v@);
    while i < v.len()
        invariant
            i <= v.len(),
            r@ + decode_octal(v@.skip(i as int)) == decode_octal(v@),
        decreases v.len() - i,
    {
        let ghost rest = v@.skip(i as int);
        let ghost prev = r@;
        if v.len() - i >= 4 && v[i] == '\\' && '0' <= v[i + 1] && v[i + 1] <= '3'
            && is_octal_char(v[i + 2]) && is_octal_char(v[i + 3]) {
            let b = octal_digit(v[i + 1]) * 64 + octal_digit(v[i + 2]) * 8 + octal_digit(v[i + 3]);
            assert(octal_escape_at(rest));
            r.push(b as char);
            assert(rest.skip(4) == v@.skip(i + 4));
            assert(r@ + decode_octal(v@.skip(i + 4)) == prev + decode_octal(rest));
            i += 4;
        } else {
            assert(!octal_escape_at(rest));
            r.push(v[i]);
            assert(rest.drop_first() == v@.skip(i + 1));
            assert(r@ + decode_octal(v@.skip(i + 1)) == prev + decode_octal(rest));
            i += 1;
        }
    }
    assert(v@.skip(i as int).len() == 0);
    assert(r@ + decode_octal(v@.skip(i as int)) == r@);
    r
}

fn decode_hex_chars(v: &Vec<char>) -> (r: Vec<char>)
    ensures
        r@ == decode_hex(v@),
{
    let mut r: Vec<char> = Vec::new();
    let mut i: usize = 0;
    assert(v@.skip(0) == v@);
    while i < v.len()
        invariant
            i <= v.len(),
            r@ + decode_hex(v@.skip(i as int)) == decode_hex(v@),
        decreases v.len() - i,
    {
        let ghost rest = v@.skip(i as int);
        let ghost prev = r@;
        if v.len() - i >= 4 && v[i] == '\\' && v[i + 1] == 'x' && is_hex_char(v[i + 2])
            && is_hex_char(v[i + 3]) {
            let b = hex_digit(v[i + 2]) * 16 + hex_digit(v[i + 3]);
            assert(hex_escape_at(rest));
            r.push(b as char);
            assert(rest.skip(4) == v@.skip(i + 4));
            assert(r@ + decode_hex(v@.skip(i + 4)) == prev + decode_hex(rest));
            i += 4;
        } else {
            assert(!hex_escape_at(rest));
            r.push(v[i]);
            assert(rest.drop_first() == v@.skip(i + 1));
            assert(r@ + decode_hex(v@.skip(i + 1)) == prev + decode_hex(rest));
            i += 1;
        }
    }
    assert(v@.skip(i as int).len() == 0);
    assert(r@ + decode_hex(v@.skip(i as int)) == r@);
    r
}

/// The characters of `v` with their escapes decoded.
pub fn decode_chars(v: &Vec<char>) -> (r: Vec<char>)
    ensures
        r@ == decode_escapes(v@),
{
    let octal = decode_octal_chars(v);
    decode_hex_chars(&octal)
}

/// Decodes octal (`\NNN`) and hexadecimal (`\xHH`) byte escapes, as found in
/// the mount table and in the names of the `/dev/disk/by-*` links.
pub fn decode_string(s: &str) -> (r: String)
    ensures
        r@ == decode_escapes(s@),
{
    let v = chars_of(s);
    let d = decode_chars(&v);
    string_of(&d, 0, d.len())
}

/// What a number written in decimal stands for when it must fit in `u32`.
pub open spec fn u32_value(s: Seq<char>) -> Option<u32> {
    if decimal_value(s) is Some && decimal_value(s)->0 <= u32::MAX {
        Some(decimal_value(s)->0 as u32)
    } else {
        None
    }
}

/// Reads an unsigned decimal number that fits in `u32`.
pub fn parse_u32(v: &Vec<char>) -> (r: Option<u32>)
    ensures
        r == u32_value(v@),
{
    match parse_u64(v) {
        Some(n) => {
            if n <= u32::MAX as u64 {
                Some(n as u32)
            } else {
                None
            }
        },
        None => None,
    }
}

} // verus!
