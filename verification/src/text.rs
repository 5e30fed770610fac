use vstd::prelude::*;

verus! {

// ---------------------------------------------------------------------------
// Specifications over character sequences
// ---------------------------------------------------------------------------

/// `needle` occurs in `hay` starting at index `i`.
pub open spec fn occurs_at(hay: Seq<char>, needle: Seq<char>, i: int) -> bool {
    0 <= i && i + needle.len() <= hay.len() && hay.subrange(i, i + needle.len()) == needle
}

/// `needle` occurs somewhere in `hay`.
pub open spec fn contains_seq(hay: Seq<char>, needle: Seq<char>) -> bool {
    exists|i: int| occurs_at(hay, needle, i)
}

/// `hay` begins with `prefix`.
pub open spec fn starts_with_seq(hay: Seq<char>, prefix: Seq<char>) -> bool {
    occurs_at(hay, prefix, 0)
}

/// `s` holds the character `c`.
pub open spec fn has_char(s: Seq<char>, c: char) -> bool {
    exists|i: int| 0 <= i < s.len() && s[i] == c
}

/// The first index at or after `i` that holds `c`, or `s.len()` when there is none.
pub open spec fn char_index_from(s: Seq<char>, c: char, i: int) -> int
    decreases s.len() - i,
{
    if i < 0 || i >= s.len() {
        s.len() as int
    } else if s[i] == c {
        i
    } else {
        char_index_from(s, c, i + 1)
    }
}

/// Length of `s.take(n)` once every trailing `c` is removed.
pub open spec fn trim_end_len(s: Seq<char>, c: char, n: int) -> int
    decreases n,
{
    if n <= 0 {
        0
    } else if s[n - 1] == c {
        trim_end_len(s, c, n - 1)
    } else {
        n
    }
}

/// `s` with every trailing `c` removed (`str::trim_end_matches` with one char).
pub open spec fn trim_end_char(s: Seq<char>, c: char) -> Seq<char> {
    s.take(trim_end_len(s, c, s.len() as int))
}

/// A carriage return or a line feed.
pub open spec fn is_line_break(c: char) -> bool {
    c == '\r' || c == '\n'
}

/// The first index at or after `i` that is not a line break.
pub open spec fn skip_line_breaks_from(s: Seq<char>, i: int) -> int
    decreases s.len() - i,
{
    if i < 0 || i >= s.len() {
        s.len() as int
    } else if is_line_break(s[i]) {
        skip_line_breaks_from(s, i + 1)
    } else {
        i
    }
}

/// `s` with its leading carriage returns and line feeds removed.
pub open spec fn trim_start_line_breaks(s: Seq<char>) -> Seq<char> {
    s.skip(skip_line_breaks_from(s, 0))
}

/// The characters with the Unicode `White_Space` property, as `char::is_whitespace` tests.
pub open spec fn is_ws(c: char) -> bool {
    let u = c as u32;
    ||| (0x09 <= u && u <= 0x0d)
    ||| u == 0x20
    ||| u == 0x85
    ||| u == 0xa0
    ||| u == 0x1680
    ||| (0x2000 <= u && u <= 0x200a)
    ||| u == 0x2028
    ||| u == 0x2029
    ||| u == 0x202f
    ||| u == 0x205f
    ||| u == 0x3000
}

/// The first index at or after `i` that is not whitespace.
pub open spec fn skip_ws_from(s: Seq<char>, i: int) -> int
    decreases s.len() - i,
{
    if i < 0 || i >= s.len() {
        s.len() as int
    } else if is_ws(s[i]) {
        skip_ws_from(s, i + 1)
    } else {
        i
    }
}

/// Length of `s.take(n)` once trailing whitespace is removed.
pub open spec fn trim_end_ws_len(s: Seq<char>, n: int) -> int
    decreases n,
{
    if n <= 0 {
        0
    } else if is_ws(s[n - 1]) {
        trim_end_ws_len(s, n - 1)
    } else {
        n
    }
}

/// `s` without leading and trailing whitespace (`str::trim`).
pub open spec fn trim_ws(s: Seq<char>) -> Seq<char> {
    let rest = s.skip(skip_ws_from(s, 0));
    rest.take(trim_end_ws_len(rest, rest.len() as int))
}

/// ASCII lower-casing of one character (`char::to_ascii_lowercase`).
pub open spec fn lower_char(c: char) -> char {
    if 'A' <= c && c <= 'Z' {
        ((c as u32) + 32) as char
    } else {
        c
    }
}

/// ASCII lower-casing of a whole sequence (`str::to_ascii_lowercase`).
pub open spec fn lower_seq(s: Seq<char>) -> Seq<char> {
    s.map_values(|c: char| lower_char(c))
}

/// Number of bytes that UTF-8 takes for `c`.
pub open spec fn utf8_width(c: char) -> nat {
    let u = c as u32;
    if u < 0x80 {
        1
    } else if u < 0x800 {
        2
    } else if u < 0x10000 {
        3
    } else {
        4
    }
}

/// Number of bytes that UTF-8 takes for `s.skip(i)`.
pub open spec fn utf8_len_from(s: Seq<char>, i: int) -> nat
    decreases s.len() - i,
{
    if i < 0 || i >= s.len() {
        0
    } else {
        utf8_width(s[i]) + utf8_len_from(s, i + 1)
    }
}

/// Number of bytes that UTF-8 takes for `s`.
pub open spec fn utf8_len(s: Seq<char>) -> nat {
    utf8_len_from(s, 0)
}

/// An ASCII decimal digit.
pub open spec fn is_digit(c: char) -> bool {
    '0' <= c && c <= '9'
}

/// Every character of `s` is an ASCII digit and there is at least one.
pub open spec fn all_digits(s: Seq<char>) -> bool {
    s.len() > 0 && forall|i: int| 0 <= i < s.len() ==> is_digit(#[trigger] s[i])
}

/// The decimal value of a sequence of ASCII digits.
pub open spec fn digits_value(s: Seq<char>) -> nat
    decreases s.len(),
{
    if s.len() == 0 {
        0
    } else {
        digits_value(s.drop_last()) * 10 + ((s.last() as u32) - ('0' as u32)) as nat
    }
}

/// What `str::parse::<u32>` gives: an optional `+`, then decimal digits, in range.
pub open spec fn parse_u32_spec(s: Seq<char>) -> Option<u32> {
    let digits = if s.len() > 0 && s[0] == '+' {
        s.drop_first()
    } else {
        s
    };
    if all_digits(digits) && digits_value(digits) <= u32::MAX {
        Some(digits_value(digits) as u32)
    } else {
        None
    }
}

/// What `str::parse::<i32>` gives: an optional sign, then decimal digits, in range.
pub open spec fn parse_i32_spec(s: Seq<char>) -> Option<i32> {
    let negative = s.len() > 0 && s[0] == '-';
    let digits = if s.len() > 0 && (s[0] == '+' || s[0] == '-') {
        s.drop_first()
    } else {
        s
    };
    if !all_digits(digits) {
        None
    } else if negative && digits_value(digits) <= 0x8000_0000 {
        Some((0 - digits_value(digits)) as i32)
    } else if !negative && digits_value(digits) <= 0x7fff_ffff {
        Some(digits_value(digits) as i32)
    } else {
        None
    }
}

// ---------------------------------------------------------------------------
// Conversions between strings and characters
// ---------------------------------------------------------------------------

/// Appends one character to a string.
/// Wraps `String::push`, which std documents as appending the char to the end.
#[verifier::external_body]
pub(crate) fn push_char(s: &mut String, c: char)
    ensures
        final(s)@ == old(s)@.push(c),
{
    s.push(c);
}

/// Compares two strings for equality.
/// Wraps `<str as PartialEq>::eq`, which std documents as comparing the characters.
#[verifier::external_body]
pub(crate) fn str_eq(a: &str, b: &str) -> (r: bool)
    ensures
        r == (a@ == b@),
{
    a == b
}

/// The characters of `s`, in order.
pub fn chars_of(s: &str) -> (v: Vec<char>)
    ensures
        v@ == s@,
{
    let mut v: Vec<char> = Vec::new();
    let mut chars = s.chars();
    for c in it: chars
        invariant
            v@ == it.history(),
    {
        v.push(c);
    }
    v
}

/// The string made of `v[lo..hi]`.
pub fn string_of_range(v: &Vec<char>, lo: usize, hi: usize) -> (s: String)
    requires
        lo <= hi <= v.len(),
    ensures
        s@ == v@.subrange(lo as int, hi as int),
{
    let mut s = String::new();
    let mut i = lo;
    while i < hi
        invariant
            lo <= i <= hi <= v.len(),
            s@ == v@.subrange(lo as int, i as int),
        decreases hi - i,
    {
        push_char(&mut s, v[i]);
        i = i + 1;
        assert(s@ =~= v@.subrange(lo as int, i as int));
    }
    s
}

/// The string made of all of `v`.
pub fn string_of(v: &Vec<char>) -> (s: String)
    ensures
        s@ == v@,
{
    let s = string_of_range(v, 0, v.len());
    assert(v@.subrange(0, v@.len() as int) =~= v@);
    s
}

/// A copy of `s`.
pub fn copy_str(s: &str) -> (r: String)
    ensures
        r@ == s@,
{
    s.to_owned()
}

// ---------------------------------------------------------------------------
// Searching
// ---------------------------------------------------------------------------

/// Whether `needle` occurs in `hay` at index `i`.
pub fn occurs_at_exec(hay: &Vec<char>, needle: &Vec<char>, i: usize) -> (r: bool)
    ensures
        r == occurs_at(hay@, needle@, i as int),
{
    if i > hay.len() || needle.len() > hay.len() - i {
        return false;
    }
    let mut k: usize = 0;
    while k < needle.len()
        invariant
            i + needle.len() <= hay.len(),
            k <= needle.len(),
            forall|j: int| 0 <= j < k ==> hay@[i + j] == needle@[j],
        decreases needle.len() - k,
    {
        if hay[i + k] != needle[k] {
            assert(hay@.subrange(i as int, i + needle.len())[k as int] != needle@[k as int]);
            return false;
        }
        k = k + 1;
    }
    assert(hay@.subrange(i as int, i + needle.len()) =~= needle@);
    true
}

/// Whether `needle` occurs anywhere in `hay`.
pub fn contains_chars(hay: &Vec<char>, needle: &Vec<char>) -> (r: bool)
    ensures
        r == contains_seq(hay@, needle@),
{
    let mut i: usize = 0;
    while i < hay.len()
        invariant
            i <= hay.len(),
            forall|j: int| 0 <= j < i ==> !occurs_at(hay@, needle@, j),
        decreases hay.len() - i,
    {
        if occurs_at_exec(hay, needle, i) {
            return true;
        }
        i = i + 1;
    }
    if occurs_at_exec(hay, needle, i) {
        return true;
    }
    assert forall|j: int| !occurs_at(hay@, needle@, j) by {
        if 0 <= j && j < i {
        }
    }
    false
}

/// Whether `needle` occurs anywhere in `hay` (`str::contains` with a string pattern).
pub fn str_contains(hay: &str, needle: &str) -> (r: bool)
    ensures
        r == contains_seq(hay@, needle@),
{
    let h = chars_of(hay);
    let n = chars_of(needle);
    contains_chars(&h, &n)
}

/// Whether `hay` begins with `prefix`.
pub fn starts_with_chars(hay: &Vec<char>, prefix: &Vec<char>) -> (r: bool)
    ensures
        r == starts_with_seq(hay@, prefix@),
{
    occurs_at_exec(hay, prefix, 0)
}

/// Whether `s` holds `c`.
pub fn has_char_exec(s: &Vec<char>, c: char) -> (r: bool)
    ensures
        r == has_char(s@, c),
{
    let mut i: usize = 0;
    while i < s.len()
        invariant
            i <= s.len(),
            forall|j: int| 0 <= j < i ==> s@[j] != c,
        decreases s.len() - i,
    {
        if s[i] == c {
            return true;
        }
        i = i + 1;
    }
    false
}

/// The first index at or after `from` holding `c`, or the length when there is none.
pub fn char_index_exec(s: &Vec<char>, c: char, from: usize) -> (r: usize)
    requires
        from <= s.len(),
    ensures
        r as int == char_index_from(s@, c, from as int),
        from <= r <= s.len(),
{
    let mut i = from;
    while i < s.len()
        invariant
            from <= i <= s.len(),
            char_index_from(s@, c, i as int) == char_index_from(s@, c, from as int),
        decreases s.len() - i,
    {
        if s[i] == c {
            return i;
        }
        i = i + 1;
    }
    i
}

/// Lemma: the first occurrence found from `i` lies in `[i, len]`, and no earlier index
/// from `i` holds `c`.
pub proof fn lemma_char_index_from(s: Seq<char>, c: char, i: int)
    requires
        0 <= i <= s.len(),
    ensures
        i <= char_index_from(s, c, i) <= s.len(),
        forall|j: int| i <= j < char_index_from(s, c, i) ==> s[j] != c,
        char_index_from(s, c, i) < s.len() ==> s[char_index_from(s, c, i)] == c,
    decreases s.len() - i,
{
    if i < s.len() && s[i] != c {
        lemma_char_index_from(s, c, i + 1);
    }
}

// ---------------------------------------------------------------------------
// Trimming and case
// ---------------------------------------------------------------------------

/// Length that remains of `s.take(n)` once trailing `c` are removed, computed.
pub fn trim_end_len_exec(s: &Vec<char>, c: char, n: usize) -> (r: usize)
    requires
        n <= s.len(),
    ensures
        r as int == trim_end_len(s@, c, n as int),
        r <= n,
{
    let mut k = n;
    while k > 0 && s[k - 1] == c
        invariant
            k <= n <= s.len(),
            trim_end_len(s@, c, k as int) == trim_end_len(s@, c, n as int),
        decreases k,
    {
        k = k - 1;
    }
    k
}

/// Index of the first character at or after `from` that is not a line break.
pub fn skip_line_breaks_exec(s: &Vec<char>, from: usize) -> (r: usize)
    requires
        from <= s.len(),
    ensures
        r as int == skip_line_breaks_from(s@, from as int),
        from <= r <= s.len(),
{
    let mut i = from;
    while i < s.len() && (s[i] == '\r' || s[i] == '\n')
        invariant
            from <= i <= s.len(),
            skip_line_breaks_from(s@, i as int) == skip_line_breaks_from(s@, from as int),
        decreases s.len() - i,
    {
        i = i + 1;
    }
    i
}

/// Whether `c` is whitespace (`char::is_whitespace`).
pub fn is_ws_exec(c: char) -> (r: bool)
    ensures
        r == is_ws(c),
{
    let u = c as u32;
    (0x09 <= u && u <= 0x0d) || u == 0x20 || u == 0x85 || u == 0xa0 || u == 0x1680 || (0x2000
        <= u && u <= 0x200a) || u == 0x2028 || u == 0x2029 || u == 0x202f || u == 0x205f || u
        == 0x3000
}

/// `v[lo..hi]` without leading and trailing whitespace, as a string.
pub fn trim_ws_range(v: &Vec<char>, lo: usize, hi: usize) -> (r: String)
    requires
        lo <= hi <= v.len(),
    ensures
        r@ == trim_ws(v@.subrange(lo as int, hi as int)),
{
    let ghost s = v@.subrange(lo as int, hi as int);
    let mut start = lo;
    while start < hi && is_ws_exec(v[start])
        invariant
            lo <= start <= hi <= v.len(),
            s == v@.subrange(lo as int, hi as int),
            skip_ws_from(s, (start - lo) as int) == skip_ws_from(s, 0),
        decreases hi - start,
    {
        start = start + 1;
    }
    let ghost rest = s.skip((start - lo) as int);
    assert(rest =~= v@.subrange(start as int, hi as int));
    let mut end = hi;
    while end > start && is_ws_exec(v[end - 1])
        invariant
            lo <= start <= end <= hi <= v.len(),
            rest == v@.subrange(start as int, hi as int),
            trim_end_ws_len(rest, (end - start) as int) == trim_end_ws_len(
                rest,
                rest.len() as int,
            ),
        decreases end,
    {
        assert(rest[(end - start) - 1] == v@[end - 1]);
        end = end - 1;
    }
    assert(rest.take((end - start) as int) =~= v@.subrange(start as int, end as int));
    string_of_range(v, start, end)
}

/// `s` without leading and trailing whitespace (`str::trim`).
pub fn trim_str(s: &str) -> (r: String)
    ensures
        r@ == trim_ws(s@),
{
    let v = chars_of(s);
    assert(v@.subrange(0, v@.len() as int) =~= v@);
    trim_ws_range(&v, 0, v.len())
}

/// ASCII lower-casing of one character.
pub fn lower_char_exec(c: char) -> (r: char)
    ensures
        r == lower_char(c),
{
    if 'A' <= c && c <= 'Z' {
        let u: u32 = (c as u32) + 32;
        assert(0x61 <= u <= 0x7a);
        char_from_ascii_code(u)
    } else {
        c
    }
}

/// The character whose code is `u`, for a code below 0x80.
/// Wraps `char::from_u32`, which std documents as giving the char with that scalar value.
#[verifier::external_body]
pub(crate) fn char_from_ascii_code(u: u32) -> (r: char)
    requires
        u < 0x80,
    ensures
        r == u as char,
{
    char::from_u32(u).unwrap()
}

/// ASCII lower-casing of a whole string (`str::to_ascii_lowercase`), as characters.
pub fn lower_chars(s: &str) -> (r: Vec<char>)
    ensures
        r@ == lower_seq(s@),
{
    let v = chars_of(s);
    let mut r: Vec<char> = Vec::new();
    let mut i: usize = 0;
    while i < v.len()
        invariant
            i <= v.len(),
            v@ == s@,
            r@ == lower_seq(v@.take(i as int)),
        decreases v.len() - i,
    {
        let c = lower_char_exec(v[i]);
        r.push(c);
        i = i + 1;
        assert(r@ =~= lower_seq(v@.take(i as int)));
    }
    assert(v@.take(v@.len() as int) =~= v@);
    r
}

// ---------------------------------------------------------------------------
// UTF-8 widths
// ---------------------------------------------------------------------------

/// Number of bytes that UTF-8 takes for `c` (`char::len_utf8`).
pub fn utf8_width_exec(c: char) -> (r: usize)
    ensures
        r as nat == utf8_width(c),
        1 <= r <= 4,
{
    let u = c as u32;
    if u < 0x80 {
        1
    } else if u < 0x800 {
        2
    } else if u < 0x10000 {
        3
    } else {
        4
    }
}

// ---------------------------------------------------------------------------
// Number parsing
// ---------------------------------------------------------------------------

/// Lemma: appending a digit extends the value by one decimal place.
proof fn lemma_digits_push(s: Seq<char>, c: char)
    ensures
        digits_value(s.push(c)) == digits_value(s) * 10 + ((c as u32) - ('0' as u32)) as nat,
{
    assert(s.push(c).drop_last() =~= s);
}

/// The decimal value of `v[lo..]`, when every char there is a digit and the value is at most
/// `limit`; `None` otherwise.
fn digits_value_bounded(v: &Vec<char>, lo: usize, limit: u64) -> (r: Option<u64>)
    requires
        lo <= v.len(),
        9 <= limit <= 0x1_0000_0000,
    ensures
        r is Some <==> (all_digits(v@.skip(lo as int)) && digits_value(v@.skip(lo as int))
            <= limit),
        r matches Some(n) ==> n as nat == digits_value(v@.skip(lo as int)),
{
    let ghost s = v@.skip(lo as int);
    if lo == v.len() {
        return None;
    }
    let mut acc: u64 = 0;
    let mut i = lo;
    let mut ok = true;
    while i < v.len()
        invariant
            lo <= i <= v.len(),
            s == v@.skip(lo as int),
            9 <= limit <= 0x1_0000_0000,
            ok ==> (forall|j: int| 0 <= j < i - lo ==> is_digit(#[trigger] s[j])),
            ok ==> acc as nat == digits_value(s.take(i - lo)),
            ok ==> acc <= limit,
            !ok ==> !(all_digits(s) && digits_value(s) <= limit),
        decreases v.len() - i,
    {
        let c = v[i];
        if ok {
            if '0' <= c && c <= '9' {
                let d: u64 = (c as u32 - '0' as u32) as u64;
                proof {
                    lemma_digits_push(s.take(i - lo), c);
                    assert(s.take(i - lo).push(c) =~= s.take(i + 1 - lo));
                }
                if acc > (limit - d) / 10 {
                    proof {
                        assert(acc * 10 + d > limit) by (nonlinear_arith)
                            requires
                                acc > (limit - d) / 10,
                                d <= limit || d > limit,
                        ;
                        if all_digits(s) {
                            lemma_digits_monotone(s, (i + 1 - lo) as int);
                        }
                    }
                    ok = false;
                } else {
                    assert(acc * 10 + d <= limit) by (nonlinear_arith)
                        requires
                            acc <= (limit - d) / 10,
                            d <= 9,
                            limit >= 0,
                    ;
                    acc = acc * 10 + d;
                }
            } else {
                assert(!is_digit(s[i - lo]));
                ok = false;
            }
        }
        i = i + 1;
    }
    if ok {
        assert(s.take(i - lo) =~= s);
        Some(acc)
    } else {
        None
    }
}

/// Lemma: the value of all the digits is at least the value of any prefix of them.
proof fn lemma_digits_monotone(s: Seq<char>, k: int)
    requires
        0 <= k <= s.len(),
        forall|j: int| 0 <= j < s.len() ==> is_digit(#[trigger] s[j]),
    ensures
        digits_value(s) >= digits_value(s.take(k)),
    decreases s.len() - k,
{
    if k < s.len() {
        lemma_digits_monotone(s, k + 1);
        lemma_digits_push(s.take(k), s[k]);
        assert(s.take(k).push(s[k]) =~= s.take(k + 1));
    } else {
        assert(s.take(k) =~= s);
    }
}

/// `str::parse::<u32>`.
pub fn parse_u32(s: &str) -> (r: Option<u32>)
    ensures
        r == parse_u32_spec(s@),
{
    let v = chars_of(s);
    let lo: usize = if v.len() > 0 && v[0] == '+' {
        1
    } else {
        0
    };
    assert(v@.skip(lo as int) =~= (if v@.len() > 0 && v@[0] == '+' {
        v@.drop_first()
    } else {
        v@
    }));
    match digits_value_bounded(&v, lo, 0xffff_ffff) {
        Some(n) => Some(n as u32),
        None => None,
    }
}

/// `str::parse::<i32>`.
pub fn parse_i32(s: &str) -> (r: Option<i32>)
    ensures
        r == parse_i32_spec(s@),
{
    let v = chars_of(s);
    let negative = v.len() > 0 && v[0] == '-';
    let lo: usize = if v.len() > 0 && (v[0] == '+' || v[0] == '-') {
        1
    } else {
        0
    };
    assert(v@.skip(lo as int) =~= (if v@.len() > 0 && (v@[0] == '+' || v@[0] == '-') {
        v@.drop_first()
    } else {
        v@
    }));
    let limit: u64 = if negative {
        0x8000_0000
    } else {
        0x7fff_ffff
    };
    match digits_value_bounded(&v, lo, limit) {
        Some(n) => {
            if negative {
                if n == 0x8000_0000 {
                    Some(-2147483648i32)
                } else {
                    let m = n as i32;
                    Some(0 - m)
                }
            } else {
                Some(n as i32)
            }
        },
        None => {
            proof {
                let digits = v@.skip(lo as int);
                if all_digits(digits) {
                    assert(digits_value(digits) > limit);
                }
            }
            None
        },
    }
}


// ---------------------------------------------------------------------------
// Decimal formatting
// ---------------------------------------------------------------------------

/// The ASCII digit for `d`, below ten.
pub open spec fn digit_char(d: nat) -> char {
    (d + 48) as char
}

/// The decimal digits of `n`, without leading zeros (`"0"` for zero), as `{}` prints them.
pub open spec fn decimal(n: nat) -> Seq<char>
    decreases n,
{
    if n < 10 {
        seq![digit_char(n)]
    } else {
        decimal(n / 10).push(digit_char(n % 10))
    }
}

/// The decimal text of `n`, with a minus sign when negative, as `{}` prints it.
pub open spec fn decimal_int(n: int) -> Seq<char> {
    if n < 0 {
        seq!['-'] + decimal((-n) as nat)
    } else {
        decimal(n as nat)
    }
}

/// Lemma: the decimal digits of `n` are digits and read back as `n`.
pub proof fn lemma_decimal_value(n: nat)
    ensures
        all_digits(decimal(n)),
        digits_value(decimal(n)) == n,
    decreases n,
{
    if n < 10 {
        assert(seq![digit_char(n)].drop_last() =~= Seq::<char>::empty());
        assert(digit_char(n) as u32 == n + 48);
        assert('0' as u32 == 48);
        assert(digits_value(Seq::<char>::empty()) == 0);
        assert(digits_value(decimal(n)) == n);
    } else {
        lemma_decimal_value(n / 10);
        lemma_digits_push(decimal(n / 10), digit_char(n % 10));
        assert(digit_char(n % 10) as u32 == n % 10 + 48);
        assert('0' as u32 == 48);
        assert(n == (n / 10) * 10 + n % 10);
        assert(digits_value(decimal(n)) == n);
    }
}

/// Lemma: different numbers have different decimal digits.
pub proof fn lemma_decimal_injective(a: nat, b: nat)
    requires
        decimal(a) == decimal(b),
    ensures
        a == b,
{
    lemma_decimal_value(a);
    lemma_decimal_value(b);
}

/// Appends the decimal digits of `n` to `s`.
pub fn push_decimal(s: &mut String, n: u64)
    ensures
        final(s)@ == old(s)@ + decimal(n as nat),
    decreases n,
{
    if n >= 10 {
        push_decimal(s, n / 10);
    }
    let d: u32 = (n % 10) as u32;
    let c = char_from_ascii_code(d + 48);
    push_char(s, c);
    if n >= 10 {
        assert(s@ =~= old(s)@ + decimal(n as nat));
    } else {
        assert(s@ =~= old(s)@ + decimal(n as nat));
    }
}

} // verus!
