//! Character-level text handling shared by the parsers and the writers:
//! decimal rendering and right-justified fields (Fortran `iN` edit
//! descriptors), Unicode whitespace, trimming, and decimal integer parsing
//! with the grammar of Rust's integer `FromStr`.
use vstd::prelude::*;

verus! {

/// `String::push` appends one character.
pub assume_specification[ String::push ](s: &mut String, ch: char)
    ensures
        final(s)@ == old(s)@.push(ch),
;

// ---------------------------------------------------------------------------
// Decimal rendering
// ---------------------------------------------------------------------------

/// The ASCII character of a decimal digit `0 <= d < 10`.
pub open spec fn digit_char(d: int) -> char {
    (48 + d) as char
}

/// Decimal digits of a natural number, most significant first, no leading zeros.
pub open spec fn nat_text(n: nat) -> Seq<char>
    decreases n,
{
    if n < 10 {
        seq![digit_char(n as int)]
    } else {
        nat_text(n / 10).push(digit_char((n % 10) as int))
    }
}

/// Decimal text of an integer: a `-` sign for negative values, then the digits.
pub open spec fn int_text(v: int) -> Seq<char> {
    if v < 0 {
        seq!['-'] + nat_text((-v) as nat)
    } else {
        nat_text(v as nat)
    }
}

/// `n` blank characters.
pub open spec fn spaces(n: nat) -> Seq<char> {
    Seq::new(n, |i: int| ' ')
}

/// `s` right-justified in a field of `width` characters (never truncated),
/// as Rust's `{:width}` does for integers.
pub open spec fn right_align(s: Seq<char>, width: nat) -> Seq<char> {
    if s.len() >= width {
        s
    } else {
        spaces((width - s.len()) as nat) + s
    }
}

/// An integer right-justified in a field of `width` characters.
pub open spec fn int_field(v: int, width: nat) -> Seq<char> {
    right_align(int_text(v), width)
}

/// `n` asterisks.
pub open spec fn stars(n: nat) -> Seq<char> {
    Seq::new(n, |i: int| '*')
}

/// An integer under a Fortran `Iw` edit descriptor: right-justified in a
/// field of `width` characters, or `width` asterisks when its text does not
/// fit.
pub open spec fn fortran_field(v: int, width: nat) -> Seq<char> {
    if int_text(v).len() <= width {
        int_field(v, width)
    } else {
        stars(width)
    }
}

/// Ten to the power `k`.
pub open spec fn pow10(k: nat) -> nat
    decreases k,
{
    if k == 0 {
        1
    } else {
        10 * pow10((k - 1) as nat)
    }
}

/// The number of decimal digits of `n` is at most `k` when `n < 10^k`.
pub proof fn lemma_nat_text_len_bound(n: nat, k: nat)
    requires
        k >= 1,
        n < pow10(k),
    ensures
        nat_text(n).len() <= k,
    decreases n,
{
    if n >= 10 {
        if k == 1 {
            assert(pow10(1) == 10 * pow10(0));
            assert(false);
        } else {
            lemma_nat_text_len_bound(n / 10, (k - 1) as nat);
        }
    }
}

/// Every `u64` has at most twenty decimal digits.
pub proof fn lemma_u64_text_len(n: u64)
    ensures
        nat_text(n as nat).len() <= 20,
{
    reveal_with_fuel(pow10, 21);
    assert(pow10(20) == 100000000000000000000nat);
    lemma_nat_text_len_bound(n as nat, 20);
}

/// A Fortran integer field is always exactly `width` characters long.
pub proof fn lemma_fortran_field_len(v: int, width: nat)
    ensures
        fortran_field(v, width).len() == width,
{
}

/// Every character of a decimal text is a digit or the sign.
pub proof fn lemma_nat_text_digits(n: nat)
    ensures
        nat_text(n).len() >= 1,
        forall|i: int| 0 <= i < nat_text(n).len() ==> is_digit(#[trigger] nat_text(n)[i]),
    decreases n,
{
    if n >= 10 {
        lemma_nat_text_digits(n / 10);
    }
}

fn digit_of(d: u64) -> (c: char)
    requires
        d < 10,
    ensures
        c == digit_char(d as int),
{
    (48u8 + (d as u8)) as char
}

/// Appends the decimal digits of `n`.
pub fn push_nat(s: &mut String, n: u64)
    ensures
        final(s)@ == old(s)@ + nat_text(n as nat),
    decreases n,
{
    if n < 10 {
        s.push(digit_of(n));
        assert(old(s)@.push(digit_char(n as int)) == old(s)@ + nat_text(n as nat));
    } else {
        push_nat(s, n / 10);
        s.push(digit_of(n % 10));
        assert(old(s)@ + nat_text((n / 10) as nat) + seq![digit_char((n % 10) as int)] == old(s)@
            + nat_text(n as nat));
    }
}

/// Appends the decimal text of `v`.
pub fn push_int(s: &mut String, v: i64)
    ensures
        final(s)@ == old(s)@ + int_text(v as int),
{
    if v < 0 {
        s.push('-');
        let m: u64 = ((-(v + 1)) as u64) + 1;
        push_nat(s, m);
        assert(old(s)@.push('-') + nat_text(m as nat) == old(s)@ + int_text(v as int));
    } else {
        push_nat(s, v as u64);
    }
}

/// Length of the decimal text of `n`.
pub fn nat_text_len(n: u64) -> (len: usize)
    ensures
        len == nat_text(n as nat).len(),
    decreases n,
{
    if n < 10 {
        1
    } else {
        let k = nat_text_len(n / 10);
        proof {
            lemma_u64_text_len(n / 10);
        }
        k + 1
    }
}

/// Length of the decimal text of `v`.
pub fn int_text_len(v: i64) -> (len: usize)
    ensures
        len == int_text(v as int).len(),
{
    if v < 0 {
        let m: u64 = ((-(v + 1)) as u64) + 1;
        proof {
            lemma_u64_text_len(m);
        }
        nat_text_len(m) + 1
    } else {
        nat_text_len(v as u64)
    }
}

/// Appends `n` blanks.
pub fn push_spaces(s: &mut String, n: usize)
    ensures
        final(s)@ == old(s)@ + spaces(n as nat),
{
    let mut i: usize = 0;
    while i < n
        invariant
            i <= n,
            s@ == old(s)@ + spaces(i as nat),
        decreases n - i,
    {
        s.push(' ');
        i = i + 1;
        assert(s@ == old(s)@ + spaces(i as nat));
    }
}

/// Appends `v` right-justified in a field of `width` characters.
pub fn push_int_field(s: &mut String, v: i64, width: usize)
    ensures
        final(s)@ == old(s)@ + int_field(v as int, width as nat),
{
    let len = int_text_len(v);
    if len < width {
        push_spaces(s, width - len);
    }
    push_int(s, v);
    assert(final(s)@ == old(s)@ + int_field(v as int, width as nat));
}

/// Appends `n` asterisks.
pub fn push_stars(s: &mut String, n: usize)
    ensures
        final(s)@ == old(s)@ + stars(n as nat),
{
    let mut i: usize = 0;
    while i < n
        invariant
            i <= n,
            s@ == old(s)@ + stars(i as nat),
        decreases n - i,
    {
        s.push('*');
        i = i + 1;
        assert(s@ == old(s)@ + stars(i as nat));
    }
}

/// Appends `v` as a Fortran `Iw` field of `width` characters.
pub fn push_fortran_field(s: &mut String, v: i64, width: usize)
    ensures
        final(s)@ == old(s)@ + fortran_field(v as int, width as nat),
{
    if int_text_len(v) <= width {
        push_int_field(s, v, width);
    } else {
        push_stars(s, width);
    }
}

/// Appends every character of `t`.
pub fn push_str(s: &mut String, t: &str)
    ensures
        final(s)@ == old(s)@ + t@,
{
    let ghost start = s@;
    for c in it: t.chars()
        invariant
            s@ == start + it.seq().take(it.index() as int),
    {
        s.push(c);
    }
}

/// A new `String` holding the characters of `t`.
pub fn string_of(t: &str) -> (s: String)
    ensures
        s@ == t@,
{
    let mut s = String::new();
    push_str(&mut s, t);
    s
}

/// The characters of `t`, one by one.
pub fn chars_of(t: &str) -> (v: Vec<char>)
    ensures
        v@ == t@,
{
    let mut v: Vec<char> = Vec::new();
    for c in it: t.chars()
        invariant
            v@ == it.seq().take(it.index() as int),
    {
        v.push(c);
    }
    v
}

/// A `String` of the characters `v[from..to]`.
pub fn string_from_chars(v: &Vec<char>, from: usize, to: usize) -> (s: String)
    requires
        from <= to <= v.len(),
    ensures
        s@ == v@.subrange(from as int, to as int),
{
    let mut s = String::new();
    let mut i: usize = from;
    while i < to
        invariant
            from <= i <= to <= v.len(),
            s@ == v@.subrange(from as int, i as int),
        decreases to - i,
    {
        s.push(v[i]);
        i = i + 1;
        assert(s@ == v@.subrange(from as int, i as int));
    }
    s
}

// ---------------------------------------------------------------------------
// Whitespace and trimming
// ---------------------------------------------------------------------------

/// Unicode `White_Space`, the set that `char::is_whitespace` tests.
pub open spec fn is_whitespace(c: char) -> bool {
    let u = c as u32;
    ||| 0x09 <= u <= 0x0D
    ||| u == 0x20
    ||| u == 0x85
    ||| u == 0xA0
    ||| u == 0x1680
    ||| 0x2000 <= u <= 0x200A
    ||| u == 0x2028
    ||| u == 0x2029
    ||| u == 0x202F
    ||| u == 0x205F
    ||| u == 0x3000
}

/// ASCII whitespace as `u8::is_ascii_whitespace` defines it (no vertical tab).
pub open spec fn is_ascii_whitespace(c: char) -> bool {
    c == ' ' || c == '\t' || c == '\n' || c == '\x0C' || c == '\r'
}

pub fn char_is_whitespace(c: char) -> (b: bool)
    ensures
        b == is_whitespace(c),
{
    let u = c as u32;
    (0x09 <= u && u <= 0x0D) || u == 0x20 || u == 0x85 || u == 0xA0 || u == 0x1680 || (0x2000
        <= u && u <= 0x200A) || u == 0x2028 || u == 0x2029 || u == 0x202F || u == 0x205F || u
        == 0x3000
}

pub fn char_is_ascii_whitespace(c: char) -> (b: bool)
    ensures
        b == is_ascii_whitespace(c),
{
    c == ' ' || c == '\t' || c == '\n' || c == '\x0C' || c == '\r'
}

/// `s` without its leading characters that satisfy `ws`.
pub open spec fn trim_start_by(s: Seq<char>, ascii: bool) -> Seq<char>
    decreases s.len(),
{
    if s.len() > 0 && (if ascii { is_ascii_whitespace(s[0]) } else { is_whitespace(s[0]) }) {
        trim_start_by(s.drop_first(), ascii)
    } else {
        s
    }
}

/// `s` without its trailing characters that satisfy `ws`.
pub open spec fn trim_end_by(s: Seq<char>, ascii: bool) -> Seq<char>
    decreases s.len(),
{
    if s.len() > 0 && (if ascii { is_ascii_whitespace(s.last()) } else { is_whitespace(s.last()) }) {
        trim_end_by(s.drop_last(), ascii)
    } else {
        s
    }
}

/// `str::trim`: both ends stripped of Unicode whitespace.
pub open spec fn trim(s: Seq<char>) -> Seq<char> {
    trim_end_by(trim_start_by(s, false), false)
}

/// `str::trim_ascii`: both ends stripped of ASCII whitespace.
pub open spec fn trim_ascii(s: Seq<char>) -> Seq<char> {
    trim_end_by(trim_start_by(s, true), true)
}

pub open spec fn ws_by(c: char, ascii: bool) -> bool {
    if ascii {
        is_ascii_whitespace(c)
    } else {
        is_whitespace(c)
    }
}

proof fn lemma_trim_start_index(s: Seq<char>, ascii: bool, i: int)
    requires
        0 <= i <= s.len(),
        forall|k: int| 0 <= k < i ==> ws_by(#[trigger] s[k], ascii),
        i == s.len() || !ws_by(s[i], ascii),
    ensures
        trim_start_by(s, ascii) == s.subrange(i, s.len() as int),
    decreases i,
{
    if i == 0 {
        assert(s.subrange(0, s.len() as int) == s);
    } else {
        assert(ws_by(s[0], ascii));
        let t = s.drop_first();
        assert forall|k: int| 0 <= k < i - 1 implies ws_by(#[trigger] t[k], ascii) by {
            assert(t[k] == s[k + 1]);
        }
        if i - 1 < t.len() {
            assert(t[i - 1] == s[i]);
        }
        lemma_trim_start_index(t, ascii, i - 1);
        assert(t.subrange(i - 1, t.len() as int) == s.subrange(i, s.len() as int));
    }
}

proof fn lemma_trim_end_index(s: Seq<char>, ascii: bool, j: int)
    requires
        0 <= j <= s.len(),
        forall|k: int| j <= k < s.len() ==> ws_by(#[trigger] s[k], ascii),
        j == 0 || !ws_by(s[j - 1], ascii),
    ensures
        trim_end_by(s, ascii) == s.subrange(0, j),
    decreases s.len() - j,
{
    if j == s.len() {
        assert(s.subrange(0, j) == s);
    } else {
        assert(ws_by(s.last(), ascii));
        let t = s.drop_last();
        assert forall|k: int| j <= k < t.len() implies ws_by(#[trigger] t[k], ascii) by {
            assert(t[k] == s[k]);
        }
        if j > 0 {
            assert(t[j - 1] == s[j - 1]);
        }
        lemma_trim_end_index(t, ascii, j);
        assert(t.subrange(0, j) == s.subrange(0, j));
    }
}

fn ws_char(c: char, ascii: bool) -> (b: bool)
    ensures
        b == ws_by(c, ascii),
{
    if ascii {
        char_is_ascii_whitespace(c)
    } else {
        char_is_whitespace(c)
    }
}

/// The characters of `t` with leading and trailing whitespace removed
/// (Unicode whitespace, or ASCII whitespace when `ascii`).
pub fn trimmed_chars(v: &Vec<char>, ascii: bool) -> (r: Vec<char>)
    ensures
        r@ == trim_end_by(trim_start_by(v@, ascii), ascii),
{
    let n = v.len();
    let mut i: usize = 0;
    while i < n && ws_char(v[i], ascii)
        invariant
            i <= n == v.len(),
            forall|k: int| 0 <= k < i ==> ws_by(#[trigger] v@[k], ascii),
        decreases n - i,
    {
        i = i + 1;
    }
    proof {
        lemma_trim_start_index(v@, ascii, i as int);
    }
    let ghost t = v@.subrange(i as int, n as int);
    let mut j: usize = n;
    while j > i && ws_char(v[j - 1], ascii)
        invariant
            i <= j <= n == v.len(),
            t == v@.subrange(i as int, n as int),
            forall|k: int| j <= k < n ==> ws_by(#[trigger] v@[k], ascii),
        decreases j - i,
    {
        j = j - 1;
    }
    proof {
        assert forall|k: int| (j - i) <= k < t.len() implies ws_by(#[trigger] t[k], ascii) by {
            assert(t[k] == v@[k + i]);
        }
        if j > i {
            assert(t[j - i - 1] == v@[j - 1]);
        }
        lemma_trim_end_index(t, ascii, j - i);
        assert(t.subrange(0, j - i) == v@.subrange(i as int, j as int));
    }
    let mut r: Vec<char> = Vec::new();
    let mut k: usize = i;
    while k < j
        invariant
            i <= k <= j <= n == v.len(),
            r@ == v@.subrange(i as int, k as int),
        decreases j - k,
    {
        r.push(v[k]);
        k = k + 1;
        assert(r@ == v@.subrange(i as int, k as int));
    }
    r
}

// ---------------------------------------------------------------------------
// Decimal integer parsing (the grammar of Rust's integer `FromStr`)
// ---------------------------------------------------------------------------

pub open spec fn is_digit(c: char) -> bool {
    48 <= (c as u32) <= 57
}

pub open spec fn all_digits(s: Seq<char>) -> bool {
    forall|i: int| 0 <= i < s.len() ==> is_digit(#[trigger] s[i])
}

/// The value of a string of decimal digits.
pub open spec fn digits_value(s: Seq<char>) -> nat
    decreases s.len(),
{
    if s.len() == 0 {
        0
    } else {
        digits_value(s.drop_last()) * 10 + ((s.last() as u32) - 48) as nat
    }
}

/// The magnitude text of an unsigned number: an optional `+`, then digits.
pub open spec fn unsigned_digits(s: Seq<char>) -> Seq<char> {
    if s.len() > 0 && s[0] == '+' {
        s.drop_first()
    } else {
        s
    }
}

/// The value `str::parse` gives for an unsigned integer type, before the
/// range check: an optional `+`, then at least one decimal digit.
pub open spec fn unsigned_value(s: Seq<char>) -> Option<nat> {
    let d = unsigned_digits(s);
    if s.len() > 0 && d.len() > 0 && all_digits(d) {
        Some(digits_value(d))
    } else {
        None
    }
}

/// The value `str::parse` gives for a signed integer type, before the range
/// check: an optional `+` or `-`, then at least one decimal digit.
pub open spec fn signed_value(s: Seq<char>) -> Option<int> {
    if s.len() > 0 && s[0] == '-' {
        let d = s.drop_first();
        if d.len() > 0 && all_digits(d) {
            Some(-(digits_value(d) as int))
        } else {
            None
        }
    } else {
        match unsigned_value(s) {
            Some(v) => Some(v as int),
            None => None,
        }
    }
}

/// `s.parse::<usize>()`, as an option.
pub open spec fn usize_value(s: Seq<char>) -> Option<usize> {
    match unsigned_value(s) {
        Some(v) => if v <= usize::MAX {
            Some(v as usize)
        } else {
            None
        },
        None => None,
    }
}

/// `s.parse::<i64>()`, as an option.
pub open spec fn i64_value(s: Seq<char>) -> Option<i64> {
    match signed_value(s) {
        Some(v) => if i64::MIN <= v <= i64::MAX {
            Some(v as i64)
        } else {
            None
        },
        None => None,
    }
}

/// `s.parse::<i32>()`, as an option.
pub open spec fn i32_value(s: Seq<char>) -> Option<i32> {
    match signed_value(s) {
        Some(v) => if i32::MIN <= v <= i32::MAX {
            Some(v as i32)
        } else {
            None
        },
        None => None,
    }
}

/// Reads the digits `v[from..]`: the value, capped at `cap + 1`, when all are
/// digits and there is at least one.
fn scan_digits(v: &Vec<char>, from: usize, cap: u128) -> (r: Option<u128>)
    requires
        from <= v.len(),
        cap <= u64::MAX,
    ensures
        ({
            let d = v@.subrange(from as int, v@.len() as int);
            match r {
                Some(x) => d.len() > 0 && all_digits(d) && (if digits_value(d) > cap {
                    x == cap + 1
                } else {
                    x == digits_value(d)
                }),
                None => !(d.len() > 0 && all_digits(d)),
            }
        }),
{
    let n = v.len();
    if from == n {
        return None;
    }
    let mut acc: u128 = 0;
    let mut i: usize = from;
    while i < n
        invariant
            from <= i <= n == v.len(),
            cap <= u64::MAX,
            all_digits(v@.subrange(from as int, i as int)),
            acc <= cap + 1,
            acc == if digits_value(v@.subrange(from as int, i as int)) > cap {
                (cap + 1) as nat
            } else {
                digits_value(v@.subrange(from as int, i as int))
            },
        decreases n - i,
    {
        let c = v[i];
        let u = c as u32;
        if u < 48 || u > 57 {
            proof {
                let d = v@.subrange(from as int, n as int);
                assert(d[i - from] == c);
            }
            return None;
        }
        let ghost pre = v@.subrange(from as int, i as int);
        let ghost next = v@.subrange(from as int, i + 1);
        proof {
            assert(next.drop_last() == pre);
            assert(next.last() == c);
            assert(all_digits(next)) by {
                assert forall|k: int| 0 <= k < next.len() implies is_digit(#[trigger] next[k]) by {
                    if k < pre.len() {
                        assert(next[k] == pre[k]);
                    }
                }
            }
        }
        let d = (u - 48) as u128;
        if acc > cap {
            acc = cap + 1;
        } else {
            let big: u128 = acc * 10 + d;
            if big > cap {
                acc = cap + 1;
            } else {
                acc = big;
            }
        }
        i = i + 1;
    }
    assert(v@.subrange(from as int, n as int).len() > 0);
    Some(acc)
}

/// `s.parse::<usize>()` on the characters of `v`.
pub fn parse_usize_chars(v: &Vec<char>) -> (r: Option<usize>)
    ensures
        r == usize_value(v@),
{
    if v.len() == 0 {
        return None;
    }
    let from: usize = if v[0] == '+' { 1 } else { 0 };
    proof {
        assert(v@.subrange(from as int, v@.len() as int) == unsigned_digits(v@));
    }
    let cap: u128 = usize::MAX as u128;
    match scan_digits(v, from, cap) {
        Some(x) => if x > cap {
            None
        } else {
            Some(x as usize)
        },
        None => None,
    }
}

/// The signed value of the characters of `v`, when they form an integer
/// whose magnitude is at most `bound` (for negative values, `bound + 1`).
fn parse_signed_chars(v: &Vec<char>, bound: u64) -> (r: Option<i64>)
    requires
        bound <= i64::MAX,
    ensures
        match r {
            Some(x) => signed_value(v@) == Some(x as int) && -(bound + 1) <= x <= bound,
            None => match signed_value(v@) {
                Some(y) => !(-(bound + 1) <= y <= bound),
                None => true,
            },
        },
{
    if v.len() == 0 {
        return None;
    }
    if v[0] == '-' {
        proof {
            assert(v@.subrange(1, v@.len() as int) == v@.drop_first());
        }
        match scan_digits(v, 1, (bound + 1) as u128) {
            Some(x) => if x > (bound + 1) as u128 {
                None
            } else if x == 0 {
                Some(0i64)
            } else {
                Some(-((x - 1) as i64) - 1)
            },
            None => None,
        }
    } else {
        let from: usize = if v[0] == '+' { 1 } else { 0 };
        proof {
            assert(v@.subrange(from as int, v@.len() as int) == unsigned_digits(v@));
        }
        match scan_digits(v, from, bound as u128) {
            Some(x) => if x > bound as u128 {
                None
            } else {
                Some(x as i64)
            },
            None => None,
        }
    }
}

/// `s.parse::<i64>()` on the characters of `v`.
pub fn parse_i64_chars(v: &Vec<char>) -> (r: Option<i64>)
    ensures
        r == i64_value(v@),
{
    parse_signed_chars(v, i64::MAX as u64)
}

/// `s.parse::<i32>()` on the characters of `v`.
pub fn parse_i32_chars(v: &Vec<char>) -> (r: Option<i32>)
    ensures
        r == i32_value(v@),
{
    match parse_signed_chars(v, i32::MAX as u64) {
        Some(x) => Some(x as i32),
        None => None,
    }
}

/// `s.trim().parse::<usize>()`.
pub fn parse_trimmed_usize(s: &str) -> (r: Option<usize>)
    ensures
        r == usize_value(trim(s@)),
{
    let t = trimmed_chars(&chars_of(s), false);
    parse_usize_chars(&t)
}

/// `s.trim().parse::<i64>()`.
pub fn parse_trimmed_i64(s: &str) -> (r: Option<i64>)
    ensures
        r == i64_value(trim(s@)),
{
    let t = trimmed_chars(&chars_of(s), false);
    parse_i64_chars(&t)
}

/// The value of the digits of `s` followed by one more digit `c`.
proof fn lemma_digits_value_push(s: Seq<char>, c: char)
    ensures
        digits_value(s.push(c)) == digits_value(s) * 10 + ((c as u32) - 48) as nat,
{
    assert(s.push(c).drop_last() == s);
}

/// The decimal text of `n` reads back as `n`.
proof fn lemma_digits_value_nat_text(n: nat)
    ensures
        digits_value(nat_text(n)) == n,
    decreases n,
{
    if n >= 10 {
        lemma_digits_value_nat_text(n / 10);
        lemma_digits_value_push(nat_text(n / 10), digit_char((n % 10) as int));
    } else {
        lemma_digits_value_push(Seq::<char>::empty(), digit_char(n as int));
        assert(seq![digit_char(n as int)] == Seq::<char>::empty().push(digit_char(n as int)));
    }
}

/// What the writer prints, the parser reads back: the decimal text of a
/// natural number parses as that number, as an unsigned value and as a
/// `usize` when it fits.
pub proof fn lemma_nat_text_round_trip(n: nat)
    ensures
        unsigned_value(nat_text(n)) == Some(n),
        n <= usize::MAX ==> usize_value(nat_text(n)) == Some(n as usize),
        signed_value(nat_text(n)) == Some(n as int),
{
    lemma_nat_text_digits(n);
    lemma_digits_value_nat_text(n);
    assert(is_digit(nat_text(n)[0]));
    assert(unsigned_digits(nat_text(n)) == nat_text(n));
}

/// The decimal text of an integer parses back as that integer, as an `i64`
/// when it fits.
pub proof fn lemma_int_text_round_trip(v: int)
    ensures
        signed_value(int_text(v)) == Some(v),
        i64::MIN <= v <= i64::MAX ==> i64_value(int_text(v)) == Some(v as i64),
{
    if v < 0 {
        let t = int_text(v);
        lemma_nat_text_digits((-v) as nat);
        lemma_digits_value_nat_text((-v) as nat);
        assert(t[0] == '-');
        assert(t.drop_first() == nat_text((-v) as nat));
    } else {
        lemma_nat_text_round_trip(v as nat);
    }
}

// ---------------------------------------------------------------------------
// Debug rendering of a string
// ---------------------------------------------------------------------------

/// The text that `{:?}` produces for a string: the quoted, escaped form.
pub uninterp spec fn debug_text(s: Seq<char>) -> Seq<char>;

/// Calls std's `Debug` formatting of `str` (`format!("{:?}", s)`): the string
/// in double quotes with quotes, backslashes and non-printable characters
/// escaped. The contract names the result and says no more of it.
#[verifier::external_body]
pub(crate) fn debug_quoted(s: &str) -> (r: String)
    ensures
        r@ == debug_text(s@),
{
    format!("{:?}", s)
}

} // verus!
