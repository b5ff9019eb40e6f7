//! Verified text helpers: trimming, prefix tests, integer parsing and
//! formatting, and the padding used by the board and roster renderers.
//!
//! Every executable function here has an exact contract over a spec-level
//! description of its result, so the prompt and broadcast texts produced by
//! the engine are pinned down character by character.
use vstd::prelude::*;
use vstd::string::*;

verus! {

/// The whitespace characters stripped from the ends of player input lines.
pub open spec fn is_space_char(c: char) -> bool {
    c == ' ' || c == '\t' || c == '\r' || c == '\n'
}

pub open spec fn trim_front_spec(s: Seq<char>) -> Seq<char>
    decreases s.len(),
{
    if s.len() > 0 && is_space_char(s[0]) {
        trim_front_spec(s.drop_first())
    } else {
        s
    }
}

pub open spec fn trim_back_spec(s: Seq<char>) -> Seq<char>
    decreases s.len(),
{
    if s.len() > 0 && is_space_char(s.last()) {
        trim_back_spec(s.drop_last())
    } else {
        s
    }
}

/// The line with leading and trailing whitespace removed.
pub open spec fn trim_spec(s: Seq<char>) -> Seq<char> {
    trim_back_spec(trim_front_spec(s))
}

proof fn lemma_trim_front_at(s: Seq<char>, a: int)
    requires
        0 <= a <= s.len(),
        forall|j: int| 0 <= j < a ==> is_space_char(s[j]),
        a < s.len() ==> !is_space_char(s[a]),
    ensures
        trim_front_spec(s) == s.subrange(a, s.len() as int),
    decreases a,
{
    if a == 0 {
        assert(s.subrange(0, s.len() as int) =~= s);
    } else {
        let t = s.drop_first();
        assert(t =~= s.subrange(1, s.len() as int));
        lemma_trim_front_at(t, a - 1);
        assert(t.subrange(a - 1, t.len() as int) =~= s.subrange(a, s.len() as int));
    }
}

proof fn lemma_trim_back_at(s: Seq<char>, b: int)
    requires
        0 <= b <= s.len(),
        forall|j: int| b <= j < s.len() ==> is_space_char(s[j]),
        b > 0 ==> !is_space_char(s[b - 1]),
    ensures
        trim_back_spec(s) == s.subrange(0, b),
    decreases s.len(),
{
    if b == s.len() {
        if s.len() == 0 || !is_space_char(s.last()) {
            assert(s.subrange(0, s.len() as int) =~= s);
        } else {
            assert(false);
        }
    } else {
        let t = s.drop_last();
        assert(t =~= s.subrange(0, s.len() - 1));
        lemma_trim_back_at(t, b);
        assert(t.subrange(0, b) =~= s.subrange(0, b));
    }
}

/// Strips leading and trailing whitespace from a line of player input.
#[verifier::loop_isolation(false)]
pub fn trim_str(s: &str) -> (t: String)
    ensures
        t@ == trim_spec(s@),
{
    let len = s.unicode_len();
    let mut a: usize = 0;
    while a < len && is_space_exec(s.get_char(a))
        invariant
            0 <= a <= len,
            len == s@.len(),
            forall|j: int| 0 <= j < a ==> is_space_char(s@[j]),
        decreases len - a,
    {
        a = a + 1;
    }
    let mut b: usize = len;
    while b > a && is_space_exec(s.get_char(b - 1))
        invariant
            a <= b <= len,
            len == s@.len(),
            forall|j: int| 0 <= j < a ==> is_space_char(s@[j]),
            a < len ==> !is_space_char(s@[a as int]),
            forall|j: int| b <= j < len ==> is_space_char(s@[j]),
        decreases b,
    {
        b = b - 1;
    }
    proof {
        lemma_trim_front_at(s@, a as int);
        let f = s@.subrange(a as int, len as int);
        lemma_trim_back_at(f, b - a);
        assert(f.subrange(0, b - a) =~= s@.subrange(a as int, b as int));
    }
    String::from_str(s.substring_char(a, b))
}

fn is_space_exec(c: char) -> (r: bool)
    ensures
        r == is_space_char(c),
{
    c == ' ' || c == '\t' || c == '\r' || c == '\n'
}

/// Whether `p` is a prefix of `s`.
#[verifier::loop_isolation(false)]
pub fn starts_with_str(s: &str, p: &str) -> (r: bool)
    ensures
        r == p@.is_prefix_of(s@),
{
    let slen = s.unicode_len();
    let plen = p.unicode_len();
    if plen > slen {
        assert(!p@.is_prefix_of(s@));
        return false;
    }
    let mut i: usize = 0;
    while i < plen
        invariant
            0 <= i <= plen <= slen,
            slen == s@.len(),
            plen == p@.len(),
            forall|j: int| 0 <= j < i ==> s@[j] == p@[j],
        decreases plen - i,
    {
        if s.get_char(i) != p.get_char(i) {
            assert(!p@.is_prefix_of(s@));
            return false;
        }
        i = i + 1;
    }
    assert(p@ =~= s@.subrange(0, plen as int));
    true
}

/// Index of the first occurrence of `c` in `s`, if any.
pub open spec fn find_char_spec(s: Seq<char>, c: char) -> Option<int>
    decreases s.len(),
{
    if s.len() == 0 {
        None
    } else if s[0] == c {
        Some(0)
    } else {
        match find_char_spec(s.drop_first(), c) {
            Some(i) => Some(i + 1),
            None => None,
        }
    }
}

proof fn lemma_find_char_at(s: Seq<char>, c: char, i: int)
    requires
        0 <= i <= s.len(),
        forall|j: int| 0 <= j < i ==> s[j] != c,
        i < s.len() ==> s[i] == c,
    ensures
        i < s.len() ==> find_char_spec(s, c) == Some(i),
        i == s.len() ==> find_char_spec(s, c) is None,
    decreases i,
{
    if i == 0 {
        if s.len() == 0 {
        }
    } else {
        let t = s.drop_first();
        lemma_find_char_at(t, c, i - 1);
    }
}

#[verifier::loop_isolation(false)]
pub fn find_char(s: &str, c: char) -> (r: Option<usize>)
    ensures
        match r {
            Some(i) => i < s@.len() && s@[i as int] == c && find_char_spec(s@, c) == Some(i as int),
            None => find_char_spec(s@, c) is None,
        },
{
    let len = s.unicode_len();
    let mut i: usize = 0;
    while i < len
        invariant
            0 <= i <= len,
            len == s@.len(),
            forall|j: int| 0 <= j < i ==> s@[j] != c,
        decreases len - i,
    {
        if s.get_char(i) == c {
            proof {
                lemma_find_char_at(s@, c, i as int);
            }
            return Some(i);
        }
        i = i + 1;
    }
    proof {
        lemma_find_char_at(s@, c, len as int);
    }
    None
}

pub open spec fn is_digit(c: char) -> bool {
    48 <= c as int <= 57
}

pub open spec fn digit_val(c: char) -> int {
    c as int - 48
}

pub open spec fn all_digits(s: Seq<char>) -> bool {
    forall|i: int| 0 <= i < s.len() ==> is_digit(s[i])
}

/// Value of a non-empty digit string, most significant digit first.
pub open spec fn digits_val(s: Seq<char>) -> int
    decreases s.len(),
{
    if s.len() == 0 {
        0
    } else {
        digits_val(s.drop_last()) * 10 + digit_val(s.last())
    }
}

/// The integer denoted by the line, under the usual grammar: an optional
/// sign followed by at least one decimal digit.
pub open spec fn int_literal_spec(s: Seq<char>) -> Option<int> {
    if s.len() > 0 && (s[0] == '+' || s[0] == '-') {
        let d = s.drop_first();
        if d.len() > 0 && all_digits(d) {
            Some(if s[0] == '-' { -digits_val(d) } else { digits_val(d) })
        } else {
            None
        }
    } else if s.len() > 0 && all_digits(s) {
        Some(digits_val(s))
    } else {
        None
    }
}

/// What parsing the line as an `i32` yields: the denoted integer when the
/// grammar matches and the value fits, nothing otherwise.
pub open spec fn parse_i32_spec(s: Seq<char>) -> Option<i32> {
    match int_literal_spec(s) {
        Some(n) => if i32::MIN <= n <= i32::MAX {
            Some(n as i32)
        } else {
            None
        },
        None => None,
    }
}

pub open spec fn pow10(n: int) -> int
    decreases n,
{
    if n <= 0 {
        1
    } else {
        pow10(n - 1) * 10
    }
}

proof fn lemma_digits_val_bounds(s: Seq<char>)
    requires
        all_digits(s),
    ensures
        0 <= digits_val(s) < pow10(s.len() as int),
    decreases s.len(),
{
    if s.len() > 0 {
        let t = s.drop_last();
        assert(all_digits(t));
        lemma_digits_val_bounds(t);
    }
}

proof fn lemma_digits_val_first_nonzero(s: Seq<char>)
    requires
        all_digits(s),
        s.len() > 0,
        s[0] != '0',
    ensures
        digits_val(s) >= pow10(s.len() - 1),
    decreases s.len(),
{
    assert(is_digit(s[s.len() - 1]));
    assert(s.last() == s[s.len() - 1]);
    if s.len() == 1 {
        assert(s.drop_last().len() == 0);
        assert(digits_val(s.drop_last()) == 0);
        assert('0' as int == 48);
        assert(digit_val(s.last()) >= 1);
        assert(pow10(0) == 1);
    } else {
        let t = s.drop_last();
        assert(all_digits(t));
        assert(t[0] == s[0]);
        lemma_digits_val_first_nonzero(t);
        assert(pow10(s.len() - 1) == pow10(s.len() - 2) * 10);
        assert(digits_val(s) == digits_val(t) * 10 + digit_val(s.last()));
    }
}

proof fn lemma_digits_val_drop_first_zero(s: Seq<char>)
    requires
        all_digits(s),
        s.len() > 0,
        s[0] == '0',
    ensures
        digits_val(s) == digits_val(s.drop_first()),
    decreases s.len(),
{
    if s.len() == 1 {
        assert(s.drop_last().len() == 0);
        assert(digits_val(s.drop_last()) == 0);
        assert(s.last() == s[0]);
        assert('0' as int == 48);
        assert(digit_val(s.last()) == 0);
        assert(s.drop_first().len() == 0);
        assert(digits_val(s.drop_first()) == 0);
    } else {
        let t = s.drop_last();
        assert(all_digits(t));
        lemma_digits_val_drop_first_zero(t);
        assert(t.drop_first() =~= s.drop_first().drop_last());
        assert(s.drop_first().last() == s.last());
    }
}

/// Parses the line as an `i32`, exactly as `parse_i32_spec` describes.
#[verifier::loop_isolation(false)]
pub fn parse_i32(s: &str) -> (r: Option<i32>)
    ensures
        r == parse_i32_spec(s@),
{
    let len = s.unicode_len();
    if len == 0 {
        return None;
    }
    let first = s.get_char(0);
    let neg = first == '-';
    let start: usize = if first == '-' || first == '+' {
        1
    } else {
        0
    };
    if start >= len {
        return None;
    }
    // every remaining character must be a digit
    let mut i: usize = start;
    while i < len
        invariant
            start <= i <= len,
            len == s@.len(),
            forall|j: int| start <= j < i ==> is_digit(s@[j]),
        decreases len - i,
    {
        let d = s.get_char(i) as u32;
        if d < 48 || d > 57 {
            proof {
                let sub = s@.subrange(start as int, len as int);
                assert(sub[i - start] == s@[i as int]);
                assert(!is_digit(sub[i - start]));
            }
            assert(!all_digits(s@.subrange(start as int, len as int)));
            proof {
                if start == 1 {
                    assert(s@[0] == '+' || s@[0] == '-');
                    let dd = s@.drop_first();
                    assert(dd =~= s@.subrange(1, len as int));
                    assert(s@.subrange(start as int, len as int) == s@.subrange(1, len as int));
                    assert(!all_digits(dd));
                } else {
                    assert(s@[0] != '+' && s@[0] != '-');
                    assert(s@.subrange(start as int, len as int) == s@.subrange(0, len as int));
                    assert(s@ =~= s@.subrange(0, len as int));
                    assert(!all_digits(s@));
                }
                assert(int_literal_spec(s@) is None);
            }
            return None;
        }
        i = i + 1;
    }
    let ghost digits = s@.subrange(start as int, len as int);
    proof {
        assert(all_digits(digits));
        if start == 1 {
            assert(s@.drop_first() =~= digits);
        } else {
            assert(s@ =~= digits);
        }
    }
    // skip leading zeros; they do not change the denoted value
    let mut k: usize = start;
    while k < len && s.get_char(k) == '0'
        invariant
            start <= k <= len,
            len == s@.len(),
            all_digits(s@.subrange(start as int, len as int)),
            digits == s@.subrange(start as int, len as int),
            digits_val(s@.subrange(k as int, len as int)) == digits_val(digits),
            all_digits(s@.subrange(k as int, len as int)),
        decreases len - k,
    {
        proof {
            let cur = s@.subrange(k as int, len as int);
            lemma_digits_val_drop_first_zero(cur);
            assert(cur.drop_first() =~= s@.subrange(k + 1, len as int));
        }
        k = k + 1;
    }
    let ghost rest = s@.subrange(k as int, len as int);
    if len - k > 10 {
        // more than ten significant digits never fits in an `i32`
        proof {
            lemma_digits_val_first_nonzero(rest);
            assert(pow10(rest.len() - 1) >= pow10(10)) by {
                lemma_pow10_mono(10, rest.len() - 1);
            }
            assert(pow10(10) == 10000000000) by {
                reveal_with_fuel(pow10, 11);
            }
        }
        return None;
    }
    let mut val: u64 = 0;
    let mut j: usize = k;
    while j < len
        invariant
            k <= j <= len,
            len == s@.len(),
            len - k <= 10,
            rest == s@.subrange(k as int, len as int),
            all_digits(rest),
            val == digits_val(s@.subrange(k as int, j as int)),
            0 <= val < pow10(j - k),
        decreases len - j,
    {
        let d = s.get_char(j) as u32;
        proof {
            assert(rest[j - k] == s@[j as int]);
            assert(is_digit(s@[j as int]));
            assert(pow10(j - k) <= pow10(10)) by {
                lemma_pow10_mono(j - k, 10);
            }
            assert(pow10(10) == 10000000000) by {
                reveal_with_fuel(pow10, 11);
            }
            let p = s@.subrange(k as int, j + 1);
            assert(p.drop_last() =~= s@.subrange(k as int, j as int));
            lemma_digits_val_bounds(p.drop_last());
        }
        val = val * 10 + ((d - 48) as u64);
        j = j + 1;
    }
    proof {
        assert(s@.subrange(k as int, len as int) =~= rest);
        assert(val == digits_val(digits));
        assert(int_literal_spec(s@) == Some(if neg { -digits_val(digits) } else { digits_val(digits) }));
    }
    if neg {
        if val <= 2147483647 {
            Some(-(val as i32))
        } else if val == 2147483648 {
            Some(i32::MIN)
        } else {
            None
        }
    } else {
        if val <= 2147483647 {
            Some(val as i32)
        } else {
            None
        }
    }
}

proof fn lemma_pow10_mono(a: int, b: int)
    requires
        a <= b,
    ensures
        pow10(a) <= pow10(b),
        pow10(a) >= 1,
    decreases b - a,
{
    if a < b {
        lemma_pow10_mono(a, b - 1);
    } else {
        lemma_pow10_pos(a);
    }
}

proof fn lemma_pow10_pos(a: int)
    ensures
        pow10(a) >= 1,
    decreases (if a > 0 { a } else { 0 }),
{
    if a > 0 {
        lemma_pow10_pos(a - 1);
    }
}


/// Decimal digit characters, least significant digit handled last.
pub open spec fn digit_char(d: int) -> char {
    if d == 0 { '0' } else if d == 1 { '1' } else if d == 2 { '2' } else if d == 3 { '3' }
    else if d == 4 { '4' } else if d == 5 { '5' } else if d == 6 { '6' } else if d == 7 { '7' }
    else if d == 8 { '8' } else { '9' }
}

/// Decimal rendering of a non-negative integer, no sign and no leading zero.
pub open spec fn dec_str(n: int) -> Seq<char>
    decreases n,
{
    if n < 10 {
        seq![digit_char(n)]
    } else {
        dec_str(n / 10).push(digit_char(n % 10))
    }
}

/// Decimal rendering of a signed integer: a minus sign for negative values.
pub open spec fn int_str(n: int) -> Seq<char> {
    if n < 0 {
        seq!['-'] + dec_str(-n)
    } else {
        dec_str(n)
    }
}

fn digit_str(d: u64) -> (s: &'static str)
    requires
        d < 10,
    ensures
        s@ == seq![digit_char(d as int)],
{
    proof {
        reveal_strlit("0");
        reveal_strlit("1");
        reveal_strlit("2");
        reveal_strlit("3");
        reveal_strlit("4");
        reveal_strlit("5");
        reveal_strlit("6");
        reveal_strlit("7");
        reveal_strlit("8");
        reveal_strlit("9");
    }
    let r = if d == 0 { "0" } else if d == 1 { "1" } else if d == 2 { "2" } else if d == 3 { "3" }
    else if d == 4 { "4" } else if d == 5 { "5" } else if d == 6 { "6" } else if d == 7 { "7" }
    else if d == 8 { "8" } else { "9" };
    proof {
        assert(r@ =~= seq![digit_char(d as int)]);
    }
    r
}

/// Renders a non-negative number in decimal.
pub fn u64_to_string(n: u64) -> (s: String)
    ensures
        s@ == dec_str(n as int),
    decreases n,
{
    if n < 10 {
        String::from_str(digit_str(n))
    } else {
        let mut s = u64_to_string(n / 10);
        s.append(digit_str(n % 10));
        s
    }
}

/// Renders a signed number in decimal, with a minus sign when negative.
pub fn i32_to_string(n: i32) -> (s: String)
    ensures
        s@ == int_str(n as int),
{
    if n >= 0 {
        u64_to_string(n as u64)
    } else {
        let m: i64 = -(n as i64);
        let mut s = String::from_str("-");
        proof {
            reveal_strlit("-");
            assert(s@ =~= seq!['-']);
        }
        s.append(u64_to_string(m as u64).as_str());
        s
    }
}

/// `n` copies of one character.
pub open spec fn repeat_char(c: char, n: int) -> Seq<char> {
    Seq::new(n as nat, |i: int| c)
}

#[verifier::loop_isolation(false)]
fn repeat_literal(piece: &str, c: char, n: usize) -> (s: String)
    requires
        piece@ == seq![c],
    ensures
        s@ == repeat_char(c, n as int),
{
    let mut s = String::new();
    let mut i: usize = 0;
    proof {
        assert(s@ =~= repeat_char(c, 0));
    }
    while i < n
        invariant
            0 <= i <= n,
            s@ == repeat_char(c, i as int),
        decreases n - i,
    {
        s.append(piece);
        i = i + 1;
        proof {
            assert(s@ =~= repeat_char(c, i as int));
        }
    }
    s
}

/// A run of spaces, as used for column padding.
pub fn spaces_string(n: usize) -> (s: String)
    ensures
        s@ == repeat_char(' ', n as int),
{
    proof {
        reveal_strlit(" ");
        assert(" "@ =~= seq![' ']);
    }
    repeat_literal(" ", ' ', n)
}

/// A horizontal rule of dashes, as drawn between board rows.
pub fn dashes_string(n: usize) -> (s: String)
    ensures
        s@ == repeat_char('-', n as int),
{
    proof {
        reveal_strlit("-");
        assert("-"@ =~= seq!['-']);
    }
    repeat_literal("-", '-', n)
}

/// The text right-aligned in a column of width `w`; text wider than the
/// column is kept whole.
pub open spec fn pad_left_spec(s: Seq<char>, w: int) -> Seq<char> {
    if s.len() >= w {
        s
    } else {
        repeat_char(' ', w - s.len()) + s
    }
}

/// The text centred in a column of width `w`, extra space going right;
/// text wider than the column is kept whole.
pub open spec fn center_spec(s: Seq<char>, w: int) -> Seq<char> {
    if s.len() >= w {
        s
    } else {
        let left = (w - s.len()) / 2;
        repeat_char(' ', left) + s + repeat_char(' ', w - s.len() - left)
    }
}

pub fn pad_left(s: &str, w: usize) -> (r: String)
    ensures
        r@ == pad_left_spec(s@, w as int),
{
    let len = s.unicode_len();
    if len >= w {
        String::from_str(s)
    } else {
        let mut r = spaces_string(w - len);
        r.append(s);
        r
    }
}

pub fn center(s: &str, w: usize) -> (r: String)
    ensures
        r@ == center_spec(s@, w as int),
{
    let len = s.unicode_len();
    if len >= w {
        String::from_str(s)
    } else {
        let left = (w - len) / 2;
        let mut r = spaces_string(left);
        r.append(s);
        let right = spaces_string(w - len - left);
        r.append(right.as_str());
        r
    }
}

/// Whether two pieces of text hold the same characters.
#[verifier::loop_isolation(false)]
pub fn str_eq(a: &str, b: &str) -> (r: bool)
    ensures
        r == (a@ == b@),
{
    let alen = a.unicode_len();
    let blen = b.unicode_len();
    if alen != blen {
        return false;
    }
    let mut i: usize = 0;
    while i < alen
        invariant
            0 <= i <= alen,
            forall|j: int| 0 <= j < i ==> a@[j] == b@[j],
        decreases alen - i,
    {
        if a.get_char(i) != b.get_char(i) {
            return false;
        }
        i = i + 1;
    }
    proof {
        assert(a@ =~= b@);
    }
    true
}

} // verus!
