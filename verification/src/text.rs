//! Character-level text model shared by the record parser, the template
//! compiler and the renderer: whitespace trimming, line and token scanning,
//! and decimal numbers, each as a spec function with the lemmas and verified
//! executable helpers that the other modules build on.

use vstd::prelude::*;
use vstd::string::StrSliceExecFns;

verus! {

/// Whitespace that the lenient parser tolerates around keys and values:
/// space, horizontal tab and carriage return. The newline is not among them;
/// it separates lines.
pub open spec fn is_space(c: char) -> bool {
    c as u32 == 32 || c as u32 == 9 || c as u32 == 13
}

/// An ASCII decimal digit.
pub open spec fn is_digit(c: char) -> bool {
    48 <= c as u32 <= 57
}

/// The numeric value of a digit character; zero on anything else, so that
/// accumulated values only grow.
pub open spec fn digit_val(c: char) -> int {
    if is_digit(c) {
        c as u32 - 48
    } else {
        0
    }
}

/// The digit character for a value between 0 and 9.
pub open spec fn digit_char(d: int) -> char {
    if d == 0 {
        '0'
    } else if d == 1 {
        '1'
    } else if d == 2 {
        '2'
    } else if d == 3 {
        '3'
    } else if d == 4 {
        '4'
    } else if d == 5 {
        '5'
    } else if d == 6 {
        '6'
    } else if d == 7 {
        '7'
    } else if d == 8 {
        '8'
    } else {
        '9'
    }
}

/// Index of the first newline in `s`, or `s.len()` if there is none.
pub open spec fn first_nl(s: Seq<char>) -> int
    decreases s.len(),
{
    if s.len() == 0 {
        0
    } else if s[0] == '\n' {
        0
    } else {
        1 + first_nl(s.drop_first())
    }
}

/// Index of the first whitespace character in `s`, or `s.len()` if there is
/// none.
pub open spec fn first_sp(s: Seq<char>) -> int
    decreases s.len(),
{
    if s.len() == 0 {
        0
    } else if is_space(s[0]) {
        0
    } else {
        1 + first_sp(s.drop_first())
    }
}

/// `s` without its leading whitespace.
pub open spec fn trim_front(s: Seq<char>) -> Seq<char>
    decreases s.len(),
{
    if s.len() > 0 && is_space(s[0]) {
        trim_front(s.drop_first())
    } else {
        s
    }
}

/// `s` without its trailing whitespace.
pub open spec fn trim_back(s: Seq<char>) -> Seq<char>
    decreases s.len(),
{
    if s.len() > 0 && is_space(s.last()) {
        trim_back(s.drop_last())
    } else {
        s
    }
}

/// `s` without leading and trailing whitespace.
pub open spec fn trim(s: Seq<char>) -> Seq<char> {
    trim_back(trim_front(s))
}

/// The value of `s` read as a decimal numeral, most significant digit first.
pub open spec fn digits_value(s: Seq<char>) -> int
    decreases s.len(),
{
    if s.len() == 0 {
        0
    } else {
        digits_value(s.drop_last()) * 10 + digit_val(s.last())
    }
}

/// Every character of `s` is a decimal digit.
pub open spec fn is_digits(s: Seq<char>) -> bool {
    forall|i: int| 0 <= i < s.len() ==> is_digit(#[trigger] s[i])
}

/// `s` is a numeral that the parser accepts for a `u32` field: non-empty,
/// all digits, and within range.
pub open spec fn is_number(s: Seq<char>) -> bool {
    s.len() > 0 && is_digits(s) && digits_value(s) <= u32::MAX as int
}

/// The canonical decimal numeral of a non-negative value: no sign, no
/// leading zeros (a single `0` for zero).
pub open spec fn dec_str(n: int) -> Seq<char>
    recommends
        n >= 0,
    decreases n,
{
    if n < 10 {
        seq![digit_char(n)]
    } else {
        dec_str(n / 10).push(digit_char(n % 10))
    }
}

/// Text that survives a round trip through one key-value line: non-empty,
/// no whitespace at either end, no newline anywhere.
pub open spec fn clean_text(s: Seq<char>) -> bool {
    &&& s.len() > 0
    &&& !is_space(s[0])
    &&& !is_space(s.last())
    &&& forall|i: int| 0 <= i < s.len() ==> #[trigger] s[i] != '\n'
}

/// The first newline lies within the text, nothing before it is a
/// newline, and it is one itself unless the text has none.
pub proof fn lemma_first_nl_bounds(s: Seq<char>)
    ensures
        0 <= first_nl(s) <= s.len(),
        forall|k: int| 0 <= k < first_nl(s) ==> #[trigger] s[k] != '\n',
        first_nl(s) < s.len() ==> s[first_nl(s)] == '\n',
    decreases s.len(),
{
    if s.len() > 0 && s[0] != '\n' {
        lemma_first_nl_bounds(s.drop_first());
        assert forall|k: int| 0 <= k < first_nl(s) implies #[trigger] s[k] != '\n' by {
            if k > 0 {
                assert(s.drop_first()[k - 1] != '\n');
            }
        }
    }
}

/// The first whitespace lies within the text, nothing before it is
/// whitespace, and it is whitespace itself unless the text has none.
pub proof fn lemma_first_sp_bounds(s: Seq<char>)
    ensures
        0 <= first_sp(s) <= s.len(),
        forall|k: int| 0 <= k < first_sp(s) ==> !is_space(#[trigger] s[k]),
        first_sp(s) < s.len() ==> is_space(s[first_sp(s)]),
    decreases s.len(),
{
    if s.len() > 0 && !is_space(s[0]) {
        lemma_first_sp_bounds(s.drop_first());
        assert forall|k: int| 0 <= k < first_sp(s) implies !is_space(#[trigger] s[k]) by {
            if k > 0 {
                assert(!is_space(s.drop_first()[k - 1]));
            }
        }
    }
}

/// A scan that saw no newline before `j`, and one (or the end) at `j`,
/// found the first newline.
pub proof fn lemma_first_nl_at(s: Seq<char>, j: int)
    requires
        0 <= j <= s.len(),
        forall|k: int| 0 <= k < j ==> #[trigger] s[k] != '\n',
        j == s.len() || s[j] == '\n',
    ensures
        first_nl(s) == j,
    decreases j,
{
    if j == 0 {
    } else {
        lemma_first_nl_at(s.drop_first(), j - 1);
    }
}

/// A scan that saw no whitespace before `j`, and whitespace (or the end) at
/// `j`, found the first whitespace.
pub proof fn lemma_first_sp_at(s: Seq<char>, j: int)
    requires
        0 <= j <= s.len(),
        forall|k: int| 0 <= k < j ==> !is_space(#[trigger] s[k]),
        j == s.len() || is_space(s[j]),
    ensures
        first_sp(s) == j,
    decreases j,
{
    if j == 0 {
    } else {
        lemma_first_sp_at(s.drop_first(), j - 1);
    }
}

/// A scan that saw only whitespace before `a`, and a non-space (or the end)
/// at `a`, found where the leading whitespace stops.
pub proof fn lemma_trim_front_at(s: Seq<char>, a: int)
    requires
        0 <= a <= s.len(),
        forall|k: int| 0 <= k < a ==> is_space(#[trigger] s[k]),
        a == s.len() || !is_space(s[a]),
    ensures
        trim_front(s) =~= s.skip(a),
    decreases a,
{
    if a == 0 {
    } else {
        lemma_trim_front_at(s.drop_first(), a - 1);
        assert(s.drop_first().skip(a - 1) =~= s.skip(a));
    }
}

/// A scan that saw only whitespace from `b` on, and a non-space (or the
/// start) just before `b`, found where the trailing whitespace begins.
pub proof fn lemma_trim_back_at(s: Seq<char>, b: int)
    requires
        0 <= b <= s.len(),
        forall|k: int| b <= k < s.len() ==> is_space(#[trigger] s[k]),
        b == 0 || !is_space(s[b - 1]),
    ensures
        trim_back(s) =~= s.take(b),
    decreases s.len(),
{
    if s.len() > b {
        lemma_trim_back_at(s.drop_last(), b);
        assert(s.drop_last().take(b) =~= s.take(b));
    } else {
        assert(s.take(b) =~= s);
    }
}

/// Trimming the front keeps a suffix: the result is the tail of `s` of its
/// own length, and starts with a non-space when non-empty.
pub proof fn lemma_trim_front_suffix(s: Seq<char>)
    ensures
        trim_front(s).len() <= s.len(),
        trim_front(s) =~= s.skip(s.len() - trim_front(s).len()),
        trim_front(s).len() > 0 ==> !is_space(trim_front(s)[0]),
    decreases s.len(),
{
    if s.len() > 0 && is_space(s[0]) {
        lemma_trim_front_suffix(s.drop_first());
        assert(s.drop_first().skip(s.len() - 1 - trim_front(s).len()) =~= s.skip(
            s.len() - trim_front(s).len(),
        ));
    }
}

/// Trimming the back keeps a prefix: the result is the head of `s` of its
/// own length, and ends with a non-space when non-empty.
pub proof fn lemma_trim_back_prefix(s: Seq<char>)
    ensures
        trim_back(s).len() <= s.len(),
        trim_back(s) =~= s.take(trim_back(s).len() as int),
        trim_back(s).len() > 0 ==> !is_space(trim_back(s).last()),
    decreases s.len(),
{
    if s.len() > 0 && is_space(s.last()) {
        lemma_trim_back_prefix(s.drop_last());
        assert(s.drop_last().take(trim_back(s).len() as int) =~= s.take(
            trim_back(s).len() as int,
        ));
    }
}

/// The trim of newline-free text is empty or clean.
pub proof fn lemma_trim_clean(s: Seq<char>)
    requires
        forall|i: int| 0 <= i < s.len() ==> #[trigger] s[i] != '\n',
    ensures
        trim(s).len() == 0 || clean_text(trim(s)),
{
    lemma_trim_front_suffix(s);
    lemma_trim_back_prefix(trim_front(s));
}

/// Clean text is its own trim.
pub proof fn lemma_trim_of_clean(s: Seq<char>)
    requires
        clean_text(s),
    ensures
        trim(s) == s,
{
    assert(trim_front(s) == s);
    assert(trim_back(s) == s);
}

/// A numeral's value is non-negative.
pub proof fn lemma_digits_value_nonneg(s: Seq<char>)
    ensures
        digits_value(s) >= 0,
    decreases s.len(),
{
    if s.len() > 0 {
        lemma_digits_value_nonneg(s.drop_last());
    }
}

/// Extending a numeral to the right never shrinks its value.
pub proof fn lemma_digits_value_prefix(s: Seq<char>, i: int)
    requires
        0 <= i <= s.len(),
    ensures
        digits_value(s.take(i)) <= digits_value(s),
    decreases s.len(),
{
    if i == s.len() {
        assert(s.take(i) =~= s);
    } else {
        lemma_digits_value_prefix(s.drop_last(), i);
        assert(s.drop_last().take(i) =~= s.take(i));
        lemma_digits_value_nonneg(s.drop_last());
    }
}

/// The canonical numeral of `n` is a non-empty digit string whose value is
/// `n` again.
pub proof fn lemma_dec_str(n: int)
    requires
        n >= 0,
    ensures
        dec_str(n).len() > 0,
        is_digits(dec_str(n)),
        digits_value(dec_str(n)) == n,
    decreases n,
{
    if n < 10 {
        let s = dec_str(n);
        assert(s =~= seq![digit_char(n)]);
        assert(s.drop_last() =~= Seq::<char>::empty());
        reveal_with_fuel(digits_value, 2);
    } else {
        lemma_dec_str(n / 10);
        let s = dec_str(n);
        assert(s.drop_last() =~= dec_str(n / 10));
        assert(s.last() == digit_char(n % 10));
    }
}

/// A digit is neither whitespace nor a newline.
pub proof fn lemma_digit_not_space(c: char)
    requires
        is_digit(c),
    ensures
        !is_space(c),
        c != '\n',
{
    assert('\n' as u32 == 10);
}

/// Relies on `String::push`: appends exactly the given character at the end
/// of the string.
#[verifier::external_body]
pub(crate) fn push_char(s: &mut String, c: char)
    ensures
        final(s)@ == old(s)@.push(c),
{
    s.push(c);
}

/// The characters of `s`, in order, as a vector.
pub(crate) fn str_to_chars(s: &str) -> (r: Vec<char>)
    ensures
        r@ == s@,
{
    let n: usize = s.unicode_len();
    let mut r: Vec<char> = Vec::new();
    let mut i: usize = 0;
    while i < n
        invariant
            n == s@.len(),
            0 <= i <= n,
            r@ =~= s@.take(i as int),
        decreases n - i,
    {
        let c = s.get_char(i);
        r.push(c);
        i = i + 1;
        assert(r@ =~= s@.take(i as int));
    }
    assert(r@ =~= s@);
    r
}

/// The characters `v[a..b]` gathered into a fresh string.
pub(crate) fn range_to_string(v: &Vec<char>, a: usize, b: usize) -> (r: String)
    requires
        a <= b <= v@.len(),
    ensures
        r@ == v@.subrange(a as int, b as int),
{
    let mut r = String::new();
    let mut i: usize = a;
    while i < b
        invariant
            a <= i <= b <= v@.len(),
            r@ =~= v@.subrange(a as int, i as int),
        decreases b - i,
    {
        push_char(&mut r, v[i]);
        i = i + 1;
        assert(r@ =~= v@.subrange(a as int, i as int));
    }
    assert(r@ =~= v@.subrange(a as int, b as int));
    r
}

/// Whether the characters `v[a..b]` spell exactly the text `lit`.
pub(crate) fn seg_eq(v: &Vec<char>, a: usize, b: usize, lit: &str) -> (r: bool)
    requires
        a <= b <= v@.len(),
    ensures
        r == (v@.subrange(a as int, b as int) == lit@),
{
    let n: usize = lit.unicode_len();
    if n != b - a {
        assert(v@.subrange(a as int, b as int).len() != lit@.len());
        return false;
    }
    let mut i: usize = 0;
    while i < n
        invariant
            0 <= i <= n,
            n == b - a,
            a <= b <= v@.len(),
            n == lit@.len(),
            forall|k: int| 0 <= k < i ==> #[trigger] lit@[k] == v@[a + k],
        decreases n - i,
    {
        if v[a + i] != lit.get_char(i) {
            assert(v@.subrange(a as int, b as int)[i as int] != lit@[i as int]);
            return false;
        }
        i = i + 1;
    }
    assert(v@.subrange(a as int, b as int) =~= lit@);
    true
}

/// The canonical decimal rendering of `n`.
pub(crate) fn u32_to_string(n: u32) -> (r: String)
    ensures
        r@ == dec_str(n as int),
{
    let mut digits: Vec<char> = Vec::new();
    let mut m: u32 = n;
    if m == 0 {
        let mut r = String::new();
        push_char(&mut r, '0');
        assert(r@ =~= dec_str(0));
        return r;
    }
    while m > 0
        invariant
            m >= 0,
            m > 0 ==> dec_str(n as int) =~= dec_str(m as int) + digits@.reverse(),
            m == 0 ==> dec_str(n as int) =~= digits@.reverse(),
        decreases m,
    {
        let d: u32 = m % 10;
        let c = digit_char_exec(d);
        digits.push(c);
        proof {
            assert(digits@.reverse() =~= seq![c] + digits@.drop_last().reverse());
            if m >= 10 {
                assert(dec_str(m as int) == dec_str(m as int / 10).push(
                    digit_char(m as int % 10),
                ));
                assert(dec_str(m as int / 10).push(c) =~= dec_str(m as int / 10) + seq![c]);
                assert(dec_str(m as int) + digits@.drop_last().reverse() =~= dec_str(
                    m as int / 10,
                ) + digits@.reverse());
            } else {
                assert(dec_str(m as int) =~= seq![c]);
                assert(dec_str(m as int) + digits@.drop_last().reverse() =~= digits@.reverse());
            }
        }
        m = m / 10;
    }
    let mut r = String::new();
    let mut i: usize = 0;
    let len = digits.len();
    while i < len
        invariant
            0 <= i <= len,
            len == digits@.len(),
            r@ =~= digits@.reverse().take(i as int),
        decreases len - i,
    {
        push_char(&mut r, digits[len - 1 - i]);
        i = i + 1;
        assert(r@ =~= digits@.reverse().take(i as int));
    }
    assert(r@ =~= digits@.reverse());
    r
}

/// The digit character for a value below ten.
pub(crate) fn digit_char_exec(d: u32) -> (c: char)
    requires
        d < 10,
    ensures
        c == digit_char(d as int),
{
    if d == 0 {
        '0'
    } else if d == 1 {
        '1'
    } else if d == 2 {
        '2'
    } else if d == 3 {
        '3'
    } else if d == 4 {
        '4'
    } else if d == 5 {
        '5'
    } else if d == 6 {
        '6'
    } else if d == 7 {
        '7'
    } else if d == 8 {
        '8'
    } else {
        '9'
    }
}

/// Reads `v[a..b]` as a `u32` numeral; `None` exactly when the range is not
/// an in-range, non-empty digit string.
pub(crate) fn parse_u32(v: &Vec<char>, a: usize, b: usize) -> (r: Option<u32>)
    requires
        a <= b <= v@.len(),
    ensures
        match r {
            Some(n) => is_number(v@.subrange(a as int, b as int)) && n == digits_value(
                v@.subrange(a as int, b as int),
            ),
            None => !is_number(v@.subrange(a as int, b as int)),
        },
{
    let ghost s = v@.subrange(a as int, b as int);
    if a == b {
        return None;
    }
    let mut val: u64 = 0;
    let mut i: usize = a;
    while i < b
        invariant
            a <= i <= b <= v@.len(),
            s == v@.subrange(a as int, b as int),
            val <= u32::MAX as u64,
            is_digits(s.take(i - a)),
            val == digits_value(s.take(i - a)),
        decreases b - i,
    {
        let c = v[i];
        let u: u32 = c as u32;
        if u < 48 || u > 57 {
            assert(!is_digit(s[i - a]));
            return None;
        }
        let d: u64 = (u - 48) as u64;
        let next: u64 = val * 10 + d;
        proof {
            assert(s.take(i + 1 - a).drop_last() =~= s.take(i - a));
            assert(s.take(i + 1 - a).last() == s[i - a]);
        }
        if next > u32::MAX as u64 {
            proof {
                lemma_digits_value_prefix(s, i + 1 - a);
            }
            return None;
        }
        val = next;
        i = i + 1;
    }
    proof {
        assert(s.take(b - a) =~= s);
    }
    Some(val as u32)
}

} // verus!
