//! Text helpers: Unicode whitespace trimming, decimal `i32` parsing and
//! decimal rendering of integers, each proved against a short specification.

use vstd::prelude::*;
use vstd::string::*;

verus! {

/// The Unicode `White_Space` property, which `char::is_whitespace` tests.
pub open spec fn is_white_space(c: char) -> bool {
    let u = c as u32;
    ||| 0x09 <= u <= 0x0d
    ||| u == 0x20
    ||| u == 0x85
    ||| u == 0xa0
    ||| u == 0x1680
    ||| 0x2000 <= u <= 0x200a
    ||| u == 0x2028
    ||| u == 0x2029
    ||| u == 0x202f
    ||| u == 0x205f
    ||| u == 0x3000
}

/// `s` without its leading whitespace.
pub open spec fn trim_start_spec(s: Seq<char>) -> Seq<char>
    decreases s.len(),
{
    if s.len() > 0 && is_white_space(s[0]) {
        trim_start_spec(s.drop_first())
    } else {
        s
    }
}

/// `s` without its trailing whitespace.
pub open spec fn trim_end_spec(s: Seq<char>) -> Seq<char>
    decreases s.len(),
{
    if s.len() > 0 && is_white_space(s.last()) {
        trim_end_spec(s.drop_last())
    } else {
        s
    }
}

/// `s` without leading and trailing whitespace, as `str::trim` returns it.
pub open spec fn trim_spec(s: Seq<char>) -> Seq<char> {
    trim_end_spec(trim_start_spec(s))
}

/// Whether `c` is an ASCII decimal digit.
pub open spec fn is_digit(c: char) -> bool {
    '0' <= c <= '9'
}

/// Whether every character of `s` is an ASCII decimal digit.
pub open spec fn all_digits(s: Seq<char>) -> bool {
    forall|i: int| 0 <= i < s.len() ==> is_digit(#[trigger] s[i])
}

/// The number that the decimal digits `s` denote.
pub open spec fn digits_value(s: Seq<char>) -> int
    decreases s.len(),
{
    if s.len() == 0 {
        0
    } else {
        digits_value(s.drop_last()) * 10 + (s.last() as int - '0' as int)
    }
}

/// What `str::parse::<i32>` gives for `s`: an optional `+` or `-`, then at
/// least one decimal digit, denoting a value within the range of `i32`.
pub open spec fn parse_i32_spec(s: Seq<char>) -> Option<i32> {
    if s.len() == 0 {
        None
    } else {
        let signed = s[0] == '-' || s[0] == '+';
        let body = if signed { s.drop_first() } else { s };
        if body.len() == 0 || !all_digits(body) {
            None
        } else {
            let v = if s[0] == '-' { -digits_value(body) } else { digits_value(body) };
            if i32::MIN <= v <= i32::MAX {
                Some(v as i32)
            } else {
                None
            }
        }
    }
}

/// The character of the decimal digit `d`.
pub open spec fn digit_char(d: nat) -> char {
    ((d + '0' as nat) as u32) as char
}

/// The decimal digits of `n`, without leading zeros.
pub open spec fn nat_text(n: nat) -> Seq<char>
    decreases n,
{
    if n < 10 {
        seq![digit_char(n)]
    } else {
        nat_text(n / 10).push(digit_char(n % 10))
    }
}

/// The decimal text of `i`, with a leading `-` when it is negative, as
/// `Display` writes an integer.
pub open spec fn int_text(i: int) -> Seq<char> {
    if i < 0 {
        seq!['-'] + nat_text((-i) as nat)
    } else {
        nat_text(i as nat)
    }
}

/// The `Debug` text of a list of `i32`: `[a, b, c]`.
pub open spec fn list_text(v: Seq<i32>) -> Seq<char>
    decreases v.len(),
{
    seq!['['] + list_items_text(v) + seq![']']
}

/// The items of a list, each in decimal, separated by `", "`.
pub open spec fn list_items_text(v: Seq<i32>) -> Seq<char>
    decreases v.len(),
{
    if v.len() == 0 {
        Seq::empty()
    } else if v.len() == 1 {
        int_text(v[0] as int)
    } else {
        list_items_text(v.drop_last()) + seq![',', ' '] + int_text(v.last() as int)
    }
}

proof fn lemma_trim_start_head(s: Seq<char>)
    ensures
        trim_start_spec(s).len() == 0 || !is_white_space(trim_start_spec(s)[0]),
    decreases s.len(),
{
    if s.len() > 0 && is_white_space(s[0]) {
        lemma_trim_start_head(s.drop_first());
    }
}

proof fn lemma_trim_end_prefix(s: Seq<char>)
    ensures
        trim_end_spec(s).len() <= s.len(),
        trim_end_spec(s) == s.take(trim_end_spec(s).len() as int),
        trim_end_spec(s).len() == 0 || !is_white_space(trim_end_spec(s).last()),
    decreases s.len(),
{
    if s.len() > 0 && is_white_space(s.last()) {
        let t = s.drop_last();
        lemma_trim_end_prefix(t);
        assert(t.take(trim_end_spec(t).len() as int) =~= s.take(trim_end_spec(t).len() as int));
    } else {
        assert(s.take(s.len() as int) =~= s);
    }
}

/// Trimming is idempotent: a trimmed text has nothing left to trim.
pub proof fn lemma_trim_idempotent(s: Seq<char>)
    ensures
        trim_spec(trim_spec(s)) == trim_spec(s),
{
    let x = trim_start_spec(s);
    let y = trim_end_spec(x);
    lemma_trim_start_head(s);
    lemma_trim_end_prefix(x);
    if y.len() > 0 {
        assert(y[0] == x[0]);
    }
    assert(trim_start_spec(y) == y);
    lemma_trim_end_prefix(y);
    if y.len() > 0 {
        assert(trim_end_spec(y) == y);
    }
}

/// Text that starts and ends with something other than whitespace is its
/// own trim.
pub proof fn lemma_trim_of_untrimmed(s: Seq<char>)
    requires
        s.len() > 0,
        !is_white_space(s[0]),
        !is_white_space(s.last()),
    ensures
        trim_spec(s) == s,
{
}

/// Appends one character to a `String` (`String::push`).
#[verifier::external_body]
pub(crate) fn push_char(s: &mut String, c: char)
    ensures
        final(s)@ == old(s)@.push(c),
{
    s.push(c);
}

/// Whether `c` has the Unicode `White_Space` property.
pub fn is_white_space_char(c: char) -> (b: bool)
    ensures
        b == is_white_space(c),
{
    let u = c as u32;
    (0x09 <= u && u <= 0x0d) || u == 0x20 || u == 0x85 || u == 0xa0 || u == 0x1680 || (0x2000
        <= u && u <= 0x200a) || u == 0x2028 || u == 0x2029 || u == 0x202f || u == 0x205f || u
        == 0x3000
}

proof fn lemma_trim_start_at(s: Seq<char>, i: int)
    requires
        0 <= i <= s.len(),
        forall|k: int| 0 <= k < i ==> is_white_space(#[trigger] s[k]),
        i == s.len() || !is_white_space(s[i]),
    ensures
        trim_start_spec(s) == s.subrange(i, s.len() as int),
    decreases i,
{
    if i == 0 {
        assert(s.subrange(0, s.len() as int) =~= s);
    } else {
        let t = s.drop_first();
        assert forall|k: int| 0 <= k < i - 1 implies is_white_space(#[trigger] t[k]) by {
            assert(t[k] == s[k + 1]);
        }
        if i - 1 < t.len() {
            assert(t[i - 1] == s[i]);
        }
        lemma_trim_start_at(t, i - 1);
        assert(t.subrange(i - 1, t.len() as int) =~= s.subrange(i, s.len() as int));
    }
}

proof fn lemma_trim_end_at(s: Seq<char>, j: int)
    requires
        0 <= j <= s.len(),
        forall|k: int| j <= k < s.len() ==> is_white_space(#[trigger] s[k]),
        j == 0 || !is_white_space(s[j - 1]),
    ensures
        trim_end_spec(s) == s.subrange(0, j),
    decreases s.len() - j,
{
    if j == s.len() {
        assert(s.subrange(0, j) =~= s);
    } else {
        let t = s.drop_last();
        assert forall|k: int| j <= k < t.len() implies is_white_space(#[trigger] t[k]) by {
            assert(t[k] == s[k]);
        }
        if j > 0 {
            assert(t[j - 1] == s[j - 1]);
        }
        lemma_trim_end_at(t, j);
        assert(t.subrange(0, j) =~= s.subrange(0, j));
    }
}

/// `s` without leading and trailing whitespace (`str::trim`).
pub fn trim(s: &str) -> (t: &str)
    ensures
        t@ == trim_spec(s@),
{
    let n = s.unicode_len();
    let mut i: usize = 0;
    while i < n && is_white_space_char(s.get_char(i))
        invariant
            n == s@.len(),
            0 <= i <= n,
            forall|k: int| 0 <= k < i ==> is_white_space(#[trigger] s@[k]),
        decreases n - i,
    {
        i = i + 1;
    }
    proof {
        lemma_trim_start_at(s@, i as int);
    }
    let ghost rest = s@.subrange(i as int, n as int);
    let mut j: usize = n;
    while j > i && is_white_space_char(s.get_char(j - 1))
        invariant
            n == s@.len(),
            i <= j <= n,
            forall|k: int| j <= k < n ==> is_white_space(#[trigger] s@[k]),
        decreases j,
    {
        j = j - 1;
    }
    proof {
        assert forall|k: int| j - i <= k < rest.len() implies is_white_space(#[trigger] rest[k]) by {
            assert(rest[k] == s@[k + i]);
        }
        if j > i {
            assert(rest[j - i - 1] == s@[j - 1]);
        }
        lemma_trim_end_at(rest, j - i);
        assert(rest.subrange(0, j - i) =~= s@.subrange(i as int, j as int));
    }
    s.substring_char(i, j)
}

pub proof fn lemma_digits_value_nonneg(s: Seq<char>)
    requires
        all_digits(s),
    ensures
        digits_value(s) >= 0,
    decreases s.len(),
{
    if s.len() > 0 {
        let t = s.drop_last();
        assert forall|i: int| 0 <= i < t.len() implies is_digit(#[trigger] t[i]) by {
            assert(t[i] == s[i]);
        }
        lemma_digits_value_nonneg(t);
        assert(is_digit(s[s.len() - 1]));
    }
}

/// The decimal text of a natural number is a nonempty run of digits that
/// denotes it.
pub proof fn lemma_nat_text_digits(n: nat)
    ensures
        nat_text(n).len() > 0,
        all_digits(nat_text(n)),
        digits_value(nat_text(n)) == n,
    decreases n,
{
    let t = nat_text(n);
    if n < 10 {
        assert(digit_char(n) as int == n + '0' as int);
        assert(t.drop_last() =~= Seq::<char>::empty());
        assert(digits_value(t.drop_last()) == 0);
        assert(t.last() == digit_char(n));
        assert(digits_value(t) == digits_value(t.drop_last()) * 10 + (t.last() as int - '0' as int));
    } else {
        let q = n / 10;
        let d = n % 10;
        lemma_nat_text_digits(q);
        assert(digit_char(d) as int == d + '0' as int);
        assert(t.drop_last() =~= nat_text(q));
        assert(t.last() == digit_char(d));
        assert(n == q * 10 + d);
        assert(digits_value(t) == digits_value(nat_text(q)) * 10 + (t.last() as int - '0' as int));
        assert forall|i: int| 0 <= i < t.len() implies is_digit(#[trigger] t[i]) by {
            if i < t.len() - 1 {
                assert(t[i] == nat_text(q)[i]);
            }
        }
    }
}

/// Reading back the decimal text of an `i32` gives the same `i32`, and the
/// text has no whitespace to trim.
pub proof fn lemma_parse_int_text(v: i32)
    ensures
        trim_spec(int_text(v as int)) == int_text(v as int),
        parse_i32_spec(int_text(v as int)) == Some(v),
{
    let t = int_text(v as int);
    if v < 0 {
        let d = nat_text((-v) as nat);
        lemma_nat_text_digits((-v) as nat);
        assert(is_digit(d[0]) && is_digit(d.last()));
        assert(t[0] == '-' && t.last() == d.last());
        lemma_trim_of_untrimmed(t);
        assert(t.drop_first() =~= d);
    } else {
        lemma_nat_text_digits(v as nat);
        assert(is_digit(t[0]) && is_digit(t.last()));
        lemma_trim_of_untrimmed(t);
    }
}

/// A longer run of digits denotes at least the value of its prefix.
proof fn lemma_digits_value_grows(s: Seq<char>, i: int)
    requires
        all_digits(s),
        0 <= i <= s.len(),
    ensures
        digits_value(s.take(i)) <= digits_value(s),
    decreases s.len() - i,
{
    if i < s.len() {
        let t = s.drop_last();
        assert forall|k: int| 0 <= k < t.len() implies is_digit(#[trigger] t[k]) by {
            assert(t[k] == s[k]);
        }
        lemma_digits_value_grows(t, i);
        assert(t.take(i) =~= s.take(i));
        lemma_digits_value_nonneg(t);
        assert(is_digit(s[s.len() - 1]));
    } else {
        assert(s.take(i) =~= s);
    }
}

/// Parses a decimal `i32` as `str::parse::<i32>` does: `None` where that
/// returns an error.
pub fn parse_i32(s: &str) -> (r: Option<i32>)
    ensures
        r == parse_i32_spec(s@),
{
    let n = s.unicode_len();
    if n == 0 {
        return None;
    }
    let first = s.get_char(0);
    let negative = first == '-';
    let start: usize = if first == '-' || first == '+' {
        1
    } else {
        0
    };
    let ghost body = if start == 1 {
        s@.drop_first()
    } else {
        s@
    };
    assert(body =~= s@.subrange(start as int, n as int));
    if start == n {
        return None;
    }
    let mut acc: i64 = 0;
    let mut i: usize = start;
    while i < n
        invariant
            n == s@.len(),
            n > 0,
            start <= 1,
            start < n,
            (start == 1) == (s@[0] == '-' || s@[0] == '+'),
            body == (if start == 1 {
                s@.drop_first()
            } else {
                s@
            }),
            start <= i <= n,
            body =~= s@.subrange(start as int, n as int),
            all_digits(body.take(i - start)),
            acc == digits_value(body.take(i - start)),
            0 <= acc <= 2147483648,
        decreases n - i,
    {
        let c = s.get_char(i);
        let ghost pre = body.take(i - start);
        let ghost next = body.take(i - start + 1);
        assert(next.drop_last() =~= pre);
        assert(next.last() == c);
        if !('0' <= c && c <= '9') {
            assert(!all_digits(body)) by {
                assert(body[i - start] == c);
            }
            return None;
        }
        let d = (c as u32 - '0' as u32) as i64;
        acc = acc * 10 + d;
        assert(all_digits(next)) by {
            assert forall|k: int| 0 <= k < next.len() implies is_digit(#[trigger] next[k]) by {
                if k < pre.len() {
                    assert(next[k] == pre[k]);
                }
            }
        }
        i = i + 1;
        if acc > 2147483648 {
            proof {
                if all_digits(body) {
                    lemma_digits_value_grows(body, i - start);
                }
            }
            return None;
        }
    }
    assert(body.take(n - start) =~= body);
    if negative {
        Some((0 - acc) as i32)
    } else if acc <= 2147483647 {
        Some(acc as i32)
    } else {
        None
    }
}

/// The character of the decimal digit `d`.
fn digit_to_char(d: u64) -> (c: char)
    requires
        d < 10,
    ensures
        c == digit_char(d as nat),
{
    let u: u8 = (d as u8) + 48;
    u as char
}

/// Appends the decimal digits of `n` to `s`.
pub fn push_u64(s: &mut String, n: u64)
    ensures
        final(s)@ == old(s)@ + nat_text(n as nat),
    decreases n,
{
    if n >= 10 {
        push_u64(s, n / 10);
    }
    push_char(s, digit_to_char(n % 10));
    proof {
        if n >= 10 {
            assert(old(s)@ + nat_text(n as nat) =~= old(s)@ + nat_text((n / 10) as nat) + seq![
                digit_char((n % 10) as nat),
            ]);
        } else {
            assert(old(s)@ + nat_text(n as nat) =~= old(s)@.push(digit_char(n as nat)));
        }
    }
}

/// Appends the decimal text of `i` to `s`, with a `-` when it is negative.
pub fn push_i64(s: &mut String, i: i64)
    ensures
        final(s)@ == old(s)@ + int_text(i as int),
{
    if i < 0 {
        push_char(s, '-');
        let m: u64 = if i == i64::MIN {
            9223372036854775808u64
        } else {
            (0 - i) as u64
        };
        push_u64(s, m);
        assert(old(s)@ + int_text(i as int) =~= old(s)@.push('-') + nat_text(m as nat));
    } else {
        push_u64(s, i as u64);
    }
}

/// The `Debug` text of a list of `i32`, such as `[16, 25]`.
pub fn list_to_text(v: &Vec<i32>) -> (t: String)
    ensures
        t@ == list_text(v@),
{
    let mut t = String::new();
    push_char(&mut t, '[');
    let mut i: usize = 0;
    while i < v.len()
        invariant
            0 <= i <= v.len(),
            t@ == seq!['['] + list_items_text(v@.take(i as int)),
        decreases v.len() - i,
    {
        let ghost before = t@;
        if i > 0 {
            push_char(&mut t, ',');
            push_char(&mut t, ' ');
        }
        push_i64(&mut t, v[i] as i64);
        proof {
            let p = v@.take(i as int);
            let q = v@.take(i + 1);
            assert(q.drop_last() =~= p);
            assert(q.last() == v@[i as int]);
            if i == 0 {
                assert(list_items_text(q) == int_text(v@[0] as int));
                assert(t@ =~= seq!['['] + list_items_text(q));
            } else {
                assert(t@ =~= seq!['['] + list_items_text(q));
            }
        }
        i = i + 1;
    }
    push_char(&mut t, ']');
    assert(v@.take(v.len() as int) =~= v@);
    t
}

} // verus!
