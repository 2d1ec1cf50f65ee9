use vstd::prelude::*;

verus! {

/// Character-wise equality of two string slices.
pub fn str_eq(a: &str, b: &str) -> (r: bool)
    ensures
        r == (a@ == b@),
{
    let a_len = a.unicode_len();
    let b_len = b.unicode_len();
    if a_len != b_len {
        return false;
    }
    let mut i: usize = 0;
    while i < a_len
        invariant
            i <= a_len,
            a_len == a@.len(),
            b_len == b@.len(),
            a_len == b_len,
            forall|j: int| 0 <= j < i ==> a@[j] == b@[j],
        decreases a_len - i,
    {
        if a.get_char(i) != b.get_char(i) {
            return false;
        }
        i = i + 1;
    }
    proof {
        assert(a@ =~= b@);
    }
    true
}

/// The character sequences behind a list of strings.
pub open spec fn string_views(v: Seq<String>) -> Seq<Seq<char>> {
    v.map_values(|s: String| s@)
}

/// `i` is the position of the one and only occurrence of `sep` in `s`.
pub open spec fn is_unique_sep(s: Seq<char>, sep: char, i: int) -> bool {
    &&& 0 <= i < s.len()
    &&& s[i] == sep
    &&& forall|j: int| 0 <= j < s.len() && j != i ==> s[j] != sep
}

/// The two tokens around a separator, defined exactly when the separator
/// occurs exactly once. Either token may be empty.
pub open spec fn spec_two_tokens(s: Seq<char>, sep: char) -> Option<(Seq<char>, Seq<char>)> {
    if exists|i: int| is_unique_sep(s, sep, i) {
        let i = choose|i: int| is_unique_sep(s, sep, i);
        Some((s.subrange(0, i), s.subrange(i + 1, s.len() as int)))
    } else {
        None
    }
}

/// Split `s` at `sep` into exactly two tokens; any other shape (no separator,
/// or more than one) is refused.
pub fn split_two<'a>(s: &'a str, sep: char) -> (r: Option<(&'a str, &'a str)>)
    ensures
        match r {
            Some(parts) => spec_two_tokens(s@, sep) == Some((parts.0@, parts.1@)),
            None => spec_two_tokens(s@, sep) is None,
        },
{
    let len = s.unicode_len();
    let mut i: usize = 0;
    let mut found: Option<usize> = None;
    while i < len
        invariant
            i <= len,
            len == s@.len(),
            match found {
                None => forall|j: int| 0 <= j < i ==> s@[j] != sep,
                Some(f) => f < i && s@[f as int] == sep && (forall|j: int|
                    0 <= j < i && j != f ==> s@[j] != sep),
            },
        decreases len - i,
    {
        if s.get_char(i) == sep {
            match found {
                None => {
                    found = Some(i);
                }
                Some(f) => {
                    proof {
                        assert forall|k: int| !is_unique_sep(s@, sep, k) by {
                            if is_unique_sep(s@, sep, k) {
                                if k != f {
                                    assert(s@[f as int] != sep);
                                } else {
                                    assert(s@[i as int] != sep);
                                }
                            }
                        }
                    }
                    return None;
                }
            }
        }
        i = i + 1;
    }
    match found {
        None => {
            proof {
                assert forall|k: int| !is_unique_sep(s@, sep, k) by {
                    if is_unique_sep(s@, sep, k) {
                        assert(s@[k] != sep);
                    }
                }
            }
            None
        }
        Some(f) => {
            let left = s.substring_char(0, f);
            let right = s.substring_char(f + 1, len);
            proof {
                assert(is_unique_sep(s@, sep, f as int));
                let w = choose|k: int| is_unique_sep(s@, sep, k);
                assert(w == f as int);
            }
            Some((left, right))
        }
    }
}

/// Whether a string slice contains the character `c`.
pub fn str_contains_char(s: &str, c: char) -> (r: bool)
    ensures
        r == s@.contains(c),
{
    let len = s.unicode_len();
    let mut i: usize = 0;
    while i < len
        invariant
            i <= len,
            len == s@.len(),
            forall|j: int| 0 <= j < i ==> s@[j] != c,
        decreases len - i,
    {
        if s.get_char(i) == c {
            return true;
        }
        i = i + 1;
    }
    false
}

/// Whether `prefix` starts `s`.
pub open spec fn spec_starts_with(s: Seq<char>, prefix: Seq<char>) -> bool {
    s.len() >= prefix.len() && s.take(prefix.len() as int) == prefix
}

/// Whether `s` starts with `prefix`.
pub fn str_starts_with(s: &str, prefix: &str) -> (r: bool)
    ensures
        r == spec_starts_with(s@, prefix@),
{
    let s_len = s.unicode_len();
    let p_len = prefix.unicode_len();
    if s_len < p_len {
        return false;
    }
    let mut i: usize = 0;
    while i < p_len
        invariant
            i <= p_len,
            p_len <= s_len,
            s_len == s@.len(),
            p_len == prefix@.len(),
            forall|j: int| 0 <= j < i ==> s@[j] == prefix@[j],
        decreases p_len - i,
    {
        if s.get_char(i) != prefix.get_char(i) {
            proof {
                assert(s@.take(prefix@.len() as int)[i as int] != prefix@[i as int]);
            }
            return false;
        }
        i = i + 1;
    }
    proof {
        assert(s@.take(prefix@.len() as int) =~= prefix@);
    }
    true
}

/// Position of the first occurrence of `c` in `s`.
pub fn find_char(s: &str, c: char) -> (r: Option<usize>)
    ensures
        match r {
            Some(i) => i < s@.len() && s@[i as int] == c && (forall|j: int|
                0 <= j < i ==> s@[j] != c),
            None => forall|j: int| 0 <= j < s@.len() ==> s@[j] != c,
        },
{
    let len = s.unicode_len();
    let mut i: usize = 0;
    while i < len
        invariant
            i <= len,
            len == s@.len(),
            forall|j: int| 0 <= j < i ==> s@[j] != c,
        decreases len - i,
    {
        if s.get_char(i) == c {
            return Some(i);
        }
        i = i + 1;
    }
    None
}

/// Relies on String::push (std): appends exactly the one character.
#[verifier::external_body]
pub(crate) fn string_push(s: &mut String, c: char)
    ensures
        final(s)@ == old(s)@.push(c),
{
    s.push(c);
}

/// The character for one decimal digit.
pub open spec fn spec_digit_char(d: int) -> char {
    if d == 0 {
        '0'
    } else if d == 1 {
        '1'
    } else if d == 2 {
        '2'
    } else if d == 3 {
        '3'
    } else if d == 4 {
        '4'
    } else if d == 5 {
        '5'
    } else if d == 6 {
        '6'
    } else if d == 7 {
        '7'
    } else if d == 8 {
        '8'
    } else {
        '9'
    }
}

/// Whether `c` is a decimal digit.
pub open spec fn spec_is_digit(c: char) -> bool {
    48 <= c as u32 <= 57
}

/// Numeric value of one decimal digit.
pub open spec fn spec_digit_val(c: char) -> int {
    c as u32 - 48
}

/// Numeric value of digit text, most significant digit first.
pub open spec fn spec_digits_val(s: Seq<char>) -> int
    decreases s.len(),
{
    if s.len() == 0 {
        0
    } else {
        spec_digits_val(s.drop_last()) * 10 + spec_digit_val(s.last())
    }
}

/// Whether every character of `s` is a decimal digit.
pub open spec fn spec_all_digits(s: Seq<char>) -> bool {
    forall|i: int| 0 <= i < s.len() ==> spec_is_digit(s[i])
}

/// The decimal text of `n`: no sign, no leading zeros.
pub open spec fn spec_u64_string(n: nat) -> Seq<char>
    decreases n,
{
    if n < 10 {
        seq![spec_digit_char(n as int)]
    } else {
        spec_u64_string(n / 10) + seq![spec_digit_char((n % 10) as int)]
    }
}

/// What `n`'s decimal text looks like: nonempty, digits only, value `n`,
/// and no leading zero unless `n` itself is zero.
pub proof fn lemma_u64_string_props(n: nat)
    ensures
        spec_u64_string(n).len() >= 1,
        spec_all_digits(spec_u64_string(n)),
        spec_digits_val(spec_u64_string(n)) == n,
        n > 0 ==> spec_u64_string(n)[0] != '0',
    decreases n,
{
    if n < 10 {
        assert(spec_is_digit(spec_digit_char(n as int)));
        assert(spec_u64_string(n) =~= seq![spec_digit_char(n as int)]);
        assert(spec_u64_string(n).drop_last() =~= Seq::<char>::empty());
        assert(spec_digits_val(Seq::<char>::empty()) == 0);
        assert(spec_digit_val(spec_digit_char(n as int)) == n);
        assert(spec_digits_val(spec_u64_string(n)) == spec_digit_val(spec_digit_char(n as int)));
    } else {
        lemma_u64_string_props(n / 10);
        let prefix = spec_u64_string(n / 10);
        let whole = spec_u64_string(n);
        assert(whole.drop_last() =~= prefix);
        assert(whole.last() == spec_digit_char((n % 10) as int));
        assert(spec_digit_val(spec_digit_char((n % 10) as int)) == n % 10);
        assert(spec_digits_val(whole) == (n / 10) * 10 + (n % 10));
        assert((n / 10) * 10 + (n % 10) == n) by (nonlinear_arith);
        assert(whole[0] == prefix[0]);
    }
}

/// The decimal texts of two numbers agree only when the numbers do.
pub proof fn lemma_u64_string_injective(a: nat, b: nat)
    requires
        spec_u64_string(a) == spec_u64_string(b),
    ensures
        a == b,
{
    lemma_u64_string_props(a);
    lemma_u64_string_props(b);
}

/// Digit text values only grow as more digits arrive.
proof fn lemma_digits_val_nonneg(s: Seq<char>)
    requires
        spec_all_digits(s),
    ensures
        spec_digits_val(s) >= 0,
    decreases s.len(),
{
    if s.len() > 0 {
        assert(spec_all_digits(s.drop_last()));
        lemma_digits_val_nonneg(s.drop_last());
        assert(spec_is_digit(s.last()));
    }
}

/// The value of a digit prefix never exceeds the value of the whole text.
proof fn lemma_digits_val_prefix(s: Seq<char>, k: int)
    requires
        spec_all_digits(s),
        0 <= k <= s.len(),
    ensures
        spec_digits_val(s) >= spec_digits_val(s.take(k)),
    decreases s.len() - k,
{
    if k < s.len() {
        assert(spec_all_digits(s.take(k)));
        lemma_digits_val_nonneg(s.take(k));
        assert(s.take(k + 1).drop_last() =~= s.take(k));
        assert(s.take(k + 1).last() == s[k]);
        assert(spec_is_digit(s[k]));
        assert(spec_digits_val(s.take(k + 1)) == spec_digits_val(s.take(k)) * 10 + spec_digit_val(
            s[k],
        ));
        assert(spec_digits_val(s.take(k)) * 10 >= spec_digits_val(s.take(k)));
        lemma_digits_val_prefix(s, k + 1);
    } else {
        assert(s.take(k) =~= s);
    }
}

/// One decimal digit as a character.
fn digit_char(d: u64) -> (c: char)
    requires
        d < 10,
    ensures
        c == spec_digit_char(d as int),
{
    if d == 0 {
        '0'
    } else if d == 1 {
        '1'
    } else if d == 2 {
        '2'
    } else if d == 3 {
        '3'
    } else if d == 4 {
        '4'
    } else if d == 5 {
        '5'
    } else if d == 6 {
        '6'
    } else if d == 7 {
        '7'
    } else if d == 8 {
        '8'
    } else {
        '9'
    }
}

/// The value of one character when it is a decimal digit.
fn digit_of(c: char) -> (r: Option<u64>)
    ensures
        match r {
            Some(v) => spec_is_digit(c) && v == spec_digit_val(c) && v < 10,
            None => !spec_is_digit(c),
        },
{
    let code = c as u32;
    if 48 <= code && code <= 57 {
        Some((code - 48) as u64)
    } else {
        None
    }
}

/// The decimal text of `n`.
pub fn u64_to_string(n: u64) -> (r: String)
    ensures
        r@ == spec_u64_string(n as nat),
    decreases n,
{
    if n < 10 {
        let mut s = String::new();
        string_push(&mut s, digit_char(n));
        proof {
            assert(s@ =~= seq![spec_digit_char(n as int)]);
        }
        s
    } else {
        let mut s = u64_to_string(n / 10);
        string_push(&mut s, digit_char(n % 10));
        proof {
            assert(s@ =~= spec_u64_string((n / 10) as nat) + seq![
                spec_digit_char((n % 10) as int),
            ]);
        }
        s
    }
}

/// What `u64` text parsing accepts: an optional leading plus sign, then one
/// or more decimal digits whose value fits.
pub open spec fn spec_parse_u64(s: Seq<char>) -> Option<u64> {
    let digits = if s.len() > 0 && s[0] == '+' {
        s.drop_first()
    } else {
        s
    };
    if digits.len() > 0 && spec_all_digits(digits) && spec_digits_val(digits) <= u64::MAX {
        Some(spec_digits_val(digits) as u64)
    } else {
        None
    }
}

/// Parse decimal text into a `u64`, exactly as `spec_parse_u64` says.
#[verifier::loop_isolation(false)]
pub fn parse_u64(s: &str) -> (r: Option<u64>)
    ensures
        r == spec_parse_u64(s@),
{
    let len = s.unicode_len();
    let start: usize = if len > 0 && s.get_char(0) == '+' {
        1
    } else {
        0
    };
    let ghost digits = if s@.len() > 0 && s@[0] == '+' {
        s@.drop_first()
    } else {
        s@
    };
    proof {
        assert(digits =~= s@.subrange(start as int, len as int));
    }
    if start == len {
        return None;
    }
    let limit_div: u64 = u64::MAX / 10;
    let limit_mod: u64 = u64::MAX % 10;
    let mut value: u64 = 0;
    let mut i: usize = start;
    while i < len
        invariant
            start <= i <= len,
            len == s@.len(),
            start <= 1,
            digits == s@.subrange(start as int, len as int),
            spec_all_digits(digits.take(i - start)),
            value == spec_digits_val(digits.take(i - start)),
            limit_div == u64::MAX / 10,
            limit_mod == u64::MAX % 10,
        decreases len - i,
    {
        proof {
            assert(digits[i - start] == s@[i as int]);
        }
        let d = match digit_of(s.get_char(i)) {
            Some(d) => d,
            None => {
                proof {
                    assert(!spec_all_digits(digits)) by {
                        assert(!spec_is_digit(digits[i - start]));
                    }
                }
                return None;
            }
        };
        proof {
            assert(digits.take(i - start + 1).drop_last() =~= digits.take(i - start));
            assert(digits.take(i - start + 1).last() == digits[i - start]);
        }
        if value > limit_div || (value == limit_div && d > limit_mod) {
            proof {
                assert(spec_digits_val(digits.take(i - start + 1)) == value * 10 + d);
                assert(10 * (u64::MAX / 10) + u64::MAX % 10 == u64::MAX);
                assert(value * 10 + d > u64::MAX);
                if spec_all_digits(digits) {
                    lemma_digits_val_prefix(digits, i - start + 1);
                    assert(spec_digits_val(digits) > u64::MAX);
                }
            }
            return None;
        }
        value = value * 10 + d;
        i = i + 1;
    }
    proof {
        assert(digits.take(len - start) =~= digits);
    }
    Some(value)
}

} // verus!
