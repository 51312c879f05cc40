//! Character-level helpers shared by the parsers.

use vstd::prelude::*;
use vstd::std_specs::iter::IteratorSpec;

verus! {

broadcast use vstd::string::group_string_axioms;

/// `String::push` appends one character.
pub assume_specification[ std::string::String::push ](s: &mut std::string::String, c: char)
    ensures
        final(s)@ == old(s)@.push(c),
;

/// The characters of `s`, in order.
pub fn chars_of(s: &str) -> (v: Vec<char>)
    ensures
        v@ == s@,
{
    let mut it = s.chars();
    let mut v: Vec<char> = Vec::new();
    loop
        invariant
            it.obeys_prophetic_iter_laws(),
            v@ + it.remaining() == s@,
            it.decrease() is Some,
        decreases it.decrease()->0,
    {
        let ghost before = it;
        let next = it.next();
        proof {
            vstd::string::next_postcondition(&before, &it, next);
        }
        match next {
            Some(c) => {
                v.push(c);
                assert(before.remaining() =~= seq![c] + it.remaining());
                assert(v@ + it.remaining() =~= s@);
            },
            None => {
                assert(v@ =~= s@);
                return v;
            },
        }
    }
}

/// The string made of the characters of `v`, in order.
pub fn string_of(v: &Vec<char>) -> (s: String)
    ensures
        s@ == v@,
{
    let mut s = String::new();
    let mut i: usize = 0;
    while i < v.len()
        invariant
            i <= v.len(),
            s@ == v@.subrange(0, i as int),
        decreases v.len() - i,
    {
        s.push(v[i]);
        i += 1;
        assert(s@ =~= v@.subrange(0, i as int));
    }
    assert(v@.subrange(0, i as int) =~= v@);
    s
}


pub open spec fn is_digit(c: char) -> bool {
    '0' <= c <= '9'
}

pub fn digit(c: char) -> (b: bool)
    ensures
        b == is_digit(c),
{
    '0' <= c && c <= '9'
}

/// The decimal digit that stands for `d`.
pub open spec fn digit_of(d: int) -> char {
    if d == 0 {
        '0'
    } else if d == 1 {
        '1'
    } else if d == 2 {
        '2'
    } else if d == 3 {
        '3'
    } else if d == 4 {
        '4'
    } else if d == 5 {
        '5'
    } else if d == 6 {
        '6'
    } else if d == 7 {
        '7'
    } else if d == 8 {
        '8'
    } else {
        '9'
    }
}

/// The number a decimal digit stands for.
pub open spec fn digit_val(c: char) -> int {
    c as int - '0' as int
}

/// The decimal notation of `n`, without leading zeros.
pub open spec fn nat_digits(n: nat) -> Seq<char>
    decreases n,
{
    if n < 10 {
        seq![digit_of(n as int)]
    } else {
        nat_digits(n / 10).push(digit_of((n % 10) as int))
    }
}

/// The decimal notation of `n`, with a minus sign where it is negative.
pub open spec fn int_digits(n: int) -> Seq<char> {
    if n < 0 {
        seq!['-'] + nat_digits((-n) as nat)
    } else {
        nat_digits(n as nat)
    }
}

/// The number that a run of decimal digits denotes; 0 for the empty run.
pub open spec fn digits_value(s: Seq<char>) -> nat
    decreases s.len(),
{
    if s.len() == 0 {
        0
    } else {
        (digits_value(s.drop_last()) * 10 + digit_val(s.last())) as nat
    }
}

pub open spec fn all_digits(s: Seq<char>) -> bool {
    forall|i: int| 0 <= i < s.len() ==> is_digit(#[trigger] s[i])
}

pub open spec fn has_sign(s: Seq<char>) -> bool {
    s.len() > 0 && (s[0] == '+' || s[0] == '-')
}

pub open spec fn is_negative(s: Seq<char>) -> bool {
    s.len() > 0 && s[0] == '-'
}

/// The text without its leading sign, if it has one.
pub open spec fn unsigned_part(s: Seq<char>) -> Seq<char> {
    if has_sign(s) {
        s.subrange(1, s.len() as int)
    } else {
        s
    }
}

/// The integer that `s` denotes: an optional sign and at least one digit,
/// nothing else.
pub open spec fn int_text(s: Seq<char>) -> Option<int> {
    let body = unsigned_part(s);
    if body.len() == 0 || !all_digits(body) {
        None
    } else if is_negative(s) {
        Some(-(digits_value(body) as int))
    } else {
        Some(digits_value(body) as int)
    }
}

/// The integer that `s` denotes, where it lies within `[min, max]`.
pub open spec fn int_text_within(s: Seq<char>, min: int, max: int) -> Option<int> {
    match int_text(s) {
        Some(v) => if min <= v <= max {
            Some(v)
        } else {
            None
        },
        None => None,
    }
}

/// As `int_text_within(s, 0, max)`, but a minus sign is never accepted.
pub open spec fn unsigned_text_within(s: Seq<char>, max: int) -> Option<int> {
    if is_negative(s) {
        None
    } else {
        int_text_within(s, 0, max)
    }
}

fn digit_char(d: u8) -> (c: char)
    requires
        d < 10,
    ensures
        c == digit_of(d as int),
{
    if d == 0 {
        '0'
    } else if d == 1 {
        '1'
    } else if d == 2 {
        '2'
    } else if d == 3 {
        '3'
    } else if d == 4 {
        '4'
    } else if d == 5 {
        '5'
    } else if d == 6 {
        '6'
    } else if d == 7 {
        '7'
    } else if d == 8 {
        '8'
    } else {
        '9'
    }
}

fn digit_number(c: char) -> (d: u8)
    requires
        is_digit(c),
    ensures
        d == digit_val(c),
        d < 10,
{
    (c as u32 - '0' as u32) as u8
}

/// Appends the decimal notation of `n` to `out`.
pub fn push_u64(out: &mut String, n: u64)
    ensures
        final(out)@ == old(out)@ + nat_digits(n as nat),
    decreases n,
{
    if n >= 10 {
        push_u64(out, n / 10);
    }
    out.push(digit_char((n % 10) as u8));
    assert(final(out)@ =~= old(out)@ + nat_digits(n as nat));
}

/// Appends the decimal notation of `n` to `out`.
pub fn push_i64(out: &mut String, n: i64)
    ensures
        final(out)@ == old(out)@ + int_digits(n as int),
{
    if n < 0 {
        out.push('-');
        let m: u64 = (-(n as i128)) as u64;
        push_u64(out, m);
        assert(final(out)@ =~= old(out)@ + int_digits(n as int));
    } else {
        push_u64(out, n as u64);
    }
}

/// Appends the characters of `text` to `out`.
pub fn push_str(out: &mut String, text: &str)
    ensures
        final(out)@ == old(out)@ + text@,
{
    out.append(text);
}

pub fn u64_to_string(n: u64) -> (s: String)
    ensures
        s@ == nat_digits(n as nat),
{
    let mut s = String::new();
    push_u64(&mut s, n);
    assert(s@ =~= nat_digits(n as nat));
    s
}

/// The value of the digits `v[from..to]`, or nothing where one of them is no
/// digit or the value exceeds `limit`.
fn digits_within(v: &Vec<char>, from: usize, to: usize, limit: u64) -> (r: Option<u64>)
    requires
        from <= to <= v.len(),
    ensures
        r == if all_digits(v@.subrange(from as int, to as int)) && digits_value(
            v@.subrange(from as int, to as int),
        ) <= limit {
            Some(digits_value(v@.subrange(from as int, to as int)) as u64)
        } else {
            None
        },
{
    let mut acc: u64 = 0;
    let mut over = false;
    let mut i: usize = from;
    assert(v@.subrange(from as int, from as int) =~= Seq::<char>::empty());
    while i < to
        invariant
            from <= i <= to <= v.len(),
            all_digits(v@.subrange(from as int, i as int)),
            !over ==> acc == digits_value(v@.subrange(from as int, i as int)) && acc <= limit,
            over ==> digits_value(v@.subrange(from as int, i as int)) > limit,
        decreases to - i,
    {
        let c = v[i];
        let ghost prefix = v@.subrange(from as int, i as int);
        let ghost next = v@.subrange(from as int, i + 1);
        assert(next.drop_last() =~= prefix);
        assert(next.last() == c);
        if !digit(c) {
            let ghost whole = v@.subrange(from as int, to as int);
            assert(whole[i - from] == c);
            return None;
        }
        let d: u8 = digit_number(c);
        assert(digits_value(next) == digits_value(prefix) * 10 + d);
        if !over {
            let wide: u128 = acc as u128 * 10 + d as u128;
            if wide > limit as u128 {
                over = true;
            } else {
                acc = wide as u64;
            }
        } else {
            assert(digits_value(next) > limit) by (nonlinear_arith)
                requires
                    digits_value(next) == digits_value(prefix) * 10 + d,
                    digits_value(prefix) > limit,
                    d >= 0,
            ;
        }
        i += 1;
        assert forall|k: int| 0 <= k < next.len() implies is_digit(#[trigger] next[k]) by {
            if k < prefix.len() {
                assert(next[k] == prefix[k]);
            }
        }
    }
    if over {
        None
    } else {
        Some(acc)
    }
}

/// Reads an integer within `[min, max]`: an optional sign and at least one
/// digit, nothing else.
pub fn parse_int_within(s: &str, min: i64, max: i64) -> (r: Option<i64>)
    ensures
        r is Some <==> int_text_within(s@, min as int, max as int) is Some,
        r is Some ==> r->0 == int_text_within(s@, min as int, max as int)->0,
{
    let v = chars_of(s);
    let n: usize = v.len();
    let signed = n > 0 && (v[0] == '+' || v[0] == '-');
    let negative = n > 0 && v[0] == '-';
    let from: usize = if signed { 1 } else { 0 };
    assert(unsigned_part(s@) =~= v@.subrange(from as int, n as int));
    if from == n {
        return None;
    }
    match digits_within(&v, from, n, 0x8000_0000_0000_0000) {
        None => None,
        Some(m) => {
            if negative {
                let value: i128 = -(m as i128);
                if min as i128 <= value && value <= max as i128 {
                    Some(value as i64)
                } else {
                    None
                }
            } else {
                if m <= 0x7fff_ffff_ffff_ffff && min <= m as i64 && m as i64 <= max {
                    Some(m as i64)
                } else {
                    None
                }
            }
        },
    }
}

/// Reads an integer within `[0, max]`; a minus sign is not accepted.
pub fn parse_unsigned_within(s: &str, max: u64) -> (r: Option<u64>)
    ensures
        r is Some <==> unsigned_text_within(s@, max as int) is Some,
        r is Some ==> r->0 == unsigned_text_within(s@, max as int)->0,
{
    let v = chars_of(s);
    let n: usize = v.len();
    let signed = n > 0 && (v[0] == '+' || v[0] == '-');
    let negative = n > 0 && v[0] == '-';
    let from: usize = if signed { 1 } else { 0 };
    assert(unsigned_part(s@) =~= v@.subrange(from as int, n as int));
    if from == n || negative {
        return None;
    }
    digits_within(&v, from, n, max)
}


/// Number of fraction digits that a fixed-point number keeps.
pub const FRACTION_DIGITS: usize = 6;

/// The fixed-point value of 1.
pub const FRACTION_UNIT: i64 = 1_000_000;

/// The index of the first dot at or behind `i`, or the length of `s` where
/// there is none.
pub open spec fn first_dot(s: Seq<char>, i: int) -> int
    decreases s.len() - i,
{
    if i < 0 || i >= s.len() {
        s.len() as int
    } else if s[i] == '.' {
        i
    } else {
        first_dot(s, i + 1)
    }
}

/// The first `FRACTION_DIGITS` characters of `fp`, filled up with zeros.
pub open spec fn padded_fraction(fp: Seq<char>) -> Seq<char> {
    Seq::new(
        FRACTION_DIGITS as nat,
        |k: int|
            if k < fp.len() {
                fp[k]
            } else {
                '0'
            },
    )
}

/// The digits before the first dot of an unsigned decimal text.
pub open spec fn whole_part(body: Seq<char>) -> Seq<char> {
    body.subrange(0, first_dot(body, 0))
}

/// The digits behind the first dot of an unsigned decimal text.
pub open spec fn fraction_part(body: Seq<char>) -> Seq<char> {
    if first_dot(body, 0) < body.len() {
        body.subrange(first_dot(body, 0) + 1, body.len() as int)
    } else {
        Seq::empty()
    }
}

/// The fixed-point number that `s` denotes, in units of `1 / FRACTION_UNIT`:
/// an optional sign, digits, and optionally a dot and more digits, with at
/// least one digit in all. Fraction digits beyond the sixth are dropped.
pub open spec fn decimal_text(s: Seq<char>) -> Option<int> {
    let body = unsigned_part(s);
    let whole = whole_part(body);
    let fraction = fraction_part(body);
    if whole.len() + fraction.len() == 0 || !all_digits(whole) || !all_digits(fraction) {
        None
    } else {
        let magnitude = digits_value(whole) * FRACTION_UNIT + digits_value(
            padded_fraction(fraction),
        );
        if is_negative(s) {
            Some(-magnitude)
        } else {
            Some(magnitude)
        }
    }
}

/// The fixed-point number that `s` denotes, where it lies within `[min, max]`.
pub open spec fn decimal_text_within(s: Seq<char>, min: int, max: int) -> Option<int> {
    match decimal_text(s) {
        Some(v) => if min <= v <= max {
            Some(v)
        } else {
            None
        },
        None => None,
    }
}

proof fn lemma_first_dot(s: Seq<char>, i: int)
    requires
        0 <= i <= s.len(),
    ensures
        i <= first_dot(s, i) <= s.len(),
        first_dot(s, i) < s.len() ==> s[first_dot(s, i)] == '.',
        forall|k: int| i <= k < first_dot(s, i) ==> s[k] != '.',
    decreases s.len() - i,
{
    if i < s.len() && s[i] != '.' {
        lemma_first_dot(s, i + 1);
    }
}

fn all_digits_in(v: &Vec<char>, from: usize, to: usize) -> (b: bool)
    requires
        from <= to <= v.len(),
    ensures
        b == all_digits(v@.subrange(from as int, to as int)),
{
    let mut i: usize = from;
    while i < to
        invariant
            from <= i <= to <= v.len(),
            forall|k: int| from <= k < i ==> is_digit(#[trigger] v@[k]),
        decreases to - i,
    {
        if !digit(v[i]) {
            assert(v@.subrange(from as int, to as int)[i - from] == v@[i as int]);
            return false;
        }
        i += 1;
    }
    assert forall|k: int| 0 <= k < to - from implies is_digit(
        #[trigger] v@.subrange(from as int, to as int)[k],
    ) by {
        assert(v@.subrange(from as int, to as int)[k] == v@[from + k]);
    }
    true
}

/// Reads a fixed-point number within `[min, max]`, in units of
/// `1 / FRACTION_UNIT`.
pub fn parse_decimal_within(s: &str, min: i64, max: i64) -> (r: Option<i64>)
    ensures
        r is Some <==> decimal_text_within(s@, min as int, max as int) is Some,
        r is Some ==> r->0 == decimal_text_within(s@, min as int, max as int)->0,
{
    let v = chars_of(s);
    let n: usize = v.len();
    let signed = n > 0 && (v[0] == '+' || v[0] == '-');
    let negative = n > 0 && v[0] == '-';
    let from: usize = if signed { 1 } else { 0 };
    let ghost body = unsigned_part(s@);
    assert(body =~= v@.subrange(from as int, n as int));
    let mut dot: usize = from;
    proof {
        lemma_first_dot(body, 0);
    }
    while dot < n && v[dot] != '.'
        invariant
            from <= dot <= n,
            n == v.len(),
            body == v@.subrange(from as int, n as int),
            first_dot(body, 0) == first_dot(body, dot - from),
        decreases n - dot,
    {
        assert(body[dot - from] == v@[dot as int]);
        dot += 1;
    }
    assert(first_dot(body, 0) == dot - from) by {
        if dot < n {
            assert(body[dot - from] == v@[dot as int]);
        }
    }
    let frac_from: usize = if dot < n { dot + 1 } else { n };
    let ghost whole = whole_part(body);
    let ghost fraction = fraction_part(body);
    assert(whole =~= v@.subrange(from as int, dot as int));
    assert(fraction =~= v@.subrange(frac_from as int, n as int));
    if (dot - from) + (n - frac_from) == 0 {
        return None;
    }
    if !all_digits_in(&v, frac_from, n) {
        return None;
    }
    let mut six: Vec<char> = Vec::new();
    let mut k: usize = 0;
    while k < FRACTION_DIGITS
        invariant
            k <= FRACTION_DIGITS,
            six@.len() == k,
            frac_from <= n == v.len(),
            fraction == v@.subrange(frac_from as int, n as int),
            forall|j: int| 0 <= j < k ==> #[trigger] six@[j] == padded_fraction(fraction)[j],
        decreases FRACTION_DIGITS - k,
    {
        if k < n - frac_from {
            six.push(v[frac_from + k]);
        } else {
            six.push('0');
        }
        k += 1;
    }
    assert(six@ =~= padded_fraction(fraction));
    assert(six@.subrange(0, 6) =~= six@);
    assert(all_digits(padded_fraction(fraction))) by {
        assert forall|j: int| 0 <= j < 6 implies is_digit(
            #[trigger] padded_fraction(fraction)[j],
        ) by {
            if j < fraction.len() {
                assert(is_digit(fraction[j]));
            }
        }
    }
    proof {
        lemma_six_digits_bound(six@);
    }
    let part = digits_within(&six, 0, 6, 999_999);
    let low: u64 = match part {
        Some(m) => m,
        None => {
            return None;
        },
    };
    match digits_within(&v, from, dot, 9_223_372_036_855) {
        None => None,
        Some(m) => {
            let magnitude: i128 = m as i128 * 1_000_000 + low as i128;
            let value: i128 = if negative { -magnitude } else { magnitude };
            if min as i128 <= value && value <= max as i128 {
                Some(value as i64)
            } else {
                None
            }
        },
    }
}

proof fn lemma_six_digits_bound(s: Seq<char>)
    requires
        s.len() == 6,
        all_digits(s),
    ensures
        digits_value(s) <= 999_999,
{
    let s5 = s.drop_last();
    let s4 = s5.drop_last();
    let s3 = s4.drop_last();
    let s2 = s3.drop_last();
    let s1 = s2.drop_last();
    let s0 = s1.drop_last();
    assert(is_digit(s[5]) && is_digit(s[4]) && is_digit(s[3]) && is_digit(s[2]) && is_digit(s[1])
        && is_digit(s[0]));
    assert(s5.last() == s[4] && s4.last() == s[3] && s3.last() == s[2] && s2.last() == s[1]
        && s1.last() == s[0]);
    assert(digits_value(s0) == 0);
    assert(digits_value(s1) <= 9);
    assert(digits_value(s2) <= 99);
    assert(digits_value(s3) <= 999);
    assert(digits_value(s4) <= 9_999);
    assert(digits_value(s5) <= 99_999);
}


/// The texts of `parts` in order, with `sep` between each two.
pub open spec fn joined(parts: Seq<Seq<char>>, sep: Seq<char>) -> Seq<char>
    decreases parts.len(),
{
    if parts.len() == 0 {
        Seq::empty()
    } else if parts.len() == 1 {
        parts[0]
    } else {
        joined(parts.drop_last(), sep) + sep + parts.last()
    }
}

/// The views of a list of strings, in order.
pub open spec fn string_views(v: Seq<String>) -> Seq<Seq<char>> {
    v.map_values(|s: String| s@)
}

/// Joins `parts` with `sep` between each two.
pub fn join(parts: &Vec<String>, sep: &str) -> (s: String)
    ensures
        s@ == joined(string_views(parts@), sep@),
{
    let mut s = String::new();
    let mut i: usize = 0;
    let ghost views = string_views(parts@);
    while i < parts.len()
        invariant
            i <= parts.len(),
            views == string_views(parts@),
            s@ == joined(views.subrange(0, i as int), sep@),
        decreases parts.len() - i,
    {
        let ghost prefix = views.subrange(0, i as int);
        let ghost next = views.subrange(0, i + 1);
        assert(next.drop_last() =~= prefix);
        assert(next.last() == parts@[i as int]@);
        if i > 0 {
            push_str(&mut s, sep);
        }
        push_str(&mut s, parts[i].as_str());
        assert(s@ =~= joined(next, sep@)) by {
            if i == 0 {
                assert(prefix.len() == 0);
                assert(next[0] == parts@[0]@);
            }
        }
        i += 1;
    }
    assert(views.subrange(0, i as int) =~= views);
    s
}

/// Whether the two texts are the same.
pub fn same_text(a: &str, b: &str) -> (r: bool)
    ensures
        r == (a@ == b@),
{
    a.to_owned() == b.to_owned()
}


/// The view of an optional string.
pub open spec fn opt_text(o: Option<String>) -> Option<Seq<char>> {
    match o {
        Some(s) => Some(s@),
        None => None,
    }
}

pub fn clone_opt_text(o: &Option<String>) -> (r: Option<String>)
    ensures
        opt_text(r) == opt_text(*o),
{
    match o {
        Some(s) => Some(s.clone()),
        None => None,
    }
}

pub fn same_opt_text(a: &Option<String>, b: &Option<String>) -> (r: bool)
    ensures
        r == (opt_text(*a) == opt_text(*b)),
{
    match (a, b) {
        (Some(x), Some(y)) => *x == *y,
        (None, None) => true,
        _ => false,
    }
}

pub fn clone_texts(v: &Vec<String>) -> (r: Vec<String>)
    ensures
        string_views(r@) == string_views(v@),
{
    let mut r: Vec<String> = Vec::new();
    let mut i: usize = 0;
    while i < v.len()
        invariant
            i <= v.len(),
            r@.len() == i,
            forall|k: int| 0 <= k < i ==> (#[trigger] r@[k])@ == v@[k]@,
        decreases v.len() - i,
    {
        r.push(v[i].clone());
        i += 1;
    }
    assert(string_views(r@) =~= string_views(v@));
    r
}

pub fn same_texts(a: &Vec<String>, b: &Vec<String>) -> (r: bool)
    ensures
        r == (string_views(a@) == string_views(b@)),
{
    if a.len() != b.len() {
        assert(string_views(a@).len() != string_views(b@).len());
        return false;
    }
    let mut i: usize = 0;
    while i < a.len()
        invariant
            i <= a.len() == b.len(),
            forall|k: int| 0 <= k < i ==> (#[trigger] a@[k])@ == b@[k]@,
        decreases a.len() - i,
    {
        if !(a[i] == b[i]) {
            assert(string_views(a@)[i as int] != string_views(b@)[i as int]);
            return false;
        }
        i += 1;
    }
    assert(string_views(a@) =~= string_views(b@));
    true
}


/// The views of the items of a sequence, in order.
pub open spec fn views<T: View>(s: Seq<T>) -> Seq<T::V> {
    s.map_values(|t: T| t@)
}


/// The code of `c`, with the ASCII capitals mapped to their small letters.
pub open spec fn ascii_lower(c: char) -> int {
    if 'A' <= c <= 'Z' {
        c as int + 32
    } else {
        c as int
    }
}

/// Whether the two texts are the same but for the case of ASCII letters.
pub open spec fn same_ignoring_case(a: Seq<char>, b: Seq<char>) -> bool {
    &&& a.len() == b.len()
    &&& forall|i: int| 0 <= i < a.len() ==> ascii_lower(#[trigger] a[i]) == ascii_lower(b[i])
}

fn lower_code(c: char) -> (x: u32)
    ensures
        x == ascii_lower(c),
{
    if 'A' <= c && c <= 'Z' {
        c as u32 + 32
    } else {
        c as u32
    }
}

/// Whether the two texts are the same but for the case of ASCII letters.
pub fn eq_ignoring_case(a: &str, b: &str) -> (r: bool)
    ensures
        r == same_ignoring_case(a@, b@),
{
    let x = chars_of(a);
    let y = chars_of(b);
    if x.len() != y.len() {
        return false;
    }
    let mut i: usize = 0;
    while i < x.len()
        invariant
            i <= x.len() == y.len(),
            x@ == a@,
            y@ == b@,
            forall|k: int| 0 <= k < i ==> ascii_lower(#[trigger] x@[k]) == ascii_lower(y@[k]),
        decreases x.len() - i,
    {
        if lower_code(x[i]) != lower_code(y[i]) {
            return false;
        }
        i += 1;
    }
    true
}


/// The characters with the Unicode property `White_Space`.
pub open spec fn is_space(c: char) -> bool {
    ('\t' <= c <= '\r') || c == ' ' || c == '\u{85}' || c == '\u{a0}' || c == '\u{1680}' || (
    '\u{2000}' <= c <= '\u{200a}') || c == '\u{2028}' || c == '\u{2029}' || c == '\u{202f}' || c
        == '\u{205f}' || c == '\u{3000}'
}

pub fn space(c: char) -> (b: bool)
    ensures
        b == is_space(c),
{
    ('\t' <= c && c <= '\r') || c == ' ' || c == '\u{85}' || c == '\u{a0}' || c == '\u{1680}' || (
    '\u{2000}' <= c && c <= '\u{200a}') || c == '\u{2028}' || c == '\u{2029}' || c == '\u{202f}'
        || c == '\u{205f}' || c == '\u{3000}'
}


/// `s` without its white space.
pub open spec fn without_spaces(s: Seq<char>) -> Seq<char>
    decreases s.len(),
{
    if s.len() == 0 {
        Seq::empty()
    } else if is_space(s.last()) {
        without_spaces(s.drop_last())
    } else {
        without_spaces(s.drop_last()).push(s.last())
    }
}

/// `text` in upper case, as the standard library maps it.
pub uninterp spec fn uppercase(text: Seq<char>) -> Seq<char>;

/// Calls `str::to_uppercase`. The outcome depends on the text alone, which
/// is all that the contract claims: it gives the outcome its name.
#[verifier::external_body]
pub(crate) fn to_uppercase(text: &str) -> (r: String)
    ensures
        r@ == uppercase(text@),
{
    text.to_uppercase()
}

/// The index of the first character at or behind `i` that is no white space,
/// or the length of `s`.
pub open spec fn skip_spaces(s: Seq<char>, i: int) -> int
    decreases s.len() - i,
{
    if i < 0 || i >= s.len() {
        s.len() as int
    } else if is_space(s[i]) {
        skip_spaces(s, i + 1)
    } else {
        i
    }
}

/// The index behind the last character before `j` that is no white space,
/// or 0.
pub open spec fn skip_spaces_back(s: Seq<char>, j: int) -> int
    decreases j,
{
    if j <= 0 || j > s.len() {
        0
    } else if is_space(s[j - 1]) {
        skip_spaces_back(s, j - 1)
    } else {
        j
    }
}

/// `s` without the white space at its two ends.
pub open spec fn trimmed(s: Seq<char>) -> Seq<char> {
    let from = skip_spaces(s, 0);
    let to = skip_spaces_back(s, s.len() as int);
    if from < to {
        s.subrange(from, to)
    } else {
        Seq::empty()
    }
}

/// `s` without the white space at its two ends.
pub fn trim(s: &str) -> (r: String)
    ensures
        r@ == trimmed(s@),
{
    let v = chars_of(s);
    let n: usize = v.len();
    let mut from: usize = 0;
    while from < n && space(v[from])
        invariant
            from <= n == v.len(),
            skip_spaces(v@, 0) == skip_spaces(v@, from as int),
        decreases n - from,
    {
        from += 1;
    }
    let mut to: usize = n;
    while to > 0 && space(v[to - 1])
        invariant
            to <= n == v.len(),
            skip_spaces_back(v@, n as int) == skip_spaces_back(v@, to as int),
        decreases to,
    {
        to -= 1;
    }
    let mut out: Vec<char> = Vec::new();
    let mut k: usize = from;
    while k < to
        invariant
            from <= k <= to <= v.len() || (to < from && k == from),
            to >= from ==> out@ == v@.subrange(from as int, k as int),
            to < from ==> out@.len() == 0,
        decreases to - k,
    {
        out.push(v[k]);
        k += 1;
        assert(out@ =~= v@.subrange(from as int, k as int));
    }
    assert(out@ =~= trimmed(s@));
    string_of(&out)
}


/// Whether `a` comes before `b` in the order of dictionaries, characters
/// ordered by their code.
pub open spec fn comes_before(a: Seq<char>, b: Seq<char>) -> bool
    decreases a.len(),
{
    if b.len() == 0 {
        false
    } else if a.len() == 0 {
        true
    } else if a[0] != b[0] {
        a[0] < b[0]
    } else {
        comes_before(a.drop_first(), b.drop_first())
    }
}

/// The ordered list `sorted` with `x` put in its place: behind everything
/// that does not come after it.
pub open spec fn with_inserted(sorted: Seq<Seq<char>>, x: Seq<char>) -> Seq<Seq<char>>
    decreases sorted.len(),
{
    if sorted.len() == 0 {
        seq![x]
    } else if comes_before(x, sorted.last()) {
        with_inserted(sorted.drop_last(), x).push(sorted.last())
    } else {
        sorted.push(x)
    }
}

/// The first `n` texts of `s` in the order of dictionaries; texts that are
/// equal keep their order.
pub open spec fn in_order(s: Seq<Seq<char>>, n: int) -> Seq<Seq<char>>
    decreases n,
{
    if n <= 0 || n > s.len() {
        Seq::empty()
    } else {
        with_inserted(in_order(s, n - 1), s[n - 1])
    }
}

/// No text comes before itself.
pub proof fn lemma_before_irreflexive(a: Seq<char>)
    ensures
        !comes_before(a, a),
    decreases a.len(),
{
    if a.len() > 0 {
        lemma_before_irreflexive(a.drop_first());
    }
}

/// What comes before a text comes before all that the text comes before.
pub proof fn lemma_before_transitive(a: Seq<char>, b: Seq<char>, c: Seq<char>)
    requires
        comes_before(a, b),
        comes_before(b, c),
    ensures
        comes_before(a, c),
    decreases a.len(),
{
    if a.len() > 0 && a[0] == b[0] && b[0] == c[0] {
        lemma_before_transitive(a.drop_first(), b.drop_first(), c.drop_first());
    }
}

/// Of two texts that differ, one comes before the other.
pub proof fn lemma_before_total(a: Seq<char>, b: Seq<char>)
    requires
        !comes_before(a, b),
        !comes_before(b, a),
    ensures
        a == b,
    decreases a.len(),
{
    if a.len() == 0 || b.len() == 0 {
        assert(a =~= b);
    } else {
        lemma_before_total(a.drop_first(), b.drop_first());
        assert(a =~= seq![a[0]] + a.drop_first());
        assert(b =~= seq![b[0]] + b.drop_first());
    }
}

/// A text that does not come before `b`, which does not come before `c`,
/// does not come before `c`.
pub proof fn lemma_not_before_transitive(a: Seq<char>, b: Seq<char>, c: Seq<char>)
    requires
        !comes_before(a, b),
        !comes_before(b, c),
    ensures
        !comes_before(a, c),
{
    if comes_before(a, c) {
        if comes_before(c, b) {
            lemma_before_transitive(a, c, b);
        } else {
            lemma_before_total(b, c);
        }
    }
}

/// Whether the texts stand in the order of dictionaries: none comes before
/// one that stands before it.
pub open spec fn texts_ordered(s: Seq<Seq<char>>) -> bool {
    forall|i: int, j: int|
        0 <= i < j < s.len() ==> !comes_before(#[trigger] s[j], #[trigger] s[i])
}

/// Putting a text in its place among ordered texts leaves them ordered, and
/// adds that text and nothing else.
pub proof fn lemma_with_inserted(sorted: Seq<Seq<char>>, x: Seq<char>)
    requires
        texts_ordered(sorted),
    ensures
        texts_ordered(with_inserted(sorted, x)),
        with_inserted(sorted, x).to_multiset() == sorted.to_multiset().insert(x),
    decreases sorted.len(),
{
    broadcast use vstd::multiset::group_multiset_axioms;
    broadcast use vstd::seq_lib::group_to_multiset_ensures;

    let r = with_inserted(sorted, x);
    if sorted.len() == 0 {
        assert(sorted =~= Seq::<Seq<char>>::empty());
        assert(r =~= Seq::<Seq<char>>::empty().push(x));
        assert(r.to_multiset() =~= sorted.to_multiset().insert(x));
    } else if comes_before(x, sorted.last()) {
        let head = sorted.drop_last();
        let last = sorted.last();
        assert(sorted =~= head.push(last));
        assert(texts_ordered(head)) by {
            assert forall|i: int, j: int| 0 <= i < j < head.len() implies !comes_before(
                #[trigger] head[j],
                #[trigger] head[i],
            ) by {
                assert(head[j] == sorted[j] && head[i] == sorted[i]);
            }
        }
        lemma_with_inserted(head, x);
        let inner = with_inserted(head, x);
        assert(r == inner.push(last));
        assert(r.to_multiset() =~= sorted.to_multiset().insert(x));
        assert forall|i: int, j: int| 0 <= i < j < r.len() implies !comes_before(
            #[trigger] r[j],
            #[trigger] r[i],
        ) by {
            if j < inner.len() {
                assert(r[j] == inner[j] && r[i] == inner[i]);
            } else {
                assert(r[j] == last);
                assert(r[i] == inner[i]);
                assert(inner.contains(inner[i]));
                assert(inner.to_multiset().count(inner[i]) > 0);
                if inner[i] == x {
                    if comes_before(last, x) {
                        lemma_before_transitive(x, last, x);
                        lemma_before_irreflexive(x);
                    }
                } else {
                    assert(head.to_multiset().count(inner[i]) > 0);
                    assert(head.contains(inner[i]));
                    let m = choose|m: int| 0 <= m < head.len() && head[m] == inner[i];
                    assert(sorted[m] == inner[i]);
                    assert(!comes_before(sorted[sorted.len() - 1], sorted[m]));
                }
            }
        }
    } else {
        assert(r == sorted.push(x));
        assert forall|i: int, j: int| 0 <= i < j < r.len() implies !comes_before(
            #[trigger] r[j],
            #[trigger] r[i],
        ) by {
            if j < sorted.len() {
                assert(r[j] == sorted[j] && r[i] == sorted[i]);
            } else {
                assert(r[j] == x && r[i] == sorted[i]);
                if i < sorted.len() - 1 {
                    assert(!comes_before(sorted[sorted.len() - 1], sorted[i]));
                    lemma_not_before_transitive(x, sorted.last(), sorted[i]);
                }
            }
        }
    }
}

/// Texts put in order stand in the order of dictionaries, and are the texts
/// that were given, each as often as it was given.
pub proof fn lemma_in_order(s: Seq<Seq<char>>, n: int)
    requires
        0 <= n <= s.len(),
    ensures
        texts_ordered(in_order(s, n)),
        in_order(s, n).to_multiset() == s.subrange(0, n).to_multiset(),
    decreases n,
{
    broadcast use vstd::multiset::group_multiset_axioms;
    broadcast use vstd::seq_lib::group_to_multiset_ensures;

    if n > 0 {
        lemma_in_order(s, n - 1);
        lemma_with_inserted(in_order(s, n - 1), s[n - 1]);
        assert(s.subrange(0, n) =~= s.subrange(0, n - 1).push(s[n - 1]));
    } else {
        assert(s.subrange(0, 0) =~= Seq::<Seq<char>>::empty());
        assert(in_order(s, n) =~= Seq::<Seq<char>>::empty());
    }
}

/// There is one way only to put texts in order: ordered lists of the same
/// texts are equal.
pub proof fn lemma_ordered_unique(a: Seq<Seq<char>>, b: Seq<Seq<char>>)
    requires
        texts_ordered(a),
        texts_ordered(b),
        a.to_multiset() == b.to_multiset(),
    ensures
        a == b,
    decreases a.len(),
{
    broadcast use vstd::multiset::group_multiset_axioms;
    broadcast use vstd::seq_lib::group_to_multiset_ensures;

    a.to_multiset_ensures();
    b.to_multiset_ensures();
    assert(a.len() == b.len());
    if a.len() == 0 {
        assert(a =~= b);
    } else {
        let x = a.last();
        let y = b.last();
        assert(a.contains(x));
        assert(b.to_multiset().count(x) > 0);
        assert(b.contains(x));
        let j = choose|j: int| 0 <= j < b.len() && b[j] == x;
        assert(!comes_before(y, x)) by {
            if j < b.len() - 1 {
                assert(!comes_before(b[b.len() - 1], b[j]));
            } else {
                lemma_before_irreflexive(x);
            }
        }
        assert(b.contains(y));
        assert(a.to_multiset().count(y) > 0);
        assert(a.contains(y));
        let k = choose|k: int| 0 <= k < a.len() && a[k] == y;
        assert(!comes_before(x, y)) by {
            if k < a.len() - 1 {
                assert(!comes_before(a[a.len() - 1], a[k]));
            } else {
                lemma_before_irreflexive(y);
            }
        }
        lemma_before_total(x, y);
        let a0 = a.drop_last();
        let b0 = b.drop_last();
        assert(a0 =~= a.remove(a.len() - 1));
        assert(b0 =~= b.remove(b.len() - 1));
        assert(a0.to_multiset() =~= a.to_multiset().remove(x));
        assert(b0.to_multiset() =~= b.to_multiset().remove(y));
        assert(texts_ordered(a0)) by {
            assert forall|i: int, j: int| 0 <= i < j < a0.len() implies !comes_before(
                #[trigger] a0[j],
                #[trigger] a0[i],
            ) by {
                assert(a0[j] == a[j] && a0[i] == a[i]);
            }
        }
        assert(texts_ordered(b0)) by {
            assert forall|i: int, j: int| 0 <= i < j < b0.len() implies !comes_before(
                #[trigger] b0[j],
                #[trigger] b0[i],
            ) by {
                assert(b0[j] == b[j] && b0[i] == b[i]);
            }
        }
        lemma_ordered_unique(a0, b0);
        assert(a =~= a0.push(x));
        assert(b =~= b0.push(y));
    }
}

/// Texts come out in the same order however they were arranged before.
pub proof fn lemma_in_order_of_any(a: Seq<Seq<char>>, b: Seq<Seq<char>>)
    requires
        a.to_multiset() == b.to_multiset(),
    ensures
        in_order(a, a.len() as int) == in_order(b, b.len() as int),
{
    lemma_in_order(a, a.len() as int);
    lemma_in_order(b, b.len() as int);
    assert(a.subrange(0, a.len() as int) =~= a);
    assert(b.subrange(0, b.len() as int) =~= b);
    lemma_ordered_unique(in_order(a, a.len() as int), in_order(b, b.len() as int));
}

/// Whether `a` comes before `b` in the order of dictionaries.
pub fn before(a: &str, b: &str) -> (r: bool)
    ensures
        r == comes_before(a@, b@),
{
    let x = chars_of(a);
    let y = chars_of(b);
    let mut i: usize = 0;
    assert(x@.subrange(0, x@.len() as int) =~= x@);
    assert(y@.subrange(0, y@.len() as int) =~= y@);
    while i < x.len() && i < y.len()
        invariant
            i <= x.len(),
            i <= y.len(),
            x@ == a@,
            y@ == b@,
            comes_before(a@, b@) == comes_before(
                x@.subrange(i as int, x@.len() as int),
                y@.subrange(i as int, y@.len() as int),
            ),
        decreases x.len() - i,
    {
        let ghost xs = x@.subrange(i as int, x@.len() as int);
        let ghost ys = y@.subrange(i as int, y@.len() as int);
        assert(xs[0] == x@[i as int] && ys[0] == y@[i as int]);
        if x[i] != y[i] {
            return x[i] < y[i];
        }
        assert(xs.drop_first() =~= x@.subrange(i + 1, x@.len() as int));
        assert(ys.drop_first() =~= y@.subrange(i + 1, y@.len() as int));
        i += 1;
    }
    i < y.len()
}

/// Puts `x` in its place in the ordered list `v`.
pub fn insert_in_order(v: &mut Vec<String>, x: String)
    ensures
        string_views(final(v)@) == with_inserted(string_views(old(v)@), x@),
{
    let ghost start = string_views(v@);
    let mut j: usize = v.len();
    assert(start.subrange(0, j as int) =~= start);
    assert(with_inserted(start, x@) =~= with_inserted(start.subrange(0, j as int), x@)
        + start.subrange(j as int, start.len() as int));
    while j > 0 && before(x.as_str(), v[j - 1].as_str())
        invariant
            j <= v.len(),
            v@ == old(v)@,
            start == string_views(v@),
            with_inserted(start, x@) == with_inserted(start.subrange(0, j as int), x@)
                + start.subrange(j as int, start.len() as int),
        decreases j,
    {
        let ghost head = start.subrange(0, j as int);
        assert(head.last() == v@[j - 1]@);
        assert(head.drop_last() =~= start.subrange(0, j - 1));
        assert(with_inserted(head, x@) + start.subrange(j as int, start.len() as int)
            =~= with_inserted(start.subrange(0, j - 1), x@) + start.subrange(
            j - 1,
            start.len() as int,
        ));
        j -= 1;
    }
    proof {
        let head = start.subrange(0, j as int);
        if j > 0 {
            assert(head.last() == v@[j - 1]@);
        }
        assert(with_inserted(head, x@) =~= head.push(x@));
    }
    v.insert(j, x);
    assert(string_views(v@) =~= start.subrange(0, j as int).push(x@) + start.subrange(
        j as int,
        start.len() as int,
    ));
}

/// The texts of `v` in the order of dictionaries.
pub fn sort_texts(v: &Vec<String>) -> (r: Vec<String>)
    ensures
        string_views(r@) == in_order(string_views(v@), v@.len() as int),
{
    let mut r: Vec<String> = Vec::new();
    let mut i: usize = 0;
    assert(string_views(r@) =~= Seq::<Seq<char>>::empty());
    while i < v.len()
        invariant
            i <= v.len(),
            string_views(r@) == in_order(string_views(v@), i as int),
        decreases v.len() - i,
    {
        assert(string_views(v@)[i as int] == v@[i as int]@);
        insert_in_order(&mut r, v[i].clone());
        i += 1;
    }
    r
}


/// The pieces of `s` between the separators `sep`: one more piece than
/// there are separators.
pub open spec fn split_on(s: Seq<char>, sep: char) -> Seq<Seq<char>>
    decreases s.len(),
{
    if s.len() == 0 {
        seq![Seq::empty()]
    } else {
        let before = split_on(s.drop_last(), sep);
        if s.last() == sep {
            before.push(Seq::empty())
        } else {
            before.drop_last().push(before.last().push(s.last()))
        }
    }
}

/// Splits `s` at every `sep`.
pub fn split(s: &str, sep: char) -> (r: Vec<String>)
    ensures
        string_views(r@) == split_on(s@, sep),
        r@.len() >= 1,
{
    let v = chars_of(s);
    let mut done: Vec<String> = Vec::new();
    let mut piece: Vec<char> = Vec::new();
    let mut i: usize = 0;
    assert(v@.subrange(0, 0) =~= Seq::<char>::empty());
    assert(string_views(done@).push(piece@) =~= split_on(v@.subrange(0, 0), sep));
    while i < v.len()
        invariant
            i <= v.len(),
            string_views(done@).push(piece@) == split_on(v@.subrange(0, i as int), sep),
        decreases v.len() - i,
    {
        let ghost before = split_on(v@.subrange(0, i as int), sep);
        let ghost sofar = string_views(done@);
        assert(v@.subrange(0, i + 1).drop_last() =~= v@.subrange(0, i as int));
        assert(before.last() == piece@);
        assert(before.drop_last() =~= sofar);
        if v[i] == sep {
            let text = string_of(&piece);
            done.push(text);
            piece = Vec::new();
            assert(string_views(done@) =~= sofar.push(before.last()));
            assert(string_views(done@).push(piece@) =~= before.push(Seq::empty()));
        } else {
            piece.push(v[i]);
        }
        i += 1;
    }
    assert(v@.subrange(0, i as int) =~= v@);
    let ghost sofar = string_views(done@);
    let text = string_of(&piece);
    done.push(text);
    assert(string_views(done@) =~= sofar.push(piece@));
    done
}


/// Whether `text` is one of the texts of `list`.
pub fn has_text(list: &Vec<String>, text: &str) -> (b: bool)
    ensures
        b == string_views(list@).contains(text@),
{
    let wanted = text.to_owned();
    let mut i: usize = 0;
    while i < list.len()
        invariant
            i <= list.len(),
            wanted@ == text@,
            forall|k: int| 0 <= k < i ==> (#[trigger] list@[k])@ != text@,
        decreases list.len() - i,
    {
        if list[i] == wanted {
            assert(string_views(list@)[i as int] == text@);
            return true;
        }
        i += 1;
    }
    assert forall|k: int| 0 <= k < string_views(list@).len() implies string_views(list@)[k]
        != text@ by {
        assert(string_views(list@)[k] == list@[k]@);
    }
    false
}

/// Adds `text` to `list` unless it is one of its texts already.
pub fn add_text(list: &mut Vec<String>, text: &str)
    ensures
        string_views(final(list)@) == if string_views(old(list)@).contains(text@) {
            string_views(old(list)@)
        } else {
            string_views(old(list)@).push(text@)
        },
{
    if !has_text(list, text) {
        let ghost before = string_views(list@);
        list.push(text.to_owned());
        assert(string_views(list@) =~= before.push(text@));
    }
}

} // verus!
