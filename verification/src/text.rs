//! Character-level helpers the parsers and name rules are built from: the
//! character classes they test, case folding, trimming, decimal numbers.
use vstd::prelude::*;

verus! {

/// `char::is_whitespace`: the Unicode `White_Space` property.
pub open spec fn is_ws(c: char) -> bool {
    let u = c as u32;
    ||| 9 <= u <= 13
    ||| u == 32
    ||| u == 0x85
    ||| u == 0xA0
    ||| u == 0x1680
    ||| 0x2000 <= u <= 0x200A
    ||| u == 0x2028
    ||| u == 0x2029
    ||| u == 0x202F
    ||| u == 0x205F
    ||| u == 0x3000
}

/// `char::is_control`: the Unicode general category `Cc`.
pub open spec fn is_ctrl(c: char) -> bool {
    let u = c as u32;
    u <= 0x1F || (0x7F <= u <= 0x9F)
}

/// `char::to_ascii_lowercase`.
pub open spec fn lower(c: char) -> char {
    if 'A' <= c <= 'Z' {
        ((c as u32) + 32) as char
    } else {
        c
    }
}

/// `char::to_ascii_uppercase`.
pub open spec fn upper(c: char) -> char {
    if 'a' <= c <= 'z' {
        ((c as u32) - 32) as char
    } else {
        c
    }
}

pub open spec fn lower_seq(s: Seq<char>) -> Seq<char> {
    s.map_values(|c: char| lower(c))
}

pub open spec fn upper_seq(s: Seq<char>) -> Seq<char> {
    s.map_values(|c: char| upper(c))
}

/// `str::eq_ignore_ascii_case`.
pub open spec fn eq_ignore_case(a: Seq<char>, b: Seq<char>) -> bool {
    lower_seq(a) == lower_seq(b)
}

/// `s` holds `pat` as a contiguous run somewhere.
pub open spec fn has_sub(s: Seq<char>, pat: Seq<char>) -> bool {
    exists|i: int| 0 <= i && i + pat.len() <= s.len() && #[trigger] s.subrange(i, i + pat.len()) == pat
}

/// Number of leading characters of `s` that satisfy `p`.
pub open spec fn lead_count(s: Seq<char>, p: spec_fn(char) -> bool) -> int
    decreases s.len(),
{
    if s.len() > 0 && p(s[0]) {
        1 + lead_count(s.drop_first(), p)
    } else {
        0
    }
}

/// Number of trailing characters of `s` that satisfy `p`.
pub open spec fn trail_count(s: Seq<char>, p: spec_fn(char) -> bool) -> int
    decreases s.len(),
{
    if s.len() > 0 && p(s.last()) {
        1 + trail_count(s.drop_last(), p)
    } else {
        0
    }
}

/// `s` with every leading and trailing character that satisfies `p` removed
/// (`str::trim_matches`).
pub open spec fn trim_by(s: Seq<char>, p: spec_fn(char) -> bool) -> Seq<char> {
    let a = lead_count(s, p);
    if a == s.len() {
        Seq::empty()
    } else {
        s.subrange(a, s.len() - trail_count(s, p))
    }
}

/// `str::trim`.
pub open spec fn trim_ws(s: Seq<char>) -> Seq<char> {
    trim_by(s, |c: char| is_ws(c))
}

pub proof fn lemma_lead_count_bounds(s: Seq<char>, p: spec_fn(char) -> bool)
    ensures
        0 <= lead_count(s, p) <= s.len(),
        forall|i: int| 0 <= i < lead_count(s, p) ==> p(#[trigger] s[i]),
        lead_count(s, p) < s.len() ==> !p(s[lead_count(s, p)]),
    decreases s.len(),
{
    if s.len() > 0 && p(s[0]) {
        lemma_lead_count_bounds(s.drop_first(), p);
        assert forall|i: int| 0 <= i < lead_count(s, p) implies p(#[trigger] s[i]) by {
            if i > 0 {
                assert(s[i] == s.drop_first()[i - 1]);
            }
        }
    }
}

pub proof fn lemma_trail_count_bounds(s: Seq<char>, p: spec_fn(char) -> bool)
    ensures
        0 <= trail_count(s, p) <= s.len(),
        forall|i: int| s.len() - trail_count(s, p) <= i < s.len() ==> p(#[trigger] s[i]),
        trail_count(s, p) < s.len() ==> !p(s[s.len() - 1 - trail_count(s, p)]),
    decreases s.len(),
{
    if s.len() > 0 && p(s.last()) {
        lemma_trail_count_bounds(s.drop_last(), p);
        assert forall|i: int| s.len() - trail_count(s, p) <= i < s.len() implies p(#[trigger] s[i]) by {
            if i < s.len() - 1 {
                assert(s[i] == s.drop_last()[i]);
            }
        }
    }
}

/// Leading `p`-run of `s`: every character before `n` satisfies `p` and the one at `n` does not.
pub proof fn lemma_lead_count_unique(s: Seq<char>, p: spec_fn(char) -> bool, n: int)
    requires
        0 <= n <= s.len(),
        forall|i: int| 0 <= i < n ==> p(#[trigger] s[i]),
        n < s.len() ==> !p(s[n]),
    ensures
        lead_count(s, p) == n,
    decreases s.len(),
{
    if n > 0 {
        assert(p(s[0]));
        assert forall|i: int| 0 <= i < n - 1 implies p(#[trigger] s.drop_first()[i]) by {
            assert(s.drop_first()[i] == s[i + 1]);
        }
        if n < s.len() {
            assert(s.drop_first()[n - 1] == s[n]);
        }
        lemma_lead_count_unique(s.drop_first(), p, n - 1);
    } else if s.len() > 0 {
        assert(!p(s[0]));
    }
}

pub proof fn lemma_trail_count_unique(s: Seq<char>, p: spec_fn(char) -> bool, n: int)
    requires
        0 <= n <= s.len(),
        forall|i: int| s.len() - n <= i < s.len() ==> p(#[trigger] s[i]),
        n < s.len() ==> !p(s[s.len() - 1 - n]),
    ensures
        trail_count(s, p) == n,
    decreases s.len(),
{
    if n > 0 {
        assert(p(s[s.len() - 1]));
        assert forall|i: int| s.len() - 1 - (n - 1) <= i < s.len() - 1 implies p(#[trigger] s.drop_last()[i]) by {
            assert(s.drop_last()[i] == s[i]);
        }
        if n < s.len() {
            assert(s.drop_last()[s.len() - 2 - (n - 1)] == s[s.len() - 1 - n]);
        }
        lemma_trail_count_unique(s.drop_last(), p, n - 1);
    } else if s.len() > 0 {
        assert(!p(s.last()));
    }
}

/// Append `c` to `s` (`String::push`).
#[verifier::external_body]
pub(crate) fn push_char(s: &mut String, c: char)
    ensures
        final(s)@ == old(s)@.push(c),
{
    s.push(c)
}

/// The characters of `s`, in order.
pub fn chars_of(s: &str) -> (v: Vec<char>)
    ensures
        v@ == s@,
{
    let mut v: Vec<char> = Vec::new();
    let n = s.unicode_len();
    let mut i: usize = 0;
    while i < n
        invariant
            n == s@.len(),
            i <= n,
            v@ == s@.subrange(0, i as int),
        decreases n - i,
    {
        v.push(s.get_char(i));
        i = i + 1;
    }
    v
}

/// The text made of the characters `v[from..to]`.
pub fn string_of_range(v: &Vec<char>, from: usize, to: usize) -> (s: String)
    requires
        from <= to <= v.len(),
    ensures
        s@ == v@.subrange(from as int, to as int),
{
    let mut s = String::new();
    let mut i = from;
    while i < to
        invariant
            from <= i <= to <= v.len(),
            s@ == v@.subrange(from as int, i as int),
        decreases to - i,
    {
        push_char(&mut s, v[i]);
        i = i + 1;
    }
    s
}

/// The text made of the characters of `v`.
pub fn string_of(v: &Vec<char>) -> (s: String)
    ensures
        s@ == v@,
{
    let s = string_of_range(v, 0, v.len());
    assert(v@.subrange(0, v@.len() as int) =~= v@);
    s
}

/// `a` followed by `b`.
pub fn concat(a: &str, b: &str) -> (s: String)
    ensures
        s@ == a@ + b@,
{
    let mut s = String::from_str(a);
    s.append(b);
    s
}

pub fn is_ws_char(c: char) -> (b: bool)
    ensures
        b == is_ws(c),
{
    let u = c as u32;
    (9 <= u && u <= 13) || u == 32 || u == 0x85 || u == 0xA0 || u == 0x1680 || (0x2000 <= u && u
        <= 0x200A) || u == 0x2028 || u == 0x2029 || u == 0x202F || u == 0x205F || u == 0x3000
}

pub fn is_ctrl_char(c: char) -> (b: bool)
    ensures
        b == is_ctrl(c),
{
    let u = c as u32;
    u <= 0x1F || (0x7F <= u && u <= 0x9F)
}

pub fn lower_char(c: char) -> (r: char)
    ensures
        r == lower(c),
{
    if 'A' <= c && c <= 'Z' {
        ((c as u32) + 32) as u8 as char
    } else {
        c
    }
}

pub fn upper_char(c: char) -> (r: char)
    ensures
        r == upper(c),
{
    if 'a' <= c && c <= 'z' {
        ((c as u32) - 32) as u8 as char
    } else {
        c
    }
}

/// `s.eq_ignore_ascii_case(t)` on character sequences.
pub fn eq_ignore_case_chars(a: &Vec<char>, b: &Vec<char>) -> (r: bool)
    ensures
        r == eq_ignore_case(a@, b@),
{
    if a.len() != b.len() {
        proof {
            assert(lower_seq(a@).len() != lower_seq(b@).len());
        }
        return false;
    }
    let mut i: usize = 0;
    while i < a.len()
        invariant
            a.len() == b.len(),
            i <= a.len(),
            forall|k: int| 0 <= k < i ==> lower(a@[k]) == lower(b@[k]),
        decreases a.len() - i,
    {
        if lower_char(a[i]) != lower_char(b[i]) {
            proof {
                assert(lower_seq(a@)[i as int] != lower_seq(b@)[i as int]);
            }
            return false;
        }
        i = i + 1;
    }
    assert(lower_seq(a@) =~= lower_seq(b@));
    true
}

/// `a.eq_ignore_ascii_case(b)`.
pub fn str_eq_ignore_case(a: &str, b: &str) -> (r: bool)
    ensures
        r == eq_ignore_case(a@, b@),
{
    eq_ignore_case_chars(&chars_of(a), &chars_of(b))
}

/// The characters of `s` folded to ASCII lower case.
pub fn lower_chars(s: &Vec<char>) -> (r: Vec<char>)
    ensures
        r@ == lower_seq(s@),
{
    let mut r: Vec<char> = Vec::new();
    let mut i: usize = 0;
    while i < s.len()
        invariant
            i <= s.len(),
            r@ =~= lower_seq(s@.subrange(0, i as int)),
        decreases s.len() - i,
    {
        r.push(lower_char(s[i]));
        i = i + 1;
    }
    assert(s@.subrange(0, s@.len() as int) =~= s@);
    r
}

/// Does `s` hold `pat` anywhere?
pub fn contains_chars(s: &Vec<char>, pat: &Vec<char>) -> (r: bool)
    ensures
        r == has_sub(s@, pat@),
{
    if pat.len() > s.len() {
        return false;
    }
    let mut i: usize = 0;
    while i <= s.len() - pat.len()
        invariant
            pat.len() <= s.len(),
            i <= s.len() - pat.len() + 1,
            forall|k: int| 0 <= k < i ==> #[trigger] s@.subrange(k, k + pat.len()) != pat@,
        decreases s.len() + 1 - i,
    {
        let mut j: usize = 0;
        let mut same = true;
        while j < pat.len()
            invariant
                i + pat.len() <= s.len(),
                j <= pat.len(),
                same == (forall|m: int| 0 <= m < j ==> s@[i + m] == pat@[m]),
            decreases pat.len() - j,
        {
            if s[i + j] != pat[j] {
                same = false;
            }
            j = j + 1;
        }
        if same {
            assert(s@.subrange(i as int, i + pat.len()) =~= pat@);
            return true;
        }
        assert(s@.subrange(i as int, i + pat.len()) != pat@) by {
            let m = choose|m: int| 0 <= m < pat.len() && s@[i + m] != pat@[m];
            assert(s@.subrange(i as int, i + pat.len())[m] == s@[i + m]);
        }
        i = i + 1;
    }
    false
}

/// Index of the first character of `v` not satisfying `is_ws`, and one past the
/// last: `v[a..b]` is `str::trim` of `v`.
pub fn trim_bounds(v: &Vec<char>) -> (r: (usize, usize))
    ensures
        r.0 <= r.1 <= v.len(),
        v@.subrange(r.0 as int, r.1 as int) == trim_ws(v@),
{
    let ghost p = |c: char| is_ws(c);
    let mut a: usize = 0;
    while a < v.len() && is_ws_char(v[a])
        invariant
            a <= v.len(),
            forall|i: int| 0 <= i < a ==> is_ws(#[trigger] v@[i]),
        decreases v.len() - a,
    {
        a = a + 1;
    }
    proof {
        lemma_lead_count_unique(v@, p, a as int);
    }
    if a == v.len() {
        assert(trim_ws(v@) =~= v@.subrange(a as int, a as int));
        return (a, a);
    }
    let mut b: usize = v.len();
    while b > a && is_ws_char(v[b - 1])
        invariant
            a < v.len(),
            !is_ws(v@[a as int]),
            a <= b <= v.len(),
            forall|i: int| b <= i < v.len() ==> is_ws(#[trigger] v@[i]),
        decreases b,
    {
        b = b - 1;
    }
    proof {
        lemma_trail_count_unique(v@, p, v.len() - b);
    }
    (a, b)
}

/// Decimal digit `d` as a character.
pub open spec fn digit_char(d: int) -> char {
    (d + 48) as char
}

proof fn lemma_digit_char_injective(a: int, b: int)
    requires
        0 <= a < 10,
        0 <= b < 10,
        digit_char(a) == digit_char(b),
    ensures
        a == b,
{
    assert((a + 48) as char as int == a + 48);
    assert((b + 48) as char as int == b + 48);
}

/// The decimal spelling of `n`, as `u64::to_string` writes it.
pub open spec fn decimal(n: nat) -> Seq<char>
    decreases n,
{
    if n < 10 {
        seq![digit_char(n as int)]
    } else {
        decimal(n / 10).push(digit_char((n % 10) as int))
    }
}

/// A decimal spelling is at least one digit long, two from 10 on, and
/// every character of it is a digit.
pub proof fn lemma_decimal_shape(n: nat)
    ensures
        decimal(n).len() >= 1,
        n >= 10 ==> decimal(n).len() >= 2,
        forall|i: int| 0 <= i < decimal(n).len() ==> '0' <= #[trigger] decimal(n)[i] <= '9',
    decreases n,
{
    if n >= 10 {
        lemma_decimal_shape(n / 10);
        assert forall|i: int| 0 <= i < decimal(n).len() implies '0' <= #[trigger] decimal(n)[i] <= '9' by {
            if i < decimal(n).len() - 1 {
                assert(decimal(n)[i] == decimal(n / 10)[i]);
            }
        }
    }
}

/// Different numbers are spelt differently.
pub proof fn lemma_decimal_injective(a: nat, b: nat)
    requires
        decimal(a) == decimal(b),
    ensures
        a == b,
    decreases a,
{
    lemma_decimal_shape(a / 10);
    lemma_decimal_shape(b / 10);
    if a < 10 && b < 10 {
        assert(decimal(a)[0] == digit_char(a as int));
        assert(decimal(b)[0] == digit_char(b as int));
        lemma_digit_char_injective(a as int, b as int);
    } else if a >= 10 && b >= 10 {
        let da = decimal(a);
        assert(da.last() == digit_char((a % 10) as int));
        assert(decimal(b).last() == digit_char((b % 10) as int));
        lemma_digit_char_injective((a % 10) as int, (b % 10) as int);
        assert(decimal(a / 10) =~= da.drop_last());
        assert(decimal(b / 10) =~= decimal(b).drop_last());
        lemma_decimal_injective(a / 10, b / 10);
    } else {
        assert(decimal(a).len() != decimal(b).len());
    }
}

/// `n` in decimal.
pub fn decimal_string(n: u64) -> (s: String)
    ensures
        s@ == decimal(n as nat),
{
    let mut digits: Vec<char> = Vec::new();
    let mut m: u64 = n;
    assert(decimal(n as nat) =~= decimal(m as nat) + digits@);
    // digits holds the low-order digits, most significant first.
    loop
        invariant
            m <= n,
            decimal(n as nat) == decimal(m as nat) + digits@,
            m == n ==> digits@.len() == 0,
        decreases m,
    {
        let d = m % 10;
        let ch = ((d as u8) + 48u8) as char;
        assert(ch == digit_char(d as int));
        if m < 10 {
            let mut out: Vec<char> = Vec::new();
            out.push(ch);
            let mut k: usize = 0;
            while k < digits.len()
                invariant
                    k <= digits.len(),
                    out@ == seq![ch] + digits@.subrange(0, k as int),
                decreases digits.len() - k,
            {
                out.push(digits[k]);
                k = k + 1;
                assert(out@ =~= seq![ch] + digits@.subrange(0, k as int));
            }
            assert(digits@.subrange(0, digits@.len() as int) =~= digits@);
            assert(decimal(m as nat) == seq![ch]);
            assert(out@ =~= decimal(n as nat));
            return string_of(&out);
        }
        let ghost old_digits = digits@;
        let mut nd: Vec<char> = Vec::new();
        nd.push(ch);
        let mut k: usize = 0;
        while k < digits.len()
            invariant
                k <= digits.len(),
                nd@ == seq![ch] + digits@.subrange(0, k as int),
            decreases digits.len() - k,
        {
            nd.push(digits[k]);
            k = k + 1;
            assert(nd@ =~= seq![ch] + digits@.subrange(0, k as int));
        }
        assert(digits@.subrange(0, digits@.len() as int) =~= digits@);
        assert(decimal(m as nat) == decimal((m / 10) as nat).push(ch));
        assert(decimal((m / 10) as nat) + nd@ =~= decimal((m / 10) as nat).push(ch) + old_digits);
        digits = nd;
        m = m / 10;
    }
}

/// Value of a run of decimal digits.
pub open spec fn digits_value(s: Seq<char>) -> int
    decreases s.len(),
{
    if s.len() == 0 {
        0
    } else {
        digits_value(s.drop_last()) * 10 + (s.last() as int - 48)
    }
}

pub open spec fn is_digit(c: char) -> bool {
    '0' <= c <= '9'
}

/// `s` without one leading `+`.
pub open spec fn unsigned_part(s: Seq<char>) -> Seq<char> {
    if s.len() > 0 && s[0] == '+' { s.drop_first() } else { s }
}

/// `str::parse::<u64>`: an optional `+`, then one or more ASCII digits whose
/// value fits a `u64`; anything else is an error.
pub open spec fn parse_u64_spec(s: Seq<char>) -> Option<u64> {
    let d = unsigned_part(s);
    if d.len() == 0 || !(forall|i: int| 0 <= i < d.len() ==> is_digit(#[trigger] d[i])) {
        None
    } else if digits_value(d) > u64::MAX {
        None
    } else {
        Some(digits_value(d) as u64)
    }
}

proof fn lemma_digits_value_nonneg(s: Seq<char>)
    requires
        forall|i: int| 0 <= i < s.len() ==> is_digit(#[trigger] s[i]),
    ensures
        digits_value(s) >= 0,
    decreases s.len(),
{
    if s.len() > 0 {
        lemma_digits_value_nonneg(s.drop_last());
    }
}

/// Parse `v[from..to]` as `str::parse::<u64>` does.
pub fn parse_u64_range(v: &Vec<char>, from: usize, to: usize) -> (r: Option<u64>)
    requires
        from <= to <= v.len(),
    ensures
        r == parse_u64_spec(v@.subrange(from as int, to as int)),
{
    let ghost s = v@.subrange(from as int, to as int);
    let mut i = from;
    if i < to && v[i] == '+' {
        i = i + 1;
    }
    let ghost d = v@.subrange(i as int, to as int);
    assert(d =~= unsigned_part(s));
    if i == to {
        return None;
    }
    let mut acc: u64 = 0;
    let mut j = i;
    while j < to
        invariant
            from <= i < to <= v.len(),
            i <= j <= to,
            s == v@.subrange(from as int, to as int),
            d == unsigned_part(s),
            d == v@.subrange(i as int, to as int),
            forall|k: int| i <= k < j ==> is_digit(#[trigger] v@[k]),
            acc as int == digits_value(v@.subrange(i as int, j as int)),
        decreases to - j,
    {
        let c = v[j];
        if !('0' <= c && c <= '9') {
            assert(!is_digit(d[j - i]));
            return None;
        }
        let dv: u64 = (c as u32 - 48) as u64;
        assert(v@.subrange(i as int, j + 1).drop_last() =~= v@.subrange(i as int, j as int));
        if acc > (u64::MAX - dv) / 10 {
            // the value no longer fits; a longer digit run only grows
            proof {
                assert(acc * 10 + dv > u64::MAX) by (nonlinear_arith)
                    requires acc > (u64::MAX - dv) / 10, dv <= 9;
                assert(v@.subrange(i as int, j + 1).last() == c);
                lemma_digits_value_grows(v@, i as int, j + 1, to as int);
            }
            let mut k = j + 1;
            while k < to
                invariant
                    from <= i < j < k <= to <= v.len(),
                    s == v@.subrange(from as int, to as int),
                    d == unsigned_part(s),
                    d == v@.subrange(i as int, to as int),
                    digits_value(v@.subrange(i as int, j + 1)) > u64::MAX,
                    forall|q: int| i <= q < k ==> is_digit(#[trigger] v@[q]),
                decreases to - k,
            {
                if !('0' <= v[k] && v[k] <= '9') {
                    assert(!is_digit(d[k - i]));
                    return None;
                }
                k = k + 1;
            }
            assert forall|q: int| 0 <= q < d.len() implies is_digit(#[trigger] d[q]) by {
                assert(d[q] == v@[i + q]);
            }
            assert(v@.subrange(i as int, to as int) =~= d);
            return None;
        }
        acc = acc * 10 + dv;
        j = j + 1;
    }
    assert(v@.subrange(i as int, to as int) =~= d);
    assert forall|q: int| 0 <= q < d.len() implies is_digit(#[trigger] d[q]) by {
        assert(d[q] == v@[i + q]);
    }
    Some(acc)
}

proof fn lemma_digits_value_grows(v: Seq<char>, i: int, j: int, to: int)
    requires
        0 <= i < j <= to <= v.len(),
        forall|k: int| i <= k < j ==> is_digit(#[trigger] v[k]),
        digits_value(v.subrange(i, j)) > u64::MAX,
    ensures
        (forall|k: int| i <= k < to ==> is_digit(#[trigger] v[k])) ==> digits_value(v.subrange(i, to)) > u64::MAX,
    decreases to - j,
{
    if j < to && (forall|k: int| i <= k < to ==> is_digit(#[trigger] v[k])) {
        assert(v.subrange(i, j + 1).drop_last() =~= v.subrange(i, j));
        lemma_digits_value_grows(v, i, j + 1, to);
    }
}

} // verus!

verus! {

/// Bytes `c` takes in UTF-8.
pub open spec fn utf8_width(c: char) -> int {
    let u = c as u32;
    if u < 0x80 {
        1
    } else if u < 0x800 {
        2
    } else if u < 0x10000 {
        3
    } else {
        4
    }
}

/// Bytes `s` takes in UTF-8 (what `str::len` reports).
pub open spec fn byte_len(s: Seq<char>) -> int
    decreases s.len(),
{
    if s.len() == 0 {
        0
    } else {
        byte_len(s.drop_last()) + utf8_width(s.last())
    }
}

pub fn utf8_width_of(c: char) -> (w: usize)
    ensures
        w == utf8_width(c),
{
    let u = c as u32;
    if u < 0x80 {
        1
    } else if u < 0x800 {
        2
    } else if u < 0x10000 {
        3
    } else {
        4
    }
}

pub proof fn lemma_byte_len_nonneg(s: Seq<char>)
    ensures
        byte_len(s) >= s.len(),
    decreases s.len(),
{
    if s.len() > 0 {
        lemma_byte_len_nonneg(s.drop_last());
    }
}

pub proof fn lemma_byte_len_concat(a: Seq<char>, b: Seq<char>)
    ensures
        byte_len(a + b) == byte_len(a) + byte_len(b),
    decreases b.len(),
{
    if b.len() > 0 {
        assert((a + b).drop_last() =~= a + b.drop_last());
        lemma_byte_len_concat(a, b.drop_last());
    } else {
        assert(a + b =~= a);
    }
}

pub proof fn lemma_byte_len_take_step(s: Seq<char>, i: int)
    requires
        0 <= i < s.len(),
    ensures
        byte_len(s.take(i + 1)) == byte_len(s.take(i)) + utf8_width(s[i]),
{
    assert(s.take(i + 1).drop_last() =~= s.take(i));
}

pub proof fn lemma_byte_len_split(s: Seq<char>, i: int)
    requires
        0 <= i <= s.len(),
    ensures
        byte_len(s) == byte_len(s.take(i)) + byte_len(s.skip(i)),
{
    assert(s =~= s.take(i) + s.skip(i));
    lemma_byte_len_concat(s.take(i), s.skip(i));
}

/// `byte_len` is the length of the UTF-8 encoding of `s`.
pub proof fn lemma_byte_len_is_utf8_len(s: Seq<char>)
    ensures
        byte_len(s) == vstd::utf8::encode_utf8(s).len(),
    decreases s.len(),
{
    if s.len() > 0 {
        lemma_byte_len_is_utf8_len(s.drop_first());
        lemma_byte_len_split(s, 1);
        assert(s.take(1).drop_last() =~= Seq::<char>::empty());
        assert(s.skip(1) =~= s.drop_first());
        vstd::utf8::char_is_scalar(s[0]);
        let u = s[0] as u32;
        assert(vstd::utf8::encode_scalar(u).len() == utf8_width(s[0]));
        assert(byte_len(s.take(1)) == utf8_width(s[0])) by {
            assert(s.take(1).last() == s[0]);
            assert(byte_len(s.take(1).drop_last()) == 0);
        }
        assert(vstd::utf8::encode_utf8(s) == vstd::utf8::encode_scalar(u) + vstd::utf8::encode_utf8(s.drop_first()));
    }
}

/// Byte length of `v[..]`.
pub fn byte_len_of(v: &Vec<char>) -> (n: u128)
    ensures
        n == byte_len(v@),
{
    let mut n: u128 = 0;
    let mut i: usize = 0;
    while i < v.len()
        invariant
            i <= v.len(),
            n == byte_len(v@.take(i as int)),
            n <= 4 * i,
        decreases v.len() - i,
    {
        proof {
            lemma_byte_len_take_step(v@, i as int);
        }
        n = n + utf8_width_of(v[i]) as u128;
        i = i + 1;
    }
    assert(v@.take(v.len() as int) =~= v@);
    n
}

/// Are `a` and `b` the same characters?
pub fn eq_chars(a: &Vec<char>, b: &Vec<char>) -> (r: bool)
    ensures
        r == (a@ == b@),
{
    if a.len() != b.len() {
        return false;
    }
    let mut i: usize = 0;
    while i < a.len()
        invariant
            a.len() == b.len(),
            i <= a.len(),
            forall|k: int| 0 <= k < i ==> a@[k] == b@[k],
        decreases a.len() - i,
    {
        if a[i] != b[i] {
            return false;
        }
        i = i + 1;
    }
    assert(a@ =~= b@);
    true
}

/// `a` followed by `b`, as characters.
pub fn append_chars(a: &mut Vec<char>, b: &Vec<char>)
    ensures
        final(a)@ == old(a)@ + b@,
{
    let mut i: usize = 0;
    while i < b.len()
        invariant
            i <= b.len(),
            a@ == old(a)@ + b@.take(i as int),
        decreases b.len() - i,
    {
        a.push(b[i]);
        i = i + 1;
        assert(a@ =~= old(a)@ + b@.take(i as int));
    }
    assert(b@.take(b.len() as int) =~= b@);
}

/// The characters `v[from..to]`.
pub fn slice_chars(v: &Vec<char>, from: usize, to: usize) -> (r: Vec<char>)
    requires
        from <= to <= v.len(),
    ensures
        r@ == v@.subrange(from as int, to as int),
{
    let mut r: Vec<char> = Vec::new();
    let mut i = from;
    while i < to
        invariant
            from <= i <= to <= v.len(),
            r@ == v@.subrange(from as int, i as int),
        decreases to - i,
    {
        r.push(v[i]);
        i = i + 1;
        assert(r@ =~= v@.subrange(from as int, i as int));
    }
    r
}

} // verus!

verus! {

/// Position of the first `c` in `s`, or `s.len()` when there is none.
pub open spec fn index_of(s: Seq<char>, c: char) -> int
    decreases s.len(),
{
    if s.len() == 0 {
        0
    } else if s[0] == c {
        0
    } else {
        1 + index_of(s.drop_first(), c)
    }
}

pub proof fn lemma_index_of(s: Seq<char>, c: char)
    ensures
        0 <= index_of(s, c) <= s.len(),
        forall|i: int| 0 <= i < index_of(s, c) ==> s[i] != c,
        index_of(s, c) < s.len() ==> s[index_of(s, c)] == c,
    decreases s.len(),
{
    if s.len() > 0 && s[0] != c {
        lemma_index_of(s.drop_first(), c);
        assert forall|i: int| 0 <= i < index_of(s, c) implies s[i] != c by {
            if i > 0 {
                assert(s[i] == s.drop_first()[i - 1]);
            }
        }
    }
}

pub proof fn lemma_index_of_unique(s: Seq<char>, c: char, n: int)
    requires
        0 <= n <= s.len(),
        forall|i: int| 0 <= i < n ==> s[i] != c,
        n < s.len() ==> s[n] == c,
    ensures
        index_of(s, c) == n,
    decreases s.len(),
{
    if s.len() > 0 && n > 0 {
        assert forall|i: int| 0 <= i < n - 1 implies s.drop_first()[i] != c by {
            assert(s.drop_first()[i] == s[i + 1]);
        }
        if n < s.len() {
            assert(s.drop_first()[n - 1] == s[n]);
        }
        assert(s[0] != c);
        lemma_index_of_unique(s.drop_first(), c, n - 1);
    }
}

/// First position `>= from` of `c` in `v`, or `v.len()`.
pub fn find_char(v: &Vec<char>, from: usize, c: char) -> (r: usize)
    requires
        from <= v.len(),
    ensures
        r == from + index_of(v@.skip(from as int), c),
        from <= r <= v.len(),
{
    let mut j = from;
    while j < v.len() && v[j] != c
        invariant
            from <= j <= v.len(),
            forall|i: int| from <= i < j ==> v@[i] != c,
        decreases v.len() - j,
    {
        j = j + 1;
    }
    proof {
        let t = v@.skip(from as int);
        assert forall|i: int| 0 <= i < j - from implies t[i] != c by {
            assert(t[i] == v@[from + i]);
        }
        if j < v.len() {
            assert(t[j - from] == v@[j as int]);
        }
        lemma_index_of_unique(t, c, j - from);
    }
    j
}

} // verus!

verus! {

/// `s` holds a whitespace character.
pub open spec fn has_ws(s: Seq<char>) -> bool {
    exists|i: int| 0 <= i < s.len() && is_ws(#[trigger] s[i])
}

} // verus!
