//! Picking a file name for a download and making it safe for every OS.
use vstd::prelude::*;

use crate::text::{
    find_char, index_of, lemma_index_of, lower_chars, lower_seq, trim_bounds, trim_ws,
    append_chars, byte_len, byte_len_of, chars_of, eq_chars, is_ctrl, is_ctrl_char, lead_count,
    lemma_byte_len_concat, lemma_byte_len_nonneg, lemma_byte_len_split, lemma_byte_len_take_step,
    lemma_lead_count_bounds, lemma_lead_count_unique, lemma_trail_count_bounds,
    lemma_trail_count_unique, slice_chars, string_of, trail_count, trim_by, upper, upper_char,
    upper_seq, utf8_width, utf8_width_of,
};

verus! {

/// Used when neither the server nor the URL names the file.
pub const DEFAULT_FILENAME: &'static str = "download.bin";

/// Longest name we produce, in bytes (Windows and most Linux FS allow 255).
pub const MAX_FILENAME_BYTES: usize = 200;

/// An extension is the part from a dot within this many final bytes.
pub const MAX_EXTENSION_BYTES: usize = 20;

/// Characters no file system accepts in a name.
pub open spec fn is_separator(c: char) -> bool {
    c == '/' || c == '\\' || c == ':' || c == '*' || c == '?' || c == '"' || c == '<' || c == '>'
        || c == '|'
}

/// A character as it may stand in a name: separators and control
/// characters become `_`.
pub open spec fn safe_char(c: char) -> char {
    if is_separator(c) || is_ctrl(c) {
        '_'
    } else {
        c
    }
}

pub open spec fn dot_or_space(c: char) -> bool {
    c == '.' || c == ' '
}

/// The text before the first dot.
pub open spec fn first_component(s: Seq<char>) -> Seq<char> {
    s.take(lead_count(s, |c: char| c != '.'))
}

/// A Windows reserved device name (compared in upper case).
#[verifier::opaque]
pub open spec fn is_reserved(stem: Seq<char>) -> bool {
    ||| stem == "CON"@
    ||| stem == "PRN"@
    ||| stem == "AUX"@
    ||| stem == "NUL"@
    ||| stem == "COM1"@
    ||| stem == "COM2"@
    ||| stem == "COM3"@
    ||| stem == "COM4"@
    ||| stem == "COM5"@
    ||| stem == "COM6"@
    ||| stem == "COM7"@
    ||| stem == "COM8"@
    ||| stem == "COM9"@
    ||| stem == "LPT1"@
    ||| stem == "LPT2"@
    ||| stem == "LPT3"@
    ||| stem == "LPT4"@
    ||| stem == "LPT5"@
    ||| stem == "LPT6"@
    ||| stem == "LPT7"@
    ||| stem == "LPT8"@
    ||| stem == "LPT9"@
}

/// The first position from `i` on holding a dot within the last
/// [`MAX_EXTENSION_BYTES`] bytes, or `name.len()` when there is none.
pub open spec fn ext_start_from(name: Seq<char>, i: int) -> int
    decreases name.len() - i,
{
    if i >= name.len() || i < 0 {
        name.len() as int
    } else if name[i] == '.' && byte_len(name.skip(i)) <= MAX_EXTENSION_BYTES {
        i
    } else {
        ext_start_from(name, i + 1)
    }
}

/// Leading characters of `s` whose UTF-8 bytes fit in `cap`.
pub open spec fn fitting_prefix(s: Seq<char>, cap: int) -> int
    decreases s.len(),
{
    if s.len() > 0 && utf8_width(s[0]) <= cap {
        1 + fitting_prefix(s.drop_first(), cap - utf8_width(s[0]))
    } else {
        0
    }
}

/// Cut a long name to [`MAX_FILENAME_BYTES`] on a character boundary,
/// keeping its extension (everything after the first dot in the last
/// [`MAX_EXTENSION_BYTES`] bytes, if any).
#[verifier::opaque]
pub open spec fn truncate_spec(name: Seq<char>) -> Seq<char> {
    let k = ext_start_from(name, 0);
    let stem = name.take(k);
    let ext = name.skip(k);
    let room = MAX_FILENAME_BYTES - byte_len(ext);
    let budget = if room >= 1 { room } else { 1 };
    let cap = if budget < byte_len(stem) { budget } else { byte_len(stem) };
    stem.take(fitting_prefix(stem, cap)) + ext
}

/// What [`sanitize`] makes of a name: separators and control characters
/// replaced by `_`; leading and trailing dots and spaces removed; an empty
/// result becomes [`DEFAULT_FILENAME`]; a Windows reserved device name gets
/// a leading `_`; a name longer than [`MAX_FILENAME_BYTES`] bytes is cut
/// keeping its extension, and the dots and spaces the cut leaves at its end
/// are removed.
pub open spec fn sanitize_spec(name: Seq<char>) -> Seq<char> {
    let out = trim_by(name.map_values(|c: char| safe_char(c)), |c: char| dot_or_space(c));
    if out.len() == 0 {
        DEFAULT_FILENAME@
    } else {
        let out2 = if is_reserved(upper_seq(first_component(out))) {
            seq!['_'] + out
        } else {
            out
        };
        if byte_len(out2) > MAX_FILENAME_BYTES {
            trim_by(truncate_spec(out2), |c: char| dot_or_space(c))
        } else {
            out2
        }
    }
}

/// `name` holds no separator and no control character.
pub open spec fn no_unsafe_chars(name: Seq<char>) -> bool {
    forall|i: int| 0 <= i < name.len() ==> !is_separator(#[trigger] name[i]) && !is_ctrl(name[i])
}

proof fn lemma_byte_len_one(c: char)
    ensures
        byte_len(seq![c]) == utf8_width(c),
        1 <= utf8_width(c) <= 4,
{
    assert(seq![c].drop_last() =~= Seq::<char>::empty());
    assert(seq![c].last() == c);
    assert(byte_len(seq![c].drop_last()) == 0);
}

proof fn lemma_fitting_prefix(s: Seq<char>, cap: int)
    requires
        cap >= 0,
    ensures
        0 <= fitting_prefix(s, cap) <= s.len(),
        byte_len(s.take(fitting_prefix(s, cap))) <= cap,
        fitting_prefix(s, cap) < s.len() ==> byte_len(s.take(fitting_prefix(s, cap) + 1)) > cap,
    decreases s.len(),
{
    let n = fitting_prefix(s, cap);
    if s.len() > 0 {
        lemma_byte_len_one(s[0]);
    }
    if s.len() > 0 && utf8_width(s[0]) <= cap {
        let t = s.drop_first();
        let c2 = cap - utf8_width(s[0]);
        lemma_fitting_prefix(t, c2);
        assert(n == 1 + fitting_prefix(t, c2));
        assert(s.take(n) =~= seq![s[0]] + t.take(n - 1));
        lemma_byte_len_concat(seq![s[0]], t.take(n - 1));
        if n < s.len() {
            assert(s.take(n + 1) =~= seq![s[0]] + t.take(n));
            lemma_byte_len_concat(seq![s[0]], t.take(n));
        }
    } else if s.len() > 0 {
        assert(n == 0);
        assert(s.take(1) =~= seq![s[0]]);
        assert(s.take(0) =~= Seq::<char>::empty());
    } else {
        assert(s.take(0) =~= Seq::<char>::empty());
    }
}

/// The prefix of `s` that [`fitting_prefix`] counts, computed greedily.
fn fitting_prefix_len(s: &Vec<char>, cap: u128) -> (n: usize)
    ensures
        n == fitting_prefix(s@, cap as int),
{
    let mut n: usize = 0;
    let mut left: u128 = cap;
    assert(s@.skip(0) =~= s@);
    while n < s.len() && utf8_width_of(s[n]) as u128 <= left
        invariant
            n <= s.len(),
            fitting_prefix(s@, cap as int) == n + fitting_prefix(s@.skip(n as int), left as int),
        decreases s.len() - n,
    {
        proof {
            assert(s@.skip(n as int).drop_first() =~= s@.skip(n + 1));
            assert(s@.skip(n as int)[0] == s@[n as int]);
        }
        left = left - utf8_width_of(s[n]) as u128;
        n = n + 1;
    }
    proof {
        if n < s.len() {
            assert(s@.skip(n as int)[0] == s@[n as int]);
        }
    }
    n
}

/// `name` with separators and control characters replaced by `_`.
fn replace_unsafe(name: &str) -> (m: Vec<char>)
    ensures
        m@ == name@.map_values(|c: char| safe_char(c)),
{
    let v = chars_of(name);
    let mut m: Vec<char> = Vec::new();
    let mut i: usize = 0;
    while i < v.len()
        invariant
            v@ == name@,
            i <= v.len(),
            m@ =~= name@.take(i as int).map_values(|c: char| safe_char(c)),
        decreases v.len() - i,
    {
        let c = v[i];
        let is_sep = c == '/' || c == '\\' || c == ':' || c == '*' || c == '?' || c == '"' || c
            == '<' || c == '>' || c == '|';
        m.push(if is_sep || is_ctrl_char(c) { '_' } else { c });
        i = i + 1;
        assert(name@.take(i as int).map_values(|c: char| safe_char(c)) =~= name@.take(
            (i - 1) as int,
        ).map_values(|c: char| safe_char(c)).push(safe_char(name@[i - 1])));
    }
    assert(name@.take(v.len() as int) =~= name@);
    m
}

/// `m` without leading and trailing dots and spaces.
fn trim_dots_spaces(m: &Vec<char>) -> (out: Vec<char>)
    ensures
        out@ == trim_by(m@, |c: char| dot_or_space(c)),
        out.len() <= m.len(),
        no_unsafe_chars(m@) ==> no_unsafe_chars(out@),
{
    let ghost p = |c: char| dot_or_space(c);
    let mut a: usize = 0;
    while a < m.len() && (m[a] == '.' || m[a] == ' ')
        invariant
            a <= m.len(),
            forall|k: int| 0 <= k < a ==> dot_or_space(#[trigger] m@[k]),
        decreases m.len() - a,
    {
        a = a + 1;
    }
    proof {
        lemma_lead_count_unique(m@, p, a as int);
    }
    if a == m.len() {
        return Vec::new();
    }
    let mut b: usize = m.len();
    while b > a && (m[b - 1] == '.' || m[b - 1] == ' ')
        invariant
            a < m.len(),
            !dot_or_space(m@[a as int]),
            a <= b <= m.len(),
            forall|k: int| b <= k < m.len() ==> dot_or_space(#[trigger] m@[k]),
        decreases b,
    {
        b = b - 1;
    }
    proof {
        lemma_trail_count_unique(m@, p, m.len() - b);
        if no_unsafe_chars(m@) {
            lemma_no_unsafe_sub(m@, a as int, b as int);
        }
    }
    slice_chars(m, a, b)
}

/// `out` with a leading `_` when its first component is a reserved device name.
fn mark_reserved(out: &Vec<char>) -> (r: Vec<char>)
    ensures
        r@ == if is_reserved(upper_seq(first_component(out@))) {
            seq!['_'] + out@
        } else {
            out@
        },
        no_unsafe_chars(out@) ==> no_unsafe_chars(r@),
        r.len() <= out.len() + 1,
{
    let mut k: usize = 0;
    while k < out.len() && out[k] != '.'
        invariant
            k <= out.len(),
            forall|q: int| 0 <= q < k ==> out@[q] != '.',
        decreases out.len() - k,
    {
        k = k + 1;
    }
    proof {
        lemma_lead_count_unique(out@, |c: char| c != '.', k as int);
    }
    let mut stem: Vec<char> = Vec::new();
    let mut q: usize = 0;
    while q < k
        invariant
            k <= out.len(),
            q <= k,
            stem@ =~= upper_seq(out@.take(q as int)),
        decreases k - q,
    {
        stem.push(upper_char(out[q]));
        q = q + 1;
        assert(upper_seq(out@.take(q as int)) =~= upper_seq(out@.take((q - 1) as int)).push(
            upper(out@[q - 1]),
        ));
    }
    assert(stem@ == upper_seq(first_component(out@)));
    let reserved = reserved_name(&stem);
    let mut r: Vec<char> = Vec::new();
    if reserved {
        r.push('_');
    }
    append_chars(&mut r, out);
    proof {
        assert(!reserved ==> r@ =~= out@);
        if no_unsafe_chars(out@) {
            lemma_no_unsafe_prefix_underscore(out@, reserved);
        }
    }
    r
}

/// Make `name` safe: no path separators or control characters, no leading or
/// trailing dots and spaces, no Windows reserved device names, at most
/// [`MAX_FILENAME_BYTES`] (cut on a char boundary, keeping the extension).
pub fn sanitize(name: &str) -> (r: String)
    ensures
        r@ == sanitize_spec(name@),
        r@.len() > 0,
        byte_len(r@) <= MAX_FILENAME_BYTES,
        no_unsafe_chars(r@),
{
    let m = replace_unsafe(name);
    proof {
        lemma_no_unsafe_mapped(name@);
    }
    let out = trim_dots_spaces(&m);
    if out.len() == 0 {
        let r = String::from_str(DEFAULT_FILENAME);
        proof {
            reveal_strlit("download.bin");
            lemma_byte_len_small("download.bin"@);
        }
        return r;
    }
    let out2 = mark_reserved(&out);
    let len = byte_len_of(&out2);
    if len > MAX_FILENAME_BYTES as u128 {
        let t = truncate_keeping_extension(&out2);
        proof {
            lemma_trimmed_first(m@);
            if out2@ != out@ {
                assert(out2@[0] == '_');
            } else {
                assert(out2@[0] == out@[0]);
            }
            lemma_truncate_keeps_safe(out2@);
            lemma_truncate_first(out2@);
            lemma_trim_after_cut(t@);
        }
        let u = trim_dots_spaces(&t);
        return string_of(&u);
    }
    proof {
        lemma_byte_len_nonneg(out2@);
    }
    string_of(&out2)
}

proof fn lemma_byte_len_small(s: Seq<char>)
    requires
        s.len() <= 12,
        forall|i: int| 0 <= i < s.len() ==> (#[trigger] s[i] as u32) < 0x80,
    ensures
        byte_len(s) == s.len(),
    decreases s.len(),
{
    if s.len() > 0 {
        assert forall|i: int| 0 <= i < s.drop_last().len() implies (#[trigger] s.drop_last()[i] as u32) < 0x80 by {
            assert(s.drop_last()[i] == s[i]);
        }
        lemma_byte_len_small(s.drop_last());
    }
}

proof fn lemma_no_unsafe_mapped(s: Seq<char>)
    ensures
        no_unsafe_chars(s.map_values(|c: char| safe_char(c))),
{
}

proof fn lemma_no_unsafe_sub(s: Seq<char>, a: int, b: int)
    requires
        no_unsafe_chars(s),
        0 <= a <= b <= s.len(),
    ensures
        no_unsafe_chars(s.subrange(a, b)),
{
    assert forall|i: int| 0 <= i < b - a implies !is_separator(#[trigger] s.subrange(a, b)[i]) && !is_ctrl(s.subrange(a, b)[i]) by {
        assert(s.subrange(a, b)[i] == s[a + i]);
    }
}

proof fn lemma_no_unsafe_prefix_underscore(s: Seq<char>, add: bool)
    requires
        no_unsafe_chars(s),
    ensures
        no_unsafe_chars(if add { seq!['_'] + s } else { s }),
{
    if add {
        let t = seq!['_'] + s;
        assert forall|i: int| 0 <= i < t.len() implies !is_separator(#[trigger] t[i]) && !is_ctrl(t[i]) by {
            if i > 0 {
                assert(t[i] == s[i - 1]);
            }
        }
    }
}

proof fn lemma_truncate_keeps_safe(name: Seq<char>)
    requires
        no_unsafe_chars(name),
        name.len() > 0,
    ensures
        no_unsafe_chars(truncate_spec(name)),
        byte_len(truncate_spec(name)) <= MAX_FILENAME_BYTES,
        truncate_spec(name).len() > 0,
{
    reveal(truncate_spec);
    let k = ext_start_from(name, 0);
    lemma_ext_start_bounds(name, 0);
    let stem = name.take(k);
    let ext = name.skip(k);
    let room = MAX_FILENAME_BYTES - byte_len(ext);
    let budget = if room >= 1 { room } else { 1 };
    lemma_byte_len_nonneg(stem);
    let cap = if budget < byte_len(stem) { budget } else { byte_len(stem) };
    lemma_fitting_prefix(stem, cap);
    let f = fitting_prefix(stem, cap);
    let r = stem.take(f) + ext;
    assert forall|i: int| 0 <= i < r.len() implies !is_separator(#[trigger] r[i]) && !is_ctrl(r[i]) by {
        if i < f {
            assert(r[i] == name[i]);
        } else {
            assert(r[i] == name[k + i - f]);
        }
    }
    lemma_byte_len_concat(stem.take(f), ext);
    if k < name.len() {
        assert(byte_len(ext) <= MAX_EXTENSION_BYTES);
        assert(ext.len() > 0);
    } else {
        assert(ext.len() == 0);
        assert(byte_len(ext) == 0) by {
            assert(ext =~= Seq::<char>::empty());
        }
        // the whole name is the stem: at least its first character fits
        assert(stem =~= name);
        lemma_byte_len_split(stem, 1);
        assert(stem.take(1) =~= seq![stem[0]]);
        lemma_byte_len_one(stem[0]);
        lemma_byte_len_nonneg(stem.skip(1));
        assert(cap >= utf8_width(stem[0]));
        lemma_byte_len_nonneg(stem.drop_first());
        assert(f == 1 + fitting_prefix(stem.drop_first(), cap - utf8_width(stem[0])));
        lemma_fitting_prefix(stem.drop_first(), cap - utf8_width(stem[0]));
    }
}

/// A non-empty trimmed text starts with neither a dot nor a space.
proof fn lemma_trimmed_first(m: Seq<char>)
    requires
        trim_by(m, |c: char| dot_or_space(c)).len() > 0,
    ensures
        !dot_or_space(trim_by(m, |c: char| dot_or_space(c))[0]),
{
    let p = |c: char| dot_or_space(c);
    lemma_lead_count_bounds(m, p);
    lemma_trail_count_bounds(m, p);
    let a = lead_count(m, p);
    assert(a < m.len());
    assert(trim_by(m, p)[0] == m[a]);
}

/// A cut of a name longer than [`MAX_FILENAME_BYTES`] keeps its first
/// character: the stem is never cut to nothing.
proof fn lemma_truncate_first(name: Seq<char>)
    requires
        name.len() > 0,
        byte_len(name) > MAX_FILENAME_BYTES,
    ensures
        truncate_spec(name).len() > 0,
        truncate_spec(name)[0] == name[0],
{
    reveal(truncate_spec);
    let k = ext_start_from(name, 0);
    lemma_ext_start_bounds(name, 0);
    let stem = name.take(k);
    let ext = name.skip(k);
    lemma_byte_len_split(name, k);
    lemma_byte_len_nonneg(ext);
    lemma_byte_len_nonneg(stem);
    if k == name.len() {
        assert(ext =~= Seq::<char>::empty());
        assert(byte_len(ext) == 0);
    }
    assert(byte_len(ext) <= MAX_EXTENSION_BYTES);
    assert(byte_len(stem) > MAX_FILENAME_BYTES - MAX_EXTENSION_BYTES);
    assert(stem.len() > 0) by {
        if stem.len() == 0 {
            assert(byte_len(stem) == 0);
        }
    }
    let room = MAX_FILENAME_BYTES - byte_len(ext);
    let budget = if room >= 1 { room } else { 1 };
    let cap = if budget < byte_len(stem) { budget } else { byte_len(stem) };
    lemma_byte_len_one(stem[0]);
    assert(cap >= utf8_width(stem[0]));
    let f = fitting_prefix(stem, cap);
    assert(f == 1 + fitting_prefix(stem.drop_first(), cap - utf8_width(stem[0])));
    lemma_fitting_prefix(stem.drop_first(), cap - utf8_width(stem[0]));
    let r = stem.take(f) + ext;
    assert(r[0] == stem[0]);
    assert(stem[0] == name[0]);
}

/// Removing the dots and spaces a cut leaves keeps a name non-empty, safe
/// and within [`MAX_FILENAME_BYTES`].
proof fn lemma_trim_after_cut(t: Seq<char>)
    requires
        t.len() > 0,
        !dot_or_space(t[0]),
        no_unsafe_chars(t),
        byte_len(t) <= MAX_FILENAME_BYTES,
    ensures
        trim_by(t, |c: char| dot_or_space(c)).len() > 0,
        no_unsafe_chars(trim_by(t, |c: char| dot_or_space(c))),
        byte_len(trim_by(t, |c: char| dot_or_space(c))) <= MAX_FILENAME_BYTES,
{
    let p = |c: char| dot_or_space(c);
    lemma_lead_count_unique(t, p, 0);
    lemma_trail_count_bounds(t, p);
    let n = t.len() - trail_count(t, p);
    assert(n > 0) by {
        if n <= 0 {
            assert(p(t[0]));
        }
    }
    let r = trim_by(t, p);
    assert(r == t.subrange(0, n));
    assert(r =~= t.take(n));
    lemma_byte_len_split(t, n);
    lemma_byte_len_nonneg(t.skip(n));
    lemma_no_unsafe_sub(t, 0, n);
}

proof fn lemma_ext_start_bounds(name: Seq<char>, i: int)
    requires
        0 <= i <= name.len(),
    ensures
        i <= ext_start_from(name, i) <= name.len(),
        ext_start_from(name, i) < name.len() ==> name[ext_start_from(name, i)] == '.' && byte_len(
            name.skip(ext_start_from(name, i)),
        ) <= MAX_EXTENSION_BYTES,
    decreases name.len() - i,
{
    if i < name.len() && !(name[i] == '.' && byte_len(name.skip(i)) <= MAX_EXTENSION_BYTES) {
        lemma_ext_start_bounds(name, i + 1);
    }
}

/// Is `stem` (already upper case) a Windows reserved device name?
fn reserved_name(stem: &Vec<char>) -> (r: bool)
    ensures
        r == is_reserved(stem@),
{
    reveal(is_reserved);
    eq_chars(stem, &chars_of("CON")) || eq_chars(stem, &chars_of("PRN")) || eq_chars(
        stem,
        &chars_of("AUX"),
    ) || eq_chars(stem, &chars_of("NUL")) || eq_chars(stem, &chars_of("COM1")) || eq_chars(
        stem,
        &chars_of("COM2"),
    ) || eq_chars(stem, &chars_of("COM3")) || eq_chars(stem, &chars_of("COM4")) || eq_chars(
        stem,
        &chars_of("COM5"),
    ) || eq_chars(stem, &chars_of("COM6")) || eq_chars(stem, &chars_of("COM7")) || eq_chars(
        stem,
        &chars_of("COM8"),
    ) || eq_chars(stem, &chars_of("COM9")) || eq_chars(stem, &chars_of("LPT1")) || eq_chars(
        stem,
        &chars_of("LPT2"),
    ) || eq_chars(stem, &chars_of("LPT3")) || eq_chars(stem, &chars_of("LPT4")) || eq_chars(
        stem,
        &chars_of("LPT5"),
    ) || eq_chars(stem, &chars_of("LPT6")) || eq_chars(stem, &chars_of("LPT7")) || eq_chars(
        stem,
        &chars_of("LPT8"),
    ) || eq_chars(stem, &chars_of("LPT9"))
}

/// Cut `name` to [`MAX_FILENAME_BYTES`] keeping its extension.
fn truncate_keeping_extension(name: &Vec<char>) -> (r: Vec<char>)
    ensures
        r@ == truncate_spec(name@),
{
    reveal(truncate_spec);
    let total = byte_len_of(name);
    proof {
        assert(name@.take(0) =~= Seq::<char>::empty());
        lemma_byte_len_nonneg(name@);
    }
    // find the extension: the first dot within the last MAX_EXTENSION_BYTES bytes
    let mut i: usize = 0;
    let mut before: u128 = 0;
    while i < name.len() && !(name[i] == '.' && total - before <= MAX_EXTENSION_BYTES as u128)
        invariant
            total == byte_len(name@),
            i <= name.len(),
            before == byte_len(name@.take(i as int)),
            before <= total,
            ext_start_from(name@, 0) == ext_start_from(name@, i as int),
        decreases name.len() - i,
    {
        proof {
            lemma_byte_len_split(name@, i as int);
            lemma_byte_len_take_step(name@, i as int);
            lemma_byte_len_split(name@, i + 1);
            lemma_byte_len_nonneg(name@.skip(i + 1));
        }
        before = before + utf8_width_of(name[i]) as u128;
        i = i + 1;
    }
    proof {
        lemma_byte_len_split(name@, i as int);
        lemma_byte_len_nonneg(name@.skip(i as int));
    }
    proof {
        lemma_byte_len_split(name@, i as int);
    }
    let k = i;
    assert(k == ext_start_from(name@, 0));
    let stem = slice_chars(name, 0, k);
    let ext = slice_chars(name, k, name.len());
    assert(stem@ =~= name@.take(k as int));
    assert(ext@ =~= name@.skip(k as int));
    let ext_bytes = total - before;
    let budget: u128 = if ext_bytes < MAX_FILENAME_BYTES as u128 && MAX_FILENAME_BYTES as u128 - ext_bytes >= 1 {
        MAX_FILENAME_BYTES as u128 - ext_bytes
    } else {
        1
    };
    let cap = if budget < before { budget } else { before };
    let f = fitting_prefix_len(&stem, cap);
    proof {
        lemma_byte_len_nonneg(stem@);
        lemma_fitting_prefix(stem@, cap as int);
    }
    let mut r = slice_chars(&stem, 0, f);
    append_chars(&mut r, &ext);
    assert(stem@.subrange(0, f as int) =~= stem@.take(f as int));
    r
}

/// A URL's last path segment as `url::Url::path_segments` gives it (still
/// percent-encoded; [`percent_decoded`] decodes it); `None` when the URL
/// does not parse or has no path segments.
pub uninterp spec fn url_last_segment(url: Seq<char>) -> Option<Seq<char>>;

/// `percent_encoding::percent_decode_str(s).decode_utf8_lossy()`.
pub uninterp spec fn percent_decoded(s: Seq<char>) -> Seq<char>;

/// `url::Url::parse(url)`, then the last of `path_segments()`.
#[verifier::external_body]
fn last_path_segment(url: &str) -> (r: Option<String>)
    ensures
        r matches Some(s) ==> url_last_segment(url@) == Some(s@),
        r is None ==> url_last_segment(url@) is None,
{
    url::Url::parse(url).ok().and_then(|u| u.path_segments().and_then(|mut s| s.next_back().map(str::to_owned)))
}

/// `percent_encoding::percent_decode_str(s).decode_utf8_lossy()`.
#[verifier::external_body]
fn percent_decode(s: &str) -> (r: String)
    ensures
        r@ == percent_decoded(s@),
{
    percent_encoding::percent_decode_str(s).decode_utf8_lossy().into_owned()
}

/// `s` cut at every `sep` (`str::split`).
pub open spec fn pieces(s: Seq<char>, sep: char) -> Seq<Seq<char>>
    decreases s.len(),
{
    let n = index_of(s, sep);
    if n < 0 || n >= s.len() {
        seq![s]
    } else {
        seq![s.take(n)] + pieces(s.skip(n + 1), sep)
    }
}

/// One `key=value` parameter: the key trimmed and in lower case, the value
/// trimmed; `None` without an `=`.
pub open spec fn param_of(piece: Seq<char>) -> Option<(Seq<char>, Seq<char>)> {
    let e = index_of(piece, '=');
    if e < 0 || e >= piece.len() {
        None
    } else {
        Some((lower_seq(trim_ws(piece.take(e))), trim_ws(piece.skip(e + 1))))
    }
}

/// The value of the first parameter named `key` among `ps`.
pub open spec fn find_param(ps: Seq<Seq<char>>, key: Seq<char>) -> Option<Seq<char>>
    decreases ps.len(),
{
    if ps.len() == 0 {
        None
    } else {
        match param_of(ps[0]) {
            Some(kv) => if kv.0 == key {
                Some(kv.1)
            } else {
                find_param(ps.drop_first(), key)
            },
            None => find_param(ps.drop_first(), key),
        }
    }
}

/// The text after the last `'` (all of `s` when there is none).
pub open spec fn after_last_quote(s: Seq<char>) -> Seq<char> {
    s.skip(s.len() - trail_count(s, |x: char| x != '\''))
}

/// The file name a `Content-Disposition` value gives: RFC 5987
/// `filename*=charset'lang'percent-encoded` first (decoded), then
/// `filename=` (quotes trimmed); an empty name counts as none.
pub open spec fn disposition_name(cd: Seq<char>) -> Option<Seq<char>> {
    let ps = pieces(cd, ';').drop_first();
    let star = match find_param(ps, "filename*"@) {
        Some(v) => {
            let d = percent_decoded(after_last_quote(v));
            if d.len() > 0 { Some(d) } else { None }
        },
        None => None,
    };
    if star is Some {
        star
    } else {
        match find_param(ps, "filename"@) {
            Some(v) => {
                let t = trim_by(v, |c: char| c == '"');
                if t.len() > 0 { Some(t) } else { None }
            },
            None => None,
        }
    }
}

/// Where a download's name comes from: the `Content-Disposition` header,
/// then the URL's last path segment (percent-decoded), then
/// [`DEFAULT_FILENAME`]; always sanitised.
pub open spec fn filename_spec(content_disposition: Option<Seq<char>>, url: Seq<char>) -> Seq<char> {
    let from_cd = match content_disposition {
        Some(cd) => disposition_name(cd),
        None => None,
    };
    match from_cd {
        Some(name) => sanitize_spec(name),
        None => match url_last_segment(url) {
            Some(seg) => if seg.len() > 0 {
                sanitize_spec(percent_decoded(seg))
            } else {
                DEFAULT_FILENAME@
            },
            None => DEFAULT_FILENAME@,
        },
    }
}

/// In a `Content-Disposition` value, an RFC 5987 `filename*` that decodes
/// to a name wins over a plain `filename`; the plain one, with its quotes
/// trimmed, counts only when there is no such `filename*`; a header with
/// neither names no file.
pub proof fn the_encoded_name_wins(cd: Seq<char>)
    ensures
        ({
            let ps = pieces(cd, ';').drop_first();
            let star = find_param(ps, "filename*"@);
            let plain = find_param(ps, "filename"@);
            &&& star is Some && percent_decoded(after_last_quote(star->0)).len() > 0 ==> disposition_name(cd)
                == Some(percent_decoded(after_last_quote(star->0)))
            &&& !(star is Some && percent_decoded(after_last_quote(star->0)).len() > 0) && plain is Some
                && trim_by(plain->0, |c: char| c == '"').len() > 0 ==> disposition_name(cd) == Some(
                trim_by(plain->0, |c: char| c == '"'),
            )
            &&& star is None && plain is None ==> disposition_name(cd) is None
            &&& disposition_name(cd) is Some ==> disposition_name(cd)->0.len() > 0
        }),
{
}

/// A `Content-Disposition` header that names no file changes nothing:
/// the name is the one the URL alone gives.
pub proof fn a_header_without_a_name_is_ignored(cd: Seq<char>, url: Seq<char>)
    requires
        disposition_name(cd) is None,
    ensures
        filename_spec(Some(cd), url) == filename_spec(None, url),
{
}

/// A `Content-Disposition` header that names a file decides the name,
/// whatever the URL says.
pub proof fn a_named_header_wins(cd: Seq<char>, url: Seq<char>, other: Seq<char>)
    requires
        disposition_name(cd) is Some,
    ensures
        filename_spec(Some(cd), url) == sanitize_spec(disposition_name(cd)->0),
        filename_spec(Some(cd), url) == filename_spec(Some(cd), other),
{
}

/// Without a named header, a URL whose last path segment is not empty
/// names the file after that segment, percent-decoded; any other URL gets
/// [`DEFAULT_FILENAME`].
pub proof fn the_url_names_the_file_otherwise(url: Seq<char>)
    ensures
        url_last_segment(url) is Some && url_last_segment(url)->0.len() > 0 ==> filename_spec(None, url)
            == sanitize_spec(percent_decoded(url_last_segment(url)->0)),
        !(url_last_segment(url) is Some && url_last_segment(url)->0.len() > 0) ==> filename_spec(None, url)
            == DEFAULT_FILENAME@,
{
}

proof fn lemma_pieces_step(t: Seq<char>, sep: char)
    ensures
        index_of(t, sep) < t.len() ==> pieces(t, sep) == seq![t.take(index_of(t, sep))] + pieces(
            t.skip(index_of(t, sep) + 1),
            sep,
        ),
        index_of(t, sep) >= t.len() ==> pieces(t, sep) == seq![t],
{
    lemma_index_of(t, sep);
}

proof fn lemma_find_param_cons(x: Seq<char>, rest: Seq<Seq<char>>, key: Seq<char>)
    ensures
        find_param(seq![x] + rest, key) == match param_of(x) {
            Some(kv) => if kv.0 == key {
                Some(kv.1)
            } else {
                find_param(rest, key)
            },
            None => find_param(rest, key),
        },
{
    assert((seq![x] + rest).drop_first() =~= rest);
    assert((seq![x] + rest)[0] == x);
}

/// One parameter of `v[a..b]`, as [`param_of`] reads it.
fn param_at(v: &Vec<char>, a: usize, b: usize) -> (r: Option<(Vec<char>, Vec<char>)>)
    requires
        a <= b <= v.len(),
    ensures
        match param_of(v@.subrange(a as int, b as int)) {
            Some(kv) => r is Some && (r->0).0@ == kv.0 && (r->0).1@ == kv.1,
            None => r is None,
        },
{
    let ghost piece = v@.subrange(a as int, b as int);
    let piece_v = slice_chars(v, a, b);
    let e = find_char(&piece_v, 0, '=');
    assert(piece_v@.skip(0) =~= piece_v@);
    if e >= piece_v.len() {
        return None;
    }
    proof {
        lemma_index_of(piece, '=');
    }
    let k = slice_chars(&piece_v, 0, e);
    let (ka, kb) = trim_bounds(&k);
    let kt = slice_chars(&k, ka, kb);
    let key = lower_chars(&kt);
    let val_all = slice_chars(&piece_v, e + 1, piece_v.len());
    let (va, vb) = trim_bounds(&val_all);
    let val = slice_chars(&val_all, va, vb);
    assert(k@ =~= piece.take(e as int));
    assert(val_all@ =~= piece.skip(e + 1));
    Some((key, val))
}

/// `v[..]` without leading and trailing `"`.
fn trim_quotes(v: &Vec<char>) -> (r: Vec<char>)
    ensures
        r@ == trim_by(v@, |c: char| c == '"'),
{
    let ghost p = |c: char| c == '"';
    let mut a: usize = 0;
    while a < v.len() && v[a] == '"'
        invariant
            a <= v.len(),
            forall|k: int| 0 <= k < a ==> v@[k] == '"',
        decreases v.len() - a,
    {
        a = a + 1;
    }
    proof {
        lemma_lead_count_unique(v@, p, a as int);
    }
    if a == v.len() {
        return Vec::new();
    }
    let mut b: usize = v.len();
    while b > a && v[b - 1] == '"'
        invariant
            a < v.len(),
            v@[a as int] != '"',
            a <= b <= v.len(),
            forall|k: int| b <= k < v.len() ==> v@[k] == '"',
        decreases b,
    {
        b = b - 1;
    }
    proof {
        lemma_trail_count_unique(v@, p, v.len() - b);
    }
    slice_chars(v, a, b)
}

/// The text after the last `'` of `v` (all of it when there is none).
fn text_after_last_quote(v: &Vec<char>) -> (r: Vec<char>)
    ensures
        r@ == after_last_quote(v@),
{
    let ghost p = |x: char| x != '\'';
    let mut j: usize = v.len();
    while j > 0 && v[j - 1] != '\''
        invariant
            j <= v.len(),
            forall|k: int| j <= k < v.len() ==> v@[k] != '\'',
        decreases j,
    {
        j = j - 1;
    }
    proof {
        lemma_trail_count_unique(v@, p, v.len() - j);
        assert(v@.subrange(j as int, v.len() as int) =~= v@.skip(j as int));
    }
    slice_chars(v, j, v.len())
}

/// The first values of `filename*` and `filename` among the parameters of a
/// `Content-Disposition` value (everything after its first `;`).
fn disposition_params(cd: &Vec<char>) -> (r: (Option<Vec<char>>, Option<Vec<char>>))
    ensures
        match find_param(pieces(cd@, ';').drop_first(), "filename*"@) {
            Some(v) => r.0 is Some && r.0->0@ == v,
            None => r.0 is None,
        },
        match find_param(pieces(cd@, ';').drop_first(), "filename"@) {
            Some(v) => r.1 is Some && r.1->0@ == v,
            None => r.1 is None,
        },
{
    let key_star = chars_of("filename*");
    let key_plain = chars_of("filename");
    proof {
        reveal_strlit("filename*");
        reveal_strlit("filename");
        assert("filename*"@.len() != "filename"@.len());
    }
    let first = find_char(cd, 0, ';');
    proof {
        assert(cd@.skip(0) =~= cd@);
        lemma_pieces_step(cd@, ';');
    }
    if first >= cd.len() {
        assert(pieces(cd@, ';').drop_first() =~= Seq::<Seq<char>>::empty());
        return (None, None);
    }
    let ghost ps = pieces(cd@, ';').drop_first();
    assert(ps =~= pieces(cd@.skip(first + 1), ';'));
    let mut star: Option<Vec<char>> = None;
    let mut plain: Option<Vec<char>> = None;
    let mut pos: usize = first + 1;
    loop
        invariant
            pos <= cd.len(),
            key_star@ == "filename*"@,
            key_plain@ == "filename"@,
            "filename*"@ != "filename"@,
            ps == pieces(cd@, ';').drop_first(),
            find_param(ps, "filename*"@) == match star {
                Some(v) => Some(v@),
                None => find_param(pieces(cd@.skip(pos as int), ';'), "filename*"@),
            },
            find_param(ps, "filename"@) == match plain {
                Some(v) => Some(v@),
                None => find_param(pieces(cd@.skip(pos as int), ';'), "filename"@),
            },
        decreases cd.len() - pos,
    {
        let j = find_char(cd, pos, ';');
        let ghost t = cd@.skip(pos as int);
        proof {
            lemma_pieces_step(t, ';');
            lemma_index_of(t, ';');
            assert(t.take(j - pos) =~= cd@.subrange(pos as int, j as int));
            if j < cd.len() {
                assert(t.skip(j - pos + 1) =~= cd@.skip(j + 1));
                lemma_find_param_cons(t.take(j - pos), pieces(cd@.skip(j + 1), ';'), "filename*"@);
                lemma_find_param_cons(t.take(j - pos), pieces(cd@.skip(j + 1), ';'), "filename"@);
            } else {
                assert(t =~= t.take(j - pos));
                lemma_find_param_cons(t, Seq::empty(), "filename*"@);
                lemma_find_param_cons(t, Seq::empty(), "filename"@);
                assert(seq![t] + Seq::<Seq<char>>::empty() =~= seq![t]);
            }
        }
        let p = param_at(cd, pos, j);
        match p {
            Some((k, v)) => {
                if star.is_none() && eq_chars(&k, &key_star) {
                    star = Some(v);
                } else if plain.is_none() && eq_chars(&k, &key_plain) {
                    plain = Some(v);
                }
            },
            None => {},
        }
        if j >= cd.len() {
            proof {
                assert(find_param(Seq::<Seq<char>>::empty(), "filename*"@) is None);
                assert(find_param(Seq::<Seq<char>>::empty(), "filename"@) is None);
            }
            return (star, plain);
        }
        pos = j + 1;
    }
}

/// The file name a `Content-Disposition` value gives, if any.
pub fn from_content_disposition(cd: &str) -> (r: Option<String>)
    ensures
        match disposition_name(cd@) {
            Some(n) => r is Some && r->0@ == n,
            None => r is None,
        },
{
    let v = chars_of(cd);
    let (star, plain) = disposition_params(&v);
    if let Some(sv) = star {
        let enc = text_after_last_quote(&sv);
        let decoded = percent_decode(string_of(&enc).as_str());
        if decoded.unicode_len() > 0 {
            return Some(decoded);
        }
    }
    if let Some(pv) = plain {
        let t = trim_quotes(&pv);
        if t.len() > 0 {
            return Some(string_of(&t));
        }
    }
    None
}

/// Resolve a file name: `Content-Disposition` (`filename*`, then `filename`),
/// then the URL's last path segment, then [`DEFAULT_FILENAME`]. Always sanitised.
pub fn filename_from(content_disposition: Option<&str>, url: &str) -> (r: String)
    ensures
        r@ == filename_spec(
            match content_disposition {
                Some(cd) => Some(cd@),
                None => None,
            },
            url@,
        ),
{
    if let Some(cd) = content_disposition {
        if let Some(name) = from_content_disposition(cd) {
            return sanitize(name.as_str());
        }
    }
    match last_path_segment(url) {
        Some(seg) => {
            if seg.unicode_len() > 0 {
                let decoded = percent_decode(seg.as_str());
                sanitize(decoded.as_str())
            } else {
                String::from_str(DEFAULT_FILENAME)
            }
        },
        None => String::from_str(DEFAULT_FILENAME),
    }
}

} // verus!
