//! Names around the single `.mdm.part` file every segment writes into:
//! where it lives, and the `name (n).ext` names tried when a name is taken.
use vstd::prelude::*;

use crate::text::{
    append_chars, chars_of, concat, decimal, decimal_string, lemma_decimal_injective,
    lemma_decimal_shape, lemma_trail_count_bounds, lemma_trail_count_unique, string_of,
    string_of_range, trail_count,
};

verus! {

/// Suffix of an in-progress download.
pub const PART_SUFFIX: &'static str = ".mdm.part";

/// Position of the dot that starts the extension, if any: the last dot,
/// unless it is the first character (dotfiles have no extension).
pub open spec fn ext_dot(name: Seq<char>) -> Option<int> {
    let n = trail_count(name, |c: char| c != '.');
    if n == name.len() || name.len() - 1 - n == 0 {
        None
    } else {
        Some(name.len() - 1 - n)
    }
}

/// `name` split into (stem, extension) on [`ext_dot`].
pub open spec fn split_ext_spec(name: Seq<char>) -> (Seq<char>, Seq<char>) {
    match ext_dot(name) {
        Some(i) => (name.take(i), name.skip(i)),
        None => (name, Seq::empty()),
    }
}

/// `stem (n).ext`.
pub open spec fn numbered_spec(name: Seq<char>, n: nat) -> Seq<char> {
    let (stem, ext) = split_ext_spec(name);
    stem + " ("@ + decimal(n) + ")"@ + ext
}

/// The `k`-th name tried for `name`: the name itself, then `name (1).ext`, `name (2).ext` ...
pub open spec fn candidate_spec(name: Seq<char>, k: nat) -> Seq<char> {
    if k == 0 {
        name
    } else {
        numbered_spec(name, k)
    }
}

/// The part-file name of a download named `name`.
pub open spec fn part_name_spec(name: Seq<char>) -> Seq<char> {
    name + ".mdm.part"@
}

/// Split `filename` into (stem, extension) on the last dot, unless that dot
/// is the first character (dotfiles have no extension).
pub fn split_ext(filename: &str) -> (r: (String, String))
    ensures
        r.0@ == split_ext_spec(filename@).0,
        r.1@ == split_ext_spec(filename@).1,
        r.0@ + r.1@ == filename@,
{
    let v = chars_of(filename);
    let ghost p = |c: char| c != '.';
    let mut j: usize = v.len();
    while j > 0 && v[j - 1] != '.'
        invariant
            j <= v.len(),
            forall|i: int| j <= i < v.len() ==> v@[i] != '.',
        decreases j,
    {
        j = j - 1;
    }
    proof {
        assert forall|i: int| v.len() - (v.len() - j) <= i < v.len() implies p(#[trigger] v@[i]) by {}
        lemma_trail_count_unique(v@, p, v.len() - j);
    }
    if j <= 1 {
        assert(filename@ + Seq::<char>::empty() =~= filename@);
        let whole = String::from_str(filename);
        return (whole, String::new());
    }
    let i = j - 1;
    let stem = string_of_range(&v, 0, i);
    let ext = string_of_range(&v, i, v.len());
    assert(v@.take(i as int) =~= v@.subrange(0, i as int));
    assert(v@.skip(i as int) =~= v@.subrange(i as int, v.len() as int));
    assert(stem@ + ext@ =~= filename@);
    (stem, ext)
}

/// `stem (n).ext` for a name clash, using the same split rule as [`split_ext`].
pub fn numbered_filename(filename: &str, n: u32) -> (r: String)
    ensures
        r@ == numbered_spec(filename@, n as nat),
{
    let (stem, ext) = split_ext(filename);
    let d = decimal_string(n as u64);
    let a = concat(stem.as_str(), " (");
    let b = concat(a.as_str(), d.as_str());
    let c = concat(b.as_str(), ")");
    concat(c.as_str(), ext.as_str())
}

/// The `k`-th name tried for `filename`: `filename` itself for 0, then
/// `name (k).ext`.
pub fn candidate_name(filename: &str, k: u32) -> (r: String)
    ensures
        r@ == candidate_spec(filename@, k as nat),
{
    if k == 0 {
        String::from_str(filename)
    } else {
        numbered_filename(filename, k)
    }
}

/// `<filename>.mdm.part`.
pub fn part_name(filename: &str) -> (r: String)
    ensures
        r@ == part_name_spec(filename@),
{
    concat(filename, PART_SUFFIX)
}

/// `std::path::Path::new(dir).join(name)`, as text.
pub uninterp spec fn path_joined(dir: Seq<char>, name: Seq<char>) -> Seq<char>;

/// No character of `n` separates path components or starts a drive prefix
/// (`/`, `\\`, `:`).
pub open spec fn plain_name(n: Seq<char>) -> bool {
    forall|i: int| 0 <= i < n.len() ==> #[trigger] n[i] != '/' && n[i] != '\\' && n[i] != ':'
}

/// A name that is one ordinary path component: not empty, not `.` or `..`,
/// and plain.
pub open spec fn single_component(n: Seq<char>) -> bool {
    n.len() > 0 && n != seq!['.'] && n != seq!['.', '.'] && plain_name(n)
}

/// `dir` joined with `name` (`std::path::Path::join`). A relative name of
/// one ordinary component is appended after a separator that depends on
/// `dir` alone, so within one `dir` no other such name joins to the same
/// path; `dir` and `name` are UTF-8, so `to_string_lossy` loses nothing.
#[verifier::external_body]
pub(crate) fn join_path(dir: &str, name: &str) -> (r: String)
    ensures
        r@ == path_joined(dir@, name@),
        single_component(name@) ==> forall|b: Seq<char>|
            single_component(b) && #[trigger] path_joined(dir@, b) == r@ ==> b == name@,
{
    std::path::Path::new(dir).join(name).to_string_lossy().into_owned()
}

/// Where the part file of a download named `name` in `dir` lives.
pub open spec fn part_path_spec(dir: Seq<char>, name: Seq<char>) -> Seq<char> {
    path_joined(dir, part_name_spec(name))
}

/// Within `dir`, no other plain name has the part path of `name`.
pub open spec fn part_path_pinned(dir: Seq<char>, name: Seq<char>) -> bool {
    forall|b: Seq<char>|
        plain_name(b) && #[trigger] part_path_spec(dir, b) == part_path_spec(dir, name) ==> b == name
}

proof fn lemma_part_name_component(n: Seq<char>)
    requires
        plain_name(n),
    ensures
        single_component(part_name_spec(n)),
{
    reveal_strlit(".mdm.part");
    let p = part_name_spec(n);
    assert(p.len() == n.len() + 9);
    assert forall|i: int| 0 <= i < p.len() implies #[trigger] p[i] != '/' && p[i] != '\\' && p[i] != ':' by {
        if i >= n.len() {
            assert(p[i] == ".mdm.part"@[i - n.len()]);
        } else {
            assert(p[i] == n[i]);
        }
    }
}

/// `<dir>/<filename>.mdm.part`.
pub fn part_path(dir: &str, filename: &str) -> (r: String)
    ensures
        r@ == part_path_spec(dir@, filename@),
        plain_name(filename@) ==> part_path_pinned(dir@, filename@),
{
    let n = part_name(filename);
    let r = join_path(dir, n.as_str());
    proof {
        if plain_name(filename@) {
            lemma_part_name_component(filename@);
            assert forall|b: Seq<char>|
                plain_name(b) && #[trigger] part_path_spec(dir@, b) == part_path_spec(dir@, filename@) implies b
                == filename@ by {
                lemma_part_name_component(b);
                let pb = part_name_spec(b);
                assert(pb == n@);
                assert(b =~= pb.take(b.len() as int));
                assert(filename@ =~= n@.take(filename@.len() as int));
            }
        }
    }
    r
}

/// A plain name's candidates are plain.
pub proof fn lemma_candidate_plain(name: Seq<char>, k: nat)
    requires
        plain_name(name),
    ensures
        plain_name(candidate_spec(name, k)),
{
    if k > 0 {
        reveal_strlit(" (");
        reveal_strlit(")");
        lemma_decimal_shape(k);
        let (stem, ext) = split_ext_spec(name);
        assert(stem + ext =~= name) by {
            match ext_dot(name) {
                Some(i) => {
                    lemma_trail_count_bounds(name, |c: char| c != '.');
                    assert(name.take(i) + name.skip(i) =~= name);
                },
                None => {},
            }
        }
        let c = candidate_spec(name, k);
        let a = stem + " ("@;
        let b = a + decimal(k);
        let d = b + ")"@;
        assert(c == d + ext);
        assert forall|i: int| 0 <= i < c.len() implies #[trigger] c[i] != '/' && c[i] != '\\' && c[i] != ':' by {
            if i < stem.len() {
                assert(c[i] == name[i]);
            } else if i < a.len() {
            } else if i < b.len() {
                assert(c[i] == decimal(k)[i - a.len()]);
            } else if i < d.len() {
            } else {
                assert(c[i] == ext[i - d.len()]);
                assert(c[i] == name[stem.len() + (i - d.len())]);
            }
        }
    }
}

/// The names tried for one download are all different.
pub proof fn lemma_candidates_differ(name: Seq<char>, i: nat, j: nat)
    requires
        i < j,
    ensures
        candidate_spec(name, i) != candidate_spec(name, j),
{
    reveal_strlit(" (");
    reveal_strlit(")");
    lemma_decimal_shape(i);
    lemma_decimal_shape(j);
    let (stem, ext) = split_ext_spec(name);
    assert(stem.len() + ext.len() == name.len()) by {
        match ext_dot(name) {
            Some(x) => {
                lemma_trail_count_bounds(name, |c: char| c != '.');
            },
            None => {},
        }
    }
    let cj = candidate_spec(name, j);
    if i == 0 {
        assert(cj.len() > name.len());
    } else {
        let ci = candidate_spec(name, i);
        assert(ci == stem + " ("@ + decimal(i) + ")"@ + ext);
        assert(cj == stem + " ("@ + decimal(j) + ")"@ + ext);
        if ci == cj {
            let lo = stem.len() + 2;
            assert(decimal(i).len() == decimal(j).len());
            assert(decimal(i) =~= ci.subrange(lo as int, lo + decimal(i).len() as int));
            assert(decimal(j) =~= cj.subrange(lo as int, lo + decimal(j).len() as int));
            lemma_decimal_injective(i, j);
        }
    }
}

} // verus!
