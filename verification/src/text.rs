//! Character classes and the few operations on string slices that the
//! protocol relies on, with what each of them computes.
use vstd::prelude::*;

verus! {

/// The Unicode `White_Space` property: the characters that `char::is_whitespace`
/// accepts and that `str::trim` removes.
pub open spec fn is_white_space(c: char) -> bool {
    let u = c as u32;
    ||| 0x09 <= u <= 0x0D
    ||| u == 0x20
    ||| u == 0x85
    ||| u == 0xA0
    ||| u == 0x1680
    ||| 0x2000 <= u <= 0x200A
    ||| u == 0x2028
    ||| u == 0x2029
    ||| u == 0x202F
    ||| u == 0x205F
    ||| u == 0x3000
}

/// `s` with its leading white space removed.
pub open spec fn trim_start(s: Seq<char>) -> Seq<char>
    decreases s.len(),
{
    if s.len() > 0 && is_white_space(s[0]) {
        trim_start(s.drop_first())
    } else {
        s
    }
}

/// `s` with its trailing white space removed.
pub open spec fn trim_end(s: Seq<char>) -> Seq<char>
    decreases s.len(),
{
    if s.len() > 0 && is_white_space(s.last()) {
        trim_end(s.drop_last())
    } else {
        s
    }
}

/// `s` with white space removed at both ends.
pub open spec fn trimmed(s: Seq<char>) -> Seq<char> {
    trim_end(trim_start(s))
}

/// `s` begins with `prefix`.
pub open spec fn has_prefix(s: Seq<char>, prefix: Seq<char>) -> bool {
    prefix.len() <= s.len() && s.subrange(0, prefix.len() as int) == prefix
}

/// The code of `c` once an ASCII upper-case letter is turned into its
/// lower-case letter; every other character keeps its code.
pub open spec fn ascii_lower_code(c: char) -> int {
    if 'A' <= c <= 'Z' {
        c as int + 32
    } else {
        c as int
    }
}

/// `a` and `b` are the same character when ASCII letter case is ignored.
pub open spec fn eq_ignore_ascii_case(a: char, b: char) -> bool {
    ascii_lower_code(a) == ascii_lower_code(b)
}

/// Trimming the front removes exactly the white space before the first other
/// character: the result is `s` after `k` characters, all of them white space,
/// and the result starts with a character that is not white space.
pub proof fn law_trim_start(s: Seq<char>) -> (k: int)
    ensures
        0 <= k <= s.len(),
        trim_start(s) == s.skip(k),
        forall|j: int| 0 <= j < k ==> is_white_space(#[trigger] s[j]),
        k < s.len() ==> !is_white_space(s[k]),
    decreases s.len(),
{
    if s.len() > 0 && is_white_space(s[0]) {
        let rest = s.drop_first();
        let k1 = law_trim_start(rest);
        assert(rest.skip(k1) =~= s.skip(k1 + 1));
        assert forall|j: int| 0 <= j < k1 + 1 implies is_white_space(#[trigger] s[j]) by {
            if j > 0 {
                assert(s[j] == rest[j - 1]);
            }
        }
        if k1 + 1 < s.len() {
            assert(s[k1 + 1] == rest[k1]);
        }
        k1 + 1
    } else {
        assert(s.skip(0) =~= s);
        0
    }
}

/// Trimming the back removes exactly the white space after the last other
/// character: the result is the first `l` characters of `s`, those after it
/// are all white space, and the result ends with a character that is not.
pub proof fn law_trim_end(s: Seq<char>) -> (l: int)
    ensures
        0 <= l <= s.len(),
        trim_end(s) == s.take(l),
        forall|j: int| l <= j < s.len() ==> is_white_space(#[trigger] s[j]),
        l > 0 ==> !is_white_space(s[l - 1]),
    decreases s.len(),
{
    if s.len() > 0 && is_white_space(s.last()) {
        let rest = s.drop_last();
        let l1 = law_trim_end(rest);
        assert(rest.take(l1) =~= s.take(l1));
        assert forall|j: int| l1 <= j < s.len() implies is_white_space(#[trigger] s[j]) by {
            if j < s.len() - 1 {
                assert(s[j] == rest[j]);
            }
        }
        if l1 > 0 {
            assert(s[l1 - 1] == rest[l1 - 1]);
        }
        l1
    } else {
        assert(s.take(s.len() as int) =~= s);
        s.len() as int
    }
}

/// Trimming keeps exactly the stretch of `s` from its first to its last
/// character that is not white space: everything outside is white space, and
/// the stretch, when not empty, starts and ends with such a character.
pub proof fn law_trimmed(s: Seq<char>) -> (bounds: (int, int))
    ensures
        0 <= bounds.0 <= bounds.1 <= s.len(),
        trimmed(s) == s.subrange(bounds.0, bounds.1),
        forall|j: int|
            0 <= j < s.len() && !(bounds.0 <= j < bounds.1) ==> is_white_space(#[trigger] s[j]),
        bounds.0 < bounds.1 ==> !is_white_space(s[bounds.0]) && !is_white_space(s[bounds.1 - 1]),
{
    let k = law_trim_start(s);
    let rest = s.skip(k);
    let l = law_trim_end(rest);
    assert(rest.take(l) =~= s.subrange(k, k + l));
    assert forall|j: int|
        0 <= j < s.len() && !(k <= j < k + l) implies is_white_space(#[trigger] s[j]) by {
        if j >= k + l {
            assert(s[j] == rest[j - k]);
        }
    }
    if l > 0 {
        assert(s[k] == rest[0]);
        assert(s[k + l - 1] == rest[l - 1]);
    }
    (k, k + l)
}

/// White space added around a stretch that starts and ends with other
/// characters is exactly what trimming takes away.
pub proof fn law_trimmed_padding(before: Seq<char>, middle: Seq<char>, after: Seq<char>)
    requires
        forall|j: int| 0 <= j < before.len() ==> is_white_space(#[trigger] before[j]),
        forall|j: int| 0 <= j < after.len() ==> is_white_space(#[trigger] after[j]),
        middle.len() > 0,
        !is_white_space(middle[0]),
        !is_white_space(middle.last()),
    ensures
        trimmed(before + middle + after) == middle,
{
    let s = before + middle + after;
    let b = law_trimmed(s);
    let (lo, hi) = b;
    assert(s[before.len() as int] == middle[0]);
    assert(s[before.len() + middle.len() - 1] == middle.last());
    assert(lo <= before.len()) by {
        if lo > before.len() {
            assert(!(lo <= before.len() as int && (before.len() as int) < hi));
        }
    }
    assert(hi >= before.len() + middle.len()) by {
        if hi < before.len() + middle.len() {
            let j = before.len() + middle.len() - 1;
            assert(!(lo <= j && j < hi));
        }
    }
    if lo < before.len() {
        assert(s[lo] == before[lo]);
    }
    if hi > before.len() + middle.len() {
        assert(s[hi - 1] == after[hi - 1 - before.len() - middle.len()]);
    }
    assert(s.subrange(lo, hi) =~= middle);
}

/// Two characters are the same when ASCII case is ignored exactly when they are
/// equal, or one is an ASCII upper-case letter and the other its lower-case
/// letter.
pub proof fn law_eq_ignore_ascii_case(a: char, b: char)
    ensures
        eq_ignore_ascii_case(a, b) <==> (a == b || ('A' <= a <= 'Z' && b as int == a as int + 32)
            || ('A' <= b <= 'Z' && a as int == b as int + 32)),
        eq_ignore_ascii_case(a, b) == eq_ignore_ascii_case(b, a),
{
}

/// Calls `char::is_whitespace`, which holds exactly of the characters with the
/// Unicode `White_Space` property.
#[verifier::external_body]
pub(crate) fn char_is_whitespace(c: char) -> (b: bool)
    ensures
        b == is_white_space(c),
{
    c.is_whitespace()
}

/// Calls `str::trim`, which removes leading and trailing `White_Space` characters.
#[verifier::external_body]
pub(crate) fn str_trim<'a>(s: &'a str) -> (t: &'a str)
    ensures
        t@ == trimmed(s@),
{
    s.trim()
}

/// Calls `str::strip_prefix` with a string pattern: the rest of `s` after
/// `prefix` when `s` begins with it, `None` otherwise.
#[verifier::external_body]
pub(crate) fn str_strip_prefix<'a>(s: &'a str, prefix: &str) -> (r: Option<&'a str>)
    ensures
        match r {
            Some(rest) => s@ == prefix@ + rest@,
            None => !has_prefix(s@, prefix@),
        },
{
    s.strip_prefix(prefix)
}

} // verus!
