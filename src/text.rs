use vstd::prelude::*;
use vstd::string::*;

verus! {

/// `c` with `A-Z` mapped to `a-z`; every other character unchanged.
pub open spec fn ascii_lower_char(c: char) -> char {
    if 0x41 <= (c as u32) <= 0x5a {
        (((c as u32) + 32) as u32) as char
    } else {
        c
    }
}

/// `s` with its ASCII upper-case letters made lower-case.
pub open spec fn ascii_lower(s: Seq<char>) -> Seq<char> {
    Seq::new(s.len(), |i: int| ascii_lower_char(s[i]))
}

/// Lower-casing twice is lower-casing once.
pub proof fn lemma_ascii_lower_idempotent(s: Seq<char>)
    ensures
        ascii_lower(ascii_lower(s)) == ascii_lower(s),
{
    assert forall|i: int| 0 <= i < s.len() implies #[trigger] ascii_lower_char(ascii_lower_char(s[i]))
        == ascii_lower_char(s[i]) by {
        let c = s[i];
        if 0x41 <= (c as u32) <= 0x5a {
            let u = ((c as u32) + 32) as u32;
            assert(u as char as u32 == u);
        }
    }
    assert(ascii_lower(ascii_lower(s)) =~= ascii_lower(s));
}

/// `s` without the `.` characters at its end.
pub open spec fn trim_dots(s: Seq<char>) -> Seq<char>
    decreases s.len(),
{
    if s.len() > 0 && s.last() == '.' {
        trim_dots(s.drop_last())
    } else {
        s
    }
}

/// Once trimmed, a text no longer ends with `.`, and lower-casing keeps it so.
pub proof fn lemma_trimmed_lower_has_no_dot(s: Seq<char>)
    ensures
        !ends_with(ascii_lower(trim_dots(s)), seq!['.']),
    decreases s.len(),
{
    if s.len() > 0 && s.last() == '.' {
        lemma_trimmed_lower_has_no_dot(s.drop_last());
    } else if s.len() > 0 {
        let l = ascii_lower(s);
        let c = s.last();
        assert(l.subrange(l.len() - 1, l.len() as int) =~= seq![ascii_lower_char(c)]);
        if 0x41 <= (c as u32) <= 0x5a {
            let u = ((c as u32) + 32) as u32;
            assert(u as char as u32 == u);
        }
        assert(ascii_lower_char(c) != '.');
        assert(trim_dots(s) == s);
        assert(l.subrange(l.len() - 1, l.len() as int)[0] != '.');
    } else {
        assert(ascii_lower(trim_dots(s)).len() == 0);
    }
}

/// The length of `s` without the `.` characters at its end.
pub(crate) fn trimmed_len(s: &str) -> (n: usize)
    ensures
        n <= s@.len(),
        trim_dots(s@) == s@.take(n as int),
{
    let mut n: usize = s.unicode_len();
    assert(s@.take(n as int) =~= s@);
    while n > 0
        invariant
            n <= s@.len(),
            trim_dots(s@) == trim_dots(s@.take(n as int)),
        decreases n,
    {
        if s.get_char(n - 1) != '.' {
            return n;
        }
        assert(s@.take(n as int).drop_last() =~= s@.take(n - 1));
        n = n - 1;
    }
    assert(s@.take(0) =~= Seq::<char>::empty());
    n
}

/// `s` ends with `suffix`.
pub open spec fn ends_with(s: Seq<char>, suffix: Seq<char>) -> bool {
    suffix.len() <= s.len() && s.subrange(s.len() - suffix.len(), s.len() as int) == suffix
}

/// Relies on `str::to_ascii_lowercase`: `A-Z` become `a-z`, all else is kept.
#[verifier::external_body]
pub(crate) fn to_ascii_lower(s: &str) -> (r: String)
    ensures
        r@ == ascii_lower(s@),
{
    s.to_ascii_lowercase()
}

/// Whether `s` ends with `suffix`.
pub(crate) fn has_suffix(s: &str, suffix: &str) -> (r: bool)
    ensures
        r == ends_with(s@, suffix@),
{
    let n = s.unicode_len();
    let k = suffix.unicode_len();
    if k > n {
        return false;
    }
    let tail = String::from_str(s.substring_char(n - k, n));
    let whole = String::from_str(suffix);
    tail == whole
}

} // verus!
