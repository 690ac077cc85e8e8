use vstd::prelude::*;
use vstd::string::StrSliceExecFns;
use vstd::string::StringExecFns;

verus! {

/// The presentation selector that asks for the emoji rendering of a glyph.
pub const VARIATION_SELECTOR: char = '\u{FE0F}';

/// The characters of a list of strings.
pub open spec fn strs(v: Seq<String>) -> Seq<Seq<char>> {
    v.map_values(|s: String| s@)
}

/// Length in bytes of the UTF-8 encoding of `s`, as `str::len` returns it.
pub open spec fn byte_len(s: Seq<char>) -> usize {
    vstd::utf8::encode_utf8(s).len() as usize
}

/// `s` with every `from` replaced by `to`.
pub open spec fn replace_char(s: Seq<char>, from: char, to: char) -> Seq<char> {
    Seq::new(s.len(), |i: int| if s[i] == from { to } else { s[i] })
}

/// `s` with every occurrence of `c` taken out.
pub open spec fn without_char(s: Seq<char>, c: char) -> Seq<char>
    decreases s.len(),
{
    if s.len() == 0 {
        s
    } else {
        let rest = without_char(s.drop_last(), c);
        if s.last() == c {
            rest
        } else {
            rest.push(s.last())
        }
    }
}

/// What `str::to_lowercase` makes of a string.
pub uninterp spec fn lower_of(s: Seq<char>) -> Seq<char>;

/// Whether `c` has the Unicode `White_Space` property, as `char::is_whitespace` tests.
pub open spec fn is_white_space(c: char) -> bool {
    ('\u{9}' <= c <= '\u{d}') || c == ' ' || c == '\u{85}' || c == '\u{a0}' || c == '\u{1680}'
        || ('\u{2000}' <= c <= '\u{200a}') || c == '\u{2028}' || c == '\u{2029}' || c == '\u{202f}'
        || c == '\u{205f}' || c == '\u{3000}'
}

/// `s` without its leading white space.
pub open spec fn trim_start(s: Seq<char>) -> Seq<char>
    decreases s.len(),
{
    if s.len() > 0 && is_white_space(s[0]) {
        trim_start(s.drop_first())
    } else {
        s
    }
}

/// `s` without its trailing white space.
pub open spec fn trim_end(s: Seq<char>) -> Seq<char>
    decreases s.len(),
{
    if s.len() > 0 && is_white_space(s.last()) {
        trim_end(s.drop_last())
    } else {
        s
    }
}

/// `s` without leading and trailing white space.
pub open spec fn trimmed(s: Seq<char>) -> Seq<char> {
    trim_end(trim_start(s))
}

/// `s` with the ASCII capitals `A`..`Z` made small.
pub open spec fn ascii_lower(s: Seq<char>) -> Seq<char> {
    Seq::new(s.len(), |i: int| if 'A' <= s[i] <= 'Z' { ((s[i] as u32) + 32) as char } else { s[i] })
}

/// The words that `str::split_whitespace` finds in a string.
pub uninterp spec fn words_of(s: Seq<char>) -> Seq<Seq<char>>;

/// Relies on `str::to_lowercase`: its result depends on the characters
/// alone, and on ASCII text it makes `A`..`Z` small and keeps the rest.
#[verifier::external_body]
pub(crate) fn lowercase(s: &str) -> (r: String)
    ensures
        r@ == lower_of(s@),
        (forall|i: int| 0 <= i < s@.len() ==> (s@[i] as u32) < 128) ==> r@ == ascii_lower(s@),
{
    s.to_lowercase()
}

/// Relies on `str::trim`: it removes the leading and trailing characters with
/// the Unicode `White_Space` property.
#[verifier::external_body]
pub(crate) fn trim<'a>(s: &'a str) -> (r: &'a str)
    ensures
        r@ == trimmed(s@),
{
    s.trim()
}

/// Relies on `str::split_whitespace`: the words depend on the characters alone.
#[verifier::external_body]
pub(crate) fn split_words(s: &str) -> (r: Vec<String>)
    ensures
        strs(r@) == words_of(s@),
{
    s.split_whitespace().map(String::from).collect()
}

/// A copy of `s` with every `from` replaced by a space.
pub fn replace_with_space(s: &str, from: char) -> (r: String)
    ensures
        r@ == replace_char(s@, from, ' '),
{
    let n = s.unicode_len();
    let mut out = String::new();
    let mut i: usize = 0;
    while i < n
        invariant
            n == s@.len(),
            i <= n,
            out@ == replace_char(s@, from, ' ').subrange(0, i as int),
        decreases n - i,
    {
        let c = s.get_char(i);
        let ghost before = out@;
        if c == from {
            let space = " ";
            out.append(space);
            proof {
                reveal_strlit(" ");
                assert(space@.len() == 1);
                assert(space@[0] == ' ');
                assert(space@ =~= seq![' ']);
            }
        } else {
            out.append(s.substring_char(i, i + 1));
        }
        assert(out@ =~= before.push(replace_char(s@, from, ' ')[i as int]));
        i += 1;
        assert(out@ =~= replace_char(s@, from, ' ').subrange(0, i as int));
    }
    assert(out@ =~= replace_char(s@, from, ' '));
    out
}

/// Remove the presentation selector from a string.
pub fn strip_variation_selector(s: &str) -> (r: String)
    ensures
        r@ == without_char(s@, VARIATION_SELECTOR),
{
    let n = s.unicode_len();
    let mut out = String::new();
    let mut i: usize = 0;
    while i < n
        invariant
            n == s@.len(),
            i <= n,
            out@ == without_char(s@.subrange(0, i as int), VARIATION_SELECTOR),
        decreases n - i,
    {
        let c = s.get_char(i);
        proof {
            let t = s@.subrange(0, i + 1);
            assert(t.drop_last() =~= s@.subrange(0, i as int));
            assert(t.last() == c);
        }
        if c != VARIATION_SELECTOR {
            out.append(s.substring_char(i, i + 1));
        }
        i += 1;
    }
    assert(s@.subrange(0, n as int) =~= s@);
    out
}

/// The first `len` characters of `s`.
pub fn char_prefix(s: &str, len: usize) -> (r: String)
    requires
        len <= s@.len(),
    ensures
        r@ == s@.subrange(0, len as int),
{
    s.substring_char(0, len).to_owned()
}

/// Whether `v` holds a string equal to `s`.
pub fn contains_str(v: &Vec<String>, s: &String) -> (r: bool)
    ensures
        r == strs(v@).contains(s@),
{
    let mut i: usize = 0;
    while i < v.len()
        invariant
            i <= v.len(),
            forall|j: int| 0 <= j < i ==> v@[j]@ != s@,
        decreases v.len() - i,
    {
        if v[i] == *s {
            assert(strs(v@)[i as int] == s@);
            return true;
        }
        i += 1;
    }
    assert forall|j: int| 0 <= j < strs(v@).len() implies strs(v@)[j] != s@ by {
        assert(strs(v@)[j] == v@[j]@);
    }
    false
}

} // verus!
