//! Character-level building blocks shared by the text front end: Unicode
//! whitespace, trimming, ASCII case folding and conversions between `&str`,
//! `String` and character vectors.

use vstd::prelude::*;

verus! {

/// The Unicode `White_Space` property, which is what `char::is_whitespace`
/// (and therefore `str::trim`) tests.
pub open spec fn spec_is_whitespace(c: char) -> bool {
    ||| ('\u{9}' <= c && c <= '\u{d}')
    ||| c == ' '
    ||| c == '\u{85}'
    ||| c == '\u{a0}'
    ||| c == '\u{1680}'
    ||| ('\u{2000}' <= c && c <= '\u{200a}')
    ||| c == '\u{2028}'
    ||| c == '\u{2029}'
    ||| c == '\u{202f}'
    ||| c == '\u{205f}'
    ||| c == '\u{3000}'
}

pub fn is_whitespace(c: char) -> (b: bool)
    ensures
        b == spec_is_whitespace(c),
{
    ('\u{9}' <= c && c <= '\u{d}') || c == ' ' || c == '\u{85}' || c == '\u{a0}' || c == '\u{1680}'
        || ('\u{2000}' <= c && c <= '\u{200a}') || c == '\u{2028}' || c == '\u{2029}' || c
        == '\u{202f}' || c == '\u{205f}' || c == '\u{3000}'
}

/// `s` without its leading whitespace.
pub open spec fn trim_start_seq(s: Seq<char>) -> Seq<char>
    decreases s.len(),
{
    if s.len() > 0 && spec_is_whitespace(s[0]) {
        trim_start_seq(s.drop_first())
    } else {
        s
    }
}

/// `s` without its trailing whitespace.
pub open spec fn trim_end_seq(s: Seq<char>) -> Seq<char>
    decreases s.len(),
{
    if s.len() > 0 && spec_is_whitespace(s.last()) {
        trim_end_seq(s.drop_last())
    } else {
        s
    }
}

/// What `str::trim` gives back: `s` without leading and trailing whitespace.
pub open spec fn trim_seq(s: Seq<char>) -> Seq<char> {
    trim_end_seq(trim_start_seq(s))
}

/// The characters of `s`, in order.
pub fn chars_of(s: &str) -> (v: Vec<char>)
    ensures
        v@ == s@,
{
    broadcast use vstd::string::group_string_axioms;
    let mut v: Vec<char> = Vec::new();
    for c in it: s.chars()
        invariant
            it.seq() == s@,
            v@ == s@.take(it.index() as int),
    {
        assert(s@.take(it.index() as int).push(c) =~= s@.take(it.index() + 1));
        v.push(c);
    }
    assert(v@ =~= s@);
    v
}

/// Appends one character; `String::push`.
#[verifier::external_body]
fn push_char(s: &mut String, c: char)
    ensures
        final(s)@ == old(s)@.push(c),
{
    s.push(c);
}

/// The string made of `cs`, in order.
pub fn string_from(cs: &[char]) -> (s: String)
    ensures
        s@ == cs@,
{
    let mut s = String::new();
    let mut i: usize = 0;
    while i < cs.len()
        invariant
            i <= cs.len(),
            s@ == cs@.take(i as int),
        decreases cs.len() - i,
    {
        push_char(&mut s, cs[i]);
        assert(cs@.take(i as int).push(cs@[i as int]) =~= cs@.take(i + 1));
        i = i + 1;
    }
    assert(cs@.take(cs.len() as int) =~= cs@);
    s
}

/// `v` without leading and trailing whitespace.
pub fn trim_chars(v: &[char]) -> (r: Vec<char>)
    ensures
        r@ == trim_seq(v@),
{
    let mut lo: usize = 0;
    assert(v@.skip(0) =~= v@);
    while lo < v.len() && is_whitespace(v[lo])
        invariant
            lo <= v.len(),
            trim_start_seq(v@) == trim_start_seq(v@.skip(lo as int)),
        decreases v.len() - lo,
    {
        assert(v@.skip(lo as int).drop_first() =~= v@.skip(lo + 1));
        lo = lo + 1;
    }
    let ghost t = v@.skip(lo as int);
    assert(trim_start_seq(t) == t);
    let mut hi: usize = v.len();
    assert(t.take(t.len() as int) =~= t);
    while hi > lo && is_whitespace(v[hi - 1])
        invariant
            lo <= hi <= v.len(),
            t == v@.skip(lo as int),
            trim_end_seq(t) == trim_end_seq(t.take(hi - lo)),
        decreases hi,
    {
        assert(t.take(hi - lo).drop_last() =~= t.take(hi - 1 - lo));
        hi = hi - 1;
    }
    let mut r: Vec<char> = Vec::new();
    let mut k: usize = lo;
    while k < hi
        invariant
            lo <= k <= hi <= v.len(),
            r@ =~= v@.subrange(lo as int, k as int),
        decreases hi - k,
    {
        r.push(v[k]);
        k = k + 1;
    }
    assert(r@ =~= t.take(hi - lo));
    r
}


/// `a` followed by `b`.
pub fn concat(a: &[char], b: &[char]) -> (r: Vec<char>)
    ensures
        r@ == a@ + b@,
{
    let mut r: Vec<char> = Vec::new();
    let mut i: usize = 0;
    while i < a.len()
        invariant
            i <= a.len(),
            r@ == a@.take(i as int),
        decreases a.len() - i,
    {
        r.push(a[i]);
        assert(a@.take(i as int).push(a@[i as int]) =~= a@.take(i + 1));
        i = i + 1;
    }
    let mut j: usize = 0;
    assert(a@.take(a.len() as int) =~= a@);
    while j < b.len()
        invariant
            j <= b.len(),
            r@ == a@ + b@.take(j as int),
        decreases b.len() - j,
    {
        r.push(b[j]);
        assert((a@ + b@.take(j as int)).push(b@[j as int]) =~= a@ + b@.take(j + 1));
        j = j + 1;
    }
    assert(b@.take(b.len() as int) =~= b@);
    r
}

/// Appends all of `b` to `r`.
pub fn extend_chars(r: &mut Vec<char>, b: &[char])
    ensures
        final(r)@ == old(r)@ + b@,
{
    let mut j: usize = 0;
    while j < b.len()
        invariant
            j <= b.len(),
            r@ == old(r)@ + b@.take(j as int),
        decreases b.len() - j,
    {
        r.push(b[j]);
        assert((old(r)@ + b@.take(j as int)).push(b@[j as int]) =~= old(r)@ + b@.take(j + 1));
        j = j + 1;
    }
    assert(b@.take(b.len() as int) =~= b@);
}

/// `s` with every occurrence of `pat` replaced by `rep`, scanning from the
/// left and never letting two occurrences overlap: what `str::replace` does
/// for a non-empty pattern.
pub open spec fn replace_seq(s: Seq<char>, pat: Seq<char>, rep: Seq<char>) -> Seq<char>
    recommends
        pat.len() > 0,
    decreases s.len(),
{
    if pat.len() == 0 || s.len() < pat.len() {
        s
    } else if s.take(pat.len() as int) == pat {
        rep + replace_seq(s.skip(pat.len() as int), pat, rep)
    } else {
        seq![s[0]] + replace_seq(s.drop_first(), pat, rep)
    }
}

/// Whether `pat` occurs in `s` starting at position `i`.
pub fn matches_at(s: &[char], i: usize, pat: &[char]) -> (b: bool)
    requires
        i <= s.len(),
    ensures
        b == (i + pat.len() <= s.len() && s@.skip(i as int).take(pat.len() as int) == pat@),
{
    if pat.len() > s.len() - i {
        return false;
    }
    let mut k: usize = 0;
    while k < pat.len()
        invariant
            k <= pat.len(),
            i + pat.len() <= s.len(),
            forall|m: int| 0 <= m < k ==> s@[i + m] == pat@[m],
        decreases pat.len() - k,
    {
        if s[i + k] != pat[k] {
            assert(s@.skip(i as int).take(pat.len() as int)[k as int] != pat@[k as int]);
            return false;
        }
        k = k + 1;
    }
    assert(s@.skip(i as int).take(pat.len() as int) =~= pat@);
    true
}

/// `s` with every occurrence of `pat` replaced by `rep`; `str::replace`.
pub fn replace_chars(s: &[char], pat: &[char], rep: &[char]) -> (r: Vec<char>)
    requires
        pat.len() > 0,
    ensures
        r@ == replace_seq(s@, pat@, rep@),
{
    let mut r: Vec<char> = Vec::new();
    let mut i: usize = 0;
    assert(s@.skip(0) =~= s@);
    while i < s.len()
        invariant
            i <= s.len(),
            pat.len() > 0,
            r@ + replace_seq(s@.skip(i as int), pat@, rep@) == replace_seq(s@, pat@, rep@),
        decreases s.len() - i,
    {
        let ghost rest = s@.skip(i as int);
        if matches_at(s, i, pat) {
            assert(rest.skip(pat.len() as int) =~= s@.skip(i + pat.len()));
            assert(rest.take(pat.len() as int) == pat@);
            extend_chars(&mut r, rep);
            i = i + pat.len();
        } else {
            assert(rest.drop_first() =~= s@.skip(i + 1));
            assert(rest =~= seq![rest[0]] + rest.drop_first());
            r.push(s[i]);
            i = i + 1;
        }
    }
    assert(s@.skip(s.len() as int) =~= Seq::<char>::empty());
    assert(r@ + Seq::<char>::empty() =~= r@);
    r
}


/// The contents of each vector of characters.
pub open spec fn char_views(v: Seq<Vec<char>>) -> Seq<Seq<char>> {
    v.map_values(|x: Vec<char>| x@)
}

/// The contents of each string.
pub open spec fn string_views(v: Seq<String>) -> Seq<Seq<char>> {
    v.map_values(|x: String| x@)
}

/// One string for each vector of characters.
pub fn strings_from(v: &Vec<Vec<char>>) -> (r: Vec<String>)
    ensures
        string_views(r@) == char_views(v@),
{
    let mut r: Vec<String> = Vec::new();
    let mut i: usize = 0;
    while i < v.len()
        invariant
            i <= v.len(),
            r@.len() == i,
            string_views(r@) =~= char_views(v@).take(i as int),
        decreases v.len() - i,
    {
        let s = string_from(v[i].as_slice());
        assert(s@ == v@[i as int]@);
        let ghost old_r = r@;
        r.push(s);
        assert(r@ == old_r.push(s));
        assert forall|k: int| 0 <= k < i + 1 implies #[trigger] string_views(r@)[k] == char_views(v@).take(i + 1)[k] by {
            if k < i {
                assert(string_views(r@)[k] == r@[k]@);
                assert(r@[k] == old_r[k]);
                assert(string_views(old_r)[k] == char_views(v@).take(i as int)[k]);
            }
        }
        assert(string_views(r@) =~= char_views(v@).take(i + 1));
        i = i + 1;
    }
    assert(char_views(v@).take(v.len() as int) =~= char_views(v@));
    r
}

/// Pushes a vector of characters and keeps track of the contents.
pub fn push_piece(out: &mut Vec<Vec<char>>, piece: Vec<char>)
    ensures
        char_views(final(out)@) == char_views(old(out)@).push(piece@),
{
    let ghost p = piece@;
    out.push(piece);
    assert(char_views(out@) =~= char_views(old(out)@).push(p));
}

/// All pieces, one after the other.
pub open spec fn flatten_pieces(p: Seq<Seq<char>>) -> Seq<char>
    decreases p.len(),
{
    if p.len() == 0 {
        Seq::empty()
    } else {
        flatten_pieces(p.drop_last()) + p.last()
    }
}

/// ASCII letters folded to lower case, everything else unchanged.
pub open spec fn ascii_lower_char(c: char) -> char {
    if 'A' <= c && c <= 'Z' { ((c as u8) + 32) as char } else { c }
}

pub open spec fn ascii_lower_seq(s: Seq<char>) -> Seq<char> {
    s.map_values(|c: char| ascii_lower_char(c))
}

/// ASCII letters folded to upper case, everything else unchanged.
pub open spec fn ascii_upper_char(c: char) -> char {
    if 'a' <= c && c <= 'z' { ((c as u8) - 32) as char } else { c }
}

pub open spec fn ascii_upper_seq(s: Seq<char>) -> Seq<char> {
    s.map_values(|c: char| ascii_upper_char(c))
}

/// Every character of `s` is ASCII.
pub open spec fn all_ascii(s: Seq<char>) -> bool {
    forall|i: int| 0 <= i < s.len() ==> (#[trigger] s[i] as u32) < 128
}

/// Folding ASCII letters to lower case twice is folding them once.
pub proof fn lemma_ascii_lower_idempotent(s: Seq<char>)
    ensures
        ascii_lower_seq(ascii_lower_seq(s)) == ascii_lower_seq(s),
{
    let l = ascii_lower_seq(s);
    assert forall|i: int| 0 <= i < l.len() implies #[trigger] ascii_lower_seq(l)[i] == l[i] by {
        let c = s[i];
        if 'A' <= c && c <= 'Z' {
            assert(((c as u8) + 32) as char == l[i]);
            assert('a' <= l[i] && l[i] <= 'z');
        }
    }
    assert(ascii_lower_seq(l) =~= l);
}

/// Whether `s`, with ASCII letters folded to lower case, is `lit`.
pub fn eq_ignore_ascii_case(s: &[char], lit: &[char]) -> (b: bool)
    ensures
        b == (ascii_lower_seq(s@) == lit@),
{
    if s.len() != lit.len() {
        assert(ascii_lower_seq(s@).len() != lit@.len());
        return false;
    }
    let mut i: usize = 0;
    while i < s.len()
        invariant
            i <= s.len() == lit.len(),
            forall|k: int| 0 <= k < i ==> ascii_lower_char(s@[k]) == lit@[k],
        decreases s.len() - i,
    {
        let c = s[i];
        let lc = if 'A' <= c && c <= 'Z' { ((c as u8) + 32) as char } else { c };
        assert(lc == ascii_lower_char(c));
        if lc != lit[i] {
            assert(ascii_lower_seq(s@)[i as int] != lit@[i as int]);
            return false;
        }
        i = i + 1;
    }
    assert(ascii_lower_seq(s@) =~= lit@);
    true
}


/// A fresh copy of `v`.
pub fn copy_chars(v: &[char]) -> (r: Vec<char>)
    ensures
        r@ == v@,
{
    let mut r: Vec<char> = Vec::new();
    extend_chars(&mut r, v);
    assert(r@ =~= v@);
    r
}

proof fn lemma_trim_start_suffix(s: Seq<char>)
    ensures
        trim_start_seq(s).len() <= s.len(),
        trim_start_seq(s) == s.skip(s.len() - trim_start_seq(s).len()),
        forall|i: int| 0 <= i < s.len() - trim_start_seq(s).len() ==> spec_is_whitespace(#[trigger] s[i]),
    decreases s.len(),
{
    if s.len() > 0 && spec_is_whitespace(s[0]) {
        lemma_trim_start_suffix(s.drop_first());
        assert forall|i: int| 0 <= i < s.len() - trim_start_seq(s).len() implies spec_is_whitespace(#[trigger] s[i]) by {
            if i > 0 {
                assert(s[i] == s.drop_first()[i - 1]);
            }
        }
        assert(s.drop_first().skip(s.drop_first().len() - trim_start_seq(s).len()) =~= s.skip(s.len() - trim_start_seq(s).len()));
    } else {
        assert(s.skip(0) =~= s);
    }
}

proof fn lemma_trim_end_prefix(s: Seq<char>)
    ensures
        trim_end_seq(s).len() <= s.len(),
        trim_end_seq(s) == s.take(trim_end_seq(s).len() as int),
    decreases s.len(),
{
    if s.len() > 0 && spec_is_whitespace(s.last()) {
        lemma_trim_end_prefix(s.drop_last());
        assert(s.drop_last().take(trim_end_seq(s).len() as int) =~= s.take(trim_end_seq(s).len() as int));
    } else {
        assert(s.take(s.len() as int) =~= s);
    }
}

/// The trimmed text is a stretch of the text.
pub(crate) proof fn lemma_trim_subrange(s: Seq<char>) -> (lo: int)
    ensures
        0 <= lo,
        lo + trim_seq(s).len() <= s.len(),
        forall|i: int| 0 <= i < trim_seq(s).len() ==> #[trigger] trim_seq(s)[i] == s[lo + i],
        forall|i: int| 0 <= i < lo ==> spec_is_whitespace(#[trigger] s[i]),
{
    lemma_trim_start_suffix(s);
    let t = trim_start_seq(s);
    lemma_trim_end_prefix(t);
    let lo = s.len() - t.len();
    assert forall|i: int| 0 <= i < trim_seq(s).len() implies #[trigger] trim_seq(s)[i] == s[lo + i] by {
        assert(trim_seq(s)[i] == t[i]);
        assert(t[i] == s[lo + i]);
    }
    lo
}

/// `trim_start_seq` of a string that starts with something else is the
/// string itself; trimming twice is trimming once.
pub proof fn lemma_trim_idempotent(s: Seq<char>)
    ensures
        trim_seq(trim_seq(s)) == trim_seq(s),
{
    lemma_trim_start_shape(s);
    let t = trim_start_seq(s);
    lemma_trim_end_shape(t);
    let u = trim_end_seq(t);
    // u starts with what t starts with (or is empty), so it has no leading whitespace
    if u.len() > 0 {
        assert(u[0] == t[0]);
    }
    assert(trim_start_seq(u) == u);
    lemma_trim_end_shape(u);
}

proof fn lemma_trim_start_shape(s: Seq<char>)
    ensures
        trim_start_seq(s).len() > 0 ==> !spec_is_whitespace(trim_start_seq(s)[0]),
        trim_start_seq(trim_start_seq(s)) == trim_start_seq(s),
    decreases s.len(),
{
    if s.len() > 0 && spec_is_whitespace(s[0]) {
        lemma_trim_start_shape(s.drop_first());
    }
}

proof fn lemma_trim_end_shape(s: Seq<char>)
    ensures
        trim_end_seq(s).len() > 0 ==> !spec_is_whitespace(trim_end_seq(s).last()),
        trim_end_seq(trim_end_seq(s)) == trim_end_seq(s),
        trim_end_seq(s).len() <= s.len(),
        trim_end_seq(s) == s.take(trim_end_seq(s).len() as int),
    decreases s.len(),
{
    if s.len() > 0 && spec_is_whitespace(s.last()) {
        lemma_trim_end_shape(s.drop_last());
        assert(s.drop_last().take(trim_end_seq(s).len() as int) =~= s.take(trim_end_seq(s).len() as int));
    } else {
        assert(s.take(s.len() as int) =~= s);
    }
}


/// What `str::to_uppercase` gives for a string: its Unicode upper-case
/// mapping (which may change the number of characters, as for `ß`).
pub uninterp spec fn unicode_uppercase(s: Seq<char>) -> Seq<char>;

/// `str::to_uppercase`.  Unicode maps the ASCII letters `a`..`z` to
/// `A`..`Z` and leaves every other ASCII character as it is, so on ASCII text
/// the result is the ASCII upper-casing, letter by letter.
#[verifier::external_body]
pub(crate) fn to_uppercase(s: &str) -> (r: String)
    ensures
        r@ == unicode_uppercase(s@),
        all_ascii(s@) ==> r@ == ascii_upper_seq(s@),
{
    s.to_uppercase()
}

/// Whether the two strings hold the same characters.
pub fn same_chars(a: &[char], b: &[char]) -> (r: bool)
    ensures
        r == (a@ == b@),
{
    if a.len() != b.len() {
        return false;
    }
    let mut i: usize = 0;
    while i < a.len()
        invariant
            i <= a.len() == b.len(),
            forall|k: int| 0 <= k < i ==> a@[k] == b@[k],
        decreases a.len() - i,
    {
        if a[i] != b[i] {
            return false;
        }
        i = i + 1;
    }
    assert(a@ =~= b@);
    true
}

} // verus!
