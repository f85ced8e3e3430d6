//! Cutting input text into the pieces that are synthesised one after the
//! other: `cut0` (no cut) to `cut5` (after every punctuation mark), and a
//! guard that splits over-long pieces at clause boundaries.

use vstd::prelude::*;
use crate::text::chars::{
    ascii_lower_seq, char_views, chars_of, concat, copy_chars, eq_ignore_ascii_case, extend_chars,
    flatten_pieces, push_piece, replace_chars, replace_seq, string_from, string_views,
    strings_from, trim_chars, trim_seq, lemma_trim_idempotent, lemma_trim_subrange, spec_is_whitespace, lemma_ascii_lower_idempotent,
};
use crate::text::normalizer::is_ascii_digit;

verus! {

/// The marks after which a clause ends.
pub open spec fn is_clause_mark(c: char) -> bool {
    ||| c == '!' || c == '?' || c == '…' || c == ',' || c == '.' || c == '-' || c == ' '
    ||| c == '，' || c == '。' || c == '？' || c == '！' || c == '、' || c == '；' || c == '：'
    ||| c == '~' || c == '—' || c == ':' || c == ';'
}

pub fn clause_mark(c: char) -> (b: bool)
    ensures
        b == is_clause_mark(c),
{
    c == '!' || c == '?' || c == '…' || c == ',' || c == '.' || c == '-' || c == ' ' || c == '，'
        || c == '。' || c == '？' || c == '！' || c == '、' || c == '；' || c == '：' || c == '~'
        || c == '—' || c == ':' || c == ';'
}

/// After trimming, `s` is empty or made of clause marks only.
pub open spec fn spec_is_pure_punctuation(s: Seq<char>) -> bool {
    forall|i: int| 0 <= i < trim_seq(s).len() ==> is_clause_mark(#[trigger] trim_seq(s)[i])
}

/// Whether `s` holds nothing to be spoken.
pub fn is_pure_punctuation(s: &[char]) -> (b: bool)
    ensures
        b == spec_is_pure_punctuation(s@),
{
    let t = trim_chars(s);
    let mut i: usize = 0;
    while i < t.len()
        invariant
            i <= t.len(),
            t@ == trim_seq(s@),
            forall|k: int| 0 <= k < i ==> is_clause_mark(#[trigger] t@[k]),
        decreases t.len() - i,
    {
        if !clause_mark(t[i]) {
            return false;
        }
        i = i + 1;
    }
    true
}

// ---------------------------------------------------------------------------
// Splitting after marks
// ---------------------------------------------------------------------------

/// Split after every clause mark.
pub const SPLIT_CLAUSES: u8 = 0;
/// Split after every Chinese full stop.
pub const SPLIT_CN_PERIOD: u8 = 1;
/// Split after every English full stop that is not a decimal point.
pub const SPLIT_EN_PERIOD: u8 = 2;
/// Split after every clause mark but a decimal point.
pub const SPLIT_ALL_MARKS: u8 = 3;

/// A `.` with an ASCII digit on both sides, as in `3.14`.
pub open spec fn is_decimal_point(s: Seq<char>, j: int) -> bool {
    &&& s[j] == '.'
    &&& j > 0
    &&& j + 1 < s.len()
    &&& is_ascii_digit(s[j - 1])
    &&& is_ascii_digit(s[j + 1])
}

/// Whether a piece ends after position `j` of `s` in the given mode.
pub open spec fn breaks_after(mode: u8, s: Seq<char>, j: int) -> bool {
    if mode == SPLIT_CLAUSES {
        is_clause_mark(s[j])
    } else if mode == SPLIT_CN_PERIOD {
        s[j] == '。'
    } else if mode == SPLIT_EN_PERIOD {
        s[j] == '.' && !is_decimal_point(s, j)
    } else {
        is_clause_mark(s[j]) && !is_decimal_point(s, j)
    }
}

/// The finished pieces and the open piece after reading the first `i`
/// characters of `s`; each finished piece ends with the character it was
/// split after.
pub open spec fn split_fold(mode: u8, s: Seq<char>, i: nat) -> (Seq<Seq<char>>, Seq<char>)
    decreases i,
{
    if i == 0 {
        (Seq::empty(), Seq::empty())
    } else {
        let (out, cur) = split_fold(mode, s, (i - 1) as nat);
        let cur2 = cur.push(s[i - 1]);
        if breaks_after(mode, s, i - 1) {
            (out.push(cur2), Seq::empty())
        } else {
            (out, cur2)
        }
    }
}

/// `s` cut after every split point; a non-empty rest forms the last piece.
pub open spec fn pieces(mode: u8, s: Seq<char>) -> Seq<Seq<char>> {
    let (out, cur) = split_fold(mode, s, s.len());
    if cur.len() > 0 { out.push(cur) } else { out }
}

fn breaks_after_exec(mode: u8, s: &[char], j: usize) -> (b: bool)
    requires
        j < s.len(),
    ensures
        b == breaks_after(mode, s@, j as int),
{
    let c = s[j];
    let decimal = c == '.' && j > 0 && j + 1 < s.len() && ('0' <= s[j - 1] && s[j - 1] <= '9')
        && ('0' <= s[j + 1] && s[j + 1] <= '9');
    if mode == SPLIT_CLAUSES {
        clause_mark(c)
    } else if mode == SPLIT_CN_PERIOD {
        c == '。'
    } else if mode == SPLIT_EN_PERIOD {
        c == '.' && !decimal
    } else {
        clause_mark(c) && !decimal
    }
}

/// Cuts `s` after every split point of the given mode.
pub fn split_pieces(mode: u8, s: &[char]) -> (r: Vec<Vec<char>>)
    ensures
        char_views(r@) == pieces(mode, s@),
        flatten_pieces(char_views(r@)) == s@,
{
    let mut out: Vec<Vec<char>> = Vec::new();
    let mut cur: Vec<char> = Vec::new();
    let mut i: usize = 0;
    assert(char_views(out@) =~= Seq::<Seq<char>>::empty());
    while i < s.len()
        invariant
            i <= s.len(),
            (char_views(out@), cur@) == split_fold(mode, s@, i as nat),
            flatten_pieces(char_views(out@)) + cur@ == s@.take(i as int),
        decreases s.len() - i,
    {
        cur.push(s[i]);
        assert(s@.take(i as int).push(s@[i as int]) =~= s@.take(i + 1));
        if breaks_after_exec(mode, s, i) {
            let ghost old_views = char_views(out@);
            let piece = cur;
            let ghost pv = piece@;
            push_piece(&mut out, piece);
            cur = Vec::new();
            assert(char_views(out@).drop_last() =~= old_views);
            assert(flatten_pieces(char_views(out@)) == flatten_pieces(old_views) + pv);
            assert(flatten_pieces(char_views(out@)) + cur@ =~= s@.take(i + 1));
        }
        i = i + 1;
    }
    assert(s@.take(s.len() as int) =~= s@);
    if cur.len() > 0 {
        let ghost old_views = char_views(out@);
        let ghost cv = cur@;
        push_piece(&mut out, cur);
        assert(char_views(out@).drop_last() =~= old_views);
        assert(flatten_pieces(char_views(out@)) == flatten_pieces(old_views) + cv);
    } else {
        assert(cur@ =~= Seq::<char>::empty());
        assert(flatten_pieces(char_views(out@)) + cur@ =~= flatten_pieces(char_views(out@)));
    }
    out
}


// ---------------------------------------------------------------------------
// Clauses
// ---------------------------------------------------------------------------

/// The text that is cut into clauses: `……` becomes `。`, `——` becomes `，`,
/// and a text that does not end with a clause mark gets a `。`.
pub open spec fn clause_text(s: Seq<char>) -> Seq<char> {
    let t = replace_seq(replace_seq(s, seq!['…', '…'], seq!['。']), seq!['—', '—'], seq!['，']);
    if t.len() > 0 && !is_clause_mark(t.last()) { t.push('。') } else { t }
}

/// The clauses of `s`, each ending with its clause mark.
pub open spec fn spec_split_by_clause(s: Seq<char>) -> Seq<Seq<char>> {
    pieces(SPLIT_CLAUSES, clause_text(s))
}

fn split_by_clause(s: &[char]) -> (r: Vec<Vec<char>>)
    ensures
        char_views(r@) == spec_split_by_clause(s@),
        flatten_pieces(char_views(r@)) == clause_text(s@),
{
    let p1: Vec<char> = vec!['…', '…'];
    let r1: Vec<char> = vec!['。'];
    let p2: Vec<char> = vec!['—', '—'];
    let r2: Vec<char> = vec!['，'];
    assert(p1@ =~= seq!['…', '…']);
    assert(r1@ =~= seq!['。']);
    assert(p2@ =~= seq!['—', '—']);
    assert(r2@ =~= seq!['，']);
    let t = replace_chars(s, &p1, &r1);
    let mut t = replace_chars(&t, &p2, &r2);
    if t.len() > 0 && !clause_mark(t[t.len() - 1]) {
        t.push('。');
    }
    split_pieces(SPLIT_CLAUSES, &t)
}

// ---------------------------------------------------------------------------
// Dropping pieces with nothing to say
// ---------------------------------------------------------------------------

/// `p` without the pieces that are pure punctuation, in order.
pub open spec fn drop_pure(p: Seq<Seq<char>>) -> Seq<Seq<char>>
    decreases p.len(),
{
    if p.len() == 0 {
        Seq::empty()
    } else {
        let rest = drop_pure(p.drop_last());
        if spec_is_pure_punctuation(p.last()) { rest } else { rest.push(p.last()) }
    }
}

/// No piece of `p` is pure punctuation.
pub open spec fn all_spoken(p: Seq<Seq<char>>) -> bool {
    forall|i: int| 0 <= i < p.len() ==> !spec_is_pure_punctuation(#[trigger] p[i])
}

pub proof fn lemma_drop_pure_spoken(p: Seq<Seq<char>>)
    ensures
        all_spoken(drop_pure(p)),
    decreases p.len(),
{
    if p.len() > 0 {
        lemma_drop_pure_spoken(p.drop_last());
    }
}

fn keep_spoken(p: &Vec<Vec<char>>) -> (r: Vec<Vec<char>>)
    ensures
        char_views(r@) == drop_pure(char_views(p@)),
        all_spoken(char_views(r@)),
{
    let mut r: Vec<Vec<char>> = Vec::new();
    let mut i: usize = 0;
    assert(char_views(p@).take(0) =~= Seq::<Seq<char>>::empty());
    while i < p.len()
        invariant
            i <= p.len(),
            char_views(r@) == drop_pure(char_views(p@).take(i as int)),
        decreases p.len() - i,
    {
        assert(char_views(p@).take(i + 1).drop_last() =~= char_views(p@).take(i as int));
        assert(char_views(p@).take(i + 1).last() == p@[i as int]@);
        if !is_pure_punctuation(p[i].as_slice()) {
            let c = copy_chars(p[i].as_slice());
            push_piece(&mut r, c);
        }
        i = i + 1;
    }
    assert(char_views(p@).take(p.len() as int) =~= char_views(p@));
    proof {
        lemma_drop_pure_spoken(char_views(p@));
    }
    r
}

// ---------------------------------------------------------------------------
// cut0 .. cut5
// ---------------------------------------------------------------------------

/// `cut0`: the trimmed text as one piece, or nothing when it is pure
/// punctuation.
pub open spec fn spec_cut0(s: Seq<char>) -> Seq<Seq<char>> {
    if spec_is_pure_punctuation(trim_seq(s)) { Seq::empty() } else { seq![trim_seq(s)] }
}

/// Groups of four pieces, each group joined into one piece.
pub open spec fn chunks4(p: Seq<Seq<char>>) -> Seq<Seq<char>>
    decreases p.len(),
{
    if p.len() == 0 {
        Seq::empty()
    } else {
        let k: int = if p.len() < 4 { p.len() as int } else { 4 };
        seq![flatten_pieces(p.take(k))] + chunks4(p.skip(k))
    }
}

/// `cut1`: clauses joined four by four.
pub open spec fn spec_cut1(s: Seq<char>) -> Seq<Seq<char>> {
    drop_pure(chunks4(spec_split_by_clause(trim_seq(s))))
}

/// The pieces `p[from..to]` joined into one.
fn join_range(p: &Vec<Vec<char>>, from: usize, to: usize) -> (r: Vec<char>)
    requires
        from <= to <= p.len(),
    ensures
        r@ == flatten_pieces(char_views(p@).subrange(from as int, to as int)),
{
    let mut r: Vec<char> = Vec::new();
    let mut k: usize = from;
    assert(char_views(p@).subrange(from as int, from as int) =~= Seq::<Seq<char>>::empty());
    while k < to
        invariant
            from <= k <= to <= p.len(),
            r@ == flatten_pieces(char_views(p@).subrange(from as int, k as int)),
        decreases to - k,
    {
        assert(char_views(p@).subrange(from as int, k + 1).drop_last() =~= char_views(p@).subrange(from as int, k as int));
        assert(char_views(p@).subrange(from as int, k + 1).last() == p@[k as int]@);
        extend_chars(&mut r, p[k].as_slice());
        k = k + 1;
    }
    r
}

fn chunks_of_four(p: &Vec<Vec<char>>) -> (r: Vec<Vec<char>>)
    ensures
        char_views(r@) == chunks4(char_views(p@)),
{
    let mut r: Vec<Vec<char>> = Vec::new();
    let mut i: usize = 0;
    assert(char_views(p@).skip(0) =~= char_views(p@));
    assert(char_views(r@) =~= Seq::<Seq<char>>::empty());
    while i < p.len()
        invariant
            i <= p.len(),
            char_views(r@) + chunks4(char_views(p@).skip(i as int)) == chunks4(char_views(p@)),
        decreases p.len() - i,
    {
        let k: usize = if p.len() - i < 4 { p.len() - i } else { 4 };
        let g = join_range(p, i, i + k);
        let ghost rest = char_views(p@).skip(i as int);
        assert(rest.take(k as int) =~= char_views(p@).subrange(i as int, i + k));
        assert(rest.skip(k as int) =~= char_views(p@).skip(i + k));
        let ghost old_views = char_views(r@);
        push_piece(&mut r, g);
        assert(chunks4(rest) == seq![flatten_pieces(rest.take(k as int))] + chunks4(rest.skip(k as int)));
        assert(old_views.push(flatten_pieces(rest.take(k as int))) + chunks4(rest.skip(k as int)) =~= old_views + chunks4(rest));
        i = i + k;
    }
    assert(char_views(p@).skip(p.len() as int) =~= Seq::<Seq<char>>::empty());
    assert(char_views(r@) + Seq::<Seq<char>>::empty() =~= char_views(r@));
    r
}

/// `cut1`: groups of four clauses.
pub fn cut1(inp: &str) -> (r: Vec<String>)
    ensures
        string_views(r@) == spec_cut1(inp@),
        all_spoken(string_views(r@)),
{
    let cs = chars_of(inp);
    let t = trim_chars(&cs);
    let clauses = split_by_clause(&t);
    let groups = chunks_of_four(&clauses);
    let kept = keep_spoken(&groups);
    strings_from(&kept)
}

/// `cut0`: no cutting at all.
pub fn cut0(inp: &str) -> (r: Vec<String>)
    ensures
        string_views(r@) == spec_cut0(inp@),
        all_spoken(string_views(r@)),
{
    let cs = chars_of(inp);
    let t = trim_chars(&cs);
    let mut out: Vec<Vec<char>> = Vec::new();
    if !is_pure_punctuation(&t) {
        push_piece(&mut out, t);
    }
    assert(char_views(out@) =~= spec_cut0(inp@));
    strings_from(&out)
}

/// The finished pieces and the open piece after adding `k` clauses, a piece
/// being finished as soon as it reaches fifty characters.
pub open spec fn acc50_fold(p: Seq<Seq<char>>, k: nat) -> (Seq<Seq<char>>, Seq<char>)
    decreases k,
{
    if k == 0 {
        (Seq::empty(), Seq::empty())
    } else {
        let (out, cur) = acc50_fold(p, (k - 1) as nat);
        let cur2 = cur + p[k - 1];
        if cur2.len() >= 50 { (out.push(cur2), Seq::empty()) } else { (out, cur2) }
    }
}

/// A last piece of fewer than fifty characters is joined to the one before.
pub open spec fn merge_short_tail(o: Seq<Seq<char>>) -> Seq<Seq<char>> {
    if o.len() > 1 && o.last().len() < 50 {
        o.drop_last().update(o.len() - 2, o[o.len() - 2] + o.last())
    } else {
        o
    }
}

/// `cut2`: clauses gathered into pieces of at least fifty characters.
pub open spec fn spec_cut2(s: Seq<char>) -> Seq<Seq<char>> {
    let p = spec_split_by_clause(trim_seq(s));
    if p.len() < 2 {
        let j = flatten_pieces(p);
        if spec_is_pure_punctuation(j) { Seq::empty() } else { seq![j] }
    } else {
        let (o, c) = acc50_fold(p, p.len());
        let o2 = if c.len() > 0 { o.push(c) } else { o };
        drop_pure(merge_short_tail(o2))
    }
}

/// Every piece of `p` has at least `n` characters.
pub open spec fn all_at_least(p: Seq<Seq<char>>, n: nat) -> bool {
    forall|i: int| 0 <= i < p.len() ==> (#[trigger] p[i]).len() >= n
}

proof fn lemma_acc50_shape(p: Seq<Seq<char>>, k: nat)
    requires
        k <= p.len(),
    ensures
        all_at_least(acc50_fold(p, k).0, 50),
        acc50_fold(p, k).1.len() < 50,
    decreases k,
{
    if k > 0 {
        lemma_acc50_shape(p, (k - 1) as nat);
    }
}

/// Dropping pure pieces keeps only pieces of `p`, so never makes a short one.
proof fn lemma_drop_pure_at_least(p: Seq<Seq<char>>, n: nat)
    requires
        all_at_least(p, n),
    ensures
        all_at_least(drop_pure(p), n),
        drop_pure(p).len() <= p.len(),
    decreases p.len(),
{
    if p.len() > 0 {
        lemma_drop_pure_at_least(p.drop_last(), n);
        assert(p.last() == p[p.len() - 1]);
    }
}

/// `cut2` law: no piece is pure punctuation, and where there are two pieces
/// or more, each has at least fifty characters (a shorter tail having been
/// joined to the piece before it).
pub proof fn lemma_cut2_pieces_long(s: Seq<char>)
    ensures
        all_spoken(spec_cut2(s)),
        spec_cut2(s).len() >= 2 ==> all_at_least(spec_cut2(s), 50),
{
    let p = spec_split_by_clause(trim_seq(s));
    if p.len() >= 2 {
        let (o, c) = acc50_fold(p, p.len());
        lemma_acc50_shape(p, p.len());
        let o2 = if c.len() > 0 { o.push(c) } else { o };
        let m = merge_short_tail(o2);
        lemma_drop_pure_spoken(m);
        if o2.len() >= 2 {
            assert(all_at_least(m, 50)) by {
                if o2.last().len() < 50 {
                    assert(c.len() > 0);
                    assert forall|i: int| 0 <= i < m.len() implies (#[trigger] m[i]).len() >= 50 by {
                        if i < o2.len() - 2 {
                            assert(m[i] == o[i]);
                        } else {
                            assert(m[i] == o[i] + c);
                        }
                    }
                }
            }
            lemma_drop_pure_at_least(m, 50);
        } else {
            lemma_drop_pure_at_least(m, 0);
        }
    }
}

/// `cut2`: pieces of about fifty characters, a short tail joined to the
/// piece before it.
pub fn cut2(inp: &str) -> (r: Vec<String>)
    ensures
        string_views(r@) == spec_cut2(inp@),
        all_spoken(string_views(r@)),
        r@.len() >= 2 ==> all_at_least(string_views(r@), 50),
{
    proof {
        lemma_cut2_pieces_long(inp@);
    }
    let cs = chars_of(inp);
    let t = trim_chars(&cs);
    let p = split_by_clause(&t);
    if p.len() < 2 {
        let j = join_range(&p, 0, p.len());
        assert(char_views(p@).subrange(0, p.len() as int) =~= char_views(p@));
        let mut out: Vec<Vec<char>> = Vec::new();
        if !is_pure_punctuation(&j) {
            push_piece(&mut out, j);
        }
        assert(char_views(out@) =~= spec_cut2(inp@));
        return strings_from(&out);
    }
    let mut opts: Vec<Vec<char>> = Vec::new();
    let mut cur: Vec<char> = Vec::new();
    let mut k: usize = 0;
    assert(char_views(opts@) =~= Seq::<Seq<char>>::empty());
    while k < p.len()
        invariant
            k <= p.len(),
            (char_views(opts@), cur@) == acc50_fold(char_views(p@), k as nat),
        decreases p.len() - k,
    {
        extend_chars(&mut cur, p[k].as_slice());
        if cur.len() >= 50 {
            let piece = cur;
            push_piece(&mut opts, piece);
            cur = Vec::new();
            assert(cur@ =~= Seq::<char>::empty());
        }
        k = k + 1;
    }
    if cur.len() > 0 {
        push_piece(&mut opts, cur);
    }
    let ghost o2 = char_views(opts@);
    let n = opts.len();
    if n > 1 && opts[n - 1].len() < 50 {
        let last = copy_chars(opts[n - 1].as_slice());
        let prev = concat(opts[n - 2].as_slice(), &last);
        let mut merged: Vec<Vec<char>> = Vec::new();
        let mut i: usize = 0;
        while i < n - 2
            invariant
                n == opts.len(),
                i <= n - 2,
                char_views(merged@) =~= o2.take(i as int),
                o2 == char_views(opts@),
            decreases n - 2 - i,
        {
            let c = copy_chars(opts[i].as_slice());
            push_piece(&mut merged, c);
            i = i + 1;
        }
        push_piece(&mut merged, prev);
        assert(char_views(merged@) =~= merge_short_tail(o2));
        let kept = keep_spoken(&merged);
        strings_from(&kept)
    } else {
        assert(merge_short_tail(o2) == o2);
        let kept = keep_spoken(&opts);
        strings_from(&kept)
    }
}

/// `cut3`: pieces ending at every Chinese full stop.
pub open spec fn spec_cut3(s: Seq<char>) -> Seq<Seq<char>> {
    drop_pure(pieces(SPLIT_CN_PERIOD, trim_seq(s)))
}

/// `cut3`: a piece ends after every `。`.
pub fn cut3(inp: &str) -> (r: Vec<String>)
    ensures
        string_views(r@) == spec_cut3(inp@),
        all_spoken(string_views(r@)),
{
    let cs = chars_of(inp);
    let t = trim_chars(&cs);
    let p = split_pieces(SPLIT_CN_PERIOD, &t);
    let kept = keep_spoken(&p);
    strings_from(&kept)
}

/// `cut4`: pieces ending at every English full stop that is not a decimal
/// point.
pub open spec fn spec_cut4(s: Seq<char>) -> Seq<Seq<char>> {
    drop_pure(pieces(SPLIT_EN_PERIOD, trim_seq(s)))
}

/// `cut4`: a piece ends after every `.` except one between two digits.
pub fn cut4(inp: &str) -> (r: Vec<String>)
    ensures
        string_views(r@) == spec_cut4(inp@),
        all_spoken(string_views(r@)),
{
    let cs = chars_of(inp);
    let t = trim_chars(&cs);
    let p = split_pieces(SPLIT_EN_PERIOD, &t);
    let kept = keep_spoken(&p);
    strings_from(&kept)
}

/// Each piece trimmed.
pub open spec fn trim_all(p: Seq<Seq<char>>) -> Seq<Seq<char>> {
    p.map_values(|x: Seq<char>| trim_seq(x))
}

/// `cut5`: trimmed pieces ending at every clause mark but a decimal point.
pub open spec fn spec_cut5(s: Seq<char>) -> Seq<Seq<char>> {
    drop_pure(trim_all(pieces(SPLIT_ALL_MARKS, trim_seq(s))))
}

/// `cut5`: a piece ends after every clause mark (a decimal point excepted);
/// pieces are trimmed.
pub fn cut5(inp: &str) -> (r: Vec<String>)
    ensures
        string_views(r@) == spec_cut5(inp@),
        all_spoken(string_views(r@)),
        forall|k: int| 0 <= k < r@.len() ==> inner_marks_decimal(#[trigger] string_views(r@)[k]),
        all_trimmed(string_views(r@)),
{
    proof {
        lemma_cut5_inner_marks(inp@);
        lemma_cut5_pieces_trimmed(inp@);
    }
    let cs = chars_of(inp);
    let t = trim_chars(&cs);
    let p = split_pieces(SPLIT_ALL_MARKS, &t);
    let mut trimmed: Vec<Vec<char>> = Vec::new();
    let mut i: usize = 0;
    while i < p.len()
        invariant
            i <= p.len(),
            char_views(trimmed@) =~= trim_all(char_views(p@)).take(i as int),
        decreases p.len() - i,
    {
        let x = trim_chars(p[i].as_slice());
        push_piece(&mut trimmed, x);
        i = i + 1;
    }
    assert(trim_all(char_views(p@)).take(p.len() as int) =~= trim_all(char_views(p@)));
    let kept = keep_spoken(&trimmed);
    strings_from(&kept)
}


// ---------------------------------------------------------------------------
// Over-long pieces and the dispatcher
// ---------------------------------------------------------------------------

/// The finished chunks and the open chunk after packing `k` clauses: a clause
/// goes into the open chunk unless that would make it longer than `max_len`
/// and the open chunk is not empty, in which case the open chunk is finished.
pub open spec fn pack_fold(p: Seq<Seq<char>>, max_len: nat, k: nat) -> (Seq<Seq<char>>, Seq<char>)
    decreases k,
{
    if k == 0 {
        (Seq::empty(), Seq::empty())
    } else {
        let (out, cur) = pack_fold(p, max_len, (k - 1) as nat);
        let c = p[k - 1];
        if cur.len() + c.len() > max_len && cur.len() > 0 {
            (out.push(cur), c)
        } else {
            (out, cur + c)
        }
    }
}

/// `split_big_text`: a text of at most `max_len` characters is kept whole;
/// a longer one is cut into clauses that are packed greedily into chunks of
/// at most `max_len` characters (a single longer clause stays whole).
pub open spec fn spec_split_big_text(s: Seq<char>, max_len: nat) -> Seq<Seq<char>> {
    if s.len() <= max_len {
        seq![s]
    } else {
        let p = spec_split_by_clause(s);
        let (o, c) = pack_fold(p, max_len, p.len());
        let r = if c.len() > 0 { o.push(c) } else { o };
        if r.len() == 0 { seq![s] } else { r }
    }
}

fn split_big_chars(s: &[char], max_len: usize) -> (r: Vec<Vec<char>>)
    ensures
        char_views(r@) == spec_split_big_text(s@, max_len as nat),
        s@.len() > max_len ==> flatten_pieces(char_views(r@)) == clause_text(s@),
{
    if s.len() <= max_len {
        let mut out: Vec<Vec<char>> = Vec::new();
        let c = copy_chars(s);
        push_piece(&mut out, c);
        assert(char_views(out@) =~= seq![s@]);
        return out;
    }
    let p = split_by_clause(s);
    let mut out: Vec<Vec<char>> = Vec::new();
    let mut cur: Vec<char> = Vec::new();
    let mut k: usize = 0;
    assert(char_views(out@) =~= Seq::<Seq<char>>::empty());
    assert(char_views(p@).take(0) =~= Seq::<Seq<char>>::empty());
    while k < p.len()
        invariant
            k <= p.len(),
            (char_views(out@), cur@) == pack_fold(char_views(p@), max_len as nat, k as nat),
            flatten_pieces(char_views(out@)) + cur@ == flatten_pieces(char_views(p@).take(k as int)),
        decreases p.len() - k,
    {
        let ghost clause = p@[k as int]@;
        assert(char_views(p@).take(k + 1).drop_last() =~= char_views(p@).take(k as int));
        assert(char_views(p@).take(k + 1).last() == clause);
        let cur_len = cur.len() as u128;
        let clause_len = p[k].len() as u128;
        if cur_len + clause_len > max_len as u128 && cur.len() > 0 {
            let ghost old_views = char_views(out@);
            let ghost cv = cur@;
            let piece = cur;
            push_piece(&mut out, piece);
            assert(char_views(out@).drop_last() =~= old_views);
            cur = copy_chars(p[k].as_slice());
            assert(flatten_pieces(char_views(out@)) + cur@ =~= flatten_pieces(old_views) + cv + clause);
        } else {
            extend_chars(&mut cur, p[k].as_slice());
        }
        k = k + 1;
    }
    assert(char_views(p@).take(p.len() as int) =~= char_views(p@));
    if cur.len() > 0 {
        let ghost old_views = char_views(out@);
        let ghost cv = cur@;
        push_piece(&mut out, cur);
        assert(char_views(out@).drop_last() =~= old_views);
    } else {
        assert(flatten_pieces(char_views(out@)) + cur@ =~= flatten_pieces(char_views(out@)));
    }
    if out.len() == 0 {
        // a text longer than `max_len` has at least one clause with content
        assert(clause_text(s@).len() > 0);
        assert(flatten_pieces(char_views(out@)) =~= Seq::<char>::empty());
        let mut only: Vec<Vec<char>> = Vec::new();
        let c = copy_chars(s);
        push_piece(&mut only, c);
        assert(char_views(only@) =~= seq![s@]);
        return only;
    }
    out
}

/// Cuts a text longer than `max_len` characters at clause boundaries into
/// chunks of at most `max_len` characters where the clauses allow it.
pub fn split_big_text(text: &str, max_len: usize) -> (r: Vec<String>)
    ensures
        string_views(r@) == spec_split_big_text(text@, max_len as nat),
        text@.len() > max_len ==> flatten_pieces(string_views(r@)) == clause_text(text@),
        text@.len() > max_len ==> forall|i: int| 0 <= i < r@.len()
            ==> chunk_fits(#[trigger] string_views(r@)[i], spec_split_by_clause(text@), max_len as nat),
{
    proof {
        if text@.len() > max_len {
            lemma_split_big_text_chunks(text@, max_len as nat);
        }
    }
    let cs = chars_of(text);
    let out = split_big_chars(&cs, max_len);
    strings_from(&out)
}

/// The cutting method a method name selects: `cut0` to `cut5` in any ASCII
/// case, and `cut5` for any other name.
pub open spec fn method_number(m: Seq<char>) -> int {
    let l = ascii_lower_seq(m);
    if l == seq!['c', 'u', 't', '0'] { 0 }
    else if l == seq!['c', 'u', 't', '1'] { 1 }
    else if l == seq!['c', 'u', 't', '2'] { 2 }
    else if l == seq!['c', 'u', 't', '3'] { 3 }
    else if l == seq!['c', 'u', 't', '4'] { 4 }
    else { 5 }
}

/// The pieces the selected method makes of `s`.
pub open spec fn spec_cut(k: int, s: Seq<char>) -> Seq<Seq<char>> {
    if k == 0 { spec_cut0(s) }
    else if k == 1 { spec_cut1(s) }
    else if k == 2 { spec_cut2(s) }
    else if k == 3 { spec_cut3(s) }
    else if k == 4 { spec_cut4(s) }
    else { spec_cut5(s) }
}

/// The pieces after the length guard: a piece of more than 510 characters is
/// split with `split_big_text` at 500, other pieces are kept unless they are
/// pure punctuation.
pub open spec fn guard_fold(p: Seq<Seq<char>>, k: nat) -> Seq<Seq<char>>
    decreases k,
{
    if k == 0 {
        Seq::empty()
    } else {
        let prev = guard_fold(p, (k - 1) as nat);
        let seg = p[k - 1];
        if seg.len() > 510 {
            prev + spec_split_big_text(seg, 500)
        } else if !spec_is_pure_punctuation(seg) {
            prev.push(seg)
        } else {
            prev
        }
    }
}

/// `segment_text`: the text trimmed, cut by the selected method, over-long
/// pieces split; a text with something to say that would otherwise give no
/// piece is returned whole.
pub open spec fn spec_segment_text(s: Seq<char>, method: Seq<char>) -> Seq<Seq<char>> {
    let clean = trim_seq(s);
    if clean.len() == 0 {
        Seq::empty()
    } else {
        let initial = spec_cut(method_number(method), clean);
        let f = guard_fold(initial, initial.len());
        if f.len() == 0 && !spec_is_pure_punctuation(clean) { seq![clean] } else { f }
    }
}

fn method_of(method: &str) -> (k: u8)
    ensures
        k as int == method_number(method@),
{
    let m = chars_of(method);
    let mut lit: Vec<char> = vec!['c', 'u', 't', '0'];
    assert(lit@ =~= seq!['c', 'u', 't', '0']);
    if eq_ignore_ascii_case(&m, &lit) {
        return 0;
    }
    lit.set(3, '1');
    assert(lit@ =~= seq!['c', 'u', 't', '1']);
    if eq_ignore_ascii_case(&m, &lit) {
        return 1;
    }
    lit.set(3, '2');
    assert(lit@ =~= seq!['c', 'u', 't', '2']);
    if eq_ignore_ascii_case(&m, &lit) {
        return 2;
    }
    lit.set(3, '3');
    assert(lit@ =~= seq!['c', 'u', 't', '3']);
    if eq_ignore_ascii_case(&m, &lit) {
        return 3;
    }
    lit.set(3, '4');
    assert(lit@ =~= seq!['c', 'u', 't', '4']);
    if eq_ignore_ascii_case(&m, &lit) {
        return 4;
    }
    5
}

/// Cuts `text` for synthesis with the named method (`cut0`..`cut5`, any
/// other name meaning `cut5`), splitting pieces of more than 510 characters
/// at clause boundaries.  Method names are compared after ASCII case folding,
/// which for these names is the same as comparing `to_lowercase` forms: no
/// character outside ASCII lower-cases to `c`, `u`, `t` or a digit.
pub fn segment_text(text: &str, method: &str) -> (r: Vec<String>)
    ensures
        string_views(r@) == spec_segment_text(text@, method@),
        r@.len() == 0 <==> (trim_seq(text@).len() == 0 || spec_is_pure_punctuation(text@)),
{
    proof {
        lemma_segment_empty_iff(text@, method@);
    }
    let cs = chars_of(text);
    let clean = trim_chars(&cs);
    if clean.len() == 0 {
        let empty: Vec<String> = Vec::new();
        assert(string_views(empty@) =~= Seq::<Seq<char>>::empty());
        return empty;
    }
    let clean_str = string_from(&clean);
    let k = method_of(method);
    let initial = if k == 0 {
        cut0(clean_str.as_str())
    } else if k == 1 {
        cut1(clean_str.as_str())
    } else if k == 2 {
        cut2(clean_str.as_str())
    } else if k == 3 {
        cut3(clean_str.as_str())
    } else if k == 4 {
        cut4(clean_str.as_str())
    } else {
        cut5(clean_str.as_str())
    };
    let ghost init = string_views(initial@);
    let mut out: Vec<Vec<char>> = Vec::new();
    let mut i: usize = 0;
    assert(char_views(out@) =~= Seq::<Seq<char>>::empty());
    while i < initial.len()
        invariant
            i <= initial.len(),
            init == string_views(initial@),
            char_views(out@) == guard_fold(init, i as nat),
        decreases initial.len() - i,
    {
        let seg = chars_of(initial[i].as_str());
        assert(seg@ == init[i as int]);
        if seg.len() > 510 {
            let parts = split_big_chars(&seg, 500);
            let mut j: usize = 0;
            let ghost before = char_views(out@);
            while j < parts.len()
                invariant
                    j <= parts.len(),
                    char_views(out@) =~= before + char_views(parts@).take(j as int),
                decreases parts.len() - j,
            {
                let c = copy_chars(parts[j].as_slice());
                push_piece(&mut out, c);
                j = j + 1;
            }
            assert(char_views(parts@).take(parts.len() as int) =~= char_views(parts@));
        } else if !is_pure_punctuation(&seg) {
            push_piece(&mut out, seg);
        }
        i = i + 1;
    }
    if out.len() == 0 && !is_pure_punctuation(&clean) {
        let mut only: Vec<Vec<char>> = Vec::new();
        push_piece(&mut only, clean);
        assert(char_views(only@) =~= seq![trim_seq(text@)]);
        return strings_from(&only);
    }
    strings_from(&out)
}

// ---------------------------------------------------------------------------
// Text with nothing to say gives no piece
// ---------------------------------------------------------------------------

/// Every character of `s` is a clause mark.
pub open spec fn marks_only(s: Seq<char>) -> bool {
    forall|i: int| 0 <= i < s.len() ==> is_clause_mark(#[trigger] s[i])
}

/// Every piece of `p` is made of clause marks only.
pub open spec fn all_marks_only(p: Seq<Seq<char>>) -> bool {
    forall|i: int| 0 <= i < p.len() ==> marks_only(#[trigger] p[i])
}

proof fn lemma_marks_trim(s: Seq<char>)
    requires
        marks_only(s),
    ensures
        marks_only(trim_seq(s)),
        spec_is_pure_punctuation(s),
{
    let lo = lemma_trim_subrange(s);
    assert forall|i: int| 0 <= i < trim_seq(s).len() implies is_clause_mark(#[trigger] trim_seq(s)[i]) by {
        assert(trim_seq(s)[i] == s[lo + i]);
    }
}

proof fn lemma_marks_concat(a: Seq<char>, b: Seq<char>)
    requires
        marks_only(a),
        marks_only(b),
    ensures
        marks_only(a + b),
{
    assert forall|i: int| 0 <= i < (a + b).len() implies is_clause_mark(#[trigger] (a + b)[i]) by {
        if i < a.len() {
            assert((a + b)[i] == a[i]);
        } else {
            assert((a + b)[i] == b[i - a.len()]);
        }
    }
}

proof fn lemma_drop_pure_marks(p: Seq<Seq<char>>)
    requires
        all_marks_only(p),
    ensures
        drop_pure(p) == Seq::<Seq<char>>::empty(),
    decreases p.len(),
{
    if p.len() > 0 {
        lemma_drop_pure_marks(p.drop_last());
        assert(marks_only(p[p.len() - 1]));
        lemma_marks_trim(p.last());
    }
}

proof fn lemma_split_fold_marks(mode: u8, s: Seq<char>, i: nat)
    requires
        marks_only(s),
        i <= s.len(),
    ensures
        all_marks_only(split_fold(mode, s, i).0),
        marks_only(split_fold(mode, s, i).1),
    decreases i,
{
    if i > 0 {
        lemma_split_fold_marks(mode, s, (i - 1) as nat);
        let cur = split_fold(mode, s, (i - 1) as nat).1;
        assert(is_clause_mark(s[i - 1]));
        lemma_marks_concat(cur, seq![s[i - 1]]);
        assert(cur.push(s[i - 1]) =~= cur + seq![s[i - 1]]);
    }
}

proof fn lemma_pieces_marks(mode: u8, s: Seq<char>)
    requires
        marks_only(s),
    ensures
        all_marks_only(pieces(mode, s)),
{
    lemma_split_fold_marks(mode, s, s.len());
}

proof fn lemma_replace_marks(s: Seq<char>, pat: Seq<char>, rep: Seq<char>)
    requires
        marks_only(s),
        marks_only(rep),
    ensures
        marks_only(replace_seq(s, pat, rep)),
    decreases s.len(),
{
    if pat.len() == 0 || s.len() < pat.len() {
    } else if s.take(pat.len() as int) == pat {
        let t = s.skip(pat.len() as int);
        assert forall|i: int| 0 <= i < t.len() implies is_clause_mark(#[trigger] t[i]) by {
            assert(t[i] == s[i + pat.len()]);
        }
        lemma_replace_marks(t, pat, rep);
        lemma_marks_concat(rep, replace_seq(t, pat, rep));
    } else {
        let t = s.drop_first();
        assert forall|i: int| 0 <= i < t.len() implies is_clause_mark(#[trigger] t[i]) by {
            assert(t[i] == s[i + 1]);
        }
        lemma_replace_marks(t, pat, rep);
        assert(is_clause_mark(s[0]));
        lemma_marks_concat(seq![s[0]], replace_seq(t, pat, rep));
    }
}

proof fn lemma_clauses_marks(s: Seq<char>)
    requires
        marks_only(s),
    ensures
        all_marks_only(spec_split_by_clause(s)),
{
    assert(is_clause_mark(seq!['。'][0]));
    assert(is_clause_mark(seq!['，'][0]));
    lemma_replace_marks(s, seq!['…', '…'], seq!['。']);
    let t = replace_seq(s, seq!['…', '…'], seq!['。']);
    lemma_replace_marks(t, seq!['—', '—'], seq!['，']);
    let u = replace_seq(t, seq!['—', '—'], seq!['，']);
    lemma_marks_concat(u, seq!['。']);
    assert(u.push('。') =~= u + seq!['。']);
    lemma_pieces_marks(SPLIT_CLAUSES, clause_text(s));
}

proof fn lemma_flatten_marks(p: Seq<Seq<char>>)
    requires
        all_marks_only(p),
    ensures
        marks_only(flatten_pieces(p)),
    decreases p.len(),
{
    if p.len() > 0 {
        lemma_flatten_marks(p.drop_last());
        assert(marks_only(p[p.len() - 1]));
        lemma_marks_concat(flatten_pieces(p.drop_last()), p.last());
    }
}

proof fn lemma_chunks4_marks(p: Seq<Seq<char>>)
    requires
        all_marks_only(p),
    ensures
        all_marks_only(chunks4(p)),
    decreases p.len(),
{
    if p.len() > 0 {
        let k: int = if p.len() < 4 { p.len() as int } else { 4 };
        lemma_flatten_marks(p.take(k));
        lemma_chunks4_marks(p.skip(k));
        let r = seq![flatten_pieces(p.take(k))] + chunks4(p.skip(k));
        assert forall|i: int| 0 <= i < r.len() implies marks_only(#[trigger] r[i]) by {
            if i > 0 {
                assert(r[i] == chunks4(p.skip(k))[i - 1]);
            }
        }
    }
}

proof fn lemma_acc50_marks(p: Seq<Seq<char>>, k: nat)
    requires
        all_marks_only(p),
        k <= p.len(),
    ensures
        all_marks_only(acc50_fold(p, k).0),
        marks_only(acc50_fold(p, k).1),
    decreases k,
{
    if k > 0 {
        lemma_acc50_marks(p, (k - 1) as nat);
        assert(marks_only(p[k - 1]));
        lemma_marks_concat(acc50_fold(p, (k - 1) as nat).1, p[k - 1]);
    }
}

/// Text made of clause marks only gives no piece, whatever the method.
proof fn lemma_cut_marks_empty(k: int, s: Seq<char>)
    requires
        marks_only(s),
    ensures
        spec_cut(k, s) == Seq::<Seq<char>>::empty(),
{
    lemma_marks_trim(s);
    let t = trim_seq(s);
    lemma_marks_trim(t);
    if k == 0 {
    } else if k == 1 {
        lemma_clauses_marks(t);
        lemma_chunks4_marks(spec_split_by_clause(t));
        lemma_drop_pure_marks(chunks4(spec_split_by_clause(t)));
    } else if k == 2 {
        let p = spec_split_by_clause(t);
        lemma_clauses_marks(t);
        if p.len() < 2 {
            lemma_flatten_marks(p);
            lemma_marks_trim(flatten_pieces(p));
        } else {
            let (o, c) = acc50_fold(p, p.len());
            lemma_acc50_marks(p, p.len());
            let o2 = if c.len() > 0 { o.push(c) } else { o };
            assert(all_marks_only(o2)) by {
                assert forall|i: int| 0 <= i < o2.len() implies marks_only(#[trigger] o2[i]) by {
                    if i < o.len() {
                        assert(o2[i] == o[i]);
                    }
                }
            }
            let m = merge_short_tail(o2);
            assert(all_marks_only(m)) by {
                if o2.len() > 1 && o2.last().len() < 50 {
                    assert(marks_only(o2[o2.len() - 2]));
                    assert(marks_only(o2[o2.len() - 1]));
                    lemma_marks_concat(o2[o2.len() - 2], o2.last());
                    assert forall|i: int| 0 <= i < m.len() implies marks_only(#[trigger] m[i]) by {
                        if i < o2.len() - 2 {
                            assert(m[i] == o2[i]);
                        }
                    }
                }
            }
            lemma_drop_pure_marks(m);
        }
    } else if k == 3 {
        lemma_pieces_marks(SPLIT_CN_PERIOD, t);
        lemma_drop_pure_marks(pieces(SPLIT_CN_PERIOD, t));
    } else if k == 4 {
        lemma_pieces_marks(SPLIT_EN_PERIOD, t);
        lemma_drop_pure_marks(pieces(SPLIT_EN_PERIOD, t));
    } else {
        let p = pieces(SPLIT_ALL_MARKS, t);
        lemma_pieces_marks(SPLIT_ALL_MARKS, t);
        assert forall|i: int| 0 <= i < trim_all(p).len() implies marks_only(#[trigger] trim_all(p)[i]) by {
            assert(marks_only(p[i]));
            lemma_marks_trim(p[i]);
        }
        lemma_drop_pure_marks(trim_all(p));
    }
}

/// `segment_text` law: whatever the method, the result is empty exactly when
/// the text is blank or holds nothing but clause marks and whitespace.
pub proof fn lemma_segment_empty_iff(s: Seq<char>, method: Seq<char>)
    ensures
        spec_segment_text(s, method).len() == 0 <==> (trim_seq(s).len() == 0 || spec_is_pure_punctuation(s)),
{
    let clean = trim_seq(s);
    lemma_trim_idempotent(s);
    if clean.len() > 0 {
        if spec_is_pure_punctuation(s) {
            assert(marks_only(clean));
            lemma_cut_marks_empty(method_number(method), clean);
            lemma_marks_trim(clean);
        }
    }
}

/// `segment_text` law: the method name is read without regard to ASCII case,
/// and a name other than `cut0`..`cut5` cuts as `cut5` does.
pub proof fn lemma_segment_method_names(s: Seq<char>, method: Seq<char>)
    ensures
        spec_segment_text(s, method) == spec_segment_text(s, ascii_lower_seq(method)),
        method_number(method) == 5 ==> spec_segment_text(s, method) == spec_segment_text(s, seq!['c', 'u', 't', '5']),
{
    lemma_ascii_lower_idempotent(method);
    assert(ascii_lower_seq(seq!['c', 'u', 't', '5']) =~= seq!['c', 'u', 't', '5']);
}

// ---------------------------------------------------------------------------
// How over-long text is packed
// ---------------------------------------------------------------------------

/// `x` begins with `y`.
pub open spec fn starts_with(x: Seq<char>, y: Seq<char>) -> bool {
    y.len() <= x.len() && x.take(y.len() as int) == y
}

/// A chunk of at most `max_len` characters, or a single clause of `clauses`.
pub open spec fn chunk_fits(x: Seq<char>, clauses: Seq<Seq<char>>, max_len: nat) -> bool {
    x.len() <= max_len || exists|j: int| 0 <= j < clauses.len() && #[trigger] clauses[j] == x
}

/// The chunk `a` was finished because the clause opening `b` would have
/// made it longer than `max_len`.
pub open spec fn full_before(a: Seq<char>, b: Seq<char>, clauses: Seq<Seq<char>>, max_len: nat) -> bool {
    exists|j: int| 0 <= j < clauses.len() && starts_with(b, #[trigger] clauses[j]) && a.len() + clauses[j].len() > max_len
}

/// Every piece of `p` has a character.
pub open spec fn all_nonempty(p: Seq<Seq<char>>) -> bool {
    forall|i: int| 0 <= i < p.len() ==> (#[trigger] p[i]).len() > 0
}

proof fn lemma_split_fold_nonempty(mode: u8, s: Seq<char>, i: nat)
    requires
        i <= s.len(),
    ensures
        all_nonempty(split_fold(mode, s, i).0),
        i > 0 ==> split_fold(mode, s, i).0.len() > 0 || split_fold(mode, s, i).1.len() > 0,
    decreases i,
{
    if i > 0 {
        lemma_split_fold_nonempty(mode, s, (i - 1) as nat);
    }
}

proof fn lemma_clauses_nonempty(s: Seq<char>)
    requires
        s.len() > 0,
    ensures
        all_nonempty(spec_split_by_clause(s)),
        spec_split_by_clause(s).len() > 0,
{
    let t = replace_seq(s, seq!['…', '…'], seq!['。']);
    assert(t.len() > 0);
    let u = replace_seq(t, seq!['—', '—'], seq!['，']);
    assert(u.len() > 0);
    let c = clause_text(s);
    assert(c.len() > 0);
    lemma_split_fold_nonempty(SPLIT_CLAUSES, c, c.len());
    let (out, cur) = split_fold(SPLIT_CLAUSES, c, c.len());
    if cur.len() > 0 {
        assert forall|i: int| 0 <= i < out.push(cur).len() implies (#[trigger] out.push(cur)[i]).len() > 0 by {
            if i < out.len() {
                assert(out.push(cur)[i] == out[i]);
            }
        }
    }
}

proof fn lemma_pack_shape(p: Seq<Seq<char>>, max_len: nat, k: nat)
    requires
        k <= p.len(),
        all_nonempty(p),
    ensures
        forall|i: int| 0 <= i < pack_fold(p, max_len, k).0.len()
            ==> chunk_fits(#[trigger] pack_fold(p, max_len, k).0[i], p, max_len),
        chunk_fits(pack_fold(p, max_len, k).1, p, max_len),
        k > 0 ==> pack_fold(p, max_len, k).1.len() > 0,
        forall|i: int| 0 <= i < pack_fold(p, max_len, k).0.len() ==> full_before(
            #[trigger] pack_fold(p, max_len, k).0[i],
            if i + 1 < pack_fold(p, max_len, k).0.len() { pack_fold(p, max_len, k).0[i + 1] } else { pack_fold(p, max_len, k).1 },
            p,
            max_len,
        ),
    decreases k,
{
    if k > 0 {
        lemma_pack_shape(p, max_len, (k - 1) as nat);
        let (out, cur) = pack_fold(p, max_len, (k - 1) as nat);
        let c = p[k - 1];
        assert(c.len() > 0);
        if cur.len() + c.len() > max_len && cur.len() > 0 {
            let out2 = out.push(cur);
            assert(chunk_fits(c, p, max_len)) by {
                assert(p[k - 1] == c);
            }
            assert forall|i: int| 0 <= i < out2.len() implies chunk_fits(#[trigger] out2[i], p, max_len) by {
                if i < out.len() {
                    assert(out2[i] == out[i]);
                }
            }
            assert forall|i: int| 0 <= i < out2.len() implies full_before(
                #[trigger] out2[i],
                if i + 1 < out2.len() { out2[i + 1] } else { c },
                p,
                max_len,
            ) by {
                if i < out.len() {
                    assert(out2[i] == out[i]);
                    if i + 1 < out.len() {
                        assert(out2[i + 1] == out[i + 1]);
                    } else {
                        assert(out2[i + 1] == cur);
                    }
                } else {
                    assert(out2[i] == cur);
                    assert(starts_with(c, p[k - 1])) by {
                        assert(c.take(c.len() as int) =~= c);
                    }
                }
            }
        } else {
            let cur2 = cur + c;
            assert(chunk_fits(cur2, p, max_len)) by {
                if cur2.len() > max_len {
                    assert(cur.len() == 0);
                    assert(cur2 =~= c);
                    assert(p[k - 1] == cur2);
                }
            }
            assert forall|i: int| 0 <= i < out.len() implies full_before(
                #[trigger] out[i],
                if i + 1 < out.len() { out[i + 1] } else { cur2 },
                p,
                max_len,
            ) by {
                if i + 1 >= out.len() {
                    assert(full_before(out[i], cur, p, max_len));
                    let j = choose|j: int| 0 <= j < p.len() && starts_with(cur, #[trigger] p[j]) && out[i].len() + p[j].len() > max_len;
                    assert(cur2.take(p[j].len() as int) =~= cur.take(p[j].len() as int));
                    assert(starts_with(cur2, p[j]));
                }
            }
        }
    }
}

/// `split_big_text` law: a text longer than `max_len` gives at least one
/// chunk; each chunk has at most `max_len` characters or is a single clause;
/// and a chunk is finished only where the clause that opens the next chunk
/// would have made it longer than `max_len`.
pub proof fn lemma_split_big_text_chunks(s: Seq<char>, max_len: nat)
    requires
        s.len() > max_len,
    ensures
        spec_split_big_text(s, max_len).len() > 0,
        forall|i: int| 0 <= i < spec_split_big_text(s, max_len).len()
            ==> chunk_fits(#[trigger] spec_split_big_text(s, max_len)[i], spec_split_by_clause(s), max_len),
        forall|i: int| 0 <= i < spec_split_big_text(s, max_len).len() - 1 ==> full_before(
            #[trigger] spec_split_big_text(s, max_len)[i],
            spec_split_big_text(s, max_len)[i + 1],
            spec_split_by_clause(s),
            max_len,
        ),
{
    let p = spec_split_by_clause(s);
    lemma_clauses_nonempty(s);
    lemma_pack_shape(p, max_len, p.len());
    let (o, c) = pack_fold(p, max_len, p.len());
    let r = o.push(c);
    assert(spec_split_big_text(s, max_len) == r);
    assert forall|i: int| 0 <= i < r.len() implies chunk_fits(#[trigger] r[i], p, max_len) by {
        if i < o.len() {
            assert(r[i] == o[i]);
        }
    }
    assert forall|i: int| 0 <= i < r.len() - 1 implies full_before(#[trigger] r[i], r[i + 1], p, max_len) by {
        assert(r[i] == o[i]);
        if i + 1 < o.len() {
            assert(r[i + 1] == o[i + 1]);
        }
    }
}

// ---------------------------------------------------------------------------
// What stands inside a cut5 piece
// ---------------------------------------------------------------------------

/// Every clause mark of `x` but its last character is a decimal point.
pub open spec fn inner_marks_decimal(x: Seq<char>) -> bool {
    forall|j: int| 0 <= j < x.len() - 1 && is_clause_mark(#[trigger] x[j]) ==> is_decimal_point(x, j)
}

/// The state of `split_fold` in the last mode: the open piece is the stretch
/// of `s` from `start` to `i` with no split point inside it, and a split point
/// (or the start of `s`) before it.
proof fn lemma_split_fold_inner(s: Seq<char>, i: nat) -> (start: int)
    requires
        i <= s.len(),
    ensures
        forall|k: int| 0 <= k < split_fold(SPLIT_ALL_MARKS, s, i).0.len()
            ==> inner_marks_decimal(#[trigger] split_fold(SPLIT_ALL_MARKS, s, i).0[k]),
        0 <= start <= i,
        split_fold(SPLIT_ALL_MARKS, s, i).1 == s.subrange(start, i as int),
        start == 0 || breaks_after(SPLIT_ALL_MARKS, s, start - 1),
        forall|j: int| start <= j < i ==> !breaks_after(SPLIT_ALL_MARKS, s, j),
    decreases i,
{
    if i == 0 {
        0
    } else {
        let start = lemma_split_fold_inner(s, (i - 1) as nat);
        let (out, cur) = split_fold(SPLIT_ALL_MARKS, s, (i - 1) as nat);
        let cur2 = cur.push(s[i - 1]);
        assert(cur2 =~= s.subrange(start, i as int));
        if breaks_after(SPLIT_ALL_MARKS, s, i - 1) {
            assert(inner_marks_decimal(cur2)) by {
                assert forall|j: int| 0 <= j < cur2.len() - 1 && is_clause_mark(#[trigger] cur2[j]) implies is_decimal_point(cur2, j) by {
                    assert(cur2[j] == s[start + j]);
                    assert(!breaks_after(SPLIT_ALL_MARKS, s, start + j));
                    assert(is_decimal_point(s, start + j));
                    assert(cur2[j + 1] == s[start + j + 1]);
                    if j == 0 {
                        assert(start > 0);
                        assert(breaks_after(SPLIT_ALL_MARKS, s, start - 1));
                        assert(false);
                    }
                    assert(cur2[j - 1] == s[start + j - 1]);
                }
            }
            let out2 = out.push(cur2);
            assert forall|k: int| 0 <= k < out2.len() implies inner_marks_decimal(#[trigger] out2[k]) by {
                if k < out.len() {
                    assert(out2[k] == out[k]);
                }
            }
            assert(Seq::<char>::empty() =~= s.subrange(i as int, i as int));
            i as int
        } else {
            start
        }
    }
}

proof fn lemma_pieces_inner(s: Seq<char>)
    ensures
        forall|k: int| 0 <= k < pieces(SPLIT_ALL_MARKS, s).len() ==> inner_marks_decimal(#[trigger] pieces(SPLIT_ALL_MARKS, s)[k]),
{
    let start = lemma_split_fold_inner(s, s.len());
    let (out, cur) = split_fold(SPLIT_ALL_MARKS, s, s.len());
    if cur.len() > 0 {
        assert(inner_marks_decimal(cur)) by {
            assert forall|j: int| 0 <= j < cur.len() - 1 && is_clause_mark(#[trigger] cur[j]) implies is_decimal_point(cur, j) by {
                assert(cur[j] == s[start + j]);
                assert(!breaks_after(SPLIT_ALL_MARKS, s, start + j));
                assert(cur[j + 1] == s[start + j + 1]);
                if j == 0 {
                    assert(start > 0);
                    assert(breaks_after(SPLIT_ALL_MARKS, s, start - 1));
                    assert(false);
                }
                assert(cur[j - 1] == s[start + j - 1]);
            }
        }
        let r = out.push(cur);
        assert forall|k: int| 0 <= k < r.len() implies inner_marks_decimal(#[trigger] r[k]) by {
            if k < out.len() {
                assert(r[k] == out[k]);
            }
        }
    }
}

proof fn lemma_trim_inner(x: Seq<char>)
    requires
        inner_marks_decimal(x),
    ensures
        inner_marks_decimal(trim_seq(x)),
{
    let lo = lemma_trim_subrange(x);
    let t = trim_seq(x);
    assert forall|j: int| 0 <= j < t.len() - 1 && is_clause_mark(#[trigger] t[j]) implies is_decimal_point(t, j) by {
        assert(t[j] == x[lo + j]);
        assert(t[j + 1] == x[lo + j + 1]);
        assert(is_decimal_point(x, lo + j));
        if j == 0 {
            assert(lo > 0);
            assert(spec_is_whitespace(x[lo - 1]));
            assert(false);
        }
        assert(t[j - 1] == x[lo + j - 1]);
    }
}

proof fn lemma_drop_pure_inner(p: Seq<Seq<char>>)
    requires
        forall|k: int| 0 <= k < p.len() ==> inner_marks_decimal(#[trigger] p[k]),
    ensures
        forall|k: int| 0 <= k < drop_pure(p).len() ==> inner_marks_decimal(#[trigger] drop_pure(p)[k]),
    decreases p.len(),
{
    if p.len() > 0 {
        lemma_drop_pure_inner(p.drop_last());
        assert(inner_marks_decimal(p[p.len() - 1]));
        let rest = drop_pure(p.drop_last());
        if !spec_is_pure_punctuation(p.last()) {
            assert forall|k: int| 0 <= k < rest.push(p.last()).len() implies inner_marks_decimal(#[trigger] rest.push(p.last())[k]) by {
                if k < rest.len() {
                    assert(rest.push(p.last())[k] == rest[k]);
                }
            }
        }
    }
}

/// `cut5` law: inside a piece, every clause mark but the last character is
/// a `.` between two ASCII digits, as in `3.14`.
pub proof fn lemma_cut5_inner_marks(s: Seq<char>)
    ensures
        forall|k: int| 0 <= k < spec_cut5(s).len() ==> inner_marks_decimal(#[trigger] spec_cut5(s)[k]),
{
    let p = pieces(SPLIT_ALL_MARKS, trim_seq(s));
    lemma_pieces_inner(trim_seq(s));
    assert forall|k: int| 0 <= k < trim_all(p).len() implies inner_marks_decimal(#[trigger] trim_all(p)[k]) by {
        lemma_trim_inner(p[k]);
    }
    lemma_drop_pure_inner(trim_all(p));
}

/// Every piece of `p` is trimmed.
pub open spec fn all_trimmed(p: Seq<Seq<char>>) -> bool {
    forall|k: int| 0 <= k < p.len() ==> trim_seq(#[trigger] p[k]) == p[k]
}

proof fn lemma_drop_pure_trimmed(p: Seq<Seq<char>>)
    requires
        all_trimmed(p),
    ensures
        all_trimmed(drop_pure(p)),
    decreases p.len(),
{
    if p.len() > 0 {
        lemma_drop_pure_trimmed(p.drop_last());
        assert(trim_seq(p[p.len() - 1]) == p[p.len() - 1]);
        let rest = drop_pure(p.drop_last());
        if !spec_is_pure_punctuation(p.last()) {
            assert forall|k: int| 0 <= k < rest.push(p.last()).len() implies trim_seq(#[trigger] rest.push(p.last())[k]) == rest.push(p.last())[k] by {
                if k < rest.len() {
                    assert(rest.push(p.last())[k] == rest[k]);
                }
            }
        }
    }
}

/// `cut5` law: every piece is trimmed and has something to say.
pub proof fn lemma_cut5_pieces_trimmed(s: Seq<char>)
    ensures
        all_trimmed(spec_cut5(s)),
        all_spoken(spec_cut5(s)),
{
    let p = trim_all(pieces(SPLIT_ALL_MARKS, trim_seq(s)));
    assert forall|k: int| 0 <= k < p.len() implies trim_seq(#[trigger] p[k]) == p[k] by {
        lemma_trim_idempotent(pieces(SPLIT_ALL_MARKS, trim_seq(s))[k]);
    }
    lemma_drop_pure_trimmed(p);
    lemma_drop_pure_spoken(p);
}

/// The method name `cut<k>` with the letters in lower case, or all in upper
/// case.
pub open spec fn cut_name(k: int, upper: bool) -> Seq<char> {
    let d = if k == 0 { '0' } else if k == 1 { '1' } else if k == 2 { '2' } else if k == 3 { '3' } else if k == 4 { '4' } else { '5' };
    if upper { seq!['C', 'U', 'T', d] } else { seq!['c', 'u', 't', d] }
}

/// Segmentation law: the names `cut0` to `cut5`, in lower or upper case, each
/// select their own cutter.
pub proof fn lemma_method_names_select_cutters(s: Seq<char>, upper: bool)
    ensures
        spec_cut(method_number(cut_name(0, upper)), s) == spec_cut0(s),
        spec_cut(method_number(cut_name(1, upper)), s) == spec_cut1(s),
        spec_cut(method_number(cut_name(2, upper)), s) == spec_cut2(s),
        spec_cut(method_number(cut_name(3, upper)), s) == spec_cut3(s),
        spec_cut(method_number(cut_name(4, upper)), s) == spec_cut4(s),
        spec_cut(method_number(cut_name(5, upper)), s) == spec_cut5(s),
{
    assert(ascii_lower_seq(cut_name(0, upper)) =~= seq!['c', 'u', 't', '0']);
    assert(ascii_lower_seq(cut_name(1, upper)) =~= seq!['c', 'u', 't', '1']);
    assert(ascii_lower_seq(cut_name(2, upper)) =~= seq!['c', 'u', 't', '2']);
    assert(ascii_lower_seq(cut_name(3, upper)) =~= seq!['c', 'u', 't', '3']);
    assert(ascii_lower_seq(cut_name(4, upper)) =~= seq!['c', 'u', 't', '4']);
    assert(ascii_lower_seq(cut_name(5, upper)) =~= seq!['c', 'u', 't', '5']);
}

// ---------------------------------------------------------------------------
// What stands inside a cut3 or cut4 piece
// ---------------------------------------------------------------------------

/// Inside `x` (its last character aside) no `。` stands.
pub open spec fn no_inner_cn_period(x: Seq<char>) -> bool {
    forall|j: int| 0 <= j < x.len() - 1 ==> #[trigger] x[j] != '。'
}

/// Inside `x` (its last character aside) every `.` is a decimal point.
pub open spec fn inner_periods_decimal(x: Seq<char>) -> bool {
    forall|j: int| 0 <= j < x.len() - 1 && #[trigger] x[j] == '.' ==> is_decimal_point(x, j)
}

/// The open piece of `split_fold` in the full-stop modes is the stretch of
/// `s` from `start` to `i` with no split point inside it; every finished
/// piece holds no split point but at its end.
proof fn lemma_split_fold_periods(mode: u8, s: Seq<char>, i: nat) -> (start: int)
    requires
        mode == SPLIT_CN_PERIOD || mode == SPLIT_EN_PERIOD,
        i <= s.len(),
    ensures
        forall|k: int| 0 <= k < split_fold(mode, s, i).0.len() ==> (mode == SPLIT_CN_PERIOD
            ==> no_inner_cn_period(#[trigger] split_fold(mode, s, i).0[k])),
        forall|k: int| 0 <= k < split_fold(mode, s, i).0.len() ==> (mode == SPLIT_EN_PERIOD
            ==> inner_periods_decimal(#[trigger] split_fold(mode, s, i).0[k])),
        0 <= start <= i,
        split_fold(mode, s, i).1 == s.subrange(start, i as int),
        start == 0 || breaks_after(mode, s, start - 1),
        forall|j: int| start <= j < i ==> !breaks_after(mode, s, j),
    decreases i,
{
    if i == 0 {
        0
    } else {
        let start = lemma_split_fold_periods(mode, s, (i - 1) as nat);
        let (out, cur) = split_fold(mode, s, (i - 1) as nat);
        let cur2 = cur.push(s[i - 1]);
        assert(cur2 =~= s.subrange(start, i as int));
        if breaks_after(mode, s, i - 1) {
            if mode == SPLIT_CN_PERIOD {
                assert forall|j: int| 0 <= j < cur2.len() - 1 implies #[trigger] cur2[j] != '。' by {
                    assert(cur2[j] == s[start + j]);
                    assert(!breaks_after(mode, s, start + j));
                }
            } else {
                assert forall|j: int| 0 <= j < cur2.len() - 1 && #[trigger] cur2[j] == '.' implies is_decimal_point(cur2, j) by {
                    assert(cur2[j] == s[start + j]);
                    assert(!breaks_after(mode, s, start + j));
                    assert(cur2[j + 1] == s[start + j + 1]);
                    if j == 0 {
                        assert(start > 0);
                        assert(breaks_after(mode, s, start - 1));
                        assert(false);
                    }
                    assert(cur2[j - 1] == s[start + j - 1]);
                }
            }
            let out2 = out.push(cur2);
            assert forall|k: int| 0 <= k < out2.len() implies (mode == SPLIT_CN_PERIOD ==> no_inner_cn_period(#[trigger] out2[k])) by {
                if k < out.len() {
                    assert(out2[k] == out[k]);
                }
            }
            assert forall|k: int| 0 <= k < out2.len() implies (mode == SPLIT_EN_PERIOD ==> inner_periods_decimal(#[trigger] out2[k])) by {
                if k < out.len() {
                    assert(out2[k] == out[k]);
                }
            }
            assert(Seq::<char>::empty() =~= s.subrange(i as int, i as int));
            i as int
        } else {
            start
        }
    }
}

proof fn lemma_pieces_periods(mode: u8, s: Seq<char>)
    requires
        mode == SPLIT_CN_PERIOD || mode == SPLIT_EN_PERIOD,
    ensures
        forall|k: int| 0 <= k < pieces(mode, s).len() ==> (mode == SPLIT_CN_PERIOD
            ==> no_inner_cn_period(#[trigger] pieces(mode, s)[k])),
        forall|k: int| 0 <= k < pieces(mode, s).len() ==> (mode == SPLIT_EN_PERIOD
            ==> inner_periods_decimal(#[trigger] pieces(mode, s)[k])),
{
    let start = lemma_split_fold_periods(mode, s, s.len());
    let (out, cur) = split_fold(mode, s, s.len());
    if cur.len() > 0 {
        if mode == SPLIT_CN_PERIOD {
            assert forall|j: int| 0 <= j < cur.len() - 1 implies #[trigger] cur[j] != '。' by {
                assert(cur[j] == s[start + j]);
                assert(!breaks_after(mode, s, start + j));
            }
        } else {
            assert forall|j: int| 0 <= j < cur.len() - 1 && #[trigger] cur[j] == '.' implies is_decimal_point(cur, j) by {
                assert(cur[j] == s[start + j]);
                assert(!breaks_after(mode, s, start + j));
                assert(cur[j + 1] == s[start + j + 1]);
                if j == 0 {
                    assert(start > 0);
                    assert(breaks_after(mode, s, start - 1));
                    assert(false);
                }
                assert(cur[j - 1] == s[start + j - 1]);
            }
        }
        let r = out.push(cur);
        assert forall|k: int| 0 <= k < r.len() implies (mode == SPLIT_CN_PERIOD ==> no_inner_cn_period(#[trigger] r[k])) by {
            if k < out.len() {
                assert(r[k] == out[k]);
            }
        }
        assert forall|k: int| 0 <= k < r.len() implies (mode == SPLIT_EN_PERIOD ==> inner_periods_decimal(#[trigger] r[k])) by {
            if k < out.len() {
                assert(r[k] == out[k]);
            }
        }
    }
}

/// Every piece of `drop_pure(p)` is a piece of `p`.
proof fn lemma_drop_pure_from(p: Seq<Seq<char>>)
    ensures
        forall|k: int| 0 <= k < drop_pure(p).len() ==> exists|j: int| 0 <= j < p.len() && p[j] == #[trigger] drop_pure(p)[k],
    decreases p.len(),
{
    if p.len() > 0 {
        lemma_drop_pure_from(p.drop_last());
        let rest = drop_pure(p.drop_last());
        assert forall|k: int| 0 <= k < drop_pure(p).len() implies exists|j: int| 0 <= j < p.len() && p[j] == #[trigger] drop_pure(p)[k] by {
            if k < rest.len() {
                assert(drop_pure(p)[k] == rest[k]);
                let j = choose|j: int| 0 <= j < p.drop_last().len() && p.drop_last()[j] == #[trigger] rest[k];
                assert(p[j] == rest[k]);
            } else {
                assert(drop_pure(p)[k] == p[p.len() - 1]);
            }
        }
    }
}

/// `cut3` law: inside a piece no `。` stands but as its last character.
pub proof fn lemma_cut3_pieces_end_at_periods(s: Seq<char>)
    ensures
        forall|k: int| 0 <= k < spec_cut3(s).len() ==> no_inner_cn_period(#[trigger] spec_cut3(s)[k]),
{
    let p = pieces(SPLIT_CN_PERIOD, trim_seq(s));
    lemma_pieces_periods(SPLIT_CN_PERIOD, trim_seq(s));
    lemma_drop_pure_from(p);
    assert forall|k: int| 0 <= k < spec_cut3(s).len() implies no_inner_cn_period(#[trigger] spec_cut3(s)[k]) by {
        let j = choose|j: int| 0 <= j < p.len() && p[j] == #[trigger] drop_pure(p)[k];
        assert(no_inner_cn_period(p[j]));
    }
}

/// `cut4` law: inside a piece every `.` but its last character is a decimal
/// point, as in `3.14`.
pub proof fn lemma_cut4_pieces_end_at_periods(s: Seq<char>)
    ensures
        forall|k: int| 0 <= k < spec_cut4(s).len() ==> inner_periods_decimal(#[trigger] spec_cut4(s)[k]),
{
    let p = pieces(SPLIT_EN_PERIOD, trim_seq(s));
    lemma_pieces_periods(SPLIT_EN_PERIOD, trim_seq(s));
    lemma_drop_pure_from(p);
    assert forall|k: int| 0 <= k < spec_cut4(s).len() implies inner_periods_decimal(#[trigger] spec_cut4(s)[k]) by {
        let j = choose|j: int| 0 <= j < p.len() && p[j] == #[trigger] drop_pure(p)[k];
        assert(inner_periods_decimal(p[j]));
    }
}

} // verus!
