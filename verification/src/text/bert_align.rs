//! Which BERT feature row each phone gets.  Character-level features are
//! repeated once per phone of their character; the rows that no character
//! covers are zero.

use vstd::prelude::*;
use crate::text::g2p::{is_phone_mark, is_zh};

verus! {

/// `count` copies of `v`.
pub open spec fn block(count: nat, v: Option<usize>) -> Seq<Option<usize>> {
    Seq::new(count, |_k: int| v)
}

/// `e` cut or padded with `None` to exactly `n` rows.
pub open spec fn fit(e: Seq<Option<usize>>, n: nat) -> Seq<Option<usize>> {
    if e.len() >= n { e.take(n as int) } else { e + block((n - e.len()) as nat, None) }
}

/// The first `n` rows of `e`, or all of them.
pub open spec fn capped(e: Seq<Option<usize>>, n: nat) -> Seq<Option<usize>> {
    if e.len() >= n { e.take(n as int) } else { e }
}

proof fn lemma_capped_append(e: Seq<Option<usize>>, b: Seq<Option<usize>>, n: nat)
    ensures
        capped(e + b, n) == if capped(e, n).len() >= n { capped(e, n) } else {
            capped(e, n) + b.take(if b.len() < n - e.len() { b.len() as int } else { n - e.len() })
        },
{
    if e.len() >= n {
        assert((e + b).take(n as int) =~= e.take(n as int));
    } else {
        assert(capped(e, n) == e);
        if e.len() + b.len() >= n {
            assert((e + b).take(n as int) =~= e + b.take(n - e.len()));
        } else {
            assert(b.take(b.len() as int) =~= b);
        }
    }
}

/// Appends `count` copies of `v` to `r`, stopping at `limit` rows.
fn push_block(r: &mut Vec<Option<usize>>, count: usize, v: Option<usize>, limit: usize)
    requires
        old(r).len() <= limit,
    ensures
        final(r)@ == old(r)@ + block(count as nat, v).take(
            if count < limit - old(r).len() { count as int } else { limit - old(r).len() }),
{
    let room = limit - r.len();
    let n = if count < room { count } else { room };
    let mut k: usize = 0;
    let ghost start = r@;
    while k < n
        invariant
            k <= n <= count,
            r@ == start + block(count as nat, v).take(k as int),
        decreases n - k,
    {
        r.push(v);
        assert(start + block(count as nat, v).take(k + 1) =~= (start + block(count as nat, v).take(k as int)).push(v));
        k = k + 1;
    }
}

/// Pads `r` with `None` up to `limit` rows.
fn pad_rows(r: &mut Vec<Option<usize>>, limit: usize)
    requires
        old(r).len() <= limit,
    ensures
        final(r)@ == old(r)@ + block((limit - old(r).len()) as nat, None),
{
    let ghost start = r@;
    let ghost need = (limit - r.len()) as nat;
    while r.len() < limit
        invariant
            r.len() <= limit,
            start.len() <= r.len(),
            need == limit - start.len(),
            r@ == start + block(need, None).take(r.len() - start.len()),
        decreases limit - r.len(),
    {
        let ghost before = r@;
        r.push(None);
        assert(start + block(need, None).take(r.len() - start.len()) =~= before.push(None));
    }
    assert(block(need, None).take(need as int) =~= block(need, None));
}

/// The character rows of each phone: character `i` repeated `word2ph[i]`
/// times, as `None` where there is no feature row `i`.
pub open spec fn char_expansion(w: Seq<usize>, num_chars: nat) -> Seq<Option<usize>>
    decreases w.len(),
{
    if w.len() == 0 {
        Seq::empty()
    } else {
        let i = w.len() - 1;
        char_expansion(w.drop_last(), num_chars) + block(w.last() as nat,
            if i < num_chars { Some(i as usize) } else { None })
    }
}

/// The feature row of each of `num_phones` phones: character `i`'s row for
/// each of its `word2ph[i]` phones (zero, `None`, where the features have no
/// row `i`), then zero rows up to `num_phones`; phones beyond `num_phones`
/// are dropped.
pub fn align_rows(word2ph: &[usize], num_chars: usize, num_phones: usize) -> (r: Vec<Option<usize>>)
    ensures
        r@ == fit(char_expansion(word2ph@, num_chars as nat), num_phones as nat),
{
    let mut r: Vec<Option<usize>> = Vec::new();
    let mut i: usize = 0;
    assert(word2ph@.take(0) =~= Seq::<usize>::empty());
    while i < word2ph.len()
        invariant
            i <= word2ph.len(),
            r.len() <= num_phones,
            r@ == capped(char_expansion(word2ph@.take(i as int), num_chars as nat), num_phones as nat),
        decreases word2ph.len() - i,
    {
        let v = if i < num_chars { Some(i) } else { None };
        let ghost e = char_expansion(word2ph@.take(i as int), num_chars as nat);
        let ghost b = block(word2ph[i as int] as nat, v);
        proof {
            lemma_capped_append(e, b, num_phones as nat);
            assert(word2ph@.take(i + 1).drop_last() =~= word2ph@.take(i as int));
        }
        if r.len() < num_phones {
            push_block(&mut r, word2ph[i], v, num_phones);
        }
        i = i + 1;
    }
    assert(word2ph@.take(word2ph.len() as int) =~= word2ph@);
    let ghost e = char_expansion(word2ph@, num_chars as nat);
    pad_rows(&mut r, num_phones);
    proof {
        if e.len() >= num_phones {
            assert(r@ =~= e.take(num_phones as int));
        } else {
            assert(r@ =~= e + block((num_phones - e.len()) as nat, None));
        }
    }
    r
}

/// The number of phones of the first `i` characters: `word2ph[0] + .. + word2ph[i - 1]`.
pub open spec fn phones_before(w: Seq<usize>, i: int) -> int
    decreases i,
{
    if i <= 0 { 0 } else { phones_before(w, i - 1) + w[i - 1] }
}

proof fn lemma_phones_before_take(w: Seq<usize>, k: int, i: int)
    requires
        0 <= i <= k <= w.len(),
    ensures
        phones_before(w.take(k), i) == phones_before(w, i),
    decreases i,
{
    if i > 0 {
        lemma_phones_before_take(w, k, i - 1);
    }
}

proof fn lemma_expansion_len(w: Seq<usize>, n: nat)
    ensures
        char_expansion(w, n).len() == phones_before(w, w.len() as int),
    decreases w.len(),
{
    if w.len() > 0 {
        lemma_expansion_len(w.drop_last(), n);
        lemma_phones_before_take(w, w.len() - 1, w.len() - 1);
        assert(w.drop_last() =~= w.take(w.len() - 1));
    }
}

/// The rows of the first `k` characters are the first rows of all of them.
proof fn lemma_expansion_prefix(w: Seq<usize>, n: nat, k: int)
    requires
        0 <= k <= w.len(),
    ensures
        char_expansion(w.take(k), n).len() <= char_expansion(w, n).len(),
        forall|j: int| 0 <= j < char_expansion(w.take(k), n).len()
            ==> #[trigger] char_expansion(w, n)[j] == char_expansion(w.take(k), n)[j],
    decreases w.len(),
{
    if k == w.len() {
        assert(w.take(k) =~= w);
    } else {
        let d = w.drop_last();
        assert(w.take(k) =~= d.take(k));
        lemma_expansion_prefix(d, n, k);
        let e = char_expansion(d, n);
        let b = block(w.last() as nat, if w.len() - 1 < n { Some((w.len() - 1) as usize) } else { None });
        assert forall|j: int| 0 <= j < char_expansion(w.take(k), n).len()
            implies #[trigger] char_expansion(w, n)[j] == char_expansion(w.take(k), n)[j] by {
            assert((e + b)[j] == e[j]);
        }
    }
}

/// Alignment law: phone row `r` is character `i`'s feature row (zero where
/// the features have no row `i`) exactly when the phones of the characters
/// before `i` number at most `r` and those up to and including `i` more than `r`.
pub proof fn lemma_aligned_row(w: Seq<usize>, num_chars: nat, num_phones: nat, i: int, r: int)
    requires
        0 <= i < w.len(),
        phones_before(w, i) <= r < phones_before(w, i + 1),
        r < num_phones,
    ensures
        fit(char_expansion(w, num_chars), num_phones)[r] == if i < num_chars { Some(i as usize) } else { None },
{
    let u = w.take(i + 1);
    let e = char_expansion(w, num_chars);
    lemma_expansion_prefix(w, num_chars, i + 1);
    lemma_expansion_len(u.drop_last(), num_chars);
    assert(u.drop_last() =~= w.take(i));
    lemma_phones_before_take(w, i, i);
    lemma_expansion_len(u, num_chars);
    lemma_phones_before_take(w, i + 1, i + 1);
    let v = if i < num_chars { Some(i as usize) } else { None };
    assert(u.last() == w[i]);
    assert(char_expansion(u, num_chars)[r] == v);
    assert(e[r] == v);
    if e.len() >= num_phones {
        assert(fit(e, num_phones)[r] == e.take(num_phones as int)[r]);
    } else {
        assert(fit(e, num_phones)[r] == (e + block((num_phones - e.len()) as nat, None))[r]);
    }
}

/// Alignment law: the rows after the phones of every character are zero.
pub proof fn lemma_rows_after_characters(w: Seq<usize>, num_chars: nat, num_phones: nat, r: int)
    requires
        phones_before(w, w.len() as int) <= r < num_phones,
    ensures
        fit(char_expansion(w, num_chars), num_phones)[r] == None::<usize>,
{
    lemma_expansion_len(w, num_chars);
    let e = char_expansion(w, num_chars);
    assert(fit(e, num_phones)[r] == (e + block((num_phones - e.len()) as nat, None))[r]);
}

/// The characters the Chinese BERT model reads: CJK ideographs from U+4E00
/// to U+9FA5 and the punctuation the normaliser keeps.
pub open spec fn is_chinese_bert_char(c: char) -> bool {
    ('\u{4e00}' <= c && c <= '\u{9fa5}') || c == '!' || c == '?' || c == '…' || c == ',' || c == '.' || c == '-'
}

pub fn chinese_bert_char(c: char) -> (b: bool)
    ensures
        b == is_chinese_bert_char(c),
{
    ('\u{4e00}' <= c && c <= '\u{9fa5}') || c == '!' || c == '?' || c == '…' || c == ',' || c == '.' || c == '-'
}

/// The number of BERT characters among the first `n` characters.
pub open spec fn bert_count(chars: Seq<char>, n: int) -> nat
    decreases n,
{
    if n <= 0 {
        0
    } else {
        bert_count(chars, n - 1) + if is_chinese_bert_char(chars[n - 1]) { 1nat } else { 0nat }
    }
}

/// The BERT characters among the first `n` (character, phone count) pairs,
/// with their phone counts.
pub open spec fn bert_selection(chars: Seq<char>, w: Seq<usize>, n: int) -> (Seq<char>, Seq<usize>)
    decreases n,
{
    if n <= 0 {
        (Seq::empty(), Seq::empty())
    } else {
        let prev = bert_selection(chars, w, n - 1);
        if is_chinese_bert_char(chars[n - 1]) {
            (prev.0.push(chars[n - 1]), prev.1.push(w[n - 1]))
        } else {
            prev
        }
    }
}

/// BERT text law: the characters the Chinese BERT model reads are exactly
/// the Chinese characters and the punctuation marks that the phoneme front
/// end keeps as phones.
pub proof fn lemma_bert_chars_are_phonetic(c: char)
    ensures
        is_chinese_bert_char(c) <==> (is_zh(c) || is_phone_mark(c)),
{
}

/// BERT text law: the BERT text is the first `n` characters with every one
/// that is neither a Chinese character nor a phone mark left out, in order,
/// and each kept character keeps its phone count.
pub proof fn lemma_bert_selection_filters(chars: Seq<char>, w: Seq<usize>, n: int)
    requires
        0 <= n <= chars.len(),
        n <= w.len(),
    ensures
        bert_selection(chars, w, n).0 == chars.take(n).filter(|c: char| is_zh(c) || is_phone_mark(c)),
        bert_selection(chars, w, n).1.len() == bert_selection(chars, w, n).0.len(),
        (forall|k: int| 0 <= k < n ==> is_zh(#[trigger] chars[k]) || is_phone_mark(chars[k]))
            ==> bert_selection(chars, w, n) == (chars.take(n), w.take(n)),
    decreases n,
{
    reveal(Seq::filter);
    if n > 0 {
        lemma_bert_selection_filters(chars, w, n - 1);
        let t = chars.take(n);
        assert(t.drop_last() =~= chars.take(n - 1));
        assert(t.last() == chars[n - 1]);
        if forall|k: int| 0 <= k < n ==> is_zh(#[trigger] chars[k]) || is_phone_mark(chars[k]) {
            assert(is_zh(chars[n - 1]) || is_phone_mark(chars[n - 1]));
            assert(chars.take(n - 1).push(chars[n - 1]) =~= chars.take(n));
            assert(w.take(n - 1).push(w[n - 1]) =~= w.take(n));
        }
    } else {
        assert(chars.take(0) =~= Seq::<char>::empty());
        assert(w.take(0) =~= Seq::<usize>::empty());
    }
}

/// The smaller of two lengths: how far characters and phone counts are
/// paired.
pub open spec fn paired_len(a: nat, b: nat) -> int {
    if a < b { a as int } else { b as int }
}

/// The text handed to the BERT tokenizer and the phone count of each of its
/// characters: the BERT characters of the normalised text, in order, with
/// their phone counts.
pub fn select_bert_chars(norm: &[char], word2ph: &[usize]) -> (r: (Vec<char>, Vec<usize>))
    ensures
        (r.0@, r.1@) == bert_selection(norm@, word2ph@, paired_len(norm@.len(), word2ph@.len())),
{
    let n = if norm.len() < word2ph.len() { norm.len() } else { word2ph.len() };
    let mut cs: Vec<char> = Vec::new();
    let mut ws: Vec<usize> = Vec::new();
    let mut i: usize = 0;
    while i < n
        invariant
            i <= n <= norm.len(),
            n <= word2ph.len(),
            (cs@, ws@) == bert_selection(norm@, word2ph@, i as int),
        decreases n - i,
    {
        if chinese_bert_char(norm[i]) {
            cs.push(norm[i]);
            ws.push(word2ph[i]);
        }
        i = i + 1;
    }
    (cs, ws)
}

/// For the first `n` characters, the BERT row of each phone: for a BERT
/// character, its position among the BERT characters (`None` where the
/// features have no such row); for any other character, `None`.
pub open spec fn phone_sources(chars: Seq<char>, w: Seq<usize>, num_bert_chars: nat, n: int) -> Seq<Option<usize>>
    decreases n,
{
    if n <= 0 {
        Seq::empty()
    } else {
        let b = bert_count(chars, n - 1);
        phone_sources(chars, w, num_bert_chars, n - 1) + block(w[n - 1] as nat,
            if is_chinese_bert_char(chars[n - 1]) && b < num_bert_chars { Some(b as usize) } else { None })
    }
}

/// The BERT feature row of each of the `num_phones` phones of a normalised
/// text, given how many character rows the BERT model produced: rows of
/// BERT characters are taken in order, every other phone, and every phone
/// past the last character, gets a zero row.
pub fn phone_feature_rows(norm: &[char], word2ph: &[usize], num_phones: usize, num_bert_chars: usize) -> (r: Vec<Option<usize>>)
    ensures
        r@ == fit(phone_sources(norm@, word2ph@, num_bert_chars as nat, paired_len(norm@.len(), word2ph@.len())),
            num_phones as nat),
{
    let n = if norm.len() < word2ph.len() { norm.len() } else { word2ph.len() };
    let mut r: Vec<Option<usize>> = Vec::new();
    let mut b: usize = 0;
    let mut i: usize = 0;
    while i < n
        invariant
            i <= n <= norm.len(),
            n <= word2ph.len(),
            b == bert_count(norm@, i as int),
            b <= i,
            r.len() <= num_phones,
            r@ == capped(phone_sources(norm@, word2ph@, num_bert_chars as nat, i as int), num_phones as nat),
        decreases n - i,
    {
        let is_bert = chinese_bert_char(norm[i]);
        let v = if is_bert && b < num_bert_chars { Some(b) } else { None };
        proof {
            lemma_capped_append(
                phone_sources(norm@, word2ph@, num_bert_chars as nat, i as int),
                block(word2ph[i as int] as nat, v),
                num_phones as nat,
            );
        }
        if r.len() < num_phones {
            push_block(&mut r, word2ph[i], v, num_phones);
        }
        if is_bert {
            b = b + 1;
        }
        i = i + 1;
    }
    let ghost e = phone_sources(norm@, word2ph@, num_bert_chars as nat, n as int);
    pad_rows(&mut r, num_phones);
    proof {
        if e.len() >= num_phones {
            assert(r@ =~= e.take(num_phones as int));
        } else {
            assert(r@ =~= e + block((num_phones - e.len()) as nat, None));
        }
    }
    r
}

} // verus!
