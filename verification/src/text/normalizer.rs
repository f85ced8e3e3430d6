//! Chinese text normalisation: numbers are spelt out in Chinese numerals,
//! full-width and other punctuation is mapped onto the small set the phoneme
//! front end knows, and runs of punctuation are collapsed to one mark.

use vstd::prelude::*;
use crate::text::chars::{chars_of, concat, extend_chars, replace_chars, replace_seq, string_from, trim_chars, trim_seq, lemma_trim_subrange};

verus! {

// ---------------------------------------------------------------------------
// Chinese numerals
// ---------------------------------------------------------------------------

/// The Chinese numeral for the decimal digit `d` (0..9).
pub open spec fn digit_char(d: int) -> char {
    if d == 0 { '零' }
    else if d == 1 { '一' }
    else if d == 2 { '二' }
    else if d == 3 { '三' }
    else if d == 4 { '四' }
    else if d == 5 { '五' }
    else if d == 6 { '六' }
    else if d == 7 { '七' }
    else if d == 8 { '八' }
    else { '九' }
}

/// The place word for position `i` inside a four-digit section: none, 十, 百, 千.
pub open spec fn unit_seq(i: int) -> Seq<char> {
    if i == 1 { seq!['十'] }
    else if i == 2 { seq!['百'] }
    else if i == 3 { seq!['千'] }
    else { Seq::empty() }
}

/// The word for the `k`-th group of four digits: none, 万, 亿, 兆.
pub open spec fn big_unit_seq(k: int) -> Seq<char> {
    if k == 1 { seq!['万'] }
    else if k == 2 { seq!['亿'] }
    else if k == 3 { seq!['兆'] }
    else { Seq::empty() }
}

/// The decimal digits of `n`, least significant first; empty for 0.
pub open spec fn decimal_digits(n: nat) -> Seq<u64>
    decreases n,
{
    if n == 0 {
        Seq::empty()
    } else {
        seq![(n % 10) as u64] + decimal_digits(n / 10)
    }
}

/// The words for the lowest `i` digits `ds` of the section value `section`,
/// together with whether the last digit looked at was a zero that already
/// produced a 零.  Digits are read from the least significant one; a run of
/// zeros gives a single 零, and only when something non-zero stands below it;
/// the leading section (`top`) from 10 to 19 reads 十… rather than 一十….
pub open spec fn section_fold(section: int, top: bool, ds: Seq<u64>, i: nat) -> (Seq<char>, bool)
    decreases i,
{
    if i == 0 {
        (Seq::empty(), false)
    } else {
        let (s, zero) = section_fold(section, top, ds, (i - 1) as nat);
        let d = ds[i - 1] as int;
        if d == 0 {
            if !zero && s.len() > 0 {
                (seq!['零'] + s, true)
            } else {
                (s, zero)
            }
        } else if top && 10 <= section < 20 && i - 1 == 1 && d == 1 {
            (unit_seq(1) + s, false)
        } else {
            (seq![digit_char(d)] + unit_seq(i - 1) + s, false)
        }
    }
}

/// The words for one four-digit section; `top` says whether it is the
/// leading section of the number.
pub open spec fn section_words(section: nat, top: bool) -> Seq<char> {
    section_fold(section as int, top, decimal_digits(section), decimal_digits(section).len()).0
}

/// Whether a 零 stands before a non-zero section below which the part `high`
/// of the number remains: when there is such a part and zeros lie between
/// its last non-zero digit and the section, either inside the section
/// (the section is below 1000) or as whole zero sections in between.
pub open spec fn zero_before_section(section: nat, high: nat) -> bool {
    high > 0 && (section < 1000 || high % 10000 == 0)
}

/// The words for `n` whose lowest section is the `idx`-th: sections from the
/// most significant one down, each followed by its group word and preceded
/// by 零 where zeros separate it from the sections above; sections equal to
/// zero contribute nothing.
pub open spec fn sections_words(n: nat, idx: nat) -> Seq<char>
    decreases n,
{
    if n == 0 {
        Seq::empty()
    } else {
        let section = n % 10000;
        let high = n / 10000;
        let here = if section > 0 {
            (if zero_before_section(section, high) { seq!['零'] } else { Seq::empty() })
                + section_words(section, high == 0) + big_unit_seq(idx as int)
        } else {
            Seq::empty()
        };
        sections_words(high, idx + 1) + here
    }
}

/// The Chinese reading of the integer `num`.
pub open spec fn spec_number_to_chinese(num: int) -> Seq<char> {
    if num == 0 {
        seq!['零']
    } else if num < 0 {
        seq!['负'] + sections_words((-num) as nat, 0)
    } else {
        sections_words(num as nat, 0)
    }
}

/// The magnitudes that have no more than four four-digit sections, so that
/// each section has a group word (none, 万, 亿 or 兆).
pub open spec fn within_chinese_numeral_range(num: int) -> bool {
    -10000000000000000 < num < 10000000000000000
}

spec fn section_bound(idx: nat) -> nat {
    if idx == 0 { 10000000000000000 }
    else if idx == 1 { 1000000000000 }
    else if idx == 2 { 100000000 }
    else if idx == 3 { 10000 }
    else { 1 }
}

proof fn lemma_decimal_digits_bounded(n: nat)
    ensures
        forall|i: int| 0 <= i < decimal_digits(n).len() ==> #[trigger] decimal_digits(n)[i] < 10,
    decreases n,
{
    if n > 0 {
        lemma_decimal_digits_bounded(n / 10);
        let rest = decimal_digits(n / 10);
        assert forall|i: int| 0 <= i < decimal_digits(n).len() implies #[trigger] decimal_digits(n)[i] < 10 by {
            if i > 0 {
                assert(decimal_digits(n)[i] == rest[i - 1]);
            }
        }
    }
}

proof fn lemma_section_digits_len(n: nat)
    requires
        n < 10000,
    ensures
        decimal_digits(n).len() <= 4,
{
    reveal_with_fuel(decimal_digits, 6);
    assert(n / 10 < 1000);
    assert(n / 10 / 10 < 100);
    assert(n / 10 / 10 / 10 < 10);
    assert(n / 10 / 10 / 10 / 10 == 0);
}

fn digit_word(d: u64) -> (c: char)
    requires
        d < 10,
    ensures
        c == digit_char(d as int),
{
    if d == 0 { '零' }
    else if d == 1 { '一' }
    else if d == 2 { '二' }
    else if d == 3 { '三' }
    else if d == 4 { '四' }
    else if d == 5 { '五' }
    else if d == 6 { '六' }
    else if d == 7 { '七' }
    else if d == 8 { '八' }
    else { '九' }
}

fn unit_word(i: usize) -> (r: Vec<char>)
    ensures
        r@ == unit_seq(i as int),
{
    let mut r: Vec<char> = Vec::new();
    if i == 1 {
        r.push('十');
    } else if i == 2 {
        r.push('百');
    } else if i == 3 {
        r.push('千');
    }
    assert(r@ =~= unit_seq(i as int));
    r
}

fn big_unit_word(k: usize) -> (r: Vec<char>)
    ensures
        r@ == big_unit_seq(k as int),
{
    let mut r: Vec<char> = Vec::new();
    if k == 1 {
        r.push('万');
    } else if k == 2 {
        r.push('亿');
    } else if k == 3 {
        r.push('兆');
    }
    assert(r@ =~= big_unit_seq(k as int));
    r
}

/// The words for one non-zero four-digit section.
fn section_to_words(section: u64, top: bool) -> (r: Vec<char>)
    requires
        0 < section < 10000,
    ensures
        r@ == section_words(section as nat, top),
{
    let mut ds: Vec<u64> = Vec::new();
    let mut temp: u64 = section;
    assert(decimal_digits(section as nat) =~= Seq::<u64>::empty() + decimal_digits(section as nat));
    while temp > 0
        invariant
            temp <= section,
            ds@ + decimal_digits(temp as nat) == decimal_digits(section as nat),
        decreases temp,
    {
        assert(decimal_digits(temp as nat) == seq![(temp % 10) as u64] + decimal_digits((temp / 10) as nat));
        assert(ds@.push(temp % 10) + decimal_digits((temp / 10) as nat) =~= ds@ + decimal_digits(temp as nat));
        ds.push(temp % 10);
        temp = temp / 10;
    }
    assert(ds@ =~= decimal_digits(section as nat));
    proof {
        lemma_section_digits_len(section as nat);
        lemma_decimal_digits_bounded(section as nat);
    }
    let mut s: Vec<char> = Vec::new();
    let mut zero: bool = false;
    let mut i: usize = 0;
    while i < ds.len()
        invariant
            i <= ds.len() <= 4,
            ds@ == decimal_digits(section as nat),
            forall|j: int| 0 <= j < ds@.len() ==> #[trigger] ds@[j] < 10,
            (s@, zero) == section_fold(section as int, top, ds@, i as nat),
        decreases ds.len() - i,
    {
        let d = ds[i];
        if d == 0 {
            if !zero && s.len() > 0 {
                s = concat(&['零'], &s);
                assert(['零']@ =~= seq!['零']);
                zero = true;
            }
        } else {
            zero = false;
            if top && 10 <= section && section < 20 && i == 1 && d == 1 {
                let u = unit_word(i);
                s = concat(&u, &s);
            } else {
                let mut w: Vec<char> = Vec::new();
                w.push(digit_word(d));
                let u = unit_word(i);
                extend_chars(&mut w, &u);
                assert(w@ =~= seq![digit_char(d as int)] + unit_seq(i as int));
                s = concat(&w, &s);
            }
        }
        i = i + 1;
    }
    s
}

proof fn lemma_div_section_bound(n: nat, idx: nat)
    requires
        idx < 4,
        n < section_bound(idx),
    ensures
        n / 10000 < section_bound(idx + 1),
{
}

/// Spells out `num` in Chinese numerals: groups of four digits with 千, 百,
/// 十 inside a group and 万, 亿, 兆 between groups, one 零 for each run of
/// zeros that stands between non-zero digits (within a group or across
/// groups, as in 一万零五), 十… for a leading 10 to 19, and 负 in front of
/// negative numbers.
pub fn number_to_chinese(num: i64) -> (s: String)
    requires
        within_chinese_numeral_range(num as int),
    ensures
        s@ == spec_number_to_chinese(num as int),
{
    if num == 0 {
        let r: Vec<char> = vec!['零'];
        assert(r@ =~= seq!['零']);
        return string_from(&r);
    }
    let negative = num < 0;
    let mut n: u64 = if negative { (-num) as u64 } else { num as u64 };
    let ghost n0: nat = n as nat;
    let mut result: Vec<char> = Vec::new();
    let mut idx: usize = 0;
    assert(sections_words(n0, 0) =~= sections_words(n0, 0) + result@);
    while n > 0
        invariant
            idx <= 4,
            n < section_bound(idx as nat),
            sections_words(n0, 0) == sections_words(n as nat, idx as nat) + result@,
        decreases n,
    {
        let section = n % 10000;
        let high = n / 10000;
        if section > 0 {
            let mut here: Vec<char> = Vec::new();
            if high > 0 && (section < 1000 || high % 10000 == 0) {
                here.push('零');
            }
            let w = section_to_words(section, high == 0);
            extend_chars(&mut here, &w);
            let b = big_unit_word(idx);
            extend_chars(&mut here, &b);
            assert(here@ =~= (if zero_before_section(section as nat, high as nat) { seq!['零'] } else { Seq::<char>::empty() })
                + section_words(section as nat, high == 0) + big_unit_seq(idx as int));
            result = concat(&here, &result);
        }
        proof {
            lemma_div_section_bound(n as nat, idx as nat);
        }
        n = n / 10000;
        idx = idx + 1;
    }
    assert(sections_words(0, idx as nat) =~= Seq::<char>::empty());
    if negative {
        let mut m: Vec<char> = Vec::new();
        m.push('负');
        extend_chars(&mut m, &result);
        assert(m@ =~= seq!['负'] + sections_words(n0, 0));
        string_from(&m)
    } else {
        string_from(&result)
    }
}

// ---------------------------------------------------------------------------
// Reading digit runs
// ---------------------------------------------------------------------------

pub open spec fn is_ascii_digit(c: char) -> bool {
    '0' <= c && c <= '9'
}

/// The value of a string of ASCII digits, read most significant first.
pub open spec fn digits_value(s: Seq<char>) -> nat
    decreases s.len(),
{
    if s.len() == 0 {
        0
    } else {
        10 * digits_value(s.drop_last()) + ((s.last() as int - '0' as int) as nat)
    }
}

/// Every character of `s` is an ASCII digit.
pub open spec fn all_ascii_digits(s: Seq<char>) -> bool {
    forall|i: int| 0 <= i < s.len() ==> is_ascii_digit(#[trigger] s[i])
}

/// What `str::parse::<i64>` gives: an optional sign followed by at least
/// one ASCII digit, read as a value that must fit in `i64`.
pub open spec fn spec_parse_i64(s: Seq<char>) -> Option<int> {
    let signed = s.len() > 0 && (s[0] == '+' || s[0] == '-');
    let body = if signed { s.drop_first() } else { s };
    if body.len() == 0 || !all_ascii_digits(body) {
        None
    } else {
        let v: int = if signed && s[0] == '-' { -(digits_value(body) as int) } else { digits_value(body) as int };
        if i64::MIN <= v <= i64::MAX { Some(v) } else { None }
    }
}

/// The ASCII digits of `s`, each spelt as its Chinese numeral; everything
/// else in `s` is dropped.
pub open spec fn spell_ascii_digits(s: Seq<char>) -> Seq<char>
    decreases s.len(),
{
    if s.len() == 0 {
        Seq::empty()
    } else {
        let head = if is_ascii_digit(s[0]) { seq![digit_char(s[0] as int - '0' as int)] } else { Seq::empty() };
        head + spell_ascii_digits(s.drop_first())
    }
}

/// How a run of digits is read: as a number when `i64` can hold it,
/// otherwise digit by digit.
pub open spec fn spec_verbalize_digit_run(run: Seq<char>) -> Seq<char> {
    match spec_parse_i64(run) {
        Some(v) => spec_number_to_chinese(v),
        None => spell_ascii_digits(run),
    }
}

/// A run can be read without leaving the range of Chinese numerals.
pub open spec fn digit_run_in_range(run: Seq<char>) -> bool {
    match spec_parse_i64(run) {
        Some(v) => within_chinese_numeral_range(v),
        None => true,
    }
}

proof fn lemma_digits_value_push(s: Seq<char>, c: char)
    ensures
        digits_value(s.push(c)) == 10 * digits_value(s) + ((c as int - '0' as int) as nat),
{
    assert(s.push(c).drop_last() =~= s);
}

/// Parses `run` exactly as `str::parse::<i64>` does.
fn parse_i64(run: &[char]) -> (r: Option<i64>)
    ensures
        r matches Some(v) ==> spec_parse_i64(run@) == Some(v as int),
        r is None ==> spec_parse_i64(run@) is None,
{
    let signed = run.len() > 0 && (run[0] == '+' || run[0] == '-');
    let negative = signed && run[0] == '-';
    let start: usize = if signed { 1 } else { 0 };
    let ghost body = if signed { run@.drop_first() } else { run@ };
    assert(body =~= run@.skip(start as int));
    if run.len() == start {
        return None;
    }
    let limit: u128 = 9223372036854775808;
    let mut acc: u128 = 0;
    let mut big = false;
    let mut i: usize = start;
    assert(run@.subrange(start as int, start as int) =~= Seq::<char>::empty());
    while i < run.len()
        invariant
            start <= i <= run.len(),
            limit == 9223372036854775808,
            signed == (run@.len() > 0 && (run@[0] == '+' || run@[0] == '-')),
            start == (if signed { 1usize } else { 0usize }),
            body == (if signed { run@.drop_first() } else { run@ }),
            body =~= run@.skip(start as int),
            forall|k: int| start <= k < i ==> is_ascii_digit(#[trigger] run@[k]),
            !big ==> acc == digits_value(run@.subrange(start as int, i as int)) && acc <= limit,
            big ==> digits_value(run@.subrange(start as int, i as int)) > limit,
        decreases run.len() - i,
    {
        let c = run[i];
        if !('0' <= c && c <= '9') {
            assert(body[i - start] == c);
            assert(!is_ascii_digit(body[i - start]));
            assert(!all_ascii_digits(body));
            return None;
        }
        let d = (c as u32 - '0' as u32) as u128;
        assert(d <= 9);
        proof {
            lemma_digits_value_push(run@.subrange(start as int, i as int), c);
            assert(run@.subrange(start as int, i as int).push(c) =~= run@.subrange(start as int, i + 1));
        }
        if !big {
            assert(acc * 10 <= limit * 10) by (nonlinear_arith)
                requires
                    acc <= limit,
            ;
            let next = acc * 10 + d;
            if next > limit {
                big = true;
            } else {
                acc = next;
            }
        }
        i = i + 1;
    }
    assert(run@.subrange(start as int, run.len() as int) =~= body);
    assert forall|k: int| 0 <= k < body.len() implies is_ascii_digit(#[trigger] body[k]) by {
        assert(body[k] == run@[k + start]);
    }
    if big {
        return None;
    }
    if negative {
        let v: i128 = -(acc as i128);
        Some(v as i64)
    } else if acc > 9223372036854775807 {
        None
    } else {
        Some(acc as i64)
    }
}

/// Reads one run of digits aloud in Chinese: as a whole number when
/// `str::parse::<i64>` accepts it, otherwise digit by digit (characters that
/// are not ASCII digits then give nothing).
pub fn verbalize_digit_run(run: &str) -> (s: String)
    requires
        digit_run_in_range(run@),
    ensures
        s@ == spec_verbalize_digit_run(run@),
{
    let cs = chars_of(run);
    match parse_i64(&cs) {
        Some(v) => number_to_chinese(v),
        None => {
            let mut out: Vec<char> = Vec::new();
            let mut i: usize = 0;
            assert(cs@.skip(0) =~= cs@);
            while i < cs.len()
                invariant
                    i <= cs.len(),
                    spell_ascii_digits(cs@) == out@ + spell_ascii_digits(cs@.skip(i as int)),
                decreases cs.len() - i,
            {
                let c = cs[i];
                assert(cs@.skip(i as int).drop_first() =~= cs@.skip(i + 1));
                if '0' <= c && c <= '9' {
                    let d = (c as u32 - '0' as u32) as u64;
                    out.push(digit_word(d));
                }
                assert(spell_ascii_digits(cs@.skip(i as int)) == (if is_ascii_digit(c) { seq![digit_char(c as int - '0' as int)] } else { Seq::<char>::empty() }) + spell_ascii_digits(cs@.skip(i + 1)));
                i = i + 1;
            }
            assert(cs@.skip(cs.len() as int) =~= Seq::<char>::empty());
            assert(out@ =~= out@ + Seq::<char>::empty());
            string_from(&out)
        }
    }
}

/// Unicode decimal digits (general category Nd), the class that `\d` stands
/// for in the `regex` crate.
pub open spec fn is_decimal_digit(c: char) -> bool {
    ||| ('\u{30}' <= c && c <= '\u{39}')
    ||| ('\u{660}' <= c && c <= '\u{669}')
    ||| ('\u{6f0}' <= c && c <= '\u{6f9}')
    ||| ('\u{7c0}' <= c && c <= '\u{7c9}')
    ||| ('\u{966}' <= c && c <= '\u{96f}')
    ||| ('\u{9e6}' <= c && c <= '\u{9ef}')
    ||| ('\u{a66}' <= c && c <= '\u{a6f}')
    ||| ('\u{ae6}' <= c && c <= '\u{aef}')
    ||| ('\u{b66}' <= c && c <= '\u{b6f}')
    ||| ('\u{be6}' <= c && c <= '\u{bef}')
    ||| ('\u{c66}' <= c && c <= '\u{c6f}')
    ||| ('\u{ce6}' <= c && c <= '\u{cef}')
    ||| ('\u{d66}' <= c && c <= '\u{d6f}')
    ||| ('\u{de6}' <= c && c <= '\u{def}')
    ||| ('\u{e50}' <= c && c <= '\u{e59}')
    ||| ('\u{ed0}' <= c && c <= '\u{ed9}')
    ||| ('\u{f20}' <= c && c <= '\u{f29}')
    ||| ('\u{1040}' <= c && c <= '\u{1049}')
    ||| ('\u{1090}' <= c && c <= '\u{1099}')
    ||| ('\u{17e0}' <= c && c <= '\u{17e9}')
    ||| ('\u{1810}' <= c && c <= '\u{1819}')
    ||| ('\u{1946}' <= c && c <= '\u{194f}')
    ||| ('\u{19d0}' <= c && c <= '\u{19d9}')
    ||| ('\u{1a80}' <= c && c <= '\u{1a89}')
    ||| ('\u{1a90}' <= c && c <= '\u{1a99}')
    ||| ('\u{1b50}' <= c && c <= '\u{1b59}')
    ||| ('\u{1bb0}' <= c && c <= '\u{1bb9}')
    ||| ('\u{1c40}' <= c && c <= '\u{1c49}')
    ||| ('\u{1c50}' <= c && c <= '\u{1c59}')
    ||| ('\u{a620}' <= c && c <= '\u{a629}')
    ||| ('\u{a8d0}' <= c && c <= '\u{a8d9}')
    ||| ('\u{a900}' <= c && c <= '\u{a909}')
    ||| ('\u{a9d0}' <= c && c <= '\u{a9d9}')
    ||| ('\u{a9f0}' <= c && c <= '\u{a9f9}')
    ||| ('\u{aa50}' <= c && c <= '\u{aa59}')
    ||| ('\u{abf0}' <= c && c <= '\u{abf9}')
    ||| ('\u{ff10}' <= c && c <= '\u{ff19}')
    ||| ('\u{104a0}' <= c && c <= '\u{104a9}')
    ||| ('\u{10d30}' <= c && c <= '\u{10d39}')
    ||| ('\u{10d40}' <= c && c <= '\u{10d49}')
    ||| ('\u{11066}' <= c && c <= '\u{1106f}')
    ||| ('\u{110f0}' <= c && c <= '\u{110f9}')
    ||| ('\u{11136}' <= c && c <= '\u{1113f}')
    ||| ('\u{111d0}' <= c && c <= '\u{111d9}')
    ||| ('\u{112f0}' <= c && c <= '\u{112f9}')
    ||| ('\u{11450}' <= c && c <= '\u{11459}')
    ||| ('\u{114d0}' <= c && c <= '\u{114d9}')
    ||| ('\u{11650}' <= c && c <= '\u{11659}')
    ||| ('\u{116c0}' <= c && c <= '\u{116c9}')
    ||| ('\u{116d0}' <= c && c <= '\u{116e3}')
    ||| ('\u{11730}' <= c && c <= '\u{11739}')
    ||| ('\u{118e0}' <= c && c <= '\u{118e9}')
    ||| ('\u{11950}' <= c && c <= '\u{11959}')
    ||| ('\u{11bf0}' <= c && c <= '\u{11bf9}')
    ||| ('\u{11c50}' <= c && c <= '\u{11c59}')
    ||| ('\u{11d50}' <= c && c <= '\u{11d59}')
    ||| ('\u{11da0}' <= c && c <= '\u{11da9}')
    ||| ('\u{11f50}' <= c && c <= '\u{11f59}')
    ||| ('\u{16130}' <= c && c <= '\u{16139}')
    ||| ('\u{16a60}' <= c && c <= '\u{16a69}')
    ||| ('\u{16ac0}' <= c && c <= '\u{16ac9}')
    ||| ('\u{16b50}' <= c && c <= '\u{16b59}')
    ||| ('\u{16d70}' <= c && c <= '\u{16d79}')
    ||| ('\u{1ccf0}' <= c && c <= '\u{1ccf9}')
    ||| ('\u{1d7ce}' <= c && c <= '\u{1d7ff}')
    ||| ('\u{1e140}' <= c && c <= '\u{1e149}')
    ||| ('\u{1e2f0}' <= c && c <= '\u{1e2f9}')
    ||| ('\u{1e4f0}' <= c && c <= '\u{1e4f9}')
    ||| ('\u{1e5f1}' <= c && c <= '\u{1e5fa}')
    ||| ('\u{1e950}' <= c && c <= '\u{1e959}')
    ||| ('\u{1fbf0}' <= c && c <= '\u{1fbf9}')
}

fn decimal_digit(c: char) -> (b: bool)
    ensures
        b == is_decimal_digit(c),
{
    ('\u{30}' <= c && c <= '\u{39}') ||
        ('\u{660}' <= c && c <= '\u{669}') ||
        ('\u{6f0}' <= c && c <= '\u{6f9}') ||
        ('\u{7c0}' <= c && c <= '\u{7c9}') ||
        ('\u{966}' <= c && c <= '\u{96f}') ||
        ('\u{9e6}' <= c && c <= '\u{9ef}') ||
        ('\u{a66}' <= c && c <= '\u{a6f}') ||
        ('\u{ae6}' <= c && c <= '\u{aef}') ||
        ('\u{b66}' <= c && c <= '\u{b6f}') ||
        ('\u{be6}' <= c && c <= '\u{bef}') ||
        ('\u{c66}' <= c && c <= '\u{c6f}') ||
        ('\u{ce6}' <= c && c <= '\u{cef}') ||
        ('\u{d66}' <= c && c <= '\u{d6f}') ||
        ('\u{de6}' <= c && c <= '\u{def}') ||
        ('\u{e50}' <= c && c <= '\u{e59}') ||
        ('\u{ed0}' <= c && c <= '\u{ed9}') ||
        ('\u{f20}' <= c && c <= '\u{f29}') ||
        ('\u{1040}' <= c && c <= '\u{1049}') ||
        ('\u{1090}' <= c && c <= '\u{1099}') ||
        ('\u{17e0}' <= c && c <= '\u{17e9}') ||
        ('\u{1810}' <= c && c <= '\u{1819}') ||
        ('\u{1946}' <= c && c <= '\u{194f}') ||
        ('\u{19d0}' <= c && c <= '\u{19d9}') ||
        ('\u{1a80}' <= c && c <= '\u{1a89}') ||
        ('\u{1a90}' <= c && c <= '\u{1a99}') ||
        ('\u{1b50}' <= c && c <= '\u{1b59}') ||
        ('\u{1bb0}' <= c && c <= '\u{1bb9}') ||
        ('\u{1c40}' <= c && c <= '\u{1c49}') ||
        ('\u{1c50}' <= c && c <= '\u{1c59}') ||
        ('\u{a620}' <= c && c <= '\u{a629}') ||
        ('\u{a8d0}' <= c && c <= '\u{a8d9}') ||
        ('\u{a900}' <= c && c <= '\u{a909}') ||
        ('\u{a9d0}' <= c && c <= '\u{a9d9}') ||
        ('\u{a9f0}' <= c && c <= '\u{a9f9}') ||
        ('\u{aa50}' <= c && c <= '\u{aa59}') ||
        ('\u{abf0}' <= c && c <= '\u{abf9}') ||
        ('\u{ff10}' <= c && c <= '\u{ff19}') ||
        ('\u{104a0}' <= c && c <= '\u{104a9}') ||
        ('\u{10d30}' <= c && c <= '\u{10d39}') ||
        ('\u{10d40}' <= c && c <= '\u{10d49}') ||
        ('\u{11066}' <= c && c <= '\u{1106f}') ||
        ('\u{110f0}' <= c && c <= '\u{110f9}') ||
        ('\u{11136}' <= c && c <= '\u{1113f}') ||
        ('\u{111d0}' <= c && c <= '\u{111d9}') ||
        ('\u{112f0}' <= c && c <= '\u{112f9}') ||
        ('\u{11450}' <= c && c <= '\u{11459}') ||
        ('\u{114d0}' <= c && c <= '\u{114d9}') ||
        ('\u{11650}' <= c && c <= '\u{11659}') ||
        ('\u{116c0}' <= c && c <= '\u{116c9}') ||
        ('\u{116d0}' <= c && c <= '\u{116e3}') ||
        ('\u{11730}' <= c && c <= '\u{11739}') ||
        ('\u{118e0}' <= c && c <= '\u{118e9}') ||
        ('\u{11950}' <= c && c <= '\u{11959}') ||
        ('\u{11bf0}' <= c && c <= '\u{11bf9}') ||
        ('\u{11c50}' <= c && c <= '\u{11c59}') ||
        ('\u{11d50}' <= c && c <= '\u{11d59}') ||
        ('\u{11da0}' <= c && c <= '\u{11da9}') ||
        ('\u{11f50}' <= c && c <= '\u{11f59}') ||
        ('\u{16130}' <= c && c <= '\u{16139}') ||
        ('\u{16a60}' <= c && c <= '\u{16a69}') ||
        ('\u{16ac0}' <= c && c <= '\u{16ac9}') ||
        ('\u{16b50}' <= c && c <= '\u{16b59}') ||
        ('\u{16d70}' <= c && c <= '\u{16d79}') ||
        ('\u{1ccf0}' <= c && c <= '\u{1ccf9}') ||
        ('\u{1d7ce}' <= c && c <= '\u{1d7ff}') ||
        ('\u{1e140}' <= c && c <= '\u{1e149}') ||
        ('\u{1e2f0}' <= c && c <= '\u{1e2f9}') ||
        ('\u{1e4f0}' <= c && c <= '\u{1e4f9}') ||
        ('\u{1e5f1}' <= c && c <= '\u{1e5fa}') ||
        ('\u{1e950}' <= c && c <= '\u{1e959}') ||
        ('\u{1fbf0}' <= c && c <= '\u{1fbf9}')
}

fn run_fits(run: &[char]) -> (b: bool)
    ensures
        b == (run@.len() == 0 || digit_run_in_range(run@)),
{
    if run.len() == 0 {
        return true;
    }
    match parse_i64(run) {
        Some(v) => -10000000000000000 < v && v < 10000000000000000,
        None => true,
    }
}

/// Whether every run of digits in `text` can be read as a Chinese numeral,
/// which the number normalisation needs.
pub fn numbers_fit(text: &str) -> (b: bool)
    ensures
        b == numbers_in_range(text@),
{
    let cs = chars_of(text);
    let mut run: Vec<char> = Vec::new();
    let mut ok = true;
    let mut i: usize = 0;
    assert(cs@.skip(0) =~= cs@);
    while i < cs.len()
        invariant
            i <= cs.len(),
            cs@ == text@,
            numbers_in_range(text@) == (ok && runs_in_range_from(cs@.skip(i as int), run@)),
        decreases cs.len() - i,
    {
        let c = cs[i];
        assert(cs@.skip(i as int)[0] == c);
        assert(cs@.skip(i as int).drop_first() =~= cs@.skip(i + 1));
        if decimal_digit(c) {
            run.push(c);
        } else {
            ok = ok && run_fits(&run);
            run = Vec::new();
        }
        i = i + 1;
    }
    ok && run_fits(&run)
}

/// The run of digits collected so far, read aloud.
pub open spec fn flush_run(run: Seq<char>) -> Seq<char> {
    if run.len() == 0 { Seq::empty() } else { spec_verbalize_digit_run(run) }
}

/// `s`, preceded by the pending digit run `run`, with every maximal run of
/// decimal digits replaced by its reading.
pub open spec fn replace_runs_from(s: Seq<char>, run: Seq<char>) -> Seq<char>
    decreases s.len(),
{
    if s.len() == 0 {
        flush_run(run)
    } else if is_decimal_digit(s[0]) {
        replace_runs_from(s.drop_first(), run.push(s[0]))
    } else {
        flush_run(run) + seq![s[0]] + replace_runs_from(s.drop_first(), Seq::empty())
    }
}

/// Every maximal run of decimal digits in `s` replaced by its reading.
pub open spec fn spec_normalize_numbers(s: Seq<char>) -> Seq<char> {
    replace_runs_from(s, Seq::empty())
}

/// Every maximal run of decimal digits in `s` (preceded by `run`) can be read.
pub open spec fn runs_in_range_from(s: Seq<char>, run: Seq<char>) -> bool
    decreases s.len(),
{
    if s.len() == 0 {
        run.len() == 0 || digit_run_in_range(run)
    } else if is_decimal_digit(s[0]) {
        runs_in_range_from(s.drop_first(), run.push(s[0]))
    } else {
        (run.len() == 0 || digit_run_in_range(run)) && runs_in_range_from(s.drop_first(), Seq::empty())
    }
}

/// No run of digits in `s` reads as a number of more than sixteen digits
/// that still fits in `i64` (such a number has no group word).
pub open spec fn numbers_in_range(s: Seq<char>) -> bool {
    runs_in_range_from(s, Seq::empty())
}

/// `regex::Regex::new` on the fixed, valid pattern `\d+`, then
/// `Regex::replace_all`: the regex finds the maximal runs of Unicode decimal
/// digits from left to right, and each is replaced by what the closure, the
/// verified `verbalize_digit_run`, makes of it.
#[verifier::external_body]
fn replace_digit_runs(text: &str) -> (res: String)
    requires
        numbers_in_range(text@),
    ensures
        res@ == spec_normalize_numbers(text@),
{
    regex::Regex::new(r"\d+").unwrap().replace_all(text, |caps: &regex::Captures| verbalize_digit_run(&caps[0])).into_owned()
}

/// Replaces every run of digits with its Chinese reading.
pub fn normalize_numbers(text: &str) -> (s: String)
    requires
        numbers_in_range(text@),
    ensures
        s@ == spec_normalize_numbers(text@),
        no_ascii_digit(s@),
{
    proof {
        lemma_normalize_numbers_no_digit(text@);
    }
    replace_digit_runs(text)
}

// ---------------------------------------------------------------------------
// Punctuation
// ---------------------------------------------------------------------------

/// The punctuation mapping, applied one rule after the other: 嗯 and 呣 are
/// respelt, then full-width and other marks are mapped onto `, . ! ? … -`.
pub open spec fn spec_replace_punctuation(s: Seq<char>) -> Seq<char> {
    let s = replace_seq(s, seq!['嗯'], seq!['恩']);
    let s = replace_seq(s, seq!['呣'], seq!['母']);
    let s = replace_seq(s, seq!['：'], seq![',']);
    let s = replace_seq(s, seq!['；'], seq![',']);
    let s = replace_seq(s, seq!['，'], seq![',']);
    let s = replace_seq(s, seq!['。'], seq!['.']);
    let s = replace_seq(s, seq!['！'], seq!['!']);
    let s = replace_seq(s, seq!['？'], seq!['?']);
    let s = replace_seq(s, seq!['\n'], seq!['.']);
    let s = replace_seq(s, seq!['·'], seq![',']);
    let s = replace_seq(s, seq!['、'], seq![',']);
    let s = replace_seq(s, seq!['.', '.', '.'], seq!['…']);
    let s = replace_seq(s, seq!['$'], seq!['.']);
    let s = replace_seq(s, seq!['/'], seq![',']);
    let s = replace_seq(s, seq!['—'], seq!['-']);
    let s = replace_seq(s, seq!['~'], seq!['…']);
    replace_seq(s, seq!['～'], seq!['…'])
}

fn rule(v: &Vec<char>, from: char, to: char) -> (r: Vec<char>)
    ensures
        r@ == replace_seq(v@, seq![from], seq![to]),
{
    let pat: Vec<char> = vec![from];
    let rep: Vec<char> = vec![to];
    assert(pat@ =~= seq![from]);
    assert(rep@ =~= seq![to]);
    replace_chars(v, &pat, &rep)
}

fn replace_punctuation_chars(v: &Vec<char>) -> (r: Vec<char>)
    ensures
        r@ == spec_replace_punctuation(v@),
{
    let v = rule(v, '嗯', '恩');
    let v = rule(&v, '呣', '母');
    let v = rule(&v, '：', ',');
    let v = rule(&v, '；', ',');
    let v = rule(&v, '，', ',');
    let v = rule(&v, '。', '.');
    let v = rule(&v, '！', '!');
    let v = rule(&v, '？', '?');
    let v = rule(&v, '\n', '.');
    let v = rule(&v, '·', ',');
    let v = rule(&v, '、', ',');
    let dots: Vec<char> = vec!['.', '.', '.'];
    let ellipsis: Vec<char> = vec!['…'];
    assert(dots@ =~= seq!['.', '.', '.']);
    assert(ellipsis@ =~= seq!['…']);
    let v = replace_chars(&v, &dots, &ellipsis);
    let v = rule(&v, '$', '.');
    let v = rule(&v, '/', ',');
    let v = rule(&v, '—', '-');
    let v = rule(&v, '~', '…');
    rule(&v, '～', '…')
}

/// Maps punctuation onto the marks the phoneme front end knows.  The rules
/// are applied in a fixed order: 嗯→恩, 呣→母, then ：；，·、/ → `,`,
/// 。 newline $ → `.`, ！→`!`, ？→`?`, `...` ~ ～ → `…`, — → `-`.
pub fn replace_punctuation(text: &str) -> (s: String)
    ensures
        s@ == spec_replace_punctuation(text@),
{
    let v = chars_of(text);
    let r = replace_punctuation_chars(&v);
    string_from(&r)
}

/// The marks whose runs are collapsed.
pub open spec fn is_collapsible(c: char) -> bool {
    c == '!' || c == '?' || c == ',' || c == '.' || c == '…' || c == '-'
}

/// `s` with every run of collapsible marks cut down to its first mark, where
/// `after_mark` says whether a collapsible mark stands just before `s`.
pub open spec fn collapse_from(s: Seq<char>, after_mark: bool) -> Seq<char>
    decreases s.len(),
{
    if s.len() == 0 {
        s
    } else if is_collapsible(s[0]) {
        if after_mark {
            collapse_from(s.drop_first(), true)
        } else {
            seq![s[0]] + collapse_from(s.drop_first(), true)
        }
    } else {
        seq![s[0]] + collapse_from(s.drop_first(), false)
    }
}

/// `s` with every run of collapsible marks cut down to its first mark.
pub open spec fn collapse_runs(s: Seq<char>) -> Seq<char> {
    collapse_from(s, false)
}

/// No two collapsible marks stand next to each other in `s`.
pub open spec fn no_adjacent_collapsible(s: Seq<char>) -> bool {
    forall|i: int| 0 <= i < s.len() - 1 ==> !(#[trigger] is_collapsible(s[i]) && is_collapsible(s[i + 1]))
}

/// `regex::Regex::new` on the fixed, valid pattern `([!?,.…\-])([!?,.…\-])+`,
/// then `Regex::replace_all` with the replacement `$1`: from left to right, every maximal run of two or
/// more of the marks `! ? , . … -` is replaced by its first mark.
#[verifier::external_body]
fn collapse_punctuation_runs(text: &str) -> (res: String)
    ensures
        res@ == collapse_runs(text@),
{
    regex::Regex::new(r"([!?,.…\-])([!?,.…\-])+").unwrap().replace_all(text, "$1").into_owned()
}

/// The result of collapsing never holds two adjacent collapsible marks, and
/// does not start with one when a mark stands before it.
proof fn lemma_collapse_shape(s: Seq<char>, after_mark: bool)
    ensures
        no_adjacent_collapsible(collapse_from(s, after_mark)),
        after_mark && collapse_from(s, after_mark).len() > 0 ==> !is_collapsible(collapse_from(s, after_mark)[0]),
    decreases s.len(),
{
    if s.len() > 0 {
        let next = is_collapsible(s[0]);
        lemma_collapse_shape(s.drop_first(), next);
        let r = collapse_from(s.drop_first(), next);
        if !(next && after_mark) {
            let t = seq![s[0]] + r;
            assert forall|i: int| 0 <= i < t.len() - 1 implies !(#[trigger] is_collapsible(t[i]) && is_collapsible(t[i + 1])) by {
                if i > 0 {
                    assert(t[i] == r[i - 1]);
                    assert(t[i + 1] == r[i]);
                } else {
                    assert(t[1] == r[0]);
                }
            }
        }
    }
}

/// Where no two collapsible marks are adjacent (and none follows a mark
/// standing before `s`), collapsing changes nothing.
proof fn lemma_collapse_fixed(s: Seq<char>, after_mark: bool)
    requires
        no_adjacent_collapsible(s),
        after_mark && s.len() > 0 ==> !is_collapsible(s[0]),
    ensures
        collapse_from(s, after_mark) == s,
    decreases s.len(),
{
    if s.len() > 0 {
        let t = s.drop_first();
        assert(no_adjacent_collapsible(t)) by {
            assert forall|i: int| 0 <= i < t.len() - 1 implies !(#[trigger] is_collapsible(t[i]) && is_collapsible(t[i + 1])) by {
                assert(t[i] == s[i + 1]);
                assert(s[i + 1 + 1] == t[i + 1]);
                assert(!(is_collapsible(s[i + 1]) && is_collapsible(s[i + 1 + 1])));
            }
        }
        if t.len() > 0 {
            assert(t[0] == s[1]);
            assert(!(is_collapsible(s[0]) && is_collapsible(s[0int + 1])));
        }
        lemma_collapse_fixed(t, is_collapsible(s[0]));
        assert(s =~= seq![s[0]] + t);
    }
}

/// Collapsing twice gives what collapsing once gives.
pub proof fn lemma_collapse_runs_idempotent(s: Seq<char>)
    ensures
        collapse_runs(collapse_runs(s)) == collapse_runs(s),
{
    lemma_collapse_shape(s, false);
    lemma_collapse_fixed(collapse_runs(s), false);
}

/// The punctuation mapping followed by the collapse of every run of marks.
pub open spec fn spec_replace_consecutive_punctuation(s: Seq<char>) -> Seq<char> {
    collapse_runs(spec_replace_punctuation(s))
}

/// Maps punctuation (as `replace_punctuation`) and then cuts every run of
/// the marks `! ? , . … -` down to its first mark, repeating until nothing
/// changes.
pub fn replace_consecutive_punctuation(text: &str) -> (s: String)
    ensures
        s@ == spec_replace_consecutive_punctuation(text@),
        no_adjacent_collapsible(s@),
        spec_replace_consecutive_punctuation(s@) == s@,
{
    proof {
        lemma_replace_consecutive_punctuation_idempotent(text@);
    }
    let replaced = replace_punctuation(text);
    let ghost target = collapse_runs(replaced@);
    proof {
        lemma_collapse_runs_idempotent(replaced@);
    }
    let mut current = replaced;
    let mut first = true;
    loop
        invariant
            first ==> current@ == replaced@,
            !first ==> current@ == target,
            collapse_runs(target) == target,
            target == collapse_runs(replaced@),
        ensures
            current@ == target,
        decreases (if first { 1int } else { 0int }),
    {
        let next = collapse_punctuation_runs(current.as_str());
        if next == current {
            break;
        }
        if !first {
            assert(false);
        }
        current = next;
        first = false;
    }
    proof {
        lemma_collapse_shape(replaced@, false);
    }
    current
}

/// The full normalisation: digits spelt out, punctuation mapped and
/// collapsed, surrounding whitespace trimmed.
pub open spec fn spec_normalize_chinese_text(s: Seq<char>) -> Seq<char> {
    trim_seq(spec_replace_consecutive_punctuation(spec_replace_punctuation(spec_normalize_numbers(s))))
}

/// Normalises Chinese text for the phoneme front end.
pub fn normalize_chinese_text(text: &str) -> (s: String)
    requires
        numbers_in_range(text@),
    ensures
        s@ == spec_normalize_chinese_text(text@),
        trim_seq(s@) == s@,
        no_ascii_digit(s@),
        no_adjacent_collapsible(s@),
{
    proof {
        lemma_normalized_text_shape(text@);
    }
    let t = normalize_numbers(text);
    let t = replace_punctuation(t.as_str());
    let t = replace_consecutive_punctuation(t.as_str());
    let cs = chars_of(t.as_str());
    let r = trim_chars(&cs);
    string_from(&r)
}


// ---------------------------------------------------------------------------
// What normalised text looks like
// ---------------------------------------------------------------------------

/// No character of `s` is an ASCII digit.
pub open spec fn no_ascii_digit(s: Seq<char>) -> bool {
    forall|i: int| 0 <= i < s.len() ==> !is_ascii_digit(#[trigger] s[i])
}

proof fn lemma_no_digit_concat(a: Seq<char>, b: Seq<char>)
    requires
        no_ascii_digit(a),
        no_ascii_digit(b),
    ensures
        no_ascii_digit(a + b),
{
    assert forall|i: int| 0 <= i < (a + b).len() implies !is_ascii_digit(#[trigger] (a + b)[i]) by {
        if i < a.len() {
            assert((a + b)[i] == a[i]);
        } else {
            assert((a + b)[i] == b[i - a.len()]);
        }
    }
}

proof fn lemma_section_fold_no_digit(section: int, top: bool, ds: Seq<u64>, i: nat)
    ensures
        no_ascii_digit(section_fold(section, top, ds, i).0),
    decreases i,
{
    if i > 0 {
        lemma_section_fold_no_digit(section, top, ds, (i - 1) as nat);
        let s = section_fold(section, top, ds, (i - 1) as nat).0;
        let d = ds[i - 1] as int;
        lemma_no_digit_concat(seq!['零'], s);
        lemma_no_digit_concat(unit_seq(1), s);
        lemma_no_digit_concat(seq![digit_char(d)], unit_seq(i - 1));
        lemma_no_digit_concat(seq![digit_char(d)] + unit_seq(i - 1), s);
    }
}

proof fn lemma_sections_words_no_digit(n: nat, idx: nat)
    ensures
        no_ascii_digit(sections_words(n, idx)),
    decreases n,
{
    if n > 0 {
        lemma_sections_words_no_digit(n / 10000, idx + 1);
        let section = n % 10000;
        let high = n / 10000;
        lemma_section_fold_no_digit(section as int, high == 0, decimal_digits(section), decimal_digits(section).len());
        let z: Seq<char> = if zero_before_section(section, high) { seq!['零'] } else { Seq::empty() };
        lemma_no_digit_concat(z, section_words(section, high == 0));
        lemma_no_digit_concat(z + section_words(section, high == 0), big_unit_seq(idx as int));
        let here = if section > 0 { z + section_words(section, high == 0) + big_unit_seq(idx as int) } else { Seq::empty() };
        lemma_no_digit_concat(sections_words(high, idx + 1), here);
    }
}

proof fn lemma_spell_no_digit(s: Seq<char>)
    ensures
        no_ascii_digit(spell_ascii_digits(s)),
    decreases s.len(),
{
    if s.len() > 0 {
        lemma_spell_no_digit(s.drop_first());
        let head = if is_ascii_digit(s[0]) { seq![digit_char(s[0] as int - '0' as int)] } else { Seq::<char>::empty() };
        lemma_no_digit_concat(head, spell_ascii_digits(s.drop_first()));
    }
}

proof fn lemma_flush_no_digit(run: Seq<char>)
    ensures
        no_ascii_digit(flush_run(run)),
{
    lemma_spell_no_digit(run);
    if let Some(v) = spec_parse_i64(run) {
        if v < 0 {
            lemma_sections_words_no_digit((-v) as nat, 0);
            lemma_no_digit_concat(seq!['负'], sections_words((-v) as nat, 0));
        } else if v > 0 {
            lemma_sections_words_no_digit(v as nat, 0);
        }
    }
}

proof fn lemma_replace_runs_no_digit(s: Seq<char>, run: Seq<char>)
    ensures
        no_ascii_digit(replace_runs_from(s, run)),
    decreases s.len(),
{
    lemma_flush_no_digit(run);
    if s.len() > 0 {
        if is_decimal_digit(s[0]) {
            lemma_replace_runs_no_digit(s.drop_first(), run.push(s[0]));
        } else {
            lemma_replace_runs_no_digit(s.drop_first(), Seq::empty());
            lemma_no_digit_concat(flush_run(run), seq![s[0]]);
            lemma_no_digit_concat(flush_run(run) + seq![s[0]], replace_runs_from(s.drop_first(), Seq::empty()));
        }
    }
}

/// After the number normalisation no ASCII digit is left: each run of
/// digits has become Chinese numerals.
pub proof fn lemma_normalize_numbers_no_digit(s: Seq<char>)
    ensures
        no_ascii_digit(spec_normalize_numbers(s)),
{
    lemma_replace_runs_no_digit(s, Seq::empty());
}

proof fn lemma_replace_no_digit(s: Seq<char>, pat: Seq<char>, rep: Seq<char>)
    requires
        no_ascii_digit(s),
        no_ascii_digit(rep),
    ensures
        no_ascii_digit(replace_seq(s, pat, rep)),
    decreases s.len(),
{
    if pat.len() == 0 || s.len() < pat.len() {
    } else if s.take(pat.len() as int) == pat {
        let t = s.skip(pat.len() as int);
        assert forall|i: int| 0 <= i < t.len() implies !is_ascii_digit(#[trigger] t[i]) by {
            assert(t[i] == s[i + pat.len()]);
        }
        lemma_replace_no_digit(t, pat, rep);
        lemma_no_digit_concat(rep, replace_seq(t, pat, rep));
    } else {
        let t = s.drop_first();
        assert forall|i: int| 0 <= i < t.len() implies !is_ascii_digit(#[trigger] t[i]) by {
            assert(t[i] == s[i + 1]);
        }
        lemma_replace_no_digit(t, pat, rep);
        lemma_no_digit_concat(seq![s[0]], replace_seq(t, pat, rep));
    }
}

proof fn lemma_replace_punctuation_no_digit(s0: Seq<char>)
    requires
        no_ascii_digit(s0),
    ensures
        no_ascii_digit(spec_replace_punctuation(s0)),
{
    let s = s0;
    lemma_replace_no_digit(s, seq!['嗯'], seq!['恩']);
    let s = replace_seq(s, seq!['嗯'], seq!['恩']);
    lemma_replace_no_digit(s, seq!['呣'], seq!['母']);
    let s = replace_seq(s, seq!['呣'], seq!['母']);
    lemma_replace_no_digit(s, seq!['：'], seq![',']);
    let s = replace_seq(s, seq!['：'], seq![',']);
    lemma_replace_no_digit(s, seq!['；'], seq![',']);
    let s = replace_seq(s, seq!['；'], seq![',']);
    lemma_replace_no_digit(s, seq!['，'], seq![',']);
    let s = replace_seq(s, seq!['，'], seq![',']);
    lemma_replace_no_digit(s, seq!['。'], seq!['.']);
    let s = replace_seq(s, seq!['。'], seq!['.']);
    lemma_replace_no_digit(s, seq!['！'], seq!['!']);
    let s = replace_seq(s, seq!['！'], seq!['!']);
    lemma_replace_no_digit(s, seq!['？'], seq!['?']);
    let s = replace_seq(s, seq!['？'], seq!['?']);
    lemma_replace_no_digit(s, seq!['\n'], seq!['.']);
    let s = replace_seq(s, seq!['\n'], seq!['.']);
    lemma_replace_no_digit(s, seq!['·'], seq![',']);
    let s = replace_seq(s, seq!['·'], seq![',']);
    lemma_replace_no_digit(s, seq!['、'], seq![',']);
    let s = replace_seq(s, seq!['、'], seq![',']);
    lemma_replace_no_digit(s, seq!['.', '.', '.'], seq!['…']);
    let s = replace_seq(s, seq!['.', '.', '.'], seq!['…']);
    lemma_replace_no_digit(s, seq!['$'], seq!['.']);
    let s = replace_seq(s, seq!['$'], seq!['.']);
    lemma_replace_no_digit(s, seq!['/'], seq![',']);
    let s = replace_seq(s, seq!['/'], seq![',']);
    lemma_replace_no_digit(s, seq!['—'], seq!['-']);
    let s = replace_seq(s, seq!['—'], seq!['-']);
    lemma_replace_no_digit(s, seq!['~'], seq!['…']);
    let s = replace_seq(s, seq!['~'], seq!['…']);
    lemma_replace_no_digit(s, seq!['～'], seq!['…']);
}

proof fn lemma_collapse_no_digit(s: Seq<char>, after_mark: bool)
    requires
        no_ascii_digit(s),
    ensures
        no_ascii_digit(collapse_from(s, after_mark)),
    decreases s.len(),
{
    if s.len() > 0 {
        let t = s.drop_first();
        assert forall|i: int| 0 <= i < t.len() implies !is_ascii_digit(#[trigger] t[i]) by {
            assert(t[i] == s[i + 1]);
        }
        lemma_collapse_no_digit(t, true);
        lemma_collapse_no_digit(t, false);
        lemma_no_digit_concat(seq![s[0]], collapse_from(t, true));
        lemma_no_digit_concat(seq![s[0]], collapse_from(t, false));
    }
}

/// Normalised text is trimmed, holds no ASCII digit, and never has two of
/// the marks `! ? , . … -` next to each other.
pub proof fn lemma_normalized_text_shape(s: Seq<char>)
    ensures
        trim_seq(spec_normalize_chinese_text(s)) == spec_normalize_chinese_text(s),
        no_ascii_digit(spec_normalize_chinese_text(s)),
        no_adjacent_collapsible(spec_normalize_chinese_text(s)),
{
    let a = spec_normalize_numbers(s);
    lemma_normalize_numbers_no_digit(s);
    lemma_replace_punctuation_no_digit(a);
    let b = spec_replace_punctuation(a);
    lemma_replace_punctuation_no_digit(b);
    let c = spec_replace_punctuation(b);
    lemma_collapse_no_digit(c, false);
    lemma_collapse_shape(c, false);
    let d = collapse_runs(c);
    assert(d == spec_replace_consecutive_punctuation(b));
    let r = trim_seq(d);
    crate::text::chars::lemma_trim_idempotent(d);
    let lo = lemma_trim_subrange(d);
    assert forall|i: int| 0 <= i < r.len() implies !is_ascii_digit(#[trigger] r[i]) by {
        assert(r[i] == d[lo + i]);
    }
    assert forall|i: int| 0 <= i < r.len() - 1 implies !(#[trigger] is_collapsible(r[i]) && is_collapsible(r[i + 1])) by {
        assert(r[i] == d[lo + i]);
        assert(r[i + 1] == d[lo + i + 1]);
        assert(!(is_collapsible(d[lo + i]) && is_collapsible(d[lo + i + 1])));
    }
}

// ---------------------------------------------------------------------------
// Mapping and collapsing punctuation a second time
// ---------------------------------------------------------------------------

/// The place of `c` among the single-character rules of the punctuation
/// mapping (counting from 1), or 0 where no such rule rewrites `c`.
pub open spec fn mapped_rank(c: char) -> int {
    if c == '嗯' {
        1
    } else if c == '呣' {
        2
    } else if c == '：' {
        3
    } else if c == '；' {
        4
    } else if c == '，' {
        5
    } else if c == '。' {
        6
    } else if c == '！' {
        7
    } else if c == '？' {
        8
    } else if c == '\n' {
        9
    } else if c == '·' {
        10
    } else if c == '、' {
        11
    } else if c == '$' {
        12
    } else if c == '/' {
        13
    } else if c == '—' {
        14
    } else if c == '~' {
        15
    } else if c == '～' {
        16
    } else {
        0
    }
}

/// No character of `s` is rewritten by one of the first `k` single-character rules.
pub open spec fn clear_of_rules(s: Seq<char>, k: int) -> bool {
    forall|i: int| 0 <= i < s.len() ==> !(1 <= #[trigger] mapped_rank(s[i]) <= k)
}

proof fn lemma_clear_concat(a: Seq<char>, b: Seq<char>, k: int)
    requires
        clear_of_rules(a, k),
        clear_of_rules(b, k),
    ensures
        clear_of_rules(a + b, k),
{
    assert forall|i: int| 0 <= i < (a + b).len() implies !(1 <= #[trigger] mapped_rank((a + b)[i]) <= k) by {
        if i < a.len() {
            assert((a + b)[i] == a[i]);
        } else {
            assert((a + b)[i] == b[i - a.len()]);
        }
    }
}

/// A rule whose output no rule rewrites keeps text clear of the first `k` rules.
proof fn lemma_replace_keeps_clear(s: Seq<char>, pat: Seq<char>, rep: Seq<char>, k: int)
    requires
        clear_of_rules(s, k),
        clear_of_rules(rep, 16),
        k <= 16,
    ensures
        clear_of_rules(replace_seq(s, pat, rep), k),
    decreases s.len(),
{
    if pat.len() == 0 || s.len() < pat.len() {
    } else if s.take(pat.len() as int) == pat {
        let t = s.skip(pat.len() as int);
        assert forall|i: int| 0 <= i < t.len() implies !(1 <= #[trigger] mapped_rank(t[i]) <= k) by {
            assert(t[i] == s[i + pat.len()]);
        }
        lemma_replace_keeps_clear(t, pat, rep, k);
        lemma_clear_concat(rep, replace_seq(t, pat, rep), k);
    } else {
        let t = s.drop_first();
        assert forall|i: int| 0 <= i < t.len() implies !(1 <= #[trigger] mapped_rank(t[i]) <= k) by {
            assert(t[i] == s[i + 1]);
        }
        lemma_replace_keeps_clear(t, pat, rep, k);
        assert(!(1 <= mapped_rank(s[0]) <= k));
        lemma_clear_concat(seq![s[0]], replace_seq(t, pat, rep), k);
    }
}

/// The rule of rank `k` leaves text clear of the first `k` rules when it was
/// clear of the rules before it.
proof fn lemma_replace_clears(s: Seq<char>, c: char, r: char, k: int)
    requires
        clear_of_rules(s, k - 1),
        mapped_rank(c) == k,
        mapped_rank(r) == 0,
        1 <= k <= 16,
    ensures
        clear_of_rules(replace_seq(s, seq![c], seq![r]), k),
    decreases s.len(),
{
    let pat = seq![c];
    if s.len() < 1 {
    } else if s.take(1) == pat {
        let t = s.skip(1);
        assert forall|i: int| 0 <= i < t.len() implies !(1 <= #[trigger] mapped_rank(t[i]) <= k - 1) by {
            assert(t[i] == s[i + 1]);
        }
        lemma_replace_clears(t, c, r, k);
        assert(!(1 <= mapped_rank(seq![r][0]) <= k));
        lemma_clear_concat(seq![r], replace_seq(t, pat, seq![r]), k);
    } else {
        let t = s.drop_first();
        assert forall|i: int| 0 <= i < t.len() implies !(1 <= #[trigger] mapped_rank(t[i]) <= k - 1) by {
            assert(t[i] == s[i + 1]);
        }
        lemma_replace_clears(t, c, r, k);
        assert(s.take(1) =~= seq![s[0]]);
        assert(s[0] != c);
        assert(!(1 <= mapped_rank(s[0]) <= k - 1));
        assert(mapped_rank(s[0]) != k);
        assert(!(1 <= mapped_rank(seq![s[0]][0]) <= k));
        lemma_clear_concat(seq![s[0]], replace_seq(t, pat, seq![r]), k);
    }
}

/// After the punctuation mapping, no character is left that one of its
/// single-character rules would rewrite.
proof fn lemma_replace_punctuation_clears(s0: Seq<char>)
    ensures
        clear_of_rules(spec_replace_punctuation(s0), 16),
{
    let s = s0;
    assert(seq!['…'][0] == '…');
    lemma_replace_clears(s, '嗯', '恩', 1);
    let s = replace_seq(s, seq!['嗯'], seq!['恩']);
    lemma_replace_clears(s, '呣', '母', 2);
    let s = replace_seq(s, seq!['呣'], seq!['母']);
    lemma_replace_clears(s, '：', ',', 3);
    let s = replace_seq(s, seq!['：'], seq![',']);
    lemma_replace_clears(s, '；', ',', 4);
    let s = replace_seq(s, seq!['；'], seq![',']);
    lemma_replace_clears(s, '，', ',', 5);
    let s = replace_seq(s, seq!['，'], seq![',']);
    lemma_replace_clears(s, '。', '.', 6);
    let s = replace_seq(s, seq!['。'], seq!['.']);
    lemma_replace_clears(s, '！', '!', 7);
    let s = replace_seq(s, seq!['！'], seq!['!']);
    lemma_replace_clears(s, '？', '?', 8);
    let s = replace_seq(s, seq!['？'], seq!['?']);
    lemma_replace_clears(s, '\n', '.', 9);
    let s = replace_seq(s, seq!['\n'], seq!['.']);
    lemma_replace_clears(s, '·', ',', 10);
    let s = replace_seq(s, seq!['·'], seq![',']);
    lemma_replace_clears(s, '、', ',', 11);
    let s = replace_seq(s, seq!['、'], seq![',']);
    lemma_replace_keeps_clear(s, seq!['.', '.', '.'], seq!['…'], 11);
    let s = replace_seq(s, seq!['.', '.', '.'], seq!['…']);
    lemma_replace_clears(s, '$', '.', 12);
    let s = replace_seq(s, seq!['$'], seq!['.']);
    lemma_replace_clears(s, '/', ',', 13);
    let s = replace_seq(s, seq!['/'], seq![',']);
    lemma_replace_clears(s, '—', '-', 14);
    let s = replace_seq(s, seq!['—'], seq!['-']);
    lemma_replace_clears(s, '~', '…', 15);
    let s = replace_seq(s, seq!['~'], seq!['…']);
    lemma_replace_clears(s, '～', '…', 16);
}

/// Collapsing runs only drops characters.
proof fn lemma_collapse_keeps_clear(s: Seq<char>, after_mark: bool)
    requires
        clear_of_rules(s, 16),
    ensures
        clear_of_rules(collapse_from(s, after_mark), 16),
    decreases s.len(),
{
    if s.len() > 0 {
        let t = s.drop_first();
        assert forall|i: int| 0 <= i < t.len() implies !(1 <= #[trigger] mapped_rank(t[i]) <= 16) by {
            assert(t[i] == s[i + 1]);
        }
        let next = is_collapsible(s[0]);
        lemma_collapse_keeps_clear(t, next);
        if !(next && after_mark) {
            assert(!(1 <= mapped_rank(seq![s[0]][0]) <= 16));
            lemma_clear_concat(seq![s[0]], collapse_from(t, next), 16);
        }
    }
}

/// Where `pat` occurs nowhere in `s`, replacing it changes nothing.
proof fn lemma_replace_absent(s: Seq<char>, pat: Seq<char>, rep: Seq<char>)
    requires
        pat.len() > 0,
        forall|i: int| 0 <= i && i + pat.len() <= s.len() ==> #[trigger] s.subrange(i, i + pat.len()) != pat,
    ensures
        replace_seq(s, pat, rep) == s,
    decreases s.len(),
{
    if s.len() >= pat.len() {
        assert(s.take(pat.len() as int) == s.subrange(0int, 0int + pat.len()));
        assert(s.subrange(0int, 0int + pat.len()) != pat);
        let t = s.drop_first();
        assert forall|i: int| 0 <= i && i + pat.len() <= t.len() implies #[trigger] t.subrange(i, i + pat.len()) != pat by {
            assert(t.subrange(i, i + pat.len()) =~= s.subrange(i + 1, i + 1 + pat.len()));
        }
        lemma_replace_absent(t, pat, rep);
        assert(s =~= seq![s[0]] + t);
    }
}

proof fn lemma_replace_absent_char(s: Seq<char>, c: char, rep: Seq<char>)
    requires
        clear_of_rules(s, 16),
        1 <= mapped_rank(c) <= 16,
    ensures
        replace_seq(s, seq![c], rep) == s,
{
    assert forall|i: int| 0 <= i && i + seq![c].len() <= s.len() implies #[trigger] s.subrange(i, i + seq![c].len()) != seq![c] by {
        assert(s.subrange(i, i + 1)[0] == s[i]);
        assert(!(1 <= mapped_rank(s[i]) <= 16));
    }
    lemma_replace_absent(s, seq![c], rep);
}

proof fn lemma_no_triple_dot(s: Seq<char>)
    requires
        no_adjacent_collapsible(s),
    ensures
        replace_seq(s, seq!['.', '.', '.'], seq!['…']) == s,
{
    let pat = seq!['.', '.', '.'];
    assert forall|i: int| 0 <= i && i + pat.len() <= s.len() implies #[trigger] s.subrange(i, i + pat.len()) != pat by {
        if s.subrange(i, i + 3) == pat {
            assert(s[i] == s.subrange(i, i + 3)[0]);
            assert(s[i + 1] == s.subrange(i, i + 3)[1]);
            assert(!(is_collapsible(s[i]) && is_collapsible(s[i + 1])));
        }
    }
    lemma_replace_absent(s, pat, seq!['…']);
}

/// Text that no single-character rule rewrites and that holds no two adjacent
/// marks is left as it is by the punctuation mapping.
proof fn lemma_replace_punctuation_fixed(r: Seq<char>)
    requires
        clear_of_rules(r, 16),
        no_adjacent_collapsible(r),
    ensures
        spec_replace_punctuation(r) == r,
{
    lemma_replace_absent_char(r, '嗯', seq!['恩']);
    lemma_replace_absent_char(r, '呣', seq!['母']);
    lemma_replace_absent_char(r, '：', seq![',']);
    lemma_replace_absent_char(r, '；', seq![',']);
    lemma_replace_absent_char(r, '，', seq![',']);
    lemma_replace_absent_char(r, '。', seq!['.']);
    lemma_replace_absent_char(r, '！', seq!['!']);
    lemma_replace_absent_char(r, '？', seq!['?']);
    lemma_replace_absent_char(r, '\n', seq!['.']);
    lemma_replace_absent_char(r, '·', seq![',']);
    lemma_replace_absent_char(r, '、', seq![',']);
    lemma_no_triple_dot(r);
    lemma_replace_absent_char(r, '$', seq!['.']);
    lemma_replace_absent_char(r, '/', seq![',']);
    lemma_replace_absent_char(r, '—', seq!['-']);
    lemma_replace_absent_char(r, '~', seq!['…']);
    lemma_replace_absent_char(r, '～', seq!['…']);
}

/// Mapping and collapsing punctuation is idempotent: applied to its own
/// result it gives that result back.
pub proof fn lemma_replace_consecutive_punctuation_idempotent(t: Seq<char>)
    ensures
        spec_replace_consecutive_punctuation(spec_replace_consecutive_punctuation(t))
            == spec_replace_consecutive_punctuation(t),
{
    let p = spec_replace_punctuation(t);
    let r = collapse_runs(p);
    lemma_replace_punctuation_clears(t);
    lemma_collapse_keeps_clear(p, false);
    lemma_collapse_shape(p, false);
    lemma_replace_punctuation_fixed(r);
    lemma_collapse_fixed(r, false);
}

// ---------------------------------------------------------------------------
// How numbers read, digit by digit
// ---------------------------------------------------------------------------

/// The reading of a section `n` (1 to 9999) written out digit by digit:
/// thousands, hundreds, tens and units each with their place word; one 零
/// for a run of zeros standing between two non-zero digits; and a bare 十
/// for the tens of a leading section from 10 to 19 (十二, but 一百一十二).
pub open spec fn digitwise_section(n: int, top: bool) -> Seq<char> {
    let a = n / 1000;
    let b = (n / 100) % 10;
    let c = (n / 10) % 10;
    let d = n % 10;
    let th = if a > 0 { seq![digit_char(a), '千'] } else { Seq::empty() };
    let hu = if b > 0 {
        seq![digit_char(b), '百']
    } else if a > 0 && (c > 0 || d > 0) {
        seq!['零']
    } else {
        Seq::empty()
    };
    let te = if c > 0 {
        if top && a == 0 && b == 0 && c == 1 { seq!['十'] } else { seq![digit_char(c), '十'] }
    } else if b > 0 && d > 0 {
        seq!['零']
    } else {
        Seq::empty()
    };
    let un = if d > 0 { seq![digit_char(d)] } else { Seq::empty() };
    th + hu + te + un
}

proof fn lemma_digits_of_section(n: nat)
    requires
        0 < n < 10000,
    ensures
        n < 10 ==> decimal_digits(n) == seq![n as u64],
        10 <= n < 100 ==> decimal_digits(n) == seq![(n % 10) as u64, (n / 10) as u64],
        100 <= n < 1000 ==> decimal_digits(n) == seq![(n % 10) as u64, ((n / 10) % 10) as u64, (n / 100) as u64],
        1000 <= n ==> decimal_digits(n) == seq![(n % 10) as u64, ((n / 10) % 10) as u64, ((n / 100) % 10) as u64, (n / 1000) as u64],
{
    reveal_with_fuel(decimal_digits, 5);
    assert(n / 10 / 10 == n / 100);
    assert(n / 10 / 10 / 10 == n / 1000);
    assert(decimal_digits(0) == Seq::<u64>::empty());
    if n < 10 {
        assert(decimal_digits(n) =~= seq![n as u64]);
    } else if n < 100 {
        assert(decimal_digits(n / 10) =~= seq![(n / 10) as u64]);
        assert(decimal_digits(n) =~= seq![(n % 10) as u64, (n / 10) as u64]);
    } else if n < 1000 {
        assert(decimal_digits(n / 100) =~= seq![(n / 100) as u64]);
        assert(decimal_digits(n / 10) =~= seq![((n / 10) % 10) as u64, (n / 100) as u64]);
        assert(decimal_digits(n) =~= seq![(n % 10) as u64, ((n / 10) % 10) as u64, (n / 100) as u64]);
    } else {
        assert(decimal_digits(n / 1000) =~= seq![(n / 1000) as u64]);
        assert(decimal_digits(n / 100) =~= seq![((n / 100) % 10) as u64, (n / 1000) as u64]);
        assert(decimal_digits(n / 10) =~= seq![((n / 10) % 10) as u64, ((n / 100) % 10) as u64, (n / 1000) as u64]);
        assert(decimal_digits(n) =~= seq![(n % 10) as u64, ((n / 10) % 10) as u64, ((n / 100) % 10) as u64, (n / 1000) as u64]);
    }
}

/// One step of the section fold, for a digit below the tens of a section of
/// at least 100 (where the bare 十 never applies).
proof fn lemma_fold_step(x: int, top: bool, ds: Seq<u64>, i: nat)
    requires
        1 <= i <= ds.len(),
        x >= 100 || i != 2,
    ensures
        section_fold(x, top, ds, i) == ({
            let (s, zero) = section_fold(x, top, ds, (i - 1) as nat);
            let d = ds[i - 1] as int;
            if d == 0 {
                if !zero && s.len() > 0 { (seq!['零'] + s, true) } else { (s, zero) }
            } else {
                (seq![digit_char(d)] + unit_seq(i - 1) + s, false)
            }
        }),
{
}

/// Section law: a section from 1 to 9999 reads digit by digit, as
/// `digitwise_section` spells out.
#[verifier::rlimit(50)]
pub proof fn lemma_section_reads_digitwise(n: nat, top: bool)
    requires
        0 < n < 10000,
    ensures
        section_words(n, top) == digitwise_section(n as int, top),
{
    lemma_digits_of_section(n);
    let ds = decimal_digits(n);
    let x = n as int;
    let d0 = x % 10;
    let d1 = (x / 10) % 10;
    let d2 = (x / 100) % 10;
    let f0 = section_fold(x, top, ds, 0);
    assert(f0 == (Seq::<char>::empty(), false));
    let f1 = section_fold(x, top, ds, 1);
    assert(f1.0 =~= (if d0 > 0 { seq![digit_char(d0)] } else { Seq::<char>::empty() }));
    assert(f1.1 == false);
    if n < 10 {
        assert(section_words(n, top) =~= digitwise_section(x, top));
    } else if n < 100 {
        let f2 = section_fold(x, top, ds, 2);
        assert(ds[1] as int == x / 10);
        if x / 10 == 1 && top {
            assert(f2.0 =~= seq!['十'] + f1.0);
        } else {
            assert(f2.0 =~= seq![digit_char(x / 10), '十'] + f1.0);
        }
        assert(section_words(n, top) =~= digitwise_section(x, top));
    } else if n < 1000 {
        lemma_fold_step(x, top, ds, 2);
        lemma_fold_step(x, top, ds, 3);
        let f2 = section_fold(x, top, ds, 2);
        let f3 = section_fold(x, top, ds, 3);
        assert(f2.0 =~= (if d1 > 0 { seq![digit_char(d1), '十'] } else if d0 > 0 { seq!['零'] } else { Seq::<char>::empty() }) + f1.0);
        assert(f2.1 == (d1 == 0 && d0 > 0));
        assert(f3.0 =~= seq![digit_char(x / 100), '百'] + f2.0);
        assert(section_words(n, top) =~= digitwise_section(x, top));
    } else {
        lemma_fold_step(x, top, ds, 2);
        lemma_fold_step(x, top, ds, 3);
        lemma_fold_step(x, top, ds, 4);
        let f2 = section_fold(x, top, ds, 2);
        let f3 = section_fold(x, top, ds, 3);
        let f4 = section_fold(x, top, ds, 4);
        assert(f2.0 =~= (if d1 > 0 { seq![digit_char(d1), '十'] } else if d0 > 0 { seq!['零'] } else { Seq::<char>::empty() }) + f1.0);
        assert(f2.1 == (d1 == 0 && d0 > 0));
        assert(f3.0 =~= (if d2 > 0 { seq![digit_char(d2), '百'] } else if d1 > 0 { seq!['零'] } else { Seq::<char>::empty() }) + f2.0);
        assert(f4.0 =~= seq![digit_char(x / 1000), '千'] + f3.0);
        assert(section_words(n, top) =~= digitwise_section(x, top));
    }
}

/// Number law: a number from 1 to 9999 reads as its one section, digit by
/// digit (so 115 reads 一百一十五 and 15 reads 十五).
pub proof fn lemma_small_number_reading(n: int)
    requires
        0 < n < 10000,
    ensures
        spec_number_to_chinese(n) == digitwise_section(n, true),
{
    lemma_section_reads_digitwise(n as nat, true);
    assert(sections_words(0, 1) == Seq::<char>::empty());
    assert(spec_number_to_chinese(n) =~= section_words(n as nat, true));
}

/// Number law: a number from 10000 to 99999999 reads as its upper section,
/// 万, a 零 where the lower section is below 1000 (but not zero), and the
/// lower section (一万零五, 十二万三千).
pub proof fn lemma_wan_number_reading(h: int, l: int)
    requires
        0 < h < 10000,
        0 <= l < 10000,
    ensures
        spec_number_to_chinese(h * 10000 + l) == digitwise_section(h, true) + seq!['万']
            + (if 0 < l < 1000 { seq!['零'] } else { Seq::<char>::empty() })
            + (if l > 0 { digitwise_section(l, false) } else { Seq::<char>::empty() }),
{
    let n = h * 10000 + l;
    assert(n % 10000 == l && n / 10000 == h) by (nonlinear_arith)
        requires n == h * 10000 + l, 0 <= l < 10000, 0 < h;
    assert(h % 10000 == h && h / 10000 == 0);
    lemma_section_reads_digitwise(h as nat, true);
    if l > 0 {
        lemma_section_reads_digitwise(l as nat, false);
    }
    assert(sections_words(0, 2) == Seq::<char>::empty());
    assert(sections_words(h as nat, 1) =~= section_words(h as nat, true) + seq!['万']);
    assert(spec_number_to_chinese(n) =~= digitwise_section(h, true) + seq!['万']
            + (if 0 < l < 1000 { seq!['零'] } else { Seq::<char>::empty() })
            + (if l > 0 { digitwise_section(l, false) } else { Seq::<char>::empty() }));
}

/// Number law: zero reads 零, and a negative number reads 负 before the
/// reading of its magnitude.
pub proof fn lemma_sign_reading(n: int)
    requires
        n > 0,
    ensures
        spec_number_to_chinese(0) == seq!['零'],
        spec_number_to_chinese(-n) == seq!['负'] + spec_number_to_chinese(n),
{
}

/// Number law: a whole number of 亿 (1 to 9999 of them) reads as that
/// number followed by 亿 (三亿, 一千二百亿).
pub proof fn lemma_yi_number_reading(h: int)
    requires
        0 < h < 10000,
    ensures
        spec_number_to_chinese(h * 100000000) == digitwise_section(h, true) + seq!['亿'],
{
    let n = h * 100000000;
    let m = h * 10000;
    assert(n == m * 10000) by (nonlinear_arith)
        requires n == h * 100000000, m == h * 10000;
    assert(n % 10000 == 0 && n / 10000 == m) by (nonlinear_arith)
        requires n == m * 10000, 0 < m;
    assert(m % 10000 == 0 && m / 10000 == h) by (nonlinear_arith)
        requires m == h * 10000, 0 < h;
    assert(h % 10000 == h && h / 10000 == 0);
    lemma_section_reads_digitwise(h as nat, true);
    assert(sections_words(0, 3) == Seq::<char>::empty());
    assert(sections_words(h as nat, 2) =~= section_words(h as nat, true) + seq!['亿']);
    assert(sections_words(m as nat, 1) =~= sections_words(h as nat, 2));
    assert(spec_number_to_chinese(n) =~= sections_words(m as nat, 1));
}

} // verus!
