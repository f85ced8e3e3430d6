//! Grapheme-to-phoneme conversion for Chinese and English text: pinyin
//! lookup with tone sandhi, the mapping of pinyin onto initial and final
//! phones, English words through the CMU dictionary or a letter-by-letter
//! fallback, and the per-character phone counts (`word2ph`) that align
//! character features with phones.

use vstd::prelude::*;
use crate::text::chars::{
    char_views, chars_of, copy_chars, is_whitespace, push_piece, same_chars,
    spec_is_whitespace, string_from, string_views, to_uppercase, trim_chars, trim_seq, all_ascii, ascii_upper_seq, ascii_lower_seq,
    ascii_lower_char, ascii_upper_char,
    unicode_uppercase,
};
use crate::text::normalizer::{is_ascii_digit, normalize_chinese_text, numbers_in_range, spec_normalize_chinese_text};

verus! {

/// A pinyin syllable split into its initial and its toned final.
pub struct PinyinPhone {
    pub initial: String,
    pub final_with_tone: String,
    pub raw_tone: u8,
}

// ---------------------------------------------------------------------------
// Pronunciation tables
// ---------------------------------------------------------------------------

/// The pinyin tables: the toned pinyin of each Chinese character (such as
/// `hao3`) and, for each toneless pinyin, its initial and final.  Lookups
/// take the first entry for a key.
pub struct PinyinTables {
    chars: Vec<(char, String)>,
    syllables: Vec<(String, String, String)>,
}

/// The first pinyin listed for `c`.
pub open spec fn lookup_char(entries: Seq<(char, Seq<char>)>, c: char) -> Option<Seq<char>>
    decreases entries.len(),
{
    if entries.len() == 0 {
        None
    } else if entries[0].0 == c {
        Some(entries[0].1)
    } else {
        lookup_char(entries.drop_first(), c)
    }
}

/// The first (initial, final) listed for the toneless pinyin `base`.
pub open spec fn lookup_syllable(entries: Seq<(Seq<char>, Seq<char>, Seq<char>)>, base: Seq<char>) -> Option<(Seq<char>, Seq<char>)>
    decreases entries.len(),
{
    if entries.len() == 0 {
        None
    } else if entries[0].0 == base {
        Some((entries[0].1, entries[0].2))
    } else {
        lookup_syllable(entries.drop_first(), base)
    }
}

impl PinyinTables {
    pub closed spec fn char_entries(&self) -> Seq<(char, Seq<char>)> {
        self.chars@.map_values(|e: (char, String)| (e.0, e.1@))
    }

    pub closed spec fn syllable_entries(&self) -> Seq<(Seq<char>, Seq<char>, Seq<char>)> {
        self.syllables@.map_values(|e: (String, String, String)| (e.0@, e.1@, e.2@))
    }

    /// Tables with no entry.
    pub fn empty() -> (t: Self)
        ensures
            t.char_entries().len() == 0,
            t.syllable_entries().len() == 0,
    {
        PinyinTables { chars: Vec::new(), syllables: Vec::new() }
    }

    /// Tables holding the given entries, in order.
    pub fn from_entries(chars: Vec<(char, String)>, syllables: Vec<(String, String, String)>) -> (t: Self)
        ensures
            t.char_entries() == chars@.map_values(|e: (char, String)| (e.0, e.1@)),
            t.syllable_entries() == syllables@.map_values(|e: (String, String, String)| (e.0@, e.1@, e.2@)),
    {
        PinyinTables { chars, syllables }
    }

    /// The toned pinyin listed for `c`.
    pub fn pinyin_of(&self, c: char) -> (r: Option<Vec<char>>)
        ensures
            r matches Some(p) ==> lookup_char(self.char_entries(), c) == Some(p@),
            r is None ==> lookup_char(self.char_entries(), c) is None,
    {
        let mut i: usize = 0;
        assert(self.char_entries().skip(0) =~= self.char_entries());
        while i < self.chars.len()
            invariant
                i <= self.chars.len(),
                self.char_entries().len() == self.chars.len(),
                lookup_char(self.char_entries(), c) == lookup_char(self.char_entries().skip(i as int), c),
            decreases self.chars.len() - i,
        {
            assert(self.char_entries().skip(i as int).drop_first() =~= self.char_entries().skip(i + 1));
            assert(self.char_entries().skip(i as int)[0] == self.char_entries()[i as int]);
            if self.chars[i].0 == c {
                let p = chars_of(self.chars[i].1.as_str());
                return Some(p);
            }
            i = i + 1;
        }
        None
    }

    /// The initial and final listed for the toneless pinyin `base`.
    pub fn syllable_of(&self, base: &[char]) -> (r: Option<(Vec<char>, Vec<char>)>)
        ensures
            r matches Some(p) ==> lookup_syllable(self.syllable_entries(), base@) == Some((p.0@, p.1@)),
            r is None ==> lookup_syllable(self.syllable_entries(), base@) is None,
    {
        let mut i: usize = 0;
        assert(self.syllable_entries().skip(0) =~= self.syllable_entries());
        while i < self.syllables.len()
            invariant
                i <= self.syllables.len(),
                self.syllable_entries().len() == self.syllables.len(),
                lookup_syllable(self.syllable_entries(), base@) == lookup_syllable(self.syllable_entries().skip(i as int), base@),
            decreases self.syllables.len() - i,
        {
            assert(self.syllable_entries().skip(i as int).drop_first() =~= self.syllable_entries().skip(i + 1));
            assert(self.syllable_entries().skip(i as int)[0] == self.syllable_entries()[i as int]);
            let key = chars_of(self.syllables[i].0.as_str());
            if same_chars(&key, base) {
                let a = chars_of(self.syllables[i].1.as_str());
                let b = chars_of(self.syllables[i].2.as_str());
                return Some((a, b));
            }
            i = i + 1;
        }
        None
    }
}

/// The CMU pronouncing dictionary: upper-case words with their ARPAbet
/// phones.  A lookup takes the first entry for a word.
pub struct CmuDict {
    entries: Vec<(String, Vec<String>)>,
}

/// The first phones listed for `word`.
pub open spec fn lookup_word(entries: Seq<(Seq<char>, Seq<Seq<char>>)>, word: Seq<char>) -> Option<Seq<Seq<char>>>
    decreases entries.len(),
{
    if entries.len() == 0 {
        None
    } else if entries[0].0 == word {
        Some(entries[0].1)
    } else {
        lookup_word(entries.drop_first(), word)
    }
}

impl CmuDict {
    pub closed spec fn word_entries(&self) -> Seq<(Seq<char>, Seq<Seq<char>>)> {
        self.entries@.map_values(|e: (String, Vec<String>)| (e.0@, string_views(e.1@)))
    }

    /// A dictionary with no word.
    pub fn empty() -> (d: Self)
        ensures
            d.word_entries().len() == 0,
    {
        CmuDict { entries: Vec::new() }
    }

    /// A dictionary holding the given entries, in order.
    pub fn from_entries(entries: Vec<(String, Vec<String>)>) -> (d: Self)
        ensures
            d.word_entries() == entries@.map_values(|e: (String, Vec<String>)| (e.0@, string_views(e.1@))),
    {
        CmuDict { entries }
    }

    /// The phones listed for `word`.
    pub fn phones_of(&self, word: &[char]) -> (r: Option<Vec<String>>)
        ensures
            r matches Some(p) ==> lookup_word(self.word_entries(), word@) == Some(string_views(p@)),
            r is None ==> lookup_word(self.word_entries(), word@) is None,
    {
        let mut i: usize = 0;
        assert(self.word_entries().skip(0) =~= self.word_entries());
        while i < self.entries.len()
            invariant
                i <= self.entries.len(),
                self.word_entries().len() == self.entries.len(),
                lookup_word(self.word_entries(), word@) == lookup_word(self.word_entries().skip(i as int), word@),
            decreases self.entries.len() - i,
        {
            assert(self.word_entries().skip(i as int).drop_first() =~= self.word_entries().skip(i + 1));
            assert(self.word_entries().skip(i as int)[0] == self.word_entries()[i as int]);
            let key = chars_of(self.entries[i].0.as_str());
            if same_chars(&key, word) {
                let phones = clone_strings(&self.entries[i].1);
                return Some(phones);
            }
            i = i + 1;
        }
        None
    }
}

/// The lines of `s`: the pieces between `\n` separators, the piece after
/// the last separator included.
pub open spec fn lines_fold(s: Seq<char>, i: nat) -> (Seq<Seq<char>>, Seq<char>)
    decreases i,
{
    if i == 0 || i > s.len() {
        (Seq::empty(), Seq::empty())
    } else {
        let prev = lines_fold(s, (i - 1) as nat);
        if s[i - 1] == '\n' { (prev.0.push(prev.1), Seq::empty()) } else { (prev.0, prev.1.push(s[i - 1])) }
    }
}

pub open spec fn text_lines(s: Seq<char>) -> Seq<Seq<char>> {
    let f = lines_fold(s, s.len());
    f.0.push(f.1)
}

/// The whitespace-separated words of `s`, as `str::split_whitespace` gives
/// them.
pub open spec fn words_fold(s: Seq<char>, i: nat) -> (Seq<Seq<char>>, Seq<char>)
    decreases i,
{
    if i == 0 || i > s.len() {
        (Seq::empty(), Seq::empty())
    } else {
        let prev = words_fold(s, (i - 1) as nat);
        if spec_is_whitespace(s[i - 1]) {
            if prev.1.len() > 0 { (prev.0.push(prev.1), Seq::empty()) } else { prev }
        } else {
            (prev.0, prev.1.push(s[i - 1]))
        }
    }
}

pub open spec fn words(s: Seq<char>) -> Seq<Seq<char>> {
    let f = words_fold(s, s.len());
    if f.1.len() > 0 { f.0.push(f.1) } else { f.0 }
}

/// The position of the first `(` in `w`, or its length.
pub open spec fn paren_index(w: Seq<char>) -> nat
    decreases w.len(),
{
    if w.len() == 0 || w[0] == '(' { 0 } else { 1 + paren_index(w.drop_first()) }
}

/// A dictionary word without its variant marker: `A(2)` is `A`.
pub open spec fn base_word(w: Seq<char>) -> Seq<char> {
    w.take(paren_index(w) as int)
}

/// The entry a dictionary line holds: none for a blank line or a `#`
/// comment; otherwise its first word without variant marker, with the
/// remaining words as phones.
pub open spec fn line_entry(line: Seq<char>) -> Option<(Seq<char>, Seq<Seq<char>>)> {
    let t = trim_seq(line);
    if t.len() == 0 || t[0] == '#' || words(t).len() == 0 {
        None
    } else {
        Some((base_word(words(t)[0]), words(t).drop_first()))
    }
}

/// The entries of the given lines, in order.
pub open spec fn entries_of_lines(ls: Seq<Seq<char>>) -> Seq<(Seq<char>, Seq<Seq<char>>)>
    decreases ls.len(),
{
    if ls.len() == 0 {
        Seq::empty()
    } else {
        let prev = entries_of_lines(ls.drop_last());
        match line_entry(ls.last()) {
            Some(e) => prev.push(e),
            None => prev,
        }
    }
}

/// The entries of a dictionary in the `cmudict` text format.
pub open spec fn spec_parse_dict(s: Seq<char>) -> Seq<(Seq<char>, Seq<Seq<char>>)> {
    entries_of_lines(text_lines(s))
}

/// The whitespace-separated words of `t`.
fn split_words(t: &[char]) -> (r: Vec<Vec<char>>)
    ensures
        char_views(r@) == words(t@),
{
    let mut out: Vec<Vec<char>> = Vec::new();
    let mut cur: Vec<char> = Vec::new();
    let mut i: usize = 0;
    while i < t.len()
        invariant
            i <= t.len(),
            (char_views(out@), cur@) == words_fold(t@, i as nat),
        decreases t.len() - i,
    {
        let c = t[i];
        if is_whitespace(c) {
            if cur.len() > 0 {
                let done = cur;
                cur = Vec::new();
                push_piece(&mut out, done);
            }
        } else {
            cur.push(c);
        }
        i = i + 1;
    }
    if cur.len() > 0 {
        push_piece(&mut out, cur);
    }
    out
}

fn base_word_of(w: &[char]) -> (r: String)
    ensures
        r@ == base_word(w@),
{
    let mut i: usize = 0;
    assert(w@.skip(0) =~= w@);
    while i < w.len() && w[i] != '('
        invariant
            i <= w.len(),
            paren_index(w@) == i + paren_index(w@.skip(i as int)),
        decreases w.len() - i,
    {
        assert(w@.skip(i as int).drop_first() =~= w@.skip(i + 1));
        i = i + 1;
    }
    assert(paren_index(w@.skip(i as int)) == 0);
    string_from(w.split_at(i).0)
}

/// The entry of one dictionary line.
fn line_entry_of(line: &[char]) -> (r: Option<(String, Vec<String>)>)
    ensures
        match (r, line_entry(line@)) {
            (Some(e), Some(x)) => e.0@ == x.0 && string_views(e.1@) == x.1,
            (None, None) => true,
            _ => false,
        },
{
    let t = trim_chars(line);
    if t.len() == 0 || t[0] == '#' {
        return None;
    }
    let ws = split_words(&t);
    if ws.len() == 0 {
        return None;
    }
    let word = base_word_of(ws[0].as_slice());
    let mut phones: Vec<String> = Vec::new();
    let mut k: usize = 1;
    while k < ws.len()
        invariant
            1 <= k <= ws.len(),
            char_views(ws@) == words(t@),
            string_views(phones@) == words(t@).drop_first().take(k - 1),
        decreases ws.len() - k,
    {
        let p = string_from(ws[k].as_slice());
        let ghost before = phones@;
        phones.push(p);
        assert(string_views(phones@) =~= string_views(before).push(p@));
        assert(words(t@).drop_first().take(k as int) =~= words(t@).drop_first().take(k - 1).push(words(t@)[k as int]));
        k = k + 1;
    }
    assert(words(t@).drop_first().take(ws.len() - 1) =~= words(t@).drop_first());
    Some((word, phones))
}

impl CmuDict {
    /// Reads a dictionary in the `cmudict` text format: one word per line
    /// followed by its phones, blank lines and `#` comments skipped, and a
    /// variant such as `A(2)` filed under its base word, where a lookup,
    /// which takes the first entry, never reaches it.
    pub fn parse(data: &str) -> (d: Self)
        ensures
            d.word_entries() == spec_parse_dict(data@),
    {
        let cs = chars_of(data);
        let mut entries: Vec<(String, Vec<String>)> = Vec::new();
        let mut cur: Vec<char> = Vec::new();
        let mut i: usize = 0;
        while i < cs.len()
            invariant
                i <= cs.len(),
                cs@ == data@,
                entries@.map_values(|e: (String, Vec<String>)| (e.0@, string_views(e.1@)))
                    == entries_of_lines(lines_fold(data@, i as nat).0),
                cur@ == lines_fold(data@, i as nat).1,
            decreases cs.len() - i,
        {
            let c = cs[i];
            if c == '\n' {
                let ghost done = lines_fold(data@, i as nat).0;
                assert(done.push(cur@).drop_last() =~= done);
                match line_entry_of(&cur) {
                    Some(e) => {
                        let ghost before = entries@.map_values(|e: (String, Vec<String>)| (e.0@, string_views(e.1@)));
                        let ghost ev = (e.0@, string_views(e.1@));
                        entries.push(e);
                        assert(entries@.map_values(|e: (String, Vec<String>)| (e.0@, string_views(e.1@))) =~= before.push(ev));
                    },
                    None => {},
                }
                cur = Vec::new();
            } else {
                cur.push(c);
            }
            i = i + 1;
        }
        let ghost done = lines_fold(data@, cs.len() as nat).0;
        assert(done.push(cur@).drop_last() =~= done);
        match line_entry_of(&cur) {
            Some(e) => {
                let ghost before = entries@.map_values(|e: (String, Vec<String>)| (e.0@, string_views(e.1@)));
                let ghost ev = (e.0@, string_views(e.1@));
                entries.push(e);
                assert(entries@.map_values(|e: (String, Vec<String>)| (e.0@, string_views(e.1@))) =~= before.push(ev));
            },
            None => {},
        }
        CmuDict { entries }
    }
}

/// The words of each line of `s`.
pub open spec fn line_words(s: Seq<char>) -> Seq<Seq<Seq<char>>> {
    text_lines(s).map_values(|l: Seq<char>| words(l))
}

/// The character entry of a pinyin table line with words `w`: a character
/// (other than `#`) and its toned pinyin, the line having exactly these two words.
pub open spec fn char_entry(w: Seq<Seq<char>>) -> Option<(char, Seq<char>)> {
    if w.len() == 2 && w[0].len() == 1 && w[0][0] != '#' { Some((w[0][0], w[1])) } else { None }
}

/// The syllable entry of a pinyin table line with words `w`: a toneless
/// pinyin (not starting with `#`), its initial and its final, the line having
/// exactly these three words.
pub open spec fn syllable_entry(w: Seq<Seq<char>>) -> Option<(Seq<char>, Seq<char>, Seq<char>)> {
    if w.len() == 3 && w[0].len() > 0 && w[0][0] != '#' { Some((w[0], w[1], w[2])) } else { None }
}

/// The character entries of lines with words `ws`, in order.
pub open spec fn char_entries_of(ws: Seq<Seq<Seq<char>>>) -> Seq<(char, Seq<char>)>
    decreases ws.len(),
{
    if ws.len() == 0 {
        Seq::empty()
    } else {
        let prev = char_entries_of(ws.drop_last());
        match char_entry(ws.last()) {
            Some(e) => prev.push(e),
            None => prev,
        }
    }
}

/// The syllable entries of lines with words `ws`, in order.
pub open spec fn syllable_entries_of(ws: Seq<Seq<Seq<char>>>) -> Seq<(Seq<char>, Seq<char>, Seq<char>)>
    decreases ws.len(),
{
    if ws.len() == 0 {
        Seq::empty()
    } else {
        let prev = syllable_entries_of(ws.drop_last());
        match syllable_entry(ws.last()) {
            Some(e) => prev.push(e),
            None => prev,
        }
    }
}

pub open spec fn word_lists(v: Seq<Vec<Vec<char>>>) -> Seq<Seq<Seq<char>>> {
    v.map_values(|l: Vec<Vec<char>>| char_views(l@))
}

/// The words of each line of `data`.
fn split_line_words(data: &str) -> (r: Vec<Vec<Vec<char>>>)
    ensures
        word_lists(r@) == line_words(data@),
{
    let cs = chars_of(data);
    let mut out: Vec<Vec<Vec<char>>> = Vec::new();
    let mut cur: Vec<char> = Vec::new();
    let mut i: usize = 0;
    assert(word_lists(out@) =~= lines_fold(data@, 0).0.map_values(|l: Seq<char>| words(l)));
    while i < cs.len()
        invariant
            i <= cs.len(),
            cs@ == data@,
            word_lists(out@) == lines_fold(data@, i as nat).0.map_values(|l: Seq<char>| words(l)),
            cur@ == lines_fold(data@, i as nat).1,
        decreases cs.len() - i,
    {
        if cs[i] == '\n' {
            let w = split_words(&cur);
            let ghost before = word_lists(out@);
            out.push(w);
            assert(word_lists(out@) =~= before.push(words(cur@)));
            assert(lines_fold(data@, (i + 1) as nat).0.map_values(|l: Seq<char>| words(l))
                =~= lines_fold(data@, i as nat).0.map_values(|l: Seq<char>| words(l)).push(words(cur@)));
            cur = Vec::new();
        } else {
            cur.push(cs[i]);
        }
        i = i + 1;
    }
    let w = split_words(&cur);
    let ghost before = word_lists(out@);
    out.push(w);
    assert(word_lists(out@) =~= before.push(words(cur@)));
    assert(line_words(data@) =~= lines_fold(data@, data@.len()).0.map_values(|l: Seq<char>| words(l)).push(words(cur@)));
    out
}

impl PinyinTables {
    /// Reads the tables from text: in `char_data` each line `字 zi4` gives a
    /// character and its toned pinyin, in `syllable_data` (the layout of
    /// `opencpop-strict.txt`) each line `zi z i` gives a toneless pinyin, its
    /// initial and its final; words are separated by whitespace, and lines of
    /// another shape, or starting with `#`, are skipped.
    pub fn parse(char_data: &str, syllable_data: &str) -> (t: Self)
        ensures
            t.char_entries() == char_entries_of(line_words(char_data@)),
            t.syllable_entries() == syllable_entries_of(line_words(syllable_data@)),
    {
        let cl = split_line_words(char_data);
        let mut chars: Vec<(char, String)> = Vec::new();
        let mut k: usize = 0;
        assert(word_lists(cl@).take(0) =~= Seq::<Seq<Seq<char>>>::empty());
        while k < cl.len()
            invariant
                k <= cl.len(),
                chars@.map_values(|e: (char, String)| (e.0, e.1@)) == char_entries_of(word_lists(cl@).take(k as int)),
            decreases cl.len() - k,
        {
            let w = &cl[k];
            assert(word_lists(cl@).take(k + 1).drop_last() =~= word_lists(cl@).take(k as int));
            assert(word_lists(cl@).take(k + 1).last() == char_views(w@));
            if w.len() == 2 && w[0].len() == 1 && w[0][0] != '#' {
                let p = string_from(w[1].as_slice());
                let ghost before = chars@.map_values(|e: (char, String)| (e.0, e.1@));
                chars.push((w[0][0], p));
                assert(chars@.map_values(|e: (char, String)| (e.0, e.1@)) =~= before.push((w@[0]@[0], w@[1]@)));
            }
            k = k + 1;
        }
        assert(word_lists(cl@).take(cl.len() as int) =~= word_lists(cl@));
        let sl = split_line_words(syllable_data);
        let mut syllables: Vec<(String, String, String)> = Vec::new();
        let mut k: usize = 0;
        assert(word_lists(sl@).take(0) =~= Seq::<Seq<Seq<char>>>::empty());
        while k < sl.len()
            invariant
                k <= sl.len(),
                syllables@.map_values(|e: (String, String, String)| (e.0@, e.1@, e.2@))
                    == syllable_entries_of(word_lists(sl@).take(k as int)),
            decreases sl.len() - k,
        {
            let w = &sl[k];
            assert(word_lists(sl@).take(k + 1).drop_last() =~= word_lists(sl@).take(k as int));
            assert(word_lists(sl@).take(k + 1).last() == char_views(w@));
            if w.len() == 3 && w[0].len() > 0 && w[0][0] != '#' {
                let a = string_from(w[0].as_slice());
                let b = string_from(w[1].as_slice());
                let c = string_from(w[2].as_slice());
                let ghost before = syllables@.map_values(|e: (String, String, String)| (e.0@, e.1@, e.2@));
                syllables.push((a, b, c));
                assert(syllables@.map_values(|e: (String, String, String)| (e.0@, e.1@, e.2@))
                    =~= before.push((w@[0]@, w@[1]@, w@[2]@)));
            }
            k = k + 1;
        }
        assert(word_lists(sl@).take(sl.len() as int) =~= word_lists(sl@));
        PinyinTables { chars, syllables }
    }
}

/// A copy of each string.
fn clone_strings(v: &Vec<String>) -> (r: Vec<String>)
    ensures
        string_views(r@) == string_views(v@),
{
    let mut r: Vec<String> = Vec::new();
    let mut i: usize = 0;
    while i < v.len()
        invariant
            i <= v.len(),
            r@.len() == i,
            string_views(r@) =~= string_views(v@).take(i as int),
        decreases v.len() - i,
    {
        let s = v[i].clone();
        let ghost old_r = r@;
        r.push(s);
        assert(string_views(r@) =~= string_views(old_r).push(v@[i as int]@));
        i = i + 1;
    }
    assert(string_views(v@).take(v.len() as int) =~= string_views(v@));
    r
}

// ---------------------------------------------------------------------------
// Tones
// ---------------------------------------------------------------------------

/// The tone of a toned pinyin: its last character read as a digit, or 5
/// (neutral) when it does not end with a digit.
pub open spec fn tone_of(py: Seq<char>) -> int {
    if py.len() > 0 && is_ascii_digit(py.last()) { py.last() as int - '0' as int } else { 5 }
}

/// A pinyin without its trailing tone digit.
pub open spec fn base_of(py: Seq<char>) -> Seq<char> {
    if py.len() > 0 && is_ascii_digit(py.last()) { py.drop_last() } else { py }
}

/// Tone sandhi for the character `ch` read as `py` and followed by a
/// character read as `next` (none at the end): 一 takes tone 2 before a
/// fourth tone and tone 4 before tones 1 to 3; 不 takes tone 2 before a fourth
/// tone; any other third tone before a third tone becomes a second tone.
pub open spec fn sandhi(ch: char, py: Seq<char>, next: Option<Seq<char>>) -> Seq<char> {
    if py.len() == 0 {
        py
    } else {
        match next {
            None => py,
            Some(nx) => {
                let nt = tone_of(nx);
                if ch == '一' {
                    if nt == 4 { base_of(py).push('2') }
                    else if nt == 1 || nt == 2 || nt == 3 { base_of(py).push('4') }
                    else { py }
                } else if ch == '不' {
                    if nt == 4 { base_of(py).push('2') } else { py }
                } else if tone_of(py) == 3 && nt == 3 {
                    base_of(py).push('2')
                } else {
                    py
                }
            }
        }
    }
}

/// The pinyin of position `i` after tone sandhi over `n` characters.
pub open spec fn sandhi_at(chars: Seq<char>, pys: Seq<Seq<char>>, n: int, i: int) -> Seq<char> {
    sandhi(chars[i], pys[i], if i + 1 < n { Some(pys[i + 1]) } else { None })
}

/// `py` with a trailing ASCII digit (its tone) replaced by `t`, or `t`
/// appended where it has none.
pub open spec fn retoned(py: Seq<char>, t: char) -> Seq<char> {
    if py.len() > 0 && '0' <= py.last() <= '9' { py.drop_last().push(t) } else { py.push(t) }
}

/// Tone sandhi law for 一: followed by a syllable of tone 1, 2 or 3 it is
/// read with tone 4 (一天, 一年, 一起), followed by a syllable of tone 4 with
/// tone 2 (一个).
pub proof fn lemma_sandhi_yi(chars: Seq<char>, pys: Seq<Seq<char>>, n: int, i: int)
    requires
        0 <= i,
        i + 1 < n,
        chars[i] == '一',
        pys[i].len() > 0,
        pys[i + 1].len() > 0,
    ensures
        (pys[i + 1].last() == '1' || pys[i + 1].last() == '2' || pys[i + 1].last() == '3')
            ==> sandhi_at(chars, pys, n, i) == retoned(pys[i], '4'),
        pys[i + 1].last() == '4' ==> sandhi_at(chars, pys, n, i) == retoned(pys[i], '2'),
        !('1' <= pys[i + 1].last() <= '4') ==> sandhi_at(chars, pys, n, i) == pys[i],
{
}

/// Tone sandhi law for 不: followed by a syllable of tone 4 it is read with
/// tone 2 (不是); followed by any other syllable it keeps its reading.
pub proof fn lemma_sandhi_bu(chars: Seq<char>, pys: Seq<Seq<char>>, n: int, i: int)
    requires
        0 <= i,
        i + 1 < n,
        chars[i] == '不',
        pys[i].len() > 0,
        pys[i + 1].len() > 0,
    ensures
        pys[i + 1].last() == '4' ==> sandhi_at(chars, pys, n, i) == retoned(pys[i], '2'),
        pys[i + 1].last() != '4' ==> sandhi_at(chars, pys, n, i) == pys[i],
{
}

/// Tone sandhi law for third tones: a syllable of tone 3 (other than 一 and
/// 不) followed by a syllable of tone 3 is read with tone 2 (你好); a
/// syllable of another tone, or not followed by a tone 3, keeps its reading.
pub proof fn lemma_sandhi_third_tone(chars: Seq<char>, pys: Seq<Seq<char>>, n: int, i: int)
    requires
        0 <= i,
        i + 1 < n,
        chars[i] != '一',
        chars[i] != '不',
        pys[i].len() > 0,
        pys[i + 1].len() > 0,
    ensures
        pys[i].last() == '3' && pys[i + 1].last() == '3' ==> sandhi_at(chars, pys, n, i) == retoned(pys[i], '2'),
        !(pys[i].last() == '3' && pys[i + 1].last() == '3') ==> sandhi_at(chars, pys, n, i) == pys[i],
{
}

/// Tone sandhi law: the last syllable of the run keeps its reading.
pub proof fn lemma_sandhi_last(chars: Seq<char>, pys: Seq<Seq<char>>, n: int)
    requires
        0 < n,
    ensures
        sandhi_at(chars, pys, n, n - 1) == pys[n - 1],
{
}

fn tone_exec(py: &[char]) -> (t: u32)
    ensures
        t as int == tone_of(py@),
        t <= 9,
{
    if py.len() > 0 && '0' <= py[py.len() - 1] && py[py.len() - 1] <= '9' {
        py[py.len() - 1] as u32 - '0' as u32
    } else {
        5
    }
}

fn base_exec(py: &[char]) -> (b: Vec<char>)
    ensures
        b@ == base_of(py@),
{
    if py.len() > 0 && '0' <= py[py.len() - 1] && py[py.len() - 1] <= '9' {
        let mut b: Vec<char> = Vec::new();
        let mut i: usize = 0;
        while i < py.len() - 1
            invariant
                0 < py.len(),
                i <= py.len() - 1,
                b@ =~= py@.take(i as int),
            decreases py.len() - 1 - i,
        {
            b.push(py[i]);
            i = i + 1;
        }
        assert(b@ =~= py@.drop_last());
        b
    } else {
        copy_chars(py)
    }
}

fn with_tone(py: &[char], tone: char) -> (r: String)
    ensures
        r@ == base_of(py@).push(tone),
{
    let mut b = base_exec(py);
    b.push(tone);
    string_from(&b)
}

/// Applies tone sandhi to the pinyin of a run of Chinese characters.  Each
/// position is rewritten from its own character and pinyin and the pinyin
/// that follows it, as read before any rewriting.
pub fn apply_tone_sandhi(chars: &[char], pinyins: &mut Vec<String>)
    requires
        old(pinyins).len() >= chars.len(),
    ensures
        final(pinyins).len() == old(pinyins).len(),
        forall|i: int| 0 <= i < chars.len() ==> #[trigger] final(pinyins)@[i]@ == sandhi_at(chars@, string_views(old(pinyins)@), chars.len() as int, i),
        forall|i: int| chars.len() <= i < old(pinyins).len() ==> #[trigger] final(pinyins)@[i] == old(pinyins)@[i],
{
    let n = chars.len();
    let ghost orig = string_views(pinyins@);
    if n < 2 {
        assert forall|i: int| 0 <= i < chars.len() implies #[trigger] pinyins@[i]@ == sandhi_at(chars@, orig, n as int, i) by {
            assert(orig[i] == pinyins@[i]@);
        }
        return;
    }
    let mut i: usize = 0;
    while i < n
        invariant
            n == chars.len(),
            i <= n,
            pinyins.len() == old(pinyins).len(),
            old(pinyins).len() >= n,
            orig == string_views(old(pinyins)@),
            forall|k: int| 0 <= k < i ==> #[trigger] pinyins@[k]@ == sandhi_at(chars@, orig, n as int, k),
            forall|k: int| i <= k < pinyins.len() ==> #[trigger] pinyins@[k] == old(pinyins)@[k],
        decreases n - i,
    {
        let ch = chars[i];
        let py = chars_of(pinyins[i].as_str());
        assert(py@ == orig[i as int]);
        if py.len() > 0 && i + 1 < n {
            let next = chars_of(pinyins[i + 1].as_str());
            assert(next@ == orig[i + 1]);
            let next_tone = tone_exec(&next);
            let tone = tone_exec(&py);
            if ch == '一' {
                if next_tone == 4 {
                    let s = with_tone(&py, '2');
                    pinyins.set(i, s);
                } else if next_tone == 1 || next_tone == 2 || next_tone == 3 {
                    let s = with_tone(&py, '4');
                    pinyins.set(i, s);
                }
            } else if ch == '不' {
                if next_tone == 4 {
                    let s = with_tone(&py, '2');
                    pinyins.set(i, s);
                }
            } else if tone == 3 && next_tone == 3 {
                let s = with_tone(&py, '2');
                pinyins.set(i, s);
            }
        }
        i = i + 1;
    }
}

// ---------------------------------------------------------------------------
// Pinyin to phones
// ---------------------------------------------------------------------------

/// The decimal digit `d` as a character.
pub open spec fn digit_to_char(d: int) -> char {
    (d + '0' as int) as char
}

/// The initial and toned final of a toned pinyin: from the tables when the
/// toneless pinyin is listed, `AA` and `a` otherwise; `None` for an empty
/// pinyin.
pub open spec fn spec_pinyin_to_opencpop(syllables: Seq<(Seq<char>, Seq<char>, Seq<char>)>, py: Seq<char>) -> Option<(Seq<char>, Seq<char>)> {
    if py.len() == 0 {
        None
    } else {
        let t = digit_to_char(tone_of(py));
        match lookup_syllable(syllables, base_of(py)) {
            Some((c, v)) => Some((c, v.push(t))),
            None => Some((seq!['A', 'A'], seq!['a', t])),
        }
    }
}

/// Splits a toned pinyin such as `hao3` into its initial and toned final.
pub fn pinyin_to_opencpop(tables: &PinyinTables, pinyin_with_tone: &str) -> (r: Option<(String, String)>)
    ensures
        r matches Some(p) ==> spec_pinyin_to_opencpop(tables.syllable_entries(), pinyin_with_tone@) == Some((p.0@, p.1@)),
        r is None ==> spec_pinyin_to_opencpop(tables.syllable_entries(), pinyin_with_tone@) is None,
{
    let py = chars_of(pinyin_with_tone);
    if py.len() == 0 {
        return None;
    }
    let tone = tone_exec(&py);
    let t = char_of_digit(tone);
    let base = base_exec(&py);
    match tables.syllable_of(&base) {
        Some((c, v)) => {
            let mut v2 = v;
            v2.push(t);
            Some((string_from(&c), string_from(&v2)))
        },
        None => {
            let c: Vec<char> = vec!['A', 'A'];
            let v: Vec<char> = vec!['a', t];
            assert(c@ =~= seq!['A', 'A']);
            assert(v@ =~= seq!['a', t]);
            Some((string_from(&c), string_from(&v)))
        },
    }
}

fn char_of_digit(d: u32) -> (c: char)
    requires
        d <= 9,
    ensures
        c == digit_to_char(d as int),
{
    if d == 0 { '0' }
    else if d == 1 { '1' }
    else if d == 2 { '2' }
    else if d == 3 { '3' }
    else if d == 4 { '4' }
    else if d == 5 { '5' }
    else if d == 6 { '6' }
    else if d == 7 { '7' }
    else if d == 8 { '8' }
    else { '9' }
}


// ---------------------------------------------------------------------------
// English words
// ---------------------------------------------------------------------------

/// The phones a single upper-case letter is read as when a word is not in
/// the dictionary; other characters give none.
pub open spec fn letter_phones(c: char) -> Seq<Seq<char>> {
    if c == 'A' { seq![seq!['E', 'Y', '1']] }
    else if c == 'B' { seq![seq!['B']] }
    else if c == 'C' { seq![seq!['K']] }
    else if c == 'D' { seq![seq!['D']] }
    else if c == 'E' { seq![seq!['I', 'Y', '1']] }
    else if c == 'F' { seq![seq!['F']] }
    else if c == 'G' { seq![seq!['G']] }
    else if c == 'H' { seq![seq!['H', 'H']] }
    else if c == 'I' { seq![seq!['A', 'Y', '1']] }
    else if c == 'J' { seq![seq!['J', 'H']] }
    else if c == 'K' { seq![seq!['K']] }
    else if c == 'L' { seq![seq!['L']] }
    else if c == 'M' { seq![seq!['M']] }
    else if c == 'N' { seq![seq!['N']] }
    else if c == 'O' { seq![seq!['O', 'W', '1']] }
    else if c == 'P' { seq![seq!['P']] }
    else if c == 'Q' { seq![seq!['K'], seq!['W']] }
    else if c == 'R' { seq![seq!['R']] }
    else if c == 'S' { seq![seq!['S']] }
    else if c == 'T' { seq![seq!['T']] }
    else if c == 'U' { seq![seq!['U', 'W', '1']] }
    else if c == 'V' { seq![seq!['V']] }
    else if c == 'W' { seq![seq!['W']] }
    else if c == 'X' { seq![seq!['K'], seq!['S']] }
    else if c == 'Y' { seq![seq!['Y']] }
    else if c == 'Z' { seq![seq!['Z']] }
    else { Seq::empty() }
}

/// The letter-by-letter reading of `s`.
pub open spec fn spell_letters(s: Seq<char>) -> Seq<Seq<char>>
    decreases s.len(),
{
    if s.len() == 0 {
        Seq::empty()
    } else {
        spell_letters(s.drop_last()) + letter_phones(s.last())
    }
}

/// The phones of an English word: the dictionary entry of its upper-case
/// form, otherwise its letters one by one, otherwise `UNK`.
pub open spec fn spec_english_phonemes(entries: Seq<(Seq<char>, Seq<Seq<char>>)>, word: Seq<char>) -> Seq<Seq<char>> {
    phonemes_of_upper(entries, unicode_uppercase(word))
}

/// The phones of a word already in upper case: its dictionary entry,
/// otherwise its letters one by one, otherwise `UNK`.
pub open spec fn phonemes_of_upper(entries: Seq<(Seq<char>, Seq<Seq<char>>)>, upper: Seq<char>) -> Seq<Seq<char>> {
    match lookup_word(entries, upper) {
        Some(p) => p,
        None => {
            let f = spell_letters(upper);
            if f.len() == 0 { seq![seq!['U', 'N', 'K']] } else { f }
        },
    }
}

/// Two ASCII words with the same lower-case folding have the same
/// upper-case folding.
proof fn lemma_ascii_upper_from_lower(a: Seq<char>, b: Seq<char>)
    requires
        all_ascii(a),
        all_ascii(b),
        ascii_lower_seq(a) == ascii_lower_seq(b),
    ensures
        ascii_upper_seq(a) == ascii_upper_seq(b),
{
    assert(a.len() == ascii_lower_seq(a).len());
    assert forall|i: int| 0 <= i < a.len() implies #[trigger] ascii_upper_seq(a)[i] == ascii_upper_seq(b)[i] by {
        let x = a[i];
        let y = b[i];
        assert(b.len() == ascii_lower_seq(b).len());
        assert(ascii_lower_seq(a)[i] == ascii_lower_char(x));
        assert(ascii_lower_seq(b)[i] == ascii_lower_char(y));
        assert(ascii_lower_seq(a)[i] == ascii_lower_seq(b)[i]);
        assert((x as u32) < 128 && (y as u32) < 128);
        assert(ascii_lower_char(x) == ascii_lower_char(y));
        assert(ascii_upper_char(x) == ascii_upper_char(y)) by {
            let xu = x as u32;
            let yu = y as u32;
            assert(xu < 128 && yu < 128);
        }
    }
    assert(ascii_upper_seq(a) =~= ascii_upper_seq(b));
}

/// English reading law: an ASCII word is read without regard to case, as
/// its upper-case form.
pub proof fn lemma_english_phonemes_ignore_case(entries: Seq<(Seq<char>, Seq<Seq<char>>)>, a: Seq<char>, b: Seq<char>)
    requires
        all_ascii(a),
        all_ascii(b),
        ascii_lower_seq(a) == ascii_lower_seq(b),
    ensures
        phonemes_of_upper(entries, ascii_upper_seq(a)) == phonemes_of_upper(entries, ascii_upper_seq(b)),
{
    lemma_ascii_upper_from_lower(a, b);
}

proof fn lemma_lookup_word_entry(entries: Seq<(Seq<char>, Seq<Seq<char>>)>, word: Seq<char>)
    ensures
        lookup_word(entries, word) matches Some(p) ==> exists|k: int| 0 <= k < entries.len() && #[trigger] entries[k].1 == p,
    decreases entries.len(),
{
    if entries.len() > 0 && entries[0].0 != word {
        lemma_lookup_word_entry(entries.drop_first(), word);
        if let Some(p) = lookup_word(entries, word) {
            let k = choose|k: int| 0 <= k < entries.drop_first().len() && #[trigger] entries.drop_first()[k].1 == p;
            assert(entries[k + 1].1 == p);
        }
    }
}

/// English reading law: with a dictionary whose words all have phones, every
/// word gets at least one phone.
pub proof fn lemma_english_phonemes_nonempty(entries: Seq<(Seq<char>, Seq<Seq<char>>)>, upper: Seq<char>)
    requires
        words_pronounced(entries),
    ensures
        phonemes_of_upper(entries, upper).len() > 0,
{
    lemma_lookup_word_entry(entries, upper);
}

fn push_phone(r: &mut Vec<String>, p: &[char])
    ensures
        string_views(final(r)@) == string_views(old(r)@).push(p@),
{
    let s = string_from(p);
    r.push(s);
    assert(string_views(r@) =~= string_views(old(r)@).push(p@));
}

fn push_phone1(r: &mut Vec<String>, a: char)
    ensures
        string_views(final(r)@) == string_views(old(r)@).push(seq![a]),
{
    let v: Vec<char> = vec![a];
    assert(v@ =~= seq![a]);
    push_phone(r, &v);
}

fn push_phone2(r: &mut Vec<String>, a: char, b: char)
    ensures
        string_views(final(r)@) == string_views(old(r)@).push(seq![a, b]),
{
    let v: Vec<char> = vec![a, b];
    assert(v@ =~= seq![a, b]);
    push_phone(r, &v);
}

fn push_phone3(r: &mut Vec<String>, a: char, b: char, c: char)
    ensures
        string_views(final(r)@) == string_views(old(r)@).push(seq![a, b, c]),
{
    let v: Vec<char> = vec![a, b, c];
    assert(v@ =~= seq![a, b, c]);
    push_phone(r, &v);
}

fn push_letter_phones(r: &mut Vec<String>, c: char)
    ensures
        string_views(final(r)@) == string_views(old(r)@) + letter_phones(c),
{
    let ghost before = string_views(r@);
    if c == 'A' { push_phone3(r, 'E', 'Y', '1'); }
    else if c == 'B' { push_phone1(r, 'B'); }
    else if c == 'C' { push_phone1(r, 'K'); }
    else if c == 'D' { push_phone1(r, 'D'); }
    else if c == 'E' { push_phone3(r, 'I', 'Y', '1'); }
    else if c == 'F' { push_phone1(r, 'F'); }
    else if c == 'G' { push_phone1(r, 'G'); }
    else if c == 'H' { push_phone2(r, 'H', 'H'); }
    else if c == 'I' { push_phone3(r, 'A', 'Y', '1'); }
    else if c == 'J' { push_phone2(r, 'J', 'H'); }
    else if c == 'K' { push_phone1(r, 'K'); }
    else if c == 'L' { push_phone1(r, 'L'); }
    else if c == 'M' { push_phone1(r, 'M'); }
    else if c == 'N' { push_phone1(r, 'N'); }
    else if c == 'O' { push_phone3(r, 'O', 'W', '1'); }
    else if c == 'P' { push_phone1(r, 'P'); }
    else if c == 'Q' { push_phone1(r, 'K'); push_phone1(r, 'W'); }
    else if c == 'R' { push_phone1(r, 'R'); }
    else if c == 'S' { push_phone1(r, 'S'); }
    else if c == 'T' { push_phone1(r, 'T'); }
    else if c == 'U' { push_phone3(r, 'U', 'W', '1'); }
    else if c == 'V' { push_phone1(r, 'V'); }
    else if c == 'W' { push_phone1(r, 'W'); }
    else if c == 'X' { push_phone1(r, 'K'); push_phone1(r, 'S'); }
    else if c == 'Y' { push_phone1(r, 'Y'); }
    else if c == 'Z' { push_phone1(r, 'Z'); }
    assert(string_views(r@) =~= before + letter_phones(c));
}

/// Reads an English word: its CMU dictionary entry (looked up in upper
/// case), or its letters one by one, or `UNK` when neither gives a phone.
pub fn get_english_phonemes(dict: &CmuDict, word: &str) -> (r: Vec<String>)
    ensures
        string_views(r@) == spec_english_phonemes(dict.word_entries(), word@),
        all_ascii(word@) ==> string_views(r@) == phonemes_of_upper(dict.word_entries(), ascii_upper_seq(word@)),
        r@.len() > 0 || lookup_word(dict.word_entries(), unicode_uppercase(word@)) is Some,
        words_pronounced(dict.word_entries()) ==> r@.len() > 0,
{
    proof {
        if words_pronounced(dict.word_entries()) {
            lemma_english_phonemes_nonempty(dict.word_entries(), unicode_uppercase(word@));
        }
    }
    let upper_s = to_uppercase(word);
    let upper = chars_of(upper_s.as_str());
    if let Some(p) = dict.phones_of(&upper) {
        return p;
    }
    let mut r: Vec<String> = Vec::new();
    let mut i: usize = 0;
    assert(string_views(r@) =~= spell_letters(upper@.take(0)));
    while i < upper.len()
        invariant
            i <= upper.len(),
            string_views(r@) == spell_letters(upper@.take(i as int)),
        decreases upper.len() - i,
    {
        assert(upper@.take(i + 1).drop_last() =~= upper@.take(i as int));
        push_letter_phones(&mut r, upper[i]);
        i = i + 1;
    }
    assert(upper@.take(upper.len() as int) =~= upper@);
    if r.len() == 0 {
        let mut unk: Vec<String> = Vec::new();
        push_phone3(&mut unk, 'U', 'N', 'K');
        return unk;
    }
    r
}


// ---------------------------------------------------------------------------
// Text to phones
// ---------------------------------------------------------------------------

/// The CJK unified ideographs the front end reads as Chinese.
pub open spec fn is_zh(c: char) -> bool {
    '\u{4e00}' <= c && c <= '\u{9fa5}'
}

/// The punctuation kept as a phone of its own.
pub open spec fn is_phone_mark(c: char) -> bool {
    c == '!' || c == '?' || c == '…' || c == ',' || c == '.' || c == '-'
}

pub open spec fn is_ascii_alpha(c: char) -> bool {
    ('a' <= c && c <= 'z') || ('A' <= c && c <= 'Z')
}

/// The Chinese characters of `s`, in order.
pub open spec fn zh_list(s: Seq<char>) -> Seq<char>
    decreases s.len(),
{
    if s.len() == 0 {
        Seq::empty()
    } else if is_zh(s[0]) {
        seq![s[0]] + zh_list(s.drop_first())
    } else {
        zh_list(s.drop_first())
    }
}

/// The length of the run of ASCII letters that `s` starts with.
pub open spec fn alpha_run(s: Seq<char>) -> nat
    decreases s.len(),
{
    if s.len() > 0 && is_ascii_alpha(s[0]) { 1 + alpha_run(s.drop_first()) } else { 0 }
}

proof fn lemma_alpha_run(s: Seq<char>)
    ensures
        alpha_run(s) <= s.len(),
        s.len() > 0 && is_ascii_alpha(s[0]) ==> alpha_run(s) >= 1,
        forall|k: int| 0 <= k < alpha_run(s) ==> is_ascii_alpha(#[trigger] s[k]),
        alpha_run(s) < s.len() ==> !is_ascii_alpha(s[alpha_run(s) as int]),
        zh_list(s.skip(alpha_run(s) as int)) == zh_list(s),
    decreases s.len(),
{
    if s.len() > 0 && is_ascii_alpha(s[0]) {
        lemma_alpha_run(s.drop_first());
        assert forall|k: int| 0 <= k < alpha_run(s) implies is_ascii_alpha(#[trigger] s[k]) by {
            if k > 0 {
                assert(s[k] == s.drop_first()[k - 1]);
            }
        }
        assert(s.drop_first().skip(alpha_run(s.drop_first()) as int) =~= s.skip(alpha_run(s) as int));
    } else {
        assert(s.skip(0) =~= s);
    }
}

/// The pinyin a character is read as before sandhi: its table entry, or
/// `a1` when it has none.
pub open spec fn pinyin_or_default(entries: Seq<(char, Seq<char>)>, c: char) -> Seq<char> {
    match lookup_char(entries, c) {
        Some(p) => p,
        None => seq!['a', '1'],
    }
}

/// The pinyin of the Chinese characters of `s`, after tone sandhi over them.
pub open spec fn text_pinyins(entries: Seq<(char, Seq<char>)>, s: Seq<char>) -> Seq<Seq<char>> {
    let zc = zh_list(s);
    let p0 = zc.map_values(|c: char| pinyin_or_default(entries, c));
    Seq::new(zc.len(), |k: int| sandhi_at(zc, p0, zc.len() as int, k))
}

/// `n` zeros.
pub open spec fn zeros(n: int) -> Seq<usize> {
    Seq::new(n as nat, |k: int| 0usize)
}

/// The phones and per-character phone counts for `s`, whose first Chinese
/// character has the pinyin `pys[zk]`: a kept mark is one phone, a Chinese
/// character two (initial and toned final), an English word its phones with
/// the whole count on its first letter, and any other character none.
pub open spec fn phones_from(
    syllables: Seq<(Seq<char>, Seq<char>, Seq<char>)>,
    words: Seq<(Seq<char>, Seq<Seq<char>>)>,
    pys: Seq<Seq<char>>,
    s: Seq<char>,
    zk: int,
) -> (Seq<Seq<char>>, Seq<usize>)
    decreases s.len(),
{
    if s.len() == 0 {
        (Seq::empty(), Seq::empty())
    } else if is_phone_mark(s[0]) {
        let r = phones_from(syllables, words, pys, s.drop_first(), zk);
        (seq![seq![s[0]]] + r.0, seq![1usize] + r.1)
    } else if is_zh(s[0]) {
        let r = phones_from(syllables, words, pys, s.drop_first(), zk + 1);
        let (a, b) = match spec_pinyin_to_opencpop(syllables, pys[zk]) {
            Some(p) => p,
            None => (seq!['A', 'A'], seq!['a', '1']),
        };
        (seq![a, b] + r.0, seq![2usize] + r.1)
    } else if is_ascii_alpha(s[0]) {
        let k = alpha_run(s) as int;
        if 1 <= k <= s.len() {
            let ph = spec_english_phonemes(words, s.take(k));
            let r = phones_from(syllables, words, pys, s.skip(k), zk);
            let first: usize = if ph.len() > 0 { ph.len() as usize } else { 1usize };
            (ph + r.0, seq![first] + zeros(k - 1) + r.1)
        } else {
            (Seq::empty(), Seq::empty())
        }
    } else {
        let r = phones_from(syllables, words, pys, s.drop_first(), zk);
        (r.0, seq![0usize] + r.1)
    }
}

/// The phones and counts of normalised text before the minimum-length rule.
pub open spec fn raw_phones(
    chars: Seq<(char, Seq<char>)>,
    syllables: Seq<(Seq<char>, Seq<char>, Seq<char>)>,
    words: Seq<(Seq<char>, Seq<Seq<char>>)>,
    norm: Seq<char>,
) -> (Seq<Seq<char>>, Seq<usize>) {
    phones_from(syllables, words, text_pinyins(chars, norm), norm, 0)
}

/// `text_to_phonemes`: phones, per-character phone counts and the normalised
/// text.  Text without any phone reads as `.`; fewer than four phones get a
/// leading `,` (counted on the first character).
pub open spec fn spec_text_to_phonemes(
    chars: Seq<(char, Seq<char>)>,
    syllables: Seq<(Seq<char>, Seq<char>, Seq<char>)>,
    words: Seq<(Seq<char>, Seq<Seq<char>>)>,
    text: Seq<char>,
) -> (Seq<Seq<char>>, Seq<usize>, Seq<char>) {
    let norm = spec_normalize_chinese_text(text);
    let (p, w) = raw_phones(chars, syllables, words, norm);
    let (p1, w1) = if p.len() == 0 { (seq![seq!['.']], w.push(1usize)) } else { (p, w) };
    let (p2, w2) = pad_phones(p1, w1);
    (p2, w2, norm)
}

/// The phones padded at the front with `,` up to four, each added comma
/// counted for the first character.
pub open spec fn pad_phones(p: Seq<Seq<char>>, w: Seq<usize>) -> (Seq<Seq<char>>, Seq<usize>)
    decreases 4 - p.len(),
{
    if p.len() < 4 {
        pad_phones(seq![seq![',']] + p, if w.len() > 0 { w.update(0, (w[0] + 1) as usize) } else { w.push(1usize) })
    } else {
        (p, w)
    }
}

/// The sum of the counts.
pub open spec fn count_sum(w: Seq<usize>) -> int
    decreases w.len(),
{
    if w.len() == 0 { 0 } else { count_sum(w.drop_last()) + w.last() }
}

proof fn lemma_count_sum_append(a: Seq<usize>, b: Seq<usize>)
    ensures
        count_sum(a + b) == count_sum(a) + count_sum(b),
    decreases b.len(),
{
    if b.len() == 0 {
        assert(a + b =~= a);
    } else {
        lemma_count_sum_append(a, b.drop_last());
        assert((a + b).drop_last() =~= a + b.drop_last());
    }
}

proof fn lemma_count_sum_zeros(n: int)
    requires
        n >= 0,
    ensures
        count_sum(zeros(n)) == 0,
    decreases n,
{
    if n > 0 {
        assert(zeros(n).drop_last() =~= zeros(n - 1));
        lemma_count_sum_zeros(n - 1);
    }
}

proof fn lemma_count_sum_bump(w: Seq<usize>)
    requires
        w.len() > 0,
        w[0] < usize::MAX,
    ensures
        count_sum(w.update(0, (w[0] + 1) as usize)) == count_sum(w) + 1,
{
    let rest = w.drop_first();
    assert(w =~= seq![w[0]] + rest);
    assert(w.update(0, (w[0] + 1) as usize) =~= seq![(w[0] + 1) as usize] + rest);
    lemma_count_sum_append(seq![w[0]], rest);
    lemma_count_sum_append(seq![(w[0] + 1) as usize], rest);
    assert(seq![w[0]].drop_last() =~= Seq::<usize>::empty());
    assert(seq![(w[0] + 1) as usize].drop_last() =~= Seq::<usize>::empty());
}

proof fn lemma_lookup_word_listed(entries: Seq<(Seq<char>, Seq<Seq<char>>)>, word: Seq<char>)
    requires
        lookup_word(entries, word) is Some,
    ensures
        exists|i: int| 0 <= i < entries.len() && entries[i].1 == lookup_word(entries, word)->0,
    decreases entries.len(),
{
    if entries[0].0 != word {
        lemma_lookup_word_listed(entries.drop_first(), word);
        let i = choose|i: int| 0 <= i < entries.drop_first().len() && entries.drop_first()[i].1 == lookup_word(entries.drop_first(), word)->0;
        assert(entries[i + 1] == entries.drop_first()[i]);
    } else {
        assert(entries[0].1 == lookup_word(entries, word)->0);
    }
}


/// Every word listed in `words` has at least one phone.
pub open spec fn words_pronounced(words: Seq<(Seq<char>, Seq<Seq<char>>)>) -> bool {
    forall|i: int| 0 <= i < words.len() ==> #[trigger] words[i].1.len() > 0
}

/// One count per character; the first count is at most one more than the
/// number of phones; with a dictionary whose words all have phones, the
/// counts add up to the number of phones.
proof fn lemma_phones_from(
    syllables: Seq<(Seq<char>, Seq<char>, Seq<char>)>,
    words: Seq<(Seq<char>, Seq<Seq<char>>)>,
    pys: Seq<Seq<char>>,
    s: Seq<char>,
    zk: int,
)
    ensures
        phones_from(syllables, words, pys, s, zk).1.len() == s.len(),
        s.len() > 0 ==> phones_from(syllables, words, pys, s, zk).1[0] <= phones_from(syllables, words, pys, s, zk).0.len() + 1,
    decreases s.len(),
{
    let res = phones_from(syllables, words, pys, s, zk);
    if s.len() > 0 {
        if is_phone_mark(s[0]) {
            lemma_phones_from(syllables, words, pys, s.drop_first(), zk);
            let r = phones_from(syllables, words, pys, s.drop_first(), zk);
            lemma_count_sum_append(seq![1usize], r.1);
            assert(seq![1usize].drop_last() =~= Seq::<usize>::empty());
        } else if is_zh(s[0]) {
            lemma_phones_from(syllables, words, pys, s.drop_first(), zk + 1);
            let r = phones_from(syllables, words, pys, s.drop_first(), zk + 1);
            lemma_count_sum_append(seq![2usize], r.1);
            assert(seq![2usize].drop_last() =~= Seq::<usize>::empty());
        } else if is_ascii_alpha(s[0]) {
            lemma_alpha_run(s);
            let k = alpha_run(s) as int;
            lemma_phones_from(syllables, words, pys, s.skip(k), zk);
            let ph = spec_english_phonemes(words, s.take(k));
            let r = phones_from(syllables, words, pys, s.skip(k), zk);
            let first: usize = if ph.len() > 0 { ph.len() as usize } else { 1usize };
            lemma_count_sum_append(seq![first], zeros(k - 1));
            lemma_count_sum_append(seq![first] + zeros(k - 1), r.1);
            lemma_count_sum_zeros(k - 1);
            assert(seq![first].drop_last() =~= Seq::<usize>::empty());
            assert((seq![first] + zeros(k - 1) + r.1)[0] == first);
        } else {
            lemma_phones_from(syllables, words, pys, s.drop_first(), zk);
            let r = phones_from(syllables, words, pys, s.drop_first(), zk);
            lemma_count_sum_append(seq![0usize], r.1);
            assert(seq![0usize].drop_last() =~= Seq::<usize>::empty());
        }
    }
}

/// Appends the phones and counts of the English word that starts at
/// position `i` of `cs`; returns the position after the word.
fn emit_english_word(dict: &CmuDict, cs: &Vec<char>, i: usize, phones: &mut Vec<String>, w: &mut Vec<usize>) -> (j: usize)
    requires
        i < cs.len(),
        is_ascii_alpha(cs@[i as int]),
        words_pronounced(dict.word_entries()) ==> count_sum(old(w)@) == old(phones)@.len(),
    ensures
        j == i + alpha_run(cs@.skip(i as int)),
        i < j <= cs.len(),
        final(phones)@.len() >= old(phones)@.len(),
        string_views(final(phones)@) == string_views(old(phones)@) + spec_english_phonemes(dict.word_entries(), cs@.subrange(i as int, j as int)),
        final(w)@ == old(w)@ + seq![(if final(phones)@.len() > old(phones)@.len() { final(phones)@.len() - old(phones)@.len() } else { 1int }) as usize] + zeros(j - i - 1),
        words_pronounced(dict.word_entries()) ==> count_sum(final(w)@) == final(phones)@.len(),
{
    let ghost rest = cs@.skip(i as int);
    proof {
        lemma_alpha_run(rest);
    }
    let mut j: usize = i;
    assert(cs@.skip(i as int) =~= cs@.skip(j as int));
    while j < cs.len() && (('a' <= cs[j] && cs[j] <= 'z') || ('A' <= cs[j] && cs[j] <= 'Z'))
        invariant
            i <= j <= cs.len(),
            alpha_run(rest) == (j - i) + alpha_run(cs@.skip(j as int)),
            rest == cs@.skip(i as int),
        decreases cs.len() - j,
    {
        assert(cs@.skip(j as int).drop_first() =~= cs@.skip(j + 1));
        assert(cs@.skip(j as int)[0] == cs@[j as int]);
        j = j + 1;
    }
    if j < cs.len() {
        assert(cs@.skip(j as int)[0] == cs@[j as int]);
    }
    let k = j - i;
    assert(cs@.skip(i as int)[0] == cs@[i as int]);
    let mut word_chars: Vec<char> = Vec::new();
    let mut m: usize = i;
    while m < j
        invariant
            i <= m <= j <= cs.len(),
            word_chars@ =~= cs@.subrange(i as int, m as int),
        decreases j - m,
    {
        word_chars.push(cs[m]);
        m = m + 1;
    }
    let word = string_from(&word_chars);
    let ph = get_english_phonemes(dict, word.as_str());
    let ghost phv = string_views(ph@);
    let ghost old_phones = string_views(phones@);
    let ghost words = dict.word_entries();
    let mut q: usize = 0;
    while q < ph.len()
        invariant
            q <= ph.len(),
            phv == string_views(ph@),
            old_phones == string_views(old(phones)@),
            phones@.len() == old(phones)@.len() + q,
            string_views(phones@) =~= old_phones + phv.take(q as int),
        decreases ph.len() - q,
    {
        let x = ph[q].clone();
        let ghost before = string_views(phones@);
        phones.push(x);
        assert(string_views(phones@) =~= before.push(phv[q as int]));
        q = q + 1;
    }
    assert(phv.take(ph.len() as int) =~= phv);
    let first: usize = if ph.len() > 0 { ph.len() } else { 1 };
    w.push(first);
    let mut z: usize = 1;
    assert(zeros(0) =~= Seq::<usize>::empty());
    while z < k
        invariant
            1 <= z <= k,
            w@ =~= old(w)@ + seq![first] + zeros(z - 1),
        decreases k - z,
    {
        assert(zeros(z as int) =~= zeros(z - 1).push(0usize));
        w.push(0);
        z = z + 1;
    }
    proof {
        lemma_count_sum_append(old(w)@, seq![first]);
        lemma_count_sum_append(old(w)@ + seq![first], zeros(k - 1));
        lemma_count_sum_zeros(k - 1);
        assert(seq![first].drop_last() =~= Seq::<usize>::empty());
        assert(count_sum(seq![first]) == count_sum(Seq::<usize>::empty()) + first);
        assert(w@ == (old(w)@ + seq![first]) + zeros(k - 1));
        if words_pronounced(words) {
            let upper = unicode_uppercase(word@);
            if lookup_word(words, upper) is Some {
                lemma_lookup_word_listed(words, upper);
                let t = choose|t: int| 0 <= t < words.len() && words[t].1 == lookup_word(words, upper)->0;
                assert(words[t].1.len() > 0);
                assert(phv == lookup_word(words, upper)->0);
            }
            assert(ph@.len() > 0);
        }
    }
    j
}

/// Converts text to phones with the given tables: the text is normalised
/// (see `normalize_chinese_text`), every Chinese character gives its initial
/// and toned final (pinyin from the tables, `a1` when missing, after tone
/// sandhi), every English word its dictionary or spelt-out phones, and the
/// kept marks `! ? … , . -` one phone each.  Returns the phones, how many
/// phones each character of the normalised text stands for, and the
/// normalised text.
pub fn text_to_phonemes_with(
    tables: &PinyinTables,
    dict: &CmuDict,
    text: &str,
    _language: &str,
    _version: &str,
) -> (r: (Vec<String>, Vec<usize>, String))
    requires
        numbers_in_range(text@),
    ensures
        (string_views(r.0@), r.1@, r.2@) == spec_text_to_phonemes(tables.char_entries(), tables.syllable_entries(), dict.word_entries(), text@),
        r.0@.len() >= 4,
        raw_phones(tables.char_entries(), tables.syllable_entries(), dict.word_entries(), r.2@).0.len() > 0 ==> r.1@.len() == r.2@.len(),
        words_pronounced(dict.word_entries()) ==> count_sum(r.1@) == r.0@.len(),
{
    let norm = normalize_chinese_text(text);
    let cs = chars_of(norm.as_str());
    let ghost entries = tables.char_entries();
    let ghost syl = tables.syllable_entries();
    let ghost words = dict.word_entries();

    // The Chinese characters and their pinyin before sandhi.
    let mut zc: Vec<char> = Vec::new();
    let mut pys: Vec<String> = Vec::new();
    let mut i: usize = 0;
    assert(cs@.skip(0) =~= cs@);
    while i < cs.len()
        invariant
            i <= cs.len(),
            entries == tables.char_entries(),
            zc@ + zh_list(cs@.skip(i as int)) == zh_list(cs@),
            zc@.len() == pys@.len(),
            forall|k: int| 0 <= k < zc@.len() ==> #[trigger] string_views(pys@)[k] == pinyin_or_default(entries, zc@[k]),
        decreases cs.len() - i,
    {
        let c = cs[i];
        assert(cs@.skip(i as int).drop_first() =~= cs@.skip(i + 1));
        assert(cs@.skip(i as int)[0] == c);
        if '\u{4e00}' <= c && c <= '\u{9fa5}' {
            let py: Vec<char> = match tables.pinyin_of(c) {
                Some(p) => p,
                None => {
                    let d: Vec<char> = vec!['a', '1'];
                    assert(d@ =~= seq!['a', '1']);
                    d
                },
            };
            let ghost old_zc = zc@;
            let ghost old_pys = string_views(pys@);
            zc.push(c);
            pys.push(string_from(&py));
            assert(zc@ + zh_list(cs@.skip(i + 1)) =~= old_zc + zh_list(cs@.skip(i as int)));
            assert(string_views(pys@) =~= old_pys.push(py@));
        }
        i = i + 1;
    }
    assert(cs@.skip(cs.len() as int) =~= Seq::<char>::empty());
    assert(zc@ =~= zh_list(cs@)) by {
        assert(zc@ + Seq::<char>::empty() =~= zc@);
    }
    let ghost p0 = zh_list(cs@).map_values(|c: char| pinyin_or_default(entries, c));
    assert(string_views(pys@) =~= p0);
    apply_tone_sandhi(&zc, &mut pys);
    let ghost pyv = text_pinyins(entries, cs@);
    assert(string_views(pys@) =~= pyv);

    // Phones, character by character.
    let ghost total = phones_from(syl, words, pyv, cs@, 0);
    let mut phones: Vec<String> = Vec::new();
    let mut w: Vec<usize> = Vec::new();
    let mut zk: usize = 0;
    i = 0;
    assert(string_views(phones@) + total.0 =~= total.0);
    assert(w@ + total.1 =~= total.1);
    while i < cs.len()
        invariant
            i <= cs.len(),
            syl == tables.syllable_entries(),
            words == dict.word_entries(),
            string_views(pys@) == pyv,
            total == phones_from(syl, words, pyv, cs@, 0),
            string_views(phones@) + phones_from(syl, words, pyv, cs@.skip(i as int), zk as int).0 == total.0,
            w@ + phones_from(syl, words, pyv, cs@.skip(i as int), zk as int).1 == total.1,
            zk + zh_list(cs@.skip(i as int)).len() == zh_list(cs@).len(),
            pys@.len() == zh_list(cs@).len(),
            words_pronounced(words) ==> count_sum(w@) == phones@.len(),
        decreases cs.len() - i,
    {
        let c = cs[i];
        let ghost rest = cs@.skip(i as int);
        let ghost rest_r = phones_from(syl, words, pyv, rest, zk as int);
        assert(rest[0] == c);
        assert(rest.drop_first() =~= cs@.skip(i + 1));
        let ghost old_phones = string_views(phones@);
        let ghost old_w = w@;
        let ghost old_len = phones@.len();
        if c == '!' || c == '?' || c == '…' || c == ',' || c == '.' || c == '-' {
            push_phone1(&mut phones, c);
            w.push(1);
            proof {
                let r = phones_from(syl, words, pyv, cs@.skip(i + 1), zk as int);
                assert(rest_r.0 == seq![seq![c]] + r.0);
                assert(string_views(phones@) + r.0 =~= old_phones + rest_r.0);
                assert(w@ + r.1 =~= old_w + rest_r.1);
                assert(zh_list(rest) == zh_list(cs@.skip(i + 1)));
                lemma_count_sum_append(old_w, seq![1usize]);
                assert(w@ =~= old_w + seq![1usize]);
                assert(seq![1usize].drop_last() =~= Seq::<usize>::empty());
                assert(count_sum(seq![1usize]) == count_sum(Seq::<usize>::empty()) + 1);
                assert(phones@.len() == string_views(phones@).len());
                assert(old_len == old_phones.len());
                assert(phones@.len() == old_len + 1);
            }
            i = i + 1;
        } else if '\u{4e00}' <= c && c <= '\u{9fa5}' {
            assert(zh_list(rest) == seq![c] + zh_list(cs@.skip(i + 1)));
            let opt = pinyin_to_opencpop(tables, pys[zk].as_str());
            let (a, b) = match opt {
                Some(p) => p,
                None => {
                    let aa: Vec<char> = vec!['A', 'A'];
                    let a1: Vec<char> = vec!['a', '1'];
                    assert(aa@ =~= seq!['A', 'A']);
                    assert(a1@ =~= seq!['a', '1']);
                    (string_from(&aa), string_from(&a1))
                },
            };
            let ghost av = a@;
            let ghost bv = b@;
            phones.push(a);
            phones.push(b);
            w.push(2);
            proof {
                assert(string_views(phones@) =~= old_phones.push(av).push(bv));
                let r = phones_from(syl, words, pyv, cs@.skip(i + 1), zk + 1);
                assert(rest_r.0 == seq![av, bv] + r.0);
                assert(string_views(phones@) + r.0 =~= old_phones + rest_r.0);
                assert(w@ + r.1 =~= old_w + rest_r.1);
                lemma_count_sum_append(old_w, seq![2usize]);
                assert(w@ =~= old_w + seq![2usize]);
                assert(seq![2usize].drop_last() =~= Seq::<usize>::empty());
                assert(count_sum(seq![2usize]) == count_sum(Seq::<usize>::empty()) + 2);
                assert(phones@.len() == old_len + 2);
            }
            assert(zk < pys.len());
            zk = zk + 1;
            i = i + 1;
        } else if ('a' <= c && c <= 'z') || ('A' <= c && c <= 'Z') {
            let j = emit_english_word(dict, &cs, i, &mut phones, &mut w);
            proof {
                lemma_alpha_run(rest);
                let k = j - i;
                let phv = string_views(phones@).subrange(old_phones.len() as int, phones@.len() as int);
                assert(string_views(phones@) =~= old_phones + phv);
                assert(rest.skip(k as int) =~= cs@.skip(j as int));
                assert(rest.take(k as int) =~= cs@.subrange(i as int, j as int));
                let r = phones_from(syl, words, pyv, cs@.skip(j as int), zk as int);
                assert(rest_r.0 == phv + r.0);
                assert(string_views(phones@) + r.0 =~= old_phones + rest_r.0);
                assert(w@ + r.1 =~= old_w + rest_r.1);
            }
            i = j;
        } else {
            w.push(0);
            proof {
                let r = phones_from(syl, words, pyv, cs@.skip(i + 1), zk as int);
                assert(rest_r.1 == seq![0usize] + r.1);
                assert(w@ + r.1 =~= old_w + rest_r.1);
                assert(zh_list(rest) == zh_list(cs@.skip(i + 1)));
                lemma_count_sum_append(old_w, seq![0usize]);
                assert(w@ =~= old_w + seq![0usize]);
                assert(seq![0usize].drop_last() =~= Seq::<usize>::empty());
                assert(count_sum(seq![0usize]) == count_sum(Seq::<usize>::empty()) + 0);
            }
            i = i + 1;
        }
    }
    assert(cs@.skip(cs.len() as int) =~= Seq::<char>::empty());
    assert(string_views(phones@) =~= total.0);
    assert(w@ =~= total.1);
    proof {
        lemma_phones_from(syl, words, pyv, cs@, 0);
    }

    // Text without a phone reads as a full stop.
    if phones.len() == 0 {
        let ghost old_len = phones@.len();
        push_phone1(&mut phones, '.');
        let ghost old_w = w@;
        w.push(1);
        proof {
            lemma_count_sum_append(old_w, seq![1usize]);
            assert(w@ =~= old_w + seq![1usize]);
            assert(seq![1usize].drop_last() =~= Seq::<usize>::empty());
            assert(count_sum(seq![1usize]) == count_sum(Seq::<usize>::empty()) + 1);
            assert(phones@.len() == old_len + 1);
        }
    } else {
        assert(cs@.len() > 0);
    }
    assert(w@.len() > 0);
    // At least four phones.
    let ghost p1 = string_views(phones@);
    let ghost w1 = w@;
    while phones.len() < 4
        invariant
            w@.len() > 0,
            w@.len() == w1.len(),
            w@[0] <= phones@.len() + 1,
            pad_phones(string_views(phones@), w@) == pad_phones(p1, w1),
            words_pronounced(words) ==> count_sum(w@) == phones@.len(),
            words == dict.word_entries(),
        decreases 4 - phones.len(),
    {
        let ghost old_phones = string_views(phones@);
        let ghost old_w = w@;
        let comma: Vec<char> = vec![','];
        assert(comma@ =~= seq![',']);
        let ghost old_len = phones@.len();
        phones.insert(0, string_from(&comma));
        assert(string_views(phones@) =~= seq![seq![',']] + old_phones);
        assert(phones@.len() == old_len + 1);
        let v = w[0] + 1;
        w.set(0, v);
        proof {
            lemma_count_sum_bump(old_w);
        }
    }
    assert(pad_phones(string_views(phones@), w@) == (string_views(phones@), w@));
    (phones, w, norm)
}

/// Whether `c` is read aloud: a kept mark, a Chinese character or an ASCII
/// letter.
pub open spec fn is_phonetic(c: char) -> bool {
    is_phone_mark(c) || is_zh(c) || is_ascii_alpha(c)
}

proof fn lemma_phones_nonempty(
    syllables: Seq<(Seq<char>, Seq<char>, Seq<char>)>,
    words: Seq<(Seq<char>, Seq<Seq<char>>)>,
    pys: Seq<Seq<char>>,
    s: Seq<char>,
    zk: int,
)
    requires
        words_pronounced(words),
        exists|i: int| 0 <= i < s.len() && #[trigger] is_phonetic(s[i]),
    ensures
        phones_from(syllables, words, pys, s, zk).0.len() > 0,
    decreases s.len(),
{
    if is_phone_mark(s[0]) || is_zh(s[0]) {
    } else if is_ascii_alpha(s[0]) {
        lemma_alpha_run(s);
        let k = alpha_run(s) as int;
        let upper = unicode_uppercase(s.take(k));
        if lookup_word(words, upper) is Some {
            lemma_lookup_word_listed(words, upper);
            let i = choose|i: int| 0 <= i < words.len() && words[i].1 == lookup_word(words, upper)->0;
            assert(words[i].1.len() > 0);
        }
        assert(spec_english_phonemes(words, s.take(k)).len() > 0);
    } else {
        let i = choose|i: int| 0 <= i < s.len() && #[trigger] is_phonetic(s[i]);
        assert(i > 0);
        assert(is_phonetic(s.drop_first()[i - 1]));
        lemma_phones_nonempty(syllables, words, pys, s.drop_first(), zk);
    }
}

proof fn lemma_pad_phones_counts(p: Seq<Seq<char>>, w: Seq<usize>)
    requires
        w.len() > 0,
    ensures
        pad_phones(p, w).1.len() == w.len(),
        pad_phones(p, w).0.len() >= 4,
    decreases 4 - p.len(),
{
    if p.len() < 4 {
        lemma_pad_phones_counts(seq![seq![',']] + p, w.update(0, (w[0] + 1) as usize));
    }
}

/// When the normalised text has a character that is read aloud (a kept
/// mark, a Chinese character or an ASCII letter) and every dictionary word
/// has phones, there is one phone count per character of the normalised
/// text; there are always at least four phones.
pub proof fn lemma_phone_counts_per_character(
    chars: Seq<(char, Seq<char>)>,
    syllables: Seq<(Seq<char>, Seq<char>, Seq<char>)>,
    words: Seq<(Seq<char>, Seq<Seq<char>>)>,
    text: Seq<char>,
)
    requires
        words_pronounced(words),
        exists|i: int| 0 <= i < spec_normalize_chinese_text(text).len()
            && #[trigger] is_phonetic(spec_normalize_chinese_text(text)[i]),
    ensures
        spec_text_to_phonemes(chars, syllables, words, text).1.len() == spec_normalize_chinese_text(text).len(),
        spec_text_to_phonemes(chars, syllables, words, text).0.len() >= 4,
{
    let norm = spec_normalize_chinese_text(text);
    let pys = text_pinyins(chars, norm);
    lemma_phones_nonempty(syllables, words, pys, norm, 0);
    lemma_phones_from(syllables, words, pys, norm, 0);
    let (p, w) = raw_phones(chars, syllables, words, norm);
    assert(w.len() == norm.len() && norm.len() > 0);
    lemma_pad_phones_counts(p, w);
}

/// Converts text to phones with empty pronunciation tables: every Chinese
/// character reads as `a1` and English words are spelt letter by letter.
pub fn text_to_phonemes(text: &str, language: &str, version: &str) -> (r: (Vec<String>, Vec<usize>, String))
    requires
        numbers_in_range(text@),
    ensures
        (string_views(r.0@), r.1@, r.2@) == spec_text_to_phonemes(Seq::empty(), Seq::empty(), Seq::empty(), text@),
        r.0@.len() >= 4,
        raw_phones(Seq::empty(), Seq::empty(), Seq::empty(), r.2@).0.len() > 0 ==> r.1@.len() == r.2@.len(),
        count_sum(r.1@) == r.0@.len(),
{
    let tables = PinyinTables::empty();
    let dict = CmuDict::empty();
    assert(tables.char_entries() =~= Seq::<(char, Seq<char>)>::empty());
    assert(tables.syllable_entries() =~= Seq::<(Seq<char>, Seq<char>, Seq<char>)>::empty());
    assert(dict.word_entries() =~= Seq::<(Seq<char>, Seq<Seq<char>>)>::empty());
    text_to_phonemes_with(&tables, &dict, text, language, version)
}

} // verus!
