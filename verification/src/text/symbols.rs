//! The phone symbol inventory: a text with one symbol per line, a symbol's
//! id being its line number, and the ids of a phone sequence.

use vstd::prelude::*;
use crate::text::chars::{char_views, chars_of, push_piece, same_chars, trim_chars};
use crate::text::g2p::lines_fold;
use crate::text::segmentation::trim_all;

verus! {

/// The lines of `s` as `str::lines` reads them: cut at each `\n`, a final
/// line ending being optional.  (A `\r` before a `\n` stays on its line here;
/// the inventory trims every line, which removes it.)
pub open spec fn inventory_lines(s: Seq<char>) -> Seq<Seq<char>> {
    let (out, cur) = lines_fold(s, s.len());
    if cur.len() > 0 { out.push(cur) } else { out }
}

/// The id of `phone` in an inventory: the number of the last line that holds
/// it, or 0 when no line does.
pub open spec fn symbol_id(symbols: Seq<Seq<char>>, phone: Seq<char>) -> nat
    decreases symbols.len(),
{
    if symbols.len() == 0 {
        0
    } else if symbols.last() == phone {
        (symbols.len() - 1) as nat
    } else {
        symbol_id(symbols.drop_last(), phone)
    }
}

/// A phone symbol inventory.
pub struct SymbolTable {
    symbols: Vec<Vec<char>>,
}

impl SymbolTable {
    /// The symbol of each id, in id order.
    pub closed spec fn spec_symbols(&self) -> Seq<Seq<char>> {
        char_views(self.symbols@)
    }

    /// Reads an inventory: one symbol per line, each line trimmed.
    pub fn from_text(content: &str) -> (t: SymbolTable)
        ensures
            t.spec_symbols() == trim_all(inventory_lines(content@)),
    {
        let cs = chars_of(content);
        let mut out: Vec<Vec<char>> = Vec::new();
        let mut cur: Vec<char> = Vec::new();
        let mut i: usize = 0;
        assert(char_views(out@) =~= Seq::<Seq<char>>::empty());
        while i < cs.len()
            invariant
                i <= cs.len(),
                cs@ == content@,
                (char_views(out@), cur@) == lines_fold(cs@, i as nat),
            decreases cs.len() - i,
        {
            if cs[i] == '\n' {
                let line = cur;
                push_piece(&mut out, line);
                cur = Vec::new();
                assert(cur@ =~= Seq::<char>::empty());
            } else {
                cur.push(cs[i]);
            }
            i = i + 1;
        }
        if cur.len() > 0 {
            push_piece(&mut out, cur);
        }
        let ghost lines = char_views(out@);
        assert(lines == inventory_lines(content@));
        let mut symbols: Vec<Vec<char>> = Vec::new();
        let mut k: usize = 0;
        while k < out.len()
            invariant
                k <= out.len(),
                lines == char_views(out@),
                char_views(symbols@) =~= trim_all(lines).take(k as int),
            decreases out.len() - k,
        {
            let t = trim_chars(out[k].as_slice());
            push_piece(&mut symbols, t);
            k = k + 1;
        }
        assert(trim_all(lines).take(out.len() as int) =~= trim_all(lines));
        SymbolTable { symbols }
    }

    /// The id of `phone`: the number of the last line that holds it, 0 when
    /// none does.
    pub fn id_of(&self, phone: &[char]) -> (r: usize)
        ensures
            r == symbol_id(self.spec_symbols(), phone@),
    {
        let ghost syms = self.spec_symbols();
        let mut i: usize = self.symbols.len();
        assert(syms.take(i as int) =~= syms);
        while i > 0
            invariant
                i <= self.symbols.len(),
                syms == char_views(self.symbols@),
                symbol_id(syms, phone@) == symbol_id(syms.take(i as int), phone@),
            decreases i,
        {
            let ghost t = syms.take(i as int);
            assert(t.drop_last() =~= syms.take(i - 1));
            assert(t.last() == self.symbols@[i - 1]@);
            if same_chars(self.symbols[i - 1].as_slice(), phone) {
                return i - 1;
            }
            i = i - 1;
        }
        0
    }
}

/// The ids of `phones` in `table`, a phone the table lacks getting id 0.
pub fn cleaned_text_to_sequence(table: &SymbolTable, phones: &[String]) -> (r: Vec<usize>)
    ensures
        r@.len() == phones@.len(),
        forall|i: int| 0 <= i < phones@.len() ==> #[trigger] r@[i] == symbol_id(table.spec_symbols(), phones@[i]@),
{
    let mut r: Vec<usize> = Vec::new();
    let mut i: usize = 0;
    while i < phones.len()
        invariant
            i <= phones.len(),
            r@.len() == i,
            forall|k: int| 0 <= k < i ==> #[trigger] r@[k] == symbol_id(table.spec_symbols(), phones@[k]@),
        decreases phones.len() - i,
    {
        let p = chars_of(phones[i].as_str());
        let id = table.id_of(&p);
        r.push(id);
        i = i + 1;
    }
    r
}

} // verus!
