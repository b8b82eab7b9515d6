//! The two symbol tables.
//!
//! Each table is an ordered list of (pattern, output character) pairs;
//! order is significant, because the matcher takes the first pattern that
//! fits. Letters `A`..`Z` are spelt as three-digit trinary numerals over
//! the digits `'1'`..`'3'` (most significant first), a space is spelt
//! `"0"`, and the v2 generation adds the digits `'1'`..`'9'`, each spelt
//! as two trinary digits around a fixed `'8'` marker. The tables are
//! static data: they are rebuilt for each decode call and never mutated.

use vstd::prelude::*;

verus! {

/// The character for one trinary digit value.
pub open spec fn trit_char(t: int) -> char {
    if t == 0 {
        '1'
    } else if t == 1 {
        '2'
    } else {
        '3'
    }
}

/// The pattern of the letter with alphabet index `i` (`0` for `A`): its
/// index written as three trinary digits, most significant first.
pub open spec fn letter_pattern(i: int) -> Seq<char> {
    seq![trit_char(i / 9), trit_char((i / 3) % 3), trit_char(i % 3)]
}

/// The letter with alphabet index `i` (`0` for `A`).
pub open spec fn letter_target(i: int) -> char {
    ((65 + i) as u8) as char
}

/// The pattern of the decimal digit `d` (`1 <= d <= 9`): `d - 1` written
/// as two trinary digits around the `'8'` marker.
pub open spec fn digit_pattern(d: int) -> Seq<char> {
    seq![trit_char((d - 1) / 3), '8', trit_char((d - 1) % 3)]
}

/// The decimal digit character for `d`.
pub open spec fn digit_target(d: int) -> char {
    ((48 + d) as u8) as char
}

/// The v1 table: the 26 letters, then a space spelt `"0"`.
pub open spec fn v1_table() -> Seq<(Seq<char>, char)> {
    Seq::new(26, |i: int| (letter_pattern(i), letter_target(i))) + seq![(seq!['0'], ' ')]
}

/// The v2 table: the v1 entries, then the nine decimal digits.
pub open spec fn v2_table() -> Seq<(Seq<char>, char)> {
    v1_table() + Seq::new(9, |i: int| (digit_pattern(i + 1), digit_target(i + 1)))
}

/// Every pattern of both tables is non-empty; the matcher's progress
/// guarantee rests on this.
pub proof fn lemma_tables_nonempty()
    ensures
        forall|k: int| 0 <= k < v1_table().len() ==> (#[trigger] v1_table()[k]).0.len() > 0,
        forall|k: int| 0 <= k < v2_table().len() ==> (#[trigger] v2_table()[k]).0.len() > 0,
{
}

/// One table entry: a short digit pattern and the character it decodes
/// to.
pub struct SymbolMapping {
    pub pattern: Vec<char>,
    pub target: char,
}

impl View for SymbolMapping {
    type V = (Seq<char>, char);

    open spec fn view(&self) -> (Seq<char>, char) {
        (self.pattern@, self.target)
    }
}

impl DeepView for SymbolMapping {
    type V = (Seq<char>, char);

    open spec fn deep_view(&self) -> (Seq<char>, char) {
        self.view()
    }
}

/// The character for one trinary digit value.
fn trit_for(t: usize) -> (c: char)
    requires
        t < 3,
    ensures
        c == trit_char(t as int),
{
    if t == 0 {
        '1'
    } else if t == 1 {
        '2'
    } else {
        '3'
    }
}

/// Builds the v1 symbol table.
pub fn v1_symbol_mapping() -> (r: Vec<SymbolMapping>)
    ensures
        r.deep_view() == v1_table(),
{
    let mut out: Vec<SymbolMapping> = Vec::new();
    let mut i: usize = 0;
    while i < 26
        invariant
            i <= 26,
            out@.len() == i as int,
            forall|k: int| 0 <= k < i ==> (#[trigger] out@[k])@ == v1_table()[k],
        decreases 26 - i,
    {
        let pattern = vec![trit_for(i / 9), trit_for((i / 3) % 3), trit_for(i % 3)];
        let target = (65u8 + (i as u8)) as char;
        proof {
            assert(pattern@ =~= letter_pattern(i as int));
            assert(target == letter_target(i as int));
        }
        out.push(SymbolMapping { pattern, target });
        i = i + 1;
    }
    let space = SymbolMapping { pattern: vec!['0'], target: ' ' };
    proof {
        assert(space.pattern@ =~= seq!['0']);
    }
    out.push(space);
    proof {
        assert(out.deep_view() =~= v1_table());
    }
    out
}

/// Builds the v2 symbol table.
pub fn v2_symbol_mapping() -> (r: Vec<SymbolMapping>)
    ensures
        r.deep_view() == v2_table(),
{
    let mut out = v1_symbol_mapping();
    proof {
        assert(out@.len() == out.deep_view().len());
        assert(v1_table().len() == 27);
        assert(forall|k: int| 0 <= k < 27 ==> (#[trigger] out@[k])@ == v2_table()[k]);
    }
    let mut d: usize = 1;
    while d <= 9
        invariant
            1 <= d <= 10,
            out@.len() == 27 + (d as int - 1),
            forall|k: int| 0 <= k < out@.len() ==> (#[trigger] out@[k])@ == v2_table()[k],
        decreases 10 - d,
    {
        let pattern = vec![trit_for((d - 1) / 3), '8', trit_for((d - 1) % 3)];
        let target = (48u8 + (d as u8)) as char;
        proof {
            assert(pattern@ =~= digit_pattern(d as int));
            assert(target == digit_target(d as int));
        }
        out.push(SymbolMapping { pattern, target });
        d = d + 1;
    }
    proof {
        assert(out.deep_view() =~= v2_table());
    }
    out
}

} // verus!
