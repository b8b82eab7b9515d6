//! Pattern tables with shorthand variants, and the grapheme matcher.
//!
//! A `Mapping` pairs one table pattern with its generated variants: the
//! alternate spellings obtained by replacing one canonical two-digit pair
//! with its shorthand digit. The matcher walks the mappings in table
//! order, trying first the original pattern and then each variant as a
//! prefix of the remaining input; the first fit wins. When nothing fits
//! it consumes one to three raw characters as an unknown sequence, so it
//! always makes progress.

use vstd::prelude::*;
use crate::chars::{copy_range, string_from_chars};
use crate::grapheme::{Grapheme, GraphemeView};
use crate::symbols::SymbolMapping;

verus! {

/// `p` with the two characters at `i` replaced by the shorthand `sh`.
pub open spec fn replace_window(p: Seq<char>, i: int, sh: char) -> Seq<char> {
    p.subrange(0, i) + seq![sh] + p.subrange(i + 2, p.len() as int)
}

/// The variants contributed by the two-character window at `i`: one per
/// replacement rule whose source equals the window. The three rules are
/// `"11"` to `'4'`, `"22"` to `'5'` and `"33"` to `'6'`; at most one can
/// fit a given window.
pub open spec fn window_variants(p: Seq<char>, i: int) -> Seq<Seq<char>> {
    if p[i] == '1' && p[i + 1] == '1' {
        seq![replace_window(p, i, '4')]
    } else if p[i] == '2' && p[i + 1] == '2' {
        seq![replace_window(p, i, '5')]
    } else if p[i] == '3' && p[i + 1] == '3' {
        seq![replace_window(p, i, '6')]
    } else {
        Seq::empty()
    }
}

/// All variants contributed by the windows at `i` and beyond, in window
/// order. Substitutions are never combined: each variant replaces
/// exactly one window.
pub open spec fn variants_from(p: Seq<char>, i: int) -> Seq<Seq<char>>
    decreases p.len() - i,
{
    if i < 0 || i + 2 > p.len() {
        Seq::empty()
    } else {
        window_variants(p, i) + variants_from(p, i + 1)
    }
}

/// Every alternate spelling of `p`: one single-substitution variant per
/// replaceable window, in window order.
pub open spec fn variants_spec(p: Seq<char>) -> Seq<Seq<char>> {
    variants_from(p, 0)
}

/// Each variant is exactly one character shorter than the pattern it
/// came from.
pub proof fn lemma_variants_from_lens(p: Seq<char>, i: int)
    ensures
        forall|k: int|
            0 <= k < variants_from(p, i).len() ==> (#[trigger] variants_from(p, i)[k]).len() == p.len()
                - 1,
    decreases p.len() - i,
{
    if i < 0 || i + 2 > p.len() {
    } else {
        lemma_variants_from_lens(p, i + 1);
        let w = window_variants(p, i);
        let rest = variants_from(p, i + 1);
        assert(variants_from(p, i) == w + rest);
        assert(forall|k: int| 0 <= k < w.len() ==> (#[trigger] w[k]).len() == p.len() - 1);
        assert forall|k: int|
            0 <= k < variants_from(p, i).len() implies (#[trigger] variants_from(p, i)[k]).len()
            == p.len() - 1 by {
            if k < w.len() {
                assert(variants_from(p, i)[k] == w[k]);
            } else {
                assert(variants_from(p, i)[k] == rest[k - w.len()]);
            }
        }
    }
}

/// One table pattern together with its generated variants and its output
/// character.
pub struct Mapping {
    pub source: Vec<char>,
    pub variants: Vec<Vec<char>>,
    pub target: char,
}

/// The mathematical shape of a mapping.
pub struct MappingView {
    pub source: Seq<char>,
    pub variants: Seq<Seq<char>>,
    pub target: char,
}

impl View for Mapping {
    type V = MappingView;

    open spec fn view(&self) -> MappingView {
        MappingView {
            source: self.source@,
            variants: self.variants.deep_view(),
            target: self.target,
        }
    }
}

impl DeepView for Mapping {
    type V = MappingView;

    open spec fn deep_view(&self) -> MappingView {
        self.view()
    }
}

/// The mapping derived from one table entry.
pub open spec fn mapping_of(entry: (Seq<char>, char)) -> MappingView {
    MappingView { source: entry.0, variants: variants_spec(entry.0), target: entry.1 }
}

/// The mappings derived from a table, in table order.
pub open spec fn mappings_of(table: Seq<(Seq<char>, char)>) -> Seq<MappingView> {
    table.map_values(|entry: (Seq<char>, char)| mapping_of(entry))
}

/// A mapping whose pattern and variants are all non-empty, so that a
/// match always consumes at least one character.
pub open spec fn mapping_wf(m: MappingView) -> bool {
    &&& m.source.len() >= 1
    &&& forall|k: int| 0 <= k < m.variants.len() ==> (#[trigger] m.variants[k]).len() >= 1
}

pub open spec fn mappings_wf(ms: Seq<MappingView>) -> bool {
    forall|j: int| 0 <= j < ms.len() ==> mapping_wf(#[trigger] ms[j])
}

/// `p` occurs at the very start of `s`.
pub open spec fn is_prefix_of(p: Seq<char>, s: Seq<char>) -> bool {
    p.len() <= s.len() && p == s.take(p.len() as int)
}

/// The length of the first variant in `vs` that starts `s`, in variant
/// order.
pub open spec fn variant_match(vs: Seq<Seq<char>>, s: Seq<char>) -> Option<int>
    decreases vs.len(),
{
    if vs.len() == 0 {
        None
    } else if is_prefix_of(vs[0], s) {
        Some(vs[0].len() as int)
    } else {
        variant_match(vs.drop_first(), s)
    }
}

/// The consumed length if `m` matches the start of `s`: the original
/// pattern is tried before any variant.
pub open spec fn mapping_match(m: MappingView, s: Seq<char>) -> Option<int> {
    if is_prefix_of(m.source, s) {
        Some(m.source.len() as int)
    } else {
        variant_match(m.variants, s)
    }
}

/// The first mapping in table order that matches the start of `s`,
/// together with the consumed length. First match wins; this is not a
/// longest-match rule.
pub open spec fn table_match(ms: Seq<MappingView>, s: Seq<char>) -> Option<(char, int)>
    decreases ms.len(),
{
    if ms.len() == 0 {
        None
    } else {
        match mapping_match(ms[0], s) {
            Some(n) => Some((ms[0].target, n)),
            None => table_match(ms.drop_first(), s),
        }
    }
}

/// How many raw characters the unknown-sequence fallback takes: up to
/// three, capped by what is available.
pub open spec fn fallback_len(s: Seq<char>) -> int {
    if s.len() < 3 {
        s.len() as int
    } else {
        3
    }
}

/// One matching step at the start of `s`: the first fitting mapping, or
/// the unknown-sequence fallback. Returns the grapheme and the consumed
/// length.
pub open spec fn match_one(ms: Seq<MappingView>, s: Seq<char>) -> (GraphemeView, int) {
    match table_match(ms, s) {
        Some((c, n)) => (GraphemeView::Known { c }, n),
        None => (GraphemeView::Unknown { text: s.take(fallback_len(s)) }, fallback_len(s)),
    }
}

proof fn lemma_variant_match_bounds(vs: Seq<Seq<char>>, s: Seq<char>)
    ensures
        match variant_match(vs, s) {
            Some(n) => {
                &&& 0 <= n <= s.len()
                &&& exists|k: int| 0 <= k < vs.len() && (#[trigger] vs[k]).len() == n
            },
            None => true,
        },
    decreases vs.len(),
{
    if vs.len() > 0 && !is_prefix_of(vs[0], s) {
        lemma_variant_match_bounds(vs.drop_first(), s);
        if variant_match(vs.drop_first(), s) is Some {
            let n = variant_match(vs.drop_first(), s)->Some_0;
            let k = choose|k: int|
                0 <= k < vs.drop_first().len() && (#[trigger] vs.drop_first()[k]).len() == n;
            assert(vs[k + 1].len() == n);
        }
    }
}

proof fn lemma_table_match_bounds(ms: Seq<MappingView>, s: Seq<char>)
    requires
        mappings_wf(ms),
    ensures
        match table_match(ms, s) {
            Some(p) => 1 <= p.1 <= s.len(),
            None => true,
        },
    decreases ms.len(),
{
    if ms.len() > 0 {
        lemma_variant_match_bounds(ms[0].variants, s);
        if mapping_match(ms[0], s) is None {
            assert(mappings_wf(ms.drop_first()));
            lemma_table_match_bounds(ms.drop_first(), s);
        }
    }
}

/// The matcher's progress guarantee: on a non-empty rest of input, one
/// matching step consumes at least one and at most all of the remaining
/// characters.
pub proof fn lemma_match_one_bounds(ms: Seq<MappingView>, s: Seq<char>)
    requires
        mappings_wf(ms),
        s.len() > 0,
    ensures
        1 <= match_one(ms, s).1 <= s.len(),
{
    lemma_table_match_bounds(ms, s);
}

/// Builds the variant of `text` that replaces the window at `i` with the
/// shorthand `sh`.
fn build_variant(text: &Vec<char>, i: usize, sh: char) -> (r: Vec<char>)
    requires
        i + 2 <= text@.len(),
    ensures
        r@ == replace_window(text@, i as int, sh),
{
    let n = text.len();
    let mut r = copy_range(text, 0, i);
    r.push(sh);
    let mut j: usize = i + 2;
    while j < n
        invariant
            n == text@.len(),
            i + 2 <= j <= text@.len(),
            r@ == text@.subrange(0, i as int) + seq![sh] + text@.subrange(i as int + 2, j as int),
        decreases text@.len() - j,
    {
        r.push(text[j]);
        j = j + 1;
        proof {
            assert(r@ =~= text@.subrange(0, i as int) + seq![sh] + text@.subrange(
                i as int + 2,
                j as int,
            ));
        }
    }
    proof {
        assert(r@ =~= replace_window(text@, i as int, sh));
    }
    r
}

/// Derives the alternate spellings of `text`: for every adjacent
/// two-character window and every replacement rule whose source equals
/// the window, one variant with exactly that window replaced by the
/// rule's shorthand digit.
pub fn generate_variants_static(text: &Vec<char>) -> (r: Vec<Vec<char>>)
    ensures
        r.deep_view() == variants_spec(text@),
{
    let mut out: Vec<Vec<char>> = Vec::new();
    let n = text.len();
    if n < 2 {
        proof {
            assert(out.deep_view() =~= variants_spec(text@));
        }
        return out;
    }
    let mut i: usize = 0;
    proof {
        assert(out.deep_view() =~= Seq::<Seq<char>>::empty());
        assert(variants_spec(text@) =~= out.deep_view() + variants_from(text@, 0));
    }
    while i < n - 1
        invariant
            n == text@.len(),
            2 <= n,
            i <= n - 1,
            variants_spec(text@) == out.deep_view() + variants_from(text@, i as int),
        decreases n - i,
    {
        let ghost prev = out.deep_view();
        let ghost w = window_variants(text@, i as int);
        proof {
            assert(variants_from(text@, i as int) == w + variants_from(text@, i as int + 1));
        }
        let c0 = text[i];
        let c1 = text[i + 1];
        if c0 == '1' && c1 == '1' {
            out.push(build_variant(text, i, '4'));
            proof {
                assert(w =~~= seq![replace_window(text@, i as int, '4')]);
                assert(out.deep_view() =~~= prev + w);
            }
        } else if c0 == '2' && c1 == '2' {
            out.push(build_variant(text, i, '5'));
            proof {
                assert(w =~~= seq![replace_window(text@, i as int, '5')]);
                assert(out.deep_view() =~~= prev + w);
            }
        } else if c0 == '3' && c1 == '3' {
            out.push(build_variant(text, i, '6'));
            proof {
                assert(w =~~= seq![replace_window(text@, i as int, '6')]);
                assert(out.deep_view() =~~= prev + w);
            }
        } else {
            proof {
                assert(w =~= Seq::<Seq<char>>::empty());
                assert(out.deep_view() =~~= prev + w);
            }
        }
        i = i + 1;
        proof {
            assert(variants_spec(text@) =~~= out.deep_view() + variants_from(text@, i as int));
        }
    }
    proof {
        assert(variants_from(text@, i as int) =~= Seq::<Seq<char>>::empty());
        assert(out.deep_view() =~= variants_spec(text@));
    }
    out
}

/// The ordered mapping list for one cipher version, derived from its
/// symbol table.
pub struct Mappings(Vec<Mapping>);

impl View for Mappings {
    type V = Seq<MappingView>;

    closed spec fn view(&self) -> Seq<MappingView> {
        self.0.deep_view()
    }
}

impl Mappings {
    /// Patterns and variants are non-empty, so matching always advances.
    #[verifier::type_invariant]
    pub open spec fn wf(&self) -> bool {
        mappings_wf(self@)
    }

    /// Derives the mapping list from a symbol table: each entry keeps its
    /// pattern and output character and gains the pattern's variants.
    pub fn new(kvs: &Vec<SymbolMapping>) -> (r: Mappings)
        requires
            forall|k: int| 0 <= k < kvs@.len() ==> (#[trigger] kvs@[k]).pattern@.len() >= 1,
        ensures
            r@ == mappings_of(kvs.deep_view()),
    {
        let mut out: Vec<Mapping> = Vec::new();
        let mut i: usize = 0;
        while i < kvs.len()
            invariant
                i <= kvs@.len(),
                out@.len() == i as int,
                forall|k: int| 0 <= k < kvs@.len() ==> (#[trigger] kvs@[k]).pattern@.len() >= 1,
                forall|k: int|
                    0 <= k < i ==> (#[trigger] out@[k])@ == mapping_of(kvs@[k]@) && mapping_wf(
                        out@[k]@,
                    ),
            decreases kvs@.len() - i,
        {
            let kv = &kvs[i];
            let variants = generate_variants_static(&kv.pattern);
            let source = copy_range(&kv.pattern, 0, kv.pattern.len());
            let m = Mapping { source, variants, target: kv.target };
            proof {
                assert(kv.pattern@.subrange(0, kv.pattern@.len() as int) =~= kv.pattern@);
                lemma_variants_from_lens(kv.pattern@, 0);
                assert(mapping_wf(m@));
            }
            out.push(m);
            i = i + 1;
        }
        let r = Mappings(out);
        proof {
            assert(r@ =~= mappings_of(kvs.deep_view()));
        }
        r
    }

    /// One matching step of the grapheme matcher at position `pos`:
    /// mappings in table order, pattern before variants, first fit wins;
    /// otherwise the unknown-sequence fallback. Always consumes between
    /// one character and the whole rest.
    pub fn parse(&self, chars: &Vec<char>, pos: usize) -> (r: (Grapheme, usize))
        requires
            pos < chars@.len(),
        ensures
            r.0@ == match_one(self@, chars@.skip(pos as int)).0,
            r.1 as int == match_one(self@, chars@.skip(pos as int)).1,
            1 <= r.1,
            pos + r.1 <= chars@.len(),
    {
        proof {
            use_type_invariant(self);
            lemma_match_one_bounds(self@, chars@.skip(pos as int));
            assert(self@.skip(0) =~= self@);
        }
        let ghost suffix = chars@.skip(pos as int);
        let mut idx: usize = 0;
        while idx < self.0.len()
            invariant
                pos < chars@.len(),
                suffix == chars@.skip(pos as int),
                mappings_wf(self@),
                self@.len() == self.0@.len(),
                forall|k: int| 0 <= k < self.0@.len() ==> self@[k] == (#[trigger] self.0@[k])@,
                idx <= self.0@.len(),
                table_match(self@, suffix) == table_match(self@.skip(idx as int), suffix),
                1 <= match_one(self@, suffix).1 <= suffix.len(),
            decreases self.0@.len() - idx,
        {
            let m = &self.0[idx];
            proof {
                assert(self@.skip(idx as int)[0] == self@[idx as int]);
            }
            if is_prefix_at(&m.source, chars, pos) {
                proof {
                    assert(mapping_match(self@[idx as int], suffix) == Some(
                        m.source@.len() as int,
                    ));
                    assert(table_match(self@.skip(idx as int), suffix) == Some(
                        (m.target, m.source@.len() as int),
                    ));
                }
                return (Grapheme::KnownValue(m.target), m.source.len());
            }
            let vr = variant_scan(&m.variants, chars, pos);
            match vr {
                Some(n) => {
                    proof {
                        assert(mapping_match(self@[idx as int], suffix) == Some(n as int));
                        assert(table_match(self@.skip(idx as int), suffix) == Some(
                            (m.target, n as int),
                        ));
                    }
                    return (Grapheme::KnownValue(m.target), n);
                },
                None => {
                    proof {
                        assert(mapping_match(self@[idx as int], suffix) is None);
                        assert(self@.skip(idx as int).drop_first() =~= self@.skip(idx as int + 1));
                        assert(table_match(self@.skip(idx as int), suffix) == table_match(
                            self@.skip(idx as int + 1),
                            suffix,
                        ));
                    }
                },
            }
            idx = idx + 1;
        }
        proof {
            assert(self@.skip(self@.len() as int) =~= Seq::<MappingView>::empty());
            assert(table_match(self@, suffix) is None);
        }
        let avail = chars.len() - pos;
        let k = if avail < 3 {
            avail
        } else {
            3
        };
        let raw = copy_range(chars, pos, pos + k);
        let text = string_from_chars(&raw);
        proof {
            assert(raw@ =~= suffix.take(fallback_len(suffix)));
        }
        (Grapheme::UnknownSequence(text), k)
    }
}

/// Tests each variant, in the order they were generated, as a prefix of
/// the input at `pos`; reports the consumed length of the first fit.
fn variant_scan(vs: &Vec<Vec<char>>, chars: &Vec<char>, pos: usize) -> (r: Option<usize>)
    requires
        pos <= chars@.len(),
    ensures
        match r {
            Some(n) => {
                &&& variant_match(vs.deep_view(), chars@.skip(pos as int)) == Some(n as int)
                &&& pos + n <= chars@.len()
            },
            None => variant_match(vs.deep_view(), chars@.skip(pos as int)) is None,
        },
{
    let ghost suffix = chars@.skip(pos as int);
    proof {
        assert(vs.deep_view().skip(0) =~= vs.deep_view());
    }
    let mut vi: usize = 0;
    while vi < vs.len()
        invariant
            pos <= chars@.len(),
            suffix == chars@.skip(pos as int),
            vi <= vs@.len(),
            vs.deep_view().len() == vs@.len(),
            forall|k: int| 0 <= k < vs@.len() ==> vs.deep_view()[k] == (#[trigger] vs@[k])@,
            variant_match(vs.deep_view(), suffix) == variant_match(
                vs.deep_view().skip(vi as int),
                suffix,
            ),
        decreases vs@.len() - vi,
    {
        proof {
            assert(vs.deep_view().skip(vi as int)[0] == vs.deep_view()[vi as int]);
        }
        if is_prefix_at(&vs[vi], chars, pos) {
            proof {
                assert(variant_match(vs.deep_view().skip(vi as int), suffix) == Some(
                    vs@[vi as int]@.len() as int,
                ));
            }
            return Some(vs[vi].len());
        }
        proof {
            assert(vs.deep_view().skip(vi as int).drop_first() =~= vs.deep_view().skip(
                vi as int + 1,
            ));
            assert(variant_match(vs.deep_view().skip(vi as int), suffix) == variant_match(
                vs.deep_view().skip(vi as int + 1),
                suffix,
            ));
        }
        vi = vi + 1;
    }
    proof {
        assert(vs.deep_view().skip(vs@.len() as int) =~= Seq::<Seq<char>>::empty());
    }
    None
}

/// Does `p` occur at position `pos` of `chars`?
fn is_prefix_at(p: &Vec<char>, chars: &Vec<char>, pos: usize) -> (b: bool)
    requires
        pos <= chars@.len(),
    ensures
        b == is_prefix_of(p@, chars@.skip(pos as int)),
{
    let n = chars.len();
    if p.len() > n - pos {
        return false;
    }
    let mut j: usize = 0;
    while j < p.len()
        invariant
            n == chars@.len(),
            pos + p@.len() <= n,
            j <= p@.len(),
            forall|k: int| 0 <= k < j ==> p@[k] == chars@[pos + k],
        decreases p@.len() - j,
    {
        if p[j] != chars[pos + j] {
            proof {
                assert(chars@.skip(pos as int)[j as int] == chars@[pos + j as int]);
            }
            return false;
        }
        j = j + 1;
    }
    proof {
        assert(p@ =~= chars@.skip(pos as int).take(p@.len() as int));
    }
    true
}

} // verus!
