//! The decode engine.
//!
//! Decoding repeatedly matches graphemes over the full input for a
//! chosen version. The v2 engine first tries the escape recognizer at
//! each position: a fixed three-digit delimiter, the interior up to the
//! next occurrence of the same delimiter, and that closing delimiter;
//! the interior is decoded recursively, rendered, and read as a
//! hexadecimal codepoint. Where no escape opens, the grapheme matcher
//! runs. A combined entry point prefers v2 and falls back to v1;
//! version-specific decoding fails only on empty input.

use vstd::prelude::*;
use crate::chars::chars_of_str;
use crate::chars::copy_range;
use crate::grapheme::render_spec;
use crate::grapheme::render_graphemes;
use crate::grapheme::DecodeResult;
use crate::grapheme::Grapheme;
use crate::grapheme::GraphemeView;
use crate::grapheme::UnicodeParseError;
use crate::hex::char_from_u32;
use crate::hex::parse_hex;
use crate::hex::parse_hex_spec;
use crate::hex::resolve_scalar;
use crate::mappings::is_prefix_of;
use crate::mappings::mappings_of;
use crate::mappings::match_one;
use crate::mappings::MappingView;
use crate::mappings::Mappings;
use crate::normalizer::lemma_normalize_identity;
use crate::normalizer::no_shorthand;
use crate::normalizer::normalize_chars;
use crate::normalizer::NormalizedCiphertext;
use crate::symbols::lemma_tables_nonempty;
use crate::symbols::v1_symbol_mapping;
use crate::symbols::v1_table;
use crate::symbols::v2_symbol_mapping;
use crate::symbols::v2_table;

verus! {

/// The mapping list of the v1 table.
pub open spec fn v1_mappings() -> Seq<MappingView> {
    mappings_of(v1_table())
}

/// The mapping list of the v2 table.
pub open spec fn v2_mappings() -> Seq<MappingView> {
    mappings_of(v2_table())
}

/// The escape delimiter token.
pub open spec fn delim() -> Seq<char> {
    seq!['7', '9', '1']
}

/// The least index at or after `from` where the delimiter occurs in
/// `s`.
pub open spec fn find_delim(s: Seq<char>, from: int) -> Option<int>
    decreases s.len() - from,
{
    if from < 0 || from + 3 > s.len() {
        None
    } else if s.subrange(from, from + 3) == delim() {
        Some(from)
    } else {
        find_delim(s, from + 1)
    }
}

/// The escape recognizer at the start of `s`: the opening delimiter,
/// then everything up to the first closing delimiter, then that
/// delimiter. Yields the interior and the total consumed length.
/// `find_delim` only returns indices with three characters in range;
/// the inner condition states that bound where the recursion below
/// needs it.
pub open spec fn escape_parse(s: Seq<char>) -> Option<(Seq<char>, int)> {
    if is_prefix_of(delim(), s) {
        match find_delim(s, 3) {
            Some(j) => if 3 <= j && j + 3 <= s.len() {
                Some((s.subrange(3, j), j + 3))
            } else {
                None
            },
            None => None,
        }
    } else {
        None
    }
}

/// The decode of `s`: at each position, for v2 first the escape
/// recognizer, then the grapheme matcher; each step yields one grapheme
/// and the number of characters it consumed. Match lengths from the
/// tables this crate builds always lie between one and the remaining
/// length; the clamp keeps the definition total for arbitrary mapping
/// lists.
pub open spec fn decode_items(ms: Seq<MappingView>, escapes: bool, s: Seq<char>) -> Seq<
    (GraphemeView, int),
>
    decreases s.len(), 0int,
{
    if s.len() == 0 {
        Seq::empty()
    } else {
        let escaped = if escapes {
            escape_parse(s)
        } else {
            None
        };
        match escaped {
            Some((interior, n)) => seq![(escape_grapheme(interior), n)] + decode_items(
                ms,
                escapes,
                s.skip(n),
            ),
            None => {
                let m = match_one(ms, s);
                let n = if m.1 < 1 {
                    1
                } else if m.1 > s.len() {
                    s.len() as int
                } else {
                    m.1
                };
                seq![(m.0, n)] + decode_items(ms, escapes, s.skip(n))
            },
        }
    }
}

/// The grapheme sequence of a decode, without the consumed lengths.
pub open spec fn decoded(ms: Seq<MappingView>, escapes: bool, s: Seq<char>) -> Seq<GraphemeView>
    decreases s.len(), 1int,
{
    decode_items(ms, escapes, s).map_values(|p: (GraphemeView, int)| p.0)
}

/// The grapheme an escape sequence resolves to. The interior of an
/// escape inside canonical text is itself canonical and contains no
/// delimiter, so it is decoded as it stands: with the v2 table, escapes
/// included. An empty interior cannot be decoded (empty input is a
/// decode failure); otherwise the rendered inner decode is read as a
/// hexadecimal codepoint.
pub open spec fn escape_grapheme(interior: Seq<char>) -> GraphemeView
    decreases interior.len(), 2int,
{
    if interior.len() == 0 {
        GraphemeView::Invalid { reason: UnicodeParseError::InvalidCipher }
    } else {
        let rendered = render_spec(decoded(v2_mappings(), true, interior));
        match parse_hex_spec(rendered) {
            Some(v) => match resolve_scalar(v) {
                Some(c) => GraphemeView::Known { c },
                None => GraphemeView::Invalid { reason: UnicodeParseError::InvalidHexadecimal },
            },
            None => GraphemeView::Invalid { reason: UnicodeParseError::InvalidHexadecimal },
        }
    }
}

/// What a v1 decode returns: the grapheme sequence, or a failure on
/// empty input.
pub open spec fn decode_v1_spec(s: Seq<char>) -> Option<Seq<GraphemeView>> {
    if s.len() == 0 {
        None
    } else {
        Some(decoded(v1_mappings(), false, s))
    }
}

/// What a v2 decode returns: the grapheme sequence with escape
/// handling, or a failure on empty input.
pub open spec fn decode_v2_spec(s: Seq<char>) -> Option<Seq<GraphemeView>> {
    if s.len() == 0 {
        None
    } else {
        Some(decoded(v2_mappings(), true, s))
    }
}

/// What the combined decode returns: the v2 result where v2 succeeds,
/// else the v1 result. The two strategies are never interleaved.
pub open spec fn decode_spec(s: Seq<char>) -> Option<Seq<GraphemeView>> {
    if decode_v2_spec(s) is Some {
        decode_v2_spec(s)
    } else {
        decode_v1_spec(s)
    }
}

/// Law: on any input on which the v2 decode succeeds, the combined
/// decode returns exactly the v2 result.
pub proof fn lemma_decode_prefers_v2(s: Seq<char>)
    requires
        decode_v2_spec(s) is Some,
    ensures
        decode_spec(s) == decode_v2_spec(s),
{
}

/// The sum of the consumed lengths of a decode's steps.
pub open spec fn sum_consumed(items: Seq<(GraphemeView, int)>) -> int
    decreases items.len(),
{
    if items.len() == 0 {
        0
    } else {
        items[0].1 + sum_consumed(items.drop_first())
    }
}

proof fn lemma_decode_items_cover(ms: Seq<MappingView>, escapes: bool, s: Seq<char>)
    ensures
        sum_consumed(decode_items(ms, escapes, s)) == s.len(),
    decreases s.len(),
{
    if s.len() > 0 {
        let escaped = if escapes {
            escape_parse(s)
        } else {
            None
        };
        match escaped {
            Some((interior, n)) => {
                let rest = decode_items(ms, escapes, s.skip(n));
                lemma_decode_items_cover(ms, escapes, s.skip(n));
                assert((seq![(escape_grapheme(interior), n)] + rest).drop_first() =~= rest);
                assert(sum_consumed(decode_items(ms, escapes, s)) == n + sum_consumed(rest));
            },
            None => {
                let m = match_one(ms, s);
                let n = if m.1 < 1 {
                    1
                } else if m.1 > s.len() {
                    s.len() as int
                } else {
                    m.1
                };
                let rest = decode_items(ms, escapes, s.skip(n));
                lemma_decode_items_cover(ms, escapes, s.skip(n));
                assert((seq![(m.0, n)] + rest).drop_first() =~= rest);
                assert(sum_consumed(decode_items(ms, escapes, s)) == n + sum_consumed(rest));
            },
        }
    }
}

/// Law: a decode loses no characters and invents none. For either
/// version, the consumed lengths of the decoded graphemes sum exactly
/// to the length of the (normalized) input.
pub proof fn lemma_decode_covers_input(s: Seq<char>)
    ensures
        sum_consumed(decode_items(v1_mappings(), false, s)) == s.len(),
        sum_consumed(decode_items(v2_mappings(), true, s)) == s.len(),
{
    lemma_decode_items_cover(v1_mappings(), false, s);
    lemma_decode_items_cover(v2_mappings(), true, s);
}

/// Scans for the first closing delimiter after the opening one at
/// `pos`.
fn find_close(chars: &Vec<char>, pos: usize) -> (r: Option<usize>)
    requires
        pos + 3 <= chars@.len(),
    ensures
        match r {
            Some(j) => {
                &&& pos + 3 <= j
                &&& j + 3 <= chars@.len()
                &&& find_delim(chars@.skip(pos as int), 3) == Some(j - pos)
            },
            None => find_delim(chars@.skip(pos as int), 3) is None,
        },
{
    let ghost suffix = chars@.skip(pos as int);
    let n = chars.len();
    let mut k: usize = pos + 3;
    while k <= n - 3
        invariant
            n == chars@.len(),
            suffix == chars@.skip(pos as int),
            pos + 3 <= k <= n,
            find_delim(suffix, 3) == find_delim(suffix, k as int - pos),
        decreases n - k,
    {
        proof {
            assert(suffix.len() == n - pos);
            assert(forall|t: int|
                0 <= t < suffix.len() ==> #[trigger] suffix[t] == chars@[pos + t]);
        }
        if chars[k] == '7' && chars[k + 1] == '9' && chars[k + 2] == '1' {
            proof {
                assert(suffix.subrange(k as int - pos, k as int - pos + 3) =~= delim());
            }
            return Some(k);
        }
        proof {
            let f = k as int - pos;
            assert(suffix.subrange(f, f + 3)[0] == suffix[f]);
            assert(suffix.subrange(f, f + 3)[1] == suffix[f + 1]);
            assert(suffix.subrange(f, f + 3)[2] == suffix[f + 2]);
            assert(suffix.subrange(f, f + 3) != delim());
            assert(find_delim(suffix, f) == find_delim(suffix, f + 1));
        }
        k = k + 1;
    }
    proof {
        assert(find_delim(suffix, k as int - pos) is None);
    }
    None
}

/// The escape-sequence recognizer at position `pos`: where the opening
/// delimiter stands here and a closing delimiter follows, consumes the
/// whole escape and resolves it to one grapheme, decoding the interior
/// recursively through the v2 engine; where it does not, reports no
/// match (not an error), so that the caller falls through to the
/// grapheme matcher.
pub fn unicode_parser(chars: &Vec<char>, pos: usize) -> (r: Option<(Grapheme, usize)>)
    requires
        no_shorthand(chars@),
        pos < chars@.len(),
    ensures
        r is Some <==> escape_parse(chars@.skip(pos as int)) is Some,
        r is Some ==> ({
            let (interior, n) = escape_parse(chars@.skip(pos as int))->Some_0;
            &&& (r->Some_0).0@ == escape_grapheme(interior)
            &&& (r->Some_0).1 as int == n
            &&& 1 <= n
            &&& pos + n <= chars@.len()
        }),
    decreases chars@.len(), 0int,
{
    let ghost suffix = chars@.skip(pos as int);
    proof {
        assert(suffix.len() == chars@.len() - pos);
        assert(forall|t: int| 0 <= t < suffix.len() ==> #[trigger] suffix[t] == chars@[pos + t]);
    }
    let n = chars.len();
    let avail = n - pos;
    let opening = avail >= 3 && chars[pos] == '7' && chars[pos + 1] == '9' && chars[pos + 2]
        == '1';
    proof {
        if opening {
            assert(delim() =~= suffix.take(3));
        } else {
            if is_prefix_of(delim(), suffix) {
                assert(suffix[0] == delim()[0]);
                assert(suffix[1] == delim()[1]);
                assert(suffix[2] == delim()[2]);
                assert(false);
            }
        }
        assert(opening == is_prefix_of(delim(), suffix));
    }
    if !opening {
        return None;
    }
    match find_close(chars, pos) {
        Some(j) => {
            let interior = copy_range(chars, pos + 3, j);
            proof {
                assert(interior@ =~= suffix.subrange(3, j - pos));
                assert(escape_parse(suffix) == Some((interior@, j - pos + 3)));
                assert(no_shorthand(interior@));
            }
            let inner_norm = normalize_chars(&interior);
            proof {
                lemma_normalize_identity(interior@);
                assert(inner_norm@ == interior@);
            }
            let g: Grapheme;
            if inner_norm.len() == 0 {
                g = Grapheme::InvalidUnicode(UnicodeParseError::InvalidCipher);
            } else {
                let inner = run_v2(&inner_norm);
                let rendered = render_graphemes(&inner);
                proof {
                    assert(rendered@ == render_spec(decoded(v2_mappings(), true, interior@)));
                }
                match parse_hex(rendered.as_str()) {
                    Some(v) => {
                        match char_from_u32(v) {
                            Some(c) => {
                                g = Grapheme::KnownValue(c);
                            },
                            None => {
                                g = Grapheme::InvalidUnicode(
                                    UnicodeParseError::InvalidHexadecimal,
                                );
                            },
                        }
                    },
                    None => {
                        g = Grapheme::InvalidUnicode(UnicodeParseError::InvalidHexadecimal);
                    },
                }
            }
            proof {
                assert(g@ == escape_grapheme(interior@));
            }
            Some((g, (j - pos) + 3))
        },
        None => None,
    }
}

/// The recursive v2 engine over canonical characters: repeated escape
/// recognition and grapheme matching until the input is exhausted.
fn run_v2(chars: &Vec<char>) -> (out: Vec<Grapheme>)
    requires
        no_shorthand(chars@),
    ensures
        out.deep_view() == decoded(v2_mappings(), true, chars@),
    decreases chars@.len(), 1int,
{
    let table = v2_symbol_mapping();
    proof {
        lemma_tables_nonempty();
        assert forall|k: int|
            0 <= k < table@.len() implies (#[trigger] table@[k]).pattern@.len() >= 1 by {
            assert(table.deep_view()[k] == table@[k]@);
        }
    }
    let mappings = Mappings::new(&table);
    proof {
        assert(mappings@ == v2_mappings());
    }
    let n = chars.len();
    let mut out: Vec<Grapheme> = Vec::new();
    let mut pos: usize = 0;
    proof {
        assert(chars@.skip(0) =~= chars@);
        assert(out.deep_view() =~= Seq::<GraphemeView>::empty());
    }
    while pos < n
        invariant
            n == chars@.len(),
            pos <= n,
            no_shorthand(chars@),
            mappings@ == v2_mappings(),
            decoded(v2_mappings(), true, chars@) == out.deep_view() + decoded(
                v2_mappings(),
                true,
                chars@.skip(pos as int),
            ),
        decreases n - pos,
    {
        let ghost suffix = chars@.skip(pos as int);
        match unicode_parser(chars, pos) {
            Some((g, len)) => {
                let ghost prev = out.deep_view();
                proof {
                    let (interior, step) = escape_parse(suffix)->Some_0;
                    assert(g@ == escape_grapheme(interior));
                    assert(decode_items(v2_mappings(), true, suffix) == seq![
                        (escape_grapheme(interior), step),
                    ] + decode_items(v2_mappings(), true, suffix.skip(step)));
                    assert(decoded(v2_mappings(), true, suffix) =~= seq![g@] + decoded(
                        v2_mappings(),
                        true,
                        suffix.skip(step),
                    ));
                    assert(suffix.skip(step) =~= chars@.skip(pos as int + len as int));
                }
                out.push(g);
                pos = pos + len;
                proof {
                    assert(out.deep_view() =~= prev + seq![g@]);
                    assert(decoded(v2_mappings(), true, chars@) =~= out.deep_view() + decoded(
                        v2_mappings(),
                        true,
                        chars@.skip(pos as int),
                    ));
                }
            },
            None => {
                let (g, len) = mappings.parse(chars, pos);
                let ghost prev = out.deep_view();
                proof {
                    let m = match_one(v2_mappings(), suffix);
                    assert(m.0 == g@ && m.1 == len as int);
                    assert(decode_items(v2_mappings(), true, suffix) == seq![(m.0, m.1)]
                        + decode_items(v2_mappings(), true, suffix.skip(m.1)));
                    assert(decoded(v2_mappings(), true, suffix) =~= seq![g@] + decoded(
                        v2_mappings(),
                        true,
                        suffix.skip(len as int),
                    ));
                    assert(suffix.skip(len as int) =~= chars@.skip(pos as int + len as int));
                }
                out.push(g);
                pos = pos + len;
                proof {
                    assert(out.deep_view() =~= prev + seq![g@]);
                    assert(decoded(v2_mappings(), true, chars@) =~= out.deep_view() + decoded(
                        v2_mappings(),
                        true,
                        chars@.skip(pos as int),
                    ));
                }
            },
        }
    }
    proof {
        assert(chars@.skip(n as int) =~= Seq::<char>::empty());
        assert(decode_items(v2_mappings(), true, Seq::<char>::empty()) =~= Seq::<
            (GraphemeView, int),
        >::empty());
        assert(decoded(v2_mappings(), true, Seq::<char>::empty()) =~= Seq::<GraphemeView>::empty());
        assert(out.deep_view() =~= decoded(v2_mappings(), true, chars@));
    }
    out
}

impl Mappings {
    /// Repeatedly applies the grapheme matcher over the whole input,
    /// without escape handling, and collects the graphemes in order.
    pub fn decode_all(&self, chars: &Vec<char>) -> (r: DecodeResult)
        ensures
            r@ == decoded(self@, false, chars@),
    {
        let n = chars.len();
        let mut out: Vec<Grapheme> = Vec::new();
        let mut pos: usize = 0;
        proof {
            assert(chars@.skip(0) =~= chars@);
            assert(out.deep_view() =~= Seq::<GraphemeView>::empty());
        }
        while pos < n
            invariant
                n == chars@.len(),
                pos <= n,
                decoded(self@, false, chars@) == out.deep_view() + decoded(
                    self@,
                    false,
                    chars@.skip(pos as int),
                ),
            decreases n - pos,
        {
            let ghost suffix = chars@.skip(pos as int);
            let (g, len) = self.parse(chars, pos);
            let ghost prev = out.deep_view();
            proof {
                let m = match_one(self@, suffix);
                assert(m.0 == g@ && m.1 == len as int);
                assert(decode_items(self@, false, suffix) == seq![(m.0, m.1)] + decode_items(
                    self@,
                    false,
                    suffix.skip(m.1),
                ));
                assert(decoded(self@, false, suffix) =~= seq![g@] + decoded(
                    self@,
                    false,
                    suffix.skip(len as int),
                ));
                assert(suffix.skip(len as int) =~= chars@.skip(pos as int + len as int));
            }
            out.push(g);
            pos = pos + len;
            proof {
                assert(out.deep_view() =~= prev + seq![g@]);
                assert(decoded(self@, false, chars@) =~= out.deep_view() + decoded(
                    self@,
                    false,
                    chars@.skip(pos as int),
                ));
            }
        }
        proof {
            assert(chars@.skip(n as int) =~= Seq::<char>::empty());
            assert(decode_items(self@, false, Seq::<char>::empty()) =~= Seq::<
                (GraphemeView, int),
            >::empty());
            assert(decoded(self@, false, Seq::<char>::empty()) =~= Seq::<GraphemeView>::empty());
            assert(out.deep_view() =~= decoded(self@, false, chars@));
        }
        DecodeResult::new(out)
    }
}

/// The failure of a whole decode call. Soft failures are embedded in
/// the result as graphemes instead.
#[derive(Clone, Copy, Debug, PartialEq, Eq, Structural)]
pub enum DecodeError {
    /// The repetition needs at least one match, so empty input cannot
    /// be decoded.
    EmptyInput,
}

/// The stateless decoding surface.
pub struct Codec;

impl Codec {
    /// Decodes the early version of the trinary cipher: the v1 table,
    /// no escape sequences. Fails exactly on empty input.
    pub fn decode_v1(input: &NormalizedCiphertext) -> (r: Result<DecodeResult, DecodeError>)
        ensures
            match r {
                Ok(res) => decode_v1_spec(input@) == Some(res@),
                Err(e) => input@.len() == 0 && decode_v1_spec(input@) is None && e
                    == DecodeError::EmptyInput,
            },
    {
        let chars = chars_of_str(input.text());
        if chars.len() == 0 {
            return Err(DecodeError::EmptyInput);
        }
        let table = v1_symbol_mapping();
        proof {
            lemma_tables_nonempty();
            assert forall|k: int|
                0 <= k < table@.len() implies (#[trigger] table@[k]).pattern@.len() >= 1 by {
                assert(table.deep_view()[k] == table@[k]@);
            }
        }
        let mappings = Mappings::new(&table);
        proof {
            assert(mappings@ == v1_mappings());
        }
        Ok(mappings.decode_all(&chars))
    }

    /// Decodes the later version of the trinary cipher: the v2 table,
    /// with escape-sequence handling. Fails exactly on empty input.
    pub fn decode_v2(input: &NormalizedCiphertext) -> (r: Result<DecodeResult, DecodeError>)
        ensures
            match r {
                Ok(res) => decode_v2_spec(input@) == Some(res@),
                Err(e) => input@.len() == 0 && decode_v2_spec(input@) is None && e
                    == DecodeError::EmptyInput,
            },
    {
        proof {
            use_type_invariant(input);
        }
        let chars = chars_of_str(input.text());
        if chars.len() == 0 {
            return Err(DecodeError::EmptyInput);
        }
        let out = run_v2(&chars);
        Ok(DecodeResult::new(out))
    }

    /// Tries the v2 decode and falls back to v1 where it fails; the two
    /// strategies are never interleaved. Fails exactly where both fail,
    /// that is, on empty input.
    pub fn decode(input: &NormalizedCiphertext) -> (r: Result<DecodeResult, DecodeError>)
        ensures
            match r {
                Ok(res) => decode_spec(input@) == Some(res@),
                Err(e) => input@.len() == 0 && decode_spec(input@) is None && e
                    == DecodeError::EmptyInput,
            },
    {
        match Codec::decode_v2(input) {
            Ok(result) => Ok(result),
            Err(_) => Codec::decode_v1(input),
        }
    }
}

} // verus!
