//! Decoded units of output and their textual rendering.
//!
//! A decode produces an ordered sequence of graphemes: resolved
//! characters, unresolved raw spans kept verbatim for diagnostics, and
//! escape sequences whose payload could not be resolved to a codepoint.
//! The renderer flattens such a sequence into display text, wrapping
//! unknown spans in fixed markers and collapsing failed escapes to one
//! placeholder character.

use vstd::prelude::*;
use crate::chars::push_char;

verus! {

/// Why a structurally recognized escape sequence failed to resolve.
#[derive(Clone, Copy, Debug)]
pub enum UnicodeParseError {
    /// The interior of the escape could not be decoded as cipher text.
    InvalidCipher,
    /// The decoded interior was not a hexadecimal number naming a valid
    /// Unicode codepoint.
    InvalidHexadecimal,
}

/// One decoded unit of output.
#[derive(Debug)]
pub enum Grapheme {
    /// A matched cipher pattern, resolved to one output character.
    KnownValue(char),
    /// No pattern matched here; one to three raw input characters, kept
    /// verbatim.
    UnknownSequence(String),
    /// An escape sequence was recognized but its payload did not resolve.
    InvalidUnicode(UnicodeParseError),
}

/// The mathematical shape of a grapheme.
pub enum GraphemeView {
    Known { c: char },
    Unknown { text: Seq<char> },
    Invalid { reason: UnicodeParseError },
}

impl View for Grapheme {
    type V = GraphemeView;

    open spec fn view(&self) -> GraphemeView {
        match self {
            Grapheme::KnownValue(c) => GraphemeView::Known { c: *c },
            Grapheme::UnknownSequence(t) => GraphemeView::Unknown { text: t@ },
            Grapheme::InvalidUnicode(e) => GraphemeView::Invalid { reason: *e },
        }
    }
}

impl DeepView for Grapheme {
    type V = GraphemeView;

    open spec fn deep_view(&self) -> GraphemeView {
        self.view()
    }
}

/// The marker that opens an undecodable span in rendered text.
pub open spec fn unknown_open_marker() -> char {
    '\u{00bf}'
}

/// The marker that closes an undecodable span in rendered text.
pub open spec fn unknown_close_marker() -> char {
    '?'
}

/// The placeholder that stands for a failed escape in rendered text.
pub open spec fn invalid_placeholder() -> char {
    '\u{22a0}'
}

/// What one grapheme contributes to the rendered text.
pub open spec fn render_one(g: GraphemeView) -> Seq<char> {
    match g {
        GraphemeView::Known { c } => seq![c],
        GraphemeView::Unknown { text } => seq![unknown_open_marker()] + text + seq![
            unknown_close_marker(),
        ],
        GraphemeView::Invalid { reason } => seq![invalid_placeholder()],
    }
}

/// The rendered text of a grapheme sequence: each unit's contribution,
/// concatenated in order.
pub open spec fn render_spec(gs: Seq<GraphemeView>) -> Seq<char>
    decreases gs.len(),
{
    if gs.len() == 0 {
        Seq::empty()
    } else {
        render_one(gs[0]) + render_spec(gs.drop_first())
    }
}

proof fn lemma_render_snoc(gs: Seq<GraphemeView>, g: GraphemeView)
    ensures
        render_spec(gs.push(g)) == render_spec(gs) + render_one(g),
    decreases gs.len(),
{
    if gs.len() == 0 {
        assert(gs =~= Seq::<GraphemeView>::empty());
        assert(gs.push(g).drop_first() =~= Seq::<GraphemeView>::empty());
        assert(render_spec(Seq::<GraphemeView>::empty()) == Seq::<char>::empty());
        assert(gs.push(g)[0] == g);
        assert(render_spec(gs.push(g)) =~= render_spec(gs) + render_one(g));
    } else {
        assert(gs.push(g).drop_first() =~= gs.drop_first().push(g));
        lemma_render_snoc(gs.drop_first(), g);
        assert(gs.push(g)[0] == gs[0]);
        assert(render_spec(gs.push(g)) =~= render_spec(gs) + render_one(g));
    }
}

/// Law: rendering is deterministic and pure. The rendered text is a
/// function of the decoded grapheme sequence alone, so rendering the
/// same sequence twice yields identical text.
pub proof fn lemma_render_deterministic(a: Seq<GraphemeView>, b: Seq<GraphemeView>)
    requires
        a == b,
    ensures
        render_spec(a) == render_spec(b),
{
}

/// Renders a grapheme vector as display text.
pub fn render_graphemes(gs: &Vec<Grapheme>) -> (r: String)
    ensures
        r@ == render_spec(gs.deep_view()),
{
    let mut s = String::new();
    let mut i: usize = 0;
    while i < gs.len()
        invariant
            i <= gs@.len(),
            gs.deep_view().len() == gs@.len(),
            forall|k: int| 0 <= k < gs@.len() ==> gs.deep_view()[k] == #[trigger] gs@[k]@,
            s@ == render_spec(gs.deep_view().take(i as int)),
        decreases gs@.len() - i,
    {
        match &gs[i] {
            Grapheme::KnownValue(c) => {
                push_char(&mut s, *c);
            },
            Grapheme::UnknownSequence(t) => {
                push_char(&mut s, '\u{00bf}');
                let tc = crate::chars::chars_of_str(t.as_str());
                let mut j: usize = 0;
                while j < tc.len()
                    invariant
                        j <= tc@.len(),
                        s@ == render_spec(gs.deep_view().take(i as int)) + seq![
                            unknown_open_marker(),
                        ] + tc@.take(j as int),
                    decreases tc@.len() - j,
                {
                    push_char(&mut s, tc[j]);
                    j = j + 1;
                    proof {
                        assert(s@ =~= render_spec(gs.deep_view().take(i as int)) + seq![
                            unknown_open_marker(),
                        ] + tc@.take(j as int));
                    }
                }
                proof {
                    assert(tc@.take(tc@.len() as int) =~= tc@);
                }
                push_char(&mut s, '?');
            },
            Grapheme::InvalidUnicode(e) => {
                push_char(&mut s, '\u{22a0}');
            },
        }
        proof {
            lemma_render_snoc(gs.deep_view().take(i as int), gs.deep_view()[i as int]);
            assert(gs.deep_view().take(i as int).push(gs.deep_view()[i as int]) =~= gs.deep_view()
                .take(i as int + 1));
            assert(s@ =~= render_spec(gs.deep_view().take(i as int)) + render_one(
                gs.deep_view()[i as int],
            ));
        }
        i = i + 1;
    }
    proof {
        assert(gs.deep_view().take(gs@.len() as int) =~= gs.deep_view());
    }
    s
}

/// An ordered sequence of decoded graphemes, in input order.
#[derive(Debug)]
pub struct DecodeResult {
    parsed: Vec<Grapheme>,
}

impl View for DecodeResult {
    type V = Seq<GraphemeView>;

    closed spec fn view(&self) -> Seq<GraphemeView> {
        self.parsed.deep_view()
    }
}

impl DecodeResult {
    /// Wraps a grapheme vector as a decode result.
    pub fn new(parsed: Vec<Grapheme>) -> (r: DecodeResult)
        ensures
            r@ == parsed.deep_view(),
    {
        DecodeResult { parsed }
    }

    /// The decoded graphemes, in input order.
    pub fn get_codepoints(&self) -> (r: Vec<Grapheme>)
        ensures
            r.deep_view() == self@,
    {
        let mut out: Vec<Grapheme> = Vec::new();
        let mut i: usize = 0;
        while i < self.parsed.len()
            invariant
                i <= self.parsed@.len(),
                self@.len() == self.parsed@.len(),
                forall|k: int| 0 <= k < self.parsed@.len() ==> self@[k] == #[trigger] self
                    .parsed@[k]@,
                out@.len() == i as int,
                forall|k: int| 0 <= k < i ==> (#[trigger] out@[k])@ == self@[k],
            decreases self.parsed@.len() - i,
        {
            let g = match &self.parsed[i] {
                Grapheme::KnownValue(c) => Grapheme::KnownValue(*c),
                Grapheme::UnknownSequence(t) => Grapheme::UnknownSequence(t.clone()),
                Grapheme::InvalidUnicode(e) => Grapheme::InvalidUnicode(*e),
            };
            proof {
                assert(g@ == self.parsed@[i as int]@);
            }
            out.push(g);
            i = i + 1;
        }
        proof {
            assert(out.deep_view() =~= self@);
        }
        out
    }

    /// The rendered display text of this result (fixed markers for
    /// unknown and invalid segments).
    pub fn to_string(&self) -> (r: String)
        ensures
            r@ == render_spec(self@),
    {
        render_graphemes(&self.parsed)
    }
}

} // verus!
