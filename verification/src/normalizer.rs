//! Input normalization.
//!
//! The cipher historically acquired three shorthand digits, each standing
//! for a fixed two-digit canonical pair: `'4'` for `"11"`, `'5'` for
//! `"22"` and `'6'` for `"33"`. Normalization expands every shorthand
//! digit to its pair and passes every other character through unchanged,
//! so that the rest of the engine works over one canonical alphabet.

use vstd::prelude::*;
use crate::chars::{chars_of_str, string_from_chars};

verus! {

/// What one input character contributes to the normalized text.
pub open spec fn expand_char(c: char) -> Seq<char> {
    if c == '4' {
        seq!['1', '1']
    } else if c == '5' {
        seq!['2', '2']
    } else if c == '6' {
        seq!['3', '3']
    } else {
        seq![c]
    }
}

/// The three digits reserved for shorthand expansion.
pub open spec fn is_shorthand(c: char) -> bool {
    c == '4' || c == '5' || c == '6'
}

/// A text in which every shorthand digit has already been expanded.
pub open spec fn no_shorthand(s: Seq<char>) -> bool {
    forall|i: int| 0 <= i < s.len() ==> !is_shorthand(#[trigger] s[i])
}

/// The canonical spelling of an input text: each character replaced by
/// its expansion, in order.
pub open spec fn normalize_spec(s: Seq<char>) -> Seq<char>
    decreases s.len(),
{
    if s.len() == 0 {
        Seq::empty()
    } else {
        expand_char(s[0]) + normalize_spec(s.drop_first())
    }
}

proof fn lemma_normalize_snoc(s: Seq<char>, c: char)
    ensures
        normalize_spec(s.push(c)) == normalize_spec(s) + expand_char(c),
    decreases s.len(),
{
    if s.len() == 0 {
        assert(s =~= Seq::<char>::empty());
        assert(s.push(c).drop_first() =~= Seq::<char>::empty());
        assert(normalize_spec(Seq::<char>::empty()) == Seq::<char>::empty());
        assert(s.push(c)[0] == c);
        assert(normalize_spec(s.push(c)) =~= normalize_spec(s) + expand_char(c));
    } else {
        assert(s.push(c).drop_first() =~= s.drop_first().push(c));
        lemma_normalize_snoc(s.drop_first(), c);
        assert(s.push(c)[0] == s[0]);
        assert(normalize_spec(s.push(c)) =~= normalize_spec(s) + expand_char(c));
    }
}

/// Normalized text never contains a shorthand digit.
pub proof fn lemma_normalize_no_shorthand(s: Seq<char>)
    ensures
        no_shorthand(normalize_spec(s)),
    decreases s.len(),
{
    if s.len() > 0 {
        lemma_normalize_no_shorthand(s.drop_first());
    }
}

/// Normalizing a text that holds no shorthand digit leaves it unchanged.
pub proof fn lemma_normalize_identity(s: Seq<char>)
    requires
        no_shorthand(s),
    ensures
        normalize_spec(s) == s,
    decreases s.len(),
{
    if s.len() > 0 {
        assert(no_shorthand(s.drop_first()));
        lemma_normalize_identity(s.drop_first());
        assert(normalize_spec(s) =~= s);
    }
}

/// Law: normalization is idempotent. Normalizing an already-normalized
/// text returns it unchanged.
pub proof fn lemma_normalize_idempotent(s: Seq<char>)
    ensures
        normalize_spec(normalize_spec(s)) == normalize_spec(s),
{
    lemma_normalize_no_shorthand(s);
    lemma_normalize_identity(normalize_spec(s));
}

/// Expands shorthand digits over a character vector.
pub fn normalize_chars(input: &Vec<char>) -> (r: Vec<char>)
    ensures
        r@ == normalize_spec(input@),
{
    let mut out: Vec<char> = Vec::new();
    let mut i: usize = 0;
    while i < input.len()
        invariant
            i <= input@.len(),
            out@ == normalize_spec(input@.take(i as int)),
        decreases input@.len() - i,
    {
        let c = input[i];
        if c == '4' {
            out.push('1');
            out.push('1');
        } else if c == '5' {
            out.push('2');
            out.push('2');
        } else if c == '6' {
            out.push('3');
            out.push('3');
        } else {
            out.push(c);
        }
        proof {
            lemma_normalize_snoc(input@.take(i as int), input@[i as int]);
            assert(input@.take(i as int).push(input@[i as int]) =~= input@.take(i as int + 1));
            assert(out@ =~= normalize_spec(input@.take(i as int)) + expand_char(input@[i as int]));
        }
        i = i + 1;
    }
    proof {
        assert(input@.take(input@.len() as int) =~= input@);
    }
    out
}

/// An input string in canonical form: every shorthand digit expanded to
/// its two-digit pair. All decoding starts from a value of this type.
pub struct NormalizedCiphertext(String);

impl View for NormalizedCiphertext {
    type V = Seq<char>;

    closed spec fn view(&self) -> Seq<char> {
        self.0@
    }
}

impl NormalizedCiphertext {
    /// Canonical texts are free of shorthand digits.
    #[verifier::type_invariant]
    pub open spec fn wf(&self) -> bool {
        no_shorthand(self@)
    }

    /// Expands every shorthand digit of `input` and keeps every other
    /// character as it is, in order. Total over any input string.
    pub fn new(input: &str) -> (r: NormalizedCiphertext)
        ensures
            r@ == normalize_spec(input@),
    {
        let cs = chars_of_str(input);
        let norm = normalize_chars(&cs);
        let text = string_from_chars(&norm);
        proof {
            lemma_normalize_no_shorthand(cs@);
        }
        NormalizedCiphertext(text)
    }

    /// The canonical text itself.
    pub fn text(&self) -> (r: &str)
        ensures
            r@ == self@,
    {
        self.0.as_str()
    }
}

} // verus!
