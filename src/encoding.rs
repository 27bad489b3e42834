//! Token encodings: the byte span of each token of a text, as a tokenizer gave them.

use crate::error::Error;
use vstd::prelude::*;
use vstd::string::StringSliceAdditionalSpecFns;
use vstd::utf8::*;

verus! {

broadcast use vstd::utf8::group_utf8_lib;

/// The `tokenizers` crate's tokenizer, carried through opaquely.
#[verifier::external_type_specification]
#[verifier::external_body]
pub struct ExTokenizer(tokenizers::Tokenizer);

/// Whether `spans` can be the token spans of `text`: each is a half-open byte
/// range inside the text's UTF-8 encoding that starts and ends on character
/// boundaries, the spans never move backwards, and an empty text has no tokens.
pub open spec fn spans_fit(spans: Seq<(usize, usize)>, text: Seq<char>) -> bool {
    let b = encode_utf8(text);
    &&& forall|i: int|
        #![trigger spans[i]]
        0 <= i < spans.len() ==> {
            &&& spans[i].0 <= spans[i].1 <= b.len()
            &&& is_char_boundary(b, spans[i].0 as int)
            &&& is_char_boundary(b, spans[i].1 as int)
        }
    &&& forall|i: int|
        #![trigger spans[i]]
        0 < i < spans.len() ==> spans[i - 1].0 <= spans[i].0 && spans[i - 1].1 <= spans[i].1
    &&& b.len() == 0 ==> spans.len() == 0
}

/// The tokens of one text, as byte spans into it.
#[derive(Debug, Clone)]
pub struct Encoding {
    offsets: Vec<(usize, usize)>,
}

impl Encoding {
    /// The byte span of each token, in order.
    pub closed spec fn spans(&self) -> Seq<(usize, usize)> {
        self.offsets@
    }

    /// An encoding of `text` with the given token spans, or `None` where they
    /// cannot be the spans of `text`.
    pub fn from_offsets(text: &str, offsets: Vec<(usize, usize)>) -> (r: Option<Encoding>)
        ensures
            r.is_some() == spans_fit(offsets@, text@),
            r.is_some() ==> r.unwrap().spans() == offsets@,
    {
        let n = text.as_bytes().len();
        let ghost b = text.spec_bytes();
        if n == 0 && offsets.len() > 0 {
            return None;
        }
        let mut i: usize = 0;
        while i < offsets.len()
            invariant
                0 <= i <= offsets.len(),
                n == b.len(),
                b == encode_utf8(text@),
                forall|j: int|
                    #![trigger offsets@[j]]
                    0 <= j < i ==> {
                        &&& offsets@[j].0 <= offsets@[j].1 <= b.len()
                        &&& is_char_boundary(b, offsets@[j].0 as int)
                        &&& is_char_boundary(b, offsets@[j].1 as int)
                    },
                forall|j: int|
                    #![trigger offsets@[j]]
                    0 < j < i ==> offsets@[j - 1].0 <= offsets@[j].0 && offsets@[j - 1].1
                        <= offsets@[j].1,
            decreases offsets.len() - i,
        {
            let (s, e) = offsets[i];
            if !(s <= e && e <= n && text.is_char_boundary(s) && text.is_char_boundary(e)) {
                return None;
            }
            if i > 0 {
                let (ps, pe) = offsets[i - 1];
                if !(ps <= s && pe <= e) {
                    return None;
                }
            }
            i = i + 1;
        }
        Some(Encoding { offsets })
    }

    /// The number of tokens.
    pub fn len(&self) -> (n: usize)
        ensures
            n == self.spans().len(),
    {
        self.offsets.len()
    }

    /// The byte span of each token, in order.
    pub fn get_offsets(&self) -> (r: &[(usize, usize)])
        ensures
            r@ == self.spans(),
    {
        self.offsets.as_slice()
    }
}

/// A tokenizer, loaded once and shared by every measurement.
pub struct TextTokenizer {
    inner: tokenizers::Tokenizer,
}

/// Relies on `tokenizers::Tokenizer::encode`, without special tokens, and on
/// `Encoding::get_offsets`, which gives the byte span of each token in the input.
/// Nothing is assumed of the spans: callers check them.
#[verifier::external_body]
fn token_offsets(t: &tokenizers::Tokenizer, input: &str) -> (r: Result<Vec<(usize, usize)>, String>) {
    match t.encode(input, false) {
        Ok(e) => Ok(e.get_offsets().to_vec()),
        Err(e) => Err(e.to_string()),
    }
}

impl TextTokenizer {
    /// Use a tokenizer that the caller has loaded.
    pub fn new(inner: tokenizers::Tokenizer) -> Self {
        TextTokenizer { inner }
    }

    /// Encode `input`. Fails with `Error::Tokenizer` where the tokenizer fails or
    /// gives spans that do not fit `input`.
    pub fn encode(&self, input: &str) -> (r: Result<Encoding, Error>)
        ensures
            match r {
                Ok(e) => spans_fit(e.spans(), input@),
                Err(e) => e is Tokenizer,
            },
    {
        match token_offsets(&self.inner, input) {
            Ok(offsets) => match Encoding::from_offsets(input, offsets) {
                Some(e) => Ok(e),
                None => Err(Error::Tokenizer("token offsets do not fit the text".to_string())),
            },
            Err(msg) => Err(Error::Tokenizer(msg)),
        }
    }
}

} // verus!
