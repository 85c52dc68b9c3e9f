use vstd::prelude::*;

use crate::search::model_spec::CONTEXT_LENGTH;

verus! {

/// `tokenizers::Tokenizer`, carried through opaquely.
#[verifier::external_type_specification]
#[verifier::external_body]
pub struct ExTokenizer(tokenizers::Tokenizer);

/// Why a tokenizer could not be loaded or used.
#[derive(Debug, Clone, PartialEq, Eq)]
pub enum TokenizeError {
    /// `tokenizer.json` could not be read or parsed; carries the cause.
    Load(String),
    /// Encoding the text failed; carries the cause.
    Encode(String),
}

impl TokenizeError {
    /// The error's text: `load tokenizer.json: <cause>` or `encode: <cause>`.
    pub fn message(&self) -> (r: String)
        ensures
            match *self {
                TokenizeError::Load(m) => r@ == "load tokenizer.json: "@ + m@,
                TokenizeError::Encode(m) => r@ == "encode: "@ + m@,
            },
    {
        match self {
            TokenizeError::Load(m) => {
                let mut s = "load tokenizer.json: ".to_string();
                s.append(m.as_str());
                s
            },
            TokenizeError::Encode(m) => {
                let mut s = "encode: ".to_string();
                s.append(m.as_str());
                s
            },
        }
    }
}

/// Calls `tokenizers::Tokenizer::from_file`, mapping its error to its text.
/// What it loads depends on the file, so nothing is stated of it.
#[verifier::external_body]
fn tokenizer_from_file(path: &str) -> Result<tokenizers::Tokenizer, String> {
    tokenizers::Tokenizer::from_file(path).map_err(|e| e.to_string())
}

/// Calls `tokenizers::Tokenizer::encode` with special tokens added and hands
/// back the token ids, mapping its error to its text. The ids come from the
/// tokenizer's vocabulary and rules, which Verus does not see, so nothing is
/// stated of them.
#[verifier::external_body]
fn tokenizer_encode(tokenizer: &tokenizers::Tokenizer, text: &str) -> Result<Vec<u32>, String> {
    tokenizer.encode(text, true).map(|e| e.get_ids().to_vec()).map_err(|e| e.to_string())
}

/// Token ids cut to `n` and right-padded with the pad id 0 up to `n`.
pub open spec fn padded(ids: Seq<u32>, n: nat) -> Seq<i64> {
    Seq::new(n, |i: int| if i < ids.len() { ids[i] as i64 } else { 0i64 })
}

/// Cuts token ids to `context_length` and right-pads them with 0 to exactly
/// that length (the text model takes fixed-length input, without a mask).
pub fn pad_to_context(ids: &[u32], context_length: usize) -> (r: Vec<i64>)
    ensures
        r@ == padded(ids@, context_length as nat),
{
    let mut out: Vec<i64> = Vec::new();
    let mut i: usize = 0;
    while i < context_length
        invariant
            i <= context_length,
            out@ == padded(ids@, context_length as nat).take(i as int),
        decreases context_length - i,
    {
        let v: i64 = if i < ids.len() {
            ids[i] as i64
        } else {
            0
        };
        out.push(v);
        assert(out@ =~= padded(ids@, context_length as nat).take(i + 1));
        i = i + 1;
    }
    assert(out@ =~= padded(ids@, context_length as nat));
    out
}

/// A loaded tokenizer and the context length it pads and cuts to.
pub struct SiglipTokenizer {
    inner: tokenizers::Tokenizer,
    context_length: usize,
}

impl SiglipTokenizer {
    /// The length every encoding has.
    pub closed spec fn spec_context_length(&self) -> nat {
        self.context_length as nat
    }

    /// Loads `tokenizer.json` from `path`, with the model's context length.
    pub fn from_file(path: &str) -> (r: Result<Self, TokenizeError>)
        ensures
            r matches Ok(t) ==> t.spec_context_length() == CONTEXT_LENGTH,
            r matches Err(e) ==> e is Load,
    {
        match tokenizer_from_file(path) {
            Ok(inner) => Ok(SiglipTokenizer { inner, context_length: CONTEXT_LENGTH }),
            Err(m) => Err(TokenizeError::Load(m)),
        }
    }

    /// Wraps an already built tokenizer with a context length.
    pub fn from_tokenizer(inner: tokenizers::Tokenizer, context_length: usize) -> (r: Self)
        ensures
            r.spec_context_length() == context_length,
    {
        SiglipTokenizer { inner, context_length }
    }

    /// The context length this tokenizer pads and cuts to.
    pub fn context_length(&self) -> (r: usize)
        ensures
            r == self.spec_context_length(),
    {
        self.context_length
    }

    /// Encodes `text` (special tokens added) and pads or cuts the ids to the
    /// context length.
    pub fn encode(&self, text: &str) -> (r: Result<Vec<i64>, TokenizeError>)
        ensures
            r matches Ok(v) ==> exists|ids: Seq<u32>| v@ == padded(ids, self.spec_context_length()),
            r matches Err(e) ==> e is Encode,
    {
        match tokenizer_encode(&self.inner, text) {
            Ok(ids) => {
                let v = pad_to_context(ids.as_slice(), self.context_length);
                assert(v@ == padded(ids@, self.spec_context_length()));
                Ok(v)
            },
            Err(m) => Err(TokenizeError::Encode(m)),
        }
    }
}

} // verus!
