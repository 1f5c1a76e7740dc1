use vstd::prelude::*;
use crate::token::{Token, TokenModel, token_models};

verus! {

#[verifier::external_type_specification]
#[verifier::external_body]
pub struct ExTokenizer(lindera_tokenizer::tokenizer::Tokenizer);

#[verifier::external_type_specification]
#[verifier::external_body]
pub struct ExLinderaError(lindera_core::error::LinderaError);

/// A well-formed first-pass token stream: the tokens stand at positions
/// 0, 1, 2, ... one position each, and their byte ranges follow one
/// another from byte 0 with no gap or overlap.
pub open spec fn is_token_stream(ts: Seq<TokenModel>) -> bool {
    forall|k: int|
        0 <= k < ts.len() ==> {
            &&& #[trigger] ts[k].position == k
            &&& ts[k].position_length == 1
            &&& ts[k].byte_start <= ts[k].byte_end
            &&& (k == 0 ==> ts[k].byte_start == 0)
            &&& (k > 0 ==> ts[k].byte_start == ts[k - 1].byte_end)
        }
}

/// The first-pass token stream that the morphological analyser, with the
/// IPADIC system dictionary built into it, gives for `text`.
pub uninterp spec fn ipadic_tokens(text: Seq<char>) -> Seq<TokenModel>;

/// Why the first-pass tokenization failed, with the analyser's own error.
pub enum TokenizationError {
    /// The analyser and its system dictionary could not be set up.
    Setup(lindera_core::error::LinderaError),
    /// The analyser could not process the text.
    Analysis(lindera_core::error::LinderaError),
}

/// An analyser set up with the IPADIC system dictionary, no user dictionary,
/// in normal mode; only `ipadic_tokenizer` builds one.
struct IpadicTokenizer {
    inner: lindera_tokenizer::tokenizer::Tokenizer,
}

/// Relies on lindera_tokenizer's `Tokenizer::from_config`: builds the
/// analyser with the embedded IPADIC system dictionary, no user dictionary,
/// in normal mode.
#[verifier::external_body]
fn ipadic_tokenizer() -> (r: Result<IpadicTokenizer, lindera_core::error::LinderaError>) {
    let config = lindera_tokenizer::tokenizer::TokenizerConfig {
        dictionary: lindera_dictionary::DictionaryConfig {
            kind: Some(lindera_dictionary::DictionaryKind::IPADIC),
            path: None,
        },
        user_dictionary: None,
        mode: lindera_core::mode::Mode::Normal,
    };
    lindera_tokenizer::tokenizer::Tokenizer::from_config(config).map(|t| IpadicTokenizer { inner: t })
}

/// Relies on lindera_tokenizer's `Tokenizer::tokenize`: it always succeeds;
/// with the IPADIC analyser its tokens depend on the text alone; each token
/// has the next position (from 0) and position length 1, and its byte range
/// starts where the previous one ended (the first at 0).
#[verifier::external_body]
fn lindera_tokenize(tokenizer: &IpadicTokenizer, text: &str) -> (r: Result<
    Vec<Token>,
    lindera_core::error::LinderaError,
>)
    ensures
        r is Ok,
        r matches Ok(ts) ==> token_models(ts@) == ipadic_tokens(text@),
        r matches Ok(ts) ==> is_token_stream(token_models(ts@)),
{
    let ts = tokenizer.inner.tokenize(text)?;
    Ok(ts.iter().map(|t| Token {
        text: t.text.to_string(),
        byte_start: t.byte_start,
        byte_end: t.byte_end,
        position: t.position,
        position_length: t.position_length,
    }).collect())
}

/// The first-pass token stream of `text`, from a morphological analyser
/// with the IPADIC system dictionary. It fails only where the analyser
/// cannot be set up.
pub fn tokenize_text(text: &str) -> (r: Result<Vec<Token>, TokenizationError>)
    ensures
        r matches Ok(ts) ==> token_models(ts@) == ipadic_tokens(text@),
        r matches Ok(ts) ==> is_token_stream(token_models(ts@)),
        r is Err ==> r matches Err(TokenizationError::Setup(_)),
{
    let tokenizer = match ipadic_tokenizer() {
        Ok(t) => t,
        Err(e) => {
            return Err(TokenizationError::Setup(e));
        },
    };
    match lindera_tokenize(&tokenizer, text) {
        Ok(ts) => Ok(ts),
        Err(e) => Err(TokenizationError::Analysis(e)),
    }
}

} // verus!
