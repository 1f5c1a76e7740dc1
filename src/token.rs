use vstd::prelude::*;

verus! {

/// The mathematical value of a token or of a merged token: its text as
/// characters, the byte range it covers in the analysed text, and its
/// logical position with the number of positions it spans.
pub struct TokenModel {
    pub text: Seq<char>,
    pub byte_start: usize,
    pub byte_end: usize,
    pub position: usize,
    pub position_length: usize,
}

/// A token of the first-pass token stream.
pub struct Token {
    pub text: String,
    pub byte_start: usize,
    pub byte_end: usize,
    pub position: usize,
    pub position_length: usize,
}

/// A token of the merged stream: either a first-pass token passed through,
/// or a run of consecutive first-pass tokens collapsed into one.
pub struct MergedToken {
    pub text: String,
    pub byte_start: usize,
    pub byte_end: usize,
    pub position: usize,
    pub position_length: usize,
}

impl View for Token {
    type V = TokenModel;

    open spec fn view(&self) -> TokenModel {
        TokenModel {
            text: self.text@,
            byte_start: self.byte_start,
            byte_end: self.byte_end,
            position: self.position,
            position_length: self.position_length,
        }
    }
}

impl View for MergedToken {
    type V = TokenModel;

    open spec fn view(&self) -> TokenModel {
        TokenModel {
            text: self.text@,
            byte_start: self.byte_start,
            byte_end: self.byte_end,
            position: self.position,
            position_length: self.position_length,
        }
    }
}

/// The models of a sequence of first-pass tokens.
pub open spec fn token_models(ts: Seq<Token>) -> Seq<TokenModel> {
    ts.map_values(|t: Token| t@)
}

/// The models of a sequence of merged tokens.
pub open spec fn merged_models(ms: Seq<MergedToken>) -> Seq<TokenModel> {
    ms.map_values(|m: MergedToken| m@)
}

impl MergedToken {
    /// The merged token that carries `token` through unchanged.
    pub fn from_token(token: &Token) -> (r: MergedToken)
        ensures
            r@ == token@,
    {
        MergedToken {
            text: token.text.clone(),
            byte_start: token.byte_start,
            byte_end: token.byte_end,
            position: token.position,
            position_length: token.position_length,
        }
    }
}

} // verus!
