//! A captured run of tokens together with its source rendering.

use crate::stream::{convert, render, stream_text, stream_tokens};
use crate::token::{tokens_spec, Token, TokenSpec};
use proc_macro2::TokenStream;
use vstd::prelude::*;

verus! {

/// The contents of a bracketed group, kept both as token trees (to match
/// against) and as text (to write into a generated macro).
#[derive(Clone, Debug, PartialEq, Eq)]
pub struct Fragment {
    /// The token trees, in order.
    pub tokens: Vec<Token>,
    /// The tokens written out as source text.
    pub text: String,
}

/// Mathematical model of a [`Fragment`].
pub struct FragmentSpec {
    pub tokens: Seq<TokenSpec>,
    pub text: Seq<char>,
}

impl View for Fragment {
    type V = FragmentSpec;

    open spec fn view(&self) -> FragmentSpec {
        FragmentSpec { tokens: tokens_spec(self.tokens@), text: self.text@ }
    }
}

/// The fragment that capturing a stream of the given tokens yields: the
/// tokens, and the stream's rendering as its text.
pub open spec fn captured(tokens: Seq<TokenSpec>) -> FragmentSpec {
    FragmentSpec { tokens, text: stream_text(tokens) }
}

/// The models of a sequence of fragments.
pub open spec fn fragments_spec(fs: Seq<Fragment>) -> Seq<FragmentSpec> {
    fs.map_values(|f: Fragment| f@)
}

impl FragmentSpec {
    /// Whether the text is the rendering of the tokens.
    pub open spec fn rendered(self) -> bool {
        self.text == stream_text(self.tokens)
    }
}

impl Fragment {
    /// Captures the contents of a stream: its token trees and its rendering.
    pub fn capture(ts: &TokenStream) -> (r: Fragment)
        ensures
            r@ == captured(stream_tokens(*ts)),
            r@.rendered(),
    {
        Fragment { tokens: convert(ts), text: render(ts) }
    }
}

} // verus!
