//! Requests of the Responses API, as far as they steer sampling and tracing.

use vstd::prelude::*;

use crate::baseten_ext::{BasetenExt, BasetenExtProvider};
use crate::number::Float32;
use crate::text::same_text;

verus! {

/// What a client asks for.
#[derive(Debug, Clone, PartialEq)]
pub struct CreateResponse {
    pub model: Option<String>,
    pub max_output_tokens: Option<u32>,
    pub temperature: Option<Float32>,
    pub top_p: Option<Float32>,
}

/// Extensions that ask for traces.
#[derive(Debug, Clone, PartialEq, Eq)]
pub struct NvExt {
    pub annotations: Option<Vec<String>>,
}

/// A request with its extensions.
pub struct NvCreateResponse {
    pub inner: CreateResponse,
    pub baseten_ext: BasetenExt,
    pub nvext: Option<NvExt>,
}

/// The annotations that the extensions ask for.
pub open spec fn asked_annotations(nvext: Option<NvExt>) -> Option<Seq<Seq<char>>> {
    match nvext {
        Some(ext) => ext.annotations.deep_view(),
        None => None,
    }
}

impl NvCreateResponse {
    /// The extensions that ask for traces.
    pub fn nvext(&self) -> (nvext: Option<&NvExt>)
        ensures
            nvext == match self.nvext {
                Some(ext) => Some(&ext),
                None => None,
            },
    {
        self.nvext.as_ref()
    }

    /// The prompt that is to reach the engine untouched: a request has none.
    pub fn raw_prompt(&self) -> (prompt: Option<String>)
        ensures
            prompt is None,
    {
        None
    }

    /// The annotations that the client asks for.
    pub fn annotations(&self) -> (annotations: Option<Vec<String>>)
        ensures
            annotations.deep_view() == asked_annotations(self.nvext),
    {
        match &self.nvext {
            Some(ext) => match &ext.annotations {
                Some(all) => {
                    let copy = all.clone();
                    assert(copy@ =~= all@);
                    Some(copy)
                },
                None => None,
            },
            None => None,
        }
    }

    /// Whether the client asks for an annotation.
    pub fn has_annotation(&self, annotation: &str) -> (has: bool)
        ensures
            has == (asked_annotations(self.nvext) matches Some(all) && all.contains(annotation@)),
    {
        let all = match &self.nvext {
            Some(ext) => match &ext.annotations {
                Some(all) => all,
                None => {
                    return false;
                },
            },
            None => {
                return false;
            },
        };
        for i in 0..all.len()
            invariant
                asked_annotations(self.nvext) == Some(all.deep_view()),
                forall|k: int| 0 <= k < i ==> (#[trigger] all.deep_view()[k]) != annotation@,
        {
            assert(all.deep_view()[i as int] == all@[i as int]@);
            if same_text(all[i].as_str(), annotation) {
                assert(all.deep_view().contains(annotation@));
                return true;
            }
        }
        false
    }

    /// The temperature that the client asks for.
    pub fn get_temperature(&self) -> (temperature: Option<Float32>)
        ensures
            temperature == self.inner.temperature,
    {
        self.inner.temperature
    }

    /// The probability mass that the client asks to sample from.
    pub fn get_top_p(&self) -> (top_p: Option<Float32>)
        ensures
            top_p == self.inner.top_p,
    {
        self.inner.top_p
    }

    /// A request of this API asks for no frequency penalty.
    pub fn get_frequency_penalty(&self) -> (penalty: Option<Float32>)
        ensures
            penalty is None,
    {
        None
    }

    /// A request of this API asks for no presence penalty.
    pub fn get_presence_penalty(&self) -> (penalty: Option<Float32>)
        ensures
            penalty is None,
    {
        None
    }

    /// A request of this API fixes no seed.
    pub fn get_seed(&self) -> (seed: Option<i64>)
        ensures
            seed is None,
    {
        None
    }

    /// A request of this API asks for no number of choices.
    pub fn get_n(&self) -> (n: Option<u8>)
        ensures
            n is None,
    {
        None
    }

    /// A request of this API asks for no number of candidates.
    pub fn get_best_of(&self) -> (best_of: Option<u8>)
        ensures
            best_of is None,
    {
        None
    }

    /// The most tokens that the client asks for.
    pub fn get_max_tokens(&self) -> (tokens: Option<u32>)
        ensures
            tokens == self.inner.max_output_tokens,
    {
        self.inner.max_output_tokens
    }

    /// A request of this API asks for no least number of tokens.
    pub fn get_min_tokens(&self) -> (tokens: Option<u32>)
        ensures
            tokens is None,
    {
        None
    }

    /// A request of this API names no stop texts.
    pub fn get_stop(&self) -> (stop: Option<Vec<String>>)
        ensures
            stop is None,
    {
        None
    }
}

impl BasetenExtProvider for NvCreateResponse {
    open spec fn ext(&self) -> Option<BasetenExt> {
        Some(self.baseten_ext)
    }

    fn baseten_ext(&self) -> (ext: Option<&BasetenExt>) {
        Some(&self.baseten_ext)
    }
}

} // verus!
