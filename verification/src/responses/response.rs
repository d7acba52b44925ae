//! Response objects, which echo the parameters of the request.

use vstd::prelude::*;

use crate::chat::CompletionUsage;
use crate::number::Float32;
use crate::responses::tools::{normalize_tools, normalized_tool};
use crate::responses::types::{
    IncludeEnum, IncompleteDetails, IncompleteDetailsView, InputTokenDetails, Instructions,
    InstructionsView, OutputItem, OutputItemView, OutputTokenDetails, PromptCacheRetention,
    Reasoning, Response, ResponseTextParam, ResponseTextParamView, ResponseUsage, ResponseView,
    ServiceTier, Status, TextResponseFormatConfiguration, TextResponseFormatConfigurationView, Tool,
    ToolChoiceOptions, ToolChoiceParam, ToolChoiceParamView, ToolView, Truncation,
};
use crate::text_map::TextMap;

verus! {

/// The parameters of a request that its response echoes.
#[derive(Debug)]
pub struct ResponseParams {
    pub model: Option<String>,
    pub temperature: Option<Float32>,
    pub top_p: Option<Float32>,
    pub max_output_tokens: Option<u32>,
    pub parallel_tool_calls: Option<bool>,
    pub store: Option<bool>,
    pub tools: Option<Vec<Tool>>,
    pub tool_choice: Option<ToolChoiceParam>,
    pub instructions: Option<String>,
    pub reasoning: Option<Reasoning>,
    pub text: Option<ResponseTextParam>,
    pub service_tier: Option<ServiceTier>,
    pub requested: Option<Vec<IncludeEnum>>,
    pub truncation: Option<Truncation>,
    pub presence_penalty: Option<Float32>,
    pub frequency_penalty: Option<Float32>,
    pub prompt_cache_key: Option<String>,
    pub prompt_cache_retention: Option<PromptCacheRetention>,
    pub safety_identifier: Option<String>,
    /// Echoed as sent.
    pub metadata: Option<TextMap<String>>,
    /// Echoed as sent; 0 where the request left it out.
    pub top_logprobs: Option<u8>,
}

impl Default for ResponseParams {
    fn default() -> (params: Self)
        ensures
            params == (ResponseParams {
                model: None,
                temperature: None,
                top_p: None,
                max_output_tokens: None,
                parallel_tool_calls: None,
                store: None,
                tools: None,
                tool_choice: None,
                instructions: None,
                reasoning: None,
                text: None,
                service_tier: None,
                requested: None,
                truncation: None,
                presence_penalty: None,
                frequency_penalty: None,
                prompt_cache_key: None,
                prompt_cache_retention: None,
                safety_identifier: None,
                metadata: None,
                top_logprobs: None,
            }),
    {
        ResponseParams {
            model: None,
            temperature: None,
            top_p: None,
            max_output_tokens: None,
            parallel_tool_calls: None,
            store: None,
            tools: None,
            tool_choice: None,
            instructions: None,
            reasoning: None,
            text: None,
            service_tier: None,
            requested: None,
            truncation: None,
            presence_penalty: None,
            frequency_penalty: None,
            prompt_cache_key: None,
            prompt_cache_retention: None,
            safety_identifier: None,
            metadata: None,
            top_logprobs: None,
        }
    }
}

impl ResponseParams {
    /// Whether the request asked for a summary of the reasoning.
    pub open spec fn wants_summary(self) -> bool {
        self.reasoning matches Some(reasoning) && reasoning.summary is Some
    }

    /// Whether the request asked for a summary of the reasoning.
    pub fn reasoning_summary_requested(&self) -> (requested: bool)
        ensures
            requested == self.wants_summary(),
    {
        match self.reasoning {
            Some(reasoning) => reasoning.summary.is_some(),
            None => false,
        }
    }
}

/// What a request kept for its response beyond the echoed parameters.
#[derive(Debug, Clone, PartialEq, Eq)]
pub struct ResponsesContext {
    pub previous_response_id: Option<String>,
    pub store: bool,
}

/// The part of a response that does not echo the request.
pub struct ResponseCore {
    pub id: Seq<char>,
    pub created_at: u64,
    pub completed_at: Option<u64>,
    pub status: Status,
    pub model: Seq<char>,
    pub output: Seq<OutputItemView>,
    pub usage: Option<ResponseUsage>,
}

/// The id of the response that a request continues.
pub open spec fn previous_id(context: Option<ResponsesContext>) -> Option<Seq<char>> {
    match context {
        Some(c) => c.previous_response_id.deep_view(),
        None => None,
    }
}

/// A response: its own part, the echo of the parameters, and the defaults for those that
/// the request left out.
pub open spec fn response_of(
    params: ResponseParams,
    previous: Option<Seq<char>>,
    core: ResponseCore,
) -> ResponseView {
    ResponseView {
        id: core.id,
        object: "response"@,
        created_at: core.created_at,
        completed_at: core.completed_at,
        status: core.status,
        model: core.model,
        output: core.output,
        background: Some(false),
        metadata: Some(
            match params.metadata {
                Some(pairs) => pairs.deep_view(),
                None => Map::empty(),
            },
        ),
        parallel_tool_calls: Some(params.parallel_tool_calls.unwrap_or(true)),
        temperature: Some(params.temperature.unwrap_or(Float32::one())),
        text: Some(
            match params.text {
                Some(text) => text.deep_view(),
                None => ResponseTextParamView {
                    format: TextResponseFormatConfigurationView::Text,
                    verbosity: None,
                },
            },
        ),
        tool_choice: Some(
            match params.tool_choice {
                Some(choice) => choice.deep_view(),
                None => ToolChoiceParamView::Mode(ToolChoiceOptions::Auto),
            },
        ),
        tools: Some(
            match params.tools {
                Some(tools) => tools.deep_view().map_values(
                    |tool: ToolView| normalized_tool(tool),
                ),
                None => seq![],
            },
        ),
        top_p: Some(params.top_p.unwrap_or(Float32::one())),
        truncation: Some(params.truncation.unwrap_or(Truncation::Disabled)),
        billing: None,
        conversation: None,
        error: None,
        incomplete_details: if core.status == Status::Incomplete {
            Some(IncompleteDetailsView { reason: "max_output_tokens"@ })
        } else {
            None
        },
        instructions: match params.instructions {
            Some(text) => Some(InstructionsView::Text(text@)),
            None => None,
        },
        max_output_tokens: params.max_output_tokens,
        previous_response_id: previous,
        prompt: None,
        prompt_cache_key: params.prompt_cache_key.deep_view(),
        prompt_cache_retention: params.prompt_cache_retention,
        reasoning: params.reasoning,
        safety_identifier: params.safety_identifier.deep_view(),
        service_tier: Some(params.service_tier.unwrap_or(ServiceTier::Auto)),
        top_logprobs: Some(params.top_logprobs.unwrap_or(0)),
        usage: core.usage,
    }
}

/// A response: its own part, the echo of the parameters, and the defaults for those that
/// the request left out.
pub fn build_response(
    params: &ResponseParams,
    context: &Option<ResponsesContext>,
    id: String,
    created_at: u64,
    completed_at: Option<u64>,
    status: Status,
    model: String,
    output: Vec<OutputItem>,
    usage: Option<ResponseUsage>,
) -> (response: Response)
    ensures
        response.deep_view() == response_of(
            *params,
            previous_id(*context),
            ResponseCore {
                id: id@,
                created_at,
                completed_at,
                status,
                model: model@,
                output: output.deep_view(),
                usage,
            },
        ),
{
    let metadata = match &params.metadata {
        Some(pairs) => pairs.copied(),
        None => TextMap::new(),
    };
    assert(params.metadata is None ==> metadata.deep_view() =~= Map::empty());
    let text = match &params.text {
        Some(text) => text.clone(),
        None => ResponseTextParam {
            format: TextResponseFormatConfiguration::Text,
            verbosity: None,
        },
    };
    let tool_choice = match &params.tool_choice {
        Some(choice) => choice.clone(),
        None => ToolChoiceParam::Mode(ToolChoiceOptions::Auto),
    };
    let tools = match &params.tools {
        Some(tools) => {
            let copy = tools.clone();
            assert(copy.deep_view() =~= tools.deep_view());
            normalize_tools(copy)
        },
        None => Vec::new(),
    };
    let incomplete_details = if status == Status::Incomplete {
        Some(IncompleteDetails { reason: "max_output_tokens".to_owned() })
    } else {
        None
    };
    let instructions = match &params.instructions {
        Some(text) => Some(Instructions::Text(text.clone())),
        None => None,
    };
    let previous_response_id = match context {
        Some(context) => context.previous_response_id.clone(),
        None => None,
    };
    let response = Response {
        id,
        object: "response".to_owned(),
        created_at,
        completed_at,
        status,
        model,
        output,
        background: Some(false),
        metadata: Some(metadata),
        parallel_tool_calls: Some(params.parallel_tool_calls.unwrap_or(true)),
        temperature: Some(params.temperature.unwrap_or(Float32::one())),
        text: Some(text),
        tool_choice: Some(tool_choice),
        tools: Some(tools),
        top_p: Some(params.top_p.unwrap_or(Float32::one())),
        truncation: Some(params.truncation.unwrap_or(Truncation::Disabled)),
        billing: None,
        conversation: None,
        error: None,
        incomplete_details,
        instructions,
        max_output_tokens: params.max_output_tokens,
        previous_response_id,
        prompt: None,
        prompt_cache_key: params.prompt_cache_key.clone(),
        prompt_cache_retention: params.prompt_cache_retention,
        reasoning: params.reasoning,
        safety_identifier: params.safety_identifier.clone(),
        service_tier: Some(params.service_tier.unwrap_or(ServiceTier::Auto)),
        top_logprobs: Some(params.top_logprobs.unwrap_or(0)),
        usage,
    };
    assert(response.deep_view() =~~= response_of(
        *params,
        previous_id(*context),
        ResponseCore {
            id: id@,
            created_at,
            completed_at,
            status,
            model: model@,
            output: output.deep_view(),
            usage,
        },
    ));
    response
}

/// The token counts of a chat completion in the terms of a response.
pub open spec fn usage_of(usage: CompletionUsage) -> ResponseUsage {
    ResponseUsage {
        input_tokens: usage.prompt_tokens,
        input_tokens_details: InputTokenDetails {
            cached_tokens: usage.cached_tokens().unwrap_or(0),
        },
        output_tokens: usage.completion_tokens,
        output_tokens_details: OutputTokenDetails {
            reasoning_tokens: usage.reasoning_tokens().unwrap_or(0),
        },
        total_tokens: usage.total_tokens,
    }
}

/// The token counts of a chat completion in the terms of a response.
pub fn response_usage(usage: CompletionUsage) -> (converted: ResponseUsage)
    ensures
        converted == usage_of(usage),
{
    ResponseUsage {
        input_tokens: usage.prompt_tokens,
        input_tokens_details: InputTokenDetails {
            cached_tokens: usage.cached_tokens().unwrap_or(0),
        },
        output_tokens: usage.completion_tokens,
        output_tokens_details: OutputTokenDetails {
            reasoning_tokens: usage.reasoning_tokens().unwrap_or(0),
        },
        total_tokens: usage.total_tokens,
    }
}

} // verus!
