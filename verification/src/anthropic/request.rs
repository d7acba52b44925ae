//! Parts of a request: cache hints, the system prompt, and what tool results hold.

use vstd::prelude::*;

use crate::number::{parse_u64, parsed_u64};
use crate::text::{join, joined, same_text};

verus! {

/// A hint that the prompt up to here may be cached.
#[derive(Debug, Clone, PartialEq)]
pub struct CacheControl {
    pub control_type: CacheControlType,
    /// How long to keep it: seconds, or "5m" or "1h".
    pub ttl: Option<String>,
}

/// The kind of a cache hint.
#[derive(Debug, Clone, Copy, PartialEq, Eq, Structural)]
pub enum CacheControlType {
    Ephemeral,
    Unknown,
}

impl Default for CacheControlType {
    fn default() -> (kind: CacheControlType)
        ensures
            kind == CacheControlType::Ephemeral,
    {
        CacheControlType::Ephemeral
    }
}

impl Default for CacheControl {
    fn default() -> (control: CacheControl)
        ensures
            control.control_type == CacheControlType::Ephemeral,
            control.ttl is None,
    {
        CacheControl { control_type: CacheControlType::Ephemeral, ttl: None }
    }
}

/// The shortest time that a cache hint asks for.
pub const MIN_TTL_SECONDS: u64 = 300;

/// The longest time that a cache hint asks for.
pub const MAX_TTL_SECONDS: u64 = 3600;

/// A number within bounds.
pub open spec fn clamped(value: u64) -> u64 {
    if value < MIN_TTL_SECONDS {
        MIN_TTL_SECONDS
    } else if value > MAX_TTL_SECONDS {
        MAX_TTL_SECONDS
    } else {
        value
    }
}

/// The seconds that a time to live asks for: the shortest time where there is none or it
/// cannot be read.
pub open spec fn ttl_of(ttl: Option<Seq<char>>) -> u64 {
    match ttl {
        None => MIN_TTL_SECONDS,
        Some(text) => if text == "5m"@ {
            300
        } else if text == "1h"@ {
            3600
        } else {
            match parsed_u64(text) {
                Some(seconds) => clamped(seconds),
                None => MIN_TTL_SECONDS,
            }
        },
    }
}

impl CacheControl {
    /// The seconds that the hint asks for, between the shortest and the longest time.
    pub fn ttl_seconds(&self) -> (seconds: u64)
        ensures
            seconds == ttl_of(self.ttl.deep_view()),
            MIN_TTL_SECONDS <= seconds <= MAX_TTL_SECONDS,
    {
        let text = match &self.ttl {
            None => {
                return MIN_TTL_SECONDS;
            },
            Some(text) => text.as_str(),
        };
        if same_text(text, "5m") {
            return 300;
        }
        if same_text(text, "1h") {
            return 3600;
        }
        match parse_u64(text) {
            Some(seconds) => if seconds < MIN_TTL_SECONDS {
                MIN_TTL_SECONDS
            } else if seconds > MAX_TTL_SECONDS {
                MAX_TTL_SECONDS
            } else {
                seconds
            },
            None => MIN_TTL_SECONDS,
        }
    }
}

/// A block of a system prompt.
#[derive(Debug, Clone, PartialEq)]
pub struct SystemBlock {
    pub text: String,
    pub cache_control: Option<CacheControl>,
}

/// A system prompt as it stands in a request: a text, or blocks.
#[derive(Debug, Clone, PartialEq)]
pub enum SystemPrompt {
    Text(String),
    Blocks(Vec<SystemBlock>),
}

/// A system prompt: the text of all blocks, and the cache hint of the last that has one.
#[derive(Debug, Clone, PartialEq)]
pub struct SystemContent {
    pub text: String,
    pub cache_control: Option<CacheControl>,
}

/// The texts of the blocks.
pub open spec fn block_texts(blocks: Seq<SystemBlock>) -> Seq<Seq<char>> {
    blocks.map_values(|block: SystemBlock| block.text@)
}

/// The cache hint of the last block that has one.
pub open spec fn last_hint(blocks: Seq<SystemBlock>) -> Option<CacheControl>
    decreases blocks.len(),
{
    if blocks.len() == 0 {
        None
    } else if blocks.last().cache_control is Some {
        blocks.last().cache_control
    } else {
        last_hint(blocks.drop_last())
    }
}

/// Whether content is that of a prompt.
pub open spec fn is_content_of(content: SystemContent, prompt: SystemPrompt) -> bool {
    match prompt {
        SystemPrompt::Text(text) => {
            &&& content.text@ == text@
            &&& content.cache_control is None
        },
        SystemPrompt::Blocks(blocks) => {
            &&& content.text@ == joined(block_texts(blocks@), "\n"@)
            &&& same_hint(content.cache_control, last_hint(blocks@))
        },
    }
}

/// Whether two cache hints say the same.
pub open spec fn same_hint(left: Option<CacheControl>, right: Option<CacheControl>) -> bool {
    match (left, right) {
        (Some(a), Some(b)) => a.control_type == b.control_type && a.ttl.deep_view()
            == b.ttl.deep_view(),
        (None, None) => true,
        _ => false,
    }
}

/// A copy of a cache hint.
fn copied_hint(hint: &Option<CacheControl>) -> (copy: Option<CacheControl>)
    ensures
        same_hint(copy, *hint),
{
    match hint {
        Some(control) => Some(
            CacheControl {
                control_type: control.control_type,
                ttl: match &control.ttl {
                    Some(text) => Some(text.clone()),
                    None => None,
                },
            },
        ),
        None => None,
    }
}

impl SystemContent {
    /// The content of a system prompt: blocks are joined by line breaks, and keep only the
    /// last cache hint.
    pub fn from_prompt(prompt: &SystemPrompt) -> (content: SystemContent)
        ensures
            is_content_of(content, *prompt),
    {
        match prompt {
            SystemPrompt::Text(text) => SystemContent { text: text.clone(), cache_control: None },
            SystemPrompt::Blocks(blocks) => {
                let mut texts: Vec<String> = Vec::new();
                let mut hint: Option<CacheControl> = None;
                for i in 0..blocks.len()
                    invariant
                        texts.deep_view() == block_texts(blocks@.take(i as int)),
                        same_hint(hint, last_hint(blocks@.take(i as int))),
                {
                    let ghost before = texts.deep_view();
                    texts.push(blocks[i].text.clone());
                    assert(texts.deep_view() =~= before.push(blocks@[i as int].text@));
                    assert(block_texts(blocks@.take(i + 1)) =~= block_texts(
                        blocks@.take(i as int),
                    ).push(blocks@[i as int].text@));
                    assert(blocks@.take(i + 1).drop_last() =~= blocks@.take(i as int));
                    if blocks[i].cache_control.is_some() {
                        hint = copied_hint(&blocks[i].cache_control);
                    }
                }
                assert(blocks@.take(blocks@.len() as int) =~= blocks@);
                assert(texts@.map_values(|piece: String| piece@) =~= block_texts(blocks@)) by {
                    assert forall|i: int| 0 <= i < texts@.len() implies texts@[i]@
                        == block_texts(blocks@)[i] by {
                        assert(texts.deep_view()[i] == texts@[i]@);
                    }
                    assert(texts.deep_view().len() == texts@.len());
                }
                SystemContent { text: join(texts.as_slice(), "\n"), cache_control: hint }
            },
        }
    }

    /// The prompt that has this content: a text, or one block where there is a cache hint to
    /// carry.
    pub fn to_prompt(&self) -> (prompt: SystemPrompt)
        ensures
            is_prompt_of(prompt, *self),
    {
        match &self.cache_control {
            None => SystemPrompt::Text(self.text.clone()),
            Some(_) => {
                let mut blocks: Vec<SystemBlock> = Vec::new();
                blocks.push(
                    SystemBlock {
                        text: self.text.clone(),
                        cache_control: copied_hint(&self.cache_control),
                    },
                );
                SystemPrompt::Blocks(blocks)
            },
        }
    }
}

/// Whether a prompt is how content stands in a request.
pub open spec fn is_prompt_of(prompt: SystemPrompt, content: SystemContent) -> bool {
    if content.cache_control is None {
        prompt matches SystemPrompt::Text(text) && text@ == content.text@
    } else {
        prompt matches SystemPrompt::Blocks(blocks) && {
            &&& blocks@.len() == 1
            &&& blocks@[0].text@ == content.text@
            &&& same_hint(blocks@[0].cache_control, content.cache_control)
        }
    }
}

/// A system prompt that is written to a request is read back from it as it was.
pub proof fn law_system_prompts_round_trip(
    content: SystemContent,
    prompt: SystemPrompt,
    again: SystemContent,
)
    requires
        is_prompt_of(prompt, content),
        is_content_of(again, prompt),
    ensures
        again.text@ == content.text@,
        same_hint(again.cache_control, content.cache_control),
{
    if let SystemPrompt::Blocks(blocks) = prompt {
        assert(block_texts(blocks@) =~= seq![content.text@]);
        reveal_with_fuel(joined, 2);
        assert(blocks@.drop_last() =~= seq![]);
    }
}

/// An image.
#[derive(Debug, Clone, PartialEq, Eq)]
pub struct AnthropicImageSource {
    pub source_type: String,
    pub media_type: String,
    pub data: String,
}

/// The content of a tool result.
pub enum ToolResultContent {
    Text(String),
    Blocks(Vec<ToolResultContentBlock>),
}

/// A block of the content of a tool result.
pub enum ToolResultContentBlock {
    Text { text: String },
    Image { source: AnthropicImageSource },
    Document(DocumentBlock),
    SearchResult(SearchResultBlock),
    /// A block of another kind, as it came.
    Other(serde_json::Value),
}

/// A document.
pub struct DocumentBlock {
    pub source: DocumentSource,
    pub title: Option<String>,
    pub context: Option<String>,
    pub citations: Option<serde_json::Value>,
    pub cache_control: Option<CacheControl>,
}

/// Where a document comes from.
pub enum DocumentSource {
    Text { media_type: Option<String>, data: String },
    Content { content: Vec<ToolResultContentBlock> },
    Base64 { media_type: String, data: String },
    Url { url: String },
}

/// A hit of a search.
pub struct SearchResultBlock {
    pub source: Option<String>,
    pub title: Option<String>,
    pub content: Vec<ToolResultContentBlock>,
    pub citations: Option<serde_json::Value>,
    pub cache_control: Option<CacheControl>,
}

/// Whether there is a text block among the blocks.
pub open spec fn has_text(blocks: Seq<ToolResultContentBlock>) -> bool {
    exists|i: int| 0 <= i < blocks.len() && (#[trigger] blocks[i]) is Text
}

/// The texts of the text blocks, one after the other.
pub open spec fn own_text(blocks: Seq<ToolResultContentBlock>) -> Seq<char>
    decreases blocks.len(),
{
    if blocks.len() == 0 {
        seq![]
    } else {
        own_text(blocks.drop_last()) + match blocks.last() {
            ToolResultContentBlock::Text { text } => text@,
            _ => seq![],
        }
    }
}

/// The text of a run of blocks, where one of them is text.
pub open spec fn nested_text(blocks: Seq<ToolResultContentBlock>) -> Option<Seq<char>> {
    if has_text(blocks) {
        Some(own_text(blocks))
    } else {
        None
    }
}

/// The texts of the text blocks, one after the other, where there is one.
fn concat_text_blocks(blocks: &Vec<ToolResultContentBlock>) -> (text: Option<String>)
    ensures
        text.deep_view() == nested_text(blocks@),
{
    let mut all = String::new();
    let mut any = false;
    for i in 0..blocks.len()
        invariant
            all@ == own_text(blocks@.take(i as int)),
            any == exists|k: int| 0 <= k < i && (#[trigger] blocks@[k]) is Text,
    {
        assert(blocks@.take(i + 1).drop_last() =~= blocks@.take(i as int));
        assert(blocks@.take(i + 1).last() == blocks@[i as int]);
        match &blocks[i] {
            ToolResultContentBlock::Text { text } => {
                assert(blocks@[i as int] is Text);
                any = true;
                all.append(text.as_str());
            },
            _ => {},
        }
    }
    assert(blocks@.take(blocks@.len() as int) =~= blocks@);
    if any {
        Some(all)
    } else {
        None
    }
}

impl DocumentSource {
    /// The text of the document, where it has one: binary and linked documents have none.
    pub open spec fn text_of(self) -> Option<Seq<char>> {
        match self {
            DocumentSource::Text { data, .. } => Some(data@),
            DocumentSource::Content { content } => nested_text(content@),
            DocumentSource::Base64 { .. } => None,
            DocumentSource::Url { .. } => None,
        }
    }

    /// The text of the document, where it has one.
    pub fn text(&self) -> (text: Option<String>)
        ensures
            text.deep_view() == self.text_of(),
    {
        match self {
            DocumentSource::Text { data, .. } => Some(data.clone()),
            DocumentSource::Content { content } => concat_text_blocks(content),
            DocumentSource::Base64 { .. } => None,
            DocumentSource::Url { .. } => None,
        }
    }
}

impl DocumentBlock {
    /// The text of the document, where its source has one.
    pub fn text(&self) -> (text: Option<String>)
        ensures
            text.deep_view() == self.source.text_of(),
    {
        self.source.text()
    }
}

impl SearchResultBlock {
    /// The text of the hit, where it has one.
    pub fn text(&self) -> (text: Option<String>)
        ensures
            text.deep_view() == nested_text(self.content@),
    {
        concat_text_blocks(&self.content)
    }
}

impl ToolResultContentBlock {
    /// The text of the block, where it has one.
    pub open spec fn text_of(self) -> Option<Seq<char>> {
        match self {
            ToolResultContentBlock::Text { text } => Some(text@),
            ToolResultContentBlock::Document(document) => document.source.text_of(),
            ToolResultContentBlock::SearchResult(result) => nested_text(result.content@),
            ToolResultContentBlock::Image { .. } => None,
            ToolResultContentBlock::Other(_) => None,
        }
    }
}

/// The text of every block that has one, one after the other.
pub open spec fn full_text(blocks: Seq<ToolResultContentBlock>) -> Seq<char>
    decreases blocks.len(),
{
    if blocks.len() == 0 {
        seq![]
    } else {
        full_text(blocks.drop_last()) + blocks.last().text_of().unwrap_or(seq![])
    }
}

impl ToolResultContent {
    /// The text of the content.
    pub open spec fn text_of(self) -> Seq<char> {
        match self {
            ToolResultContent::Text(text) => text@,
            ToolResultContent::Blocks(blocks) => full_text(blocks@),
        }
    }

    /// The text of the content: that of its blocks, one after the other.
    pub fn into_text(self) -> (text: String)
        ensures
            text@ == self.text_of(),
    {
        match self {
            ToolResultContent::Text(text) => text,
            ToolResultContent::Blocks(blocks) => {
                let mut all = String::new();
                for i in 0..blocks.len()
                    invariant
                        all@ == full_text(blocks@.take(i as int)),
                {
                    assert(blocks@.take(i + 1).drop_last() =~= blocks@.take(i as int));
                    assert(blocks@.take(i + 1).last() == blocks@[i as int]);
                    match &blocks[i] {
                        ToolResultContentBlock::Text { text } => {
                            all.append(text.as_str());
                        },
                        ToolResultContentBlock::Document(document) => {
                            if let Some(text) = document.text() {
                                all.append(text.as_str());
                            }
                        },
                        ToolResultContentBlock::SearchResult(result) => {
                            if let Some(text) = result.text() {
                                all.append(text.as_str());
                            }
                        },
                        ToolResultContentBlock::Image { .. } => {},
                        ToolResultContentBlock::Other(_) => {},
                    }
                }
                assert(blocks@.take(blocks@.len() as int) =~= blocks@);
                all
            },
        }
    }
}

} // verus!
