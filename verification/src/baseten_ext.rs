//! Extensions of a request: cache control of its prompt and of its answer, and overrides of
//! the temperature.

use vstd::prelude::*;

use vstd::std_specs::cmp::PartialEqSpecImpl;

use crate::number::Float32;
use crate::text_map::TextMap;

verus! {

/// Whether the model is to think.
#[derive(Clone, Copy, Debug, PartialEq, Eq, Structural)]
pub struct Thinking {
    pub thinking_type: ThinkingType,
}

/// Whether the model is to think.
#[derive(Clone, Copy, Debug, PartialEq, Eq, Structural)]
pub enum ThinkingType {
    Enabled,
    Disabled,
}

/// A temperature from 0 to 2.
#[derive(Clone, Copy, Debug)]
pub struct DynamicTemperature(Float32);

/// Whether the bits of a number in single precision are those of one from 0 to 2. The bits of
/// the numbers from 0 on are in the order of the numbers, and zero has a negative form.
pub open spec fn is_temperature(bits: u32) -> bool {
    bits <= 0x4000_0000 || bits == 0x8000_0000
}

impl DynamicTemperature {
    /// The bits of the temperature.
    pub closed spec fn bits(self) -> u32 {
        self.0.bits
    }

    /// The temperature with the given bits, if it is one.
    pub fn try_from_bits(value: Float32) -> (result: Result<DynamicTemperature, String>)
        ensures
            result is Ok == is_temperature(value.bits),
            result matches Ok(temperature) ==> temperature.bits() == value.bits,
            result matches Err(error) ==> error@
                == "dynamic_temperature values must be between 0.0 and 2.0"@,
    {
        if value.bits <= 0x4000_0000 || value.bits == 0x8000_0000 {
            Ok(DynamicTemperature(value))
        } else {
            Err("dynamic_temperature values must be between 0.0 and 2.0".to_owned())
        }
    }

    /// The temperature.
    pub fn get(self) -> (value: Float32)
        ensures
            value.bits == self.bits(),
    {
        self.0
    }

    /// Whether two temperatures are the same number.
    pub open spec fn is_same(self, other: DynamicTemperature) -> bool {
        (Float32 { bits: self.bits() }).is_same(Float32 { bits: other.bits() })
    }
}

impl PartialEq for DynamicTemperature {
    fn eq(&self, other: &DynamicTemperature) -> (same: bool) {
        self.0 == other.0
    }
}

impl PartialEqSpecImpl for DynamicTemperature {
    open spec fn obeys_eq_spec() -> bool {
        true
    }

    open spec fn eq_spec(&self, other: &DynamicTemperature) -> bool {
        self.is_same(*other)
    }
}

/// A text after which a temperature applies.
#[derive(Clone, Debug, PartialEq, Eq, Hash)]
pub struct DynamicTemperatureSuffix(String);

impl View for DynamicTemperatureSuffix {
    type V = Seq<char>;

    closed spec fn view(&self) -> Seq<char> {
        self.0@
    }
}

impl DynamicTemperatureSuffix {
    /// The suffix, which may not be empty.
    pub fn try_from_text(value: String) -> (result: Result<DynamicTemperatureSuffix, String>)
        ensures
            result is Ok == (value@.len() > 0),
            result matches Ok(suffix) ==> suffix@ == value@,
            result matches Err(error) ==> error@ == "dynamic_temperature keys must be non-empty"@,
    {
        if value.as_str().is_empty() {
            Err("dynamic_temperature keys must be non-empty".to_owned())
        } else {
            Ok(DynamicTemperatureSuffix(value))
        }
    }

    /// The text.
    pub fn as_str(&self) -> (text: &str)
        ensures
            text@ == self@,
    {
        self.0.as_str()
    }

    /// The text.
    pub fn into_text(self) -> (text: String)
        ensures
            text@ == self@,
    {
        self.0
    }
}

/// The temperatures that apply after given texts: one for each text.
#[derive(Clone, Debug)]
pub struct DynamicTemperatureMap {
    entries: TextMap<DynamicTemperature>,
}

impl DynamicTemperatureMap {
    /// The suffixes in the order in which they came.
    pub closed spec fn suffixes(&self) -> Seq<Seq<char>> {
        self.entries.keys()
    }

    /// The temperature at a place.
    pub closed spec fn temperature_at(&self, i: int) -> DynamicTemperature {
        self.entries.value_at(i)
    }

    /// No suffix occurs twice.
    pub open spec fn wf(&self) -> bool {
        self.suffixes().no_duplicates()
    }

    /// The temperature of a suffix, if it has one.
    pub open spec fn temperature_of(&self, suffix: Seq<char>) -> Option<DynamicTemperature> {
        match self.suffixes().index_of_first(suffix) {
            Some(i) => Some(self.temperature_at(i)),
            None => None,
        }
    }

    /// No temperatures.
    pub fn new() -> (map: DynamicTemperatureMap)
        ensures
            map.wf(),
            map.suffixes().len() == 0,
    {
        DynamicTemperatureMap { entries: TextMap::new() }
    }

    /// The number of suffixes.
    pub fn len(&self) -> (count: usize)
        ensures
            count == self.suffixes().len(),
    {
        self.entries.len()
    }

    /// The suffix at a place, and its temperature.
    pub fn entry(&self, i: usize) -> (entry: (&str, DynamicTemperature))
        requires
            i < self.suffixes().len(),
        ensures
            entry.0@ == self.suffixes()[i as int],
            entry.1 == self.temperature_at(i as int),
    {
        let entry = self.entries.entry(i);
        (entry.0, *entry.1)
    }

    /// The temperature of a suffix, if it has one.
    pub fn get(&self, suffix: &str) -> (temperature: Option<DynamicTemperature>)
        ensures
            temperature == self.temperature_of(suffix@),
            temperature is None <==> !self.suffixes().contains(suffix@),
            self.wf() ==> forall|i: int|
                0 <= i < self.suffixes().len() && #[trigger] self.suffixes()[i] == suffix@
                    ==> temperature == Some(self.temperature_at(i)),
    {
        match self.entries.get(suffix) {
            Some(temperature) => Some(*temperature),
            None => None,
        }
    }

    /// Sets the temperature of a suffix, which replaces the one that it had.
    pub fn insert(&mut self, suffix: DynamicTemperatureSuffix, temperature: DynamicTemperature)
        requires
            old(self).wf(),
        ensures
            final(self).wf(),
            final(self).suffixes() == if old(self).suffixes().contains(suffix@) {
                old(self).suffixes()
            } else {
                old(self).suffixes().push(suffix@)
            },
            forall|i: int|
                0 <= i < final(self).suffixes().len() ==> #[trigger] final(self).temperature_at(i)
                    == (if final(self).suffixes()[i] == suffix@ {
                    temperature
                } else {
                    old(self).temperature_at(i)
                }),
    {
        self.entries.insert(suffix.into_text(), temperature);
    }

    /// Whether a suffix has the same temperature in two maps, or in neither of them any.
    pub open spec fn agrees_on(&self, other: &DynamicTemperatureMap, suffix: Seq<char>) -> bool {
        match (self.temperature_of(suffix), other.temperature_of(suffix)) {
            (Some(here), Some(there)) => here.is_same(there),
            (None, None) => true,
            _ => false,
        }
    }

    /// Whether two maps agree on every suffix of the first.
    fn is_part_of(&self, other: &DynamicTemperatureMap) -> (part: bool)
        ensures
            part == forall|suffix: Seq<char>|
                self.suffixes().contains(suffix) ==> #[trigger] self.agrees_on(other, suffix),
    {
        let count: usize = self.len();
        for i in 0..count
            invariant
                count == self.suffixes().len(),
                forall|k: int|
                    0 <= k < i ==> self.agrees_on(other, #[trigger] self.suffixes()[k]),
        {
            let (suffix, _) = self.entry(i);
            let same = match (self.get(suffix), other.get(suffix)) {
                (Some(here), Some(there)) => here == there,
                _ => false,
            };
            if !same {
                assert(self.suffixes().contains(self.suffixes()[i as int]));
                assert(!self.agrees_on(other, self.suffixes()[i as int]));
                return false;
            }
        }
        assert forall|suffix: Seq<char>| self.suffixes().contains(suffix) implies #[trigger] self
            .agrees_on(other, suffix) by {
            let k = choose|k: int| 0 <= k < self.suffixes().len() && self.suffixes()[k] == suffix;
            assert(self.suffixes()[k] == suffix);
        }
        true
    }
}

impl PartialEq for DynamicTemperatureMap {
    fn eq(&self, other: &DynamicTemperatureMap) -> (same: bool) {
        let part = self.is_part_of(other);
        let whole = other.is_part_of(self);
        proof {
            assert forall|suffix: Seq<char>| part && whole implies #[trigger] self.agrees_on(
                other,
                suffix,
            ) by {
                self.suffixes().index_of_first_ensures(suffix);
                other.suffixes().index_of_first_ensures(suffix);
                if self.suffixes().contains(suffix) {
                    assert(self.agrees_on(other, suffix));
                }
                if other.suffixes().contains(suffix) {
                    assert(other.agrees_on(self, suffix));
                }
            }
            if !whole {
                let suffix = choose|suffix: Seq<char>|
                    other.suffixes().contains(suffix) && !#[trigger] other.agrees_on(self, suffix);
                assert(!other.agrees_on(self, suffix));
                assert(!self.agrees_on(other, suffix));
            }
        }
        part && whole
    }
}

impl PartialEqSpecImpl for DynamicTemperatureMap {
    open spec fn obeys_eq_spec() -> bool {
        true
    }

    open spec fn eq_spec(&self, other: &DynamicTemperatureMap) -> bool {
        forall|suffix: Seq<char>| #[trigger] self.agrees_on(other, suffix)
    }
}

/// How long a part of a prompt is worth keeping.
#[derive(Clone, Copy, Debug, PartialEq, Eq, PartialOrd, Ord, Structural)]
pub enum CacheControlTier {
    Basic,
    Standard,
    Premium,
}

impl CacheControlTier {
    /// The place of a tier among the tiers.
    pub open spec fn rank(self) -> int {
        match self {
            CacheControlTier::Basic => 0,
            CacheControlTier::Standard => 1,
            CacheControlTier::Premium => 2,
        }
    }

    /// Whether a tier is higher than another.
    pub fn is_above(&self, other: &CacheControlTier) -> (above: bool)
        ensures
            above == (self.rank() > other.rank()),
    {
        match (self, other) {
            (CacheControlTier::Premium, CacheControlTier::Premium) => false,
            (CacheControlTier::Premium, _) => true,
            (CacheControlTier::Standard, CacheControlTier::Basic) => true,
            _ => false,
        }
    }
}

impl Default for CacheControlTier {
    fn default() -> (tier: CacheControlTier)
        ensures
            tier == CacheControlTier::Standard,
    {
        CacheControlTier::Standard
    }
}

/// How long to keep what was generated.
#[derive(Clone, Copy, Debug, PartialEq, Eq, Structural)]
pub enum CacheControlTtl {
    FiveMinutes,
    OneMinute,
}

impl Default for CacheControlTtl {
    fn default() -> (ttl: CacheControlTtl)
        ensures
            ttl == CacheControlTtl::FiveMinutes,
    {
        CacheControlTtl::FiveMinutes
    }
}

/// The tokens from `start` on, up to `end` where there is one, and their tier.
#[derive(Clone, Copy, Debug, PartialEq, Eq, Structural)]
pub struct CacheControlRange {
    pub start: u64,
    pub end: Option<u64>,
    pub tier: CacheControlTier,
}

impl CacheControlRange {
    /// Whether a token is in the range.
    pub open spec fn contains(self, token: int) -> bool {
        self.start <= token && (self.end matches Some(end) ==> token < end)
    }

    /// Whether no token can be in the range.
    pub open spec fn is_void(self) -> bool {
        self.end matches Some(end) && end <= self.start
    }

    /// Whether the range ends before it starts.
    pub open spec fn is_reversed(self) -> bool {
        self.end matches Some(end) && end < self.start
    }
}

/// What to do with what was generated.
#[derive(Clone, Copy, Debug, PartialEq, Eq, Structural)]
pub struct DecodeCacheControl {
    pub tier: CacheControlTier,
    pub decode_ttl: CacheControlTtl,
}

/// Why cache control is refused.
#[derive(Clone, Copy, Debug, PartialEq, Eq, Structural)]
pub enum CacheControlError {
    NoRanges,
    NotFromZero,
    VoidRange,
    LastNotOpen,
    OpenBeforeLast,
    NotAdjacent,
    TierRises,
    DecodeTierTooHigh,
}

impl CacheControlError {
    /// The error as the client is told.
    pub open spec fn text(self) -> Seq<char> {
        match self {
            CacheControlError::NoRanges =>
            "cache_control must contain at least one range. Minimal valid example: {\"cache_control\":[{\"start\":0,\"end\":1024,\"tier\":\"standard\"},{\"start\":1024,\"end\":null,\"tier\":\"basic\"}]}"@,
            CacheControlError::NotFromZero =>
            "cache_control ranges must start at 0. Minimal valid example: {\"cache_control\":[{\"start\":0,\"end\":1024,\"tier\":\"standard\"},{\"start\":1024,\"end\":null,\"tier\":\"basic\"}]}"@,
            CacheControlError::VoidRange => "cache_control range requires end > start"@,
            CacheControlError::LastNotOpen =>
            "the last cache_control range must be open-ended with end=null. Minimal valid example: {\"cache_control\":[{\"start\":0,\"end\":1024,\"tier\":\"standard\"},{\"start\":1024,\"end\":null,\"tier\":\"basic\"}]}"@,
            CacheControlError::OpenBeforeLast =>
            "only the last cache_control range may be open-ended. Minimal valid example: {\"cache_control\":[{\"start\":0,\"end\":1024,\"tier\":\"standard\"},{\"start\":1024,\"end\":null,\"tier\":\"basic\"}]}"@,
            CacheControlError::NotAdjacent =>
            "cache_control ranges must be adjacent. Minimal valid example: {\"cache_control\":[{\"start\":0,\"end\":1024,\"tier\":\"standard\"},{\"start\":1024,\"end\":null,\"tier\":\"basic\"}]}"@,
            CacheControlError::TierRises =>
            "cache_control tiers must be ordered from premium to basic after merging adjacent ranges with the same tier"@,
            CacheControlError::DecodeTierTooHigh =>
            "decode_cache_control tier must be no higher than the last cache_control tier. Minimal valid example: {\"cache_control\":[{\"start\":0,\"end\":1024,\"tier\":\"standard\"},{\"start\":1024,\"end\":null,\"tier\":\"basic\"}],\"decode_cache_control\":{\"tier\":\"basic\"}}"@,
        }
    }

    /// The error as the client is told.
    pub fn message(&self) -> (message: String)
        ensures
            message@ == self.text(),
    {
        match self {
            CacheControlError::NoRanges =>
            "cache_control must contain at least one range. Minimal valid example: {\"cache_control\":[{\"start\":0,\"end\":1024,\"tier\":\"standard\"},{\"start\":1024,\"end\":null,\"tier\":\"basic\"}]}".to_owned(),
            CacheControlError::NotFromZero =>
            "cache_control ranges must start at 0. Minimal valid example: {\"cache_control\":[{\"start\":0,\"end\":1024,\"tier\":\"standard\"},{\"start\":1024,\"end\":null,\"tier\":\"basic\"}]}".to_owned(),
            CacheControlError::VoidRange => "cache_control range requires end > start".to_owned(),
            CacheControlError::LastNotOpen =>
            "the last cache_control range must be open-ended with end=null. Minimal valid example: {\"cache_control\":[{\"start\":0,\"end\":1024,\"tier\":\"standard\"},{\"start\":1024,\"end\":null,\"tier\":\"basic\"}]}".to_owned(),
            CacheControlError::OpenBeforeLast =>
            "only the last cache_control range may be open-ended. Minimal valid example: {\"cache_control\":[{\"start\":0,\"end\":1024,\"tier\":\"standard\"},{\"start\":1024,\"end\":null,\"tier\":\"basic\"}]}".to_owned(),
            CacheControlError::NotAdjacent =>
            "cache_control ranges must be adjacent. Minimal valid example: {\"cache_control\":[{\"start\":0,\"end\":1024,\"tier\":\"standard\"},{\"start\":1024,\"end\":null,\"tier\":\"basic\"}]}".to_owned(),
            CacheControlError::TierRises =>
            "cache_control tiers must be ordered from premium to basic after merging adjacent ranges with the same tier".to_owned(),
            CacheControlError::DecodeTierTooHigh =>
            "decode_cache_control tier must be no higher than the last cache_control tier. Minimal valid example: {\"cache_control\":[{\"start\":0,\"end\":1024,\"tier\":\"standard\"},{\"start\":1024,\"end\":null,\"tier\":\"basic\"}],\"decode_cache_control\":{\"tier\":\"basic\"}}".to_owned(),
        }
    }
}

/// Whether a range goes on where another ends, in the same tier.
pub open spec fn continues(first: CacheControlRange, second: CacheControlRange) -> bool {
    first.tier == second.tier && first.end == Some(second.start)
}

/// The ranges with one more, which is added to the last where it continues it.
pub open spec fn with_range(
    ranges: Seq<CacheControlRange>,
    range: CacheControlRange,
) -> Seq<CacheControlRange> {
    if ranges.len() > 0 && continues(ranges.last(), range) {
        ranges.drop_last().push(CacheControlRange { end: range.end, ..ranges.last() })
    } else {
        ranges.push(range)
    }
}

/// The ranges with those merged that continue one another.
pub open spec fn merged(ranges: Seq<CacheControlRange>) -> Seq<CacheControlRange>
    decreases ranges.len(),
{
    if ranges.len() == 0 {
        seq![]
    } else {
        with_range(merged(ranges.drop_last()), ranges.last())
    }
}

/// The ranges with those merged that continue one another.
pub fn merge_adjacent_cache_control_ranges(ranges: &Vec<CacheControlRange>) -> (result: Vec<
    CacheControlRange,
>)
    ensures
        result@ == merged(ranges@),
{
    let mut result: Vec<CacheControlRange> = Vec::new();
    for i in 0..ranges.len()
        invariant
            result@ == merged(ranges@.take(i as int)),
    {
        assert(ranges@.take(i + 1).drop_last() =~= ranges@.take(i as int));
        let range = ranges[i];
        let ghost before = result@;
        let count: usize = result.len();
        if count > 0 && result[count - 1].tier == range.tier && result[count - 1].end == Some(
            range.start,
        ) {
            result[count - 1].end = range.end;
            assert(result@ =~= with_range(before, range));
        } else {
            result.push(range);
        }
    }
    assert(ranges@.take(ranges@.len() as int) =~= ranges@);
    result
}

/// What is wrong with the range at position `i`, given those before it, if anything is.
pub open spec fn error_at(ranges: Seq<CacheControlRange>, i: int) -> Option<CacheControlError> {
    let range = ranges[i];
    if range.is_void() {
        Some(CacheControlError::VoidRange)
    } else if i == ranges.len() - 1 && range.end is Some {
        Some(CacheControlError::LastNotOpen)
    } else if i < ranges.len() - 1 && range.end is None {
        Some(CacheControlError::OpenBeforeLast)
    } else if i > 0 && ranges[i - 1].end != Some(range.start) {
        Some(CacheControlError::NotAdjacent)
    } else if i > 0 && range.tier.rank() > ranges[i - 1].tier.rank() {
        Some(CacheControlError::TierRises)
    } else {
        None
    }
}

/// What is wrong with the first range from position `from` on that is wrong.
pub open spec fn error_from(ranges: Seq<CacheControlRange>, from: int) -> Option<CacheControlError>
    decreases ranges.len() - from,
{
    if from < 0 || from >= ranges.len() {
        None
    } else if error_at(ranges, from) is Some {
        error_at(ranges, from)
    } else {
        error_from(ranges, from + 1)
    }
}

/// What is wrong with ranges, if anything is.
pub open spec fn ranges_error(ranges: Seq<CacheControlRange>) -> Option<CacheControlError> {
    if ranges.len() == 0 {
        Some(CacheControlError::NoRanges)
    } else if ranges[0].start != 0 {
        Some(CacheControlError::NotFromZero)
    } else {
        error_from(ranges, 0)
    }
}

/// Ranges start at 0, follow one another without a gap, fall in tier, and only the last is
/// open.
pub fn validate_cache_control_ranges(ranges: &Vec<CacheControlRange>) -> (result: Result<
    (),
    CacheControlError,
>)
    ensures
        result matches Err(error) ==> ranges_error(ranges@) == Some(error),
        result is Ok ==> ranges_error(ranges@) is None,
{
    if ranges.len() == 0 {
        return Err(CacheControlError::NoRanges);
    }
    if ranges[0].start != 0 {
        return Err(CacheControlError::NotFromZero);
    }
    for i in 0..ranges.len()
        invariant
            ranges@.len() > 0,
            ranges@[0].start == 0,
            error_from(ranges@, 0) == error_from(ranges@, i as int),
            i > 0 ==> ranges@[i - 1].end is Some || i == ranges@.len(),
    {
        let range = ranges[i];
        if let Some(end) = range.end {
            if end <= range.start {
                return Err(CacheControlError::VoidRange);
            }
        }
        let is_last = i == ranges.len() - 1;
        if is_last && range.end.is_some() {
            return Err(CacheControlError::LastNotOpen);
        }
        if !is_last && range.end.is_none() {
            return Err(CacheControlError::OpenBeforeLast);
        }
        if i > 0 {
            if let Some(expected_start) = ranges[i - 1].end {
                if range.start != expected_start {
                    return Err(CacheControlError::NotAdjacent);
                }
            }
            if range.tier.is_above(&ranges[i - 1].tier) {
                return Err(CacheControlError::TierRises);
            }
        }
    }
    Ok(())
}

/// The extensions of a request.
pub struct BasetenExt {
    pub cache_control: Option<Vec<CacheControlRange>>,
    pub decode_cache_control: Option<DecodeCacheControl>,
    pub baseten: Option<serde_json::Value>,
    pub dynamic_temperature: Option<DynamicTemperatureMap>,
    pub priority: Option<serde_json::Value>,
    pub thinking: Option<Thinking>,
    pub reasoning: Option<serde_json::Value>,
}

impl Default for BasetenExt {
    fn default() -> (ext: BasetenExt)
        ensures
            ext.nothing_set(),
    {
        BasetenExt {
            cache_control: None,
            decode_cache_control: None,
            baseten: None,
            dynamic_temperature: None,
            priority: None,
            thinking: None,
            reasoning: None,
        }
    }
}

/// The tier that what was generated may have at most: that of the end of the prompt.
pub open spec fn last_tier(cache_control: Option<Vec<CacheControlRange>>) -> CacheControlTier {
    match cache_control {
        Some(ranges) if ranges@.len() > 0 => ranges@.last().tier,
        _ => CacheControlTier::Standard,
    }
}

impl BasetenExt {
    /// Whether there is no extension.
    pub open spec fn nothing_set(self) -> bool {
        &&& self.cache_control is None
        &&& self.decode_cache_control is None
        &&& self.baseten is None
        &&& self.dynamic_temperature is None
        &&& self.priority is None
        &&& self.thinking is None
        &&& self.reasoning is None
    }

    /// Whether there is no extension.
    pub fn is_empty(&self) -> (empty: bool)
        ensures
            empty == self.nothing_set(),
    {
        self.cache_control.is_none() && self.decode_cache_control.is_none()
            && self.baseten.is_none() && self.dynamic_temperature.is_none()
            && self.priority.is_none() && self.thinking.is_none() && self.reasoning.is_none()
    }

    /// What is wrong with the extensions, if anything is.
    pub open spec fn error(self) -> Option<CacheControlError> {
        if self.cache_control matches Some(ranges) && ranges_error(ranges@) is Some {
            ranges_error(self.cache_control->0@)
        } else if self.decode_cache_control matches Some(decode) && decode.tier.rank() > last_tier(
            self.cache_control,
        ).rank() {
            Some(CacheControlError::DecodeTierTooHigh)
        } else {
            None
        }
    }

    /// The ranges have to be in order, and what was generated may not be worth more than the
    /// end of the prompt.
    pub fn validate_request(&self) -> (result: Result<(), CacheControlError>)
        ensures
            result matches Err(error) ==> self.error() == Some(error),
            result is Ok ==> self.error() is None,
    {
        let mut last = CacheControlTier::Standard;
        if let Some(ranges) = &self.cache_control {
            match validate_cache_control_ranges(ranges) {
                Err(error) => {
                    return Err(error);
                },
                Ok(()) => {},
            }
            if ranges.len() > 0 {
                last = ranges[ranges.len() - 1].tier;
            }
        }
        if let Some(decode) = &self.decode_cache_control {
            if decode.tier.is_above(&last) {
                return Err(CacheControlError::DecodeTierTooHigh);
            }
        }
        Ok(())
    }
}

/// Builds extensions one by one.
pub struct BasetenExtBuilder {
    ext: BasetenExt,
}

impl BasetenExtBuilder {
    /// The extensions so far.
    pub closed spec fn so_far(self) -> BasetenExt {
        self.ext
    }

    /// Sets the cache control of the prompt.
    pub fn cache_control(self, ranges: Vec<CacheControlRange>) -> (builder: BasetenExtBuilder)
        ensures
            builder.so_far() == (BasetenExt { cache_control: Some(ranges), ..self.so_far() }),
    {
        BasetenExtBuilder { ext: BasetenExt { cache_control: Some(ranges), ..self.ext } }
    }

    /// Sets the cache control of the answer.
    pub fn decode_cache_control(self, decode: DecodeCacheControl) -> (builder: BasetenExtBuilder)
        ensures
            builder.so_far() == (BasetenExt {
                decode_cache_control: Some(decode),
                ..self.so_far()
            }),
    {
        BasetenExtBuilder { ext: BasetenExt { decode_cache_control: Some(decode), ..self.ext } }
    }

    /// Sets what is handed on to the platform.
    pub fn baseten(self, value: serde_json::Value) -> (builder: BasetenExtBuilder)
        ensures
            builder.so_far() == (BasetenExt { baseten: Some(value), ..self.so_far() }),
    {
        BasetenExtBuilder { ext: BasetenExt { baseten: Some(value), ..self.ext } }
    }

    /// Sets the temperatures.
    pub fn dynamic_temperature(self, map: DynamicTemperatureMap) -> (builder: BasetenExtBuilder)
        ensures
            builder.so_far() == (BasetenExt { dynamic_temperature: Some(map), ..self.so_far() }),
    {
        BasetenExtBuilder { ext: BasetenExt { dynamic_temperature: Some(map), ..self.ext } }
    }

    /// Sets the priority.
    pub fn priority(self, value: serde_json::Value) -> (builder: BasetenExtBuilder)
        ensures
            builder.so_far() == (BasetenExt { priority: Some(value), ..self.so_far() }),
    {
        BasetenExtBuilder { ext: BasetenExt { priority: Some(value), ..self.ext } }
    }

    /// Sets whether the model is to think.
    pub fn thinking(self, thinking: Thinking) -> (builder: BasetenExtBuilder)
        ensures
            builder.so_far() == (BasetenExt { thinking: Some(thinking), ..self.so_far() }),
    {
        BasetenExtBuilder { ext: BasetenExt { thinking: Some(thinking), ..self.ext } }
    }

    /// Sets how the model is to reason.
    pub fn reasoning(self, value: serde_json::Value) -> (builder: BasetenExtBuilder)
        ensures
            builder.so_far() == (BasetenExt { reasoning: Some(value), ..self.so_far() }),
    {
        BasetenExtBuilder { ext: BasetenExt { reasoning: Some(value), ..self.ext } }
    }

    /// The extensions.
    pub fn build(self) -> (ext: BasetenExt)
        ensures
            ext == self.so_far(),
    {
        self.ext
    }
}

impl BasetenExt {
    /// A builder without any extension.
    pub fn builder() -> (builder: BasetenExtBuilder)
        ensures
            builder.so_far().nothing_set(),
    {
        BasetenExtBuilder { ext: BasetenExt::default() }
    }
}

/// Something that may carry extensions.
pub trait BasetenExtProvider {
    /// The extensions.
    spec fn ext(&self) -> Option<BasetenExt>;

    /// The extensions.
    fn baseten_ext(&self) -> (ext: Option<&BasetenExt>)
        ensures
            ext matches Some(found) ==> self.ext() == Some(*found),
            ext is None ==> self.ext() is None,
    ;

    /// The cache control of the prompt.
    fn get_cache_control(&self) -> (ranges: Option<&Vec<CacheControlRange>>)
        ensures
            ranges matches Some(found) ==> (self.ext() matches Some(ext) && ext.cache_control
                == Some(*found)),
            ranges is None ==> !(self.ext() matches Some(ext) && ext.cache_control is Some),
    {
        match self.baseten_ext() {
            Some(ext) => ext.cache_control.as_ref(),
            None => None,
        }
    }

    /// The cache control of the answer.
    fn get_decode_cache_control(&self) -> (decode: Option<&DecodeCacheControl>)
        ensures
            decode matches Some(found) ==> (self.ext() matches Some(ext)
                && ext.decode_cache_control == Some(*found)),
            decode is None ==> !(self.ext() matches Some(ext) && ext.decode_cache_control is Some),
    {
        match self.baseten_ext() {
            Some(ext) => ext.decode_cache_control.as_ref(),
            None => None,
        }
    }

    /// What is handed on to the platform.
    fn get_baseten(&self) -> (value: Option<&serde_json::Value>)
        ensures
            value matches Some(found) ==> (self.ext() matches Some(ext) && ext.baseten == Some(
                *found,
            )),
            value is None ==> !(self.ext() matches Some(ext) && ext.baseten is Some),
    {
        match self.baseten_ext() {
            Some(ext) => ext.baseten.as_ref(),
            None => None,
        }
    }

    /// The temperatures.
    fn get_dynamic_temperature(&self) -> (map: Option<&DynamicTemperatureMap>)
        ensures
            map matches Some(found) ==> (self.ext() matches Some(ext) && ext.dynamic_temperature
                == Some(*found)),
            map is None ==> !(self.ext() matches Some(ext) && ext.dynamic_temperature is Some),
    {
        match self.baseten_ext() {
            Some(ext) => ext.dynamic_temperature.as_ref(),
            None => None,
        }
    }

    /// The priority.
    fn get_priority(&self) -> (value: Option<&serde_json::Value>)
        ensures
            value matches Some(found) ==> (self.ext() matches Some(ext) && ext.priority == Some(
                *found,
            )),
            value is None ==> !(self.ext() matches Some(ext) && ext.priority is Some),
    {
        match self.baseten_ext() {
            Some(ext) => ext.priority.as_ref(),
            None => None,
        }
    }

    /// Whether the model is to think.
    fn get_thinking(&self) -> (thinking: Option<&Thinking>)
        ensures
            thinking matches Some(found) ==> (self.ext() matches Some(ext) && ext.thinking == Some(
                *found,
            )),
            thinking is None ==> !(self.ext() matches Some(ext) && ext.thinking is Some),
    {
        match self.baseten_ext() {
            Some(ext) => ext.thinking.as_ref(),
            None => None,
        }
    }
}

/// What is wrong with the extensions of a request, if anything is.
pub fn validate_request_fields(baseten_ext: &BasetenExt) -> (result: Result<(), CacheControlError>)
    ensures
        result matches Err(error) ==> baseten_ext.error() == Some(error),
        result is Ok ==> baseten_ext.error() is None,
{
    baseten_ext.validate_request()
}

proof fn lemma_error_from(ranges: Seq<CacheControlRange>, from: int, i: int)
    requires
        error_from(ranges, from) is None,
        0 <= from <= i < ranges.len(),
    ensures
        error_at(ranges, i) is None,
    decreases i - from,
{
    if from < i {
        lemma_error_from(ranges, from + 1, i);
    }
}

/// Ranges that are accepted divide the tokens among them: every token is in exactly one.
pub proof fn law_valid_ranges_divide_the_tokens(ranges: Seq<CacheControlRange>, token: int)
    requires
        ranges_error(ranges) is None,
        token >= 0,
    ensures
        exists|i: int| 0 <= i < ranges.len() && (#[trigger] ranges[i]).contains(token),
        forall|i: int, j: int|
            0 <= i < j < ranges.len() && (#[trigger] ranges[i]).contains(token) ==> !(
            #[trigger] ranges[j]).contains(token),
{
    assert forall|i: int| 0 <= i < ranges.len() implies error_at(ranges, i) is None by {
        lemma_error_from(ranges, 0, i);
    }
    assert(error_at(ranges, ranges.len() - 1) is None);
    lemma_some_range(ranges, token, ranges.len() - 1);
    assert forall|i: int, j: int|
        0 <= i < j < ranges.len() && (#[trigger] ranges[i]).contains(token) implies !(
    #[trigger] ranges[j]).contains(token) by {
        lemma_starts_rise(ranges, i, j);
    }
}

/// A token before the end of the range at position `i`, or any where it is open, is in one of
/// the ranges up to there.
proof fn lemma_some_range(ranges: Seq<CacheControlRange>, token: int, i: int)
    requires
        0 <= i < ranges.len(),
        ranges[0].start == 0,
        forall|k: int| 0 <= k < ranges.len() ==> error_at(ranges, k) is None,
        token >= 0,
        ranges[i].end matches Some(end) ==> token < end,
    ensures
        exists|k: int| 0 <= k <= i && (#[trigger] ranges[k]).contains(token),
    decreases i,
{
    assert(error_at(ranges, i) is None);
    if ranges[i].start <= token {
        assert(ranges[i].contains(token));
    } else {
        assert(i > 0);
        assert(ranges[i - 1].end == Some(ranges[i].start));
        lemma_some_range(ranges, token, i - 1);
    }
}

proof fn lemma_starts_rise(ranges: Seq<CacheControlRange>, i: int, j: int)
    requires
        0 <= i < j < ranges.len(),
        forall|k: int| 0 <= k < ranges.len() ==> error_at(ranges, k) is None,
    ensures
        ranges[i].end matches Some(end) && end <= ranges[j].start,
    decreases j - i,
{
    assert(error_at(ranges, j) is None);
    assert(error_at(ranges, i) is None);
    if i + 1 < j {
        lemma_starts_rise(ranges, i, j - 1);
        assert(error_at(ranges, j - 1) is None);
    }
}

/// Whether some range of the given tier holds a token.
pub open spec fn has_tier(
    ranges: Seq<CacheControlRange>,
    token: int,
    tier: CacheControlTier,
) -> bool {
    exists|i: int|
        0 <= i < ranges.len() && (#[trigger] ranges[i]).contains(token) && ranges[i].tier == tier
}

/// Merging changes the tier of no token, where no range ends before it starts.
pub proof fn law_merging_keeps_tiers(
    ranges: Seq<CacheControlRange>,
    token: int,
    tier: CacheControlTier,
)
    requires
        forall|i: int| 0 <= i < ranges.len() ==> !(#[trigger] ranges[i]).is_reversed(),
    ensures
        has_tier(merged(ranges), token, tier) == has_tier(ranges, token, tier),
        forall|i: int| 0 <= i < merged(ranges).len() ==> !(#[trigger] merged(ranges)[i]).is_reversed(),
    decreases ranges.len(),
{
    if ranges.len() > 0 {
        let before = ranges.drop_last();
        let range = ranges.last();
        assert forall|i: int| 0 <= i < before.len() implies !(#[trigger] before[i]).is_reversed() by {
            assert(before[i] == ranges[i]);
        }
        law_merging_keeps_tiers(before, token, tier);
        let base = merged(before);
        let after = merged(ranges);
        assert(after == with_range(base, range));
        assert(!range.is_reversed());
        assert(has_tier(ranges, token, tier) == (has_tier(before, token, tier) || (range.contains(
            token,
        ) && range.tier == tier))) by {
            if has_tier(before, token, tier) {
                let i = choose|i: int|
                    0 <= i < before.len() && (#[trigger] before[i]).contains(token)
                        && before[i].tier == tier;
                assert(ranges[i].contains(token));
            }
            if has_tier(ranges, token, tier) {
                let i = choose|i: int|
                    0 <= i < ranges.len() && (#[trigger] ranges[i]).contains(token)
                        && ranges[i].tier == tier;
                if i < before.len() {
                    assert(before[i].contains(token));
                }
            }
            assert(ranges[ranges.len() - 1] == range);
        }
        lemma_with_range(base, range, token, tier);
    }
}

proof fn lemma_with_range(
    base: Seq<CacheControlRange>,
    range: CacheControlRange,
    token: int,
    tier: CacheControlTier,
)
    requires
        forall|i: int| 0 <= i < base.len() ==> !(#[trigger] base[i]).is_reversed(),
        !range.is_reversed(),
    ensures
        has_tier(with_range(base, range), token, tier) == (has_tier(base, token, tier) || (
        range.contains(token) && range.tier == tier)),
        forall|i: int|
            0 <= i < with_range(base, range).len() ==> !(#[trigger] with_range(
                base,
                range,
            )[i]).is_reversed(),
{
    let after = with_range(base, range);
    let last = base.len() - 1;
    if has_tier(base, token, tier) {
        let i = choose|i: int|
            0 <= i < base.len() && (#[trigger] base[i]).contains(token) && base[i].tier == tier;
        assert(after[i].contains(token) && after[i].tier == tier);
    }
    if range.contains(token) && range.tier == tier {
        assert(after.last().contains(token));
        assert(after[after.len() - 1].tier == tier);
    }
    if has_tier(after, token, tier) {
        let i = choose|i: int|
            0 <= i < after.len() && (#[trigger] after[i]).contains(token) && after[i].tier == tier;
        if i < last || (i == last && !continues(base.last(), range)) {
            assert(base[i].contains(token));
        } else if i == last {
            if base[last].contains(token) {
                assert(base[last].tier == tier);
            }
        }
    }
}

/// Merging leaves nothing to merge.
pub proof fn law_merging_is_complete(ranges: Seq<CacheControlRange>)
    ensures
        forall|i: int|
            0 < i < merged(ranges).len() ==> !continues(
                merged(ranges)[i - 1],
                #[trigger] merged(ranges)[i],
            ),
        merged(merged(ranges)) == merged(ranges),
    decreases ranges.len(),
{
    lemma_nothing_continues(ranges);
    lemma_merged_fixed(merged(ranges));
}

proof fn lemma_nothing_continues(ranges: Seq<CacheControlRange>)
    ensures
        forall|i: int|
            0 < i < merged(ranges).len() ==> !continues(
                merged(ranges)[i - 1],
                #[trigger] merged(ranges)[i],
            ),
    decreases ranges.len(),
{
    if ranges.len() > 0 {
        let base = merged(ranges.drop_last());
        lemma_nothing_continues(ranges.drop_last());
        let after = merged(ranges);
        assert forall|i: int| 0 < i < after.len() implies !continues(
            after[i - 1],
            #[trigger] after[i],
        ) by {
            if i < base.len() {
                assert(!continues(base[i - 1], base[i]));
            }
        }
    }
}

proof fn lemma_merged_fixed(ranges: Seq<CacheControlRange>)
    requires
        forall|i: int| 0 < i < ranges.len() ==> !continues(ranges[i - 1], #[trigger] ranges[i]),
    ensures
        merged(ranges) == ranges,
    decreases ranges.len(),
{
    if ranges.len() > 0 {
        let before = ranges.drop_last();
        assert forall|i: int| 0 < i < before.len() implies !continues(
            before[i - 1],
            #[trigger] before[i],
        ) by {
            assert(before[i] == ranges[i]);
            assert(before[i - 1] == ranges[i - 1]);
        }
        lemma_merged_fixed(before);
        if before.len() > 0 {
            assert(!continues(ranges[ranges.len() - 2], ranges[ranges.len() - 1]));
        }
        assert(before.push(ranges.last()) =~= ranges);
    } else {
        assert(ranges =~= seq![]);
    }
}

/// Whether the range at position `i` starts where the one before it ends, in a lower tier.
pub open spec fn steps_down(ranges: Seq<CacheControlRange>, i: int) -> bool {
    ranges[i - 1].end == Some(ranges[i].start) && ranges[i].tier.rank() < ranges[i - 1].tier.rank()
}

/// Ranges that are accepted are accepted after merging too. Their tiers then fall from each to
/// the next, and merging again changes nothing.
pub proof fn law_merging_accepted_ranges_gives_accepted_ranges(ranges: Seq<CacheControlRange>)
    requires
        ranges_error(ranges) is None,
    ensures
        ranges_error(merged(ranges)) is None,
        forall|i: int| 0 < i < merged(ranges).len() ==> #[trigger] steps_down(merged(ranges), i),
        merged(merged(ranges)) == merged(ranges),
{
    assert forall|i: int| 0 <= i < ranges.len() implies error_at(ranges, i) is None by {
        lemma_error_from(ranges, 0, i);
    }
    let all = merged(ranges);
    assert(ranges.take(ranges.len() as int) =~= ranges);
    lemma_merged_steps_down(ranges, ranges.len() as int);
    assert(error_at(ranges, ranges.len() - 1) is None);
    assert forall|i: int| 0 <= i < all.len() implies error_at(all, i) is None by {
        if i > 0 {
            assert(steps_down(all, i));
        }
        if i + 1 < all.len() {
            assert(steps_down(all, i + 1));
        }
    }
    lemma_no_error_from(all, 0);
    law_merging_is_complete(ranges);
}

proof fn lemma_no_error_from(ranges: Seq<CacheControlRange>, from: int)
    requires
        0 <= from,
        forall|i: int| 0 <= i < ranges.len() ==> error_at(ranges, i) is None,
    ensures
        error_from(ranges, from) is None,
    decreases ranges.len() - from,
{
    if from < ranges.len() {
        assert(error_at(ranges, from) is None);
        lemma_no_error_from(ranges, from + 1);
    }
}

/// The first `count` of ranges that are accepted, merged: they step down, and end as they did.
proof fn lemma_merged_steps_down(ranges: Seq<CacheControlRange>, count: int)
    requires
        0 < count <= ranges.len(),
        ranges[0].start == 0,
        forall|i: int| 0 <= i < ranges.len() ==> error_at(ranges, i) is None,
    ensures
        ({
            let all = merged(ranges.take(count));
            &&& all.len() > 0
            &&& all[0].start == 0
            &&& all.last().end == ranges[count - 1].end
            &&& all.last().tier == ranges[count - 1].tier
            &&& forall|i: int| 0 <= i < all.len() ==> !(#[trigger] all[i]).is_void()
            &&& forall|i: int| 0 < i < all.len() ==> #[trigger] steps_down(all, i)
        }),
    decreases count,
{
    let part = ranges.take(count);
    let range = ranges[count - 1];
    let all = merged(part);
    let base = merged(part.drop_last());
    assert(error_at(ranges, count - 1) is None);
    assert(all == with_range(base, range));
    if count == 1 {
        assert(part.drop_last() =~= seq![]);
        assert(all =~= seq![range]);
    } else {
        assert(part.drop_last() =~= ranges.take(count - 1));
        lemma_merged_steps_down(ranges, count - 1);
        assert(error_at(ranges, count - 2) is None);
        assert forall|i: int| 0 <= i < all.len() implies !(#[trigger] all[i]).is_void() by {
            if i < base.len() {
                assert(!base[i].is_void());
            }
        }
        assert forall|i: int| 0 < i < all.len() implies #[trigger] steps_down(all, i) by {
            if i < base.len() {
                assert(steps_down(base, i));
            }
        }
    }
}

} // verus!
