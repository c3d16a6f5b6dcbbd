//! Choosing an audio output.

use crate::text;
use vstd::prelude::*;
use vstd::string::*;

verus! {

// ---------------------------------------------------------------------------
// Choosing the device
// ---------------------------------------------------------------------------

/// An audio output: the one that the system prefers, or one of a list.
#[derive(Clone, Copy, Debug, PartialEq, Eq, Structural)]
pub enum OutputDevice {
    Default,
    Listed(usize),
}

/// The device has a name, and `part` stands in it.
pub open spec fn name_has(name: Option<String>, part: Seq<char>) -> bool {
    name matches Some(n) && text::has_part(n@, part)
}

/// `i` is the first device whose name has the part.
pub open spec fn is_first_named(names: Seq<Option<String>>, part: Seq<char>, i: int) -> bool {
    &&& 0 <= i < names.len()
    &&& name_has(names[i], part)
    &&& forall|j: int| 0 <= j < i ==> !name_has(#[trigger] names[j], part)
}

/// The first device whose name has the part. Devices may be without name.
pub fn first_match(names: &Vec<Option<String>>, part: &str) -> (r: Option<usize>)
    ensures
        r matches Some(i) ==> is_first_named(names@, part@, i as int),
        r is None ==> forall|j: int|
            0 <= j < names@.len() ==> !name_has(#[trigger] names@[j], part@),
{
    let needle: Vec<char> = text::chars_of(part);
    let mut i: usize = 0;
    while i < names.len()
        invariant
            i <= names@.len(),
            needle@ == part@,
            forall|j: int| 0 <= j < i ==> !name_has(#[trigger] names@[j], part@),
        decreases names@.len() - i,
    {
        if let Some(name) = &names[i] {
            let hay: Vec<char> = text::chars_of(name.as_str());
            if text::contains(&hay, &needle) {
                return Some(i);
            }
        }
        i = i + 1;
    }
    None
}

/// The names in lower case.
pub open spec fn lowered(names: Seq<Option<String>>, low: Seq<Option<String>>) -> bool {
    &&& low.len() == names.len()
    &&& forall|i: int|
        0 <= i < names.len() ==> match #[trigger] names[i] {
            Some(n) => low[i] matches Some(l) && l@ == text::lowercase(n@),
            None => low[i] is None,
        }
}

/// The name fits a filter: lower-case forms are compared.
pub open spec fn fits_filter(name: Option<String>, filter: Seq<char>) -> bool {
    name matches Some(n) && text::has_part(text::lowercase(n@), text::lowercase(filter))
}

/// The message for a filter that no device fits.
pub open spec fn no_match_message(filter: Seq<char>) -> Seq<char> {
    "No audio output device matching '"@ + filter + "'"@
}

/// Chooses the output: the first device whose name has the filter in it, upper
/// and lower case being the same, or the default device where no filter is
/// given.
pub fn pick_output_device(
    name_filter: Option<&str>,
    names: &Vec<Option<String>>,
    has_default: bool,
) -> (r: Result<OutputDevice, String>)
    ensures
        name_filter is None && has_default ==> r == Ok::<OutputDevice, String>(
            OutputDevice::Default,
        ),
        name_filter is None && !has_default ==> (r matches Err(e) && e@
            == "No default audio output device"@),
        name_filter matches Some(filter) ==> match r {
            Ok(OutputDevice::Listed(i)) => {
                &&& i < names@.len()
                &&& fits_filter(names@[i as int], filter@)
                &&& forall|j: int| 0 <= j < i ==> !fits_filter(#[trigger] names@[j], filter@)
            },
            Ok(OutputDevice::Default) => false,
            Err(e) => {
                &&& e@ == no_match_message(filter@)
                &&& forall|j: int|
                    0 <= j < names@.len() ==> !fits_filter(#[trigger] names@[j], filter@)
            },
        },
{
    match name_filter {
        Some(filter) => {
            let low: Vec<Option<String>> = lower_names(names);
            let part: String = filter.to_lowercase();
            assert forall|j: int| 0 <= j < names@.len() implies name_has(low@[j], part@)
                == fits_filter(#[trigger] names@[j], filter@) by {}
            match first_match(&low, part.as_str()) {
                Some(i) => {
                    assert forall|j: int| 0 <= j < i implies !fits_filter(
                        #[trigger] names@[j],
                        filter@,
                    ) by {
                        assert(!name_has(low@[j], part@));
                    }
                    assert(name_has(low@[i as int], part@));
                    assert(fits_filter(names@[i as int], filter@));
                    Ok(OutputDevice::Listed(i))
                },
                None => {
                    assert forall|j: int| 0 <= j < names@.len() implies !fits_filter(
                        #[trigger] names@[j],
                        filter@,
                    ) by {
                        assert(!name_has(low@[j], part@));
                    }
                    let mut message: String = "No audio output device matching '".to_owned();
                    message.append(filter);
                    message.append("'");
                    Err(message)
                },
            }
        },
        None => if has_default {
            Ok(OutputDevice::Default)
        } else {
            Err("No default audio output device".to_owned())
        },
    }
}

fn lower_names(names: &Vec<Option<String>>) -> (low: Vec<Option<String>>)
    ensures
        lowered(names@, low@),
{
    let mut low: Vec<Option<String>> = Vec::with_capacity(names.len());
    let mut i: usize = 0;
    while i < names.len()
        invariant
            i <= names@.len(),
            low@.len() == i,
            forall|k: int|
                0 <= k < i ==> match #[trigger] names@[k] {
                    Some(n) => low@[k] matches Some(l) && l@ == text::lowercase(n@),
                    None => low@[k] is None,
                },
        decreases names@.len() - i,
    {
        let entry: Option<String> = match &names[i] {
            Some(name) => Some(name.as_str().to_lowercase()),
            None => None,
        };
        low.push(entry);
        i = i + 1;
    }
    low
}

// ---------------------------------------------------------------------------
// Choosing the format
// ---------------------------------------------------------------------------

/// The types of samples that devices take.
#[derive(Clone, Copy, Debug, PartialEq, Eq, Structural)]
pub enum SampleFormat {
    I8,
    I16,
    I32,
    U8,
    U16,
    Float32,
    Float64,
    Other,
}

/// A range of rates that a device takes in one format.
#[derive(Clone, Copy, Debug, PartialEq, Eq, Structural)]
pub struct OutputConfig {
    pub min_rate: u32,
    pub max_rate: u32,
    pub format: SampleFormat,
}

/// The range holds the rate.
pub open spec fn covers(config: OutputConfig, rate: int) -> bool {
    config.min_rate <= rate <= config.max_rate
}

/// Some range holds the rate.
pub open spec fn rate_supported(configs: Seq<OutputConfig>, rate: int) -> bool {
    exists|i: int| 0 <= i < configs.len() && covers(#[trigger] configs[i], rate)
}

/// The rate that is chosen: the wanted one where the device takes it, else the
/// highest of 192, 96, 48 and 44.1 kHz that it takes.
pub open spec fn preferred_rate(configs: Seq<OutputConfig>, target: u32) -> Option<u32> {
    if rate_supported(configs, target as int) {
        Some(target)
    } else if rate_supported(configs, 192_000) {
        Some(192_000u32)
    } else if rate_supported(configs, 96_000) {
        Some(96_000u32)
    } else if rate_supported(configs, 48_000) {
        Some(48_000u32)
    } else if rate_supported(configs, 44_100) {
        Some(44_100u32)
    } else {
        None
    }
}

fn supports(configs: &Vec<OutputConfig>, rate: u32) -> (r: bool)
    ensures
        r == rate_supported(configs@, rate as int),
{
    let mut i: usize = 0;
    while i < configs.len()
        invariant
            i <= configs@.len(),
            forall|j: int| 0 <= j < i ==> !covers(#[trigger] configs@[j], rate as int),
        decreases configs@.len() - i,
    {
        if configs[i].min_rate <= rate && rate <= configs[i].max_rate {
            assert(covers(configs@[i as int], rate as int));
            return true;
        }
        i = i + 1;
    }
    false
}

/// Chooses the rate. Where the device takes none of the preferred ones, its own
/// default is left.
pub fn pick_sample_rate(configs: &Vec<OutputConfig>, target: u32) -> (r: Option<u32>)
    ensures
        r == preferred_rate(configs@, target),
{
    if supports(configs, target) {
        Some(target)
    } else if supports(configs, 192_000) {
        Some(192_000)
    } else if supports(configs, 96_000) {
        Some(96_000)
    } else if supports(configs, 48_000) {
        Some(48_000)
    } else if supports(configs, 44_100) {
        Some(44_100)
    } else {
        None
    }
}

/// The rates that stand in for a wanted one.
pub open spec fn is_listed_rate(rate: int) -> bool {
    rate == 192_000 || rate == 96_000 || rate == 48_000 || rate == 44_100
}

/// The rate that is chosen is one that the device takes, and the wanted one
/// wherever the device takes it. Otherwise it is the best of the listed ones: the
/// device takes none of them that is higher. There is none only where the device
/// takes neither the wanted rate nor a listed one.
pub proof fn lemma_preferred_rate(configs: Seq<OutputConfig>, target: u32)
    ensures
        preferred_rate(configs, target) matches Some(rate) ==> rate_supported(configs, rate as int),
        rate_supported(configs, target as int) ==> preferred_rate(configs, target) == Some(target),
        !rate_supported(configs, target as int) ==> match preferred_rate(configs, target) {
            Some(rate) => is_listed_rate(rate as int) && forall|other: int|
                is_listed_rate(other) && #[trigger] rate_supported(configs, other) ==> other <= rate,
            None => forall|other: int|
                is_listed_rate(other) ==> !#[trigger] rate_supported(configs, other),
        },
{
}

/// What is said about a rate that falls short of the wanted one.
pub open spec fn short_rate_text(rate: u32, target: u32) -> Seq<char> {
    "Warning: device supports max "@ + text::decimal(rate as nat) + " Hz (requested "@
        + text::decimal(target as nat) + " Hz). Playback will be resampled."@
}

/// The warning for a device that does not reach the wanted rate.
pub fn rate_warning(rate: u32, target: u32) -> (r: Option<String>)
    ensures
        r is Some <==> rate < target,
        r matches Some(line) ==> line@ == short_rate_text(rate, target),
{
    if rate >= target {
        return None;
    }
    let mut line: String = "Warning: device supports max ".to_owned();
    text::push_decimal(&mut line, rate as u64);
    line.append(" Hz (requested ");
    text::push_decimal(&mut line, target as u64);
    line.append(" Hz). Playback will be resampled.");
    Some(line)
}

/// What is said about the way from the demodulator to the device.
pub open spec fn demod_rate_text(input_rate: u32, device_rate: u32) -> Seq<char> {
    if input_rate == device_rate {
        "Demod output: "@ + text::decimal(input_rate as nat) + " Hz (no resampling needed)"@
    } else {
        "Demod output: "@ + text::decimal(input_rate as nat) + " Hz -> resampled to "@
            + text::decimal(device_rate as nat) + " Hz for playback"@
    }
}

/// Describes the way from the demodulator to the device.
pub fn describe_demod_rate(input_rate: u32, device_rate: u32) -> (r: String)
    ensures
        r@ == demod_rate_text(input_rate, device_rate),
{
    let mut line: String = "Demod output: ".to_owned();
    text::push_decimal(&mut line, input_rate as u64);
    if input_rate == device_rate {
        line.append(" Hz (no resampling needed)");
    } else {
        line.append(" Hz -> resampled to ");
        text::push_decimal(&mut line, device_rate as u64);
        line.append(" Hz for playback");
    }
    line
}

/// Formats by preference: the lower the better. Formats that are not written
/// have no rank.
pub open spec fn rank(format: SampleFormat) -> Option<u8> {
    match format {
        SampleFormat::Float32 => Some(0u8),
        SampleFormat::I16 => Some(1u8),
        SampleFormat::U16 => Some(2u8),
        SampleFormat::I32 => Some(3u8),
        SampleFormat::Float64 => Some(4u8),
        SampleFormat::I8 => Some(5u8),
        SampleFormat::U8 => Some(6u8),
        SampleFormat::Other => None,
    }
}

/// The rank of a format.
pub fn format_rank(format: SampleFormat) -> (r: Option<u8>)
    ensures
        r == rank(format),
{
    match format {
        SampleFormat::Float32 => Some(0),
        SampleFormat::I16 => Some(1),
        SampleFormat::U16 => Some(2),
        SampleFormat::I32 => Some(3),
        SampleFormat::Float64 => Some(4),
        SampleFormat::I8 => Some(5),
        SampleFormat::U8 => Some(6),
        SampleFormat::Other => None,
    }
}

/// The configuration takes the rate, in a format that is written.
pub open spec fn usable(config: OutputConfig, rate: int) -> bool {
    covers(config, rate) && rank(config.format) is Some
}

/// `i` is the first usable configuration of the best rank.
pub open spec fn is_best_config(configs: Seq<OutputConfig>, rate: int, i: int) -> bool {
    &&& 0 <= i < configs.len()
    &&& usable(configs[i], rate)
    &&& forall|j: int|
        0 <= j < configs.len() && usable(#[trigger] configs[j], rate) ==> {
            &&& rank(configs[i].format)->0 <= rank(configs[j].format)->0
            &&& j < i ==> rank(configs[i].format)->0 < rank(configs[j].format)->0
        }
}

/// Chooses the configuration for a rate.
pub fn pick_output_config(configs: &Vec<OutputConfig>, rate: u32) -> (r: Result<usize, String>)
    ensures
        match r {
            Ok(i) => is_best_config(configs@, rate as int, i as int),
            Err(e) => {
                &&& e@ == "No supported config for chosen sample rate"@
                &&& forall|j: int|
                    0 <= j < configs@.len() ==> !usable(#[trigger] configs@[j], rate as int)
            },
        },
{
    let mut best: Option<(usize, u8)> = None;
    let mut i: usize = 0;
    while i < configs.len()
        invariant
            i <= configs@.len(),
            match best {
                Some((b, best_rank)) => {
                    &&& b < i
                    &&& usable(configs@[b as int], rate as int)
                    &&& rank(configs@[b as int].format) == Some(best_rank)
                    &&& forall|j: int|
                        0 <= j < i && usable(#[trigger] configs@[j], rate as int) ==> {
                            &&& best_rank <= rank(configs@[j].format)->0
                            &&& j < b ==> best_rank < rank(configs@[j].format)->0
                        }
                },
                None => forall|j: int|
                    0 <= j < i ==> !usable(#[trigger] configs@[j], rate as int),
            },
        decreases configs@.len() - i,
    {
        let config: OutputConfig = configs[i];
        if config.min_rate <= rate && rate <= config.max_rate {
            if let Some(this_rank) = format_rank(config.format) {
                let better: bool = match best {
                    Some((_, best_rank)) => this_rank < best_rank,
                    None => true,
                };
                if better {
                    best = Some((i, this_rank));
                }
            }
        }
        i = i + 1;
    }
    match best {
        Some((b, _)) => Ok(b),
        None => Err("No supported config for chosen sample rate".to_owned()),
    }
}

/// The number of frames in a device buffer that is asked for where the device
/// leaves the choice.
pub const WANTED_BUFFER_FRAMES: u32 = 1024;

/// The wanted buffer size, brought into the range of the device.
pub fn buffer_frames(min: u32, max: u32) -> (r: u32)
    requires
        min <= max,
    ensures
        min <= r <= max,
        min <= WANTED_BUFFER_FRAMES <= max ==> r == WANTED_BUFFER_FRAMES,
        WANTED_BUFFER_FRAMES < min ==> r == min,
        WANTED_BUFFER_FRAMES > max ==> r == max,
{
    if WANTED_BUFFER_FRAMES < min {
        min
    } else if WANTED_BUFFER_FRAMES > max {
        max
    } else {
        WANTED_BUFFER_FRAMES
    }
}

// ---------------------------------------------------------------------------
// What is chosen and said
// ---------------------------------------------------------------------------

/// A name fits a filter where its lower-case form is something, the lower-case form
/// of the filter, and something. A device without a name fits none.
pub proof fn lemma_fits_filter(
    name: String,
    filter: Seq<char>,
    before: Seq<char>,
    after: Seq<char>,
)
    ensures
        text::lowercase(name@) == before + text::lowercase(filter) + after ==> fits_filter(
            Some(name),
            filter,
        ),
        fits_filter(Some(name), filter) ==> exists|i: int|
            0 <= i && i + text::lowercase(filter).len() <= text::lowercase(name@).len()
                && #[trigger] text::lowercase(name@).subrange(
                i,
                i + text::lowercase(filter).len(),
            ) == text::lowercase(filter),
        !fits_filter(None, filter),
{
    let hay = text::lowercase(name@);
    let part = text::lowercase(filter);
    text::lemma_has_part(before, part, after);
    if fits_filter(Some(name), filter) {
        let i = text::lemma_part_found(hay, part);
        assert(hay.subrange(i, i + part.len()) =~= part);
    }
}

/// The message for a filter that no device fits holds the filter between quotes.
pub proof fn lemma_no_match(filter: Seq<char>)
    ensures
        no_match_message(filter) == "No audio output device matching '"@ + filter + "'"@,
{
}

/// A range takes every rate from its lower to its upper end, both included, and no
/// other.
pub proof fn lemma_range_of_rates(config: OutputConfig, rate: int)
    ensures
        rate_supported(seq![config], rate) <==> config.min_rate <= rate && rate <= config.max_rate,
{
    assert(seq![config][0] == config);
}

/// More configurations take the rates of both lists, and an empty list takes none.
pub proof fn lemma_rates_of_both(a: Seq<OutputConfig>, b: Seq<OutputConfig>, rate: int)
    ensures
        rate_supported(a + b, rate) <==> rate_supported(a, rate) || rate_supported(b, rate),
        !rate_supported(seq![], rate),
{
    if rate_supported(a, rate) {
        let i = choose|i: int| 0 <= i < a.len() && covers(#[trigger] a[i], rate);
        assert((a + b)[i] == a[i]);
    }
    if rate_supported(b, rate) {
        let i = choose|i: int| 0 <= i < b.len() && covers(#[trigger] b[i], rate);
        assert((a + b)[a.len() + i] == b[i]);
    }
    if rate_supported(a + b, rate) {
        let i = choose|i: int| 0 <= i < (a + b).len() && covers(#[trigger] (a + b)[i], rate);
        if i < a.len() {
            assert(a[i] == (a + b)[i]);
        } else {
            assert(b[i - a.len()] == (a + b)[i]);
        }
    }
}

/// A device with one range of rates gets the wanted rate where it is in the range,
/// and otherwise the highest in the range of 192, 96, 48 and 44.1 kHz.
pub proof fn lemma_rate_in_range(config: OutputConfig, target: u32)
    requires
        config.min_rate <= config.max_rate,
    ensures
        ({
            let rate = preferred_rate(seq![config], target);
            let lo = config.min_rate;
            let hi = config.max_rate;
            &&& lo <= target <= hi ==> rate == Some(target)
            &&& !(lo <= target <= hi) && lo <= 192_000 <= hi ==> rate == Some(192_000u32)
            &&& !(lo <= target <= hi) && lo <= 96_000 <= hi < 192_000 ==> rate == Some(96_000u32)
            &&& !(lo <= target <= hi) && lo <= 48_000 <= hi < 96_000 ==> rate == Some(48_000u32)
            &&& !(lo <= target <= hi) && lo <= 44_100 <= hi < 48_000 ==> rate == Some(44_100u32)
            &&& !(lo <= target <= hi) && hi < 44_100 ==> rate is None
            &&& !(lo <= target <= hi) && lo > 192_000 ==> rate is None
        }),
{
    lemma_range_of_rates(config, target as int);
    lemma_range_of_rates(config, 192_000);
    lemma_range_of_rates(config, 96_000);
    lemma_range_of_rates(config, 48_000);
    lemma_range_of_rates(config, 44_100);
}

/// Samples are best written as floats of 32 bits, then as integers of 16 bits with
/// and without a sign, of 32 bits, as floats of 64 bits, as integers of 8 bits
/// with and without a sign, and in no other format.
pub proof fn lemma_format_order(a: SampleFormat, b: SampleFormat)
    ensures
        ({
            let order = seq![
                SampleFormat::Float32,
                SampleFormat::I16,
                SampleFormat::U16,
                SampleFormat::I32,
                SampleFormat::Float64,
                SampleFormat::I8,
                SampleFormat::U8,
            ];
            forall|i: int| 0 <= i < order.len() ==> rank(#[trigger] order[i]) == Some(i as u8)
        }),
        rank(SampleFormat::Other) is None,
        rank(a) == rank(b) ==> a == b,
{
    let order = seq![
        SampleFormat::Float32,
        SampleFormat::I16,
        SampleFormat::U16,
        SampleFormat::I32,
        SampleFormat::Float64,
        SampleFormat::I8,
        SampleFormat::U8,
    ];
    assert forall|i: int| 0 <= i < order.len() implies rank(#[trigger] order[i]) == Some(
        i as u8,
    ) by {
        assert(i == 0 || i == 1 || i == 2 || i == 3 || i == 4 || i == 5 || i == 6);
    }
}

/// A configuration is usable where its range holds the rate and its format is one
/// that is written, whatever the format.
pub proof fn lemma_usable(config: OutputConfig, rate: int)
    ensures
        usable(config, rate) <==> config.min_rate <= rate && rate <= config.max_rate
            && config.format != SampleFormat::Other,
{
}

/// There is one best configuration at most. A usable one is best by itself, and one
/// that is added at the end is best only where its rank is better than all
/// before.
pub proof fn lemma_best_config(
    configs: Seq<OutputConfig>,
    added: OutputConfig,
    rate: int,
    i: int,
    j: int,
)
    ensures
        is_best_config(configs, rate, i) && is_best_config(configs, rate, j) ==> i == j,
        is_best_config(seq![added], rate, 0) <==> added.min_rate <= rate && rate <= added.max_rate
            && added.format != SampleFormat::Other,
        is_best_config(configs, rate, i) && !usable(added, rate) ==> is_best_config(
            configs.push(added),
            rate,
            i,
        ),
        is_best_config(configs, rate, i) && usable(added, rate) && rank(configs[i].format)->0
            <= rank(added.format)->0 ==> is_best_config(configs.push(added), rate, i),
        is_best_config(configs, rate, i) && usable(added, rate) && rank(added.format)->0
            < rank(configs[i].format)->0 ==> is_best_config(
            configs.push(added),
            rate,
            configs.len() as int,
        ),
{
    assert(seq![added][0] == added);
    let more = configs.push(added);
    assert(more[configs.len() as int] == added);
    if is_best_config(configs, rate, i) {
        assert forall|k: int| 0 <= k < configs.len() implies more[k] == configs[k] by {}
        assert(usable(more[i], rate));
        if usable(added, rate) && rank(added.format)->0 < rank(configs[i].format)->0 {
            let last = configs.len() as int;
            assert forall|k: int| 0 <= k < more.len() && usable(#[trigger] more[k], rate) implies {
                &&& rank(more[last].format)->0 <= rank(more[k].format)->0
                &&& k < last ==> rank(more[last].format)->0 < rank(more[k].format)->0
            } by {
                if k < last {
                    assert(usable(configs[k], rate));
                }
            }
        }
        assert forall|k: int|
            0 <= k < more.len() && usable(#[trigger] more[k], rate) && (!usable(added, rate)
                || rank(configs[i].format)->0 <= rank(added.format)->0) implies {
            &&& rank(more[i].format)->0 <= rank(more[k].format)->0
            &&& k < i ==> rank(more[i].format)->0 < rank(more[k].format)->0
        } by {
            if k < configs.len() {
                assert(usable(configs[k], rate));
            }
        }
        if is_best_config(configs, rate, j) {
            assert(usable(configs[i], rate) && usable(configs[j], rate));
        }
    }
}

/// What is said of the rates names both of them, unless they are the same.
pub proof fn lemma_rate_lines(rate: u32, target: u32)
    ensures
        short_rate_text(rate, target) == "Warning: device supports max "@ + text::decimal(
            rate as nat,
        ) + " Hz (requested "@ + text::decimal(target as nat)
            + " Hz). Playback will be resampled."@,
        rate == target ==> demod_rate_text(rate, target) == "Demod output: "@ + text::decimal(
            rate as nat,
        ) + " Hz (no resampling needed)"@,
        rate != target ==> demod_rate_text(rate, target) == "Demod output: "@ + text::decimal(
            rate as nat,
        ) + " Hz -> resampled to "@ + text::decimal(target as nat) + " Hz for playback"@,
{
}

/// About 21 ms of audio at 48 kHz are asked for.
pub proof fn lemma_wanted_buffer()
    ensures
        WANTED_BUFFER_FRAMES == 1024,
{
}

/// The buffer size is the one in the range of the device that is closest to 1024
/// frames.
pub proof fn lemma_buffer_closest(min: u32, max: u32, r: u32, other: u32)
    requires
        call_ensures(buffer_frames, (min, max), r),
        min <= other <= max,
    ensures
        min <= r <= max,
        r > 1024 ==> r <= other,
        r < 1024 ==> r >= other,
{
}

/// There is a warning exactly where the device falls short.
pub proof fn lemma_warned(rate: u32, target: u32, r: Option<String>)
    requires
        call_ensures(rate_warning, (rate, target), r),
    ensures
        rate < target ==> r is Some,
        rate >= target ==> r is None,
{
}

/// The best configuration takes the rate in a format that is written. None that does
/// so has a better format, and none before it has the same.
pub proof fn lemma_best_of_all(configs: Seq<OutputConfig>, rate: int, i: int, j: int)
    requires
        is_best_config(configs, rate, i),
        0 <= j < configs.len(),
        configs[j].min_rate <= rate <= configs[j].max_rate,
        configs[j].format != SampleFormat::Other,
    ensures
        0 <= i < configs.len(),
        configs[i].min_rate <= rate <= configs[i].max_rate,
        configs[i].format != SampleFormat::Other,
        rank(configs[i].format)->0 <= rank(configs[j].format)->0,
        configs[i].format == configs[j].format ==> i <= j,
{
    assert(usable(configs[j], rate));
}

/// The first device whose name has a part stands before all others that have it.
pub proof fn lemma_first_named(
    names: Seq<Option<String>>,
    part: Seq<char>,
    i: int,
    before: Seq<char>,
    after: Seq<char>,
    j: int,
)
    requires
        is_first_named(names, part, i),
        0 <= j < names.len(),
        names[j] matches Some(n) && n@ == before + part + after,
    ensures
        0 <= i <= j,
        names[i] is Some,
        text::has_part(names[i]->0@, part),
{
    text::lemma_has_part(before, part, after);
    assert(name_has(names[j], part));
}

} // verus!
