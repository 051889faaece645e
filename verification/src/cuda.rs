//! CUDA batch search: what a launch is given, and what becomes of its result.

use vstd::prelude::*;
use vstd::utf8::encode_utf8;

use crate::encoding::{ascii_text, base64_of, encode_standard, KEY_TEXT_LEN};
use crate::keys::{key_text, optional_texts};
use crate::pattern::{GpuPattern, PatternKind, SearchPattern};
use crate::text::lowered;

verus! {

/// Number of threads in a block.
pub const BLOCK_SIZE: u32 = 256;

/// The mode of the text kernel that matches a literal.
pub const LITERAL_MODE: u32 = 0;

/// The mode of the text kernel that matches a glob.
pub const GLOB_MODE: u32 = 1;

/// What the kernel leaves in the found flag where nothing matched.
pub const NOT_FOUND: i32 = -1;

/// The outcome of one GPU kernel launch.
#[derive(Debug)]
pub struct BatchResult {
    /// Number of candidates assigned to the launch.
    pub attempts: u64,
    /// First matching `(private_key, public_key)` pair, Base64 encoded.
    pub candidate: Option<(String, String)>,
}

/// The extent of a launch.
#[derive(Clone, Copy, Debug, Eq, PartialEq, Structural)]
pub struct Launch {
    /// Number of blocks of [`BLOCK_SIZE`] threads.
    pub blocks: u32,
    /// First character of the range that is searched.
    pub start: u32,
    /// End of the range that is searched.
    pub end: u32,
}

/// What the text kernel is told of a literal or a glob.
#[derive(Clone, Copy, Debug, Eq, PartialEq, Structural)]
pub struct TextSettings {
    /// Length of the pattern in bytes.
    pub len: u32,
    /// [`LITERAL_MODE`] or [`GLOB_MODE`].
    pub mode: u32,
    /// One where letter case is preserved, else zero.
    pub case_sensitive: u32,
}

/// A launch of the text kernel.
#[derive(Clone, Copy, Debug)]
pub struct TextLaunch {
    /// The pattern, padded with zeros.
    pub prefix: [u8; 44],
    /// What the kernel is told of the pattern.
    pub settings: TextSettings,
    /// The extent of the launch.
    pub launch: Launch,
}

/// What to do for a batch with a given pattern.
#[derive(Clone, Copy, Debug)]
pub enum BatchPlan {
    /// Launch nothing; the batch has no attempts.
    Skip,
    /// Upload the table of the regular expression and search the batch with it.
    UploadTable,
    /// Launch the text kernel.
    Text(TextLaunch),
}

/// What to do after a launch.
#[derive(Debug)]
pub enum AfterLaunch {
    /// The batch is finished.
    Finished(BatchResult),
    /// A candidate matched; its keys have to be read.
    ReadKeys,
}

/// A launch of the kernel that matches given inputs.
#[derive(Clone, Copy, Debug, Eq, PartialEq, Structural)]
pub struct InputLaunch {
    /// Number of inputs.
    pub count: u32,
    /// The extent of the launch.
    pub launch: Launch,
}

/// The number of blocks that a number of candidates takes.
pub open spec fn blocks_for(candidates: int) -> int {
    (candidates + 255) / 256
}

/// Whether a range lies within the text of a key.
pub open spec fn is_range(start: int, end: int) -> bool {
    start <= end <= KEY_TEXT_LEN
}

/// Whether a batch can be launched.
pub open spec fn can_launch(batch: int) -> bool {
    0 < batch && blocks_for(batch) <= u32::MAX
}

/// The low 32 bits of a length.
pub open spec fn length_word(len: nat) -> int {
    len as int % 0x1_0000_0000
}

/// The number that stands for a flag.
pub open spec fn flag_word(flag: bool) -> u32 {
    if flag {
        1
    } else {
        0
    }
}

/// What the text kernel is told of a pattern, or nothing for a regular
/// expression.
pub open spec fn settings_of(pattern: GpuPattern) -> Option<TextSettings> {
    match pattern {
        GpuPattern::Literal { bytes, case_sensitive } => Some(
            TextSettings {
                len: length_word(bytes@.len()) as u32,
                mode: LITERAL_MODE,
                case_sensitive: flag_word(case_sensitive),
            },
        ),
        GpuPattern::Glob { bytes, case_sensitive } => Some(
            TextSettings {
                len: length_word(bytes@.len()) as u32,
                mode: GLOB_MODE,
                case_sensitive: flag_word(case_sensitive),
            },
        ),
        GpuPattern::Regex(_) => None,
    }
}

/// The bytes of a literal or a glob.
pub open spec fn text_of(pattern: GpuPattern) -> Seq<u8> {
    match pattern {
        GpuPattern::Literal { bytes, .. } => bytes@,
        GpuPattern::Glob { bytes, .. } => bytes@,
        GpuPattern::Regex(_) => Seq::empty(),
    }
}

/// Bytes padded with zeros to the length of a key's text.
pub open spec fn padded(bytes: Seq<u8>) -> Seq<u8> {
    Seq::new(
        KEY_TEXT_LEN as nat,
        |i: int|
            if i < bytes.len() {
                bytes[i]
            } else {
                0
            },
    )
}

impl BatchResult {
    /// The result of a batch that was not launched.
    pub fn empty() -> (result: Self)
        ensures
            result.attempts == 0,
            result.candidate is None,
    {
        BatchResult { attempts: 0, candidate: None }
    }

    /// The result of a batch in which a candidate matched.
    pub fn matched(batch: u64, private: &[u8; 32], public: &[u8; 32]) -> (result: Self)
        ensures
            result.attempts == batch,
            optional_texts(result.candidate) == Some((key_text(private@), key_text(public@))),
            result.candidate matches Some(pair) && pair.0@ == ascii_text(base64_of(private@))
                && pair.1@ == ascii_text(base64_of(public@)),
    {
        let private_b64 = encode_standard(private.as_slice());
        let public_b64 = encode_standard(public.as_slice());
        BatchResult { attempts: batch, candidate: Some((private_b64, public_b64)) }
    }

    /// What to do after a launch that left `found` in the found flag.
    pub fn after_launch(batch: u64, found: i32) -> (next: AfterLaunch)
        ensures
            next is ReadKeys <==> found >= 0,
            next matches AfterLaunch::Finished(result) ==> result.attempts == batch
                && result.candidate is None,
    {
        if found >= 0 {
            AfterLaunch::ReadKeys
        } else {
            AfterLaunch::Finished(BatchResult { attempts: batch, candidate: None })
        }
    }
}

/// The number of devices, where the driver may report none as a negative
/// number.
pub fn visible_devices(count: i32) -> (devices: usize)
    ensures
        devices == if count > 0 {
            count as int
        } else {
            0
        },
{
    if count > 0 {
        count as usize
    } else {
        0
    }
}

/// The launch of a batch over a range of the key's text, if there is one:
/// invalid ranges, empty batches and batches of too many blocks are not
/// launched.
pub fn plan_batch(start: usize, end: usize, batch: u64) -> (plan: Option<Launch>)
    ensures
        plan is Some <==> is_range(start as int, end as int) && can_launch(batch as int),
        plan matches Some(launch) ==> {
            &&& launch.blocks == blocks_for(batch as int)
            &&& launch.start == start
            &&& launch.end == end
        },
        plan is Some <==> start <= end <= 44 && 0 < batch <= 0xffff_ffff * 256,
        plan matches Some(launch) ==> (launch.blocks - 1) * 256 < batch <= launch.blocks * 256,
{
    if end > KEY_TEXT_LEN || start > end {
        return None;
    }
    let whole: u64 = batch / (BLOCK_SIZE as u64);
    let blocks: u64 = if batch % (BLOCK_SIZE as u64) == 0 {
        whole
    } else {
        whole + 1
    };
    if batch == 0 || blocks > u32::MAX as u64 {
        return None;
    }
    Some(Launch { blocks: blocks as u32, start: start as u32, end: end as u32 })
}

fn length_as_word(len: usize) -> (word: u32)
    ensures
        word == length_word(len as nat),
{
    let wide: u64 = len as u64;
    assert(wide as u32 == wide % 0x1_0000_0000) by (bit_vector);
    #[verifier::truncate]
    (wide as u32)
}

/// What the text kernel is told of a pattern, or nothing for a regular
/// expression.
pub fn text_settings(pattern: &GpuPattern) -> (settings: Option<TextSettings>)
    ensures
        settings == settings_of(*pattern),
{
    match pattern {
        GpuPattern::Literal { bytes, case_sensitive } => Some(
            TextSettings {
                len: length_as_word(bytes.len()),
                mode: LITERAL_MODE,
                case_sensitive: if *case_sensitive {
                    1
                } else {
                    0
                },
            },
        ),
        GpuPattern::Glob { bytes, case_sensitive } => Some(
            TextSettings {
                len: length_as_word(bytes.len()),
                mode: GLOB_MODE,
                case_sensitive: if *case_sensitive {
                    1
                } else {
                    0
                },
            },
        ),
        GpuPattern::Regex(_) => None,
    }
}

/// Pads bytes with zeros to the length of a key's text.
fn pad(bytes: &[u8]) -> (buffer: [u8; 44])
    requires
        bytes@.len() <= KEY_TEXT_LEN,
    ensures
        buffer@ == padded(bytes@),
{
    let mut buffer: [u8; 44] = [0u8; 44];
    let mut i: usize = 0;
    while i < bytes.len()
        invariant
            i <= bytes@.len() <= KEY_TEXT_LEN,
            forall|j: int| 0 <= j < i ==> #[trigger] buffer@[j] == bytes@[j],
            forall|j: int| i <= j < KEY_TEXT_LEN ==> #[trigger] buffer@[j] == 0,
        decreases bytes@.len() - i,
    {
        buffer[i] = bytes[i];
        i += 1;
    }
    assert(buffer@ =~= padded(bytes@));
    buffer
}

/// What to do for a batch with a given pattern.
///
/// A table is uploaded before its batch is planned. A literal or a glob is
/// launched where it is not empty, fits the text of a key, and its batch can be
/// planned.
pub fn plan_pattern_batch(pattern: &GpuPattern, start: usize, end: usize, batch: u64) -> (plan:
    BatchPlan)
    ensures
        plan is UploadTable <==> pattern is Regex,
        plan is Text <==> {
            &&& pattern !is Regex
            &&& 0 < text_of(*pattern).len() <= KEY_TEXT_LEN
            &&& is_range(start as int, end as int)
            &&& can_launch(batch as int)
        },
        plan matches BatchPlan::Text(text) ==> {
            &&& text.prefix@ == padded(text_of(*pattern))
            &&& Some(text.settings) == settings_of(*pattern)
            &&& text.launch.blocks == blocks_for(batch as int)
            &&& text.launch.start == start
            &&& text.launch.end == end
        },
        match *pattern {
            GpuPattern::Literal { bytes, case_sensitive } => plan is Text <==> {
                &&& 0 < bytes@.len() <= 44
                &&& start <= end <= 44
                &&& 0 < batch <= 0xffff_ffff * 256
            },
            GpuPattern::Glob { bytes, case_sensitive } => plan is Text <==> {
                &&& 0 < bytes@.len() <= 44
                &&& start <= end <= 44
                &&& 0 < batch <= 0xffff_ffff * 256
            },
            GpuPattern::Regex(_) => plan is UploadTable,
        },
        plan matches BatchPlan::Text(text) ==> {
            &&& (text.launch.blocks - 1) * 256 < batch <= text.launch.blocks * 256
            &&& text.settings.len <= 44
            &&& text.prefix@.take(text.settings.len as int) == text_of(*pattern)
        },
{
    let settings = match text_settings(pattern) {
        Some(settings) => settings,
        None => return BatchPlan::UploadTable,
    };
    let bytes = match pattern {
        GpuPattern::Literal { bytes, .. } => bytes.as_slice(),
        GpuPattern::Glob { bytes, .. } => bytes.as_slice(),
        GpuPattern::Regex(_) => return BatchPlan::UploadTable,
    };
    if bytes.len() == 0 || bytes.len() > KEY_TEXT_LEN {
        return BatchPlan::Skip;
    }
    match plan_batch(start, end, batch) {
        Some(launch) => {
            let prefix = pad(bytes);
            assert(prefix@.take(bytes@.len() as int) =~= bytes@);
            BatchPlan::Text(TextLaunch { prefix, settings, launch })
        },
        None => BatchPlan::Skip,
    }
}

/// The pattern of a case-insensitive literal search.
pub fn literal_gpu_pattern(prefix: &str) -> (pattern: GpuPattern)
    ensures
        pattern matches GpuPattern::Literal { bytes, case_sensitive } && bytes@ == lowered(
            encode_utf8(prefix@),
        ) && !case_sensitive,
{
    if let Ok(search) = SearchPattern::new(prefix, PatternKind::Literal, false) {
        if let Ok(pattern) = search.gpu_pattern() {
            return pattern;
        }
    }
    GpuPattern::Literal { bytes: Vec::new(), case_sensitive: false }
}

/// The launch that matches a number of inputs over a range, if there is one.
pub fn plan_inputs(inputs: usize, start: usize, end: usize) -> (plan: Option<InputLaunch>)
    ensures
        plan is Some <==> inputs > 0 && is_range(start as int, end as int),
        plan matches Some(matching) ==> {
            &&& matching.count == length_word(inputs as nat)
            &&& matching.launch.blocks == blocks_for(length_word(inputs as nat))
            &&& matching.launch.start == start
            &&& matching.launch.end == end
        },
        plan is Some <==> inputs > 0 && start <= end <= 44,
        plan matches Some(matching) ==> {
            &&& inputs < 0x1_0000_0000 ==> matching.count == inputs
            &&& (matching.launch.blocks - 1) * 256 < matching.count <= matching.launch.blocks * 256
        },
{
    if inputs == 0 || end > KEY_TEXT_LEN || start > end {
        return None;
    }
    let count: u32 = length_as_word(inputs);
    let blocks: u32 = if count % BLOCK_SIZE == 0 {
        count / BLOCK_SIZE
    } else {
        count / BLOCK_SIZE + 1
    };
    Some(InputLaunch { count, launch: Launch { blocks, start: start as u32, end: end as u32 } })
}

/// Writes inputs one behind the other.
pub fn flatten_inputs(inputs: &[[u8; 44]]) -> (flat: Vec<u8>)
    ensures
        flat@.len() == 44 * inputs@.len(),
        forall|i: int, j: int|
            0 <= i < inputs@.len() && 0 <= j < 44 ==> #[trigger] inputs@[i]@[j] == flat@[44 * i + j],
{
    let mut flat: Vec<u8> = Vec::new();
    let mut i: usize = 0;
    while i < inputs.len()
        invariant
            i <= inputs@.len(),
            flat@.len() == 44 * i,
            forall|k: int, j: int|
                0 <= k < i && 0 <= j < 44 ==> #[trigger] inputs@[k]@[j] == flat@[44 * k + j],
        decreases inputs@.len() - i,
    {
        let mut j: usize = 0;
        while j < 44
            invariant
                i < inputs@.len(),
                j <= 44,
                flat@.len() == 44 * i + j,
                forall|k: int, m: int|
                    0 <= k < i && 0 <= m < 44 ==> #[trigger] inputs@[k]@[m] == flat@[44 * k + m],
                forall|m: int| 0 <= m < j ==> #[trigger] inputs@[i as int]@[m] == flat@[44 * i + m],
            decreases 44 - j,
        {
            flat.push(inputs[i][j]);
            j += 1;
        }
        i += 1;
    }
    flat
}

/// Reads the flags that the matching of inputs leaves, one byte for each.
pub fn read_flags(flags: &[u8]) -> (results: Vec<bool>)
    ensures
        results@.len() == flags@.len(),
        forall|i: int| 0 <= i < flags@.len() ==> #[trigger] results@[i] == (flags@[i] != 0),
{
    let mut results: Vec<bool> = Vec::new();
    let mut i: usize = 0;
    while i < flags.len()
        invariant
            i <= flags@.len(),
            results@.len() == i,
            forall|j: int| 0 <= j < i ==> #[trigger] results@[j] == (flags@[j] != 0),
        decreases flags@.len() - i,
    {
        results.push(flags[i] != 0);
        i += 1;
    }
    results
}

/// Every candidate of a launched batch has a thread, and no block is without a
/// candidate.
pub proof fn law_blocks_cover(batch: int)
    requires
        can_launch(batch),
    ensures
        batch <= blocks_for(batch) * BLOCK_SIZE,
        (blocks_for(batch) - 1) * BLOCK_SIZE < batch,
{
}

} // verus!
