//! Laws of planning: ranges, shares, launches, progress and payloads.

use vstd::prelude::*;
use vstd::utf8::*;

use crate::cuda::{
    blocks_for, can_launch, is_range, length_word, padded, settings_of, text_of,
};
use crate::cuda_run::{pattern_serves, Progress, Share};
use crate::exchange::{
    fills_payload, is_readable, payload_of, private_part, public_part, reported, saturated,
    unreadable_text, utf8_error, utf8_error_text,
};
use crate::pattern::{GpuPattern, PatternKind};
use crate::search::{end_of, kind_of, letters, range_serves, share_of};

verus! {

/// A glob is searched for where a glob is asked for, a regular expression where
/// that alone is asked for, and a literal where neither is.
pub proof fn law_kind_selected(glob: bool, regex: bool)
    ensures
        kind_of(glob, regex) is Glob <==> glob,
        kind_of(glob, regex) is Regex <==> regex && !glob,
        kind_of(glob, regex) is Literal <==> !regex && !glob,
{
}

/// A search covers what was asked for up to the text of a key. Where nothing was
/// asked for it covers ten characters, or ten more than a literal that is
/// longer than ten.
pub proof fn law_range_end(kind: PatternKind, len: int, range: Option<usize>)
    requires
        0 <= len,
    ensures
        0 <= end_of(kind, len, range) <= 44,
        range matches Some(wanted) ==> end_of(kind, len, range) <= wanted && (end_of(
            kind,
            len,
            range,
        ) < 44 ==> end_of(kind, len, range) == wanted),
        range is None && (kind !is Literal || len <= 10) ==> end_of(kind, len, range) == 10,
        range is None && kind is Literal && 10 < len <= 34 ==> end_of(kind, len, range) == len + 10,
        range is None && kind is Literal && 34 < len ==> end_of(kind, len, range) == 44,
{
}

/// Where no range is asked for, every pattern can be searched for but a literal
/// that is longer than a key's text. A range serves a literal exactly if it has
/// an offset for it and is not empty.
pub proof fn law_range_serves(kind: PatternKind, len: int, end: int)
    requires
        0 <= len,
        0 <= end,
    ensures
        kind !is Literal || len <= 44 ==> range_serves(kind, len, end_of(kind, len, None)),
        kind is Literal && len > 44 ==> forall|range: Option<usize>|
            !range_serves(kind, len, #[trigger] end_of(kind, len, range)),
        kind is Literal ==> (range_serves(kind, len, end) <==> end >= 1 && 1 + end - len >= 1),
        kind !is Literal ==> (range_serves(kind, len, end) <==> end >= 1),
        kind is Literal ==> (pattern_serves(kind, len, end) <==> len >= 1 && 1 + end - len >= 1),
        kind !is Literal ==> (pattern_serves(kind, len, end) <==> len >= 1),
{
}

/// Letters are counted byte by byte: a capital or small ASCII letter counts one,
/// every other byte nothing.
pub proof fn law_letters(bytes: Seq<u8>, byte: u8)
    ensures
        letters(Seq::empty()) == 0,
        letters(bytes.push(byte)) == letters(bytes) + if 65 <= byte <= 90 || 97 <= byte <= 122 {
            1int
        } else {
            0int
        },
{
    reveal(Seq::filter);
    assert(bytes.push(byte).drop_last() =~= bytes);
    assert(Seq::<u8>::empty().filter(|byte: u8| crate::search::is_letter(byte)).len() == 0);
}

/// Lower ranks have no smaller share, and no share is negative or more than the
/// whole; without a limit no rank has one.
pub proof fn law_share_order(trials: int, one: int, other: int, ranks: int)
    requires
        0 <= trials <= u64::MAX,
        0 <= one <= other < ranks,
    ensures
        share_of(trials, one, ranks) >= share_of(trials, other, ranks),
        0 <= share_of(trials, other, ranks),
        trials == u64::MAX ==> share_of(trials, one, ranks) == u64::MAX,
{
    vstd::arithmetic::div_mod::lemma_div_pos_is_pos(trials, ranks);
}

/// The candidates of a batch are launched exactly if there are any and 2^32 - 1
/// blocks of 256 are enough for them.
pub proof fn law_can_launch(batch: int, start: int, end: int)
    ensures
        can_launch(batch) <==> 0 < batch <= 0xffff_ffff * 256,
        can_launch(batch) ==> (blocks_for(batch) - 1) * 256 < batch <= blocks_for(batch) * 256,
        is_range(start, end) <==> start <= end && end <= 44,
{
}

/// A length is handed over modulo 2^32, so as it is where it fits 32 bits.
pub proof fn law_length_word(len: nat)
    ensures
        0 <= length_word(len) < 0x1_0000_0000,
        (len - length_word(len)) % 0x1_0000_0000 == 0,
        len < 0x1_0000_0000 ==> length_word(len) == len,
{
}

/// A literal is handed over in mode 0, a glob in mode 1, each with its length
/// and with 1 where its case matters; a regular expression is not handed over as
/// text.
pub proof fn law_text_settings(pattern: GpuPattern)
    ensures
        match pattern {
            GpuPattern::Literal { bytes, case_sensitive } => {
                &&& settings_of(pattern) matches Some(settings)
                &&& settings.mode == 0
                &&& settings.case_sensitive == if case_sensitive {
                    1int
                } else {
                    0
                }
                &&& (bytes@.len() - settings.len) % 0x1_0000_0000 == 0
                &&& text_of(pattern) == bytes@
            },
            GpuPattern::Glob { bytes, case_sensitive } => {
                &&& settings_of(pattern) matches Some(settings)
                &&& settings.mode == 1
                &&& settings.case_sensitive == if case_sensitive {
                    1int
                } else {
                    0
                }
                &&& (bytes@.len() - settings.len) % 0x1_0000_0000 == 0
                &&& text_of(pattern) == bytes@
            },
            GpuPattern::Regex(_) => settings_of(pattern) is None,
        },
{
}

/// A buffer for a pattern has 44 bytes: those of the pattern, then zeros.
pub proof fn law_padded(bytes: Seq<u8>)
    requires
        bytes.len() <= 44,
    ensures
        padded(bytes).len() == 44,
        padded(bytes).take(bytes.len() as int) == bytes,
        forall|i: int| bytes.len() <= i < 44 ==> #[trigger] padded(bytes)[i] == 0,
{
    assert(padded(bytes).take(bytes.len() as int) =~= bytes);
}

/// A launch is allowed exactly as long as no limit is reached: neither that of
/// the launches nor that of the candidates.
pub proof fn law_launch_allowed(progress: Progress, ahead: int)
    requires
        0 <= ahead,
        0 <= progress.launches,
    ensures
        progress.allows(ahead) <==> {
            &&& progress.batch > 0
            &&& progress.trials matches Some(limit) ==> progress.total + ahead * progress.batch
                < limit
            &&& progress.batches matches Some(limit) ==> progress.launches + ahead < limit
            &&& progress.batches is None ==> progress.launches + ahead < u64::MAX
        },
{
}

/// A launch has a whole batch unless fewer candidates are left, and then all
/// that are left; it is told how many candidates the search had before it.
pub proof fn law_launch_share(progress: Progress, ahead: int, share: Share)
    requires
        0 <= ahead,
        0 <= progress.total,
        0 <= progress.counter,
        progress.is_share(ahead, share),
    ensures
        progress.allows(ahead),
        0 < share.count <= progress.batch,
        progress.trials is None ==> share.count == progress.batch,
        progress.trials matches Some(limit) ==> progress.total + ahead * progress.batch
            + share.count <= limit,
        progress.trials matches Some(limit) ==> share.count < progress.batch ==> progress.total
            + ahead * progress.batch + share.count == limit,
        progress.counter + ahead * progress.batch <= u64::MAX ==> share.base_counter
            == progress.counter + ahead * progress.batch,
        progress.counter + ahead * progress.batch > u64::MAX ==> share.base_counter == u64::MAX,
{
}

/// A recorded launch adds its candidates and one launch, and leaves the limits.
pub proof fn law_recorded(progress: Progress, attempts: u64)
    ensures
        progress.recorded(attempts).batch == progress.batch,
        progress.recorded(attempts).trials == progress.trials,
        progress.recorded(attempts).batches == progress.batches,
        progress.total + attempts <= u64::MAX ==> progress.recorded(attempts).total
            == progress.total + attempts,
        progress.total + attempts > u64::MAX ==> progress.recorded(attempts).total == u64::MAX,
        progress.counter + attempts <= u64::MAX ==> progress.recorded(attempts).counter
            == progress.counter + attempts,
        progress.counter + attempts > u64::MAX ==> progress.recorded(attempts).counter == u64::MAX,
        progress.launches < u64::MAX ==> progress.recorded(attempts).launches == progress.launches
            + 1,
        progress.launches == u64::MAX ==> progress.recorded(attempts).launches == u64::MAX,
{
}

/// Reports are due after every tenth launch and after no other, and only where
/// the number of launches is not limited.
pub proof fn law_reports(progress: Progress, tens: int, ones: int)
    requires
        progress.launches == 10 * tens + ones,
        0 <= tens,
        0 <= ones < 10,
    ensures
        progress.batches is Some ==> !progress.reports(),
        progress.batches is None ==> (progress.reports() <==> ones == 0 && tens > 0),
{
}

/// Where a match stands in a payload: a one, the 44 bytes of the private text
/// and the 44 bytes of the public text. The payload of no match is all zeros.
pub proof fn law_payload_layout(private: Seq<char>, public: Seq<char>)
    requires
        encode_utf8(private).len() == 44,
        encode_utf8(public).len() == 44,
    ensures
        fills_payload(Some((private, public))),
        fills_payload(None),
        payload_of(Some((private, public))).len() == 89,
        payload_of(Some((private, public)))[0] == 1,
        payload_of(Some((private, public))).subrange(1, 45) == encode_utf8(private),
        payload_of(Some((private, public))).subrange(45, 89) == encode_utf8(public),
        payload_of(None).len() == 89,
        forall|i: int| 0 <= i < 89 ==> #[trigger] payload_of(None)[i] == 0,
{
    let payload = payload_of(Some((private, public)));
    assert(payload.subrange(1, 45) =~= encode_utf8(private));
    assert(payload.subrange(45, 89) =~= encode_utf8(public));
}

/// What a payload reports: nothing unless its first byte is one, else the two
/// texts whose bytes it holds. It can be read exactly if there are such texts.
pub proof fn law_payload_read(payload: Seq<u8>, private: Seq<char>, public: Seq<char>)
    requires
        payload.len() == 89,
    ensures
        payload[0] != 1 ==> is_readable(payload) && reported(payload) is None,
        payload[0] == 1 && payload.subrange(1, 45) == encode_utf8(private) && payload.subrange(
            45,
            89,
        ) == encode_utf8(public) ==> is_readable(payload) && reported(payload) == Some(
            (private, public),
        ),
        payload[0] == 1 && is_readable(payload) ==> (reported(payload) matches Some((a, b))
            && encode_utf8(a) == payload.subrange(1, 45) && encode_utf8(b) == payload.subrange(
            45,
            89,
        )),
{
    encode_utf8_valid_utf8(private);
    encode_utf8_valid_utf8(public);
    encode_utf8_decode_utf8(private);
    encode_utf8_decode_utf8(public);
    if payload[0] == 1 && is_readable(payload) {
        decode_utf8_encode_utf8(private_part(payload));
        decode_utf8_encode_utf8(public_part(payload));
    }
}

/// A payload that cannot be read is reported with the error of its private text,
/// or with that of its public text where the private one is well formed.
pub proof fn law_payload_unreadable(payload: Seq<u8>)
    requires
        payload.len() == 89,
        !is_readable(payload),
    ensures
        payload[0] == 1,
        !valid_utf8(payload.subrange(1, 45)) ==> unreadable_text(payload) == utf8_error_text(
            utf8_error(payload.subrange(1, 45)),
        ),
        valid_utf8(payload.subrange(1, 45)) ==> !valid_utf8(payload.subrange(45, 89))
            && unreadable_text(payload) == utf8_error_text(utf8_error(payload.subrange(45, 89))),
{
}

/// A sum stays what it is up to the largest word, and stays there beyond.
pub proof fn law_saturated(sum: int)
    ensures
        saturated(sum) <= 0xffff_ffff_ffff_ffff,
        sum <= 0xffff_ffff_ffff_ffff ==> saturated(sum) == sum,
        sum > 0xffff_ffff_ffff_ffff ==> saturated(sum) == 0xffff_ffff_ffff_ffff,
{
}

} // verus!
