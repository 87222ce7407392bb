//! What the names of the data files say: which correlator generation wrote
//! them, and which coarse channel and batch each belongs to.

use crate::context::CorrelatorVersion;
use crate::error::ErrorKind;
use crate::sorted::{sorted_distinct, strictly_ascending};
use vstd::prelude::*;
use vstd::set_lib::{lemma_int_range, lemma_map_size, set_int_range};
use vstd::string::StringSliceAdditionalSpecFns;
use vstd::utf8::encode_utf8;

verus! {

/// What the name of one data file says.
#[derive(Debug, Clone, Copy, PartialEq, Eq, Structural)]
pub struct GpuboxName {
    /// Generation that the naming convention belongs to.
    pub corr_version: CorrelatorVersion,
    /// Channel identifier: the gpubox number of a legacy file, the receiver
    /// channel number of an MWAX file.
    pub channel_identifier: usize,
    /// Batch number; 0 where the convention has none.
    pub batch_number: usize,
}

/// Whether a byte is an ASCII digit.
pub open spec fn is_digit(b: u8) -> bool {
    48 <= b <= 57
}

/// The number that a run of ASCII digits writes in decimal.
pub open spec fn decimal_value(digits: Seq<u8>) -> int
    decreases digits.len(),
{
    if digits.len() == 0 {
        0
    } else {
        decimal_value(digits.drop_last()) * 10 + (digits.last() - 48)
    }
}

/// Whether `count` ASCII digits end at `end`.
pub open spec fn digits_before(name: Seq<u8>, end: int, count: int) -> bool {
    &&& 0 <= end - count
    &&& end <= name.len()
    &&& forall|i: int| end - count <= i < end ==> is_digit(#[trigger] name[i])
}

/// Whether the bytes `text` end at `end`.
pub open spec fn text_before(name: Seq<u8>, end: int, text: Seq<u8>) -> bool {
    &&& 0 <= end - text.len()
    &&& end <= name.len()
    &&& name.subrange(end - text.len(), end) == text
}

/// The bytes of `.fits`.
pub open spec fn fits_suffix() -> Seq<u8> {
    seq![46u8, 102u8, 105u8, 116u8, 115u8]
}

/// The bytes of `gpubox`.
pub open spec fn gpubox_marker() -> Seq<u8> {
    seq![103u8, 112u8, 117u8, 98u8, 111u8, 120u8]
}

/// The bytes of `_ch`.
pub open spec fn channel_marker() -> Seq<u8> {
    seq![95u8, 99u8, 104u8]
}

/// The bytes of `_`.
pub open spec fn underscore() -> Seq<u8> {
    seq![95u8]
}

/// Whether a name ends as MWAX files do: `_ch`, three digits of channel,
/// `_`, three digits of batch, `.fits`.
pub open spec fn is_mwax_name(name: Seq<u8>) -> bool {
    let n = name.len() as int;
    &&& text_before(name, n, fits_suffix())
    &&& digits_before(name, n - 5, 3)
    &&& text_before(name, n - 8, underscore())
    &&& digits_before(name, n - 9, 3)
    &&& text_before(name, n - 12, channel_marker())
}

/// Whether a name ends as legacy files with batches do: `gpubox`, two
/// digits of gpubox number, `_`, two digits of batch, `.fits`.
pub open spec fn is_legacy_name(name: Seq<u8>) -> bool {
    let n = name.len() as int;
    &&& text_before(name, n, fits_suffix())
    &&& digits_before(name, n - 5, 2)
    &&& text_before(name, n - 7, underscore())
    &&& digits_before(name, n - 8, 2)
    &&& text_before(name, n - 10, gpubox_marker())
}

/// Whether a name ends as legacy files without batches do: `gpubox`, two
/// digits of gpubox number, `.fits`.
pub open spec fn is_old_legacy_name(name: Seq<u8>) -> bool {
    let n = name.len() as int;
    &&& text_before(name, n, fits_suffix())
    &&& digits_before(name, n - 5, 2)
    &&& text_before(name, n - 7, gpubox_marker())
}

/// What a file name says, or `None` where it follows no known convention.
pub open spec fn parse_name(name: Seq<u8>) -> Option<GpuboxName> {
    let n = name.len() as int;
    if is_mwax_name(name) {
        Some(
            GpuboxName {
                corr_version: CorrelatorVersion::V2,
                channel_identifier: decimal_value(name.subrange(n - 12, n - 9)) as usize,
                batch_number: decimal_value(name.subrange(n - 8, n - 5)) as usize,
            },
        )
    } else if is_legacy_name(name) {
        Some(
            GpuboxName {
                corr_version: CorrelatorVersion::Legacy,
                channel_identifier: decimal_value(name.subrange(n - 10, n - 8)) as usize,
                batch_number: decimal_value(name.subrange(n - 7, n - 5)) as usize,
            },
        )
    } else if is_old_legacy_name(name) {
        Some(
            GpuboxName {
                corr_version: CorrelatorVersion::OldLegacy,
                channel_identifier: decimal_value(name.subrange(n - 7, n - 5)) as usize,
                batch_number: 0,
            },
        )
    } else {
        None
    }
}

/// Whether the bytes `text` end at `end` in `name`.
fn has_text_before(name: &[u8], end: usize, text: &Vec<u8>) -> (found: bool)
    requires
        end <= name@.len(),
    ensures
        found == text_before(name@, end as int, text@),
{
    let len: usize = text.len();
    if end < len {
        return false;
    }
    let start: usize = end - len;
    let mut i: usize = 0;
    while i < len
        invariant
            len == text@.len(),
            start + len == end,
            end <= name@.len(),
            i <= len,
            forall|j: int| 0 <= j < i ==> name@[start + j] == text@[j],
        decreases len - i,
    {
        if name[start + i] != text[i] {
            assert(name@.subrange(start as int, end as int)[i as int] != text@[i as int]);
            return false;
        }
        i = i + 1;
    }
    assert(name@.subrange(start as int, end as int) =~= text@);
    true
}

/// The number that the `count` digits before `end` write, or `None` where
/// they are not all digits.
fn read_digits_before(name: &[u8], end: usize, count: usize) -> (value: Option<usize>)
    requires
        end <= name@.len(),
        count <= 3,
    ensures
        value.is_some() <==> digits_before(name@, end as int, count as int),
        value matches Some(v) ==> v == decimal_value(name@.subrange(end - count, end as int)),
{
    if end < count {
        return None;
    }
    let start: usize = end - count;
    let ghost digits = name@.subrange(start as int, end as int);
    let mut value: usize = 0;
    let mut i: usize = 0;
    while i < count
        invariant
            start + count == end,
            end <= name@.len(),
            count <= 3,
            i <= count,
            digits == name@.subrange(start as int, end as int),
            forall|j: int| start <= j < start + i ==> is_digit(#[trigger] name@[j]),
            value == decimal_value(digits.take(i as int)),
            i == 0 ==> value == 0,
            i == 1 ==> value < 10,
            i == 2 ==> value < 100,
            value < 1000,
        decreases count - i,
    {
        let b: u8 = name[start + i];
        if b < 48 || b > 57 {
            return None;
        }
        assert(digits.take(i as int + 1).drop_last() =~= digits.take(i as int));
        assert(digits.take(i as int + 1).last() == b);
        value = value * 10 + (b - 48) as usize;
        i = i + 1;
    }
    assert(digits.take(count as int) =~= digits);
    Some(value)
}

/// What the name of a data file says about the file, or `None` where the
/// name follows no known convention.
pub fn parse_gpubox_name(filename: &str) -> (parsed: Option<GpuboxName>)
    ensures
        parsed == parse_name(filename.spec_bytes()),
{
    let name: &[u8] = filename.as_bytes();
    let n: usize = name.len();
    let fits: Vec<u8> = vec![46u8, 102u8, 105u8, 116u8, 115u8];
    let gpubox: Vec<u8> = vec![103u8, 112u8, 117u8, 98u8, 111u8, 120u8];
    let channel: Vec<u8> = vec![95u8, 99u8, 104u8];
    let under: Vec<u8> = vec![95u8];
    assert(fits@ =~= fits_suffix());
    assert(gpubox@ =~= gpubox_marker());
    assert(channel@ =~= channel_marker());
    assert(under@ =~= underscore());
    if !has_text_before(name, n, &fits) {
        return None;
    }
    if n >= 15 {
        if let Some(batch) = read_digits_before(name, n - 5, 3) {
            if has_text_before(name, n - 8, &under) {
                if let Some(band) = read_digits_before(name, n - 9, 3) {
                    if has_text_before(name, n - 12, &channel) {
                        return Some(
                            GpuboxName {
                                corr_version: CorrelatorVersion::V2,
                                channel_identifier: band,
                                batch_number: batch,
                            },
                        );
                    }
                }
            }
        }
    }
    assert(!is_mwax_name(name@));
    if n >= 16 {
        if let Some(batch) = read_digits_before(name, n - 5, 2) {
            if has_text_before(name, n - 7, &under) {
                if let Some(band) = read_digits_before(name, n - 8, 2) {
                    if has_text_before(name, n - 10, &gpubox) {
                        return Some(
                            GpuboxName {
                                corr_version: CorrelatorVersion::Legacy,
                                channel_identifier: band,
                                batch_number: batch,
                            },
                        );
                    }
                }
            }
        }
    }
    assert(!is_legacy_name(name@));
    if n >= 13 {
        if let Some(band) = read_digits_before(name, n - 5, 2) {
            if has_text_before(name, n - 7, &gpubox) {
                return Some(
                    GpuboxName {
                        corr_version: CorrelatorVersion::OldLegacy,
                        channel_identifier: band,
                        batch_number: 0,
                    },
                );
            }
        }
    }
    assert(!is_old_legacy_name(name@));
    None
}

/// One data file of a batch.
#[derive(Debug, Clone, Copy, PartialEq, Eq, Structural)]
pub struct GPUBoxFile {
    /// Place of the file in the list of file names that was given.
    pub file_index: usize,
    /// Channel that the file holds.
    pub channel_identifier: usize,
}

/// The data files of one pass over the channels.
#[derive(Debug, Clone)]
pub struct GPUBoxBatch {
    /// Batch number, from the file names.
    pub batch_number: usize,
    /// The files of the batch, ascending by channel. The place of a channel
    /// in this list is the same in every batch.
    pub gpubox_files: Vec<GPUBoxFile>,
}

/// The bytes of each file name.
pub open spec fn names_of(filenames: Seq<String>) -> Seq<Seq<u8>> {
    Seq::new(filenames.len(), |i: int| encode_utf8(filenames[i]@))
}

/// Whether the name at `i` follows a known convention, and the one that
/// the first name follows.
pub open spec fn name_ok(names: Seq<Seq<u8>>, i: int) -> bool {
    &&& parse_name(names[i]) is Some
    &&& parse_name(names[0]) is Some
    &&& parse_name(names[i]).unwrap().corr_version == parse_name(names[0]).unwrap().corr_version
}

/// The error that the first unacceptable name from `from` on gives, if
/// there is one.
pub open spec fn first_name_error(names: Seq<Seq<u8>>, from: int) -> Option<ErrorKind>
    decreases names.len() - from,
{
    if from < 0 || from >= names.len() {
        None
    } else if !name_ok(names, from) {
        Some(
            if parse_name(names[from]) is None {
                ErrorKind::Unrecognised { file_index: from as usize }
            } else {
                ErrorKind::Mixture { file_index: from as usize }
            },
        )
    } else {
        first_name_error(names, from + 1)
    }
}

/// What each name says, where every name follows a known convention.
pub open spec fn parsed_names(names: Seq<Seq<u8>>) -> Seq<GpuboxName> {
    Seq::new(names.len(), |i: int| parse_name(names[i]).unwrap())
}

/// Whether two files have the same batch number and the same channel.
pub open spec fn twins(parsed: Seq<GpuboxName>, i: int, j: int) -> bool {
    parsed[i].batch_number == parsed[j].batch_number && parsed[i].channel_identifier
        == parsed[j].channel_identifier
}

/// Whether an earlier file has the batch number and the channel of file
/// `i`.
pub open spec fn has_earlier_twin(parsed: Seq<GpuboxName>, i: int) -> bool {
    exists|j: int| 0 <= j < i && #[trigger] twins(parsed, j, i)
}

/// The first file from `from` on that repeats an earlier file, if there is
/// one.
pub open spec fn first_duplicate(parsed: Seq<GpuboxName>, from: int) -> Option<int>
    decreases parsed.len() - from,
{
    if from < 0 || from >= parsed.len() {
        None
    } else if has_earlier_twin(parsed, from) {
        Some(from)
    } else {
        first_duplicate(parsed, from + 1)
    }
}

/// Whether file `k` has the given batch number and channel.
pub open spec fn is_file_of(parsed: Seq<GpuboxName>, k: int, batch: usize, channel: usize) -> bool {
    parsed[k].batch_number == batch && parsed[k].channel_identifier == channel
}

/// Whether some file has the given batch number and channel.
pub open spec fn holds(parsed: Seq<GpuboxName>, batch: usize, channel: usize) -> bool {
    exists|k: int| 0 <= k < parsed.len() && #[trigger] is_file_of(parsed, k, batch, channel)
}

/// Whether some file has the given batch number.
pub open spec fn batch_occurs(parsed: Seq<GpuboxName>, batch: usize) -> bool {
    exists|j: int| 0 <= j < parsed.len() && (#[trigger] parsed[j]).batch_number == batch
}

/// Whether some file has the given channel.
pub open spec fn channel_occurs(parsed: Seq<GpuboxName>, channel: usize) -> bool {
    exists|i: int| 0 <= i < parsed.len() && (#[trigger] parsed[i]).channel_identifier == channel
}

/// Whether the batch occurs, and lacks a channel that another batch has.
pub open spec fn lacks_channel(parsed: Seq<GpuboxName>, batch: usize) -> bool {
    batch_occurs(parsed, batch) && exists|i: int|
        0 <= i < parsed.len() && !holds(parsed, batch, (#[trigger] parsed[i]).channel_identifier)
}

/// The file at place `c` of batch `b`.
pub open spec fn file_at(batches: Seq<GPUBoxBatch>, b: int, c: int) -> GPUBoxFile {
    batches[b].gpubox_files@[c]
}

/// The channels of the first batch, in the order of its files.
pub open spec fn batch_channels(batches: Seq<GPUBoxBatch>) -> Seq<usize> {
    Seq::new(batches[0].gpubox_files@.len(), |c: int| file_at(batches, 0, c).channel_identifier)
}

/// The batch numbers, in the order of the batches.
pub open spec fn batch_numbers(batches: Seq<GPUBoxBatch>) -> Seq<usize> {
    Seq::new(batches.len(), |b: int| batches[b].batch_number)
}

/// Whether the batches are in ascending order, each holds the same
/// channels in ascending order, and there is at least one file.
pub open spec fn batches_wf(batches: Seq<GPUBoxBatch>) -> bool {
    &&& batches.len() > 0
    &&& batches[0].gpubox_files@.len() > 0
    &&& strictly_ascending(batch_numbers(batches))
    &&& strictly_ascending(batch_channels(batches))
    &&& forall|b: int|
        0 <= b < batches.len() ==> (#[trigger] batches[b]).gpubox_files@.len()
            == batches[0].gpubox_files@.len()
    &&& forall|b: int, c: int|
        0 <= b < batches.len() && 0 <= c < batches[0].gpubox_files@.len() ==> (#[trigger] file_at(
            batches,
            b,
            c,
        )).channel_identifier == batch_channels(batches)[c]
}

/// Whether some batch holds the file that was given at place `i`.
pub open spec fn placed(batches: Seq<GPUBoxBatch>, i: int) -> bool {
    exists|b: int, c: int|
        0 <= b < batches.len() && 0 <= c < batches[b].gpubox_files@.len() && (#[trigger] file_at(
            batches,
            b,
            c,
        )).file_index == i
}

/// Whether the batches hold exactly the files that the names describe,
/// each in the batch and at the channel that its name says.
pub open spec fn batches_hold(batches: Seq<GPUBoxBatch>, parsed: Seq<GpuboxName>) -> bool {
    &&& forall|b: int, c: int|
        0 <= b < batches.len() && 0 <= c < batches[b].gpubox_files@.len() ==> {
            let file = #[trigger] file_at(batches, b, c);
            &&& file.file_index < parsed.len()
            &&& is_file_of(
                parsed,
                file.file_index as int,
                batches[b].batch_number,
                file.channel_identifier,
            )
        }
    &&& forall|i: int| 0 <= i < parsed.len() ==> #[trigger] placed(batches, i)
}

/// What each file name says, where all follow one known convention; the
/// error of the first that does not, otherwise.
pub fn classify_names(gpubox_filenames: &Vec<String>) -> (result: Result<Vec<GpuboxName>, ErrorKind>)
    ensures
        match result {
            Ok(parsed) => first_name_error(names_of(gpubox_filenames@), 0) is None && parsed@
                == parsed_names(names_of(gpubox_filenames@)),
            Err(e) => first_name_error(names_of(gpubox_filenames@), 0) == Some(e),
        },
{
    let ghost names = names_of(gpubox_filenames@);
    let n: usize = gpubox_filenames.len();
    let mut parsed: Vec<GpuboxName> = Vec::new();
    let mut i: usize = 0;
    while i < n
        invariant
            names == names_of(gpubox_filenames@),
            n == gpubox_filenames@.len(),
            i <= n,
            parsed@.len() == i,
            forall|j: int|
                0 <= j < i ==> #[trigger] name_ok(names, j) && parse_name(names[j]) == Some(
                    parsed@[j],
                ),
            first_name_error(names, 0) == first_name_error(names, i as int),
        decreases n - i,
    {
        let name: &str = gpubox_filenames[i].as_str();
        assert(name.spec_bytes() == names[i as int]);
        match parse_gpubox_name(name) {
            None => {
                return Err(ErrorKind::Unrecognised { file_index: i });
            },
            Some(p) => {
                if i > 0 && p.corr_version != parsed[0].corr_version {
                    return Err(ErrorKind::Mixture { file_index: i });
                }
                parsed.push(p);
            },
        }
        i = i + 1;
    }
    assert(first_name_error(names, n as int) is None);
    assert forall|j: int| 0 <= j < n implies parsed@[j] == #[trigger] parsed_names(names)[j] by {
        assert(name_ok(names, j));
    }
    assert(parsed@ =~= parsed_names(names));
    Ok(parsed)
}

/// The first file that has the batch number and the channel of an earlier
/// file, if there is one.
pub fn find_duplicate(parsed: &Vec<GpuboxName>) -> (found: Option<usize>)
    ensures
        match found {
            Some(i) => first_duplicate(parsed@, 0) == Some(i as int),
            None => first_duplicate(parsed@, 0) is None,
        },
{
    let n: usize = parsed.len();
    let mut i: usize = 0;
    while i < n
        invariant
            n == parsed@.len(),
            i <= n,
            first_duplicate(parsed@, 0) == first_duplicate(parsed@, i as int),
        decreases n - i,
    {
        let mut j: usize = 0;
        while j < i
            invariant
                n == parsed@.len(),
                i < n,
                j <= i,
                first_duplicate(parsed@, 0) == first_duplicate(parsed@, i as int),
                forall|j1: int| 0 <= j1 < j ==> !twins(parsed@, j1, i as int),
            decreases i - j,
        {
            if parsed[j].batch_number == parsed[i].batch_number && parsed[j].channel_identifier
                == parsed[i].channel_identifier {
                assert(twins(parsed@, j as int, i as int));
                assert(has_earlier_twin(parsed@, i as int));
                return Some(i);
            }
            j = j + 1;
        }
        assert(!has_earlier_twin(parsed@, i as int));
        i = i + 1;
    }
    None
}

/// The first file with the given batch number and channel, if there is
/// one.
pub fn find_file(parsed: &Vec<GpuboxName>, batch: usize, channel: usize) -> (found: Option<usize>)
    ensures
        found is Some <==> holds(parsed@, batch, channel),
        found matches Some(k) ==> k < parsed@.len() && is_file_of(parsed@, k as int, batch, channel)
            && forall|k1: int| 0 <= k1 < k ==> !is_file_of(parsed@, k1, batch, channel),
{
    let n: usize = parsed.len();
    let mut k: usize = 0;
    while k < n
        invariant
            n == parsed@.len(),
            k <= n,
            forall|k1: int| 0 <= k1 < k ==> !is_file_of(parsed@, k1, batch, channel),
        decreases n - k,
    {
        if parsed[k].batch_number == batch && parsed[k].channel_identifier == channel {
            assert(is_file_of(parsed@, k as int, batch, channel));
            return Some(k);
        }
        k = k + 1;
    }
    None
}

/// Whether batch `b` has the number `numbers[b]` and holds, for each
/// channel of `channels` in order, a file that the names put there.
pub open spec fn batch_built(
    batches: Seq<GPUBoxBatch>,
    b: int,
    numbers: Seq<usize>,
    channels: Seq<usize>,
    parsed: Seq<GpuboxName>,
) -> bool {
    &&& batches[b].batch_number == numbers[b]
    &&& batches[b].gpubox_files@.len() == channels.len()
    &&& forall|c: int|
        0 <= c < channels.len() ==> {
            let file = #[trigger] file_at(batches, b, c);
            &&& file.channel_identifier == channels[c]
            &&& file.file_index < parsed.len()
            &&& is_file_of(parsed, file.file_index as int, numbers[b], channels[c])
        }
}

/// Where no file repeats an earlier one, none has an earlier twin.
proof fn lemma_no_duplicate(parsed: Seq<GpuboxName>, from: int, i: int)
    requires
        0 <= from <= i < parsed.len(),
        first_duplicate(parsed, from) is None,
    ensures
        !has_earlier_twin(parsed, i),
    decreases i - from,
{
    if from < i {
        lemma_no_duplicate(parsed, from + 1, i);
    }
}

/// A batch that holds a file for each channel lacks none.
proof fn lemma_built_batch_complete(
    batches: Seq<GPUBoxBatch>,
    b: int,
    numbers: Seq<usize>,
    channels: Seq<usize>,
    parsed: Seq<GpuboxName>,
)
    requires
        0 <= b < numbers.len(),
        batch_built(batches, b, numbers, channels, parsed),
        forall|i: int| 0 <= i < parsed.len() ==> channels.contains((#[trigger] parsed[i]).channel_identifier),
    ensures
        !lacks_channel(parsed, numbers[b]),
{
    assert forall|i: int| 0 <= i < parsed.len() implies holds(
        parsed,
        numbers[b],
        (#[trigger] parsed[i]).channel_identifier,
    ) by {
        let channel = parsed[i].channel_identifier;
        let c = choose|c: int| 0 <= c < channels.len() && channels[c] == channel;
        let file = file_at(batches, b, c);
        assert(is_file_of(parsed, file.file_index as int, numbers[b], channel));
    }
}

/// Batches that are built for every batch number and every channel that
/// occurs lack nothing, are well formed and hold each file once.
proof fn lemma_batches_complete(
    result_batches: Seq<GPUBoxBatch>,
    numbers: Seq<usize>,
    channels: Seq<usize>,
    parsed: Seq<GpuboxName>,
)
    requires
        parsed.len() > 0,
        first_duplicate(parsed, 0) is None,
        result_batches.len() == numbers.len(),
        strictly_ascending(numbers),
        strictly_ascending(channels),
        forall|i: int|
            0 <= i < parsed.len() ==> numbers.contains((#[trigger] parsed[i]).batch_number)
                && channels.contains(parsed[i].channel_identifier),
        forall|b1: int|
            0 <= b1 < numbers.len() ==> #[trigger] batch_built(
                result_batches,
                b1,
                numbers,
                channels,
                parsed,
            ),
    ensures
        forall|batch: usize| !lacks_channel(parsed, batch),
        batches_wf(result_batches),
        batches_hold(result_batches, parsed),
{
    let n = parsed.len();
    assert(numbers.contains(parsed[0].batch_number));
    assert(channels.contains(parsed[0].channel_identifier));
    assert(batch_built(result_batches, 0, numbers, channels, parsed));
    assert forall|batch: usize| !lacks_channel(parsed, batch) by {
        if batch_occurs(parsed, batch) {
            let j = choose|j: int| 0 <= j < n && (#[trigger] parsed[j]).batch_number == batch;
            assert(numbers.contains(parsed[j].batch_number));
            let b1 = choose|b1: int| 0 <= b1 < numbers.len() && numbers[b1] == batch;
            assert(batch_built(result_batches, b1, numbers, channels, parsed));
            lemma_built_batch_complete(result_batches, b1, numbers, channels, parsed);
        }
    }
    lemma_batches_wf(result_batches, numbers, channels, parsed);
    assert forall|b1: int, c1: int|
        0 <= b1 < result_batches.len() && 0 <= c1 < result_batches[b1].gpubox_files@.len() implies {
        let file = #[trigger] file_at(result_batches, b1, c1);
        &&& file.file_index < parsed.len()
        &&& is_file_of(
            parsed,
            file.file_index as int,
            result_batches[b1].batch_number,
            file.channel_identifier,
        )
    } by {
        assert(batch_built(result_batches, b1, numbers, channels, parsed));
    }
    assert forall|i: int| 0 <= i < parsed.len() implies #[trigger] placed(result_batches, i) by {
        assert(numbers.contains(parsed[i].batch_number));
        assert(channels.contains(parsed[i].channel_identifier));
        let b1 = choose|b1: int| 0 <= b1 < numbers.len() && numbers[b1] == parsed[i].batch_number;
        let c1 = choose|c1: int|
            0 <= c1 < channels.len() && channels[c1] == parsed[i].channel_identifier;
        assert(batch_built(result_batches, b1, numbers, channels, parsed));
        let k = file_at(result_batches, b1, c1).file_index as int;
        assert(is_file_of(parsed, k, numbers[b1], channels[c1]));
        if k < i {
            assert(twins(parsed, k, i));
            lemma_no_duplicate(parsed, 0, i);
        } else if k > i {
            assert(twins(parsed, i, k));
            lemma_no_duplicate(parsed, 0, k);
        }
    }
}

/// Batches that are built for ascending batch numbers and ascending
/// channels are well formed.
proof fn lemma_batches_wf(
    result_batches: Seq<GPUBoxBatch>,
    numbers: Seq<usize>,
    channels: Seq<usize>,
    parsed: Seq<GpuboxName>,
)
    requires
        numbers.len() > 0,
        channels.len() > 0,
        result_batches.len() == numbers.len(),
        strictly_ascending(numbers),
        strictly_ascending(channels),
        forall|b1: int|
            0 <= b1 < numbers.len() ==> #[trigger] batch_built(
                result_batches,
                b1,
                numbers,
                channels,
                parsed,
            ),
    ensures
        batches_wf(result_batches),
        batch_numbers(result_batches) == numbers,
        batch_channels(result_batches) == channels,
{
    assert(batch_built(result_batches, 0, numbers, channels, parsed));
    assert(batch_numbers(result_batches) =~= numbers) by {
        assert forall|b1: int| 0 <= b1 < numbers.len() implies batch_numbers(result_batches)[b1]
            == numbers[b1] by {
            assert(batch_built(result_batches, b1, numbers, channels, parsed));
        }
    }
    assert(batch_channels(result_batches) =~= channels);
    assert forall|b1: int| 0 <= b1 < result_batches.len() implies (#[trigger] result_batches[b1]).gpubox_files@.len()
        == result_batches[0].gpubox_files@.len() by {
        assert(batch_built(result_batches, b1, numbers, channels, parsed));
    }
    assert forall|b1: int, c1: int|
        0 <= b1 < result_batches.len() && 0 <= c1 < result_batches[0].gpubox_files@.len() implies (#[trigger] file_at(
        result_batches,
        b1,
        c1,
    )).channel_identifier == batch_channels(result_batches)[c1] by {
        assert(batch_built(result_batches, b1, numbers, channels, parsed));
    }
}

/// Where the batches before `b` are built and batch `b` holds no file
/// for channel `c`, batch `b` is the first that lacks a channel.
proof fn lemma_first_gap(
    batches: Seq<GPUBoxBatch>,
    b: int,
    c: int,
    numbers: Seq<usize>,
    channels: Seq<usize>,
    parsed: Seq<GpuboxName>,
)
    requires
        0 <= b < numbers.len(),
        0 <= c < channels.len(),
        strictly_ascending(numbers),
        batch_occurs(parsed, numbers[b]),
        channel_occurs(parsed, channels[c]),
        !holds(parsed, numbers[b], channels[c]),
        forall|i: int|
            0 <= i < parsed.len() ==> numbers.contains((#[trigger] parsed[i]).batch_number)
                && channels.contains(parsed[i].channel_identifier),
        forall|b1: int|
            0 <= b1 < b ==> #[trigger] batch_built(batches, b1, numbers, channels, parsed),
    ensures
        lacks_channel(parsed, numbers[b]),
        forall|other: usize| other < numbers[b] ==> !lacks_channel(parsed, other),
{
    let batch = numbers[b];
    let n = parsed.len();
    let i = choose|i: int| 0 <= i < n && (#[trigger] parsed[i]).channel_identifier == channels[c];
    assert(!holds(parsed, batch, parsed[i].channel_identifier));
    assert forall|other: usize| other < batch implies !lacks_channel(parsed, other) by {
        if batch_occurs(parsed, other) {
            let j = choose|j: int| 0 <= j < n && (#[trigger] parsed[j]).batch_number == other;
            assert(numbers.contains(parsed[j].batch_number));
            let b1 = choose|b1: int| 0 <= b1 < numbers.len() && numbers[b1] == other;
            if b1 >= b {
                assert(numbers[b] <= numbers[b1]);
            }
            assert(batch_built(batches, b1, numbers, channels, parsed));
            lemma_built_batch_complete(batches, b1, numbers, channels, parsed);
        }
    }
}

/// The batches of files that are known to be of one convention and to
/// hold no file twice.
fn build_batches(parsed: &Vec<GpuboxName>) -> (result: Result<Vec<GPUBoxBatch>, ErrorKind>)
    requires
        parsed@.len() > 0,
        first_duplicate(parsed@, 0) is None,
    ensures
        match result {
            Ok(batches) => {
                &&& forall|batch: usize| !lacks_channel(parsed@, batch)
                &&& batches_wf(batches@)
                &&& batches_hold(batches@, parsed@)
            },
            Err(e) => exists|batch: usize|
                {
                    &&& e == (ErrorKind::UnevenChannelsForBatch { batch_number: batch })
                    &&& #[trigger] lacks_channel(parsed@, batch)
                    &&& forall|other: usize| other < batch ==> !lacks_channel(parsed@, other)
                },
        },
{
    let n: usize = parsed.len();
    let mut batch_values: Vec<usize> = Vec::new();
    let mut channel_values: Vec<usize> = Vec::new();
    let mut i: usize = 0;
    while i < n
        invariant
            n == parsed@.len(),
            i <= n,
            batch_values@.len() == i,
            channel_values@.len() == i,
            forall|j: int| 0 <= j < i ==> batch_values@[j] == parsed@[j].batch_number,
            forall|j: int| 0 <= j < i ==> channel_values@[j] == parsed@[j].channel_identifier,
        decreases n - i,
    {
        batch_values.push(parsed[i].batch_number);
        channel_values.push(parsed[i].channel_identifier);
        i = i + 1;
    }
    let numbers: Vec<usize> = sorted_distinct(&batch_values);
    let channels: Vec<usize> = sorted_distinct(&channel_values);
    proof {
        assert forall|i: int| 0 <= i < n implies numbers@.contains((#[trigger] parsed@[i]).batch_number)
            && channels@.contains(parsed@[i].channel_identifier) by {
            assert(batch_values@[i] == parsed@[i].batch_number);
            assert(channel_values@[i] == parsed@[i].channel_identifier);
        }
        assert forall|b: int| 0 <= b < numbers@.len() implies batch_occurs(
            parsed@,
            #[trigger] numbers@[b],
        ) by {
            assert(numbers@.contains(numbers@[b]));
            let j = choose|j: int| 0 <= j < batch_values@.len() && batch_values@[j] == numbers@[b];
            assert(parsed@[j].batch_number == numbers@[b]);
        }
        assert forall|c: int| 0 <= c < channels@.len() implies channel_occurs(
            parsed@,
            #[trigger] channels@[c],
        ) by {
            assert(channels@.contains(channels@[c]));
            let j = choose|j: int|
                0 <= j < channel_values@.len() && channel_values@[j] == channels@[c];
            assert(parsed@[j].channel_identifier == channels@[c]);
        }
    }
    let mut batches: Vec<GPUBoxBatch> = Vec::new();
    let mut b: usize = 0;
    while b < numbers.len()
        invariant
            n == parsed@.len(),
            n > 0,
            first_duplicate(parsed@, 0) is None,
            b <= numbers@.len(),
            batches@.len() == b,
            strictly_ascending(numbers@),
            strictly_ascending(channels@),
            forall|i: int|
                0 <= i < n ==> numbers@.contains((#[trigger] parsed@[i]).batch_number)
                    && channels@.contains(parsed@[i].channel_identifier),
            forall|b1: int| 0 <= b1 < numbers@.len() ==> batch_occurs(parsed@, #[trigger] numbers@[b1]),
            forall|c: int|
                0 <= c < channels@.len() ==> channel_occurs(parsed@, #[trigger] channels@[c]),
            forall|b1: int|
                0 <= b1 < b ==> #[trigger] batch_built(batches@, b1, numbers@, channels@, parsed@),
        decreases numbers@.len() - b,
    {
        let batch: usize = numbers[b];
        let mut files: Vec<GPUBoxFile> = Vec::new();
        let mut c: usize = 0;
        while c < channels.len()
            invariant
                n == parsed@.len(),
                n > 0,
                first_duplicate(parsed@, 0) is None,
                forall|i: int| 0 <= i < n ==> numbers@.contains((#[trigger] parsed@[i]).batch_number),
                b < numbers@.len(),
                batch == numbers@[b as int],
                batches@.len() == b,
                c <= channels@.len(),
                files@.len() == c,
                strictly_ascending(numbers@),
                forall|i: int| 0 <= i < n ==> channels@.contains((#[trigger] parsed@[i]).channel_identifier),
                forall|b1: int|
                    0 <= b1 < numbers@.len() ==> batch_occurs(parsed@, #[trigger] numbers@[b1]),
                forall|c1: int|
                    0 <= c1 < channels@.len() ==> channel_occurs(parsed@, #[trigger] channels@[c1]),
                forall|b1: int|
                    0 <= b1 < b ==> #[trigger] batch_built(
                        batches@,
                        b1,
                        numbers@,
                        channels@,
                        parsed@,
                    ),
                forall|c1: int|
                    0 <= c1 < c ==> {
                        let file = #[trigger] files@[c1];
                        &&& file.channel_identifier == channels@[c1]
                        &&& file.file_index < n
                        &&& is_file_of(parsed@, file.file_index as int, batch, channels@[c1])
                    },
            decreases channels@.len() - c,
        {
            match find_file(&parsed, batch, channels[c]) {
                Some(k) => {
                    files.push(GPUBoxFile { file_index: k, channel_identifier: channels[c] });
                },
                None => {
                    proof {
                        lemma_first_gap(batches@, b as int, c as int, numbers@, channels@, parsed@);
                    }
                    return Err(ErrorKind::UnevenChannelsForBatch { batch_number: batch });
                },
            }
            c = c + 1;
        }
        let ghost before = batches@;
        batches.push(GPUBoxBatch { batch_number: batch, gpubox_files: files });
        proof {
            assert forall|b1: int| 0 <= b1 < b + 1 implies #[trigger] batch_built(
                batches@,
                b1,
                numbers@,
                channels@,
                parsed@,
            ) by {
                if b1 < b {
                    assert(batch_built(before, b1, numbers@, channels@, parsed@));
                    assert(batches@[b1] == before[b1]);
                    assert forall|c1: int| 0 <= c1 < channels@.len() implies {
                        let file = #[trigger] file_at(batches@, b1, c1);
                        &&& file.channel_identifier == channels@[c1]
                        &&& file.file_index < parsed@.len()
                        &&& is_file_of(parsed@, file.file_index as int, numbers@[b1], channels@[c1])
                    } by {
                        assert(file_at(batches@, b1, c1) == file_at(before, b1, c1));
                    }
                } else {
                    assert(batches@[b1].gpubox_files@ == files@);
                    assert forall|c1: int| 0 <= c1 < channels@.len() implies {
                        let file = #[trigger] file_at(batches@, b1, c1);
                        &&& file.channel_identifier == channels@[c1]
                        &&& file.file_index < parsed@.len()
                        &&& is_file_of(parsed@, file.file_index as int, numbers@[b1], channels@[c1])
                    } by {
                        assert(file_at(batches@, b1, c1) == files@[c1]);
                    }
                }
            }
        }
        b = b + 1;
    }
    proof {
        lemma_batches_complete(batches@, numbers@, channels@, parsed@);
    }
    Ok(batches)
}

/// Groups the data files into batches, from what their names say: the
/// batches ascending by batch number, the files of each ascending by
/// channel.
///
/// Every name must follow the same known convention, no two files may
/// share batch number and channel, and every batch must hold the same
/// channels.
pub fn determine_gpubox_batches(gpubox_filenames: &Vec<String>) -> (result: Result<
    (Vec<GPUBoxBatch>, CorrelatorVersion),
    ErrorKind,
>)
    ensures
        ({
            let names = names_of(gpubox_filenames@);
            let parsed = parsed_names(names);
            if names.len() == 0 {
                result == Err::<(Vec<GPUBoxBatch>, CorrelatorVersion), ErrorKind>(
                    ErrorKind::NoGpuboxFiles,
                )
            } else if first_name_error(names, 0) is Some {
                result == Err::<(Vec<GPUBoxBatch>, CorrelatorVersion), ErrorKind>(
                    first_name_error(names, 0).unwrap(),
                )
            } else if first_duplicate(parsed, 0) is Some {
                result == Err::<(Vec<GPUBoxBatch>, CorrelatorVersion), ErrorKind>(
                    ErrorKind::DuplicateFile {
                        file_index: first_duplicate(parsed, 0).unwrap() as usize,
                    },
                )
            } else {
                match result {
                    Ok((batches, version)) => {
                        &&& forall|batch: usize| !lacks_channel(parsed, batch)
                        &&& batches_wf(batches@)
                        &&& batches_hold(batches@, parsed)
                        &&& version == parsed[0].corr_version
                    },
                    Err(e) => exists|batch: usize|
                        {
                            &&& e == (ErrorKind::UnevenChannelsForBatch { batch_number: batch })
                            &&& #[trigger] lacks_channel(parsed, batch)
                            &&& forall|other: usize| other < batch ==> !lacks_channel(parsed, other)
                        },
                }
            }
        }),
{
    let ghost names = names_of(gpubox_filenames@);
    if gpubox_filenames.len() == 0 {
        return Err(ErrorKind::NoGpuboxFiles);
    }
    let parsed: Vec<GpuboxName> = match classify_names(gpubox_filenames) {
        Ok(parsed) => parsed,
        Err(e) => {
            return Err(e);
        },
    };
    match find_duplicate(&parsed) {
        Some(i) => {
            return Err(ErrorKind::DuplicateFile { file_index: i });
        },
        None => {},
    }
    let version: CorrelatorVersion = parsed[0].corr_version;
    match build_batches(&parsed) {
        Ok(batches) => Ok((batches, version)),
        Err(e) => Err(e),
    }
}

/// Place of the file at place `c` of batch `b` in the list of file names
/// that was given, where `position` is `b` times the files of a batch,
/// plus `c`.
pub open spec fn file_index_at(batches: Seq<GPUBoxBatch>, position: int) -> int {
    let files_per_batch = batches[0].gpubox_files@.len() as int;
    file_at(batches, position / files_per_batch, position % files_per_batch).file_index as int
}

/// The batches hold as many files as names were given: the batches, times
/// the files of a batch, are the files.
pub proof fn lemma_batches_hold_every_file(batches: Seq<GPUBoxBatch>, parsed: Seq<GpuboxName>)
    requires
        batches_wf(batches),
        batches_hold(batches, parsed),
    ensures
        batches.len() * batches[0].gpubox_files@.len() == parsed.len(),
{
    let nb = batches.len() as int;
    let nc = batches[0].gpubox_files@.len() as int;
    let n = parsed.len() as int;
    assert(nb * nc >= 0) by (nonlinear_arith)
        requires
            nb >= 0,
            nc >= 0,
    ;
    let places = set_int_range(0, nb * nc);
    let files = set_int_range(0, n);
    let f = |position: int| file_index_at(batches, position);
    assert forall|first: int, second: int|
        places.contains(first) && places.contains(second) && #[trigger] f(first) == #[trigger] f(
            second,
        ) implies first == second by {
        crate::convert::lemma_flat_split(first, nb, nc);
        crate::convert::lemma_flat_split(second, nb, nc);
        let (b1, c1) = (first / nc, first % nc);
        let (b2, c2) = (second / nc, second % nc);
        let file1 = file_at(batches, b1, c1);
        let file2 = file_at(batches, b2, c2);
        assert(batches[b1].gpubox_files@.len() == nc && batches[b2].gpubox_files@.len() == nc);
        assert(is_file_of(parsed, file1.file_index as int, batches[b1].batch_number, file1.channel_identifier));
        assert(is_file_of(parsed, file2.file_index as int, batches[b2].batch_number, file2.channel_identifier));
        assert(batch_numbers(batches)[b1] == batch_numbers(batches)[b2]);
        if b1 < b2 {
            assert(batch_numbers(batches)[b1] < batch_numbers(batches)[b2]);
        } else if b2 < b1 {
            assert(batch_numbers(batches)[b2] < batch_numbers(batches)[b1]);
        }
        assert(file1.channel_identifier == batch_channels(batches)[c1]);
        assert(file2.channel_identifier == batch_channels(batches)[c2]);
        if c1 < c2 {
            assert(batch_channels(batches)[c1] < batch_channels(batches)[c2]);
        } else if c2 < c1 {
            assert(batch_channels(batches)[c2] < batch_channels(batches)[c1]);
        }
    }
    assert(places.map(f) =~= files) by {
        assert forall|i: int| files.contains(i) implies places.map(f).contains(i) by {
            assert(placed(batches, i));
            let (b, c) = choose|b: int, c: int|
                0 <= b < batches.len() && 0 <= c < batches[b].gpubox_files@.len() && (
                #[trigger] file_at(batches, b, c)).file_index == i;
            assert(batches[b].gpubox_files@.len() == nc);
            crate::convert::lemma_flat_bound(b, c, nb, nc);
            crate::convert::lemma_flat_index(b, c, nc);
            let position = b * nc + c;
            assert(places.contains(position) && f(position) == i);
        }
        assert forall|i: int| places.map(f).contains(i) implies files.contains(i) by {
            let position = choose|position: int| places.contains(position) && i == f(position);
            crate::convert::lemma_flat_split(position, nb, nc);
            assert(batches[position / nc].gpubox_files@.len() == nc);
            let file = file_at(batches, position / nc, position % nc);
            assert(file.file_index < parsed.len());
        }
    }
    lemma_int_range(0, nb * nc);
    lemma_int_range(0, n);
    lemma_map_size(places, files, f);
}

} // verus!
