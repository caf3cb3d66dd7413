//! The side information that follows a frame's header.
//!
//! It opens with `main_data_begin` (9 bits), the private bits (5 for one
//! channel, 3 for two) and the scale factor selection bits (4 for one
//! channel, 8 for two). Then come two granules, each with one block of 59
//! bits for every channel.

use vstd::prelude::*;
use vstd::arithmetic::power2::lemma2_to64;
use crate::bits::{bits_value, lemma_bits_value_bound, total_bits};
use crate::buffer::Buffer;
use crate::error::ErrorType;
use crate::header::Mode;

verus! {

/// The number of bits that one channel takes in one granule.
pub const CHANNEL_BITS: usize = 59;

/// The most big values that a channel may declare.
pub const MAX_BIG_VALUES: u16 = 288;

/// What `region_count[2]` holds when the stream carries two region counts.
pub const NO_REGION: u8 = 255;

/// The side information of one channel in one granule.
#[derive(Clone, Copy, Debug, PartialEq, Eq)]
pub struct ChannelInfo {
    pub part_23_length: u16,
    pub big_values: u16,
    pub global_gain: u8,
    pub scalefac_compress: u8,
    pub windows_switching: bool,
    /// Read only when windows are switched, else 0.
    pub block_type: u8,
    /// Read only when windows are switched, else false.
    pub mixed_block_flag: bool,
    /// Two entries are read when windows are switched, else three.
    pub table_select: [u8; 3],
    /// Read only when windows are switched, else zeros.
    pub subblock_gain: [u8; 3],
    /// Without window switching: two counts from the stream, then
    /// `NO_REGION`. With it: zeros.
    pub region_count: [u8; 3],
    pub preflag: bool,
    pub scalefac_scale: bool,
    pub count1_table_select: bool,
}

/// The channels of one granule, in stream order.
#[derive(Debug, PartialEq, Eq)]
pub struct Granule {
    pub channels: Vec<ChannelInfo>,
}

/// The first bit of the field that holds bit `offset` of a channel's 59
/// bits. The fields after bit 34 depend on whether windows are switched.
pub open spec fn field_start(switching: bool, offset: int) -> int {
    if offset < 12 {
        0
    } else if offset < 21 {
        12
    } else if offset < 29 {
        21
    } else if offset < 33 {
        29
    } else if offset < 34 {
        33
    } else if switching {
        if offset < 36 {
            34
        } else if offset < 37 {
            36
        } else if offset < 42 {
            37
        } else if offset < 47 {
            42
        } else if offset < 50 {
            47
        } else if offset < 53 {
            50
        } else if offset < 56 {
            53
        } else {
            56
        }
    } else {
        if offset < 39 {
            34
        } else if offset < 44 {
            39
        } else if offset < 49 {
            44
        } else if offset < 53 {
            49
        } else if offset < 56 {
            53
        } else {
            56
        }
    }
}

/// The fields of the channel whose 59 bits start at bit `b`.
#[verifier::opaque]
pub open spec fn channel_at(data: Seq<u8>, b: int) -> ChannelInfo {
    let switching = bits_value(data, b + 33, 1) == 1;
    ChannelInfo {
        part_23_length: bits_value(data, b, 12) as u16,
        big_values: bits_value(data, b + 12, 9) as u16,
        global_gain: bits_value(data, b + 21, 8) as u8,
        scalefac_compress: bits_value(data, b + 29, 4) as u8,
        windows_switching: switching,
        block_type: if switching {
            bits_value(data, b + 34, 2) as u8
        } else {
            0
        },
        mixed_block_flag: switching && bits_value(data, b + 36, 1) == 1,
        table_select: if switching {
            [bits_value(data, b + 37, 5) as u8, bits_value(data, b + 42, 5) as u8, 0]
        } else {
            [
                bits_value(data, b + 34, 5) as u8,
                bits_value(data, b + 39, 5) as u8,
                bits_value(data, b + 44, 5) as u8,
            ]
        },
        subblock_gain: if switching {
            [
                bits_value(data, b + 47, 3) as u8,
                bits_value(data, b + 50, 3) as u8,
                bits_value(data, b + 53, 3) as u8,
            ]
        } else {
            [0, 0, 0]
        },
        region_count: if switching {
            [0, 0, 0]
        } else {
            [bits_value(data, b + 49, 4) as u8, bits_value(data, b + 53, 3) as u8, NO_REGION]
        },
        preflag: bits_value(data, b + 56, 3) / 4 % 2 == 1,
        scalefac_scale: bits_value(data, b + 56, 3) / 2 % 2 == 1,
        count1_table_select: bits_value(data, b + 56, 3) % 2 == 1,
    }
}

/// How decoding a channel at bit `b` ends, and where it leaves the cursor.
///
/// The fields are read one after another, and no read takes the last bit of
/// the data. So decoding runs out of bits at the field that holds that bit,
/// unless one of the two checks has failed before: the one on `big_values`,
/// made after bit 21, or the one on `block_type`, made after bit 36.
pub open spec fn channel_outcome(data: Seq<u8>, b: int) -> (Result<ChannelInfo, ErrorType>, int) {
    let channel = channel_at(data, b);
    let last = total_bits(data) - 1 - b;
    if last >= 21 && channel.big_values > MAX_BIG_VALUES {
        (Err(ErrorType::BigValuesOutOfRange), b + 21)
    } else if last >= 36 && channel.windows_switching && channel.block_type == 0 {
        (Err(ErrorType::BlockTypeForbidden), b + 36)
    } else if last < 59 {
        (Err(ErrorType::OutOfRange), b + field_start(channel.windows_switching, last))
    } else {
        (Ok(channel), b + 59)
    }
}

/// Decoding a channel moves the cursor forwards, if at all, and never past
/// the end of the data.
pub proof fn lemma_channel_outcome_bounds(data: Seq<u8>, b: int)
    requires
        0 <= b <= total_bits(data),
    ensures
        b <= channel_outcome(data, b).1 <= total_bits(data),
{
}

impl ChannelInfo {
    /// A channel with every field zero.
    pub open spec fn zero() -> ChannelInfo {
        ChannelInfo {
            part_23_length: 0,
            big_values: 0,
            global_gain: 0,
            scalefac_compress: 0,
            windows_switching: false,
            block_type: 0,
            mixed_block_flag: false,
            table_select: [0, 0, 0],
            subblock_gain: [0, 0, 0],
            region_count: [0, 0, 0],
            preflag: false,
            scalefac_scale: false,
            count1_table_select: false,
        }
    }

    /// A channel with every field zero.
    #[inline]
    pub fn new() -> (channel: ChannelInfo)
        ensures
            channel == ChannelInfo::zero(),
    {
        ChannelInfo {
            part_23_length: 0,
            big_values: 0,
            global_gain: 0,
            scalefac_compress: 0,
            windows_switching: false,
            block_type: 0,
            mixed_block_flag: false,
            table_select: [0, 0, 0],
            subblock_gain: [0, 0, 0],
            region_count: [0, 0, 0],
            preflag: false,
            scalefac_scale: false,
            count1_table_select: false,
        }
    }

    /// Decodes the channel at the cursor. On failure the cursor stays after
    /// the last field that was read.
    pub fn create_from_buffer(buffer: &mut Buffer) -> (r: Result<ChannelInfo, ErrorType>)
        requires
            old(buffer).wf(),
        ensures
            final(buffer).wf(),
            final(buffer).data@ == old(buffer).data@,
            (r, final(buffer).pos as int) == channel_outcome(
                old(buffer).data@,
                old(buffer).pos as int,
            ),
    {
        let ghost data = buffer.data@;
        let ghost b: int = buffer.pos as int;
        proof {
            reveal(channel_at);
            lemma2_to64();
            lemma_bits_value_bound(data, b, 12);
            lemma_bits_value_bound(data, b + 12, 9);
            lemma_bits_value_bound(data, b + 21, 8);
            lemma_bits_value_bound(data, b + 29, 4);
            lemma_bits_value_bound(data, b + 33, 1);
            lemma_bits_value_bound(data, b + 56, 3);
        }
        let mut channel = ChannelInfo::new();

        channel.part_23_length = buffer.get_bits(12)? as u16;
        channel.big_values = buffer.get_bits(9)? as u16;
        if channel.big_values > MAX_BIG_VALUES {
            return Err(ErrorType::BigValuesOutOfRange);
        }
        channel.global_gain = buffer.get_bits(8)? as u8;
        channel.scalefac_compress = buffer.get_bits(4)? as u8;
        channel.windows_switching = buffer.get_bits(1)? == 1;

        if channel.windows_switching {
            proof {
                lemma_bits_value_bound(data, b + 34, 2);
                lemma_bits_value_bound(data, b + 36, 1);
                lemma_bits_value_bound(data, b + 37, 5);
                lemma_bits_value_bound(data, b + 42, 5);
                lemma_bits_value_bound(data, b + 47, 3);
                lemma_bits_value_bound(data, b + 50, 3);
                lemma_bits_value_bound(data, b + 53, 3);
            }
            channel.block_type = buffer.get_bits(2)? as u8;
            if channel.block_type == 0 {
                return Err(ErrorType::BlockTypeForbidden);
            }
            channel.mixed_block_flag = buffer.get_bits(1)? == 1;
            let table0: u8 = buffer.get_bits(5)? as u8;
            let table1: u8 = buffer.get_bits(5)? as u8;
            channel.table_select = [table0, table1, 0];
            let gain0: u8 = buffer.get_bits(3)? as u8;
            let gain1: u8 = buffer.get_bits(3)? as u8;
            let gain2: u8 = buffer.get_bits(3)? as u8;
            channel.subblock_gain = [gain0, gain1, gain2];
        } else {
            proof {
                lemma_bits_value_bound(data, b + 34, 5);
                lemma_bits_value_bound(data, b + 39, 5);
                lemma_bits_value_bound(data, b + 44, 5);
                lemma_bits_value_bound(data, b + 49, 4);
                lemma_bits_value_bound(data, b + 53, 3);
            }
            let table0: u8 = buffer.get_bits(5)? as u8;
            let table1: u8 = buffer.get_bits(5)? as u8;
            let table2: u8 = buffer.get_bits(5)? as u8;
            channel.table_select = [table0, table1, table2];
            let region0: u8 = buffer.get_bits(4)? as u8;
            let region1: u8 = buffer.get_bits(3)? as u8;
            channel.region_count = [region0, region1, NO_REGION];
        }

        let bits: u8 = buffer.get_bits(3)? as u8;
        assert({
            &&& (bits & 4 == 4) == (bits / 4 % 2 == 1)
            &&& (bits & 2 == 2) == (bits / 2 % 2 == 1)
            &&& (bits & 1 == 1) == (bits % 2 == 1)
        }) by (bit_vector);
        channel.preflag = bits & 4 == 4;
        channel.scalefac_scale = bits & 2 == 2;
        channel.count1_table_select = bits & 1 == 1;

        proof {
            let want = channel_at(data, b);
            assert(channel.table_select =~= want.table_select);
            assert(channel.subblock_gain =~= want.subblock_gain);
            assert(channel.region_count =~= want.region_count);
        }
        Ok(channel)
    }
}

impl View for Granule {
    type V = Seq<ChannelInfo>;

    open spec fn view(&self) -> Seq<ChannelInfo> {
        self.channels@
    }
}

/// How decoding `count` channels one after another from bit `b` on ends, and
/// where it leaves the cursor. The first channel that fails ends it.
pub open spec fn channels_outcome(data: Seq<u8>, b: int, count: nat) -> (
    Result<Seq<ChannelInfo>, ErrorType>,
    int,
)
    decreases count,
{
    if count == 0 {
        (Ok(Seq::empty()), b)
    } else {
        let before = channels_outcome(data, b, (count - 1) as nat);
        match before.0 {
            Err(e) => (Err(e), before.1),
            Ok(channels) => {
                let next = channel_outcome(data, before.1);
                match next.0 {
                    Err(e) => (Err(e), next.1),
                    Ok(channel) => (Ok(channels.push(channel)), next.1),
                }
            },
        }
    }
}

/// The sum of `part_23_length` over `channels`.
pub open spec fn part_23_total(channels: Seq<ChannelInfo>) -> int
    decreases channels.len(),
{
    if channels.len() == 0 {
        0
    } else {
        part_23_total(channels.drop_last()) + channels.last().part_23_length
    }
}

/// A run of channels that has failed stays failed, however many more
/// channels are asked for.
pub proof fn lemma_channels_outcome_failed(data: Seq<u8>, b: int, done: nat, count: nat)
    requires
        done <= count,
        channels_outcome(data, b, done).0 is Err,
    ensures
        channels_outcome(data, b, count) == channels_outcome(data, b, done),
    decreases count,
{
    if done < count {
        lemma_channels_outcome_failed(data, b, done, (count - 1) as nat);
    }
}

/// A run of channels that succeeds yields `count` channels, each of them at
/// its place in the stream and within the limits that decoding checks, and
/// takes 59 bits for each.
pub proof fn lemma_channels_outcome_ok(data: Seq<u8>, b: int, count: nat)
    requires
        channels_outcome(data, b, count).0 is Ok,
    ensures
        channels_outcome(data, b, count).1 == b + CHANNEL_BITS * count,
        count > 0 ==> channels_outcome(data, b, count).1 < total_bits(data),
        channels_outcome(data, b, count).0->Ok_0.len() == count,
        forall|i: int|
            0 <= i < count ==> {
                let channel = #[trigger] channels_outcome(data, b, count).0->Ok_0[i];
                &&& channel == channel_at(data, b + CHANNEL_BITS * i)
                &&& channel.big_values <= MAX_BIG_VALUES
                &&& channel.windows_switching ==> channel.block_type != 0
            },
    decreases count,
{
    if count > 0 {
        lemma_channels_outcome_ok(data, b, (count - 1) as nat);
    }
}

impl Default for ChannelInfo {
    fn default() -> (channel: ChannelInfo)
        ensures
            channel == ChannelInfo::zero(),
    {
        ChannelInfo::new()
    }
}

impl Default for Granule {
    fn default() -> (granule: Granule)
        ensures
            granule@ == Seq::<ChannelInfo>::empty(),
    {
        Granule::new()
    }
}

/// Decoding a run of channels moves the cursor forwards, if at all, and
/// never past the end of the data.
pub proof fn lemma_channels_outcome_bounds(data: Seq<u8>, b: int, count: nat)
    requires
        0 <= b <= total_bits(data),
    ensures
        b <= channels_outcome(data, b, count).1 <= total_bits(data),
    decreases count,
{
    if count > 0 {
        lemma_channels_outcome_bounds(data, b, (count - 1) as nat);
        lemma_channel_outcome_bounds(data, channels_outcome(data, b, (count - 1) as nat).1);
    }
}

impl Granule {
    /// A granule without channels.
    #[inline]
    pub fn new() -> (granule: Granule)
        ensures
            granule@ == Seq::<ChannelInfo>::empty(),
    {
        Granule { channels: Vec::new() }
    }

    /// Decodes `channels` channels from the cursor on. On failure the cursor
    /// stays where the channel that failed left it.
    pub fn create_from_buffer(buffer: &mut Buffer, channels: usize) -> (r: Result<
        Granule,
        ErrorType,
    >)
        requires
            old(buffer).wf(),
        ensures
            final(buffer).wf(),
            final(buffer).data@ == old(buffer).data@,
            (granule_result_view(r), final(buffer).pos as int) == channels_outcome(
                old(buffer).data@,
                old(buffer).pos as int,
                channels as nat,
            ),
            r matches Ok(granule) ==> granule@.len() == channels,
    {
        let ghost data = buffer.data@;
        let ghost b: int = buffer.pos as int;
        let mut granule = Granule::new();
        let mut i: usize = 0;
        while i < channels
            invariant
                buffer.wf(),
                buffer.data@ == data,
                data == old(buffer).data@,
                b == old(buffer).pos,
                i <= channels,
                granule@.len() == i,
                channels_outcome(data, b, i as nat) == (
                    Ok::<Seq<ChannelInfo>, ErrorType>(granule@),
                    buffer.pos as int,
                ),
            decreases channels - i,
        {
            match ChannelInfo::create_from_buffer(buffer) {
                Ok(channel) => {
                    granule.channels.push(channel);
                },
                Err(e) => {
                    proof {
                        lemma_channels_outcome_failed(data, b, (i + 1) as nat, channels as nat);
                    }
                    return Err(e);
                },
            }
            i += 1;
        }
        Ok(granule)
    }
}

/// A decoding result with the granule replaced by its channels.
pub open spec fn granule_result_view(r: Result<Granule, ErrorType>) -> Result<
    Seq<ChannelInfo>,
    ErrorType,
> {
    match r {
        Ok(granule) => Ok(granule@),
        Err(e) => Err(e),
    }
}

/// The side information of one frame.
#[derive(Debug, PartialEq, Eq)]
pub struct SideInfo {
    /// How many bytes before this frame its main data begins.
    pub main_data_begin: u16,
    pub private_bits: u8,
    pub scfsi: u8,
    pub granules: [Granule; 2],
}

/// The side information of one frame as plain values: each granule is the
/// sequence of its channels.
pub struct SideInfoView {
    pub main_data_begin: u16,
    pub private_bits: u8,
    pub scfsi: u8,
    pub granules: Seq<Seq<ChannelInfo>>,
}

impl View for SideInfo {
    type V = SideInfoView;

    open spec fn view(&self) -> SideInfoView {
        SideInfoView {
            main_data_begin: self.main_data_begin,
            private_bits: self.private_bits,
            scfsi: self.scfsi,
            granules: seq![self.granules[0]@, self.granules[1]@],
        }
    }
}

/// The number of channels in a granule of a frame of mode `mode`.
pub open spec fn channel_count(mode: Mode) -> nat {
    if mode == Mode::SingleChannel {
        1
    } else {
        2
    }
}

/// The width of the private bits in a frame of mode `mode`.
pub open spec fn private_width(mode: Mode) -> nat {
    if mode == Mode::SingleChannel {
        5
    } else {
        3
    }
}

/// The width of the scale factor selection bits in a frame of mode `mode`.
pub open spec fn scfsi_width(mode: Mode) -> nat {
    if mode == Mode::SingleChannel {
        4
    } else {
        8
    }
}

/// How decoding the side information at bit `pos` ends, and where it leaves
/// the cursor.
///
/// The three opening fields are read first; like a channel's, their reading
/// runs out of bits at the field that holds the last bit of the data. Then
/// the two granules are decoded. A side information that decodes is refused
/// at the end when the lengths it declares, counted from `pos` on, reach
/// beyond the end of the data by more than `main_data_begin` bytes.
pub open spec fn side_info_outcome(data: Seq<u8>, pos: int, mode: Mode) -> (
    Result<SideInfoView, ErrorType>,
    int,
) {
    let last = total_bits(data) - 1 - pos;
    let private_at = pos + 9;
    let scfsi_at = private_at + private_width(mode);
    let granules_at = scfsi_at + scfsi_width(mode);
    if pos + last < private_at {
        (Err(ErrorType::OutOfRange), pos)
    } else if pos + last < scfsi_at {
        (Err(ErrorType::OutOfRange), private_at)
    } else if pos + last < granules_at {
        (Err(ErrorType::OutOfRange), scfsi_at)
    } else {
        let first = channels_outcome(data, granules_at, channel_count(mode));
        match first.0 {
            Err(e) => (Err(e), first.1),
            Ok(first_channels) => {
                let second = channels_outcome(data, first.1, channel_count(mode));
                match second.0 {
                    Err(e) => (Err(e), second.1),
                    Ok(second_channels) => {
                        let main_data_begin = bits_value(data, pos, 9) as u16;
                        if pos + part_23_total(first_channels) + part_23_total(second_channels)
                            > total_bits(data) + 8 * main_data_begin {
                            (Err(ErrorType::Overflow), second.1)
                        } else {
                            (
                                Ok(
                                    SideInfoView {
                                        main_data_begin,
                                        private_bits: bits_value(
                                            data,
                                            private_at,
                                            private_width(mode),
                                        ) as u8,
                                        scfsi: bits_value(data, scfsi_at, scfsi_width(mode)) as u8,
                                        granules: seq![first_channels, second_channels],
                                    },
                                ),
                                second.1,
                            )
                        }
                    },
                }
            },
        }
    }
}

/// Decoding side information moves the cursor forwards, if at all, and
/// never past the end of the data.
pub proof fn lemma_side_info_outcome_bounds(data: Seq<u8>, pos: int, mode: Mode)
    requires
        0 <= pos <= total_bits(data),
    ensures
        pos <= side_info_outcome(data, pos, mode).1 <= total_bits(data),
{
    let granules_at = pos + 9 + private_width(mode) + scfsi_width(mode);
    if granules_at < total_bits(data) {
        lemma_channels_outcome_bounds(data, granules_at, channel_count(mode));
        let second_at = channels_outcome(data, granules_at, channel_count(mode)).1;
        lemma_channels_outcome_bounds(data, second_at, channel_count(mode));
    }
}

/// Side information that decodes has two granules with one channel for
/// every channel of the mode. Each channel stands at its place in the
/// stream, declares no more than 288 big values and, where it switches
/// windows, a block type other than 0. The cursor is left behind the last
/// channel, and before the last bit of the data.
pub proof fn lemma_side_info_outcome_ok(data: Seq<u8>, pos: int, mode: Mode)
    requires
        side_info_outcome(data, pos, mode).0 is Ok,
    ensures
        ({
            let side_info = side_info_outcome(data, pos, mode).0->Ok_0;
            let count = channel_count(mode);
            let first_at = pos + 9 + private_width(mode) + scfsi_width(mode);
            let second_at = first_at + CHANNEL_BITS * count;
            &&& side_info_outcome(data, pos, mode).1 == second_at + CHANNEL_BITS * count
            &&& side_info_outcome(data, pos, mode).1 < total_bits(data)
            &&& side_info.granules.len() == 2
            &&& side_info.granules[0].len() == count
            &&& side_info.granules[1].len() == count
            &&& forall|c: int|
                0 <= c < count ==> {
                    let channel = #[trigger] side_info.granules[0][c];
                    &&& channel == channel_at(data, first_at + CHANNEL_BITS * c)
                    &&& channel.big_values <= MAX_BIG_VALUES
                    &&& channel.windows_switching ==> channel.block_type != 0
                }
            &&& forall|c: int|
                0 <= c < count ==> {
                    let channel = #[trigger] side_info.granules[1][c];
                    &&& channel == channel_at(data, second_at + CHANNEL_BITS * c)
                    &&& channel.big_values <= MAX_BIG_VALUES
                    &&& channel.windows_switching ==> channel.block_type != 0
                }
        }),
{
    let count = channel_count(mode);
    let first_at = pos + 9 + private_width(mode) + scfsi_width(mode);
    let first = channels_outcome(data, first_at, count);
    lemma_channels_outcome_ok(data, first_at, count);
    let second = channels_outcome(data, first.1, count);
    lemma_channels_outcome_ok(data, first.1, count);
    let side_info = side_info_outcome(data, pos, mode).0->Ok_0;
    assert(side_info.granules == seq![first.0->Ok_0, second.0->Ok_0]);
    assert(side_info.granules[0] == first.0->Ok_0);
    assert(side_info.granules[1] == second.0->Ok_0);
}

/// A decoding result with the side information replaced by its view.
pub open spec fn side_info_result_view(r: Result<SideInfo, ErrorType>) -> Result<
    SideInfoView,
    ErrorType,
> {
    match r {
        Ok(side_info) => Ok(side_info@),
        Err(e) => Err(e),
    }
}

/// The sum of `part_23_length` over the channels of a granule of one or two
/// channels.
fn part_23_sum(granule: &Granule) -> (sum: usize)
    requires
        granule@.len() <= 2,
    ensures
        sum == part_23_total(granule@),
        sum <= 2 * u16::MAX,
{
    let mut sum: usize = 0;
    let mut i: usize = 0;
    while i < granule.channels.len()
        invariant
            i <= granule@.len() <= 2,
            sum == part_23_total(granule@.take(i as int)),
            sum <= i * u16::MAX,
        decreases granule@.len() - i,
    {
        proof {
            assert(granule@.take(i + 1).drop_last() =~= granule@.take(i as int));
        }
        sum = sum + granule.channels[i].part_23_length as usize;
        i += 1;
    }
    proof {
        assert(granule@.take(i as int) =~= granule@);
    }
    sum
}

impl SideInfo {
    /// Decodes the side information at the cursor for a frame of mode
    /// `mode`. On failure the cursor stays where decoding stopped.
    pub fn create_from_buffer(buffer: &mut Buffer, mode: &Mode) -> (r: Result<SideInfo, ErrorType>)
        requires
            old(buffer).wf(),
        ensures
            final(buffer).wf(),
            final(buffer).data@ == old(buffer).data@,
            (side_info_result_view(r), final(buffer).pos as int) == side_info_outcome(
                old(buffer).data@,
                old(buffer).pos as int,
                *mode,
            ),
    {
        let ghost data = buffer.data@;
        let ghost pos: int = buffer.pos as int;
        proof {
            lemma2_to64();
            lemma_bits_value_bound(data, pos, 9);
            lemma_bits_value_bound(data, pos + 9, private_width(*mode));
            lemma_bits_value_bound(data, pos + 9 + private_width(*mode), scfsi_width(*mode));
        }
        let is_mono: bool = *mode == Mode::SingleChannel;
        let start: usize = buffer.pos;

        let main_data_begin: u16 = buffer.get_bits(9)? as u16;
        let private_bits: u8 = buffer.get_bits(if is_mono { 5 } else { 3 })? as u8;
        let scfsi: u8 = buffer.get_bits(if is_mono { 4 } else { 8 })? as u8;

        let nch: usize = if is_mono { 1 } else { 2 };
        let first = Granule::create_from_buffer(buffer, nch)?;
        let second = Granule::create_from_buffer(buffer, nch)?;

        let declared: usize = part_23_sum(&first) + part_23_sum(&second);
        let room: usize = buffer.total_bits - start;
        if declared > room && declared - room > 8 * (main_data_begin as usize) {
            return Err(ErrorType::Overflow);
        }
        Ok(SideInfo { main_data_begin, private_bits, scfsi, granules: [first, second] })
    }
}

} // verus!
