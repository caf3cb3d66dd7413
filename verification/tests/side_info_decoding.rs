use mp3_frames::buffer::Buffer;
use mp3_frames::error::ErrorType;
use mp3_frames::header::Mode;
use mp3_frames::side_info::{ChannelInfo, Granule, SideInfo};

/// Collects bits, first bit first, and packs them into bytes.
struct Bits {
    bits: Vec<bool>,
}

impl Bits {
    fn new() -> Bits {
        Bits { bits: Vec::new() }
    }

    fn put(&mut self, value: u32, width: u32) {
        for k in (0..width).rev() {
            self.bits.push((value >> k) & 1 == 1);
        }
    }

    fn len(&self) -> usize {
        self.bits.len()
    }

    /// The bytes, the last one filled up with zeros, and `extra` zero bytes
    /// behind them.
    fn bytes(&self, extra: usize) -> Vec<u8> {
        let mut out = vec![0u8; (self.bits.len() + 7) / 8 + extra];
        for (i, bit) in self.bits.iter().enumerate() {
            if *bit {
                out[i / 8] |= 1 << (7 - i % 8);
            }
        }
        out
    }
}

/// Writes a channel the way the stream holds it.
fn put_channel(w: &mut Bits, c: &ChannelInfo) {
    w.put(c.part_23_length as u32, 12);
    w.put(c.big_values as u32, 9);
    w.put(c.global_gain as u32, 8);
    w.put(c.scalefac_compress as u32, 4);
    w.put(c.windows_switching as u32, 1);
    if c.windows_switching {
        w.put(c.block_type as u32, 2);
        w.put(c.mixed_block_flag as u32, 1);
        w.put(c.table_select[0] as u32, 5);
        w.put(c.table_select[1] as u32, 5);
        for g in c.subblock_gain {
            w.put(g as u32, 3);
        }
    } else {
        for t in c.table_select {
            w.put(t as u32, 5);
        }
        w.put(c.region_count[0] as u32, 4);
        w.put(c.region_count[1] as u32, 3);
    }
    w.put(c.preflag as u32, 1);
    w.put(c.scalefac_scale as u32, 1);
    w.put(c.count1_table_select as u32, 1);
}

fn long_channel(seed: u16) -> ChannelInfo {
    ChannelInfo {
        part_23_length: 100 + seed,
        big_values: 200 + seed,
        global_gain: 150 + seed as u8,
        scalefac_compress: 9,
        windows_switching: false,
        block_type: 0,
        mixed_block_flag: false,
        table_select: [17, 3 + seed as u8, 31],
        subblock_gain: [0, 0, 0],
        region_count: [11, 5, 255],
        preflag: true,
        scalefac_scale: false,
        count1_table_select: true,
    }
}

fn short_channel(seed: u16) -> ChannelInfo {
    ChannelInfo {
        part_23_length: 40 + seed,
        big_values: 288,
        global_gain: 7,
        scalefac_compress: 15,
        windows_switching: true,
        block_type: 2,
        mixed_block_flag: true,
        table_select: [30, 1, 0],
        subblock_gain: [7, 0, 5],
        region_count: [0, 0, 0],
        preflag: false,
        scalefac_scale: true,
        count1_table_select: false,
    }
}

fn put_side_info(w: &mut Bits, mono: bool, begin: u32, private: u32, scfsi: u32, chs: &[ChannelInfo]) {
    w.put(begin, 9);
    w.put(private, if mono { 5 } else { 3 });
    w.put(scfsi, if mono { 4 } else { 8 });
    for c in chs {
        put_channel(w, c);
    }
}

#[test]
fn channel_defaults_are_zero() {
    let c = ChannelInfo::new();
    assert_eq!(c, ChannelInfo::default());
    assert_eq!(c.part_23_length, 0);
    assert_eq!(c.big_values, 0);
    assert!(!c.windows_switching);
    assert_eq!(c.table_select, [0, 0, 0]);
    assert_eq!(c.subblock_gain, [0, 0, 0]);
    assert_eq!(c.region_count, [0, 0, 0]);
    assert!(!c.preflag && !c.scalefac_scale && !c.count1_table_select);
    assert!(Granule::new().channels.is_empty());
    assert!(Granule::default().channels.is_empty());
}

#[test]
fn stereo_side_info_is_decoded_field_by_field() {
    let chs = [long_channel(0), short_channel(1), short_channel(2), long_channel(3)];
    let mut w = Bits::new();
    put_side_info(&mut w, false, 0x1a5, 0b101, 0b1100_0011, &chs);
    assert_eq!(w.len(), 256);
    let mut buffer = Buffer::new(w.bytes(1));

    let side_info = SideInfo::create_from_buffer(&mut buffer, &Mode::Stereo).unwrap();
    assert_eq!(
        side_info,
        SideInfo {
            main_data_begin: 0x1a5,
            private_bits: 0b101,
            scfsi: 0b1100_0011,
            granules: [
                Granule { channels: vec![chs[0], chs[1]] },
                Granule { channels: vec![chs[2], chs[3]] },
            ],
        }
    );
    assert_eq!(buffer.pos, 256);
}

#[test]
fn mono_side_info_is_decoded_field_by_field() {
    let chs = [short_channel(5), long_channel(6)];
    let mut w = Bits::new();
    put_side_info(&mut w, true, 3, 0b10110, 0b1001, &chs);
    assert_eq!(w.len(), 136);
    let mut buffer = Buffer::new(w.bytes(1));

    let side_info = SideInfo::create_from_buffer(&mut buffer, &Mode::SingleChannel).unwrap();
    assert_eq!(
        side_info,
        SideInfo {
            main_data_begin: 3,
            private_bits: 0b10110,
            scfsi: 0b1001,
            granules: [Granule { channels: vec![chs[0]] }, Granule { channels: vec![chs[1]] }],
        }
    );
    assert_eq!(buffer.pos, 136);
}

#[test]
fn every_mode_but_single_channel_has_two_channels() {
    let chs = [long_channel(0), long_channel(1), long_channel(2), long_channel(3)];
    for mode in [Mode::Stereo, Mode::JointStereo, Mode::DualChannel] {
        let mut w = Bits::new();
        put_side_info(&mut w, false, 100, 0, 0, &chs);
        let mut buffer = Buffer::new(w.bytes(1));
        let side_info = SideInfo::create_from_buffer(&mut buffer, &mode).unwrap();
        assert_eq!(side_info.granules[0].channels.len(), 2);
        assert_eq!(side_info.granules[1].channels.len(), 2);
        assert_eq!(buffer.pos, 256);
    }
}

#[test]
fn side_info_is_decoded_off_the_byte_boundary() {
    let chs = [long_channel(0), short_channel(1)];
    let mut w = Bits::new();
    w.put(0b101, 3);
    put_side_info(&mut w, true, 0x0ff, 1, 2, &chs);
    let mut buffer = Buffer::new(w.bytes(1));
    buffer.set_pos(3).unwrap();
    let side_info = SideInfo::create_from_buffer(&mut buffer, &Mode::SingleChannel).unwrap();
    assert_eq!(side_info.main_data_begin, 0x0ff);
    assert_eq!(side_info.private_bits, 1);
    assert_eq!(side_info.scfsi, 2);
    assert_eq!(side_info.granules[0].channels, vec![chs[0]]);
    assert_eq!(side_info.granules[1].channels, vec![chs[1]]);
    assert_eq!(buffer.pos, 139);
}

#[test]
fn long_blocks_end_with_the_region_sentinel() {
    let mut w = Bits::new();
    put_channel(&mut w, &long_channel(0));
    let mut buffer = Buffer::new(w.bytes(1));
    let c = ChannelInfo::create_from_buffer(&mut buffer).unwrap();
    assert_eq!(c.region_count, [11, 5, 255]);
    assert_eq!(c.subblock_gain, [0, 0, 0]);
    assert_eq!(c.block_type, 0);
    assert_eq!(buffer.pos, 59);
}

#[test]
fn short_blocks_read_two_tables_and_three_gains() {
    let mut w = Bits::new();
    put_channel(&mut w, &short_channel(0));
    let mut buffer = Buffer::new(w.bytes(1));
    let c = ChannelInfo::create_from_buffer(&mut buffer).unwrap();
    assert_eq!(c, short_channel(0));
    assert_eq!(c.table_select, [30, 1, 0]);
    assert_eq!(c.subblock_gain, [7, 0, 5]);
    assert_eq!(c.region_count, [0, 0, 0]);
    assert_eq!(buffer.pos, 59);
}

#[test]
fn the_three_flags_are_the_last_three_bits() {
    for flags in 0..8u16 {
        let mut c = long_channel(0);
        c.preflag = flags & 4 == 4;
        c.scalefac_scale = flags & 2 == 2;
        c.count1_table_select = flags & 1 == 1;
        let mut w = Bits::new();
        put_channel(&mut w, &c);
        let mut buffer = Buffer::new(w.bytes(1));
        assert_eq!(ChannelInfo::create_from_buffer(&mut buffer), Ok(c));
    }
}

#[test]
fn more_than_288_big_values_are_refused() {
    let mut bad = long_channel(0);
    bad.big_values = 289;
    let chs = [long_channel(1), bad, long_channel(2), long_channel(3)];
    let mut w = Bits::new();
    put_side_info(&mut w, false, 0, 0, 0, &chs);
    let mut buffer = Buffer::new(w.bytes(1));
    assert_eq!(
        SideInfo::create_from_buffer(&mut buffer, &Mode::Stereo),
        Err(ErrorType::BigValuesOutOfRange)
    );
    // 20 opening bits, one whole channel, then 21 bits of the second.
    assert_eq!(buffer.pos, 20 + 59 + 21);

    let mut worst = long_channel(0);
    worst.big_values = 511;
    let mut w = Bits::new();
    put_channel(&mut w, &worst);
    let mut buffer = Buffer::new(w.bytes(1));
    assert_eq!(ChannelInfo::create_from_buffer(&mut buffer), Err(ErrorType::BigValuesOutOfRange));
    assert_eq!(buffer.pos, 21);
}

#[test]
fn exactly_288_big_values_are_accepted() {
    let mut c = long_channel(0);
    c.big_values = 288;
    let mut w = Bits::new();
    put_channel(&mut w, &c);
    let mut buffer = Buffer::new(w.bytes(1));
    assert_eq!(ChannelInfo::create_from_buffer(&mut buffer), Ok(c));
}

#[test]
fn block_type_zero_with_window_switching_is_refused() {
    let mut bad = short_channel(0);
    bad.block_type = 0;
    let chs = [long_channel(1), long_channel(2), bad, long_channel(3)];
    let mut w = Bits::new();
    put_side_info(&mut w, false, 0, 0, 0, &chs);
    let mut buffer = Buffer::new(w.bytes(1));
    assert_eq!(
        SideInfo::create_from_buffer(&mut buffer, &Mode::JointStereo),
        Err(ErrorType::BlockTypeForbidden)
    );
    assert_eq!(buffer.pos, 20 + 2 * 59 + 36);
}

#[test]
fn every_other_block_type_is_accepted() {
    for block_type in 1..4u8 {
        let mut c = short_channel(0);
        c.block_type = block_type;
        let mut w = Bits::new();
        put_channel(&mut w, &c);
        let mut buffer = Buffer::new(w.bytes(1));
        assert_eq!(ChannelInfo::create_from_buffer(&mut buffer), Ok(c));
    }
}

#[test]
fn big_values_are_checked_before_the_block_type() {
    let mut bad = short_channel(0);
    bad.big_values = 300;
    bad.block_type = 0;
    let mut w = Bits::new();
    put_channel(&mut w, &bad);
    let mut buffer = Buffer::new(w.bytes(1));
    assert_eq!(ChannelInfo::create_from_buffer(&mut buffer), Err(ErrorType::BigValuesOutOfRange));
    assert_eq!(buffer.pos, 21);
}

#[test]
fn declared_lengths_beyond_the_data_overflow() {
    // 33 bytes: 264 bits. The four lengths add up to 265.
    let mut chs = [long_channel(0), long_channel(0), long_channel(0), long_channel(0)];
    for (c, len) in chs.iter_mut().zip([100u16, 100, 60, 5]) {
        c.part_23_length = len;
    }
    let mut w = Bits::new();
    put_side_info(&mut w, false, 0, 0, 0, &chs);
    let mut buffer = Buffer::new(w.bytes(1));
    assert_eq!(buffer.total_bits, 264);
    assert_eq!(SideInfo::create_from_buffer(&mut buffer, &Mode::Stereo), Err(ErrorType::Overflow));
    assert_eq!(buffer.pos, 256);

    // One bit less fits exactly.
    chs[3].part_23_length = 4;
    let mut w = Bits::new();
    put_side_info(&mut w, false, 0, 0, 0, &chs);
    let mut buffer = Buffer::new(w.bytes(1));
    assert!(SideInfo::create_from_buffer(&mut buffer, &Mode::Stereo).is_ok());
}

#[test]
fn main_data_begin_lends_eight_bits_a_byte() {
    let mut chs = [long_channel(0), long_channel(0), long_channel(0), long_channel(0)];
    for (c, len) in chs.iter_mut().zip([100u16, 100, 60, 20]) {
        c.part_23_length = len;
    }
    // 280 declared bits against 264: two bytes of reservoir are needed.
    let mut w = Bits::new();
    put_side_info(&mut w, false, 2, 0, 0, &chs);
    let mut buffer = Buffer::new(w.bytes(1));
    assert!(SideInfo::create_from_buffer(&mut buffer, &Mode::Stereo).is_ok());

    let mut w = Bits::new();
    put_side_info(&mut w, false, 1, 0, 0, &chs);
    let mut buffer = Buffer::new(w.bytes(1));
    assert_eq!(SideInfo::create_from_buffer(&mut buffer, &Mode::Stereo), Err(ErrorType::Overflow));
}

#[test]
fn the_lengths_are_counted_from_where_decoding_began() {
    // 8 bits lie before the side information, so 8 bits less are free.
    let mut chs = [long_channel(0), long_channel(0), long_channel(0), long_channel(0)];
    for (c, len) in chs.iter_mut().zip([100u16, 100, 60, 4]) {
        c.part_23_length = len;
    }
    let mut w = Bits::new();
    w.put(0, 8);
    put_side_info(&mut w, false, 0, 0, 0, &chs);
    let mut buffer = Buffer::new(w.bytes(1));
    buffer.set_pos(8).unwrap();
    assert_eq!(buffer.total_bits, 272);
    // 8 + 264 = 272: fits exactly.
    assert!(SideInfo::create_from_buffer(&mut buffer, &Mode::Stereo).is_ok());

    chs[3].part_23_length = 5;
    let mut w = Bits::new();
    w.put(0, 8);
    put_side_info(&mut w, false, 0, 0, 0, &chs);
    let mut buffer = Buffer::new(w.bytes(1));
    buffer.set_pos(8).unwrap();
    assert_eq!(SideInfo::create_from_buffer(&mut buffer, &Mode::Stereo), Err(ErrorType::Overflow));
}

#[test]
fn side_info_needs_one_bit_behind_it() {
    let chs = [long_channel(0), long_channel(1)];
    let mut w = Bits::new();
    put_side_info(&mut w, true, 0, 0, 0, &chs);
    // 136 bits in 17 bytes: the last bit cannot be read.
    let mut buffer = Buffer::new(w.bytes(0));
    assert_eq!(
        SideInfo::create_from_buffer(&mut buffer, &Mode::SingleChannel),
        Err(ErrorType::OutOfRange)
    );
    // The last field, the three flags of the second channel, was not read.
    assert_eq!(buffer.pos, 136 - 3);
}

#[test]
fn side_info_stops_at_the_field_that_holds_the_last_bit() {
    let chs = [short_channel(0), long_channel(1)];
    let mut w = Bits::new();
    put_side_info(&mut w, true, 0, 0, 0, &chs);
    let all = w.bytes(0);

    // (bytes kept, cursor after the failure)
    let cases = [
        (0usize, 0usize),
        (1, 0),        // main_data_begin needs 9 bits
        (2, 14),       // 16 bits: private bits fit, the selection bits end at 18
        (3, 18),       // 24 bits: part_23_length ends at 30
        (4, 18 + 12),  // 32 bits: big_values ends at 39
        (5, 18 + 21),  // 40 bits: global_gain ends at 47
        (7, 18 + 37),  // 56 bits: switched channel, first table ends at 18 + 42
        (8, 18 + 42),  // 64 bits: second table ends at 18 + 47
        (9, 18 + 53),  // 72 bits: third gain ends at 18 + 56
        (10, 77),      // 80 bits: second channel starts at 77, its length ends at 89
        (12, 77 + 12), // 96 bits: big_values ends at 98
        (16, 77 + 49), // 128 bits: long channel, region0 ends at 77 + 53
    ];
    for (keep, stop) in cases {
        let mut buffer = Buffer::new(all[..keep].to_vec());
        assert_eq!(
            SideInfo::create_from_buffer(&mut buffer, &Mode::SingleChannel),
            Err(ErrorType::OutOfRange),
            "{keep} bytes"
        );
        assert_eq!(buffer.pos, stop, "{keep} bytes");
    }
}

#[test]
fn granule_decodes_as_many_channels_as_asked() {
    let chs = [long_channel(0), short_channel(1), long_channel(2)];
    let mut w = Bits::new();
    for c in &chs {
        put_channel(&mut w, c);
    }
    let mut buffer = Buffer::new(w.bytes(1));
    let granule = Granule::create_from_buffer(&mut buffer, 3).unwrap();
    assert_eq!(granule.channels, chs.to_vec());
    assert_eq!(buffer.pos, 177);

    let mut buffer = Buffer::new(w.bytes(1));
    let none = Granule::create_from_buffer(&mut buffer, 0).unwrap();
    assert!(none.channels.is_empty());
    assert_eq!(buffer.pos, 0);

    let mut buffer = Buffer::new(w.bytes(1));
    assert_eq!(Granule::create_from_buffer(&mut buffer, 4), Err(ErrorType::OutOfRange));
}
