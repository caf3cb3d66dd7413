//! The 32-bit frame header.
//!
//! From the first bit on, a header holds: the sync word (12 bits), the
//! version (1), the layer (2), the protection bit (1), the bitrate index (4),
//! the sample rate index (2), the padding bit (1), the private bit (1), the
//! channel mode (2), the intensity stereo and mid/side stereo flags (1 each),
//! the copyright bit (1), the original bit (1) and the emphasis code (2).

use vstd::prelude::*;
use vstd::arithmetic::power2::{lemma2_to64, pow2};
use crate::bits::{
    bits_value,
    lemma_bits_value_byte,
    lemma_bits_value_split,
    lemma_bits_value_window,
    total_bits,
};
use crate::buffer::Buffer;
use crate::error::ErrorType;

verus! {

/// Half the bitrate in kb/s of MPEG-1 Layer III, by bitrate index. Index 0 is
/// the free format.
pub const HALF_BITRATE_MPEG1_LAYER3: [u8; 15] = [
    0,
    16,
    20,
    24,
    28,
    32,
    40,
    48,
    56,
    64,
    80,
    96,
    112,
    128,
    160,
];

/// The sample rate in Hz of MPEG-1, by sample rate index.
pub const FREQUENCY_MPEG1: [u16; 3] = [44100, 48000, 32000];

/// The sync word that every header starts with.
pub const SYNC_WORD: u16 = 0xfff;

/// The version of the standard that a frame follows.
#[derive(Clone, Copy, Debug, PartialEq, Eq, Structural)]
pub enum Version {
    MPEG1,
    MPEG2,
}

/// The layer of a frame.
#[derive(Clone, Copy, Debug, PartialEq, Eq, Structural)]
pub enum Layer {
    Layer1,
    Layer2,
    Layer3,
}

/// How a frame's channels are coded.
#[derive(Clone, Copy, Debug, PartialEq, Eq, Structural)]
pub enum Mode {
    Stereo,
    JointStereo,
    DualChannel,
    SingleChannel,
}

/// A decoded frame header.
#[derive(Clone, Copy, Debug, PartialEq, Eq, Structural)]
pub struct Header {
    pub sync_word: u16,
    pub version: Version,
    pub layer: Layer,
    /// True when the protection bit of the stream is cleared: the frame is
    /// then protected, and a CRC follows its header.
    pub error_protection: bool,
    /// The bitrate index, 0 to 15.
    pub bitrate: u8,
    /// The sample rate index, 0 to 3.
    pub frequency: u8,
    pub padding_bit: bool,
    pub private_bit: bool,
    pub mode: Mode,
    pub intensity_stereo: bool,
    pub ms_stereo: bool,
    pub copy_right: bool,
    /// True when the original bit of the stream is cleared.
    pub copy_of_original: bool,
    pub emphasis: u8,
    /// Where the cursor stood when the header was decoded.
    pub pos: usize,
}

impl Layer {
    /// The layer that a 2-bit layer code stands for. Code 0 is reserved.
    pub open spec fn of_code(code: int) -> Result<Layer, ErrorType> {
        if code == 1 {
            Ok(Layer::Layer3)
        } else if code == 2 {
            Ok(Layer::Layer2)
        } else if code == 3 {
            Ok(Layer::Layer1)
        } else {
            Err(ErrorType::UnknownLayer)
        }
    }

    /// Decodes a layer code.
    pub fn decode_layer(layer: u8) -> (r: Result<Layer, ErrorType>)
        ensures
            r == Layer::of_code(layer as int),
    {
        match layer {
            1 => Ok(Layer::Layer3),
            2 => Ok(Layer::Layer2),
            3 => Ok(Layer::Layer1),
            _ => Err(ErrorType::UnknownLayer),
        }
    }
}

impl Version {
    /// The version that a version bit stands for.
    pub open spec fn of_code(code: int) -> Result<Version, ErrorType> {
        if code == 0 {
            Ok(Version::MPEG2)
        } else if code == 1 {
            Ok(Version::MPEG1)
        } else {
            Err(ErrorType::UnknownVersion)
        }
    }

    /// Decodes a version bit.
    pub fn decode_version(version: u8) -> (r: Result<Version, ErrorType>)
        ensures
            r == Version::of_code(version as int),
    {
        match version {
            0 => Ok(Version::MPEG2),
            1 => Ok(Version::MPEG1),
            _ => Err(ErrorType::UnknownVersion),
        }
    }
}

impl Mode {
    /// The channel mode that a 2-bit mode code stands for.
    pub open spec fn of_code(code: int) -> Result<Mode, ErrorType> {
        if code == 0 {
            Ok(Mode::Stereo)
        } else if code == 1 {
            Ok(Mode::JointStereo)
        } else if code == 2 {
            Ok(Mode::DualChannel)
        } else if code == 3 {
            Ok(Mode::SingleChannel)
        } else {
            Err(ErrorType::UnknownMode)
        }
    }

    /// Decodes a mode code.
    pub fn decode_mode(mode: u8) -> (r: Result<Mode, ErrorType>)
        ensures
            r == Mode::of_code(mode as int),
    {
        match mode {
            0 => Ok(Mode::Stereo),
            1 => Ok(Mode::JointStereo),
            2 => Ok(Mode::DualChannel),
            3 => Ok(Mode::SingleChannel),
            _ => Err(ErrorType::UnknownMode),
        }
    }
}

/// The header that a decoder with its cursor at bit `pos` takes from `data`.
///
/// The header is read from the byte that holds bit `pos`, from that byte's
/// first bit on, whether or not `pos` is a byte boundary. It needs 32 bits
/// from `pos` to the end of the data.
pub open spec fn header_at(data: Seq<u8>, pos: int) -> Result<Header, ErrorType> {
    let base = 8 * (pos / 8);
    if pos + 32 > total_bits(data) {
        Err(ErrorType::OutOfRange)
    } else {
        match Version::of_code(bits_value(data, base + 12, 1) as int) {
            Err(e) => Err(e),
            Ok(version) => match Layer::of_code(bits_value(data, base + 13, 2) as int) {
                Err(e) => Err(e),
                Ok(layer) => match Mode::of_code(bits_value(data, base + 24, 2) as int) {
                    Err(e) => Err(e),
                    Ok(mode) => Ok(
                        Header {
                            sync_word: bits_value(data, base, 12) as u16,
                            version,
                            layer,
                            error_protection: bits_value(data, base + 15, 1) == 0,
                            bitrate: bits_value(data, base + 16, 4) as u8,
                            frequency: bits_value(data, base + 20, 2) as u8,
                            padding_bit: bits_value(data, base + 22, 1) == 1,
                            private_bit: bits_value(data, base + 23, 1) == 1,
                            mode,
                            intensity_stereo: bits_value(data, base + 26, 1) == 1,
                            ms_stereo: bits_value(data, base + 27, 1) == 1,
                            copy_right: bits_value(data, base + 28, 1) == 1,
                            copy_of_original: bits_value(data, base + 29, 1) == 0,
                            emphasis: bits_value(data, base + 30, 2) as u8,
                            pos: pos as usize,
                        },
                    ),
                },
            },
        }
    }
}

/// A field that lies inside one byte is that byte, divided down to the
/// field's last bit and cut to the field's width.
pub proof fn lemma_field_in_byte(data: Seq<u8>, i: int, skip: nat, n: nat)
    requires
        0 <= i < data.len(),
        skip + n <= 8,
    ensures
        bits_value(data, 8 * i + skip, n) == (data[i] as nat / pow2((8 - skip - n) as nat)) % pow2(
            n,
        ),
{
    lemma_bits_value_byte(data, i);
    lemma_bits_value_window(data, 8 * i, 8, skip, n);
}

impl Header {
    /// Whether the header starts a frame that this library can take apart:
    /// the sync word is all ones and the layer is Layer III.
    pub fn validate_header(&self) -> (r: Result<(), ErrorType>)
        ensures
            r == if self.sync_word == SYNC_WORD && self.layer == Layer::Layer3 {
                Ok(())
            } else {
                Err(ErrorType::InvalidHeader)
            },
    {
        if self.sync_word == SYNC_WORD && self.layer == Layer::Layer3 {
            return Ok(());
        }
        Err(ErrorType::InvalidHeader)
    }

    /// Decodes the header at the cursor and moves the cursor 32 bits on.
    ///
    /// The four bytes are taken from the byte that holds the cursor. When
    /// fewer than 32 bits are left from the cursor on, nothing is read and
    /// the cursor stays. A reserved layer code is reported after the cursor
    /// has moved.
    pub fn create_from_buffer(buffer: &mut Buffer) -> (r: Result<Header, ErrorType>)
        requires
            old(buffer).wf(),
        ensures
            final(buffer).wf(),
            final(buffer).data@ == old(buffer).data@,
            r == header_at(old(buffer).data@, old(buffer).pos as int),
            final(buffer).pos == if old(buffer).pos + 32 <= old(buffer).total_bits {
                old(buffer).pos + 32
            } else {
                old(buffer).pos as int
            },
    {
        if buffer.total_bits - buffer.pos < 32 {
            return Err(ErrorType::OutOfRange);
        }
        let pos: usize = buffer.pos;
        let index: usize = pos / 8;
        let b0: u8 = buffer.data[index];
        let b1: u8 = buffer.data[index + 1];
        let b2: u8 = buffer.data[index + 2];
        let b3: u8 = buffer.data[index + 3];
        buffer.pos = pos + 32;

        proof {
            let data = buffer.data@;
            let i: int = index as int;
            lemma2_to64();
            lemma_bits_value_byte(data, i);
            lemma_field_in_byte(data, i + 1, 0, 4);
            lemma_bits_value_split(data, 8 * i, 8, 4);
            lemma_field_in_byte(data, i + 1, 4, 1);
            lemma_field_in_byte(data, i + 1, 5, 2);
            lemma_field_in_byte(data, i + 1, 7, 1);
            lemma_field_in_byte(data, i + 2, 0, 4);
            lemma_field_in_byte(data, i + 2, 4, 2);
            lemma_field_in_byte(data, i + 2, 6, 1);
            lemma_field_in_byte(data, i + 2, 7, 1);
            lemma_field_in_byte(data, i + 3, 0, 2);
            lemma_field_in_byte(data, i + 3, 2, 1);
            lemma_field_in_byte(data, i + 3, 3, 1);
            lemma_field_in_byte(data, i + 3, 4, 1);
            lemma_field_in_byte(data, i + 3, 5, 1);
            lemma_field_in_byte(data, i + 3, 6, 2);
        }
        assert({
            &&& ((b0 as u16) << 4) | ((b1 as u16 & 0xf0) >> 4) == b0 * 16 + (b1 / 16) % 16
            &&& (b1 & 8) >> 3 == (b1 / 8) % 2
            &&& (b1 & 6) >> 1 == (b1 / 2) % 4
            &&& b1 & 1 == (b1 / 1) % 2
        }) by (bit_vector);
        assert({
            &&& (b2 & 0xf0) >> 4 == (b2 / 16) % 16
            &&& (b2 & 0xc) >> 2 == (b2 / 4) % 4
            &&& (b2 & 2) >> 1 == (b2 / 2) % 2
            &&& b2 & 1 == (b2 / 1) % 2
        }) by (bit_vector);
        assert({
            &&& (b3 & 0xc0) >> 6 == (b3 / 64) % 4
            &&& (b3 & 0x20) >> 5 == (b3 / 32) % 2
            &&& (b3 & 0x10) >> 4 == (b3 / 16) % 2
            &&& (b3 & 8) >> 3 == (b3 / 8) % 2
            &&& (b3 & 4) >> 2 == (b3 / 4) % 2
            &&& b3 & 3 == (b3 / 1) % 4
        }) by (bit_vector);

        let sync_word: u16 = ((b0 as u16) << 4) | ((b1 as u16 & 0xf0) >> 4);
        let version = match Version::decode_version((b1 & 8) >> 3) {
            Ok(version) => version,
            Err(e) => {
                return Err(e);
            },
        };
        let layer = match Layer::decode_layer((b1 & 6) >> 1) {
            Ok(layer) => layer,
            Err(e) => {
                return Err(e);
            },
        };
        let mode = match Mode::decode_mode((b3 & 0xc0) >> 6) {
            Ok(mode) => mode,
            Err(e) => {
                return Err(e);
            },
        };
        Ok(
            Header {
                sync_word,
                version,
                layer,
                error_protection: (b1 & 1) == 0,
                bitrate: (b2 & 0xf0) >> 4,
                frequency: (b2 & 0xc) >> 2,
                padding_bit: (b2 & 2) >> 1 == 1,
                private_bit: b2 & 1 == 1,
                mode,
                intensity_stereo: (b3 & 0x20) >> 5 == 1,
                ms_stereo: (b3 & 0x10) >> 4 == 1,
                copy_right: (b3 & 8) >> 3 == 1,
                copy_of_original: (b3 & 4) >> 2 == 0,
                emphasis: b3 & 3,
                pos,
            },
        )
    }

    /// The bitrate in kb/s that the bitrate index stands for. Only MPEG-1
    /// Layer III has a table here, and index 15 is reserved.
    pub open spec fn bitrate_kbps(&self) -> Result<u16, ErrorType> {
        if self.version == Version::MPEG1 && self.layer == Layer::Layer3 && self.bitrate < 15 {
            Ok((2 * HALF_BITRATE_MPEG1_LAYER3[self.bitrate as int]) as u16)
        } else {
            Err(ErrorType::UnknownBitrate)
        }
    }

    /// The sample rate in Hz that the sample rate index stands for. Only
    /// MPEG-1 has a table here, and index 3 is reserved.
    pub open spec fn frequency_hz(&self) -> Result<u16, ErrorType> {
        if self.version == Version::MPEG1 && self.frequency < 3 {
            Ok(FREQUENCY_MPEG1[self.frequency as int])
        } else {
            Err(ErrorType::UnknownFrequency)
        }
    }

    /// Looks the bitrate up.
    pub fn get_bitrate(&self) -> (r: Result<u16, ErrorType>)
        ensures
            r == self.bitrate_kbps(),
            r matches Ok(kbps) ==> kbps <= 320,
    {
        if self.version == Version::MPEG1 && self.layer == Layer::Layer3 && self.bitrate < 15 {
            return Ok(HALF_BITRATE_MPEG1_LAYER3[self.bitrate as usize] as u16 * 2);
        }
        Err(ErrorType::UnknownBitrate)
    }

    /// Looks the sample rate up.
    pub fn get_frequency(&self) -> (r: Result<u16, ErrorType>)
        ensures
            r == self.frequency_hz(),
            r matches Ok(hz) ==> hz >= 32000,
    {
        if self.version == Version::MPEG1 && self.frequency < 3 {
            return Ok(FREQUENCY_MPEG1[self.frequency as usize]);
        }
        Err(ErrorType::UnknownFrequency)
    }
}

} // verus!
