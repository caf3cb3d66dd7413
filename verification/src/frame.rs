//! A frame: its header, its optional CRC and its side information.

use vstd::prelude::*;
use vstd::arithmetic::power2::lemma2_to64;
use crate::bits::{bits_value, lemma_bits_value_bound, total_bits};
use crate::buffer::{exhausted_at, lemma_next_sync_nearest, next_sync, Buffer};
use crate::error::ErrorType;
use crate::header::{header_at, Header, Layer, SYNC_WORD};
use crate::side_info::{
    lemma_side_info_outcome_bounds,
    side_info_outcome,
    SideInfo,
    SideInfoView,
};

verus! {

/// One frame of the stream, without its payload.
#[derive(Debug, PartialEq, Eq)]
pub struct Frame {
    header: Header,
    /// The CRC that follows the header. The stream carries one exactly when
    /// the header's `error_protection` is true, which is when the protection
    /// bit of the stream is cleared.
    crc: Option<u16>,
    side_info: SideInfo,
    length_byte: usize,
}

/// A frame as plain values.
pub struct FrameView {
    pub header: Header,
    /// Present exactly when the header's `error_protection` is true, which
    /// is when the protection bit of the stream is cleared.
    pub crc: Option<u16>,
    pub side_info: SideInfoView,
    pub length_byte: usize,
}

impl View for Frame {
    type V = FrameView;

    closed spec fn view(&self) -> FrameView {
        FrameView {
            header: self.header,
            crc: self.crc,
            side_info: self.side_info@,
            length_byte: self.length_byte,
        }
    }
}

/// The length in bytes that a header gives its frame: 144000 times the
/// whole quotient of the bitrate in kb/s by the sample rate in Hz, plus one
/// byte of padding where the header asks for it. The quotient is taken
/// first, and loses its fraction, before the multiplication.
pub open spec fn frame_length(header: Header) -> Result<usize, ErrorType> {
    match header.bitrate_kbps() {
        Err(e) => Err(e),
        Ok(kbps) => match header.frequency_hz() {
            Err(e) => Err(e),
            Ok(hz) => Ok(
                (144000 * (kbps as int / hz as int) + if header.padding_bit {
                    1int
                } else {
                    0int
                }) as usize,
            ),
        },
    }
}

/// The number of bits that stand between a frame's header and its side
/// information: 16, for the CRC, when `error_protection` is true, else none.
pub open spec fn crc_width(header: Header) -> nat {
    if header.error_protection {
        16
    } else {
        0
    }
}

/// How decoding a frame with the cursor at bit `pos` ends, and where it
/// leaves the cursor.
///
/// The steps, each of which can end it: the header is decoded and checked;
/// the CRC is read where there is one; the side information is decoded; the
/// frame's length is computed.
pub open spec fn frame_outcome(data: Seq<u8>, pos: int) -> (Result<FrameView, ErrorType>, int) {
    let after_header = if pos + 32 <= total_bits(data) {
        pos + 32
    } else {
        pos
    };
    match header_at(data, pos) {
        Err(e) => (Err(e), after_header),
        Ok(header) => if !(header.sync_word == SYNC_WORD && header.layer == Layer::Layer3) {
            (Err(ErrorType::InvalidHeader), after_header)
        } else if crc_width(header) > 0 && after_header + crc_width(header) >= total_bits(data) {
            (Err(ErrorType::OutOfRange), after_header)
        } else {
            let side = side_info_outcome(data, after_header + crc_width(header), header.mode);
            match side.0 {
                Err(e) => (Err(e), side.1),
                Ok(side_info) => match frame_length(header) {
                    Err(e) => (Err(e), side.1),
                    Ok(length_byte) => (
                        Ok(
                            FrameView {
                                header,
                                crc: if header.error_protection {
                                    Some(bits_value(data, after_header, 16) as u16)
                                } else {
                                    None
                                },
                                side_info,
                                length_byte,
                            },
                        ),
                        side.1,
                    ),
                },
            }
        },
    }
}

/// A frame's length is at most one byte: the bitrates of the table, in kb/s,
/// are all below its sample rates, in Hz, so the quotient is 0 and only the
/// padding is left.
pub proof fn lemma_frame_length_is_padding(header: Header)
    ensures
        frame_length(header) matches Ok(length) ==> length == if header.padding_bit {
            1int
        } else {
            0int
        },
{
    if let Ok(kbps) = header.bitrate_kbps() {
        if let Ok(hz) = header.frequency_hz() {
            assert(kbps as int / hz as int == 0) by (nonlinear_arith)
                requires
                    0 <= kbps <= 320,
                    hz >= 32000,
            ;
        }
    }
}

/// Decoding a frame never moves the cursor backwards or past the end of the
/// data. Where 32 bits are left for the header, they are consumed whatever
/// happens after; where they are not, decoding is out of range and the
/// cursor stays.
pub proof fn lemma_frame_outcome_advances(data: Seq<u8>, pos: int)
    requires
        0 <= pos <= total_bits(data),
    ensures
        frame_outcome(data, pos).1 <= total_bits(data),
        pos + 32 <= total_bits(data) ==> pos + 32 <= frame_outcome(data, pos).1,
        pos + 32 > total_bits(data) ==> frame_outcome(data, pos) == (
            Err::<FrameView, ErrorType>(ErrorType::OutOfRange),
            pos,
        ),
{
    if let Ok(header) = header_at(data, pos) {
        if pos + 32 + crc_width(header) <= total_bits(data) {
            lemma_side_info_outcome_bounds(data, pos + 32 + crc_width(header), header.mode);
        }
    }
}

/// What holds of a frame that decodes at bit `pos`: its header is the one
/// that stands there, with the sync word and Layer III; it has a CRC exactly
/// when the header's `error_protection` is true, that is, when the
/// protection bit, the last bit of the header's second byte, is cleared; its
/// side information is the one that follows, decoded for the header's mode;
/// its length is the one that the header gives.
pub proof fn lemma_frame_outcome_ok(data: Seq<u8>, pos: int)
    requires
        0 <= pos,
        total_bits(data) <= usize::MAX,
        frame_outcome(data, pos).0 is Ok,
    ensures
        ({
            let frame = frame_outcome(data, pos).0->Ok_0;
            let side_at = pos + 32 + crc_width(frame.header);
            &&& header_at(data, pos) == Ok::<Header, ErrorType>(frame.header)
            &&& frame.header.pos == pos
            &&& frame.header.sync_word == SYNC_WORD
            &&& frame.header.layer == Layer::Layer3
            &&& frame.crc is Some <==> frame.header.error_protection
            &&& frame.crc is Some <==> bits_value(data, 8 * (pos / 8) + 15, 1) == 0
            &&& frame.crc matches Some(crc) ==> crc == bits_value(data, pos + 32, 16)
            &&& side_info_outcome(data, side_at, frame.header.mode) == (
                Ok::<SideInfoView, ErrorType>(frame.side_info),
                frame_outcome(data, pos).1,
            )
            &&& frame_length(frame.header) == Ok::<usize, ErrorType>(frame.length_byte)
        }),
{
    lemma2_to64();
    lemma_bits_value_bound(data, pos + 32, 16);
}

/// The frames that a scan collects come in stream order: each was decoded at
/// a place where a frame can start, at or behind the bit where the scan
/// began, and at least 32 bits behind the place of the frame before it. The
/// scan leaves the cursor inside the data, at or behind where it began.
pub proof fn lemma_scan_outcome_ordered(data: Seq<u8>, pos: int)
    requires
        0 <= pos <= total_bits(data) <= usize::MAX,
    ensures
        pos <= scan_outcome(data, pos).1 <= total_bits(data),
        forall|i: int|
            0 <= i < scan_outcome(data, pos).0.len() ==> {
                let frame = #[trigger] scan_outcome(data, pos).0[i];
                &&& pos <= frame.header.pos
                &&& next_sync(data, frame.header.pos as int) == Some(frame.header.pos as int)
                &&& frame_outcome(data, frame.header.pos as int).0 == Ok::<FrameView, ErrorType>(
                    frame,
                )
            },
        forall|i: int, j: int|
            0 <= i < j < scan_outcome(data, pos).0.len() ==> (#[trigger] scan_outcome(
                data,
                pos,
            ).0[i]).header.pos + 32 <= (#[trigger] scan_outcome(data, pos).0[j]).header.pos,
    decreases total_bits(data) - pos,
{
    lemma_next_sync_nearest(data, pos);
    if let Some(start) = next_sync(data, pos) {
        lemma_frame_outcome_advances(data, start);
        let decoded = frame_outcome(data, start);
        assert(next_sync(data, start) == Some(start));
        match decoded.0 {
            Ok(frame) => {
                lemma_frame_outcome_ok(data, start);
                lemma_scan_outcome_ordered(data, decoded.1);
                let rest = scan_outcome(data, decoded.1).0;
                let all = scan_outcome(data, pos).0;
                assert(all =~= seq![frame] + rest);
                assert forall|i: int| 0 <= i < all.len() implies {
                    let f = #[trigger] all[i];
                    &&& pos <= f.header.pos
                    &&& next_sync(data, f.header.pos as int) == Some(f.header.pos as int)
                    &&& frame_outcome(data, f.header.pos as int).0 == Ok::<FrameView, ErrorType>(f)
                } by {
                    if i > 0 {
                        assert(all[i] == rest[i - 1]);
                    }
                }
                assert forall|i: int, j: int| 0 <= i < j < all.len() implies (#[trigger] all[i]).header.pos
                    + 32 <= (#[trigger] all[j]).header.pos by {
                    assert(all[j] == rest[j - 1]);
                    if i > 0 {
                        assert(all[i] == rest[i - 1]);
                    }
                }
            },
            Err(e) => {
                if e != ErrorType::OutOfRange {
                    lemma_scan_outcome_ordered(data, decoded.1);
                }
            },
        }
    }
}

/// Two scans of the same bytes from the same bit collect the same frames:
/// as many, and each equal to its counterpart.
pub proof fn lemma_scan_repeatable(first: Seq<Frame>, second: Seq<Frame>, data: Seq<u8>, pos: int)
    requires
        0 <= pos,
        frame_views(first) == scan_outcome(data, pos).0,
        frame_views(second) == scan_outcome(data, pos).0,
    ensures
        first.len() == second.len(),
        forall|i: int| 0 <= i < first.len() ==> first[i]@ == second[i]@,
{
    assert(frame_views(first).len() == first.len());
    assert(frame_views(second).len() == second.len());
    assert forall|i: int| 0 <= i < first.len() implies first[i]@ == second[i]@ by {
        assert(frame_views(first)[i] == first[i]@);
        assert(frame_views(second)[i] == second[i]@);
    }
}

/// The views of a sequence of frames.
pub open spec fn frame_views(frames: Seq<Frame>) -> Seq<FrameView> {
    frames.map_values(|frame: Frame| frame@)
}

/// The frames that a scan from bit `pos` on collects, in stream order, and
/// where it leaves the cursor.
///
/// The scan looks for the next place where a frame can start and decodes
/// the frame there. A frame that decodes is collected; one that fails is
/// dropped. Either way the scan goes on from where decoding left the
/// cursor. It ends when no further start is found, or when decoding runs
/// out of bits.
pub open spec fn scan_outcome(data: Seq<u8>, pos: int) -> (Seq<FrameView>, int)
    decreases total_bits(data) - pos,
    when 0 <= pos
    via scan_outcome_decreases
{
    match next_sync(data, pos) {
        None => (Seq::empty(), exhausted_at(data, pos)),
        Some(start) => {
            let decoded = frame_outcome(data, start);
            match decoded.0 {
                Ok(frame) => {
                    let rest = scan_outcome(data, decoded.1);
                    (seq![frame] + rest.0, rest.1)
                },
                Err(e) => if e == ErrorType::OutOfRange {
                    (Seq::empty(), decoded.1)
                } else {
                    scan_outcome(data, decoded.1)
                },
            }
        },
    }
}

#[via_fn]
proof fn scan_outcome_decreases(data: Seq<u8>, pos: int) {
    lemma_next_sync_nearest(data, pos);
    if let Some(start) = next_sync(data, pos) {
        lemma_frame_outcome_advances(data, start);
    }
}

/// A decoding result with the frame replaced by its view.
pub open spec fn frame_result_view(r: Result<Frame, ErrorType>) -> Result<FrameView, ErrorType> {
    match r {
        Ok(frame) => Ok(frame@),
        Err(e) => Err(e),
    }
}

impl Frame {
    /// The frame's header.
    pub fn header(&self) -> (header: &Header)
        ensures
            *header == self@.header,
    {
        &self.header
    }

    /// The frame's side information.
    pub fn side_info(&self) -> (side_info: &SideInfo)
        ensures
            side_info@ == self@.side_info,
    {
        &self.side_info
    }

    /// The CRC that followed the header, if the stream carried one.
    pub fn crc(&self) -> (crc: Option<u16>)
        ensures
            crc == self@.crc,
    {
        self.crc
    }

    /// The frame's length in bytes, as `frame_length` gives it.
    pub fn length_byte(&self) -> (length_byte: usize)
        ensures
            length_byte == self@.length_byte,
    {
        self.length_byte
    }

    /// Decodes the frame at the cursor: header, CRC where there is one, and
    /// side information. The payload is not read, so after a success the
    /// cursor stands at its first bit. After a failure it stands where the
    /// step that failed left it.
    pub fn create_from_buffer(buffer: &mut Buffer) -> (r: Result<Frame, ErrorType>)
        requires
            old(buffer).wf(),
        ensures
            final(buffer).wf(),
            final(buffer).data@ == old(buffer).data@,
            (frame_result_view(r), final(buffer).pos as int) == frame_outcome(
                old(buffer).data@,
                old(buffer).pos as int,
            ),
    {
        let header = Header::create_from_buffer(buffer)?;
        header.validate_header()?;
        proof {
            lemma2_to64();
            lemma_bits_value_bound(buffer.data@, buffer.pos as int, 16);
        }
        let crc: Option<u16> = if header.error_protection {
            Some(buffer.get_bits(16)? as u16)
        } else {
            None
        };
        let side_info = SideInfo::create_from_buffer(buffer, &header.mode)?;
        let kbps: u16 = header.get_bitrate()?;
        let hz: u16 = header.get_frequency()?;
        let padding: usize = if header.padding_bit {
            1
        } else {
            0
        };
        assert(kbps as int / hz as int == 0) by (nonlinear_arith)
            requires
                0 <= kbps <= 320,
                hz >= 32000,
        ;
        let length_byte: usize = 144000 * ((kbps / hz) as usize) + padding;
        Ok(Frame { header, crc, side_info, length_byte })
    }
}

} // verus!
