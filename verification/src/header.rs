//! The 14-byte header: magic bytes, width and height as big-endian 32-bit
//! numbers, channel count and colorspace.

use vstd::prelude::*;
use crate::consts::{magic, lemma_constants, MAGIC_BYTES};
use crate::error::QoiError;
use crate::utils::{array_from_input, is_identical};

verus! {

/// The four bytes of `value`, most significant first.
pub open spec fn be_bytes(value: u32) -> Seq<u8> {
    seq![
        (value / 0x100_0000) as u8,
        (value / 0x1_0000 % 0x100) as u8,
        (value / 0x100 % 0x100) as u8,
        (value % 0x100) as u8,
    ]
}

/// The number whose four bytes, most significant first, start at `at`.
pub open spec fn be_value(bytes: Seq<u8>, at: int) -> u32 {
    (bytes[at] * 0x100_0000 + bytes[at + 1] * 0x1_0000 + bytes[at + 2] * 0x100 + bytes[at
        + 3]) as u32
}

/// What a header says besides its magic bytes.
pub struct HeaderFields {
    pub width: u32,
    pub height: u32,
    pub channels: u8,
    pub colorspace: u8,
}

impl HeaderFields {
    /// Neither dimension is 0, there are 3 or 4 channels and the colorspace
    /// is 0 or 1.
    pub open spec fn valid(self) -> bool {
        &&& self.width != 0
        &&& self.height != 0
        &&& (self.channels == 3 || self.channels == 4)
        &&& (self.colorspace == 0 || self.colorspace == 1)
    }

    /// The 14 bytes of a header with these fields.
    pub open spec fn bytes(self) -> Seq<u8> {
        magic() + be_bytes(self.width) + be_bytes(self.height) + seq![
            self.channels,
            self.colorspace,
        ]
    }

    /// The number of pixels of the image.
    pub open spec fn pixel_count(self) -> nat {
        (self.width * self.height) as nat
    }
}

/// What the first 14 bytes of `bytes` mean as a header. The checks come in
/// this order: magic bytes, dimensions, channel count, colorspace; the first
/// that fails gives the error.
pub open spec fn parse_header(bytes: Seq<u8>) -> Result<HeaderFields, QoiError>
    recommends
        bytes.len() >= 14,
{
    let width = be_value(bytes, 4);
    let height = be_value(bytes, 8);
    if bytes.subrange(0, 4) != magic() {
        Err(QoiError::InvalidMagicBytes(bytes[0], bytes[1], bytes[2], bytes[3]))
    } else if width == 0 || height == 0 {
        Err(QoiError::InvalidWidthHeight(width, height))
    } else if bytes[12] != 3 && bytes[12] != 4 {
        Err(QoiError::InvalidChannelsValue(bytes[12]))
    } else if bytes[13] != 0 && bytes[13] != 1 {
        Err(QoiError::InvalidColorspaceValue(bytes[13]))
    } else {
        Ok(HeaderFields { width, height, channels: bytes[12], colorspace: bytes[13] })
    }
}

/// A header is read back from its own bytes: for every valid header,
/// parsing the 14 bytes that it serializes to gives its fields again.
pub proof fn lemma_parse_serialized(fields: HeaderFields)
    requires
        fields.valid(),
    ensures
        fields.bytes().len() == 14,
        parse_header(fields.bytes()) == Ok::<HeaderFields, QoiError>(fields),
{
    let bytes = fields.bytes();
    assert(bytes.subrange(0, 4) =~= magic());
    assert(be_value(bytes, 4) == fields.width);
    assert(be_value(bytes, 8) == fields.height);
}

/// The bytes of a number that was put together from four bytes are those
/// four bytes.
proof fn lemma_be_bytes_of_value(b0: u8, b1: u8, b2: u8, b3: u8)
    ensures
        be_bytes((b0 * 0x100_0000 + b1 * 0x1_0000 + b2 * 0x100 + b3) as u32) == seq![
            b0,
            b1,
            b2,
            b3,
        ],
{
    let value: int = b0 * 0x100_0000 + b1 * 0x1_0000 + b2 * 0x100 + b3;
    assert(value / 0x100_0000 == b0);
    assert(value / 0x1_0000 == b0 * 0x100 + b1);
    assert(value / 0x100 == b0 * 0x1_0000 + b1 * 0x100 + b2);
    assert(be_bytes(value as u32) =~= seq![b0, b1, b2, b3]);
}

/// A header that parses is serialized to the bytes it was parsed from.
pub proof fn lemma_serialize_parsed(bytes: Seq<u8>)
    requires
        bytes.len() == 14,
        parse_header(bytes) is Ok,
    ensures
        parse_header(bytes)->Ok_0.valid(),
        parse_header(bytes)->Ok_0.bytes() == bytes,
{
    let fields = parse_header(bytes)->Ok_0;
    assert(bytes.subrange(0, 4) == magic());
    lemma_be_bytes_of_value(bytes[4], bytes[5], bytes[6], bytes[7]);
    lemma_be_bytes_of_value(bytes[8], bytes[9], bytes[10], bytes[11]);
    let width = be_bytes(fields.width);
    let height = be_bytes(fields.height);
    assert(width.len() == 4 && height.len() == 4);
    assert(fields.bytes() =~= bytes.subrange(0, 4) + width + height + seq![bytes[12], bytes[13]]);
    assert(bytes.subrange(0, 4) + width + height + seq![bytes[12], bytes[13]] =~= bytes);
}

/// The header of an image.
#[derive(Clone, Copy)]
pub struct QoiHeader {
    data: QoiHeaderInternal,
}

impl QoiHeader {
    /// The record behind this header.
    pub closed spec fn internal(self) -> QoiHeaderInternal {
        self.data
    }

    /// The magic bytes: always "qoif" in a header that was parsed or made by
    /// an encoder.
    #[must_use]
    pub fn magic_bytes(&self) -> (magic_bytes: [u8; 4])
        ensures
            magic_bytes == self.internal().magic_bytes,
    {
        self.data.magic_bytes
    }

    /// The width of the image in pixels.
    #[must_use]
    pub fn width(&self) -> (width: u32)
        ensures
            width == self.internal().width,
    {
        self.data.width
    }

    /// The height of the image in pixels.
    #[must_use]
    pub fn height(&self) -> (height: u32)
        ensures
            height == self.internal().height,
    {
        self.data.height
    }

    /// The channel count: 3 for RGB, 4 for RGBA.
    #[must_use]
    pub fn channels(&self) -> (channels: u8)
        ensures
            channels == self.internal().channels,
    {
        self.data.channels
    }

    /// The colorspace: 0 for sRGB with linear alpha, 1 for all channels
    /// linear.
    #[must_use]
    pub fn colorspace(&self) -> (colorspace: u8)
        ensures
            colorspace == self.internal().colorspace,
    {
        self.data.colorspace
    }

    /// The 14 bytes of the header.
    #[must_use]
    pub fn to_u8(self) -> (output: [u8; 14])
        ensures
            output@ == self.internal().bytes(),
    {
        let mut output = [0u8;14];
        let magic = self.magic_bytes();
        output[0] = magic[0];
        output[1] = magic[1];
        output[2] = magic[2];
        output[3] = magic[3];
        let width: u32 = self.width();
        output[4] = (width / 0x100_0000) as u8;
        output[5] = (width / 0x1_0000 % 0x100) as u8;
        output[6] = (width / 0x100 % 0x100) as u8;
        output[7] = (width % 0x100) as u8;
        let height: u32 = self.height();
        output[8] = (height / 0x100_0000) as u8;
        output[9] = (height / 0x1_0000 % 0x100) as u8;
        output[10] = (height / 0x100 % 0x100) as u8;
        output[11] = (height % 0x100) as u8;
        output[12] = self.channels();
        output[13] = self.colorspace();
        assert(output@ =~= self.internal().bytes());
        output
    }
}

/// The fields of a header as they stand in its bytes.
#[derive(Clone, Copy)]
pub struct QoiHeaderInternal {
    pub magic_bytes: [u8; 4],
    pub width: u32,
    pub height: u32,
    pub channels: u8,
    pub colorspace: u8,
}

impl QoiHeaderInternal {
    /// What the header says besides its magic bytes.
    pub open spec fn fields(self) -> HeaderFields {
        HeaderFields {
            width: self.width,
            height: self.height,
            channels: self.channels,
            colorspace: self.colorspace,
        }
    }

    /// The 14 bytes that the header serializes to.
    pub open spec fn bytes(self) -> Seq<u8> {
        self.magic_bytes@ + be_bytes(self.width) + be_bytes(self.height) + seq![
            self.channels,
            self.colorspace,
        ]
    }

    /// A header with the magic bytes of the format and the given fields, which
    /// are not checked.
    pub fn new(width: u32, height: u32, channels: u8, colorspace: u8) -> (header: Self)
        ensures
            header.magic_bytes@ == magic(),
            header.fields() == (HeaderFields { width, height, channels, colorspace }),
            header.bytes() == header.fields().bytes(),
    {
        proof {
            lemma_constants();
        }
        Self { magic_bytes: MAGIC_BYTES, width, height, channels, colorspace }
    }

    /// Reads a header from the first 14 bytes of `input`.
    pub fn extract(input: &[u8]) -> (extracted: Result<Self, QoiError>)
        requires
            input@.len() >= 14,
        ensures
            match extracted {
                Ok(header) => parse_header(input@) == Ok::<HeaderFields, QoiError>(header.fields())
                    && header.magic_bytes@ == magic(),
                Err(error) => parse_header(input@) == Err::<HeaderFields, QoiError>(error),
            },
    {
        proof {
            lemma_constants();
        }
        let magic_bytes: [u8; 4] = array_from_input(input, 0);
        if !is_identical(&magic_bytes, &MAGIC_BYTES) {
            assert(MAGIC_BYTES@.subrange(0, 4) =~= MAGIC_BYTES@);
            return Err(
                QoiError::InvalidMagicBytes(
                    magic_bytes[0],
                    magic_bytes[1],
                    magic_bytes[2],
                    magic_bytes[3],
                ),
            );
        }
        assert(MAGIC_BYTES@.subrange(0, 4) =~= MAGIC_BYTES@);
        let width: u32 = input[4] as u32 * 0x100_0000 + input[5] as u32 * 0x1_0000 + input[6] as u32
            * 0x100 + input[7] as u32;
        let height: u32 = input[8] as u32 * 0x100_0000 + input[9] as u32 * 0x1_0000
            + input[10] as u32 * 0x100 + input[11] as u32;
        if width == 0 || height == 0 {
            return Err(QoiError::InvalidWidthHeight(width, height));
        }
        let channels = input[12];
        if channels != 3 && channels != 4 {
            return Err(QoiError::InvalidChannelsValue(channels));
        }
        let colorspace = input[13];
        if colorspace != 0 && colorspace != 1 {
            return Err(QoiError::InvalidColorspaceValue(colorspace));
        }
        Ok(Self { magic_bytes, width, height, channels, colorspace })
    }

    /// The header that callers get.
    pub fn public(self) -> (header: QoiHeader)
        ensures
            header.internal() == self,
    {
        QoiHeader { data: self }
    }
}

} // verus!
