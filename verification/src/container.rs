//! Container decoding: the fixed-size header and subheader, the sequence of
//! compressed data blocks, and their decompression into one contiguous event
//! buffer. Block boundaries carry no meaning once decompressed; outputs are
//! concatenated in block order.

use vstd::prelude::*;

use crate::ParseError;
use crate::bytes_to_string_lossy;
use crate::cursor::Cursor;
use crate::cursor::le_u16;
use crate::cursor::le_u32;
use crate::lossy_utf8;

verus! {

/// Container-level sizes and version, decoded once per file.
pub struct Header {
    pub compressed_size: i32,
    pub header_version: i32,
    pub decompressed_size: i32,
    pub compressed_data_blocks: i32,
}

/// Game identity and build information, decoded once per file.
pub struct Subheader {
    pub game_identifier: String,
    pub version: i32,
    pub build_no: i16,
    pub replay_length_ms: i32,
}

/// The mathematical value of a `Subheader`.
pub struct SubheaderView {
    pub game_identifier: Seq<char>,
    pub version: i32,
    pub build_no: i16,
    pub replay_length_ms: i32,
}

impl View for Subheader {
    type V = SubheaderView;

    open spec fn view(&self) -> SubheaderView {
        SubheaderView {
            game_identifier: self.game_identifier@,
            version: self.version,
            build_no: self.build_no,
            replay_length_ms: self.replay_length_ms,
        }
    }
}

/// One compressed chunk: its declared sizes and raw compressed content.
pub struct DataBlock {
    pub size: u16,
    pub decompressed_size: u16,
    pub content: Vec<u8>,
}

/// The mathematical value of a `DataBlock`.
pub struct DataBlockView {
    pub size: u16,
    pub decompressed_size: u16,
    pub content: Seq<u8>,
}

impl View for DataBlock {
    type V = DataBlockView;

    open spec fn view(&self) -> DataBlockView {
        DataBlockView { size: self.size, decompressed_size: self.decompressed_size, content: self.content@ }
    }
}

/// The 16-byte header at `p`: compressed size, header version, decompressed
/// size, block count, each a little-endian 32-bit field.
pub open spec fn spec_header(d: Seq<u8>, p: int) -> Header {
    Header {
        compressed_size: le_u32(d, p) as i32,
        header_version: le_u32(d, p + 4) as i32,
        decompressed_size: le_u32(d, p + 8) as i32,
        compressed_data_blocks: le_u32(d, p + 12) as i32,
    }
}

/// The subheader at `p`: a 4-byte identifier decoded as text, a 4-byte
/// version, a 2-byte build number, 2 reserved bytes, a 4-byte replay length
/// and 4 more reserved bytes.
pub open spec fn spec_subheader(d: Seq<u8>, p: int) -> SubheaderView {
    SubheaderView {
        game_identifier: lossy_utf8(d.subrange(p, p + 4)),
        version: le_u32(d, p + 4) as i32,
        build_no: le_u16(d, p + 8) as i16,
        replay_length_ms: le_u32(d, p + 12) as i32,
    }
}

/// One data block at `p`: a 2-byte compressed size, 2 reserved bytes, a
/// 2-byte decompressed size, 6 more reserved bytes, then exactly `size` bytes
/// of compressed content. Yields the block and the position after it.
pub open spec fn spec_block(d: Seq<u8>, p: int) -> Result<(DataBlockView, int), ParseError> {
    if p + 12 > d.len() {
        Err(ParseError::UnexpectedEof)
    } else {
        let size = le_u16(d, p);
        if p + 12 + size > d.len() {
            Err(ParseError::UnexpectedEof)
        } else {
            Ok(
                (
                    DataBlockView {
                        size,
                        decompressed_size: le_u16(d, p + 4),
                        content: d.subrange(p + 12, p + 12 + size),
                    },
                    p + 12 + size,
                ),
            )
        }
    }
}

/// The blocks from `p` to the end of the buffer: blocks are read until the
/// buffer is exhausted, and a block that does not fit fails the whole read.
pub open spec fn spec_blocks(d: Seq<u8>, p: int) -> Result<Seq<DataBlockView>, ParseError>
    decreases d.len() - p,
{
    if p >= d.len() {
        Ok(Seq::empty())
    } else {
        match spec_block(d, p) {
            Err(e) => Err(e),
            Ok((b, p2)) => {
                if p < p2 <= d.len() {
                    match spec_blocks(d, p2) {
                        Err(e) => Err(e),
                        Ok(rest) => Ok(seq![b] + rest),
                    }
                } else {
                    Err(ParseError::UnexpectedEof)
                }
            },
        }
    }
}

/// Read the 16-byte container header.
pub fn read_header(buf: &mut Cursor) -> (r: Result<Header, ParseError>)
    requires
        old(buf).wf(),
        old(buf).bit() == 0,
    ensures
        final(buf).wf(),
        final(buf).bit() == 0,
        final(buf).data() == old(buf).data(),
        old(buf).pos() <= final(buf).pos(),
        old(buf).pos() + 16 <= old(buf).data().len() ==> r == Ok::<Header, ParseError>(
            spec_header(old(buf).data(), old(buf).pos()),
        ) && final(buf).pos() == old(buf).pos() + 16,
        old(buf).pos() + 16 > old(buf).data().len() ==> r == Err::<Header, ParseError>(
            ParseError::UnexpectedEof,
        ),
{
    let compressed_size = match buf.read_i32() {
        Ok(v) => v,
        Err(e) => { return Err(e) },
    };
    let header_version = match buf.read_i32() {
        Ok(v) => v,
        Err(e) => { return Err(e) },
    };
    let decompressed_size = match buf.read_i32() {
        Ok(v) => v,
        Err(e) => { return Err(e) },
    };
    let compressed_data_blocks = match buf.read_i32() {
        Ok(v) => v,
        Err(e) => { return Err(e) },
    };
    Ok(Header { compressed_size, header_version, decompressed_size, compressed_data_blocks })
}

/// Read the subheader. The two reserved spans are skipped; the trailing skip
/// is clamped at the buffer end, so only the fields up to the replay length
/// are required to be present.
pub fn read_subheader(buf: &mut Cursor) -> (r: Result<Subheader, ParseError>)
    requires
        old(buf).wf(),
        old(buf).bit() == 0,
    ensures
        final(buf).wf(),
        final(buf).bit() == 0,
        final(buf).data() == old(buf).data(),
        old(buf).pos() <= final(buf).pos(),
        old(buf).pos() + 16 <= old(buf).data().len() ==> {
            &&& r matches Ok(s)
            &&& s@ == spec_subheader(old(buf).data(), old(buf).pos())
            &&& final(buf).pos() == if old(buf).pos() + 20 <= old(buf).data().len() {
                old(buf).pos() + 20
            } else {
                old(buf).data().len() as int
            }
        },
        old(buf).pos() + 16 > old(buf).data().len() ==> r == Err::<Subheader, ParseError>(
            ParseError::UnexpectedEof,
        ),
{
    let id_bytes = match buf.read_bytes(4) {
        Ok(v) => v,
        Err(e) => { return Err(e) },
    };
    let game_identifier = bytes_to_string_lossy(&id_bytes);
    let version = match buf.read_i32() {
        Ok(v) => v,
        Err(e) => { return Err(e) },
    };
    let build_no = match buf.read_i16() {
        Ok(v) => v,
        Err(e) => { return Err(e) },
    };
    buf.skip(2);
    let replay_length_ms = match buf.read_i32() {
        Ok(v) => v,
        Err(e) => { return Err(e) },
    };
    buf.skip(4);
    Ok(Subheader { game_identifier, version, build_no, replay_length_ms })
}

/// Read data blocks until the buffer is exhausted.
pub fn read_blocks(buf: &mut Cursor) -> (r: Result<Vec<DataBlock>, ParseError>)
    requires
        old(buf).wf(),
        old(buf).bit() == 0,
    ensures
        final(buf).wf(),
        final(buf).bit() == 0,
        final(buf).data() == old(buf).data(),
        old(buf).pos() <= final(buf).pos(),
        match r {
            Ok(v) => spec_blocks(old(buf).data(), old(buf).pos()) == Ok::<
                Seq<DataBlockView>,
                ParseError,
            >(v@.map_values(|b: DataBlock| b@)) && final(buf).pos() == old(buf).data().len(),
            Err(e) => spec_blocks(old(buf).data(), old(buf).pos()) == Err::<
                Seq<DataBlockView>,
                ParseError,
            >(e),
        },
{
    let ghost d = old(buf).data();
    let ghost p0 = old(buf).pos();
    let mut data_blocks: Vec<DataBlock> = Vec::new();
    while buf.get_pos() < buf.len()
        invariant
            buf.wf(),
            buf.bit() == 0,
            buf.data() == d,
            p0 <= buf.pos() <= d.len(),
            spec_blocks(d, p0) == (match spec_blocks(d, buf.pos()) {
                Ok(rest) => Ok::<Seq<DataBlockView>, ParseError>(
                    data_blocks@.map_values(|b: DataBlock| b@) + rest,
                ),
                Err(e) => Err::<Seq<DataBlockView>, ParseError>(e),
            }),
        decreases d.len() - buf.pos(),
    {
        let ghost p = buf.pos();
        let size = match buf.read_u16() {
            Ok(v) => v,
            Err(e) => { return Err(e) },
        };
        match buf.read_i16() {
            Ok(_) => (),
            Err(e) => { return Err(e) },
        };
        let decompressed_size = match buf.read_u16() {
            Ok(v) => v,
            Err(e) => { return Err(e) },
        };
        match buf.read_i32() {
            Ok(_) => (),
            Err(e) => { return Err(e) },
        };
        match buf.read_i16() {
            Ok(_) => (),
            Err(e) => { return Err(e) },
        };
        let content = match buf.read_bytes(size as usize) {
            Ok(v) => v,
            Err(e) => { return Err(e) },
        };
        let ghost oldmap = data_blocks@.map_values(|b: DataBlock| b@);
        let block = DataBlock { decompressed_size, size, content };
        data_blocks.push(block);
        proof {
            let bv = DataBlockView {
                size,
                decompressed_size,
                content: d.subrange(p + 12, p + 12 + size),
            };
            assert(spec_block(d, p) == Ok::<(DataBlockView, int), ParseError>(
                (bv, p + 12 + size),
            ));
            assert(block@ == bv);
            let newp = buf.pos();
            assert(newp == p + 12 + size);
            assert(spec_blocks(d, p) == (match spec_blocks(d, newp) {
                Ok(rest) => Ok::<Seq<DataBlockView>, ParseError>(seq![bv] + rest),
                Err(e) => Err::<Seq<DataBlockView>, ParseError>(e),
            }));
            assert(data_blocks@.map_values(|b: DataBlock| b@) =~= oldmap + seq![bv]);
            if spec_blocks(d, newp) is Ok {
                let rest = spec_blocks(d, newp)->Ok_0;
                assert(oldmap + (seq![bv] + rest) =~= (oldmap + seq![bv]) + rest);
            }
        }
    }
    proof {
        assert(spec_blocks(d, buf.pos()) == Ok::<Seq<DataBlockView>, ParseError>(Seq::empty()));
        assert(data_blocks@.map_values(|b: DataBlock| b@) + Seq::<DataBlockView>::empty()
            =~= data_blocks@.map_values(|b: DataBlock| b@));
    }
    Ok(data_blocks)
}

/// The bytes a zlib stream inflates to, or nothing where the codec rejects
/// the stream.
pub uninterp spec fn inflate_of(b: Seq<u8>) -> Option<Seq<u8>>;

/// Relies on flate2::read::ZlibDecoder (read through Read::read_to_end):
/// inflating a zlib stream is a function of the compressed bytes alone, and
/// whether the codec accepts the stream is too.
#[verifier::external_body]
fn inflate(content: &Vec<u8>) -> (r: Result<Vec<u8>, ParseError>)
    ensures
        match r {
            Ok(v) => inflate_of(content@) == Some(v@),
            Err(e) => inflate_of(content@) is None && e == ParseError::DecompressionFailure,
        },
{
    let mut d = flate2::read::ZlibDecoder::new(content.as_slice());
    let mut out: Vec<u8> = Vec::new();
    match std::io::Read::read_to_end(&mut d, &mut out) {
        Ok(_) => Ok(out),
        Err(_) => Err(ParseError::DecompressionFailure),
    }
}

/// The concatenation, in block order, of what every block's content inflates
/// to; decompression failure on any block is terminal.
pub open spec fn spec_inflate_all(blocks: Seq<DataBlockView>) -> Result<Seq<u8>, ParseError>
    decreases blocks.len(),
{
    if blocks.len() == 0 {
        Ok(Seq::empty())
    } else {
        match inflate_of(blocks[0].content) {
            None => Err(ParseError::DecompressionFailure),
            Some(o) => match spec_inflate_all(blocks.drop_first()) {
                Err(e) => Err(e),
                Ok(rest) => Ok(o + rest),
            },
        }
    }
}

/// Inflate every block and concatenate the outputs in block order into the
/// single decompressed event buffer.
pub fn decompress_blocks(blocks: &Vec<DataBlock>) -> (r: Result<Vec<u8>, ParseError>)
    ensures
        match r {
            Ok(v) => spec_inflate_all(blocks@.map_values(|b: DataBlock| b@)) == Ok::<
                Seq<u8>,
                ParseError,
            >(v@),
            Err(e) => spec_inflate_all(blocks@.map_values(|b: DataBlock| b@)) == Err::<
                Seq<u8>,
                ParseError,
            >(e),
        },
{
    let ghost bv = blocks@.map_values(|b: DataBlock| b@);
    let mut out: Vec<u8> = Vec::new();
    let mut i: usize = 0;
    proof {
        assert(bv.skip(0) =~= bv);
        assert(Seq::<u8>::empty() + spec_inflate_all(bv)->Ok_0 =~= spec_inflate_all(bv)->Ok_0);
    }
    while i < blocks.len()
        invariant
            0 <= i <= blocks.len(),
            spec_inflate_all(bv) == (match spec_inflate_all(bv.skip(i as int)) {
                Ok(rest) => Ok::<Seq<u8>, ParseError>(out@ + rest),
                Err(e) => Err::<Seq<u8>, ParseError>(e),
            }),
        decreases blocks.len() - i,
    {
        proof {
            assert(bv.skip(i as int).len() > 0);
            assert(bv.skip(i as int)[0] == bv[i as int]);
            assert(bv.skip(i as int).drop_first() =~= bv.skip(i + 1));
        }
        let mut chunk = match inflate(&blocks[i].content) {
            Ok(v) => v,
            Err(e) => { return Err(e) },
        };
        proof {
            let o = chunk@;
            assert(inflate_of(bv.skip(i as int)[0].content) == Some(o));
            assert(spec_inflate_all(bv.skip(i as int)) == (match spec_inflate_all(
                bv.skip(i + 1),
            ) {
                Ok(rest) => Ok::<Seq<u8>, ParseError>(o + rest),
                Err(e) => Err::<Seq<u8>, ParseError>(e),
            }));
            if spec_inflate_all(bv.skip(i + 1)) is Ok {
                let rest = spec_inflate_all(bv.skip(i + 1))->Ok_0;
                assert(out@ + (o + rest) =~= (out@ + o) + rest);
            }
        }
        out.append(&mut chunk);
        i = i + 1;
    }
    proof {
        assert(bv.skip(blocks@.len() as int) =~= Seq::<DataBlockView>::empty());
        assert(out@ + Seq::<u8>::empty() =~= out@);
    }
    Ok(out)
}

} // verus!
