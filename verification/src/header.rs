//! The fixed 8-byte message envelope: an endianness flag, the message kind,
//! two ignored padding bytes, and the total frame length in the flagged
//! endianness.
use vstd::prelude::*;

verus! {

use crate::intbytes::{ule4_val, ube4_val, read_u32_le, read_u32_be, lemma_vec_len_bound};
use crate::kobj::KErr;

#[derive(Debug, Clone, Copy, PartialEq, Eq, Structural)]
pub enum Endian {
    Big,
    Little,
}

#[derive(Debug, Clone, Copy, PartialEq, Eq, Structural)]
pub struct Header {
    pub endian: Endian,
    pub protocol: u8,
    pub length: u32,
}

/// The envelope encoded at `pos`: byte 0 flags the endianness, byte 1 is the
/// message kind, bytes 2 and 3 are padding, bytes 4 to 7 carry the frame
/// length in the flagged endianness.
pub open spec fn header_at(s: Seq<u8>, pos: int) -> Header {
    Header {
        endian: if s[pos] == 1 {
            Endian::Little
        } else {
            Endian::Big
        },
        protocol: s[pos + 1],
        length: if s[pos] == 1 {
            ule4_val(s, pos + 4)
        } else {
            ube4_val(s, pos + 4)
        },
    }
}

impl Header {
    /// Read the envelope at `pos`, consuming exactly 8 bytes; fewer available
    /// is a truncated stream.
    pub fn read(bytes: &Vec<u8>, pos: usize) -> (r: Result<(Header, usize), KErr>)
        requires
            pos <= bytes@.len(),
        ensures
            match r {
                Ok(p) => {
                    &&& pos + 8 <= bytes@.len()
                    &&& p.0 == header_at(bytes@, pos as int)
                    &&& p.1 == pos + 8
                },
                Err(e) => {
                    &&& e == KErr::TruncatedStream
                    &&& pos + 8 > bytes@.len()
                },
            },
    {
        proof {
            lemma_vec_len_bound(bytes);
        }
        if bytes.len() - pos < 8 {
            return Err(KErr::TruncatedStream);
        }
        let endian_flag = bytes[pos];
        let protocol = bytes[pos + 1];
        let header = if endian_flag == 1 {
            Header { endian: Endian::Little, protocol, length: read_u32_le(bytes, pos + 4) }
        } else {
            Header { endian: Endian::Big, protocol, length: read_u32_be(bytes, pos + 4) }
        };
        Ok((header, pos + 8))
    }
}

} // verus!
