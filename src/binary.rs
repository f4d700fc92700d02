use vstd::prelude::*;

verus! {

/// One token of the binary format. Strings are given by the range of their
/// bytes in the input.
#[derive(Debug, Clone, Copy, PartialEq, Eq, Structural)]
pub enum BinaryToken {
    /// `=`
    Equal,
    /// `{`: the start of an object or an array.
    Open,
    /// `}`
    Close,
    I32(i32),
    U32(u32),
    U64(u64),
    I64(i64),
    Bool(bool),
    /// A quoted string: `start` and `end` of its bytes.
    Quoted(usize, usize),
    /// An unquoted string: `start` and `end` of its bytes.
    Unquoted(usize, usize),
    /// The raw integer of a 32 bit flavored float.
    F32(i32),
    /// The raw integer of a 64 bit flavored float.
    F64(i64),
    /// An integer scaled by 100000, as newer saves write some numbers.
    Scaled(i64),
    /// An identifier that the resolver names.
    Id(u16),
}

pub const TOKEN_EQUAL: u16 = 0x0001;
pub const TOKEN_OPEN: u16 = 0x0003;
pub const TOKEN_CLOSE: u16 = 0x0004;
pub const TOKEN_I32: u16 = 0x000c;
pub const TOKEN_F32: u16 = 0x000d;
pub const TOKEN_BOOL: u16 = 0x000e;
pub const TOKEN_QUOTED: u16 = 0x000f;
pub const TOKEN_U32: u16 = 0x0014;
pub const TOKEN_UNQUOTED: u16 = 0x0017;
pub const TOKEN_F64: u16 = 0x0167;
pub const TOKEN_U64: u16 = 0x029c;
pub const TOKEN_I64: u16 = 0x0317;

/// Little endian unsigned integer of two bytes at `i`.
pub open spec fn le_u16(s: Seq<u8>, i: int) -> int {
    s[i] + 256 * s[i + 1]
}

/// Little endian unsigned integer of four bytes at `i`.
pub open spec fn le_u32(s: Seq<u8>, i: int) -> int {
    le_u16(s, i) + 65536 * le_u16(s, i + 2)
}

/// Little endian unsigned integer of eight bytes at `i`.
pub open spec fn le_u64(s: Seq<u8>, i: int) -> int {
    le_u32(s, i) + 4294967296 * le_u32(s, i + 4)
}

/// Two's complement reading of a 32 bit pattern.
pub open spec fn signed32(u: int) -> int {
    if u >= 0x8000_0000 {
        u - 0x1_0000_0000
    } else {
        u
    }
}

/// Two's complement reading of a 64 bit pattern.
pub open spec fn signed64(u: int) -> int {
    if u >= 0x8000_0000_0000_0000 {
        u - 0x1_0000_0000_0000_0000
    } else {
        u
    }
}

/// The token at `pos` and the position after it, or `None` when the input ends
/// inside it. `scaled` says whether token `0x000d` carries an eight byte
/// scaled integer (newer saves) or a four byte flavored float.
pub open spec fn token_at(s: Seq<u8>, pos: int, scaled: bool) -> Option<(BinaryToken, int)> {
    let p = pos + 2;
    if pos < 0 || p > s.len() {
        None
    } else {
        let id = le_u16(s, pos);
        if id == TOKEN_EQUAL {
            Some((BinaryToken::Equal, p))
        } else if id == TOKEN_OPEN {
            Some((BinaryToken::Open, p))
        } else if id == TOKEN_CLOSE {
            Some((BinaryToken::Close, p))
        } else if id == TOKEN_I32 || id == TOKEN_U32 || (id == TOKEN_F32 && !scaled) {
            if p + 4 > s.len() {
                None
            } else {
                let u = le_u32(s, p);
                let t = if id == TOKEN_I32 {
                    BinaryToken::I32(signed32(u) as i32)
                } else if id == TOKEN_U32 {
                    BinaryToken::U32(u as u32)
                } else {
                    BinaryToken::F32(signed32(u) as i32)
                };
                Some((t, p + 4))
            }
        } else if id == TOKEN_U64 || id == TOKEN_I64 || id == TOKEN_F64 || id == TOKEN_F32 {
            if p + 8 > s.len() {
                None
            } else {
                let u = le_u64(s, p);
                let t = if id == TOKEN_U64 {
                    BinaryToken::U64(u as u64)
                } else if id == TOKEN_I64 {
                    BinaryToken::I64(signed64(u) as i64)
                } else if id == TOKEN_F64 {
                    BinaryToken::F64(signed64(u) as i64)
                } else {
                    BinaryToken::Scaled(signed64(u) as i64)
                };
                Some((t, p + 8))
            }
        } else if id == TOKEN_BOOL {
            if p + 1 > s.len() {
                None
            } else {
                Some((BinaryToken::Bool(s[p] != 0), p + 1))
            }
        } else if id == TOKEN_QUOTED || id == TOKEN_UNQUOTED {
            if p + 2 > s.len() || p + 2 + le_u16(s, p) > s.len() {
                None
            } else {
                let start = p + 2;
                let end = p + 2 + le_u16(s, p);
                let t = if id == TOKEN_QUOTED {
                    BinaryToken::Quoted(start as usize, end as usize)
                } else {
                    BinaryToken::Unquoted(start as usize, end as usize)
                };
                Some((t, end))
            }
        } else {
            Some((BinaryToken::Id(id as u16), p))
        }
    }
}

fn read_u16(data: &[u8], i: usize) -> (r: u16)
    requires
        i + 2 <= data@.len(),
        data@.len() <= usize::MAX,
    ensures
        r as int == le_u16(data@, i as int),
{
    data[i] as u16 + 256 * (data[i + 1] as u16)
}

fn read_u32(data: &[u8], i: usize) -> (r: u32)
    requires
        i + 4 <= data@.len(),
        data@.len() <= usize::MAX,
    ensures
        r as int == le_u32(data@, i as int),
{
    read_u16(data, i) as u32 + 65536 * (read_u16(data, i + 2) as u32)
}

fn read_u64(data: &[u8], i: usize) -> (r: u64)
    requires
        i + 8 <= data@.len(),
        data@.len() <= usize::MAX,
    ensures
        r as int == le_u64(data@, i as int),
{
    read_u32(data, i) as u64 + 4294967296 * (read_u32(data, i + 4) as u64)
}

fn to_signed32(u: u32) -> (r: i32)
    ensures
        r as int == signed32(u as int),
{
    if u < 0x8000_0000 {
        u as i32
    } else {
        (u - 0x8000_0000) as i32 + i32::MIN
    }
}

fn to_signed64(u: u64) -> (r: i64)
    ensures
        r as int == signed64(u as int),
{
    if u < 0x8000_0000_0000_0000 {
        u as i64
    } else {
        (u - 0x8000_0000_0000_0000) as i64 + i64::MIN
    }
}

/// Reads the token at `pos`; `None` when the input ends inside it.
pub fn read_token(data: &[u8], pos: usize, scaled: bool) -> (r: Option<(BinaryToken, usize)>)
    ensures
        match r {
            Some((t, next)) => token_at(data@, pos as int, scaled) == Some((t, next as int)),
            None => token_at(data@, pos as int, scaled) is None,
        },
{
    if data.len() < 2 || pos > data.len() - 2 {
        return None;
    }
    let id = read_u16(data, pos);
    let p = pos + 2;
    let len = data.len();
    if id == TOKEN_EQUAL {
        Some((BinaryToken::Equal, p))
    } else if id == TOKEN_OPEN {
        Some((BinaryToken::Open, p))
    } else if id == TOKEN_CLOSE {
        Some((BinaryToken::Close, p))
    } else if id == TOKEN_I32 || id == TOKEN_U32 || (id == TOKEN_F32 && !scaled) {
        if len - p < 4 {
            None
        } else {
            let u = read_u32(data, p);
            let t = if id == TOKEN_I32 {
                BinaryToken::I32(to_signed32(u))
            } else if id == TOKEN_U32 {
                BinaryToken::U32(u)
            } else {
                BinaryToken::F32(to_signed32(u))
            };
            Some((t, p + 4))
        }
    } else if id == TOKEN_U64 || id == TOKEN_I64 || id == TOKEN_F64 || id == TOKEN_F32 {
        if len - p < 8 {
            None
        } else {
            let u = read_u64(data, p);
            let t = if id == TOKEN_U64 {
                BinaryToken::U64(u)
            } else if id == TOKEN_I64 {
                BinaryToken::I64(to_signed64(u))
            } else if id == TOKEN_F64 {
                BinaryToken::F64(to_signed64(u))
            } else {
                BinaryToken::Scaled(to_signed64(u))
            };
            Some((t, p + 8))
        }
    } else if id == TOKEN_BOOL {
        if len - p < 1 {
            None
        } else {
            Some((BinaryToken::Bool(data[p] != 0), p + 1))
        }
    } else if id == TOKEN_QUOTED || id == TOKEN_UNQUOTED {
        if len - p < 2 {
            None
        } else {
            let n = read_u16(data, p) as usize;
            let start = p + 2;
            if len - start < n {
                None
            } else {
                let end = start + n;
                let t = if id == TOKEN_QUOTED {
                    BinaryToken::Quoted(start, end)
                } else {
                    BinaryToken::Unquoted(start, end)
                };
                Some((t, end))
            }
        }
    } else {
        Some((BinaryToken::Id(id), p))
    }
}

} // verus!
