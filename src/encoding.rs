use vstd::prelude::*;

use crate::abi::{is_dynamic, kind_is_dynamic, AbiParam, EventParamAbi, ParamKind};

verus! {

/// The number of 32-byte words of encoded data.
pub open spec fn words(data: Seq<u8>) -> int {
    (data.len() / 32) as int
}

/// Byte `i` of word `w`.
pub open spec fn word_byte(data: Seq<u8>, w: int, i: int) -> u8 {
    data[32 * w + i]
}

/// The word at index `w` read as a big-endian 32-bit number, when its first
/// 28 bytes are zero.
pub open spec fn u32_word(data: Seq<u8>, w: int) -> Option<int> {
    if forall|i: int| 0 <= i < 28 ==> #[trigger] word_byte(data, w, i) == 0 {
        Some(data[32 * w + 28] as int * 16777216 + data[32 * w + 29] as int * 65536
            + data[32 * w + 30] as int * 256 + data[32 * w + 31] as int)
    } else {
        None
    }
}

/// The number of words that `len` bytes take.
pub open spec fn words_for(len: int) -> int {
    (len + 31) / 32
}

/// The walk of the decoder over one value of type `k` whose head is at word
/// `offset` of the words from `base` on: the offset after it, or none when an
/// offset or length it reads falls outside the data or is not a 32-bit number.
pub open spec fn walk(k: ParamKind, data: Seq<u8>, base: int, offset: int) -> Option<int>
    decreases k, 0int, 0int,
{
    let room = words(data) - base;
    match k {
        ParamKind::FixedBytes(len) => if len + 31 <= usize::MAX && offset + words_for(len as int) <= room {
            Some(offset + words_for(len as int))
        } else {
            None
        },
        ParamKind::Bytes | ParamKind::String => if offset < room {
            match u32_word(data, base + offset) {
                Some(v) => if v / 32 < room {
                    match u32_word(data, base + v / 32) {
                        Some(l) => if v / 32 + 1 + words_for(l) <= room { Some(offset + 1) } else { None },
                        None => None,
                    }
                } else {
                    None
                },
                None => None,
            }
        } else {
            None
        },
        ParamKind::Array(t) => if offset < room {
            match u32_word(data, base + offset) {
                Some(v) => if v / 32 < room {
                    match u32_word(data, base + v / 32) {
                        Some(l) => match walk_many(*t, l, data, base + v / 32 + 1, 0) {
                            Some(_) => Some(offset + 1),
                            None => None,
                        },
                        None => None,
                    }
                } else {
                    None
                },
                None => None,
            }
        } else {
            None
        },
        ParamKind::FixedArray(t, len) => if is_dynamic(*t) {
            if offset < room {
                match u32_word(data, base + offset) {
                    Some(v) => if v / 32 <= room {
                        match walk_many(*t, len as int, data, base + v / 32, 0) {
                            Some(_) => Some(offset + 1),
                            None => None,
                        }
                    } else {
                        None
                    },
                    None => None,
                }
            } else {
                None
            }
        } else {
            walk_many(*t, len as int, data, base, offset)
        },
        _ => if offset < room { Some(offset + 1) } else { None },
    }
}

/// The walk over `count` values of type `t` one after the other.
pub open spec fn walk_many(t: ParamKind, count: int, data: Seq<u8>, base: int, offset: int) -> Option<int>
    decreases t, 1int, count,
{
    if count <= 0 {
        Some(offset)
    } else {
        match walk(t, data, base, offset) {
            Some(o) => walk_many(t, count - 1, data, base, o),
            None => None,
        }
    }
}

/// The walk over the parameters from the `i`-th on.
pub open spec fn params_walk(ps: Seq<AbiParam>, data: Seq<u8>, i: int, offset: int) -> Option<int>
    decreases ps.len() - i,
{
    if i >= ps.len() || i < 0 {
        Some(offset)
    } else {
        match walk(ps[i].kind, data, 0, offset) {
            Some(o) => params_walk(ps, data, i + 1, o),
            None => None,
        }
    }
}

/// The walk over the inputs from the `i`-th on that a log carries in its data.
pub open spec fn event_walk(ps: Seq<EventParamAbi>, data: Seq<u8>, i: int, offset: int) -> Option<int>
    decreases ps.len() - i,
{
    if i >= ps.len() || i < 0 {
        Some(offset)
    } else if ps[i].indexed {
        event_walk(ps, data, i + 1, offset)
    } else {
        match walk(ps[i].param.kind, data, 0, offset) {
            Some(o) => event_walk(ps, data, i + 1, o),
            None => None,
        }
    }
}

/// Whether the data is whole words and every offset and length that decoding
/// it against the parameters reads stays inside it.
pub open spec fn encoding_in_range(ps: Seq<AbiParam>, data: Seq<u8>) -> bool {
    data.len() % 32 == 0 && params_walk(ps, data, 0, 0) is Some
}

/// Whether a type's byte length, if it is a fixed byte string, can be rounded
/// up to whole words.
pub open spec fn fixed_bytes_fit(k: ParamKind) -> bool {
    match k {
        ParamKind::FixedBytes(len) => len + 31 <= usize::MAX,
        _ => true,
    }
}

/// Whether a log's data is whole words whose offsets and lengths stay inside
/// it for the event's non-indexed inputs, and every indexed input's byte
/// length fits.
pub open spec fn event_encoding_in_range(ps: Seq<EventParamAbi>, data: Seq<u8>) -> bool {
    &&& data.len() % 32 == 0
    &&& event_walk(ps, data, 0, 0) is Some
    &&& forall|i: int| 0 <= i < ps.len() && (#[trigger] ps[i]).indexed ==> fixed_bytes_fit(ps[i].param.kind)
}

fn read_u32_word(data: &[u8], w: usize) -> (r: Option<u64>)
    requires
        w < words(data@),
    ensures
        match u32_word(data@, w as int) {
            Some(v) => r == Some(v as u64),
            None => r is None,
        },
{
    let total = data.len();
    assert(32 * w + 32 <= total);
    let start = 32 * w;
    let mut i: usize = 0;
    while i < 28
        invariant
            w < words(data@),
            start == 32 * w,
            i <= 28,
            forall|j: int| 0 <= j < i ==> #[trigger] word_byte(data@, w as int, j) == 0,
        decreases 28 - i,
    {
        if data[start + i] != 0 {
            assert(word_byte(data@, w as int, i as int) != 0);
            return None;
        }
        i = i + 1;
    }
    let v: u64 = data[start + 28] as u64 * 16777216 + data[start + 29] as u64 * 65536
        + data[start + 30] as u64 * 256 + data[start + 31] as u64;
    Some(v)
}

fn walk_one(k: &ParamKind, data: &[u8], base: usize, offset: usize) -> (r: Option<usize>)
    requires
        base <= words(data@),
        offset <= words(data@) - base,
    ensures
        r is Some <==> walk(*k, data@, base as int, offset as int) is Some,
        r matches Some(o) ==> walk(*k, data@, base as int, offset as int) == Some(o as int)
            && offset <= o <= words(data@) - base,
    decreases *k, 1int,
{
    let n = data.len() / 32;
    let room = n - base;
    match k {
        ParamKind::FixedBytes(len) => {
            if *len > usize::MAX - 31 {
                return None;
            }
            let w = (*len + 31) / 32;
            if w <= room - offset {
                Some(offset + w)
            } else {
                None
            }
        },
        ParamKind::Bytes | ParamKind::String => {
            if offset >= room {
                return None;
            }
            let v = match read_u32_word(data, base + offset) {
                Some(v) => v,
                None => {
                    return None;
                },
            };
            if v / 32 >= room as u64 {
                return None;
            }
            let lo = (v / 32) as usize;
            let l = match read_u32_word(data, base + lo) {
                Some(l) => l,
                None => {
                    return None;
                },
            };
            if (l + 31) / 32 <= (room - lo - 1) as u64 {
                Some(offset + 1)
            } else {
                None
            }
        },
        ParamKind::Array(t) => {
            if offset >= room {
                return None;
            }
            let v = match read_u32_word(data, base + offset) {
                Some(v) => v,
                None => {
                    return None;
                },
            };
            if v / 32 >= room as u64 {
                return None;
            }
            let lo = (v / 32) as usize;
            let l = match read_u32_word(data, base + lo) {
                Some(l) => l,
                None => {
                    return None;
                },
            };
            match walk_repeated(t, l, data, base + lo + 1, 0) {
                Some(_) => Some(offset + 1),
                None => None,
            }
        },
        ParamKind::FixedArray(t, len) => {
            if kind_is_dynamic(t) {
                if offset >= room {
                    return None;
                }
                let v = match read_u32_word(data, base + offset) {
                    Some(v) => v,
                    None => {
                        return None;
                    },
                };
                if v / 32 > room as u64 {
                    return None;
                }
                let tail = (v / 32) as usize;
                match walk_repeated(t, *len as u64, data, base + tail, 0) {
                    Some(_) => Some(offset + 1),
                    None => None,
                }
            } else {
                walk_repeated(t, *len as u64, data, base, offset)
            }
        },
        _ => {
            if offset < room {
                Some(offset + 1)
            } else {
                None
            }
        },
    }
}

fn walk_repeated(t: &ParamKind, count: u64, data: &[u8], base: usize, offset: usize) -> (r: Option<usize>)
    requires
        base <= words(data@),
        offset <= words(data@) - base,
    ensures
        r is Some <==> walk_many(*t, count as int, data@, base as int, offset as int) is Some,
        r matches Some(o) ==> walk_many(*t, count as int, data@, base as int, offset as int) == Some(o as int)
            && offset <= o <= words(data@) - base,
    decreases *t, 2int,
{
    let mut i: u64 = 0;
    let mut cur = offset;
    while i < count
        invariant
            base <= words(data@),
            i <= count,
            offset <= cur <= words(data@) - base,
            walk_many(*t, count as int, data@, base as int, offset as int)
                == walk_many(*t, count - i, data@, base as int, cur as int),
        decreases count - i,
    {
        let ghost before = cur as int;
        match walk_one(t, data, base, cur) {
            Some(o) => {
                cur = o;
            },
            None => {
                assert(walk_many(*t, count - i, data@, base as int, before) is None);
                return None;
            },
        }
        assert(walk_many(*t, count - i, data@, base as int, before)
            == walk_many(*t, count - i - 1, data@, base as int, cur as int));
        i = i + 1;
    }
    Some(cur)
}

/// Whether `data` is whole words and every offset and length that decoding it
/// against the parameters reads stays inside it.
pub fn params_encoding_in_range(ps: &Vec<AbiParam>, data: &[u8]) -> (r: bool)
    ensures
        r == encoding_in_range(ps@, data@),
{
    if data.len() % 32 != 0 {
        return false;
    }
    let mut i: usize = 0;
    let mut cur: usize = 0;
    while i < ps.len()
        invariant
            data@.len() % 32 == 0,
            i <= ps@.len(),
            cur <= words(data@),
            params_walk(ps@, data@, 0, 0) == params_walk(ps@, data@, i as int, cur as int),
        decreases ps@.len() - i,
    {
        let ghost before = cur as int;
        match walk_one(&ps[i].kind, data, 0, cur) {
            Some(o) => {
                cur = o;
            },
            None => {
                assert(params_walk(ps@, data@, i as int, before) is None);
                return false;
            },
        }
        assert(params_walk(ps@, data@, i as int, before) == params_walk(ps@, data@, i + 1, cur as int));
        i = i + 1;
    }
    true
}

/// Whether the log's data is whole words whose offsets and lengths stay inside
/// it for the event's non-indexed inputs, and every indexed input's byte
/// length fits.
pub fn event_encoding_ok(ps: &Vec<EventParamAbi>, data: &[u8]) -> (r: bool)
    ensures
        r == event_encoding_in_range(ps@, data@),
{
    if data.len() % 32 != 0 {
        return false;
    }
    let mut i: usize = 0;
    let mut cur: usize = 0;
    while i < ps.len()
        invariant
            data@.len() % 32 == 0,
            i <= ps@.len(),
            cur <= words(data@),
            event_walk(ps@, data@, 0, 0) == event_walk(ps@, data@, i as int, cur as int),
            forall|j: int| 0 <= j < i && (#[trigger] ps@[j]).indexed ==> fixed_bytes_fit(ps@[j].param.kind),
        decreases ps@.len() - i,
    {
        if ps[i].indexed {
            match &ps[i].param.kind {
                ParamKind::FixedBytes(len) => {
                    if *len > usize::MAX - 31 {
                        return false;
                    }
                },
                _ => {},
            }
        } else {
            let ghost before = cur as int;
            match walk_one(&ps[i].param.kind, data, 0, cur) {
                Some(o) => {
                    cur = o;
                },
                None => {
                    assert(event_walk(ps@, data@, i as int, before) is None);
                    return false;
                },
            }
            assert(event_walk(ps@, data@, i as int, before) == event_walk(ps@, data@, i + 1, cur as int));
        }
        i = i + 1;
    }
    true
}

} // verus!
