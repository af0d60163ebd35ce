//! The map of a precompiled normalizer, and whether every text can be looked up
//! in it.
//!
//! A map, as the `spm_precompiled` crate reads it, is a list of bytes: the length of
//! a trie, its units of four bytes each, and behind them the texts that it leads
//! to. Numbers start with the lowest byte.
//! A text is looked up byte by byte. From a unit the trie goes on at another
//! place, the next byte picks one of the 256 units around that place, and where
//! that unit does not hold the same byte the search ends.

use vstd::prelude::*;

use crate::text;

verus! {

// ---- the bytes as they are printed ----

/// What the printed form of a normalizer starts with, in front of the bytes of its
/// map.
pub const FRONT: &'static str = "Precompiled { precompiled_charsmap: [";

/// The bytes that are listed in `s` from `i` on, up to the closing bracket. Of the
/// first one `value` was read before `i`, and `started` says whether it was at all.
pub open spec fn bytes_from(s: Seq<char>, i: int, value: nat, started: bool) -> Option<Seq<u8>>
    decreases s.len() - i,
{
    if i < 0 || i >= s.len() {
        None
    } else if text::is_digit(s[i]) {
        let more: nat = value * 10 + ((s[i] as u32 - 48) as nat);
        if more > 255 {
            None
        } else {
            bytes_from(s, i + 1, more, true)
        }
    } else if !started {
        None
    } else if s[i] == ']' {
        Some(seq![value as u8])
    } else if s[i] == ',' && i + 1 < s.len() && s[i + 1] == ' ' {
        behind(seq![value as u8], bytes_from(s, i + 2, 0, false))
    } else {
        None
    }
}

pub open spec fn behind(front: Seq<u8>, rest: Option<Seq<u8>>) -> Option<Seq<u8>> {
    match rest {
        Some(rest) => Some(front + rest),
        None => None,
    }
}

/// The bytes of the map of a printed normalizer.
pub open spec fn printed_map(printed: Seq<char>) -> Option<Seq<u8>> {
    if FRONT@.is_prefix_of(printed) {
        bytes_from(printed, FRONT@.len() as int, 0, false)
    } else {
        None
    }
}

/// Reads the bytes of the map of a printed normalizer.
fn read_map(printed: &str) -> (r: Option<Vec<u8>>)
    ensures
        match r {
            Some(bytes) => printed_map(printed@) == Some(bytes@),
            None => printed_map(printed@) is None,
        },
{
    if !text::starts_with(printed, FRONT) {
        return None;
    }
    let chars = text::chars_of(printed);
    let len: usize = chars.len();
    let mut out: Vec<u8> = Vec::new();
    let mut value: u32 = 0;
    let mut started: bool = false;
    let mut i: usize = FRONT.unicode_len();
    proof {
        let all = printed_map(printed@);
        if all is Some {
            assert(out@ + all->0 =~= all->0);
        }
    }
    while i < len
        invariant
            chars@ == printed@,
            len == chars@.len(),
            value <= 255,
            printed_map(printed@) == behind(
                out@,
                bytes_from(printed@, i as int, value as nat, started),
            ),
        decreases len - i,
    {
        let c: char = chars[i];
        if 48 <= c as u32 && c as u32 <= 57 {
            value = value * 10 + (c as u32 - 48);
            if value > 255 {
                return None;
            }
            started = true;
            i += 1;
        } else if !started {
            return None;
        } else if c == ']' {
            out.push(value as u8);
            return Some(out);
        } else if c == ',' && len - i > 1 && chars[i + 1] == ' ' {
            let ghost before = out@;
            out.push(value as u8);
            proof {
                let rest = bytes_from(printed@, i + 2, 0, false);
                if rest is Some {
                    assert(before + (seq![value as u8] + rest->0) =~= out@ + rest->0);
                }
            }
            value = 0;
            started = false;
            i += 2;
        } else {
            return None;
        }
    }
    None
}

// ---- the trie ----

pub open spec fn number_at(bytes: Seq<u8>, p: int) -> u64 {
    (bytes[p] + bytes[p + 1] * 0x100 + bytes[p + 2] * 0x10000 + bytes[p + 3] * 0x1000000) as u64
}

/// The number of units of the trie.
pub open spec fn unit_count(bytes: Seq<u8>) -> u64 {
    number_at(bytes, 0) / 4
}

/// Whether all units are there.
pub open spec fn has_units(bytes: Seq<u8>) -> bool {
    4 <= bytes.len() && 4 + 4 * unit_count(bytes) <= bytes.len()
}

pub open spec fn unit(bytes: Seq<u8>, i: u64) -> u64 {
    number_at(bytes, 4 + 4 * i)
}

/// Whether a search can come to a unit: it holds a byte, and no other than 0.
pub open spec fn holds_byte(u: u64) -> bool {
    u < 0x8000_0000 && u % 0x100 != 0
}

/// How far off the place is where the trie goes on. The place is the place of the
/// unit with the bits of this number turned over.
pub open spec fn offset(u: u64) -> u64 {
    if u / 0x200 % 2 == 1 {
        (u / 0x400 * 0x100) as u64
    } else {
        u / 0x400
    }
}

/// Whether a text ends at a unit. Where the trie goes on then stands a unit that
/// tells where the text in its place starts.
pub open spec fn ends_text(u: u64) -> bool {
    u / 0x100 % 2 == 1
}

pub open spec fn text_start(u: u64) -> u64 {
    u % 0x8000_0000
}

/// Whether there are units at a place and at all places around it that a byte can
/// pick.
pub open spec fn has_room(bytes: Seq<u8>, place: u64) -> bool {
    place < unit_count(bytes) && (place | 0xFF) < unit_count(bytes)
}

/// Whether a character of the texts, or their end, is at `start`.
pub open spec fn starts_text(bytes: Seq<u8>, start: u64) -> bool {
    let p = 4 + 4 * unit_count(bytes) + start;
    p == bytes.len() || p < bytes.len() && bytes[p] / 0x40 != 2
}

/// Whether a search that comes to a unit can go on from there.
pub open spec fn goes_on(bytes: Seq<u8>, i: u64) -> bool {
    let u = unit(bytes, i);
    let place = i ^ offset(u);
    holds_byte(u) ==> has_room(bytes, place) && (ends_text(u) ==> starts_text(
        bytes,
        text_start(unit(bytes, place)),
    ))
}

/// Whether no search leaves the map.
pub open spec fn is_sound(bytes: Seq<u8>) -> bool {
    &&& has_units(bytes)
    &&& unit_count(bytes) > 0
    &&& has_room(bytes, offset(unit(bytes, 0)))
    &&& forall|i: u64| i < unit_count(bytes) ==> #[trigger] goes_on(bytes, i)
}

fn read_number(bytes: &Vec<u8>, p: usize) -> (r: u64)
    requires
        p + 4 <= bytes@.len(),
    ensures
        r == number_at(bytes@, p as int),
        r < 0x1_0000_0000,
{
    let len: usize = bytes.len();
    assert(p + 4 <= len);
    bytes[p] as u64 + bytes[p + 1] as u64 * 0x100 + bytes[p + 2] as u64 * 0x10000 + bytes[p
        + 3] as u64 * 0x1000000
}

fn read_unit(bytes: &Vec<u8>, i: u64) -> (r: u64)
    requires
        has_units(bytes@),
        i < unit_count(bytes@),
    ensures
        r == unit(bytes@, i),
        r < 0x1_0000_0000,
{
    let len: usize = bytes.len();
    assert(4 + 4 * i + 4 <= len);
    read_number(bytes, (4 + 4 * i) as usize)
}

fn read_offset(u: u64) -> (r: u64)
    requires
        u < 0x1_0000_0000,
    ensures
        r == offset(u),
{
    if u / 0x200 % 2 == 1 {
        u / 0x400 * 0x100
    } else {
        u / 0x400
    }
}

fn leads_to_text(bytes: &Vec<u8>, start: u64) -> (r: bool)
    requires
        has_units(bytes@),
        start < 0x8000_0000,
    ensures
        r == starts_text(bytes@, start),
{
    let p: u64 = 4 + 4 * (read_number(bytes, 0) / 4) + start;
    let len: usize = bytes.len();
    p == len as u64 || p < len as u64 && bytes[p as usize] / 0x40 != 2
}

/// Looks at all units of a map.
fn check_map(bytes: &Vec<u8>) -> (r: bool)
    ensures
        r == is_sound(bytes@),
{
    let len: usize = bytes.len();
    if len < 4 {
        return false;
    }
    let count: u64 = read_number(bytes, 0) / 4;
    if 4 + 4 * count > len as u64 || count == 0 {
        return false;
    }
    let first: u64 = read_offset(read_unit(bytes, 0));
    if first >= count || (first | 0xFF) >= count {
        return false;
    }
    let mut i: u64 = 0;
    while i < count
        invariant
            has_units(bytes@),
            count == unit_count(bytes@),
            i <= count,
            forall|k: u64| k < i ==> #[trigger] goes_on(bytes@, k),
        decreases count - i,
    {
        let u: u64 = read_unit(bytes, i);
        let place: u64 = i ^ read_offset(u);
        if u < 0x8000_0000 && u % 0x100 != 0 {
            if place >= count || (place | 0xFF) >= count {
                assert(!goes_on(bytes@, i));
                return false;
            }
            if u / 0x100 % 2 == 1 {
                let start: u64 = read_unit(bytes, place) % 0x8000_0000;
                if !leads_to_text(bytes, start) {
                    assert(!goes_on(bytes@, i));
                    return false;
                }
            }
        }
        assert(goes_on(bytes@, i));
        i += 1;
    }
    true
}

/// Whether a printed normalizer has a map that no search leaves.
pub open spec fn prints_sound_map(printed: Seq<char>) -> bool {
    match printed_map(printed) {
        Some(bytes) => is_sound(bytes),
        None => false,
    }
}

/// Whether a printed normalizer has a map that no search leaves.
pub fn check_printed(printed: &str) -> (r: bool)
    ensures
        r == prints_sound_map(printed@),
{
    match read_map(printed) {
        Some(bytes) => check_map(&bytes),
        None => false,
    }
}

// ---- what is read ----

/// The bytes from `k` on as a list prints them, up to the closing bracket.
pub open spec fn listed(bytes: Seq<u8>, k: int) -> Seq<char>
    decreases bytes.len() - k,
{
    if k + 1 < bytes.len() {
        text::decimal(bytes[k] as nat) + seq![',', ' '] + listed(bytes, k + 1)
    } else {
        text::decimal(bytes[k] as nat) + seq![']']
    }
}

proof fn lemma_number_read(s: Seq<char>, i: int, n: nat, started: bool)
    requires
        n <= 255,
        0 <= i,
        i + text::decimal(n).len() <= s.len(),
        s.subrange(i, i + text::decimal(n).len()) == text::decimal(n),
    ensures
        bytes_from(s, i, 0, started) == bytes_from(s, i + text::decimal(n).len(), n, true),
    decreases n,
{
    let d = text::decimal(n);
    let last = i + d.len() - 1;
    text::lemma_decimal_value(n);
    text::law_decimal_is_by_tens(n);
    assert(s.subrange(i, i + d.len())[d.len() - 1] == s[last]);
    assert(text::is_digit(d[d.len() - 1]));
    if n >= 10 {
        let front = text::decimal(n / 10);
        assert(s.subrange(i, i + front.len()) =~= d.drop_last());
        lemma_number_read(s, i, n / 10, started);
    }
}

proof fn lemma_list_read(s: Seq<char>, i: int, bytes: Seq<u8>, k: int)
    requires
        0 <= k < bytes.len(),
        0 <= i,
        i + listed(bytes, k).len() <= s.len(),
        s.subrange(i, i + listed(bytes, k).len()) == listed(bytes, k),
    ensures
        bytes_from(s, i, 0, false) == Some(bytes.subrange(k, bytes.len() as int)),
    decreases bytes.len() - k,
{
    let all = listed(bytes, k);
    let d = text::decimal(bytes[k] as nat);
    let j = i + d.len();
    let part = s.subrange(i, i + all.len());
    assert(s.subrange(i, j) =~= d) by {
        assert forall|x: int| 0 <= x < d.len() implies s[i + x] == d[x] by {
            assert(part[x] == s[i + x]);
            assert(all[x] == d[x]);
        }
    }
    lemma_number_read(s, i, bytes[k] as nat, false);
    assert(part[d.len() as int] == s[j]);
    assert(all[d.len() as int] == s[j]);
    if k + 1 < bytes.len() {
        let rest = listed(bytes, k + 1);
        assert(part[d.len() + 1int] == s[j + 1]);
        assert(all[d.len() + 1int] == ' ');
        assert(s.subrange(j + 2, j + 2 + rest.len()) =~= rest) by {
            assert forall|x: int| 0 <= x < rest.len() implies s[j + 2 + x] == rest[x] by {
                assert(part[d.len() + 2 + x] == s[j + 2 + x]);
                assert(all[d.len() + 2 + x] == rest[x]);
            }
        }
        lemma_list_read(s, j + 2, bytes, k + 1);
        assert(seq![bytes[k]] + bytes.subrange(k + 1, bytes.len() as int) =~= bytes.subrange(
            k,
            bytes.len() as int,
        ));
    } else {
        assert(seq![bytes[k]] =~= bytes.subrange(k, bytes.len() as int));
    }
}

/// The bytes of a map are read from its printed form: every byte of the list, in
/// decimal, with a comma and a space between each two.
pub proof fn law_printed_bytes_are_read(bytes: Seq<u8>, rest: Seq<char>)
    requires
        bytes.len() > 0,
    ensures
        printed_map("Precompiled { precompiled_charsmap: ["@ + listed(bytes, 0) + rest) == Some(
            bytes,
        ),
{
    let front = "Precompiled { precompiled_charsmap: ["@;
    let list = listed(bytes, 0);
    let s = front + list + rest;
    assert(front =~= s.subrange(0, front.len() as int));
    assert(s.subrange(front.len() as int, (front.len() + list.len()) as int) =~= list);
    lemma_list_read(s, front.len() as int, bytes, 0);
    assert(bytes.subrange(0, bytes.len() as int) =~= bytes);
}

/// Numbers are read with the lowest byte first.
pub proof fn law_numbers_start_with_the_lowest_byte(bytes: Seq<u8>, p: int)
    requires
        0 <= p && p + 4 <= bytes.len(),
    ensures
        number_at(bytes, p) == bytes[p] + 256 * (bytes[p + 1] + 256 * (bytes[p + 2] + 256 * bytes[p
            + 3])),
{
}

} // verus!
