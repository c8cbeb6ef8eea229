//! Addresses and address ranges of both families, in text and as numbers.
//!
//! An IPv4 address is four decimal numbers from 0 to 255 between dots, none
//! with a leading zero. An IPv6 address is eight groups of one to four
//! hexadecimal digits between colons, where one run of zero groups may be
//! written as `::`; the mixed notation with a dotted quad in the tail is not
//! accepted. A range is either `first - last` or `address/length`.

use crate::number::{
    all_digits, all_hex_digits, decimal_value, hex_value, lemma_hex_bound, lemma_pow_monotonic,
    parse_decimal, parse_hex, pow,
};
use crate::text::{
    find_byte, position, split, split_bytes, trim, trimmed, views, COLON, DASH, DOT, SLASH, ZERO,
};
use vstd::prelude::*;
use vstd::slice::*;

verus! {

/// The two address families.
#[derive(Clone, Copy, Debug, PartialEq, Eq, Structural)]
pub enum Family {
    V4,
    V6,
}

impl Family {
    /// The width of an address in bits.
    pub open spec fn bits(self) -> u32 {
        match self {
            Family::V4 => 32,
            Family::V6 => 128,
        }
    }

    /// The largest address.
    pub open spec fn max_address(self) -> u128 {
        match self {
            Family::V4 => 0xffff_ffff,
            Family::V6 => 0xffff_ffff_ffff_ffff_ffff_ffff_ffff_ffff,
        }
    }

    /// The number of pieces that a full address is written in.
    pub open spec fn piece_count(self) -> nat {
        match self {
            Family::V4 => 4,
            Family::V6 => 8,
        }
    }

    /// One more than the largest value of a piece.
    pub open spec fn piece_base(self) -> nat {
        match self {
            Family::V4 => 256,
            Family::V6 => 65536,
        }
    }
}

/// A decimal number of one to three digits without a leading zero, no
/// larger than `max`.
pub open spec fn small_number(s: Seq<u8>, max: u32) -> Option<u32> {
    if 1 <= s.len() <= 3 && all_digits(s) && (s.len() == 1 || s[0] != ZERO) && decimal_value(s)
        <= max {
        Some(decimal_value(s) as u32)
    } else {
        None
    }
}

/// A group of one to four hexadecimal digits.
pub open spec fn hex_group(s: Seq<u8>) -> Option<u32> {
    if 1 <= s.len() <= 4 && all_hex_digits(s) {
        Some(hex_value(s) as u32)
    } else {
        None
    }
}

/// The value of one piece of an address.
pub open spec fn piece_value(f: Family, s: Seq<u8>) -> Option<u32> {
    match f {
        Family::V4 => small_number(s, 255),
        Family::V6 => hex_group(s),
    }
}

/// The values of the pieces of an address, if every piece is well formed.
pub open spec fn piece_values(f: Family, pieces: Seq<Seq<u8>>) -> Option<Seq<u32>> {
    if forall|i: int| 0 <= i < pieces.len() ==> (#[trigger] piece_value(f, pieces[i])) is Some {
        Some(Seq::new(pieces.len(), |i: int| piece_value(f, pieces[i])->0))
    } else {
        None
    }
}

/// The number whose digits in the given base are `parts`, most significant
/// first.
pub open spec fn pack(parts: Seq<u32>, base: nat) -> nat
    decreases parts.len(),
{
    if parts.len() == 0 {
        0
    } else {
        pack(parts.drop_last(), base) * base + parts.last() as nat
    }
}

/// A run of `n` zero pieces.
pub open spec fn zeros(n: nat) -> Seq<u32> {
    Seq::new(n, |i: int| 0u32)
}

/// The position of the first `::` at or after `i`, or the length of `s`
/// when there is none.
pub open spec fn find_gap(s: Seq<u8>, i: int) -> int
    decreases s.len() - i,
{
    if 0 <= i && i + 1 < s.len() {
        if s[i] == COLON && s[i + 1] == COLON {
            i
        } else {
            find_gap(s, i + 1)
        }
    } else {
        s.len() as int
    }
}

/// The pieces of one side of a `::`: none when the side is empty.
pub open spec fn side_pieces(s: Seq<u8>) -> Seq<Seq<u8>> {
    if s.len() == 0 {
        Seq::empty()
    } else {
        split(s, COLON)
    }
}

/// The full list of pieces that an address text stands for, a `::` replaced
/// by the zero groups that it abbreviates.
pub open spec fn address_pieces(f: Family, s: Seq<u8>) -> Option<Seq<u32>> {
    let gap = find_gap(s, 0);
    match f {
        Family::V4 => piece_values(f, split(s, DOT)),
        Family::V6 => if gap >= s.len() {
            piece_values(f, split(s, COLON))
        } else {
            let head = piece_values(f, side_pieces(s.subrange(0, gap)));
            let tail = piece_values(f, side_pieces(s.subrange(gap + 2, s.len() as int)));
            if head is Some && tail is Some && head->0.len() + tail->0.len() <= 7 {
                Some(head->0 + zeros((8 - head->0.len() - tail->0.len()) as nat) + tail->0)
            } else {
                None
            }
        },
    }
}

/// The address that a text spells.
pub open spec fn address(f: Family, s: Seq<u8>) -> Option<u128> {
    match address_pieces(f, s) {
        Some(parts) => if parts.len() == f.piece_count() {
            Some(pack(parts, f.piece_base()) as u128)
        } else {
            None
        },
        None => None,
    }
}

/// The bits of an address that lie behind a prefix of `length` bits.
pub open spec fn host_mask(f: Family, length: u32) -> u128 {
    if length >= f.bits() {
        0
    } else {
        f.max_address() >> (length as u128)
    }
}

/// Why a range was refused.
#[derive(Clone, Copy, Debug, PartialEq, Eq, Structural)]
pub enum RangeError {
    /// The text is neither `first - last` nor `address/length`, or one of
    /// its parts is malformed.
    Malformed,
    /// The first address lies above the last.
    Inverted,
}

/// The inclusive bounds that a range text stands for. A text with a dash is
/// read as `first - last`; otherwise one with a slash is read as a prefix,
/// which stands for all addresses that share its leading bits.
pub open spec fn range_bounds(f: Family, value: Seq<u8>) -> Result<(u128, u128), RangeError> {
    let dash = find_byte(value, DASH, 0);
    let slash = find_byte(value, SLASH, 0);
    if dash < value.len() {
        let first = address(f, trimmed(value.subrange(0, dash)));
        let last = address(f, trimmed(value.subrange(dash + 1, value.len() as int)));
        if first is Some && last is Some {
            if first->0 <= last->0 {
                Ok((first->0, last->0))
            } else {
                Err(RangeError::Inverted)
            }
        } else {
            Err(RangeError::Malformed)
        }
    } else if slash < value.len() {
        let base = address(f, trimmed(value.subrange(0, slash)));
        let length = small_number(trimmed(value.subrange(slash + 1, value.len() as int)), f.bits());
        if base is Some && length is Some {
            Ok((base->0 & !host_mask(f, length->0), base->0 | host_mask(f, length->0)))
        } else {
            Err(RangeError::Malformed)
        }
    } else {
        Err(RangeError::Malformed)
    }
}

/// Pieces below the base pack into a number below the base raised to their
/// count.
pub proof fn lemma_pack_bound(parts: Seq<u32>, base: nat)
    requires
        base >= 1,
        forall|i: int| 0 <= i < parts.len() ==> (#[trigger] parts[i]) < base,
    ensures
        pack(parts, base) < pow(base, parts.len()),
    decreases parts.len(),
{
    if parts.len() > 0 {
        let rest = parts.drop_last();
        assert forall|i: int| 0 <= i < rest.len() implies (#[trigger] rest[i]) < base by {
            assert(rest[i] == parts[i]);
        }
        lemma_pack_bound(rest, base);
        assert(parts.last() < base);
        let p = pow(base, rest.len());
        let k = pack(rest, base);
        assert(k * base + base <= p * base) by (nonlinear_arith)
            requires
                k + 1 <= p,
        ;
        assert(p * base == base * p) by (nonlinear_arith);
    }
}

/// The value of a well-formed piece lies below the base of its family.
pub proof fn lemma_piece_value_bound(f: Family, s: Seq<u8>)
    ensures
        piece_value(f, s) matches Some(v) ==> v < f.piece_base(),
{
    if f == Family::V6 && hex_group(s) is Some {
        lemma_hex_bound(s);
        lemma_pow_monotonic(16, s.len(), 4);
        reveal_with_fuel(pow, 5);
    }
}

/// An address never exceeds the largest address of its family.
pub proof fn lemma_address_bound(f: Family, s: Seq<u8>)
    ensures
        address(f, s) matches Some(a) ==> a <= f.max_address() && a == pack(
            address_pieces(f, s)->0,
            f.piece_base(),
        ),
{
    if address(f, s) is Some {
        let parts = address_pieces(f, s)->0;
        lemma_address_pieces_bound(f, s);
        lemma_pack_bound(parts, f.piece_base());
        reveal_with_fuel(pow, 9);
    }
}

/// Every piece of an address lies below the base of its family.
pub proof fn lemma_address_pieces_bound(f: Family, s: Seq<u8>)
    ensures
        address_pieces(f, s) matches Some(parts) ==> forall|i: int|
            0 <= i < parts.len() ==> (#[trigger] parts[i]) < f.piece_base(),
{
    if let Some(parts) = address_pieces(f, s) {
        assert forall|i: int| 0 <= i < parts.len() implies (#[trigger] parts[i]) < f.piece_base() by {
            let gap = find_gap(s, 0);
            if f == Family::V4 {
                lemma_piece_value_bound(f, split(s, DOT)[i]);
            } else if gap >= s.len() {
                lemma_piece_value_bound(f, split(s, COLON)[i]);
            } else {
                let hp = side_pieces(s.subrange(0, gap));
                let tp = side_pieces(s.subrange(gap + 2, s.len() as int));
                let head = piece_values(f, hp)->0;
                let tail = piece_values(f, tp)->0;
                let fill = zeros((8 - head.len() - tail.len()) as nat);
                if i < head.len() {
                    lemma_piece_value_bound(f, hp[i]);
                } else if i < head.len() + fill.len() {
                    assert(parts[i] == fill[i - head.len()]);
                } else {
                    assert(parts[i] == tail[i - head.len() - fill.len()]);
                    lemma_piece_value_bound(f, tp[i - head.len() - fill.len()]);
                }
            }
        }
    }
}

/// The bounds of a range are in order, and neither exceeds the largest
/// address of the family.
pub proof fn lemma_range_bounds_ordered(f: Family, value: Seq<u8>)
    ensures
        range_bounds(f, value) matches Ok(b) ==> b.0 <= b.1 && b.1 <= f.max_address(),
{
    let dash = find_byte(value, DASH, 0);
    let slash = find_byte(value, SLASH, 0);
    if range_bounds(f, value) is Ok {
        if dash < value.len() {
            lemma_address_bound(f, trimmed(value.subrange(dash + 1, value.len() as int)));
        } else {
            let text = trimmed(value.subrange(0, slash));
            lemma_address_bound(f, text);
            let a = address(f, text)->0;
            let n = small_number(trimmed(value.subrange(slash + 1, value.len() as int)), f.bits())->0;
            lemma_mask_bounds(f, a, n);
        }
    }
}

/// Clearing the host bits of an address gives the least address of its
/// prefix, setting them the greatest; the address lies between the two.
pub proof fn lemma_mask_bounds(f: Family, a: u128, length: u32)
    requires
        a <= f.max_address(),
    ensures
        a & !host_mask(f, length) <= a,
        a <= a | host_mask(f, length),
        a | host_mask(f, length) <= f.max_address(),
{
    let m = host_mask(f, length);
    let n = length as u128;
    assert(a & !m <= a) by (bit_vector);
    assert(a <= a | m) by (bit_vector);
    match f {
        Family::V4 => {
            if length < 32 {
                assert(a <= 0xffff_ffffu128 && n < 32 ==> a | (0xffff_ffffu128 >> n)
                    <= 0xffff_ffffu128) by (bit_vector);
            } else {
                assert(a | 0u128 == a) by (bit_vector);
            }
        },
        Family::V6 => {},
    }
}

/// An inclusive range of addresses of one family. The first address never
/// lies above the last, and the last never above the largest address of the
/// family.
#[derive(Clone, Copy, Debug, PartialEq, Eq)]
pub struct AddressRange {
    family: Family,
    first: u128,
    last: u128,
}

/// The mathematical content of an [`AddressRange`].
pub struct RangeView {
    pub family: Family,
    pub first: u128,
    pub last: u128,
}

impl View for AddressRange {
    type V = RangeView;

    closed spec fn view(&self) -> RangeView {
        RangeView { family: self.family, first: self.first, last: self.last }
    }
}

impl AddressRange {
    #[verifier::type_invariant]
    spec fn ordered(self) -> bool {
        self.first <= self.last && self.last <= self.family.max_address()
    }

    /// The range from `first` to `last`, if that is a range of the family.
    pub fn new(family: Family, first: u128, last: u128) -> (r: Option<AddressRange>)
        ensures
            r is Some <==> first <= last && last <= family.max_address(),
            r matches Some(range) ==> range@ == (RangeView { family, first, last }),
    {
        let max: u128 = match family {
            Family::V4 => 0xffff_ffff,
            Family::V6 => 0xffff_ffff_ffff_ffff_ffff_ffff_ffff_ffff,
        };
        if first <= last && last <= max {
            Some(AddressRange { family, first, last })
        } else {
            None
        }
    }

    /// The family of the addresses.
    pub fn family(&self) -> (f: Family)
        ensures
            f == self@.family,
    {
        self.family
    }

    /// The first address of the range.
    pub fn range_from(&self) -> (a: u128)
        ensures
            a == self@.first,
            a <= self@.last,
    {
        proof {
            use_type_invariant(self);
        }
        self.first
    }

    /// The last address of the range.
    pub fn range_to(&self) -> (a: u128)
        ensures
            a == self@.last,
            self@.first <= a <= self@.family.max_address(),
    {
        proof {
            use_type_invariant(self);
        }
        self.last
    }
}

/// Reads a decimal number of one to three digits without a leading zero, no
/// larger than `max`.
pub fn read_small_number(s: &[u8], max: u32) -> (r: Option<u32>)
    ensures
        r == small_number(s@, max),
{
    if s.len() == 0 || s.len() > 3 {
        return None;
    }
    let leading_zero = s.len() > 1 && s[0] == ZERO;
    match parse_decimal(s) {
        Some(v) => {
            if !leading_zero && v <= max {
                Some(v)
            } else {
                None
            }
        },
        None => None,
    }
}

/// Reads a group of one to four hexadecimal digits.
pub fn read_hex_group(s: &[u8]) -> (r: Option<u32>)
    ensures
        r == hex_group(s@),
{
    if s.len() > 4 {
        return None;
    }
    parse_hex(s)
}

/// Reads the values of the pieces of an address.
pub fn read_pieces(f: Family, pieces: &Vec<Vec<u8>>) -> (r: Option<Vec<u32>>)
    ensures
        r is Some <==> piece_values(f, views(pieces@)) is Some,
        r matches Some(v) ==> piece_values(f, views(pieces@)) == Some(v@),
{
    let mut out: Vec<u32> = Vec::new();
    let mut i: usize = 0;
    while i < pieces.len()
        invariant
            i <= pieces@.len(),
            out@.len() == i,
            forall|k: int|
                0 <= k < i ==> piece_value(f, #[trigger] views(pieces@)[k]) == Some(out@[k]),
        decreases pieces@.len() - i,
    {
        let piece = pieces[i].as_slice();
        let value = match f {
            Family::V4 => read_small_number(piece, 255),
            Family::V6 => read_hex_group(piece),
        };
        assert(views(pieces@)[i as int] == piece@);
        match value {
            Some(v) => {
                out.push(v);
            },
            None => {
                assert(piece_value(f, views(pieces@)[i as int]) is None);
                return None;
            },
        }
        i += 1;
    }
    proof {
        let all = views(pieces@);
        assert forall|k: int| 0 <= k < all.len() implies (#[trigger] piece_value(f, all[k])) is Some by {
            assert(piece_value(f, all[k]) == Some(out@[k]));
        }
        assert(piece_values(f, all)->0 =~= out@);
    }
    Some(out)
}

/// Finds the first `::`; the length of `s` when there is none.
pub fn gap_position(s: &[u8]) -> (r: usize)
    ensures
        r == find_gap(s@, 0),
        r == s@.len() || r + 1 < s@.len(),
{
    let mut i: usize = 0;
    while s.len() - i > 1
        invariant
            i <= s@.len(),
            find_gap(s@, 0) == find_gap(s@, i as int),
        decreases s@.len() - i,
    {
        if s[i] == COLON && s[i + 1] == COLON {
            return i;
        }
        i += 1;
    }
    s.len()
}

/// Reads the pieces of one side of a `::`.
fn read_side(s: &[u8]) -> (r: Option<Vec<u32>>)
    ensures
        r is Some <==> piece_values(Family::V6, side_pieces(s@)) is Some,
        r matches Some(v) ==> piece_values(Family::V6, side_pieces(s@)) == Some(v@),
{
    if s.len() == 0 {
        let v: Vec<u32> = Vec::new();
        assert(piece_values(Family::V6, side_pieces(s@))->0 =~= v@);
        Some(v)
    } else {
        let pieces = split_bytes(s, COLON);
        read_pieces(Family::V6, &pieces)
    }
}

/// Reads the full list of pieces that an address text stands for.
pub fn read_address_pieces(f: Family, s: &[u8]) -> (r: Option<Vec<u32>>)
    ensures
        r is Some <==> address_pieces(f, s@) is Some,
        r matches Some(v) ==> address_pieces(f, s@) == Some(v@),
{
    match f {
        Family::V4 => {
            let pieces = split_bytes(s, DOT);
            read_pieces(f, &pieces)
        },
        Family::V6 => {
            let gap = gap_position(s);
            if gap >= s.len() {
                let pieces = split_bytes(s, COLON);
                read_pieces(f, &pieces)
            } else {
                let head = read_side(slice_subrange(s, 0, gap));
                let tail = read_side(slice_subrange(s, gap + 2, s.len()));
                match (head, tail) {
                    (Some(head), Some(tail)) => {
                        if head.len() > 7 || tail.len() > 7 - head.len() {
                            return None;
                        }
                        let fill: usize = 8 - head.len() - tail.len();
                        let mut all = head;
                        let ghost h = all@;
                        let mut k: usize = 0;
                        while k < fill
                            invariant
                                k <= fill,
                                all@ == h + zeros(k as nat),
                            decreases fill - k,
                        {
                            all.push(0);
                            k += 1;
                            assert(all@ =~= h + zeros(k as nat));
                        }
                        let mut j: usize = 0;
                        while j < tail.len()
                            invariant
                                j <= tail@.len(),
                                all@ == h + zeros(fill as nat) + tail@.subrange(0, j as int),
                            decreases tail@.len() - j,
                        {
                            all.push(tail[j]);
                            j += 1;
                            assert(all@ =~= h + zeros(fill as nat) + tail@.subrange(0, j as int));
                        }
                        assert(tail@.subrange(0, j as int) =~= tail@);
                        Some(all)
                    },
                    _ => None,
                }
            }
        },
    }
}

/// Reads an address.
pub fn parse_address(f: Family, s: &[u8]) -> (r: Option<u128>)
    ensures
        r == address(f, s@),
        r matches Some(a) ==> a <= f.max_address(),
{
    let (count, base): (usize, u128) = match f {
        Family::V4 => (4, 256),
        Family::V6 => (8, 65536),
    };
    match read_address_pieces(f, s) {
        Some(parts) => {
            if parts.len() != count {
                return None;
            }
            proof {
                lemma_address_pieces_bound(f, s@);
                lemma_address_bound(f, s@);
            }
            let mut acc: u128 = 0;
            let mut i: usize = 0;
            while i < parts.len()
                invariant
                    i <= parts@.len() == count <= 8,
                    base == f.piece_base(),
                    forall|k: int| 0 <= k < parts@.len() ==> (#[trigger] parts@[k]) < base,
                    acc == pack(parts@.subrange(0, i as int), base as nat),
                    acc < pow(base as nat, i as nat),
                decreases parts@.len() - i,
            {
                proof {
                    let t = parts@.subrange(0, i + 1);
                    assert(t.drop_last() =~= parts@.subrange(0, i as int));
                    assert(t.last() == parts@[i as int]);
                    assert forall|k: int| 0 <= k < t.len() implies (#[trigger] t[k]) < base by {
                        assert(t[k] == parts@[k]);
                    }
                    lemma_pack_bound(t, base as nat);
                    lemma_pow_monotonic(base as nat, t.len(), 8);
                    reveal_with_fuel(pow, 9);
                }
                acc = acc * base + parts[i] as u128;
                i += 1;
            }
            assert(parts@.subrange(0, i as int) =~= parts@);
            Some(acc)
        },
        None => None,
    }
}

/// Reads a range, written as `first - last` or as `address/length`.
pub fn parse_range(f: Family, value: &[u8]) -> (r: Result<AddressRange, RangeError>)
    ensures
        match r {
            Ok(range) => range@.family == f && range_bounds(f, value@) == Ok::<
                (u128, u128),
                RangeError,
            >((range@.first, range@.last)),
            Err(e) => range_bounds(f, value@) == Err::<(u128, u128), RangeError>(e),
        },
{
    let end = value.len();
    let dash = position(value, DASH, 0);
    let slash = position(value, SLASH, 0);
    proof {
        lemma_range_bounds_ordered(f, value@);
    }
    if dash < end {
        let first = parse_address(f, trim(slice_subrange(value, 0, dash)).as_slice());
        let last = parse_address(f, trim(slice_subrange(value, dash + 1, end)).as_slice());
        match (first, last) {
            (Some(a), Some(b)) => {
                match AddressRange::new(f, a, b) {
                    Some(range) => Ok(range),
                    None => Err(RangeError::Inverted),
                }
            },
            _ => Err(RangeError::Malformed),
        }
    } else if slash < end {
        let base = parse_address(f, trim(slice_subrange(value, 0, slash)).as_slice());
        let bits: u32 = match f {
            Family::V4 => 32,
            Family::V6 => 128,
        };
        let length = read_small_number(trim(slice_subrange(value, slash + 1, end)).as_slice(), bits);
        match (base, length) {
            (Some(a), Some(n)) => {
                let mask: u128 = if n >= bits {
                    0
                } else {
                    match f {
                        Family::V4 => 0xffff_ffffu128 >> (n as u128),
                        Family::V6 => 0xffff_ffff_ffff_ffff_ffff_ffff_ffff_ffffu128 >> (n as u128),
                    }
                };
                proof {
                    lemma_mask_bounds(f, a, n);
                }
                match AddressRange::new(f, a & !mask, a | mask) {
                    Some(range) => Ok(range),
                    None => Err(RangeError::Malformed),
                }
            },
            _ => Err(RangeError::Malformed),
        }
    } else {
        Err(RangeError::Malformed)
    }
}

} // verus!
