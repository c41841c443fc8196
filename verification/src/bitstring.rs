//! Bits and bit strings: the only data a program works on.
//!
//! A [`BitString`] is modelled by the sequence of its bits, `Seq<Bit>`, with
//! index 0 first. Every operation states its result over that sequence.

use vstd::arithmetic::div_mod::lemma_fundamental_div_mod_converse;
use vstd::prelude::*;

verus! {

/// One binary digit.
#[derive(Debug, PartialEq, Eq, Structural)]
pub enum Bit {
    Zero,
    One,
}

impl Copy for Bit {

}

impl Clone for Bit {
    fn clone(&self) -> (r: Self)
        ensures
            r == *self,
    {
        *self
    }
}

impl Bit {
    /// The number that the bit stands for.
    pub open spec fn value(self) -> nat {
        match self {
            Bit::Zero => 0,
            Bit::One => 1,
        }
    }

    /// The bit for 0 or 1; nothing for any other number.
    pub fn from_number(number: u8) -> (r: Option<Bit>)
        ensures
            number == 0 ==> r == Some(Bit::Zero),
            number == 1 ==> r == Some(Bit::One),
            number > 1 ==> r is None,
    {
        if number == 0 {
            Some(Bit::Zero)
        } else if number == 1 {
            Some(Bit::One)
        } else {
            None
        }
    }

    /// The bit of `number` at `index`, counted from the most significant end.
    pub fn from_number_indexed(number: u8, index: u8) -> (r: Bit)
        requires
            index < 8,
        ensures
            r == bit_of_byte(number, index),
    {
        let shift: u8 = 7 - index;
        if (number >> shift) & 1 == 1 {
            Bit::One
        } else {
            Bit::Zero
        }
    }

    /// 0 for `Zero`, 1 for `One`.
    pub fn as_number(self) -> (r: u8)
        ensures
            r == self.value(),
    {
        match self {
            Bit::Zero => 0,
            Bit::One => 1,
        }
    }

    /// The bit written as the character `0` or `1`; nothing for any other character.
    pub fn from_char(c: char) -> (r: Option<Bit>)
        ensures
            r == bit_of_char(c),
    {
        if c == '0' {
            Some(Bit::Zero)
        } else if c == '1' {
            Some(Bit::One)
        } else {
            None
        }
    }

    /// The bit as the one-character text `0` or `1`.
    pub fn to_text(self) -> (r: String)
        ensures
            r@ == seq![char_of_bit(self)],
    {
        proof {
            reveal_strlit("0");
            reveal_strlit("1");
        }
        let r = match self {
            Bit::Zero => "0".to_owned(),
            Bit::One => "1".to_owned(),
        };
        assert(r@ =~= seq![char_of_bit(self)]);
        r
    }

    /// The bit written as the one-character text `0` or `1`.
    pub fn from_str(string: &str) -> (r: Result<Bit, BitFromStringError>)
        ensures
            r is Ok <==> (string@.len() == 1 && bit_of_char(string@[0]) is Some),
            r matches Ok(b) ==> Some(b) == bit_of_char(string@[0]),
    {
        if string.unicode_len() != 1 {
            return Err(BitFromStringError);
        }
        match Bit::from_char(string.get_char(0)) {
            Some(b) => Ok(b),
            None => Err(BitFromStringError),
        }
    }
}

/// The text handed to [`Bit::from_str`] is not a single binary digit.
#[derive(Debug)]
pub struct BitFromStringError;

/// The text handed to [`BitString::from_str`] holds a character that is not a binary digit.
#[derive(Debug)]
pub struct BitStringFromStringError;

/// What a character means as a bit.
pub open spec fn bit_of_char(c: char) -> Option<Bit> {
    if c == '0' {
        Some(Bit::Zero)
    } else if c == '1' {
        Some(Bit::One)
    } else {
        None
    }
}

/// Whether the bit of `byte` at `index`, counted from the most significant end, is set.
pub open spec fn bit_set(byte: u8, index: u8) -> bool {
    (byte >> ((7 - index) as u8)) & 1 == 1
}

/// The bit of `byte` at `index`, counted from the most significant end.
pub open spec fn bit_of_byte(byte: u8, index: u8) -> Bit {
    if bit_set(byte, index) {
        Bit::One
    } else {
        Bit::Zero
    }
}

/// Whether every bit of `byte` at index `used` and after is clear.
pub open spec fn tail_clear(byte: u8, used: u8) -> bool {
    byte & (0xffu8 >> used) == 0
}

/// The bits that `length` positions of the packed `bytes` hold, eight to a byte,
/// most significant first.
pub open spec fn unpack(bytes: Seq<u8>, length: nat) -> Seq<Bit> {
    Seq::new(length, |i: int| bit_of_byte(bytes[i / 8], (i % 8) as u8))
}

/// Whether `bytes` is the packed form of exactly `length` bits: no byte too
/// many, and the unused positions of the last byte clear.
pub open spec fn packed(bytes: Seq<u8>, length: nat) -> bool {
    &&& bytes.len() == (length + 7) / 8
    &&& length % 8 != 0 ==> tail_clear(bytes[bytes.len() - 1], (length % 8) as u8)
}

/// The number that the bits spell, most significant first.
pub open spec fn big_endian(bits: Seq<Bit>) -> nat
    decreases bits.len(),
{
    if bits.len() == 0 {
        0
    } else {
        2 * big_endian(bits.drop_last()) + bits.last().value()
    }
}

/// The strings of `parts` one after another, in their order.
pub open spec fn concat_all(parts: Seq<Seq<Bit>>) -> Seq<Bit>
    decreases parts.len(),
{
    if parts.len() == 0 {
        Seq::empty()
    } else {
        concat_all(parts.drop_last()) + parts.last()
    }
}

/// The contents of a list of bit strings, one by one.
pub open spec fn strings_view(strings: Seq<BitString>) -> Seq<Seq<Bit>> {
    strings.map_values(|s: BitString| s@)
}

/// The 64 bits of `num`, most significant first.
pub open spec fn bits_of_u64(num: u64) -> Seq<Bit> {
    Seq::new(
        64,
        |i: int|
            if (num >> ((63 - i) as u64)) & 1 == 1 {
                Bit::One
            } else {
                Bit::Zero
            },
    )
}

/// The character that stands for a bit.
pub open spec fn char_of_bit(bit: Bit) -> char {
    match bit {
        Bit::Zero => '0',
        Bit::One => '1',
    }
}

/// The text that spells the bits: a digit for each bit; `.` for no bit.
pub open spec fn text_of_bits(bits: Seq<Bit>) -> Seq<char> {
    if bits.len() == 0 {
        seq!['.']
    } else {
        Seq::new(bits.len(), |i: int| char_of_bit(bits[i]))
    }
}

/// The bits that a text of binary digits spells; the one-character text `.`
/// spells the empty string. Nothing where another character occurs.
pub open spec fn bits_of_text(text: Seq<char>) -> Option<Seq<Bit>> {
    if text == seq!['.'] {
        Some(Seq::empty())
    } else if forall|i: int| 0 <= i < text.len() ==> (#[trigger] bit_of_char(text[i])) is Some {
        Some(Seq::new(text.len(), |i: int| bit_of_char(text[i]).unwrap()))
    } else {
        None
    }
}

proof fn lemma_first_bit(v: u8)
    by (bit_vector)
    requires
        v <= 1,
    ensures
        bit_set(v << 7, 0) == (v == 1),
        tail_clear(v << 7, 1),
{
}

proof fn lemma_or_bit(b: u8, v: u8, k: u8, j: u8)
    by (bit_vector)
    requires
        1 <= k < 8,
        j < 8,
        v <= 1,
        tail_clear(b, k),
    ensures
        j < k ==> bit_set(b | (v << ((7 - k) as u8)), j) == bit_set(b, j),
        j == k ==> bit_set(b | (v << ((7 - k) as u8)), j) == (v == 1),
        k < 7 ==> tail_clear(b | (v << ((7 - k) as u8)), (k + 1) as u8),
{
}

/// Appends one bit to a packed string of `length` bits.
fn push_packed(bytes: &mut Vec<u8>, length: usize, bit: Bit)
    requires
        packed(old(bytes)@, length as nat),
    ensures
        packed(final(bytes)@, length as nat + 1),
        unpack(final(bytes)@, length as nat + 1) == unpack(old(bytes)@, length as nat).push(bit),
{
    let k: u8 = (length % 8) as u8;
    let v: u8 = bit.as_number();
    let ghost before = bytes@;
    let ghost count = before.len() as int;
    if k == 0 {
        proof {
            lemma_first_bit(v);
            assert(count == length / 8);
        }
        bytes.push(v << 7);
        proof {
            let byte = (v << 7) as u8;
            assert(bit_of_byte(byte, 0) == bit);
            assert forall|i: int| 0 <= i < length + 1 implies #[trigger] unpack(
                bytes@,
                length as nat + 1,
            )[i] == unpack(before, length as nat).push(bit)[i] by {
                if i < length {
                    assert(i / 8 < count);
                    assert(bytes@[i / 8] == before[i / 8]);
                } else {
                    assert(i / 8 == count && i % 8 == 0);
                    assert(bytes@[i / 8] == byte);
                }
            }
            assert((length + 1) % 8 == 1);
            assert(bytes@[bytes@.len() - 1] == byte);
        }
    } else {
        let last: usize = bytes.len() - 1;
        let b: u8 = bytes[last];
        let shift: u8 = 7 - k;
        bytes.set(last, b | (v << shift));
        proof {
            let byte = (b | (v << shift)) as u8;
            assert(last == length / 8);
            assert forall|j: u8| j < 8 implies (j < k ==> bit_set(byte, j) == bit_set(b, j)) && (j
                == k ==> bit_set(byte, j) == (v == 1)) by {
                lemma_or_bit(b, v, k, j);
            }
            lemma_or_bit(b, v, k, 0);
            assert forall|i: int| 0 <= i < length + 1 implies #[trigger] unpack(
                bytes@,
                length as nat + 1,
            )[i] == unpack(before, length as nat).push(bit)[i] by {
                let j = (i % 8) as u8;
                if i / 8 < last {
                    assert(bytes@[i / 8] == before[i / 8]);
                } else {
                    assert(i / 8 == last);
                    assert(bytes@[i / 8] == byte);
                    if i < length {
                        assert(j < k);
                        assert(bit_set(byte, j) == bit_set(b, j));
                    } else {
                        assert(j == k);
                        assert(bit_set(byte, j) == (v == 1));
                    }
                }
            }
            if k < 7 {
                assert((length + 1) % 8 == k + 1);
            } else {
                assert((length + 1) % 8 == 0);
            }
            assert(bytes@.len() == (length + 1 + 7) / 8);
            assert(bytes@[bytes@.len() - 1] == byte);
        }
    }
    assert(unpack(bytes@, length as nat + 1) =~= unpack(before, length as nat).push(bit));
}

/// An ordered, finite sequence of bits.
#[derive(Debug)]
pub struct BitString {
    bits: Vec<Bit>,
}

impl View for BitString {
    type V = Seq<Bit>;

    closed spec fn view(&self) -> Seq<Bit> {
        self.bits@
    }
}

impl Clone for BitString {
    fn clone(&self) -> (r: Self)
        ensures
            r@ == self@,
    {
        let bits = self.bits.clone();
        assert(bits@ =~= self.bits@);
        BitString { bits }
    }
}

impl BitString {
    /// The string of no bits.
    pub fn empty() -> (r: BitString)
        ensures
            r@ == Seq::<Bit>::empty(),
    {
        BitString { bits: Vec::new() }
    }

    /// The string that holds `bits` in their order.
    pub fn from_bits(bits: &[Bit]) -> (r: BitString)
        ensures
            r@ == bits@,
    {
        let mut out: Vec<Bit> = Vec::new();
        let mut i: usize = 0;
        while i < bits.len()
            invariant
                i <= bits.len(),
                out@ == bits@.take(i as int),
            decreases bits.len() - i,
        {
            out.push(bits[i]);
            assert(bits@.take(i as int).push(bits@[i as int]) =~= bits@.take(i as int + 1));
            i += 1;
        }
        assert(bits@.take(i as int) =~= bits@);
        BitString { bits: out }
    }

    /// The bit at `index`; nothing at or past the end.
    pub fn bit_at(&self, index: usize) -> (r: Option<Bit>)
        ensures
            index < self@.len() ==> r == Some(self@[index as int]),
            index >= self@.len() ==> r is None,
    {
        if index >= self.bits.len() {
            None
        } else {
            Some(self.bits[index])
        }
    }

    /// How many bits the string holds.
    pub fn len(&self) -> (r: usize)
        ensures
            r == self@.len(),
    {
        self.bits.len()
    }

    /// Whether the string holds no bit.
    pub fn is_empty(&self) -> (r: bool)
        ensures
            r == (self@.len() == 0),
    {
        self.bits.len() == 0
    }

    /// The bits packed eight to a byte, most significant first, the unused
    /// positions of the last byte clear.
    pub fn bytes(&self) -> (r: Vec<u8>)
        ensures
            packed(r@, self@.len()),
            unpack(r@, self@.len()) == self@,
    {
        let mut out: Vec<u8> = Vec::new();
        let mut i: usize = 0;
        assert(unpack(out@, 0) =~= self@.take(0));
        while i < self.bits.len()
            invariant
                i <= self.bits.len(),
                packed(out@, i as nat),
                unpack(out@, i as nat) == self@.take(i as int),
            decreases self.bits.len() - i,
        {
            push_packed(&mut out, i, self.bits[i]);
            assert(self@.take(i as int).push(self@[i as int]) =~= self@.take(i as int + 1));
            i += 1;
        }
        assert(self@.take(i as int) =~= self@);
        out
    }

    /// The bits of `self` followed by the bits of `other`.
    pub fn concat(&self, other: &BitString) -> (r: BitString)
        ensures
            r@ == self@ + other@,
    {
        let mut out: Vec<Bit> = self.bits.clone();
        assert(out@ =~= self@);
        let mut i: usize = 0;
        while i < other.bits.len()
            invariant
                i <= other.bits.len(),
                out@ == self@ + other@.take(i as int),
            decreases other.bits.len() - i,
        {
            out.push(other.bits[i]);
            assert((self@ + other@.take(i as int)).push(other@[i as int]) =~= self@ + other@.take(
                i as int + 1,
            ));
            i += 1;
        }
        assert(other@.take(i as int) =~= other@);
        BitString { bits: out }
    }

    /// The strings of `parts` one after another, in their order.
    pub fn concat_all(parts: &Vec<BitString>) -> (r: BitString)
        ensures
            r@ == concat_all(strings_view(parts@)),
    {
        let mut out: Vec<Bit> = Vec::new();
        let mut i: usize = 0;
        assert(strings_view(parts@).take(0) =~= Seq::<Seq<Bit>>::empty());
        while i < parts.len()
            invariant
                i <= parts.len(),
                out@ == concat_all(strings_view(parts@).take(i as int)),
            decreases parts.len() - i,
        {
            let part = &parts[i];
            let ghost before = out@;
            let mut j: usize = 0;
            while j < part.bits.len()
                invariant
                    j <= part.bits.len(),
                    out@ == before + part@.take(j as int),
                decreases part.bits.len() - j,
            {
                out.push(part.bits[j]);
                assert((before + part@.take(j as int)).push(part@[j as int]) =~= before
                    + part@.take(j as int + 1));
                j += 1;
            }
            assert(part@.take(j as int) =~= part@);
            assert(strings_view(parts@).take(i as int + 1).drop_last() =~= strings_view(
                parts@,
            ).take(i as int));
            assert(strings_view(parts@).take(i as int + 1).last() == part@);
            i += 1;
        }
        assert(strings_view(parts@).take(i as int) =~= strings_view(parts@));
        BitString { bits: out }
    }

    /// The bits from `from` up to, not including, `to`; nothing unless
    /// `from` is at most `to` and `to` at most the length.
    pub fn slice(&self, from: usize, to: usize) -> (r: Option<BitString>)
        ensures
            from <= to <= self@.len() ==> (r matches Some(s) && s@ == self@.subrange(
                from as int,
                to as int,
            )),
            !(from <= to <= self@.len()) ==> r is None,
    {
        if from > to || to > self.bits.len() {
            return None;
        }
        let mut out: Vec<Bit> = Vec::new();
        let mut i: usize = from;
        while i < to
            invariant
                from <= i <= to <= self@.len(),
                out@ == self@.subrange(from as int, i as int),
            decreases to - i,
        {
            out.push(self.bits[i]);
            assert(self@.subrange(from as int, i as int).push(self@[i as int]) =~= self@.subrange(
                from as int,
                i as int + 1,
            ));
            i += 1;
        }
        Some(BitString { bits: out })
    }

    /// The bits in their order.
    pub fn iter(&self) -> (r: Vec<Bit>)
        ensures
            r@ == self@,
    {
        let bits = self.bits.clone();
        assert(bits@ =~= self.bits@);
        bits
    }

    /// The bits in their order, the string given up.
    pub fn into_iter(self) -> (r: Vec<Bit>)
        ensures
            r@ == self@,
    {
        self.bits
    }

    /// The number that the bits spell, most significant first, reduced to
    /// what a `usize` holds: bits shifted out at the top are lost.
    pub fn as_usize(&self) -> (r: usize)
        ensures
            r as nat == big_endian(self@) % (usize::MAX as nat + 1),
    {
        let mut acc: usize = 0;
        let mut i: usize = 0;
        assert(big_endian(self@.take(0)) == 0);
        while i < self.bits.len()
            invariant
                i <= self.bits.len(),
                acc as nat == big_endian(self@.take(i as int)) % (usize::MAX as nat + 1),
            decreases self.bits.len() - i,
        {
            let v: usize = self.bits[i].as_number() as usize;
            let doubled: usize = acc.wrapping_add(acc);
            let next: usize = doubled.wrapping_add(v);
            proof {
                let range: int = usize::MAX as int + 1;
                let before: int = big_endian(self@.take(i as int)) as int;
                let after: int = big_endian(self@.take(i as int + 1)) as int;
                assert(self@.take(i as int + 1).drop_last() =~= self@.take(i as int));
                assert(after == 2 * before + v);
                let q: int = before / range;
                assert(before == range * q + acc) by {
                    vstd::arithmetic::div_mod::lemma_fundamental_div_mod(before, range);
                }
                let carry: int = if 2 * acc + v >= 2 * range {
                    2
                } else if 2 * acc + v >= range {
                    1
                } else {
                    0
                };
                assert(2 * acc + v == range * carry + next);
                assert(after == range * (2 * q + carry) + next) by (nonlinear_arith)
                    requires
                        after == 2 * before + v,
                        before == range * q + acc,
                        2 * acc + v == range * carry + next,
                ;
                lemma_fundamental_div_mod_converse(after, range, 2 * q + carry, next as int);
            }
            acc = next;
            i += 1;
        }
        assert(self@.take(i as int) =~= self@);
        acc
    }

    /// The 64 bits of `num`, most significant first.
    pub fn from_u64(num: u64) -> (r: BitString)
        ensures
            r@ == bits_of_u64(num),
    {
        let mut out: Vec<Bit> = Vec::new();
        let mut i: u64 = 0;
        while i < 64
            invariant
                i <= 64,
                out@ == bits_of_u64(num).take(i as int),
            decreases 64 - i,
        {
            let shift: u64 = 63 - i;
            let bit: Bit = if (num >> shift) & 1 == 1 {
                Bit::One
            } else {
                Bit::Zero
            };
            out.push(bit);
            assert(bits_of_u64(num).take(i as int).push(bit) =~= bits_of_u64(num).take(
                i as int + 1,
            ));
            i += 1;
        }
        assert(bits_of_u64(num).take(64) =~= bits_of_u64(num));
        BitString { bits: out }
    }

    /// The text that spells the string: a digit for each bit; `.` for the
    /// empty string.
    pub fn to_text(&self) -> (r: String)
        ensures
            r@ == text_of_bits(self@),
    {
        proof {
            reveal_strlit(".");
            reveal_strlit("0");
            reveal_strlit("1");
        }
        if self.bits.len() == 0 {
            let r = ".".to_owned();
            assert(r@ =~= seq!['.']);
            return r;
        }
        let mut out = String::new();
        let mut i: usize = 0;
        while i < self.bits.len()
            invariant
                i <= self.bits.len(),
                "0"@ == seq!['0'],
                "1"@ == seq!['1'],
                out@.len() == i,
                forall|j: int| 0 <= j < i ==> out@[j] == char_of_bit(#[trigger] self@[j]),
            decreases self.bits.len() - i,
        {
            match self.bits[i] {
                Bit::Zero => {
                    out.append("0");
                },
                Bit::One => {
                    out.append("1");
                },
            }
            i += 1;
        }
        assert(out@ =~= text_of_bits(self@));
        out
    }

    /// The string that a text of binary digits spells; the text `.` spells
    /// the empty string.
    pub fn from_str(string: &str) -> (r: Result<BitString, BitStringFromStringError>)
        ensures
            r is Ok <==> bits_of_text(string@) is Some,
            r matches Ok(s) ==> Some(s@) == bits_of_text(string@),
    {
        let n: usize = string.unicode_len();
        if n == 1 && string.get_char(0) == '.' {
            assert(string@ =~= seq!['.']);
            return Ok(BitString::empty());
        }
        assert(string@ != seq!['.']) by {
            if string@ == seq!['.'] {
                assert(seq!['.'].len() == 1);
                assert(seq!['.'][0] == '.');
            }
        }
        let mut out: Vec<Bit> = Vec::new();
        let mut i: usize = 0;
        while i < n
            invariant
                i <= n,
                n == string@.len(),
                string@ != seq!['.'],
                out@.len() == i,
                forall|j: int| 0 <= j < i ==> (#[trigger] bit_of_char(string@[j])) == Some(out@[j]),
            decreases n - i,
        {
            match Bit::from_char(string.get_char(i)) {
                Some(bit) => {
                    out.push(bit);
                },
                None => {
                    assert(bit_of_char(string@[i as int]) is None);
                    return Err(BitStringFromStringError);
                },
            }
            i += 1;
        }
        assert(out@ =~= bits_of_text(string@).unwrap());
        Ok(BitString { bits: out })
    }
}

impl PartialEq for BitString {
    fn eq(&self, other: &BitString) -> (r: bool) {
        if self.bits.len() != other.bits.len() {
            return false;
        }
        let mut i: usize = 0;
        while i < self.bits.len()
            invariant
                i <= self.bits.len(),
                self.bits.len() == other.bits.len(),
                self@.take(i as int) == other@.take(i as int),
            decreases self.bits.len() - i,
        {
            if self.bits[i] != other.bits[i] {
                return false;
            }
            assert(self@.take(i as int + 1) =~= self@.take(i as int).push(self@[i as int]));
            assert(other@.take(i as int + 1) =~= other@.take(i as int).push(other@[i as int]));
            i += 1;
        }
        assert(self@.take(i as int) =~= self@);
        assert(other@.take(i as int) =~= other@);
        true
    }
}

impl Eq for BitString {

}

impl vstd::std_specs::cmp::PartialEqSpecImpl for BitString {
    open spec fn obeys_eq_spec() -> bool {
        true
    }

    open spec fn eq_spec(&self, other: &BitString) -> bool {
        self@ == other@
    }
}

/// A string equals the concatenation of what comes before a cut and what
/// comes after it, wherever the cut is made.
pub proof fn lemma_split_concat(bits: Seq<Bit>, at: int)
    requires
        0 <= at <= bits.len(),
    ensures
        bits.subrange(0, at) + bits.subrange(at, bits.len() as int) == bits,
{
    assert(bits.subrange(0, at) + bits.subrange(at, bits.len() as int) =~= bits);
}

/// How many bits the strings of `parts` hold together.
pub open spec fn total_len(parts: Seq<Seq<Bit>>) -> nat
    decreases parts.len(),
{
    if parts.len() == 0 {
        0
    } else {
        total_len(parts.drop_last()) + parts.last().len()
    }
}

/// The concatenation of strings is as long as the strings together.
pub proof fn lemma_concat_all_len(parts: Seq<Seq<Bit>>)
    ensures
        concat_all(parts).len() == total_len(parts),
    decreases parts.len(),
{
    if parts.len() > 0 {
        lemma_concat_all_len(parts.drop_last());
    }
}

/// The concatenation of strings holds the bits of each in their order: the
/// bit at `j` of the string at `k` stands after all bits of the strings
/// before it and `j` bits of its own.
pub proof fn lemma_concat_all_index(parts: Seq<Seq<Bit>>, k: int, j: int)
    requires
        0 <= k < parts.len(),
        0 <= j < parts[k].len(),
    ensures
        total_len(parts.take(k)) + j < concat_all(parts).len(),
        concat_all(parts)[total_len(parts.take(k)) + j] == parts[k][j],
    decreases parts.len(),
{
    lemma_concat_all_len(parts.drop_last());
    lemma_concat_all_len(parts);
    if k == parts.len() - 1 {
        assert(parts.take(k) =~= parts.drop_last());
    } else {
        lemma_concat_all_index(parts.drop_last(), k, j);
        assert(parts.drop_last().take(k) =~= parts.take(k));
    }
}

/// Concatenation is associative.
pub proof fn lemma_concat_associative(a: Seq<Bit>, b: Seq<Bit>, c: Seq<Bit>)
    ensures
        (a + b) + c == a + (b + c),
{
    assert((a + b) + c =~= a + (b + c));
}

/// The text of a bit string spells that bit string.
pub proof fn lemma_text_round_trip(bits: Seq<Bit>)
    ensures
        bits_of_text(text_of_bits(bits)) == Some(bits),
{
    let text = text_of_bits(bits);
    if bits.len() == 0 {
        assert(bits =~= Seq::<Bit>::empty());
    } else {
        assert(text != seq!['.']) by {
            if text == seq!['.'] {
                assert(text[0] == '.');
                assert(text[0] == char_of_bit(bits[0]));
            }
        }
        assert forall|i: int| 0 <= i < text.len() implies (#[trigger] bit_of_char(text[i]))
            == Some(bits[i]) by {}
        assert(bits_of_text(text).unwrap() =~= bits);
    }
}

proof fn lemma_shift_step(num: u64, shift: u64)
    by (bit_vector)
    requires
        shift < 63,
    ensures
        num >> shift == 2 * (num >> ((shift + 1) as u64)) + ((num >> shift) & 1),
        (num >> shift) & 1 <= 1,
        num >> 63 <= 1,
        (num >> 63) & 1 == num >> 63,
        num >> 0 == num,
{
}

proof fn lemma_u64_prefix(num: u64, count: int)
    requires
        1 <= count <= 64,
    ensures
        big_endian(bits_of_u64(num).take(count)) == num >> ((64 - count) as u64),
    decreases count,
{
    let bits = bits_of_u64(num);
    let prefix = bits.take(count);
    let shift = (64 - count) as u64;
    assert(prefix.last() == bits[count - 1]);
    assert(prefix.last().value() == (num >> shift) & 1) by {
        lemma_shift_step(num, 0);
        if shift < 63 {
            lemma_shift_step(num, shift);
        }
    }
    if count == 1 {
        lemma_shift_step(num, 0);
        assert(prefix.drop_last() =~= Seq::<Bit>::empty());
        assert(big_endian(prefix.drop_last()) == 0);
    } else {
        lemma_u64_prefix(num, count - 1);
        assert(prefix.drop_last() =~= bits.take(count - 1));
        lemma_shift_step(num, shift);
    }
}

/// The 64 bits of a number spell that number.
pub proof fn lemma_u64_round_trip(num: u64)
    ensures
        big_endian(bits_of_u64(num)) == num,
{
    lemma_u64_prefix(num, 64);
    lemma_shift_step(num, 0);
    assert(bits_of_u64(num).take(64) =~= bits_of_u64(num));
}

} // verus!
