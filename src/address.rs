use vstd::prelude::*;

verus! {

/// Number of bytes in an address.
pub const ADDRESS_LENGTH: usize = 32;

/// A fixed-width package address, most significant byte first.
pub struct Address {
    pub bytes: Vec<u8>,
}

impl Address {
    pub open spec fn view(&self) -> Seq<u8> {
        self.bytes@
    }

    /// A copy of this address.
    pub fn duplicate(&self) -> (r: Address)
        ensures
            r@ == self@,
    {
        let mut bytes: Vec<u8> = Vec::new();
        let mut i: usize = 0;
        while i < self.bytes.len()
            invariant
                i <= self@.len(),
                bytes@ == self@.subrange(0, i as int),
            decreases self@.len() - i,
        {
            bytes.push(self.bytes[i]);
            assert(bytes@ =~= self@.subrange(0, i + 1));
            i = i + 1;
        }
        assert(bytes@ =~= self@);
        Address { bytes }
    }

    /// An address holds exactly `ADDRESS_LENGTH` bytes.
    pub open spec fn wf(&self) -> bool {
        self.bytes@.len() == ADDRESS_LENGTH
    }
}

pub open spec fn is_hex_digit(c: char) -> bool {
    ('0' <= c && c <= '9') || ('a' <= c && c <= 'f') || ('A' <= c && c <= 'F')
}

/// The value of a hex digit, in either case.
pub open spec fn hex_value(c: char) -> int {
    if '0' <= c && c <= '9' {
        c as int - '0' as int
    } else if 'a' <= c && c <= 'f' {
        c as int - 'a' as int + 10
    } else {
        c as int - 'A' as int + 10
    }
}

/// The lower-case hex digit for `n` below sixteen.
pub open spec fn hex_char(n: int) -> char {
    if n == 0 { '0' }
    else if n == 1 { '1' }
    else if n == 2 { '2' }
    else if n == 3 { '3' }
    else if n == 4 { '4' }
    else if n == 5 { '5' }
    else if n == 6 { '6' }
    else if n == 7 { '7' }
    else if n == 8 { '8' }
    else if n == 9 { '9' }
    else if n == 10 { 'a' }
    else if n == 11 { 'b' }
    else if n == 12 { 'c' }
    else if n == 13 { 'd' }
    else if n == 14 { 'e' }
    else { 'f' }
}

/// `0x` followed by at most two hex digits per address byte.
pub open spec fn is_address_literal(s: Seq<char>) -> bool {
    &&& s.len() >= 2
    &&& s[0] == '0'
    &&& s[1] == 'x'
    &&& s.len() - 2 <= 2 * ADDRESS_LENGTH
    &&& forall|i: int| 2 <= i < s.len() ==> is_hex_digit(#[trigger] s[i])
}

/// The digits of a literal, padded on the left with zeros to two per address byte.
pub open spec fn padded_digits(s: Seq<char>) -> Seq<char> {
    Seq::new((2 * ADDRESS_LENGTH - (s.len() - 2)) as nat, |i: int| '0') + s.subrange(2, s.len() as int)
}

/// The bytes that a well-formed literal denotes.
pub open spec fn literal_bytes(s: Seq<char>) -> Seq<u8> {
    let p = padded_digits(s);
    Seq::new(
        ADDRESS_LENGTH as nat,
        |k: int| (hex_value(p[2 * k]) * 16 + hex_value(p[2 * k + 1])) as u8,
    )
}

/// The canonical literal of an address: `0x` and two lower-case digits per byte.
pub open spec fn canonical_literal(b: Seq<u8>) -> Seq<char> {
    seq!['0', 'x'] + Seq::new(
        2 * b.len(),
        |i: int|
            if i % 2 == 0 {
                hex_char(b[i / 2] as int / 16)
            } else {
                hex_char(b[i / 2] as int % 16)
            },
    )
}

fn hex_digit_value(c: char) -> (r: u8)
    requires
        is_hex_digit(c),
    ensures
        r as int == hex_value(c),
        r < 16,
{
    if '0' <= c && c <= '9' {
        (c as u32 - '0' as u32) as u8
    } else if 'a' <= c && c <= 'f' {
        (c as u32 - 'a' as u32 + 10) as u8
    } else {
        (c as u32 - 'A' as u32 + 10) as u8
    }
}

/// Parses an address literal such as `0x2` or `0x00ab...`; leading zeros may be left out.
/// Returns `None` exactly when the text is no such literal.
pub fn parse_address_literal(literal: &str) -> (r: Option<Address>)
    ensures
        r is Some <==> is_address_literal(literal@),
        r is Some ==> r->0.wf() && r->0@ == literal_bytes(literal@),
{
    let n = literal.unicode_len();
    if n < 2 || n - 2 > 2 * ADDRESS_LENGTH {
        return None;
    }
    if literal.get_char(0) != '0' || literal.get_char(1) != 'x' {
        return None;
    }
    let ghost s = literal@;
    let pad: usize = 2 * ADDRESS_LENGTH - (n - 2);
    let ghost p = padded_digits(s);
    assert(p.len() == 2 * ADDRESS_LENGTH);
    let mut nibbles: Vec<u8> = Vec::new();
    let mut j: usize = 0;
    while j < 2 * ADDRESS_LENGTH
        invariant
            n == s.len(),
            s == literal@,
            2 <= n <= 2 * ADDRESS_LENGTH + 2,
            pad == 2 * ADDRESS_LENGTH - (n - 2),
            p == padded_digits(s),
            j <= 2 * ADDRESS_LENGTH,
            nibbles@.len() == j,
            forall|i: int| 0 <= i < j ==> (#[trigger] nibbles@[i]) as int == hex_value(p[i]) && nibbles@[i] < 16,
            forall|i: int| 2 <= i < s.len() && i - 2 + pad < j ==> is_hex_digit(#[trigger] s[i]),
        decreases 2 * ADDRESS_LENGTH - j,
    {
        if j < pad {
            assert(p[j as int] == '0');
            nibbles.push(0);
        } else {
            let c = literal.get_char(j - pad + 2);
            if !is_hex(c) {
                assert(!is_hex_digit(s[(j - pad + 2) as int]));
                return None;
            }
            assert(p[j as int] == s[(j - pad + 2) as int]);
            let v = hex_digit_value(c);
            nibbles.push(v);
        }
        j = j + 1;
    }
    assert(forall|i: int| 2 <= i < s.len() ==> is_hex_digit(#[trigger] s[i]));
    let mut bytes: Vec<u8> = Vec::new();
    let mut k: usize = 0;
    while k < ADDRESS_LENGTH
        invariant
            nibbles@.len() == 2 * ADDRESS_LENGTH,
            forall|i: int| 0 <= i < 2 * ADDRESS_LENGTH ==> (#[trigger] nibbles@[i]) as int == hex_value(p[i]) && nibbles@[i] < 16,
            k <= ADDRESS_LENGTH,
            bytes@.len() == k,
            forall|i: int| 0 <= i < k ==> (#[trigger] bytes@[i]) == literal_bytes(s)[i],
            p == padded_digits(s),
        decreases ADDRESS_LENGTH - k,
    {
        let hi = nibbles[2 * k];
        let lo = nibbles[2 * k + 1];
        bytes.push(hi * 16 + lo);
        k = k + 1;
    }
    let r = Address { bytes };
    assert(r@ =~= literal_bytes(s));
    Some(r)
}

fn is_hex(c: char) -> (r: bool)
    ensures
        r == is_hex_digit(c),
{
    ('0' <= c && c <= '9') || ('a' <= c && c <= 'f') || ('A' <= c && c <= 'F')
}

fn hex_str(n: u8) -> (r: &'static str)
    requires
        n < 16,
    ensures
        r@ == seq![hex_char(n as int)],
{
    let r = if n == 0 { "0" }
    else if n == 1 { "1" }
    else if n == 2 { "2" }
    else if n == 3 { "3" }
    else if n == 4 { "4" }
    else if n == 5 { "5" }
    else if n == 6 { "6" }
    else if n == 7 { "7" }
    else if n == 8 { "8" }
    else if n == 9 { "9" }
    else if n == 10 { "a" }
    else if n == 11 { "b" }
    else if n == 12 { "c" }
    else if n == 13 { "d" }
    else if n == 14 { "e" }
    else { "f" };
    proof {
        reveal_strlit("0"); reveal_strlit("1"); reveal_strlit("2"); reveal_strlit("3");
        reveal_strlit("4"); reveal_strlit("5"); reveal_strlit("6"); reveal_strlit("7");
        reveal_strlit("8"); reveal_strlit("9"); reveal_strlit("a"); reveal_strlit("b");
        reveal_strlit("c"); reveal_strlit("d"); reveal_strlit("e"); reveal_strlit("f");
    }
    r
}

/// Formats an address as its canonical literal.
pub fn to_canonical_literal(a: &Address) -> (r: String)
    ensures
        r@ == canonical_literal(a@),
{
    let mut out = String::from_str("0x");
    proof { reveal_strlit("0x"); }
    let mut k: usize = 0;
    while k < a.bytes.len()
        invariant
            k <= a@.len(),
            out@ == canonical_literal(a@.subrange(0, k as int)),
        decreases a@.len() - k,
    {
        let b = a.bytes[k];
        out.append(hex_str(b / 16));
        out.append(hex_str(b % 16));
        proof {
            let next = a@.subrange(0, k + 1);
            assert(out@ =~= canonical_literal(next));
        }
        k = k + 1;
    }
    assert(a@.subrange(0, a@.len() as int) =~= a@);
    out
}

/// The canonical literal of every address parses back to the same address.
pub proof fn lemma_literal_round_trip(a: Seq<u8>)
    requires
        a.len() == ADDRESS_LENGTH,
    ensures
        is_address_literal(canonical_literal(a)),
        literal_bytes(canonical_literal(a)) == a,
{
    let s = canonical_literal(a);
    assert forall|i: int| 2 <= i < s.len() implies is_hex_digit(#[trigger] s[i]) by {
        let b = a[(i - 2) / 2] as int;
        assert(0 <= b / 16 < 16);
        assert(0 <= b % 16 < 16);
    }
    let p = padded_digits(s);
    assert(p =~= s.subrange(2, s.len() as int));
    assert forall|k: int| 0 <= k < ADDRESS_LENGTH implies #[trigger] literal_bytes(s)[k] == a[k] by {
        let b = a[k] as int;
        assert(p[2 * k] == hex_char(b / 16));
        assert(p[2 * k + 1] == hex_char(b % 16));
        assert(hex_value(hex_char(b / 16)) == b / 16);
        assert(hex_value(hex_char(b % 16)) == b % 16);
        assert((b / 16) * 16 + b % 16 == b);
    }
    assert(literal_bytes(s) =~= a);
}

} // verus!
