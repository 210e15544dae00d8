//! Text helpers: lowercase hex, MAC address rendering, and the small string
//! operations the record types are built from.

use vstd::prelude::*;
use vstd::string::*;
use vstd::utf8::*;

verus! {

/// The lowercase hexadecimal digit for a value below sixteen.
pub open spec fn hex_digit(n: int) -> char {
    if n < 10 {
        (48 + n) as u8 as char
    } else {
        (87 + n) as u8 as char
    }
}

/// The two lowercase hex digits of one byte, high nibble first.
pub open spec fn byte_hex(b: u8) -> Seq<char> {
    seq![hex_digit(b as int / 16), hex_digit(b as int % 16)]
}

/// Every byte rendered as two hex digits, with nothing between them.
pub open spec fn hex_string(bytes: Seq<u8>) -> Seq<char>
    decreases bytes.len(),
{
    if bytes.len() == 0 {
        Seq::empty()
    } else {
        hex_string(bytes.drop_last()) + byte_hex(bytes.last())
    }
}

/// Every byte rendered as two hex digits, with a colon between neighbours.
pub open spec fn colon_hex(bytes: Seq<u8>) -> Seq<char>
    decreases bytes.len(),
{
    if bytes.len() == 0 {
        Seq::empty()
    } else if bytes.len() == 1 {
        byte_hex(bytes[0])
    } else {
        colon_hex(bytes.drop_last()) + seq![':'] + byte_hex(bytes.last())
    }
}

/// The canonical text of the six-octet address that starts at `offset`.
pub open spec fn mac_text(data: Seq<u8>, offset: int) -> Seq<char> {
    colon_hex(data.subrange(offset, offset + 6))
}

/// A text with every colon taken out.
pub open spec fn strip_colons(s: Seq<char>) -> Seq<char> {
    s.filter(|c: char| c != ':')
}

/// `String::push` appends exactly one character.
pub assume_specification[ String::push ](s: &mut String, c: char)
    ensures
        final(s)@ == old(s)@.push(c),
;

/// `String::from_utf8` hands back the decoded text when the bytes are
/// well-formed UTF-8 and refuses them otherwise; the error is mapped to `None`.
#[verifier::external_body]
pub(crate) fn decode_text(bytes: Vec<u8>) -> (r: Option<String>)
    ensures
        valid_utf8(bytes@) ==> r.is_some() && r.unwrap()@ == decode_utf8(bytes@),
        !valid_utf8(bytes@) ==> r.is_none(),
{
    match String::from_utf8(bytes) {
        Ok(s) => Some(s),
        Err(_) => None,
    }
}

fn hex_char(n: u8) -> (c: char)
    requires
        n < 16,
    ensures
        c == hex_digit(n as int),
{
    if n < 10 {
        (48 + n) as char
    } else {
        (87 + n) as char
    }
}

/// Appends the two hex digits of `b`.
pub fn push_hex_byte(s: &mut String, b: u8)
    ensures
        final(s)@ == old(s)@ + byte_hex(b),
{
    s.push(hex_char(b / 16));
    s.push(hex_char(b % 16));
    assert(s@ =~= old(s)@ + byte_hex(b));
}

/// Renders `data[start..end]` as lowercase hex.
pub fn hex_encode(data: &[u8], start: usize, end: usize) -> (s: String)
    requires
        start <= end <= data.len(),
    ensures
        s@ == hex_string(data@.subrange(start as int, end as int)),
        s@.len() == 2 * (end - start),
{
    proof {
        lemma_hex_string_len(data@.subrange(start as int, end as int));
    }
    let mut s = String::new();
    let mut i: usize = start;
    while i < end
        invariant
            start <= i <= end <= data.len(),
            s@ == hex_string(data@.subrange(start as int, i as int)),
        decreases end - i,
    {
        proof {
            let next = data@.subrange(start as int, i + 1);
            assert(next.drop_last() =~= data@.subrange(start as int, i as int));
            assert(next.last() == data@[i as int]);
        }
        push_hex_byte(&mut s, data[i]);
        i = i + 1;
    }
    s
}

/// Renders the six octets at `offset` as a colon-separated address.
pub fn format_mac(data: &[u8], offset: usize) -> (s: String)
    requires
        offset + 6 <= data.len(),
    ensures
        s@ == mac_text(data@, offset as int),
        s@.len() == 17,
{
    proof {
        lemma_colon_hex_len(data@.subrange(offset as int, offset + 6));
    }
    let mut s = String::new();
    let mut i: usize = 0;
    while i < 6
        invariant
            i <= 6,
            offset + 6 <= data.len(),
            s@ == colon_hex(data@.subrange(offset as int, offset + i)),
        decreases 6 - i,
    {
        proof {
            let next = data@.subrange(offset as int, offset + i + 1);
            assert(next.drop_last() =~= data@.subrange(offset as int, offset + i));
            assert(next.last() == data@[offset + i]);
            assert(next.len() == 1 ==> next[0] == data@[offset + i]);
        }
        if i > 0 {
            s.push(':');
        }
        push_hex_byte(&mut s, data[offset + i]);
        proof {
            let next = data@.subrange(offset as int, offset + i + 1);
            assert(s@ =~= colon_hex(next));
        }
        i = i + 1;
    }
    s
}

/// Copies `s` without its colons.
pub fn remove_colons(s: &str) -> (r: String)
    ensures
        r@ == strip_colons(s@),
{
    let n = s.unicode_len();
    let mut r = String::new();
    let mut i: usize = 0;
    while i < n
        invariant
            i <= n,
            n == s@.len(),
            r@ == strip_colons(s@.take(i as int)),
        decreases n - i,
    {
        let c = s.get_char(i);
        proof {
            reveal(Seq::filter);
            assert(s@.take(i + 1).drop_last() =~= s@.take(i as int));
        }
        if c != ':' {
            r.push(c);
        }
        i = i + 1;
    }
    proof {
        assert(s@.take(n as int) =~= s@);
    }
    r
}

/// Whether `s` begins with `prefix`.
pub fn starts_with(s: &str, prefix: &str) -> (b: bool)
    ensures
        b == prefix@.is_prefix_of(s@),
{
    let n = prefix.unicode_len();
    if s.unicode_len() < n {
        return false;
    }
    let mut i: usize = 0;
    while i < n
        invariant
            i <= n,
            n == prefix@.len(),
            n <= s@.len(),
            forall|j: int| 0 <= j < i ==> s@[j] == prefix@[j],
        decreases n - i,
    {
        if s.get_char(i) != prefix.get_char(i) {
            assert(prefix@ != s@.subrange(0, prefix@.len() as int));
            return false;
        }
        i = i + 1;
    }
    assert(prefix@ =~= s@.subrange(0, prefix@.len() as int));
    true
}

/// Hex text has two characters for each byte.
pub proof fn lemma_hex_string_len(bytes: Seq<u8>)
    ensures
        hex_string(bytes).len() == 2 * bytes.len(),
    decreases bytes.len(),
{
    if bytes.len() > 0 {
        lemma_hex_string_len(bytes.drop_last());
    }
}

/// Colon-separated hex text has two characters for each byte and one
/// colon between neighbours: seventeen characters for an address.
pub proof fn lemma_colon_hex_len(bytes: Seq<u8>)
    ensures
        colon_hex(bytes).len() == if bytes.len() == 0 {
            0
        } else {
            3 * bytes.len() - 1
        },
    decreases bytes.len(),
{
    if bytes.len() > 1 {
        lemma_colon_hex_len(bytes.drop_last());
    }
}

/// No hex digit is a colon.
pub proof fn lemma_hex_digit_is_no_colon(n: int)
    requires
        0 <= n < 16,
    ensures
        hex_digit(n) != ':',
{
    assert(hex_digit(n) as u32 != ':' as u32);
}

/// An address without its colons is the hex text of its bytes.
pub proof fn lemma_strip_colon_hex(bytes: Seq<u8>)
    ensures
        strip_colons(colon_hex(bytes)) == hex_string(bytes),
    decreases bytes.len(),
{
    let keep = |c: char| c != ':';
    if bytes.len() == 0 {
        reveal_with_fuel(Seq::filter, 2);
        assert(hex_string(bytes) =~= Seq::<char>::empty());
        assert(colon_hex(bytes).filter(keep) =~= Seq::<char>::empty());
    } else {
        let b = bytes.last();
        let digits = byte_hex(b);
        lemma_hex_digit_is_no_colon(b as int / 16);
        lemma_hex_digit_is_no_colon(b as int % 16);
        assert(digits.filter(keep) =~= digits) by {
            reveal_with_fuel(Seq::filter, 3);
            assert(digits.drop_last() =~= seq![digits[0]]);
            assert(digits.drop_last().drop_last() =~= Seq::<char>::empty());
        }
        assert(seq![':'].filter(keep) =~= Seq::<char>::empty()) by {
            reveal_with_fuel(Seq::filter, 2);
            assert(seq![':'].drop_last() =~= Seq::<char>::empty());
        }
        if bytes.len() == 1 {
            assert(bytes.drop_last() =~= Seq::<u8>::empty());
            assert(hex_string(bytes.drop_last()) =~= Seq::<char>::empty());
            assert(hex_string(bytes) =~= digits);
        } else {
            let head = colon_hex(bytes.drop_last());
            lemma_strip_colon_hex(bytes.drop_last());
            Seq::filter_distributes_over_add(head, seq![':'], keep);
            Seq::filter_distributes_over_add(head + seq![':'], digits, keep);
            assert(colon_hex(bytes).filter(keep) =~= hex_string(bytes.drop_last()) + digits);
        }
    }
}

/// Whether two texts are the same.
pub fn str_eq(a: &str, b: &str) -> (same: bool)
    ensures
        same == (a@ == b@),
{
    let n = a.unicode_len();
    if b.unicode_len() != n {
        return false;
    }
    let mut i: usize = 0;
    while i < n
        invariant
            i <= n,
            n == a@.len(),
            n == b@.len(),
            forall|j: int| 0 <= j < i ==> a@[j] == b@[j],
        decreases n - i,
    {
        if a.get_char(i) != b.get_char(i) {
            return false;
        }
        i = i + 1;
    }
    assert(a@ =~= b@);
    true
}

} // verus!
