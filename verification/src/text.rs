//! String operations with contracts over the characters of a string.

use vstd::prelude::*;
use vstd::utf8::*;

verus! {

/// The number of bytes of an ASCII character is one, and the byte is the character's code.
proof fn lemma_ascii_scalar(c: char)
    requires
        c <= '\u{7f}',
    ensures
        encode_scalar(c as u32) == seq![c as u8],
{
    let code = c as u32;
    assert(code <= 0x7f ==> (code & 0x7f) as u8 == code as u8) by (bit_vector);
    assert(encode_scalar(code) =~= seq![c as u8]);
}

/// An ASCII character of a string shows up as a byte of its encoding.
proof fn lemma_encoding_has_ascii(chars: Seq<char>, k: int)
    requires
        0 <= k < chars.len(),
        chars[k] <= '\u{7f}',
    ensures
        encode_utf8(chars).contains(chars[k] as u8),
    decreases chars.len(),
{
    let head = encode_scalar(chars[0] as u32);
    let tail = encode_utf8(chars.drop_first());
    assert(encode_utf8(chars) == head + tail);
    if k == 0 {
        lemma_ascii_scalar(chars[0]);
        assert((head + tail)[0] == chars[0] as u8);
    } else {
        lemma_encoding_has_ascii(chars.drop_first(), k - 1);
        let i = choose|i: int| 0 <= i < tail.len() && tail[i] == chars[k] as u8;
        assert((head + tail)[head.len() + i] == chars[k] as u8);
    }
}

/// A string whose encoding lacks the byte of an ASCII character lacks the character.
proof fn lemma_ascii_absent(chars: Seq<char>, c: char)
    requires
        c <= '\u{7f}',
        !encode_utf8(chars).contains(c as u8),
    ensures
        !chars.contains(c),
{
    if chars.contains(c) {
        let k = choose|k: int| 0 <= k < chars.len() && chars[k] == c;
        lemma_encoding_has_ascii(chars, k);
    }
}

/// Two strings with the same encoding hold the same characters.
proof fn lemma_encoding_injective(a: Seq<char>, b: Seq<char>)
    requires
        encode_utf8(a) == encode_utf8(b),
    ensures
        a == b,
{
    encode_utf8_decode_utf8(a);
    encode_utf8_decode_utf8(b);
}

/// The encoding of a concatenation is the concatenation of the encodings.
proof fn lemma_encode_concat(a: Seq<char>, b: Seq<char>)
    ensures
        encode_utf8(a + b) == encode_utf8(a) + encode_utf8(b),
    decreases a.len(),
{
    if a.len() == 0 {
        assert(a + b =~= b);
        assert(encode_utf8(a) + encode_utf8(b) =~= encode_utf8(b));
    } else {
        lemma_encode_concat(a.drop_first(), b);
        assert((a + b).drop_first() =~= a.drop_first() + b);
        assert(encode_utf8(a + b) =~= encode_utf8(a) + encode_utf8(b));
    }
}

/// The first byte of `s`, when it is ASCII, is the whole first character.
proof fn lemma_split_first(s: Seq<char>, c: char, tail: Seq<char>)
    requires
        c <= '\u{7f}',
        encode_utf8(s) == seq![c as u8] + encode_utf8(tail),
    ensures
        s == seq![c] + tail,
{
    lemma_ascii_scalar(c);
    assert(encode_utf8(seq![c]) =~= seq![c as u8]) by {
        reveal_with_fuel(encode_utf8, 2);
    }
    lemma_encode_concat(seq![c], tail);
    lemma_encoding_injective(s, seq![c] + tail);
}

/// Strips the ASCII character `c` off the front of `s`.
pub fn strip_char(s: &str, c: char) -> (rest: Option<&str>)
    requires
        c <= '\u{7f}',
    ensures
        match rest {
            Some(t) => s@ == seq![c] + t@,
            None => s@.len() == 0 || s@[0] != c,
        },
{
    let bytes = s.as_bytes();
    proof {
        lemma_ascii_scalar(c);
    }
    if bytes.len() > 0 && bytes[0] == c as u8 {
        proof {
            encode_utf8_valid_utf8(s@);
            reveal_with_fuel(is_char_boundary, 2);
        }
        let (_head, tail) = s.split_at(1);
        proof {
            assert(encode_utf8(s@) =~= seq![c as u8] + encode_utf8(tail@));
            lemma_split_first(s@, c, tail@);
        }
        Some(tail)
    } else {
        None
    }
}

/// Splits `s` around the first occurrence of the ASCII character `c`.
pub fn split_at_char(s: &str, c: char) -> (parts: Option<(&str, &str)>)
    requires
        c <= '\u{7f}',
    ensures
        match parts {
            Some((before, after)) => {
                &&& s@ == before@ + seq![c] + after@
                &&& !before@.contains(c)
            },
            None => !s@.contains(c),
        },
{
    let bytes = s.as_bytes();
    let mut pos: usize = 0;
    while pos < bytes.len() && bytes[pos] != c as u8
        invariant
            pos <= bytes@.len(),
            !bytes@.take(pos as int).contains(c as u8),
        decreases bytes@.len() - pos,
    {
        assert(bytes@.take(pos + 1) =~= bytes@.take(pos as int).push(bytes@[pos as int]));
        pos += 1;
    }
    if pos == bytes.len() {
        proof {
            assert(bytes@.take(pos as int) =~= bytes@);
            lemma_ascii_absent(s@, c);
        }
        None
    } else {
        proof {
            encode_utf8_valid_utf8(s@);
            is_char_boundary_iff_not_is_continuation_byte(bytes@, pos as int);
        }
        let (before, rest) = s.split_at(pos);
        proof {
            encode_utf8_valid_utf8(rest@);
            reveal_with_fuel(is_char_boundary, 2);
        }
        let (_delimiter, after) = rest.split_at(1);
        proof {
            assert(encode_utf8(rest@) =~= seq![c as u8] + encode_utf8(after@));
            lemma_split_first(rest@, c, after@);
            assert(encode_utf8(s@) =~= encode_utf8(before@) + encode_utf8(rest@));
            lemma_encode_concat(before@, rest@);
            lemma_encoding_injective(s@, before@ + rest@);
            assert(before@ + rest@ =~= before@ + seq![c] + after@);
            assert(bytes@.take(pos as int) =~= encode_utf8(before@));
            lemma_ascii_absent(before@, c);
        }
        Some((before, after))
    }
}

/// Whether two strings hold the same characters.
pub fn same_text(a: &str, b: &str) -> (same: bool)
    ensures
        same == (a@ == b@),
{
    let x = a.as_bytes();
    let y = b.as_bytes();
    if x.len() != y.len() {
        return false;
    }
    let mut i: usize = 0;
    while i < x.len()
        invariant
            i <= x@.len() == y@.len(),
            x@ == encode_utf8(a@),
            y@ == encode_utf8(b@),
            x@.take(i as int) == y@.take(i as int),
        decreases x@.len() - i,
    {
        if x[i] != y[i] {
            return false;
        }
        assert(x@.take(i + 1) =~= x@.take(i as int).push(x@[i as int]));
        assert(y@.take(i + 1) =~= y@.take(i as int).push(y@[i as int]));
        i += 1;
    }
    proof {
        assert(x@.take(i as int) =~= x@);
        assert(y@.take(i as int) =~= y@);
        lemma_encoding_injective(a@, b@);
    }
    true
}

/// An ASCII upper-case letter in lower case; any other character as it is.
pub open spec fn ascii_lower(c: char) -> char {
    if 'A' <= c <= 'Z' {
        (c as u8 + 32) as char
    } else {
        c
    }
}

/// Equal but for the case of ASCII letters.
pub open spec fn same_but_for_ascii_case(a: Seq<char>, b: Seq<char>) -> bool {
    &&& a.len() == b.len()
    &&& forall|i: int| 0 <= i < a.len() ==> #[trigger] ascii_lower(a[i]) == ascii_lower(b[i])
}

/// An ASCII upper-case letter in lower case; any other character as it is.
fn to_ascii_lower(c: char) -> (lower: char)
    ensures
        lower == ascii_lower(c),
{
    if 'A' <= c && c <= 'Z' {
        (c as u8 + 32) as char
    } else {
        c
    }
}

/// Whether two strings are equal but for the case of ASCII letters.
pub fn eq_ignore_ascii_case(a: &str, b: &str) -> (same: bool)
    ensures
        same == same_but_for_ascii_case(a@, b@),
{
    let mut xs = a.chars();
    let mut ys = b.chars();
    let ghost mut k: int = 0;
    loop
        invariant
            0 <= k <= a@.len(),
            k <= b@.len(),
            vstd::std_specs::iter::IteratorSpec::remaining(&xs) == a@.skip(k),
            vstd::std_specs::iter::IteratorSpec::remaining(&ys) == b@.skip(k),
            forall|i: int| 0 <= i < k ==> #[trigger] ascii_lower(a@[i]) == ascii_lower(b@[i]),
        decreases a@.len() - k,
    {
        match (xs.next(), ys.next()) {
            (None, None) => {
                return true;
            },
            (Some(x), Some(y)) => {
                assert(x == a@[k] && y == b@[k]);
                if to_ascii_lower(x) != to_ascii_lower(y) {
                    return false;
                }
                proof {
                    assert(a@.skip(k).drop_first() =~= a@.skip(k + 1));
                    assert(b@.skip(k).drop_first() =~= b@.skip(k + 1));
                    k = k + 1;
                }
            },
            _ => {
                return false;
            },
        }
    }
}

} // verus!
