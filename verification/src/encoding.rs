//! Byte-level encodings that the ledger's content hashes are computed over:
//! decimal text of integers and length-prefixed frames, together with the
//! proofs that these encodings can be read back in only one way. At the end
//! stand the few operations on text that the rest of the ledger needs.

use vstd::prelude::*;
use vstd::string::*;
use vstd::utf8::*;

verus! {

/// ASCII code of `:`, which ends the length prefix of a frame.
pub const FRAME_SEPARATOR: u8 = 58;

/// ASCII code of `-`, the sign of a negative number.
pub const MINUS_SIGN: u8 = 45;

/// The ASCII digit for `d`, meaningful for `d < 10`.
pub open spec fn digit_byte(d: nat) -> u8 {
    (48 + d) as u8
}

/// True for the ASCII codes of `0` to `9`.
pub open spec fn is_digit_byte(b: u8) -> bool {
    48 <= b <= 57
}

/// Decimal text of `n`, most significant digit first, without leading zeros.
pub open spec fn decimal(n: nat) -> Seq<u8>
    decreases n,
{
    if n < 10 {
        seq![digit_byte(n)]
    } else {
        decimal(n / 10).push(digit_byte(n % 10))
    }
}

/// Decimal text of `n` as characters.
pub open spec fn decimal_text(n: nat) -> Seq<char> {
    decimal(n).map_values(|b: u8| b as char)
}

/// The numbers of `bytes` in decimal, separated by a comma and a space.
pub open spec fn byte_items_text(bytes: Seq<u8>) -> Seq<char>
    decreases bytes.len(),
{
    if bytes.len() == 0 {
        Seq::empty()
    } else if bytes.len() == 1 {
        decimal_text(bytes[0] as nat)
    } else {
        byte_items_text(bytes.drop_last()) + ", "@ + decimal_text(bytes.last() as nat)
    }
}

/// `bytes` as a list in square brackets, such as `[2, 171, 0]`.
pub open spec fn byte_list_text(bytes: Seq<u8>) -> Seq<char> {
    "["@ + byte_items_text(bytes) + "]"@
}

/// Decimal text of a signed number: a minus sign before the digits of a
/// negative one.
pub open spec fn signed_decimal(i: int) -> Seq<u8> {
    if i < 0 {
        seq![MINUS_SIGN] + decimal((-i) as nat)
    } else {
        decimal(i as nat)
    }
}

/// `b` preceded by its length in decimal and a separator.
pub open spec fn frame(b: Seq<u8>) -> Seq<u8> {
    decimal(b.len()) + seq![FRAME_SEPARATOR] + b
}

/// Optional bytes as mathematics sees them.
pub open spec fn optional_view(bytes: Option<Vec<u8>>) -> Option<Seq<u8>> {
    match bytes {
        Some(b) => Some(b@),
        None => None,
    }
}

/// Decimal text is never empty and holds digits only.
pub proof fn lemma_decimal_digits(n: nat)
    ensures
        decimal(n).len() >= 1,
        forall|i: int| 0 <= i < decimal(n).len() ==> is_digit_byte(#[trigger] decimal(n)[i]),
    decreases n,
{
    if n >= 10 {
        lemma_decimal_digits(n / 10);
    }
}

/// Two numbers with the same decimal text are the same number.
pub proof fn lemma_decimal_injective(a: nat, b: nat)
    requires
        decimal(a) == decimal(b),
    ensures
        a == b,
    decreases a,
{
    lemma_decimal_digits(a / 10);
    lemma_decimal_digits(b / 10);
    if a < 10 && b < 10 {
        assert(decimal(a)[0] == digit_byte(a));
        assert(decimal(b)[0] == digit_byte(b));
    } else if a >= 10 && b >= 10 {
        let da = decimal(a / 10);
        let db = decimal(b / 10);
        assert(decimal(a).drop_last() == da);
        assert(decimal(b).drop_last() == db);
        assert(decimal(a).last() == digit_byte(a % 10));
        assert(decimal(b).last() == digit_byte(b % 10));
        lemma_decimal_injective(a / 10, b / 10);
        assert(a % 10 == b % 10);
    } else if a < 10 {
        assert(decimal(a).len() == 1);
        assert(decimal(b).len() == decimal(b / 10).len() + 1);
    } else {
        assert(decimal(b).len() == 1);
        assert(decimal(a).len() == decimal(a / 10).len() + 1);
    }
}

/// Two numbers with the same signed decimal text are the same number.
pub proof fn lemma_signed_decimal_injective(a: int, b: int)
    requires
        signed_decimal(a) == signed_decimal(b),
    ensures
        a == b,
{
    let na = if a < 0 { (-a) as nat } else { a as nat };
    let nb = if b < 0 { (-b) as nat } else { b as nat };
    lemma_decimal_digits(na);
    lemma_decimal_digits(nb);
    if a < 0 && b < 0 {
        assert(signed_decimal(a).drop_first() == decimal(na));
        assert(signed_decimal(b).drop_first() == decimal(nb));
        lemma_decimal_injective(na, nb);
    } else if a >= 0 && b >= 0 {
        lemma_decimal_injective(na, nb);
    } else if a < 0 {
        assert(signed_decimal(a)[0] == MINUS_SIGN);
        assert(signed_decimal(b)[0] == decimal(nb)[0]);
    } else {
        assert(signed_decimal(b)[0] == MINUS_SIGN);
        assert(signed_decimal(a)[0] == decimal(na)[0]);
    }
}

/// Decimal text followed by a separator can be split off in one way only:
/// the separator is no digit, so it marks where the number ends.
pub proof fn lemma_decimal_prefix_unique(a: nat, r: Seq<u8>, b: nat, s: Seq<u8>)
    requires
        decimal(a) + seq![FRAME_SEPARATOR] + r == decimal(b) + seq![FRAME_SEPARATOR] + s,
    ensures
        a == b,
        r == s,
{
    let da = decimal(a);
    let db = decimal(b);
    let x = da + seq![FRAME_SEPARATOR] + r;
    let y = db + seq![FRAME_SEPARATOR] + s;
    lemma_decimal_digits(a);
    lemma_decimal_digits(b);
    if da.len() < db.len() {
        assert(x[da.len() as int] == FRAME_SEPARATOR);
        assert(y[da.len() as int] == db[da.len() as int]);
        assert(false);
    }
    if db.len() < da.len() {
        assert(y[db.len() as int] == FRAME_SEPARATOR);
        assert(x[db.len() as int] == da[db.len() as int]);
        assert(false);
    }
    assert(da == x.subrange(0, da.len() as int));
    assert(db == y.subrange(0, db.len() as int));
    lemma_decimal_injective(a, b);
    assert(r == x.subrange(da.len() as int + 1, x.len() as int));
    assert(s == y.subrange(db.len() as int + 1, y.len() as int));
}

/// A frame followed by anything can be split off in one way only.
pub proof fn lemma_frame_prefix_unique(a: Seq<u8>, r: Seq<u8>, b: Seq<u8>, s: Seq<u8>)
    requires
        frame(a) + r == frame(b) + s,
    ensures
        a == b,
        r == s,
{
    assert(frame(a) + r == decimal(a.len()) + seq![FRAME_SEPARATOR] + (a + r));
    assert(frame(b) + s == decimal(b.len()) + seq![FRAME_SEPARATOR] + (b + s));
    lemma_decimal_prefix_unique(a.len(), a + r, b.len(), b + s);
    assert(a == (a + r).subrange(0, a.len() as int));
    assert(b == (b + s).subrange(0, b.len() as int));
    assert(r == (a + r).subrange(a.len() as int, (a + r).len() as int));
    assert(s == (b + s).subrange(b.len() as int, (b + s).len() as int));
}

/// Two texts with the same UTF-8 bytes are the same text.
pub proof fn lemma_utf8_injective(a: Seq<char>, b: Seq<char>)
    requires
        encode_utf8(a) == encode_utf8(b),
    ensures
        a == b,
{
    encode_utf8_decode_utf8(a);
    encode_utf8_decode_utf8(b);
}

/// If two concatenations agree and share their first and last parts, their
/// middle parts agree too.
pub proof fn lemma_middle_unique(p: Seq<u8>, x: Seq<u8>, y: Seq<u8>, s: Seq<u8>)
    requires
        p + x + s == p + y + s,
    ensures
        x == y,
{
    let l = p + x + s;
    let r = p + y + s;
    assert(l.len() == r.len());
    assert(x == l.subrange(p.len() as int, p.len() as int + x.len() as int));
    assert(y == r.subrange(p.len() as int, p.len() as int + y.len() as int));
}

/// Appends the decimal text of `n` to `buf`.
pub fn push_decimal(buf: &mut Vec<u8>, n: u64)
    ensures
        final(buf)@ == old(buf)@ + decimal(n as nat),
    decreases n,
{
    if n >= 10 {
        push_decimal(buf, n / 10);
    }
    let digit: u8 = 48u8 + (n % 10) as u8;
    buf.push(digit);
    proof {
        if n >= 10 {
        } else {
        }
    }
}

/// Appends the signed decimal text of `i` to `buf`.
pub fn push_signed_decimal(buf: &mut Vec<u8>, i: i64)
    ensures
        final(buf)@ == old(buf)@ + signed_decimal(i as int),
{
    if i < 0 {
        buf.push(MINUS_SIGN);
        let magnitude: u64 = (-(i + 1)) as u64 + 1;
        push_decimal(buf, magnitude);
    } else {
        push_decimal(buf, i as u64);
    }
}

/// Appends the bytes of `data` to `buf`.
pub fn push_bytes(buf: &mut Vec<u8>, data: &[u8])
    ensures
        final(buf)@ == old(buf)@ + data@,
{
    buf.extend_from_slice(data);
}

/// Appends the frame of `data` to `buf`.
pub fn push_frame(buf: &mut Vec<u8>, data: &[u8])
    ensures
        final(buf)@ == old(buf)@ + frame(data@),
{
    push_decimal(buf, data.len() as u64);
    buf.push(FRAME_SEPARATOR);
    push_bytes(buf, data);
}

/// Whether two texts are the same, character for character.
pub fn same_text(a: &str, b: &str) -> (same: bool)
    ensures
        same == (a@ == b@),
{
    let x = a.as_bytes();
    let y = b.as_bytes();
    if x.len() != y.len() {
        return false;
    }
    let mut i: usize = 0;
    while i < x.len()
        invariant
            i <= x.len(),
            x.len() == y.len(),
            x@ == encode_utf8(a@),
            y@ == encode_utf8(b@),
            forall|k: int| 0 <= k < i ==> x@[k] == y@[k],
        decreases x.len() - i,
    {
        if x[i] != y[i] {
            return false;
        }
        i += 1;
    }
    proof {
        assert(x@ =~= y@);
        lemma_utf8_injective(a@, b@);
    }
    true
}

/// The text of the digit `d`.
fn digit_text(d: u8) -> (text: &'static str)
    requires
        d < 10,
    ensures
        text@ == seq![digit_byte(d as nat) as char],
{
    proof {
        reveal_strlit("0");
        reveal_strlit("1");
        reveal_strlit("2");
        reveal_strlit("3");
        reveal_strlit("4");
        reveal_strlit("5");
        reveal_strlit("6");
        reveal_strlit("7");
        reveal_strlit("8");
        reveal_strlit("9");
    }
    let text = match d {
        0 => "0",
        1 => "1",
        2 => "2",
        3 => "3",
        4 => "4",
        5 => "5",
        6 => "6",
        7 => "7",
        8 => "8",
        _ => "9",
    };
    text
}

/// Appends the decimal text of `n` to `text`.
pub fn push_decimal_text(text: &mut String, n: u64)
    ensures
        final(text)@ == old(text)@ + decimal_text(n as nat),
    decreases n,
{
    if n >= 10 {
        push_decimal_text(text, n / 10);
    }
    text.append(digit_text((n % 10) as u8));
}

/// Appends `bytes` as a list in square brackets to `text`.
pub fn push_byte_list_text(text: &mut String, bytes: &[u8])
    ensures
        final(text)@ == old(text)@ + byte_list_text(bytes@),
{
    text.append("[");
    let mut i: usize = 0;
    while i < bytes.len()
        invariant
            i <= bytes.len(),
            text@ == old(text)@ + "["@ + byte_items_text(bytes@.take(i as int)),
        decreases bytes.len() - i,
    {
        if i > 0 {
            text.append(", ");
        }
        push_decimal_text(text, bytes[i] as u64);
        assert(bytes@.take(i + 1).drop_last() =~= bytes@.take(i as int));
        i += 1;
    }
    assert(bytes@.take(i as int) =~= bytes@);
    text.append("]");
}

} // verus!
