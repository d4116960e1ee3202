//! The JSON serialization of a message, written byte for byte: an
//! object holding the `headers` map in first-occurrence order and the
//! `rest` body string.
//!
//! String contents are escaped as JSON requires: quote and backslash
//! get a backslash, the named control characters their short escapes,
//! and the remaining control bytes a lowercase `\u00..` form. All other
//! bytes pass through unchanged, so any UTF-8 text stays intact.

use vstd::prelude::*;
use vstd::utf8::encode_utf8;
use crate::message::{Message, MessageView};
use crate::text::str_bytes;

verus! {

/// The lowercase hexadecimal digit for `n`.
pub open spec fn hex_digit(n: int) -> u8 {
    if n < 10 {
        (0x30 + n) as u8
    } else {
        (0x57 + n) as u8
    }
}

/// The escape of one byte inside a JSON string.
pub open spec fn esc_byte(b: u8) -> Seq<u8> {
    if b == 0x22 {  // " -> \"
        seq![0x5cu8, 0x22u8]
    } else if b == 0x5c {  // \ -> \\
        seq![0x5cu8, 0x5cu8]
    } else if b == 0x08 {  // backspace -> \b
        seq![0x5cu8, 0x62u8]
    } else if b == 0x09 {  // tab -> \t
        seq![0x5cu8, 0x74u8]
    } else if b == 0x0a {  // line feed -> \n
        seq![0x5cu8, 0x6eu8]
    } else if b == 0x0c {  // form feed -> \f
        seq![0x5cu8, 0x66u8]
    } else if b == 0x0d {  // carriage return -> \r
        seq![0x5cu8, 0x72u8]
    } else if b < 0x20 {  // other control bytes -> \u00..
        seq![0x5cu8, 0x75u8, 0x30u8, 0x30u8, hex_digit(b as int / 16), hex_digit(b as int % 16)]
    } else {
        seq![b]
    }
}

/// The escaped contents of a JSON string.
pub open spec fn json_escape(s: Seq<u8>) -> Seq<u8>
    decreases s.len(),
{
    if s.len() == 0 {
        Seq::empty()
    } else {
        json_escape(s.drop_last()) + esc_byte(s.last())
    }
}

/// A JSON string: the escaped contents between quotes.
pub open spec fn json_string(s: Seq<u8>) -> Seq<u8> {
    seq![0x22u8] + json_escape(s) + seq![0x22u8]
}

/// One `"name":"value"` member.
pub open spec fn json_entry(p: (Seq<u8>, Seq<u8>)) -> Seq<u8> {
    json_string(p.0) + seq![0x3au8] + json_string(p.1)
}

/// The members of the headers object, comma-separated, in order.
pub open spec fn json_headers(h: Seq<(Seq<u8>, Seq<u8>)>) -> Seq<u8>
    decreases h.len(),
{
    if h.len() == 0 {
        Seq::empty()
    } else if h.len() == 1 {
        json_entry(h[0])
    } else {
        json_headers(h.drop_last()) + seq![0x2cu8] + json_entry(h.last())
    }
}

/// The whole message as one JSON object.
pub open spec fn json_message(m: MessageView) -> Seq<u8> {
    encode_utf8("{\"headers\":{"@) + json_headers(m.headers) + encode_utf8("},\"rest\":"@)
        + json_string(m.rest) + encode_utf8("}"@)
}

/// Appends the escape of one byte.
fn push_escaped_byte(out: &mut Vec<u8>, b: u8)
    ensures
        final(out)@ == old(out)@ + esc_byte(b),
{
    let ghost pre = out@;
    if b == 0x22 {
        out.push(0x5c);
        out.push(0x22);
    } else if b == 0x5c {
        out.push(0x5c);
        out.push(0x5c);
    } else if b == 0x08 {
        out.push(0x5c);
        out.push(0x62);
    } else if b == 0x09 {
        out.push(0x5c);
        out.push(0x74);
    } else if b == 0x0a {
        out.push(0x5c);
        out.push(0x6e);
    } else if b == 0x0c {
        out.push(0x5c);
        out.push(0x66);
    } else if b == 0x0d {
        out.push(0x5c);
        out.push(0x72);
    } else if b < 0x20 {
        out.push(0x5c);
        out.push(0x75);
        out.push(0x30);
        out.push(0x30);
        let hi = b / 16;
        let lo = b % 16;
        out.push(if hi < 10 { 0x30 + hi } else { 0x57 + hi });
        out.push(if lo < 10 { 0x30 + lo } else { 0x57 + lo });
    } else {
        out.push(b);
    }
    proof {
        assert(out@ =~= pre + esc_byte(b));
    }
}

/// Appends a quoted, escaped JSON string.
fn push_json_string(out: &mut Vec<u8>, s: &[u8])
    ensures
        final(out)@ == old(out)@ + json_string(s@),
{
    let ghost pre = out@;
    out.push(0x22);
    let n = s.len();
    let mut i: usize = 0;
    while i < n
        invariant
            0 <= i <= n,
            n == s@.len(),
            out@ == pre + seq![0x22u8] + json_escape(s@.take(i as int)),
        decreases n - i,
    {
        push_escaped_byte(out, s[i]);
        proof {
            assert(s@.take(i + 1).drop_last() =~= s@.take(i as int));
            assert(s@.take(i + 1).last() == s@[i as int]);
        }
        i = i + 1;
    }
    out.push(0x22);
    proof {
        assert(s@.take(n as int) =~= s@);
        assert(out@ =~= pre + json_string(s@));
    }
}

/// Serializes a message to its JSON bytes.
pub fn json_of_message(m: &Message) -> (r: Vec<u8>)
    ensures
        r@ == json_message(m@),
{
    let mut out = str_bytes("{\"headers\":{");
    let ghost opening = out@;
    let n = m.header_count();
    let mut i: usize = 0;
    while i < n
        invariant
            0 <= i <= n,
            n == m@.headers.len(),
            out@ == opening + json_headers(m@.headers.take(i as int)),
        decreases n - i,
    {
        let ghost pre = out@;
        if i > 0 {
            out.push(0x2c);
        }
        let (name, value) = m.header_at(i);
        push_json_string(&mut out, name.as_slice());
        out.push(0x3a);
        push_json_string(&mut out, value.as_slice());
        proof {
            let h = m@.headers;
            assert(h.take(i + 1).drop_last() =~= h.take(i as int));
            assert(h.take(i + 1).last() == h[i as int]);
            if i == 0 {
                assert(out@ =~= opening + json_entry(h[0]));
                assert(json_headers(h.take(1)) == json_entry(h.take(1)[0]));
            } else {
                assert(out@ =~= opening + (json_headers(h.take(i as int)) + seq![0x2cu8]
                    + json_entry(h[i as int])));
            }
        }
        i = i + 1;
    }
    proof {
        assert(m@.headers.take(n as int) =~= m@.headers);
    }
    let mut part = str_bytes("},\"rest\":");
    out.append(&mut part);
    push_json_string(&mut out, m.rest().as_slice());
    let mut part = str_bytes("}");
    out.append(&mut part);
    proof {
        assert(out@ =~= json_message(m@));
    }
    out
}

} // verus!
