//! The JSON form of the wire commands.
//!
//! Each command is one JSON object in a fixed, canonical shape (the
//! variant name tags the object), carried as UTF-8 bytes. The spec
//! functions here define that shape byte by byte; the encoder produces
//! exactly it and the parser accepts exactly it, so that encoding then
//! decoding yields the original command.
//!
//! In a JSON string the quote and the backslash are escaped with a
//! backslash, and a control byte below 0x20 is written `\u00XX` with two
//! lowercase hex digits; every other byte stands for itself.

use vstd::prelude::*;
use vstd::string::StringSliceAdditionalSpecFns;
use vstd::utf8::encode_utf8;

use vstd::utf8::decode_utf8;
use vstd::utf8::valid_utf8;

use crate::command::c2s;
use crate::command::s2c;
use crate::login::LoginRequest;
use crate::login::LoginRequestView;
use crate::message::DateTime;
use crate::message::Message;
use crate::message::MessageView;

verus! {

/// The UTF-8 bytes of a literal piece of JSON text.
pub open spec fn lit(s: &str) -> Seq<u8> {
    s.spec_bytes()
}

/// The lowercase hex digit for `n` (`n < 16`).
pub open spec fn hexdig(n: u8) -> u8 {
    if n < 10 {
        (48 + n) as u8
    } else {
        (87 + n) as u8
    }
}

/// True for the bytes [`hexdig`] produces: `0`-`9` and `a`-`f`.
pub open spec fn is_hex(b: u8) -> bool {
    (48 <= b <= 57) || (97 <= b <= 102)
}

/// The value of a hex digit byte.
pub open spec fn hexval(b: u8) -> u8
    recommends
        is_hex(b),
{
    if 48 <= b <= 57 {
        (b - 48) as u8
    } else {
        (b - 87) as u8
    }
}

/// The escaped form of one byte of string content: quote and backslash
/// get a backslash, a control byte becomes `\u00XX`, anything else
/// stands for itself.
pub open spec fn esc_byte(b: u8) -> Seq<u8> {
    if b == 34 || b == 92 {
        seq![92u8, b]
    } else if b < 0x20 {
        seq![92u8, 117u8, 48u8, 48u8, hexdig(b / 16), hexdig(b % 16)]
    } else {
        seq![b]
    }
}

/// The escaped form of string content bytes.
pub open spec fn esc(s: Seq<u8>) -> Seq<u8>
    decreases s.len(),
{
    if s.len() == 0 {
        Seq::<u8>::empty()
    } else {
        esc_byte(s[0]) + esc(s.drop_first())
    }
}

/// The JSON string form of a character sequence: a quote, the escaped
/// UTF-8 bytes, a quote.
pub open spec fn json_string(s: Seq<char>) -> Seq<u8> {
    seq![34u8] + esc(encode_utf8(s)) + seq![34u8]
}

/// Reads escaped string content up to and including the closing quote:
/// the unescaped content bytes and what follows the quote. `None` when
/// the bytes are not in the exact form the encoder produces.
pub open spec fn unesc(b: Seq<u8>) -> Option<(Seq<u8>, Seq<u8>)>
    decreases b.len(),
{
    if b.len() == 0 {
        None
    } else if b[0] == 34 {
        Some((Seq::<u8>::empty(), b.drop_first()))
    } else if b[0] == 92 {
        if b.len() >= 2 && (b[1] == 34 || b[1] == 92) {
            match unesc(b.skip(2)) {
                Some((c, r)) => Some((seq![b[1]] + c, r)),
                None => None,
            }
        } else if b.len() >= 6 && b[1] == 117 && b[2] == 48 && b[3] == 48 && is_hex(b[4]) && is_hex(
            b[5],
        ) && hexval(b[4]) * 16 + hexval(b[5]) < 0x20 {
            match unesc(b.skip(6)) {
                Some((c, r)) => Some((seq![(hexval(b[4]) * 16 + hexval(b[5])) as u8] + c, r)),
                None => None,
            }
        } else {
            None
        }
    } else if b[0] < 0x20 {
        None
    } else {
        match unesc(b.drop_first()) {
            Some((c, r)) => Some((seq![b[0]] + c, r)),
            None => None,
        }
    }
}

/// Reads a whole JSON string: an opening quote, then [`unesc`].
pub open spec fn parse_jstring(b: Seq<u8>) -> Option<(Seq<u8>, Seq<u8>)> {
    if b.len() >= 1 && b[0] == 34 {
        unesc(b.drop_first())
    } else {
        None
    }
}

/// Drops the prefix `p` from `b`; `None` when `b` does not start with it.
pub open spec fn strip(b: Seq<u8>, p: Seq<u8>) -> Option<Seq<u8>> {
    if p.len() <= b.len() && b.take(p.len() as int) == p {
        Some(b.skip(p.len() as int))
    } else {
        None
    }
}

/// Stripping a prefix off itself leaves the rest.
pub proof fn lemma_strip_prefix(p: Seq<u8>, rest: Seq<u8>)
    ensures
        strip(p + rest, p) == Some(rest),
{
    assert((p + rest).take(p.len() as int) =~= p);
    assert((p + rest).skip(p.len() as int) =~= rest);
}

/// The two hex digits of a control byte read back as that byte.
proof fn lemma_hex_round(x: u8)
    requires
        x < 0x20,
    ensures
        is_hex(hexdig(x / 16)),
        is_hex(hexdig(x % 16)),
        hexval(hexdig(x / 16)) * 16 + hexval(hexdig(x % 16)) == x,
{
    assert(x / 16 < 16 && x % 16 < 16);
    assert((x / 16) * 16 + x % 16 == x) by (nonlinear_arith)
        requires
            x < 0x20,
    ;
}

/// Escaping distributes over concatenation.
pub proof fn lemma_esc_concat(a: Seq<u8>, b: Seq<u8>)
    ensures
        esc(a + b) == esc(a) + esc(b),
    decreases a.len(),
{
    if a.len() == 0 {
        assert(a + b =~= b);
        assert(esc(a) + esc(b) =~= esc(b));
    } else {
        lemma_esc_concat(a.drop_first(), b);
        assert((a + b).drop_first() =~= a.drop_first() + b);
        assert(esc(a + b) =~= esc_byte(a[0]) + (esc(a.drop_first()) + esc(b)));
        assert(esc(a) + esc(b) =~= esc_byte(a[0]) + (esc(a.drop_first()) + esc(b)));
    }
}

/// Unescaping inverts escaping: escaped content followed by the closing
/// quote reads back as the original content, leaving the rest.
pub proof fn lemma_unesc_esc(s: Seq<u8>, rest: Seq<u8>)
    ensures
        unesc(esc(s) + seq![34u8] + rest) == Some((s, rest)),
    decreases s.len(),
{
    let b = esc(s) + seq![34u8] + rest;
    if s.len() == 0 {
        assert(b =~= seq![34u8] + rest);
        assert(b[0] == 34);
        assert(b.drop_first() =~= rest);
        assert(s =~= Seq::<u8>::empty());
    } else {
        let x = s[0];
        let tail = s.drop_first();
        let brest = esc(tail) + seq![34u8] + rest;
        lemma_unesc_esc(tail, rest);
        assert(esc(s) == esc_byte(x) + esc(tail));
        assert(b =~= esc_byte(x) + brest);
        if x == 34 || x == 92 {
            assert(b =~= seq![92u8, x] + brest);
            assert(b[0] == 92 && b[1] == x && b.len() >= 2);
            assert(b.skip(2) =~= brest);
            assert(seq![b[1]] + tail =~= s);
        } else if x < 0x20 {
            let h1 = hexdig(x / 16);
            let h2 = hexdig(x % 16);
            lemma_hex_round(x);
            assert(b =~= seq![92u8, 117u8, 48u8, 48u8, h1, h2] + brest);
            assert(b[0] == 92 && b[1] == 117 && b[2] == 48 && b[3] == 48 && b[4] == h1 && b[5]
                == h2 && b.len() >= 6);
            assert(!(b[1] == 34 || b[1] == 92));
            assert(b.skip(6) =~= brest);
            assert(seq![(hexval(b[4]) * 16 + hexval(b[5])) as u8] + tail =~= s);
        } else {
            assert(b =~= seq![x] + brest);
            assert(b[0] == x && x != 34 && x != 92 && x >= 0x20);
            assert(b.drop_first() =~= brest);
            assert(seq![b[0]] + tail =~= s);
        }
    }
}

/// A JSON string followed by anything reads back as the UTF-8 bytes of
/// the original characters, leaving the rest.
pub proof fn lemma_parse_jstring(s: Seq<char>, rest: Seq<u8>)
    ensures
        parse_jstring(json_string(s) + rest) == Some((encode_utf8(s), rest)),
{
    let b = json_string(s) + rest;
    assert(b[0] == 34);
    assert(b.drop_first() =~= esc(encode_utf8(s)) + seq![34u8] + rest);
    lemma_unesc_esc(encode_utf8(s), rest);
}


/// The decimal digit byte for the low decimal digit of `n`.
pub open spec fn dig(n: int) -> u8 {
    (48 + (n % 10)) as u8
}

/// True for a decimal digit byte.
pub open spec fn is_digit(b: u8) -> bool {
    48 <= b <= 57
}

/// The value of a decimal digit byte.
pub open spec fn dval(b: u8) -> int
    recommends
        is_digit(b),
{
    b - 48
}

/// The RFC 3339 text of an instant, `YYYY-MM-DDThh:mm:ssZ`: twenty
/// bytes, zero-padded decimal fields.
pub open spec fn fmt_datetime(dt: DateTime) -> Seq<u8> {
    seq![
        dig(dt.year as int / 1000),
        dig(dt.year as int / 100),
        dig(dt.year as int / 10),
        dig(dt.year as int),
        45u8,
        dig(dt.month as int / 10),
        dig(dt.month as int),
        45u8,
        dig(dt.day as int / 10),
        dig(dt.day as int),
        84u8,
        dig(dt.hour as int / 10),
        dig(dt.hour as int),
        58u8,
        dig(dt.minute as int / 10),
        dig(dt.minute as int),
        58u8,
        dig(dt.second as int / 10),
        dig(dt.second as int),
        90u8,
    ]
}

/// True when the first twenty bytes of `b` have the digit/separator
/// shape of [`fmt_datetime`].
pub open spec fn datetime_shape(b: Seq<u8>) -> bool {
    &&& b.len() >= 20
    &&& is_digit(b[0]) && is_digit(b[1]) && is_digit(b[2]) && is_digit(b[3])
    &&& b[4] == 45
    &&& is_digit(b[5]) && is_digit(b[6])
    &&& b[7] == 45
    &&& is_digit(b[8]) && is_digit(b[9])
    &&& b[10] == 84
    &&& is_digit(b[11]) && is_digit(b[12])
    &&& b[13] == 58
    &&& is_digit(b[14]) && is_digit(b[15])
    &&& b[16] == 58
    &&& is_digit(b[17]) && is_digit(b[18])
    &&& b[19] == 90
}

/// The instant whose text the first twenty bytes of `b` are.
pub open spec fn datetime_of(b: Seq<u8>) -> DateTime
    recommends
        datetime_shape(b),
{
    DateTime {
        year: (dval(b[0]) * 1000 + dval(b[1]) * 100 + dval(b[2]) * 10 + dval(b[3])) as u16,
        month: (dval(b[5]) * 10 + dval(b[6])) as u8,
        day: (dval(b[8]) * 10 + dval(b[9])) as u8,
        hour: (dval(b[11]) * 10 + dval(b[12])) as u8,
        minute: (dval(b[14]) * 10 + dval(b[15])) as u8,
        second: (dval(b[17]) * 10 + dval(b[18])) as u8,
    }
}

/// Reads an instant in the exact form [`fmt_datetime`] produces, and
/// only a well-formed one; `None` otherwise.
pub open spec fn parse_datetime(b: Seq<u8>) -> Option<(DateTime, Seq<u8>)> {
    if datetime_shape(b) && datetime_of(b).valid() {
        Some((datetime_of(b), b.skip(20)))
    } else {
        None
    }
}

/// A two-digit zero-padded field reads back as itself.
proof fn lemma_two_digits(n: int)
    requires
        0 <= n < 100,
    ensures
        dval(dig(n / 10)) * 10 + dval(dig(n)) == n,
        is_digit(dig(n / 10)),
        is_digit(dig(n)),
{
    assert((n / 10) % 10 * 10 + n % 10 == n) by (nonlinear_arith)
        requires
            0 <= n < 100,
    ;
}

/// A four-digit zero-padded field reads back as itself.
proof fn lemma_four_digits(n: int)
    requires
        0 <= n < 10000,
    ensures
        dval(dig(n / 1000)) * 1000 + dval(dig(n / 100)) * 100 + dval(dig(n / 10)) * 10 + dval(
            dig(n),
        ) == n,
        is_digit(dig(n / 1000)),
        is_digit(dig(n / 100)),
        is_digit(dig(n / 10)),
        is_digit(dig(n)),
{
    assert((n / 1000) % 10 * 1000 + (n / 100) % 10 * 100 + (n / 10) % 10 * 10 + n % 10 == n)
        by (nonlinear_arith)
        requires
            0 <= n < 10000,
    ;
}

/// The text of a well-formed instant followed by anything reads back as
/// that instant, leaving the rest.
pub proof fn lemma_parse_datetime(dt: DateTime, rest: Seq<u8>)
    requires
        dt.valid(),
    ensures
        parse_datetime(fmt_datetime(dt) + rest) == Some((dt, rest)),
{
    let b = fmt_datetime(dt) + rest;
    lemma_four_digits(dt.year as int);
    lemma_two_digits(dt.month as int);
    lemma_two_digits(dt.day as int);
    lemma_two_digits(dt.hour as int);
    lemma_two_digits(dt.minute as int);
    lemma_two_digits(dt.second as int);
    assert(datetime_shape(b));
    assert(datetime_of(b) == dt);
    assert(b.skip(20) =~= rest);
}


/// The JSON text of a boolean.
pub open spec fn enc_bool(v: bool) -> Seq<u8> {
    if v {
        lit("true")
    } else {
        lit("false")
    }
}

/// Reads a boolean in the form [`enc_bool`] produces.
pub open spec fn parse_bool(b: Seq<u8>) -> Option<(bool, Seq<u8>)> {
    match strip(b, lit("true")) {
        Some(r) => Some((true, r)),
        None => match strip(b, lit("false")) {
            Some(r) => Some((false, r)),
            None => None,
        },
    }
}

/// The JSON object form of a message:
/// `{"sender":…,"date_time":"…","text":…}`.
pub open spec fn enc_message(m: MessageView) -> Seq<u8> {
    lit("{\"sender\":") + json_string(m.sender) + lit(",\"date_time\":\"") + fmt_datetime(
        m.date_time,
    ) + lit("\",\"text\":") + json_string(m.text) + lit("}")
}

/// Reads a message object in the exact form [`enc_message`] produces.
pub open spec fn parse_message(b: Seq<u8>) -> Option<(MessageView, Seq<u8>)> {
    match strip(b, lit("{\"sender\":")) {
        None => None,
        Some(b1) => match parse_jstring(b1) {
            None => None,
            Some((sb, b2)) => if !valid_utf8(sb) {
                None
            } else {
                match strip(b2, lit(",\"date_time\":\"")) {
                    None => None,
                    Some(b3) => match parse_datetime(b3) {
                        None => None,
                        Some((dt, b4)) => match strip(b4, lit("\",\"text\":")) {
                            None => None,
                            Some(b5) => match parse_jstring(b5) {
                                None => None,
                                Some((tb, b6)) => if !valid_utf8(tb) {
                                    None
                                } else {
                                    match strip(b6, lit("}")) {
                                        None => None,
                                        Some(b7) => Some(
                                            (
                                                MessageView {
                                                    sender: decode_utf8(sb),
                                                    date_time: dt,
                                                    text: decode_utf8(tb),
                                                },
                                                b7,
                                            ),
                                        ),
                                    }
                                },
                            },
                        },
                    },
                }
            },
        },
    }
}

/// The JSON text of a client-to-server command.
pub open spec fn enc_c2s(c: c2s::CommandView) -> Seq<u8> {
    match c {
        c2s::CommandView::Login(r) => lit("{\"Login\":{\"is_registering\":") + enc_bool(
            r.is_registering,
        ) + lit(",\"nickname\":") + json_string(r.nickname) + lit(",\"password\":")
            + json_string(r.password) + lit("}}"),
        c2s::CommandView::SendMessage(t) => lit("{\"SendMessage\":") + json_string(t) + lit("}"),
    }
}

/// Reads a whole client-to-server command in the exact form
/// [`enc_c2s`] produces; the input must hold nothing else.
pub open spec fn parse_c2s(b: Seq<u8>) -> Option<c2s::CommandView> {
    match strip(b, lit("{\"Login\":{\"is_registering\":")) {
        Some(b1) => match parse_bool(b1) {
            None => None,
            Some((reg, b2)) => match strip(b2, lit(",\"nickname\":")) {
                None => None,
                Some(b3) => match parse_jstring(b3) {
                    None => None,
                    Some((nb, b4)) => if !valid_utf8(nb) {
                        None
                    } else {
                        match strip(b4, lit(",\"password\":")) {
                            None => None,
                            Some(b5) => match parse_jstring(b5) {
                                None => None,
                                Some((pb, b6)) => if !valid_utf8(pb) {
                                    None
                                } else {
                                    match strip(b6, lit("}}")) {
                                        Some(b7) => if b7.len() == 0 {
                                            Some(
                                                c2s::CommandView::Login(
                                                    LoginRequestView {
                                                        is_registering: reg,
                                                        nickname: decode_utf8(nb),
                                                        password: decode_utf8(pb),
                                                    },
                                                ),
                                            )
                                        } else {
                                            None
                                        },
                                        None => None,
                                    }
                                },
                            },
                        }
                    },
                },
            },
        },
        None => match strip(b, lit("{\"SendMessage\":")) {
            Some(b1) => match parse_jstring(b1) {
                None => None,
                Some((tb, b2)) => if !valid_utf8(tb) {
                    None
                } else {
                    match strip(b2, lit("}")) {
                        Some(b3) => if b3.len() == 0 {
                            Some(c2s::CommandView::SendMessage(decode_utf8(tb)))
                        } else {
                            None
                        },
                        None => None,
                    }
                },
            },
            None => None,
        },
    }
}

/// The JSON text of a server-to-client command.
pub open spec fn enc_s2c(c: s2c::CommandView) -> Seq<u8> {
    match c {
        s2c::CommandView::LoginSuccess => lit("\"LoginSuccess\""),
        s2c::CommandView::Error { description } => lit("{\"Error\":{\"description\":")
            + json_string(description) + lit("}}"),
        s2c::CommandView::Warning { description } => lit("{\"Warning\":{\"description\":")
            + json_string(description) + lit("}}"),
        s2c::CommandView::MessageRecv { message } => lit("{\"MessageRecv\":{\"message\":")
            + enc_message(message) + lit("}}"),
    }
}

/// Reads a tagged object with one string field, used for the `Error` and
/// `Warning` shapes: the tag prefix, a JSON string, then `}}`.
pub open spec fn parse_described(b1: Seq<u8>) -> Option<Seq<char>> {
    match parse_jstring(b1) {
        None => None,
        Some((db, b2)) => if !valid_utf8(db) {
            None
        } else {
            match strip(b2, lit("}}")) {
                Some(b3) => if b3.len() == 0 {
                    Some(decode_utf8(db))
                } else {
                    None
                },
                None => None,
            }
        },
    }
}

/// Reads a whole server-to-client command in the exact form
/// [`enc_s2c`] produces; the input must hold nothing else.
pub open spec fn parse_s2c(b: Seq<u8>) -> Option<s2c::CommandView> {
    match strip(b, lit("\"LoginSuccess\"")) {
        Some(b1) => if b1.len() == 0 {
            Some(s2c::CommandView::LoginSuccess)
        } else {
            None
        },
        None => match strip(b, lit("{\"Error\":{\"description\":")) {
            Some(b1) => match parse_described(b1) {
                Some(d) => Some(s2c::CommandView::Error { description: d }),
                None => None,
            },
            None => match strip(b, lit("{\"Warning\":{\"description\":")) {
                Some(b1) => match parse_described(b1) {
                    Some(d) => Some(s2c::CommandView::Warning { description: d }),
                    None => None,
                },
                None => match strip(b, lit("{\"MessageRecv\":{\"message\":")) {
                    Some(b1) => match parse_message(b1) {
                        None => None,
                        Some((m, b2)) => match strip(b2, lit("}}")) {
                            Some(b3) => if b3.len() == 0 {
                                Some(s2c::CommandView::MessageRecv { message: m })
                            } else {
                                None
                            },
                            None => None,
                        },
                    },
                    None => None,
                },
            },
        },
    }
}


/// A prefix that disagrees with `b` at one position does not strip.
proof fn lemma_strip_mismatch(b: Seq<u8>, p: Seq<u8>, i: int)
    requires
        0 <= i < p.len(),
        i < b.len(),
        b[i] != p[i],
    ensures
        strip(b, p) is None,
{
    if p.len() <= b.len() && b.take(p.len() as int) == p {
        assert(b.take(p.len() as int)[i] == b[i]);
    }
}

/// Concrete lengths and distinguishing bytes of the tag literals, used
/// to show that the parser's dispatch never confuses two variants.
proof fn lemma_tag_bytes()
    ensures
        lit("true").len() == 4 && lit("true")[0] == 116,
        lit("false").len() == 5 && lit("false")[0] == 102,
        lit("{\"Login\":{\"is_registering\":").len() == 27,
        lit("{\"Login\":{\"is_registering\":")[2] == 76,
        lit("{\"SendMessage\":").len() == 15 && lit("{\"SendMessage\":")[2] == 83,
        lit("\"LoginSuccess\"").len() == 14 && lit("\"LoginSuccess\"")[0] == 34,
        lit("{\"Error\":{\"description\":").len() == 24,
        lit("{\"Error\":{\"description\":")[0] == 123,
        lit("{\"Error\":{\"description\":")[2] == 69,
        lit("{\"Warning\":{\"description\":").len() == 26,
        lit("{\"Warning\":{\"description\":")[0] == 123,
        lit("{\"Warning\":{\"description\":")[2] == 87,
        lit("{\"MessageRecv\":{\"message\":").len() == 26,
        lit("{\"MessageRecv\":{\"message\":")[0] == 123,
        lit("{\"MessageRecv\":{\"message\":")[2] == 77,
{
    reveal_strlit("true");
    reveal_strlit("false");
    reveal_strlit("{\"Login\":{\"is_registering\":");
    reveal_strlit("{\"SendMessage\":");
    reveal_strlit("\"LoginSuccess\"");
    reveal_strlit("{\"Error\":{\"description\":");
    reveal_strlit("{\"Warning\":{\"description\":");
    reveal_strlit("{\"MessageRecv\":{\"message\":");
    vstd::utf8::is_ascii_chars_encode_utf8("true"@);
    vstd::utf8::is_ascii_chars_encode_utf8("false"@);
    vstd::utf8::is_ascii_chars_encode_utf8("{\"Login\":{\"is_registering\":"@);
    vstd::utf8::is_ascii_chars_encode_utf8("{\"SendMessage\":"@);
    vstd::utf8::is_ascii_chars_encode_utf8("\"LoginSuccess\""@);
    vstd::utf8::is_ascii_chars_encode_utf8("{\"Error\":{\"description\":"@);
    vstd::utf8::is_ascii_chars_encode_utf8("{\"Warning\":{\"description\":"@);
    vstd::utf8::is_ascii_chars_encode_utf8("{\"MessageRecv\":{\"message\":"@);
}

/// A boolean's text followed by anything reads back as that boolean.
proof fn lemma_parse_bool(v: bool, rest: Seq<u8>)
    ensures
        parse_bool(enc_bool(v) + rest) == Some((v, rest)),
{
    lemma_tag_bytes();
    let b = enc_bool(v) + rest;
    if v {
        lemma_strip_prefix(lit("true"), rest);
    } else {
        assert(b[0] == 102);
        lemma_strip_mismatch(b, lit("true"), 0);
        lemma_strip_prefix(lit("false"), rest);
    }
}

/// A message object's text followed by anything reads back as that
/// message, leaving the rest.
pub proof fn lemma_parse_message(m: MessageView, rest: Seq<u8>)
    requires
        m.date_time.valid(),
    ensures
        parse_message(enc_message(m) + rest) == Some((m, rest)),
{
    let t6 = lit("}") + rest;
    let t5 = json_string(m.text) + t6;
    let t4 = lit("\",\"text\":") + t5;
    let t3 = fmt_datetime(m.date_time) + t4;
    let t2 = lit(",\"date_time\":\"") + t3;
    let t1 = json_string(m.sender) + t2;
    let b = enc_message(m) + rest;
    assert(b =~= lit("{\"sender\":") + t1);
    lemma_strip_prefix(lit("{\"sender\":"), t1);
    lemma_parse_jstring(m.sender, t2);
    vstd::utf8::encode_utf8_valid_utf8(m.sender);
    vstd::utf8::encode_utf8_decode_utf8(m.sender);
    lemma_strip_prefix(lit(",\"date_time\":\""), t3);
    lemma_parse_datetime(m.date_time, t4);
    lemma_strip_prefix(lit("\",\"text\":"), t5);
    lemma_parse_jstring(m.text, t6);
    vstd::utf8::encode_utf8_valid_utf8(m.text);
    vstd::utf8::encode_utf8_decode_utf8(m.text);
    lemma_strip_prefix(lit("}"), rest);
}

/// Round trip for client-to-server commands: the encoded text parses
/// back to the original command.
pub proof fn lemma_c2s_round_trip(c: c2s::CommandView)
    ensures
        parse_c2s(enc_c2s(c)) == Some(c),
{
    lemma_tag_bytes();
    let b = enc_c2s(c);
    match c {
        c2s::CommandView::Login(r) => {
            let t5 = lit("}}") + Seq::<u8>::empty();
            let t4 = json_string(r.password) + t5;
            let t3 = lit(",\"password\":") + t4;
            let t2 = json_string(r.nickname) + t3;
            let t1 = lit(",\"nickname\":") + t2;
            let t0 = enc_bool(r.is_registering) + t1;
            assert(b =~= lit("{\"Login\":{\"is_registering\":") + t0);
            lemma_strip_prefix(lit("{\"Login\":{\"is_registering\":"), t0);
            lemma_parse_bool(r.is_registering, t1);
            lemma_strip_prefix(lit(",\"nickname\":"), t2);
            lemma_parse_jstring(r.nickname, t3);
            vstd::utf8::encode_utf8_valid_utf8(r.nickname);
            vstd::utf8::encode_utf8_decode_utf8(r.nickname);
            lemma_strip_prefix(lit(",\"password\":"), t4);
            lemma_parse_jstring(r.password, t5);
            vstd::utf8::encode_utf8_valid_utf8(r.password);
            vstd::utf8::encode_utf8_decode_utf8(r.password);
            lemma_strip_prefix(lit("}}"), Seq::<u8>::empty());
        },
        c2s::CommandView::SendMessage(t) => {
            let t2 = lit("}") + Seq::<u8>::empty();
            let t1 = json_string(t) + t2;
            assert(b =~= lit("{\"SendMessage\":") + t1);
            assert(b[2] == 83);
            lemma_strip_mismatch(b, lit("{\"Login\":{\"is_registering\":"), 2);
            lemma_strip_prefix(lit("{\"SendMessage\":"), t1);
            lemma_parse_jstring(t, t2);
            vstd::utf8::encode_utf8_valid_utf8(t);
            vstd::utf8::encode_utf8_decode_utf8(t);
            lemma_strip_prefix(lit("}"), Seq::<u8>::empty());
        },
    }
}

/// Round trip for the tagged one-string-field shape.
proof fn lemma_parse_described(d: Seq<char>)
    ensures
        parse_described(json_string(d) + (lit("}}") + Seq::<u8>::empty())) == Some(d),
{
    let t1 = lit("}}") + Seq::<u8>::empty();
    lemma_parse_jstring(d, t1);
    vstd::utf8::encode_utf8_valid_utf8(d);
    vstd::utf8::encode_utf8_decode_utf8(d);
    lemma_strip_prefix(lit("}}"), Seq::<u8>::empty());
}

/// Round trip for server-to-client commands: the encoded text parses
/// back to the original command. A `MessageRecv` carries a well-formed
/// instant, which the parser insists on.
pub proof fn lemma_s2c_round_trip(c: s2c::CommandView)
    requires
        c matches s2c::CommandView::MessageRecv { message } ==> message.date_time.valid(),
    ensures
        parse_s2c(enc_s2c(c)) == Some(c),
{
    lemma_tag_bytes();
    let b = enc_s2c(c);
    match c {
        s2c::CommandView::LoginSuccess => {
            assert(b =~= lit("\"LoginSuccess\"") + Seq::<u8>::empty());
            lemma_strip_prefix(lit("\"LoginSuccess\""), Seq::<u8>::empty());
        },
        s2c::CommandView::Error { description } => {
            let t1 = json_string(description) + (lit("}}") + Seq::<u8>::empty());
            assert(b =~= lit("{\"Error\":{\"description\":") + t1);
            assert(b[0] == 123);
            lemma_strip_mismatch(b, lit("\"LoginSuccess\""), 0);
            lemma_strip_prefix(lit("{\"Error\":{\"description\":"), t1);
            lemma_parse_described(description);
        },
        s2c::CommandView::Warning { description } => {
            let t1 = json_string(description) + (lit("}}") + Seq::<u8>::empty());
            assert(b =~= lit("{\"Warning\":{\"description\":") + t1);
            assert(b[0] == 123 && b[2] == 87);
            lemma_strip_mismatch(b, lit("\"LoginSuccess\""), 0);
            lemma_strip_mismatch(b, lit("{\"Error\":{\"description\":"), 2);
            lemma_strip_prefix(lit("{\"Warning\":{\"description\":"), t1);
            lemma_parse_described(description);
        },
        s2c::CommandView::MessageRecv { message } => {
            let t1 = enc_message(message) + (lit("}}") + Seq::<u8>::empty());
            assert(b =~= lit("{\"MessageRecv\":{\"message\":") + t1);
            assert(b[0] == 123 && b[2] == 77);
            lemma_strip_mismatch(b, lit("\"LoginSuccess\""), 0);
            lemma_strip_mismatch(b, lit("{\"Error\":{\"description\":"), 2);
            lemma_strip_mismatch(b, lit("{\"Warning\":{\"description\":"), 2);
            lemma_strip_prefix(lit("{\"MessageRecv\":{\"message\":"), t1);
            lemma_parse_message(message, lit("}}") + Seq::<u8>::empty());
            lemma_strip_prefix(lit("}}"), Seq::<u8>::empty());
        },
    }
}


/// Appends the UTF-8 bytes of a literal piece of JSON text.
fn append_lit(out: &mut Vec<u8>, s: &str)
    ensures
        final(out)@ == old(out)@ + lit(s),
{
    out.extend_from_slice(s.as_bytes());
}

/// Appends the escaped form of the UTF-8 bytes of `s`.
fn append_escaped(out: &mut Vec<u8>, s: &str)
    ensures
        final(out)@ == old(out)@ + esc(s.spec_bytes()),
{
    let bytes = s.as_bytes();
    let ghost all = bytes@;
    let mut i: usize = 0;
    proof {
        assert(all.take(0) =~= Seq::<u8>::empty());
        assert(out@ =~= old(out)@ + esc(all.take(0)));
    }
    while i < bytes.len()
        invariant
            0 <= i <= all.len(),
            bytes@ == all,
            out@ == old(out)@ + esc(all.take(i as int)),
        decreases all.len() - i,
    {
        let b = bytes[i];
        if b == 34 || b == 92 {
            out.push(92);
            out.push(b);
        } else if b < 0x20 {
            out.push(92);
            out.push(117);
            out.push(48);
            out.push(48);
            let hi = b / 16;
            let lo = b % 16;
            out.push(if hi < 10 { 48 + hi } else { 87 + hi });
            out.push(if lo < 10 { 48 + lo } else { 87 + lo });
        } else {
            out.push(b);
        }
        proof {
            let x = all[i as int];
            assert(all.take(i as int + 1) =~= all.take(i as int) + seq![x]);
            lemma_esc_concat(all.take(i as int), seq![x]);
            assert(seq![x].drop_first() =~= Seq::<u8>::empty());
            assert(seq![x][0] == x);
            assert(esc(Seq::<u8>::empty()) =~= Seq::<u8>::empty());
            assert(esc(seq![x]) =~= esc_byte(x) + esc(seq![x].drop_first()));
            assert(esc(seq![x]) =~= esc_byte(x));
            assert(out@ =~= old(out)@ + esc(all.take(i as int + 1)));
        }
        i += 1;
    }
    proof {
        assert(all.take(all.len() as int) =~= all);
    }
}

/// Appends the JSON string form of `s`.
fn append_json_string(out: &mut Vec<u8>, s: &str)
    ensures
        final(out)@ == old(out)@ + json_string(s@),
{
    out.push(34);
    append_escaped(out, s);
    out.push(34);
    proof {
        assert(out@ =~= old(out)@ + json_string(s@));
    }
}

/// Appends the RFC 3339 text of a well-formed instant.
fn append_datetime(out: &mut Vec<u8>, dt: &DateTime)
    ensures
        final(out)@ == old(out)@ + fmt_datetime(*dt),
{
    out.push((48 + (dt.year / 1000) % 10) as u8);
    out.push((48 + (dt.year / 100) % 10) as u8);
    out.push((48 + (dt.year / 10) % 10) as u8);
    out.push((48 + dt.year % 10) as u8);
    out.push(45);
    out.push(48 + (dt.month / 10) % 10);
    out.push(48 + dt.month % 10);
    out.push(45);
    out.push(48 + (dt.day / 10) % 10);
    out.push(48 + dt.day % 10);
    out.push(84);
    out.push(48 + (dt.hour / 10) % 10);
    out.push(48 + dt.hour % 10);
    out.push(58);
    out.push(48 + (dt.minute / 10) % 10);
    out.push(48 + dt.minute % 10);
    out.push(58);
    out.push(48 + (dt.second / 10) % 10);
    out.push(48 + dt.second % 10);
    out.push(90);
    proof {
        assert(out@ =~= old(out)@ + fmt_datetime(*dt));
    }
}

/// Appends the JSON object form of a message.
fn append_message(out: &mut Vec<u8>, m: &Message)
    ensures
        final(out)@ == old(out)@ + enc_message(m@),
{
    append_lit(out, "{\"sender\":");
    append_json_string(out, m.sender().as_str());
    append_lit(out, ",\"date_time\":\"");
    append_datetime(out, m.date_time());
    append_lit(out, "\",\"text\":");
    append_json_string(out, m.text().as_str());
    append_lit(out, "}");
    proof {
        assert(out@ =~= old(out)@ + enc_message(m@));
    }
}

/// Encodes a client-to-server command as its JSON text.
pub fn encode_c2s(cmd: &c2s::Command) -> (r: Vec<u8>)
    ensures
        r@ == enc_c2s(cmd@),
{
    let mut out: Vec<u8> = Vec::new();
    match cmd {
        c2s::Command::Login(request) => {
            append_lit(&mut out, "{\"Login\":{\"is_registering\":");
            if request.is_registering() {
                append_lit(&mut out, "true");
            } else {
                append_lit(&mut out, "false");
            }
            append_lit(&mut out, ",\"nickname\":");
            append_json_string(&mut out, request.nickname().as_str());
            append_lit(&mut out, ",\"password\":");
            append_json_string(&mut out, request.password().as_str());
            append_lit(&mut out, "}}");
        },
        c2s::Command::SendMessage(text) => {
            append_lit(&mut out, "{\"SendMessage\":");
            append_json_string(&mut out, text.as_str());
            append_lit(&mut out, "}");
        },
    }
    proof {
        assert(out@ =~= enc_c2s(cmd@));
    }
    out
}

/// Encodes a server-to-client command as its JSON text.
pub fn encode_s2c(cmd: &s2c::Command) -> (r: Vec<u8>)
    ensures
        r@ == enc_s2c(cmd@),
{
    let mut out: Vec<u8> = Vec::new();
    match cmd {
        s2c::Command::LoginSuccess => {
            append_lit(&mut out, "\"LoginSuccess\"");
        },
        s2c::Command::Error { description } => {
            append_lit(&mut out, "{\"Error\":{\"description\":");
            append_json_string(&mut out, description.as_str());
            append_lit(&mut out, "}}");
        },
        s2c::Command::Warning { description } => {
            append_lit(&mut out, "{\"Warning\":{\"description\":");
            append_json_string(&mut out, description.as_str());
            append_lit(&mut out, "}}");
        },
        s2c::Command::MessageRecv { message } => {
            append_lit(&mut out, "{\"MessageRecv\":{\"message\":");
            append_message(&mut out, message);
            append_lit(&mut out, "}}");
        },
    }
    proof {
        assert(out@ =~= enc_s2c(cmd@));
    }
    out
}


/// Prepends already-read content onto the outcome of reading the rest.
pub open spec fn unesc_prepend(c: Seq<u8>, o: Option<(Seq<u8>, Seq<u8>)>) -> Option<
    (Seq<u8>, Seq<u8>),
> {
    match o {
        Some((c2, r)) => Some((c + c2, r)),
        None => None,
    }
}

proof fn lemma_prepend_empty(o: Option<(Seq<u8>, Seq<u8>)>)
    ensures
        unesc_prepend(Seq::<u8>::empty(), o) == o,
{
    match o {
        Some((c, r)) => {
            assert(Seq::<u8>::empty() + c =~= c);
        },
        None => {},
    }
}

proof fn lemma_prepend_assoc(a: Seq<u8>, b: Seq<u8>, o: Option<(Seq<u8>, Seq<u8>)>)
    ensures
        unesc_prepend(a + b, o) == unesc_prepend(a, unesc_prepend(b, o)),
{
    match o {
        Some((c, r)) => {
            assert((a + b) + c =~= a + (b + c));
        },
        None => {},
    }
}

/// Drops the literal `p` at position `pos` of `bytes`, handing back the
/// position after it; `None` when the bytes there differ from `p`.
fn try_strip(bytes: &[u8], pos: usize, p: &str) -> (r: Option<usize>)
    requires
        pos <= bytes@.len(),
    ensures
        match r {
            Some(q) => pos <= q <= bytes@.len() && strip(bytes@.skip(pos as int), lit(p)) == Some(
                bytes@.skip(q as int),
            ),
            None => strip(bytes@.skip(pos as int), lit(p)) is None,
        },
{
    let pb = p.as_bytes();
    if bytes.len() - pos < pb.len() {
        return None;
    }
    let sub = vstd::slice::slice_subrange(bytes, pos, pos + pb.len());
    proof {
        assert(bytes@.skip(pos as int).take(pb@.len() as int) =~= sub@);
    }
    if crate::strings::slice_eq_bytes(sub, pb) {
        proof {
            assert(bytes@.skip(pos as int).skip(pb@.len() as int) =~= bytes@.skip(
                pos as int + pb@.len(),
            ));
        }
        Some(pos + pb.len())
    } else {
        None
    }
}

/// The value of a hex digit byte.
fn hexval_exec(b: u8) -> (r: u8)
    requires
        is_hex(b),
    ensures
        r == hexval(b),
{
    if b <= 57 {
        b - 48
    } else {
        b - 87
    }
}

/// Reads a JSON string at position `pos` of `bytes`: the unescaped
/// content and the position after the closing quote.
fn parse_string_at(bytes: &[u8], pos: usize) -> (r: Option<(Vec<u8>, usize)>)
    requires
        pos <= bytes@.len(),
    ensures
        match r {
            Some(pair) => pair.1 <= bytes@.len() && parse_jstring(bytes@.skip(pos as int)) == Some(
                (pair.0@, bytes@.skip(pair.1 as int)),
            ),
            None => parse_jstring(bytes@.skip(pos as int)) is None,
        },
{
    let n = bytes.len();
    if pos == n || *vstd::slice::slice_index_get(bytes, pos) != 34 {
        proof {
            if pos < n {
                assert(bytes@.skip(pos as int)[0] == bytes@[pos as int]);
            }
        }
        return None;
    }
    proof {
        assert(bytes@.skip(pos as int)[0] == bytes@[pos as int]);
        assert(bytes@.skip(pos as int).drop_first() =~= bytes@.skip(pos as int + 1));
    }
    let mut content: Vec<u8> = Vec::new();
    let mut i: usize = pos + 1;
    proof {
        lemma_prepend_empty(unesc(bytes@.skip(pos as int + 1)));
    }
    loop
        invariant
            pos + 1 <= i <= n,
            n == bytes@.len(),
            unesc(bytes@.skip(pos as int + 1)) == unesc_prepend(
                content@,
                unesc(bytes@.skip(i as int)),
            ),
            parse_jstring(bytes@.skip(pos as int)) == unesc(bytes@.skip(pos as int + 1)),
        decreases n - i,
    {
        let ghost bi = bytes@.skip(i as int);
        if i == n {
            proof {
                assert(bi =~= Seq::<u8>::empty());
            }
            return None;
        }
        let b = *vstd::slice::slice_index_get(bytes, i);
        proof {
            assert(bi[0] == b);
        }
        if b == 34 {
            proof {
                assert(bi.drop_first() =~= bytes@.skip(i as int + 1));
                assert(unesc(bi) == Some((Seq::<u8>::empty(), bytes@.skip(i as int + 1))));
                assert(content@ + Seq::<u8>::empty() =~= content@);
            }
            return Some((content, i + 1));
        } else if b == 92 {
            if n - i >= 2 && (*vstd::slice::slice_index_get(bytes, i + 1) == 34
                || *vstd::slice::slice_index_get(bytes, i + 1) == 92) {
                let b1 = *vstd::slice::slice_index_get(bytes, i + 1);
                proof {
                    assert(bi.len() >= 2 && bi[1] == b1);
                    assert(bi.skip(2) =~= bytes@.skip(i as int + 2));
                    lemma_prepend_assoc(content@, seq![b1], unesc(bytes@.skip(i as int + 2)));
                    assert(unesc(bi) == unesc_prepend(seq![b1], unesc(bytes@.skip(i as int + 2))));
                }
                content.push(b1);
                i += 2;
            } else if n - i >= 6 && *vstd::slice::slice_index_get(bytes, i + 1) == 117
                && *vstd::slice::slice_index_get(bytes, i + 2) == 48 && *vstd::slice::slice_index_get(
                bytes,
                i + 3,
            ) == 48 && is_hex_exec(*vstd::slice::slice_index_get(bytes, i + 4)) && is_hex_exec(
                *vstd::slice::slice_index_get(bytes, i + 5),
            ) && hexval_exec(*vstd::slice::slice_index_get(bytes, i + 4)) * 16 + hexval_exec(
                *vstd::slice::slice_index_get(bytes, i + 5),
            ) < 0x20 {
                let v = hexval_exec(*vstd::slice::slice_index_get(bytes, i + 4)) * 16
                    + hexval_exec(*vstd::slice::slice_index_get(bytes, i + 5));
                proof {
                    assert(bi.len() >= 6);
                    assert(bi[1] == bytes@[i as int + 1]);
                    assert(bi[2] == bytes@[i as int + 2]);
                    assert(bi[3] == bytes@[i as int + 3]);
                    assert(bi[4] == bytes@[i as int + 4]);
                    assert(bi[5] == bytes@[i as int + 5]);
                    assert(bi.skip(6) =~= bytes@.skip(i as int + 6));
                    lemma_prepend_assoc(content@, seq![v], unesc(bytes@.skip(i as int + 6)));
                    assert(unesc(bi) == unesc_prepend(seq![v], unesc(bytes@.skip(i as int + 6))));
                }
                content.push(v);
                i += 6;
            } else {
                proof {
                    assert(bi.len() >= 2 ==> bi[1] == bytes@[i as int + 1]);
                    assert(bi.len() >= 6 ==> bi[2] == bytes@[i as int + 2]);
                    assert(bi.len() >= 6 ==> bi[3] == bytes@[i as int + 3]);
                    assert(bi.len() >= 6 ==> bi[4] == bytes@[i as int + 4]);
                    assert(bi.len() >= 6 ==> bi[5] == bytes@[i as int + 5]);
                    assert(unesc(bi) is None);
                }
                return None;
            }
        } else if b < 0x20 {
            proof {
                assert(unesc(bi) is None);
            }
            return None;
        } else {
            proof {
                assert(bi.drop_first() =~= bytes@.skip(i as int + 1));
                lemma_prepend_assoc(content@, seq![b], unesc(bytes@.skip(i as int + 1)));
                assert(unesc(bi) == unesc_prepend(seq![b], unesc(bytes@.skip(i as int + 1))));
            }
            content.push(b);
            i += 1;
        }
    }
}

/// True for the bytes [`hexdig`] produces.
fn is_hex_exec(b: u8) -> (r: bool)
    ensures
        r == is_hex(b),
{
    (48 <= b && b <= 57) || (97 <= b && b <= 102)
}


/// Reads an RFC 3339 instant at position `pos` of `bytes`: the instant
/// and the position after its twenty bytes.
fn parse_datetime_at(bytes: &[u8], pos: usize) -> (r: Option<(DateTime, usize)>)
    requires
        pos <= bytes@.len(),
    ensures
        match r {
            Some(pair) => pair.1 <= bytes@.len() && parse_datetime(bytes@.skip(pos as int))
                == Some((pair.0, bytes@.skip(pair.1 as int))),
            None => parse_datetime(bytes@.skip(pos as int)) is None,
        },
{
    let n = bytes.len();
    let ghost bp = bytes@.skip(pos as int);
    if n - pos < 20 {
        return None;
    }
    proof {
        assert(bp[0] == bytes@[pos as int]);
        assert(bp[1] == bytes@[pos as int + 1]);
        assert(bp[2] == bytes@[pos as int + 2]);
        assert(bp[3] == bytes@[pos as int + 3]);
        assert(bp[4] == bytes@[pos as int + 4]);
        assert(bp[5] == bytes@[pos as int + 5]);
        assert(bp[6] == bytes@[pos as int + 6]);
        assert(bp[7] == bytes@[pos as int + 7]);
        assert(bp[8] == bytes@[pos as int + 8]);
        assert(bp[9] == bytes@[pos as int + 9]);
        assert(bp[10] == bytes@[pos as int + 10]);
        assert(bp[11] == bytes@[pos as int + 11]);
        assert(bp[12] == bytes@[pos as int + 12]);
        assert(bp[13] == bytes@[pos as int + 13]);
        assert(bp[14] == bytes@[pos as int + 14]);
        assert(bp[15] == bytes@[pos as int + 15]);
        assert(bp[16] == bytes@[pos as int + 16]);
        assert(bp[17] == bytes@[pos as int + 17]);
        assert(bp[18] == bytes@[pos as int + 18]);
        assert(bp[19] == bytes@[pos as int + 19]);
    }
    let b0 = *vstd::slice::slice_index_get(bytes, pos);
    let b1 = *vstd::slice::slice_index_get(bytes, pos + 1);
    let b2 = *vstd::slice::slice_index_get(bytes, pos + 2);
    let b3 = *vstd::slice::slice_index_get(bytes, pos + 3);
    let b4 = *vstd::slice::slice_index_get(bytes, pos + 4);
    let b5 = *vstd::slice::slice_index_get(bytes, pos + 5);
    let b6 = *vstd::slice::slice_index_get(bytes, pos + 6);
    let b7 = *vstd::slice::slice_index_get(bytes, pos + 7);
    let b8 = *vstd::slice::slice_index_get(bytes, pos + 8);
    let b9 = *vstd::slice::slice_index_get(bytes, pos + 9);
    let b10 = *vstd::slice::slice_index_get(bytes, pos + 10);
    let b11 = *vstd::slice::slice_index_get(bytes, pos + 11);
    let b12 = *vstd::slice::slice_index_get(bytes, pos + 12);
    let b13 = *vstd::slice::slice_index_get(bytes, pos + 13);
    let b14 = *vstd::slice::slice_index_get(bytes, pos + 14);
    let b15 = *vstd::slice::slice_index_get(bytes, pos + 15);
    let b16 = *vstd::slice::slice_index_get(bytes, pos + 16);
    let b17 = *vstd::slice::slice_index_get(bytes, pos + 17);
    let b18 = *vstd::slice::slice_index_get(bytes, pos + 18);
    let b19 = *vstd::slice::slice_index_get(bytes, pos + 19);
    let digits_ok = 48 <= b0 && b0 <= 57 && 48 <= b1 && b1 <= 57 && 48 <= b2 && b2 <= 57 && 48
        <= b3 && b3 <= 57 && 48 <= b5 && b5 <= 57 && 48 <= b6 && b6 <= 57 && 48 <= b8 && b8 <= 57
        && 48 <= b9 && b9 <= 57 && 48 <= b11 && b11 <= 57 && 48 <= b12 && b12 <= 57 && 48 <= b14
        && b14 <= 57 && 48 <= b15 && b15 <= 57 && 48 <= b17 && b17 <= 57 && 48 <= b18 && b18 <= 57;
    let seps_ok = b4 == 45 && b7 == 45 && b10 == 84 && b13 == 58 && b16 == 58 && b19 == 90;
    if !(digits_ok && seps_ok) {
        proof {
            assert(!datetime_shape(bp));
        }
        return None;
    }
    let year: u16 = ((b0 - 48) as u16) * 1000 + ((b1 - 48) as u16) * 100 + ((b2 - 48) as u16) * 10
        + ((b3 - 48) as u16);
    let month: u8 = (b5 - 48) * 10 + (b6 - 48);
    let day: u8 = (b8 - 48) * 10 + (b9 - 48);
    let hour: u8 = (b11 - 48) * 10 + (b12 - 48);
    let minute: u8 = (b14 - 48) * 10 + (b15 - 48);
    let second: u8 = (b17 - 48) * 10 + (b18 - 48);
    proof {
        assert(datetime_shape(bp));
        assert(datetime_of(bp) == DateTime { year, month, day, hour, minute, second });
        assert(bp.skip(20) =~= bytes@.skip(pos as int + 20));
    }
    match DateTime::new(year, month, day, hour, minute, second) {
        Some(dt) => Some((dt, pos + 20)),
        None => None,
    }
}

/// Turns unescaped string content into a `String`; `None` exactly when
/// the bytes are not valid UTF-8, in which case the whole command is
/// refused.
fn content_to_string(v: Vec<u8>) -> (r: Option<String>)
    ensures
        r is Some <==> valid_utf8(v@),
        r matches Some(s) ==> s@ == decode_utf8(v@),
{
    let ghost bytes = v@;
    let r = crate::strings::bytes_to_string(v);
    proof {
        if r is Some {
            let s = r->0;
            vstd::utf8::encode_utf8_decode_utf8(s@);
        }
    }
    r
}

/// Decodes one client-to-server command from the exact JSON text the
/// encoder produces; `None` on anything else.
pub fn decode_c2s(bytes: &[u8]) -> (r: Option<c2s::Command>)
    ensures
        match r {
            Some(cmd) => parse_c2s(bytes@) == Some(cmd@),
            None => parse_c2s(bytes@) is None,
        },
{
    proof {
        assert(bytes@.skip(0) =~= bytes@);
    }
    if let Some(p1) = try_strip(bytes, 0, "{\"Login\":{\"is_registering\":") {
        let (reg, p2) = match try_strip(bytes, p1, "true") {
            Some(q) => (true, q),
            None => match try_strip(bytes, p1, "false") {
                Some(q) => (false, q),
                None => {
                    return None;
                },
            },
        };
        let p3 = match try_strip(bytes, p2, ",\"nickname\":") {
            Some(q) => q,
            None => {
                return None;
            },
        };
        let (nick_bytes, p4) = match parse_string_at(bytes, p3) {
            Some(pair) => pair,
            None => {
                return None;
            },
        };
        let nickname = match content_to_string(nick_bytes) {
            Some(s) => s,
            None => {
                return None;
            },
        };
        let p5 = match try_strip(bytes, p4, ",\"password\":") {
            Some(q) => q,
            None => {
                return None;
            },
        };
        let (pw_bytes, p6) = match parse_string_at(bytes, p5) {
            Some(pair) => pair,
            None => {
                return None;
            },
        };
        let password = match content_to_string(pw_bytes) {
            Some(s) => s,
            None => {
                return None;
            },
        };
        let p7 = match try_strip(bytes, p6, "}}") {
            Some(q) => q,
            None => {
                return None;
            },
        };
        if p7 != bytes.len() {
            proof {
                assert(bytes@.skip(p7 as int).len() > 0);
            }
            return None;
        }
        proof {
            assert(bytes@.skip(p7 as int).len() == 0);
        }
        Some(c2s::Command::Login(LoginRequest::new(reg, nickname, password)))
    } else {
        let p1 = match try_strip(bytes, 0, "{\"SendMessage\":") {
            Some(q) => q,
            None => {
                return None;
            },
        };
        let (text_bytes, p2) = match parse_string_at(bytes, p1) {
            Some(pair) => pair,
            None => {
                return None;
            },
        };
        let text = match content_to_string(text_bytes) {
            Some(s) => s,
            None => {
                return None;
            },
        };
        let p3 = match try_strip(bytes, p2, "}") {
            Some(q) => q,
            None => {
                return None;
            },
        };
        if p3 != bytes.len() {
            proof {
                assert(bytes@.skip(p3 as int).len() > 0);
            }
            return None;
        }
        proof {
            assert(bytes@.skip(p3 as int).len() == 0);
        }
        Some(c2s::Command::SendMessage(text))
    }
}


/// Reads a message object at position `pos` of `bytes`.
fn parse_message_at(bytes: &[u8], pos: usize) -> (r: Option<(Message, usize)>)
    requires
        pos <= bytes@.len(),
    ensures
        match r {
            Some(pair) => pair.1 <= bytes@.len() && parse_message(bytes@.skip(pos as int)) == Some(
                (pair.0@, bytes@.skip(pair.1 as int)),
            ),
            None => parse_message(bytes@.skip(pos as int)) is None,
        },
{
    let p1 = match try_strip(bytes, pos, "{\"sender\":") {
        Some(q) => q,
        None => {
            return None;
        },
    };
    let (sender_bytes, p2) = match parse_string_at(bytes, p1) {
        Some(pair) => pair,
        None => {
            return None;
        },
    };
    let sender = match content_to_string(sender_bytes) {
        Some(s) => s,
        None => {
            return None;
        },
    };
    let p3 = match try_strip(bytes, p2, ",\"date_time\":\"") {
        Some(q) => q,
        None => {
            return None;
        },
    };
    let (dt, p4) = match parse_datetime_at(bytes, p3) {
        Some(pair) => pair,
        None => {
            return None;
        },
    };
    let p5 = match try_strip(bytes, p4, "\",\"text\":") {
        Some(q) => q,
        None => {
            return None;
        },
    };
    let (text_bytes, p6) = match parse_string_at(bytes, p5) {
        Some(pair) => pair,
        None => {
            return None;
        },
    };
    let text = match content_to_string(text_bytes) {
        Some(s) => s,
        None => {
            return None;
        },
    };
    let p7 = match try_strip(bytes, p6, "}") {
        Some(q) => q,
        None => {
            return None;
        },
    };
    Some((Message::new(sender, dt, text), p7))
}

/// Decodes one server-to-client command from the exact JSON text the
/// encoder produces; `None` on anything else.
pub fn decode_s2c(bytes: &[u8]) -> (r: Option<s2c::Command>)
    ensures
        match r {
            Some(cmd) => parse_s2c(bytes@) == Some(cmd@),
            None => parse_s2c(bytes@) is None,
        },
{
    proof {
        assert(bytes@.skip(0) =~= bytes@);
    }
    if let Some(p1) = try_strip(bytes, 0, "\"LoginSuccess\"") {
        if p1 != bytes.len() {
            proof {
                assert(bytes@.skip(p1 as int).len() > 0);
            }
            return None;
        }
        proof {
            assert(bytes@.skip(p1 as int).len() == 0);
        }
        Some(s2c::Command::LoginSuccess)
    } else if let Some(p1) = try_strip(bytes, 0, "{\"Error\":{\"description\":") {
        match parse_described_at(bytes, p1) {
            Some(description) => Some(s2c::Command::Error { description }),
            None => None,
        }
    } else if let Some(p1) = try_strip(bytes, 0, "{\"Warning\":{\"description\":") {
        match parse_described_at(bytes, p1) {
            Some(description) => Some(s2c::Command::Warning { description }),
            None => None,
        }
    } else if let Some(p1) = try_strip(bytes, 0, "{\"MessageRecv\":{\"message\":") {
        let (message, p2) = match parse_message_at(bytes, p1) {
            Some(pair) => pair,
            None => {
                return None;
            },
        };
        let p3 = match try_strip(bytes, p2, "}}") {
            Some(q) => q,
            None => {
                return None;
            },
        };
        if p3 != bytes.len() {
            proof {
                assert(bytes@.skip(p3 as int).len() > 0);
            }
            return None;
        }
        proof {
            assert(bytes@.skip(p3 as int).len() == 0);
        }
        Some(s2c::Command::MessageRecv { message })
    } else {
        None
    }
}

/// Reads the tail of an `Error` or `Warning` object: the description
/// string, then `}}` and the end of the input.
fn parse_described_at(bytes: &[u8], pos: usize) -> (r: Option<String>)
    requires
        pos <= bytes@.len(),
    ensures
        match r {
            Some(d) => parse_described(bytes@.skip(pos as int)) == Some(d@),
            None => parse_described(bytes@.skip(pos as int)) is None,
        },
{
    let (desc_bytes, p2) = match parse_string_at(bytes, pos) {
        Some(pair) => pair,
        None => {
            return None;
        },
    };
    let description = match content_to_string(desc_bytes) {
        Some(s) => s,
        None => {
            return None;
        },
    };
    let p3 = match try_strip(bytes, p2, "}}") {
        Some(q) => q,
        None => {
            return None;
        },
    };
    if p3 != bytes.len() {
        proof {
            assert(bytes@.skip(p3 as int).len() > 0);
        }
        return None;
    }
    proof {
        assert(bytes@.skip(p3 as int).len() == 0);
    }
    Some(description)
}


/// Law: the empty payload — what a zero-length frame carries — is not
/// the encoding of any command. Decoding refuses it as invalid data
/// rather than crashing.
pub proof fn lemma_empty_payload_not_a_command()
    ensures
        parse_c2s(Seq::<u8>::empty()) is None,
        parse_s2c(Seq::<u8>::empty()) is None,
{
    lemma_tag_bytes();
}

} // verus!
