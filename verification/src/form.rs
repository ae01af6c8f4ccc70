//! Form bodies as browsers post them (`application/x-www-form-urlencoded`).
use crate::reply::lemma_encode_append;
use crate::text::find;
use crate::text::find_chars;
use crate::text::from_chars;
use crate::text::lemma_find_append;
use crate::text::lemma_split_first;
use crate::text::lemma_split_none;
use crate::text::spells;
use crate::text::split;
use crate::text::split_once;
use crate::text::split_once_chars;
use crate::text::to_chars;
use crate::text::trim_end;
use crate::text::trim_end_chars;
use crate::text::CharClass;
use vstd::prelude::*;
use vstd::slice::slice_subrange;
use vstd::utf8::encode_utf8;

verus! {

/// The line end, twice: what ends the header section of an HTTP message.
pub open spec fn blank_line() -> Seq<char> {
    seq!['\r', '\n', '\r', '\n']
}

/// The value of a hexadecimal digit, given as its ASCII code.
pub open spec fn hex_value(b: u8) -> Option<u8> {
    if 0x30 <= b <= 0x39 {
        Some((b - 0x30) as u8)
    } else if 0x61 <= b <= 0x66 {
        Some((b - 0x61 + 10) as u8)
    } else if 0x41 <= b <= 0x46 {
        Some((b - 0x41 + 10) as u8)
    } else {
        None
    }
}

/// Whether an escape (a percent sign and two hexadecimal digits) begins here.
pub open spec fn escape_begins(b: Seq<u8>) -> bool {
    b.len() >= 3 && b[0] == 0x25 && hex_value(b[1]) is Some && hex_value(b[2]) is Some
}

/// The text that an encoded name or value stands for: an escape gives the
/// character with that code, a plus sign gives a space, and any other byte
/// gives the character with its code.
pub open spec fn decoded(b: Seq<u8>) -> Seq<char>
    decreases b.len(),
{
    if b.len() == 0 {
        seq![]
    } else if escape_begins(b) {
        seq![(hex_value(b[1])->0 * 16 + hex_value(b[2])->0) as char] + decoded(b.skip(3))
    } else if b[0] == 0x2b {
        seq![' '] + decoded(b.skip(1))
    } else {
        seq![b[0] as char] + decoded(b.skip(1))
    }
}

/// The field that one `name=value` pair stands for. Without an equals sign the
/// whole pair is the name and the value is empty.
pub open spec fn field_of(pair: Seq<char>) -> (Seq<char>, Seq<char>) {
    match split_once(pair, seq!['=']) {
        Some((k, v)) => (decoded(encode_utf8(k)), decoded(encode_utf8(v))),
        None => (decoded(encode_utf8(pair)), seq![]),
    }
}

/// The fields of a form body, in order. NUL characters at its end are padding;
/// an empty body has no field.
pub open spec fn fields_of(body: Seq<char>) -> Seq<(Seq<char>, Seq<char>)> {
    let b = trim_end(body, CharClass::Nul);
    if b.len() == 0 {
        seq![]
    } else {
        split(b, seq!['&']).map_values(|pair: Seq<char>| field_of(pair))
    }
}

/// The fields posted with a request: those of what follows the first blank
/// line; none where the request has no blank line.
pub open spec fn posted_fields(request: Seq<char>) -> Option<Seq<(Seq<char>, Seq<char>)>> {
    match find(request, blank_line()) {
        Some(i) => Some(fields_of(request.skip(i + 4))),
        None => None,
    }
}

/// The value of the first field with the given name.
pub open spec fn field_value(fields: Seq<(Seq<char>, Seq<char>)>, name: Seq<char>) -> Option<
    Seq<char>,
>
    decreases fields.len(),
{
    if fields.len() == 0 {
        None
    } else if fields[0].0 == name {
        Some(fields[0].1)
    } else {
        field_value(fields.drop_first(), name)
    }
}

/// The value of the first field with the given name; the empty text without one.
pub open spec fn value_or_empty(
    fields: Seq<(Seq<char>, Seq<char>)>,
    name: Seq<char>,
) -> Seq<char> {
    match field_value(fields, name) {
        Some(v) => v,
        None => seq![],
    }
}

/// The characters of the names and values of a form.
pub open spec fn form_view(form: Seq<(String, String)>) -> Seq<(Seq<char>, Seq<char>)> {
    form.map_values(|field: (String, String)| (field.0@, field.1@))
}

/// The value of a hexadecimal digit.
pub fn hex_digit(b: u8) -> (r: Option<u8>)
    ensures
        r == hex_value(b),
        r matches Some(d) ==> d < 16,
{
    if 0x30 <= b && b <= 0x39 {
        Some(b - 0x30)
    } else if 0x61 <= b && b <= 0x66 {
        Some(b - 0x61 + 10)
    } else if 0x41 <= b && b <= 0x46 {
        Some(b - 0x41 + 10)
    } else {
        None
    }
}

/// Decodes one name or value of a form body.
pub fn url_decode(s: &str) -> (r: String)
    ensures
        r@ == decoded(encode_utf8(s@)),
{
    let bytes = s.as_bytes();
    let mut out = String::new();
    let mut i: usize = 0;
    assert(bytes@.skip(0) == bytes@);
    while i < bytes.len()
        invariant
            i <= bytes@.len(),
            decoded(bytes@) == out@ + decoded(bytes@.skip(i as int)),
        decreases bytes@.len() - i,
    {
        let b = bytes[i];
        let ghost before = out@;
        let ghost here = bytes@.skip(i as int);
        if b == 0x25 && bytes.len() - i > 2 {
            let hi = hex_digit(bytes[i + 1]);
            let lo = hex_digit(bytes[i + 2]);
            if let (Some(h), Some(l)) = (hi, lo) {
                out.push((h * 16 + l) as char);
                i += 3;
                assert(here.skip(3) == bytes@.skip(i as int));
                assert(out@ + decoded(here.skip(3)) =~= before + decoded(here));
                continue;
            }
        }
        assert(!escape_begins(here));
        if b == 0x2b {
            out.push(' ');
        } else {
            out.push(b as char);
        }
        i += 1;
        assert(here.skip(1) == bytes@.skip(i as int));
        assert(out@ + decoded(here.skip(1)) =~= before + decoded(here));
    }
    assert(out@ + decoded(bytes@.skip(i as int)) =~= out@);
    out
}

fn decode_pair(pair: &[char]) -> (r: (String, String))
    ensures
        (r.0@, r.1@) == field_of(pair@),
{
    let equals: [char; 1] = ['='];
    assert(equals@ =~= seq!['=']);
    match split_once_chars(pair, &equals) {
        Some((k, v)) => (
            url_decode(from_chars(k).as_str()),
            url_decode(from_chars(v).as_str()),
        ),
        None => (url_decode(from_chars(pair).as_str()), String::new()),
    }
}

/// Reads the form that was posted with a request.
pub fn extract_form(request_str: &str) -> (r: Result<Vec<(String, String)>, String>)
    ensures
        match r {
            Ok(form) => posted_fields(request_str@) == Some(form_view(form@)),
            Err(message) => posted_fields(request_str@) is None && message@ == "no request body"@,
        },
{
    let chars = to_chars(request_str);
    let n = chars.len();
    let separator: [char; 4] = ['\r', '\n', '\r', '\n'];
    assert(separator@ =~= blank_line());
    let start = match find_chars(chars.as_slice(), &separator) {
        Some(i) => i + 4,
        None => {
            return Err("no request body".to_owned());
        },
    };
    let posted = slice_subrange(chars.as_slice(), start, n);
    assert(posted@ == chars@.skip(start as int));
    let body = trim_end_chars(posted, CharClass::Nul);
    let mut out: Vec<(String, String)> = Vec::new();
    if body.len() == 0 {
        assert(form_view(out@) =~= seq![]);
        return Ok(out);
    }
    let ampersand: [char; 1] = ['&'];
    assert(ampersand@ =~= seq!['&']);
    let ghost field = |pair: Seq<char>| field_of(pair);
    let ghost fields = split(body@, seq!['&']).map_values(field);
    let mut rest: &[char] = body;
    assert(form_view(out@) + fields =~= fields);
    loop
        invariant
            ampersand@ == seq!['&'],
            field == (|pair: Seq<char>| field_of(pair)),
            fields == form_view(out@) + split(rest@, seq!['&']).map_values(field),
            posted_fields(request_str@) == Some(fields),
        decreases rest@.len(),
    {
        let ghost before = form_view(out@);
        let ghost pieces = split(rest@, seq!['&']);
        proof {
            crate::text::lemma_find(rest@, seq!['&']);
        }
        match split_once_chars(rest, &ampersand) {
            Some((pair, tail)) => {
                out.push(decode_pair(pair));
                proof {
                    assert(pieces == seq![pair@] + split(tail@, seq!['&']));
                    assert(form_view(out@) =~= before.push(field_of(pair@)));
                    assert(pieces.map_values(field) =~= seq![field_of(pair@)] + split(
                        tail@,
                        seq!['&'],
                    ).map_values(field));
                    assert(fields =~= form_view(out@) + split(tail@, seq!['&']).map_values(field));
                }
                rest = tail;
            },
            None => {
                out.push(decode_pair(rest));
                proof {
                    assert(pieces == seq![rest@]);
                    assert(form_view(out@) =~= before.push(field_of(rest@)));
                    assert(fields =~= form_view(out@));
                }
                return Ok(out);
            },
        }
    }
}

/// Looks a field up by its name; the first one counts.
pub fn form_get<'a>(form: &'a [(String, String)], name: &str) -> (r: Option<&'a str>)
    ensures
        match r {
            Some(v) => field_value(form_view(form@), name@) == Some(v@),
            None => field_value(form_view(form@), name@) is None,
        },
{
    let ghost fields = form_view(form@);
    let mut i: usize = 0;
    assert(fields.skip(0) == fields);
    while i < form.len()
        invariant
            i <= form@.len(),
            fields == form_view(form@),
            field_value(fields, name@) == field_value(fields.skip(i as int), name@),
        decreases form@.len() - i,
    {
        assert(fields.skip(i as int)[0] == (form@[i as int].0@, form@[i as int].1@));
        assert(fields.skip(i as int).drop_first() == fields.skip(i + 1));
        if spells(to_chars(form[i].0.as_str()).as_slice(), name) {
            return Some(form[i].1.as_str());
        }
        i += 1;
    }
    None
}

// ---------------------------------------------------------------------------
// Laws
// ---------------------------------------------------------------------------
/// An upper-case hexadecimal digit.
pub open spec fn hex_upper(n: u8) -> char {
    if n < 10 {
        (0x30 + n) as char
    } else {
        (0x41 + (n - 10)) as char
    }
}

/// Whether browsers leave the byte as it is: letters, digits and `* - . _`.
pub open spec fn is_unreserved(b: u8) -> bool {
    ||| 0x30 <= b <= 0x39
    ||| 0x41 <= b <= 0x5a
    ||| 0x61 <= b <= 0x7a
    ||| b == 0x2a
    ||| b == 0x2d
    ||| b == 0x2e
    ||| b == 0x5f
}

/// How a browser writes one byte of a name or value.
pub open spec fn encoded_byte(b: u8) -> Seq<char> {
    if is_unreserved(b) {
        seq![b as char]
    } else if b == 0x20 {
        seq!['+']
    } else {
        seq!['%', hex_upper(b / 16), hex_upper(b % 16)]
    }
}

/// How a browser writes a name or value.
pub open spec fn encoded(bytes: Seq<u8>) -> Seq<char>
    decreases bytes.len(),
{
    if bytes.len() == 0 {
        seq![]
    } else {
        encoded_byte(bytes[0]) + encoded(bytes.drop_first())
    }
}

/// How a browser writes a field.
pub open spec fn encoded_field(field: (Seq<u8>, Seq<u8>)) -> Seq<char> {
    encoded(field.0) + seq!['='] + encoded(field.1)
}

/// How a browser writes a form.
pub open spec fn encoded_form(fields: Seq<(Seq<u8>, Seq<u8>)>) -> Seq<char>
    decreases fields.len(),
{
    if fields.len() == 0 {
        seq![]
    } else if fields.len() == 1 {
        encoded_field(fields[0])
    } else {
        encoded_field(fields[0]) + seq!['&'] + encoded_form(fields.drop_first())
    }
}

/// The text that has one character for each byte, with the same code.
pub open spec fn one_char_per_byte(bytes: Seq<u8>) -> Seq<char> {
    bytes.map_values(|b: u8| b as char)
}

/// The texts of the fields of a form.
pub open spec fn field_texts(fields: Seq<(Seq<u8>, Seq<u8>)>) -> Seq<(Seq<char>, Seq<char>)> {
    fields.map_values(
        |field: (Seq<u8>, Seq<u8>)| (one_char_per_byte(field.0), one_char_per_byte(field.1)),
    )
}

/// What browsers write: letters, digits and `% + * - . _`.
pub open spec fn is_plain(s: Seq<char>) -> bool {
    forall|i: int|
        0 <= i < s.len() ==> {
            let c = #[trigger] s[i];
            c == '%' || c == '+' || ('\u{0}' <= c <= '\u{7f}' && is_unreserved(c as u8))
        }
}

proof fn lemma_encoded_byte(b: u8)
    ensures
        is_plain(encoded_byte(b)),
        !is_unreserved(b) ==> hex_value(hex_upper(b / 16) as u8) == Some((b / 16) as u8)
            && hex_value(hex_upper(b % 16) as u8) == Some((b % 16) as u8),
        !is_unreserved(b) ==> hex_upper(b / 16) <= '\u{7f}' && hex_upper(b % 16) <= '\u{7f}',
{
}

/// Names and values are written in plain characters.
proof fn lemma_encoded_is_plain(bytes: Seq<u8>)
    ensures
        is_plain(encoded(bytes)),
    decreases bytes.len(),
{
    if bytes.len() > 0 {
        let head = encoded_byte(bytes[0]);
        let tail = encoded(bytes.drop_first());
        lemma_encoded_byte(bytes[0]);
        lemma_encoded_is_plain(bytes.drop_first());
        assert forall|i: int| 0 <= i < encoded(bytes).len() implies {
            let c = #[trigger] encoded(bytes)[i];
            c == '%' || c == '+' || ('\u{0}' <= c <= '\u{7f}' && is_unreserved(c as u8))
        } by {
            if i < head.len() {
                assert(encoded(bytes)[i] == head[i]);
            } else {
                assert(encoded(bytes)[i] == tail[i - head.len()]);
            }
        }
    }
}

/// Plain characters are encoded as the bytes with their codes.
proof fn lemma_plain_bytes(s: Seq<char>)
    requires
        is_plain(s),
    ensures
        encode_utf8(s).len() == s.len(),
        forall|i: int| 0 <= i < s.len() ==> #[trigger] encode_utf8(s)[i] == s[i] as u8,
{
    assert(vstd::utf8::is_ascii_chars(s));
    vstd::utf8::is_ascii_chars_encode_utf8(s);
}

/// What a browser writes for a name or value is decoded to the text with one
/// character for each byte.
pub proof fn law_decoding_undoes_encoding(bytes: Seq<u8>)
    ensures
        decoded(encode_utf8(encoded(bytes))) == one_char_per_byte(bytes),
    decreases bytes.len(),
{
    let text = encoded(bytes);
    let wire = encode_utf8(text);
    lemma_encoded_is_plain(bytes);
    lemma_plain_bytes(text);
    if bytes.len() == 0 {
        assert(wire =~= seq![]);
        assert(one_char_per_byte(bytes) =~= seq![]);
    } else {
        let b = bytes[0];
        let rest = bytes.drop_first();
        let head = encoded_byte(b);
        lemma_encoded_byte(b);
        lemma_encoded_is_plain(rest);
        lemma_plain_bytes(encoded(rest));
        law_decoding_undoes_encoding(rest);
        assert forall|i: int| 0 <= i < head.len() implies #[trigger] wire[i] == head[i] as u8 by {
            assert(text[i] == head[i]);
        }
        assert(wire.skip(head.len() as int) =~= encode_utf8(encoded(rest))) by {
            assert forall|i: int| 0 <= i < encoded(rest).len() implies #[trigger] wire.skip(
                head.len() as int,
            )[i] == encode_utf8(encoded(rest))[i] by {
                assert(text[i + head.len()] == encoded(rest)[i]);
                assert(wire[i + head.len()] == text[i + head.len()] as u8);
            }
        }
        assert(decoded(wire) == seq![b as char] + one_char_per_byte(rest)) by {
            if is_unreserved(b) {
                assert(wire[0] == b);
            } else if b == 0x20 {
                assert(wire[0] == 0x2b);
            } else {
                assert(wire[0] == 0x25);
                assert(wire[1] == hex_upper(b / 16) as u8);
                assert(wire[2] == hex_upper(b % 16) as u8);
                assert(escape_begins(wire));
                assert(b / 16 * 16 + b % 16 == b);
            }
        }
        assert(one_char_per_byte(bytes) =~= seq![b as char] + one_char_per_byte(rest));
    }
}

/// What stands for a field is read back as its texts.
proof fn lemma_field_round_trip(field: (Seq<u8>, Seq<u8>))
    ensures
        field_of(encoded_field(field)) == (
            one_char_per_byte(field.0),
            one_char_per_byte(field.1),
        ),
        !encoded_field(field).contains('&'),
        encoded_field(field).len() > 0,
        !CharClass::Nul.has(encoded_field(field).last()),
{
    let (k, v) = field;
    let text = encoded_field(field);
    lemma_encoded_is_plain(k);
    lemma_encoded_is_plain(v);
    assert forall|i: int| 0 <= i < text.len() implies {
        let c = #[trigger] text[i];
        c != '&' && c != '\u{0}'
    } by {
        if i < encoded(k).len() {
            assert(text[i] == encoded(k)[i]);
        } else if i > encoded(k).len() {
            assert(text[i] == encoded(v)[i - encoded(k).len() - 1]);
        }
    }
    lemma_split_first(encoded(k), seq!['='], encoded(v));
    law_decoding_undoes_encoding(k);
    law_decoding_undoes_encoding(v);
}

/// The pieces of a written form are its written fields; it does not end in padding.
proof fn lemma_form_pieces(fields: Seq<(Seq<u8>, Seq<u8>)>)
    requires
        fields.len() > 0,
    ensures
        split(encoded_form(fields), seq!['&']) == fields.map_values(
            |field: (Seq<u8>, Seq<u8>)| encoded_field(field),
        ),
        encoded_form(fields).len() > 0,
        !CharClass::Nul.has(encoded_form(fields).last()),
    decreases fields.len(),
{
    let write = |field: (Seq<u8>, Seq<u8>)| encoded_field(field);
    lemma_field_round_trip(fields[0]);
    if fields.len() == 1 {
        lemma_split_none(encoded_field(fields[0]), seq!['&']);
        assert(fields.map_values(write) =~= seq![encoded_field(fields[0])]);
    } else {
        let rest = fields.drop_first();
        lemma_form_pieces(rest);
        lemma_split_first(encoded_field(fields[0]), seq!['&'], encoded_form(rest));
        assert(fields.map_values(write) =~= seq![encoded_field(fields[0])] + rest.map_values(
            write,
        ));
    }
}

/// The fields that a browser writes into a form body are the fields that are
/// read out of it, in the same order, with one character for each byte.
pub proof fn law_form_round_trip(fields: Seq<(Seq<u8>, Seq<u8>)>)
    ensures
        fields_of(encoded_form(fields)) == field_texts(fields),
{
    let text = encoded_form(fields);
    if fields.len() == 0 {
        assert(trim_end(text, CharClass::Nul) =~= seq![]);
        assert(field_texts(fields) =~= seq![]);
    } else {
        lemma_form_pieces(fields);
        let read = |pair: Seq<char>| field_of(pair);
        assert forall|i: int| 0 <= i < fields.len() implies field_of(
            encoded_field(#[trigger] fields[i]),
        ) == (one_char_per_byte(fields[i].0), one_char_per_byte(fields[i].1)) by {
            lemma_field_round_trip(fields[i]);
        }
        assert(fields_of(text) =~= field_texts(fields));
    }
}

/// A posted form is read back from the request that carries it, whatever the
/// head of the request is, as long as the blank line after it is the first.
pub proof fn law_posted_form_round_trip(head: Seq<char>, fields: Seq<(Seq<u8>, Seq<u8>)>)
    requires
        find(head + blank_line(), blank_line()) == Some(head.len() as int),
    ensures
        posted_fields(head + blank_line() + encoded_form(fields)) == Some(field_texts(fields)),
{
    let request = head + blank_line() + encoded_form(fields);
    lemma_find_append(head + blank_line(), encoded_form(fields), blank_line());
    assert(request.skip(head.len() as int + 4) =~= encoded_form(fields));
    law_form_round_trip(fields);
}

/// A text in ASCII has one character for each of its bytes, so it comes back as
/// it was typed.
pub proof fn law_ascii_text_comes_back(text: Seq<char>)
    requires
        vstd::utf8::is_ascii_chars(text),
    ensures
        decoded(encode_utf8(encoded(encode_utf8(text)))) == text,
{
    law_decoding_undoes_encoding(encode_utf8(text));
    vstd::utf8::is_ascii_chars_encode_utf8(text);
    assert forall|i: int| 0 <= i < text.len() implies #[trigger] one_char_per_byte(
        encode_utf8(text),
    )[i] == text[i] by {
        assert(encode_utf8(text)[i] == text[i] as u8);
    }
    assert(one_char_per_byte(encode_utf8(text)) =~= text);
}

/// Whether the character is the hexadecimal digit for the value, in either case.
pub open spec fn is_hex_digit(c: char, value: int) -> bool {
    ||| 0 <= value < 10 && c as int == '0' as int + value
    ||| 10 <= value < 16 && c as int == 'a' as int + value - 10
    ||| 10 <= value < 16 && c as int == 'A' as int + value - 10
}

/// Whether the byte is the code of a hexadecimal digit, in either case.
pub open spec fn is_hex(b: u8) -> bool {
    0x30 <= b <= 0x39 || 0x41 <= b <= 0x46 || 0x61 <= b <= 0x66
}

/// Whether the text is one of the ways to write the byte: an ASCII character as
/// itself, a space as a plus sign, any byte as an escape.
pub open spec fn spells_byte(text: Seq<char>, b: u8) -> bool {
    ||| b < 0x80 && b != 0x25 && b != 0x2b && text == seq![b as char]
    ||| b == 0x20 && text == seq!['+']
    ||| text.len() == 3 && text[0] == '%' && is_hex_digit(text[1], b as int / 16) && is_hex_digit(
        text[2],
        b as int % 16,
    )
}

/// The texts, one after the other.
pub open spec fn spelled(pieces: Seq<(Seq<char>, u8)>) -> Seq<char>
    decreases pieces.len(),
{
    if pieces.len() == 0 {
        seq![]
    } else {
        pieces[0].0 + spelled(pieces.drop_first())
    }
}

proof fn lemma_spelled_byte(text: Seq<char>, b: u8, rest: Seq<u8>)
    requires
        spells_byte(text, b),
    ensures
        decoded(encode_utf8(text) + rest) == seq![b as char] + decoded(rest),
{
    assert forall|i: int| 0 <= i < text.len() implies (0 <= #[trigger] text[i] as nat)
        && text[i] as nat <= 127 by {}
    assert(vstd::utf8::is_ascii_chars(text));
    vstd::utf8::is_ascii_chars_encode_utf8(text);
    let wire = encode_utf8(text);
    let all = wire + rest;
    assert(wire.len() == text.len());
    assert(all[0] == wire[0]);
    if text.len() == 3 {
        assert(all[1] == wire[1] && all[2] == wire[2]);
        assert(wire[0] == 0x25);
        assert(hex_value(wire[1]) == Some((b / 16) as u8));
        assert(hex_value(wire[2]) == Some((b % 16) as u8));
        assert(escape_begins(all));
        assert(all.skip(3) =~= rest);
        assert((b / 16) * 16 + b % 16 == b);
    } else {
        assert(all.skip(1) =~= rest);
    }
}

/// However a browser chooses to write the bytes of a name or value, it is
/// decoded to the text with one character for each byte.
pub proof fn law_every_spelling_is_decoded(pieces: Seq<(Seq<char>, u8)>)
    requires
        forall|i: int|
            0 <= i < pieces.len() ==> spells_byte((#[trigger] pieces[i]).0, pieces[i].1),
    ensures
        decoded(encode_utf8(spelled(pieces))) == one_char_per_byte(
            pieces.map_values(|piece: (Seq<char>, u8)| piece.1),
        ),
    decreases pieces.len(),
{
    let bytes = pieces.map_values(|piece: (Seq<char>, u8)| piece.1);
    if pieces.len() == 0 {
        assert(encode_utf8(spelled(pieces)) =~= seq![]);
        assert(one_char_per_byte(bytes) =~= seq![]);
    } else {
        let rest = pieces.drop_first();
        let rest_bytes = rest.map_values(|piece: (Seq<char>, u8)| piece.1);
        assert forall|i: int| 0 <= i < rest.len() implies spells_byte(
            (#[trigger] rest[i]).0,
            rest[i].1,
        ) by {
            assert(rest[i] == pieces[i + 1]);
        }
        law_every_spelling_is_decoded(rest);
        lemma_encode_append(pieces[0].0, spelled(rest));
        assert(spells_byte(pieces[0].0, pieces[0].1));
        lemma_spelled_byte(pieces[0].0, pieces[0].1, encode_utf8(spelled(rest)));
        assert(one_char_per_byte(bytes) =~= seq![pieces[0].1 as char] + one_char_per_byte(
            rest_bytes,
        ));
    }
}

/// Decoding goes from left to right, without looking further than an escape
/// reaches: text after which no escape is open is decoded by itself.
pub proof fn law_decoding_is_local(a: Seq<u8>, b: Seq<u8>)
    requires
        forall|i: int| a.len() - 2 <= i < a.len() && 0 <= i ==> #[trigger] a[i] != 0x25,
    ensures
        decoded(a + b) == decoded(a) + decoded(b),
    decreases a.len(),
{
    let s = a + b;
    if a.len() == 0 {
        assert(s =~= b);
        assert(decoded(a) + decoded(b) =~= decoded(b));
    } else {
        assert(s[0] == a[0]);
        let n: int = if escape_begins(a) {
            3
        } else {
            1
        };
        if a.len() >= 3 {
            assert(s[1] == a[1] && s[2] == a[2]);
        }
        assert(escape_begins(s) == escape_begins(a));
        let rest = a.skip(n);
        assert forall|i: int| rest.len() - 2 <= i < rest.len() && 0 <= i implies #[trigger] rest[i]
            != 0x25 by {
            assert(rest[i] == a[i + n]);
        }
        law_decoding_is_local(rest, b);
        assert(s.skip(n) =~= rest + b);
        assert(decoded(s) =~= decoded(a) + decoded(b));
    }
}

/// Bytes that are neither a percent nor a plus sign stay, one character each.
/// So does a percent sign after which no two hexadecimal digits stand.
pub proof fn law_other_bytes_stay(b: Seq<u8>)
    ensures
        !b.contains(0x25) && !b.contains(0x2b) ==> decoded(b) == one_char_per_byte(b),
        b.len() > 0 && b[0] == 0x25 && (b.len() < 3 || !is_hex(b[1]) || !is_hex(b[2]))
            ==> decoded(b) == seq!['%'] + decoded(b.drop_first()),
    decreases b.len(),
{
    if b.len() == 0 {
        assert(one_char_per_byte(b) =~= seq![]);
    } else {
        let rest = b.drop_first();
        law_other_bytes_stay(rest);
        assert(b.skip(1) =~= rest);
        if !b.contains(0x25) && !b.contains(0x2b) {
            assert(b.contains(b[0]));
            assert forall|x: u8| rest.contains(x) implies b.contains(x) by {
                let i = choose|i: int| 0 <= i < rest.len() && rest[i] == x;
                assert(b[i + 1] == x);
            }
            assert(one_char_per_byte(b) =~= seq![b[0] as char] + one_char_per_byte(rest));
        }
    }
}

/// Whether the value is that of the first field with the name; the empty one
/// where no field has the name.
pub open spec fn is_value_of(
    fields: Seq<(Seq<char>, Seq<char>)>,
    name: Seq<char>,
    value: Seq<char>,
) -> bool {
    if exists|i: int| 0 <= i < fields.len() && (#[trigger] fields[i]).0 == name {
        exists|i: int|
            0 <= i < fields.len() && #[trigger] fields[i] == (name, value) && (forall|j: int|
                0 <= j < i ==> (#[trigger] fields[j]).0 != name)
    } else {
        value.len() == 0
    }
}

/// Of several fields with one name the first counts; a field that is missing
/// counts as empty.
pub proof fn law_first_field_counts(
    fields: Seq<(Seq<char>, Seq<char>)>,
    name: Seq<char>,
    value: Seq<char>,
)
    ensures
        is_value_of(fields, name, value) <==> value_or_empty(fields, name) == value,
        field_value(fields, name) is None <==> (forall|i: int|
            0 <= i < fields.len() ==> (#[trigger] fields[i]).0 != name),
    decreases fields.len(),
{
    if fields.len() == 0 {
        assert(value.len() == 0 ==> value =~= seq![]);
    } else if fields[0].0 == name {
        assert(fields[0] == (name, fields[0].1));
    } else {
        let rest = fields.drop_first();
        law_first_field_counts(rest, name, value);
        if exists|i: int| 0 <= i < fields.len() && (#[trigger] fields[i]).0 == name {
            let i = choose|i: int| 0 <= i < fields.len() && (#[trigger] fields[i]).0 == name;
            assert(rest[i - 1].0 == name);
            if is_value_of(fields, name, value) {
                let k = choose|k: int|
                    0 <= k < fields.len() && #[trigger] fields[k] == (name, value) && (forall|
                        j: int,
                    | 0 <= j < k ==> (#[trigger] fields[j]).0 != name);
                assert(rest[k - 1] == (name, value));
                assert forall|j: int| 0 <= j < k - 1 implies (#[trigger] rest[j]).0 != name by {
                    assert(rest[j] == fields[j + 1]);
                }
            }
            if is_value_of(rest, name, value) {
                let k = choose|k: int|
                    0 <= k < rest.len() && #[trigger] rest[k] == (name, value) && (forall|j: int|
                        0 <= j < k ==> (#[trigger] rest[j]).0 != name);
                assert(fields[k + 1] == (name, value));
                assert forall|j: int| 0 <= j < k + 1 implies (#[trigger] fields[j]).0 != name by {
                    if j > 0 {
                        assert(rest[j - 1] == fields[j]);
                    }
                }
            }
        } else {
            assert forall|i: int| 0 <= i < rest.len() implies (#[trigger] rest[i]).0 != name by {
                assert(rest[i] == fields[i + 1]);
            }
        }
    }
}

/// NUL characters after a form are no part of it.
pub proof fn law_padding_is_ignored(body: Seq<char>, padding: Seq<char>)
    requires
        forall|i: int| 0 <= i < padding.len() ==> #[trigger] padding[i] == '\u{0}',
    ensures
        fields_of(body + padding) == fields_of(body),
    decreases padding.len(),
{
    if padding.len() == 0 {
        assert(body + padding =~= body);
    } else {
        let rest = padding.drop_last();
        assert forall|i: int| 0 <= i < rest.len() implies #[trigger] rest[i] == '\u{0}' by {
            assert(rest[i] == padding[i]);
        }
        law_padding_is_ignored(body, rest);
        assert((body + padding).drop_last() =~= body + rest);
        assert((body + padding).last() == '\u{0}');
    }
}

/// A form is read pair by pair, from ampersand to ampersand, and a pair is read
/// as a name up to its first equals sign and a value after it; without one it
/// is all name.
pub proof fn law_pairs_are_read_in_order(
    name: Seq<char>,
    value: Seq<char>,
    bare: Seq<char>,
    rest: Seq<char>,
)
    requires
        !name.contains('&') && !name.contains('='),
        !value.contains('&'),
        !bare.contains('&') && !bare.contains('='),
        rest.len() > 0,
        rest.last() != '\u{0}',
    ensures
        fields_of(name + seq!['='] + value + seq!['&'] + rest) == seq![
            (decoded(encode_utf8(name)), decoded(encode_utf8(value))),
        ] + fields_of(rest),
        fields_of(bare + seq!['&'] + rest) == seq![
            (decoded(encode_utf8(bare)), Seq::<char>::empty()),
        ] + fields_of(rest),
{
    let read = |pair: Seq<char>| field_of(pair);
    let pair = name + seq!['='] + value;
    assert forall|i: int| 0 <= i < pair.len() implies pair[i] != '&' by {
        if i < name.len() {
            assert(pair[i] == name[i]);
        } else if i > name.len() {
            assert(pair[i] == value[i - name.len() - 1]);
        }
    }
    lemma_split_first(name, seq!['='], value);
    lemma_split_first(pair, seq!['&'], rest);
    let whole = pair + seq!['&'] + rest;
    assert(whole.last() == rest.last());
    assert(fields_of(whole) =~= seq![field_of(pair)] + split(rest, seq!['&']).map_values(read));
    lemma_split_none(bare, seq!['=']);
    lemma_split_first(bare, seq!['&'], rest);
    let other = bare + seq!['&'] + rest;
    assert(other.last() == rest.last());
    assert(fields_of(other) =~= seq![field_of(bare)] + split(rest, seq!['&']).map_values(read));
}

/// Hexadecimal digits have their values, in either case; no other byte has one.
pub proof fn law_hexadecimal_digits(b: u8)
    ensures
        match hex_value(b) {
            Some(v) => is_hex_digit(b as char, v as int),
            None => !is_hex(b),
        },
        is_hex(b) ==> hex_value(b) is Some,
{
}

} // verus!
