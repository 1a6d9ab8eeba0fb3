use vstd::prelude::*;
use vstd::string::*;
use crate::ident::hex_digit;
use crate::types::{Metadata, MetadataView};

verus! {

/// The decimal digit character for a value below ten.
pub open spec fn dec_digit(d: int) -> char {
    seq!['0', '1', '2', '3', '4', '5', '6', '7', '8', '9'][d]
}

/// The decimal digits of a natural number, most significant first.
pub open spec fn dec_nat(n: nat) -> Seq<char>
    decreases n,
{
    if n < 10 {
        seq![dec_digit(n as int)]
    } else {
        dec_nat(n / 10) + seq![dec_digit((n % 10) as int)]
    }
}

/// The decimal rendering of an integer, with a leading minus sign when it
/// is negative.
pub open spec fn dec_int(t: int) -> Seq<char> {
    if t >= 0 {
        dec_nat(t as nat)
    } else {
        seq!['-'] + dec_nat((-t) as nat)
    }
}

/// How one character is written inside a quoted string: quotes and
/// backslashes take an escaping backslash, control characters become a
/// four-digit hex escape, everything else stands as it is.
pub open spec fn esc_char(c: char) -> Seq<char> {
    if c == '"' {
        seq!['\\', '"']
    } else if c == '\\' {
        seq!['\\', '\\']
    } else if (c as u32) < 32 {
        seq!['\\', 'u', '0', '0', hex_digit((c as u32) as int / 16), hex_digit((c as u32) as int % 16)]
    } else {
        seq![c]
    }
}

/// The escaped body of a quoted string.
pub open spec fn esc(s: Seq<char>) -> Seq<char>
    decreases s.len(),
{
    if s.len() == 0 {
        Seq::empty()
    } else {
        esc_char(s[0]) + esc(s.skip(1))
    }
}

/// A string as it stands in the encoding: escaped, between quotes.
pub open spec fn quoted(s: Seq<char>) -> Seq<char> {
    seq!['"'] + esc(s) + seq!['"']
}

/// The body of the tag array: the quoted tags, separated by commas.
pub open spec fn tags_json(tags: Seq<Seq<char>>) -> Seq<char>
    decreases tags.len(),
{
    if tags.len() == 0 {
        Seq::empty()
    } else if tags.len() == 1 {
        quoted(tags[0])
    } else {
        quoted(tags[0]) + seq![','] + tags_json(tags.skip(1))
    }
}

/// The canonical text encoding of a metadata value: one object holding the
/// file name, the extension, the tag array and the integer timestamp in
/// milliseconds.
pub open spec fn metadata_json(m: MetadataView) -> Seq<char> {
    "{\"file_name\":\""@ + esc(m.file_name) + "\",\"extension\":\""@ + esc(m.extension)
        + "\",\"tags\":["@ + tags_json(m.tags) + "],\"timestamp\":"@ + dec_int(m.timestamp)
        + "}"@
}

proof fn lemma_esc_concat(a: Seq<char>, b: Seq<char>)
    ensures
        esc(a + b) == esc(a) + esc(b),
    decreases a.len(),
{
    if a.len() == 0 {
        assert(a + b =~= b);
        assert(esc(a) + esc(b) =~= esc(b));
    } else {
        assert((a + b).skip(1) =~= a.skip(1) + b);
        lemma_esc_concat(a.skip(1), b);
        assert(esc(a + b) =~= esc(a) + esc(b));
    }
}

proof fn lemma_esc_snoc(s: Seq<char>, i: int)
    requires
        0 <= i < s.len(),
    ensures
        esc(s.take(i + 1)) == esc(s.take(i)) + esc_char(s[i]),
{
    assert(s.take(i + 1) =~= s.take(i) + seq![s[i]]);
    lemma_esc_concat(s.take(i), seq![s[i]]);
    let single = seq![s[i]];
    assert(single.skip(1) =~= Seq::<char>::empty());
    assert(esc(single) == esc_char(s[i]) + esc(Seq::<char>::empty()));
    assert(esc(single) =~= esc_char(s[i]));
}

proof fn lemma_tags_json_concat(a: Seq<Seq<char>>, b: Seq<Seq<char>>)
    requires
        a.len() > 0,
        b.len() > 0,
    ensures
        tags_json(a + b) == tags_json(a) + seq![','] + tags_json(b),
    decreases a.len(),
{
    if a.len() == 1 {
        assert((a + b)[0] == a[0]);
        assert((a + b).skip(1) =~= b);
        assert(tags_json(a + b) =~= tags_json(a) + seq![','] + tags_json(b));
    } else {
        assert((a + b).skip(1) =~= a.skip(1) + b);
        lemma_tags_json_concat(a.skip(1), b);
        assert(tags_json(a + b) =~= tags_json(a) + seq![','] + tags_json(b));
    }
}

proof fn lemma_tags_json_snoc(tags: Seq<Seq<char>>, i: int)
    requires
        0 <= i < tags.len(),
    ensures
        tags_json(tags.take(i + 1)) == if i == 0 {
            quoted(tags[0])
        } else {
            tags_json(tags.take(i)) + seq![','] + quoted(tags[i])
        },
{
    assert(tags.take(i + 1) =~= tags.take(i) + seq![tags[i]]);
    assert(tags_json(seq![tags[i]]) == quoted(tags[i]));
    if i == 0 {
        assert(tags.take(1) =~= seq![tags[0]]);
    } else {
        lemma_tags_json_concat(tags.take(i), seq![tags[i]]);
    }
}

/// Append the escaped body of `s` to `out`.
fn append_escaped(out: &mut String, s: &str)
    ensures
        final(out)@ == old(out)@ + esc(s@),
{
    let n = s.unicode_len();
    let mut i: usize = 0;
    while i < n
        invariant
            i <= n,
            n == s@.len(),
            out@ == old(out)@ + esc(s@.take(i as int)),
        decreases n - i,
    {
        let c = s.get_char(i);
        if c == '"' {
            out.append("\\\"");
            proof {
                reveal_strlit("\\\"");
                assert("\\\""@ =~= esc_char(s@[i as int]));
            }
        } else if c == '\\' {
            out.append("\\\\");
            proof {
                reveal_strlit("\\\\");
                assert("\\\\"@ =~= esc_char(s@[i as int]));
            }
        } else if (c as u32) < 32 {
            let v = c as u32;
            out.append("\\u00");
            out.append(hex_str((v / 16) as u8));
            out.append(hex_str((v % 16) as u8));
            proof {
                reveal_strlit("\\u00");
                lemma_hex_digit((c as u32) as int / 16);
                lemma_hex_digit((c as u32) as int % 16);
                assert("\\u00"@ + seq![hex_digit((c as u32) as int / 16)] + seq![
                    hex_digit((c as u32) as int % 16),
                ] =~= esc_char(s@[i as int]));
            }
        } else {
            out.append(s.substring_char(i, i + 1));
            proof {
                assert(s@.subrange(i as int, i as int + 1) =~= esc_char(s@[i as int]));
            }
        }
        proof {
            lemma_esc_snoc(s@, i as int);
            assert(out@ =~= old(out)@ + esc(s@.take(i as int + 1)));
        }
        i = i + 1;
    }
    proof {
        assert(s@.take(n as int) =~= s@);
    }
}

/// The lowercase hex digit as a one-character string.
pub(crate) fn hex_str(d: u8) -> (r: &'static str)
    requires
        d < 16,
    ensures
        r@ == seq![hex_digit(d as int)],
{
    let r: &'static str = match d {
        0 => "0",
        1 => "1",
        2 => "2",
        3 => "3",
        4 => "4",
        5 => "5",
        6 => "6",
        7 => "7",
        8 => "8",
        9 => "9",
        10 => "a",
        11 => "b",
        12 => "c",
        13 => "d",
        14 => "e",
        _ => "f",
    };
    proof {
        reveal_strlit("0");
        reveal_strlit("1");
        reveal_strlit("2");
        reveal_strlit("3");
        reveal_strlit("4");
        reveal_strlit("5");
        reveal_strlit("6");
        reveal_strlit("7");
        reveal_strlit("8");
        reveal_strlit("9");
        reveal_strlit("a");
        reveal_strlit("b");
        reveal_strlit("c");
        reveal_strlit("d");
        reveal_strlit("e");
        reveal_strlit("f");
    }
    r
}

/// The decimal digit as a one-character string.
fn digit_str(d: u8) -> (r: &'static str)
    requires
        d < 10,
    ensures
        r@ == seq![dec_digit(d as int)],
{
    let r: &'static str = match d {
        0 => "0",
        1 => "1",
        2 => "2",
        3 => "3",
        4 => "4",
        5 => "5",
        6 => "6",
        7 => "7",
        8 => "8",
        _ => "9",
    };
    proof {
        reveal_strlit("0");
        reveal_strlit("1");
        reveal_strlit("2");
        reveal_strlit("3");
        reveal_strlit("4");
        reveal_strlit("5");
        reveal_strlit("6");
        reveal_strlit("7");
        reveal_strlit("8");
        reveal_strlit("9");
    }
    r
}

/// The decimal digits of `n`.
fn dec_u64(n: u64) -> (r: String)
    ensures
        r@ == dec_nat(n as nat),
    decreases n,
{
    if n < 10 {
        String::from_str(digit_str(n as u8))
    } else {
        proof {
            assert(n / 10 < n) by (nonlinear_arith)
                requires n >= 10;
        }
        let mut s = dec_u64(n / 10);
        let last = digit_str((n % 10) as u8);
        s.append(last);
        s
    }
}

/// The decimal rendering of `t`, with a minus sign when it is negative.
fn dec_i64(t: i64) -> (r: String)
    ensures
        r@ == dec_int(t as int),
{
    if t >= 0 {
        dec_u64(t as u64)
    } else {
        let wide: i128 = -(t as i128);
        proof {
            assert(0 <= wide <= u64::MAX as i128);
        }
        let m: u64 = wide as u64;
        let mut s = String::from_str("-");
        let digits = dec_u64(m);
        s.append(digits.as_str());
        proof {
            reveal_strlit("-");
            assert(s@ =~= dec_int(t as int));
        }
        s
    }
}

/// Encode a metadata value into its canonical text form. Every metadata
/// value can be encoded: quotes and backslashes are escaped and control
/// characters become four-digit hex escapes.
pub fn metadata_to_json(m: &Metadata) -> (r: String)
    ensures
        r@ == metadata_json(m@),
{
    let tag_count = m.tags.len();
    let mut out = String::from_str("{\"file_name\":\"");
    append_escaped(&mut out, m.file_name.as_str());
    out.append("\",\"extension\":\"");
    append_escaped(&mut out, m.extension.as_str());
    out.append("\",\"tags\":[");
    let ghost before_tags = out@;
    let mut i: usize = 0;
    while i < tag_count
        invariant
            i <= tag_count,
            tag_count == m.tags@.len(),
            out@ == before_tags + tags_json(m@.tags.take(i as int)),
        decreases tag_count - i,
    {
        if i > 0 {
            out.append(",");
            proof {
                reveal_strlit(",");
            }
        }
        out.append("\"");
        append_escaped(&mut out, m.tags[i].text().as_str());
        out.append("\"");
        proof {
            reveal_strlit("\"");
            lemma_tags_json_snoc(m@.tags, i as int);
            assert(out@ =~= before_tags + tags_json(m@.tags.take(i as int + 1)));
        }
        i = i + 1;
    }
    out.append("],\"timestamp\":");
    let ts = dec_i64(m.timestamp);
    out.append(ts.as_str());
    out.append("}");
    proof {
        assert(m@.tags.take(tag_count as int) =~= m@.tags);
        assert(out@ =~= metadata_json(m@));
    }
    out
}


// ---------------------------------------------------------------------------
// Reading the canonical encoding back. The parser is the specification-level
// inverse of the encoder above; the round-trip law at the end of the module
// states that parsing any metadata value's encoding yields the
// value back.
// ---------------------------------------------------------------------------

pub open spec fn is_digit(c: char) -> bool {
    '0' as int <= c as int <= '9' as int
}

pub open spec fn digit_val(c: char) -> int {
    c as int - '0' as int
}

pub open spec fn pow10(k: nat) -> int
    decreases k,
{
    if k == 0 {
        1
    } else {
        10 * pow10((k - 1) as nat)
    }
}

/// Consume the leading run of digits, folding them onto `acc`.
pub open spec fn parse_digits(s: Seq<char>, acc: int) -> (int, Seq<char>)
    decreases s.len(),
{
    if s.len() > 0 && is_digit(s[0]) {
        parse_digits(s.skip(1), acc * 10 + digit_val(s[0]))
    } else {
        (acc, s)
    }
}

/// Read one integer, with an optional leading minus sign.
pub open spec fn parse_int(s: Seq<char>) -> Option<(int, Seq<char>)> {
    if s.len() > 1 && s[0] == '-' && is_digit(s[1]) {
        let (n, r) = parse_digits(s.skip(1), 0);
        Some((-n, r))
    } else if s.len() > 0 && is_digit(s[0]) {
        let (n, r) = parse_digits(s, 0);
        Some((n, r))
    } else {
        None
    }
}

/// A lowercase hexadecimal digit character.
pub open spec fn is_hex_lower(c: char) -> bool {
    ('0' as u32 <= c as u32 <= '9' as u32) || ('a' as u32 <= c as u32 <= 'f' as u32)
}

/// The value of a lowercase hexadecimal digit character.
pub open spec fn hex_val(c: char) -> int {
    if '0' as u32 <= c as u32 <= '9' as u32 {
        (c as u32) as int - ('0' as u32) as int
    } else {
        (c as u32) as int - ('a' as u32) as int + 10
    }
}

/// Read a quoted string's body up to and through its closing quote,
/// undoing the escapes; yields the content and what follows the quote.
pub open spec fn parse_string_body(s: Seq<char>) -> Option<(Seq<char>, Seq<char>)>
    decreases s.len(),
{
    if s.len() == 0 {
        None
    } else if s[0] == '"' {
        Some((Seq::empty(), s.skip(1)))
    } else if s[0] == '\\' {
        if s.len() >= 2 && (s[1] == '"' || s[1] == '\\') {
            match parse_string_body(s.skip(2)) {
                Some(p) => Some((seq![s[1]] + p.0, p.1)),
                None => None,
            }
        } else if s.len() >= 6 && s[1] == 'u' && s[2] == '0' && s[3] == '0' && is_hex_lower(
            s[4],
        ) && is_hex_lower(s[5]) && hex_val(s[4]) * 16 + hex_val(s[5]) < 32 {
            match parse_string_body(s.skip(6)) {
                Some(p) => Some(
                    (seq![((hex_val(s[4]) * 16 + hex_val(s[5])) as u32) as char] + p.0, p.1),
                ),
                None => None,
            }
        } else {
            None
        }
    } else if (s[0] as u32) >= 32 {
        match parse_string_body(s.skip(1)) {
            Some(p) => Some((seq![s[0]] + p.0, p.1)),
            None => None,
        }
    } else {
        None
    }
}

/// Read the body of the tag array up to and through its closing bracket.
pub open spec fn parse_tags(s: Seq<char>) -> Option<(Seq<Seq<char>>, Seq<char>)>
    decreases s.len(),
    via parse_tags_decreases
{
    if s.len() == 0 {
        None
    } else if s[0] == ']' {
        Some((Seq::empty(), s.skip(1)))
    } else if s[0] == '"' {
        match parse_string_body(s.skip(1)) {
            Some(p) => {
                let (t, r) = p;
                if r.len() > 0 && r[0] == ',' {
                    match parse_tags(r.skip(1)) {
                        Some(q) => if q.0.len() > 0 {
                            Some((seq![t] + q.0, q.1))
                        } else {
                            None
                        },
                        None => None,
                    }
                } else if r.len() > 0 && r[0] == ']' {
                    Some((seq![t], r.skip(1)))
                } else {
                    None
                }
            },
            None => None,
        }
    } else {
        None
    }
}

#[via_fn]
proof fn parse_tags_decreases(s: Seq<char>) {
    if s.len() > 0 && s[0] != ']' && s[0] == '"' {
        lemma_parse_string_body_shrinks(s.skip(1));
    }
}

/// Remove an expected literal prefix.
pub open spec fn strip(s: Seq<char>, lit: Seq<char>) -> Option<Seq<char>> {
    if s.len() >= lit.len() && s.take(lit.len() as int) == lit {
        Some(s.skip(lit.len() as int))
    } else {
        None
    }
}

/// Read a whole canonical metadata object.
pub open spec fn parse_metadata(s: Seq<char>) -> Option<MetadataView> {
    match strip(s, "{\"file_name\":\""@) {
        Some(s1) => match parse_string_body(s1) {
            Some(p1) => match strip(p1.1, ",\"extension\":\""@) {
                Some(s2) => match parse_string_body(s2) {
                    Some(p2) => match strip(p2.1, ",\"tags\":["@) {
                        Some(s3) => match parse_tags(s3) {
                            Some(p3) => match strip(p3.1, ",\"timestamp\":"@) {
                                Some(s4) => match parse_int(s4) {
                                    Some(p4) => if p4.1 == "}"@ {
                                        Some(MetadataView {
                                            file_name: p1.0,
                                            extension: p2.0,
                                            tags: p3.0,
                                            timestamp: p4.0,
                                        })
                                    } else {
                                        None
                                    },
                                    None => None,
                                },
                                None => None,
                            },
                            None => None,
                        },
                        None => None,
                    },
                    None => None,
                },
                None => None,
            },
            None => None,
        },
        None => None,
    }
}

proof fn lemma_parse_string_body_shrinks(s: Seq<char>)
    ensures
        parse_string_body(s) matches Some(p) ==> p.1.len() < s.len(),
    decreases s.len(),
{
    if s.len() > 0 && s[0] != '"' {
        if s[0] == '\\' {
            if s.len() >= 2 && (s[1] == '"' || s[1] == '\\') {
                lemma_parse_string_body_shrinks(s.skip(2));
            } else if s.len() >= 6 {
                lemma_parse_string_body_shrinks(s.skip(6));
            }
        } else if (s[0] as u32) >= 32 {
            lemma_parse_string_body_shrinks(s.skip(1));
        }
    }
}

proof fn lemma_dec_digit(d: int)
    requires
        0 <= d < 10,
    ensures
        is_digit(dec_digit(d)),
        digit_val(dec_digit(d)) == d,
{
    if d == 0 {
        assert(dec_digit(0) == '0');
    } else if d == 1 {
        assert(dec_digit(1) == '1');
    } else if d == 2 {
        assert(dec_digit(2) == '2');
    } else if d == 3 {
        assert(dec_digit(3) == '3');
    } else if d == 4 {
        assert(dec_digit(4) == '4');
    } else if d == 5 {
        assert(dec_digit(5) == '5');
    } else if d == 6 {
        assert(dec_digit(6) == '6');
    } else if d == 7 {
        assert(dec_digit(7) == '7');
    } else if d == 8 {
        assert(dec_digit(8) == '8');
    } else {
        assert(dec_digit(9) == '9');
    }
}

proof fn lemma_dec_nat_digits(n: nat)
    ensures
        dec_nat(n).len() >= 1,
        forall|i: int| 0 <= i < dec_nat(n).len() ==> is_digit(#[trigger] dec_nat(n)[i]),
    decreases n,
{
    if n < 10 {
        lemma_dec_digit(n as int);
    } else {
        lemma_dec_nat_digits(n / 10);
        lemma_dec_digit((n % 10) as int);
        assert forall|i: int| 0 <= i < dec_nat(n).len() implies is_digit(
            #[trigger] dec_nat(n)[i],
        ) by {
            if i < dec_nat(n / 10).len() {
                assert(dec_nat(n)[i] == dec_nat(n / 10)[i]);
            } else {
                assert(dec_nat(n)[i] == dec_digit((n % 10) as int));
            }
        }
    }
}

proof fn lemma_parse_digits_dec(n: nat, rest: Seq<char>, acc: int)
    ensures
        parse_digits(dec_nat(n) + rest, acc) == parse_digits(
            rest,
            acc * pow10(dec_nat(n).len()) + n,
        ),
    decreases n,
{
    lemma_dec_nat_digits(n);
    if n < 10 {
        let s = dec_nat(n) + rest;
        lemma_dec_digit(n as int);
        assert(s[0] == dec_digit(n as int));
        assert(s.skip(1) =~= rest);
        assert(dec_nat(n).len() == 1);
        assert(pow10(0) == 1);
        assert(pow10(1) == 10);
    } else {
        let d = dec_digit((n % 10) as int);
        lemma_dec_digit((n % 10) as int);
        assert(dec_nat(n) + rest =~= dec_nat(n / 10) + (seq![d] + rest));
        lemma_parse_digits_dec(n / 10, seq![d] + rest, acc);
        let l1 = dec_nat(n / 10).len();
        let acc2 = acc * pow10(l1) + n / 10;
        assert((seq![d] + rest)[0] == d);
        assert((seq![d] + rest).skip(1) =~= rest);
        assert(parse_digits(seq![d] + rest, acc2) == parse_digits(rest, acc2 * 10 + (n % 10)));
        assert(pow10(l1 + 1) == 10 * pow10(l1));
        assert((acc * pow10(l1) + n / 10) * 10 + n % 10 == acc * (10 * pow10(l1)) + ((n / 10)
            * 10 + n % 10)) by (nonlinear_arith);
        vstd::arithmetic::div_mod::lemma_fundamental_div_mod(n as int, 10);
        assert(dec_nat(n).len() == l1 + 1);
    }
}

proof fn lemma_parse_int_dec(t: int, rest: Seq<char>)
    requires
        rest.len() == 0 || !is_digit(rest[0]),
    ensures
        parse_int(dec_int(t) + rest) == Some((t, rest)),
{
    if t >= 0 {
        let n = t as nat;
        lemma_dec_nat_digits(n);
        let s = dec_nat(n) + rest;
        assert(s[0] == dec_nat(n)[0]);
        if s.len() > 1 && s[0] == '-' && is_digit(s[1]) {
            assert(is_digit('-') == false);
            assert(false);
        }
        lemma_parse_digits_dec(n, rest, 0);
        assert(0 * pow10(dec_nat(n).len()) + n == n);
        assert(parse_digits(rest, t) == (t, rest));
    } else {
        let n = (-t) as nat;
        lemma_dec_nat_digits(n);
        let s = dec_int(t) + rest;
        assert(s[0] == '-');
        assert(s.skip(1) =~= dec_nat(n) + rest);
        assert(s[1] == dec_nat(n)[0]);
        lemma_parse_digits_dec(n, rest, 0);
        assert(0 * pow10(dec_nat(n).len()) + n == n);
        assert(parse_digits(rest, n as int) == (n as int, rest));
    }
}

proof fn lemma_hex_digit(d: int)
    requires
        0 <= d < 16,
    ensures
        is_hex_lower(hex_digit(d)),
        hex_val(hex_digit(d)) == d,
        hex_digit(d) != '"',
        hex_digit(d) != '\\',
{
    if d == 0 {
        assert(hex_digit(0) == '0');
    } else if d == 1 {
        assert(hex_digit(1) == '1');
    } else if d == 2 {
        assert(hex_digit(2) == '2');
    } else if d == 3 {
        assert(hex_digit(3) == '3');
    } else if d == 4 {
        assert(hex_digit(4) == '4');
    } else if d == 5 {
        assert(hex_digit(5) == '5');
    } else if d == 6 {
        assert(hex_digit(6) == '6');
    } else if d == 7 {
        assert(hex_digit(7) == '7');
    } else if d == 8 {
        assert(hex_digit(8) == '8');
    } else if d == 9 {
        assert(hex_digit(9) == '9');
    } else if d == 10 {
        assert(hex_digit(10) == 'a');
    } else if d == 11 {
        assert(hex_digit(11) == 'b');
    } else if d == 12 {
        assert(hex_digit(12) == 'c');
    } else if d == 13 {
        assert(hex_digit(13) == 'd');
    } else if d == 14 {
        assert(hex_digit(14) == 'e');
    } else {
        assert(hex_digit(15) == 'f');
    }
}

proof fn lemma_parse_string_body_esc(x: Seq<char>, rest: Seq<char>)
    ensures
        parse_string_body(esc(x) + seq!['"'] + rest) == Some((x, rest)),
    decreases x.len(),
{
    let s = esc(x) + seq!['"'] + rest;
    if x.len() == 0 {
        assert(s =~= seq!['"'] + rest);
        assert(s[0] == '"');
        assert(s.skip(1) =~= rest);
    } else {
        let x1 = x.skip(1);
        lemma_parse_string_body_esc(x1, rest);
        let s1 = esc(x1) + seq!['"'] + rest;
        if x[0] == '"' {
            assert(esc_char(x[0]) =~= seq!['\\', '"']);
            assert(s =~= seq!['\\', '"'] + s1);
            assert(s[0] == '\\' && s[1] == '"');
            assert(s.skip(2) =~= s1);
            assert(seq![s[1]] + x1 =~= x);
        } else if x[0] == '\\' {
            assert(esc_char(x[0]) =~= seq!['\\', '\\']);
            assert(s =~= seq!['\\', '\\'] + s1);
            assert(s[0] == '\\' && s[1] == '\\');
            assert(s.skip(2) =~= s1);
            assert(seq![s[1]] + x1 =~= x);
        } else if (x[0] as u32) < 32 {
            let v = (x[0] as u32) as int;
            assert(0 <= v < 32);
            let h1 = hex_digit(v / 16);
            let h2 = hex_digit(v % 16);
            lemma_hex_digit(v / 16);
            lemma_hex_digit(v % 16);
            assert(esc_char(x[0]) =~= seq!['\\', 'u', '0', '0', h1, h2]);
            assert(s =~= seq!['\\', 'u', '0', '0', h1, h2] + s1);
            assert(s[0] == '\\' && s[1] == 'u' && s[2] == '0' && s[3] == '0' && s[4] == h1
                && s[5] == h2);
            assert(s[1] != '"' && s[1] != '\\');
            assert(hex_val(s[4]) * 16 + hex_val(s[5]) == (v / 16) * 16 + v % 16);
            assert((v / 16) * 16 + v % 16 == v);
            assert(s.skip(6) =~= s1);
            vstd::utf8::char_u32_cast(x[0], x[0] as u32);
            assert((hex_val(s[4]) * 16 + hex_val(s[5])) as u32 == x[0] as u32);
            assert(((hex_val(s[4]) * 16 + hex_val(s[5])) as u32) as char == x[0]);
            assert(seq![((hex_val(s[4]) * 16 + hex_val(s[5])) as u32) as char] + x1 =~= x);
        } else {
            assert(esc_char(x[0]) =~= seq![x[0]]);
            assert(s =~= seq![x[0]] + s1);
            assert(s[0] == x[0]);
            assert(s.skip(1) =~= s1);
            assert(seq![s[0]] + x1 =~= x);
        }
    }
}

proof fn lemma_parse_tags_json(tags: Seq<Seq<char>>, rest: Seq<char>)
    ensures
        parse_tags(tags_json(tags) + seq![']'] + rest) == Some((tags, rest)),
    decreases tags.len(),
{
    let s = tags_json(tags) + seq![']'] + rest;
    if tags.len() == 0 {
        assert(s =~= seq![']'] + rest);
        assert(s[0] == ']');
        assert(s.skip(1) =~= rest);
        assert(Seq::<Seq<char>>::empty() =~= tags);
    } else {
        let t0 = tags[0];
        if tags.len() == 1 {
            let tail = seq![']'] + rest;
            assert(s =~= seq!['"'] + (esc(t0) + seq!['"'] + tail));
            assert(s[0] == '"');
            assert(s[0] != ']');
            assert(s.skip(1) =~= esc(t0) + seq!['"'] + tail);
            lemma_parse_string_body_esc(t0, tail);
            assert(tail[0] == ']');
            assert(tail[0] != ',');
            assert(tail.skip(1) =~= rest);
            assert(seq![t0] =~= tags);
        } else {
            let tags1 = tags.skip(1);
            let tail = seq![','] + (tags_json(tags1) + seq![']'] + rest);
            assert(s =~= seq!['"'] + (esc(t0) + seq!['"'] + tail));
            assert(s[0] == '"');
            assert(s[0] != ']');
            assert(s.skip(1) =~= esc(t0) + seq!['"'] + tail);
            lemma_parse_string_body_esc(t0, tail);
            assert(tail[0] == ',');
            assert(tail.skip(1) =~= tags_json(tags1) + seq![']'] + rest);
            lemma_parse_tags_json(tags1, rest);
            assert(tags1.len() > 0);
            assert(seq![t0] + tags1 =~= tags);
        }
    }
}

proof fn lemma_strip(lit: Seq<char>, rest: Seq<char>)
    ensures
        strip(lit + rest, lit) == Some(rest),
{
    assert((lit + rest).take(lit.len() as int) =~= lit);
    assert((lit + rest).skip(lit.len() as int) =~= rest);
}

/// The round-trip law of the canonical encoding: parsing the encoding of
/// any metadata value yields the value back, field by field.
pub proof fn lemma_metadata_json_round_trip(m: MetadataView)
    ensures
        parse_metadata(metadata_json(m)) == Some(m),
{
    reveal_strlit("{\"file_name\":\"");
    reveal_strlit("\",\"extension\":\"");
    reveal_strlit(",\"extension\":\"");
    reveal_strlit("\",\"tags\":[");
    reveal_strlit(",\"tags\":[");
    reveal_strlit("],\"timestamp\":");
    reveal_strlit(",\"timestamp\":");
    reveal_strlit("}");
    let lit1 = "{\"file_name\":\""@;
    let lit2 = ",\"extension\":\""@;
    let lit3 = ",\"tags\":["@;
    let lit4 = ",\"timestamp\":"@;
    let close = "}"@;
    let s = metadata_json(m);
    let rest4 = dec_int(m.timestamp) + close;
    let rest3 = lit4 + rest4;
    let rest2 = lit3 + (tags_json(m.tags) + seq![']'] + rest3);
    let rest1 = lit2 + (esc(m.extension) + seq!['"'] + rest2);
    assert(s =~= lit1 + (esc(m.file_name) + seq!['"'] + rest1));
    lemma_strip(lit1, esc(m.file_name) + seq!['"'] + rest1);
    lemma_parse_string_body_esc(m.file_name, rest1);
    lemma_strip(lit2, esc(m.extension) + seq!['"'] + rest2);
    lemma_parse_string_body_esc(m.extension, rest2);
    lemma_strip(lit3, tags_json(m.tags) + seq![']'] + rest3);
    lemma_parse_tags_json(m.tags, rest3);
    lemma_strip(lit4, rest4);
    assert(close[0] == '}');
    assert(!is_digit('}'));
    lemma_parse_int_dec(m.timestamp, close);
    let parsed = parse_metadata(s);
    assert(parsed == Some(MetadataView {
        file_name: m.file_name,
        extension: m.extension,
        tags: m.tags,
        timestamp: m.timestamp,
    }));
    assert(MetadataView {
        file_name: m.file_name,
        extension: m.extension,
        tags: m.tags,
        timestamp: m.timestamp,
    } == m);
}

} // verus!
