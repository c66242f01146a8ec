//! The output format: a pretty-printed JSON array of product objects, one
//! field per line, two-space indents. The emitter is verified against the
//! spec `json_products`; `parse_products_spec` is the mathematical reading
//! of that format, and the round-trip law proves it recovers the records.
//!
//! Quote, backslash and every control character are escaped in string
//! values: backspace, tab, newline, form feed and carriage return by their
//! named escapes, the rest as `\u00` with two lowercase hex digits — the
//! same set a standard JSON serializer escapes.

use vstd::prelude::*;
use crate::num::all_digits;
use crate::num::dec_digits;
use crate::num::digit_char;
use crate::num::digit_val;
use crate::num::digits_value;
use crate::num::fmt_u64;
use crate::num::is_digit_char;
use crate::product::Product;
use crate::product::ProductView;
use crate::text::chars_of;
use crate::text::push_all;
use crate::text::string_of_chars;

verus! {

/// The lowercase hexadecimal digit of `d`.
pub open spec fn hex_char(d: nat) -> char {
    if d < 10 {
        digit_char(d)
    } else if d == 10 {
        'a'
    } else if d == 11 {
        'b'
    } else if d == 12 {
        'c'
    } else if d == 13 {
        'd'
    } else if d == 14 {
        'e'
    } else {
        'f'
    }
}

pub open spec fn is_hex_digit(c: char) -> bool {
    is_digit_char(c) || c == 'a' || c == 'b' || c == 'c' || c == 'd' || c == 'e' || c == 'f'
}

pub open spec fn hex_val(c: char) -> nat {
    if is_digit_char(c) {
        digit_val(c)
    } else if c == 'a' {
        10
    } else if c == 'b' {
        11
    } else if c == 'c' {
        12
    } else if c == 'd' {
        13
    } else if c == 'e' {
        14
    } else {
        15
    }
}

/// How one character appears inside a JSON string value: quote, backslash
/// and the named control characters as two-character escapes, the other
/// control characters as `\u00` with two lowercase hex digits, anything
/// else as itself.
pub open spec fn escape_char(c: char) -> Seq<char> {
    if c == '"' {
        seq!['\\', '"']
    } else if c == '\\' {
        seq!['\\', '\\']
    } else if c == '\u{8}' {
        seq!['\\', 'b']
    } else if c == '\t' {
        seq!['\\', 't']
    } else if c == '\n' {
        seq!['\\', 'n']
    } else if c == '\u{C}' {
        seq!['\\', 'f']
    } else if c == '\r' {
        seq!['\\', 'r']
    } else if (c as u32) < 32 {
        seq![
            '\\',
            'u',
            '0',
            '0',
            hex_char((c as u32 / 16) as nat),
            hex_char((c as u32 % 16) as nat),
        ]
    } else {
        seq![c]
    }
}

/// A string value's characters, escaped.
pub open spec fn escape(s: Seq<char>) -> Seq<char>
    decreases s.len(),
{
    if s.len() == 0 {
        Seq::<char>::empty()
    } else {
        escape_char(s[0]) + escape(s.drop_first())
    }
}

/// An escaped string value followed by its closing quote.
pub open spec fn qstr(s: Seq<char>) -> Seq<char> {
    escape(s) + seq!['"']
}

/// The text between one object's opening brace and its first string value,
/// and, below, each further literal segment between two field values.
pub open spec fn lit_open() -> Seq<char> {
    "{\n    \"image_url\": \""@
}

pub open spec fn lit_hr() -> Seq<char> {
    ",\n    \"image_url_high_res\": \""@
}

pub open spec fn lit_brand() -> Seq<char> {
    ",\n    \"brand_name\": \""@
}

pub open spec fn lit_title() -> Seq<char> {
    ",\n    \"title\": \""@
}

pub open spec fn lit_desc() -> Seq<char> {
    ",\n    \"short_description\": \""@
}

pub open spec fn lit_price() -> Seq<char> {
    ",\n    \"current_price\": \""@
}

pub open spec fn lit_id() -> Seq<char> {
    ",\n    \"id\": \""@
}

pub open spec fn lit_stock() -> Seq<char> {
    "\",\n    \"stock\": "@
}

pub open spec fn lit_disc() -> Seq<char> {
    ",\n    \"discount\": "@
}

pub open spec fn lit_close() -> Seq<char> {
    "\n  }"@
}

/// One product as a pretty-printed JSON object, indented for the array.
pub open spec fn obj_of(p: ProductView) -> Seq<char> {
    lit_open() + qstr(p.image_url) + lit_hr() + qstr(p.image_url_high_res) + lit_brand() + qstr(
        p.brand_name,
    ) + lit_title() + qstr(p.title) + lit_desc() + qstr(p.short_description) + lit_price() + qstr(
        p.current_price,
    ) + lit_id() + escape(p.id) + lit_stock() + dec_digits(p.stock as nat) + lit_disc()
        + dec_digits(p.discount as nat) + lit_close()
}

/// The objects of a non-empty array, separated by the array's indent.
pub open spec fn objs(ps: Seq<ProductView>) -> Seq<char>
    decreases ps.len(),
{
    if ps.len() == 0 {
        Seq::<char>::empty()
    } else if ps.len() == 1 {
        obj_of(ps[0])
    } else {
        obj_of(ps[0]) + ",\n  "@ + objs(ps.drop_first())
    }
}

/// The whole output text: a pretty-printed JSON array of the records.
pub open spec fn json_products(ps: Seq<ProductView>) -> Seq<char> {
    if ps.len() == 0 {
        "[]"@
    } else {
        "[\n  "@ + objs(ps) + "\n]"@
    }
}

proof fn lemma_escape_snoc(s: Seq<char>, c: char)
    ensures
        escape(s.push(c)) == escape(s) + escape_char(c),
    decreases s.len(),
{
    if s.len() == 0 {
        assert(s.push(c)[0] == c);
        assert(s.push(c).drop_first() =~= Seq::<char>::empty());
        assert(escape(Seq::<char>::empty()) == Seq::<char>::empty());
        assert(escape(s.push(c)) =~= escape(s) + escape_char(c));
    } else {
        assert(s.push(c)[0] == s[0]);
        assert(s.push(c).drop_first() =~= s.drop_first().push(c));
        lemma_escape_snoc(s.drop_first(), c);
        assert(escape(s.push(c)) =~= escape(s) + escape_char(c));
    }
}

fn hex_char_of(d: u8) -> (r: char)
    requires
        d < 16,
    ensures
        r == hex_char(d as nat),
{
    if d == 0 {
        '0'
    } else if d == 1 {
        '1'
    } else if d == 2 {
        '2'
    } else if d == 3 {
        '3'
    } else if d == 4 {
        '4'
    } else if d == 5 {
        '5'
    } else if d == 6 {
        '6'
    } else if d == 7 {
        '7'
    } else if d == 8 {
        '8'
    } else if d == 9 {
        '9'
    } else if d == 10 {
        'a'
    } else if d == 11 {
        'b'
    } else if d == 12 {
        'c'
    } else if d == 13 {
        'd'
    } else if d == 14 {
        'e'
    } else {
        'f'
    }
}

fn hex_val_of(c: char) -> (r: Option<u8>)
    ensures
        r is Some <==> is_hex_digit(c),
        r is Some ==> r->0 == hex_val(c) && r->0 < 16,
{
    match crate::num::digit_of(c) {
        Some(d) => Some(d),
        None => {
            if c == 'a' {
                Some(10)
            } else if c == 'b' {
                Some(11)
            } else if c == 'c' {
                Some(12)
            } else if c == 'd' {
                Some(13)
            } else if c == 'e' {
                Some(14)
            } else if c == 'f' {
                Some(15)
            } else {
                None
            }
        },
    }
}

fn push_escaped(out: &mut Vec<char>, s: &String)
    ensures
        final(out)@ == old(out)@ + escape(s@),
{
    let cs = chars_of(s.as_str());
    let mut i: usize = 0;
    proof {
        assert(s@.take(0) =~= Seq::<char>::empty());
        assert(out@ + escape(Seq::<char>::empty()) =~= out@);
    }
    while i < cs.len()
        invariant
            0 <= i <= cs.len(),
            cs@ == s@,
            out@ == old(out)@ + escape(s@.take(i as int)),
        decreases cs.len() - i,
    {
        let c = cs[i];
        proof {
            assert(s@.take(i + 1) =~= s@.take(i as int).push(c));
            lemma_escape_snoc(s@.take(i as int), c);
        }
        let ghost pre = out@;
        if c == '"' {
            out.push('\\');
            out.push('"');
        } else if c == '\\' {
            out.push('\\');
            out.push('\\');
        } else if c == '\u{8}' {
            out.push('\\');
            out.push('b');
        } else if c == '\t' {
            out.push('\\');
            out.push('t');
        } else if c == '\n' {
            out.push('\\');
            out.push('n');
        } else if c == '\u{C}' {
            out.push('\\');
            out.push('f');
        } else if c == '\r' {
            out.push('\\');
            out.push('r');
        } else if (c as u32) < 32 {
            let n = c as u32;
            out.push('\\');
            out.push('u');
            out.push('0');
            out.push('0');
            out.push(hex_char_of((n / 16) as u8));
            out.push(hex_char_of((n % 16) as u8));
        } else {
            out.push(c);
        }
        proof {
            assert(out@ =~= pre + escape_char(c));
            assert(out@ =~= old(out)@ + escape(s@.take(i + 1)));
        }
        i += 1;
    }
    proof {
        assert(s@.take(s@.len() as int) =~= s@);
    }
}

fn push_literal(out: &mut Vec<char>, lit: &str)
    ensures
        final(out)@ == old(out)@ + lit@,
{
    let cs = chars_of(lit);
    push_all(out, &cs);
}

#[verifier::rlimit(100)]
fn push_object(out: &mut Vec<char>, p: &Product)
    ensures
        final(out)@ == old(out)@ + obj_of(p@),
{
    push_literal(out, "{\n    \"image_url\": \"");
    push_escaped(out, &p.image_url);
    push_literal(out, "\"");
    push_literal(out, ",\n    \"image_url_high_res\": \"");
    push_escaped(out, &p.image_url_high_res);
    push_literal(out, "\"");
    push_literal(out, ",\n    \"brand_name\": \"");
    push_escaped(out, &p.brand_name);
    push_literal(out, "\"");
    push_literal(out, ",\n    \"title\": \"");
    push_escaped(out, &p.title);
    push_literal(out, "\"");
    push_literal(out, ",\n    \"short_description\": \"");
    push_escaped(out, &p.short_description);
    push_literal(out, "\"");
    push_literal(out, ",\n    \"current_price\": \"");
    push_escaped(out, &p.current_price);
    push_literal(out, "\"");
    push_literal(out, ",\n    \"id\": \"");
    push_escaped(out, &p.id);
    push_literal(out, "\",\n    \"stock\": ");
    let stock_digits = fmt_u64(p.stock as u64);
    push_all(out, &stock_digits);
    push_literal(out, ",\n    \"discount\": ");
    let disc_digits = fmt_u64(p.discount as u64);
    push_all(out, &disc_digits);
    push_literal(out, "\n  }");
    proof {
        assert(seq!['"'] =~= "\""@) by {
            reveal_strlit("\"");
        }
        assert(out@ =~= old(out)@ + obj_of(p@));
    }
}

/// Serialize the records as the pretty-printed JSON array, in order.
pub fn products_to_json(products: &Vec<Product>) -> (r: String)
    ensures
        r@ == json_products(products.deep_view()),
{
    let ghost psv = products.deep_view();
    proof {
        assert(psv.len() == products@.len());
    }
    if products.len() == 0 {
        let cs = chars_of("[]");
        return string_of_chars(&cs);
    }
    let mut out: Vec<char> = Vec::new();
    push_literal(&mut out, "[\n  ");
    let mut i: usize = 0;
    let ghost open = "[\n  "@;
    while i < products.len()
        invariant
            0 <= i <= products@.len(),
            psv == products.deep_view(),
            psv.len() == products@.len(),
            i > 0 ==> out@ == open + objs(psv.take(i as int)),
            i == 0 ==> out@ == open,
        decreases products@.len() - i,
    {
        if i > 0 {
            push_literal(&mut out, ",\n  ");
        }
        push_object(&mut out, &products[i]);
        proof {
            assert(products@[i as int].deep_view() == psv[i as int]);
            assert(products@[i as int]@ == psv[i as int]);
            if i == 0 {
                assert(psv.take(1)[0] == psv[0]);
                assert(psv.take(1).len() == 1);
                assert(objs(psv.take(1)) == obj_of(psv[0]));
                assert(out@ =~= open + objs(psv.take(1)));
            } else {
                lemma_objs_snoc(psv.take(i as int), psv[i as int]);
                assert(psv.take(i + 1) =~= psv.take(i as int).push(psv[i as int]));
                assert(out@ =~= open + objs(psv.take(i + 1)));
            }
        }
        i += 1;
    }
    push_literal(&mut out, "\n]");
    proof {
        assert(psv.take(psv.len() as int) =~= psv);
        assert(out@ =~= json_products(psv));
    }
    string_of_chars(&out)
}

/// The unescaped meaning of the character after a backslash, for the named
/// escapes; a `u` escape is read separately.
pub open spec fn unescape_char(c: char) -> Option<char> {
    if c == '"' {
        Some('"')
    } else if c == '\\' {
        Some('\\')
    } else if c == 'b' {
        Some('\u{8}')
    } else if c == 't' {
        Some('\t')
    } else if c == 'n' {
        Some('\n')
    } else if c == 'f' {
        Some('\u{C}')
    } else if c == 'r' {
        Some('\r')
    } else {
        None
    }
}

/// Consume `lit` from the front of `s`.
pub open spec fn expect(s: Seq<char>, lit: Seq<char>) -> Option<Seq<char>> {
    if lit.len() <= s.len() && s.take(lit.len() as int) == lit {
        Some(s.skip(lit.len() as int))
    } else {
        None
    }
}

/// Read a string value up to its closing quote, undoing the escapes.
pub open spec fn parse_string_body(s: Seq<char>) -> Option<(Seq<char>, Seq<char>)>
    decreases s.len(),
{
    if s.len() == 0 {
        None
    } else if s[0] == '"' {
        Some((Seq::<char>::empty(), s.drop_first()))
    } else if s[0] == '\\' {
        if s.len() < 2 {
            None
        } else if s[1] == 'u' {
            if s.len() >= 6 && s[2] == '0' && s[3] == '0' && is_hex_digit(s[4]) && is_hex_digit(
                s[5],
            ) && hex_val(s[4]) * 16 + hex_val(s[5]) < 32 {
                match parse_string_body(s.skip(6)) {
                    None => None,
                    Some(tr) => Some(
                        (seq![((hex_val(s[4]) * 16 + hex_val(s[5])) as char)] + tr.0, tr.1),
                    ),
                }
            } else {
                None
            }
        } else {
            match unescape_char(s[1]) {
                None => None,
                Some(c) => match parse_string_body(s.skip(2)) {
                    None => None,
                    Some(tr) => Some((seq![c] + tr.0, tr.1)),
                },
            }
        }
    } else {
        match parse_string_body(s.drop_first()) {
            None => None,
            Some(tr) => Some((seq![s[0]] + tr.0, tr.1)),
        }
    }
}

/// Split the longest digit prefix off `s`.
pub open spec fn split_digits(s: Seq<char>) -> (Seq<char>, Seq<char>)
    decreases s.len(),
{
    if s.len() == 0 || !is_digit_char(s[0]) {
        (Seq::<char>::empty(), s)
    } else {
        let dr = split_digits(s.drop_first());
        (seq![s[0]] + dr.0, dr.1)
    }
}

/// Read a byte-sized decimal number.
pub open spec fn parse_number(s: Seq<char>) -> Option<(u8, Seq<char>)> {
    let dr = split_digits(s);
    if dr.0.len() > 0 && digits_value(dr.0) <= 255 {
        Some((digits_value(dr.0) as u8, dr.1))
    } else {
        None
    }
}

/// The literal between the id value's closing quote and the stock number.
pub open spec fn lit_stock_tail() -> Seq<char> {
    ",\n    \"stock\": "@
}

/// Read one product object.
pub open spec fn parse_object(s: Seq<char>) -> Option<(ProductView, Seq<char>)> {
    match expect(s, lit_open()) {
        None => None,
        Some(s1) => match parse_string_body(s1) {
            None => None,
            Some(f1) => match expect(f1.1, lit_hr()) {
                None => None,
                Some(s2) => match parse_string_body(s2) {
                    None => None,
                    Some(f2) => match expect(f2.1, lit_brand()) {
                        None => None,
                        Some(s3) => match parse_string_body(s3) {
                            None => None,
                            Some(f3) => match expect(f3.1, lit_title()) {
                                None => None,
                                Some(s4) => match parse_string_body(s4) {
                                    None => None,
                                    Some(f4) => match expect(f4.1, lit_desc()) {
                                        None => None,
                                        Some(s5) => match parse_string_body(s5) {
                                            None => None,
                                            Some(f5) => match expect(f5.1, lit_price()) {
                                                None => None,
                                                Some(s6) => match parse_string_body(s6) {
                                                    None => None,
                                                    Some(f6) => match expect(f6.1, lit_id()) {
                                                        None => None,
                                                        Some(s7) => match parse_string_body(s7) {
                                                            None => None,
                                                            Some(f7) => match expect(
                                                                f7.1,
                                                                lit_stock_tail(),
                                                            ) {
                                                                None => None,
                                                                Some(s8) => match parse_number(
                                                                    s8,
                                                                ) {
                                                                    None => None,
                                                                    Some(n1) => match expect(
                                                                        n1.1,
                                                                        lit_disc(),
                                                                    ) {
                                                                        None => None,
                                                                        Some(s9) => match parse_number(
                                                                            s9,
                                                                        ) {
                                                                            None => None,
                                                                            Some(n2) => match expect(
                                                                                n2.1,
                                                                                lit_close(),
                                                                            ) {
                                                                                None => None,
                                                                                Some(rest) => Some(
                                                                                    (
                                                                                        ProductView {
                                                                                            image_url: f1.0,
                                                                                            image_url_high_res: f2.0,
                                                                                            brand_name: f3.0,
                                                                                            title: f4.0,
                                                                                            short_description: f5.0,
                                                                                            current_price: f6.0,
                                                                                            id: f7.0,
                                                                                            stock: n1.0,
                                                                                            discount: n2.0,
                                                                                        },
                                                                                        rest,
                                                                                    ),
                                                                                ),
                                                                            },
                                                                        },
                                                                    },
                                                                },
                                                            },
                                                        },
                                                    },
                                                },
                                            },
                                        },
                                    },
                                },
                            },
                        },
                    },
                },
            },
        },
    }
}

/// Read the objects of a non-empty array, the array's closing bracket
/// included.
pub open spec fn parse_items(s: Seq<char>, fuel: nat) -> Option<Seq<ProductView>>
    decreases fuel,
{
    match parse_object(s) {
        None => None,
        Some(pr) => {
            if pr.1 == "\n]"@ {
                Some(seq![pr.0])
            } else {
                match expect(pr.1, ",\n  "@) {
                    None => None,
                    Some(r2) => {
                        if fuel == 0 {
                            None
                        } else {
                            match parse_items(r2, (fuel - 1) as nat) {
                                None => None,
                                Some(ps) => Some(seq![pr.0] + ps),
                            }
                        }
                    },
                }
            }
        },
    }
}

/// The mathematical reading of the output format.
pub open spec fn parse_products_spec(s: Seq<char>) -> Option<Seq<ProductView>> {
    if s == "[]"@ {
        Some(Seq::<ProductView>::empty())
    } else {
        match expect(s, "[\n  "@) {
            None => None,
            Some(r) => parse_items(r, s.len()),
        }
    }
}

fn expect_at(v: &Vec<char>, i: usize, lit: &str) -> (r: Option<usize>)
    requires
        i <= v.len(),
    ensures
        match r {
            Some(j) => i <= j <= v.len() && expect(v@.skip(i as int), lit@) == Some(
                v@.skip(j as int),
            ),
            None => expect(v@.skip(i as int), lit@) is None,
        },
{
    let lc = chars_of(lit);
    if lc.len() > v.len() - i {
        return None;
    }
    let mut k: usize = 0;
    while k < lc.len()
        invariant
            0 <= k <= lc.len(),
            lc@ == lit@,
            i <= v.len(),
            lc.len() <= v.len() - i,
            forall|j: int| 0 <= j < k ==> v@[i + j] == lit@[j],
        decreases lc.len() - k,
    {
        if v[i + k] != lc[k] {
            proof {
                assert(v@.skip(i as int).take(lit@.len() as int)[k as int] == v@[i + k]);
            }
            return None;
        }
        k += 1;
    }
    proof {
        assert(v@.skip(i as int).take(lit@.len() as int) =~= lit@);
        assert(v@.skip(i as int).skip(lit@.len() as int) =~= v@.skip(i + lit@.len()));
    }
    Some(i + lc.len())
}

fn parse_string_at(v: &Vec<char>, i: usize) -> (r: Option<(Vec<char>, usize)>)
    requires
        i <= v.len(),
    ensures
        match r {
            Some(cj) => i <= cj.1 <= v.len() && parse_string_body(v@.skip(i as int)) == Some(
                (cj.0@, v@.skip(cj.1 as int)),
            ),
            None => parse_string_body(v@.skip(i as int)) is None,
        },
    decreases v.len() - i,
{
    if i == v.len() {
        return None;
    }
    let c = v[i];
    proof {
        assert(v@.skip(i as int)[0] == v@[i as int]);
    }
    if c == '"' {
        proof {
            assert(v@.skip(i as int).drop_first() =~= v@.skip(i + 1));
        }
        let content: Vec<char> = Vec::new();
        proof {
            assert(content@ =~= Seq::<char>::empty());
        }
        Some((content, i + 1))
    } else if c == '\\' {
        if i + 1 == v.len() {
            return None;
        }
        proof {
            assert(v@.skip(i as int)[1] == v@[i + 1]);
        }
        let e = v[i + 1];
        if e == 'u' {
            if v.len() - i < 6 {
                return None;
            }
            proof {
                assert(v@.skip(i as int)[2] == v@[i + 2]);
                assert(v@.skip(i as int)[3] == v@[i + 3]);
                assert(v@.skip(i as int)[4] == v@[i + 4]);
                assert(v@.skip(i as int)[5] == v@[i + 5]);
            }
            if !(v[i + 2] == '0' && v[i + 3] == '0') {
                return None;
            }
            let h1 = match hex_val_of(v[i + 4]) {
                None => {
                    return None;
                },
                Some(x) => x,
            };
            let h2 = match hex_val_of(v[i + 5]) {
                None => {
                    return None;
                },
                Some(x) => x,
            };
            let code: u8 = h1 * 16 + h2;
            if code >= 32 {
                return None;
            }
            let cc = code as char;
            proof {
                assert(v@.skip(i as int).skip(6) =~= v@.skip(i + 6));
            }
            return match parse_string_at(v, i + 6) {
                None => None,
                Some((mut content, j)) => {
                    let ghost tail = content@;
                    content.insert(0, cc);
                    proof {
                        assert(content@ =~= seq![cc] + tail);
                    }
                    Some((content, j))
                },
            };
        }
        let unescaped: Option<char> = if e == '"' {
            Some('"')
        } else if e == '\\' {
            Some('\\')
        } else if e == 'b' {
            Some('\u{8}')
        } else if e == 't' {
            Some('\t')
        } else if e == 'n' {
            Some('\n')
        } else if e == 'f' {
            Some('\u{C}')
        } else if e == 'r' {
            Some('\r')
        } else {
            None
        };
        match unescaped {
            None => None,
            Some(cc) => {
                proof {
                    assert(v@.skip(i as int).skip(2) =~= v@.skip(i + 2));
                }
                match parse_string_at(v, i + 2) {
                    None => None,
                    Some((mut content, j)) => {
                        let ghost tail = content@;
                        content.insert(0, cc);
                        proof {
                            assert(content@ =~= seq![cc] + tail);
                        }
                        Some((content, j))
                    },
                }
            },
        }
    } else {
        proof {
            assert(v@.skip(i as int).drop_first() =~= v@.skip(i + 1));
        }
        match parse_string_at(v, i + 1) {
            None => None,
            Some((mut content, j)) => {
                let ghost tail = content@;
                content.insert(0, c);
                proof {
                    assert(content@ =~= seq![c] + tail);
                }
                Some((content, j))
            },
        }
    }
}

fn parse_number_at(v: &Vec<char>, i: usize) -> (r: Option<(u8, usize)>)
    requires
        i <= v.len(),
    ensures
        match r {
            Some(nj) => i <= nj.1 <= v.len() && parse_number(v@.skip(i as int)) == Some(
                (nj.0, v@.skip(nj.1 as int)),
            ),
            None => parse_number(v@.skip(i as int)) is None,
        },
{
    let mut d: Vec<char> = Vec::new();
    let mut e: usize = i;
    while e < v.len() && crate::num::digit_of(v[e]).is_some()
        invariant
            i <= e <= v.len(),
            d@ == v@.subrange(i as int, e as int),
            all_digits(d@),
        decreases v.len() - e,
    {
        d.push(v[e]);
        proof {
            assert(v@.subrange(i as int, e + 1) =~= v@.subrange(i as int, e as int).push(
                v@[e as int],
            ));
        }
        e += 1;
    }
    proof {
        assert(v@.skip(i as int) =~= d@ + v@.skip(e as int));
        if e < v.len() {
            assert(v@.skip(e as int)[0] == v@[e as int]);
        }
        lemma_digits_split(d@, v@.skip(e as int));
        if d@.len() > 0 {
            assert(d@[0] != '+');
        }
    }
    match crate::num::parse_u8(&d) {
        None => None,
        Some(n) => Some((n, e)),
    }
}

#[verifier::rlimit(100)]
fn parse_object_at(v: &Vec<char>, i: usize) -> (r: Option<(Product, usize)>)
    requires
        i <= v.len(),
    ensures
        match r {
            Some(pj) => i <= pj.1 <= v.len() && parse_object(v@.skip(i as int)) == Some(
                (pj.0@, v@.skip(pj.1 as int)),
            ),
            None => parse_object(v@.skip(i as int)) is None,
        },
{
    let s1 = match expect_at(v, i, "{\n    \"image_url\": \"") {
        None => {
            return None;
        },
        Some(j) => j,
    };
    let (f1, t1) = match parse_string_at(v, s1) {
        None => {
            return None;
        },
        Some(x) => x,
    };
    let s2 = match expect_at(v, t1, ",\n    \"image_url_high_res\": \"") {
        None => {
            return None;
        },
        Some(j) => j,
    };
    let (f2, t2) = match parse_string_at(v, s2) {
        None => {
            return None;
        },
        Some(x) => x,
    };
    let s3 = match expect_at(v, t2, ",\n    \"brand_name\": \"") {
        None => {
            return None;
        },
        Some(j) => j,
    };
    let (f3, t3) = match parse_string_at(v, s3) {
        None => {
            return None;
        },
        Some(x) => x,
    };
    let s4 = match expect_at(v, t3, ",\n    \"title\": \"") {
        None => {
            return None;
        },
        Some(j) => j,
    };
    let (f4, t4) = match parse_string_at(v, s4) {
        None => {
            return None;
        },
        Some(x) => x,
    };
    let s5 = match expect_at(v, t4, ",\n    \"short_description\": \"") {
        None => {
            return None;
        },
        Some(j) => j,
    };
    let (f5, t5) = match parse_string_at(v, s5) {
        None => {
            return None;
        },
        Some(x) => x,
    };
    let s6 = match expect_at(v, t5, ",\n    \"current_price\": \"") {
        None => {
            return None;
        },
        Some(j) => j,
    };
    let (f6, t6) = match parse_string_at(v, s6) {
        None => {
            return None;
        },
        Some(x) => x,
    };
    let s7 = match expect_at(v, t6, ",\n    \"id\": \"") {
        None => {
            return None;
        },
        Some(j) => j,
    };
    let (f7, t7) = match parse_string_at(v, s7) {
        None => {
            return None;
        },
        Some(x) => x,
    };
    let s8 = match expect_at(v, t7, ",\n    \"stock\": ") {
        None => {
            return None;
        },
        Some(j) => j,
    };
    let (n1, t8) = match parse_number_at(v, s8) {
        None => {
            return None;
        },
        Some(x) => x,
    };
    let s9 = match expect_at(v, t8, ",\n    \"discount\": ") {
        None => {
            return None;
        },
        Some(j) => j,
    };
    let (n2, t9) = match parse_number_at(v, s9) {
        None => {
            return None;
        },
        Some(x) => x,
    };
    let rest = match expect_at(v, t9, "\n  }") {
        None => {
            return None;
        },
        Some(j) => j,
    };
    let p = Product {
        image_url: string_of_chars(&f1),
        image_url_high_res: string_of_chars(&f2),
        brand_name: string_of_chars(&f3),
        title: string_of_chars(&f4),
        short_description: string_of_chars(&f5),
        current_price: string_of_chars(&f6),
        id: string_of_chars(&f7),
        stock: n1,
        discount: n2,
    };
    proof {
        assert(parse_object(v@.skip(i as int))->Some_0.0 =~= p@);
    }
    Some((p, rest))
}

fn parse_items_at(v: &Vec<char>, i: usize, fuel: usize) -> (r: Option<Vec<Product>>)
    requires
        i <= v.len(),
    ensures
        match r {
            Some(ps) => parse_items(v@.skip(i as int), fuel as nat) == Some(ps.deep_view()),
            None => parse_items(v@.skip(i as int), fuel as nat) is None,
        },
    decreases fuel,
{
    let (p, j) = match parse_object_at(v, i) {
        None => {
            return None;
        },
        Some(x) => x,
    };
    if v.len() - j == 2 && v[j] == '\n' && (v[j + 1] == ']') {
        proof {
            reveal_strlit("\n]");
            assert(v@.skip(j as int) =~= "\n]"@);
        }
        let ghost pv = p@;
        let mut ps: Vec<Product> = Vec::new();
        ps.push(p);
        proof {
            assert(ps.deep_view() =~= seq![pv]);
        }
        Some(ps)
    } else {
        proof {
            reveal_strlit("\n]");
            if v@.skip(j as int) == "\n]"@ {
                assert(v@.skip(j as int).len() == 2);
                assert(v@[j as int] == '\n' && v@[j + 1] == ']') by {
                    assert(v@.skip(j as int)[0] == '\n');
                    assert(v@.skip(j as int)[1] == ']');
                }
            }
        }
        let j2 = match expect_at(v, j, ",\n  ") {
            None => {
                return None;
            },
            Some(x) => x,
        };
        if fuel == 0 {
            return None;
        }
        match parse_items_at(v, j2, fuel - 1) {
            None => None,
            Some(mut ps) => {
                let ghost tail = ps.deep_view();
                let ghost pv = p@;
                ps.insert(0, p);
                proof {
                    assert(ps.deep_view() =~= seq![pv] + tail);
                }
                Some(ps)
            },
        }
    }
}

/// Parse the output format back into records: on everything the emitter
/// produces, this recovers the records field for field.
pub fn products_from_json(s: &str) -> (r: Option<Vec<Product>>)
    ensures
        match r {
            Some(ps) => parse_products_spec(s@) == Some(ps.deep_view()),
            None => parse_products_spec(s@) is None,
        },
{
    let v = chars_of(s);
    if v.len() == 2 && v[0] == '[' && (v[1] == ']') {
        proof {
            reveal_strlit("[]");
            assert(s@ =~= "[]"@);
        }
        let ps: Vec<Product> = Vec::new();
        proof {
            assert(ps.deep_view() =~= Seq::<ProductView>::empty());
        }
        Some(ps)
    } else {
        proof {
            reveal_strlit("[]");
            if s@ == "[]"@ {
                assert(v@[0] == '[' && v@[1] == ']');
            }
        }
        match expect_at(&v, 0, "[\n  ") {
            None => {
                proof {
                    assert(v@.skip(0) =~= v@);
                }
                None
            },
            Some(j) => {
                proof {
                    assert(v@.skip(0) =~= v@);
                }
                parse_items_at(&v, j, v.len())
            },
        }
    }
}

proof fn lemma_expect_prefix(lit: Seq<char>, rest: Seq<char>)
    ensures
        expect(lit + rest, lit) == Some(rest),
{
    assert((lit + rest).take(lit.len() as int) =~= lit);
    assert((lit + rest).skip(lit.len() as int) =~= rest);
}

proof fn lemma_u_escape(c: char)
    requires
        (c as u32) < 32,
        c != '\u{8}' && c != '\t' && c != '\n' && c != '\u{C}' && c != '\r',
    ensures
        escape_char(c).len() == 6,
        escape_char(c)[0] == '\\',
        escape_char(c)[1] == 'u',
        escape_char(c)[2] == '0',
        escape_char(c)[3] == '0',
        is_hex_digit(escape_char(c)[4]),
        is_hex_digit(escape_char(c)[5]),
        hex_val(escape_char(c)[4]) * 16 + hex_val(escape_char(c)[5]) < 32,
        ((hex_val(escape_char(c)[4]) * 16 + hex_val(escape_char(c)[5])) as char) == c,
{
    let n = c as u32;
    let h = hex_char((n / 16) as nat);
    let l = hex_char((n % 16) as nat);
    assert(escape_char(c) =~= seq!['\\', 'u', '0', '0', h, l]);
    assert(hex_val(h) == n / 16);
    assert(hex_val(l) == n % 16);
    assert(n / 16 * 16 + n % 16 == n);
    assert(((c as u32) as nat) as char == c);
}

#[verifier::rlimit(100)]
proof fn lemma_string_round(t: Seq<char>, rest: Seq<char>)
    ensures
        parse_string_body(qstr(t) + rest) == Some((t, rest)),
    decreases t.len(),
{
    let s = qstr(t) + rest;
    if t.len() == 0 {
        assert(escape(t) == Seq::<char>::empty());
        assert(s =~= seq!['"'] + rest);
        assert(s[0] == '"');
        assert(s.drop_first() =~= rest);
    } else {
        let c = t[0];
        let t2 = t.drop_first();
        assert(escape(t) == escape_char(c) + escape(t2));
        if c == '"' || c == '\\' || c == '\u{8}' || c == '\t' || c == '\n' || c == '\u{C}'
            || c == '\r' {
            let ec = escape_char(c);
            assert(ec.len() == 2 && ec[0] == '\\' && ec[1] != 'u' && unescape_char(ec[1]) == Some(
                c,
            ));
            assert(s =~= ec + (qstr(t2) + rest));
            assert(s[0] == '\\');
            assert(s[1] == ec[1]);
            assert(s.skip(2) =~= qstr(t2) + rest);
            lemma_string_round(t2, rest);
            assert(seq![c] + t2 =~= t);
        } else if (c as u32) < 32 {
            lemma_u_escape(c);
            let ec = escape_char(c);
            assert(s =~= ec + (qstr(t2) + rest));
            assert(s[0] == '\\' && s[1] == 'u' && s[2] == '0' && s[3] == '0');
            assert(s[4] == ec[4] && s[5] == ec[5]);
            assert(is_hex_digit(s[4]) && is_hex_digit(s[5]));
            assert(hex_val(s[4]) * 16 + hex_val(s[5]) < 32);
            assert(((hex_val(s[4]) * 16 + hex_val(s[5])) as char) == c);
            assert(s.skip(6) =~= qstr(t2) + rest);
            lemma_string_round(t2, rest);
            assert(seq![c] + t2 =~= t);
        } else {
            assert(escape_char(c) =~= seq![c]);
            assert(s =~= seq![c] + (qstr(t2) + rest));
            assert(s[0] == c);
            assert(s.drop_first() =~= qstr(t2) + rest);
            lemma_string_round(t2, rest);
            assert(seq![c] + t2 =~= t);
        }
    }
}

proof fn lemma_digits_split(d: Seq<char>, rest: Seq<char>)
    requires
        all_digits(d),
        rest.len() == 0 || !is_digit_char(rest[0]),
    ensures
        split_digits(d + rest).0 == d,
        split_digits(d + rest).1 == rest,
    decreases d.len(),
{
    if d.len() == 0 {
        assert(d + rest =~= rest);
        assert(split_digits(rest).0 =~= Seq::<char>::empty());
        assert(d =~= Seq::<char>::empty());
    } else {
        assert((d + rest)[0] == d[0]);
        assert(is_digit_char(d[0]));
        assert((d + rest).drop_first() =~= d.drop_first() + rest);
        lemma_digits_split(d.drop_first(), rest);
        assert(seq![d[0]] + d.drop_first() =~= d);
    }
}

proof fn lemma_number_round(n: u8, rest: Seq<char>)
    requires
        rest.len() == 0 || !is_digit_char(rest[0]),
    ensures
        parse_number(dec_digits(n as nat) + rest) == Some((n, rest)),
{
    crate::num::lemma_dec_digits_value(n as nat);
    lemma_digits_split(dec_digits(n as nat), rest);
}

#[verifier::rlimit(100)]
proof fn lemma_object_round(p: ProductView, rest: Seq<char>)
    ensures
        parse_object(obj_of(p) + rest) == Some((p, rest)),
{
    let s = obj_of(p) + rest;
    let t9 = lit_close() + rest;
    let t8d = dec_digits(p.discount as nat) + t9;
    let t8 = lit_disc() + t8d;
    let t7d = dec_digits(p.stock as nat) + t8;
    let t7 = lit_stock_tail() + t7d;
    let t7q = qstr(p.id) + t7;
    let t6 = lit_id() + t7q;
    let t6q = qstr(p.current_price) + t6;
    let t5 = lit_price() + t6q;
    let t5q = qstr(p.short_description) + t5;
    let t4 = lit_desc() + t5q;
    let t4q = qstr(p.title) + t4;
    let t3 = lit_title() + t4q;
    let t3q = qstr(p.brand_name) + t3;
    let t2 = lit_brand() + t3q;
    let t2q = qstr(p.image_url_high_res) + t2;
    let t1 = lit_hr() + t2q;
    let t1q = qstr(p.image_url) + t1;
    reveal_strlit("\",\n    \"stock\": ");
    reveal_strlit(",\n    \"stock\": ");
    reveal_strlit(",\n    \"discount\": ");
    reveal_strlit("\n  }");
    assert(lit_stock() =~= seq!['"'] + lit_stock_tail());
    assert(s =~= lit_open() + t1q);
    lemma_expect_prefix(lit_open(), t1q);
    assert(t1q =~= qstr(p.image_url) + t1);
    lemma_string_round(p.image_url, t1);
    lemma_expect_prefix(lit_hr(), t2q);
    lemma_string_round(p.image_url_high_res, t2);
    lemma_expect_prefix(lit_brand(), t3q);
    lemma_string_round(p.brand_name, t3);
    lemma_expect_prefix(lit_title(), t4q);
    lemma_string_round(p.title, t4);
    lemma_expect_prefix(lit_desc(), t5q);
    lemma_string_round(p.short_description, t5);
    lemma_expect_prefix(lit_price(), t6q);
    lemma_string_round(p.current_price, t6);
    lemma_expect_prefix(lit_id(), t7q);
    lemma_string_round(p.id, t7);
    lemma_expect_prefix(lit_stock_tail(), t7d);
    assert(t8[0] == ',');
    lemma_number_round(p.stock, t8);
    lemma_expect_prefix(lit_disc(), t8d);
    assert(t9[0] == '\n');
    lemma_number_round(p.discount, t9);
    lemma_expect_prefix(lit_close(), rest);
    assert(parse_object(s)->Some_0.0 =~= p);
}

#[verifier::rlimit(100)]
proof fn lemma_items_round(ps: Seq<ProductView>, fuel: nat)
    requires
        ps.len() >= 1,
        fuel >= ps.len(),
    ensures
        parse_items(objs(ps) + "\n]"@, fuel) == Some(ps),
    decreases ps.len(),
{
    let p0 = ps[0];
    if ps.len() == 1 {
        assert(objs(ps) == obj_of(p0));
        lemma_object_round(p0, "\n]"@);
        assert(seq![p0] =~= ps);
    } else {
        let rest_objs = objs(ps.drop_first()) + "\n]"@;
        let tail = ",\n  "@ + rest_objs;
        assert(objs(ps) == obj_of(p0) + ",\n  "@ + objs(ps.drop_first()));
        assert(objs(ps) + "\n]"@ =~= obj_of(p0) + tail);
        lemma_object_round(p0, tail);
        reveal_strlit(",\n  ");
        reveal_strlit("\n]");
        assert(tail[0] == ',');
        assert(tail != "\n]"@) by {
            if tail == "\n]"@ {
                assert(tail[0] == '\n');
            }
        }
        lemma_expect_prefix(",\n  "@, rest_objs);
        lemma_items_round(ps.drop_first(), (fuel - 1) as nat);
        assert(seq![p0] + ps.drop_first() =~= ps);
    }
}

proof fn lemma_objs_len(ps: Seq<ProductView>)
    requires
        ps.len() >= 1,
    ensures
        objs(ps).len() >= ps.len(),
    decreases ps.len(),
{
    reveal_strlit("{\n    \"image_url\": \"");
    assert(lit_open().len() >= 1);
    if ps.len() == 1 {
        assert(objs(ps).len() >= obj_of(ps[0]).len());
    } else {
        lemma_objs_len(ps.drop_first());
    }
}

/// Serializing records to the output format and reading them back yields
/// the same records, field for field.
pub proof fn lemma_json_round_trip(ps: Seq<ProductView>)
    ensures
        parse_products_spec(json_products(ps)) == Some(ps),
{
    if ps.len() == 0 {
        assert(json_products(ps) == "[]"@);
        assert(Seq::<ProductView>::empty() =~= ps);
    } else {
        let s = json_products(ps);
        let body = objs(ps) + "\n]"@;
        reveal_strlit("[]");
        reveal_strlit("[\n  ");
        reveal_strlit("\n]");
        assert(s =~= "[\n  "@ + body);
        assert(s[1] == '\n');
        assert(s != "[]"@) by {
            if s == "[]"@ {
                assert(s[1] == ']');
            }
        }
        lemma_expect_prefix("[\n  "@, body);
        lemma_objs_len(ps);
        assert(s.len() >= ps.len());
        lemma_items_round(ps, s.len() as nat);
    }
}

proof fn lemma_objs_snoc(ps: Seq<ProductView>, x: ProductView)
    requires
        ps.len() >= 1,
    ensures
        objs(ps.push(x)) == objs(ps) + ",\n  "@ + obj_of(x),
    decreases ps.len(),
{
    if ps.len() == 1 {
        assert(ps.push(x)[0] == ps[0]);
        assert(ps.push(x).drop_first() =~= seq![x]);
        assert(objs(seq![x]) == obj_of(x));
        assert(objs(ps.push(x)) =~= objs(ps) + ",\n  "@ + obj_of(x));
    } else {
        assert(ps.push(x)[0] == ps[0]);
        assert(ps.push(x).drop_first() =~= ps.drop_first().push(x));
        lemma_objs_snoc(ps.drop_first(), x);
        assert(objs(ps.push(x)) =~= objs(ps) + ",\n  "@ + obj_of(x));
    }
}

} // verus!
