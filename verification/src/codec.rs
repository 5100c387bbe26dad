use vstd::prelude::*;

use crate::chars::{append_chars, chars_of, chars_to_string};
use crate::record::{ConfigView, QemuConfig};

verus! {

// ---------------------------------------------------------------------------
// The canonical text form of a configuration record.
//
// A record is stored as a pretty-printed object with the three fields
// `qemu_bin`, `args` and `desc`, in that fixed order, indented by two
// spaces, with strings quoted and escaped as `escape_char` describes.
// `encode_spec` gives the exact text of a record; the decoder accepts
// exactly this canonical form: `lemma_encode_decode` proves that every
// record's text decodes back to it, and `lemma_decode_sound` that
// nothing else decodes.
// ---------------------------------------------------------------------------

pub open spec fn lit_head() -> Seq<char> {
    "{\n  \"qemu_bin\": "@
}

pub open spec fn lit_key_args() -> Seq<char> {
    ",\n  \"args\": "@
}

pub open spec fn lit_key_desc() -> Seq<char> {
    ",\n  \"desc\": "@
}

pub open spec fn lit_empty_args() -> Seq<char> {
    "[]"@
}

pub open spec fn lit_args_open() -> Seq<char> {
    "[\n"@
}

pub open spec fn lit_item_indent() -> Seq<char> {
    "    "@
}

pub open spec fn lit_item_sep() -> Seq<char> {
    ",\n"@
}

pub open spec fn lit_args_close() -> Seq<char> {
    "\n  ]"@
}

pub open spec fn lit_null() -> Seq<char> {
    "null"@
}

pub open spec fn lit_tail() -> Seq<char> {
    "\n}"@
}

/// The lower-case hexadecimal digit for `n` in `0..16`.
pub open spec fn hex_digit(n: int) -> char {
    if n == 0 {
        '0'
    } else if n == 1 {
        '1'
    } else if n == 2 {
        '2'
    } else if n == 3 {
        '3'
    } else if n == 4 {
        '4'
    } else if n == 5 {
        '5'
    } else if n == 6 {
        '6'
    } else if n == 7 {
        '7'
    } else if n == 8 {
        '8'
    } else if n == 9 {
        '9'
    } else if n == 10 {
        'a'
    } else if n == 11 {
        'b'
    } else if n == 12 {
        'c'
    } else if n == 13 {
        'd'
    } else if n == 14 {
        'e'
    } else {
        'f'
    }
}

/// The value of a lower-case hexadecimal digit, or `-1`.
pub open spec fn hex_val(c: char) -> int {
    if c == '0' {
        0
    } else if c == '1' {
        1
    } else if c == '2' {
        2
    } else if c == '3' {
        3
    } else if c == '4' {
        4
    } else if c == '5' {
        5
    } else if c == '6' {
        6
    } else if c == '7' {
        7
    } else if c == '8' {
        8
    } else if c == '9' {
        9
    } else if c == 'a' {
        10
    } else if c == 'b' {
        11
    } else if c == 'c' {
        12
    } else if c == 'd' {
        13
    } else if c == 'e' {
        14
    } else if c == 'f' {
        15
    } else {
        -1
    }
}

/// How one character is written inside a quoted string: quote,
/// backslash, newline, tab and carriage return get two-character
/// escapes, any other control character a `\u00xx` escape, and every
/// remaining character stands for itself.
pub open spec fn escape_char(c: char) -> Seq<char> {
    if c == '"' {
        seq!['\\', '"']
    } else if c == '\\' {
        seq!['\\', '\\']
    } else if c == '\n' {
        seq!['\\', 'n']
    } else if c == '\t' {
        seq!['\\', 't']
    } else if c == '\r' {
        seq!['\\', 'r']
    } else if (c as u32) < 0x20 {
        seq!['\\', 'u', '0', '0', hex_digit((c as u32) as int / 16), hex_digit((c as u32) as int % 16)]
    } else {
        seq![c]
    }
}

/// The escaped text of `s` from position `i` on.
pub open spec fn escape_from(s: Seq<char>, i: int) -> Seq<char>
    decreases s.len() - i,
{
    if i < 0 || i >= s.len() {
        Seq::empty()
    } else {
        escape_char(s[i]) + escape_from(s, i + 1)
    }
}

/// A quoted, escaped string.
pub open spec fn quoted(s: Seq<char>) -> Seq<char> {
    seq!['"'] + escape_from(s, 0) + seq!['"']
}

/// The argument items from index `k` on: each on its own indented
/// line, separated by commas.
pub open spec fn items_enc_from(args: Seq<Seq<char>>, k: int) -> Seq<char>
    decreases args.len() - k,
{
    if k < 0 || k >= args.len() {
        Seq::empty()
    } else if k == args.len() - 1 {
        lit_item_indent() + quoted(args[k])
    } else {
        lit_item_indent() + quoted(args[k]) + lit_item_sep() + items_enc_from(args, k + 1)
    }
}

/// The encoded argument list.
pub open spec fn args_enc(args: Seq<Seq<char>>) -> Seq<char> {
    if args.len() == 0 {
        lit_empty_args()
    } else {
        lit_args_open() + items_enc_from(args, 0) + lit_args_close()
    }
}

/// The encoded description field.
pub open spec fn desc_enc(desc: Option<Seq<char>>) -> Seq<char> {
    match desc {
        None => lit_null(),
        Some(d) => quoted(d),
    }
}

/// The canonical text of a whole record.
pub open spec fn encode_spec(c: ConfigView) -> Seq<char> {
    lit_head() + quoted(c.qemu_bin) + lit_key_args() + args_enc(c.args) + lit_key_desc()
        + desc_enc(c.desc) + lit_tail()
}

// ---------------------------------------------------------------------------
// The encoder.
// ---------------------------------------------------------------------------

/// The lower-case hexadecimal digit for `n`.
fn hex_digit_exec(n: u32) -> (c: char)
    requires
        n < 16,
    ensures
        c == hex_digit(n as int),
{
    if n == 0 {
        '0'
    } else if n == 1 {
        '1'
    } else if n == 2 {
        '2'
    } else if n == 3 {
        '3'
    } else if n == 4 {
        '4'
    } else if n == 5 {
        '5'
    } else if n == 6 {
        '6'
    } else if n == 7 {
        '7'
    } else if n == 8 {
        '8'
    } else if n == 9 {
        '9'
    } else if n == 10 {
        'a'
    } else if n == 11 {
        'b'
    } else if n == 12 {
        'c'
    } else if n == 13 {
        'd'
    } else if n == 14 {
        'e'
    } else {
        'f'
    }
}

/// Appends the escape of one character.
fn push_escaped_char(out: &mut Vec<char>, c: char)
    ensures
        final(out)@ == old(out)@ + escape_char(c),
{
    if c == '"' {
        out.push('\\');
        out.push('"');
    } else if c == '\\' {
        out.push('\\');
        out.push('\\');
    } else if c == '\n' {
        out.push('\\');
        out.push('n');
    } else if c == '\t' {
        out.push('\\');
        out.push('t');
    } else if c == '\r' {
        out.push('\\');
        out.push('r');
    } else {
        let u = c as u32;
        if u < 0x20 {
            out.push('\\');
            out.push('u');
            out.push('0');
            out.push('0');
            out.push(hex_digit_exec(u / 16));
            out.push(hex_digit_exec(u % 16));
        } else {
            out.push(c);
        }
    }
    proof {
        assert(out@ =~= old(out)@ + escape_char(c));
    }
}

/// Appends a quoted, escaped string.
fn push_quoted(out: &mut Vec<char>, s: &str)
    ensures
        final(out)@ == old(out)@ + quoted(s@),
{
    out.push('"');
    let cs = chars_of(s);
    let n = cs.len();
    let mut i: usize = 0;
    while i < n
        invariant
            n == cs.len(),
            cs@ == s@,
            i <= n,
            out@ + escape_from(s@, i as int) == old(out)@ + seq!['"'] + escape_from(s@, 0),
        decreases n - i,
    {
        let c = cs[i];
        push_escaped_char(out, c);
        proof {
            assert(escape_from(s@, i as int) == escape_char(s@[i as int]) + escape_from(
                s@,
                i as int + 1,
            ));
            assert(out@ + escape_from(s@, i as int + 1) =~= old(out)@ + seq!['"'] + escape_from(
                s@,
                0,
            ));
        }
        i = i + 1;
    }
    proof {
        assert(escape_from(s@, n as int) =~= Seq::<char>::empty());
        assert(out@ =~= old(out)@ + seq!['"'] + escape_from(s@, 0));
    }
    out.push('"');
    proof {
        assert(out@ =~= old(out)@ + quoted(s@));
    }
}

/// Appends the argument items from index `k` on.
fn push_items(out: &mut Vec<char>, args: &Vec<String>, k: usize)
    requires
        k < args.len(),
    ensures
        final(out)@ == old(out)@ + items_enc_from(args.deep_view(), k as int),
    decreases args.len() - k,
{
    append_chars(out, "    ");
    push_quoted(out, args[k].as_str());
    if k + 1 < args.len() {
        append_chars(out, ",\n");
        push_items(out, args, k + 1);
    }
    proof {
        assert(out@ =~= old(out)@ + items_enc_from(args.deep_view(), k as int));
    }
}

/// The canonical text of `config`, exactly `encode_spec(config@)`.
pub fn encode_config(config: &QemuConfig) -> (r: String)
    ensures
        r@ == encode_spec(config@),
{
    let mut out: Vec<char> = Vec::new();
    append_chars(&mut out, "{\n  \"qemu_bin\": ");
    push_quoted(&mut out, config.qemu_bin.as_str());
    append_chars(&mut out, ",\n  \"args\": ");
    if config.args.len() == 0 {
        append_chars(&mut out, "[]");
    } else {
        append_chars(&mut out, "[\n");
        push_items(&mut out, &config.args, 0);
        append_chars(&mut out, "\n  ]");
    }
    append_chars(&mut out, ",\n  \"desc\": ");
    match &config.desc {
        None => append_chars(&mut out, "null"),
        Some(d) => push_quoted(&mut out, d.as_str()),
    }
    append_chars(&mut out, "\n}");
    proof {
        assert(out@ =~= encode_spec(config@));
    }
    chars_to_string(&out)
}


// ---------------------------------------------------------------------------
// The decoder, at the specification level.
//
// Each parse function takes the whole text and a position, and returns
// the parsed value with the position after it, or `None`. The decoder
// accepts exactly the canonical form that `encode_spec` produces.
// ---------------------------------------------------------------------------

/// `Some(i + lit.len())` when `lit` stands at position `i` of `v`.
pub open spec fn expect_at(v: Seq<char>, i: int, lit: Seq<char>) -> Option<int> {
    if 0 <= i && i + lit.len() <= v.len() && v.subrange(i, i + lit.len()) == lit {
        Some(i + lit.len())
    } else {
        None
    }
}

/// Prepends `c` to the string of a parse result.
pub open spec fn cons_parse(c: char, r: Option<(Seq<char>, int)>) -> Option<(Seq<char>, int)> {
    match r {
        Some((s, j)) => Some((seq![c] + s, j)),
        None => None,
    }
}

/// Parses the body of a quoted string from position `i` up to and over
/// its closing quote, undoing the escapes of `escape_char`. Only the
/// canonical escapes are accepted: a `\u00xx` escape only for a
/// control character that has no two-character escape, and a raw
/// control character not at all.
pub open spec fn parse_str_spec(v: Seq<char>, i: int) -> Option<(Seq<char>, int)>
    decreases v.len() - i,
{
    if i < 0 || i >= v.len() {
        None
    } else if v[i] == '"' {
        Some((Seq::empty(), i + 1))
    } else if v[i] == '\\' {
        if i + 1 >= v.len() {
            None
        } else if v[i + 1] == '"' {
            cons_parse('"', parse_str_spec(v, i + 2))
        } else if v[i + 1] == '\\' {
            cons_parse('\\', parse_str_spec(v, i + 2))
        } else if v[i + 1] == 'n' {
            cons_parse('\n', parse_str_spec(v, i + 2))
        } else if v[i + 1] == 't' {
            cons_parse('\t', parse_str_spec(v, i + 2))
        } else if v[i + 1] == 'r' {
            cons_parse('\r', parse_str_spec(v, i + 2))
        } else if v[i + 1] == 'u' {
            if i + 6 <= v.len() && v[i + 2] == '0' && v[i + 3] == '0' && hex_val(v[i + 4]) >= 0
                && hex_val(v[i + 5]) >= 0 {
                let code = hex_val(v[i + 4]) * 16 + hex_val(v[i + 5]);
                if code < 0x20 && code != 0x0a && code != 0x09 && code != 0x0d {
                    cons_parse(code as char, parse_str_spec(v, i + 6))
                } else {
                    None
                }
            } else {
                None
            }
        } else {
            None
        }
    } else if (v[i] as u32) < 0x20 {
        None
    } else {
        cons_parse(v[i], parse_str_spec(v, i + 1))
    }
}

/// Parses one or more argument items, each an indented quoted string,
/// separated by commas, up to and over the closing bracket line.
pub open spec fn parse_items_spec(v: Seq<char>, i: int) -> Option<(Seq<Seq<char>>, int)>
    decreases v.len() - i,
{
    match expect_at(v, i, lit_item_indent() + seq!['"']) {
        None => None,
        Some(i1) => match parse_str_spec(v, i1) {
            None => None,
            Some((arg, j)) => if j <= i || j > v.len() {
                None
            } else {
                match expect_at(v, j, lit_item_sep()) {
                    Some(j2) => match parse_items_spec(v, j2) {
                        Some((rest, k)) => Some((seq![arg] + rest, k)),
                        None => None,
                    },
                    None => match expect_at(v, j, lit_args_close()) {
                        Some(j2) => Some((seq![arg], j2)),
                        None => None,
                    },
                }
            },
        },
    }
}

/// Parses the argument list: `[]` or a bracketed block of items.
pub open spec fn parse_args_spec(v: Seq<char>, i: int) -> Option<(Seq<Seq<char>>, int)> {
    match expect_at(v, i, lit_empty_args()) {
        Some(j) => Some((Seq::empty(), j)),
        None => match expect_at(v, i, lit_args_open()) {
            Some(j) => parse_items_spec(v, j),
            None => None,
        },
    }
}

/// Parses the description field: `null` or a quoted string.
pub open spec fn parse_desc_spec(v: Seq<char>, i: int) -> Option<(Option<Seq<char>>, int)> {
    match expect_at(v, i, lit_null()) {
        Some(j) => Some((None, j)),
        None => match expect_at(v, i, seq!['"']) {
            Some(j) => match parse_str_spec(v, j) {
                Some((d, k)) => Some((Some(d), k)),
                None => None,
            },
            None => None,
        },
    }
}

/// Decodes a whole record: the unique `c` with `v == encode_spec(c)`,
/// if there is one.
pub open spec fn decode_spec(v: Seq<char>) -> Option<ConfigView> {
    match expect_at(v, 0, lit_head() + seq!['"']) {
        None => None,
        Some(i1) => match parse_str_spec(v, i1) {
            None => None,
            Some((qemu_bin, i2)) => match expect_at(v, i2, lit_key_args()) {
                None => None,
                Some(i3) => match parse_args_spec(v, i3) {
                    None => None,
                    Some((args, i4)) => match expect_at(v, i4, lit_key_desc()) {
                        None => None,
                        Some(i5) => match parse_desc_spec(v, i5) {
                            None => None,
                            Some((desc, i6)) => match expect_at(v, i6, lit_tail()) {
                                None => None,
                                Some(i7) => if i7 == v.len() {
                                    Some(ConfigView { qemu_bin, args, desc })
                                } else {
                                    None
                                },
                            },
                        },
                    },
                },
            },
        },
    }
}


// ---------------------------------------------------------------------------
// The decoder.
// ---------------------------------------------------------------------------

/// Prepends `p` to the string of a parse result.
pub open spec fn prepend_parse(p: Seq<char>, r: Option<(Seq<char>, int)>) -> Option<
    (Seq<char>, int),
> {
    match r {
        Some((s, j)) => Some((p + s, j)),
        None => None,
    }
}

/// Prepends `p` to the items of a parse result.
pub open spec fn prepend_items(p: Seq<Seq<char>>, r: Option<(Seq<Seq<char>>, int)>) -> Option<
    (Seq<Seq<char>>, int),
> {
    match r {
        Some((s, j)) => Some((p + s, j)),
        None => None,
    }
}

proof fn lemma_prepend_cons(p: Seq<char>, c: char, r: Option<(Seq<char>, int)>)
    ensures
        prepend_parse(p, cons_parse(c, r)) == prepend_parse(p.push(c), r),
{
    match r {
        Some((s, j)) => {
            assert(p + (seq![c] + s) =~= p.push(c) + s);
        },
        None => {},
    }
}

/// The value of a lower-case hexadecimal digit, or `-1`.
fn hex_val_exec(c: char) -> (r: i32)
    ensures
        r as int == hex_val(c),
{
    if c == '0' {
        0
    } else if c == '1' {
        1
    } else if c == '2' {
        2
    } else if c == '3' {
        3
    } else if c == '4' {
        4
    } else if c == '5' {
        5
    } else if c == '6' {
        6
    } else if c == '7' {
        7
    } else if c == '8' {
        8
    } else if c == '9' {
        9
    } else if c == 'a' {
        10
    } else if c == 'b' {
        11
    } else if c == 'c' {
        12
    } else if c == 'd' {
        13
    } else if c == 'e' {
        14
    } else if c == 'f' {
        15
    } else {
        -1
    }
}

/// Whether `lit` stands at position `i` of `v`, as `expect_at` says.
fn expect_lit(v: &Vec<char>, i: usize, lit: &str) -> (r: Option<usize>)
    ensures
        match r {
            Some(j) => expect_at(v@, i as int, lit@) == Some(j as int) && i <= j <= v@.len(),
            None => expect_at(v@, i as int, lit@) is None,
        },
{
    let m = lit.unicode_len();
    let n = v.len();
    if i > n || m > n - i {
        return None;
    }
    let mut k: usize = 0;
    while k < m
        invariant
            m == lit@.len(),
            n == v@.len(),
            i + m <= n,
            k <= m,
            forall|t: int| 0 <= t < k ==> v@[i + t] == lit@[t],
        decreases m - k,
    {
        if v[i + k] != lit.get_char(k) {
            proof {
                assert(v@.subrange(i as int, i + m) != lit@) by {
                    assert(v@.subrange(i as int, i + m)[k as int] == v@[i + k]);
                }
            }
            return None;
        }
        k = k + 1;
    }
    proof {
        assert(v@.subrange(i as int, i + m) =~= lit@);
    }
    Some(i + m)
}

/// Parses a quoted string body at `i` of `v`, as `parse_str_spec` says.
fn parse_str_exec(v: &Vec<char>, i: usize) -> (r: Option<(Vec<char>, usize)>)
    ensures
        match r {
            Some((s, j)) => parse_str_spec(v@, i as int) == Some((s@, j as int)) && i < j
                <= v@.len(),
            None => parse_str_spec(v@, i as int) is None,
        },
{
    let n = v.len();
    if i >= n {
        proof {
            assert(parse_str_spec(v@, i as int) is None);
        }
        return None;
    }
    let mut acc: Vec<char> = Vec::new();
    let mut pos: usize = i;
    loop
        invariant
            n == v@.len(),
            i <= pos <= n,
            i < n,
            parse_str_spec(v@, i as int) == prepend_parse(acc@, parse_str_spec(v@, pos as int)),
        decreases v@.len() - pos,
    {
        if pos >= n {
            proof {
                assert(parse_str_spec(v@, pos as int) is None);
            }
            return None;
        }
        let c = v[pos];
        if c == '"' {
            proof {
                assert(parse_str_spec(v@, pos as int) == Some(
                    (Seq::<char>::empty(), pos as int + 1),
                ));
                assert(acc@ + Seq::<char>::empty() =~= acc@);
            }
            return Some((acc, pos + 1));
        } else if c == '\\' {
            if pos + 1 >= n {
                proof {
                    assert(parse_str_spec(v@, pos as int) is None);
                }
                return None;
            }
            let e = v[pos + 1];
            if e == '"' {
                proof {
                    lemma_prepend_cons(acc@, '"', parse_str_spec(v@, pos + 2));
                }
                acc.push('"');
                pos = pos + 2;
            } else if e == '\\' {
                proof {
                    lemma_prepend_cons(acc@, '\\', parse_str_spec(v@, pos + 2));
                }
                acc.push('\\');
                pos = pos + 2;
            } else if e == 'n' {
                proof {
                    lemma_prepend_cons(acc@, '\n', parse_str_spec(v@, pos + 2));
                }
                acc.push('\n');
                pos = pos + 2;
            } else if e == 't' {
                proof {
                    lemma_prepend_cons(acc@, '\t', parse_str_spec(v@, pos + 2));
                }
                acc.push('\t');
                pos = pos + 2;
            } else if e == 'r' {
                proof {
                    lemma_prepend_cons(acc@, '\r', parse_str_spec(v@, pos + 2));
                }
                acc.push('\r');
                pos = pos + 2;
            } else if e == 'u' {
                if n - pos < 6 {
                    proof {
                        assert(parse_str_spec(v@, pos as int) is None);
                    }
                    return None;
                }
                let h1 = hex_val_exec(v[pos + 4]);
                let h2 = hex_val_exec(v[pos + 5]);
                if v[pos + 2] != '0' || v[pos + 3] != '0' || h1 < 0 || h2 < 0 {
                    proof {
                        assert(parse_str_spec(v@, pos as int) is None);
                    }
                    return None;
                }
                let code: u32 = (h1 as u32) * 16 + (h2 as u32);
                if code < 0x20 && code != 0x0a && code != 0x09 && code != 0x0d {
                    let ch = (code as u8) as char;
                    proof {
                        assert(ch == (hex_val(v@[pos + 4]) * 16 + hex_val(v@[pos + 5])) as char);
                        lemma_prepend_cons(acc@, ch, parse_str_spec(v@, pos + 6));
                    }
                    acc.push(ch);
                    pos = pos + 6;
                } else {
                    proof {
                        assert(parse_str_spec(v@, pos as int) is None);
                    }
                    return None;
                }
            } else {
                proof {
                    assert(parse_str_spec(v@, pos as int) is None);
                }
                return None;
            }
        } else {
            let u = c as u32;
            if u < 0x20 {
                proof {
                    assert(parse_str_spec(v@, pos as int) is None);
                }
                return None;
            }
            proof {
                lemma_prepend_cons(acc@, c, parse_str_spec(v@, pos + 1));
            }
            acc.push(c);
            pos = pos + 1;
        }
    }
}


proof fn lemma_prepend_items_cons(
    p: Seq<Seq<char>>,
    a: Seq<char>,
    r: Option<(Seq<Seq<char>>, int)>,
)
    ensures
        prepend_items(p, match r {
            Some((rest, k)) => Some((seq![a] + rest, k)),
            None => None,
        }) == prepend_items(p.push(a), r),
{
    match r {
        Some((rest, k)) => {
            assert(p + (seq![a] + rest) =~= p.push(a) + rest);
        },
        None => {},
    }
}

/// Parses the argument items at `i` of `v`, as `parse_items_spec` says.
fn parse_items_exec(v: &Vec<char>, i: usize) -> (r: Option<(Vec<String>, usize)>)
    ensures
        match r {
            Some((args, j)) => parse_items_spec(v@, i as int) == Some(
                (args.deep_view(), j as int),
            ) && i < j <= v@.len(),
            None => parse_items_spec(v@, i as int) is None,
        },
{
    let n = v.len();
    if i > n {
        proof {
            assert(expect_at(v@, i as int, lit_item_indent() + seq!['"']) is None);
            assert(parse_items_spec(v@, i as int) is None);
        }
        return None;
    }
    let mut acc: Vec<String> = Vec::new();
    let mut pos: usize = i;
    proof {
        assert(acc.deep_view() =~= Seq::<Seq<char>>::empty());
        match parse_items_spec(v@, i as int) {
            Some((s, j)) => {
                assert(Seq::<Seq<char>>::empty() + s =~= s);
            },
            None => {},
        }
    }
    loop
        invariant
            n == v@.len(),
            i <= pos <= n,
            parse_items_spec(v@, i as int) == prepend_items(
                acc.deep_view(),
                parse_items_spec(v@, pos as int),
            ),
        decreases n - pos,
    {
        proof {
            reveal_strlit("    \"");
            reveal_strlit("    ");
            assert("    \""@ =~= lit_item_indent() + seq!['"']);
        }
        let p1 = match expect_lit(v, pos, "    \"") {
            None => {
                proof {
                    assert(parse_items_spec(v@, pos as int) is None);
                }
                return None;
            },
            Some(p1) => p1,
        };
        let (item, j) = match parse_str_exec(v, p1) {
            None => {
                proof {
                    assert(parse_items_spec(v@, pos as int) is None);
                }
                return None;
            },
            Some((item, j)) => (item, j),
        };
        proof {
            assert(p1 == pos + 5);
            assert(pos < j <= n);
        }
        let item_s = chars_to_string(&item);
        let ghost acc_old = acc.deep_view();
        acc.push(item_s);
        proof {
            assert(acc.deep_view() =~= acc_old.push(item@));
        }
        match expect_lit(v, j, ",\n") {
            Some(j2) => {
                proof {
                    assert(parse_items_spec(v@, pos as int) == (match parse_items_spec(
                        v@,
                        j2 as int,
                    ) {
                        Some((rest, k)) => Some((seq![item@] + rest, k)),
                        None => None,
                    }));
                    lemma_prepend_items_cons(acc_old, item@, parse_items_spec(v@, j2 as int));
                }
                pos = j2;
            },
            None => {
                match expect_lit(v, j, "\n  ]") {
                    Some(j2) => {
                        proof {
                            assert(parse_items_spec(v@, pos as int) == Some(
                                (seq![item@], j2 as int),
                            ));
                            assert(acc_old + seq![item@] =~= acc_old.push(item@));
                            assert(acc.deep_view() == acc_old.push(item@));
                        }
                        return Some((acc, j2));
                    },
                    None => {
                        proof {
                            assert(parse_items_spec(v@, pos as int) is None);
                        }
                        return None;
                    },
                }
            },
        }
    }
}

/// Parses the argument list at `i` of `v`, as `parse_args_spec` says.
fn parse_args_exec(v: &Vec<char>, i: usize) -> (r: Option<(Vec<String>, usize)>)
    ensures
        match r {
            Some((args, j)) => parse_args_spec(v@, i as int) == Some(
                (args.deep_view(), j as int),
            ) && j <= v@.len(),
            None => parse_args_spec(v@, i as int) is None,
        },
{
    match expect_lit(v, i, "[]") {
        Some(j) => {
            let args: Vec<String> = Vec::new();
            proof {
                assert(args.deep_view() =~= Seq::<Seq<char>>::empty());
            }
            Some((args, j))
        },
        None => {
            match expect_lit(v, i, "[\n") {
                Some(j) => parse_items_exec(v, j),
                None => None,
            }
        },
    }
}

/// Parses the description field at `i` of `v`, as `parse_desc_spec` says.
fn parse_desc_exec(v: &Vec<char>, i: usize) -> (r: Option<(Option<String>, usize)>)
    ensures
        match r {
            Some((desc, j)) => parse_desc_spec(v@, i as int) == Some(
                (desc.deep_view(), j as int),
            ) && j <= v@.len(),
            None => parse_desc_spec(v@, i as int) is None,
        },
{
    match expect_lit(v, i, "null") {
        Some(j) => Some((None, j)),
        None => {
            proof {
                reveal_strlit("\"");
                assert("\""@ =~= seq!['"']);
            }
            match expect_lit(v, i, "\"") {
                Some(j) => {
                    match parse_str_exec(v, j) {
                        Some((d, k)) => Some((Some(chars_to_string(&d)), k)),
                        None => None,
                    }
                },
                None => None,
            }
        },
    }
}

/// Decodes the canonical text of a record, exactly as `decode_spec`
/// says: the record `c` with `s@ == encode_spec(c@)` when there is
/// one, and `None` on any other text.
pub fn decode_config(s: &str) -> (r: Option<QemuConfig>)
    ensures
        match r {
            Some(c) => decode_spec(s@) == Some(c@),
            None => decode_spec(s@) is None,
        },
{
    let v = chars_of(s);
    proof {
        reveal_strlit("{\n  \"qemu_bin\": \"");
        reveal_strlit("{\n  \"qemu_bin\": ");
        assert("{\n  \"qemu_bin\": \""@ =~= lit_head() + seq!['"']);
    }
    let i1 = match expect_lit(&v, 0, "{\n  \"qemu_bin\": \"") {
        Some(i1) => i1,
        None => {
            return None;
        },
    };
    let (bin, i2) = match parse_str_exec(&v, i1) {
        Some(p) => p,
        None => {
            return None;
        },
    };
    let i3 = match expect_lit(&v, i2, ",\n  \"args\": ") {
        Some(i3) => i3,
        None => {
            return None;
        },
    };
    let (args, i4) = match parse_args_exec(&v, i3) {
        Some(p) => p,
        None => {
            return None;
        },
    };
    let i5 = match expect_lit(&v, i4, ",\n  \"desc\": ") {
        Some(i5) => i5,
        None => {
            return None;
        },
    };
    let (desc, i6) = match parse_desc_exec(&v, i5) {
        Some(p) => p,
        None => {
            return None;
        },
    };
    let i7 = match expect_lit(&v, i6, "\n}") {
        Some(i7) => i7,
        None => {
            return None;
        },
    };
    if i7 != v.len() {
        return None;
    }
    let config = QemuConfig { qemu_bin: chars_to_string(&bin), args, desc };
    Some(config)
}


// ---------------------------------------------------------------------------
// Round trip: decoding the canonical text of a record yields the record.
// ---------------------------------------------------------------------------

proof fn lemma_index_of_subrange(v: Seq<char>, i: int, end: int, w: Seq<char>, t: int)
    requires
        0 <= i,
        i + w.len() == end,
        end <= v.len(),
        v.subrange(i, end) == w,
        0 <= t < w.len(),
    ensures
        v[i + t] == w[t],
{
    assert(v.subrange(i, end)[t] == v[i + t]);
}

proof fn lemma_hex_digit_val(n: int)
    requires
        0 <= n < 16,
    ensures
        hex_val(hex_digit(n)) == n,
{
}

/// A quoted string body parses back to the string it encodes: if the
/// escaped text of `s` from `k` on, followed by a closing quote,
/// stands at `i` of `v`, the parse from `i` yields the rest of `s`
/// and ends after the quote.
proof fn lemma_parse_escaped(v: Seq<char>, i: int, s: Seq<char>, k: int)
    requires
        0 <= k <= s.len(),
        0 <= i,
        i + escape_from(s, k).len() + 1 <= v.len(),
        v.subrange(i, i + escape_from(s, k).len() + 1) == escape_from(s, k) + seq!['"'],
    ensures
        parse_str_spec(v, i) == Some(
            (s.subrange(k, s.len() as int), i + escape_from(s, k).len() + 1),
        ),
    decreases s.len() - k,
{
    let e_all = escape_from(s, k);
    let end = i + e_all.len() + 1;
    let w = e_all + seq!['"'];
    if k == s.len() {
        assert(e_all =~= Seq::<char>::empty());
        lemma_index_of_subrange(v, i, end, w, 0);
        assert(v[i] == '"');
        assert(s.subrange(k, s.len() as int) =~= Seq::<char>::empty());
        assert(parse_str_spec(v, i) == Some((Seq::<char>::empty(), i + 1)));
    } else {
        let c = s[k];
        let e = escape_char(c);
        let rest = escape_from(s, k + 1);
        assert(e_all == e + rest);
        assert forall|t: int| 0 <= t < rest.len() + 1 implies v.subrange(i + e.len(), end)[t] == (
        rest + seq!['"'])[t] by {
            assert(v.subrange(i + e.len(), end)[t] == v[i + e.len() + t]);
            lemma_index_of_subrange(v, i, end, w, e.len() + t);
        }
        assert(v.subrange(i + e.len(), end) =~= rest + seq!['"']);
        lemma_parse_escaped(v, i + e.len(), s, k + 1);
        assert(seq![c] + s.subrange(k + 1, s.len() as int) =~= s.subrange(k, s.len() as int));
        lemma_index_of_subrange(v, i, end, w, 0);
        if e.len() >= 2 {
            lemma_index_of_subrange(v, i, end, w, 1);
        }
        if c == '"' {
            assert(v[i] == '\\' && v[i + 1] == '"');
            assert(parse_str_spec(v, i) == cons_parse('"', parse_str_spec(v, i + 2)));
        } else if c == '\\' {
            assert(v[i] == '\\' && v[i + 1] == '\\');
            assert(parse_str_spec(v, i) == cons_parse('\\', parse_str_spec(v, i + 2)));
        } else if c == '\n' {
            assert(v[i] == '\\' && v[i + 1] == 'n');
            assert(parse_str_spec(v, i) == cons_parse('\n', parse_str_spec(v, i + 2)));
        } else if c == '\t' {
            assert(v[i] == '\\' && v[i + 1] == 't');
            assert(parse_str_spec(v, i) == cons_parse('\t', parse_str_spec(v, i + 2)));
        } else if c == '\r' {
            assert(v[i] == '\\' && v[i + 1] == 'r');
            assert(parse_str_spec(v, i) == cons_parse('\r', parse_str_spec(v, i + 2)));
        } else if (c as u32) < 0x20 {
            let u = (c as u32) as int;
            let hi = u / 16;
            let lo = u % 16;
            lemma_index_of_subrange(v, i, end, w, 2);
            lemma_index_of_subrange(v, i, end, w, 3);
            lemma_index_of_subrange(v, i, end, w, 4);
            lemma_index_of_subrange(v, i, end, w, 5);
            assert(v[i] == '\\' && v[i + 1] == 'u' && v[i + 2] == '0' && v[i + 3] == '0');
            assert(v[i + 4] == hex_digit(hi) && v[i + 5] == hex_digit(lo));
            lemma_hex_digit_val(hi);
            lemma_hex_digit_val(lo);
            let code = hex_val(v[i + 4]) * 16 + hex_val(v[i + 5]);
            assert(code == u);
            assert(c != '\n' && c != '\t' && c != '\r');
            vstd::utf8::char_u32_cast(c, c as u32);
            if u == 0x0a {
                assert((c as u32) as char == c);
                assert(('\n' as u32) as char == '\n');
                assert(c as u32 == '\n' as u32);
                assert(c == '\n');
            }
            if u == 0x09 {
                assert((c as u32) as char == c);
                assert(c as u32 == '\t' as u32);
                assert(c == '\t');
            }
            if u == 0x0d {
                assert((c as u32) as char == c);
                assert(c as u32 == '\r' as u32);
                assert(c == '\r');
            }
            assert(code != 0x0a && code != 0x09 && code != 0x0d);
            assert(code as char == c);
            assert(parse_str_spec(v, i) == cons_parse(c, parse_str_spec(v, i + 6)));
        } else {
            assert(v[i] == c);
            assert(parse_str_spec(v, i) == cons_parse(c, parse_str_spec(v, i + 1)));
        }
    }
}


/// An encoded argument block parses back to its items: if the encoded
/// items of `args` from `k` on, followed by the closing bracket line,
/// stand at `i` of `v`, the parse yields the rest of `args`.
#[verifier::rlimit(100)]
proof fn lemma_parse_items(v: Seq<char>, i: int, args: Seq<Seq<char>>, k: int)
    requires
        0 <= k < args.len(),
        0 <= i,
        i + items_enc_from(args, k).len() + lit_args_close().len() <= v.len(),
        v.subrange(i, i + items_enc_from(args, k).len() + lit_args_close().len())
            == items_enc_from(args, k) + lit_args_close(),
    ensures
        parse_items_spec(v, i) == Some(
            (
                args.subrange(k, args.len() as int),
                i + items_enc_from(args, k).len() + lit_args_close().len(),
            ),
        ),
    decreases args.len() - k,
{
    reveal_strlit("    ");
    reveal_strlit(",\n");
    reveal_strlit("\n  ]");
    let ind = lit_item_indent();
    let q = quoted(args[k]);
    let items = items_enc_from(args, k);
    let close = lit_args_close();
    let end = i + items.len() + close.len();
    let j = i + ind.len() + q.len();
    if k == args.len() - 1 {
        assert(items == ind + q);
        assert(v.subrange(i, end) =~= ind + (q + close));
        lemma_extract(v, i, ind, q + close);
        lemma_extract(v, i + ind.len(), q, close);
        lemma_parse_quoted_at(v, i + ind.len(), args[k]);
        // the indent and the opening quote
        assert forall|t: int| 0 <= t < 5 implies v.subrange(i, i + 5)[t] == (ind + seq!['"'])[t] by {
            assert(v.subrange(i, i + 5)[t] == v[i + t]);
            if t < 4 {
                lemma_index_of_subrange(v, i, i + 4, ind, t);
            }
        }
        assert(v.subrange(i, i + 5) =~= ind + seq!['"']);
        assert(expect_at(v, i, ind + seq!['"']) == Some(i + 5));
        assert(parse_str_spec(v, i + 5) == Some((args[k], j)));
        // no separator can match where the closing line stands
        lemma_index_of_subrange(v, j, end, close, 0);
        assert(v[j] == '\n');
        if j + 2 <= v.len() && v.subrange(j, j + 2) == lit_item_sep() {
            assert(v.subrange(j, j + 2)[0] == v[j]);
            assert(false);
        }
        assert(expect_at(v, j, lit_item_sep()) is None);
        assert(expect_at(v, j, close) == Some(j + 4));
        assert(seq![args[k]] =~= args.subrange(k, args.len() as int));
        assert(parse_items_spec(v, i) == Some((args.subrange(k, args.len() as int), end)));
    } else {
        let sep = lit_item_sep();
        let rest = items_enc_from(args, k + 1);
        assert(items == ind + q + sep + rest);
        assert(v.subrange(i, end) =~= ind + (q + (sep + (rest + close))));
        lemma_extract(v, i, ind, q + (sep + (rest + close)));
        lemma_extract(v, i + ind.len(), q, sep + (rest + close));
        lemma_extract(v, j, sep, rest + close);
        lemma_parse_quoted_at(v, i + ind.len(), args[k]);
        // the indent and the opening quote
        assert forall|t: int| 0 <= t < 5 implies v.subrange(i, i + 5)[t] == (ind + seq!['"'])[t] by {
            assert(v.subrange(i, i + 5)[t] == v[i + t]);
            if t < 4 {
                lemma_index_of_subrange(v, i, i + 4, ind, t);
            }
        }
        assert(v.subrange(i, i + 5) =~= ind + seq!['"']);
        assert(expect_at(v, i, ind + seq!['"']) == Some(i + 5));
        assert(parse_str_spec(v, i + 5) == Some((args[k], j)));
        // the separator, then the remaining items
        assert(expect_at(v, j, sep) == Some(j + 2));
        lemma_parse_items(v, j + 2, args, k + 1);
        assert(seq![args[k]] + args.subrange(k + 1, args.len() as int) =~= args.subrange(
            k,
            args.len() as int,
        ));
        assert(parse_items_spec(v, i) == Some((args.subrange(k, args.len() as int), end)));
    }
}


proof fn lemma_extract(v: Seq<char>, p: int, a: Seq<char>, b: Seq<char>)
    requires
        0 <= p,
        p + a.len() + b.len() <= v.len(),
        v.subrange(p, p + a.len() + b.len()) == a + b,
    ensures
        v.subrange(p, p + a.len()) == a,
        v.subrange(p + a.len(), p + a.len() + b.len()) == b,
{
    let w = a + b;
    let end = p + a.len() + b.len();
    assert forall|t: int| 0 <= t < a.len() implies v.subrange(p, p + a.len())[t] == a[t] by {
        assert(v.subrange(p, p + a.len())[t] == v[p + t]);
        lemma_index_of_subrange(v, p, end, w, t);
    }
    assert(v.subrange(p, p + a.len()) =~= a);
    assert forall|t: int| 0 <= t < b.len() implies v.subrange(p + a.len(), end)[t] == b[t] by {
        assert(v.subrange(p + a.len(), end)[t] == v[p + a.len() + t]);
        lemma_index_of_subrange(v, p, end, w, a.len() + t);
    }
    assert(v.subrange(p + a.len(), end) =~= b);
}


proof fn lemma_subrange_split_head(v: Seq<char>, i: int, m: int, j: int)
    requires
        0 <= i,
        0 <= m,
        i + m <= j <= v.len(),
    ensures
        v.subrange(i, j) == v.subrange(i, i + m) + v.subrange(i + m, j),
{
    assert(v.subrange(i, j) =~= v.subrange(i, i + m) + v.subrange(i + m, j));
}

/// A lower-case hexadecimal digit is the digit of its value.
proof fn lemma_hex_val_digit(c: char)
    requires
        hex_val(c) >= 0,
    ensures
        hex_digit(hex_val(c)) == c,
{
}

proof fn lemma_escape_drop_first(s: Seq<char>, k: int)
    requires
        s.len() > 0,
        0 <= k,
    ensures
        escape_from(s, k + 1) == escape_from(s.drop_first(), k),
    decreases s.len() - k,
{
    if k + 1 < s.len() {
        assert(s.drop_first()[k] == s[k + 1]);
        lemma_escape_drop_first(s, k + 1);
    }
}

/// Soundness of the string parser: whatever it accepts between `i`
/// and its end position is exactly the escaped text of its result,
/// with the closing quote.
proof fn lemma_parse_str_sound(v: Seq<char>, i: int)
    requires
        0 <= i,
    ensures
        parse_str_spec(v, i) matches Some(p) ==> i < p.1 <= v.len() && v.subrange(i, p.1)
            == escape_from(p.0, 0) + seq!['"'],
    decreases v.len() - i,
{
    if i >= v.len() {
    } else if v[i] == '"' {
        match parse_str_spec(v, i) {
            Some((s, j)) => {
                assert(v.subrange(i, i + 1) =~= escape_from(s, 0) + seq!['"']);
            },
            None => {},
        }
    } else if v[i] == '\\' && i + 1 < v.len() {
        let e = v[i + 1];
        if e == '"' || e == '\\' || e == 'n' || e == 't' || e == 'r' {
            let c: char = if e == '"' {
                '"'
            } else if e == '\\' {
                '\\'
            } else if e == 'n' {
                '\n'
            } else if e == 't' {
                '\t'
            } else {
                '\r'
            };
            lemma_parse_str_sound(v, i + 2);
            match parse_str_spec(v, i + 2) {
                Some((s2, j)) => {
                    let s = seq![c] + s2;
                    assert(parse_str_spec(v, i) == Some((s, j)));
                    assert(escape_char(c) == seq![v[i], v[i + 1]]);
                    assert(s.drop_first() =~= s2);
                    lemma_escape_drop_first(s, 0);
                    assert(escape_from(s, 0) == escape_char(c) + escape_from(s2, 0));
                    lemma_subrange_split_head(v, i, 2, j);
                    assert(v.subrange(i, i + 2) =~= escape_char(c));
                    assert(escape_char(c) + (escape_from(s2, 0) + seq!['"']) =~= escape_from(
                        s,
                        0,
                    ) + seq!['"']);
                    assert(v.subrange(i, j) == escape_from(s, 0) + seq!['"']);
                },
                None => {},
            }
        } else if e == 'u' {
            if i + 6 <= v.len() && v[i + 2] == '0' && v[i + 3] == '0' && hex_val(v[i + 4]) >= 0
                && hex_val(v[i + 5]) >= 0 {
                let code = hex_val(v[i + 4]) * 16 + hex_val(v[i + 5]);
                if code < 0x20 && code != 0x0a && code != 0x09 && code != 0x0d {
                    let c = code as char;
                    assert(c as u32 == code);
                    vstd::utf8::char_u32_cast(c, c as u32);
                    assert(c != '"' && c != '\\');
                    assert(c != '\n' && c != '\t' && c != '\r') by {
                        assert('\n' as u32 == 0x0a && '\t' as u32 == 0x09 && '\r' as u32
                            == 0x0d);
                    }
                    assert((c as u32) as int / 16 == hex_val(v[i + 4]));
                    assert((c as u32) as int % 16 == hex_val(v[i + 5]));
                    lemma_hex_val_digit(v[i + 4]);
                    lemma_hex_val_digit(v[i + 5]);
                    assert(escape_char(c) =~= v.subrange(i, i + 6));
                    lemma_parse_str_sound(v, i + 6);
                    match parse_str_spec(v, i + 6) {
                        Some((s2, j)) => {
                            let s = seq![c] + s2;
                            assert(parse_str_spec(v, i) == Some((s, j)));
                            assert(s.drop_first() =~= s2);
                            lemma_escape_drop_first(s, 0);
                            assert(escape_from(s, 0) == escape_char(c) + escape_from(s2, 0));
                            lemma_subrange_split_head(v, i, 6, j);
                            assert(v.subrange(i, i + 6) == escape_char(c));
                            assert(escape_char(c) + (escape_from(s2, 0) + seq!['"'])
                                =~= escape_from(s, 0) + seq!['"']);
                            assert(v.subrange(i, j) == escape_from(s, 0) + seq!['"']);
                        },
                        None => {},
                    }
                }
            }
        }
    } else if v[i] != '\\' && (v[i] as u32) >= 0x20 {
        let c = v[i];
        assert(escape_char(c) == seq![c]);
        lemma_parse_str_sound(v, i + 1);
        match parse_str_spec(v, i + 1) {
            Some((s2, j)) => {
                let s = seq![c] + s2;
                assert(parse_str_spec(v, i) == Some((s, j)));
                assert(s.drop_first() =~= s2);
                lemma_escape_drop_first(s, 0);
                assert(escape_from(s, 0) == escape_char(c) + escape_from(s2, 0));
                lemma_subrange_split_head(v, i, 1, j);
                assert(v.subrange(i, i + 1) =~= escape_char(c));
                assert(escape_char(c) + (escape_from(s2, 0) + seq!['"']) =~= escape_from(s, 0)
                    + seq!['"']);
                assert(v.subrange(i, j) == escape_from(s, 0) + seq!['"']);
            },
            None => {},
        }
    }
}


proof fn lemma_items_drop_first(args: Seq<Seq<char>>, k: int)
    requires
        args.len() > 0,
        0 <= k,
    ensures
        items_enc_from(args, k + 1) == items_enc_from(args.drop_first(), k),
    decreases args.len() - k,
{
    if k + 1 < args.len() {
        assert(args.drop_first()[k] == args[k + 1]);
        lemma_items_drop_first(args, k + 1);
    }
}

/// Soundness of the items parser: whatever it accepts between `i`
/// and its end position is exactly the encoded items of its result,
/// with the closing bracket line.
#[verifier::rlimit(100)]
proof fn lemma_parse_items_sound(v: Seq<char>, i: int)
    requires
        0 <= i,
    ensures
        parse_items_spec(v, i) matches Some(p) ==> p.0.len() >= 1 && i < p.1 <= v.len()
            && v.subrange(i, p.1) == items_enc_from(p.0, 0) + lit_args_close(),
    decreases v.len() - i,
{
    reveal_strlit("    ");
    reveal_strlit(",\n");
    reveal_strlit("\n  ]");
    let ind_q = lit_item_indent() + seq!['"'];
    match expect_at(v, i, ind_q) {
        None => {},
        Some(i1) => {
            assert(i1 == i + 5);
            lemma_parse_str_sound(v, i1);
            match parse_str_spec(v, i1) {
                None => {},
                Some((arg, j)) => {
                    if i < j <= v.len() {
                        let e = escape_from(arg, 0);
                        assert(v.subrange(i1, j) == e + seq!['"']);
                        match expect_at(v, j, lit_item_sep()) {
                            Some(j2) => {
                                assert(j2 == j + 2);
                                assert(v.subrange(j, j2) == lit_item_sep());
                                lemma_parse_items_sound(v, j2);
                                match parse_items_spec(v, j2) {
                                    Some((rest, end)) => {
                                        let args = seq![arg] + rest;
                                        assert(parse_items_spec(v, i) == Some((args, end)));
                                        assert(args.drop_first() =~= rest);
                                        lemma_items_drop_first(args, 0);
                                        assert(items_enc_from(args, 0) == lit_item_indent()
                                            + quoted(args[0]) + lit_item_sep()
                                            + items_enc_from(rest, 0));
                                        lemma_subrange_split_head(v, i, 5, end);
                                        lemma_subrange_split_head(v, i1, j - i1, end);
                                        lemma_subrange_split_head(v, j, 2, end);
                                        assert(v.subrange(i, end) == ind_q + ((e + seq!['"'])
                                            + (lit_item_sep() + (items_enc_from(rest, 0)
                                            + lit_args_close()))));
                                        assert(ind_q + ((e + seq!['"']) + (lit_item_sep() + (
                                        items_enc_from(rest, 0) + lit_args_close())))
                                            =~= items_enc_from(args, 0) + lit_args_close());
                                    },
                                    None => {},
                                }
                            },
                            None => {
                                match expect_at(v, j, lit_args_close()) {
                                    Some(j2) => {
                                        assert(j2 == j + 4);
                                        assert(v.subrange(j, j2) == lit_args_close());
                                        let args = seq![arg];
                                        assert(parse_items_spec(v, i) == Some((args, j2)));
                                        assert(items_enc_from(args, 0) == lit_item_indent()
                                            + quoted(args[0]));
                                        lemma_subrange_split_head(v, i, 5, j2);
                                        lemma_subrange_split_head(v, i1, j - i1, j2);
                                        assert(v.subrange(i, j2) == ind_q + ((e + seq!['"'])
                                            + lit_args_close()));
                                        assert(ind_q + ((e + seq!['"']) + lit_args_close())
                                            =~= items_enc_from(args, 0) + lit_args_close());
                                    },
                                    None => {},
                                }
                            },
                        }
                    }
                },
            }
        },
    }
}

/// Soundness of the argument-list parser.
proof fn lemma_parse_args_sound(v: Seq<char>, i: int)
    requires
        0 <= i,
    ensures
        parse_args_spec(v, i) matches Some(p) ==> i <= p.1 <= v.len() && v.subrange(i, p.1)
            == args_enc(p.0),
{
    match expect_at(v, i, lit_empty_args()) {
        Some(j) => {
            assert(parse_args_spec(v, i) == Some((Seq::<Seq<char>>::empty(), j)));
        },
        None => {
            match expect_at(v, i, lit_args_open()) {
                Some(i2) => {
                    assert(i2 == i + lit_args_open().len());
                    lemma_parse_items_sound(v, i2);
                    match parse_items_spec(v, i2) {
                        Some((args, j)) => {
                            lemma_subrange_split_head(v, i, lit_args_open().len() as int, j);
                            assert(v.subrange(i, j) == lit_args_open() + (items_enc_from(args, 0)
                                + lit_args_close()));
                            assert(lit_args_open() + (items_enc_from(args, 0) + lit_args_close())
                                =~= args_enc(args));
                        },
                        None => {},
                    }
                },
                None => {},
            }
        },
    }
}

/// Soundness of the description parser.
proof fn lemma_parse_desc_sound(v: Seq<char>, i: int)
    requires
        0 <= i,
    ensures
        parse_desc_spec(v, i) matches Some(p) ==> i <= p.1 <= v.len() && v.subrange(i, p.1)
            == desc_enc(p.0),
{
    match expect_at(v, i, lit_null()) {
        Some(j) => {},
        None => {
            match expect_at(v, i, seq!['"']) {
                Some(i2) => {
                    assert(i2 == i + 1);
                    lemma_parse_str_sound(v, i2);
                    match parse_str_spec(v, i2) {
                        Some((d, j)) => {
                            lemma_subrange_split_head(v, i, 1, j);
                            assert(v.subrange(i, i + 1) == seq!['"']);
                            assert(v.subrange(i, j) == seq!['"'] + (escape_from(d, 0)
                                + seq!['"']));
                            assert(seq!['"'] + (escape_from(d, 0) + seq!['"']) =~= quoted(d));
                        },
                        None => {},
                    }
                },
                None => {},
            }
        },
    }
}

#[verifier::rlimit(100)]
proof fn lemma_stitch_record(
    v: Seq<char>,
    c: ConfigView,
    i1: int,
    i2: int,
    i3: int,
    i4: int,
    i5: int,
    i6: int,
)
    requires
        i1 == (lit_head() + seq!['"']).len(),
        0 <= i1 <= i2 <= i3 <= i4 <= i5 <= i6 <= v.len(),
        v.subrange(0, i1) == lit_head() + seq!['"'],
        v.subrange(i1, i2) == escape_from(c.qemu_bin, 0) + seq!['"'],
        v.subrange(i2, i3) == lit_key_args(),
        v.subrange(i3, i4) == args_enc(c.args),
        v.subrange(i4, i5) == lit_key_desc(),
        v.subrange(i5, i6) == desc_enc(c.desc),
        v.subrange(i6, v.len() as int) == lit_tail(),
    ensures
        v == encode_spec(c),
{
    let i7 = v.len() as int;
    let e = escape_from(c.qemu_bin, 0);
    lemma_subrange_split_head(v, i5, i6 - i5, i7);
    assert(v.subrange(i5, i7) == desc_enc(c.desc) + lit_tail());
    lemma_subrange_split_head(v, i4, i5 - i4, i7);
    assert(v.subrange(i4, i7) == lit_key_desc() + (desc_enc(c.desc) + lit_tail()));
    lemma_subrange_split_head(v, i3, i4 - i3, i7);
    assert(v.subrange(i3, i7) == args_enc(c.args) + (lit_key_desc() + (desc_enc(c.desc)
        + lit_tail())));
    lemma_subrange_split_head(v, i2, i3 - i2, i7);
    assert(v.subrange(i2, i7) == lit_key_args() + (args_enc(c.args) + (lit_key_desc() + (desc_enc(
        c.desc,
    ) + lit_tail()))));
    lemma_subrange_split_head(v, i1, i2 - i1, i7);
    assert(v.subrange(i1, i7) == (e + seq!['"']) + (lit_key_args() + (args_enc(c.args) + (
    lit_key_desc() + (desc_enc(c.desc) + lit_tail())))));
    lemma_subrange_split_head(v, 0, i1, i7);
    assert(v.subrange(0, i7) =~= v);
    assert(v == (lit_head() + seq!['"']) + ((e + seq!['"']) + (lit_key_args() + (args_enc(c.args)
        + (lit_key_desc() + (desc_enc(c.desc) + lit_tail()))))));
    assert((lit_head() + seq!['"']) + ((e + seq!['"']) + (lit_key_args() + (args_enc(c.args) + (
    lit_key_desc() + (desc_enc(c.desc) + lit_tail()))))) =~= encode_spec(c));
}

/// Soundness of the decoder: a text that decodes is exactly the
/// canonical text of the record it decodes to. With the round trip
/// the other way, the decoder accepts the canonical encodings and
/// nothing else.
pub proof fn lemma_decode_sound(v: Seq<char>)
    ensures
        decode_spec(v) matches Some(c) ==> v == encode_spec(c),
{
    let hq = lit_head() + seq!['"'];
    match expect_at(v, 0, hq) {
        None => {},
        Some(i1) => {
            assert(i1 == hq.len());
            lemma_parse_str_sound(v, i1);
            match parse_str_spec(v, i1) {
                None => {},
                Some((qemu_bin, i2)) => {
                    match expect_at(v, i2, lit_key_args()) {
                        None => {},
                        Some(i3) => {
                            lemma_parse_args_sound(v, i3);
                            match parse_args_spec(v, i3) {
                                None => {},
                                Some((args, i4)) => {
                                    match expect_at(v, i4, lit_key_desc()) {
                                        None => {},
                                        Some(i5) => {
                                            lemma_parse_desc_sound(v, i5);
                                            match parse_desc_spec(v, i5) {
                                                None => {},
                                                Some((desc, i6)) => {
                                                    match expect_at(v, i6, lit_tail()) {
                                                        None => {},
                                                        Some(i7) => {
                                                            if i7 == v.len() {
                                                                let c = ConfigView {
                                                                    qemu_bin,
                                                                    args,
                                                                    desc,
                                                                };
                                                                lemma_stitch_record(
                                                                    v,
                                                                    c,
                                                                    i1,
                                                                    i2,
                                                                    i3,
                                                                    i4,
                                                                    i5,
                                                                    i6,
                                                                );
                                                            }
                                                        },
                                                    }
                                                },
                                            }
                                        },
                                    }
                                },
                            }
                        },
                    }
                },
            }
        },
    }
}

/// A quoted string standing at `p` of `v` parses back from `p + 1`.
proof fn lemma_parse_quoted_at(v: Seq<char>, p: int, s: Seq<char>)
    requires
        0 <= p,
        p + quoted(s).len() <= v.len(),
        v.subrange(p, p + quoted(s).len()) == quoted(s),
    ensures
        v[p] == '"',
        parse_str_spec(v, p + 1) == Some((s, p + quoted(s).len())),
{
    let e = escape_from(s, 0);
    let q = quoted(s);
    let endq = p + q.len();
    assert(q == seq!['"'] + e + seq!['"']);
    lemma_index_of_subrange(v, p, endq, q, 0);
    assert forall|t: int| 0 <= t < e.len() + 1 implies v.subrange(p + 1, endq)[t] == (e + seq![
        '"',
    ])[t] by {
        assert(v.subrange(p + 1, endq)[t] == v[p + 1 + t]);
        lemma_index_of_subrange(v, p, endq, q, 1 + t);
    }
    assert(v.subrange(p + 1, endq) =~= e + seq!['"']);
    lemma_parse_escaped(v, p + 1, s, 0);
    assert(s.subrange(0, s.len() as int) =~= s);
}

/// An encoded argument list standing at `p` of `v` parses back.
proof fn lemma_parse_args_at(v: Seq<char>, p: int, args: Seq<Seq<char>>)
    requires
        0 <= p,
        p + args_enc(args).len() <= v.len(),
        v.subrange(p, p + args_enc(args).len()) == args_enc(args),
    ensures
        parse_args_spec(v, p) == Some((args, p + args_enc(args).len())),
{
    reveal_strlit("[]");
    reveal_strlit("[\n");
    let ae = args_enc(args);
    let pe = p + ae.len();
    if args.len() == 0 {
        assert(ae == lit_empty_args());
        assert(expect_at(v, p, lit_empty_args()) == Some(pe));
        assert(Seq::<Seq<char>>::empty() =~= args);
    } else {
        let ao = lit_args_open();
        let items = items_enc_from(args, 0);
        let close = lit_args_close();
        assert(ae == ao + items + close);
        assert(ae[1] == '\n') by {
            assert((ao + items + close)[1] == ao[1]);
        }
        lemma_index_of_subrange(v, p, pe, ae, 1);
        assert(v[p + 1] == '\n');
        if p + 2 <= v.len() && v.subrange(p, p + 2) == lit_empty_args() {
            assert(v.subrange(p, p + 2)[1] == v[p + 1]);
            assert(false);
        }
        assert(expect_at(v, p, lit_empty_args()) is None);
        assert forall|t: int| 0 <= t < 2 implies v.subrange(p, p + 2)[t] == ao[t] by {
            assert(v.subrange(p, p + 2)[t] == v[p + t]);
            lemma_index_of_subrange(v, p, pe, ae, t);
            assert((ao + items + close)[t] == ao[t]);
        }
        assert(v.subrange(p, p + 2) =~= ao);
        assert(expect_at(v, p, ao) == Some(p + 2));
        assert forall|t: int| 0 <= t < items.len() + close.len() implies v.subrange(p + 2, pe)[t]
            == (items + close)[t] by {
            assert(v.subrange(p + 2, pe)[t] == v[p + 2 + t]);
            lemma_index_of_subrange(v, p, pe, ae, 2 + t);
            assert((ao + items + close)[2 + t] == (items + close)[t]);
        }
        assert(v.subrange(p + 2, pe) =~= items + close);
        lemma_parse_items(v, p + 2, args, 0);
        assert(args.subrange(0, args.len() as int) =~= args);
    }
}

/// An encoded description standing at `p` of `v` parses back.
proof fn lemma_parse_desc_at(v: Seq<char>, p: int, desc: Option<Seq<char>>)
    requires
        0 <= p,
        p + desc_enc(desc).len() <= v.len(),
        v.subrange(p, p + desc_enc(desc).len()) == desc_enc(desc),
    ensures
        parse_desc_spec(v, p) == Some((desc, p + desc_enc(desc).len())),
{
    reveal_strlit("null");
    let de = desc_enc(desc);
    let pe = p + de.len();
    match desc {
        None => {
            assert(de == lit_null());
            assert(expect_at(v, p, lit_null()) == Some(pe));
        },
        Some(d) => {
            lemma_parse_quoted_at(v, p, d);
            if p + lit_null().len() <= v.len() && v.subrange(p, p + lit_null().len())
                == lit_null() {
                assert(v.subrange(p, p + lit_null().len())[0] == v[p]);
                assert(false);
            }
            assert(expect_at(v, p, lit_null()) is None);
            assert(v.subrange(p, p + 1) =~= seq!['"']) by {
                assert(v.subrange(p, p + 1)[0] == v[p]);
            }
            assert(expect_at(v, p, seq!['"']) == Some(p + 1));
        },
    }
}

/// Round trip: the canonical text of any record decodes back to it.
#[verifier::rlimit(100)]
pub proof fn lemma_encode_decode(c: ConfigView)
    ensures
        decode_spec(encode_spec(c)) == Some(c),
{
    let v = encode_spec(c);
    let hb = lit_head();
    let qb = quoted(c.qemu_bin);
    let ka = lit_key_args();
    let ae = args_enc(c.args);
    let kd = lit_key_desc();
    let de = desc_enc(c.desc);
    let tl = lit_tail();
    let p1 = hb.len() as int;
    let p2 = p1 + qb.len();
    let p3 = p2 + ka.len();
    let p4 = p3 + ae.len();
    let p5 = p4 + kd.len();
    let p6 = p5 + de.len();
    let p7 = p6 + tl.len();
    let r1 = qb + (ka + (ae + (kd + (de + tl))));
    let r2 = ka + (ae + (kd + (de + tl)));
    let r3 = ae + (kd + (de + tl));
    let r4 = kd + (de + tl);
    let r5 = de + tl;
    assert(v =~= hb + r1);
    assert(v.subrange(0, v.len() as int) =~= v);
    lemma_extract(v, 0, hb, r1);
    lemma_extract(v, p1, qb, r2);
    lemma_extract(v, p2, ka, r3);
    lemma_extract(v, p3, ae, r4);
    lemma_extract(v, p4, kd, r5);
    lemma_extract(v, p5, de, tl);
    // the head, with the opening quote of the executable name
    lemma_parse_quoted_at(v, p1, c.qemu_bin);
    assert forall|t: int| 0 <= t < p1 + 1 implies v.subrange(0, p1 + 1)[t] == (hb + seq!['"'])[t] by {
        assert(v.subrange(0, p1 + 1)[t] == v[t]);
        if t < p1 {
            lemma_index_of_subrange(v, 0, p1, hb, t);
        }
    }
    assert(v.subrange(0, p1 + 1) =~= hb + seq!['"']);
    assert(expect_at(v, 0, lit_head() + seq!['"']) == Some(p1 + 1));
    assert(parse_str_spec(v, p1 + 1) == Some((c.qemu_bin, p2)));
    // the two keys, the argument list, the description, the tail
    assert(expect_at(v, p2, lit_key_args()) == Some(p3));
    lemma_parse_args_at(v, p3, c.args);
    assert(expect_at(v, p4, lit_key_desc()) == Some(p5));
    lemma_parse_desc_at(v, p5, c.desc);
    assert(expect_at(v, p6, lit_tail()) == Some(p7));
    assert(p7 == v.len());
    assert(decode_spec(v) == Some(ConfigView { qemu_bin: c.qemu_bin, args: c.args, desc: c.desc }));
}

} // verus!
