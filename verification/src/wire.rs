//! The wire text of a frame.
//!
//! A frame travels as one JSON object with three members: `data`, a string
//! that holds the payload, and `width` and `height`, unsigned integers.
//! [`encode_frame`] writes the compact form, members in that order.
//! [`decode_frame`] reads any JSON object that has exactly these three
//! members, each once, in any order, with white space between the tokens.

use vstd::prelude::*;
use crate::codec::{base64_char, base64_text};
use crate::frame::{FrameView, ScreenFrame};
use crate::text::{
    all_digits, decimal, digits_value, is_digit, lemma_decimal_reads_back, push_decimal,
};

verus! {

// ---------------------------------------------------------------------
// Writing
// ---------------------------------------------------------------------

/// The lower-case hexadecimal digit for `d`, for `0 <= d <= 15`.
pub open spec fn hex_char(d: int) -> char {
    if d < 10 {
        (d + 0x30) as u8 as char
    } else {
        (d - 10 + 0x61) as u8 as char
    }
}

/// How one character of a string stands inside a JSON string literal.
///
/// The quotation mark, the backslash and the control characters below
/// `U+0020` are escaped, the latter by their short form where JSON has one
/// and as `\u00XX` otherwise. Every other character stands for itself.
pub open spec fn escape_char(c: char) -> Seq<char> {
    let n = c as u32;
    if c == '"' {
        seq!['\\', '"']
    } else if c == '\\' {
        seq!['\\', '\\']
    } else if n == 0x08 {
        seq!['\\', 'b']
    } else if n == 0x09 {
        seq!['\\', 't']
    } else if n == 0x0A {
        seq!['\\', 'n']
    } else if n == 0x0C {
        seq!['\\', 'f']
    } else if n == 0x0D {
        seq!['\\', 'r']
    } else if n < 0x20 {
        seq!['\\', 'u', '0', '0', hex_char(n as int / 16), hex_char(n as int % 16)]
    } else {
        seq![c]
    }
}

/// The characters of `s`, each escaped, in order.
pub open spec fn escape_text(s: Seq<char>) -> Seq<char>
    decreases s.len(),
{
    if s.len() == 0 {
        Seq::empty()
    } else {
        escape_char(s[0]) + escape_text(s.skip(1))
    }
}

/// The JSON string literal for `s`.
pub open spec fn quoted(s: Seq<char>) -> Seq<char> {
    seq!['"'] + (escape_text(s) + seq!['"'])
}

pub open spec fn data_key() -> Seq<char> {
    seq!['d', 'a', 't', 'a']
}

pub open spec fn width_key() -> Seq<char> {
    seq!['w', 'i', 'd', 't', 'h']
}

pub open spec fn height_key() -> Seq<char> {
    seq!['h', 'e', 'i', 'g', 'h', 't']
}

/// The `height` member and the closing brace.
pub open spec fn height_part(frame: FrameView) -> Seq<char> {
    quoted(height_key()) + (seq![':'] + (decimal(frame.height as nat) + seq!['}']))
}

/// The `width` member and what follows it.
pub open spec fn width_part(frame: FrameView) -> Seq<char> {
    quoted(width_key()) + (seq![':'] + (decimal(frame.width as nat) + (seq![','] + height_part(
        frame,
    ))))
}

/// The `data` member and what follows it.
pub open spec fn data_part(frame: FrameView) -> Seq<char> {
    quoted(data_key()) + (seq![':'] + (quoted(frame.data) + (seq![','] + width_part(frame))))
}

/// The wire text of a frame: `{"data":"..","width":W,"height":H}`.
pub open spec fn wire_text(frame: FrameView) -> Seq<char> {
    seq!['{'] + data_part(frame)
}

/// Escaping distributes over appending one character.
pub proof fn lemma_escape_text_push(s: Seq<char>, c: char)
    ensures
        escape_text(s.push(c)) == escape_text(s) + escape_char(c),
    decreases s.len(),
{
    if s.len() == 0 {
        assert(s.push(c).skip(1) =~= Seq::<char>::empty());
        assert(escape_text(s.push(c)) =~= escape_char(c) + escape_text(Seq::empty()));
        assert(escape_text(s.push(c)) =~= escape_text(s) + escape_char(c));
    } else {
        lemma_escape_text_push(s.skip(1), c);
        assert(s.push(c).skip(1) =~= s.skip(1).push(c));
        assert(s.push(c)[0] == s[0]);
        assert(escape_text(s.push(c)) =~= escape_text(s) + escape_char(c));
    }
}

fn hex_digit(d: u8) -> (c: char)
    requires
        d < 16,
    ensures
        c == hex_char(d as int),
{
    if d < 10 {
        (d + 0x30) as char
    } else {
        (d - 10 + 0x61) as char
    }
}

fn push_escaped(out: &mut String, c: char)
    ensures
        final(out)@ == old(out)@ + escape_char(c),
{
    let n: u32 = c as u32;
    if c == '"' {
        out.push('\\');
        out.push('"');
    } else if c == '\\' {
        out.push('\\');
        out.push('\\');
    } else if n == 0x08 {
        out.push('\\');
        out.push('b');
    } else if n == 0x09 {
        out.push('\\');
        out.push('t');
    } else if n == 0x0A {
        out.push('\\');
        out.push('n');
    } else if n == 0x0C {
        out.push('\\');
        out.push('f');
    } else if n == 0x0D {
        out.push('\\');
        out.push('r');
    } else if n < 0x20 {
        out.push('\\');
        out.push('u');
        out.push('0');
        out.push('0');
        out.push(hex_digit((n / 16) as u8));
        out.push(hex_digit((n % 16) as u8));
    } else {
        out.push(c);
    }
    assert(out@ =~= old(out)@ + escape_char(c));
}

/// Appends the JSON string literal for `s` to `out`.
fn push_quoted(out: &mut String, s: &str)
    ensures
        final(out)@ == old(out)@ + quoted(s@),
{
    let chars = crate::text::chars_of(s);
    out.push('"');
    let mut i: usize = 0;
    while i < chars.len()
        invariant
            i <= chars.len(),
            chars@ == s@,
            out@ == old(out)@.push('"') + escape_text(chars@.take(i as int)),
        decreases chars.len() - i,
    {
        proof {
            lemma_escape_text_push(chars@.take(i as int), chars@[i as int]);
            assert(chars@.take(i + 1) =~= chars@.take(i as int).push(chars@[i as int]));
        }
        push_escaped(out, chars[i]);
        i = i + 1;
    }
    assert(chars@.take(i as int) =~= s@);
    out.push('"');
    assert(out@ =~= old(out)@ + quoted(s@));
}

/// The wire text of `frame`.
pub fn encode_frame(frame: &ScreenFrame) -> (text: String)
    ensures
        text@ == wire_text(frame@),
{
    let mut out = String::new();
    out.push('{');
    push_quoted(&mut out, "data");
    out.push(':');
    push_quoted(&mut out, frame.data.as_str());
    out.push(',');
    push_quoted(&mut out, "width");
    out.push(':');
    push_decimal(&mut out, frame.width as u64);
    out.push(',');
    push_quoted(&mut out, "height");
    out.push(':');
    push_decimal(&mut out, frame.height as u64);
    out.push('}');
    proof {
        reveal_strlit("data");
        reveal_strlit("width");
        reveal_strlit("height");
        assert("data"@ =~= data_key());
        assert("width"@ =~= width_key());
        assert("height"@ =~= height_key());
        assert(out@ =~= wire_text(frame@));
    }
    out
}

// ---------------------------------------------------------------------
// Reading
// ---------------------------------------------------------------------

/// JSON white space: space, tab, line feed, carriage return.
pub open spec fn is_space(c: char) -> bool {
    c == ' ' || c == '\t' || c == '\n' || c == '\r'
}

/// `t` without its leading white space.
pub open spec fn trim_start(t: Seq<char>) -> Seq<char>
    decreases t.len(),
{
    if t.len() > 0 && is_space(t[0]) {
        trim_start(t.skip(1))
    } else {
        t
    }
}

/// The value of a hexadecimal digit of either case.
pub open spec fn hex_value(c: char) -> Option<int> {
    let n = c as u32;
    if 0x30 <= n <= 0x39 {
        Some(n - 0x30)
    } else if 0x41 <= n <= 0x46 {
        Some(n - 0x41 + 10)
    } else if 0x61 <= n <= 0x66 {
        Some(n - 0x61 + 10)
    } else {
        None
    }
}

/// The number that the first four characters of `t` spell in hexadecimal.
pub open spec fn hex4(t: Seq<char>) -> Option<int> {
    if t.len() < 4 {
        None
    } else if hex_value(t[0]) is Some && hex_value(t[1]) is Some && hex_value(t[2]) is Some
        && hex_value(t[3]) is Some {
        Some(
            ((hex_value(t[0])->0 * 16 + hex_value(t[1])->0) * 16 + hex_value(t[2])->0) * 16
                + hex_value(t[3])->0,
        )
    } else {
        None
    }
}

/// The character of a `\u` escape and the number of characters the escape
/// takes; `t` starts behind the `u`.
///
/// Four hexadecimal digits outside the surrogate range name the character
/// directly. A high surrogate must be followed by a second `\u` escape
/// with a low surrogate; the pair names one character above `U+FFFF`.
pub open spec fn unicode_escape(t: Seq<char>) -> Option<(char, nat)> {
    match hex4(t) {
        None => None,
        Some(hi) => if hi < 0xD800 || hi > 0xDFFF {
            Some((hi as u32 as char, 4))
        } else if hi <= 0xDBFF && t.len() >= 6 && t[4] == '\\' && t[5] == 'u' {
            match hex4(t.skip(6)) {
                None => None,
                Some(lo) => if 0xDC00 <= lo <= 0xDFFF {
                    Some(((0x10000 + (hi - 0xD800) * 0x400 + (lo - 0xDC00)) as u32 as char, 10))
                } else {
                    None
                },
            }
        } else {
            None
        },
    }
}

/// The character an escape sequence stands for and the number of
/// characters the sequence takes; `t` starts behind the backslash.
#[verifier::opaque]
pub open spec fn unescape(t: Seq<char>) -> Option<(char, nat)> {
    if t.len() == 0 {
        None
    } else if t[0] == '"' || t[0] == '\\' || t[0] == '/' {
        Some((t[0], 1))
    } else if t[0] == 'b' {
        Some((0x08u8 as char, 1))
    } else if t[0] == 'f' {
        Some((0x0Cu8 as char, 1))
    } else if t[0] == 'n' {
        Some(('\n', 1))
    } else if t[0] == 'r' {
        Some(('\r', 1))
    } else if t[0] == 't' {
        Some(('\t', 1))
    } else if t[0] == 'u' {
        match unicode_escape(t.skip(1)) {
            None => None,
            Some((c, k)) => Some((c, k + 1)),
        }
    } else {
        None
    }
}

/// `acc` put in front of the string that `r` holds.
pub open spec fn prepend(acc: Seq<char>, r: Option<(Seq<char>, Seq<char>)>) -> Option<
    (Seq<char>, Seq<char>),
> {
    match r {
        None => None,
        Some((s, rest)) => Some((acc + s, rest)),
    }
}

/// Reads a JSON string from behind its opening quotation mark: the string
/// it denotes and what follows the closing quotation mark. `None` where the
/// string does not end, holds a raw control character or a bad escape.
pub open spec fn string_body(t: Seq<char>) -> Option<(Seq<char>, Seq<char>)>
    decreases t.len(),
    via string_body_decreases
{
    if t.len() == 0 {
        None
    } else if t[0] == '"' {
        Some((Seq::empty(), t.skip(1)))
    } else if t[0] == '\\' {
        match unescape(t.skip(1)) {
            None => None,
            Some((c, k)) => prepend(seq![c], string_body(t.skip(1 + k as int))),
        }
    } else if (t[0] as u32) < 0x20 {
        None
    } else {
        prepend(seq![t[0]], string_body(t.skip(1)))
    }
}

#[via_fn]
proof fn string_body_decreases(t: Seq<char>) {
    if t.len() > 0 {
        lemma_unescape_bound(t.skip(1));
    }
}

/// An escape sequence takes at least one character and no more than there
/// are.
pub proof fn lemma_unescape_bound(t: Seq<char>)
    ensures
        unescape(t) is Some ==> 1 <= (unescape(t)->0).1 <= t.len(),
{
    reveal(unescape);
}

/// Reads a JSON string literal at the start of `t`.
pub open spec fn string_token(t: Seq<char>) -> Option<(Seq<char>, Seq<char>)> {
    if t.len() > 0 && t[0] == '"' {
        string_body(t.skip(1))
    } else {
        None
    }
}

/// The number of decimal digits that `t` starts with.
pub open spec fn digit_run(t: Seq<char>) -> nat
    decreases t.len(),
{
    if t.len() > 0 && is_digit(t[0]) {
        1 + digit_run(t.skip(1))
    } else {
        0
    }
}

/// Reads a JSON unsigned integer at the start of `t`: a run of digits with
/// no leading zero. A fraction or an exponent is not part of it.
pub open spec fn number_token(t: Seq<char>) -> Option<(nat, Seq<char>)> {
    let k = digit_run(t);
    if k == 0 || (k > 1 && t[0] == '0') {
        None
    } else {
        Some((digits_value(t.take(k as int)), t.skip(k as int)))
    }
}

/// Reads an unsigned integer that fits 32 bits.
pub open spec fn dimension(t: Seq<char>) -> Option<(u32, Seq<char>)> {
    match number_token(t) {
        None => None,
        Some((v, rest)) => if v <= u32::MAX {
            Some((v as u32, rest))
        } else {
            None
        },
    }
}

/// What follows the character `c`, which may stand behind white space.
pub open spec fn after(t: Seq<char>, c: char) -> Option<Seq<char>> {
    let u = trim_start(t);
    if u.len() > 0 && u[0] == c {
        Some(u.skip(1))
    } else {
        None
    }
}

/// The members of a frame that have been read so far.
pub struct Partial {
    pub data: Option<Seq<char>>,
    pub width: Option<u32>,
    pub height: Option<u32>,
}

/// The frame that the members make, once all three are there.
pub open spec fn complete(seen: Partial) -> Option<FrameView> {
    if seen.data is Some && seen.width is Some && seen.height is Some {
        Some(FrameView { data: seen.data->0, width: seen.width->0, height: seen.height->0 })
    } else {
        None
    }
}

/// Reads one member, a key, a colon and a value, and adds it to `seen`.
/// `None` for a key that is not one of the three, for a key that was seen
/// before, and for a value of the wrong kind.
pub open spec fn member(t: Seq<char>, seen: Partial) -> Option<(Partial, Seq<char>)> {
    match string_token(trim_start(t)) {
        None => None,
        Some((key, r1)) => match after(r1, ':') {
            None => None,
            Some(r2) => {
                let v = trim_start(r2);
                if key == data_key() && seen.data is None {
                    match string_token(v) {
                        None => None,
                        Some((s, rest)) => Some((Partial { data: Some(s), ..seen }, rest)),
                    }
                } else if key == width_key() && seen.width is None {
                    match dimension(v) {
                        None => None,
                        Some((n, rest)) => Some((Partial { width: Some(n), ..seen }, rest)),
                    }
                } else if key == height_key() && seen.height is None {
                    match dimension(v) {
                        None => None,
                        Some((n, rest)) => Some((Partial { height: Some(n), ..seen }, rest)),
                    }
                } else {
                    None
                }
            },
        },
    }
}

/// Reads the members of the object from behind its opening brace to the
/// end of the text: members separated by commas, the closing brace, and
/// nothing but white space behind it.
pub open spec fn members(t: Seq<char>, seen: Partial) -> Option<FrameView>
    decreases t.len(),
    via members_decreases
{
    match member(t, seen) {
        None => None,
        Some((seen2, r)) => {
            let u = trim_start(r);
            if u.len() == 0 {
                None
            } else if u[0] == ',' {
                members(u.skip(1), seen2)
            } else if u[0] == '}' && trim_start(u.skip(1)).len() == 0 {
                complete(seen2)
            } else {
                None
            }
        },
    }
}

#[via_fn]
proof fn members_decreases(t: Seq<char>, seen: Partial) {
    lemma_member_shrinks(t, seen);
    if member(t, seen) is Some {
        lemma_trim_start_suffix((member(t, seen)->0).1);
    }
}

/// The frame that a wire text denotes, `None` where it denotes none.
pub open spec fn parse_frame(t: Seq<char>) -> Option<FrameView> {
    match after(t, '{') {
        None => None,
        Some(r) => members(r, Partial { data: None, width: None, height: None }),
    }
}

/// Trimming only ever removes characters from the front.
pub proof fn lemma_trim_start_suffix(t: Seq<char>)
    ensures
        trim_start(t).len() <= t.len(),
        trim_start(t) == t.skip(t.len() - trim_start(t).len()),
        trim_start(t).len() > 0 ==> !is_space(trim_start(t)[0]),
    decreases t.len(),
{
    if t.len() > 0 && is_space(t[0]) {
        lemma_trim_start_suffix(t.skip(1));
        let k = t.skip(1).len() - trim_start(t).len();
        assert(t.skip(1).skip(k) =~= t.skip(k + 1));
    } else {
        assert(t.skip(0) =~= t);
    }
}

/// A string that was read leaves less text than there was.
pub proof fn lemma_string_body_shrinks(t: Seq<char>)
    ensures
        string_body(t) is Some ==> (string_body(t)->0).1.len() < t.len(),
    decreases t.len(),
{
    if t.len() == 0 {
    } else if t[0] == '"' {
    } else if t[0] == '\\' {
        lemma_unescape_bound(t.skip(1));
        match unescape(t.skip(1)) {
            None => {},
            Some((c, k)) => {
                lemma_string_body_shrinks(t.skip(1 + k as int));
            },
        }
    } else if (t[0] as u32) < 0x20 {
    } else {
        lemma_string_body_shrinks(t.skip(1));
    }
}

/// A run of digits is no longer than the text.
pub proof fn lemma_digit_run_bound(t: Seq<char>)
    ensures
        digit_run(t) <= t.len(),
    decreases t.len(),
{
    if t.len() > 0 && is_digit(t[0]) {
        lemma_digit_run_bound(t.skip(1));
    }
}

/// A member that was read leaves less text than there was.
pub proof fn lemma_member_shrinks(t: Seq<char>, seen: Partial)
    ensures
        member(t, seen) is Some ==> (member(t, seen)->0).1.len() < t.len(),
{
    lemma_trim_start_suffix(t);
    let t1 = trim_start(t);
    if string_token(t1) is Some {
        lemma_string_body_shrinks(t1.skip(1));
        let r1 = (string_token(t1)->0).1;
        lemma_trim_start_suffix(r1);
        if after(r1, ':') is Some {
            let r2 = after(r1, ':')->0;
            lemma_trim_start_suffix(r2);
            let v = trim_start(r2);
            if string_token(v) is Some {
                lemma_string_body_shrinks(v.skip(1));
            }
            lemma_digit_run_bound(v);
        }
    }
}

/// Skipping `i` characters and then `k` more is skipping `i + k`.
proof fn lemma_skip_more(s: Seq<char>, i: int, k: int)
    requires
        0 <= i,
        0 <= k,
        i + k <= s.len(),
    ensures
        s.skip(i).skip(k) == s.skip(i + k),
        s.skip(i).len() == s.len() - i,
        k < s.len() - i ==> s.skip(i)[k] == s[i + k],
{
    assert(s.skip(i).skip(k) =~= s.skip(i + k));
}

/// Putting one more character behind `acc` is the same as putting it in
/// front of what is still to come.
proof fn lemma_prepend_push(acc: Seq<char>, c: char, r: Option<(Seq<char>, Seq<char>)>)
    ensures
        prepend(acc, prepend(seq![c], r)) == prepend(acc.push(c), r),
{
    match r {
        None => {},
        Some((s, rest)) => {
            assert(acc + (seq![c] + s) =~= acc.push(c) + s);
        },
    }
}

fn is_space_char(c: char) -> (r: bool)
    ensures
        r == is_space(c),
{
    c == ' ' || c == '\t' || c == '\n' || c == '\r'
}

/// The index of the first character at or behind `i` that is no white
/// space.
fn skip_spaces(s: &Vec<char>, i: usize) -> (j: usize)
    requires
        i <= s.len(),
    ensures
        i <= j <= s.len(),
        s@.skip(j as int) == trim_start(s@.skip(i as int)),
{
    let mut j: usize = i;
    while j < s.len() && is_space_char(s[j])
        invariant
            i <= j <= s.len(),
            trim_start(s@.skip(j as int)) == trim_start(s@.skip(i as int)),
        decreases s.len() - j,
    {
        proof {
            lemma_skip_more(s@, j as int, 1);
            lemma_skip_more(s@, j as int, 0);
        }
        j = j + 1;
    }
    proof {
        lemma_skip_more(s@, j as int, 0);
    }
    j
}

fn hex_digit_value(c: char) -> (r: Option<u32>)
    ensures
        match r {
            Some(v) => hex_value(c) == Some(v as int) && v < 16,
            None => hex_value(c) is None,
        },
{
    let n: u32 = c as u32;
    if 0x30 <= n && n <= 0x39 {
        Some(n - 0x30)
    } else if 0x41 <= n && n <= 0x46 {
        Some(n - 0x41 + 10)
    } else if 0x61 <= n && n <= 0x66 {
        Some(n - 0x61 + 10)
    } else {
        None
    }
}

fn read_hex4(s: &Vec<char>, i: usize) -> (r: Option<u32>)
    requires
        i <= s.len(),
    ensures
        match r {
            Some(v) => hex4(s@.skip(i as int)) == Some(v as int) && v <= 0xFFFF,
            None => hex4(s@.skip(i as int)) is None,
        },
{
    if s.len() - i < 4 {
        return None;
    }
    proof {
        lemma_skip_more(s@, i as int, 0);
        lemma_skip_more(s@, i as int, 1);
        lemma_skip_more(s@, i as int, 2);
        lemma_skip_more(s@, i as int, 3);
    }
    let a = hex_digit_value(s[i]);
    let b = hex_digit_value(s[i + 1]);
    let c = hex_digit_value(s[i + 2]);
    let d = hex_digit_value(s[i + 3]);
    match (a, b, c, d) {
        (Some(a), Some(b), Some(c), Some(d)) => Some(((a * 16 + b) * 16 + c) * 16 + d),
        _ => None,
    }
}

fn read_unicode_escape(s: &Vec<char>, i: usize) -> (r: Option<(char, usize)>)
    requires
        i <= s.len(),
    ensures
        match r {
            Some((c, k)) => unicode_escape(s@.skip(i as int)) == Some((c, k as nat)) && 4 <= k
                && k <= s.len() - i,
            None => unicode_escape(s@.skip(i as int)) is None,
        },
{
    let hi: u32 = match read_hex4(s, i) {
        None => {
            return None;
        },
        Some(v) => v,
    };
    if hi < 0xD800 || hi > 0xDFFF {
        return match char::from_u32(hi) {
            Some(c) => Some((c, 4)),
            None => None,
        };
    }
    if hi > 0xDBFF || s.len() - i < 6 {
        return None;
    }
    proof {
        lemma_skip_more(s@, i as int, 4);
        lemma_skip_more(s@, i as int, 5);
        lemma_skip_more(s@, i as int, 6);
    }
    if s[i + 4] != '\\' || s[i + 5] != 'u' {
        return None;
    }
    let lo: u32 = match read_hex4(s, i + 6) {
        None => {
            return None;
        },
        Some(v) => v,
    };
    if lo < 0xDC00 || lo > 0xDFFF {
        return None;
    }
    match char::from_u32(0x10000 + (hi - 0xD800) * 0x400 + (lo - 0xDC00)) {
        Some(c) => Some((c, 10)),
        None => None,
    }
}

fn read_escape(s: &Vec<char>, i: usize) -> (r: Option<(char, usize)>)
    requires
        i <= s.len(),
    ensures
        match r {
            Some((c, k)) => unescape(s@.skip(i as int)) == Some((c, k as nat)) && 1 <= k && k
                <= s.len() - i,
            None => unescape(s@.skip(i as int)) is None,
        },
{
    proof {
        reveal(unescape);
    }
    if i >= s.len() {
        return None;
    }
    proof {
        lemma_skip_more(s@, i as int, 0);
        lemma_skip_more(s@, i as int, 1);
    }
    let c: char = s[i];
    if c == '"' || c == '\\' || c == '/' {
        Some((c, 1))
    } else if c == 'b' {
        Some((0x08u8 as char, 1))
    } else if c == 'f' {
        Some((0x0Cu8 as char, 1))
    } else if c == 'n' {
        Some(('\n', 1))
    } else if c == 'r' {
        Some(('\r', 1))
    } else if c == 't' {
        Some(('\t', 1))
    } else if c == 'u' {
        match read_unicode_escape(s, i + 1) {
            None => None,
            Some((ch, k)) => Some((ch, k + 1)),
        }
    } else {
        None
    }
}

/// Reads the inside of a string literal from index `i`: the string and the
/// index behind the closing quotation mark.
fn read_string_body(s: &Vec<char>, i: usize) -> (r: Option<(Vec<char>, usize)>)
    requires
        i <= s.len(),
    ensures
        match r {
            Some((v, j)) => j <= s.len() && string_body(s@.skip(i as int)) == Some(
                (v@, s@.skip(j as int)),
            ),
            None => string_body(s@.skip(i as int)) is None,
        },
{
    let mut out: Vec<char> = Vec::new();
    let mut j: usize = i;
    assert(prepend(out@, string_body(s@.skip(j as int))) == string_body(s@.skip(i as int))) by {
        let r = string_body(s@.skip(i as int));
        if r is Some {
            assert(out@ + (r->0).0 =~= (r->0).0);
        }
    }
    loop
        invariant
            i <= j <= s.len(),
            string_body(s@.skip(i as int)) == prepend(out@, string_body(s@.skip(j as int))),
        decreases s.len() - j,
    {
        if j >= s.len() {
            return None;
        }
        proof {
            lemma_skip_more(s@, j as int, 0);
            lemma_skip_more(s@, j as int, 1);
        }
        let c: char = s[j];
        if c == '"' {
            assert(out@ + Seq::<char>::empty() =~= out@);
            return Some((out, j + 1));
        } else if c == '\\' {
            match read_escape(s, j + 1) {
                None => {
                    return None;
                },
                Some((ch, k)) => {
                    proof {
                        lemma_skip_more(s@, j as int, 1 + k as int);
                        lemma_prepend_push(
                            out@,
                            ch,
                            string_body(s@.skip(j as int + 1 + k as int)),
                        );
                    }
                    out.push(ch);
                    j = j + 1 + k;
                },
            }
        } else if (c as u32) < 0x20 {
            return None;
        } else {
            proof {
                lemma_prepend_push(out@, c, string_body(s@.skip(j as int + 1)));
            }
            out.push(c);
            j = j + 1;
        }
    }
}

/// Reads a string literal that starts at index `i`.
fn read_string(s: &Vec<char>, i: usize) -> (r: Option<(Vec<char>, usize)>)
    requires
        i <= s.len(),
    ensures
        match r {
            Some((v, j)) => j <= s.len() && string_token(s@.skip(i as int)) == Some(
                (v@, s@.skip(j as int)),
            ),
            None => string_token(s@.skip(i as int)) is None,
        },
{
    if i >= s.len() || s[i] != '"' {
        proof {
            if i < s.len() {
                lemma_skip_more(s@, i as int, 0);
            }
        }
        return None;
    }
    proof {
        lemma_skip_more(s@, i as int, 0);
        lemma_skip_more(s@, i as int, 1);
    }
    read_string_body(s, i + 1)
}

fn is_digit_char(c: char) -> (r: bool)
    ensures
        r == is_digit(c),
{
    0x30 <= c as u32 && c as u32 <= 0x39
}

/// Reads an unsigned 32-bit integer that starts at index `i`.
fn read_dimension(s: &Vec<char>, i: usize) -> (r: Option<(u32, usize)>)
    requires
        i <= s.len(),
    ensures
        match r {
            Some((v, j)) => j <= s.len() && dimension(s@.skip(i as int)) == Some(
                (v, s@.skip(j as int)),
            ),
            None => dimension(s@.skip(i as int)) is None,
        },
{
    let mut j: usize = i;
    let mut value: u64 = 0;
    let mut fits: bool = true;
    proof {
        assert(s@.subrange(i as int, i as int).len() == 0);
    }
    while j < s.len() && is_digit_char(s[j])
        invariant
            i <= j <= s.len(),
            digit_run(s@.skip(i as int)) == (j - i) + digit_run(s@.skip(j as int)),
            fits ==> value == digits_value(s@.subrange(i as int, j as int)) && value <= u32::MAX,
            !fits ==> digits_value(s@.subrange(i as int, j as int)) > u32::MAX,
        decreases s.len() - j,
    {
        let d: u64 = (s[j] as u32 - 0x30) as u64;
        proof {
            lemma_skip_more(s@, j as int, 0);
            lemma_skip_more(s@, j as int, 1);
            let longer = s@.subrange(i as int, j as int + 1);
            assert(longer.drop_last() =~= s@.subrange(i as int, j as int));
            assert(longer.last() == s@[j as int]);
            assert(digits_value(longer) == digits_value(longer.drop_last()) * 10 + d);
        }
        if fits {
            value = value * 10 + d;
            if value > u32::MAX as u64 {
                fits = false;
            }
        }
        j = j + 1;
    }
    proof {
        lemma_skip_more(s@, i as int, 0);
        lemma_skip_more(s@, j as int, 0);
        lemma_skip_more(s@, i as int, j - i);
        assert(s@.skip(i as int).take(j - i) =~= s@.subrange(i as int, j as int));
    }
    if j == i || (j - i > 1 && s[i] == '0') || !fits {
        None
    } else {
        Some((value as u32, j))
    }
}

fn same_chars(a: &Vec<char>, b: &Vec<char>) -> (r: bool)
    ensures
        r == (a@ == b@),
{
    if a.len() != b.len() {
        return false;
    }
    let mut i: usize = 0;
    while i < a.len()
        invariant
            i <= a.len(),
            a.len() == b.len(),
            forall|k: int| 0 <= k < i ==> a@[k] == b@[k],
        decreases a.len() - i,
    {
        if a[i] != b[i] {
            return false;
        }
        i = i + 1;
    }
    assert(a@ =~= b@);
    true
}

/// The members read so far, as the executable reader holds them.
pub open spec fn partial_of(
    data: Option<Vec<char>>,
    width: Option<u32>,
    height: Option<u32>,
) -> Partial {
    Partial {
        data: match data {
            Some(v) => Some(v@),
            None => None,
        },
        width,
        height,
    }
}

/// Reads a frame from its wire text.
///
/// Gives the frame that the text denotes, and `None` for any text that is
/// not a JSON object of exactly the members `data`, `width` and `height`.
pub fn decode_frame(text: &str) -> (r: Option<ScreenFrame>)
    ensures
        match r {
            Some(frame) => parse_frame(text@) == Some(frame@),
            None => parse_frame(text@) is None,
        },
{
    let s = crate::text::chars_of(text);
    let key_data = crate::text::chars_of("data");
    let key_width = crate::text::chars_of("width");
    let key_height = crate::text::chars_of("height");
    proof {
        reveal_strlit("data");
        reveal_strlit("width");
        reveal_strlit("height");
        assert(key_data@ =~= data_key());
        assert(key_width@ =~= width_key());
        assert(key_height@ =~= height_key());
        lemma_skip_more(s@, 0, 0);
        assert(s@.skip(0) =~= s@);
    }
    let open = skip_spaces(&s, 0);
    if open >= s.len() || s[open] != '{' {
        proof {
            if open < s.len() {
                lemma_skip_more(s@, open as int, 0);
            }
        }
        return None;
    }
    proof {
        lemma_skip_more(s@, open as int, 0);
        lemma_skip_more(s@, open as int, 1);
    }
    let mut i: usize = open + 1;
    let mut data: Option<Vec<char>> = None;
    let mut width: Option<u32> = None;
    let mut height: Option<u32> = None;
    loop
        invariant
            i <= s.len(),
            s@ == text@,
            key_data@ == data_key(),
            key_width@ == width_key(),
            key_height@ == height_key(),
            parse_frame(text@) == members(s@.skip(i as int), partial_of(data, width, height)),
        decreases s.len() - i,
    {
        let ghost seen = partial_of(data, width, height);
        let at_key = skip_spaces(&s, i);
        let (key, behind_key) = match read_string(&s, at_key) {
            None => {
                return None;
            },
            Some(found) => found,
        };
        let at_colon = skip_spaces(&s, behind_key);
        if at_colon >= s.len() || s[at_colon] != ':' {
            proof {
                if at_colon < s.len() {
                    lemma_skip_more(s@, at_colon as int, 0);
                }
            }
            return None;
        }
        proof {
            lemma_skip_more(s@, at_colon as int, 0);
            lemma_skip_more(s@, at_colon as int, 1);
        }
        let at_value = skip_spaces(&s, at_colon + 1);
        let behind_value: usize;
        if same_chars(&key, &key_data) && data.is_none() {
            match read_string(&s, at_value) {
                None => {
                    return None;
                },
                Some((v, j)) => {
                    data = Some(v);
                    behind_value = j;
                },
            }
        } else if same_chars(&key, &key_width) && width.is_none() {
            match read_dimension(&s, at_value) {
                None => {
                    return None;
                },
                Some((n, j)) => {
                    width = Some(n);
                    behind_value = j;
                },
            }
        } else if same_chars(&key, &key_height) && height.is_none() {
            match read_dimension(&s, at_value) {
                None => {
                    return None;
                },
                Some((n, j)) => {
                    height = Some(n);
                    behind_value = j;
                },
            }
        } else {
            return None;
        }
        assert(member(s@.skip(i as int), seen) == Some(
            (partial_of(data, width, height), s@.skip(behind_value as int)),
        ));
        proof {
            lemma_member_shrinks(s@.skip(i as int), seen);
            lemma_skip_more(s@, i as int, 0);
            lemma_skip_more(s@, behind_value as int, 0);
        }
        let at_end = skip_spaces(&s, behind_value);
        if at_end >= s.len() {
            return None;
        }
        proof {
            lemma_skip_more(s@, at_end as int, 0);
            lemma_skip_more(s@, at_end as int, 1);
        }
        if s[at_end] == ',' {
            i = at_end + 1;
        } else if s[at_end] == '}' {
            let last = skip_spaces(&s, at_end + 1);
            proof {
                lemma_skip_more(s@, last as int, 0);
            }
            if last < s.len() {
                return None;
            }
            return match (data, width, height) {
                (Some(d), Some(w), Some(h)) => {
                    let mut payload = String::new();
                    crate::text::push_chars(&mut payload, &d);
                    assert(payload@ =~= d@);
                    Some(ScreenFrame { data: payload, width: w, height: h })
                },
                _ => None,
            };
        } else {
            return None;
        }
    }
}

// ---------------------------------------------------------------------
// Reading back what was written
// ---------------------------------------------------------------------

/// Text that does not start with white space is its own trimmed form.
pub proof fn lemma_trim_start_stops(t: Seq<char>)
    requires
        t.len() == 0 || !is_space(t[0]),
    ensures
        trim_start(t) == t,
{
}

/// Whether a character cannot stand for itself inside a string literal.
pub open spec fn needs_escape(c: char) -> bool {
    c == '"' || c == '\\' || (c as u32) < 0x20
}

/// Whether a character is written as a backslash and one more character.
pub open spec fn has_short_escape(c: char) -> bool {
    let n = c as u32;
    c == '"' || c == '\\' || n == 0x08 || n == 0x09 || n == 0x0A || n == 0x0C || n == 0x0D
}

/// A character that needs no escape reads back as itself.
proof fn lemma_plain_char_reads(c: char, tail: Seq<char>)
    requires
        !needs_escape(c),
    ensures
        string_body(escape_char(c) + tail) == prepend(seq![c], string_body(tail)),
{
    let t = seq![c] + tail;
    assert(escape_char(c) == seq![c]);
    assert(t[0] == c);
    assert(t.skip(1) =~= tail);
}

/// A two-character escape reads back as the character it was written for.
proof fn lemma_short_escape_reads(c: char, tail: Seq<char>)
    requires
        has_short_escape(c),
    ensures
        string_body(escape_char(c) + tail) == prepend(seq![c], string_body(tail)),
{
    let e = escape_char(c);
    let t = e + tail;
    let n = c as u32;
    let u = t.skip(1);
    assert(t[0] == '\\');
    assert(u[0] == e[1]);
    assert(t.skip(2) =~= tail);
    vstd::utf8::char_u32_cast(c, n);
    assert(unescape(u) == Some((c, 1nat))) by {
        reveal(unescape);
    }
}

/// A `\u00XX` escape reads back as the character it was written for.
proof fn lemma_long_escape_reads(c: char, tail: Seq<char>)
    requires
        needs_escape(c),
        !has_short_escape(c),
    ensures
        string_body(escape_char(c) + tail) == prepend(seq![c], string_body(tail)),
{
    let n = c as u32;
    let e = seq!['\\', 'u', '0', '0', hex_char(n as int / 16), hex_char(n as int % 16)];
    assert(escape_char(c) == e);
    let t = e + tail;
    let u = t.skip(1);
    let h = u.skip(1);
    assert(t[0] == '\\');
    assert(u[0] == 'u');
    assert(h.len() >= 4);
    assert(h[0] == '0' && h[1] == '0' && h[2] == hex_char(n as int / 16) && h[3] == hex_char(
        n as int % 16,
    ));
    assert(hex_value('0') == Some(0int));
    assert(hex_value(hex_char(n as int / 16)) == Some(n as int / 16));
    assert(hex_value(hex_char(n as int % 16)) == Some(n as int % 16));
    assert(hex4(h) == Some(n as int));
    vstd::utf8::char_u32_cast(c, n);
    assert(unicode_escape(h) == Some((c, 4nat)));
    assert(unescape(u) == Some((c, 5nat))) by {
        reveal(unescape);
    }
    assert(t.skip(6) =~= tail);
}

/// An escaped text, read as the inside of a string, gives the text back
/// and stops behind the closing quotation mark.
pub proof fn lemma_string_body_escaped(s: Seq<char>, rest: Seq<char>)
    ensures
        string_body(escape_text(s) + (seq!['"'] + rest)) == Some((s, rest)),
    decreases s.len(),
{
    let t = escape_text(s) + (seq!['"'] + rest);
    if s.len() == 0 {
        assert(t =~= seq!['"'] + rest);
        assert(t.skip(1) =~= rest);
    } else {
        let c = s[0];
        let e = escape_char(c);
        let tail = escape_text(s.skip(1)) + (seq!['"'] + rest);
        lemma_string_body_escaped(s.skip(1), rest);
        assert(t =~= e + tail);
        assert(seq![c] + s.skip(1) =~= s);
        if !needs_escape(c) {
            lemma_plain_char_reads(c, tail);
        } else if has_short_escape(c) {
            lemma_short_escape_reads(c, tail);
        } else {
            lemma_long_escape_reads(c, tail);
        }
    }
}

/// A string literal that was written reads back as the string.
pub proof fn lemma_string_token_quoted(s: Seq<char>, rest: Seq<char>)
    ensures
        string_token(quoted(s) + rest) == Some((s, rest)),
{
    let t = quoted(s) + rest;
    lemma_string_body_escaped(s, rest);
    assert(t[0] == '"');
    assert(t.skip(1) =~= escape_text(s) + (seq!['"'] + rest));
}

/// Digits followed by something that is no digit form a run of their own
/// length.
pub proof fn lemma_digit_run_prefix(d: Seq<char>, rest: Seq<char>)
    requires
        all_digits(d),
        rest.len() == 0 || !is_digit(rest[0]),
    ensures
        digit_run(d + rest) == d.len(),
    decreases d.len(),
{
    let t = d + rest;
    if d.len() == 0 {
        assert(t =~= rest);
    } else {
        assert(t[0] == d[0]);
        assert(t.skip(1) =~= d.skip(1) + rest);
        assert forall|i: int| 0 <= i < d.skip(1).len() implies is_digit(#[trigger] d.skip(1)[i]) by {
            assert(d.skip(1)[i] == d[i + 1]);
        }
        lemma_digit_run_prefix(d.skip(1), rest);
    }
}

/// A numeral that was written reads back as the number, provided no digit
/// follows it.
pub proof fn lemma_number_decimal(n: nat, rest: Seq<char>)
    requires
        rest.len() == 0 || !is_digit(rest[0]),
    ensures
        number_token(decimal(n) + rest) == Some((n, rest)),
        !is_space((decimal(n) + rest)[0]),
{
    lemma_decimal_reads_back(n);
    lemma_digit_run_prefix(decimal(n), rest);
    let t = decimal(n) + rest;
    let k = decimal(n).len() as int;
    assert(t.take(k) =~= decimal(n));
    assert(t.skip(k) =~= rest);
    assert(t[0] == decimal(n)[0]);
    assert(is_digit(decimal(n)[0]));
}

/// A key that was written, and the colon behind it, read back.
proof fn lemma_key_and_colon(key: Seq<char>, x: Seq<char>)
    ensures
        string_token(trim_start(quoted(key) + (seq![':'] + x))) == Some((key, seq![':'] + x)),
        after(seq![':'] + x, ':') == Some(x),
{
    let t = quoted(key) + (seq![':'] + x);
    assert(t[0] == '"');
    lemma_trim_start_stops(t);
    lemma_string_token_quoted(key, seq![':'] + x);
    let r = seq![':'] + x;
    assert(r[0] == ':');
    lemma_trim_start_stops(r);
    assert(r.skip(1) =~= x);
}

/// The `height` member, read behind the other two, completes the frame.
proof fn lemma_height_part_reads(frame: FrameView)
    ensures
        members(
            height_part(frame),
            Partial { data: Some(frame.data), width: Some(frame.width), height: None },
        ) == Some(frame),
{
    let seen = Partial { data: Some(frame.data), width: Some(frame.width), height: None };
    let end = seq!['}'];
    let value = decimal(frame.height as nat) + end;
    assert(data_key().len() == 4 && width_key().len() == 5 && height_key().len() == 6);
    assert(end[0] == '}');
    lemma_key_and_colon(height_key(), value);
    lemma_number_decimal(frame.height as nat, end);
    lemma_trim_start_stops(value);
    assert(member(height_part(frame), seen) == Some(
        (Partial { height: Some(frame.height), ..seen }, end),
    ));
    lemma_trim_start_stops(end);
    assert(end.skip(1) =~= Seq::<char>::empty());
    assert(trim_start(Seq::<char>::empty()).len() == 0);
}

/// The `width` member and what follows it, read behind `data`.
proof fn lemma_width_part_reads(frame: FrameView)
    ensures
        members(width_part(frame), Partial { data: Some(frame.data), width: None, height: None })
            == Some(frame),
{
    let seen = Partial { data: Some(frame.data), width: None, height: None };
    let end = seq![','] + height_part(frame);
    let value = decimal(frame.width as nat) + end;
    assert(data_key().len() == 4 && width_key().len() == 5 && height_key().len() == 6);
    assert(end[0] == ',');
    lemma_key_and_colon(width_key(), value);
    lemma_number_decimal(frame.width as nat, end);
    lemma_trim_start_stops(value);
    assert(member(width_part(frame), seen) == Some(
        (Partial { width: Some(frame.width), ..seen }, end),
    ));
    lemma_trim_start_stops(end);
    assert(end.skip(1) =~= height_part(frame));
    lemma_height_part_reads(frame);
}

/// The three members, read from behind the opening brace.
proof fn lemma_data_part_reads(frame: FrameView)
    ensures
        members(data_part(frame), Partial { data: None, width: None, height: None }) == Some(
            frame,
        ),
{
    let seen = Partial { data: None, width: None, height: None };
    let end = seq![','] + width_part(frame);
    let value = quoted(frame.data) + end;
    assert(end[0] == ',');
    assert(value[0] == '"');
    lemma_key_and_colon(data_key(), value);
    lemma_string_token_quoted(frame.data, end);
    lemma_trim_start_stops(value);
    assert(member(data_part(frame), seen) == Some(
        (Partial { data: Some(frame.data), ..seen }, end),
    ));
    lemma_trim_start_stops(end);
    assert(end.skip(1) =~= width_part(frame));
    lemma_width_part_reads(frame);
}

/// Reading the wire text of a frame gives that frame: its payload, its
/// width and its height.
pub proof fn lemma_wire_round_trip(frame: FrameView)
    ensures
        parse_frame(wire_text(frame)) == Some(frame),
{
    let t = wire_text(frame);
    assert(t[0] == '{');
    lemma_trim_start_stops(t);
    assert(t.skip(1) =~= data_part(frame));
    lemma_data_part_reads(frame);
}

// ---------------------------------------------------------------------
// Payloads
// ---------------------------------------------------------------------

/// Text without a character that needs an escape is written as it is.
pub proof fn lemma_plain_text_is_not_escaped(s: Seq<char>)
    requires
        forall|i: int| 0 <= i < s.len() ==> !needs_escape(#[trigger] s[i]),
    ensures
        escape_text(s) == s,
    decreases s.len(),
{
    if s.len() > 0 {
        assert(!needs_escape(s[0]));
        assert forall|i: int| 0 <= i < s.skip(1).len() implies !needs_escape(
            #[trigger] s.skip(1)[i],
        ) by {
            assert(s.skip(1)[i] == s[i + 1]);
        }
        lemma_plain_text_is_not_escaped(s.skip(1));
        assert(seq![s[0]] + s.skip(1) =~= s);
    }
}

/// No character of the base64 alphabet needs an escape, nor does the
/// padding character.
proof fn lemma_base64_char_is_plain(v: int)
    requires
        0 <= v < 64,
    ensures
        !needs_escape(base64_char(v)),
        !needs_escape('='),
{
}

/// No character of a base64 text needs an escape.
proof fn lemma_base64_text_is_plain(bytes: Seq<u8>)
    ensures
        forall|i: int|
            0 <= i < base64_text(bytes).len() ==> !needs_escape(#[trigger] base64_text(bytes)[i]),
    decreases bytes.len(),
{
    let t = base64_text(bytes);
    if bytes.len() == 0 {
    } else {
        let a = bytes[0] as int;
        lemma_base64_char_is_plain(a / 4);
        if bytes.len() == 1 {
            lemma_base64_char_is_plain(a % 4 * 16);
        } else {
            let b = bytes[1] as int;
            lemma_base64_char_is_plain(a % 4 * 16 + b / 16);
            if bytes.len() == 2 {
                lemma_base64_char_is_plain(b % 16 * 4);
            } else {
                let c = bytes[2] as int;
                lemma_base64_char_is_plain(b % 16 * 4 + c / 64);
                lemma_base64_char_is_plain(c % 64);
                lemma_base64_text_is_plain(bytes.skip(3));
                let rest = base64_text(bytes.skip(3));
                assert forall|i: int| 0 <= i < t.len() implies !needs_escape(#[trigger] t[i]) by {
                    if i >= 4 {
                        assert(t[i] == rest[i - 4]);
                    }
                }
            }
        }
    }
}

/// A payload that is base64 text travels verbatim: it stands in the wire
/// text between quotation marks, character for character.
pub proof fn lemma_base64_payload_travels_verbatim(bytes: Seq<u8>)
    ensures
        quoted(base64_text(bytes)) == seq!['"'] + (base64_text(bytes) + seq!['"']),
{
    lemma_base64_text_is_plain(bytes);
    lemma_plain_text_is_not_escaped(base64_text(bytes));
}

} // verus!
