//! Internet shortcut files (`.url`): their text, in UTF-8 or UTF-16 with a
//! byte-order mark, and the `[InternetShortcut]` section's keys.
use vstd::prelude::*;
use crate::bookmarks::split_chars;
use crate::launch::strip_quotes_seq;
use crate::models::opt_view;
use crate::text::{ascii_lower, from_chars, to_ascii_lower, to_chars, trim_chars, trim_seq};

verus! {

/// `String::from_utf8_lossy` of some bytes: invalid sequences become U+FFFD.
pub uninterp spec fn utf8_lossy_of(b: Seq<u8>) -> Seq<char>;

/// `String::from_utf16_lossy` of some code units: unpaired surrogates become
/// U+FFFD.
pub uninterp spec fn utf16_lossy_of(u: Seq<u16>) -> Seq<char>;

/// Relies on `String::from_utf8_lossy`: the text of `b`, each invalid
/// sequence replaced.
#[verifier::external_body]
fn utf8_lossy(b: &[u8]) -> (r: String)
    ensures
        r@ == utf8_lossy_of(b@),
{
    String::from_utf8_lossy(b).into_owned()
}

/// Relies on `String::from_utf16_lossy`: the text of `u`, each unpaired
/// surrogate replaced.
#[verifier::external_body]
fn utf16_lossy(u: &[u16]) -> (r: String)
    ensures
        r@ == utf16_lossy_of(u@),
{
    String::from_utf16_lossy(u)
}

/// What an internet shortcut names.
#[derive(Debug, Clone)]
pub struct InternetShortcutInfo {
    pub url: String,
    pub icon_path: Option<String>,
    pub icon_index: i32,
    pub description: Option<String>,
}

/// The 16-bit units of byte pairs (a last odd byte is dropped).
pub open spec fn units_of(b: Seq<u8>, little_endian: bool) -> Seq<u16> {
    Seq::new(
        b.len() / 2,
        |i: int|
            if little_endian {
                (b[2 * i] as int + 256 * (b[2 * i + 1] as int)) as u16
            } else {
                (256 * (b[2 * i] as int) + b[2 * i + 1] as int) as u16
            },
    )
}

/// The text of UTF-16 bytes in the given byte order.
pub fn decode_utf16(data: &[u8], little_endian: bool) -> (r: String)
    ensures
        r@ == utf16_lossy_of(units_of(data@, little_endian)),
{
    let mut units: Vec<u16> = Vec::new();
    let mut i: usize = 0;
    let n = data.len() / 2;
    while i < n
        invariant
            n == data@.len() / 2,
            data@.len() <= usize::MAX,
            i <= n,
            units@ =~= units_of(data@, little_endian).take(i as int),
        decreases n - i,
    {
        let a = data[2 * i] as u16;
        let b = data[2 * i + 1] as u16;
        let v: u16 = if little_endian {
            a + 256 * b
        } else {
            256 * a + b
        };
        units.push(v);
        i = i + 1;
    }
    assert(units@ =~= units_of(data@, little_endian));
    utf16_lossy(units.as_slice())
}

pub open spec fn bom() -> char {
    '\u{feff}'
}

/// The text of a shortcut file: UTF-16 after a byte-order mark, else UTF-8
/// without a leading byte-order mark.
pub open spec fn shortcut_text(b: Seq<u8>) -> Seq<char> {
    if b.len() >= 2 && b[0] == 0xffu8 && b[1] == 0xfeu8 {
        utf16_lossy_of(units_of(b.skip(2), true))
    } else if b.len() >= 2 && b[0] == 0xfeu8 && b[1] == 0xffu8 {
        utf16_lossy_of(units_of(b.skip(2), false))
    } else {
        let t = utf8_lossy_of(b);
        if t.len() > 0 && t[0] == bom() {
            t.drop_first()
        } else {
            t
        }
    }
}

/// The text of a shortcut file's bytes.
pub fn decode_shortcut_contents(bytes: &[u8]) -> (r: String)
    ensures
        r@ == shortcut_text(bytes@),
{
    if bytes.len() >= 2 && bytes[0] == 0xff && bytes[1] == 0xfe {
        let rest = slice_bytes(bytes, 2);
        decode_utf16(rest.as_slice(), true)
    } else if bytes.len() >= 2 && bytes[0] == 0xfe && bytes[1] == 0xff {
        let rest = slice_bytes(bytes, 2);
        decode_utf16(rest.as_slice(), false)
    } else {
        let text = utf8_lossy(bytes);
        let t = to_chars(text.as_str());
        if t.len() > 0 && t[0] == '\u{feff}' {
            let rest = crate::text::slice_to_vec_range(t.as_slice(), 1, t.len());
            assert(rest@ =~= t@.drop_first());
            from_chars(rest.as_slice())
        } else {
            text
        }
    }
}

fn slice_bytes(b: &[u8], from: usize) -> (r: Vec<u8>)
    requires
        from <= b@.len(),
    ensures
        r@ == b@.skip(from as int),
{
    let mut r: Vec<u8> = Vec::new();
    let mut k = from;
    while k < b.len()
        invariant
            from <= k <= b@.len(),
            r@ =~= b@.subrange(from as int, k as int),
        decreases b@.len() - k,
    {
        r.push(b[k]);
        k = k + 1;
    }
    r
}

pub open spec fn is_digit(c: char) -> bool {
    '0' <= c && c <= '9'
}

/// The number the decimal digits `s` write.
pub open spec fn digits_value(s: Seq<char>) -> int
    decreases s.len(),
{
    if s.len() == 0 {
        0
    } else {
        digits_value(s.drop_last()) * 10 + ((s.last() as u32) - 48)
    }
}

/// What `str::parse::<i32>` gives: an optional sign, then at least one
/// decimal digit, the value in range.
pub open spec fn parse_i32_spec(s: Seq<char>) -> Option<i32> {
    let neg = s.len() > 0 && s[0] == '-';
    let body = unsigned_part(s);
    if body.len() == 0 || has_non_digit(body) {
        None
    } else {
        let v = if neg {
            -digits_value(body)
        } else {
            digits_value(body)
        };
        if i32::MIN <= v && v <= i32::MAX {
            Some(v as i32)
        } else {
            None
        }
    }
}

/// `s` without its leading sign, if any.
pub open spec fn unsigned_part(s: Seq<char>) -> Seq<char> {
    if s.len() > 0 && (s[0] == '-' || s[0] == '+') {
        s.drop_first()
    } else {
        s
    }
}

pub open spec fn has_non_digit(b: Seq<char>) -> bool {
    exists|i: int| 0 <= i < b.len() && !is_digit(#[trigger] b[i])
}

/// One past the largest magnitude an `i32` can have.
pub open spec fn cap() -> int {
    2147483649
}

/// A signed decimal number, as `str::parse::<i32>` reads it.
pub fn parse_i32(s: &[char]) -> (r: Option<i32>)
    ensures
        r == parse_i32_spec(s@),
{
    let neg = s.len() > 0 && s[0] == '-';
    let start: usize = if s.len() > 0 && (s[0] == '-' || s[0] == '+') {
        1
    } else {
        0
    };
    let ghost body = s@.skip(start as int);
    assert(body =~= unsigned_part(s@));
    if start == s.len() {
        return None;
    }
    let mut val: u64 = 0;
    let mut k: usize = start;
    while k < s.len()
        invariant
            start <= k <= s@.len(),
            body == s@.skip(start as int),
            neg == (s@.len() > 0 && s@[0] == '-'),
            body == unsigned_part(s@),
            body.len() > 0,
            forall|i: int| 0 <= i < k - start ==> is_digit(#[trigger] body[i]),
            digits_value(body.take(k - start)) >= 0,
            val as int == if digits_value(body.take(k - start)) >= cap() {
                cap()
            } else {
                digits_value(body.take(k - start))
            },
        decreases s@.len() - k,
    {
        let c = s[k];
        if !('0' <= c && c <= '9') {
            assert(body[k - start] == s@[k as int]);
            assert(!is_digit(body[k - start]));
            assert(has_non_digit(body));
            return None;
        }
        let d = ((c as u32) - 48) as u64;
        proof {
            let t = body.take(k + 1 - start);
            assert(t.drop_last() =~= body.take(k - start));
            assert(t.last() == c);
        }
        let next = val * 10 + d;
        val = if next >= 2147483649 {
            2147483649
        } else {
            next
        };
        k = k + 1;
    }
    assert(body.take(s@.len() - start) =~= body);
    if neg {
        if val <= 2147483648 {
            Some((0 - (val as i64)) as i32)
        } else {
            None
        }
    } else {
        if val <= 2147483647 {
            Some(val as i32)
        } else {
            None
        }
    }
}

/// The shortcut's keys so far, while its lines are read.
pub struct ShortcutKeys {
    pub in_section: bool,
    pub url: Option<Seq<char>>,
    pub icon_path: Option<Seq<char>>,
    pub icon_index: i32,
    pub description: Option<Seq<char>>,
}

/// `s` cut at its first `c`: before and after.
pub open spec fn split_once_seq(s: Seq<char>, c: char) -> Option<(Seq<char>, Seq<char>)>
    decreases s.len(),
{
    if s.len() == 0 {
        None
    } else if s[0] == c {
        Some((Seq::empty(), s.drop_first()))
    } else {
        match split_once_seq(s.drop_first(), c) {
            Some(kv) => Some((seq![s[0]] + kv.0, kv.1)),
            None => None,
        }
    }
}

pub open spec fn section_name() -> Seq<char> {
    seq!['[', 'i', 'n', 't', 'e', 'r', 'n', 'e', 't', 's', 'h', 'o', 'r', 't', 'c', 'u', 't', ']']
}

/// The keys after one more line: comments and blank lines are passed over,
/// a `[...]` line starts a section (the shortcut's own one, in any case, or
/// another), and inside the shortcut's section `key=value` sets a known key
/// to its trimmed, unquoted, non-empty value.
pub open spec fn read_line(st: ShortcutKeys, raw: Seq<char>) -> ShortcutKeys {
    let line = trim_seq(raw);
    if line.len() == 0 || line[0] == ';' {
        st
    } else if line[0] == '[' && line.last() == ']' {
        ShortcutKeys { in_section: ascii_lower(line) == section_name(), ..st }
    } else if !st.in_section {
        st
    } else {
        match split_once_seq(line, '=') {
            None => st,
            Some(kv) => {
                let key = ascii_lower(trim_seq(kv.0));
                let val = strip_quotes_seq(trim_seq(kv.1));
                if val.len() == 0 {
                    st
                } else if key == seq!['u', 'r', 'l'] {
                    ShortcutKeys { url: Some(val), ..st }
                } else if key == seq!['i', 'c', 'o', 'n', 'f', 'i', 'l', 'e'] {
                    ShortcutKeys { icon_path: Some(val), ..st }
                } else if key == seq!['i', 'c', 'o', 'n', 'i', 'n', 'd', 'e', 'x'] {
                    match parse_i32_spec(val) {
                        Some(n) => ShortcutKeys { icon_index: n, ..st },
                        None => st,
                    }
                } else if key == seq!['d', 'e', 's', 'c', 'r', 'i', 'p', 't', 'i', 'o', 'n'] || key
                    == seq!['c', 'o', 'm', 'm', 'e', 'n', 't'] {
                    ShortcutKeys { description: Some(val), ..st }
                } else {
                    st
                }
            },
        }
    }
}

pub open spec fn no_keys() -> ShortcutKeys {
    ShortcutKeys { in_section: false, url: None, icon_path: None, icon_index: 0, description: None }
}

/// The keys after reading `lines` in order.
pub open spec fn read_lines(lines: Seq<Seq<char>>) -> ShortcutKeys
    decreases lines.len(),
{
    if lines.len() == 0 {
        no_keys()
    } else {
        read_line(read_lines(lines.drop_last()), lines.last())
    }
}

/// The keys of a shortcut file's text.
pub open spec fn keys_of(text: Seq<char>) -> ShortcutKeys {
    read_lines(crate::bookmarks::split_seq(text, '\n'))
}

/// Whether `info` is what a file with bytes `b` names: it is there exactly
/// when the file is not empty and has a URL.
pub open spec fn shortcut_info_of(b: Seq<u8>, info: Option<InternetShortcutInfo>) -> bool {
    let k = keys_of(shortcut_text(b));
    if b.len() == 0 || k.url is None {
        info is None
    } else {
        info is Some && info.unwrap().url@ == k.url.unwrap() && opt_view(info.unwrap().icon_path)
            == k.icon_path && info.unwrap().icon_index == k.icon_index && opt_view(
            info.unwrap().description,
        ) == k.description
    }
}

fn split_once_chars(s: &[char], c: char) -> (r: Option<(Vec<char>, Vec<char>)>)
    ensures
        match r {
            Some(kv) => split_once_seq(s@, c) == Some((kv.0@, kv.1@)),
            None => split_once_seq(s@, c) is None,
        },
{
    let mut i: usize = 0;
    while i < s.len() && s[i] != c
        invariant
            i <= s@.len(),
            forall|m: int| 0 <= m < i ==> s@[m] != c,
        decreases s@.len() - i,
    {
        i = i + 1;
    }
    proof {
        lemma_split_once_at(s@, c, i as int);
    }
    if i == s.len() {
        None
    } else {
        let k = crate::text::slice_to_vec_range(s, 0, i);
        let v = crate::text::slice_to_vec_range(s, i + 1, s.len());
        Some((k, v))
    }
}

proof fn lemma_split_once_at(s: Seq<char>, c: char, i: int)
    requires
        0 <= i <= s.len(),
        forall|m: int| 0 <= m < i ==> s[m] != c,
        i < s.len() ==> s[i] == c,
    ensures
        i == s.len() ==> split_once_seq(s, c) is None,
        i < s.len() ==> split_once_seq(s, c) == Some((s.subrange(0, i), s.subrange(i + 1, s.len() as int))),
    decreases i,
{
    if i > 0 {
        lemma_split_once_at(s.drop_first(), c, i - 1);
        if i < s.len() {
            assert(seq![s[0]] + s.drop_first().subrange(0, i - 1) =~= s.subrange(0, i));
            assert(s.drop_first().subrange(i, s.len() - 1) =~= s.subrange(i + 1, s.len() as int));
        }
    } else if i < s.len() {
        assert(s.subrange(0, 0) =~= Seq::<char>::empty());
        assert(s.subrange(1, s.len() as int) =~= s.drop_first());
    }
}

fn strip_quotes_chars(s: &Vec<char>) -> (r: Vec<char>)
    ensures
        r@ == strip_quotes_seq(s@),
    decreases s@.len(),
{
    if s.len() > 0 && (s[0] == '"' || s[0] == '\'') {
        let rest = crate::text::slice_to_vec_range(s.as_slice(), 1, s.len());
        assert(rest@ =~= s@.drop_first());
        strip_quotes_chars(&rest)
    } else if s.len() > 0 && (s[s.len() - 1] == '"' || s[s.len() - 1] == '\'') {
        let rest = crate::text::slice_to_vec_range(s.as_slice(), 0, s.len() - 1);
        assert(rest@ =~= s@.drop_last());
        strip_quotes_chars(&rest)
    } else {
        crate::text::slice_to_vec_range(s.as_slice(), 0, s.len())
    }
}


/// Reads the shortcut named by a `.url` file's bytes; `None` when the file
/// is empty or names no URL.
pub fn parse_internet_shortcut(bytes: &[u8]) -> (r: Option<InternetShortcutInfo>)
    ensures
        shortcut_info_of(bytes@, r),
{
    if bytes.len() == 0 {
        return None;
    }
    let content = decode_shortcut_contents(bytes);
    let text = to_chars(content.as_str());
    let lines = split_chars(text.as_slice(), '\n');
    let ghost ls = crate::bookmarks::split_seq(text@, '\n');
    let section = ['[', 'i', 'n', 't', 'e', 'r', 'n', 'e', 't', 's', 'h', 'o', 'r', 't', 'c', 'u', 't', ']'];
    let url_word = ['u', 'r', 'l'];
    let iconfile = ['i', 'c', 'o', 'n', 'f', 'i', 'l', 'e'];
    let iconindex = ['i', 'c', 'o', 'n', 'i', 'n', 'd', 'e', 'x'];
    let descr = ['d', 'e', 's', 'c', 'r', 'i', 'p', 't', 'i', 'o', 'n'];
    let comment = ['c', 'o', 'm', 'm', 'e', 'n', 't'];
    assert(section@ == section_name());
    assert(url_word@ == seq!['u', 'r', 'l']);
    assert(iconfile@ == seq!['i', 'c', 'o', 'n', 'f', 'i', 'l', 'e']);
    assert(iconindex@ == seq!['i', 'c', 'o', 'n', 'i', 'n', 'd', 'e', 'x']);
    assert(descr@ == seq!['d', 'e', 's', 'c', 'r', 'i', 'p', 't', 'i', 'o', 'n']);
    assert(comment@ == seq!['c', 'o', 'm', 'm', 'e', 'n', 't']);
    let mut in_section = false;
    let mut url: Option<Vec<char>> = None;
    let mut icon_path: Option<Vec<char>> = None;
    let mut icon_index: i32 = 0;
    let mut description: Option<Vec<char>> = None;
    let mut k: usize = 0;
    while k < lines.len()
        invariant
            k <= lines@.len(),
            lines@.len() == ls.len(),
            forall|i: int| 0 <= i < lines@.len() ==> (#[trigger] lines@[i])@ == ls[i],
            section@ == section_name(),
            url_word@ == seq!['u', 'r', 'l'],
            iconfile@ == seq!['i', 'c', 'o', 'n', 'f', 'i', 'l', 'e'],
            iconindex@ == seq!['i', 'c', 'o', 'n', 'i', 'n', 'd', 'e', 'x'],
            descr@ == seq!['d', 'e', 's', 'c', 'r', 'i', 'p', 't', 'i', 'o', 'n'],
            comment@ == seq!['c', 'o', 'm', 'm', 'e', 'n', 't'],
            ({
                let st = read_lines(ls.take(k as int));
                &&& st.in_section == in_section
                &&& st.url == match url {
                    Some(v) => Some(v@),
                    None => None,
                }
                &&& st.icon_path == match icon_path {
                    Some(v) => Some(v@),
                    None => None,
                }
                &&& st.icon_index == icon_index
                &&& st.description == match description {
                    Some(v) => Some(v@),
                    None => None,
                }
            }),
        decreases lines@.len() - k,
    {
        proof {
            assert(ls.take(k + 1).drop_last() =~= ls.take(k as int));
            assert(ls.take(k + 1).last() == ls[k as int]);
        }
        let line = trim_chars(lines[k].as_slice());
        if line.len() == 0 || line[0] == ';' {
        } else if line[0] == '[' && line[line.len() - 1] == ']' {
            let lower = to_ascii_lower(line.as_slice());
            in_section = crate::keywords::chars_eq(lower.as_slice(), &section);
        } else if in_section {
            match split_once_chars(line.as_slice(), '=') {
                None => {},
                Some(kv) => {
                    let key = to_ascii_lower(trim_chars(kv.0.as_slice()).as_slice());
                    let val = strip_quotes_chars(&trim_chars(kv.1.as_slice()));
                    if val.len() == 0 {
                    } else if crate::keywords::chars_eq(key.as_slice(), &url_word) {
                        url = Some(val);
                    } else if crate::keywords::chars_eq(key.as_slice(), &iconfile) {
                        icon_path = Some(val);
                    } else if crate::keywords::chars_eq(key.as_slice(), &iconindex) {
                        match parse_i32(val.as_slice()) {
                            Some(n) => {
                                icon_index = n;
                            },
                            None => {},
                        }
                    } else if crate::keywords::chars_eq(key.as_slice(), &descr) || crate::keywords::chars_eq(key.as_slice(), &comment) {
                        description = Some(val);
                    }
                },
            }
        }
        k = k + 1;
    }
    assert(ls.take(lines@.len() as int) =~= ls);
    match url {
        Some(u) => Some(
            InternetShortcutInfo {
                url: from_chars(u.as_slice()),
                icon_path: match icon_path {
                    Some(p) => Some(from_chars(p.as_slice())),
                    None => None,
                },
                icon_index,
                description: match description {
                    Some(d) => Some(from_chars(d.as_slice())),
                    None => None,
                },
            },
        ),
        None => None,
    }
}

} // verus!
