use vstd::prelude::*;

use crate::event::{key, make_key, InternalEvent, KeyCode, ParseOptions, ALT, CONTROL};

verus! {

/// The escape byte that opens every control sequence.
pub const ESC: u8 = 0x1b;

/// The largest value a numeric field of a sequence may hold.
pub const FIELD_MAX: u32 = 65535;

/// What the decoder makes of the bytes at the front of a buffer.
#[derive(Clone, Copy, Debug, PartialEq, Eq, Structural)]
pub enum Decoded {
    /// The bytes are a proper prefix of a sequence: more input is needed.
    Incomplete,
    /// An event, and the number of bytes it took.
    Complete(InternalEvent, usize),
    /// The first so many bytes form no known sequence and are to be dropped.
    Malformed(usize),
}

pub open spec fn is_digit(b: u8) -> bool {
    0x30 <= b <= 0x39
}

pub open spec fn is_param(b: u8) -> bool {
    0x30 <= b <= 0x3f
}

pub open spec fn is_final(b: u8) -> bool {
    0x40 <= b <= 0x7e
}

pub open spec fn is_continuation(b: u8) -> bool {
    0x80 <= b <= 0xbf
}

pub open spec fn all_digits(s: Seq<u8>) -> bool {
    forall|i: int| 0 <= i < s.len() ==> is_digit(#[trigger] s[i])
}

/// The value of a string of decimal digits.
pub open spec fn digits_value(s: Seq<u8>) -> nat
    decreases s.len(),
{
    if s.len() == 0 {
        0
    } else {
        digits_value(s.drop_last()) * 10 + (s.last() - 0x30) as nat
    }
}

/// A numeric field: one or more digits, of a value that fits the field.
pub open spec fn field(s: Seq<u8>) -> Option<nat> {
    if s.len() > 0 && all_digits(s) && digits_value(s) <= FIELD_MAX {
        Some(digits_value(s))
    } else {
        None
    }
}

/// Where `s` splits as `digits ; digits`.
pub open spec fn is_pair_split(s: Seq<u8>, j: int) -> bool {
    0 < j < s.len() - 1 && s[j] == 0x3b && all_digits(s.subrange(0, j)) && all_digits(
        s.subrange(j + 1, s.len() as int),
    )
}

/// The two numeric fields of `first ; second`.
pub open spec fn field_pair(s: Seq<u8>) -> Option<(nat, nat)> {
    if exists|j: int| is_pair_split(s, j) {
        let j = choose|j: int| is_pair_split(s, j);
        match (field(s.subrange(0, j)), field(s.subrange(j + 1, s.len() as int))) {
            (Some(a), Some(b)) => Some((a, b)),
            _ => None,
        }
    } else {
        None
    }
}

/// A single byte below 0x80 other than ESC.
pub open spec fn ascii_event(b: u8) -> InternalEvent {
    if b == 0x0d || b == 0x0a {
        key(KeyCode::Enter, 0)
    } else if b == 0x09 {
        key(KeyCode::Tab, 0)
    } else if b == 0x7f || b == 0x08 {
        key(KeyCode::Backspace, 0)
    } else if b == 0 {
        key(KeyCode::Char(0x20), CONTROL)
    } else if 0x01 <= b <= 0x1a {
        key(KeyCode::Char((b - 0x01 + 0x61) as u32), CONTROL)
    } else if 0x1c <= b <= 0x1f {
        key(KeyCode::Char((b - 0x1c + 0x34) as u32), CONTROL)
    } else {
        key(KeyCode::Char(b as u32), 0)
    }
}

/// How many bytes a UTF-8 sequence with this first byte has; 0 for no valid first byte.
pub open spec fn utf8_width(b: u8) -> nat {
    if 0xc2 <= b <= 0xdf {
        2
    } else if 0xe0 <= b <= 0xef {
        3
    } else if 0xf0 <= b <= 0xf4 {
        4
    } else {
        0
    }
}

/// Whether `b1` may follow the first byte `b0`: the narrower ranges after
/// E0, ED, F0 and F4 shut out overlong forms, surrogates and code points
/// beyond U+10FFFF.
pub open spec fn second_byte_ok(b0: u8, b1: u8) -> bool {
    if b0 == 0xe0 {
        0xa0 <= b1 <= 0xbf
    } else if b0 == 0xed {
        0x80 <= b1 <= 0x9f
    } else if b0 == 0xf0 {
        0x90 <= b1 <= 0xbf
    } else if b0 == 0xf4 {
        0x80 <= b1 <= 0x8f
    } else {
        is_continuation(b1)
    }
}

/// The code point of a complete multi-byte sequence.
pub open spec fn utf8_value(s: Seq<u8>, n: nat) -> nat {
    if n == 2 {
        ((s[0] - 0xc0) * 64 + (s[1] - 0x80)) as nat
    } else if n == 3 {
        ((s[0] - 0xe0) * 4096 + (s[1] - 0x80) * 64 + (s[2] - 0x80)) as nat
    } else {
        ((s[0] - 0xf0) * 262144 + (s[1] - 0x80) * 4096 + (s[2] - 0x80) * 64 + (s[3] - 0x80)) as nat
    }
}

/// A multi-byte character at the front of `s`, whose first byte is at least 0x80.
pub open spec fn decode_utf8(s: Seq<u8>) -> Decoded {
    let n = utf8_width(s[0]);
    if n == 0 {
        Decoded::Malformed(1)
    } else if s.len() >= 2 && !second_byte_ok(s[0], s[1]) {
        Decoded::Malformed(1)
    } else if exists|i: int| 1 <= i < n && i < s.len() && !is_continuation(#[trigger] s[i]) {
        Decoded::Malformed(1)
    } else if s.len() < n {
        Decoded::Incomplete
    } else {
        Decoded::Complete(key(KeyCode::Char(utf8_value(s, n) as u32), 0), n as usize)
    }
}

/// The key of `ESC O b`.
pub open spec fn ss3_key(b: u8) -> Option<KeyCode> {
    if b == 0x50 {
        Some(KeyCode::F(1))
    } else if b == 0x51 {
        Some(KeyCode::F(2))
    } else if b == 0x52 {
        Some(KeyCode::F(3))
    } else if b == 0x53 {
        Some(KeyCode::F(4))
    } else {
        plain_csi_key(b)
    }
}

/// The key of `ESC [ b`, with no parameters.
pub open spec fn plain_csi_key(b: u8) -> Option<KeyCode> {
    if b == 0x41 {
        Some(KeyCode::Up)
    } else if b == 0x42 {
        Some(KeyCode::Down)
    } else if b == 0x43 {
        Some(KeyCode::Right)
    } else if b == 0x44 {
        Some(KeyCode::Left)
    } else if b == 0x48 {
        Some(KeyCode::Home)
    } else if b == 0x46 {
        Some(KeyCode::End)
    } else {
        None
    }
}

/// The key of `ESC [ n ~`.
pub open spec fn tilde_key(n: nat) -> Option<KeyCode> {
    if n == 1 || n == 7 {
        Some(KeyCode::Home)
    } else if n == 2 {
        Some(KeyCode::Insert)
    } else if n == 3 {
        Some(KeyCode::Delete)
    } else if n == 4 || n == 8 {
        Some(KeyCode::End)
    } else if n == 5 {
        Some(KeyCode::PageUp)
    } else if n == 6 {
        Some(KeyCode::PageDown)
    } else if 11 <= n <= 15 {
        Some(KeyCode::F((n - 10) as u8))
    } else if 17 <= n <= 21 {
        Some(KeyCode::F((n - 11) as u8))
    } else if n == 23 || n == 24 {
        Some(KeyCode::F((n - 12) as u8))
    } else {
        None
    }
}

/// The reply `ESC [ row ; col R`, or F3 with modifiers where the reply is
/// not expected and the row is one with a modifier value as column.
pub open spec fn reply_event(row: nat, col: nat, reading_cursor_position: bool) -> InternalEvent {
    if !reading_cursor_position && row == 1 && 2 <= col <= 8 {
        key(KeyCode::F(3), (col - 1) as u8)
    } else {
        InternalEvent::CursorPosition((col - 1) as u16, (row - 1) as u16)
    }
}

/// The event of a control sequence with parameter bytes `p` and final byte `f`.
pub open spec fn csi_event(p: Seq<u8>, f: u8, reading_cursor_position: bool) -> Option<
    InternalEvent,
> {
    if p.len() == 0 {
        match plain_csi_key(f) {
            Some(k) => Some(key(k, 0)),
            None => None,
        }
    } else if f == 0x52 {
        match field_pair(p) {
            Some((row, col)) => if row >= 1 && col >= 1 {
                Some(reply_event(row, col, reading_cursor_position))
            } else {
                None
            },
            None => None,
        }
    } else if f == 0x7e {
        match field(p) {
            Some(n) => match tilde_key(n) {
                Some(k) => Some(key(k, 0)),
                None => None,
            },
            None => None,
        }
    } else {
        None
    }
}

/// Where the parameter bytes of `ESC [ ...` in `s` end.
pub open spec fn is_params_end(s: Seq<u8>, k: int) -> bool {
    2 <= k < s.len() && !is_param(s[k]) && forall|j: int| 2 <= j < k ==> is_param(#[trigger] s[j])
}

/// A buffer that starts with `ESC [`.
pub open spec fn decode_csi(s: Seq<u8>, reading_cursor_position: bool) -> Decoded {
    if exists|k: int| is_params_end(s, k) {
        let k = choose|k: int| is_params_end(s, k);
        if !is_final(s[k]) {
            Decoded::Malformed((k + 1) as usize)
        } else {
            match csi_event(s.subrange(2, k), s[k], reading_cursor_position) {
                Some(e) => Decoded::Complete(e, (k + 1) as usize),
                None => Decoded::Malformed((k + 1) as usize),
            }
        }
    } else {
        Decoded::Incomplete
    }
}

/// What the bytes at the front of `s` decode to. `more` says whether further
/// input may follow at once; a lone ESC is the Esc key only when none does.
pub open spec fn decode(s: Seq<u8>, more: bool, opts: ParseOptions) -> Decoded {
    if s.len() == 0 {
        Decoded::Incomplete
    } else if s[0] == ESC {
        if s.len() == 1 {
            if more {
                Decoded::Incomplete
            } else {
                Decoded::Complete(key(KeyCode::Esc, 0), 1)
            }
        } else if s[1] == 0x5b {
            decode_csi(s, opts.reading_cursor_position)
        } else if s[1] == 0x4f {
            if s.len() == 2 {
                Decoded::Incomplete
            } else {
                match ss3_key(s[2]) {
                    Some(k) => Decoded::Complete(key(k, 0), 3),
                    None => Decoded::Malformed(3),
                }
            }
        } else if 0x20 <= s[1] <= 0x7e {
            Decoded::Complete(key(KeyCode::Char(s[1] as u32), ALT), 2)
        } else {
            Decoded::Complete(key(KeyCode::Esc, 0), 1)
        }
    } else if s[0] < 0x80 {
        Decoded::Complete(ascii_event(s[0]), 1)
    } else {
        decode_utf8(s)
    }
}

proof fn lemma_digits_step(s: Seq<u8>, i: int)
    requires
        0 <= i < s.len(),
    ensures
        digits_value(s.subrange(0, i + 1)) == digits_value(s.subrange(0, i)) * 10 + (s[i]
            - 0x30) as nat,
{
    assert(s.subrange(0, i + 1).drop_last() =~= s.subrange(0, i));
}

proof fn lemma_digits_prefix(s: Seq<u8>, i: int)
    requires
        0 <= i <= s.len(),
        all_digits(s),
    ensures
        digits_value(s.subrange(0, i)) <= digits_value(s),
    decreases s.len(),
{
    if i < s.len() {
        let t = s.drop_last();
        assert(all_digits(t)) by {
            assert forall|k: int| 0 <= k < t.len() implies is_digit(#[trigger] t[k]) by {
                assert(t[k] == s[k]);
            }
        }
        lemma_digits_prefix(t, i);
        assert(t.subrange(0, i) =~= s.subrange(0, i));
    } else {
        assert(s.subrange(0, i) =~= s);
    }
}

fn parse_field(buf: &[u8], lo: usize, hi: usize) -> (r: Option<u32>)
    requires
        lo <= hi <= buf@.len(),
    ensures
        match r {
            Some(v) => field(buf@.subrange(lo as int, hi as int)) == Some(v as nat),
            None => field(buf@.subrange(lo as int, hi as int)) is None,
        },
{
    let ghost sub = buf@.subrange(lo as int, hi as int);
    if lo == hi {
        return None;
    }
    let mut i: usize = lo;
    let mut v: u32 = 0;
    assert(sub.subrange(0, 0).len() == 0);
    while i < hi
        invariant
            lo <= i <= hi <= buf@.len(),
            sub == buf@.subrange(lo as int, hi as int),
            v as nat == digits_value(sub.subrange(0, i - lo)),
            v <= FIELD_MAX,
            forall|k: int| 0 <= k < i - lo ==> is_digit(#[trigger] sub[k]),
        decreases hi - i,
    {
        let b = buf[i];
        assert(sub[i - lo] == b);
        if b < 0x30 || b > 0x39 {
            assert(!is_digit(sub[i - lo]));
            return None;
        }
        proof {
            lemma_digits_step(sub, i - lo);
        }
        let nv: u32 = v * 10 + (b - 0x30) as u32;
        if nv > FIELD_MAX {
            proof {
                if all_digits(sub) {
                    lemma_digits_prefix(sub, i - lo + 1);
                }
            }
            return None;
        }
        v = nv;
        i = i + 1;
    }
    assert(sub.subrange(0, hi - lo) =~= sub);
    Some(v)
}

fn parse_pair(buf: &[u8], lo: usize, hi: usize) -> (r: Option<(u32, u32)>)
    requires
        lo <= hi <= buf@.len(),
    ensures
        match r {
            Some((a, b)) => field_pair(buf@.subrange(lo as int, hi as int)) == Some(
                (a as nat, b as nat),
            ),
            None => field_pair(buf@.subrange(lo as int, hi as int)) is None,
        },
{
    let ghost p = buf@.subrange(lo as int, hi as int);
    let mut j: usize = lo;
    while j < hi && 0x30 <= buf[j] && buf[j] <= 0x39
        invariant
            lo <= j <= hi <= buf@.len(),
            p == buf@.subrange(lo as int, hi as int),
            forall|k: int| 0 <= k < j - lo ==> is_digit(#[trigger] p[k]),
        decreases hi - j,
    {
        assert(p[j - lo] == buf@[j as int]);
        j = j + 1;
    }
    let ghost jr = j - lo;
    if j == hi || buf[j] != 0x3b {
        proof {
            assert forall|x: int| !is_pair_split(p, x) by {
                if is_pair_split(p, x) {
                    if x < jr {
                        assert(is_digit(p[x]));
                    } else if x > jr {
                        assert(p.subrange(0, x)[jr] == p[jr]);
                        assert(p[jr] == buf@[j as int]);
                    } else {
                        assert(p[jr] == buf@[j as int]);
                    }
                }
            }
        }
        return None;
    }
    assert(p[jr] == 0x3b);
    proof {
        assert forall|x: int| is_pair_split(p, x) implies x == jr by {
            if x < jr {
                assert(is_digit(p[x]));
            } else if x > jr {
                assert(p.subrange(0, x)[jr] == p[jr]);
            }
        }
        assert(p.subrange(0, jr) =~= buf@.subrange(lo as int, j as int));
        assert(p.subrange(jr + 1, p.len() as int) =~= buf@.subrange(j + 1, hi as int));
    }
    let a = parse_field(buf, lo, j);
    let b = parse_field(buf, j + 1, hi);
    match (a, b) {
        (Some(x), Some(y)) => {
            assert(is_pair_split(p, jr));
            Some((x, y))
        },
        _ => None,
    }
}

fn ascii_key(b: u8) -> (r: InternalEvent)
    requires
        b < 0x80,
    ensures
        r == ascii_event(b),
{
    if b == 0x0d || b == 0x0a {
        make_key(KeyCode::Enter, 0)
    } else if b == 0x09 {
        make_key(KeyCode::Tab, 0)
    } else if b == 0x7f || b == 0x08 {
        make_key(KeyCode::Backspace, 0)
    } else if b == 0 {
        make_key(KeyCode::Char(0x20), CONTROL)
    } else if 0x01 <= b && b <= 0x1a {
        make_key(KeyCode::Char((b - 0x01 + 0x61) as u32), CONTROL)
    } else if 0x1c <= b && b <= 0x1f {
        make_key(KeyCode::Char((b - 0x1c + 0x34) as u32), CONTROL)
    } else {
        make_key(KeyCode::Char(b as u32), 0)
    }
}

fn plain_csi_key_of(b: u8) -> (r: Option<KeyCode>)
    ensures
        r == plain_csi_key(b),
{
    if b == 0x41 {
        Some(KeyCode::Up)
    } else if b == 0x42 {
        Some(KeyCode::Down)
    } else if b == 0x43 {
        Some(KeyCode::Right)
    } else if b == 0x44 {
        Some(KeyCode::Left)
    } else if b == 0x48 {
        Some(KeyCode::Home)
    } else if b == 0x46 {
        Some(KeyCode::End)
    } else {
        None
    }
}

fn ss3_key_of(b: u8) -> (r: Option<KeyCode>)
    ensures
        r == ss3_key(b),
{
    if b == 0x50 {
        Some(KeyCode::F(1))
    } else if b == 0x51 {
        Some(KeyCode::F(2))
    } else if b == 0x52 {
        Some(KeyCode::F(3))
    } else if b == 0x53 {
        Some(KeyCode::F(4))
    } else {
        plain_csi_key_of(b)
    }
}

fn tilde_key_of(n: u32) -> (r: Option<KeyCode>)
    ensures
        r == tilde_key(n as nat),
{
    if n == 1 || n == 7 {
        Some(KeyCode::Home)
    } else if n == 2 {
        Some(KeyCode::Insert)
    } else if n == 3 {
        Some(KeyCode::Delete)
    } else if n == 4 || n == 8 {
        Some(KeyCode::End)
    } else if n == 5 {
        Some(KeyCode::PageUp)
    } else if n == 6 {
        Some(KeyCode::PageDown)
    } else if 11 <= n && n <= 15 {
        Some(KeyCode::F((n - 10) as u8))
    } else if 17 <= n && n <= 21 {
        Some(KeyCode::F((n - 11) as u8))
    } else if n == 23 || n == 24 {
        Some(KeyCode::F((n - 12) as u8))
    } else {
        None
    }
}

fn utf8_width_of(b: u8) -> (r: usize)
    ensures
        r == utf8_width(b),
{
    if 0xc2 <= b && b <= 0xdf {
        2
    } else if 0xe0 <= b && b <= 0xef {
        3
    } else if 0xf0 <= b && b <= 0xf4 {
        4
    } else {
        0
    }
}

fn decode_utf8_at(buf: &[u8], start: usize) -> (r: Decoded)
    requires
        start < buf@.len(),
        buf@[start as int] >= 0x80,
    ensures
        r == decode_utf8(buf@.subrange(start as int, buf@.len() as int)),
{
    let ghost s = buf@.subrange(start as int, buf@.len() as int);
    let n = utf8_width_of(buf[start]);
    if n == 0 {
        return Decoded::Malformed(1);
    }
    if buf.len() - start >= 2 {
        let b0 = buf[start];
        let b1 = buf[start + 1];
        let ok = if b0 == 0xe0 {
            0xa0 <= b1 && b1 <= 0xbf
        } else if b0 == 0xed {
            0x80 <= b1 && b1 <= 0x9f
        } else if b0 == 0xf0 {
            0x90 <= b1 && b1 <= 0xbf
        } else if b0 == 0xf4 {
            0x80 <= b1 && b1 <= 0x8f
        } else {
            0x80 <= b1 && b1 <= 0xbf
        };
        if !ok {
            return Decoded::Malformed(1);
        }
    }
    let mut i: usize = 1;
    while i < n && i < buf.len() - start
        invariant
            1 <= i <= n <= 4,
            n == utf8_width(s[0]),
            start < buf@.len(),
            s == buf@.subrange(start as int, buf@.len() as int),
            forall|k: int| 1 <= k < i && k < s.len() ==> is_continuation(#[trigger] s[k]),
        decreases n - i,
    {
        let c = buf[start + i];
        assert(s[i as int] == c);
        if c < 0x80 || c > 0xbf {
            assert(!is_continuation(s[i as int]));
            return Decoded::Malformed(1);
        }
        i = i + 1;
    }
    if buf.len() - start < n {
        return Decoded::Incomplete;
    }
    let b0 = buf[start] as u32;
    let b1 = buf[start + 1] as u32;
    assert(s[1] == b1 && is_continuation(s[1]));
    let v: u32 = if n == 2 {
        (b0 - 0xc0) * 64 + (b1 - 0x80)
    } else if n == 3 {
        let b2 = buf[start + 2] as u32;
        assert(s[2] == b2 && is_continuation(s[2]));
        (b0 - 0xe0) * 4096 + (b1 - 0x80) * 64 + (b2 - 0x80)
    } else {
        let b2 = buf[start + 2] as u32;
        let b3 = buf[start + 3] as u32;
        assert(s[2] == b2 && is_continuation(s[2]));
        assert(s[3] == b3 && is_continuation(s[3]));
        (b0 - 0xf0) * 262144 + (b1 - 0x80) * 4096 + (b2 - 0x80) * 64 + (b3 - 0x80)
    };
    Decoded::Complete(make_key(KeyCode::Char(v), 0), n)
}

fn csi_event_of(buf: &[u8], lo: usize, hi: usize, f: u8, reading_cursor_position: bool) -> (r:
    Option<InternalEvent>)
    requires
        lo <= hi <= buf@.len(),
    ensures
        r == csi_event(buf@.subrange(lo as int, hi as int), f, reading_cursor_position),
{
    if lo == hi {
        match plain_csi_key_of(f) {
            Some(k) => Some(make_key(k, 0)),
            None => None,
        }
    } else if f == 0x52 {
        match parse_pair(buf, lo, hi) {
            Some((row, col)) => {
                if row >= 1 && col >= 1 {
                    if !reading_cursor_position && row == 1 && 2 <= col && col <= 8 {
                        Some(make_key(KeyCode::F(3), (col - 1) as u8))
                    } else {
                        Some(InternalEvent::CursorPosition((col - 1) as u16, (row - 1) as u16))
                    }
                } else {
                    None
                }
            },
            None => None,
        }
    } else if f == 0x7e {
        match parse_field(buf, lo, hi) {
            Some(n) => match tilde_key_of(n) {
                Some(k) => Some(make_key(k, 0)),
                None => None,
            },
            None => None,
        }
    } else {
        None
    }
}

fn decode_csi_at(buf: &[u8], start: usize, reading_cursor_position: bool) -> (r: Decoded)
    requires
        start + 2 <= buf@.len(),
        buf@[start as int] == ESC,
        buf@[start + 1] == 0x5b,
    ensures
        r == decode_csi(buf@.subrange(start as int, buf@.len() as int), reading_cursor_position),
{
    let ghost s = buf@.subrange(start as int, buf@.len() as int);
    let len = buf.len();
    let mut k: usize = start + 2;
    while k < buf.len() && 0x30 <= buf[k] && buf[k] <= 0x3f
        invariant
            start + 2 <= k <= buf@.len(),
            s == buf@.subrange(start as int, buf@.len() as int),
            forall|j: int| 2 <= j < k - start ==> is_param(#[trigger] s[j]),
        decreases buf@.len() - k,
    {
        assert(s[k - start] == buf@[k as int]);
        k = k + 1;
    }
    let ghost kr = k - start;
    if k == buf.len() {
        assert forall|x: int| !is_params_end(s, x) by {
            if is_params_end(s, x) {
                assert(is_param(s[x]));
            }
        }
        return Decoded::Incomplete;
    }
    assert(s[kr] == buf@[k as int]);
    assert(is_params_end(s, kr));
    assert forall|x: int| is_params_end(s, x) implies x == kr by {
        if x < kr {
            assert(is_param(s[x]));
        } else if x > kr {
            assert(is_param(s[kr]));
        }
    }
    let f = buf[k];
    if f < 0x40 || f > 0x7e {
        return Decoded::Malformed(k - start + 1);
    }
    assert(s.subrange(2, kr) =~= buf@.subrange(start + 2, k as int));
    match csi_event_of(buf, start + 2, k, f, reading_cursor_position) {
        Some(e) => Decoded::Complete(e, k - start + 1),
        None => Decoded::Malformed(k - start + 1),
    }
}

/// Decodes the bytes of `buf` from `start` on.
pub fn decode_at(buf: &[u8], start: usize, more: bool, opts: &ParseOptions) -> (r: Decoded)
    requires
        start <= buf@.len(),
    ensures
        r == decode(buf@.subrange(start as int, buf@.len() as int), more, *opts),
{
    let ghost s = buf@.subrange(start as int, buf@.len() as int);
    let len = buf.len();
    if start == len {
        return Decoded::Incomplete;
    }
    let b = buf[start];
    if b == ESC {
        if len - start == 1 {
            if more {
                Decoded::Incomplete
            } else {
                Decoded::Complete(make_key(KeyCode::Esc, 0), 1)
            }
        } else {
            let c = buf[start + 1];
            if c == 0x5b {
                decode_csi_at(buf, start, opts.reading_cursor_position)
            } else if c == 0x4f {
                if len - start == 2 {
                    Decoded::Incomplete
                } else {
                    match ss3_key_of(buf[start + 2]) {
                        Some(k) => Decoded::Complete(make_key(k, 0), 3),
                        None => Decoded::Malformed(3),
                    }
                }
            } else if 0x20 <= c && c <= 0x7e {
                Decoded::Complete(make_key(KeyCode::Char(c as u32), ALT), 2)
            } else {
                Decoded::Complete(make_key(KeyCode::Esc, 0), 1)
            }
        }
    } else if b < 0x80 {
        Decoded::Complete(ascii_key(b), 1)
    } else {
        decode_utf8_at(buf, start)
    }
}

/// Decodes the bytes at the front of `buffer`. `input_available` says whether
/// more input may follow at once, which keeps a lone ESC pending.
pub fn parse_event(buffer: &[u8], input_available: bool, opts: &ParseOptions) -> (r: Decoded)
    ensures
        r == decode(buffer@, input_available, *opts),
{
    assert(buffer@.subrange(0, buffer@.len() as int) =~= buffer@);
    decode_at(buffer, 0, input_available, opts)
}

/// The decimal digits of `n`, with no leading zero.
pub open spec fn decimal(n: nat) -> Seq<u8>
    decreases n,
{
    if n < 10 {
        seq![(0x30 + n) as u8]
    } else {
        decimal(n / 10).push((0x30 + n % 10) as u8)
    }
}

/// The terminal's reply `ESC [ row ; col R` to a cursor-position query.
pub open spec fn cursor_reply(row: nat, col: nat) -> Seq<u8> {
    seq![ESC, 0x5b] + decimal(row) + seq![0x3b] + decimal(col) + seq![0x52]
}

proof fn lemma_decimal(n: nat)
    ensures
        decimal(n).len() >= 1,
        all_digits(decimal(n)),
        digits_value(decimal(n)) == n,
        n < 10 ==> decimal(n).len() == 1,
        n < 100 ==> decimal(n).len() <= 2,
        n < 1000 ==> decimal(n).len() <= 3,
        n < 10000 ==> decimal(n).len() <= 4,
    decreases n,
{
    let d = decimal(n);
    if n >= 10 {
        lemma_decimal(n / 10);
        assert(d.drop_last() =~= decimal(n / 10));
        assert(d.last() == (0x30 + n % 10) as u8);
        assert(digits_value(d) == digits_value(decimal(n / 10)) * 10 + n % 10);
        assert forall|k: int| 0 <= k < d.len() implies is_digit(#[trigger] d[k]) by {
            if k < d.len() - 1 {
                assert(d[k] == decimal(n / 10)[k]);
            }
        }
    } else {
        assert(d.drop_last() =~= Seq::<u8>::empty());
        assert(digits_value(d.drop_last()) == 0);
        assert(d.last() == (0x30 + n) as u8);
    }
}

proof fn lemma_reply_params(row: nat, col: nat)
    requires
        1 <= row <= 9999,
        1 <= col <= 9999,
    ensures
        ({
            let s = cursor_reply(row, col);
            let a = decimal(row);
            let b = decimal(col);
            &&& s.len() == a.len() + b.len() + 4
            &&& s[0] == ESC
            &&& s[1] == 0x5b
            &&& s[s.len() - 1] == 0x52
            &&& forall|j: int| 2 <= j < s.len() - 1 ==> is_param(#[trigger] s[j])
            &&& s.subrange(2, s.len() - 1) =~= a + seq![0x3b] + b
        }),
{
    lemma_decimal(row);
    lemma_decimal(col);
    let s = cursor_reply(row, col);
    let a = decimal(row);
    let b = decimal(col);
    let la = a.len() as int;
    assert forall|j: int| 2 <= j < s.len() - 1 implies is_param(#[trigger] s[j]) by {
        if j < 2 + la {
            assert(s[j] == a[j - 2]);
        } else if j == 2 + la {
            assert(s[j] == 0x3b);
        } else {
            assert(s[j] == b[j - 3 - la]);
        }
    }
}

/// Every reply `ESC [ row ; col R` with both fields in 1..=9999 decodes, in
/// full, to the zero-based position (col - 1, row - 1), unless the reply is
/// not expected and also reads as F3 with modifiers.
pub proof fn lemma_cursor_reply_decodes(row: nat, col: nat, more: bool, opts: ParseOptions)
    requires
        1 <= row <= 9999,
        1 <= col <= 9999,
        opts.reading_cursor_position || !(row == 1 && 2 <= col <= 8),
    ensures
        decode(cursor_reply(row, col), more, opts) == Decoded::Complete(
            InternalEvent::CursorPosition((col - 1) as u16, (row - 1) as u16),
            cursor_reply(row, col).len() as usize,
        ),
{
    lemma_reply_params(row, col);
    lemma_decimal(row);
    lemma_decimal(col);
    let s = cursor_reply(row, col);
    let a = decimal(row);
    let b = decimal(col);
    let la = a.len() as int;
    let k = s.len() - 1;
    assert(is_params_end(s, k));
    assert forall|x: int| is_params_end(s, x) implies x == k by {
        if x < k {
            assert(is_param(s[x]));
        }
    }
    let p = s.subrange(2, k);
    assert(p[la] == 0x3b);
    assert(p.subrange(0, la) =~= a);
    assert(p.subrange(la + 1, p.len() as int) =~= b);
    assert(is_pair_split(p, la));
    assert forall|x: int| is_pair_split(p, x) implies x == la by {
        if x < la {
            assert(p[x] == a[x]);
        } else if x > la {
            assert(p.subrange(0, x)[la] == p[la]);
        }
    }
}

/// Every proper prefix of a reply `ESC [ row ; col R` is incomplete, never
/// malformed, while more input may follow.
pub proof fn lemma_cursor_reply_prefix_incomplete(
    row: nat,
    col: nat,
    n: int,
    opts: ParseOptions,
)
    requires
        1 <= row <= 9999,
        1 <= col <= 9999,
        0 <= n < cursor_reply(row, col).len(),
    ensures
        decode(cursor_reply(row, col).subrange(0, n), true, opts) == Decoded::Incomplete,
{
    lemma_reply_params(row, col);
    let s = cursor_reply(row, col);
    let t = s.subrange(0, n);
    if n >= 2 {
        assert(t[0] == ESC && t[1] == 0x5b);
        assert forall|x: int| !is_params_end(t, x) by {
            if is_params_end(t, x) {
                assert(t[x] == s[x]);
            }
        }
    }
}

} // verus!
