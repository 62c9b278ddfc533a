// The wire format: one compact JSON document per message, tagged by variant.
//     "Close"   "Ping"   "Ok"
//     {"Timeout":10}
//     {"Error":"UnexpectedMessage"}
//     {"Started":[{"crate_name":"demo","command":"build"},1700000000]}
// Texts are escaped as JSON escapes them. Exactly the text that `encode` writes
// for a message is read back as that message; anything else is refused.

use vstd::prelude::*;
use vstd::string::*;
use vstd::utf8::{char_u32_cast, decode_utf8, encode_utf8, encode_utf8_decode_utf8, encode_utf8_valid_utf8, valid_utf8};
use crate::protocol::{CommandInfo, CommandModel, Message, MessageModel, StopwatchError};

verus! {

pub open spec fn hex_digit(d: nat) -> char
    recommends
        d < 16,
{
    if d < 10 {
        ((d + 48) as u32) as char
    } else {
        ((d + 87) as u32) as char
    }
}

/// The escape sequence that stands for `c` inside a quoted text: a short one for
/// quotes, backslashes and the common control characters, `\u00XX` for the other
/// control characters, and the character itself otherwise.
pub open spec fn escape(c: char) -> Seq<char> {
    if c == '"' {
        seq!['\\', '"']
    } else if c == '\\' {
        seq!['\\', '\\']
    } else if c == '\u{8}' {
        seq!['\\', 'b']
    } else if c == '\u{c}' {
        seq!['\\', 'f']
    } else if c == '\n' {
        seq!['\\', 'n']
    } else if c == '\r' {
        seq!['\\', 'r']
    } else if c == '\t' {
        seq!['\\', 't']
    } else if (c as u32) < 32 {
        seq![
            '\\',
            'u',
            '0',
            '0',
            hex_digit(((c as u32) / 16) as nat),
            hex_digit(((c as u32) % 16) as nat),
        ]
    } else {
        seq![c]
    }
}

/// The body of a quoted text: each character escaped in turn.
pub open spec fn escaped(s: Seq<char>) -> Seq<char>
    decreases s.len(),
{
    if s.len() == 0 {
        Seq::empty()
    } else {
        escape(s[0]) + escaped(s.drop_first())
    }
}

/// A text between double quotes.
pub open spec fn quoted(s: Seq<char>) -> Seq<char> {
    seq!['"'] + escaped(s) + seq!['"']
}

pub open spec fn digit(d: nat) -> char
    recommends
        d < 10,
{
    ((d + 48) as u32) as char
}

/// The decimal digits of `n`, without leading zeros.
pub open spec fn decimal(n: nat) -> Seq<char>
    decreases n,
{
    if n < 10 {
        seq![digit(n)]
    } else {
        decimal(n / 10).push(digit(n % 10))
    }
}

pub open spec fn error_name(e: StopwatchError) -> Seq<char> {
    match e {
        StopwatchError::UnexpectedMessage => "\"UnexpectedMessage\""@,
        StopwatchError::PresenceUpdateFailed => "\"PresenceUpdateFailed\""@,
        StopwatchError::ExistingConnection => "\"ExistingConnection\""@,
    }
}

/// A run: the command's crate and command, then a number of seconds.
pub open spec fn run_body(info: CommandModel, n: u64) -> Seq<char> {
    "[{\"crate_name\":"@ + quoted(info.crate_name) + ",\"command\":"@ + quoted(info.command)
        + "},"@ + decimal(n as nat) + "]"@
}

/// The wire text of a message: a field-tagged document, one per message.
pub open spec fn encoding(m: MessageModel) -> Seq<char> {
    match m {
        MessageModel::Close => "\"Close\""@,
        MessageModel::Started(info, t) => "{\"Started\":"@ + run_body(info, t) + "}"@,
        MessageModel::Stopped(info, t) => "{\"Stopped\":"@ + run_body(info, t) + "}"@,
        MessageModel::Timeout(n) => "{\"Timeout\":"@ + decimal(n as nat) + "}"@,
        MessageModel::Ping => "\"Ping\""@,
        MessageModel::Ack => "\"Ok\""@,
        MessageModel::Error(e) => "{\"Error\":"@ + error_name(e) + "}"@,
    }
}

/// Relies on String::push: the character is appended at the end.
#[verifier::external_body]
fn push_char(s: &mut String, c: char)
    ensures
        final(s)@ == old(s)@.push(c),
{
    s.push(c)
}

proof fn lemma_escaped_push(s: Seq<char>, c: char)
    ensures
        escaped(s.push(c)) == escaped(s) + escape(c),
    decreases s.len(),
{
    if s.len() == 0 {
        assert(s.push(c).drop_first() =~= s);
        assert(escaped(s.push(c)) =~= escaped(s) + escape(c));
    } else {
        assert(s.push(c).drop_first() =~= s.drop_first().push(c));
        lemma_escaped_push(s.drop_first(), c);
        assert(escaped(s.push(c)) =~= escaped(s) + escape(c));
    }
}

fn hex_char(d: u32) -> (r: char)
    requires
        d < 16,
    ensures
        r == hex_digit(d as nat),
{
    let b: u8 = d as u8;
    if b < 10 {
        (b + 48) as char
    } else {
        (b + 87) as char
    }
}

fn append_quoted(out: &mut String, s: &str)
    ensures
        final(out)@ == old(out)@ + quoted(s@),
{
    let len = s.unicode_len();
    push_char(out, '"');
    let ghost start = out@;
    let mut k: usize = 0;
    while k < len
        invariant
            len == s@.len(),
            k <= len,
            start == old(out)@.push('"'),
            out@ == start + escaped(s@.subrange(0, k as int)),
        decreases len - k,
    {
        let c = s.get_char(k);
        proof {
            assert(s@.subrange(0, k + 1) =~= s@.subrange(0, k as int).push(c));
            lemma_escaped_push(s@.subrange(0, k as int), c);
        }
        if c == '"' {
            push_char(out, '\\');
            push_char(out, '"');
        } else if c == '\\' {
            push_char(out, '\\');
            push_char(out, '\\');
        } else if c == '\u{8}' {
            push_char(out, '\\');
            push_char(out, 'b');
        } else if c == '\u{c}' {
            push_char(out, '\\');
            push_char(out, 'f');
        } else if c == '\n' {
            push_char(out, '\\');
            push_char(out, 'n');
        } else if c == '\r' {
            push_char(out, '\\');
            push_char(out, 'r');
        } else if c == '\t' {
            push_char(out, '\\');
            push_char(out, 't');
        } else if (c as u32) < 32 {
            push_char(out, '\\');
            push_char(out, 'u');
            push_char(out, '0');
            push_char(out, '0');
            push_char(out, hex_char(c as u32 / 16));
            push_char(out, hex_char(c as u32 % 16));
        } else {
            push_char(out, c);
        }
        assert(out@ =~= start + escaped(s@.subrange(0, k + 1)));
        k = k + 1;
    }
    push_char(out, '"');
    assert(s@.subrange(0, len as int) =~= s@);
    assert(out@ =~= old(out)@ + quoted(s@));
}

fn append_decimal(out: &mut String, n: u64)
    ensures
        final(out)@ == old(out)@ + decimal(n as nat),
    decreases n,
{
    if n >= 10 {
        append_decimal(out, n / 10);
    }
    let d: u8 = (n % 10) as u8;
    let c = (d + 48) as char;
    push_char(out, c);
    assert(out@ =~= old(out)@ + decimal(n as nat));
}

fn append_run(out: &mut String, info: &CommandInfo, n: u64)
    ensures
        final(out)@ == old(out)@ + run_body(info@, n),
{
    out.append("[{\"crate_name\":");
    append_quoted(out, info.crate_name.as_str());
    out.append(",\"command\":");
    append_quoted(out, info.command.as_str());
    out.append("},");
    append_decimal(out, n);
    out.append("]");
    assert(out@ =~= old(out)@ + run_body(info@, n));
}

/// Writes `m` as its wire text.
pub fn encode(m: &Message) -> (r: String)
    ensures
        r@ == encoding(m@),
{
    let mut out = String::new();
    match m {
        Message::Close => out.append("\"Close\""),
        Message::Started(info, t) => {
            out.append("{\"Started\":");
            append_run(&mut out, info, *t);
            out.append("}");
        },
        Message::Stopped(info, t) => {
            out.append("{\"Stopped\":");
            append_run(&mut out, info, *t);
            out.append("}");
        },
        Message::Timeout(n) => {
            out.append("{\"Timeout\":");
            append_decimal(&mut out, *n);
            out.append("}");
        },
        Message::Ping => out.append("\"Ping\""),
        Message::Ack => out.append("\"Ok\""),
        Message::Error(e) => {
            out.append("{\"Error\":");
            match e {
                StopwatchError::UnexpectedMessage => out.append("\"UnexpectedMessage\""),
                StopwatchError::PresenceUpdateFailed => out.append("\"PresenceUpdateFailed\""),
                StopwatchError::ExistingConnection => out.append("\"ExistingConnection\""),
            }
            out.append("}");
        },
    }
    assert(out@ =~= encoding(m@));
    out
}

/// The character that an escape sequence `\d` stands for.
pub open spec fn unescape(d: char) -> Option<char> {
    if d == '"' {
        Some('"')
    } else if d == '\\' {
        Some('\\')
    } else if d == 'b' {
        Some('\u{8}')
    } else if d == 'f' {
        Some('\u{c}')
    } else if d == 'n' {
        Some('\n')
    } else if d == 'r' {
        Some('\r')
    } else if d == 't' {
        Some('\t')
    } else {
        None
    }
}

/// A character that stands for itself inside a quoted text.
pub open spec fn is_plain(c: char) -> bool {
    c != '"' && c != '\\' && (c as u32) >= 32
}

/// The value of a lowercase hexadecimal digit.
pub open spec fn hex_value(c: char) -> Option<nat> {
    if '0' <= c && c <= '9' {
        Some(((c as u32) - 48) as nat)
    } else if 'a' <= c && c <= 'f' {
        Some(((c as u32) - 87) as nat)
    } else {
        None
    }
}

/// Reads the body of a quoted text up to and including its closing quote:
/// the text it stands for and the number of characters read.
pub open spec fn read_text(t: Seq<char>) -> Option<(Seq<char>, nat)>
    decreases t.len(),
{
    if t.len() == 0 {
        None
    } else if t[0] == '"' {
        Some((Seq::empty(), 1))
    } else if t[0] == '\\' {
        if t.len() < 2 {
            None
        } else if t[1] == 'u' {
            if t.len() < 6 || t[2] != '0' || t[3] != '0' {
                None
            } else {
                match (hex_value(t[4]), hex_value(t[5])) {
                    (Some(h), Some(l)) => match read_text(t.skip(6)) {
                        None => None,
                        Some((v, n)) => Some((seq![((h * 16 + l) as u32) as char] + v, n + 6)),
                    },
                    _ => None,
                }
            }
        } else {
            match unescape(t[1]) {
                None => None,
                Some(c) => match read_text(t.skip(2)) {
                    None => None,
                    Some((v, n)) => Some((seq![c] + v, n + 2)),
                },
            }
        }
    } else if is_plain(t[0]) {
        match read_text(t.skip(1)) {
            None => None,
            Some((v, n)) => Some((seq![t[0]] + v, n + 1)),
        }
    } else {
        None
    }
}

pub open spec fn prefixed(
    a: Seq<char>,
    k: nat,
    o: Option<(Seq<char>, nat)>,
) -> Option<(Seq<char>, nat)> {
    match o {
        None => None,
        Some((v, n)) => Some((a + v, k + n)),
    }
}

proof fn lemma_prefixed_step(a: Seq<char>, k: nat, c: char, j: nat, o: Option<(Seq<char>, nat)>)
    ensures
        prefixed(a, k, prefixed(seq![c], j, o)) == prefixed(a.push(c), k + j, o),
{
    if let Some((v, n)) = o {
        assert(a + (seq![c] + v) =~= a.push(c) + v);
    }
}

proof fn lemma_read_escaped(v: Seq<char>, rest: Seq<char>)
    ensures
        read_text(escaped(v) + seq!['"'] + rest) == Some((v, (escaped(v).len() + 1) as nat)),
    decreases v.len(),
{
    let w = escaped(v) + seq!['"'] + rest;
    if v.len() == 0 {
        assert(w =~= seq!['"'] + rest);
        assert(v =~= Seq::<char>::empty());
    } else {
        lemma_read_escaped(v.drop_first(), rest);
        let tail = escaped(v.drop_first()) + seq!['"'] + rest;
        assert(w =~= escape(v[0]) + tail);
        let c = v[0];
        if escape(c).len() == 6 {
            assert(w.skip(6) =~= tail);
            let h = ((c as u32) / 16) as nat;
            let l = ((c as u32) % 16) as nat;
            assert(hex_value(hex_digit(h)) == Some(h));
            assert(hex_value(hex_digit(l)) == Some(l));
            assert(h * 16 + l == c as u32);
            char_u32_cast(c, c as u32);
        } else if escape(c).len() == 2 {
            assert(w.skip(2) =~= tail);
        } else {
            assert(w.skip(1) =~= tail);
        }
        assert(seq![v[0]] + v.drop_first() =~= v);
    }
}

fn hex_of(c: char) -> (r: Option<u32>)
    ensures
        match r {
            Some(v) => v < 16 && hex_value(c) == Some(v as nat),
            None => hex_value(c) is None,
        },
{
    if '0' <= c && c <= '9' {
        Some(c as u32 - 48)
    } else if 'a' <= c && c <= 'f' {
        Some(c as u32 - 87)
    } else {
        None
    }
}

fn read_text_at(t: &str, len: usize, i: usize) -> (r: Option<(String, usize)>)
    requires
        len == t@.len(),
        i <= len,
    ensures
        match r {
            Some((v, j)) => i < j <= len && read_text(t@.skip(i as int)) == Some((v@, (j - i) as nat)),
            None => read_text(t@.skip(i as int)) is None,
        },
{
    let mut acc = String::new();
    let mut k: usize = i;
    proof {
        assert(acc@ + Seq::<char>::empty() =~= Seq::<char>::empty());
        if let Some((v, n)) = read_text(t@.skip(i as int)) {
            assert(acc@ + v =~= v);
        }
    }
    loop
        invariant
            len == t@.len(),
            i <= k <= len,
            read_text(t@.skip(i as int)) == prefixed(acc@, (k - i) as nat, read_text(t@.skip(k as int))),
        decreases len - k,
    {
        if k >= len {
            return None;
        }
        let c = t.get_char(k);
        let ghost u = t@.skip(k as int);
        assert(u[0] == c);
        if c == '"' {
            assert(acc@ + Seq::<char>::empty() =~= acc@);
            return Some((acc, k + 1));
        } else if c == '\\' {
            if k + 1 >= len {
                return None;
            }
            let d = t.get_char(k + 1);
            assert(u[1] == d);
            if d == 'u' {
                if len - k < 6 {
                    return None;
                }
                let z1 = t.get_char(k + 2);
                let z2 = t.get_char(k + 3);
                let hc = t.get_char(k + 4);
                let lc = t.get_char(k + 5);
                assert(u[2] == z1 && u[3] == z2 && u[4] == hc && u[5] == lc);
                if z1 != '0' || z2 != '0' {
                    return None;
                }
                let h = match hex_of(hc) {
                    Some(h) => h,
                    None => return None,
                };
                let l = match hex_of(lc) {
                    Some(l) => l,
                    None => return None,
                };
                let e = ((h * 16 + l) as u8) as char;
                assert(u.skip(6) =~= t@.skip(k + 6));
                assert(e == ((h * 16 + l) as u32) as char) by {
                    char_u32_cast(e, (h * 16 + l) as u32);
                }
                proof {
                    lemma_prefixed_step(acc@, (k - i) as nat, e, 6, read_text(t@.skip(k + 6)));
                }
                push_char(&mut acc, e);
                k = k + 6;
                continue;
            }
            assert(u.skip(2) =~= t@.skip(k + 2));
            let e: char;
            if d == '"' {
                e = '"';
            } else if d == '\\' {
                e = '\\';
            } else if d == 'b' {
                e = '\u{8}';
            } else if d == 'f' {
                e = '\u{c}';
            } else if d == 'n' {
                e = '\n';
            } else if d == 'r' {
                e = '\r';
            } else if d == 't' {
                e = '\t';
            } else {
                return None;
            }
            proof {
                lemma_prefixed_step(acc@, (k - i) as nat, e, 2, read_text(t@.skip(k + 2)));
            }
            push_char(&mut acc, e);
            k = k + 2;
        } else if (c as u32) >= 32 {
            assert(u.skip(1) =~= t@.skip(k + 1));
            proof {
                lemma_prefixed_step(acc@, (k - i) as nat, c, 1, read_text(t@.skip(k + 1)));
            }
            push_char(&mut acc, c);
            k = k + 1;
        } else {
            return None;
        }
    }
}

pub open spec fn is_digit(c: char) -> bool {
    '0' <= c && c <= '9'
}

pub open spec fn all_digits(s: Seq<char>) -> bool {
    forall|i: int| 0 <= i < s.len() ==> is_digit(#[trigger] s[i])
}

/// The number that a string of decimal digits denotes.
pub open spec fn digits_value(s: Seq<char>) -> nat
    decreases s.len(),
{
    if s.len() == 0 {
        0
    } else {
        digits_value(s.drop_last()) * 10 + ((s.last() as u32) - 48) as nat
    }
}

/// A `u64` written in decimal without leading zeros, or nothing.
pub open spec fn read_decimal(s: Seq<char>) -> Option<u64> {
    if s.len() >= 1 && all_digits(s) && (s.len() == 1 || s[0] != '0') && digits_value(s)
        <= u64::MAX {
        Some(digits_value(s) as u64)
    } else {
        None
    }
}

pub(crate) proof fn lemma_digits_prefix(s: Seq<char>, k: int)
    requires
        all_digits(s),
        0 <= k <= s.len(),
    ensures
        digits_value(s.subrange(0, k)) <= digits_value(s),
    decreases s.len(),
{
    if k < s.len() {
        assert(s.drop_last().subrange(0, k) =~= s.subrange(0, k));
        lemma_digits_prefix(s.drop_last(), k);
    } else {
        assert(s.subrange(0, k) =~= s);
    }
}

proof fn lemma_decimal_shape(n: nat)
    ensures
        decimal(n).len() >= 1,
        all_digits(decimal(n)),
        digits_value(decimal(n)) == n,
        n >= 1 ==> decimal(n)[0] != '0',
    decreases n,
{
    if n >= 10 {
        lemma_decimal_shape(n / 10);
        assert(decimal(n).drop_last() =~= decimal(n / 10));
        assert(decimal(n)[0] == decimal(n / 10)[0]);
        assert(decimal(n).last() == digit(n % 10));
        assert(digit(n % 10) as u32 == n % 10 + 48);
        assert(digits_value(decimal(n)) == (n / 10) * 10 + n % 10);
        assert(n == (n / 10) * 10 + n % 10);
    } else {
        assert(digit(n) as u32 == n + 48);
        assert(decimal(n).drop_last() =~= Seq::<char>::empty());
        assert(digits_value(Seq::<char>::empty()) == 0);
    }
}

proof fn lemma_read_decimal(n: u64)
    ensures
        read_decimal(decimal(n as nat)) == Some(n),
{
    lemma_decimal_shape(n as nat);
}

/// Reads `t[a..b]` as a decimal `u64`.
fn read_decimal_at(t: &str, len: usize, a: usize, b: usize) -> (r: Option<u64>)
    requires
        len == t@.len(),
        a <= b <= len,
    ensures
        r == read_decimal(t@.subrange(a as int, b as int)),
{
    let ghost s = t@.subrange(a as int, b as int);
    if a == b {
        return None;
    }
    let first = t.get_char(a);
    assert(s[0] == first);
    if first == '0' && b - a > 1 {
        return None;
    }
    let mut acc: u64 = 0;
    let mut k: usize = a;
    while k < b
        invariant
            len == t@.len(),
            a <= k <= b <= len,
            s == t@.subrange(a as int, b as int),
            all_digits(t@.subrange(a as int, k as int)),
            acc as nat == digits_value(t@.subrange(a as int, k as int)),
        decreases b - k,
    {
        let c = t.get_char(k);
        let ghost p = t@.subrange(a as int, k + 1);
        assert(p.drop_last() =~= t@.subrange(a as int, k as int));
        assert(p.last() == c);
        if c < '0' || c > '9' {
            assert(s[k - a] == c);
            return None;
        }
        let d: u64 = (c as u32 - 48) as u64;
        if acc > 1844674407370955161 || (acc == 1844674407370955161 && d > 5) {
            proof {
                if all_digits(s) {
                    assert(s.subrange(0, k + 1 - a) =~= p);
                    lemma_digits_prefix(s, k + 1 - a);
                }
            }
            return None;
        }
        acc = acc * 10 + d;
        k = k + 1;
    }
    assert(t@.subrange(a as int, k as int) =~= s);
    Some(acc)
}

/// Reads a run that fills `t[a..b]`: its crate name, its command and its number.
pub open spec fn read_run(t: Seq<char>, a: int, b: int) -> Option<(CommandModel, u64)> {
    let h = "[{\"crate_name\":"@;
    let c = ",\"command\":"@;
    if a + h.len() + 1 <= b && t.subrange(a, a + h.len()) == h && t[a + h.len()] == '"' {
        let p1 = a + h.len() + 1;
        match read_text(t.skip(p1)) {
            None => None,
            Some((name, k1)) => {
                let q1 = p1 + k1;
                if q1 + c.len() + 1 <= b && t.subrange(q1, q1 + c.len()) == c && t[q1 + c.len()]
                    == '"' {
                    let p2 = q1 + c.len() + 1;
                    match read_text(t.skip(p2)) {
                        None => None,
                        Some((cmd, k2)) => {
                            let q2 = p2 + k2;
                            if q2 + 3 <= b && t[q2] == '}' && t[q2 + 1] == ',' && t[b - 1] == ']' {
                                match read_decimal(t.subrange(q2 + 2, b - 1)) {
                                    None => None,
                                    Some(n) => Some(
                                        (CommandModel { crate_name: name, command: cmd }, n),
                                    ),
                                }
                            } else {
                                None
                            }
                        },
                    }
                } else {
                    None
                }
            },
        }
    } else {
        None
    }
}

/// Reads a wire text as the message it is laid out as.
pub open spec fn parse(t: Seq<char>) -> Option<MessageModel> {
    let n = t.len() as int;
    let tt = "{\"Timeout\":"@;
    let st = "{\"Started\":"@;
    let sp = "{\"Stopped\":"@;
    if t == encoding(MessageModel::Close) {
        Some(MessageModel::Close)
    } else if t == encoding(MessageModel::Ping) {
        Some(MessageModel::Ping)
    } else if t == encoding(MessageModel::Ack) {
        Some(MessageModel::Ack)
    } else if t == encoding(MessageModel::Error(StopwatchError::UnexpectedMessage)) {
        Some(MessageModel::Error(StopwatchError::UnexpectedMessage))
    } else if t == encoding(MessageModel::Error(StopwatchError::PresenceUpdateFailed)) {
        Some(MessageModel::Error(StopwatchError::PresenceUpdateFailed))
    } else if t == encoding(MessageModel::Error(StopwatchError::ExistingConnection)) {
        Some(MessageModel::Error(StopwatchError::ExistingConnection))
    } else if n >= 1 && t[n - 1] == '}' {
        if tt.len() <= n - 1 && t.subrange(0, tt.len() as int) == tt {
            match read_decimal(t.subrange(tt.len() as int, n - 1)) {
                None => None,
                Some(x) => Some(MessageModel::Timeout(x)),
            }
        } else if st.len() <= n - 1 && t.subrange(0, st.len() as int) == st {
            match read_run(t, st.len() as int, n - 1) {
                None => None,
                Some((info, x)) => Some(MessageModel::Started(info, x)),
            }
        } else if sp.len() <= n - 1 && t.subrange(0, sp.len() as int) == sp {
            match read_run(t, sp.len() as int, n - 1) {
                None => None,
                Some((info, x)) => Some(MessageModel::Stopped(info, x)),
            }
        } else {
            None
        }
    } else {
        None
    }
}

/// The message whose wire text is exactly `t`, if there is one.
pub open spec fn decoding(t: Seq<char>) -> Option<MessageModel> {
    match parse(t) {
        Some(m) => if encoding(m) == t {
            Some(m)
        } else {
            None
        },
        None => None,
    }
}

/// Whether `lit` stands in `t` at position `i`.
fn lit_at(t: &str, len: usize, i: usize, lit: &str) -> (r: bool)
    requires
        len == t@.len(),
        i <= len,
    ensures
        r == (i + lit@.len() <= len && t@.subrange(i as int, i + lit@.len()) == lit@),
{
    let m = lit.unicode_len();
    if m > len - i {
        return false;
    }
    let mut j: usize = 0;
    while j < m
        invariant
            len == t@.len(),
            m == lit@.len(),
            i + m <= len,
            j <= m,
            t@.subrange(i as int, i + j) == lit@.subrange(0, j as int),
        decreases m - j,
    {
        if t.get_char(i + j) != lit.get_char(j) {
            assert(t@.subrange(i as int, i + m)[j as int] != lit@[j as int]);
            return false;
        }
        assert(t@.subrange(i as int, i + j + 1) =~= t@.subrange(i as int, i + j).push(t@[i + j]));
        assert(lit@.subrange(0, j + 1) =~= lit@.subrange(0, j as int).push(lit@[j as int]));
        j = j + 1;
    }
    assert(lit@.subrange(0, m as int) =~= lit@);
    true
}

fn read_run_at(t: &str, len: usize, a: usize, b: usize) -> (r: Option<(CommandInfo, u64)>)
    requires
        len == t@.len(),
        a <= b <= len,
    ensures
        match r {
            Some((info, n)) => read_run(t@, a as int, b as int) == Some((info@, n)),
            None => read_run(t@, a as int, b as int) is None,
        },
{
    let h = "[{\"crate_name\":";
    let c = ",\"command\":";
    let hl = h.unicode_len();
    let cl = c.unicode_len();
    if hl >= b - a || !lit_at(t, len, a, h) || t.get_char(a + hl) != '"' {
        return None;
    }
    let p1 = a + hl + 1;
    let (name, q1) = match read_text_at(t, len, p1) {
        None => return None,
        Some(x) => x,
    };
    if q1 > b || cl >= b - q1 || !lit_at(t, len, q1, c) || t.get_char(q1 + cl) != '"' {
        return None;
    }
    let p2 = q1 + cl + 1;
    let (cmd, q2) = match read_text_at(t, len, p2) {
        None => return None,
        Some(x) => x,
    };
    if q2 > b || 3 > b - q2 || t.get_char(q2) != '}' || t.get_char(q2 + 1) != ',' || t.get_char(b - 1)
        != ']' {
        return None;
    }
    match read_decimal_at(t, len, q2 + 2, b - 1) {
        None => None,
        Some(n) => Some((CommandInfo { crate_name: name, command: cmd }, n)),
    }
}

fn parse_at(t: &str) -> (r: Option<Message>)
    ensures
        match r {
            Some(m) => parse(t@) == Some(m@),
            None => parse(t@) is None,
        },
{
    let whole = t.to_owned();
    let len = t.unicode_len();
    if whole == encode(&Message::Close) {
        return Some(Message::Close);
    }
    if whole == encode(&Message::Ping) {
        return Some(Message::Ping);
    }
    if whole == encode(&Message::Ack) {
        return Some(Message::Ack);
    }
    if whole == encode(&Message::Error(StopwatchError::UnexpectedMessage)) {
        return Some(Message::Error(StopwatchError::UnexpectedMessage));
    }
    if whole == encode(&Message::Error(StopwatchError::PresenceUpdateFailed)) {
        return Some(Message::Error(StopwatchError::PresenceUpdateFailed));
    }
    if whole == encode(&Message::Error(StopwatchError::ExistingConnection)) {
        return Some(Message::Error(StopwatchError::ExistingConnection));
    }
    if len == 0 || t.get_char(len - 1) != '}' {
        return None;
    }
    let tt = "{\"Timeout\":";
    let st = "{\"Started\":";
    let sp = "{\"Stopped\":";
    let ttl = tt.unicode_len();
    let stl = st.unicode_len();
    let spl = sp.unicode_len();
    if ttl <= len - 1 && lit_at(t, len, 0, tt) {
        match read_decimal_at(t, len, ttl, len - 1) {
            None => None,
            Some(x) => Some(Message::Timeout(x)),
        }
    } else if stl <= len - 1 && lit_at(t, len, 0, st) {
        match read_run_at(t, len, stl, len - 1) {
            None => None,
            Some((info, x)) => Some(Message::Started(info, x)),
        }
    } else if spl <= len - 1 && lit_at(t, len, 0, sp) {
        match read_run_at(t, len, spl, len - 1) {
            None => None,
            Some((info, x)) => Some(Message::Stopped(info, x)),
        }
    } else {
        None
    }
}

/// A wire text that is not the text of any message.
#[derive(Clone, Copy, Debug, PartialEq, Eq, Structural)]
pub struct DecodeError;

/// Reads one message from its wire text; any other text is refused.
pub fn decode(t: &str) -> (r: Result<Message, DecodeError>)
    ensures
        match r {
            Ok(m) => decoding(t@) == Some(m@),
            Err(_) => decoding(t@) is None,
        },
{
    match parse_at(t) {
        None => Err(DecodeError),
        Some(m) => {
            let again = encode(&m);
            if again == t.to_owned() {
                Ok(m)
            } else {
                Err(DecodeError)
            }
        },
    }
}

/// The message that the bytes `b` carry: UTF-8 text that is the wire text of a message.
pub open spec fn wire_decoding(b: Seq<u8>) -> Option<MessageModel> {
    if valid_utf8(b) {
        decoding(decode_utf8(b))
    } else {
        None
    }
}

/// Relies on std::str::from_utf8: it fails exactly on bytes that are not UTF-8,
/// and otherwise gives the text made of those very bytes.
#[verifier::external_body]
fn text_of_bytes(b: &[u8]) -> (r: Option<&str>)
    ensures
        match r {
            Some(s) => s.spec_bytes() == b@,
            None => !valid_utf8(b@),
        },
{
    std::str::from_utf8(b).ok()
}

/// Writes `m` as the bytes of its wire text.
pub fn encode_bytes(m: &Message) -> (r: Vec<u8>)
    ensures
        r@ == encode_utf8(encoding(m@)),
{
    let text = encode(m);
    text.as_str().as_bytes_vec()
}

/// Reads one message from the bytes of one request.
pub fn decode_bytes(b: &[u8]) -> (r: Result<Message, DecodeError>)
    ensures
        match r {
            Ok(m) => wire_decoding(b@) == Some(m@),
            Err(_) => wire_decoding(b@) is None,
        },
{
    match text_of_bytes(b) {
        None => Err(DecodeError),
        Some(text) => {
            proof {
                encode_utf8_valid_utf8(text@);
                encode_utf8_decode_utf8(text@);
            }
            decode(text)
        },
    }
}

/// Whether the reply to a liveness probe says that the daemon is up.
pub fn confirms_alive(reply: &[u8]) -> (r: bool)
    ensures
        r == (wire_decoding(reply@) == Some(MessageModel::Ack)),
{
    match decode_bytes(reply) {
        Ok(Message::Ack) => true,
        _ => false,
    }
}

#[verifier::rlimit(80)]
proof fn lemma_read_run(info: CommandModel, n: u64, pre: Seq<char>, post: Seq<char>)
    ensures
        ({
            let t = pre + run_body(info, n) + post;
            read_run(t, pre.len() as int, (pre.len() + run_body(info, n).len()) as int)
                == Some((info, n))
        }),
{
    let h = "[{\"crate_name\":"@;
    let c = ",\"command\":"@;
    let e1 = escaped(info.crate_name);
    let e2 = escaped(info.command);
    let d = decimal(n as nat);
    let body = run_body(info, n);
    let t = pre + body + post;
    let a = pre.len() as int;
    let b = a + body.len();
    reveal_strlit("},");
    reveal_strlit("]");
    assert(body =~= h + (seq!['"'] + e1 + seq!['"']) + c + (seq!['"'] + e2 + seq!['"']) + seq!['}', ','] + d
        + seq![']']);
    assert(t.subrange(a, a + h.len()) =~= h);
    let p1 = a + h.len() + 1;
    assert(t[a + h.len()] == '"');
    let rest1 = c + (seq!['"'] + e2 + seq!['"']) + seq!['}', ','] + d + seq![']'] + post;
    assert(t.skip(p1) =~= e1 + seq!['"'] + rest1);
    lemma_read_escaped(info.crate_name, rest1);
    let q1 = p1 + e1.len() + 1;
    assert(t.subrange(q1, q1 + c.len()) =~= c);
    assert(t[q1 + c.len()] == '"');
    let p2 = q1 + c.len() + 1;
    let rest2 = seq!['}', ','] + d + seq![']'] + post;
    assert(t.skip(p2) =~= e2 + seq!['"'] + rest2);
    lemma_read_escaped(info.command, rest2);
    let q2 = p2 + e2.len() + 1;
    lemma_decimal_shape(n as nat);
    assert(t[q2] == '}');
    assert(t[q2 + 1] == ',');
    assert(t[b - 1] == ']');
    assert(t.subrange(q2 + 2, b - 1) =~= d);
    lemma_read_decimal(n);
}

proof fn lemma_fixed_texts()
    ensures
        encoding(MessageModel::Close) == seq!['"', 'C', 'l', 'o', 's', 'e', '"'],
        encoding(MessageModel::Ping) == seq!['"', 'P', 'i', 'n', 'g', '"'],
        encoding(MessageModel::Ack) == seq!['"', 'O', 'k', '"'],
        encoding(MessageModel::Error(StopwatchError::UnexpectedMessage)).len() == 29,
        encoding(MessageModel::Error(StopwatchError::PresenceUpdateFailed)).len() == 32,
        encoding(MessageModel::Error(StopwatchError::ExistingConnection)).len() == 30,
        forall|e: StopwatchError| #[trigger] encoding(MessageModel::Error(e))[0] == '{',
        forall|e: StopwatchError| #[trigger] encoding(MessageModel::Error(e))[2] == 'E',
        "{\"Timeout\":"@ == seq!['{', '"', 'T', 'i', 'm', 'e', 'o', 'u', 't', '"', ':'],
        "{\"Started\":"@ == seq!['{', '"', 'S', 't', 'a', 'r', 't', 'e', 'd', '"', ':'],
        "{\"Stopped\":"@ == seq!['{', '"', 'S', 't', 'o', 'p', 'p', 'e', 'd', '"', ':'],
        "}"@ == seq!['}'],
{
    reveal_strlit("\"Close\"");
    reveal_strlit("\"Ping\"");
    reveal_strlit("\"Ok\"");
    reveal_strlit("{\"Error\":");
    reveal_strlit("\"UnexpectedMessage\"");
    reveal_strlit("\"PresenceUpdateFailed\"");
    reveal_strlit("\"ExistingConnection\"");
    reveal_strlit("{\"Timeout\":");
    reveal_strlit("{\"Started\":");
    reveal_strlit("{\"Stopped\":");
    reveal_strlit("}");
    assert forall|e: StopwatchError| #[trigger] encoding(MessageModel::Error(e))[0] == '{'
        && encoding(MessageModel::Error(e))[2] == 'E' by {
        let w = encoding(MessageModel::Error(e));
        assert(w == "{\"Error\":"@ + error_name(e) + "}"@);
    }
}

/// The wire text of a message that is not fixed: a tag, a body, a closing brace.
proof fn lemma_parse_tagged(m: MessageModel, tag: Seq<char>, body: Seq<char>)
    requires
        tag.len() == 11,
        tag[0] == '{',
        encoding(m) == tag + body + "}"@,
        m is Timeout || m is Started || m is Stopped,
    ensures
        ({
            let t = encoding(m);
            &&& t != encoding(MessageModel::Close)
            &&& t != encoding(MessageModel::Ping)
            &&& t != encoding(MessageModel::Ack)
            &&& forall|e: StopwatchError| t != #[trigger] encoding(MessageModel::Error(e))
            &&& t[t.len() - 1] == '}'
            &&& t.subrange(0, 11) == tag
        }),
{
    lemma_fixed_texts();
    let t = encoding(m);
    assert(t[0] == '{');
    assert(t.subrange(0, 11) =~= tag);
    assert(t[t.len() - 1] == '}');
    assert forall|e: StopwatchError| t != #[trigger] encoding(MessageModel::Error(e)) by {
        let w = encoding(MessageModel::Error(e));
        assert(w[2] == 'E');
        assert(tag[2] == 'T' || tag[2] == 'S') by {
            reveal_strlit("{\"Timeout\":");
            reveal_strlit("{\"Started\":");
            reveal_strlit("{\"Stopped\":");
        }
        assert(t[2] == tag[2]);
    }
}

proof fn lemma_parse_encoding(m: MessageModel)
    ensures
        parse(encoding(m)) == Some(m),
{
    lemma_fixed_texts();
    let t = encoding(m);
    match m {
        MessageModel::Close => {},
        MessageModel::Ping => {
            assert(t.len() != encoding(MessageModel::Close).len());
        },
        MessageModel::Ack => {
            assert(t.len() != encoding(MessageModel::Close).len());
            assert(t.len() != encoding(MessageModel::Ping).len());
        },
        MessageModel::Error(e) => {
            assert(t[0] != encoding(MessageModel::Close)[0]);
            assert(t[0] != encoding(MessageModel::Ping)[0]);
            assert(t[0] != encoding(MessageModel::Ack)[0]);
        },
        MessageModel::Timeout(n) => {
            let tag = "{\"Timeout\":"@;
            lemma_parse_tagged(m, tag, decimal(n as nat));
            lemma_decimal_shape(n as nat);
            assert(t.subrange(11, t.len() - 1) =~= decimal(n as nat));
            lemma_read_decimal(n);
        },
        MessageModel::Started(info, n) => {
            let tag = "{\"Started\":"@;
            lemma_parse_tagged(m, tag, run_body(info, n));
            lemma_read_run(info, n, tag, "}"@);
            assert(t.subrange(0, 11) != "{\"Timeout\":"@) by {
                assert(t.subrange(0, 11)[2] != "{\"Timeout\":"@[2]);
            }
        },
        MessageModel::Stopped(info, n) => {
            let tag = "{\"Stopped\":"@;
            lemma_parse_tagged(m, tag, run_body(info, n));
            lemma_read_run(info, n, tag, "}"@);
            assert(t.subrange(0, 11) != "{\"Timeout\":"@) by {
                assert(t.subrange(0, 11)[2] != "{\"Timeout\":"@[2]);
            }
            assert(t.subrange(0, 11) != "{\"Started\":"@) by {
                assert(t.subrange(0, 11)[4] != "{\"Started\":"@[4]);
            }
        },
    }
}

/// Decoding the wire text of any message gives that message back.
pub proof fn lemma_round_trip(m: MessageModel)
    ensures
        decoding(encoding(m)) == Some(m),
{
    lemma_parse_encoding(m);
}

/// Only the exact wire text of a message decodes, and it decodes to that message.
pub proof fn lemma_decoding_exact(t: Seq<char>, m: MessageModel)
    ensures
        decoding(t) == Some(m) <==> encoding(m) == t,
{
    if encoding(m) == t {
        lemma_parse_encoding(m);
    }
}

/// The bytes written for any message are read back as that message.
pub proof fn lemma_round_trip_bytes(m: MessageModel)
    ensures
        wire_decoding(encode_utf8(encoding(m))) == Some(m),
{
    encode_utf8_valid_utf8(encoding(m));
    encode_utf8_decode_utf8(encoding(m));
    lemma_parse_encoding(m);
}

} // verus!
