use vstd::prelude::*;
use vstd::string::*;
use vstd::utf8::{char_is_scalar, char_u32_cast, encode_scalar, encode_utf8};

use crate::text::{
    ascii_lower_code, char_is_whitespace, eq_ignore_ascii_case, has_prefix, is_white_space,
    law_trimmed, law_trimmed_padding, str_strip_prefix, str_trim, trim_end, trim_start, trimmed,
};

verus! {

/// The text that opens a nickname handshake line.
pub const NICK_PREFIX: &'static str = "NICK:";

/// The characters of `NICK_PREFIX`.
pub open spec fn nick_prefix() -> Seq<char> {
    seq!['N', 'I', 'C', 'K', ':']
}

/// The handshake line that announces `name`.
pub open spec fn handshake_line(name: Seq<char>) -> Seq<char> {
    nick_prefix() + name
}

/// The longest nickname, in bytes of its UTF-8 encoding.
pub open spec fn max_nickname_bytes() -> nat {
    32
}

/// A character that may stand in a nickname.
pub open spec fn nickname_char(c: char) -> bool {
    !is_white_space(c) && c != '[' && c != ']'
}

/// A nickname is valid when, once trimmed, it is not empty, takes at most
/// `max_nickname_bytes()` bytes, and holds no white space and no square bracket.
pub open spec fn valid_nickname(name: Seq<char>) -> bool {
    let t = trimmed(name);
    &&& t.len() > 0
    &&& encode_utf8(t).len() <= max_nickname_bytes()
    &&& forall|i: int| 0 <= i < t.len() ==> nickname_char(#[trigger] t[i])
}

/// The word that ends a session when typed on its own line.
pub open spec fn exit_word() -> Seq<char> {
    seq!['e', 'x', 'i', 't']
}

/// `line`, once trimmed, is the word `exit` in any mix of ASCII letter case.
pub open spec fn is_exit_line(line: Seq<char>) -> bool {
    let t = trimmed(line);
    &&& t.len() == exit_word().len()
    &&& forall|i: int| 0 <= i < t.len() ==> eq_ignore_ascii_case(#[trigger] t[i], exit_word()[i])
}

/// The line shown to everyone when `sender` says `message`: the sender in
/// square brackets, a space, then the message.
pub open spec fn chat_text(sender: Seq<char>, message: Seq<char>) -> Seq<char> {
    seq!['['] + sender + seq![']', ' '] + message
}

/// `message` as it travels on the wire: followed by a line feed.
pub open spec fn wire_text(message: Seq<char>) -> Seq<char> {
    message.push('\n')
}

/// Builds the line shown to everyone when `sender` says `message`.
pub fn chat_line(sender: &str, message: &str) -> (line: String)
    ensures
        line@ == chat_text(sender@, message@),
        line@.len() == sender@.len() + message@.len() + 3,
        line@.skip(sender@.len() + 3 as int) == message@,
{
    proof {
        reveal_strlit("[");
        reveal_strlit("] ");
    }
    let mut line = String::from_str("[");
    line.append(sender);
    line.append("] ");
    line.append(message);
    proof {
        law_chat_text(sender@, message@);
    }
    line
}

/// Builds the text that carries `message` on a connection.
pub fn wire_line(message: &str) -> (line: String)
    ensures
        line@ == wire_text(message@),
{
    proof {
        reveal_strlit("\n");
    }
    let mut line = String::from_str(message);
    line.append("\n");
    proof {
        assert(line@ =~= wire_text(message@));
    }
    line
}

/// Builds the line a client sends to announce its nickname.
pub fn nickname_handshake(name: &str) -> (line: String)
    ensures
        line@ == handshake_line(name@),
{
    proof {
        reveal_strlit("NICK:");
    }
    let mut line = String::from_str(NICK_PREFIX);
    line.append(name);
    line
}

/// Reads a handshake line: the announced name when `line` begins with
/// `NICK_PREFIX`, `None` otherwise.
pub fn parse_nickname_handshake(line: &str) -> (name: Option<&str>)
    ensures
        match name {
            Some(n) => line@ == handshake_line(n@),
            None => !has_prefix(line@, nick_prefix()),
        },
{
    proof {
        reveal_strlit("NICK:");
        assert(NICK_PREFIX@ == "NICK:"@);
        assert("NICK:"@ =~= nick_prefix());
    }
    str_strip_prefix(line, NICK_PREFIX)
}

/// Tells whether `name` may serve as a nickname.
pub fn is_valid_nickname(name: &str) -> (valid: bool)
    ensures
        valid == valid_nickname(name@),
{
    let t = str_trim(name);
    if t.is_empty() {
        return false;
    }
    let mut bytes: usize = 0;
    let mut too_long = false;
    let mut allowed = true;
    for c in it: t.chars()
        invariant
            it.seq() == t@,
            too_long == (encode_utf8(t@.take(it.index() as int)).len() > max_nickname_bytes()),
            !too_long ==> bytes == encode_utf8(t@.take(it.index() as int)).len(),
            allowed == forall|j: int| 0 <= j < it.index() ==> nickname_char(#[trigger] t@[j]),
    {
        proof {
            let k = it.index() as int;
            assert(t@.take(k + 1) =~= t@.take(k) + seq![c]);
            lemma_encode_utf8_concat(t@.take(k), seq![c]);
            assert(encode_utf8(seq![c]) =~= encode_scalar(c as u32)) by {
                let one = seq![c];
                assert(one[0] == c);
                assert(one.drop_first() =~= Seq::<char>::empty());
                assert(encode_utf8(one.drop_first()) =~= Seq::<u8>::empty());
            }
        }
        if !too_long {
            let w = utf8_width(c);
            if bytes + w > 32 {
                too_long = true;
            } else {
                bytes = bytes + w;
            }
        }
        if char_is_whitespace(c) || c == '[' || c == ']' {
            allowed = false;
        }
    }
    proof {
        assert(t@.take(t@.len() as int) =~= t@);
    }
    !too_long && allowed
}

/// Tells whether `line` asks to leave the session: `exit` with white space
/// around it allowed and ASCII letter case ignored.
pub fn is_exit_command(line: &str) -> (exit: bool)
    ensures
        exit == is_exit_line(line@),
{
    let t = str_trim(line);
    let mut seen: usize = 0;
    let mut matching = true;
    for c in it: t.chars()
        invariant
            it.seq() == t@,
            seen == if it.index() <= 4 { it.index() as int } else { 5 },
            matching == (it.index() <= 4 && forall|j: int|
                0 <= j < it.index() ==> eq_ignore_ascii_case(#[trigger] t@[j], exit_word()[j])),
    {
        if seen < 4 {
            let (lower, upper) = exit_letter(seen);
            proof {
                assert(ascii_lower_code(lower) == lower as int);
                assert(eq_ignore_ascii_case(c, lower) == (c == lower || c == upper));
            }
            if !(c == lower || c == upper) {
                matching = false;
            }
            seen = seen + 1;
        } else {
            matching = false;
            seen = 5;
        }
    }
    matching && seen == 4
}

/// The letter of `exit` at position `i`, in lower and in upper case.
fn exit_letter(i: usize) -> (letter: (char, char))
    requires
        i < 4,
    ensures
        letter.0 == exit_word()[i as int],
        'a' <= letter.0 <= 'z',
        letter.1 as int == letter.0 as int - 32,
{
    if i == 0 {
        ('e', 'E')
    } else if i == 1 {
        ('x', 'X')
    } else if i == 2 {
        ('i', 'I')
    } else {
        ('t', 'T')
    }
}

/// The number of bytes in the UTF-8 encoding of `c`.
fn utf8_width(c: char) -> (w: usize)
    ensures
        w == encode_scalar(c as u32).len(),
        1 <= w <= 4,
{
    proof {
        char_is_scalar(c);
    }
    let u = c as u32;
    if u <= 0x7F {
        1
    } else if u <= 0x7FF {
        2
    } else if u <= 0xFFFF {
        3
    } else {
        4
    }
}

/// UTF-8 encodes a concatenation piece by piece.
proof fn lemma_encode_utf8_concat(a: Seq<char>, b: Seq<char>)
    ensures
        encode_utf8(a + b) == encode_utf8(a) + encode_utf8(b),
    decreases a.len(),
{
    if a.len() == 0 {
        assert(a + b =~= b);
        assert(encode_utf8(a) + encode_utf8(b) =~= encode_utf8(b));
    } else {
        assert((a + b).drop_first() =~= a.drop_first() + b);
        assert((a + b)[0] == a[0]);
        lemma_encode_utf8_concat(a.drop_first(), b);
        assert(encode_utf8(a + b) =~= encode_utf8(a) + encode_utf8(b));
    }
}

/// A handshake line begins with `NICK_PREFIX`, and the name it carries is the
/// one it was built from: reading back a built handshake gives the name.
pub proof fn law_handshake_round_trip(name: Seq<char>, parsed: Seq<char>)
    ensures
        has_prefix(handshake_line(name), nick_prefix()),
        handshake_line(parsed) == handshake_line(name) ==> parsed == name,
{
    let line = handshake_line(name);
    assert(line.subrange(0, 5) =~= nick_prefix());
    if handshake_line(parsed) == handshake_line(name) {
        assert(parsed =~= handshake_line(parsed).skip(5));
        assert(name =~= line.skip(5));
    }
}

/// A valid nickname is its own trimmed form, and that form is valid too: the
/// name a client ends up with is itself a valid nickname.
pub proof fn law_valid_nickname_trimmed(name: Seq<char>)
    requires
        valid_nickname(name),
    ensures
        trimmed(trimmed(name)) == trimmed(name),
        valid_nickname(trimmed(name)),
{
    let t = trimmed(name);
    assert(nickname_char(t[0]));
    assert(trim_start(t) == t);
    assert(nickname_char(t[t.len() - 1]));
    assert(trim_end(t) == t);
}

/// A chat line is `[`, the whole sender, `] `, then the whole message, with
/// nothing cut and nothing added.
pub proof fn law_chat_text(sender: Seq<char>, message: Seq<char>)
    ensures
        chat_text(sender, message).len() == sender.len() + message.len() + 3,
        chat_text(sender, message)[0] == '[',
        chat_text(sender, message).subrange(1, sender.len() + 1 as int) == sender,
        chat_text(sender, message)[sender.len() + 1 as int] == ']',
        chat_text(sender, message)[sender.len() + 2 as int] == ' ',
        chat_text(sender, message).skip(sender.len() + 3 as int) == message,
{
    let line = chat_text(sender, message);
    assert(line.subrange(1, sender.len() + 1 as int) =~= sender);
    assert(line.skip(sender.len() + 3 as int) =~= message);
}

/// A wire line is the whole message followed by one line feed.
pub proof fn law_wire_text(message: Seq<char>)
    ensures
        wire_text(message).len() == message.len() + 1,
        wire_text(message).take(message.len() as int) == message,
        wire_text(message)[message.len() as int] == '\n',
{
    assert(wire_text(message).take(message.len() as int) =~= message);
}

/// A handshake line is the five characters `NICK:` followed by the whole name.
pub proof fn law_handshake_line(name: Seq<char>)
    ensures
        handshake_line(name).len() == name.len() + 5,
        handshake_line(name).take(5) == seq!['N', 'I', 'C', 'K', ':'],
        handshake_line(name).skip(5) == name,
{
    assert(handshake_line(name).take(5) =~= seq!['N', 'I', 'C', 'K', ':']);
    assert(handshake_line(name).skip(5) =~= name);
}

/// A printable ASCII character other than a square bracket.
pub open spec fn plain_ascii(c: char) -> bool {
    '!' <= c <= '~' && c != '[' && c != ']'
}

/// Every name of one to 32 printable ASCII characters without square brackets
/// is a valid nickname, whatever its letters and their case, and so is the
/// same name with white space around it.
pub proof fn law_nickname_accepts(before: Seq<char>, name: Seq<char>, after: Seq<char>)
    requires
        1 <= name.len() <= 32,
        forall|i: int| 0 <= i < name.len() ==> plain_ascii(#[trigger] name[i]),
        forall|j: int| 0 <= j < before.len() ==> is_white_space(#[trigger] before[j]),
        forall|j: int| 0 <= j < after.len() ==> is_white_space(#[trigger] after[j]),
    ensures
        valid_nickname(name),
        valid_nickname(before + name + after),
{
    assert(plain_ascii(name[0]));
    assert(plain_ascii(name[name.len() - 1]));
    law_trimmed_padding(before, name, after);
    let empty = Seq::<char>::empty();
    assert(empty + name + empty =~= name);
    law_trimmed_padding(empty, name, empty);
    assert forall|i: int| 0 <= i < name.len() implies (#[trigger] name[i]) as u32 <= 0x7F by {
        assert(plain_ascii(name[i]));
    }
    lemma_ascii_encoding_length(name);
}

/// Each ASCII character takes one byte.
proof fn lemma_ascii_encoding_length(s: Seq<char>)
    requires
        forall|i: int| 0 <= i < s.len() ==> (#[trigger] s[i]) as u32 <= 0x7F,
    ensures
        encode_utf8(s).len() == s.len(),
    decreases s.len(),
{
    if s.len() > 0 {
        assert(s[0] as u32 <= 0x7F);
        assert(forall|i: int| 0 <= i < s.drop_first().len() ==> #[trigger] s.drop_first()[i] == s[i + 1]);
        lemma_ascii_encoding_length(s.drop_first());
    }
}

/// Each character takes at least one byte.
proof fn lemma_encoding_at_least_length(s: Seq<char>)
    ensures
        encode_utf8(s).len() >= s.len(),
    decreases s.len(),
{
    if s.len() > 0 {
        char_is_scalar(s[0]);
        lemma_encoding_at_least_length(s.drop_first());
    }
}

/// A name with a square bracket anywhere, or with white space between two other
/// characters, is never a valid nickname; nor is one with no character but
/// white space, or with more than 32 characters besides its surrounding white
/// space.
pub proof fn law_nickname_rejects(name: Seq<char>, i: int, j: int, k: int)
    ensures
        0 <= i < name.len() && (name[i] == '[' || name[i] == ']') ==> !valid_nickname(name),
        0 <= i < j < k < name.len() && !is_white_space(name[i]) && is_white_space(name[j])
            && !is_white_space(name[k]) ==> !valid_nickname(name),
        (forall|m: int| 0 <= m < name.len() ==> is_white_space(#[trigger] name[m]))
            ==> !valid_nickname(name),
        valid_nickname(name) ==> trimmed(name).len() <= 32,
{
    let (lo, hi) = law_trimmed(name);
    let t = trimmed(name);
    if 0 <= i < name.len() && (name[i] == '[' || name[i] == ']') {
        assert(lo <= i < hi);
        assert(t[i - lo] == name[i]);
    }
    if 0 <= i < j < k < name.len() && !is_white_space(name[i]) && is_white_space(name[j])
        && !is_white_space(name[k]) {
        assert(lo <= i < hi);
        assert(lo <= k < hi);
        assert(t[j - lo] == name[j]);
    }
    if forall|m: int| 0 <= m < name.len() ==> is_white_space(#[trigger] name[m]) {
        if lo < hi {
            assert(is_white_space(name[lo]));
        }
    }
    lemma_encoding_at_least_length(t);
}

/// `exit` in any mix of ASCII case, with any white space around it, ends a
/// session.
pub proof fn law_exit_accepts(before: Seq<char>, word: Seq<char>, after: Seq<char>)
    requires
        word.len() == 4,
        word[0] == 'e' || word[0] == 'E',
        word[1] == 'x' || word[1] == 'X',
        word[2] == 'i' || word[2] == 'I',
        word[3] == 't' || word[3] == 'T',
        forall|j: int| 0 <= j < before.len() ==> is_white_space(#[trigger] before[j]),
        forall|j: int| 0 <= j < after.len() ==> is_white_space(#[trigger] after[j]),
    ensures
        is_exit_line(before + word + after),
{
    law_trimmed_padding(before, word, after);
}

/// A line that ends a session holds exactly four characters that are not white
/// space, side by side: any two of them are less than four positions apart, so
/// a line with any other text in it is never an exit command.
pub proof fn law_exit_rejects(line: Seq<char>, i: int, j: int)
    requires
        is_exit_line(line),
        0 <= i < line.len(),
        0 <= j < line.len(),
        !is_white_space(line[i]),
        !is_white_space(line[j]),
    ensures
        trimmed(line).len() == 4,
        trimmed(line)[0] == 'e' || trimmed(line)[0] == 'E',
        trimmed(line)[1] == 'x' || trimmed(line)[1] == 'X',
        trimmed(line)[2] == 'i' || trimmed(line)[2] == 'I',
        trimmed(line)[3] == 't' || trimmed(line)[3] == 'T',
        i - j <= 3,
        j - i <= 3,
{
    let t = trimmed(line);
    assert(eq_ignore_ascii_case(t[0], exit_word()[0]));
    assert(eq_ignore_ascii_case(t[1], exit_word()[1]));
    assert(eq_ignore_ascii_case(t[2], exit_word()[2]));
    assert(eq_ignore_ascii_case(t[3], exit_word()[3]));
    let (lo, hi) = law_trimmed(line);
    assert(lo <= i < hi);
    assert(lo <= j < hi);
}

} // verus!
