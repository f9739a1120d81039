//! Presentation derivation: classifying a message body as plain text or an
//! attachment, and synthesising an avatar URL from a username.

use vstd::prelude::*;
use vstd::utf8::encode_scalar;
use crate::text::push_char;

verus! {

/// How a message body is rendered: inline text, or an image attachment.
#[derive(Clone, Copy, PartialEq, Eq, Structural, Debug)]
pub enum MessageKind {
    Text,
    Attachment,
}

/// True when `s` ends with the literal suffix `.gif` (case-sensitive).
pub open spec fn ends_with_gif(s: Seq<char>) -> bool {
    s.len() >= 4 && s.subrange(s.len() - 4, s.len() as int) == ".gif"@
}

/// A body is an attachment exactly when it ends with `.gif`; anything else,
/// including other capitalisations, is plain text.
pub fn classify(body: &str) -> (k: MessageKind)
    ensures
        k == (if ends_with_gif(body@) {
            MessageKind::Attachment
        } else {
            MessageKind::Text
        }),
{
    proof {
        reveal_strlit(".gif");
    }
    let n = body.unicode_len();
    if n >= 4 {
        let c0 = body.get_char(n - 4);
        let c1 = body.get_char(n - 3);
        let c2 = body.get_char(n - 2);
        let c3 = body.get_char(n - 1);
        if c0 == '.' && c1 == 'g' && c2 == 'i' && c3 == 'f' {
            proof {
                assert(body@.subrange(body@.len() - 4, body@.len() as int) =~= ".gif"@);
            }
            MessageKind::Attachment
        } else {
            proof {
                assert(body@.subrange(body@.len() - 4, body@.len() as int) != ".gif"@) by {
                    if body@.subrange(body@.len() - 4, body@.len() as int) == ".gif"@ {
                        assert(body@.subrange(body@.len() - 4, body@.len() as int)[0] == '.');
                        assert(body@.subrange(body@.len() - 4, body@.len() as int)[1] == 'g');
                        assert(body@.subrange(body@.len() - 4, body@.len() as int)[2] == 'i');
                        assert(body@.subrange(body@.len() - 4, body@.len() as int)[3] == 'f');
                    }
                }
            }
            MessageKind::Text
        }
    } else {
        MessageKind::Text
    }
}

/// Characters that appear unchanged in a URL path segment.
pub open spec fn is_unreserved(c: char) -> bool {
    ('a' <= c && c <= 'z') || ('A' <= c && c <= 'Z') || ('0' <= c && c <= '9') || c == '-' || c
        == '_' || c == '.' || c == '~'
}

/// The upper-case hexadecimal digit for a value below sixteen.
pub open spec fn hex_digit(n: int) -> char {
    if n == 0 { '0' } else if n == 1 { '1' } else if n == 2 { '2' } else if n == 3 { '3' }
    else if n == 4 { '4' } else if n == 5 { '5' } else if n == 6 { '6' } else if n == 7 { '7' }
    else if n == 8 { '8' } else if n == 9 { '9' } else if n == 10 { 'A' } else if n == 11 { 'B' }
    else if n == 12 { 'C' } else if n == 13 { 'D' } else if n == 14 { 'E' } else { 'F' }
}

/// `%XY` escapes, one per byte.
pub open spec fn pct_bytes(bs: Seq<u8>) -> Seq<char>
    decreases bs.len(),
{
    if bs.len() == 0 {
        Seq::empty()
    } else {
        seq!['%', hex_digit(bs[0] as int / 16), hex_digit(bs[0] as int % 16)] + pct_bytes(bs.drop_first())
    }
}

/// A character as it appears in a percent-encoded path segment: unreserved
/// characters stand for themselves, every other character becomes the `%XY`
/// escapes of its UTF-8 bytes.
pub open spec fn percent_encode_char(c: char) -> Seq<char> {
    if is_unreserved(c) {
        seq![c]
    } else {
        pct_bytes(encode_scalar(c as u32))
    }
}

/// The percent-encoded form of a string, character by character.
pub open spec fn percent_encode(s: Seq<char>) -> Seq<char>
    decreases s.len(),
{
    if s.len() == 0 {
        Seq::empty()
    } else {
        percent_encode_char(s[0]) + percent_encode(s.drop_first())
    }
}

/// The avatar service prefix shared by every derived avatar URL.
pub open spec fn avatar_prefix() -> Seq<char> {
    "https://avatars.dicebear.com/api/adventurer-neutral/"@
}

/// The avatar URL derived from a username: the service prefix, the
/// percent-encoded username, and the `.svg` extension.
pub open spec fn avatar_url(name: Seq<char>) -> Seq<char> {
    avatar_prefix() + percent_encode(name) + ".svg"@
}

proof fn lemma_percent_encode_snoc(s: Seq<char>, c: char)
    ensures
        percent_encode(s.push(c)) == percent_encode(s) + percent_encode_char(c),
    decreases s.len(),
{
    if s.len() == 0 {
        assert(s.push(c).drop_first() =~= Seq::<char>::empty());
        assert(s.push(c)[0] == c);
        assert(percent_encode(s.push(c).drop_first()) == Seq::<char>::empty());
        assert(percent_encode(s.push(c)) == percent_encode_char(c) + Seq::<char>::empty());
        assert(percent_encode(s.push(c)) =~= percent_encode(s) + percent_encode_char(c));
    } else {
        assert(s.push(c).drop_first() =~= s.drop_first().push(c));
        assert(s.push(c)[0] == s[0]);
        lemma_percent_encode_snoc(s.drop_first(), c);
        assert(percent_encode(s.push(c)) == percent_encode_char(s[0]) + (percent_encode(
            s.drop_first(),
        ) + percent_encode_char(c)));
        assert(percent_encode(s.push(c)) =~= percent_encode(s) + percent_encode_char(c));
    }
}

fn exec_hex_digit(n: u8) -> (c: char)
    requires
        n < 16,
    ensures
        c == hex_digit(n as int),
{
    if n == 0 { '0' } else if n == 1 { '1' } else if n == 2 { '2' } else if n == 3 { '3' }
    else if n == 4 { '4' } else if n == 5 { '5' } else if n == 6 { '6' } else if n == 7 { '7' }
    else if n == 8 { '8' } else if n == 9 { '9' } else if n == 10 { 'A' } else if n == 11 { 'B' }
    else if n == 12 { 'C' } else if n == 13 { 'D' } else if n == 14 { 'E' } else { 'F' }
}

fn exec_is_unreserved(c: char) -> (r: bool)
    ensures
        r == is_unreserved(c),
{
    ('a' <= c && c <= 'z') || ('A' <= c && c <= 'Z') || ('0' <= c && c <= '9') || c == '-' || c
        == '_' || c == '.' || c == '~'
}

/// The UTF-8 bytes of one character, most significant first.
fn utf8_bytes(c: char) -> (r: Vec<u8>)
    ensures
        r@ == encode_scalar(c as u32),
{
    proof {
        vstd::utf8::char_is_scalar(c);
    }
    let u = c as u32;
    let mut r: Vec<u8> = Vec::new();
    if u <= 0x7F {
        r.push((u & 0x7F) as u8);
    } else if u <= 0x7FF {
        r.push(0xC0u8 | ((u >> 6) & 0x1F) as u8);
        r.push(0x80u8 | (u & 0x3F) as u8);
    } else if u <= 0xFFFF {
        r.push(0xE0u8 | ((u >> 12) & 0x0F) as u8);
        r.push(0x80u8 | ((u >> 6) & 0x3F) as u8);
        r.push(0x80u8 | (u & 0x3F) as u8);
    } else {
        r.push(0xF0u8 | ((u >> 18) & 0x7) as u8);
        r.push(0x80u8 | ((u >> 12) & 0x3F) as u8);
        r.push(0x80u8 | ((u >> 6) & 0x3F) as u8);
        r.push(0x80u8 | (u & 0x3F) as u8);
    }
    proof {
        assert(r@ =~= encode_scalar(c as u32));
    }
    r
}

fn push_pct_byte(out: &mut String, b: u8)
    ensures
        final(out)@ == old(out)@ + seq!['%', hex_digit(b as int / 16), hex_digit(b as int % 16)],
{
    push_char(out, '%');
    push_char(out, exec_hex_digit(b / 16));
    push_char(out, exec_hex_digit(b % 16));
    proof {
        assert(out@ =~= old(out)@ + seq!['%', hex_digit(b as int / 16), hex_digit(b as int % 16)]);
    }
}

/// The derived avatar URL for a username. Usernames made of URL-unsafe
/// characters are percent-encoded into the path segment.
pub fn derive_avatar(name: &str) -> (r: String)
    ensures
        r@ == avatar_url(name@),
{
    let mut out = String::from_str("https://avatars.dicebear.com/api/adventurer-neutral/");
    let chars = crate::text::str_chars(name);
    let mut i: usize = 0;
    while i < chars.len()
        invariant
            i <= chars@.len(),
            chars@ == name@,
            out@ == avatar_prefix() + percent_encode(name@.take(i as int)),
        decreases chars@.len() - i,
    {
        let c = chars[i];
        if exec_is_unreserved(c) {
            push_char(&mut out, c);
        } else {
            let bs = utf8_bytes(c);
            let ghost done: Seq<u8> = bs@;
            let mut j: usize = 0;
            let ghost out_before = out@;
            while j < bs.len()
                invariant
                    j <= bs@.len(),
                    bs@ == done,
                    out@ == out_before + pct_bytes(done.take(j as int)),
                decreases bs@.len() - j,
            {
                let b = bs[j];
                push_pct_byte(&mut out, b);
                j = j + 1;
                proof {
                    lemma_pct_bytes_snoc(done.take(j as int - 1), b);
                    assert(done.take(j as int) =~= done.take(j as int - 1).push(b));
                }
            }
            proof {
                assert(done.take(done.len() as int) =~= done);
            }
        }
        i = i + 1;
        proof {
            assert(name@.take(i as int) =~= name@.take(i as int - 1).push(name@[i as int - 1]));
            lemma_percent_encode_snoc(name@.take(i as int - 1), name@[i as int - 1]);
        }
    }
    proof {
        assert(name@.take(name@.len() as int) =~= name@);
    }
    out.append(".svg");
    proof {
        assert(out@ =~= avatar_url(name@));
    }
    out
}

proof fn lemma_pct_bytes_snoc(bs: Seq<u8>, b: u8)
    ensures
        pct_bytes(bs.push(b)) == pct_bytes(bs) + seq![
            '%',
            hex_digit(b as int / 16),
            hex_digit(b as int % 16),
        ],
    decreases bs.len(),
{
    let pct = seq!['%', hex_digit(b as int / 16), hex_digit(b as int % 16)];
    if bs.len() == 0 {
        assert(bs.push(b).drop_first() =~= Seq::<u8>::empty());
        assert(bs.push(b)[0] == b);
        assert(pct_bytes(bs.push(b).drop_first()) == Seq::<char>::empty());
        assert(pct_bytes(bs.push(b)) == pct + Seq::<char>::empty());
        assert(pct_bytes(bs.push(b)) =~= pct_bytes(bs) + pct);
    } else {
        assert(bs.push(b).drop_first() =~= bs.drop_first().push(b));
        assert(bs.push(b)[0] == bs[0]);
        lemma_pct_bytes_snoc(bs.drop_first(), b);
        assert(pct_bytes(bs.push(b)) == seq![
            '%',
            hex_digit(bs[0] as int / 16),
            hex_digit(bs[0] as int % 16),
        ] + (pct_bytes(bs.drop_first()) + pct));
        assert(pct_bytes(bs.push(b)) =~= pct_bytes(bs) + pct);
    }
}

/// Law: a username made only of unreserved characters appears verbatim as a
/// segment of its avatar URL, between the service prefix and the `.svg`
/// extension.
pub proof fn lemma_avatar_contains_plain_username(name: Seq<char>)
    requires
        forall|i: int| 0 <= i < name.len() ==> is_unreserved(name[i]),
    ensures
        avatar_url(name) == avatar_prefix() + name + ".svg"@,
    decreases name.len(),
{
    lemma_percent_encode_plain(name);
}

proof fn lemma_percent_encode_plain(name: Seq<char>)
    requires
        forall|i: int| 0 <= i < name.len() ==> is_unreserved(name[i]),
    ensures
        percent_encode(name) == name,
    decreases name.len(),
{
    if name.len() == 0 {
        assert(percent_encode(name) =~= name);
    } else {
        assert(is_unreserved(name[0]));
        lemma_percent_encode_plain(name.drop_first());
        assert(percent_encode(name) =~= name);
    }
}

} // verus!
