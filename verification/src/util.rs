//! Commit anchors.
//!
//! An anchor is a commit hash in one fixed form: 64 lower-case hexadecimal
//! digits. A SHA-256 hash is its own anchor; a SHA-1 hash of 40 digits is padded
//! at its end with 24 zeros. The SHA-1 hash is read back as the first 40 digits
//! of its anchor.

use crate::text::{chars_of, decimal, decimal_of, string_of, subvec, trim, trimmed};
use vstd::prelude::*;
use vstd::string::StringExecFns;
use vstd::utf8::encode_utf8;

verus! {

/// Whether a character is a hexadecimal digit, in either case.
pub open spec fn is_hex_digit(c: char) -> bool {
    ('0' <= c <= '9') || ('a' <= c <= 'f') || ('A' <= c <= 'F')
}

/// Whether all characters are hexadecimal digits.
pub open spec fn all_hex(s: Seq<char>) -> bool {
    forall|i: int| 0 <= i < s.len() ==> is_hex_digit(#[trigger] s[i])
}

/// The lower-case form of an ASCII letter; any other character is itself.
pub open spec fn ascii_lower(c: char) -> char {
    if 'A' <= c <= 'Z' {
        ((c as u8) + 32) as char
    } else {
        c
    }
}

/// The text with its ASCII letters in lower case.
pub open spec fn ascii_lowered(s: Seq<char>) -> Seq<char> {
    Seq::new(s.len(), |i: int| ascii_lower(s[i]))
}

/// `n` zeros.
pub open spec fn zeros(n: nat) -> Seq<char> {
    Seq::new(n, |i: int| '0')
}

/// The anchor of a commit hash, or why it has none.
pub open spec fn anchor_of(commit: Seq<char>) -> Result<Seq<char>, Seq<char>> {
    let v = trimmed(commit);
    if !all_hex(v) {
        Err("Invalid commit hash: contains non-hex characters: "@ + v)
    } else if v.len() == 64 {
        Ok(ascii_lowered(v))
    } else if v.len() == 40 {
        Ok(ascii_lowered(v) + zeros(24))
    } else {
        Err("Invalid commit hash length: "@ + decimal(v.len()))
    }
}

/// The SHA-1 hash of an anchor, or why it has none. The length that is tested,
/// and reported, is that of the trimmed text in bytes.
pub open spec fn sha1_of(anchor: Seq<char>) -> Result<Seq<char>, Seq<char>> {
    let v = trimmed(anchor);
    if encode_utf8(v).len() != 64 {
        Err("Invalid anchor length: "@ + decimal(encode_utf8(v).len()))
    } else if !all_hex(v) {
        Err("Invalid anchor: contains non-hex characters: "@ + v)
    } else {
        Ok(v.take(40))
    }
}

fn hex_digit(c: char) -> (r: bool)
    ensures
        r == is_hex_digit(c),
{
    ('0' <= c && c <= '9') || ('a' <= c && c <= 'f') || ('A' <= c && c <= 'F')
}

fn only_hex(v: &Vec<char>) -> (r: bool)
    ensures
        r == all_hex(v@),
{
    let mut i: usize = 0;
    while i < v.len()
        invariant
            i <= v.len(),
            forall|j: int| 0 <= j < i ==> is_hex_digit(#[trigger] v@[j]),
        decreases v.len() - i,
    {
        if !hex_digit(v[i]) {
            return false;
        }
        i += 1;
    }
    true
}

fn lower(c: char) -> (r: char)
    ensures
        r == ascii_lower(c),
{
    if 'A' <= c && c <= 'Z' {
        let b: u8 = c as u8;
        (b + 32) as char
    } else {
        c
    }
}

fn message(prefix: &str, rest: &Vec<char>) -> (r: String)
    ensures
        r@ == prefix@ + rest@,
{
    let mut r = prefix.to_owned();
    let tail = string_of(rest);
    r.append(tail.as_str());
    r
}

/// Brings a commit hash into anchor form.
///
/// The hash is trimmed. It must consist of hexadecimal digits only, and of 64
/// of them (SHA-256) or 40 (SHA-1). Letters come out in lower case; a SHA-1 hash
/// is followed by 24 zeros.
pub fn normalize_commit_anchor(commit: &str) -> (r: Result<String, String>)
    ensures
        match r {
            Ok(a) => anchor_of(commit@) == Ok::<Seq<char>, Seq<char>>(a@),
            Err(e) => anchor_of(commit@) == Err::<Seq<char>, Seq<char>>(e@),
        },
{
    let all = chars_of(commit);
    let v = trim(&all);
    if !only_hex(&v) {
        return Err(message("Invalid commit hash: contains non-hex characters: ", &v));
    }
    if v.len() != 64 && v.len() != 40 {
        return Err(message("Invalid commit hash length: ", &decimal_of(v.len())));
    }
    let mut out: Vec<char> = Vec::new();
    let mut i: usize = 0;
    while i < v.len()
        invariant
            i <= v.len(),
            out@ == ascii_lowered(v@).take(i as int),
        decreases v.len() - i,
    {
        out.push(lower(v[i]));
        proof {
            assert(ascii_lowered(v@).take(i + 1) =~= ascii_lowered(v@).take(i as int).push(
                ascii_lower(v@[i as int]),
            ));
        }
        i += 1;
    }
    proof {
        assert(ascii_lowered(v@).take(v.len() as int) =~= ascii_lowered(v@));
        assert(out@ + zeros(0) =~= out@);
    }
    let mut k: usize = 0;
    let pad: usize = 64 - v.len();
    while k < pad
        invariant
            k <= pad,
            pad == 64 - v.len(),
            out@ == ascii_lowered(v@) + zeros(k as nat),
        decreases pad - k,
    {
        out.push('0');
        proof {
            assert(zeros((k + 1) as nat) =~= zeros(k as nat).push('0'));
            assert((ascii_lowered(v@) + zeros(k as nat)).push('0') =~= ascii_lowered(v@)
                + zeros((k + 1) as nat));
        }
        k += 1;
    }
    proof {
        assert(ascii_lowered(v@) + zeros(0) =~= ascii_lowered(v@));
    }
    Ok(string_of(&out))
}

/// Reads the SHA-1 hash back from an anchor: the first 40 digits of the
/// trimmed anchor, which must be 64 bytes long and hold hexadecimal digits
/// only.
pub fn extract_sha1_from_anchor(anchor64: &str) -> (r: Result<String, String>)
    ensures
        match r {
            Ok(a) => sha1_of(anchor64@) == Ok::<Seq<char>, Seq<char>>(a@),
            Err(e) => sha1_of(anchor64@) == Err::<Seq<char>, Seq<char>>(e@),
        },
{
    let all = chars_of(anchor64);
    let v = trim(&all);
    let text = string_of(&v);
    let bytes = text.as_str().as_bytes().len();
    if bytes != 64 {
        return Err(message("Invalid anchor length: ", &decimal_of(bytes)));
    }
    if !only_hex(&v) {
        return Err(message("Invalid anchor: contains non-hex characters: ", &v));
    }
    proof {
        assert(vstd::utf8::is_ascii_chars(v@)) by {
            assert forall|i: int| 0 <= i < v@.len() implies '\0' <= #[trigger] v@[i]
                <= '\u{7f}' by {
                assert(is_hex_digit(v@[i]));
            }
        }
        vstd::utf8::is_ascii_chars_encode_utf8(v@);
    }
    let head = subvec(&v, 0, 40);
    proof {
        assert(v@.take(40) =~= head@);
    }
    Ok(string_of(&head))
}

/// A text of hexadecimal digits has no white space to trim.
pub proof fn lemma_hex_is_trimmed(s: Seq<char>)
    requires
        all_hex(s),
    ensures
        trimmed(s) == s,
{
    if s.len() > 0 {
        assert(is_hex_digit(s[0]));
        assert(is_hex_digit(s[s.len() - 1]));
    }
}

/// The anchor of a SHA-1 hash gives the hash back, in lower case: a hash of 40
/// hexadecimal digits, white space around it aside, has an anchor, and the
/// SHA-1 hash of that anchor is the hash with its letters in lower case.
pub proof fn lemma_anchor_round_trip(commit: Seq<char>)
    requires
        all_hex(trimmed(commit)),
        trimmed(commit).len() == 40,
    ensures
        anchor_of(commit) matches Ok(anchor) && sha1_of(anchor) == Ok::<Seq<char>, Seq<char>>(
            ascii_lowered(trimmed(commit)),
        ),
{
    let v = trimmed(commit);
    let low = ascii_lowered(v);
    let anchor = low + zeros(24);
    assert forall|i: int| 0 <= i < anchor.len() implies is_hex_digit(#[trigger] anchor[i]) by {
        if i < 40 {
            assert(is_hex_digit(v[i]));
            assert(anchor[i] == ascii_lower(v[i]));
        }
    }
    lemma_hex_is_trimmed(anchor);
    assert(vstd::utf8::is_ascii_chars(anchor)) by {
        assert forall|i: int| 0 <= i < anchor.len() implies '\0' <= #[trigger] anchor[i]
            <= '\u{7f}' by {
            assert(is_hex_digit(anchor[i]));
        }
    }
    vstd::utf8::is_ascii_chars_encode_utf8(anchor);
    assert(anchor.take(40) =~= low);
}

} // verus!
