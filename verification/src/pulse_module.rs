//! Setting up the capture of the playback mix: the PulseAudio loopback
//! module on Linux (its id, read from `pactl load-module`, and the argument
//! that unloads it again), and the nothing that Windows needs.
use crate::text::{
    digit_value, digits_value, is_ascii_digit, is_unicode_whitespace, parse_unsigned,
    parse_unsigned_chars, trim, trim_end, trim_start, unsigned_digits,
};
use vstd::prelude::*;
use vstd::utf8::{decode_utf8, valid_utf8};

verus! {

/// What `String::from_utf8_lossy` makes of `bytes`: the decoded text, with
/// U+FFFD in place of each sequence that is not valid UTF-8.
pub uninterp spec fn utf8_lossy(bytes: Seq<u8>) -> Seq<char>;

/// Calls `String::from_utf8_lossy`. Its result is named `utf8_lossy` of the
/// bytes; where the bytes are valid UTF-8 it is their decoding, as std's
/// documentation says. How invalid bytes are replaced is left unsaid.
#[verifier::external_body]
fn decode_lossy(bytes: &[u8]) -> (s: String)
    ensures
        s@ == utf8_lossy(bytes@),
        valid_utf8(bytes@) ==> s@ == decode_utf8(bytes@),
{
    String::from_utf8_lossy(bytes).into_owned()
}

/// The module id that `pactl load-module` printed: the trimmed text as an
/// unsigned 32-bit number, or 0 where it is not one.
pub open spec fn module_id_of(text: Seq<char>) -> nat {
    match parse_unsigned(trim(text), u32::MAX as nat) {
        Some(v) => v,
        None => 0,
    }
}

/// The id of the loopback module that `pactl load-module module-loopback`
/// loaded, from its exit status and what it printed: `None` where it
/// failed, else the printed id, or 0 where the output is no id. Output that
/// is valid UTF-8 is read as it decodes.
pub fn loopback_module_id(status_success: bool, stdout: &[u8]) -> (r: Option<u32>)
    ensures
        !status_success ==> r is None,
        status_success ==> r == Some(module_id_of(utf8_lossy(stdout@)) as u32),
        status_success && valid_utf8(stdout@) ==> r == Some(
            module_id_of(decode_utf8(stdout@)) as u32,
        ),
{
    if !status_success {
        return None;
    }
    let text = decode_lossy(stdout);
    let t = crate::text::trimmed_chars(text.as_str());
    match parse_unsigned_chars(&t, 0xffff_ffffu64) {
        Some(v) => Some(v as u32),
        None => Some(0),
    }
}

/// Windows needs no preparation: the host itself offers the capture device
/// that mirrors the playback mix.
pub fn ensure_windows_loopback_setup() {
}

/// The ASCII digit for `d`.
pub open spec fn digit_char(d: nat) -> char {
    ('0' as nat + d) as char
}

/// The decimal form of `n`, without sign or leading zeros, as `to_string`
/// writes an unsigned integer.
pub open spec fn decimal(n: nat) -> Seq<char>
    decreases n,
{
    if n < 10 {
        seq![digit_char(n)]
    } else {
        decimal(n / 10).push(digit_char(n % 10))
    }
}

/// The one-character string of the digit `d`.
fn digit_str(d: u32) -> (s: &'static str)
    requires
        d < 10,
    ensures
        s@ == seq![digit_char(d as nat)],
{
    proof {
        reveal_strlit("0");
        reveal_strlit("1");
        reveal_strlit("2");
        reveal_strlit("3");
        reveal_strlit("4");
        reveal_strlit("5");
        reveal_strlit("6");
        reveal_strlit("7");
        reveal_strlit("8");
        reveal_strlit("9");
    }
    match d {
        0 => "0",
        1 => "1",
        2 => "2",
        3 => "3",
        4 => "4",
        5 => "5",
        6 => "6",
        7 => "7",
        8 => "8",
        _ => "9",
    }
}

/// Appends the decimal form of `n` to `s`.
fn push_decimal(s: &mut String, n: u32)
    ensures
        final(s)@ == old(s)@ + decimal(n as nat),
    decreases n,
{
    if n < 10 {
        s.append(digit_str(n));
    } else {
        push_decimal(s, n / 10);
        s.append(digit_str(n % 10));
        assert(final(s)@ =~= old(s)@ + decimal(n as nat));
    }
}

/// The argument that names the loopback module with id `id` to
/// `pactl unload-module`: the id in decimal.
pub fn module_id_arg(id: u32) -> (s: String)
    ensures
        s@ == decimal(id as nat),
{
    let mut s = String::new();
    push_decimal(&mut s, id);
    assert(s@ =~= decimal(id as nat));
    s
}

proof fn lemma_decimal_digits(n: nat)
    ensures
        decimal(n).len() > 0,
        forall|i: int| 0 <= i < decimal(n).len() ==> is_ascii_digit(#[trigger] decimal(n)[i]),
        digits_value(decimal(n)) == n,
    decreases n,
{
    if n >= 10 {
        lemma_decimal_digits(n / 10);
        let d = decimal(n);
        assert(d.drop_last() =~= decimal(n / 10));
        assert(digit_value(digit_char(n % 10)) == n % 10);
        assert(d.last() == digit_char(n % 10));
        assert(n == (n / 10) * 10 + n % 10) by (nonlinear_arith);
        assert(digits_value(d) == digits_value(d.drop_last()) * 10 + digit_value(d.last()));
    } else {
        assert(digit_value(digit_char(n)) == n);
        assert(decimal(n).drop_last() =~= Seq::<char>::empty());
        assert(digits_value(Seq::<char>::empty()) == 0);
    }
}

proof fn lemma_no_whitespace_trim(s: Seq<char>)
    requires
        s.len() > 0,
        forall|i: int| 0 <= i < s.len() ==> is_ascii_digit(#[trigger] s[i]),
    ensures
        trim(s) == s,
{
    assert(!is_unicode_whitespace(s[0]));
    assert(trim_start(s) == s);
    assert(!is_unicode_whitespace(s.last()));
    assert(trim_end(s) == s);
}

/// Unloading names the module that loading reported: the id written by
/// `module_id_arg` reads back, through the same parse that takes the id
/// from `pactl load-module`'s output, as that id.
pub proof fn lemma_module_id_round_trip(id: u32)
    ensures
        parse_unsigned(decimal(id as nat), u32::MAX as nat) == Some(id as nat),
        module_id_of(decimal(id as nat)) == id as nat,
{
    let d = decimal(id as nat);
    lemma_decimal_digits(id as nat);
    lemma_no_whitespace_trim(d);
    assert(is_ascii_digit(d[0]));
    assert(unsigned_digits(d) == d);
}

} // verus!
