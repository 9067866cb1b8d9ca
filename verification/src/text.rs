use vstd::prelude::*;
use vstd::utf8::*;

verus! {

/// Whether every byte is an ASCII character.
pub open spec fn is_ascii_bytes(b: Seq<u8>) -> bool {
    forall|i: int| 0 <= i < b.len() ==> #[trigger] b[i] < 0x80
}

/// The characters of an ASCII byte string.
pub open spec fn ascii_chars(b: Seq<u8>) -> Seq<char> {
    b.map_values(|x: u8| x as char)
}

/// ASCII bytes are their own UTF-8 encoding.
pub proof fn lemma_ascii_utf8(b: Seq<u8>)
    requires
        is_ascii_bytes(b),
    ensures
        valid_utf8(b),
        decode_utf8(b) == ascii_chars(b),
{
    let chars = ascii_chars(b);
    assert(is_ascii_chars(chars)) by {
        assert forall|i: int| 0 <= i < chars.len() implies '\0' <= #[trigger] chars[i] <= '\u{7f}' by {
            assert(b[i] < 0x80);
        }
    }
    is_ascii_chars_encode_utf8(chars);
    assert forall|i: int| 0 <= i < b.len() implies #[trigger] encode_utf8(chars)[i] == b[i] by {
        assert(chars[i] as u8 == encode_utf8(chars)[i]);
        assert(b[i] < 0x80);
        assert((b[i] as char) as u8 == b[i]);
    }
    assert(encode_utf8(chars) =~= b);
    encode_utf8_valid_utf8(chars);
    encode_utf8_decode_utf8(chars);
}

/// In valid UTF-8, the byte after an ASCII character starts a new character.
pub proof fn lemma_after_ascii_not_continuation(s: Seq<u8>, k: int)
    requires
        valid_utf8(s),
        0 <= k < s.len() - 1,
        s[k] < 0x80,
    ensures
        !is_continuation_byte(s[k + 1]),
{
    is_char_boundary_iff_not_is_continuation_byte(s, k);
    valid_utf8_split(s, k);
    let t = s.subrange(k, s.len() as int);
    assert(t[0] == s[k]);
    assert(valid_first_scalar(t));
    assert(length_of_first_scalar(t) == 1);
    let u = pop_first_scalar(t);
    assert(valid_utf8(u));
    assert(u.len() > 0);
    assert(u[0] == s[k + 1]);
    assert(valid_first_scalar(u));
}

/// A stretch of valid UTF-8 that starts and ends on character starts (or
/// the ends of the whole) is itself valid UTF-8.
pub proof fn lemma_valid_segment(s: Seq<u8>, a: int, b: int)
    requires
        valid_utf8(s),
        0 <= a <= b <= s.len(),
        a == s.len() || !is_continuation_byte(s[a]),
        b == s.len() || !is_continuation_byte(s[b]),
    ensures
        valid_utf8(s.subrange(a, b)),
{
    if a == b {
        assert(s.subrange(a, b) =~= Seq::<u8>::empty());
    } else {
        if b < s.len() {
            is_char_boundary_iff_not_is_continuation_byte(s, b);
        } else {
            is_char_boundary_start_end_of_seq(s);
        }
        valid_utf8_split(s, b);
        let p = s.subrange(0, b);
        assert(p[a] == s[a]);
        is_char_boundary_iff_not_is_continuation_byte(p, a);
        valid_utf8_split(p, a);
        assert(p.subrange(a, p.len() as int) =~= s.subrange(a, b));
    }
}

/// `String::from_utf8`: gives the string exactly when the bytes are valid
/// UTF-8, and then the string holds the characters that the bytes encode.
#[verifier::external_body]
pub(crate) fn string_from_utf8(bytes: Vec<u8>) -> (r: Option<String>)
    ensures
        r is Some <==> valid_utf8(bytes@),
        r matches Some(s) ==> s@ == decode_utf8(bytes@),
{
    String::from_utf8(bytes).ok()
}

/// The decimal digits of `n`.
pub open spec fn decimal(n: nat) -> Seq<char>
    decreases n,
{
    let d = ((n % 10) + 48) as char;
    if n < 10 {
        seq![d]
    } else {
        decimal(n / 10).push(d)
    }
}

/// Writes `n` in decimal.
pub fn decimal_u64(n: u64) -> (r: String)
    ensures
        r@ == decimal(n as nat),
{
    let mut rev: Vec<u8> = Vec::new();
    let mut v: u64 = n;
    loop
        invariant_except_break
            decimal(n as nat) == decimal(v as nat) + rev@.reverse().map_values(|b: u8| b as char),
            forall|k: int| 0 <= k < rev.len() ==> 48 <= #[trigger] rev@[k] < 58,
        ensures
            decimal(n as nat) == rev@.reverse().map_values(|b: u8| b as char),
            forall|k: int| 0 <= k < rev.len() ==> 48 <= #[trigger] rev@[k] < 58,
        decreases v,
    {
        let d = (v % 10) as u8 + 48;
        let ghost before = rev@;
        rev.push(d);
        proof {
            assert(rev@.reverse() =~= seq![d] + before.reverse());
            assert(rev@.reverse().map_values(|b: u8| b as char) =~= seq![d as char] + before.reverse().map_values(|b: u8| b as char));
        }
        if v < 10 {
            proof {
                assert(decimal(v as nat) == seq![d as char]);
                assert(decimal(n as nat) =~= rev@.reverse().map_values(|b: u8| b as char));
            }
            break;
        }
        proof {
            assert(decimal(v as nat) == decimal((v / 10) as nat).push(d as char));
            assert(decimal(n as nat) =~= decimal((v / 10) as nat) + rev@.reverse().map_values(|b: u8| b as char));
        }
        v = v / 10;
    }
    let mut out: Vec<u8> = Vec::new();
    let mut i = rev.len();
    while i > 0
        invariant
            i <= rev.len(),
            out@ =~= rev@.subrange(i as int, rev.len() as int).reverse(),
            forall|k: int| 0 <= k < rev.len() ==> 48 <= #[trigger] rev@[k] < 58,
        decreases i,
    {
        i -= 1;
        out.push(rev[i]);
        assert(out@ =~= rev@.subrange(i as int, rev.len() as int).reverse());
    }
    assert(rev@.subrange(0, rev.len() as int) =~= rev@);
    proof {
        assert(crate::text::is_ascii_bytes(out@)) by {
            assert forall|k: int| 0 <= k < out@.len() implies #[trigger] out@[k] < 0x80 by {
                assert(out@[k] == rev@[rev.len() - 1 - k]);
            }
        }
    }
    crate::text::ascii_to_string(out)
}

/// `ToString::to_string` on an I/O error: the system's description of
/// it. Nothing is stated of the text, which depends on the system.
#[verifier::external_body]
pub(crate) fn io_error_text(e: &std::io::Error) -> (r: String) {
    e.to_string()
}

/// `String::push`: appends one character.
#[verifier::external_body]
pub(crate) fn string_push(s: &mut String, c: char)
    ensures
        final(s)@ == old(s)@.push(c),
{
    s.push(c)
}

/// `String::push_str`: appends the characters of another string.
#[verifier::external_body]
pub(crate) fn string_push_str(s: &mut String, t: &str)
    ensures
        final(s)@ == old(s)@ + t@,
{
    s.push_str(t)
}

/// Builds a string out of ASCII bytes.
pub fn ascii_to_string(b: Vec<u8>) -> (r: String)
    requires
        is_ascii_bytes(b@),
    ensures
        r@ == ascii_chars(b@),
{
    proof {
        lemma_ascii_utf8(b@);
    }
    let ghost bv = b@;
    match string_from_utf8(b) {
        Some(s) => s,
        None => {
            proof {
                assert(false);
            }
            String::new()
        },
    }
}

/// Whether two strings hold the same characters.
pub fn str_equal(a: &str, b: &str) -> (r: bool)
    ensures
        r == (a@ == b@),
{
    let n = a.unicode_len();
    if n != b.unicode_len() {
        return false;
    }
    let mut i: usize = 0;
    while i < n
        invariant
            i <= n,
            n == a@.len(),
            n == b@.len(),
            forall|k: int| 0 <= k < i ==> a@[k] == b@[k],
        decreases n - i,
    {
        if a.get_char(i) != b.get_char(i) {
            return false;
        }
        i += 1;
    }
    proof {
        assert(a@ =~= b@);
    }
    true
}

} // verus!
