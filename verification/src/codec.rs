//! Wire codec for the command protocol.
//!
//! Inbound text frames carry a single command object `{"t":"<tag>"}`; the
//! tag identifies the command kind. Outbound counter broadcasts carry
//! `{"t":"count","c":<integer>}`. Both shapes are specified exactly at the
//! level of character sequences, so decoding and encoding are verified
//! against the grammar itself.

use vstd::prelude::*;
use vstd::string::StrSliceExecFns;
use vstd::string::StringExecFns;

verus! {

/// The fixed opening of a command frame: `{"t":"`.
pub open spec fn frame_prefix() -> Seq<char> {
    seq!['{', '"', 't', '"', ':', '"']
}

/// The fixed closing of a command frame: `"}`.
pub open spec fn frame_suffix() -> Seq<char> {
    seq!['"', '}']
}

/// A command tag may not contain a quote or a backslash, so that the frame
/// around it is unambiguous.
pub open spec fn tag_chars_ok(tag: Seq<char>) -> bool {
    forall|i: int| 0 <= i < tag.len() ==> tag[i] != '"' && tag[i] != '\\'
}

/// `s` is exactly the command frame that carries `tag`.
pub open spec fn is_command_frame(s: Seq<char>, tag: Seq<char>) -> bool {
    &&& tag_chars_ok(tag)
    &&& s == frame_prefix() + tag + frame_suffix()
}

/// A character sequence is the frame of at most one tag.
pub proof fn lemma_command_frame_unique(s: Seq<char>, t1: Seq<char>, t2: Seq<char>)
    requires
        is_command_frame(s, t1),
        is_command_frame(s, t2),
    ensures
        t1 == t2,
{
    assert(s.len() == 8 + t1.len());
    assert(s.len() == 8 + t2.len());
    assert forall|i: int| 0 <= i < t1.len() implies t1[i] == t2[i] by {
        assert(s[i + 6] == t1[i]);
        assert(s[i + 6] == t2[i]);
    }
    assert(t1 =~= t2);
}

/// Decodes a text frame as a command, returning the tag it carries.
///
/// Returns `Some(tag)` exactly when the frame is well-formed, i.e. when some
/// tag has `frame = {"t":"tag"}`; a malformed frame yields `None` and is
/// never an error.
pub fn decode_command(s: &str) -> (r: Option<String>)
    ensures
        r matches Some(t) ==> is_command_frame(s@, t@),
        r is None ==> forall|tag: Seq<char>| !is_command_frame(s@, tag),
{
    let n: usize = s.unicode_len();
    if n < 8 {
        proof {
            assert forall|tag: Seq<char>| !is_command_frame(s@, tag) by {
                if is_command_frame(s@, tag) {
                    assert(s@.len() == 8 + tag.len());
                }
            }
        }
        return None;
    }
    if s.get_char(0) != '{' || s.get_char(1) != '"' || s.get_char(2) != 't'
        || s.get_char(3) != '"' || s.get_char(4) != ':' || s.get_char(5) != '"' {
        proof {
            assert forall|tag: Seq<char>| !is_command_frame(s@, tag) by {
                if is_command_frame(s@, tag) {
                    assert(s@[0] == '{');
                    assert(s@[1] == '"');
                    assert(s@[2] == 't');
                    assert(s@[3] == '"');
                    assert(s@[4] == ':');
                    assert(s@[5] == '"');
                }
            }
        }
        return None;
    }
    if s.get_char(n - 2) != '"' || s.get_char(n - 1) != '}' {
        proof {
            assert forall|tag: Seq<char>| !is_command_frame(s@, tag) by {
                if is_command_frame(s@, tag) {
                    assert(s@.len() == 8 + tag.len());
                    assert(s@[n - 2] == frame_suffix()[0]);
                    assert(s@[n - 1] == frame_suffix()[1]);
                }
            }
        }
        return None;
    }
    let mut i: usize = 6;
    while i < n - 2
        invariant
            8 <= n,
            n == s@.len(),
            6 <= i <= n - 2,
            forall|j: int| 6 <= j < i ==> s@[j] != '"' && s@[j] != '\\',
        decreases n - 2 - i,
    {
        let c: char = s.get_char(i);
        if c == '"' || c == '\\' {
            proof {
                assert forall|tag: Seq<char>| !is_command_frame(s@, tag) by {
                    if is_command_frame(s@, tag) {
                        assert(s@.len() == 8 + tag.len());
                        assert(s@[i as int] == tag[i - 6]);
                        assert(!tag_chars_ok(tag));
                    }
                }
            }
            return None;
        }
        i += 1;
    }
    let t: &str = s.substring_char(6, n - 2);
    let tag: String = t.to_owned();
    proof {
        let tag_seq = s@.subrange(6, n - 2);
        assert(tag_chars_ok(tag_seq));
        assert forall|j: int| 0 <= j < s@.len() implies
            s@[j] == (frame_prefix() + tag_seq + frame_suffix())[j] by {
            if j < 6 {
            } else if j < n - 2 {
                assert((frame_prefix() + tag_seq + frame_suffix())[j] == tag_seq[j - 6]);
            } else {
                assert((frame_prefix() + tag_seq + frame_suffix())[j]
                    == frame_suffix()[j - (n - 2)]);
            }
        }
        assert(s@ =~= frame_prefix() + tag_seq + frame_suffix());
    }
    Some(tag)
}

/// Character-wise string equality.
pub fn str_eq(a: &str, b: &str) -> (r: bool)
    ensures
        r == (a@ == b@),
{
    let na: usize = a.unicode_len();
    let nb: usize = b.unicode_len();
    if na != nb {
        return false;
    }
    let mut i: usize = 0;
    while i < na
        invariant
            na == a@.len(),
            na == b@.len(),
            0 <= i <= na,
            forall|j: int| 0 <= j < i ==> a@[j] == b@[j],
        decreases na - i,
    {
        let ca: char = a.get_char(i);
        let cb: char = b.get_char(i);
        if ca != cb {
            return false;
        }
        i += 1;
    }
    proof {
        assert(a@ =~= b@);
    }
    true
}

/// The decimal digit `d` as a character.
pub open spec fn digit_char(d: nat) -> char {
    if d == 0 { '0' }
    else if d == 1 { '1' }
    else if d == 2 { '2' }
    else if d == 3 { '3' }
    else if d == 4 { '4' }
    else if d == 5 { '5' }
    else if d == 6 { '6' }
    else if d == 7 { '7' }
    else if d == 8 { '8' }
    else { '9' }
}

/// The usual decimal rendering of `n`, most significant digit first, with
/// no leading zeros (a single `'0'` for zero).
pub open spec fn spec_decimal(n: nat) -> Seq<char>
    decreases n,
{
    if n < 10 {
        seq![digit_char(n)]
    } else {
        spec_decimal(n / 10) + seq![digit_char(n % 10)]
    }
}

/// The fixed opening of a counter broadcast: `{"t":"count","c":`.
pub open spec fn count_prefix() -> Seq<char> {
    seq!['{', '"', 't', '"', ':', '"', 'c', 'o', 'u', 'n', 't', '"', ',', '"', 'c', '"', ':']
}

/// The counter broadcast frame `{"t":"count","c":<c>}`.
pub open spec fn count_frame(c: nat) -> Seq<char> {
    count_prefix() + spec_decimal(c) + seq!['}']
}

fn push_digit(s: &mut String, d: u64)
    requires
        d < 10,
    ensures
        final(s)@ == old(s)@ + seq![digit_char(d as nat)],
{
    if d == 0 {
        s.append("0");
        proof { reveal_strlit("0"); assert("0"@ =~= seq![digit_char(0)]); }
    } else if d == 1 {
        s.append("1");
        proof { reveal_strlit("1"); assert("1"@ =~= seq![digit_char(1)]); }
    } else if d == 2 {
        s.append("2");
        proof { reveal_strlit("2"); assert("2"@ =~= seq![digit_char(2)]); }
    } else if d == 3 {
        s.append("3");
        proof { reveal_strlit("3"); assert("3"@ =~= seq![digit_char(3)]); }
    } else if d == 4 {
        s.append("4");
        proof { reveal_strlit("4"); assert("4"@ =~= seq![digit_char(4)]); }
    } else if d == 5 {
        s.append("5");
        proof { reveal_strlit("5"); assert("5"@ =~= seq![digit_char(5)]); }
    } else if d == 6 {
        s.append("6");
        proof { reveal_strlit("6"); assert("6"@ =~= seq![digit_char(6)]); }
    } else if d == 7 {
        s.append("7");
        proof { reveal_strlit("7"); assert("7"@ =~= seq![digit_char(7)]); }
    } else if d == 8 {
        s.append("8");
        proof { reveal_strlit("8"); assert("8"@ =~= seq![digit_char(8)]); }
    } else {
        s.append("9");
        proof { reveal_strlit("9"); assert("9"@ =~= seq![digit_char(9)]); }
    }
}

fn append_decimal(s: &mut String, n: u64)
    ensures
        final(s)@ == old(s)@ + spec_decimal(n as nat),
    decreases n,
{
    if n < 10 {
        push_digit(s, n);
    } else {
        append_decimal(s, n / 10);
        push_digit(s, n % 10);
        proof {
            assert(s@ =~= old(s)@ + spec_decimal(n as nat));
        }
    }
}

/// Encodes the counter value `c` as the broadcast frame
/// `{"t":"count","c":<c>}`.
pub fn encode_count(c: u64) -> (r: String)
    ensures
        r@ == count_frame(c as nat),
{
    let mut s: String = String::from_str("{\"t\":\"count\",\"c\":");
    proof {
        reveal_strlit("{\"t\":\"count\",\"c\":");
        assert(s@ =~= count_prefix());
    }
    append_decimal(&mut s, c);
    s.append("}");
    proof {
        reveal_strlit("}");
        assert("}"@ =~= seq!['}']);
        assert(s@ =~= count_frame(c as nat));
    }
    s
}

} // verus!
