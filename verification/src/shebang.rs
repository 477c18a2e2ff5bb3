//! Reading the interpreter line of a script: `#!interpreter [argument]`.
use vstd::prelude::*;
use vstd::string::{StrSliceExecFns, StringExecFns};
use vstd::utf8::{decode_utf8, valid_utf8};
use crate::bytes::{find_byte, index_of, sub_bytes, NEWLINE};
use crate::host::decode_text;

verus! {

/// The byte `#`.
pub const HASH: u8 = 35;

/// The byte `!`.
pub const BANG: u8 = 33;

/// The most bytes of a script's head that are read for its interpreter line.
pub const SHEBANG_READ_LEN: usize = 256;

/// `c` is white space in Unicode's sense (the `White_Space` property, as
/// `char::is_whitespace` documents).
pub open spec fn is_space(c: char) -> bool {
    ||| ('\u{9}' <= c && c <= '\u{d}')
    ||| c == ' '
    ||| c == '\u{85}'
    ||| c == '\u{a0}'
    ||| c == '\u{1680}'
    ||| ('\u{2000}' <= c && c <= '\u{200a}')
    ||| c == '\u{2028}'
    ||| c == '\u{2029}'
    ||| c == '\u{202f}'
    ||| c == '\u{205f}'
    ||| c == '\u{3000}'
}

/// Whether `c` is Unicode white space.
pub fn is_space_char(c: char) -> (r: bool)
    ensures
        r == is_space(c),
{
    ('\u{9}' <= c && c <= '\u{d}') || c == ' ' || c == '\u{85}' || c == '\u{a0}' || c == '\u{1680}'
        || ('\u{2000}' <= c && c <= '\u{200a}') || c == '\u{2028}' || c == '\u{2029}' || c
        == '\u{202f}' || c == '\u{205f}' || c == '\u{3000}'
}

/// `cs` without its leading white space.
pub open spec fn trim_start(cs: Seq<char>) -> Seq<char>
    decreases cs.len(),
{
    if cs.len() > 0 && is_space(cs[0]) {
        trim_start(cs.drop_first())
    } else {
        cs
    }
}

/// `cs` without its trailing white space.
pub open spec fn trim_end(cs: Seq<char>) -> Seq<char>
    decreases cs.len(),
{
    if cs.len() > 0 && is_space(cs.last()) {
        trim_end(cs.drop_last())
    } else {
        cs
    }
}

/// `cs` without white space at either end (`str::trim`).
pub open spec fn trim(cs: Seq<char>) -> Seq<char> {
    trim_end(trim_start(cs))
}

/// The index of the first white space in `cs`, or `cs.len()`.
pub open spec fn space_index(cs: Seq<char>) -> int
    decreases cs.len(),
{
    if cs.len() == 0 {
        0
    } else if is_space(cs[0]) {
        0
    } else {
        1 + space_index(cs.drop_first())
    }
}

/// The head `head` of a file (its first bytes, as read) starts with `#!`.
pub open spec fn spec_is_shebang_head(head: Seq<u8>) -> bool {
    head.len() >= 2 && head[0] == HASH && head[1] == BANG
}

/// The interpreter line that the head `head` of a script holds: the bytes
/// after `#!` up to the first line feed (or the end of what was read),
/// decoded and trimmed. `None` when at most two bytes were read or the line
/// is not UTF-8 text.
pub open spec fn spec_shebang_line(head: Seq<u8>) -> Option<Seq<char>> {
    if head.len() <= 2 {
        None
    } else {
        let nl: int = index_of(head, NEWLINE);
        let end: int = if nl < 2 {
            2
        } else {
            nl
        };
        let line = head.subrange(2, end);
        if valid_utf8(line) {
            Some(trim(decode_utf8(line)))
        } else {
            None
        }
    }
}

/// The interpreter and its optional argument that the line `cs` names: the
/// line splits once, at its first white space, and each part is trimmed.
/// `None` when the interpreter part is empty.
pub open spec fn spec_split_interpreter(cs: Seq<char>) -> Option<(Seq<char>, Option<Seq<char>>)> {
    let k: int = space_index(cs);
    let interp = trim(cs.subrange(0, k));
    let arg = if k < cs.len() {
        Some(trim(cs.subrange(k + 1, cs.len() as int)))
    } else {
        None
    };
    if interp.len() > 0 {
        Some((interp, arg))
    } else {
        None
    }
}

/// Whether the head `head` of a file (its first bytes, as read) is `#!`.
pub fn is_shebang_head(head: &[u8]) -> (r: bool)
    ensures
        r == spec_is_shebang_head(head@),
{
    head.len() >= 2 && head[0] == HASH && head[1] == BANG
}

/// Dropping leading white space one character at a time.
proof fn lemma_trim_start_step(cs: Seq<char>, i: int)
    requires
        0 <= i < cs.len(),
        is_space(cs[i]),
    ensures
        trim_start(cs.subrange(i, cs.len() as int)) == trim_start(cs.subrange(i + 1, cs.len() as int)),
{
    assert(cs.subrange(i, cs.len() as int).drop_first() =~= cs.subrange(i + 1, cs.len() as int));
}

/// Dropping trailing white space one character at a time.
proof fn lemma_trim_end_step(cs: Seq<char>, j: int)
    requires
        0 < j <= cs.len(),
        is_space(cs[j - 1]),
    ensures
        trim_end(cs.subrange(0, j)) == trim_end(cs.subrange(0, j - 1)),
{
    assert(cs.subrange(0, j).drop_last() =~= cs.subrange(0, j - 1));
}

/// `s` without white space at either end.
pub fn trim_text(s: &str) -> (r: String)
    ensures
        r@ == trim(s@),
{
    let n: usize = s.unicode_len();
    let mut i: usize = 0;
    assert(s@.subrange(0, n as int) =~= s@);
    while i < n && is_space_char(s.get_char(i))
        invariant
            n == s@.len(),
            i <= n,
            trim_start(s@) == trim_start(s@.subrange(i as int, n as int)),
        decreases n - i,
    {
        proof {
            lemma_trim_start_step(s@, i as int);
        }
        i = i + 1;
    }
    let ghost t = s@.subrange(i as int, n as int);
    assert(trim_start(t) == t);
    let mut j: usize = n;
    assert(t.subrange(0, (j - i) as int) =~= t);
    while j > i && is_space_char(s.get_char(j - 1))
        invariant
            n == s@.len(),
            i <= j <= n,
            t == s@.subrange(i as int, n as int),
            trim_end(t) == trim_end(t.subrange(0, (j - i) as int)),
        decreases j - i,
    {
        proof {
            assert(t[(j - i) - 1] == s@[j - 1]);
            lemma_trim_end_step(t, (j - i) as int);
        }
        j = j - 1;
    }
    let ghost u = t.subrange(0, (j - i) as int);
    assert(trim_end(u) == u);
    let sub = s.substring_char(i, j);
    assert(sub@ =~= u);
    String::from_str(sub)
}

/// The interpreter line of a script whose head (first bytes, as read) is
/// `head`; see `spec_shebang_line`.
pub fn shebang_line(head: &[u8]) -> (r: Option<String>)
    ensures
        match r {
            Some(s) => spec_shebang_line(head@) == Some(s@),
            None => spec_shebang_line(head@) is None,
        },
{
    if head.len() <= 2 {
        return None;
    }
    let nl: usize = find_byte(head, NEWLINE);
    let end: usize = if nl < 2 {
        2
    } else {
        nl
    };
    proof {
        crate::bytes::lemma_index_of(head@, NEWLINE);
    }
    let line = sub_bytes(head, 2, end);
    match decode_text(&line) {
        Some(text) => Some(trim_text(text.as_str())),
        None => None,
    }
}

/// Where the first white space of `s` is, or its length.
fn space_index_exec(s: &str) -> (r: usize)
    ensures
        r == space_index(s@),
        r <= s@.len(),
{
    let n: usize = s.unicode_len();
    let mut i: usize = 0;
    assert(s@.subrange(0, n as int) =~= s@);
    while i < n && !is_space_char(s.get_char(i))
        invariant
            n == s@.len(),
            i <= n,
            space_index(s@) == i + space_index(s@.subrange(i as int, n as int)),
        decreases n - i,
    {
        assert(s@.subrange(i as int, n as int).drop_first() =~= s@.subrange(i + 1, n as int));
        i = i + 1;
    }
    proof {
        if i == 0 {
            assert(s@.subrange(0, n as int) =~= s@);
        }
        if i < n {
            assert(s@.subrange(i as int, n as int)[0] == s@[i as int]);
        }
    }
    i
}

/// The interpreter and optional argument that the interpreter line `line`
/// names; see `spec_split_interpreter`.
pub fn split_interpreter(line: &str) -> (r: Option<(String, Option<String>)>)
    ensures
        match r {
            Some((interp, arg)) => spec_split_interpreter(line@) == Some(
                (
                    interp@,
                    match arg {
                        Some(a) => Some(a@),
                        None => None,
                    },
                ),
            ),
            None => spec_split_interpreter(line@) is None,
        },
{
    let n: usize = line.unicode_len();
    let k: usize = space_index_exec(line);
    let interp = trim_text(line.substring_char(0, k));
    let arg = if k < n {
        Some(trim_text(line.substring_char(k + 1, n)))
    } else {
        None
    };
    if interp.unicode_len() > 0 {
        Some((interp, arg))
    } else {
        None
    }
}

} // verus!
