use itertools::Itertools;
use vstd::prelude::*;
use vstd::string::*;

use crate::model::{views, TaskError};

verus! {

/// `parts` joined with `sep` between each two neighbours.
pub open spec fn joined(parts: Seq<Seq<char>>, sep: Seq<char>) -> Seq<char>
    decreases parts.len(),
{
    if parts.len() == 0 {
        Seq::empty()
    } else if parts.len() == 1 {
        parts[0]
    } else {
        joined(parts.drop_last(), sep) + sep + parts.last()
    }
}

/// Relies on `Itertools::join`: the elements' text with `sep` between neighbours.
#[verifier::external_body]
pub(crate) fn join_strings(parts: &Vec<String>, sep: &str) -> (r: String)
    ensures
        r@ == joined(views(parts@), sep@),
{
    parts.iter().join(sep)
}

/// Characters that make a command token need quoting.
pub open spec fn is_special(c: char) -> bool {
    c == '\t' || c == '\r' || c == '\n' || c == ' ' || c == '[' || c == ']'
}

/// `s` with a backslash before each `"` and `\`.
pub open spec fn escaped(s: Seq<char>) -> Seq<char>
    decreases s.len(),
{
    if s.len() == 0 {
        Seq::empty()
    } else {
        let c = s.last();
        escaped(s.drop_last()) + if c == '"' || c == '\\' {
            seq!['\\', c]
        } else {
            seq![c]
        }
    }
}

/// A command token as it is written into a joined command line.
pub open spec fn quoted(s: Seq<char>) -> Seq<char> {
    if s.len() == 0 {
        seq!['"', '"']
    } else if exists|i: int| 0 <= i < s.len() && is_special(#[trigger] s[i]) {
        seq!['"'] + escaped(s) + seq!['"']
    } else {
        s
    }
}

/// Quotes a command token so that it stays one word in a joined command line.
pub fn quote(s: &str) -> (r: String)
    ensures
        r@ == quoted(s@),
{
    let n = s.unicode_len();
    if n == 0 {
        proof {
            reveal_strlit("\"\"");
        }
        return String::from_str("\"\"");
    }
    let mut special = false;
    let mut i: usize = 0;
    while i < n
        invariant
            n == s@.len(),
            0 <= i <= n,
            special == exists|j: int| 0 <= j < i && is_special(#[trigger] s@[j]),
        decreases n - i,
    {
        let c = s.get_char(i);
        if c == '\t' || c == '\r' || c == '\n' || c == ' ' || c == '[' || c == ']' {
            special = true;
        }
        i = i + 1;
    }
    if !special {
        return String::from_str(s);
    }
    proof {
        reveal_strlit("\"");
    }
    let mut out = String::from_str("\"");
    let mut i: usize = 0;
    while i < n
        invariant
            n == s@.len(),
            0 <= i <= n,
            out@ == seq!['"'] + escaped(s@.take(i as int)),
        decreases n - i,
    {
        let c = s.get_char(i);
        proof {
            reveal_strlit("\\");
        }
        if c == '"' || c == '\\' {
            out.append("\\");
        }
        out.append(s.substring_char(i, i + 1));
        proof {
            assert(s@.take(i + 1).drop_last() == s@.take(i as int));
            assert(s@.subrange(i as int, i + 1) == seq![c]);
            assert(s@.take(i + 1).last() == c);
            assert(escaped(s@.take(i + 1)) == escaped(s@.take(i as int)) + if c == '"' || c
                == '\\' {
                seq!['\\', c]
            } else {
                seq![c]
            });
        }
        i = i + 1;
    }
    proof {
        reveal_strlit("\"");
    }
    out.append("\"");
    proof {
        assert(s@.take(n as int) == s@);
    }
    out
}

/// Whitespace as `char::is_whitespace` defines it (the Unicode `White_Space` set).
pub open spec fn is_white(c: char) -> bool {
    let u = c as u32;
    (0x9 <= u && u <= 0xd) || u == 0x20 || u == 0x85 || u == 0xa0 || u == 0x1680 || (0x2000
        <= u && u <= 0x200a) || u == 0x2028 || u == 0x2029 || u == 0x202f || u == 0x205f || u
        == 0x3000
}

/// Whether the text is empty or whitespace only.
pub open spec fn is_blank(s: Seq<char>) -> bool {
    forall|i: int| 0 <= i < s.len() ==> is_white(#[trigger] s[i])
}

/// Tests a character against the Unicode `White_Space` set.
pub fn is_white_char(c: char) -> (r: bool)
    ensures
        r == is_white(c),
{
    let u = c as u32;
    (0x9 <= u && u <= 0xd) || u == 0x20 || u == 0x85 || u == 0xa0 || u == 0x1680 || (0x2000
        <= u && u <= 0x200a) || u == 0x2028 || u == 0x2029 || u == 0x202f || u == 0x205f || u
        == 0x3000
}

/// Whether the text is empty or whitespace only.
pub fn blank(s: &str) -> (r: bool)
    ensures
        r == is_blank(s@),
{
    let n = s.unicode_len();
    let mut i: usize = 0;
    while i < n
        invariant
            n == s@.len(),
            0 <= i <= n,
            forall|j: int| 0 <= j < i ==> is_white(#[trigger] s@[j]),
        decreases n - i,
    {
        if !is_white_char(s.get_char(i)) {
            return false;
        }
        i = i + 1;
    }
    true
}

/// Parses a `KEY=value` pair, splitting at the first `=`.
pub fn parse_key_val(s: &str) -> (r: Result<(String, String), TaskError>)
    ensures
        match r {
            Ok((k, v)) => exists|p: int|
                0 <= p < s@.len() && s@[p] == '=' && (forall|j: int| 0 <= j < p ==> s@[j] != '=')
                    && k@ == s@.take(p) && v@ == s@.skip(p + 1),
            Err(TaskError::InvalidArgument(t)) => t@ == s@ && (forall|j: int|
                0 <= j < s@.len() ==> s@[j] != '=') && TaskError::InvalidArgument(t).message_view()
                == "invalid KEY=value: no `=` found in `"@ + s@ + "`"@,
            Err(_) => false,
        },
{
    let n = s.unicode_len();
    let mut i: usize = 0;
    while i < n
        invariant
            n == s@.len(),
            0 <= i <= n,
            forall|j: int| 0 <= j < i ==> s@[j] != '=',
        decreases n - i,
    {
        if s.get_char(i) == '=' {
            let k = String::from_str(s.substring_char(0, i));
            let v = String::from_str(s.substring_char(i + 1, n));
            return Ok((k, v));
        }
        i = i + 1;
    }
    Err(TaskError::InvalidArgument(String::from_str(s)))
}

} // verus!
