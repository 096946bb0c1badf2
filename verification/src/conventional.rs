//! Reading the kind of a change out of a commit message.
//!
//! A message follows the conventional form when its first line starts with
//! a kind, an optional scope in parentheses, an optional `!` and a colon, as
//! in `fix(parser)!: reject empty input`.

use vstd::prelude::*;
use crate::text::{chars_of, find_char, first_index, string_of_range};

verus! {

/// The characters a kind is made of: ASCII letters and digits, `-` and `_`.
pub open spec fn is_kind_char(c: char) -> bool {
    ('a' <= c <= 'z') || ('A' <= c <= 'Z') || ('0' <= c <= '9') || c == '-' || c == '_'
}

/// The first line of a message.
pub open spec fn header_of(message: Seq<char>) -> Seq<char> {
    message.take(first_index(message, '\n'))
}

/// Whether `name` can be a kind: non-empty and made of kind characters.
pub open spec fn is_kind(name: Seq<char>) -> bool {
    name.len() > 0 && forall|i: int| 0 <= i < name.len() ==> is_kind_char(#[trigger] name[i])
}

/// The kind in `head`, the text that stands before the colon.
///
/// A `!` at the end is set aside first. What is left is the kind, or the
/// kind followed by a scope that opens at the first `(` and closes with a
/// `)` at the very end.
pub open spec fn head_kind(head: Seq<char>) -> Option<Seq<char>> {
    let bang = head.len() > 0 && head.last() == '!';
    let body = if bang {
        head.drop_last()
    } else {
        head
    };
    let open = first_index(body, '(');
    let name = body.take(open);
    if (open == body.len() || body.last() == ')') && is_kind(name) {
        Some(
            if bang {
                name.push('!')
            } else {
                name
            },
        )
    } else {
        None
    }
}

/// The kind that a message declares, if it follows the conventional form.
///
/// The kind is what stands before the first colon of the first line, without
/// a scope. It has to be non-empty and made of kind characters. A `!` right
/// before the colon stays part of the kind, so `feat!: x` and `feat(api)!: x`
/// both declare `feat!`.
pub open spec fn kind_of(message: Seq<char>) -> Option<Seq<char>> {
    let header = header_of(message);
    let colon = first_index(header, ':');
    if colon < header.len() {
        head_kind(header.take(colon))
    } else {
        None
    }
}

fn kind_char(c: char) -> (r: bool)
    ensures
        r == is_kind_char(c),
{
    ('a' <= c && c <= 'z') || ('A' <= c && c <= 'Z') || ('0' <= c && c <= '9') || c == '-' || c
        == '_'
}

/// Executable form of [`kind_of`].
#[verifier::loop_isolation(false)]
pub fn conventional_kind(message: &str) -> (r: Option<String>)
    ensures
        match r {
            Some(k) => kind_of(message@) == Some(k@),
            None => kind_of(message@) is None,
        },
{
    let v = chars_of(message);
    let n: usize = v.len();
    let nl: usize = find_char(&v, 0, n, '\n');
    let colon: usize = find_char(&v, 0, nl, ':');
    let ghost header = header_of(v@);
    let ghost head = header.take(colon as int);
    proof {
        assert(v@.subrange(0, n as int) =~= v@);
        assert(v@.subrange(0, nl as int) =~= header);
        assert(v@.subrange(0, colon as int) =~= head);
    }
    if colon >= nl {
        return None;
    }
    let bang = colon > 0 && v[colon - 1] == '!';
    let end: usize = if bang {
        colon - 1
    } else {
        colon
    };
    let ghost body = if bang {
        head.drop_last()
    } else {
        head
    };
    proof {
        assert(v@.subrange(0, end as int) =~= body);
    }
    let open: usize = find_char(&v, 0, end, '(');
    let ghost name = body.take(open as int);
    proof {
        assert(v@.subrange(0, open as int) =~= name);
    }
    if open < end && v[end - 1] != ')' {
        return None;
    }
    if open == 0 {
        return None;
    }
    let mut i: usize = 0;
    while i < open
        invariant
            i <= open <= v.len(),
            name == v@.subrange(0, open as int),
            forall|j: int| 0 <= j < i ==> is_kind_char(#[trigger] name[j]),
        decreases open - i,
    {
        if !kind_char(v[i]) {
            assert(name[i as int] == v@[i as int]);
            assert(!is_kind(name));
            return None;
        }
        i += 1;
    }
    assert(is_kind(name));
    let mut k = string_of_range(&v, 0, open);
    if bang {
        k.push('!');
    }
    Some(k)
}

} // verus!
