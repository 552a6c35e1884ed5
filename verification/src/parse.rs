//! Parsing one input line into a binding: the text before the first space is
//! the key sequence, the rest is the output, and an optional ` #` marker
//! starts the description. Lines without a space, or with nothing before the
//! first space, are discarded here, so the table only ever holds bindings
//! with non-empty key sequences.

use vstd::prelude::*;

use crate::bindings::{Binding, BindingModel};

verus! {

/// Index of the first space in `s`, if any.
pub open spec fn first_space(s: Seq<char>) -> Option<int>
    decreases s.len(),
{
    if s.len() == 0 {
        None
    } else if s[0] == ' ' {
        Some(0int)
    } else {
        match first_space(s.drop_first()) {
            Some(i) => Some(i + 1),
            None => None,
        }
    }
}

/// Index of the first ` #` comment marker in `s`, if any.
pub open spec fn first_comment_mark(s: Seq<char>) -> Option<int>
    decreases s.len(),
{
    if s.len() < 2 {
        None
    } else if s[0] == ' ' && s[1] == '#' {
        Some(0int)
    } else {
        match first_comment_mark(s.drop_first()) {
            Some(i) => Some(i + 1),
            None => None,
        }
    }
}

/// What one input line parses to: `None` for a line with no space or with an
/// empty key part; otherwise the key sequence before the first space, and the
/// rest split at the first ` #` marker into output and description (the
/// description keeps whatever follows the `#`, the output whatever precedes
/// the marker's space).
pub open spec fn parse_spec(line: Seq<char>) -> Option<BindingModel> {
    match first_space(line) {
        None => None,
        Some(i) => if i == 0 {
            None
        } else {
            let key = line.subrange(0, i);
            let rest = line.subrange(i + 1, line.len() as int);
            match first_comment_mark(rest) {
                Some(j) => Some(
                    BindingModel {
                        key_sequence: key,
                        output: rest.subrange(0, j),
                        description: rest.subrange(j + 2, rest.len() as int),
                    },
                ),
                None => Some(
                    BindingModel { key_sequence: key, output: rest, description: Seq::empty() },
                ),
            }
        },
    }
}

/// A forward scan that saw no space below `i` has found the first space at
/// `i`, or none at all when it ran off the end.
proof fn lemma_first_space_at(s: Seq<char>, i: int)
    requires
        0 <= i <= s.len(),
        forall|j: int| 0 <= j < i ==> s[j] != ' ',
        i < s.len() ==> s[i] == ' ',
    ensures
        first_space(s) == if i < s.len() {
            Some(i)
        } else {
            None::<int>
        },
    decreases i,
{
    if i == 0 {
    } else {
        let rest = s.drop_first();
        assert forall|j: int| 0 <= j < i - 1 implies rest[j] != ' ' by {
            assert(rest[j] == s[j + 1]);
        }
        assert(i - 1 < rest.len() ==> rest[i - 1] == s[i]);
        lemma_first_space_at(rest, i - 1);
    }
}

/// A forward scan that saw no ` #` pair starting below `i` has found the
/// first marker at `i`, or none at all when no further pair fits.
proof fn lemma_first_comment_mark_at(s: Seq<char>, i: int)
    requires
        0 <= i <= s.len(),
        forall|j: int| 0 <= j < i ==> !(j + 1 < s.len() && #[trigger] s[j] == ' ' && s[j + 1] == '#'),
        i + 1 < s.len() ==> s[i] == ' ' && s[i + 1] == '#',
    ensures
        first_comment_mark(s) == if i + 1 < s.len() {
            Some(i)
        } else {
            None::<int>
        },
    decreases i,
{
    if i == 0 {
    } else {
        if s.len() < 2 {
        } else {
            let rest = s.drop_first();
            assert forall|j: int| 0 <= j < i - 1 implies !(j + 1 < rest.len() && #[trigger] rest[j]
                == ' ' && rest[j + 1] == '#') by {
                assert(rest[j] == s[j + 1]);
                assert(j + 1 < rest.len() ==> rest[j + 1] == s[j + 2]);
            }
            assert(i < rest.len() ==> rest[i - 1] == s[i] && rest[i] == s[i + 1]);
            lemma_first_comment_mark_at(rest, i - 1);
        }
    }
}

/// Copies the characters of `v` in the index range `[from, to)`.
pub fn copy_range(v: &Vec<char>, from: usize, to: usize) -> (r: Vec<char>)
    requires
        from <= to <= v@.len(),
    ensures
        r@ == v@.subrange(from as int, to as int),
{
    let mut r: Vec<char> = Vec::new();
    let mut i: usize = from;
    while i < to
        invariant
            from <= i <= to <= v@.len(),
            r@ == v@.subrange(from as int, i as int),
        decreases to - i,
    {
        r.push(v[i]);
        proof {
            assert(r@ =~= v@.subrange(from as int, i + 1));
        }
        i += 1;
    }
    r
}

/// Parses one input line; `None` means the line is discarded. A parsed
/// binding always carries a non-empty key sequence.
pub fn parse_line(line: &Vec<char>) -> (r: Option<Binding>)
    ensures
        match r {
            Some(b) => parse_spec(line@) == Some(b@) && b@.key_sequence.len() > 0,
            None => parse_spec(line@) is None,
        },
{
    let n = line.len();
    let mut i: usize = 0;
    while i < n && line[i] != ' '
        invariant
            i <= n,
            n == line@.len(),
            forall|j: int| 0 <= j < i ==> line@[j] != ' ',
        decreases n - i,
    {
        i += 1;
    }
    proof {
        lemma_first_space_at(line@, i as int);
    }
    if i == n {
        return None;
    }
    if i == 0 {
        return None;
    }
    let key = copy_range(line, 0, i);
    let rest = copy_range(line, i + 1, n);
    let m = rest.len();
    let mut k: usize = 0;
    while k + 1 < m && !(rest[k] == ' ' && rest[k + 1] == '#')
        invariant
            k == 0 || k + 1 <= m,
            m == rest@.len(),
            forall|j: int|
                0 <= j < k ==> !(j + 1 < rest@.len() && #[trigger] rest@[j] == ' ' && rest@[j + 1] == '#'),
        decreases m - k,
    {
        k += 1;
    }
    proof {
        lemma_first_comment_mark_at(rest@, k as int);
    }
    if k + 1 < m {
        let output = copy_range(&rest, 0, k);
        let description = copy_range(&rest, k + 2, m);
        Some(Binding::new(key, output, description))
    } else {
        let description: Vec<char> = Vec::new();
        proof {
            assert(description@ =~= Seq::<char>::empty());
        }
        Some(Binding::new(key, rest, description))
    }
}

} // verus!
